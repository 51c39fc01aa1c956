//! The chain state of a UTXO chain: three Merkle Mountain Ranges, for
//! plain and coinbase outputs, for signature-locked outputs and for
//! kernels, kept in step with the header MMR and with an index from
//! commitments to positions.
//!
//! Blocks are applied and undone in units of work (`scope`), each over an
//! `extension` of the MMRs and a child batch of the `store`; a unit is kept
//! or dropped as a whole. `txhashset` is the chain state between units of
//! work, `backend` holds the MMRs, `pmmr` knows their shape, `rewind` works
//! out what a rewind brings back, and `laws` states what holds over whole
//! runs of operations.

pub mod backend;
pub mod bitmap;
pub mod error;
pub mod extension;
pub mod files;
pub mod handle;
pub mod hash;
pub mod header_extension;
pub mod laws;
pub mod pmmr;
pub mod rewind;
pub mod scope;
pub mod store;
pub mod txhashset;
pub mod types;
pub mod views;
