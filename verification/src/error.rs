//! The errors that the chain state reports.

use crate::types::Commitment;
use vstd::prelude::*;

verus! {

/// A failure of the key-value store.
#[derive(Clone, Debug, PartialEq, Eq)]
pub enum StoreError {
    /// Nothing is stored under the key; the text names what was looked for.
    NotFoundErr(String),
}

/// What can go wrong in the chain state.
#[derive(Clone, Debug, PartialEq, Eq)]
pub enum Error {
    /// The index holds nothing for the commitment.
    OutputNotFound,
    /// The output to spend is missing or was spent before.
    AlreadySpent(Commitment),
    /// A live output already bears the commitment.
    DuplicateCommitment(Commitment),
    /// An MMR holds something other than what the index promised, or its
    /// backend refused an operation.
    TxHashSetErr(String),
    /// A root differs from the one in the header.
    InvalidRoot,
    /// An MMR size differs from the one in the header.
    InvalidMMRSize,
    /// An MMR failed its own validation.
    InvalidTxHashSet(String),
    /// No Merkle proof could be built.
    MerkleProof,
    /// A kernel leaf is missing.
    TxKernelNotFound,
    /// No rewind bitmap came out of the fold.
    Bitmap,
    /// A file or a directory could not be read, written or moved.
    Io(String),
    /// Anything else, with its reason.
    Other(String),
    /// The store failed; the text says during what.
    StoreErr(StoreError, String),
}

/// The kind of an error: the error without its texts.
#[derive(Clone, Copy, Debug, PartialEq, Eq)]
pub enum ErrorKind {
    OutputNotFound,
    AlreadySpent(Commitment),
    DuplicateCommitment(Commitment),
    TxHashSetErr,
    InvalidRoot,
    InvalidMMRSize,
    InvalidTxHashSet,
    MerkleProof,
    TxKernelNotFound,
    Bitmap,
    Io,
    Other,
    StoreErr,
}

impl Error {
    /// The kind of the error.
    pub open spec fn spec_kind(&self) -> ErrorKind {
        match self {
            Error::OutputNotFound => ErrorKind::OutputNotFound,
            Error::AlreadySpent(c) => ErrorKind::AlreadySpent(*c),
            Error::DuplicateCommitment(c) => ErrorKind::DuplicateCommitment(*c),
            Error::TxHashSetErr(_) => ErrorKind::TxHashSetErr,
            Error::InvalidRoot => ErrorKind::InvalidRoot,
            Error::InvalidMMRSize => ErrorKind::InvalidMMRSize,
            Error::InvalidTxHashSet(_) => ErrorKind::InvalidTxHashSet,
            Error::MerkleProof => ErrorKind::MerkleProof,
            Error::TxKernelNotFound => ErrorKind::TxKernelNotFound,
            Error::Bitmap => ErrorKind::Bitmap,
            Error::Io(_) => ErrorKind::Io,
            Error::Other(_) => ErrorKind::Other,
            Error::StoreErr(_, _) => ErrorKind::StoreErr,
        }
    }

    /// The kind of the error.
    pub fn kind(&self) -> (k: ErrorKind)
        ensures
            k == self.spec_kind(),
    {
        match self {
            Error::OutputNotFound => ErrorKind::OutputNotFound,
            Error::AlreadySpent(c) => ErrorKind::AlreadySpent(*c),
            Error::DuplicateCommitment(c) => ErrorKind::DuplicateCommitment(*c),
            Error::TxHashSetErr(_) => ErrorKind::TxHashSetErr,
            Error::InvalidRoot => ErrorKind::InvalidRoot,
            Error::InvalidMMRSize => ErrorKind::InvalidMMRSize,
            Error::InvalidTxHashSet(_) => ErrorKind::InvalidTxHashSet,
            Error::MerkleProof => ErrorKind::MerkleProof,
            Error::TxKernelNotFound => ErrorKind::TxKernelNotFound,
            Error::Bitmap => ErrorKind::Bitmap,
            Error::Io(_) => ErrorKind::Io,
            Error::Other(_) => ErrorKind::Other,
            Error::StoreErr(_, _) => ErrorKind::StoreErr,
        }
    }

    /// The store's failure `e`, met during `context`.
    pub fn store(e: StoreError, context: &str) -> (err: Error)
        ensures
            err.spec_kind() == ErrorKind::StoreErr,
    {
        Error::StoreErr(e, context.to_string())
    }
}

} // verus!
