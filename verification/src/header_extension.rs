//! A unit of work on the header MMR, which may run ahead of the body MMRs:
//! headers are validated before the full blocks arrive.

use crate::backend::{
    rewind_size, spec_get_data, spec_push, spec_rewind, spec_root, Node, PMMR,
};
use crate::bitmap::bitmap_new;
use crate::error::{Error, ErrorKind};
use crate::handle::{header_pos, spec_header_hash};
use crate::hash;
use crate::pmmr::{insertion_to_pmmr_index, MAX_LEAVES};
use crate::store::{Batch, StoreView};
use crate::types::{BlockHeader, Tip};
use vstd::prelude::*;

verus! {

/// A header extension, as values.
pub struct HeaderExtensionView {
    /// The header up to which the extension has come.
    pub head: Tip,
    /// The nodes of the header MMR, as the extension sees them.
    pub nodes: Seq<Node<BlockHeader>>,
    /// Whether the extension is to be dropped, whatever its result.
    pub rollback: bool,
    /// The batch in which the extension runs.
    pub batch: StoreView,
}

impl HeaderExtensionView {
    /// The header at `height` on the chain of the extension: the header MMR
    /// gives its hash (`Other` where it has none), the batch gives the
    /// header (`StoreErr` where it has none).
    pub open spec fn header_by_height(self, height: u64) -> Result<BlockHeader, ErrorKind> {
        match spec_header_hash(self.nodes, height) {
            None => Err(ErrorKind::Other),
            Some(hash) => match self.batch.header(hash) {
                None => Err(ErrorKind::StoreErr),
                Some(header) => Ok(header),
            },
        }
    }

    /// Whether `header` is on the chain of the extension: it is not above
    /// the head, and the header that the chain has at its height has its
    /// hash.
    pub open spec fn is_on_current_chain(self, header: BlockHeader) -> Result<(), ErrorKind> {
        if header.height > self.head.height {
            Err(ErrorKind::Other)
        } else {
            match self.header_by_height(header.height) {
                Err(e) => Err(e),
                Ok(chain_header) => if chain_header.hash == header.hash {
                    Ok(())
                } else {
                    Err(ErrorKind::Other)
                },
            }
        }
    }

    /// The position to which a rewind to `header` goes: that of the header
    /// in the MMR. A height beyond what an MMR can hold has none.
    pub open spec fn rewind_pos(header: BlockHeader) -> Option<u64> {
        if header.height < MAX_LEAVES {
            Some(header_pos(header.height) as u64)
        } else {
            None
        }
    }

    /// The extension after a rewind to `header`, or `TxHashSetErr` where
    /// the MMR does not reach that far.
    pub open spec fn rewind(self, header: BlockHeader) -> Result<HeaderExtensionView, ErrorKind> {
        match Self::rewind_pos(header) {
            None => Err(ErrorKind::TxHashSetErr),
            Some(pos) => if rewind_size(pos) > self.nodes.len() {
                Err(ErrorKind::TxHashSetErr)
            } else {
                Ok(
                    HeaderExtensionView {
                        head: Tip::spec_from_header(header),
                        nodes: spec_rewind(self.nodes, pos, Set::empty()),
                        ..self
                    },
                )
            },
        }
    }

    /// The extension after `header` has been added, or `TxHashSetErr` where
    /// the MMR is full.
    pub open spec fn apply_header(self, header: BlockHeader) -> Result<
        HeaderExtensionView,
        ErrorKind,
    > {
        if self.nodes.len() == u64::MAX {
            Err(ErrorKind::TxHashSetErr)
        } else {
            Ok(
                HeaderExtensionView {
                    head: Tip::spec_from_header(header),
                    nodes: spec_push(self.nodes, header),
                    ..self
                },
            )
        }
    }

    /// Whether the root of the header MMR is the one that `header` names as
    /// the root before it. The genesis header names none and passes.
    pub open spec fn validate_root(self, header: BlockHeader) -> Result<(), ErrorKind> {
        if header.height == 0 || spec_root(self.nodes) == header.prev_root {
            Ok(())
        } else {
            Err(ErrorKind::InvalidRoot)
        }
    }
}

/// A unit of work on the header MMR.
pub struct HeaderExtension {
    head: Tip,
    pmmr: PMMR<BlockHeader, false>,
    rollback: bool,
    batch: Batch,
}

impl HeaderExtension {
    /// The extension, as values.
    pub closed spec fn view(&self) -> HeaderExtensionView {
        HeaderExtensionView {
            head: self.head,
            nodes: self.pmmr@,
            rollback: self.rollback,
            batch: self.batch@,
        }
    }

    /// A new extension over a copy of the header MMR, in `batch`, at
    /// `head`.
    pub(crate) fn new(pmmr: PMMR<BlockHeader, false>, batch: Batch, head: Tip) -> (ext: Self)
        ensures
            ext@ == (HeaderExtensionView {
                head,
                nodes: pmmr@,
                rollback: false,
                batch: batch@,
            }),
    {
        HeaderExtension { head, pmmr, rollback: false, batch }
    }

    /// Takes the extension apart at the end of its unit of work.
    pub(crate) fn into_parts(self) -> (parts: (PMMR<BlockHeader, false>, Batch, bool))
        ensures
            parts.0@ == self@.nodes,
            parts.1@ == self@.batch,
            parts.2 == self@.rollback,
    {
        (self.pmmr, self.batch, self.rollback)
    }

    /// The header MMR as the extension sees it.
    pub fn pmmr(&self) -> (r: &PMMR<BlockHeader, false>)
        ensures
            r@ == self@.nodes,
    {
        &self.pmmr
    }

    /// The batch in which the extension runs.
    pub fn batch(&self) -> (b: &Batch)
        ensures
            b@ == self@.batch,
    {
        &self.batch
    }

    /// The hash of the header stored at position `pos`.
    fn get_header_hash(&self, pos: u64) -> (r: Option<hash::Hash>)
        ensures
            r == match spec_get_data(self@.nodes, pos) {
                Some(header) => Some(header.hash),
                None => None,
            },
    {
        match self.pmmr.get_data(pos) {
            Some(header) => Some(header.hash()),
            None => None,
        }
    }

    /// The header up to which the extension has come.
    pub fn head(&self) -> (tip: Tip)
        ensures
            tip == self@.head,
    {
        self.head
    }

    /// The header at `height` on the chain of the extension.
    pub fn get_header_by_height(&self, height: u64) -> (r: Result<BlockHeader, Error>)
        ensures
            match r {
                Ok(header) => self@.header_by_height(height) == Ok::<BlockHeader, ErrorKind>(header),
                Err(e) => self@.header_by_height(height) == Err::<BlockHeader, ErrorKind>(
                    e.spec_kind(),
                ),
            },
    {
        if height >= MAX_LEAVES {
            return Err(Error::Other("get header by height".to_string()));
        }
        let pos = insertion_to_pmmr_index(height + 1);
        match self.get_header_hash(pos) {
            Some(hash) => match self.batch.get_block_header(&hash) {
                Ok(header) => Ok(header),
                Err(e) => Err(Error::store(e, "get header by height")),
            },
            None => Err(Error::Other("get header by height".to_string())),
        }
    }

    /// Checks that `header` is on the chain of the extension.
    pub fn is_on_current_chain(&self, header: &BlockHeader) -> (r: Result<(), Error>)
        ensures
            match r {
                Ok(()) => self@.is_on_current_chain(*header) is Ok,
                Err(e) => self@.is_on_current_chain(*header) == Err::<(), ErrorKind>(e.spec_kind()),
            },
    {
        if header.height > self.head.height {
            return Err(Error::Other("not on current chain, out beyond".to_string()));
        }
        let chain_header = self.get_header_by_height(header.height)?;
        if chain_header.hash().same(&header.hash()) {
            Ok(())
        } else {
            Err(Error::Other("not on current chain".to_string()))
        }
    }

    /// Marks the extension to be dropped, whatever its result.
    pub fn force_rollback(&mut self)
        ensures
            final(self)@ == (HeaderExtensionView { rollback: true, ..old(self)@ }),
    {
        self.rollback = true;
    }

    /// Adds `header` to the header MMR and makes it the head.
    pub fn apply_header(&mut self, header: &BlockHeader) -> (r: Result<(), Error>)
        ensures
            match r {
                Ok(()) => old(self)@.apply_header(*header) == Ok::<HeaderExtensionView, ErrorKind>(
                    final(self)@,
                ),
                Err(e) => final(self)@ == old(self)@ && old(self)@.apply_header(*header) == Err::<
                    HeaderExtensionView,
                    ErrorKind,
                >(e.spec_kind()),
            },
    {
        match self.pmmr.push(header) {
            Ok(_) => {},
            Err(e) => {
                return Err(Error::TxHashSetErr(e));
            },
        }
        self.head = Tip::from_header(header);
        Ok(())
    }

    /// Rewinds the header MMR to `header` and makes it the head.
    pub fn rewind(&mut self, header: &BlockHeader) -> (r: Result<(), Error>)
        ensures
            match r {
                Ok(()) => old(self)@.rewind(*header) == Ok::<HeaderExtensionView, ErrorKind>(
                    final(self)@,
                ),
                Err(e) => final(self)@ == old(self)@ && old(self)@.rewind(*header) == Err::<
                    HeaderExtensionView,
                    ErrorKind,
                >(e.spec_kind()),
            },
    {
        if header.height >= MAX_LEAVES {
            return Err(Error::TxHashSetErr("no such position in the mmr".to_string()));
        }
        let header_pos = insertion_to_pmmr_index(header.height + 1);
        match self.pmmr.rewind(header_pos, &bitmap_new()) {
            Ok(()) => {},
            Err(e) => {
                return Err(Error::TxHashSetErr(e));
            },
        }
        self.head = Tip::from_header(header);
        Ok(())
    }

    /// The size of the header MMR.
    pub fn size(&self) -> (size: u64)
        ensures
            size == self@.nodes.len(),
    {
        self.pmmr.unpruned_size()
    }

    /// The root of the header MMR.
    pub fn root(&self) -> (r: Result<hash::Hash, Error>)
        ensures
            r == Ok::<hash::Hash, Error>(spec_root(self@.nodes)),
    {
        Ok(self.pmmr.root())
    }

    /// Checks the root of the header MMR against the root that `header`
    /// names as the one before it.
    pub fn validate_root(&self, header: &BlockHeader) -> (r: Result<(), Error>)
        ensures
            match r {
                Ok(()) => self@.validate_root(*header) is Ok,
                Err(e) => self@.validate_root(*header) == Err::<(), ErrorKind>(e.spec_kind()),
            },
    {
        if header.height == 0 {
            return Ok(());
        }
        let root = self.root()?;
        if !root.same(&header.prev_root) {
            Err(Error::InvalidRoot)
        } else {
            Ok(())
        }
    }
}

} // verus!
