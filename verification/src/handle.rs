//! A backend together with the position up to which it has been synced.

use crate::backend::{snapshot_views, spec_get_data, LeafSnapshot, Node, PMMRBackend, PMMR};
use crate::backend::spec_compact;
use crate::bitmap::bitmap_values;
use crate::error::Error;
use crate::hash;
use crate::pmmr::{insertion_to_pmmr_index, leaf_pos, MAX_LEAVES};
use crate::types::{BlockHeader, PMMRable};
use croaring::Bitmap;
use vstd::prelude::*;

verus! {

/// One MMR backend and its last synced position. The two always agree:
/// the last position is the size of what the backend holds.
#[derive(Debug)]
pub struct PMMRHandle<T, const PRUNABLE: bool> {
    backend: PMMRBackend<T, PRUNABLE>,
    last_pos: u64,
}

impl<T, const PRUNABLE: bool> PMMRHandle<T, PRUNABLE> {
    /// The nodes that the backend holds.
    pub closed spec fn view(&self) -> Seq<Node<T>> {
        self.backend@
    }

    /// The snapshots that the backend holds.
    pub closed spec fn spec_snapshots(&self) -> Seq<(hash::Hash, Seq<u64>)> {
        self.backend.spec_snapshots()
    }

    /// The last synced position.
    pub closed spec fn spec_last_pos(&self) -> u64 {
        self.last_pos
    }

    /// The last position is always the size of what the backend holds.
    #[verifier::type_invariant]
    pub closed spec fn agrees(&self) -> bool {
        self.last_pos == self.backend@.len()
    }
}

impl<T: PMMRable, const PRUNABLE: bool> PMMRHandle<T, PRUNABLE> {
    /// The handle of a backend, at the size of what it holds.
    pub fn new(backend: PMMRBackend<T, PRUNABLE>) -> (h: Self)
        ensures
            h@ == backend@,
            h.spec_snapshots() == backend.spec_snapshots(),
            h.spec_last_pos() == backend@.len(),
    {
        let last_pos = backend.unpruned_size();
        PMMRHandle { backend, last_pos }
    }

    /// The last synced position: the number of nodes in the backend.
    pub fn last_pos(&self) -> (pos: u64)
        ensures
            pos == self.spec_last_pos(),
            pos == self@.len(),
    {
        proof {
            use_type_invariant(self);
        }
        self.last_pos
    }

    /// The backend.
    pub fn backend(&self) -> (b: &PMMRBackend<T, PRUNABLE>)
        ensures
            b@ == self@,
            b.spec_snapshots() == self.spec_snapshots(),
    {
        &self.backend
    }

    /// The MMR as it was last synced.
    pub fn pmmr(&self) -> (r: &PMMR<T, PRUNABLE>)
        ensures
            r@ == self@,
    {
        self.backend.pmmr()
    }

    /// A copy of the MMR for a unit of work to change.
    pub fn begin(&self) -> (r: PMMR<T, PRUNABLE>)
        ensures
            r@ == self@,
    {
        self.backend.begin()
    }

    /// Takes the backend out, leaving an empty one in its place.
    fn take(&mut self) -> (backend: PMMRBackend<T, PRUNABLE>)
        ensures
            backend@ == old(self)@,
            backend@.len() == old(self).spec_last_pos(),
            backend.spec_snapshots() == old(self).spec_snapshots(),
    {
        proof {
            use_type_invariant(&*self);
        }
        let mut taken = PMMRHandle::new(PMMRBackend::new());
        core::mem::swap(self, &mut taken);
        let PMMRHandle { backend, last_pos: _ } = taken;
        backend
    }

    /// Ends a unit of work by keeping what it did: syncs the backend, then
    /// moves the last position to its new size.
    pub fn sync(&mut self, pmmr: PMMR<T, PRUNABLE>)
        requires
        ensures
            final(self)@ == pmmr@,
            final(self).spec_last_pos() == pmmr@.len(),
            final(self).spec_snapshots() == old(self).spec_snapshots(),
    {
        let mut backend = self.take();
        backend.sync(pmmr);
        *self = PMMRHandle::new(backend);
    }

    /// Ends a unit of work by dropping what it did.
    pub fn discard(&mut self, pmmr: PMMR<T, PRUNABLE>)
        ensures
            final(self)@ == old(self)@,
            final(self).spec_last_pos() == old(self).spec_last_pos(),
            final(self).spec_snapshots() == old(self).spec_snapshots(),
    {
        let mut backend = self.take();
        backend.discard(pmmr);
        *self = PMMRHandle::new(backend);
    }

    /// Hands the backend the snapshots that a unit of work took.
    pub fn add_snapshots(&mut self, more: Vec<LeafSnapshot>)
        ensures
            final(self)@ == old(self)@,
            final(self).spec_last_pos() == old(self).spec_last_pos(),
            final(self).spec_snapshots() == old(self).spec_snapshots() + snapshot_views(more@),
    {
        let mut backend = self.take();
        backend.add_snapshots(more);
        *self = PMMRHandle::new(backend);
    }

    /// Compacts the backend up to `cutoff`, sparing what `keep` names.
    pub fn check_compact(&mut self, cutoff: u64, keep: &Bitmap)
        ensures
            final(self)@ == spec_compact(old(self)@, cutoff, bitmap_values(*keep)),
            final(self).spec_last_pos() == old(self).spec_last_pos(),
            final(self).spec_snapshots() == old(self).spec_snapshots(),
    {
        let mut backend = self.take();
        backend.check_compact(cutoff, keep);
        *self = PMMRHandle::new(backend);
    }

    /// Lets go of what the backend holds open.
    pub fn release_files(&mut self)
        ensures
            final(self)@ == old(self)@,
            final(self).spec_last_pos() == old(self).spec_last_pos(),
            final(self).spec_snapshots() == old(self).spec_snapshots(),
    {
        let mut backend = self.take();
        backend.release_files();
        *self = PMMRHandle::new(backend);
    }
}

/// The position of the header of the block at `height` in the header MMR.
pub open spec fn header_pos(height: u64) -> nat {
    leaf_pos(height as nat)
}

/// The hash of the header that the header MMR holds for `height`.
pub open spec fn spec_header_hash(nodes: Seq<Node<BlockHeader>>, height: u64) -> Option<hash::Hash> {
    if height < MAX_LEAVES {
        match spec_get_data(nodes, header_pos(height) as u64) {
            Some(header) => Some(header.hash),
            None => None,
        }
    } else {
        None
    }
}

/// Reads the hash of the header at `height` from a header MMR.
pub fn header_hash_at(pmmr: &PMMR<BlockHeader, false>, height: u64) -> (r: Option<hash::Hash>)
    ensures
        r == spec_header_hash(pmmr@, height),
{
    if height >= MAX_LEAVES {
        return None;
    }
    let pos = insertion_to_pmmr_index(height + 1);
    match pmmr.get_data(pos) {
        Some(entry) => Some(entry.hash()),
        None => None,
    }
}

impl PMMRHandle<BlockHeader, false> {
    /// The hash of the header at `height`, as the header MMR has it.
    pub fn get_header_hash_by_height(&self, height: u64) -> (r: Result<hash::Hash, Error>)
        ensures
            match r {
                Ok(h) => spec_header_hash(self@, height) == Some(h),
                Err(e) => spec_header_hash(self@, height) is None && e matches Error::Other(_),
            },
    {
        match header_hash_at(self.backend.pmmr(), height) {
            Some(h) => Ok(h),
            None => Err(Error::Other("get header hash by height".to_string())),
        }
    }
}

} // verus!
