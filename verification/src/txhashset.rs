//! The chain state: the two output MMRs and the kernel MMR, with the index
//! from commitments to positions, as they stand when no unit of work is
//! open.

use crate::backend::{
    elements_from, last_insertions, snapshot_for, snapshot_views, spec_compact, spec_get_data,
    spec_merkle_proof, spec_restore, spec_root, LeafSnapshot, MerkleProof, Node, PMMRBackend, PMMR,
};
use crate::error::{Error, ErrorKind, StoreError};
use crate::handle::{spec_header_hash, PMMRHandle};
use crate::hash::{self, hash_with_index};
use crate::pmmr::{n_leaves, spec_n_leaves};
use crate::rewind::{input_pos_to_rewind, spec_input_pos_to_rewind};
use crate::store::{Batch, ChainStore, StoreView};
use crate::types::{
    BlockHeader, Commitment, OutputFeaturePosHeight, OutputFeatures, OutputI, OutputII,
    OutputIdentifier, OutputMMRPosition, OutputRecord, TxHashSetRoots, TxKernel,
};
use vstd::prelude::*;

verus! {

/// What the look at a leaf found, for a commitment that it should bear.
#[derive(Clone, Copy, Debug, PartialEq, Eq)]
pub enum LeafCheck {
    /// No leaf lives there.
    Missing,
    /// A leaf lives there, but with another hash than its data gives, or
    /// with another commitment.
    Mismatch,
    /// The leaf lives there, with this hash and these features.
    Found(hash::Hash, OutputIdentifier),
}

/// The look at the leaf at `pos` for `commit`.
pub open spec fn spec_check_leaf<T: OutputRecord>(
    nodes: Seq<Node<T>>,
    pos: u64,
    commit: Commitment,
) -> LeafCheck {
    match spec_get_data(nodes, pos) {
        None => LeafCheck::Missing,
        Some(record) => if nodes[pos - 1].hash == hash_with_index(
            (pos - 1) as u64,
            record.spec_bytes(),
        ) && record.spec_id().commit == commit {
            LeafCheck::Found(nodes[pos - 1].hash, record.spec_id())
        } else {
            LeafCheck::Mismatch
        },
    }
}

/// Looks at the leaf at `pos`: whether it lives, has the hash that its
/// data gives at that position, and bears `commit`.
pub fn check_leaf<T: OutputRecord, const PRUNABLE: bool>(
    pmmr: &PMMR<T, PRUNABLE>,
    pos: u64,
    commit: &Commitment,
) -> (r: LeafCheck)
    ensures
        r == spec_check_leaf(pmmr@, pos, *commit),
{
    let record = match pmmr.get_data(pos) {
        Some(record) => record,
        None => {
            return LeafCheck::Missing;
        },
    };
    let stored = match pmmr.get_hash(pos) {
        Some(stored) => stored,
        None => {
            return LeafCheck::Missing;
        },
    };
    let bytes = record.to_bytes();
    let expected = hash::Hash::with_index(pos - 1, &bytes);
    let id = record.id();
    if stored.same(&expected) && id.commit.same(commit) {
        LeafCheck::Found(stored, id)
    } else {
        LeafCheck::Mismatch
    }
}

/// The three body MMRs and the index, as values.
pub struct TxHashSetView {
    /// The nodes of the MMR of plain and coinbase outputs.
    pub output_i: Seq<Node<OutputI>>,
    /// The nodes of the MMR of signature-locked outputs.
    pub output_ii: Seq<Node<OutputII>>,
    /// The nodes of the kernel MMR.
    pub kernel: Seq<Node<TxKernel>>,
    /// The store with the index.
    pub store: StoreView,
}

impl TxHashSetView {
    /// The look at the output leaf that the index names for `commit`: in
    /// the MMR that its features select, at its position.
    pub open spec fn check_output(
        self,
        features: OutputFeatures,
        pos: u64,
        commit: Commitment,
    ) -> LeafCheck {
        if features.spec_is_siglocked() {
            spec_check_leaf(self.output_ii, pos, commit)
        } else {
            spec_check_leaf(self.output_i, pos, commit)
        }
    }

    /// Whether `commit` is unspent, and where: an index miss is
    /// `OutputNotFound`, an entry without a live leaf `AlreadySpent`, a leaf
    /// that fails the check `TxHashSetErr`.
    pub open spec fn is_unspent(self, commit: Commitment) -> Result<OutputMMRPosition, ErrorKind> {
        match self.store.output(commit) {
            None => Err(ErrorKind::OutputNotFound),
            Some(entry) => match self.check_output(entry.features, entry.position, commit) {
                LeafCheck::Missing => Err(ErrorKind::AlreadySpent(commit)),
                LeafCheck::Mismatch => Err(ErrorKind::TxHashSetErr),
                LeafCheck::Found(stored, id) => Ok(
                    OutputMMRPosition {
                        output_mmr_hash: stored,
                        position: entry.position,
                        height: entry.height,
                        features: id.features,
                    },
                ),
            },
        }
    }

    /// The roots of the three MMRs.
    pub open spec fn roots(self) -> TxHashSetRoots {
        TxHashSetRoots {
            output_i_root: spec_root(self.output_i),
            output_ii_root: spec_root(self.output_ii),
            kernel_root: spec_root(self.kernel),
        }
    }

    /// The sizes of the three MMRs.
    pub open spec fn sizes(self) -> (u64, u64, u64) {
        (self.output_i.len() as u64, self.output_ii.len() as u64, self.kernel.len() as u64)
    }

    /// The Merkle proof for the leaf at `pos` of the output MMR that
    /// `features` select, as its size and path.
    pub open spec fn output_proof(self, features: OutputFeatures, pos: u64) -> Option<
        (u64, Seq<hash::Hash>),
    > {
        if features.spec_is_siglocked() {
            spec_merkle_proof(self.output_ii, pos)
        } else {
            spec_merkle_proof(self.output_i, pos)
        }
    }
}

/// Whether the live kernel at `pos` has the excess `excess`.
pub open spec fn kernel_matches(nodes: Seq<Node<TxKernel>>, pos: u64, excess: Commitment) -> bool {
    match spec_get_data(nodes, pos) {
        Some(kernel) => kernel.excess == excess,
        None => false,
    }
}

/// The identifiers and positions of the live leaves among the first
/// `upto` nodes, in rising order of position.
pub open spec fn live_outputs<T: OutputRecord>(nodes: Seq<Node<T>>, upto: nat) -> Seq<
    (OutputIdentifier, u64),
>
    decreases upto,
{
    if upto == 0 {
        Seq::empty()
    } else {
        let rest = live_outputs(nodes, (upto - 1) as nat);
        let node = nodes[upto - 1];
        if node.live && node.data is Some {
            rest.push((node.data->Some_0.spec_id(), upto as u64))
        } else {
            rest
        }
    }
}

/// The size of the output MMR that `header` commits to: that of the
/// signature-locked outputs, or that of the others.
pub open spec fn header_output_size(header: BlockHeader, siglocked: bool) -> u64 {
    if siglocked {
        header.output_ii_mmr_size
    } else {
        header.output_i_mmr_size
    }
}

/// The index entry that a rebuild stores for a leaf found below the size
/// of the block at `height`. The first leaf of the first output MMR is the
/// output of the genesis block, and gets height 0.
pub open spec fn rebuilt_entry(
    id: OutputIdentifier,
    pos: u64,
    height: u64,
    siglocked: bool,
) -> OutputFeaturePosHeight {
    OutputFeaturePosHeight {
        features: id.features,
        position: pos,
        height: if !siglocked && pos == 1 {
            0
        } else {
            height
        },
    }
}

/// The index after the leaves `outputs[from..]` that lie within `size`
/// have been entered for the block at `height`, and the number of the first
/// leaf that does not.
pub open spec fn index_within(
    outputs: Seq<(OutputIdentifier, u64)>,
    from: nat,
    size: u64,
    height: u64,
    siglocked: bool,
    index: Map<Commitment, OutputFeaturePosHeight>,
) -> (nat, Map<Commitment, OutputFeaturePosHeight>)
    decreases outputs.len() - from,
{
    if from >= outputs.len() || outputs[from as int].1 > size {
        (from, index)
    } else {
        let (id, pos) = outputs[from as int];
        index_within(
            outputs,
            from + 1,
            size,
            height,
            siglocked,
            index.insert(id.commit, rebuilt_entry(id, pos, height, siglocked)),
        )
    }
}

/// The index after the blocks at heights `1..=upto` have been walked: for
/// each height the header MMR gives the hash (`Other` where it has none),
/// the store gives the header (`StoreErr` where it has none), and the
/// leaves not yet entered that lie within the header's size are entered
/// with the header's height.
pub open spec fn index_heights(
    outputs: Seq<(OutputIdentifier, u64)>,
    headers: Seq<Node<BlockHeader>>,
    store: StoreView,
    siglocked: bool,
    start: Map<Commitment, OutputFeaturePosHeight>,
    upto: nat,
) -> Result<(nat, Map<Commitment, OutputFeaturePosHeight>), ErrorKind>
    decreases upto,
{
    if upto == 0 {
        Ok((0, start))
    } else {
        match index_heights(outputs, headers, store, siglocked, start, (upto - 1) as nat) {
            Err(e) => Err(e),
            Ok((from, index)) => match spec_header_hash(headers, upto as u64) {
                None => Err(ErrorKind::Other),
                Some(hash) => match store.header(hash) {
                    None => Err(ErrorKind::StoreErr),
                    Some(header) => Ok(
                        index_within(
                            outputs,
                            from,
                            header_output_size(header, siglocked),
                            header.height,
                            siglocked,
                            index,
                        ),
                    ),
                },
            },
        }
    }
}

/// The output index that a rebuild leaves: that of the first output MMR
/// walked over all heights up to the head, then that of the second on top
/// of it. Nothing of the index before remains.
pub open spec fn spec_rebuilt_index(
    set: TxHashSetView,
    headers: Seq<Node<BlockHeader>>,
    store: StoreView,
) -> Result<Map<Commitment, OutputFeaturePosHeight>, ErrorKind> {
    match store.head {
        None => Err(ErrorKind::StoreErr),
        Some(head) => match index_heights(
            live_outputs(set.output_i, set.output_i.len()),
            headers,
            store,
            false,
            Map::empty(),
            head.height as nat,
        ) {
            Err(e) => Err(e),
            Ok((_, first)) => match index_heights(
                live_outputs(set.output_ii, set.output_ii.len()),
                headers,
                store,
                true,
                first,
                head.height as nat,
            ) {
                Err(e) => Err(e),
                Ok((_, second)) => Ok(second),
            },
        },
    }
}

/// The identifiers and positions of the live leaves of an output MMR.
fn collect_live_outputs<T: OutputRecord, const PRUNABLE: bool>(pmmr: &PMMR<T, PRUNABLE>) -> (r: Vec<
    (OutputIdentifier, u64),
>)
    ensures
        r@ == live_outputs(pmmr@, pmmr@.len()),
{
    let nodes = pmmr.nodes();
    let size = pmmr.unpruned_size();
    let mut out: Vec<(OutputIdentifier, u64)> = Vec::new();
    let mut i: usize = 0;
    while i < nodes.len()
        invariant
            i <= nodes@.len(),
            nodes@ == pmmr@,
            nodes@.len() == size,
            out@ == live_outputs(pmmr@, i as nat),
        decreases nodes@.len() - i,
    {
        let node = nodes[i];
        if node.live {
            if let Some(record) = node.data {
                out.push((record.id(), (i + 1) as u64));
            }
        }
        i += 1;
    }
    out
}

/// Walks the heights up to `max_height` and enters the leaves of one output
/// MMR into the index of `batch`.
fn index_outputs(
    outputs: &Vec<(OutputIdentifier, u64)>,
    header_pmmr: &PMMRHandle<BlockHeader, false>,
    batch: &mut Batch,
    siglocked: bool,
    max_height: u64,
) -> (r: Result<(), Error>)
    ensures
        final(batch)@.head == old(batch)@.head,
        final(batch)@.header_head == old(batch)@.header_head,
        final(batch)@.headers == old(batch)@.headers,
        final(batch)@.input_bitmaps == old(batch)@.input_bitmaps,
        final(batch)@.kernels == old(batch)@.kernels,
        match r {
            Ok(()) => {
                let walked = index_heights(
                    outputs@,
                    header_pmmr@,
                    old(batch)@,
                    siglocked,
                    old(batch)@.outputs,
                    max_height as nat,
                );
                walked is Ok && final(batch)@.outputs == walked->Ok_0.1
            },
            Err(e) => index_heights(
                outputs@,
                header_pmmr@,
                old(batch)@,
                siglocked,
                old(batch)@.outputs,
                max_height as nat,
            ) == Err::<(nat, Map<Commitment, OutputFeaturePosHeight>), ErrorKind>(e.spec_kind()),
        },
{
    let ghost store = batch@;
    let ghost start = batch@.outputs;
    let total = outputs.len();
    let mut i: usize = 0;
    let mut height: u64 = 0;
    while height < max_height
        invariant
            height <= max_height,
            i <= total,
            total == outputs@.len(),
            batch@.head == store.head,
            batch@.header_head == store.header_head,
            batch@.headers == store.headers,
            batch@.input_bitmaps == store.input_bitmaps,
            batch@.kernels == store.kernels,
            store == old(batch)@,
            start == store.outputs,
            index_heights(outputs@, header_pmmr@, store, siglocked, start, height as nat) == Ok::<
                (nat, Map<Commitment, OutputFeaturePosHeight>),
                ErrorKind,
            >((i as nat, batch@.outputs)),
        decreases max_height - height,
    {
        height += 1;
        let hash = match header_pmmr.get_header_hash_by_height(height) {
            Ok(hash) => hash,
            Err(e) => {
                proof {
                    lemma_index_heights_fails(
                        outputs@,
                        header_pmmr@,
                        store,
                        siglocked,
                        start,
                        height as nat,
                        max_height as nat,
                    );
                }
                return Err(e);
            },
        };
        let header = match batch.get_block_header(&hash) {
            Ok(header) => header,
            Err(e) => {
                proof {
                    lemma_index_heights_fails(
                        outputs@,
                        header_pmmr@,
                        store,
                        siglocked,
                        start,
                        height as nat,
                        max_height as nat,
                    );
                }
                return Err(Error::store(e, "rebuild height and position index"));
            },
        };
        let size = if siglocked {
            header.output_ii_mmr_size
        } else {
            header.output_i_mmr_size
        };
        let ghost before = batch@.outputs;
        let ghost first = i as nat;
        while i < total && outputs[i].1 <= size
            invariant
                i <= total,
                total == outputs@.len(),
                size == header_output_size(header, siglocked),
                batch@.head == store.head,
                batch@.header_head == store.header_head,
                batch@.headers == store.headers,
                batch@.input_bitmaps == store.input_bitmaps,
                batch@.kernels == store.kernels,
                index_within(outputs@, first, size, header.height, siglocked, before)
                    == index_within(
                    outputs@,
                    i as nat,
                    size,
                    header.height,
                    siglocked,
                    batch@.outputs,
                ),
            decreases total - i,
        {
            let (id, position) = outputs[i];
            let entry_height = if !siglocked && position == 1 {
                0
            } else {
                header.height
            };
            batch.save_output_pos_height(
                &id.commit,
                OutputFeaturePosHeight { features: id.features, position, height: entry_height },
            );
            i += 1;
        }
    }
    Ok(())
}

/// A walk that fails at one height fails at every height after it, in the
/// same way.
proof fn lemma_index_heights_fails(
    outputs: Seq<(OutputIdentifier, u64)>,
    headers: Seq<Node<BlockHeader>>,
    store: StoreView,
    siglocked: bool,
    start: Map<Commitment, OutputFeaturePosHeight>,
    at: nat,
    upto: nat,
)
    requires
        at <= upto,
        index_heights(outputs, headers, store, siglocked, start, at) is Err,
    ensures
        index_heights(outputs, headers, store, siglocked, start, upto) == index_heights(
            outputs,
            headers,
            store,
            siglocked,
            start,
            at,
        ),
    decreases upto - at,
{
    if at < upto {
        lemma_index_heights_fails(outputs, headers, store, siglocked, start, at, (upto - 1) as nat);
    }
}

/// The chain state between units of work.
pub struct TxHashSet {
    output_i_pmmr_h: PMMRHandle<OutputI, true>,
    output_ii_pmmr_h: PMMRHandle<OutputII, true>,
    kernel_pmmr_h: PMMRHandle<TxKernel, false>,
    commit_index: ChainStore,
}

impl TxHashSet {
    /// The MMRs and the store, as values.
    pub closed spec fn view(&self) -> TxHashSetView {
        TxHashSetView {
            output_i: self.output_i_pmmr_h@,
            output_ii: self.output_ii_pmmr_h@,
            kernel: self.kernel_pmmr_h@,
            store: self.commit_index@,
        }
    }

    /// The leaf snapshots taken of the MMR of plain and coinbase outputs.
    pub closed spec fn spec_output_i_snapshots(&self) -> Seq<(hash::Hash, Seq<u64>)> {
        self.output_i_pmmr_h.spec_snapshots()
    }

    /// The leaf snapshots taken of the MMR of signature-locked outputs.
    pub closed spec fn spec_output_ii_snapshots(&self) -> Seq<(hash::Hash, Seq<u64>)> {
        self.output_ii_pmmr_h.spec_snapshots()
    }

    /// The chain state over the three backends and the store. With a header
    /// given, each output MMR is taken back to the leaves of the snapshot
    /// that was taken of it for that header: this is how a chain state
    /// received from a peer is opened. A backend without such a snapshot
    /// is an `Io` error.
    pub fn open(
        output_i: PMMRBackend<OutputI, true>,
        output_ii: PMMRBackend<OutputII, true>,
        kernel: PMMRBackend<TxKernel, false>,
        commit_index: ChainStore,
        header: Option<&BlockHeader>,
    ) -> (r: Result<TxHashSet, Error>)
        ensures
            r is Ok <==> (header is Some ==> snapshot_for(
                output_i.spec_snapshots(),
                header->Some_0.hash,
            ) is Some && snapshot_for(output_ii.spec_snapshots(), header->Some_0.hash) is Some),
            r is Err ==> r->Err_0.spec_kind() == ErrorKind::Io,
            r is Ok ==> r->Ok_0.spec_output_i_snapshots() == output_i.spec_snapshots()
                && r->Ok_0.spec_output_ii_snapshots() == output_ii.spec_snapshots()
                && r->Ok_0@.kernel == kernel@ && r->Ok_0@.store == commit_index@,
            r is Ok ==> match header {
                None => r->Ok_0@.output_i == output_i@ && r->Ok_0@.output_ii == output_ii@,
                Some(h) => r->Ok_0@.output_i == spec_restore(
                    output_i@,
                    snapshot_for(output_i.spec_snapshots(), h.hash)->Some_0,
                ) && r->Ok_0@.output_ii == spec_restore(
                    output_ii@,
                    snapshot_for(output_ii.spec_snapshots(), h.hash)->Some_0,
                ),
            },
    {
        let mut output_i = output_i;
        let mut output_ii = output_ii;
        if let Some(h) = header {
            let first = output_i.restore_snapshot(h);
            let second = output_ii.restore_snapshot(h);
            if !first || !second {
                return Err(Error::Io("no leaf snapshot for the header".to_string()));
            }
        }
        Ok(
            TxHashSet {
                output_i_pmmr_h: PMMRHandle::new(output_i),
                output_ii_pmmr_h: PMMRHandle::new(output_ii),
                kernel_pmmr_h: PMMRHandle::new(kernel),
                commit_index,
            },
        )
    }

    /// The handle of the MMR of plain and coinbase outputs.
    pub fn output_i_handle(&self) -> (h: &PMMRHandle<OutputI, true>)
        ensures
            h@ == self@.output_i,
            h.spec_snapshots() == self.spec_output_i_snapshots(),
    {
        &self.output_i_pmmr_h
    }

    /// The handle of the MMR of signature-locked outputs.
    pub fn output_ii_handle(&self) -> (h: &PMMRHandle<OutputII, true>)
        ensures
            h@ == self@.output_ii,
            h.spec_snapshots() == self.spec_output_ii_snapshots(),
    {
        &self.output_ii_pmmr_h
    }

    /// The handle of the kernel MMR.
    pub fn kernel_handle(&self) -> (h: &PMMRHandle<TxKernel, false>)
        ensures
            h@ == self@.kernel,
    {
        &self.kernel_pmmr_h
    }

    /// The store.
    pub fn store(&self) -> (s: &ChainStore)
        ensures
            s@ == self@.store,
    {
        &self.commit_index
    }

    /// A batch that starts from what the store holds.
    pub fn batch(&self) -> (b: Batch)
        ensures
            b@ == self@.store,
    {
        self.commit_index.batch()
    }

    /// Makes what the batch holds the content of the store.
    pub fn commit_batch(&mut self, batch: Batch)
        ensures
            final(self)@ == (TxHashSetView { store: batch@, ..old(self)@ }),
            final(self).spec_output_i_snapshots() == old(self).spec_output_i_snapshots(),
            final(self).spec_output_ii_snapshots() == old(self).spec_output_ii_snapshots(),
    {
        self.commit_index = ChainStore::from_batch(batch);
    }

    /// Ends a unit of work by keeping what it did to the three MMRs: syncs
    /// the backend of each and moves its last position, the first output
    /// MMR first and the kernel MMR last.
    pub(crate) fn sync(
        &mut self,
        output_i: PMMR<OutputI, true>,
        output_ii: PMMR<OutputII, true>,
        kernel: PMMR<TxKernel, false>,
    )
        ensures
            final(self)@ == (TxHashSetView {
                output_i: output_i@,
                output_ii: output_ii@,
                kernel: kernel@,
                store: old(self)@.store,
            }),
            final(self).spec_output_i_snapshots() == old(self).spec_output_i_snapshots(),
            final(self).spec_output_ii_snapshots() == old(self).spec_output_ii_snapshots(),
    {
        self.output_i_pmmr_h.sync(output_i);
        self.output_ii_pmmr_h.sync(output_ii);
        self.kernel_pmmr_h.sync(kernel);
    }

    /// Ends a unit of work by dropping what it did to the three MMRs.
    pub(crate) fn discard(
        &mut self,
        output_i: PMMR<OutputI, true>,
        output_ii: PMMR<OutputII, true>,
        kernel: PMMR<TxKernel, false>,
    )
        ensures
            final(self)@ == old(self)@,
            final(self).spec_output_i_snapshots() == old(self).spec_output_i_snapshots(),
            final(self).spec_output_ii_snapshots() == old(self).spec_output_ii_snapshots(),
    {
        self.output_i_pmmr_h.discard(output_i);
        self.output_ii_pmmr_h.discard(output_ii);
        self.kernel_pmmr_h.discard(kernel);
    }

    /// Hands the backends the leaf snapshots that a unit of work took.
    pub(crate) fn add_snapshots(&mut self, first: Vec<LeafSnapshot>, second: Vec<LeafSnapshot>)
        ensures
            final(self)@ == old(self)@,
            final(self).spec_output_i_snapshots() == old(self).spec_output_i_snapshots()
                + snapshot_views(first@),
            final(self).spec_output_ii_snapshots() == old(self).spec_output_ii_snapshots()
                + snapshot_views(second@),
    {
        self.output_i_pmmr_h.add_snapshots(first);
        self.output_ii_pmmr_h.add_snapshots(second);
    }

    /// Lets go of what the three backends hold open.
    pub fn release_backend_files(&mut self)
        ensures
            final(self)@ == old(self)@,
            final(self).spec_output_i_snapshots() == old(self).spec_output_i_snapshots(),
            final(self).spec_output_ii_snapshots() == old(self).spec_output_ii_snapshots(),
    {
        self.output_i_pmmr_h.release_files();
        self.output_ii_pmmr_h.release_files();
        self.kernel_pmmr_h.release_files();
    }

    /// Whether an output is unspent, and where it lives. The index gives
    /// the position; the MMR that the features select must hold a live
    /// leaf there, with the hash that its data gives and with the
    /// commitment.
    pub fn is_unspent(&self, output_commit: &Commitment) -> (r: Result<OutputMMRPosition, Error>)
        ensures
            match r {
                Ok(found) => self@.is_unspent(*output_commit) == Ok::<OutputMMRPosition, ErrorKind>(
                    found,
                ),
                Err(e) => self@.is_unspent(*output_commit) == Err::<OutputMMRPosition, ErrorKind>(
                    e.spec_kind(),
                ),
            },
    {
        match self.commit_index.get_output_pos_height(output_commit) {
            Ok(entry) => {
                let check = if entry.features.is_siglocked() {
                    check_leaf(self.output_ii_pmmr_h.pmmr(), entry.position, output_commit)
                } else {
                    check_leaf(self.output_i_pmmr_h.pmmr(), entry.position, output_commit)
                };
                match check {
                    LeafCheck::Found(stored, id) => Ok(
                        OutputMMRPosition {
                            output_mmr_hash: stored,
                            position: entry.position,
                            height: entry.height,
                            features: id.features,
                        },
                    ),
                    LeafCheck::Mismatch => Err(
                        Error::TxHashSetErr("txhashset hash mismatch".to_string()),
                    ),
                    LeafCheck::Missing => Err(Error::AlreadySpent(*output_commit)),
                }
            },
            Err(StoreError::NotFoundErr(_)) => Err(Error::OutputNotFound),
        }
    }

    /// The hashes and records of the live leaves among the last `distance`
    /// plain and coinbase outputs, the last first.
    pub fn last_n_output_i(&self, distance: u64) -> (r: Vec<(hash::Hash, OutputI)>)
        ensures
            r@ == last_insertions(
                self@.output_i,
                spec_n_leaves(self@.output_i.len()),
                distance as nat,
            ),
    {
        self.output_i_pmmr_h.pmmr().get_last_n_insertions(distance)
    }

    /// As above, for signature-locked outputs.
    pub fn last_n_output_ii(&self, distance: u64) -> (r: Vec<(hash::Hash, OutputII)>)
        ensures
            r@ == last_insertions(
                self@.output_ii,
                spec_n_leaves(self@.output_ii.len()),
                distance as nat,
            ),
    {
        self.output_ii_pmmr_h.pmmr().get_last_n_insertions(distance)
    }

    /// As above, for kernels.
    pub fn last_n_kernel(&self, distance: u64) -> (r: Vec<(hash::Hash, TxKernel)>)
        ensures
            r@ == last_insertions(
                self@.kernel,
                spec_n_leaves(self@.kernel.len()),
                distance as nat,
            ),
    {
        self.kernel_pmmr_h.pmmr().get_last_n_insertions(distance)
    }

    /// Up to `max_count` live plain and coinbase outputs from the insertion
    /// index `start_index` on, and the insertion index of the last of
    /// them.
    pub fn outputs_i_by_insertion_index(&self, start_index: u64, max_count: u64) -> (r: (
        u64,
        Vec<OutputI>,
    ))
        ensures
            ({
                let start = if start_index == 0 {
                    1nat
                } else {
                    start_index as nat
                };
                let found = elements_from(
                    self@.output_i,
                    spec_n_leaves(self@.output_i.len()),
                    start,
                    max_count as nat,
                    start,
                );
                r.0 == found.0 && r.1@ == found.1
            }),
    {
        self.output_i_pmmr_h.pmmr().elements_from_insertion_index(start_index, max_count)
    }

    /// As above, for signature-locked outputs.
    pub fn outputs_ii_by_insertion_index(&self, start_index: u64, max_count: u64) -> (r: (
        u64,
        Vec<OutputII>,
    ))
        ensures
            ({
                let start = if start_index == 0 {
                    1nat
                } else {
                    start_index as nat
                };
                let found = elements_from(
                    self@.output_ii,
                    spec_n_leaves(self@.output_ii.len()),
                    start,
                    max_count as nat,
                    start,
                );
                r.0 == found.0 && r.1@ == found.1
            }),
    {
        self.output_ii_pmmr_h.pmmr().elements_from_insertion_index(start_index, max_count)
    }

    /// The Merkle proof for an output: the index gives its position
    /// (`StoreErr` where it has none), the MMR that the features of the
    /// identifier select gives the proof (`MerkleProof` where no leaf lives
    /// there).
    pub fn merkle_proof(&self, output_id: &OutputIdentifier) -> (r: Result<MerkleProof, Error>)
        ensures
            match r {
                Ok(merkle) => self@.store.output(output_id.commit) is Some && self@.output_proof(
                    output_id.features,
                    self@.store.output(output_id.commit)->Some_0.position,
                ) == Some((merkle.mmr_size, merkle.path@)),
                Err(e) => match self@.store.output(output_id.commit) {
                    None => e.spec_kind() == ErrorKind::StoreErr,
                    Some(entry) => self@.output_proof(output_id.features, entry.position) is None
                        && e.spec_kind() == ErrorKind::MerkleProof,
                },
            },
    {
        let pos = match self.commit_index.get_output_pos(&output_id.commit) {
            Ok(pos) => pos,
            Err(e) => {
                return Err(Error::store(e, "txhashset merkle proof"));
            },
        };
        let found = if output_id.features.is_siglocked() {
            self.output_ii_pmmr_h.pmmr().merkle_proof(pos)
        } else {
            self.output_i_pmmr_h.pmmr().merkle_proof(pos)
        };
        match found {
            Ok(merkle) => Ok(merkle),
            Err(_) => Err(Error::MerkleProof),
        }
    }

    /// The header stored under `hash`.
    pub fn get_block_header(&self, hash: &hash::Hash) -> (r: Result<BlockHeader, Error>)
        ensures
            match r {
                Ok(header) => self@.store.header(*hash) == Some(header),
                Err(e) => self@.store.header(*hash) is None && e.spec_kind() == ErrorKind::StoreErr,
            },
    {
        match self.commit_index.get_block_header(hash) {
            Ok(header) => Ok(header),
            Err(e) => Err(Error::store(e, "txhashset get block header")),
        }
    }

    /// The plain or coinbase output at an MMR position.
    pub fn output_i_by_position(&self, position: u64) -> (r: Option<OutputI>)
        ensures
            r == spec_get_data(self@.output_i, position),
    {
        self.output_i_pmmr_h.pmmr().get_data(position)
    }

    /// The signature-locked output at an MMR position.
    pub fn output_ii_by_position(&self, position: u64) -> (r: Option<OutputII>)
        ensures
            r == spec_get_data(self@.output_ii, position),
    {
        self.output_ii_pmmr_h.pmmr().get_data(position)
    }

    /// The number of plain and coinbase outputs ever added.
    pub fn highest_output_i_insertion_index(&self) -> (n: u64)
        ensures
            n == spec_n_leaves(self@.output_i.len()),
    {
        n_leaves(self.output_i_pmmr_h.last_pos())
    }

    /// The number of signature-locked outputs ever added.
    pub fn highest_output_ii_insertion_index(&self) -> (n: u64)
        ensures
            n == spec_n_leaves(self@.output_ii.len()),
    {
        n_leaves(self.output_ii_pmmr_h.last_pos())
    }

    /// The kernel at an MMR position.
    pub fn txkernel_by_insertion_index(&self, index: u64) -> (r: Option<TxKernel>)
        ensures
            r == spec_get_data(self@.kernel, index),
    {
        self.kernel_pmmr_h.pmmr().get_data(index)
    }

    /// The kernel with the given excess at the highest position from
    /// `min_index` to `max_index`, both included; they default to 1 and to
    /// the last position.
    pub fn find_kernel(
        &self,
        excess: &Commitment,
        min_index: Option<u64>,
        max_index: Option<u64>,
    ) -> (r: Option<(TxKernel, u64)>)
        ensures
            ({
                let min = match min_index {
                    Some(m) => m,
                    None => 1,
                };
                let max = match max_index {
                    Some(m) => m,
                    None => self@.kernel.len() as u64,
                };
                match r {
                    Some((kernel, pos)) => min <= pos <= max && spec_get_data(self@.kernel, pos)
                        == Some(kernel) && kernel.excess == *excess && forall|p: u64|
                        pos < p <= max ==> !kernel_matches(self@.kernel, p, *excess),
                    None => forall|p: u64|
                        min <= p <= max ==> !kernel_matches(self@.kernel, p, *excess),
                }
            }),
    {
        let min = match min_index {
            Some(m) => m,
            None => 1,
        };
        let last_pos = self.kernel_pmmr_h.last_pos();
        let max = match max_index {
            Some(m) => m,
            None => last_pos,
        };
        let pmmr = self.kernel_pmmr_h.pmmr();
        // Nothing lives beyond the last position.
        let mut index: u64 = if max < last_pos {
            max
        } else {
            last_pos
        };
        while index >= min && index > 0
            invariant
                index <= max,
                index <= last_pos,
                last_pos == self@.kernel.len(),
                min == (match min_index {
                    Some(m) => m,
                    None => 1,
                }),
                max == (match max_index {
                    Some(m) => m,
                    None => self@.kernel.len() as u64,
                }),
                pmmr@ == self@.kernel,
                forall|p: u64| index < p <= max ==> !kernel_matches(self@.kernel, p, *excess),
            decreases index,
        {
            if let Some(kernel) = pmmr.get_data(index) {
                if kernel.excess.same(excess) {
                    return Some((kernel, index));
                }
            }
            index -= 1;
        }
        None
    }

    /// The roots of the three MMRs.
    pub fn roots(&self) -> (r: TxHashSetRoots)
        ensures
            r == self@.roots(),
    {
        TxHashSetRoots {
            output_i_root: self.output_i_pmmr_h.pmmr().root(),
            output_ii_root: self.output_ii_pmmr_h.pmmr().root(),
            kernel_root: self.kernel_pmmr_h.pmmr().root(),
        }
    }

    /// The index entry of a commitment.
    pub fn get_output_pos_height(&self, commit: &Commitment) -> (r: Result<
        OutputFeaturePosHeight,
        Error,
    >)
        ensures
            match r {
                Ok(entry) => self@.store.output(*commit) == Some(entry),
                Err(e) => self@.store.output(*commit) is None && e.spec_kind()
                    == ErrorKind::StoreErr,
            },
    {
        match self.commit_index.get_output_pos_height(commit) {
            Ok(entry) => Ok(entry),
            Err(e) => Err(Error::store(e, "txhashset get output position")),
        }
    }

    /// Compacts the two output MMRs up to the horizon. What the blocks
    /// after the horizon spent is spared, so that a rewind to the horizon
    /// can still bring it back. The kernel MMR is left alone.
    pub fn compact(&mut self, horizon_header: &BlockHeader, batch: &mut Batch) -> (r: Result<
        (),
        Error,
    >)
        ensures
            final(batch)@ == old(batch)@,
            final(self).spec_output_i_snapshots() == old(self).spec_output_i_snapshots(),
            final(self).spec_output_ii_snapshots() == old(self).spec_output_ii_snapshots(),
            match r {
                Ok(()) => old(batch)@.head_header() is Some && ({
                    let head_header = old(batch)@.head_header()->Some_0;
                    let spared = spec_input_pos_to_rewind(
                        old(batch)@,
                        *horizon_header,
                        head_header,
                    );
                    spared is Ok && final(self)@ == (TxHashSetView {
                        output_i: spec_compact(
                            old(self)@.output_i,
                            horizon_header.output_i_mmr_size,
                            spared->Ok_0,
                        ),
                        output_ii: spec_compact(
                            old(self)@.output_ii,
                            horizon_header.output_ii_mmr_size,
                            spared->Ok_0,
                        ),
                        ..old(self)@
                    })
                }),
                Err(e) => final(self)@ == old(self)@ && (match old(batch)@.head_header() {
                    None => e.spec_kind() == ErrorKind::StoreErr,
                    Some(head_header) => spec_input_pos_to_rewind(
                        old(batch)@,
                        *horizon_header,
                        head_header,
                    ) == Err::<Set<u32>, ErrorKind>(e.spec_kind()),
                }),
            },
    {
        let head_header = match batch.head_header() {
            Ok(header) => header,
            Err(e) => {
                return Err(Error::store(e, "txhashset compact"));
            },
        };
        let rewind_rm_pos = input_pos_to_rewind(horizon_header, &head_header, batch)?;
        self.output_i_pmmr_h.check_compact(horizon_header.output_i_mmr_size, &rewind_rm_pos);
        self.output_ii_pmmr_h.check_compact(horizon_header.output_ii_mmr_size, &rewind_rm_pos);
        Ok(())
    }

    /// Rebuilds the index from output commitments to positions and heights
    /// out of the two output MMRs and the headers: clears it, then enters
    /// every live leaf with the height of the first block whose header
    /// covers its position.
    pub fn rebuild_height_pos_index(
        &self,
        header_pmmr: &PMMRHandle<BlockHeader, false>,
        batch: &mut Batch,
    ) -> (r: Result<(), Error>)
        ensures
            final(batch)@.head == old(batch)@.head,
            final(batch)@.header_head == old(batch)@.header_head,
            final(batch)@.headers == old(batch)@.headers,
            final(batch)@.input_bitmaps == old(batch)@.input_bitmaps,
            final(batch)@.kernels == old(batch)@.kernels,
            match r {
                Ok(()) => spec_rebuilt_index(self@, header_pmmr@, old(batch)@) == Ok::<
                    Map<Commitment, OutputFeaturePosHeight>,
                    ErrorKind,
                >(final(batch)@.outputs),
                Err(e) => spec_rebuilt_index(self@, header_pmmr@, old(batch)@) == Err::<
                    Map<Commitment, OutputFeaturePosHeight>,
                    ErrorKind,
                >(e.spec_kind()),
            },
    {
        batch.clear_output_pos_height();
        let outputs_i = collect_live_outputs(self.output_i_pmmr_h.pmmr());
        let max_height = match batch.head() {
            Ok(head) => head.height,
            Err(e) => {
                return Err(Error::store(e, "rebuild height and position index"));
            },
        };
        proof {
            lemma_index_ignores_outputs(
                outputs_i@,
                header_pmmr@,
                old(batch)@,
                batch@,
                false,
                Map::empty(),
                max_height as nat,
            );
        }
        index_outputs(&outputs_i, header_pmmr, batch, false, max_height)?;
        let outputs_ii = collect_live_outputs(self.output_ii_pmmr_h.pmmr());
        proof {
            lemma_index_ignores_outputs(
                outputs_ii@,
                header_pmmr@,
                old(batch)@,
                batch@,
                true,
                batch@.outputs,
                max_height as nat,
            );
        }
        index_outputs(&outputs_ii, header_pmmr, batch, true, max_height)?;
        Ok(())
    }
}

/// The walk reads the headers of the store and nothing else of it.
pub proof fn lemma_index_ignores_outputs(
    outputs: Seq<(OutputIdentifier, u64)>,
    headers: Seq<Node<BlockHeader>>,
    a: StoreView,
    b: StoreView,
    siglocked: bool,
    start: Map<Commitment, OutputFeaturePosHeight>,
    upto: nat,
)
    requires
        a.headers == b.headers,
    ensures
        index_heights(outputs, headers, a, siglocked, start, upto) == index_heights(
            outputs,
            headers,
            b,
            siglocked,
            start,
            upto,
        ),
    decreases upto,
{
    if upto > 0 {
        lemma_index_ignores_outputs(outputs, headers, a, b, siglocked, start, (upto - 1) as nat);
    }
}

} // verus!
