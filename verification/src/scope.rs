//! Units of work. Each of the three entry points opens extensions over
//! copies of the MMRs and over a child batch, hands them to a closure, and
//! then keeps or drops what the closure did, as a whole.

use crate::backend::Node;
use crate::error::{Error, ErrorKind};
use crate::extension::{Extension, ExtensionView};
use crate::handle::PMMRHandle;
use crate::header_extension::{HeaderExtension, HeaderExtensionView};
use crate::store::{Batch, StoreView};
use crate::txhashset::{TxHashSet, TxHashSetView};
use crate::types::{BlockHeader, Tip};
use crate::views::{KernelViewState, RewindableKernelView, UTXOView};
use vstd::prelude::*;

verus! {

/// A body extension together with the header extension that belongs to
/// it.
pub struct ExtensionPair {
    /// The header extension.
    pub header_extension: HeaderExtension,
    /// The body extension.
    pub extension: Extension,
}

impl ExtensionPair {
    /// The batch in which the pair runs: that of the body extension.
    pub fn batch(&mut self) -> (b: &Batch)
        ensures
            b@ == old(self).extension@.set.store,
            *final(self) == *old(self),
    {
        self.extension.batch()
    }
}

/// The body extension that a unit of work over `trees` starts with.
pub open spec fn opened_extension(trees: TxHashSetView, batch: StoreView, head: Tip) -> ExtensionView {
    ExtensionView {
        head,
        rollback: false,
        set: TxHashSetView { store: batch, ..trees },
        output_i_snapshots: Seq::empty(),
        output_ii_snapshots: Seq::empty(),
    }
}

/// The header extension that a unit of work starts with.
pub open spec fn opened_header_extension(
    nodes: Seq<Node<BlockHeader>>,
    batch: StoreView,
    head: Tip,
) -> HeaderExtensionView {
    HeaderExtensionView { head, nodes, rollback: false, batch }
}

/// Whether `pair` is the pair of extensions that a unit of work over the
/// header MMR `headers` and the chain state `trees` starts with, in a
/// batch that holds `batch`.
pub open spec fn opened_pair(
    pair: ExtensionPair,
    headers: Seq<Node<BlockHeader>>,
    trees: TxHashSetView,
    batch: StoreView,
) -> bool {
    &&& batch.head is Some
    &&& batch.header_head is Some
    &&& pair.extension@ == opened_extension(trees, batch, batch.head->Some_0)
    &&& pair.header_extension@ == opened_header_extension(
        headers,
        batch,
        batch.header_head->Some_0,
    )
}

/// Whether the chain state `trees` and the batch `batch` are what the end
/// of a unit of work that passed makes of `trees_before` and
/// `batch_before`, where `v` is the extension as the unit left it: either
/// it asked for a rollback and nothing has changed, or its three MMRs are
/// now those of the chain state and its batch is the batch.
pub open spec fn unit_outcome(
    trees_before: TxHashSetView,
    batch_before: StoreView,
    v: ExtensionView,
    trees: TxHashSetView,
    batch: StoreView,
) -> bool {
    if v.rollback {
        trees == trees_before && batch == batch_before
    } else {
        trees == (TxHashSetView { store: trees_before.store, ..v.set }) && batch == v.set.store
    }
}

/// The same for a unit of work on the header MMR.
pub open spec fn header_unit_outcome(
    nodes_before: Seq<Node<BlockHeader>>,
    batch_before: StoreView,
    v: HeaderExtensionView,
    nodes: Seq<Node<BlockHeader>>,
    batch: StoreView,
) -> bool {
    if v.rollback {
        nodes == nodes_before && batch == batch_before
    } else {
        nodes == v.nodes && batch == v.batch
    }
}

/// Opens the pair of extensions of a unit of work: over copies of the
/// header MMR and of the three body MMRs, the body extension in `batch`
/// and the header extension in a copy of it.
pub fn open_pair(
    header_pmmr: &PMMRHandle<BlockHeader, false>,
    trees: &TxHashSet,
    batch: Batch,
    head: Tip,
    header_head: Tip,
) -> (pair: ExtensionPair)
    ensures
        pair.extension@ == opened_extension(trees@, batch@, head),
        pair.header_extension@ == opened_header_extension(header_pmmr@, batch@, header_head),
{
    let header_extension = HeaderExtension::new(header_pmmr.begin(), batch.child(), header_head);
    let extension = Extension::new(trees, batch, head);
    ExtensionPair { header_extension, extension }
}

/// Ends a unit of work on the body MMRs. The header MMR is dropped in any
/// case: inside a body extension it is only read. Where the closure failed
/// or the extension asks for a rollback, the body MMRs and the child batch
/// are dropped too, and nothing has changed. Else the unit is kept: first
/// the child batch is committed into `batch`, then each body MMR is synced
/// and its last position moved. Leaf snapshots stay either way. The result
/// says whether the unit was kept.
pub fn close_pair(
    header_pmmr: &mut PMMRHandle<BlockHeader, false>,
    trees: &mut TxHashSet,
    batch: &mut Batch,
    pair: ExtensionPair,
    failed: bool,
) -> (kept: bool)
    ensures
        kept == (!failed && !pair.extension@.rollback),
        final(header_pmmr)@ == old(header_pmmr)@,
        final(header_pmmr).spec_last_pos() == old(header_pmmr).spec_last_pos(),
        final(header_pmmr).spec_snapshots() == old(header_pmmr).spec_snapshots(),
        final(trees).spec_output_i_snapshots() == old(trees).spec_output_i_snapshots()
            + pair.extension@.output_i_snapshots,
        final(trees).spec_output_ii_snapshots() == old(trees).spec_output_ii_snapshots()
            + pair.extension@.output_ii_snapshots,
        kept ==> final(trees)@ == (TxHashSetView {
            store: old(trees)@.store,
            ..pair.extension@.set
        }) && final(batch)@ == pair.extension@.set.store,
        !kept ==> final(trees)@ == old(trees)@ && final(batch)@ == old(batch)@,
{
    let ExtensionPair { header_extension, extension } = pair;
    let (header_view, _, _) = header_extension.into_parts();
    header_pmmr.discard(header_view);
    let parts = extension.into_parts();
    trees.add_snapshots(parts.output_i_snapshots, parts.output_ii_snapshots);
    if failed || parts.rollback {
        trees.discard(parts.output_i_pmmr, parts.output_ii_pmmr, parts.kernel_pmmr);
        false
    } else {
        batch.commit_child(parts.batch);
        trees.sync(parts.output_i_pmmr, parts.output_ii_pmmr, parts.kernel_pmmr);
        true
    }
}

/// Opens the extension of a unit of work on the header MMR alone: over a
/// copy of the header MMR, in `batch`, at `head`.
pub fn open_header_extension(
    handle: &PMMRHandle<BlockHeader, false>,
    batch: Batch,
    head: Tip,
) -> (extension: HeaderExtension)
    ensures
        extension@ == opened_header_extension(handle@, batch@, head),
{
    HeaderExtension::new(handle.begin(), batch, head)
}

/// Ends a unit of work on the header MMR alone: where the closure failed
/// or the extension asks for a rollback, the MMR and the child batch are
/// dropped and nothing has changed; else the child batch is committed into
/// `batch`, the header MMR is synced and its last position moved. The
/// result says whether the unit was kept.
pub fn close_header_extension(
    handle: &mut PMMRHandle<BlockHeader, false>,
    batch: &mut Batch,
    extension: HeaderExtension,
    failed: bool,
) -> (kept: bool)
    ensures
        kept == (!failed && !extension@.rollback),
        final(handle).spec_snapshots() == old(handle).spec_snapshots(),
        kept ==> final(handle)@ == extension@.nodes && final(handle).spec_last_pos()
            == extension@.nodes.len() && final(batch)@ == extension@.batch,
        !kept ==> final(handle)@ == old(handle)@ && final(handle).spec_last_pos() == old(
            handle,
        ).spec_last_pos() && final(batch)@ == old(batch)@,
{
    let (pmmr, child_batch, rollback) = extension.into_parts();
    if failed || rollback {
        handle.discard(pmmr);
        false
    } else {
        batch.commit_child(child_batch);
        handle.sync(pmmr);
        true
    }
}

/// Runs `inner` in a unit of work that is always dropped: the closure may
/// apply and rewind as it likes, and the chain state is afterwards as it
/// was before. Only the leaf snapshots that it took stay. Fails with
/// `StoreErr`, before the closure runs, where the store has no head.
pub fn extending_readonly<F, T>(
    handle: &mut PMMRHandle<BlockHeader, false>,
    trees: &mut TxHashSet,
    inner: F,
) -> (r: Result<T, Error>) where F: FnOnce(&mut ExtensionPair) -> Result<T, Error>
    requires
        forall|pair: &mut ExtensionPair|
            opened_pair(*pair, old(handle)@, old(trees)@, old(trees)@.store) ==> call_requires(
                inner,
                (pair,),
            ),
    ensures
        final(trees)@ == old(trees)@,
        final(handle)@ == old(handle)@,
        final(handle).spec_last_pos() == old(handle).spec_last_pos(),
        final(handle).spec_snapshots() == old(handle).spec_snapshots(),
        old(trees).spec_output_i_snapshots().is_prefix_of(final(trees).spec_output_i_snapshots()),
        old(trees).spec_output_ii_snapshots().is_prefix_of(
            final(trees).spec_output_ii_snapshots(),
        ),
        old(trees)@.store.head is Some && old(trees)@.store.header_head is Some ==> exists|
            pair: &mut ExtensionPair,
        |
            opened_pair(*pair, old(handle)@, old(trees)@, old(trees)@.store) && call_ensures(
                inner,
                (pair,),
                r,
            ),
        old(trees)@.store.head is None || old(trees)@.store.header_head is None ==> r is Err
            && r->Err_0.spec_kind() == ErrorKind::StoreErr,
{
    let mut batch = trees.batch();
    let head = match batch.head() {
        Ok(head) => head,
        Err(e) => {
            return Err(Error::store(e, "txhashset readonly extension"));
        },
    };
    let header_head = match batch.header_head() {
        Ok(header_head) => header_head,
        Err(e) => {
            return Err(Error::store(e, "txhashset readonly extension"));
        },
    };
    let mut pair = open_pair(handle, trees, batch.child(), head, header_head);
    assert(opened_pair(pair, old(handle)@, old(trees)@, old(trees)@.store));
    let res = inner(&mut pair);
    close_pair(handle, trees, &mut batch, pair, true);
    res
}

/// Runs `inner` in a unit of work on the body MMRs. Where it fails, or
/// asks the extension for a rollback, the chain state and `batch` are
/// afterwards as they were before; else what it did is kept, as
/// `close_pair` says. Fails with `StoreErr`, before the closure runs, where
/// `batch` has no head.
pub fn extending<F, T>(
    header_pmmr: &mut PMMRHandle<BlockHeader, false>,
    trees: &mut TxHashSet,
    batch: &mut Batch,
    inner: F,
) -> (r: Result<T, Error>) where F: FnOnce(&mut ExtensionPair) -> Result<T, Error>
    requires
        forall|pair: &mut ExtensionPair|
            opened_pair(*pair, old(header_pmmr)@, old(trees)@, old(batch)@) ==> call_requires(
                inner,
                (pair,),
            ),
    ensures
        final(header_pmmr)@ == old(header_pmmr)@,
        final(header_pmmr).spec_last_pos() == old(header_pmmr).spec_last_pos(),
        final(header_pmmr).spec_snapshots() == old(header_pmmr).spec_snapshots(),
        final(trees)@.store == old(trees)@.store,
        old(trees).spec_output_i_snapshots().is_prefix_of(final(trees).spec_output_i_snapshots()),
        old(trees).spec_output_ii_snapshots().is_prefix_of(
            final(trees).spec_output_ii_snapshots(),
        ),
        r is Err ==> final(trees)@ == old(trees)@ && final(batch)@ == old(batch)@,
        old(batch)@.head is Some && old(batch)@.header_head is Some ==> exists|
            pair: &mut ExtensionPair,
        |
            opened_pair(*pair, old(header_pmmr)@, old(trees)@, old(batch)@) && call_ensures(
                inner,
                (pair,),
                r,
            ) && (r is Ok ==> unit_outcome(
                old(trees)@,
                old(batch)@,
                (*final(pair)).extension@,
                final(trees)@,
                final(batch)@,
            )),
        old(batch)@.head is None || old(batch)@.header_head is None ==> r is Err
            && r->Err_0.spec_kind() == ErrorKind::StoreErr,
{
    let head = match batch.head() {
        Ok(head) => head,
        Err(e) => {
            return Err(Error::store(e, "txhashset extension"));
        },
    };
    let header_head = match batch.header_head() {
        Ok(header_head) => header_head,
        Err(e) => {
            return Err(Error::store(e, "txhashset extension"));
        },
    };
    // A child batch, so that what the unit saves in the index can be undone
    // with it.
    let mut pair = open_pair(header_pmmr, trees, batch.child(), head, header_head);
    assert(opened_pair(pair, old(header_pmmr)@, old(trees)@, old(batch)@));
    let res = inner(&mut pair);
    match res {
        Err(e) => {
            close_pair(header_pmmr, trees, batch, pair, true);
            Err(e)
        },
        Ok(r) => {
            close_pair(header_pmmr, trees, batch, pair, false);
            Ok(r)
        },
    }
}

/// Runs `inner` in a unit of work on the header MMR, which may go ahead of
/// the body MMRs. Where it fails, or asks for a rollback, the header MMR
/// and `batch` are afterwards as they were before; else what it did is
/// kept, as `close_header_extension` says.
pub fn header_extending<F, T>(
    handle: &mut PMMRHandle<BlockHeader, false>,
    head: &Tip,
    batch: &mut Batch,
    inner: F,
) -> (r: Result<T, Error>) where F: FnOnce(&mut HeaderExtension) -> Result<T, Error>
    requires
        forall|extension: &mut HeaderExtension|
            (*extension)@ == opened_header_extension(old(handle)@, old(batch)@, *head)
                ==> call_requires(inner, (extension,)),
    ensures
        final(handle).spec_snapshots() == old(handle).spec_snapshots(),
        r is Err ==> final(handle)@ == old(handle)@ && final(handle).spec_last_pos() == old(
            handle,
        ).spec_last_pos() && final(batch)@ == old(batch)@,
        exists|extension: &mut HeaderExtension|
            (*extension)@ == opened_header_extension(old(handle)@, old(batch)@, *head)
                && call_ensures(inner, (extension,), r) && (r is Ok ==> header_unit_outcome(
                old(handle)@,
                old(batch)@,
                (*final(extension))@,
                final(handle)@,
                final(batch)@,
            )),
{
    // A child batch, so that what the unit saves can be undone with it.
    let mut extension = open_header_extension(handle, batch.child(), *head);
    assert(extension@ == opened_header_extension(old(handle)@, old(batch)@, *head));
    let res = inner(&mut extension);
    match res {
        Err(e) => {
            close_header_extension(handle, batch, extension, true);
            Err(e)
        },
        Ok(r) => {
            close_header_extension(handle, batch, extension, false);
            Ok(r)
        },
    }
}

/// Runs `inner` on a read-only view of the unspent outputs, over the MMRs
/// as they were last synced and a batch of its own, which is dropped
/// afterwards.
pub fn utxo_view<F, T>(
    handle: &PMMRHandle<BlockHeader, false>,
    trees: &TxHashSet,
    inner: F,
) -> (r: Result<T, Error>) where F: for <'a, 'b> FnOnce(&'a UTXOView<'b>) -> Result<T, Error>
    requires
        forall|view: &UTXOView|
            view@ == (TxHashSetView { kernel: Seq::empty(), ..trees@ }) && view.spec_headers()
                == handle@ ==> call_requires(inner, (view,)),
    ensures
        exists|view: &UTXOView|
            view@ == (TxHashSetView { kernel: Seq::empty(), ..trees@ }) && view.spec_headers()
                == handle@ && call_ensures(inner, (view,), r),
{
    let batch = trees.batch();
    let utxo = UTXOView::new(
        trees.output_i_handle().pmmr(),
        trees.output_ii_handle().pmmr(),
        handle.pmmr(),
        &batch,
    );
    inner(&utxo)
}

/// Runs `inner` on a view of the kernel MMR that can be rewound, at the
/// header of the head, over a batch of its own, which is dropped
/// afterwards. Fails with `StoreErr`, before the closure runs, where the
/// store lacks the header of the head.
pub fn rewindable_kernel_view<F, T>(trees: &TxHashSet, inner: F) -> (r: Result<T, Error>) where
    F: FnOnce(&mut RewindableKernelView) -> Result<T, Error>,

    requires
        forall|view: &mut RewindableKernelView|
            trees@.store.head_header() is Some && (*view)@ == (KernelViewState {
                nodes: trees@.kernel,
                header: trees@.store.head_header()->Some_0,
                batch: trees@.store,
            }) ==> call_requires(inner, (view,)),
    ensures
        trees@.store.head_header() is None ==> r is Err && r->Err_0.spec_kind()
            == ErrorKind::StoreErr,
        trees@.store.head_header() is Some ==> exists|view: &mut RewindableKernelView|
            (*view)@ == (KernelViewState {
                nodes: trees@.kernel,
                header: trees@.store.head_header()->Some_0,
                batch: trees@.store,
            }) && call_ensures(inner, (view,), r),
{
    let batch = trees.batch();
    let header = match batch.head_header() {
        Ok(header) => header,
        Err(e) => {
            return Err(Error::store(e, "txhashset kernel view"));
        },
    };
    let mut view = RewindableKernelView::new(trees.kernel_handle().begin(), batch, header);
    assert(view@ == (KernelViewState {
        nodes: trees@.kernel,
        header: trees@.store.head_header()->Some_0,
        batch: trees@.store,
    }));
    inner(&mut view)
}

} // verus!
