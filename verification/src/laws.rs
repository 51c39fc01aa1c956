//! What holds of the chain state over whole runs of operations.

use crate::backend::{
    bag_peaks, leaf_node, names_pos, parent_node, rewind_size, spec_get_data, spec_get_hash,
    spec_push, spec_rewind, spec_root, wf_nodes, with_parents, Node,
};
use crate::error::ErrorKind;
use crate::extension::{
    fold_steps, input_step, kernel_step, leaf_bears, live_excesses, output_step, record_i,
    record_ii, ExtensionView, Step,
};
use crate::handle::{header_pos, spec_header_hash};
use crate::hash::{self, hash_with_index, parent_hash};
use crate::pmmr::{
    is_mmr_size, leaf_pos, lemma_low_bit, lemma_n_leaves_of_size, lemma_parents_between,
    lemma_popcount_le, lemma_size_monotone, lemma_size_step, lemma_top_size, low_bit, mmr_size,
    spec_is_leaf, spec_n_leaves, trailing_ones, MAX_LEAVES,
};
use crate::rewind::spec_input_pos_to_rewind;
use crate::store::StoreView;
use crate::txhashset::{
    header_output_size, index_heights, index_within, lemma_index_ignores_outputs, live_outputs,
    rebuilt_entry, spec_rebuilt_index, TxHashSetView,
};
use crate::types::{
    Block, BlockHeader, Commitment, Input, Output, OutputFeaturePosHeight, OutputIdentifier,
    OutputMMRPosition, OutputRecord, PMMRable, Tip, TxKernel,
};
use vstd::prelude::*;

verus! {

/// Completing parents adds one node for each trailing one and leaves the
/// nodes before as they are.
pub proof fn lemma_with_parents<T>(nodes: Seq<Node<T>>, m: nat, width: nat)
    ensures
        with_parents(nodes, m, width).len() == nodes.len() + trailing_ones(m),
        forall|i: int| 0 <= i < nodes.len() ==> with_parents(nodes, m, width)[i] == nodes[i],
    decreases m,
{
    if m % 2 == 1 {
        let next = nodes.push(parent_node(nodes, nodes.len() + 1, 2 * width));
        lemma_with_parents(next, m / 2, 2 * width);
        assert forall|i: int| 0 <= i < nodes.len() implies with_parents(nodes, m, width)[i]
            == nodes[i] by {
            assert(next[i] == nodes[i]);
        }
    }
}

/// Adding a leaf to an MMR gives an MMR of one more leaf, whose nodes up
/// to the old size are the old nodes.
pub proof fn lemma_push<T: PMMRable>(nodes: Seq<Node<T>>, elem: T)
    requires
        is_mmr_size(nodes.len()),
    ensures
        spec_push(nodes, elem).len() == mmr_size(spec_n_leaves(nodes.len()) + 1),
        is_mmr_size(spec_push(nodes, elem).len()),
        spec_n_leaves(spec_push(nodes, elem).len()) == spec_n_leaves(nodes.len()) + 1,
        spec_push(nodes, elem).len() > nodes.len(),
        forall|i: int| 0 <= i < nodes.len() ==> spec_push(nodes, elem)[i] == nodes[i],
{
    let n0 = choose|n0: nat| #[trigger] mmr_size(n0) == nodes.len();
    lemma_n_leaves_of_size(n0);
    lemma_n_leaves_of_size(n0 + 1);
    lemma_size_step(n0);
    let with_leaf = nodes.push(leaf_node(elem, nodes.len() as u64));
    lemma_with_parents(with_leaf, n0, 1);
    assert forall|i: int| 0 <= i < nodes.len() implies spec_push(nodes, elem)[i] == nodes[i] by {
        assert(with_leaf[i] == nodes[i]);
    }
}

/// Whether `after` is `before` grown and pruned: the nodes of `before` are
/// still there, with their hashes and data, and none that was pruned lives
/// again.
pub open spec fn grown_from<T>(before: Seq<Node<T>>, after: Seq<Node<T>>) -> bool {
    &&& before.len() <= after.len()
    &&& forall|i: int|
        0 <= i < before.len() ==> (#[trigger] after[i]).hash == before[i].hash && after[i].data
            == before[i].data && (after[i].live ==> before[i].live)
}

/// Whether the nodes of two MMRs have the same hashes.
pub open spec fn same_hashes<T>(a: Seq<Node<T>>, b: Seq<Node<T>>) -> bool {
    &&& a.len() == b.len()
    &&& forall|i: int| 0 <= i < a.len() ==> (#[trigger] a[i]).hash == b[i].hash
}

proof fn lemma_bag_same<T>(a: Seq<Node<T>>, b: Seq<Node<T>>, size: u64, n: nat, m: nat, acc: hash::Hash)
    requires
        same_hashes(a, b),
        mmr_size(n) == a.len(),
        m <= n,
    ensures
        bag_peaks(a, size, m, acc) == bag_peaks(b, size, m, acc),
    decreases m,
{
    if m > 0 {
        lemma_low_bit(m);
        lemma_size_monotone(m, n);
        lemma_bag_same(
            a,
            b,
            size,
            n,
            (m - low_bit(m)) as nat,
            parent_hash(size, a[mmr_size(m) - 1].hash, acc),
        );
    }
}

/// The root of an MMR is a matter of the hashes of its nodes alone:
/// whether leaves are pruned makes no difference to it.
pub proof fn lemma_root_of_hashes<T>(a: Seq<Node<T>>, b: Seq<Node<T>>)
    requires
        same_hashes(a, b),
        is_mmr_size(a.len()),
    ensures
        spec_root(a) == spec_root(b),
{
    let n0 = choose|n0: nat| #[trigger] mmr_size(n0) == a.len();
    lemma_n_leaves_of_size(n0);
    if a.len() > 0 {
        if n0 == 0 {
            lemma_popcount_le(0);
        }
        lemma_low_bit(n0);
        lemma_bag_same(a, b, a.len() as u64, n0, (n0 - low_bit(n0)) as nat, a[a.len() - 1].hash);
    }
}

/// Whether `after` is `before` with nodes added and none changed.
pub open spec fn extends<T>(before: Seq<Node<T>>, after: Seq<Node<T>>) -> bool {
    &&& before.len() <= after.len()
    &&& forall|i: int| 0 <= i < before.len() ==> (#[trigger] after[i]) == before[i]
}

/// Whether each of the two output MMRs of `after` is that of `before`
/// grown and pruned, and the kernel MMR that of `before` grown.
pub open spec fn grows(before: ExtensionView, after: ExtensionView) -> bool {
    &&& grown_from(before.set.output_i, after.set.output_i)
    &&& grown_from(before.set.output_ii, after.set.output_ii)
    &&& grown_from(before.set.kernel, after.set.kernel)
    &&& extends(before.set.kernel, after.set.kernel)
}

/// Whether every step of this kind that passes leaves the MMRs grown and
/// pruned.
pub open spec fn step_grows<X>(step: Step<X>) -> bool {
    forall|a: ExtensionView, x: X| (#[trigger] step(a, x)) is Ok ==> grows(a, step(a, x)->Ok_0)
}

proof fn lemma_grows_transitive(a: ExtensionView, b: ExtensionView, c: ExtensionView)
    requires
        grows(a, b),
        grows(b, c),
    ensures
        grows(a, c),
{
    assert forall|i: int| 0 <= i < a.set.output_i.len() implies (#[trigger] c.set.output_i[i]).hash
        == a.set.output_i[i].hash && c.set.output_i[i].data == a.set.output_i[i].data && (
    c.set.output_i[i].live ==> a.set.output_i[i].live) by {
        assert(b.set.output_i[i].hash == a.set.output_i[i].hash);
    }
    assert forall|i: int|
        0 <= i < a.set.output_ii.len() implies (#[trigger] c.set.output_ii[i]).hash
        == a.set.output_ii[i].hash && c.set.output_ii[i].data == a.set.output_ii[i].data && (
    c.set.output_ii[i].live ==> a.set.output_ii[i].live) by {
        assert(b.set.output_ii[i].hash == a.set.output_ii[i].hash);
    }
    assert forall|i: int| 0 <= i < a.set.kernel.len() implies (#[trigger] c.set.kernel[i])
        == a.set.kernel[i] by {
        assert(b.set.kernel[i] == a.set.kernel[i]);
    }
}

proof fn lemma_fold_grows<X>(v: ExtensionView, items: Seq<X>, step: Step<X>)
    requires
        step_grows(step),
    ensures
        grows(v, fold_steps(v, items, step).0),
    decreases items.len(),
{
    if items.len() > 0 {
        lemma_fold_grows(v, items.drop_last(), step);
        let (before, failed) = fold_steps(v, items.drop_last(), step);
        if failed is None {
            if step(before, items.last()) is Ok {
                lemma_grows_transitive(v, before, step(before, items.last())->Ok_0);
            }
        }
    }
}

proof fn lemma_push_grows<T: PMMRable>(nodes: Seq<Node<T>>, elem: T)
    ensures
        grown_from(nodes, spec_push(nodes, elem)),
        extends(nodes, spec_push(nodes, elem)),
{
    let with_leaf = nodes.push(leaf_node(elem, nodes.len() as u64));
    lemma_with_parents(with_leaf, spec_n_leaves(nodes.len()), 1);
    assert forall|i: int| 0 <= i < nodes.len() implies (#[trigger] spec_push(nodes, elem)[i])
        == nodes[i] by {
        assert(with_leaf[i] == nodes[i]);
    }
}

proof fn lemma_output_step_grows(height: u64)
    ensures
        step_grows(output_step(height)),
{
    assert forall|a: ExtensionView, x: Output| (#[trigger] output_step(height)(a, x)) is Ok implies grows(
        a,
        output_step(height)(a, x)->Ok_0,
    ) by {
        lemma_push_grows(a.set.output_i, record_i(x));
        lemma_push_grows(a.set.output_ii, record_ii(x));
    }
}

proof fn lemma_input_step_grows()
    ensures
        step_grows(input_step()),
{
    assert forall|a: ExtensionView, x: Input| (#[trigger] input_step()(a, x)) is Ok implies grows(
        a,
        input_step()(a, x)->Ok_0,
    ) by {
        let entry = a.set.store.output(x.commit)->Some_0;
        let pos = entry.position;
        if entry.features.spec_is_siglocked() {
            assert(spec_get_data(a.set.output_ii, pos) is Some);
        } else {
            assert(spec_get_data(a.set.output_i, pos) is Some);
        }
    }
}

proof fn lemma_kernel_step_grows(height: u64)
    ensures
        step_grows(kernel_step(height)),
{
    assert forall|a: ExtensionView, x: TxKernel| (#[trigger] kernel_step(height)(a, x)) is Ok implies grows(
        a,
        kernel_step(height)(a, x)->Ok_0,
    ) by {
        lemma_push_grows(a.set.kernel, x);
    }
}

/// Applying a block, as far as it gets, only adds nodes and prunes
/// leaves.
pub proof fn lemma_apply_block_grows(v: ExtensionView, b: Block)
    ensures
        grows(v, v.apply_block(b).0),
{
    let height = b.header.height;
    lemma_output_step_grows(height);
    lemma_input_step_grows();
    lemma_kernel_step_grows(height);
    let (v1, e1) = fold_steps(v, b.outputs@, output_step(height));
    lemma_fold_grows(v, b.outputs@, output_step(height));
    let (v2, e2) = fold_steps(v1, b.inputs@, input_step());
    lemma_fold_grows(v1, b.inputs@, input_step());
    let (v3, e3) = fold_steps(v2, b.kernels@, kernel_step(height));
    lemma_fold_grows(v2, b.kernels@, kernel_step(height));
    lemma_grows_transitive(v, v1, v2);
    lemma_grows_transitive(v, v2, v3);
}

/// The extension after the blocks have been applied one after the other,
/// up to the first that fails, and the failure, if there was one.
pub open spec fn apply_blocks(v: ExtensionView, blocks: Seq<Block>) -> (
    ExtensionView,
    Option<ErrorKind>,
)
    decreases blocks.len(),
{
    if blocks.len() == 0 {
        (v, None)
    } else {
        let (before, failed) = apply_blocks(v, blocks.drop_last());
        if failed is Some {
            (before, failed)
        } else {
            before.apply_block(blocks.last())
        }
    }
}

/// Applying blocks, as far as it gets, only adds nodes and prunes leaves.
pub proof fn lemma_apply_blocks_grows(v: ExtensionView, blocks: Seq<Block>)
    ensures
        grows(v, apply_blocks(v, blocks).0),
    decreases blocks.len(),
{
    if blocks.len() > 0 {
        lemma_apply_blocks_grows(v, blocks.drop_last());
        let (before, failed) = apply_blocks(v, blocks.drop_last());
        if failed is None {
            lemma_apply_block_grows(before, blocks.last());
            lemma_grows_transitive(v, before, before.apply_block(blocks.last()).0);
        }
    }
}

/// Whether the sizes of the three MMRs are sizes of MMRs.
pub open spec fn sizes_valid(set: TxHashSetView) -> bool {
    &&& is_mmr_size(set.output_i.len())
    &&& is_mmr_size(set.output_ii.len())
    &&& is_mmr_size(set.kernel.len())
    &&& set.output_i.len() <= u64::MAX
    &&& set.output_ii.len() <= u64::MAX
    &&& set.kernel.len() <= u64::MAX
}

proof fn lemma_rewind_same_hashes<T>(
    before: Seq<Node<T>>,
    grown: Seq<Node<T>>,
    size: u64,
    readd: Set<u32>,
)
    requires
        grown_from(before, grown),
        is_mmr_size(before.len()),
        size == before.len(),
    ensures
        same_hashes(before, spec_rewind(grown, size, readd)),
{
    let n0 = choose|n0: nat| #[trigger] mmr_size(n0) == before.len();
    lemma_n_leaves_of_size(n0);
    assert(rewind_size(size) == before.len());
}

/// Apply and rewind: where blocks are applied on top of a block and the
/// extension is then rewound to that block, whose header names the sizes
/// that the MMRs had, the sizes and the roots are again what they were.
pub proof fn lemma_apply_rewind_round_trip(v: ExtensionView, blocks: Seq<Block>, header: BlockHeader)
    requires
        sizes_valid(v.set),
        header.spec_sizes() == v.set.sizes(),
        apply_blocks(v, blocks).1 is None,
        apply_blocks(v, blocks).0.rewind(header).1 is None,
    ensures
        apply_blocks(v, blocks).0.rewind(header).0.set.sizes() == v.set.sizes(),
        apply_blocks(v, blocks).0.rewind(header).0.set.roots() == v.set.roots(),
        apply_blocks(v, blocks).0.rewind(header).0.head == Tip::spec_from_header(header),
{
    let applied = apply_blocks(v, blocks).0;
    let rewound = applied.rewind(header).0;
    lemma_apply_blocks_grows(v, blocks);
    let head_header = applied.set.store.header(applied.head.last_block_h)->Some_0;
    let readd = spec_input_pos_to_rewind(applied.set.store, header, head_header)->Ok_0;
    lemma_rewind_same_hashes(v.set.output_i, applied.set.output_i, header.output_i_mmr_size, readd);
    lemma_rewind_same_hashes(
        v.set.output_ii,
        applied.set.output_ii,
        header.output_ii_mmr_size,
        readd,
    );
    lemma_rewind_same_hashes(
        v.set.kernel,
        applied.set.kernel,
        header.kernel_mmr_size,
        Set::empty(),
    );
    lemma_root_of_hashes(v.set.output_i, rewound.set.output_i);
    lemma_root_of_hashes(v.set.output_ii, rewound.set.output_ii);
    lemma_root_of_hashes(v.set.kernel, rewound.set.kernel);
}

/// Root and size agreement: where an extension above height 0 passes the
/// checks of its roots and sizes, they are the roots and sizes that the
/// header of its head names; and so are those of the chain state that
/// keeps the extension, whatever its store.
pub proof fn lemma_validated_head(v: ExtensionView, header: BlockHeader, store: StoreView)
    requires
        v.head.height > 0,
        v.set.store.header(v.head.last_block_h) == Some(header),
        v.validate_roots() is Ok,
        v.validate_sizes() is Ok,
    ensures
        v.set.roots() == header.spec_roots(),
        v.set.sizes() == header.spec_sizes(),
        (TxHashSetView { store, ..v.set }).roots() == header.spec_roots(),
        (TxHashSetView { store, ..v.set }).sizes() == header.spec_sizes(),
{
}

/// What is found unspent is there: the index names a position at which,
/// in the MMR that the features of the entry select, a leaf lives that
/// bears the commitment and has the hash that its data gives at that
/// position; and that hash is the one given back.
pub proof fn lemma_unspent_is_checked(set: TxHashSetView, commit: Commitment)
    requires
        set.is_unspent(commit) is Ok,
    ensures
        set.store.output(commit) is Some,
        ({
            let entry = set.store.output(commit)->Some_0;
            let found = set.is_unspent(commit)->Ok_0;
            &&& found.position == entry.position
            &&& found.height == entry.height
            &&& if entry.features.spec_is_siglocked() {
                unspent_leaf(set.output_ii, found, commit)
            } else {
                unspent_leaf(set.output_i, found, commit)
            }
        }),
{
}

/// Whether the leaf at the position of `found` lives, bears `commit`, and
/// has the hash of `found`, which is the hash that its data gives there.
pub open spec fn unspent_leaf<T: OutputRecord>(
    nodes: Seq<Node<T>>,
    found: OutputMMRPosition,
    commit: Commitment,
) -> bool {
    &&& spec_get_data(nodes, found.position) is Some
    &&& spec_get_data(nodes, found.position)->Some_0.spec_id().commit == commit
    &&& spec_get_data(nodes, found.position)->Some_0.spec_id().features == found.features
    &&& spec_get_hash(nodes, found.position) == Some(found.output_mmr_hash)
    &&& found.output_mmr_hash == hash_with_index(
        (found.position - 1) as u64,
        spec_get_data(nodes, found.position)->Some_0.spec_bytes(),
    )
}

/// Rebuilding the index twice gives what rebuilding it once gives: the
/// rebuild reads nothing of the index that it replaces.
pub proof fn lemma_rebuild_idempotent(
    set: TxHashSetView,
    headers: Seq<Node<BlockHeader>>,
    store: StoreView,
    outputs: Map<Commitment, OutputFeaturePosHeight>,
)
    ensures
        spec_rebuilt_index(set, headers, StoreView { outputs, ..store }) == spec_rebuilt_index(
            set,
            headers,
            store,
        ),
{
    let other = StoreView { outputs, ..store };
    if store.head is Some {
        let height = store.head->Some_0.height as nat;
        let first = live_outputs(set.output_i, set.output_i.len());
        let second = live_outputs(set.output_ii, set.output_ii.len());
        lemma_index_ignores_outputs(first, headers, store, other, false, Map::empty(), height);
        match index_heights(first, headers, store, false, Map::empty(), height) {
            Ok((_, start)) => {
                lemma_index_ignores_outputs(second, headers, store, other, true, start, height);
            },
            Err(_) => {},
        }
    }
}

/// Whether a leaf lives at `pos` that has the identifier `id`.
pub open spec fn leaf_is<T: OutputRecord>(nodes: Seq<Node<T>>, pos: u64, id: OutputIdentifier) -> bool {
    spec_get_data(nodes, pos) is Some && spec_get_data(nodes, pos)->Some_0.spec_id() == id
}

/// Whether the index entry `entry` for `commit` names a live leaf that
/// bears the commitment and has the features of the entry, in the MMR
/// that the features select.
pub open spec fn entry_names_leaf(
    set: TxHashSetView,
    commit: Commitment,
    entry: OutputFeaturePosHeight,
) -> bool {
    let id = OutputIdentifier { features: entry.features, commit };
    if entry.features.spec_is_siglocked() {
        leaf_is(set.output_ii, entry.position, id)
    } else {
        leaf_is(set.output_i, entry.position, id)
    }
}

/// Whether every entry of the index names a live leaf that bears its
/// commitment.
pub open spec fn index_sound(set: TxHashSetView, index: Map<Commitment, OutputFeaturePosHeight>) -> bool {
    forall|c: Commitment| #[trigger] index.contains_key(c) ==> entry_names_leaf(set, c, index[c])
}

/// Whether every record of an output MMR is of the kind that the MMR is
/// for.
pub open spec fn records_of_kind<T: OutputRecord>(nodes: Seq<Node<T>>, siglocked: bool) -> bool {
    forall|i: int|
        0 <= i < nodes.len() && (#[trigger] nodes[i]).data is Some
            ==> nodes[i].data->Some_0.spec_id().features.spec_is_siglocked() == siglocked
}

/// Whether each of the listed outputs is a live leaf of `nodes`, at its
/// position and with its identifier.
pub open spec fn lists_live_leaves<T: OutputRecord>(
    nodes: Seq<Node<T>>,
    outputs: Seq<(OutputIdentifier, u64)>,
) -> bool {
    forall|j: int|
        0 <= j < outputs.len() ==> {
            let (id, pos) = #[trigger] outputs[j];
            1 <= pos <= nodes.len() && nodes[pos - 1].live && nodes[pos - 1].data is Some
                && nodes[pos - 1].data->Some_0.spec_id() == id
        }
}

proof fn lemma_live_outputs_listed<T: OutputRecord>(nodes: Seq<Node<T>>, upto: nat)
    requires
        upto <= nodes.len(),
        nodes.len() <= u64::MAX,
    ensures
        lists_live_leaves(nodes, live_outputs(nodes, upto)),
    decreases upto,
{
    if upto > 0 {
        lemma_live_outputs_listed(nodes, (upto - 1) as nat);
    }
}

proof fn lemma_index_within_sound(
    set: TxHashSetView,
    outputs: Seq<(OutputIdentifier, u64)>,
    from: nat,
    size: u64,
    height: u64,
    siglocked: bool,
    index: Map<Commitment, OutputFeaturePosHeight>,
)
    requires
        index_sound(set, index),
        records_of_kind(set.output_i, false),
        records_of_kind(set.output_ii, true),
        if siglocked {
            lists_live_leaves(set.output_ii, outputs)
        } else {
            lists_live_leaves(set.output_i, outputs)
        },
    ensures
        index_sound(set, index_within(outputs, from, size, height, siglocked, index).1),
    decreases outputs.len() - from,
{
    if !(from >= outputs.len() || outputs[from as int].1 > size) {
        let (id, pos) = outputs[from as int];
        let entry = rebuilt_entry(id, pos, height, siglocked);
        let next = index.insert(id.commit, entry);
        assert forall|c: Commitment| #[trigger] next.contains_key(c) implies entry_names_leaf(
            set,
            c,
            next[c],
        ) by {
            if c == id.commit {
                if siglocked {
                    assert(set.output_ii[pos - 1].data is Some);
                } else {
                    assert(set.output_i[pos - 1].data is Some);
                }
            } else {
                assert(index.contains_key(c));
            }
        }
        lemma_index_within_sound(set, outputs, from + 1, size, height, siglocked, next);
    }
}

proof fn lemma_index_heights_sound(
    set: TxHashSetView,
    outputs: Seq<(OutputIdentifier, u64)>,
    headers: Seq<Node<BlockHeader>>,
    store: StoreView,
    siglocked: bool,
    start: Map<Commitment, OutputFeaturePosHeight>,
    upto: nat,
)
    requires
        index_sound(set, start),
        records_of_kind(set.output_i, false),
        records_of_kind(set.output_ii, true),
        if siglocked {
            lists_live_leaves(set.output_ii, outputs)
        } else {
            lists_live_leaves(set.output_i, outputs)
        },
        index_heights(outputs, headers, store, siglocked, start, upto) is Ok,
    ensures
        index_sound(set, index_heights(outputs, headers, store, siglocked, start, upto)->Ok_0.1),
    decreases upto,
{
    if upto > 0 {
        lemma_index_heights_sound(
            set,
            outputs,
            headers,
            store,
            siglocked,
            start,
            (upto - 1) as nat,
        );
        let (from, index) = index_heights(
            outputs,
            headers,
            store,
            siglocked,
            start,
            (upto - 1) as nat,
        )->Ok_0;
        let hash = spec_header_hash(headers, upto as u64)->Some_0;
        let header = store.header(hash)->Some_0;
        lemma_index_within_sound(
            set,
            outputs,
            from,
            header_output_size(header, siglocked),
            header.height,
            siglocked,
            index,
        );
    }
}

/// A rebuilt index is sound: each of its entries names a live leaf that
/// bears the commitment and has the features of the entry, in the MMR that
/// the features select, where each output MMR holds records of its own
/// kind only.
pub proof fn lemma_rebuilt_index_sound(
    set: TxHashSetView,
    headers: Seq<Node<BlockHeader>>,
    store: StoreView,
)
    requires
        set.output_i.len() <= u64::MAX,
        set.output_ii.len() <= u64::MAX,
        records_of_kind(set.output_i, false),
        records_of_kind(set.output_ii, true),
        spec_rebuilt_index(set, headers, store) is Ok,
    ensures
        index_sound(set, spec_rebuilt_index(set, headers, store)->Ok_0),
{
    let height = store.head->Some_0.height as nat;
    let first = live_outputs(set.output_i, set.output_i.len());
    let second = live_outputs(set.output_ii, set.output_ii.len());
    lemma_live_outputs_listed(set.output_i, set.output_i.len());
    lemma_live_outputs_listed(set.output_ii, set.output_ii.len());
    lemma_index_heights_sound(set, first, headers, store, false, Map::empty(), height);
    let start = index_heights(first, headers, store, false, Map::empty(), height)->Ok_0.1;
    lemma_index_heights_sound(set, second, headers, store, true, start, height);
}

/// The number of leaves of the kernel MMR.
pub open spec fn kernel_leaves(v: ExtensionView) -> nat {
    spec_n_leaves(v.set.kernel.len())
}

proof fn lemma_push_keeps_valid<T: PMMRable>(nodes: Seq<Node<T>>, elem: T)
    requires
        is_mmr_size(nodes.len()),
        nodes.len() < u64::MAX,
    ensures
        is_mmr_size(spec_push(nodes, elem).len()),
        spec_push(nodes, elem).len() <= u64::MAX,
{
    lemma_push(nodes, elem);
    let n0 = choose|n0: nat| #[trigger] mmr_size(n0) == nodes.len();
    lemma_n_leaves_of_size(n0);
    lemma_top_size();
    if n0 >= MAX_LEAVES {
        lemma_size_monotone(MAX_LEAVES as nat, n0);
    } else {
        lemma_size_monotone(n0 + 1, MAX_LEAVES as nat);
    }
}

proof fn lemma_output_step_keeps(a: ExtensionView, out: Output, height: u64)
    requires
        sizes_valid(a.set),
        a.apply_block_output(out, height) is Ok,
    ensures
        sizes_valid(a.apply_block_output(out, height)->Ok_0.set),
        a.apply_block_output(out, height)->Ok_0.set.kernel == a.set.kernel,
{
    if out.features.spec_is_siglocked() {
        lemma_push_keeps_valid(a.set.output_ii, record_ii(out));
    } else {
        lemma_push_keeps_valid(a.set.output_i, record_i(out));
    }
}

proof fn lemma_fold_outputs_keep(v: ExtensionView, items: Seq<Output>, height: u64)
    requires
        sizes_valid(v.set),
    ensures
        sizes_valid(fold_steps(v, items, output_step(height)).0.set),
        fold_steps(v, items, output_step(height)).0.set.kernel == v.set.kernel,
    decreases items.len(),
{
    if items.len() > 0 {
        lemma_fold_outputs_keep(v, items.drop_last(), height);
        let (before, failed) = fold_steps(v, items.drop_last(), output_step(height));
        if failed is None && before.apply_block_output(items.last(), height) is Ok {
            lemma_output_step_keeps(before, items.last(), height);
        }
    }
}

proof fn lemma_fold_inputs_keep(v: ExtensionView, items: Seq<Input>)
    requires
        sizes_valid(v.set),
    ensures
        sizes_valid(fold_steps(v, items, input_step()).0.set),
        fold_steps(v, items, input_step()).0.set.kernel == v.set.kernel,
    decreases items.len(),
{
    if items.len() > 0 {
        lemma_fold_inputs_keep(v, items.drop_last());
    }
}

proof fn lemma_fold_kernels_count(v: ExtensionView, items: Seq<TxKernel>, height: u64)
    requires
        sizes_valid(v.set),
        fold_steps(v, items, kernel_step(height)).1 is None,
    ensures
        sizes_valid(fold_steps(v, items, kernel_step(height)).0.set),
        kernel_leaves(fold_steps(v, items, kernel_step(height)).0) == kernel_leaves(v)
            + items.len(),
    decreases items.len(),
{
    if items.len() > 0 {
        lemma_fold_kernels_count(v, items.drop_last(), height);
        let (before, failed) = fold_steps(v, items.drop_last(), kernel_step(height));
        lemma_push(before.set.kernel, items.last());
        lemma_push_keeps_valid(before.set.kernel, items.last());
    }
}

/// The kernel MMR counts the kernels: a block that is applied adds as many
/// leaves to it as the block has kernels.
pub proof fn lemma_apply_block_counts_kernels(v: ExtensionView, b: Block)
    requires
        sizes_valid(v.set),
        v.apply_block(b).1 is None,
    ensures
        sizes_valid(v.apply_block(b).0.set),
        kernel_leaves(v.apply_block(b).0) == kernel_leaves(v) + b.kernels@.len(),
{
    let height = b.header.height;
    let (v1, e1) = fold_steps(v, b.outputs@, output_step(height));
    lemma_fold_outputs_keep(v, b.outputs@, height);
    let (v2, e2) = fold_steps(v1, b.inputs@, input_step());
    lemma_fold_inputs_keep(v1, b.inputs@);
    lemma_fold_kernels_count(v2, b.kernels@, height);
}

/// A rewind takes the kernel MMR back to the kernels of the block rewound
/// to: it has as many leaves as there are among the positions up to the
/// size that the header names.
pub proof fn lemma_rewind_counts_kernels(v: ExtensionView, header: BlockHeader)
    requires
        v.rewind(header).1 is None,
    ensures
        kernel_leaves(v.rewind(header).0) == spec_n_leaves(header.kernel_mmr_size as nat),
{
    lemma_n_leaves_of_size(spec_n_leaves(header.kernel_mmr_size as nat));
}

/// Whether `readd` names, among the leaves of `before` that still have
/// their data, exactly those that lived in `before` and are pruned in
/// `after`.
pub open spec fn names_what_was_pruned<T>(
    before: Seq<Node<T>>,
    after: Seq<Node<T>>,
    readd: Set<u32>,
) -> bool {
    forall|i: int|
        0 <= i < before.len() && (#[trigger] before[i]).data is Some ==> (
        names_pos(readd, i + 1) <==> (before[i].live && !after[i].live))
}

proof fn lemma_rewind_restores<T>(
    before: Seq<Node<T>>,
    grown: Seq<Node<T>>,
    size: u64,
    readd: Set<u32>,
    prunable: bool,
)
    requires
        wf_nodes(before, prunable),
        grown_from(before, grown),
        size == before.len(),
        names_what_was_pruned(before, grown, readd),
    ensures
        spec_rewind(grown, size, readd) == before,
{
    let n0 = choose|n0: nat| #[trigger] mmr_size(n0) == before.len();
    lemma_n_leaves_of_size(n0);
    assert(rewind_size(size) == before.len());
    let rewound = spec_rewind(grown, size, readd);
    assert forall|i: int| 0 <= i < before.len() implies rewound[i] == before[i] by {
        assert(grown[i].hash == before[i].hash);
        if before[i].live {
            assert(before[i].data is Some);
        }
    }
    assert(rewound =~= before);
}

/// Apply and rewind, for the outputs: where blocks are applied on top of a
/// block and the extension is then rewound to that block, and the store
/// names for the rewind exactly the leaves that the blocks pruned, the
/// three MMRs are again what they were; and every commitment whose index
/// entry the blocks left alone is unspent, or not, as it was.
pub proof fn lemma_apply_rewind_restores(
    v: ExtensionView,
    blocks: Seq<Block>,
    header: BlockHeader,
    commit: Commitment,
)
    requires
        wf_nodes(v.set.output_i, true),
        wf_nodes(v.set.output_ii, true),
        wf_nodes(v.set.kernel, false),
        header.spec_sizes() == v.set.sizes(),
        apply_blocks(v, blocks).1 is None,
        apply_blocks(v, blocks).0.rewind(header).1 is None,
        ({
            let applied = apply_blocks(v, blocks).0;
            let head_header = applied.set.store.header(applied.head.last_block_h)->Some_0;
            let readd = spec_input_pos_to_rewind(
                applied.set.store,
                header,
                head_header,
            )->Ok_0;
            &&& names_what_was_pruned(v.set.output_i, applied.set.output_i, readd)
            &&& names_what_was_pruned(v.set.output_ii, applied.set.output_ii, readd)
        }),
        apply_blocks(v, blocks).0.set.store.output(commit) == v.set.store.output(commit),
    ensures
        apply_blocks(v, blocks).0.rewind(header).0.set.output_i == v.set.output_i,
        apply_blocks(v, blocks).0.rewind(header).0.set.output_ii == v.set.output_ii,
        apply_blocks(v, blocks).0.rewind(header).0.set.kernel == v.set.kernel,
        apply_blocks(v, blocks).0.rewind(header).0.set.is_unspent(commit) == v.set.is_unspent(
            commit,
        ),
{
    let applied = apply_blocks(v, blocks).0;
    let rewound = applied.rewind(header).0;
    lemma_apply_blocks_grows(v, blocks);
    let head_header = applied.set.store.header(applied.head.last_block_h)->Some_0;
    let readd = spec_input_pos_to_rewind(applied.set.store, header, head_header)->Ok_0;
    lemma_rewind_restores(
        v.set.output_i,
        applied.set.output_i,
        header.output_i_mmr_size,
        readd,
        true,
    );
    lemma_rewind_restores(
        v.set.output_ii,
        applied.set.output_ii,
        header.output_ii_mmr_size,
        readd,
        true,
    );
    let n0 = choose|n0: nat| #[trigger] mmr_size(n0) == v.set.kernel.len();
    lemma_n_leaves_of_size(n0);
    assert(rewind_size(header.kernel_mmr_size) == v.set.kernel.len());
    assert(rewound.set.kernel =~= v.set.kernel) by {
        assert forall|i: int| 0 <= i < v.set.kernel.len() implies rewound.set.kernel[i]
            == v.set.kernel[i] by {
            assert(applied.set.kernel[i] == v.set.kernel[i]);
        }
    }
    assert(rewound.set.store == applied.set.store);
}

/// Whether the index has an entry for each of the first `upto` listed
/// outputs.
pub open spec fn has_entries(
    outputs: Seq<(OutputIdentifier, u64)>,
    upto: nat,
    index: Map<Commitment, OutputFeaturePosHeight>,
) -> bool {
    forall|j: int|
        0 <= j < upto && j < outputs.len() ==> index.contains_key((#[trigger] outputs[j]).0.commit)
}

/// Whether the listed outputs come in rising order of position.
pub open spec fn rising(outputs: Seq<(OutputIdentifier, u64)>) -> bool {
    forall|j: int, k: int| 0 <= j < k < outputs.len() ==> outputs[j].1 < outputs[k].1
}

proof fn lemma_live_outputs_rising<T: OutputRecord>(nodes: Seq<Node<T>>, upto: nat)
    requires
        upto <= nodes.len(),
        nodes.len() <= u64::MAX,
    ensures
        rising(live_outputs(nodes, upto)),
        forall|j: int|
            0 <= j < live_outputs(nodes, upto).len() ==> 1 <= (#[trigger] live_outputs(
                nodes,
                upto,
            )[j]).1 <= upto,
        forall|i: int|
            0 <= i < upto && (#[trigger] nodes[i]).live && nodes[i].data is Some ==> exists|j: int|
                0 <= j < live_outputs(nodes, upto).len() && #[trigger] live_outputs(nodes, upto)[j]
                    == (nodes[i].data->Some_0.spec_id(), (i + 1) as u64),
    decreases upto,
{
    if upto > 0 {
        lemma_live_outputs_rising(nodes, (upto - 1) as nat);
        let rest = live_outputs(nodes, (upto - 1) as nat);
        let all = live_outputs(nodes, upto);
        let node = nodes[upto - 1];
        assert forall|i: int|
            0 <= i < upto && (#[trigger] nodes[i]).live && nodes[i].data is Some implies exists|
            j: int,
        |
            0 <= j < all.len() && #[trigger] all[j] == (
                nodes[i].data->Some_0.spec_id(),
                (i + 1) as u64,
            ) by {
            if i < upto - 1 {
                let j = choose|j: int|
                    0 <= j < rest.len() && #[trigger] rest[j] == (
                        nodes[i].data->Some_0.spec_id(),
                        (i + 1) as u64,
                    );
                assert(all[j] == rest[j]);
            } else {
                assert(all[all.len() - 1] == (node.data->Some_0.spec_id(), upto as u64));
            }
        }
    }
}

proof fn lemma_index_within_complete(
    outputs: Seq<(OutputIdentifier, u64)>,
    from: nat,
    size: u64,
    height: u64,
    siglocked: bool,
    index: Map<Commitment, OutputFeaturePosHeight>,
)
    requires
        from <= outputs.len(),
        has_entries(outputs, from, index),
    ensures
        ({
            let (to, entered) = index_within(outputs, from, size, height, siglocked, index);
            &&& from <= to <= outputs.len()
            &&& has_entries(outputs, to, entered)
            &&& to < outputs.len() ==> outputs[to as int].1 > size
            &&& forall|c: Commitment| index.contains_key(c) ==> entered.contains_key(c)
        }),
    decreases outputs.len() - from,
{
    if !(from >= outputs.len() || outputs[from as int].1 > size) {
        let (id, pos) = outputs[from as int];
        let next = index.insert(id.commit, rebuilt_entry(id, pos, height, siglocked));
        assert forall|j: int| 0 <= j < from + 1 && j < outputs.len() implies next.contains_key(
            (#[trigger] outputs[j]).0.commit,
        ) by {
            if j < from {
                assert(index.contains_key(outputs[j].0.commit));
            }
        }
        lemma_index_within_complete(outputs, from + 1, size, height, siglocked, next);
    }
}

/// The header at `height` on the chain that the header MMR lays down.
pub open spec fn header_at(
    headers: Seq<Node<BlockHeader>>,
    store: StoreView,
    height: u64,
) -> Option<BlockHeader> {
    match spec_header_hash(headers, height) {
        Some(hash) => store.header(hash),
        None => None,
    }
}

proof fn lemma_index_heights_complete(
    outputs: Seq<(OutputIdentifier, u64)>,
    headers: Seq<Node<BlockHeader>>,
    store: StoreView,
    siglocked: bool,
    start: Map<Commitment, OutputFeaturePosHeight>,
    upto: nat,
)
    requires
        index_heights(outputs, headers, store, siglocked, start, upto) is Ok,
    ensures
        ({
            let (to, entered) = index_heights(outputs, headers, store, siglocked, start, upto)->Ok_0;
            &&& to <= outputs.len()
            &&& has_entries(outputs, to, entered)
            &&& forall|c: Commitment| start.contains_key(c) ==> entered.contains_key(c)
            &&& upto >= 1 ==> header_at(headers, store, upto as u64) is Some && (to < outputs.len()
                ==> outputs[to as int].1 > header_output_size(
                header_at(headers, store, upto as u64)->Some_0,
                siglocked,
            ))
        }),
    decreases upto,
{
    if upto > 0 {
        lemma_index_heights_complete(
            outputs,
            headers,
            store,
            siglocked,
            start,
            (upto - 1) as nat,
        );
        let (from, index) = index_heights(
            outputs,
            headers,
            store,
            siglocked,
            start,
            (upto - 1) as nat,
        )->Ok_0;
        let header = header_at(headers, store, upto as u64)->Some_0;
        lemma_index_within_complete(
            outputs,
            from,
            header_output_size(header, siglocked),
            header.height,
            siglocked,
            index,
        );
    }
}

/// Whether the rebuilt index `index` has an entry for every leaf that
/// lives in `nodes` at a position up to `size`.
pub open spec fn covers_leaves<T: OutputRecord>(
    nodes: Seq<Node<T>>,
    size: u64,
    index: Map<Commitment, OutputFeaturePosHeight>,
) -> bool {
    forall|i: int|
        0 <= i < nodes.len() && i < size && (#[trigger] nodes[i]).live && nodes[i].data is Some
            ==> index.contains_key(nodes[i].data->Some_0.spec_id().commit)
}

proof fn lemma_walk_covers<T: OutputRecord>(
    nodes: Seq<Node<T>>,
    headers: Seq<Node<BlockHeader>>,
    store: StoreView,
    siglocked: bool,
    start: Map<Commitment, OutputFeaturePosHeight>,
    upto: nat,
)
    requires
        nodes.len() <= u64::MAX,
        upto >= 1,
        index_heights(
            live_outputs(nodes, nodes.len()),
            headers,
            store,
            siglocked,
            start,
            upto,
        ) is Ok,
    ensures
        header_at(headers, store, upto as u64) is Some,
        covers_leaves(
            nodes,
            header_output_size(
                header_at(headers, store, upto as u64)->Some_0,
                siglocked,
            ),
            index_heights(
                live_outputs(nodes, nodes.len()),
                headers,
                store,
                siglocked,
                start,
                upto,
            )->Ok_0.1,
        ),
{
    let outputs = live_outputs(nodes, nodes.len());
    lemma_live_outputs_rising(nodes, nodes.len());
    lemma_index_heights_complete(outputs, headers, store, siglocked, start, upto);
    let (to, entered) = index_heights(outputs, headers, store, siglocked, start, upto)->Ok_0;
    let size = header_output_size(
        header_at(headers, store, upto as u64)->Some_0,
        siglocked,
    );
    assert forall|i: int|
        0 <= i < nodes.len() && i < size && (#[trigger] nodes[i]).live
            && nodes[i].data is Some implies entered.contains_key(
        nodes[i].data->Some_0.spec_id().commit,
    ) by {
        let j = choose|j: int|
            0 <= j < outputs.len() && #[trigger] outputs[j] == (
                nodes[i].data->Some_0.spec_id(),
                (i + 1) as u64,
            );
        if j >= to {
            if j > to {
                assert(outputs[to as int].1 < outputs[j].1);
            }
        } else {
            assert(entered.contains_key(outputs[j].0.commit));
        }
    }
}

/// A rebuilt index is complete: above height 0, it has an entry for every
/// output leaf that lives at a position up to the size that the header of
/// the head names for its MMR.
pub proof fn lemma_rebuilt_index_complete(
    set: TxHashSetView,
    headers: Seq<Node<BlockHeader>>,
    store: StoreView,
)
    requires
        set.output_i.len() <= u64::MAX,
        set.output_ii.len() <= u64::MAX,
        spec_rebuilt_index(set, headers, store) is Ok,
        store.head->Some_0.height >= 1,
    ensures
        header_at(headers, store, store.head->Some_0.height) is Some,
        covers_leaves(
            set.output_i,
            header_at(headers, store, store.head->Some_0.height)->Some_0.output_i_mmr_size,
            spec_rebuilt_index(set, headers, store)->Ok_0,
        ),
        covers_leaves(
            set.output_ii,
            header_at(headers, store, store.head->Some_0.height)->Some_0.output_ii_mmr_size,
            spec_rebuilt_index(set, headers, store)->Ok_0,
        ),
{
    let height = store.head->Some_0.height as nat;
    let first = live_outputs(set.output_i, set.output_i.len());
    let second = live_outputs(set.output_ii, set.output_ii.len());
    lemma_walk_covers(set.output_i, headers, store, false, Map::empty(), height);
    let start = index_heights(first, headers, store, false, Map::empty(), height)->Ok_0.1;
    lemma_walk_covers(set.output_ii, headers, store, true, start, height);
    lemma_index_heights_complete(second, headers, store, true, start, height);
}

/// Whether no two live output leaves bear the same commitment.
pub open spec fn commitments_distinct(set: TxHashSetView) -> bool {
    &&& forall|p: u64, q: u64, c: Commitment|
        leaf_bears(set.output_i, p, c) && leaf_bears(set.output_i, q, c) ==> p == q
    &&& forall|p: u64, q: u64, c: Commitment|
        leaf_bears(set.output_ii, p, c) && leaf_bears(set.output_ii, q, c) ==> p == q
    &&& forall|p: u64, q: u64, c: Commitment|
        !(leaf_bears(set.output_i, p, c) && leaf_bears(set.output_ii, q, c))
}

/// The first of the heights `1..=upto` whose header names a size for the
/// MMR that reaches position `pos`.
pub open spec fn first_covering(
    headers: Seq<Node<BlockHeader>>,
    store: StoreView,
    siglocked: bool,
    pos: u64,
    upto: nat,
) -> Option<nat>
    decreases upto,
{
    if upto == 0 {
        None
    } else {
        match first_covering(headers, store, siglocked, pos, (upto - 1) as nat) {
            Some(k) => Some(k),
            None => match header_at(headers, store, upto as u64) {
                Some(header) => if pos <= header_output_size(header, siglocked) {
                    Some(upto)
                } else {
                    None
                },
                None => None,
            },
        }
    }
}

/// The entry that a rebuild makes for the leaf with identifier `id` at
/// `pos`, once the walk has come to height `upto`: it has the height that
/// the header of the first block that reaches the position names.
pub open spec fn dated_entry(
    headers: Seq<Node<BlockHeader>>,
    store: StoreView,
    siglocked: bool,
    id: OutputIdentifier,
    pos: u64,
    upto: nat,
) -> Option<OutputFeaturePosHeight> {
    match first_covering(headers, store, siglocked, pos, upto) {
        Some(k) => Some(
            rebuilt_entry(id, pos, header_at(headers, store, k as u64)->Some_0.height, siglocked),
        ),
        None => None,
    }
}

/// Whether the listed outputs bear commitments that differ from each
/// other.
pub open spec fn commits_differ(outputs: Seq<(OutputIdentifier, u64)>) -> bool {
    forall|j: int, k: int|
        0 <= j < k < outputs.len() ==> (#[trigger] outputs[j]).0.commit != (
        #[trigger] outputs[k]).0.commit
}

/// Whether the first `to` listed outputs have the entries that the walk up
/// to height `upto` dates for them, and no block so far reaches the
/// others.
pub open spec fn walk_dated(
    outputs: Seq<(OutputIdentifier, u64)>,
    headers: Seq<Node<BlockHeader>>,
    store: StoreView,
    siglocked: bool,
    upto: nat,
    to: nat,
    index: Map<Commitment, OutputFeaturePosHeight>,
) -> bool {
    forall|j: int|
        0 <= j < outputs.len() ==> {
            let (id, pos) = #[trigger] outputs[j];
            if j < to {
                index.contains_key(id.commit) && Some(index[id.commit]) == dated_entry(
                    headers,
                    store,
                    siglocked,
                    id,
                    pos,
                    upto,
                )
            } else {
                first_covering(headers, store, siglocked, pos, upto) is None
            }
        }
}

proof fn lemma_index_within_dated(
    outputs: Seq<(OutputIdentifier, u64)>,
    headers: Seq<Node<BlockHeader>>,
    store: StoreView,
    siglocked: bool,
    upto: nat,
    from: nat,
    index: Map<Commitment, OutputFeaturePosHeight>,
    others: Map<Commitment, OutputFeaturePosHeight>,
)
    requires
        upto >= 1,
        from <= outputs.len(),
        rising(outputs),
        commits_differ(outputs),
        header_at(headers, store, upto as u64) is Some,
        // the outputs before `from` have their entries
        forall|j: int|
            0 <= j < from ==> index.contains_key((#[trigger] outputs[j]).0.commit) && Some(
                index[outputs[j].0.commit],
            ) == dated_entry(headers, store, siglocked, outputs[j].0, outputs[j].1, upto),
        // no block before this one reaches the others
        forall|j: int|
            from <= j < outputs.len() ==> first_covering(
                headers,
                store,
                siglocked,
                (#[trigger] outputs[j]).1,
                (upto - 1) as nat,
            ) is None,
        // what else the index holds is under other commitments
        forall|c: Commitment| #[trigger]
            others.contains_key(c) ==> index.contains_key(c) && index[c] == others[c],
        forall|j: int|
            0 <= j < outputs.len() ==> !others.contains_key((#[trigger] outputs[j]).0.commit),
    ensures
        ({
            let header = header_at(headers, store, upto as u64)->Some_0;
            let (to, entered) = index_within(
                outputs,
                from,
                header_output_size(header, siglocked),
                header.height,
                siglocked,
                index,
            );
            &&& walk_dated(outputs, headers, store, siglocked, upto, to, entered)
            &&& forall|c: Commitment| #[trigger]
                others.contains_key(c) ==> entered.contains_key(c) && entered[c] == others[c]
        }),
    decreases outputs.len() - from,
{
    let header = header_at(headers, store, upto as u64)->Some_0;
    let size = header_output_size(header, siglocked);
    if from >= outputs.len() || outputs[from as int].1 > size {
        assert forall|j: int| 0 <= j < outputs.len() implies {
            let (id, pos) = #[trigger] outputs[j];
            if j < from {
                index.contains_key(id.commit) && Some(index[id.commit]) == dated_entry(
                    headers,
                    store,
                    siglocked,
                    id,
                    pos,
                    upto,
                )
            } else {
                first_covering(headers, store, siglocked, pos, upto) is None
            }
        } by {
            if j > from {
                assert(outputs[from as int].1 < outputs[j].1);
            }
        }
    } else {
        let id = outputs[from as int].0;
        let pos = outputs[from as int].1;
        let entry = rebuilt_entry(id, pos, header.height, siglocked);
        let next = index.insert(id.commit, entry);
        assert(first_covering(headers, store, siglocked, pos, upto) == Some(upto));
        assert(dated_entry(headers, store, siglocked, id, pos, upto) == Some(entry));
        assert forall|j: int| 0 <= j < from + 1 implies next.contains_key(
            (#[trigger] outputs[j]).0.commit,
        ) && Some(next[outputs[j].0.commit]) == dated_entry(
            headers,
            store,
            siglocked,
            outputs[j].0,
            outputs[j].1,
            upto,
        ) by {
            if j < from {
                assert(outputs[j].0.commit != outputs[from as int].0.commit);
                assert(index.contains_key(outputs[j].0.commit));
            }
        }
        assert(!others.contains_key(outputs[from as int].0.commit));
        assert forall|c: Commitment| #[trigger] others.contains_key(c) implies next.contains_key(c)
            && next[c] == others[c] by {
            assert(index.contains_key(c) && index[c] == others[c]);
            assert(c != id.commit);
        }
        lemma_index_within_dated(outputs, headers, store, siglocked, upto, from + 1, next, others);
    }
}

proof fn lemma_dated_persists(
    headers: Seq<Node<BlockHeader>>,
    store: StoreView,
    siglocked: bool,
    id: OutputIdentifier,
    pos: u64,
    upto: nat,
)
    requires
        upto >= 1,
        first_covering(headers, store, siglocked, pos, (upto - 1) as nat) is Some,
    ensures
        dated_entry(headers, store, siglocked, id, pos, upto) == dated_entry(
            headers,
            store,
            siglocked,
            id,
            pos,
            (upto - 1) as nat,
        ),
{
}

proof fn lemma_index_heights_dated(
    outputs: Seq<(OutputIdentifier, u64)>,
    headers: Seq<Node<BlockHeader>>,
    store: StoreView,
    siglocked: bool,
    start: Map<Commitment, OutputFeaturePosHeight>,
    upto: nat,
)
    requires
        rising(outputs),
        commits_differ(outputs),
        forall|j: int|
            0 <= j < outputs.len() ==> !start.contains_key((#[trigger] outputs[j]).0.commit),
        index_heights(outputs, headers, store, siglocked, start, upto) is Ok,
    ensures
        ({
            let (to, entered) = index_heights(outputs, headers, store, siglocked, start, upto)->Ok_0;
            &&& to <= outputs.len()
            &&& walk_dated(outputs, headers, store, siglocked, upto, to, entered)
            &&& forall|c: Commitment| #[trigger]
                start.contains_key(c) ==> entered.contains_key(c) && entered[c] == start[c]
        }),
    decreases upto,
{
    if upto > 0 {
        lemma_index_heights_dated(outputs, headers, store, siglocked, start, (upto - 1) as nat);
        lemma_index_heights_complete(outputs, headers, store, siglocked, start, upto);
        let (from, index) = index_heights(
            outputs,
            headers,
            store,
            siglocked,
            start,
            (upto - 1) as nat,
        )->Ok_0;
        assert forall|j: int| 0 <= j < from implies index.contains_key(
            (#[trigger] outputs[j]).0.commit,
        ) && Some(index[outputs[j].0.commit]) == dated_entry(
            headers,
            store,
            siglocked,
            outputs[j].0,
            outputs[j].1,
            upto,
        ) by {
            lemma_dated_persists(headers, store, siglocked, outputs[j].0, outputs[j].1, upto);
        }
        assert forall|j: int| from <= j < outputs.len() implies first_covering(
            headers,
            store,
            siglocked,
            (#[trigger] outputs[j]).1,
            (upto - 1) as nat,
        ) is None by {}
        lemma_index_within_dated(outputs, headers, store, siglocked, upto, from, index, start);
    } else {
        assert forall|j: int| 0 <= j < outputs.len() implies first_covering(
            headers,
            store,
            siglocked,
            (#[trigger] outputs[j]).1,
            0,
        ) is None by {}
    }
}

proof fn lemma_distinct_outputs_differ<T: OutputRecord>(nodes: Seq<Node<T>>)
    requires
        nodes.len() <= u64::MAX,
        forall|p: u64, q: u64, c: Commitment|
            leaf_bears(nodes, p, c) && leaf_bears(nodes, q, c) ==> p == q,
    ensures
        commits_differ(live_outputs(nodes, nodes.len())),
{
    let outputs = live_outputs(nodes, nodes.len());
    lemma_live_outputs_listed(nodes, nodes.len());
    lemma_live_outputs_rising(nodes, nodes.len());
    assert forall|j: int, k: int| 0 <= j < k < outputs.len() implies (#[trigger] outputs[j]).0.commit
        != (#[trigger] outputs[k]).0.commit by {
        let c = outputs[j].0.commit;
        if outputs[k].0.commit == c {
            assert(leaf_bears(nodes, outputs[j].1, c));
            assert(leaf_bears(nodes, outputs[k].1, c));
            assert(outputs[j].1 < outputs[k].1);
        }
    }
}

/// In a rebuilt index every live output leaf has its own entry, with its
/// height: where no two live leaves bear the same commitment and each
/// output MMR holds records of its own kind only, a leaf whose position
/// some block up to the head reaches has an entry with its features, its
/// position, and the height that the header of the first such block
/// names, or 0 for the first leaf of the first output MMR.
pub proof fn lemma_rebuilt_entry_dated(
    set: TxHashSetView,
    headers: Seq<Node<BlockHeader>>,
    store: StoreView,
    siglocked: bool,
    pos: u64,
)
    requires
        set.output_i.len() <= u64::MAX,
        set.output_ii.len() <= u64::MAX,
        records_of_kind(set.output_i, false),
        records_of_kind(set.output_ii, true),
        commitments_distinct(set),
        spec_rebuilt_index(set, headers, store) is Ok,
        if siglocked {
            spec_get_data(set.output_ii, pos) is Some
        } else {
            spec_get_data(set.output_i, pos) is Some
        },
        first_covering(headers, store, siglocked, pos, store.head->Some_0.height as nat) is Some,
    ensures
        ({
            let id = if siglocked {
                spec_get_data(set.output_ii, pos)->Some_0.spec_id()
            } else {
                spec_get_data(set.output_i, pos)->Some_0.spec_id()
            };
            let index = spec_rebuilt_index(set, headers, store)->Ok_0;
            &&& index.contains_key(id.commit)
            &&& Some(index[id.commit]) == dated_entry(
                headers,
                store,
                siglocked,
                id,
                pos,
                store.head->Some_0.height as nat,
            )
        }),
{
    let height = store.head->Some_0.height as nat;
    let first = live_outputs(set.output_i, set.output_i.len());
    let second = live_outputs(set.output_ii, set.output_ii.len());
    lemma_live_outputs_rising(set.output_i, set.output_i.len());
    lemma_live_outputs_rising(set.output_ii, set.output_ii.len());
    lemma_live_outputs_listed(set.output_i, set.output_i.len());
    lemma_live_outputs_listed(set.output_ii, set.output_ii.len());
    lemma_distinct_outputs_differ(set.output_i);
    lemma_distinct_outputs_differ(set.output_ii);
    let empty = Map::<Commitment, OutputFeaturePosHeight>::empty();
    lemma_index_heights_dated(first, headers, store, false, empty, height);
    lemma_index_heights_sound(set, first, headers, store, false, empty, height);
    let start = index_heights(first, headers, store, false, empty, height)->Ok_0.1;
    // no entry of the first walk is under the commitment of a leaf of the
    // second output MMR
    assert forall|j: int| 0 <= j < second.len() implies !start.contains_key(
        (#[trigger] second[j]).0.commit,
    ) by {
        let c = second[j].0.commit;
        if start.contains_key(c) {
            assert(entry_names_leaf(set, c, start[c]));
            assert(leaf_bears(set.output_ii, second[j].1, c));
            if start[c].features.spec_is_siglocked() {
                lemma_first_walk_kind(set, first, headers, store, height, c);
            } else {
                assert(leaf_bears(set.output_i, start[c].position, c));
            }
        }
    }
    lemma_index_heights_dated(second, headers, store, true, start, height);
    if siglocked {
        let id = spec_get_data(set.output_ii, pos)->Some_0.spec_id();
        let j = choose|j: int| 0 <= j < second.len() && #[trigger] second[j] == (id, pos);
        assert(second[j].1 == pos);
    } else {
        let id = spec_get_data(set.output_i, pos)->Some_0.spec_id();
        let j = choose|j: int| 0 <= j < first.len() && #[trigger] first[j] == (id, pos);
        assert(first[j].1 == pos);
        assert(start.contains_key(id.commit));
    }
}

/// The entries that the walk over the first output MMR makes are for
/// outputs that are not signature-locked.
proof fn lemma_first_walk_kind(
    set: TxHashSetView,
    outputs: Seq<(OutputIdentifier, u64)>,
    headers: Seq<Node<BlockHeader>>,
    store: StoreView,
    upto: nat,
    commit: Commitment,
)
    requires
        records_of_kind(set.output_i, false),
        records_of_kind(set.output_ii, true),
        lists_live_leaves(set.output_i, outputs),
        index_heights(outputs, headers, store, false, Map::empty(), upto) is Ok,
        index_heights(outputs, headers, store, false, Map::empty(), upto)->Ok_0.1.contains_key(
            commit,
        ),
    ensures
        !index_heights(
            outputs,
            headers,
            store,
            false,
            Map::empty(),
            upto,
        )->Ok_0.1[commit].features.spec_is_siglocked(),
{
    lemma_index_heights_kind(set, outputs, headers, store, Map::empty(), upto);
}

/// Whether every entry of the index is for an output that is not
/// signature-locked.
pub open spec fn all_unlocked(index: Map<Commitment, OutputFeaturePosHeight>) -> bool {
    forall|c: Commitment| #[trigger] index.contains_key(c) ==> !index[c].features.spec_is_siglocked()
}

proof fn lemma_index_within_kind(
    set: TxHashSetView,
    outputs: Seq<(OutputIdentifier, u64)>,
    from: nat,
    size: u64,
    height: u64,
    index: Map<Commitment, OutputFeaturePosHeight>,
)
    requires
        records_of_kind(set.output_i, false),
        lists_live_leaves(set.output_i, outputs),
        all_unlocked(index),
    ensures
        all_unlocked(index_within(outputs, from, size, height, false, index).1),
    decreases outputs.len() - from,
{
    if !(from >= outputs.len() || outputs[from as int].1 > size) {
        let (id, pos) = outputs[from as int];
        let next = index.insert(id.commit, rebuilt_entry(id, pos, height, false));
        assert(set.output_i[pos - 1].data is Some);
        assert forall|c: Commitment| #[trigger] next.contains_key(c) implies !next[c].features.spec_is_siglocked() by {
            if c != id.commit {
                assert(index.contains_key(c));
            }
        }
        lemma_index_within_kind(set, outputs, from + 1, size, height, next);
    }
}

proof fn lemma_index_heights_kind(
    set: TxHashSetView,
    outputs: Seq<(OutputIdentifier, u64)>,
    headers: Seq<Node<BlockHeader>>,
    store: StoreView,
    start: Map<Commitment, OutputFeaturePosHeight>,
    upto: nat,
)
    requires
        records_of_kind(set.output_i, false),
        lists_live_leaves(set.output_i, outputs),
        all_unlocked(start),
        index_heights(outputs, headers, store, false, start, upto) is Ok,
    ensures
        all_unlocked(index_heights(outputs, headers, store, false, start, upto)->Ok_0.1),
    decreases upto,
{
    if upto > 0 {
        lemma_index_heights_kind(set, outputs, headers, store, start, (upto - 1) as nat);
        let (from, index) = index_heights(
            outputs,
            headers,
            store,
            false,
            start,
            (upto - 1) as nat,
        )->Ok_0;
        let header = header_at(headers, store, upto as u64)->Some_0;
        lemma_index_within_kind(
            set,
            outputs,
            from,
            header_output_size(header, false),
            header.height,
            index,
        );
    }
}

/// The leaf that is added stands right after the nodes that were there.
pub proof fn lemma_pushed_leaf<T: PMMRable>(nodes: Seq<Node<T>>, elem: T)
    ensures
        spec_push(nodes, elem).len() > nodes.len(),
        spec_push(nodes, elem)[nodes.len() as int] == leaf_node(elem, nodes.len() as u64),
{
    let with_leaf = nodes.push(leaf_node(elem, nodes.len() as u64));
    lemma_with_parents(with_leaf, spec_n_leaves(nodes.len()), 1);
    assert(with_leaf[nodes.len() as int] == leaf_node(elem, nodes.len() as u64));
}

/// The next leaf of an MMR stands right after its nodes, and has the
/// number of its leaves as its insertion index.
pub proof fn lemma_next_leaf_pos(len: nat, n: nat)
    requires
        is_mmr_size(len),
        n == spec_n_leaves(len),
        len < u64::MAX,
    ensures
        n < MAX_LEAVES,
        leaf_pos(n) == len + 1,
{
    let n0 = choose|n0: nat| #[trigger] mmr_size(n0) == len;
    lemma_n_leaves_of_size(n0);
    lemma_top_size();
    if n0 >= MAX_LEAVES {
        lemma_size_monotone(MAX_LEAVES as nat, n0);
    }
}

/// A header that is added at its height is found at its height: where the
/// position of the header of that height is the next position of the
/// header MMR, the header MMR with `header` added gives the hash of
/// `header` for its height.
pub proof fn lemma_pushed_header_is_found(nodes: Seq<Node<BlockHeader>>, header: BlockHeader)
    requires
        header.height < MAX_LEAVES,
        header_pos(header.height) == nodes.len() + 1,
        nodes.len() < u64::MAX,
    ensures
        spec_header_hash(spec_push(nodes, header), header.height) == Some(header.hash),
{
    let after = spec_push(nodes, header);
    lemma_pushed_leaf(nodes, header);
    let len = nodes.len();
    let pos = (len + 1) as u64;
    assert(after[len as int].data == Some(header));
    assert(after[len as int].live);
    assert(spec_get_data(after, pos) == Some(header));
}

proof fn lemma_no_kernels_between(nodes: Seq<Node<TxKernel>>, k: nat, upto: nat)
    requires
        wf_nodes(nodes, false),
        leaf_pos(k) <= upto < leaf_pos(k + 1),
        upto <= nodes.len(),
    ensures
        live_excesses(nodes, upto) == live_excesses(nodes, leaf_pos(k)),
    decreases upto,
{
    if upto > leaf_pos(k) {
        lemma_parents_between(k, upto);
        lemma_no_kernels_between(nodes, k, (upto - 1) as nat);
        assert(nodes[upto - 1].data is None);
    }
}

proof fn lemma_kernels_counted(nodes: Seq<Node<TxKernel>>, n: nat)
    requires
        wf_nodes(nodes, false),
        mmr_size(n) <= nodes.len(),
    ensures
        live_excesses(nodes, mmr_size(n)).len() == n,
    decreases n,
{
    if n > 0 {
        let k = (n - 1) as nat;
        lemma_size_step(k);
        lemma_size_monotone(k, n);
        lemma_kernels_counted(nodes, k);
        lemma_no_kernels_between(nodes, k, mmr_size(n));
        assert(leaf_pos(k) == mmr_size(k) + 1);
        assert(spec_is_leaf(leaf_pos(k)));
        assert(nodes[leaf_pos(k) - 1].live);
    } else {
        lemma_popcount_le(0);
    }
}

/// No kernel is ever pruned: the kernel MMR lists as many excesses as it
/// has leaves.
pub proof fn lemma_every_kernel_listed(nodes: Seq<Node<TxKernel>>)
    requires
        wf_nodes(nodes, false),
    ensures
        live_excesses(nodes, nodes.len()).len() == spec_n_leaves(nodes.len()),
{
    let n0 = choose|n0: nat| #[trigger] mmr_size(n0) == nodes.len();
    lemma_n_leaves_of_size(n0);
    lemma_kernels_counted(nodes, n0);
}

} // verus!
