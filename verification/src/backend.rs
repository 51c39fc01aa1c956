//! An MMR held in memory: its nodes, which of its leaves are still there,
//! and the operations that a unit of work applies to it.

use crate::bitmap::{bitmap_contains, bitmap_values};
use crate::hash::{self, hash_with_index, parent_hash};
use crate::pmmr::{
    is_leaf, is_mmr_size, leaf_pos, lemma_block_end, lemma_completed_in_range, lemma_low_bit,
    lemma_n_leaves_of_size, lemma_parents_between, lemma_popcount_le, lemma_pow2_grows,
    lemma_size_monotone, lemma_size_step, lemma_top_size, low_bit, low_bit_of, mmr_size, n_leaves,
    pow2, size_of_leaves, spec_is_leaf, spec_n_leaves, trailing_ones, MAX_LEAVES,
};
use crate::types::{BlockHeader, PMMRable};
use croaring::Bitmap;
use vstd::prelude::*;

verus! {

/// One node of an MMR.
#[derive(Clone, Copy, Debug, PartialEq, Eq)]
pub struct Node<T> {
    /// The hash of the node.
    pub hash: hash::Hash,
    /// The element, at a leaf whose data has not been compacted away.
    pub data: Option<T>,
    /// Whether the node is a leaf that has not been pruned.
    pub live: bool,
}

/// The leaf that `push` adds for `elem` at node index `index`.
pub open spec fn leaf_node<T: PMMRable>(elem: T, index: u64) -> Node<T> {
    Node { hash: hash_with_index(index, elem.spec_bytes()), data: Some(elem), live: true }
}

/// The parent at position `pos` over a right subtree of `width - 1` nodes:
/// its right child is the node before it, its left child stands `width`
/// positions back.
pub open spec fn parent_node<T>(nodes: Seq<Node<T>>, pos: nat, width: nat) -> Node<T> {
    Node {
        hash: parent_hash(
            (pos - 1) as u64,
            nodes[pos - width - 1].hash,
            nodes[pos - 2].hash,
        ),
        data: None,
        live: false,
    }
}

/// `nodes` with the parents added that a new last leaf completes, one for
/// each trailing one of `m`; `width` is the number of leaves of the tree
/// completed so far.
pub open spec fn with_parents<T>(nodes: Seq<Node<T>>, m: nat, width: nat) -> Seq<Node<T>>
    decreases m,
{
    if m % 2 == 1 {
        with_parents(
            nodes.push(parent_node(nodes, nodes.len() + 1, 2 * width)),
            m / 2,
            2 * width,
        )
    } else {
        nodes
    }
}

/// The nodes after `elem` has been added as a new leaf.
pub open spec fn spec_push<T: PMMRable>(nodes: Seq<Node<T>>, elem: T) -> Seq<Node<T>> {
    with_parents(
        nodes.push(leaf_node(elem, nodes.len() as u64)),
        spec_n_leaves(nodes.len()),
        1,
    )
}

/// The nodes after the leaf at `pos` has been pruned.
pub open spec fn spec_prune<T>(nodes: Seq<Node<T>>, pos: u64) -> Seq<Node<T>> {
    nodes.update(pos - 1, Node { live: false, ..nodes[pos - 1] })
}

/// The size that a rewind to `pos` leaves: `pos`, and the parents after it
/// that belong to the last leaf kept.
pub open spec fn rewind_size(pos: u64) -> nat {
    mmr_size(spec_n_leaves(pos as nat))
}

/// Whether the rewind set `readd` names position `pos`.
pub open spec fn names_pos(readd: Set<u32>, pos: int) -> bool {
    1 <= pos <= u32::MAX && readd.contains(pos as u32)
}

/// The nodes after a rewind to `pos`: the nodes after it are gone, and the
/// pruned leaves that `readd` names and that still have their data are
/// back.
pub open spec fn spec_rewind<T>(nodes: Seq<Node<T>>, pos: u64, readd: Set<u32>) -> Seq<Node<T>> {
    Seq::new(
        rewind_size(pos),
        |i: int|
            Node {
                live: nodes[i].live || (nodes[i].data is Some && names_pos(readd, i + 1)),
                ..nodes[i]
            },
    )
}

/// The nodes after a compaction up to `cutoff`: the pruned leaves up to
/// there lose their data, but for those that `keep` names.
pub open spec fn spec_compact<T>(nodes: Seq<Node<T>>, cutoff: u64, keep: Set<u32>) -> Seq<Node<T>> {
    Seq::new(
        nodes.len(),
        |i: int|
            if i < cutoff && !nodes[i].live && !names_pos(keep, i + 1) {
                Node { data: None, ..nodes[i] }
            } else {
                nodes[i]
            },
    )
}

/// The element at `pos`, if a leaf lives there.
pub open spec fn spec_get_data<T>(nodes: Seq<Node<T>>, pos: u64) -> Option<T> {
    if 1 <= pos <= nodes.len() && nodes[pos - 1].live {
        nodes[pos - 1].data
    } else {
        None
    }
}

/// The hash at `pos`: that of a parent, or of a leaf that lives.
pub open spec fn spec_get_hash<T>(nodes: Seq<Node<T>>, pos: u64) -> Option<hash::Hash> {
    if 1 <= pos <= nodes.len() && (nodes[pos - 1].live || !spec_is_leaf(pos as nat)) {
        Some(nodes[pos - 1].hash)
    } else {
        None
    }
}

/// The peaks of the first `m` leaves' MMR, from the right, folded onto
/// `acc`; `size` is the size of the whole MMR.
pub open spec fn bag_peaks<T>(nodes: Seq<Node<T>>, size: u64, m: nat, acc: hash::Hash) -> hash::Hash
    decreases m,
    via bag_peaks_decreases::<T>
{
    if m == 0 {
        acc
    } else {
        bag_peaks(
            nodes,
            size,
            (m - low_bit(m)) as nat,
            parent_hash(size, nodes[mmr_size(m) - 1].hash, acc),
        )
    }
}

#[via_fn]
proof fn bag_peaks_decreases<T>(nodes: Seq<Node<T>>, size: u64, m: nat, acc: hash::Hash) {
    if m != 0 {
        lemma_low_bit(m);
    }
}

/// The root: the zero hash for no nodes, else the peaks bagged from the
/// right, each step hashed with the size of the MMR.
pub open spec fn spec_root<T>(nodes: Seq<Node<T>>) -> hash::Hash {
    let n = spec_n_leaves(nodes.len());
    if nodes.len() == 0 {
        hash::Hash::spec_zero()
    } else {
        bag_peaks(
            nodes,
            nodes.len() as u64,
            (n - low_bit(n)) as nat,
            nodes[nodes.len() - 1].hash,
        )
    }
}

/// Whether the parent that leaf `k` completes at height `h` has the hash of
/// its two children.
pub open spec fn parent_ok<T>(nodes: Seq<Node<T>>, k: nat, h: nat) -> bool {
    let pos = leaf_pos(k) + h;
    nodes[pos - 1].hash == parent_hash(
        (pos - 1) as u64,
        nodes[pos - pow2(h) - 1].hash,
        nodes[pos - 2].hash,
    )
}

/// Whether every parent has the hash of its two children.
pub open spec fn parents_valid<T>(nodes: Seq<Node<T>>) -> bool {
    forall|k: nat, h: nat|
        k < spec_n_leaves(nodes.len()) && 1 <= h <= trailing_ones(k) ==> #[trigger] parent_ok(
            nodes,
            k,
            h,
        )
}

/// The positions up to `upto` at which a leaf lives, in rising order.
pub open spec fn live_positions<T>(nodes: Seq<Node<T>>, upto: nat) -> Seq<u64>
    decreases upto,
{
    if upto == 0 {
        Seq::empty()
    } else if nodes[upto - 1].live {
        live_positions(nodes, (upto - 1) as nat).push(upto as u64)
    } else {
        live_positions(nodes, (upto - 1) as nat)
    }
}

/// Whether `nodes` can be the nodes of an MMR: their number is the size of
/// an MMR, data stands only at leaves, what lives has its data, and where
/// nothing may be pruned every leaf lives.
pub open spec fn wf_nodes<T>(nodes: Seq<Node<T>>, prunable: bool) -> bool {
    &&& is_mmr_size(nodes.len())
    &&& nodes.len() <= u64::MAX
    &&& forall|i: int|
        0 <= i < nodes.len() && (#[trigger] nodes[i]).data is Some ==> spec_is_leaf((i + 1) as nat)
    &&& forall|i: int| 0 <= i < nodes.len() && (#[trigger] nodes[i]).live ==> nodes[i].data is Some
    &&& !prunable ==> forall|i: int|
        0 <= i < nodes.len() && spec_is_leaf((i + 1) as nat) ==> (#[trigger] nodes[i]).live
}

/// An MMR may have no nodes at all.
pub proof fn lemma_empty_wf<T>(prunable: bool)
    ensures
        wf_nodes(Seq::<Node<T>>::empty(), prunable),
{
    lemma_popcount_le(0);
    assert(mmr_size(0) == 0);
}

/// A Merkle proof: the size of the MMR that it was taken of, and the
/// hashes that lead from a leaf to the root.
#[derive(Clone, Debug, PartialEq, Eq)]
pub struct MerkleProof {
    pub mmr_size: u64,
    pub path: Vec<hash::Hash>,
}

/// Whether the tree of `width` leaves that holds the block `a` of leaves
/// has a sibling within the first `n` leaves: whether the tree of twice
/// the width around it is complete.
pub open spec fn has_sibling(n: nat, a: nat, width: nat) -> bool {
    2 * width <= n && a / 2 + 1 <= n / (2 * width)
}

/// The number of the block beside block `a`.
pub open spec fn sibling(a: nat) -> nat {
    if a % 2 == 0 {
        a + 1
    } else {
        (a - 1) as nat
    }
}

/// The position of the root of block `a` of `width` leaves at height `h`:
/// the node that the last leaf of the block completes there.
pub open spec fn block_root(a: nat, width: nat, h: nat) -> nat {
    leaf_pos(((a + 1) * width - 1) as nat) + h
}

/// The hashes of the siblings on the way from block `a` at height `h` up
/// to the peak above it, in an MMR of `n` leaves.
pub open spec fn family_path<T>(nodes: Seq<Node<T>>, n: nat, a: nat, width: nat, h: nat) -> Seq<
    hash::Hash,
>
    decreases n - width,
{
    if width >= 1 && has_sibling(n, a, width) {
        seq![nodes[block_root(sibling(a), width, h) - 1].hash] + family_path(
            nodes,
            n,
            a / 2,
            2 * width,
            h + 1,
        )
    } else {
        Seq::empty()
    }
}

/// The number of the block that holds block `a` at the peak above it, and
/// the width of that peak.
pub open spec fn family_peak(n: nat, a: nat, width: nat) -> (nat, nat)
    decreases n - width,
{
    if width >= 1 && has_sibling(n, a, width) {
        family_peak(n, a / 2, 2 * width)
    } else {
        (a, width)
    }
}

/// The peaks of the MMR of `m` leaves that belong to more than `stop`
/// leaves, bagged from the right onto `acc`.
pub open spec fn bag_rhs<T>(
    nodes: Seq<Node<T>>,
    size: u64,
    m: nat,
    stop: nat,
    acc: Option<hash::Hash>,
) -> Option<hash::Hash>
    decreases m,
    via bag_rhs_decreases::<T>
{
    if m <= stop || m == 0 {
        acc
    } else {
        let peak = nodes[mmr_size(m) - 1].hash;
        bag_rhs(
            nodes,
            size,
            (m - low_bit(m)) as nat,
            stop,
            Some(
                match acc {
                    None => peak,
                    Some(rhash) => parent_hash(size, peak, rhash),
                },
            ),
        )
    }
}

#[via_fn]
proof fn bag_rhs_decreases<T>(
    nodes: Seq<Node<T>>,
    size: u64,
    m: nat,
    stop: nat,
    acc: Option<hash::Hash>,
) {
    if m != 0 {
        lemma_low_bit(m);
    }
}

/// The hashes of the peaks of the MMR of `m` leaves, from the right.
pub open spec fn peaks_from_right<T>(nodes: Seq<Node<T>>, m: nat) -> Seq<hash::Hash>
    decreases m,
    via peaks_from_right_decreases::<T>
{
    if m == 0 {
        Seq::empty()
    } else {
        seq![nodes[mmr_size(m) - 1].hash] + peaks_from_right(nodes, (m - low_bit(m)) as nat)
    }
}

#[via_fn]
proof fn peaks_from_right_decreases<T>(nodes: Seq<Node<T>>, m: nat) {
    if m != 0 {
        lemma_low_bit(m);
    }
}

/// The path of the Merkle proof for the leaf with insertion index `k`: the
/// siblings up to the peak above the leaf, then the peaks to the right of
/// that peak bagged into one hash, if there are any, then the peaks to its
/// left, from the right.
pub open spec fn merkle_path<T>(nodes: Seq<Node<T>>, k: nat) -> Seq<hash::Hash> {
    let n = spec_n_leaves(nodes.len());
    let (a, width) = family_peak(n, k, 1);
    let rhs = bag_rhs(nodes, nodes.len() as u64, n, (a + 1) * width, None);
    family_path(nodes, n, k, 1, 0) + (match rhs {
        Some(rhash) => seq![rhash],
        None => Seq::empty(),
    }) + peaks_from_right(nodes, a * width)
}

/// The Merkle proof for the leaf at `pos`, as its size and path, if a
/// leaf lives there.
pub open spec fn spec_merkle_proof<T>(nodes: Seq<Node<T>>, pos: u64) -> Option<(u64, Seq<hash::Hash>)> {
    if spec_is_leaf(pos as nat) && spec_get_hash(nodes, pos) is Some {
        Some((nodes.len() as u64, merkle_path(nodes, spec_n_leaves((pos - 1) as nat))))
    } else {
        None
    }
}

/// The hashes and elements of the live leaves among the `count` last of
/// the first `leaves` leaves, the last leaf first.
pub open spec fn last_insertions<T>(nodes: Seq<Node<T>>, leaves: nat, count: nat) -> Seq<
    (hash::Hash, T),
>
    decreases count,
{
    if count == 0 || leaves == 0 {
        Seq::empty()
    } else {
        let node = nodes[leaf_pos((leaves - 1) as nat) - 1];
        let rest = last_insertions(nodes, (leaves - 1) as nat, (count - 1) as nat);
        if node.live && node.data is Some {
            seq![(node.hash, node.data->Some_0)] + rest
        } else {
            rest
        }
    }
}

/// The elements of the first `max` live leaves from the 1-based insertion
/// index `index` on, in an MMR of `n` leaves, and the insertion index of
/// the last of them, or `last` if there is none.
pub open spec fn elements_from<T>(nodes: Seq<Node<T>>, n: nat, index: nat, max: nat, last: nat) -> (
    nat,
    Seq<T>,
)
    decreases n + 1 - index,
{
    if max == 0 || index == 0 || index > n {
        (last, Seq::empty())
    } else {
        let node = nodes[leaf_pos((index - 1) as nat) - 1];
        if node.live && node.data is Some {
            let (l, rest) = elements_from(nodes, n, index + 1, (max - 1) as nat, index);
            (l, seq![node.data->Some_0] + rest)
        } else {
            elements_from(nodes, n, index + 1, max, last)
        }
    }
}

/// The nodes with the leaves of a snapshot: of the leaves that still have
/// their data, those live whose position the snapshot lists, and no
/// others.
pub open spec fn spec_restore<T>(nodes: Seq<Node<T>>, positions: Seq<u64>) -> Seq<Node<T>> {
    Seq::new(
        nodes.len(),
        |i: int|
            Node {
                live: nodes[i].data is Some && positions.contains((i + 1) as u64),
                ..nodes[i]
            },
    )
}

/// The positions of the last snapshot taken for the header with hash
/// `hash`, if there is one.
pub open spec fn snapshot_for(snapshots: Seq<(hash::Hash, Seq<u64>)>, hash: hash::Hash) -> Option<
    Seq<u64>,
>
    decreases snapshots.len(),
{
    if snapshots.len() == 0 {
        None
    } else if snapshots.last().0 == hash {
        Some(snapshots.last().1)
    } else {
        snapshot_for(snapshots.drop_last(), hash)
    }
}

/// One MMR: its nodes, and whether its leaves may be pruned. A unit of
/// work changes a copy of its own; the backend keeps what was last synced.
#[derive(Debug)]
pub struct PMMR<T, const PRUNABLE: bool> {
    nodes: Vec<Node<T>>,
}

impl<T, const PRUNABLE: bool> PMMR<T, PRUNABLE> {
    /// The nodes, the one at position `p` at index `p - 1`.
    pub closed spec fn view(&self) -> Seq<Node<T>> {
        self.nodes@
    }

    /// The nodes are always those of an MMR.
    #[verifier::type_invariant]
    pub open spec fn wf(&self) -> bool {
        wf_nodes(self@, PRUNABLE)
    }

}

impl<T: PMMRable, const PRUNABLE: bool> PMMR<T, PRUNABLE> {
    /// An MMR without nodes.
    pub fn new() -> (m: Self)
        ensures
            m@ == Seq::<Node<T>>::empty(),
    {
        proof {
            lemma_empty_wf::<T>(PRUNABLE);
        }
        PMMR { nodes: Vec::new() }
    }

    /// Whether leaves of this MMR may be pruned.
    pub fn prunable(&self) -> (p: bool)
        ensures
            p == PRUNABLE,
    {
        PRUNABLE
    }

    /// The number of nodes, pruned ones included.
    pub fn unpruned_size(&self) -> (size: u64)
        ensures
            size == self@.len(),
    {
        proof {
            use_type_invariant(self);
        }
        self.nodes.len() as u64
    }

    /// The element at `pos`, if a leaf lives there.
    pub fn get_data(&self, pos: u64) -> (r: Option<T>)
        ensures
            r == spec_get_data(self@, pos),
    {
        proof {
            use_type_invariant(self);
        }
        if pos == 0 || pos > self.nodes.len() as u64 {
            return None;
        }
        let node = self.nodes[(pos - 1) as usize];
        if node.live {
            node.data
        } else {
            None
        }
    }

    /// The hash at `pos`: that of a parent, or of a leaf that lives.
    pub fn get_hash(&self, pos: u64) -> (r: Option<hash::Hash>)
        ensures
            r == spec_get_hash(self@, pos),
    {
        proof {
            use_type_invariant(self);
        }
        if pos == 0 || pos > self.nodes.len() as u64 {
            return None;
        }
        let node = self.nodes[(pos - 1) as usize];
        if node.live || !is_leaf(pos) {
            Some(node.hash)
        } else {
            None
        }
    }

    /// Adds `elem` as a new leaf, with every parent that it completes, and
    /// gives the position of the leaf. Fails only where no position is
    /// left.
    pub fn push(&mut self, elem: &T) -> (r: Result<u64, String>)
        ensures
            r is Err <==> old(self)@.len() == u64::MAX,
            r is Err ==> final(self)@ == old(self)@,
            r is Ok ==> r->Ok_0 == old(self)@.len() + 1 && final(self)@ == spec_push(
                old(self)@,
                *elem,
            ),
    {
        proof {
            use_type_invariant(&*self);
        }
        let size = self.nodes.len() as u64;
        let n = n_leaves(size);
        proof {
            let n0 = choose|n0: nat| #[trigger] mmr_size(n0) == size;
            lemma_n_leaves_of_size(n0);
            lemma_top_size();
            if n < MAX_LEAVES {
                lemma_size_monotone((n + 1) as nat, MAX_LEAVES as nat);
                lemma_size_step(n as nat);
            }
            lemma_size_monotone(n as nat, n as nat);
        }
        if n >= MAX_LEAVES {
            return Err("the mmr is full".to_string());
        }
        let bytes = elem.to_bytes();
        let leaf = Node { hash: hash::Hash::with_index(size, &bytes), data: Some(*elem), live: true };
        let mut nodes: Vec<Node<T>> = Vec::new();
        proof {
            lemma_empty_wf::<T>(PRUNABLE);
        }
        core::mem::swap(&mut self.nodes, &mut nodes);
        nodes.push(leaf);
        assert(leaf_pos(n as nat) == size + 1);
        let mut m: u64 = n;
        let mut width: u64 = 1;
        let ghost mut h: nat = 0;
        while m % 2 == 1
            invariant
                with_parents(nodes@, m as nat, width as nat) == spec_push(old(self)@, *elem),
                n == m * width + (width - 1),
                width >= 1,
                trailing_ones(n as nat) == h + trailing_ones(m as nat),
                nodes@.len() == size + 1 + h,
                n < MAX_LEAVES,
                mmr_size(n as nat) == size,
                n <= size,
                mmr_size((n + 1) as nat) == size + 1 + trailing_ones(n as nat),
                mmr_size((n + 1) as nat) <= u64::MAX,
                forall|i: int|
                    0 <= i < nodes@.len() && (#[trigger] nodes@[i]).data is Some ==> spec_is_leaf(
                        (i + 1) as nat,
                    ),
                forall|i: int|
                    0 <= i < nodes@.len() && (#[trigger] nodes@[i]).live ==> nodes@[i].data is Some,
                !PRUNABLE ==> forall|i: int|
                    0 <= i < nodes@.len() && spec_is_leaf((i + 1) as nat) ==> (
                    #[trigger] nodes@[i]).live,
            decreases m,
        {
            let ghost before = nodes@;
            proof {
                assert(n == (m / 2) * (2 * width) + (2 * width - 1)) by (nonlinear_arith)
                    requires
                        n == m * width + (width - 1),
                        m % 2 == 1,
                ;
                assert(n + 1 >= 2 * width) by (nonlinear_arith)
                    requires
                        n == (m / 2) * (2 * width) + (2 * width - 1),
                        m / 2 >= 0,
                        width >= 1,
                ;
            }
            width = width * 2;
            m = m / 2;
            let pos = nodes.len() as u64 + 1;
            let left = nodes[(pos - width - 1) as usize].hash;
            let right = nodes[(pos - 2) as usize].hash;
            let parent = Node {
                hash: hash::Hash::of_children(pos - 1, &left, &right),
                data: None,
                live: false,
            };
            nodes.push(parent);
            proof {
                h = h + 1;
                assert(parent == parent_node(before, pos as nat, width as nat));
                lemma_parents_between(n as nat, pos as nat);
            }
        }
        proof {
            assert(mmr_size((n + 1) as nat) == nodes@.len());
        }
        self.nodes = nodes;
        Ok(size + 1)
    }

    /// Rewinds to `pos`: drops the nodes after it, but for the parents that
    /// belong to the last leaf kept, and brings back the pruned leaves that
    /// `readd` names. Fails where the MMR is too short for that.
    pub fn rewind(&mut self, pos: u64, readd: &Bitmap) -> (r: Result<(), String>)
        ensures
            r is Err <==> rewind_size(pos) > old(self)@.len(),
            r is Err ==> final(self)@ == old(self)@,
            r is Ok ==> final(self)@ == spec_rewind(old(self)@, pos, bitmap_values(*readd)),
    {
        proof {
            use_type_invariant(&*self);
        }
        let n = n_leaves(pos);
        let target = size_of_leaves(n);
        if target > self.nodes.len() as u64 {
            return Err("cannot rewind beyond the end of the mmr".to_string());
        }
        let mut nodes: Vec<Node<T>> = Vec::new();
        proof {
            lemma_empty_wf::<T>(PRUNABLE);
        }
        core::mem::swap(&mut self.nodes, &mut nodes);
        nodes.truncate(target as usize);
        let ghost goal = spec_rewind(old(self)@, pos, bitmap_values(*readd));
        let mut i: usize = 0;
        while i < nodes.len()
            invariant
                i <= nodes@.len(),
                nodes@.len() == target,
                target <= old(self)@.len(),
                goal.len() == target,
                goal == spec_rewind(old(self)@, pos, bitmap_values(*readd)),
                forall|j: int| 0 <= j < i ==> nodes@[j] == goal[j],
                forall|j: int| i <= j < target ==> nodes@[j] == old(self)@[j],
            decreases nodes@.len() - i,
        {
            let node = nodes[i];
            if !node.live && node.data.is_some() && i < 0xffff_ffff && bitmap_contains(
                readd,
                (i + 1) as u32,
            ) {
                nodes.set(i, Node { hash: node.hash, data: node.data, live: true });
            }
            i += 1;
        }
        assert(nodes@ =~= goal);
        assert(is_mmr_size(target as nat));
        self.nodes = nodes;
        Ok(())
    }

    /// Drops the data of the pruned leaves up to position `cutoff`, but
    /// for those that `keep` names: a later rewind cannot bring them back.
    pub fn compact(&mut self, cutoff: u64, keep: &Bitmap)
        ensures
            final(self)@ == spec_compact(old(self)@, cutoff, bitmap_values(*keep)),
    {
        proof {
            use_type_invariant(&*self);
        }
        let mut nodes: Vec<Node<T>> = Vec::new();
        proof {
            lemma_empty_wf::<T>(PRUNABLE);
        }
        core::mem::swap(&mut self.nodes, &mut nodes);
        let ghost goal = spec_compact(old(self)@, cutoff, bitmap_values(*keep));
        let mut i: usize = 0;
        while i < nodes.len() && (i as u64) < cutoff
            invariant
                i <= nodes@.len(),
                nodes@.len() == old(self)@.len(),
                goal == spec_compact(old(self)@, cutoff, bitmap_values(*keep)),
                forall|j: int| 0 <= j < i ==> nodes@[j] == goal[j],
                forall|j: int| i <= j < nodes@.len() ==> nodes@[j] == old(self)@[j],
            decreases nodes@.len() - i,
        {
            let node = nodes[i];
            if !node.live && !(i < 0xffff_ffff && bitmap_contains(keep, (i + 1) as u32)) {
                nodes.set(i, Node { hash: node.hash, data: None, live: false });
            }
            i += 1;
        }
        assert(nodes@ =~= goal);
        self.nodes = nodes;
    }

    /// The root of the MMR.
    pub fn root(&self) -> (r: hash::Hash)
        ensures
            r == spec_root(self@),
    {
        proof {
            use_type_invariant(self);
        }
        let size = self.nodes.len() as u64;
        if size == 0 {
            return hash::Hash::zero();
        }
        let n = n_leaves(size);
        proof {
            let n0 = choose|n0: nat| #[trigger] mmr_size(n0) == size;
            lemma_n_leaves_of_size(n0);
            lemma_popcount_le(0);
        }
        let mut m: u64 = n - low_bit_of(n);
        let mut acc = self.nodes[(size - 1) as usize].hash;
        while m > 0
            invariant
                bag_peaks(self@, size, m as nat, acc) == spec_root(self@),
                m <= n <= MAX_LEAVES,
                mmr_size(n as nat) == size,
                size == self.nodes@.len(),
                size <= usize::MAX,
            decreases m,
        {
            let peak = size_of_leaves(m);
            proof {
                assert(bag_peaks(self@, size, m as nat, acc) == bag_peaks(
                    self@,
                    size,
                    (m - low_bit(m as nat)) as nat,
                    parent_hash(size, self@[mmr_size(m as nat) - 1].hash, acc),
                ));
                lemma_size_monotone(m as nat, n as nat);
                lemma_low_bit(m as nat);
            }
            acc = hash::Hash::of_children(size, &self.nodes[(peak - 1) as usize].hash, &acc);
            m = m - low_bit_of(m);
        }
        acc
    }

    /// Checks that every parent has the hash of its two children.
    pub fn validate(&self) -> (r: Result<(), String>)
        ensures
            r is Ok <==> parents_valid(self@),
    {
        proof {
            use_type_invariant(self);
        }
        let size = self.nodes.len() as u64;
        let n = n_leaves(size);
        proof {
            let n0 = choose|n0: nat| #[trigger] mmr_size(n0) == size;
            lemma_n_leaves_of_size(n0);
        }
        let mut k: u64 = 0;
        while k < n
            invariant
                k <= n <= MAX_LEAVES,
                mmr_size(n as nat) == size,
                n == spec_n_leaves(self@.len()),
                size == self.nodes@.len(),
                size <= usize::MAX,
                forall|kk: nat, hh: nat|
                    kk < k && 1 <= hh <= trailing_ones(kk) ==> #[trigger] parent_ok(self@, kk, hh),
            decreases n - k,
        {
            proof {
                lemma_size_step(k as nat);
                lemma_size_monotone((k + 1) as nat, n as nat);
                lemma_size_monotone(k as nat, k as nat);
            }
            let mut pos: u64 = size_of_leaves(k) + 1;
            let mut m: u64 = k;
            let mut width: u64 = 1;
            let ghost mut h: nat = 0;
            while m % 2 == 1
                invariant
                    k == m * width + (width - 1),
                    width >= 1,
                    pow2(h) == width,
                    trailing_ones(k as nat) == h + trailing_ones(m as nat),
                    pos == leaf_pos(k as nat) + h,
                    leaf_pos(k as nat) + trailing_ones(k as nat) <= size,
                    k <= mmr_size(k as nat),
                    size == self.nodes@.len(),
                    size <= usize::MAX,
                    k < n,
                    n == spec_n_leaves(self@.len()),
                    forall|hh: nat| 1 <= hh <= h ==> #[trigger] parent_ok(self@, k as nat, hh),
                decreases m,
            {
                proof {
                    assert(k == (m / 2) * (2 * width) + (2 * width - 1)) by (nonlinear_arith)
                        requires
                            k == m * width + (width - 1),
                            m % 2 == 1,
                    ;
                    assert(k + 1 >= 2 * width) by (nonlinear_arith)
                        requires
                            k == (m / 2) * (2 * width) + (2 * width - 1),
                            m / 2 >= 0,
                            width >= 1,
                    ;
                    h = h + 1;
                    assert(pow2(h) == 2 * width);
                }
                width = width * 2;
                m = m / 2;
                pos = pos + 1;
                let left = self.nodes[(pos - width - 1) as usize].hash;
                let right = self.nodes[(pos - 2) as usize].hash;
                let expected = hash::Hash::of_children(pos - 1, &left, &right);
                if !expected.same(&self.nodes[(pos - 1) as usize].hash) {
                    proof {
                        assert(!parent_ok(self@, k as nat, h));
                    }
                    return Err("invalid parent hash".to_string());
                }
                assert(parent_ok(self@, k as nat, h));
            }
            k = k + 1;
        }
        Ok(())
    }

    /// The Merkle proof for the leaf at `pos`. There is none for a
    /// position that is no leaf's, nor for a leaf that does not live.
    pub fn merkle_proof(&self, pos: u64) -> (r: Result<MerkleProof, String>)
        ensures
            r is Ok <==> spec_merkle_proof(self@, pos) is Some,
            r is Ok ==> spec_merkle_proof(self@, pos) == Some((r->Ok_0.mmr_size, r->Ok_0.path@)),
    {
        proof {
            use_type_invariant(self);
        }
        // check this pos is a leaf of the MMR
        if !is_leaf(pos) {
            return Err("not a leaf".to_string());
        }
        // check that the MMR has a hash at this pos
        if self.get_hash(pos).is_none() {
            return Err("no element at pos".to_string());
        }
        let size = self.nodes.len() as u64;
        let n = n_leaves(size);
        let k = n_leaves(pos - 1);
        proof {
            let n0 = choose|n0: nat| #[trigger] mmr_size(n0) == size;
            lemma_n_leaves_of_size(n0);
            let k0 = choose|k0: nat| #[trigger] leaf_pos(k0) == pos;
            lemma_n_leaves_of_size(k0);
            if k >= n {
                lemma_size_monotone(n as nat, k as nat);
            }
            assert((k + 1) * 1 <= n);
        }
        let mut path: Vec<hash::Hash> = Vec::new();
        let mut a: u64 = k;
        let mut width: u64 = 1;
        let mut height: u64 = 0;
        assert(path@ + family_path(self@, n as nat, a as nat, 1, 0) =~= family_path(
            self@,
            n as nat,
            k as nat,
            1,
            0,
        ));
        while width <= n / 2 && a / 2 + 1 <= n / (2 * width)
            invariant
                width >= 1,
                height < width,
                pow2(height as nat) == width,
                (a + 1) * width <= n,
                a + 1 <= n,
                n <= MAX_LEAVES,
                mmr_size(n as nat) == size,
                size == self.nodes@.len(),
                size <= usize::MAX,
                path@ + family_path(self@, n as nat, a as nat, width as nat, height as nat)
                    == family_path(self@, n as nat, k as nat, 1, 0),
                family_peak(n as nat, a as nat, width as nat) == family_peak(n as nat, k as nat, 1),
            decreases n - width,
        {
            let sib = if a % 2 == 0 {
                a + 1
            } else {
                a - 1
            };
            proof {
                let dw: int = 2 * width;
                let q: int = (n as int) / dw;
                assert(q * dw <= n) by (nonlinear_arith)
                    requires
                        q == (n as int) / dw,
                        dw >= 1,
                        n >= 0,
                ;
                assert((a / 2 + 1) * (2 * width) <= n) by (nonlinear_arith)
                    requires
                        a / 2 + 1 <= q,
                        q * dw <= n,
                        dw == 2 * width,
                        width >= 1,
                ;
                assert((sib + 1) * width <= (a / 2 + 1) * (2 * width)) by (nonlinear_arith)
                    requires
                        sib + 1 <= 2 * (a / 2 + 1),
                        width >= 1,
                ;
                assert((sib + 1) * width >= 1) by (nonlinear_arith)
                    requires
                        sib >= 0,
                        width >= 1,
                ;
                lemma_block_end((sib + 1) as nat, height as nat);
                lemma_completed_in_range(
                    ((sib + 1) * width - 1) as nat,
                    height as nat,
                    n as nat,
                );
                lemma_pow2_grows((height + 1) as nat);
                assert(a / 2 + 1 <= n) by (nonlinear_arith)
                    requires
                        (a / 2 + 1) * (2 * width) <= n,
                        width >= 1,
                ;
            }
            let last = (sib + 1) * width - 1;
            let sib_pos = size_of_leaves(last) + 1 + height;
            let ghost before = path@;
            path.push(self.nodes[(sib_pos - 1) as usize].hash);
            proof {
                let rest = family_path(
                    self@,
                    n as nat,
                    (a / 2) as nat,
                    (2 * width) as nat,
                    (height + 1) as nat,
                );
                assert(path@ + rest =~= before + (seq![self@[sib_pos - 1].hash] + rest));
            }
            a = a / 2;
            width = 2 * width;
            height = height + 1;
        }
        proof {
            assert(!has_sibling(n as nat, a as nat, width as nat)) by {
                if 2 * width <= n {
                    assert(width <= n / 2);
                }
            }
            assert(path@ + Seq::<hash::Hash>::empty() =~= path@);
            assert(a * width <= (a + 1) * width) by (nonlinear_arith)
                requires
                    width >= 1,
                    a >= 0,
            ;
        }
        // the peaks to the right of the peak above the leaf, bagged
        let stop = (a + 1) * width;
        let mut m: u64 = n;
        let mut rhs: Option<hash::Hash> = None;
        while m > stop
            invariant
                m <= n <= MAX_LEAVES,
                mmr_size(n as nat) == size,
                size == self.nodes@.len(),
                size <= usize::MAX,
                bag_rhs(self@, size, m as nat, stop as nat, rhs) == bag_rhs(
                    self@,
                    size,
                    n as nat,
                    stop as nat,
                    None,
                ),
            decreases m,
        {
            let peak_pos = size_of_leaves(m);
            proof {
                lemma_size_monotone(m as nat, n as nat);
                lemma_low_bit(m as nat);
            }
            let peak = self.nodes[(peak_pos - 1) as usize].hash;
            rhs = Some(
                match rhs {
                    None => peak,
                    Some(rhash) => hash::Hash::of_children(size, &peak, &rhash),
                },
            );
            m = m - low_bit_of(m);
        }
        let ghost family = path@;
        if let Some(rhash) = rhs {
            path.push(rhash);
        }
        let ghost with_rhs = path@;
        // the peaks to its left, from the right
        let mut left: u64 = a * width;
        assert(with_rhs + peaks_from_right(self@, left as nat) =~= family + (match rhs {
            Some(rhash) => seq![rhash],
            None => Seq::empty(),
        }) + peaks_from_right(self@, (a * width) as nat));
        while left > 0
            invariant
                left <= n <= MAX_LEAVES,
                mmr_size(n as nat) == size,
                size == self.nodes@.len(),
                size <= usize::MAX,
                path@ + peaks_from_right(self@, left as nat) == with_rhs + peaks_from_right(
                    self@,
                    (a * width) as nat,
                ),
            decreases left,
        {
            let peak_pos = size_of_leaves(left);
            proof {
                lemma_size_monotone(left as nat, n as nat);
                lemma_low_bit(left as nat);
            }
            let ghost before = path@;
            path.push(self.nodes[(peak_pos - 1) as usize].hash);
            proof {
                let rest = peaks_from_right(self@, (left - low_bit(left as nat)) as nat);
                assert(path@ + rest =~= before + (seq![self@[mmr_size(left as nat) - 1].hash]
                    + rest));
            }
            left = left - low_bit_of(left);
        }
        assert(path@ + Seq::<hash::Hash>::empty() =~= path@);
        Ok(MerkleProof { mmr_size: size, path })
    }

    /// The hashes and elements of the live leaves among the last
    /// `distance` leaves, the last leaf first.
    pub fn get_last_n_insertions(&self, distance: u64) -> (r: Vec<(hash::Hash, T)>)
        ensures
            r@ == last_insertions(self@, spec_n_leaves(self@.len()), distance as nat),
    {
        proof {
            use_type_invariant(self);
        }
        let size = self.nodes.len() as u64;
        let n = n_leaves(size);
        proof {
            let n0 = choose|n0: nat| #[trigger] mmr_size(n0) == size;
            lemma_n_leaves_of_size(n0);
        }
        let mut out: Vec<(hash::Hash, T)> = Vec::new();
        let mut leaves: u64 = n;
        let mut left: u64 = distance;
        assert(out@ + last_insertions(self@, leaves as nat, left as nat) =~= last_insertions(
            self@,
            n as nat,
            distance as nat,
        ));
        while left > 0 && leaves > 0
            invariant
                leaves <= n <= MAX_LEAVES,
                mmr_size(n as nat) == size,
                size == self.nodes@.len(),
                size <= usize::MAX,
                out@ + last_insertions(self@, leaves as nat, left as nat) == last_insertions(
                    self@,
                    n as nat,
                    distance as nat,
                ),
            decreases left,
        {
            proof {
                lemma_completed_in_range((leaves - 1) as nat, 0, n as nat);
            }
            let pos = size_of_leaves(leaves - 1) + 1;
            let node = self.nodes[(pos - 1) as usize];
            let ghost before = out@;
            let ghost rest = last_insertions(self@, (leaves - 1) as nat, (left - 1) as nat);
            if node.live {
                if let Some(data) = node.data {
                    out.push((node.hash, data));
                    assert(out@ + rest =~= before + (seq![(node.hash, data)] + rest));
                }
            }
            leaves -= 1;
            left -= 1;
        }
        assert(out@ + Seq::<(hash::Hash, T)>::empty() =~= out@);
        out
    }

    /// The elements of up to `max_count` live leaves from the 1-based
    /// insertion index `start_index` on, and the insertion index of the
    /// last of them; an index of 0 means the first leaf.
    pub fn elements_from_insertion_index(&self, start_index: u64, max_count: u64) -> (r: (
        u64,
        Vec<T>,
    ))
        ensures
            ({
                let start = if start_index == 0 {
                    1nat
                } else {
                    start_index as nat
                };
                let found = elements_from(
                    self@,
                    spec_n_leaves(self@.len()),
                    start,
                    max_count as nat,
                    start,
                );
                r.0 == found.0 && r.1@ == found.1
            }),
    {
        proof {
            use_type_invariant(self);
        }
        let size = self.nodes.len() as u64;
        let n = n_leaves(size);
        proof {
            let n0 = choose|n0: nat| #[trigger] mmr_size(n0) == size;
            lemma_n_leaves_of_size(n0);
        }
        let start: u64 = if start_index == 0 {
            1
        } else {
            start_index
        };
        let mut out: Vec<T> = Vec::new();
        let mut index: u64 = start;
        let mut return_index: u64 = start;
        let mut taken: u64 = 0;
        assert(out@ + elements_from(self@, n as nat, start as nat, max_count as nat, start as nat).1
            =~= elements_from(self@, n as nat, start as nat, max_count as nat, start as nat).1);
        while taken < max_count && index <= n
            invariant
                index >= 1,
                n <= MAX_LEAVES,
                taken <= max_count,
                taken == out@.len(),
                mmr_size(n as nat) == size,
                size == self.nodes@.len(),
                size <= usize::MAX,
                elements_from(
                    self@,
                    n as nat,
                    index as nat,
                    (max_count - taken) as nat,
                    return_index as nat,
                ).0 == elements_from(
                    self@,
                    n as nat,
                    start as nat,
                    max_count as nat,
                    start as nat,
                ).0,
                out@ + elements_from(
                    self@,
                    n as nat,
                    index as nat,
                    (max_count - taken) as nat,
                    return_index as nat,
                ).1 == elements_from(
                    self@,
                    n as nat,
                    start as nat,
                    max_count as nat,
                    start as nat,
                ).1,
            decreases n + 1 - index,
        {
            proof {
                lemma_completed_in_range((index - 1) as nat, 0, n as nat);
            }
            let pos = size_of_leaves(index - 1) + 1;
            let node = self.nodes[(pos - 1) as usize];
            let ghost before = out@;
            let mut pushed = false;
            if node.live {
                if let Some(data) = node.data {
                    out.push(data);
                    pushed = true;
                    proof {
                        let rest = elements_from(
                            self@,
                            n as nat,
                            (index + 1) as nat,
                            (max_count - taken - 1) as nat,
                            index as nat,
                        ).1;
                        assert(out@ + rest =~= before + (seq![data] + rest));
                    }
                }
            }
            if pushed {
                return_index = index;
                taken += 1;
            }
            index += 1;
        }
        proof {
            assert(out@ + Seq::<T>::empty() =~= out@);
        }
        (return_index, out)
    }

    /// The positions at which a leaf lives, in rising order.
    pub fn leaf_positions(&self) -> (r: Vec<u64>)
        ensures
            r@ == live_positions(self@, self@.len()),
    {
        proof {
            use_type_invariant(self);
        }
        let mut out: Vec<u64> = Vec::new();
        let mut i: usize = 0;
        while i < self.nodes.len()
            invariant
                i <= self.nodes@.len(),
                self.nodes@.len() <= u64::MAX,
                out@ == live_positions(self@, i as nat),
            decreases self.nodes@.len() - i,
        {
            if self.nodes[i].live {
                out.push((i + 1) as u64);
            }
            i += 1;
        }
        out
    }

    /// A copy of the MMR.
    pub fn copy(&self) -> (r: Self)
        ensures
            r@ == self@,
    {
        proof {
            use_type_invariant(self);
        }
        let mut nodes: Vec<Node<T>> = Vec::new();
        let mut i: usize = 0;
        while i < self.nodes.len()
            invariant
                i <= self.nodes@.len(),
                nodes@ == self.nodes@.subrange(0, i as int),
            decreases self.nodes@.len() - i,
        {
            nodes.push(self.nodes[i]);
            i += 1;
            assert(nodes@ =~= self.nodes@.subrange(0, i as int));
        }
        assert(nodes@ =~= self.nodes@);
        PMMR { nodes }
    }

    /// The nodes, as they are stored.
    pub fn nodes(&self) -> (r: &Vec<Node<T>>)
        ensures
            r@ == self@,
    {
        &self.nodes
    }

    /// The MMR with the given nodes, if they can be the nodes of one.
    pub fn from_nodes(nodes: Vec<Node<T>>) -> (r: Option<Self>)
        ensures
            r is Some <==> wf_nodes(nodes@, PRUNABLE),
            r is Some ==> r->Some_0@ == nodes@,
    {
        let size = nodes.len() as u64;
        let n = n_leaves(size);
        if size_of_leaves(n) != size {
            proof {
                if is_mmr_size(size as nat) {
                    let n0 = choose|n0: nat| #[trigger] mmr_size(n0) == size;
                    lemma_n_leaves_of_size(n0);
                }
            }
            return None;
        }
        assert(is_mmr_size(size as nat)) by {
            assert(mmr_size(n as nat) == size);
        }
        let mut i: usize = 0;
        while i < nodes.len()
            invariant
                i <= nodes@.len(),
                nodes@.len() == size,
                forall|j: int|
                    0 <= j < i && (#[trigger] nodes@[j]).data is Some ==> spec_is_leaf(
                        (j + 1) as nat,
                    ),
                forall|j: int| 0 <= j < i && (#[trigger] nodes@[j]).live ==> nodes@[j].data is Some,
                !PRUNABLE ==> forall|j: int|
                    0 <= j < i && spec_is_leaf((j + 1) as nat) ==> (#[trigger] nodes@[j]).live,
            decreases nodes@.len() - i,
        {
            let node = nodes[i];
            let leaf = is_leaf((i + 1) as u64);
            if (node.data.is_some() && !leaf) || (node.live && node.data.is_none()) || (!PRUNABLE
                && leaf && !node.live) {
                return None;
            }
            i += 1;
        }
        Some(PMMR { nodes })
    }
}

impl<T: PMMRable> PMMR<T, true> {
    /// Prunes the leaf at `pos`. `Ok(false)` says that no leaf lives there;
    /// a position that is no leaf's is an error.
    pub fn prune(&mut self, pos: u64) -> (r: Result<bool, String>)
        ensures
            r is Err <==> !spec_is_leaf(pos as nat),
            r is Ok ==> r->Ok_0 == (spec_get_hash(old(self)@, pos) is Some),
            r == Ok::<bool, String>(true) ==> final(self)@ == spec_prune(old(self)@, pos),
            r != Ok::<bool, String>(true) ==> final(self)@ == old(self)@,
    {
        proof {
            use_type_invariant(&*self);
        }
        if !is_leaf(pos) {
            return Err("node is not a leaf, cannot prune".to_string());
        }
        if pos > self.nodes.len() as u64 {
            return Ok(false);
        }
        let index = (pos - 1) as usize;
        let node = self.nodes[index];
        if !node.live {
            return Ok(false);
        }
        let mut nodes: Vec<Node<T>> = Vec::new();
        proof {
            lemma_empty_wf::<T>(true);
        }
        core::mem::swap(&mut self.nodes, &mut nodes);
        nodes.set(index, Node { hash: node.hash, data: node.data, live: false });
        assert(nodes@ =~= spec_prune(old(self)@, pos));
        self.nodes = nodes;
        Ok(true)
    }

    /// Sets which leaves live to what a leaf snapshot lists: the MMR is
    /// then, as to its leaves, what it was when the snapshot was taken.
    pub fn restore_leaves(&mut self, positions: &Vec<u64>)
        ensures
            final(self)@ == spec_restore(old(self)@, positions@),
    {
        proof {
            use_type_invariant(&*self);
        }
        let mut nodes: Vec<Node<T>> = Vec::new();
        proof {
            lemma_empty_wf::<T>(true);
        }
        core::mem::swap(&mut self.nodes, &mut nodes);
        let ghost goal = spec_restore(old(self)@, positions@);
        let mut i: usize = 0;
        while i < nodes.len()
            invariant
                i <= nodes@.len(),
                nodes@.len() == old(self)@.len(),
                nodes@.len() <= u64::MAX,
                goal == spec_restore(old(self)@, positions@),
                forall|j: int| 0 <= j < i ==> nodes@[j] == goal[j],
                forall|j: int| i <= j < nodes@.len() ==> nodes@[j] == old(self)@[j],
            decreases nodes@.len() - i,
        {
            let node = nodes[i];
            let listed = node.data.is_some() && lists(positions, (i + 1) as u64);
            nodes.set(i, Node { hash: node.hash, data: node.data, live: listed });
            i += 1;
        }
        assert(nodes@ =~= goal);
        self.nodes = nodes;
    }
}

/// Whether `positions` lists `pos`.
fn lists(positions: &Vec<u64>, pos: u64) -> (r: bool)
    ensures
        r == positions@.contains(pos),
{
    let mut i: usize = 0;
    while i < positions.len()
        invariant
            i <= positions@.len(),
            forall|j: int| 0 <= j < i ==> positions@[j] != pos,
        decreases positions@.len() - i,
    {
        if positions[i] == pos {
            return true;
        }
        i += 1;
    }
    false
}

/// The leaves that lived when the block with the given header was the
/// head: what a peer needs, beside the nodes, to take the MMR over as of
/// that block.
#[derive(Debug)]
pub struct LeafSnapshot {
    pub header_hash: hash::Hash,
    pub positions: Vec<u64>,
}

impl LeafSnapshot {
    /// The hash of the header and the positions of the live leaves.
    pub open spec fn view(&self) -> (hash::Hash, Seq<u64>) {
        (self.header_hash, self.positions@)
    }

    /// The snapshot of `pmmr` as of the block with the given header.
    pub fn of<T: PMMRable, const PRUNABLE: bool>(
        header: &BlockHeader,
        pmmr: &PMMR<T, PRUNABLE>,
    ) -> (s: LeafSnapshot)
        ensures
            s@ == (header.hash, live_positions(pmmr@, pmmr@.len())),
    {
        LeafSnapshot { header_hash: header.hash, positions: pmmr.leaf_positions() }
    }
}

/// The views of a list of snapshots.
pub open spec fn snapshot_views(snapshots: Seq<LeafSnapshot>) -> Seq<(hash::Hash, Seq<u64>)> {
    snapshots.map_values(|s: LeafSnapshot| s@)
}

/// The store of one MMR: the MMR as it was last synced, and the leaf
/// snapshots taken of it.
#[derive(Debug)]
pub struct PMMRBackend<T, const PRUNABLE: bool> {
    pmmr: PMMR<T, PRUNABLE>,
    snapshots: Vec<LeafSnapshot>,
}

impl<T, const PRUNABLE: bool> PMMRBackend<T, PRUNABLE> {
    /// The nodes as they were last synced.
    pub closed spec fn view(&self) -> Seq<Node<T>> {
        self.pmmr@
    }

    /// The snapshots taken so far, oldest first.
    pub closed spec fn spec_snapshots(&self) -> Seq<(hash::Hash, Seq<u64>)> {
        snapshot_views(self.snapshots@)
    }

}

impl<T: PMMRable, const PRUNABLE: bool> PMMRBackend<T, PRUNABLE> {
    /// A backend without nodes or snapshots.
    pub fn new() -> (b: Self)
        ensures
            b@ == Seq::<Node<T>>::empty(),
            b.spec_snapshots() == Seq::<(hash::Hash, Seq<u64>)>::empty(),
    {
        let b = PMMRBackend { pmmr: PMMR::new(), snapshots: Vec::new() };
        assert(b.spec_snapshots() =~= Seq::<(hash::Hash, Seq<u64>)>::empty());
        b
    }

    /// The backend of an MMR read from elsewhere, with its snapshots.
    pub fn from_parts(pmmr: PMMR<T, PRUNABLE>, snapshots: Vec<LeafSnapshot>) -> (b: Self)
        ensures
            b@ == pmmr@,
            b.spec_snapshots() == snapshot_views(snapshots@),
    {
        PMMRBackend { pmmr, snapshots }
    }

    /// The MMR as it was last synced.
    pub fn pmmr(&self) -> (r: &PMMR<T, PRUNABLE>)
        ensures
            r@ == self@,
    {
        &self.pmmr
    }

    /// The snapshots taken so far, oldest first.
    pub fn snapshots(&self) -> (r: &Vec<LeafSnapshot>)
        ensures
            snapshot_views(r@) == self.spec_snapshots(),
    {
        &self.snapshots
    }

    /// The number of nodes, pruned ones included.
    pub fn unpruned_size(&self) -> (size: u64)
        ensures
            size == self@.len(),
    {
        self.pmmr.unpruned_size()
    }

    /// A copy of the MMR for a unit of work to change.
    pub fn begin(&self) -> (r: PMMR<T, PRUNABLE>)
        ensures
            r@ == self@,
    {
        self.pmmr.copy()
    }

    /// Ends a unit of work by keeping what it did to the MMR.
    pub fn sync(&mut self, pmmr: PMMR<T, PRUNABLE>)
        ensures
            final(self)@ == pmmr@,
            final(self).spec_snapshots() == old(self).spec_snapshots(),
    {
        self.pmmr = pmmr;
    }

    /// Ends a unit of work by dropping what it did to the MMR.
    pub fn discard(&mut self, pmmr: PMMR<T, PRUNABLE>)
        ensures
            final(self)@ == old(self)@,
            final(self).spec_snapshots() == old(self).spec_snapshots(),
    {
    }

    /// Adds snapshots to those taken so far. A snapshot stays, whatever
    /// becomes of the unit of work that took it.
    pub fn add_snapshots(&mut self, more: Vec<LeafSnapshot>)
        ensures
            final(self)@ == old(self)@,
            final(self).spec_snapshots() == old(self).spec_snapshots() + snapshot_views(more@),
    {
        let ghost added = more@;
        let mut more = more;
        self.snapshots.append(&mut more);
        assert(self.spec_snapshots() =~= old(self).spec_snapshots() + snapshot_views(added));
    }

    /// Compacts the synced MMR: see `PMMR::compact`.
    pub fn check_compact(&mut self, cutoff: u64, keep: &Bitmap)
        ensures
            final(self)@ == spec_compact(old(self)@, cutoff, bitmap_values(*keep)),
            final(self).spec_snapshots() == old(self).spec_snapshots(),
    {
        self.pmmr.compact(cutoff, keep);
    }

    /// Lets go of what the backend holds open. In memory there is nothing
    /// of the kind, and the backend stays as it is.
    pub fn release_files(&mut self)
        ensures
            final(self)@ == old(self)@,
            final(self).spec_snapshots() == old(self).spec_snapshots(),
    {
    }
}

impl<T: PMMRable> PMMRBackend<T, true> {
    /// Takes the synced MMR back to the leaves of the last snapshot taken
    /// for `header`. Says whether there was one; without one nothing
    /// changes.
    pub fn restore_snapshot(&mut self, header: &BlockHeader) -> (found: bool)
        ensures
            found == (snapshot_for(old(self).spec_snapshots(), header.hash) is Some),
            final(self).spec_snapshots() == old(self).spec_snapshots(),
            final(self)@ == (match snapshot_for(old(self).spec_snapshots(), header.hash) {
                Some(positions) => spec_restore(old(self)@, positions),
                None => old(self)@,
            }),
    {
        let mut i: usize = self.snapshots.len();
        assert(self.spec_snapshots().subrange(0, i as int) =~= self.spec_snapshots());
        while i > 0
            invariant
                i <= self.snapshots@.len(),
                self.spec_snapshots().len() == self.snapshots@.len(),
                snapshot_for(self.spec_snapshots(), header.hash) == snapshot_for(
                    self.spec_snapshots().subrange(0, i as int),
                    header.hash,
                ),
                *self == *old(self),
            decreases i,
        {
            let ghost prefix = self.spec_snapshots().subrange(0, i as int);
            i -= 1;
            proof {
                assert(prefix.drop_last() =~= self.spec_snapshots().subrange(0, i as int));
                assert(prefix.last() == self.snapshots@[i as int]@);
            }
            if self.snapshots[i].header_hash.same(&header.hash) {
                self.pmmr.restore_leaves(&self.snapshots[i].positions);
                return true;
            }
        }
        false
    }
}

} // verus!
