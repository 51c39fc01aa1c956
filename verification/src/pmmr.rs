//! The shape of a Merkle Mountain Range: which positions hold leaves, how
//! many nodes a range of so many leaves has, and where its peaks are.
//!
//! Positions count the nodes from 1 in the order in which they are added: a
//! leaf, then every parent that the leaf completes.

use vstd::prelude::*;

verus! {

/// The most leaves that an MMR addressed by `u64` positions can hold.
pub const MAX_LEAVES: u64 = 0x8000_0000_0000_0000;

/// The number of ones in the binary form of `n`.
pub open spec fn popcount(n: nat) -> nat
    decreases n,
{
    if n == 0 {
        0
    } else {
        popcount(n / 2) + n % 2
    }
}

/// The number of ones at the low end of the binary form of `n`.
pub open spec fn trailing_ones(n: nat) -> nat
    decreases n,
{
    if n % 2 == 1 {
        1 + trailing_ones(n / 2)
    } else {
        0
    }
}

/// The value of the lowest one in the binary form of `n`, for `n > 0`.
pub open spec fn low_bit(n: nat) -> nat
    decreases n,
{
    if n == 0 || n % 2 == 1 {
        1
    } else {
        2 * low_bit(n / 2)
    }
}

/// Two to the power `h`.
pub open spec fn pow2(h: nat) -> nat
    decreases h,
{
    if h == 0 {
        1
    } else {
        2 * pow2((h - 1) as nat)
    }
}

/// The number of nodes of an MMR with `n` leaves: one perfect tree of
/// `2^(b+1) - 1` nodes for each one at bit `b` of `n`.
pub open spec fn mmr_size(n: nat) -> nat {
    (2 * n - popcount(n)) as nat
}

/// The position of the leaf with the 0-based insertion index `k`.
pub open spec fn leaf_pos(k: nat) -> nat {
    mmr_size(k) + 1
}

/// Whether a leaf stands at `pos`.
pub open spec fn spec_is_leaf(pos: nat) -> bool {
    exists|k: nat| #[trigger] leaf_pos(k) == pos
}

/// Whether an MMR can have exactly `size` nodes.
pub open spec fn is_mmr_size(size: nat) -> bool {
    exists|n: nat| #[trigger] mmr_size(n) == size
}

/// Whether `n` is the least number of leaves whose MMR has `size` nodes or
/// more.
pub open spec fn covers(n: nat, size: nat) -> bool {
    mmr_size(n) >= size && (n > 0 ==> mmr_size((n - 1) as nat) < size)
}

/// The least number of leaves whose MMR has `size` nodes or more. For the
/// size of an MMR this is the number of its leaves.
pub closed spec fn spec_n_leaves(size: nat) -> nat {
    choose|n: nat| covers(n, size)
}

/// A number has no more ones than its value, and a positive number has
/// one at least.
pub proof fn lemma_popcount_le(n: nat)
    ensures
        popcount(n) <= n,
        n > 0 ==> popcount(n) >= 1,
    decreases n,
{
    if n > 0 {
        lemma_popcount_le(n / 2);
    }
}

/// Adding a leaf adds the leaf and one parent for each trailing one of the
/// number of leaves before.
pub proof fn lemma_size_step(n: nat)
    ensures
        mmr_size(n + 1) == mmr_size(n) + 1 + trailing_ones(n),
        popcount(n + 1) + trailing_ones(n) == popcount(n) + 1,
    decreases n,
{
    lemma_popcount_le(n);
    lemma_popcount_le(n + 1);
    if n % 2 == 1 {
        lemma_size_step(n / 2);
        assert((n + 1) / 2 == n / 2 + 1);
    } else {
        assert((n + 1) / 2 == n / 2);
    }
}

/// More leaves make a larger MMR, and an MMR has no fewer nodes than
/// leaves.
pub proof fn lemma_size_monotone(a: nat, b: nat)
    requires
        a <= b,
    ensures
        mmr_size(a) <= mmr_size(b),
        a < b ==> mmr_size(a) < mmr_size(b),
        a <= mmr_size(a),
    decreases b - a,
{
    lemma_popcount_le(a);
    if a < b {
        lemma_size_step(a);
        lemma_size_monotone(a + 1, b);
    }
}

/// There is exactly one least number of leaves that covers a size.
pub proof fn lemma_n_leaves_unique(n: nat, size: nat)
    requires
        covers(n, size),
    ensures
        spec_n_leaves(size) == n,
{
    let m = spec_n_leaves(size);
    assert(covers(m, size));
    if m < n {
        lemma_size_monotone(m, (n - 1) as nat);
    } else if n < m {
        lemma_size_monotone(n, (m - 1) as nat);
    }
}

/// The MMR of `n` leaves has `n` leaves among its positions.
pub proof fn lemma_n_leaves_of_size(n: nat)
    ensures
        spec_n_leaves(mmr_size(n)) == n,
{
    if n > 0 {
        lemma_size_monotone((n - 1) as nat, n);
    }
    lemma_n_leaves_unique(n, mmr_size(n));
}

/// A power of two is at least one.
pub proof fn lemma_pow2_positive(h: nat)
    ensures
        pow2(h) >= 1,
    decreases h,
{
    if h > 0 {
        lemma_pow2_positive((h - 1) as nat);
    }
}

/// The lowest one of a positive number is no more than the number, and
/// taking it away takes one of its ones away.
pub proof fn lemma_low_bit(n: nat)
    requires
        n > 0,
    ensures
        1 <= low_bit(n) <= n,
        popcount((n - low_bit(n)) as nat) + 1 == popcount(n),
    decreases n,
{
    if n % 2 == 0 {
        lemma_low_bit(n / 2);
        let l = low_bit(n / 2);
        assert((n - 2 * l) / 2 == n / 2 - l);
        assert((n - 2 * l) % 2 == 0);
        if n - 2 * l == 0 {
        }
    } else {
        assert((n - 1) / 2 == n / 2);
    }
}

/// The number of ones in the binary form of `n`.
pub fn count_ones(n: u64) -> (c: u64)
    ensures
        c == popcount(n as nat),
{
    let mut m: u64 = n;
    let mut c: u64 = 0;
    while m > 0
        invariant
            c + popcount(m as nat) == popcount(n as nat),
        decreases m,
    {
        proof {
            lemma_popcount_le(n as nat);
            lemma_popcount_le((m / 2) as nat);
        }
        c = c + m % 2;
        m = m / 2;
    }
    c
}

/// The number of nodes of an MMR with `n` leaves.
pub fn size_of_leaves(n: u64) -> (size: u64)
    requires
        n <= MAX_LEAVES,
    ensures
        size == mmr_size(n as nat),
{
    let c = count_ones(n);
    proof {
        lemma_popcount_le(n as nat);
    }
    n + (n - c)
}

/// The least number of leaves whose MMR has `size` nodes or more: for the
/// size of an MMR, the number of its leaves.
pub fn n_leaves(size: u64) -> (n: u64)
    ensures
        n == spec_n_leaves(size as nat),
        n <= MAX_LEAVES,
        covers(n as nat, size as nat),
{
    let mut lo: u64 = 0;
    let mut hi: u64 = MAX_LEAVES;
    proof {
        lemma_top_size();
    }
    while lo < hi
        invariant
            lo <= hi <= MAX_LEAVES,
            mmr_size(hi as nat) >= size,
            lo > 0 ==> mmr_size((lo - 1) as nat) < size,
        decreases hi - lo,
    {
        let mid = lo + (hi - lo) / 2;
        if size_of_leaves(mid) >= size {
            hi = mid;
        } else {
            lo = mid + 1;
        }
    }
    proof {
        lemma_n_leaves_unique(lo as nat, size as nat);
    }
    lo
}

/// Whether a leaf stands at `pos`.
pub fn is_leaf(pos: u64) -> (r: bool)
    ensures
        r == spec_is_leaf(pos as nat),
{
    if pos == 0 {
        assert(!spec_is_leaf(0)) by {
            assert forall|k: nat| #[trigger] leaf_pos(k) != 0 by {}
        }
        return false;
    }
    let n = n_leaves(pos - 1);
    let size = size_of_leaves(n);
    proof {
        if size == pos - 1 {
            assert(leaf_pos(n as nat) == pos);
        } else {
            assert forall|k: nat| #[trigger] leaf_pos(k) != pos by {
                if leaf_pos(k) == pos {
                    if k < n {
                        lemma_size_monotone(k, (n - 1) as nat);
                    } else {
                        lemma_size_monotone(n as nat, k);
                    }
                }
            }
        }
    }
    size == pos - 1
}

/// The position of the leaf with the 1-based insertion index `index`.
pub fn insertion_to_pmmr_index(index: u64) -> (pos: u64)
    requires
        1 <= index <= MAX_LEAVES,
    ensures
        pos == leaf_pos((index - 1) as nat),
{
    proof {
        lemma_top_size();
        lemma_size_monotone((index - 1) as nat, (MAX_LEAVES - 1) as nat);
        lemma_size_monotone((MAX_LEAVES - 1) as nat, MAX_LEAVES as nat);
    }
    size_of_leaves(index - 1) + 1
}

/// The largest MMR that `u64` positions can address fills them all.
pub proof fn lemma_top_size()
    ensures
        mmr_size(MAX_LEAVES as nat) == u64::MAX,
{
    lemma_popcount_pow2(63);
    lemma_pow2_values();
}

proof fn lemma_pow2_values()
    ensures
        pow2(63) == 0x8000_0000_0000_0000,
{
    reveal_with_fuel(pow2, 64);
}

proof fn lemma_popcount_pow2(h: nat)
    ensures
        popcount(pow2(h)) == 1,
    decreases h,
{
    if h > 0 {
        lemma_popcount_pow2((h - 1) as nat);
        lemma_pow2_positive((h - 1) as nat);
    } else {
        reveal_with_fuel(popcount, 2);
    }
}

/// No leaf stands between a leaf and the next one.
pub proof fn lemma_parents_between(k: nat, pos: nat)
    requires
        leaf_pos(k) < pos < leaf_pos(k + 1),
    ensures
        !spec_is_leaf(pos),
{
    assert forall|j: nat| #[trigger] leaf_pos(j) != pos by {
        if leaf_pos(j) == pos {
            if j <= k {
                lemma_size_monotone(j, k);
            } else {
                lemma_size_monotone(k + 1, j);
            }
        }
    }
}

/// The value of the lowest one in the binary form of `n`.
pub fn low_bit_of(n: u64) -> (w: u64)
    requires
        n > 0,
    ensures
        w == low_bit(n as nat),
        1 <= w <= n,
{
    let mut m: u64 = n;
    let mut w: u64 = 1;
    while m % 2 == 0
        invariant
            m > 0,
            w >= 1,
            w * m <= n,
            low_bit(n as nat) == w * low_bit(m as nat),
        decreases m,
    {
        proof {
            assert((2 * w) * (m / 2) <= n) by (nonlinear_arith)
                requires
                    w * m <= n,
                    m % 2 == 0,
            ;
            assert(2 * w <= n) by (nonlinear_arith)
                requires
                    (2 * w) * (m / 2) <= n,
                    m / 2 >= 1,
                    w >= 1,
            ;
            assert(w * low_bit(m as nat) == (2 * w) * low_bit((m / 2) as nat)) by (nonlinear_arith)
                requires
                    low_bit(m as nat) == 2 * low_bit((m / 2) as nat),
            ;
        }
        w = w * 2;
        m = m / 2;
    }
    proof {
        assert(w * 1 <= w * m) by (nonlinear_arith)
            requires
                m >= 1,
                w >= 1,
        ;
    }
    w
}

/// The number before a multiple of `2^h` ends in `h` ones.
pub proof fn lemma_block_end(c: nat, h: nat)
    requires
        c >= 1,
    ensures
        c * pow2(h) >= 1,
        trailing_ones((c * pow2(h) - 1) as nat) >= h,
    decreases h,
{
    if h > 0 {
        lemma_block_end(c, (h - 1) as nat);
        let half = c * pow2((h - 1) as nat);
        assert(c * pow2(h) == 2 * half) by (nonlinear_arith)
            requires
                pow2(h) == 2 * pow2((h - 1) as nat),
                half == c * pow2((h - 1) as nat),
        ;
        assert((2 * half - 1) / 2 == half - 1);
        assert((2 * half - 1) % 2 == 1);
    } else {
        assert(c * pow2(0) == c) by (nonlinear_arith)
            requires
                pow2(0) == 1,
        ;
    }
}

/// The node that the leaf with insertion index `last` completes at height
/// `h` lies within the MMR of any greater number of leaves.
pub proof fn lemma_completed_in_range(last: nat, h: nat, n: nat)
    requires
        last < n,
        h <= trailing_ones(last),
    ensures
        1 <= leaf_pos(last) + h <= mmr_size(n),
{
    lemma_size_step(last);
    lemma_size_monotone(last + 1, n);
}

/// A power of two is greater than its exponent.
pub proof fn lemma_pow2_grows(h: nat)
    ensures
        pow2(h) > h,
    decreases h,
{
    if h > 0 {
        lemma_pow2_grows((h - 1) as nat);
    }
}

} // verus!
