//! Which spent outputs a rewind brings back: the input positions of every
//! block that the rewind undoes, folded into one bitmap.

use crate::bitmap::{bitmap_clone, bitmap_fast_or, bitmap_new, bitmap_values, union_of};
use crate::error::{Error, ErrorKind};
use crate::hash;
use crate::store::{Batch, StoreView};
use crate::types::BlockHeader;
use croaring::Bitmap;
use vstd::prelude::*;

verus! {

/// How many bitmaps are staged before they are folded into one.
pub const FOLD_BATCH: usize = 256;

/// The headers of the blocks that a rewind from `current` back to the block
/// with hash `target` undoes, `current` first: the walk follows each header
/// to the one before it and ends at the target or at height 0. A header
/// that the store lacks ends it with `StoreErr`, one that is not below its
/// successor with `Other`.
pub open spec fn spec_rewind_blocks(
    store: StoreView,
    target: hash::Hash,
    current: BlockHeader,
) -> Result<Seq<BlockHeader>, ErrorKind>
    decreases current.height,
{
    if current.hash == target || current.height < 1 {
        Ok(Seq::empty())
    } else {
        match store.header(current.prev_hash) {
            None => Err(ErrorKind::StoreErr),
            Some(prev) => if prev.height >= current.height {
                Err(ErrorKind::Other)
            } else {
                match spec_rewind_blocks(store, target, prev) {
                    Ok(rest) => Ok(seq![current] + rest),
                    Err(e) => Err(e),
                }
            },
        }
    }
}

/// The positions that the inputs of the given blocks spent, as far as the
/// store has a bitmap for the block.
pub open spec fn spent_positions(store: StoreView, blocks: Seq<BlockHeader>) -> Set<u32> {
    Set::new(
        |x: u32|
            exists|i: int|
                0 <= i < blocks.len() && store.input_bitmaps.contains_key(
                    (#[trigger] blocks[i]).hash,
                ) && store.input_bitmaps[blocks[i].hash].contains(x),
    )
}

/// The positions to bring back on a rewind from `head` to `target`: none
/// where the head is not above the target, else those spent by the blocks
/// that the rewind undoes.
pub open spec fn spec_input_pos_to_rewind(
    store: StoreView,
    target: BlockHeader,
    head: BlockHeader,
) -> Result<Set<u32>, ErrorKind> {
    if head.height <= target.height {
        Ok(Set::empty())
    } else {
        match spec_rewind_blocks(store, target.hash, head) {
            Ok(blocks) => Ok(spent_positions(store, blocks)),
            Err(e) => Err(e),
        }
    }
}

proof fn lemma_union_push(bitmaps: Seq<Bitmap>, b: Bitmap)
    ensures
        union_of(bitmaps.push(b)) == union_of(bitmaps).union(bitmap_values(b)),
{
    let pushed = bitmaps.push(b);
    assert forall|x: u32| union_of(pushed).contains(x) <==> union_of(bitmaps).union(
        bitmap_values(b),
    ).contains(x) by {
        if union_of(pushed).contains(x) {
            let i = choose|i: int|
                0 <= i < pushed.len() && #[trigger] bitmap_values(pushed[i]).contains(x);
            if i < bitmaps.len() {
                assert(bitmap_values(bitmaps[i]).contains(x));
            }
        }
        if union_of(bitmaps).contains(x) {
            let i = choose|i: int|
                0 <= i < bitmaps.len() && #[trigger] bitmap_values(bitmaps[i]).contains(x);
            assert(bitmap_values(pushed[i]).contains(x));
        }
        if bitmap_values(b).contains(x) {
            assert(bitmap_values(pushed[bitmaps.len() as int]).contains(x));
        }
    }
    assert(union_of(pushed) =~= union_of(bitmaps).union(bitmap_values(b)));
}

proof fn lemma_union_empty()
    ensures
        union_of(Seq::<Bitmap>::empty()) == Set::<u32>::empty(),
{
    assert(union_of(Seq::<Bitmap>::empty()) =~= Set::<u32>::empty());
}

proof fn lemma_spent_push(store: StoreView, blocks: Seq<BlockHeader>, b: BlockHeader)
    ensures
        spent_positions(store, blocks.push(b)) == spent_positions(store, blocks).union(
            match store.input_bitmap(b.hash) {
                Some(s) => s,
                None => Set::empty(),
            },
        ),
{
    let pushed = blocks.push(b);
    let extra = match store.input_bitmap(b.hash) {
        Some(s) => s,
        None => Set::empty(),
    };
    assert forall|x: u32|
        spent_positions(store, pushed).contains(x) <==> spent_positions(store, blocks).union(
            extra,
        ).contains(x) by {
        if spent_positions(store, pushed).contains(x) {
            let i = choose|i: int|
                0 <= i < pushed.len() && store.input_bitmaps.contains_key(
                    (#[trigger] pushed[i]).hash,
                ) && store.input_bitmaps[pushed[i].hash].contains(x);
            if i < blocks.len() {
                assert(blocks[i] == pushed[i]);
            }
        }
        if spent_positions(store, blocks).contains(x) {
            let i = choose|i: int|
                0 <= i < blocks.len() && store.input_bitmaps.contains_key(
                    (#[trigger] blocks[i]).hash,
                ) && store.input_bitmaps[blocks[i].hash].contains(x);
            assert(pushed[i] == blocks[i]);
        }
        if extra.contains(x) {
            assert(pushed[blocks.len() as int] == b);
        }
    }
    assert(spent_positions(store, pushed) =~= spent_positions(store, blocks).union(extra));
}

/// Stages `b`, if there is one. With `FOLD_BATCH` bitmaps staged, or with
/// no bitmap given, folds what is staged into one bitmap, which is then
/// all that is staged, and gives a copy of it.
fn bitmap_fast_or_staged(b: Option<Bitmap>, staging: &mut Vec<Bitmap>) -> (r: Option<Bitmap>)
    requires
        old(staging)@.len() < FOLD_BATCH,
    ensures
        final(staging)@.len() < FOLD_BATCH,
        union_of(final(staging)@) == union_of(old(staging)@).union(
            match b {
                Some(bitmap) => bitmap_values(bitmap),
                None => Set::empty(),
            },
        ),
        b is None ==> r is Some,
        r is Some ==> bitmap_values(r->Some_0) == union_of(final(staging)@),
{
    if let Some(bitmap) = b {
        proof {
            lemma_union_push(staging@, bitmap);
        }
        staging.push(bitmap);
        if staging.len() < FOLD_BATCH {
            return None;
        }
    } else {
        assert(union_of(staging@).union(Set::empty()) =~= union_of(staging@));
    }
    let folded = bitmap_fast_or(staging);
    let copy = bitmap_clone(&folded);
    staging.clear();
    proof {
        lemma_union_empty();
        lemma_union_push(staging@, folded);
        assert(Set::<u32>::empty().union(bitmap_values(folded)) =~= bitmap_values(folded));
    }
    staging.push(folded);
    Some(copy)
}

/// The positions of the spent outputs that a rewind from the block of
/// `head_header` to the block of `block_header` brings back.
pub fn input_pos_to_rewind(
    block_header: &BlockHeader,
    head_header: &BlockHeader,
    batch: &Batch,
) -> (r: Result<Bitmap, Error>)
    ensures
        match r {
            Ok(bitmap) => spec_input_pos_to_rewind(batch@, *block_header, *head_header) == Ok::<
                Set<u32>,
                ErrorKind,
            >(bitmap_values(bitmap)),
            Err(e) => spec_input_pos_to_rewind(batch@, *block_header, *head_header) == Err::<
                Set<u32>,
                ErrorKind,
            >(e.spec_kind()),
        },
{
    if head_header.height <= block_header.height {
        return Ok(bitmap_new());
    }
    let mut staging: Vec<Bitmap> = Vec::new();
    let mut current: BlockHeader = *head_header;
    let ghost mut visited: Seq<BlockHeader> = Seq::empty();
    proof {
        lemma_union_empty();
        assert(spent_positions(batch@, visited) =~= Set::<u32>::empty());
    }
    while !current.hash.same(&block_header.hash) && current.height >= 1
        invariant
            head_header.height > block_header.height,
            staging@.len() < FOLD_BATCH,
            union_of(staging@) == spent_positions(batch@, visited),
            match spec_rewind_blocks(batch@, block_header.hash, current) {
                Ok(rest) => spec_rewind_blocks(batch@, block_header.hash, *head_header) == Ok::<
                    Seq<BlockHeader>,
                    ErrorKind,
                >(visited + rest),
                Err(e) => spec_rewind_blocks(batch@, block_header.hash, *head_header) == Err::<
                    Seq<BlockHeader>,
                    ErrorKind,
                >(e),
            },
        decreases current.height,
    {
        proof {
            lemma_spent_push(batch@, visited, current);
        }
        match batch.get_block_input_bitmap(&current.hash) {
            Ok(bitmap) => {
                bitmap_fast_or_staged(Some(bitmap), &mut staging);
            },
            Err(_) => {
                assert(union_of(staging@).union(Set::empty()) =~= union_of(staging@));
            },
        }
        let prev = match batch.get_previous_header(&current) {
            Ok(prev) => prev,
            Err(e) => {
                assert(spec_rewind_blocks(batch@, block_header.hash, current) == Err::<
                    Seq<BlockHeader>,
                    ErrorKind,
                >(ErrorKind::StoreErr));
                return Err(Error::store(e, "input positions to rewind"));
            },
        };
        if prev.height >= current.height {
            assert(spec_rewind_blocks(batch@, block_header.hash, current) == Err::<
                Seq<BlockHeader>,
                ErrorKind,
            >(ErrorKind::Other));
            return Err(Error::Other("previous header is not below its successor".to_string()));
        }
        proof {
            match spec_rewind_blocks(batch@, block_header.hash, prev) {
                Ok(rest) => {
                    assert(visited + (seq![current] + rest) =~= visited.push(current) + rest);
                },
                Err(_) => {},
            }
            visited = visited.push(current);
        }
        current = prev;
    }
    proof {
        assert(visited + Seq::<BlockHeader>::empty() =~= visited);
        assert(union_of(staging@).union(Set::empty()) =~= union_of(staging@));
    }
    match bitmap_fast_or_staged(None, &mut staging) {
        Some(bitmap) => Ok(bitmap),
        None => Err(Error::Bitmap),
    }
}

} // verus!
