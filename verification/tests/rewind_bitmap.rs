use croaring::Bitmap;
use txhashset::error::{Error, ErrorKind};
use txhashset::rewind::{input_pos_to_rewind, FOLD_BATCH};
use txhashset::store::Batch;
use txhashset::types::BlockHeader;

fn hash(n: u64) -> txhashset::hash::Hash {
    let mut bytes = [0u8; 32];
    bytes[..8].copy_from_slice(&n.to_be_bytes());
    bytes[31] = 1;
    txhashset::hash::Hash { bytes }
}

fn header(height: u64) -> BlockHeader {
    BlockHeader {
        height,
        hash: hash(height),
        prev_hash: hash(height.wrapping_sub(1)),
        prev_root: hash(0),
        output_i_root: hash(0),
        output_ii_root: hash(0),
        kernel_root: hash(0),
        output_i_mmr_size: 0,
        output_ii_mmr_size: 0,
        kernel_mmr_size: 0,
        total_overage: 0,
    }
}

/// A chain of headers 0..=top, where the block at height h spent position h.
fn chain(top: u64) -> Batch {
    let mut batch = Batch::new();
    for height in 0..=top {
        batch.save_block_header(&header(height));
        if height > 0 {
            batch.save_block_input_bitmap(&hash(height), &Bitmap::of(&[height as u32]));
        }
    }
    batch
}

#[test]
fn nothing_to_rewind_where_the_head_is_not_above() {
    let batch = chain(3);
    let bitmap = input_pos_to_rewind(&header(3), &header(3), &batch).unwrap();
    assert!(bitmap.is_empty());
    let bitmap = input_pos_to_rewind(&header(3), &header(2), &batch).unwrap();
    assert!(bitmap.is_empty());
}

#[test]
fn rewind_bitmap_is_the_union_of_the_blocks_undone() {
    let batch = chain(5);
    // from 5 back to 2: the blocks 5, 4 and 3 are undone
    let bitmap = input_pos_to_rewind(&header(2), &header(5), &batch).unwrap();
    assert_eq!(bitmap.to_vec(), vec![3, 4, 5]);
    let bitmap = input_pos_to_rewind(&header(4), &header(5), &batch).unwrap();
    assert_eq!(bitmap.to_vec(), vec![5]);
    // down to genesis: all but the genesis block
    let bitmap = input_pos_to_rewind(&header(0), &header(5), &batch).unwrap();
    assert_eq!(bitmap.to_vec(), vec![1, 2, 3, 4, 5]);
}

#[test]
fn rewind_bitmap_joins_overlapping_bitmaps() {
    let mut batch = chain(3);
    batch.save_block_input_bitmap(&hash(3), &Bitmap::of(&[7, 9]));
    batch.save_block_input_bitmap(&hash(2), &Bitmap::of(&[9, 11]));
    let bitmap = input_pos_to_rewind(&header(1), &header(3), &batch).unwrap();
    assert_eq!(bitmap.to_vec(), vec![7, 9, 11]);
}

#[test]
fn rewind_bitmap_skips_blocks_without_bitmap() {
    let mut batch = Batch::new();
    for height in 0..=3 {
        batch.save_block_header(&header(height));
    }
    batch.save_block_input_bitmap(&hash(2), &Bitmap::of(&[8]));
    let bitmap = input_pos_to_rewind(&header(0), &header(3), &batch).unwrap();
    assert_eq!(bitmap.to_vec(), vec![8]);
}

#[test]
fn rewind_bitmap_is_empty_where_no_block_has_one() {
    let mut batch = Batch::new();
    for height in 0..=3 {
        batch.save_block_header(&header(height));
    }
    let bitmap = input_pos_to_rewind(&header(1), &header(3), &batch).unwrap();
    assert!(bitmap.is_empty());
}

#[test]
fn rewind_bitmap_folds_long_chains() {
    let top = 3 * FOLD_BATCH as u64 + 17;
    let batch = chain(top);
    let bitmap = input_pos_to_rewind(&header(10), &header(top), &batch).unwrap();
    let expected: Vec<u32> = (11..=top as u32).collect();
    assert_eq!(bitmap.to_vec(), expected);
    // exactly one batch
    let bitmap = input_pos_to_rewind(&header(1), &header(1 + FOLD_BATCH as u64), &batch).unwrap();
    assert_eq!(bitmap.cardinality(), FOLD_BATCH as u64);
}

#[test]
fn rewind_walk_ends_at_height_zero_for_a_foreign_target() {
    let batch = chain(3);
    // a target that is not on the chain: the walk goes down to genesis
    let mut foreign = header(1);
    foreign.hash = hash(99);
    let bitmap = input_pos_to_rewind(&foreign, &header(3), &batch).unwrap();
    assert_eq!(bitmap.to_vec(), vec![1, 2, 3]);
}

#[test]
fn rewind_walk_needs_every_header_on_the_way() {
    let mut batch = Batch::new();
    batch.save_block_header(&header(3));
    batch.save_block_header(&header(1));
    let err = input_pos_to_rewind(&header(1), &header(3), &batch).unwrap_err();
    assert_eq!(err.kind(), ErrorKind::StoreErr);
    assert!(matches!(err, Error::StoreErr(_, _)));
}

#[test]
fn rewind_walk_refuses_headers_that_do_not_descend() {
    let mut batch = Batch::new();
    batch.save_block_header(&header(3));
    // the header that 3 names as the one before it claims height 5
    let mut wrong = header(5);
    wrong.hash = hash(2);
    batch.save_block_header(&wrong);
    let err = input_pos_to_rewind(&header(0), &header(3), &batch).unwrap_err();
    assert_eq!(err.kind(), ErrorKind::Other);
}
