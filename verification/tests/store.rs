use croaring::Bitmap;
use txhashset::error::StoreError;
use txhashset::store::{Batch, BitmapTable, ChainStore, Key, Table};
use txhashset::types::{BlockHeader, Commitment, OutputFeaturePosHeight, OutputFeatures, Tip};

fn hash(n: u8) -> txhashset::hash::Hash {
    txhashset::hash::Hash { bytes: [n; 32] }
}

fn commit(n: u8) -> Commitment {
    Commitment { bytes: [n; 33] }
}

fn header(height: u64, n: u8, prev: u8) -> BlockHeader {
    BlockHeader {
        height,
        hash: hash(n),
        prev_hash: hash(prev),
        prev_root: hash(0),
        output_i_root: hash(0),
        output_ii_root: hash(0),
        kernel_root: hash(0),
        output_i_mmr_size: 0,
        output_ii_mmr_size: 0,
        kernel_mmr_size: 0,
        total_overage: 0,
    }
}

fn entry(position: u64, height: u64) -> OutputFeaturePosHeight {
    OutputFeaturePosHeight { features: OutputFeatures::Plain, position, height }
}

#[test]
fn table_keeps_the_last_value_of_a_key() {
    let mut table: Table<Commitment, u64> = Table::new();
    assert_eq!(table.get(&commit(1)), None);
    table.put(commit(1), 10);
    table.put(commit(2), 20);
    table.put(commit(1), 11);
    assert_eq!(table.get(&commit(1)), Some(11));
    assert_eq!(table.get(&commit(2)), Some(20));
    assert_eq!(table.get(&commit(3)), None);
    let copy = table.copy();
    table.clear();
    assert_eq!(table.get(&commit(1)), None);
    assert_eq!(copy.get(&commit(1)), Some(11));
}

#[test]
fn keys_compare_by_their_bytes() {
    assert!(commit(1).key_eq(&commit(1)));
    assert!(!commit(1).key_eq(&commit(2)));
    assert!(hash(1).key_eq(&hash(1)));
    assert!(!hash(1).key_eq(&hash(2)));
    let mut bytes = [1u8; 33];
    bytes[32] = 2;
    assert!(!commit(1).same(&Commitment { bytes }));
    assert!(commit(1) != Commitment { bytes });
}

#[test]
fn bitmap_table_hands_out_copies() {
    let mut table = BitmapTable::new();
    assert!(table.get(&hash(1)).is_none());
    let mut bitmap = Bitmap::of(&[1, 5]);
    table.put(hash(1), &bitmap);
    // what is stored is a copy of its own
    bitmap.add(9);
    assert_eq!(table.get(&hash(1)).unwrap().to_vec(), vec![1, 5]);
    table.put(hash(1), &bitmap);
    assert_eq!(table.get(&hash(1)).unwrap().to_vec(), vec![1, 5, 9]);
    let copy = table.copy();
    assert_eq!(copy.get(&hash(1)).unwrap().to_vec(), vec![1, 5, 9]);
    assert!(copy.get(&hash(2)).is_none());
}

#[test]
fn empty_batch_finds_nothing() {
    let batch = Batch::new();
    assert!(matches!(batch.head(), Err(StoreError::NotFoundErr(_))));
    assert!(matches!(batch.header_head(), Err(StoreError::NotFoundErr(_))));
    assert!(matches!(batch.head_header(), Err(StoreError::NotFoundErr(_))));
    assert!(matches!(batch.get_block_header(&hash(1)), Err(StoreError::NotFoundErr(_))));
    assert!(matches!(batch.get_block_input_bitmap(&hash(1)), Err(StoreError::NotFoundErr(_))));
    assert!(matches!(batch.get_output_pos_height(&commit(1)), Err(StoreError::NotFoundErr(_))));
    assert!(matches!(batch.get_output_pos(&commit(1)), Err(StoreError::NotFoundErr(_))));
}

#[test]
fn batch_reads_what_it_saved() {
    let mut batch = Batch::new();
    let first = header(1, 1, 0);
    let second = header(2, 2, 1);
    batch.save_block_header(&first);
    batch.save_block_header(&second);
    batch.save_body_head(&Tip::from_header(&second));
    batch.save_header_head(&Tip::from_header(&first));
    batch.save_block_input_bitmap(&hash(2), &Bitmap::of(&[4]));
    batch.save_output_pos_height(&commit(7), entry(4, 2));
    batch.save_txkernel_pos_height(&commit(8), 1, 2);
    assert_eq!(batch.head(), Ok(Tip::from_header(&second)));
    assert_eq!(batch.header_head(), Ok(Tip::from_header(&first)));
    assert_eq!(batch.head_header(), Ok(second));
    assert_eq!(batch.get_block_header(&hash(1)), Ok(first));
    assert_eq!(batch.get_previous_header(&second), Ok(first));
    assert!(batch.get_previous_header(&first).is_err());
    assert_eq!(batch.get_block_input_bitmap(&hash(2)).unwrap().to_vec(), vec![4]);
    assert_eq!(batch.get_output_pos_height(&commit(7)), Ok(entry(4, 2)));
    assert_eq!(batch.get_output_pos(&commit(7)), Ok(4));
    batch.clear_output_pos_height();
    assert!(batch.get_output_pos_height(&commit(7)).is_err());
    // the rest stays
    assert_eq!(batch.head_header(), Ok(second));
}

#[test]
fn tip_is_taken_from_the_header() {
    let tip = Tip::from_header(&header(7, 3, 2));
    assert_eq!(tip, Tip { height: 7, last_block_h: hash(3), prev_block_h: hash(2) });
    assert_eq!(tip.hash(), hash(3));
    assert_eq!(header(7, 3, 2).hash(), hash(3));
}

#[test]
fn child_batch_is_seen_only_when_committed() {
    let mut batch = Batch::new();
    batch.save_output_pos_height(&commit(1), entry(1, 1));
    let mut child = batch.child();
    child.save_output_pos_height(&commit(2), entry(2, 1));
    assert_eq!(child.get_output_pos(&commit(1)), Ok(1));
    assert!(batch.get_output_pos(&commit(2)).is_err());
    // a dropped child leaves no trace
    let mut dropped = batch.child();
    dropped.save_output_pos_height(&commit(3), entry(3, 1));
    batch.commit_child(child);
    assert_eq!(batch.get_output_pos(&commit(2)), Ok(2));
    assert!(batch.get_output_pos(&commit(3)).is_err());
}

#[test]
fn store_holds_what_the_last_batch_committed() {
    let mut store = ChainStore::new();
    let mut batch = store.batch();
    batch.save_block_header(&header(1, 1, 0));
    batch.save_output_pos_height(&commit(1), entry(1, 1));
    assert!(store.get_block_header(&hash(1)).is_err());
    assert!(store.get_output_pos_height(&commit(1)).is_err());
    store.commit(batch);
    assert_eq!(store.get_block_header(&hash(1)), Ok(header(1, 1, 0)));
    assert_eq!(store.get_output_pos_height(&commit(1)), Ok(entry(1, 1)));
    assert_eq!(store.get_output_pos(&commit(1)), Ok(1));
    let other = ChainStore::from_batch(store.batch());
    assert_eq!(other.get_output_pos(&commit(1)), Ok(1));
}
