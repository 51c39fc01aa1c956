use croaring::Bitmap;
use txhashset::backend::{PMMRBackend, PMMR};
use txhashset::error::{Error, ErrorKind};
use txhashset::handle::PMMRHandle;
use txhashset::scope::{extending, header_extending};
use txhashset::store::ChainStore;
use txhashset::txhashset::{check_leaf, LeafCheck, TxHashSet};
use txhashset::types::{
    Block, BlockHeader, Commitment, Input, Output, OutputFeaturePosHeight, OutputFeatures,
    OutputI, OutputII, OutputIdentifier, Tip, TxKernel,
};

type HeaderHandle = PMMRHandle<BlockHeader, false>;

fn hash(n: u8) -> txhashset::hash::Hash {
    txhashset::hash::Hash { bytes: [n; 32] }
}

fn commit(n: u8) -> Commitment {
    Commitment { bytes: [n; 33] }
}

fn output(features: OutputFeatures, n: u8) -> Output {
    Output { features, commit: commit(n), value: n as u64 }
}

fn kernel(n: u8) -> TxKernel {
    TxKernel { fee: n as u64, lock_height: 0, excess: commit(n), excess_sig: [n; 64] }
}

fn header(height: u64, sizes: (u64, u64, u64)) -> BlockHeader {
    BlockHeader {
        height,
        hash: hash(height as u8 + 100),
        prev_hash: hash((height as u8).wrapping_add(99)),
        prev_root: hash(0),
        output_i_root: hash(0),
        output_ii_root: hash(0),
        kernel_root: hash(0),
        output_i_mmr_size: sizes.0,
        output_ii_mmr_size: sizes.1,
        kernel_mmr_size: sizes.2,
        total_overage: 0,
    }
}

/// A chain of three blocks on top of genesis. Genesis has the output 10.
/// Block 1 adds the outputs 1 and 2 and the kernel 1; block 2 spends 1 and
/// adds the signature-locked output 3 and the kernel 2; block 3 adds the
/// output 4 and the kernels 3 and 4.
fn chain() -> (HeaderHandle, TxHashSet, Vec<BlockHeader>) {
    let headers = vec![
        header(0, (1, 0, 0)),
        header(1, (4, 0, 1)),
        header(2, (4, 1, 3)),
        header(3, (7, 1, 7)),
    ];
    let blocks = vec![
        Block {
            header: headers[0],
            inputs: vec![],
            outputs: vec![output(OutputFeatures::Coinbase, 10)],
            kernels: vec![],
        },
        Block {
            header: headers[1],
            inputs: vec![],
            outputs: vec![output(OutputFeatures::Plain, 1), output(OutputFeatures::Plain, 2)],
            kernels: vec![kernel(1)],
        },
        Block {
            header: headers[2],
            inputs: vec![Input { features: OutputFeatures::Plain, commit: commit(1) }],
            outputs: vec![output(OutputFeatures::SigLocked, 3)],
            kernels: vec![kernel(2)],
        },
        Block {
            header: headers[3],
            inputs: vec![],
            outputs: vec![output(OutputFeatures::Plain, 4)],
            kernels: vec![kernel(3), kernel(4)],
        },
    ];
    let spent: Vec<Vec<u32>> = vec![vec![], vec![], vec![2], vec![]];
    let mut store = ChainStore::new();
    let mut batch = store.batch();
    batch.save_body_head(&Tip::from_header(&headers[0]));
    batch.save_header_head(&Tip::from_header(&headers[0]));
    store.commit(batch);
    let mut trees = TxHashSet::open(PMMRBackend::new(), PMMRBackend::new(), PMMRBackend::new(), store, None)
        .unwrap();
    let mut handle: HeaderHandle = PMMRHandle::new(PMMRBackend::new());
    for (b, spent) in blocks.iter().zip(spent.iter()) {
        let mut batch = trees.batch();
        batch.save_block_header(&b.header);
        batch.save_block_input_bitmap(&b.header.hash, &Bitmap::of(spent));
        let tip = Tip::from_header(&b.header);
        header_extending(&mut handle, &tip, &mut batch, |ext| ext.apply_header(&b.header)).unwrap();
        extending(&mut handle, &mut trees, &mut batch, |pair| {
            pair.extension.apply_block(b)?;
            pair.extension.validate_sizes()
        })
        .unwrap();
        batch.save_body_head(&tip);
        batch.save_header_head(&tip);
        trees.commit_batch(batch);
    }
    (handle, trees, headers)
}

#[test]
fn chain_state_after_three_blocks() {
    let (handle, trees, headers) = chain();
    assert_eq!(trees.output_i_handle().last_pos(), 7);
    assert_eq!(trees.output_ii_handle().last_pos(), 1);
    assert_eq!(trees.kernel_handle().last_pos(), 7);
    assert_eq!(handle.last_pos(), 7);
    assert_eq!(trees.highest_output_i_insertion_index(), 4);
    assert_eq!(trees.highest_output_ii_insertion_index(), 1);
    assert_eq!(trees.get_block_header(&headers[2].hash), Ok(headers[2]));
    assert_eq!(trees.get_block_header(&hash(1)).unwrap_err().kind(), ErrorKind::StoreErr);
    assert_eq!(trees.store().get_output_pos(&commit(4)), Ok(5));
    assert_eq!(
        trees.get_output_pos_height(&commit(3)),
        Ok(OutputFeaturePosHeight { features: OutputFeatures::SigLocked, position: 1, height: 2 })
    );
    assert_eq!(trees.get_output_pos_height(&commit(9)).unwrap_err().kind(), ErrorKind::StoreErr);
}

#[test]
fn is_unspent_checks_index_and_leaf() {
    let (_, trees, _) = chain();
    let found = trees.is_unspent(&commit(2)).unwrap();
    assert_eq!(found.position, 4);
    assert_eq!(found.height, 1);
    assert_eq!(found.features, OutputFeatures::Plain);
    assert_eq!(found.output_mmr_hash, trees.output_i_handle().pmmr().get_hash(4).unwrap());
    assert_eq!(trees.is_unspent(&commit(10)).unwrap().features, OutputFeatures::Coinbase);
    assert_eq!(trees.is_unspent(&commit(1)), Err(Error::AlreadySpent(commit(1))));
    assert_eq!(trees.is_unspent(&commit(50)), Err(Error::OutputNotFound));
}

#[test]
fn is_unspent_reports_a_leaf_that_does_not_match() {
    let (_, mut trees, _) = chain();
    // an index entry that names the leaf of another commitment
    let mut batch = trees.batch();
    batch.save_output_pos_height(
        &commit(60),
        OutputFeaturePosHeight { features: OutputFeatures::Plain, position: 4, height: 1 },
    );
    trees.commit_batch(batch);
    assert_eq!(
        trees.is_unspent(&commit(60)),
        Err(Error::TxHashSetErr("txhashset hash mismatch".to_string()))
    );
    // a leaf whose hash is not the hash of its data
    let mut nodes = trees.output_i_handle().pmmr().nodes().clone();
    nodes[3].hash = hash(77);
    let corrupt: PMMR<OutputI, true> = PMMR::from_nodes(nodes).unwrap();
    let pmmr = trees.output_i_handle().pmmr();
    assert!(matches!(check_leaf(pmmr, 4, &commit(2)), LeafCheck::Found(_, _)));
    assert_eq!(check_leaf(&corrupt, 4, &commit(2)), LeafCheck::Mismatch);
    assert_eq!(check_leaf(&corrupt, 2, &commit(1)), LeafCheck::Missing);
    assert_eq!(check_leaf(&corrupt, 3, &commit(1)), LeafCheck::Missing);
    assert_eq!(check_leaf(&corrupt, 0, &commit(1)), LeafCheck::Missing);
}

#[test]
fn outputs_and_kernels_by_position() {
    let (_, trees, _) = chain();
    assert_eq!(trees.output_i_by_position(1).unwrap().id.commit, commit(10));
    assert_eq!(trees.output_i_by_position(2), None);
    assert_eq!(trees.output_i_by_position(3), None);
    assert_eq!(trees.output_i_by_position(6), None);
    assert_eq!(trees.output_i_by_position(8), None);
    assert_eq!(trees.output_ii_by_position(1).unwrap().id.commit, commit(3));
    assert_eq!(trees.output_ii_by_position(2), None);
    assert_eq!(trees.txkernel_by_insertion_index(4), Some(kernel(3)));
    assert_eq!(trees.txkernel_by_insertion_index(3), None);
}

#[test]
fn last_insertions_and_scans_of_the_chain_state() {
    let (_, trees, _) = chain();
    let last: Vec<Commitment> = trees.last_n_output_i(3).iter().map(|(_, o)| o.id.commit).collect();
    assert_eq!(last, vec![commit(4), commit(2)]);
    assert_eq!(trees.last_n_output_ii(5).len(), 1);
    let kernels: Vec<u64> = trees.last_n_kernel(2).iter().map(|(_, k)| k.fee).collect();
    assert_eq!(kernels, vec![4, 3]);
    assert_eq!(trees.last_n_kernel(2)[0].0, trees.kernel_handle().pmmr().get_hash(5).unwrap());
    let (last, found) = trees.outputs_i_by_insertion_index(1, 2);
    assert_eq!(last, 3);
    assert_eq!(found.iter().map(|o| o.id.commit).collect::<Vec<_>>(), vec![commit(10), commit(2)]);
    let (last, found) = trees.outputs_ii_by_insertion_index(0, 10);
    assert_eq!((last, found.len()), (1, 1));
}

#[test]
fn find_kernel_scans_backwards() {
    let (_, trees, _) = chain();
    // kernel leaves at 1, 2, 4 and 5
    assert_eq!(trees.find_kernel(&commit(3), None, None), Some((kernel(3), 4)));
    assert_eq!(trees.find_kernel(&commit(1), None, None), Some((kernel(1), 1)));
    assert_eq!(trees.find_kernel(&commit(9), None, None), None);
    // the bounds are both included
    assert_eq!(trees.find_kernel(&commit(3), Some(4), Some(4)), Some((kernel(3), 4)));
    assert_eq!(trees.find_kernel(&commit(3), Some(5), None), None);
    assert_eq!(trees.find_kernel(&commit(3), None, Some(3)), None);
    assert_eq!(trees.find_kernel(&commit(3), Some(5), Some(4)), None);
    assert_eq!(trees.find_kernel(&commit(4), Some(0), Some(u64::MAX)), Some((kernel(4), 5)));
}

#[test]
fn find_kernel_gives_the_highest_of_equal_excesses() {
    let (mut handle, mut trees, headers) = chain();
    let mut batch = trees.batch();
    let mut again = kernel(1);
    again.fee = 99;
    extending(&mut handle, &mut trees, &mut batch, |pair| {
        pair.extension.apply_kernel(&again)?;
        Ok(())
    })
    .unwrap();
    assert_eq!(trees.find_kernel(&commit(1), None, None), Some((again, 8)));
    assert_eq!(trees.find_kernel(&commit(1), None, Some(7)), Some((kernel(1), 1)));
    let _ = headers;
}

#[test]
fn chain_state_merkle_proof_goes_by_the_identifier() {
    let (_, trees, _) = chain();
    let id = OutputIdentifier { features: OutputFeatures::Plain, commit: commit(2) };
    let proof = trees.merkle_proof(&id).unwrap();
    assert_eq!(proof.mmr_size, 7);
    assert_eq!(proof.path, trees.output_i_handle().pmmr().merkle_proof(4).unwrap().path);
    assert_eq!(proof.path.len(), 2);
    // what was spent has no proof
    let spent = OutputIdentifier { features: OutputFeatures::Plain, commit: commit(1) };
    assert_eq!(trees.merkle_proof(&spent), Err(Error::MerkleProof));
    // the features of the identifier select the MMR
    let wrong = OutputIdentifier { features: OutputFeatures::SigLocked, commit: commit(2) };
    assert_eq!(trees.merkle_proof(&wrong), Err(Error::MerkleProof));
    let unknown = OutputIdentifier { features: OutputFeatures::Plain, commit: commit(70) };
    assert_eq!(trees.merkle_proof(&unknown).unwrap_err().kind(), ErrorKind::StoreErr);
}

#[test]
fn compact_spares_what_a_rewind_to_the_horizon_needs() {
    let (mut handle, mut trees, headers) = chain();
    // spend output 2 (position 4) in a fourth block
    let fourth = Block {
        header: header(4, (7, 1, 7)),
        inputs: vec![Input { features: OutputFeatures::Plain, commit: commit(2) }],
        outputs: vec![],
        kernels: vec![],
    };
    let mut batch = trees.batch();
    batch.save_block_header(&fourth.header);
    batch.save_block_input_bitmap(&fourth.header.hash, &Bitmap::of(&[4]));
    extending(&mut handle, &mut trees, &mut batch, |pair| pair.extension.apply_block(&fourth)).unwrap();
    batch.save_body_head(&Tip::from_header(&fourth.header));
    trees.commit_batch(batch);
    let roots = trees.roots();
    // the horizon is block 3: block 4 is after it, block 2 is before it
    let mut batch = trees.batch();
    assert_eq!(trees.compact(&headers[3], &mut batch), Ok(()));
    assert_eq!(trees.roots(), roots);
    let nodes = trees.output_i_handle().pmmr().nodes();
    // position 2 was spent by block 2: its data is gone
    assert_eq!(nodes[1].data, None);
    // position 4 was spent by block 4: its data is spared
    assert!(nodes[3].data.is_some());
    assert!(!nodes[3].live);
    // the kernel MMR is left alone
    assert_eq!(trees.kernel_handle().pmmr().leaf_positions(), vec![1, 2, 4, 5]);
    // a rewind to the horizon brings position 4 back
    let mut batch = trees.batch();
    extending(&mut handle, &mut trees, &mut batch, |pair| pair.extension.rewind(&headers[3])).unwrap();
    assert_eq!(trees.output_i_by_position(4).unwrap().id.commit, commit(2));
    assert_eq!(trees.output_i_by_position(2), None);
}

#[test]
fn compact_needs_the_header_of_the_head() {
    let mut trees = TxHashSet::open(
        PMMRBackend::new(),
        PMMRBackend::new(),
        PMMRBackend::new(),
        ChainStore::new(),
        None,
    )
    .unwrap();
    let mut batch = trees.batch();
    let err = trees.compact(&header(0, (0, 0, 0)), &mut batch).unwrap_err();
    assert_eq!(err.kind(), ErrorKind::StoreErr);
}

#[test]
fn rebuild_enters_each_output_with_the_height_of_its_block() {
    let (handle, mut trees, _) = chain();
    let mut batch = trees.batch();
    // something that a rebuild must clear
    batch.save_output_pos_height(
        &commit(80),
        OutputFeaturePosHeight { features: OutputFeatures::Plain, position: 9, height: 9 },
    );
    assert_eq!(trees.rebuild_height_pos_index(&handle, &mut batch), Ok(()));
    let entry = |n: u8| batch.get_output_pos_height(&commit(n));
    // the first leaf of the first output MMR is the genesis output
    assert_eq!(
        entry(10),
        Ok(OutputFeaturePosHeight { features: OutputFeatures::Coinbase, position: 1, height: 0 })
    );
    assert_eq!(
        entry(2),
        Ok(OutputFeaturePosHeight { features: OutputFeatures::Plain, position: 4, height: 1 })
    );
    assert_eq!(
        entry(4),
        Ok(OutputFeaturePosHeight { features: OutputFeatures::Plain, position: 5, height: 3 })
    );
    assert_eq!(
        entry(3),
        Ok(OutputFeaturePosHeight { features: OutputFeatures::SigLocked, position: 1, height: 2 })
    );
    // spent outputs and old entries are not in it
    assert!(entry(1).is_err());
    assert!(entry(80).is_err());
    // the rest of the batch is as it was
    assert_eq!(batch.head().unwrap().height, 3);
    trees.commit_batch(batch);
    assert_eq!(trees.is_unspent(&commit(4)).unwrap().height, 3);
}

#[test]
fn rebuild_twice_is_rebuild_once() {
    let (handle, trees, _) = chain();
    let mut batch = trees.batch();
    trees.rebuild_height_pos_index(&handle, &mut batch).unwrap();
    let once: Vec<_> = [1u8, 2, 3, 4, 10, 80].iter().map(|n| batch.get_output_pos_height(&commit(*n)).ok()).collect();
    trees.rebuild_height_pos_index(&handle, &mut batch).unwrap();
    let twice: Vec<_> = [1u8, 2, 3, 4, 10, 80].iter().map(|n| batch.get_output_pos_height(&commit(*n)).ok()).collect();
    assert_eq!(once, twice);
}

#[test]
fn rebuild_needs_head_and_headers() {
    let (handle, trees, headers) = chain();
    let mut empty = txhashset::store::Batch::new();
    let err = trees.rebuild_height_pos_index(&handle, &mut empty).unwrap_err();
    assert_eq!(err.kind(), ErrorKind::StoreErr);
    // a head above what the header MMR holds
    let mut batch = trees.batch();
    batch.save_body_head(&Tip::from_header(&header(4, (0, 0, 0))));
    let err = trees.rebuild_height_pos_index(&handle, &mut batch).unwrap_err();
    assert_eq!(err.kind(), ErrorKind::Other);
    // a header that the batch lacks
    let mut batch = txhashset::store::Batch::new();
    batch.save_body_head(&Tip::from_header(&headers[3]));
    batch.save_block_header(&headers[1]);
    let err = trees.rebuild_height_pos_index(&handle, &mut batch).unwrap_err();
    assert_eq!(err.kind(), ErrorKind::StoreErr);
    assert_eq!(batch.get_output_pos(&commit(2)), Ok(4));
}

#[test]
fn records_convert_from_and_to_outputs() {
    let plain = output(OutputFeatures::Plain, 1);
    let locked = output(OutputFeatures::SigLocked, 2);
    let record = OutputI::from_output(&plain).unwrap();
    assert_eq!(record.id, OutputIdentifier { features: OutputFeatures::Plain, commit: commit(1) });
    assert_eq!(record.into_output(), plain);
    assert!(matches!(OutputI::from_output(&locked), Err(Error::Other(_))));
    assert!(OutputI::from_output(&output(OutputFeatures::Coinbase, 3)).is_ok());
    let record = OutputII::from_output(&locked).unwrap();
    assert_eq!(record.into_output(), locked);
    assert_eq!(record.id.commitment(), commit(2));
    assert!(matches!(OutputII::from_output(&plain), Err(Error::Other(_))));
    assert_eq!(plain.commitment(), commit(1));
    assert_eq!(kernel(4).excess(), commit(4));
    assert_eq!(Input { features: OutputFeatures::Plain, commit: commit(5) }.commitment(), commit(5));
}

#[test]
fn features_have_flags() {
    assert_eq!(OutputFeatures::Plain.flag(), 0);
    assert_eq!(OutputFeatures::Coinbase.flag(), 1);
    assert_eq!(OutputFeatures::SigLocked.flag(), 2);
    assert!(!OutputFeatures::Plain.is_siglocked());
    assert!(!OutputFeatures::Coinbase.is_siglocked());
    assert!(OutputFeatures::SigLocked.is_siglocked());
}

#[test]
fn every_error_has_its_kind() {
    let not_found = txhashset::error::StoreError::NotFoundErr("x".to_string());
    let cases = vec![
        (Error::OutputNotFound, ErrorKind::OutputNotFound),
        (Error::AlreadySpent(commit(1)), ErrorKind::AlreadySpent(commit(1))),
        (Error::DuplicateCommitment(commit(2)), ErrorKind::DuplicateCommitment(commit(2))),
        (Error::TxHashSetErr("a".to_string()), ErrorKind::TxHashSetErr),
        (Error::InvalidRoot, ErrorKind::InvalidRoot),
        (Error::InvalidMMRSize, ErrorKind::InvalidMMRSize),
        (Error::InvalidTxHashSet("b".to_string()), ErrorKind::InvalidTxHashSet),
        (Error::MerkleProof, ErrorKind::MerkleProof),
        (Error::TxKernelNotFound, ErrorKind::TxKernelNotFound),
        (Error::Bitmap, ErrorKind::Bitmap),
        (Error::Io("d".to_string()), ErrorKind::Io),
        (Error::Other("c".to_string()), ErrorKind::Other),
        (Error::store(not_found.clone(), "during"), ErrorKind::StoreErr),
    ];
    for (error, kind) in cases {
        assert_eq!(error.kind(), kind);
    }
    assert_eq!(Error::store(not_found.clone(), "during"), Error::StoreErr(not_found, "during".to_string()));
    assert_ne!(ErrorKind::AlreadySpent(commit(1)), ErrorKind::AlreadySpent(commit(2)));
}

#[test]
fn roots_compare_all_three() {
    let (_, trees, _) = chain();
    let roots = trees.roots();
    assert!(roots.same(&trees.roots()));
    let mut other = roots;
    other.kernel_root = hash(1);
    assert!(!roots.same(&other));
    let mut other = roots;
    other.output_ii_root = hash(1);
    assert!(!roots.same(&other));
    assert_eq!(roots.output_ii_root, {
        let mut pmmr: PMMR<OutputII, true> = PMMR::new();
        pmmr.push(&OutputII::from_output(&output(OutputFeatures::SigLocked, 3)).unwrap()).unwrap();
        pmmr.root()
    });
}
