use croaring::Bitmap;
use txhashset::backend::PMMRBackend;
use txhashset::handle::PMMRHandle;
use txhashset::pmmr::n_leaves;
use txhashset::scope::{extending, extending_readonly};
use txhashset::store::ChainStore;
use txhashset::txhashset::TxHashSet;
use txhashset::types::{
    Block, BlockHeader, Commitment, Input, Output, OutputFeatures, PMMRable, Tip, TxKernel,
};

type HeaderHandle = PMMRHandle<BlockHeader, false>;

fn hash(n: u8) -> txhashset::hash::Hash {
    txhashset::hash::Hash { bytes: [n; 32] }
}

fn commit(n: u8) -> Commitment {
    Commitment { bytes: [n; 33] }
}

fn output(features: OutputFeatures, n: u8) -> Output {
    Output { features, commit: commit(n), value: n as u64 }
}

fn kernel(n: u8) -> TxKernel {
    TxKernel { fee: n as u64, lock_height: 0, excess: commit(n), excess_sig: [n; 64] }
}

fn header(height: u64, sizes: (u64, u64, u64)) -> BlockHeader {
    BlockHeader {
        height,
        hash: hash(height as u8 + 100),
        prev_hash: hash((height as u8).wrapping_add(99)),
        prev_root: hash(0),
        output_i_root: hash(0),
        output_ii_root: hash(0),
        kernel_root: hash(0),
        output_i_mmr_size: sizes.0,
        output_ii_mmr_size: sizes.1,
        kernel_mmr_size: sizes.2,
        total_overage: 0,
    }
}

/// A chain state with one block on top of genesis: the outputs 1, 2
/// (plain) and 3 (signature-locked) and the kernels 1 and 2.
fn one_block() -> (HeaderHandle, TxHashSet, BlockHeader) {
    let first = header(1, (3, 1, 3));
    let mut store = ChainStore::new();
    let mut batch = store.batch();
    batch.save_block_header(&header(0, (0, 0, 0)));
    batch.save_body_head(&Tip::from_header(&header(0, (0, 0, 0))));
    batch.save_header_head(&Tip::from_header(&header(0, (0, 0, 0))));
    store.commit(batch);
    let mut trees = TxHashSet::open(PMMRBackend::new(), PMMRBackend::new(), PMMRBackend::new(), store, None)
        .unwrap();
    let mut handle: HeaderHandle = PMMRHandle::new(PMMRBackend::new());
    let b = Block {
        header: first,
        inputs: vec![],
        outputs: vec![
            output(OutputFeatures::Plain, 1),
            output(OutputFeatures::Plain, 2),
            output(OutputFeatures::SigLocked, 3),
        ],
        kernels: vec![kernel(1), kernel(2)],
    };
    let mut batch = trees.batch();
    batch.save_block_header(&first);
    extending(&mut handle, &mut trees, &mut batch, |pair| {
        pair.extension.apply_block(&b)?;
        pair.extension.validate_sizes()
    })
    .unwrap();
    batch.save_body_head(&Tip::from_header(&first));
    trees.commit_batch(batch);
    (handle, trees, first)
}

fn later_blocks() -> Vec<(Block, Vec<u32>)> {
    vec![
        (
            Block {
                header: header(2, (4, 3, 4)),
                inputs: vec![
                    Input { features: OutputFeatures::Plain, commit: commit(2) },
                    Input { features: OutputFeatures::SigLocked, commit: commit(3) },
                ],
                outputs: vec![
                    output(OutputFeatures::Coinbase, 4),
                    output(OutputFeatures::SigLocked, 5),
                ],
                kernels: vec![kernel(3)],
            },
            vec![2],
        ),
        (
            Block {
                header: header(3, (7, 3, 8)),
                inputs: vec![Input { features: OutputFeatures::Coinbase, commit: commit(4) }],
                outputs: vec![output(OutputFeatures::Plain, 6)],
                kernels: vec![kernel(4), kernel(5)],
            },
            vec![4],
        ),
    ]
}

#[test]
fn apply_then_rewind_gives_back_sizes_roots_and_outputs() {
    let (mut handle, mut trees, first) = one_block();
    let roots = trees.roots();
    let unspent: Vec<_> = (1..=6).map(|n| trees.is_unspent(&commit(n)).ok()).collect();
    let nodes_i = trees.output_i_handle().pmmr().nodes().clone();
    let nodes_ii = trees.output_ii_handle().pmmr().nodes().clone();
    let mut batch = trees.batch();
    for (b, spent) in later_blocks() {
        batch.save_block_header(&b.header);
        // the positions that the inputs spend in the first output MMR
        batch.save_block_input_bitmap(&b.header.hash, &Bitmap::of(&spent));
    }
    let res = extending(&mut handle, &mut trees, &mut batch, |pair| {
        for (b, _) in later_blocks() {
            pair.extension.apply_block(&b)?;
            pair.extension.validate_sizes()?;
        }
        assert_eq!(pair.extension.sizes(), (7, 3, 8));
        pair.extension.rewind(&first)?;
        assert_eq!(pair.extension.head(), Tip::from_header(&first));
        Ok((pair.extension.sizes(), pair.extension.roots()?))
    });
    assert_eq!(res, Ok(((3, 1, 3), roots)));
    assert_eq!(trees.roots(), roots);
    assert_eq!(trees.output_i_handle().pmmr().nodes(), &nodes_i);
    // what was unspent before is unspent again, and nothing else is
    trees.commit_batch(batch);
    let again: Vec<_> = (1..=6).map(|n| trees.is_unspent(&commit(n)).ok()).collect();
    assert_eq!(again[0], unspent[0]);
    assert_eq!(again[1], unspent[1]);
    assert!(again[3].is_none() && again[4].is_none() && again[5].is_none());
    // the spent leaf of the second output MMR is named by no bitmap: it
    // stays spent, though its hash stays too
    assert_ne!(trees.output_ii_handle().pmmr().nodes(), &nodes_ii);
    assert!(again[2].is_none() && unspent[2].is_some());
}

#[test]
fn kernel_mmr_counts_kernels_applied_less_rewound() {
    let (mut handle, mut trees, first) = one_block();
    assert_eq!(n_leaves(trees.kernel_handle().last_pos()), 2);
    let mut batch = trees.batch();
    for (b, spent) in later_blocks() {
        batch.save_block_header(&b.header);
        batch.save_block_input_bitmap(&b.header.hash, &Bitmap::of(&spent));
    }
    extending_readonly(&mut handle, &mut trees, |pair| {
        let blocks = later_blocks();
        pair.extension.apply_block(&blocks[0].0)?;
        assert_eq!(n_leaves(pair.extension.sizes().2), 3);
        pair.extension.apply_block(&blocks[1].0)?;
        assert_eq!(n_leaves(pair.extension.sizes().2), 5);
        // every kernel leaf lives
        assert_eq!(pair.extension.kernel_pmmr().leaf_positions(), vec![1, 2, 4, 5, 8]);
        assert_eq!(pair.extension.kernels_committed().len(), 5);
        Ok(())
    })
    .unwrap();
    extending(&mut handle, &mut trees, &mut batch, |pair| {
        for (b, _) in later_blocks() {
            pair.extension.apply_block(&b)?;
        }
        pair.extension.rewind(&later_blocks()[0].0.header)?;
        assert_eq!(n_leaves(pair.extension.sizes().2), 3);
        pair.extension.rewind(&first)?;
        assert_eq!(n_leaves(pair.extension.sizes().2), 2);
        Ok(())
    })
    .unwrap();
    assert_eq!(n_leaves(trees.kernel_handle().last_pos()), 2);
}

#[test]
fn what_is_found_unspent_is_in_the_mmr() {
    let (_, trees, _) = one_block();
    for n in 1..=3u8 {
        let found = trees.is_unspent(&commit(n)).unwrap();
        let (hash, bytes, id) = if found.features.is_siglocked() {
            let pmmr = trees.output_ii_handle().pmmr();
            let leaf = pmmr.get_data(found.position).unwrap();
            (pmmr.get_hash(found.position).unwrap(), leaf.to_bytes(), leaf.id)
        } else {
            let pmmr = trees.output_i_handle().pmmr();
            let leaf = pmmr.get_data(found.position).unwrap();
            (pmmr.get_hash(found.position).unwrap(), leaf.to_bytes(), leaf.id)
        };
        assert_eq!(id.commit, commit(n));
        assert_eq!(id.features, found.features);
        assert_eq!(hash, found.output_mmr_hash);
        assert_eq!(hash, txhashset::hash::Hash::with_index(found.position - 1, &bytes));
    }
}

#[test]
fn validated_roots_and_sizes_are_those_of_the_header() {
    let (mut handle, mut trees, _) = one_block();
    let (b, _) = later_blocks().remove(0);
    let (roots, sizes) = extending_readonly(&mut handle, &mut trees, |pair| {
        pair.extension.apply_block(&b)?;
        Ok((pair.extension.roots()?, pair.extension.sizes()))
    })
    .unwrap();
    let mut h = b.header;
    h.output_i_root = roots.output_i_root;
    h.output_ii_root = roots.output_ii_root;
    h.kernel_root = roots.kernel_root;
    let b = Block { header: h, ..b };
    let mut batch = trees.batch();
    batch.save_block_header(&h);
    extending(&mut handle, &mut trees, &mut batch, |pair| {
        pair.extension.apply_block(&b)?;
        pair.extension.validate_roots()?;
        pair.extension.validate_sizes()
    })
    .unwrap();
    assert_eq!(trees.roots().output_i_root, h.output_i_root);
    assert_eq!(trees.roots().output_ii_root, h.output_ii_root);
    assert_eq!(trees.roots().kernel_root, h.kernel_root);
    assert_eq!(sizes, (h.output_i_mmr_size, h.output_ii_mmr_size, h.kernel_mmr_size));
    assert_eq!(trees.output_i_handle().last_pos(), h.output_i_mmr_size);
    assert_eq!(trees.output_ii_handle().last_pos(), h.output_ii_mmr_size);
    assert_eq!(trees.kernel_handle().last_pos(), h.kernel_mmr_size);
}
