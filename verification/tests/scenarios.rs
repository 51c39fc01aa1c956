use croaring::Bitmap;
use txhashset::backend::{PMMRBackend, PMMR};
use txhashset::error::{Error, ErrorKind};
use txhashset::handle::PMMRHandle;
use txhashset::scope::{extending, extending_readonly};
use txhashset::store::ChainStore;
use txhashset::txhashset::TxHashSet;
use txhashset::types::{
    Block, BlockHeader, Commitment, Input, Output, OutputFeatures, OutputI, OutputII, Tip,
    TxHashSetRoots, TxKernel,
};

type HeaderHandle = PMMRHandle<BlockHeader, false>;

fn hash(n: u8) -> txhashset::hash::Hash {
    txhashset::hash::Hash { bytes: [n; 32] }
}

fn commit(n: u8) -> Commitment {
    Commitment { bytes: [n; 33] }
}

fn output(features: OutputFeatures, n: u8) -> Output {
    Output { features, commit: commit(n), value: n as u64 }
}

fn input(features: OutputFeatures, n: u8) -> Input {
    Input { features, commit: commit(n) }
}

fn kernel(n: u8) -> TxKernel {
    TxKernel { fee: 1, lock_height: 0, excess: commit(n), excess_sig: [n; 64] }
}

fn header(height: u64, n: u8, prev: u8, sizes: (u64, u64, u64)) -> BlockHeader {
    BlockHeader {
        height,
        hash: hash(n),
        prev_hash: hash(prev),
        prev_root: hash(0),
        output_i_root: hash(0),
        output_ii_root: hash(0),
        kernel_root: hash(0),
        output_i_mmr_size: sizes.0,
        output_ii_mmr_size: sizes.1,
        kernel_mmr_size: sizes.2,
        total_overage: 0,
    }
}

fn genesis() -> BlockHeader {
    header(0, 100, 0, (0, 0, 0))
}

/// An empty chain state whose store has the genesis header as both heads.
fn open_at_genesis() -> (HeaderHandle, TxHashSet) {
    let mut store = ChainStore::new();
    let mut batch = store.batch();
    batch.save_block_header(&genesis());
    batch.save_body_head(&Tip::from_header(&genesis()));
    batch.save_header_head(&Tip::from_header(&genesis()));
    store.commit(batch);
    let trees = TxHashSet::open(PMMRBackend::new(), PMMRBackend::new(), PMMRBackend::new(), store, None)
        .unwrap();
    (PMMRHandle::new(PMMRBackend::new()), trees)
}

/// Applies the block in a unit of work of its own and, where that passes,
/// makes it the head in the store; `spent` are the positions that its
/// inputs spend.
fn apply(handle: &mut HeaderHandle, trees: &mut TxHashSet, b: &Block, spent: &[u32]) -> Result<(), Error> {
    let mut batch = trees.batch();
    batch.save_block_header(&b.header);
    batch.save_block_input_bitmap(&b.header.hash, &Bitmap::of(spent));
    let res = extending(handle, trees, &mut batch, |pair| pair.extension.apply_block(b));
    if res.is_ok() {
        batch.save_body_head(&Tip::from_header(&b.header));
        batch.save_header_head(&Tip::from_header(&b.header));
        trees.commit_batch(batch);
    }
    res
}

fn sizes(trees: &TxHashSet) -> (u64, u64, u64) {
    (
        trees.output_i_handle().last_pos(),
        trees.output_ii_handle().last_pos(),
        trees.kernel_handle().last_pos(),
    )
}

fn block_one() -> Block {
    Block {
        header: header(1, 1, 100, (1, 0, 1)),
        inputs: vec![],
        outputs: vec![output(OutputFeatures::Plain, 1)],
        kernels: vec![kernel(1)],
    }
}

fn block_two() -> Block {
    Block {
        header: header(2, 2, 1, (1, 1, 3)),
        inputs: vec![input(OutputFeatures::Plain, 1)],
        outputs: vec![output(OutputFeatures::SigLocked, 2)],
        kernels: vec![kernel(2)],
    }
}

#[test]
fn genesis_open() {
    let (_, trees) = open_at_genesis();
    assert_eq!(sizes(&trees), (0, 0, 0));
    let zero = txhashset::hash::Hash::zero();
    assert_eq!(
        trees.roots(),
        TxHashSetRoots { output_i_root: zero, output_ii_root: zero, kernel_root: zero }
    );
    assert_eq!(trees.roots().output_i_root, PMMR::<OutputI, true>::new().root());
    assert_eq!(trees.is_unspent(&commit(1)), Err(Error::OutputNotFound));
    assert_eq!(trees.is_unspent(&commit(200)), Err(Error::OutputNotFound));
    assert_eq!(trees.highest_output_i_insertion_index(), 0);
    assert_eq!(trees.highest_output_ii_insertion_index(), 0);
}

#[test]
fn single_plain_output() {
    let (mut handle, mut trees) = open_at_genesis();
    let b = Block {
        header: header(0, 100, 0, (1, 0, 0)),
        inputs: vec![],
        outputs: vec![output(OutputFeatures::Plain, 1)],
        kernels: vec![],
    };
    assert_eq!(apply(&mut handle, &mut trees, &b, &[]), Ok(()));
    assert_eq!(sizes(&trees), (1, 0, 0));
    let found = trees.is_unspent(&commit(1)).unwrap();
    assert_eq!(found.features, OutputFeatures::Plain);
    assert_eq!(found.position, 1);
    // applied live, the output has the height of its block
    assert_eq!(found.height, 0);
    assert_eq!(Some(found.output_mmr_hash), trees.output_i_handle().pmmr().get_hash(1));
    assert_eq!(trees.highest_output_i_insertion_index(), 1);
}

#[test]
fn spend_and_rewind() {
    let (mut handle, mut trees) = open_at_genesis();
    assert_eq!(apply(&mut handle, &mut trees, &block_one(), &[]), Ok(()));
    assert_eq!(trees.is_unspent(&commit(1)).unwrap().height, 1);
    assert_eq!(apply(&mut handle, &mut trees, &block_two(), &[1]), Ok(()));
    assert_eq!(sizes(&trees), (1, 1, 3));
    assert_eq!(trees.is_unspent(&commit(1)), Err(Error::AlreadySpent(commit(1))));
    let second = trees.is_unspent(&commit(2)).unwrap();
    assert_eq!((second.features, second.position, second.height), (OutputFeatures::SigLocked, 1, 2));
    // rewind to the first block and keep it
    let mut batch = trees.batch();
    let target = block_one().header;
    let res = extending(&mut handle, &mut trees, &mut batch, |pair| pair.extension.rewind(&target));
    assert_eq!(res, Ok(()));
    batch.save_body_head(&Tip::from_header(&target));
    trees.commit_batch(batch);
    assert_eq!(sizes(&trees), (1, 0, 1));
    let first = trees.is_unspent(&commit(1)).unwrap();
    assert_eq!((first.features, first.position, first.height), (OutputFeatures::Plain, 1, 1));
    assert!(trees.is_unspent(&commit(2)).is_err());
}

#[test]
fn duplicate_commit() {
    let (mut handle, mut trees) = open_at_genesis();
    assert_eq!(apply(&mut handle, &mut trees, &block_one(), &[]), Ok(()));
    let roots = trees.roots();
    let again = Block {
        header: header(2, 2, 1, (3, 0, 1)),
        inputs: vec![],
        outputs: vec![output(OutputFeatures::Plain, 1)],
        kernels: vec![],
    };
    // the failure is swallowed and the unit of work is kept
    let mut batch = trees.batch();
    let res = extending(&mut handle, &mut trees, &mut batch, |pair| {
        assert_eq!(
            pair.extension.apply_block(&again),
            Err(Error::DuplicateCommitment(commit(1)))
        );
        Ok(())
    });
    assert_eq!(res, Ok(()));
    trees.commit_batch(batch);
    assert_eq!(sizes(&trees), (1, 0, 1));
    assert_eq!(trees.roots(), roots);
    assert_eq!(trees.is_unspent(&commit(1)).unwrap().height, 1);
}

#[test]
fn duplicate_commit_is_allowed_once_spent() {
    let (mut handle, mut trees) = open_at_genesis();
    assert_eq!(apply(&mut handle, &mut trees, &block_one(), &[]), Ok(()));
    let respend = Block {
        header: header(2, 2, 1, (3, 0, 1)),
        inputs: vec![input(OutputFeatures::Plain, 1)],
        outputs: vec![],
        kernels: vec![],
    };
    assert_eq!(apply(&mut handle, &mut trees, &respend, &[1]), Ok(()));
    let again = Block {
        header: header(3, 3, 2, (3, 0, 1)),
        inputs: vec![],
        outputs: vec![output(OutputFeatures::Plain, 1)],
        kernels: vec![],
    };
    assert_eq!(apply(&mut handle, &mut trees, &again, &[]), Ok(()));
    let found = trees.is_unspent(&commit(1)).unwrap();
    assert_eq!((found.position, found.height), (2, 3));
}

#[test]
fn root_mismatch() {
    let (mut handle, mut trees) = open_at_genesis();
    // what the roots would be with the block applied
    let good = extending_readonly(&mut handle, &mut trees, |pair| {
        pair.extension.apply_block(&block_one())?;
        pair.extension.roots()
    })
    .unwrap();
    let mut b = block_one();
    b.header.output_i_root = good.output_i_root;
    b.header.output_ii_root = good.output_ii_root;
    b.header.kernel_root = good.kernel_root;
    let validated = |b: &Block, handle: &mut HeaderHandle, trees: &mut TxHashSet| {
        let mut batch = trees.batch();
        batch.save_block_header(&b.header);
        extending(handle, trees, &mut batch, |pair| {
            pair.extension.apply_block(b)?;
            pair.extension.validate_roots()?;
            pair.extension.validate_sizes()
        })
    };
    let mut wrong = b.clone();
    wrong.header.output_i_root = hash(9);
    assert_eq!(validated(&wrong, &mut handle, &mut trees), Err(Error::InvalidRoot));
    // the state rolls back
    assert_eq!(sizes(&trees), (0, 0, 0));
    assert_eq!(trees.roots().output_i_root, txhashset::hash::Hash::zero());
    assert_eq!(trees.is_unspent(&commit(1)), Err(Error::OutputNotFound));
    let mut wrong = b.clone();
    wrong.header.kernel_mmr_size = 2;
    assert_eq!(validated(&wrong, &mut handle, &mut trees), Err(Error::InvalidMMRSize));
    assert_eq!(sizes(&trees), (0, 0, 0));
    // with the right roots and sizes the block is kept
    assert_eq!(validated(&b, &mut handle, &mut trees), Ok(()));
    assert_eq!(sizes(&trees), (1, 0, 1));
    assert_eq!(trees.roots(), good);
}

#[test]
fn fast_sync_round_trip() {
    // the sender has three blocks, and takes a snapshot as of the second
    let (mut handle, mut sender) = open_at_genesis();
    assert_eq!(apply(&mut handle, &mut sender, &block_one(), &[]), Ok(()));
    let mut b2 = block_two();
    b2.outputs.push(output(OutputFeatures::Coinbase, 3));
    b2.header.output_i_mmr_size = 3;
    assert_eq!(apply(&mut handle, &mut sender, &b2, &[1]), Ok(()));
    let at_second = (sender.roots(), sizes(&sender));
    let b3 = Block {
        header: header(3, 3, 2, (4, 1, 4)),
        inputs: vec![input(OutputFeatures::Coinbase, 3)],
        outputs: vec![output(OutputFeatures::Plain, 4)],
        kernels: vec![kernel(3)],
    };
    assert_eq!(apply(&mut handle, &mut sender, &b3, &[2]), Ok(()));
    let mut header_batch = sender.batch();
    let tip = Tip::from_header(&genesis());
    txhashset::scope::header_extending(&mut handle, &tip, &mut header_batch, |ext| {
        ext.apply_header(&genesis())?;
        ext.apply_header(&block_one().header)?;
        ext.apply_header(&b2.header)
    })
    .unwrap();
    let taken = extending_readonly(&mut handle, &mut sender, |pair| {
        pair.extension.rewind(&b2.header)?;
        pair.extension.snapshot()
    });
    assert_eq!(taken, Ok(()));
    let snapshots_i = sender.output_i_handle().backend().snapshots();
    assert_eq!(snapshots_i.len(), 1);
    assert_eq!(snapshots_i[0].header_hash, b2.header.hash);
    assert_eq!(snapshots_i[0].positions, vec![2]);
    assert_eq!(sender.output_ii_handle().backend().snapshots()[0].positions, vec![1]);

    // the receiver has the headers, and gets the nodes and the snapshots
    let mut store = ChainStore::new();
    let mut batch = store.batch();
    for h in [genesis(), block_one().header, b2.header] {
        batch.save_block_header(&h);
    }
    batch.save_body_head(&Tip::from_header(&b2.header));
    batch.save_header_head(&Tip::from_header(&b2.header));
    store.commit(batch);
    let received = |sender: &TxHashSet, store: ChainStore, header: Option<&BlockHeader>| {
        let output_i: PMMR<OutputI, true> =
            PMMR::from_nodes(sender.output_i_handle().pmmr().nodes().clone()).unwrap();
        let output_ii: PMMR<OutputII, true> =
            PMMR::from_nodes(sender.output_ii_handle().pmmr().nodes().clone()).unwrap();
        let kernels: PMMR<TxKernel, false> =
            PMMR::from_nodes(sender.kernel_handle().pmmr().nodes().clone()).unwrap();
        let copy = |snapshots: &Vec<txhashset::backend::LeafSnapshot>| {
            snapshots
                .iter()
                .map(|s| txhashset::backend::LeafSnapshot {
                    header_hash: s.header_hash,
                    positions: s.positions.clone(),
                })
                .collect::<Vec<_>>()
        };
        TxHashSet::open(
            PMMRBackend::from_parts(output_i, copy(sender.output_i_handle().backend().snapshots())),
            PMMRBackend::from_parts(output_ii, copy(sender.output_ii_handle().backend().snapshots())),
            PMMRBackend::from_parts(kernels, vec![]),
            store,
            header,
        )
    };
    // no snapshot was taken for the first block
    let err = received(&sender, ChainStore::new(), Some(&block_one().header)).err().unwrap();
    assert_eq!(err.kind(), ErrorKind::Io);
    let mut receiver = received(&sender, store, Some(&b2.header)).unwrap();
    // the leaves are those of the second block, the nodes still those of the third
    assert!(receiver.output_i_by_position(2).is_some());
    assert_eq!(receiver.output_i_by_position(4), None);
    let mut batch = receiver.batch();
    let rewound = extending(&mut handle, &mut receiver, &mut batch, |pair| {
        pair.extension.rewind_to_pos(
            b2.header.output_i_mmr_size,
            b2.header.output_ii_mmr_size,
            b2.header.kernel_mmr_size,
            &Bitmap::new(),
        )
    });
    assert_eq!(rewound, Ok(()));
    assert_eq!(receiver.rebuild_height_pos_index(&handle, &mut batch), Ok(()));
    receiver.commit_batch(batch);

    assert_eq!((receiver.roots(), sizes(&receiver)), at_second);
    assert_eq!(
        sizes(&receiver),
        (b2.header.output_i_mmr_size, b2.header.output_ii_mmr_size, b2.header.kernel_mmr_size)
    );
    let third = receiver.is_unspent(&commit(3)).unwrap();
    assert_eq!((third.position, third.height, third.features), (2, 2, OutputFeatures::Coinbase));
    assert_eq!(receiver.is_unspent(&commit(2)).unwrap().height, 2);
    // what was spent is not in the rebuilt index at all
    assert_eq!(receiver.is_unspent(&commit(1)).unwrap_err().kind(), ErrorKind::OutputNotFound);
    assert_eq!(receiver.is_unspent(&commit(4)).unwrap_err().kind(), ErrorKind::OutputNotFound);
}
