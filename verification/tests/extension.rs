use croaring::Bitmap;
use std::cell::RefCell;
use txhashset::backend::{Node, PMMRBackend, PMMR};
use txhashset::error::{Error, ErrorKind, StoreError};
use txhashset::extension::{KernelCrypto, TxHashsetWriteStatus, KERNEL_BATCH_SIZE};
use txhashset::handle::PMMRHandle;
use txhashset::scope::{extending, extending_readonly, ExtensionPair};
use txhashset::store::ChainStore;
use txhashset::txhashset::TxHashSet;
use txhashset::types::{
    Block, BlockHeader, Commitment, Input, Output, OutputFeaturePosHeight, OutputFeatures,
    OutputI, OutputIdentifier, Tip, TxKernel,
};

type HeaderHandle = PMMRHandle<BlockHeader, false>;

fn hash(n: u8) -> txhashset::hash::Hash {
    txhashset::hash::Hash { bytes: [n; 32] }
}

fn commit(n: u8) -> Commitment {
    Commitment { bytes: [n; 33] }
}

fn output(features: OutputFeatures, n: u8) -> Output {
    Output { features, commit: commit(n), value: n as u64 }
}

fn input(n: u8) -> Input {
    Input { features: OutputFeatures::Plain, commit: commit(n) }
}

fn kernel(n: u8) -> TxKernel {
    TxKernel { fee: 1, lock_height: 0, excess: commit(n), excess_sig: [n; 64] }
}

fn header(height: u64, n: u8, prev: u8, sizes: (u64, u64, u64)) -> BlockHeader {
    BlockHeader {
        height,
        hash: hash(n),
        prev_hash: hash(prev),
        prev_root: hash(0),
        output_i_root: hash(0),
        output_ii_root: hash(0),
        kernel_root: hash(0),
        output_i_mmr_size: sizes.0,
        output_ii_mmr_size: sizes.1,
        kernel_mmr_size: sizes.2,
        total_overage: 0,
    }
}

fn genesis() -> BlockHeader {
    header(0, 100, 0, (0, 0, 0))
}

fn open_at_genesis() -> (HeaderHandle, TxHashSet) {
    let mut store = ChainStore::new();
    let mut batch = store.batch();
    batch.save_block_header(&genesis());
    batch.save_body_head(&Tip::from_header(&genesis()));
    batch.save_header_head(&Tip::from_header(&genesis()));
    store.commit(batch);
    let trees = TxHashSet::open(PMMRBackend::new(), PMMRBackend::new(), PMMRBackend::new(), store, None)
        .unwrap();
    (PMMRHandle::new(PMMRBackend::new()), trees)
}

/// Runs the closure in a unit of work that is dropped afterwards.
fn in_extension<T>(work: impl FnOnce(&mut ExtensionPair) -> Result<T, Error>) -> Result<T, Error> {
    let (mut handle, mut trees) = open_at_genesis();
    extending_readonly(&mut handle, &mut trees, work)
}

fn block(height: u64, n: u8, inputs: Vec<Input>, outputs: Vec<Output>, kernels: Vec<TxKernel>) -> Block {
    Block { header: header(height, n, n.wrapping_sub(1), (0, 0, 0)), inputs, outputs, kernels }
}

struct Quiet;

impl TxHashsetWriteStatus for Quiet {
    fn on_validation(&self, _: u64, _: u64, _: u64, _: u64) {}
}

struct Recorder {
    calls: RefCell<Vec<(u64, u64, u64, u64)>>,
}

impl TxHashsetWriteStatus for Recorder {
    fn on_validation(&self, kernels: u64, kernel_total: u64, rproofs: u64, rproof_total: u64) {
        self.calls.borrow_mut().push((kernels, kernel_total, rproofs, rproof_total));
    }
}

/// Stands in for the signature scheme: notes what it is handed, and fails
/// the batch with the given number.
struct Crypto {
    fail_batch: Option<usize>,
    fail_sums: bool,
    batches: RefCell<Vec<Vec<TxKernel>>>,
    summed: RefCell<Vec<(Vec<Commitment>, Vec<Commitment>, Vec<Commitment>)>>,
}

impl Crypto {
    fn new() -> Crypto {
        Crypto {
            fail_batch: None,
            fail_sums: false,
            batches: RefCell::new(vec![]),
            summed: RefCell::new(vec![]),
        }
    }
}

impl KernelCrypto for Crypto {
    fn batch_sig_verify(&self, kernels: &Vec<TxKernel>) -> Result<(), Error> {
        self.batches.borrow_mut().push(kernels.clone());
        if self.fail_batch == Some(self.batches.borrow().len()) {
            Err(Error::Other("bad signature".to_string()))
        } else {
            Ok(())
        }
    }

    fn verify_kernel_sums(
        &self,
        inputs: &Vec<Commitment>,
        outputs: &Vec<Commitment>,
        kernels: &Vec<Commitment>,
    ) -> Result<(Commitment, Commitment), Error> {
        self.summed.borrow_mut().push((inputs.clone(), outputs.clone(), kernels.clone()));
        if self.fail_sums {
            Err(Error::Other("sums differ".to_string()))
        } else {
            Ok((commit(41), commit(42)))
        }
    }

    fn commit_to_zero_value(&self) -> Commitment {
        commit(0)
    }
}

#[test]
fn new_extension_starts_at_the_head_of_the_store() {
    let res = in_extension(|pair| {
        assert_eq!(pair.extension.head(), Tip::from_header(&genesis()));
        assert_eq!(pair.header_extension.head(), Tip::from_header(&genesis()));
        assert_eq!(pair.extension.sizes(), (0, 0, 0));
        assert_eq!(pair.batch().head(), Ok(Tip::from_header(&genesis())));
        assert!(pair.extension.inputs_committed().is_empty());
        Ok(7)
    });
    assert_eq!(res, Ok(7));
}

#[test]
fn apply_output_pushes_to_the_mmr_of_its_kind() {
    in_extension(|pair| {
        let ext = &mut pair.extension;
        assert_eq!(ext.apply_output(&output(OutputFeatures::Plain, 1)), Ok(1));
        assert_eq!(ext.apply_output(&output(OutputFeatures::Coinbase, 2)), Ok(2));
        assert_eq!(ext.apply_output(&output(OutputFeatures::SigLocked, 3)), Ok(1));
        assert_eq!(ext.apply_output(&output(OutputFeatures::Plain, 4)), Ok(4));
        assert_eq!(ext.sizes(), (4, 1, 0));
        assert_eq!(ext.output_i_pmmr().get_data(2).unwrap().id.commit, commit(2));
        assert_eq!(ext.output_ii_pmmr().get_data(1).unwrap().id.features, OutputFeatures::SigLocked);
        // apply_output leaves the index alone, so nothing is a duplicate yet
        assert_eq!(ext.apply_output(&output(OutputFeatures::Plain, 1)), Ok(5));
        Ok(())
    })
    .unwrap();
}

#[test]
fn apply_block_enters_outputs_and_kernels_into_the_index() {
    in_extension(|pair| {
        let b = block(
            3,
            3,
            vec![],
            vec![output(OutputFeatures::Plain, 1), output(OutputFeatures::SigLocked, 2)],
            vec![kernel(5), kernel(6)],
        );
        assert_eq!(pair.extension.apply_block(&b), Ok(()));
        assert_eq!(pair.extension.head(), Tip::from_header(&b.header));
        assert_eq!(pair.extension.sizes(), (1, 1, 3));
        assert_eq!(
            pair.batch().get_output_pos_height(&commit(1)),
            Ok(OutputFeaturePosHeight { features: OutputFeatures::Plain, position: 1, height: 3 })
        );
        assert_eq!(
            pair.batch().get_output_pos_height(&commit(2)),
            Ok(OutputFeaturePosHeight { features: OutputFeatures::SigLocked, position: 1, height: 3 })
        );
        assert_eq!(pair.extension.kernels_committed(), vec![commit(5), commit(6)]);
        assert_eq!(pair.extension.outputs_committed(), vec![commit(1), commit(2)]);
        Ok(())
    })
    .unwrap();
}

#[test]
fn apply_block_spends_after_it_creates() {
    in_extension(|pair| {
        // the input spends an output of the same block
        let b = block(1, 1, vec![input(1)], vec![output(OutputFeatures::Plain, 1)], vec![]);
        assert_eq!(pair.extension.apply_block(&b), Ok(()));
        assert_eq!(pair.extension.output_i_pmmr().get_data(1), None);
        assert!(pair.extension.outputs_committed().is_empty());
        // the index keeps its entry
        assert!(pair.batch().get_output_pos_height(&commit(1)).is_ok());
        Ok(())
    })
    .unwrap();
}

#[test]
fn apply_block_stops_at_the_first_failure() {
    in_extension(|pair| {
        let b = block(
            1,
            1,
            vec![input(9)],
            vec![output(OutputFeatures::Plain, 1), output(OutputFeatures::Plain, 2)],
            vec![kernel(5)],
        );
        assert_eq!(pair.extension.apply_block(&b), Err(Error::AlreadySpent(commit(9))));
        // the outputs are in, the kernels are not, and the head has not moved
        assert_eq!(pair.extension.sizes(), (3, 0, 0));
        assert_eq!(pair.extension.head(), Tip::from_header(&genesis()));
        // the second of two equal outputs is refused, the first stays
        let twice = block(
            2,
            2,
            vec![],
            vec![output(OutputFeatures::Plain, 7), output(OutputFeatures::Plain, 7)],
            vec![],
        );
        assert_eq!(pair.extension.apply_block(&twice), Err(Error::DuplicateCommitment(commit(7))));
        assert_eq!(pair.extension.sizes(), (4, 0, 0));
        Ok(())
    })
    .unwrap();
}

#[test]
fn apply_input_needs_an_index_entry_and_a_matching_leaf() {
    in_extension(|pair| {
        assert_eq!(pair.extension.apply_input(&input(1)), Err(Error::AlreadySpent(commit(1))));
        let b = block(1, 1, vec![], vec![output(OutputFeatures::Plain, 1)], vec![]);
        pair.extension.apply_block(&b)?;
        assert_eq!(pair.extension.apply_input(&input(1)), Ok(()));
        // spent once, the leaf is gone
        let err = pair.extension.apply_input(&input(1)).unwrap_err();
        assert_eq!(err.kind(), ErrorKind::TxHashSetErr);
        assert!(matches!(err, Error::TxHashSetErr(_)));
        Ok(())
    })
    .unwrap();
}

#[test]
fn apply_input_refuses_a_leaf_with_another_commitment() {
    let (mut handle, mut trees) = open_at_genesis();
    let mut batch = trees.batch();
    // the index names position 1 for a commitment that is not there
    batch.save_output_pos_height(
        &commit(8),
        OutputFeaturePosHeight { features: OutputFeatures::Plain, position: 1, height: 1 },
    );
    let res = extending(&mut handle, &mut trees, &mut batch, |pair| {
        pair.extension.apply_output(&output(OutputFeatures::Plain, 1))?;
        let spend = Input { features: OutputFeatures::Plain, commit: commit(8) };
        pair.extension.apply_input(&spend)
    });
    assert_eq!(res.unwrap_err().kind(), ErrorKind::TxHashSetErr);
}

#[test]
fn rewind_to_pos_rewinds_all_three() {
    in_extension(|pair| {
        let b = block(
            1,
            1,
            vec![input(1)],
            vec![
                output(OutputFeatures::Plain, 1),
                output(OutputFeatures::Plain, 2),
                output(OutputFeatures::SigLocked, 3),
            ],
            vec![kernel(5), kernel(6)],
        );
        pair.extension.apply_block(&b)?;
        assert_eq!(pair.extension.sizes(), (3, 1, 3));
        assert_eq!(pair.extension.rewind_to_pos(1, 0, 1, &Bitmap::of(&[1])), Ok(()));
        assert_eq!(pair.extension.sizes(), (1, 0, 1));
        assert_eq!(pair.extension.outputs_committed(), vec![commit(1)]);
        assert_eq!(pair.extension.kernels_committed(), vec![commit(5)]);
        // an MMR that does not reach the position fails, after those before it
        let err = pair.extension.rewind_to_pos(0, 1, 0, &Bitmap::new()).unwrap_err();
        assert_eq!(err.kind(), ErrorKind::TxHashSetErr);
        assert_eq!(pair.extension.sizes(), (0, 0, 1));
        Ok(())
    })
    .unwrap();
}

#[test]
fn rewind_needs_the_header_of_the_head() {
    in_extension(|pair| {
        let b = block(1, 1, vec![], vec![output(OutputFeatures::Plain, 1)], vec![]);
        pair.extension.apply_block(&b)?;
        // the header of the block was never saved
        let err = pair.extension.rewind(&genesis()).unwrap_err();
        assert_eq!(err.kind(), ErrorKind::StoreErr);
        assert_eq!(pair.extension.sizes(), (1, 0, 0));
        Ok(())
    })
    .unwrap();
}

#[test]
fn validation_at_genesis_compares_nothing() {
    in_extension(|pair| {
        pair.extension.apply_output(&output(OutputFeatures::Plain, 1))?;
        assert_eq!(pair.extension.validate_roots(), Ok(()));
        assert_eq!(pair.extension.validate_sizes(), Ok(()));
        assert_eq!(pair.extension.validate_mmrs(), Ok(()));
        assert_eq!(pair.extension.validate_state(), Ok(()));
        let crypto = Crypto::new();
        assert_eq!(
            pair.extension.validate(&genesis(), false, &Quiet, &crypto),
            Ok((commit(0), commit(0)))
        );
        // neither sums nor signatures are asked for
        assert!(crypto.summed.borrow().is_empty());
        assert!(crypto.batches.borrow().is_empty());
        Ok(())
    })
    .unwrap();
}

#[test]
fn validation_needs_the_header_of_the_head() {
    in_extension(|pair| {
        let b = block(1, 1, vec![], vec![output(OutputFeatures::Plain, 1)], vec![]);
        pair.extension.apply_block(&b)?;
        assert_eq!(pair.extension.validate_roots().unwrap_err().kind(), ErrorKind::StoreErr);
        assert_eq!(pair.extension.validate_sizes().unwrap_err().kind(), ErrorKind::StoreErr);
        assert_eq!(pair.extension.validate_state().unwrap_err().kind(), ErrorKind::StoreErr);
        let err = pair.extension.validate_kernel_sums(&genesis(), &Crypto::new()).unwrap_err();
        assert!(matches!(err, Error::StoreErr(StoreError::NotFoundErr(_), _)));
        assert_eq!(pair.extension.snapshot().unwrap_err().kind(), ErrorKind::StoreErr);
        Ok(())
    })
    .unwrap();
}

#[test]
fn validate_mmrs_reports_a_corrupt_mmr() {
    let mut good: PMMR<OutputI, true> = PMMR::new();
    for n in 1..=2u8 {
        let id = OutputIdentifier { features: OutputFeatures::Plain, commit: commit(n) };
        good.push(&OutputI { id, value: 1 }).unwrap();
    }
    let mut nodes: Vec<Node<OutputI>> = good.nodes().clone();
    nodes[2].hash = hash(66);
    let corrupt = PMMR::from_nodes(nodes).unwrap();
    let mut store = ChainStore::new();
    let mut batch = store.batch();
    batch.save_body_head(&Tip::from_header(&genesis()));
    batch.save_header_head(&Tip::from_header(&genesis()));
    store.commit(batch);
    let mut trees = TxHashSet::open(
        PMMRBackend::from_parts(corrupt, vec![]),
        PMMRBackend::new(),
        PMMRBackend::new(),
        store,
        None,
    )
    .unwrap();
    let mut handle: HeaderHandle = PMMRHandle::new(PMMRBackend::new());
    let res = extending_readonly(&mut handle, &mut trees, |pair| {
        let err = pair.extension.validate_mmrs().unwrap_err();
        assert!(matches!(err, Error::InvalidTxHashSet(_)));
        assert_eq!(pair.extension.validate_state().unwrap_err().kind(), ErrorKind::InvalidTxHashSet);
        pair.extension.validate(&genesis(), true, &Quiet, &Crypto::new())
    });
    assert_eq!(res.unwrap_err().kind(), ErrorKind::InvalidTxHashSet);
}

/// An extension with a block of the given kernels applied and validated
/// against its header.
fn with_kernels<T>(
    count: usize,
    work: impl FnOnce(&mut ExtensionPair, &BlockHeader) -> Result<T, Error>,
) -> Result<T, Error> {
    let (mut handle, mut trees) = open_at_genesis();
    let kernels: Vec<TxKernel> = (0..count)
        .map(|n| TxKernel {
            fee: n as u64,
            lock_height: 0,
            excess: commit((n % 250) as u8),
            excess_sig: [(n / 250) as u8; 64],
        })
        .collect();
    let mut b = block(1, 1, vec![], vec![output(OutputFeatures::Plain, 1)], kernels);
    let (roots, sizes) = extending_readonly(&mut handle, &mut trees, |pair| {
        pair.extension.apply_block(&b)?;
        Ok((pair.extension.roots()?, pair.extension.sizes()))
    })?;
    b.header.output_i_root = roots.output_i_root;
    b.header.output_ii_root = roots.output_ii_root;
    b.header.kernel_root = roots.kernel_root;
    b.header.output_i_mmr_size = sizes.0;
    b.header.output_ii_mmr_size = sizes.1;
    b.header.kernel_mmr_size = sizes.2;
    let mut batch = trees.batch();
    batch.save_block_header(&b.header);
    extending(&mut handle, &mut trees, &mut batch, |pair| {
        pair.extension.apply_block(&b)?;
        work(pair, &b.header)
    })
}

#[test]
fn validate_sums_and_verifies_above_genesis() {
    with_kernels(3, |pair, _| {
        let crypto = Crypto::new();
        let status = Recorder { calls: RefCell::new(vec![]) };
        assert_eq!(
            pair.extension.validate(&genesis(), false, &status, &crypto),
            Ok((commit(41), commit(42)))
        );
        // the sums are over no inputs, the live outputs and all kernels
        assert_eq!(
            *crypto.summed.borrow(),
            vec![(vec![], vec![commit(1)], vec![commit(0), commit(1), commit(2)])]
        );
        assert_eq!(crypto.batches.borrow().len(), 1);
        assert_eq!(crypto.batches.borrow()[0].len(), 3);
        assert_eq!(*status.calls.borrow(), vec![(3, 3, 0, 0)]);
        // a fast validation leaves the signatures out
        let crypto = Crypto::new();
        assert!(pair.extension.validate(&genesis(), true, &Quiet, &crypto).is_ok());
        assert!(crypto.batches.borrow().is_empty());
        assert_eq!(crypto.summed.borrow().len(), 1);
        Ok(())
    })
    .unwrap();
}

#[test]
fn validate_passes_on_what_the_cryptography_says() {
    with_kernels(2, |pair, _| {
        let mut crypto = Crypto::new();
        crypto.fail_sums = true;
        assert_eq!(
            pair.extension.validate(&genesis(), false, &Quiet, &crypto),
            Err(Error::Other("sums differ".to_string()))
        );
        let mut crypto = Crypto::new();
        crypto.fail_batch = Some(1);
        assert_eq!(
            pair.extension.validate(&genesis(), false, &Quiet, &crypto),
            Err(Error::Other("bad signature".to_string()))
        );
        assert_eq!(
            pair.extension.validate_kernel_sums(&genesis(), &Crypto::new()),
            Ok((commit(41), commit(42)))
        );
        Ok(())
    })
    .unwrap();
}

#[test]
fn kernel_signatures_are_verified_in_batches() {
    let count = 2 * KERNEL_BATCH_SIZE + 3;
    with_kernels(count, |pair, _| {
        let crypto = Crypto::new();
        let status = Recorder { calls: RefCell::new(vec![]) };
        assert_eq!(pair.extension.verify_kernel_signatures(&crypto, &status), Ok(()));
        let lengths: Vec<usize> = crypto.batches.borrow().iter().map(|b| b.len()).collect();
        assert_eq!(lengths, vec![KERNEL_BATCH_SIZE, KERNEL_BATCH_SIZE, 3]);
        let total = count as u64;
        assert_eq!(
            *status.calls.borrow(),
            vec![(5000, total, 0, 0), (10000, total, 0, 0), (total, total, 0, 0)]
        );
        // every kernel is handed over once, in the order of the MMR
        let fees: Vec<u64> = crypto.batches.borrow().iter().flatten().map(|k| k.fee).collect();
        assert_eq!(fees, (0..total).collect::<Vec<u64>>());
        // the first failure ends the run
        let mut crypto = Crypto::new();
        crypto.fail_batch = Some(2);
        assert!(pair.extension.verify_kernel_signatures(&crypto, &Quiet).is_err());
        assert_eq!(crypto.batches.borrow().len(), 2);
        Ok(())
    })
    .unwrap();
}

#[test]
fn kernel_batch_scans_to_the_batch_size_or_the_end() {
    with_kernels(3, |pair, _| {
        // three kernels: leaves at 1, 2 and 4
        let (batch, last) = pair.extension.kernel_batch(1)?;
        assert_eq!((batch.len(), last), (3, 4));
        let (batch, last) = pair.extension.kernel_batch(3)?;
        assert_eq!((batch.len(), last), (1, 4));
        assert_eq!(batch[0].fee, 2);
        // outside the MMR there is nothing to look at
        assert_eq!(pair.extension.kernel_batch(0), Ok((vec![], 0)));
        assert_eq!(pair.extension.kernel_batch(5), Ok((vec![], 5)));
        Ok(())
    })
    .unwrap();
    in_extension(|pair| {
        assert_eq!(pair.extension.verify_kernel_signatures(&Crypto::new(), &Quiet), Ok(()));
        Ok(())
    })
    .unwrap();
}

#[test]
fn snapshot_records_the_live_leaves_for_the_head() {
    let (mut handle, mut trees) = open_at_genesis();
    let res = extending_readonly(&mut handle, &mut trees, |pair| {
        pair.extension.apply_output(&output(OutputFeatures::Plain, 1))?;
        pair.extension.apply_output(&output(OutputFeatures::Plain, 2))?;
        pair.extension.snapshot()
    });
    assert_eq!(res, Ok(()));
    // the unit of work is dropped, its snapshot stays
    assert_eq!(trees.output_i_handle().last_pos(), 0);
    let snapshots = trees.output_i_handle().backend().snapshots();
    assert_eq!(snapshots.len(), 1);
    assert_eq!(snapshots[0].header_hash, genesis().hash);
    assert_eq!(snapshots[0].positions, vec![1, 2]);
    assert_eq!(trees.output_ii_handle().backend().snapshots()[0].positions, Vec::<u64>::new());
}

#[test]
fn extension_merkle_proof_goes_by_the_index() {
    in_extension(|pair| {
        let b = block(
            1,
            1,
            vec![],
            vec![output(OutputFeatures::Plain, 1), output(OutputFeatures::Plain, 2)],
            vec![],
        );
        pair.extension.apply_block(&b)?;
        let id = OutputIdentifier { features: OutputFeatures::Plain, commit: commit(1) };
        let proof = pair.extension.merkle_proof(&id)?;
        assert_eq!(proof.mmr_size, 3);
        assert_eq!(proof.path, vec![pair.extension.output_i_pmmr().get_hash(2).unwrap()]);
        // no index entry
        let unknown = OutputIdentifier { features: OutputFeatures::Plain, commit: commit(9) };
        assert_eq!(pair.extension.merkle_proof(&unknown).unwrap_err().kind(), ErrorKind::StoreErr);
        // an entry without a live leaf
        pair.extension.apply_input(&input(1))?;
        assert_eq!(pair.extension.merkle_proof(&id).unwrap_err().kind(), ErrorKind::TxHashSetErr);
        Ok(())
    })
    .unwrap();
}

#[test]
fn utxo_view_of_an_extension_sees_its_outputs() {
    in_extension(|pair| {
        let b = block(1, 1, vec![], vec![output(OutputFeatures::Plain, 1)], vec![]);
        pair.extension.apply_block(&b)?;
        let view = pair.extension.utxo_view(&pair.header_extension);
        assert_eq!(view.validate_input(&input(1)), Ok(()));
        assert_eq!(view.validate_input(&input(2)), Err(Error::AlreadySpent(commit(2))));
        assert_eq!(view.batch().head(), Ok(Tip::from_header(&genesis())));
        assert_eq!(view.header_pmmr().unpruned_size(), 0);
        Ok(())
    })
    .unwrap();
}
