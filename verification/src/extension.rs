//! A unit of work on the three body MMRs: blocks are applied and undone in
//! it, and what it did is kept or dropped as a whole when it ends.

use crate::backend::{
    live_positions, parents_valid, rewind_size, snapshot_views, spec_get_data, spec_prune,
    spec_push, spec_rewind, wf_nodes, LeafSnapshot, MerkleProof, Node, PMMR,
};
use crate::bitmap::{bitmap_new, bitmap_values};
use crate::error::{Error, ErrorKind};
use crate::hash;
use crate::header_extension::HeaderExtension;
use crate::laws::lemma_every_kernel_listed;
use crate::pmmr::{is_leaf, n_leaves, spec_is_leaf};
use crate::rewind::{input_pos_to_rewind, spec_input_pos_to_rewind};
use crate::store::{Batch, StoreView};
use crate::txhashset::{check_leaf, LeafCheck, TxHashSet, TxHashSetView};
use crate::types::{
    Block, BlockHeader, Commitment, Input, Output, OutputFeaturePosHeight, OutputI, OutputII,
    OutputIdentifier, OutputRecord, Tip, TxHashSetRoots, TxKernel,
};
use crate::views::UTXOView;
use croaring::Bitmap;
use vstd::prelude::*;

verus! {

/// An extension, as values.
pub struct ExtensionView {
    /// The block up to which the extension has come.
    pub head: Tip,
    /// Whether the extension is to be dropped, whatever its result.
    pub rollback: bool,
    /// The three MMRs as the extension sees them, and its batch.
    pub set: TxHashSetView,
    /// The leaf snapshots that the extension took of the first output MMR.
    pub output_i_snapshots: Seq<(hash::Hash, Seq<u64>)>,
    /// The leaf snapshots that it took of the second.
    pub output_ii_snapshots: Seq<(hash::Hash, Seq<u64>)>,
}

/// Whether a leaf lives at `pos` and bears `commit`.
pub open spec fn leaf_bears<T: OutputRecord>(nodes: Seq<Node<T>>, pos: u64, commit: Commitment) -> bool {
    match spec_get_data(nodes, pos) {
        Some(record) => record.spec_id().commit == commit,
        None => false,
    }
}

/// The MMR record of an output.
pub open spec fn record_i(out: Output) -> OutputI {
    OutputI { id: OutputIdentifier { features: out.features, commit: out.commit }, value: out.value }
}

/// The MMR record of a signature-locked output.
pub open spec fn record_ii(out: Output) -> OutputII {
    OutputII {
        id: OutputIdentifier { features: out.features, commit: out.commit },
        value: out.value,
    }
}

/// One step of a block: what it makes of an extension, or why it fails.
pub type Step<X> = spec_fn(ExtensionView, X) -> Result<ExtensionView, ErrorKind>;

/// The steps for `items` taken one after the other, up to the first that
/// fails: the extension as the last step that passed left it, and the
/// failure, if there was one.
pub open spec fn fold_steps<X>(v: ExtensionView, items: Seq<X>, step: Step<X>) -> (
    ExtensionView,
    Option<ErrorKind>,
)
    decreases items.len(),
{
    if items.len() == 0 {
        (v, None)
    } else {
        let (before, failed) = fold_steps(v, items.drop_last(), step);
        match failed {
            Some(_) => (before, failed),
            None => match step(before, items.last()) {
                Ok(after) => (after, None),
                Err(e) => (before, Some(e)),
            },
        }
    }
}

/// Once a step has failed, the steps after it are not taken.
pub proof fn lemma_fold_stops<X>(v: ExtensionView, items: Seq<X>, step: Step<X>, at: int)
    requires
        0 <= at <= items.len(),
        fold_steps(v, items.subrange(0, at), step).1 is Some,
    ensures
        fold_steps(v, items, step) == fold_steps(v, items.subrange(0, at), step),
    decreases items.len() - at,
{
    if at < items.len() {
        assert(items.drop_last().subrange(0, at) =~= items.subrange(0, at));
        lemma_fold_stops(v, items.drop_last(), step, at);
    } else {
        assert(items.subrange(0, at) =~= items);
    }
}

/// The step of a block that adds the output `out` and enters it into the
/// index.
pub open spec fn output_step(height: u64) -> Step<Output> {
    |v: ExtensionView, out: Output| v.apply_block_output(out, height)
}

/// The step of a block that spends what the input `input` names.
pub open spec fn input_step() -> Step<Input> {
    |v: ExtensionView, input: Input| v.apply_input(input)
}

/// The step of a block that adds the kernel `kernel` and enters it into
/// the index.
pub open spec fn kernel_step(height: u64) -> Step<TxKernel> {
    |v: ExtensionView, kernel: TxKernel| v.apply_block_kernel(kernel, height)
}

impl ExtensionView {
    /// The extension with `store` as its batch.
    pub open spec fn with_store(self, store: StoreView) -> ExtensionView {
        ExtensionView { set: TxHashSetView { store, ..self.set }, ..self }
    }

    /// Whether a live leaf already bears `commit`, where the index says it
    /// is.
    pub open spec fn is_duplicate(self, commit: Commitment) -> bool {
        match self.set.store.output(commit) {
            None => false,
            Some(entry) => if entry.features.spec_is_siglocked() {
                leaf_bears(self.set.output_ii, entry.position, commit)
            } else {
                leaf_bears(self.set.output_i, entry.position, commit)
            },
        }
    }

    /// The extension after the output has been added to the MMR that its
    /// features select, and the position of the new leaf. A commitment
    /// that a live leaf bears is refused with `DuplicateCommitment`, a full
    /// MMR with `TxHashSetErr`.
    pub open spec fn apply_output(self, out: Output) -> Result<(ExtensionView, u64), ErrorKind> {
        if self.is_duplicate(out.commit) {
            Err(ErrorKind::DuplicateCommitment(out.commit))
        } else if out.features.spec_is_siglocked() {
            if self.set.output_ii.len() == u64::MAX {
                Err(ErrorKind::TxHashSetErr)
            } else {
                Ok(
                    (
                        ExtensionView {
                            set: TxHashSetView {
                                output_ii: spec_push(self.set.output_ii, record_ii(out)),
                                ..self.set
                            },
                            ..self
                        },
                        (self.set.output_ii.len() + 1) as u64,
                    ),
                )
            }
        } else {
            if self.set.output_i.len() == u64::MAX {
                Err(ErrorKind::TxHashSetErr)
            } else {
                Ok(
                    (
                        ExtensionView {
                            set: TxHashSetView {
                                output_i: spec_push(self.set.output_i, record_i(out)),
                                ..self.set
                            },
                            ..self
                        },
                        (self.set.output_i.len() + 1) as u64,
                    ),
                )
            }
        }
    }

    /// The extension after the output of a block at `height` has been
    /// added and entered into the index under its commitment.
    pub open spec fn apply_block_output(self, out: Output, height: u64) -> Result<
        ExtensionView,
        ErrorKind,
    > {
        match self.apply_output(out) {
            Err(e) => Err(e),
            Ok((v, position)) => Ok(
                v.with_store(
                    StoreView {
                        outputs: v.set.store.outputs.insert(
                            out.commit,
                            OutputFeaturePosHeight { features: out.features, position, height },
                        ),
                        ..v.set.store
                    },
                ),
            ),
        }
    }

    /// The extension after the output that `input` names has been spent:
    /// the leaf that the index names is pruned. A commitment that the index
    /// lacks is `AlreadySpent`; a leaf that does not live there, or has
    /// another hash or another commitment, is `TxHashSetErr`. The index
    /// keeps its entry.
    pub open spec fn apply_input(self, input: Input) -> Result<ExtensionView, ErrorKind> {
        match self.set.store.output(input.commit) {
            None => Err(ErrorKind::AlreadySpent(input.commit)),
            Some(entry) => match self.set.check_output(
                entry.features,
                entry.position,
                input.commit,
            ) {
                LeafCheck::Found(_, _) => if entry.features.spec_is_siglocked() {
                    Ok(
                        ExtensionView {
                            set: TxHashSetView {
                                output_ii: spec_prune(self.set.output_ii, entry.position),
                                ..self.set
                            },
                            ..self
                        },
                    )
                } else {
                    Ok(
                        ExtensionView {
                            set: TxHashSetView {
                                output_i: spec_prune(self.set.output_i, entry.position),
                                ..self.set
                            },
                            ..self
                        },
                    )
                },
                _ => Err(ErrorKind::TxHashSetErr),
            },
        }
    }

    /// The extension after the kernel has been added to the kernel MMR, and
    /// the position of the new leaf. A full MMR is `TxHashSetErr`.
    pub open spec fn apply_kernel(self, kernel: TxKernel) -> Result<(ExtensionView, u64), ErrorKind> {
        if self.set.kernel.len() == u64::MAX {
            Err(ErrorKind::TxHashSetErr)
        } else {
            Ok(
                (
                    ExtensionView {
                        set: TxHashSetView {
                            kernel: spec_push(self.set.kernel, kernel),
                            ..self.set
                        },
                        ..self
                    },
                    (self.set.kernel.len() + 1) as u64,
                ),
            )
        }
    }

    /// The extension after the kernel of a block at `height` has been added
    /// and entered into the index under its excess.
    pub open spec fn apply_block_kernel(self, kernel: TxKernel, height: u64) -> Result<
        ExtensionView,
        ErrorKind,
    > {
        match self.apply_kernel(kernel) {
            Err(e) => Err(e),
            Ok((v, position)) => Ok(
                v.with_store(
                    StoreView {
                        kernels: v.set.store.kernels.insert(kernel.excess, (position, height)),
                        ..v.set.store
                    },
                ),
            ),
        }
    }

    /// The extension after the block has been applied: its outputs, then
    /// its inputs, then its kernels, each in order, and then the block is
    /// the head. The first step that fails ends it: the extension is then
    /// as the steps before left it.
    pub open spec fn apply_block(self, b: Block) -> (ExtensionView, Option<ErrorKind>) {
        let (v1, e1) = fold_steps(self, b.outputs@, output_step(b.header.height));
        if e1 is Some {
            (v1, e1)
        } else {
            let (v2, e2) = fold_steps(v1, b.inputs@, input_step());
            if e2 is Some {
                (v2, e2)
            } else {
                let (v3, e3) = fold_steps(v2, b.kernels@, kernel_step(b.header.height));
                if e3 is Some {
                    (v3, e3)
                } else {
                    (ExtensionView { head: Tip::spec_from_header(b.header), ..v3 }, None)
                }
            }
        }
    }

    /// The extension after the three MMRs have been rewound to the given
    /// positions, one after the other; `readd` names the spent outputs to
    /// bring back. An MMR that does not reach its position ends it with
    /// `TxHashSetErr`, the MMRs before it rewound.
    pub open spec fn rewind_to_pos(
        self,
        output_i_pos: u64,
        output_ii_pos: u64,
        kernel_pos: u64,
        readd: Set<u32>,
    ) -> (ExtensionView, Option<ErrorKind>) {
        if rewind_size(output_i_pos) > self.set.output_i.len() {
            (self, Some(ErrorKind::TxHashSetErr))
        } else {
            let v1 = ExtensionView {
                set: TxHashSetView {
                    output_i: spec_rewind(self.set.output_i, output_i_pos, readd),
                    ..self.set
                },
                ..self
            };
            if rewind_size(output_ii_pos) > self.set.output_ii.len() {
                (v1, Some(ErrorKind::TxHashSetErr))
            } else {
                let v2 = ExtensionView {
                    set: TxHashSetView {
                        output_ii: spec_rewind(self.set.output_ii, output_ii_pos, readd),
                        ..v1.set
                    },
                    ..v1
                };
                if rewind_size(kernel_pos) > self.set.kernel.len() {
                    (v2, Some(ErrorKind::TxHashSetErr))
                } else {
                    (
                        ExtensionView {
                            set: TxHashSetView {
                                kernel: spec_rewind(self.set.kernel, kernel_pos, Set::empty()),
                                ..v2.set
                            },
                            ..v2
                        },
                        None,
                    )
                }
            }
        }
    }

    /// The extension after a rewind to the block of `header`: the MMRs go
    /// back to the sizes in the header, what the blocks after it spent
    /// comes back, and the block is the head. The header of the present
    /// head must be in the batch (`StoreErr`).
    pub open spec fn rewind(self, header: BlockHeader) -> (ExtensionView, Option<ErrorKind>) {
        match self.set.store.header(self.head.last_block_h) {
            None => (self, Some(ErrorKind::StoreErr)),
            Some(head_header) => match spec_input_pos_to_rewind(
                self.set.store,
                header,
                head_header,
            ) {
                Err(e) => (self, Some(e)),
                Ok(readd) => {
                    let (v, failed) = self.rewind_to_pos(
                        header.output_i_mmr_size,
                        header.output_ii_mmr_size,
                        header.kernel_mmr_size,
                        readd,
                    );
                    if failed is Some {
                        (v, failed)
                    } else {
                        (ExtensionView { head: Tip::spec_from_header(header), ..v }, None)
                    }
                },
            },
        }
    }

    /// Whether the roots of the MMRs are those in the header of the head.
    /// At height 0 there is nothing to compare.
    pub open spec fn validate_roots(self) -> Result<(), ErrorKind> {
        if self.head.height == 0 {
            Ok(())
        } else {
            match self.set.store.header(self.head.last_block_h) {
                None => Err(ErrorKind::StoreErr),
                Some(head_header) => if head_header.spec_roots() == self.set.roots() {
                    Ok(())
                } else {
                    Err(ErrorKind::InvalidRoot)
                },
            }
        }
    }

    /// Whether the sizes of the MMRs are those in the header of the head.
    /// At height 0 there is nothing to compare.
    pub open spec fn validate_sizes(self) -> Result<(), ErrorKind> {
        if self.head.height == 0 {
            Ok(())
        } else {
            match self.set.store.header(self.head.last_block_h) {
                None => Err(ErrorKind::StoreErr),
                Some(head_header) => if head_header.spec_sizes() == self.set.sizes() {
                    Ok(())
                } else {
                    Err(ErrorKind::InvalidMMRSize)
                },
            }
        }
    }

    /// Whether every parent of the three MMRs has the hash of its
    /// children.
    pub open spec fn validate_mmrs(self) -> Result<(), ErrorKind> {
        if parents_valid(self.set.output_i) && parents_valid(self.set.output_ii) && parents_valid(
            self.set.kernel,
        ) {
            Ok(())
        } else {
            Err(ErrorKind::InvalidTxHashSet)
        }
    }

    /// What the state alone decides of a validation: the MMRs, then the
    /// roots, then the sizes.
    pub open spec fn validate_state(self) -> Result<(), ErrorKind> {
        match self.validate_mmrs() {
            Err(e) => Err(e),
            Ok(()) => match self.validate_roots() {
                Err(e) => Err(e),
                Ok(()) => self.validate_sizes(),
            },
        }
    }

    /// The extension after leaf snapshots of the two output MMRs have been
    /// taken for the block at the head.
    pub open spec fn snapshot(self) -> Result<ExtensionView, ErrorKind> {
        match self.set.store.header(self.head.last_block_h) {
            None => Err(ErrorKind::StoreErr),
            Some(header) => Ok(
                ExtensionView {
                    output_i_snapshots: self.output_i_snapshots.push(
                        (header.hash, live_positions(self.set.output_i, self.set.output_i.len())),
                    ),
                    output_ii_snapshots: self.output_ii_snapshots.push(
                        (header.hash, live_positions(self.set.output_ii, self.set.output_ii.len())),
                    ),
                    ..self
                },
            ),
        }
    }
}

/// How many kernels go into one batch of signatures to verify.
pub const KERNEL_BATCH_SIZE: usize = 5000;

/// Who wants to know how far a validation has come.
pub trait TxHashsetWriteStatus {
    /// So many kernels of so many have been validated; the last two
    /// numbers are for range proofs, of which this chain has none.
    fn on_validation(&self, kernels: u64, kernel_total: u64, rproofs: u64, rproof_total: u64)
        requires
            kernels <= kernel_total,
            rproofs == 0,
            rproof_total == 0,
    ;
}

/// The cryptography of kernels and commitments. The chain state decides
/// what is handed to it and passes on what it answers; what it answers is
/// its own affair.
pub trait KernelCrypto {
    /// Verifies the signatures of a batch of kernels, which is never
    /// longer than `KERNEL_BATCH_SIZE`.
    fn batch_sig_verify(&self, kernels: &Vec<TxKernel>) -> (r: Result<(), Error>)
        requires
            kernels@.len() <= KERNEL_BATCH_SIZE,
    ;

    /// Sums the commitments of the outputs, less those of the inputs, and
    /// the kernel excesses, checks that the two sums agree, and gives
    /// both.
    fn verify_kernel_sums(
        &self,
        inputs: &Vec<Commitment>,
        outputs: &Vec<Commitment>,
        kernels: &Vec<Commitment>,
    ) -> (r: Result<(Commitment, Commitment), Error>);

    /// The commitment to the value zero.
    fn commit_to_zero_value(&self) -> (c: Commitment);
}

/// The commitments of the live leaves among the first `upto` nodes of an
/// output MMR, in rising order of position.
pub open spec fn live_commits<T: OutputRecord>(nodes: Seq<Node<T>>, upto: nat) -> Seq<Commitment>
    decreases upto,
{
    if upto == 0 {
        Seq::empty()
    } else {
        let rest = live_commits(nodes, (upto - 1) as nat);
        let node = nodes[upto - 1];
        if node.live && node.data is Some {
            rest.push(node.data->Some_0.spec_id().commit)
        } else {
            rest
        }
    }
}

/// The excesses of the live leaves among the first `upto` nodes of the
/// kernel MMR, in rising order of position.
pub open spec fn live_excesses(nodes: Seq<Node<TxKernel>>, upto: nat) -> Seq<Commitment>
    decreases upto,
{
    if upto == 0 {
        Seq::empty()
    } else {
        let rest = live_excesses(nodes, (upto - 1) as nat);
        let node = nodes[upto - 1];
        if node.live && node.data is Some {
            rest.push(node.data->Some_0.excess)
        } else {
            rest
        }
    }
}

/// There are no fewer kernels up to a later position.
pub proof fn lemma_excesses_grow(nodes: Seq<Node<TxKernel>>, a: nat, b: nat)
    requires
        a <= b,
    ensures
        live_excesses(nodes, a).len() <= live_excesses(nodes, b).len(),
    decreases b - a,
{
    if a < b {
        lemma_excesses_grow(nodes, a, (b - 1) as nat);
    }
}

/// The batch of kernels that a scan from position `pos` on gathers on top
/// of `acc`, and the last position that it looked at: the scan takes the
/// kernel of every leaf and ends with `KERNEL_BATCH_SIZE` kernels or at
/// the last node. A leaf without a kernel is `TxKernelNotFound`.
pub open spec fn scan_kernels(nodes: Seq<Node<TxKernel>>, pos: nat, acc: Seq<TxKernel>) -> Result<
    (Seq<TxKernel>, nat),
    ErrorKind,
>
    decreases nodes.len() - pos,
{
    if spec_is_leaf(pos) && spec_get_data(nodes, pos as u64) is None {
        Err(ErrorKind::TxKernelNotFound)
    } else {
        let gathered = if spec_is_leaf(pos) {
            acc.push(spec_get_data(nodes, pos as u64)->Some_0)
        } else {
            acc
        };
        if gathered.len() >= KERNEL_BATCH_SIZE || pos >= nodes.len() {
            Ok((gathered, pos))
        } else {
            scan_kernels(nodes, pos + 1, gathered)
        }
    }
}

/// The batch of kernels that starts at position `from`, and the last
/// position looked at. Outside the MMR there is nothing to look at.
pub open spec fn spec_kernel_batch(nodes: Seq<Node<TxKernel>>, from: u64) -> Result<
    (Seq<TxKernel>, nat),
    ErrorKind,
> {
    if 1 <= from <= nodes.len() {
        scan_kernels(nodes, from as nat, Seq::empty())
    } else {
        Ok((Seq::empty(), from as nat))
    }
}

/// The batches of kernels whose signatures are verified one after the
/// other, from position `from` on: each scan starts after the last
/// position that the scan before it looked at.
pub open spec fn kernel_batches(nodes: Seq<Node<TxKernel>>, from: nat) -> Seq<Seq<TxKernel>>
    decreases nodes.len() - from,
{
    if 1 <= from <= nodes.len() {
        match scan_kernels(nodes, from, Seq::empty()) {
            Ok((batch, last)) => if from <= last < nodes.len() {
                seq![batch] + kernel_batches(nodes, last + 1)
            } else {
                seq![batch]
            },
            Err(_) => Seq::empty(),
        }
    } else {
        Seq::empty()
    }
}

/// Whether `verdict` is what `crypto` may say of the signatures of the
/// kernels of `batch`.
pub open spec fn batch_verdict<C: KernelCrypto>(
    crypto: &C,
    batch: Seq<TxKernel>,
    verdict: Result<(), Error>,
) -> bool {
    exists|kernels: Vec<TxKernel>|
        kernels@ == batch && #[trigger] call_ensures(
            C::batch_sig_verify,
            (crypto, &kernels),
            verdict,
        )
}

/// Whether `verdict` is what the verification of the signatures of all
/// kernels comes to: it passes where `crypto` passes every batch, and fails
/// with what `crypto` says of the first batch that it does not pass.
pub open spec fn signatures_verdict<C: KernelCrypto>(
    crypto: &C,
    nodes: Seq<Node<TxKernel>>,
    verdict: Result<(), Error>,
) -> bool {
    let batches = kernel_batches(nodes, 1);
    match verdict {
        Ok(()) => forall|i: int|
            0 <= i < batches.len() ==> batch_verdict(crypto, #[trigger] batches[i], Ok(())),
        Err(e) => exists|i: int|
            0 <= i < batches.len() && batch_verdict(crypto, #[trigger] batches[i], Err(e)) && forall|
                j: int,
            | 0 <= j < i ==> batch_verdict(crypto, #[trigger] batches[j], Ok(())),
    }
}

/// Whether `verdict` is what `crypto` may say of the sums of the chain
/// state: of no inputs, of the commitments of all live output leaves, and
/// of the excesses of all kernels.
pub open spec fn sums_verdict<C: KernelCrypto>(
    crypto: &C,
    set: TxHashSetView,
    verdict: Result<(Commitment, Commitment), Error>,
) -> bool {
    exists|inputs: Vec<Commitment>, outputs: Vec<Commitment>, kernels: Vec<Commitment>|
        inputs@ == Seq::<Commitment>::empty() && outputs@ == live_commits(
            set.output_i,
            set.output_i.len(),
        ) + live_commits(set.output_ii, set.output_ii.len()) && kernels@ == live_excesses(
            set.kernel,
            set.kernel.len(),
        ) && #[trigger] call_ensures(
            C::verify_kernel_sums,
            (crypto, &inputs, &outputs, &kernels),
            verdict,
        )
}

/// Appends the commitments of the live leaves of an output MMR to `out`.
fn push_live_commits<T: OutputRecord>(pmmr: &PMMR<T, true>, out: &mut Vec<Commitment>)
    ensures
        final(out)@ == old(out)@ + live_commits(pmmr@, pmmr@.len()),
{
    let nodes = pmmr.nodes();
    let mut i: usize = 0;
    assert(out@ =~= old(out)@ + live_commits(pmmr@, 0));
    while i < nodes.len()
        invariant
            i <= nodes@.len(),
            nodes@ == pmmr@,
            out@ == old(out)@ + live_commits(pmmr@, i as nat),
        decreases nodes@.len() - i,
    {
        let node = nodes[i];
        let ghost before = live_commits(pmmr@, i as nat);
        if node.live {
            if let Some(record) = node.data {
                out.push(record.id().commit);
                assert(out@ =~= old(out)@ + before.push(record.spec_id().commit));
            }
        }
        i += 1;
    }
}

/// A unit of work on the three body MMRs.
pub struct Extension {
    head: Tip,
    output_i_pmmr: PMMR<OutputI, true>,
    output_ii_pmmr: PMMR<OutputII, true>,
    kernel_pmmr: PMMR<TxKernel, false>,
    output_i_snapshots: Vec<LeafSnapshot>,
    output_ii_snapshots: Vec<LeafSnapshot>,
    rollback: bool,
    batch: Batch,
}

/// What is left of an extension at the end of its unit of work.
pub struct ExtensionParts {
    pub output_i_pmmr: PMMR<OutputI, true>,
    pub output_ii_pmmr: PMMR<OutputII, true>,
    pub kernel_pmmr: PMMR<TxKernel, false>,
    pub output_i_snapshots: Vec<LeafSnapshot>,
    pub output_ii_snapshots: Vec<LeafSnapshot>,
    pub rollback: bool,
    pub batch: Batch,
}

impl Extension {
    /// The extension, as values.
    pub closed spec fn view(&self) -> ExtensionView {
        ExtensionView {
            head: self.head,
            rollback: self.rollback,
            set: TxHashSetView {
                output_i: self.output_i_pmmr@,
                output_ii: self.output_ii_pmmr@,
                kernel: self.kernel_pmmr@,
                store: self.batch@,
            },
            output_i_snapshots: snapshot_views(self.output_i_snapshots@),
            output_ii_snapshots: snapshot_views(self.output_ii_snapshots@),
        }
    }

    /// A new extension over copies of the three MMRs, in `batch`, at
    /// `head`.
    pub(crate) fn new(trees: &TxHashSet, batch: Batch, head: Tip) -> (ext: Self)
        ensures
            ext@ == (ExtensionView {
                head,
                rollback: false,
                set: TxHashSetView { store: batch@, ..trees@ },
                output_i_snapshots: Seq::empty(),
                output_ii_snapshots: Seq::empty(),
            }),
    {
        let ext = Extension {
            head,
            output_i_pmmr: trees.output_i_handle().begin(),
            output_ii_pmmr: trees.output_ii_handle().begin(),
            kernel_pmmr: trees.kernel_handle().begin(),
            output_i_snapshots: Vec::new(),
            output_ii_snapshots: Vec::new(),
            rollback: false,
            batch,
        };
        assert(ext@.output_i_snapshots =~= Seq::empty());
        assert(ext@.output_ii_snapshots =~= Seq::empty());
        ext
    }

    /// Takes the extension apart at the end of its unit of work.
    pub(crate) fn into_parts(self) -> (parts: ExtensionParts)
        ensures
            parts.output_i_pmmr@ == self@.set.output_i,
            parts.output_ii_pmmr@ == self@.set.output_ii,
            parts.kernel_pmmr@ == self@.set.kernel,
            snapshot_views(parts.output_i_snapshots@) == self@.output_i_snapshots,
            snapshot_views(parts.output_ii_snapshots@) == self@.output_ii_snapshots,
            parts.rollback == self@.rollback,
            parts.batch@ == self@.set.store,
    {
        ExtensionParts {
            output_i_pmmr: self.output_i_pmmr,
            output_ii_pmmr: self.output_ii_pmmr,
            kernel_pmmr: self.kernel_pmmr,
            output_i_snapshots: self.output_i_snapshots,
            output_ii_snapshots: self.output_ii_snapshots,
            rollback: self.rollback,
            batch: self.batch,
        }
    }

    /// The block up to which the extension has come.
    pub fn head(&self) -> (tip: Tip)
        ensures
            tip == self@.head,
    {
        self.head
    }

    /// The batch in which the extension runs.
    pub fn batch(&self) -> (b: &Batch)
        ensures
            b@ == self@.set.store,
    {
        &self.batch
    }

    /// The MMR of plain and coinbase outputs, as the extension sees it.
    pub fn output_i_pmmr(&self) -> (r: &PMMR<OutputI, true>)
        ensures
            r@ == self@.set.output_i,
    {
        &self.output_i_pmmr
    }

    /// The MMR of signature-locked outputs, as the extension sees it.
    pub fn output_ii_pmmr(&self) -> (r: &PMMR<OutputII, true>)
        ensures
            r@ == self@.set.output_ii,
    {
        &self.output_ii_pmmr
    }

    /// The kernel MMR, as the extension sees it.
    pub fn kernel_pmmr(&self) -> (r: &PMMR<TxKernel, false>)
        ensures
            r@ == self@.set.kernel,
    {
        &self.kernel_pmmr
    }

    /// Marks the extension to be dropped, whatever its result.
    pub fn force_rollback(&mut self)
        ensures
            final(self)@ == (ExtensionView { rollback: true, ..old(self)@ }),
    {
        self.rollback = true;
    }

    /// Spends the output that `input` names: prunes its leaf.
    pub fn apply_input(&mut self, input: &Input) -> (r: Result<(), Error>)
        ensures
            match r {
                Ok(()) => old(self)@.apply_input(*input) == Ok::<ExtensionView, ErrorKind>(
                    final(self)@,
                ),
                Err(e) => final(self)@ == old(self)@ && old(self)@.apply_input(*input) == Err::<
                    ExtensionView,
                    ErrorKind,
                >(e.spec_kind()),
            },
    {
        let commit = input.commitment();
        let entry = match self.batch.get_output_pos_height(&commit) {
            Ok(entry) => entry,
            Err(_) => {
                return Err(Error::AlreadySpent(commit));
            },
        };
        let siglocked = entry.features.is_siglocked();
        // First check that the input names a leaf that the output MMR has.
        let check = if siglocked {
            check_leaf(&self.output_ii_pmmr, entry.position, &commit)
        } else {
            check_leaf(&self.output_i_pmmr, entry.position, &commit)
        };
        match check {
            LeafCheck::Found(_, _) => {},
            _ => {
                return Err(
                    Error::TxHashSetErr("output pmmr hash not found or mismatch".to_string()),
                );
            },
        }
        proof {
            use_type_invariant(&self.output_i_pmmr);
            use_type_invariant(&self.output_ii_pmmr);
        }
        // Then prune it: an input is valid only if the output was there to
        // spend.
        let prune_res = if siglocked {
            self.output_ii_pmmr.prune(entry.position)
        } else {
            self.output_i_pmmr.prune(entry.position)
        };
        match prune_res {
            Ok(true) => Ok(()),
            Ok(false) => Err(Error::AlreadySpent(commit)),
            Err(e) => Err(Error::TxHashSetErr(e)),
        }
    }

    /// Adds the output to the MMR that its features select and gives the
    /// position of the new leaf.
    pub fn apply_output(&mut self, out: &Output) -> (r: Result<u64, Error>)
        ensures
            match r {
                Ok(pos) => old(self)@.apply_output(*out) == Ok::<(ExtensionView, u64), ErrorKind>(
                    (final(self)@, pos),
                ),
                Err(e) => final(self)@ == old(self)@ && old(self)@.apply_output(*out) == Err::<
                    (ExtensionView, u64),
                    ErrorKind,
                >(e.spec_kind()),
            },
    {
        let commit = out.commitment();
        if let Ok(entry) = self.batch.get_output_pos_height(&commit) {
            if entry.features.is_siglocked() {
                if let Some(out_mmr) = self.output_ii_pmmr.get_data(entry.position) {
                    if out_mmr.id().commitment().same(&commit) {
                        return Err(Error::DuplicateCommitment(commit));
                    }
                }
            } else {
                if let Some(out_mmr) = self.output_i_pmmr.get_data(entry.position) {
                    if out_mmr.id().commitment().same(&commit) {
                        return Err(Error::DuplicateCommitment(commit));
                    }
                }
            }
        }
        // Push the new output to its MMR.
        if out.features.is_siglocked() {
            let record = match OutputII::from_output(out) {
                Ok(record) => record,
                Err(e) => {
                    return Err(e);
                },
            };
            match self.output_ii_pmmr.push(&record) {
                Ok(pos) => Ok(pos),
                Err(e) => Err(Error::TxHashSetErr(e)),
            }
        } else {
            let record = match OutputI::from_output(out) {
                Ok(record) => record,
                Err(e) => {
                    return Err(e);
                },
            };
            match self.output_i_pmmr.push(&record) {
                Ok(pos) => Ok(pos),
                Err(e) => Err(Error::TxHashSetErr(e)),
            }
        }
    }

    /// Adds the kernel to the kernel MMR and gives the position of the new
    /// leaf.
    pub fn apply_kernel(&mut self, kernel: &TxKernel) -> (r: Result<u64, Error>)
        ensures
            match r {
                Ok(pos) => old(self)@.apply_kernel(*kernel) == Ok::<(ExtensionView, u64), ErrorKind>(
                    (final(self)@, pos),
                ),
                Err(e) => final(self)@ == old(self)@ && old(self)@.apply_kernel(*kernel) == Err::<
                    (ExtensionView, u64),
                    ErrorKind,
                >(e.spec_kind()),
            },
    {
        match self.kernel_pmmr.push(kernel) {
            Ok(pos) => Ok(pos),
            Err(e) => Err(Error::TxHashSetErr(e)),
        }
    }

    /// Applies a block: adds its outputs and enters them into the index,
    /// spends its inputs, adds its kernels and enters them, and makes the
    /// block the head.
    pub fn apply_block(&mut self, b: &Block) -> (r: Result<(), Error>)
        ensures
            final(self)@ == old(self)@.apply_block(*b).0,
            match r {
                Ok(()) => old(self)@.apply_block(*b).1 is None,
                Err(e) => old(self)@.apply_block(*b).1 == Some(e.spec_kind()),
            },
    {
        let height = b.header.height;
        let ghost start = self@;
        let mut i: usize = 0;
        assert(b.outputs@.subrange(0, 0) =~= Seq::<Output>::empty());
        while i < b.outputs.len()
            invariant
                i <= b.outputs@.len(),
                height == b.header.height,
                start == old(self)@,
                fold_steps(start, b.outputs@.subrange(0, i as int), output_step(height)) == (
                    self@,
                    None::<ErrorKind>,
                ),
            decreases b.outputs@.len() - i,
        {
            let out = &b.outputs[i];
            let ghost before = self@;
            let ghost prefix = b.outputs@.subrange(0, i as int + 1);
            proof {
                assert(prefix.drop_last() =~= b.outputs@.subrange(0, i as int));
                assert(prefix.last() == *out);
            }
            let position = match self.apply_output(out) {
                Ok(position) => position,
                Err(e) => {
                    proof {
                        lemma_fold_stops(start, b.outputs@, output_step(height), i as int + 1);
                    }
                    return Err(e);
                },
            };
            // Update the index for the new output.
            self.batch.save_output_pos_height(
                &out.commitment(),
                OutputFeaturePosHeight { features: out.features, position, height },
            );
            i += 1;
        }
        assert(b.outputs@.subrange(0, i as int) =~= b.outputs@);
        let ghost after_outputs = self@;
        let mut j: usize = 0;
        assert(b.inputs@.subrange(0, 0) =~= Seq::<Input>::empty());
        while j < b.inputs.len()
            invariant
                j <= b.inputs@.len(),
                start == old(self)@,
                height == b.header.height,
                fold_steps(start, b.outputs@, output_step(height)) == (
                    after_outputs,
                    None::<ErrorKind>,
                ),
                fold_steps(after_outputs, b.inputs@.subrange(0, j as int), input_step()) == (
                    self@,
                    None::<ErrorKind>,
                ),
            decreases b.inputs@.len() - j,
        {
            let input = &b.inputs[j];
            let ghost prefix = b.inputs@.subrange(0, j as int + 1);
            proof {
                assert(prefix.drop_last() =~= b.inputs@.subrange(0, j as int));
                assert(prefix.last() == *input);
            }
            match self.apply_input(input) {
                Ok(()) => {},
                Err(e) => {
                    proof {
                        lemma_fold_stops(after_outputs, b.inputs@, input_step(), j as int + 1);
                    }
                    return Err(e);
                },
            }
            j += 1;
        }
        assert(b.inputs@.subrange(0, j as int) =~= b.inputs@);
        let ghost after_inputs = self@;
        let mut k: usize = 0;
        assert(b.kernels@.subrange(0, 0) =~= Seq::<TxKernel>::empty());
        while k < b.kernels.len()
            invariant
                k <= b.kernels@.len(),
                start == old(self)@,
                height == b.header.height,
                fold_steps(start, b.outputs@, output_step(height)) == (
                    after_outputs,
                    None::<ErrorKind>,
                ),
                fold_steps(after_outputs, b.inputs@, input_step()) == (
                    after_inputs,
                    None::<ErrorKind>,
                ),
                fold_steps(after_inputs, b.kernels@.subrange(0, k as int), kernel_step(height)) == (
                    self@,
                    None::<ErrorKind>,
                ),
            decreases b.kernels@.len() - k,
        {
            let kernel = &b.kernels[k];
            let ghost prefix = b.kernels@.subrange(0, k as int + 1);
            proof {
                assert(prefix.drop_last() =~= b.kernels@.subrange(0, k as int));
                assert(prefix.last() == *kernel);
            }
            let position = match self.apply_kernel(kernel) {
                Ok(position) => position,
                Err(e) => {
                    proof {
                        lemma_fold_stops(after_inputs, b.kernels@, kernel_step(height), k as int + 1);
                    }
                    return Err(e);
                },
            };
            self.batch.save_txkernel_pos_height(&kernel.excess, position, height);
            k += 1;
        }
        assert(b.kernels@.subrange(0, k as int) =~= b.kernels@);
        // The block that was just applied is the head of the extension.
        self.head = Tip::from_header(&b.header);
        Ok(())
    }

    /// Rewinds the three MMRs to the given positions; `rewind_rm_pos` names
    /// the spent outputs to bring back. Kernels are never pruned, so none
    /// comes back.
    pub fn rewind_to_pos(
        &mut self,
        output_i_pos: u64,
        output_ii_pos: u64,
        kernel_pos: u64,
        rewind_rm_pos: &Bitmap,
    ) -> (r: Result<(), Error>)
        ensures
            ({
                let (v, failed) = old(self)@.rewind_to_pos(
                    output_i_pos,
                    output_ii_pos,
                    kernel_pos,
                    bitmap_values(*rewind_rm_pos),
                );
                final(self)@ == v && match r {
                    Ok(()) => failed is None,
                    Err(e) => failed == Some(e.spec_kind()),
                }
            }),
    {
        match self.output_i_pmmr.rewind(output_i_pos, rewind_rm_pos) {
            Ok(()) => {},
            Err(e) => {
                return Err(Error::TxHashSetErr(e));
            },
        }
        match self.output_ii_pmmr.rewind(output_ii_pos, rewind_rm_pos) {
            Ok(()) => {},
            Err(e) => {
                return Err(Error::TxHashSetErr(e));
            },
        }
        match self.kernel_pmmr.rewind(kernel_pos, &bitmap_new()) {
            Ok(()) => {},
            Err(e) => {
                return Err(Error::TxHashSetErr(e));
            },
        }
        Ok(())
    }

    /// Rewinds the extension to the block of `header`: the MMRs go back to
    /// the sizes that the header names, the outputs that the blocks after
    /// it spent come back, and the block is the head.
    pub fn rewind(&mut self, header: &BlockHeader) -> (r: Result<(), Error>)
        ensures
            final(self)@ == old(self)@.rewind(*header).0,
            match r {
                Ok(()) => old(self)@.rewind(*header).1 is None,
                Err(e) => old(self)@.rewind(*header).1 == Some(e.spec_kind()),
            },
    {
        let head_header = match self.batch.get_block_header(&self.head.hash()) {
            Ok(head_header) => head_header,
            Err(e) => {
                return Err(Error::store(e, "txhashset rewind"));
            },
        };
        let rewind_rm_pos = input_pos_to_rewind(header, &head_header, &self.batch)?;
        self.rewind_to_pos(
            header.output_i_mmr_size,
            header.output_ii_mmr_size,
            header.kernel_mmr_size,
            &rewind_rm_pos,
        )?;
        // The header that was rewound to is the head of the extension.
        self.head = Tip::from_header(header);
        Ok(())
    }

    /// The roots of the three MMRs.
    pub fn roots(&self) -> (r: Result<TxHashSetRoots, Error>)
        ensures
            r == Ok::<TxHashSetRoots, Error>(self@.set.roots()),
    {
        Ok(
            TxHashSetRoots {
                output_i_root: self.output_i_pmmr.root(),
                output_ii_root: self.output_ii_pmmr.root(),
                kernel_root: self.kernel_pmmr.root(),
            },
        )
    }

    /// The sizes of the three MMRs.
    pub fn sizes(&self) -> (r: (u64, u64, u64))
        ensures
            r == self@.set.sizes(),
    {
        (
            self.output_i_pmmr.unpruned_size(),
            self.output_ii_pmmr.unpruned_size(),
            self.kernel_pmmr.unpruned_size(),
        )
    }

    /// Checks the roots of the MMRs against the header of the head.
    pub fn validate_roots(&self) -> (r: Result<(), Error>)
        ensures
            match r {
                Ok(()) => self@.validate_roots() is Ok,
                Err(e) => self@.validate_roots() == Err::<(), ErrorKind>(e.spec_kind()),
            },
    {
        if self.head.height == 0 {
            return Ok(());
        }
        let head_header = match self.batch.get_block_header(&self.head.hash()) {
            Ok(head_header) => head_header,
            Err(e) => {
                return Err(Error::store(e, "txhashset validate roots"));
            },
        };
        let header_roots = TxHashSetRoots {
            output_i_root: head_header.output_i_root,
            output_ii_root: head_header.output_ii_root,
            kernel_root: head_header.kernel_root,
        };
        let roots = self.roots()?;
        if !header_roots.same(&roots) {
            Err(Error::InvalidRoot)
        } else {
            Ok(())
        }
    }

    /// Checks the sizes of the MMRs against the header of the head.
    pub fn validate_sizes(&self) -> (r: Result<(), Error>)
        ensures
            match r {
                Ok(()) => self@.validate_sizes() is Ok,
                Err(e) => self@.validate_sizes() == Err::<(), ErrorKind>(e.spec_kind()),
            },
    {
        if self.head.height == 0 {
            return Ok(());
        }
        let head_header = match self.batch.get_block_header(&self.head.last_block_h) {
            Ok(head_header) => head_header,
            Err(e) => {
                return Err(Error::store(e, "txhashset validate sizes"));
            },
        };
        let sizes = self.sizes();
        if head_header.output_i_mmr_size != sizes.0 || head_header.output_ii_mmr_size != sizes.1
            || head_header.kernel_mmr_size != sizes.2 {
            Err(Error::InvalidMMRSize)
        } else {
            Ok(())
        }
    }

    /// Checks in each of the three MMRs that every parent has the hash of
    /// its children.
    pub fn validate_mmrs(&self) -> (r: Result<(), Error>)
        ensures
            match r {
                Ok(()) => self@.validate_mmrs() is Ok,
                Err(e) => self@.validate_mmrs() == Err::<(), ErrorKind>(e.spec_kind()),
            },
    {
        if let Err(e) = self.output_i_pmmr.validate() {
            return Err(Error::InvalidTxHashSet(e));
        }
        if let Err(e) = self.output_ii_pmmr.validate() {
            return Err(Error::InvalidTxHashSet(e));
        }
        if let Err(e) = self.kernel_pmmr.validate() {
            return Err(Error::InvalidTxHashSet(e));
        }
        Ok(())
    }

    /// What the state alone decides of a validation: checks the MMRs, then
    /// the roots, then the sizes.
    pub fn validate_state(&self) -> (r: Result<(), Error>)
        ensures
            match r {
                Ok(()) => self@.validate_state() is Ok,
                Err(e) => self@.validate_state() == Err::<(), ErrorKind>(e.spec_kind()),
            },
    {
        self.validate_mmrs()?;
        self.validate_roots()?;
        self.validate_sizes()?;
        Ok(())
    }

    /// Takes a leaf snapshot of each output MMR for the block at the head:
    /// what a fast-sync peer needs to take the chain state over as of that
    /// block.
    pub fn snapshot(&mut self) -> (r: Result<(), Error>)
        ensures
            match r {
                Ok(()) => old(self)@.snapshot() == Ok::<ExtensionView, ErrorKind>(final(self)@),
                Err(e) => final(self)@ == old(self)@ && old(self)@.snapshot() == Err::<
                    ExtensionView,
                    ErrorKind,
                >(e.spec_kind()),
            },
    {
        let header = match self.batch.get_block_header(&self.head.last_block_h) {
            Ok(header) => header,
            Err(e) => {
                return Err(Error::store(e, "txhashset snapshot"));
            },
        };
        let first = LeafSnapshot::of(&header, &self.output_i_pmmr);
        let second = LeafSnapshot::of(&header, &self.output_ii_pmmr);
        self.output_i_snapshots.push(first);
        self.output_ii_snapshots.push(second);
        proof {
            assert(snapshot_views(self.output_i_snapshots@) =~= snapshot_views(
                old(self).output_i_snapshots@,
            ).push(first@));
            assert(snapshot_views(self.output_ii_snapshots@) =~= snapshot_views(
                old(self).output_ii_snapshots@,
            ).push(second@));
        }
        Ok(())
    }

    /// The commitments that the chain state takes away: none, for what is
    /// spent is gone from it.
    pub fn inputs_committed(&self) -> (r: Vec<Commitment>)
        ensures
            r@ == Seq::<Commitment>::empty(),
    {
        Vec::new()
    }

    /// The commitments of all unspent outputs: those of the live leaves of
    /// the first output MMR, then those of the second.
    pub fn outputs_committed(&self) -> (r: Vec<Commitment>)
        ensures
            r@ == live_commits(self@.set.output_i, self@.set.output_i.len()) + live_commits(
                self@.set.output_ii,
                self@.set.output_ii.len(),
            ),
    {
        let mut commitments: Vec<Commitment> = Vec::new();
        push_live_commits(&self.output_i_pmmr, &mut commitments);
        push_live_commits(&self.output_ii_pmmr, &mut commitments);
        assert(commitments@ =~= live_commits(self@.set.output_i, self@.set.output_i.len())
            + live_commits(self@.set.output_ii, self@.set.output_ii.len()));
        commitments
    }

    /// The excesses of all kernels: those of the leaves of the kernel MMR,
    /// none of which is ever pruned.
    pub fn kernels_committed(&self) -> (r: Vec<Commitment>)
        ensures
            r@ == live_excesses(self@.set.kernel, self@.set.kernel.len()),
    {
        let nodes = self.kernel_pmmr.nodes();
        let mut commitments: Vec<Commitment> = Vec::new();
        let mut i: usize = 0;
        while i < nodes.len()
            invariant
                i <= nodes@.len(),
                nodes@ == self@.set.kernel,
                commitments@ == live_excesses(self@.set.kernel, i as nat),
            decreases nodes@.len() - i,
        {
            let node = nodes[i];
            if node.live {
                if let Some(kernel) = node.data {
                    commitments.push(kernel.excess());
                }
            }
            i += 1;
        }
        commitments
    }

    /// The next batch of kernels whose signatures are to be verified: the
    /// kernels of the leaves from position `from` on, up to
    /// `KERNEL_BATCH_SIZE` of them, and the last position looked at. No
    /// leaf of the kernel MMR is ever without its kernel, so this does not
    /// fail.
    pub fn kernel_batch(&self, from: u64) -> (r: Result<(Vec<TxKernel>, u64), Error>)
        ensures
            r is Ok,
            match r {
                Ok((batch, last)) => spec_kernel_batch(self@.set.kernel, from) == Ok::<
                    (Seq<TxKernel>, nat),
                    ErrorKind,
                >((batch@, last as nat)) && from <= last && batch@.len() <= last - from + 1
                    && batch@.len() <= KERNEL_BATCH_SIZE && (1 <= from <= self@.set.kernel.len()
                    ==> last <= self@.set.kernel.len() && batch@.len() == live_excesses(
                    self@.set.kernel,
                    last as nat,
                ).len() - live_excesses(self@.set.kernel, (from - 1) as nat).len()),
                Err(e) => spec_kernel_batch(self@.set.kernel, from) == Err::<
                    (Seq<TxKernel>, nat),
                    ErrorKind,
                >(e.spec_kind()),
            },
    {
        proof {
            use_type_invariant(&self.kernel_pmmr);
        }
        let size = self.kernel_pmmr.unpruned_size();
        if from == 0 || from > size {
            return Ok((Vec::new(), from));
        }
        let mut batch: Vec<TxKernel> = Vec::new();
        let mut pos: u64 = from;
        loop
            invariant
                1 <= from <= pos <= size,
                size == self@.set.kernel.len(),
                wf_nodes(self@.set.kernel, false),
                batch@.len() == live_excesses(self@.set.kernel, (pos - 1) as nat).len()
                    - live_excesses(self@.set.kernel, (from - 1) as nat).len(),
                batch@.len() <= pos - from,
                batch@.len() < KERNEL_BATCH_SIZE,
                scan_kernels(self@.set.kernel, from as nat, Seq::empty()) == scan_kernels(
                    self@.set.kernel,
                    pos as nat,
                    batch@,
                ),
            decreases size - pos,
        {
            proof {
                // a leaf of the kernel MMR lives and has its kernel, and
                // nothing else has one
                let node = self@.set.kernel[pos - 1];
                assert(spec_is_leaf(pos as nat) <==> node.live && node.data is Some);
            }
            if is_leaf(pos) {
                match self.kernel_pmmr.get_data(pos) {
                    Some(kernel) => {
                        batch.push(kernel);
                    },
                    None => {
                        return Err(Error::TxKernelNotFound);
                    },
                }
            }
            if batch.len() >= KERNEL_BATCH_SIZE || pos >= size {
                return Ok((batch, pos));
            }
            pos += 1;
        }
    }

    /// Verifies the signatures of all kernels, a batch at a time, and tells
    /// `status` after each batch how many have been verified. Whether a
    /// batch passes is for `crypto` to say; the first failure ends the
    /// run.
    pub fn verify_kernel_signatures<C: KernelCrypto, S: TxHashsetWriteStatus>(
        &self,
        crypto: &C,
        status: &S,
    ) -> (r: Result<(), Error>)
        ensures
            signatures_verdict(crypto, self@.set.kernel, r),
    {
        let size = self.kernel_pmmr.unpruned_size();
        let total_kernels = n_leaves(size);
        let mut kern_count: u64 = 0;
        let mut pos: u64 = 1;
        let mut done = size == 0;
        let ghost all = kernel_batches(self@.set.kernel, 1);
        let ghost mut passed: Seq<Seq<TxKernel>> = Seq::empty();
        proof {
            use_type_invariant(&self.kernel_pmmr);
            lemma_every_kernel_listed(self@.set.kernel);
        }
        assert(passed + kernel_batches(self@.set.kernel, pos as nat) =~= all);
        while !done
            invariant
                size == self@.set.kernel.len(),
                all == kernel_batches(self@.set.kernel, 1),
                !done ==> 1 <= pos <= size,
                !done ==> kern_count == live_excesses(self@.set.kernel, (pos - 1) as nat).len(),
                total_kernels == live_excesses(self@.set.kernel, size as nat).len(),
                !done ==> passed + kernel_batches(self@.set.kernel, pos as nat) == all,
                done ==> passed == all,
                forall|j: int|
                    0 <= j < passed.len() ==> batch_verdict(crypto, #[trigger] passed[j], Ok(())),
            decreases size - pos + (if done { 0int } else { 1int }),
        {
            let (tx_kernels, last) = match self.kernel_batch(pos) {
                Ok(found) => found,
                Err(e) => {
                    return Err(e);
                },
            };
            let verified = crypto.batch_sig_verify(&tx_kernels);
            let ghost verdict = verified;
            proof {
                assert(batch_verdict(crypto, tx_kernels@, verified));
                let rest = if last < size {
                    kernel_batches(self@.set.kernel, (last + 1) as nat)
                } else {
                    Seq::empty()
                };
                assert(kernel_batches(self@.set.kernel, pos as nat) =~= seq![tx_kernels@] + rest);
                assert(passed.push(tx_kernels@) + rest =~= passed + (seq![tx_kernels@] + rest));
                assert(all[passed.len() as int] == tx_kernels@);
            }
            match verified {
                Ok(()) => {
                    proof {
                        assert(verdict->Ok_0 == ());
                        assert(verdict == Ok::<(), Error>(()));
                        passed = passed.push(tx_kernels@);
                    }
                },
                Err(e) => {
                    return Err(e);
                },
            }
            proof {
                lemma_excesses_grow(self@.set.kernel, last as nat, size as nat);
            }
            kern_count += tx_kernels.len() as u64;
            status.on_validation(kern_count, total_kernels, 0, 0);
            if last >= size {
                done = true;
                proof {
                    assert(passed + Seq::<Seq<TxKernel>>::empty() =~= passed);
                }
            } else {
                pos = last + 1;
            }
        }
        Ok(())
    }

    /// Sums all unspent outputs and all kernels and checks that the sums
    /// agree. The sums are for `crypto` to compute; what is handed to it
    /// are the commitments of the live output leaves and the excesses of
    /// the kernel leaves. The header of the head must be in the batch
    /// (`StoreErr`).
    pub fn validate_kernel_sums<C: KernelCrypto>(&self, genesis: &BlockHeader, crypto: &C) -> (r:
        Result<(Commitment, Commitment), Error>)
        ensures
            match self@.set.store.header(self@.head.last_block_h) {
                None => r is Err && r->Err_0.spec_kind() == ErrorKind::StoreErr,
                Some(_) => sums_verdict(crypto, self@.set, r),
            },
    {
        if let Err(e) = self.batch.get_block_header(&self.head.last_block_h) {
            return Err(Error::store(e, "txhashset validate kernel sums"));
        }
        let inputs = self.inputs_committed();
        let outputs = self.outputs_committed();
        let kernels = self.kernels_committed();
        let sums = crypto.verify_kernel_sums(&inputs, &outputs, &kernels);
        assert(call_ensures(C::verify_kernel_sums, (crypto, &inputs, &outputs, &kernels), sums));
        sums
    }

    /// Validates the chain state against the header of the head: the
    /// MMRs, the roots and the sizes, as `validate_state` does; then, above
    /// height 0, the kernel sums and, unless `fast_validation` is asked
    /// for, the kernel signatures. At height 0 the sums are both the
    /// commitment to zero.
    pub fn validate<C: KernelCrypto, S: TxHashsetWriteStatus>(
        &self,
        genesis: &BlockHeader,
        fast_validation: bool,
        status: &S,
        crypto: &C,
    ) -> (r: Result<(Commitment, Commitment), Error>)
        ensures
            match self@.validate_state() {
                Err(kind) => r is Err && r->Err_0.spec_kind() == kind,
                Ok(()) => if self@.head.height == 0 {
                    r is Ok && r->Ok_0.0 == r->Ok_0.1 && call_ensures(
                        C::commit_to_zero_value,
                        (crypto,),
                        r->Ok_0.0,
                    )
                } else {
                    match r {
                        Ok(sums) => sums_verdict(crypto, self@.set, Ok(sums)) && (!fast_validation
                            ==> signatures_verdict(crypto, self@.set.kernel, Ok(()))),
                        Err(e) => sums_verdict(crypto, self@.set, Err(e)) || (!fast_validation
                            && signatures_verdict(crypto, self@.set.kernel, Err(e)) && exists|
                            sums: (Commitment, Commitment),
                        | sums_verdict(crypto, self@.set, Ok(sums))),
                    }
                },
            },
    {
        self.validate_state()?;
        if self.head.height == 0 {
            let zero_commit = crypto.commit_to_zero_value();
            return Ok((zero_commit, zero_commit));
        }
        // The sum of the kernel excesses should equal the sum of the unspent
        // outputs less the total supply.
        let (output_sum, kernel_sum) = match self.validate_kernel_sums(genesis, crypto) {
            Ok(sums) => sums,
            Err(e) => {
                return Err(e);
            },
        };
        // The costly step, left out of a fast validation.
        if !fast_validation {
            match self.verify_kernel_signatures(crypto, status) {
                Ok(()) => {},
                Err(e) => {
                    assert(sums_verdict(crypto, self@.set, Ok((output_sum, kernel_sum))));
                    return Err(e);
                },
            }
        }
        Ok((output_sum, kernel_sum))
    }

    /// The Merkle proof for an output, as of the block at the head of the
    /// extension: the index gives its features and position (`StoreErr`
    /// where it has none), the MMR that the features select gives the
    /// proof (`TxHashSetErr` where no leaf lives there).
    pub fn merkle_proof(&self, output: &OutputIdentifier) -> (r: Result<MerkleProof, Error>)
        ensures
            match r {
                Ok(merkle) => self@.set.store.output(output.commit) is Some
                    && self@.set.output_proof(
                    self@.set.store.output(output.commit)->Some_0.features,
                    self@.set.store.output(output.commit)->Some_0.position,
                ) == Some((merkle.mmr_size, merkle.path@)),
                Err(e) => match self@.set.store.output(output.commit) {
                    None => e.spec_kind() == ErrorKind::StoreErr,
                    Some(entry) => self@.set.output_proof(entry.features, entry.position) is None
                        && e.spec_kind() == ErrorKind::TxHashSetErr,
                },
            },
    {
        let entry = match self.batch.get_output_pos_height(&output.commit) {
            Ok(entry) => entry,
            Err(e) => {
                return Err(Error::store(e, "txhashset merkle proof"));
            },
        };
        let found = if entry.features.is_siglocked() {
            self.output_ii_pmmr.merkle_proof(entry.position)
        } else {
            self.output_i_pmmr.merkle_proof(entry.position)
        };
        match found {
            Ok(merkle) => Ok(merkle),
            Err(e) => Err(Error::TxHashSetErr(e)),
        }
    }

    /// A read-only view of the unspent outputs as the extension sees them,
    /// with the headers as `header_ext` sees them.
    pub fn utxo_view<'a>(&'a self, header_ext: &'a HeaderExtension) -> (view: UTXOView<'a>)
        ensures
            view@ == (TxHashSetView {
                output_i: self@.set.output_i,
                output_ii: self@.set.output_ii,
                kernel: Seq::empty(),
                store: self@.set.store,
            }),
            view.spec_headers() == header_ext@.nodes,
    {
        UTXOView::new(
            &self.output_i_pmmr,
            &self.output_ii_pmmr,
            header_ext.pmmr(),
            &self.batch,
        )
    }
}

} // verus!
