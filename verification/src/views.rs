//! Read-only views of the chain state for those who validate against it.

use crate::backend::{rewind_size, spec_rewind, spec_root, Node, PMMR};
use crate::bitmap::bitmap_new;
use crate::error::{Error, ErrorKind};
use crate::store::{Batch, StoreView};
use crate::txhashset::{check_leaf, LeafCheck, TxHashSetView};
use crate::types::{BlockHeader, Input, OutputI, OutputII, TxKernel};
use vstd::prelude::*;

verus! {

/// A read-only view of the unspent outputs: the two output MMRs, the
/// header MMR and a batch.
pub struct UTXOView<'a> {
    output_i_pmmr: &'a PMMR<OutputI, true>,
    output_ii_pmmr: &'a PMMR<OutputII, true>,
    header_pmmr: &'a PMMR<BlockHeader, false>,
    batch: &'a Batch,
}

impl<'a> UTXOView<'a> {
    /// The output MMRs and the batch, as values. The view has no kernels.
    pub closed spec fn view(&self) -> TxHashSetView {
        TxHashSetView {
            output_i: self.output_i_pmmr@,
            output_ii: self.output_ii_pmmr@,
            kernel: Seq::empty(),
            store: self.batch@,
        }
    }

    /// The nodes of the header MMR.
    pub closed spec fn spec_headers(&self) -> Seq<Node<BlockHeader>> {
        self.header_pmmr@
    }

    /// The view over the given MMRs and batch.
    pub fn new(
        output_i_pmmr: &'a PMMR<OutputI, true>,
        output_ii_pmmr: &'a PMMR<OutputII, true>,
        header_pmmr: &'a PMMR<BlockHeader, false>,
        batch: &'a Batch,
    ) -> (view: Self)
        ensures
            view@ == (TxHashSetView {
                output_i: output_i_pmmr@,
                output_ii: output_ii_pmmr@,
                kernel: Seq::empty(),
                store: batch@,
            }),
            view.spec_headers() == header_pmmr@,
    {
        UTXOView { output_i_pmmr, output_ii_pmmr, header_pmmr, batch }
    }

    /// The batch of the view.
    pub fn batch(&self) -> (b: &Batch)
        ensures
            b@ == self@.store,
    {
        self.batch
    }

    /// The header MMR of the view.
    pub fn header_pmmr(&self) -> (r: &PMMR<BlockHeader, false>)
        ensures
            r@ == self.spec_headers(),
    {
        self.header_pmmr
    }

    /// Checks that the output that `input` names can be spent: the index
    /// has it, and the leaf that the index names lives, with its hash and
    /// with the commitment. Anything else is `AlreadySpent`.
    pub fn validate_input(&self, input: &Input) -> (r: Result<(), Error>)
        ensures
            match r {
                Ok(()) => self@.is_unspent(input.commit) is Ok,
                Err(e) => self@.is_unspent(input.commit) is Err && e.spec_kind()
                    == ErrorKind::AlreadySpent(input.commit),
            },
    {
        let commit = input.commitment();
        if let Ok(entry) = self.batch.get_output_pos_height(&commit) {
            let check = if entry.features.is_siglocked() {
                check_leaf(self.output_ii_pmmr, entry.position, &commit)
            } else {
                check_leaf(self.output_i_pmmr, entry.position, &commit)
            };
            if let LeafCheck::Found(_, _) = check {
                return Ok(());
            }
        }
        Err(Error::AlreadySpent(commit))
    }
}

/// A kernel view, as values.
pub struct KernelViewState {
    /// The nodes of the kernel MMR, as the view sees them.
    pub nodes: Seq<Node<TxKernel>>,
    /// The header to which the view has been rewound.
    pub header: BlockHeader,
    /// The batch of the view.
    pub batch: StoreView,
}

impl KernelViewState {
    /// The view after a rewind to `header`, or `TxHashSetErr` where the
    /// MMR does not reach that far.
    pub open spec fn rewind(self, header: BlockHeader) -> Result<KernelViewState, ErrorKind> {
        if rewind_size(header.kernel_mmr_size) > self.nodes.len() {
            Err(ErrorKind::TxHashSetErr)
        } else {
            Ok(
                KernelViewState {
                    nodes: spec_rewind(self.nodes, header.kernel_mmr_size, Set::empty()),
                    header,
                    ..self
                },
            )
        }
    }

    /// Whether the root of the kernel MMR is the one in the header.
    pub open spec fn validate_root(self) -> Result<(), ErrorKind> {
        if spec_root(self.nodes) == self.header.kernel_root {
            Ok(())
        } else {
            Err(ErrorKind::InvalidTxHashSet)
        }
    }
}

/// A view of the kernel MMR that can be rewound, and changes nothing: it
/// works on a copy.
pub struct RewindableKernelView {
    pmmr: PMMR<TxKernel, false>,
    batch: Batch,
    header: BlockHeader,
}

impl RewindableKernelView {
    /// The view, as values.
    pub closed spec fn view(&self) -> KernelViewState {
        KernelViewState { nodes: self.pmmr@, header: self.header, batch: self.batch@ }
    }

    /// The view over a copy of the kernel MMR, in `batch`, at `header`.
    pub fn new(pmmr: PMMR<TxKernel, false>, batch: Batch, header: BlockHeader) -> (view: Self)
        ensures
            view@ == (KernelViewState { nodes: pmmr@, header, batch: batch@ }),
    {
        RewindableKernelView { pmmr, batch, header }
    }

    /// The batch of the view.
    pub fn batch(&self) -> (b: &Batch)
        ensures
            b@ == self@.batch,
    {
        &self.batch
    }

    /// The header to which the view has been rewound.
    pub fn header(&self) -> (h: &BlockHeader)
        ensures
            *h == self@.header,
    {
        &self.header
    }

    /// Rewinds the kernel MMR of the view to `header`.
    pub fn rewind(&mut self, header: &BlockHeader) -> (r: Result<(), Error>)
        ensures
            match r {
                Ok(()) => old(self)@.rewind(*header) == Ok::<KernelViewState, ErrorKind>(
                    final(self)@,
                ),
                Err(e) => final(self)@ == old(self)@ && old(self)@.rewind(*header) == Err::<
                    KernelViewState,
                    ErrorKind,
                >(e.spec_kind()),
            },
    {
        match self.pmmr.rewind(header.kernel_mmr_size, &bitmap_new()) {
            Ok(()) => {},
            Err(e) => {
                return Err(Error::TxHashSetErr(e));
            },
        }
        // the header that was rewound to is the header of the view
        self.header = *header;
        Ok(())
    }

    /// Checks the root of the kernel MMR against the header of the view.
    pub fn validate_root(&self) -> (r: Result<(), Error>)
        ensures
            match r {
                Ok(()) => self@.validate_root() is Ok,
                Err(e) => self@.validate_root() == Err::<(), ErrorKind>(e.spec_kind()),
            },
    {
        let root = self.pmmr.root();
        if !root.same(&self.header.kernel_root) {
            return Err(Error::InvalidTxHashSet("kernel root does not match".to_string()));
        }
        Ok(())
    }
}

} // verus!
