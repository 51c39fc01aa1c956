//! The records that the chain state stores and exchanges.

use crate::error::Error;
use crate::hash::{self, push_bytes, push_u64_be, spec_u64_be};
use vstd::prelude::*;

verus! {

/// A Pedersen commitment: 33 bytes that identify an output or a kernel.
#[derive(Clone, Copy, Debug)]
pub struct Commitment {
    pub bytes: [u8; 33],
}

impl Commitment {
    /// Whether the two commitments hold the same bytes.
    pub fn same(&self, other: &Commitment) -> (r: bool)
        ensures
            r == (*self == *other),
    {
        let mut i: usize = 0;
        while i < 33
            invariant
                i <= 33,
                forall|j: int| 0 <= j < i ==> self.bytes[j] == other.bytes[j],
            decreases 33 - i,
        {
            if self.bytes[i] != other.bytes[i] {
                return false;
            }
            i += 1;
        }
        assert(self.bytes =~= other.bytes);
        true
    }
}

impl PartialEq for Commitment {
    fn eq(&self, other: &Commitment) -> (r: bool) {
        self.same(other)
    }
}

impl vstd::std_specs::cmp::PartialEqSpecImpl for Commitment {
    open spec fn obeys_eq_spec() -> bool {
        true
    }

    open spec fn eq_spec(&self, other: &Commitment) -> bool {
        *self == *other
    }
}

impl Eq for Commitment {

}

/// What kind of output a record is. Plain and coinbase outputs share one
/// MMR, signature-locked outputs have their own.
#[derive(Clone, Copy, Debug, PartialEq, Eq, Structural)]
pub enum OutputFeatures {
    Plain,
    Coinbase,
    SigLocked,
}

impl OutputFeatures {
    /// The byte that stands for the feature in serialized records.
    pub open spec fn spec_flag(self) -> u8 {
        match self {
            OutputFeatures::Plain => 0,
            OutputFeatures::Coinbase => 1,
            OutputFeatures::SigLocked => 2,
        }
    }

    /// The byte that stands for the feature in serialized records.
    pub fn flag(self) -> (b: u8)
        ensures
            b == self.spec_flag(),
    {
        match self {
            OutputFeatures::Plain => 0,
            OutputFeatures::Coinbase => 1,
            OutputFeatures::SigLocked => 2,
        }
    }

    /// Whether outputs of this kind live in the signature-locked MMR.
    pub open spec fn spec_is_siglocked(self) -> bool {
        self == OutputFeatures::SigLocked
    }

    /// Whether outputs of this kind live in the signature-locked MMR.
    pub fn is_siglocked(self) -> (r: bool)
        ensures
            r == self.spec_is_siglocked(),
    {
        match self {
            OutputFeatures::SigLocked => true,
            _ => false,
        }
    }
}

/// Something that can be stored as a leaf of an MMR: it has a fixed byte
/// form, over which its leaf hash is taken.
pub trait PMMRable: Copy {
    /// The bytes of the element.
    spec fn spec_bytes(&self) -> Seq<u8>;

    fn to_bytes(&self) -> (out: Vec<u8>)
        ensures
            out@ == self.spec_bytes(),
    ;
}

/// The record of an output in an MMR: an element that names the output it
/// stands for.
pub trait OutputRecord: PMMRable {
    /// The features and commitment of the output.
    spec fn spec_id(&self) -> OutputIdentifier;

    fn id(&self) -> (id: OutputIdentifier)
        ensures
            id == self.spec_id(),
    ;
}

/// The features and commitment that identify an output.
#[derive(Clone, Copy, Debug, PartialEq, Eq)]
pub struct OutputIdentifier {
    pub features: OutputFeatures,
    pub commit: Commitment,
}

impl OutputIdentifier {
    /// The bytes of the identifier: the flag of the features, then the
    /// commitment.
    pub open spec fn spec_bytes(&self) -> Seq<u8> {
        seq![self.features.spec_flag()] + self.commit.bytes@
    }

    fn write(&self, out: &mut Vec<u8>)
        ensures
            final(out)@ == old(out)@ + self.spec_bytes(),
    {
        out.push(self.features.flag());
        push_bytes(out, self.commit.bytes.as_slice());
        assert(out@ =~= old(out)@ + self.spec_bytes());
    }

    /// The commitment of the output.
    pub fn commitment(&self) -> (c: Commitment)
        ensures
            c == self.commit,
    {
        self.commit
    }
}

/// An output as a block carries it.
#[derive(Clone, Copy, Debug, PartialEq, Eq)]
pub struct Output {
    pub features: OutputFeatures,
    pub commit: Commitment,
    pub value: u64,
}

impl Output {
    /// The commitment of the output.
    pub fn commitment(&self) -> (c: Commitment)
        ensures
            c == self.commit,
    {
        self.commit
    }
}

/// An input of a block: the output that it spends.
#[derive(Clone, Copy, Debug, PartialEq, Eq)]
pub struct Input {
    pub features: OutputFeatures,
    pub commit: Commitment,
}

impl Input {
    /// The commitment of the output that the input spends.
    pub fn commitment(&self) -> (c: Commitment)
        ensures
            c == self.commit,
    {
        self.commit
    }
}

/// The record of a plain or coinbase output in its MMR.
#[derive(Clone, Copy, Debug, PartialEq, Eq)]
pub struct OutputI {
    pub id: OutputIdentifier,
    pub value: u64,
}

/// The record of a signature-locked output in its MMR.
#[derive(Clone, Copy, Debug, PartialEq, Eq)]
pub struct OutputII {
    pub id: OutputIdentifier,
    pub value: u64,
}

impl OutputI {
    /// The record of `out`, which must be plain or coinbase.
    pub fn from_output(out: &Output) -> (r: Result<OutputI, Error>)
        ensures
            out.features.spec_is_siglocked() ==> r is Err,
            !out.features.spec_is_siglocked() ==> r == Ok::<OutputI, Error>(
                OutputI {
                    id: OutputIdentifier { features: out.features, commit: out.commit },
                    value: out.value,
                },
            ),
    {
        if out.features.is_siglocked() {
            Err(Error::Other("not a plain or coinbase output".to_string()))
        } else {
            Ok(
                OutputI {
                    id: OutputIdentifier { features: out.features, commit: out.commit },
                    value: out.value,
                },
            )
        }
    }

    /// The output that the record stands for.
    pub fn into_output(self) -> (out: Output)
        ensures
            out == (Output { features: self.id.features, commit: self.id.commit, value: self.value }),
    {
        Output { features: self.id.features, commit: self.id.commit, value: self.value }
    }
}

impl OutputII {
    /// The record of `out`, which must be signature-locked.
    pub fn from_output(out: &Output) -> (r: Result<OutputII, Error>)
        ensures
            !out.features.spec_is_siglocked() ==> r is Err,
            out.features.spec_is_siglocked() ==> r == Ok::<OutputII, Error>(
                OutputII {
                    id: OutputIdentifier { features: out.features, commit: out.commit },
                    value: out.value,
                },
            ),
    {
        if out.features.is_siglocked() {
            Ok(
                OutputII {
                    id: OutputIdentifier { features: out.features, commit: out.commit },
                    value: out.value,
                },
            )
        } else {
            Err(Error::Other("not a signature-locked output".to_string()))
        }
    }

    /// The output that the record stands for.
    pub fn into_output(self) -> (out: Output)
        ensures
            out == (Output { features: self.id.features, commit: self.id.commit, value: self.value }),
    {
        Output { features: self.id.features, commit: self.id.commit, value: self.value }
    }
}

impl OutputRecord for OutputI {
    open spec fn spec_id(&self) -> OutputIdentifier {
        self.id
    }

    fn id(&self) -> (id: OutputIdentifier) {
        self.id
    }
}

impl OutputRecord for OutputII {
    open spec fn spec_id(&self) -> OutputIdentifier {
        self.id
    }

    fn id(&self) -> (id: OutputIdentifier) {
        self.id
    }
}

impl PMMRable for OutputI {
    open spec fn spec_bytes(&self) -> Seq<u8> {
        self.id.spec_bytes() + spec_u64_be(self.value)
    }

    fn to_bytes(&self) -> (out: Vec<u8>) {
        let mut out: Vec<u8> = Vec::new();
        self.id.write(&mut out);
        push_u64_be(&mut out, self.value);
        assert(out@ =~= self.spec_bytes());
        out
    }
}

impl PMMRable for OutputII {
    open spec fn spec_bytes(&self) -> Seq<u8> {
        self.id.spec_bytes() + spec_u64_be(self.value)
    }

    fn to_bytes(&self) -> (out: Vec<u8>) {
        let mut out: Vec<u8> = Vec::new();
        self.id.write(&mut out);
        push_u64_be(&mut out, self.value);
        assert(out@ =~= self.spec_bytes());
        out
    }
}

/// A transaction kernel. It is known by its excess commitment.
#[derive(Clone, Copy, Debug, PartialEq, Eq)]
pub struct TxKernel {
    pub fee: u64,
    pub lock_height: u64,
    pub excess: Commitment,
    pub excess_sig: [u8; 64],
}

impl TxKernel {
    /// The excess commitment of the kernel.
    pub fn excess(&self) -> (c: Commitment)
        ensures
            c == self.excess,
    {
        self.excess
    }
}

impl PMMRable for TxKernel {
    open spec fn spec_bytes(&self) -> Seq<u8> {
        spec_u64_be(self.fee) + spec_u64_be(self.lock_height) + self.excess.bytes@
            + self.excess_sig@
    }

    fn to_bytes(&self) -> (out: Vec<u8>) {
        let mut out: Vec<u8> = Vec::new();
        push_u64_be(&mut out, self.fee);
        push_u64_be(&mut out, self.lock_height);
        push_bytes(&mut out, self.excess.bytes.as_slice());
        push_bytes(&mut out, self.excess_sig.as_slice());
        assert(out@ =~= self.spec_bytes());
        out
    }
}

/// A block header, as far as the chain state reads it.
#[derive(Clone, Copy, Debug, PartialEq, Eq)]
pub struct BlockHeader {
    /// Height of the block; the genesis block has height 0.
    pub height: u64,
    /// Hash of the header, by which the store knows it.
    pub hash: hash::Hash,
    /// Hash of the header before this one.
    pub prev_hash: hash::Hash,
    /// Root of the header MMR before this header was added.
    pub prev_root: hash::Hash,
    pub output_i_root: hash::Hash,
    pub output_ii_root: hash::Hash,
    pub kernel_root: hash::Hash,
    pub output_i_mmr_size: u64,
    pub output_ii_mmr_size: u64,
    pub kernel_mmr_size: u64,
    /// Total coins issued up to and including this block, less fees burnt.
    pub total_overage: i64,
}

impl BlockHeader {
    /// The hash of the header.
    pub fn hash(&self) -> (h: hash::Hash)
        ensures
            h == self.hash,
    {
        self.hash
    }

    /// The three body roots that the header commits to.
    pub open spec fn spec_roots(&self) -> TxHashSetRoots {
        TxHashSetRoots {
            output_i_root: self.output_i_root,
            output_ii_root: self.output_ii_root,
            kernel_root: self.kernel_root,
        }
    }

    /// The three body MMR sizes that the header commits to.
    pub open spec fn spec_sizes(&self) -> (u64, u64, u64) {
        (self.output_i_mmr_size, self.output_ii_mmr_size, self.kernel_mmr_size)
    }
}

impl PMMRable for BlockHeader {
    open spec fn spec_bytes(&self) -> Seq<u8> {
        spec_u64_be(self.height) + self.hash.bytes@ + self.prev_hash.bytes@
    }

    fn to_bytes(&self) -> (out: Vec<u8>) {
        let mut out: Vec<u8> = Vec::new();
        push_u64_be(&mut out, self.height);
        push_bytes(&mut out, self.hash.bytes.as_slice());
        push_bytes(&mut out, self.prev_hash.bytes.as_slice());
        assert(out@ =~= self.spec_bytes());
        out
    }
}

/// A block: its header and what it spends, creates and commits to.
#[derive(Clone, Debug, PartialEq, Eq)]
pub struct Block {
    pub header: BlockHeader,
    pub inputs: Vec<Input>,
    pub outputs: Vec<Output>,
    pub kernels: Vec<TxKernel>,
}

/// The head of a chain: the last block and its height.
#[derive(Clone, Copy, Debug, PartialEq, Eq)]
pub struct Tip {
    pub height: u64,
    pub last_block_h: hash::Hash,
    pub prev_block_h: hash::Hash,
}

impl Tip {
    /// The tip at `header`.
    pub open spec fn spec_from_header(header: BlockHeader) -> Tip {
        Tip { height: header.height, last_block_h: header.hash, prev_block_h: header.prev_hash }
    }

    /// The tip at `header`.
    pub fn from_header(header: &BlockHeader) -> (tip: Tip)
        ensures
            tip == Self::spec_from_header(*header),
    {
        Tip { height: header.height, last_block_h: header.hash, prev_block_h: header.prev_hash }
    }

    /// The hash of the block at the tip.
    pub fn hash(&self) -> (h: hash::Hash)
        ensures
            h == self.last_block_h,
    {
        self.last_block_h
    }
}

/// What the index stores for a commitment: the kind of the output, its
/// position in its MMR, and the height of the block that created it.
#[derive(Clone, Copy, Debug, PartialEq, Eq)]
pub struct OutputFeaturePosHeight {
    pub features: OutputFeatures,
    pub position: u64,
    pub height: u64,
}

/// Where an unspent output lives.
#[derive(Clone, Copy, Debug, PartialEq, Eq)]
pub struct OutputMMRPosition {
    pub output_mmr_hash: hash::Hash,
    pub position: u64,
    pub height: u64,
    pub features: OutputFeatures,
}

/// The roots of the three body MMRs.
#[derive(Clone, Copy, Debug, PartialEq, Eq)]
pub struct TxHashSetRoots {
    pub output_i_root: hash::Hash,
    pub output_ii_root: hash::Hash,
    pub kernel_root: hash::Hash,
}

impl TxHashSetRoots {
    /// Whether the two hold the same three roots.
    pub fn same(&self, other: &TxHashSetRoots) -> (r: bool)
        ensures
            r == (*self == *other),
    {
        self.output_i_root.same(&other.output_i_root) && self.output_ii_root.same(
            &other.output_ii_root,
        ) && self.kernel_root.same(&other.kernel_root)
    }
}

} // verus!
