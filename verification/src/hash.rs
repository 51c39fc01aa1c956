//! Hashes of MMR nodes: 32-byte BLAKE2b digests, each taken together with
//! the index of the node that it belongs to.

use vstd::prelude::*;

verus! {

/// A 32-byte digest.
#[derive(Clone, Copy, Debug)]
pub struct Hash {
    pub bytes: [u8; 32],
}

/// The unkeyed BLAKE2b digest of `data`, 32 bytes long.
pub uninterp spec fn blake2b_256(data: Seq<u8>) -> [u8; 32];

/// Calls `blake2_rfc::blake2b::blake2b` with an output length of 32 and an
/// empty key, and copies the digest out. The digest depends on the input
/// bytes alone; nothing else is claimed of it.
#[verifier::external_body]
fn blake2b_digest(data: &Vec<u8>) -> (digest: [u8; 32])
    ensures
        digest == blake2b_256(data@),
{
    let result = blake2_rfc::blake2b::blake2b(32, &[], data.as_slice());
    let mut digest = [0u8; 32];
    digest.copy_from_slice(result.as_bytes());
    digest
}

/// `String::push` appends the character to the end of the string.
pub assume_specification[ String::push ](s: &mut String, c: char)
    ensures
        final(s)@ == old(s)@.push(c),
;

/// `String::push_str` appends the string slice to the end of the string.
pub assume_specification[ String::push_str ](s: &mut String, tail: &str)
    ensures
        final(s)@ == old(s)@ + tail@,
;

/// The eight bytes of `x`, most significant first.
pub open spec fn spec_u64_be(x: u64) -> Seq<u8> {
    seq![
        ((x / 0x100_0000_0000_0000) % 256) as u8,
        ((x / 0x1_0000_0000_0000) % 256) as u8,
        ((x / 0x100_0000_0000) % 256) as u8,
        ((x / 0x1_0000_0000) % 256) as u8,
        ((x / 0x100_0000) % 256) as u8,
        ((x / 0x1_0000) % 256) as u8,
        ((x / 0x100) % 256) as u8,
        (x % 256) as u8,
    ]
}

/// The hash of `data`.
pub open spec fn hash_of(data: Seq<u8>) -> Hash {
    Hash { bytes: blake2b_256(data) }
}

/// The hash of `data` at node index `index`: the digest of the index, big
/// endian, followed by the data.
pub open spec fn hash_with_index(index: u64, data: Seq<u8>) -> Hash {
    hash_of(spec_u64_be(index) + data)
}

/// The hash of the parent node at index `index` over its two children.
pub open spec fn parent_hash(index: u64, left: Hash, right: Hash) -> Hash {
    hash_with_index(index, left.bytes@ + right.bytes@)
}

/// Appends the eight bytes of `x`, most significant first, to `out`.
pub fn push_u64_be(out: &mut Vec<u8>, x: u64)
    ensures
        final(out)@ == old(out)@ + spec_u64_be(x),
{
    out.push(((x / 0x100_0000_0000_0000) % 256) as u8);
    out.push(((x / 0x1_0000_0000_0000) % 256) as u8);
    out.push(((x / 0x100_0000_0000) % 256) as u8);
    out.push(((x / 0x1_0000_0000) % 256) as u8);
    out.push(((x / 0x100_0000) % 256) as u8);
    out.push(((x / 0x1_0000) % 256) as u8);
    out.push(((x / 0x100) % 256) as u8);
    out.push((x % 256) as u8);
    assert(out@ =~= old(out)@ + spec_u64_be(x));
}

/// Appends `bytes` to `out`.
pub fn push_bytes(out: &mut Vec<u8>, bytes: &[u8])
    ensures
        final(out)@ == old(out)@ + bytes@,
{
    let mut i: usize = 0;
    while i < bytes.len()
        invariant
            i <= bytes.len(),
            out@ == old(out)@ + bytes@.subrange(0, i as int),
        decreases bytes.len() - i,
    {
        out.push(bytes[i]);
        i += 1;
        assert(out@ =~= old(out)@ + bytes@.subrange(0, i as int));
    }
    assert(bytes@.subrange(0, i as int) =~= bytes@);
}

impl Hash {
    /// The hash whose bytes are all zero: the root of an empty MMR.
    pub fn zero() -> (h: Hash)
        ensures
            h == Self::spec_zero(),
    {
        let h = Hash { bytes: [0u8; 32] };
        assert(h.bytes =~= Self::spec_zero().bytes);
        h
    }

    /// The hash whose bytes are all zero.
    pub open spec fn spec_zero() -> Hash {
        Hash { bytes: [
            0u8, 0u8, 0u8, 0u8, 0u8, 0u8, 0u8, 0u8,
            0u8, 0u8, 0u8, 0u8, 0u8, 0u8, 0u8, 0u8,
            0u8, 0u8, 0u8, 0u8, 0u8, 0u8, 0u8, 0u8,
            0u8, 0u8, 0u8, 0u8, 0u8, 0u8, 0u8, 0u8,
        ] }
    }

    /// Hashes `data` at node index `index`.
    pub fn with_index(index: u64, data: &Vec<u8>) -> (h: Hash)
        ensures
            h == hash_with_index(index, data@),
    {
        let mut buf: Vec<u8> = Vec::new();
        push_u64_be(&mut buf, index);
        push_bytes(&mut buf, data.as_slice());
        assert(buf@ =~= spec_u64_be(index) + data@);
        Hash { bytes: blake2b_digest(&buf) }
    }

    /// Hashes the two children of the parent node at index `index`.
    pub fn of_children(index: u64, left: &Hash, right: &Hash) -> (h: Hash)
        ensures
            h == parent_hash(index, *left, *right),
    {
        let mut buf: Vec<u8> = Vec::new();
        push_u64_be(&mut buf, index);
        push_bytes(&mut buf, left.bytes.as_slice());
        push_bytes(&mut buf, right.bytes.as_slice());
        assert(buf@ =~= spec_u64_be(index) + (left.bytes@ + right.bytes@));
        Hash { bytes: blake2b_digest(&buf) }
    }

    /// Whether the two hashes hold the same bytes.
    pub fn same(&self, other: &Hash) -> (r: bool)
        ensures
            r == (*self == *other),
    {
        let mut i: usize = 0;
        while i < 32
            invariant
                i <= 32,
                forall|j: int| 0 <= j < i ==> self.bytes[j] == other.bytes[j],
            decreases 32 - i,
        {
            if self.bytes[i] != other.bytes[i] {
                return false;
            }
            i += 1;
        }
        assert(self.bytes =~= other.bytes);
        true
    }

    /// The hash in lower-case hexadecimal, two digits a byte.
    pub fn to_hex(&self) -> (s: String)
        ensures
            s@ == spec_hex(self.bytes@),
    {
        let mut s = String::new();
        let mut i: usize = 0;
        while i < 32
            invariant
                i <= 32,
                s@ == spec_hex(self.bytes@.subrange(0, i as int)),
            decreases 32 - i,
        {
            let b = self.bytes[i];
            s.push(hex_digit(b / 16));
            s.push(hex_digit(b % 16));
            proof {
                let prefix = self.bytes@.subrange(0, i as int + 1);
                assert(prefix.drop_last() =~= self.bytes@.subrange(0, i as int));
                assert(prefix.last() == b);
            }
            i += 1;
        }
        assert(self.bytes@.subrange(0, 32) =~= self.bytes@);
        s
    }
}

/// The hexadecimal digit of a value below sixteen.
pub open spec fn spec_hex_digit(d: u8) -> char {
    if d < 10 {
        ((48 + d) as u8) as char
    } else {
        ((87 + d) as u8) as char
    }
}

/// The hexadecimal text of a byte string.
pub open spec fn spec_hex(bytes: Seq<u8>) -> Seq<char>
    decreases bytes.len(),
{
    if bytes.len() == 0 {
        Seq::empty()
    } else {
        spec_hex(bytes.drop_last()).push(spec_hex_digit(bytes.last() / 16)).push(
            spec_hex_digit(bytes.last() % 16),
        )
    }
}

fn hex_digit(d: u8) -> (c: char)
    requires
        d < 16,
    ensures
        c == spec_hex_digit(d),
{
    if d < 10 {
        (48u8 + d) as char
    } else {
        (87u8 + d) as char
    }
}

impl PartialEq for Hash {
    fn eq(&self, other: &Hash) -> (r: bool) {
        self.same(other)
    }
}

impl vstd::std_specs::cmp::PartialEqSpecImpl for Hash {
    open spec fn obeys_eq_spec() -> bool {
        true
    }

    open spec fn eq_spec(&self, other: &Hash) -> bool {
        *self == *other
    }
}

impl Eq for Hash {

}

} // verus!
