use txhashset::hash::{push_bytes, push_u64_be};
use txhashset::types::{
    BlockHeader, Commitment, OutputFeatures, OutputI, OutputII, OutputIdentifier, PMMRable,
    TxKernel,
};

fn from_hex(text: &str) -> txhashset::hash::Hash {
    let mut bytes = [0u8; 32];
    for i in 0..32 {
        bytes[i] = u8::from_str_radix(&text[2 * i..2 * i + 2], 16).unwrap();
    }
    txhashset::hash::Hash { bytes }
}

#[test]
fn zero_hash_is_all_zero() {
    assert_eq!(txhashset::hash::Hash::zero().bytes, [0u8; 32]);
}

#[test]
fn hash_with_index_is_blake2b_of_index_and_data() {
    assert_eq!(
        txhashset::hash::Hash::with_index(0, &vec![]),
        from_hex("81e47a19e6b29b0a65b9591762ce5143ed30d0261e5d24a3201752506b20f15c")
    );
    assert_eq!(
        txhashset::hash::Hash::with_index(7, &vec![1, 2, 3]),
        from_hex("a840e3b49dc6fac2ba18db8a4c630d63c93c9775ec7c3a4f011fa4e1f26f8d52")
    );
}

#[test]
fn hash_with_index_agrees_with_the_digest_crate() {
    let data = vec![9u8, 8, 7, 6];
    let mut input = 300u64.to_be_bytes().to_vec();
    input.extend_from_slice(&data);
    let digest = blake2_rfc::blake2b::blake2b(32, &[], &input);
    assert_eq!(&txhashset::hash::Hash::with_index(300, &data).bytes[..], digest.as_bytes());
}

#[test]
fn hash_depends_on_index_and_data() {
    let a = txhashset::hash::Hash::with_index(1, &vec![1, 2, 3]);
    assert_ne!(a, txhashset::hash::Hash::with_index(2, &vec![1, 2, 3]));
    assert_ne!(a, txhashset::hash::Hash::with_index(1, &vec![1, 2, 4]));
    assert_eq!(a, txhashset::hash::Hash::with_index(1, &vec![1, 2, 3]));
}

#[test]
fn parent_hash_is_hash_of_both_children() {
    let left = from_hex("13c19d3d6d2637767e06cdea5f533379bbad085ab7a1905a0d61a63fda18cd14");
    let right = from_hex("9536a210f79953775e3ed25a01006a006206c09fa4b4ed1e7e5c46baa11d3364");
    assert_eq!(
        txhashset::hash::Hash::of_children(2, &left, &right),
        from_hex("a93272cc4ff4cdaa351bc5c2d779d4e9816d956319f6f44aac3c0b37490562e0")
    );
    assert_ne!(txhashset::hash::Hash::of_children(2, &left, &right), txhashset::hash::Hash::of_children(2, &right, &left));
}

#[test]
fn same_compares_all_bytes() {
    let a = txhashset::hash::Hash { bytes: [7u8; 32] };
    let mut other = [7u8; 32];
    assert!(a.same(&txhashset::hash::Hash { bytes: other }));
    other[31] = 8;
    assert!(!a.same(&txhashset::hash::Hash { bytes: other }));
    assert!(a != txhashset::hash::Hash { bytes: other });
}

#[test]
fn to_hex_writes_two_digits_a_byte() {
    let mut bytes = [0u8; 32];
    bytes[0] = 0x0a;
    bytes[1] = 0xff;
    bytes[31] = 0x10;
    let text = txhashset::hash::Hash { bytes }.to_hex();
    assert_eq!(text.len(), 64);
    assert_eq!(&text[..4], "0aff");
    assert_eq!(&text[62..], "10");
    assert_eq!(
        from_hex("81e47a19e6b29b0a65b9591762ce5143ed30d0261e5d24a3201752506b20f15c").to_hex(),
        "81e47a19e6b29b0a65b9591762ce5143ed30d0261e5d24a3201752506b20f15c"
    );
}

#[test]
fn push_u64_be_is_big_endian() {
    let mut out = vec![0xaa];
    push_u64_be(&mut out, 0x0102030405060708);
    assert_eq!(out, vec![0xaa, 1, 2, 3, 4, 5, 6, 7, 8]);
    let mut out = Vec::new();
    push_u64_be(&mut out, u64::MAX);
    assert_eq!(out, vec![0xff; 8]);
}

#[test]
fn push_bytes_appends() {
    let mut out = vec![1u8];
    push_bytes(&mut out, &[2, 3]);
    push_bytes(&mut out, &[]);
    assert_eq!(out, vec![1, 2, 3]);
}

#[test]
fn output_records_serialize_flag_commit_value() {
    let id = OutputIdentifier { features: OutputFeatures::Coinbase, commit: Commitment { bytes: [5; 33] } };
    let mut expected = vec![1u8];
    expected.extend_from_slice(&[5u8; 33]);
    expected.extend_from_slice(&[0, 0, 0, 0, 0, 0, 1, 0]);
    assert_eq!(OutputI { id, value: 256 }.to_bytes(), expected);
    let id = OutputIdentifier { features: OutputFeatures::SigLocked, commit: Commitment { bytes: [5; 33] } };
    expected[0] = 2;
    assert_eq!(OutputII { id, value: 256 }.to_bytes(), expected);
}

#[test]
fn kernel_and_header_serialize_their_fields() {
    let kernel = TxKernel { fee: 1, lock_height: 2, excess: Commitment { bytes: [3; 33] }, excess_sig: [4; 64] };
    let bytes = kernel.to_bytes();
    assert_eq!(bytes.len(), 8 + 8 + 33 + 64);
    assert_eq!(&bytes[..16], &[0, 0, 0, 0, 0, 0, 0, 1, 0, 0, 0, 0, 0, 0, 0, 2]);
    assert_eq!(&bytes[16..49], &[3u8; 33]);
    assert_eq!(&bytes[49..], &[4u8; 64][..]);
    let header = BlockHeader {
        height: 3,
        hash: txhashset::hash::Hash { bytes: [1; 32] },
        prev_hash: txhashset::hash::Hash { bytes: [2; 32] },
        prev_root: txhashset::hash::Hash::zero(),
        output_i_root: txhashset::hash::Hash::zero(),
        output_ii_root: txhashset::hash::Hash::zero(),
        kernel_root: txhashset::hash::Hash::zero(),
        output_i_mmr_size: 0,
        output_ii_mmr_size: 0,
        kernel_mmr_size: 0,
        total_overage: 0,
    };
    let bytes = header.to_bytes();
    assert_eq!(bytes.len(), 8 + 32 + 32);
    assert_eq!(bytes[7], 3);
    assert_eq!(&bytes[8..40], &[1u8; 32]);
    assert_eq!(&bytes[40..], &[2u8; 32]);
}
