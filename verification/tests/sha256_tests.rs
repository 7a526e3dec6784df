use kimchi_prover::{FieldElement, Sha256Gadget, Sha256Witness};
use sha2::{Digest, Sha256};

#[test]
fn test_sha256_witness_empty() {
    let mut witness = Sha256Witness::new();
    let result = witness.compute(b"");

    let mut hasher = Sha256::new();
    hasher.update(b"");
    let expected: [u8; 32] = hasher.finalize().into();

    assert_eq!(result, expected);
}

#[test]
fn test_sha256_witness_abc() {
    let mut witness = Sha256Witness::new();
    let result = witness.compute(b"abc");

    let mut hasher = Sha256::new();
    hasher.update(b"abc");
    let expected: [u8; 32] = hasher.finalize().into();

    assert_eq!(result, expected);
}

#[test]
fn test_sha256_abc_exact_digest() {
    let mut witness = Sha256Witness::new();
    let result = witness.compute(b"abc");
    let expected: [u8; 32] = [
        0xba, 0x78, 0x16, 0xbf, 0x8f, 0x01, 0xcf, 0xea, 0x41, 0x41, 0x40, 0xde, 0x5d, 0xae, 0x22,
        0x23, 0xb0, 0x03, 0x61, 0xa3, 0x96, 0x17, 0x7a, 0x9c, 0xb4, 0x10, 0xff, 0x61, 0xf2, 0x00,
        0x15, 0xad,
    ];
    assert_eq!(result, expected);
}

#[test]
fn test_sha256_witness_long_input() {
    let message = vec![0xAB_u8; 1000];
    let mut witness = Sha256Witness::new();
    let result = witness.compute(&message);

    let mut hasher = Sha256::new();
    hasher.update(&message);
    let expected: [u8; 32] = hasher.finalize().into();

    assert_eq!(result, expected);
}

#[test]
fn test_sha256_hash_words() {
    let mut witness = Sha256Witness::new();
    witness.compute(b"abc");
    let words = witness.get_hash_words();
    assert_eq!(words[0], FieldElement { value: 0xba7816bf });
    assert_eq!(words[7], FieldElement { value: 0xf20015ad });
}

#[test]
fn test_pad_message_shape() {
    let padded = Sha256Witness::pad_message(b"abc");
    assert_eq!(padded.len(), 64);
    assert_eq!(padded[0], b'a');
    assert_eq!(padded[3], 0x80);
    assert_eq!(padded[62], 0x00);
    assert_eq!(padded[63], 24);

    let padded = Sha256Witness::pad_message(&[0u8; 56]);
    assert_eq!(padded.len(), 128);
}

#[test]
fn test_sha256_gadget_row_formulas() {
    let mut gadget = Sha256Gadget::new(0);
    gadget.decompose_word();
    assert_eq!(gadget.current_row(), 39);
    gadget.add_mod32();
    assert_eq!(gadget.current_row(), 42);
    gadget.xor_words();
    assert_eq!(gadget.current_row(), 42 + 64);
    gadget.and_words();
    assert_eq!(gadget.current_row(), 106 + 32);
    gadget.not_word();
    assert_eq!(gadget.current_row(), 138 + 32);
    gadget.ch();
    assert_eq!(gadget.current_row(), 170 + 160);
    gadget.maj();
    assert_eq!(gadget.current_row(), 330 + 224);
    gadget.sigma0();
    assert_eq!(gadget.current_row(), 554 + 128);
    gadget.small_sigma1();
    assert_eq!(gadget.current_row(), 682 + 128);
    gadget.compression_round();
    assert_eq!(gadget.current_row(), 810 + 661);
}

#[test]
fn test_sha256_block_row_formula() {
    let mut gadget = Sha256Gadget::new(0);
    gadget.message_schedule();
    assert_eq!(gadget.current_row(), 12720);
    let mut gadget = Sha256Gadget::new(0);
    gadget.sha256_block();
    assert_eq!(gadget.current_row(), 55048);
}

#[test]
fn test_hash_message_block_count() {
    // Up to 55 message bytes fit in one padded block.
    let mut gadget = Sha256Gadget::new(0);
    gadget.hash_message(55);
    assert_eq!(gadget.current_row(), 55048);
    // 56 bytes push the length field into a second block.
    let mut gadget = Sha256Gadget::new(0);
    gadget.hash_message(56);
    assert_eq!(gadget.current_row(), 2 * 55048);
    let (gates, rows) = {
        let mut g = Sha256Gadget::new(7);
        g.hash_message(0);
        g.build()
    };
    assert_eq!(gates.len(), 55048);
    assert_eq!(rows, 7 + 55048);
}
