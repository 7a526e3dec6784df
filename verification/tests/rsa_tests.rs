use kimchi_prover::{RsaGadget, RSA_EXPONENT, RSA_LIMBS};
use kimchi_prover::rsa::RsaWitness;
use num_bigint::BigUint;

#[test]
fn test_bytes_to_limbs_roundtrip() {
    let mut bytes = [0u8; 256];
    bytes[0] = 0x12;
    bytes[255] = 0x34;

    let limbs = RsaWitness::bytes_to_limbs(&bytes);
    let recovered = RsaWitness::limbs_to_bytes(&limbs);

    assert_eq!(bytes, recovered);
}

#[test]
fn test_limb_order() {
    let mut bytes = [0u8; 256];
    bytes[0] = 0x12;
    bytes[255] = 0x34;
    let limbs = RsaWitness::bytes_to_limbs(&bytes);
    assert_eq!(limbs[0], 0x12u64 << 56);
    assert_eq!(limbs[31], 0x34);
}

#[test]
fn rsa_test_gadget_construction() {
    let mut gadget = RsaGadget::new(0);
    gadget.rsa_verify();
    let (gates, rows) = gadget.build();

    assert!(!gates.is_empty());
    assert!(rows > 0);
}

#[test]
fn test_rsa_row_formulas() {
    let mut gadget = RsaGadget::new(0);
    gadget.range_check_limb();
    assert_eq!(gadget.current_row(), 72);
    gadget.limb_mul();
    assert_eq!(gadget.current_row(), 72 + 146);
    gadget.limb_add_with_carry();
    assert_eq!(gadget.current_row(), 218 + 4);
    gadget.bigint_sub();
    assert_eq!(gadget.current_row(), 222 + 64);
    gadget.bigint_less_than();
    assert_eq!(gadget.current_row(), 286 + 65);
    gadget.bigint_equal();
    assert_eq!(gadget.current_row(), 351 + 32);
    gadget.verify_pkcs1_padding();
    assert_eq!(gadget.current_row(), 383 + 30);
}

#[test]
fn test_bigint_mul_row_formula() {
    let mut gadget = RsaGadget::new(0);
    gadget.bigint_mul();
    assert_eq!(gadget.current_row(), 157568);
}

#[test]
fn test_compute_modexp_matches_bigint() {
    let mut sig = [0u8; 256];
    sig[255] = 3;
    let modulus = [0xFFu8; 256];
    let hash = [0u8; 32];

    let mut w = RsaWitness::from_bytes(&sig, &modulus, &hash);
    let result = w.compute_modexp();
    let result_bytes = RsaWitness::limbs_to_bytes(&result);

    let n = BigUint::from_bytes_be(&modulus);
    let expected = BigUint::from(3u32).modpow(&BigUint::from(RSA_EXPONENT), &n);
    assert_eq!(BigUint::from_bytes_be(&result_bytes), expected);
    assert_ne!(result_bytes.to_vec(), sig.to_vec());
}

#[test]
fn test_intermediates_ladder() {
    let mut sig = [0u8; 256];
    sig[255] = 3;
    let modulus = [0xFFu8; 256];
    let hash = [0u8; 32];

    let mut w = RsaWitness::from_bytes(&sig, &modulus, &hash);
    w.compute_modexp();
    assert_eq!(w.intermediates.len(), 18);
    assert_eq!(w.intermediates[0], w.signature);

    let n = BigUint::from_bytes_be(&modulus);
    let three = BigUint::from(3u32);
    // First squaring: 3^2 mod n.
    let step1 = RsaWitness::limbs_to_bytes(&w.intermediates[1]);
    assert_eq!(BigUint::from_bytes_be(&step1), (&three * &three) % &n);
    // Final entry is the full exponentiation.
    let last = RsaWitness::limbs_to_bytes(&w.intermediates[17]);
    assert_eq!(
        BigUint::from_bytes_be(&last),
        three.modpow(&BigUint::from(65537u32), &n)
    );
    assert_eq!(RSA_LIMBS, 32);
}

#[test]
fn test_verify_rejects_bad_structure() {
    // signature = 1 decrypts to 1, whose second byte is not 0x01.
    let mut sig = [0u8; 256];
    sig[255] = 1;
    let modulus = [0xFFu8; 256];
    let hash = [0u8; 32];
    let mut w = RsaWitness::from_bytes(&sig, &modulus, &hash);
    assert!(!w.verify());
}

fn valid_block(hash: &[u8; 32]) -> [u8; 256] {
    let digest_info: [u8; 19] = [
        0x30, 0x31, 0x30, 0x0d, 0x06, 0x09, 0x60, 0x86, 0x48, 0x01, 0x65, 0x03, 0x04, 0x02, 0x01,
        0x05, 0x00, 0x04, 0x20,
    ];
    let mut db = [0xFFu8; 256];
    db[0] = 0x00;
    db[1] = 0x01;
    db[204] = 0x00;
    db[205..224].copy_from_slice(&digest_info);
    db[224..256].copy_from_slice(hash);
    db
}

#[test]
fn test_pkcs1_accepts_valid_block() {
    let hash = [0x5Au8; 32];
    let db = valid_block(&hash);
    assert!(RsaWitness::check_pkcs1_bytes(&db, &hash));
}

#[test]
fn test_pkcs1_rejects_bad_first_byte() {
    let hash = [0x5Au8; 32];
    let mut db = valid_block(&hash);
    db[0] = 0x01;
    assert!(!RsaWitness::check_pkcs1_bytes(&db, &hash));
}

#[test]
fn test_pkcs1_rejects_bad_second_byte() {
    let hash = [0x5Au8; 32];
    let mut db = valid_block(&hash);
    db[1] = 0x02;
    assert!(!RsaWitness::check_pkcs1_bytes(&db, &hash));
}

#[test]
fn test_pkcs1_rejects_bad_padding_byte() {
    let hash = [0x5Au8; 32];
    let mut db = valid_block(&hash);
    db[50] = 0xAB;
    assert!(!RsaWitness::check_pkcs1_bytes(&db, &hash));
}

#[test]
fn test_pkcs1_rejects_early_separator() {
    let hash = [0x5Au8; 32];
    let mut db = valid_block(&hash);
    // A separator before index 10 violates the minimum padding length.
    db[5] = 0x00;
    assert!(!RsaWitness::check_pkcs1_bytes(&db, &hash));
}

#[test]
fn test_pkcs1_rejects_bad_digest_info() {
    let hash = [0x5Au8; 32];
    let mut db = valid_block(&hash);
    db[205] = 0x31;
    assert!(!RsaWitness::check_pkcs1_bytes(&db, &hash));
}

#[test]
fn test_pkcs1_rejects_wrong_hash() {
    let hash = [0x5Au8; 32];
    let db = valid_block(&hash);
    let mut other = hash;
    other[31] = 0x5B;
    assert!(!RsaWitness::check_pkcs1_bytes(&db, &other));
}

#[test]
fn test_pkcs1_rejects_missing_separator() {
    let hash = [0x5Au8; 32];
    let mut db = valid_block(&hash);
    // Overwrite the separator with another padding byte: the scan then
    // runs past the point where the digest would fit.
    db[204] = 0xFF;
    assert!(!RsaWitness::check_pkcs1_bytes(&db, &hash));
}
