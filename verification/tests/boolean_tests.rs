use kimchi_prover::{BooleanGadget, BooleanWitness, FieldElement};

#[test]
fn test_decompose_recompose() {
    let value = 0xDEADBEEF_u32;
    let bits = BooleanWitness::decompose_u32(value);
    let recovered = BooleanWitness::recompose_u32(&bits);
    assert_eq!(value, recovered);
}

#[test]
fn test_decompose_recompose_extremes() {
    for value in [0u32, 1, u32::MAX, 0x80000000] {
        let bits = BooleanWitness::decompose_u32(value);
        assert_eq!(BooleanWitness::recompose_u32(&bits), value);
    }
}

#[test]
fn test_xor_bits() {
    let a = BooleanWitness::decompose_u32(0xFF00FF00);
    let b = BooleanWitness::decompose_u32(0x0F0F0F0F);
    let result = BooleanWitness::xor_bits(&a, &b);
    let value = BooleanWitness::recompose_u32(&result);
    assert_eq!(value, 0xFF00FF00 ^ 0x0F0F0F0F);
}

#[test]
fn test_xor_bits_exact() {
    let a = BooleanWitness::decompose_u32(0xFF00FF00);
    let b = BooleanWitness::decompose_u32(0x0F0F0F0F);
    let result = BooleanWitness::xor_bits(&a, &b);
    assert_eq!(BooleanWitness::recompose_u32(&result), 0xF00FF00F);
}

#[test]
fn test_and_bits() {
    let a = BooleanWitness::decompose_u32(0xFF00FF00);
    let b = BooleanWitness::decompose_u32(0x0F0F0F0F);
    let result = BooleanWitness::and_bits(&a, &b);
    let value = BooleanWitness::recompose_u32(&result);
    assert_eq!(value, 0xFF00FF00 & 0x0F0F0F0F);
}

#[test]
fn test_and_bits_exact() {
    let a = BooleanWitness::decompose_u32(0xFF00FF00);
    let b = BooleanWitness::decompose_u32(0x0F0F0F0F);
    let result = BooleanWitness::and_bits(&a, &b);
    assert_eq!(BooleanWitness::recompose_u32(&result), 0x0F000F00);
}

#[test]
fn test_not_bits_exact() {
    let a = BooleanWitness::decompose_u32(0xFF00FF00);
    let result = BooleanWitness::not_bits(&a);
    assert_eq!(BooleanWitness::recompose_u32(&result), 0x00FF00FF);
}

#[test]
fn test_rotr() {
    let bits = BooleanWitness::decompose_u32(0x80000001);
    let rotated = BooleanWitness::rotr(&bits, 1);
    let value = BooleanWitness::recompose_u32(&rotated);
    assert_eq!(value, 0x80000001_u32.rotate_right(1));
}

#[test]
fn test_rotr_boundary_exact() {
    let bits = BooleanWitness::decompose_u32(0x80000001);
    let rotated = BooleanWitness::rotr(&bits, 1);
    assert_eq!(BooleanWitness::recompose_u32(&rotated), 0xC0000000);
}

#[test]
fn test_shr() {
    let bits = BooleanWitness::decompose_u32(0x80000001);
    let shifted = BooleanWitness::shr(&bits, 4);
    assert_eq!(BooleanWitness::recompose_u32(&shifted), 0x80000001_u32 >> 4);
}

#[test]
fn test_bits_are_field_elements() {
    let bits = BooleanWitness::decompose_u32(5);
    assert_eq!(bits[0], FieldElement { value: 1 });
    assert_eq!(bits[1], FieldElement { value: 0 });
    assert_eq!(bits[2], FieldElement { value: 1 });
}

#[test]
fn test_boolean_gadget_rows() {
    let mut gadget = BooleanGadget::new(0);
    gadget.boolean_constraint();
    assert_eq!(gadget.current_row(), 1);
    gadget.xor();
    assert_eq!(gadget.current_row(), 3);
    gadget.and();
    assert_eq!(gadget.current_row(), 4);
    gadget.not();
    assert_eq!(gadget.current_row(), 5);
    let (gates, rows) = gadget.build();
    assert_eq!(gates.len(), 5);
    assert_eq!(rows, 5);
}

#[test]
fn test_decompose_u32_row_formula() {
    let mut gadget = BooleanGadget::new(0);
    gadget.decompose_u32();
    assert_eq!(gadget.current_row(), 39);
    gadget.xor_u32();
    assert_eq!(gadget.current_row(), 39 + 64);
    gadget.and_u32();
    assert_eq!(gadget.current_row(), 39 + 64 + 32);
    gadget.not_u32();
    assert_eq!(gadget.current_row(), 39 + 64 + 32 + 32);
}

#[test]
fn test_gadget_row_offset() {
    let mut g1 = BooleanGadget::new(0);
    g1.decompose_u32();
    g1.xor();
    let (gates1, rows1) = g1.build();

    let mut g2 = BooleanGadget::new(100);
    g2.decompose_u32();
    g2.xor();
    let (gates2, rows2) = g2.build();

    assert_eq!(gates1.len(), gates2.len());
    assert_eq!(rows1 + 100, rows2);
    for i in 0..gates1.len() {
        assert_eq!(gates1[i].kind, gates2[i].kind);
        assert_eq!(gates1[i].row + 100, gates2[i].row);
    }
}
