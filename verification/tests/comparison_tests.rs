use kimchi_prover::{ComparisonGadget, ComparisonWitness, FieldElement};

#[test]
fn test_compute_age() {
    assert_eq!(ComparisonWitness::compute_age(1990, 1, 15, 2024, 2, 1), 34);
    assert_eq!(ComparisonWitness::compute_age(1990, 1, 15, 2024, 1, 14), 33);
    assert_eq!(ComparisonWitness::compute_age(1990, 1, 15, 2024, 1, 15), 34);
}

#[test]
fn test_parse_mrz_date() {
    assert_eq!(
        ComparisonWitness::parse_mrz_date("900115"),
        Some((1990, 1, 15))
    );
    assert_eq!(
        ComparisonWitness::parse_mrz_date("050620"),
        Some((2005, 6, 20))
    );
}

#[test]
fn comparison_test_gadget_construction() {
    let mut gadget = ComparisonGadget::new(0);
    gadget.age_check(18);
    let (gates, rows) = gadget.build();

    assert!(!gates.is_empty());
    println!("Age check gates: {}, rows: {}", gates.len(), rows);
}

#[test]
fn test_parse_mrz_date_malformed() {
    assert_eq!(ComparisonWitness::parse_mrz_date(""), None);
    assert_eq!(ComparisonWitness::parse_mrz_date("12345"), None);
    assert_eq!(ComparisonWitness::parse_mrz_date("1234567"), None);
    assert_eq!(ComparisonWitness::parse_mrz_date("12a456"), None);
    assert_eq!(ComparisonWitness::parse_mrz_date("+50620"), None);
}

#[test]
fn test_parse_mrz_date_pivot() {
    assert_eq!(
        ComparisonWitness::parse_mrz_date("290101"),
        Some((2029, 1, 1))
    );
    assert_eq!(
        ComparisonWitness::parse_mrz_date("300101"),
        Some((1930, 1, 1))
    );
}

#[test]
fn test_comparison_row_formulas() {
    let mut gadget = ComparisonGadget::new(0);
    gadget.equal();
    assert_eq!(gadget.current_row(), 1);
    gadget.range_check(7);
    assert_eq!(gadget.current_row(), 1 + 7 + 3);
    gadget.greater_or_equal(8);
    assert_eq!(gadget.current_row(), 11 + 1 + 8 + 3);
    gadget.age_check(18);
    assert_eq!(gadget.current_row(), 23 + 16);
}

#[test]
fn test_decompose_for_range_check() {
    let bits = ComparisonWitness::decompose_for_range_check(0b1011, 7);
    assert_eq!(bits.len(), 7);
    assert_eq!(bits[0], FieldElement { value: 1 });
    assert_eq!(bits[1], FieldElement { value: 1 });
    assert_eq!(bits[2], FieldElement { value: 0 });
    assert_eq!(bits[3], FieldElement { value: 1 });
    assert_eq!(bits[4], FieldElement { value: 0 });
}
