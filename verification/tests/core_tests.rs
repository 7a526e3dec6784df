use kimchi_prover::{
    FieldElement, Gate, GateKind, GateSequenceBuilder, KimchiError, ProverConfig, ProverError,
    PublicInput, Witness, WitnessData,
};

#[test]
fn test_field_element() {
    let fe = FieldElement::from_u64(12345);
    assert!(!fe.to_bytes().is_empty());
    assert_eq!(fe, FieldElement { value: 12345 });
    assert_eq!(FieldElement::zero(), FieldElement { value: 0 });
    assert_eq!(FieldElement::one(), FieldElement { value: 1 });
    assert_eq!(fe.neg(), FieldElement { value: -12345 });
}

#[test]
fn test_to_bytes_small() {
    let b = FieldElement::from_u64(0x0102).to_bytes();
    assert_eq!(b.len(), 32);
    assert_eq!(b[0], 0x02);
    assert_eq!(b[1], 0x01);
    for i in 2..32 {
        assert_eq!(b[i], 0);
    }
}

#[test]
fn test_to_bytes_minus_one() {
    // The canonical encoding of -1 is modulus - 1, little endian.
    let b = FieldElement { value: -1 }.to_bytes();
    let expected: Vec<u8> = vec![
        0x00, 0x00, 0x00, 0x00, 0xed, 0x30, 0x2d, 0x99, 0x1b, 0xf9, 0x4c, 0x09, 0xfc, 0x98, 0x46,
        0x22, 0x00, 0x00, 0x00, 0x00, 0x00, 0x00, 0x00, 0x00, 0x00, 0x00, 0x00, 0x00, 0x00, 0x00,
        0x00, 0x40,
    ];
    assert_eq!(b, expected);
}

#[test]
fn test_witness_data_hex() {
    let mut w = Witness::new();
    w.set(0, 0, FieldElement { value: 1 });
    let data = WitnessData::from_witness(&w);
    assert_eq!(data.columns.len(), 1);
    assert_eq!(data.columns[0].len(), 1);
    let mut expected = String::from("01");
    for _ in 0..31 {
        expected.push_str("00");
    }
    assert_eq!(data.columns[0][0], expected);
}

#[test]
fn test_builder_push() {
    let mut builder = GateSequenceBuilder::new(3);
    assert_eq!(builder.current_row(), 3);
    let row = builder.push(GateKind::Public);
    assert_eq!(row, 3);
    let (gates, next) = builder.build();
    assert_eq!(next, 4);
    assert_eq!(
        gates,
        vec![Gate { row: 3, kind: GateKind::Public }]
    );
}

#[test]
fn test_builder_push_repeated() {
    let mut builder = GateSequenceBuilder::new(0);
    builder.push_repeated(GateKind::Zero, 5);
    let (gates, next) = builder.build();
    assert_eq!(next, 5);
    assert_eq!(gates.len(), 5);
    for (i, g) in gates.iter().enumerate() {
        assert_eq!(g.row, i);
        assert_eq!(g.kind, GateKind::Zero);
    }
}

#[test]
fn test_public_input() {
    let mut pi = PublicInput::new();
    pi.push(FieldElement { value: -3 });
    pi.push_u64(9);
    assert_eq!(pi.values.len(), 2);
    assert_eq!(pi.values[0], FieldElement { value: -3 });
    assert_eq!(pi.values[1], FieldElement { value: 9 });
}

#[test]
fn test_witness_set_get() {
    let mut w = Witness::new();
    w.set(2, 3, FieldElement { value: 42 });
    assert_eq!(w.columns.len(), 3);
    assert_eq!(w.columns[2].len(), 4);
    assert_eq!(w.get(2, 3), Some(&FieldElement { value: 42 }));
    assert_eq!(w.get(2, 1), Some(&FieldElement { value: 0 }));
    assert_eq!(w.get(2, 4), None);
    assert_eq!(w.get(5, 0), None);
    w.set(2, 1, FieldElement { value: 7 });
    assert_eq!(w.get(2, 3), Some(&FieldElement { value: 42 }));
    assert_eq!(w.get(2, 1), Some(&FieldElement { value: 7 }));
}

#[test]
fn test_witness_with_columns() {
    let w = Witness::with_columns(4);
    assert_eq!(w.columns.len(), 4);
    assert!(w.columns[0].is_empty());
}

#[test]
fn test_prover_config_default() {
    let config = ProverConfig::default();
    assert_eq!(config.srs_log2_size, 14);
    assert!(!config.debug);
}

#[test]
fn test_error_messages() {
    let e = ProverError::SetupError(String::from("bad"));
    assert_eq!(e.message(), "Circuit setup failed: bad");
    let e = ProverError::WitnessError(String::from("oops"));
    assert_eq!(e.message(), "Witness generation failed: oops");
    let e = ProverError::ProvingError(String::from("p"));
    assert_eq!(e.message(), "Proof generation failed: p");
    let e = ProverError::VerificationError(String::from("v"));
    assert_eq!(e.message(), "Proof verification failed: v");
    let e = ProverError::InvalidInput(String::from("x"));
    assert_eq!(e.message(), "Invalid input: x");
    let e = ProverError::SerializationError(String::from("s"));
    assert_eq!(e.message(), "Serialization error: s");
    let e = ProverError::ConstraintError(String::from("c"));
    assert_eq!(e.message(), "Constraint system error: c");
    let e = ProverError::InternalError(String::from("i"));
    assert_eq!(e.message(), "Internal error: i");
}

#[test]
fn test_kimchi_error_messages() {
    let e = KimchiError::SetupError(String::from("a"));
    assert_eq!(e.message(), "Setup error: a");
    let e = KimchiError::ProvingError(String::from("b"));
    assert_eq!(e.message(), "Proving error: b");
    let e = KimchiError::VerificationError(String::from("c"));
    assert_eq!(e.message(), "Verification error: c");
    let e = KimchiError::SerializationError(String::from("d"));
    assert_eq!(e.message(), "Serialization error: d");
    let e = KimchiError::InvalidInput(String::from("e"));
    assert_eq!(e.message(), "Invalid input: e");
    let e = KimchiError::ProofNotFound(String::from("7"));
    assert_eq!(e.message(), "Proof not found: 7");
}
