use kimchi_prover::{FieldElement, GateKind, ThresholdCircuit, COLUMNS};

#[test]
fn test_threshold_circuit_creation() {
    let circuit = ThresholdCircuit::new(100);
    assert_eq!(circuit.threshold, 100);
    assert_eq!(circuit.num_public_inputs(), 2);
}

#[test]
fn test_gates_generation() {
    let circuit = ThresholdCircuit::new(100);
    let gates = circuit.gates();
    assert!(gates.len() >= 5);
}

#[test]
fn test_witness_below_threshold() {
    let circuit = ThresholdCircuit::new(100);
    let (witness, public_inputs) = circuit.generate_witness(50).unwrap();

    // Check public inputs.
    assert_eq!(public_inputs.len(), 2);
    assert_eq!(public_inputs[0], FieldElement { value: 100 }); // threshold
    assert_eq!(public_inputs[1], FieldElement { value: 1 }); // is_valid = true

    // Check witness has correct dimensions.
    assert_eq!(witness.columns.len(), COLUMNS);
    assert!(witness.columns[0].len() >= 5);
}

#[test]
fn test_witness_above_threshold() {
    let circuit = ThresholdCircuit::new(100);
    let (_, public_inputs) = circuit.generate_witness(150).unwrap();

    assert_eq!(public_inputs[1], FieldElement { value: 0 }); // is_valid = false
}

#[test]
fn test_witness_at_threshold() {
    let circuit = ThresholdCircuit::new(100);
    let (_, public_inputs) = circuit.generate_witness(100).unwrap();

    // value == threshold means NOT less than, so is_valid = false.
    assert_eq!(public_inputs[1], FieldElement { value: 0 });
}

#[test]
fn test_gate_layout() {
    let circuit = ThresholdCircuit::new(7);
    let gates = circuit.gates();
    assert_eq!(gates.len(), 8);
    for (i, gate) in gates.iter().enumerate() {
        assert_eq!(gate.row, i);
    }
    assert_eq!(gates[0].kind, GateKind::Public);
    assert_eq!(gates[1].kind, GateKind::Public);
    assert_eq!(gates[5].kind, GateKind::Zero);
    assert_eq!(gates[7].kind, GateKind::Zero);
}

#[test]
fn test_witness_cells() {
    let circuit = ThresholdCircuit::new(100);
    let (witness, _) = circuit.generate_witness(30).unwrap();
    // Row 3 carries threshold, value and their difference.
    assert_eq!(witness.columns[0][3], FieldElement { value: 100 });
    assert_eq!(witness.columns[1][3], FieldElement { value: 30 });
    assert_eq!(witness.columns[2][3], FieldElement { value: 70 });
    // Row 4 carries is_valid and its complement.
    assert_eq!(witness.columns[0][4], FieldElement { value: 1 });
    assert_eq!(witness.columns[1][4], FieldElement { value: 0 });
}
