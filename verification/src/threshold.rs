//! Threshold circuit: proves that a private value is less than a public
//! threshold.
//!
//! Public inputs: the threshold, and a validity bit that is 1 exactly when
//! the private value is below it.  Private input: the value itself.

use vstd::prelude::*;

use crate::error::ProverError;
use crate::field::{fe, FieldElement};
use crate::gate::{diff_kind, gate_eval, gate_satisfied, Gate, GateKind};
use crate::types::{Witness, COLUMNS};

verus! {

/// The threshold circuit's fixed gate sequence: public rows for the
/// threshold and the validity bit, a row carrying the private value, the
/// difference constraint `threshold - value - difference = 0`, the boolean
/// constraint `is_valid * (1 - is_valid) = 0`, and no-op padding up to the
/// system minimum of 8 rows.
pub open spec fn threshold_gates() -> Seq<Gate> {
    seq![
        Gate { row: 0, kind: GateKind::Public },
        Gate { row: 1, kind: GateKind::Public },
        Gate {
            row: 2,
            kind: GateKind::Add { left: fe(1), right: fe(0), output: fe(0), constant: fe(0) },
        },
        Gate { row: 3, kind: diff_kind() },
        Gate { row: 4, kind: GateKind::Mul { product: fe(1), output: fe(0) } },
        Gate { row: 5, kind: GateKind::Zero },
        Gate { row: 6, kind: GateKind::Zero },
        Gate { row: 7, kind: GateKind::Zero },
    ]
}

/// The value of each cell of the threshold circuit's witness table.
pub open spec fn threshold_witness_cell(threshold: u64, value: u64, c: int, r: int) -> FieldElement {
    let is_valid: int = if value < threshold {
        1
    } else {
        0
    };
    let difference: int = if value < threshold {
        threshold - value
    } else {
        0
    };
    if c == 0 && r == 0 {
        fe(threshold as int)
    } else if c == 0 && r == 1 {
        fe(is_valid)
    } else if c == 0 && r == 2 {
        fe(value as int)
    } else if c == 0 && r == 3 {
        fe(threshold as int)
    } else if c == 1 && r == 3 {
        fe(value as int)
    } else if c == 2 && r == 3 {
        fe(difference)
    } else if c == 0 && r == 4 {
        fe(is_valid)
    } else if c == 1 && r == 4 {
        fe(1 - is_valid)
    } else {
        fe(0)
    }
}

/// A circuit that proves a private value is below a public threshold.
pub struct ThresholdCircuit {
    /// The public threshold value.
    pub threshold: u64,
}

impl ThresholdCircuit {
    /// Create a new threshold circuit.
    pub fn new(threshold: u64) -> (r: Self)
        ensures
            r.threshold == threshold,
    {
        ThresholdCircuit { threshold }
    }

    /// The number of public inputs: the threshold and the validity bit.
    pub fn num_public_inputs(&self) -> (r: usize)
        ensures
            r == 2,
    {
        2
    }

    /// Generate the circuit's gates.
    pub fn gates(&self) -> (gates: Vec<Gate>)
        ensures
            gates@ == threshold_gates(),
    {
        let mut gates: Vec<Gate> = Vec::new();
        // Rows 0 and 1: public inputs for the threshold and the validity
        // bit.
        gates.push(Gate { row: 0, kind: GateKind::Public });
        gates.push(Gate { row: 1, kind: GateKind::Public });
        // Row 2: the private value.
        gates.push(
            Gate {
                row: 2,
                kind: GateKind::Add {
                    left: FieldElement { value: 1 },
                    right: FieldElement { value: 0 },
                    output: FieldElement { value: 0 },
                    constant: FieldElement { value: 0 },
                },
            },
        );
        // Row 3: threshold - value - difference = 0.
        gates.push(
            Gate {
                row: 3,
                kind: GateKind::Add {
                    left: FieldElement { value: 1 },
                    right: FieldElement { value: -1 },
                    output: FieldElement { value: -1 },
                    constant: FieldElement { value: 0 },
                },
            },
        );
        // Row 4: is_valid * (1 - is_valid) = 0.
        gates.push(
            Gate {
                row: 4,
                kind: GateKind::Mul {
                    product: FieldElement { value: 1 },
                    output: FieldElement { value: 0 },
                },
            },
        );
        proof {
            assert(gates@ =~= threshold_gates().take(5));
        }
        // Pad with no-op rows to the system minimum.
        while gates.len() < 8
            invariant
                5 <= gates@.len() <= 8,
                gates@ == threshold_gates().take(gates@.len() as int),
            decreases 8 - gates@.len(),
        {
            let row = gates.len();
            gates.push(Gate { row, kind: GateKind::Zero });
            proof {
                assert(gates@ =~= threshold_gates().take(gates@.len() as int));
            }
        }
        proof {
            assert(gates@ =~= threshold_gates());
        }
        gates
    }

    /// Generate the witness table and public inputs for a private value.
    /// The validity bit is 1 exactly when the value is strictly below the
    /// threshold; at the threshold itself it is 0.
    pub fn generate_witness(&self, value: u64) -> (r: Result<
        (Witness, Vec<FieldElement>),
        ProverError,
    >)
        ensures
            r is Ok,
            r->Ok_0.1@ == seq![
                fe(self.threshold as int),
                fe(
                    if value < self.threshold {
                        1
                    } else {
                        0
                    },
                ),
            ],
            r->Ok_0.0.columns@.len() == COLUMNS,
            forall|c: int| 0 <= c < COLUMNS ==> (#[trigger] r->Ok_0.0.columns@[c])@.len() == 8,
            forall|c: int, rr: int|
                0 <= c < COLUMNS && 0 <= rr < 8 ==> (#[trigger] r->Ok_0.0.columns@[c]@[rr])
                    == threshold_witness_cell(self.threshold, value, c, rr),
    {
        let mut columns: Vec<Vec<FieldElement>> = Vec::new();
        for c in 0..COLUMNS
            invariant
                columns@.len() == c,
                forall|cc: int| 0 <= cc < c ==> (#[trigger] columns@[cc])@.len() == 8,
                forall|cc: int, rr: int|
                    0 <= cc < c && 0 <= rr < 8 ==> (#[trigger] columns@[cc]@[rr])
                        == threshold_witness_cell(self.threshold, value, cc, rr),
        {
            let mut col: Vec<FieldElement> = Vec::new();
            for rr in 0..8usize
                invariant
                    col@.len() == rr,
                    forall|k: int|
                        0 <= k < rr ==> (#[trigger] col@[k]) == threshold_witness_cell(
                            self.threshold,
                            value,
                            c as int,
                            k,
                        ),
            {
                col.push(self.witness_cell(value, c, rr));
            }
            columns.push(col);
        }
        let witness = Witness { columns };

        let mut public_inputs: Vec<FieldElement> = Vec::new();
        public_inputs.push(FieldElement { value: self.threshold as i128 });
        if value < self.threshold {
            public_inputs.push(FieldElement { value: 1 });
        } else {
            public_inputs.push(FieldElement { value: 0 });
        }
        proof {
            assert(public_inputs@ =~= seq![
                fe(self.threshold as int),
                fe(
                    if value < self.threshold {
                        1
                    } else {
                        0
                    },
                ),
            ]);
        }
        Ok((witness, public_inputs))
    }

    /// Compute one cell of the witness table.
    fn witness_cell(&self, value: u64, c: usize, r: usize) -> (cell: FieldElement)
        ensures
            cell == threshold_witness_cell(self.threshold, value, c as int, r as int),
    {
        let is_valid: i128 = if value < self.threshold {
            1
        } else {
            0
        };
        let difference: i128 = if value < self.threshold {
            (self.threshold - value) as i128
        } else {
            0
        };
        if c == 0 && r == 0 {
            FieldElement { value: self.threshold as i128 }
        } else if c == 0 && r == 1 {
            FieldElement { value: is_valid }
        } else if c == 0 && r == 2 {
            FieldElement { value: value as i128 }
        } else if c == 0 && r == 3 {
            FieldElement { value: self.threshold as i128 }
        } else if c == 1 && r == 3 {
            FieldElement { value: value as i128 }
        } else if c == 2 && r == 3 {
            FieldElement { value: difference }
        } else if c == 0 && r == 4 {
            FieldElement { value: is_valid }
        } else if c == 1 && r == 4 {
            FieldElement { value: 1 - is_valid }
        } else {
            FieldElement { value: 0 }
        }
    }
}

/// The witness satisfies the circuit's constraint rows: the boolean row is
/// satisfied for every value, and the difference row is satisfied exactly
/// when the value does not exceed the threshold (when the value is larger,
/// the all-zero difference cell cannot balance the row, so no witness this
/// generator produces can pass it).
pub proof fn lemma_threshold_witness_constraints(threshold: u64, value: u64)
    ensures
        gate_satisfied(
            threshold_gates()[4].kind,
            threshold_witness_cell(threshold, value, 0, 4).as_int(),
            threshold_witness_cell(threshold, value, 1, 4).as_int(),
            threshold_witness_cell(threshold, value, 2, 4).as_int(),
        ),
        gate_satisfied(
            threshold_gates()[3].kind,
            threshold_witness_cell(threshold, value, 0, 3).as_int(),
            threshold_witness_cell(threshold, value, 1, 3).as_int(),
            threshold_witness_cell(threshold, value, 2, 3).as_int(),
        ) <==> value <= threshold,
{
    let iv: int = if value < threshold {
        1
    } else {
        0
    };
    let d: int = if value < threshold {
        threshold - value
    } else {
        0
    };
    assert(threshold_witness_cell(threshold, value, 0, 4).as_int() == iv);
    assert(threshold_witness_cell(threshold, value, 1, 4).as_int() == 1 - iv);
    assert(threshold_witness_cell(threshold, value, 2, 4).as_int() == 0);
    assert(iv * (1 - iv) == 0);
    assert(gate_eval(threshold_gates()[4].kind, iv, 1 - iv, 0) == 1 * (iv * (1 - iv)) + 0);

    assert(threshold_witness_cell(threshold, value, 0, 3).as_int() == threshold);
    assert(threshold_witness_cell(threshold, value, 1, 3).as_int() == value);
    assert(threshold_witness_cell(threshold, value, 2, 3).as_int() == d);
    assert(threshold_gates()[3].kind == diff_kind());
    assert(fe(1).as_int() == 1 && fe(-1).as_int() == -1 && fe(0).as_int() == 0);
    assert(gate_eval(diff_kind(), threshold as int, value as int, d) == 1 * (threshold as int) + (
    -1) * (value as int) + (-1) * d + 0);
    assert(1 * (threshold as int) + (-1) * (value as int) + (-1) * d + 0 == threshold - value
        - d) by (nonlinear_arith);
}

} // verus!
