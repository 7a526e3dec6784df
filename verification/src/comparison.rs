//! Comparison gadget: equality, range checks and the age-verification
//! composite, with the matching witness helpers.

use vstd::prelude::*;
use vstd::string::StringSliceAdditionalSpecFns;

use crate::field::{fe, FieldElement};
use crate::gate::{
    bool_kind, diff_kind, eq_kind, gates_from, lemma_gates_append, lemma_repeat_kinds_len,
    repeat_kinds, sum_kind, Gate, GateKind, GateSequenceBuilder,
};

verus! {

/// Bit `i` of the 64-bit word `v`, as the integer 0 or 1.
pub open spec fn bit64(v: u64, i: int) -> int {
    if (v >> (i as u64)) & 1u64 == 1u64 {
        1
    } else {
        0
    }
}

/// Gate layout of a range check over `n` bits: one boolean row per bit
/// followed by `ceil(n / 3)` summation rows.
pub open spec fn range_check_kinds(n: nat) -> Seq<GateKind> {
    repeat_kinds(seq![bool_kind()], n) + repeat_kinds(seq![sum_kind()], ((n + 2) / 3) as nat)
}

/// Number of rows a range check over `n` bits occupies.
pub open spec fn range_check_rows(n: nat) -> nat {
    (n + (n + 2) / 3) as nat
}

/// Kind of a row that subtracts a constant threshold from a cell:
/// `a - c - minimum = 0`.
pub open spec fn threshold_kind(minimum: u32) -> GateKind {
    GateKind::Add { left: fe(1), right: fe(0), output: fe(-1), constant: fe(-(minimum as int)) }
}

/// Gate layout of the age check composite: three calendar difference rows,
/// one boolean row for the birthday adjustment, one difference row for the
/// adjusted age, one threshold row, then a 7-bit range check.
pub open spec fn age_check_kinds(minimum_age: u32) -> Seq<GateKind> {
    seq![
        diff_kind(),
        diff_kind(),
        diff_kind(),
        bool_kind(),
        diff_kind(),
        threshold_kind(minimum_age),
    ] + range_check_kinds(7)
}

/// Gadget for comparison operations.
pub struct ComparisonGadget {
    pub builder: GateSequenceBuilder,
}

impl ComparisonGadget {
    /// The gates accumulated so far.
    pub open spec fn gates_seq(self) -> Seq<Gate> {
        self.builder.gates_seq()
    }

    /// The next free row.
    pub open spec fn cursor(self) -> int {
        self.builder.cursor()
    }

    pub open spec fn wf(self) -> bool {
        self.builder.wf()
    }

    /// Create a new comparison gadget starting at the given row.
    pub fn new(start_row: usize) -> (r: Self)
        ensures
            r.wf(),
            r.gates_seq() == Seq::<Gate>::empty(),
            r.cursor() == start_row,
    {
        ComparisonGadget { builder: GateSequenceBuilder::new(start_row) }
    }

    /// Get the current row index.
    pub fn current_row(&self) -> (r: usize)
        ensures
            r == self.cursor(),
    {
        self.builder.current_row()
    }

    /// Equality constraint `a - b = 0` on one row.
    pub fn equal(&mut self) -> (row: usize)
        requires
            old(self).wf(),
            old(self).cursor() + 1 <= usize::MAX,
        ensures
            final(self).wf(),
            final(self).cursor() == old(self).cursor() + 1,
            final(self).gates_seq() == old(self).gates_seq() + gates_from(
                seq![eq_kind()],
                old(self).cursor(),
            ),
            row == old(self).cursor(),
    {
        self.builder.push(GateKind::Add {
            left: FieldElement { value: 1 },
            right: FieldElement { value: -1 },
            output: FieldElement { value: 0 },
            constant: FieldElement { value: 0 },
        })
    }

    /// Range check `0 <= value < 2^num_bits`: `num_bits` boolean rows
    /// followed by `ceil(num_bits / 3)` summation rows.
    pub fn range_check(&mut self, num_bits: usize) -> (row: usize)
        requires
            old(self).wf(),
            num_bits + 2 <= usize::MAX,
            old(self).cursor() + range_check_rows(num_bits as nat) <= usize::MAX,
        ensures
            final(self).wf(),
            final(self).cursor() == old(self).cursor() + range_check_rows(num_bits as nat),
            final(self).gates_seq() == old(self).gates_seq() + gates_from(
                range_check_kinds(num_bits as nat),
                old(self).cursor(),
            ),
            row == old(self).cursor(),
    {
        proof {
            lemma_repeat_kinds_len(seq![bool_kind()], num_bits as nat);
            lemma_repeat_kinds_len(seq![sum_kind()], ((num_bits + 2) / 3) as nat);
        }
        let row = self.builder.push_repeated(
            GateKind::Mul { product: FieldElement { value: 1 }, output: FieldElement { value: -1 } },
            num_bits,
        );
        let num_sum_gates = (num_bits + 2) / 3;
        self.builder.push_repeated(
            GateKind::Add {
                left: FieldElement { value: 1 },
                right: FieldElement { value: 1 },
                output: FieldElement { value: -1 },
                constant: FieldElement { value: 0 },
            },
            num_sum_gates,
        );
        proof {
            assert(seq![bool_kind()].len() == 1 && seq![sum_kind()].len() == 1);
            assert((num_bits as nat) * 1 == num_bits as nat) by (nonlinear_arith);
            assert((((num_bits + 2) / 3) as nat) * 1 == ((num_bits + 2) / 3) as nat)
                by (nonlinear_arith);
            assert(repeat_kinds(seq![bool_kind()], num_bits as nat).len() == num_bits);
            lemma_gates_append(
                old(self).gates_seq(),
                repeat_kinds(seq![bool_kind()], num_bits as nat),
                repeat_kinds(seq![sum_kind()], ((num_bits + 2) / 3) as nat),
                old(self).cursor(),
            );
            assert(self.gates_seq() =~= old(self).gates_seq() + gates_from(
                range_check_kinds(num_bits as nat),
                old(self).cursor(),
            ));
        }
        row
    }

    /// Ordering constraint `a >= b`: one difference row `a - b - c = 0`
    /// followed by a range check of the difference over `max_bits` bits,
    /// whose non-negativity is the ordering proof.
    pub fn greater_or_equal(&mut self, max_bits: usize) -> (row: usize)
        requires
            old(self).wf(),
            max_bits + 2 <= usize::MAX,
            old(self).cursor() + 1 + range_check_rows(max_bits as nat) <= usize::MAX,
        ensures
            final(self).wf(),
            final(self).cursor() == old(self).cursor() + 1 + range_check_rows(max_bits as nat),
            final(self).gates_seq() == old(self).gates_seq() + gates_from(
                seq![diff_kind()] + range_check_kinds(max_bits as nat),
                old(self).cursor(),
            ),
            row == old(self).cursor(),
    {
        let row = self.builder.push(GateKind::Add {
            left: FieldElement { value: 1 },
            right: FieldElement { value: -1 },
            output: FieldElement { value: -1 },
            constant: FieldElement { value: 0 },
        });
        self.range_check(max_bits);
        proof {
            lemma_gates_append(
                old(self).gates_seq(),
                seq![diff_kind()],
                range_check_kinds(max_bits as nat),
                old(self).cursor(),
            );
        }
        row
    }

    /// Date comparison for age verification: computes a candidate age from
    /// year, month and day differences with a boolean "not yet had this
    /// year's birthday" adjustment, then asserts the adjusted age is at
    /// least `minimum_age` via a 7-bit range check.  16 rows.
    pub fn age_check(&mut self, minimum_age: u32) -> (row: usize)
        requires
            old(self).wf(),
            old(self).cursor() + 16 <= usize::MAX,
        ensures
            final(self).wf(),
            final(self).cursor() == old(self).cursor() + 16,
            final(self).gates_seq() == old(self).gates_seq() + gates_from(
                age_check_kinds(minimum_age),
                old(self).cursor(),
            ),
            row == old(self).cursor(),
    {
        // Subtract years.
        let row = self.builder.push(GateKind::Add {
            left: FieldElement { value: 1 },
            right: FieldElement { value: -1 },
            output: FieldElement { value: -1 },
            constant: FieldElement { value: 0 },
        });
        // Month comparison.
        self.builder.push(GateKind::Add {
            left: FieldElement { value: 1 },
            right: FieldElement { value: -1 },
            output: FieldElement { value: -1 },
            constant: FieldElement { value: 0 },
        });
        // Day comparison.
        self.builder.push(GateKind::Add {
            left: FieldElement { value: 1 },
            right: FieldElement { value: -1 },
            output: FieldElement { value: -1 },
            constant: FieldElement { value: 0 },
        });
        // The adjustment is boolean.
        self.builder.push(GateKind::Mul {
            product: FieldElement { value: 1 },
            output: FieldElement { value: -1 },
        });
        // Final age = base age - adjustment.
        self.builder.push(GateKind::Add {
            left: FieldElement { value: 1 },
            right: FieldElement { value: -1 },
            output: FieldElement { value: -1 },
            constant: FieldElement { value: 0 },
        });
        // Check age >= minimum_age.
        self.builder.push(GateKind::Add {
            left: FieldElement { value: 1 },
            right: FieldElement { value: 0 },
            output: FieldElement { value: -1 },
            constant: FieldElement { value: -(minimum_age as i128) },
        });
        proof {
            assert(self.gates_seq() =~= old(self).gates_seq() + gates_from(
                seq![
                    diff_kind(),
                    diff_kind(),
                    diff_kind(),
                    bool_kind(),
                    diff_kind(),
                    threshold_kind(minimum_age),
                ],
                old(self).cursor(),
            ));
        }
        // Range check the difference: 7 bits allow ages up to 127.
        self.range_check(7);
        proof {
            lemma_gates_append(
                old(self).gates_seq(),
                seq![
                    diff_kind(),
                    diff_kind(),
                    diff_kind(),
                    bool_kind(),
                    diff_kind(),
                    threshold_kind(minimum_age),
                ],
                range_check_kinds(7),
                old(self).cursor(),
            );
        }
        row
    }

    /// Consume the gadget and return the gates with the final cursor.
    pub fn build(self) -> (r: (Vec<Gate>, usize))
        ensures
            r.0@ == self.gates_seq(),
            r.1 == self.cursor(),
    {
        self.builder.build()
    }
}

/// Whether the reference date falls before the birthday in its year.
pub open spec fn before_birthday(
    birth_month: u32,
    birth_day: u32,
    current_month: u32,
    current_day: u32,
) -> bool {
    current_month < birth_month || (current_month == birth_month && current_day < birth_day)
}

/// Whether a byte is an ASCII decimal digit.
pub open spec fn is_digit(b: u8) -> bool {
    0x30 <= b <= 0x39
}

/// The numeric value of an ASCII decimal digit.
pub open spec fn digit(b: u8) -> int {
    b - 0x30
}

/// The parse of a six-byte `YYMMDD` date: the two-digit year is pivoted at
/// 29 (at most 29 means the 2000s, 30 or more the 1900s).  Any other length
/// and any non-digit byte make the parse fail.
pub open spec fn spec_parse_mrz_date(s: Seq<u8>) -> Option<(u32, u32, u32)> {
    if s.len() == 6 && (forall|i: int| 0 <= i < 6 ==> is_digit(#[trigger] s[i])) {
        let yy = digit(s[0]) * 10 + digit(s[1]);
        let mm = digit(s[2]) * 10 + digit(s[3]);
        let dd = digit(s[4]) * 10 + digit(s[5]);
        let year = if yy <= 29 {
            2000 + yy
        } else {
            1900 + yy
        };
        Some((year as u32, mm as u32, dd as u32))
    } else {
        None
    }
}

/// Witness helpers for comparisons.
pub struct ComparisonWitness;

impl ComparisonWitness {
    /// Age at the reference date: the year difference, less one if the
    /// reference date falls before the birthday in its year.
    pub fn compute_age(
        birth_year: u32,
        birth_month: u32,
        birth_day: u32,
        current_year: u32,
        current_month: u32,
        current_day: u32,
    ) -> (age: u32)
        requires
            birth_year <= current_year,
            before_birthday(birth_month, birth_day, current_month, current_day) ==> birth_year
                < current_year,
        ensures
            age == current_year - birth_year - (if before_birthday(
                birth_month,
                birth_day,
                current_month,
                current_day,
            ) {
                1int
            } else {
                0int
            }),
    {
        let mut age = current_year - birth_year;

        if current_month < birth_month || (current_month == birth_month && current_day < birth_day)
        {
            age = age - 1;
        }

        age
    }

    /// Parse a six-character `YYMMDD` date string into year, month and day,
    /// pivoting the two-digit year at 29; `None` on anything malformed.
    pub fn parse_mrz_date(date_str: &str) -> (r: Option<(u32, u32, u32)>)
        ensures
            r == spec_parse_mrz_date(date_str.spec_bytes()),
    {
        let bytes = date_str.as_bytes();
        if bytes.len() != 6 {
            return None;
        }
        let mut digits: [u32; 6] = [0; 6];
        for i in 0..6usize
            invariant
                bytes@ == date_str.spec_bytes(),
                bytes@.len() == 6,
                digits@.len() == 6,
                forall|j: int| 0 <= j < i ==> is_digit(bytes@[j]),
                forall|j: int| 0 <= j < i ==> #[trigger] digits@[j] == digit(bytes@[j]),
        {
            let b = bytes[i];
            if b < 0x30 || b > 0x39 {
                proof {
                    assert(!is_digit(date_str.spec_bytes()[i as int]));
                }
                return None;
            }
            digits[i] = (b - 0x30) as u32;
        }
        let yy = digits[0] * 10 + digits[1];
        let mm = digits[2] * 10 + digits[3];
        let dd = digits[4] * 10 + digits[5];

        let year = if yy <= 29 {
            2000 + yy
        } else {
            1900 + yy
        };

        Some((year, mm, dd))
    }

    /// The low `num_bits` bits of `value` as field elements, least
    /// significant first.
    pub fn decompose_for_range_check(value: u64, num_bits: usize) -> (bits: Vec<FieldElement>)
        requires
            num_bits <= 64,
        ensures
            bits@.len() == num_bits,
            forall|i: int| 0 <= i < num_bits ==> bits@[i] == fe(bit64(value, i)),
    {
        let mut bits: Vec<FieldElement> = Vec::new();
        for i in 0..num_bits
            invariant
                num_bits <= 64,
                bits@.len() == i,
                forall|j: int| 0 <= j < i ==> bits@[j] == fe(bit64(value, j)),
        {
            if (value >> (i as u64)) & 1 == 1 {
                bits.push(FieldElement { value: 1 });
            } else {
                bits.push(FieldElement { value: 0 });
            }
        }
        bits
    }
}

} // verus!
