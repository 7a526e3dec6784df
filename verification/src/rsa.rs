//! RSA signature verification gadget: 2048-bit modular exponentiation with
//! the fixed exponent 65537 and PKCS#1 v1.5 padding checks, limb by limb,
//! with the matching witness generator.

use vstd::prelude::*;

use crate::gate::{
    bool_kind, const_check_kind, diff_kind, eq_kind, gates_from, lemma_compose_step,
    lemma_gates_append, lemma_repeat_kinds_len, repeat_kinds, sum_kind, Gate, GateKind,
    GateSequenceBuilder,
};

verus! {

/// Number of 64-bit limbs in a 2048-bit integer.
pub const RSA_LIMBS: usize = 32;

/// The fixed public exponent.
pub const RSA_EXPONENT: u32 = 65537;

/// Kind of a carry-extraction row: `a + 2^64 * b - c = 0`.
pub open spec fn carry64_kind() -> GateKind {
    GateKind::Add {
        left: crate::field::fe(1),
        right: crate::field::fe(0x1_0000_0000_0000_0000),
        output: crate::field::fe(-1),
        constant: crate::field::fe(0),
    }
}

/// The fixed 19-byte SHA-256 DigestInfo prefix of PKCS#1 v1.5.
pub open spec fn digest_info_seq() -> Seq<u8> {
    seq![
        0x30u8, 0x31u8, 0x30u8, 0x0du8, 0x06u8, 0x09u8, 0x60u8, 0x86u8, 0x48u8, 0x01u8, 0x65u8,
        0x03u8, 0x04u8, 0x02u8, 0x01u8, 0x05u8, 0x00u8, 0x04u8, 0x20u8,
    ]
}

/// Gate layout of a limb range check: 64 boolean rows and 8 summation rows.
pub open spec fn range_check_limb_kinds() -> Seq<GateKind> {
    repeat_kinds(seq![bool_kind()], 64) + repeat_kinds(seq![sum_kind()], 8)
}

/// Gate layout of a limb multiplication: a product row, a carry row, and a
/// range check of each output limb.
pub open spec fn limb_mul_kinds() -> Seq<GateKind> {
    seq![bool_kind(), carry64_kind()] + range_check_limb_kinds() + range_check_limb_kinds()
}

/// Gate layout of a limb addition with carry: two summation rows, a carry
/// row, and a boolean row for the carry bit.
pub open spec fn limb_add_kinds() -> Seq<GateKind> {
    seq![sum_kind(), sum_kind(), carry64_kind(), bool_kind()]
}

/// Gate layout of a full 32x32 schoolbook product: 1024 limb
/// multiplications followed by carry propagation over the 63 output limbs.
pub open spec fn bigint_mul_kinds() -> Seq<GateKind> {
    repeat_kinds(limb_mul_kinds(), 1024) + repeat_kinds(limb_add_kinds(), 2016)
}

/// Gate layout of a limb-wise subtraction: two difference rows per limb.
pub open spec fn bigint_sub_kinds() -> Seq<GateKind> {
    repeat_kinds(seq![diff_kind()], 64)
}

/// Gate layout of a limb-wise comparison: a subtraction and a boolean row
/// for the borrow.
pub open spec fn bigint_less_than_kinds() -> Seq<GateKind> {
    bigint_sub_kinds() + seq![bool_kind()]
}

/// Gate layout of a modular reduction: multiply, add the remainder back,
/// compare limb-wise, and check the remainder is below the modulus.
pub open spec fn bigint_mod_kinds() -> Seq<GateKind> {
    bigint_mul_kinds() + repeat_kinds(limb_add_kinds(), 32) + repeat_kinds(seq![eq_kind()], 32)
        + bigint_less_than_kinds()
}

/// Gate layout of a modular multiplication: a product and a reduction.
pub open spec fn bigint_mulmod_kinds() -> Seq<GateKind> {
    bigint_mul_kinds() + bigint_mod_kinds()
}

/// Gate layout of the exponentiation ladder for 65537: sixteen squarings
/// and one final multiplication, all with the modular-multiplication
/// layout.
pub open spec fn modexp_65537_kinds() -> Seq<GateKind> {
    repeat_kinds(bigint_mulmod_kinds(), 17)
}

/// Gate layout of the PKCS#1 v1.5 padding check: a public row and a
/// constant check for the leading 0x00 0x01, eight 0xFF padding checks, a
/// public row for the separator, and the 19 DigestInfo constant checks.
pub open spec fn verify_pkcs1_kinds() -> Seq<GateKind> {
    seq![GateKind::Public, const_check_kind(1)] + repeat_kinds(seq![const_check_kind(0xFF)], 8)
        + seq![GateKind::Public] + Seq::new(19, |i: int| const_check_kind(digest_info_seq()[i] as int))
}

/// Gate layout of a limb-wise equality: one equality row per limb.
pub open spec fn bigint_equal_kinds() -> Seq<GateKind> {
    repeat_kinds(seq![eq_kind()], 32)
}

/// Gate layout of the full signature verification: exponentiation, padding
/// check, digest equality.
pub open spec fn rsa_verify_kinds() -> Seq<GateKind> {
    modexp_65537_kinds() + verify_pkcs1_kinds() + bigint_equal_kinds()
}

proof fn lemma_single_repeat_len(k: GateKind, n: nat)
    ensures
        repeat_kinds(seq![k], n).len() == n,
{
    lemma_repeat_kinds_len(seq![k], n);
    assert(n * seq![k].len() == n) by (nonlinear_arith)
        requires
            seq![k].len() == 1,
    ;
}

proof fn lemma_rsa_lens()
    ensures
        range_check_limb_kinds().len() == 72,
        limb_mul_kinds().len() == 146,
        limb_add_kinds().len() == 4,
        bigint_mul_kinds().len() == 157568,
        bigint_sub_kinds().len() == 64,
        bigint_less_than_kinds().len() == 65,
        bigint_mod_kinds().len() == 157793,
        bigint_mulmod_kinds().len() == 315361,
        modexp_65537_kinds().len() == 5361137,
        verify_pkcs1_kinds().len() == 30,
        bigint_equal_kinds().len() == 32,
        rsa_verify_kinds().len() == 5361199,
{
    lemma_single_repeat_len(bool_kind(), 64);
    lemma_single_repeat_len(sum_kind(), 8);
    lemma_repeat_kinds_len(limb_mul_kinds(), 1024);
    lemma_repeat_kinds_len(limb_add_kinds(), 2016);
    lemma_repeat_kinds_len(limb_add_kinds(), 32);
    lemma_single_repeat_len(eq_kind(), 32);
    lemma_single_repeat_len(diff_kind(), 64);
    lemma_repeat_kinds_len(bigint_mulmod_kinds(), 17);
    lemma_single_repeat_len(const_check_kind(0xFF), 8);
}

/// Gadget builder for RSA verification circuits.
pub struct RsaGadget {
    pub builder: GateSequenceBuilder,
}

impl RsaGadget {
    /// The gates accumulated so far.
    pub open spec fn gates_seq(self) -> Seq<Gate> {
        self.builder.gates_seq()
    }

    /// The next free row.
    pub open spec fn cursor(self) -> int {
        self.builder.cursor()
    }

    pub open spec fn wf(self) -> bool {
        self.builder.wf()
    }

    /// Create a new RSA gadget starting at the given row.
    pub fn new(start_row: usize) -> (r: Self)
        ensures
            r.wf(),
            r.gates_seq() == Seq::<Gate>::empty(),
            r.cursor() == start_row,
    {
        RsaGadget { builder: GateSequenceBuilder::new(start_row) }
    }

    /// Get the current row index.
    pub fn current_row(&self) -> (r: usize)
        ensures
            r == self.cursor(),
    {
        self.builder.current_row()
    }

    /// Constrain a limb to `[0, 2^64)`: 64 boolean rows and 8 summation
    /// rows, 72 rows in all.
    pub fn range_check_limb(&mut self) -> (row: usize)
        requires
            old(self).wf(),
            old(self).cursor() + 72 <= usize::MAX,
        ensures
            final(self).wf(),
            final(self).cursor() == old(self).cursor() + 72,
            final(self).gates_seq() == old(self).gates_seq() + gates_from(
                range_check_limb_kinds(),
                old(self).cursor(),
            ),
            row == old(self).cursor(),
    {
        proof {
            lemma_single_repeat_len(bool_kind(), 64);
            lemma_single_repeat_len(sum_kind(), 8);
        }
        let row = self.builder.push_repeated(
            GateKind::Mul { product: crate::field::FieldElement { value: 1 }, output: crate::field::FieldElement { value: -1 } },
            64,
        );
        self.builder.push_repeated(
            GateKind::Add {
                left: crate::field::FieldElement { value: 1 },
                right: crate::field::FieldElement { value: 1 },
                output: crate::field::FieldElement { value: -1 },
                constant: crate::field::FieldElement { value: 0 },
            },
            8,
        );
        proof {
            lemma_gates_append(
                old(self).gates_seq(),
                repeat_kinds(seq![bool_kind()], 64),
                repeat_kinds(seq![sum_kind()], 8),
                old(self).cursor(),
            );
        }
        row
    }

    /// Multiply two limbs with carry extraction and range checks on both
    /// output limbs: 146 rows.
    pub fn limb_mul(&mut self) -> (row: usize)
        requires
            old(self).wf(),
            old(self).cursor() + 146 <= usize::MAX,
        ensures
            final(self).wf(),
            final(self).cursor() == old(self).cursor() + 146,
            final(self).gates_seq() == old(self).gates_seq() + gates_from(
                limb_mul_kinds(),
                old(self).cursor(),
            ),
            row == old(self).cursor(),
    {
        proof {
            lemma_rsa_lens();
        }
        let row = self.builder.push(GateKind::Mul {
            product: crate::field::FieldElement { value: 1 },
            output: crate::field::FieldElement { value: -1 },
        });
        self.builder.push(GateKind::Add {
            left: crate::field::FieldElement { value: 1 },
            right: crate::field::FieldElement { value: 0x1_0000_0000_0000_0000 },
            output: crate::field::FieldElement { value: -1 },
            constant: crate::field::FieldElement { value: 0 },
        });
        proof {
            lemma_gates_append(
                old(self).gates_seq(),
                seq![bool_kind()],
                seq![carry64_kind()],
                old(self).cursor(),
            );
            assert(seq![bool_kind()] + seq![carry64_kind()] =~= seq![bool_kind(), carry64_kind()]);
        }
        self.range_check_limb();
        proof {
            lemma_gates_append(
                old(self).gates_seq(),
                seq![bool_kind(), carry64_kind()],
                range_check_limb_kinds(),
                old(self).cursor(),
            );
        }
        self.range_check_limb();
        proof {
            lemma_gates_append(
                old(self).gates_seq(),
                seq![bool_kind(), carry64_kind()] + range_check_limb_kinds(),
                range_check_limb_kinds(),
                old(self).cursor(),
            );
        }
        row
    }

    /// Add two limbs with carry: 4 rows.
    pub fn limb_add_with_carry(&mut self) -> (row: usize)
        requires
            old(self).wf(),
            old(self).cursor() + 4 <= usize::MAX,
        ensures
            final(self).wf(),
            final(self).cursor() == old(self).cursor() + 4,
            final(self).gates_seq() == old(self).gates_seq() + gates_from(
                limb_add_kinds(),
                old(self).cursor(),
            ),
            row == old(self).cursor(),
    {
        let row = self.builder.push(GateKind::Add {
            left: crate::field::FieldElement { value: 1 },
            right: crate::field::FieldElement { value: 1 },
            output: crate::field::FieldElement { value: -1 },
            constant: crate::field::FieldElement { value: 0 },
        });
        self.builder.push(GateKind::Add {
            left: crate::field::FieldElement { value: 1 },
            right: crate::field::FieldElement { value: 1 },
            output: crate::field::FieldElement { value: -1 },
            constant: crate::field::FieldElement { value: 0 },
        });
        self.builder.push(GateKind::Add {
            left: crate::field::FieldElement { value: 1 },
            right: crate::field::FieldElement { value: 0x1_0000_0000_0000_0000 },
            output: crate::field::FieldElement { value: -1 },
            constant: crate::field::FieldElement { value: 0 },
        });
        self.builder.push(GateKind::Mul {
            product: crate::field::FieldElement { value: 1 },
            output: crate::field::FieldElement { value: -1 },
        });
        proof {
            assert(self.gates_seq() =~= old(self).gates_seq() + gates_from(
                limb_add_kinds(),
                old(self).cursor(),
            ));
        }
        row
    }

    /// The full 32x32 schoolbook product: 1024 limb multiplications and
    /// 2016 carry-propagating limb additions, 157568 rows.
    pub fn bigint_mul(&mut self) -> (row: usize)
        requires
            old(self).wf(),
            old(self).cursor() + 157568 <= usize::MAX,
        ensures
            final(self).wf(),
            final(self).cursor() == old(self).cursor() + 157568,
            final(self).gates_seq() == old(self).gates_seq() + gates_from(
                bigint_mul_kinds(),
                old(self).cursor(),
            ),
            row == old(self).cursor(),
    {
        let row = self.builder.current_row();
        let ghost g0 = self.gates_seq();
        let ghost c0 = self.cursor();
        proof {
            assert(self.gates_seq() =~= g0 + gates_from(repeat_kinds(limb_mul_kinds(), 0), c0));
        }
        for i in 0..1024usize
            invariant
                self.wf(),
                c0 == row,
                0 <= c0,
                c0 + 157568 <= usize::MAX,
                self.cursor() == c0 + 146 * i,
                self.gates_seq() == g0 + gates_from(repeat_kinds(limb_mul_kinds(), i as nat), c0),
        {
            proof {
                lemma_rsa_lens();
                lemma_repeat_kinds_len(limb_mul_kinds(), i as nat);
                assert((i as nat) * limb_mul_kinds().len() == 146 * i) by (nonlinear_arith)
                    requires
                        limb_mul_kinds().len() == 146,
                ;
            }
            let ghost pre_gates = self.gates_seq();
            let ghost pre_cursor = self.cursor();
            self.limb_mul();
            proof {
                lemma_compose_step(
                    g0,
                    pre_gates,
                    self.gates_seq(),
                    limb_mul_kinds(),
                    i as nat,
                    c0,
                    pre_cursor,
                );
            }
        }
        proof {
            lemma_repeat_kinds_len(limb_mul_kinds(), 1024);
            lemma_rsa_lens();
        }
        let ghost g1 = self.gates_seq();
        let ghost c1 = self.cursor();
        for i in 0..2016usize
            invariant
                self.wf(),
                c1 == c0 + 149504,
                0 <= c0,
                c0 == row,
                c0 + 157568 <= usize::MAX,
                self.cursor() == c1 + 4 * i,
                g1 == g0 + gates_from(repeat_kinds(limb_mul_kinds(), 1024), c0),
                self.gates_seq() == g1 + gates_from(repeat_kinds(limb_add_kinds(), i as nat), c1),
        {
            proof {
                lemma_rsa_lens();
                lemma_repeat_kinds_len(limb_add_kinds(), i as nat);
                assert((i as nat) * limb_add_kinds().len() == 4 * i) by (nonlinear_arith)
                    requires
                        limb_add_kinds().len() == 4,
                ;
            }
            let ghost pre_gates = self.gates_seq();
            let ghost pre_cursor = self.cursor();
            self.limb_add_with_carry();
            proof {
                lemma_compose_step(
                    g1,
                    pre_gates,
                    self.gates_seq(),
                    limb_add_kinds(),
                    i as nat,
                    c1,
                    pre_cursor,
                );
            }
        }
        proof {
            lemma_repeat_kinds_len(limb_add_kinds(), 2016);
            lemma_gates_append(
                g0,
                repeat_kinds(limb_mul_kinds(), 1024),
                repeat_kinds(limb_add_kinds(), 2016),
                c0,
            );
        }
        row
    }

    /// Limb-wise subtraction: two difference rows per limb, 64 rows.
    pub fn bigint_sub(&mut self) -> (row: usize)
        requires
            old(self).wf(),
            old(self).cursor() + 64 <= usize::MAX,
        ensures
            final(self).wf(),
            final(self).cursor() == old(self).cursor() + 64,
            final(self).gates_seq() == old(self).gates_seq() + gates_from(
                bigint_sub_kinds(),
                old(self).cursor(),
            ),
            row == old(self).cursor(),
    {
        proof {
            lemma_single_repeat_len(diff_kind(), 64);
        }
        self.builder.push_repeated(
            GateKind::Add {
                left: crate::field::FieldElement { value: 1 },
                right: crate::field::FieldElement { value: -1 },
                output: crate::field::FieldElement { value: -1 },
                constant: crate::field::FieldElement { value: 0 },
            },
            64,
        )
    }

    /// Limb-wise comparison: a subtraction and a boolean borrow row,
    /// 65 rows.
    pub fn bigint_less_than(&mut self) -> (row: usize)
        requires
            old(self).wf(),
            old(self).cursor() + 65 <= usize::MAX,
        ensures
            final(self).wf(),
            final(self).cursor() == old(self).cursor() + 65,
            final(self).gates_seq() == old(self).gates_seq() + gates_from(
                bigint_less_than_kinds(),
                old(self).cursor(),
            ),
            row == old(self).cursor(),
    {
        proof {
            lemma_single_repeat_len(diff_kind(), 64);
        }
        let row = self.bigint_sub();
        self.builder.push(GateKind::Mul {
            product: crate::field::FieldElement { value: 1 },
            output: crate::field::FieldElement { value: -1 },
        });
        proof {
            lemma_gates_append(
                old(self).gates_seq(),
                bigint_sub_kinds(),
                seq![bool_kind()],
                old(self).cursor(),
            );
        }
        row
    }

    /// Modular reduction of a product: 157793 rows.
    pub fn bigint_mod(&mut self) -> (row: usize)
        requires
            old(self).wf(),
            old(self).cursor() + 157793 <= usize::MAX,
        ensures
            final(self).wf(),
            final(self).cursor() == old(self).cursor() + 157793,
            final(self).gates_seq() == old(self).gates_seq() + gates_from(
                bigint_mod_kinds(),
                old(self).cursor(),
            ),
            row == old(self).cursor(),
    {
        proof {
            lemma_rsa_lens();
        }
        let row = self.bigint_mul();
        let ghost g1 = self.gates_seq();
        let ghost c1 = self.cursor();
        for i in 0..32usize
            invariant
                self.wf(),
                c1 == old(self).cursor() + 157568,
                0 <= old(self).cursor(),
                old(self).cursor() + 157793 <= usize::MAX,
                self.cursor() == c1 + 4 * i,
                g1 == old(self).gates_seq() + gates_from(bigint_mul_kinds(), old(self).cursor()),
                self.gates_seq() == g1 + gates_from(repeat_kinds(limb_add_kinds(), i as nat), c1),
        {
            proof {
                lemma_rsa_lens();
                lemma_repeat_kinds_len(limb_add_kinds(), i as nat);
                assert((i as nat) * limb_add_kinds().len() == 4 * i) by (nonlinear_arith)
                    requires
                        limb_add_kinds().len() == 4,
                ;
            }
            let ghost pre_gates = self.gates_seq();
            let ghost pre_cursor = self.cursor();
            self.limb_add_with_carry();
            proof {
                lemma_compose_step(
                    g1,
                    pre_gates,
                    self.gates_seq(),
                    limb_add_kinds(),
                    i as nat,
                    c1,
                    pre_cursor,
                );
            }
        }
        proof {
            lemma_repeat_kinds_len(limb_add_kinds(), 32);
            lemma_single_repeat_len(eq_kind(), 32);
        }
        self.builder.push_repeated(
            GateKind::Add {
                left: crate::field::FieldElement { value: 1 },
                right: crate::field::FieldElement { value: -1 },
                output: crate::field::FieldElement { value: 0 },
                constant: crate::field::FieldElement { value: 0 },
            },
            32,
        );
        self.bigint_less_than();
        proof {
            lemma_gates_append(
                old(self).gates_seq(),
                bigint_mul_kinds(),
                repeat_kinds(limb_add_kinds(), 32),
                old(self).cursor(),
            );
            lemma_gates_append(
                old(self).gates_seq(),
                bigint_mul_kinds() + repeat_kinds(limb_add_kinds(), 32),
                repeat_kinds(seq![eq_kind()], 32),
                old(self).cursor(),
            );
            lemma_gates_append(
                old(self).gates_seq(),
                bigint_mul_kinds() + repeat_kinds(limb_add_kinds(), 32) + repeat_kinds(
                    seq![eq_kind()],
                    32,
                ),
                bigint_less_than_kinds(),
                old(self).cursor(),
            );
        }
        row
    }

    /// Modular multiplication: a product and a reduction, 315361 rows.
    pub fn bigint_mulmod(&mut self) -> (row: usize)
        requires
            old(self).wf(),
            old(self).cursor() + 315361 <= usize::MAX,
        ensures
            final(self).wf(),
            final(self).cursor() == old(self).cursor() + 315361,
            final(self).gates_seq() == old(self).gates_seq() + gates_from(
                bigint_mulmod_kinds(),
                old(self).cursor(),
            ),
            row == old(self).cursor(),
    {
        proof {
            lemma_rsa_lens();
        }
        let row = self.bigint_mul();
        self.bigint_mod();
        proof {
            lemma_gates_append(
                old(self).gates_seq(),
                bigint_mul_kinds(),
                bigint_mod_kinds(),
                old(self).cursor(),
            );
        }
        row
    }

    /// Modular squaring: the same layout as a modular multiplication.
    pub fn bigint_sqrmod(&mut self) -> (row: usize)
        requires
            old(self).wf(),
            old(self).cursor() + 315361 <= usize::MAX,
        ensures
            final(self).wf(),
            final(self).cursor() == old(self).cursor() + 315361,
            final(self).gates_seq() == old(self).gates_seq() + gates_from(
                bigint_mulmod_kinds(),
                old(self).cursor(),
            ),
            row == old(self).cursor(),
    {
        self.bigint_mulmod()
    }

    /// Modular exponentiation with exponent 65537: sixteen squarings and a
    /// final multiplication, valid because 65537 is 2^16 + 1.  5361137
    /// rows.
    pub fn modexp_65537(&mut self) -> (row: usize)
        requires
            old(self).wf(),
            old(self).cursor() + 5361137 <= usize::MAX,
        ensures
            final(self).wf(),
            final(self).cursor() == old(self).cursor() + 5361137,
            final(self).gates_seq() == old(self).gates_seq() + gates_from(
                modexp_65537_kinds(),
                old(self).cursor(),
            ),
            row == old(self).cursor(),
    {
        let row = self.builder.current_row();
        let ghost g0 = self.gates_seq();
        let ghost c0 = self.cursor();
        proof {
            assert(self.gates_seq() =~= g0 + gates_from(
                repeat_kinds(bigint_mulmod_kinds(), 0),
                c0,
            ));
        }
        for i in 0..16usize
            invariant
                self.wf(),
                c0 == row,
                0 <= c0,
                c0 + 5361137 <= usize::MAX,
                self.cursor() == c0 + 315361 * i,
                self.gates_seq() == g0 + gates_from(
                    repeat_kinds(bigint_mulmod_kinds(), i as nat),
                    c0,
                ),
        {
            proof {
                lemma_rsa_lens();
                lemma_repeat_kinds_len(bigint_mulmod_kinds(), i as nat);
                assert((i as nat) * bigint_mulmod_kinds().len() == 315361 * i) by (nonlinear_arith)
                    requires
                        bigint_mulmod_kinds().len() == 315361,
                ;
            }
            let ghost pre_gates = self.gates_seq();
            let ghost pre_cursor = self.cursor();
            self.bigint_sqrmod();
            proof {
                lemma_compose_step(
                    g0,
                    pre_gates,
                    self.gates_seq(),
                    bigint_mulmod_kinds(),
                    i as nat,
                    c0,
                    pre_cursor,
                );
            }
        }
        let ghost pre_gates = self.gates_seq();
        let ghost pre_cursor = self.cursor();
        proof {
            lemma_rsa_lens();
            lemma_repeat_kinds_len(bigint_mulmod_kinds(), 16);
        }
        self.bigint_mulmod();
        proof {
            lemma_compose_step(
                g0,
                pre_gates,
                self.gates_seq(),
                bigint_mulmod_kinds(),
                16,
                c0,
                pre_cursor,
            );
        }
        row
    }

    /// The PKCS#1 v1.5 padding structure checks: 30 rows.
    pub fn verify_pkcs1_padding(&mut self) -> (row: usize)
        requires
            old(self).wf(),
            old(self).cursor() + 30 <= usize::MAX,
        ensures
            final(self).wf(),
            final(self).cursor() == old(self).cursor() + 30,
            final(self).gates_seq() == old(self).gates_seq() + gates_from(
                verify_pkcs1_kinds(),
                old(self).cursor(),
            ),
            row == old(self).cursor(),
    {
        // Leading 0x00 byte: a public row.
        let row = self.builder.push(GateKind::Public);
        // Second byte is 0x01.
        self.builder.push(GateKind::Add {
            left: crate::field::FieldElement { value: 1 },
            right: crate::field::FieldElement { value: 0 },
            output: crate::field::FieldElement { value: 0 },
            constant: crate::field::FieldElement { value: -1 },
        });
        proof {
            lemma_single_repeat_len(const_check_kind(0xFF), 0);
            assert(self.gates_seq() =~= old(self).gates_seq() + gates_from(
                seq![GateKind::Public, const_check_kind(1)],
                old(self).cursor(),
            ));
        }
        // Padding bytes are 0xFF.
        self.builder.push_repeated(
            GateKind::Add {
                left: crate::field::FieldElement { value: 1 },
                right: crate::field::FieldElement { value: 0 },
                output: crate::field::FieldElement { value: 0 },
                constant: crate::field::FieldElement { value: -0xFF },
            },
            8,
        );
        proof {
            lemma_gates_append(
                old(self).gates_seq(),
                seq![GateKind::Public, const_check_kind(1)],
                repeat_kinds(seq![const_check_kind(0xFF)], 8),
                old(self).cursor(),
            );
            lemma_single_repeat_len(const_check_kind(0xFF), 8);
        }
        // Separator 0x00: a public row.
        self.builder.push(GateKind::Public);
        proof {
            lemma_gates_append(
                old(self).gates_seq(),
                seq![GateKind::Public, const_check_kind(1)] + repeat_kinds(
                    seq![const_check_kind(0xFF)],
                    8,
                ),
                seq![GateKind::Public],
                old(self).cursor(),
            );
        }
        // The fixed SHA-256 DigestInfo prefix.
        let digest_info: [u8; 19] = [
            0x30, 0x31, 0x30, 0x0d, 0x06, 0x09, 0x60, 0x86, 0x48, 0x01, 0x65, 0x03, 0x04, 0x02,
            0x01, 0x05, 0x00, 0x04, 0x20,
        ];
        proof {
            assert(digest_info@ =~= digest_info_seq());
        }
        let ghost g1 = self.gates_seq();
        let ghost c1 = self.cursor();
        for i in 0..19usize
            invariant
                self.wf(),
                digest_info@ == digest_info_seq(),
                c1 + 19 <= usize::MAX,
                self.cursor() == c1 + i,
                self.gates_seq() == g1 + gates_from(
                    Seq::new(i as nat, |j: int| const_check_kind(digest_info_seq()[j] as int)),
                    c1,
                ),
        {
            let b = digest_info[i];
            self.builder.push(GateKind::Add {
                left: crate::field::FieldElement { value: 1 },
                right: crate::field::FieldElement { value: 0 },
                output: crate::field::FieldElement { value: 0 },
                constant: crate::field::FieldElement { value: -(b as i128) },
            });
            proof {
                assert(self.gates_seq() =~= g1 + gates_from(
                    Seq::new((i + 1) as nat, |j: int| const_check_kind(digest_info_seq()[j] as int)),
                    c1,
                ));
            }
        }
        proof {
            lemma_gates_append(
                old(self).gates_seq(),
                seq![GateKind::Public, const_check_kind(1)] + repeat_kinds(
                    seq![const_check_kind(0xFF)],
                    8,
                ) + seq![GateKind::Public],
                Seq::new(19, |j: int| const_check_kind(digest_info_seq()[j] as int)),
                old(self).cursor(),
            );
        }
        row
    }

    /// Limb-wise equality of two big integers: 32 rows.
    pub fn bigint_equal(&mut self) -> (row: usize)
        requires
            old(self).wf(),
            old(self).cursor() + 32 <= usize::MAX,
        ensures
            final(self).wf(),
            final(self).cursor() == old(self).cursor() + 32,
            final(self).gates_seq() == old(self).gates_seq() + gates_from(
                bigint_equal_kinds(),
                old(self).cursor(),
            ),
            row == old(self).cursor(),
    {
        proof {
            lemma_single_repeat_len(eq_kind(), 32);
        }
        self.builder.push_repeated(
            GateKind::Add {
                left: crate::field::FieldElement { value: 1 },
                right: crate::field::FieldElement { value: -1 },
                output: crate::field::FieldElement { value: 0 },
                constant: crate::field::FieldElement { value: 0 },
            },
            32,
        )
    }

    /// Full RSA-2048 signature verification: 5361199 rows.
    pub fn rsa_verify(&mut self) -> (row: usize)
        requires
            old(self).wf(),
            old(self).cursor() + 5361199 <= usize::MAX,
        ensures
            final(self).wf(),
            final(self).cursor() == old(self).cursor() + 5361199,
            final(self).gates_seq() == old(self).gates_seq() + gates_from(
                rsa_verify_kinds(),
                old(self).cursor(),
            ),
            row == old(self).cursor(),
    {
        proof {
            lemma_rsa_lens();
        }
        let row = self.modexp_65537();
        self.verify_pkcs1_padding();
        proof {
            lemma_gates_append(
                old(self).gates_seq(),
                modexp_65537_kinds(),
                verify_pkcs1_kinds(),
                old(self).cursor(),
            );
        }
        self.bigint_equal();
        proof {
            lemma_gates_append(
                old(self).gates_seq(),
                modexp_65537_kinds() + verify_pkcs1_kinds(),
                bigint_equal_kinds(),
                old(self).cursor(),
            );
        }
        row
    }

    /// Consume the gadget and return the gates with the final cursor.
    pub fn build(self) -> (r: (Vec<Gate>, usize))
        ensures
            r.0@ == self.gates_seq(),
            r.1 == self.cursor(),
    {
        self.builder.build()
    }
}

/// The big-endian value of a byte sequence.
pub open spec fn bytes_be_as_nat(b: Seq<u8>) -> int
    decreases b.len(),
{
    if b.len() == 0 {
        0
    } else {
        bytes_be_as_nat(b.drop_last()) * 256 + b.last()
    }
}

/// The big-endian 64-bit value of the eight bytes at `off`.
pub open spec fn be64_of(b: Seq<u8>, off: int) -> u64 {
    ((b[off] as u64) * 0x100_0000_0000_0000 + (b[off + 1] as u64) * 0x1_0000_0000_0000 + (b[off
        + 2] as u64) * 0x100_0000_0000 + (b[off + 3] as u64) * 0x1_0000_0000 + (b[off
        + 4] as u64) * 0x100_0000 + (b[off + 5] as u64) * 0x1_0000 + (b[off + 6] as u64) * 0x100
        + (b[off + 7] as u64)) as u64
}

/// The 32 limbs of a 256-byte big-endian integer, ordered big-endian by
/// significance: limb `j` holds the eight bytes at offset `8*j`, so limb 0
/// is the most significant.
#[verifier::opaque]
pub open spec fn spec_bytes_to_limbs(b: Seq<u8>) -> Seq<u64> {
    Seq::new(32, |j: int| be64_of(b, 8 * j))
}

/// The 256 big-endian bytes of 32 limbs ordered big-endian by
/// significance: byte `i` comes from limb `i / 8`.
#[verifier::opaque]
pub open spec fn spec_limbs_to_bytes(l: Seq<u64>) -> Seq<u8> {
    Seq::new(256, |i: int| (l[i / 8] >> (((7 - (i % 8)) * 8) as u64)) as u8)
}

/// The numeric value of 32 limbs.
#[verifier::opaque]
pub open spec fn limbs_nat(l: Seq<u64>) -> int {
    bytes_be_as_nat(spec_limbs_to_bytes(l))
}

/// The value of limbs is the value of their byte serialization.
pub proof fn lemma_limbs_nat_def(l: Seq<u64>)
    ensures
        limbs_nat(l) == bytes_be_as_nat(spec_limbs_to_bytes(l)),
{
    reveal(limbs_nat);
}

/// The value of the limbs read from 256 bytes is the value of the bytes.
proof fn lemma_nat_of_limbs_of_bytes(b: Seq<u8>)
    requires
        b.len() == 256,
    ensures
        limbs_nat(spec_bytes_to_limbs(b)) == bytes_be_as_nat(b),
{
    reveal(limbs_nat);
    lemma_bytes_limbs_roundtrip(b);
}

proof fn lemma_be64_extract(b0: u8, b1: u8, b2: u8, b3: u8, b4: u8, b5: u8, b6: u8, b7: u8, k: u64)
    by (bit_vector)
    requires
        k < 8,
    ensures
        ({
            let s = ((b0 as u64) * 0x100_0000_0000_0000 + (b1 as u64) * 0x1_0000_0000_0000 + (
            b2 as u64) * 0x100_0000_0000 + (b3 as u64) * 0x1_0000_0000 + (b4 as u64) * 0x100_0000
                + (b5 as u64) * 0x1_0000 + (b6 as u64) * 0x100 + (b7 as u64)) as u64;
            &&& (k == 0 ==> (s >> (((7 - k) * 8) as u64)) as u8 == b0)
            &&& (k == 1 ==> (s >> (((7 - k) * 8) as u64)) as u8 == b1)
            &&& (k == 2 ==> (s >> (((7 - k) * 8) as u64)) as u8 == b2)
            &&& (k == 3 ==> (s >> (((7 - k) * 8) as u64)) as u8 == b3)
            &&& (k == 4 ==> (s >> (((7 - k) * 8) as u64)) as u8 == b4)
            &&& (k == 5 ==> (s >> (((7 - k) * 8) as u64)) as u8 == b5)
            &&& (k == 6 ==> (s >> (((7 - k) * 8) as u64)) as u8 == b6)
            &&& (k == 7 ==> (s >> (((7 - k) * 8) as u64)) as u8 == b7)
        }),
{
}

proof fn lemma_u64_from_extracted(x: u64)
    by (bit_vector)
    ensures
        ((((x >> 56) as u8) as u64) * 0x100_0000_0000_0000 + (((x >> 48) as u8) as u64)
            * 0x1_0000_0000_0000 + (((x >> 40) as u8) as u64) * 0x100_0000_0000 + (((x
            >> 32) as u8) as u64) * 0x1_0000_0000 + (((x >> 24) as u8) as u64) * 0x100_0000 + (((x
            >> 16) as u8) as u64) * 0x1_0000 + (((x >> 8) as u8) as u64) * 0x100 + (((x
            >> 0) as u8) as u64)) as u64 == x,
{
}

/// Converting limbs to bytes and back yields the same limbs.
proof fn lemma_limbs_bytes_roundtrip(l: Seq<u64>)
    requires
        l.len() == 32,
    ensures
        spec_bytes_to_limbs(spec_limbs_to_bytes(l)) == l,
{
    reveal(spec_limbs_to_bytes);
    reveal(spec_bytes_to_limbs);
    let b = spec_limbs_to_bytes(l);
    assert forall|j: int| 0 <= j < 32 implies spec_bytes_to_limbs(b)[j] == l[j] by {
        let off = 8 * j;
        assert forall|c: int| 0 <= c < 8 implies #[trigger] b[off + c] == ((l[j] >> (((7 - c) * 8) as u64)) as u8) by {
            vstd::arithmetic::div_mod::lemma_fundamental_div_mod_converse(off + c, 8, j, c);
        }
        lemma_u64_from_extracted(l[j]);
        assert(l[j] >> (((7 - 7) * 8) as u64) == l[j] >> 0u64);
        assert(be64_of(b, off) == l[j]);
    }
    assert(spec_bytes_to_limbs(b) =~= l);
}

/// Converting 256 bytes to limbs and back yields the same bytes.
proof fn lemma_bytes_limbs_roundtrip(b: Seq<u8>)
    requires
        b.len() == 256,
    ensures
        spec_limbs_to_bytes(spec_bytes_to_limbs(b)) == b,
{
    reveal(spec_limbs_to_bytes);
    reveal(spec_bytes_to_limbs);
    let l = spec_bytes_to_limbs(b);
    assert forall|i: int| 0 <= i < 256 implies spec_limbs_to_bytes(l)[i] == b[i] by {
        let q = i / 8;
        let k = i % 8;
        vstd::arithmetic::div_mod::lemma_fundamental_div_mod(i, 8);
        assert(l[q] == be64_of(b, 8 * q));
        lemma_be64_extract(
            b[8 * q],
            b[8 * q + 1],
            b[8 * q + 2],
            b[8 * q + 3],
            b[8 * q + 4],
            b[8 * q + 5],
            b[8 * q + 6],
            b[8 * q + 7],
            k as u64,
        );
        assert((((7 - k) * 8) as u64) == ((7 - (k as u64)) * 8) as u64);
    }
    assert(spec_limbs_to_bytes(l) =~= b);
}

proof fn lemma_bytes_nat_nonneg(b: Seq<u8>)
    ensures
        bytes_be_as_nat(b) >= 0,
    decreases b.len(),
{
    if b.len() > 0 {
        lemma_bytes_nat_nonneg(b.drop_last());
    }
}

/// Two byte sequences of the same length with the same value are equal:
/// the big-endian encoding of a given length is canonical.
proof fn lemma_bytes_nat_injective(a: Seq<u8>, b: Seq<u8>)
    requires
        a.len() == b.len(),
        bytes_be_as_nat(a) == bytes_be_as_nat(b),
    ensures
        a == b,
    decreases a.len(),
{
    if a.len() == 0 {
        assert(a =~= b);
    } else {
        lemma_bytes_nat_nonneg(a.drop_last());
        lemma_bytes_nat_nonneg(b.drop_last());
        let v = bytes_be_as_nat(a);
        vstd::arithmetic::div_mod::lemma_fundamental_div_mod_converse(
            v,
            256,
            bytes_be_as_nat(a.drop_last()),
            a.last() as int,
        );
        vstd::arithmetic::div_mod::lemma_fundamental_div_mod_converse(
            v,
            256,
            bytes_be_as_nat(b.drop_last()),
            b.last() as int,
        );
        lemma_bytes_nat_injective(a.drop_last(), b.drop_last());
        assert forall|idx: int| 0 <= idx < a.len() implies a[idx] == b[idx] by {
            if idx == a.len() - 1 {
                assert(a.last() as int == b.last() as int);
            } else {
                assert(a.drop_last()[idx] == b.drop_last()[idx]);
            }
        }
        assert(a =~= b);
    }
}

/// The separator scan of the PKCS#1 v1.5 check, starting at index `i`:
/// skips 0xFF bytes, yields the index of the first 0x00 byte, and fails on
/// any other byte or when reaching index 224, where the trailing
/// DigestInfo and digest would no longer fit.
pub open spec fn sep_scan(db: Seq<u8>, i: int) -> Option<int>
    decreases 224 - i,
{
    if i >= 224 {
        None
    } else if db[i] == 0x00 {
        Some(i)
    } else if db[i] != 0xFF {
        None
    } else {
        sep_scan(db, i + 1)
    }
}

/// Whether a 256-byte decrypted block has valid PKCS#1 v1.5 structure for
/// the given 32-byte digest: leading 0x00 0x01, a run of 0xFF padding of
/// length at least 8 ending in a 0x00 separator, the fixed DigestInfo
/// prefix, and the digest itself filling the block exactly.
pub open spec fn pkcs1_ok(db: Seq<u8>, hash: Seq<u8>) -> bool {
    &&& db.len() == 256
    &&& hash.len() == 32
    &&& db[0] == 0x00
    &&& db[1] == 0x01
    &&& match sep_scan(db, 2) {
        Option::Some(sep) => {
            &&& sep >= 10
            &&& sep + 52 == 256
            &&& db.subrange(sep + 1, sep + 20) == digest_info_seq()
            &&& db.subrange(sep + 20, sep + 52) == hash
        },
        Option::None => false,
    }
}

/// Whether the 256-byte big-endian encoding of the value `d` has valid
/// PKCS#1 v1.5 structure for the digest; the encoding of a given length is
/// canonical, so at most one byte sequence witnesses this.
pub open spec fn pkcs1_matches_value(d: int, hash: Seq<u8>) -> bool {
    exists|db: Seq<u8>| db.len() == 256 && bytes_be_as_nat(db) == d && pkcs1_ok(db, hash)
}

/// The RSA verification predicate: the signature raised to 65537 modulo
/// the modulus decrypts to a valid PKCS#1 v1.5 block for the digest.
pub open spec fn spec_rsa_verify(sig: Seq<u64>, n: Seq<u64>, hash: Seq<u8>) -> bool {
    pkcs1_matches_value(
        vstd::arithmetic::power::pow(limbs_nat(sig), 65537) % limbs_nat(n),
        hash,
    )
}

proof fn lemma_scan_reaches(db: Seq<u8>, i: int)
    requires
        2 <= i <= 224,
        forall|j: int| 2 <= j < i ==> (#[trigger] db[j]) == 0xFF,
    ensures
        sep_scan(db, 2) == sep_scan(db, i),
    decreases i,
{
    if i > 2 {
        lemma_scan_reaches(db, i - 1);
        assert(db[i - 1] == 0xFF);
    }
}

/// Relies on `num_bigint::BigUint::modpow` (returns `(self ^ exponent) %
/// modulus` and panics on a zero modulus), with `from_bytes_be` and
/// `to_bytes_be` for the big-endian byte conversions.
#[verifier::external_body]
fn modpow_65537_bytes(sig: &[u8; 256], modulus: &[u8; 256]) -> (r: [u8; 256])
    requires
        bytes_be_as_nat(modulus@) > 0,
    ensures
        bytes_be_as_nat(r@) == vstd::arithmetic::power::pow(bytes_be_as_nat(sig@), 65537)
            % bytes_be_as_nat(modulus@),
{
    let s = num_bigint::BigUint::from_bytes_be(sig.as_slice());
    let n = num_bigint::BigUint::from_bytes_be(modulus.as_slice());
    let e = num_bigint::BigUint::from(65537u32);
    let out = s.modpow(&e, &n).to_bytes_be();
    let mut r = [0u8; 256];
    r[256 - out.len()..].copy_from_slice(&out);
    r
}

/// Relies on `num_bigint::BigUint` multiplication and remainder, with
/// `from_bytes_be` and `to_bytes_be` for the big-endian byte conversions.
#[verifier::external_body]
fn mulmod_bytes(a: &[u8; 256], b: &[u8; 256], modulus: &[u8; 256]) -> (r: [u8; 256])
    requires
        bytes_be_as_nat(modulus@) > 0,
    ensures
        bytes_be_as_nat(r@) == (bytes_be_as_nat(a@) * bytes_be_as_nat(b@)) % bytes_be_as_nat(
            modulus@,
        ),
{
    let x = num_bigint::BigUint::from_bytes_be(a.as_slice()) * num_bigint::BigUint::from_bytes_be(
        b.as_slice(),
    );
    let out = (x % num_bigint::BigUint::from_bytes_be(modulus.as_slice())).to_bytes_be();
    let mut r = [0u8; 256];
    r[256 - out.len()..].copy_from_slice(&out);
    r
}

/// Witness data for RSA verification: the signature and modulus as 64-bit
/// limbs, the expected digest, and the intermediate values of the
/// exponentiation ladder.
pub struct RsaWitness {
    pub signature: [u64; RSA_LIMBS],
    pub modulus: [u64; RSA_LIMBS],
    pub hash: [u8; 32],
    pub intermediates: Vec<[u64; RSA_LIMBS]>,
}

impl RsaWitness {
    /// Build a witness from big-endian byte strings.
    pub fn from_bytes(signature: &[u8; 256], modulus: &[u8; 256], hash: &[u8; 32]) -> (r: Self)
        ensures
            r.signature@ == spec_bytes_to_limbs(signature@),
            r.modulus@ == spec_bytes_to_limbs(modulus@),
            r.hash@ == hash@,
            r.intermediates@.len() == 0,
    {
        RsaWitness {
            signature: Self::bytes_to_limbs(signature),
            modulus: Self::bytes_to_limbs(modulus),
            hash: *hash,
            intermediates: Vec::new(),
        }
    }

    /// Split a 256-byte big-endian integer into 32 limbs, ordered
    /// big-endian by significance: limb 0 is the most significant.
    #[verifier::loop_isolation(false)]
    pub fn bytes_to_limbs(bytes: &[u8; 256]) -> (limbs: [u64; RSA_LIMBS])
        ensures
            limbs@ == spec_bytes_to_limbs(bytes@),
    {
        let mut limbs: [u64; RSA_LIMBS] = [0; RSA_LIMBS];
        for j in 0..32usize
            invariant
                limbs@.len() == 32,
                forall|t: int| 0 <= t < j ==> #[trigger] limbs@[t] == be64_of(bytes@, 8 * t),
        {
            let off = 8 * j;
            let limb = (bytes[off] as u64) * 0x100_0000_0000_0000 + (bytes[off + 1] as u64)
                * 0x1_0000_0000_0000 + (bytes[off + 2] as u64) * 0x100_0000_0000 + (bytes[off
                + 3] as u64) * 0x1_0000_0000 + (bytes[off + 4] as u64) * 0x100_0000 + (bytes[off
                + 5] as u64) * 0x1_0000 + (bytes[off + 6] as u64) * 0x100 + (bytes[off + 7] as u64);
            limbs[j] = limb;
            proof {
                assert(limbs@[j as int] == be64_of(bytes@, 8 * (j as int)));
            }
        }
        proof {
            reveal(spec_bytes_to_limbs);
            assert(limbs@ =~= spec_bytes_to_limbs(bytes@));
        }
        limbs
    }

    /// Serialize 32 limbs, ordered big-endian by significance, into a
    /// 256-byte big-endian integer.
    #[verifier::loop_isolation(false)]
    pub fn limbs_to_bytes(limbs: &[u64; RSA_LIMBS]) -> (bytes: [u8; 256])
        ensures
            bytes@ == spec_limbs_to_bytes(limbs@),
    {
        let mut bytes: [u8; 256] = [0; 256];
        for i in 0..32usize
            invariant
                bytes@.len() == 256,
                forall|t: int|
                    0 <= t < 8 * i ==> #[trigger] bytes@[t] == (limbs@[t / 8] >> (((7 - (t
                        % 8)) * 8) as u64)) as u8,
        {
            let limb = limbs[i];
            for k in 0..8usize
                invariant
                    bytes@.len() == 256,
                    limb == limbs@[i as int],
                    i < 32,
                    forall|t: int|
                        0 <= t < 8 * i + k ==> #[trigger] bytes@[t] == (limbs@[t / 8] >> (((7
                            - (t % 8)) * 8) as u64)) as u8,
            {
                let sh: u64 = 56 - 8 * (k as u64);
                bytes[8 * i + k] = #[verifier::truncate] ((limb >> sh) as u8);
                proof {
                    let t = 8 * (i as int) + k;
                    vstd::arithmetic::div_mod::lemma_fundamental_div_mod_converse(
                        t,
                        8,
                        i as int,
                        k as int,
                    );
                    assert(sh == ((7 - (t % 8)) * 8) as u64);
                    assert(bytes@[t] == (limbs@[t / 8] >> (((7 - (t % 8)) * 8) as u64)) as u8);
                }
            }
        }
        proof {
            reveal(spec_limbs_to_bytes);
            assert(bytes@ =~= spec_limbs_to_bytes(limbs@));
        }
        bytes
    }

    /// Compute `signature ^ 65537 mod modulus` and record the ladder's
    /// intermediate values.
    pub fn compute_modexp(&mut self) -> (r: [u64; RSA_LIMBS])
        requires
            limbs_nat(old(self).modulus@) > 0,
        ensures
            limbs_nat(r@) == vstd::arithmetic::power::pow(
                limbs_nat(old(self).signature@),
                65537,
            ) % limbs_nat(old(self).modulus@),
            final(self).signature@ == old(self).signature@,
            final(self).modulus@ == old(self).modulus@,
            final(self).hash@ == old(self).hash@,
            final(self).intermediates@.len() == 18,
            final(self).intermediates@[0]@ == old(self).signature@,
            forall|i: int|
                0 <= i < 16 ==> limbs_nat(#[trigger] final(self).intermediates@[i + 1]@) == (
                limbs_nat(final(self).intermediates@[i]@) * limbs_nat(
                    final(self).intermediates@[i]@,
                )) % limbs_nat(old(self).modulus@),
            limbs_nat(final(self).intermediates@[17]@) == (limbs_nat(
                final(self).intermediates@[16]@,
            ) * limbs_nat(old(self).signature@)) % limbs_nat(old(self).modulus@),
            limbs_nat(final(self).intermediates@[17]@) == limbs_nat(r@),
    {
        let sig_bytes = Self::limbs_to_bytes(&self.signature);
        let mod_bytes = Self::limbs_to_bytes(&self.modulus);
        proof {
            lemma_limbs_nat_def(self.modulus@);
            lemma_limbs_nat_def(self.signature@);
        }
        let result_bytes = modpow_65537_bytes(&sig_bytes, &mod_bytes);
        self.compute_intermediates();
        let result = Self::bytes_to_limbs(&result_bytes);
        proof {
            lemma_nat_of_limbs_of_bytes(result_bytes@);
            // The recorded ladder ends at the same value the engine-side
            // exponentiation returned.
            let chain = Seq::new(18, |i: int| limbs_nat(self.intermediates@[i]@));
            assert forall|j: int| 0 <= j < 16 implies #[trigger] chain[j + 1] == (chain[j]
                * chain[j]) % limbs_nat(old(self).modulus@) by {
                assert(limbs_nat(self.intermediates@[j + 1]@) == (limbs_nat(
                    self.intermediates@[j]@,
                ) * limbs_nat(self.intermediates@[j]@)) % limbs_nat(old(self).modulus@));
            }
            lemma_ladder_computes_modexp(
                chain,
                limbs_nat(old(self).signature@),
                limbs_nat(old(self).modulus@),
            );
        }
        result
    }

    /// One ladder step: multiply two 256-byte values modulo the modulus
    /// and read the result back as limbs.
    fn mulmod_step(a: &[u8; 256], b: &[u8; 256], n: &[u8; 256]) -> (r: ([u8; 256], [u64; RSA_LIMBS]))
        requires
            bytes_be_as_nat(n@) > 0,
        ensures
            bytes_be_as_nat(r.0@) == (bytes_be_as_nat(a@) * bytes_be_as_nat(b@))
                % bytes_be_as_nat(n@),
            limbs_nat(r.1@) == bytes_be_as_nat(r.0@),
    {
        let c = mulmod_bytes(a, b, n);
        let l = Self::bytes_to_limbs(&c);
        proof {
            lemma_nat_of_limbs_of_bytes(c@);
        }
        (c, l)
    }

    /// Record the exponentiation ladder: the signature, its sixteen
    /// repeated squarings modulo the modulus, and the final multiplication
    /// by the signature.
    #[verifier::loop_isolation(false)]
    #[verifier::rlimit(100)]
    fn compute_intermediates(&mut self)
        requires
            limbs_nat(old(self).modulus@) > 0,
        ensures
            final(self).signature@ == old(self).signature@,
            final(self).modulus@ == old(self).modulus@,
            final(self).hash@ == old(self).hash@,
            final(self).intermediates@.len() == 18,
            final(self).intermediates@[0]@ == old(self).signature@,
            forall|i: int|
                0 <= i < 16 ==> limbs_nat(#[trigger] final(self).intermediates@[i + 1]@) == (
                limbs_nat(final(self).intermediates@[i]@) * limbs_nat(
                    final(self).intermediates@[i]@,
                )) % limbs_nat(old(self).modulus@),
            limbs_nat(final(self).intermediates@[17]@) == (limbs_nat(
                final(self).intermediates@[16]@,
            ) * limbs_nat(old(self).signature@)) % limbs_nat(old(self).modulus@),
    {
        let n_bytes = Self::limbs_to_bytes(&self.modulus);
        let sig_bytes = Self::limbs_to_bytes(&self.signature);
        self.intermediates = Vec::new();

        let mut cur = Self::limbs_to_bytes(&self.signature);
        let first = Self::bytes_to_limbs(&cur);
        proof {
            lemma_limbs_bytes_roundtrip(old(self).signature@);
            lemma_limbs_nat_def(old(self).signature@);
            lemma_limbs_nat_def(old(self).modulus@);
        }
        self.intermediates.push(first);

        for i in 0..16usize
            invariant
                self.signature@ == old(self).signature@,
                self.modulus@ == old(self).modulus@,
                self.hash@ == old(self).hash@,
                self.intermediates@.len() == i + 1,
                self.intermediates@[0]@ == old(self).signature@,
                bytes_be_as_nat(cur@) == limbs_nat(self.intermediates@[i as int]@),
                bytes_be_as_nat(n_bytes@) == limbs_nat(old(self).modulus@),
                bytes_be_as_nat(n_bytes@) > 0,
                bytes_be_as_nat(sig_bytes@) == limbs_nat(old(self).signature@),
                forall|j: int|
                    0 <= j < i ==> limbs_nat(#[trigger] self.intermediates@[j + 1]@) == (limbs_nat(
                        self.intermediates@[j]@,
                    ) * limbs_nat(self.intermediates@[j]@)) % limbs_nat(old(self).modulus@),
        {
            let stepped = Self::mulmod_step(&cur, &cur, &n_bytes);
            cur = stepped.0;
            self.intermediates.push(stepped.1);
        }

        let stepped = Self::mulmod_step(&cur, &sig_bytes, &n_bytes);
        self.intermediates.push(stepped.1);
    }

    /// Check a decrypted 256-byte block against the PKCS#1 v1.5 structure
    /// and the expected digest.
    #[verifier::loop_isolation(false)]
    pub fn check_pkcs1_bytes(decrypted: &[u8; 256], hash: &[u8; 32]) -> (r: bool)
        ensures
            r == pkcs1_ok(decrypted@, hash@),
    {
        if decrypted[0] != 0x00 || decrypted[1] != 0x01 {
            return false;
        }

        let mut i: usize = 2;
        while i < 224 && decrypted[i] == 0xFF
            invariant
                2 <= i <= 224,
                forall|j: int| 2 <= j < i ==> (#[trigger] decrypted@[j]) == 0xFF,
            decreases 224 - i,
        {
            i = i + 1;
        }
        proof {
            lemma_scan_reaches(decrypted@, i as int);
        }
        if i == 224 {
            return false;
        }
        if decrypted[i] != 0x00 {
            return false;
        }
        let sep = i;
        proof {
            assert(sep_scan(decrypted@, 2) == Option::Some(sep as int));
        }

        if sep < 10 {
            return false;
        }
        if sep + 52 != 256 {
            return false;
        }

        let digest_info: [u8; 19] = [
            0x30, 0x31, 0x30, 0x0d, 0x06, 0x09, 0x60, 0x86, 0x48, 0x01, 0x65, 0x03, 0x04, 0x02,
            0x01, 0x05, 0x00, 0x04, 0x20,
        ];
        proof {
            assert(digest_info@ =~= digest_info_seq());
        }
        for k in 0..19usize
            invariant
                forall|j: int|
                    0 <= j < k ==> decrypted@[sep + 1 + j] == digest_info_seq()[j],
        {
            if decrypted[sep + 1 + k] != digest_info[k] {
                proof {
                    assert(decrypted@.subrange(sep as int + 1, sep as int + 20)[k as int]
                        == decrypted@[sep + 1 + k]);
                }
                return false;
            }
        }
        proof {
            assert(decrypted@.subrange(sep as int + 1, sep as int + 20) =~= digest_info_seq());
        }

        for k in 0..32usize
            invariant
                forall|j: int| 0 <= j < k ==> decrypted@[sep + 20 + j] == hash@[j],
        {
            if decrypted[sep + 20 + k] != hash[k] {
                proof {
                    assert(decrypted@.subrange(sep as int + 20, sep as int + 52)[k as int]
                        == decrypted@[sep + 20 + k]);
                }
                return false;
            }
        }
        proof {
            assert(decrypted@.subrange(sep as int + 20, sep as int + 52) =~= hash@);
        }
        true
    }

    /// Verify the signature: decrypt with the fixed exponent and check the
    /// PKCS#1 v1.5 structure and digest byte by byte.
    pub fn verify(&mut self) -> (r: bool)
        requires
            limbs_nat(old(self).modulus@) > 0,
        ensures
            r == spec_rsa_verify(old(self).signature@, old(self).modulus@, old(self).hash@),
            final(self).signature@ == old(self).signature@,
            final(self).modulus@ == old(self).modulus@,
            final(self).hash@ == old(self).hash@,
    {
        let decrypted = self.compute_modexp();
        let decrypted_bytes = Self::limbs_to_bytes(&decrypted);
        let r = Self::check_pkcs1_bytes(&decrypted_bytes, &self.hash);
        proof {
            let d = vstd::arithmetic::power::pow(limbs_nat(old(self).signature@), 65537)
                % limbs_nat(old(self).modulus@);
            lemma_limbs_nat_def(decrypted@);
            assert(bytes_be_as_nat(decrypted_bytes@) == d);
            if r {
                assert(decrypted_bytes@.len() == 256 && bytes_be_as_nat(decrypted_bytes@) == d
                    && pkcs1_ok(decrypted_bytes@, self.hash@));
                assert(pkcs1_matches_value(d, self.hash@));
            } else {
                assert(!pkcs1_matches_value(d, self.hash@)) by {
                    if pkcs1_matches_value(d, self.hash@) {
                        let db2 = choose|db2: Seq<u8>|
                            db2.len() == 256 && bytes_be_as_nat(db2) == d && pkcs1_ok(
                                db2,
                                self.hash@,
                            );
                        lemma_bytes_nat_injective(db2, decrypted_bytes@);
                    }
                }
            }
        }
        r
    }
}

/// One step of the ladder: entry `i` of a chain that starts at `s` and
/// squares modulo `n` holds `s ^ (2^i) mod n`.
proof fn lemma_ladder_step(x: Seq<int>, s: int, n: int, i: int)
    requires
        n > 0,
        x.len() == 18,
        x[0] == s,
        forall|j: int| 0 <= j < 16 ==> #[trigger] x[j + 1] == (x[j] * x[j]) % n,
        1 <= i <= 16,
    ensures
        x[i] == vstd::arithmetic::power::pow(s, vstd::arithmetic::power2::pow2(i as nat)) % n,
    decreases i,
{
    vstd::arithmetic::power2::lemma2_to64();
    if i == 1 {
        assert(x[0int + 1] == (x[0int] * x[0int]) % n);
        vstd::arithmetic::power::lemma_pow1(s);
        vstd::arithmetic::power::lemma_pow_adds(s, 1, 1);
        assert(vstd::arithmetic::power::pow(s, 2) == s * s);
    } else {
        lemma_ladder_step(x, s, n, i - 1);
        let e = vstd::arithmetic::power2::pow2((i - 1) as nat);
        let p = vstd::arithmetic::power::pow(s, e);
        assert(x[(i - 1) + 1] == (x[i - 1] * x[i - 1]) % n);
        vstd::arithmetic::div_mod::lemma_mul_mod_noop_general(p, p, n);
        vstd::arithmetic::power::lemma_pow_adds(s, e, e);
        vstd::arithmetic::power2::lemma_pow2_unfold(i as nat);
        assert(vstd::arithmetic::power2::pow2(i as nat) == e + e);
    }
}

/// The fixed square-and-multiply ladder computes the exponentiation: a
/// chain that starts at the signature, squares modulo the modulus sixteen
/// times and finally multiplies by the signature once ends at
/// `s ^ 65537 mod n`.  This ladder shape is valid precisely because the
/// public exponent 65537 is `2^16 + 1`.
pub proof fn lemma_ladder_computes_modexp(x: Seq<int>, s: int, n: int)
    requires
        n > 0,
        x.len() == 18,
        x[0] == s,
        forall|j: int| 0 <= j < 16 ==> #[trigger] x[j + 1] == (x[j] * x[j]) % n,
        x[17] == (x[16] * s) % n,
    ensures
        x[17] == vstd::arithmetic::power::pow(s, 65537) % n,
{
    lemma_ladder_step(x, s, n, 16);
    vstd::arithmetic::power2::lemma2_to64();
    assert(vstd::arithmetic::power2::pow2(16) == 65536);
    let p = vstd::arithmetic::power::pow(s, 65536);
    assert(x[16] == p % n);
    vstd::arithmetic::div_mod::lemma_mul_mod_noop_left(p, s, n);
    vstd::arithmetic::power::lemma_pow1(s);
    vstd::arithmetic::power::lemma_pow_adds(s, 65536, 1);
}

/// The PKCS#1 v1.5 check rejects every malformed block: one whose first
/// byte is not 0x00, whose second byte is not 0x01, whose padding run
/// contains a byte that is neither 0xFF nor the 0x00 separator, whose
/// separator comes before index 10, whose DigestInfo prefix differs from
/// the fixed sequence, or whose trailing bytes differ from the digest.
pub proof fn lemma_pkcs1_rejects(db: Seq<u8>, hash: Seq<u8>, j: int)
    requires
        db.len() == 256,
    ensures
        db[0] != 0x00 ==> !pkcs1_ok(db, hash),
        db[1] != 0x01 ==> !pkcs1_ok(db, hash),
        (2 <= j < 224 && db[j] != 0xFF && db[j] != 0x00 && (forall|t: int|
            2 <= t < j ==> (#[trigger] db[t]) == 0xFF)) ==> !pkcs1_ok(db, hash),
        (sep_scan(db, 2) matches Option::Some(sep) && sep < 10) ==> !pkcs1_ok(db, hash),
        (sep_scan(db, 2) matches Option::Some(sep) && db.subrange(sep + 1, sep + 20)
            != digest_info_seq()) ==> !pkcs1_ok(db, hash),
        (sep_scan(db, 2) matches Option::Some(sep) && db.subrange(sep + 20, sep + 52) != hash)
            ==> !pkcs1_ok(db, hash),
{
    if 2 <= j < 224 && db[j] != 0xFF && db[j] != 0x00 && (forall|t: int|
        2 <= t < j ==> (#[trigger] db[t]) == 0xFF) {
        lemma_scan_reaches(db, j);
        assert(sep_scan(db, j) is None);
    }
}

} // verus!
