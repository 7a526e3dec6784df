//! SHA-256 gadget: the compression function arithmetized over the generic
//! gate family, and a witness generator that performs bit-true SHA-256.

use vstd::prelude::*;

use crate::boolean::{decompose_u32_kinds, rotr32, xor_kinds};
use crate::field::{fe, FieldElement};
use crate::gate::{
    bool_kind, gates_from, lemma_compose_step, lemma_gates_append, lemma_repeat_kinds_len,
    lemma_repeat_kinds_small,
    not_kind, repeat_kinds, sum_kind, Gate, GateKind, GateSequenceBuilder,
};

verus! {

/// Kind of a row that subtracts the overflow times 2^32 in a modular
/// addition: `a - 2^32 * b - c = 0`.
pub open spec fn overflow_kind() -> GateKind {
    GateKind::Add {
        left: fe(1),
        right: fe(-0x1_0000_0000),
        output: fe(-1),
        constant: fe(0),
    }
}

/// Gate layout of a 32-bit modular addition: a summation row, a boolean row
/// for the overflow bit, and a row subtracting the overflow times 2^32.
pub open spec fn add_mod32_kinds() -> Seq<GateKind> {
    seq![sum_kind(), bool_kind(), overflow_kind()]
}

/// Gate layout of a 32-bit word XOR: an XOR pair per bit, 64 rows.
pub open spec fn xor_words_kinds() -> Seq<GateKind> {
    repeat_kinds(xor_kinds(), 32)
}

/// Gate layout of a 32-bit word AND: one product row per bit.
pub open spec fn and_words_kinds() -> Seq<GateKind> {
    repeat_kinds(seq![bool_kind()], 32)
}

/// Gate layout of a 32-bit word NOT: one negation row per bit.
pub open spec fn not_word_kinds() -> Seq<GateKind> {
    repeat_kinds(seq![not_kind()], 32)
}

/// Gate layout of the four sigma functions: each is two word XORs of
/// already-rotated operands, 128 rows.
pub open spec fn double_xor_kinds() -> Seq<GateKind> {
    xor_words_kinds() + xor_words_kinds()
}

/// Gate layout of the Ch function `(e AND f) XOR (NOT e AND g)`.
pub open spec fn ch_kinds() -> Seq<GateKind> {
    and_words_kinds() + not_word_kinds() + and_words_kinds() + xor_words_kinds()
}

/// Gate layout of the Maj function `(a AND b) XOR (a AND c) XOR (b AND c)`.
pub open spec fn maj_kinds() -> Seq<GateKind> {
    and_words_kinds() + and_words_kinds() + xor_words_kinds() + and_words_kinds()
        + xor_words_kinds()
}

/// Gate layout of one compression round.
pub open spec fn compression_round_kinds() -> Seq<GateKind> {
    double_xor_kinds() + ch_kinds() + repeat_kinds(add_mod32_kinds(), 4) + double_xor_kinds()
        + maj_kinds() + repeat_kinds(add_mod32_kinds(), 3)
}

/// Gate layout of one message-schedule expansion step: the two small sigma
/// functions and three modular additions.
pub open spec fn schedule_step_kinds() -> Seq<GateKind> {
    double_xor_kinds() + double_xor_kinds() + repeat_kinds(add_mod32_kinds(), 3)
}

/// Gate layout of the full message schedule: one expansion step for each of
/// the words 16 to 63.
pub open spec fn message_schedule_kinds() -> Seq<GateKind> {
    repeat_kinds(schedule_step_kinds(), 48)
}

/// Gate layout of one 512-bit block: schedule expansion, 64 compression
/// rounds, 8 final state additions.
pub open spec fn sha256_block_kinds() -> Seq<GateKind> {
    message_schedule_kinds() + repeat_kinds(compression_round_kinds(), 64) + repeat_kinds(
        add_mod32_kinds(),
        8,
    )
}

/// Number of 64-byte blocks a message of `len` bytes occupies once padded.
pub open spec fn num_blocks(len: nat) -> nat {
    ((len + 1 + 8 + 63) / 64) as nat
}

proof fn lemma_singleton_repeat_len(k: GateKind, n: nat)
    ensures
        repeat_kinds(seq![k], n).len() == n,
{
    lemma_repeat_kinds_len(seq![k], n);
    assert(n * seq![k].len() == n) by (nonlinear_arith)
        requires
            seq![k].len() == 1,
    ;
}

proof fn lemma_xor_words_len()
    ensures
        xor_words_kinds().len() == 64,
{
    lemma_repeat_kinds_len(xor_kinds(), 32);
}

proof fn lemma_word_op_lens()
    ensures
        xor_words_kinds().len() == 64,
        and_words_kinds().len() == 32,
        not_word_kinds().len() == 32,
        double_xor_kinds().len() == 128,
        ch_kinds().len() == 160,
        maj_kinds().len() == 224,
        add_mod32_kinds().len() == 3,
{
    lemma_xor_words_len();
    lemma_singleton_repeat_len(bool_kind(), 32);
    lemma_singleton_repeat_len(not_kind(), 32);
}

proof fn lemma_compression_round_len()
    ensures
        compression_round_kinds().len() == 661,
{
    lemma_word_op_lens();
    lemma_repeat_kinds_len(add_mod32_kinds(), 4);
    lemma_repeat_kinds_len(add_mod32_kinds(), 3);
}

proof fn lemma_schedule_step_len()
    ensures
        schedule_step_kinds().len() == 265,
{
    lemma_word_op_lens();
    lemma_repeat_kinds_len(add_mod32_kinds(), 3);
}

proof fn lemma_sha256_block_len()
    ensures
        sha256_block_kinds().len() == 55048,
{
    lemma_schedule_step_len();
    lemma_repeat_kinds_len(schedule_step_kinds(), 48);
    lemma_compression_round_len();
    lemma_repeat_kinds_len(compression_round_kinds(), 64);
    lemma_repeat_kinds_len(add_mod32_kinds(), 8);
}

/// Gadget builder for SHA-256 circuits.
pub struct Sha256Gadget {
    pub builder: GateSequenceBuilder,
}

impl Sha256Gadget {
    /// The gates accumulated so far.
    pub open spec fn gates_seq(self) -> Seq<Gate> {
        self.builder.gates_seq()
    }

    /// The next free row.
    pub open spec fn cursor(self) -> int {
        self.builder.cursor()
    }

    pub open spec fn wf(self) -> bool {
        self.builder.wf()
    }

    /// Create a new SHA-256 gadget starting at the given row.
    pub fn new(start_row: usize) -> (r: Self)
        ensures
            r.wf(),
            r.gates_seq() == Seq::<Gate>::empty(),
            r.cursor() == start_row,
    {
        Sha256Gadget { builder: GateSequenceBuilder::new(start_row) }
    }

    /// Get the current row index.
    pub fn current_row(&self) -> (r: usize)
        ensures
            r == self.cursor(),
    {
        self.builder.current_row()
    }

    /// Bit decomposition of a 32-bit word, as in the boolean gadget:
    /// 39 rows.
    pub fn decompose_word(&mut self) -> (row: usize)
        requires
            old(self).wf(),
            old(self).cursor() + 39 <= usize::MAX,
        ensures
            final(self).wf(),
            final(self).cursor() == old(self).cursor() + 39,
            final(self).gates_seq() == old(self).gates_seq() + gates_from(
                decompose_u32_kinds(),
                old(self).cursor(),
            ),
            row == old(self).cursor(),
    {
        proof {
            lemma_singleton_repeat_len(bool_kind(), 32);
            lemma_singleton_repeat_len(sum_kind(), 7);
        }
        let row = self.builder.push_repeated(
            GateKind::Mul { product: FieldElement { value: 1 }, output: FieldElement { value: -1 } },
            32,
        );
        self.builder.push_repeated(
            GateKind::Add {
                left: FieldElement { value: 1 },
                right: FieldElement { value: 1 },
                output: FieldElement { value: -1 },
                constant: FieldElement { value: 0 },
            },
            7,
        );
        proof {
            lemma_gates_append(
                old(self).gates_seq(),
                repeat_kinds(seq![bool_kind()], 32),
                repeat_kinds(seq![sum_kind()], 7),
                old(self).cursor(),
            );
        }
        row
    }

    /// Modular addition `(a + b) mod 2^32`: a summation row, a boolean
    /// overflow row, and a row subtracting the overflow times 2^32.
    pub fn add_mod32(&mut self) -> (row: usize)
        requires
            old(self).wf(),
            old(self).cursor() + 3 <= usize::MAX,
        ensures
            final(self).wf(),
            final(self).cursor() == old(self).cursor() + 3,
            final(self).gates_seq() == old(self).gates_seq() + gates_from(
                add_mod32_kinds(),
                old(self).cursor(),
            ),
            row == old(self).cursor(),
    {
        let row = self.builder.push(GateKind::Add {
            left: FieldElement { value: 1 },
            right: FieldElement { value: 1 },
            output: FieldElement { value: -1 },
            constant: FieldElement { value: 0 },
        });
        self.builder.push(GateKind::Mul {
            product: FieldElement { value: 1 },
            output: FieldElement { value: -1 },
        });
        self.builder.push(GateKind::Add {
            left: FieldElement { value: 1 },
            right: FieldElement { value: -0x1_0000_0000 },
            output: FieldElement { value: -1 },
            constant: FieldElement { value: 0 },
        });
        proof {
            assert(self.gates_seq() =~= old(self).gates_seq() + gates_from(
                add_mod32_kinds(),
                old(self).cursor(),
            ));
        }
        row
    }

    /// XOR of two 32-bit words, bit by bit: 64 rows.
    pub fn xor_words(&mut self) -> (row: usize)
        requires
            old(self).wf(),
            old(self).cursor() + 64 <= usize::MAX,
        ensures
            final(self).wf(),
            final(self).cursor() == old(self).cursor() + 64,
            final(self).gates_seq() == old(self).gates_seq() + gates_from(
                xor_words_kinds(),
                old(self).cursor(),
            ),
            row == old(self).cursor(),
    {
        let row = self.builder.current_row();
        let ghost g0 = self.gates_seq();
        let ghost c0 = self.cursor();
        proof {
            assert(self.gates_seq() =~= g0 + gates_from(repeat_kinds(xor_kinds(), 0), c0));
        }
        for i in 0..32usize
            invariant
                self.wf(),
                c0 == row,
                0 <= c0,
                c0 + 64 <= usize::MAX,
                self.cursor() == c0 + 2 * i,
                self.gates_seq() == g0 + gates_from(repeat_kinds(xor_kinds(), i as nat), c0),
        {
            proof {
                lemma_repeat_kinds_len(xor_kinds(), i as nat);
                assert((i as nat) * xor_kinds().len() == 2 * i) by (nonlinear_arith)
                    requires
                        xor_kinds().len() == 2,
                ;
            }
            let ghost pre_gates = self.gates_seq();
            let ghost pre_cursor = self.cursor();
            self.builder.push(GateKind::Add {
                left: FieldElement { value: 1 },
                right: FieldElement { value: 1 },
                output: FieldElement { value: -1 },
                constant: FieldElement { value: 0 },
            });
            self.builder.push(GateKind::Mul {
                product: FieldElement { value: 2 },
                output: FieldElement { value: -1 },
            });
            proof {
                lemma_gates_append(
                    pre_gates,
                    seq![sum_kind()],
                    seq![crate::gate::double_product_kind()],
                    pre_cursor,
                );
                assert(seq![sum_kind()] + seq![crate::gate::double_product_kind()]
                    =~= xor_kinds());
                assert(self.gates_seq() == pre_gates + gates_from(xor_kinds(), pre_cursor));
                lemma_compose_step(
                    g0,
                    pre_gates,
                    self.gates_seq(),
                    xor_kinds(),
                    i as nat,
                    c0,
                    pre_cursor,
                );
            }
        }
        proof {
            lemma_repeat_kinds_len(xor_kinds(), 32);
        }
        row
    }

    /// AND of two 32-bit words, bit by bit: 32 rows.
    pub fn and_words(&mut self) -> (row: usize)
        requires
            old(self).wf(),
            old(self).cursor() + 32 <= usize::MAX,
        ensures
            final(self).wf(),
            final(self).cursor() == old(self).cursor() + 32,
            final(self).gates_seq() == old(self).gates_seq() + gates_from(
                and_words_kinds(),
                old(self).cursor(),
            ),
            row == old(self).cursor(),
    {
        proof {
            lemma_singleton_repeat_len(bool_kind(), 32);
        }
        self.builder.push_repeated(
            GateKind::Mul { product: FieldElement { value: 1 }, output: FieldElement { value: -1 } },
            32,
        )
    }

    /// NOT of a 32-bit word, bit by bit: 32 rows.
    pub fn not_word(&mut self) -> (row: usize)
        requires
            old(self).wf(),
            old(self).cursor() + 32 <= usize::MAX,
        ensures
            final(self).wf(),
            final(self).cursor() == old(self).cursor() + 32,
            final(self).gates_seq() == old(self).gates_seq() + gates_from(
                not_word_kinds(),
                old(self).cursor(),
            ),
            row == old(self).cursor(),
    {
        proof {
            lemma_singleton_repeat_len(not_kind(), 32);
        }
        self.builder.push_repeated(
            GateKind::Add {
                left: FieldElement { value: -1 },
                right: FieldElement { value: 0 },
                output: FieldElement { value: -1 },
                constant: FieldElement { value: 1 },
            },
            32,
        )
    }

    /// The Ch function `(e AND f) XOR (NOT e AND g)`: 160 rows.
    pub fn ch(&mut self) -> (row: usize)
        requires
            old(self).wf(),
            old(self).cursor() + 160 <= usize::MAX,
        ensures
            final(self).wf(),
            final(self).cursor() == old(self).cursor() + 160,
            final(self).gates_seq() == old(self).gates_seq() + gates_from(
                ch_kinds(),
                old(self).cursor(),
            ),
            row == old(self).cursor(),
    {
        proof {
            lemma_word_op_lens();
        }
        let row = self.and_words();
        self.not_word();
        proof {
            lemma_gates_append(
                old(self).gates_seq(),
                and_words_kinds(),
                not_word_kinds(),
                old(self).cursor(),
            );
        }
        self.and_words();
        proof {
            lemma_gates_append(
                old(self).gates_seq(),
                and_words_kinds() + not_word_kinds(),
                and_words_kinds(),
                old(self).cursor(),
            );
        }
        self.xor_words();
        proof {
            lemma_gates_append(
                old(self).gates_seq(),
                and_words_kinds() + not_word_kinds() + and_words_kinds(),
                xor_words_kinds(),
                old(self).cursor(),
            );
        }
        row
    }

    /// The Maj function `(a AND b) XOR (a AND c) XOR (b AND c)`: 224 rows.
    pub fn maj(&mut self) -> (row: usize)
        requires
            old(self).wf(),
            old(self).cursor() + 224 <= usize::MAX,
        ensures
            final(self).wf(),
            final(self).cursor() == old(self).cursor() + 224,
            final(self).gates_seq() == old(self).gates_seq() + gates_from(
                maj_kinds(),
                old(self).cursor(),
            ),
            row == old(self).cursor(),
    {
        proof {
            lemma_word_op_lens();
        }
        let row = self.and_words();
        self.and_words();
        proof {
            lemma_gates_append(
                old(self).gates_seq(),
                and_words_kinds(),
                and_words_kinds(),
                old(self).cursor(),
            );
        }
        self.xor_words();
        proof {
            lemma_gates_append(
                old(self).gates_seq(),
                and_words_kinds() + and_words_kinds(),
                xor_words_kinds(),
                old(self).cursor(),
            );
        }
        self.and_words();
        proof {
            lemma_gates_append(
                old(self).gates_seq(),
                and_words_kinds() + and_words_kinds() + xor_words_kinds(),
                and_words_kinds(),
                old(self).cursor(),
            );
        }
        self.xor_words();
        proof {
            lemma_gates_append(
                old(self).gates_seq(),
                and_words_kinds() + and_words_kinds() + xor_words_kinds() + and_words_kinds(),
                xor_words_kinds(),
                old(self).cursor(),
            );
        }
        row
    }

    /// The Sigma0 function, two word XORs of rotated copies: 128 rows.
    pub fn sigma0(&mut self) -> (row: usize)
        requires
            old(self).wf(),
            old(self).cursor() + 128 <= usize::MAX,
        ensures
            final(self).wf(),
            final(self).cursor() == old(self).cursor() + 128,
            final(self).gates_seq() == old(self).gates_seq() + gates_from(
                double_xor_kinds(),
                old(self).cursor(),
            ),
            row == old(self).cursor(),
    {
        self.double_xor()
    }

    /// The Sigma1 function, two word XORs of rotated copies: 128 rows.
    pub fn sigma1(&mut self) -> (row: usize)
        requires
            old(self).wf(),
            old(self).cursor() + 128 <= usize::MAX,
        ensures
            final(self).wf(),
            final(self).cursor() == old(self).cursor() + 128,
            final(self).gates_seq() == old(self).gates_seq() + gates_from(
                double_xor_kinds(),
                old(self).cursor(),
            ),
            row == old(self).cursor(),
    {
        self.double_xor()
    }

    /// The sigma0 function of the message schedule: 128 rows.
    pub fn small_sigma0(&mut self) -> (row: usize)
        requires
            old(self).wf(),
            old(self).cursor() + 128 <= usize::MAX,
        ensures
            final(self).wf(),
            final(self).cursor() == old(self).cursor() + 128,
            final(self).gates_seq() == old(self).gates_seq() + gates_from(
                double_xor_kinds(),
                old(self).cursor(),
            ),
            row == old(self).cursor(),
    {
        self.double_xor()
    }

    /// The sigma1 function of the message schedule: 128 rows.
    pub fn small_sigma1(&mut self) -> (row: usize)
        requires
            old(self).wf(),
            old(self).cursor() + 128 <= usize::MAX,
        ensures
            final(self).wf(),
            final(self).cursor() == old(self).cursor() + 128,
            final(self).gates_seq() == old(self).gates_seq() + gates_from(
                double_xor_kinds(),
                old(self).cursor(),
            ),
            row == old(self).cursor(),
    {
        self.double_xor()
    }

    /// Two consecutive word XORs, the shared layout of the four sigma
    /// functions.
    fn double_xor(&mut self) -> (row: usize)
        requires
            old(self).wf(),
            old(self).cursor() + 128 <= usize::MAX,
        ensures
            final(self).wf(),
            final(self).cursor() == old(self).cursor() + 128,
            final(self).gates_seq() == old(self).gates_seq() + gates_from(
                double_xor_kinds(),
                old(self).cursor(),
            ),
            row == old(self).cursor(),
    {
        proof {
            lemma_word_op_lens();
        }
        let row = self.xor_words();
        self.xor_words();
        proof {
            lemma_gates_append(
                old(self).gates_seq(),
                xor_words_kinds(),
                xor_words_kinds(),
                old(self).cursor(),
            );
        }
        row
    }

    /// One round of SHA-256 compression: 661 rows.
    pub fn compression_round(&mut self) -> (row: usize)
        requires
            old(self).wf(),
            old(self).cursor() + 661 <= usize::MAX,
        ensures
            final(self).wf(),
            final(self).cursor() == old(self).cursor() + 661,
            final(self).gates_seq() == old(self).gates_seq() + gates_from(
                compression_round_kinds(),
                old(self).cursor(),
            ),
            row == old(self).cursor(),
    {
        proof {
            lemma_word_op_lens();
            lemma_repeat_kinds_len(add_mod32_kinds(), 4);
            lemma_repeat_kinds_len(add_mod32_kinds(), 3);
        }
        let row = self.sigma1();
        self.ch();
        proof {
            lemma_gates_append(
                old(self).gates_seq(),
                double_xor_kinds(),
                ch_kinds(),
                old(self).cursor(),
            );
        }
        let ghost dx = double_xor_kinds();
        let ghost ck = ch_kinds();
        let ghost mk = maj_kinds();
        let ghost am = add_mod32_kinds();
        let ghost c0 = old(self).cursor();
        let ghost pre = old(self).gates_seq();
        self.add_mod32();
        proof {
            lemma_gates_append(pre, dx + ck, am, c0);
        }
        self.add_mod32();
        proof {
            lemma_gates_append(pre, dx + ck + am, am, c0);
        }
        self.add_mod32();
        proof {
            lemma_gates_append(pre, dx + ck + am + am, am, c0);
        }
        self.add_mod32();
        proof {
            lemma_gates_append(pre, dx + ck + am + am + am, am, c0);
        }
        self.sigma0();
        proof {
            lemma_gates_append(pre, dx + ck + am + am + am + am, dx, c0);
        }
        self.maj();
        proof {
            lemma_gates_append(pre, dx + ck + am + am + am + am + dx, mk, c0);
        }
        self.add_mod32();
        proof {
            lemma_gates_append(pre, dx + ck + am + am + am + am + dx + mk, am, c0);
        }
        self.add_mod32();
        proof {
            lemma_gates_append(pre, dx + ck + am + am + am + am + dx + mk + am, am, c0);
        }
        self.add_mod32();
        proof {
            lemma_gates_append(pre, dx + ck + am + am + am + am + dx + mk + am + am, am, c0);
            lemma_repeat_kinds_small(am);
            assert(dx + ck + am + am + am + am + dx + mk + am + am + am
                =~= compression_round_kinds());
        }
        row
    }

    /// Message schedule expansion for words 16 to 63: 48 expansion steps of
    /// 265 rows each, 12720 rows in all.
    pub fn message_schedule(&mut self) -> (row: usize)
        requires
            old(self).wf(),
            old(self).cursor() + 12720 <= usize::MAX,
        ensures
            final(self).wf(),
            final(self).cursor() == old(self).cursor() + 12720,
            final(self).gates_seq() == old(self).gates_seq() + gates_from(
                message_schedule_kinds(),
                old(self).cursor(),
            ),
            row == old(self).cursor(),
    {
        let row = self.builder.current_row();
        let ghost g0 = self.gates_seq();
        let ghost c0 = self.cursor();
        proof {
            assert(self.gates_seq() =~= g0 + gates_from(repeat_kinds(schedule_step_kinds(), 0), c0));
        }
        for i in 16..64usize
            invariant
                self.wf(),
                c0 == row,
                0 <= c0,
                c0 + 12720 <= usize::MAX,
                self.cursor() == c0 + 265 * (i - 16),
                self.gates_seq() == g0 + gates_from(
                    repeat_kinds(schedule_step_kinds(), (i - 16) as nat),
                    c0,
                ),
        {
            proof {
                lemma_schedule_step_len();
                lemma_repeat_kinds_len(schedule_step_kinds(), (i - 16) as nat);
                assert(((i - 16) as nat) * schedule_step_kinds().len() == 265 * (i - 16))
                    by (nonlinear_arith)
                    requires
                        schedule_step_kinds().len() == 265,
                        16 <= i,
                ;
            }
            let ghost pre_gates = self.gates_seq();
            let ghost pre_cursor = self.cursor();
            self.schedule_step();
            proof {
                lemma_compose_step(
                    g0,
                    pre_gates,
                    self.gates_seq(),
                    schedule_step_kinds(),
                    (i - 16) as nat,
                    c0,
                    pre_cursor,
                );
            }
        }
        proof {
            lemma_schedule_step_len();
            lemma_repeat_kinds_len(schedule_step_kinds(), 48);
        }
        row
    }

    /// One message-schedule expansion step: sigma1, sigma0 and three
    /// modular additions, 265 rows.
    fn schedule_step(&mut self) -> (row: usize)
        requires
            old(self).wf(),
            old(self).cursor() + 265 <= usize::MAX,
        ensures
            final(self).wf(),
            final(self).cursor() == old(self).cursor() + 265,
            final(self).gates_seq() == old(self).gates_seq() + gates_from(
                schedule_step_kinds(),
                old(self).cursor(),
            ),
            row == old(self).cursor(),
    {
        proof {
            lemma_word_op_lens();
        }
        let row = self.small_sigma1();
        self.small_sigma0();
        proof {
            lemma_gates_append(
                old(self).gates_seq(),
                double_xor_kinds(),
                double_xor_kinds(),
                old(self).cursor(),
            );
        }
        let ghost dx = double_xor_kinds();
        let ghost am = add_mod32_kinds();
        let ghost c0 = old(self).cursor();
        let ghost pre = old(self).gates_seq();
        self.add_mod32();
        proof {
            lemma_gates_append(pre, dx + dx, am, c0);
        }
        self.add_mod32();
        proof {
            lemma_gates_append(pre, dx + dx + am, am, c0);
        }
        self.add_mod32();
        proof {
            lemma_gates_append(pre, dx + dx + am + am, am, c0);
            lemma_repeat_kinds_small(am);
            assert(dx + dx + am + am + am =~= schedule_step_kinds());
        }
        row
    }

    /// Full SHA-256 compression for one 512-bit block: 55048 rows.
    pub fn sha256_block(&mut self) -> (row: usize)
        requires
            old(self).wf(),
            old(self).cursor() + 55048 <= usize::MAX,
        ensures
            final(self).wf(),
            final(self).cursor() == old(self).cursor() + 55048,
            final(self).gates_seq() == old(self).gates_seq() + gates_from(
                sha256_block_kinds(),
                old(self).cursor(),
            ),
            row == old(self).cursor(),
    {
        proof {
            lemma_schedule_step_len();
            lemma_repeat_kinds_len(schedule_step_kinds(), 48);
            lemma_compression_round_len();
        }
        let row = self.message_schedule();
        let ghost g1 = self.gates_seq();
        let ghost c1 = self.cursor();
        proof {
            assert(self.gates_seq() =~= g1 + gates_from(
                repeat_kinds(compression_round_kinds(), 0),
                c1,
            ));
        }
        for i in 0..64usize
            invariant
                self.wf(),
                c1 == old(self).cursor() + 12720,
                0 <= old(self).cursor(),
                old(self).cursor() + 55048 <= usize::MAX,
                self.cursor() == c1 + 661 * i,
                g1 == old(self).gates_seq() + gates_from(
                    message_schedule_kinds(),
                    old(self).cursor(),
                ),
                self.gates_seq() == g1 + gates_from(
                    repeat_kinds(compression_round_kinds(), i as nat),
                    c1,
                ),
        {
            proof {
                lemma_compression_round_len();
                lemma_repeat_kinds_len(compression_round_kinds(), i as nat);
                assert((i as nat) * compression_round_kinds().len() == 661 * i)
                    by (nonlinear_arith)
                    requires
                        compression_round_kinds().len() == 661,
                ;
            }
            let ghost pre_gates = self.gates_seq();
            let ghost pre_cursor = self.cursor();
            self.compression_round();
            proof {
                lemma_compose_step(
                    g1,
                    pre_gates,
                    self.gates_seq(),
                    compression_round_kinds(),
                    i as nat,
                    c1,
                    pre_cursor,
                );
            }
        }
        proof {
            lemma_repeat_kinds_len(compression_round_kinds(), 64);
        }
        let ghost g2 = self.gates_seq();
        let ghost c2 = self.cursor();
        for i in 0..8usize
            invariant
                self.wf(),
                c2 == old(self).cursor() + 55024,
                0 <= old(self).cursor(),
                old(self).cursor() + 55048 <= usize::MAX,
                self.cursor() == c2 + 3 * i,
                g2 == old(self).gates_seq() + gates_from(
                    message_schedule_kinds() + repeat_kinds(compression_round_kinds(), 64),
                    old(self).cursor(),
                ),
                self.gates_seq() == g2 + gates_from(
                    repeat_kinds(add_mod32_kinds(), i as nat),
                    c2,
                ),
        {
            proof {
                lemma_repeat_kinds_len(add_mod32_kinds(), i as nat);
                assert((i as nat) * add_mod32_kinds().len() == 3 * i) by (nonlinear_arith)
                    requires
                        add_mod32_kinds().len() == 3,
                ;
            }
            let ghost pre_gates = self.gates_seq();
            let ghost pre_cursor = self.cursor();
            self.add_mod32();
            proof {
                lemma_compose_step(
                    g2,
                    pre_gates,
                    self.gates_seq(),
                    add_mod32_kinds(),
                    i as nat,
                    c2,
                    pre_cursor,
                );
            }
        }
        proof {
            lemma_repeat_kinds_len(add_mod32_kinds(), 8);
            lemma_gates_append(
                old(self).gates_seq(),
                message_schedule_kinds(),
                repeat_kinds(compression_round_kinds(), 64),
                old(self).cursor(),
            );
            lemma_gates_append(
                old(self).gates_seq(),
                message_schedule_kinds() + repeat_kinds(compression_round_kinds(), 64),
                repeat_kinds(add_mod32_kinds(), 8),
                old(self).cursor(),
            );
        }
        row
    }

    /// Emit the blocks for hashing a message of `message_bytes` bytes:
    /// padding adds at least 9 bytes, and each 64-byte block of the padded
    /// message costs 55048 rows.
    pub fn hash_message(&mut self, message_bytes: usize) -> (row: usize)
        requires
            old(self).wf(),
            message_bytes + 72 <= usize::MAX,
            old(self).cursor() + num_blocks(message_bytes as nat) * 55048 <= usize::MAX,
        ensures
            final(self).wf(),
            final(self).cursor() == old(self).cursor() + num_blocks(message_bytes as nat) * 55048,
            final(self).gates_seq() == old(self).gates_seq() + gates_from(
                repeat_kinds(sha256_block_kinds(), num_blocks(message_bytes as nat)),
                old(self).cursor(),
            ),
            row == old(self).cursor(),
    {
        let row = self.builder.current_row();
        let padded_len = message_bytes + 1 + 8;
        let nblocks = (padded_len + 63) / 64;
        proof {
            assert(nblocks == num_blocks(message_bytes as nat));
        }
        let ghost g0 = self.gates_seq();
        let ghost c0 = self.cursor();
        proof {
            assert(self.gates_seq() =~= g0 + gates_from(repeat_kinds(sha256_block_kinds(), 0), c0));
            lemma_sha256_block_len();
            lemma_repeat_kinds_len(sha256_block_kinds(), nblocks as nat);
            assert((nblocks as nat) * sha256_block_kinds().len() == nblocks * 55048)
                by (nonlinear_arith)
                requires
                    sha256_block_kinds().len() == 55048,
            ;
        }
        for i in 0..nblocks
            invariant
                self.wf(),
                c0 == row,
                0 <= c0,
                nblocks == num_blocks(message_bytes as nat),
                c0 + nblocks * 55048 <= usize::MAX,
                self.cursor() == c0 + 55048 * i,
                self.gates_seq() == g0 + gates_from(
                    repeat_kinds(sha256_block_kinds(), i as nat),
                    c0,
                ),
        {
            proof {
                lemma_sha256_block_len();
                lemma_repeat_kinds_len(sha256_block_kinds(), i as nat);
                assert((i as nat) * sha256_block_kinds().len() == 55048 * i) by (nonlinear_arith)
                    requires
                        sha256_block_kinds().len() == 55048,
                ;
                assert(55048 * i + 55048 <= nblocks * 55048) by (nonlinear_arith)
                    requires
                        i < nblocks,
                ;
            }
            let ghost pre_gates = self.gates_seq();
            let ghost pre_cursor = self.cursor();
            self.sha256_block();
            proof {
                lemma_compose_step(
                    g0,
                    pre_gates,
                    self.gates_seq(),
                    sha256_block_kinds(),
                    i as nat,
                    c0,
                    pre_cursor,
                );
            }
        }
        proof {
            lemma_sha256_block_len();
            lemma_repeat_kinds_len(sha256_block_kinds(), nblocks as nat);
            assert((nblocks as nat) * sha256_block_kinds().len() == nblocks * 55048)
                by (nonlinear_arith)
                requires
                    sha256_block_kinds().len() == 55048,
            ;
        }
        row
    }

    /// Consume the gadget and return the gates with the final cursor.
    pub fn build(self) -> (r: (Vec<Gate>, usize))
        ensures
            r.0@ == self.gates_seq(),
            r.1 == self.cursor(),
    {
        self.builder.build()
    }
}

/// 32-bit wrapping sum.
pub open spec fn wadd(a: u32, b: u32) -> u32 {
    ((a + b) % 0x1_0000_0000) as u32
}

/// The Ch round function.
pub open spec fn ch_of(e: u32, f: u32, g: u32) -> u32 {
    (e & f) ^ ((!e) & g)
}

/// The Maj round function.
pub open spec fn maj_of(a: u32, b: u32, c: u32) -> u32 {
    (a & b) ^ (a & c) ^ (b & c)
}

/// The Sigma0 round function.
pub open spec fn big_sigma0(a: u32) -> u32 {
    rotr32(a, 2) ^ rotr32(a, 13) ^ rotr32(a, 22)
}

/// The Sigma1 round function.
pub open spec fn big_sigma1(e: u32) -> u32 {
    rotr32(e, 6) ^ rotr32(e, 11) ^ rotr32(e, 25)
}

/// The sigma0 schedule function.
pub open spec fn small_sigma0_of(x: u32) -> u32 {
    rotr32(x, 7) ^ rotr32(x, 18) ^ (x >> 3)
}

/// The sigma1 schedule function.
pub open spec fn small_sigma1_of(x: u32) -> u32 {
    rotr32(x, 17) ^ rotr32(x, 19) ^ (x >> 10)
}

/// The initial hash state H0 to H7.
pub open spec fn sha_h_init() -> Seq<u32> {
    seq![
        0x6a09e667u32,
        0xbb67ae85u32,
        0x3c6ef372u32,
        0xa54ff53au32,
        0x510e527fu32,
        0x9b05688cu32,
        0x1f83d9abu32,
        0x5be0cd19u32,
    ]
}

/// The round constants K0 to K63.
pub open spec fn sha_k() -> Seq<u32> {
    seq![
        0x428a2f98u32, 0x71374491u32, 0xb5c0fbcfu32, 0xe9b5dba5u32, 0x3956c25bu32, 0x59f111f1u32,
        0x923f82a4u32, 0xab1c5ed5u32, 0xd807aa98u32, 0x12835b01u32, 0x243185beu32, 0x550c7dc3u32,
        0x72be5d74u32, 0x80deb1feu32, 0x9bdc06a7u32, 0xc19bf174u32, 0xe49b69c1u32, 0xefbe4786u32,
        0x0fc19dc6u32, 0x240ca1ccu32, 0x2de92c6fu32, 0x4a7484aau32, 0x5cb0a9dcu32, 0x76f988dau32,
        0x983e5152u32, 0xa831c66du32, 0xb00327c8u32, 0xbf597fc7u32, 0xc6e00bf3u32, 0xd5a79147u32,
        0x06ca6351u32, 0x14292967u32, 0x27b70a85u32, 0x2e1b2138u32, 0x4d2c6dfcu32, 0x53380d13u32,
        0x650a7354u32, 0x766a0abbu32, 0x81c2c92eu32, 0x92722c85u32, 0xa2bfe8a1u32, 0xa81a664bu32,
        0xc24b8b70u32, 0xc76c51a3u32, 0xd192e819u32, 0xd6990624u32, 0xf40e3585u32, 0x106aa070u32,
        0x19a4c116u32, 0x1e376c08u32, 0x2748774cu32, 0x34b0bcb5u32, 0x391c0cb3u32, 0x4ed8aa4au32,
        0x5b9cca4fu32, 0x682e6ff3u32, 0x748f82eeu32, 0x78a5636fu32, 0x84c87814u32, 0x8cc70208u32,
        0x90befffau32, 0xa4506cebu32, 0xbef9a3f7u32, 0xc67178f2u32,
    ]
}

/// The big-endian 32-bit word at offset `4*i` of a block.
pub open spec fn be_word(block: Seq<u8>, i: int) -> u32 {
    (block[4 * i] * 0x1000000 + block[4 * i + 1] * 0x10000 + block[4 * i + 2] * 0x100 + block[4 * i
        + 3]) as u32
}

/// Word `i` of the message schedule of a 64-byte block.
pub open spec fn w_word(block: Seq<u8>, i: int) -> u32
    decreases i,
{
    if i < 16 {
        be_word(block, i)
    } else {
        wadd(
            wadd(
                wadd(w_word(block, i - 16), small_sigma0_of(w_word(block, i - 15))),
                w_word(block, i - 7),
            ),
            small_sigma1_of(w_word(block, i - 2)),
        )
    }
}

/// One compression round applied to the eight-word state, with round
/// constant `ki` and schedule word `wi`.
pub open spec fn round_step(st: Seq<u32>, ki: u32, wi: u32) -> Seq<u32> {
    let s1 = big_sigma1(st[4]);
    let ch = ch_of(st[4], st[5], st[6]);
    let temp1 = wadd(wadd(wadd(wadd(st[7], s1), ch), ki), wi);
    let s0 = big_sigma0(st[0]);
    let mj = maj_of(st[0], st[1], st[2]);
    let temp2 = wadd(s0, mj);
    seq![
        wadd(temp1, temp2),
        st[0],
        st[1],
        st[2],
        wadd(st[3], temp1),
        st[4],
        st[5],
        st[6],
    ]
}

/// The state after the first `n` compression rounds on a block.
pub open spec fn rounds(block: Seq<u8>, st: Seq<u32>, n: int) -> Seq<u32>
    decreases n,
{
    if n <= 0 {
        st
    } else {
        round_step(rounds(block, st, n - 1), sha_k()[n - 1], w_word(block, n - 1))
    }
}

/// The compression function: 64 rounds followed by the feed-forward
/// addition of the incoming state.
pub open spec fn compress(h: Seq<u32>, block: Seq<u8>) -> Seq<u32> {
    let fin = rounds(block, h, 64);
    Seq::new(8, |i: int| wadd(h[i], fin[i]))
}

/// The hash state after the first `k` blocks of a padded message.
pub open spec fn state_after(padded: Seq<u8>, k: int) -> Seq<u32>
    decreases k,
{
    if k <= 0 {
        sha_h_init()
    } else {
        compress(state_after(padded, k - 1), padded.subrange(64 * (k - 1), 64 * k))
    }
}

/// How many zero bytes the padding inserts for a message of `len` bytes.
pub open spec fn pad_zeros(len: nat) -> nat {
    (((56 - ((len + 1) % 64)) + 64) % 64) as nat
}

/// The 64-bit big-endian encoding of `n`.
pub open spec fn be64_bytes(n: u64) -> Seq<u8> {
    Seq::new(8, |i: int| (n >> ((56 - 8 * i) as u64)) as u8)
}

/// The standard padding: append 0x80, zero-pad to 56 mod 64, then append
/// the original length in bits as a 64-bit big-endian value.
pub open spec fn spec_pad(msg: Seq<u8>) -> Seq<u8> {
    msg + seq![0x80u8] + Seq::new(pad_zeros(msg.len()), |i: int| 0u8) + be64_bytes(
        (msg.len() * 8) as u64,
    )
}

/// The SHA-256 digest of a message: the final state's words in big-endian
/// byte order.
pub open spec fn spec_sha256(msg: Seq<u8>) -> Seq<u8> {
    let padded = spec_pad(msg);
    let h = state_after(padded, padded.len() as int / 64);
    Seq::new(
        32,
        |i: int|
            {
                let w = h[i / 4];
                if i % 4 == 0 {
                    (w >> 24u32) as u8
                } else if i % 4 == 1 {
                    (w >> 16u32) as u8
                } else if i % 4 == 2 {
                    (w >> 8u32) as u8
                } else {
                    w as u8
                }
            },
    )
}

fn wadd_e(a: u32, b: u32) -> (r: u32)
    ensures
        r == wadd(a, b),
{
    (((a as u64) + (b as u64)) % 0x1_0000_0000) as u32
}

fn rotr_e(x: u32, n: u32) -> (r: u32)
    requires
        0 < n < 32,
    ensures
        r == rotr32(x, n),
{
    (x >> n) | (x << (32 - n))
}

fn big_sigma0_e(a: u32) -> (r: u32)
    ensures
        r == big_sigma0(a),
{
    rotr_e(a, 2) ^ rotr_e(a, 13) ^ rotr_e(a, 22)
}

fn big_sigma1_e(e: u32) -> (r: u32)
    ensures
        r == big_sigma1(e),
{
    rotr_e(e, 6) ^ rotr_e(e, 11) ^ rotr_e(e, 25)
}

fn small_sigma0_e(x: u32) -> (r: u32)
    ensures
        r == small_sigma0_of(x),
{
    rotr_e(x, 7) ^ rotr_e(x, 18) ^ (x >> 3)
}

fn small_sigma1_e(x: u32) -> (r: u32)
    ensures
        r == small_sigma1_of(x),
{
    rotr_e(x, 17) ^ rotr_e(x, 19) ^ (x >> 10)
}

fn h_init_words() -> (h: [u32; 8])
    ensures
        h@ == sha_h_init(),
{
    let h: [u32; 8] = [
        0x6a09e667,
        0xbb67ae85,
        0x3c6ef372,
        0xa54ff53a,
        0x510e527f,
        0x9b05688c,
        0x1f83d9ab,
        0x5be0cd19,
    ];
    proof {
        assert(h@ =~= sha_h_init());
    }
    h
}

fn round_constant(i: usize) -> (r: u32)
    requires
        i < 64,
    ensures
        r == sha_k()[i as int],
{
    let k: [u32; 64] = [
        0x428a2f98, 0x71374491, 0xb5c0fbcf, 0xe9b5dba5, 0x3956c25b, 0x59f111f1, 0x923f82a4,
        0xab1c5ed5, 0xd807aa98, 0x12835b01, 0x243185be, 0x550c7dc3, 0x72be5d74, 0x80deb1fe,
        0x9bdc06a7, 0xc19bf174, 0xe49b69c1, 0xefbe4786, 0x0fc19dc6, 0x240ca1cc, 0x2de92c6f,
        0x4a7484aa, 0x5cb0a9dc, 0x76f988da, 0x983e5152, 0xa831c66d, 0xb00327c8, 0xbf597fc7,
        0xc6e00bf3, 0xd5a79147, 0x06ca6351, 0x14292967, 0x27b70a85, 0x2e1b2138, 0x4d2c6dfc,
        0x53380d13, 0x650a7354, 0x766a0abb, 0x81c2c92e, 0x92722c85, 0xa2bfe8a1, 0xa81a664b,
        0xc24b8b70, 0xc76c51a3, 0xd192e819, 0xd6990624, 0xf40e3585, 0x106aa070, 0x19a4c116,
        0x1e376c08, 0x2748774c, 0x34b0bcb5, 0x391c0cb3, 0x4ed8aa4a, 0x5b9cca4f, 0x682e6ff3,
        0x748f82ee, 0x78a5636f, 0x84c87814, 0x8cc70208, 0x90befffa, 0xa4506ceb, 0xbef9a3f7,
        0xc67178f2,
    ];
    proof {
        assert(k@ =~= sha_k());
    }
    k[i]
}

/// Witness generator for SHA-256: performs bit-true SHA-256 and keeps the
/// final hash words for the witness table.
pub struct Sha256Witness {
    words: [u32; 8],
}

impl Sha256Witness {
    /// The eight words of the most recently computed hash.
    pub closed spec fn hash_words_view(self) -> Seq<u32> {
        self.words@
    }

    /// A fresh witness generator with an all-zero state.
    pub fn new() -> (r: Self)
        ensures
            r.hash_words_view() == Seq::new(8, |i: int| 0u32),
    {
        let r = Sha256Witness { words: [0; 8] };
        proof {
            assert(r.hash_words_view() =~= Seq::new(8, |i: int| 0u32));
        }
        r
    }

    /// The standard SHA-256 padding of a message.
    pub fn pad_message(message: &[u8]) -> (padded: Vec<u8>)
        requires
            message@.len() * 8 <= u64::MAX,
            message@.len() + 72 <= usize::MAX,
        ensures
            padded@ == spec_pad(message@),
            padded@.len() % 64 == 0,
            padded@.len() == message@.len() + 1 + pad_zeros(message@.len()) + 8,
    {
        let len = message.len();
        let mut padded: Vec<u8> = Vec::new();
        for i in 0..len
            invariant
                len == message@.len(),
                padded@ == message@.subrange(0, i as int),
        {
            padded.push(message[i]);
            proof {
                assert(padded@ =~= message@.subrange(0, i + 1));
            }
        }
        proof {
            assert(padded@ =~= message@);
        }
        padded.push(0x80);

        let rem = (len + 1) % 64;
        let zeros = if rem <= 56 {
            56 - rem
        } else {
            56 + 64 - rem
        };
        proof {
            assert(zeros == pad_zeros(len as nat));
        }
        let ghost before_zeros = padded@;
        for i in 0..zeros
            invariant
                padded@ == before_zeros + Seq::new(i as nat, |j: int| 0u8),
        {
            padded.push(0x00);
            proof {
                assert(padded@ =~= before_zeros + Seq::new((i + 1) as nat, |j: int| 0u8));
            }
        }

        let bits: u64 = (len as u64) * 8;
        padded.push((bits >> 56) as u8);
        padded.push(#[verifier::truncate] ((bits >> 48) as u8));
        padded.push(#[verifier::truncate] ((bits >> 40) as u8));
        padded.push(#[verifier::truncate] ((bits >> 32) as u8));
        padded.push(#[verifier::truncate] ((bits >> 24) as u8));
        padded.push(#[verifier::truncate] ((bits >> 16) as u8));
        padded.push(#[verifier::truncate] ((bits >> 8) as u8));
        padded.push(#[verifier::truncate] (bits as u8));
        proof {
            lemma_shr_zero64(bits);
            assert(padded@ =~= spec_pad(message@));
            assert(message@.len() + 1 + pad_zeros(message@.len()) == 56 + 64 * ((message@.len()
                + 1 + pad_zeros(message@.len()) - 56) / 64)) by {
                assert((message@.len() + 1 + pad_zeros(message@.len())) % 64 == 56);
            }
            assert(padded@.len() % 64 == 0);
        }
        padded
    }

    /// Hash a message: pads it, compresses every block, stores the final
    /// state and returns the digest bytes.
    pub fn compute(&mut self, message: &[u8]) -> (digest: [u8; 32])
        requires
            message@.len() * 8 <= u64::MAX,
            message@.len() + 72 <= usize::MAX,
        ensures
            digest@ == spec_sha256(message@),
            final(self).hash_words_view() == state_after(
                spec_pad(message@),
                spec_pad(message@).len() as int / 64,
            ),
    {
        let padded = Self::pad_message(message);
        let mut h = h_init_words();
        let nblocks = padded.len() / 64;
        proof {
            assert(h@ == state_after(padded@, 0));
        }
        for b in 0..nblocks
            invariant
                padded@ == spec_pad(message@),
                padded@.len() % 64 == 0,
                padded@.len() <= usize::MAX,
                nblocks == padded@.len() as int / 64,
                h@.len() == 8,
                h@ == state_after(padded@, b as int),
        {
            proof {
                vstd::arithmetic::div_mod::lemma_fundamental_div_mod(padded@.len() as int, 64);
                assert(64 * (b as int) + 64 <= padded@.len());
            }
            let off = b * 64;
            h = process_block(&h, &padded, off);
            proof {
                assert(padded@.subrange(off as int, off as int + 64) == padded@.subrange(
                    64 * (b as int),
                    64 * (b as int + 1),
                ));
                assert(h@ == state_after(padded@, b as int + 1));
            }
        }
        let mut digest: [u8; 32] = [0; 32];
        for i in 0..8usize
            invariant
                h@.len() == 8,
                digest@.len() == 32,
                forall|j: int|
                    0 <= j < 4 * i ==> digest@[j] == {
                        let w = h@[j / 4];
                        if j % 4 == 0 {
                            (w >> 24u32) as u8
                        } else if j % 4 == 1 {
                            (w >> 16u32) as u8
                        } else if j % 4 == 2 {
                            (w >> 8u32) as u8
                        } else {
                            w as u8
                        }
                    },
        {
            digest[4 * i] = (h[i] >> 24) as u8;
            digest[4 * i + 1] = #[verifier::truncate] ((h[i] >> 16) as u8);
            digest[4 * i + 2] = #[verifier::truncate] ((h[i] >> 8) as u8);
            digest[4 * i + 3] = #[verifier::truncate] (h[i] as u8);
        }
        self.words = h;
        proof {
            assert(digest@ =~= spec_sha256(message@));
        }
        digest
    }

    /// The eight final hash words as field elements.
    pub fn get_hash_words(&self) -> (r: [FieldElement; 8])
        ensures
            forall|i: int| 0 <= i < 8 ==> (#[trigger] r@[i]).value == self.hash_words_view()[i],
    {
        let mut r = [FieldElement { value: 0 }; 8];
        for i in 0..8usize
            invariant
                r@.len() == 8,
                forall|j: int| 0 <= j < i ==> (#[trigger] r@[j]).value == self.hash_words_view()[j],
        {
            r[i] = FieldElement { value: self.words[i] as i128 };
        }
        r
    }
}

impl Default for Sha256Witness {
    /// Same as `new`: an all-zero state.
    fn default() -> (r: Self)
        ensures
            r.hash_words_view() == Seq::new(8, |i: int| 0u32),
    {
        Sha256Witness::new()
    }
}

proof fn lemma_shr_zero64(x: u64)
    by (bit_vector)
    ensures
        x >> 0u64 == x,
{
}

fn process_block(h: &[u32; 8], padded: &Vec<u8>, off: usize) -> (hn: [u32; 8])
    requires
        off + 64 <= padded@.len(),
    ensures
        hn@ == compress(h@, padded@.subrange(off as int, off as int + 64)),
{
    let ghost block = padded@.subrange(off as int, off as int + 64);
    let plen = padded.len();
    let mut w: [u32; 64] = [0; 64];
    for i in 0..16usize
        invariant
            off + 64 <= padded@.len(),
            padded@.len() == plen,
            block == padded@.subrange(off as int, off as int + 64),
            w@.len() == 64,
            forall|j: int| 0 <= j < i ==> #[trigger] w@[j] == w_word(block, j),
    {
        let b0 = padded[off + 4 * i] as u32;
        let b1 = padded[off + 4 * i + 1] as u32;
        let b2 = padded[off + 4 * i + 2] as u32;
        let b3 = padded[off + 4 * i + 3] as u32;
        w[i] = b0 * 0x1000000 + b1 * 0x10000 + b2 * 0x100 + b3;
        proof {
            assert(block[4 * (i as int)] == padded@[off + 4 * (i as int)]);
            assert(block[4 * (i as int) + 1] == padded@[off + 4 * (i as int) + 1]);
            assert(block[4 * (i as int) + 2] == padded@[off + 4 * (i as int) + 2]);
            assert(block[4 * (i as int) + 3] == padded@[off + 4 * (i as int) + 3]);
            assert(w@[i as int] == be_word(block, i as int));
        }
    }
    for i in 16..64usize
        invariant
            w@.len() == 64,
            forall|j: int| 0 <= j < i ==> #[trigger] w@[j] == w_word(block, j),
    {
        let s0 = small_sigma0_e(w[i - 15]);
        let s1 = small_sigma1_e(w[i - 2]);
        w[i] = wadd_e(wadd_e(wadd_e(w[i - 16], s0), w[i - 7]), s1);
    }

    let mut a = h[0];
    let mut b = h[1];
    let mut c = h[2];
    let mut d = h[3];
    let mut e = h[4];
    let mut f = h[5];
    let mut g = h[6];
    let mut hh = h[7];
    proof {
        assert(seq![a, b, c, d, e, f, g, hh] =~= rounds(block, h@, 0));
    }
    for i in 0..64usize
        invariant
            w@.len() == 64,
            h@.len() == 8,
            forall|j: int| 0 <= j < 64 ==> #[trigger] w@[j] == w_word(block, j),
            seq![a, b, c, d, e, f, g, hh] == rounds(block, h@, i as int),
    {
        let ghost st = seq![a, b, c, d, e, f, g, hh];
        let s1 = big_sigma1_e(e);
        let chv = e & f ^ (!e & g);
        let t1 = wadd_e(wadd_e(wadd_e(wadd_e(hh, s1), chv), round_constant(i)), w[i]);
        let s0 = big_sigma0_e(a);
        let mj = (a & b) ^ (a & c) ^ (b & c);
        let t2 = wadd_e(s0, mj);
        hh = g;
        g = f;
        f = e;
        e = wadd_e(d, t1);
        d = c;
        c = b;
        b = a;
        a = wadd_e(t1, t2);
        proof {
            assert(chv == ch_of(st[4], st[5], st[6]));
            assert(mj == maj_of(st[0], st[1], st[2]));
            assert(rounds(block, h@, i + 1) == round_step(st, sha_k()[i as int], w_word(
                block,
                i as int,
            )));
            assert(seq![a, b, c, d, e, f, g, hh] =~= round_step(st, sha_k()[i as int], w_word(
                block,
                i as int,
            )));
        }
    }

    let mut hn: [u32; 8] = [0; 8];
    hn[0] = wadd_e(h[0], a);
    hn[1] = wadd_e(h[1], b);
    hn[2] = wadd_e(h[2], c);
    hn[3] = wadd_e(h[3], d);
    hn[4] = wadd_e(h[4], e);
    hn[5] = wadd_e(h[5], f);
    hn[6] = wadd_e(h[6], g);
    hn[7] = wadd_e(h[7], hh);
    proof {
        assert(hn@ =~= compress(h@, block));
    }
    hn
}

} // verus!
