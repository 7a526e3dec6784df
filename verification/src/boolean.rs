//! Boolean gadget: bit decomposition and bitwise operations as arithmetic
//! constraints, together with the matching witness helpers.

use vstd::prelude::*;

use crate::field::{fe, FieldElement};
use crate::gate::{
    bool_kind, double_product_kind, gates_from, lemma_compose_step, lemma_gates_append,
    lemma_repeat_kinds_len, not_kind, repeat_kinds, sum_kind, Gate, GateKind, GateSequenceBuilder,
};

verus! {

/// Bit `i` of the 32-bit word `v`, as the integer 0 or 1.
pub open spec fn bit32(v: u32, i: int) -> int {
    if (v >> (i as u32)) & 1u32 == 1u32 {
        1
    } else {
        0
    }
}

/// The 32 bits of `v` as field elements, least significant first.
pub open spec fn spec_decompose(v: u32) -> Seq<FieldElement> {
    Seq::new(32, |i: int| fe(bit32(v, i)))
}

/// Every entry of the sequence is the field encoding of a bit.
pub open spec fn is_bits(s: Seq<FieldElement>) -> bool {
    forall|i: int| 0 <= i < s.len() ==> (#[trigger] s[i]).value == 0 || s[i].value == 1
}

/// The field-arithmetic identity for XOR on bit values: `x + y - 2*x*y`.
pub open spec fn xor_int(x: int, y: int) -> int {
    x + y - 2 * x * y
}

/// The field-arithmetic identity for AND on bit values: `x * y`.
pub open spec fn and_int(x: int, y: int) -> int {
    x * y
}

/// The field-arithmetic identity for NOT on a bit value: `1 - x`.
pub open spec fn not_int(x: int) -> int {
    1 - x
}

/// The XOR identity applied position by position to two bit arrays.
pub open spec fn spec_xor_bits(a: Seq<FieldElement>, b: Seq<FieldElement>) -> Seq<FieldElement> {
    Seq::new(32, |i: int| fe(xor_int(a[i].as_int(), b[i].as_int())))
}

/// The AND identity applied position by position to two bit arrays.
pub open spec fn spec_and_bits(a: Seq<FieldElement>, b: Seq<FieldElement>) -> Seq<FieldElement> {
    Seq::new(32, |i: int| fe(and_int(a[i].as_int(), b[i].as_int())))
}

/// The NOT identity applied position by position to a bit array.
pub open spec fn spec_not_bits(a: Seq<FieldElement>) -> Seq<FieldElement> {
    Seq::new(32, |i: int| fe(not_int(a[i].as_int())))
}

/// Right rotation of a bit array by `n` positions.
pub open spec fn spec_rotr(a: Seq<FieldElement>, n: int) -> Seq<FieldElement> {
    Seq::new(32, |i: int| a[(i + n) % 32])
}

/// Right shift of a bit array by `n` positions, filling with zeros.
pub open spec fn spec_shr(a: Seq<FieldElement>, n: int) -> Seq<FieldElement> {
    Seq::new(
        32,
        |i: int|
            if i + n < 32 {
                a[i + n]
            } else {
                fe(0)
            },
    )
}

/// Native right rotation of a 32-bit word by `n < 32` positions.
pub open spec fn rotr32(v: u32, n: u32) -> u32 {
    (v >> n) | (v << (((32 - n) % 32) as u32))
}

/// Gate layout of one XOR of two bits: a summation row `a + b - c = 0`
/// followed by a quadratic row `2*(a*b) - c = 0`.
pub open spec fn xor_kinds() -> Seq<GateKind> {
    seq![sum_kind(), double_product_kind()]
}

/// Gate layout of a 32-bit decomposition: one boolean row per bit followed
/// by seven summation rows that enforce `word = sum(bit_i * 2^i)` within the
/// per-row column budget.
pub open spec fn decompose_u32_kinds() -> Seq<GateKind> {
    repeat_kinds(seq![bool_kind()], 32) + repeat_kinds(seq![sum_kind()], 7)
}

/// Gadget for boolean operations.
pub struct BooleanGadget {
    pub builder: GateSequenceBuilder,
}

impl BooleanGadget {
    /// The gates accumulated so far.
    pub open spec fn gates_seq(self) -> Seq<Gate> {
        self.builder.gates_seq()
    }

    /// The next free row.
    pub open spec fn cursor(self) -> int {
        self.builder.cursor()
    }

    pub open spec fn wf(self) -> bool {
        self.builder.wf()
    }

    /// Create a new boolean gadget starting at the given row.
    pub fn new(start_row: usize) -> (r: Self)
        ensures
            r.wf(),
            r.gates_seq() == Seq::<Gate>::empty(),
            r.cursor() == start_row,
    {
        BooleanGadget { builder: GateSequenceBuilder::new(start_row) }
    }

    /// Get the current row index.
    pub fn current_row(&self) -> (r: usize)
        ensures
            r == self.cursor(),
    {
        self.builder.current_row()
    }

    /// Add a boolean constraint `b*b - b = 0` on one row, forcing the cell
    /// to hold 0 or 1.
    pub fn boolean_constraint(&mut self) -> (row: usize)
        requires
            old(self).wf(),
            old(self).cursor() + 1 <= usize::MAX,
        ensures
            final(self).wf(),
            final(self).cursor() == old(self).cursor() + 1,
            final(self).gates_seq() == old(self).gates_seq() + gates_from(
                seq![bool_kind()],
                old(self).cursor(),
            ),
            row == old(self).cursor(),
    {
        self.builder.push(GateKind::Mul { product: FieldElement { value: 1 }, output: FieldElement { value: -1 } })
    }

    /// XOR of two bits via `c = a + b - 2*a*b`, over two rows.
    pub fn xor(&mut self) -> (row: usize)
        requires
            old(self).wf(),
            old(self).cursor() + 2 <= usize::MAX,
        ensures
            final(self).wf(),
            final(self).cursor() == old(self).cursor() + 2,
            final(self).gates_seq() == old(self).gates_seq() + gates_from(
                xor_kinds(),
                old(self).cursor(),
            ),
            row == old(self).cursor(),
    {
        let row = self.builder.push(GateKind::Add {
            left: FieldElement { value: 1 },
            right: FieldElement { value: 1 },
            output: FieldElement { value: -1 },
            constant: FieldElement { value: 0 },
        });
        self.builder.push(GateKind::Mul { product: FieldElement { value: 2 }, output: FieldElement { value: -1 } });
        proof {
            lemma_gates_append(
                old(self).gates_seq(),
                seq![sum_kind()],
                seq![double_product_kind()],
                old(self).cursor(),
            );
            assert(seq![sum_kind()] + seq![double_product_kind()] =~= xor_kinds());
        }
        row
    }

    /// AND of two bits via `c = a * b`, on one row.  Its coefficients
    /// coincide with those of a boolean constraint; only the wiring of the
    /// cells differs.
    pub fn and(&mut self) -> (row: usize)
        requires
            old(self).wf(),
            old(self).cursor() + 1 <= usize::MAX,
        ensures
            final(self).wf(),
            final(self).cursor() == old(self).cursor() + 1,
            final(self).gates_seq() == old(self).gates_seq() + gates_from(
                seq![bool_kind()],
                old(self).cursor(),
            ),
            row == old(self).cursor(),
    {
        self.builder.push(GateKind::Mul { product: FieldElement { value: 1 }, output: FieldElement { value: -1 } })
    }

    /// NOT of a bit via `c = 1 - a`, on one row.
    pub fn not(&mut self) -> (row: usize)
        requires
            old(self).wf(),
            old(self).cursor() + 1 <= usize::MAX,
        ensures
            final(self).wf(),
            final(self).cursor() == old(self).cursor() + 1,
            final(self).gates_seq() == old(self).gates_seq() + gates_from(
                seq![not_kind()],
                old(self).cursor(),
            ),
            row == old(self).cursor(),
    {
        self.builder.push(GateKind::Add {
            left: FieldElement { value: -1 },
            right: FieldElement { value: 0 },
            output: FieldElement { value: -1 },
            constant: FieldElement { value: 1 },
        })
    }

    /// Decompose a 32-bit word into bits: 32 boolean-constrained rows
    /// followed by 7 summation rows, 39 rows in all.
    pub fn decompose_u32(&mut self) -> (row: usize)
        requires
            old(self).wf(),
            old(self).cursor() + 39 <= usize::MAX,
        ensures
            final(self).wf(),
            final(self).cursor() == old(self).cursor() + 39,
            final(self).gates_seq() == old(self).gates_seq() + gates_from(
                decompose_u32_kinds(),
                old(self).cursor(),
            ),
            row == old(self).cursor(),
    {
        proof {
            lemma_repeat_kinds_len(seq![bool_kind()], 32);
            lemma_repeat_kinds_len(seq![sum_kind()], 7);
        }
        let row = self.builder.push_repeated(
            GateKind::Mul { product: FieldElement { value: 1 }, output: FieldElement { value: -1 } },
            32,
        );
        self.builder.push_repeated(
            GateKind::Add {
                left: FieldElement { value: 1 },
                right: FieldElement { value: 1 },
                output: FieldElement { value: -1 },
                constant: FieldElement { value: 0 },
            },
            7,
        );
        proof {
            lemma_gates_append(
                old(self).gates_seq(),
                repeat_kinds(seq![bool_kind()], 32),
                repeat_kinds(seq![sum_kind()], 7),
                old(self).cursor(),
            );
        }
        row
    }

    /// XOR of two already-decomposed 32-bit words, bit by bit: 64 rows.
    pub fn xor_u32(&mut self) -> (row: usize)
        requires
            old(self).wf(),
            old(self).cursor() + 64 <= usize::MAX,
        ensures
            final(self).wf(),
            final(self).cursor() == old(self).cursor() + 64,
            final(self).gates_seq() == old(self).gates_seq() + gates_from(
                repeat_kinds(xor_kinds(), 32),
                old(self).cursor(),
            ),
            row == old(self).cursor(),
    {
        let row = self.builder.current_row();
        let ghost g0 = self.gates_seq();
        let ghost c0 = self.cursor();
        proof {
            assert(self.gates_seq() =~= g0 + gates_from(repeat_kinds(xor_kinds(), 0), c0));
        }
        for i in 0..32usize
            invariant
                self.wf(),
                self.cursor() == c0 + 2 * i,
                c0 == row,
                0 <= c0,
                c0 + 64 <= usize::MAX,
                self.gates_seq() == g0 + gates_from(repeat_kinds(xor_kinds(), i as nat), c0),
        {
            proof {
                lemma_repeat_kinds_len(xor_kinds(), i as nat);
                assert((i as nat) * xor_kinds().len() == 2 * i) by (nonlinear_arith)
                    requires
                        xor_kinds().len() == 2,
                ;
            }
            let ghost pre_gates = self.gates_seq();
            let ghost pre_cursor = self.cursor();
            self.xor();
            proof {
                lemma_compose_step(
                    g0,
                    pre_gates,
                    self.gates_seq(),
                    xor_kinds(),
                    i as nat,
                    c0,
                    pre_cursor,
                );
            }
        }
        proof {
            lemma_repeat_kinds_len(xor_kinds(), 32);
        }
        row
    }

    /// AND of two already-decomposed 32-bit words, bit by bit: 32 rows.
    pub fn and_u32(&mut self) -> (row: usize)
        requires
            old(self).wf(),
            old(self).cursor() + 32 <= usize::MAX,
        ensures
            final(self).wf(),
            final(self).cursor() == old(self).cursor() + 32,
            final(self).gates_seq() == old(self).gates_seq() + gates_from(
                repeat_kinds(seq![bool_kind()], 32),
                old(self).cursor(),
            ),
            row == old(self).cursor(),
    {
        self.builder.push_repeated(
            GateKind::Mul { product: FieldElement { value: 1 }, output: FieldElement { value: -1 } },
            32,
        )
    }

    /// NOT of an already-decomposed 32-bit word, bit by bit: 32 rows.
    pub fn not_u32(&mut self) -> (row: usize)
        requires
            old(self).wf(),
            old(self).cursor() + 32 <= usize::MAX,
        ensures
            final(self).wf(),
            final(self).cursor() == old(self).cursor() + 32,
            final(self).gates_seq() == old(self).gates_seq() + gates_from(
                repeat_kinds(seq![not_kind()], 32),
                old(self).cursor(),
            ),
            row == old(self).cursor(),
    {
        self.builder.push_repeated(
            GateKind::Add {
                left: FieldElement { value: -1 },
                right: FieldElement { value: 0 },
                output: FieldElement { value: -1 },
                constant: FieldElement { value: 1 },
            },
            32,
        )
    }

    /// Consume the gadget and return the gates with the final cursor.
    pub fn build(self) -> (r: (Vec<Gate>, usize))
        ensures
            r.0@ == self.gates_seq(),
            r.1 == self.cursor(),
    {
        self.builder.build()
    }
}

/// Witness helpers for boolean operations: pure value computations that
/// mirror the boolean gadget's constraints bit for bit.
pub struct BooleanWitness;

impl BooleanWitness {
    /// Decompose a u32 into 32 field elements, each 0 or 1, least
    /// significant bit first.
    pub fn decompose_u32(value: u32) -> (bits: [FieldElement; 32])
        ensures
            bits@ == spec_decompose(value),
            is_bits(bits@),
    {
        let mut bits = [FieldElement { value: 0 }; 32];
        for i in 0..32usize
            invariant
                bits@.len() == 32,
                forall|j: int| 0 <= j < i ==> bits@[j] == fe(bit32(value, j)),
                forall|j: int| i <= j < 32 ==> bits@[j] == fe(0),
        {
            if (value >> (i as u32)) & 1 == 1 {
                bits[i] = FieldElement { value: 1 };
            }
            proof {
                assert(bits@[i as int] == fe(bit32(value, i as int)));
            }
        }
        proof {
            assert(bits@ =~= spec_decompose(value));
            assert forall|i: int| 0 <= i < 32 implies (#[trigger] bits@[i]).value == 0
                || bits@[i].value == 1 by {
                assert(bits@[i] == fe(bit32(value, i)));
            }
        }
        bits
    }

    /// Recompose bits into a u32: bit `i` of the result is set exactly when
    /// `bits[i]` is the field element 1.
    pub fn recompose_u32(bits: &[FieldElement; 32]) -> (value: u32)
        ensures
            forall|i: int|
                0 <= i < 32 ==> bit32(value, i) == (if bits@[i] == fe(1) {
                    1int
                } else {
                    0int
                }),
    {
        let mut value: u32 = 0;
        proof {
            assert(forall|j: u32| j < 32 ==> ((0u32 >> j) & 1u32) == 0u32) by (bit_vector);
        }
        for i in 0..32usize
            invariant
                forall|j: int|
                    0 <= j < 32 ==> bit32(value, j) == (if j < i && bits@[j] == fe(1) {
                        1int
                    } else {
                        0int
                    }),
        {
            let ghost prev = value;
            if bits[i].value == 1 {
                value = value | (1u32 << (i as u32));
            }
            proof {
                if bits@[i as int] == fe(1) {
                    assert(value == prev | (1u32 << (i as u32)));
                    assert forall|j: int| 0 <= j < 32 implies bit32(value, j) == (if j < i + 1
                        && bits@[j] == fe(1) {
                        1int
                    } else {
                        0int
                    }) by {
                        lemma_or_bit(prev, i as u32, j as u32);
                        if j == i {
                            assert((i as u32) == (j as u32));
                            assert(((prev | (1u32 << (i as u32))) >> (j as u32)) & 1u32 == 1u32);
                            assert(bit32(value, j) == 1);
                        } else {
                            assert((i as u32) != (j as u32));
                            assert(((prev | (1u32 << (i as u32))) >> (j as u32)) & 1u32 == (prev
                                >> (j as u32)) & 1u32);
                            assert(bit32(value, j) == bit32(prev, j));
                        }
                    }
                } else {
                    assert(value == prev);
                    assert(bits@[i as int] != fe(1));
                    assert forall|j: int| 0 <= j < 32 implies bit32(value, j) == (if j < i + 1
                        && bits@[j] == fe(1) {
                        1int
                    } else {
                        0int
                    }) by {
                        assert(bit32(value, j) == (if j < i && bits@[j] == fe(1) {
                            1int
                        } else {
                            0int
                        }));
                    }
                }
            }
        }
        value
    }

    /// XOR two bit arrays through the field identity `a + b - 2*a*b`.
    pub fn xor_bits(a: &[FieldElement; 32], b: &[FieldElement; 32]) -> (r: [FieldElement; 32])
        requires
            is_bits(a@),
            is_bits(b@),
        ensures
            r@ == spec_xor_bits(a@, b@),
            is_bits(r@),
    {
        let mut r = [FieldElement { value: 0 }; 32];
        for i in 0..32usize
            invariant
                is_bits(a@),
                is_bits(b@),
                r@.len() == 32,
                forall|j: int| 0 <= j < i ==> r@[j] == spec_xor_bits(a@, b@)[j],
                forall|j: int| 0 <= j < i ==> (#[trigger] r@[j]).value == 0 || r@[j].value == 1,
        {
            let x = a[i].value;
            let y = b[i].value;
            r[i] = FieldElement { value: x + y - 2 * x * y };
        }
        proof {
            assert(r@ =~= spec_xor_bits(a@, b@));
        }
        r
    }

    /// AND two bit arrays through the field identity `a * b`.
    pub fn and_bits(a: &[FieldElement; 32], b: &[FieldElement; 32]) -> (r: [FieldElement; 32])
        requires
            is_bits(a@),
            is_bits(b@),
        ensures
            r@ == spec_and_bits(a@, b@),
            is_bits(r@),
    {
        let mut r = [FieldElement { value: 0 }; 32];
        for i in 0..32usize
            invariant
                is_bits(a@),
                is_bits(b@),
                r@.len() == 32,
                forall|j: int| 0 <= j < i ==> r@[j] == spec_and_bits(a@, b@)[j],
                forall|j: int| 0 <= j < i ==> (#[trigger] r@[j]).value == 0 || r@[j].value == 1,
        {
            r[i] = FieldElement { value: a[i].value * b[i].value };
        }
        proof {
            assert(r@ =~= spec_and_bits(a@, b@));
        }
        r
    }

    /// NOT a bit array through the field identity `1 - a`.
    pub fn not_bits(a: &[FieldElement; 32]) -> (r: [FieldElement; 32])
        requires
            is_bits(a@),
        ensures
            r@ == spec_not_bits(a@),
            is_bits(r@),
    {
        let mut r = [FieldElement { value: 0 }; 32];
        for i in 0..32usize
            invariant
                is_bits(a@),
                r@.len() == 32,
                forall|j: int| 0 <= j < i ==> r@[j] == spec_not_bits(a@)[j],
                forall|j: int| 0 <= j < i ==> (#[trigger] r@[j]).value == 0 || r@[j].value == 1,
        {
            r[i] = FieldElement { value: 1 - a[i].value };
        }
        proof {
            assert(r@ =~= spec_not_bits(a@));
        }
        r
    }

    /// Right rotation of a bit array by `n` positions.
    pub fn rotr(bits: &[FieldElement; 32], n: usize) -> (r: [FieldElement; 32])
        requires
            n + 32 <= usize::MAX,
        ensures
            r@ == spec_rotr(bits@, n as int),
    {
        let mut r = [FieldElement { value: 0 }; 32];
        for i in 0..32usize
            invariant
                n + 32 <= usize::MAX,
                r@.len() == 32,
                forall|j: int| 0 <= j < i ==> r@[j] == spec_rotr(bits@, n as int)[j],
        {
            r[i] = bits[(i + n) % 32];
        }
        proof {
            assert(r@ =~= spec_rotr(bits@, n as int));
        }
        r
    }

    /// Right shift of a bit array by `n` positions, filling with zeros.
    pub fn shr(bits: &[FieldElement; 32], n: usize) -> (r: [FieldElement; 32])
        requires
            n + 32 <= usize::MAX,
        ensures
            r@ == spec_shr(bits@, n as int),
    {
        let mut r = [FieldElement { value: 0 }; 32];
        for i in 0..32usize
            invariant
                n + 32 <= usize::MAX,
                r@.len() == 32,
                forall|j: int| 0 <= j < i ==> r@[j] == spec_shr(bits@, n as int)[j],
                forall|j: int| i <= j < 32 ==> r@[j] == fe(0),
        {
            if i + n < 32 {
                r[i] = bits[i + n];
            }
        }
        proof {
            assert(r@ =~= spec_shr(bits@, n as int));
        }
        r
    }
}

proof fn lemma_or_bit(v: u32, i: u32, j: u32)
    by (bit_vector)
    requires
        i < 32,
        j < 32,
    ensures
        ((v | (1u32 << i)) >> j) & 1u32 == (if i == j {
            1u32
        } else {
            (v >> j) & 1u32
        }),
{
}

/// Recomposition is the inverse of decomposition: any 32-bit word whose bits
/// follow the recomposition rule applied to `decompose(v)` is `v` itself.
pub proof fn lemma_recompose_decompose(v: u32, r: u32)
    requires
        forall|i: int|
            0 <= i < 32 ==> bit32(r, i) == (if spec_decompose(v)[i] == fe(1) {
                1int
            } else {
                0int
            }),
    ensures
        r == v,
{
    assert forall|i: u32| i < 32 implies ((r >> i) & 1u32) == ((v >> i) & 1u32) by {
        assert(bit32(r, i as int) == bit32(v, i as int));
        assert(((r >> i) & 1u32) == 0 || ((r >> i) & 1u32) == 1) by (bit_vector);
        assert(((v >> i) & 1u32) == 0 || ((v >> i) & 1u32) == 1) by (bit_vector);
    }
    lemma_u32_bit_ext(r, v);
}

proof fn lemma_u32_bit_ext(a: u32, b: u32)
    requires
        forall|i: u32| i < 32 ==> ((a >> i) & 1u32) == ((b >> i) & 1u32),
    ensures
        a == b,
{
    // The quantified premise is spelled out position by position so that the
    // bit-vector solver can consume it.
    assert(low_bits_eq(a, b, 0) && low_bits_eq(a, b, 8) && low_bits_eq(a, b, 16) && low_bits_eq(
        a,
        b,
        24,
    ));
    assert(a == b) by (bit_vector)
        requires
            low_bits_eq(a, b, 0) && low_bits_eq(a, b, 8) && low_bits_eq(a, b, 16) && low_bits_eq(
                a,
                b,
                24,
            ),
    ;
}

/// Bits `base` to `base + 7` of `a` and `b` agree.
spec fn low_bits_eq(a: u32, b: u32, base: u32) -> bool {
    &&& ((a >> (base + 0) as u32) & 1u32) == ((b >> (base + 0) as u32) & 1u32)
    &&& ((a >> (base + 1) as u32) & 1u32) == ((b >> (base + 1) as u32) & 1u32)
    &&& ((a >> (base + 2) as u32) & 1u32) == ((b >> (base + 2) as u32) & 1u32)
    &&& ((a >> (base + 3) as u32) & 1u32) == ((b >> (base + 3) as u32) & 1u32)
    &&& ((a >> (base + 4) as u32) & 1u32) == ((b >> (base + 4) as u32) & 1u32)
    &&& ((a >> (base + 5) as u32) & 1u32) == ((b >> (base + 5) as u32) & 1u32)
    &&& ((a >> (base + 6) as u32) & 1u32) == ((b >> (base + 6) as u32) & 1u32)
    &&& ((a >> (base + 7) as u32) & 1u32) == ((b >> (base + 7) as u32) & 1u32)
}

/// The XOR field identity on decomposed bits matches the native bitwise XOR:
/// applying `a + b - 2*a*b` position by position to the decompositions of
/// `v` and `w` yields exactly the decomposition of `v ^ w`.
pub proof fn lemma_xor_bits_native(v: u32, w: u32)
    ensures
        spec_xor_bits(spec_decompose(v), spec_decompose(w)) == spec_decompose(v ^ w),
{
    assert forall|i: int| 0 <= i < 32 implies spec_xor_bits(spec_decompose(v), spec_decompose(w))[i]
        == spec_decompose(v ^ w)[i] by {
        let iu = i as u32;
        assert((((v ^ w) >> iu) & 1u32) == (((v >> iu) & 1u32) + ((w >> iu) & 1u32)) % 2) by (bit_vector);
        assert(((v >> iu) & 1u32) == 0 || ((v >> iu) & 1u32) == 1) by (bit_vector);
        assert(((w >> iu) & 1u32) == 0 || ((w >> iu) & 1u32) == 1) by (bit_vector);
        let p = bit32(v, i);
        let q = bit32(w, i);
        assert(spec_decompose(v)[i] == fe(p) && spec_decompose(w)[i] == fe(q));
        assert(fe(p).as_int() == p && fe(q).as_int() == q);
        assert(spec_xor_bits(spec_decompose(v), spec_decompose(w))[i] == fe(xor_int(p, q)));
        assert(bit32(v ^ w, i) == xor_int(p, q));
    }
    assert(spec_xor_bits(spec_decompose(v), spec_decompose(w)) =~= spec_decompose(v ^ w));
}

/// The AND field identity on decomposed bits matches the native bitwise AND.
pub proof fn lemma_and_bits_native(v: u32, w: u32)
    ensures
        spec_and_bits(spec_decompose(v), spec_decompose(w)) == spec_decompose(v & w),
{
    assert forall|i: int| 0 <= i < 32 implies spec_and_bits(spec_decompose(v), spec_decompose(w))[i]
        == spec_decompose(v & w)[i] by {
        let iu = i as u32;
        assert((((v & w) >> iu) & 1u32) == ((v >> iu) & 1u32) * ((w >> iu) & 1u32)) by (bit_vector);
        assert(((v >> iu) & 1u32) == 0 || ((v >> iu) & 1u32) == 1) by (bit_vector);
        assert(((w >> iu) & 1u32) == 0 || ((w >> iu) & 1u32) == 1) by (bit_vector);
        let p = bit32(v, i);
        let q = bit32(w, i);
        assert(spec_decompose(v)[i] == fe(p) && spec_decompose(w)[i] == fe(q));
        assert(fe(p).as_int() == p && fe(q).as_int() == q);
        assert(spec_and_bits(spec_decompose(v), spec_decompose(w))[i] == fe(and_int(p, q)));
        assert(bit32(v & w, i) == and_int(p, q));
    }
    assert(spec_and_bits(spec_decompose(v), spec_decompose(w)) =~= spec_decompose(v & w));
}

/// The NOT field identity on decomposed bits matches the native bitwise NOT.
pub proof fn lemma_not_bits_native(v: u32)
    ensures
        spec_not_bits(spec_decompose(v)) == spec_decompose(!v),
{
    assert forall|i: int| 0 <= i < 32 implies spec_not_bits(spec_decompose(v))[i] == spec_decompose(
        !v,
    )[i] by {
        let iu = i as u32;
        assert((((!v) >> iu) & 1u32) == 1 - ((v >> iu) & 1u32)) by (bit_vector)
            requires
                iu < 32,
        ;
        assert(((v >> iu) & 1u32) == 0 || ((v >> iu) & 1u32) == 1) by (bit_vector);
        let p = bit32(v, i);
        assert(spec_decompose(v)[i] == fe(p));
        assert(fe(p).as_int() == p);
        assert(spec_not_bits(spec_decompose(v))[i] == fe(not_int(p)));
        assert(bit32(!v, i) == not_int(p));
    }
    assert(spec_not_bits(spec_decompose(v)) =~= spec_decompose(!v));
}

/// Rotating a decomposed word right matches the native 32-bit rotation:
/// picking bit `(i + n) % 32` for each position `i` of the decomposition of
/// `v` yields exactly the decomposition of `v` rotated right by `n`.
pub proof fn lemma_rotr_native(v: u32, n: u32)
    requires
        n < 32,
    ensures
        spec_rotr(spec_decompose(v), n as int) == spec_decompose(rotr32(v, n)),
{
    assert forall|i: int| 0 <= i < 32 implies spec_rotr(spec_decompose(v), n as int)[i]
        == spec_decompose(rotr32(v, n))[i] by {
        let iu = i as u32;
        assert((((v >> n) | (v << (((32 - n) % 32) as u32))) >> iu) & 1u32 == (v >> (((iu + n)
            % 32) as u32)) & 1u32) by (bit_vector)
            requires
                n < 32,
                iu < 32,
        ;
        assert((i + n as int) % 32 == (iu + n) % 32);
        assert(spec_rotr(spec_decompose(v), n as int)[i] == fe(bit32(v, (i + n as int) % 32)));
        assert(spec_decompose(rotr32(v, n))[i] == fe(bit32(rotr32(v, n), i)));
    }
    assert(spec_rotr(spec_decompose(v), n as int) =~= spec_decompose(rotr32(v, n)));
}

/// Shifting a decomposed word right matches the native right shift.
pub proof fn lemma_shr_native(v: u32, n: u32)
    requires
        n < 32,
    ensures
        spec_shr(spec_decompose(v), n as int) == spec_decompose(v >> n),
{
    assert forall|i: int| 0 <= i < 32 implies spec_shr(spec_decompose(v), n as int)[i]
        == spec_decompose(v >> n)[i] by {
        let iu = i as u32;
        if i + n < 32 {
            assert(((v >> n) >> iu) & 1u32 == (v >> ((iu + n) as u32)) & 1u32) by (bit_vector)
                requires
                    n < 32,
                    iu < 32,
                    iu + n < 32,
            ;
            assert((i + n as int) as u32 == (iu + n) as u32);
            assert(spec_shr(spec_decompose(v), n as int)[i] == fe(bit32(v, i + n as int)));
        } else {
            assert(((v >> n) >> iu) & 1u32 == 0) by (bit_vector)
                requires
                    n < 32,
                    iu < 32,
                    iu + n >= 32,
            ;
            assert(spec_shr(spec_decompose(v), n as int)[i] == fe(0));
        }
        assert(spec_decompose(v >> n)[i] == fe(bit32(v >> n, i)));
    }
    assert(spec_shr(spec_decompose(v), n as int) =~= spec_decompose(v >> n));
}

} // verus!
