//! The generic gate family, and the builder that lays gates on rows.
//!
//! A gate's cells refer only to its own row.  The layer does not emit
//! cross-row copy constraints; composing gadgets address one another's
//! outputs through the row indices the operations return.

use vstd::prelude::*;

use crate::field::{fe, FieldElement};

verus! {

/// The constraint enforced by one gate row.
///
/// Every gate reduces to the single algebraic identity
/// `c_l*a + c_r*b + c_o*c + c_m*(a*b) + c_k = 0` over the three local cells
/// `a`, `b`, `c` of its row; each variant carries only the coefficients it
/// actually uses.
#[derive(Clone, Copy, PartialEq, Eq, Structural, Debug)]
pub enum GateKind {
    /// `left*a + right*b + output*c + constant = 0`.
    Add { left: FieldElement, right: FieldElement, output: FieldElement, constant: FieldElement },
    /// `product*(a*b) + output*c = 0`.
    Mul { product: FieldElement, output: FieldElement },
    /// `a = value`.
    Constant { value: FieldElement },
    /// The row's first cell is a designated public input.
    Public,
    /// No constraint: a padding row.
    Zero,
}

/// One row of a circuit: its row index and the constraint it enforces.
#[derive(Clone, Copy, PartialEq, Eq, Structural, Debug)]
pub struct Gate {
    pub row: usize,
    pub kind: GateKind,
}

/// The value of a row's identity at cell values `a`, `b`, `c`; the row is
/// satisfied exactly when this is zero.
pub open spec fn gate_eval(kind: GateKind, a: int, b: int, c: int) -> int {
    match kind {
        GateKind::Add { left, right, output, constant } => left.as_int() * a + right.as_int() * b
            + output.as_int() * c + constant.as_int(),
        GateKind::Mul { product, output } => product.as_int() * (a * b) + output.as_int() * c,
        GateKind::Constant { value } => a - value.as_int(),
        GateKind::Public => 0,
        GateKind::Zero => 0,
    }
}

/// Whether cell values `a`, `b`, `c` satisfy a row of the given kind.
pub open spec fn gate_satisfied(kind: GateKind, a: int, b: int, c: int) -> bool {
    gate_eval(kind, a, b, c) == 0
}

/// The gates produced by laying the given kinds on consecutive rows
/// starting at `start`.
pub open spec fn gates_from(kinds: Seq<GateKind>, start: int) -> Seq<Gate> {
    Seq::new(kinds.len(), |i: int| Gate { row: (start + i) as usize, kind: kinds[i] })
}

/// `n` copies of the kind sequence `k`, concatenated.
pub open spec fn repeat_kinds(k: Seq<GateKind>, n: nat) -> Seq<GateKind>
    decreases n,
{
    if n == 0 {
        Seq::empty()
    } else {
        repeat_kinds(k, (n - 1) as nat) + k
    }
}

pub proof fn lemma_repeat_kinds_len(k: Seq<GateKind>, n: nat)
    ensures
        repeat_kinds(k, n).len() == n * k.len(),
    decreases n,
{
    if n == 0 {
    } else {
        lemma_repeat_kinds_len(k, (n - 1) as nat);
        assert(n * k.len() == (n - 1) * k.len() + k.len()) by (nonlinear_arith);
    }
}

/// Laying a concatenation of kinds is laying each part in turn.
pub proof fn lemma_gates_from_concat(k1: Seq<GateKind>, k2: Seq<GateKind>, start: int)
    ensures
        gates_from(k1 + k2, start) == gates_from(k1, start) + gates_from(
            k2,
            start + k1.len(),
        ),
{
    assert(gates_from(k1 + k2, start) =~= gates_from(k1, start) + gates_from(
        k2,
        start + k1.len(),
    ));
}

/// Extending gates laid out as `k1` from `start` by gates laid out as `k2`
/// at the following row extends the layout to `k1 + k2`.
pub proof fn lemma_gates_append(prefix: Seq<Gate>, k1: Seq<GateKind>, k2: Seq<GateKind>, start: int)
    ensures
        (prefix + gates_from(k1, start)) + gates_from(k2, start + k1.len()) == prefix + gates_from(
            k1 + k2,
            start,
        ),
{
    lemma_gates_from_concat(k1, k2, start);
    assert((prefix + gates_from(k1, start)) + gates_from(k2, start + k1.len()) =~= prefix
        + gates_from(k1 + k2, start));
}

/// Unfoldings of small repetitions, for laying out composite gadgets whose
/// parts are written as a handful of consecutive calls.
pub proof fn lemma_repeat_kinds_small(k: Seq<GateKind>)
    ensures
        repeat_kinds(k, 1) == k,
        repeat_kinds(k, 2) == k + k,
        repeat_kinds(k, 3) == k + k + k,
        repeat_kinds(k, 4) == k + k + k + k,
{
    assert(repeat_kinds(k, 0) == Seq::<GateKind>::empty());
    assert(repeat_kinds(k, 1) == repeat_kinds(k, 0) + k);
    assert(repeat_kinds(k, 1) =~= k);
    assert(repeat_kinds(k, 2) == repeat_kinds(k, 1) + k);
    assert(repeat_kinds(k, 3) == repeat_kinds(k, 2) + k);
    assert(repeat_kinds(k, 4) == repeat_kinds(k, 3) + k);
}

/// One step of composing a repeated sub-layout: if the gates so far extend
/// `g0` by `i` copies of `step` laid out from row `c0`, then appending one
/// more copy at the current cursor extends them to `i + 1` copies.
pub proof fn lemma_compose_step(
    g0: Seq<Gate>,
    pre: Seq<Gate>,
    post: Seq<Gate>,
    step: Seq<GateKind>,
    i: nat,
    c0: int,
    pre_cursor: int,
)
    requires
        pre == g0 + gates_from(repeat_kinds(step, i), c0),
        pre_cursor == c0 + repeat_kinds(step, i).len(),
        post == pre + gates_from(step, pre_cursor),
    ensures
        post == g0 + gates_from(repeat_kinds(step, (i + 1) as nat), c0),
        c0 + repeat_kinds(step, (i + 1) as nat).len() == pre_cursor + step.len(),
{
    lemma_gates_append(g0, repeat_kinds(step, i), step, c0);
    assert(repeat_kinds(step, (i + 1) as nat) == repeat_kinds(step, i) + step);
}

/// The same kinds laid from two different starting rows give circuits that
/// agree gate for gate, with every row shifted by the difference of the
/// starting rows: a gadget's shape does not depend on where it begins.
pub proof fn lemma_gates_from_row_offset(kinds: Seq<GateKind>, r1: int, r2: int)
    requires
        0 <= r1,
        0 <= r2,
        r1 + kinds.len() <= usize::MAX,
        r2 + kinds.len() <= usize::MAX,
    ensures
        gates_from(kinds, r1).len() == gates_from(kinds, r2).len(),
        forall|i: int|
            0 <= i < kinds.len() ==> {
                &&& #[trigger] gates_from(kinds, r1)[i].kind == gates_from(kinds, r2)[i].kind
                &&& gates_from(kinds, r1)[i].row + r2 == gates_from(kinds, r2)[i].row + r1
            },
{
}

/// An append-only sequence of gates indexed by row, with a monotonic row
/// cursor: the unit every gadget composes through.
pub struct GateSequenceBuilder {
    gates: Vec<Gate>,
    current_row: usize,
}

impl GateSequenceBuilder {
    /// The gates accumulated so far.
    pub closed spec fn gates_seq(self) -> Seq<Gate> {
        self.gates@
    }

    /// The next free row.
    pub closed spec fn cursor(self) -> int {
        self.current_row as int
    }

    /// The builder's gates sit on consecutive rows ending just below the
    /// cursor.
    pub open spec fn wf(self) -> bool {
        &&& self.gates_seq().len() <= self.cursor()
        &&& forall|i: int|
            0 <= i < self.gates_seq().len() ==> (#[trigger] self.gates_seq()[i]).row == self.cursor()
                - self.gates_seq().len() + i
    }

    /// Create a builder with an empty gate list whose cursor starts at
    /// `start_row`.
    pub fn new(start_row: usize) -> (r: Self)
        ensures
            r.wf(),
            r.gates_seq() == Seq::<Gate>::empty(),
            r.cursor() == start_row,
    {
        let r = GateSequenceBuilder { gates: Vec::new(), current_row: start_row };
        proof {
            assert(r.gates_seq() =~= Seq::<Gate>::empty());
        }
        r
    }

    /// The next free row.
    pub fn current_row(&self) -> (r: usize)
        ensures
            r == self.cursor(),
    {
        self.current_row
    }

    /// Append one gate at the cursor's row and advance the cursor.
    pub fn push(&mut self, kind: GateKind) -> (row: usize)
        requires
            old(self).wf(),
            old(self).cursor() < usize::MAX,
        ensures
            final(self).wf(),
            final(self).cursor() == old(self).cursor() + 1,
            final(self).gates_seq() == old(self).gates_seq() + gates_from(
                seq![kind],
                old(self).cursor(),
            ),
            row == old(self).cursor(),
    {
        let row = self.current_row;
        self.gates.push(Gate { row, kind });
        self.current_row = self.current_row + 1;
        proof {
            assert(self.gates_seq() =~= old(self).gates_seq() + gates_from(
                seq![kind],
                old(self).cursor(),
            ));
        }
        row
    }

    /// Append `n` gates of one kind on the next `n` rows.
    pub fn push_repeated(&mut self, kind: GateKind, n: usize) -> (row: usize)
        requires
            old(self).wf(),
            old(self).cursor() + n <= usize::MAX,
        ensures
            final(self).wf(),
            final(self).cursor() == old(self).cursor() + n,
            final(self).gates_seq() == old(self).gates_seq() + gates_from(
                repeat_kinds(seq![kind], n as nat),
                old(self).cursor(),
            ),
            row == old(self).cursor(),
    {
        let row = self.current_row;
        proof {
            lemma_repeat_kinds_len(seq![kind], 0);
            assert(self.gates_seq() =~= old(self).gates_seq() + gates_from(
                repeat_kinds(seq![kind], 0),
                old(self).cursor(),
            ));
        }
        for i in 0..n
            invariant
                self.wf(),
                self.cursor() == old(self).cursor() + i,
                old(self).cursor() + n <= usize::MAX,
                self.gates_seq() == old(self).gates_seq() + gates_from(
                    repeat_kinds(seq![kind], i as nat),
                    old(self).cursor(),
                ),
        {
            proof {
                lemma_repeat_kinds_len(seq![kind], i as nat);
            }
            self.push(kind);
            proof {
                lemma_repeat_kinds_len(seq![kind], (i + 1) as nat);
                assert(repeat_kinds(seq![kind], (i + 1) as nat) == repeat_kinds(
                    seq![kind],
                    i as nat,
                ) + seq![kind]);
                lemma_gates_from_concat(
                    repeat_kinds(seq![kind], i as nat),
                    seq![kind],
                    old(self).cursor(),
                );
                assert(self.gates_seq() =~= old(self).gates_seq() + gates_from(
                    repeat_kinds(seq![kind], (i + 1) as nat),
                    old(self).cursor(),
                ));
            }
        }
        row
    }

    /// Consume the builder and return the gates with the final cursor.
    pub fn build(self) -> (r: (Vec<Gate>, usize))
        ensures
            r.0@ == self.gates_seq(),
            r.1 == self.cursor(),
    {
        (self.gates, self.current_row)
    }
}

/// Kind of a gate that constrains a cell `b` to be boolean: `b*b - b = 0`.
pub open spec fn bool_kind() -> GateKind {
    GateKind::Mul { product: fe(1), output: fe(-1) }
}

/// Kind of a summation gate: `a + b - c = 0`.
pub open spec fn sum_kind() -> GateKind {
    GateKind::Add { left: fe(1), right: fe(1), output: fe(-1), constant: fe(0) }
}

/// Kind of a difference gate: `a - b - c = 0`.
pub open spec fn diff_kind() -> GateKind {
    GateKind::Add { left: fe(1), right: fe(-1), output: fe(-1), constant: fe(0) }
}

/// Kind of an equality gate: `a - b = 0`.
pub open spec fn eq_kind() -> GateKind {
    GateKind::Add { left: fe(1), right: fe(-1), output: fe(0), constant: fe(0) }
}

/// Kind of a gate that pins a cell to a constant: `a - value = 0`.
pub open spec fn const_check_kind(value: int) -> GateKind {
    GateKind::Add { left: fe(1), right: fe(0), output: fe(0), constant: fe(-value) }
}

/// Kind of the quadratic gate of an XOR pair: `2*(a*b) - c = 0`.
pub open spec fn double_product_kind() -> GateKind {
    GateKind::Mul { product: fe(2), output: fe(-1) }
}

/// Kind of a negation gate: `-a - c + 1 = 0`, that is `c = 1 - a`.
pub open spec fn not_kind() -> GateKind {
    GateKind::Add { left: fe(-1), right: fe(0), output: fe(-1), constant: fe(1) }
}

} // verus!
