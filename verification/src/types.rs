//! Public-input and witness containers.

use vstd::prelude::*;

use crate::field::{fe, spec_field_bytes, FieldElement};

verus! {

/// Number of columns in a witness table.
pub const COLUMNS: usize = 15;

/// Public inputs to a circuit: an ordered list of field elements paired
/// positionally with the designated public rows.
#[derive(Clone, Debug)]
pub struct PublicInput {
    pub values: Vec<FieldElement>,
}

impl PublicInput {
    /// Create a new empty public input.
    pub fn new() -> (r: Self)
        ensures
            r.values@ == Seq::<FieldElement>::empty(),
    {
        let r = PublicInput { values: Vec::new() };
        proof {
            assert(r.values@ =~= Seq::<FieldElement>::empty());
        }
        r
    }

    /// Add a field element to the public inputs.
    pub fn push(&mut self, value: FieldElement)
        ensures
            final(self).values@ == old(self).values@.push(value),
    {
        self.values.push(value);
    }

    /// Add a u64 value as a field element.
    pub fn push_u64(&mut self, value: u64)
        ensures
            final(self).values@ == old(self).values@.push(fe(value as int)),
    {
        self.values.push(FieldElement { value: value as i128 });
    }
}

impl Default for PublicInput {
    /// Same as `new`: no values.
    fn default() -> (r: Self)
        ensures
            r.values@ == Seq::<FieldElement>::empty(),
    {
        PublicInput::new()
    }
}

/// Witness values for a circuit, held column by column.
#[derive(Clone, Debug)]
pub struct Witness {
    pub columns: Vec<Vec<FieldElement>>,
}

impl Witness {
    /// Create a new empty witness.
    pub fn new() -> (r: Self)
        ensures
            r.columns@ == Seq::<Vec<FieldElement>>::empty(),
    {
        let r = Witness { columns: Vec::new() };
        proof {
            assert(r.columns@ =~= Seq::<Vec<FieldElement>>::empty());
        }
        r
    }

    /// Create a witness with the specified number of empty columns.
    pub fn with_columns(num_columns: usize) -> (r: Self)
        ensures
            r.columns@.len() == num_columns,
            forall|c: int|
                0 <= c < num_columns ==> (#[trigger] r.columns@[c])@ == Seq::<
                    FieldElement,
                >::empty(),
    {
        let mut columns: Vec<Vec<FieldElement>> = Vec::new();
        for i in 0..num_columns
            invariant
                columns@.len() == i,
                forall|c: int|
                    0 <= c < i ==> (#[trigger] columns@[c])@ == Seq::<FieldElement>::empty(),
        {
            let col: Vec<FieldElement> = Vec::new();
            proof {
                assert(col@ =~= Seq::<FieldElement>::empty());
            }
            columns.push(col);
        }
        Witness { columns }
    }

    /// Set a value at a specific column and row, growing the table with
    /// empty columns and zero cells as needed.
    #[verifier::loop_isolation(false)]
    pub fn set(&mut self, column: usize, row: usize, value: FieldElement)
        requires
            column < usize::MAX,
            row < usize::MAX,
        ensures
            final(self).columns@.len() == (if old(self).columns@.len() <= column {
                column + 1
            } else {
                old(self).columns@.len() as int
            }),
            forall|c: int|
                0 <= c < final(self).columns@.len() && c != column ==> (
                #[trigger] final(self).columns@[c])@ == (if c < old(self).columns@.len() {
                    old(self).columns@[c]@
                } else {
                    Seq::<FieldElement>::empty()
                }),
            ({
                let oldcol = if column < old(self).columns@.len() {
                    old(self).columns@[column as int]@
                } else {
                    Seq::<FieldElement>::empty()
                };
                let padded = if oldcol.len() <= row {
                    oldcol + Seq::new((row + 1 - oldcol.len()) as nat, |k: int| fe(0))
                } else {
                    oldcol
                };
                final(self).columns@[column as int]@ == padded.update(row as int, value)
            }),
    {
        let ghost oldcols = self.columns@;
        while self.columns.len() <= column
            invariant
                oldcols.len() <= self.columns@.len(),
                self.columns@.len() <= column + 1 || self.columns@ == oldcols,
                forall|c: int| 0 <= c < oldcols.len() ==> #[trigger] self.columns@[c] == oldcols[c],
                forall|c: int|
                    oldcols.len() <= c < self.columns@.len() ==> (#[trigger] self.columns@[c])@
                        == Seq::<FieldElement>::empty(),
            decreases column + 1 - self.columns@.len(),
        {
            let col: Vec<FieldElement> = Vec::new();
            proof {
                assert(col@ =~= Seq::<FieldElement>::empty());
            }
            self.columns.push(col);
        }
        let ghost colsbefore = self.columns@;
        let ghost oldcol = self.columns@[column as int]@;
        while self.columns[column].len() <= row
            invariant
                column < self.columns@.len(),
                self.columns@.len() == colsbefore.len(),
                forall|c: int|
                    0 <= c < self.columns@.len() && c != column ==> #[trigger] self.columns@[c]
                        == colsbefore[c],
                oldcol.len() <= self.columns@[column as int]@.len(),
                self.columns@[column as int]@.len() <= row + 1 || self.columns@[column as int]@
                    == oldcol,
                forall|k: int|
                    0 <= k < oldcol.len() ==> #[trigger] self.columns@[column as int]@[k]
                        == oldcol[k],
                forall|k: int|
                    oldcol.len() <= k < self.columns@[column as int]@.len()
                        ==> #[trigger] self.columns@[column as int]@[k] == fe(0),
            decreases row + 1 - self.columns@[column as int]@.len(),
        {
            self.columns[column].push(FieldElement { value: 0 });
        }
        self.columns[column][row] = value;
        proof {
            let padded = if oldcol.len() <= row {
                oldcol + Seq::new((row + 1 - oldcol.len()) as nat, |k: int| fe(0))
            } else {
                oldcol
            };
            assert(self.columns@[column as int]@ =~= padded.update(row as int, value));
        }
    }

    /// Get a value at a specific column and row.
    pub fn get(&self, column: usize, row: usize) -> (r: Option<&FieldElement>)
        ensures
            (column < self.columns@.len() && row < self.columns@[column as int]@.len()) ==> r
                == Option::Some(&self.columns@[column as int]@[row as int]),
            !(column < self.columns@.len() && row < self.columns@[column as int]@.len()) ==> r
                is None,
    {
        if column < self.columns.len() {
            let col = &self.columns[column];
            if row < col.len() {
                Some(&col[row])
            } else {
                None
            }
        } else {
            None
        }
    }
}

impl Default for Witness {
    /// Same as `new`: no columns.
    fn default() -> (r: Self)
        ensures
            r.columns@ == Seq::<Vec<FieldElement>>::empty(),
    {
        Witness::new()
    }
}

/// The lowercase hex digit for a value below 16.
pub open spec fn hex_digit(d: int) -> char {
    if d == 0 {
        '0'
    } else if d == 1 {
        '1'
    } else if d == 2 {
        '2'
    } else if d == 3 {
        '3'
    } else if d == 4 {
        '4'
    } else if d == 5 {
        '5'
    } else if d == 6 {
        '6'
    } else if d == 7 {
        '7'
    } else if d == 8 {
        '8'
    } else if d == 9 {
        '9'
    } else if d == 10 {
        'a'
    } else if d == 11 {
        'b'
    } else if d == 12 {
        'c'
    } else if d == 13 {
        'd'
    } else if d == 14 {
        'e'
    } else {
        'f'
    }
}

/// The lowercase hex encoding of a byte sequence: two digits per byte, in
/// input order.
pub open spec fn spec_hex(b: Seq<u8>) -> Seq<char>
    decreases b.len(),
{
    if b.len() == 0 {
        Seq::empty()
    } else {
        seq![hex_digit(b.first() as int / 16), hex_digit(b.first() as int % 16)] + spec_hex(b.drop_first())
    }
}

/// Relies on `hex::encode`: lowercase characters, each input byte encoded
/// as exactly two hex digits, in input order.
#[verifier::external_body]
fn hex_encode(bytes: &Vec<u8>) -> (r: String)
    ensures
        r@ == spec_hex(bytes@),
{
    hex::encode(bytes)
}

/// Serializable witness data for transport: column data as hex strings.
#[derive(Clone, Debug)]
pub struct WitnessData {
    /// Column data as hex strings.
    pub columns: Vec<Vec<String>>,
}

impl WitnessData {
    /// Encode a witness for transport: every cell becomes the lowercase
    /// hex of its canonical 32-byte encoding.
    pub fn from_witness(witness: &Witness) -> (r: Self)
        ensures
            r.columns@.len() == witness.columns@.len(),
            forall|c: int|
                0 <= c < witness.columns@.len() ==> (#[trigger] r.columns@[c])@.len()
                    == witness.columns@[c]@.len(),
            forall|c: int, k: int|
                0 <= c < witness.columns@.len() && 0 <= k < witness.columns@[c]@.len() ==> (
                #[trigger] r.columns@[c]@[k])@ == spec_hex(
                    spec_field_bytes(witness.columns@[c]@[k].as_int()),
                ),
    {
        let mut columns: Vec<Vec<String>> = Vec::new();
        let ncols = witness.columns.len();
        for c in 0..ncols
            invariant
                ncols == witness.columns@.len(),
                columns@.len() == c,
                forall|cc: int|
                    0 <= cc < c ==> (#[trigger] columns@[cc])@.len()
                        == witness.columns@[cc]@.len(),
                forall|cc: int, k: int|
                    0 <= cc < c && 0 <= k < witness.columns@[cc]@.len() ==> (
                    #[trigger] columns@[cc]@[k])@ == spec_hex(
                        spec_field_bytes(witness.columns@[cc]@[k].as_int()),
                    ),
        {
            let mut col: Vec<String> = Vec::new();
            let nrows = witness.columns[c].len();
            for k in 0..nrows
                invariant
                    ncols == witness.columns@.len(),
                    c < ncols,
                    nrows == witness.columns@[c as int]@.len(),
                    col@.len() == k,
                    forall|j: int|
                        0 <= j < k ==> (#[trigger] col@[j])@ == spec_hex(
                            spec_field_bytes(witness.columns@[c as int]@[j].as_int()),
                        ),
            {
                let cell = witness.columns[c][k];
                let bytes = cell.to_bytes();
                col.push(hex_encode(&bytes));
            }
            columns.push(col);
        }
        WitnessData { columns }
    }
}

} // verus!
