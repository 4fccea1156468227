//! One fetched batch of rows: column-major text values, as the driver's row
//! set buffer holds them.

use vstd::prelude::*;

verus! {

/// Rows that one batch holds at most.
pub const BATCH_SIZE: usize = 5_000;

/// Bytes that one field of a batch holds at most.
pub const BUFFER_SIZE: usize = 262_144;

/// One value of a batch.
#[derive(Debug)]
pub struct Cell {
    text: Option<Vec<u8>>,
    number: Option<u64>,
}

/// What a `Cell` stands for.
pub struct CellModel {
    /// The value's text, or nothing for NULL.
    pub text: Option<Seq<u8>>,
    /// The binary64 bit pattern of the number that the text denotes when it
    /// is read as a decimal floating-point literal, or nothing when it is no
    /// such literal.
    pub number: Option<u64>,
}

impl CellModel {
    /// The value fits a field of the buffer.
    pub open spec fn fits(self) -> bool {
        self.text matches Some(bytes) ==> bytes.len() <= BUFFER_SIZE
    }

    /// The bytes that the encoders read: NULL counts as the empty text.
    pub open spec fn field(self) -> Seq<u8> {
        match self.text {
            Some(bytes) => bytes,
            None => Seq::empty(),
        }
    }
}

impl View for Cell {
    type V = CellModel;

    closed spec fn view(&self) -> CellModel {
        CellModel {
            text: match self.text {
                Some(bytes) => Some(bytes@),
                None => None,
            },
            number: self.number,
        }
    }
}

impl Cell {
    /// A value with its text and, where the text is a number, the number's
    /// bit pattern.
    pub fn new(text: Vec<u8>, number: Option<u64>) -> (cell: Cell)
        ensures
            cell@ == (CellModel { text: Some(text@), number }),
    {
        Cell { text: Some(text), number }
    }

    /// NULL.
    pub fn null() -> (cell: Cell)
        ensures
            cell@ == (CellModel { text: None, number: None }),
    {
        Cell { text: None, number: None }
    }

    pub fn text(&self) -> (text: Option<&[u8]>)
        ensures
            text is Some == self@.text is Some,
            text matches Some(bytes) ==> self@.text == Some(bytes@),
    {
        match &self.text {
            Some(bytes) => Some(bytes.as_slice()),
            None => None,
        }
    }

    pub fn number(&self) -> (number: Option<u64>)
        ensures
            number == self@.number,
    {
        self.number
    }
}

/// Up to `BATCH_SIZE` rows, held column by column, each field of at most
/// `BUFFER_SIZE` bytes.
#[derive(Debug)]
pub struct TextBatch {
    num_rows: usize,
    columns: Vec<Vec<Cell>>,
}

/// The columns make a batch of `num_rows` rows: there are no more rows than a
/// batch holds, every column holds one value for each row, and every value
/// fits its field.
pub open spec fn well_shaped(num_rows: usize, columns: Seq<Vec<Cell>>) -> bool {
    &&& num_rows <= BATCH_SIZE
    &&& forall|c: int| 0 <= c < columns.len() ==> (#[trigger] columns[c])@.len() == num_rows
    &&& forall|c: int, r: int|
        0 <= c < columns.len() && 0 <= r < columns[c]@.len() ==> (#[trigger] columns[c]@[r])@.fits()
}

impl TextBatch {
    #[verifier::type_invariant]
    pub closed spec fn wf(&self) -> bool {
        well_shaped(self.num_rows, self.columns@)
    }

    pub closed spec fn num_rows_spec(&self) -> nat {
        self.num_rows as nat
    }

    pub closed spec fn num_cols_spec(&self) -> nat {
        self.columns@.len()
    }

    /// The value in column `col` of row `row`.
    pub closed spec fn cell(&self, col: int, row: int) -> CellModel {
        self.columns@[col]@[row]@
    }

    /// What holds of every batch.
    pub proof fn shape(&self)
        requires
            self.wf(),
        ensures
            self.num_rows_spec() <= BATCH_SIZE,
            forall|c: int, r: int|
                0 <= c < self.num_cols_spec() && 0 <= r < self.num_rows_spec() ==> (
                #[trigger] self.cell(c, r)).fits(),
    {
    }

    /// The columns as a batch, or nothing when they do not make one.
    pub fn new(num_rows: usize, columns: Vec<Vec<Cell>>) -> (batch: Option<TextBatch>)
        ensures
            batch is Some == well_shaped(num_rows, columns@),
            batch matches Some(b) ==> {
                &&& b.wf()
                &&& b.num_rows_spec() == num_rows
                &&& b.num_cols_spec() == columns@.len()
                &&& forall|c: int, r: int|
                    0 <= c < columns@.len() && 0 <= r < num_rows ==> #[trigger] b.cell(c, r)
                        == columns@[c]@[r]@
            },
    {
        if num_rows > BATCH_SIZE {
            return None;
        }
        let mut c: usize = 0;
        while c < columns.len()
            invariant
                c <= columns@.len(),
                num_rows <= BATCH_SIZE,
                well_shaped(num_rows, columns@.take(c as int)),
            decreases columns@.len() - c,
        {
            let column = &columns[c];
            if column.len() != num_rows {
                return None;
            }
            let mut r: usize = 0;
            while r < num_rows
                invariant
                    r <= num_rows,
                    c < columns@.len(),
                    column == &columns@[c as int],
                    column@.len() == num_rows,
                    forall|k: int| 0 <= k < r ==> (#[trigger] column@[k])@.fits(),
                decreases num_rows - r,
            {
                match column[r].text() {
                    Some(bytes) => {
                        if bytes.len() > BUFFER_SIZE {
                            assert(!columns@[c as int]@[r as int]@.fits());
                            return None;
                        }
                    },
                    None => {},
                }
                r += 1;
            }
            assert(well_shaped(num_rows, columns@.take(c + 1))) by {
                let done = columns@.take(c as int);
                let next = columns@.take(c + 1);
                assert forall|k: int| 0 <= k < next.len() implies (#[trigger] next[k])@.len()
                    == num_rows by {
                    if k < c {
                        assert(next[k] == done[k]);
                    }
                }
                assert forall|k: int, j: int|
                    0 <= k < next.len() && 0 <= j < next[k]@.len() implies (#[trigger] next[k]@[j])@.fits() by {
                    if k < c {
                        assert(next[k] == done[k]);
                        assert(done[k]@[j]@.fits());
                    }
                }
            }
            c += 1;
        }
        assert(columns@.take(columns@.len() as int) =~= columns@);
        Some(TextBatch { num_rows, columns })
    }

    /// Number of valid rows in the batch.
    pub fn num_rows(&self) -> (n: usize)
        ensures
            n == self.num_rows_spec(),
    {
        self.num_rows
    }

    /// Number of columns in the batch.
    pub fn num_cols(&self) -> (n: usize)
        ensures
            n == self.num_cols_spec(),
    {
        self.columns.len()
    }

    /// The text at the given position, or nothing for NULL.
    pub fn at(&self, col: usize, row: usize) -> (text: Option<&[u8]>)
        requires
            col < self.num_cols_spec(),
            row < self.num_rows_spec(),
        ensures
            text is Some == self.cell(col as int, row as int).text is Some,
            text matches Some(bytes) ==> self.cell(col as int, row as int).text == Some(bytes@)
                && bytes@.len() <= BUFFER_SIZE,
    {
        proof {
            use_type_invariant(self);
            assert(self.columns@[col as int]@[row as int]@.fits());
        }
        self.columns[col][row].text()
    }

    /// The number that the text at the given position denotes, if any.
    pub fn number_at(&self, col: usize, row: usize) -> (number: Option<u64>)
        requires
            col < self.num_cols_spec(),
            row < self.num_rows_spec(),
        ensures
            number == self.cell(col as int, row as int).number,
    {
        proof {
            use_type_invariant(self);
        }
        self.columns[col][row].number()
    }
}

} // verus!
