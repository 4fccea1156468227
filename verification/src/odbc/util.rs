//! From driver text to units: type inference for one field, the record of one
//! row, and the units of a header, of a batch and of an affected-row count.

use vstd::prelude::*;
use crate::odbc::batch::TextBatch;
use crate::odbc::msgpack::{
    encode_header,
    encode_meta,
    encode_row,
    header_bytes,
    meta_bytes,
    row_bytes,
};
use crate::odbc::number::{integer_of, is_finite, is_whole, whole_number};
use crate::odbc::record::{
    inserted,
    inserted_sorted,
    lookup,
    lookup_inserted,
    sorted,
    EntryModel,
    RowRecord,
};
use crate::odbc::text::{
    affected_text,
    affected_text_spec,
    header_line,
    header_line_spec,
    meta_line,
    meta_line_spec,
    row_line_spec,
    row_to_line,
};
use crate::odbc::value::{lossy_text, utf8_lossy, FieldModel, FieldValue};

verus! {

/// The encoding of the units.
#[derive(Clone, Copy, Debug, PartialEq, Eq, Structural)]
pub enum Mode {
    /// One delimited line per unit.
    Text,
    /// One MessagePack record per unit.
    Binary,
}

/// The value that a field is coerced to. `number` is the bit pattern of the
/// number that the field's text denotes, if it denotes one: a whole number
/// becomes an integer, another finite number stays as it is, and text that is
/// no number stays text.
pub open spec fn coerced(field: Seq<u8>, number: Option<u64>) -> FieldModel {
    match number {
        Some(bits) => if is_whole(bits) {
            FieldModel::Integer(integer_of(bits))
        } else if is_finite(bits) {
            FieldModel::Float(bits)
        } else {
            FieldModel::Null
        },
        None => FieldModel::Text(utf8_lossy(field)),
    }
}

/// Infers the type of one field.
pub fn field_to_value(field: &[u8], number: Option<u64>) -> (value: FieldValue)
    ensures
        value@ == coerced(field@, number),
{
    match number {
        Some(bits) => match whole_number(bits) {
            Some(n) => FieldValue::Integer(n),
            None => {
                if (bits >> 52) & 0x7ff == 0x7ff {
                    assert(!is_finite(bits)) by {
                        assert(((bits >> 52) & 0x7ff) == (bits / 0x10_0000_0000_0000) % 2048)
                            by (bit_vector);
                    }
                    FieldValue::Null
                } else {
                    assert(is_finite(bits)) by {
                        assert(((bits >> 52) & 0x7ff) == (bits / 0x10_0000_0000_0000) % 2048)
                            by (bit_vector);
                    }
                    FieldValue::Float(bits)
                }
            },
        },
        None => FieldValue::Text(lossy_text(field)),
    }
}

/// The value of column `col` in row `row`.
pub open spec fn cell_value(batch: TextBatch, col: int, row: int) -> FieldModel {
    coerced(batch.cell(col, row).field(), batch.cell(col, row).number)
}

/// The record of a row after its first `upto` columns were entered.
pub open spec fn row_entries_upto(
    batch: TextBatch,
    row: int,
    col_names: Seq<Seq<char>>,
    upto: nat,
) -> Seq<EntryModel>
    decreases upto,
{
    if upto == 0 {
        Seq::empty()
    } else {
        inserted(
            row_entries_upto(batch, row, col_names, (upto - 1) as nat),
            col_names[upto - 1],
            cell_value(batch, upto - 1, row),
        )
    }
}

/// The record of a row: each column name with the value of its field,
/// entered in column order.
pub open spec fn row_entries(batch: TextBatch, row: int, col_names: Seq<Seq<char>>) -> Seq<
    EntryModel,
> {
    row_entries_upto(batch, row, col_names, col_names.len())
}

/// The record of a row has its names in order.
pub proof fn row_entries_sorted(batch: TextBatch, row: int, col_names: Seq<Seq<char>>, upto: nat)
    ensures
        sorted(row_entries_upto(batch, row, col_names, upto)),
    decreases upto,
{
    if upto > 0 {
        row_entries_sorted(batch, row, col_names, (upto - 1) as nat);
        inserted_sorted(
            row_entries_upto(batch, row, col_names, (upto - 1) as nat),
            col_names[upto - 1],
            cell_value(batch, upto - 1, row),
        );
    }
}

/// The record of a row holds, for the name of each column, the coerced value
/// of that column's field; where several columns have one name, that of the
/// last of them.
pub proof fn row_holds_columns(
    batch: TextBatch,
    row: int,
    col_names: Seq<Seq<char>>,
    upto: nat,
    col: int,
)
    requires
        0 <= col < upto <= col_names.len(),
        forall|later: int| col < later < upto ==> col_names[later] != col_names[col],
    ensures
        lookup(row_entries_upto(batch, row, col_names, upto), col_names[col]) == Some(
            cell_value(batch, col, row),
        ),
    decreases upto,
{
    lookup_inserted(
        row_entries_upto(batch, row, col_names, (upto - 1) as nat),
        col_names[upto - 1],
        cell_value(batch, upto - 1, row),
        col_names[col],
    );
    if col < upto - 1 {
        row_holds_columns(batch, row, col_names, (upto - 1) as nat, col);
    }
}

/// The record of a row holds nothing for a name that no column has.
pub proof fn row_holds_nothing_else(
    batch: TextBatch,
    row: int,
    col_names: Seq<Seq<char>>,
    upto: nat,
    name: Seq<char>,
)
    requires
        upto <= col_names.len(),
        forall|col: int| 0 <= col < upto ==> col_names[col] != name,
    ensures
        lookup(row_entries_upto(batch, row, col_names, upto), name) is None,
    decreases upto,
{
    if upto > 0 {
        lookup_inserted(
            row_entries_upto(batch, row, col_names, (upto - 1) as nat),
            col_names[upto - 1],
            cell_value(batch, upto - 1, row),
            name,
        );
        row_holds_nothing_else(batch, row, col_names, (upto - 1) as nat, name);
    }
}

/// Builds the record of one row. A NULL counts as the empty text.
pub fn row_to_map(batch: &TextBatch, row_index: usize, col_names: &Vec<String>) -> (record:
    RowRecord)
    requires
        row_index < batch.num_rows_spec(),
        col_names@.len() <= batch.num_cols_spec(),
    ensures
        record@ == row_entries(*batch, row_index as int, col_names.deep_view()),
        sorted(record@),
{
    let mut record = RowRecord::new();
    let mut c: usize = 0;
    while c < col_names.len()
        invariant
            c <= col_names@.len(),
            row_index < batch.num_rows_spec(),
            col_names@.len() <= batch.num_cols_spec(),
            col_names.deep_view().len() == col_names@.len(),
            record@ == row_entries_upto(*batch, row_index as int, col_names.deep_view(), c as nat),
        decreases col_names@.len() - c,
    {
        let empty: [u8; 0] = [];
        let number = batch.number_at(c, row_index);
        let value = match batch.at(c, row_index) {
            Some(bytes) => field_to_value(bytes, number),
            None => {
                assert(empty@ =~= Seq::<u8>::empty());
                field_to_value(empty.as_slice(), number)
            },
        };
        assert(value@ == cell_value(*batch, c as int, row_index as int));
        assert(col_names.deep_view()[c as int] == col_names@[c as int]@);
        record.insert(col_names[c].clone(), value);
        c += 1;
    }
    proof {
        row_entries_sorted(*batch, row_index as int, col_names.deep_view(), col_names@.len());
    }
    record
}

/// The names when the driver gave every one of them.
pub open spec fn collected(names: Seq<Option<Seq<char>>>) -> Option<Seq<Seq<char>>> {
    if forall|i: int| 0 <= i < names.len() ==> (#[trigger] names[i]) is Some {
        Some(Seq::new(names.len(), |i: int| names[i]->0))
    } else {
        None
    }
}

/// The view of the driver's answers to a request for the column names.
pub open spec fn names_view(names: Seq<Option<String>>) -> Seq<Option<Seq<char>>> {
    Seq::new(
        names.len(),
        |i: int|
            match names[i] {
                Some(s) => Some(s@),
                None => None,
            },
    )
}

/// Collects the column names in result-set order. `None` stands for a name
/// that the driver failed to give, and makes the whole answer fail.
pub fn column_names_to_header(names: &Vec<Option<String>>) -> (col_names: Option<Vec<String>>)
    ensures
        match col_names {
            Some(v) => collected(names_view(names@)) == Some(v.deep_view()),
            None => collected(names_view(names@)) is None,
        },
{
    let mut out: Vec<String> = Vec::new();
    let mut i: usize = 0;
    let ghost view = names_view(names@);
    while i < names.len()
        invariant
            i <= names@.len(),
            view == names_view(names@),
            out@.len() == i,
            forall|k: int| 0 <= k < i ==> (#[trigger] view[k]) == Some(out@[k]@),
        decreases names@.len() - i,
    {
        match &names[i] {
            Some(name) => {
                out.push(name.clone());
            },
            None => {
                assert(view[i as int] is None);
                return None;
            },
        }
        i += 1;
    }
    assert(out.deep_view() =~= Seq::new(view.len(), |i: int| view[i]->0));
    Some(out)
}

/// The header unit.
pub open spec fn header_unit(mode: Mode, col_names: Seq<Seq<char>>) -> Seq<u8> {
    match mode {
        Mode::Text => header_line_spec(col_names),
        Mode::Binary => header_bytes(col_names),
    }
}

/// The row unit of one row.
pub open spec fn row_unit(mode: Mode, batch: TextBatch, row: int, col_names: Seq<Seq<char>>) -> Seq<
    u8,
> {
    match mode {
        Mode::Text => row_line_spec(batch, row, col_names.len()),
        Mode::Binary => row_bytes(row_entries(batch, row, col_names)),
    }
}

/// The row units of one batch, in row order.
pub open spec fn batch_units(mode: Mode, batch: TextBatch, col_names: Seq<Seq<char>>) -> Seq<
    Seq<u8>,
> {
    Seq::new(batch.num_rows_spec(), |row: int| row_unit(mode, batch, row, col_names))
}

/// The metadata unit.
pub open spec fn meta_unit(mode: Mode, affected: Option<usize>) -> Seq<u8> {
    match mode {
        Mode::Text => meta_line_spec(affected),
        Mode::Binary => meta_bytes(affected_text_spec(affected)),
    }
}

/// The views of units.
pub open spec fn units_view(units: Seq<Vec<u8>>) -> Seq<Seq<u8>> {
    Seq::new(units.len(), |i: int| units[i]@)
}

/// The unit that names the columns of a result set, in result-set order.
pub fn stream_header(col_names: &Vec<String>, mode: Mode) -> (unit: Vec<u8>)
    ensures
        unit@ == header_unit(mode, col_names.deep_view()),
{
    match mode {
        Mode::Text => header_line(col_names),
        Mode::Binary => encode_header(col_names),
    }
}

/// The units of one batch: one for each row, in row order.
pub fn stream_rows(batch: &TextBatch, col_names: &Vec<String>, mode: Mode) -> (units: Vec<Vec<u8>>)
    requires
        col_names@.len() <= batch.num_cols_spec(),
    ensures
        units_view(units@) == batch_units(mode, *batch, col_names.deep_view()),
        units@.len() == batch.num_rows_spec(),
{
    let mut units: Vec<Vec<u8>> = Vec::new();
    let n = batch.num_rows();
    let mut row: usize = 0;
    while row < n
        invariant
            row <= n,
            n == batch.num_rows_spec(),
            col_names@.len() <= batch.num_cols_spec(),
            col_names.deep_view().len() == col_names@.len(),
            units@.len() == row,
            forall|r: int|
                0 <= r < row ==> (#[trigger] units@[r])@ == row_unit(
                    mode,
                    *batch,
                    r,
                    col_names.deep_view(),
                ),
        decreases n - row,
    {
        let unit = match mode {
            Mode::Text => row_to_line(batch, row, col_names.len()),
            Mode::Binary => {
                let record = row_to_map(batch, row, col_names);
                encode_row(&record)
            },
        };
        units.push(unit);
        row += 1;
    }
    assert(units_view(units@) =~= batch_units(mode, *batch, col_names.deep_view()));
    units
}

/// The unit that tells how many rows a statement without result set
/// affected; `None` when the driver could not tell.
pub fn stream_meta(affected: Option<usize>, mode: Mode) -> (unit: Vec<u8>)
    ensures
        unit@ == meta_unit(mode, affected),
{
    match mode {
        Mode::Text => meta_line(affected),
        Mode::Binary => {
            let text = affected_text(affected);
            encode_meta(text.as_str())
        },
    }
}

} // verus!
