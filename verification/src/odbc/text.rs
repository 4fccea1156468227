//! Plain-text mode: one delimited line per unit.

use vstd::prelude::*;
use vstd::string::*;
use vstd::utf8::*;
use crate::odbc::batch::TextBatch;
use crate::odbc::value::{lossy_text, utf8_lossy};

verus! {

/// The byte between two fields of a line.
pub const DELIMITER: u8 = 44;

/// The byte that wraps a field which holds a delimiter or a quote.
pub const QUOTE: u8 = 34;

/// The field cannot be emitted verbatim.
pub open spec fn needs_quoting(field: Seq<u8>) -> bool {
    exists|i: int| 0 <= i < field.len() && (#[trigger] field[i] == DELIMITER || field[i] == QUOTE)
}

/// The field with each quote written twice.
pub open spec fn doubled(field: Seq<u8>) -> Seq<u8>
    decreases field.len(),
{
    if field.len() == 0 {
        Seq::empty()
    } else if field[0] == QUOTE {
        seq![QUOTE, QUOTE] + doubled(field.skip(1))
    } else {
        seq![field[0]] + doubled(field.skip(1))
    }
}

/// The text with each pair of quotes written once.
pub open spec fn undoubled(text: Seq<u8>) -> Seq<u8>
    decreases text.len(),
{
    if text.len() == 0 {
        Seq::empty()
    } else if text.len() >= 2 && text[0] == QUOTE && text[1] == QUOTE {
        seq![QUOTE] + undoubled(text.skip(2))
    } else {
        seq![text[0]] + undoubled(text.skip(1))
    }
}

/// A field as it stands in a row's line.
pub open spec fn escaped(field: Seq<u8>) -> Seq<u8> {
    if needs_quoting(field) {
        seq![QUOTE] + doubled(field) + seq![QUOTE]
    } else {
        field
    }
}

/// The field that a piece of a row's line stands for.
pub open spec fn unescaped(text: Seq<u8>) -> Seq<u8> {
    if text.len() >= 2 && text[0] == QUOTE && text[text.len() - 1] == QUOTE {
        undoubled(text.subrange(1, text.len() - 1))
    } else {
        text
    }
}

/// Doubling the quotes and then pairing them again gives the field back.
pub proof fn undoubled_doubled(field: Seq<u8>)
    ensures
        undoubled(doubled(field)) == field,
    decreases field.len(),
{
    if field.len() == 0 {
    } else {
        let rest = field.skip(1);
        undoubled_doubled(rest);
        let d = doubled(field);
        if field[0] == QUOTE {
            assert(d.skip(2) =~= doubled(rest));
        } else {
            assert(d.skip(1) =~= doubled(rest));
        }
        assert(seq![field[0]] + rest =~= field);
    }
}

/// A field, escaped and then unescaped, is the field it was: with or without
/// a delimiter or a quote in it.
pub proof fn unescaped_escaped(field: Seq<u8>)
    ensures
        unescaped(escaped(field)) == field,
{
    if needs_quoting(field) {
        let e = escaped(field);
        assert(e.subrange(1, e.len() - 1) =~= doubled(field));
        undoubled_doubled(field);
    } else {
        if field.len() >= 2 && field[0] == QUOTE {
            assert(field[0] == DELIMITER || field[0] == QUOTE);
        }
    }
}

/// Tells whether the field holds a delimiter or a quote.
pub fn field_needs_quoting(field: &[u8]) -> (b: bool)
    ensures
        b == needs_quoting(field@),
{
    let mut i: usize = 0;
    while i < field.len()
        invariant
            i <= field@.len(),
            forall|k: int| 0 <= k < i ==> !(#[trigger] field@[k] == DELIMITER || field@[k] == QUOTE),
        decreases field@.len() - i,
    {
        if field[i] == DELIMITER || field[i] == QUOTE {
            return true;
        }
        i += 1;
    }
    false
}

/// Escapes one field of a row: wrapped in quotes, with each quote doubled,
/// when it holds a delimiter or a quote, and verbatim otherwise.
pub fn escape_field(field: &[u8]) -> (text: Vec<u8>)
    ensures
        text@ == escaped(field@),
{
    let mut out: Vec<u8> = Vec::new();
    if !field_needs_quoting(field) {
        let mut i: usize = 0;
        while i < field.len()
            invariant
                i <= field@.len(),
                out@ == field@.take(i as int),
            decreases field@.len() - i,
        {
            out.push(field[i]);
            assert(field@.take(i as int).push(field@[i as int]) =~= field@.take(i + 1));
            i += 1;
        }
        assert(field@.take(field@.len() as int) =~= field@);
        return out;
    }
    out.push(QUOTE);
    let mut i: usize = 0;
    assert(field@.skip(0) =~= field@);
    while i < field.len()
        invariant
            i <= field@.len(),
            out@ + doubled(field@.skip(i as int)) == seq![QUOTE] + doubled(field@),
        decreases field@.len() - i,
    {
        let ghost before = out@;
        let ghost rest = field@.skip(i as int);
        assert(rest.skip(1) =~= field@.skip(i + 1));
        assert(rest[0] == field@[i as int]);
        if field[i] == QUOTE {
            out.push(QUOTE);
            out.push(QUOTE);
            assert(out@ + doubled(field@.skip(i + 1)) =~= before + doubled(rest));
        } else {
            out.push(field[i]);
            assert(out@ + doubled(field@.skip(i + 1)) =~= before + doubled(rest));
        }
        i += 1;
    }
    assert(doubled(field@.skip(field@.len() as int)) =~= Seq::<u8>::empty());
    assert(out@ =~= out@ + Seq::<u8>::empty());
    out.push(QUOTE);
    out
}

/// Undoes `escape_field`.
pub fn unescape_field(text: &[u8]) -> (field: Vec<u8>)
    ensures
        field@ == unescaped(text@),
{
    let n = text.len();
    let mut out: Vec<u8> = Vec::new();
    if !(n >= 2 && text[0] == QUOTE && text[n - 1] == QUOTE) {
        let mut i: usize = 0;
        while i < n
            invariant
                n == text@.len(),
                i <= n,
                out@ == text@.take(i as int),
            decreases n - i,
        {
            out.push(text[i]);
            assert(text@.take(i as int).push(text@[i as int]) =~= text@.take(i + 1));
            i += 1;
        }
        assert(text@.take(n as int) =~= text@);
        return out;
    }
    let ghost inner = text@.subrange(1, n - 1);
    let mut i: usize = 1;
    assert(inner.skip(0) =~= inner);
    while i < n - 1
        invariant
            n == text@.len(),
            n >= 2,
            1 <= i <= n - 1,
            inner == text@.subrange(1, n - 1),
            out@ + undoubled(inner.skip(i - 1)) == undoubled(inner),
        decreases n - i,
    {
        let ghost before = out@;
        let ghost rest = inner.skip(i - 1);
        assert(rest[0] == text@[i as int]);
        if text[i] == QUOTE && i + 1 < n - 1 && text[i + 1] == QUOTE {
            assert(rest[1] == text@[i + 1]);
            assert(rest.skip(2) =~= inner.skip(i + 1));
            out.push(QUOTE);
            assert(out@ + undoubled(inner.skip(i + 1)) =~= before + undoubled(rest));
            i += 2;
        } else {
            assert(rest.len() >= 2 ==> rest[1] == text@[i + 1]);
            assert(rest.skip(1) =~= inner.skip(i as int));
            out.push(text[i]);
            assert(out@ + undoubled(inner.skip(i as int)) =~= before + undoubled(rest));
            i += 1;
        }
    }
    assert(undoubled(inner.skip(n - 2)) =~= Seq::<u8>::empty());
    assert(out@ =~= out@ + Seq::<u8>::empty());
    out
}

/// The fields with one delimiter between each two of them.
pub open spec fn joined(fields: Seq<Seq<u8>>) -> Seq<u8>
    decreases fields.len(),
{
    if fields.len() == 0 {
        Seq::empty()
    } else if fields.len() == 1 {
        fields[0]
    } else {
        joined(fields.drop_last()) + seq![DELIMITER] + fields.last()
    }
}

/// The deep view of byte strings is the sequence of their views.
pub proof fn deep_view_of_bytes(fields: &Vec<Vec<u8>>)
    ensures
        fields.deep_view().len() == fields@.len(),
        forall|i: int| 0 <= i < fields@.len() ==> #[trigger] fields.deep_view()[i] == fields@[i]@,
{
    assert forall|i: int| 0 <= i < fields@.len() implies #[trigger] fields.deep_view()[i]
        == fields@[i]@ by {
        assert(fields@[i].deep_view() =~= fields@[i]@);
    }
}

/// Joins the fields with the delimiter.
pub fn join_fields(fields: &Vec<Vec<u8>>) -> (line: Vec<u8>)
    ensures
        line@ == joined(fields.deep_view()),
{
    let mut out: Vec<u8> = Vec::new();
    let mut i: usize = 0;
    proof {
        deep_view_of_bytes(fields);
    }
    assert(fields.deep_view().take(0) =~= Seq::<Seq<u8>>::empty());
    while i < fields.len()
        invariant
            i <= fields@.len(),
            fields.deep_view().len() == fields@.len(),
            forall|k: int| 0 <= k < fields@.len() ==> #[trigger] fields.deep_view()[k] == fields@[k]@,
            out@ == joined(fields.deep_view().take(i as int)),
        decreases fields@.len() - i,
    {
        let ghost done = fields.deep_view().take(i as int);
        let ghost next = fields.deep_view().take(i + 1);
        assert(next.drop_last() =~= done);
        assert(next.last() == fields@[i as int]@);
        if i > 0 {
            out.push(DELIMITER);
        }
        let field = &fields[i];
        let mut k: usize = 0;
        let ghost start = out@;
        while k < field.len()
            invariant
                k <= field@.len(),
                out@ == start + field@.take(k as int),
            decreases field@.len() - k,
        {
            out.push(field[k]);
            assert(field@.take(k as int).push(field@[k as int]) =~= field@.take(k + 1));
            k += 1;
        }
        assert(field@.take(field@.len() as int) =~= field@);
        assert(out@ =~= joined(next));
        i += 1;
    }
    assert(fields.deep_view().take(fields@.len() as int) =~= fields.deep_view());
    out
}

/// The header line: the column names in order, joined, not escaped.
pub open spec fn header_line_spec(col_names: Seq<Seq<char>>) -> Seq<u8> {
    joined(Seq::new(col_names.len(), |i: int| encode_utf8(col_names[i])))
}

/// The header unit of a result set in text mode.
pub fn header_line(col_names: &Vec<String>) -> (line: Vec<u8>)
    ensures
        line@ == header_line_spec(col_names.deep_view()),
{
    let mut fields: Vec<Vec<u8>> = Vec::new();
    let mut i: usize = 0;
    while i < col_names.len()
        invariant
            i <= col_names@.len(),
            col_names.deep_view().len() == col_names@.len(),
            fields@.len() == i,
            forall|k: int| 0 <= k < i ==> (#[trigger] fields@[k])@ == encode_utf8(col_names@[k]@),
        decreases col_names@.len() - i,
    {
        fields.push(col_names[i].as_str().as_bytes_vec());
        i += 1;
    }
    proof {
        deep_view_of_bytes(&fields);
    }
    assert(fields.deep_view() =~= Seq::new(
        col_names.deep_view().len(),
        |i: int| encode_utf8(col_names.deep_view()[i]),
    ));
    join_fields(&fields)
}

/// The fields of one row as they stand in its line: the first `num_cols`
/// values of the row, each read as text and escaped.
pub open spec fn row_fields(batch: TextBatch, row: int, num_cols: nat) -> Seq<Seq<u8>> {
    Seq::new(num_cols, |c: int| escaped(encode_utf8(utf8_lossy(batch.cell(c, row).field()))))
}

/// The line of one row.
pub open spec fn row_line_spec(batch: TextBatch, row: int, num_cols: nat) -> Seq<u8> {
    joined(row_fields(batch, row, num_cols))
}

/// The row unit of one row in text mode: its fields in column order.
pub fn row_to_line(batch: &TextBatch, row_index: usize, num_cols: usize) -> (line: Vec<u8>)
    requires
        row_index < batch.num_rows_spec(),
        num_cols <= batch.num_cols_spec(),
    ensures
        line@ == row_line_spec(*batch, row_index as int, num_cols as nat),
{
    let mut fields: Vec<Vec<u8>> = Vec::new();
    let mut c: usize = 0;
    while c < num_cols
        invariant
            c <= num_cols,
            row_index < batch.num_rows_spec(),
            num_cols <= batch.num_cols_spec(),
            fields@.len() == c,
            forall|k: int|
                0 <= k < c ==> (#[trigger] fields@[k])@ == escaped(
                    encode_utf8(utf8_lossy(batch.cell(k, row_index as int).field())),
                ),
        decreases num_cols - c,
    {
        let empty: [u8; 0] = [];
        let text = match batch.at(c, row_index) {
            Some(bytes) => lossy_text(bytes),
            None => lossy_text(empty.as_slice()),
        };
        assert(text@ == utf8_lossy(batch.cell(c as int, row_index as int).field())) by {
            assert(empty@ =~= Seq::<u8>::empty());
        }
        fields.push(escape_field(text.as_str().as_bytes()));
        c += 1;
    }
    proof {
        deep_view_of_bytes(&fields);
    }
    assert(fields.deep_view() =~= row_fields(*batch, row_index as int, num_cols as nat));
    join_fields(&fields)
}

/// The ten digits.
pub open spec fn digit(d: nat) -> char {
    seq!['0', '1', '2', '3', '4', '5', '6', '7', '8', '9'][d as int]
}

/// A number in decimal, without sign or leading zero.
pub open spec fn decimal(n: nat) -> Seq<char>
    decreases n,
{
    if n < 10 {
        seq![digit(n)]
    } else {
        decimal(n / 10).push(digit(n % 10))
    }
}

/// The affected-row count as text: the count in decimal, or `unknown` when
/// the driver could not tell it.
pub open spec fn affected_text_spec(affected: Option<usize>) -> Seq<char> {
    match affected {
        Some(n) => decimal(n as nat),
        None => "unknown"@,
    }
}

/// The metadata line of a statement without result set.
pub open spec fn meta_line_spec(affected: Option<usize>) -> Seq<u8> {
    encode_utf8("__META__,affected_rows="@ + affected_text_spec(affected))
}

fn digit_text(d: usize) -> (s: &'static str)
    requires
        d < 10,
    ensures
        s@ == seq![digit(d as nat)],
{
    proof {
        reveal_strlit("0");
        reveal_strlit("1");
        reveal_strlit("2");
        reveal_strlit("3");
        reveal_strlit("4");
        reveal_strlit("5");
        reveal_strlit("6");
        reveal_strlit("7");
        reveal_strlit("8");
        reveal_strlit("9");
    }
    let s = if d == 0 {
        "0"
    } else if d == 1 {
        "1"
    } else if d == 2 {
        "2"
    } else if d == 3 {
        "3"
    } else if d == 4 {
        "4"
    } else if d == 5 {
        "5"
    } else if d == 6 {
        "6"
    } else if d == 7 {
        "7"
    } else if d == 8 {
        "8"
    } else {
        "9"
    };
    assert(s@ =~= seq![digit(d as nat)]);
    s
}

fn append_decimal(text: &mut String, n: usize)
    ensures
        final(text)@ == old(text)@ + decimal(n as nat),
    decreases n,
{
    if n >= 10 {
        append_decimal(text, n / 10);
    }
    text.append(digit_text(n % 10));
    assert(text@ =~= old(text)@ + decimal(n as nat));
}

/// The affected-row count as text.
pub fn affected_text(affected: Option<usize>) -> (text: String)
    ensures
        text@ == affected_text_spec(affected),
{
    match affected {
        Some(n) => {
            let mut text = String::new();
            append_decimal(&mut text, n);
            assert(text@ =~= decimal(n as nat));
            text
        },
        None => String::from_str("unknown"),
    }
}

/// The metadata unit in text mode.
pub fn meta_line(affected: Option<usize>) -> (line: Vec<u8>)
    ensures
        line@ == meta_line_spec(affected),
{
    let mut text = String::from_str("__META__,affected_rows=");
    let count = affected_text(affected);
    text.append(count.as_str());
    text.as_str().as_bytes_vec()
}

} // verus!
