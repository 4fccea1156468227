use odbc_stream::odbc::batch::{Cell, TextBatch, BATCH_SIZE, BUFFER_SIZE};
use odbc_stream::odbc::text::{
    affected_text, escape_field, field_needs_quoting, header_line, join_fields, meta_line,
    row_to_line, unescape_field,
};

fn batch_of(rows: &[&[Option<&str>]]) -> TextBatch {
    let num_cols = if rows.is_empty() { 0 } else { rows[0].len() };
    let mut columns: Vec<Vec<Cell>> = Vec::new();
    for c in 0..num_cols {
        let mut column = Vec::new();
        for row in rows {
            column.push(match row[c] {
                Some(text) => Cell::new(
                    text.as_bytes().to_vec(),
                    text.parse::<f64>().ok().map(|x| x.to_bits()),
                ),
                None => Cell::null(),
            });
        }
        columns.push(column);
    }
    TextBatch::new(rows.len(), columns).expect("columns of equal length")
}

#[test]
fn a_plain_field_is_emitted_verbatim() {
    assert_eq!(escape_field(b"abc"), b"abc".to_vec());
    assert_eq!(escape_field(b""), b"".to_vec());
    assert_eq!(escape_field(b"line\nbreak"), b"line\nbreak".to_vec());
    assert!(!field_needs_quoting(b"abc"));
}

#[test]
fn a_field_with_a_delimiter_is_wrapped() {
    assert_eq!(escape_field(b"a,b"), b"\"a,b\"".to_vec());
    assert_eq!(escape_field(b","), b"\",\"".to_vec());
    assert!(field_needs_quoting(b"a,b"));
}

#[test]
fn a_field_with_a_quote_is_wrapped_and_its_quotes_doubled() {
    assert_eq!(escape_field(b"say \"hi\""), b"\"say \"\"hi\"\"\"".to_vec());
    assert_eq!(escape_field(b"\""), b"\"\"\"\"".to_vec());
    assert!(field_needs_quoting(b"\""));
}

#[test]
fn unescaping_gives_the_field_back() {
    let fields: [&[u8]; 12] = [
        b"",
        b"abc",
        b"a,b",
        b",",
        b"\"",
        b"\"\"",
        b"say \"hi\"",
        b"\"quoted\"",
        b"a\"\"b,c",
        b",,,",
        b"\"a,b\"",
        b"tail\"",
    ];
    for field in fields {
        assert_eq!(unescape_field(&escape_field(field)), field.to_vec());
    }
}

#[test]
fn unescaping_leaves_plain_text_alone() {
    assert_eq!(unescape_field(b"abc"), b"abc".to_vec());
    assert_eq!(unescape_field(b"\"a,b\""), b"a,b".to_vec());
    assert_eq!(unescape_field(b"\"a\"\"b\""), b"a\"b".to_vec());
    assert_eq!(unescape_field(b"\""), b"\"".to_vec());
}

#[test]
fn fields_are_joined_by_one_delimiter() {
    assert_eq!(join_fields(&vec![]), b"".to_vec());
    assert_eq!(join_fields(&vec![b"a".to_vec()]), b"a".to_vec());
    assert_eq!(join_fields(&vec![b"a".to_vec(), b"".to_vec(), b"c".to_vec()]), b"a,,c".to_vec());
}

#[test]
fn the_header_line_joins_the_names() {
    let names = vec!["id".to_string(), "name".to_string()];
    assert_eq!(header_line(&names), b"id,name".to_vec());
    assert_eq!(header_line(&vec![]), b"".to_vec());
    assert_eq!(header_line(&vec!["a,b".to_string()]), b"a,b".to_vec());
}

#[test]
fn a_row_line_holds_the_fields_in_column_order() {
    let batch = batch_of(&[&[Some("1"), Some("x")], &[Some("2"), Some("a,b")], &[None, Some("q\"")]]);
    assert_eq!(row_to_line(&batch, 0, 2), b"1,x".to_vec());
    assert_eq!(row_to_line(&batch, 1, 2), b"2,\"a,b\"".to_vec());
    assert_eq!(row_to_line(&batch, 2, 2), b",\"q\"\"\"".to_vec());
    assert_eq!(row_to_line(&batch, 1, 1), b"2".to_vec());
    assert_eq!(row_to_line(&batch, 1, 0), b"".to_vec());
}

#[test]
fn a_row_line_repairs_bytes_that_are_no_text() {
    let column = vec![Cell::new(vec![0x61, 0xff], None)];
    let batch = TextBatch::new(1, vec![column]).unwrap();
    assert_eq!(row_to_line(&batch, 0, 1), "a\u{fffd}".as_bytes().to_vec());
}

#[test]
fn the_affected_count_is_written_in_decimal() {
    assert_eq!(affected_text(Some(0)), "0");
    assert_eq!(affected_text(Some(2)), "2");
    assert_eq!(affected_text(Some(10)), "10");
    assert_eq!(affected_text(Some(1234567890)), "1234567890");
    assert_eq!(affected_text(Some(usize::MAX)), usize::MAX.to_string());
    assert_eq!(affected_text(None), "unknown");
}

#[test]
fn the_metadata_line_names_the_count() {
    assert_eq!(meta_line(Some(2)), b"__META__,affected_rows=2".to_vec());
    assert_eq!(meta_line(Some(0)), b"__META__,affected_rows=0".to_vec());
    assert_eq!(meta_line(None), b"__META__,affected_rows=unknown".to_vec());
}

#[test]
fn a_batch_needs_columns_of_equal_length() {
    let ragged = vec![vec![Cell::null(), Cell::null()], vec![Cell::null()]];
    assert!(TextBatch::new(2, ragged).is_none());
    let short = vec![vec![Cell::null()]];
    assert!(TextBatch::new(2, short).is_none());
    let empty = TextBatch::new(0, vec![]).unwrap();
    assert_eq!(empty.num_rows(), 0);
    assert_eq!(empty.num_cols(), 0);
}

#[test]
fn a_batch_hands_out_what_was_put_in() {
    let batch = batch_of(&[&[Some("1"), None], &[Some("x"), Some("2.5")]]);
    assert_eq!(batch.num_rows(), 2);
    assert_eq!(batch.num_cols(), 2);
    assert_eq!(batch.at(0, 0), Some(&b"1"[..]));
    assert_eq!(batch.at(1, 0), None);
    assert_eq!(batch.at(0, 1), Some(&b"x"[..]));
    assert_eq!(batch.number_at(0, 0), Some(1.0f64.to_bits()));
    assert_eq!(batch.number_at(1, 0), None);
    assert_eq!(batch.number_at(0, 1), None);
    assert_eq!(batch.number_at(1, 1), Some(2.5f64.to_bits()));
}

#[test]
fn a_batch_holds_no_more_than_its_buffer() {
    let column: Vec<Cell> = (0..BATCH_SIZE + 1).map(|_| Cell::null()).collect();
    assert!(TextBatch::new(BATCH_SIZE + 1, vec![column]).is_none());
    let column: Vec<Cell> = (0..BATCH_SIZE).map(|_| Cell::null()).collect();
    assert!(TextBatch::new(BATCH_SIZE, vec![column]).is_some());
    let long = Cell::new(vec![b'x'; BUFFER_SIZE + 1], None);
    assert!(TextBatch::new(1, vec![vec![Cell::null()], vec![long]]).is_none());
    let full = Cell::new(vec![b'x'; BUFFER_SIZE], None);
    assert!(TextBatch::new(1, vec![vec![full]]).is_some());
}

#[test]
fn unescaping_gives_back_many_fields() {
    let alphabet: [u8; 6] = [b'a', b',', b'"', b' ', b'\n', 0xc3];
    let mut state: u64 = 12345;
    let mut count = 0;
    while count < 20_000 {
        state = state.wrapping_mul(6364136223846793005).wrapping_add(1442695040888963407);
        let len = ((state >> 60) & 7) as usize;
        let mut field = Vec::new();
        let mut bits = state >> 8;
        for _ in 0..len {
            field.push(alphabet[(bits % 6) as usize]);
            bits /= 6;
        }
        let escaped = escape_field(&field);
        assert_eq!(unescape_field(&escaped), field);
        if field_needs_quoting(&field) {
            assert_eq!(escaped[0], b'"');
            assert_eq!(escaped[escaped.len() - 1], b'"');
        } else {
            assert_eq!(escaped, field);
        }
        count += 1;
    }
}
