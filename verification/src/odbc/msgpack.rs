//! Typed structured mode: one MessagePack record per unit.
//!
//! Integers and strings are encoded by the codec crate. The framing of a
//! record as an array or a map, a number with a fractional part and the
//! absent value are written here, byte for byte as the format defines them.

use vstd::prelude::*;
use crate::odbc::record::{EntryModel, RowRecord};
use crate::odbc::text::deep_view_of_bytes;
use crate::odbc::value::{FieldModel, FieldValue};

verus! {

/// The MessagePack encoding of a signed integer, in the shortest form.
pub uninterp spec fn msgpack_int(n: i64) -> Seq<u8>;

/// The MessagePack encoding of a string.
pub uninterp spec fn msgpack_str(text: Seq<char>) -> Seq<u8>;

/// `rmp_serde::encode::write` on an `i64`: the integer's encoding. Writing
/// into a vector cannot fail, and the encoder has no other error for an
/// integer.
#[verifier::external_body]
fn encode_int(n: i64) -> (bytes: Vec<u8>)
    ensures
        bytes@ == msgpack_int(n),
{
    let mut buf = Vec::new();
    rmp_serde::encode::write(&mut buf, &n).unwrap();
    buf
}

/// `rmp_serde::encode::write` on a `str`: the string's encoding. Writing into
/// a vector cannot fail, and the encoder has no other error for a string.
#[verifier::external_body]
fn encode_str(text: &str) -> (bytes: Vec<u8>)
    ensures
        bytes@ == msgpack_str(text@),
{
    let mut buf = Vec::new();
    rmp_serde::encode::write(&mut buf, text).unwrap();
    buf
}

/// The header of a collection with `n` members. The format counts members in
/// 32 bits: below 16 the count is part of the first byte, below 65536 it
/// follows a marker in two bytes, above in four.
pub open spec fn collection_header(fix: u8, marker16: u8, marker32: u8, n: nat) -> Seq<u8> {
    let len = n % 0x1_0000_0000;
    if len < 16 {
        seq![(fix + len) as u8]
    } else if len < 0x1_0000 {
        seq![marker16, (len / 0x100) as u8, (len % 0x100) as u8]
    } else {
        seq![
            marker32,
            (len / 0x100_0000) as u8,
            (len / 0x1_0000 % 0x100) as u8,
            (len / 0x100 % 0x100) as u8,
            (len % 0x100) as u8,
        ]
    }
}

/// The header of a map with `n` entries: fixmap, map 16 or map 32.
pub open spec fn map_header(n: nat) -> Seq<u8> {
    collection_header(0x80, 0xde, 0xdf, n)
}

/// The header of an array with `n` items: fixarray, array 16 or array 32.
pub open spec fn array_header(n: nat) -> Seq<u8> {
    collection_header(0x90, 0xdc, 0xdd, n)
}

/// The eight bytes of a 64-bit pattern, most significant first.
pub open spec fn big_endian(bits: u64) -> Seq<u8> {
    seq![
        (bits / 0x100_0000_0000_0000) as u8,
        (bits / 0x1_0000_0000_0000 % 0x100) as u8,
        (bits / 0x100_0000_0000 % 0x100) as u8,
        (bits / 0x1_0000_0000 % 0x100) as u8,
        (bits / 0x100_0000 % 0x100) as u8,
        (bits / 0x1_0000 % 0x100) as u8,
        (bits / 0x100 % 0x100) as u8,
        (bits % 0x100) as u8,
    ]
}

/// A binary64 number: the float 64 marker and the bit pattern.
pub open spec fn float_bytes(bits: u64) -> Seq<u8> {
    seq![0xcbu8] + big_endian(bits)
}

/// The absent value.
pub open spec fn nil_bytes() -> Seq<u8> {
    seq![0xc0u8]
}

/// The encoding of one value.
pub open spec fn value_bytes(value: FieldModel) -> Seq<u8> {
    match value {
        FieldModel::Integer(n) => msgpack_int(n),
        FieldModel::Float(bits) => float_bytes(bits),
        FieldModel::Null => nil_bytes(),
        FieldModel::Text(text) => msgpack_str(text),
    }
}

/// Keys and values, one after the other.
pub open spec fn concat_pairs(parts: Seq<(Seq<u8>, Seq<u8>)>) -> Seq<u8>
    decreases parts.len(),
{
    if parts.len() == 0 {
        Seq::empty()
    } else {
        concat_pairs(parts.drop_last()) + parts.last().0 + parts.last().1
    }
}

/// A map from its encoded keys and values.
pub open spec fn framed_map(parts: Seq<(Seq<u8>, Seq<u8>)>) -> Seq<u8> {
    map_header(parts.len()) + concat_pairs(parts)
}

/// The encoded name and value of each entry.
pub open spec fn entry_parts(entries: Seq<EntryModel>) -> Seq<(Seq<u8>, Seq<u8>)> {
    Seq::new(entries.len(), |i: int| (msgpack_str(entries[i].0), value_bytes(entries[i].1)))
}

/// The row unit of a record: a map from each name to its value, in the
/// record's order.
pub open spec fn row_bytes(entries: Seq<EntryModel>) -> Seq<u8> {
    framed_map(entry_parts(entries))
}

/// Items, one after the other.
pub open spec fn concat_items(items: Seq<Seq<u8>>) -> Seq<u8>
    decreases items.len(),
{
    if items.len() == 0 {
        Seq::empty()
    } else {
        concat_items(items.drop_last()) + items.last()
    }
}

/// An array from its encoded items.
pub open spec fn framed_array(items: Seq<Seq<u8>>) -> Seq<u8> {
    array_header(items.len()) + concat_items(items)
}

/// The header unit: the record whose one field, `columns`, holds the column
/// names in result-set order. A record is written in the compact form, as the
/// array of its fields.
pub open spec fn header_bytes(col_names: Seq<Seq<char>>) -> Seq<u8> {
    framed_array(
        seq![framed_array(Seq::new(col_names.len(), |i: int| msgpack_str(col_names[i])))],
    )
}

/// The metadata unit: the record whose one field, `affected_rows`, holds the
/// affected-row count as a string.
pub open spec fn meta_bytes(affected: Seq<char>) -> Seq<u8> {
    framed_array(seq![msgpack_str(affected)])
}

/// The view of encoded pairs.
pub open spec fn parts_view(parts: Seq<(Vec<u8>, Vec<u8>)>) -> Seq<(Seq<u8>, Seq<u8>)> {
    Seq::new(parts.len(), |i: int| (parts[i].0@, parts[i].1@))
}

fn push_all(out: &mut Vec<u8>, bytes: &[u8])
    ensures
        final(out)@ == old(out)@ + bytes@,
{
    let mut i: usize = 0;
    while i < bytes.len()
        invariant
            i <= bytes@.len(),
            out@ == old(out)@ + bytes@.take(i as int),
        decreases bytes@.len() - i,
    {
        out.push(bytes[i]);
        assert(bytes@.take(i + 1) =~= bytes@.take(i as int).push(bytes@[i as int]));
        assert(out@ =~= old(out)@ + bytes@.take(i + 1));
        i += 1;
    }
    assert(bytes@.take(bytes@.len() as int) =~= bytes@);
}

fn push_collection_header(out: &mut Vec<u8>, fix: u8, marker16: u8, marker32: u8, n: usize)
    requires
        fix <= 0xf0,
    ensures
        final(out)@ == old(out)@ + collection_header(fix, marker16, marker32, n as nat),
{
    let len: u32 = #[verifier::truncate] (n as u32);
    assert(len == (n as nat) % 0x1_0000_0000) by (bit_vector)
        requires
            len == n as u32,
    ;
    if len < 16 {
        let b: u8 = fix + (len as u8);
        out.push(b);
        assert(out@ =~= old(out)@ + collection_header(fix, marker16, marker32, n as nat));
    } else if len < 0x1_0000 {
        let hi: u8 = (len >> 8) as u8;
        let lo: u8 = #[verifier::truncate] (len as u8);
        assert(hi == len / 0x100 && lo == len % 0x100) by (bit_vector)
            requires
                len < 0x1_0000,
                hi == (len >> 8) as u8,
                lo == len as u8,
        ;
        out.push(marker16);
        out.push(hi);
        out.push(lo);
        assert(out@ =~= old(out)@ + collection_header(fix, marker16, marker32, n as nat));
    } else {
        let b3: u8 = (len >> 24) as u8;
        let b2: u8 = #[verifier::truncate] ((len >> 16) as u8);
        let b1: u8 = #[verifier::truncate] ((len >> 8) as u8);
        let b0: u8 = #[verifier::truncate] (len as u8);
        assert(b3 == len / 0x100_0000 && b2 == len / 0x1_0000 % 0x100 && b1 == len / 0x100 % 0x100
            && b0 == len % 0x100) by (bit_vector)
            requires
                b3 == (len >> 24) as u8,
                b2 == (len >> 16) as u8,
                b1 == (len >> 8) as u8,
                b0 == len as u8,
        ;
        out.push(marker32);
        out.push(b3);
        out.push(b2);
        out.push(b1);
        out.push(b0);
        assert(out@ =~= old(out)@ + collection_header(fix, marker16, marker32, n as nat));
    }
}

/// Frames encoded items as one array.
pub fn frame_array(items: &Vec<Vec<u8>>) -> (bytes: Vec<u8>)
    ensures
        bytes@ == framed_array(items.deep_view()),
{
    let mut out: Vec<u8> = Vec::new();
    push_collection_header(&mut out, 0x90, 0xdc, 0xdd, items.len());
    let ghost view = items.deep_view();
    let ghost head = out@;
    proof {
        deep_view_of_bytes(items);
    }
    assert(head =~= array_header(view.len()));
    let mut i: usize = 0;
    assert(view.take(0) =~= Seq::<Seq<u8>>::empty());
    assert(out@ =~= head + concat_items(view.take(0)));
    while i < items.len()
        invariant
            i <= items@.len(),
            view == items.deep_view(),
            view.len() == items@.len(),
            forall|k: int| 0 <= k < items@.len() ==> #[trigger] view[k] == items@[k]@,
            out@ == head + concat_items(view.take(i as int)),
        decreases items@.len() - i,
    {
        let ghost next = view.take(i + 1);
        assert(next.drop_last() =~= view.take(i as int));
        assert(next.last() == items@[i as int]@);
        push_all(&mut out, items[i].as_slice());
        assert(out@ =~= head + concat_items(next));
        i += 1;
    }
    assert(view.take(items@.len() as int) =~= view);
    out
}

/// Frames encoded keys and values as one map.
pub fn frame_map(parts: &Vec<(Vec<u8>, Vec<u8>)>) -> (bytes: Vec<u8>)
    ensures
        bytes@ == framed_map(parts_view(parts@)),
{
    let mut out: Vec<u8> = Vec::new();
    push_collection_header(&mut out, 0x80, 0xde, 0xdf, parts.len());
    let ghost view = parts_view(parts@);
    let ghost head = out@;
    assert(head =~= map_header(view.len()));
    let mut i: usize = 0;
    assert(view.take(0) =~= Seq::<(Seq<u8>, Seq<u8>)>::empty());
    assert(out@ =~= head + concat_pairs(view.take(0)));
    while i < parts.len()
        invariant
            i <= parts@.len(),
            view == parts_view(parts@),
            out@ == head + concat_pairs(view.take(i as int)),
        decreases parts@.len() - i,
    {
        let ghost next = view.take(i + 1);
        assert(next.drop_last() =~= view.take(i as int));
        assert(next.last() == (parts@[i as int].0@, parts@[i as int].1@));
        push_all(&mut out, parts[i].0.as_slice());
        push_all(&mut out, parts[i].1.as_slice());
        assert(out@ =~= head + concat_pairs(next));
        i += 1;
    }
    assert(view.take(parts@.len() as int) =~= view);
    out
}

/// The bytes of a number with a fractional part.
pub fn encode_float(bits: u64) -> (bytes: Vec<u8>)
    ensures
        bytes@ == float_bytes(bits),
{
    let b7: u8 = (bits >> 56) as u8;
    let b6: u8 = #[verifier::truncate] ((bits >> 48) as u8);
    let b5: u8 = #[verifier::truncate] ((bits >> 40) as u8);
    let b4: u8 = #[verifier::truncate] ((bits >> 32) as u8);
    let b3: u8 = #[verifier::truncate] ((bits >> 24) as u8);
    let b2: u8 = #[verifier::truncate] ((bits >> 16) as u8);
    let b1: u8 = #[verifier::truncate] ((bits >> 8) as u8);
    let b0: u8 = #[verifier::truncate] (bits as u8);
    assert(b7 == bits / 0x100_0000_0000_0000 && b6 == bits / 0x1_0000_0000_0000 % 0x100 && b5 == bits
        / 0x100_0000_0000 % 0x100 && b4 == bits / 0x1_0000_0000 % 0x100 && b3 == bits / 0x100_0000
        % 0x100 && b2 == bits / 0x1_0000 % 0x100 && b1 == bits / 0x100 % 0x100 && b0 == bits
        % 0x100) by (bit_vector)
        requires
            b7 == (bits >> 56) as u8,
            b6 == (bits >> 48) as u8,
            b5 == (bits >> 40) as u8,
            b4 == (bits >> 32) as u8,
            b3 == (bits >> 24) as u8,
            b2 == (bits >> 16) as u8,
            b1 == (bits >> 8) as u8,
            b0 == bits as u8,
    ;
    let mut out: Vec<u8> = Vec::new();
    out.push(0xcb);
    out.push(b7);
    out.push(b6);
    out.push(b5);
    out.push(b4);
    out.push(b3);
    out.push(b2);
    out.push(b1);
    out.push(b0);
    assert(out@ =~= float_bytes(bits));
    out
}

/// The bytes of one value.
pub fn encode_value(value: &FieldValue) -> (bytes: Vec<u8>)
    ensures
        bytes@ == value_bytes(value@),
{
    match value {
        FieldValue::Integer(n) => encode_int(*n),
        FieldValue::Float(bits) => encode_float(*bits),
        FieldValue::Null => {
            let mut out: Vec<u8> = Vec::new();
            out.push(0xc0);
            assert(out@ =~= nil_bytes());
            out
        },
        FieldValue::Text(text) => encode_str(text.as_str()),
    }
}

/// The header unit of a result set.
pub fn encode_header(col_names: &Vec<String>) -> (bytes: Vec<u8>)
    ensures
        bytes@ == header_bytes(col_names.deep_view()),
{
    let mut names: Vec<Vec<u8>> = Vec::new();
    let mut i: usize = 0;
    while i < col_names.len()
        invariant
            i <= col_names@.len(),
            col_names.deep_view().len() == col_names@.len(),
            names@.len() == i,
            forall|k: int| 0 <= k < i ==> (#[trigger] names@[k])@ == msgpack_str(col_names@[k]@),
        decreases col_names@.len() - i,
    {
        names.push(encode_str(col_names[i].as_str()));
        i += 1;
    }
    proof {
        deep_view_of_bytes(&names);
    }
    assert(names.deep_view() =~= Seq::new(
        col_names.deep_view().len(),
        |i: int| msgpack_str(col_names.deep_view()[i]),
    ));
    let mut outer: Vec<Vec<u8>> = Vec::new();
    outer.push(frame_array(&names));
    proof {
        deep_view_of_bytes(&outer);
    }
    assert(outer.deep_view() =~= seq![framed_array(names.deep_view())]);
    frame_array(&outer)
}

/// The metadata unit of a statement without result set.
pub fn encode_meta(affected: &str) -> (bytes: Vec<u8>)
    ensures
        bytes@ == meta_bytes(affected@),
{
    let mut items: Vec<Vec<u8>> = Vec::new();
    items.push(encode_str(affected));
    proof {
        deep_view_of_bytes(&items);
    }
    assert(items.deep_view() =~= seq![msgpack_str(affected@)]);
    frame_array(&items)
}

/// The row unit of a record.
pub fn encode_row(record: &RowRecord) -> (bytes: Vec<u8>)
    ensures
        bytes@ == row_bytes(record@),
{
    let mut parts: Vec<(Vec<u8>, Vec<u8>)> = Vec::new();
    let n = record.len();
    let mut i: usize = 0;
    while i < n
        invariant
            i <= n,
            n == record@.len(),
            parts@.len() == i,
            forall|k: int|
                0 <= k < i ==> (#[trigger] parts@[k]).0@ == msgpack_str(record@[k].0) && parts@[k].1@
                    == value_bytes(record@[k].1),
        decreases n - i,
    {
        let key = encode_str(record.key_at(i));
        let value = encode_value(record.value_at(i));
        parts.push((key, value));
        i += 1;
    }
    assert(parts_view(parts@) =~= entry_parts(record@));
    frame_map(&parts)
}

} // verus!
