//! The record of one row in typed structured mode: each column name with the
//! value of its field, held in the order of the names.

use vstd::prelude::*;
use vstd::utf8::*;
use crate::odbc::value::{FieldModel, FieldValue};

verus! {

/// Byte strings in dictionary order: `a` comes strictly before `b`.
pub open spec fn bytes_less(a: Seq<u8>, b: Seq<u8>) -> bool
    decreases a.len(),
{
    if b.len() == 0 {
        false
    } else if a.len() == 0 {
        true
    } else if a[0] != b[0] {
        a[0] < b[0]
    } else {
        bytes_less(a.skip(1), b.skip(1))
    }
}

/// Names in the order of their UTF-8 bytes.
pub open spec fn key_less(a: Seq<char>, b: Seq<char>) -> bool {
    bytes_less(encode_utf8(a), encode_utf8(b))
}

/// One name with its value.
pub type EntryModel = (Seq<char>, FieldModel);

/// Each name comes strictly before the names behind it, so no name occurs
/// twice.
pub open spec fn sorted(entries: Seq<EntryModel>) -> bool {
    forall|i: int, j: int|
        0 <= i < j < entries.len() ==> key_less((#[trigger] entries[i]).0, (#[trigger] entries[j]).0)
}

/// The entries after `key` was given `value`: the value replaces the one that
/// `key` had, or the pair is put in before the first name that does not come
/// before `key`.
pub open spec fn inserted(entries: Seq<EntryModel>, key: Seq<char>, value: FieldModel) -> Seq<
    EntryModel,
>
    decreases entries.len(),
{
    if entries.len() == 0 {
        seq![(key, value)]
    } else if entries[0].0 == key {
        seq![(key, value)] + entries.skip(1)
    } else if key_less(entries[0].0, key) {
        seq![entries[0]] + inserted(entries.skip(1), key, value)
    } else {
        seq![(key, value)] + entries
    }
}

/// The value that the entries hold for `key`.
pub open spec fn lookup(entries: Seq<EntryModel>, key: Seq<char>) -> Option<FieldModel>
    decreases entries.len(),
{
    if entries.len() == 0 {
        None
    } else if entries[0].0 == key {
        Some(entries[0].1)
    } else {
        lookup(entries.skip(1), key)
    }
}

pub proof fn bytes_less_irreflexive(a: Seq<u8>)
    ensures
        !bytes_less(a, a),
    decreases a.len(),
{
    if a.len() > 0 {
        bytes_less_irreflexive(a.skip(1));
    }
}

pub proof fn bytes_less_transitive(a: Seq<u8>, b: Seq<u8>, c: Seq<u8>)
    requires
        bytes_less(a, b),
        bytes_less(b, c),
    ensures
        bytes_less(a, c),
    decreases a.len(),
{
    if a.len() > 0 && a[0] == b[0] && b[0] == c[0] {
        bytes_less_transitive(a.skip(1), b.skip(1), c.skip(1));
    }
}

pub proof fn bytes_less_total(a: Seq<u8>, b: Seq<u8>)
    ensures
        bytes_less(a, b) || bytes_less(b, a) || a == b,
    decreases a.len(),
{
    if a.len() > 0 && b.len() > 0 && a[0] == b[0] {
        bytes_less_total(a.skip(1), b.skip(1));
        if a.skip(1) == b.skip(1) {
            assert(a =~= seq![a[0]] + a.skip(1));
            assert(b =~= seq![b[0]] + b.skip(1));
        }
    } else if a.len() == 0 && b.len() == 0 {
        assert(a =~= b);
    }
}

/// Two names with the same bytes are the same name.
pub proof fn key_bytes_injective(a: Seq<char>, b: Seq<char>)
    requires
        encode_utf8(a) == encode_utf8(b),
    ensures
        a == b,
{
    encode_utf8_decode_utf8(a);
    encode_utf8_decode_utf8(b);
}

/// Giving a name a value changes what the entries hold for that name, and
/// for no other: where a name occurs twice among the columns, the later
/// column's value is the one that stays.
pub proof fn lookup_inserted(
    entries: Seq<EntryModel>,
    key: Seq<char>,
    value: FieldModel,
    other: Seq<char>,
)
    ensures
        lookup(inserted(entries, key, value), other) == if other == key {
            Some(value)
        } else {
            lookup(entries, other)
        },
    decreases entries.len(),
{
    let after = inserted(entries, key, value);
    if entries.len() == 0 {
        assert(after.skip(1) =~= entries);
    } else if entries[0].0 == key {
        assert(after.skip(1) =~= entries.skip(1));
    } else if key_less(entries[0].0, key) {
        lookup_inserted(entries.skip(1), key, value, other);
        assert(after.skip(1) =~= inserted(entries.skip(1), key, value));
    } else {
        assert(after.skip(1) =~= entries);
    }
}

/// Every name of the entries after an insertion is the inserted name or was
/// there before.
proof fn inserted_keys(entries: Seq<EntryModel>, key: Seq<char>, value: FieldModel, i: int)
    requires
        0 <= i < inserted(entries, key, value).len(),
    ensures
        inserted(entries, key, value)[i].0 == key || exists|k: int|
            0 <= k < entries.len() && (#[trigger] entries[k]).0 == inserted(entries, key, value)[i].0,
    decreases entries.len(),
{
    let after = inserted(entries, key, value);
    if entries.len() == 0 {
    } else if entries[0].0 == key {
        if i > 0 {
            assert(after[i] == entries[i]);
        }
    } else if key_less(entries[0].0, key) {
        if i == 0 {
            assert(after[0] == entries[0]);
        } else {
            let rest = entries.skip(1);
            inserted_keys(rest, key, value, i - 1);
            assert(after[i] == inserted(rest, key, value)[i - 1]);
            if after[i].0 != key {
                let k = choose|k: int|
                    0 <= k < rest.len() && (#[trigger] rest[k]).0 == inserted(rest, key, value)[i
                        - 1].0;
                assert(entries[k + 1] == rest[k]);
            }
        }
    } else {
        if i > 0 {
            assert(after[i] == entries[i - 1]);
        }
    }
}

/// Insertion keeps the names in order.
pub proof fn inserted_sorted(entries: Seq<EntryModel>, key: Seq<char>, value: FieldModel)
    requires
        sorted(entries),
    ensures
        sorted(inserted(entries, key, value)),
    decreases entries.len(),
{
    let after = inserted(entries, key, value);
    if entries.len() == 0 {
    } else if entries[0].0 == key {
        assert forall|i: int, j: int| 0 <= i < j < after.len() implies key_less(
            (#[trigger] after[i]).0,
            (#[trigger] after[j]).0,
        ) by {
            assert(after[j] == entries[j]);
            if i == 0 {
                assert(key_less(entries[0].0, entries[j].0));
            } else {
                assert(after[i] == entries[i]);
            }
        }
    } else if key_less(entries[0].0, key) {
        let rest = entries.skip(1);
        assert(sorted(rest)) by {
            assert forall|i: int, j: int| 0 <= i < j < rest.len() implies key_less(
                (#[trigger] rest[i]).0,
                (#[trigger] rest[j]).0,
            ) by {
                assert(rest[i] == entries[i + 1]);
                assert(rest[j] == entries[j + 1]);
            }
        }
        inserted_sorted(rest, key, value);
        let tail = inserted(rest, key, value);
        assert forall|i: int, j: int| 0 <= i < j < after.len() implies key_less(
            (#[trigger] after[i]).0,
            (#[trigger] after[j]).0,
        ) by {
            assert(after[j] == tail[j - 1]);
            if i == 0 {
                assert(after[0] == entries[0]);
                inserted_keys(rest, key, value, j - 1);
                if tail[j - 1].0 != key {
                    let k = choose|k: int|
                        0 <= k < rest.len() && (#[trigger] rest[k]).0 == tail[j - 1].0;
                    assert(rest[k] == entries[k + 1]);
                    assert(key_less(entries[0].0, entries[k + 1].0));
                }
            } else {
                assert(after[i] == tail[i - 1]);
            }
        }
    } else {
        bytes_less_total(encode_utf8(entries[0].0), encode_utf8(key));
        if encode_utf8(entries[0].0) == encode_utf8(key) {
            key_bytes_injective(entries[0].0, key);
        }
        assert(key_less(key, entries[0].0));
        assert forall|i: int, j: int| 0 <= i < j < after.len() implies key_less(
            (#[trigger] after[i]).0,
            (#[trigger] after[j]).0,
        ) by {
            assert(after[j] == entries[j - 1]);
            if i == 0 {
                if j > 1 {
                    assert(key_less(entries[0].0, entries[j - 1].0));
                    bytes_less_transitive(
                        encode_utf8(key),
                        encode_utf8(entries[0].0),
                        encode_utf8(entries[j - 1].0),
                    );
                }
            } else {
                assert(after[i] == entries[i - 1]);
            }
        }
    }
}

/// Where one byte string stands relative to another.
#[derive(Clone, Copy, Debug, PartialEq, Eq, Structural)]
pub enum Place {
    Before,
    Same,
    After,
}

/// What `place_of` returns.
pub open spec fn place_spec(a: Seq<u8>, b: Seq<u8>) -> Place {
    if bytes_less(a, b) {
        Place::Before
    } else if a == b {
        Place::Same
    } else {
        Place::After
    }
}

proof fn common_prefix(a: Seq<u8>, b: Seq<u8>, i: int)
    requires
        0 <= i <= a.len(),
        i <= b.len(),
        a.take(i) == b.take(i),
    ensures
        bytes_less(a, b) == bytes_less(a.skip(i), b.skip(i)),
        (a == b) == (a.skip(i) == b.skip(i)),
    decreases i,
{
    if i > 0 {
        assert(a[0] == a.take(i)[0]);
        assert(b[0] == b.take(i)[0]);
        assert(a.skip(1).take(i - 1) =~= a.take(i).skip(1));
        assert(b.skip(1).take(i - 1) =~= b.take(i).skip(1));
        common_prefix(a.skip(1), b.skip(1), i - 1);
        assert(a.skip(1).skip(i - 1) =~= a.skip(i));
        assert(b.skip(1).skip(i - 1) =~= b.skip(i));
    }
    if a.skip(i) == b.skip(i) {
        assert(a =~= a.take(i) + a.skip(i));
        assert(b =~= b.take(i) + b.skip(i));
    }
    assert(a.skip(0) =~= a);
    assert(b.skip(0) =~= b);
}

/// Tells where `a` stands relative to `b` in dictionary order.
pub fn place_of(a: &[u8], b: &[u8]) -> (place: Place)
    ensures
        place == place_spec(a@, b@),
{
    let mut i: usize = 0;
    assert(a@.take(0) =~= b@.take(0));
    while i < a.len() && i < b.len()
        invariant
            i <= a@.len(),
            i <= b@.len(),
            a@.take(i as int) == b@.take(i as int),
        decreases a@.len() - i,
    {
        if a[i] != b[i] {
            proof {
                common_prefix(a@, b@, i as int);
                assert(a@.skip(i as int)[0] == a@[i as int]);
                assert(b@.skip(i as int)[0] == b@[i as int]);
            }
            if a[i] < b[i] {
                return Place::Before;
            } else {
                return Place::After;
            }
        }
        assert(a@.take(i + 1) =~= a@.take(i as int).push(a@[i as int]));
        assert(b@.take(i + 1) =~= b@.take(i as int).push(b@[i as int]));
        i += 1;
    }
    proof {
        common_prefix(a@, b@, i as int);
        if a@.len() == b@.len() {
            assert(a@.skip(i as int) =~= b@.skip(i as int));
            bytes_less_irreflexive(a@);
        }
    }
    if a.len() == b.len() {
        Place::Same
    } else if a.len() < b.len() {
        Place::Before
    } else {
        Place::After
    }
}

/// The record of one row: column names with their values. A record is made
/// empty and filled by `insert`, which keeps the names in order and each name
/// once.
#[derive(Debug)]
pub struct RowRecord {
    entries: Vec<(String, FieldValue)>,
}

impl View for RowRecord {
    type V = Seq<EntryModel>;

    closed spec fn view(&self) -> Seq<EntryModel> {
        Seq::new(self.entries@.len(), |i: int| (self.entries@[i].0@, self.entries@[i].1@))
    }
}

proof fn inserted_behind_prefix(
    entries: Seq<EntryModel>,
    key: Seq<char>,
    value: FieldModel,
    i: int,
)
    requires
        0 <= i <= entries.len(),
        forall|k: int| 0 <= k < i ==> key_less((#[trigger] entries[k]).0, key),
    ensures
        inserted(entries, key, value) == entries.take(i) + inserted(entries.skip(i), key, value),
    decreases i,
{
    if i == 0 {
        assert(entries.skip(0) =~= entries);
        assert(entries.take(0) + inserted(entries, key, value) =~= inserted(entries, key, value));
    } else {
        assert(key_less(entries[0].0, key));
        bytes_less_irreflexive(encode_utf8(key));
        let rest = entries.skip(1);
        assert forall|k: int| 0 <= k < i - 1 implies key_less((#[trigger] rest[k]).0, key) by {
            assert(rest[k] == entries[k + 1]);
        }
        inserted_behind_prefix(rest, key, value, i - 1);
        assert(rest.skip(i - 1) =~= entries.skip(i));
        assert(seq![entries[0]] + rest.take(i - 1) =~= entries.take(i));
        assert(inserted(entries, key, value) =~= entries.take(i) + inserted(
            entries.skip(i),
            key,
            value,
        ));
    }
}

impl RowRecord {
    /// A record without entries.
    pub fn new() -> (record: RowRecord)
        ensures
            record@ == Seq::<EntryModel>::empty(),
    {
        let record = RowRecord { entries: Vec::new() };
        assert(record@ =~= Seq::<EntryModel>::empty());
        record
    }

    /// Number of names in the record.
    pub fn len(&self) -> (n: usize)
        ensures
            n == self@.len(),
    {
        self.entries.len()
    }

    /// The name at the given place in the order of the names.
    pub fn key_at(&self, i: usize) -> (key: &str)
        requires
            i < self@.len(),
        ensures
            key@ == self@[i as int].0,
    {
        self.entries[i].0.as_str()
    }

    /// The value at the given place in the order of the names.
    pub fn value_at(&self, i: usize) -> (value: &FieldValue)
        requires
            i < self@.len(),
        ensures
            value@ == self@[i as int].1,
    {
        &self.entries[i].1
    }

    /// The value that the record holds for a name.
    pub fn get(&self, key: &str) -> (value: Option<&FieldValue>)
        ensures
            value is Some == lookup(self@, key@) is Some,
            value matches Some(v) ==> lookup(self@, key@) == Some(v@),
    {
        let mut i: usize = 0;
        assert(self@.skip(0) =~= self@);
        while i < self.entries.len()
            invariant
                i <= self@.len(),
                self@.len() == self.entries@.len(),
                lookup(self@, key@) == lookup(self@.skip(i as int), key@),
            decreases self@.len() - i,
        {
            let ghost rest = self@.skip(i as int);
            assert(rest[0] == self@[i as int]);
            assert(rest.skip(1) =~= self@.skip(i + 1));
            match place_of(self.entries[i].0.as_str().as_bytes(), key.as_bytes()) {
                Place::Same => {
                    proof {
                        key_bytes_injective(self@[i as int].0, key@);
                    }
                    return Some(&self.entries[i].1);
                },
                _ => {
                    proof {
                        bytes_less_irreflexive(encode_utf8(key@));
                    }
                },
            }
            i += 1;
        }
        None
    }

    /// Gives `key` the value `value`.
    pub fn insert(&mut self, key: String, value: FieldValue)
        ensures
            final(self)@ == inserted(old(self)@, key@, value@),
            sorted(old(self)@) ==> sorted(final(self)@),
    {
        proof {
            if sorted(self@) {
                inserted_sorted(self@, key@, value@);
            }
        }
        let ghost before = self@;
        let mut i: usize = 0;
        let mut same = false;
        while i < self.entries.len()
            invariant_except_break
                !same,
            invariant
                i <= self.entries@.len(),
                self@ == before,
                before.len() == self.entries@.len(),
                forall|k: int| 0 <= k < i ==> key_less((#[trigger] before[k]).0, key@),
            ensures
                i <= self.entries@.len(),
                self@ == before,
                before.len() == self.entries@.len(),
                forall|k: int| 0 <= k < i ==> key_less((#[trigger] before[k]).0, key@),
                same ==> i < before.len() && before[i as int].0 == key@,
                !same && i < before.len() ==> !key_less(before[i as int].0, key@) && before[i as int].0
                    != key@,
            decreases self.entries@.len() - i,
        {
            match place_of(self.entries[i].0.as_str().as_bytes(), key.as_str().as_bytes()) {
                Place::Before => {},
                Place::Same => {
                    proof {
                        key_bytes_injective(before[i as int].0, key@);
                    }
                    same = true;
                    break ;
                },
                Place::After => {
                    break ;
                },
            }
            i += 1;
        }
        proof {
            inserted_behind_prefix(before, key@, value@, i as int);
            let rest = before.skip(i as int);
            if i < before.len() {
                assert(rest[0] == before[i as int]);
            }
        }
        if same {
            self.entries.set(i, (key, value));
            assert(self@ =~= before.take(i as int) + (seq![(key@, value@)] + before.skip(
                i as int,
            ).skip(1)));
        } else {
            self.entries.insert(i, (key, value));
            assert(self@ =~= before.take(i as int) + (seq![(key@, value@)] + before.skip(i as int)));
        }
    }
}

} // verus!
