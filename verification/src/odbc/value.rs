//! The value that a field is coerced to in typed structured mode.

use vstd::prelude::*;
use vstd::utf8::*;

verus! {

/// A field after type inference.
#[derive(Clone, Debug, PartialEq, Eq)]
pub enum FieldValue {
    /// A number without fractional part.
    Integer(i64),
    /// A finite number with a fractional part, as its binary64 bit pattern.
    Float(u64),
    /// A number that is not finite: the structured format has no value for it.
    Null,
    /// Anything that is no number.
    Text(String),
}

/// What a `FieldValue` stands for.
pub enum FieldModel {
    Integer(i64),
    Float(u64),
    Null,
    Text(Seq<char>),
}

impl View for FieldValue {
    type V = FieldModel;

    open spec fn view(&self) -> FieldModel {
        match self {
            FieldValue::Integer(n) => FieldModel::Integer(*n),
            FieldValue::Float(bits) => FieldModel::Float(*bits),
            FieldValue::Null => FieldModel::Null,
            FieldValue::Text(s) => FieldModel::Text(s@),
        }
    }
}

impl FieldValue {
    /// A copy that stands for the same value.
    pub fn duplicate(&self) -> (copy: FieldValue)
        ensures
            copy@ == self@,
    {
        match self {
            FieldValue::Integer(n) => FieldValue::Integer(*n),
            FieldValue::Float(bits) => FieldValue::Float(*bits),
            FieldValue::Null => FieldValue::Null,
            FieldValue::Text(s) => FieldValue::Text(s.clone()),
        }
    }
}

/// The text that a byte string is read as: its UTF-8 decoding, where each
/// invalid sequence is replaced by U+FFFD.
pub uninterp spec fn utf8_lossy(bytes: Seq<u8>) -> Seq<char>;

/// `String::from_utf8_lossy`: the bytes as text, invalid sequences replaced.
/// Valid UTF-8 is decoded as it stands.
#[verifier::external_body]
pub(crate) fn lossy_text(bytes: &[u8]) -> (text: String)
    ensures
        text@ == utf8_lossy(bytes@),
        valid_utf8(bytes@) ==> text@ == decode_utf8(bytes@),
{
    String::from_utf8_lossy(bytes).into_owned()
}

} // verus!
