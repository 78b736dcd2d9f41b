//! Records read out of JSON values: what each field holds, or why it cannot be read.

use crate::json::Json;
use crate::text::{decimal, decimal_of, is_digit, joined, joined3};
use vstd::prelude::*;

verus! {

/// How `Debug` of std writes a text.
pub uninterp spec fn debugged(s: Seq<char>) -> Seq<char>;

/// `Debug` of `str`: the text in quotes, with escapes where they are needed. The
/// result depends on the text alone.
#[verifier::external_body]
pub(crate) fn debug_text(s: &str) -> (r: String)
    ensures
        r@ == debugged(s@),
{
    format!("{:?}", s)
}

/// How an integer is written.
pub open spec fn is_integer_text(t: Seq<char>) -> bool {
    forall|i: int| 0 <= i < t.len() ==> is_digit(#[trigger] t[i]) || t[i] == '-'
}

fn integer_text(t: &str) -> (r: bool)
    ensures
        r == is_integer_text(t@),
{
    let v = crate::text::chars_of(t);
    let mut i: usize = 0;
    while i < v.len()
        invariant
            i <= v@.len(),
            v@ == t@,
            forall|k: int| 0 <= k < i ==> is_digit(#[trigger] v@[k]) || v@[k] == '-',
        decreases v@.len() - i,
    {
        let c = v[i];
        if !('0' <= c && c <= '9') && c != '-' {
            assert(!is_digit(t@[i as int]));
            return false;
        }
        i += 1;
    }
    true
}

/// What a value is called where another one was expected.
pub open spec fn unexpected(v: Json) -> Seq<char> {
    match v {
        Json::Null => "null"@,
        Json::Bool(b) => if b {
            "boolean `true`"@
        } else {
            "boolean `false`"@
        },
        Json::Number(n) => if is_integer_text(n.text@) {
            "integer `"@ + n.text@ + "`"@
        } else {
            "floating point `"@ + n.text@ + "`"@
        },
        Json::Text(s) => "string "@ + debugged(s@),
        Json::List(_) => "sequence"@,
        Json::Object(_) => "map"@,
    }
}

fn name_of(v: &Json) -> (r: String)
    ensures
        r@ == unexpected(*v),
{
    match v {
        Json::Null => "null".to_owned(),
        Json::Bool(b) => if *b {
            "boolean `true`".to_owned()
        } else {
            "boolean `false`".to_owned()
        },
        Json::Number(n) => if integer_text(n.text.as_str()) {
            joined3("integer `", n.text.as_str(), "`")
        } else {
            joined3("floating point `", n.text.as_str(), "`")
        },
        Json::Text(s) => joined("string ", debug_text(s.as_str()).as_str()),
        Json::List(_) => "sequence".to_owned(),
        Json::Object(_) => "map".to_owned(),
    }
}

/// What is said of a value of another type than expected.
pub open spec fn invalid_type(v: Json, expected: Seq<char>) -> Seq<char> {
    "invalid type: "@ + unexpected(v) + ", expected "@ + expected
}

/// What is said of a value of another type than expected.
pub fn wrong_type(v: &Json, expected: &str) -> (r: String)
    ensures
        r@ == invalid_type(*v, expected@),
{
    let mut m = joined3("invalid type: ", name_of(v).as_str(), ", expected ");
    m.append(expected);
    m
}

/// What is said of an array with another number of elements than expected.
pub open spec fn invalid_length(n: nat, expected: Seq<char>) -> Seq<char> {
    "invalid length "@ + decimal_of(n) + ", expected "@ + expected
}

/// What is said of an array with another number of elements than expected.
pub fn wrong_length(n: usize, expected: &str) -> (r: String)
    ensures
        r@ == invalid_length(n as nat, expected@),
{
    let mut m = joined3("invalid length ", decimal(n as u64).as_str(), ", expected ");
    m.append(expected);
    m
}

/// What is said of a value that cannot be the record `expected`: an array with
/// another number of elements, or no record at all.
pub open spec fn no_record(v: Json, expected: Seq<char>) -> Seq<char> {
    match v {
        Json::List(items) => invalid_length(items@.len(), expected),
        _ => invalid_type(v, expected),
    }
}

/// What is said of a value that cannot be the record `expected`.
pub fn not_a_record(v: &Json, expected: &str) -> (r: String)
    ensures
        r@ == no_record(*v, expected@),
{
    match v {
        Json::List(items) => wrong_length(items.len(), expected),
        other => wrong_type(other, expected),
    }
}

/// What is said of a field that is not there.
pub open spec fn missing(field: Seq<char>) -> Seq<char> {
    "missing field `"@ + field + "`"@
}

/// What is said of a field that is not there.
pub fn not_there(field: &str) -> (r: String)
    ensures
        r@ == missing(field@),
{
    joined3("missing field `", field, "`")
}

/// A text.
pub open spec fn text_from(v: Json) -> Result<Seq<char>, Seq<char>> {
    match v {
        Json::Text(s) => Ok(s@),
        _ => Err(invalid_type(v, "a string"@)),
    }
}

/// Reads a text.
pub fn take_text(v: Json) -> (r: Result<String, String>)
    ensures
        match r {
            Ok(s) => text_from(v) == Ok::<Seq<char>, Seq<char>>(s@),
            Err(m) => text_from(v) == Err::<Seq<char>, Seq<char>>(m@),
        },
{
    match v {
        Json::Text(s) => Ok(s),
        other => Err(wrong_type(&other, "a string")),
    }
}

/// A text, or null.
pub open spec fn optional_from(v: Json) -> Result<Option<Seq<char>>, Seq<char>> {
    match v {
        Json::Null => Ok(None),
        Json::Text(s) => Ok(Some(s@)),
        _ => Err(invalid_type(v, "a string"@)),
    }
}

/// Reads a text, or null.
pub fn take_optional(v: Json) -> (r: Result<Option<String>, String>)
    ensures
        match r {
            Ok(s) => optional_from(v) == Ok::<Option<Seq<char>>, Seq<char>>(
                crate::pipelines::name_view(s),
            ),
            Err(m) => optional_from(v) == Err::<Option<Seq<char>>, Seq<char>>(m@),
        },
{
    match v {
        Json::Null => Ok(None),
        Json::Text(s) => Ok(Some(s)),
        other => Err(wrong_type(&other, "a string")),
    }
}

/// A truth value.
pub open spec fn bool_from(v: Json) -> Result<bool, Seq<char>> {
    match v {
        Json::Bool(b) => Ok(b),
        _ => Err(invalid_type(v, "a boolean"@)),
    }
}

/// Reads a truth value.
pub fn take_bool(v: &Json) -> (r: Result<bool, String>)
    ensures
        match r {
            Ok(b) => bool_from(*v) == Ok::<bool, Seq<char>>(b),
            Err(m) => bool_from(*v) == Err::<bool, Seq<char>>(m@),
        },
{
    match v {
        Json::Bool(b) => Ok(*b),
        other => Err(wrong_type(other, "a boolean")),
    }
}

/// Why a value is no text, if it is none.
pub fn text_fault(v: &Json) -> (r: Option<String>)
    ensures
        match r {
            Some(m) => text_from(*v) == Err::<Seq<char>, Seq<char>>(m@),
            None => text_from(*v) is Ok,
        },
{
    match v {
        Json::Text(_) => None,
        other => Some(wrong_type(other, "a string")),
    }
}

/// Why a value is neither a text nor null, if it is neither.
pub fn optional_fault(v: &Json) -> (r: Option<String>)
    ensures
        match r {
            Some(m) => optional_from(*v) == Err::<Option<Seq<char>>, Seq<char>>(m@),
            None => optional_from(*v) is Ok,
        },
{
    match v {
        Json::Null => None,
        Json::Text(_) => None,
        other => Some(wrong_type(other, "a string")),
    }
}

/// A text that must be there.
pub open spec fn required_text(value: Option<Json>, field: Seq<char>) -> Result<
    Seq<char>,
    Seq<char>,
> {
    match value {
        None => Err(missing(field)),
        Some(v) => text_from(v),
    }
}

/// Reads a text that must be there.
pub fn read_text(value: Option<Json>, field: &str) -> (r: Result<String, String>)
    ensures
        match r {
            Ok(s) => required_text(value, field@) == Ok::<Seq<char>, Seq<char>>(s@),
            Err(m) => required_text(value, field@) == Err::<Seq<char>, Seq<char>>(m@),
        },
{
    match value {
        None => Err(not_there(field)),
        Some(v) => take_text(v),
    }
}

} // verus!
