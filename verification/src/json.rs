//! JSON values as the library reads them.

use crate::text::same;
use vstd::prelude::*;

verus! {

/// A JSON number: how it is written and, for an integer that fits, its value.
#[derive(Debug)]
pub struct JsonNumber {
    pub text: String,
    pub unsigned: Option<u64>,
}

/// A JSON value. The entries of an object have distinct keys.
#[derive(Debug)]
pub enum Json {
    Null,
    Bool(bool),
    Number(JsonNumber),
    Text(String),
    List(Vec<Json>),
    Object(Vec<(String, Json)>),
}

/// The value of the first entry under `key`.
pub open spec fn entry_of(entries: Seq<(String, Json)>, key: Seq<char>) -> Option<Json>
    decreases entries.len(),
{
    if entries.len() == 0 {
        None
    } else if entries[0].0@ == key {
        Some(entries[0].1)
    } else {
        entry_of(entries.skip(1), key)
    }
}

/// The value of the first entry under `key`.
pub fn lookup<'a>(entries: &'a Vec<(String, Json)>, key: &str) -> (r: Option<&'a Json>)
    ensures
        match r {
            Some(v) => entry_of(entries@, key@) == Some(*v),
            None => entry_of(entries@, key@) is None,
        },
{
    let mut i: usize = 0;
    assert(entries@.skip(0) =~= entries@);
    while i < entries.len()
        invariant
            i <= entries@.len(),
            entry_of(entries@, key@) == entry_of(entries@.skip(i as int), key@),
        decreases entries@.len() - i,
    {
        assert(entries@.skip(i as int)[0] == entries@[i as int]);
        assert(entries@.skip(i as int).skip(1) =~= entries@.skip(i as int + 1));
        if same(entries[i].0.as_str(), key) {
            return Some(&entries[i].1);
        }
        i += 1;
    }
    None
}

impl Json {
    /// The value under `key`, where this is an object that has it.
    pub open spec fn member(self, key: Seq<char>) -> Option<Json> {
        match self {
            Json::Object(entries) => entry_of(entries@, key),
            _ => None,
        }
    }

    /// The text that this value is, if it is one.
    pub open spec fn text(self) -> Option<Seq<char>> {
        match self {
            Json::Text(s) => Some(s@),
            _ => None,
        }
    }

    /// The text under `key`, where there is one.
    pub open spec fn member_text(self, key: Seq<char>) -> Option<Seq<char>> {
        match self.member(key) {
            Some(v) => v.text(),
            None => None,
        }
    }

    /// The value under `key`, where this is an object that has it.
    pub fn get(&self, key: &str) -> (r: Option<&Json>)
        ensures
            match r {
                Some(v) => self.member(key@) == Some(*v),
                None => self.member(key@) is None,
            },
    {
        match self {
            Json::Object(entries) => lookup(entries, key),
            _ => None,
        }
    }

    /// The text that this value is, if it is one.
    pub fn as_text(&self) -> (r: Option<&String>)
        ensures
            match r {
                Some(s) => self.text() == Some(s@),
                None => self.text() is None,
            },
    {
        match self {
            Json::Text(s) => Some(s),
            _ => None,
        }
    }

    /// The text under `key`, where there is one.
    pub fn get_text(&self, key: &str) -> (r: Option<&String>)
        ensures
            match r {
                Some(s) => self.member_text(key@) == Some(s@),
                None => self.member_text(key@) is None,
            },
    {
        match self.get(key) {
            Some(v) => v.as_text(),
            None => None,
        }
    }

    /// The unsigned integer under `key`, where there is one.
    pub open spec fn member_u64(self, key: Seq<char>) -> Option<u64> {
        match self.member(key) {
            Some(Json::Number(n)) => n.unsigned,
            _ => None,
        }
    }

    /// The unsigned integer under `key`, where there is one.
    pub fn get_u64(&self, key: &str) -> (r: Option<u64>)
        ensures
            r == self.member_u64(key@),
    {
        match self.get(key) {
            Some(Json::Number(n)) => n.unsigned,
            _ => None,
        }
    }
}

/// Takes the first entry under `key` out of the object.
pub fn take_entry(entries: &mut Vec<(String, Json)>, key: &str) -> (r: Option<Json>)
    ensures
        r == entry_of(old(entries)@, key@),
        forall|other: Seq<char>|
            other != key@ ==> #[trigger] entry_of(final(entries)@, other) == entry_of(
                old(entries)@,
                other,
            ),
{
    let mut i: usize = 0;
    assert(entries@.skip(0) =~= entries@);
    while i < entries.len()
        invariant
            i <= entries@.len(),
            entries@ == old(entries)@,
            entry_of(entries@, key@) == entry_of(entries@.skip(i as int), key@),
        decreases entries@.len() - i,
    {
        assert(entries@.skip(i as int)[0] == entries@[i as int]);
        assert(entries@.skip(i as int).skip(1) =~= entries@.skip(i as int + 1));
        if same(entries[i].0.as_str(), key) {
            let ghost before = entries@;
            let e = entries.remove(i);
            proof {
                assert forall|other: Seq<char>| other != key@ implies #[trigger] entry_of(
                    entries@,
                    other,
                ) == entry_of(before, other) by {
                    lemma_entry_removed(before, i as int, other);
                }
            }
            return Some(e.1);
        }
        i += 1;
    }
    None
}

/// A field of a record: by its name in an object, by its place in an array.
pub open spec fn field_of(value: Json, place: int, name: Seq<char>) -> Option<Json> {
    match value {
        Json::Object(entries) => entry_of(entries@, name),
        Json::List(items) => if 0 <= place < items@.len() {
            Some(items@[place])
        } else {
            None
        },
        _ => None,
    }
}

/// A value that can be a record: an object, or an array with as many elements as
/// the record has fields, at least `least` of them.
pub open spec fn is_record(value: Json, least: int, most: int) -> bool {
    match value {
        Json::Object(_) => true,
        Json::List(items) => least <= items@.len() <= most,
        _ => false,
    }
}

/// Whether a value can be a record.
pub fn record(value: &Json, least: usize, most: usize) -> (r: bool)
    ensures
        r == is_record(*value, least as int, most as int),
{
    match value {
        Json::Object(_) => true,
        Json::List(items) => least <= items.len() && items.len() <= most,
        _ => false,
    }
}

/// The fields of a record that have not been taken yet.
pub(crate) struct Fields {
    pub(crate) entries: Vec<(String, Json)>,
    pub(crate) items: Vec<Json>,
    pub(crate) listed: bool,
}

impl Fields {
    /// The field that is taken next, or under its name.
    pub(crate) open spec fn next(self, name: Seq<char>) -> Option<Json> {
        if !self.listed {
            entry_of(self.entries@, name)
        } else if self.items@.len() > 0 {
            Some(self.items@[0])
        } else {
            None
        }
    }

    /// The fields of an object or an array.
    pub(crate) fn of(value: Json) -> (r: Self)
        ensures
            match value {
                Json::Object(entries) => !r.listed && r.entries == entries,
                Json::List(items) => r.listed && r.items == items,
                _ => r.listed && r.items@.len() == 0,
            },
    {
        match value {
            Json::Object(entries) => Fields { entries, items: Vec::new(), listed: false },
            Json::List(items) => Fields { entries: Vec::new(), items, listed: true },
            _ => Fields { entries: Vec::new(), items: Vec::new(), listed: true },
        }
    }

    /// Whether an array has at least `least` and at most `most` elements left.
    pub(crate) fn fits(&self, least: usize, most: usize) -> (r: bool)
        ensures
            r == (!self.listed || least <= self.items@.len() <= most),
    {
        !self.listed || (least <= self.items.len() && self.items.len() <= most)
    }

    /// Takes a field; of an array the next one.
    pub(crate) fn take(&mut self, name: &str) -> (r: Option<Json>)
        ensures
            r == old(self).next(name@),
            final(self).listed == old(self).listed,
            old(self).listed && old(self).items@.len() > 0 ==> final(self).items@
                == old(self).items@.skip(1),
            old(self).items@.len() == 0 ==> final(self).items@.len() == 0,
            !old(self).listed ==> forall|other: Seq<char>|
                other != name@ ==> #[trigger] entry_of(final(self).entries@, other) == entry_of(
                    old(self).entries@,
                    other,
                ),
    {
        if !self.listed {
            take_entry(&mut self.entries, name)
        } else if self.items.len() > 0 {
            let first = self.items.remove(0);
            assert(self.items@ =~= old(self).items@.skip(1));
            Some(first)
        } else {
            None
        }
    }
}

/// Puts `value` under `key`, in place of what is there.
pub fn set_entry(entries: &mut Vec<(String, Json)>, key: &str, value: Json)
    ensures
        entry_of(final(entries)@, key@) == Some(value),
        forall|other: Seq<char>|
            other != key@ ==> #[trigger] entry_of(final(entries)@, other) == entry_of(
                old(entries)@,
                other,
            ),
{
    take_entry(entries, key);
    let ghost rest = entries@;
    entries.insert(0, (key.to_owned(), value));
    assert(entries@.skip(1) =~= rest);
    proof {
        assert forall|other: Seq<char>| other != key@ implies #[trigger] entry_of(
            entries@,
            other,
        ) == entry_of(old(entries)@, other) by {
            assert(entry_of(entries@, other) == entry_of(rest, other));
        }
    }
}

proof fn lemma_entry_removed(entries: Seq<(String, Json)>, i: int, key: Seq<char>)
    requires
        0 <= i < entries.len(),
        entries[i].0@ != key,
    ensures
        entry_of(entries.remove(i), key) == entry_of(entries, key),
    decreases entries.len(),
{
    if i == 0 {
        assert(entries.remove(0) =~= entries.skip(1));
    } else {
        assert(entries.remove(i)[0] == entries[0]);
        assert(entries.remove(i).skip(1) =~= entries.skip(1).remove(i - 1));
        lemma_entry_removed(entries.skip(1), i - 1, key);
    }
}

/// `serde_json::Value`, carried from the parser to its conversion.
#[verifier::external_type_specification]
#[verifier::external_body]
pub struct ExValue(serde_json::Value);

/// The fields of a `serde_json::Value`, moved into a `Json` of the same shape.
/// `Number::to_string` writes a number, `Number::as_u64` gives its value where
/// it is an unsigned integer. Nothing is claimed of the result here:
/// `parse` names what the parser and this conversion give together.
#[verifier::external_body]
fn tree(value: serde_json::Value) -> Json {
    match value {
        serde_json::Value::Null => Json::Null,
        serde_json::Value::Bool(b) => Json::Bool(b),
        serde_json::Value::Number(n) => Json::Number(JsonNumber { unsigned: n.as_u64(), text: n.to_string() }),
        serde_json::Value::String(s) => Json::Text(s),
        serde_json::Value::Array(a) => Json::List(a.into_iter().map(tree).collect()),
        serde_json::Value::Object(m) => Json::Object(m.into_iter().map(|(k, v)| (k, tree(v))).collect()),
    }
}

/// No key stands twice among the entries of an object.
pub open spec fn keys_differ(entries: Seq<(String, Json)>) -> bool {
    forall|i: int, j: int|
        0 <= i < j < entries.len() ==> (#[trigger] entries[i]).0@ != (#[trigger] entries[j]).0@
}

/// What `serde_json::from_str` makes of a text: the value, or what the error says.
pub uninterp spec fn json_result(text: Seq<char>) -> Result<Json, Seq<char>>;

/// `serde_json::from_str` into a `Value`: the JSON value written in `text`, or
/// the message of the error that says why it is none. Both depend on the text
/// alone. No JSON value begins with a backtick.
#[verifier::external_body]
pub(crate) fn parse(text: &str) -> (r: Result<Json, String>)
    ensures
        match r {
            Ok(v) => json_result(text@) == Ok::<Json, Seq<char>>(v),
            Err(e) => json_result(text@) == Err::<Json, Seq<char>>(e@),
        },
        text@.len() > 0 && text@[0] == '`' ==> r is Err,
{
    serde_json::from_str::<serde_json::Value>(text).map(tree).map_err(|e| e.to_string())
}

/// What `serde_json::from_str` makes of the text of an object: its entries, or what
/// the error says.
pub uninterp spec fn entries_result(text: Seq<char>) -> Result<Seq<(String, Json)>, Seq<char>>;

/// `serde_json::from_str` into a `BTreeMap` of values: the entries of the object
/// written in `text`, or the message of the error that says why there is none. Both
/// depend on the text alone. No key stands twice in a map.
#[verifier::external_body]
pub(crate) fn parse_entries(text: &str) -> (r: Result<Vec<(String, Json)>, String>)
    ensures
        match r {
            Ok(v) => entries_result(text@) == Ok::<Seq<(String, Json)>, Seq<char>>(v@)
                && keys_differ(v@),
            Err(e) => entries_result(text@) == Err::<Seq<(String, Json)>, Seq<char>>(e@),
        },
{
    serde_json::from_str::<std::collections::BTreeMap<String, serde_json::Value>>(text)
        .map(|m| m.into_iter().map(|(k, v)| (k, tree(v))).collect())
        .map_err(|e| e.to_string())
}

/// What `serde_json::from_slice` makes of bytes: the value, or what the error says.
pub uninterp spec fn json_bytes_result(bytes: Seq<u8>) -> Result<Json, Seq<char>>;

/// `serde_json::from_slice` into a `Value`: the JSON value written in `bytes`,
/// or the message of the error that says why it is none. Both depend on the
/// bytes alone.
#[verifier::external_body]
pub(crate) fn parse_bytes(bytes: &Vec<u8>) -> (r: Result<Json, String>)
    ensures
        match r {
            Ok(v) => json_bytes_result(bytes@) == Ok::<Json, Seq<char>>(v),
            Err(e) => json_bytes_result(bytes@) == Err::<Json, Seq<char>>(e@),
        },
{
    serde_json::from_slice::<serde_json::Value>(bytes).map(tree).map_err(|e| e.to_string())
}

/// The JSON value written in a text, where there is a text and it holds one.
pub open spec fn json_in(text: Option<&str>) -> Option<Json> {
    match text {
        Some(t) => match json_result(t@) {
            Ok(v) => Some(v),
            Err(_) => None,
        },
        None => None,
    }
}

/// The JSON value written in a text, where there is a text and it holds one.
pub(crate) fn parse_known(text: Option<&str>) -> (r: Option<Json>)
    ensures
        r == json_in(text),
{
    match text {
        Some(t) => match parse(t) {
            Ok(v) => Some(v),
            Err(_) => None,
        },
        None => None,
    }
}

/// `after` is the object `before` with `value` under `key`, and every other member as
/// it was. Nothing at all counts as an object without members.
pub open spec fn with_member(before: Json, after: Json, key: Seq<char>, value: Json) -> bool {
    &&& after is Object
    &&& after.member(key) == Some(value)
    &&& forall|other: Seq<char>|
        other != key ==> #[trigger] after.member(other) == before.member(other)
}

/// Puts `value` under `key` of an object.
pub fn set_member(object: Json, key: &str, value: Json) -> (r: Json)
    requires
        object is Object || object is Null,
    ensures
        with_member(object, r, key@, value),
{
    let mut entries: Vec<(String, Json)> = match object {
        Json::Object(entries) => entries,
        _ => Vec::new(),
    };
    let ghost before = entries@;
    set_entry(&mut entries, key, value);
    let r = Json::Object(entries);
    assert forall|other: Seq<char>| other != key@ implies #[trigger] r.member(other)
        == object.member(other) by {
        assert(entry_of(entries@, other) == entry_of(before, other));
    }
    r
}

/// The elements of the JSON array written in `text`, if it is one.
pub open spec fn array_in(text: Seq<char>) -> Option<Seq<Json>> {
    match json_result(text) {
        Ok(Json::List(items)) => Some(items@),
        _ => None,
    }
}

/// The elements of the JSON array written in `text`, if it is one.
pub fn parse_array(text: &str) -> (r: Option<Vec<Json>>)
    ensures
        match r {
            Some(items) => array_in(text@) == Some(items@),
            None => array_in(text@) is None,
        },
        text@.len() > 0 && text@[0] == '`' ==> r is None,
{
    match parse(text) {
        Ok(Json::List(items)) => Some(items),
        _ => None,
    }
}

/// The value under a key is that of the first entry with the key; there is none where no
/// entry has it.
pub proof fn law_entry(entries: Seq<(String, Json)>, key: Seq<char>)
    ensures
        forall|i: int|
            0 <= i < entries.len() && (#[trigger] entries[i]).0@ == key && (forall|j: int|
                0 <= j < i ==> (#[trigger] entries[j]).0@ != key) ==> entry_of(entries, key)
                == Some(entries[i].1),
        entry_of(entries, key) is None <==> forall|j: int|
            0 <= j < entries.len() ==> (#[trigger] entries[j]).0@ != key,
    decreases entries.len(),
{
    if entries.len() > 0 && entries[0].0@ != key {
        let rest = entries.skip(1);
        law_entry(rest, key);
        assert forall|i: int|
            0 <= i < entries.len() && (#[trigger] entries[i]).0@ == key && (forall|j: int|
                0 <= j < i ==> (#[trigger] entries[j]).0@ != key) implies entry_of(entries, key)
            == Some(entries[i].1) by {
            assert(rest[i - 1] == entries[i]);
            assert forall|j: int| 0 <= j < i - 1 implies (#[trigger] rest[j]).0@ != key by {
                assert(rest[j] == entries[j + 1]);
            }
        }
        if entry_of(entries, key) is None {
            assert forall|j: int| 0 <= j < entries.len() implies (
            #[trigger] entries[j]).0@ != key by {
                if j > 0 {
                    assert(rest[j - 1] == entries[j]);
                }
            }
        } else if forall|j: int| 0 <= j < entries.len() ==> (#[trigger] entries[j]).0@ != key {
            assert forall|j: int| 0 <= j < rest.len() implies (#[trigger] rest[j]).0@ != key by {
                assert(rest[j] == entries[j + 1]);
            }
        }
    }
}

} // verus!
