//! JSON documents as plain values, and the lookups that transcripts need.

use vstd::prelude::*;

verus! {

/// `serde_json::Value`, which parsing yields before it is turned into a [`JsonValue`].
#[verifier::external_type_specification]
#[verifier::external_body]
pub struct ExSerdeJsonValue(serde_json::Value);

/// A JSON document as a tree of plain values.
#[derive(Debug, PartialEq)]
pub enum JsonValue {
    Null,
    Bool(bool),
    /// A number, held as the text `serde_json` prints for it.
    Number(String),
    Str(String),
    Array(Vec<JsonValue>),
    /// An object's members, in the order the parser hands them out.
    Object(Vec<(String, JsonValue)>),
}

/// The document that `serde_json` parses from `text` into a `serde_json::Value`
/// (converted member by member into a [`JsonValue`]), or `None` where it reports an error.
pub uninterp spec fn parsed_json(text: Seq<char>) -> Option<JsonValue>;

/// Parses one JSON document.
///
/// Trusted: calls `serde_json::from_str::<serde_json::Value>` and converts the
/// value it returns with [`from_serde_value`]; an error becomes `None`. The
/// contract names the result and says nothing more of it.
#[verifier::external_body]
pub(crate) fn parse_json(text: &str) -> (r: Option<JsonValue>)
    ensures
        r == parsed_json(text@),
{
    match serde_json::from_str::<serde_json::Value>(text) {
        Ok(v) => Some(from_serde_value(v)),
        Err(_) => None,
    }
}

/// Converts a `serde_json::Value` into a [`JsonValue`], variant by variant:
/// strings, arrays and object members move over as they are, a number becomes
/// the text of its `Display` impl.
///
/// Trusted, with no contract: it is only called by [`parse_json`].
#[verifier::external_body]
fn from_serde_value(v: serde_json::Value) -> JsonValue {
    match v {
        serde_json::Value::Null => JsonValue::Null,
        serde_json::Value::Bool(b) => JsonValue::Bool(b),
        serde_json::Value::Number(n) => JsonValue::Number(n.to_string()),
        serde_json::Value::String(s) => JsonValue::Str(s),
        serde_json::Value::Array(a) => JsonValue::Array(a.into_iter().map(from_serde_value).collect()),
        serde_json::Value::Object(m) => JsonValue::Object(
            m.into_iter().map(|(k, x)| (k, from_serde_value(x))).collect(),
        ),
    }
}

/// The value of the first member named `key`.
pub open spec fn member(entries: Seq<(String, JsonValue)>, key: Seq<char>) -> Option<JsonValue>
    decreases entries.len(),
{
    if entries.len() == 0 {
        None
    } else if entries[0].0@ == key {
        Some(entries[0].1)
    } else {
        member(entries.drop_first(), key)
    }
}

/// The member `key` of an object; `None` for any other value (as `Value::get` answers).
pub open spec fn json_get(v: JsonValue, key: Seq<char>) -> Option<JsonValue> {
    match v {
        JsonValue::Object(entries) => member(entries@, key),
        _ => None,
    }
}

/// The member `key` of an object where it is a string.
pub open spec fn json_str(v: JsonValue, key: Seq<char>) -> Option<Seq<char>> {
    match json_get(v, key) {
        Some(JsonValue::Str(s)) => Some(s@),
        _ => None,
    }
}

/// The member `key` of an object.
pub fn get_member<'a>(v: &'a JsonValue, key: &String) -> (r: Option<&'a JsonValue>)
    ensures
        match r {
            Some(x) => json_get(*v, key@) == Some(*x),
            None => json_get(*v, key@) is None,
        },
{
    match v {
        JsonValue::Object(entries) => {
            let mut i: usize = 0;
            assert(entries@.skip(0) =~= entries@);
            while i < entries.len()
                invariant
                    i <= entries.len(),
                    json_get(*v, key@) == member(entries@, key@),
                    member(entries@, key@) == member(entries@.skip(i as int), key@),
                decreases entries.len() - i,
            {
                let e = &entries[i];
                assert(entries@.skip(i as int)[0] == *e);
                if e.0 == *key {
                    assert(member(entries@.skip(i as int), key@) == Some(e.1));
                    return Some(&e.1);
                }
                assert(entries@.skip(i as int).drop_first() =~= entries@.skip(i + 1));
                i += 1;
            }
            None
        },
        _ => None,
    }
}

/// The member `key` of an object where it is a string.
pub fn get_str<'a>(v: &'a JsonValue, key: &String) -> (r: Option<&'a String>)
    ensures
        match r {
            Some(s) => json_str(*v, key@) == Some(s@),
            None => json_str(*v, key@) is None,
        },
{
    match get_member(v, key) {
        Some(JsonValue::Str(s)) => Some(s),
        _ => None,
    }
}

} // verus!
