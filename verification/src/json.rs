//! JSON documents: what a `serde_json::Value` holds, and the few of its
//! operations that the agent reads and builds documents with.

use serde_json::Value;
use vstd::prelude::*;

use crate::text;

verus! {

#[verifier::external_type_specification]
#[verifier::external_body]
pub struct ExValue(serde_json::Value);

/// What a JSON document holds.
pub enum Json {
    Null,
    Bool(bool),
    /// A number that is an integer.
    Integer(int),
    /// Any other number, as the document has it.
    Float(Value),
    Text(Seq<char>),
    Array(Seq<Json>),
    Object(Map<Seq<char>, Json>),
}

impl Json {
    /// The member of an object under `key`.
    pub open spec fn member(self, key: Seq<char>) -> Option<Json> {
        match self {
            Json::Object(m) => if m.dom().contains(key) {
                Some(m[key])
            } else {
                None
            },
            _ => None,
        }
    }

    /// The characters of a string.
    pub open spec fn text(self) -> Option<Seq<char>> {
        match self {
            Json::Text(s) => Some(s),
            _ => None,
        }
    }

    /// The string under `key` in an object.
    pub open spec fn member_text(self, key: Seq<char>) -> Option<Seq<char>> {
        match self.member(key) {
            Some(v) => v.text(),
            None => None,
        }
    }
}

/// The document that a `Value` stands for.
pub uninterp spec fn json(v: Value) -> Json;

/// The documents of a list of values.
pub open spec fn jsons(vs: Seq<Value>) -> Seq<Json> {
    vs.map_values(|v: Value| json(v))
}

/// The document that `serde_json::from_str` reads from a text, or the text of
/// the error that it gives.
pub uninterp spec fn json_read(text: Seq<char>) -> Result<Json, Seq<char>>;

/// `serde_json::from_str`, reading a whole text as one document.
#[verifier::external_body]
pub(crate) fn read_json(text: &str) -> (r: Result<Value, String>)
    ensures
        match r {
            Ok(v) => json_read(text@) == Ok::<Json, Seq<char>>(json(v)),
            Err(e) => json_read(text@) == Err::<Json, Seq<char>>(e@),
        },
{
    serde_json::from_str(text).map_err(|e: serde_json::Error| e.to_string())
}

/// `Value::get` with a string: the member of an object under that key.
#[verifier::external_body]
pub(crate) fn get_member<'a>(v: &'a Value, key: &str) -> (r: Option<&'a Value>)
    ensures
        match r {
            Some(m) => json(*v).member(key@) == Some(json(*m)),
            None => json(*v).member(key@) is None,
        },
{
    v.get(key)
}

/// `Value::as_str`: the text of a string, `None` for any other value.
#[verifier::external_body]
pub(crate) fn as_text<'a>(v: &'a Value) -> (r: Option<&'a str>)
    ensures
        match r {
            Some(s) => json(*v) == Json::Text(s@),
            None => !(json(*v) is Text),
        },
{
    v.as_str()
}

/// `Value::as_i64`: an integer that fits in 64 bits, `None` for any other value.
#[verifier::external_body]
pub(crate) fn as_integer(v: &Value) -> (r: Option<i64>)
    ensures
        match r {
            Some(n) => json(*v) == Json::Integer(n as int),
            None => json(*v) matches Json::Integer(n) ==> !(i64::MIN <= n <= i64::MAX),
        },
{
    v.as_i64()
}

/// `Value::as_array`: the items of an array, `None` for any other value.
#[verifier::external_body]
pub(crate) fn as_items<'a>(v: &'a Value) -> (r: Option<&'a Vec<Value>>)
    ensures
        match r {
            Some(items) => json(*v) == Json::Array(jsons(items@)),
            None => !(json(*v) is Array),
        },
{
    v.as_array()
}

/// The items of a `Value::Array`, taken out of it; `None` for any other value.
#[verifier::external_body]
pub(crate) fn into_items(v: Value) -> (r: Option<Vec<Value>>)
    ensures
        match r {
            Some(items) => json(v) == Json::Array(jsons(items@)),
            None => !(json(v) is Array),
        },
{
    match v {
        Value::Array(items) => Some(items),
        _ => None,
    }
}

/// `Value::as_object`, with the map's entries in a list: each key of the object
/// once, with its member. The order of the list is left open.
#[verifier::external_body]
pub(crate) fn as_entries<'a>(v: &'a Value) -> (r: Option<Vec<(&'a String, &'a Value)>>)
    ensures
        match r {
            Some(es) => {
                &&& json(*v) is Object
                &&& forall|i: int|
                    0 <= i < es@.len() ==> json(*v).member(#[trigger] es@[i].0@) == Some(
                        json(*es@[i].1),
                    )
                &&& forall|i: int, j: int|
                    0 <= i < j < es@.len() ==> #[trigger] es@[i].0@ != #[trigger] es@[j].0@
                &&& forall|k: Seq<char>| #[trigger]
                    json(*v).member(k) is Some ==> exists|i: int|
                        0 <= i < es@.len() && es@[i].0@ == k
            },
            None => !(json(*v) is Object),
        },
{
    v.as_object().map(|m| m.iter().collect())
}

/// `Value::Null`.
#[verifier::external_body]
pub(crate) fn null_value() -> (r: Value)
    ensures
        json(r) == Json::Null,
{
    Value::Null
}

/// `Value::Bool`.
#[verifier::external_body]
pub(crate) fn bool_value(b: bool) -> (r: Value)
    ensures
        json(r) == Json::Bool(b),
{
    Value::Bool(b)
}

/// `Value::from` on an `i64`.
#[verifier::external_body]
pub(crate) fn integer_value(n: i64) -> (r: Value)
    ensures
        json(r) == Json::Integer(n as int),
{
    Value::from(n)
}

/// `Value::String`.
#[verifier::external_body]
pub(crate) fn string_value(s: String) -> (r: Value)
    ensures
        json(r) == Json::Text(s@),
{
    Value::String(s)
}

/// `Value::Array`.
#[verifier::external_body]
pub(crate) fn array_value(items: Vec<Value>) -> (r: Value)
    ensures
        json(r) == Json::Array(jsons(items@)),
{
    Value::Array(items)
}

/// `Value::Object` on an empty map.
#[verifier::external_body]
pub(crate) fn empty_object() -> (r: Value)
    ensures
        json(r) == Json::Object(Map::<Seq<char>, Json>::empty()),
{
    Value::Object(serde_json::Map::new())
}

/// `Value::clone`: the same document once more.
#[verifier::external_body]
pub(crate) fn copy_value(v: &Value) -> (r: Value)
    ensures
        json(r) == json(*v),
{
    v.clone()
}

/// Indexed assignment to a `Value`: puts a member into an object, in place of the
/// one that was there under that key.
#[verifier::external_body]
pub(crate) fn set_member(v: &mut Value, key: &str, member: Value)
    requires
        json(*old(v)) is Object,
    ensures
        json(*final(v)) == Json::Object(json(*old(v))->Object_0.insert(key@, json(member))),
{
    v[key] = member;
}

/// An object with one more member.
pub(crate) fn with(v: Value, key: &str, member: Value) -> (r: Value)
    requires
        json(v) is Object,
    ensures
        json(r) == Json::Object(json(v)->Object_0.insert(key@, json(member))),
{
    let mut out = v;
    set_member(&mut out, key, member);
    out
}

/// An object with one more member, which is a text.
pub(crate) fn with_text(v: Value, key: &str, text: &str) -> (r: Value)
    requires
        json(v) is Object,
    ensures
        json(r) == Json::Object(json(v)->Object_0.insert(key@, Json::Text(text@))),
{
    with(v, key, string_value(text.to_owned()))
}

/// An object with one more member, which is a truth value.
pub(crate) fn with_bool(v: Value, key: &str, b: bool) -> (r: Value)
    requires
        json(v) is Object,
    ensures
        json(r) == Json::Object(json(v)->Object_0.insert(key@, Json::Bool(b))),
{
    with(v, key, bool_value(b))
}

/// The string under `key` in an object.
pub(crate) fn member_text<'a>(v: &'a Value, key: &str) -> (r: Option<&'a str>)
    ensures
        match r {
            Some(s) => json(*v).member_text(key@) == Some(s@),
            None => json(*v).member_text(key@) is None,
        },
{
    match get_member(v, key) {
        Some(m) => as_text(m),
        None => None,
    }
}

/// A list of texts.
pub open spec fn text_array(ts: Seq<Seq<char>>) -> Json {
    Json::Array(ts.map_values(|t: Seq<char>| Json::Text(t)))
}

/// A list of texts.
pub(crate) fn text_array_value(ts: &Vec<String>) -> (r: Value)
    ensures
        json(r) == text_array(text::texts(ts@)),
{
    let mut items: Vec<Value> = Vec::new();
    let mut i: usize = 0;
    while i < ts.len()
        invariant
            i <= ts@.len(),
            items@.len() == i,
            forall|j: int| 0 <= j < i ==> json(#[trigger] items@[j]) == Json::Text(ts@[j]@),
        decreases ts@.len() - i,
    {
        items.push(string_value(ts[i].clone()));
        i += 1;
    }
    proof {
        assert(jsons(items@) =~= text::texts(ts@).map_values(|t: Seq<char>| Json::Text(t)));
    }
    array_value(items)
}

} // verus!
