//! Laws on JSON documents and lists of texts.

use vstd::prelude::*;

use crate::json;
use crate::json::Json;
use crate::laws::archive;
use crate::output;
use crate::text;

verus! {

/// The document is an object that has the value under the key.
pub open spec fn has(doc: Json, key: Seq<char>, value: Json) -> bool {
    match doc {
        Json::Object(m) => m.contains_key(key) && m[key] == value,
        _ => false,
    }
}

/// The items of an array.
pub open spec fn items_of(doc: Json) -> Seq<Json> {
    match doc {
        Json::Array(items) => items,
        _ => seq![],
    }
}

/// The object has an array under the key.
pub open spec fn has_array(doc: Json, key: Seq<char>) -> bool {
    match doc {
        Json::Object(m) => m.contains_key(key) && m[key] is Array,
        _ => false,
    }
}

/// The items of the array that the object has under the key.
pub open spec fn array_at(doc: Json, key: Seq<char>) -> Seq<Json> {
    match doc {
        Json::Object(m) => items_of(m[key]),
        _ => seq![],
    }
}

/// A member is what the object has under its key, and a text member is one that is a text.
pub proof fn a_member_is_what_the_object_has(doc: Json, key: Seq<char>, value: Json)
    ensures
        doc.member(key) == Some(value) <==> has(doc, key, value),
        doc.member_text(key) == archive::text_at(doc, key),
{
}

/// An array of texts has each text, in its place, and nothing else.
pub proof fn an_array_has_every_text(ts: Seq<Seq<char>>)
    ensures
        json::text_array(ts) is Array,
        items_of(json::text_array(ts)).len() == ts.len(),
        forall|i: int|
            0 <= i < ts.len() ==> #[trigger] items_of(json::text_array(ts))[i] == Json::Text(ts[i]),
{
}

/// The texts of a list of strings are what the strings hold, each in its place.
pub proof fn the_texts_are_those_of_the_strings(v: Seq<String>)
    ensures
        text::texts(v).len() == v.len(),
        forall|i: int| 0 <= i < v.len() ==> #[trigger] text::texts(v)[i] == v[i]@,
{
}

/// The document of a failure says that it failed, and why.
pub proof fn a_failure_has_its_error(error: Seq<char>)
    ensures
        has(output::failure(error), "ok"@, Json::Bool(false)),
        has(output::failure(error), "error"@, Json::Text(error)),
{
    reveal_strlit("ok");
    reveal_strlit("error");
    assert("ok"@.len() != "error"@.len());
}

} // verus!
