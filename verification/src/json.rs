//! JSON documents built by the library, and their pretty-printed text.
use vstd::prelude::*;

verus! {

/// A JSON value made of strings, arrays and objects.
#[derive(Debug)]
pub enum JsonValue {
    /// A string.
    Str(String),
    /// An array.
    Array(Vec<JsonValue>),
    /// An object: its members in order.
    Object(Vec<(String, JsonValue)>),
}

/// The mathematical form of a [`JsonValue`].
pub enum JsonModel {
    /// A string.
    Str(Seq<char>),
    /// An array.
    Array(Seq<JsonModel>),
    /// An object's members in order.
    Object(Seq<(Seq<char>, JsonModel)>),
}

/// The mathematical form of a value.
pub open spec fn json_view(v: JsonValue) -> JsonModel
    decreases v,
{
    match v {
        JsonValue::Str(s) => JsonModel::Str(s@),
        JsonValue::Array(a) => JsonModel::Array(
            Seq::new(a@.len(), |i: int| if 0 <= i < a@.len() { json_view(a@[i]) } else { JsonModel::Str(Seq::empty()) }),
        ),
        JsonValue::Object(o) => JsonModel::Object(
            Seq::new(o@.len(), |i: int| if 0 <= i < o@.len() { (o@[i].0@, json_view(o@[i].1)) } else { (Seq::empty(), JsonModel::Str(Seq::empty())) }),
        ),
    }
}

/// The value that a reader of an object finds under `key`: that of the last
/// member with this key (a later member replaces an earlier one).
pub open spec fn member(m: Seq<(Seq<char>, JsonModel)>, key: Seq<char>) -> Option<JsonModel>
    decreases m.len(),
{
    if m.len() == 0 {
        None
    } else if m.last().0 == key {
        Some(m.last().1)
    } else {
        member(m.drop_last(), key)
    }
}

/// A member found by [`member`] is the one at the last index that holds its key.
pub proof fn lemma_member_last(m: Seq<(Seq<char>, JsonModel)>, i: int)
    requires
        0 <= i < m.len(),
        forall|j: int| i < j < m.len() ==> m[j].0 != m[i].0,
    ensures
        member(m, m[i].0) == Some(m[i].1),
    decreases m.len(),
{
    if i < m.len() - 1 {
        assert(m.drop_last()[i] == m[i]);
        lemma_member_last(m.drop_last(), i);
    }
}

/// The text that `serde_json::to_string_pretty` writes for a document.
pub uninterp spec fn pretty_json_text(doc: JsonModel) -> Seq<char>;

/// The JSON value type of `serde_json`, carried through opaquely.
#[verifier::external_type_specification]
#[verifier::external_body]
pub struct ExSerdeValue(serde_json::Value);

/// Converts a value one for one into a `serde_json::Value`: a string into a
/// string, an array into an array, an object's members, in order, into a
/// `serde_json::Map` (which keeps the last of two members with one key).
/// Nothing is stated of the result.
#[verifier::external_body]
fn serde_value(v: &JsonValue) -> serde_json::Value {
    match v {
        JsonValue::Str(s) => serde_json::Value::String(s.clone()),
        JsonValue::Array(items) => serde_json::Value::Array(items.iter().map(serde_value).collect()),
        JsonValue::Object(members) => serde_json::Value::Object(
            members.iter().map(|(k, x)| (k.clone(), serde_value(x))).collect(),
        ),
    }
}

/// Pretty-prints a document with `serde_json::to_string_pretty` (which does not
/// fail on a `serde_json::Value`). Claimed: the text is the named rendering of
/// this document.
#[verifier::external_body]
pub(crate) fn pretty_json(doc: &JsonValue) -> (s: String)
    ensures
        s@ == pretty_json_text(json_view(*doc)),
{
    serde_json::to_string_pretty(&serde_value(doc)).unwrap_or_default()
}

} // verus!
