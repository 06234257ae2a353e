//! JSON documents as trees. The crate serde_json reads and writes the text;
//! this module holds the tree and the search for a member of an object.

use vstd::prelude::*;
use crate::text::str_eq;

verus! {

/// A JSON document.
#[derive(Debug)]
pub enum Json {
    Null,
    Bool(bool),
    /// A number that is a 64-bit signed integer.
    Int(i64),
    /// Any other number: one with a fraction or an exponent, or an integer
    /// outside the 64-bit signed range. Its value is not kept.
    Real,
    Str(String),
    Array(Vec<Json>),
    /// The members of an object, each a name and a document.
    Object(Vec<(String, Json)>),
}

#[verifier::external_type_specification]
#[verifier::external_body]
pub struct ExValue(serde_json::Value);

/// The `serde_json::Value` that `serde_json::from_str` makes of `text`, or
/// `None` where it answers with an error: where `text` is no JSON document.
pub uninterp spec fn value_of_text(text: Seq<char>) -> Option<serde_json::Value>;

/// The tree that stands for a `serde_json::Value`: variant for variant, the
/// members of an object in the order in which its map hands them out.
pub uninterp spec fn json_of_value(value: serde_json::Value) -> Json;

/// The `serde_json::Value` that stands for a tree: variant for variant, the
/// members of an object collected into its map.
pub uninterp spec fn value_of_json(json: Json) -> serde_json::Value;

/// The text that `serde_json::Value` prints itself as (`Display`, compact).
pub uninterp spec fn text_of_value(value: serde_json::Value) -> Seq<char>;

/// Calls `serde_json::from_str` for a `serde_json::Value`; an error becomes
/// `None`. The result depends on `text` alone.
#[verifier::external_body]
fn read_value(text: &str) -> (r: Option<serde_json::Value>)
    ensures
        r == value_of_text(text@),
{
    match serde_json::from_str::<serde_json::Value>(text) {
        Ok(value) => Some(value),
        Err(_) => None,
    }
}

/// Takes a `serde_json::Value` apart, variant by variant. A number becomes
/// `Int` where `Number::as_i64` gives one, else `Real`.
#[verifier::external_body]
fn json_from_value(value: serde_json::Value) -> (r: Json)
    ensures
        r == json_of_value(value),
{
    match value {
        serde_json::Value::Null => Json::Null,
        serde_json::Value::Bool(b) => Json::Bool(b),
        serde_json::Value::Number(n) => n.as_i64().map_or(Json::Real, Json::Int),
        serde_json::Value::String(s) => Json::Str(s),
        serde_json::Value::Array(a) => Json::Array(a.into_iter().map(json_from_value).collect()),
        serde_json::Value::Object(m) => Json::Object(
            m.into_iter().map(|(k, v)| (k, json_from_value(v))).collect(),
        ),
    }
}

/// Builds a `serde_json::Value` from a tree, variant by variant. `Real`, which
/// holds no value, becomes `Value::Null`.
#[verifier::external_body]
fn json_to_value(json: &Json) -> (r: serde_json::Value)
    ensures
        r == value_of_json(*json),
{
    match json {
        Json::Null => serde_json::Value::Null,
        Json::Bool(b) => serde_json::Value::Bool(*b),
        Json::Int(i) => serde_json::Value::from(*i),
        Json::Real => serde_json::Value::Null,
        Json::Str(s) => serde_json::Value::String(s.clone()),
        Json::Array(a) => serde_json::Value::Array(a.iter().map(json_to_value).collect()),
        Json::Object(m) => serde_json::Value::Object(
            m.iter().map(|(k, v)| (k.clone(), json_to_value(v))).collect(),
        ),
    }
}

/// Prints a `serde_json::Value` through its `Display`.
#[verifier::external_body]
fn write_value(value: &serde_json::Value) -> (r: String)
    ensures
        r@ == text_of_value(*value),
{
    value.to_string()
}

/// The tree of the JSON document `text`, or `None` where `text` is none.
pub open spec fn json_document(text: Seq<char>) -> Option<Json> {
    match value_of_text(text) {
        Some(value) => Some(json_of_value(value)),
        None => None,
    }
}

/// The JSON text of a tree.
pub open spec fn json_text(json: Json) -> Seq<char> {
    text_of_value(value_of_json(json))
}

/// Reads a JSON document.
pub fn parse_json(text: &str) -> (r: Option<Json>)
    ensures
        r == json_document(text@),
{
    match read_value(text) {
        Some(value) => Some(json_from_value(value)),
        None => None,
    }
}

/// Writes a tree as JSON text.
pub fn render_json(json: &Json) -> (r: String)
    ensures
        r@ == json_text(*json),
{
    let value = json_to_value(json);
    write_value(&value)
}

/// Whether member `i` is the first member with the name `name`.
pub open spec fn is_first_member(members: Seq<(String, Json)>, i: int, name: Seq<char>) -> bool {
    &&& 0 <= i < members.len()
    &&& members[i].0@ == name
    &&& forall|j: int| 0 <= j < i ==> (#[trigger] members[j]).0@ != name
}

/// Whether a member has the name `name`.
pub open spec fn has_member(members: Seq<(String, Json)>, name: Seq<char>) -> bool {
    exists|i: int| is_first_member(members, i, name)
}

/// The first member with the name `name`, if there is one.
pub open spec fn member(members: Seq<(String, Json)>, name: Seq<char>) -> Option<Json> {
    if has_member(members, name) {
        Some(members[choose|i: int| is_first_member(members, i, name)].1)
    } else {
        None
    }
}

/// The first member with a name is what `member` gives.
pub proof fn lemma_member(members: Seq<(String, Json)>, i: int, name: Seq<char>)
    requires
        is_first_member(members, i, name),
    ensures
        member(members, name) == Some(members[i].1),
{
    let c = choose|j: int| is_first_member(members, j, name);
    assert(is_first_member(members, c, name));
    if c < i {
        assert(members[c].0@ != name);
    } else if i < c {
        assert(members[i].0@ != name);
    }
}

/// Looks for the first member with the name `name`.
pub fn find_member<'a>(members: &'a Vec<(String, Json)>, name: &str) -> (r: Option<&'a Json>)
    ensures
        match r {
            Some(found) => member(members@, name@) == Some(*found),
            None => member(members@, name@) is None,
        },
{
    let mut i: usize = 0;
    while i < members.len()
        invariant
            i <= members.len(),
            forall|j: int| 0 <= j < i ==> (#[trigger] members@[j]).0@ != name@,
        decreases members.len() - i,
    {
        if str_eq(members[i].0.as_str(), name) {
            proof {
                lemma_member(members@, i as int, name@);
            }
            return Some(&members[i].1);
        }
        i += 1;
    }
    proof {
        if has_member(members@, name@) {
            let c = choose|j: int| is_first_member(members@, j, name@);
            assert(members@[c].0@ == name@);
        }
    }
    None
}

} // verus!
