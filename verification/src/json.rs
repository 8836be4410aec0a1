//! JSON values as the Jira view reads them: issue fields, comment bodies in
//! the Atlassian document format, and the answers of the development panel.

use vstd::prelude::*;

verus! {

/// A JSON value. Numbers keep the text they were written with.
#[derive(Debug)]
pub enum Json {
    Null,
    Bool(bool),
    Number(String),
    Text(String),
    Array(Vec<Json>),
    Object(Vec<(String, Json)>),
}

} // verus!

verus! {

/// The elements of the `content` list of a node.
pub open spec fn content_items(node: Json) -> Seq<Json> {
    match node {
        Json::Object(entries) => match content_index(entries@, 0) {
            Some(k) => match entries@[k].1 {
                Json::Array(items) => items@,
                _ => Seq::empty(),
            },
            None => Seq::empty(),
        },
        _ => Seq::empty(),
    }
}

/// The position of the first `content` member, from `i` on.
pub open spec fn content_index(entries: Seq<(String, Json)>, i: int) -> Option<int>
    decreases entries.len() - i,
{
    if i < 0 || i >= entries.len() {
        None
    } else if entries[i].0@ == "content"@ {
        Some(i)
    } else {
        content_index(entries, i + 1)
    }
}

proof fn lemma_content_index_bounds(entries: Seq<(String, Json)>, i: int)
    requires
        0 <= i,
    ensures
        content_index(entries, i) matches Some(k) ==> i <= k < entries.len(),
    decreases entries.len() - i,
{
    if i < entries.len() && entries[i].0@ != "content"@ {
        lemma_content_index_bounds(entries, i + 1);
    }
}

/// A node is larger than each element of its content.
pub proof fn lemma_content_decreases(node: Json, i: int)
    requires
        0 <= i < content_items(node).len(),
    ensures
        decreases_to!(node => content_items(node)[i]),
{
    match node {
        Json::Object(entries) => {
            lemma_content_index_bounds(entries@, 0);
            let k = content_index(entries@, 0)->0;
            match entries@[k].1 {
                Json::Array(items) => {
                    assert(decreases_to!(node => entries));
                    assert(decreases_to!(entries => entries@));
                    assert(decreases_to!(entries@ => entries@[k]));
                    assert(decreases_to!(entries@[k] => entries@[k].1));
                    assert(decreases_to!(entries@[k].1 => items));
                    assert(decreases_to!(items => items@));
                    assert(decreases_to!(items@ => items@[i]));
                },
                _ => {},
            }
        },
        _ => {},
    }
}

} // verus!

verus! {

/// What `serde_json::from_str::<Value>` reads from a text: the value (object
/// members in the order the map keeps them, numbers as they print), or the
/// message of its error.
pub uninterp spec fn json_of(text: Seq<char>) -> Result<Json, Seq<char>>;

/// `serde_json::from_str::<serde_json::Value>`, the value turned into a
/// [`Json`] and the error into its message. The result is named `json_of`
/// of the text; the JSON grammar is not stated.
#[verifier::external_body]
pub(crate) fn parse_json(text: &str) -> (r: Result<Json, String>)
    ensures
        json_of(text@) == match r {
            Ok(v) => Ok::<Json, Seq<char>>(v),
            Err(e) => Err::<Json, Seq<char>>(e@),
        },
{
    match serde_json::from_str::<serde_json::Value>(text) {
        Ok(v) => Ok(json_from_value(v)),
        Err(e) => Err(e.to_string()),
    }
}

/// A `serde_json::Value`.
#[verifier::external_type_specification]
#[verifier::external_body]
pub struct ExJsonValue(serde_json::Value);

/// A `serde_json::Value` as a [`Json`], variant for variant; numbers by
/// their `to_string`.
#[verifier::external_body]
fn json_from_value(v: serde_json::Value) -> Json {
    match v {
        serde_json::Value::Null => Json::Null,
        serde_json::Value::Bool(b) => Json::Bool(b),
        serde_json::Value::Number(n) => Json::Number(n.to_string()),
        serde_json::Value::String(s) => Json::Text(s),
        serde_json::Value::Array(a) => Json::Array(a.into_iter().map(json_from_value).collect()),
        serde_json::Value::Object(m) => Json::Object(m.into_iter().map(|(k, x)| (k, json_from_value(x))).collect()),
    }
}


/// What `serde_json::from_slice::<Value>` reads from bytes: the value (as
/// [`json_of`] reads it), or none when they are not JSON.
pub uninterp spec fn json_of_bytes(bytes: Seq<u8>) -> Option<Json>;

/// `serde_json::from_slice::<serde_json::Value>`, the value turned into a
/// [`Json`]. The result is named `json_of_bytes` of the bytes; the JSON
/// grammar is not stated.
#[verifier::external_body]
pub(crate) fn parse_json_bytes(bytes: &[u8]) -> (r: Option<Json>)
    ensures
        r == json_of_bytes(bytes@),
{
    match serde_json::from_slice::<serde_json::Value>(bytes) {
        Ok(v) => Some(json_from_value(v)),
        Err(_) => None,
    }
}

} // verus!
