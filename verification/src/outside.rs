//! What this library takes from other crates.
//!
//! Every item below is believed, not proved. Its comment says which function
//! of which crate stands behind it and what is claimed of that function.

use vstd::prelude::*;
use vstd::utf8::encode_utf8;

use crate::json::{member, JsonTree, Scalar};
use crate::text::decimal;
use crate::types::Timestamp;

verus! {

/// A JSON value as `serde_json` holds it.
#[verifier::external_type_specification]
#[verifier::external_body]
pub struct ExJsonValue(serde_json::Value);

/// The error with which `serde_json` refuses a text.
#[verifier::external_type_specification]
#[verifier::external_body]
pub struct ExJsonError(serde_json::Error);

/// What a `serde_json` value holds, as a tree.
///
/// The members of an object stand in the order in which its map hands them
/// out, and a number is its text.
pub uninterp spec fn json_tree(value: serde_json::Value) -> JsonTree;

/// The document that `serde_json::from_slice` reads from `bytes`, `None`
/// where it refuses them.
pub uninterp spec fn parsed_json(bytes: Seq<u8>) -> Option<JsonTree>;

/// The topmost level of a `serde_json` value.
pub enum JsonNode {
    Null,
    Bool(bool),
    Number(String),
    Text(String),
    Array(Vec<serde_json::Value>),
    Object(Vec<(String, serde_json::Value)>),
}

impl JsonNode {
    /// This is the topmost level of `tree`. An object has no name twice.
    pub open spec fn tops(self, tree: JsonTree) -> bool {
        match self {
            JsonNode::Null => tree == JsonTree::Null,
            JsonNode::Bool(b) => tree == JsonTree::Bool(b),
            JsonNode::Number(n) => tree == JsonTree::Number(n@),
            JsonNode::Text(s) => tree == JsonTree::Text(s@),
            JsonNode::Array(items) => tree == JsonTree::Array(
                items@.map_values(|v: serde_json::Value| json_tree(v)),
            ),
            JsonNode::Object(members) => {
                let named = members@.map_values(
                    |m: (String, serde_json::Value)| (m.0@, json_tree(m.1)),
                );
                tree == JsonTree::Object(named) && distinct_names(named)
            },
        }
    }
}

/// `serde_json::from_slice`, read into a `serde_json::Value`: whether it
/// succeeds, and with which document, depends on the bytes alone.
#[verifier::external_body]
pub(crate) fn parse_value(bytes: &[u8]) -> (value: Result<serde_json::Value, serde_json::Error>)
    ensures
        match value {
            Ok(v) => parsed_json(bytes@) == Some(json_tree(v)),
            Err(_) => parsed_json(bytes@) is None,
        },
{
    serde_json::from_slice(bytes)
}

/// The variants of `serde_json::Value` told apart: what comes out is the
/// topmost level of what the value holds. An object is a `serde_json::Map`,
/// which holds each name once.
#[verifier::external_body]
pub(crate) fn open_value(value: serde_json::Value) -> (node: JsonNode)
    ensures
        node.tops(json_tree(value)),
{
    match value {
        serde_json::Value::Null => JsonNode::Null,
        serde_json::Value::Bool(b) => JsonNode::Bool(b),
        serde_json::Value::Number(n) => JsonNode::Number(n.to_string()),
        serde_json::Value::String(s) => JsonNode::Text(s),
        serde_json::Value::Array(items) => JsonNode::Array(items),
        serde_json::Value::Object(members) => JsonNode::Object(members.into_iter().collect()),
    }
}

/// The text that `serde_json` writes for the object with these members.
pub uninterp spec fn rendered_object(members: Seq<(Seq<char>, JsonTree)>) -> Seq<char>;

/// No two of `members` have the same name.
pub open spec fn distinct_names(members: Seq<(Seq<char>, JsonTree)>) -> bool {
    forall|i: int, j: int|
        0 <= i < j < members.len() ==> (#[trigger] members[i]).0 != (#[trigger] members[j]).0
}

/// Read as JSON, `text` is an object with these members, in some order.
pub open spec fn reads_back(text: Seq<char>, members: Seq<(Seq<char>, JsonTree)>) -> bool {
    match parsed_json(encode_utf8(text)) {
        Some(JsonTree::Object(read)) => {
            &&& read.len() == members.len()
            &&& forall|key: Seq<char>| #[trigger] member(read, key) == member(members, key)
        },
        _ => false,
    }
}

/// `serde_json::Map::insert` for each member, then the `Display` of the
/// `serde_json::Value` that holds the map: the text depends on the members
/// alone, and `serde_json::from_slice` reads the members back from it. The
/// second is claimed only where no name comes twice.
#[verifier::external_body]
pub(crate) fn render_object(members: &Vec<(String, Scalar)>) -> (text: String)
    ensures
        text@ == rendered_object(members@.map_values(|m: (String, Scalar)| (m.0@, m.1@))),
        distinct_names(members@.map_values(|m: (String, Scalar)| (m.0@, m.1@))) ==> reads_back(
            text@,
            members@.map_values(|m: (String, Scalar)| (m.0@, m.1@)),
        ),
{
    let mut object = serde_json::Map::new();
    for (name, value) in members {
        let value = match value {
            Scalar::Flag(b) => serde_json::Value::from(*b),
            Scalar::Number(n) => serde_json::Value::from(*n),
            Scalar::Text(s) => serde_json::Value::from(s.as_str()),
        };
        object.insert(name.clone(), value);
    }
    serde_json::Value::Object(object).to_string()
}

/// An access token that is wiped from memory when it is dropped: a
/// `zeroize::Zeroizing<String>`.
#[derive(PartialEq, Eq)]
#[verifier::external_body]
pub struct AccessToken {
    secret: zeroize::Zeroizing<String>,
}

/// The characters of an access token.
pub uninterp spec fn token_text(token: AccessToken) -> Seq<char>;

/// `zeroize::Zeroizing::new` holds the text that it is given.
#[verifier::external_body]
pub(crate) fn seal_token(text: String) -> (token: AccessToken)
    ensures
        token_text(token) == text@,
{
    AccessToken { secret: zeroize::Zeroizing::new(text) }
}

/// `Deref` of `zeroize::Zeroizing` hands out the text that it holds.
#[verifier::external_body]
pub(crate) fn reveal_token(token: &AccessToken) -> (text: &str)
    ensures
        text@ == token_text(*token),
{
    token.secret.as_str()
}

/// A lower case hexadecimal digit.
pub open spec fn is_lower_hex(c: char) -> bool {
    '0' <= c <= '9' || 'a' <= c <= 'f'
}

/// A random (version 4) UUID in its hyphenated form.
pub open spec fn is_random_uuid(s: Seq<char>) -> bool {
    &&& s.len() == 36
    &&& forall|i: int|
        0 <= i < 36 ==> if i == 8 || i == 13 || i == 18 || i == 23 {
            #[trigger] s[i] == '-'
        } else {
            is_lower_hex(s[i])
        }
    &&& s[14] == '4'
    &&& s[19] == '8' || s[19] == '9' || s[19] == 'a' || s[19] == 'b'
}

/// `uuid::Uuid::new_v4` and its `Display`. The identifier is random: only its
/// form is claimed. The call panics where the system has no random numbers to
/// give.
#[verifier::external_body]
pub(crate) fn random_uuid() -> (id: String)
    ensures
        is_random_uuid(id@),
{
    uuid::Uuid::new_v4().to_string()
}

/// `chrono::Utc::now`, as whole seconds since 1970 and the nanoseconds beyond
/// them. The time is what the clock says: only its range is claimed. The call
/// panics where the clock stands before 1970.
#[verifier::external_body]
pub(crate) fn current_time() -> (now: Timestamp)
    ensures
        now.seconds >= 0,
        now.nanos < 1_000_000_000,
{
    let now = chrono::Utc::now();
    Timestamp { seconds: now.timestamp(), nanos: now.timestamp_subsec_nanos() }
}

/// How `reqwest::StatusCode` displays the status `code`: the number and the
/// phrase that goes with it.
pub uninterp spec fn status_line(code: u16) -> Seq<char>;

/// The `Display` of `reqwest::StatusCode`: it depends on the number alone, and
/// begins with it in decimal notation, then a space.
#[verifier::external_body]
pub(crate) fn status_text(code: u16) -> (text: String)
    requires
        100 <= code <= 999,
    ensures
        text@ == status_line(code),
        decimal(code as nat).push(' ').is_prefix_of(text@),
{
    reqwest::StatusCode::from_u16(code).unwrap_or_default().to_string()
}

} // verus!
