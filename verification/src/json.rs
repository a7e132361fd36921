//! JSON documents as plain trees.

use vstd::prelude::*;

use crate::outside::{distinct_names, json_tree, open_value, parse_value, parsed_json, JsonNode};
use crate::text::{decimal, same_text};

verus! {

/// The mathematical value of a JSON document.
///
/// An object is the sequence of its members, a number is its text.
pub enum JsonTree {
    Null,
    Bool(bool),
    Number(Seq<char>),
    Text(Seq<char>),
    Array(Seq<JsonTree>),
    Object(Seq<(Seq<char>, JsonTree)>),
}

/// A JSON document.
#[derive(Debug, PartialEq, Eq)]
pub enum Json {
    Null,
    Bool(bool),
    Number(String),
    Text(String),
    Array(Vec<Json>),
    Object(Vec<(String, Json)>),
}

impl View for Json {
    type V = JsonTree;

    open spec fn view(&self) -> JsonTree {
        tree(*self)
    }
}

/// The tree that a document stands for.
pub open spec fn tree(json: Json) -> JsonTree
    decreases json,
{
    match json {
        Json::Null => JsonTree::Null,
        Json::Bool(b) => JsonTree::Bool(b),
        Json::Number(n) => JsonTree::Number(n@),
        Json::Text(s) => JsonTree::Text(s@),
        Json::Array(items) => JsonTree::Array(
            Seq::new(
                items@.len(),
                |i: int|
                    if 0 <= i < items@.len() {
                        tree(items@[i])
                    } else {
                        JsonTree::Null
                    },
            ),
        ),
        Json::Object(members) => JsonTree::Object(
            Seq::new(
                members@.len(),
                |i: int|
                    if 0 <= i < members@.len() {
                        (members@[i].0@, tree(members@[i].1))
                    } else {
                        (Seq::empty(), JsonTree::Null)
                    },
            ),
        ),
    }
}

/// A value that holds no other values.
#[derive(Debug, PartialEq, Eq)]
pub enum Scalar {
    Flag(bool),
    Number(u64),
    Text(String),
}

impl View for Scalar {
    type V = JsonTree;

    open spec fn view(&self) -> JsonTree {
        match *self {
            Scalar::Flag(b) => JsonTree::Bool(b),
            Scalar::Number(n) => JsonTree::Number(decimal(n as nat)),
            Scalar::Text(s) => JsonTree::Text(s@),
        }
    }
}

/// The value of the first of `members` that is called `key`.
pub open spec fn member(members: Seq<(Seq<char>, JsonTree)>, key: Seq<char>) -> Option<JsonTree>
    decreases members.len(),
{
    if members.len() == 0 {
        None
    } else if members[0].0 == key {
        Some(members[0].1)
    } else {
        member(members.skip(1), key)
    }
}

/// The member `key` of a document, `Null` where there is none.
pub open spec fn at(json: JsonTree, key: Seq<char>) -> JsonTree {
    match json {
        JsonTree::Object(members) => match member(members, key) {
            Some(value) => value,
            None => JsonTree::Null,
        },
        _ => JsonTree::Null,
    }
}

/// The text of a document that is a string.
pub open spec fn text_of(json: JsonTree) -> Option<Seq<char>> {
    match json {
        JsonTree::Text(s) => Some(s),
        _ => None,
    }
}

/// The text of a document that is a string, the empty text for any other.
pub open spec fn text_or_empty(json: JsonTree) -> Seq<char> {
    match json {
        JsonTree::Text(s) => s,
        _ => Seq::empty(),
    }
}

/// The items of a document that is an array, none for any other.
pub open spec fn items_of(json: JsonTree) -> Seq<JsonTree> {
    match json {
        JsonTree::Array(items) => items,
        _ => Seq::empty(),
    }
}

/// The members of a document that is an object, none for any other.
pub open spec fn members_of(json: JsonTree) -> Seq<(Seq<char>, JsonTree)> {
    match json {
        JsonTree::Object(members) => members,
        _ => Seq::empty(),
    }
}

/// The names of the members of an object.
pub open spec fn names_of(members: Seq<(Seq<char>, JsonTree)>) -> Seq<Seq<char>> {
    members.map_values(|m: (Seq<char>, JsonTree)| m.0)
}

/// No object in the document has a name twice.
pub open spec fn well_named(json: JsonTree) -> bool
    decreases json,
{
    match json {
        JsonTree::Array(items) => forall|i: int|
            0 <= i < items.len() ==> well_named(#[trigger] items[i]),
        JsonTree::Object(members) => {
            &&& distinct_names(members)
            &&& forall|i: int|
                0 <= i < members.len() ==> well_named((#[trigger] members[i]).1)
        },
        _ => true,
    }
}

/// What `member` finds is the value of one of the members.
proof fn lemma_member_is_one(members: Seq<(Seq<char>, JsonTree)>, key: Seq<char>)
    ensures
        member(members, key) matches Some(value) ==> exists|i: int|
            0 <= i < members.len() && (#[trigger] members[i]).1 == value,
    decreases members.len(),
{
    if members.len() > 0 && members[0].0 != key {
        let rest = members.skip(1);
        lemma_member_is_one(rest, key);
        if let Some(value) = member(rest, key) {
            let i = choose|i: int| 0 <= i < rest.len() && (#[trigger] rest[i]).1 == value;
            assert(members[i + 1] == rest[i]);
        }
    }
}

/// The parts of a document in which no name comes twice are such documents.
pub proof fn lemma_parts_are_well_named(json: JsonTree, key: Seq<char>)
    requires
        well_named(json),
    ensures
        well_named(at(json, key)),
{
    if let JsonTree::Object(members) = json {
        lemma_member_is_one(members, key);
        if let Some(value) = member(members, key) {
            let i = choose|i: int| 0 <= i < members.len() && (#[trigger] members[i]).1 == value;
            assert(well_named(members[i].1));
        }
    }
}

/// Where no name comes twice, there are as many names as members.
pub proof fn lemma_names_differ(members: Seq<(Seq<char>, JsonTree)>)
    requires
        distinct_names(members),
    ensures
        names_of(members).no_duplicates(),
        names_of(members).to_set().len() == members.len(),
{
    let names = names_of(members);
    assert forall|i: int, j: int| 0 <= i < names.len() && 0 <= j < names.len() && i != j implies
        names[i] != names[j] by {
        assert(members[i].0 != members[j].0);
    }
    names.unique_seq_to_set();
}

/// What a looked up document stands for, `Null` where nothing was found.
pub open spec fn found(json: Option<&Json>) -> JsonTree {
    match json {
        Some(j) => j@,
        None => JsonTree::Null,
    }
}

/// The member `key` of a document that may be missing itself.
pub fn lookup<'a>(json: Option<&'a Json>, key: &str) -> (value: Option<&'a Json>)
    ensures
        found(value) == at(found(json), key@),
{
    match json {
        Some(Json::Object(members)) => {
            let ghost all = members_of(found(json));
            let mut i: usize = 0;
            assert(all.skip(0) =~= all);
            while i < members.len()
                invariant
                    i <= members@.len(),
                    all.len() == members@.len(),
                    forall|k: int|
                        0 <= k < all.len() ==> #[trigger] all[k] == (
                            members@[k].0@,
                            members@[k].1@,
                        ),
                    found(json) == JsonTree::Object(all),
                    member(all, key@) == member(all.skip(i as int), key@),
                decreases members@.len() - i,
            {
                assert(all.skip(i as int)[0] == all[i as int]);
                if same_text(members[i].0.as_str(), key) {
                    return Some(&members[i].1);
                }
                assert(all.skip(i as int).skip(1) =~= all.skip(i + 1));
                i += 1;
            }
            None
        },
        _ => None,
    }
}

/// The text of a looked up document that is a string.
pub fn as_text<'a>(json: Option<&'a Json>) -> (text: Option<&'a str>)
    ensures
        match text {
            Some(t) => text_of(found(json)) == Some(t@),
            None => text_of(found(json)) is None,
        },
{
    match json {
        Some(Json::Text(s)) => Some(s.as_str()),
        _ => None,
    }
}

/// The text of a looked up document that is a string, else the empty text.
pub fn as_text_or_empty<'a>(json: Option<&'a Json>) -> (text: &'a str)
    ensures
        text@ == text_or_empty(found(json)),
{
    match json {
        Some(Json::Text(s)) => s.as_str(),
        _ => {
            proof {
                reveal_strlit("");
            }
            assert(""@ =~= Seq::empty());
            ""
        },
    }
}

/// The items of a looked up document that is an array.
pub fn as_array<'a>(json: Option<&'a Json>) -> (items: Option<&'a Vec<Json>>)
    ensures
        match items {
            Some(v) => found(json) is Array && items_of(found(json)) == v@.map_values(
                |j: Json| j@,
            ),
            None => !(found(json) is Array),
        },
{
    match json {
        Some(Json::Array(v)) => {
            assert(items_of(found(json)) =~= v@.map_values(|j: Json| j@));
            Some(v)
        },
        _ => None,
    }
}

/// The members of a looked up document that is an object.
pub fn as_object<'a>(json: Option<&'a Json>) -> (members: Option<&'a Vec<(String, Json)>>)
    ensures
        match members {
            Some(v) => found(json) is Object && members_of(found(json)) == v@.map_values(
                |m: (String, Json)| (m.0@, m.1@),
            ),
            None => !(found(json) is Object),
        },
{
    match json {
        Some(Json::Object(v)) => {
            assert(members_of(found(json)) =~= v@.map_values(|m: (String, Json)| (m.0@, m.1@)));
            Some(v)
        },
        _ => None,
    }
}

/// Reads a JSON document; `None` where the bytes are not one. No object in it
/// has a name twice.
pub fn parse_json(bytes: &[u8]) -> (json: Option<Json>)
    ensures
        match json {
            Some(j) => parsed_json(bytes@) == Some(j@) && well_named(j@),
            None => parsed_json(bytes@) is None,
        },
{
    match parse_value(bytes) {
        Ok(value) => Some(from_value(value)),
        Err(_) => None,
    }
}

/// Copies an outside JSON value into a document of this library.
fn from_value(value: serde_json::Value) -> (json: Json)
    ensures
        json@ == json_tree(value),
        well_named(json@),
    decreases json_tree(value),
{
    let ghost whole = json_tree(value);
    match open_value(value) {
        JsonNode::Null => Json::Null,
        JsonNode::Bool(b) => Json::Bool(b),
        JsonNode::Number(n) => Json::Number(n),
        JsonNode::Text(s) => Json::Text(s),
        JsonNode::Array(values) => {
            let ghost all = values@;
            let mut items: Vec<Json> = Vec::new();
            for v in it: values
                invariant
                    whole == json_tree(value),
                    whole == JsonTree::Array(all.map_values(|v: serde_json::Value| json_tree(v))),
                    it.seq() == all,
                    items@.len() == it.index(),
                    forall|k: int|
                        0 <= k < items@.len() ==> (#[trigger] items@[k])@ == json_tree(all[k])
                            && well_named(items@[k]@),
            {
                proof {
                    let parts = whole->Array_0;
                    assert(parts[it.index() as int] == json_tree(v));
                    assert(decreases_to!(whole => parts[it.index() as int]));
                }
                items.push(from_value(v));
            }
            let json = Json::Array(items);
            assert(json@->Array_0 =~= whole->Array_0);
            assert forall|k: int| 0 <= k < json@->Array_0.len() implies well_named(
                #[trigger] json@->Array_0[k],
            ) by {
                assert(well_named(json->Array_0@[k]@));
            }
            json
        },
        JsonNode::Object(values) => {
            let ghost all = values@;
            let mut members: Vec<(String, Json)> = Vec::new();
            for v in it: values
                invariant
                    whole == json_tree(value),
                    whole == JsonTree::Object(
                        all.map_values(|m: (String, serde_json::Value)| (m.0@, json_tree(m.1))),
                    ),
                    distinct_names(whole->Object_0),
                    it.seq() == all,
                    members@.len() == it.index(),
                    forall|k: int|
                        0 <= k < members@.len() ==> (#[trigger] members@[k]).0@ == all[k].0@
                            && members@[k].1@ == json_tree(all[k].1) && well_named(
                            members@[k].1@,
                        ),
            {
                proof {
                    let parts = whole->Object_0;
                    assert(parts[it.index() as int].1 == json_tree(v.1));
                    assert(decreases_to!(whole => parts[it.index() as int].1));
                }
                members.push((v.0, from_value(v.1)));
            }
            let json = Json::Object(members);
            assert(json@->Object_0 =~= whole->Object_0);
            assert forall|k: int| 0 <= k < json@->Object_0.len() implies well_named(
                (#[trigger] json@->Object_0[k]).1,
            ) by {
                assert(well_named(json->Object_0@[k].1@));
            }
            json
        },
    }
}

} // verus!
