//! Laws of reading documents.

use vstd::prelude::*;

use crate::json::{
    at, items_of, member, members_of, names_of, text_of, text_or_empty, well_named, Json, JsonTree,
};
use crate::types::{facts, lemma_member_first, lemma_member_none};

verus! {

/// A member of an object is found by its name; where a name comes twice, the
/// first counts.
pub proof fn law_members_are_found_by_name(
    members: Seq<(Seq<char>, JsonTree)>,
    key: Seq<char>,
    i: int,
)
    requires
        0 <= i < members.len(),
        members[i].0 == key,
        forall|k: int| 0 <= k < i ==> (#[trigger] members[k]).0 != key,
    ensures
        member(members, key) == Some(members[i].1),
        at(JsonTree::Object(members), key) == members[i].1,
        facts(members).dom().contains(key),
        facts(members)[key] == members[i].1,
{
    lemma_member_first(members, key, i);
}

/// A name that no member has finds nothing, and what is no object has no
/// members.
pub proof fn law_missing_members_are_null(json: JsonTree, key: Seq<char>)
    requires
        json matches JsonTree::Object(members) ==> forall|k: int|
            0 <= k < members.len() ==> (#[trigger] members[k]).0 != key,
    ensures
        at(json, key) == JsonTree::Null,
        json matches JsonTree::Object(members) ==> member(members, key) is None && !facts(
            members,
        ).dom().contains(key),
{
    if let JsonTree::Object(members) = json {
        lemma_member_none(members, key);
    }
}

/// Only a string has a text, only an array has items, and only an object has
/// members; each has all of them, in order.
pub proof fn law_documents_are_read_as_they_are(json: JsonTree)
    ensures
        forall|text: Seq<char>| (text_of(json) == Some(text)) <==> json == JsonTree::Text(text),
        json matches JsonTree::Text(text) ==> text_or_empty(json) == text,
        !(json is Text) ==> text_of(json) is None && text_or_empty(json).len() == 0,
        json matches JsonTree::Array(items) ==> items_of(json) == items,
        !(json is Array) ==> items_of(json).len() == 0,
        json matches JsonTree::Object(members) ==> members_of(json) == members,
        !(json is Object) ==> members_of(json).len() == 0,
{
}

/// The names of an object are those of its members, one for each and in order.
pub proof fn law_every_member_has_its_name(members: Seq<(Seq<char>, JsonTree)>)
    ensures
        names_of(members).len() == members.len(),
        forall|i: int| 0 <= i < members.len() ==> #[trigger] names_of(members)[i] == members[i].0,
{
}

/// A document holds what it was made of, part by part.
pub proof fn law_a_document_is_its_parts(json: Json)
    ensures
        match json {
            Json::Null => json@ == JsonTree::Null,
            Json::Bool(b) => json@ == JsonTree::Bool(b),
            Json::Number(n) => json@ == JsonTree::Number(n@),
            Json::Text(s) => json@ == JsonTree::Text(s@),
            Json::Array(parts) => json@ matches JsonTree::Array(items) && items.len()
                == parts@.len() && forall|i: int|
                0 <= i < items.len() ==> #[trigger] items[i] == parts@[i]@,
            Json::Object(parts) => json@ matches JsonTree::Object(members) && members.len()
                == parts@.len() && forall|i: int|
                0 <= i < members.len() ==> #[trigger] members[i] == (parts@[i].0@, parts@[i].1@),
        },
{
}

/// A document in which no name comes twice has no two members of one name, at
/// no level.
pub proof fn law_names_differ_at_every_level(json: JsonTree, i: int, j: int)
    requires
        well_named(json),
    ensures
        json matches JsonTree::Object(members) ==> {
            &&& 0 <= i < members.len() ==> well_named(members[i].1)
            &&& 0 <= i < j < members.len() ==> members[i].0 != members[j].0
        },
        json matches JsonTree::Array(items) ==> (0 <= i < items.len() ==> well_named(items[i])),
{
}

} // verus!
