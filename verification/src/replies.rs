//! Reading what a homeserver replies.

use vstd::prelude::*;
use vstd::string::*;

use crate::json::{
    as_object, as_text, at, lemma_names_differ, lemma_parts_are_well_named, lookup, members_of,
    names_of, parse_json, text_of, well_named, Json, JsonTree,
};
use crate::outside::{parsed_json, status_line, status_text};
use crate::types::opt_text;

verus! {

/// Why something that was asked of the adapter failed.
#[derive(Debug, PartialEq, Eq)]
pub enum MatrixError {
    /// The homeserver does not accept the access token.
    AuthenticationFailed,
    /// A reply was not JSON.
    Decode,
    /// The homeserver refused a message.
    Api { status: u16, body: String },
}

/// The mathematical value of a [`MatrixError`].
pub enum ErrorView {
    AuthenticationFailed,
    Decode,
    Api { status: u16, body: Seq<char> },
}

impl View for MatrixError {
    type V = ErrorView;

    open spec fn view(&self) -> ErrorView {
        match *self {
            MatrixError::AuthenticationFailed => ErrorView::AuthenticationFailed,
            MatrixError::Decode => ErrorView::Decode,
            MatrixError::Api { status, body } => ErrorView::Api { status, body: body@ },
        }
    }
}

/// A number that can be an HTTP status.
pub open spec fn is_status(status: u16) -> bool {
    100 <= status <= 999
}

/// What an error tells its reader.
pub open spec fn explained(error: ErrorView) -> Seq<char> {
    match error {
        ErrorView::AuthenticationFailed => "Matrix authentication failed"@,
        ErrorView::Decode => "error decoding response body"@,
        ErrorView::Api { status, body } => "Matrix API error "@ + status_line(status) + ": "@ + body,
    }
}

impl MatrixError {
    /// What the error tells its reader.
    pub fn message(&self) -> (text: String)
        requires
            self@ matches ErrorView::Api { status, .. } ==> is_status(status),
        ensures
            text@ == explained(self@),
    {
        match self {
            MatrixError::AuthenticationFailed => "Matrix authentication failed".to_owned(),
            MatrixError::Decode => "error decoding response body".to_owned(),
            MatrixError::Api { status, body } => api_error_message(
                status_text(*status).as_str(),
                body.as_str(),
            ),
        }
    }
}

/// What is told of a refused message, given how its status displays.
pub fn api_error_message(status: &str, body: &str) -> (text: String)
    ensures
        text@ == "Matrix API error "@ + status@ + ": "@ + body@,
{
    let mut text = "Matrix API error ".to_owned();
    text.append(status);
    text.append(": ");
    text.append(body);
    text
}

/// A reply to a request.
#[derive(Debug, PartialEq, Eq)]
pub struct Reply {
    pub status: u16,
    /// The body, where it could be read.
    pub body: Option<Vec<u8>>,
}

/// The mathematical value of a [`Reply`].
pub struct ReplyView {
    pub status: u16,
    pub body: Option<Seq<u8>>,
}

impl View for Reply {
    type V = ReplyView;

    open spec fn view(&self) -> ReplyView {
        ReplyView {
            status: self.status,
            body: match self.body {
                Some(bytes) => Some(bytes@),
                None => None,
            },
        }
    }
}

/// A status that stands for success.
pub open spec fn success(status: u16) -> bool {
    200 <= status < 300
}

/// Whether a status stands for success.
pub fn is_success(status: u16) -> (yes: bool)
    ensures
        yes == success(status),
{
    200 <= status && status < 300
}

/// The document in a reply that succeeded.
pub open spec fn document(reply: ReplyView) -> Option<JsonTree> {
    match reply.body {
        Some(bytes) => if success(reply.status) {
            parsed_json(bytes)
        } else {
            None
        },
        None => None,
    }
}

/// The document in a reply that succeeded.
pub fn read_document(reply: &Reply) -> (json: Option<Json>)
    ensures
        match json {
            Some(j) => document(reply@) == Some(j@) && well_named(j@),
            None => document(reply@) is None,
        },
{
    if !is_success(reply.status) {
        return None;
    }
    match &reply.body {
        Some(bytes) => parse_json(bytes.as_slice()),
        None => None,
    }
}

/// The account that a whoami reply names.
pub open spec fn account_of(body: JsonTree) -> Seq<char> {
    match text_of(at(body, "user_id"@)) {
        Some(user) => user,
        None => "unknown"@,
    }
}

/// The account that a whoami reply names.
pub fn account(body: &Json) -> (user: String)
    ensures
        user@ == account_of(body@),
{
    match as_text(lookup(Some(body), "user_id")) {
        Some(user) => user.to_owned(),
        None => "unknown".to_owned(),
    }
}

/// Reads a whoami reply.
pub fn validated_user(status: u16, body: &[u8]) -> (user: Result<String, MatrixError>)
    ensures
        match user {
            Ok(u) => success(status) && parsed_json(body@) is Some && u@ == account_of(
                parsed_json(body@)->0,
            ),
            Err(MatrixError::AuthenticationFailed) => !success(status),
            Err(MatrixError::Decode) => success(status) && parsed_json(body@) is None,
            Err(_) => false,
        },
{
    if !is_success(status) {
        return Err(MatrixError::AuthenticationFailed);
    }
    match parse_json(body) {
        Some(json) => Ok(account(&json)),
        None => Err(MatrixError::Decode),
    }
}

/// The place in the event stream that a sync reply ends at.
pub open spec fn next_batch_of(body: JsonTree) -> Option<Seq<char>> {
    text_of(at(body, "next_batch"@))
}

/// The place in the event stream that a sync reply ends at.
pub fn next_batch(body: &Json) -> (token: Option<String>)
    ensures
        opt_text(token) == next_batch_of(body@),
{
    match as_text(lookup(Some(body), "next_batch")) {
        Some(token) => Some(token.to_owned()),
        None => None,
    }
}

/// The place in the event stream that the first sync tells, if it does.
pub open spec fn first_place(reply: Option<ReplyView>) -> Option<Seq<char>> {
    match reply {
        Some(r) => match document(r) {
            Some(body) => next_batch_of(body),
            None => None,
        },
        None => None,
    }
}

/// The value of a reply that may have stayed away.
pub open spec fn opt_reply(reply: Option<Reply>) -> Option<ReplyView> {
    match reply {
        Some(r) => Some(r@),
        None => None,
    }
}

/// Reads the reply to the first sync; `None` stands for no reply.
pub fn first_sync_token(reply: &Option<Reply>) -> (token: Option<String>)
    ensures
        opt_text(token) == first_place(opt_reply(*reply)),
{
    match reply {
        Some(r) => match read_document(r) {
            Some(body) => next_batch(&body),
            None => None,
        },
        None => None,
    }
}

/// How many members a reply lists.
pub open spec fn listed_members(body: JsonTree) -> Option<nat> {
    match at(body, "joined"@) {
        JsonTree::Object(list) => Some(list.len()),
        _ => None,
    }
}

/// The members that a reply lists.
pub open spec fn different_members(body: JsonTree) -> Set<Seq<char>> {
    names_of(members_of(at(body, "joined"@))).to_set()
}

/// How many members a reply lists. Where no name comes twice, that is how many
/// different ones.
pub fn count_listed(body: &Json) -> (count: Option<usize>)
    ensures
        match count {
            Some(n) => listed_members(body@) == Some(n as nat) && (well_named(body@) ==> n
                == different_members(body@).len()),
            None => listed_members(body@) is None,
        },
{
    proof {
        if well_named(body@) {
            lemma_parts_are_well_named(body@, "joined"@);
            lemma_names_differ(members_of(at(body@, "joined"@)));
        }
    }
    match as_object(lookup(Some(body), "joined")) {
        Some(list) => Some(list.len()),
        None => None,
    }
}

/// How many members a room has, where the homeserver tells.
pub open spec fn member_count_of(reply: Option<ReplyView>) -> Option<nat> {
    match reply {
        Some(r) => match document(r) {
            Some(body) => listed_members(body),
            None => None,
        },
        None => None,
    }
}

/// Reads the reply that lists the members of a room, each of which counts once;
/// `None` stands for no reply.
pub fn member_count(reply: &Option<Reply>) -> (count: Option<usize>)
    ensures
        match count {
            Some(n) => member_count_of(opt_reply(*reply)) == Some(n as nat) && n
                == different_members(document((*reply)->0@)->0).len(),
            None => member_count_of(opt_reply(*reply)) is None,
        },
{
    match reply {
        Some(r) => match read_document(r) {
            Some(body) => count_listed(&body),
            None => None,
        },
        None => None,
    }
}

} // verus!
