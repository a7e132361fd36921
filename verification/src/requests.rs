//! The requests that the adapter makes of a homeserver.

use vstd::prelude::*;
use vstd::string::*;

use crate::json::{JsonTree, Scalar};
use crate::outside::{distinct_names, reads_back, render_object, rendered_object, AccessToken};
use crate::text::{decimal, decimal_text};
use crate::types::opt_text;

verus! {

/// How long the homeserver may hold back an empty sync reply, in milliseconds.
pub const SYNC_TIMEOUT_MS: u64 = 30000;

/// How long a typing notice is shown, in milliseconds.
pub const TYPING_TIMEOUT_MS: u64 = 5000;

/// After how many seconds a request is given up.
pub const REQUEST_TIMEOUT_SECS: u64 = 90;

/// After how many seconds an attempt to connect is given up.
pub const CONNECT_TIMEOUT_SECS: u64 = 30;

/// The method of a request.
#[derive(Debug, Clone, Copy, PartialEq, Eq, Structural)]
pub enum Method {
    Get,
    Post,
    Put,
}

/// A request.
#[derive(PartialEq, Eq)]
pub struct Request {
    pub method: Method,
    pub url: String,
    /// The access token that is sent along, as a bearer token.
    pub bearer: AccessToken,
    /// The JSON text that is sent along.
    pub body: Option<String>,
}

/// The mathematical value of a [`Request`].
pub struct RequestView {
    pub method: Method,
    pub url: Seq<char>,
    pub bearer: Seq<char>,
    pub body: Option<Seq<char>>,
}

impl View for Request {
    type V = RequestView;

    open spec fn view(&self) -> RequestView {
        RequestView {
            method: self.method,
            url: self.url@,
            bearer: self.bearer@,
            body: opt_text(self.body),
        }
    }
}

/// Asks which account an access token belongs to.
pub open spec fn whoami(homeserver: Seq<char>, token: Seq<char>) -> RequestView {
    RequestView {
        method: Method::Get,
        url: homeserver + "/_matrix/client/v3/account/whoami"@,
        bearer: token,
        body: None,
    }
}

/// Asks for the place where the event stream stands, without any events.
pub open spec fn first_sync(homeserver: Seq<char>, token: Seq<char>) -> RequestView {
    RequestView {
        method: Method::Get,
        url: homeserver
            + "/_matrix/client/v3/sync?timeout=0&filter={\"room\":{\"timeline\":{\"limit\":0}}}"@,
        bearer: token,
        body: None,
    }
}

/// Asks for what happened since the place `since`, and waits for it.
pub open spec fn next_sync(
    homeserver: Seq<char>,
    token: Seq<char>,
    since: Option<Seq<char>>,
) -> RequestView {
    let url = homeserver + "/_matrix/client/v3/sync?timeout="@ + decimal(SYNC_TIMEOUT_MS as nat)
        + "&filter={\"room\":{\"timeline\":{\"limit\":10}}}"@;
    RequestView {
        method: Method::Get,
        url: match since {
            Some(place) => url + "&since="@ + place,
            None => url,
        },
        bearer: token,
        body: None,
    }
}

/// Asks for something of a room.
pub open spec fn room_url(homeserver: Seq<char>, room: Seq<char>, what: Seq<char>) -> Seq<char> {
    homeserver + "/_matrix/client/v3/rooms/"@ + room + what
}

/// Joins a room.
pub open spec fn join(homeserver: Seq<char>, token: Seq<char>, room: Seq<char>) -> RequestView {
    RequestView {
        method: Method::Post,
        url: room_url(homeserver, room, "/join"@),
        bearer: token,
        body: Some(rendered_object(Seq::empty())),
    }
}

/// Asks for the members of a room.
pub open spec fn members(homeserver: Seq<char>, token: Seq<char>, room: Seq<char>) -> RequestView {
    RequestView {
        method: Method::Get,
        url: room_url(homeserver, room, "/joined_members"@),
        bearer: token,
        body: None,
    }
}

/// The members of the JSON object that carries a text message.
pub open spec fn message_fields(text: Seq<char>) -> Seq<(Seq<char>, JsonTree)> {
    seq![("msgtype"@, JsonTree::Text("m.text"@)), ("body"@, JsonTree::Text(text))]
}

/// Where a message with the transaction identifier `txn` is put.
pub open spec fn message_url(
    homeserver: Seq<char>,
    room: Seq<char>,
    txn: Seq<char>,
) -> Seq<char> {
    room_url(homeserver, room, "/send/m.room.message/"@ + txn)
}

/// Puts a text message at `url`.
pub open spec fn message(url: Seq<char>, token: Seq<char>, text: Seq<char>) -> RequestView {
    RequestView {
        method: Method::Put,
        url,
        bearer: token,
        body: Some(rendered_object(message_fields(text))),
    }
}

/// The members of the JSON object that announces typing.
pub open spec fn typing_fields() -> Seq<(Seq<char>, JsonTree)> {
    seq![
        ("typing"@, JsonTree::Bool(true)),
        ("timeout"@, JsonTree::Number(decimal(TYPING_TIMEOUT_MS as nat))),
    ]
}

/// Announces that `user` is typing in a room.
pub open spec fn typing(
    homeserver: Seq<char>,
    token: Seq<char>,
    room: Seq<char>,
    user: Seq<char>,
) -> RequestView {
    RequestView {
        method: Method::Put,
        url: room_url(homeserver, room, "/typing/"@ + user),
        bearer: token,
        body: Some(rendered_object(typing_fields())),
    }
}

/// Asks which account the access token belongs to.
pub fn whoami_request(homeserver: &str, token: &AccessToken) -> (request: Request)
    ensures
        request@ == whoami(homeserver@, token@),
{
    let mut url = homeserver.to_owned();
    url.append("/_matrix/client/v3/account/whoami");
    Request { method: Method::Get, url, bearer: token.copy(), body: None }
}

/// Asks for the place where the event stream stands, without any events.
pub fn first_sync_request(homeserver: &str, token: &AccessToken) -> (request: Request)
    ensures
        request@ == first_sync(homeserver@, token@),
{
    let mut url = homeserver.to_owned();
    url.append(
        "/_matrix/client/v3/sync?timeout=0&filter={\"room\":{\"timeline\":{\"limit\":0}}}",
    );
    Request { method: Method::Get, url, bearer: token.copy(), body: None }
}

/// Asks for what happened since the place `since`, and waits for it.
pub fn next_sync_request(homeserver: &str, token: &AccessToken, since: &Option<String>) -> (request:
    Request)
    ensures
        request@ == next_sync(homeserver@, token@, opt_text(*since)),
{
    let mut url = homeserver.to_owned();
    url.append("/_matrix/client/v3/sync?timeout=");
    url.append(decimal_text(SYNC_TIMEOUT_MS).as_str());
    url.append("&filter={\"room\":{\"timeline\":{\"limit\":10}}}");
    if let Some(place) = since {
        url.append("&since=");
        url.append(place.as_str());
    }
    Request { method: Method::Get, url, bearer: token.copy(), body: None }
}

/// The address of something of a room.
fn room_address(homeserver: &str, room: &str, what: &str) -> (url: String)
    ensures
        url@ == room_url(homeserver@, room@, what@),
{
    let mut url = homeserver.to_owned();
    url.append("/_matrix/client/v3/rooms/");
    url.append(room);
    url.append(what);
    url
}

/// Joins a room.
pub fn join_request(homeserver: &str, token: &AccessToken, room: &str) -> (request: Request)
    ensures
        request@ == join(homeserver@, token@, room@),
        reads_back(request@.body->0, Seq::empty()),
{
    let none: Vec<(String, Scalar)> = Vec::new();
    assert(none@.map_values(|m: (String, Scalar)| (m.0@, m.1@)) =~= Seq::empty());
    let body = render_object(&none);
    Request {
        method: Method::Post,
        url: room_address(homeserver, room, "/join"),
        bearer: token.copy(),
        body: Some(body),
    }
}

/// Asks for the members of a room.
pub fn members_request(homeserver: &str, token: &AccessToken, room: &str) -> (request: Request)
    ensures
        request@ == members(homeserver@, token@, room@),
{
    Request {
        method: Method::Get,
        url: room_address(homeserver, room, "/joined_members"),
        bearer: token.copy(),
        body: None,
    }
}

/// Where a message with the transaction identifier `txn` is put.
pub fn message_address(homeserver: &str, room: &str, txn: &str) -> (url: String)
    ensures
        url@ == message_url(homeserver@, room@, txn@),
{
    let mut what = "/send/m.room.message/".to_owned();
    what.append(txn);
    room_address(homeserver, room, what.as_str())
}

/// Puts a text message at `url`. Whoever reads the body as JSON finds the text
/// in it as it was given.
pub fn message_request(url: &str, token: &AccessToken, text: &str) -> (request: Request)
    ensures
        request@ == message(url@, token@, text@),
        reads_back(request@.body->0, message_fields(text@)),
{
    let mut fields: Vec<(String, Scalar)> = Vec::new();
    fields.push(("msgtype".to_owned(), Scalar::Text("m.text".to_owned())));
    fields.push(("body".to_owned(), Scalar::Text(text.to_owned())));
    proof {
        assert(fields@.map_values(|m: (String, Scalar)| (m.0@, m.1@)) =~= message_fields(text@));
        reveal_strlit("msgtype");
        reveal_strlit("body");
        assert("msgtype"@.len() != "body"@.len());
        assert(distinct_names(message_fields(text@)));
    }
    let body = render_object(&fields);
    Request { method: Method::Put, url: url.to_owned(), bearer: token.copy(), body: Some(body) }
}

/// Announces that `user` is typing in a room.
pub fn typing_request(homeserver: &str, token: &AccessToken, room: &str, user: &str) -> (request:
    Request)
    ensures
        request@ == typing(homeserver@, token@, room@, user@),
        reads_back(request@.body->0, typing_fields()),
{
    let mut what = "/typing/".to_owned();
    what.append(user);
    let mut fields: Vec<(String, Scalar)> = Vec::new();
    fields.push(("typing".to_owned(), Scalar::Flag(true)));
    fields.push(("timeout".to_owned(), Scalar::Number(TYPING_TIMEOUT_MS)));
    proof {
        assert(fields@.map_values(|m: (String, Scalar)| (m.0@, m.1@)) =~= typing_fields());
        reveal_strlit("typing");
        reveal_strlit("timeout");
        assert("typing"@.len() != "timeout"@.len());
        assert(distinct_names(typing_fields()));
    }
    let body = render_object(&fields);
    Request {
        method: Method::Put,
        url: room_address(homeserver, room, what.as_str()),
        bearer: token.copy(),
        body: Some(body),
    }
}

} // verus!
