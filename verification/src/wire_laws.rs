//! Laws of what goes to the homeserver and of what comes back.

use vstd::prelude::*;

use crate::json::{at, member, JsonTree};
use crate::outside::{parsed_json, rendered_object, status_line};
use crate::replies::{
    account_of, different_members, document, explained, first_place, listed_members,
    member_count_of, next_batch_of, success, ErrorView, ReplyView,
};
use crate::requests::{
    first_sync, join, members, message, message_fields, message_url, next_sync, typing,
    typing_fields, whoami, Method, RequestView,
};
use crate::text::decimal;

verus! {

/// Nothing stands between two texts that are joined.
proof fn lemma_joined(a: Seq<char>, b: Seq<char>, c: Seq<char>)
    ensures
        (a + b) + c == a + (b + c),
{
    assert((a + b) + c =~= a + (b + c));
}

/// The questions to the homeserver have these addresses, carry the access token
/// and nothing else.
pub proof fn law_questions_have_their_addresses(
    homeserver: Seq<char>,
    token: Seq<char>,
    room: Seq<char>,
)
    ensures
        whoami(homeserver, token) == (RequestView {
            method: Method::Get,
            url: homeserver + "/_matrix/client/v3/account/whoami"@,
            bearer: token,
            body: None,
        }),
        first_sync(homeserver, token) == (RequestView {
            method: Method::Get,
            url: homeserver
                + "/_matrix/client/v3/sync?timeout=0&filter={\"room\":{\"timeline\":{\"limit\":0}}}"@,
            bearer: token,
            body: None,
        }),
        members(homeserver, token, room) == (RequestView {
            method: Method::Get,
            url: homeserver + "/_matrix/client/v3/rooms/"@ + room + "/joined_members"@,
            bearer: token,
            body: None,
        }),
{
}

/// A sync request waits half a minute for at most ten events of each room, and
/// asks for what comes after the place it is given, whatever that is.
pub proof fn law_a_sync_request_asks_for_what_comes_next(
    homeserver: Seq<char>,
    token: Seq<char>,
    since: Option<Seq<char>>,
)
    ensures
        ({
            let request = next_sync(homeserver, token, since);
            let url = homeserver
                + "/_matrix/client/v3/sync?timeout=30000&filter={\"room\":{\"timeline\":{\"limit\":10}}}"@;
            &&& request.method == Method::Get
            &&& request.bearer == token
            &&& request.body is None
            &&& request.url == (match since {
                Some(place) => url + "&since="@ + place,
                None => url,
            })
        }),
{
    reveal_strlit("/_matrix/client/v3/sync?timeout=");
    reveal_strlit("&filter={\"room\":{\"timeline\":{\"limit\":10}}}");
    reveal_strlit(
        "/_matrix/client/v3/sync?timeout=30000&filter={\"room\":{\"timeline\":{\"limit\":10}}}",
    );
    reveal_with_fuel(decimal, 6);
    assert(decimal(30000) =~= seq!['3', '0', '0', '0', '0']);
    let whole =
        "/_matrix/client/v3/sync?timeout=30000&filter={\"room\":{\"timeline\":{\"limit\":10}}}"@;
    assert("/_matrix/client/v3/sync?timeout="@ + decimal(30000)
        + "&filter={\"room\":{\"timeline\":{\"limit\":10}}}"@ =~= whole);
    assert(homeserver + "/_matrix/client/v3/sync?timeout="@ + decimal(30000)
        + "&filter={\"room\":{\"timeline\":{\"limit\":10}}}"@ =~= homeserver + whole);
}

/// Joining a room, sending a message and announcing typing have these addresses,
/// and carry the access token and a JSON object.
pub proof fn law_orders_have_their_addresses(
    homeserver: Seq<char>,
    token: Seq<char>,
    room: Seq<char>,
    user: Seq<char>,
    txn: Seq<char>,
    text: Seq<char>,
)
    ensures
        join(homeserver, token, room) == (RequestView {
            method: Method::Post,
            url: homeserver + "/_matrix/client/v3/rooms/"@ + room + "/join"@,
            bearer: token,
            body: Some(rendered_object(Seq::empty())),
        }),
        message_url(homeserver, room, txn) == homeserver + "/_matrix/client/v3/rooms/"@ + room
            + "/send/m.room.message/"@ + txn,
        forall|url: Seq<char>| #[trigger]
            message(url, token, text) == (RequestView {
                method: Method::Put,
                url,
                bearer: token,
                body: Some(rendered_object(message_fields(text))),
            }),
        typing(homeserver, token, room, user) == (RequestView {
            method: Method::Put,
            url: homeserver + "/_matrix/client/v3/rooms/"@ + room + "/typing/"@ + user,
            bearer: token,
            body: Some(rendered_object(typing_fields())),
        }),
{
    lemma_joined(
        homeserver + "/_matrix/client/v3/rooms/"@ + room,
        "/send/m.room.message/"@,
        txn,
    );
    lemma_joined(homeserver + "/_matrix/client/v3/rooms/"@ + room, "/typing/"@, user);
}

/// A message says that it is a text, and has the text as it was given, whatever
/// that is; it says nothing else.
pub proof fn law_a_message_carries_its_text(text: Seq<char>)
    ensures
        message_fields(text).len() == 2,
        member(message_fields(text), "msgtype"@) == Some(JsonTree::Text("m.text"@)),
        member(message_fields(text), "body"@) == Some(JsonTree::Text(text)),
{
    reveal_strlit("msgtype");
    reveal_strlit("body");
    assert("msgtype"@.len() != "body"@.len());
    let fields = message_fields(text);
    assert(fields.skip(1)[0] == fields[1]);
    reveal_with_fuel(member, 3);
}

/// A typing notice says that somebody is typing, for five seconds.
pub proof fn law_a_typing_notice_lasts_five_seconds()
    ensures
        typing_fields().len() == 2,
        member(typing_fields(), "typing"@) == Some(JsonTree::Bool(true)),
        member(typing_fields(), "timeout"@) == Some(JsonTree::Number("5000"@)),
{
    reveal_strlit("typing");
    reveal_strlit("timeout");
    reveal_strlit("5000");
    assert("typing"@.len() != "timeout"@.len());
    let fields = typing_fields();
    assert(fields.skip(1)[0] == fields[1]);
    reveal_with_fuel(member, 3);
    reveal_with_fuel(decimal, 5);
    assert(decimal(5000) =~= "5000"@);
}

/// A reply has a document where its status is one of the two hundreds and its
/// body can be read as JSON, and nowhere else.
pub proof fn law_replies_that_succeeded_are_read(reply: ReplyView)
    ensures
        success(reply.status) <==> 200 <= reply.status <= 299,
        forall|body: JsonTree| (document(reply) == Some(body)) <==> (200 <= reply.status <= 299
            && (reply.body matches Some(bytes) && parsed_json(bytes) == Some(body))),
{
}

/// A whoami reply names the account that stands at `user_id`; where no text
/// stands there the account is unknown.
pub proof fn law_the_account_stands_at_user_id(body: JsonTree)
    ensures
        match at(body, "user_id"@) {
            JsonTree::Text(user) => account_of(body) == user,
            _ => account_of(body) == "unknown"@,
        },
{
}

/// A sync reply ends at the place that stands at `next_batch`, if a text stands
/// there, and the first sync tells that place.
pub proof fn law_the_place_stands_at_next_batch(body: JsonTree, reply: Option<ReplyView>)
    ensures
        forall|place: Seq<char>| (next_batch_of(body) == Some(place)) <==> at(body, "next_batch"@)
            == JsonTree::Text(place),
        forall|place: Seq<char>| (first_place(reply) == Some(place)) <==> (reply matches Some(r)
            && (document(r) matches Some(told) && at(told, "next_batch"@) == JsonTree::Text(
            place,
        ))),
{
}

/// The members of a room are those of the object at `joined`: each counts, and
/// nothing else does.
pub proof fn law_the_members_stand_at_joined(body: JsonTree, reply: Option<ReplyView>)
    ensures
        match at(body, "joined"@) {
            JsonTree::Object(list) => {
                &&& listed_members(body) == Some(list.len())
                &&& forall|name: Seq<char>| #[trigger]
                    different_members(body).contains(name) <==> exists|i: int|
                        0 <= i < list.len() && (#[trigger] list[i]).0 == name
            },
            _ => listed_members(body) is None,
        },
        match reply {
            Some(r) => match document(r) {
                Some(told) => member_count_of(reply) == listed_members(told),
                None => member_count_of(reply) is None,
            },
            None => member_count_of(reply) is None,
        },
{
    if let JsonTree::Object(list) = at(body, "joined"@) {
        let names = crate::json::names_of(list);
        assert forall|name: Seq<char>| #[trigger] different_members(body).contains(name)
            <==> exists|i: int| 0 <= i < list.len() && (#[trigger] list[i]).0 == name by {
            if names.contains(name) {
                let i = choose|i: int| 0 <= i < names.len() && names[i] == name;
                assert(list[i].0 == name);
            }
            if exists|i: int| 0 <= i < list.len() && (#[trigger] list[i]).0 == name {
                let i = choose|i: int| 0 <= i < list.len() && (#[trigger] list[i]).0 == name;
                assert(names[i] == name);
            }
        }
    }
}

/// An error of the homeserver is told with its status and with all of its text.
pub proof fn law_errors_are_told_whole(status: u16, body: Seq<char>)
    ensures
        explained(ErrorView::Api { status, body }) == "Matrix API error "@ + status_line(status)
            + ": "@ + body,
        explained(ErrorView::AuthenticationFailed) == "Matrix authentication failed"@,
        explained(ErrorView::Decode) == "error decoding response body"@,
{
}

} // verus!
