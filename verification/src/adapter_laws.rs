//! Laws of starting and stopping the adapter.

use vstd::prelude::*;
use vstd::utf8::encode_utf8;

use crate::adapter::{
    halted, loop_for, outgoing, sends, sent_text, stored, synced, turn_of, AdapterView,
};
use crate::delivery::{pieces, DeliveryView};
use crate::json::{at, JsonTree};
use crate::outside::{is_random_uuid, parsed_json};
use crate::replies::{explained, first_place, success, ErrorView, ReplyView};
use crate::requests::{first_sync, next_sync, whoami, RequestView, SYNC_TIMEOUT_MS};
use crate::startup::{identified, validation, StartErrorView, StartView};
use crate::sync::{next, ActionView, EventView, LoopView, Phase};
use crate::sync_laws::{sound, tells_to_stop};
use crate::text::{decimal, occurs, occurs_at};
use crate::text_laws::{
    law_a_text_that_fits_is_one_piece, law_pieces_fit, law_pieces_make_the_text,
};
use crate::types::{ContentView, Timestamp};
use crate::wire_laws::law_orders_have_their_addresses;

verus! {

/// A text is sent whole: put together in order, the pieces of its delivery are
/// the text, and none is larger than a message may be. The first is still to be
/// put, and all go to the room, under one identifier and with the access token.
pub proof fn law_a_text_is_sent_whole(
    delivery: DeliveryView,
    adapter: AdapterView,
    room: Seq<char>,
    text: Seq<char>,
)
    requires
        sends(delivery, adapter, room, text),
    ensures
        delivery.chunks.flatten() == text,
        delivery.chunks.len() > 0,
        forall|i: int|
            0 <= i < delivery.chunks.len() ==> encode_utf8(#[trigger] delivery.chunks[i]).len()
                <= 4096,
        encode_utf8(text).len() <= 4096 ==> delivery.chunks == seq![text],
        delivery.put == 0,
        delivery.bearer == adapter.access_token,
        exists|txn: Seq<char>| #[trigger]
            is_random_uuid(txn) && delivery.url == adapter.homeserver_url
                + "/_matrix/client/v3/rooms/"@ + room + "/send/m.room.message/"@ + txn,
{
    law_pieces_make_the_text(text, 4096);
    law_pieces_fit(text, 4096);
    let txn = choose|txn: Seq<char>|
        #![trigger outgoing(adapter, room, pieces(text, 4096), txn)]
        is_random_uuid(txn) && delivery == outgoing(adapter, room, pieces(text, 4096), txn);
    law_orders_have_their_addresses(
        adapter.homeserver_url,
        adapter.access_token,
        room,
        adapter.user_id,
        txn,
        text,
    );
    if encode_utf8(text).len() <= 4096 {
        law_a_text_that_fits_is_one_piece(text, 4096);
    }
    assert(is_random_uuid(txn));
}

/// A text is sent as it is, and anything else is replaced by a notice.
pub proof fn law_texts_are_sent_as_they_are(content: ContentView)
    ensures
        match content {
            ContentView::Text(text) => sent_text(content) == text,
            ContentView::Command { .. } => sent_text(content) == "(Unsupported content type)"@,
        },
{
}

/// A delivery goes to the room with the pieces that it is given.
pub proof fn law_pieces_are_sent_as_they_are(
    adapter: AdapterView,
    room: Seq<char>,
    chunks: Seq<Seq<char>>,
    txn: Seq<char>,
)
    ensures
        ({
            let delivery = outgoing(adapter, room, chunks, txn);
            &&& delivery.chunks == chunks
            &&& delivery.put == 0
            &&& delivery.bearer == adapter.access_token
            &&& delivery.url == adapter.homeserver_url + "/_matrix/client/v3/rooms/"@ + room
                + "/send/m.room.message/"@ + txn
        }),
{
    law_orders_have_their_addresses(
        adapter.homeserver_url,
        adapter.access_token,
        room,
        adapter.user_id,
        txn,
        Seq::empty(),
    );
}

/// What happens to an adapter changes one thing each, and nothing else: how far
/// it has read, or whether it was told to stop. A first sync that tells no place
/// changes nothing.
pub proof fn law_every_change_is_one_change(
    adapter: AdapterView,
    token: Seq<char>,
    reply: Option<ReplyView>,
)
    ensures
        stored(adapter, token) == (AdapterView { since_token: Some(token), ..adapter }),
        halted(adapter) == (AdapterView { stopped: true, ..adapter }),
        match first_place(reply) {
            Some(place) => synced(adapter, reply) == stored(adapter, place),
            None => synced(adapter, reply) == adapter,
        },
        turn_of(adapter) == (EventView::Turn {
            shutdown: adapter.stopped,
            since: adapter.since_token,
        }),
{
}

/// A loop begins with the homeserver, the access token, the rooms and the rule
/// for invitations of its adapter, and for the account it is given. It has
/// seen nothing and has nothing to do.
pub proof fn law_a_loop_begins_with_nothing_seen(adapter: AdapterView, user: Seq<char>)
    ensures
        loop_for(adapter, user) == (LoopView {
            homeserver: adapter.homeserver_url,
            access_token: adapter.access_token,
            user_id: user,
            allowed_rooms: adapter.allowed_rooms,
            auto_accept: adapter.auto_accept_invites,
            backoff: 1,
            seen: Set::empty(),
            phase: Phase::Ready,
            joins: Seq::empty(),
            pending: Seq::empty(),
        }),
{
}

/// The homeserver tells who the adapter is exactly where it replies, with a
/// status of success and a document. Where it replies with any other status it
/// does not accept the access token; a reply without a document is none of its.
pub proof fn law_who_the_adapter_is(reply: Option<ReplyView>)
    ensures
        match reply {
            None => validation(reply) == Err::<Seq<char>, StartErrorView>(
                StartErrorView::Unreachable,
            ),
            Some(r) => if !(200 <= r.status <= 299) {
                validation(reply) == Err::<Seq<char>, StartErrorView>(
                    StartErrorView::Refused(ErrorView::AuthenticationFailed),
                )
            } else {
                match r.body {
                    None => validation(reply) == Err::<Seq<char>, StartErrorView>(
                        StartErrorView::Unreachable,
                    ),
                    Some(bytes) => match parsed_json(bytes) {
                        None => validation(reply) == Err::<Seq<char>, StartErrorView>(
                            StartErrorView::Refused(ErrorView::Decode),
                        ),
                        Some(body) => validation(reply) == Ok::<Seq<char>, StartErrorView>(
                            match at(body, "user_id"@) {
                                JsonTree::Text(user) => user,
                                _ => "unknown"@,
                            },
                        ),
                    },
                }
            },
        },
{
}

/// How a start went.
pub struct StartRun {
    /// The requests that were made, in order.
    pub requests: Seq<RequestView>,
    /// The adapter afterwards.
    pub adapter: AdapterView,
    /// The sync loop, or why there is none.
    pub outcome: Result<LoopView, StartErrorView>,
}

/// A start of the adapter, when the homeserver gives these replies: to the
/// question who the adapter is, and to the first sync if that is asked for.
pub open spec fn startup(
    adapter: AdapterView,
    account: Option<ReplyView>,
    first: Option<ReplyView>,
) -> StartRun {
    let asked = whoami(adapter.homeserver_url, adapter.access_token);
    match identified(adapter, account) {
        StartView::Failed(error) => StartRun {
            requests: seq![asked],
            adapter,
            outcome: Err(error),
        },
        StartView::Run(sync) => StartRun { requests: seq![asked], adapter, outcome: Ok(sync) },
        StartView::CatchUp { request, sync } => StartRun {
            requests: seq![asked, request],
            adapter: synced(adapter, first),
            outcome: Ok(sync),
        },
    }
}

/// A start fails just where the homeserver does not tell who the adapter is, and
/// with that error. Then nothing more is asked, no loop runs and the adapter is
/// as it was.
pub proof fn law_a_start_fails_just_where_validation_fails(
    adapter: AdapterView,
    account: Option<ReplyView>,
    first: Option<ReplyView>,
)
    ensures
        ({
            let run = startup(adapter, account, first);
            &&& run.outcome is Err <==> validation(account) is Err
            &&& validation(account) matches Err(error) ==> {
                &&& run.outcome == Err::<LoopView, StartErrorView>(error)
                &&& run.requests == seq![whoami(adapter.homeserver_url, adapter.access_token)]
                &&& run.adapter == adapter
            }
        }),
{
}

/// Where the homeserver does not accept the access token, a start fails, and
/// its error says so.
pub proof fn law_a_refused_token_is_told(
    adapter: AdapterView,
    account: ReplyView,
    first: Option<ReplyView>,
)
    requires
        !success(account.status),
    ensures
        startup(adapter, Some(account), first).outcome == Err::<LoopView, StartErrorView>(
            StartErrorView::Refused(ErrorView::AuthenticationFailed),
        ),
        occurs("authentication failed"@, explained(ErrorView::AuthenticationFailed)),
{
    reveal_strlit("authentication failed");
    reveal_strlit("Matrix authentication failed");
    let told = explained(ErrorView::AuthenticationFailed);
    assert(told.subrange(7, told.len() as int) =~= "authentication failed"@);
    assert(occurs_at("authentication failed"@, told, 7));
}

/// Where the homeserver tells who the adapter is, the loop runs for that
/// account, whatever comes of the first sync. That is asked for only where the
/// adapter has read nothing yet, and it changes nothing but how far it has:
/// where an earlier run left off, the loop goes on from there.
pub proof fn law_a_start_succeeds_where_validation_does(
    adapter: AdapterView,
    account: Option<ReplyView>,
    first: Option<ReplyView>,
)
    requires
        validation(account) is Ok,
    ensures
        ({
            let run = startup(adapter, account, first);
            let asked = whoami(adapter.homeserver_url, adapter.access_token);
            &&& run.outcome == Ok::<LoopView, StartErrorView>(
                loop_for(adapter, validation(account)->Ok_0),
            )
            &&& run.requests == (if adapter.since_token is None {
                seq![asked, first_sync(adapter.homeserver_url, adapter.access_token)]
            } else {
                seq![asked]
            })
            &&& run.adapter == (AdapterView {
                since_token: match adapter.since_token {
                    Some(token) => Some(token),
                    None => first_place(first),
                },
                ..adapter
            })
        }),
{
}

/// A loop that a start begins is sound.
pub proof fn law_a_start_begins_a_sound_loop(
    adapter: AdapterView,
    account: Option<ReplyView>,
    first: Option<ReplyView>,
)
    ensures
        startup(adapter, account, first).outcome matches Ok(sync) ==> sound(sync),
{
}

/// Stopping is for good: nothing that happens to an adapter afterwards takes it
/// back, and every turn tells its loops to stop. Stopping twice is stopping
/// once.
pub proof fn law_stopping_is_for_good(
    adapter: AdapterView,
    token: Seq<char>,
    account: Option<ReplyView>,
    first: Option<ReplyView>,
)
    ensures
        halted(adapter).stopped,
        halted(halted(adapter)) == halted(adapter),
        adapter.stopped ==> {
            &&& stored(adapter, token).stopped
            &&& synced(adapter, first).stopped
            &&& startup(adapter, account, first).adapter.stopped
            &&& tells_to_stop(turn_of(adapter))
        },
{
}

/// The first sync is not the request that waits for events.
proof fn lemma_first_sync_does_not_wait(
    homeserver: Seq<char>,
    token: Seq<char>,
    since: Option<Seq<char>>,
)
    ensures
        first_sync(homeserver, token) != next_sync(homeserver, token, since),
        whoami(homeserver, token) != next_sync(homeserver, token, since),
{
    reveal_strlit("/_matrix/client/v3/account/whoami");
    reveal_strlit(
        "/_matrix/client/v3/sync?timeout=0&filter={\"room\":{\"timeline\":{\"limit\":0}}}",
    );
    reveal_strlit("/_matrix/client/v3/sync?timeout=");
    reveal_with_fuel(decimal, 6);
    let n = homeserver.len() as int;
    let waits = next_sync(homeserver, token, since).url;
    assert(decimal(SYNC_TIMEOUT_MS as nat)[0] == '3');
    assert(waits[n + 32] == '3');
    assert(first_sync(homeserver, token).url[n + 32] == '0');
    assert(waits[n + 19] == 's');
    assert(whoami(homeserver, token).url[n + 19] == 'a');
}

/// A stopped adapter can be started, but its loop leaves at once, and nobody
/// waits for events.
pub proof fn law_a_stopped_adapter_does_not_poll(
    adapter: AdapterView,
    account: Option<ReplyView>,
    first: Option<ReplyView>,
    now: Timestamp,
)
    requires
        adapter.stopped,
    ensures
        ({
            let run = startup(adapter, account, first);
            &&& run.outcome matches Ok(sync) ==> next(sync, turn_of(run.adapter), now).1
                == ActionView::Exit
            &&& forall|i: int, since: Option<Seq<char>>|
                0 <= i < run.requests.len() ==> #[trigger] run.requests[i] != #[trigger] next_sync(
                    adapter.homeserver_url,
                    adapter.access_token,
                    since,
                )
        }),
{
    let run = startup(adapter, account, first);
    assert forall|i: int, since: Option<Seq<char>>| 0 <= i < run.requests.len() implies #[trigger]
        run.requests[i] != #[trigger] next_sync(
        adapter.homeserver_url,
        adapter.access_token,
        since,
    ) by {
        lemma_first_sync_does_not_wait(adapter.homeserver_url, adapter.access_token, since);
    }
}

} // verus!
