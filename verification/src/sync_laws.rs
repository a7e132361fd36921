//! Laws of the sync loop.

use vstd::arithmetic::power2::{lemma2_to64, lemma_pow2_unfold, pow2};
use vstd::prelude::*;

use crate::adapter::caught_up;
use crate::event_laws::{
    body_of, from_others, has_source, law_events_come_from_allowed_rooms,
    law_invitations_are_allowed, law_memory_grows_by_the_events, law_memory_is_bounded,
    law_messages_come_from_events, law_no_event_is_taken_twice, law_no_room_is_invited_to_twice,
    made_of, new_ids,
};
use crate::events::{allowed, invitations, joined_rooms, stream, taken_all, PendingView};
use crate::json::{at, well_named, JsonTree};
use crate::replies::{document, member_count_of, next_batch_of, success, ReplyView};
use crate::requests::{join, members, next_sync};
use crate::seen::MAX_SEEN;
use crate::sync::{
    complete, doubled, is_group_of, next, noted, starting, ActionView, EventView, LoopView, Phase,
    FIRST_BACKOFF_SECS, MAX_BACKOFF_SECS,
};
use crate::types::{ChannelType, MessageView, Timestamp};

verus! {

/// A message that a loop may hand on: from a room that it listens to, and not
/// its own.
pub open spec fn fit_to_hand_on(s: LoopView, message: PendingView) -> bool {
    allowed(s.allowed_rooms, message.room_id) && message.sender != s.user_id
}

/// What holds of the sync loop at all times.
pub open spec fn sound(s: LoopView) -> bool {
    &&& FIRST_BACKOFF_SECS <= s.backoff <= MAX_BACKOFF_SECS
    &&& s.seen.finite()
    &&& s.seen.len() <= MAX_SEEN
    &&& s.joins.len() > 0 ==> s.auto_accept
    &&& forall|i: int| 0 <= i < s.joins.len() ==> allowed(s.allowed_rooms, #[trigger] s.joins[i])
    &&& forall|i: int| 0 <= i < s.pending.len() ==> fit_to_hand_on(s, #[trigger] s.pending[i])
    &&& s.phase == Phase::Ready || s.phase == Phase::Polling ==> s.joins.len() == 0
        && s.pending.len() == 0
    &&& s.phase == Phase::Counting ==> s.joins.len() == 0 && s.pending.len() > 0
    &&& s.phase == Phase::Handing ==> s.joins.len() == 0
}

/// The loop is sound before its first turn.
pub proof fn law_the_loop_starts_sound(
    homeserver: Seq<char>,
    access_token: Seq<char>,
    user_id: Seq<char>,
    allowed_rooms: Seq<Seq<char>>,
    auto_accept: bool,
)
    ensures
        sound(starting(homeserver, access_token, user_id, allowed_rooms, auto_accept)),
{
}

/// Whatever happens, the loop stays sound, and it goes on for the same account,
/// on the same homeserver, with the same access token and the same rooms.
pub proof fn law_the_loop_stays_sound(s: LoopView, event: EventView, now: Timestamp)
    requires
        sound(s),
    ensures
        ({
            let t = next(s, event, now).0;
            &&& sound(t)
            &&& t.homeserver == s.homeserver
            &&& t.access_token == s.access_token
            &&& t.user_id == s.user_id
            &&& t.allowed_rooms == s.allowed_rooms
            &&& t.auto_accept == s.auto_accept
        }),
{
    if let EventView::Replied(reply) = event {
        if let Some(body) = document(reply) {
            let events = stream(s.allowed_rooms, joined_rooms(body));
            law_events_come_from_allowed_rooms(s.allowed_rooms, joined_rooms(body));
            law_messages_come_from_events(s.user_id, events, s.seen);
            law_memory_is_bounded(s.user_id, events, s.seen);
            law_invitations_are_allowed(s.allowed_rooms, body);
            let messages = taken_all(s.user_id, events, s.seen).1;
            assert forall|i: int| 0 <= i < messages.len() implies fit_to_hand_on(
                s,
                #[trigger] messages[i],
            ) by {
                assert(has_source(s.user_id, events, messages[i]));
                let k = choose|k: int|
                    #![trigger events[k]]
                    0 <= k < events.len() && from_others(s.user_id, events[k].1) && body_of(
                        events[k].1,
                    ).len() > 0 && messages[i] == made_of(s.user_id, events[k].0, events[k].1);
                assert(allowed(s.allowed_rooms, events[k].0));
            }
        }
    }
}

/// The bot never hands on a message of its own, nor one from a room that it
/// does not listen to.
pub proof fn law_only_fit_messages_are_handed_on(s: LoopView, event: EventView, now: Timestamp)
    requires
        sound(s),
    ensures
        next(s, event, now).1 matches ActionView::Hand(message) ==> message.sender.display_name
            != s.user_id && allowed(s.allowed_rooms, message.sender.platform_id),
{
    if s.pending.len() > 0 {
        assert(fit_to_hand_on(s, s.pending[0]));
    }
}

/// Rooms are joined only where invitations are to be followed, and only rooms
/// that are allowed.
pub proof fn law_only_allowed_rooms_are_joined(s: LoopView, event: EventView, now: Timestamp)
    requires
        sound(s),
    ensures
        next(s, event, now).1 matches ActionView::Join(request) ==> s.auto_accept && exists|
            room: Seq<char>,
        |
            allowed(s.allowed_rooms, room) && request == #[trigger] join(
                s.homeserver,
                s.access_token,
                room,
            ),
{
    if s.joins.len() > 0 {
        assert(allowed(s.allowed_rooms, s.joins[0]));
    }
    if let EventView::Replied(reply) = event {
        if let Some(body) = document(reply) {
            law_invitations_are_allowed(s.allowed_rooms, body);
            let rooms = invitations(s.allowed_rooms, body);
            if rooms.len() > 0 {
                assert(allowed(s.allowed_rooms, rooms[0]));
            }
        }
    }
}

/// An event can come of performing an action.
pub open spec fn answers(action: ActionView, event: EventView) -> bool {
    match action {
        ActionView::Poll(_) => event is Shutdown || event is Unreachable || event is Replied,
        ActionView::Pause(_) => event is Turn,
        ActionView::Again => event is Turn,
        ActionView::Store(_) => event is Finished,
        ActionView::Join(_) => event is Finished,
        ActionView::Count(_) => event is Counted,
        ActionView::Hand(_) => event is Handed,
        ActionView::Exit => false,
        ActionView::Ignore => false,
    }
}

/// Whatever can come of an action is taken in: no answer is ignored.
pub proof fn law_no_answer_is_ignored(
    s: LoopView,
    event: EventView,
    now: Timestamp,
    answer: EventView,
    later: Timestamp,
)
    requires
        sound(s),
        answers(next(s, event, now).1, answer),
    ensures
        !(next(next(s, event, now).0, answer, later).1 is Ignore),
{
}

/// The first turn is taken in.
pub proof fn law_the_first_turn_is_taken(
    homeserver: Seq<char>,
    access_token: Seq<char>,
    user_id: Seq<char>,
    allowed_rooms: Seq<Seq<char>>,
    auto_accept: bool,
    shutdown: bool,
    since: Option<Seq<char>>,
    now: Timestamp,
)
    ensures
        !(next(
            starting(homeserver, access_token, user_id, allowed_rooms, auto_accept),
            EventView::Turn { shutdown, since },
            now,
        ).1 is Ignore),
{
}

/// Nothing but a reply that could be read changes what is remembered, and nothing
/// at all changes who the loop works for and where.
pub proof fn law_only_replies_change_the_memory(s: LoopView, event: EventView, now: Timestamp)
    ensures
        ({
            let t = next(s, event, now).0;
            &&& t.homeserver == s.homeserver
            &&& t.access_token == s.access_token
            &&& t.user_id == s.user_id
            &&& t.allowed_rooms == s.allowed_rooms
            &&& t.auto_accept == s.auto_accept
            &&& !(event matches EventView::Replied(reply) && document(reply) is Some) ==> t.seen
                == s.seen
        }),
{
}

/// At a turn the loop asks for what comes after the place that the turn tells,
/// whatever it did before.
pub proof fn law_a_turn_asks_for_what_comes_next(
    s: LoopView,
    since: Option<Seq<char>>,
    now: Timestamp,
)
    requires
        s.phase == Phase::Ready,
    ensures
        next(s, EventView::Turn { shutdown: false, since }, now) == (
            LoopView { phase: Phase::Polling, ..s },
            ActionView::Poll(next_sync(s.homeserver, s.access_token, since)),
        ),
{
}

/// After a failure the loop waits as long as it has to, and twice as long the
/// next time, but never more than a minute.
pub proof fn law_a_failure_doubles_the_pause(s: LoopView, event: EventView, now: Timestamp)
    requires
        s.phase == Phase::Polling,
        match event {
            EventView::Unreachable => true,
            EventView::Replied(reply) => !(200 <= reply.status <= 299),
            _ => false,
        },
    ensures
        next(s, event, now).1 == ActionView::Pause(s.backoff),
        next(s, event, now).0 == (LoopView {
            phase: Phase::Ready,
            backoff: next(s, event, now).0.backoff,
            ..s
        }),
        next(s, event, now).0.backoff == (if 2 * s.backoff <= 60 {
            2 * s.backoff
        } else {
            60
        }),
{
}

/// What comes of a reply that could be read: every message of its events waits,
/// every room that it invites to and that is to be joined is joined or waits,
/// and what is remembered is what was remembered with the events of the reply.
/// The place that it ends at is kept first.
pub proof fn law_a_reply_is_taken_in_whole(
    s: LoopView,
    reply: ReplyView,
    body: JsonTree,
    now: Timestamp,
)
    requires
        s.phase == Phase::Polling,
        document(reply) == Some(body),
    ensures
        ({
            let (t, action) = next(s, EventView::Replied(reply), now);
            let (seen, messages) = taken_all(
                s.user_id,
                stream(s.allowed_rooms, joined_rooms(body)),
                s.seen,
            );
            let rooms = if s.auto_accept {
                invitations(s.allowed_rooms, body)
            } else {
                Seq::empty()
            };
            &&& t.pending == messages
            &&& t.seen == seen
            &&& t.backoff == 1
            &&& match at(body, "next_batch"@) {
                JsonTree::Text(place) => action == ActionView::Store(place) && t.joins == rooms
                    && t.phase == Phase::Working,
                _ => if rooms.len() > 0 {
                    action == ActionView::Join(join(s.homeserver, s.access_token, rooms[0]))
                        && t.joins == rooms.skip(1) && t.phase == Phase::Working
                } else if messages.len() > 0 {
                    action == ActionView::Count(
                        members(s.homeserver, s.access_token, messages[0].room_id),
                    ) && t.joins == rooms && t.phase == Phase::Counting
                } else {
                    action == ActionView::Again && t.joins == rooms && t.phase == Phase::Ready
                },
            }
        }),
{
}

/// After an errand the next room is joined; after the last one the room of the
/// first message is looked at, and the next turn comes once there are no
/// messages left. The same holds after a message that was received.
pub proof fn law_what_is_left_is_done(s: LoopView, event: EventView, now: Timestamp)
    requires
        s.phase == Phase::Working && event is Finished || s.phase == Phase::Handing && event
            == EventView::Handed(true),
    ensures
        ({
            let (t, action) = next(s, event, now);
            &&& t.pending == s.pending
            &&& t.backoff == s.backoff
            &&& if s.joins.len() > 0 {
                action == ActionView::Join(join(s.homeserver, s.access_token, s.joins[0]))
                    && t.joins == s.joins.skip(1) && t.phase == Phase::Working
            } else if s.pending.len() > 0 {
                action == ActionView::Count(
                    members(s.homeserver, s.access_token, s.pending[0].room_id),
                ) && t.joins == s.joins && t.phase == Phase::Counting
            } else {
                action == ActionView::Again && t.joins == s.joins && t.phase == Phase::Ready
            }
        }),
{
}

/// A message says what its event said, and carries the time at which it is
/// handed on. Its room is a group where more than two share it, or where nobody
/// knows how many do.
pub proof fn law_a_message_says_what_its_event_said(
    pending: PendingView,
    count: Option<nat>,
    now: Timestamp,
)
    ensures
        ({
            let message = complete(pending, is_group_of(count), now);
            &&& message.channel == ChannelType::Matrix
            &&& message.platform_message_id == pending.event_id
            &&& message.sender.platform_id == pending.room_id
            &&& message.sender.display_name == pending.sender
            &&& message.sender.openfang_user is None
            &&& message.content == pending.content
            &&& message.target_agent is None
            &&& message.timestamp == now
            &&& message.is_group <==> !(count matches Some(n) && n <= 2)
            &&& message.thread_id is None
            &&& message.metadata == noted(pending.mentioned, message.is_group)
        }),
{
}

/// The first waiting message is handed on once the homeserver told about its
/// room, whatever it told.
pub proof fn law_the_first_message_is_handed_on(
    s: LoopView,
    reply: Option<ReplyView>,
    now: Timestamp,
)
    requires
        s.phase == Phase::Counting,
        s.pending.len() > 0,
    ensures
        next(s, EventView::Counted(reply), now) == (
            LoopView { phase: Phase::Handing, pending: s.pending.skip(1), ..s },
            ActionView::Hand(complete(s.pending[0], is_group_of(member_count_of(reply)), now)),
        ),
{
}

/// After a reply the loop remembers what it remembered before and the
/// identifiers of all messages of others in the reply, and nothing else; unless
/// these are more than the memory holds.
pub proof fn law_a_reply_is_remembered(
    s: LoopView,
    reply: ReplyView,
    body: JsonTree,
    now: Timestamp,
)
    requires
        s.phase == Phase::Polling,
        document(reply) == Some(body),
        s.seen.union(
            new_ids(s.user_id, stream(s.allowed_rooms, joined_rooms(body))),
        ).finite(),
        s.seen.union(
            new_ids(s.user_id, stream(s.allowed_rooms, joined_rooms(body))),
        ).len() <= 500,
    ensures
        next(s, EventView::Replied(reply), now).0.seen == s.seen.union(
            new_ids(s.user_id, stream(s.allowed_rooms, joined_rooms(body))),
        ),
{
    law_memory_grows_by_the_events(
        s.user_id,
        stream(s.allowed_rooms, joined_rooms(body)),
        s.seen,
    );
}

/// A room that waits to be joined does not wait twice, as long as no object in a
/// reply has a name twice.
pub proof fn law_rooms_to_join_differ(s: LoopView, event: EventView, now: Timestamp)
    requires
        s.joins.no_duplicates(),
        event matches EventView::Replied(reply) ==> (document(reply) matches Some(body)
            ==> well_named(body)),
    ensures
        next(s, event, now).0.joins.no_duplicates(),
{
    if let EventView::Replied(reply) = event {
        if let Some(body) = document(reply) {
            law_no_room_is_invited_to_twice(s.allowed_rooms, body);
        }
    }
}

/// When an event comes makes no difference, but for the time that a message
/// carries.
pub proof fn law_time_only_stamps_messages(
    s: LoopView,
    event: EventView,
    now: Timestamp,
    later: Timestamp,
)
    ensures
        next(s, event, now).0 == next(s, event, later).0,
        match next(s, event, now).1 {
            ActionView::Hand(message) => message.timestamp == now && next(s, event, later).1
                == ActionView::Hand(MessageView { timestamp: later, ..message }),
            action => next(s, event, later).1 == action,
        },
{
}

/// The access token goes with every request that the loop makes.
pub proof fn law_every_request_carries_the_token(s: LoopView, event: EventView, now: Timestamp)
    ensures
        match next(s, event, now).1 {
            ActionView::Poll(request) => request.bearer == s.access_token,
            ActionView::Join(request) => request.bearer == s.access_token,
            ActionView::Count(request) => request.bearer == s.access_token,
            _ => true,
        },
{
}

/// A loop that was told to stop leaves, at its next turn or while it waits for
/// the homeserver. One whose messages nobody receives leaves too.
pub proof fn law_the_loop_stops_when_told(
    s: LoopView,
    since: Option<Seq<char>>,
    now: Timestamp,
)
    ensures
        s.phase == Phase::Ready ==> next(
            s,
            EventView::Turn { shutdown: true, since },
            now,
        ).1 is Exit,
        s.phase == Phase::Polling ==> next(s, EventView::Shutdown, now).1 is Exit,
        s.phase == Phase::Handing ==> next(s, EventView::Handed(false), now).1 is Exit,
{
}

/// A loop that was left does nothing more.
pub proof fn law_a_stopped_loop_does_nothing(
    s: LoopView,
    event: EventView,
    now: Timestamp,
    later_event: EventView,
    later: Timestamp,
)
    requires
        next(s, event, now).1 is Exit,
    ensures
        ({
            let t = next(s, event, now).0;
            next(t, later_event, later) == (t, ActionView::Ignore)
        }),
{
}

/// The homeserver is polled only at a turn at which the loop was not told to
/// stop.
pub proof fn law_only_turns_that_go_on_poll(s: LoopView, event: EventView, now: Timestamp)
    ensures
        next(s, event, now).1 is Poll ==> (event matches EventView::Turn { shutdown, .. }
            && !shutdown),
        next(s, event, now).0.phase == Phase::Polling && s.phase != Phase::Polling ==> next(
            s,
            event,
            now,
        ).1 is Poll,
{
}

/// The loop waits for such an event.
pub open spec fn awaited(phase: Phase, event: EventView) -> bool {
    match phase {
        Phase::Ready => event is Turn,
        Phase::Polling => event is Shutdown || event is Unreachable || event is Replied,
        Phase::Working => event is Finished,
        Phase::Counting => event is Counted,
        Phase::Handing => event is Handed,
        Phase::Stopped => false,
    }
}

/// Every turn tells the loop to stop.
pub open spec fn tells_to_stop(event: EventView) -> bool {
    event matches EventView::Turn { shutdown, .. } ==> shutdown
}

/// How many events a loop that is told to stop takes in at most until it
/// leaves. Of a loop that polls it says nothing: that depends on the reply.
pub open spec fn to_go(s: LoopView) -> nat {
    match s.phase {
        Phase::Ready => 1,
        Phase::Polling => 0,
        Phase::Working => s.joins.len() + 2 * s.pending.len() + 2,
        Phase::Counting => 2 * s.pending.len() + 1,
        Phase::Handing => 2 * s.pending.len() + 2,
        Phase::Stopped => 0,
    }
}

/// Between two turns every answer brings the loop nearer to its next turn, and
/// so does a turn at which it is told to stop to its end.
pub proof fn law_answers_bring_the_end_nearer(s: LoopView, event: EventView, now: Timestamp)
    requires
        sound(s),
        s.phase != Phase::Polling,
        awaited(s.phase, event),
        tells_to_stop(event),
    ensures
        next(s, event, now).0.phase != Phase::Polling,
        to_go(next(s, event, now).0) < to_go(s),
{
}

/// The state after events, each with its time.
pub open spec fn ran(s: LoopView, events: Seq<(EventView, Timestamp)>) -> LoopView
    decreases events.len(),
{
    if events.len() == 0 {
        s
    } else {
        next(ran(s, events.drop_last()), events.last().0, events.last().1).0
    }
}

/// What is to be done after the event `i`.
pub open spec fn act(s: LoopView, events: Seq<(EventView, Timestamp)>, i: int) -> ActionView {
    next(ran(s, events.take(i)), events[i].0, events[i].1).1
}

/// Each event is one that the loop waits for when it comes, and each turn tells
/// it to stop.
pub open spec fn stopping(s: LoopView, events: Seq<(EventView, Timestamp)>) -> bool
    decreases events.len(),
{
    events.len() == 0 || {
        &&& stopping(s, events.drop_last())
        &&& awaited(ran(s, events.drop_last()).phase, events.last().0)
        &&& tells_to_stop(events.last().0)
    }
}

/// Stopping is for good. A loop that is told to stop polls no more, takes in at
/// most the one reply that it waited for already, and leaves: what it still
/// takes in is limited by what it has left to do, and it ends with its leave.
pub proof fn law_a_loop_told_to_stop_leaves(s: LoopView, events: Seq<(EventView, Timestamp)>)
    requires
        sound(s),
        stopping(s, events),
    ensures
        sound(ran(s, events)),
        forall|i: int| 0 <= i < events.len() ==> !(#[trigger] act(s, events, i) is Poll),
        forall|i: int|
            0 <= i < events.len() && (#[trigger] events[i]).0 is Replied ==> i == 0 && s.phase
                == Phase::Polling,
        s.phase != Phase::Polling ==> events.len() + to_go(ran(s, events)) <= to_go(s),
        s.phase == Phase::Polling && events.len() > 0 ==> events.len() - 1 + to_go(ran(s, events))
            <= to_go(ran(s, events.take(1))),
        events.len() > 0 || s.phase != Phase::Polling ==> ran(s, events).phase != Phase::Polling
            && (to_go(ran(s, events)) == 0 <==> ran(s, events).phase == Phase::Stopped),
        events.len() > 0 && ran(s, events).phase == Phase::Stopped ==> act(
            s,
            events,
            events.len() - 1,
        ) is Exit,
    decreases events.len(),
{
    if events.len() > 0 {
        let init = events.drop_last();
        let (event, now) = events.last();
        law_a_loop_told_to_stop_leaves(s, init);
        let before = ran(s, init);
        law_the_loop_stays_sound(before, event, now);
        law_only_turns_that_go_on_poll(before, event, now);
        if before.phase != Phase::Polling {
            law_answers_bring_the_end_nearer(before, event, now);
        }
        assert(events.take(events.len() - 1) =~= init);
        assert forall|i: int| 0 <= i < events.len() implies !(#[trigger] act(s, events, i) is Poll) by {
            if i < init.len() {
                assert(init.take(i) =~= events.take(i));
                assert(!(act(s, init, i) is Poll));
            }
        }
        assert forall|i: int| 0 <= i < events.len() && (#[trigger] events[i]).0 is Replied implies i
            == 0 && s.phase == Phase::Polling by {
            if i < init.len() {
                assert(init[i] == events[i]);
            }
        }
        if init.len() > 0 {
            assert(init.take(1) =~= events.take(1));
        } else {
            assert(events.take(1) =~= events);
        }
    }
}

/// The messages that are handed on in a run.
pub open spec fn handed_on(s: LoopView, events: Seq<(EventView, Timestamp)>) -> Seq<MessageView>
    decreases events.len(),
{
    if events.len() == 0 {
        Seq::empty()
    } else {
        let earlier = handed_on(s, events.drop_last());
        match next(ran(s, events.drop_last()), events.last().0, events.last().1).1 {
            ActionView::Hand(message) => earlier.push(message),
            _ => earlier,
        }
    }
}

/// The identifiers of the messages of others that an event brings are among
/// these.
pub open spec fn brings_only(s: LoopView, event: EventView, ids: Set<Seq<char>>) -> bool {
    match event {
        EventView::Replied(reply) => match document(reply) {
            Some(body) => new_ids(
                s.user_id,
                stream(s.allowed_rooms, joined_rooms(body)),
            ).subset_of(ids),
            None => true,
        },
        _ => true,
    }
}

/// The identifiers of the messages that were handed on and of those that wait.
spec fn used_ids(out: Seq<MessageView>, waiting: Seq<PendingView>) -> Seq<Seq<char>> {
    Seq::new(
        out.len() + waiting.len(),
        |i: int|
            if i < out.len() {
                out[i].platform_message_id
            } else {
                waiting[i - out.len()].event_id
            },
    )
}

/// Identifiers that are all remembered, none of which was before, and no two of
/// which are the same; but for empty ones.
spec fn used_once(list: Seq<Seq<char>>, first: Set<Seq<char>>, seen: Set<Seq<char>>) -> bool {
    &&& forall|i: int|
        0 <= i < list.len() && (#[trigger] list[i]).len() > 0 ==> seen.contains(list[i])
            && !first.contains(list[i])
    &&& forall|i: int, j: int|
        0 <= i < j < list.len() && #[trigger] list[i] == #[trigger] list[j] ==> list[i].len() == 0
}

/// What a run keeps, as long as the memory is large enough.
proof fn lemma_ids_are_used_once(
    s: LoopView,
    events: Seq<(EventView, Timestamp)>,
    ids: Set<Seq<char>>,
)
    requires
        s.pending.len() == 0,
        s.seen.subset_of(ids),
        ids.finite(),
        ids.len() <= 500,
        forall|i: int| 0 <= i < events.len() ==> brings_only(s, (#[trigger] events[i]).0, ids),
    ensures
        ({
            let t = ran(s, events);
            &&& t.user_id == s.user_id
            &&& t.allowed_rooms == s.allowed_rooms
            &&& s.seen.subset_of(t.seen)
            &&& t.seen.subset_of(ids)
            &&& used_once(used_ids(handed_on(s, events), t.pending), s.seen, t.seen)
        }),
    decreases events.len(),
{
    if events.len() > 0 {
        let init = events.drop_last();
        let (event, now) = events.last();
        assert forall|i: int| 0 <= i < init.len() implies brings_only(
            s,
            (#[trigger] init[i]).0,
            ids,
        ) by {
            assert(init[i] == events[i]);
        }
        lemma_ids_are_used_once(s, init, ids);
        let b = ran(s, init);
        let out = handed_on(s, init);
        let before = used_ids(out, b.pending);
        let t = next(b, event, now).0;
        let after = used_ids(handed_on(s, events), t.pending);
        assert(brings_only(s, events[events.len() - 1].0, ids));
        law_only_replies_change_the_memory(b, event, now);
        if b.phase == Phase::Polling && event is Replied && document(event->Replied_0) is Some {
            let reply = event->Replied_0;
            let body = document(reply)->0;
            let stream = stream(s.allowed_rooms, joined_rooms(body));
            law_a_reply_is_taken_in_whole(b, reply, body, now);
            let all = b.seen.union(new_ids(s.user_id, stream));
            assert(all.subset_of(ids));
            vstd::set_lib::lemma_len_subset(all, ids);
            law_memory_grows_by_the_events(s.user_id, stream, b.seen);
            law_no_event_is_taken_twice(s.user_id, stream, b.seen);
            let messages = taken_all(s.user_id, stream, b.seen).1;
            assert(handed_on(s, events) == out);
            assert forall|i: int|
                0 <= i < after.len() && (#[trigger] after[i]).len() > 0 implies t.seen.contains(
                after[i],
            ) && !s.seen.contains(after[i]) by {
                if i < out.len() {
                    assert(after[i] == before[i]);
                } else {
                    assert(after[i] == messages[i - out.len()].event_id);
                }
            }
            assert forall|i: int, j: int|
                0 <= i < j < after.len() && #[trigger] after[i] == #[trigger] after[j] implies
                after[i].len() == 0 by {
                if j < out.len() {
                    assert(after[i] == before[i] && after[j] == before[j]);
                } else {
                    assert(after[j] == messages[j - out.len()].event_id);
                    if i < out.len() {
                        assert(after[i] == before[i]);
                    } else {
                        assert(after[i] == messages[i - out.len()].event_id);
                    }
                }
            }
        } else {
            assert(t.seen == b.seen);
            assert(after =~= before);
        }
    }
}

/// Nothing is handed on twice. In any run, whatever replies come in it and in
/// whatever order, no two messages with the same identifier are handed on, and
/// none that was remembered before; unless the messages of others in all the
/// replies, with what was remembered before, are more than the memory holds.
pub proof fn law_nothing_is_handed_on_twice(
    s: LoopView,
    events: Seq<(EventView, Timestamp)>,
    ids: Set<Seq<char>>,
)
    requires
        s.pending.len() == 0,
        s.seen.subset_of(ids),
        ids.finite(),
        ids.len() <= 500,
        forall|i: int| 0 <= i < events.len() ==> brings_only(s, (#[trigger] events[i]).0, ids),
    ensures
        ({
            let out = handed_on(s, events);
            &&& forall|i: int, j: int|
                0 <= i < j < out.len() && (#[trigger] out[i]).platform_message_id == (
                #[trigger] out[j]).platform_message_id ==> out[i].platform_message_id.len() == 0
            &&& forall|i: int|
                0 <= i < out.len() && (#[trigger] out[i]).platform_message_id.len() > 0
                    ==> !s.seen.contains(out[i].platform_message_id)
        }),
{
    lemma_ids_are_used_once(s, events, ids);
    let out = handed_on(s, events);
    let list = used_ids(out, ran(s, events).pending);
    assert forall|i: int| 0 <= i < out.len() implies list[i] == (
    #[trigger] out[i]).platform_message_id by {}
}

/// The pause after `n` pauses in a row.
pub open spec fn pause_after(n: nat) -> u64
    decreases n,
{
    if n == 0 {
        FIRST_BACKOFF_SECS
    } else {
        doubled(pause_after((n - 1) as nat))
    }
}

/// The pauses double, from the first up to the longest.
pub proof fn law_pauses_double(n: nat)
    ensures
        pause_after(n) == (if pow2(n) < MAX_BACKOFF_SECS {
            pow2(n)
        } else {
            MAX_BACKOFF_SECS as nat
        }),
    decreases n,
{
    if n == 0 {
        lemma2_to64();
    } else {
        law_pauses_double((n - 1) as nat);
        lemma_pow2_unfold(n);
    }
}

/// An event that tells that a sync request failed.
pub open spec fn is_failure(event: EventView) -> bool {
    match event {
        EventView::Unreachable => true,
        EventView::Replied(reply) => !success(reply.status),
        _ => false,
    }
}

/// The state after turns that ended with these events.
pub open spec fn after_turns(
    s: LoopView,
    since: Option<Seq<char>>,
    events: Seq<EventView>,
    now: Timestamp,
) -> LoopView
    decreases events.len(),
{
    if events.len() == 0 {
        s
    } else {
        let before = after_turns(s, since, events.drop_last(), now);
        let polling = next(before, EventView::Turn { shutdown: false, since }, now).0;
        next(polling, events.last(), now).0
    }
}

/// Failed sync requests are tried again, after longer and longer pauses, and
/// change nothing else: nothing is forgotten and nothing is lost.
pub proof fn law_failures_only_lengthen_the_pause(
    s: LoopView,
    since: Option<Seq<char>>,
    events: Seq<EventView>,
    failure: EventView,
    now: Timestamp,
)
    requires
        s.phase == Phase::Ready,
        s.backoff == FIRST_BACKOFF_SECS,
        forall|i: int| 0 <= i < events.len() ==> is_failure(#[trigger] events[i]),
        is_failure(failure),
    ensures
        after_turns(s, since, events, now) == (LoopView {
            backoff: pause_after(events.len()),
            ..s
        }),
        ({
            let turn = next(
                after_turns(s, since, events, now),
                EventView::Turn { shutdown: false, since },
                now,
            );
            &&& turn.1 == ActionView::Poll(next_sync(s.homeserver, s.access_token, since))
            &&& next(turn.0, failure, now).1 == ActionView::Pause(pause_after(events.len()))
        }),
    decreases events.len(),
{
    if events.len() > 0 {
        let init = events.drop_last();
        assert forall|i: int| 0 <= i < init.len() implies is_failure(#[trigger] init[i]) by {
            assert(init[i] == events[i]);
        }
        law_failures_only_lengthen_the_pause(s, since, init, failure, now);
        assert(is_failure(events[events.len() - 1]));
    }
}

/// A sync request that succeeds ends the pauses, whatever its reply holds.
pub proof fn law_success_ends_the_pauses(s: LoopView, reply: ReplyView, now: Timestamp)
    requires
        s.phase == Phase::Polling,
        success(reply.status),
    ensures
        next(s, EventView::Replied(reply), now).0.backoff == FIRST_BACKOFF_SECS,
{
}

/// A reply that cannot be read is as if there had been none, but for the
/// pauses: the loop asks again at once.
pub proof fn law_unreadable_replies_are_asked_for_again(
    s: LoopView,
    reply: ReplyView,
    now: Timestamp,
)
    requires
        s.phase == Phase::Polling,
        success(reply.status),
        document(reply) is None,
    ensures
        next(s, EventView::Replied(reply), now) == (
            LoopView { phase: Phase::Ready, backoff: FIRST_BACKOFF_SECS, ..s },
            ActionView::Again,
        ),
{
}

/// The place at which a reply ends is kept before anything else is done, and
/// a turn `t` that is taken with that place asks for what comes after it.
pub proof fn law_the_next_request_goes_on_where_the_reply_ended(
    s: LoopView,
    reply: ReplyView,
    token: Seq<char>,
    t: LoopView,
    now: Timestamp,
)
    requires
        s.phase == Phase::Polling,
        document(reply) is Some,
        next_batch_of(document(reply)->0) == Some(token),
        t.phase == Phase::Ready,
    ensures
        next(s, EventView::Replied(reply), now).1 == ActionView::Store(token),
        next(t, EventView::Turn { shutdown: false, since: Some(token) }, now).1
            == ActionView::Poll(next_sync(t.homeserver, t.access_token, Some(token))),
        next_sync(t.homeserver, t.access_token, Some(token)).url == next_sync(
            t.homeserver,
            t.access_token,
            None,
        ).url + "&since="@ + token,
{
}

/// Before the first turn the loop is where the first sync found the event
/// stream, so that what is old is not read.
pub proof fn law_old_messages_are_not_read(
    since: Option<Seq<char>>,
    reply: ReplyView,
    token: Seq<char>,
)
    requires
        document(reply) is Some,
        next_batch_of(document(reply)->0) == Some(token),
    ensures
        caught_up(since, Some(reply)) == Some(token),
{
}

/// The state after `n` errands.
pub open spec fn after_errands(s: LoopView, n: nat, now: Timestamp) -> LoopView
    decreases n,
{
    if n == 0 {
        s
    } else {
        next(after_errands(s, (n - 1) as nat, now), EventView::Finished, now).0
    }
}

/// The rooms that a reply invites to are joined one after the other, before any
/// message is handed on.
pub proof fn law_rooms_are_joined_in_order(s: LoopView, n: nat, now: Timestamp)
    requires
        s.phase == Phase::Working,
        n <= s.joins.len(),
    ensures
        after_errands(s, n, now) == (LoopView { joins: s.joins.skip(n as int), ..s }),
        n < s.joins.len() ==> next(after_errands(s, n, now), EventView::Finished, now).1
            == ActionView::Join(join(s.homeserver, s.access_token, s.joins[n as int])),
    decreases n,
{
    if n == 0 {
        assert(s.joins.skip(0) =~= s.joins);
    } else {
        law_rooms_are_joined_in_order(s, (n - 1) as nat, now);
        assert(s.joins.skip(n - 1).skip(1) =~= s.joins.skip(n as int));
    }
}

/// The messages that are handed on, each received, when the homeserver gives
/// these replies about the sizes of their rooms, each at its time; and the
/// state afterwards.
pub open spec fn served(s: LoopView, replies: Seq<(Option<ReplyView>, Timestamp)>) -> (
    LoopView,
    Seq<MessageView>,
)
    decreases replies.len(),
{
    if replies.len() == 0 {
        (s, Seq::empty())
    } else {
        let (before, messages) = served(s, replies.drop_last());
        let (reply, now) = replies.last();
        let (handing, action) = next(before, EventView::Counted(reply), now);
        match action {
            ActionView::Hand(message) => (
                next(handing, EventView::Handed(true), now).0,
                messages.push(message),
            ),
            _ => (handing, messages),
        }
    }
}

/// All messages of a reply are handed on, one after the other and in order,
/// each with its own time, and then the loop takes its next turn.
pub proof fn law_messages_are_handed_on_in_order(
    s: LoopView,
    replies: Seq<(Option<ReplyView>, Timestamp)>,
)
    requires
        s.phase == Phase::Counting,
        s.joins.len() == 0,
        replies.len() <= s.pending.len(),
    ensures
        ({
            let (after, messages) = served(s, replies);
            &&& messages == Seq::new(
                replies.len(),
                |i: int|
                    complete(
                        s.pending[i],
                        is_group_of(member_count_of(replies[i].0)),
                        replies[i].1,
                    ),
            )
            &&& after == (LoopView {
                pending: s.pending.skip(replies.len() as int),
                phase: if replies.len() < s.pending.len() || replies.len() == 0 {
                    Phase::Counting
                } else {
                    Phase::Ready
                },
                ..s
            })
        }),
    decreases replies.len(),
{
    if replies.len() == 0 {
        assert(s.pending.skip(0) =~= s.pending);
        assert(served(s, replies).1 =~= Seq::new(
            0,
            |i: int|
                complete(
                    s.pending[i],
                    is_group_of(member_count_of(replies[i].0)),
                    replies[i].1,
                ),
        ));
    } else {
        let init = replies.drop_last();
        let n = init.len() as int;
        law_messages_are_handed_on_in_order(s, init);
        let (before, messages) = served(s, init);
        assert(before.pending[0] == s.pending[n]);
        assert(before.pending.skip(1) =~= s.pending.skip(n + 1));
        assert(served(s, replies).1 =~= Seq::new(
            replies.len(),
            |i: int|
                complete(
                    s.pending[i],
                    is_group_of(member_count_of(replies[i].0)),
                    replies[i].1,
                ),
        ));
    }
}

/// A message is noted as a mention where it mentions the bot or is direct, and
/// as direct where it is. Nothing else is noted.
pub proof fn law_direct_messages_count_as_mentions(mentioned: bool, is_group: bool)
    ensures
        noted(mentioned, is_group).dom().contains("was_mentioned"@) <==> mentioned || !is_group,
        noted(mentioned, is_group).dom().contains("is_dm"@) <==> !is_group,
        forall|name: Seq<char>| #[trigger]
            noted(mentioned, is_group).dom().contains(name) ==> noted(mentioned, is_group)[name]
                == JsonTree::Bool(true) && (name == "was_mentioned"@ || name == "is_dm"@),
{
    reveal_strlit("was_mentioned");
    reveal_strlit("is_dm");
    assert("was_mentioned"@.len() != "is_dm"@.len());
}

} // verus!
