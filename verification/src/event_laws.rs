//! Laws of the events that become messages.

use vstd::prelude::*;

use crate::content::content_of;
use crate::events::{
    allowed, invitations, joined_rooms, mentions, room_stream, stream, taken, taken_all, timeline,
    with_last, PendingView,
};
use crate::json::{
    at, lemma_names_differ, lemma_parts_are_well_named, members_of, names_of, text_or_empty,
    well_named, JsonTree,
};
use crate::seen::MAX_SEEN;
use crate::text_laws::law_a_text_stands_between_others;

verus! {

/// The identifier of an event, empty where it has none.
pub open spec fn id_of(event: JsonTree) -> Seq<char> {
    text_or_empty(at(event, "event_id"@))
}

/// The text of a message event, empty where it has none.
pub open spec fn body_of(event: JsonTree) -> Seq<char> {
    text_or_empty(at(at(event, "content"@), "body"@))
}

/// An event is a message of somebody else than `user`.
pub open spec fn from_others(user: Seq<char>, event: JsonTree) -> bool {
    &&& text_or_empty(at(event, "type"@)) == "m.room.message"@
    &&& text_or_empty(at(event, "sender"@)) != user
}

/// The message that an event of `room` makes.
pub open spec fn made_of(user: Seq<char>, room: Seq<char>, event: JsonTree) -> PendingView {
    PendingView {
        room_id: room,
        sender: text_or_empty(at(event, "sender"@)),
        event_id: id_of(event),
        content: content_of(body_of(event)),
        mentioned: mentions(at(event, "content"@), user),
    }
}

/// `message` is made of one of the events: one that somebody else sent and
/// that has a text.
pub open spec fn has_source(
    user: Seq<char>,
    events: Seq<(Seq<char>, JsonTree)>,
    message: PendingView,
) -> bool {
    exists|k: int|
        #![trigger events[k]]
        0 <= k < events.len() && from_others(user, events[k].1) && body_of(events[k].1).len() > 0
            && message == made_of(user, events[k].0, events[k].1)
}

/// A room is listened to exactly where the list names it or is empty.
pub proof fn law_the_list_says_what_is_allowed(rooms: Seq<Seq<char>>, room: Seq<char>)
    ensures
        allowed(rooms, room) <==> rooms.len() == 0 || exists|i: int|
            0 <= i < rooms.len() && #[trigger] rooms[i] == room,
{
}

/// Whoever names the bot mentions it: anywhere in the text, anywhere in the
/// formatted text, or at any place `k` of the list of mentions.
pub proof fn law_naming_the_bot_is_a_mention(
    content: JsonTree,
    user: Seq<char>,
    a: Seq<char>,
    b: Seq<char>,
    k: int,
)
    ensures
        at(content, "body"@) == JsonTree::Text(a + user + b) ==> mentions(content, user),
        at(content, "formatted_body"@) == JsonTree::Text(a + user + b) ==> mentions(content, user),
        at(at(content, "m.mentions"@), "user_ids"@) matches JsonTree::Array(ids) ==> (0 <= k
            < ids.len() && ids[k] == JsonTree::Text(user) ==> mentions(content, user)),
{
    law_a_text_stands_between_others(user, a + user + b);
}

/// Nothing else is a mention. (The empty name stands in every text.)
pub proof fn law_only_naming_the_bot_is_a_mention(content: JsonTree, user: Seq<char>)
    requires
        mentions(content, user),
        user.len() > 0,
    ensures
        ({
            ||| exists|a: Seq<char>, b: Seq<char>|
                #![trigger a + user + b]
                at(content, "body"@) == JsonTree::Text(a + user + b)
            ||| exists|a: Seq<char>, b: Seq<char>|
                #![trigger a + user + b]
                at(content, "formatted_body"@) == JsonTree::Text(a + user + b)
            ||| (at(at(content, "m.mentions"@), "user_ids"@) matches JsonTree::Array(ids)
                && exists|k: int|
                0 <= k < ids.len() && #[trigger] ids[k] == JsonTree::Text(user))
        }),
{
    if let JsonTree::Text(text) = at(content, "body"@) {
        law_a_text_stands_between_others(user, text);
    }
    if let JsonTree::Text(text) = at(content, "formatted_body"@) {
        law_a_text_stands_between_others(user, text);
    }
}

/// The type of an event is that of messages exactly where that text stands there.
proof fn lemma_message_type(event: JsonTree)
    ensures
        text_or_empty(at(event, "type"@)) == "m.room.message"@ <==> at(event, "type"@)
            == JsonTree::Text("m.room.message"@),
{
    reveal_strlit("m.room.message");
    assert("m.room.message"@.len() > 0);
}

/// Which events become messages, and with what in them. It is those of the
/// message type that somebody else sent, that have a text, and whose identifier
/// is not remembered; nothing else about an event, or about a text, matters.
pub proof fn law_which_events_become_messages(
    user: Seq<char>,
    room: Seq<char>,
    event: JsonTree,
    seen: Set<Seq<char>>,
)
    ensures
        ({
            let sender = match at(event, "sender"@) {
                JsonTree::Text(name) => name,
                _ => Seq::empty(),
            };
            let id = match at(event, "event_id"@) {
                JsonTree::Text(name) => name,
                _ => Seq::empty(),
            };
            let content = at(event, "content"@);
            let message = taken(user, room, event, seen).1;
            &&& message is Some <==> (at(event, "type"@) == JsonTree::Text("m.room.message"@)
                && sender != user && (at(content, "body"@) matches JsonTree::Text(body)
                && body.len() > 0) && !(id.len() > 0 && seen.contains(id)))
            &&& message matches Some(m) ==> {
                &&& m.room_id == room
                &&& m.sender == sender
                &&& m.event_id == id
                &&& m.content == content_of(at(content, "body"@)->Text_0)
                &&& m.mentioned == mentions(content, user)
            }
        }),
{
    lemma_message_type(event);
}

/// What is remembered once an event was taken: what was remembered before, and
/// the identifier of a message of somebody else, whether or not it has a text;
/// nothing at all once that would be more than five hundred.
pub proof fn law_what_is_remembered_of_an_event(
    user: Seq<char>,
    room: Seq<char>,
    event: JsonTree,
    seen: Set<Seq<char>>,
)
    requires
        seen.finite(),
    ensures
        ({
            let after = taken(user, room, event, seen).0;
            let counts = at(event, "type"@) == JsonTree::Text("m.room.message"@)
                && (match at(event, "sender"@) {
                JsonTree::Text(name) => name != user,
                _ => user.len() > 0,
            }) && (at(event, "event_id"@) matches JsonTree::Text(id) && id.len() > 0
                && !seen.contains(id));
            &&& !counts ==> after == seen
            &&& counts && seen.len() < 500 ==> after == seen.insert(at(event, "event_id"@)->Text_0)
            &&& counts && seen.len() >= 500 ==> after == Set::<Seq<char>>::empty()
        }),
{
    lemma_message_type(event);
    let sender = text_or_empty(at(event, "sender"@));
    if !(at(event, "sender"@) is Text) {
        assert(sender == user <==> user.len() == 0) by {
            if user.len() == 0 {
                assert(user =~= sender);
            }
        }
    }
}

/// One event is taken as such, and no events leave everything as it is. With
/// what holds of events that come one after the other this says what becomes of
/// any events.
pub proof fn law_events_are_taken_one_by_one(
    user: Seq<char>,
    room: Seq<char>,
    event: JsonTree,
    seen: Set<Seq<char>>,
)
    ensures
        taken_all(user, Seq::empty(), seen) == (seen, Seq::<PendingView>::empty()),
        ({
            let (after, message) = taken(user, room, event, seen);
            taken_all(user, seq![(room, event)], seen) == (
                after,
                match message {
                    Some(m) => seq![m],
                    None => Seq::empty(),
                },
            )
        }),
{
    let one = seq![(room, event)];
    assert(one.drop_last() =~= Seq::empty());
    assert(taken_all(user, one.drop_last(), seen) == (seen, Seq::<PendingView>::empty()));
    let (after, message) = taken(user, room, event, seen);
    if let Some(m) = message {
        assert(Seq::<PendingView>::empty().push(m) =~= seq![m]);
    }
}

/// Every event in the timeline of a room that is allowed is listened to, in
/// order and whatever else the timeline holds; no other room is.
pub proof fn law_a_timeline_is_listened_to_whole(
    rooms: Seq<Seq<char>>,
    room: Seq<char>,
    data: JsonTree,
)
    ensures
        ({
            let events = stream(rooms, seq![(room, data)]);
            if rooms.len() == 0 || rooms.contains(room) {
                match at(at(data, "timeline"@), "events"@) {
                    JsonTree::Array(items) => {
                        &&& events.len() == items.len()
                        &&& forall|k: int|
                            0 <= k < items.len() ==> #[trigger] events[k] == (room, items[k])
                    },
                    _ => events.len() == 0,
                }
            } else {
                events.len() == 0
            }
        }),
{
    let one = seq![(room, data)];
    assert(one.drop_last() =~= Seq::empty());
    assert(stream(rooms, one.drop_last()) =~= Seq::empty());
    assert(stream(rooms, one) =~= if allowed(rooms, room) {
        room_stream(room, data)
    } else {
        Seq::empty()
    });
}

/// Rooms are listened to one after the other, and the rooms that a reply lists
/// are those of the object at `join`.
pub proof fn law_rooms_are_listened_to_in_order(
    rooms: Seq<Seq<char>>,
    a: Seq<(Seq<char>, JsonTree)>,
    b: Seq<(Seq<char>, JsonTree)>,
    body: JsonTree,
)
    ensures
        stream(rooms, a + b) == stream(rooms, a) + stream(rooms, b),
        stream(rooms, Seq::empty()).len() == 0,
        match at(at(body, "rooms"@), "join"@) {
            JsonTree::Object(joined) => joined_rooms(body) == joined,
            _ => joined_rooms(body).len() == 0,
        },
    decreases b.len(),
{
    if b.len() == 0 {
        assert(a + b =~= a);
        assert(stream(rooms, a) + stream(rooms, b) =~= stream(rooms, a));
    } else {
        let init = b.drop_last();
        law_rooms_are_listened_to_in_order(rooms, a, init, body);
        assert((a + b).drop_last() =~= a + init);
        assert((a + b).last() == b.last());
        let last = room_stream(b.last().0, b.last().1);
        assert(stream(rooms, a) + (stream(rooms, init) + last) =~= (stream(rooms, a) + stream(
            rooms,
            init,
        )) + last);
    }
}

/// The rooms that a reply invites to are those of the object at `invite` that
/// are allowed, in order.
pub proof fn law_invitations_stand_at_invite(rooms: Seq<Seq<char>>, body: JsonTree)
    ensures
        match at(at(body, "rooms"@), "invite"@) {
            JsonTree::Object(invited) => invitations(rooms, body) == Seq::new(
                invited.len(),
                |i: int| invited[i].0,
            ).filter(|room: Seq<char>| rooms.len() == 0 || rooms.contains(room)),
            _ => invitations(rooms, body).len() == 0,
        },
{
    let ok = |room: Seq<char>| allowed(rooms, room);
    match at(at(body, "rooms"@), "invite"@) {
        JsonTree::Object(invited) => {
            assert(names_of(invited) =~= Seq::new(invited.len(), |i: int| invited[i].0));
            assert(ok =~= |room: Seq<char>| rooms.len() == 0 || rooms.contains(room));
        },
        _ => {
            reveal(Seq::filter);
        },
    }
}

/// Every message comes from an event of its room that somebody else sent and
/// that has a text.
pub proof fn law_messages_come_from_events(
    user: Seq<char>,
    events: Seq<(Seq<char>, JsonTree)>,
    seen: Set<Seq<char>>,
)
    ensures
        forall|i: int|
            0 <= i < taken_all(user, events, seen).1.len() ==> has_source(
                user,
                events,
                #[trigger] taken_all(user, events, seen).1[i],
            ),
    decreases events.len(),
{
    let out = taken_all(user, events, seen).1;
    if events.len() > 0 {
        let init = events.drop_last();
        let n = events.len() - 1;
        law_messages_come_from_events(user, init, seen);
        let (before, list) = taken_all(user, init, seen);
        assert forall|i: int| 0 <= i < out.len() implies has_source(
            user,
            events,
            #[trigger] out[i],
        ) by {
            if i < list.len() {
                assert(out[i] == list[i]);
                assert(has_source(user, init, list[i]));
                let k = choose|k: int|
                    #![trigger init[k]]
                    0 <= k < init.len() && from_others(user, init[k].1) && body_of(
                        init[k].1,
                    ).len() > 0 && list[i] == made_of(user, init[k].0, init[k].1);
                assert(events[k] == init[k]);
            } else {
                assert(events[n] == events.last());
            }
        }
    }
}

/// An event stands in the timeline of a joined room.
pub open spec fn in_timeline(
    joined: Seq<(Seq<char>, JsonTree)>,
    room: Seq<char>,
    event: JsonTree,
) -> bool {
    exists|m: int|
        #![trigger joined[m]]
        0 <= m < joined.len() && joined[m].0 == room && timeline(joined[m].1).contains(event)
}

/// Only rooms that are allowed are listened to, and every event is one of the
/// timeline of its room.
pub proof fn law_events_come_from_allowed_rooms(
    rooms: Seq<Seq<char>>,
    joined: Seq<(Seq<char>, JsonTree)>,
)
    ensures
        forall|k: int|
            0 <= k < stream(rooms, joined).len() ==> {
                let (room, event) = #[trigger] stream(rooms, joined)[k];
                allowed(rooms, room) && in_timeline(joined, room, event)
            },
    decreases joined.len(),
{
    let all = stream(rooms, joined);
    if joined.len() > 0 {
        let init = joined.drop_last();
        let n = joined.len() - 1;
        law_events_come_from_allowed_rooms(rooms, init);
        let first = stream(rooms, init);
        let last = room_stream(joined.last().0, joined.last().1);
        assert forall|k: int| 0 <= k < all.len() implies {
            let (room, event) = #[trigger] all[k];
            allowed(rooms, room) && in_timeline(joined, room, event)
        } by {
            if k < first.len() {
                assert(all[k] == first[k]);
                let m = choose|m: int|
                    #![trigger init[m]]
                    0 <= m < init.len() && init[m].0 == first[k].0 && timeline(
                        init[m].1,
                    ).contains(first[k].1);
                assert(joined[m] == init[m]);
            } else {
                let j = k - first.len();
                assert(all[k] == last[j]);
                assert(last[j].1 == timeline(joined.last().1)[j]);
                assert(joined[n] == joined.last());
            }
        }
    }
}

/// Every event of the timeline of an allowed room is listened to.
pub proof fn law_allowed_rooms_are_listened_to(
    rooms: Seq<Seq<char>>,
    joined: Seq<(Seq<char>, JsonTree)>,
    room: Seq<char>,
    event: JsonTree,
)
    requires
        allowed(rooms, room),
        in_timeline(joined, room, event),
    ensures
        stream(rooms, joined).contains((room, event)),
    decreases joined.len(),
{
    let m = choose|m: int|
        #![trigger joined[m]]
        0 <= m < joined.len() && joined[m].0 == room && timeline(joined[m].1).contains(event);
    let init = joined.drop_last();
    let first = stream(rooms, init);
    let all = stream(rooms, joined);
    if m < init.len() {
        assert(init[m] == joined[m]);
        law_allowed_rooms_are_listened_to(rooms, init, room, event);
        let k = choose|k: int| 0 <= k < first.len() && first[k] == (room, event);
        assert(all[k] == (room, event));
    } else {
        let j = choose|j: int|
            0 <= j < timeline(joined[m].1).len() && timeline(joined[m].1)[j] == event;
        let last = room_stream(room, joined[m].1);
        assert(last[j] == (room, event));
        assert(all[first.len() + j] == last[j]);
    }
}

/// What is remembered afterwards was remembered before, or is the identifier
/// of one of the messages of others.
proof fn lemma_remembered_sources(
    user: Seq<char>,
    events: Seq<(Seq<char>, JsonTree)>,
    seen: Set<Seq<char>>,
)
    ensures
        forall|id: Seq<char>| #[trigger]
            taken_all(user, events, seen).0.contains(id) ==> seen.contains(id) || (exists|k: int|
                #![trigger events[k]]
                0 <= k < events.len() && from_others(user, events[k].1) && id_of(events[k].1)
                    == id),
    decreases events.len(),
{
    if events.len() > 0 {
        let init = events.drop_last();
        let n = events.len() - 1;
        lemma_remembered_sources(user, init, seen);
        let after = taken_all(user, events, seen).0;
        let before = taken_all(user, init, seen).0;
        assert forall|id: Seq<char>| #[trigger] after.contains(id) implies seen.contains(id)
            || exists|k: int|
            #![trigger events[k]]
            0 <= k < events.len() && from_others(user, events[k].1) && id_of(events[k].1) == id by {
            if before.contains(id) {
                if !seen.contains(id) {
                    let k = choose|k: int|
                        #![trigger init[k]]
                        0 <= k < init.len() && from_others(user, init[k].1) && id_of(init[k].1)
                            == id;
                    assert(events[k] == init[k]);
                }
            } else {
                assert(events[n] == events.last());
                assert(id_of(events[n].1) == id);
            }
        }
    }
}

/// A message of somebody else, with a text, becomes a message, unless its
/// identifier was remembered before or belongs to an earlier message of
/// somebody else, too.
pub proof fn law_fresh_messages_arrive(
    user: Seq<char>,
    events: Seq<(Seq<char>, JsonTree)>,
    seen: Set<Seq<char>>,
    k: int,
)
    requires
        0 <= k < events.len(),
        from_others(user, events[k].1),
        body_of(events[k].1).len() > 0,
        id_of(events[k].1).len() > 0 ==> !seen.contains(id_of(events[k].1)) && forall|j: int|
            0 <= j < k && from_others(user, (#[trigger] events[j]).1) ==> id_of(events[j].1)
                != id_of(events[k].1),
    ensures
        taken_all(user, events, seen).1.contains(made_of(user, events[k].0, events[k].1)),
    decreases events.len(),
{
    let init = events.drop_last();
    let message = made_of(user, events[k].0, events[k].1);
    let (before, list) = taken_all(user, init, seen);
    let out = taken_all(user, events, seen).1;
    let extra = taken(user, events.last().0, events.last().1, before).1;
    assert(out == with_last(list, extra));
    if k < events.len() - 1 {
        assert(init[k] == events[k]);
        assert forall|j: int|
            0 <= j < k && id_of(events[k].1).len() > 0 && from_others(
                user,
                (#[trigger] init[j]).1,
            ) implies id_of(init[j].1) != id_of(events[k].1) by {
            assert(init[j] == events[j]);
        }
        law_fresh_messages_arrive(user, init, seen, k);
        let i = choose|i: int| 0 <= i < list.len() && list[i] == message;
        assert(out[i] == message);
    } else {
        lemma_remembered_sources(user, init, seen);
        let id = id_of(events[k].1);
        if id.len() > 0 && before.contains(id) {
            let j = choose|j: int|
                #![trigger init[j]]
                0 <= j < init.len() && from_others(user, init[j].1) && id_of(init[j].1) == id;
            assert(init[j] == events[j]);
        }
        assert(extra == Some(message));
        assert(out[list.len() as int] == message);
    }
}

/// Taking an event makes the memory overflow.
pub open spec fn overflows(user: Seq<char>, event: JsonTree, seen: Set<Seq<char>>) -> bool {
    &&& from_others(user, event)
    &&& id_of(event).len() > 0
    &&& !seen.contains(id_of(event))
    &&& seen.insert(id_of(event)).len() > MAX_SEEN
}

/// Nothing is forgotten while the events are taken.
pub open spec fn keeps_all(
    user: Seq<char>,
    events: Seq<(Seq<char>, JsonTree)>,
    seen: Set<Seq<char>>,
) -> bool
    decreases events.len(),
{
    events.len() == 0 || {
        &&& keeps_all(user, events.drop_last(), seen)
        &&& !overflows(user, events.last().1, taken_all(user, events.drop_last(), seen).0)
    }
}

/// Nothing is forgotten where the memory has room for one entry more for each
/// event.
pub proof fn law_memory_suffices(
    user: Seq<char>,
    events: Seq<(Seq<char>, JsonTree)>,
    seen: Set<Seq<char>>,
)
    requires
        seen.finite(),
        seen.len() + events.len() <= MAX_SEEN,
    ensures
        keeps_all(user, events, seen),
        taken_all(user, events, seen).0.finite(),
        taken_all(user, events, seen).0.len() <= seen.len() + events.len(),
    decreases events.len(),
{
    if events.len() > 0 {
        let init = events.drop_last();
        law_memory_suffices(user, init, seen);
        let before = taken_all(user, init, seen).0;
        assert(before.insert(id_of(events.last().1)).len() <= before.len() + 1);
    }
}

/// Nothing is forgotten where all identifiers, those remembered and those of the
/// events, fit into the memory.
proof fn lemma_all_fit(
    user: Seq<char>,
    events: Seq<(Seq<char>, JsonTree)>,
    seen: Set<Seq<char>>,
    all: Set<Seq<char>>,
)
    requires
        all.finite(),
        all.len() <= MAX_SEEN,
        seen.subset_of(all),
        forall|k: int|
            0 <= k < events.len() && from_others(user, (#[trigger] events[k]).1) && id_of(
                events[k].1,
            ).len() > 0 ==> all.contains(id_of(events[k].1)),
    ensures
        keeps_all(user, events, seen),
        taken_all(user, events, seen).0.subset_of(all),
    decreases events.len(),
{
    if events.len() > 0 {
        let init = events.drop_last();
        assert forall|k: int|
            0 <= k < init.len() && from_others(user, (#[trigger] init[k]).1) && id_of(
                init[k].1,
            ).len() > 0 implies all.contains(id_of(init[k].1)) by {
            assert(init[k] == events[k]);
        }
        lemma_all_fit(user, init, seen, all);
        let event = events.last().1;
        assert(events[events.len() - 1].1 == event);
        let before = taken_all(user, init, seen).0;
        if from_others(user, event) && id_of(event).len() > 0 {
            vstd::set_lib::lemma_len_subset(before.insert(id_of(event)), all);
        }
    }
}

/// The identifiers of the messages of others among the events.
pub open spec fn new_ids(user: Seq<char>, events: Seq<(Seq<char>, JsonTree)>) -> Set<Seq<char>> {
    Set::new(
        |id: Seq<char>|
            id.len() > 0 && exists|k: int|
                #![trigger events[k]]
                0 <= k < events.len() && from_others(user, events[k].1) && id_of(events[k].1)
                    == id,
    )
}

/// Once events were taken, what was remembered before is remembered, and so are
/// the identifiers of all messages of others among them, and nothing else; unless
/// these are more than the memory holds.
pub proof fn law_memory_grows_by_the_events(
    user: Seq<char>,
    events: Seq<(Seq<char>, JsonTree)>,
    seen: Set<Seq<char>>,
)
    requires
        seen.union(new_ids(user, events)).finite(),
        seen.union(new_ids(user, events)).len() <= 500,
    ensures
        taken_all(user, events, seen).0 == seen.union(new_ids(user, events)),
        keeps_all(user, events, seen),
{
    let all = seen.union(new_ids(user, events));
    assert forall|k: int|
        0 <= k < events.len() && from_others(user, (#[trigger] events[k]).1) && id_of(
            events[k].1,
        ).len() > 0 implies all.contains(id_of(events[k].1)) by {}
    lemma_all_fit(user, events, seen, all);
    law_no_event_is_taken_twice(user, events, seen);
    lemma_taken_is_remembered(user, events, seen);
    let after = taken_all(user, events, seen).0;
    assert forall|id: Seq<char>| all.contains(id) implies after.contains(id) by {
        if !seen.contains(id) {
            let k = choose|k: int|
                #![trigger events[k]]
                0 <= k < events.len() && from_others(user, events[k].1) && id_of(events[k].1)
                    == id;
            assert(after.contains(id_of(events[k].1)));
        }
    }
    assert(after =~= all);
}

/// No event becomes a message twice. As long as nothing is forgotten, what was
/// remembered stays remembered, the messages with an identifier are remembered
/// too, none of them was before, and no two of them have the same.
pub proof fn law_no_event_is_taken_twice(
    user: Seq<char>,
    events: Seq<(Seq<char>, JsonTree)>,
    seen: Set<Seq<char>>,
)
    requires
        keeps_all(user, events, seen),
    ensures
        ({
            let (after, out) = taken_all(user, events, seen);
            &&& seen.subset_of(after)
            &&& forall|i: int|
                0 <= i < out.len() && (#[trigger] out[i]).event_id.len() > 0 ==> after.contains(
                    out[i].event_id,
                ) && !seen.contains(out[i].event_id)
            &&& forall|i: int, j: int|
                0 <= i < j < out.len() && (#[trigger] out[i]).event_id == (
                #[trigger] out[j]).event_id ==> out[i].event_id.len() == 0
        }),
    decreases events.len(),
{
    if events.len() > 0 {
        let init = events.drop_last();
        law_no_event_is_taken_twice(user, init, seen);
        let (before, list) = taken_all(user, init, seen);
        let out = taken_all(user, events, seen).1;
        let extra = taken(user, events.last().0, events.last().1, before).1;
        assert(out == with_last(list, extra));
        assert forall|i: int| 0 <= i < list.len() implies out[i] == #[trigger] list[i] by {}
    }
}

/// What is remembered when the turn comes to the event `k`.
pub open spec fn memory_at(
    user: Seq<char>,
    events: Seq<(Seq<char>, JsonTree)>,
    seen: Set<Seq<char>>,
    k: int,
) -> Set<Seq<char>> {
    taken_all(user, events.take(k), seen).0
}

/// The event `k` becomes a message.
pub open spec fn arrives(
    user: Seq<char>,
    events: Seq<(Seq<char>, JsonTree)>,
    seen: Set<Seq<char>>,
    k: int,
) -> bool {
    taken(user, events[k].0, events[k].1, memory_at(user, events, seen, k)).1 is Some
}

/// The event `k` makes the memory overflow.
pub open spec fn empties(
    user: Seq<char>,
    events: Seq<(Seq<char>, JsonTree)>,
    seen: Set<Seq<char>>,
    k: int,
) -> bool {
    overflows(user, events[k].1, memory_at(user, events, seen, k))
}

/// What arrived stays remembered until the memory overflows.
proof fn lemma_arrived_is_remembered(
    user: Seq<char>,
    events: Seq<(Seq<char>, JsonTree)>,
    seen: Set<Seq<char>>,
    k: int,
    m: int,
)
    requires
        0 <= k < m <= events.len(),
        id_of(events[k].1).len() > 0,
        arrives(user, events, seen, k),
        forall|j: int| k <= j < m ==> !#[trigger] empties(user, events, seen, j),
    ensures
        memory_at(user, events, seen, m).contains(id_of(events[k].1)),
    decreases m,
{
    assert(events.take(m).drop_last() =~= events.take(m - 1));
    assert(events.take(m).last() == events[m - 1]);
    assert(!empties(user, events, seen, m - 1));
    if k < m - 1 {
        lemma_arrived_is_remembered(user, events, seen, k, m - 1);
    }
}

/// Two events with the same identifier both become messages only where the
/// memory overflowed in between.
pub proof fn law_only_an_overflow_lets_an_event_come_twice(
    user: Seq<char>,
    events: Seq<(Seq<char>, JsonTree)>,
    seen: Set<Seq<char>>,
    k: int,
    m: int,
)
    requires
        0 <= k < m < events.len(),
        id_of(events[k].1) == id_of(events[m].1),
        id_of(events[k].1).len() > 0,
        arrives(user, events, seen, k),
        arrives(user, events, seen, m),
    ensures
        exists|j: int| k <= j < m && #[trigger] empties(user, events, seen, j),
{
    if forall|j: int| k <= j < m ==> !#[trigger] empties(user, events, seen, j) {
        lemma_arrived_is_remembered(user, events, seen, k, m);
    }
}

/// Every message event of others is remembered, if it has an identifier.
pub open spec fn all_remembered(
    user: Seq<char>,
    events: Seq<(Seq<char>, JsonTree)>,
    seen: Set<Seq<char>>,
) -> bool {
    forall|k: int|
        0 <= k < events.len() && from_others(user, (#[trigger] events[k]).1) && id_of(
            events[k].1,
        ).len() > 0 ==> seen.contains(id_of(events[k].1))
}

/// As long as nothing is forgotten, every event is remembered once it is taken.
proof fn lemma_taken_is_remembered(
    user: Seq<char>,
    events: Seq<(Seq<char>, JsonTree)>,
    seen: Set<Seq<char>>,
)
    requires
        keeps_all(user, events, seen),
    ensures
        all_remembered(user, events, taken_all(user, events, seen).0),
    decreases events.len(),
{
    if events.len() > 0 {
        let init = events.drop_last();
        lemma_taken_is_remembered(user, init, seen);
        law_no_event_is_taken_twice(user, init, seen);
        let before = taken_all(user, init, seen).0;
        let after = taken_all(user, events, seen).0;
        assert forall|k: int|
            0 <= k < events.len() && from_others(user, (#[trigger] events[k]).1) && id_of(
                events[k].1,
            ).len() > 0 implies after.contains(id_of(events[k].1)) by {
            if k < events.len() - 1 {
                assert(init[k] == events[k]);
                assert(before.contains(id_of(init[k].1)));
            }
        }
    }
}

/// Where all events are remembered, nothing changes.
proof fn lemma_remembered_is_passed_over(
    user: Seq<char>,
    events: Seq<(Seq<char>, JsonTree)>,
    seen: Set<Seq<char>>,
)
    requires
        all_remembered(user, events, seen),
    ensures
        taken_all(user, events, seen).0 == seen,
        forall|i: int|
            0 <= i < taken_all(user, events, seen).1.len() ==> (#[trigger] taken_all(
                user,
                events,
                seen,
            ).1[i]).event_id.len() == 0,
    decreases events.len(),
{
    if events.len() > 0 {
        let init = events.drop_last();
        assert forall|k: int|
            0 <= k < init.len() && from_others(user, (#[trigger] init[k]).1) && id_of(
                init[k].1,
            ).len() > 0 implies seen.contains(id_of(init[k].1)) by {
            assert(events[k] == init[k]);
        }
        lemma_remembered_is_passed_over(user, init, seen);
        let (before, list) = taken_all(user, init, seen);
        let out = taken_all(user, events, seen).1;
        assert(events[events.len() - 1] == events.last());
        assert forall|i: int| 0 <= i < out.len() implies (#[trigger] out[i]).event_id.len() == 0 by {
            if i < list.len() {
                assert(out[i] == list[i]);
            }
        }
    }
}

/// Events that come again make no messages again, but for those without an
/// identifier, as long as nothing was forgotten in between.
pub proof fn law_replayed_events_make_no_messages(
    user: Seq<char>,
    events: Seq<(Seq<char>, JsonTree)>,
    seen: Set<Seq<char>>,
)
    requires
        keeps_all(user, events, seen),
    ensures
        ({
            let after = taken_all(user, events, seen).0;
            let (later, again) = taken_all(user, events, after);
            &&& later == after
            &&& forall|i: int| 0 <= i < again.len() ==> (#[trigger] again[i]).event_id.len() == 0
        }),
{
    lemma_taken_is_remembered(user, events, seen);
    lemma_remembered_is_passed_over(user, events, taken_all(user, events, seen).0);
}

/// Events that come in two replies are taken as if they came in one: what was
/// taken from the first reply is not taken from the second.
pub proof fn law_replies_are_taken_one_after_the_other(
    user: Seq<char>,
    first: Seq<(Seq<char>, JsonTree)>,
    second: Seq<(Seq<char>, JsonTree)>,
    seen: Set<Seq<char>>,
)
    ensures
        ({
            let (between, a) = taken_all(user, first, seen);
            let (after, b) = taken_all(user, second, between);
            taken_all(user, first + second, seen) == (after, a + b)
        }),
    decreases second.len(),
{
    let (between, a) = taken_all(user, first, seen);
    if second.len() == 0 {
        assert(first + second =~= first);
        assert(a + Seq::<PendingView>::empty() =~= a);
    } else {
        let init = second.drop_last();
        law_replies_are_taken_one_after_the_other(user, first, init, seen);
        assert((first + second).drop_last() =~= first + init);
        assert((first + second).last() == second.last());
        let (before, list) = taken_all(user, init, between);
        let extra = taken(user, second.last().0, second.last().1, before).1;
        assert(with_last(a + list, extra) =~= a + with_last(list, extra));
    }
}

/// The memory never holds more than its limit, whatever comes, and stays finite.
pub proof fn law_memory_is_bounded(
    user: Seq<char>,
    events: Seq<(Seq<char>, JsonTree)>,
    seen: Set<Seq<char>>,
)
    requires
        seen.len() <= MAX_SEEN,
    ensures
        taken_all(user, events, seen).0.len() <= MAX_SEEN,
        seen.finite() ==> taken_all(user, events, seen).0.finite(),
    decreases events.len(),
{
    if events.len() > 0 {
        law_memory_is_bounded(user, events.drop_last(), seen);
    }
}

/// Only invitations to rooms that are allowed are followed.
pub proof fn law_invitations_are_allowed(rooms: Seq<Seq<char>>, body: JsonTree)
    ensures
        forall|i: int|
            0 <= i < invitations(rooms, body).len() ==> allowed(
                rooms,
                #[trigger] invitations(rooms, body)[i],
            ),
{
    let names = names_of(members_of(at(at(body, "rooms"@), "invite"@)));
    let ok = |room: Seq<char>| allowed(rooms, room);
    assert forall|i: int| 0 <= i < invitations(rooms, body).len() implies allowed(
        rooms,
        #[trigger] invitations(rooms, body)[i],
    ) by {
        names.lemma_filter_pred(ok, i);
    }
}

/// Every invitation to a room that is allowed is followed.
pub proof fn law_allowed_invitations_are_followed(
    rooms: Seq<Seq<char>>,
    body: JsonTree,
    room: Seq<char>,
)
    requires
        allowed(rooms, room),
        names_of(members_of(at(at(body, "rooms"@), "invite"@))).contains(room),
    ensures
        invitations(rooms, body).contains(room),
{
    let names = names_of(members_of(at(at(body, "rooms"@), "invite"@)));
    let ok = |r: Seq<char>| allowed(rooms, r);
    let i = choose|i: int| 0 <= i < names.len() && names[i] == room;
    names.lemma_filter_contains(ok, i);
}

/// A filter keeps what differs different, and adds nothing.
proof fn lemma_filter_no_duplicates(s: Seq<Seq<char>>, p: spec_fn(Seq<char>) -> bool)
    requires
        s.no_duplicates(),
    ensures
        s.filter(p).no_duplicates(),
        forall|i: int| 0 <= i < s.filter(p).len() ==> s.contains(#[trigger] s.filter(p)[i]),
    decreases s.len(),
{
    reveal(Seq::filter);
    if s.len() > 0 {
        let init = s.drop_last();
        lemma_filter_no_duplicates(init, p);
        let before = init.filter(p);
        let out = s.filter(p);
        let n = s.len() - 1;
        assert(s[n] == s.last());
        assert forall|i: int| 0 <= i < before.len() implies s.contains(#[trigger] before[i])
            && before[i] != s.last() by {
            assert(init.contains(before[i]));
            let k = choose|k: int| 0 <= k < init.len() && init[k] == before[i];
            assert(s[k] == before[i]);
        }
        assert forall|i: int| 0 <= i < out.len() implies s.contains(#[trigger] out[i]) by {
            if i < before.len() {
                assert(out[i] == before[i]);
            }
        }
    }
}

/// No room of a document is invited to twice.
pub proof fn law_no_room_is_invited_to_twice(rooms: Seq<Seq<char>>, body: JsonTree)
    requires
        well_named(body),
    ensures
        invitations(rooms, body).no_duplicates(),
{
    let part = at(at(body, "rooms"@), "invite"@);
    lemma_parts_are_well_named(body, "rooms"@);
    lemma_parts_are_well_named(at(body, "rooms"@), "invite"@);
    lemma_names_differ(members_of(part));
    lemma_filter_no_duplicates(
        names_of(members_of(part)),
        |room: Seq<char>| allowed(rooms, room),
    );
}

/// Without a list of rooms every room is listened to.
pub proof fn law_no_list_allows_all(room: Seq<char>)
    ensures
        allowed(Seq::empty(), room),
{
}

} // verus!
