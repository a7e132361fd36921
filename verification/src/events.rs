//! Which events of a sync reply become messages.

use vstd::prelude::*;
use vstd::string::*;

use crate::content::{content_of, parse_content};
use crate::json::{
    as_array, as_object, as_text, as_text_or_empty, at, found, items_of, lookup, members_of,
    names_of, text_of, text_or_empty, Json, JsonTree,
};
use crate::seen::{remembered, SeenEvents};
use crate::text::{contains_text, occurs, same_text, texts};
use crate::types::{ChannelContent, ContentView};

verus! {

/// A message that waits for the size of its room to be known.
#[derive(Debug, PartialEq, Eq)]
pub struct PendingMessage {
    pub room_id: String,
    pub sender: String,
    pub event_id: String,
    pub content: ChannelContent,
    /// Whether the message speaks of the bot.
    pub mentioned: bool,
}

/// The mathematical value of a [`PendingMessage`].
pub struct PendingView {
    pub room_id: Seq<char>,
    pub sender: Seq<char>,
    pub event_id: Seq<char>,
    pub content: ContentView,
    pub mentioned: bool,
}

impl View for PendingMessage {
    type V = PendingView;

    open spec fn view(&self) -> PendingView {
        PendingView {
            room_id: self.room_id@,
            sender: self.sender@,
            event_id: self.event_id@,
            content: self.content@,
            mentioned: self.mentioned,
        }
    }
}

/// The values of a list of waiting messages.
pub open spec fn pendings(list: Seq<PendingMessage>) -> Seq<PendingView> {
    list.map_values(|p: PendingMessage| p@)
}

/// A room may be listened to: it is on the list, or there is no list.
pub open spec fn allowed(rooms: Seq<Seq<char>>, room: Seq<char>) -> bool {
    rooms.len() == 0 || rooms.contains(room)
}

/// The content of a message event speaks of `user`: in its text, in its
/// formatted text, or in its list of mentions.
pub open spec fn mentions(content: JsonTree, user: Seq<char>) -> bool {
    ||| occurs(user, text_or_empty(at(content, "body"@)))
    ||| (text_of(at(content, "formatted_body"@)) matches Some(html) && occurs(user, html))
    ||| items_of(at(at(content, "m.mentions"@), "user_ids"@)).contains(JsonTree::Text(user))
}

/// What comes of one timeline event of `room`: the events remembered
/// afterwards, and the message where there is one.
///
/// Only messages of others count. One that is remembered is passed over, any
/// other that has an identifier is remembered, and only one with a text is a
/// message.
pub open spec fn taken(
    user: Seq<char>,
    room: Seq<char>,
    event: JsonTree,
    seen: Set<Seq<char>>,
) -> (Set<Seq<char>>, Option<PendingView>) {
    let sender = text_or_empty(at(event, "sender"@));
    let id = text_or_empty(at(event, "event_id"@));
    let content = at(event, "content"@);
    let body = text_or_empty(at(content, "body"@));
    if text_or_empty(at(event, "type"@)) != "m.room.message"@ || sender == user {
        (seen, None)
    } else if id.len() > 0 && seen.contains(id) {
        (seen, None)
    } else {
        let after = if id.len() > 0 {
            remembered(seen, id)
        } else {
            seen
        };
        let message = if body.len() > 0 {
            Some(
                PendingView {
                    room_id: room,
                    sender,
                    event_id: id,
                    content: content_of(body),
                    mentioned: mentions(content, user),
                },
            )
        } else {
            None
        };
        (after, message)
    }
}

/// `list`, with `extra` at its end where there is one.
pub open spec fn with_last(list: Seq<PendingView>, extra: Option<PendingView>) -> Seq<PendingView> {
    match extra {
        Some(p) => list.push(p),
        None => list,
    }
}

/// What comes of timeline events, each with its room, taken one after the other.
pub open spec fn taken_all(
    user: Seq<char>,
    events: Seq<(Seq<char>, JsonTree)>,
    seen: Set<Seq<char>>,
) -> (Set<Seq<char>>, Seq<PendingView>)
    decreases events.len(),
{
    if events.len() == 0 {
        (seen, Seq::empty())
    } else {
        let (before, list) = taken_all(user, events.drop_last(), seen);
        let (after, extra) = taken(user, events.last().0, events.last().1, before);
        (after, with_last(list, extra))
    }
}

/// The timeline events of a joined room.
pub open spec fn timeline(room: JsonTree) -> Seq<JsonTree> {
    items_of(at(at(room, "timeline"@), "events"@))
}

/// The timeline events of a joined room, each with the room.
pub open spec fn room_stream(room: Seq<char>, data: JsonTree) -> Seq<(Seq<char>, JsonTree)> {
    timeline(data).map_values(|event: JsonTree| (room, event))
}

/// The timeline events of the joined rooms that are allowed, one room after
/// the other.
pub open spec fn stream(rooms: Seq<Seq<char>>, joined: Seq<(Seq<char>, JsonTree)>) -> Seq<
    (Seq<char>, JsonTree),
>
    decreases joined.len(),
{
    if joined.len() == 0 {
        Seq::empty()
    } else if allowed(rooms, joined.last().0) {
        stream(rooms, joined.drop_last()) + room_stream(joined.last().0, joined.last().1)
    } else {
        stream(rooms, joined.drop_last())
    }
}

/// The joined rooms of a sync reply.
pub open spec fn joined_rooms(body: JsonTree) -> Seq<(Seq<char>, JsonTree)> {
    members_of(at(at(body, "rooms"@), "join"@))
}

/// The rooms that a sync reply invites to, as far as they are allowed.
pub open spec fn invitations(rooms: Seq<Seq<char>>, body: JsonTree) -> Seq<Seq<char>> {
    names_of(members_of(at(at(body, "rooms"@), "invite"@))).filter(
        |room: Seq<char>| allowed(rooms, room),
    )
}

/// Whether a room may be listened to.
pub fn room_allowed(rooms: &Vec<String>, room: &str) -> (ok: bool)
    ensures
        ok == allowed(texts(rooms@), room@),
{
    if rooms.len() == 0 {
        return true;
    }
    let mut i: usize = 0;
    while i < rooms.len()
        invariant
            i <= rooms@.len(),
            rooms@.len() > 0,
            forall|k: int| 0 <= k < i ==> #[trigger] texts(rooms@)[k] != room@,
        decreases rooms@.len() - i,
    {
        if same_text(rooms[i].as_str(), room) {
            assert(texts(rooms@)[i as int] == room@);
            return true;
        }
        i += 1;
    }
    false
}

/// Whether the content of a message event speaks of `user`.
pub fn mentions_user(content: Option<&Json>, user: &str) -> (yes: bool)
    ensures
        yes == mentions(found(content), user@),
{
    if contains_text(as_text_or_empty(lookup(content, "body")), user) {
        return true;
    }
    if let Some(html) = as_text(lookup(content, "formatted_body")) {
        if contains_text(html, user) {
            return true;
        }
    }
    let list = lookup(lookup(content, "m.mentions"), "user_ids");
    if let Some(ids) = as_array(list) {
        let ghost all = items_of(found(list));
        let mut i: usize = 0;
        while i < ids.len()
            invariant
                i <= ids@.len(),
                all == ids@.map_values(|j: Json| j@),
                all == items_of(at(at(found(content), "m.mentions"@), "user_ids"@)),
                forall|k: int| 0 <= k < i ==> #[trigger] all[k] != JsonTree::Text(user@),
            decreases ids@.len() - i,
        {
            if let Some(id) = as_text(Some(&ids[i])) {
                if same_text(id, user) {
                    assert(all[i as int] == JsonTree::Text(user@));
                    return true;
                }
            }
            i += 1;
        }
    }
    false
}

/// Takes one timeline event of `room`.
pub fn take_event(user: &str, room: &str, event: &Json, seen: &mut SeenEvents) -> (message: Option<
    PendingMessage,
>)
    ensures
        final(seen)@ == taken(user@, room@, event@, old(seen)@).0,
        match message {
            Some(p) => taken(user@, room@, event@, old(seen)@).1 == Some(p@),
            None => taken(user@, room@, event@, old(seen)@).1 is None,
        },
{
    if !same_text(as_text_or_empty(lookup(Some(event), "type")), "m.room.message") {
        return None;
    }
    let sender = as_text_or_empty(lookup(Some(event), "sender"));
    if same_text(sender, user) {
        return None;
    }
    let id = as_text_or_empty(lookup(Some(event), "event_id"));
    if !id.is_empty() {
        if seen.contains(id) {
            return None;
        }
        seen.record(id);
    }
    let content = lookup(Some(event), "content");
    let body = as_text_or_empty(lookup(content, "body"));
    if body.is_empty() {
        return None;
    }
    Some(
        PendingMessage {
            room_id: room.to_owned(),
            sender: sender.to_owned(),
            event_id: id.to_owned(),
            content: parse_content(body),
            mentioned: mentions_user(content, user),
        },
    )
}

/// Takes the timeline events of `room`, and adds their messages to `list`.
///
/// `done` are the events that were taken before, from the state `first` on.
fn take_events(
    user: &str,
    room: &str,
    events: &Vec<Json>,
    seen: &mut SeenEvents,
    list: &mut Vec<PendingMessage>,
    Ghost(done): Ghost<Seq<(Seq<char>, JsonTree)>>,
    Ghost(first): Ghost<Set<Seq<char>>>,
)
    requires
        taken_all(user@, done, first) == (old(seen)@, pendings(old(list)@)),
    ensures
        taken_all(
            user@,
            done + events@.map_values(|j: Json| j@).map_values(|e: JsonTree| (room@, e)),
            first,
        ) == (final(seen)@, pendings(final(list)@)),
{
    let ghost more = events@.map_values(|j: Json| j@).map_values(|e: JsonTree| (room@, e));
    let mut i: usize = 0;
    assert(done + more.take(0) =~= done);
    while i < events.len()
        invariant
            i <= events@.len(),
            more == events@.map_values(|j: Json| j@).map_values(|e: JsonTree| (room@, e)),
            taken_all(user@, done + more.take(i as int), first) == (seen@, pendings(list@)),
        decreases events@.len() - i,
    {
        proof {
            let next = done + more.take(i + 1);
            assert(next.drop_last() =~= done + more.take(i as int));
            assert(next.last() == (room@, events@[i as int]@));
        }
        let ghost before = pendings(list@);
        match take_event(user, room, &events[i], seen) {
            Some(message) => {
                let ghost extra = message@;
                list.push(message);
                assert(pendings(list@) =~= before.push(extra));
            },
            None => {},
        }
        i += 1;
    }
    assert(more.take(more.len() as int) =~= more);
}

/// Takes the joined rooms of a sync reply, and hands out their messages.
pub fn take_rooms(user: &str, rooms: &Vec<String>, body: &Json, seen: &mut SeenEvents) -> (list: Vec<
    PendingMessage,
>)
    ensures
        (final(seen)@, pendings(list@)) == taken_all(
            user@,
            stream(texts(rooms@), joined_rooms(body@)),
            old(seen)@,
        ),
{
    let mut list: Vec<PendingMessage> = Vec::new();
    let ghost first = seen@;
    assert(pendings(list@) =~= Seq::empty());
    let joined = match as_object(lookup(lookup(Some(body), "rooms"), "join")) {
        Some(joined) => joined,
        None => {
            return list;
        },
    };
    let ghost trees = joined_rooms(body@);
    assert(trees.take(0) =~= Seq::empty());
    let mut i: usize = 0;
    while i < joined.len()
        invariant
            i <= joined@.len(),
            trees == joined@.map_values(|m: (String, Json)| (m.0@, m.1@)),
            taken_all(user@, stream(texts(rooms@), trees.take(i as int)), first) == (
                seen@,
                pendings(list@),
            ),
        decreases joined@.len() - i,
    {
        let ghost done = stream(texts(rooms@), trees.take(i as int));
        let ghost data = joined@[i as int].1@;
        proof {
            let next = trees.take(i + 1);
            assert(next.drop_last() =~= trees.take(i as int));
            assert(next.last() == (joined@[i as int].0@, data));
        }
        let room = joined[i].0.as_str();
        if room_allowed(rooms, room) {
            match as_array(lookup(lookup(Some(&joined[i].1), "timeline"), "events")) {
                Some(events) => {
                    take_events(user, room, events, seen, &mut list, Ghost(done), Ghost(first));
                },
                None => {
                    assert(done + room_stream(room@, data) =~= done);
                },
            }
        }
        i += 1;
    }
    assert(trees.take(trees.len() as int) =~= trees);
    list
}

/// The rooms that a sync reply invites to, as far as they are allowed.
pub fn take_invitations(rooms: &Vec<String>, body: &Json) -> (list: Vec<String>)
    ensures
        texts(list@) == invitations(texts(rooms@), body@),
{
    let mut list: Vec<String> = Vec::new();
    let ghost ok = |room: Seq<char>| allowed(texts(rooms@), room);
    let ghost names = names_of(members_of(at(at(body@, "rooms"@), "invite"@)));
    proof {
        reveal(Seq::filter);
        assert(names.take(0) =~= Seq::empty());
        assert(texts(list@) =~= names.take(0).filter(ok));
    }
    let invited = match as_object(lookup(lookup(Some(body), "rooms"), "invite")) {
        Some(invited) => invited,
        None => {
            assert(names =~= names.take(0));
            return list;
        },
    };
    let mut i: usize = 0;
    while i < invited.len()
        invariant
            i <= invited@.len(),
            names.len() == invited@.len(),
            forall|k: int| 0 <= k < names.len() ==> #[trigger] names[k] == invited@[k].0@,
            ok == |room: Seq<char>| allowed(texts(rooms@), room),
            texts(list@) == names.take(i as int).filter(ok),
        decreases invited@.len() - i,
    {
        let ghost before = texts(list@);
        proof {
            reveal(Seq::filter);
            assert(names.take(i + 1).drop_last() =~= names.take(i as int));
            assert(names.take(i + 1).last() == invited@[i as int].0@);
        }
        let room = invited[i].0.as_str();
        if room_allowed(rooms, room) {
            list.push(room.to_owned());
            assert(texts(list@) =~= before.push(room@));
        }
        i += 1;
    }
    assert(names.take(names.len() as int) =~= names);
    list
}

} // verus!
