//! The sync loop: what to do next, given what happened last.
//!
//! Whoever drives the loop performs each [`SyncAction`] and reports what came
//! of it as a [`SyncEvent`].

use vstd::prelude::*;
use vstd::string::*;

use crate::event_laws::law_no_room_is_invited_to_twice;
use crate::events::{
    invitations, joined_rooms, pendings, stream, take_invitations, take_rooms, taken_all,
    PendingMessage, PendingView,
};
use crate::json::{well_named, Json, JsonTree};
use crate::outside::{current_time, reads_back, AccessToken};
use crate::replies::{
    document, is_success, member_count, member_count_of, next_batch, next_batch_of, opt_reply,
    read_document, success, Reply, ReplyView,
};
use crate::requests::{
    join, join_request, members, members_request, next_sync, next_sync_request, Request,
    RequestView,
};
use crate::seen::SeenEvents;
use crate::text::texts;
use crate::types::{
    opt_text, ChannelMessage, ChannelType, ChannelUser, MessageView, Metadata, Timestamp, UserView,
};

verus! {

/// The first pause after a failed request, in seconds.
pub const FIRST_BACKOFF_SECS: u64 = 1;

/// The longest pause after a failed request, in seconds.
pub const MAX_BACKOFF_SECS: u64 = 60;

/// The pause that follows a pause of `secs` seconds.
pub open spec fn doubled(secs: u64) -> u64 {
    if 2 * secs < MAX_BACKOFF_SECS {
        (2 * secs) as u64
    } else {
        MAX_BACKOFF_SECS
    }
}

/// A room of more than two is a group, and so is one whose size is unknown.
pub open spec fn is_group_of(count: Option<nat>) -> bool {
    match count {
        Some(n) => n > 2,
        None => true,
    }
}

/// What is noted of a message: that the bot was mentioned, which holds of
/// every direct message, and that the message is direct.
pub open spec fn noted(mentioned: bool, is_group: bool) -> Map<Seq<char>, JsonTree> {
    let first = if mentioned || !is_group {
        Map::<Seq<char>, JsonTree>::empty().insert("was_mentioned"@, JsonTree::Bool(true))
    } else {
        Map::<Seq<char>, JsonTree>::empty()
    };
    if is_group {
        first
    } else {
        first.insert("is_dm"@, JsonTree::Bool(true))
    }
}

/// The message that is handed on, once the kind of its room is known.
pub open spec fn complete(pending: PendingView, is_group: bool, now: Timestamp) -> MessageView {
    MessageView {
        channel: ChannelType::Matrix,
        platform_message_id: pending.event_id,
        sender: UserView {
            platform_id: pending.room_id,
            display_name: pending.sender,
            openfang_user: None,
        },
        content: pending.content,
        target_agent: None,
        timestamp: now,
        is_group,
        thread_id: None,
        metadata: noted(pending.mentioned, is_group),
    }
}

/// What is noted of a message.
pub fn note(mentioned: bool, is_group: bool) -> (metadata: Metadata)
    ensures
        metadata.wf(),
        metadata@ == noted(mentioned, is_group),
{
    let mut metadata = Metadata::new();
    if mentioned {
        metadata.insert("was_mentioned".to_owned(), Json::Bool(true));
    }
    if !is_group {
        metadata.insert("was_mentioned".to_owned(), Json::Bool(true));
        metadata.insert("is_dm".to_owned(), Json::Bool(true));
    }
    assert(metadata@ =~= noted(mentioned, is_group));
    metadata
}

/// The message that is handed on, once the kind of its room is known.
pub fn complete_message(pending: PendingMessage, is_group: bool, now: Timestamp) -> (message:
    ChannelMessage)
    ensures
        message@ == complete(pending@, is_group, now),
        message.metadata.wf(),
{
    ChannelMessage {
        channel: ChannelType::Matrix,
        platform_message_id: pending.event_id,
        sender: ChannelUser {
            platform_id: pending.room_id,
            display_name: pending.sender,
            openfang_user: None,
        },
        content: pending.content,
        target_agent: None,
        timestamp: now,
        is_group,
        thread_id: None,
        metadata: note(pending.mentioned, is_group),
    }
}

/// Whether a room of that many members is a group.
pub fn is_group(count: Option<usize>) -> (group: bool)
    ensures
        group == is_group_of(
            match count {
                Some(n) => Some(n as nat),
                None => None,
            },
        ),
{
    match count {
        Some(n) => n > 2,
        None => true,
    }
}

/// What the loop waits for.
#[derive(Debug, Clone, Copy, PartialEq, Eq, Structural)]
pub enum Phase {
    /// The next turn.
    Ready,
    /// The reply to a sync request.
    Polling,
    /// The end of an errand.
    Working,
    /// The size of the room of the first waiting message.
    Counting,
    /// Whether a message was received.
    Handing,
    /// Nothing more.
    Stopped,
}

/// What happened last.
#[derive(Debug, PartialEq, Eq)]
pub enum SyncEvent {
    /// The loop takes its next turn: whether it was told to stop, and how far
    /// the event stream was read.
    Turn { shutdown: bool, since: Option<String> },
    /// The loop was told to stop while it waited for a sync reply.
    Shutdown,
    /// The sync request got no reply.
    Unreachable,
    /// The sync request got a reply.
    Replied(Reply),
    /// The errand is done.
    Finished,
    /// The homeserver listed the members of a room, or did not reply.
    Counted(Option<Reply>),
    /// A message was handed on: whether anybody was there to receive it.
    Handed(bool),
}

/// The mathematical value of a [`SyncEvent`].
pub enum EventView {
    Turn { shutdown: bool, since: Option<Seq<char>> },
    Shutdown,
    Unreachable,
    Replied(ReplyView),
    Finished,
    Counted(Option<ReplyView>),
    Handed(bool),
}

impl View for SyncEvent {
    type V = EventView;

    open spec fn view(&self) -> EventView {
        match *self {
            SyncEvent::Turn { shutdown, since } => EventView::Turn {
                shutdown,
                since: opt_text(since),
            },
            SyncEvent::Shutdown => EventView::Shutdown,
            SyncEvent::Unreachable => EventView::Unreachable,
            SyncEvent::Replied(reply) => EventView::Replied(reply@),
            SyncEvent::Finished => EventView::Finished,
            SyncEvent::Counted(reply) => EventView::Counted(opt_reply(reply)),
            SyncEvent::Handed(received) => EventView::Handed(received),
        }
    }
}

/// What is to be done next.
#[derive(PartialEq, Eq)]
pub enum SyncAction {
    /// Make this sync request, and give up when told to stop.
    Poll(Request),
    /// Wait that many seconds, then take the next turn.
    Pause(u64),
    /// Take the next turn.
    Again,
    /// An errand: keep this place in the event stream.
    Store(String),
    /// An errand: join a room. What comes of it does not matter.
    Join(Request),
    /// Ask for the members of a room.
    Count(Request),
    /// Hand this message on.
    Hand(ChannelMessage),
    /// Leave the loop.
    Exit,
    /// Nothing: the event is none that the loop waits for.
    Ignore,
}

/// The mathematical value of a [`SyncAction`].
pub enum ActionView {
    Poll(RequestView),
    Pause(u64),
    Again,
    Store(Seq<char>),
    Join(RequestView),
    Count(RequestView),
    Hand(MessageView),
    Exit,
    Ignore,
}

impl View for SyncAction {
    type V = ActionView;

    open spec fn view(&self) -> ActionView {
        match *self {
            SyncAction::Poll(request) => ActionView::Poll(request@),
            SyncAction::Pause(secs) => ActionView::Pause(secs),
            SyncAction::Again => ActionView::Again,
            SyncAction::Store(token) => ActionView::Store(token@),
            SyncAction::Join(request) => ActionView::Join(request@),
            SyncAction::Count(request) => ActionView::Count(request@),
            SyncAction::Hand(message) => ActionView::Hand(message@),
            SyncAction::Exit => ActionView::Exit,
            SyncAction::Ignore => ActionView::Ignore,
        }
    }
}

/// The time at which a message is handed on.
pub open spec fn time_of(action: ActionView) -> Timestamp {
    match action {
        ActionView::Hand(message) => message.timestamp,
        _ => Timestamp { seconds: 0, nanos: 0 },
    }
}

/// The state of the sync loop.
pub struct SyncLoop {
    homeserver: String,
    access_token: AccessToken,
    user_id: String,
    allowed_rooms: Vec<String>,
    auto_accept: bool,
    backoff: u64,
    seen: SeenEvents,
    phase: Phase,
    joins: Vec<String>,
    pending: Vec<PendingMessage>,
}

/// The mathematical value of a [`SyncLoop`].
pub struct LoopView {
    pub homeserver: Seq<char>,
    pub access_token: Seq<char>,
    /// The account that the bot speaks as.
    pub user_id: Seq<char>,
    /// The rooms that are listened to; where there are none, all are.
    pub allowed_rooms: Seq<Seq<char>>,
    /// Whether invitations are followed.
    pub auto_accept: bool,
    /// The next pause after a failed request, in seconds.
    pub backoff: u64,
    /// The events that are remembered.
    pub seen: Set<Seq<char>>,
    pub phase: Phase,
    /// The rooms that are still to be joined.
    pub joins: Seq<Seq<char>>,
    /// The messages that are still to be handed on.
    pub pending: Seq<PendingView>,
}

impl View for SyncLoop {
    type V = LoopView;

    closed spec fn view(&self) -> LoopView {
        LoopView {
            homeserver: self.homeserver@,
            access_token: self.access_token@,
            user_id: self.user_id@,
            allowed_rooms: texts(self.allowed_rooms@),
            auto_accept: self.auto_accept,
            backoff: self.backoff,
            seen: self.seen@,
            phase: self.phase,
            joins: texts(self.joins@),
            pending: pendings(self.pending@),
        }
    }
}

/// The loop before its first turn.
pub open spec fn starting(
    homeserver: Seq<char>,
    access_token: Seq<char>,
    user_id: Seq<char>,
    allowed_rooms: Seq<Seq<char>>,
    auto_accept: bool,
) -> LoopView {
    LoopView {
        homeserver,
        access_token,
        user_id,
        allowed_rooms,
        auto_accept,
        backoff: FIRST_BACKOFF_SECS,
        seen: Set::empty(),
        phase: Phase::Ready,
        joins: Seq::empty(),
        pending: Seq::empty(),
    }
}

/// Goes on with what the last sync reply left to do: rooms to join first, then
/// messages.
pub open spec fn resumed(s: LoopView) -> (LoopView, ActionView) {
    if s.joins.len() > 0 {
        (
            LoopView { phase: Phase::Working, joins: s.joins.skip(1), ..s },
            ActionView::Join(join(s.homeserver, s.access_token, s.joins[0])),
        )
    } else if s.pending.len() > 0 {
        (
            LoopView { phase: Phase::Counting, ..s },
            ActionView::Count(members(s.homeserver, s.access_token, s.pending[0].room_id)),
        )
    } else {
        (LoopView { phase: Phase::Ready, ..s }, ActionView::Again)
    }
}

/// Waits after a failed sync request, longer each time.
pub open spec fn paused(s: LoopView) -> (LoopView, ActionView) {
    (
        LoopView { phase: Phase::Ready, backoff: doubled(s.backoff), ..s },
        ActionView::Pause(s.backoff),
    )
}

/// Takes in the document of a sync reply.
pub open spec fn absorbed(s: LoopView, body: JsonTree) -> (LoopView, ActionView) {
    let (seen, pending) = taken_all(
        s.user_id,
        stream(s.allowed_rooms, joined_rooms(body)),
        s.seen,
    );
    let joins = if s.auto_accept {
        invitations(s.allowed_rooms, body)
    } else {
        Seq::empty()
    };
    let t = LoopView {
        phase: Phase::Working,
        backoff: FIRST_BACKOFF_SECS,
        seen,
        joins,
        pending,
        ..s
    };
    match next_batch_of(body) {
        Some(token) => (t, ActionView::Store(token)),
        None => resumed(t),
    }
}

/// Takes in a sync reply whose status stands for success: its document, or
/// nothing where it has none.
pub open spec fn accepted(s: LoopView, body: Option<JsonTree>) -> (LoopView, ActionView) {
    match body {
        Some(tree) => absorbed(s, tree),
        None => (
            LoopView { phase: Phase::Ready, backoff: FIRST_BACKOFF_SECS, ..s },
            ActionView::Again,
        ),
    }
}

/// Hands on the first waiting message, at the time `now`, from a room of
/// `count` members.
pub open spec fn handed(s: LoopView, count: Option<nat>, now: Timestamp) -> (LoopView, ActionView) {
    if s.phase == Phase::Counting && s.pending.len() > 0 {
        (
            LoopView { phase: Phase::Handing, pending: s.pending.skip(1), ..s },
            ActionView::Hand(complete(s.pending[0], is_group_of(count), now)),
        )
    } else {
        (s, ActionView::Ignore)
    }
}

/// The state after an event, and what is to be done then. A message that is
/// handed on carries the time `now`.
pub open spec fn next(s: LoopView, event: EventView, now: Timestamp) -> (LoopView, ActionView) {
    match (s.phase, event) {
        (Phase::Ready, EventView::Turn { shutdown, since }) => if shutdown {
            (LoopView { phase: Phase::Stopped, ..s }, ActionView::Exit)
        } else {
            (
                LoopView { phase: Phase::Polling, ..s },
                ActionView::Poll(next_sync(s.homeserver, s.access_token, since)),
            )
        },
        (Phase::Polling, EventView::Shutdown) => (
            LoopView { phase: Phase::Stopped, ..s },
            ActionView::Exit,
        ),
        (Phase::Polling, EventView::Unreachable) => paused(s),
        (Phase::Polling, EventView::Replied(reply)) => if success(reply.status) {
            accepted(s, document(reply))
        } else {
            paused(s)
        },
        (Phase::Working, EventView::Finished) => resumed(s),
        (Phase::Counting, EventView::Counted(reply)) => handed(s, member_count_of(reply), now),
        (Phase::Handing, EventView::Handed(received)) => if received {
            resumed(s)
        } else {
            (LoopView { phase: Phase::Stopped, ..s }, ActionView::Exit)
        },
        _ => (s, ActionView::Ignore),
    }
}

impl SyncLoop {
    /// A loop before its first turn, for the account `user_id`.
    pub fn new(
        homeserver: String,
        access_token: AccessToken,
        user_id: String,
        allowed_rooms: Vec<String>,
        auto_accept: bool,
    ) -> (s: SyncLoop)
        ensures
            s@ == starting(
                homeserver@,
                access_token@,
                user_id@,
                texts(allowed_rooms@),
                auto_accept,
            ),
    {
        let s = SyncLoop {
            homeserver,
            access_token,
            user_id,
            allowed_rooms,
            auto_accept,
            backoff: FIRST_BACKOFF_SECS,
            seen: SeenEvents::new(),
            phase: Phase::Ready,
            joins: Vec::new(),
            pending: Vec::new(),
        };
        assert(s@.joins =~= Seq::empty());
        assert(s@.pending =~= Seq::empty());
        s
    }

    /// Goes on with what the last sync reply left to do.
    fn resume(&mut self) -> (action: SyncAction)
        ensures
            (final(self)@, action@) == resumed(old(self)@),
            action@ matches ActionView::Join(request) ==> reads_back(
                request.body->0,
                Seq::empty(),
            ),
            old(self)@.joins.no_duplicates() ==> final(self)@.joins.no_duplicates(),
    {
        if self.joins.len() > 0 {
            let ghost rooms = texts(self.joins@);
            let room = self.joins.remove(0);
            assert(texts(self.joins@) =~= rooms.skip(1));
            self.phase = Phase::Working;
            SyncAction::Join(
                join_request(self.homeserver.as_str(), &self.access_token, room.as_str()),
            )
        } else if self.pending.len() > 0 {
            self.phase = Phase::Counting;
            SyncAction::Count(
                members_request(
                    self.homeserver.as_str(),
                    &self.access_token,
                    self.pending[0].room_id.as_str(),
                ),
            )
        } else {
            self.phase = Phase::Ready;
            SyncAction::Again
        }
    }

    /// Waits after a failed sync request, longer each time.
    fn pause(&mut self) -> (action: SyncAction)
        ensures
            (final(self)@, action@) == paused(old(self)@),
    {
        let secs = self.backoff;
        self.backoff = if secs < MAX_BACKOFF_SECS / 2 {
            secs * 2
        } else {
            MAX_BACKOFF_SECS
        };
        self.phase = Phase::Ready;
        SyncAction::Pause(secs)
    }

    /// Takes in a sync reply whose status stands for success: its document, or
    /// nothing where it has none.
    pub fn accept(&mut self, body: &Option<Json>) -> (action: SyncAction)
        ensures
            (final(self)@, action@) == accepted(
                old(self)@,
                match *body {
                    Some(json) => Some(json@),
                    None => None,
                },
            ),
            action@ matches ActionView::Join(request) ==> reads_back(
                request.body->0,
                Seq::empty(),
            ),
            old(self)@.joins.no_duplicates() && (*body matches Some(json) ==> well_named(json@))
                ==> final(self)@.joins.no_duplicates(),
    {
        self.backoff = FIRST_BACKOFF_SECS;
        let json = match body {
            Some(json) => json,
            None => {
                self.phase = Phase::Ready;
                return SyncAction::Again;
            },
        };
        self.joins = if self.auto_accept {
            take_invitations(&self.allowed_rooms, json)
        } else {
            Vec::new()
        };
        proof {
            if !self.auto_accept {
                assert(texts(self.joins@) =~= Seq::empty());
            } else if well_named(json@) {
                law_no_room_is_invited_to_twice(texts(self.allowed_rooms@), json@);
            }
        }
        self.pending =
        take_rooms(self.user_id.as_str(), &self.allowed_rooms, json, &mut self.seen);
        self.phase = Phase::Working;
        match next_batch(json) {
            Some(token) => SyncAction::Store(token),
            None => self.resume(),
        }
    }

    /// Hands on the first waiting message, at the time `now`, from a room of
    /// `count` members.
    pub fn hand(&mut self, count: Option<usize>, now: Timestamp) -> (action: SyncAction)
        ensures
            (final(self)@, action@) == handed(
                old(self)@,
                match count {
                    Some(n) => Some(n as nat),
                    None => None,
                },
                now,
            ),
            action matches SyncAction::Hand(message) ==> message.metadata.wf(),
    {
        if self.phase == Phase::Counting && self.pending.len() > 0 {
            let ghost waiting = pendings(self.pending@);
            let first = self.pending.remove(0);
            assert(pendings(self.pending@) =~= waiting.skip(1));
            self.phase = Phase::Handing;
            SyncAction::Hand(complete_message(first, is_group(count), now))
        } else {
            SyncAction::Ignore
        }
    }

    /// Takes in an event, and says what is to be done then. A message that is
    /// handed on carries the time at which that is said, a request to join a
    /// room carries an empty JSON object, and no room waits twice to be joined.
    pub fn step(&mut self, event: SyncEvent) -> (action: SyncAction)
        ensures
            (final(self)@, action@) == next(old(self)@, event@, time_of(action@)),
            action@ matches ActionView::Join(request) ==> reads_back(
                request.body->0,
                Seq::empty(),
            ),
            old(self)@.joins.no_duplicates() ==> final(self)@.joins.no_duplicates(),
            action matches SyncAction::Hand(message) ==> message.metadata.wf()
                && message.timestamp.seconds >= 0 && message.timestamp.nanos < 1_000_000_000,
    {
        match (self.phase, event) {
            (Phase::Ready, SyncEvent::Turn { shutdown, since }) => if shutdown {
                self.phase = Phase::Stopped;
                SyncAction::Exit
            } else {
                self.phase = Phase::Polling;
                SyncAction::Poll(
                    next_sync_request(self.homeserver.as_str(), &self.access_token, &since),
                )
            },
            (Phase::Polling, SyncEvent::Shutdown) => {
                self.phase = Phase::Stopped;
                SyncAction::Exit
            },
            (Phase::Polling, SyncEvent::Unreachable) => self.pause(),
            (Phase::Polling, SyncEvent::Replied(reply)) => if is_success(reply.status) {
                let body = read_document(&reply);
                self.accept(&body)
            } else {
                self.pause()
            },
            (Phase::Working, SyncEvent::Finished) => self.resume(),
            (Phase::Counting, SyncEvent::Counted(reply)) => {
                let count = member_count(&reply);
                self.hand(count, current_time())
            },
            (Phase::Handing, SyncEvent::Handed(received)) => if received {
                self.resume()
            } else {
                self.phase = Phase::Stopped;
                SyncAction::Exit
            },
            _ => SyncAction::Ignore,
        }
    }
}

} // verus!
