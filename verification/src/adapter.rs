//! The adapter: an account on a homeserver, and the rooms that it listens to.

use vstd::prelude::*;
use vstd::string::*;
use vstd::utf8::encode_utf8;

use crate::delivery::{pieces, split_message, Delivery, DeliveryView, MAX_MESSAGE_LEN};
use crate::events::{allowed, room_allowed};
use crate::outside::{is_random_uuid, parsed_json, random_uuid, reads_back, AccessToken};
use crate::replies::{
    account_of, first_place, first_sync_token, opt_reply, success, validated_user, MatrixError,
    Reply, ReplyView,
};
use crate::requests::{
    first_sync, first_sync_request, message_address, message_url, typing, typing_fields,
    typing_request, whoami, whoami_request, Request,
};
use crate::sync::{starting, EventView, LoopView, SyncEvent, SyncLoop};
use crate::text::texts;
use crate::types::{opt_text, ChannelContent, ChannelType, ChannelUser, ContentView};

verus! {

/// A Matrix channel adapter.
pub struct MatrixAdapter {
    homeserver_url: String,
    user_id: String,
    access_token: AccessToken,
    allowed_rooms: Vec<String>,
    since_token: Option<String>,
    auto_accept_invites: bool,
    stopped: bool,
}

/// The mathematical value of a [`MatrixAdapter`].
pub struct AdapterView {
    /// Where the homeserver is found.
    pub homeserver_url: Seq<char>,
    /// The account that the adapter was set up with.
    pub user_id: Seq<char>,
    pub access_token: Seq<char>,
    /// The rooms that are listened to; where there are none, all are.
    pub allowed_rooms: Seq<Seq<char>>,
    /// How far the event stream was read.
    pub since_token: Option<Seq<char>>,
    /// Whether invitations are followed.
    pub auto_accept_invites: bool,
    /// Whether the adapter was told to stop.
    pub stopped: bool,
}

impl View for MatrixAdapter {
    type V = AdapterView;

    closed spec fn view(&self) -> AdapterView {
        AdapterView {
            homeserver_url: self.homeserver_url@,
            user_id: self.user_id@,
            access_token: self.access_token@,
            allowed_rooms: texts(self.allowed_rooms@),
            since_token: opt_text(self.since_token),
            auto_accept_invites: self.auto_accept_invites,
            stopped: self.stopped,
        }
    }
}

/// The text that stands for a content: a text is sent as it is, and anything
/// else is replaced by a notice.
pub open spec fn sent_text(content: ContentView) -> Seq<char> {
    match content {
        ContentView::Text(text) => text,
        _ => "(Unsupported content type)"@,
    }
}

/// A text in pieces, on its way to a room under the transaction identifier
/// `txn`.
pub open spec fn outgoing(
    adapter: AdapterView,
    room: Seq<char>,
    chunks: Seq<Seq<char>>,
    txn: Seq<char>,
) -> DeliveryView {
    DeliveryView {
        url: message_url(adapter.homeserver_url, room, txn),
        bearer: adapter.access_token,
        chunks,
        put: 0,
    }
}

/// `delivery` takes `text` to a room, in pieces that fit and under an
/// identifier of its own.
pub open spec fn sends(
    delivery: DeliveryView,
    adapter: AdapterView,
    room: Seq<char>,
    text: Seq<char>,
) -> bool {
    let chunks = pieces(text, MAX_MESSAGE_LEN as nat);
    exists|txn: Seq<char>|
        #![trigger outgoing(adapter, room, chunks, txn)]
        is_random_uuid(txn) && delivery == outgoing(adapter, room, chunks, txn)
}

/// How far the event stream was read once the first sync is over: to where its
/// reply ends, or as far as before where it does not tell.
pub open spec fn caught_up(
    since: Option<Seq<char>>,
    reply: Option<ReplyView>,
) -> Option<Seq<char>> {
    match first_place(reply) {
        Some(token) => Some(token),
        None => since,
    }
}

/// The adapter once it has read as far as `token`.
pub open spec fn stored(adapter: AdapterView, token: Seq<char>) -> AdapterView {
    AdapterView { since_token: Some(token), ..adapter }
}

/// The adapter once the first sync is over; `None` stands for no reply.
pub open spec fn synced(adapter: AdapterView, reply: Option<ReplyView>) -> AdapterView {
    AdapterView { since_token: caught_up(adapter.since_token, reply), ..adapter }
}

/// The adapter once it was told to stop.
pub open spec fn halted(adapter: AdapterView) -> AdapterView {
    AdapterView { stopped: true, ..adapter }
}

/// The next turn of a sync loop of the adapter.
pub open spec fn turn_of(adapter: AdapterView) -> EventView {
    EventView::Turn { shutdown: adapter.stopped, since: adapter.since_token }
}

/// A sync loop of the adapter for the account `user`, before its first turn.
pub open spec fn loop_for(adapter: AdapterView, user: Seq<char>) -> LoopView {
    starting(
        adapter.homeserver_url,
        adapter.access_token,
        user,
        adapter.allowed_rooms,
        adapter.auto_accept_invites,
    )
}

impl MatrixAdapter {
    /// Creates an adapter that has read nothing yet.
    pub fn new(
        homeserver_url: String,
        user_id: String,
        access_token: String,
        allowed_rooms: Vec<String>,
        auto_accept_invites: bool,
    ) -> (adapter: MatrixAdapter)
        ensures
            adapter@ == (AdapterView {
                homeserver_url: homeserver_url@,
                user_id: user_id@,
                access_token: access_token@,
                allowed_rooms: texts(allowed_rooms@),
                since_token: None,
                auto_accept_invites,
                stopped: false,
            }),
    {
        MatrixAdapter {
            homeserver_url,
            user_id,
            access_token: AccessToken::new(access_token),
            allowed_rooms,
            since_token: None,
            auto_accept_invites,
            stopped: false,
        }
    }

    /// The name of the channel.
    pub fn name(&self) -> (name: &str)
        ensures
            name@ == "matrix"@,
    {
        "matrix"
    }

    /// The kind of service that the channel connects to.
    pub fn channel_type(&self) -> (kind: ChannelType)
        ensures
            kind == ChannelType::Matrix,
    {
        ChannelType::Matrix
    }

    /// Whether a room is listened to.
    pub fn is_allowed_room(&self, room_id: &str) -> (ok: bool)
        ensures
            ok == allowed(self@.allowed_rooms, room_id@),
    {
        room_allowed(&self.allowed_rooms, room_id)
    }

    /// The access token, which goes with every request.
    pub fn access_token(&self) -> (token: &str)
        ensures
            token@ == self@.access_token,
    {
        self.access_token.text()
    }

    /// How far the event stream was read.
    pub fn since_token(&self) -> (since: Option<String>)
        ensures
            opt_text(since) == self@.since_token,
    {
        match &self.since_token {
            Some(token) => Some(token.clone()),
            None => None,
        }
    }

    /// Keeps how far the event stream was read.
    pub fn store_since(&mut self, token: String)
        ensures
            final(self)@ == stored(old(self)@, token@),
    {
        self.since_token = Some(token);
    }

    /// Asks whether the homeserver accepts the access token.
    pub fn validate(&self) -> (request: Request)
        ensures
            request@ == whoami(self@.homeserver_url, self@.access_token),
    {
        whoami_request(self.homeserver_url.as_str(), &self.access_token)
    }

    /// Asks where the event stream stands, so that what is old is not read.
    /// Where an earlier run left off, there is nothing to ask.
    pub fn initial_sync(&self) -> (request: Option<Request>)
        ensures
            match request {
                Some(r) => self@.since_token is None && r@ == first_sync(
                    self@.homeserver_url,
                    self@.access_token,
                ),
                None => self@.since_token is Some,
            },
    {
        match &self.since_token {
            Some(_) => None,
            None => Some(
                first_sync_request(self.homeserver_url.as_str(), &self.access_token),
            ),
        }
    }

    /// Takes in the reply to the first sync; `None` stands for no reply.
    pub fn initial_sync_done(&mut self, reply: &Option<Reply>)
        ensures
            final(self)@ == synced(old(self)@, opt_reply(*reply)),
    {
        if let Some(token) = first_sync_token(reply) {
            self.since_token = Some(token);
        }
    }

    /// The sync loop, before its first turn. It goes by the account that the
    /// homeserver named, which need not be spelled like the one that the
    /// adapter was set up with.
    pub fn start(&self, validated_user: String) -> (s: SyncLoop)
        ensures
            s@ == loop_for(self@, validated_user@),
    {
        let rooms = self.allowed_rooms.clone();
        assert(texts(rooms@) =~= texts(self.allowed_rooms@));
        SyncLoop::new(
            self.homeserver_url.clone(),
            self.access_token.copy(),
            validated_user,
            rooms,
            self.auto_accept_invites,
        )
    }

    /// Reads the reply to the question who the adapter is. Where the homeserver
    /// accepts the access token there is a sync loop, for the account that it
    /// named, and anywhere else there is none.
    pub fn begin(&self, status: u16, body: &[u8]) -> (s: Result<SyncLoop, MatrixError>)
        ensures
            match s {
                Ok(l) => success(status) && parsed_json(body@) is Some && l@ == loop_for(
                    self@,
                    account_of(parsed_json(body@)->0),
                ),
                Err(MatrixError::AuthenticationFailed) => !success(status),
                Err(MatrixError::Decode) => success(status) && parsed_json(body@) is None,
                Err(MatrixError::Api { .. }) => false,
            },
    {
        match validated_user(status, body) {
            Ok(user) => Ok(self.start(user)),
            Err(error) => Err(error),
        }
    }

    /// The next turn of a sync loop.
    pub fn turn(&self) -> (event: SyncEvent)
        ensures
            event@ == turn_of(self@),
    {
        SyncEvent::Turn { shutdown: self.stopped, since: self.since_token() }
    }

    /// Tells the adapter to stop: all its sync loops leave, at their next turn
    /// at the latest.
    pub fn stop(&mut self)
        ensures
            final(self)@ == halted(old(self)@),
    {
        self.stopped = true;
    }

    /// A text in pieces, on its way to a room under the transaction identifier
    /// `txn_id`.
    pub fn compose(&self, room_id: &str, chunks: Vec<String>, txn_id: &str) -> (delivery: Delivery)
        ensures
            delivery@ == outgoing(self@, room_id@, texts(chunks@), txn_id@),
    {
        Delivery {
            url: message_address(self.homeserver_url.as_str(), room_id, txn_id),
            bearer: self.access_token.copy(),
            chunks,
            put: 0,
        }
    }

    /// A text on its way to a room, under a new transaction identifier.
    pub fn api_send_message(&self, room_id: &str, text: &str) -> (delivery: Delivery)
        ensures
            sends(delivery@, self@, room_id@, text@),
            delivery@.chunks.flatten() == text@,
            forall|i: int|
                0 <= i < delivery@.chunks.len() ==> encode_utf8(
                    #[trigger] delivery@.chunks[i],
                ).len() <= 4096,
    {
        let txn_id = random_uuid();
        self.compose(room_id, split_message(text, MAX_MESSAGE_LEN), txn_id.as_str())
    }

    /// A content on its way to the room of `user`.
    pub fn send(&self, user: &ChannelUser, content: ChannelContent) -> (delivery: Delivery)
        ensures
            sends(delivery@, self@, user@.platform_id, sent_text(content@)),
            content@ matches ContentView::Text(text) ==> delivery@.chunks.flatten() == text,
            forall|i: int|
                0 <= i < delivery@.chunks.len() ==> encode_utf8(
                    #[trigger] delivery@.chunks[i],
                ).len() <= 4096,
    {
        match content {
            ChannelContent::Text(text) => self.api_send_message(
                user.platform_id.as_str(),
                text.as_str(),
            ),
            _ => self.api_send_message(user.platform_id.as_str(), "(Unsupported content type)"),
        }
    }

    /// Announces in the room of `user` that the bot is typing.
    pub fn send_typing(&self, user: &ChannelUser) -> (request: Request)
        ensures
            request@ == typing(
                self@.homeserver_url,
                self@.access_token,
                user@.platform_id,
                self@.user_id,
            ),
            reads_back(request@.body->0, typing_fields()),
    {
        typing_request(
            self.homeserver_url.as_str(),
            &self.access_token,
            user.platform_id.as_str(),
            self.user_id.as_str(),
        )
    }
}

} // verus!
