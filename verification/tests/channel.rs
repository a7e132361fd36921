//! The adapter against a homeserver that answers from a script.

use matrix_channel::adapter::MatrixAdapter;
use matrix_channel::replies::{MatrixError, Reply};
use matrix_channel::requests::{Method, Request};
use matrix_channel::outside::AccessToken;
use matrix_channel::startup::{StartError, StartStep};
use matrix_channel::sync::{SyncAction, SyncEvent, SyncLoop};
use matrix_channel::types::{ChannelContent, ChannelMessage, ChannelType};

const HOME: &str = "http://localhost:8008";

/// A sync reply with one message in one room.
fn sync_response_with_message(
    next_batch: &str,
    room_id: &str,
    sender: &str,
    event_id: &str,
    body: &str,
) -> String {
    format!(
        r#"{{"next_batch": "{next_batch}", "rooms": {{"join": {{"{room_id}": {{"timeline": {{"events": [
            {{"type": "m.room.message", "sender": "{sender}", "event_id": "{event_id}",
              "origin_server_ts": 1234567890,
              "content": {{"msgtype": "m.text", "body": "{body}"}}}}
        ]}}}}}}, "invite": {{}}}}}}"#
    )
}

/// A sync reply without messages.
fn sync_response_empty(next_batch: &str) -> String {
    format!(r#"{{"next_batch": "{next_batch}", "rooms": {{"join": {{}}, "invite": {{}}}}}}"#)
}

fn whoami_response(user_id: &str) -> String {
    format!(r#"{{"user_id": "{user_id}", "is_guest": false, "device_id": "TESTDEVICE"}}"#)
}

fn joined_members_response(count: usize) -> String {
    let members: Vec<String> = (0..count)
        .map(|i| format!(r#""@user{i}:test.org": {{"display_name": "User {i}"}}"#))
        .collect();
    format!(r#"{{"joined": {{{}}}}}"#, members.join(", "))
}

fn reply(status: u16, body: &str) -> Reply {
    Reply { status, body: Some(body.as_bytes().to_vec()) }
}

/// What the homeserver answers to the sync request with that number.
type Script = fn(u32, &str) -> (u16, String);

struct Server {
    whoami: (u16, String),
    members: (u16, String),
    sync: Script,
    syncs: u32,
    asked: Vec<Request>,
}

impl Server {
    fn new(sync: Script) -> Server {
        Server {
            whoami: (200, whoami_response("@bot:test.org")),
            members: (200, joined_members_response(2)),
            sync,
            syncs: 0,
            asked: vec![],
        }
    }

    fn answer(&mut self, request: Request) -> Reply {
        let path = request.url.strip_prefix(HOME).expect("a request to this server").to_string();
        self.asked.push(request);
        let (status, body) = if path == "/_matrix/client/v3/account/whoami" {
            self.whoami.clone()
        } else if path.ends_with("/joined_members") {
            self.members.clone()
        } else if path.starts_with("/_matrix/client/v3/sync?") {
            let count = self.syncs;
            self.syncs += 1;
            (self.sync)(count, &path)
        } else {
            (200, "{}".to_string())
        };
        reply(status, &body)
    }
}

struct Session {
    adapter: MatrixAdapter,
    sync: SyncLoop,
    server: Server,
    event: Option<SyncEvent>,
    pauses: Vec<u64>,
}

fn start(mut adapter: MatrixAdapter, mut server: Server) -> Result<Session, String> {
    let whoami = server.answer(adapter.validate());
    let sync = match adapter.validate_done(&Some(whoami)) {
        StartStep::CatchUp { request, sync } => {
            let first = server.answer(request);
            adapter.initial_sync_done(&Some(first));
            sync
        }
        StartStep::Run(sync) => sync,
        StartStep::Failed(StartError::Refused(error)) => return Err(error.message()),
        StartStep::Failed(StartError::Unreachable) => return Err("no reply".to_string()),
    };
    Ok(Session { adapter, sync, server, event: None, pauses: vec![] })
}

impl Session {
    fn turn(&self) -> SyncEvent {
        self.adapter.turn()
    }

    /// The next message, `None` once the loop was left.
    fn next(&mut self) -> Option<ChannelMessage> {
        let mut event = match self.event.take() {
            Some(event) => event,
            None => self.turn(),
        };
        loop {
            event = match self.sync.step(event) {
                SyncAction::Poll(request) => SyncEvent::Replied(self.server.answer(request)),
                SyncAction::Pause(secs) => {
                    self.pauses.push(secs);
                    self.turn()
                }
                SyncAction::Again => self.turn(),
                SyncAction::Store(token) => {
                    self.adapter.store_since(token);
                    SyncEvent::Finished
                }
                SyncAction::Join(request) => {
                    self.server.answer(request);
                    SyncEvent::Finished
                }
                SyncAction::Count(request) => SyncEvent::Counted(Some(self.server.answer(request))),
                SyncAction::Hand(message) => {
                    self.event = Some(SyncEvent::Handed(true));
                    return Some(message);
                }
                SyncAction::Exit => return None,
                SyncAction::Ignore => panic!("no event was expected"),
            }
        }
    }
}

fn bot(token: &str, rooms: Vec<String>) -> MatrixAdapter {
    MatrixAdapter::new(HOME.to_string(), "@bot:test.org".to_string(), token.to_string(), rooms, false)
}

#[test]
fn test_matrix_adapter_creation() {
    let adapter = MatrixAdapter::new(
        "https://matrix.org".to_string(),
        "@bot:matrix.org".to_string(),
        "access_token".to_string(),
        vec![],
        false,
    );
    assert_eq!(adapter.name(), "matrix");
    assert_eq!(adapter.channel_type(), ChannelType::Matrix);
    assert_eq!(adapter.access_token(), "access_token");
    assert_eq!(adapter.since_token(), None);
}

#[test]
fn test_matrix_allowed_rooms() {
    let adapter = MatrixAdapter::new(
        "https://matrix.org".to_string(),
        "@bot:matrix.org".to_string(),
        "token".to_string(),
        vec!["!room1:matrix.org".to_string()],
        false,
    );
    assert!(adapter.is_allowed_room("!room1:matrix.org"));
    assert!(!adapter.is_allowed_room("!room2:matrix.org"));

    let open = MatrixAdapter::new(
        "https://matrix.org".to_string(),
        "@bot:matrix.org".to_string(),
        "token".to_string(),
        vec![],
        false,
    );
    assert!(open.is_allowed_room("!any:matrix.org"));
}

#[test]
fn test_adapter_auth_and_start() {
    let server = Server::new(|_, _| (200, sync_response_empty("batch_0")));
    let started = start(bot("test_token", vec![]), server);
    assert!(started.is_ok(), "Adapter should start successfully");
    let mut session = started.ok().unwrap();
    assert_eq!(session.adapter.since_token(), Some("batch_0".to_string()));
    session.adapter.stop();
    assert!(session.next().is_none());
}

#[test]
fn test_adapter_auth_failure() {
    let mut server = Server::new(|_, _| (200, sync_response_empty("batch_0")));
    server.whoami =
        (401, r#"{"errcode": "M_UNKNOWN_TOKEN", "error": "Invalid token"}"#.to_string());
    let result = start(bot("bad_token", vec![]), server);
    assert!(result.is_err(), "Should fail with bad token");
    let err = result.err().unwrap();
    assert!(
        err.contains("authentication failed"),
        "Error should mention auth failure, got: {err}"
    );
}

#[test]
fn test_sync_receives_message() {
    let server = Server::new(|count, query| {
        if !query.contains("since=") || count == 0 {
            (200, sync_response_empty("batch_1"))
        } else {
            (
                200,
                sync_response_with_message(
                    "batch_2",
                    "!testroom:test.org",
                    "@alice:test.org",
                    "$event1",
                    "Hello OpenFang!",
                ),
            )
        }
    });
    let mut session = start(bot("test_token", vec![]), server).unwrap();
    let msg = session.next();
    assert!(msg.is_some(), "Stream should produce a message");
    let msg = msg.unwrap();
    assert_eq!(msg.sender.display_name, "@alice:test.org");
    assert_eq!(msg.sender.platform_id, "!testroom:test.org");
    match &msg.content {
        ChannelContent::Text(text) => assert_eq!(text, "Hello OpenFang!"),
        _ => panic!("Expected text message"),
    }
    assert_eq!(msg.channel, ChannelType::Matrix);
    assert_eq!(msg.platform_message_id, "$event1");
    assert!(!msg.is_group);
    assert_eq!(msg.target_agent, None);
    assert_eq!(msg.thread_id, None);
    assert_eq!(session.adapter.since_token(), Some("batch_2".to_string()));
}

#[test]
fn test_sync_skips_own_messages() {
    let server = Server::new(|count, query| {
        if !query.contains("since=") || count == 0 {
            (200, sync_response_empty("batch_1"))
        } else if count == 1 {
            (
                200,
                sync_response_with_message(
                    "batch_2",
                    "!room:test.org",
                    "@bot:test.org",
                    "$own_event",
                    "I am the bot",
                ),
            )
        } else {
            (
                200,
                sync_response_with_message(
                    "batch_3",
                    "!room:test.org",
                    "@human:test.org",
                    "$human_event",
                    "This should arrive",
                ),
            )
        }
    });
    let mut session = start(bot("test_token", vec![]), server).unwrap();
    let msg = session.next().expect("Stream should not end");
    assert_eq!(msg.sender.display_name, "@human:test.org");
    match &msg.content {
        ChannelContent::Text(text) => assert_eq!(text, "This should arrive"),
        _ => panic!("Expected text"),
    }
}

#[test]
fn test_sync_retries_on_error() {
    let server = Server::new(|count, query| {
        if !query.contains("since=") || count == 0 {
            (200, sync_response_empty("batch_1"))
        } else if count <= 2 {
            (500, r#"{"error": "Internal Server Error"}"#.to_string())
        } else {
            (
                200,
                sync_response_with_message(
                    "batch_2",
                    "!room:test.org",
                    "@user:test.org",
                    "$after_error",
                    "Message after errors",
                ),
            )
        }
    });
    let mut session = start(bot("test_token", vec![]), server).unwrap();
    let msg = session.next().expect("Stream should produce message");
    match &msg.content {
        ChannelContent::Text(text) => assert_eq!(text, "Message after errors"),
        _ => panic!("Expected text"),
    }
    assert_eq!(session.pauses, vec![1, 2]);
}

#[test]
fn test_shutdown_stops_sync() {
    let server = Server::new(|_, _| (200, sync_response_empty("batch_1")));
    let mut session = start(bot("test_token", vec![]), server).unwrap();
    // The request is on its way when the loop is told to stop.
    let turn = session.turn();
    assert!(matches!(session.sync.step(turn), SyncAction::Poll(_)));
    session.adapter.stop();
    session.event = Some(SyncEvent::Shutdown);
    assert!(session.next().is_none(), "Stream should return None after shutdown");
    assert!(session.sync.step(SyncEvent::Shutdown) == SyncAction::Ignore);
}

#[test]
fn test_command_parsing() {
    let server = Server::new(|count, query| {
        if !query.contains("since=") || count == 0 {
            (200, sync_response_empty("batch_1"))
        } else {
            (
                200,
                sync_response_with_message(
                    "batch_2",
                    "!room:test.org",
                    "@user:test.org",
                    "$cmd_event",
                    "/help me now",
                ),
            )
        }
    });
    let mut session = start(bot("test_token", vec![]), server).unwrap();
    let msg = session.next().unwrap();
    match &msg.content {
        ChannelContent::Command { name, args } => {
            assert_eq!(name, "help");
            assert_eq!(args, &["me", "now"]);
        }
        _ => panic!("Expected command, got {:?}", msg.content),
    }
}

#[test]
fn test_dedup_events() {
    let server = Server::new(|count, query| {
        if !query.contains("since=") || count == 0 {
            (200, sync_response_empty("batch_1"))
        } else if count <= 2 {
            (
                200,
                sync_response_with_message(
                    "batch_2",
                    "!room:test.org",
                    "@user:test.org",
                    "$same_event",
                    "Duplicate message",
                ),
            )
        } else {
            (
                200,
                sync_response_with_message(
                    "batch_3",
                    "!room:test.org",
                    "@user:test.org",
                    "$unique_event",
                    "Unique message",
                ),
            )
        }
    });
    let mut session = start(bot("test_token", vec![]), server).unwrap();
    let msg1 = session.next().unwrap();
    assert!(matches!(&msg1.content, ChannelContent::Text(t) if t == "Duplicate message"));
    let msg2 = session.next().unwrap();
    assert!(matches!(&msg2.content, ChannelContent::Text(t) if t == "Unique message"));
}

#[test]
fn test_allowed_rooms_filter() {
    let server = Server::new(|count, query| {
        if !query.contains("since=") || count == 0 {
            (200, sync_response_empty("batch_1"))
        } else if count == 1 {
            (
                200,
                sync_response_with_message(
                    "batch_2",
                    "!blocked:test.org",
                    "@user:test.org",
                    "$blocked",
                    "Should be filtered",
                ),
            )
        } else {
            (
                200,
                sync_response_with_message(
                    "batch_3",
                    "!allowed:test.org",
                    "@user:test.org",
                    "$allowed",
                    "Should pass through",
                ),
            )
        }
    });
    let rooms = vec!["!allowed:test.org".to_string()];
    let mut session = start(bot("test_token", rooms), server).unwrap();
    let msg = session.next().unwrap();
    assert_eq!(msg.sender.platform_id, "!allowed:test.org");
    assert!(matches!(&msg.content, ChannelContent::Text(t) if t == "Should pass through"));
}

#[test]
fn the_account_that_the_homeserver_names_counts() {
    // The adapter was set up with another spelling of its own account.
    let mut server = Server::new(|count, _| match count {
        0 => (200, sync_response_empty("b1")),
        1 => (200, sync_response_with_message("b2", "!r", "@Bot:test.org", "$1", "mine")),
        _ => (200, sync_response_with_message("b3", "!r", "@bot:test.org", "$2", "theirs")),
    });
    server.whoami = (200, whoami_response("@Bot:test.org"));
    let mut session = start(bot("t", vec![]), server).unwrap();
    let msg = session.next().unwrap();
    assert_eq!(msg.sender.display_name, "@bot:test.org");
}

#[test]
fn every_request_goes_on_where_the_last_reply_ended() {
    let server = Server::new(|count, _| match count {
        0 => (200, sync_response_empty("first")),
        1 => (200, sync_response_empty("second")),
        2 => (503, "busy".to_string()),
        _ => (200, sync_response_with_message("third", "!r", "@a", "$1", "hi")),
    });
    let mut session = start(bot("t", vec![]), server).unwrap();
    session.next().unwrap();
    let sync = "http://localhost:8008/_matrix/client/v3/sync?timeout=30000\
                &filter={\"room\":{\"timeline\":{\"limit\":10}}}&since=";
    let urls: Vec<&str> = session.server.asked.iter().map(|r| r.url.as_str()).collect();
    assert_eq!(
        urls,
        vec![
            "http://localhost:8008/_matrix/client/v3/account/whoami",
            "http://localhost:8008/_matrix/client/v3/sync?timeout=0\
             &filter={\"room\":{\"timeline\":{\"limit\":0}}}",
            format!("{sync}first").as_str(),
            format!("{sync}second").as_str(),
            format!("{sync}second").as_str(),
            "http://localhost:8008/_matrix/client/v3/rooms/!r/joined_members",
        ]
    );
    assert!(session.server.asked.iter().all(|r| r.method == Method::Get && r.body.is_none()));
    assert!(session.server.asked.iter().all(|r| r.bearer.text() == "t"));
    assert_eq!(session.pauses, vec![1]);
}

#[test]
fn an_earlier_run_is_gone_on_with() {
    let mut adapter = bot("t", vec![]);
    adapter.store_since("kept".to_string());
    assert!(adapter.initial_sync().is_none());
    assert_eq!(adapter.turn(), SyncEvent::Turn { shutdown: false, since: Some("kept".to_string()) });
}

#[test]
fn the_first_sync_sets_the_place_even_if_it_was_set_meanwhile() {
    let mut adapter = bot("t", vec![]);
    assert!(adapter.initial_sync().is_some());
    adapter.store_since("meanwhile".to_string());
    adapter.initial_sync_done(&Some(reply(200, &sync_response_empty("first"))));
    assert_eq!(adapter.since_token(), Some("first".to_string()));
    adapter.initial_sync_done(&None);
    assert_eq!(adapter.since_token(), Some("first".to_string()));
}

#[test]
fn no_room_is_joined_twice() {
    // A name that comes twice in an object counts once.
    let body = r#"{"rooms": {"invite": {"!a": {}, "!b": {}, "!a": null}}}"#;
    let adapter = MatrixAdapter::new(
        HOME.to_string(),
        "@bot:test.org".to_string(),
        "t".to_string(),
        vec![],
        true,
    );
    let mut sync = adapter.start("@bot:test.org".to_string());
    sync.step(SyncEvent::Turn { shutdown: false, since: None });
    assert!(matches!(sync.step(SyncEvent::Replied(reply(200, body))), SyncAction::Join(_)));
    assert!(matches!(sync.step(SyncEvent::Finished), SyncAction::Join(_)));
    assert!(sync.step(SyncEvent::Finished) == SyncAction::Again);
}

#[test]
fn a_failed_first_sync_leaves_the_place_open() {
    for missing in [
        None,
        Some(reply(500, &sync_response_empty("x"))),
        Some(reply(200, "no json")),
        Some(reply(200, r#"{"next_batch": 7}"#)),
        Some(Reply { status: 200, body: None }),
    ] {
        let mut adapter = bot("t", vec![]);
        adapter.initial_sync_done(&missing);
        assert_eq!(adapter.since_token(), None);
        assert!(adapter.initial_sync().is_some());
    }
}

#[test]
fn invitations_are_followed_before_messages_are_handed_on() {
    let body = r#"{"next_batch": "b2", "rooms": {
        "invite": {"!b": {}, "!a": {}, "!c": {}},
        "join": {"!a": {"timeline": {"events": [
            {"type": "m.room.message", "sender": "@x", "event_id": "$1", "content": {"body": "hi"}}
        ]}}}
    }}"#;
    let adapter = MatrixAdapter::new(
        HOME.to_string(),
        "@bot:test.org".to_string(),
        "t".to_string(),
        vec!["!a".to_string(), "!c".to_string()],
        true,
    );
    let mut sync = adapter.start("@bot:test.org".to_string());
    sync.step(SyncEvent::Turn { shutdown: false, since: None });
    assert!(
        sync.step(SyncEvent::Replied(reply(200, body))) == SyncAction::Store("b2".to_string())
    );
    let join = |room: &str| {
        SyncAction::Join(Request {
            method: Method::Post,
            url: format!("{HOME}/_matrix/client/v3/rooms/{room}/join"),
            bearer: AccessToken::new("t".to_string()),
            body: Some("{}".to_string()),
        })
    };
    assert!(sync.step(SyncEvent::Finished) == join("!a"));
    assert!(sync.step(SyncEvent::Finished) == join("!c"));
    assert!(matches!(sync.step(SyncEvent::Finished), SyncAction::Count(_)));
    assert!(matches!(sync.step(SyncEvent::Counted(None)), SyncAction::Hand(_)));
    assert!(sync.step(SyncEvent::Handed(true)) == SyncAction::Again);
}

#[test]
fn invitations_are_left_alone_unless_they_are_to_be_followed() {
    let body = r#"{"rooms": {"invite": {"!a": {}}}}"#;
    let mut sync = bot("t", vec![]).start("@bot:test.org".to_string());
    sync.step(SyncEvent::Turn { shutdown: false, since: None });
    assert!(sync.step(SyncEvent::Replied(reply(200, body))) == SyncAction::Again);
}

#[test]
fn a_start_that_fails_asks_nothing_more() {
    let body = || Some(whoami_response("@bot:test.org").into_bytes());
    for (whoami, error) in [
        (None, StartError::Unreachable),
        (Some(Reply { status: 200, body: None }), StartError::Unreachable),
        (
            Some(Reply { status: 401, body: body() }),
            StartError::Refused(MatrixError::AuthenticationFailed),
        ),
        (
            Some(Reply { status: 500, body: None }),
            StartError::Refused(MatrixError::AuthenticationFailed),
        ),
        (Some(reply(200, "<html>")), StartError::Refused(MatrixError::Decode)),
    ] {
        let adapter = bot("t", vec![]);
        match adapter.validate_done(&whoami) {
            StartStep::Failed(e) => assert_eq!(e, error),
            _ => panic!("a start without an account"),
        }
        assert_eq!(adapter.since_token(), None);
    }
}

#[test]
fn a_start_succeeds_even_if_the_first_sync_fails() {
    let server = Server::new(|count, _| match count {
        0 => (500, "down".to_string()),
        _ => (200, sync_response_with_message("b1", "!r", "@a", "$1", "hi")),
    });
    let mut session = start(bot("t", vec![]), server).unwrap();
    assert_eq!(session.adapter.since_token(), None);
    assert!(session.next().is_some());
    assert_eq!(session.server.asked.len(), 4);
}

#[test]
fn a_start_that_goes_on_skips_the_first_sync() {
    let mut adapter = bot("t", vec![]);
    adapter.store_since("kept".to_string());
    let whoami = reply(200, &whoami_response("@bot:test.org"));
    assert!(matches!(adapter.validate_done(&Some(whoami)), StartStep::Run(_)));
}

#[test]
fn a_loop_begins_only_for_an_account() {
    let adapter = bot("t", vec![]);
    let whoami = whoami_response("@bot:test.org");
    assert!(adapter.begin(200, whoami.as_bytes()).is_ok());
    assert!(matches!(
        adapter.begin(403, whoami.as_bytes()),
        Err(MatrixError::AuthenticationFailed)
    ));
    assert!(matches!(adapter.begin(200, b""), Err(MatrixError::Decode)));
}

#[test]
fn stopping_is_for_good() {
    let server = Server::new(|_, _| (200, sync_response_empty("b1")));
    let mut adapter = bot("t", vec![]);
    assert_eq!(adapter.turn(), SyncEvent::Turn { shutdown: false, since: None });
    adapter.stop();
    adapter.stop();
    let mut session = start(adapter, server).unwrap();
    assert!(session.next().is_none());
    session.adapter.store_since("b2".to_string());
    assert_eq!(
        session.adapter.turn(),
        SyncEvent::Turn { shutdown: true, since: Some("b2".to_string()) }
    );
    // Nobody waited for events.
    let urls: Vec<&str> = session.server.asked.iter().map(|r| r.url.as_str()).collect();
    assert_eq!(urls.len(), 2);
    assert!(urls.iter().all(|url| !url.contains("timeout=30000")));
}

#[test]
fn a_reply_in_hand_is_still_processed_after_a_stop() {
    let body = sync_response_with_message("b2", "!r", "@a", "$1", "hi");
    let server = Server::new(|_, _| (200, sync_response_empty("b1")));
    let mut session = start(bot("t", vec![]), server).unwrap();
    let turn = session.turn();
    assert!(matches!(session.sync.step(turn), SyncAction::Poll(_)));
    session.adapter.stop();
    session.event = Some(SyncEvent::Replied(reply(200, &body)));
    assert!(session.next().is_some());
    let asked = session.server.asked.len();
    assert!(session.next().is_none());
    assert_eq!(session.server.asked.len(), asked);
}
