//! The sync loop, one event at a time.

use matrix_channel::events::PendingMessage;
use matrix_channel::json::{parse_json, Json};
use matrix_channel::outside::AccessToken;
use matrix_channel::replies::Reply;
use matrix_channel::requests::Method;
use matrix_channel::sync::{
    complete_message, is_group, note, SyncAction, SyncEvent, SyncLoop, FIRST_BACKOFF_SECS,
    MAX_BACKOFF_SECS,
};
use matrix_channel::types::{ChannelContent, Timestamp};

const TWO_MESSAGES: &str = r#"{"rooms": {"join": {"!r": {"timeline": {"events": [
    {"type": "m.room.message", "sender": "@a", "event_id": "$1", "content": {"body": "one"}},
    {"type": "m.room.message", "sender": "@b", "event_id": "$2", "content": {"body": "two"}}
]}}}}}"#;

fn new_loop() -> SyncLoop {
    SyncLoop::new(
        "https://hs".to_string(),
        AccessToken::new("secret".to_string()),
        "@bot".to_string(),
        vec![],
        true,
    )
}

fn turn() -> SyncEvent {
    SyncEvent::Turn { shutdown: false, since: None }
}

fn replied(status: u16, body: &str) -> SyncEvent {
    SyncEvent::Replied(Reply { status, body: Some(body.as_bytes().to_vec()) })
}

fn counted(count: usize) -> SyncEvent {
    let members: Vec<String> = (0..count).map(|i| format!(r#""@u{i}": {{}}"#)).collect();
    SyncEvent::Counted(Some(Reply {
        status: 200,
        body: Some(format!(r#"{{"joined": {{{}}}}}"#, members.join(",")).into_bytes()),
    }))
}

/// A loop that waits for the size of the room of its first message.
fn counting() -> SyncLoop {
    let mut sync = new_loop();
    sync.step(turn());
    assert!(matches!(sync.step(replied(200, TWO_MESSAGES)), SyncAction::Count(_)));
    sync
}

#[test]
fn pauses_double_up_to_a_minute() {
    assert_eq!((FIRST_BACKOFF_SECS, MAX_BACKOFF_SECS), (1, 60));
    let mut sync = new_loop();
    let mut pauses: Vec<SyncAction> = vec![];
    for i in 0..9 {
        assert!(matches!(sync.step(turn()), SyncAction::Poll(_)));
        pauses.push(if i % 2 == 0 {
            sync.step(SyncEvent::Unreachable)
        } else {
            sync.step(replied(502, "bad gateway"))
        });
    }
    let expected: Vec<SyncAction> =
        [1, 2, 4, 8, 16, 32, 60, 60, 60].into_iter().map(SyncAction::Pause).collect();
    assert!(pauses == expected);
}

#[test]
fn success_ends_the_pauses() {
    let mut sync = new_loop();
    for _ in 0..3 {
        sync.step(turn());
        sync.step(SyncEvent::Unreachable);
    }
    sync.step(turn());
    // A reply with a good status ends the pauses, even one that is not JSON.
    assert!(sync.step(replied(200, "<html>")) == SyncAction::Again);
    sync.step(turn());
    assert!(sync.step(SyncEvent::Unreachable) == SyncAction::Pause(1));
}

#[test]
fn unreadable_replies_are_asked_for_again() {
    let mut sync = new_loop();
    sync.step(turn());
    assert!(sync.step(replied(200, "")) == SyncAction::Again);
    sync.step(turn());
    let unread = SyncEvent::Replied(Reply { status: 200, body: None });
    assert!(sync.step(unread) == SyncAction::Again);
    assert!(matches!(sync.step(turn()), SyncAction::Poll(_)));
}

#[test]
fn statuses_of_success_are_those_of_the_two_hundreds() {
    for (status, good) in [(199, false), (200, true), (204, true), (299, true), (300, false)] {
        let mut sync = new_loop();
        sync.step(turn());
        let action = sync.step(replied(status, "{}"));
        assert!(action == if good { SyncAction::Again } else { SyncAction::Pause(1) });
    }
}

#[test]
fn the_loop_stops_when_told() {
    let mut before = new_loop();
    assert!(before.step(SyncEvent::Turn { shutdown: true, since: None }) == SyncAction::Exit);
    let mut waiting = new_loop();
    waiting.step(turn());
    assert!(waiting.step(SyncEvent::Shutdown) == SyncAction::Exit);
    let mut unheard = counting();
    unheard.step(SyncEvent::Counted(None));
    assert!(unheard.step(SyncEvent::Handed(false)) == SyncAction::Exit);
}

#[test]
fn a_stopped_loop_does_nothing() {
    let mut sync = new_loop();
    sync.step(SyncEvent::Turn { shutdown: true, since: None });
    assert!(sync.step(turn()) == SyncAction::Ignore);
    assert!(sync.step(replied(200, TWO_MESSAGES)) == SyncAction::Ignore);
    assert!(sync.step(SyncEvent::Finished) == SyncAction::Ignore);
}

#[test]
fn events_that_are_not_waited_for_are_ignored() {
    let mut sync = new_loop();
    assert!(sync.step(SyncEvent::Finished) == SyncAction::Ignore);
    assert!(sync.step(SyncEvent::Handed(true)) == SyncAction::Ignore);
    assert!(sync.step(counted(2)) == SyncAction::Ignore);
    assert!(sync.hand(None, Timestamp { seconds: 0, nanos: 0 }) == SyncAction::Ignore);
    assert!(matches!(sync.step(turn()), SyncAction::Poll(_)));
}

#[test]
fn messages_are_handed_on_in_order() {
    let mut sync = counting();
    let mut bodies: Vec<ChannelContent> = vec![];
    for last in [false, true] {
        match sync.step(counted(3)) {
            SyncAction::Hand(message) => bodies.push(message.content),
            _ => panic!("unexpected action"),
        }
        match sync.step(SyncEvent::Handed(true)) {
            SyncAction::Count(request) => {
                assert!(!last);
                assert_eq!(request.method, Method::Get);
                assert_eq!(request.url, "https://hs/_matrix/client/v3/rooms/!r/joined_members");
                assert_eq!(request.bearer.text(), "secret");
            }
            SyncAction::Again => assert!(last),
            _ => panic!("unexpected action"),
        }
    }
    assert_eq!(
        bodies,
        vec![ChannelContent::Text("one".to_string()), ChannelContent::Text("two".to_string())]
    );
}

#[test]
fn a_room_of_more_than_two_is_a_group() {
    for (count, group) in [(0, false), (1, false), (2, false), (3, true), (40, true)] {
        assert_eq!(is_group(Some(count)), group);
        match counting().step(counted(count)) {
            SyncAction::Hand(message) => {
                assert_eq!(message.is_group, group);
                let expected = if group { None } else { Some(&Json::Bool(true)) };
                assert_eq!(message.metadata.get("is_dm"), expected);
                assert_eq!(message.metadata.get("was_mentioned"), expected);
            }
            _ => panic!("unexpected action"),
        }
    }
    assert!(is_group(None));
}

#[test]
fn a_room_of_unknown_size_is_a_group() {
    let no_list = br#"{"joined": ["@a", "@b"]}"#.to_vec();
    for event in [
        SyncEvent::Counted(None),
        SyncEvent::Counted(Some(Reply { status: 403, body: Some(b"{}".to_vec()) })),
        SyncEvent::Counted(Some(Reply { status: 200, body: None })),
        SyncEvent::Counted(Some(Reply { status: 200, body: Some(b"?".to_vec()) })),
        SyncEvent::Counted(Some(Reply { status: 200, body: Some(no_list) })),
    ] {
        match counting().step(event) {
            SyncAction::Hand(message) => assert!(message.is_group),
            _ => panic!("unexpected action"),
        }
    }
}

#[test]
fn a_message_carries_the_time_at_which_it_is_handed_on() {
    let before = std::time::SystemTime::now().duration_since(std::time::UNIX_EPOCH).unwrap();
    let message = match counting().step(SyncEvent::Counted(None)) {
        SyncAction::Hand(message) => message,
        _ => panic!("unexpected action"),
    };
    let after = std::time::SystemTime::now().duration_since(std::time::UNIX_EPOCH).unwrap();
    let stamp = message.timestamp;
    let told = std::time::Duration::new(stamp.seconds as u64, stamp.nanos);
    assert!(before <= told && told <= after);

    let mut sync = counting();
    let now = Timestamp { seconds: 1_700_000_000, nanos: 5 };
    match sync.hand(Some(2), now) {
        SyncAction::Hand(message) => assert_eq!(message.timestamp, now),
        _ => panic!("unexpected action"),
    }
}

#[test]
fn direct_messages_count_as_mentions() {
    let yes = Some(&Json::Bool(true));
    for (mentioned, group, was_mentioned, is_dm) in [
        (false, true, None, None),
        (true, true, yes, None),
        (false, false, yes, yes),
        (true, false, yes, yes),
    ] {
        let metadata = note(mentioned, group);
        assert_eq!(metadata.get("was_mentioned"), was_mentioned);
        assert_eq!(metadata.get("is_dm"), is_dm);
        assert_eq!(metadata.entries().len(), was_mentioned.iter().len() + is_dm.iter().len());
    }
}

#[test]
fn a_complete_message_says_what_the_event_said() {
    let pending = PendingMessage {
        room_id: "!r".to_string(),
        sender: "@a".to_string(),
        event_id: "$1".to_string(),
        content: ChannelContent::Text("hi".to_string()),
        mentioned: true,
    };
    let now = Timestamp { seconds: 3, nanos: 4 };
    let message = complete_message(pending, true, now);
    assert_eq!(message.sender.platform_id, "!r");
    assert_eq!(message.sender.display_name, "@a");
    assert_eq!(message.sender.openfang_user, None);
    assert_eq!(message.platform_message_id, "$1");
    assert_eq!(message.content, ChannelContent::Text("hi".to_string()));
    assert_eq!(message.timestamp, now);
    assert!(message.is_group);
    assert_eq!(message.metadata.get("was_mentioned"), Some(&Json::Bool(true)));
}

#[test]
fn a_document_can_be_taken_in_as_it_is() {
    let mut sync = new_loop();
    let body = parse_json(br#"{"next_batch": "n", "rooms": {"invite": {"!i": {}}}}"#);
    assert!(sync.accept(&body) == SyncAction::Store("n".to_string()));
    assert!(matches!(sync.step(SyncEvent::Finished), SyncAction::Join(_)));
    assert!(sync.step(SyncEvent::Finished) == SyncAction::Again);
    assert!(sync.accept(&None) == SyncAction::Again);
}

#[test]
fn replayed_events_make_no_messages() {
    let mut sync = counting();
    for _ in 0..2 {
        assert!(matches!(sync.step(SyncEvent::Counted(None)), SyncAction::Hand(_)));
        sync.step(SyncEvent::Handed(true));
    }
    sync.step(turn());
    assert!(sync.step(replied(200, TWO_MESSAGES)) == SyncAction::Again);
}

#[test]
fn failures_forget_nothing() {
    let mut sync = counting();
    for _ in 0..2 {
        sync.step(SyncEvent::Counted(None));
        sync.step(SyncEvent::Handed(true));
    }
    sync.step(turn());
    assert!(sync.step(SyncEvent::Unreachable) == SyncAction::Pause(1));
    sync.step(turn());
    assert!(sync.step(replied(200, TWO_MESSAGES)) == SyncAction::Again);
}
