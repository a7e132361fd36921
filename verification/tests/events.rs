//! Timeline events, and the messages that they become.

use matrix_channel::events::{
    mentions_user, room_allowed, take_event, take_invitations, take_rooms, PendingMessage,
};
use matrix_channel::json::{parse_json, Json};
use matrix_channel::seen::{SeenEvents, MAX_SEEN};
use matrix_channel::types::{ChannelContent, Metadata};

fn json(text: &str) -> Json {
    parse_json(text.as_bytes()).expect("JSON")
}

fn event(sender: &str, id: &str, body: &str) -> String {
    format!(
        r#"{{"type": "m.room.message", "sender": "{sender}", "event_id": "{id}", "content": {{"body": "{body}"}}}}"#
    )
}

fn sync_body(rooms: &[(&str, Vec<String>)]) -> Json {
    let rooms: Vec<String> = rooms
        .iter()
        .map(|(room, events)| {
            format!(r#""{room}": {{"timeline": {{"events": [{}]}}}}"#, events.join(","))
        })
        .collect();
    json(&format!(r#"{{"rooms": {{"join": {{{}}}}}}}"#, rooms.join(",")))
}

fn bodies(list: &[PendingMessage]) -> Vec<String> {
    list.iter()
        .map(|p| match &p.content {
            ChannelContent::Text(text) => text.clone(),
            ChannelContent::Command { name, .. } => name.clone(),
        })
        .collect()
}

#[test]
fn an_event_becomes_a_message() {
    let mut seen = SeenEvents::new();
    let message = take_event("@bot", "!r", &json(&event("@a", "$1", "hi @bot")), &mut seen);
    assert_eq!(
        message,
        Some(PendingMessage {
            room_id: "!r".to_string(),
            sender: "@a".to_string(),
            event_id: "$1".to_string(),
            content: ChannelContent::Text("hi @bot".to_string()),
            mentioned: true,
        })
    );
    assert!(seen.contains("$1"));
}

#[test]
fn events_that_are_no_messages_of_others_leave_no_trace() {
    let mut seen = SeenEvents::new();
    for event in [
        r#"{"type": "m.room.member", "sender": "@a", "event_id": "$1", "content": {"body": "x"}}"#,
        r#"{"sender": "@a", "event_id": "$1", "content": {"body": "x"}}"#,
        r#"{"type": "m.room.message", "sender": "@bot", "event_id": "$1", "content": {"body": "x"}}"#,
        r#""m.room.message""#,
        "null",
    ] {
        assert_eq!(take_event("@bot", "!r", &json(event), &mut seen), None);
        assert!(!seen.contains("$1"));
    }
}

#[test]
fn events_without_a_text_are_remembered_but_make_no_message() {
    let mut seen = SeenEvents::new();
    for (id, content) in [
        ("$1", r#"{"body": ""}"#),
        ("$2", "{}"),
        ("$3", r#"{"body": 3}"#),
        ("$4", "null"),
    ] {
        let event = format!(
            r#"{{"type": "m.room.message", "sender": "@a", "event_id": "{id}", "content": {content}}}"#
        );
        assert_eq!(take_event("@bot", "!r", &json(&event), &mut seen), None);
        assert!(seen.contains(id));
    }
    // The same identifier with a text comes too late.
    assert_eq!(take_event("@bot", "!r", &json(&event("@a", "$1", "late")), &mut seen), None);
}

#[test]
fn events_without_an_identifier_always_arrive() {
    let mut seen = SeenEvents::new();
    let event = json(r#"{"type": "m.room.message", "sender": "@a", "content": {"body": "again"}}"#);
    for _ in 0..2 {
        let message = take_event("@bot", "!r", &event, &mut seen).unwrap();
        assert_eq!(message.event_id, "");
    }
    assert!(!seen.contains(""));
}

#[test]
fn a_sender_that_is_missing_counts_as_empty() {
    let mut seen = SeenEvents::new();
    let event = json(r#"{"type": "m.room.message", "event_id": "$1", "content": {"body": "x"}}"#);
    assert_eq!(take_event("@bot", "!r", &event, &mut seen).unwrap().sender, "");
    assert_eq!(take_event("", "!r", &event, &mut SeenEvents::new()), None);
}

#[test]
fn the_bot_is_mentioned_in_any_of_three_places() {
    for (content, expected) in [
        (r#"{"body": "hello @bot:hs, you"}"#, true),
        (r#"{"body": "hello @bo t:hs"}"#, false),
        (r#"{"body": "x", "formatted_body": "<a href='@bot:hs'>bot</a>"}"#, true),
        (r#"{"body": "x", "formatted_body": ["@bot:hs"]}"#, false),
        (r#"{"body": "x", "m.mentions": {"user_ids": ["@a", "@bot:hs"]}}"#, true),
        (r#"{"body": "x", "m.mentions": {"user_ids": ["@a", "@bot:hs2", 3]}}"#, false),
        (r#"{"body": "x", "m.mentions": {"user_ids": "@bot:hs"}}"#, false),
        (r#"{"body": "x", "m.mentions": ["@bot:hs"]}"#, false),
        ("{}", false),
    ] {
        assert_eq!(mentions_user(Some(&json(content)), "@bot:hs"), expected, "{content}");
    }
    assert!(!mentions_user(None, "@bot:hs"));
    // Every text holds the empty text.
    assert!(mentions_user(None, ""));
}

#[test]
fn only_allowed_rooms_are_listened_to() {
    let body = sync_body(&[
        ("!a", vec![event("@x", "$1", "one"), event("@x", "$2", "two")]),
        ("!b", vec![event("@x", "$3", "three")]),
        ("!c", vec![event("@x", "$4", "four")]),
    ]);
    let rooms = vec!["!c".to_string(), "!a".to_string()];
    let mut seen = SeenEvents::new();
    let list = take_rooms("@bot", &rooms, &body, &mut seen);
    assert_eq!(bodies(&list), vec!["one", "two", "four"]);
    assert!(list.iter().all(|p| room_allowed(&rooms, &p.room_id)));
    assert!(!seen.contains("$3"));
}

#[test]
fn without_a_list_all_rooms_are_listened_to() {
    assert!(room_allowed(&vec![], "!any"));
    let body = sync_body(&[
        ("!a", vec![event("@x", "$1", "one")]),
        ("!b", vec![event("@x", "$2", "two")]),
    ]);
    let list = take_rooms("@bot", &vec![], &body, &mut SeenEvents::new());
    assert_eq!(bodies(&list), vec!["one", "two"]);
}

#[test]
fn rooms_without_a_timeline_are_passed_over() {
    let body = json(
        r#"{"rooms": {"join": {
            "!a": {},
            "!b": {"timeline": {"events": {}}},
            "!c": {"timeline": {"events": [
                {"type": "m.room.message", "sender": "@x", "content": {"body": "hi"}}
            ]}}
        }}}"#,
    );
    let list = take_rooms("@bot", &vec![], &body, &mut SeenEvents::new());
    assert_eq!(bodies(&list), vec!["hi"]);
    for odd in ["{}", r#"{"rooms": []}"#, r#"{"rooms": {"join": []}}"#, "[]", "null"] {
        assert!(take_rooms("@bot", &vec![], &json(odd), &mut SeenEvents::new()).is_empty());
    }
}

#[test]
fn no_event_is_taken_twice() {
    let body = sync_body(&[
        ("!a", vec![event("@x", "$1", "one"), event("@x", "$1", "again")]),
        ("!b", vec![event("@y", "$1", "elsewhere"), event("@y", "$2", "two")]),
    ]);
    let mut seen = SeenEvents::new();
    let list = take_rooms("@bot", &vec![], &body, &mut seen);
    assert_eq!(bodies(&list), vec!["one", "two"]);
    // Nor when it comes again.
    assert!(take_rooms("@bot", &vec![], &body, &mut seen).is_empty());
}

#[test]
fn two_replies_are_taken_like_one() {
    let first = vec![event("@x", "$1", "one"), event("@x", "$2", "two")];
    let second = vec![event("@x", "$2", "two"), event("@x", "$3", "three")];
    let mut seen = SeenEvents::new();
    let mut apart = take_rooms("@bot", &vec![], &sync_body(&[("!a", first.clone())]), &mut seen);
    apart.extend(take_rooms("@bot", &vec![], &sync_body(&[("!a", second.clone())]), &mut seen));
    let all: Vec<String> = first.into_iter().chain(second).collect();
    let together =
        take_rooms("@bot", &vec![], &sync_body(&[("!a", all)]), &mut SeenEvents::new());
    assert_eq!(apart, together);
    assert_eq!(bodies(&together), vec!["one", "two", "three"]);
}

#[test]
fn the_memory_is_emptied_when_it_grows_too_large() {
    assert_eq!(MAX_SEEN, 500);
    let mut seen = SeenEvents::new();
    for i in 0..500 {
        seen.record(&format!("${i}"));
    }
    assert!((0..500).all(|i| seen.contains(&format!("${i}"))));
    // What is known already does not make it grow.
    seen.record("$7");
    assert!(seen.contains("$0"));
    seen.record("$500");
    assert!((0..=500).all(|i| !seen.contains(&format!("${i}"))));
    seen.record("$501");
    assert!(seen.contains("$501"));
}

#[test]
fn an_event_can_arrive_again_once_the_memory_was_emptied() {
    let many: Vec<String> = (0..500).map(|i| event("@x", &format!("${i}"), "x")).collect();
    let mut seen = SeenEvents::new();
    let list = take_rooms("@bot", &vec![], &sync_body(&[("!a", many.clone())]), &mut seen);
    assert_eq!(list.len(), 500);
    assert!(take_rooms("@bot", &vec![], &sync_body(&[("!a", many.clone())]), &mut seen).is_empty());
    let one_more = sync_body(&[("!a", vec![event("@x", "$500", "x")])]);
    assert_eq!(take_rooms("@bot", &vec![], &one_more, &mut seen).len(), 1);
    assert_eq!(take_rooms("@bot", &vec![], &one_more, &mut seen).len(), 1);
}

#[test]
fn invitations_to_allowed_rooms_are_listed() {
    let body = json(r#"{"rooms": {"invite": {"!a": {}, "!b": {"x": 1}, "!c": null}}}"#);
    let rooms = vec!["!c".to_string(), "!a".to_string(), "!z".to_string()];
    assert_eq!(take_invitations(&rooms, &body), vec!["!a", "!c"]);
    assert_eq!(take_invitations(&vec![], &body), vec!["!a", "!b", "!c"]);
    for odd in ["{}", r#"{"rooms": {"invite": ["!a"]}}"#, "7"] {
        assert!(take_invitations(&vec![], &json(odd)).is_empty());
    }
}

#[test]
fn metadata_keeps_one_value_for_each_name() {
    let mut metadata = Metadata::new();
    assert_eq!(metadata.get("a"), None);
    metadata.insert("a".to_string(), Json::Bool(true));
    metadata.insert("b".to_string(), Json::Null);
    metadata.insert("a".to_string(), Json::Bool(false));
    assert_eq!(metadata.get("a"), Some(&Json::Bool(false)));
    assert_eq!(metadata.get("b"), Some(&Json::Null));
    assert_eq!(metadata.entries().len(), 2);
}
