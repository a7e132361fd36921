//! What goes to the homeserver, and what comes back.

use matrix_channel::adapter::MatrixAdapter;
use matrix_channel::delivery::{split_message, Delivery, SendStep, MAX_MESSAGE_LEN};
use matrix_channel::json::{as_text, lookup, parse_json, Json};
use matrix_channel::outside::AccessToken;
use matrix_channel::replies::{
    account, api_error_message, count_listed, first_sync_token, is_success, member_count,
    next_batch, read_document, validated_user, MatrixError, Reply,
};
use matrix_channel::requests::{
    first_sync_request, join_request, members_request, message_address, message_request,
    next_sync_request, typing_request, whoami_request, Method, Request, CONNECT_TIMEOUT_SECS,
    REQUEST_TIMEOUT_SECS, SYNC_TIMEOUT_MS,
};
use matrix_channel::types::{ChannelContent, ChannelUser};

const HOME: &str = "https://matrix.org";

fn json(text: &str) -> Json {
    parse_json(text.as_bytes()).expect("JSON")
}

fn token() -> AccessToken {
    AccessToken::new("secret".to_string())
}

fn get(url: &str) -> Request {
    Request { method: Method::Get, url: url.to_string(), bearer: token(), body: None }
}

fn reply(status: u16, body: &str) -> Option<Reply> {
    Some(Reply { status, body: Some(body.as_bytes().to_vec()) })
}

fn adapter() -> MatrixAdapter {
    MatrixAdapter::new(
        HOME.to_string(),
        "@bot:matrix.org".to_string(),
        "secret".to_string(),
        vec![],
        false,
    )
}

fn user() -> ChannelUser {
    ChannelUser {
        platform_id: "!room:hs".to_string(),
        display_name: "@alice:hs".to_string(),
        openfang_user: None,
    }
}

/// The requests that put a delivery whose pieces are all accepted.
fn put_all(delivery: Delivery) -> Vec<Request> {
    let mut requests = vec![];
    let mut step = delivery.proceed();
    loop {
        step = match step {
            SendStep::Put { request, rest } => {
                requests.push(request);
                rest.answered(200, String::new())
            }
            SendStep::Done => return requests,
            SendStep::Failed(error) => panic!("{error:?}"),
        }
    }
}

fn body_text(request: &Request) -> String {
    let body = json(request.body.as_ref().unwrap());
    as_text(lookup(Some(&body), "body")).unwrap().to_string()
}

#[test]
fn limits_are_as_documented() {
    assert_eq!(SYNC_TIMEOUT_MS, 30000);
    assert_eq!(REQUEST_TIMEOUT_SECS, 90);
    assert_eq!(CONNECT_TIMEOUT_SECS, 30);
    assert_eq!(MAX_MESSAGE_LEN, 4096);
}

#[test]
fn requests_have_the_addresses_of_the_client_server_api() {
    assert!(
        whoami_request(HOME, &token())
            == get("https://matrix.org/_matrix/client/v3/account/whoami")
    );
    assert!(
        first_sync_request(HOME, &token())
            == get("https://matrix.org/_matrix/client/v3/sync?timeout=0&filter={\"room\":{\"timeline\":{\"limit\":0}}}")
    );
    assert!(
        next_sync_request(HOME, &token(), &None)
            == get("https://matrix.org/_matrix/client/v3/sync?timeout=30000&filter={\"room\":{\"timeline\":{\"limit\":10}}}")
    );
    assert!(
        next_sync_request(HOME, &token(), &Some("s1_2".to_string()))
            == get("https://matrix.org/_matrix/client/v3/sync?timeout=30000&filter={\"room\":{\"timeline\":{\"limit\":10}}}&since=s1_2")
    );
    assert!(
        members_request(HOME, &token(), "!r:hs")
            == get("https://matrix.org/_matrix/client/v3/rooms/!r:hs/joined_members")
    );
    assert!(
        join_request(HOME, &token(), "!r:hs")
            == Request {
            method: Method::Post,
            url: "https://matrix.org/_matrix/client/v3/rooms/!r:hs/join".to_string(),
            bearer: token(),
            body: Some("{}".to_string()),
        }
    );
    assert!(
        typing_request(HOME, &token(), "!r:hs", "@bot:hs")
            == Request {
            method: Method::Put,
            url: "https://matrix.org/_matrix/client/v3/rooms/!r:hs/typing/@bot:hs".to_string(),
            bearer: token(),
            body: Some(r#"{"timeout":5000,"typing":true}"#.to_string()),
        }
    );
    assert_eq!(
        message_address(HOME, "!r:hs", "t1"),
        "https://matrix.org/_matrix/client/v3/rooms/!r:hs/send/m.room.message/t1"
    );
    assert!(
        message_request("https://x/y", &token(), "say \"hi\"")
            == Request {
            method: Method::Put,
            url: "https://x/y".to_string(),
            bearer: token(),
            body: Some(r#"{"body":"say \"hi\"","msgtype":"m.text"}"#.to_string()),
        }
    );
}

#[test]
fn the_adapter_asks_for_its_own_account() {
    assert!(adapter().validate() == whoami_request(HOME, &token()));
    assert!(adapter().initial_sync() == Some(first_sync_request(HOME, &token())));
    assert!(
        adapter().send_typing(&user())
            == typing_request(HOME, &token(), "!room:hs", "@bot:matrix.org")
    );
    assert_eq!(adapter().access_token(), "secret");
}

#[test]
fn any_text_survives_the_way_through_json() {
    for text in ["", "plain", "\"quoted\" \\ back", "line\nbreak\ttab\u{0}", "żółw 🐢 \u{2028}"] {
        let request = message_request("u", &token(), text);
        assert_eq!(body_text(&request), text);
        let body = json(request.body.as_ref().unwrap());
        assert_eq!(as_text(lookup(Some(&body), "msgtype")), Some("m.text"));
    }
}

#[test]
fn a_text_that_fits_is_one_piece() {
    assert_eq!(split_message("", 4096), vec![""]);
    assert_eq!(split_message("abcd", 4), vec!["abcd"]);
    let long = "x".repeat(4096);
    assert_eq!(split_message(&long, 4096), vec![long]);
}

#[test]
fn a_longer_text_is_cut_where_it_no_longer_fits() {
    assert_eq!(split_message("abcde", 4), vec!["abcd", "e"]);
    assert_eq!(split_message("abcdefghi", 4), vec!["abcd", "efgh", "i"]);
    let chunks = split_message(&"x".repeat(10000), 4096);
    assert_eq!(chunks.iter().map(|c| c.len()).collect::<Vec<usize>>(), vec![4096, 4096, 1808]);
}

#[test]
fn no_character_is_cut_in_two() {
    // One, two, three and four bytes.
    assert_eq!(split_message("aé€😀", 4), vec!["aé", "€", "😀"]);
    assert_eq!(split_message("abc😀", 6), vec!["abc", "😀"]);
    assert_eq!(split_message("\u{7f}\u{80}\u{7ff}\u{800}\u{ffff}\u{10000}", 5), vec![
        "\u{7f}\u{80}\u{7ff}",
        "\u{800}",
        "\u{ffff}",
        "\u{10000}",
    ]);
}

#[test]
fn pieces_make_the_text_and_fit() {
    let text: String = "aé€😀 żółw ".chars().cycle().take(5000).collect();
    for max in [4, 5, 7, 100, 4096] {
        let chunks = split_message(&text, max);
        assert_eq!(chunks.concat(), text);
        assert!(chunks.iter().all(|c| !c.is_empty() && c.len() <= max));
        for pair in chunks.windows(2) {
            assert!(pair[0].len() + pair[1].chars().next().unwrap().len_utf8() > max);
        }
    }
}

#[test]
fn pieces_are_put_in_order_at_one_address() {
    let text = format!("{}{}", "a".repeat(4096), "b".repeat(10));
    let requests = put_all(adapter().compose("!room:hs", split_message(&text, MAX_MESSAGE_LEN), "txn"));
    assert_eq!(requests.len(), 2);
    assert!(requests.iter().all(|r| r.method == Method::Put
        && r.bearer.text() == "secret"
        && r.url == "https://matrix.org/_matrix/client/v3/rooms/!room:hs/send/m.room.message/txn"));
    assert_eq!(body_text(&requests[0]), "a".repeat(4096));
    assert_eq!(body_text(&requests[1]), "b".repeat(10));
}

#[test]
fn an_empty_text_is_sent_as_one_message() {
    let requests = put_all(adapter().compose("!r", split_message("", MAX_MESSAGE_LEN), "t"));
    assert_eq!(requests.len(), 1);
    assert_eq!(body_text(&requests[0]), "");
}

#[test]
fn a_delivery_without_pieces_is_done() {
    let empty = Delivery { url: "u".to_string(), bearer: token(), chunks: vec![], put: 0 };
    assert!(empty.proceed() == SendStep::Done);
}

#[test]
fn a_refusal_ends_the_delivery() {
    let text = "a".repeat(5000);
    let rest = match adapter().compose("!r", split_message(&text, MAX_MESSAGE_LEN), "t").proceed() {
        SendStep::Put { rest, .. } => rest,
        _ => panic!("unexpected step"),
    };
    let step = rest.answered(403, "{\"errcode\":\"M_FORBIDDEN\"}".to_string());
    match step {
        SendStep::Failed(error) => {
            assert_eq!(
                error,
                MatrixError::Api { status: 403, body: "{\"errcode\":\"M_FORBIDDEN\"}".to_string() }
            );
            assert_eq!(
                error.message(),
                "Matrix API error 403 Forbidden: {\"errcode\":\"M_FORBIDDEN\"}"
            );
        }
        _ => panic!("unexpected step"),
    }
}

#[test]
fn every_message_has_an_identifier_of_its_own() {
    let prefix = "https://matrix.org/_matrix/client/v3/rooms/!room:hs/send/m.room.message/";
    let ids: Vec<String> = (0..2)
        .map(|_| {
            let delivery = adapter().api_send_message("!room:hs", "hi");
            delivery.url.strip_prefix(prefix).expect("the address").to_string()
        })
        .collect();
    assert_ne!(ids[0], ids[1]);
    for id in ids {
        assert_eq!(id.len(), 36);
        for (i, c) in id.chars().enumerate() {
            match i {
                8 | 13 | 18 | 23 => assert_eq!(c, '-'),
                14 => assert_eq!(c, '4'),
                19 => assert!("89ab".contains(c)),
                _ => assert!(c.is_ascii_digit() || ('a'..='f').contains(&c)),
            }
        }
    }
}

#[test]
fn contents_other_than_text_are_replaced_by_a_notice() {
    let text = adapter().send(&user(), ChannelContent::Text("hello".to_string()));
    assert_eq!(text.chunks, vec!["hello"]);
    assert!(text.url.contains("/rooms/!room:hs/send/"));
    let command = ChannelContent::Command { name: "help".to_string(), args: vec![] };
    assert_eq!(adapter().send(&user(), command).chunks, vec!["(Unsupported content type)"]);
}

#[test]
fn errors_explain_themselves() {
    assert_eq!(MatrixError::AuthenticationFailed.message(), "Matrix authentication failed");
    assert_eq!(MatrixError::Decode.message(), "error decoding response body");
    for (status, line) in [
        (401, "401 Unauthorized"),
        (429, "429 Too Many Requests"),
        (500, "500 Internal Server Error"),
        (599, "599 <unknown status code>"),
    ] {
        let error = MatrixError::Api { status, body: "why".to_string() };
        assert_eq!(error.message(), format!("Matrix API error {line}: why"));
    }
    assert_eq!(api_error_message("418 I'm a teapot", ""), "Matrix API error 418 I'm a teapot: ");
}

#[test]
fn a_whoami_reply_names_the_account() {
    let body = br#"{"user_id": "@bot:hs"}"#;
    assert_eq!(validated_user(200, body), Ok("@bot:hs".to_string()));
    assert_eq!(validated_user(200, b"{}"), Ok("unknown".to_string()));
    assert_eq!(validated_user(200, b"[1, 2]"), Ok("unknown".to_string()));
    assert_eq!(validated_user(200, br#"{"user_id": 5}"#), Ok("unknown".to_string()));
    assert_eq!(validated_user(401, body), Err(MatrixError::AuthenticationFailed));
    assert_eq!(validated_user(302, body), Err(MatrixError::AuthenticationFailed));
    assert_eq!(validated_user(200, b"{\"user_id\""), Err(MatrixError::Decode));
    assert_eq!(account(&json(r#"{"user_id": "@x"}"#)), "@x");
}

#[test]
fn a_sync_reply_tells_where_it_ends() {
    assert_eq!(next_batch(&json(r#"{"next_batch": "s9"}"#)), Some("s9".to_string()));
    assert_eq!(next_batch(&json("{}")), None);
    assert_eq!(first_sync_token(&reply(200, r#"{"next_batch": "s9"}"#)), Some("s9".to_string()));
    assert_eq!(first_sync_token(&reply(404, r#"{"next_batch": "s9"}"#)), None);
    assert_eq!(first_sync_token(&reply(200, "oops")), None);
    assert_eq!(first_sync_token(&None), None);
}

#[test]
fn members_are_counted() {
    assert_eq!(member_count(&reply(200, r#"{"joined": {"@a": {}, "@b": null}}"#)), Some(2));
    assert_eq!(member_count(&reply(200, r#"{"joined": {}}"#)), Some(0));
    assert_eq!(member_count(&reply(200, r#"{"joined": 2}"#)), None);
    assert_eq!(member_count(&reply(200, "{}")), None);
    assert_eq!(member_count(&reply(500, r#"{"joined": {}}"#)), None);
    assert_eq!(member_count(&None), None);
    assert_eq!(count_listed(&json(r#"{"joined": {"@a": {}, "@a": {}, "@b": {}}}"#)), Some(2));
}

#[test]
fn documents_are_read_from_replies_that_succeeded() {
    assert!(is_success(200) && is_success(299) && !is_success(199) && !is_success(300));
    let doc = |status: u16, body: Option<Vec<u8>>| read_document(&Reply { status, body });
    assert_eq!(doc(200, Some(b"[]".to_vec())), Some(Json::Array(vec![])));
    assert_eq!(doc(404, Some(b"[]".to_vec())), None);
    assert_eq!(doc(200, Some(b"[".to_vec())), None);
    assert_eq!(doc(200, None), None);
}

#[test]
fn documents_hold_what_was_written() {
    let text = r#"{"b": [null, true, -1, 2.5, "xA"], "a": {"k": "v"}, "n": 18446744073709551615}"#;
    let number = |n: &str| Json::Number(n.to_string());
    assert_eq!(
        json(text),
        Json::Object(vec![
            (
                "a".to_string(),
                Json::Object(vec![("k".to_string(), Json::Text("v".to_string()))])
            ),
            (
                "b".to_string(),
                Json::Array(vec![
                    Json::Null,
                    Json::Bool(true),
                    number("-1"),
                    number("2.5"),
                    Json::Text("xA".to_string()),
                ])
            ),
            ("n".to_string(), number("18446744073709551615")),
        ])
    );
    for bad in [&b""[..], b"{", b"nul", b"{} x", b"'a'", b"\"\xff\""] {
        assert_eq!(parse_json(bad), None);
    }
}

#[test]
fn tokens_are_told_apart_by_their_characters() {
    let token = AccessToken::new("secret".to_string());
    assert_eq!(token.text(), "secret");
    assert_eq!(token.copy().text(), "secret");
    assert!(token == token.copy());
    assert!(token != AccessToken::new("other".to_string()));
}

#[test]
fn a_text_can_be_cut_in_any_way() {
    let chunks = vec!["a".to_string(), "bc".to_string()];
    let requests = put_all(adapter().compose("!r", chunks, "t"));
    assert_eq!(requests.iter().map(body_text).collect::<Vec<String>>(), vec!["a", "bc"]);
}
