//! Message bodies, and the text functions behind them.

use matrix_channel::content::parse_content;
use matrix_channel::text::{
    chars_of, contains_text, decimal_text, piece, same_text, white_space, words_from,
};
use matrix_channel::types::ChannelContent;

fn command(name: &str, args: &[&str]) -> ChannelContent {
    ChannelContent::Command {
        name: name.to_string(),
        args: args.iter().map(|a| a.to_string()).collect(),
    }
}

fn words(s: &str) -> Vec<String> {
    words_from(s, &chars_of(s), 0)
}

#[test]
fn a_body_with_a_slash_in_front_is_a_command() {
    assert_eq!(parse_content("/help me now"), command("help", &["me", "now"]));
    assert_eq!(parse_content("/help"), command("help", &[]));
    assert_eq!(parse_content("/help "), command("help", &[]));
    assert_eq!(parse_content("/"), command("", &[]));
    assert_eq!(parse_content("///deep x"), command("deep", &["x"]));
    assert_eq!(parse_content("/a/b c/d"), command("a/b", &["c/d"]));
    assert_eq!(parse_content("/ lone"), command("", &["lone"]));
    assert_eq!(parse_content("/do  a\t b\n\u{a0}c "), command("do", &["a", "b", "c"]));
    // Only a space ends the name.
    assert_eq!(parse_content("/a\tb c"), command("a\tb", &["c"]));
    assert_eq!(parse_content("/żółw 🐢"), command("żółw", &["🐢"]));
}

#[test]
fn any_other_body_is_text() {
    for body in ["hello", " /help", "", "a /b", "\\/", "🐢/"] {
        assert_eq!(parse_content(body), ChannelContent::Text(body.to_string()));
    }
}

#[test]
fn white_space_is_that_of_unicode() {
    for c in '\0'..=char::MAX {
        assert_eq!(white_space(c), c.is_whitespace(), "{c:?}");
    }
}

#[test]
fn words_are_solid_and_keep_the_text() {
    for s in ["", "  ", "one", " one\u{2003}two\n\nthree ", "a\u{85}b\u{3000}c", "ż ó"] {
        let list = words(s);
        assert_eq!(list, s.split_whitespace().map(String::from).collect::<Vec<String>>());
        assert!(list.iter().all(|w| !w.is_empty() && !w.chars().any(char::is_whitespace)));
        let solid: String = s.chars().filter(|c| !c.is_whitespace()).collect();
        assert_eq!(list.concat(), solid);
    }
    assert_eq!(words_from("ab cd", &chars_of("ab cd"), 1), vec!["b", "cd"]);
}

#[test]
fn a_text_is_found_in_another() {
    for (haystack, needle) in [
        ("hello @bot!", "@bot"),
        ("@bot", "@bot"),
        ("@bo", "@bot"),
        ("@b@bot", "@bot"),
        ("aab", "ab"),
        ("", ""),
        ("x", ""),
        ("", "x"),
        ("zażółć", "żół"),
        ("zażółć", "zol"),
    ] {
        assert_eq!(contains_text(haystack, needle), haystack.contains(needle));
    }
}

#[test]
fn texts_are_compared_by_their_characters() {
    assert!(same_text("", ""));
    assert!(same_text("żółw", "żółw"));
    assert!(!same_text("żółw", "zolw"));
    assert!(!same_text("a", "ab"));
    assert!(!same_text("@Bot", "@bot"));
}

#[test]
fn numbers_are_written_in_decimal_notation() {
    for n in [0, 7, 9, 10, 100, 5000, 30000, 1234567890, u64::MAX] {
        assert_eq!(decimal_text(n), n.to_string());
    }
}

#[test]
fn pieces_are_counted_in_characters() {
    assert_eq!(piece("zażółć", 2, 4), "żó");
    assert_eq!(piece("abc", 3, 3), "");
    assert_eq!(chars_of("aż🐢"), vec!['a', 'ż', '🐢']);
}
