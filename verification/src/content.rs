//! Reading the body of a message: plain text, or a command.

use vstd::prelude::*;
use vstd::string::*;

use crate::text::{chars_of, lead, lemma_lead, piece, texts, words, words_from};
use crate::types::{ChannelContent, ContentView};

verus! {

/// The property of not being a space.
pub open spec fn not_space() -> spec_fn(char) -> bool {
    |c: char| c != ' '
}

/// The property of being a slash.
pub open spec fn slash() -> spec_fn(char) -> bool {
    |c: char| c == '/'
}

/// What stands before the first space of `s`, all of `s` where it has none.
pub open spec fn head(s: Seq<char>) -> Seq<char> {
    s.take(lead(s, not_space()) as int)
}

/// What stands after the first space of `s`, nothing where it has none.
pub open spec fn tail(s: Seq<char>) -> Seq<char> {
    if lead(s, not_space()) < s.len() {
        s.skip((lead(s, not_space()) + 1) as int)
    } else {
        Seq::empty()
    }
}

/// `s` without the slashes that it begins with.
pub open spec fn without_slashes(s: Seq<char>) -> Seq<char> {
    s.skip(lead(s, slash()) as int)
}

/// What a message with the body `body` says.
///
/// A body that begins with a slash is a command: its name runs to the first
/// space, and the words behind that space are its arguments. Any other body is
/// plain text.
pub open spec fn content_of(body: Seq<char>) -> ContentView {
    if body.len() > 0 && body[0] == '/' {
        ContentView::Command {
            name: without_slashes(head(body)),
            args: words(tail(body)),
        }
    } else {
        ContentView::Text(body)
    }
}

/// Reads the body of a message.
pub fn parse_content(body: &str) -> (content: ChannelContent)
    ensures
        content@ == content_of(body@),
{
    let chars = chars_of(body);
    if chars.len() == 0 || chars[0] != '/' {
        return ChannelContent::Text(body.to_owned());
    }
    let mut space: usize = 0;
    while space < chars.len() && chars[space] != ' '
        invariant
            space <= chars@.len(),
            forall|k: int| 0 <= k < space ==> #[trigger] chars@[k] != ' ',
        decreases chars@.len() - space,
    {
        space += 1;
    }
    proof {
        lemma_lead(body@, not_space(), space as int);
    }
    let ghost first = body@.take(space as int);
    let mut start: usize = 0;
    while start < space && chars[start] == '/'
        invariant
            start <= space <= chars@.len(),
            first == chars@.take(space as int),
            forall|k: int| 0 <= k < start ==> #[trigger] first[k] == '/',
        decreases space - start,
    {
        assert(first[start as int] == chars@[start as int]);
        start += 1;
    }
    proof {
        if start < space {
            assert(first[start as int] == chars@[start as int]);
        }
        lemma_lead(first, slash(), start as int);
        assert(first.skip(start as int) =~= body@.subrange(start as int, space as int));
    }
    let name = piece(body, start, space);
    let args = if space < chars.len() {
        words_from(body, &chars, space + 1)
    } else {
        let none: Vec<String> = Vec::new();
        assert(texts(none@) =~= words(Seq::empty()));
        none
    };
    ChannelContent::Command { name, args }
}

} // verus!
