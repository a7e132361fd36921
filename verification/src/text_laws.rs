//! Laws of message bodies and of texts that are sent.

use vstd::prelude::*;
use vstd::utf8::encode_utf8;

use crate::content::{content_of, head, not_space, slash, tail, without_slashes};
use crate::delivery::{
    answered, carries, fitting, pieces, proceed, size, width, DeliveryView, SendView,
};
use crate::outside::reads_back;
use crate::replies::{success, ErrorView};
use crate::requests::{message, message_fields};
use crate::text::{
    blank, decimal, is_white_space, lead, lemma_lead, lemma_lead_bounds, occurs, occurs_at, solid,
    words,
};
use crate::types::ContentView;

verus! {

/// A filter keeps all of a sequence of which every character passes.
proof fn lemma_filter_all(s: Seq<char>, p: spec_fn(char) -> bool)
    requires
        forall|i: int| 0 <= i < s.len() ==> p(#[trigger] s[i]),
    ensures
        s.filter(p) == s,
    decreases s.len(),
{
    reveal(Seq::filter);
    if s.len() > 0 {
        lemma_filter_all(s.drop_last(), p);
        assert(s.drop_last().push(s.last()) =~= s);
    }
}

/// A filter keeps nothing of a sequence of which no character passes.
proof fn lemma_filter_none(s: Seq<char>, p: spec_fn(char) -> bool)
    requires
        forall|i: int| 0 <= i < s.len() ==> !p(#[trigger] s[i]),
    ensures
        s.filter(p) == Seq::<char>::empty(),
    decreases s.len(),
{
    reveal(Seq::filter);
    if s.len() > 0 {
        lemma_filter_none(s.drop_last(), p);
    }
}

/// How the words of a text begin: `s` is white space, a word, and the rest.
proof fn lemma_words_unfold(s: Seq<char>)
    ensures
        ({
            let start = lead(s, blank());
            let rest = s.skip(start as int);
            let len = lead(rest, solid());
            &&& start <= s.len()
            &&& len <= rest.len()
            &&& forall|i: int| 0 <= i < start ==> is_white_space(#[trigger] s[i])
            &&& forall|i: int| 0 <= i < len ==> !is_white_space(#[trigger] rest[i])
            &&& start < s.len() ==> len > 0
        }),
{
    lemma_lead_bounds(s, blank());
    let start = lead(s, blank());
    let rest = s.skip(start as int);
    lemma_lead_bounds(rest, solid());
    assert forall|i: int| 0 <= i < start implies is_white_space(#[trigger] s[i]) by {
        assert(blank()(s[i]));
    }
    assert forall|i: int| 0 <= i < lead(rest, solid()) implies !is_white_space(
        #[trigger] rest[i],
    ) by {
        assert(solid()(rest[i]));
    }
    if start < s.len() {
        assert(!blank()(s[start as int]));
        assert(rest[0] == s[start as int]);
        if lead(rest, solid()) == 0 {
            assert(!solid()(rest[0]));
        }
    }
}

/// No word of a text is empty, and none holds white space.
pub proof fn law_words_are_solid(s: Seq<char>)
    ensures
        forall|i: int|
            0 <= i < words(s).len() ==> (#[trigger] words(s)[i]).len() > 0 && forall|k: int|
                0 <= k < words(s)[i].len() ==> !is_white_space(#[trigger] words(s)[i][k]),
    decreases s.len(),
{
    lemma_words_unfold(s);
    let start = lead(s, blank());
    let rest = s.skip(start as int);
    let len = lead(rest, solid());
    if start < s.len() {
        let more = rest.skip(len as int);
        law_words_are_solid(more);
        assert(words(s) == seq![rest.take(len as int)] + words(more));
        assert forall|i: int| 0 <= i < words(s).len() implies (#[trigger] words(s)[i]).len() > 0
            && forall|k: int|
            0 <= k < words(s)[i].len() ==> !is_white_space(#[trigger] words(s)[i][k]) by {
            if i > 0 {
                assert(words(s)[i] == words(more)[i - 1]);
            } else {
                assert(words(s)[0] == rest.take(len as int));
                assert forall|k: int| 0 <= k < len implies !is_white_space(
                    #[trigger] words(s)[0][k],
                ) by {
                    assert(words(s)[0][k] == rest[k]);
                }
            }
        }
    }
}

/// The words of a text hold all of it but the white space, in order.
pub proof fn law_words_keep_the_text(s: Seq<char>)
    ensures
        words(s).flatten() == s.filter(solid()),
    decreases s.len(),
{
    lemma_words_unfold(s);
    let start = lead(s, blank());
    let rest = s.skip(start as int);
    let len = lead(rest, solid());
    let gap = s.take(start as int);
    lemma_filter_none(gap, solid());
    if start < s.len() {
        let word = rest.take(len as int);
        let more = rest.skip(len as int);
        law_words_keep_the_text(more);
        lemma_filter_all(word, solid());
        assert(gap + (word + more) =~= s);
        Seq::filter_distributes_over_add(word, more, solid());
        Seq::filter_distributes_over_add(gap, word + more, solid());
        let list = words(s);
        assert(list == seq![word] + words(more));
        assert(list.first() == word);
        assert(list.drop_first() =~= words(more));
        assert(s.filter(solid()) =~= word + more.filter(solid()));
    } else {
        assert(gap =~= s);
        assert(words(s) =~= Seq::empty());
    }
}

/// White space in front of a text adds no words.
proof fn lemma_words_skip_blank(c: char, s: Seq<char>)
    requires
        is_white_space(c),
    ensures
        words(seq![c] + s) == words(s),
{
    let all = seq![c] + s;
    assert(all.skip(1) =~= s);
    assert(blank()(all[0]));
    assert(lead(all, blank()) == 1 + lead(s, blank()));
    lemma_lead_bounds(s, blank());
    assert(all.skip((1 + lead(s, blank())) as int) =~= s.skip(lead(s, blank()) as int));
}

/// The first word of a text that begins with one.
proof fn lemma_words_first(word: Seq<char>, rest: Seq<char>)
    requires
        word.len() > 0,
        forall|i: int| 0 <= i < word.len() ==> !is_white_space(#[trigger] word[i]),
        rest.len() > 0 ==> is_white_space(rest[0]),
    ensures
        words(word + rest) == seq![word] + words(rest),
{
    let all = word + rest;
    assert(all[0] == word[0]);
    assert(!blank()(all[0]));
    assert(lead(all, blank()) == 0);
    assert(all.skip(0) =~= all);
    assert forall|i: int| 0 <= i < word.len() implies solid()(#[trigger] all[i]) by {
        assert(all[i] == word[i]);
    }
    if rest.len() > 0 {
        assert(all[word.len() as int] == rest[0]);
    }
    lemma_lead(all, solid(), word.len() as int);
    assert(all.take(word.len() as int) =~= word);
    assert(all.skip(word.len() as int) =~= rest);
}

/// A text without white space is one word, and the empty text has none.
pub proof fn law_a_solid_text_is_one_word(s: Seq<char>)
    requires
        forall|i: int| 0 <= i < s.len() ==> !is_white_space(#[trigger] s[i]),
    ensures
        s.len() > 0 ==> words(s) == seq![s],
        s.len() == 0 ==> words(s).len() == 0,
{
    if s.len() > 0 {
        lemma_words_first(s, Seq::empty());
        assert(s + Seq::<char>::empty() =~= s);
        assert(words(Seq::<char>::empty()) =~= Seq::empty());
        assert(seq![s] + Seq::<Seq<char>>::empty() =~= seq![s]);
    }
}

/// White space parts words, and nothing else does: the words of a text are those
/// before a white space and then those behind it.
pub proof fn law_white_space_parts_words(a: Seq<char>, c: char, b: Seq<char>)
    requires
        is_white_space(c),
    ensures
        words(a + seq![c] + b) == words(a) + words(b),
    decreases a.len(),
{
    let all = a + seq![c] + b;
    if a.len() == 0 {
        lemma_words_skip_blank(c, b);
        assert(all =~= seq![c] + b);
        assert(words(a) =~= Seq::empty());
        assert(words(a) + words(b) =~= words(b));
    } else if is_white_space(a[0]) {
        let rest = a.skip(1);
        law_white_space_parts_words(rest, c, b);
        lemma_words_skip_blank(a[0], rest);
        lemma_words_skip_blank(a[0], rest + seq![c] + b);
        assert(a =~= seq![a[0]] + rest);
        assert(all =~= seq![a[0]] + (rest + seq![c] + b));
    } else {
        lemma_lead_bounds(a, solid());
        let n = lead(a, solid()) as int;
        assert(solid()(a[0]));
        let word = a.take(n);
        let rest = a.skip(n);
        assert forall|i: int| 0 <= i < word.len() implies !is_white_space(#[trigger] word[i]) by {
            assert(solid()(a[i]));
        }
        if rest.len() > 0 {
            assert(!solid()(a[n]));
            assert(rest[0] == a[n]);
        }
        let more = rest + seq![c] + b;
        assert(more[0] == (if rest.len() > 0 {
            rest[0]
        } else {
            c
        }));
        lemma_words_first(word, rest);
        lemma_words_first(word, more);
        law_white_space_parts_words(rest, c, b);
        assert(a =~= word + rest);
        assert(all =~= word + more);
        assert(seq![word] + (words(rest) + words(b)) =~= (seq![word] + words(rest)) + words(b));
    }
}

/// A text stands in another exactly where the other is something, then that
/// text, then something.
pub proof fn law_a_text_stands_between_others(needle: Seq<char>, haystack: Seq<char>)
    ensures
        occurs(needle, haystack) <==> exists|a: Seq<char>, b: Seq<char>|
            #![trigger a + needle + b]
            haystack == a + needle + b,
{
    if occurs(needle, haystack) {
        let i = choose|i: int| #[trigger] occurs_at(needle, haystack, i);
        let a = haystack.take(i);
        let b = haystack.skip(i + needle.len());
        assert(haystack =~= a + haystack.subrange(i, i + needle.len()) + b);
        assert(haystack == a + needle + b);
    }
    if exists|a: Seq<char>, b: Seq<char>|
        #![trigger a + needle + b]
        haystack == a + needle + b {
        let (a, b) = choose|a: Seq<char>, b: Seq<char>|
            #![trigger a + needle + b]
            haystack == a + needle + b;
        let i = a.len() as int;
        assert(haystack.subrange(i, i + needle.len()) =~= needle);
        assert(occurs_at(needle, haystack, i));
    }
}

/// The number that a text of decimal digits stands for.
pub open spec fn number_of(s: Seq<char>) -> int
    decreases s.len(),
{
    if s.len() == 0 {
        0
    } else {
        10 * number_of(s.drop_last()) + (s.last() as int - '0' as int)
    }
}

/// A number in decimal notation is made of digits, without zeros in front, and
/// stands for that number.
pub proof fn law_decimal_notation_stands_for_the_number(n: nat)
    ensures
        number_of(decimal(n)) == n,
        decimal(n).len() > 0,
        forall|i: int| 0 <= i < decimal(n).len() ==> '0' <= #[trigger] decimal(n)[i] <= '9',
        n > 0 ==> decimal(n)[0] != '0',
    decreases n,
{
    let s = decimal(n);
    if n < 10 {
        assert(s.drop_last() =~= Seq::empty());
        assert(number_of(s.drop_last()) == 0);
    } else {
        law_decimal_notation_stands_for_the_number(n / 10);
        let init = decimal(n / 10);
        assert(s.drop_last() =~= init);
        assert(s[0] == init[0]);
        assert forall|i: int| 0 <= i < s.len() implies '0' <= #[trigger] s[i] <= '9' by {
            if i < init.len() {
                assert(s[i] == init[i]);
            }
        }
    }
}

/// How a command is read: `first` runs to the first space of the body, `rest` is
/// what stands behind it. The name is `first` without the slashes in front, and
/// the arguments hold all of `rest` but the white space, in order. They are its
/// words. Without a space there are no arguments.
pub proof fn law_a_command_is_read_whole(first: Seq<char>, rest: Seq<char>)
    requires
        first.len() > 0,
        first[0] == '/',
        forall|i: int| 0 <= i < first.len() ==> #[trigger] first[i] != ' ',
    ensures
        ({
            &&& content_of(first + seq![' '] + rest) matches ContentView::Command { name, args }
            &&& name.len() < first.len()
            &&& first == first.take(first.len() - name.len()) + name
            &&& forall|i: int|
                0 <= i < first.len() - name.len() ==> #[trigger] first[i] == '/'
            &&& name.len() > 0 ==> name[0] != '/'
            &&& args.flatten() == rest.filter(|c: char| !is_white_space(c))
            &&& args == words(rest)
            &&& content_of(first) == (ContentView::Command { name, args: Seq::empty() })
        }),
{
    let body = first + seq![' '] + rest;
    let n = first.len() as int;
    assert(body[0] == first[0]);
    assert forall|i: int| 0 <= i < n implies not_space()(#[trigger] body[i]) by {
        assert(body[i] == first[i]);
    }
    assert(body[n] == ' ');
    lemma_lead(body, not_space(), n);
    assert(body.take(n) =~= first);
    assert(body.skip(n + 1) =~= rest);
    assert(tail(body) == rest);
    lemma_lead(first, not_space(), n);
    assert(first.take(n) =~= first);
    lemma_lead_bounds(first, slash());
    let k = lead(first, slash()) as int;
    let name = first.skip(k);
    assert(slash()(first[0]));
    assert(first =~= first.take(k) + name);
    assert forall|i: int| 0 <= i < k implies #[trigger] first[i] == '/' by {
        assert(slash()(first[i]));
    }
    if name.len() > 0 {
        assert(!slash()(first[k]));
        assert(name[0] == first[k]);
    }
    law_words_keep_the_text(rest);
    assert(solid() =~= |c: char| !is_white_space(c));
    assert(tail(first) =~= Seq::empty());
    assert(words(Seq::<char>::empty()) =~= Seq::empty());
}

/// A body is a command exactly where it begins with a slash. The name of a
/// command holds no space and does not begin with a slash. Every other body is
/// kept as it is.
pub proof fn law_commands_begin_with_a_slash(body: Seq<char>)
    ensures
        match content_of(body) {
            ContentView::Command { name, args } => {
                &&& body.len() > 0
                &&& body[0] == '/'
                &&& forall|i: int| 0 <= i < name.len() ==> #[trigger] name[i] != ' '
                &&& name.len() > 0 ==> name[0] != '/'
            },
            ContentView::Text(text) => text == body && (body.len() == 0 || body[0] != '/'),
        },
{
    lemma_lead_bounds(body, not_space());
    let first = head(body);
    assert forall|i: int| 0 <= i < first.len() implies #[trigger] first[i] != ' ' by {
        assert(not_space()(body[i]));
        assert(first[i] == body[i]);
    }
    lemma_lead_bounds(first, slash());
    let name = without_slashes(first);
    let n = lead(first, slash()) as int;
    assert forall|i: int| 0 <= i < name.len() implies #[trigger] name[i] != ' ' by {
        assert(name[i] == first[i + n]);
    }
    if name.len() > 0 {
        assert(name[0] == first[n]);
        assert(!slash()(first[n]));
    }
}

/// A first character adds its own bytes to a text.
proof fn lemma_size_first(s: Seq<char>)
    requires
        s.len() > 0,
    ensures
        size(s) == width(s[0]) + size(s.skip(1)),
{
    assert(s.drop_first() =~= s.skip(1));
}

/// Two texts that are joined take the bytes of both.
proof fn lemma_size_parts(a: Seq<char>, b: Seq<char>)
    ensures
        size(a + b) == size(a) + size(b),
    decreases a.len(),
{
    if a.len() == 0 {
        assert(a + b =~= b);
        assert(a =~= Seq::empty());
    } else {
        lemma_size_first(a);
        lemma_size_first(a + b);
        assert((a + b).skip(1) =~= a.skip(1) + b);
        lemma_size_parts(a.skip(1), b);
    }
}

/// What `fitting` counts fits, and one character more does not.
proof fn lemma_fitting(s: Seq<char>, room: nat)
    ensures
        ({
            let n = fitting(s, room) as int;
            &&& n <= s.len()
            &&& size(s.take(n)) <= room
            &&& n < s.len() ==> size(s.take(n)) + width(s[n]) > room
        }),
    decreases s.len(),
{
    let n = fitting(s, room) as int;
    if s.len() == 0 || width(s[0]) > room {
        assert(s.take(0) =~= Seq::empty());
    } else {
        let rest = s.skip(1);
        lemma_fitting(rest, (room - width(s[0])) as nat);
        lemma_size_first(s.take(n));
        assert(s.take(n).skip(1) =~= rest.take(n - 1));
        if n < s.len() {
            assert(rest[n - 1] == s[n]);
        }
    }
}

/// A text that is split is sent whole and in order: put together, its pieces
/// are the text.
pub proof fn law_pieces_make_the_text(s: Seq<char>, max: nat)
    ensures
        pieces(s, max).flatten() == s,
    decreases s.len(),
{
    let n = fitting(s, max) as int;
    let list = pieces(s, max);
    if 0 < n < s.len() {
        let more = pieces(s.skip(n), max);
        law_pieces_make_the_text(s.skip(n), max);
        assert(list.first() == s.take(n));
        assert(list.drop_first() =~= more);
        assert(s.take(n) + s.skip(n) =~= s);
    } else {
        assert(list.first() == s);
        assert(list.drop_first() =~= Seq::empty());
        assert(list.drop_first().flatten() =~= Seq::empty());
        assert(list.flatten() =~= s);
    }
}

/// There is a piece, and no piece is too large. The first character of a piece
/// would not have fitted into the one before, and none but an empty text has
/// an empty piece.
pub proof fn law_pieces_fit(s: Seq<char>, max: nat)
    requires
        max >= 4,
    ensures
        pieces(s, max).len() > 0,
        forall|i: int| 0 <= i < pieces(s, max).len() ==> size(#[trigger] pieces(s, max)[i]) <= max,
        forall|i: int|
            0 < i < pieces(s, max).len() ==> (#[trigger] pieces(s, max)[i]).len() > 0 && size(
                pieces(s, max)[i - 1],
            ) + width(pieces(s, max)[i][0]) > max,
        s.len() > 0 ==> pieces(s, max)[0].len() > 0,
        s.len() > 0 ==> pieces(s, max)[0][0] == s[0],
    decreases s.len(),
{
    let n = fitting(s, max) as int;
    let list = pieces(s, max);
    lemma_fitting(s, max);
    if 0 < n < s.len() {
        let rest = s.skip(n);
        let more = pieces(rest, max);
        law_pieces_fit(rest, max);
        assert(list == seq![s.take(n)] + more);
        assert(rest[0] == s[n]);
        assert forall|i: int| 0 <= i < list.len() implies size(#[trigger] list[i]) <= max by {
            if i > 0 {
                assert(list[i] == more[i - 1]);
            }
        }
        assert forall|i: int| 0 < i < list.len() implies (#[trigger] list[i]).len() > 0 && size(
            list[i - 1],
        ) + width(list[i][0]) > max by {
            assert(list[i] == more[i - 1]);
            if i > 1 {
                assert(list[i - 1] == more[i - 2]);
            }
        }
    } else {
        if n == 0 && s.len() > 0 {
            assert(s.take(0) =~= Seq::empty());
            assert(width(s[0]) <= 4);
        }
        assert(s.take(n) =~= s);
    }
}

/// A text that fits is one piece.
pub proof fn law_a_text_that_fits_is_one_piece(s: Seq<char>, max: nat)
    requires
        encode_utf8(s).len() <= max,
    ensures
        pieces(s, max) == seq![s],
{
    lemma_fitting(s, max);
    let n = fitting(s, max) as int;
    if n < s.len() {
        let rest = s.skip(n);
        assert(s.take(n) + rest =~= s);
        lemma_size_parts(s.take(n), rest);
        lemma_size_first(rest);
        assert(rest[0] == s[n]);
    }
}

/// The next piece is put, whatever it holds, and after it all the others; a
/// request that puts a piece can be read as JSON that holds it. Any status that
/// is none of the two hundreds ends the delivery, and is told with the text.
pub proof fn law_the_next_piece_is_put(delivery: DeliveryView, status: u16, body: Seq<char>)
    ensures
        0 <= delivery.put < delivery.chunks.len() ==> proceed(delivery) == (SendView::Put {
            request: message(delivery.url, delivery.bearer, delivery.chunks[delivery.put]),
            rest: DeliveryView { put: delivery.put + 1, ..delivery },
        }),
        delivery.put == delivery.chunks.len() ==> proceed(delivery) == SendView::Done,
        200 <= status <= 299 ==> answered(delivery, status, body) == proceed(delivery),
        !(200 <= status <= 299) ==> answered(delivery, status, body) == SendView::Failed(
            ErrorView::Api { status, body },
        ),
        forall|step: SendView| #[trigger]
            carries(step, delivery) && step is Put ==> reads_back(
                step->request.body->0,
                message_fields(delivery.chunks[delivery.put]),
            ),
{
}

/// What is to be done for a delivery after replies with these statuses, the
/// texts of the replies being `bodies`.
pub open spec fn after_replies(
    delivery: DeliveryView,
    statuses: Seq<u16>,
    bodies: Seq<Seq<char>>,
) -> SendView
    decreases statuses.len(),
{
    if statuses.len() == 0 {
        proceed(delivery)
    } else {
        match after_replies(delivery, statuses.drop_last(), bodies) {
            SendView::Put { request, rest } => answered(
                rest,
                statuses.last(),
                bodies[statuses.len() - 1],
            ),
            other => other,
        }
    }
}

/// While the homeserver accepts what is put, the pieces of a text are put one
/// by one and in order, all at the same address and with the same access token,
/// and the delivery is done when each was accepted.
pub proof fn law_pieces_are_put_in_order(
    delivery: DeliveryView,
    statuses: Seq<u16>,
    bodies: Seq<Seq<char>>,
)
    requires
        delivery.put == 0,
        statuses.len() <= delivery.chunks.len(),
        forall|i: int| 0 <= i < statuses.len() ==> success(#[trigger] statuses[i]),
    ensures
        after_replies(delivery, statuses, bodies) == (if statuses.len() < delivery.chunks.len() {
            SendView::Put {
                request: message(
                    delivery.url,
                    delivery.bearer,
                    delivery.chunks[statuses.len() as int],
                ),
                rest: DeliveryView { put: (statuses.len() + 1) as int, ..delivery },
            }
        } else {
            SendView::Done
        }),
    decreases statuses.len(),
{
    if statuses.len() > 0 {
        let before = statuses.drop_last();
        assert forall|i: int| 0 <= i < before.len() implies success(#[trigger] before[i]) by {
            assert(before[i] == statuses[i]);
        }
        law_pieces_are_put_in_order(delivery, before, bodies);
        assert(success(statuses[statuses.len() - 1]));
    }
}

/// The first refusal ends a delivery: whatever replies might follow, the result
/// is that refusal, with its status and its text.
pub proof fn law_refusal_ends_the_delivery(
    delivery: DeliveryView,
    statuses: Seq<u16>,
    bodies: Seq<Seq<char>>,
    k: int,
)
    requires
        delivery.put == 0,
        0 <= k < statuses.len(),
        k < delivery.chunks.len(),
        forall|i: int| 0 <= i < k ==> success(#[trigger] statuses[i]),
        !success(statuses[k]),
    ensures
        after_replies(delivery, statuses, bodies) == SendView::Failed(
            ErrorView::Api { status: statuses[k], body: bodies[k] },
        ),
    decreases statuses.len(),
{
    let before = statuses.drop_last();
    assert forall|i: int| 0 <= i < k implies success(#[trigger] before[i]) by {
        assert(before[i] == statuses[i]);
    }
    if k == statuses.len() - 1 {
        law_pieces_are_put_in_order(delivery, before, bodies);
    } else {
        assert(before[k] == statuses[k]);
        law_refusal_ends_the_delivery(delivery, before, bodies, k);
    }
}

} // verus!
