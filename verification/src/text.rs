//! Operations on text, stated over sequences of characters.

use vstd::prelude::*;
use vstd::string::*;
use vstd::utf8::*;

verus! {

/// The texts that a list of strings stands for.
pub open spec fn texts(strings: Seq<String>) -> Seq<Seq<char>> {
    strings.map_values(|s: String| s@)
}

/// `needle` stands somewhere in `haystack` without a gap.
pub open spec fn occurs(needle: Seq<char>, haystack: Seq<char>) -> bool {
    exists|i: int| #[trigger] occurs_at(needle, haystack, i)
}

/// `needle` stands in `haystack` from position `i` on.
pub open spec fn occurs_at(needle: Seq<char>, haystack: Seq<char>, i: int) -> bool {
    &&& 0 <= i
    &&& i + needle.len() <= haystack.len()
    &&& haystack.subrange(i, i + needle.len()) == needle
}

/// The length of the longest prefix of `s` whose characters all satisfy `p`.
pub open spec fn lead(s: Seq<char>, p: spec_fn(char) -> bool) -> nat
    decreases s.len(),
{
    if s.len() > 0 && p(s[0]) {
        1 + lead(s.skip(1), p)
    } else {
        0
    }
}

/// The decimal digit `d`.
pub open spec fn digit(d: nat) -> char {
    if d == 0 {
        '0'
    } else if d == 1 {
        '1'
    } else if d == 2 {
        '2'
    } else if d == 3 {
        '3'
    } else if d == 4 {
        '4'
    } else if d == 5 {
        '5'
    } else if d == 6 {
        '6'
    } else if d == 7 {
        '7'
    } else if d == 8 {
        '8'
    } else {
        '9'
    }
}

/// `n` in decimal notation, without leading zeros.
pub open spec fn decimal(n: nat) -> Seq<char>
    decreases n,
{
    if n < 10 {
        seq![digit(n)]
    } else {
        decimal(n / 10).push(digit(n % 10))
    }
}

/// A character with the Unicode property `White_Space`.
pub open spec fn is_white_space(c: char) -> bool {
    let u = c as u32;
    ||| 0x9 <= u <= 0xd
    ||| u == 0x20
    ||| u == 0x85
    ||| u == 0xa0
    ||| u == 0x1680
    ||| 0x2000 <= u <= 0x200a
    ||| u == 0x2028
    ||| u == 0x2029
    ||| u == 0x202f
    ||| u == 0x205f
    ||| u == 0x3000
}

/// The property of being white space.
pub open spec fn blank() -> spec_fn(char) -> bool {
    |c: char| is_white_space(c)
}

/// The property of not being white space.
pub open spec fn solid() -> spec_fn(char) -> bool {
    |c: char| !is_white_space(c)
}

/// The words of `s`: its longest runs without white space, in order.
pub open spec fn words(s: Seq<char>) -> Seq<Seq<char>>
    decreases s.len(),
{
    let start = lead(s, blank());
    let rest = s.skip(start as int);
    let len = lead(rest, solid());
    if start < s.len() && 0 < len <= rest.len() {
        seq![rest.take(len as int)] + words(rest.skip(len as int))
    } else {
        seq![]
    }
}

/// `lead` stops where `p` first fails, and nowhere else.
pub proof fn lemma_lead(s: Seq<char>, p: spec_fn(char) -> bool, n: int)
    requires
        0 <= n <= s.len(),
        forall|i: int| 0 <= i < n ==> p(#[trigger] s[i]),
        n == s.len() || !p(s[n]),
    ensures
        lead(s, p) == n,
    decreases n,
{
    if n > 0 {
        assert(p(s[0]));
        assert forall|i: int| 0 <= i < n - 1 implies p(#[trigger] s.skip(1)[i]) by {
            assert(s.skip(1)[i] == s[i + 1]);
        }
        lemma_lead(s.skip(1), p, n - 1);
    }
}

/// What `lead` counts satisfies `p`, and what follows does not.
pub proof fn lemma_lead_bounds(s: Seq<char>, p: spec_fn(char) -> bool)
    ensures
        lead(s, p) <= s.len(),
        forall|i: int| 0 <= i < lead(s, p) ==> p(#[trigger] s[i]),
        lead(s, p) < s.len() ==> !p(s[lead(s, p) as int]),
    decreases s.len(),
{
    if s.len() > 0 && p(s[0]) {
        let t = s.skip(1);
        lemma_lead_bounds(t, p);
        assert forall|i: int| 0 <= i < lead(s, p) implies p(#[trigger] s[i]) by {
            if i > 0 {
                assert(t[i - 1] == s[i]);
            }
        }
        if lead(s, p) < s.len() {
            assert(t[lead(t, p) as int] == s[lead(s, p) as int]);
        }
    }
}

/// The characters of `s`.
pub fn chars_of(s: &str) -> (chars: Vec<char>)
    ensures
        chars@ == s@,
{
    let mut chars: Vec<char> = Vec::new();
    for c in it: s.chars()
        invariant
            it.seq() == s@,
            chars@ == s@.take(it.index() as int),
    {
        chars.push(c);
        assert(chars@ =~= s@.take(it.index() + 1));
    }
    assert(s@.take(s@.len() as int) =~= s@);
    chars
}

/// Whether two texts are the same.
pub fn same_text(a: &str, b: &str) -> (same: bool)
    ensures
        same == (a@ == b@),
{
    let x = a.as_bytes();
    let y = b.as_bytes();
    proof {
        encode_utf8_decode_utf8(a@);
        encode_utf8_decode_utf8(b@);
    }
    if x.len() != y.len() {
        return false;
    }
    let mut i: usize = 0;
    while i < x.len()
        invariant
            i <= x@.len(),
            x@.len() == y@.len(),
            x@ == encode_utf8(a@),
            y@ == encode_utf8(b@),
            forall|k: int| 0 <= k < i ==> x@[k] == y@[k],
        decreases x@.len() - i,
    {
        if x[i] != y[i] {
            return false;
        }
        i += 1;
    }
    assert(x@ =~= y@);
    true
}

/// Whether `needle` stands somewhere in `haystack`.
pub fn contains_text(haystack: &str, needle: &str) -> (found: bool)
    ensures
        found == occurs(needle@, haystack@),
{
    let h = chars_of(haystack);
    let n = chars_of(needle);
    if n.len() > h.len() {
        return false;
    }
    let last: usize = h.len() - n.len();
    let mut i: usize = 0;
    loop
        invariant
            h@ == haystack@,
            n@ == needle@,
            i <= last,
            last + n@.len() == h@.len() <= usize::MAX,
            forall|k: int| 0 <= k < i ==> !#[trigger] occurs_at(n@, h@, k),
        decreases last - i,
    {
        let mut j: usize = 0;
        while j < n.len() && h[i + j] == n[j]
            invariant
                j <= n@.len(),
                i + n@.len() <= h@.len() <= usize::MAX,
                forall|k: int| 0 <= k < j ==> h@[i + k] == n@[k],
            decreases n@.len() - j,
        {
            j += 1;
        }
        if j == n.len() {
            assert(h@.subrange(i as int, i + n@.len()) =~= n@);
            assert(occurs_at(n@, h@, i as int));
            return true;
        }
        assert(!occurs_at(n@, h@, i as int)) by {
            if occurs_at(n@, h@, i as int) {
                assert(h@.subrange(i as int, i + n@.len())[j as int] == h@[i + j]);
            }
        }
        if i == last {
            return false;
        }
        i += 1;
    }
}

/// The decimal digit `d` as a text.
fn digit_text(d: u64) -> (text: &'static str)
    requires
        d < 10,
    ensures
        text@ == seq![digit(d as nat)],
{
    proof {
        reveal_strlit("0");
        reveal_strlit("1");
        reveal_strlit("2");
        reveal_strlit("3");
        reveal_strlit("4");
        reveal_strlit("5");
        reveal_strlit("6");
        reveal_strlit("7");
        reveal_strlit("8");
        reveal_strlit("9");
    }
    match d {
        0 => "0",
        1 => "1",
        2 => "2",
        3 => "3",
        4 => "4",
        5 => "5",
        6 => "6",
        7 => "7",
        8 => "8",
        _ => "9",
    }
}

/// `n` in decimal notation.
pub fn decimal_text(n: u64) -> (text: String)
    ensures
        text@ == decimal(n as nat),
    decreases n,
{
    if n < 10 {
        digit_text(n).to_owned()
    } else {
        let mut text = decimal_text(n / 10);
        text.append(digit_text(n % 10));
        assert(text@ =~= decimal(n as nat));
        text
    }
}

/// Whether `c` is white space.
pub fn white_space(c: char) -> (white: bool)
    ensures
        white == is_white_space(c),
{
    let u = c as u32;
    (0x9 <= u && u <= 0xd) || u == 0x20 || u == 0x85 || u == 0xa0 || u == 0x1680 || (0x2000 <= u
        && u <= 0x200a) || u == 0x2028 || u == 0x2029 || u == 0x202f || u == 0x205f || u == 0x3000
}

/// The characters `from..to` of `s` as a text of their own.
pub fn piece(s: &str, from: usize, to: usize) -> (text: String)
    requires
        from <= to <= s@.len(),
    ensures
        text@ == s@.subrange(from as int, to as int),
{
    s.substring_char(from, to).to_owned()
}

/// The words of what stands from position `from` on in `s`, whose characters
/// are `chars`.
pub fn words_from(s: &str, chars: &Vec<char>, from: usize) -> (list: Vec<String>)
    requires
        chars@ == s@,
        from <= s@.len(),
    ensures
        texts(list@) == words(s@.skip(from as int)),
{
    let mut list: Vec<String> = Vec::new();
    let mut i: usize = from;
    assert(texts(list@) + words(s@.skip(i as int)) =~= words(s@.skip(from as int)));
    loop
        invariant
            chars@ == s@,
            from <= i <= chars@.len(),
            texts(list@) + words(s@.skip(i as int)) == words(s@.skip(from as int)),
        decreases chars@.len() - i,
    {
        let ghost rest = s@.skip(i as int);
        let mut a: usize = i;
        while a < chars.len() && white_space(chars[a])
            invariant
                chars@ == s@,
                i <= a <= chars@.len(),
                rest == s@.skip(i as int),
                forall|k: int| 0 <= k < a - i ==> is_white_space(#[trigger] rest[k]),
            decreases chars@.len() - a,
        {
            assert(rest[a - i] == chars@[a as int]);
            a += 1;
        }
        let ghost word = s@.skip(a as int);
        proof {
            if a < s@.len() {
                assert(rest[a - i] == chars@[a as int]);
            }
            lemma_lead(rest, blank(), a - i);
            assert(rest.skip(a - i) =~= word);
        }
        let mut b: usize = a;
        while b < chars.len() && !white_space(chars[b])
            invariant
                chars@ == s@,
                a <= b <= chars@.len(),
                word == s@.skip(a as int),
                forall|k: int| 0 <= k < b - a ==> !is_white_space(#[trigger] word[k]),
            decreases chars@.len() - b,
        {
            assert(word[b - a] == chars@[b as int]);
            b += 1;
        }
        proof {
            if b < s@.len() {
                assert(word[b - a] == chars@[b as int]);
            }
            lemma_lead(word, solid(), b - a);
        }
        if a == b {
            assert(words(rest) =~= seq![]);
            assert(texts(list@) =~= words(s@.skip(from as int)));
            return list;
        }
        let ghost before = texts(list@);
        list.push(piece(s, a, b));
        proof {
            let w = s@.subrange(a as int, b as int);
            assert(word.take(b - a) =~= w);
            assert(word.skip(b - a) =~= s@.skip(b as int));
            assert(words(rest) == seq![w] + words(s@.skip(b as int)));
            assert(texts(list@) =~= before.push(w));
            assert(before + (seq![w] + words(s@.skip(b as int))) =~= before.push(w) + words(
                s@.skip(b as int),
            ));
        }
        i = b;
    }
}

} // verus!
