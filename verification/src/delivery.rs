//! Sending a text: in pieces that fit, one request after the other.

use vstd::prelude::*;
use vstd::string::*;
use vstd::utf8::*;

use crate::outside::{reads_back, AccessToken};
use crate::replies::{is_success, success, ErrorView, MatrixError};
use crate::requests::{message, message_fields, message_request, Request, RequestView};
use crate::text::{chars_of, piece, texts};
use crate::text_laws::{law_pieces_fit, law_pieces_make_the_text};

verus! {

/// How many bytes of text a message holds at most.
pub const MAX_MESSAGE_LEN: usize = 4096;

/// How many bytes `c` takes in UTF-8.
pub open spec fn width(c: char) -> nat {
    encode_scalar(c as u32).len()
}

/// How many bytes `s` takes in UTF-8.
pub open spec fn size(s: Seq<char>) -> nat {
    encode_utf8(s).len()
}

/// How many characters of `s`, taken from its beginning, fit into `room` bytes.
pub open spec fn fitting(s: Seq<char>, room: nat) -> nat
    decreases s.len(),
{
    if s.len() == 0 || width(s[0]) > room {
        0
    } else {
        1 + fitting(s.skip(1), (room - width(s[0])) as nat)
    }
}

/// `s` in pieces of at most `max` bytes, each as long as it can be.
pub open spec fn pieces(s: Seq<char>, max: nat) -> Seq<Seq<char>>
    decreases s.len(),
{
    let n = fitting(s, max);
    if 0 < n < s.len() {
        seq![s.take(n as int)] + pieces(s.skip(n as int), max)
    } else {
        seq![s]
    }
}

/// How many bytes `c` takes in UTF-8.
fn char_width(c: char) -> (bytes: usize)
    ensures
        bytes == width(c),
{
    let u = c as u32;
    if u < 0x80 {
        1
    } else if u < 0x800 {
        2
    } else if u < 0x10000 {
        3
    } else {
        4
    }
}

/// `text` in pieces of at most `max_len` bytes, each as long as it can be.
///
/// A text that fits, the empty text too, is one piece.
pub fn split_message(text: &str, max_len: usize) -> (chunks: Vec<String>)
    requires
        max_len >= 4,
    ensures
        texts(chunks@) == pieces(text@, max_len as nat),
        texts(chunks@).flatten() == text@,
        forall|i: int|
            0 <= i < chunks@.len() ==> encode_utf8(#[trigger] texts(chunks@)[i]).len() <= max_len,
{
    let chars = chars_of(text);
    let mut chunks: Vec<String> = Vec::new();
    let mut start: usize = 0;
    assert(text@.skip(0) =~= text@);
    assert(texts(chunks@) + pieces(text@, max_len as nat) =~= pieces(text@, max_len as nat));
    loop
        invariant
            max_len >= 4,
            chars@ == text@,
            start <= chars@.len(),
            texts(chunks@) + pieces(text@.skip(start as int), max_len as nat) == pieces(
                text@,
                max_len as nat,
            ),
        decreases chars@.len() - start,
    {
        let ghost rest = text@.skip(start as int);
        let mut end: usize = start;
        let mut room: usize = max_len;
        assert(rest.skip(0) =~= rest);
        while end < chars.len() && char_width(chars[end]) <= room
            invariant
                chars@ == text@,
                start <= end <= chars@.len(),
                room <= max_len,
                end == start ==> room == max_len,
                rest == text@.skip(start as int),
                fitting(rest, max_len as nat) == (end - start) + fitting(
                    rest.skip(end - start),
                    room as nat,
                ),
            decreases chars@.len() - end,
        {
            let ghost left = rest.skip(end - start);
            assert(left[0] == chars@[end as int]);
            assert(left.skip(1) =~= rest.skip(end - start + 1));
            room -= char_width(chars[end]);
            end += 1;
        }
        proof {
            let left = rest.skip(end - start);
            if end < chars@.len() {
                assert(left[0] == chars@[end as int]);
            }
            assert(fitting(left, room as nat) == 0);
            assert(fitting(rest, max_len as nat) == end - start);
            assert(end < chars@.len() ==> end > start);
        }
        let ghost before = texts(chunks@);
        chunks.push(piece(text, start, end));
        let ghost cut = text@.subrange(start as int, end as int);
        assert(rest.take(end - start) =~= cut);
        assert(texts(chunks@) =~= before.push(cut));
        if end == chars.len() {
            assert(cut =~= rest);
            assert(pieces(rest, max_len as nat) == seq![rest]);
            assert(texts(chunks@) =~= before + seq![rest]);
            proof {
                law_pieces_make_the_text(text@, max_len as nat);
                law_pieces_fit(text@, max_len as nat);
            }
            return chunks;
        }
        proof {
            assert(rest.skip(end - start) =~= text@.skip(end as int));
            let more = pieces(text@.skip(end as int), max_len as nat);
            assert(pieces(rest, max_len as nat) == seq![cut] + more);
            assert(before + (seq![cut] + more) =~= before.push(cut) + more);
        }
        start = end;
    }
}

/// A text on its way to a room: what is still to be put, and where.
#[derive(PartialEq, Eq)]
pub struct Delivery {
    pub url: String,
    pub bearer: AccessToken,
    pub chunks: Vec<String>,
    /// How many pieces were put already.
    pub put: usize,
}

/// The mathematical value of a [`Delivery`].
pub struct DeliveryView {
    pub url: Seq<char>,
    pub bearer: Seq<char>,
    pub chunks: Seq<Seq<char>>,
    pub put: int,
}

impl View for Delivery {
    type V = DeliveryView;

    open spec fn view(&self) -> DeliveryView {
        DeliveryView {
            url: self.url@,
            bearer: self.bearer@,
            chunks: texts(self.chunks@),
            put: self.put as int,
        }
    }
}

/// What is to be done next for a delivery.
#[derive(PartialEq, Eq)]
pub enum SendStep {
    /// Make the request, and go on with the rest once there is a reply.
    Put { request: Request, rest: Delivery },
    /// Everything was accepted.
    Done,
    /// The homeserver refused a piece. Nothing more is sent.
    Failed(MatrixError),
}

/// The mathematical value of a [`SendStep`].
pub enum SendView {
    Put { request: RequestView, rest: DeliveryView },
    Done,
    Failed(ErrorView),
}

impl View for SendStep {
    type V = SendView;

    open spec fn view(&self) -> SendView {
        match *self {
            SendStep::Put { request, rest } => SendView::Put { request: request@, rest: rest@ },
            SendStep::Done => SendView::Done,
            SendStep::Failed(error) => SendView::Failed(error@),
        }
    }
}

/// Goes on with a delivery: the next piece, if there is one.
pub open spec fn proceed(delivery: DeliveryView) -> SendView {
    if 0 <= delivery.put < delivery.chunks.len() {
        SendView::Put {
            request: message(delivery.url, delivery.bearer, delivery.chunks[delivery.put]),
            rest: DeliveryView { put: delivery.put + 1, ..delivery },
        }
    } else {
        SendView::Done
    }
}

/// Goes on with a delivery after a reply, unless the homeserver refused.
pub open spec fn answered(delivery: DeliveryView, status: u16, body: Seq<char>) -> SendView {
    if success(status) {
        proceed(delivery)
    } else {
        SendView::Failed(ErrorView::Api { status, body })
    }
}

/// The body of a request to put can be read as JSON, and holds the piece.
pub open spec fn carries(step: SendView, delivery: DeliveryView) -> bool {
    step matches SendView::Put { request, .. } ==> reads_back(
        request.body->0,
        message_fields(delivery.chunks[delivery.put]),
    )
}

impl Delivery {
    /// Goes on with the delivery: the next piece, if there is one.
    pub fn proceed(self) -> (step: SendStep)
        ensures
            step@ == proceed(self@),
            carries(step@, self@),
    {
        if self.put < self.chunks.len() {
            let request = message_request(
                self.url.as_str(),
                &self.bearer,
                self.chunks[self.put].as_str(),
            );
            let put: usize = self.put + 1;
            let rest = Delivery { url: self.url, bearer: self.bearer, chunks: self.chunks, put };
            SendStep::Put { request, rest }
        } else {
            SendStep::Done
        }
    }

    /// Goes on with the delivery after the reply to the last request: its
    /// status, and its text where the status does not stand for success.
    pub fn answered(self, status: u16, body: String) -> (step: SendStep)
        ensures
            step@ == answered(self@, status, body@),
            carries(step@, self@),
    {
        if is_success(status) {
            self.proceed()
        } else {
            SendStep::Failed(MatrixError::Api { status, body })
        }
    }
}

} // verus!
