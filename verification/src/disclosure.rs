//! Which bytes of an exchange are committed to, and which of them are shown.
//!
//! A hash commitment is atomic: it can be opened as a whole or not at all. So the line that says what
//! was asked is committed to apart from the headers behind it, which hold cookies and credentials. The
//! line is shown later and the headers are not. The response is committed to and shown as a whole.
use crate::http;
use crate::presentation;
use crate::presentation::{ByteRange, OpenedPresentation, RevealedTranscript};
use crate::text;
use vstd::prelude::*;
use vstd::utf8::*;

verus! {

/// Where an exchange is cut: the length of the request line, and of what was sent and received.
#[derive(Debug, Clone, Copy, PartialEq, Eq, Structural)]
pub struct Cut {
    pub line_end: usize,
    pub sent: usize,
    pub received: usize,
}

/// Ranges of what was sent and of what was received.
#[derive(Debug)]
pub struct Ranges {
    pub sent: Vec<ByteRange>,
    pub received: Vec<ByteRange>,
}

/// What ends a line.
pub open spec fn line_break() -> Seq<u8> {
    seq![13, 10]
}

/// How long the first line of `sent` is, without what ends it. A request without an end of line is
/// one line.
pub open spec fn line_length(sent: Seq<u8>) -> int {
    match text::first_occurrence(sent, line_break()) {
        Some(i) => i,
        None => sent.len() as int,
    }
}

/// Whether `cut` is that of an exchange in which `sent` went out and `received` bytes came back.
pub open spec fn cuts(cut: Cut, sent: Seq<u8>, received: nat) -> bool {
    &&& cut.line_end == line_length(sent)
    &&& cut.sent == sent.len()
    &&& cut.received == received
}

/// The ranges of what was sent that are committed to: the line, and what stands behind it.
pub open spec fn committed_sent(cut: Cut) -> Seq<ByteRange> {
    let line = ByteRange { start: 0, end: cut.line_end };
    if cut.line_end < cut.sent {
        seq![line, ByteRange { start: cut.line_end, end: cut.sent }]
    } else {
        seq![line]
    }
}

/// The ranges of what was received that are committed to: all of it as one.
pub open spec fn committed_received(cut: Cut) -> Seq<ByteRange> {
    seq![ByteRange { start: 0, end: cut.received }]
}

/// The ranges of what was sent that are shown: the line.
pub open spec fn shown_sent(cut: Cut) -> Seq<ByteRange> {
    seq![ByteRange { start: 0, end: cut.line_end }]
}

/// The ranges of what was received that are shown: all of it.
pub open spec fn shown_received(cut: Cut) -> Seq<ByteRange> {
    seq![ByteRange { start: 0, end: cut.received }]
}

/// How long the first line of `sent` is, without what ends it.
pub fn request_line_end(sent: &[u8]) -> (end: usize)
    ensures
        end == line_length(sent@),
{
    let sep: [u8; 2] = [13, 10];
    assert(sep@ =~= line_break());
    match text::find_bytes(sent, sep.as_slice()) {
        Some(i) => i,
        None => sent.len(),
    }
}

/// Where an exchange is cut in which `sent` went out and `received` bytes came back.
pub fn cut_exchange(sent: &[u8], received: usize) -> (cut: Cut)
    ensures
        cuts(cut, sent@, received as nat),
{
    Cut { line_end: request_line_end(sent), sent: sent.len(), received }
}

/// The ranges that are committed to.
pub fn commitments(cut: Cut) -> (r: Ranges)
    ensures
        r.sent@ == committed_sent(cut),
        r.received@ == committed_received(cut),
{
    let mut sent: Vec<ByteRange> = Vec::new();
    sent.push(ByteRange { start: 0, end: cut.line_end });
    if cut.line_end < cut.sent {
        sent.push(ByteRange { start: cut.line_end, end: cut.sent });
    }
    let mut received: Vec<ByteRange> = Vec::new();
    received.push(ByteRange { start: 0, end: cut.received });
    assert(sent@ =~= committed_sent(cut));
    assert(received@ =~= committed_received(cut));
    Ranges { sent, received }
}

/// The ranges that are shown.
pub fn openings(cut: Cut) -> (r: Ranges)
    ensures
        r.sent@ == shown_sent(cut),
        r.received@ == shown_received(cut),
{
    let mut sent: Vec<ByteRange> = Vec::new();
    sent.push(ByteRange { start: 0, end: cut.line_end });
    let mut received: Vec<ByteRange> = Vec::new();
    received.push(ByteRange { start: 0, end: cut.received });
    assert(sent@ =~= shown_sent(cut));
    assert(received@ =~= shown_received(cut));
    Ranges { sent, received }
}

/// Whether `range` covers the byte at index `i`.
pub open spec fn holds(range: ByteRange, i: int) -> bool {
    range.start <= i < range.end
}

/// Every byte of the exchange is committed to, in one range and no other.
pub proof fn law_commitments_tile_the_exchange(cut: Cut, sent: Seq<u8>, received: nat, i: int)
    requires
        cuts(cut, sent, received),
    ensures
        0 <= i < sent.len() <==> presentation::covered(committed_sent(cut), i),
        0 <= i < received <==> presentation::covered(committed_received(cut), i),
        forall|a: int, b: int|
            0 <= a < committed_sent(cut).len() && 0 <= b < committed_sent(cut).len() && #[trigger] holds(
                committed_sent(cut)[a],
                i,
            ) && #[trigger] holds(committed_sent(cut)[b], i) ==> a == b,
{
    lemma_line_length(sent);
    let ranges = committed_sent(cut);
    if 0 <= i < sent.len() {
        if i < cut.line_end {
            assert(ranges[0].start <= i < ranges[0].end);
        } else {
            assert(ranges[1].start <= i < ranges[1].end);
        }
    }
    if 0 <= i < received {
        assert(committed_received(cut)[0].start <= i < committed_received(cut)[0].end);
    }
}

/// What is shown is made of whole commitments, which alone can be opened.
pub proof fn law_openings_are_whole_commitments(cut: Cut)
    ensures
        forall|k: int|
            0 <= k < shown_sent(cut).len() ==> committed_sent(cut).contains(
                #[trigger] shown_sent(cut)[k],
            ),
        forall|k: int|
            0 <= k < shown_received(cut).len() ==> committed_received(cut).contains(
                #[trigger] shown_received(cut)[k],
            ),
{
    assert(committed_sent(cut)[0] == shown_sent(cut)[0]);
    assert(committed_received(cut)[0] == shown_received(cut)[0]);
}

/// A response that is committed to as a whole cannot be shown in part: what is made of its
/// commitments shows all of it or nothing.
pub proof fn law_response_is_shown_whole_or_not_at_all(cut: Cut, shown: Seq<ByteRange>, i: int)
    requires
        forall|k: int| 0 <= k < shown.len() ==> committed_received(cut).contains(#[trigger] shown[k]),
    ensures
        presentation::covered(shown, i) <==> shown.len() > 0 && 0 <= i < cut.received,
{
    let all = committed_received(cut);
    assert forall|k: int| 0 <= k < shown.len() implies #[trigger] shown[k] == all[0] by {
        assert(all.contains(shown[k]));
    }
    if shown.len() > 0 && 0 <= i < cut.received {
        assert(shown[0].start <= i < shown[0].end);
    }
}

/// Of a request only its first line is shown, with nothing of what stands behind it; of a response
/// everything is.
pub proof fn law_headers_stay_hidden(cut: Cut, sent: Seq<u8>, received: Seq<u8>)
    requires
        cuts(cut, sent, received.len()),
    ensures
        presentation::masked(sent, shown_sent(cut), presentation::UNDISCLOSED) == sent.take(
            line_length(sent),
        ) + Seq::new(
            (sent.len() - line_length(sent)) as nat,
            |i: int| presentation::UNDISCLOSED,
        ),
        presentation::masked(received, shown_received(cut), presentation::UNDISCLOSED) == received,
        forall|i: int|
            !#[trigger] text::occurs_at(sent.take(line_length(sent)), line_break(), i),
{
    lemma_line_length(sent);
    let n = line_length(sent);
    let line = shown_sent(cut)[0];
    assert forall|i: int| 0 <= i < sent.len() implies presentation::covered(shown_sent(cut), i) == (i
        < n) by {
        if i < n {
            assert(line.start <= i < line.end);
        }
    }
    assert(presentation::masked(sent, shown_sent(cut), presentation::UNDISCLOSED) =~= sent.take(n)
        + Seq::new((sent.len() - n) as nat, |i: int| presentation::UNDISCLOSED));
    let all = shown_received(cut)[0];
    assert forall|i: int| 0 <= i < received.len() implies presentation::covered(
        shown_received(cut),
        i,
    ) by {
        assert(all.start <= i < all.end);
    }
    assert(presentation::masked(received, shown_received(cut), presentation::UNDISCLOSED)
        =~= received);
    assert forall|i: int| !#[trigger] text::occurs_at(sent.take(n), line_break(), i) by {
        if text::occurs_at(sent.take(n), line_break(), i) {
            assert(sent.subrange(i, i + 2) =~= sent.take(n).subrange(i, i + 2));
            assert(text::occurs_at(sent, line_break(), i));
        }
    }
}

/// Whoever checks a presentation of an exchange in which `sent` went out and `received` came back
/// reads the whole response, and of the request its first line. A line that is text stands there as it
/// was sent, and every byte behind it, whatever the presentation holds in its place, is shown as one
/// 'X', so that what is read is as many bytes long as what was sent.
pub proof fn law_presentation_shows_line_and_response(
    cut: Cut,
    sent: Seq<u8>,
    received: Seq<u8>,
    opened: OpenedPresentation,
    t: RevealedTranscript,
    expected: Seq<char>,
)
    requires
        cuts(cut, sent, received.len()),
        opened.transcript == Some(t),
        t.sent@.len() == sent.len(),
        t.sent@.take(line_length(sent)) == sent.take(line_length(sent)),
        t.sent_authed@ == shown_sent(cut),
        t.received@ == received,
        t.received_authed@ == shown_received(cut),
    ensures
        ({
            let v = presentation::proven(opened, expected);
            let n = line_length(sent);
            &&& v.recv == http::response_text(received)
            &&& v.sent == text::utf8_lossy(
                sent.take(n) + Seq::new(
                    (sent.len() - n) as nat,
                    |i: int| presentation::UNDISCLOSED,
                ),
            )
            &&& valid_utf8(sent.take(n)) ==> {
                &&& v.sent == decode_utf8(sent.take(n)) + Seq::new(
                    (sent.len() - n) as nat,
                    |i: int| 'X',
                )
                &&& encode_utf8(v.sent).len() == sent.len()
            }
            &&& text::is_ascii(sent.take(n)) ==> {
                &&& v.sent.len() == sent.len()
                &&& forall|i: int| 0 <= i < n ==> #[trigger] v.sent[i] == sent[i] as char
                &&& forall|i: int| n <= i < sent.len() ==> #[trigger] v.sent[i] == 'X'
            }
        }),
{
    law_headers_stay_hidden(cut, sent, received);
    lemma_line_length(sent);
    let n = line_length(sent);
    let hidden = presentation::UNDISCLOSED;
    assert forall|i: int| 0 <= i < sent.len() && presentation::covered(shown_sent(cut), i) implies sent[i]
        == t.sent@[i] by {
        assert(sent.take(n)[i] == t.sent@.take(n)[i]);
    }
    assert(presentation::masked(t.sent@, shown_sent(cut), hidden) =~= presentation::masked(
        sent,
        shown_sent(cut),
        hidden,
    ));
    let line = sent.take(n);
    let rest = Seq::new((sent.len() - n) as nat, |i: int| hidden);
    text::lemma_ascii(rest);
    assert(decode_utf8(rest) =~= Seq::new((sent.len() - n) as nat, |i: int| 'X'));
    if text::is_ascii(line) {
        text::lemma_ascii(line);
    }
    if valid_utf8(line) {
        text::lemma_text_behind_text(line, rest);
        decode_utf8_encode_utf8(line + rest);
    }
    if text::is_ascii(line) {
        assert forall|i: int| 0 <= i < n implies #[trigger] presentation::proven(
            opened,
            expected,
        ).sent[i] == sent[i] as char by {
            assert(line[i] == sent[i]);
        }
    }
}

/// The first line ends within the request, and no line break stands before its end.
proof fn lemma_line_length(sent: Seq<u8>)
    ensures
        0 <= line_length(sent) <= sent.len(),
        forall|i: int|
            0 <= i < line_length(sent) ==> !#[trigger] text::occurs_at(sent, line_break(), i),
{
    text::lemma_first_from(sent, line_break(), 0);
}

/// The request line goes up to the first carriage return that a line feed follows, and no less far: it
/// stops before the end of the request only there.
pub proof fn law_request_line_is_whole(sent: Seq<u8>)
    ensures
        0 <= line_length(sent) <= sent.len(),
        forall|j: int|
            0 <= j < line_length(sent) && j + 1 < sent.len() && #[trigger] sent[j] == 13 ==> sent[j + 1]
                != 10,
        line_length(sent) < sent.len() ==> {
            &&& line_length(sent) + 2 <= sent.len()
            &&& sent[line_length(sent)] == 13
            &&& sent[line_length(sent) + 1] == 10
        },
{
    lemma_line_length(sent);
    text::lemma_first_from(sent, line_break(), 0);
    let e = line_length(sent);
    assert forall|j: int| 0 <= j < e && j + 1 < sent.len() && #[trigger] sent[j] == 13 implies sent[j
        + 1] != 10 by {
        if sent[j + 1] == 10 {
            assert(sent.subrange(j, j + 2) =~= line_break());
            assert(text::occurs_at(sent, line_break(), j));
        }
    }
    if e < sent.len() {
        assert(sent.subrange(e, e + 2)[0] == sent[e]);
        assert(sent.subrange(e, e + 2)[1] == sent[e + 1]);
    }
}

/// The request line is one range, which is shown; all that stands behind it is another, which is not.
/// The response is one range, which is shown. The line is the whole first line of what was sent.
pub proof fn law_line_and_response_are_shown(cut: Cut, sent: Seq<u8>, received: nat)
    requires
        cuts(cut, sent, received),
    ensures
        shown_sent(cut) == seq![ByteRange { start: 0, end: cut.line_end }],
        shown_received(cut) == seq![ByteRange { start: 0, end: received as usize }],
        committed_received(cut) == seq![ByteRange { start: 0, end: received as usize }],
        committed_sent(cut) == if cut.line_end < sent.len() {
            seq![
                ByteRange { start: 0, end: cut.line_end },
                ByteRange { start: cut.line_end, end: sent.len() as usize },
            ]
        } else {
            seq![ByteRange { start: 0, end: sent.len() as usize }]
        },
        cut.line_end <= sent.len(),
        cut.line_end < sent.len() ==> {
            &&& cut.line_end + 2 <= sent.len()
            &&& sent.subrange(cut.line_end as int, cut.line_end + 2) == seq![13u8, 10u8]
        },
        forall|j: int|
            0 <= j < cut.line_end && j + 1 < sent.len() && #[trigger] sent[j] == 13 ==> sent[j + 1]
                != 10,
{
    law_request_line_is_whole(sent);
    if cut.line_end < sent.len() {
        assert(sent.subrange(cut.line_end as int, cut.line_end + 2) =~= seq![13u8, 10u8]);
    }
}

} // verus!
