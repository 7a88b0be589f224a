//! What a presentation proves, once it was opened.
//!
//! A presentation carries the notary's signature and key, the server that the data came from, and
//! those bytes of the exchange that the prover disclosed. A signature alone proves nothing: anyone
//! can be a notary, so the key is held against the one that the caller expects.
use crate::digits;
use crate::errors::{proof_err, ErrorText, TlsnError};
use crate::http;
use crate::text;
use vstd::prelude::*;
use vstd::utf8::*;

verus! {

/// The bytes from `start` up to, but not including, `end`.
#[derive(Debug, Clone, Copy, PartialEq, Eq, Structural)]
pub struct ByteRange {
    pub start: usize,
    pub end: usize,
}

/// The bytes of an exchange, and which of them the presentation authenticates. The others say
/// nothing.
#[derive(Debug)]
pub struct RevealedTranscript {
    pub sent: Vec<u8>,
    pub sent_authed: Vec<ByteRange>,
    pub received: Vec<u8>,
    pub received_authed: Vec<ByteRange>,
}

/// A presentation whose signatures and certificates hold.
#[derive(Debug)]
pub struct OpenedPresentation {
    /// The key that the notary signed with.
    pub notary_key: Vec<u8>,
    /// The server that the certificates prove.
    pub server_name: Option<String>,
    /// When the connection was made, in Unix seconds.
    pub time_secs: u64,
    pub transcript: Option<RevealedTranscript>,
}

/// Why a presentation could not be opened.
#[derive(Debug)]
pub enum PresentationFault {
    /// The bytes are no presentation.
    Unreadable(String),
    /// The signatures or certificates do not hold.
    Refused(String),
}

/// What a presentation proves.
#[derive(Debug, Clone)]
pub struct VerifiedPresentation {
    /// The TLS server that the data provably came from.
    pub server_name: String,
    /// Unix seconds at which the TLS connection was made.
    pub time_secs: u64,
    /// Revealed request bytes; undisclosed bytes are shown as 'X'.
    pub sent: String,
    /// Revealed response bytes; undisclosed bytes are shown as 'X'.
    pub recv: String,
    /// Hex of the key that signed.
    pub notary_key: String,
    /// True iff `notary_key` is the key that the caller expects.
    pub key_matches: bool,
}

/// A request to check a presentation.
#[derive(Debug)]
pub struct VerifyQuery {
    /// The notary's published public key, in hex. The caller must reject results where `key_matches`
    /// is false.
    pub key: String,
}

/// The answer to a request to check a presentation.
#[derive(Debug)]
pub struct VerifyResult {
    pub ok: bool,
    pub key_matches: bool,
    pub server_name: String,
    pub time_secs: u64,
    pub sent: String,
    pub recv: String,
    pub notary_key: String,
}

/// What a presentation proves, over characters.
#[verifier::ext_equal]
pub struct Verified {
    pub server_name: Seq<char>,
    pub time_secs: u64,
    pub sent: Seq<char>,
    pub recv: Seq<char>,
    pub notary_key: Seq<char>,
    pub key_matches: bool,
}

impl View for VerifiedPresentation {
    type V = Verified;

    open spec fn view(&self) -> Verified {
        Verified {
            server_name: self.server_name@,
            time_secs: self.time_secs,
            sent: self.sent@,
            recv: self.recv@,
            notary_key: self.notary_key@,
            key_matches: self.key_matches,
        }
    }
}

impl VerifyResult {
    /// What the answer says of the presentation.
    pub open spec fn verified(self) -> Verified {
        Verified {
            server_name: self.server_name@,
            time_secs: self.time_secs,
            sent: self.sent@,
            recv: self.recv@,
            notary_key: self.notary_key@,
            key_matches: self.key_matches,
        }
    }
}

/// Whether one of `ranges` covers the byte at index `i`.
pub open spec fn covered(ranges: Seq<ByteRange>, i: int) -> bool {
    exists|k: int| 0 <= k < ranges.len() && (#[trigger] ranges[k]).start <= i < ranges[k].end
}

/// `bytes` with `value` in place of every byte that no range covers.
pub open spec fn masked(bytes: Seq<u8>, ranges: Seq<ByteRange>, value: u8) -> Seq<u8> {
    Seq::new(
        bytes.len(),
        |i: int|
            if covered(ranges, i) {
                bytes[i]
            } else {
                value
            },
    )
}

/// What undisclosed bytes are shown as.
pub const UNDISCLOSED: u8 = 88;

/// Whether `key` is the key that `expected` gives in hex, whatever the case of its digits and
/// whatever whitespace stands around it.
pub open spec fn is_pinned(key: Seq<u8>, expected: Seq<char>) -> bool {
    text::lowered(digits::hex_text(key)) == text::lowered(text::trimmed(expected))
}

/// The request that a transcript shows.
pub open spec fn shown_request(transcript: RevealedTranscript) -> Seq<char> {
    text::utf8_lossy(masked(transcript.sent@, transcript.sent_authed@, UNDISCLOSED))
}

/// The response that a transcript shows.
pub open spec fn shown_response(transcript: RevealedTranscript) -> Seq<char> {
    http::response_text(masked(transcript.received@, transcript.received_authed@, UNDISCLOSED))
}

/// What an opened presentation proves to someone who expects the key `expected`.
pub open spec fn proven(opened: OpenedPresentation, expected: Seq<char>) -> Verified {
    Verified {
        server_name: match opened.server_name {
            Some(name) => name@,
            None => Seq::empty(),
        },
        time_secs: opened.time_secs,
        sent: match opened.transcript {
            Some(transcript) => shown_request(transcript),
            None => Seq::empty(),
        },
        recv: match opened.transcript {
            Some(transcript) => shown_response(transcript),
            None => Seq::empty(),
        },
        notary_key: digits::hex_text(opened.notary_key@),
        key_matches: is_pinned(opened.notary_key@, expected),
    }
}

/// What is said of a presentation, from what came of opening it.
pub open spec fn verdict(
    opened: Result<OpenedPresentation, PresentationFault>,
    expected: Seq<char>,
) -> Result<Verified, ErrorText> {
    match opened {
        Ok(o) => Ok(proven(o, expected)),
        Err(PresentationFault::Unreadable(e)) => Err(ErrorText::ProofFailed(e@)),
        Err(PresentationFault::Refused(e)) => Err(
            ErrorText::ProofFailed("presentation verify failed: "@ + e@),
        ),
    }
}

/// What is answered of a presentation, from what came of opening it.
pub open spec fn answer(
    opened: Result<OpenedPresentation, PresentationFault>,
    expected: Seq<char>,
) -> Result<Verified, (u16, Seq<char>)> {
    match opened {
        Ok(o) => Ok(proven(o, expected)),
        Err(PresentationFault::Unreadable(e)) => Err(
            (BAD_REQUEST, "deserialize presentation: "@ + e@),
        ),
        Err(PresentationFault::Refused(e)) => Err(
            (BAD_REQUEST, "presentation verify failed: "@ + e@),
        ),
    }
}

/// Whether one of `ranges` covers the byte at index `i`.
fn is_covered(ranges: &Vec<ByteRange>, i: usize) -> (r: bool)
    ensures
        r == covered(ranges@, i as int),
{
    let mut k: usize = 0;
    while k < ranges.len()
        invariant
            k <= ranges.len(),
            forall|j: int|
                0 <= j < k ==> !((#[trigger] ranges@[j]).start <= i < ranges@[j].end),
        decreases ranges.len() - k,
    {
        if ranges[k].start <= i && i < ranges[k].end {
            assert(ranges@[k as int].start <= i < ranges@[k as int].end);
            return true;
        }
        k += 1;
    }
    false
}

/// `bytes` with `value` in place of every byte that no range covers.
pub fn mask_undisclosed(bytes: &Vec<u8>, ranges: &Vec<ByteRange>, value: u8) -> (r: Vec<u8>)
    ensures
        r@ == masked(bytes@, ranges@, value),
{
    let mut r: Vec<u8> = Vec::new();
    let mut i: usize = 0;
    while i < bytes.len()
        invariant
            i <= bytes.len(),
            r@.len() == i,
            forall|j: int| 0 <= j < i ==> r@[j] == masked(bytes@, ranges@, value)[j],
        decreases bytes.len() - i,
    {
        if is_covered(ranges, i) {
            r.push(bytes[i]);
        } else {
            r.push(value);
        }
        i += 1;
    }
    assert(r@ =~= masked(bytes@, ranges@, value));
    r
}

/// What an opened presentation proves to someone who expects the key `expected`.
pub fn prove(opened: &OpenedPresentation, expected: &str) -> (r: VerifiedPresentation)
    ensures
        r@ == proven(*opened, expected@),
{
    let notary_key = digits::hex_encode(opened.notary_key.as_slice());
    let pin = text::trim(expected);
    let key_matches = text::eq_ignore_ascii_case(notary_key.as_str(), pin.as_str());
    let server_name = match &opened.server_name {
        Some(name) => name.clone(),
        None => String::new(),
    };
    let (sent, recv) = match &opened.transcript {
        Some(t) => {
            let sent = mask_undisclosed(&t.sent, &t.sent_authed, UNDISCLOSED);
            let received = mask_undisclosed(&t.received, &t.received_authed, UNDISCLOSED);
            (
                text::from_utf8_lossy(sent.as_slice()),
                http::decode_http_response(received.as_slice()),
            )
        },
        None => (String::new(), String::new()),
    };
    VerifiedPresentation {
        server_name,
        time_secs: opened.time_secs,
        sent,
        recv,
        notary_key,
        key_matches,
    }
}

/// Says what a presentation proves, from what came of opening it. Callers must reject results where
/// `key_matches` is false.
pub fn verify_presentation(
    opened: Result<OpenedPresentation, PresentationFault>,
    expected_notary_key_hex: &str,
) -> (r: Result<VerifiedPresentation, TlsnError>)
    ensures
        r matches Ok(v) ==> verdict(opened, expected_notary_key_hex@) == Ok::<_, ErrorText>(v@),
        r matches Err(e) ==> verdict(opened, expected_notary_key_hex@) == Err::<Verified, _>(e@),
{
    match opened {
        Ok(o) => Ok(prove(&o, expected_notary_key_hex)),
        Err(PresentationFault::Unreadable(e)) => Err(proof_err(e.as_str())),
        Err(PresentationFault::Refused(e)) => {
            let mut message = "presentation verify failed: ".to_string();
            message.append(e.as_str());
            Err(proof_err(message.as_str()))
        },
    }
}

/// The HTTP status of an answer to a presentation that does not hold.
pub const BAD_REQUEST: u16 = 400;

/// Answers a request to check a presentation, from what came of opening it.
pub fn verify_presentation_handler(
    q: &VerifyQuery,
    opened: Result<OpenedPresentation, PresentationFault>,
) -> (r: Result<VerifyResult, (u16, String)>)
    ensures
        r matches Ok(v) ==> v.ok && answer(opened, q.key@) == Ok::<_, (u16, Seq<char>)>(
            v.verified(),
        ),
        r matches Err(e) ==> answer(opened, q.key@) == Err::<Verified, _>((e.0, e.1@)),
{
    match opened {
        Ok(o) => {
            let v = prove(&o, q.key.as_str());
            Ok(
                VerifyResult {
                    ok: true,
                    key_matches: v.key_matches,
                    server_name: v.server_name,
                    time_secs: v.time_secs,
                    sent: v.sent,
                    recv: v.recv,
                    notary_key: v.notary_key,
                },
            )
        },
        Err(PresentationFault::Unreadable(e)) => {
            let mut message = "deserialize presentation: ".to_string();
            message.append(e.as_str());
            Err((BAD_REQUEST, message))
        },
        Err(PresentationFault::Refused(e)) => {
            let mut message = "presentation verify failed: ".to_string();
            message.append(e.as_str());
            Err((BAD_REQUEST, message))
        },
    }
}

/// What is not disclosed does not show: two presentations that authenticate the same bytes of the
/// same ranges prove the same, whatever their other bytes are.
pub proof fn law_undisclosed_bytes_do_not_show(
    a: OpenedPresentation,
    b: OpenedPresentation,
    s: RevealedTranscript,
    t: RevealedTranscript,
    expected: Seq<char>,
)
    requires
        a.transcript == Some(s),
        b.transcript == Some(t),
        a.notary_key@ == b.notary_key@,
        a.server_name == b.server_name,
        a.time_secs == b.time_secs,
        s.sent_authed@ == t.sent_authed@,
        s.received_authed@ == t.received_authed@,
        s.sent@.len() == t.sent@.len(),
        s.received@.len() == t.received@.len(),
        forall|i: int|
            0 <= i < s.sent@.len() && covered(s.sent_authed@, i) ==> s.sent@[i] == t.sent@[i],
        forall|i: int|
            0 <= i < s.received@.len() && covered(s.received_authed@, i) ==> s.received@[i]
                == t.received@[i],
    ensures
        proven(a, expected) == proven(b, expected),
{
    assert(masked(s.sent@, s.sent_authed@, UNDISCLOSED) =~= masked(
        t.sent@,
        t.sent_authed@,
        UNDISCLOSED,
    ));
    assert(masked(s.received@, s.received_authed@, UNDISCLOSED) =~= masked(
        t.received@,
        t.received_authed@,
        UNDISCLOSED,
    ));
}

/// Whoever discloses less shows no other bytes: where fewer ranges are covered, every byte is the one
/// that more ranges show, or is undisclosed.
pub proof fn law_fewer_ranges_show_less(bytes: Seq<u8>, few: Seq<ByteRange>, many: Seq<ByteRange>)
    requires
        forall|i: int| #[trigger] covered(few, i) ==> covered(many, i),
    ensures
        masked(bytes, few, UNDISCLOSED).len() == masked(bytes, many, UNDISCLOSED).len(),
        forall|i: int|
            0 <= i < bytes.len() ==> #[trigger] masked(bytes, few, UNDISCLOSED)[i] == UNDISCLOSED
                || masked(bytes, few, UNDISCLOSED)[i] == masked(bytes, many, UNDISCLOSED)[i],
{
}

/// A presentation of the same session that discloses less says the same of the server, the time and
/// the notary. Where both responses are text and show as neither chunked nor compressed, they are
/// equally many bytes long, and each byte of the narrower one is that of the wider one or stands for
/// an undisclosed one. Where the wider response is ASCII, the same holds of characters.
pub proof fn law_reopened_presentation_is_narrower(
    full: OpenedPresentation,
    narrow: OpenedPresentation,
    w: RevealedTranscript,
    n: RevealedTranscript,
    expected: Seq<char>,
)
    requires
        full.transcript == Some(w),
        narrow.transcript == Some(n),
        narrow.notary_key@ == full.notary_key@,
        narrow.server_name == full.server_name,
        narrow.time_secs == full.time_secs,
        n.received@.len() == w.received@.len(),
        forall|i: int|
            #[trigger] covered(n.received_authed@, i) ==> covered(w.received_authed@, i),
        forall|i: int|
            0 <= i < w.received@.len() && covered(n.received_authed@, i) ==> n.received@[i]
                == w.received@[i],
        valid_utf8(masked(w.received@, w.received_authed@, UNDISCLOSED)),
        valid_utf8(masked(n.received@, n.received_authed@, UNDISCLOSED)),
        http::is_plain(masked(w.received@, w.received_authed@, UNDISCLOSED)),
        http::is_plain(masked(n.received@, n.received_authed@, UNDISCLOSED)),
    ensures
        ({
            let a = proven(full, expected);
            let b = proven(narrow, expected);
            let wide = encode_utf8(a.recv);
            let slim = encode_utf8(b.recv);
            &&& b.server_name == a.server_name
            &&& b.time_secs == a.time_secs
            &&& b.notary_key == a.notary_key
            &&& b.key_matches == a.key_matches
            &&& slim.len() == wide.len() == w.received@.len()
            &&& forall|i: int|
                0 <= i < slim.len() ==> #[trigger] slim[i] == UNDISCLOSED || slim[i] == wide[i]
            &&& text::is_ascii(wide) ==> {
                &&& b.recv.len() == a.recv.len()
                &&& forall|i: int|
                    0 <= i < b.recv.len() ==> #[trigger] b.recv[i] == 'X' || b.recv[i] == a.recv[i]
            }
        }),
{
    let wide = masked(w.received@, w.received_authed@, UNDISCLOSED);
    let slim = masked(n.received@, n.received_authed@, UNDISCLOSED);
    http::law_plain_response_passes_unchanged(wide);
    http::law_plain_response_passes_unchanged(slim);
    decode_utf8_encode_utf8(wide);
    decode_utf8_encode_utf8(slim);
    assert forall|i: int| 0 <= i < slim.len() implies #[trigger] slim[i] == UNDISCLOSED || slim[i]
        == wide[i] by {
        assert(covered(n.received_authed@, i) ==> covered(w.received_authed@, i));
    }
    if text::is_ascii(wide) {
        assert forall|i: int| 0 <= i < slim.len() implies #[trigger] slim[i] < 0x80 by {
            assert(wide[i] < 0x80);
        }
        text::lemma_ascii(wide);
        text::lemma_ascii(slim);
    }
}

/// A key is pinned by its own hex, and by no hex of another key: whoever expects a key gets a match
/// from that key alone.
pub proof fn law_pin_admits_one_key(key: Seq<u8>, other: Seq<u8>)
    ensures
        is_pinned(key, digits::hex_text(key)),
        is_pinned(other, digits::hex_text(key)) ==> other == key,
{
    let hex = digits::hex_text(key);
    assert forall|bytes: Seq<u8>|
        #![trigger digits::hex_text(bytes)]
        text::lowered(digits::hex_text(bytes)) == digits::hex_text(bytes) by {
        let t = digits::hex_text(bytes);
        assert forall|i: int| 0 <= i < t.len() implies text::lower(#[trigger] t[i]) == t[i] by {
            assert(bytes[i / 2] as nat / 16 < 16);
        }
        assert(text::lowered(t) =~= t);
    }
    assert(text::trimmed(hex) == hex) by {
        if hex.len() > 0 {
            assert(key[0] as nat / 16 < 16);
            let last = hex.len() - 1;
            assert(key[last / 2] as nat / 16 < 16);
            assert(!text::whitespace(hex[0]));
            assert(!text::whitespace(hex.last()));
        }
    }
    if is_pinned(other, hex) {
        digits::law_hex_reads_back(key);
        digits::law_hex_reads_back(other);
    }
}

/// The service answers what an offline check says: the same presentations hold, and of one that holds
/// both say the same.
pub proof fn law_service_and_offline_check_agree(
    opened: Result<OpenedPresentation, PresentationFault>,
    expected: Seq<char>,
)
    ensures
        verdict(opened, expected) is Ok <==> answer(opened, expected) is Ok,
        verdict(opened, expected) is Ok ==> verdict(opened, expected)->Ok_0 == answer(
            opened,
            expected,
        )->Ok_0,
{
}

/// A byte within one of the ranges is shown as it is, and a byte outside of all of them is not.
pub proof fn law_masking_keeps_bytes_within_the_ranges(
    bytes: Seq<u8>,
    ranges: Seq<ByteRange>,
    value: u8,
    i: int,
)
    requires
        0 <= i < bytes.len(),
    ensures
        masked(bytes, ranges, value).len() == bytes.len(),
        (exists|k: int|
            0 <= k < ranges.len() && (#[trigger] ranges[k]).start <= i && i < ranges[k].end) ==> masked(
            bytes,
            ranges,
            value,
        )[i] == bytes[i],
        (forall|k: int|
            0 <= k < ranges.len() ==> i < (#[trigger] ranges[k]).start || ranges[k].end <= i)
            ==> masked(bytes, ranges, value)[i] == value,
{
}

/// A presentation says what it holds: the name of the server as its certificate gives it, the time, the
/// key in hex, the request, and the response with its transport encoding taken off. `sent` and
/// `received` are the bytes of the exchange with an 'X' for each that no range covers.
pub proof fn law_presentation_says_what_it_holds(
    opened: OpenedPresentation,
    expected: Seq<char>,
    sent: Seq<u8>,
    received: Seq<u8>,
)
    requires
        opened.transcript matches Some(t) ==> {
            &&& sent.len() == t.sent@.len()
            &&& received.len() == t.received@.len()
            &&& forall|i: int|
                0 <= i < sent.len() ==> #[trigger] sent[i] == if exists|k: int|
                    0 <= k < t.sent_authed@.len() && (#[trigger] t.sent_authed@[k]).start <= i && i
                        < t.sent_authed@[k].end {
                    t.sent@[i]
                } else {
                    88
                }
            &&& forall|i: int|
                0 <= i < received.len() ==> #[trigger] received[i] == if exists|k: int|
                    0 <= k < t.received_authed@.len() && (#[trigger] t.received_authed@[k]).start <= i
                        && i < t.received_authed@[k].end {
                    t.received@[i]
                } else {
                    88
                }
        },
    ensures
        ({
            let v = proven(opened, expected);
            &&& opened.server_name matches Some(name) ==> v.server_name == name@
            &&& opened.server_name is None ==> v.server_name == Seq::<char>::empty()
            &&& v.time_secs == opened.time_secs
            &&& v.notary_key == digits::hex_text(opened.notary_key@)
            &&& opened.transcript is Some ==> v.sent == text::utf8_lossy(sent)
            &&& opened.transcript is Some ==> v.recv == http::response_text(received)
            &&& opened.transcript is None ==> v.sent == Seq::<char>::empty()
            &&& opened.transcript is None ==> v.recv == Seq::<char>::empty()
        }),
{
    if let Some(t) = opened.transcript {
        assert(masked(t.sent@, t.sent_authed@, UNDISCLOSED) =~= sent);
        assert(masked(t.received@, t.received_authed@, UNDISCLOSED) =~= received);
    }
}

/// The key matches iff what is expected, without the whitespace around it, gives that key in hex, in
/// whatever case.
pub proof fn law_key_matches_iff_it_is_the_expected_one(
    opened: OpenedPresentation,
    expected: Seq<char>,
)
    ensures
        proven(opened, expected).key_matches <==> digits::hex_bytes(text::trimmed(expected)) == Some(
            opened.notary_key@,
        ),
{
    let key = opened.notary_key@;
    let given = text::trimmed(expected);
    let hex = digits::hex_text(key);
    digits::lemma_hex_text_is_lower(key);
    digits::lemma_hex_has_either_case(given);
    digits::law_hex_reads_back(key);
    if digits::hex_bytes(given) == Some(key) {
        digits::lemma_lower_hex_is_the_text(text::lowered(given), key);
    }
    assert(text::lowered(hex) =~= hex);
}

/// A presentation that was opened is vouched for; one that was not is answered with the reason.
pub proof fn law_only_opened_presentations_are_vouched_for(
    opened: Result<OpenedPresentation, PresentationFault>,
    expected: Seq<char>,
)
    ensures
        opened matches Ok(o) ==> {
            &&& verdict(opened, expected) == Ok::<_, ErrorText>(proven(o, expected))
            &&& answer(opened, expected) == Ok::<_, (u16, Seq<char>)>(proven(o, expected))
        },
        opened matches Err(PresentationFault::Unreadable(e)) ==> {
            &&& verdict(opened, expected) == Err::<Verified, _>(ErrorText::ProofFailed(e@))
            &&& answer(opened, expected) == Err::<Verified, _>(
                (400u16, "deserialize presentation: "@ + e@),
            )
        },
        opened matches Err(PresentationFault::Refused(e)) ==> {
            &&& verdict(opened, expected) == Err::<Verified, _>(
                ErrorText::ProofFailed("presentation verify failed: "@ + e@),
            )
            &&& answer(opened, expected) == Err::<Verified, _>(
                (400u16, "presentation verify failed: "@ + e@),
            )
        },
{
}

/// What is said of a presentation is what its fields hold, each under its own name.
pub proof fn law_fields_hold_what_is_said(v: VerifiedPresentation, r: VerifyResult)
    ensures
        v@.server_name == v.server_name@,
        v@.time_secs == v.time_secs,
        v@.sent == v.sent@,
        v@.recv == v.recv@,
        v@.notary_key == v.notary_key@,
        v@.key_matches == v.key_matches,
        r.verified().server_name == r.server_name@,
        r.verified().time_secs == r.time_secs,
        r.verified().sent == r.sent@,
        r.verified().recv == r.recv@,
        r.verified().notary_key == r.notary_key@,
        r.verified().key_matches == r.key_matches,
{
}

} // verus!
