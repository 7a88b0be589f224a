//! What an interactive verifier concludes from a session, and how it shows bytes that are partly hidden.
use crate::runs;
use crate::session::{Output, OutputText, ShownBytes};
use crate::text;
use vstd::prelude::*;
use vstd::utf8::*;

verus! {

/// What is shown in place of a byte that is hidden.
pub const BLOCK: char = '\u{2588}';

/// How many blocks in a row are long enough to be shortened.
pub const LONG_RUN: usize = 5;

/// What is shown of bytes among which a zero byte stands for a hidden one: the text that they encode,
/// with `to` in place of every hidden byte, or the message of the error.
pub open spec fn redacted(bytes: Seq<u8>, to: Seq<char>) -> Result<Seq<char>, Seq<char>> {
    if valid_utf8(bytes) {
        Ok(text::replaced(decode_utf8(bytes), '\0', to))
    } else {
        Err("Failed to parse bytes to redacted string: "@ + text::utf8_fault(bytes))
    }
}

/// `text` with every long run of blocks shortened to two blocks around an ellipsis.
pub open spec fn compressed(text: Seq<char>) -> Seq<char> {
    runs::replace_each_run(text, BLOCK, LONG_RUN as nat, shortened())
}

/// What stands for a long run of blocks.
pub open spec fn shortened() -> Seq<char> {
    seq![BLOCK, '\u{2026}', BLOCK]
}

/// Shows bytes among which a zero byte stands for a hidden one.
pub fn bytes_to_redacted_string(bytes: &[u8], to: &str) -> (r: Result<String, String>)
    ensures
        r matches Ok(t) ==> redacted(bytes@, to@) == Ok::<_, Seq<char>>(t@),
        r matches Err(e) ==> redacted(bytes@, to@) == Err::<Seq<char>, _>(e@),
{
    match text::from_utf8(vstd::slice::slice_to_vec(bytes)) {
        Ok(t) => Ok(text::replace_char(t.as_str(), '\0', to)),
        Err(e) => Err(text::joined("Failed to parse bytes to redacted string: ", e.as_str())),
    }
}

/// Shortens long runs of blocks, so that what is shown is easier to read.
pub fn compress_redacted_sequences(text: String) -> (r: String)
    ensures
        r@ == compressed(text@),
{
    proof {
        reveal_strlit("\u{2588}\u{2026}\u{2588}");
        assert("\u{2588}\u{2026}\u{2588}"@ =~= shortened());
    }
    runs::replace_runs(text.as_str(), BLOCK, LONG_RUN, "\u{2588}\u{2026}\u{2588}")
}

/// What a verifier learns from a session.
#[derive(Debug)]
pub struct Verification {
    pub server_name: String,
    pub shown: ShownBytes,
}

/// What a verifier learns from a session, over characters and bytes.
#[verifier::ext_equal]
pub struct VerificationText {
    pub server_name: Seq<char>,
    pub sent: Seq<u8>,
    pub received: Seq<u8>,
}

impl View for Verification {
    type V = VerificationText;

    open spec fn view(&self) -> VerificationText {
        VerificationText {
            server_name: self.server_name@,
            sent: self.shown.sent@,
            received: self.shown.received@,
        }
    }
}

/// An exchange as text, with a block for every hidden byte.
#[derive(Debug)]
pub struct Rendering {
    pub sent: String,
    pub received: String,
}

/// An exchange as text, over characters.
#[verifier::ext_equal]
pub struct RenderingText {
    pub sent: Seq<char>,
    pub received: Seq<char>,
}

impl View for Rendering {
    type V = RenderingText;

    open spec fn view(&self) -> RenderingText {
        RenderingText { sent: self.sent@, received: self.received@ }
    }
}

/// What a verifier concludes from what a prover showed: the prover owes the name of the server and the
/// exchange, whatever bytes that is.
pub open spec fn conclusion(output: OutputText) -> Result<VerificationText, Seq<char>> {
    match output.server_name {
        None => Err("prover should have revealed server name"@),
        Some(server_name) => match output.transcript {
            None => Err("prover should have revealed transcript data"@),
            Some((sent, received)) => Ok(VerificationText { server_name, sent, received }),
        },
    }
}

/// An exchange as text; there is none where a part of it is not UTF-8.
pub open spec fn rendering(sent: Seq<u8>, received: Seq<u8>) -> Result<RenderingText, Seq<char>> {
    match (redacted(sent, seq![BLOCK]), redacted(received, seq![BLOCK])) {
        (Err(e), _) => Err(e),
        (_, Err(e)) => Err(e),
        (Ok(sent), Ok(received)) => Ok(RenderingText { sent, received }),
    }
}

/// What a verifier concludes from what a prover showed. Where it logs the exchange, it needs it as
/// text, and comes to nothing where there is none.
pub open spec fn logged_conclusion(output: OutputText, logs: bool) -> Result<
    (VerificationText, Option<RenderingText>),
    Seq<char>,
> {
    match conclusion(output) {
        Err(e) => Err(e),
        Ok(v) => if logs {
            match rendering(v.sent, v.received) {
                Err(e) => Err(e),
                Ok(text) => Ok((v, Some(text))),
            }
        } else {
            Ok((v, None))
        },
    }
}

/// Concludes from what a prover showed at the end of a session.
pub fn conclude(output: Output) -> (r: Result<Verification, String>)
    ensures
        r matches Ok(v) ==> conclusion(output@) == Ok::<_, Seq<char>>(v@),
        r matches Err(e) ==> conclusion(output@) == Err::<VerificationText, _>(e@),
{
    let server_name = match output.server_name {
        Some(name) => name,
        None => return Err("prover should have revealed server name".to_string()),
    };
    match output.transcript {
        Some(shown) => Ok(Verification { server_name, shown }),
        None => Err("prover should have revealed transcript data".to_string()),
    }
}

/// Shows an exchange as text, with a block for every hidden byte.
pub fn render(shown: &ShownBytes) -> (r: Result<Rendering, String>)
    ensures
        r matches Ok(text) ==> rendering(shown.sent@, shown.received@) == Ok::<_, Seq<char>>(text@),
        r matches Err(e) ==> rendering(shown.sent@, shown.received@) == Err::<RenderingText, _>(e@),
{
    proof {
        reveal_strlit("\u{2588}");
        assert("\u{2588}"@ =~= seq![BLOCK]);
    }
    let sent = match bytes_to_redacted_string(shown.sent.as_slice(), "\u{2588}") {
        Ok(sent) => sent,
        Err(e) => return Err(e),
    };
    match bytes_to_redacted_string(shown.received.as_slice(), "\u{2588}") {
        Ok(received) => Ok(Rendering { sent, received }),
        Err(e) => Err(e),
    }
}

/// Concludes from what a prover showed at the end of a session, and shows the exchange as text where
/// it is logged.
pub fn conclude_logged(output: Output, logs: bool) -> (r: Result<
    (Verification, Option<Rendering>),
    String,
>)
    ensures
        r matches Ok((v, text)) ==> logged_conclusion(output@, logs) == Ok::<_, Seq<char>>(
            (
                v@,
                match text {
                    Some(t) => Some(t@),
                    None => None,
                },
            ),
        ),
        r matches Err(e) ==> logged_conclusion(output@, logs) == Err::<
            (VerificationText, Option<RenderingText>),
            _,
        >(e@),
{
    let v = match conclude(output) {
        Ok(v) => v,
        Err(e) => return Err(e),
    };
    if !logs {
        return Ok((v, None));
    }
    match render(&v.shown) {
        Ok(text) => Ok((v, Some(text))),
        Err(e) => Err(e),
    }
}

/// Whether the exchange is logged decides of nothing else: what a verifier that logs it concludes is
/// what one concludes that does not, and it comes to nothing besides only where the exchange is not
/// text.
pub proof fn law_logging_changes_no_conclusion(output: OutputText)
    ensures
        logged_conclusion(output, true) matches Ok((v, _)) ==> logged_conclusion(output, false)
            == Ok::<_, Seq<char>>((v, None::<RenderingText>)),
        logged_conclusion(output, false) is Ok <==> output.server_name is Some
            && output.transcript is Some,
        logged_conclusion(output, true) is Ok <==> {
            &&& output.server_name is Some
            &&& output.transcript matches Some((sent, received)) && valid_utf8(sent) && valid_utf8(
                received,
            )
        },
{
}

/// What is shown of bytes has no zero byte in it, and is the text itself where nothing is hidden.
pub proof fn law_no_hidden_byte_is_shown(bytes: Seq<u8>, to: Seq<char>)
    requires
        valid_utf8(bytes),
        !to.contains('\0'),
    ensures
        redacted(bytes, to) is Ok,
        !redacted(bytes, to)->Ok_0.contains('\0'),
        !decode_utf8(bytes).contains('\0') ==> redacted(bytes, to)->Ok_0 == decode_utf8(bytes),
{
    lemma_replaced(decode_utf8(bytes), '\0', to);
}

proof fn lemma_replaced(s: Seq<char>, from: char, to: Seq<char>)
    requires
        !to.contains(from),
    ensures
        !text::replaced(s, from, to).contains(from),
        !s.contains(from) ==> text::replaced(s, from, to) == s,
    decreases s.len(),
{
    if s.len() > 0 {
        let rest = s.drop_last();
        lemma_replaced(rest, from, to);
        let r = text::replaced(rest, from, to);
        assert(forall|i: int| 0 <= i < r.len() ==> r[i] != from) by {
            assert forall|i: int| 0 <= i < r.len() implies r[i] != from by {
                if r[i] == from {
                    assert(r.contains(from));
                }
            }
        }
        assert(forall|i: int| 0 <= i < to.len() ==> to[i] != from) by {
            assert forall|i: int| 0 <= i < to.len() implies to[i] != from by {
                if to[i] == from {
                    assert(to.contains(from));
                }
            }
        }
        if !s.contains(from) {
            assert(s[s.len() - 1] != from);
            assert(!rest.contains(from)) by {
                if rest.contains(from) {
                    let i = choose|i: int| 0 <= i < rest.len() && rest[i] == from;
                    assert(s[i] == from);
                }
            }
            assert(text::replaced(s, from, to) =~= s);
        }
    }
}

/// A compressed text has no long run of blocks left, so that it stays as it is when it is compressed
/// again.
pub proof fn law_compressed_text_stays(text: Seq<char>)
    ensures
        runs::without_run(compressed(text), BLOCK, LONG_RUN as nat),
        compressed(compressed(text)) == compressed(text),
{
    runs::lemma_shortened_runs(text, BLOCK, LONG_RUN as nat, '\u{2026}');
    runs::law_text_without_run_stays(compressed(text), BLOCK, LONG_RUN as nat, shortened());
}

/// What is shown of bytes goes character by character: `to` for every zero byte, and every other
/// character as it is. Bytes that are no text are refused, with the reason.
pub proof fn law_every_hidden_byte_is_replaced(a: Seq<u8>, b: Seq<u8>, to: Seq<char>)
    ensures
        !valid_utf8(a) ==> redacted(a, to) == Err::<Seq<char>, _>(
            "Failed to parse bytes to redacted string: "@ + text::utf8_fault(a),
        ),
        valid_utf8(a) && valid_utf8(b) ==> {
            &&& redacted(a, to) is Ok && redacted(b, to) is Ok
            &&& redacted(a + seq![0u8] + b, to) == Ok::<_, Seq<char>>(
                redacted(a, to)->Ok_0 + to + redacted(b, to)->Ok_0,
            )
            &&& !decode_utf8(a).contains('\0') ==> redacted(a, to) == Ok::<_, Seq<char>>(
                decode_utf8(a),
            )
        },
{
    if valid_utf8(a) && valid_utf8(b) {
        let zero = seq![0u8];
        text::lemma_ascii(zero);
        assert(decode_utf8(zero) =~= seq!['\0']);
        text::lemma_text_behind_text(a, zero);
        text::lemma_text_behind_text(a + zero, b);
        let x = decode_utf8(a);
        let y = decode_utf8(b);
        text::law_replacing_goes_character_by_character(x, seq!['\0'], '\0', to, '\0');
        text::law_replacing_goes_character_by_character(x + seq!['\0'], y, '\0', to, '\0');
        lemma_nothing_replaced(x, '\0', to);
    }
}

proof fn lemma_nothing_replaced(s: Seq<char>, from: char, to: Seq<char>)
    ensures
        !s.contains(from) ==> text::replaced(s, from, to) == s,
    decreases s.len(),
{
    if s.len() > 0 && !s.contains(from) {
        let rest = s.drop_last();
        assert(s[s.len() - 1] != from);
        assert(!rest.contains(from)) by {
            if rest.contains(from) {
                let i = choose|i: int| 0 <= i < rest.len() && rest[i] == from;
                assert(s[i] == from);
            }
        }
        lemma_nothing_replaced(rest, from, to);
        assert(text::replaced(s, from, to) =~= s);
    }
}

/// Five blocks or more in a row, and no fewer, are shortened to two around an ellipsis; what stands
/// before them stays, and what stands behind them is compressed on its own.
pub proof fn law_long_runs_are_shortened(before: Seq<char>, n: nat, behind: Seq<char>)
    requires
        n >= 5,
        runs::without_run(before, '\u{2588}', 5),
        before.len() > 0 ==> before.last() != '\u{2588}',
        behind.len() > 0 ==> behind[0] != '\u{2588}',
    ensures
        compressed(before) == before,
        compressed(before + Seq::new(n, |i: int| '\u{2588}') + behind) == before + seq![
            '\u{2588}',
            '\u{2026}',
            '\u{2588}',
        ] + compressed(behind),
{
    runs::law_text_without_run_stays(before, '\u{2588}', 5, shortened());
    runs::lemma_run_is_replaced(before, '\u{2588}', 5, n, behind, shortened());
}

/// A verifier that was shown the name and the exchange comes to both, as they were shown; one that was
/// not says what is missing.
pub proof fn law_verifier_learns_what_was_shown(output: OutputText)
    ensures
        output.server_name is None ==> conclusion(output) == Err::<VerificationText, _>(
            "prover should have revealed server name"@,
        ),
        output.server_name is Some && output.transcript is None ==> conclusion(output) == Err::<
            VerificationText,
            _,
        >("prover should have revealed transcript data"@),
        output.server_name matches Some(server_name) ==> (output.transcript matches Some(
            (sent, received),
        ) ==> conclusion(output) == Ok::<_, Seq<char>>(
            VerificationText { server_name, sent, received },
        )),
{
}

/// An exchange is rendered part by part, with a block for every hidden byte; the part that fails first
/// decides.
pub proof fn law_exchanges_are_rendered_in_blocks(sent: Seq<u8>, received: Seq<u8>)
    ensures
        ({
            let s = redacted(sent, seq!['\u{2588}']);
            let r = redacted(received, seq!['\u{2588}']);
            &&& s matches Err(e) ==> rendering(sent, received) == Err::<RenderingText, _>(e)
            &&& s is Ok ==> (r matches Err(e) ==> rendering(sent, received) == Err::<
                RenderingText,
                _,
            >(e))
            &&& s is Ok && r is Ok ==> rendering(sent, received) == Ok::<_, Seq<char>>(
                RenderingText { sent: s->Ok_0, received: r->Ok_0 },
            )
        }),
{
}

/// What is logged is the rendering of what was shown, and all of it.
pub proof fn law_logs_render_what_was_shown(output: OutputText)
    ensures
        conclusion(output) matches Err(e) ==> {
            &&& logged_conclusion(output, true) == Err::<(VerificationText, Option<RenderingText>), _>(e)
            &&& logged_conclusion(output, false) == Err::<(VerificationText, Option<RenderingText>), _>(
                e,
            )
        },
        conclusion(output) matches Ok(v) ==> {
            &&& logged_conclusion(output, false) == Ok::<_, Seq<char>>((v, None::<RenderingText>))
            &&& rendering(v.sent, v.received) matches Ok(t) ==> logged_conclusion(output, true) == Ok::<
                _,
                Seq<char>,
            >((v, Some(t)))
            &&& rendering(v.sent, v.received) matches Err(e) ==> logged_conclusion(output, true)
                == Err::<(VerificationText, Option<RenderingText>), _>(e)
        },
{
}

/// Verifications and renderings say what they hold.
pub proof fn law_verifications_say_what_they_hold(v: Verification, r: Rendering)
    ensures
        v@.server_name == v.server_name@,
        v@.sent == v.shown.sent@,
        v@.received == v.shown.received@,
        r@.sent == r.sent@,
        r@.received == r.received@,
{
}

} // verus!
