//! From the bytes of an HTTP/1.1 response, as they came off the wire, to a text from which a claim
//! can be read.
use crate::digits;
use crate::text;
use std::io::Read;
use vstd::prelude::*;
use vstd::utf8::*;

verus! {

/// What `flate2` makes of the gzip stream `bytes`: the bytes that were compressed, or nothing where
/// the stream is damaged.
pub uninterp spec fn gunzipped(bytes: Seq<u8>) -> Option<Seq<u8>>;

/// Calls `flate2::read::GzDecoder` and reads it to its end. What comes out, and whether the stream
/// is accepted, depends on its bytes alone.
#[verifier::external_body]
pub(crate) fn gunzip(bytes: &[u8]) -> (plain: Option<Vec<u8>>)
    ensures
        plain matches Some(p) ==> gunzipped(bytes@) == Some(p@),
        plain is None ==> gunzipped(bytes@) is None,
{
    let mut plain: Vec<u8> = Vec::new();
    match flate2::read::GzDecoder::new(bytes).read_to_end(&mut plain) {
        Ok(_) => Some(plain),
        Err(_) => None,
    }
}

/// The end of a line on the wire.
pub open spec fn line_end() -> Seq<u8> {
    seq![13u8, 10u8]
}

/// What stands between the headers and the body.
pub open spec fn head_end() -> Seq<u8> {
    seq![13u8, 10u8, 13u8, 10u8]
}

/// Whether a line of `text` begins at `i` and ends before `j`: what stands there is bounded by line
/// feeds or by the ends of the text. The empty stretch behind a final line feed is no line.
pub open spec fn is_line(text: Seq<char>, i: int, j: int) -> bool {
    &&& 0 <= i <= j <= text.len()
    &&& i < text.len()
    &&& i == 0 || text[i - 1] == '\n'
    &&& j == text.len() || text[j] == '\n'
    &&& forall|k: int| i <= k < j ==> text[k] != '\n'
}

/// The line from `i` to `j`, without the carriage return that belongs to the line's end.
pub open spec fn line_text(text: Seq<char>, i: int, j: int) -> Seq<char> {
    if j < text.len() && i < j && text[j - 1] == '\r' {
        text.subrange(i, j - 1)
    } else {
        text.subrange(i, j)
    }
}

/// Whether some line of `headers` begins with `key` and has `value` in it.
pub open spec fn header_says(headers: Seq<char>, key: Seq<char>, value: Seq<char>) -> bool {
    exists|i: int, j: int|
        #![trigger is_line(headers, i, j)]
        is_line(headers, i, j) && line_says(line_text(headers, i, j), key, value)
}

/// Whether `line` begins with `key` and has `value` in it.
pub open spec fn line_says(line: Seq<char>, key: Seq<char>, value: Seq<char>) -> bool {
    &&& text::occurs_at(line, key, 0)
    &&& exists|k: int| #[trigger] text::occurs_at(line, value, k)
}

/// Whether the response with these headers has a chunked body.
pub open spec fn is_chunked(headers: Seq<char>) -> bool {
    header_says(text::lowered(headers), "transfer-encoding:"@, "chunked"@)
}

/// Whether the response with these headers has a compressed body.
pub open spec fn is_gzipped(headers: Seq<char>) -> bool {
    header_says(text::lowered(headers), "content-encoding:"@, "gzip"@)
}

/// The number that the hexadecimal digits `digits` stand for.
pub open spec fn hex_number(digits: Seq<char>) -> Option<nat>
    decreases digits.len(),
{
    if digits.len() == 0 {
        Some(0)
    } else {
        match (hex_number(digits.drop_last()), digits::hex_digit(digits.last())) {
            (Some(n), Some(d)) => Some(n * 16 + d),
            _ => None,
        }
    }
}

/// The size that a hexadecimal number with an optional plus sign gives; none where it is no such
/// number, or a larger one than a size can be.
pub open spec fn hex_size(s: Seq<char>) -> Option<nat> {
    let digits = if s.len() > 0 && s[0] == '+' {
        s.skip(1)
    } else {
        s
    };
    match hex_number(digits) {
        Some(n) if digits.len() > 0 && n <= usize::MAX => Some(n),
        _ => None,
    }
}

/// What stands before the first `c` in `s`, or all of `s` where there is none.
pub open spec fn before(s: Seq<char>, c: char) -> Seq<char> {
    match text::first_occurrence(s, seq![c]) {
        Some(i) => s.take(i),
        None => s,
    }
}

/// The size that the line before a chunk gives, without the chunk's extensions.
pub open spec fn chunk_size_of(line: Seq<char>) -> Option<nat> {
    hex_size(text::trimmed(before(text::trimmed(line), ';')))
}

/// The data of a chunked body: each chunk is a line with its size, that many bytes, and the end of a
/// line; a chunk of size zero ends the body. None where the body is malformed or cut short.
pub open spec fn dechunked(body: Seq<u8>) -> Option<Seq<u8>>
    decreases body.len(),
{
    match text::first_occurrence(body, line_end()) {
        None => None,
        Some(nl) => match chunk_size_of(text::utf8_lossy(body.take(nl))) {
            None => None,
            Some(size) => if size == 0 {
                Some(Seq::empty())
            } else if nl < 0 || nl + 2 + size + 2 > body.len() {
                None
            } else if body.subrange(nl + 2 + size, nl + 4 + size) != line_end() {
                None
            } else {
                match dechunked(body.skip(nl + 2 + size + 2)) {
                    None => None,
                    Some(rest) => Some(body.subrange(nl + 2, nl + 2 + size) + rest),
                }
            },
        },
    }
}

/// Whether `line` begins with `key` and has `value` in it.
fn line_has(line: &[char], key: &[char], value: &[char]) -> (r: bool)
    ensures
        r == line_says(line@, key@, value@),
{
    text::chars_at(line, key, 0) && text::chars_contain(line, value)
}

/// Whether some line of `headers` begins with `key` and has `value` in it.
pub fn has_header(headers: &[char], key: &str, value: &str) -> (r: bool)
    ensures
        r == header_says(headers@, key@, value@),
{
    let key_chars = text::chars_of(key);
    let value_chars = text::chars_of(value);
    let mut start: usize = 0;
    while start < headers.len()
        invariant
            start <= headers.len(),
            key_chars@ == key@,
            value_chars@ == value@,
            start == 0 || headers@[start - 1] == '\n',
            forall|i: int, j: int|
                #![trigger is_line(headers@, i, j)]
                i < start && is_line(headers@, i, j) ==> !line_says(
                    line_text(headers@, i, j),
                    key@,
                    value@,
                ),
        decreases headers.len() - start,
    {
        let mut end: usize = start;
        while end < headers.len() && headers[end] != '\n'
            invariant
                start <= end <= headers.len(),
                forall|k: int| start <= k < end ==> headers@[k] != '\n',
            decreases headers.len() - end,
        {
            end += 1;
        }
        assert(is_line(headers@, start as int, end as int));
        let cut: usize = if end < headers.len() && start < end && headers[end - 1] == '\r' {
            end - 1
        } else {
            end
        };
        let line = vstd::slice::slice_subrange(headers, start, cut);
        assert(line@ == line_text(headers@, start as int, end as int));
        if line_has(line, key_chars.as_slice(), value_chars.as_slice()) {
            return true;
        }
        proof {
            assert forall|i: int, j: int|
                #![trigger is_line(headers@, i, j)]
                i < end + 1 && is_line(headers@, i, j) implies !line_says(
                line_text(headers@, i, j),
                key@,
                value@,
            ) by {
                if i >= start {
                    if i > start {
                        assert(headers@[i - 1] == '\n');
                    }
                    assert(i == start);
                    if j < end {
                        assert(headers@[j] == '\n');
                    }
                    if j > end {
                        assert(headers@[end as int] != '\n');
                    }
                    assert(j == end);
                }
            }
        }
        if end == headers.len() {
            return false;
        }
        start = end + 1;
    }
    false
}

/// Digits behind `digits` only make the number larger, and leave it no number where it was none.
proof fn lemma_hex_number_grows(digits: Seq<char>, i: int)
    requires
        0 <= i <= digits.len(),
    ensures
        hex_number(digits.take(i)) is None ==> hex_number(digits) is None,
        hex_number(digits) matches Some(n) ==> hex_number(digits.take(i))->0 <= n,
    decreases digits.len(),
{
    if i < digits.len() {
        assert(digits.drop_last().take(i) =~= digits.take(i));
        lemma_hex_number_grows(digits.drop_last(), i);
    } else {
        assert(digits.take(i) =~= digits);
    }
}

/// The size that a hexadecimal number with an optional plus sign gives.
pub fn parse_hex_size(s: &[char]) -> (r: Option<usize>)
    ensures
        r matches Some(n) ==> hex_size(s@) == Some(n as nat),
        r is None ==> hex_size(s@) is None,
{
    let first: usize = if s.len() > 0 && s[0] == '+' {
        1
    } else {
        0
    };
    let digits = vstd::slice::slice_subrange(s, first, s.len());
    assert(digits@ =~= if s@.len() > 0 && s@[0] == '+' {
        s@.skip(1)
    } else {
        s@
    });
    if digits.len() == 0 {
        return None;
    }
    let mut n: usize = 0;
    let mut i: usize = 0;
    while i < digits.len()
        invariant
            i <= digits.len(),
            digits.len() > 0,
            hex_number(digits@.take(i as int)) == Some(n as nat),
            digits@ == (if s@.len() > 0 && s@[0] == '+' {
                s@.skip(1)
            } else {
                s@
            }),
        decreases digits.len() - i,
    {
        proof {
            assert(digits@.take(i + 1).drop_last() =~= digits@.take(i as int));
            lemma_hex_number_grows(digits@, i + 1);
        }
        match digits::hex_value(digits[i]) {
            None => {
                return None;
            },
            Some(d) => {
                if n > (usize::MAX - d as usize) / 16 {
                    assert(n * 16 + d > usize::MAX);
                    return None;
                }
                n = n * 16 + d as usize;
            },
        }
        i += 1;
    }
    assert(digits@.take(i as int) =~= digits@);
    Some(n)
}

/// The size that the line before a chunk gives.
pub fn chunk_size(line: &str) -> (r: Option<usize>)
    ensures
        r matches Some(n) ==> chunk_size_of(line@) == Some(n as nat),
        r is None ==> chunk_size_of(line@) is None,
{
    let chars = text::chars_of(line);
    let line = text::trim_chars(chars.as_slice());
    let mut end: usize = 0;
    while end < line.len() && line[end] != ';'
        invariant
            end <= line.len(),
            text::first_from(line@, seq![';'], 0) == text::first_from(line@, seq![';'], end as int),
        decreases line.len() - end,
    {
        assert(line@.subrange(end as int, end + 1)[0] == line@[end as int]);
        end += 1;
    }
    proof {
        if end < line.len() {
            assert(line@.subrange(end as int, end + 1) =~= seq![';']);
        }
        assert(line@.take(end as int) =~= before(line@, ';'));
        assert(line@.take(end as int) =~= line@.subrange(0, end as int));
    }
    parse_hex_size(text::trim_chars(vstd::slice::slice_subrange(line, 0, end)))
}

/// The data of a chunked body, or nothing where the body is malformed or cut short.
pub fn dechunk(body: &[u8]) -> (r: Option<Vec<u8>>)
    ensures
        r matches Some(data) ==> dechunked(body@) == Some(data@),
        r is None ==> dechunked(body@) is None,
{
    let separator: [u8; 2] = [13, 10];
    assert(separator@ =~= line_end());
    let mut data: Vec<u8> = Vec::new();
    let mut pos: usize = 0;
    assert(body@.skip(0) =~= body@);
    loop
        invariant
            separator@ == line_end(),
            pos <= body.len(),
            match dechunked(body@.skip(pos as int)) {
                Some(rest) => dechunked(body@) == Some(data@ + rest),
                None => dechunked(body@) is None,
            },
        decreases body.len() - pos,
    {
        let rest = vstd::slice::slice_subrange(body, pos, body.len());
        assert(rest@ =~= body@.skip(pos as int));
        let nl = match text::find_bytes(rest, separator.as_slice()) {
            None => {
                return None;
            },
            Some(nl) => nl,
        };
        proof {
            text::lemma_first_from(rest@, line_end(), 0);
            assert(rest@.subrange(0, nl as int) =~= rest@.take(nl as int));
        }
        let line = text::from_utf8_lossy(vstd::slice::slice_subrange(rest, 0, nl));
        let size = match chunk_size(line.as_str()) {
            None => {
                return None;
            },
            Some(size) => size,
        };
        if size == 0 {
            assert(data@ + Seq::<u8>::empty() =~= data@);
            return Some(data);
        }
        let start: usize = nl + 2;
        let left: usize = rest.len() - start;
        if left < 2 || size > left - 2 {
            return None;
        }
        if rest[start + size] != 13 || rest[start + size + 1] != 10 {
            proof {
                let ending = rest@.subrange(start + size, start + size + 2);
                assert(ending[0] == rest@[start + size] && ending[1] == rest@[start + size + 1]);
                assert(line_end()[0] == 13u8 && line_end()[1] == 10u8);
            }
            return None;
        }
        assert(rest@.subrange(start + size, start + size + 2) =~= line_end());
        let chunk = vstd::slice::slice_subrange(rest, start, start + size);
        let ghost before_chunk = data@;
        data.extend_from_slice(chunk);
        proof {
            assert(data@ =~= before_chunk + chunk@);
            assert(rest@.skip(start + size + 2) =~= body@.skip(pos + start + size + 2));
            if let Some(tail) = dechunked(rest@.skip(start + size + 2)) {
                assert(before_chunk + (chunk@ + tail) =~= data@ + tail);
            }
        }
        pos = pos + start + size + 2;
    }
}

/// The text of a response: its headers, an empty line, and its body without chunks and
/// compression. A response that cannot be read that way is shown as it came.
pub open spec fn response_text(raw: Seq<u8>) -> Seq<char> {
    match text::first_occurrence(raw, head_end()) {
        None => text::utf8_lossy(raw),
        Some(i) => {
            let headers = text::utf8_lossy(raw.take(i));
            let data = if is_chunked(headers) {
                dechunked(raw.skip(i + 4))
            } else {
                Some(raw.skip(i + 4))
            };
            let plain = match data {
                Some(d) if is_gzipped(headers) => gunzipped(d),
                _ => data,
            };
            finished(raw, headers, plain)
        },
    }
}

/// The text of a response whose body came out as `plain`, or did not come out.
pub open spec fn finished(raw: Seq<u8>, headers: Seq<char>, plain: Option<Seq<u8>>) -> Seq<char> {
    match plain {
        Some(p) => headers + "\r\n\r\n"@ + text::utf8_lossy(p),
        None => text::utf8_lossy(raw),
    }
}

/// A body without its chunks.
#[derive(Debug)]
pub enum Payload {
    /// The chunks are malformed.
    Malformed,
    /// The body as it is to be read.
    Plain(Vec<u8>),
    /// The body as a gzip stream.
    Gzipped(Vec<u8>),
}

/// Takes the chunks off `body`, where `headers` say that it has some, and tells whether what is left
/// is compressed.
pub fn payload_of(headers: &str, body: &[u8]) -> (r: Payload)
    ensures
        ({
            let data = if is_chunked(headers@) {
                dechunked(body@)
            } else {
                Some(body@)
            };
            match r {
                Payload::Malformed => data is None,
                Payload::Plain(d) => data == Some(d@) && !is_gzipped(headers@),
                Payload::Gzipped(d) => data == Some(d@) && is_gzipped(headers@),
            }
        }),
{
    let lowered = text::lower_chars(headers);
    let data = if has_header(lowered.as_slice(), "transfer-encoding:", "chunked") {
        match dechunk(body) {
            None => {
                return Payload::Malformed;
            },
            Some(data) => data,
        }
    } else {
        vstd::slice::slice_to_vec(body)
    };
    if has_header(lowered.as_slice(), "content-encoding:", "gzip") {
        Payload::Gzipped(data)
    } else {
        Payload::Plain(data)
    }
}

/// The text of a response whose body came out as `plain`, or did not come out.
pub fn finish_response(raw: &[u8], headers: &str, plain: Option<Vec<u8>>) -> (text: String)
    ensures
        text@ == finished(
            raw@,
            headers@,
            match plain {
                Some(p) => Some(p@),
                None => None,
            },
        ),
{
    match plain {
        Some(p) => {
            let mut text = headers.to_string();
            text.append("\r\n\r\n");
            text.append(text::from_utf8_lossy(p.as_slice()).as_str());
            text
        },
        None => text::from_utf8_lossy(raw),
    }
}

/// Turns a raw HTTP/1.1 response, status line and headers and body exactly as they came off the
/// wire, into its headers and its body in plain text. A chunked body is put together and a
/// compressed one is unpacked. Where anything of that fails, the raw response is shown.
pub fn decode_http_response(raw: &[u8]) -> (text: String)
    ensures
        text@ == response_text(raw@),
{
    let separator: [u8; 4] = [13, 10, 13, 10];
    assert(separator@ =~= head_end());
    let end = match text::find_bytes(raw, separator.as_slice()) {
        None => {
            return text::from_utf8_lossy(raw);
        },
        Some(end) => end,
    };
    proof {
        text::lemma_first_from(raw@, head_end(), 0);
        assert(end + 4 <= raw.len());
        assert(raw@.subrange(0, end as int) =~= raw@.take(end as int));
        assert(raw@.subrange(end + 4, raw@.len() as int) =~= raw@.skip(end + 4));
    }
    let headers = text::from_utf8_lossy(vstd::slice::slice_subrange(raw, 0, end));
    let body = vstd::slice::slice_subrange(raw, end + 4, raw.len());
    let plain = match payload_of(headers.as_str(), body) {
        Payload::Malformed => None,
        Payload::Plain(data) => Some(data),
        Payload::Gzipped(data) => gunzip(data.as_slice()),
    };
    finish_response(raw, headers.as_str(), plain)
}

/// Whether a response is neither chunked nor compressed, as far as it has headers that end.
pub open spec fn is_plain(raw: Seq<u8>) -> bool {
    text::first_occurrence(raw, head_end()) matches Some(i) ==> {
        let headers = text::utf8_lossy(raw.take(i));
        !is_chunked(headers) && !is_gzipped(headers)
    }
}

/// Behind the headers of a response that is text, two ends of a line come first, and then text.
proof fn lemma_text_behind_head(tail: Seq<u8>)
    requires
        valid_utf8(tail),
        tail.len() >= 4,
        tail.take(4) == head_end(),
    ensures
        valid_utf8(tail.skip(4)),
        decode_utf8(tail) == "\r\n\r\n"@ + decode_utf8(tail.skip(4)),
{
    assert(tail[0] == head_end()[0]) by {
        assert(tail.take(4)[0] == tail[0]);
    }
    assert(tail[1] == head_end()[1]) by {
        assert(tail.take(4)[1] == tail[1]);
    }
    assert(tail[2] == head_end()[2]) by {
        assert(tail.take(4)[2] == tail[2]);
    }
    assert(tail[3] == head_end()[3]) by {
        assert(tail.take(4)[3] == tail[3]);
    }
    text::lemma_ascii_first(tail);
    text::lemma_ascii_first(tail.skip(1));
    assert(tail.skip(1).skip(1) =~= tail.skip(2));
    text::lemma_ascii_first(tail.skip(2));
    assert(tail.skip(2).skip(1) =~= tail.skip(3));
    text::lemma_ascii_first(tail.skip(3));
    assert(tail.skip(3).skip(1) =~= tail.skip(4));
    reveal_strlit("\r\n\r\n");
    assert(decode_utf8(tail) =~= "\r\n\r\n"@ + decode_utf8(tail.skip(4)));
}

/// Text can be parted where the headers end.
proof fn lemma_parted_at_head_end(raw: Seq<u8>, i: int)
    requires
        valid_utf8(raw),
        text::occurs_at(raw, head_end(), i),
    ensures
        valid_utf8(raw.take(i)),
        valid_utf8(raw.skip(i)),
        decode_utf8(raw) == decode_utf8(raw.take(i)) + decode_utf8(raw.skip(i)),
{
    assert(raw.subrange(i, i + 4)[0] == 13u8);
    is_char_boundary_iff_not_is_continuation_byte(raw, i);
    assert(raw.subrange(0, i) =~= raw.take(i));
    assert(raw.subrange(i, raw.len() as int) =~= raw.skip(i));
    valid_utf8_split(raw, i);
    decode_utf8_split(raw, i);
}

/// A response that is neither chunked nor compressed passes through unchanged where it is text. Where
/// it is not, its headers and its body are shown as far as they are text.
pub proof fn law_plain_response_passes_unchanged(raw: Seq<u8>)
    requires
        is_plain(raw),
    ensures
        valid_utf8(raw) ==> response_text(raw) == decode_utf8(raw),
        match text::first_occurrence(raw, head_end()) {
            Some(i) => response_text(raw) == text::utf8_lossy(raw.take(i)) + "\r\n\r\n"@
                + text::utf8_lossy(raw.skip(i + 4)),
            None => response_text(raw) == text::utf8_lossy(raw),
        },
{
    if let Some(i) = text::first_occurrence(raw, head_end()) {
        if valid_utf8(raw) {
            text::lemma_first_from(raw, head_end(), 0);
            lemma_parted_at_head_end(raw, i);
            let tail = raw.skip(i);
            assert(tail.take(4) =~= raw.subrange(i, i + 4));
            lemma_text_behind_head(tail);
            assert(tail.skip(4) =~= raw.skip(i + 4));
            assert(response_text(raw) =~= decode_utf8(raw));
        }
    }
}

/// A response that cannot be read, for want of an end to its headers or because its chunks or its
/// compression are damaged, is shown as it came.
pub proof fn law_unreadable_response_is_shown_raw(raw: Seq<u8>)
    requires
        match text::first_occurrence(raw, head_end()) {
            None => true,
            Some(i) => {
                let headers = text::utf8_lossy(raw.take(i));
                let body = raw.skip(i + 4);
                ||| is_chunked(headers) && dechunked(body) is None
                ||| is_chunked(headers) && is_gzipped(headers) && gunzipped(
                    dechunked(body)->0,
                ) is None
                ||| !is_chunked(headers) && is_gzipped(headers) && gunzipped(body) is None
            },
        },
    ensures
        response_text(raw) == text::utf8_lossy(raw),
{
}

/// `n` in hexadecimal notation.
pub open spec fn hex_of(n: nat) -> Seq<char>
    decreases n,
{
    if n < 16 {
        seq![digits::hex_char(n)]
    } else {
        hex_of(n / 16).push(digits::hex_char(n % 16))
    }
}

/// The body that carries `chunks` and ends after them.
pub open spec fn chunked_body(chunks: Seq<Seq<u8>>) -> Seq<u8>
    decreases chunks.len(),
{
    if chunks.len() == 0 {
        encode_utf8(hex_of(0)) + line_end() + line_end()
    } else {
        encode_utf8(hex_of(chunks[0].len())) + line_end() + chunks[0] + line_end() + chunked_body(
            chunks.skip(1),
        )
    }
}

proof fn lemma_hex_of(n: nat)
    ensures
        hex_of(n).len() > 0,
        hex_number(hex_of(n)) == Some(n),
        forall|i: int| 0 <= i < hex_of(n).len() ==> digits::hex_digit(#[trigger] hex_of(n)[i]) is Some,
    decreases n,
{
    assert forall|d: nat| d < 16 implies digits::hex_digit(#[trigger] digits::hex_char(d)) == Some(d) by {}
    reveal_with_fuel(hex_number, 2);
    if n < 16 {
        assert(hex_of(n).drop_last() =~= Seq::empty());
    } else {
        lemma_hex_of(n / 16);
        assert(hex_of(n).drop_last() =~= hex_of(n / 16));
        assert(digits::hex_digit(digits::hex_char(n % 16)) == Some((n % 16) as nat));
    }
}

/// The line that gives a chunk's size is text without a line's end, and gives that size.
proof fn lemma_size_line(n: nat)
    requires
        n <= usize::MAX,
    ensures
        !encode_utf8(hex_of(n)).contains(13u8),
        chunk_size_of(text::utf8_lossy(encode_utf8(hex_of(n)))) == Some(n),
{
    let chars = hex_of(n);
    let line = encode_utf8(chars);
    lemma_hex_of(n);
    assert(is_ascii_chars(chars)) by {
        assert forall|i| 0 <= i < chars.len() implies '\0' <= #[trigger] chars[i] <= '\u{7f}' by {
            assert(digits::hex_digit(chars[i]) is Some);
        }
    }
    assert(!line.contains(13u8)) by {
        is_ascii_chars_encode_utf8(chars);
        if line.contains(13u8) {
            let p = choose|p: int| 0 <= p < line.len() && line[p] == 13u8;
            assert(digits::hex_digit(chars[p]) is Some);
            assert(chars[p] as u8 == line[p]);
        }
    }
    assert(text::utf8_lossy(line) == chars) by {
        encode_utf8_valid_utf8(chars);
        encode_utf8_decode_utf8(chars);
    }
    assert(text::trimmed(chars) == chars) by {
        assert(digits::hex_digit(chars[0]) is Some);
        assert(digits::hex_digit(chars.last()) is Some);
    }
    assert(before(chars, ';') == chars) by {
        text::lemma_first_from(chars, seq![';'], 0);
        if let Some(i) = text::first_occurrence(chars, seq![';']) {
            assert(chars.subrange(i, i + 1)[0] == ';');
            assert(digits::hex_digit(chars[i]) is Some);
        }
    }
    assert(digits::hex_digit(chars[0]) is Some);
}

/// A line without a carriage return ends at the first line's end.
proof fn lemma_first_line(line: Seq<u8>, rest: Seq<u8>)
    requires
        !line.contains(13u8),
    ensures
        text::first_occurrence(line + line_end() + rest, line_end()) == Some(line.len() as int),
        (line + line_end() + rest).take(line.len() as int) == line,
{
    let body = line + line_end() + rest;
    let n = line.len() as int;
    assert(body.take(n) =~= line);
    assert(body.subrange(n, n + 2) =~= line_end());
    assert forall|p: int| 0 <= p < n implies !#[trigger] text::occurs_at(body, line_end(), p) by {
        if text::occurs_at(body, line_end(), p) {
            assert(line_end()[0] == 13u8);
            assert(body.subrange(p, p + 2)[0] == body[p]);
            assert(line[p] == 13u8);
        }
    }
    text::lemma_first_is(body, line_end(), 0, n);
}

/// Taking the chunks off loses nothing: however data is cut into chunks, what comes out is that
/// data.
pub proof fn law_dechunking_undoes_chunking(chunks: Seq<Seq<u8>>)
    requires
        forall|i: int| 0 <= i < chunks.len() ==> 0 < (#[trigger] chunks[i]).len() <= usize::MAX,
    ensures
        dechunked(chunked_body(chunks)) == Some(chunks.flatten()),
    decreases chunks.len(),
{
    let body = chunked_body(chunks);
    if chunks.len() == 0 {
        lemma_size_line(0);
        lemma_first_line(encode_utf8(hex_of(0)), line_end());
    } else {
        let rest = chunks.skip(1);
        assert forall|i: int| 0 <= i < rest.len() implies 0 < (#[trigger] rest[i]).len()
            <= usize::MAX by {
            assert(rest[i] == chunks[i + 1]);
        }
        law_dechunking_undoes_chunking(rest);
        let n = chunks[0].len();
        let line = encode_utf8(hex_of(n));
        let after = chunks[0] + line_end() + chunked_body(rest);
        lemma_size_line(n);
        lemma_first_line(line, after);
        assert(body =~= line + line_end() + after);
        let nl = line.len() as int;
        assert(body.skip(nl + 2 + n as int + 2) =~= chunked_body(rest));
        assert(body.subrange(nl + 2, nl + 2 + n as int) =~= chunks[0]);
        assert(body.subrange(nl + 2 + n as int, nl + 4 + n as int) =~= line_end());
        assert(rest =~= chunks.drop_first());
        assert(chunks.flatten() =~= chunks[0] + rest.flatten());
    }
}

/// How data was cut into chunks does not show: of a chunked response, the text is that of its headers
/// and its whole data, unpacked where it is compressed.
pub proof fn law_chunked_response_is_read_whole(head: Seq<u8>, chunks: Seq<Seq<u8>>, raw: Seq<u8>)
    requires
        raw == head + head_end() + chunked_body(chunks),
        text::first_occurrence(raw, head_end()) == Some(head.len() as int),
        is_chunked(text::utf8_lossy(head)),
        forall|i: int| 0 <= i < chunks.len() ==> 0 < (#[trigger] chunks[i]).len() <= usize::MAX,
    ensures
        response_text(raw) == finished(
            raw,
            text::utf8_lossy(head),
            if is_gzipped(text::utf8_lossy(head)) {
                gunzipped(chunks.flatten())
            } else {
                Some(chunks.flatten())
            },
        ),
{
    law_dechunking_undoes_chunking(chunks);
    assert(raw.take(head.len() as int) =~= head);
    assert(raw.skip(head.len() as int + 4) =~= chunked_body(chunks));
}

/// A response whose headers end is shown as its headers, an empty line, and its whole body: the data,
/// put together where it came in chunks and unpacked where it is compressed. None of it is left out.
pub proof fn law_response_is_its_headers_and_whole_body(
    raw: Seq<u8>,
    i: int,
    data: Seq<u8>,
    plain: Seq<u8>,
)
    requires
        0 <= i <= raw.len() - 4,
        raw.subrange(i, i + 4) == seq![13u8, 10u8, 13u8, 10u8],
        forall|j: int|
            0 <= j < i ==> !(raw[j] == 13 && #[trigger] raw[j + 1] == 10 && raw[j + 2] == 13 && raw[j
                + 3] == 10),
        is_chunked(text::utf8_lossy(raw.take(i))) ==> dechunked(raw.skip(i + 4)) == Some(data),
        !is_chunked(text::utf8_lossy(raw.take(i))) ==> data == raw.skip(i + 4),
        is_gzipped(text::utf8_lossy(raw.take(i))) ==> gunzipped(data) == Some(plain),
        !is_gzipped(text::utf8_lossy(raw.take(i))) ==> plain == data,
    ensures
        response_text(raw) == text::utf8_lossy(raw.take(i)) + "\r\n\r\n"@ + text::utf8_lossy(plain),
{
    lemma_head_end_is(raw, i);
}

/// A response whose headers end, and whose data cannot be put together or unpacked, is shown as it
/// came.
pub proof fn law_undecodable_response_is_shown_as_it_came(raw: Seq<u8>, i: int)
    requires
        0 <= i <= raw.len() - 4,
        raw.subrange(i, i + 4) == seq![13u8, 10u8, 13u8, 10u8],
        forall|j: int|
            0 <= j < i ==> !(raw[j] == 13 && #[trigger] raw[j + 1] == 10 && raw[j + 2] == 13 && raw[j
                + 3] == 10),
        ({
            let headers = text::utf8_lossy(raw.take(i));
            let body = raw.skip(i + 4);
            ||| is_chunked(headers) && dechunked(body) is None
            ||| is_gzipped(headers) && gunzipped(
                if is_chunked(headers) {
                    dechunked(body)->0
                } else {
                    body
                },
            ) is None
        }),
    ensures
        response_text(raw) == text::utf8_lossy(raw),
{
    lemma_head_end_is(raw, i);
}

/// A response whose headers do not end is shown as it came.
pub proof fn law_response_without_end_of_headers_is_shown_as_it_came(raw: Seq<u8>)
    requires
        forall|j: int|
            0 <= j <= raw.len() - 4 ==> !(raw[j] == 13 && #[trigger] raw[j + 1] == 10 && raw[j + 2]
                == 13 && raw[j + 3] == 10),
    ensures
        response_text(raw) == text::utf8_lossy(raw),
{
    text::lemma_first_from(raw, head_end(), 0);
    if let Some(p) = text::first_occurrence(raw, head_end()) {
        let there = raw.subrange(p, p + 4);
        assert(there[0] == raw[p] && there[1] == raw[p + 1] && there[2] == raw[p + 2] && there[3]
            == raw[p + 3]);
    }
}

proof fn lemma_head_end_is(raw: Seq<u8>, i: int)
    requires
        0 <= i <= raw.len() - 4,
        raw.subrange(i, i + 4) == seq![13u8, 10u8, 13u8, 10u8],
        forall|j: int|
            0 <= j < i ==> !(raw[j] == 13 && #[trigger] raw[j + 1] == 10 && raw[j + 2] == 13 && raw[j
                + 3] == 10),
    ensures
        text::first_occurrence(raw, head_end()) == Some(i),
{
    assert forall|j: int| 0 <= j < i implies !#[trigger] text::occurs_at(raw, head_end(), j) by {
        let there = raw.subrange(j, j + 4);
        if text::occurs_at(raw, head_end(), j) {
            assert(there[0] == raw[j] && there[1] == raw[j + 1] && there[2] == raw[j + 2] && there[3]
                == raw[j + 3]);
        }
    }
    assert(raw.subrange(i, i + 4) =~= head_end());
    assert(text::occurs_at(raw, head_end(), i));
    text::lemma_first_is(raw, head_end(), 0, i);
}

/// A chunk is a line with its size, its data and the end of a line. Its data comes before that of the
/// chunks behind it, and a body that is malformed behind it is malformed.
pub proof fn law_bodies_are_read_chunk_by_chunk(line: Seq<u8>, data: Seq<u8>, rest: Seq<u8>)
    requires
        forall|j: int| 0 <= j < line.len() - 1 && #[trigger] line[j] == 13 ==> line[j + 1] != 10,
        chunk_size_of(text::utf8_lossy(line)) == Some(data.len()),
        data.len() > 0,
    ensures
        dechunked(line + seq![13u8, 10u8] + data + seq![13u8, 10u8] + rest) == (match dechunked(rest) {
            Some(more) => Some(data + more),
            None => None,
        }),
{
    let end = seq![13u8, 10u8];
    let after = data + end + rest;
    let body = line + end + data + end + rest;
    let nl = line.len() as int;
    let n = data.len() as int;
    lemma_line_ends_first(line, after);
    assert(body =~= line + end + after);
    assert(body.take(nl) =~= line);
    assert(body.subrange(nl + 2, nl + 2 + n) =~= data);
    assert(body.subrange(nl + 2 + n, nl + 4 + n) =~= line_end());
    assert(body.skip(nl + 2 + n + 2) =~= rest);
}

/// A chunk of size zero ends a body, whatever comes behind its line.
pub proof fn law_empty_chunk_ends_a_body(line: Seq<u8>, rest: Seq<u8>)
    requires
        forall|j: int| 0 <= j < line.len() - 1 && #[trigger] line[j] == 13 ==> line[j + 1] != 10,
        chunk_size_of(text::utf8_lossy(line)) == Some(0nat),
    ensures
        dechunked(line + seq![13u8, 10u8] + rest) == Some(Seq::<u8>::empty()),
{
    lemma_line_ends_first(line, rest);
    assert((line + seq![13u8, 10u8] + rest).take(line.len() as int) =~= line);
}

/// A body is malformed where no line ends, where a line gives no size, where there is less data than
/// the size says, and where no end of a line stands behind the data.
pub proof fn law_malformed_chunks_are_refused(body: Seq<u8>, line: Seq<u8>, after: Seq<u8>)
    requires
        forall|j: int| 0 <= j < line.len() - 1 && #[trigger] line[j] == 13 ==> line[j + 1] != 10,
    ensures
        (forall|j: int| 0 <= j < body.len() - 1 && #[trigger] body[j] == 13 ==> body[j + 1] != 10)
            ==> dechunked(body) is None,
        chunk_size_of(text::utf8_lossy(line)) is None ==> dechunked(
            line + seq![13u8, 10u8] + after,
        ) is None,
        chunk_size_of(text::utf8_lossy(line)) matches Some(n) ==> n > 0 && !(n + 2 <= after.len()
            && after[n as int] == 13 && after[n as int + 1] == 10) ==> dechunked(
            line + seq![13u8, 10u8] + after,
        ) is None,
{
    text::lemma_first_from(body, line_end(), 0);
    if let Some(p) = text::first_occurrence(body, line_end()) {
        assert(body.subrange(p, p + 2)[0] == body[p] && body.subrange(p, p + 2)[1] == body[p + 1]);
    }
    lemma_line_ends_first(line, after);
    let all = line + seq![13u8, 10u8] + after;
    let nl = line.len() as int;
    assert(all.take(nl) =~= line);
    if let Some(n) = chunk_size_of(text::utf8_lossy(line)) {
        if n > 0 && nl + 2 + n + 2 <= all.len() {
            let there = all.subrange(nl + 2 + n, nl + 4 + n);
            assert(there[0] == after[n as int] && there[1] == after[n as int + 1]);
            assert(line_end()[0] == 13u8 && line_end()[1] == 10u8);
        }
    }
}

/// A line without an end of a line in it ends at the first one behind it.
proof fn lemma_line_ends_first(line: Seq<u8>, rest: Seq<u8>)
    requires
        forall|j: int| 0 <= j < line.len() - 1 && #[trigger] line[j] == 13 ==> line[j + 1] != 10,
    ensures
        text::first_occurrence(line + seq![13u8, 10u8] + rest, line_end()) == Some(
            line.len() as int,
        ),
{
    let body = line + seq![13u8, 10u8] + rest;
    let n = line.len() as int;
    assert(body.subrange(n, n + 2) =~= line_end());
    assert forall|p: int| 0 <= p < n implies !#[trigger] text::occurs_at(body, line_end(), p) by {
        if text::occurs_at(body, line_end(), p) {
            let there = body.subrange(p, p + 2);
            assert(there[0] == body[p] && there[1] == body[p + 1]);
            assert(body[p] == line[p]);
        }
    }
    text::lemma_first_is(body, line_end(), 0, n);
}

/// Digits are read with the highest first, each worth sixteen times the next: 0 to 9, and then the
/// letters from a to f in either case. Anything else is no number.
pub proof fn law_hexadecimal_digits_count(s: Seq<char>, c: char)
    ensures
        hex_number(Seq::empty()) == Some(0nat),
        hex_number(s) matches Some(n) ==> {
            &&& 48 <= c as u32 <= 57 ==> hex_number(s.push(c)) == Some(
                (16 * n + (c as u32 - 48)) as nat,
            )
            &&& 97 <= c as u32 <= 102 ==> hex_number(s.push(c)) == Some(
                (16 * n + (c as u32 - 87)) as nat,
            )
            &&& 65 <= c as u32 <= 70 ==> hex_number(s.push(c)) == Some(
                (16 * n + (c as u32 - 55)) as nat,
            )
        },
        hex_number(s) is None ==> hex_number(s.push(c)) is None,
        !(48 <= c as u32 <= 57 || 97 <= c as u32 <= 102 || 65 <= c as u32 <= 70) ==> hex_number(
            s.push(c),
        ) is None,
{
    assert(s.push(c).drop_last() =~= s);
}

/// The size of a chunk is the number on its line, without the whitespace around it and without
/// extensions, which a semicolon begins. A plus sign may stand before it; a number that is larger than
/// any size, and a line without a number, give none.
pub proof fn law_size_is_the_number_on_the_line(
    before_it: Seq<char>,
    number: Seq<char>,
    behind: Seq<char>,
    extension: Seq<char>,
)
    requires
        forall|i: int| 0 <= i < before_it.len() ==> text::whitespace(#[trigger] before_it[i]),
        forall|i: int| 0 <= i < behind.len() ==> text::whitespace(#[trigger] behind[i]),
        forall|i: int| 0 <= i < number.len() ==> #[trigger] number[i] != ';',
        number.len() > 0,
        !text::whitespace(number[0]),
        !text::whitespace(number.last()),
    ensures
        ({
            let digits = if number[0] == '+' {
                number.skip(1)
            } else {
                number
            };
            let size = match hex_number(digits) {
                Some(n) => if digits.len() > 0 && n <= usize::MAX {
                    Some(n)
                } else {
                    None
                },
                None => None,
            };
            &&& chunk_size_of(before_it + number + behind) == size
            &&& chunk_size_of(before_it + number + behind + seq![';'] + extension) == size
        }),
{
    text::lemma_trimmed_is(before_it, number, behind);
    lemma_nothing_before(number);
    assert(Seq::<char>::empty() + number + Seq::<char>::empty() =~= number);
    text::lemma_trimmed_is(Seq::empty(), number, Seq::empty());
    // With an extension, the semicolon stays, and what stands before it is the number.
    let head = number + behind + seq![';'];
    let kept = text::lemma_trimmed_keeps(before_it, head, extension);
    assert(before_it + number + behind + seq![';'] + extension =~= before_it + head + extension);
    let line = head + kept;
    let at = number.len() + behind.len();
    assert(before(line, ';') =~= number + behind) by {
        assert(line.subrange(at as int, at as int + 1) =~= seq![';']);
        assert forall|p: int| 0 <= p < at implies !#[trigger] text::occurs_at(line, seq![';'], p) by {
            assert(line.subrange(p, p + 1)[0] == line[p]);
            if p < number.len() {
                assert(line[p] == number[p]);
            } else {
                assert(line[p] == behind[p - number.len()]);
            }
        }
        text::lemma_first_is(line, seq![';'], 0, at as int);
    }
    assert(Seq::<char>::empty() + number + behind =~= number + behind);
    text::lemma_trimmed_is(Seq::empty(), number, behind);
}

/// A text without a semicolon is all that stands before one.
proof fn lemma_nothing_before(s: Seq<char>)
    requires
        forall|i: int| 0 <= i < s.len() ==> #[trigger] s[i] != ';',
    ensures
        before(s, ';') == s,
{
    text::lemma_first_from(s, seq![';'], 0);
    if let Some(p) = text::first_occurrence(s, seq![';']) {
        assert(s.subrange(p, p + 1)[0] == s[p]);
    }
}

/// A line that says so makes a response chunked, or compressed, wherever it stands among the headers
/// and in whatever case it is written.
pub proof fn law_a_header_line_tells(
    before_it: Seq<char>,
    line: Seq<char>,
    behind: Seq<char>,
    k: int,
)
    requires
        before_it.len() == 0 || before_it.last() == '\n',
        behind.len() == 0 || behind[0] == '\n' || (behind.len() > 1 && behind[0] == '\r' && behind[1]
            == '\n'),
        line.len() > 0,
        line.last() == '\r' ==> behind.len() == 0 || behind[0] == '\r',
        !line.contains('\n'),
    ensures
        ({
            let low = text::lowered(line);
            let headers = before_it + line + behind;
            &&& low.len() >= 18 && low.take(18) == "transfer-encoding:"@ && 0 <= k <= low.len() - 7
                && low.subrange(k, k + 7) == "chunked"@ ==> is_chunked(headers)
            &&& low.len() >= 17 && low.take(17) == "content-encoding:"@ && 0 <= k <= low.len() - 4
                && low.subrange(k, k + 4) == "gzip"@ ==> is_gzipped(headers)
        }),
{
    let low = text::lowered(line);
    let headers = before_it + line + behind;
    let i = before_it.len() as int;
    let lowered = text::lowered(headers);
    let j = if behind.len() > 0 && behind[0] == '\r' {
        i + line.len() + 1
    } else {
        i + line.len() as int
    };
    assert(lowered[i] == text::lower(line[0]));
    assert forall|k: int| i <= k < j implies lowered[k] != '\n' by {
        if k < i + line.len() {
            assert(headers[k] == line[k - i]);
            assert(line.contains(line[k - i]));
        } else {
            assert(headers[k] == behind[0]);
        }
    }
    if i > 0 {
        assert(lowered[i - 1] == text::lower(before_it.last()));
    }
    if j < headers.len() {
        assert(headers[j] == behind[j - i - line.len()]);
    }
    assert(is_line(lowered, i, j));
    if j == i + line.len() {
        assert(lowered[j - 1] == text::lower(line.last()));
    } else {
        assert(lowered[j - 1] == text::lower(behind[0]));
    }
    assert(line_text(lowered, i, j) =~= low);
    reveal_strlit("transfer-encoding:");
    reveal_strlit("content-encoding:");
    reveal_strlit("chunked");
    reveal_strlit("gzip");
    if low.len() >= 18 && low.take(18) == "transfer-encoding:"@ && 0 <= k <= low.len() - 7
        && low.subrange(k, k + 7) == "chunked"@ {
        assert(low.subrange(0, 18) =~= low.take(18));
        assert(text::occurs_at(low, "chunked"@, k));
        assert(line_says(low, "transfer-encoding:"@, "chunked"@));
    }
    if low.len() >= 17 && low.take(17) == "content-encoding:"@ && 0 <= k <= low.len() - 4
        && low.subrange(k, k + 4) == "gzip"@ {
        assert(low.subrange(0, 17) =~= low.take(17));
        assert(text::occurs_at(low, "gzip"@, k));
        assert(line_says(low, "content-encoding:"@, "gzip"@));
    }
}

/// Whether the stretch of `headers` from `i` to `j` begins behind a line feed, or at the start, has
/// none in it, and says `value` of `key` in whatever case.
pub open spec fn stretch_says(
    headers: Seq<char>,
    key: Seq<char>,
    value: Seq<char>,
    i: int,
    j: int,
    k: int,
) -> bool {
    let low = text::lowered(headers.subrange(i, j));
    &&& 0 <= i <= j <= headers.len()
    &&& i == 0 || headers[i - 1] == '\n'
    &&& !headers.subrange(i, j).contains('\n')
    &&& key.len() <= low.len() && low.take(key.len() as int) == key
    &&& 0 <= k <= low.len() - value.len() && low.subrange(k, k + value.len()) == value
}

/// Only a line of its own makes a response chunked, or compressed: one that begins with the name of the
/// header and has the word in it.
pub proof fn law_only_a_header_line_tells(headers: Seq<char>)
    ensures
        is_chunked(headers) ==> exists|i: int, j: int, k: int| #[trigger]
            stretch_says(headers, "transfer-encoding:"@, "chunked"@, i, j, k),
        is_gzipped(headers) ==> exists|i: int, j: int, k: int| #[trigger]
            stretch_says(headers, "content-encoding:"@, "gzip"@, i, j, k),
{
    if is_chunked(headers) {
        lemma_line_found(headers, "transfer-encoding:"@, "chunked"@);
    }
    if is_gzipped(headers) {
        lemma_line_found(headers, "content-encoding:"@, "gzip"@);
    }
}

proof fn lemma_line_found(headers: Seq<char>, key: Seq<char>, value: Seq<char>)
    requires
        header_says(text::lowered(headers), key, value),
    ensures
        exists|i: int, j: int, k: int| #[trigger] stretch_says(headers, key, value, i, j, k),
{
    let lowered = text::lowered(headers);
    let (i, j) = choose|i: int, j: int|
        #![trigger is_line(lowered, i, j)]
        is_line(lowered, i, j) && line_says(line_text(lowered, i, j), key, value);
    let end = if j < lowered.len() && i < j && lowered[j - 1] == '\r' {
        j - 1
    } else {
        j
    };
    let line = headers.subrange(i, end);
    let low = text::lowered(line);
    assert(low =~= line_text(lowered, i, j));
    let k = choose|k: int| #[trigger] text::occurs_at(low, value, k);
    assert(low.subrange(0, key.len() as int) =~= low.take(key.len() as int));
    assert(!line.contains('\n')) by {
        if line.contains('\n') {
            let p = choose|p: int| 0 <= p < line.len() && line[p] == '\n';
            assert(lowered[i + p] == text::lower(line[p]));
        }
    }
    if i > 0 {
        assert(lowered[i - 1] == text::lower(headers[i - 1]));
    }
    assert(stretch_says(headers, key, value, i, end, k));
}

/// A body that came out is shown whole behind the headers; where none came out, the response is shown
/// as it came.
pub proof fn law_finished_response_has_its_whole_body(
    raw: Seq<u8>,
    headers: Seq<char>,
    plain: Seq<u8>,
)
    ensures
        finished(raw, headers, Some(plain)) == headers + "\r\n\r\n"@ + text::utf8_lossy(plain),
        finished(raw, headers, None) == text::utf8_lossy(raw),
{
}

/// A line that is blank, up to its extensions if it has any, gives no size.
pub proof fn law_blank_line_gives_no_size(blank: Seq<char>, extension: Seq<char>)
    requires
        forall|i: int| 0 <= i < blank.len() ==> text::whitespace(#[trigger] blank[i]),
    ensures
        chunk_size_of(blank) is None,
        chunk_size_of(blank + seq![';'] + extension) is None,
{
    let nothing = Seq::<char>::empty();
    text::law_trimming_cuts_whitespace_alone(blank, nothing, nothing);
    assert(blank + nothing + nothing =~= blank);
    lemma_nothing_before(nothing);
    text::law_trimming_cuts_whitespace_alone(nothing, nothing, nothing);
    assert(nothing + nothing + nothing =~= nothing);
    let kept = text::lemma_trimmed_keeps(blank, seq![';'], extension);
    let line = seq![';'] + kept;
    assert(line.subrange(0, 1) =~= seq![';']);
    text::lemma_first_is(line, seq![';'], 0, 0);
    assert(before(line, ';') =~= nothing);
}

} // verus!
