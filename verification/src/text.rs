//! Characters, strings and byte searches that the other modules build on.
use vstd::prelude::*;
use vstd::utf8::*;

verus! {

/// `String::push` appends one character to the end of the string.
pub assume_specification[ String::push ](s: &mut String, c: char)
    ensures
        final(s)@ == old(s)@.push(c),
;

/// The text that `String::from_utf8_lossy` makes of the malformed `bytes`: how many replacement
/// characters stand for which stretch is left unsaid.
pub uninterp spec fn utf8_repaired(bytes: Seq<u8>) -> Seq<char>;

/// The text that `bytes` are shown as: the characters that they encode, or, where they are not
/// UTF-8, what is left of them with replacement characters in between.
pub open spec fn utf8_lossy(bytes: Seq<u8>) -> Seq<char> {
    if valid_utf8(bytes) {
        decode_utf8(bytes)
    } else {
        utf8_repaired(bytes)
    }
}

/// Calls `String::from_utf8_lossy`: well-formed bytes decode to the characters that they
/// encode, and any other bytes to a text that depends on them alone.
#[verifier::external_body]
pub(crate) fn from_utf8_lossy(bytes: &[u8]) -> (text: String)
    ensures
        valid_utf8(bytes@) ==> text@ == decode_utf8(bytes@),
        !valid_utf8(bytes@) ==> text@ == utf8_repaired(bytes@),
{
    String::from_utf8_lossy(bytes).to_string()
}

/// The message of the error that `String::from_utf8` gives for malformed `bytes`.
pub uninterp spec fn utf8_fault(bytes: Seq<u8>) -> Seq<char>;

/// Calls `String::from_utf8`: well-formed bytes decode to the characters that they encode,
/// and for malformed bytes the message of the error is handed out.
#[verifier::external_body]
pub(crate) fn from_utf8(bytes: Vec<u8>) -> (text: Result<String, String>)
    ensures
        text is Ok <==> valid_utf8(bytes@),
        text matches Ok(t) ==> t@ == decode_utf8(bytes@),
        text matches Err(e) ==> e@ == utf8_fault(bytes@),
{
    String::from_utf8(bytes).map_err(|e| e.to_string())
}

/// The text of `s`, if there is one.
pub open spec fn text_in(s: Option<String>) -> Option<Seq<char>> {
    match s {
        Some(t) => Some(t@),
        None => None,
    }
}

/// The characters of `s`.
pub fn chars_of(s: &str) -> (chars: Vec<char>)
    ensures
        chars@ == s@,
{
    let mut chars: Vec<char> = Vec::new();
    for c in it: s.chars()
        invariant
            it.seq() == s@,
            chars@ == s@.take(it.index() as int),
    {
        chars.push(c);
        assert(s@.take(it.index() + 1) =~= s@.take(it.index() as int).push(c));
    }
    assert(s@.take(s@.len() as int) =~= s@);
    chars
}

/// `a` and then `b`.
pub fn joined(a: &str, b: &str) -> (r: String)
    ensures
        r@ == a@ + b@,
{
    let mut r = a.to_string();
    r.append(b);
    r
}

/// The string of the characters `chars`.
pub fn string_of(chars: &[char]) -> (s: String)
    ensures
        s@ == chars@,
{
    let mut s = String::new();
    let mut i: usize = 0;
    while i < chars.len()
        invariant
            i <= chars.len(),
            s@ == chars@.take(i as int),
        decreases chars.len() - i,
    {
        s.push(chars[i]);
        assert(chars@.take(i + 1) =~= chars@.take(i as int).push(chars@[i as int]));
        i += 1;
    }
    assert(chars@.take(chars@.len() as int) =~= chars@);
    s
}

/// Whether `c` has the Unicode property `White_Space`.
pub open spec fn whitespace(c: char) -> bool {
    ||| '\u{9}' <= c <= '\u{d}'
    ||| c == ' '
    ||| c == '\u{85}'
    ||| c == '\u{a0}'
    ||| c == '\u{1680}'
    ||| '\u{2000}' <= c <= '\u{200a}'
    ||| c == '\u{2028}'
    ||| c == '\u{2029}'
    ||| c == '\u{202f}'
    ||| c == '\u{205f}'
    ||| c == '\u{3000}'
}

/// `s` without its leading whitespace.
pub open spec fn trimmed_start(s: Seq<char>) -> Seq<char>
    decreases s.len(),
{
    if s.len() > 0 && whitespace(s[0]) {
        trimmed_start(s.skip(1))
    } else {
        s
    }
}

/// `s` without its trailing whitespace.
pub open spec fn trimmed_end(s: Seq<char>) -> Seq<char>
    decreases s.len(),
{
    if s.len() > 0 && whitespace(s.last()) {
        trimmed_end(s.drop_last())
    } else {
        s
    }
}

/// `s` without its leading and trailing whitespace.
pub open spec fn trimmed(s: Seq<char>) -> Seq<char> {
    trimmed_end(trimmed_start(s))
}

/// `c`, in lower case where it is an ASCII letter.
pub open spec fn lower(c: char) -> char {
    if 'A' <= c <= 'Z' {
        ((c as u32) + 32) as char
    } else {
        c
    }
}

/// `s` with its ASCII letters in lower case.
pub open spec fn lowered(s: Seq<char>) -> Seq<char> {
    s.map_values(|c: char| lower(c))
}

/// `s` with `to` in place of every `from`.
pub open spec fn replaced(s: Seq<char>, from: char, to: Seq<char>) -> Seq<char>
    decreases s.len(),
{
    if s.len() == 0 {
        s
    } else if s.last() == from {
        replaced(s.drop_last(), from, to) + to
    } else {
        replaced(s.drop_last(), from, to).push(s.last())
    }
}

/// Whether `needle` stands in `hay` at index `i`.
pub open spec fn occurs_at<T>(hay: Seq<T>, needle: Seq<T>, i: int) -> bool {
    &&& 0 <= i <= i + needle.len() <= hay.len()
    &&& hay.subrange(i, i + needle.len()) == needle
}

/// The first index, from `i` on, at which `needle` stands in `hay`.
pub open spec fn first_from<T>(hay: Seq<T>, needle: Seq<T>, i: int) -> Option<int>
    decreases hay.len() - i + 1,
{
    if i + needle.len() > hay.len() {
        None
    } else if occurs_at(hay, needle, i) {
        Some(i)
    } else {
        first_from(hay, needle, i + 1)
    }
}

/// The first index at which `needle` stands in `hay`.
pub open spec fn first_occurrence<T>(hay: Seq<T>, needle: Seq<T>) -> Option<int> {
    first_from(hay, needle, 0)
}

pub fn is_whitespace(c: char) -> (r: bool)
    ensures
        r == whitespace(c),
{
    ('\u{9}' <= c && c <= '\u{d}') || c == ' ' || c == '\u{85}' || c == '\u{a0}' || c == '\u{1680}'
        || ('\u{2000}' <= c && c <= '\u{200a}') || c == '\u{2028}' || c == '\u{2029}' || c
        == '\u{202f}' || c == '\u{205f}' || c == '\u{3000}'
}

/// The part of `chars` that is left when the whitespace at both ends is cut off.
pub fn trim_chars<'a>(chars: &'a [char]) -> (r: &'a [char])
    ensures
        r@ == trimmed(chars@),
{
    let mut start: usize = 0;
    assert(chars@.skip(0) =~= chars@);
    while start < chars.len() && is_whitespace(chars[start])
        invariant
            start <= chars.len(),
            trimmed_start(chars@.skip(start as int)) == trimmed_start(chars@),
        decreases chars.len() - start,
    {
        assert(chars@.skip(start as int).skip(1) =~= chars@.skip(start + 1));
        start += 1;
    }
    let mut end: usize = chars.len();
    let ghost rest = chars@.skip(start as int);
    assert(trimmed_start(chars@) == rest);
    assert(chars@.subrange(start as int, end as int) =~= rest);
    while end > start && is_whitespace(chars[end - 1])
        invariant
            start <= end <= chars.len(),
            trimmed_end(chars@.subrange(start as int, end as int)) == trimmed_end(rest),
        decreases end,
    {
        assert(chars@.subrange(start as int, end as int).drop_last() =~= chars@.subrange(
            start as int,
            end - 1,
        ));
        end -= 1;
    }
    vstd::slice::slice_subrange(chars, start, end)
}

/// `s` without its leading and trailing whitespace.
pub fn trim(s: &str) -> (r: String)
    ensures
        r@ == trimmed(s@),
{
    let chars = chars_of(s);
    string_of(trim_chars(chars.as_slice()))
}

pub fn to_lower(c: char) -> (r: char)
    ensures
        r == lower(c),
{
    if 'A' <= c && c <= 'Z' {
        ((c as u8) + 32) as char
    } else {
        c
    }
}

/// The characters of `s` with the ASCII letters in lower case.
pub fn lower_chars(s: &str) -> (r: Vec<char>)
    ensures
        r@ == lowered(s@),
{
    let chars = chars_of(s);
    let mut r: Vec<char> = Vec::new();
    let mut i: usize = 0;
    while i < chars.len()
        invariant
            i <= chars.len(),
            chars@ == s@,
            r@ == lowered(chars@.take(i as int)),
        decreases chars.len() - i,
    {
        r.push(to_lower(chars[i]));
        assert(lowered(chars@.take(i + 1)) =~= lowered(chars@.take(i as int)).push(
            lower(chars@[i as int]),
        ));
        i += 1;
    }
    assert(chars@.take(chars@.len() as int) =~= chars@);
    r
}

/// Whether `a` and `b` differ at most in the case of ASCII letters.
pub fn eq_ignore_ascii_case(a: &str, b: &str) -> (r: bool)
    ensures
        r == (lowered(a@) == lowered(b@)),
{
    let x = lower_chars(a);
    let y = lower_chars(b);
    same(x.as_slice(), y.as_slice())
}

/// Whether `a` and `b` hold the same characters in the same order.
pub fn same(a: &[char], b: &[char]) -> (r: bool)
    ensures
        r == (a@ == b@),
{
    if a.len() != b.len() {
        return false;
    }
    let mut i: usize = 0;
    while i < a.len()
        invariant
            i <= a.len() == b.len(),
            a@.take(i as int) == b@.take(i as int),
        decreases a.len() - i,
    {
        if a[i] != b[i] {
            return false;
        }
        assert(a@.take(i + 1) =~= a@.take(i as int).push(a@[i as int]));
        assert(b@.take(i + 1) =~= b@.take(i as int).push(b@[i as int]));
        i += 1;
    }
    assert(a@.take(i as int) =~= a@);
    assert(b@.take(i as int) =~= b@);
    true
}

/// Whether `a` and `b` are the same text.
pub fn same_text(a: &str, b: &str) -> (r: bool)
    ensures
        r == (a@ == b@),
{
    let x = chars_of(a);
    let y = chars_of(b);
    same(x.as_slice(), y.as_slice())
}

/// `s` with `to` in place of every `from`.
pub fn replace_char(s: &str, from: char, to: &str) -> (r: String)
    ensures
        r@ == replaced(s@, from, to@),
{
    let chars = chars_of(s);
    let mut r = String::new();
    let mut i: usize = 0;
    while i < chars.len()
        invariant
            i <= chars.len(),
            chars@ == s@,
            r@ == replaced(chars@.take(i as int), from, to@),
        decreases chars.len() - i,
    {
        assert(chars@.take(i + 1).drop_last() =~= chars@.take(i as int));
        if chars[i] == from {
            r.append(to);
        } else {
            r.push(chars[i]);
        }
        i += 1;
    }
    assert(chars@.take(chars@.len() as int) =~= chars@);
    r
}

/// Whether `needle` stands in `hay` at index `i`.
fn bytes_at(hay: &[u8], needle: &[u8], i: usize) -> (r: bool)
    requires
        i + needle.len() <= hay.len(),
    ensures
        r == occurs_at(hay@, needle@, i as int),
{
    let mut j: usize = 0;
    while j < needle.len()
        invariant
            j <= needle.len(),
            i + needle.len() <= hay.len(),
            forall|k: int| 0 <= k < j ==> hay@[i + k] == needle@[k],
        decreases needle.len() - j,
    {
        if hay[i + j] != needle[j] {
            assert(hay@.subrange(i as int, i + needle@.len())[j as int] != needle@[j as int]);
            return false;
        }
        j += 1;
    }
    assert(hay@.subrange(i as int, i + needle@.len()) =~= needle@);
    true
}

/// The first index at which `needle` stands in `hay`.
pub fn find_bytes(hay: &[u8], needle: &[u8]) -> (r: Option<usize>)
    ensures
        r matches Some(i) ==> first_occurrence(hay@, needle@) == Some(i as int),
        r is None ==> first_occurrence(hay@, needle@) is None,
{
    if needle.len() > hay.len() {
        return None;
    }
    let mut i: usize = 0;
    while i <= hay.len() - needle.len()
        invariant
            needle.len() <= hay.len(),
            i <= hay.len() - needle.len() + 1,
            first_from(hay@, needle@, 0) == first_from(hay@, needle@, i as int),
        decreases hay.len() - i + 1,
    {
        if bytes_at(hay, needle, i) {
            return Some(i);
        }
        if i == hay.len() - needle.len() {
            assert(first_from(hay@, needle@, i + 1) is None);
            return None;
        }
        i += 1;
    }
    None
}

/// Whether `needle` stands in `hay` at index `i`.
pub fn chars_at(hay: &[char], needle: &[char], i: usize) -> (r: bool)
    ensures
        r == occurs_at(hay@, needle@, i as int),
{
    if needle.len() > hay.len() || i > hay.len() - needle.len() {
        return false;
    }
    same(vstd::slice::slice_subrange(hay, i, i + needle.len()), needle)
}

/// Whether `needle` stands somewhere in `hay`.
pub fn chars_contain(hay: &[char], needle: &[char]) -> (r: bool)
    ensures
        r == (exists|i: int| #[trigger] occurs_at(hay@, needle@, i)),
{
    if needle.len() > hay.len() {
        return false;
    }
    let mut i: usize = 0;
    while i < hay.len() - needle.len()
        invariant
            needle.len() <= hay.len(),
            i <= hay.len() - needle.len(),
            forall|j: int| 0 <= j < i ==> !#[trigger] occurs_at(hay@, needle@, j),
        decreases hay.len() - i,
    {
        if chars_at(hay, needle, i) {
            return true;
        }
        i += 1;
    }
    let r = chars_at(hay, needle, i);
    assert(!r ==> forall|j: int| !#[trigger] occurs_at(hay@, needle@, j));
    r
}

/// The first occurrence is an occurrence and none stands before it; where there is no first
/// occurrence, there is none at all.
pub proof fn lemma_first_from<T>(hay: Seq<T>, needle: Seq<T>, i: int)
    requires
        0 <= i,
    ensures
        match first_from(hay, needle, i) {
            Some(p) => i <= p && occurs_at(hay, needle, p) && forall|j: int|
                i <= j < p ==> !#[trigger] occurs_at(hay, needle, j),
            None => forall|j: int| i <= j ==> !#[trigger] occurs_at(hay, needle, j),
        },
    decreases hay.len() - i + 1,
{
    if i + needle.len() <= hay.len() && !occurs_at(hay, needle, i) {
        lemma_first_from(hay, needle, i + 1);
    }
}

/// The only occurrence from `i` to `p` that stands at `p` is the first from `i` on.
pub proof fn lemma_first_is<T>(hay: Seq<T>, needle: Seq<T>, i: int, p: int)
    requires
        0 <= i <= p,
        occurs_at(hay, needle, p),
        forall|j: int| i <= j < p ==> !#[trigger] occurs_at(hay, needle, j),
    ensures
        first_from(hay, needle, i) == Some(p),
    decreases p - i,
{
    if i < p {
        lemma_first_is(hay, needle, i + 1, p);
    }
}

/// A trimmed text neither begins nor ends with whitespace, and is a stretch of the text that was
/// trimmed.
pub proof fn lemma_trimmed(s: Seq<char>)
    ensures
        trimmed(s).len() > 0 ==> !whitespace(trimmed(s)[0]) && !whitespace(trimmed(s).last()),
        exists|i: int, j: int| 0 <= i <= j <= s.len() && trimmed(s) == #[trigger] s.subrange(i, j),
{
    lemma_trimmed_start(s);
    let rest = trimmed_start(s);
    lemma_trimmed_end(rest);
    let i = choose|i: int| 0 <= i <= s.len() && rest == #[trigger] s.skip(i);
    let j = choose|j: int| 0 <= j <= rest.len() && trimmed_end(rest) == #[trigger] rest.take(j);
    assert(rest.take(j) =~= s.subrange(i, i + j));
}

proof fn lemma_trimmed_start(s: Seq<char>)
    ensures
        trimmed_start(s).len() > 0 ==> !whitespace(trimmed_start(s)[0]),
        exists|i: int| 0 <= i <= s.len() && trimmed_start(s) == #[trigger] s.skip(i),
    decreases s.len(),
{
    if s.len() > 0 && whitespace(s[0]) {
        let rest = s.skip(1);
        lemma_trimmed_start(rest);
        let i = choose|i: int| 0 <= i <= rest.len() && trimmed_start(rest) == #[trigger] rest.skip(i);
        assert(rest.skip(i) =~= s.skip(i + 1));
    } else {
        assert(s.skip(0) =~= s);
    }
}

proof fn lemma_trimmed_end(s: Seq<char>)
    ensures
        trimmed_end(s).len() > 0 ==> !whitespace(trimmed_end(s).last()) && trimmed_end(s)[0] == s[0],
        exists|j: int| 0 <= j <= s.len() && trimmed_end(s) == #[trigger] s.take(j),
    decreases s.len(),
{
    if s.len() > 0 && whitespace(s.last()) {
        let rest = s.drop_last();
        lemma_trimmed_end(rest);
        let j = choose|j: int| 0 <= j <= rest.len() && trimmed_end(rest) == #[trigger] rest.take(j);
        assert(rest.take(j) =~= s.take(j));
    } else {
        assert(s.take(s.len() as int) =~= s);
    }
}

/// A text that neither begins nor ends with whitespace is what is left of it between any whitespace.
pub proof fn lemma_trimmed_is(before: Seq<char>, s: Seq<char>, behind: Seq<char>)
    requires
        s.len() > 0,
        !whitespace(s[0]),
        !whitespace(s.last()),
        forall|i: int| 0 <= i < before.len() ==> whitespace(#[trigger] before[i]),
        forall|i: int| 0 <= i < behind.len() ==> whitespace(#[trigger] behind[i]),
    ensures
        trimmed(before + s + behind) == s,
    decreases before.len() + behind.len(),
{
    let all = before + s + behind;
    if before.len() > 0 {
        let rest = before.skip(1);
        assert forall|i: int| 0 <= i < rest.len() implies whitespace(#[trigger] rest[i]) by {
            assert(rest[i] == before[i + 1]);
        }
        lemma_trimmed_is(rest, s, behind);
        assert(all[0] == before[0]);
        assert(all.skip(1) =~= rest + s + behind);
    } else {
        assert(all =~= s + behind);
        assert(all[0] == s[0]);
        lemma_trimmed_end_is(s, behind);
    }
}

proof fn lemma_trimmed_end_is(s: Seq<char>, behind: Seq<char>)
    requires
        s.len() > 0,
        !whitespace(s.last()),
        forall|i: int| 0 <= i < behind.len() ==> whitespace(#[trigger] behind[i]),
    ensures
        trimmed_end(s + behind) == s,
    decreases behind.len(),
{
    if behind.len() > 0 {
        let rest = behind.drop_last();
        assert forall|i: int| 0 <= i < rest.len() implies whitespace(#[trigger] rest[i]) by {
            assert(rest[i] == behind[i]);
        }
        lemma_trimmed_end_is(s, rest);
        assert((s + behind).last() == behind[behind.len() - 1]);
        assert((s + behind).drop_last() =~= s + rest);
    } else {
        assert(s + behind =~= s);
    }
}

/// Whether all of `bytes` are ASCII.
pub open spec fn is_ascii(bytes: Seq<u8>) -> bool {
    forall|i: int| 0 <= i < bytes.len() ==> #[trigger] bytes[i] < 0x80
}

/// ASCII is text with one character for each byte.
pub proof fn lemma_ascii(bytes: Seq<u8>)
    requires
        is_ascii(bytes),
    ensures
        valid_utf8(bytes),
        utf8_lossy(bytes) == decode_utf8(bytes),
        decode_utf8(bytes) == Seq::new(bytes.len(), |i: int| bytes[i] as char),
{
    let chars = Seq::new(bytes.len(), |i: int| bytes[i] as char);
    is_ascii_chars_encode_utf8(chars);
    assert(encode_utf8(chars) =~= bytes) by {
        assert forall|i: int| 0 <= i < bytes.len() implies #[trigger] encode_utf8(chars)[i]
            == bytes[i] by {
            assert(chars[i] as u8 == bytes[i]);
        }
    }
    encode_utf8_valid_utf8(chars);
    encode_utf8_decode_utf8(chars);
}

/// The first byte of a text, where it is ASCII, is its first character, and what is left is text.
pub proof fn lemma_ascii_first(bytes: Seq<u8>)
    requires
        valid_utf8(bytes),
        bytes.len() > 0,
        bytes[0] < 0x80,
    ensures
        valid_utf8(bytes.skip(1)),
        decode_utf8(bytes) == seq![bytes[0] as char] + decode_utf8(bytes.skip(1)),
{
    let b = bytes[0];
    assert(b & 0x7f == b) by (bit_vector)
        requires
            b < 0x80,
    ;
    assert(pop_first_scalar(bytes) =~= bytes.skip(1));
}

/// Two texts behind each other are the text of their characters behind each other.
pub proof fn lemma_text_behind_text(a: Seq<u8>, b: Seq<u8>)
    requires
        valid_utf8(a),
        valid_utf8(b),
    ensures
        valid_utf8(a + b),
        decode_utf8(a + b) == decode_utf8(a) + decode_utf8(b),
    decreases a.len(),
{
    valid_utf8_concat(a, b);
    if a.len() == 0 {
        assert(a + b =~= b);
        assert(decode_utf8(a) + decode_utf8(b) =~= decode_utf8(b));
    } else {
        let rest = pop_first_scalar(a);
        lemma_text_behind_text(rest, b);
        assert(pop_first_scalar(a + b) =~= rest + b);
        assert(decode_first_scalar(a + b) == decode_first_scalar(a));
        assert(decode_utf8(a + b) =~= decode_utf8(a) + decode_utf8(b));
    }
}

/// Whitespace is the Unicode property `White_Space`: tabs and line ends, spaces of every width, and the
/// separators of lines and paragraphs.
pub proof fn law_whitespace_is_the_unicode_property(c: char)
    ensures
        whitespace(c) <==> {
            let n = c as u32;
            ||| 0x9 <= n <= 0xd
            ||| 0x2000 <= n <= 0x200a
            ||| seq![
                0x20u32,
                0x85u32,
                0xa0u32,
                0x1680u32,
                0x2028u32,
                0x2029u32,
                0x202fu32,
                0x205fu32,
                0x3000u32,
            ].contains(n)
        },
{
    let others = seq![
        0x20u32,
        0x85u32,
        0xa0u32,
        0x1680u32,
        0x2028u32,
        0x2029u32,
        0x202fu32,
        0x205fu32,
        0x3000u32,
    ];
    assert(others[0] == 0x20 && others[1] == 0x85 && others[2] == 0xa0 && others[3] == 0x1680
        && others[4] == 0x2028 && others[5] == 0x2029 && others[6] == 0x202f && others[7] == 0x205f
        && others[8] == 0x3000);
}

/// Trimming cuts off the whitespace at both ends, all of it, and nothing else.
pub proof fn law_trimming_cuts_whitespace_alone(before: Seq<char>, s: Seq<char>, behind: Seq<char>)
    requires
        forall|i: int| 0 <= i < before.len() ==> whitespace(#[trigger] before[i]),
        forall|i: int| 0 <= i < behind.len() ==> whitespace(#[trigger] behind[i]),
        s.len() > 0 ==> !whitespace(s[0]) && !whitespace(s.last()),
    ensures
        trimmed(before + s + behind) == s,
{
    if s.len() > 0 {
        lemma_trimmed_is(before, s, behind);
    } else {
        let all = before + s + behind;
        assert forall|i: int| 0 <= i < all.len() implies whitespace(#[trigger] all[i]) by {
            if i < before.len() {
                assert(all[i] == before[i]);
            } else {
                assert(all[i] == behind[i - before.len()]);
            }
        }
        lemma_blank_is_trimmed_away(all);
        assert(trimmed(all) =~= s);
    }
}

proof fn lemma_blank_is_trimmed_away(s: Seq<char>)
    requires
        forall|i: int| 0 <= i < s.len() ==> whitespace(#[trigger] s[i]),
    ensures
        trimmed_start(s).len() == 0,
        trimmed(s).len() == 0,
    decreases s.len(),
{
    if s.len() > 0 {
        let rest = s.skip(1);
        assert(whitespace(s[0]));
        assert forall|i: int| 0 <= i < rest.len() implies whitespace(#[trigger] rest[i]) by {
            assert(rest[i] == s[i + 1]);
        }
        lemma_blank_is_trimmed_away(rest);
    }
}

/// Lowering moves the ASCII capitals by the distance to their small letters, and leaves every other
/// character as it is.
pub proof fn law_lowering_changes_ascii_capitals_alone(s: Seq<char>, i: int)
    requires
        0 <= i < s.len(),
    ensures
        lowered(s).len() == s.len(),
        65 <= s[i] as u32 <= 90 ==> lowered(s)[i] as u32 == s[i] as u32 + 32,
        !(65 <= s[i] as u32 <= 90) ==> lowered(s)[i] == s[i],
{
}

/// Replacing goes character by character: `to` comes in place of `from`, and every other character
/// stays, in order.
pub proof fn law_replacing_goes_character_by_character(
    a: Seq<char>,
    b: Seq<char>,
    from: char,
    to: Seq<char>,
    c: char,
)
    ensures
        replaced(Seq::empty(), from, to) == Seq::<char>::empty(),
        replaced(seq![from], from, to) == to,
        c != from ==> replaced(seq![c], from, to) == seq![c],
        replaced(a + b, from, to) == replaced(a, from, to) + replaced(b, from, to),
    decreases b.len(),
{
    reveal_with_fuel(replaced, 2);
    assert(seq![from].drop_last() =~= Seq::empty());
    assert(seq![c].drop_last() =~= Seq::empty());
    assert(replaced(seq![from], from, to) =~= to);
    assert(replaced(seq![c], from, to) =~= if c == from {
        to
    } else {
        seq![c]
    });
    if b.len() == 0 {
        assert(a + b =~= a);
        assert(replaced(a, from, to) + replaced(b, from, to) =~= replaced(a, from, to));
    } else {
        law_replacing_goes_character_by_character(a, b.drop_last(), from, to, c);
        assert((a + b).drop_last() =~= a + b.drop_last());
        assert((a + b).last() == b.last());
        assert(replaced(a + b, from, to) =~= replaced(a, from, to) + replaced(b, from, to));
    }
}

/// The first occurrence is a place at which the needle stands, with none before it; where there is
/// none, the needle stands nowhere.
pub proof fn law_first_occurrence_is_the_first<T>(hay: Seq<T>, needle: Seq<T>)
    ensures
        match first_occurrence(hay, needle) {
            Some(p) => {
                &&& 0 <= p <= hay.len() - needle.len()
                &&& hay.subrange(p, p + needle.len()) == needle
                &&& forall|j: int|
                    0 <= j < p ==> !#[trigger] occurs_at(hay, needle, j) && hay.subrange(
                        j,
                        j + needle.len(),
                    ) != needle
            },
            None => forall|j: int|
                0 <= j <= hay.len() - needle.len() ==> !#[trigger] occurs_at(hay, needle, j)
                    && hay.subrange(j, j + needle.len()) != needle,
        },
{
    lemma_first_from(hay, needle, 0);
    assert forall|j: int|
        #![trigger occurs_at(hay, needle, j)]
        0 <= j <= hay.len() - needle.len() && !occurs_at(hay, needle, j) implies hay.subrange(
        j,
        j + needle.len(),
    ) != needle by {
        if hay.subrange(j, j + needle.len()) =~= needle {
            assert(occurs_at(hay, needle, j));
        }
    }
}

/// Bytes that are text are shown as that text.
pub proof fn law_text_is_shown_as_it_is(bytes: Seq<u8>)
    ensures
        valid_utf8(bytes) ==> utf8_lossy(bytes) == decode_utf8(bytes),
        !valid_utf8(bytes) ==> utf8_lossy(bytes) == utf8_repaired(bytes),
{
}

/// What is left of a text that neither begins nor ends with whitespace, with whitespace before it and
/// anything behind it, begins with that text. Returns what stands behind it.
pub proof fn lemma_trimmed_keeps(before: Seq<char>, s: Seq<char>, behind: Seq<char>) -> (kept: Seq<
    char,
>)
    requires
        s.len() > 0,
        !whitespace(s[0]),
        !whitespace(s.last()),
        forall|i: int| 0 <= i < before.len() ==> whitespace(#[trigger] before[i]),
    ensures
        trimmed(before + s + behind) == s + kept,
    decreases before.len() + behind.len(),
{
    let all = before + s + behind;
    if behind.len() > 0 && whitespace(behind.last()) {
        let rest = behind.drop_last();
        let kept = lemma_trimmed_keeps(before, s, rest);
        let shorter = before + s + rest;
        assert(all =~= shorter.push(behind.last()));
        lemma_trimmed_of_pushed(shorter, behind.last(), before.len() as int);
        kept
    } else if behind.len() == 0 {
        lemma_trimmed_is(before, s, behind);
        assert(s + behind =~= s);
        behind
    } else {
        let inner = s + behind;
        assert(all =~= before + inner + Seq::<char>::empty());
        assert(inner.last() == behind.last());
        lemma_trimmed_is(before, inner, Seq::empty());
        behind
    }
}

/// One more whitespace behind a text that is not blank is trimmed away.
proof fn lemma_trimmed_of_pushed(s: Seq<char>, c: char, at: int)
    requires
        whitespace(c),
        0 <= at < s.len(),
        !whitespace(s[at]),
    ensures
        trimmed(s.push(c)) == trimmed(s),
    decreases s.len(),
{
    let t = s.push(c);
    if whitespace(s[0]) {
        lemma_trimmed_of_pushed(s.skip(1), c, at - 1);
        assert(t.skip(1) =~= s.skip(1).push(c));
        assert(t[0] == s[0]);
    } else {
        assert(t[0] == s[0]);
        assert(t.drop_last() =~= s);
    }
}

} // verus!
