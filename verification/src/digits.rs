//! Numbers and bytes in digits.
use crate::text;
use vstd::prelude::*;
use vstd::utf8::*;

verus! {

/// The decimal digit `d`.
pub open spec fn digit(d: nat) -> char {
    (48 + d) as char
}

/// `n` in decimal notation, without leading zeros.
pub open spec fn decimal_of(n: nat) -> Seq<char>
    decreases n,
{
    if n < 10 {
        seq![digit(n)]
    } else {
        decimal_of(n / 10).push(digit(n % 10))
    }
}

/// The value of the hexadecimal digit `c`.
pub open spec fn hex_digit(c: char) -> Option<nat> {
    if '0' <= c <= '9' {
        Some((c as u32 - '0' as u32) as nat)
    } else if 'a' <= c <= 'f' {
        Some((c as u32 - 'a' as u32 + 10) as nat)
    } else if 'A' <= c <= 'F' {
        Some((c as u32 - 'A' as u32 + 10) as nat)
    } else {
        None
    }
}

/// The hexadecimal digit of value `d`.
pub open spec fn hex_char(d: nat) -> char {
    if d < 10 {
        (48 + d) as char
    } else {
        (87 + d) as char
    }
}

/// `bytes` in hexadecimal notation: two lower case digits for each byte.
pub open spec fn hex_text(bytes: Seq<u8>) -> Seq<char> {
    Seq::new(
        2 * bytes.len(),
        |i: int|
            hex_char(
                if i % 2 == 0 {
                    bytes[i / 2] as nat / 16
                } else {
                    bytes[i / 2] as nat % 16
                },
            ),
    )
}

/// The bytes that `text` gives in hexadecimal notation, in lower or upper case; none where it is no
/// such text.
pub open spec fn hex_bytes(text: Seq<char>) -> Option<Seq<u8>> {
    if text.len() % 2 == 0 && forall|i: int|
        0 <= i < text.len() ==> hex_digit(#[trigger] text[i]) is Some {
        Some(
            Seq::new(
                text.len() / 2,
                |i: int| (hex_digit(text[2 * i])->0 * 16 + hex_digit(text[2 * i + 1])->0) as u8,
            ),
        )
    } else {
        None
    }
}

/// Calls `hex::encode`: two lower case digits for each byte.
#[verifier::external_body]
pub(crate) fn hex_encode(bytes: &[u8]) -> (text: String)
    ensures
        text@ == hex_text(bytes@),
{
    hex::encode(bytes)
}

/// The message of the error that `hex::decode` gives for `text`.
pub uninterp spec fn hex_fault(text: Seq<char>) -> Seq<char>;

/// Calls `hex::decode`: two digits of either case for each byte. For any other text the message of
/// the error is handed out; it names the first thing that is wrong, and a length that is odd comes
/// before all else.
#[verifier::external_body]
pub(crate) fn hex_decode(text: &str) -> (bytes: Result<Vec<u8>, String>)
    ensures
        bytes matches Ok(b) ==> hex_bytes(text@) == Some(b@),
        bytes matches Err(e) ==> hex_bytes(text@) is None && e@ == hex_fault(text@),
        bytes matches Err(e) ==> encode_utf8(text@).len() % 2 == 1 ==> e@ == "Odd number of digits"@,
{
    hex::decode(text).map_err(|e| e.to_string())
}

/// The value of the hexadecimal digit `c`.
pub fn hex_value(c: char) -> (r: Option<u8>)
    ensures
        r matches Some(d) ==> hex_digit(c) == Some(d as nat) && d < 16,
        r is None ==> hex_digit(c) is None,
{
    if '0' <= c && c <= '9' {
        Some((c as u8) - 48)
    } else if 'a' <= c && c <= 'f' {
        Some((c as u8) - 97 + 10)
    } else if 'A' <= c && c <= 'F' {
        Some((c as u8) - 65 + 10)
    } else {
        None
    }
}

/// `n` in decimal notation.
pub fn decimal(n: u64) -> (r: String)
    ensures
        r@ == decimal_of(n as nat),
    decreases n,
{
    let last: char = (48u8 + (n % 10) as u8) as char;
    let mut r = if n < 10 {
        String::new()
    } else {
        decimal(n / 10)
    };
    r.push(last);
    assert(n < 10 ==> r@ =~= seq![digit(n as nat)]);
    r
}

/// What is written in hexadecimal notation is read back.
pub proof fn law_hex_reads_back(bytes: Seq<u8>)
    ensures
        hex_bytes(hex_text(bytes)) == Some(bytes),
{
    let text = hex_text(bytes);
    assert forall|i: int| 0 <= i < text.len() implies hex_digit(#[trigger] text[i]) is Some by {
        assert(bytes[i / 2] as nat / 16 < 16);
    }
    assert(hex_bytes(text)->0 =~= bytes) by {
        assert forall|i: int| 0 <= i < bytes.len() implies #[trigger] hex_bytes(text)->0[i]
            == bytes[i] by {
            let b = bytes[i] as nat;
            assert((2 * i) / 2 == i && (2 * i) % 2 == 0);
            assert((2 * i + 1) / 2 == i && (2 * i + 1) % 2 == 1);
            assert(text[2 * i] == hex_char(b / 16));
            assert(text[2 * i + 1] == hex_char(b % 16));
            assert(hex_digit(hex_char(b / 16)) == Some(b / 16));
            assert(hex_digit(hex_char(b % 16)) == Some(b % 16));
        }
    }
}

/// The number that the decimal digits `digits` stand for.
pub open spec fn decimal_value(digits: Seq<char>) -> int
    decreases digits.len(),
{
    if digits.len() == 0 {
        0
    } else {
        decimal_value(digits.drop_last()) * 10 + (digits.last() as u32 - '0' as u32)
    }
}

/// A number is written in digits alone, without leading zeros, and is read back from them.
pub proof fn law_decimal_reads_back(n: nat)
    ensures
        decimal_value(decimal_of(n)) == n,
        decimal_of(n).len() > 0,
        forall|i: int| 0 <= i < decimal_of(n).len() ==> '0' <= #[trigger] decimal_of(n)[i] <= '9',
        n > 0 ==> decimal_of(n)[0] != '0',
        n == 0 ==> decimal_of(n) == seq!['0'],
    decreases n,
{
    let s = decimal_of(n);
    reveal_with_fuel(decimal_value, 2);
    if n < 10 {
        assert(s.drop_last() =~= Seq::empty());
    } else {
        law_decimal_reads_back(n / 10);
        let rest = decimal_of(n / 10);
        assert(s.drop_last() =~= rest);
        assert(s.last() as u32 - '0' as u32 == n % 10);
        assert(s[0] == rest[0]);
        assert forall|i: int| 0 <= i < s.len() implies '0' <= #[trigger] s[i] <= '9' by {
            if i < rest.len() {
                assert(s[i] == rest[i]);
            }
        }
    }
}

/// A byte is written as the digits of its higher and its lower half, in lower case.
pub proof fn law_hex_has_two_digits_for_each_byte(bytes: Seq<u8>, i: int)
    requires
        0 <= i < bytes.len(),
    ensures
        hex_text(bytes).len() == 2 * bytes.len(),
        hex_text(bytes)[2 * i] == "0123456789abcdef"@[bytes[i] as int / 16],
        hex_text(bytes)[2 * i + 1] == "0123456789abcdef"@[bytes[i] as int % 16],
{
    reveal_strlit("0123456789abcdef");
    assert((2 * i) / 2 == i && (2 * i) % 2 == 0);
    assert((2 * i + 1) / 2 == i && (2 * i + 1) % 2 == 1);
    lemma_hex_digits(bytes[i] as nat / 16);
    lemma_hex_digits(bytes[i] as nat % 16);
}

proof fn lemma_hex_digits(d: nat)
    requires
        d < 16,
    ensures
        hex_char(d) == "0123456789abcdef"@[d as int],
{
    reveal_strlit("0123456789abcdef");
    assert(d == 0 || d == 1 || d == 2 || d == 3 || d == 4 || d == 5 || d == 6 || d == 7 || d == 8 || d
        == 9 || d == 10 || d == 11 || d == 12 || d == 13 || d == 14 || d == 15);
}

/// What is written in hexadecimal notation has no capital in it.
pub proof fn lemma_hex_text_is_lower(bytes: Seq<u8>)
    ensures
        forall|i: int|
            0 <= i < hex_text(bytes).len() ==> text::lower(#[trigger] hex_text(bytes)[i]) == hex_text(
                bytes,
            )[i],
{
    let t = hex_text(bytes);
    assert forall|i: int| 0 <= i < t.len() implies text::lower(#[trigger] t[i]) == t[i] by {
        assert(bytes[i / 2] as nat / 16 < 16);
    }
}

/// The case of its letters does not change what a hexadecimal text gives.
pub proof fn lemma_hex_has_either_case(t: Seq<char>)
    ensures
        hex_bytes(text::lowered(t)) == hex_bytes(t),
{
    let low = text::lowered(t);
    assert forall|i: int| 0 <= i < t.len() implies hex_digit(#[trigger] low[i]) == hex_digit(t[i]) by {}
    assert forall|i: int| 0 <= i < t.len() implies hex_digit(low[i]) == hex_digit(#[trigger] t[i]) by {
        assert(low[i] == text::lower(t[i]));
    }
    if hex_bytes(t) is Some {
        assert forall|i: int| 0 <= i < low.len() implies hex_digit(#[trigger] low[i]) is Some by {
            assert(hex_digit(t[i]) is Some);
        }
        assert(hex_bytes(low)->0 =~= hex_bytes(t)->0) by {
            assert forall|i: int| 0 <= i < t.len() / 2 implies #[trigger] hex_bytes(low)->0[i]
                == hex_bytes(t)->0[i] by {
                assert(hex_digit(low[2 * i]) == hex_digit(t[2 * i]));
                assert(hex_digit(low[2 * i + 1]) == hex_digit(t[2 * i + 1]));
            }
        }
    } else if hex_bytes(low) is Some {
        assert forall|i: int| 0 <= i < t.len() implies hex_digit(#[trigger] t[i]) is Some by {
            assert(hex_digit(low[i]) is Some);
        }
    }
}

/// A hexadecimal text without capitals is the one that its bytes are written as.
pub proof fn lemma_lower_hex_is_the_text(t: Seq<char>, bytes: Seq<u8>)
    requires
        hex_bytes(t) == Some(bytes),
        forall|i: int| 0 <= i < t.len() ==> !('A' <= #[trigger] t[i] <= 'Z'),
    ensures
        t == hex_text(bytes),
{
    let h = hex_text(bytes);
    assert forall|i: int| 0 <= i < t.len() implies t[i] == h[i] by {
        let k = i / 2;
        let a = hex_digit(t[2 * k]);
        let b = hex_digit(t[2 * k + 1]);
        assert(a is Some && b is Some);
        let (x, y) = (a->0, b->0);
        assert(x < 16 && y < 16);
        assert(bytes[k] == (x * 16 + y) as u8);
        assert(bytes[k] as nat / 16 == x && bytes[k] as nat % 16 == y);
        assert(!('A' <= t[2 * k] <= 'Z') && !('A' <= t[2 * k + 1] <= 'Z'));
        assert(hex_char(x) == t[2 * k]);
        assert(hex_char(y) == t[2 * k + 1]);
    }
    assert(t =~= h);
}

} // verus!
