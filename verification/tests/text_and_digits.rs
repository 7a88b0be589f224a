use rep_notary::digits::{decimal, hex_value};
use rep_notary::frame::{frame_len, frame_prefix};
use rep_notary::text::{
    chars_contain, chars_of, eq_ignore_ascii_case, find_bytes, is_whitespace, joined, replace_char,
    same_text, trim,
};

#[test]
fn trimming_cuts_unicode_whitespace_at_both_ends() {
    for s in ["", " ", "  a b\t\r\n", "\u{a0}\u{3000}x\u{2028}", "a", "\u{200b}a\u{200b}"] {
        assert_eq!(trim(s), s.trim());
    }
}

#[test]
fn whitespace_is_the_unicode_property() {
    for n in 0..0x11_0000u32 {
        if let Some(c) = char::from_u32(n) {
            assert_eq!(is_whitespace(c), c.is_whitespace());
        }
    }
}

#[test]
fn case_is_ignored_for_ascii_letters_only() {
    assert!(eq_ignore_ascii_case("aBc1", "AbC1"));
    assert!(!eq_ignore_ascii_case("ä", "Ä"));
    assert!(!eq_ignore_ascii_case("ab", "abc"));
    assert!(same_text("ab", "ab"));
    assert!(!same_text("ab", "aB"));
}

#[test]
fn every_occurrence_is_replaced() {
    assert_eq!(replace_char("a\nb\n\nc", '\n', " "), "a b  c");
    assert_eq!(replace_char("xx", 'x', "yxy"), "yxyyxy");
    assert_eq!(joined("ab", "cd"), "abcd");
}

#[test]
fn the_first_occurrence_is_found() {
    assert_eq!(find_bytes(b"a\r\r\n\r\n", b"\r\n"), Some(2));
    assert_eq!(find_bytes(b"abc", b"\r\n"), None);
    assert_eq!(find_bytes(b"a", b"ab"), None);
    let hay = chars_of("uncovered");
    assert!(chars_contain(&hay, &chars_of("cover")));
    assert!(!chars_contain(&hay, &chars_of("coved")));
}

#[test]
fn numbers_are_written_in_decimal() {
    for n in [0u64, 7, 10, 99, 100, 443, 1_700_000_000, u64::MAX] {
        assert_eq!(decimal(n), n.to_string());
    }
}

#[test]
fn hexadecimal_digits_have_either_case() {
    assert_eq!(hex_value('0'), Some(0));
    assert_eq!(hex_value('f'), Some(15));
    assert_eq!(hex_value('F'), Some(15));
    assert_eq!(hex_value('g'), None);
    assert_eq!(hex_value('٣'), None);
}

#[test]
fn lengths_read_back() {
    for len in [0usize, 1, 255, 256, 65_536, 0x0102_0304, 0xffff_ffff] {
        let prefix = frame_prefix(len);
        assert_eq!(prefix, (len as u32).to_be_bytes());
        assert_eq!(frame_len(prefix), len);
    }
}

#[test]
fn a_length_that_does_not_fit_loses_its_higher_part() {
    assert_eq!(frame_prefix(0x1_0000_0005), [0, 0, 0, 5]);
}
