use winrm::codec::{
    get_u32_be, get_u32_le, get_u64_be, put_u32_be, put_u32_le, put_u64_be,
};
use winrm::search::{find_in, rfind_in, same_symbols, stands_at};
use winrm::text;
use winrm::text::{
    chars_of, decimal_text, has, hex_text, read_i32, replaced, string_of, trimmed, Blank,
};
use winrm::uuid::Uuid;

fn chars(s: &str) -> Vec<char> {
    s.chars().collect()
}

#[test]
fn numbers_are_written_in_decimal_and_hexadecimal() {
    assert_eq!(decimal_text(0), "0");
    assert_eq!(decimal_text(10), "10");
    assert_eq!(decimal_text(u64::MAX), "18446744073709551615");
    assert_eq!(hex_text(0xab, 8), "000000ab");
    assert_eq!(hex_text(u32::MAX, 8), "ffffffff");
}

#[test]
fn numbers_are_read() {
    assert_eq!(read_i32(&chars("-2147483648")), Some(i32::MIN));
    assert_eq!(read_i32(&chars("-2147483649")), None);
    assert_eq!(read_i32(&chars("007")), Some(7));
    assert_eq!(read_i32(&chars("-")), None);
    assert_eq!(read_i32(&chars("1 ")), None);
    assert_eq!(read_i32(&chars("99999999999999999999999999")), None);
}

#[test]
fn blanks_are_trimmed() {
    assert_eq!(trimmed(&chars("\u{a0} x y\n"), Blank::Unicode), &chars("x y")[..]);
    assert_eq!(trimmed(&chars("\u{a0} x"), Blank::Ascii), &chars("\u{a0} x")[..]);
    assert_eq!(trimmed(&chars(" \t\n\u{c}\r"), Blank::Ascii), &chars("")[..]);
    assert_eq!(trimmed(&chars("\u{b}x"), Blank::Ascii), &chars("\u{b}x")[..]);
    for c in (0..=0x10_ffffu32).filter_map(char::from_u32) {
        assert_eq!(Blank::Unicode.is_blank(c), c.is_whitespace());
        assert_eq!(Blank::Ascii.is_blank(c), c.is_ascii_whitespace());
    }
}

#[test]
fn texts_are_joined_searched_and_replaced() {
    assert_eq!(text::concat("a", "é"), "aé");
    assert!(has("w:TimedOut", "TimedOut") && !has("TimedOu", "TimedOut") && has("x", ""));
    assert_eq!(string_of(&chars_of("aé漢")), "aé漢");
    assert_eq!(
        string_of(&replaced(&chars("aaab"), &chars("aa"), &chars("x"))),
        "xab"
    );
}

#[test]
fn patterns_are_found() {
    assert_eq!(find_in(b"abcabc", b"bc"), Some(1));
    assert_eq!(rfind_in(b"abcabc", b"bc"), Some(4));
    assert_eq!(find_in(b"abc", b"abcd"), None);
    assert_eq!(rfind_in(b"abc", b"x"), None);
    assert!(stands_at(b"abc", b"bc", 1) && !stands_at(b"abc", b"bc", 2));
    assert!(same_symbols(b"a", b"a") && !same_symbols(b"a", b"ab"));
}

#[test]
fn integers_are_laid_out() {
    let mut out = Vec::new();
    put_u32_le(&mut out, 0x0102_0304);
    put_u32_be(&mut out, 0x0102_0304);
    put_u64_be(&mut out, 0x0102_0304_0506_0708);
    assert_eq!(out, vec![4, 3, 2, 1, 1, 2, 3, 4, 1, 2, 3, 4, 5, 6, 7, 8]);
    assert_eq!(get_u32_le(&out, 0), 0x0102_0304);
    assert_eq!(get_u32_be(&out, 4), 0x0102_0304);
    assert_eq!(get_u64_be(&out, 8), 0x0102_0304_0506_0708);
}

#[test]
fn uuids_are_laid_out_and_written() {
    let id = Uuid { bytes: [0, 1, 2, 3, 4, 5, 6, 7, 8, 9, 10, 11, 12, 13, 14, 255] };
    assert_eq!(id.to_bytes_le(), [3, 2, 1, 0, 5, 4, 7, 6, 8, 9, 10, 11, 12, 13, 14, 255]);
    assert_eq!(id.hyphenated(), "00010203-0405-0607-0809-0a0b0c0d0eff");
    assert_eq!(Uuid::nil().hyphenated(), "00000000-0000-0000-0000-000000000000");
}
