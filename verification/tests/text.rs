use rushtle::decimal::{push_decimal, push_hex, read_digits, read_u16, read_unsigned};
use rushtle::split::{lines_of, split_at_char, words_of};
use rushtle::text::{
    bytes_of, chars_of, decode, find_byte, find_char, find_sub, has_prefix, has_text, is_in_class,
    is_text, same_bytes, string_of, trimmed, trimmed_end, trimmed_start, CharClass,
};

fn chars(s: &str) -> Vec<char> {
    s.chars().collect()
}

fn strings(v: Vec<&[char]>) -> Vec<String> {
    v.iter().map(|p| p.iter().collect::<String>()).collect()
}

#[test]
fn white_space_is_that_of_the_language() {
    for n in 0u32..=0x10ffff {
        if let Some(c) = char::from_u32(n) {
            assert_eq!(is_in_class(CharClass::White, c), c.is_whitespace(), "{:x}", n);
        }
    }
}

#[test]
fn other_classes() {
    assert!(is_in_class(CharClass::Nul, '\0'));
    assert!(!is_in_class(CharClass::Nul, '0'));
    assert!(is_in_class(CharClass::LineEnd, '\r'));
    assert!(is_in_class(CharClass::LineEnd, '\n'));
    assert!(!is_in_class(CharClass::LineEnd, ' '));
}

#[test]
fn bytes_become_text_only_as_utf8() {
    let samples: Vec<Vec<u8>> = vec![
        b"plain".to_vec(),
        "h\u{e9}llo \u{20ac} \u{1f980}".as_bytes().to_vec(),
        vec![0xff],
        vec![0xc3],
        vec![0xed, 0xa0, 0x80],
        vec![],
    ];
    for b in samples {
        let expected = std::str::from_utf8(&b).ok().map(chars);
        assert_eq!(decode(&b), expected);
    }
}

#[test]
fn text_becomes_bytes() {
    assert_eq!(bytes_of("a\u{20ac}"), vec![0x61, 0xe2, 0x82, 0xac]);
    assert_eq!(chars_of("a\u{20ac}"), vec!['a', '\u{20ac}']);
    assert_eq!(string_of(&['a', '\u{20ac}']), "a\u{20ac}");
}

#[test]
fn trimming() {
    let v = chars("\r\n x y \u{3000}\n");
    assert_eq!(trimmed(&v).iter().collect::<String>(), "x y");
    assert_eq!(trimmed_start(&v, CharClass::LineEnd).iter().collect::<String>(), " x y \u{3000}\n");
    assert_eq!(trimmed_end(&v, CharClass::LineEnd).iter().collect::<String>(), "\r\n x y \u{3000}");
    assert_eq!(trimmed(&chars(" \t ")).len(), 0);
}

#[test]
fn searching() {
    let v = chars("abcabc");
    assert_eq!(find_char(&v, 'c'), Some(2));
    assert_eq!(find_char(&v, 'd'), None);
    assert_eq!(find_byte(b"abc,d,", b','), Some(3));
    assert_eq!(find_byte(b"abc", b','), None);
    assert_eq!(find_sub(&v, &chars("ca")), Some(2));
    assert_eq!(find_sub(&v, &chars("abc")), Some(0));
    assert_eq!(find_sub(&v, &chars("abd")), None);
    assert_eq!(find_sub(&v, &[]), Some(0));
    assert_eq!(find_sub(&chars("a"), &v), None);
    assert!(has_text("no Broken pipe here", "Broken pipe"));
    assert!(!has_text("Broken  pipe", "Broken pipe"));
    assert!(has_prefix(&v, "abc"));
    assert!(!has_prefix(&v, "bc"));
    assert!(is_text(&v, "abcabc"));
    assert!(!is_text(&v, "abc"));
    assert!(same_bytes(b"ab", b"ab"));
    assert!(!same_bytes(b"ab", b"ac"));
    assert!(!same_bytes(b"ab", b"abc"));
}

#[test]
fn lines_are_those_of_the_language() {
    for s in ["", "\n", "a", "a\n", "a\nb", "a\r\nb\r", "\r\n\n x\n\n", "a\rb\n", "\r\r\n"] {
        let v = chars(s);
        let expected: Vec<String> = s.lines().map(String::from).collect();
        assert_eq!(strings(lines_of(&v)), expected, "{:?}", s);
    }
}

#[test]
fn words_are_those_of_the_language() {
    for s in ["", "  ", "a", " a b\tc\n", "a\u{3000}b", "10.0.0.1  host #x"] {
        let v = chars(s);
        let expected: Vec<String> = s.split_whitespace().map(String::from).collect();
        assert_eq!(strings(words_of(&v)), expected, "{:?}", s);
    }
}

#[test]
fn parts_between_separators() {
    for s in ["", ".", "a.b", "a..b.", "abc"] {
        let v = chars(s);
        let expected: Vec<String> = s.split('.').map(String::from).collect();
        assert_eq!(strings(split_at_char(&v, '.')), expected, "{:?}", s);
    }
}

#[test]
fn numbers_are_read_as_the_language_reads_them() {
    let samples = [
        "0", "1", "+1", "-1", "+", "", "00012", "65535", "65536", "12a", " 1", "99999999999999999999",
        "18446744073709551615", "18446744073709551616", "++1", "\u{661}",
    ];
    for s in samples {
        let v = chars(s);
        assert_eq!(read_unsigned(&v, u64::MAX), s.parse::<u64>().ok(), "{:?}", s);
        assert_eq!(read_u16(&v), s.parse::<u16>().ok(), "{:?}", s);
    }
    assert_eq!(read_digits(&chars("+1"), 9), None);
    assert_eq!(read_digits(&chars("9"), 9), Some(9));
    assert_eq!(read_digits(&chars("10"), 9), None);
}

#[test]
fn numbers_are_written_as_the_language_writes_them() {
    for n in [0u64, 7, 10, 99, 100, 65535, u64::MAX] {
        let mut s = String::from("n=");
        push_decimal(&mut s, n);
        assert_eq!(s, format!("n={}", n));
    }
    for b in 0u8..=255 {
        let mut s = String::new();
        push_hex(&mut s, b);
        assert_eq!(s, format!("{:02x}", b));
    }
}
