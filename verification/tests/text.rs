use scratch_server::number::{parse_usize, IntErrorKind};
use scratch_server::space::{next_token, space_at, space_before, trim, trim_start};
use scratch_server::text::{
    append_bytes, bytes_eq, eq_ignore_ascii_case, index_of_byte, index_of_seq, numeral,
    starts_with, string_of, to_ascii_uppercase,
};
use scratch_server::headers::header_value;
use scratch_server::utf8::substr;

const SPACES: [char; 25] = [
    '\u{9}', '\u{a}', '\u{b}', '\u{c}', '\u{d}', ' ', '\u{85}', '\u{a0}', '\u{1680}', '\u{2000}',
    '\u{2001}', '\u{2002}', '\u{2003}', '\u{2004}', '\u{2005}', '\u{2006}', '\u{2007}',
    '\u{2008}', '\u{2009}', '\u{200a}', '\u{2028}', '\u{2029}', '\u{202f}', '\u{205f}',
    '\u{3000}',
];

#[test]
fn white_space_is_what_std_calls_white_space() {
    for code in 0..=0x10ffffu32 {
        if let Some(c) = char::from_u32(code) {
            let text = c.to_string();
            let width = space_at(text.as_bytes(), 0);
            if c.is_whitespace() {
                assert_eq!(width, c.len_utf8(), "U+{code:04X}");
                assert_eq!(space_before(text.as_bytes(), 0, text.len()), c.len_utf8());
            } else {
                assert_eq!(width, 0, "U+{code:04X}");
                assert_eq!(space_before(text.as_bytes(), 0, text.len()), 0, "U+{code:04X}");
            }
        }
    }
    assert_eq!(SPACES.iter().filter(|c| c.is_whitespace()).count(), 25);
}

#[test]
fn space_needs_all_its_bytes() {
    assert_eq!(space_at(b"\xc2", 0), 0);
    assert_eq!(space_at(b"\xe2\x80", 0), 0);
    assert_eq!(space_at(b"a ", 1), 1);
    assert_eq!(space_at(b"a ", 2), 0);
    assert_eq!(space_before("x\u{2003}".as_bytes(), 2, 4), 0);
    assert_eq!(space_before("x\u{2003}".as_bytes(), 1, 4), 3);
}

#[test]
fn trim_agrees_with_std() {
    let mut texts = vec![
        String::new(),
        " ".to_string(),
        "a".to_string(),
        " a ".to_string(),
        "\t\r\n a b \r\n".to_string(),
        "é".to_string(),
        " é ".to_string(),
        "\u{2003}€\u{2003}x\u{2003}".to_string(),
        "\u{200b} x \u{200b}".to_string(),
    ];
    for c in SPACES {
        texts.push(format!("{c}{c}a{c}b{c}{c}"));
        texts.push(format!("{c}"));
        texts.push(format!("a{c}"));
        texts.push(format!("{c}é"));
    }
    for text in &texts {
        assert_eq!(trim(text), text.trim(), "{text:?}");
        assert_eq!(trim_start(text), text.trim_start(), "{text:?}");
    }
}

#[test]
fn tokens_agree_with_std() {
    let mut texts = vec![
        String::new(),
        "  ".to_string(),
        "GET / HTTP/1.1\r\n".to_string(),
        "one".to_string(),
        "  one  ".to_string(),
        "é\u{a0}€ x".to_string(),
    ];
    for c in SPACES {
        texts.push(format!("{c}a{c}{c}bc{c}d"));
    }
    for text in &texts {
        let mut expected = text.split_whitespace();
        let mut rest: &str = text;
        loop {
            let (token, after) = next_token(rest);
            match expected.next() {
                Some(word) => assert_eq!(token, word, "{text:?}"),
                None => {
                    assert_eq!(token, "", "{text:?}");
                    assert_eq!(after, "");
                    break;
                }
            }
            rest = after;
        }
    }
}

#[test]
fn substr_cuts_between_characters() {
    assert_eq!(substr("a€b", 1, 4), "€");
    assert_eq!(substr("a€b", 0, 5), "a€b");
    assert_eq!(substr("a€b", 4, 4), "");
}

#[test]
fn numerals() {
    assert_eq!(numeral(0, 10), b"0");
    assert_eq!(numeral(7, 10), b"7");
    assert_eq!(numeral(10, 10), b"10");
    assert_eq!(numeral(102_400, 10), b"102400");
    assert_eq!(numeral(u64::MAX, 10), b"18446744073709551615");
    assert_eq!(numeral(255, 16), b"ff");
    assert_eq!(numeral(5, 2), b"101");
    assert_eq!(numeral(61, 62), b"Z");
    assert_eq!(numeral(62 * 62, 62), b"100");
}

#[test]
fn numbers_are_read_as_std_reads_them() {
    let texts = [
        "", "0", "7", "42", "+42", "-42", "+", "-", "++1", "+-1", "00012", " 1", "1 ", "1_000",
        "18446744073709551615", "18446744073709551616", "18446744073709551620",
        "99999999999999999999", "1e3", "٣",
    ];
    for text in texts {
        let expected = text.parse::<usize>().map_err(|e| e.to_string());
        let got = parse_usize(text.as_bytes()).map_err(|kind| match kind {
            IntErrorKind::Empty => "cannot parse integer from empty string".to_string(),
            IntErrorKind::InvalidDigit => "invalid digit found in string".to_string(),
            IntErrorKind::PosOverflow => "number too large to fit in target type".to_string(),
        });
        assert_eq!(got, expected, "{text:?}");
    }
}

#[test]
fn searching() {
    assert_eq!(index_of_byte(b"a:b:c", b':', 0), 1);
    assert_eq!(index_of_byte(b"a:b:c", b':', 2), 3);
    assert_eq!(index_of_byte(b"a:b:c", b':', 4), 5);
    assert_eq!(index_of_byte(b"", b':', 0), 0);
    assert_eq!(index_of_seq(b"hello world", b"o w", 0), 4);
    assert_eq!(index_of_seq(b"hello world", b"o", 5), 7);
    assert_eq!(index_of_seq(b"hello world", b"xyz", 0), 11);
    assert_eq!(index_of_seq(b"ab", b"abc", 0), 2);
    assert_eq!(index_of_seq(b"aab", b"ab", 0), 1);
    assert!(starts_with(b"https://x", b"https://"));
    assert!(!starts_with(b"http://x", b"https://"));
    assert!(!starts_with(b"http", b"http://"));
    assert!(starts_with(b"abc", b""));
}

#[test]
fn comparing() {
    assert!(bytes_eq(b"abc", b"abc"));
    assert!(!bytes_eq(b"abc", b"abd"));
    assert!(!bytes_eq(b"abc", b"ab"));
    assert!(eq_ignore_ascii_case(b"Content-Length", b"cONTENT-lENGTH"));
    assert!(!eq_ignore_ascii_case(b"Content-Length", b"Content_Length"));
    assert!(!eq_ignore_ascii_case(b"[", b"{"));
    assert!(!eq_ignore_ascii_case(b"@", b"`"));
    assert!(!eq_ignore_ascii_case("É".as_bytes(), "é".as_bytes()));
    assert_eq!(to_ascii_uppercase("get é{z".as_bytes()), "GET é{Z".as_bytes());
}

#[test]
fn building() {
    let mut out = b"ab".to_vec();
    append_bytes(&mut out, b"cd");
    append_bytes(&mut out, b"");
    assert_eq!(out, b"abcd");
    assert_eq!(string_of("a€".as_bytes()), "a€");
}

#[test]
fn header_lookup() {
    let headers = vec![
        ("Host".to_string(), "a".to_string()),
        ("X-Id".to_string(), "1".to_string()),
        ("x-id".to_string(), "2".to_string()),
    ];
    assert_eq!(header_value(&headers, "HOST"), Some("a"));
    assert_eq!(header_value(&headers, "x-ID"), Some("1"));
    assert_eq!(header_value(&headers, "Hos"), None);
    assert_eq!(header_value(&[], "Host"), None);
}
