use shinra::text::{decode_utf8_prefix, find_char, find_whitespace, is_whitespace, trim_range};

#[test]
fn whitespace_is_unicode_white_space() {
    for c in [' ', '\t', '\n', '\r', '\u{0B}', '\u{0C}', '\u{85}', '\u{A0}', '\u{2003}', '\u{3000}'] {
        assert_eq!(is_whitespace(c), c.is_whitespace(), "{c:?}");
        assert!(is_whitespace(c));
    }
    for c in ['a', '"', '\u{200B}', '\u{FEFF}', 'é'] {
        assert_eq!(is_whitespace(c), c.is_whitespace(), "{c:?}");
    }
}

#[test]
fn trimming_and_searching() {
    let t: Vec<char> = "  ab c \t".chars().collect();
    assert_eq!(trim_range(&t, 0, t.len()), (2, 6));
    assert_eq!(find_whitespace(&t, 2, 6), 4);
    assert_eq!(find_char(&t, 0, t.len(), 'c'), 5);
    assert_eq!(find_char(&t, 0, t.len(), 'z'), t.len());
    let blank: Vec<char> = "   ".chars().collect();
    let (lo, hi) = trim_range(&blank, 0, 3);
    assert_eq!(lo, hi);
}

#[test]
fn utf8_prefix_stops_at_the_first_fault() {
    assert_eq!(decode_utf8_prefix("héllo €".as_bytes()), "héllo €".chars().collect::<Vec<_>>());
    assert_eq!(decode_utf8_prefix(b"ab\xffcd"), vec!['a', 'b']);
    assert_eq!(decode_utf8_prefix(b"a\xc3"), vec!['a']);
    assert_eq!(decode_utf8_prefix(b"\xed\xa0\x80"), Vec::<char>::new());
    assert_eq!(decode_utf8_prefix(b"\xf0\x9f\x98\x80!"), vec!['\u{1F600}', '!']);
}
