use stock_widget::text::{chars_of, find_char_in, parse_u32, push_decimal, split_chars, string_from_chars, trim_chars};

fn chars(s: &str) -> Vec<char> {
    chars_of(s)
}

#[test]
fn parse_u32_reads_decimal() {
    assert_eq!(parse_u32(&chars("600519")), Some(600519));
    assert_eq!(parse_u32(&chars("+0")), Some(0));
    assert_eq!(parse_u32(&chars("4294967295")), Some(u32::MAX));
    assert_eq!(parse_u32(&chars("4294967296")), None);
    assert_eq!(parse_u32(&chars("99999999999999999999")), None);
    assert_eq!(parse_u32(&chars("")), None);
    assert_eq!(parse_u32(&chars("+")), None);
    assert_eq!(parse_u32(&chars("-1")), None);
    assert_eq!(parse_u32(&chars("12a")), None);
    assert_eq!(parse_u32(&chars(" 1")), None);
}

#[test]
fn parse_u32_agrees_with_std() {
    for s in ["0", "007", "+12", "++1", "1+", "abc", "65536", "4294967295", "4294967296", "+"] {
        assert_eq!(parse_u32(&chars(s)), s.parse::<u32>().ok(), "{}", s);
    }
}

#[test]
fn trim_removes_unicode_whitespace() {
    let t = trim_chars(&chars("\u{3000} a b\u{a0}\n"));
    assert_eq!(string_from_chars(&t), "a b");
    assert!(trim_chars(&chars(" \t ")).is_empty());
    for s in ["  x  ", "\r\nq\r\n", "x", "", "\u{2028}z"] {
        assert_eq!(string_from_chars(&trim_chars(&chars(s))), s.trim());
    }
}

#[test]
fn decimal_digits() {
    let mut s = String::from("n=");
    push_decimal(&mut s, 0);
    assert_eq!(s, "n=0");
    let mut t = String::new();
    push_decimal(&mut t, 1234567890123);
    assert_eq!(t, "1234567890123");
}

#[test]
fn split_and_find() {
    let parts = split_chars(&chars("a~~b~"), '~');
    let parts: Vec<String> = parts.iter().map(|p| string_from_chars(p)).collect();
    assert_eq!(parts, vec!["a", "", "b", ""]);
    assert_eq!(split_chars(&chars(""), '~').len(), 1);
    assert_eq!(find_char_in(&chars("ab\"c"), '"'), 2);
    assert_eq!(find_char_in(&chars("abc"), '"'), 3);
}

#[test]
fn whitespace_matches_std() {
    for c in ['\u{9}', '\u{d}', ' ', '\u{85}', '\u{a0}', '\u{1680}', '\u{2000}', '\u{200a}', '\u{200b}',
        '\u{2028}', '\u{2029}', '\u{202f}', '\u{205f}', '\u{3000}', 'a', '\u{feff}', '\u{180e}', '\u{8}', '\u{e}']
    {
        let t = trim_chars(&vec![c]);
        assert_eq!(t.is_empty(), c.is_whitespace(), "{:?}", c);
    }
}
