use launchx::text::{
    chars_of, contains_chars, eq_ignore_ascii_case, is_whitespace, push_decimal, starts_with,
    trim,
};

#[test]
fn whitespace_agrees_with_std() {
    for code in 0u32..0x3100 {
        if let Some(c) = char::from_u32(code) {
            assert_eq!(is_whitespace(c), c.is_whitespace(), "U+{code:04X}");
        }
    }
    for c in ['\u{feff}', '\u{200b}', '\u{10ffff}', 'a'] {
        assert_eq!(is_whitespace(c), c.is_whitespace());
    }
}

#[test]
fn trim_agrees_with_std() {
    let cases = [
        "",
        "   ",
        "abc",
        "  a b  ",
        "\t\n x \r\n",
        "\u{3000}中文\u{a0}",
        "\u{2028}x\u{2029}y\u{205f}",
        "\u{200b}zero width\u{200b}",
        " é ",
    ];
    for s in cases {
        assert_eq!(trim(s), s.trim(), "{s:?}");
    }
}

#[test]
fn trim_is_idempotent_on_examples() {
    for s in ["  a  ", "\u{3000}b", "c\t", ""] {
        let once = trim(s);
        assert_eq!(trim(&once), once);
    }
}

#[test]
fn substring_search() {
    let h = chars_of("project alpha");
    assert!(contains_chars(&h, &chars_of("alpha")));
    assert!(contains_chars(&h, &chars_of("")));
    assert!(contains_chars(&h, &chars_of("project alpha")));
    assert!(!contains_chars(&h, &chars_of("beta")));
    assert!(!contains_chars(&h, &chars_of("project alpha!")));
    assert!(contains_chars(&chars_of("ab中文cd"), &chars_of("文c")));
}

#[test]
fn prefix_test() {
    let s = chars_of("https://x");
    assert!(starts_with(&s, "https://"));
    assert!(!starts_with(&s, "http://"));
    assert!(starts_with(&s, ""));
    assert!(!starts_with(&chars_of("ht"), "http://"));
}

#[test]
fn ascii_case_equality_agrees_with_std() {
    let pairs = [
        ("ABC", "abc"),
        ("/Home/Me", "/home/me"),
        ("É", "é"),
        ("abc", "abd"),
        ("abc", "ab"),
        ("", ""),
        ("a-Z", "A-z"),
    ];
    for (a, b) in pairs {
        assert_eq!(
            eq_ignore_ascii_case(&chars_of(a), &chars_of(b)),
            a.eq_ignore_ascii_case(b),
            "{a:?} {b:?}"
        );
    }
}

#[test]
fn decimal_formatting() {
    for n in [0usize, 7, 10, 42, 100, 12345, usize::MAX] {
        let mut s = String::from("n=");
        push_decimal(&mut s, n);
        assert_eq!(s, format!("n={n}"));
    }
}

