use deskframe::text::{is_whitespace_char, trim_whitespace};

#[test]
fn trim_matches_std_trim() {
    let cases = [
        "",
        "   ",
        "abc",
        "  abc  ",
        "\t\n C:\\Program Files\\app.exe \r\n",
        "\u{3000}全角\u{3000}",
        "\u{a0}\u{85}x y\u{2028}\u{205f}",
        "\u{200b}zero width is not whitespace\u{200b}",
        "a\u{2009}b",
        "\u{1680}\u{2000}\u{200a}\u{202f}",
    ];
    for s in cases {
        assert_eq!(trim_whitespace(s), s.trim(), "input {:?}", s);
    }
}

#[test]
fn whitespace_classification_matches_std() {
    for u in 0u32..0x3100 {
        if let Some(c) = char::from_u32(u) {
            assert_eq!(is_whitespace_char(c), c.is_whitespace(), "char {:?}", c);
        }
    }
    assert!(!is_whitespace_char('\u{feff}'));
}

#[test]
fn trim_is_idempotent() {
    for s in ["  x  ", "\u{3000}\u{3000}", "a b", " \u{85}q\u{85} "] {
        let once = trim_whitespace(s);
        assert_eq!(trim_whitespace(&once), once);
    }
}
