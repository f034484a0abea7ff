use codex2api_desktop::text::{chars_of, join_with_newlines, lines_of, string_of, trim_chars};

fn lines(s: &str) -> Vec<String> {
    lines_of(&chars_of(s)).iter().map(string_of).collect()
}

#[test]
fn lines_match_std() {
    for s in ["", "a", "a\n", "a\n\nb", "\n", "a\r\nb\r\n", "a\r", "a\r\r\n", "\r\n\r\n", "x\ny\rz\n"] {
        let expected: Vec<String> = s.lines().map(str::to_string).collect();
        assert_eq!(lines(s), expected, "{:?}", s);
    }
}

#[test]
fn trim_matches_std() {
    for s in ["", "  ", " a ", "\u{3000}a b\u{85}", "\u{200b}a", "\t\r\n x\u{a0}"] {
        let t = string_of(&trim_chars(&chars_of(s)));
        assert_eq!(t, s.trim(), "{:?}", s);
    }
}

#[test]
fn join_uses_line_feeds() {
    let ls = vec![chars_of("a"), chars_of(""), chars_of("b")];
    assert_eq!(string_of(&join_with_newlines(&ls)), "a\n\nb");
    assert_eq!(string_of(&join_with_newlines(&Vec::new())), "");
}

#[test]
fn chars_roundtrip() {
    let s = "héllo, 世界";
    assert_eq!(string_of(&chars_of(s)), s);
}
