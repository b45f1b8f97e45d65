use ayaka::chars::{is_special_char, is_whitespace, len_utf8};
use ayaka::loc::Loc;
use ayaka::raw_value::{bool_to_string, int_to_string};
use ayaka::strings::{
    collect_chars, push_escaped_char, push_escaped_str, split_str, str_eq, string_of_range,
};

#[test]
fn char_classes() {
    for c in [' ', '\t', '\n', '\u{3000}', '\u{a0}', '\u{2028}'] {
        assert!(is_whitespace(c));
        assert_eq!(is_whitespace(c), c.is_whitespace());
    }
    for c in ['a', '\\', '{', '日', '\u{200b}'] {
        assert_eq!(is_whitespace(c), c.is_whitespace());
    }
    for c in ['\\', '{', '}', '/'] {
        assert!(is_special_char(c));
    }
    for c in ['a', ' ', '|', '日'] {
        assert!(!is_special_char(c));
    }
    for c in ['a', 'é', '日', '😀'] {
        assert_eq!(len_utf8(c), c.len_utf8());
    }
}

#[test]
fn string_helpers() {
    assert!(str_eq("日本", "日本"));
    assert!(!str_eq("日本", "日"));
    assert!(!str_eq("ab", "ac"));
    let cs = collect_chars("a日b");
    assert_eq!(cs, vec!['a', '日', 'b']);
    assert_eq!(string_of_range(&cs, 1, 3), "日b");
    assert_eq!(string_of_range(&cs, 2, 2), "");
    for (s, c) in [("a,b,,c", ','), ("", ','), (",", ','), ("abc", 'x'), ("日/本/", '/')] {
        let expected: Vec<String> = s.split(c).map(|p| p.to_string()).collect();
        assert_eq!(split_str(s, c), expected);
    }
}

#[test]
fn escapes_as_std() {
    for c in ['a', '\t', '\r', '\n', '\'', '"', '\\', '~', '\u{7f}', 'é', '日', '😀', '\0'] {
        let mut out = "x".to_string();
        push_escaped_char(&mut out, c);
        assert_eq!(out, format!("x{}", c.escape_default()));
    }
    let s = "t\"x\n日";
    let mut out = String::new();
    push_escaped_str(&mut out, s);
    assert_eq!(out, s.escape_default().to_string());
}

#[test]
fn numbers_and_booleans_as_display() {
    for i in [0i64, 7, -7, 10, 1234567890, i64::MAX, i64::MIN] {
        assert_eq!(int_to_string(i), i.to_string());
    }
    assert_eq!(bool_to_string(true), "true");
    assert_eq!(bool_to_string(false), "false");
}

#[test]
fn loc_join() {
    assert_eq!(Loc::join(Loc(4, 6), Loc(1, 2)), Loc(1, 6));
    assert_eq!(Loc::join(Loc(1, 8), Loc(4, 6)), Loc(1, 8));
}
