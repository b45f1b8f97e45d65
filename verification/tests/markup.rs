use ayaka::markup::{parse_text, SubText, Text};
use ayaka::raw_value::RawValue;

fn text(sub_texts: Vec<SubText>) -> Text {
    Text {
        ch_tag: None,
        ch_alias: None,
        sub_texts,
    }
}

fn text_ch(tag: Option<&str>, alias: Option<&str>, sub_texts: Vec<SubText>) -> Text {
    Text {
        ch_tag: tag.map(|s| s.into()),
        ch_alias: alias.map(|s| s.into()),
        sub_texts,
    }
}

fn str(s: &str) -> SubText {
    SubText::Str(s.to_string())
}

fn cmd(cmd: &str, args: Vec<SubText>) -> SubText {
    SubText::Cmd(cmd.to_string(), args)
}

#[test]
fn embedded() {
    assert_eq!(
        parse_text(r##"\switch{\exec{114514}}"##).unwrap().1,
        text(vec![cmd("switch", vec![cmd("exec", vec![str("114514")])])])
    );
}

#[test]
fn character() {
    assert_eq!(
        parse_text("/ch//").unwrap().1,
        text_ch(Some("ch"), None, vec![])
    );
    assert_eq!(
        parse_text("/ch/alias/").unwrap().1,
        text_ch(Some("ch"), Some("alias"), vec![])
    );
    assert_eq!(parse_text("/ / /").unwrap().1, text_ch(None, None, vec![]));
}

#[test]
fn markup_rest_is_empty() {
    assert_eq!(parse_text("abc").unwrap().0, "");
}

#[test]
fn markup_header_with_text() {
    assert_eq!(
        parse_text("/ ch / Alias /Hello  world").unwrap().1,
        text_ch(Some("ch"), Some("Alias"), vec![str("Hello "), str("world")])
    );
}

#[test]
fn markup_slash_without_header_is_text() {
    assert_eq!(parse_text("/a").unwrap().1, text(vec![str("/a")]));
    assert_eq!(parse_text("a/b/c").unwrap().1, text(vec![str("a/b/c")]));
}

#[test]
fn markup_escapes() {
    assert_eq!(
        parse_text("\\}\\/x").unwrap().1,
        text(vec![SubText::Char('}'), SubText::Char('/'), str("x")])
    );
}

#[test]
fn markup_command_arguments() {
    assert_eq!(
        parse_text("\\cmd {a} {b}c").unwrap().1,
        text(vec![cmd("cmd", vec![str("a"), str("b")]), str("c")])
    );
    assert!(parse_text("\\cmd{a b}").is_none());
}

#[test]
fn markup_errors() {
    assert!(parse_text("}").is_none());
    assert!(parse_text("\\").is_none());
    assert!(parse_text("\\1").is_none());
    assert!(parse_text("a}").is_none());
    assert!(parse_text("/x/y/}").is_none());
}

#[test]
fn markup_from_value() {
    assert_eq!(
        Text::from_value(RawValue::Str("/ch//hi".to_string())),
        text_ch(Some("ch"), None, vec![str("hi")])
    );
    assert_eq!(Text::from_value(RawValue::Str("}".to_string())), text(vec![]));
    assert_eq!(Text::from_value(RawValue::Num(12)), text(vec![str("12")]));
}
