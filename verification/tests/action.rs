use ayaka::action::{ActionLine, ActionLines, ActionSubText, ActionText};
use ayaka::context::trim_blank_lines;

#[test]
fn action_lines_push_back_chars_joins() {
    let mut lines = ActionLines::default();
    lines.push_back_chars("Hello ");
    assert_eq!(*lines.get(0), ActionLine::chars("Hello "));
    lines.push_back_chars("world!");
    assert_eq!(*lines.get(0), ActionLine::chars("Hello world!"));
    assert_eq!(lines.len(), 1);
}

#[test]
fn action_lines_kinds_alternate() {
    let mut lines = ActionLines::new();
    lines.push_back_chars("a");
    lines.push_back_block("<b>");
    lines.push_back_block("</b>");
    lines.push_back_chars("c");
    assert_eq!(lines.len(), 3);
    assert_eq!(*lines.get(0), ActionLine::Chars("a".to_string()));
    assert_eq!(*lines.get(1), ActionLine::Block("<b></b>".to_string()));
    assert_eq!(*lines.get(2), ActionLine::Chars("c".to_string()));
}

#[test]
fn action_lines_pop_and_append() {
    let mut lines = ActionLines::new();
    assert!(lines.is_empty());
    assert!(lines.pop_back().is_none());
    lines.push_back(ActionLine::block("x"));
    lines.push_front(ActionLine::chars("y"));
    let mut other = ActionLines::new();
    other.push_back_chars("z");
    lines.append(&mut other);
    assert!(other.is_empty());
    assert_eq!(lines.len(), 3);
    assert_eq!(lines.pop_front().unwrap().into_string(), "y");
    assert_eq!(lines.pop_back().unwrap().as_str(), "z");
    assert_eq!(lines.len(), 1);
}

#[test]
fn action_line_strings() {
    assert_eq!(ActionLine::block("abc").as_str(), "abc");
    assert_eq!(ActionLine::chars("abc").into_string(), "abc".to_string());
    assert_eq!(ActionSubText::block("abc").as_str(), "abc");
    assert_eq!(ActionSubText::chars("abc").into_string(), "abc".to_string());
}

#[test]
fn action_text_push_back() {
    let mut text = ActionText::default();
    text.push_back_chars("Hello ");
    assert_eq!(text.text[0], ActionSubText::chars("Hello "));
    text.push_back_chars("world!");
    assert_eq!(text.text[0], ActionSubText::chars("Hello world!"));
    text.push_back_block("<br/>");
    assert_eq!(text.text.len(), 2);
    assert_eq!(text.to_string(), "Hello world!<br/>");
}

#[test]
fn trim_blank_lines_both_ends() {
    let mut lines = ActionLines::new();
    lines.push_back_block("  ");
    lines.push_back_chars("\n");
    lines.push_back_block("<p>");
    lines.push_back_chars(" ");
    lines.push_back_block("x");
    lines.push_back_chars(" \t");
    trim_blank_lines(&mut lines);
    assert_eq!(lines.len(), 3);
    assert_eq!(*lines.get(0), ActionLine::block("<p>"));
    assert_eq!(*lines.get(1), ActionLine::chars(" "));
    assert_eq!(*lines.get(2), ActionLine::block("x"));

    let mut blank = ActionLines::new();
    blank.push_back_chars(" ");
    blank.push_back_block("");
    trim_blank_lines(&mut blank);
    assert!(blank.is_empty());
}

#[test]
fn runtime_version() {
    assert_eq!(ayaka::version(), "0.1.0");
}
