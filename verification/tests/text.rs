use ayaka::lexer::{TextLexer, TokenType};
use ayaka::loc::Loc;
use ayaka::markup::{parse_text as parse_markup, SubText as Markup, Text as MarkupText};
use ayaka::parser::{parse_text, Command, SubText, Text, TextParser};
use ayaka::rich_lexer::{RichTokenType, TextRichLexer};
use ayaka::text_error::{ParseError, ParseErrorType};

fn markup(sub_texts: Vec<Markup>) -> MarkupText {
    MarkupText {
        ch_tag: None,
        ch_alias: None,
        sub_texts,
    }
}

fn mstr(s: &str) -> Markup {
    Markup::Str(s.to_string())
}

fn mcmd(cmd: &str, args: Vec<Markup>) -> Markup {
    Markup::Cmd(cmd.to_string(), args)
}

#[test]
fn text_basic() {
    let lexer = TextLexer::new("\\par text");
    let res = lexer.collect();
    assert_eq!(res.len(), 4);
    assert_eq!(res[0].tok, TokenType::SpecChar('\\'));
    assert_eq!(res[1].tok, TokenType::Text("par"));
    assert_eq!(res[2].tok, TokenType::Space);
    assert_eq!(res[3].tok, TokenType::Text("text"));

    assert_eq!(
        TextParser::new("\\\\").parse().unwrap(),
        Text(vec![SubText::Str("\\".to_string())])
    );
    assert_eq!(
        TextParser::new("\\{").parse().unwrap(),
        Text(vec![SubText::Str("{".to_string())])
    );

    assert_eq!(parse_markup("\\\\").unwrap().1, markup(vec![Markup::Char('\\')]));
    assert_eq!(parse_markup("\\{").unwrap().1, markup(vec![Markup::Char('{')]));
}

#[test]
fn text_space() {
    let lexer = TextLexer::new("text \\par");
    let res = lexer.collect();
    assert_eq!(res.len(), 4);
    assert_eq!(res[0].tok, TokenType::Text("text"));
    assert_eq!(res[1].tok, TokenType::Space);
    assert_eq!(res[2].tok, TokenType::SpecChar('\\'));
    assert_eq!(res[3].tok, TokenType::Text("par"));

    let lexer = TextRichLexer::new("\\cmd{123} \\cmd{123}");
    let res = lexer.try_collect().unwrap();
    assert_eq!(res.len(), 3);
    assert_eq!(res[1].tok, RichTokenType::Char(' '));

    assert_eq!(
        TextParser::new("\\cmd{123} \\cmd{123}").parse().unwrap(),
        Text(vec![
            SubText::Cmd(Command::Other("cmd".to_string(), vec!["123".to_string()])),
            SubText::Str(" ".to_string()),
            SubText::Cmd(Command::Other("cmd".to_string(), vec!["123".to_string()])),
        ])
    );

    assert_eq!(
        parse_markup("\\cmd{123} \\cmd{123}").unwrap().1,
        markup(vec![
            mcmd("cmd", vec![mstr("123")]),
            mstr(" "),
            mcmd("cmd", vec![mstr("123")]),
        ])
    );
    assert_eq!(
        parse_markup("\\par \\cmd{123}").unwrap().1,
        markup(vec![
            mcmd("par", vec![]),
            mstr(" "),
            mcmd("cmd", vec![mstr("123")])
        ])
    );
}

#[test]
fn error() {
    assert_eq!(
        TextParser::new(r##"\switch{\exec{114514}}"##).parse(),
        Err(ParseError::new(Loc(9, 13), ParseErrorType::CmdInCmd))
    );
}

#[test]
fn text_lf() {
    assert_eq!(
        TextParser::new(" ").parse().unwrap(),
        Text(vec![SubText::Str(" ".to_string())])
    );
    assert_eq!(
        TextParser::new("  ").parse().unwrap(),
        Text(vec![SubText::Str(" ".to_string())])
    );
    assert_eq!(
        TextParser::new(" \n ").parse().unwrap(),
        Text(vec![SubText::Str(" ".to_string())])
    );
    assert_eq!(
        TextParser::new(" 123 ").parse().unwrap(),
        Text(vec![SubText::Str(" 123 ".to_string())])
    );
    assert_eq!(
        TextParser::new(" \n123\t ").parse().unwrap(),
        Text(vec![SubText::Str(" 123 ".to_string())])
    );
    assert_eq!(
        TextParser::new("123").parse().unwrap(),
        Text(vec![SubText::Str("123".to_string())])
    );

    assert_eq!(parse_markup(" ").unwrap().1, markup(vec![mstr(" ")]));
    assert_eq!(parse_markup("  ").unwrap().1, markup(vec![mstr(" ")]));
    assert_eq!(parse_markup(" \n ").unwrap().1, markup(vec![mstr(" ")]));
    assert_eq!(parse_markup(" 123 ").unwrap().1, markup(vec![mstr(" 123 ")]));
    assert_eq!(parse_markup(" \n123\t ").unwrap().1, markup(vec![mstr(" 123 ")]));
    assert_eq!(parse_markup("123").unwrap().1, markup(vec![mstr("123")]));
}

#[test]
fn character_commands() {
    assert_eq!(
        parse_text("/ch/alias/hello").unwrap(),
        Text(vec![
            SubText::Cmd(Command::Character("ch".to_string(), "alias".to_string())),
            SubText::Str("hello".to_string()),
        ])
    );
    assert_eq!(
        parse_text("///").unwrap(),
        Text(vec![SubText::Cmd(Command::Character(String::new(), String::new()))])
    );
    assert_eq!(
        parse_text("//"),
        Err(ParseError::new(Loc(1, 2), ParseErrorType::IllegalChar('/')))
    );
    assert_eq!(
        parse_text("\\ch{a}{b}\\var{x}\\res{y}").unwrap(),
        Text(vec![
            SubText::Cmd(Command::Character("a".to_string(), "b".to_string())),
            SubText::Cmd(Command::Ctx("x".to_string())),
            SubText::Cmd(Command::Res("y".to_string())),
        ])
    );
    assert_eq!(
        parse_text("\\ch{a}").unwrap(),
        Text(vec![SubText::Cmd(Command::Character("a".to_string(), String::new()))])
    );
}

#[test]
fn parse_errors() {
    assert_eq!(
        parse_text("\\res{a}{b}"),
        Err(ParseError::new(
            Loc(0, 4),
            ParseErrorType::InvalidParamsCount("res".to_string(), 2)
        ))
    );
    assert_eq!(
        parse_text("\\"),
        Err(ParseError::new(Loc(0, 1), ParseErrorType::CmdNotFound))
    );
    assert_eq!(
        parse_text("/a b/"),
        Err(ParseError::new(Loc(0, 1), ParseErrorType::IllegalChar('/')))
    );
    assert_eq!(
        parse_text("/ a/"),
        Err(ParseError::new(Loc(1, 2), ParseErrorType::IllegalSpace))
    );
    assert_eq!(
        parse_text("\\cmd}"),
        Err(ParseError::new(Loc(4, 5), ParseErrorType::IllegalChar('}')))
    );
}

#[test]
fn multibyte_locations() {
    let res = TextLexer::new("é \\x").collect();
    assert_eq!(res.len(), 4);
    assert_eq!(res[0].loc, Loc(0, 2));
    assert_eq!(res[1].loc, Loc(2, 3));
    assert_eq!(res[2].loc, Loc(3, 4));
    assert_eq!(res[3].loc, Loc(4, 5));
    assert_eq!(Loc::from_locs(&[Loc(1, 2), Loc(4, 6), Loc(5, 8)]), Loc(1, 8));
}
