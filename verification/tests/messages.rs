use ayaka::context::{rich_error, rich_error_with_widths};
use ayaka::report::{check_text_report, parse_text_report};
use ayaka::loc::Loc;
use ayaka::parser::TextParser;
use ayaka::text_error::{ParseError, ParseErrorType};

#[test]
fn error_messages() {
    assert_eq!(
        ParseErrorType::IllegalChar('/').to_string(),
        "Illegal char \"/\"."
    );
    assert_eq!(
        ParseErrorType::IllegalChar('\n').to_string(),
        "Illegal char \"\\n\"."
    );
    assert_eq!(
        ParseErrorType::IllegalChar('é').to_string(),
        "Illegal char \"\\u{e9}\"."
    );
    assert_eq!(
        ParseErrorType::IllegalChar('"').to_string(),
        format!("Illegal char \"{}\".", '"'.escape_default())
    );
    assert_eq!(ParseErrorType::IllegalSpace.to_string(), "Illegal space.");
    assert_eq!(
        ParseErrorType::CmdNotFound.to_string(),
        "Command not found after \"\\\"."
    );
    assert_eq!(
        ParseErrorType::CmdInCmd.to_string(),
        "Embedded command is not supported."
    );
    assert_eq!(
        ParseErrorType::InvalidParamsCount("r\té".to_string(), 12).to_string(),
        format!("Invalid params count 12 for \"{}\"", "r\té".escape_default())
    );
    assert_eq!(
        ParseErrorType::InvalidProgram("bad".to_string()).to_string(),
        "Program parse error: bad"
    );
    assert_eq!(
        ParseError::new(Loc(0, 1), ParseErrorType::CmdInCmd).to_string(),
        "Embedded command is not supported."
    );
}

#[test]
fn rich_error_marks_the_error() {
    let text = r##"\switch{\exec{114514}}"##;
    let e = TextParser::new(text).parse().unwrap_err();
    assert_eq!(e.loc(), Loc(9, 13));
    let msg = rich_error(text, &e, Some("intro"), 0);
    assert_eq!(
        msg,
        format!(
            "Parse error on paragraph \"intro\", act 1:\n    {}\n    {}^^^^\nEmbedded command is not supported.\n",
            text,
            " ".repeat(9)
        )
    );
}

#[test]
fn rich_error_context_and_widths() {
    let text = "0123456789012345678901234567890\\x}abcdefghijklmnopqrstuvwxyz";
    let e = ParseError::new(Loc(33, 34), ParseErrorType::IllegalChar('}'));
    let msg = rich_error_with_widths(text, &e, None, 4, 3, 2);
    assert_eq!(
        msg,
        format!(
            "Parse error on paragraph \"\", act 5:\n    {}\n       ^^\nIllegal char \"}}\".\n",
            &text[13..54]
        )
    );
    let msg = rich_error(text, &e, Some("t\"x"), 4);
    assert!(msg.starts_with("Parse error on paragraph \"t\\\"x\", act 5:\n"));
    assert!(msg.contains(&format!("\n    {}^\n", " ".repeat(20))));
}

#[test]
fn rich_error_rounds_to_characters() {
    let text = "日本}語";
    let e = ParseError::new(Loc(4, 7), ParseErrorType::IllegalChar('}'));
    let msg = rich_error(text, &e, None, 0);
    assert_eq!(
        msg,
        format!(
            "Parse error on paragraph \"\", act 1:\n    日本}}語\n    {}^^^\nIllegal char \"}}\".\n",
            " ".repeat(2)
        )
    );
}

#[test]
fn text_report_gives_text_or_marked_error() {
    let ok = parse_text_report("hello \\switch{a}", Some("intro"), 0).unwrap();
    assert_eq!(ok, TextParser::new("hello \\switch{a}").parse().unwrap());
    assert_eq!(check_text_report("hello", None, 3), None);

    let text = r##"\switch{\exec{114514}}"##;
    let expected = format!(
        "Parse error on paragraph \"intro\", act 1:\n    {}\n    {}^^^^\nEmbedded command is not supported.\n",
        text,
        " ".repeat(9)
    );
    assert_eq!(parse_text_report(text, Some("intro"), 0).unwrap_err(), expected);
    assert_eq!(check_text_report(text, Some("intro"), 0), Some(expected));
}

#[test]
fn parse_errors_point_into_the_text() {
    let mut errors = 0;
    for text in ["/", "//", "/ch", "/ch/", "\\", "\\cmd{", "\\cmd{a", "a}b", "\\a{\\b{}}", "日本/"] {
        if let Err(e) = TextParser::new(text).parse() {
            errors += 1;
            let loc = e.loc();
            assert!(loc.0 <= loc.1, "{:?} in {:?}", loc, text);
            assert!(loc.1 <= 4 * text.chars().count() + 2, "{:?} in {:?}", loc, text);
        }
    }
    assert!(errors >= 4);
}
