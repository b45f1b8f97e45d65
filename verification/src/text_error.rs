//! Errors of the text parser.

use crate::loc::Loc;
use crate::raw_value::{nat_decimal, nat_to_string};
use crate::strings::{escape_char, escape_str, push_escaped_char, push_escaped_str};
use vstd::prelude::*;

verus! {

broadcast use vstd::string::group_string_axioms;

/// The type of [`ParseError`].
#[derive(Debug, PartialEq, Eq)]
pub enum ParseErrorType {
    /// Illegal char.
    /// Usually unexcepted char after `\`,
    /// or redundant `/`.
    IllegalChar(char),
    /// Illegal space.
    /// The name in `\ch` command cannot contain spaces.
    IllegalSpace,
    /// No command name found after `\`.
    CmdNotFound,
    /// We don't support embedded command inside parameters.
    CmdInCmd,
    /// The builtin commands check the parameters count.
    InvalidParamsCount(String, usize),
    /// An error occurred when parsing a program.
    InvalidProgram(String),
}

/// The error when parsing a text.
#[derive(Debug, PartialEq, Eq)]
pub struct ParseError {
    loc: Loc,
    err: ParseErrorType,
}

/// The mathematical kind of a parse error.
pub enum ErrKind {
    IllegalChar(char),
    IllegalSpace,
    CmdNotFound,
    CmdInCmd,
    InvalidParamsCount(Seq<char>, usize),
    InvalidProgram(Seq<char>),
}

/// The mathematical view of a [`ParseError`].
pub struct ErrView {
    pub loc: Loc,
    pub kind: ErrKind,
}

impl View for ParseErrorType {
    type V = ErrKind;

    open spec fn view(&self) -> ErrKind {
        match self {
            ParseErrorType::IllegalChar(c) => ErrKind::IllegalChar(*c),
            ParseErrorType::IllegalSpace => ErrKind::IllegalSpace,
            ParseErrorType::CmdNotFound => ErrKind::CmdNotFound,
            ParseErrorType::CmdInCmd => ErrKind::CmdInCmd,
            ParseErrorType::InvalidParamsCount(n, c) => ErrKind::InvalidParamsCount(n@, *c),
            ParseErrorType::InvalidProgram(e) => ErrKind::InvalidProgram(e@),
        }
    }
}

impl View for ParseError {
    type V = ErrView;

    closed spec fn view(&self) -> ErrView {
        ErrView { loc: self.loc, kind: self.err@ }
    }
}

impl ParseError {
    /// Creates an error at `loc`.
    pub fn new(loc: Loc, err: ParseErrorType) -> (e: Self)
        ensures
            e@ == (ErrView { loc, kind: err@ }),
    {
        Self { loc, err }
    }

    /// The error location.
    pub fn loc(&self) -> (l: Loc)
        ensures
            l == self@.loc,
    {
        self.loc
    }

    /// The error type.
    pub fn error(&self) -> (e: &ParseErrorType)
        ensures
            e@ == self@.kind,
    {
        &self.err
    }
}

/// The [`Result`] when parsing a text.
pub type ParseResult<T> = Result<T, ParseError>;

/// An error result at `loc`.
pub fn parse_error<T>(loc: Loc, err: ParseErrorType) -> (r: ParseResult<T>)
    ensures
        r matches Err(e) && e@ == (ErrView { loc, kind: err@ }),
{
    Err(ParseError::new(loc, err))
}

/// The message of an error, as `Display` writes it.
pub open spec fn error_message(k: ErrKind) -> Seq<char> {
    match k {
        ErrKind::IllegalChar(c) => "Illegal char \""@ + escape_char(c) + "\"."@,
        ErrKind::IllegalSpace => "Illegal space."@,
        ErrKind::CmdNotFound => "Command not found after \"\\\"."@,
        ErrKind::CmdInCmd => "Embedded command is not supported."@,
        ErrKind::InvalidParamsCount(name, count) => "Invalid params count "@ + nat_decimal(
            count as nat,
        ) + " for \""@ + escape_str(name) + "\""@,
        ErrKind::InvalidProgram(e) => "Program parse error: "@ + e,
    }
}

impl ParseErrorType {
    /// The message of the error, as `Display` writes it.
    pub fn to_string(&self) -> (s: String)
        ensures
            s@ == error_message(self@),
    {
        let mut out = String::new();
        match self {
            ParseErrorType::IllegalChar(c) => {
                out.append("Illegal char \"");
                push_escaped_char(&mut out, *c);
                out.append("\".");
            },
            ParseErrorType::IllegalSpace => {
                out.append("Illegal space.");
            },
            ParseErrorType::CmdNotFound => {
                out.append("Command not found after \"\\\".");
            },
            ParseErrorType::CmdInCmd => {
                out.append("Embedded command is not supported.");
            },
            ParseErrorType::InvalidParamsCount(name, count) => {
                out.append("Invalid params count ");
                let digits = nat_to_string(*count as u64);
                out.append(digits.as_str());
                out.append(" for \"");
                push_escaped_str(&mut out, name.as_str());
                out.append("\"");
            },
            ParseErrorType::InvalidProgram(e) => {
                out.append("Program parse error: ");
                out.append(e.as_str());
            },
        }
        assert(out@ =~= error_message(self@));
        out
    }
}

impl ParseError {
    /// The message of the error, as `Display` writes it: that of its type.
    pub fn to_string(&self) -> (s: String)
        ensures
            s@ == error_message(self@.kind),
    {
        self.err.to_string()
    }
}

} // verus!
