//! The third stage of the text parser: plain strings and commands.

use crate::chars::spec_is_whitespace;
use crate::lexer::{fits_offsets, space_end, TokenView};
use crate::loc::Loc;
use crate::strings::{push_char, str_eq};
use crate::rich_lexer::{
    err_at, lemma_command_view, lemma_rich_all_step, params_view, rich_all, rich_lex, rich_seq_view, RichKind,
    RichToken, RichTokenType, RichView, TextRichLexer,
};
use crate::text_error::{parse_error, ErrKind, ErrView, ParseError, ParseErrorType, ParseResult};
use vstd::prelude::*;

verus! {

broadcast use vstd::string::group_string_axioms;

/// A TeX-like command in the text.
#[derive(Debug, Clone, PartialEq, Eq)]
pub enum Command {
    /// `\ch{}{}`
    ///
    /// Controls the current character.
    Character(String, String),
    /// `\var{}`
    ///
    /// Get the local variables.
    Ctx(String),
    /// `\res{}`
    ///
    /// Get the resource consts.
    Res(String),
    /// Other custom commands.
    Other(String, Vec<String>),
}

/// A part of a line, either some texts or a command.
#[derive(Debug, Clone, PartialEq, Eq)]
pub enum SubText {
    /// Raw texts.
    Str(String),
    /// A command. See [`Command`].
    Cmd(Command),
}

/// A collection of [`SubText`].
#[derive(Debug, Clone, Default, PartialEq, Eq)]
pub struct Text(pub Vec<SubText>);

/// The mathematical view of a [`Command`].
pub enum CommandView {
    Character(Seq<char>, Seq<char>),
    Ctx(Seq<char>),
    Res(Seq<char>),
    Other(Seq<char>, Seq<Seq<char>>),
}

/// The mathematical view of a [`SubText`].
pub enum SubTextView {
    Str(Seq<char>),
    Cmd(CommandView),
}

/// The views of a sequence of strings.
pub open spec fn strings_view(v: Seq<String>) -> Seq<Seq<char>> {
    v.map_values(|s: String| s@)
}

impl View for Command {
    type V = CommandView;

    open spec fn view(&self) -> CommandView {
        match self {
            Command::Character(n, a) => CommandView::Character(n@, a@),
            Command::Ctx(n) => CommandView::Ctx(n@),
            Command::Res(n) => CommandView::Res(n@),
            Command::Other(n, args) => CommandView::Other(n@, strings_view(args@)),
        }
    }
}

impl View for SubText {
    type V = SubTextView;

    open spec fn view(&self) -> SubTextView {
        match self {
            SubText::Str(s) => SubTextView::Str(s@),
            SubText::Cmd(c) => SubTextView::Cmd(c@),
        }
    }
}

/// The views of a sequence of sub-texts.
pub open spec fn sub_texts_view(v: Seq<SubText>) -> Seq<SubTextView> {
    v.map_values(|s: SubText| s@)
}

impl View for Text {
    type V = Seq<SubTextView>;

    open spec fn view(&self) -> Seq<SubTextView> {
        sub_texts_view(self.0@)
    }
}

/// `s` from index `i` on, with every maximal run of white space replaced by one space.
pub open spec fn collapse_from(s: Seq<char>, i: int) -> Seq<char>
    decreases s.len() - i,
{
    if i < 0 || i >= s.len() {
        Seq::empty()
    } else if spec_is_whitespace(s[i]) {
        let j = space_end(s, i);
        if i < j <= s.len() {
            seq![' '] + collapse_from(s, j)
        } else {
            Seq::empty()
        }
    } else {
        seq![s[i]] + collapse_from(s, i + 1)
    }
}

/// `s` with every maximal run of white space replaced by one space.
pub open spec fn collapse_spaces(s: Seq<char>) -> Seq<char> {
    collapse_from(s, 0)
}

/// The view of an optional string.
pub open spec fn opt_string_view(o: Option<String>) -> Option<Seq<char>> {
    match o {
        Some(s) => Some(s@),
        None => None,
    }
}

/// What `regex::Regex::new(pattern)` followed by `replace_all(text, rep)` returns;
/// `None` when the pattern does not compile.
pub uninterp spec fn regex_replace_all(pattern: Seq<char>, text: Seq<char>, rep: Seq<char>) -> Option<
    Seq<char>,
>;

/// Compiles `pattern` with `regex::Regex::new` and replaces every match in
/// `text` by `rep` with `Regex::replace_all`.
///
/// Trusted: the result is a function of the three strings. For the pattern
/// `(\s+)` and the replacement `" "` it is the text with each maximal run of
/// white space replaced by one space: the crate's `\s` is the Unicode
/// `White_Space` property, `+` is greedy and matches are leftmost and
/// non-overlapping, and `" "` holds no `$` group reference.
#[verifier::external_body]
fn replace_all_regex(pattern: &str, text: &str, rep: &str) -> (res: Option<String>)
    ensures
        opt_string_view(res) == regex_replace_all(pattern@, text@, rep@),
        pattern@ == "(\\s+)"@ && rep@ == " "@ ==> opt_string_view(res) == Some(
            collapse_spaces(text@),
        ),
{
    match regex::Regex::new(pattern) {
        Ok(re) => Some(re.replace_all(text, rep).into_owned()),
        Err(_) => None,
    }
}

/// Replaces each run of white space in `s` by one space.
fn collapse_whitespace(s: &String) -> (r: String)
    ensures
        r@ == collapse_spaces(s@),
{
    match replace_all_regex("(\\s+)", s.as_str(), " ") {
        Some(r) => r,
        None => {
            proof {
                assert(false);
            }
            String::new()
        },
    }
}

/// The characters of the tokens of a parameter, from index `i` on, after `acc`;
/// a character marker or a command inside is an error.
pub open spec fn concat_from(toks: Seq<RichView>, i: int, acc: Seq<char>) -> Result<
    Seq<char>,
    ErrView,
>
    decreases toks.len() - i,
{
    if i < 0 || i >= toks.len() {
        Ok(acc)
    } else {
        match toks[i].kind {
            RichKind::Char(c) => concat_from(toks, i + 1, acc.push(c)),
            RichKind::Text(s) => concat_from(toks, i + 1, acc + s),
            RichKind::Character(_, _) => Err(err_at(toks[i].loc, ErrKind::CmdInCmd)),
            RichKind::Command(_, _) => Err(err_at(toks[i].loc, ErrKind::CmdInCmd)),
        }
    }
}

/// The characters of the tokens of a parameter.
pub open spec fn spec_concat(toks: Seq<RichView>) -> Result<Seq<char>, ErrView> {
    concat_from(toks, 0, Seq::empty())
}

/// The error for a parameter count out of `[min, max]`.
pub open spec fn spec_check_count(count: usize, min: usize, max: usize, loc: Loc, name: Seq<char>) -> Result<
    (),
    ErrView,
> {
    if count < min || count > max {
        Err(err_at(loc, ErrKind::InvalidParamsCount(name, count)))
    } else {
        Ok(())
    }
}

/// The arguments of a custom command, from parameter `i` on, after `acc`.
pub open spec fn concat_all(params: Seq<Seq<RichView>>, i: int, acc: Seq<Seq<char>>) -> Result<
    Seq<Seq<char>>,
    ErrView,
>
    decreases params.len() - i,
{
    if i < 0 || i >= params.len() {
        Ok(acc)
    } else {
        match spec_concat(params[i]) {
            Err(e) => Err(e),
            Ok(a) => concat_all(params, i + 1, acc.push(a)),
        }
    }
}

/// The sub-text of a command `name` with parameters `params` at `loc`:
/// `ch` takes one or two parameters, `res` and `var` take one, others any.
pub open spec fn spec_command(loc: Loc, name: Seq<char>, params: Seq<Seq<RichView>>) -> Result<
    SubTextView,
    ErrView,
> {
    let count = params.len() as usize;
    if name == seq!['c', 'h'] {
        if count < 1 || count > 2 {
            Err(err_at(loc, ErrKind::InvalidParamsCount(name, count)))
        } else {
            match spec_concat(params[0]) {
                Err(e) => Err(e),
                Ok(ch) => match spec_concat(if count > 1 { params[1] } else { Seq::empty() }) {
                    Err(e) => Err(e),
                    Ok(alias) => Ok(SubTextView::Cmd(CommandView::Character(ch, alias))),
                },
            }
        }
    } else if name == seq!['r', 'e', 's'] || name == seq!['v', 'a', 'r'] {
        if count != 1 {
            Err(err_at(loc, ErrKind::InvalidParamsCount(name, count)))
        } else {
            match spec_concat(params[0]) {
                Err(e) => Err(e),
                Ok(v) => Ok(
                    SubTextView::Cmd(
                        if name == seq!['r', 'e', 's'] {
                            CommandView::Res(v)
                        } else {
                            CommandView::Ctx(v)
                        },
                    ),
                ),
            }
        }
    } else {
        match concat_all(params, 0, Seq::empty()) {
            Err(e) => Err(e),
            Ok(args) => Ok(SubTextView::Cmd(CommandView::Other(name, args))),
        }
    }
}

/// The next sub-text of the rich tokens `rs` followed by the error `err`,
/// after the characters `acc` already gathered, and the rich tokens left.
pub open spec fn parse_next_from(rs: Seq<RichView>, err: Option<ErrView>, acc: Seq<char>) -> Result<
    (Option<SubTextView>, Seq<RichView>),
    ErrView,
>
    decreases rs.len(),
{
    if rs.len() == 0 {
        match err {
            Some(e) => Err(e),
            None => if acc.len() > 0 {
                Ok((Some(SubTextView::Str(collapse_spaces(acc))), rs))
            } else {
                Ok((None, rs))
            },
        }
    } else {
        let r = rs[0];
        match r.kind {
            RichKind::Char(c) => parse_next_from(rs.drop_first(), err, acc.push(c)),
            RichKind::Text(s) => parse_next_from(rs.drop_first(), err, acc + s),
            RichKind::Character(n, a) => if acc.len() == 0 {
                Ok((Some(SubTextView::Cmd(CommandView::Character(n, a))), rs.drop_first()))
            } else {
                Ok((Some(SubTextView::Str(collapse_spaces(acc))), rs))
            },
            RichKind::Command(n, ps) => if acc.len() == 0 {
                match spec_command(r.loc, n, ps) {
                    Ok(st) => Ok((Some(st), rs.drop_first())),
                    Err(e) => Err(e),
                }
            } else {
                Ok((Some(SubTextView::Str(collapse_spaces(acc))), rs))
            },
        }
    }
}

/// All sub-texts of the rich tokens `rs` followed by the error `err`.
pub open spec fn parse_all(rs: Seq<RichView>, err: Option<ErrView>) -> Result<
    Seq<SubTextView>,
    ErrView,
>
    decreases rs.len(),
{
    match parse_next_from(rs, err, Seq::empty()) {
        Err(e) => Err(e),
        Ok((None, _)) => Ok(Seq::empty()),
        Ok((Some(st), rest)) => if rest.len() < rs.len() {
            match parse_all(rest, err) {
                Err(e) => Err(e),
                Ok(sts) => Ok(seq![st] + sts),
            }
        } else {
            Ok(seq![st])
        },
    }
}

/// The parse of a whole text: its sub-texts, or the first error.
pub open spec fn spec_parse_text(s: Seq<char>) -> Result<Seq<SubTextView>, ErrView> {
    parse_all(rich_lex(s).0, rich_lex(s).1)
}

/// The view of an optional sub-text.
pub open spec fn opt_sub_text_view(o: Option<SubText>) -> Option<SubTextView> {
    match o {
        Some(s) => Some(s@),
        None => None,
    }
}

proof fn lemma_parse_next_progress(rs: Seq<RichView>, err: Option<ErrView>, acc: Seq<char>)
    ensures
        parse_next_from(rs, err, acc) matches Ok((o, rest)) ==> rest.len() <= rs.len() && (o is None
            ==> rest.len() == 0) && (o is Some && acc.len() == 0 ==> rest.len() < rs.len()),
    decreases rs.len(),
{
    if rs.len() > 0 {
        match rs[0].kind {
            RichKind::Char(c) => lemma_parse_next_progress(rs.drop_first(), err, acc.push(c)),
            RichKind::Text(t) => lemma_parse_next_progress(rs.drop_first(), err, acc + t),
            _ => {},
        }
    }
}

/// The parser of [`Text`].
pub struct TextParser<'a> {
    lexer: TextRichLexer<'a>,
    peeked: Option<ParseResult<RichToken<'a>>>,
}

impl<'a> TextParser<'a> {
    /// The rich tokens still to come, and the error after them (if any).
    pub closed spec fn stream(&self) -> (Seq<RichView>, Option<ErrView>) {
        match self.peeked {
            None => rich_all(self.lexer.pending()),
            Some(Ok(r)) => (seq![r@] + rich_all(self.lexer.pending()).0, rich_all(self.lexer.pending()).1),
            Some(Err(e)) => (Seq::empty(), Some(e@)),
        }
    }

    /// The parser's internal consistency.
    pub closed spec fn wf(&self) -> bool {
        &&& self.lexer.wf()
        &&& self.peeked matches Some(Err(_)) ==> self.lexer.pending() == Seq::<TokenView>::empty()
    }

    /// The sub-texts still to come, or the first error.
    pub open spec fn remaining(&self) -> Result<Seq<SubTextView>, ErrView> {
        parse_all(self.stream().0, self.stream().1)
    }

    /// Create a new [`TextParser`] from a string.
    pub fn new(text: &'a str) -> (p: Self)
        requires
            fits_offsets(text@),
        ensures
            p.wf(),
            p.stream() == rich_lex(text@),
    {
        Self { lexer: TextRichLexer::new(text), peeked: None }
    }

    /// Makes the next rich token (or error) available in `peeked`.
    fn fill(&mut self)
        requires
            old(self).wf(),
        ensures
            final(self).wf(),
            final(self).stream() == old(self).stream(),
            final(self).peeked is None ==> final(self).stream().0.len() == 0
                && final(self).stream().1 is None,
    {
        if self.peeked.is_none() {
            proof {
                lemma_rich_all_step(self.lexer.pending());
            }
            self.peeked = self.lexer.next();
        }
    }

    fn concat_params(toks: &Vec<RichToken<'a>>) -> (res: ParseResult<String>)
        ensures
            match spec_concat(rich_seq_view(toks@)) {
                Ok(s) => res matches Ok(r) && r@ == s,
                Err(e) => res matches Err(er) && er@ == e,
            },
    {
        let ghost tv = rich_seq_view(toks@);
        let mut str = String::new();
        let mut i: usize = 0;
        while i < toks.len()
            invariant
                tv == rich_seq_view(toks@),
                i <= toks@.len(),
                concat_from(tv, i as int, str@) == spec_concat(tv),
            decreases toks@.len() - i,
        {
            let tok = &toks[i];
            match &tok.tok {
                RichTokenType::Char(c) => push_char(&mut str, *c),
                RichTokenType::Text(s) => str.append(s),
                RichTokenType::Character(_, _) => {
                    return parse_error(tok.loc, ParseErrorType::CmdInCmd);
                },
                RichTokenType::Command(_, _) => {
                    return parse_error(tok.loc, ParseErrorType::CmdInCmd);
                },
            }
            i = i + 1;
        }
        Ok(str)
    }

    fn check_params_count(count: usize, min: usize, max: usize, loc: Loc, name: &str) -> (res:
        ParseResult<()>)
        ensures
            match spec_check_count(count, min, max, loc, name@) {
                Ok(()) => res is Ok,
                Err(e) => res matches Err(er) && er@ == e,
            },
    {
        if count < min || count > max {
            parse_error(loc, ParseErrorType::InvalidParamsCount(name.to_string(), count))
        } else {
            Ok(())
        }
    }

    fn parse_command(loc: Loc, name: &str, params: &Vec<Vec<RichToken<'a>>>) -> (res: ParseResult<
        SubText,
    >)
        ensures
            match spec_command(loc, name@, params_view(params@)) {
                Ok(st) => res matches Ok(r) && r@ == st,
                Err(e) => res matches Err(er) && er@ == e,
            },
    {
        let params_count = params.len();
        proof {
            reveal_strlit("ch");
            reveal_strlit("res");
            reveal_strlit("var");
            assert("ch"@ =~= seq!['c', 'h']);
            assert("res"@ =~= seq!['r', 'e', 's']);
            assert("var"@ =~= seq!['v', 'a', 'r']);
        }
        let cmd = if str_eq(name, "ch") {
            Self::check_params_count(params_count, 1, 2, loc, name)?;
            let ch = Self::concat_params(&params[0])?;
            let empty: Vec<RichToken<'a>> = Vec::new();
            assert(rich_seq_view(empty@) =~= Seq::<RichView>::empty());
            let alias = Self::concat_params(
                if params_count > 1 {
                    &params[1]
                } else {
                    &empty
                },
            )?;
            Command::Character(ch, alias)
        } else if str_eq(name, "res") {
            Self::check_params_count(params_count, 1, 1, loc, name)?;
            Command::Res(Self::concat_params(&params[0])?)
        } else if str_eq(name, "var") {
            Self::check_params_count(params_count, 1, 1, loc, name)?;
            Command::Ctx(Self::concat_params(&params[0])?)
        } else {
            let ghost pv = params_view(params@);
            let mut args: Vec<String> = Vec::new();
            assert(strings_view(args@) =~= Seq::<Seq<char>>::empty());
            let mut i: usize = 0;
            while i < params_count
                invariant
                    pv == params_view(params@),
                    params_count == params@.len(),
                    name@ != seq!['c', 'h'],
                    name@ != seq!['r', 'e', 's'],
                    name@ != seq!['v', 'a', 'r'],
                    i <= params_count,
                    concat_all(pv, i as int, strings_view(args@)) == concat_all(pv, 0, Seq::empty()),
                decreases params_count - i,
            {
                let a = Self::concat_params(&params[i])?;
                let ghost prev = strings_view(args@);
                args.push(a);
                assert(strings_view(args@) =~= prev.push(a@));
                i = i + 1;
            }
            Command::Other(name.to_string(), args)
        };
        Ok(SubText::Cmd(cmd))
    }

    fn parse_next(&mut self) -> (res: ParseResult<Option<SubText>>)
        requires
            old(self).wf(),
        ensures
            final(self).wf(),
            match parse_next_from(old(self).stream().0, old(self).stream().1, Seq::empty()) {
                Ok((o, rest)) => res matches Ok(x) && opt_sub_text_view(x) == o
                    && final(self).stream() == (rest, old(self).stream().1),
                Err(e) => res matches Err(er) && er@ == e,
            },
    {
        let ghost target = parse_next_from(old(self).stream().0, old(self).stream().1, Seq::empty());
        let ghost err = old(self).stream().1;
        let mut str = String::new();
        loop
            invariant
                self.wf(),
                self.stream().1 == err,
                parse_next_from(self.stream().0, err, str@) == target,
                target == parse_next_from(old(self).stream().0, old(self).stream().1, Seq::empty()),
                err == old(self).stream().1,
            ensures
                self.wf(),
                self.stream().1 == err,
                target == (if str@.len() > 0 {
                    Ok::<(Option<SubTextView>, Seq<RichView>), ErrView>(
                        (Some(SubTextView::Str(collapse_spaces(str@))), self.stream().0),
                    )
                } else {
                    Ok::<(Option<SubTextView>, Seq<RichView>), ErrView>((None, self.stream().0))
                }),
            decreases self.stream().0.len(),
        {
            self.fill();
            let ghost rs = self.stream().0;
            let ghost acc = str@;
            if let Some(Err(_)) = &self.peeked {
                let p = self.peeked.take();
                match p {
                    Some(Err(e)) => {
                        return Err(e);
                    },
                    _ => {
                        proof {
                            assert(false);
                        }
                        return Ok(None);
                    },
                }
            }
            match &self.peeked {
                None => {
                    break;
                },
                Some(Err(_)) => {
                    proof {
                        assert(false);
                    }
                    return Ok(None);
                },
                Some(Ok(tok)) => {
                    match &tok.tok {
                        RichTokenType::Char(c) => {
                            let c = *c;
                            push_char(&mut str, c);
                            self.peeked = None;
                            assert(self.stream().0 =~= rs.drop_first());
                        },
                        RichTokenType::Text(t) => {
                            let t: &'a str = *t;
                            str.append(t);
                            self.peeked = None;
                            assert(self.stream().0 =~= rs.drop_first());
                        },
                        RichTokenType::Character(name, alias) => {
                            if str.as_str().is_empty() {
                                let name: &'a str = *name;
                                let alias: &'a str = *alias;
                                let n = name.to_string();
                                let a = alias.to_string();
                                self.peeked = None;
                                assert(self.stream().0 =~= rs.drop_first());
                                return Ok(Some(SubText::Cmd(Command::Character(n, a))));
                            } else {
                                break;
                            }
                        },
                        RichTokenType::Command(name, params) => {
                            if str.as_str().is_empty() {
                                proof {
                                    lemma_command_view(*tok);
                                }
                                let res = Self::parse_command(tok.loc, name, params)?;
                                self.peeked = None;
                                assert(self.stream().0 =~= rs.drop_first());
                                return Ok(Some(res));
                            } else {
                                break;
                            }
                        },
                    }
                },
            }
        }
        if !str.as_str().is_empty() {
            Ok(Some(SubText::Str(collapse_whitespace(&str))))
        } else {
            Ok(None)
        }
    }

    /// Reads the next sub-text, or the first error.
    pub fn next(&mut self) -> (res: Option<ParseResult<SubText>>)
        requires
            old(self).wf(),
        ensures
            final(self).wf(),
            match parse_next_from(old(self).stream().0, old(self).stream().1, Seq::empty()) {
                Ok((Some(st), rest)) => res matches Some(Ok(x)) && x@ == st && final(self).stream()
                    == (rest, old(self).stream().1),
                Ok((None, _)) => res is None,
                Err(e) => res matches Some(Err(er)) && er@ == e,
            },
    {
        match self.parse_next() {
            Ok(Some(res)) => Some(Ok(res)),
            Ok(None) => None,
            Err(e) => Some(Err(e)),
        }
    }

    /// Parse into [`Text`].
    pub fn parse(self) -> (res: ParseResult<Text>)
        requires
            self.wf(),
        ensures
            match self.remaining() {
                Ok(sts) => res matches Ok(t) && t@ == sts,
                Err(e) => res matches Err(er) && er@ == e,
            },
    {
        let ghost all = self.remaining();
        let mut parser = self;
        let mut subs: Vec<SubText> = Vec::new();
        let mut failure: Option<ParseError> = None;
        assert(sub_texts_view(subs@) =~= Seq::<SubTextView>::empty());
        loop
            invariant_except_break
                failure is None,
                match parser.remaining() {
                    Ok(rest) => all == Ok::<Seq<SubTextView>, ErrView>(sub_texts_view(subs@) + rest),
                    Err(e) => all == Err::<Seq<SubTextView>, ErrView>(e),
                },
            invariant
                parser.wf(),
            ensures
                match failure {
                    None => all == Ok::<Seq<SubTextView>, ErrView>(sub_texts_view(subs@)),
                    Some(e) => all == Err::<Seq<SubTextView>, ErrView>(e@),
                },
            decreases parser.stream().0.len(),
        {
            let ghost rs = parser.stream().0;
            let ghost err = parser.stream().1;
            let ghost prev = sub_texts_view(subs@);
            proof {
                lemma_parse_next_progress(rs, err, Seq::empty());
            }
            match parser.parse_next() {
                Ok(Some(st)) => {
                    subs.push(st);
                    assert(sub_texts_view(subs@) =~= prev.push(st@));
                    proof {
                        match parser.remaining() {
                            Ok(rest) => {
                                assert(prev.push(st@) + rest =~= prev + (seq![st@] + rest));
                            },
                            Err(_) => {},
                        }
                    }
                },
                Ok(None) => {
                    assert(prev + Seq::<SubTextView>::empty() =~= prev);
                    break;
                },
                Err(e) => {
                    failure = Some(e);
                    break;
                },
            }
        }
        match failure {
            None => Ok(Text(subs)),
            Some(e) => Err(e),
        }
    }
}

/// Parses a whole text into [`Text`].
pub fn parse_text(text: &str) -> (res: ParseResult<Text>)
    requires
        fits_offsets(text@),
    ensures
        match spec_parse_text(text@) {
            Ok(sts) => res matches Ok(t) && t@ == sts,
            Err(e) => res matches Err(er) && er@ == e,
        },
{
    TextParser::new(text).parse()
}

} // verus!
