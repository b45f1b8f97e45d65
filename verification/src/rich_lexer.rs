//! The second stage of the text parser: escapes, commands with their
//! parameters, and character markers `/name/alias/`.

use crate::lexer::{
    fits_offsets, lemma_lex_from_bounds, lemma_lex_from_unfold, lex_all, TextLexer, TokKind,
    Token, TokenType, TokenView,
};
use crate::loc::{join_loc, Loc};
use crate::text_error::{parse_error, ErrKind, ErrView, ParseError, ParseErrorType, ParseResult};
use vstd::prelude::*;

verus! {

broadcast use vstd::string::group_string_axioms;

/// The kind of a [`RichToken`].
#[derive(Debug, PartialEq, Eq)]
pub enum RichTokenType<'a> {
    /// A plain character (a space, or an escaped special character).
    Char(char),
    /// A run of plain text.
    Text(&'a str),
    /// A character marker `/name/alias/`.
    Character(&'a str, &'a str),
    /// A command `\name{param}...` with its parameters.
    Command(&'a str, Vec<Vec<RichToken<'a>>>),
}

/// A token of the second stage, with its location in bytes.
#[derive(Debug, PartialEq, Eq)]
pub struct RichToken<'a> {
    /// Where the token stands.
    pub loc: Loc,
    /// What the token is.
    pub tok: RichTokenType<'a>,
}

/// The mathematical kind of a rich token.
pub enum RichKind {
    Char(char),
    Text(Seq<char>),
    Character(Seq<char>, Seq<char>),
    Command(Seq<char>, Seq<Seq<RichView>>),
}

/// The mathematical view of a [`RichToken`].
pub struct RichView {
    pub loc: Loc,
    pub kind: RichKind,
}

/// The view of a rich token.
pub open spec fn rich_view<'a>(r: RichToken<'a>) -> RichView
    decreases r,
{
    RichView {
        loc: r.loc,
        kind: match r.tok {
            RichTokenType::Char(c) => RichKind::Char(c),
            RichTokenType::Text(s) => RichKind::Text(s@),
            RichTokenType::Character(n, a) => RichKind::Character(n@, a@),
            RichTokenType::Command(n, ps) => RichKind::Command(
                n@,
                Seq::new(
                    ps@.len(),
                    |i: int|
                        Seq::new(
                            ps@[i]@.len(),
                            |j: int|
                                if 0 <= i < ps@.len() && 0 <= j < ps@[i]@.len() {
                                    rich_view(ps@[i]@[j])
                                } else {
                                    RichView { loc: r.loc, kind: RichKind::Char(' ') }
                                },
                        ),
                ),
            ),
        },
    }
}

impl<'a> View for RichToken<'a> {
    type V = RichView;

    open spec fn view(&self) -> RichView {
        rich_view(*self)
    }
}

/// The views of a sequence of rich tokens.
pub open spec fn rich_seq_view<'a>(v: Seq<RichToken<'a>>) -> Seq<RichView> {
    v.map_values(|r: RichToken<'a>| r@)
}

/// The views of command parameters.
pub open spec fn params_view<'a>(ps: Seq<Vec<RichToken<'a>>>) -> Seq<Seq<RichView>> {
    ps.map_values(|p: Vec<RichToken<'a>>| rich_seq_view(p@))
}

impl<'a> RichToken<'a> {
    /// A plain character.
    pub fn char(loc: Loc, c: char) -> (t: Self)
        ensures
            t@ == (RichView { loc, kind: RichKind::Char(c) }),
    {
        Self { loc, tok: RichTokenType::Char(c) }
    }

    /// A run of plain text.
    pub fn text(loc: Loc, s: &'a str) -> (t: Self)
        ensures
            t@ == (RichView { loc, kind: RichKind::Text(s@) }),
    {
        Self { loc, tok: RichTokenType::Text(s) }
    }

    /// A character marker.
    pub fn character(loc: Loc, s: &'a str, a: &'a str) -> (t: Self)
        ensures
            t@ == (RichView { loc, kind: RichKind::Character(s@, a@) }),
    {
        Self { loc, tok: RichTokenType::Character(s, a) }
    }

    /// A command with its parameters.
    pub fn command(loc: Loc, n: &'a str, params: Vec<Vec<RichToken<'a>>>) -> (t: Self)
        ensures
            t@ == (RichView { loc, kind: RichKind::Command(n@, params_view(params@)) }),
    {
        let t = Self { loc, tok: RichTokenType::Command(n, params) };
        proof {
            let ps = params@;
            if let RichKind::Command(_, vs) = t@.kind {
                assert(vs.len() == ps.len());
                assert forall|i: int| 0 <= i < ps.len() implies #[trigger] vs[i] == rich_seq_view(
                    ps[i]@,
                ) by {
                    assert(vs[i] =~= rich_seq_view(ps[i]@));
                }
                assert(vs =~= params_view(ps));
            }
        }
        t
    }
}

/// The view of a command token lists the views of its parameters.
pub proof fn lemma_command_view<'a>(r: RichToken<'a>)
    ensures
        r.tok matches RichTokenType::Command(n, ps) ==> r@.kind == RichKind::Command(
            n@,
            params_view(ps@),
        ),
{
    if let RichTokenType::Command(n, ps) = r.tok {
        if let RichKind::Command(_, vs) = r@.kind {
            assert forall|i: int| 0 <= i < ps@.len() implies #[trigger] vs[i] == rich_seq_view(
                ps@[i]@,
            ) by {
                assert(vs[i] =~= rich_seq_view(ps@[i]@));
            }
            assert(vs =~= params_view(ps@));
        }
    }
}

/// The result of reading one rich token: the token and the tokens left.
pub type RichStep = Result<(RichView, Seq<TokenView>), ErrView>;

/// An error view.
pub open spec fn err_at(loc: Loc, kind: ErrKind) -> ErrView {
    ErrView { loc, kind }
}

/// A location moved by one byte.
pub open spec fn shift_loc(l: Loc) -> Loc {
    Loc((l.0 + 1) as usize, (l.1 + 1) as usize)
}

/// A command view without parameters.
pub open spec fn command_view(loc: Loc, name: Seq<char>, params: Seq<Seq<RichView>>) -> RichView {
    RichView { loc, kind: RichKind::Command(name, params) }
}

/// Reads one name of a character marker, after `prev`: an empty name is a
/// lone `/`, a non-empty one must be followed by `/`.
pub open spec fn char_name(ts: Seq<TokenView>, prev: Loc) -> Result<
    (Seq<char>, Loc, Seq<TokenView>),
    ErrView,
> {
    if ts.len() == 0 {
        Err(err_at(prev, ErrKind::IllegalChar('/')))
    } else {
        let t = ts[0];
        let rest = ts.drop_first();
        match t.kind {
            TokKind::Space => Err(err_at(t.loc, ErrKind::IllegalSpace)),
            TokKind::SpecChar(c) => if c == '/' {
                Ok((Seq::empty(), shift_loc(prev), rest))
            } else {
                Err(err_at(t.loc, ErrKind::IllegalChar(c)))
            },
            TokKind::Text(n) => if n.len() == 0 {
                Ok((n, shift_loc(prev), rest))
            } else if rest.len() > 0 && rest[0].kind == TokKind::SpecChar('/') {
                Ok((n, rest[0].loc, rest.drop_first()))
            } else {
                Err(err_at(prev, ErrKind::IllegalChar('/')))
            },
        }
    }
}

/// Reads a character marker `name/alias/` after the opening `/` at `prev`.
pub open spec fn rich_character(ts: Seq<TokenView>, prev: Loc) -> RichStep {
    match char_name(ts, prev) {
        Err(e) => Err(e),
        Ok((name, mid, r1)) => match char_name(r1, mid) {
            Err(e) => Err(e),
            Ok((alias, last, r2)) => Ok(
                (RichView { loc: join_loc(prev, last), kind: RichKind::Character(name, alias) }, r2),
            ),
        },
    }
}

/// Reads what follows a `\` inside a parameter: an escaped character, never a command.
pub open spec fn param_escape(ts: Seq<TokenView>, prev: Loc) -> RichStep {
    if ts.len() == 0 {
        Err(err_at(prev, ErrKind::CmdNotFound))
    } else {
        let t = ts[0];
        match t.kind {
            TokKind::Space => Ok((RichView { loc: t.loc, kind: RichKind::Char(' ') }, ts.drop_first())),
            TokKind::SpecChar(c) => Ok(
                (RichView { loc: t.loc, kind: RichKind::Char(c) }, ts.drop_first()),
            ),
            TokKind::Text(_) => Err(err_at(t.loc, ErrKind::CmdInCmd)),
        }
    }
}

/// Reads a special character inside a parameter.
pub open spec fn param_spec_char(ts: Seq<TokenView>, loc: Loc, c: char) -> RichStep {
    if c == '\\' {
        param_escape(ts, loc)
    } else if c == '{' || c == '}' {
        Ok((RichView { loc, kind: RichKind::Char(c) }, ts))
    } else if c == '/' {
        rich_character(ts, loc)
    } else {
        Err(err_at(loc, ErrKind::IllegalChar(c)))
    }
}

/// Reads the body of a parameter, after its `{`, at brace depth `depth`,
/// up to the matching `}` (or the end of the tokens).
pub open spec fn param_body(ts: Seq<TokenView>, depth: nat, acc: Seq<RichView>) -> Result<
    (Seq<RichView>, Seq<TokenView>),
    ErrView,
>
    decreases ts.len(),
{
    if ts.len() == 0 {
        Ok((acc, ts))
    } else {
        let t = ts[0];
        let rest = ts.drop_first();
        match t.kind {
            TokKind::Space => param_body(
                rest,
                depth,
                acc.push(RichView { loc: t.loc, kind: RichKind::Char(' ') }),
            ),
            TokKind::Text(s) => param_body(
                rest,
                depth,
                acc.push(RichView { loc: t.loc, kind: RichKind::Text(s) }),
            ),
            TokKind::SpecChar(c) => {
                if c == '}' && depth <= 1 {
                    Ok((acc, rest))
                } else {
                    let d2: nat = if c == '{' {
                        depth + 1
                    } else if c == '}' {
                        (depth - 1) as nat
                    } else {
                        depth
                    };
                    match param_spec_char(rest, t.loc, c) {
                        Err(e) => Err(e),
                        Ok((r, r2)) => if r2.len() < ts.len() {
                            param_body(r2, d2, acc.push(r))
                        } else {
                            Ok((acc.push(r), r2))
                        },
                    }
                }
            },
        }
    }
}

/// Reads the parameters `{...}{...}` of a command.
pub open spec fn params_loop(
    ts: Seq<TokenView>,
    loc: Loc,
    name: Seq<char>,
    acc: Seq<Seq<RichView>>,
) -> RichStep
    decreases ts.len(),
{
    if ts.len() > 0 && ts[0].kind == TokKind::SpecChar('{') {
        match param_body(ts.drop_first(), 1, Seq::empty()) {
            Err(e) => Err(e),
            Ok((p, rest)) => if rest.len() < ts.len() {
                params_loop(rest, loc, name, acc.push(p))
            } else {
                Ok((command_view(loc, name, acc.push(p)), rest))
            },
        }
    } else {
        Ok((command_view(loc, name, acc), ts))
    }
}

/// Reads what follows the name of a command.
pub open spec fn rich_params(ts: Seq<TokenView>, loc: Loc, name: Seq<char>) -> RichStep {
    if ts.len() == 0 {
        Ok((command_view(loc, name, Seq::empty()), ts))
    } else {
        let t = ts[0];
        match t.kind {
            TokKind::Space => Ok((command_view(loc, name, Seq::empty()), ts.drop_first())),
            TokKind::SpecChar(c) => if c == '\\' {
                Ok((command_view(loc, name, Seq::empty()), ts))
            } else if c == '{' {
                params_loop(ts, loc, name, Seq::empty())
            } else {
                Err(err_at(t.loc, ErrKind::IllegalChar(c)))
            },
            TokKind::Text(_) => Err(err_at(t.loc, ErrKind::CmdNotFound)),
        }
    }
}

/// Reads what follows a `\` outside parameters: an escaped character or a command.
pub open spec fn top_escape(ts: Seq<TokenView>, prev: Loc) -> RichStep {
    if ts.len() == 0 {
        Err(err_at(prev, ErrKind::CmdNotFound))
    } else {
        let t = ts[0];
        match t.kind {
            TokKind::Space => Ok((RichView { loc: t.loc, kind: RichKind::Char(' ') }, ts.drop_first())),
            TokKind::SpecChar(c) => Ok(
                (RichView { loc: t.loc, kind: RichKind::Char(c) }, ts.drop_first()),
            ),
            TokKind::Text(name) => rich_params(ts.drop_first(), join_loc(prev, t.loc), name),
        }
    }
}

/// Reads a special character outside parameters.
pub open spec fn top_spec_char(ts: Seq<TokenView>, loc: Loc, c: char) -> RichStep {
    if c == '\\' {
        top_escape(ts, loc)
    } else if c == '{' || c == '}' {
        Ok((RichView { loc, kind: RichKind::Char(c) }, ts))
    } else if c == '/' {
        rich_character(ts, loc)
    } else {
        Err(err_at(loc, ErrKind::IllegalChar(c)))
    }
}

/// Reads a special character at parameter depth `depth`.
pub open spec fn spec_char_at(ts: Seq<TokenView>, loc: Loc, c: char, depth: nat) -> RichStep {
    if depth == 0 {
        top_spec_char(ts, loc, c)
    } else {
        param_spec_char(ts, loc, c)
    }
}

/// Reads what follows a `\` at parameter depth `depth`.
pub open spec fn escape_at(ts: Seq<TokenView>, prev: Loc, depth: nat) -> RichStep {
    if depth == 0 {
        top_escape(ts, prev)
    } else {
        param_escape(ts, prev)
    }
}

/// The next rich token of a token stream, if any.
pub open spec fn rich_next(ts: Seq<TokenView>) -> Option<RichStep> {
    if ts.len() == 0 {
        None
    } else {
        let t = ts[0];
        let rest = ts.drop_first();
        match t.kind {
            TokKind::Space => Some(Ok((RichView { loc: t.loc, kind: RichKind::Char(' ') }, rest))),
            TokKind::SpecChar(c) => Some(top_spec_char(rest, t.loc, c)),
            TokKind::Text(s) => Some(Ok((RichView { loc: t.loc, kind: RichKind::Text(s) }, rest))),
        }
    }
}

/// All rich tokens of a token stream, up to the first error (if any).
pub open spec fn rich_all(ts: Seq<TokenView>) -> (Seq<RichView>, Option<ErrView>)
    decreases ts.len(),
{
    match rich_next(ts) {
        None => (Seq::empty(), None),
        Some(Err(e)) => (Seq::empty(), Some(e)),
        Some(Ok((r, rest))) => if rest.len() < ts.len() {
            let (rs, e) = rich_all(rest);
            (seq![r] + rs, e)
        } else {
            (seq![r], None)
        },
    }
}

/// The rich tokens of a text, up to the first error (if any).
pub open spec fn rich_lex(s: Seq<char>) -> (Seq<RichView>, Option<ErrView>) {
    rich_all(lex_all(s))
}

/// An exec result agrees with a spec step when both fail with the same
/// error, or both succeed with the same token and `fin` is what is left.
pub open spec fn step_agrees<'a>(
    res: ParseResult<RichToken<'a>>,
    st: RichStep,
    fin: Seq<TokenView>,
) -> bool {
    match st {
        Ok((rv, rest)) => res matches Ok(r) && r@ == rv && fin == rest,
        Err(e) => res matches Err(er) && er@ == e,
    }
}

proof fn lemma_char_name_len(ts: Seq<TokenView>, prev: Loc)
    ensures
        char_name(ts, prev) matches Ok((_, _, rest)) ==> rest.len() < ts.len(),
{
}

proof fn lemma_rich_character_len(ts: Seq<TokenView>, prev: Loc)
    ensures
        rich_character(ts, prev) matches Ok((_, rest)) ==> rest.len() < ts.len(),
{
    lemma_char_name_len(ts, prev);
    if let Ok((_, mid, r1)) = char_name(ts, prev) {
        lemma_char_name_len(r1, mid);
    }
}

proof fn lemma_param_spec_char_len(ts: Seq<TokenView>, loc: Loc, c: char)
    ensures
        param_spec_char(ts, loc, c) matches Ok((_, rest)) ==> rest.len() <= ts.len(),
{
    lemma_rich_character_len(ts, loc);
}

proof fn lemma_param_body_len(ts: Seq<TokenView>, depth: nat, acc: Seq<RichView>)
    ensures
        param_body(ts, depth, acc) matches Ok((_, rest)) ==> rest.len() <= ts.len(),
    decreases ts.len(),
{
    if ts.len() > 0 {
        let t = ts[0];
        let rest = ts.drop_first();
        match t.kind {
            TokKind::Space => lemma_param_body_len(
                rest,
                depth,
                acc.push(RichView { loc: t.loc, kind: RichKind::Char(' ') }),
            ),
            TokKind::Text(s) => lemma_param_body_len(
                rest,
                depth,
                acc.push(RichView { loc: t.loc, kind: RichKind::Text(s) }),
            ),
            TokKind::SpecChar(c) => {
                if !(c == '}' && depth <= 1) {
                    let d2: nat = if c == '{' {
                        depth + 1
                    } else if c == '}' {
                        (depth - 1) as nat
                    } else {
                        depth
                    };
                    lemma_param_spec_char_len(rest, t.loc, c);
                    if let Ok((r, r2)) = param_spec_char(rest, t.loc, c) {
                        if r2.len() < ts.len() {
                            lemma_param_body_len(r2, d2, acc.push(r));
                        }
                    }
                }
            },
        }
    }
}

proof fn lemma_params_loop_len(
    ts: Seq<TokenView>,
    loc: Loc,
    name: Seq<char>,
    acc: Seq<Seq<RichView>>,
)
    ensures
        params_loop(ts, loc, name, acc) matches Ok((_, rest)) ==> rest.len() <= ts.len(),
    decreases ts.len(),
{
    if ts.len() > 0 && ts[0].kind == TokKind::SpecChar('{') {
        lemma_param_body_len(ts.drop_first(), 1, Seq::empty());
        if let Ok((p, rest)) = param_body(ts.drop_first(), 1, Seq::empty()) {
            if rest.len() < ts.len() {
                lemma_params_loop_len(rest, loc, name, acc.push(p));
            }
        }
    }
}

proof fn lemma_spec_char_at_len(ts: Seq<TokenView>, loc: Loc, c: char, depth: nat)
    ensures
        spec_char_at(ts, loc, c, depth) matches Ok((_, rest)) ==> rest.len() <= ts.len(),
{
    lemma_rich_character_len(ts, loc);
    if ts.len() > 0 {
        lemma_params_loop_len(
            ts.drop_first(),
            join_loc(loc, ts[0].loc),
            ts[0].kind->Text_0,
            Seq::empty(),
        );
    }
}

/// One step of [`rich_all`]: a token read always consumes input.
pub proof fn lemma_rich_all_step(ts: Seq<TokenView>)
    ensures
        match rich_next(ts) {
            None => rich_all(ts) == (Seq::<RichView>::empty(), None::<ErrView>),
            Some(Err(e)) => rich_all(ts) == (Seq::<RichView>::empty(), Some(e)),
            Some(Ok((r, rest))) => rest.len() < ts.len() && rich_all(ts) == (
                seq![r] + rich_all(rest).0,
                rich_all(rest).1,
            ),
        },
{
    if ts.len() > 0 {
        if let TokKind::SpecChar(c) = ts[0].kind {
            lemma_spec_char_at_len(ts.drop_first(), ts[0].loc, c, 0);
        }
    }
}

/// Splits a text into [`RichToken`]s.
///
/// After the first error the lexer yields nothing more.
pub struct TextRichLexer<'a> {
    lexer: TextLexer<'a>,
    peeked: Option<Token<'a>>,
    in_param: usize,
    failed: bool,
}

impl<'a> TextRichLexer<'a> {
    /// The text being split.
    pub closed spec fn text_view(&self) -> Seq<char> {
        self.lexer.text_view()
    }

    /// The tokens of the first stage not read yet.
    pub closed spec fn raw(&self) -> Seq<TokenView> {
        match self.peeked {
            Some(t) => seq![t@] + self.lexer.remaining(),
            None => self.lexer.remaining(),
        }
    }

    /// The current brace depth inside command parameters.
    pub closed spec fn depth(&self) -> nat {
        self.in_param as nat
    }

    /// Whether an error has been reported.
    pub closed spec fn has_failed(&self) -> bool {
        self.failed
    }

    /// The tokens still to be read: none after an error.
    pub open spec fn pending(&self) -> Seq<TokenView> {
        if self.has_failed() {
            Seq::empty()
        } else {
            self.raw()
        }
    }

    /// The consistency that holds inside command parameters too.
    pub closed spec fn core_wf(&self) -> bool {
        &&& self.lexer.wf()
        &&& fits_offsets(self.text_view())
        &&& self.in_param + self.raw().len() <= self.text_view().len()
        &&& forall|k: int|
            0 <= k < self.raw().len() ==> (#[trigger] self.raw()[k]).loc.0 <= 4
                * self.text_view().len() && self.raw()[k].loc.1 <= 4 * self.text_view().len()
    }

    /// The lexer's internal consistency between tokens.
    pub closed spec fn wf(&self) -> bool {
        &&& self.core_wf()
        &&& (!self.failed && self.raw().len() > 0) ==> self.in_param == 0
    }

    /// Creates a rich lexer at the start of `text`.
    pub fn new(text: &'a str) -> (l: Self)
        requires
            fits_offsets(text@),
        ensures
            l.wf(),
            l.text_view() == text@,
            l.pending() == lex_all(text@),
    {
        let lexer = TextLexer::new(text);
        proof {
            lemma_lex_from_bounds(text@, 0);
        }
        Self { lexer, peeked: None, in_param: 0, failed: false }
    }

    /// Consumes the next token of the first stage.
    fn next_tok(&mut self) -> (res: Option<Token<'a>>)
        requires
            old(self).lexer.wf(),
        ensures
            final(self).lexer.wf(),
            final(self).text_view() == old(self).text_view(),
            final(self).in_param == old(self).in_param,
            final(self).failed == old(self).failed,
            old(self).raw().len() == 0 ==> res is None && final(self).raw() == old(self).raw(),
            old(self).raw().len() > 0 ==> (res matches Some(t) && t@ == old(self).raw()[0]
                && final(self).raw() == old(self).raw().drop_first()),
    {
        match self.peeked.take() {
            Some(t) => {
                assert(seq![t@] + self.lexer.remaining() =~= old(self).raw());
                assert((seq![t@] + self.lexer.remaining()).drop_first() =~= self.lexer.remaining());
                Some(t)
            },
            None => {
                proof {
                    lemma_lex_from_unfold(self.lexer.text_view(), self.lexer.position());
                }
                self.lexer.next_token()
            },
        }
    }

    /// Looks at the next token of the first stage, without consuming it.
    fn peek_tok(&mut self) -> (res: Option<Token<'a>>)
        requires
            old(self).lexer.wf(),
        ensures
            final(self).lexer.wf(),
            final(self).text_view() == old(self).text_view(),
            final(self).in_param == old(self).in_param,
            final(self).failed == old(self).failed,
            final(self).raw() == old(self).raw(),
            old(self).raw().len() == 0 ==> res is None,
            old(self).raw().len() > 0 ==> (res matches Some(t) && t@ == old(self).raw()[0]),
    {
        if self.peeked.is_none() {
            proof {
                lemma_lex_from_unfold(self.lexer.text_view(), self.lexer.position());
            }
            self.peeked = self.lexer.next_token();
        }
        self.peeked
    }

    fn parse_character_name(&mut self, prev_loc: Loc) -> (res: ParseResult<(&'a str, Loc)>)
        requires
            old(self).core_wf(),
            prev_loc.0 <= 4 * old(self).text_view().len() + 1,
            prev_loc.1 <= 4 * old(self).text_view().len() + 1,
        ensures
            final(self).core_wf(),
            final(self).text_view() == old(self).text_view(),
            final(self).in_param == old(self).in_param,
            final(self).failed == old(self).failed,
            match char_name(old(self).raw(), prev_loc) {
                Ok((n, l, rest)) => res matches Ok((nm, ll)) && nm@ == n && ll == l
                    && final(self).raw() == rest,
                Err(e) => res matches Err(er) && er@ == e,
            },
            res matches Ok((_, ll)) ==> (ll.0 <= prev_loc.0 + 1 || ll.0 <= 4 * old(
                self,
            ).text_view().len()) && (ll.1 <= prev_loc.1 + 1 || ll.1 <= 4 * old(
                self,
            ).text_view().len()),
    {
        let ghost ts = self.raw();
        let name: &'a str;
        match self.next_tok() {
            Some(tok) => match tok.tok {
                TokenType::Space => {
                    return parse_error(tok.loc, ParseErrorType::IllegalSpace);
                },
                TokenType::SpecChar(c) => {
                    if c == '/' {
                        name = "";
                        proof {
                            reveal_strlit("");
                        }
                    } else {
                        return parse_error(tok.loc, ParseErrorType::IllegalChar(c));
                    }
                },
                TokenType::Text(n) => {
                    name = n;
                },
            },
            None => {
                return parse_error(prev_loc, ParseErrorType::IllegalChar('/'));
            },
        }
        let last_loc = if !name.is_empty() {
            match self.next_tok() {
                Some(tok) => match tok.tok {
                    TokenType::SpecChar(c) => {
                        if c == '/' {
                            tok.loc
                        } else {
                            return parse_error(prev_loc, ParseErrorType::IllegalChar('/'));
                        }
                    },
                    _ => {
                        return parse_error(prev_loc, ParseErrorType::IllegalChar('/'));
                    },
                },
                None => {
                    return parse_error(prev_loc, ParseErrorType::IllegalChar('/'));
                },
            }
        } else {
            Loc(prev_loc.0 + 1, prev_loc.1 + 1)
        };
        Ok((name, last_loc))
    }

    fn parse_character(&mut self, prev_loc: Loc) -> (res: ParseResult<RichToken<'a>>)
        requires
            old(self).core_wf(),
            prev_loc.0 <= 4 * old(self).text_view().len(),
            prev_loc.1 <= 4 * old(self).text_view().len(),
        ensures
            final(self).core_wf(),
            final(self).text_view() == old(self).text_view(),
            final(self).in_param == old(self).in_param,
            final(self).failed == old(self).failed,
            step_agrees(res, rich_character(old(self).raw(), prev_loc), final(self).raw()),
    {
        let (name, mid_loc) = self.parse_character_name(prev_loc)?;
        let (alias, last_loc) = self.parse_character_name(mid_loc)?;
        Ok(RichToken::character(Loc::join(prev_loc, last_loc), name, alias))
    }

    fn parse_spec_char(&mut self, loc: Loc, c: char) -> (res: ParseResult<RichToken<'a>>)
        requires
            old(self).core_wf(),
            loc.0 <= 4 * old(self).text_view().len(),
            loc.1 <= 4 * old(self).text_view().len(),
        ensures
            final(self).core_wf(),
            final(self).text_view() == old(self).text_view(),
            final(self).failed == old(self).failed,
            step_agrees(
                res,
                spec_char_at(old(self).raw(), loc, c, old(self).in_param as nat),
                final(self).raw(),
            ),
            res is Ok ==> (old(self).in_param > 0 ==> final(self).in_param == old(self).in_param),
            res is Ok ==> (old(self).in_param == 0 ==> (final(self).in_param == 0
                || final(self).raw().len() == 0)),
        decreases old(self).raw().len(), 2nat,
    {
        if c == '\\' {
            self.parse_escape_or_command(loc)
        } else if c == '{' || c == '}' {
            Ok(RichToken::char(loc, c))
        } else if c == '/' {
            self.parse_character(loc)
        } else {
            parse_error(loc, ParseErrorType::IllegalChar(c))
        }
    }

    fn parse_escape_or_command(&mut self, prev_loc: Loc) -> (res: ParseResult<RichToken<'a>>)
        requires
            old(self).core_wf(),
            prev_loc.0 <= 4 * old(self).text_view().len(),
            prev_loc.1 <= 4 * old(self).text_view().len(),
        ensures
            final(self).core_wf(),
            final(self).text_view() == old(self).text_view(),
            final(self).failed == old(self).failed,
            step_agrees(
                res,
                escape_at(old(self).raw(), prev_loc, old(self).in_param as nat),
                final(self).raw(),
            ),
            res is Ok ==> (old(self).in_param > 0 ==> final(self).in_param == old(self).in_param),
            res is Ok ==> (old(self).in_param == 0 ==> (final(self).in_param == 0
                || final(self).raw().len() == 0)),
        decreases old(self).raw().len(), 1nat,
    {
        match self.next_tok() {
            Some(tok) => match tok.tok {
                TokenType::Space => Ok(RichToken::char(tok.loc, ' ')),
                TokenType::SpecChar(c) => Ok(RichToken::char(tok.loc, c)),
                TokenType::Text(name) => {
                    if self.in_param > 0 {
                        parse_error(tok.loc, ParseErrorType::CmdInCmd)
                    } else {
                        self.parse_params(Loc::join(prev_loc, tok.loc), name)
                    }
                },
            },
            None => parse_error(prev_loc, ParseErrorType::CmdNotFound),
        }
    }

    fn bare_command(loc: Loc, name: &'a str) -> (t: RichToken<'a>)
        ensures
            t@ == command_view(loc, name@, Seq::empty()),
    {
        let params: Vec<Vec<RichToken<'a>>> = Vec::new();
        assert(params_view(params@) =~= Seq::<Seq<RichView>>::empty());
        RichToken::command(loc, name, params)
    }

    fn parse_params(&mut self, prev_loc: Loc, name: &'a str) -> (res: ParseResult<RichToken<'a>>)
        requires
            old(self).core_wf(),
            old(self).in_param == 0,
            old(self).raw().len() < old(self).text_view().len(),
        ensures
            final(self).core_wf(),
            final(self).text_view() == old(self).text_view(),
            final(self).failed == old(self).failed,
            step_agrees(res, rich_params(old(self).raw(), prev_loc, name@), final(self).raw()),
            res is Ok ==> final(self).in_param == 0 || final(self).raw().len() == 0,
        decreases old(self).raw().len(), 0nat,
    {
        match self.peek_tok() {
            Some(tok) => {
                let loc = tok.loc;
                match tok.tok {
                    TokenType::Space => {
                        self.next_tok();
                        Ok(Self::bare_command(prev_loc, name))
                    },
                    TokenType::SpecChar(c) => {
                        if c == '\\' {
                            Ok(Self::bare_command(prev_loc, name))
                        } else if c == '{' {
                            let ghost target = params_loop(
                                old(self).raw(),
                                prev_loc,
                                name@,
                                Seq::empty(),
                            );
                            let mut params: Vec<Vec<RichToken<'a>>> = Vec::new();
                            assert(params_view(params@) =~= Seq::<Seq<RichView>>::empty());
                            loop
                                invariant
                                    self.core_wf(),
                                    self.text_view() == old(self).text_view(),
                                    self.failed == old(self).failed,
                                    self.raw().len() <= old(self).raw().len(),
                                    self.raw().len() > 0 ==> self.in_param == 0,
                                    rich_params(old(self).raw(), prev_loc, name@) == target,
                                    params_loop(self.raw(), prev_loc, name@, params_view(params@))
                                        == target,
                                ensures
                                    self.core_wf(),
                                    self.text_view() == old(self).text_view(),
                                    self.failed == old(self).failed,
                                    self.raw().len() > 0 ==> self.in_param == 0,
                                    target == Ok::<(RichView, Seq<TokenView>), ErrView>(
                                        (
                                            command_view(prev_loc, name@, params_view(params@)),
                                            self.raw(),
                                        ),
                                    ),
                                decreases self.raw().len(),
                            {
                                let ghost before = self.raw();
                                let next = self.peek_tok();
                                match next {
                                    Some(t) => match t.tok {
                                        TokenType::SpecChar(c2) => {
                                            if c2 == '{' {
                                                self.next_tok();
                                                proof {
                                                    assert(before[0] == t@);
                                                    assert(target == match param_body(self.raw(), 1, Seq::empty()) {
                                                        Err(e) => Err(e),
                                                        Ok((p, rest)) => if rest.len() < before.len() {
                                                            params_loop(rest, prev_loc, name@, params_view(params@).push(p))
                                                        } else {
                                                            Ok((command_view(prev_loc, name@, params_view(params@).push(p)), rest))
                                                        },
                                                    });
                                                    lemma_param_body_len(
                                                        self.raw(),
                                                        1,
                                                        Seq::empty(),
                                                    );
                                                }
                                                let param = self.parse_param()?;
                                                let ghost pv = params_view(params@);
                                                params.push(param);
                                                assert(params_view(params@) =~= pv.push(
                                                    rich_seq_view(param@),
                                                ));
                                            } else {
                                                break;
                                            }
                                        },
                                        _ => {
                                            break;
                                        },
                                    },
                                    None => {
                                        break;
                                    },
                                }
                            }
                            Ok(RichToken::command(prev_loc, name, params))
                        } else {
                            parse_error(loc, ParseErrorType::IllegalChar(c))
                        }
                    },
                    TokenType::Text(_) => parse_error(loc, ParseErrorType::CmdNotFound),
                }
            },
            None => Ok(Self::bare_command(prev_loc, name)),
        }
    }

    fn parse_param(&mut self) -> (res: ParseResult<Vec<RichToken<'a>>>)
        requires
            old(self).core_wf(),
            old(self).in_param == 0,
            old(self).raw().len() < old(self).text_view().len(),
        ensures
            final(self).core_wf(),
            final(self).text_view() == old(self).text_view(),
            final(self).failed == old(self).failed,
            match param_body(old(self).raw(), 1, Seq::empty()) {
                Ok((ps, rest)) => res matches Ok(v) && rich_seq_view(v@) == ps && final(self).raw()
                    == rest && (final(self).in_param == 0 || rest.len() == 0),
                Err(e) => res matches Err(er) && er@ == e,
            },
        decreases old(self).raw().len(), 3nat,
    {
        let ghost target = param_body(old(self).raw(), 1, Seq::empty());
        self.in_param = self.in_param + 1;
        let ghost mut depth: nat = 1;
        let mut tokens: Vec<RichToken<'a>> = Vec::new();
        assert(rich_seq_view(tokens@) =~= Seq::<RichView>::empty());
        loop
            invariant_except_break
                depth >= 1,
                self.raw().len() > 0 ==> self.in_param == depth,
                param_body(self.raw(), depth, rich_seq_view(tokens@)) == target,
            invariant
                self.core_wf(),
                self.text_view() == old(self).text_view(),
                self.failed == old(self).failed,
                self.raw().len() <= old(self).raw().len(),
                target == param_body(old(self).raw(), 1, Seq::empty()),
            ensures
                self.core_wf(),
                self.text_view() == old(self).text_view(),
                self.failed == old(self).failed,
                target == Ok::<(Seq<RichView>, Seq<TokenView>), ErrView>(
                    (rich_seq_view(tokens@), self.raw()),
                ),
                self.in_param == 0 || self.raw().len() == 0,
            decreases self.raw().len(),
        {
            let ghost before = self.raw();
            let ghost acc = rich_seq_view(tokens@);
            let ghost depth0 = depth;
            match self.next_tok() {
                Some(tok) => {
                    match tok.tok {
                        TokenType::Space => {
                            tokens.push(RichToken::char(tok.loc, ' '));
                            assert(rich_seq_view(tokens@) =~= acc.push(
                                RichView { loc: tok.loc, kind: RichKind::Char(' ') },
                            ));
                        },
                        TokenType::SpecChar(c) => {
                            if c == '{' {
                                self.in_param = self.in_param + 1;
                                proof {
                                    depth = depth + 1;
                                }
                            } else if c == '}' {
                                self.in_param = self.in_param - 1;
                                proof {
                                    depth = (depth - 1) as nat;
                                }
                                if self.in_param == 0 {
                                    break;
                                }
                            }
                            proof {
                                lemma_param_spec_char_len(self.raw(), tok.loc, c);
                                assert(before[0] == tok@);
                                assert(self.raw() == before.drop_first());
                                assert(!(c == '}' && depth0 <= 1));
                                assert(depth >= 1);
                                assert(self.in_param as nat == depth);
                                assert(spec_char_at(self.raw(), tok.loc, c, self.in_param as nat)
                                    == param_spec_char(self.raw(), tok.loc, c));
                                assert(target == match param_spec_char(self.raw(), tok.loc, c) {
                                    Err(e) => Err(e),
                                    Ok((r, r2)) => if r2.len() < before.len() {
                                        param_body(r2, depth, acc.push(r))
                                    } else {
                                        Ok((acc.push(r), r2))
                                    },
                                });
                            }
                            let r = self.parse_spec_char(tok.loc, c)?;
                            tokens.push(r);
                            assert(rich_seq_view(tokens@) =~= acc.push(r@));
                        },
                        TokenType::Text(s) => {
                            tokens.push(RichToken::text(tok.loc, s));
                            assert(rich_seq_view(tokens@) =~= acc.push(
                                RichView { loc: tok.loc, kind: RichKind::Text(s@) },
                            ));
                        },
                    }
                },
                None => {
                    break;
                },
            }
        }
        Ok(tokens)
    }

    /// Reads the next rich token; after an error nothing more is read.
    pub fn next(&mut self) -> (res: Option<ParseResult<RichToken<'a>>>)
        requires
            old(self).wf(),
        ensures
            final(self).wf(),
            final(self).text_view() == old(self).text_view(),
            match rich_next(old(self).pending()) {
                None => res is None && final(self).pending() == old(self).pending(),
                Some(Ok((rv, rest))) => res matches Some(Ok(r)) && r@ == rv && final(self).pending()
                    == rest,
                Some(Err(e)) => res matches Some(Err(er)) && er@ == e && final(self).pending()
                    == Seq::<TokenView>::empty(),
            },
    {
        if self.failed {
            return None;
        }
        let ghost ts = self.raw();
        match self.next_tok() {
            Some(tok) => match tok.tok {
                TokenType::Space => Some(Ok(RichToken::char(tok.loc, ' '))),
                TokenType::SpecChar(c) => {
                    let r = self.parse_spec_char(tok.loc, c);
                    if r.is_err() {
                        self.failed = true;
                    }
                    Some(r)
                },
                TokenType::Text(s) => Some(Ok(RichToken::text(tok.loc, s))),
            },
            None => None,
        }
    }

    /// Reads all rich tokens, stopping at the first error.
    pub fn try_collect(self) -> (res: ParseResult<Vec<RichToken<'a>>>)
        requires
            self.wf(),
        ensures
            match rich_all(self.pending()) {
                (rs, None) => res matches Ok(v) && rich_seq_view(v@) == rs,
                (_, Some(e)) => res matches Err(er) && er@ == e,
            },
    {
        let ghost all = rich_all(self.pending());
        let mut lexer = self;
        let mut v: Vec<RichToken<'a>> = Vec::new();
        let mut failure: Option<ParseError> = None;
        loop
            invariant_except_break
                failure is None,
                all.1 == rich_all(lexer.pending()).1,
                all.0 == rich_seq_view(v@) + rich_all(lexer.pending()).0,
            invariant
                lexer.wf(),
            ensures
                match failure {
                    None => all.1 is None && all.0 == rich_seq_view(v@),
                    Some(e) => all.1 == Some(e@),
                },
            decreases lexer.pending().len(),
        {
            let ghost before = lexer.pending();
            let ghost prev = rich_seq_view(v@);
            match lexer.next() {
                None => {
                    assert(rich_all(before).0 =~= Seq::<RichView>::empty());
                    assert(all.0 =~= rich_seq_view(v@));
                    break;
                },
                Some(Err(e)) => {
                    failure = Some(e);
                    break;
                },
                Some(Ok(r)) => {
                    proof {
                        lemma_spec_char_at_len(before.drop_first(), before[0].loc, before[0].kind->SpecChar_0, 0);
                        assert(lexer.pending().len() < before.len());
                        assert(rich_all(before).0 == seq![r@] + rich_all(lexer.pending()).0);
                    }
                    v.push(r);
                    assert(rich_seq_view(v@) =~= prev.push(r@));
                    assert(prev.push(r@) + rich_all(lexer.pending()).0 =~= prev + (seq![r@]
                        + rich_all(lexer.pending()).0));
                },
            }
        }
        match failure {
            None => Ok(v),
            Some(e) => Err(e),
        }
    }
}

} // verus!
