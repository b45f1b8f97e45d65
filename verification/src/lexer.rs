//! The first stage of the text parser: splitting a text into spaces,
//! special characters and plain runs.

use crate::chars::{
    byte_len, byte_offset, is_special_char, is_whitespace, len_utf8, lemma_byte_offset_bound,
    lemma_byte_offset_step, spec_is_special_char, spec_is_whitespace,
};
use crate::loc::Loc;
use vstd::prelude::*;

verus! {

broadcast use vstd::string::group_string_axioms;

/// The kind of a [`Token`].
#[derive(Debug, Clone, Copy, PartialEq, Eq)]
pub enum TokenType<'a> {
    /// A run of white space.
    Space,
    /// One of the special characters `\`, `{`, `}`, `/`.
    SpecChar(char),
    /// A run of other characters.
    Text(&'a str),
}

/// A token with its location in bytes.
#[derive(Debug, Clone, Copy, PartialEq, Eq)]
pub struct Token<'a> {
    /// Where the token stands.
    pub loc: Loc,
    /// What the token is.
    pub tok: TokenType<'a>,
}

/// The mathematical kind of a token, with the text of a run as characters.
pub enum TokKind {
    Space,
    SpecChar(char),
    Text(Seq<char>),
}

/// The mathematical view of a [`Token`].
pub struct TokenView {
    pub loc: Loc,
    pub kind: TokKind,
}

impl<'a> View for TokenType<'a> {
    type V = TokKind;

    open spec fn view(&self) -> TokKind {
        match self {
            TokenType::Space => TokKind::Space,
            TokenType::SpecChar(c) => TokKind::SpecChar(*c),
            TokenType::Text(s) => TokKind::Text(s@),
        }
    }
}

impl<'a> View for Token<'a> {
    type V = TokenView;

    open spec fn view(&self) -> TokenView {
        TokenView { loc: self.loc, kind: self.tok@ }
    }
}

impl<'a> Token<'a> {
    /// A space token.
    pub fn space(loc: Loc) -> (t: Self)
        ensures
            t@ == (TokenView { loc, kind: TokKind::Space }),
    {
        Self { loc, tok: TokenType::Space }
    }

    /// A special character token.
    pub fn spec_char(loc: Loc, c: char) -> (t: Self)
        ensures
            t@ == (TokenView { loc, kind: TokKind::SpecChar(c) }),
    {
        Self { loc, tok: TokenType::SpecChar(c) }
    }

    /// A plain text token.
    pub fn text(loc: Loc, s: &'a str) -> (t: Self)
        ensures
            t@ == (TokenView { loc, kind: TokKind::Text(s@) }),
    {
        Self { loc, tok: TokenType::Text(s) }
    }
}

/// A text whose byte offsets, even shifted by a few bytes, fit in `usize`.
pub open spec fn fits_offsets(s: Seq<char>) -> bool {
    4 * s.len() + 8 <= usize::MAX
}

/// End of the white space run that starts at `i`.
pub open spec fn space_end(s: Seq<char>, i: int) -> int
    decreases s.len() - i,
{
    if 0 <= i < s.len() && spec_is_whitespace(s[i]) {
        space_end(s, i + 1)
    } else {
        i
    }
}

/// End of the plain run (no white space, no special character) that starts at `i`.
pub open spec fn plain_end(s: Seq<char>, i: int) -> int
    decreases s.len() - i,
{
    if 0 <= i < s.len() && !spec_is_whitespace(s[i]) && !spec_is_special_char(s[i]) {
        plain_end(s, i + 1)
    } else {
        i
    }
}

/// The location of the characters `[i, j)` of `s`, in bytes.
pub open spec fn byte_loc(s: Seq<char>, i: int, j: int) -> Loc {
    Loc(byte_offset(s, i) as usize, byte_offset(s, j) as usize)
}

/// The token that starts at character `i` of `s`, and the index after it.
pub open spec fn lex_at(s: Seq<char>, i: int) -> Option<(TokenView, int)> {
    if i < 0 || i >= s.len() {
        None
    } else if spec_is_whitespace(s[i]) {
        let j = space_end(s, i);
        Some((TokenView { loc: byte_loc(s, i, j), kind: TokKind::Space }, j))
    } else if spec_is_special_char(s[i]) {
        Some((TokenView { loc: byte_loc(s, i, i + 1), kind: TokKind::SpecChar(s[i]) }, i + 1))
    } else {
        let j = plain_end(s, i);
        Some((TokenView { loc: byte_loc(s, i, j), kind: TokKind::Text(s.subrange(i, j)) }, j))
    }
}

pub proof fn lemma_space_end(s: Seq<char>, i: int)
    requires
        0 <= i <= s.len(),
    ensures
        i <= space_end(s, i) <= s.len(),
        forall|k: int| i <= k < space_end(s, i) ==> spec_is_whitespace(#[trigger] s[k]),
        space_end(s, i) < s.len() ==> !spec_is_whitespace(s[space_end(s, i)]),
    decreases s.len() - i,
{
    if i < s.len() && spec_is_whitespace(s[i]) {
        lemma_space_end(s, i + 1);
    }
}

pub proof fn lemma_plain_end(s: Seq<char>, i: int)
    requires
        0 <= i <= s.len(),
    ensures
        i <= plain_end(s, i) <= s.len(),
        forall|k: int|
            i <= k < plain_end(s, i) ==> !spec_is_whitespace(#[trigger] s[k])
                && !spec_is_special_char(s[k]),
        plain_end(s, i) < s.len() ==> spec_is_whitespace(s[plain_end(s, i)])
            || spec_is_special_char(s[plain_end(s, i)]),
    decreases s.len() - i,
{
    if i < s.len() && !spec_is_whitespace(s[i]) && !spec_is_special_char(s[i]) {
        lemma_plain_end(s, i + 1);
    }
}

/// A token always consumes at least one character.
pub proof fn lemma_lex_at_progress(s: Seq<char>, i: int)
    requires
        lex_at(s, i) is Some,
    ensures
        0 <= i < lex_at(s, i).unwrap().1 <= s.len(),
{
    lemma_space_end(s, i);
    lemma_plain_end(s, i);
}

/// All tokens from character `i` to the end of `s`.
pub open spec fn lex_from(s: Seq<char>, i: int) -> Seq<TokenView>
    decreases s.len() - i,
{
    match lex_at(s, i) {
        None => Seq::empty(),
        Some((t, j)) => {
            if i < j <= s.len() {
                seq![t] + lex_from(s, j)
            } else {
                Seq::empty()
            }
        },
    }
}

/// All tokens of `s`.
pub open spec fn lex_all(s: Seq<char>) -> Seq<TokenView> {
    lex_from(s, 0)
}

/// One step of [`lex_from`].
pub proof fn lemma_lex_from_unfold(s: Seq<char>, i: int)
    ensures
        match lex_at(s, i) {
            None => lex_from(s, i) == Seq::<TokenView>::empty(),
            Some((t, j)) => lex_from(s, i) == seq![t] + lex_from(s, j),
        },
{
    if lex_at(s, i) is Some {
        lemma_lex_at_progress(s, i);
    }
}

/// The token stream from `i` has at most one token per remaining character,
/// and every location lies within the text's bytes.
pub proof fn lemma_lex_from_bounds(s: Seq<char>, i: int)
    requires
        0 <= i <= s.len(),
        fits_offsets(s),
    ensures
        lex_from(s, i).len() <= s.len() - i,
        forall|k: int|
            0 <= k < lex_from(s, i).len() ==> (#[trigger] lex_from(s, i)[k]).loc.0 <= 4 * s.len()
                && lex_from(s, i)[k].loc.1 <= 4 * s.len(),
    decreases s.len() - i,
{
    if i < s.len() {
        lemma_lex_at_progress(s, i);
        let (t, j) = lex_at(s, i).unwrap();
        lemma_lex_from_bounds(s, j);
        lemma_byte_offset_bound(s, i);
        lemma_byte_offset_bound(s, j);
        let ts = lex_from(s, i);
        assert(ts == seq![t] + lex_from(s, j));
        assert forall|k: int| 0 <= k < ts.len() implies (#[trigger] ts[k]).loc.0 <= 4 * s.len()
            && ts[k].loc.1 <= 4 * s.len() by {
            if k > 0 {
                assert(ts[k] == lex_from(s, j)[k - 1]);
            }
        }
    }
}

proof fn lemma_lex_from_tiles(s: Seq<char>, i: int)
    requires
        0 <= i <= s.len(),
    ensures
        (lex_from(s, i).len() == 0) == (i == s.len()),
        lex_from(s, i).len() > 0 ==> lex_from(s, i)[0].loc.0 == byte_offset(s, i) as usize
            && lex_from(s, i).last().loc.1 == byte_offset(s, s.len() as int) as usize,
        forall|k: int|
            0 <= k < lex_from(s, i).len() - 1 ==> (#[trigger] lex_from(s, i)[k]).loc.1
                == lex_from(s, i)[k + 1].loc.0,
    decreases s.len() - i,
{
    if i < s.len() {
        lemma_lex_at_progress(s, i);
        let (t, j) = lex_at(s, i).unwrap();
        lemma_lex_from_tiles(s, j);
        let rest = lex_from(s, j);
        let ts = lex_from(s, i);
        assert(ts == seq![t] + rest);
        assert forall|k: int| 0 <= k < ts.len() - 1 implies (#[trigger] ts[k]).loc.1 == ts[k + 1].loc.0 by {
            if k > 0 {
                assert(ts[k] == rest[k - 1]);
                assert(ts[k + 1] == rest[k]);
            }
        }
    }
}

/// The tokens of a text tile its bytes: the first token starts at byte 0,
/// each token ends where the next one starts, and the last one ends at the
/// end of the text; a text has no token exactly when it is empty.
pub proof fn lemma_tokens_tile(s: Seq<char>)
    ensures
        (lex_all(s).len() == 0) == (s.len() == 0),
        lex_all(s).len() > 0 ==> lex_all(s)[0].loc.0 == 0 && lex_all(s).last().loc.1
            == byte_len(s) as usize,
        forall|k: int|
            0 <= k < lex_all(s).len() - 1 ==> (#[trigger] lex_all(s)[k]).loc.1 == lex_all(
                s,
            )[k + 1].loc.0,
{
    lemma_lex_from_tiles(s, 0);
    assert(s.take(0) =~= Seq::<char>::empty());
    assert(s.take(s.len() as int) =~= s);
}

/// Splits a text into [`Token`]s.
pub struct TextLexer<'a> {
    text: &'a str,
    chars: Vec<char>,
    pos: usize,
    offset: usize,
}

impl<'a> TextLexer<'a> {
    /// The text being split.
    pub closed spec fn text_view(&self) -> Seq<char> {
        self.text@
    }

    /// The index of the next character to read.
    pub closed spec fn position(&self) -> int {
        self.pos as int
    }

    /// The lexer's internal consistency.
    pub closed spec fn wf(&self) -> bool {
        &&& self.chars@ == self.text@
        &&& self.pos <= self.chars@.len()
        &&& self.offset == byte_offset(self.text@, self.pos as int)
        &&& fits_offsets(self.text@)
    }

    /// The tokens that are still to come.
    pub open spec fn remaining(&self) -> Seq<TokenView> {
        lex_from(self.text_view(), self.position())
    }

    /// Creates a lexer at the start of `text`.
    pub fn new(text: &'a str) -> (l: Self)
        requires
            fits_offsets(text@),
        ensures
            l.wf(),
            l.text_view() == text@,
            l.position() == 0,
    {
        let mut chars: Vec<char> = Vec::new();
        for c in it: text.chars()
            invariant
                it.seq() == text@,
                chars@ == it.seq().take(it.index() as int),
        {
            chars.push(c);
            assert(chars@ =~= it.seq().take(it.index() as int + 1));
        }
        assert(chars@ =~= text@);
        assert(text@.take(0) =~= Seq::<char>::empty());
        Self { text, chars, pos: 0, offset: 0 }
    }

    /// The next character, without consuming it.
    pub fn peek_char(&self) -> (c: Option<char>)
        requires
            self.wf(),
        ensures
            c == (if self.position() < self.text_view().len() {
                Some(self.text_view()[self.position()])
            } else {
                None
            }),
    {
        if self.pos < self.chars.len() {
            Some(self.chars[self.pos])
        } else {
            None
        }
    }

    /// Consumes the next character.
    pub fn next_char(&mut self) -> (c: Option<char>)
        requires
            old(self).wf(),
        ensures
            final(self).wf(),
            final(self).text_view() == old(self).text_view(),
            c == (if old(self).position() < old(self).text_view().len() {
                Some(old(self).text_view()[old(self).position()])
            } else {
                None
            }),
            final(self).position() == (if old(self).position() < old(self).text_view().len() {
                old(self).position() + 1
            } else {
                old(self).position()
            }),
    {
        if self.pos < self.chars.len() {
            let c = self.chars[self.pos];
            proof {
                lemma_byte_offset_step(self.text@, self.pos as int);
                lemma_byte_offset_bound(self.text@, self.pos + 1);
            }
            self.offset = self.offset + len_utf8(c);
            self.pos = self.pos + 1;
            Some(c)
        } else {
            None
        }
    }

    /// The byte offset of the next character (the text's length at the end).
    pub fn offset(&self) -> (o: usize)
        requires
            self.wf(),
        ensures
            o == byte_offset(self.text_view(), self.position()),
    {
        self.offset
    }

    /// Reads the next token.
    pub fn next_token(&mut self) -> (res: Option<Token<'a>>)
        requires
            old(self).wf(),
        ensures
            final(self).wf(),
            final(self).text_view() == old(self).text_view(),
            match lex_at(old(self).text_view(), old(self).position()) {
                None => res is None && final(self).position() == old(self).position(),
                Some((t, j)) => res matches Some(tok) && tok@ == t && final(self).position() == j,
            },
    {
        let ghost s = self.text@;
        let ghost i0 = self.pos as int;
        proof {
            lemma_space_end(s, i0);
            lemma_plain_end(s, i0);
        }
        let cur = self.offset();
        let mut has_whitespace = false;
        loop
            invariant
                self.wf(),
                self.text@ == s,
                i0 <= self.pos <= space_end(s, i0),
                has_whitespace == (self.pos > i0),
                i0 <= space_end(s, i0) <= s.len(),
                forall|k: int| i0 <= k < space_end(s, i0) ==> spec_is_whitespace(#[trigger] s[k]),
                space_end(s, i0) < s.len() ==> !spec_is_whitespace(s[space_end(s, i0)]),
                cur == byte_offset(s, i0),
            ensures
                self.wf(),
                self.text@ == s,
                self.pos == space_end(s, i0),
                has_whitespace == (self.pos > i0),
            decreases s.len() - self.pos,
        {
            match self.peek_char() {
                Some(c) => {
                    if is_whitespace(c) {
                        self.next_char();
                        has_whitespace = true;
                    } else {
                        break;
                    }
                },
                None => break,
            }
        }
        if has_whitespace {
            return Some(Token::space(Loc(cur, self.offset())));
        }
        let cur = self.offset();
        let start = self.pos;
        loop
            invariant
                self.wf(),
                self.text@ == s,
                s == old(self).text_view(),
                i0 == old(self).position(),
                i0 == start,
                start <= self.pos <= plain_end(s, i0),
                cur == byte_offset(s, i0),
                i0 <= plain_end(s, i0) <= s.len(),
                forall|k: int|
                    i0 <= k < plain_end(s, i0) ==> !spec_is_whitespace(#[trigger] s[k])
                        && !spec_is_special_char(s[k]),
                plain_end(s, i0) < s.len() ==> spec_is_whitespace(s[plain_end(s, i0)])
                    || spec_is_special_char(s[plain_end(s, i0)]),
                i0 < s.len() ==> !spec_is_whitespace(s[i0]),
            ensures
                self.wf(),
                self.text@ == s,
                self.pos == plain_end(s, i0),
                i0 < s.len() && spec_is_special_char(s[i0]) ==> false,
            decreases s.len() - self.pos,
        {
            match self.peek_char() {
                Some(c) => {
                    if is_special_char(c) {
                        if self.pos > start {
                            break;
                        } else {
                            self.next_char();
                            proof {
                                lemma_byte_offset_step(s, i0);
                            }
                            return Some(
                                Token::spec_char(Loc(self.offset() - 1, self.offset()), c),
                            );
                        }
                    } else if is_whitespace(c) {
                        break;
                    } else {
                        self.next_char();
                    }
                },
                None => break,
            }
        }
        if self.pos > start {
            let t = self.text.substring_char(start, self.pos);
            Some(Token::text(Loc(cur, self.offset()), t))
        } else {
            None
        }
    }

    /// Reads all remaining tokens.
    pub fn collect(self) -> (v: Vec<Token<'a>>)
        requires
            self.wf(),
        ensures
            v@.map_values(|t: Token<'a>| t@) == self.remaining(),
    {
        let ghost all = self.remaining();
        let mut lexer = self;
        let mut v: Vec<Token<'a>> = Vec::new();
        loop
            invariant
                lexer.wf(),
                v@.map_values(|t: Token<'a>| t@) + lexer.remaining() == all,
            ensures
                v@.map_values(|t: Token<'a>| t@) == all,
            decreases lexer.text_view().len() - lexer.position(),
        {
            let ghost before = lexer.remaining();
            let ghost i = lexer.position();
            match lexer.next_token() {
                Some(t) => {
                    proof {
                        lemma_lex_at_progress(lexer.text_view(), i);
                        assert(before == seq![t@] + lexer.remaining());

                    }
                    let ghost prev = v@.map_values(|t: Token<'a>| t@);
                    let ghost tv = t@;
                    v.push(t);
                    assert(v@.map_values(|t: Token<'a>| t@) =~= prev.push(tv));
                    assert(prev.push(tv) + lexer.remaining() =~= prev + (seq![tv] + lexer.remaining()));
                },
                None => {
                    assert(lexer.remaining() =~= Seq::<TokenView>::empty());
                    assert(v@.map_values(|t: Token<'a>| t@) + lexer.remaining() =~= v@.map_values(|t: Token<'a>| t@));
                    break;
                },
            }
        }
        v
    }
}

} // verus!
