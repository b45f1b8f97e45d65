//! The markup of a text line: an optional header `/tag/alias/` that names the
//! speaking character, then plain text, escaped characters and TeX-like
//! commands whose arguments are pieces of markup themselves.
//!
//! Runs of white space in plain text shrink to one space. A command is a
//! backslash and ASCII letters, followed by arguments in braces, which may be
//! separated by white space. `\\`, `\{`, `\}` and `\/` stand for the character
//! they escape.

use crate::chars::{is_whitespace, spec_is_whitespace};
use crate::lexer::{lemma_space_end, space_end};
use crate::raw_value::{value_str, RawValue};
use crate::strings::{collect_chars, push_char};
use vstd::prelude::*;

verus! {

broadcast use vstd::string::group_string_axioms;

/// A piece of markup, as plain values.
pub enum MarkupView {
    /// An escaped character.
    Char(char),
    /// Plain text.
    Str(Seq<char>),
    /// A command and its arguments.
    Cmd(Seq<char>, Seq<MarkupView>),
}

/// A part of a line, either some texts or a command.
#[derive(Debug, PartialEq, Eq)]
pub enum SubText {
    /// Special character
    Char(char),
    /// Raw texts.
    Str(String),
    /// A TeX-like command in the text.
    Cmd(String, Vec<SubText>),
}

/// The view of a piece of markup.
pub open spec fn sub_text_view(t: SubText) -> MarkupView
    decreases t,
{
    match t {
        SubText::Char(c) => MarkupView::Char(c),
        SubText::Str(s) => MarkupView::Str(s@),
        SubText::Cmd(name, args) => MarkupView::Cmd(
            name@,
            Seq::new(
                args@.len(),
                |i: int|
                    if 0 <= i < args@.len() {
                        sub_text_view(args@[i])
                    } else {
                        MarkupView::Char(' ')
                    },
            ),
        ),
    }
}

impl View for SubText {
    type V = MarkupView;

    open spec fn view(&self) -> MarkupView {
        sub_text_view(*self)
    }
}

/// The views of a sequence of pieces.
pub open spec fn markups_view(v: Seq<SubText>) -> Seq<MarkupView> {
    v.map_values(|t: SubText| t@)
}

/// A parsed line, as plain values.
pub struct TextView {
    /// The tag of the speaking character.
    pub ch_tag: Option<Seq<char>>,
    /// The name the character is shown with.
    pub ch_alias: Option<Seq<char>>,
    /// The pieces.
    pub sub_texts: Seq<MarkupView>,
}

/// A collection of [`SubText`].
#[derive(Debug, Default, PartialEq, Eq)]
pub struct Text {
    /// The tag of current character.
    pub ch_tag: Option<String>,
    /// The alias of current character.
    pub ch_alias: Option<String>,
    /// The texts.
    pub sub_texts: Vec<SubText>,
}

impl View for Text {
    type V = TextView;

    open spec fn view(&self) -> TextView {
        TextView {
            ch_tag: match self.ch_tag {
                Some(s) => Some(s@),
                None => None,
            },
            ch_alias: match self.ch_alias {
                Some(s) => Some(s@),
                None => None,
            },
            sub_texts: markups_view(self.sub_texts@),
        }
    }
}

/// A character that ends plain text.
pub open spec fn is_str_end(c: char) -> bool {
    spec_is_whitespace(c) || c == '\\' || c == '{' || c == '}'
}

/// An ASCII letter.
pub open spec fn is_ascii_letter(c: char) -> bool {
    ('a' <= c && c <= 'z') || ('A' <= c && c <= 'Z')
}

/// A character that a backslash escapes.
pub open spec fn is_escapable(c: char) -> bool {
    c == '\\' || c == '{' || c == '}' || c == '/'
}

/// End of the plain text that starts at `i`.
pub open spec fn till_end(s: Seq<char>, i: int) -> int
    decreases s.len() - i,
{
    if 0 <= i < s.len() && !is_str_end(s[i]) {
        till_end(s, i + 1)
    } else {
        i
    }
}

/// End of the ASCII letters that start at `i`.
pub open spec fn letters_end(s: Seq<char>, i: int) -> int
    decreases s.len() - i,
{
    if 0 <= i < s.len() && is_ascii_letter(s[i]) {
        letters_end(s, i + 1)
    } else {
        i
    }
}

/// The first `/` at or after `i`, or the end.
pub open spec fn slash_from(s: Seq<char>, i: int) -> int
    decreases s.len() - i,
{
    if 0 <= i < s.len() && s[i] != '/' {
        slash_from(s, i + 1)
    } else {
        i
    }
}

/// A single space if `b`, else nothing.
pub open spec fn space_if(b: bool) -> Seq<char> {
    if b {
        seq![' ']
    } else {
        Seq::empty()
    }
}

/// Plain text at `i`: white space, then characters up to an end of plain
/// text, then white space, each run of white space kept as one space. Where
/// neither white space nor text comes, there is none.
pub open spec fn str_at(s: Seq<char>, i: int) -> Option<(MarkupView, int)> {
    let p = space_end(s, i);
    let q = till_end(s, p);
    let r = space_end(s, q);
    if p == i && q == i {
        None
    } else {
        Some((MarkupView::Str(space_if(p > i) + s.subrange(p, q) + space_if(r > q)), r))
    }
}

/// The piece of markup at `i`, and where it ends.
pub open spec fn sub_text_at(s: Seq<char>, i: int) -> Option<(MarkupView, int)>
    decreases s.len() - i, 1int,
{
    if 0 <= i < s.len() && s[i] == '\\' {
        if i + 1 < s.len() && is_escapable(s[i + 1]) {
            Some((MarkupView::Char(s[i + 1]), i + 2))
        } else if i + 1 < letters_end(s, i + 1) <= s.len() {
            let a = letters_end(s, i + 1);
            let (args, e) = args_from(s, a);
            Some((MarkupView::Cmd(s.subrange(i + 1, a), args), e))
        } else {
            None
        }
    } else {
        str_at(s, i)
    }
}

/// The arguments in braces from `j` on, and where they end.
pub open spec fn args_from(s: Seq<char>, j: int) -> (Seq<MarkupView>, int)
    decreases s.len() - j, 0int,
{
    let k = space_end(s, j);
    if 0 <= j <= k < s.len() && s[k] == '{' {
        match sub_text_at(s, k + 1) {
            Some((t, m)) => if k + 1 <= m < s.len() && s[m] == '}' {
                let (rest, e) = args_from(s, m + 1);
                (seq![t] + rest, e)
            } else {
                (Seq::empty(), j)
            },
            None => (Seq::empty(), j),
        }
    } else {
        (Seq::empty(), j)
    }
}

/// The pieces of markup from `i` on, as long as they come, and where they end.
pub open spec fn sub_texts_from(s: Seq<char>, i: int) -> (Seq<MarkupView>, int)
    decreases s.len() - i,
{
    match sub_text_at(s, i) {
        Some((t, j)) => if i < j <= s.len() {
            let (rest, e) = sub_texts_from(s, j);
            (seq![t] + rest, e)
        } else {
            (Seq::empty(), i)
        },
        None => (Seq::empty(), i),
    }
}

/// End of a sequence without its trailing white space, looking back from `j`.
pub open spec fn trim_end_at(t: Seq<char>, j: int) -> int
    decreases j,
{
    if 0 < j <= t.len() && spec_is_whitespace(t[j - 1]) {
        trim_end_at(t, j - 1)
    } else {
        j
    }
}

/// A sequence without leading and trailing white space.
pub open spec fn trim(t: Seq<char>) -> Seq<char> {
    let a = space_end(t, 0);
    let b = trim_end_at(t, t.len() as int);
    if a < b {
        t.subrange(a, b)
    } else {
        Seq::empty()
    }
}

/// A name, or none where it is empty.
pub open spec fn name_or_none(t: Seq<char>) -> Option<Seq<char>> {
    if t.len() > 0 {
        Some(t)
    } else {
        None
    }
}

/// The whole line parsed: with a header where the line starts with `/` and
/// holds two more, else without; the pieces must reach the end of the line.
pub open spec fn parse_text_spec(s: Seq<char>) -> Option<TextView> {
    let p1 = slash_from(s, 1);
    let p2 = slash_from(s, p1 + 1);
    if s.len() > 0 && s[0] == '/' && p1 < s.len() && p2 < s.len() {
        let (subs, e) = sub_texts_from(s, p2 + 1);
        if e == s.len() {
            Some(
                TextView {
                    ch_tag: name_or_none(trim(s.subrange(1, p1))),
                    ch_alias: name_or_none(trim(s.subrange(p1 + 1, p2))),
                    sub_texts: subs,
                },
            )
        } else {
            None
        }
    } else {
        let (subs, e) = sub_texts_from(s, 0);
        if e == s.len() {
            Some(TextView { ch_tag: None, ch_alias: None, sub_texts: subs })
        } else {
            None
        }
    }
}

/// The end of the white space that starts at `i`.
fn skip_space(cs: &Vec<char>, i: usize) -> (j: usize)
    requires
        i <= cs@.len(),
    ensures
        j == space_end(cs@, i as int),
        i <= j <= cs@.len(),
{
    let mut j = i;
    while j < cs.len() && is_whitespace(cs[j])
        invariant
            i <= j <= cs@.len(),
            space_end(cs@, j as int) == space_end(cs@, i as int),
        decreases cs@.len() - j,
    {
        j = j + 1;
    }
    j
}

/// The end of the plain text that starts at `i`.
fn skip_plain(cs: &Vec<char>, i: usize) -> (j: usize)
    requires
        i <= cs@.len(),
    ensures
        j == till_end(cs@, i as int),
        i <= j <= cs@.len(),
{
    let mut j = i;
    while j < cs.len() && !(is_whitespace(cs[j]) || cs[j] == '\\' || cs[j] == '{' || cs[j] == '}')
        invariant
            i <= j <= cs@.len(),
            till_end(cs@, j as int) == till_end(cs@, i as int),
        decreases cs@.len() - j,
    {
        j = j + 1;
    }
    j
}

/// The end of the ASCII letters that start at `i`.
fn skip_letters(cs: &Vec<char>, i: usize) -> (j: usize)
    requires
        i <= cs@.len(),
    ensures
        j == letters_end(cs@, i as int),
        i <= j <= cs@.len(),
{
    let mut j = i;
    while j < cs.len() && (('a' <= cs[j] && cs[j] <= 'z') || ('A' <= cs[j] && cs[j] <= 'Z'))
        invariant
            i <= j <= cs@.len(),
            letters_end(cs@, j as int) == letters_end(cs@, i as int),
        decreases cs@.len() - j,
    {
        j = j + 1;
    }
    j
}

/// The first `/` at or after `i`, or the end.
fn find_slash(cs: &Vec<char>, i: usize) -> (j: usize)
    requires
        i <= cs@.len(),
    ensures
        j == slash_from(cs@, i as int),
        i <= j <= cs@.len(),
{
    let mut j = i;
    while j < cs.len() && cs[j] != '/'
        invariant
            i <= j <= cs@.len(),
            slash_from(cs@, j as int) == slash_from(cs@, i as int),
        decreases cs@.len() - j,
    {
        j = j + 1;
    }
    j
}

/// The characters from `a` to `b`, appended to `out`.
fn push_range(out: &mut String, cs: &Vec<char>, a: usize, b: usize)
    requires
        a <= b <= cs@.len(),
    ensures
        final(out)@ == old(out)@ + cs@.subrange(a as int, b as int),
{
    let mut k = a;
    while k < b
        invariant
            a <= k <= b <= cs@.len(),
            out@ == old(out)@ + cs@.subrange(a as int, k as int),
        decreases b - k,
    {
        push_char(out, cs[k]);
        k = k + 1;
        assert(out@ =~= old(out)@ + cs@.subrange(a as int, k as int));
    }
}

/// The plain text at `i`.
fn parse_str(cs: &Vec<char>, i: usize) -> (r: Option<(SubText, usize)>)
    requires
        i <= cs@.len(),
    ensures
        match r {
            Some((t, j)) => str_at(cs@, i as int) == Some((t@, j as int)) && i < j <= cs@.len(),
            None => str_at(cs@, i as int) is None,
        },
{
    let p = skip_space(cs, i);
    let q = skip_plain(cs, p);
    if p == i && q == i {
        return None;
    }
    let r = skip_space(cs, q);
    let mut text = String::new();
    if p > i {
        push_char(&mut text, ' ');
    }
    push_range(&mut text, cs, p, q);
    if r > q {
        push_char(&mut text, ' ');
    }
    proof {
        assert(text@ =~= space_if(p > i) + cs@.subrange(p as int, q as int) + space_if(r > q));
    }
    Some((SubText::Str(text), r))
}

/// The view of a command built from its parts.
proof fn lemma_cmd_view(name: String, args: Vec<SubText>)
    ensures
        SubText::Cmd(name, args)@ == MarkupView::Cmd(name@, markups_view(args@)),
{
    let v = SubText::Cmd(name, args)@;
    assert(v->Cmd_1 =~= markups_view(args@));
}

/// The piece of markup at `i`.
fn parse_sub_text(cs: &Vec<char>, i: usize) -> (r: Option<(SubText, usize)>)
    requires
        i <= cs@.len(),
    ensures
        match r {
            Some((t, j)) => sub_text_at(cs@, i as int) == Some((t@, j as int)) && i < j <= cs@.len(),
            None => sub_text_at(cs@, i as int) is None,
        },
    decreases cs@.len() - i, 1int,
{
    if i < cs.len() && cs[i] == '\\' {
        if i + 1 < cs.len() && (cs[i + 1] == '\\' || cs[i + 1] == '{' || cs[i + 1] == '}' || cs[i
            + 1] == '/') {
            return Some((SubText::Char(cs[i + 1]), i + 2));
        }
        let a = skip_letters(cs, i + 1);
        if a == i + 1 {
            return None;
        }
        let mut name = String::new();
        push_range(&mut name, cs, i + 1, a);
        let (args, e) = parse_args(cs, a);
        proof {
            lemma_cmd_view(name, args);
        }
        Some((SubText::Cmd(name, args), e))
    } else {
        parse_str(cs, i)
    }
}

/// The arguments in braces from `j` on.
fn parse_args(cs: &Vec<char>, j: usize) -> (r: (Vec<SubText>, usize))
    requires
        j <= cs@.len(),
    ensures
        args_from(cs@, j as int) == (markups_view(r.0@), r.1 as int),
        j <= r.1 <= cs@.len(),
    decreases cs@.len() - j, 0int,
{
    let mut args: Vec<SubText> = Vec::new();
    let mut pos = j;
    loop
        invariant
            j <= pos <= cs@.len(),
            args_from(cs@, j as int) == (
                markups_view(args@) + args_from(cs@, pos as int).0,
                args_from(cs@, pos as int).1,
            ),
        ensures
            args_from(cs@, j as int) == (markups_view(args@), pos as int),
            j <= pos <= cs@.len(),
        decreases cs@.len() - pos,
    {
        let k = skip_space(cs, pos);
        if k < cs.len() && cs[k] == '{' {
            match parse_sub_text(cs, k + 1) {
                Some((t, m)) => {
                    if m < cs.len() && cs[m] == '}' {
                        proof {
                            let (rest, e) = args_from(cs@, m as int + 1);
                            assert(args_from(cs@, pos as int) == (seq![t@] + rest, e));
                            assert(markups_view(args@.push(t)) =~= markups_view(args@) + seq![t@]);
                            assert(markups_view(args@) + (seq![t@] + rest) =~= markups_view(args@.push(t)) + rest);
                        }
                        args.push(t);
                        pos = m + 1;
                    } else {
                        proof {
                            assert(markups_view(args@) + Seq::<MarkupView>::empty() =~= markups_view(args@));
                        }
                        break;
                    }
                },
                None => {
                    proof {
                        assert(markups_view(args@) + Seq::<MarkupView>::empty() =~= markups_view(args@));
                    }
                    break;
                },
            }
        } else {
            proof {
                assert(markups_view(args@) + Seq::<MarkupView>::empty() =~= markups_view(args@));
            }
            break;
        }
    }
    (args, pos)
}

/// The pieces of markup from `i` on.
fn parse_sub_texts(cs: &Vec<char>, i: usize) -> (r: (Vec<SubText>, usize))
    requires
        i <= cs@.len(),
    ensures
        sub_texts_from(cs@, i as int) == (markups_view(r.0@), r.1 as int),
        i <= r.1 <= cs@.len(),
{
    let mut out: Vec<SubText> = Vec::new();
    let mut pos = i;
    loop
        invariant
            i <= pos <= cs@.len(),
            sub_texts_from(cs@, i as int) == (
                markups_view(out@) + sub_texts_from(cs@, pos as int).0,
                sub_texts_from(cs@, pos as int).1,
            ),
        ensures
            sub_texts_from(cs@, i as int) == (markups_view(out@), pos as int),
            i <= pos <= cs@.len(),
        decreases cs@.len() - pos,
    {
        match parse_sub_text(cs, pos) {
            Some((t, j)) => {
                proof {
                    let (rest, e) = sub_texts_from(cs@, j as int);
                    assert(sub_texts_from(cs@, pos as int) == (seq![t@] + rest, e));
                    assert(markups_view(out@.push(t)) =~= markups_view(out@) + seq![t@]);
                    assert(markups_view(out@) + (seq![t@] + rest) =~= markups_view(out@.push(t)) + rest);
                }
                out.push(t);
                pos = j;
            },
            None => {
                proof {
                    assert(markups_view(out@) + Seq::<MarkupView>::empty() =~= markups_view(out@));
                }
                break;
            },
        }
    }
    (out, pos)
}

/// The characters from `a` to `b` without leading and trailing white space,
/// or none where nothing is left.
fn trimmed_name(cs: &Vec<char>, a: usize, b: usize) -> (r: Option<String>)
    requires
        a <= b <= cs@.len(),
    ensures
        match r {
            Some(s) => name_or_none(trim(cs@.subrange(a as int, b as int))) == Some(s@),
            None => name_or_none(trim(cs@.subrange(a as int, b as int))) is None,
        },
{
    let ghost t = cs@.subrange(a as int, b as int);
    let mut x = a;
    while x < b && is_whitespace(cs[x])
        invariant
            a <= x <= b <= cs@.len(),
            t == cs@.subrange(a as int, b as int),
            space_end(t, (x - a) as int) == space_end(t, 0),
        decreases b - x,
    {
        x = x + 1;
    }
    let mut y = b;
    while y > x && is_whitespace(cs[y - 1])
        invariant
            a <= x <= y <= b <= cs@.len(),
            t == cs@.subrange(a as int, b as int),
            trim_end_at(t, (y - a) as int) == trim_end_at(t, t.len() as int),
        decreases y,
    {
        y = y - 1;
    }
    proof {
        lemma_space_end(t, 0);
        lemma_trim_end_at(t, t.len() as int);
        lemma_trim_end_at(t, (y - a) as int);
        lemma_space_end(t, (x - a) as int);
        let se = space_end(t, 0);
        let te = trim_end_at(t, t.len() as int);
        if y > x {
            assert(se == x - a);
            assert(te == y - a);
        } else {
            assert(se >= te);
        }
    }
    if y > x {
        let mut s = String::new();
        push_range(&mut s, cs, x, y);
        proof {
            assert(s@ =~= trim(t));
        }
        Some(s)
    } else {
        None
    }
}

/// Bounds of [`trim_end_at`].
proof fn lemma_trim_end_at(t: Seq<char>, j: int)
    requires
        0 <= j <= t.len(),
    ensures
        0 <= trim_end_at(t, j) <= j,
        forall|k: int| trim_end_at(t, j) <= k < j ==> spec_is_whitespace(#[trigger] t[k]),
        trim_end_at(t, j) > 0 ==> !spec_is_whitespace(t[trim_end_at(t, j) - 1]),
    decreases j,
{
    if 0 < j && spec_is_whitespace(t[j - 1]) {
        lemma_trim_end_at(t, j - 1);
    }
}

/// Parses a whole line of markup. On success the rest of the input, which is
/// always empty, comes with the text.
pub fn parse_text(text: &str) -> (res: Option<(&str, Text)>)
    ensures
        match res {
            Some((rest, t)) => parse_text_spec(text@) == Some(t@) && rest@ == Seq::<char>::empty(),
            None => parse_text_spec(text@) is None,
        },
{
    let cs = collect_chars(text);
    let n = cs.len();
    let rest = "";
    proof {
        reveal_strlit("");
    }
    if n > 0 && cs[0] == '/' {
        let p1 = find_slash(&cs, 1);
        if p1 < n {
            let p2 = find_slash(&cs, p1 + 1);
            if p2 < n {
                let (subs, e) = parse_sub_texts(&cs, p2 + 1);
                if e != n {
                    return None;
                }
                let ch_tag = trimmed_name(&cs, 1, p1);
                let ch_alias = trimmed_name(&cs, p1 + 1, p2);
                let t = Text { ch_tag, ch_alias, sub_texts: subs };
                return Some((rest, t));
            }
        }
    }
    let (subs, e) = parse_sub_texts(&cs, 0);
    if e != n {
        return None;
    }
    Some((rest, Text { ch_tag: None, ch_alias: None, sub_texts: subs }))
}

impl Text {
    /// The text that a value's string parses to, or the empty text where it
    /// does not parse.
    pub fn from_value(value: RawValue) -> (t: Text)
        ensures
            match parse_text_spec(value_str(value)) {
                Some(v) => t@ == v,
                None => t@ == (TextView {
                    ch_tag: None,
                    ch_alias: None,
                    sub_texts: Seq::empty(),
                }),
            },
    {
        let s = value.into_str();
        match parse_text(s.as_str()) {
            Some((_, t)) => t,
            None => {
                let t = Text { ch_tag: None, ch_alias: None, sub_texts: Vec::new() };
                assert(markups_view(t.sub_texts@) =~= Seq::<MarkupView>::empty());
                t
            },
        }
    }
}

} // verus!
