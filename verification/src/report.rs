//! Parse errors of texts and their reports: every location that the parser
//! gives is a span, its start no later than its end, within the bytes of the
//! text and the few bytes that a character marker's closing `/` may add; so
//! each error can be marked in its text.

use crate::chars::lemma_byte_offset_mono;
use crate::context::{cjk_width, error_span, rich_error, rich_error_spec, title_or_empty};
use crate::chars::lemma_byte_offset_bound;
use crate::lexer::{fits_offsets, lemma_lex_at_progress, lex_all, lex_at, lex_from, TokenView};
use crate::loc::{join_loc, Loc};
use crate::parser::{
    concat_all, concat_from, parse_all, parse_next_from, parse_text, spec_command, spec_concat,
    spec_parse_text, Text,
};
use crate::rich_lexer::{
    char_name, param_body, param_escape, param_spec_char, params_loop, rich_all, rich_character,
    rich_lex, rich_next, rich_params, top_escape, top_spec_char, RichKind, RichView,
};
use crate::text_error::ErrView;
use vstd::prelude::*;

verus! {

/// A span that starts no later than it ends, and ends by byte `b`.
pub open spec fn loc_ok(l: Loc, b: int) -> bool {
    l.0 <= l.1 && l.1 <= b
}

/// Every token spans at most to byte `b`.
pub open spec fn toks_ok(ts: Seq<TokenView>, b: int) -> bool {
    forall|k: int| 0 <= k < ts.len() ==> loc_ok(#[trigger] ts[k].loc, b)
}

/// Every rich token spans at most to byte `b`.
pub open spec fn locs_ok(vs: Seq<RichView>, b: int) -> bool {
    forall|k: int| 0 <= k < vs.len() ==> loc_ok(#[trigger] vs[k].loc, b)
}

/// A rich token, and each token of the parameters of a command, spans at most
/// to byte `b`.
pub open spec fn view_ok(v: RichView, b: int) -> bool {
    &&& loc_ok(v.loc, b)
    &&& v.kind matches RichKind::Command(_, ps) ==> forall|i: int|
        0 <= i < ps.len() ==> locs_ok(#[trigger] ps[i], b)
}

/// Every rich token of a sequence is as [`view_ok`] says.
pub open spec fn views_ok(vs: Seq<RichView>, b: int) -> bool {
    forall|k: int| 0 <= k < vs.len() ==> view_ok(#[trigger] vs[k], b)
}

proof fn lemma_toks_drop(ts: Seq<TokenView>, b: int)
    requires
        toks_ok(ts, b),
        ts.len() > 0,
    ensures
        toks_ok(ts.drop_first(), b),
{
    assert forall|k: int| 0 <= k < ts.drop_first().len() implies loc_ok(
        #[trigger] ts.drop_first()[k].loc,
        b,
    ) by {
        assert(ts.drop_first()[k] == ts[k + 1]);
    }
}

proof fn lemma_locs_push(vs: Seq<RichView>, v: RichView, b: int)
    requires
        locs_ok(vs, b),
        loc_ok(v.loc, b),
    ensures
        locs_ok(vs.push(v), b),
{
    assert forall|k: int| 0 <= k < vs.push(v).len() implies loc_ok(#[trigger] vs.push(v)[k].loc, b) by {
        if k < vs.len() {
            assert(vs.push(v)[k] == vs[k]);
        }
    }
}

proof fn lemma_views_drop(vs: Seq<RichView>, b: int)
    requires
        views_ok(vs, b),
        vs.len() > 0,
    ensures
        views_ok(vs.drop_first(), b),
{
    assert forall|k: int| 0 <= k < vs.drop_first().len() implies view_ok(#[trigger] vs.drop_first()[k], b) by {
        assert(vs.drop_first()[k] == vs[k + 1]);
    }
}

/// The tokens of a text span its bytes in order.
proof fn lemma_lex_locs(s: Seq<char>, i: int)
    requires
        0 <= i <= s.len(),
        fits_offsets(s),
    ensures
        toks_ok(lex_from(s, i), 4 * (s.len() as int)),
    decreases s.len() - i,
{
    if i < s.len() {
        lemma_lex_at_progress(s, i);
        let (t, j) = lex_at(s, i).unwrap();
        lemma_lex_locs(s, j);
        lemma_byte_offset_bound(s, i);
        lemma_byte_offset_bound(s, j);
        lemma_byte_offset_mono(s, i, j);
        let ts = lex_from(s, i);
        assert(ts == seq![t] + lex_from(s, j));
        assert forall|k: int| 0 <= k < ts.len() implies loc_ok(#[trigger] ts[k].loc, 4 * (s.len() as int)) by {
            if k > 0 {
                assert(ts[k] == lex_from(s, j)[k - 1]);
            }
        }
    }
}

proof fn lemma_char_name(ts: Seq<TokenView>, prev: Loc, b: int, p: int)
    requires
        toks_ok(ts, b),
        loc_ok(prev, p),
        b <= p,
        p + 1 <= usize::MAX,
    ensures
        char_name(ts, prev) matches Ok((_, mid, rest)) ==> loc_ok(mid, p + 1) && toks_ok(rest, b),
        char_name(ts, prev) matches Err(e) ==> loc_ok(e.loc, p),
{
    if ts.len() > 0 {
        assert(loc_ok(ts[0].loc, b));
        lemma_toks_drop(ts, b);
        let rest = ts.drop_first();
        if rest.len() > 0 {
            assert(loc_ok(rest[0].loc, b));
            lemma_toks_drop(rest, b);
        }
    }
}

proof fn lemma_rich_character(ts: Seq<TokenView>, prev: Loc, b: int)
    requires
        toks_ok(ts, b),
        loc_ok(prev, b),
        b + 2 <= usize::MAX,
    ensures
        rich_character(ts, prev) matches Ok((v, rest)) ==> view_ok(v, b + 2) && toks_ok(rest, b),
        rich_character(ts, prev) matches Err(e) ==> loc_ok(e.loc, b + 2),
{
    lemma_char_name(ts, prev, b, b);
    if let Ok((_, mid, r1)) = char_name(ts, prev) {
        lemma_char_name(r1, mid, b, b + 1);
    }
}

proof fn lemma_param_escape(ts: Seq<TokenView>, prev: Loc, b: int)
    requires
        toks_ok(ts, b),
        loc_ok(prev, b),
    ensures
        param_escape(ts, prev) matches Ok((v, rest)) ==> view_ok(v, b) && toks_ok(rest, b),
        param_escape(ts, prev) matches Err(e) ==> loc_ok(e.loc, b),
{
    if ts.len() > 0 {
        assert(loc_ok(ts[0].loc, b));
        lemma_toks_drop(ts, b);
    }
}

proof fn lemma_param_spec_char(ts: Seq<TokenView>, loc: Loc, c: char, b: int)
    requires
        toks_ok(ts, b),
        loc_ok(loc, b),
        b + 2 <= usize::MAX,
    ensures
        param_spec_char(ts, loc, c) matches Ok((v, rest)) ==> view_ok(v, b + 2) && toks_ok(rest, b),
        param_spec_char(ts, loc, c) matches Err(e) ==> loc_ok(e.loc, b + 2),
{
    lemma_param_escape(ts, loc, b);
    lemma_rich_character(ts, loc, b);
}

proof fn lemma_param_body(ts: Seq<TokenView>, depth: nat, acc: Seq<RichView>, b: int)
    requires
        toks_ok(ts, b),
        locs_ok(acc, b + 2),
        b + 2 <= usize::MAX,
    ensures
        param_body(ts, depth, acc) matches Ok((p, rest)) ==> locs_ok(p, b + 2) && toks_ok(rest, b),
        param_body(ts, depth, acc) matches Err(e) ==> loc_ok(e.loc, b + 2),
    decreases ts.len(),
{
    if ts.len() > 0 {
        let t = ts[0];
        let rest = ts.drop_first();
        assert(loc_ok(t.loc, b));
        lemma_toks_drop(ts, b);
        match t.kind {
            crate::lexer::TokKind::Space => {
                let v = RichView { loc: t.loc, kind: RichKind::Char(' ') };
                lemma_locs_push(acc, v, b + 2);
                lemma_param_body(rest, depth, acc.push(v), b);
            },
            crate::lexer::TokKind::Text(s) => {
                let v = RichView { loc: t.loc, kind: RichKind::Text(s) };
                lemma_locs_push(acc, v, b + 2);
                lemma_param_body(rest, depth, acc.push(v), b);
            },
            crate::lexer::TokKind::SpecChar(c) => {
                if !(c == '}' && depth <= 1) {
                    let d2: nat = if c == '{' {
                        depth + 1
                    } else if c == '}' {
                        (depth - 1) as nat
                    } else {
                        depth
                    };
                    lemma_param_spec_char(rest, t.loc, c, b);
                    if let Ok((r, r2)) = param_spec_char(rest, t.loc, c) {
                        lemma_locs_push(acc, r, b + 2);
                        if r2.len() < ts.len() {
                            lemma_param_body(r2, d2, acc.push(r), b);
                        }
                    }
                }
            },
        }
    }
}

proof fn lemma_params_loop(ts: Seq<TokenView>, loc: Loc, name: Seq<char>, acc: Seq<Seq<RichView>>, b: int)
    requires
        toks_ok(ts, b),
        loc_ok(loc, b + 2),
        forall|i: int| 0 <= i < acc.len() ==> locs_ok(#[trigger] acc[i], b + 2),
        b + 2 <= usize::MAX,
    ensures
        params_loop(ts, loc, name, acc) matches Ok((v, rest)) ==> view_ok(v, b + 2) && toks_ok(
            rest,
            b,
        ),
        params_loop(ts, loc, name, acc) matches Err(e) ==> loc_ok(e.loc, b + 2),
    decreases ts.len(),
{
    if ts.len() > 0 && ts[0].kind == crate::lexer::TokKind::SpecChar('{') {
        lemma_toks_drop(ts, b);
        lemma_param_body(ts.drop_first(), 1, Seq::empty(), b);
        if let Ok((p, rest)) = param_body(ts.drop_first(), 1, Seq::empty()) {
            assert forall|i: int| 0 <= i < acc.push(p).len() implies locs_ok(#[trigger] acc.push(p)[i], b + 2) by {
                if i < acc.len() {
                    assert(acc.push(p)[i] == acc[i]);
                }
            }
            if rest.len() < ts.len() {
                lemma_params_loop(rest, loc, name, acc.push(p), b);
            }
        }
    }
}

proof fn lemma_rich_params(ts: Seq<TokenView>, loc: Loc, name: Seq<char>, b: int)
    requires
        toks_ok(ts, b),
        loc_ok(loc, b),
        b + 2 <= usize::MAX,
    ensures
        rich_params(ts, loc, name) matches Ok((v, rest)) ==> view_ok(v, b + 2) && toks_ok(rest, b),
        rich_params(ts, loc, name) matches Err(e) ==> loc_ok(e.loc, b + 2),
{
    if ts.len() > 0 {
        assert(loc_ok(ts[0].loc, b));
        lemma_toks_drop(ts, b);
        lemma_params_loop(ts, loc, name, Seq::empty(), b);
    }
}

proof fn lemma_top_escape(ts: Seq<TokenView>, prev: Loc, b: int)
    requires
        toks_ok(ts, b),
        loc_ok(prev, b),
        b + 2 <= usize::MAX,
    ensures
        top_escape(ts, prev) matches Ok((v, rest)) ==> view_ok(v, b + 2) && toks_ok(rest, b),
        top_escape(ts, prev) matches Err(e) ==> loc_ok(e.loc, b + 2),
{
    if ts.len() > 0 {
        let t = ts[0];
        assert(loc_ok(t.loc, b));
        lemma_toks_drop(ts, b);
        lemma_rich_params(ts.drop_first(), join_loc(prev, t.loc), Seq::empty(), b);
        if let crate::lexer::TokKind::Text(name) = t.kind {
            lemma_rich_params(ts.drop_first(), join_loc(prev, t.loc), name, b);
        }
    }
}

proof fn lemma_top_spec_char(ts: Seq<TokenView>, loc: Loc, c: char, b: int)
    requires
        toks_ok(ts, b),
        loc_ok(loc, b),
        b + 2 <= usize::MAX,
    ensures
        top_spec_char(ts, loc, c) matches Ok((v, rest)) ==> view_ok(v, b + 2) && toks_ok(rest, b),
        top_spec_char(ts, loc, c) matches Err(e) ==> loc_ok(e.loc, b + 2),
{
    lemma_top_escape(ts, loc, b);
    lemma_rich_character(ts, loc, b);
}

proof fn lemma_rich_next(ts: Seq<TokenView>, b: int)
    requires
        toks_ok(ts, b),
        b + 2 <= usize::MAX,
    ensures
        rich_next(ts) matches Some(Ok((v, rest))) ==> view_ok(v, b + 2) && toks_ok(rest, b),
        rich_next(ts) matches Some(Err(e)) ==> loc_ok(e.loc, b + 2),
{
    if ts.len() > 0 {
        let t = ts[0];
        assert(loc_ok(t.loc, b));
        lemma_toks_drop(ts, b);
        if let crate::lexer::TokKind::SpecChar(c) = t.kind {
            lemma_top_spec_char(ts.drop_first(), t.loc, c, b);
        }
    }
}

proof fn lemma_rich_all(ts: Seq<TokenView>, b: int)
    requires
        toks_ok(ts, b),
        b + 2 <= usize::MAX,
    ensures
        views_ok(rich_all(ts).0, b + 2),
        rich_all(ts).1 matches Some(e) ==> loc_ok(e.loc, b + 2),
    decreases ts.len(),
{
    lemma_rich_next(ts, b);
    if let Some(Ok((r, rest))) = rich_next(ts) {
        if rest.len() < ts.len() {
            lemma_rich_all(rest, b);
            let (rs, e) = rich_all(rest);
            assert forall|k: int| 0 <= k < (seq![r] + rs).len() implies view_ok(#[trigger] (seq![r] + rs)[k], b + 2) by {
                if k > 0 {
                    assert((seq![r] + rs)[k] == rs[k - 1]);
                }
            }
        }
    }
}

proof fn lemma_concat_from(toks: Seq<RichView>, i: int, acc: Seq<char>, b: int)
    requires
        locs_ok(toks, b),
    ensures
        concat_from(toks, i, acc) matches Err(e) ==> loc_ok(e.loc, b),
    decreases toks.len() - i,
{
    if 0 <= i < toks.len() {
        assert(loc_ok(toks[i].loc, b));
        match toks[i].kind {
            RichKind::Char(c) => lemma_concat_from(toks, i + 1, acc.push(c), b),
            RichKind::Text(s) => lemma_concat_from(toks, i + 1, acc + s, b),
            _ => {},
        }
    }
}

proof fn lemma_concat_all(params: Seq<Seq<RichView>>, i: int, acc: Seq<Seq<char>>, b: int)
    requires
        forall|j: int| 0 <= j < params.len() ==> locs_ok(#[trigger] params[j], b),
    ensures
        concat_all(params, i, acc) matches Err(e) ==> loc_ok(e.loc, b),
    decreases params.len() - i,
{
    if 0 <= i < params.len() {
        assert(locs_ok(params[i], b));
        lemma_concat_from(params[i], 0, Seq::empty(), b);
        if let Ok(a) = spec_concat(params[i]) {
            lemma_concat_all(params, i + 1, acc.push(a), b);
        }
    }
}

proof fn lemma_spec_command(loc: Loc, name: Seq<char>, params: Seq<Seq<RichView>>, b: int)
    requires
        loc_ok(loc, b),
        forall|j: int| 0 <= j < params.len() ==> locs_ok(#[trigger] params[j], b),
    ensures
        spec_command(loc, name, params) matches Err(e) ==> loc_ok(e.loc, b),
{
    lemma_concat_all(params, 0, Seq::empty(), b);
    if params.len() > 0 {
        assert(locs_ok(params[0], b));
        lemma_concat_from(params[0], 0, Seq::empty(), b);
    }
    if params.len() > 1 {
        assert(locs_ok(params[1], b));
        lemma_concat_from(params[1], 0, Seq::empty(), b);
    }
    lemma_concat_from(Seq::<RichView>::empty(), 0, Seq::empty(), b);
}

proof fn lemma_parse_next_from(rs: Seq<RichView>, err: Option<ErrView>, acc: Seq<char>, b: int)
    requires
        views_ok(rs, b),
        err matches Some(e) ==> loc_ok(e.loc, b),
    ensures
        parse_next_from(rs, err, acc) matches Ok((_, rest)) ==> views_ok(rest, b),
        parse_next_from(rs, err, acc) matches Err(e) ==> loc_ok(e.loc, b),
    decreases rs.len(),
{
    if rs.len() > 0 {
        let r = rs[0];
        assert(view_ok(r, b));
        lemma_views_drop(rs, b);
        match r.kind {
            RichKind::Char(c) => lemma_parse_next_from(rs.drop_first(), err, acc.push(c), b),
            RichKind::Text(s) => lemma_parse_next_from(rs.drop_first(), err, acc + s, b),
            RichKind::Command(n, ps) => lemma_spec_command(r.loc, n, ps, b),
            _ => {},
        }
    }
}

proof fn lemma_parse_all(rs: Seq<RichView>, err: Option<ErrView>, b: int)
    requires
        views_ok(rs, b),
        err matches Some(e) ==> loc_ok(e.loc, b),
    ensures
        parse_all(rs, err) matches Err(e) ==> loc_ok(e.loc, b),
    decreases rs.len(),
{
    lemma_parse_next_from(rs, err, Seq::empty(), b);
    if let Ok((Some(_), rest)) = parse_next_from(rs, err, Seq::empty()) {
        if rest.len() < rs.len() {
            lemma_parse_all(rest, err, b);
        }
    }
}

/// A parse error of a text points at a span: it starts no later than it ends,
/// and ends within the text's bytes or at most two bytes past them.
pub proof fn lemma_parse_error_span(s: Seq<char>)
    requires
        fits_offsets(s),
    ensures
        spec_parse_text(s) matches Err(e) ==> e.loc.0 <= e.loc.1 && e.loc.1 <= 4 * s.len() + 2,
{
    let b: int = 4 * (s.len() as int);
    lemma_lex_locs(s, 0);
    lemma_rich_all(lex_all(s), b);
    lemma_parse_all(rich_lex(s).0, rich_lex(s).1, b + 2);
}

/// The report of a parse error `e` in `text`, at act `cur_act` of the
/// paragraph titled `title`, with the error marked under its characters.
pub open spec fn report_spec(text: Seq<char>, e: ErrView, title: Seq<char>, cur_act: usize) -> Seq<char> {
    let (pre, a0, a1, _) = error_span(text, e.loc);
    rich_error_spec(
        text,
        e,
        title,
        cur_act,
        cjk_width(text.subrange(pre, a0)),
        cjk_width(text.subrange(a0, a1)),
    )
}

/// Parses a text of act `cur_act` of the paragraph titled `para_title`; where
/// it does not parse, the report of the error comes back in place of the text.
pub fn parse_text_report(text: &str, para_title: Option<&str>, cur_act: usize) -> (r: Result<
    Text,
    String,
>)
    requires
        fits_offsets(text@),
        cur_act < usize::MAX,
    ensures
        match spec_parse_text(text@) {
            Ok(sts) => r matches Ok(t) && t@ == sts,
            Err(e) => r matches Err(msg) && msg@ == report_spec(
                text@,
                e,
                title_or_empty(para_title),
                cur_act,
            ),
        },
{
    match parse_text(text) {
        Ok(t) => Ok(t),
        Err(e) => {
            proof {
                lemma_parse_error_span(text@);
            }
            Err(rich_error(text, &e, para_title, cur_act))
        },
    }
}

/// Checks that a text of act `cur_act` of the paragraph titled `para_title`
/// parses; where it does not, the report of the error comes back.
pub fn check_text_report(text: &str, para_title: Option<&str>, cur_act: usize) -> (r: Option<String>)
    requires
        fits_offsets(text@),
        cur_act < usize::MAX,
    ensures
        match spec_parse_text(text@) {
            Ok(_) => r is None,
            Err(e) => r matches Some(msg) && msg@ == report_spec(
                text@,
                e,
                title_or_empty(para_title),
                cur_act,
            ),
        },
{
    match parse_text_report(text, para_title, cur_act) {
        Ok(_) => None,
        Err(msg) => Some(msg),
    }
}

} // verus!
