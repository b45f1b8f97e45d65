//! How commands read in a text: the arguments of a command in the order of
//! its `{..}` groups, and the space after a bare command's name belonging to
//! the command.

use crate::chars::{spec_is_special_char, spec_is_whitespace};
use crate::lexer::{lemma_lex_from_unfold, lex_at, lex_from, plain_end, space_end, TokKind, TokenView};
use crate::loc::join_loc;
use crate::parser::{
    collapse_from, concat_all, concat_from, parse_all, parse_next_from,
    spec_command, spec_concat, spec_parse_text, CommandView, SubTextView,
};
use crate::rich_lexer::{
    command_view, param_body, params_loop, rich_all, rich_lex, rich_next, rich_params, top_escape, RichKind, RichView,
};
use crate::text_error::ErrView;
use vstd::prelude::*;

verus! {

/// A character of plain text: neither white space nor special.
pub open spec fn plain_char(c: char) -> bool {
    !spec_is_whitespace(c) && !spec_is_special_char(c)
}

/// Text made of plain characters only.
pub open spec fn plain_text(t: Seq<char>) -> bool {
    forall|k: int| 0 <= k < t.len() ==> plain_char(#[trigger] t[k])
}

/// Text made of white space only.
pub open spec fn blank_text(w: Seq<char>) -> bool {
    forall|k: int| 0 <= k < w.len() ==> spec_is_whitespace(#[trigger] w[k])
}

/// The names of the commands with a fixed number of parameters.
pub open spec fn reserved_name(name: Seq<char>) -> bool {
    name == seq!['c', 'h'] || name == seq!['r', 'e', 's'] || name == seq!['v', 'a', 'r']
}

/// Each parameter in braces, one after another: `{p0}{p1}..`.
pub open spec fn braced(ps: Seq<Seq<char>>) -> Seq<char>
    decreases ps.len(),
{
    if ps.len() == 0 {
        Seq::empty()
    } else {
        seq!['{'] + ps[0] + seq!['}'] + braced(ps.drop_first())
    }
}

proof fn lemma_plain_run(s: Seq<char>, i: int, j: int)
    requires
        0 <= i <= j <= s.len(),
        forall|k: int| i <= k < j ==> plain_char(#[trigger] s[k]),
        j == s.len() || !plain_char(s[j]),
    ensures
        plain_end(s, i) == j,
    decreases j - i,
{
    if i < j {
        lemma_plain_run(s, i + 1, j);
    }
}

proof fn lemma_space_run(s: Seq<char>, i: int, j: int)
    requires
        0 <= i <= j <= s.len(),
        forall|k: int| i <= k < j ==> spec_is_whitespace(#[trigger] s[k]),
        j == s.len() || !spec_is_whitespace(s[j]),
    ensures
        space_end(s, i) == j,
    decreases j - i,
{
    if i < j {
        lemma_space_run(s, i + 1, j);
    }
}

/// A special character lexes into one token.
proof fn lemma_lex_special(s: Seq<char>, i: int)
    requires
        0 <= i < s.len(),
        spec_is_special_char(s[i]),
    ensures
        lex_from(s, i).len() == lex_from(s, i + 1).len() + 1,
        lex_from(s, i)[0].kind == TokKind::SpecChar(s[i]),
        lex_from(s, i).drop_first() == lex_from(s, i + 1),
{
    lemma_lex_from_unfold(s, i);
    assert(!spec_is_whitespace(s[i]));
    let (t, j) = lex_at(s, i).unwrap();
    assert((seq![t] + lex_from(s, j)).drop_first() =~= lex_from(s, j));
}

/// A run of plain characters lexes into one text token.
proof fn lemma_lex_plain(s: Seq<char>, i: int, j: int)
    requires
        0 <= i < j <= s.len(),
        forall|k: int| i <= k < j ==> plain_char(#[trigger] s[k]),
        j == s.len() || !plain_char(s[j]),
    ensures
        lex_from(s, i).len() == lex_from(s, j).len() + 1,
        lex_from(s, i)[0].kind == TokKind::Text(s.subrange(i, j)),
        lex_from(s, i).drop_first() == lex_from(s, j),
{
    assert(plain_char(s[i]));
    lemma_plain_run(s, i, j);
    lemma_lex_from_unfold(s, i);
    let (t, j2) = lex_at(s, i).unwrap();
    assert(j2 == j);
    assert((seq![t] + lex_from(s, j)).drop_first() =~= lex_from(s, j));
}

/// A run of white space lexes into one space token.
proof fn lemma_lex_space(s: Seq<char>, i: int, j: int)
    requires
        0 <= i < j <= s.len(),
        forall|k: int| i <= k < j ==> spec_is_whitespace(#[trigger] s[k]),
        j == s.len() || !spec_is_whitespace(s[j]),
    ensures
        lex_from(s, i).len() == lex_from(s, j).len() + 1,
        lex_from(s, i)[0].kind == TokKind::Space,
        lex_from(s, i).drop_first() == lex_from(s, j),
{
    assert(spec_is_whitespace(s[i]));
    lemma_space_run(s, i, j);
    lemma_lex_from_unfold(s, i);
    let (t, j2) = lex_at(s, i).unwrap();
    assert(j2 == j);
    assert((seq![t] + lex_from(s, j)).drop_first() =~= lex_from(s, j));
}

/// Nothing is left to lex at the end.
proof fn lemma_lex_end(s: Seq<char>)
    ensures
        lex_from(s, s.len() as int).len() == 0,
{
    lemma_lex_from_unfold(s, s.len() as int);
}

/// Plain text collapses to itself.
proof fn lemma_collapse_plain(t: Seq<char>, i: int)
    requires
        0 <= i <= t.len(),
        plain_text(t),
    ensures
        collapse_from(t, i) == t.subrange(i, t.len() as int),
    decreases t.len() - i,
{
    if i < t.len() {
        assert(plain_char(t[i]));
        lemma_collapse_plain(t, i + 1);
        assert(seq![t[i]] + t.subrange(i + 1, t.len() as int) =~= t.subrange(i, t.len() as int));
    } else {
        assert(t.subrange(i, t.len() as int) =~= Seq::<char>::empty());
    }
}

/// A command without parameters ends at the white space after its name, and
/// that white space belongs to it: the text after it reads as it stands.
pub proof fn lemma_bare_command_takes_space(name: Seq<char>, w: Seq<char>, t: Seq<char>)
    requires
        name.len() > 0,
        plain_text(name),
        !reserved_name(name),
        w.len() > 0,
        blank_text(w),
        t.len() > 0,
        plain_text(t),
    ensures
        spec_parse_text(seq!['\\'] + name + w + t) == Ok::<Seq<SubTextView>, ErrView>(
            seq![SubTextView::Cmd(CommandView::Other(name, Seq::empty())), SubTextView::Str(t)],
        ),
{
    let s = seq!['\\'] + name + w + t;
    let n = name.len() as int;
    let m = w.len() as int;
    let e = s.len() as int;
    assert(e == 1 + n + m + t.len());
    assert(s[0] == '\\');
    assert forall|k: int| 1 <= k < 1 + n implies plain_char(#[trigger] s[k]) by {
        assert(s[k] == name[k - 1]);
    }
    assert forall|k: int| 1 + n <= k < 1 + n + m implies spec_is_whitespace(#[trigger] s[k]) by {
        assert(s[k] == w[k - 1 - n]);
    }
    assert forall|k: int| 1 + n + m <= k < e implies plain_char(#[trigger] s[k]) by {
        assert(s[k] == t[k - 1 - n - m]);
    }
    assert(s.subrange(1, 1 + n) =~= name);
    assert(s.subrange(1 + n + m, e) =~= t);
    lemma_lex_special(s, 0);
    lemma_lex_plain(s, 1, 1 + n);
    lemma_lex_space(s, 1 + n, 1 + n + m);
    lemma_lex_plain(s, 1 + n + m, e);
    lemma_lex_end(s);
    let ts0 = lex_from(s, 0);
    let ts1 = lex_from(s, 1);
    let ts2 = lex_from(s, 1 + n);
    let ts3 = lex_from(s, 1 + n + m);
    let ts4 = lex_from(s, e);
    let cmd = command_view(join_loc(ts0[0].loc, ts1[0].loc), name, Seq::empty());
    let tv = RichView { loc: ts3[0].loc, kind: RichKind::Text(t) };
    assert(rich_params(ts2, join_loc(ts0[0].loc, ts1[0].loc), name) == Ok::<(RichView, Seq<TokenView>), ErrView>((cmd, ts3)));
    assert(top_escape(ts1, ts0[0].loc) == Ok::<(RichView, Seq<TokenView>), ErrView>((cmd, ts3)));
    assert(rich_next(ts0) == Some(Ok::<(RichView, Seq<TokenView>), ErrView>((cmd, ts3))));
    assert(rich_next(ts3) == Some(Ok::<(RichView, Seq<TokenView>), ErrView>((tv, ts4))));
    assert(rich_all(ts4) == (Seq::<RichView>::empty(), Option::<ErrView>::None));
    assert(rich_all(ts3) == (seq![tv], Option::<ErrView>::None)) by {
        assert(seq![tv] + Seq::<RichView>::empty() =~= seq![tv]);
    }
    assert(rich_all(ts0) == (seq![cmd, tv], Option::<ErrView>::None)) by {
        assert(seq![cmd] + seq![tv] =~= seq![cmd, tv]);
    }
    let rs = seq![cmd, tv];
    assert(rich_lex(s) == (rs, Option::<ErrView>::None));
    let st0 = SubTextView::Cmd(CommandView::Other(name, Seq::empty()));
    assert(concat_all(Seq::<Seq<RichView>>::empty(), 0, Seq::empty()) == Ok::<Seq<Seq<char>>, ErrView>(Seq::empty()));
    assert(spec_command(cmd.loc, name, Seq::empty()) == Ok::<SubTextView, ErrView>(st0));
    assert(rs.drop_first() =~= seq![tv]);
    assert(parse_next_from(rs, None, Seq::empty()) == Ok::<(Option<SubTextView>, Seq<RichView>), ErrView>((Some(st0), seq![tv])));
    lemma_collapse_plain(t, 0);
    assert(t.subrange(0, t.len() as int) =~= t);
    assert(Seq::<char>::empty() + t =~= t);
    assert(seq![tv].drop_first() =~= Seq::<RichView>::empty());
    assert(parse_next_from(Seq::<RichView>::empty(), None, t) == Ok::<(Option<SubTextView>, Seq<RichView>), ErrView>((Some(SubTextView::Str(t)), Seq::empty())));
    assert(parse_next_from(seq![tv], None, Seq::empty()) == Ok::<(Option<SubTextView>, Seq<RichView>), ErrView>((Some(SubTextView::Str(t)), Seq::empty())));
    assert(parse_all(Seq::<RichView>::empty(), None) == Ok::<Seq<SubTextView>, ErrView>(Seq::empty()));
    assert(parse_all(seq![tv], None) == Ok::<Seq<SubTextView>, ErrView>(seq![SubTextView::Str(t)])) by {
        assert(seq![SubTextView::Str(t)] + Seq::<SubTextView>::empty() =~= seq![SubTextView::Str(t)]);
    }
    assert(seq![st0] + seq![SubTextView::Str(t)] =~= seq![st0, SubTextView::Str(t)]);
}

/// What `s` holds from index `i` on.
proof fn lemma_tail(s: Seq<char>, i: int, x: Seq<char>)
    requires
        0 <= i <= s.len(),
        s.subrange(i, s.len() as int) == x,
    ensures
        i + x.len() == s.len(),
        forall|k: int| 0 <= k < x.len() ==> s[i + k] == #[trigger] x[k],
{
    assert forall|k: int| 0 <= k < x.len() implies s[i + k] == #[trigger] x[k] by {
        assert(s.subrange(i, s.len() as int)[k] == s[i + k]);
    }
}

/// One parameter `{p}` of plain text reads as the characters of `p`.
proof fn lemma_one_param(s: Seq<char>, i: int, p: Seq<char>, tail: Seq<char>)
    requires
        0 <= i <= s.len(),
        s.subrange(i, s.len() as int) == seq!['{'] + p + seq!['}'] + tail,
        plain_text(p),
    ensures
        lex_from(s, i).len() > lex_from(s, i + p.len() + 2).len(),
        lex_from(s, i)[0].kind == TokKind::SpecChar('{'),
        param_body(lex_from(s, i).drop_first(), 1, Seq::empty()) matches Ok((pv, rest)) && rest
            == lex_from(s, i + p.len() + 2) && spec_concat(pv) == Ok::<Seq<char>, ErrView>(p),
        s.subrange(i + p.len() + 2, s.len() as int) == tail,
{
    let x = seq!['{'] + p + seq!['}'] + tail;
    let q = p.len() as int;
    lemma_tail(s, i, x);
    assert(s[i] == '{') by {
        assert(x[0] == '{');
    }
    assert(s[i + q + 1] == '}') by {
        assert(x[q + 1] == '}');
    }
    assert forall|k: int| i + 1 <= k < i + 1 + q implies plain_char(#[trigger] s[k]) by {
        assert(x[k - i] == p[k - i - 1]);
        assert(s[i + (k - i)] == x[k - i]);
    }
    assert(s.subrange(i + q + 2, s.len() as int) =~= tail) by {
        assert forall|k: int| 0 <= k < tail.len() implies s.subrange(i + q + 2, s.len() as int)[k]
            == tail[k] by {
            assert(x[q + 2 + k] == tail[k]);
            assert(s[i + (q + 2 + k)] == x[q + 2 + k]);
        }
    }
    lemma_lex_special(s, i);
    lemma_lex_special(s, i + q + 1);
    let u = lex_from(s, i + 1);
    let v = lex_from(s, i + q + 1);
    let after = lex_from(s, i + q + 2);
    if q > 0 {
        assert(s.subrange(i + 1, i + 1 + q) =~= p) by {
            assert forall|k: int| 0 <= k < q implies s.subrange(i + 1, i + 1 + q)[k] == p[k] by {
                assert(x[1 + k] == p[k]);
                assert(s[i + (1 + k)] == x[1 + k]);
            }
        }
        lemma_lex_plain(s, i + 1, i + 1 + q);
        let tv = RichView { loc: u[0].loc, kind: RichKind::Text(p) };
        assert(Seq::<RichView>::empty().push(tv) =~= seq![tv]);
        assert(param_body(v, 1, seq![tv]) == Ok::<(Seq<RichView>, Seq<TokenView>), ErrView>((seq![tv], after)));
        assert(param_body(u, 1, Seq::empty()) == Ok::<(Seq<RichView>, Seq<TokenView>), ErrView>((seq![tv], after)));
        assert(Seq::<char>::empty() + p =~= p);
        assert(concat_from(seq![tv], 1, p) == Ok::<Seq<char>, ErrView>(p));
        assert(spec_concat(seq![tv]) == Ok::<Seq<char>, ErrView>(p));
    } else {
        assert(p =~= Seq::<char>::empty());
        assert(param_body(u, 1, Seq::empty()) == Ok::<(Seq<RichView>, Seq<TokenView>), ErrView>((Seq::<RichView>::empty(), after)));
        assert(spec_concat(Seq::<RichView>::empty()) == Ok::<Seq<char>, ErrView>(Seq::empty()));
    }
}

/// The parameters `{p0}{p1}..` of a command read as those characters, in that
/// order, after the parameters `acc` already read.
proof fn lemma_params_in_order(
    s: Seq<char>,
    i: int,
    ps: Seq<Seq<char>>,
    loc: crate::loc::Loc,
    name: Seq<char>,
    acc: Seq<Seq<RichView>>,
    args: Seq<Seq<char>>,
)
    requires
        0 <= i <= s.len(),
        s.subrange(i, s.len() as int) == braced(ps),
        forall|k: int| 0 <= k < ps.len() ==> plain_text(#[trigger] ps[k]),
        acc.len() == args.len(),
        forall|k: int| 0 <= k < acc.len() ==> spec_concat(#[trigger] acc[k]) == Ok::<Seq<char>, ErrView>(args[k]),
    ensures
        params_loop(lex_from(s, i), loc, name, acc) matches Ok((v, rest)) && {
            &&& rest.len() == 0
            &&& v.loc == loc
            &&& v.kind matches RichKind::Command(nm, pvs) && nm == name && pvs.len() == args.len()
                + ps.len() && forall|k: int| 0 <= k < pvs.len() ==> spec_concat(#[trigger] pvs[k])
                == Ok::<Seq<char>, ErrView>((args + ps)[k])
        },
    decreases ps.len(),
{
    if ps.len() == 0 {
        lemma_tail(s, i, braced(ps));
        lemma_lex_end(s);
        assert(args + ps =~= args);
    } else {
        let p = ps[0];
        let tail = braced(ps.drop_first());
        assert(braced(ps) == seq!['{'] + p + seq!['}'] + tail);
        lemma_one_param(s, i, p, tail);
        let ts = lex_from(s, i);
        let (pv, rest) = param_body(ts.drop_first(), 1, Seq::empty())->Ok_0;
        let j = i + p.len() + 2;
        assert(forall|k: int| 0 <= k < ps.drop_first().len() ==> #[trigger] ps.drop_first()[k] == ps[k + 1]);
        assert forall|k: int| 0 <= k < acc.push(pv).len() implies spec_concat(#[trigger] acc.push(pv)[k]) == Ok::<Seq<char>, ErrView>(args.push(p)[k]) by {
            if k < acc.len() {
                assert(acc.push(pv)[k] == acc[k]);
            }
        }
        lemma_tail(s, i, braced(ps));
        lemma_params_in_order(s, j, ps.drop_first(), loc, name, acc.push(pv), args.push(p));
        assert(args.push(p) + ps.drop_first() =~= args + ps);
    }
}

/// When every parameter reads as its characters, the arguments are those
/// characters, in order.
proof fn lemma_concat_all_in_order(pvs: Seq<Seq<RichView>>, args: Seq<Seq<char>>, i: int)
    requires
        0 <= i <= pvs.len(),
        pvs.len() == args.len(),
        forall|k: int| 0 <= k < pvs.len() ==> spec_concat(#[trigger] pvs[k]) == Ok::<Seq<char>, ErrView>(args[k]),
    ensures
        concat_all(pvs, i, args.subrange(0, i)) == Ok::<Seq<Seq<char>>, ErrView>(args),
    decreases pvs.len() - i,
{
    if i < pvs.len() {
        assert(spec_concat(pvs[i]) == Ok::<Seq<char>, ErrView>(args[i]));
        assert(args.subrange(0, i).push(args[i]) =~= args.subrange(0, i + 1));
        lemma_concat_all_in_order(pvs, args, i + 1);
    } else {
        assert(args.subrange(0, i) =~= args);
    }
}

/// A command with parameters `{p0}{p1}..` of plain text, other than the
/// commands with a fixed number of parameters, reads as a custom command
/// whose arguments are those texts, one for each group, in the order of the
/// groups.
pub proof fn lemma_command_args_in_order(name: Seq<char>, ps: Seq<Seq<char>>)
    requires
        name.len() > 0,
        plain_text(name),
        !reserved_name(name),
        forall|k: int| 0 <= k < ps.len() ==> plain_text(#[trigger] ps[k]),
    ensures
        spec_parse_text(seq!['\\'] + name + braced(ps)) == Ok::<Seq<SubTextView>, ErrView>(
            seq![SubTextView::Cmd(CommandView::Other(name, ps))],
        ),
{
    let s = seq!['\\'] + name + braced(ps);
    let n = name.len() as int;
    let e = s.len() as int;
    assert(s[0] == '\\');
    assert forall|k: int| 1 <= k < 1 + n implies plain_char(#[trigger] s[k]) by {
        assert(s[k] == name[k - 1]);
    }
    assert(s.subrange(1, 1 + n) =~= name);
    assert(s.subrange(1 + n, e) =~= braced(ps));
    if ps.len() > 0 {
        assert(braced(ps) == seq!['{'] + ps[0] + seq!['}'] + braced(ps.drop_first()));
        assert(s[1 + n] == braced(ps)[0]);
    } else {
        assert(e == 1 + n);
    }
    lemma_lex_special(s, 0);
    lemma_lex_plain(s, 1, 1 + n);
    let ts0 = lex_from(s, 0);
    let ts1 = lex_from(s, 1);
    let ts2 = lex_from(s, 1 + n);
    let loc = join_loc(ts0[0].loc, ts1[0].loc);
    lemma_params_in_order(s, 1 + n, ps, loc, name, Seq::empty(), Seq::empty());
    assert(Seq::<Seq<char>>::empty() + ps =~= ps);
    let (v, rest) = params_loop(ts2, loc, name, Seq::empty())->Ok_0;
    if ps.len() > 0 {
        lemma_one_param(s, 1 + n, ps[0], braced(ps.drop_first()));
    } else {
        lemma_lex_end(s);
    }
    assert(rich_params(ts2, loc, name) == Ok::<(RichView, Seq<TokenView>), ErrView>((v, rest)));
    assert(rich_next(ts0) == Some(Ok::<(RichView, Seq<TokenView>), ErrView>((v, rest))));
    assert(rich_all(rest) == (Seq::<RichView>::empty(), Option::<ErrView>::None));
    assert(rich_all(ts0) == (seq![v], Option::<ErrView>::None)) by {
        assert(seq![v] + Seq::<RichView>::empty() =~= seq![v]);
    }
    let pvs = v.kind->Command_1;
    lemma_concat_all_in_order(pvs, ps, 0);
    assert(ps.subrange(0, 0) =~= Seq::<Seq<char>>::empty());
    let st = SubTextView::Cmd(CommandView::Other(name, ps));
    assert(spec_command(v.loc, name, pvs) == Ok::<SubTextView, ErrView>(st));
    assert(seq![v].drop_first() =~= Seq::<RichView>::empty());
    assert(parse_next_from(seq![v], None, Seq::empty()) == Ok::<(Option<SubTextView>, Seq<RichView>), ErrView>((Some(st), Seq::empty())));
    assert(parse_all(Seq::<RichView>::empty(), None) == Ok::<Seq<SubTextView>, ErrView>(Seq::empty()));
    assert(seq![st] + Seq::<SubTextView>::empty() =~= seq![st]);
}

} // verus!
