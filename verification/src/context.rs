//! The running context of a game and the actions it produces, with the merge
//! of an action with its counterpart in the base language.

use crate::action::{line_str, push_chars_spec, ActionLines, LineView, VarMap};
use crate::chars::{
    byte_len, byte_offset, is_whitespace, lemma_byte_offset_step, len_utf8,
    spec_is_whitespace,
};
use crate::lexer::fits_offsets;
use crate::loc::Loc;
use crate::raw_value::{nat_decimal, nat_to_string, value_bool, value_str};
use crate::strings::{collect_chars, escape_str, push_char, push_escaped_str, str_eq};
use crate::text_error::{error_message, ErrView, ParseError};
use crate::exec::{Expr, Program};
use crate::fallback::{proj, seq_or_empty, Fallback, FallbackSpec, IsEmpty2};
use crate::parser::opt_string_view;
use crate::raw_value::RawValue;
use crate::script_text::{Command, Line};
use crate::settings::ActionRecord;
use crate::str_map::StrMap;
use vstd::prelude::*;
use vstd::std_specs::convert::FromSpecImpl;

verus! {

broadcast use {vstd::string::group_string_axioms, Fallback::lemma_of_view};

/// The serializable context.
pub struct RawContext {
    /// Current base paragraph tag.
    pub cur_base_para: String,
    /// Current paragraph tag.
    pub cur_para: String,
    /// Current text index.
    pub cur_act: usize,
    /// Current local variables.
    pub locals: VarMap,
}

impl RawContext {
    /// The context at the start of no paragraph.
    pub fn new() -> (c: Self)
        ensures
            c.cur_base_para@ == Seq::<char>::empty(),
            c.cur_para@ == Seq::<char>::empty(),
            c.cur_act == 0,
            c.locals@ == Map::<Seq<char>, RawValue>::empty(),
    {
        RawContext {
            cur_base_para: String::new(),
            cur_para: String::new(),
            cur_act: 0,
            locals: StrMap::new(),
        }
    }
}

/// Two contexts hold the same paragraphs, act and variables.
pub open spec fn same_ctx(a: RawContext, b: RawContext) -> bool {
    &&& a.cur_base_para == b.cur_base_para
    &&& a.cur_para == b.cur_para
    &&& a.cur_act == b.cur_act
    &&& a.locals@ == b.locals@
}

impl Clone for RawContext {
    fn clone(&self) -> (c: Self)
        ensures
            c.cur_base_para == self.cur_base_para,
            c.cur_para == self.cur_para,
            c.cur_act == self.cur_act,
            c.locals@ == self.locals@,
    {
        let locals = self.locals.clone();
        proof {
            assert(locals@ =~= self.locals@);
        }
        RawContext {
            cur_base_para: self.cur_base_para.clone(),
            cur_para: self.cur_para.clone(),
            cur_act: self.cur_act,
            locals,
        }
    }
}

impl Default for RawContext {
    fn default() -> (c: Self)
        ensures
            c.cur_base_para@ == Seq::<char>::empty(),
            c.cur_para@ == Seq::<char>::empty(),
            c.cur_act == 0,
            c.locals@ == Map::<Seq<char>, RawValue>::empty(),
    {
        RawContext::new()
    }
}

impl IsEmpty2 for ActionLines {
    open spec fn empty_spec(&self) -> bool {
        self@.len() == 0
    }

    fn is_empty2(&self) -> (b: bool) {
        self.is_empty()
    }
}

/// One switch in the switches of an [`Action`].
pub struct Switch {
    /// The switch text.
    pub text: String,
    /// The program run when the switch is chosen.
    pub action: Program,
    /// Whether the switch is enabled.
    pub enabled: bool,
}

/// The full action information in one line of a paragraph.
pub struct Action {
    /// The context snapshot.
    pub ctx: RawContext,
    /// The full texts.
    pub line: ActionLines,
    /// The values that the texts refer to by index.
    pub line_params: Vec<RawValue>,
    /// The key of the current character.
    pub ch_key: Option<String>,
    /// The current character.
    pub character: Option<String>,
    /// The title of current paragraph.
    pub para_title: Option<String>,
    /// The switches.
    pub switches: Vec<Switch>,
    /// The other custom properties.
    pub props: StrMap<String>,
}

/// A [`Fallback`] of each field of a [`Switch`].
pub struct FallbackSwitch {
    /// The texts.
    pub text: Fallback<String>,
    /// The programs.
    pub action: Fallback<Program>,
    /// Whether enabled.
    pub enabled: Fallback<bool>,
}

/// A [`Fallback`] of each field of an [`Action`].
pub struct FallbackAction {
    /// The contexts.
    pub ctx: Fallback<RawContext>,
    /// The texts.
    pub line: Fallback<ActionLines>,
    /// The text parameters.
    pub line_params: Fallback<Vec<RawValue>>,
    /// The character keys.
    pub ch_key: Fallback<Option<String>>,
    /// The characters.
    pub character: Fallback<Option<String>>,
    /// The paragraph titles.
    pub para_title: Fallback<Option<String>>,
    /// The switches.
    pub switches: Fallback<Vec<Switch>>,
    /// The custom properties.
    pub props: Fallback<StrMap<String>>,
}

impl FallbackSpec for Switch {
    type SpecType = FallbackSwitch;
}

impl FallbackSpec for Action {
    type SpecType = FallbackAction;
}

impl From<Fallback<Switch>> for FallbackSwitch {
    fn from(f: Fallback<Switch>) -> (r: Self) {
        let (d, b) = f.unzip();
        let (d_text, d_action, d_enabled) = match d {
            Some(s) => (Some(s.text), Some(s.action), Some(s.enabled)),
            None => (None, None, None),
        };
        let (b_text, b_action, b_enabled) = match b {
            Some(s) => (Some(s.text), Some(s.action), Some(s.enabled)),
            None => (None, None, None),
        };
        FallbackSwitch {
            text: Fallback::new(d_text, b_text),
            action: Fallback::new(d_action, b_action),
            enabled: Fallback::new(d_enabled, b_enabled),
        }
    }
}

impl FromSpecImpl<Fallback<Switch>> for FallbackSwitch {
    open spec fn obeys_from_spec() -> bool {
        true
    }

    open spec fn from_spec(f: Fallback<Switch>) -> FallbackSwitch {
        FallbackSwitch {
            text: Fallback::of(proj(f@.0, |s: Switch| s.text), proj(f@.1, |s: Switch| s.text)),
            action: Fallback::of(proj(f@.0, |s: Switch| s.action), proj(f@.1, |s: Switch| s.action)),
            enabled: Fallback::of(
                proj(f@.0, |s: Switch| s.enabled),
                proj(f@.1, |s: Switch| s.enabled),
            ),
        }
    }
}

/// The fields of an optional action, each of them optional.
fn split_action(a: Option<Action>) -> (r: (
    Option<RawContext>,
    Option<ActionLines>,
    Option<Vec<RawValue>>,
    Option<Option<String>>,
    Option<Option<String>>,
    Option<Option<String>>,
    Option<Vec<Switch>>,
    Option<StrMap<String>>,
))
    ensures
        r.0 == proj(a, |x: Action| x.ctx),
        r.1 == proj(a, |x: Action| x.line),
        r.2 == proj(a, |x: Action| x.line_params),
        r.3 == proj(a, |x: Action| x.ch_key),
        r.4 == proj(a, |x: Action| x.character),
        r.5 == proj(a, |x: Action| x.para_title),
        r.6 == proj(a, |x: Action| x.switches),
        r.7 == proj(a, |x: Action| x.props),
{
    match a {
        Some(x) => (
            Some(x.ctx),
            Some(x.line),
            Some(x.line_params),
            Some(x.ch_key),
            Some(x.character),
            Some(x.para_title),
            Some(x.switches),
            Some(x.props),
        ),
        None => (None, None, None, None, None, None, None, None),
    }
}

impl From<Fallback<Action>> for FallbackAction {
    fn from(f: Fallback<Action>) -> (r: Self) {
        let (d, b) = f.unzip();
        let (d0, d1, d2, d3, d4, d5, d6, d7) = split_action(d);
        let (b0, b1, b2, b3, b4, b5, b6, b7) = split_action(b);
        FallbackAction {
            ctx: Fallback::new(d0, b0),
            line: Fallback::new(d1, b1),
            line_params: Fallback::new(d2, b2),
            ch_key: Fallback::new(d3, b3),
            character: Fallback::new(d4, b4),
            para_title: Fallback::new(d5, b5),
            switches: Fallback::new(d6, b6),
            props: Fallback::new(d7, b7),
        }
    }
}

impl FromSpecImpl<Fallback<Action>> for FallbackAction {
    open spec fn obeys_from_spec() -> bool {
        true
    }

    open spec fn from_spec(f: Fallback<Action>) -> FallbackAction {
        FallbackAction {
            ctx: Fallback::of(proj(f@.0, |x: Action| x.ctx), proj(f@.1, |x: Action| x.ctx)),
            line: Fallback::of(proj(f@.0, |x: Action| x.line), proj(f@.1, |x: Action| x.line)),
            line_params: Fallback::of(
                proj(f@.0, |x: Action| x.line_params),
                proj(f@.1, |x: Action| x.line_params),
            ),
            ch_key: Fallback::of(proj(f@.0, |x: Action| x.ch_key), proj(f@.1, |x: Action| x.ch_key)),
            character: Fallback::of(
                proj(f@.0, |x: Action| x.character),
                proj(f@.1, |x: Action| x.character),
            ),
            para_title: Fallback::of(
                proj(f@.0, |x: Action| x.para_title),
                proj(f@.1, |x: Action| x.para_title),
            ),
            switches: Fallback::of(
                proj(f@.0, |x: Action| x.switches),
                proj(f@.1, |x: Action| x.switches),
            ),
            props: Fallback::of(proj(f@.0, |x: Action| x.props), proj(f@.1, |x: Action| x.props)),
        }
    }
}

/// The first of two optional sequences that is present and not empty, or the
/// empty sequence.
pub open spec fn first_filled<T>(a: Option<Seq<T>>, b: Option<Seq<T>>) -> Seq<T> {
    if a is Some && a->0.len() > 0 {
        a->0
    } else if b is Some && b->0.len() > 0 {
        b->0
    } else {
        Seq::empty()
    }
}

/// The first of two optional strings that is present and not empty.
pub open spec fn first_filled_str(a: Option<Seq<char>>, b: Option<Seq<char>>) -> Option<Seq<char>> {
    if a is Some && a->0.len() > 0 {
        a
    } else if b is Some && b->0.len() > 0 {
        b
    } else {
        None
    }
}

/// An optional string field of an optional action, as characters.
pub open spec fn flat_str(o: Option<Option<String>>) -> Option<Seq<char>> {
    match o {
        Some(Some(s)) => Some(s@),
        _ => None,
    }
}

/// The item at `i`, if there is one.
pub open spec fn item_at<T>(s: Seq<T>, i: int) -> Option<T> {
    if 0 <= i < s.len() {
        Some(s[i])
    } else {
        None
    }
}

/// The text of a switch merged with its counterpart in the base language.
pub open spec fn merged_switch_text(d: Option<Switch>, b: Option<Switch>) -> Seq<char> {
    first_filled(proj(d, |s: Switch| s.text@), proj(b, |s: Switch| s.text@))
}

/// The program of a switch merged with its counterpart in the base language.
pub open spec fn merged_switch_action(d: Option<Switch>, b: Option<Switch>) -> Seq<Expr> {
    first_filled(proj(d, |s: Switch| s.action.0@), proj(b, |s: Switch| s.action.0@))
}

/// Whether a switch merged with its counterpart in the base language is
/// enabled: the base language decides where it has the switch.
pub open spec fn merged_switch_enabled(d: Option<Switch>, b: Option<Switch>) -> bool {
    if b is Some {
        b->0.enabled
    } else if d is Some {
        d->0.enabled
    } else {
        true
    }
}

/// `r` is the switch `d` merged with its counterpart `b` in the base language.
pub open spec fn is_merged_switch(d: Option<Switch>, b: Option<Switch>, r: Switch) -> bool {
    &&& r.text@ == merged_switch_text(d, b)
    &&& r.action.0@ == merged_switch_action(d, b)
    &&& r.enabled == merged_switch_enabled(d, b)
}

/// `r` holds the switches of `ds` merged one by one with those of `bs`.
pub open spec fn is_merged_switches(ds: Seq<Switch>, bs: Seq<Switch>, r: Seq<Switch>) -> bool {
    &&& r.len() == (if ds.len() >= bs.len() { ds.len() } else { bs.len() })
    &&& forall|i: int|
        0 <= i < r.len() ==> #[trigger] is_merged_switch(item_at(ds, i), item_at(bs, i), r[i])
}

/// The switches of an optional action.
pub open spec fn switches_of(a: Option<Action>) -> Seq<Switch> {
    match a {
        Some(a) => a.switches@,
        None => Seq::empty(),
    }
}

/// The properties of an optional action.
pub open spec fn props_of(a: Option<Action>) -> Map<Seq<char>, String> {
    match a {
        Some(a) => a.props@,
        None => Map::empty(),
    }
}

/// `r` is the action `d` merged with its counterpart `b` in the base language:
/// the context of the first present, the texts, parameters and names of the
/// first that has them, the switches merged one by one, and the properties of
/// both, those of `d` first.
pub open spec fn is_merged_action(d: Option<Action>, b: Option<Action>, r: Action) -> bool {
    &&& r.ctx == (if d is Some { d->0.ctx } else { b->0.ctx })
    &&& r.line@ == first_filled(proj(d, |a: Action| a.line@), proj(b, |a: Action| a.line@))
    &&& r.line_params@ == first_filled(
        proj(d, |a: Action| a.line_params@),
        proj(b, |a: Action| a.line_params@),
    )
    &&& opt_string_view(r.ch_key) == first_filled_str(
        flat_str(proj(d, |a: Action| a.ch_key)),
        flat_str(proj(b, |a: Action| a.ch_key)),
    )
    &&& opt_string_view(r.character) == first_filled_str(
        flat_str(proj(d, |a: Action| a.character)),
        flat_str(proj(b, |a: Action| a.character)),
    )
    &&& opt_string_view(r.para_title) == first_filled_str(
        flat_str(proj(d, |a: Action| a.para_title)),
        flat_str(proj(b, |a: Action| a.para_title)),
    )
    &&& is_merged_switches(switches_of(d), switches_of(b), r.switches@)
    &&& r.props@ == props_of(b).union_prefer_right(props_of(d))
}

/// The expressions of a program.
fn program_exprs(p: Program) -> (v: Vec<Expr>)
    ensures
        v == p.0,
{
    p.0
}

/// An action without a counterpart in the base language comes out of the
/// merge as it was, but that an empty character key, character or title
/// counts as none.
pub proof fn lemma_merge_alone(a: Action, r: Action)
    requires
        is_merged_action(Some(a), None, r),
    ensures
        r.ctx == a.ctx,
        r.line@ == a.line@,
        r.line_params@ == a.line_params@,
        opt_string_view(r.ch_key) == first_filled_str(flat_str(Some(a.ch_key)), None),
        opt_string_view(r.character) == first_filled_str(flat_str(Some(a.character)), None),
        opt_string_view(r.para_title) == first_filled_str(flat_str(Some(a.para_title)), None),
        r.switches@.len() == a.switches@.len(),
        forall|i: int|
            0 <= i < r.switches@.len() ==> {
                &&& #[trigger] r.switches@[i].text@ == a.switches@[i].text@
                &&& r.switches@[i].action.0@ == a.switches@[i].action.0@
                &&& r.switches@[i].enabled == a.switches@[i].enabled
            },
        r.props@ == a.props@,
{
    assert(r.props@ =~= a.props@);
    assert forall|i: int| 0 <= i < r.switches@.len() implies {
        &&& #[trigger] r.switches@[i].text@ == a.switches@[i].text@
        &&& r.switches@[i].action.0@ == a.switches@[i].action.0@
        &&& r.switches@[i].enabled == a.switches@[i].enabled
    } by {
        assert(is_merged_switch(item_at(a.switches@, i), item_at(Seq::<Switch>::empty(), i), r.switches@[i]));
    }
}

/// Merges a switch with its counterpart in the base language.
fn merge_switch(f: Fallback<Switch>) -> (r: Switch)
    ensures
        is_merged_switch(f@.0, f@.1, r),
{
    let ghost (d, b) = f@;
    let s = f.spec();
    let text = match s.text.and_any() {
        Some(t) => t,
        None => String::new(),
    };
    let exprs = s.action.map(program_exprs);
    let action = match exprs.and_any() {
        Some(v) => Program(v),
        None => Program(Vec::new()),
    };
    let (enabled, base_enabled) = s.enabled.unzip();
    let enabled = match base_enabled {
        Some(e) => e,
        None => match enabled {
            Some(e) => e,
            None => true,
        },
    };
    Switch { text, action, enabled }
}

/// A sequence from its `k`-th item on, empty past its end.
pub open spec fn from_item<T>(s: Seq<T>, k: int) -> Seq<T> {
    if k < s.len() {
        s.subrange(k, s.len() as int)
    } else {
        Seq::empty()
    }
}

/// Merges the switches with those of the base language, one by one.
fn merge_switches(f: Fallback<Vec<Switch>>) -> (r: Vec<Switch>)
    ensures
        is_merged_switches(seq_or_empty(f@.0), seq_or_empty(f@.1), r@),
{
    let ghost ds = seq_or_empty(f@.0);
    let ghost bs = seq_or_empty(f@.1);
    let mut it = f.into_iter();
    let mut out: Vec<Switch> = Vec::new();
    loop
        invariant_except_break
            it@ == (from_item(ds, out@.len() as int), from_item(bs, out@.len() as int)),
            out@.len() < ds.len() || out@.len() < bs.len() || it@.0.len() + it@.1.len() == 0,
        invariant
            forall|i: int|
                0 <= i < out@.len() ==> #[trigger] is_merged_switch(item_at(ds, i), item_at(bs, i), out@[i]),
            out@.len() <= ds.len() || out@.len() <= bs.len(),
        ensures
            out@.len() == (if ds.len() >= bs.len() { ds.len() } else { bs.len() }),
        decreases it@.0.len() + it@.1.len(),
    {
        let ghost k = out@.len() as int;
        match it.next() {
            Some(pair) => {
                proof {
                    assert(k < ds.len() ==> from_item(ds, k + 1) =~= from_item(ds, k).drop_first());
                    assert(k < bs.len() ==> from_item(bs, k + 1) =~= from_item(bs, k).drop_first());
                    assert(k >= ds.len() ==> from_item(ds, k + 1) =~= from_item(ds, k));
                    assert(k >= bs.len() ==> from_item(bs, k + 1) =~= from_item(bs, k));
                }
                let s = merge_switch(pair);
                out.push(s);
            },
            None => {
                break;
            },
        }
    }
    out
}

/// Merges an action with its counterpart in the base language; [`None`] if
/// there is neither.
pub fn merge_action(actions: Fallback<Action>) -> (res: Option<Action>)
    ensures
        res is Some <==> (actions@.0 is Some || actions@.1 is Some),
        res is Some ==> is_merged_action(actions@.0, actions@.1, res->0),
{
    if actions.is_some() {
        let ghost (d, b) = actions@;
        let actions = actions.spec();
        let ctx = match actions.ctx.fallback() {
            Some(c) => c,
            None => RawContext::new(),
        };
        let line = match actions.line.and_any() {
            Some(l) => l,
            None => ActionLines::new(),
        };
        let line_params = match actions.line_params.and_any() {
            Some(p) => p,
            None => Vec::new(),
        };
        let ch_key = actions.ch_key.flatten().and_any();
        let character = actions.character.flatten().and_any();
        let para_title = actions.para_title.flatten().and_any();
        let switches = merge_switches(actions.switches);
        let (props, base_props) = actions.props.unzip();
        let mut props = match props {
            Some(p) => p,
            None => StrMap::new(),
        };
        let ghost first = props@;
        match base_props {
            Some(base_props) => props.or_insert_all(base_props),
            None => {},
        }
        proof {
            assert(props_of(b).union_prefer_right(first) =~= props@);
        }
        Some(Action { ctx, line, line_params, ch_key, character, para_title, switches, props })
    } else {
        None
    }
}

/// The open status when creating a context.
#[derive(Debug, Clone)]
pub enum OpenStatus {
    /// Start loading config file.
    LoadProfile,
    /// Start creating plugin runtime.
    CreateRuntime,
    /// Loading the plugin.
    LoadPlugin(String, usize, usize),
    /// Executing game plugins.
    GamePlugin,
    /// Loading the resources.
    LoadResource,
    /// Loading the paragraphs.
    LoadParagraph,
}

/// A piece of text made of white space only.
pub open spec fn is_blank(l: LineView) -> bool {
    forall|k: int| 0 <= k < line_str(l).len() ==> spec_is_whitespace(#[trigger] line_str(l)[k])
}

/// End of the blank lines that start at `i`.
pub open spec fn blank_prefix_end(v: Seq<LineView>, i: int) -> int
    decreases v.len() - i,
{
    if 0 <= i < v.len() && is_blank(v[i]) {
        blank_prefix_end(v, i + 1)
    } else {
        i
    }
}

/// Start of the blank lines that end at `j`.
pub open spec fn blank_suffix_start(v: Seq<LineView>, j: int) -> int
    decreases j,
{
    if 0 < j <= v.len() && is_blank(v[j - 1]) {
        blank_suffix_start(v, j - 1)
    } else {
        j
    }
}

/// Bounds of [`blank_prefix_end`].
proof fn lemma_blank_prefix_end(v: Seq<LineView>, i: int)
    requires
        0 <= i <= v.len(),
    ensures
        i <= blank_prefix_end(v, i) <= v.len(),
    decreases v.len() - i,
{
    if i < v.len() && is_blank(v[i]) {
        lemma_blank_prefix_end(v, i + 1);
    }
}

/// Bounds of [`blank_suffix_start`].
proof fn lemma_blank_suffix_start(v: Seq<LineView>, j: int)
    requires
        0 <= j <= v.len(),
    ensures
        0 <= blank_suffix_start(v, j) <= j,
    decreases j,
{
    if 0 < j && is_blank(v[j - 1]) {
        lemma_blank_suffix_start(v, j - 1);
    }
}

/// The lines without the blank lines at the back, then without those at the front.
pub open spec fn trim_blank_spec(v: Seq<LineView>) -> Seq<LineView> {
    let w = v.subrange(0, blank_suffix_start(v, v.len() as int));
    w.subrange(blank_prefix_end(w, 0), w.len() as int)
}

/// Whether a string is made of white space only.
fn str_is_blank(s: &str) -> (b: bool)
    ensures
        b == (forall|k: int| 0 <= k < s@.len() ==> spec_is_whitespace(#[trigger] s@[k])),
{
    let mut all = true;
    for c in it: s.chars()
        invariant
            it.seq() == s@,
            all == (forall|k: int| 0 <= k < it.index() ==> spec_is_whitespace(#[trigger] s@[k])),
    {
        if !is_whitespace(c) {
            all = false;
        }
    }
    all
}

/// Removes the lines made of white space only, at the back and then at the
/// front, as a processed action keeps its text.
pub fn trim_blank_lines(lines: &mut ActionLines)
    ensures
        final(lines)@ == trim_blank_spec(old(lines)@),
{
    let ghost v = lines@;
    proof {
        lemma_blank_suffix_start(v, v.len() as int);
        assert(v.subrange(0, v.len() as int) =~= v);
    }
    loop
        invariant
            blank_suffix_start(v, v.len() as int) <= lines@.len() <= v.len(),
            lines@ == v.subrange(0, lines@.len() as int),
            blank_suffix_start(v, lines@.len() as int) == blank_suffix_start(v, v.len() as int),
        ensures
            lines@ == v.subrange(0, blank_suffix_start(v, v.len() as int)),
        decreases lines@.len(),
    {
        let n = lines.len();
        if n == 0 {
            break;
        }
        if str_is_blank(lines.get(n - 1).as_str()) {
            proof {
                assert(lines@[n - 1] == v[n - 1]);
                lemma_blank_suffix_start(v, n - 1);
            }
            lines.pop_back();
            assert(lines@ =~= v.subrange(0, lines@.len() as int));
        } else {
            break;
        }
    }
    let ghost w = lines@;
    proof {
        lemma_blank_prefix_end(w, 0);
        assert(w.subrange(0, w.len() as int) =~= w);
    }
    loop
        invariant
            lines@.len() <= w.len(),
            w.len() - lines@.len() <= blank_prefix_end(w, 0) <= w.len(),
            lines@ == w.subrange(w.len() - lines@.len(), w.len() as int),
            blank_prefix_end(w, w.len() - lines@.len()) == blank_prefix_end(w, 0),
        ensures
            lines@ == w.subrange(blank_prefix_end(w, 0), w.len() as int),
        decreases lines@.len(),
    {
        let n = lines.len();
        if n == 0 {
            break;
        }
        if str_is_blank(lines.get(0).as_str()) {
            proof {
                assert(lines@[0] == w[w.len() - n]);
                lemma_blank_prefix_end(w, w.len() - n + 1);
            }
            lines.pop_front();
            assert(lines@ =~= w.subrange(w.len() - lines@.len(), w.len() as int));
        } else {
            break;
        }
    }
}

/// Finishes an action that the action plugins have processed: its blank
/// lines go, at the back and then at the front, and whether it belongs in the
/// history comes back: it does where a line or a character is left.
pub fn finish_action(action: &mut Action) -> (keep: bool)
    ensures
        final(action).line@ == trim_blank_spec(old(action).line@),
        keep == (final(action).line@.len() > 0 || old(action).character is Some),
        final(action).ctx == old(action).ctx,
        final(action).line_params == old(action).line_params,
        final(action).ch_key == old(action).ch_key,
        final(action).character == old(action).character,
        final(action).para_title == old(action).para_title,
        final(action).switches == old(action).switches,
        final(action).props == old(action).props,
{
    trim_blank_lines(&mut action.line);
    !action.line.is_empty() || action.character.is_some()
}

/// Finishes a processed action as [`finish_action`] does and, where it is
/// kept, records its context at the end of the play's history.
pub fn record_action(record: &mut ActionRecord, action: &mut Action) -> (kept: bool)
    ensures
        final(action).line@ == trim_blank_spec(old(action).line@),
        kept == (final(action).line@.len() > 0 || old(action).character is Some),
        same_but(*old(action), *final(action), true, false, false, false, false),
        kept ==> {
            &&& final(record).history@.len() == old(record).history@.len() + 1
            &&& final(record).history@.drop_last() == old(record).history@
            &&& same_ctx(final(record).history@.last(), final(action).ctx)
        },
        !kept ==> final(record).history@ == old(record).history@,
{
    let kept = finish_action(action);
    if kept {
        record.history.push(action.ctx.clone());
        proof {
            assert(record.history@.drop_last() =~= old(record).history@);
        }
    }
    kept
}

/// What a text plugin gives back for a command it handles.
pub struct TextResult {
    /// The lines to append to the action.
    pub line: ActionLines,
    /// The properties to set on the action.
    pub props: StrMap<String>,
}

/// What the game is asked to do for a piece of text before the action takes it in.
pub enum CmdRequest<'a> {
    /// Nothing: the piece needs no outside work.
    Nothing,
    /// Look up the resource with this key (the name of a character).
    Resource(String),
    /// Run this script; its value goes into the text.
    Exec(&'a Program),
    /// Run this script; its value says whether a switch is enabled.
    Enabled(&'a Program),
    /// Hand this command, with these arguments, to the text plugin registered for it.
    Plugin(&'a String, &'a Vec<String>),
}

/// What the game answers to a [`CmdRequest`].
pub enum CmdOutcome {
    /// Nothing was asked.
    Nothing,
    /// The resource, where there is one.
    Resource(Option<RawValue>),
    /// The value of the script of an `\exec` command.
    ExecValue(RawValue),
    /// The value of the script that enables a switch.
    Enabled(RawValue),
    /// What the text plugin gave back, or nothing where no plugin handles the command.
    Plugin(Option<TextResult>),
}

/// The key of the resource that names the character with key `key`.
pub open spec fn character_res_key(key: Seq<char>) -> Seq<char> {
    "ch_"@ + key
}

/// Whether an outcome answers what a piece of text asks for.
pub open spec fn outcome_fits(line: Line, outcome: CmdOutcome) -> bool {
    match line {
        Line::Str(_) => outcome is Nothing,
        Line::Cmd(Command::Character(_, alter)) => if alter@.len() == 0 {
            outcome is Resource
        } else {
            outcome is Nothing
        },
        Line::Cmd(Command::Exec(_)) => outcome is ExecValue,
        Line::Cmd(Command::Switch { enabled, .. }) => match enabled {
            Some(_) => outcome is Enabled,
            None => outcome is Nothing,
        },
        Line::Cmd(Command::Other(_, _)) => outcome is Plugin,
    }
}

/// Says what a piece of text needs from the game before an action can take it in.
pub fn command_request(line: &Line) -> (r: CmdRequest<'_>)
    ensures
        match *line {
            Line::Str(_) => r is Nothing,
            Line::Cmd(Command::Character(key, alter)) => if alter@.len() == 0 {
                r matches CmdRequest::Resource(k) && k@ == character_res_key(key@)
            } else {
                r is Nothing
            },
            Line::Cmd(Command::Exec(p)) => r matches CmdRequest::Exec(q) && *q == p,
            Line::Cmd(Command::Switch { enabled, .. }) => match enabled {
                Some(p) => r matches CmdRequest::Enabled(q) && *q == p,
                None => r is Nothing,
            },
            Line::Cmd(Command::Other(name, args)) => r matches CmdRequest::Plugin(n, a) && *n == name
                && *a == args,
        },
{
    match line {
        Line::Str(_) => CmdRequest::Nothing,
        Line::Cmd(Command::Character(key, alter)) => {
            if alter.as_str().is_empty() {
                let mut k = String::new();
                k.append("ch_");
                k.append(key.as_str());
                CmdRequest::Resource(k)
            } else {
                CmdRequest::Nothing
            }
        },
        Line::Cmd(Command::Exec(p)) => CmdRequest::Exec(p),
        Line::Cmd(Command::Switch { enabled, .. }) => match enabled {
            Some(p) => CmdRequest::Enabled(p),
            None => CmdRequest::Nothing,
        },
        Line::Cmd(Command::Other(name, args)) => CmdRequest::Plugin(name, args),
    }
}

/// The action before any piece of a text is taken in: the context and the
/// paragraph title, and nothing else.
pub fn exact_text_start(ctx: RawContext, para_title: Option<String>) -> (a: Action)
    ensures
        a.ctx == ctx,
        a.line@ == Seq::<LineView>::empty(),
        a.line_params@ == Seq::<RawValue>::empty(),
        a.ch_key is None,
        a.character is None,
        a.para_title == para_title,
        a.switches@ == Seq::<Switch>::empty(),
        a.props@ == Map::<Seq<char>, String>::empty(),
{
    Action {
        ctx,
        line: ActionLines::new(),
        line_params: Vec::new(),
        ch_key: None,
        character: None,
        para_title,
        switches: Vec::new(),
        props: StrMap::new(),
    }
}

/// The characters that stand in a text for the `n`-th value of its scripts.
pub open spec fn param_marker(n: nat) -> Seq<char> {
    seq!['{'] + nat_decimal(n) + seq!['}']
}

/// The fields of `b` are those of `a`, except those that the flags let
/// change: the line, the values of the line, the character (key and name),
/// the switches and the properties.
pub open spec fn same_but(
    a: Action,
    b: Action,
    line: bool,
    params: bool,
    character: bool,
    switches: bool,
    props: bool,
) -> bool {
    &&& b.ctx == a.ctx
    &&& b.para_title == a.para_title
    &&& !line ==> b.line@ == a.line@
    &&& !params ==> b.line_params@ == a.line_params@
    &&& !character ==> b.ch_key == a.ch_key && b.character == a.character
    &&& !switches ==> b.switches@ == a.switches@
    &&& !props ==> b.props@ == a.props@
}

/// The name of a character from its resource, as a string.
pub open spec fn resource_name(res: Option<RawValue>) -> Option<Seq<char>> {
    match res {
        Some(v) => Some(value_str(v)),
        None => None,
    }
}

/// Takes one piece of a text into the action being built, with the game's
/// answer to what the piece asked for (see [`command_request`]): a string
/// joins the line; a character command sets the character's key and its
/// name, the alias where there is one and else the resource; an `\exec`
/// command puts `{n}` into the line and its value at index `n` of the line's
/// values; a switch joins the switches, enabled where it has no condition and
/// else as its condition's value converts to a boolean; another command
/// appends the lines its plugin gave and sets the properties it gave, and
/// where no plugin handles it, fails with `Invalid command <name>` and leaves
/// the action as it was.
pub fn exact_text_step(acc: &mut Action, line: Line, outcome: CmdOutcome) -> (r: Result<(), String>)
    requires
        outcome_fits(line, outcome),
    ensures
        r is Err <==> (line matches Line::Cmd(Command::Other(_, _)) && outcome matches CmdOutcome::Plugin(None)),
        match line {
            Line::Str(s) => {
                &&& final(acc).line@ == push_chars_spec(old(acc).line@, s@)
                &&& same_but(*old(acc), *final(acc), true, false, false, false, false)
            },
            Line::Cmd(Command::Character(key, alter)) => {
                &&& final(acc).ch_key == Some(key)
                &&& alter@.len() > 0 ==> final(acc).character == Some(alter)
                &&& alter@.len() == 0 ==> (outcome matches CmdOutcome::Resource(res)
                    && opt_string_view(final(acc).character) == resource_name(res))
                &&& same_but(*old(acc), *final(acc), false, false, true, false, false)
            },
            Line::Cmd(Command::Exec(_)) => outcome matches CmdOutcome::ExecValue(v) && {
                &&& final(acc).line@ == push_chars_spec(
                    old(acc).line@,
                    param_marker(old(acc).line_params@.len()),
                )
                &&& final(acc).line_params@ == old(acc).line_params@.push(v)
                &&& same_but(*old(acc), *final(acc), true, true, false, false, false)
            },
            Line::Cmd(Command::Switch { text, action, enabled }) => {
                &&& final(acc).switches@.len() == old(acc).switches@.len() + 1
                &&& final(acc).switches@.drop_last() == old(acc).switches@
                &&& final(acc).switches@.last().text == text
                &&& final(acc).switches@.last().action == action
                &&& final(acc).switches@.last().enabled == match enabled {
                    None => true,
                    Some(_) => outcome matches CmdOutcome::Enabled(v) && value_bool(v),
                }
                &&& same_but(*old(acc), *final(acc), false, false, false, true, false)
            },
            Line::Cmd(Command::Other(name, _)) => match outcome {
                CmdOutcome::Plugin(Some(res)) => {
                    &&& final(acc).line@ == old(acc).line@ + res.line@
                    &&& final(acc).props@ == old(acc).props@.union_prefer_right(res.props@)
                    &&& same_but(*old(acc), *final(acc), true, false, false, false, true)
                },
                _ => {
                    &&& r matches Err(m) && m@ == "Invalid command "@ + name@
                    &&& same_but(*old(acc), *final(acc), false, false, false, false, false)
                },
            },
        },
{
    match line {
        Line::Str(s) => {
            acc.line.push_back_chars(s.as_str());
            Ok(())
        },
        Line::Cmd(Command::Character(key, alter)) => {
            acc.ch_key = Some(key);
            if alter.as_str().is_empty() {
                acc.character = match outcome {
                    CmdOutcome::Resource(Some(v)) => Some(v.into_str()),
                    _ => None,
                };
            } else {
                acc.character = Some(alter);
            }
            Ok(())
        },
        Line::Cmd(Command::Exec(_)) => {
            match outcome {
                CmdOutcome::ExecValue(v) => {
                    let n = acc.line_params.len();
                    let mut marker = String::new();
                    push_char(&mut marker, '{');
                    marker.append(nat_to_string(n as u64).as_str());
                    push_char(&mut marker, '}');
                    proof {
                        assert(marker@ =~= param_marker(old(acc).line_params@.len()));
                    }
                    acc.line.push_back_chars(marker.as_str());
                    acc.line_params.push(v);
                },
                _ => {},
            }
            Ok(())
        },
        Line::Cmd(Command::Switch { text, action, enabled }) => {
            let on = match enabled {
                None => true,
                Some(_) => match &outcome {
                    CmdOutcome::Enabled(v) => v.get_bool(),
                    _ => false,
                },
            };
            acc.switches.push(Switch { text, action, enabled: on });
            proof {
                assert(acc.switches@.drop_last() =~= old(acc).switches@);
            }
            Ok(())
        },
        Line::Cmd(Command::Other(name, _)) => {
            match outcome {
                CmdOutcome::Plugin(Some(res)) => {
                    let TextResult { line, props } = res;
                    let mut line = line;
                    acc.line.append(&mut line);
                    acc.props.insert_all(props);
                    Ok(())
                },
                _ => {
                    let mut m = String::new();
                    m.append("Invalid command ");
                    m.append(name.as_str());
                    Err(m)
                },
            }
        },
    }
}

/// What one step of the search for the next text to run decides.
pub enum RunSearch {
    /// The current paragraph has a text at the current act: it runs.
    Found,
    /// The context moved on; the search goes on from there.
    Continue,
    /// No paragraph is left to run.
    End,
}

/// The name of the paragraph that a `next` script gave, or the empty name.
pub open spec fn next_name(next_para: Option<String>) -> Seq<char> {
    match next_para {
        Some(n) => n@,
        None => Seq::empty(),
    }
}

/// One step of the search for the next text to run, from the context `ctx`.
/// `para_found` says whether the current paragraph exists, in the current
/// language or in its base; `text_found` whether it has a text at the current
/// act; `next_para` is what the paragraph's `next` script evaluates to, where it
/// has one. A paragraph with no text left leads to its next one, from its first
/// act; a paragraph that is missing is looked for once more as the base
/// paragraph, and where it already is the base one, the run ends.
pub fn next_run_step(
    ctx: &mut RawContext,
    para_found: bool,
    text_found: bool,
    next_para: Option<String>,
) -> (step: RunSearch)
    ensures
        para_found && text_found ==> step is Found && *final(ctx) == *old(ctx),
        para_found && !text_found ==> {
            &&& step is Continue
            &&& final(ctx).cur_para@ == next_name(next_para)
            &&& final(ctx).cur_act == 0
            &&& final(ctx).cur_base_para == old(ctx).cur_base_para
            &&& final(ctx).locals == old(ctx).locals
        },
        !para_found && old(ctx).cur_base_para@ == old(ctx).cur_para@ ==> step is End && *final(ctx)
            == *old(ctx),
        !para_found && old(ctx).cur_base_para@ != old(ctx).cur_para@ ==> {
            &&& step is Continue
            &&& final(ctx).cur_base_para@ == old(ctx).cur_para@
            &&& final(ctx).cur_para == old(ctx).cur_para
            &&& final(ctx).cur_act == old(ctx).cur_act
            &&& final(ctx).locals == old(ctx).locals
        },
{
    if para_found {
        if text_found {
            RunSearch::Found
        } else {
            ctx.cur_para = match next_para {
                Some(n) => n,
                None => String::new(),
            };
            ctx.cur_act = 0;
            RunSearch::Continue
        }
    } else if str_eq(ctx.cur_base_para.as_str(), ctx.cur_para.as_str()) {
        RunSearch::End
    } else {
        ctx.cur_base_para = ctx.cur_para.clone();
        RunSearch::Continue
    }
}

/// The display width of a string in columns, with the characters of East
/// Asian ambiguous width counted as two, as `unicode-width` measures it.
pub uninterp spec fn cjk_width(s: Seq<char>) -> usize;

/// Measures a string with `unicode-width`'s `UnicodeWidthStr::width_cjk`.
///
/// Trusted: the result is the width that [`cjk_width`] names for the
/// string's characters; the widths of the characters themselves are left to
/// `unicode-width` and not stated.
#[verifier::external_body]
fn width_cjk(s: &str) -> (w: usize)
    ensures
        w == cjk_width(s@),
{
    unicode_width::UnicodeWidthStr::width_cjk(s)
}

/// The index of the last character boundary at or before byte `b`, looking
/// from character `k` on: the character index that `str::floor_char_boundary`
/// rounds to.
pub open spec fn floor_from(s: Seq<char>, b: int, k: int) -> int
    decreases s.len() - k,
{
    if 0 <= k < s.len() && byte_offset(s, k + 1) <= b {
        floor_from(s, b, k + 1)
    } else {
        k
    }
}

/// The index of the first character boundary at or after byte `b`, looking
/// from character `k` on, or the end: the character index that
/// `str::ceil_char_boundary` rounds to.
pub open spec fn ceil_from(s: Seq<char>, b: int, k: int) -> int
    decreases s.len() - k,
{
    if 0 <= k < s.len() && byte_offset(s, k) < b {
        ceil_from(s, b, k + 1)
    } else {
        k
    }
}

/// The smaller of two integers.
pub open spec fn min_int(a: int, b: int) -> int {
    if a <= b {
        a
    } else {
        b
    }
}

/// How many bytes of context an error shows on each side.
pub const FREE_LEN: usize = 20;

/// The characters an error message shows, as character indices: the start of
/// the context, the start and end of the erroneous part, rounded out to
/// character boundaries, and the end of the context, up to [`FREE_LEN`]
/// bytes on each side.
pub open spec fn error_span(s: Seq<char>, loc: Loc) -> (int, int, int, int) {
    let a0 = floor_from(s, loc.0 as int, 0);
    let a1 = ceil_from(s, loc.1 as int, 0);
    let b0 = byte_offset(s, a0) as int;
    let b1 = byte_offset(s, a1) as int;
    let pre = floor_from(s, b0 - min_int(b0, FREE_LEN as int), 0);
    let post = ceil_from(s, b1 + min_int(byte_len(s) - b1, FREE_LEN as int), 0);
    (pre, a0, a1, post)
}

/// `n` copies of `c`.
pub open spec fn repeat_char(c: char, n: nat) -> Seq<char> {
    Seq::new(n, |i: int| c)
}

/// An optional title, or the empty one.
pub open spec fn title_or_empty(t: Option<&str>) -> Seq<char> {
    match t {
        Some(t) => t@,
        None => Seq::empty(),
    }
}

/// The message for a parse error in act `act` of a paragraph: the paragraph's
/// title escaped, the act counted from one, the text around the error, a line
/// that marks the error under it, given the display widths of the text before
/// the error and of the error, and the error's own message.
pub open spec fn rich_error_spec(
    s: Seq<char>,
    e: ErrView,
    title: Seq<char>,
    act: usize,
    pre_width: usize,
    err_width: usize,
) -> Seq<char> {
    let (pre, a0, a1, post) = error_span(s, e.loc);
    "Parse error on paragraph \""@ + escape_str(title) + "\", act "@ + nat_decimal(
        (act + 1) as nat,
    ) + ":\n    "@ + s.subrange(pre, post) + "\n    "@ + repeat_char(' ', pre_width as nat)
        + repeat_char('^', err_width as nat) + "\n"@ + error_message(e.kind) + "\n"@
}

/// Byte offsets grow by at least one byte per character.
proof fn lemma_byte_offset_strict(s: Seq<char>, i: int, j: int)
    requires
        0 <= i <= j <= s.len(),
    ensures
        byte_offset(s, i) + (j - i) <= byte_offset(s, j),
    decreases j - i,
{
    if i < j {
        lemma_byte_offset_strict(s, i, j - 1);
        lemma_byte_offset_step(s, j - 1);
    }
}

/// What [`floor_from`] rounds to.
proof fn lemma_floor_from(s: Seq<char>, b: int, k: int)
    requires
        0 <= k <= s.len(),
        byte_offset(s, k) <= b,
    ensures
        k <= floor_from(s, b, k) <= s.len(),
        byte_offset(s, floor_from(s, b, k)) <= b,
        floor_from(s, b, k) < s.len() ==> byte_offset(s, floor_from(s, b, k) + 1) > b,
    decreases s.len() - k,
{
    if k < s.len() && byte_offset(s, k + 1) <= b {
        lemma_floor_from(s, b, k + 1);
    }
}

/// What [`ceil_from`] rounds to.
proof fn lemma_ceil_from(s: Seq<char>, b: int, k: int)
    requires
        0 <= k <= s.len(),
    ensures
        k <= ceil_from(s, b, k) <= s.len(),
        ceil_from(s, b, k) < s.len() ==> byte_offset(s, ceil_from(s, b, k)) >= b,
    decreases s.len() - k,
{
    if k < s.len() && byte_offset(s, k) < b {
        lemma_ceil_from(s, b, k + 1);
    }
}

/// The parts of an error span come in order.
proof fn lemma_error_span(s: Seq<char>, loc: Loc)
    requires
        loc.0 <= loc.1,
    ensures
        0 <= error_span(s, loc).0 <= error_span(s, loc).1 <= error_span(s, loc).2
            <= error_span(s, loc).3 <= s.len(),
{
    let (pre, a0, a1, post) = error_span(s, loc);
    assert(s.take(0) =~= Seq::<char>::empty());
    assert(byte_offset(s, 0) == 0);
    lemma_floor_from(s, loc.0 as int, 0);
    lemma_ceil_from(s, loc.1 as int, 0);
    let b0 = byte_offset(s, a0) as int;
    let b1 = byte_offset(s, a1) as int;
    lemma_floor_from(s, b0 - min_int(b0, FREE_LEN as int), 0);
    lemma_ceil_from(s, b1 + min_int(byte_len(s) - b1, FREE_LEN as int), 0);
    if pre > a0 {
        lemma_byte_offset_strict(s, a0, pre);
    }
    if a0 > a1 {
        lemma_byte_offset_strict(s, a1, a0);
    }
    assert(s.take(s.len() as int) =~= s);
    crate::chars::lemma_byte_offset_mono(s, a1, s.len() as int);
    if a1 > post {
        lemma_byte_offset_strict(s, post, a1);
    }
}

/// The character index that a byte index rounds down to, and its byte offset.
fn floor_index(cs: &Vec<char>, b: usize) -> (r: (usize, usize))
    requires
        fits_offsets(cs@),
    ensures
        r.0 == floor_from(cs@, b as int, 0),
        r.1 == byte_offset(cs@, r.0 as int),
        r.0 <= cs@.len(),
{
    let mut k: usize = 0;
    let mut off: usize = 0;
    assert(cs@.take(0) =~= Seq::<char>::empty());
    while k < cs.len() && off + len_utf8(cs[k]) <= b
        invariant
            k <= cs@.len(),
            fits_offsets(cs@),
            off == byte_offset(cs@, k as int),
            off <= 4 * k,
            floor_from(cs@, b as int, k as int) == floor_from(cs@, b as int, 0),
        decreases cs@.len() - k,
    {
        proof {
            lemma_byte_offset_step(cs@, k as int);
        }
        off = off + len_utf8(cs[k]);
        k = k + 1;
    }
    proof {
        if k < cs@.len() {
            lemma_byte_offset_step(cs@, k as int);
        }
    }
    (k, off)
}

/// The character index that a byte index rounds up to, and its byte offset.
fn ceil_index(cs: &Vec<char>, b: usize) -> (r: (usize, usize))
    requires
        fits_offsets(cs@),
    ensures
        r.0 == ceil_from(cs@, b as int, 0),
        r.1 == byte_offset(cs@, r.0 as int),
        r.0 <= cs@.len(),
{
    let mut k: usize = 0;
    let mut off: usize = 0;
    assert(cs@.take(0) =~= Seq::<char>::empty());
    while k < cs.len() && off < b
        invariant
            k <= cs@.len(),
            fits_offsets(cs@),
            off == byte_offset(cs@, k as int),
            off <= 4 * k,
            ceil_from(cs@, b as int, k as int) == ceil_from(cs@, b as int, 0),
        decreases cs@.len() - k,
    {
        proof {
            lemma_byte_offset_step(cs@, k as int);
        }
        off = off + len_utf8(cs[k]);
        k = k + 1;
    }
    (k, off)
}

/// The character indices of an error span.
fn span_indices(cs: &Vec<char>, loc: Loc) -> (r: (usize, usize, usize, usize))
    requires
        fits_offsets(cs@),
        loc.0 <= loc.1,
    ensures
        (r.0 as int, r.1 as int, r.2 as int, r.3 as int) == error_span(cs@, loc),
        r.0 <= r.1 <= r.2 <= r.3 <= cs@.len(),
{
    let (a0, b0) = floor_index(cs, loc.0);
    let (a1, b1) = ceil_index(cs, loc.1);
    let (n, total) = ceil_index(cs, usize::MAX);
    proof {
        lemma_ceil_from(cs@, usize::MAX as int, 0);
        if n < cs@.len() {
            crate::chars::lemma_byte_offset_bound(cs@, n as int);
        }
        assert(n == cs@.len());
        assert(cs@.take(n as int) =~= cs@);
        lemma_error_span(cs@, loc);
        crate::chars::lemma_byte_offset_mono(cs@, a1 as int, n as int);
    }
    let lower = if b0 < FREE_LEN {
        0
    } else {
        b0 - FREE_LEN
    };
    let room = total - b1;
    let upper = if room < FREE_LEN {
        b1 + room
    } else {
        b1 + FREE_LEN
    };
    let (pre, _) = floor_index(cs, lower);
    let (post, _) = ceil_index(cs, upper);
    (pre, a0, a1, post)
}

/// Appends `n` copies of `c`.
fn push_repeat(out: &mut String, c: char, n: usize)
    ensures
        final(out)@ == old(out)@ + repeat_char(c, n as nat),
{
    let mut i: usize = 0;
    while i < n
        invariant
            i <= n,
            out@ == old(out)@ + repeat_char(c, i as nat),
        decreases n - i,
    {
        push_char(out, c);
        i = i + 1;
        assert(out@ =~= old(out)@ + repeat_char(c, i as nat));
    }
}

/// The message for a parse error in `text`, at act `cur_act` of the paragraph
/// titled `para_title`, given the display widths of the text before the error
/// and of the error.
pub fn rich_error_with_widths(
    text: &str,
    e: &ParseError,
    para_title: Option<&str>,
    cur_act: usize,
    pre_width: usize,
    err_width: usize,
) -> (r: String)
    requires
        fits_offsets(text@),
        e@.loc.0 <= e@.loc.1,
        cur_act < usize::MAX,
    ensures
        r@ == rich_error_spec(text@, e@, title_or_empty(para_title), cur_act, pre_width, err_width),
{
    let cs = collect_chars(text);
    let (pre, _, _, post) = span_indices(&cs, e.loc());
    let mut out = String::new();
    out.append("Parse error on paragraph \"");
    match para_title {
        Some(t) => push_escaped_str(&mut out, t),
        None => {},
    }
    out.append("\", act ");
    let act = nat_to_string((cur_act + 1) as u64);
    out.append(act.as_str());
    out.append(":\n    ");
    out.append(text.substring_char(pre, post));
    out.append("\n    ");
    push_repeat(&mut out, ' ', pre_width);
    push_repeat(&mut out, '^', err_width);
    out.append("\n");
    out.append(e.to_string().as_str());
    out.append("\n");
    proof {
        assert(escape_str(Seq::<char>::empty()) =~= Seq::<char>::empty());
    }
    assert(out@ =~= rich_error_spec(text@, e@, title_or_empty(para_title), cur_act, pre_width, err_width));
    out
}

/// The message for a parse error in `text`, at act `cur_act` of the paragraph
/// titled `para_title`: the text around the error, with the error marked
/// under it by its display width.
pub fn rich_error(text: &str, e: &ParseError, para_title: Option<&str>, cur_act: usize) -> (r: String)
    requires
        fits_offsets(text@),
        e@.loc.0 <= e@.loc.1,
        cur_act < usize::MAX,
    ensures
        r@ == rich_error_spec(
            text@,
            e@,
            title_or_empty(para_title),
            cur_act,
            cjk_width(text@.subrange(error_span(text@, e@.loc).0, error_span(text@, e@.loc).1)),
            cjk_width(text@.subrange(error_span(text@, e@.loc).1, error_span(text@, e@.loc).2)),
        ),
{
    let cs = collect_chars(text);
    let (pre, a0, a1, _) = span_indices(&cs, e.loc());
    let pre_width = width_cjk(text.substring_char(pre, a0));
    let err_width = width_cjk(text.substring_char(a0, a1));
    rich_error_with_widths(text, e, para_title, cur_act, pre_width, err_width)
}

} // verus!
