//! Distances between language identifiers, by language-matching rules in the
//! form of CLDR's `languageInfo` data: rules on the subtags of a desired and a
//! supported identifier, variables that name sets of subtags, and paradigm
//! locales that are slightly preferred.

use crate::locale::{langid_parse, parse_langid, LangId, LangIdView};
use crate::str_map::StrMap;
use crate::strings::{collect_chars, split_spec, split_str, str_eq, string_of_range, strs_of};
use vstd::prelude::*;

verus! {

broadcast use vstd::string::group_string_axioms;

/// A rule on one subtag, as plain values.
pub enum RuleView {
    /// Exactly this subtag.
    Str(Seq<char>),
    /// A subtag in the set the variable names.
    Var(Seq<char>),
    /// A subtag outside the set the variable names.
    VarExclude(Seq<char>),
    /// Any subtag.
    All,
}

/// A rule on one subtag.
#[derive(Debug, PartialEq, Eq)]
pub enum SubTagRule {
    /// Exactly this subtag.
    Str(String),
    /// A subtag in the set the variable names.
    Var(String),
    /// A subtag outside the set the variable names.
    VarExclude(String),
    /// Any subtag.
    All,
}

impl View for SubTagRule {
    type V = RuleView;

    open spec fn view(&self) -> RuleView {
        match self {
            SubTagRule::Str(s) => RuleView::Str(s@),
            SubTagRule::Var(s) => RuleView::Var(s@),
            SubTagRule::VarExclude(s) => RuleView::VarExclude(s@),
            SubTagRule::All => RuleView::All,
        }
    }
}

/// The rule a pattern stands for: `*` for any subtag, `$!name` for a subtag
/// outside a variable's set, `$name` for one inside it, and else the subtag itself.
pub open spec fn rule_from_spec(s: Seq<char>) -> RuleView {
    if s == seq!['*'] {
        RuleView::All
    } else if s.len() >= 2 && s[0] == '$' && s[1] == '!' {
        RuleView::VarExclude(s.subrange(2, s.len() as int))
    } else if s.len() >= 1 && s[0] == '$' {
        RuleView::Var(s.subrange(1, s.len() as int))
    } else {
        RuleView::Str(s)
    }
}

/// The variables: each name with the subtags of its set.
pub type Variables = StrMap<Vec<String>>;

/// Whether the set of variable `key` holds `tag`.
pub open spec fn var_holds(vars: Map<Seq<char>, Vec<String>>, key: Seq<char>, tag: Seq<char>) -> bool {
    strs_of(vars[key]@).contains(tag)
}

/// Whether a subtag rule accepts `tag`.
pub open spec fn rule_matches(r: RuleView, tag: Seq<char>, vars: Map<Seq<char>, Vec<String>>) -> bool {
    match r {
        RuleView::Str(s) => s == tag,
        RuleView::Var(k) => var_holds(vars, k, tag),
        RuleView::VarExclude(k) => !var_holds(vars, k, tag),
        RuleView::All => true,
    }
}

/// The variable a subtag rule reads, if any, is defined.
pub open spec fn rule_safe(r: RuleView, vars: Map<Seq<char>, Vec<String>>) -> bool {
    match r {
        RuleView::Var(k) => vars.contains_key(k),
        RuleView::VarExclude(k) => vars.contains_key(k),
        _ => true,
    }
}

/// Whether an optional rule accepts an optional subtag: no rule accepts no
/// subtag, `*` accepts anything, and a rule otherwise needs a subtag it accepts.
pub open spec fn opt_rule_matches(
    r: Option<RuleView>,
    tag: Option<Seq<char>>,
    vars: Map<Seq<char>, Vec<String>>,
) -> bool {
    match r {
        None => tag is None,
        Some(RuleView::All) => true,
        Some(r) => tag is Some && rule_matches(r, tag->0, vars),
    }
}

/// Checking an optional rule against an optional subtag reads only defined variables.
pub open spec fn opt_rule_safe(r: Option<RuleView>, tag: Option<Seq<char>>, vars: Map<Seq<char>, Vec<String>>) -> bool {
    match r {
        Some(r) => tag is Some && !(r is All) ==> rule_safe(r, vars),
        None => true,
    }
}

/// Read from its pattern, `$name` accepts exactly the subtags in the set of
/// the variable `name`, and `$!name` exactly the subtags outside it: for a
/// defined variable the two rules split every subtag between them.
pub proof fn lemma_var_rules_complement(
    name: Seq<char>,
    tag: Seq<char>,
    vars: Map<Seq<char>, Vec<String>>,
)
    requires
        name.len() > 0,
        name[0] != '!',
        name != seq!['*'],
    ensures
        rule_from_spec(seq!['$'] + name) == RuleView::Var(name),
        rule_from_spec(seq!['$', '!'] + name) == RuleView::VarExclude(name),
        rule_matches(rule_from_spec(seq!['$'] + name), tag, vars) == strs_of(vars[name]@).contains(
            tag,
        ),
        rule_matches(rule_from_spec(seq!['$', '!'] + name), tag, vars) == !strs_of(
            vars[name]@,
        ).contains(tag),
        rule_matches(rule_from_spec(seq!['$', '!'] + name), tag, vars) != rule_matches(
            rule_from_spec(seq!['$'] + name),
            tag,
            vars,
        ),
{
    let v = seq!['$'] + name;
    let x = seq!['$', '!'] + name;
    assert(v[0] == '$' && v[1] == name[0]);
    assert(v != seq!['*']) by {
        assert(v[0] != '*');
    }
    assert(v.subrange(1, v.len() as int) =~= name);
    assert(x[0] == '$' && x[1] == '!');
    assert(x != seq!['*']) by {
        assert(x[0] != '*');
    }
    assert(x.subrange(2, x.len() as int) =~= name);
}

impl SubTagRule {
    /// The rule a pattern stands for.
    pub fn from(s: &str) -> (r: Self)
        ensures
            r@ == rule_from_spec(s@),
    {
        let cs = collect_chars(s);
        let n = cs.len();
        if n == 1 && cs[0] == '*' {
            assert(s@ =~= seq!['*']);
            SubTagRule::All
        } else if n >= 2 && cs[0] == '$' && cs[1] == '!' {
            SubTagRule::VarExclude(string_of_range(&cs, 2, n))
        } else if n >= 1 && cs[0] == '$' {
            SubTagRule::Var(string_of_range(&cs, 1, n))
        } else {
            proof {
                assert(s@ != seq!['*']) by {
                    if s@ == seq!['*'] {
                        assert(s@.len() == 1 && s@[0] == '*');
                    }
                }
            }
            SubTagRule::Str(s.to_string())
        }
    }

    /// Whether the rule accepts `tag`.
    pub fn matches(&self, tag: &str, vars: &Variables) -> (b: bool)
        requires
            rule_safe(self@, vars@),
        ensures
            b == rule_matches(self@, tag@, vars@),
    {
        match self {
            SubTagRule::Str(s) => str_eq(s.as_str(), tag),
            SubTagRule::Var(key) => match vars.get(key.as_str()) {
                Some(set) => contains_str(set, tag),
                None => false,
            },
            SubTagRule::VarExclude(key) => match vars.get(key.as_str()) {
                Some(set) => !contains_str(set, tag),
                None => false,
            },
            SubTagRule::All => true,
        }
    }
}

/// Whether `v` holds the string `s`.
fn contains_str(v: &Vec<String>, s: &str) -> (b: bool)
    ensures
        b == strs_of(v@).contains(s@),
{
    let mut i: usize = 0;
    while i < v.len()
        invariant
            i <= v@.len(),
            forall|j: int| 0 <= j < i ==> #[trigger] v@[j]@ != s@,
        decreases v@.len() - i,
    {
        if str_eq(v[i].as_str(), s) {
            assert(strs_of(v@)[i as int] == s@);
            return true;
        }
        i = i + 1;
    }
    proof {
        if strs_of(v@).contains(s@) {
            let j = choose|j: int| 0 <= j < strs_of(v@).len() && strs_of(v@)[j] == s@;
            assert(v@[j]@ == s@);
        }
    }
    false
}

/// Whether an optional rule accepts an optional subtag.
fn opt_matches(rule: &Option<SubTagRule>, tag: &Option<String>, vars: &Variables) -> (b: bool)
    requires
        opt_rule_safe(opt_rule_view(*rule), opt_str_view(*tag), vars@),
    ensures
        b == opt_rule_matches(opt_rule_view(*rule), opt_str_view(*tag), vars@),
{
    match (rule, tag) {
        (None, None) => true,
        (Some(SubTagRule::All), _) => true,
        (Some(r), Some(t)) => r.matches(t.as_str(), vars),
        _ => false,
    }
}

/// The view of an optional rule.
pub open spec fn opt_rule_view(r: Option<SubTagRule>) -> Option<RuleView> {
    match r {
        Some(r) => Some(r@),
        None => None,
    }
}

/// The view of an optional string.
pub open spec fn opt_str_view(s: Option<String>) -> Option<Seq<char>> {
    match s {
        Some(s) => Some(s@),
        None => None,
    }
}

/// A rule on a whole language identifier, as plain values.
pub struct LangRuleView {
    /// The rule on the language.
    pub language: RuleView,
    /// The rule on the script, if any.
    pub script: Option<RuleView>,
    /// The rule on the region, if any.
    pub region: Option<RuleView>,
}

/// A rule on a whole language identifier.
#[derive(Debug, PartialEq, Eq)]
pub struct LanguageIdentifierRule {
    /// The rule on the language.
    pub language: SubTagRule,
    /// The rule on the script, if any.
    pub script: Option<SubTagRule>,
    /// The rule on the region, if any.
    pub region: Option<SubTagRule>,
}

impl View for LanguageIdentifierRule {
    type V = LangRuleView;

    open spec fn view(&self) -> LangRuleView {
        LangRuleView {
            language: self.language@,
            script: opt_rule_view(self.script),
            region: opt_rule_view(self.region),
        }
    }
}

/// The rule a pattern `language_script_region` stands for; script and region
/// may be left out, and anything after the region is ignored.
pub open spec fn lang_rule_from_spec(s: Seq<char>) -> LangRuleView {
    let parts = split_spec(s, '_');
    LangRuleView {
        language: rule_from_spec(parts[0]),
        script: if parts.len() > 1 {
            Some(rule_from_spec(parts[1]))
        } else {
            None
        },
        region: if parts.len() > 2 {
            Some(rule_from_spec(parts[2]))
        } else {
            None
        },
    }
}

/// Whether a rule accepts a language identifier; variants are not looked at.
pub open spec fn lang_matches(r: LangRuleView, id: LangIdView, vars: Map<Seq<char>, Vec<String>>) -> bool {
    rule_matches(r.language, id.language, vars) && opt_rule_matches(r.script, id.script, vars)
        && opt_rule_matches(r.region, id.region, vars)
}

/// Checking a rule against an identifier reads only defined variables, as far
/// as the check goes before it knows the answer.
pub open spec fn lang_safe(r: LangRuleView, id: LangIdView, vars: Map<Seq<char>, Vec<String>>) -> bool {
    &&& rule_safe(r.language, vars)
    &&& rule_matches(r.language, id.language, vars) ==> opt_rule_safe(r.script, id.script, vars)
    &&& rule_matches(r.language, id.language, vars) && opt_rule_matches(r.script, id.script, vars)
        ==> opt_rule_safe(r.region, id.region, vars)
}

impl LanguageIdentifierRule {
    /// The rule a pattern `language_script_region` stands for.
    pub fn from(s: &str) -> (r: Self)
        ensures
            r@ == lang_rule_from_spec(s@),
    {
        let parts = split_str(s, '_');
        proof {
            assert(split_spec(s@, '_').len() > 0);
        }
        let language = SubTagRule::from(parts[0].as_str());
        let script = if parts.len() > 1 {
            Some(SubTagRule::from(parts[1].as_str()))
        } else {
            None
        };
        let region = if parts.len() > 2 {
            Some(SubTagRule::from(parts[2].as_str()))
        } else {
            None
        };
        LanguageIdentifierRule { language, script, region }
    }

    /// Whether the rule accepts `lang`.
    pub fn matches(&self, lang: &LangId, vars: &Variables) -> (b: bool)
        requires
            lang_safe(self@, lang@, vars@),
        ensures
            b == lang_matches(self@, lang@, vars@),
    {
        self.language.matches(lang.language.as_str(), vars) && opt_matches(
            &self.script,
            &lang.script,
            vars,
        ) && opt_matches(&self.region, &lang.region, vars)
    }
}

/// A language-matching rule, as plain values.
pub struct MatchView {
    /// The rule on the desired identifier.
    pub desired: LangRuleView,
    /// The rule on the supported identifier.
    pub supported: LangRuleView,
    /// The distance the rule gives.
    pub distance: u16,
    /// The rule holds one way only, from desired to supported.
    pub oneway: bool,
}

/// A language-matching rule.
#[derive(Debug, PartialEq, Eq)]
pub struct LanguageMatch {
    /// The rule on the desired identifier.
    pub desired: LanguageIdentifierRule,
    /// The rule on the supported identifier.
    pub supported: LanguageIdentifierRule,
    /// The distance the rule gives.
    pub distance: u16,
    /// The rule holds one way only, from desired to supported.
    pub oneway: bool,
}

impl View for LanguageMatch {
    type V = MatchView;

    open spec fn view(&self) -> MatchView {
        MatchView {
            desired: self.desired@,
            supported: self.supported@,
            distance: self.distance,
            oneway: self.oneway,
        }
    }
}

/// Whether a rule applies to a pair of identifiers: as written, or, unless it
/// holds one way only, the other way round.
pub open spec fn rule_hits(m: MatchView, d: LangIdView, s: LangIdView, vars: Map<Seq<char>, Vec<String>>) -> bool {
    (lang_matches(m.desired, d, vars) && lang_matches(m.supported, s, vars)) || (!m.oneway
        && lang_matches(m.supported, d, vars) && lang_matches(m.desired, s, vars))
}

/// Checking a rule against a pair reads only defined variables.
pub open spec fn rule_pair_safe(m: MatchView, d: LangIdView, s: LangIdView, vars: Map<Seq<char>, Vec<String>>) -> bool {
    &&& lang_safe(m.desired, d, vars)
    &&& lang_matches(m.desired, d, vars) ==> lang_safe(m.supported, s, vars)
    &&& !m.oneway && !(lang_matches(m.desired, d, vars) && lang_matches(m.supported, s, vars))
        ==> lang_safe(m.supported, d, vars)
    &&& !m.oneway && !(lang_matches(m.desired, d, vars) && lang_matches(m.supported, s, vars))
        && lang_matches(m.supported, d, vars) ==> lang_safe(m.desired, s, vars)
}

/// Exactly one of the two identifiers is a paradigm locale.
pub open spec fn paradigm_xor(p: Seq<LangIdView>, d: LangIdView, s: LangIdView) -> bool {
    p.contains(d) != p.contains(s)
}

/// The rules from `i` on are checked in turn without reading an undefined
/// variable, one of them applies, and its distance fits: ten times the rule's
/// distance fits in `u16`, and is not zero where it is lowered by one.
pub open spec fn match_ok(
    rules: Seq<MatchView>,
    d: LangIdView,
    s: LangIdView,
    vars: Map<Seq<char>, Vec<String>>,
    p: Seq<LangIdView>,
    i: int,
) -> bool
    decreases rules.len() - i,
{
    if 0 <= i < rules.len() {
        rule_pair_safe(rules[i], d, s, vars) && if rule_hits(rules[i], d, s, vars) {
            rules[i].distance * 10 <= u16::MAX && (paradigm_xor(p, d, s) ==> rules[i].distance >= 1)
        } else {
            match_ok(rules, d, s, vars, p, i + 1)
        }
    } else {
        false
    }
}

/// The distance of the first rule from `i` on that applies: ten times its
/// distance, less one where exactly one identifier is a paradigm locale.
pub open spec fn match_distance(
    rules: Seq<MatchView>,
    d: LangIdView,
    s: LangIdView,
    vars: Map<Seq<char>, Vec<String>>,
    p: Seq<LangIdView>,
    i: int,
) -> int
    decreases rules.len() - i,
{
    if 0 <= i < rules.len() {
        if rule_hits(rules[i], d, s, vars) {
            rules[i].distance * 10 - (if paradigm_xor(p, d, s) {
                1int
            } else {
                0int
            })
        } else {
            match_distance(rules, d, s, vars, p, i + 1)
        }
    } else {
        0
    }
}

/// The views of a list of rules.
pub open spec fn rules_view(v: Seq<LanguageMatch>) -> Seq<MatchView> {
    v.map_values(|m: LanguageMatch| m@)
}

/// The views of a list of identifiers.
pub open spec fn ids_view(v: Seq<LangId>) -> Seq<LangIdView> {
    v.map_values(|m: LangId| m@)
}

/// Whether two identifiers have the same subtags.
fn langid_eq(a: &LangId, b: &LangId) -> (r: bool)
    ensures
        r == (a@ == b@),
{
    if !str_eq(a.language.as_str(), b.language.as_str()) {
        return false;
    }
    if !opt_str_eq(&a.script, &b.script) || !opt_str_eq(&a.region, &b.region) {
        return false;
    }
    if a.variants.len() != b.variants.len() {
        assert(a@.variants.len() != b@.variants.len());
        return false;
    }
    let mut i: usize = 0;
    while i < a.variants.len()
        invariant
            i <= a.variants@.len() == b.variants@.len(),
            forall|j: int| 0 <= j < i ==> #[trigger] a.variants@[j]@ == b.variants@[j]@,
        decreases a.variants@.len() - i,
    {
        if !str_eq(a.variants[i].as_str(), b.variants[i].as_str()) {
            assert(a@.variants[i as int] != b@.variants[i as int]);
            return false;
        }
        i = i + 1;
    }
    assert(a@.variants =~= b@.variants);
    true
}

/// Whether two optional strings are equal.
fn opt_str_eq(a: &Option<String>, b: &Option<String>) -> (r: bool)
    ensures
        r == (opt_str_view(*a) == opt_str_view(*b)),
{
    match (a, b) {
        (Some(x), Some(y)) => str_eq(x.as_str(), y.as_str()),
        (None, None) => true,
        _ => false,
    }
}

/// Picks, among supported identifiers, how far each is from a desired one.
pub struct LanguageMatcher {
    paradiam: Vec<LangId>,
    vars: Variables,
    rules: Vec<LanguageMatch>,
}

impl LanguageMatcher {
    /// The paradigm locales.
    pub closed spec fn paradigm_view(&self) -> Seq<LangIdView> {
        ids_view(self.paradiam@)
    }

    /// The variables.
    pub closed spec fn vars_view(&self) -> Map<Seq<char>, Vec<String>> {
        self.vars@
    }

    /// The rules, in order.
    pub closed spec fn rules_view(&self) -> Seq<MatchView> {
        rules_view(self.rules@)
    }

    /// Whether `lang` is a paradigm locale.
    pub fn is_paradiam(&self, lang: &LangId) -> (b: bool)
        ensures
            b == self.paradigm_view().contains(lang@),
    {
        let mut i: usize = 0;
        while i < self.paradiam.len()
            invariant
                i <= self.paradiam@.len(),
                forall|j: int| 0 <= j < i ==> #[trigger] self.paradiam@[j]@ != lang@,
            decreases self.paradiam@.len() - i,
        {
            if langid_eq(&self.paradiam[i], lang) {
                assert(self.paradigm_view()[i as int] == lang@);
                return true;
            }
            i = i + 1;
        }
        proof {
            if self.paradigm_view().contains(lang@) {
                let j = choose|j: int| 0 <= j < self.paradigm_view().len() && self.paradigm_view()[j] == lang@;
                assert(self.paradiam@[j]@ == lang@);
            }
        }
        false
    }

    /// The distance that the first applying rule gives a pair of identifiers.
    pub fn distance_match(&self, desired: &LangId, supported: &LangId) -> (r: u16)
        requires
            match_ok(
                self.rules_view(),
                desired@,
                supported@,
                self.vars_view(),
                self.paradigm_view(),
                0,
            ),
        ensures
            r == match_distance(
                self.rules_view(),
                desired@,
                supported@,
                self.vars_view(),
                self.paradigm_view(),
                0,
            ),
    {
        let ghost rv = self.rules_view();
        let ghost vv = self.vars_view();
        let ghost pv = self.paradigm_view();
        let mut i: usize = 0;
        while i < self.rules.len()
            invariant
                i <= self.rules@.len(),
                rv == rules_view(self.rules@),
                vv == self.vars@,
                pv == ids_view(self.paradiam@),
                match_ok(rv, desired@, supported@, vv, pv, i as int),
                match_distance(rv, desired@, supported@, vv, pv, 0) == match_distance(
                    rv,
                    desired@,
                    supported@,
                    vv,
                    pv,
                    i as int,
                ),
            decreases self.rules@.len() - i,
        {
            let rule = &self.rules[i];
            assert(rv[i as int] == rule@);
            let mut matches = rule.desired.matches(desired, &self.vars) && rule.supported.matches(
                supported,
                &self.vars,
            );
            if !rule.oneway && !matches {
                matches = rule.supported.matches(desired, &self.vars) && rule.desired.matches(
                    supported,
                    &self.vars,
                );
            }
            if matches {
                let mut distance = rule.distance * 10;
                if self.is_paradiam(desired) != self.is_paradiam(supported) {
                    distance = distance - 1;
                }
                return distance;
            }
            i = i + 1;
        }
        proof {
            assert(!match_ok(rv, desired@, supported@, vv, pv, i as int));
        }
        0
    }
}

/// An identifier without its region.
pub open spec fn without_region(v: LangIdView) -> LangIdView {
    LangIdView { region: None, ..v }
}

/// An identifier without its script.
pub open spec fn without_script(v: LangIdView) -> LangIdView {
    LangIdView { script: None, ..v }
}

/// A distance given by the rules is never negative.
proof fn lemma_match_distance_nonneg(
    rules: Seq<MatchView>,
    d: LangIdView,
    s: LangIdView,
    vars: Map<Seq<char>, Vec<String>>,
    p: Seq<LangIdView>,
    i: int,
)
    requires
        match_ok(rules, d, s, vars, p, i),
    ensures
        0 <= match_distance(rules, d, s, vars, p, i) <= u16::MAX,
    decreases rules.len() - i,
{
    if 0 <= i < rules.len() && !rule_hits(rules[i], d, s, vars) {
        lemma_match_distance_nonneg(rules, d, s, vars, p, i + 1);
    }
}

impl LanguageMatcher {
    /// The rules apply to the pair, as [`match_ok`] says.
    pub open spec fn pair_ok(&self, d: LangIdView, s: LangIdView) -> bool {
        match_ok(self.rules_view(), d, s, self.vars_view(), self.paradigm_view(), 0)
    }

    /// The distance the rules give the pair.
    pub open spec fn pair_distance(&self, d: LangIdView, s: LangIdView) -> int {
        match_distance(self.rules_view(), d, s, self.vars_view(), self.paradigm_view(), 0)
    }

    /// The distance of two full identifiers: the rules' distance for the
    /// regions where they differ, then for the scripts, with the regions left
    /// out, where those differ, then for the languages, with scripts and
    /// regions left out, where those differ.
    pub open spec fn distance_spec(&self, d: LangIdView, s: LangIdView) -> int {
        let d1 = without_region(d);
        let s1 = without_region(s);
        let d2 = without_script(d1);
        let s2 = without_script(s1);
        (if d.region != s.region {
            self.pair_distance(d, s)
        } else {
            0
        }) + (if d.script != s.script {
            self.pair_distance(d1, s1)
        } else {
            0
        }) + (if d.language != s.language {
            self.pair_distance(d2, s2)
        } else {
            0
        })
    }

    /// Both identifiers are full, a rule applies wherever a distance is asked
    /// for, and the total fits in `u16`.
    pub open spec fn distance_ok(&self, d: LangIdView, s: LangIdView) -> bool {
        let d1 = without_region(d);
        let s1 = without_region(s);
        let d2 = without_script(d1);
        let s2 = without_script(s1);
        &&& d.region is Some && d.script is Some && s.region is Some && s.script is Some
        &&& d.region != s.region ==> self.pair_ok(d, s)
        &&& d.script != s.script ==> self.pair_ok(d1, s1)
        &&& d.language != s.language ==> self.pair_ok(d2, s2)
        &&& self.distance_spec(d, s) <= u16::MAX
    }

    /// The distance between two full identifiers.
    pub fn distance_impl(&self, desired: LangId, supported: LangId) -> (r: u16)
        requires
            self.distance_ok(desired@, supported@),
        ensures
            r == self.distance_spec(desired@, supported@),
    {
        let ghost d0 = desired@;
        let ghost s0 = supported@;
        let mut desired = desired;
        let mut supported = supported;
        proof {
            let d1 = without_region(d0);
            let s1 = without_region(s0);
            let d2 = without_script(d1);
            let s2 = without_script(s1);
            if d0.region != s0.region {
                lemma_match_distance_nonneg(self.rules_view(), d0, s0, self.vars_view(), self.paradigm_view(), 0);
            }
            if d0.script != s0.script {
                lemma_match_distance_nonneg(self.rules_view(), d1, s1, self.vars_view(), self.paradigm_view(), 0);
            }
            if d0.language != s0.language {
                lemma_match_distance_nonneg(self.rules_view(), d2, s2, self.vars_view(), self.paradigm_view(), 0);
            }
        }
        let mut distance: u16 = 0;
        if !opt_str_eq(&desired.region, &supported.region) {
            distance = distance + self.distance_match(&desired, &supported);
        }
        desired.region = None;
        supported.region = None;
        assert(desired@ == without_region(d0));
        assert(supported@ == without_region(s0));
        if !opt_str_eq(&desired.script, &supported.script) {
            distance = distance + self.distance_match(&desired, &supported);
        }
        desired.script = None;
        supported.script = None;
        assert(desired@ == without_script(without_region(d0)));
        assert(supported@ == without_script(without_region(s0)));
        if !str_eq(desired.language.as_str(), supported.language.as_str()) {
            distance = distance + self.distance_match(&desired, &supported);
        }
        distance
    }
}

impl LanguageMatcher {
    /// The distance of the `k`-th candidate from `desired`.
    pub open spec fn candidate_distance(
        &self,
        desired: LangIdView,
        supported: Seq<(LangId, LangId)>,
        k: int,
    ) -> int {
        self.distance_spec(desired, supported[k].1@)
    }

    /// `r` is the first candidate of least distance from `desired`, with that
    /// distance, where it is below 1000; and none where every candidate is at
    /// 1000 or more, or there is none.
    pub open spec fn is_best_match(
        &self,
        desired: LangIdView,
        supported: Seq<(LangId, LangId)>,
        r: Option<(LangId, u16)>,
    ) -> bool {
        match r {
            Some((s, dist)) => exists|k: int|
                0 <= k < supported.len() && {
                    &&& s@ == supported[k].0@
                    &&& dist == self.candidate_distance(desired, supported, k)
                    &&& dist < 1000
                    &&& forall|j: int|
                        0 <= j < k ==> self.candidate_distance(desired, supported, j) > dist
                    &&& forall|j: int|
                        0 <= j < supported.len() ==> self.candidate_distance(desired, supported, j)
                            >= dist
                },
            None => forall|j: int|
                0 <= j < supported.len() ==> self.candidate_distance(desired, supported, j) >= 1000,
        }
    }

    /// Picks, among the supported identifiers, the first one of least distance
    /// from the desired one, where that distance is below 1000. The
    /// identifiers come in full, with script and region filled in as a locale
    /// expander gives them: `desired` itself, and each candidate as the pair of
    /// the identifier as supported and its full form.
    pub fn matches(&self, desired: &LangId, supported: Vec<(LangId, LangId)>) -> (r: Option<
        (LangId, u16),
    >)
        requires
            forall|i: int|
                0 <= i < supported@.len() ==> self.distance_ok(desired@, #[trigger] supported@[i].1@),
        ensures
            self.is_best_match(desired@, supported@, r),
    {
        let ghost sv = supported@;
        let mut best: Option<(usize, u16)> = None;
        let mut i: usize = 0;
        while i < supported.len()
            invariant
                i <= sv.len(),
                sv == supported@,
                forall|j: int| 0 <= j < sv.len() ==> self.distance_ok(desired@, #[trigger] sv[j].1@),
                match best {
                    None => i == 0,
                    Some((k, d)) => {
                        &&& k < i
                        &&& d == self.candidate_distance(desired@, sv, k as int)
                        &&& forall|j: int|
                            0 <= j < k ==> self.candidate_distance(desired@, sv, j) > d
                        &&& forall|j: int|
                            0 <= j < i ==> self.candidate_distance(desired@, sv, j) >= d
                    },
                },
            decreases sv.len() - i,
        {
            assert(self.distance_ok(desired@, sv[i as int].1@));
            let d = self.distance_impl(desired.clone(), supported[i].1.clone());
            match best {
                None => {
                    best = Some((i, d));
                },
                Some((_, bd)) => {
                    if d < bd {
                        best = Some((i, d));
                    }
                },
            }
            i = i + 1;
        }
        match best {
            Some((k, d)) => {
                if d < 1000 {
                    Some((supported[k].0.clone(), d))
                } else {
                    None
                }
            },
            None => None,
        }
    }
}

/// Whether checking a subtag rule reads only defined variables.
fn rule_safe_check(r: &SubTagRule, vars: &Variables) -> (b: bool)
    ensures
        b == rule_safe(r@, vars@),
{
    match r {
        SubTagRule::Var(k) => vars.contains_key(k.as_str()),
        SubTagRule::VarExclude(k) => vars.contains_key(k.as_str()),
        _ => true,
    }
}

/// Whether checking an optional rule against an optional subtag reads only
/// defined variables.
fn opt_safe_check(r: &Option<SubTagRule>, tag: &Option<String>, vars: &Variables) -> (b: bool)
    ensures
        b == opt_rule_safe(opt_rule_view(*r), opt_str_view(*tag), vars@),
{
    match r {
        Some(rule) => match rule {
            SubTagRule::All => true,
            _ => tag.is_none() || rule_safe_check(rule, vars),
        },
        None => true,
    }
}

/// Whether checking an identifier rule against an identifier reads only
/// defined variables.
fn lang_safe_check(r: &LanguageIdentifierRule, id: &LangId, vars: &Variables) -> (b: bool)
    ensures
        b == lang_safe(r@, id@, vars@),
{
    if !rule_safe_check(&r.language, vars) {
        return false;
    }
    if !r.language.matches(id.language.as_str(), vars) {
        return true;
    }
    if !opt_safe_check(&r.script, &id.script, vars) {
        return false;
    }
    if !opt_matches(&r.script, &id.script, vars) {
        return true;
    }
    opt_safe_check(&r.region, &id.region, vars)
}

/// Whether checking a matching rule against a pair reads only defined variables.
fn rule_pair_check(m: &LanguageMatch, d: &LangId, s: &LangId, vars: &Variables) -> (b: bool)
    ensures
        b == rule_pair_safe(m@, d@, s@, vars@),
{
    if !lang_safe_check(&m.desired, d, vars) {
        return false;
    }
    let dm = m.desired.matches(d, vars);
    if dm && !lang_safe_check(&m.supported, s, vars) {
        return false;
    }
    let first = dm && m.supported.matches(s, vars);
    if !m.oneway && !first {
        if !lang_safe_check(&m.supported, d, vars) {
            return false;
        }
        if m.supported.matches(d, vars) && !lang_safe_check(&m.desired, s, vars) {
            return false;
        }
    }
    true
}

/// An identifier without its region.
fn id_without_region(id: &LangId) -> (r: LangId)
    ensures
        r@ == without_region(id@),
{
    let mut r = id.clone();
    r.region = None;
    r
}

/// An identifier without its script.
fn id_without_script(id: &LangId) -> (r: LangId)
    ensures
        r@ == without_script(id@),
{
    let mut r = id.clone();
    r.script = None;
    r
}

impl LanguageMatcher {
    /// Whether the rules give a distance for the pair, as [`Self::pair_ok`] says.
    pub fn pair_check(&self, desired: &LangId, supported: &LangId) -> (b: bool)
        ensures
            b == self.pair_ok(desired@, supported@),
    {
        let ghost rv = self.rules_view();
        let ghost vv = self.vars_view();
        let ghost pv = self.paradigm_view();
        let mut i: usize = 0;
        while i < self.rules.len()
            invariant
                i <= self.rules@.len(),
                rv == rules_view(self.rules@),
                vv == self.vars@,
                pv == ids_view(self.paradiam@),
                match_ok(rv, desired@, supported@, vv, pv, 0) == match_ok(
                    rv,
                    desired@,
                    supported@,
                    vv,
                    pv,
                    i as int,
                ),
            decreases self.rules@.len() - i,
        {
            let rule = &self.rules[i];
            assert(rv[i as int] == rule@);
            if !rule_pair_check(rule, desired, supported, &self.vars) {
                return false;
            }
            let mut hits = rule.desired.matches(desired, &self.vars) && rule.supported.matches(
                supported,
                &self.vars,
            );
            if !rule.oneway && !hits {
                hits = rule.supported.matches(desired, &self.vars) && rule.desired.matches(
                    supported,
                    &self.vars,
                );
            }
            if hits {
                let fits = rule.distance <= 6553;
                let xor = self.is_paradiam(desired) != self.is_paradiam(supported);
                return fits && (!xor || rule.distance >= 1);
            }
            i = i + 1;
        }
        false
    }

    /// Whether [`Self::distance_impl`] can take the pair, as
    /// [`Self::distance_ok`] says.
    pub fn distance_check(&self, desired: &LangId, supported: &LangId) -> (b: bool)
        ensures
            b == self.distance_ok(desired@, supported@),
    {
        if desired.region.is_none() || desired.script.is_none() || supported.region.is_none()
            || supported.script.is_none() {
            return false;
        }
        let ghost d0 = desired@;
        let ghost s0 = supported@;
        let d1 = id_without_region(desired);
        let s1 = id_without_region(supported);
        let d2 = id_without_script(&d1);
        let s2 = id_without_script(&s1);
        let mut total: u32 = 0;
        if !opt_str_eq(&desired.region, &supported.region) {
            if !self.pair_check(desired, supported) {
                return false;
            }
            proof {
                lemma_match_distance_nonneg(self.rules_view(), d0, s0, self.vars_view(), self.paradigm_view(), 0);
            }
            total = total + self.distance_match(desired, supported) as u32;
        }
        if !opt_str_eq(&d1.script, &s1.script) {
            if !self.pair_check(&d1, &s1) {
                return false;
            }
            proof {
                lemma_match_distance_nonneg(self.rules_view(), d1@, s1@, self.vars_view(), self.paradigm_view(), 0);
            }
            total = total + self.distance_match(&d1, &s1) as u32;
        }
        if !str_eq(d2.language.as_str(), s2.language.as_str()) {
            if !self.pair_check(&d2, &s2) {
                return false;
            }
            proof {
                lemma_match_distance_nonneg(self.rules_view(), d2@, s2@, self.vars_view(), self.paradigm_view(), 0);
            }
            total = total + self.distance_match(&d2, &s2) as u32;
        }
        total <= 65535
    }

    /// The distance of the pair, where [`Self::distance_check`] passes; none
    /// where it does not.
    pub fn try_distance(&self, desired: LangId, supported: LangId) -> (r: Option<u16>)
        ensures
            r is Some <==> self.distance_ok(desired@, supported@),
            r matches Some(d) ==> d == self.distance_spec(desired@, supported@),
    {
        if self.distance_check(&desired, &supported) {
            Some(self.distance_impl(desired, supported))
        } else {
            None
        }
    }

    /// The best match, as [`Self::matches`] picks it, where every candidate
    /// passes [`Self::distance_check`]; none where one does not.
    pub fn try_matches(&self, desired: &LangId, supported: Vec<(LangId, LangId)>) -> (r: Option<
        Option<(LangId, u16)>,
    >)
        ensures
            r is Some <==> forall|i: int|
                0 <= i < supported@.len() ==> self.distance_ok(desired@, #[trigger] supported@[i].1@),
            r matches Some(m) ==> self.is_best_match(desired@, supported@, m),
    {
        let mut i: usize = 0;
        while i < supported.len()
            invariant
                i <= supported@.len(),
                forall|j: int| 0 <= j < i ==> self.distance_ok(desired@, #[trigger] supported@[j].1@),
            decreases supported@.len() - i,
        {
            if !self.distance_check(desired, &supported[i].1) {
                return None;
            }
            i = i + 1;
        }
        Some(self.matches(desired, supported))
    }
}

/// A paradigm-locales item: identifiers separated by spaces.
pub struct ParadigmLocales {
    /// The identifiers.
    pub locales: String,
}

/// A variable: its name, `$` and the name, and its subtags separated by `+`.
pub struct MatchVariable {
    /// The name, after `$`.
    pub id: String,
    /// The subtags.
    pub value: String,
}

/// An item of the language-matching data.
pub enum LanguageMatchItem {
    /// Paradigm locales.
    ParadigmLocales(ParadigmLocales),
    /// A variable.
    MatchVariable(MatchVariable),
    /// A rule.
    LanguageMatch(LanguageMatch),
}

/// The items of the language-matching data.
pub struct LanguageMatches {
    /// The items, in order.
    pub matches: Vec<LanguageMatchItem>,
}

/// The language-matching data.
pub struct LanguageMatching {
    /// The items.
    pub language_matches: LanguageMatches,
}

/// The supplemental data that holds the language-matching data.
pub struct SupplementalData {
    /// The language-matching data.
    pub language_matching: LanguageMatching,
}

/// An item of the language-matching data, as plain values.
pub enum ItemView {
    /// Paradigm locales.
    Paradigm(Seq<char>),
    /// A variable's name and subtags.
    Var(Seq<char>, Seq<char>),
    /// A rule.
    Match(MatchView),
}

/// The view of an item.
pub open spec fn item_view(i: LanguageMatchItem) -> ItemView {
    match i {
        LanguageMatchItem::ParadigmLocales(p) => ItemView::Paradigm(p.locales@),
        LanguageMatchItem::MatchVariable(v) => ItemView::Var(v.id@, v.value@),
        LanguageMatchItem::LanguageMatch(m) => ItemView::Match(m@),
    }
}

/// The views of the items of the data.
pub open spec fn data_items(data: SupplementalData) -> Seq<ItemView> {
    data.language_matching.language_matches.matches@.map_values(|i: LanguageMatchItem| item_view(i))
}

/// The identifiers that a list of texts parses to.
pub open spec fn parsed_ids(pieces: Seq<Seq<char>>) -> Seq<LangIdView> {
    pieces.map_values(|p: Seq<char>| langid_parse(p)->0)
}

/// Every text of the list parses.
pub open spec fn all_parse(pieces: Seq<Seq<char>>) -> bool {
    forall|k: int| 0 <= k < pieces.len() ==> #[trigger] langid_parse(pieces[k]) is Some
}

/// An item can be taken in: its paradigm locales all parse, and a variable's
/// name starts with `$`.
pub open spec fn item_ok(i: ItemView) -> bool {
    match i {
        ItemView::Paradigm(l) => all_parse(split_spec(l, ' ')),
        ItemView::Var(id, _) => id.len() >= 1 && id[0] == '$',
        ItemView::Match(_) => true,
    }
}

/// All items can be taken in.
pub open spec fn items_ok(items: Seq<ItemView>) -> bool {
    forall|k: int| 0 <= k < items.len() ==> #[trigger] item_ok(items[k])
}

/// The paradigm locales of the items, in order.
pub open spec fn items_paradigm(items: Seq<ItemView>) -> Seq<LangIdView>
    decreases items.len(),
{
    if items.len() == 0 {
        Seq::empty()
    } else {
        items_paradigm(items.drop_last()) + match items.last() {
            ItemView::Paradigm(l) => parsed_ids(split_spec(l, ' ')),
            _ => Seq::empty(),
        }
    }
}

/// The variables of the items, a later one replacing an earlier one of the same name.
pub open spec fn items_vars(items: Seq<ItemView>) -> Map<Seq<char>, Seq<Seq<char>>>
    decreases items.len(),
{
    if items.len() == 0 {
        Map::empty()
    } else {
        match items.last() {
            ItemView::Var(id, value) => items_vars(items.drop_last()).insert(
                id.subrange(1, id.len() as int),
                split_spec(value, '+'),
            ),
            _ => items_vars(items.drop_last()),
        }
    }
}

/// The rules of the items, in order.
pub open spec fn items_rules(items: Seq<ItemView>) -> Seq<MatchView>
    decreases items.len(),
{
    if items.len() == 0 {
        Seq::empty()
    } else {
        match items.last() {
            ItemView::Match(m) => items_rules(items.drop_last()).push(m),
            _ => items_rules(items.drop_last()),
        }
    }
}

/// The identifiers that a list of texts parses to, each text known to parse.
fn parse_all(pieces: &Vec<String>) -> (ids: Vec<LangId>)
    requires
        all_parse(strs_of(pieces@)),
    ensures
        ids_view(ids@) == parsed_ids(strs_of(pieces@)),
{
    let mut ids: Vec<LangId> = Vec::new();
    let mut i: usize = 0;
    while i < pieces.len()
        invariant
            i <= pieces@.len(),
            all_parse(strs_of(pieces@)),
            ids_view(ids@) == parsed_ids(strs_of(pieces@).subrange(0, i as int)),
        decreases pieces@.len() - i,
    {
        assert(strs_of(pieces@)[i as int] == pieces@[i as int]@);
        match parse_langid(pieces[i].as_str()) {
            Ok(id) => {
                let ghost before = ids@;
                ids.push(id);
                proof {
                    assert(ids_view(ids@) =~= ids_view(before).push(id@));
                    assert(parsed_ids(strs_of(pieces@).subrange(0, i as int + 1)) =~= parsed_ids(
                        strs_of(pieces@).subrange(0, i as int),
                    ).push(id@));
                }
            },
            Err(_) => {
                proof {
                    assert(langid_parse(strs_of(pieces@)[i as int]) is Some);
                }
            },
        }
        i = i + 1;
    }
    assert(strs_of(pieces@).subrange(0, i as int) =~= strs_of(pieces@));
    ids
}

/// Whether every text of a list parses.
fn check_all_parse(pieces: &Vec<String>) -> (b: bool)
    ensures
        b == all_parse(strs_of(pieces@)),
{
    let mut i: usize = 0;
    while i < pieces.len()
        invariant
            i <= pieces@.len(),
            forall|k: int| 0 <= k < i ==> #[trigger] langid_parse(strs_of(pieces@)[k]) is Some,
        decreases pieces@.len() - i,
    {
        assert(strs_of(pieces@)[i as int] == pieces@[i as int]@);
        if parse_langid(pieces[i].as_str()).is_err() {
            return false;
        }
        i = i + 1;
    }
    true
}

impl LanguageMatcher {
    /// The variables, each with its subtags as characters.
    pub open spec fn vars_strs(&self) -> Map<Seq<char>, Seq<Seq<char>>> {
        self.vars_view().map_values(|v: Vec<String>| strs_of(v@))
    }

    /// Builds a matcher from language-matching data that can all be taken in:
    /// the paradigm locales, the variables and the rules of the items, in order.
    pub fn from_data(data: SupplementalData) -> (m: Self)
        requires
            items_ok(data_items(data)),
        ensures
            m.paradigm_view() == items_paradigm(data_items(data)),
            m.vars_strs() == items_vars(data_items(data)),
            m.rules_view() == items_rules(data_items(data)),
    {
        let ghost all = data_items(data);
        let mut items = data.language_matching.language_matches.matches;
        let n = items.len();
        let mut paradiam: Vec<LangId> = Vec::new();
        let mut vars: Variables = StrMap::new();
        let mut rules: Vec<LanguageMatch> = Vec::new();
        let mut k: usize = 0;
        while k < n
            invariant
                k <= n == all.len(),
                items@.len() == n - k,
                forall|j: int| 0 <= j < items@.len() ==> #[trigger] item_view(items@[j]) == all[k + j],
                items_ok(all),
                ids_view(paradiam@) == items_paradigm(all.subrange(0, k as int)),
                vars@.map_values(|v: Vec<String>| strs_of(v@)) == items_vars(all.subrange(0, k as int)),
                rules_view(rules@) == items_rules(all.subrange(0, k as int)),
            decreases n - k,
        {
            let ghost pre = all.subrange(0, k as int);
            let ghost cur = all.subrange(0, k as int + 1);
            proof {
                assert(cur.drop_last() =~= pre);
                assert(item_view(items@[0]) == all[k as int]);
                assert(item_ok(all[k as int]));
            }
            let ghost old_items = items@;
            let item = items.remove(0);
            proof {
                assert(item == old_items[0]);
                assert(item_view(item) == all[k as int]);
                assert forall|j: int| 0 <= j < items@.len() implies #[trigger] item_view(items@[j]) == all[k + 1 + j] by {
                    assert(items@[j] == old_items[j + 1]);
                    assert(item_view(old_items[j + 1]) == all[k + (j + 1)]);
                }
            }
            match item {
                LanguageMatchItem::ParadigmLocales(p) => {
                    let pieces = split_str(p.locales.as_str(), ' ');
                    let ids = parse_all(&pieces);
                    let ghost before = paradiam@;
                    let mut ids = ids;
                    paradiam.append(&mut ids);
                    proof {
                        assert(ids_view(paradiam@) =~= ids_view(before) + parsed_ids(split_spec(p.locales@, ' ')));
                    }
                },
                LanguageMatchItem::MatchVariable(v) => {
                    let cs = collect_chars(v.id.as_str());
                    let name = string_of_range(&cs, 1, cs.len());
                    let set = split_str(v.value.as_str(), '+');
                    let ghost before = vars@;
                    vars.insert(name, set);
                    proof {
                        assert(vars@.map_values(|v: Vec<String>| strs_of(v@)) =~= before.map_values(
                            |v: Vec<String>| strs_of(v@),
                        ).insert(v.id@.subrange(1, v.id@.len() as int), split_spec(v.value@, '+')));
                    }
                },
                LanguageMatchItem::LanguageMatch(m) => {
                    let ghost before = rules@;
                    rules.push(m);
                    proof {
                        assert(rules_view(rules@) =~= rules_view(before).push(m@));
                    }
                },
            }
            k = k + 1;
        }
        proof {
            assert(all.subrange(0, n as int) =~= all);
        }
        LanguageMatcher { paradiam, vars, rules }
    }
}

/// Whether all items of the data can be taken in.
pub fn check_data(data: &SupplementalData) -> (b: bool)
    ensures
        b == items_ok(data_items(*data)),
{
    let items = &data.language_matching.language_matches.matches;
    let ghost all = data_items(*data);
    let mut k: usize = 0;
    while k < items.len()
        invariant
            k <= items@.len() == all.len(),
            all == data_items(*data),
            items@ == data.language_matching.language_matches.matches@,
            forall|j: int| 0 <= j < k ==> #[trigger] item_ok(all[j]),
        decreases items@.len() - k,
    {
        assert(all[k as int] == item_view(items@[k as int]));
        let ok = match &items[k] {
            LanguageMatchItem::ParadigmLocales(p) => {
                let pieces = split_str(p.locales.as_str(), ' ');
                check_all_parse(&pieces)
            },
            LanguageMatchItem::MatchVariable(v) => {
                let cs = collect_chars(v.id.as_str());
                cs.len() >= 1 && cs[0] == '$'
            },
            LanguageMatchItem::LanguageMatch(_) => true,
        };
        assert(ok == item_ok(all[k as int]));
        if !ok {
            return false;
        }
        k = k + 1;
    }
    true
}

impl LanguageMatcher {
    /// Builds a matcher from language-matching data, or gives none where some
    /// paradigm locale does not parse or some variable's name does not start
    /// with `$`.
    pub fn try_from_data(data: SupplementalData) -> (m: Option<Self>)
        ensures
            m is Some <==> items_ok(data_items(data)),
            m is Some ==> m->0.paradigm_view() == items_paradigm(data_items(data)) && m->0.vars_strs()
                == items_vars(data_items(data)) && m->0.rules_view() == items_rules(data_items(data)),
    {
        if check_data(&data) {
            Some(LanguageMatcher::from_data(data))
        } else {
            None
        }
    }
}

} // verus!
