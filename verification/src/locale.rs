//! Locales: language identifiers taken apart into their subtags.

use crate::strings::{index_of_from, push_char, split_from, split_spec};
use vstd::prelude::*;

verus! {

broadcast use vstd::string::group_string_axioms;

/// The error of `icu_locid`'s parser, carried as it is.
#[verifier::external_type_specification]
#[verifier::external_body]
pub struct ExParserError(icu_locid::ParserError);

/// A language identifier as plain subtags.
pub struct LangIdView {
    /// The language subtag.
    pub language: Seq<char>,
    /// The script subtag.
    pub script: Option<Seq<char>>,
    /// The region subtag.
    pub region: Option<Seq<char>>,
    /// The variant subtags.
    pub variants: Seq<Seq<char>>,
}

/// A language identifier: its language, script, region and variant subtags.
#[derive(Debug)]
pub struct LangId {
    /// The language subtag.
    pub language: String,
    /// The script subtag.
    pub script: Option<String>,
    /// The region subtag.
    pub region: Option<String>,
    /// The variant subtags.
    pub variants: Vec<String>,
}

/// An optional string, as characters.
pub open spec fn opt_chars(o: Option<String>) -> Option<Seq<char>> {
    match o {
        Some(s) => Some(s@),
        None => None,
    }
}

impl View for LangId {
    type V = LangIdView;

    open spec fn view(&self) -> LangIdView {
        LangIdView {
            language: self.language@,
            script: opt_chars(self.script),
            region: opt_chars(self.region),
            variants: self.variants@.map_values(|v: String| v@),
        }
    }
}

/// A copy of an optional string.
fn clone_opt(o: &Option<String>) -> (r: Option<String>)
    ensures
        opt_chars(r) == opt_chars(*o),
{
    match o {
        Some(x) => Some(x.clone()),
        None => None,
    }
}

impl Clone for LangId {
    fn clone(&self) -> (r: Self)
        ensures
            r@ == self@,
    {
        let mut variants: Vec<String> = Vec::new();
        let mut i: usize = 0;
        while i < self.variants.len()
            invariant
                i <= self.variants@.len(),
                variants@.len() == i,
                forall|k: int| 0 <= k < i ==> #[trigger] variants@[k]@ == self.variants@[k]@,
            decreases self.variants@.len() - i,
        {
            variants.push(self.variants[i].clone());
            i = i + 1;
        }
        let r = LangId {
            language: self.language.clone(),
            script: clone_opt(&self.script),
            region: clone_opt(&self.region),
            variants,
        };
        assert(r.variants@.map_values(|v: String| v@) =~= self.variants@.map_values(|v: String| v@));
        r
    }
}

/// The subtags that `icu_locid` parses a language identifier into, each in
/// its canonical case, or none where the text is not a valid identifier.
pub uninterp spec fn langid_parse(s: Seq<char>) -> Option<LangIdView>;

/// Parses a language identifier with `icu_locid`'s `LanguageIdentifier::from_str`
/// and takes it apart into its subtags.
///
/// Trusted: the result is the one that [`langid_parse`] names for the text, and
/// the error is the one that `icu_locid` reports. Which texts are valid, and the
/// canonical case of each subtag, are left to `icu_locid` and not stated.
#[verifier::external_body]
pub(crate) fn parse_langid(s: &str) -> (r: Result<LangId, icu_locid::ParserError>)
    ensures
        r is Ok <==> langid_parse(s@) is Some,
        r is Ok ==> langid_parse(s@) == Some(r->Ok_0@),
{
    match s.parse::<icu_locid::LanguageIdentifier>() {
        Ok(id) => Ok(LangId {
            language: id.language.as_str().to_string(),
            script: id.script.map(|x| x.as_str().to_string()),
            region: id.region.map(|x| x.as_str().to_string()),
            variants: id.variants.iter().map(|v| v.as_str().to_string()).collect(),
        }),
        Err(e) => Err(e),
    }
}

/// A subtag with the `-` that introduces it, where there is one.
pub open spec fn dash_opt(o: Option<Seq<char>>) -> Seq<char> {
    match o {
        Some(t) => seq!['-'] + t,
        None => Seq::empty(),
    }
}

/// Each variant with the `-` that introduces it.
pub open spec fn dash_all(v: Seq<Seq<char>>) -> Seq<char>
    decreases v.len(),
{
    if v.len() == 0 {
        Seq::empty()
    } else {
        dash_all(v.drop_last()) + seq!['-'] + v.last()
    }
}

/// The text of a language identifier: its subtags joined by `-`.
pub open spec fn langid_text(v: LangIdView) -> Seq<char> {
    v.language + dash_opt(v.script) + dash_opt(v.region) + dash_all(v.variants)
}

/// The subtags of an identifier in order: language, script and region where
/// present, then the variants.
pub open spec fn subtags(v: LangIdView) -> Seq<Seq<char>> {
    seq![v.language] + (match v.script {
        Some(t) => seq![t],
        None => Seq::empty(),
    }) + (match v.region {
        Some(t) => seq![t],
        None => Seq::empty(),
    }) + v.variants
}

/// No subtag holds a `-`, as in every identifier that `icu_locid` parses.
pub open spec fn no_dash(parts: Seq<Seq<char>>) -> bool {
    forall|k: int| 0 <= k < parts.len() ==> !(#[trigger] parts[k]).contains('-')
}

proof fn lemma_dash_all_add(x: Seq<Seq<char>>, y: Seq<Seq<char>>)
    ensures
        dash_all(x + y) == dash_all(x) + dash_all(y),
    decreases y.len(),
{
    if y.len() == 0 {
        assert(x + y =~= x);
    } else {
        lemma_dash_all_add(x, y.drop_last());
        assert((x + y).drop_last() =~= x + y.drop_last());
        assert((x + y).last() == y.last());
    }
}

proof fn lemma_dash_all_front(ws: Seq<Seq<char>>)
    requires
        ws.len() > 0,
    ensures
        dash_all(ws) == seq!['-'] + ws[0] + dash_all(ws.drop_first()),
{
    lemma_dash_all_add(seq![ws[0]], ws.drop_first());
    assert(seq![ws[0]] + ws.drop_first() =~= ws);
    assert(seq![ws[0]].drop_last() =~= Seq::<Seq<char>>::empty());
    assert(dash_all(Seq::<Seq<char>>::empty()) == Seq::<char>::empty());
    assert(dash_all(seq![ws[0]]) =~= seq!['-'] + ws[0]);
}

proof fn lemma_index_of_from_at(s: Seq<char>, c: char, i: int, j: int)
    requires
        0 <= i <= j <= s.len(),
        forall|k: int| i <= k < j ==> s[k] != c,
        j == s.len() || s[j] == c,
    ensures
        index_of_from(s, c, i) == j,
    decreases j - i,
{
    if i < j {
        lemma_index_of_from_at(s, c, i + 1, j);
    }
}

proof fn lemma_split_joined(s: Seq<char>, i: int, p: Seq<char>, ws: Seq<Seq<char>>)
    requires
        0 <= i <= s.len(),
        s.subrange(i, s.len() as int) == p + dash_all(ws),
        !p.contains('-'),
        no_dash(ws),
    ensures
        split_from(s, '-', i) == seq![p] + ws,
    decreases ws.len(),
{
    let sub = s.subrange(i, s.len() as int);
    let j = i + p.len();
    assert(sub.len() == s.len() - i);
    assert(sub.len() == p.len() + dash_all(ws).len());
    assert forall|k: int| i <= k < j implies s[k] != '-' by {
        assert(sub[k - i] == s[k]);
        assert(sub[k - i] == p[k - i]);
    }
    assert(s.subrange(i, j) =~= p) by {
        assert forall|k: int| 0 <= k < p.len() implies s.subrange(i, j)[k] == p[k] by {
            assert(sub[k] == s[i + k]);
        }
    }
    if ws.len() == 0 {
        assert(dash_all(ws) == Seq::<char>::empty());
        assert(j == s.len());
        lemma_index_of_from_at(s, '-', i, j);
        assert(seq![p] + ws =~= seq![p]);
    } else {
        lemma_dash_all_front(ws);
        let rest = ws[0] + dash_all(ws.drop_first());
        assert(sub =~= p + seq!['-'] + rest);
        assert(s[j] == '-') by {
            assert(sub[p.len() as int] == s[j]);
        }
        lemma_index_of_from_at(s, '-', i, j);
        assert(s.subrange(j + 1, s.len() as int) =~= ws[0] + dash_all(ws.drop_first())) by {
            assert forall|k: int| 0 <= k < s.len() - (j + 1) implies s.subrange(j + 1, s.len() as int)[k]
                == rest[k] by {
                assert(sub[p.len() + 1 + k] == s[j + 1 + k]);
            }
        }
        assert(!ws[0].contains('-'));
        assert(no_dash(ws.drop_first())) by {
            assert forall|k: int| 0 <= k < ws.drop_first().len() implies !(#[trigger] ws.drop_first()[k]).contains('-') by {
                assert(ws.drop_first()[k] == ws[k + 1]);
            }
        }
        lemma_split_joined(s, j + 1, ws[0], ws.drop_first());
        assert(seq![ws[0]] + ws.drop_first() =~= ws);
        assert(seq![p] + (seq![ws[0]] + ws.drop_first()) =~= seq![p] + ws);
    }
}

/// The text of an identifier is its subtags joined by `-`: splitting it on
/// `-` gives back exactly the language, the script and the region where
/// present, and the variants, in that order.
pub proof fn lemma_text_splits_into_subtags(v: LangIdView)
    requires
        no_dash(subtags(v)),
    ensures
        split_spec(langid_text(v), '-') == subtags(v),
{
    let mids = (match v.script {
        Some(t) => seq![t],
        None => Seq::empty(),
    }) + (match v.region {
        Some(t) => seq![t],
        None => Seq::empty(),
    }) + v.variants;
    assert(dash_opt(v.script) == dash_all(match v.script {
        Some(t) => seq![t],
        None => Seq::<Seq<char>>::empty(),
    })) by {
        if let Some(t) = v.script {
            assert(seq![t].drop_last() =~= Seq::<Seq<char>>::empty());
            assert(dash_all(Seq::<Seq<char>>::empty()) == Seq::<char>::empty());
            assert(dash_all(seq![t]) =~= seq!['-'] + t);
        }
    }
    assert(dash_opt(v.region) == dash_all(match v.region {
        Some(t) => seq![t],
        None => Seq::<Seq<char>>::empty(),
    })) by {
        if let Some(t) = v.region {
            assert(seq![t].drop_last() =~= Seq::<Seq<char>>::empty());
            assert(dash_all(Seq::<Seq<char>>::empty()) == Seq::<char>::empty());
            assert(dash_all(seq![t]) =~= seq!['-'] + t);
        }
    }
    let sc: Seq<Seq<char>> = match v.script {
        Some(t) => seq![t],
        None => Seq::empty(),
    };
    let rg: Seq<Seq<char>> = match v.region {
        Some(t) => seq![t],
        None => Seq::empty(),
    };
    lemma_dash_all_add(sc, rg);
    lemma_dash_all_add(sc + rg, v.variants);
    let text = langid_text(v);
    assert(text =~= v.language + dash_all(mids));
    assert(subtags(v) =~= seq![v.language] + mids);
    assert(!v.language.contains('-')) by {
        assert(subtags(v)[0] == v.language);
    }
    assert(no_dash(mids)) by {
        assert forall|k: int| 0 <= k < mids.len() implies !(#[trigger] mids[k]).contains('-') by {
            assert(subtags(v)[k + 1] == mids[k]);
        }
    }
    assert(text.subrange(0, text.len() as int) =~= text);
    lemma_split_joined(text, 0, v.language, mids);
}

/// Appends `s` to `out`.
fn push_str(out: &mut String, s: &str)
    ensures
        final(out)@ == old(out)@ + s@,
{
    out.append(s);
}

/// The error of parsing a [`Locale`].
#[derive(Debug)]
pub struct LocaleParseError(pub icu_locid::ParserError);

/// A locale, identified by its language, script, region and variants.
#[derive(Debug)]
pub struct Locale(LangId);

impl View for Locale {
    type V = LangIdView;

    closed spec fn view(&self) -> LangIdView {
        self.0@
    }
}

impl Locale {
    /// Parses a locale from its identifier.
    pub fn parse(s: &str) -> (r: Result<Locale, LocaleParseError>)
        ensures
            r is Ok <==> langid_parse(s@) is Some,
            r is Ok ==> langid_parse(s@) == Some(r->Ok_0@),
    {
        match parse_langid(s) {
            Ok(id) => Ok(Locale(id)),
            Err(e) => Err(LocaleParseError(e)),
        }
    }

    /// The subtags of the locale.
    pub fn lang_id(&self) -> (id: &LangId)
        ensures
            id@ == self@,
    {
        &self.0
    }

    /// The identifier of the locale, its subtags joined by `-`, as `Display`
    /// writes it.
    pub fn to_string(&self) -> (r: String)
        ensures
            r@ == langid_text(self@),
    {
        let id = &self.0;
        let mut out = String::new();
        push_str(&mut out, id.language.as_str());
        if let Some(script) = &id.script {
            push_char(&mut out, '-');
            push_str(&mut out, script.as_str());
        }
        proof {
            assert(out@ =~= id@.language + dash_opt(id@.script));
        }
        if let Some(region) = &id.region {
            push_char(&mut out, '-');
            push_str(&mut out, region.as_str());
        }
        proof {
            assert(out@ =~= id@.language + dash_opt(id@.script) + dash_opt(id@.region));
        }
        let ghost head = out@;
        let mut i: usize = 0;
        while i < id.variants.len()
            invariant
                i <= id.variants@.len(),
                out@ == head + dash_all(id@.variants.subrange(0, i as int)),
            decreases id.variants@.len() - i,
        {
            push_char(&mut out, '-');
            push_str(&mut out, id.variants[i].as_str());
            proof {
                let pre = id@.variants.subrange(0, i as int + 1);
                assert(pre.drop_last() =~= id@.variants.subrange(0, i as int));
            }
            i = i + 1;
        }
        proof {
            assert(id@.variants.subrange(0, i as int) =~= id@.variants);
        }
        out
    }
}

impl Default for Locale {
    /// The English locale, `en`.
    fn default() -> (l: Self)
        ensures
            l@.language == seq!['e', 'n'],
            l@.script is None,
            l@.region is None,
            l@.variants.len() == 0,
    {
        let mut language = String::new();
        push_char(&mut language, 'e');
        push_char(&mut language, 'n');
        let l = Locale(LangId { language, script: None, region: None, variants: Vec::new() });
        assert(l@.language =~= seq!['e', 'n']);
        l
    }
}

impl std::str::FromStr for Locale {
    type Err = LocaleParseError;

    fn from_str(s: &str) -> (r: Result<Self, Self::Err>)
        ensures
            r is Ok <==> langid_parse(s@) is Some,
            r is Ok ==> langid_parse(s@) == Some(r->Ok_0@),
    {
        Locale::parse(s)
    }
}

} // verus!
