use ayaka::locale::{LangId, Locale};
use ayaka::matcher::{
    check_data,
    LanguageIdentifierRule, LanguageMatch, LanguageMatchItem, LanguageMatcher, LanguageMatches,
    LanguageMatching, MatchVariable, ParadigmLocales, SubTagRule, SupplementalData,
};

#[test]
fn lib_parse() {
    assert_eq!("zh-Hans".parse::<Locale>().unwrap().to_string(), "zh-Hans");
}

#[test]
fn locale_canonical_case() {
    assert_eq!(Locale::parse("EN-us").unwrap().to_string(), "en-US");
    assert_eq!(Locale::parse("zh-hant-tw").unwrap().to_string(), "zh-Hant-TW");
    assert!(Locale::parse("x2").is_err());
    assert_eq!(Locale::default().to_string(), "en");
    let l = Locale::parse("sr-Latn-RS").unwrap();
    assert_eq!(l.lang_id().script.as_deref(), Some("Latn"));
    assert_eq!(l.lang_id().region.as_deref(), Some("RS"));
}

fn id(language: &str, script: &str, region: &str) -> LangId {
    LangId {
        language: language.to_string(),
        script: Some(script.to_string()),
        region: Some(region.to_string()),
        variants: vec![],
    }
}

fn rule(desired: &str, supported: &str, distance: u16, oneway: bool) -> LanguageMatchItem {
    LanguageMatchItem::LanguageMatch(LanguageMatch {
        desired: LanguageIdentifierRule::from(desired),
        supported: LanguageIdentifierRule::from(supported),
        distance,
        oneway,
    })
}

fn data(items: Vec<LanguageMatchItem>) -> SupplementalData {
    SupplementalData {
        language_matching: LanguageMatching {
            language_matches: LanguageMatches { matches: items },
        },
    }
}

fn matcher() -> LanguageMatcher {
    LanguageMatcher::try_from_data(data(vec![
        LanguageMatchItem::ParadigmLocales(ParadigmLocales {
            locales: "en en-GB es es-419".to_string(),
        }),
        LanguageMatchItem::MatchVariable(MatchVariable {
            id: "$enUS".to_string(),
            value: "AS+GU+US".to_string(),
        }),
        rule("*", "*", 80, false),
        rule("zh_Hant", "zh_Hans", 19, true),
        rule("*_*", "*_*", 50, false),
        rule("en_*_$enUS", "en_*_GB", 6, false),
        rule("*_*_*", "*_*_*", 4, false),
    ]))
    .unwrap()
}

#[test]
fn sub_tag_rules() {
    assert_eq!(SubTagRule::from("*"), SubTagRule::All);
    assert_eq!(
        SubTagRule::from("$!americas"),
        SubTagRule::VarExclude("americas".to_string())
    );
    assert_eq!(SubTagRule::from("$enUS"), SubTagRule::Var("enUS".to_string()));
    assert_eq!(SubTagRule::from("en"), SubTagRule::Str("en".to_string()));
    let r = LanguageIdentifierRule::from("zh_Hant");
    assert_eq!(r.language, SubTagRule::Str("zh".to_string()));
    assert_eq!(r.script, Some(SubTagRule::Str("Hant".to_string())));
    assert_eq!(r.region, None);
}

#[test]
fn matcher_distances() {
    let m = matcher();
    assert_eq!(m.distance_impl(id("zh", "Hant", "HK"), id("zh", "Hant", "MO")), 40);
    assert_eq!(m.distance_impl(id("zh", "Hant", "HK"), id("zh", "Hant", "HK")), 0);
    assert_eq!(m.distance_impl(id("en", "Latn", "US"), id("en", "Latn", "GB")), 60);
    assert_eq!(m.distance_impl(id("zh", "Hant", "TW"), id("zh", "Hans", "CN")), 40 + 190);
    assert_eq!(m.distance_impl(id("zh", "Hans", "CN"), id("zh", "Hant", "TW")), 40 + 500);
    assert_eq!(m.distance_impl(id("ja", "Jpan", "JP"), id("en", "Latn", "US")), 40 + 500 + 799);
}

#[test]
fn matcher_paradigm() {
    let m = matcher();
    let en = LangId {
        language: "en".to_string(),
        script: None,
        region: None,
        variants: vec![],
    };
    assert!(m.is_paradiam(&en));
    assert!(!m.is_paradiam(&id("en", "Latn", "US")));
    let fr = LangId {
        language: "fr".to_string(),
        script: None,
        region: None,
        variants: vec![],
    };
    let es = LangId {
        language: "es".to_string(),
        script: None,
        region: None,
        variants: vec![],
    };
    assert_eq!(m.distance_match(&en, &fr), 800 - 1);
    assert_eq!(m.distance_match(&en, &es), 800);
}

#[test]
fn matcher_rejects_bad_data() {
    assert!(LanguageMatcher::try_from_data(data(vec![LanguageMatchItem::MatchVariable(
        MatchVariable {
            id: "enUS".to_string(),
            value: "US".to_string(),
        }
    )]))
    .is_none());
    assert!(LanguageMatcher::try_from_data(data(vec![LanguageMatchItem::ParadigmLocales(
        ParadigmLocales {
            locales: "en x2".to_string(),
        }
    )]))
    .is_none());
}

#[test]
fn matcher_checks_data_before_taking_it() {
    let bad = data(vec![LanguageMatchItem::MatchVariable(MatchVariable {
        id: "enUS".to_string(),
        value: "US".to_string(),
    })]);
    assert!(!check_data(&bad));
    let good = data(vec![
        LanguageMatchItem::MatchVariable(MatchVariable {
            id: "$enUS".to_string(),
            value: "US".to_string(),
        }),
        rule("en", "fr", 500, false),
    ]);
    assert!(check_data(&good));
    let m = LanguageMatcher::from_data(good);
    let en = LangId {
        language: "en".to_string(),
        script: None,
        region: None,
        variants: vec![],
    };
    assert!(m.is_paradiam(&en) == false);
}

fn short(language: &str, script: &str) -> LangId {
    LangId {
        language: language.to_string(),
        script: if script.is_empty() { None } else { Some(script.to_string()) },
        region: None,
        variants: vec![],
    }
}

#[test]
fn matcher_picks_first_nearest() {
    let m = matcher();
    let desired = id("zh", "Hant", "TW");
    let candidates = vec![
        (short("en", ""), id("en", "Latn", "US")),
        (short("zh", "Hans"), id("zh", "Hans", "CN")),
        (short("zh", "Hant"), id("zh", "Hant", "HK")),
        (short("zh", ""), id("zh", "Hant", "MO")),
    ];
    let (best, dist) = m.matches(&desired, candidates).unwrap();
    assert_eq!(best.language, "zh");
    assert_eq!(best.script.as_deref(), Some("Hant"));
    assert_eq!(dist, 40);

    let far = vec![(short("en", ""), id("en", "Latn", "US"))];
    assert!(m.matches(&id("ja", "Jpan", "JP"), far).is_none());
    assert!(m.matches(&desired, vec![]).is_none());
}

#[test]
fn matcher_checks_before_distances() {
    let m = matcher();
    assert!(m.distance_check(&id("zh", "Hant", "HK"), &id("zh", "Hant", "MO")));
    assert!(m.pair_check(&id("zh", "Hant", "HK"), &id("zh", "Hant", "MO")));
    assert_eq!(m.try_distance(id("zh", "Hant", "HK"), id("zh", "Hant", "MO")), Some(40));
    assert_eq!(m.try_distance(id("en", "Latn", "US"), id("en", "Latn", "GB")), Some(60));
    // An identifier without its script and region is not a full one.
    assert!(!m.distance_check(&short("zh", ""), &id("zh", "Hant", "MO")));
    assert_eq!(m.try_distance(short("zh", ""), id("zh", "Hant", "MO")), None);

    let candidates = vec![
        (short("en", ""), id("en", "Latn", "US")),
        (short("zh", "Hant"), id("zh", "Hant", "HK")),
    ];
    let (best, dist) = m.try_matches(&id("zh", "Hant", "TW"), candidates).unwrap().unwrap();
    assert_eq!(best.language, "zh");
    assert_eq!(dist, 40);
    let bad = vec![(short("en", ""), short("en", ""))];
    assert!(m.try_matches(&id("zh", "Hant", "TW"), bad).is_none());

    // Rules that name an undefined variable cannot be checked.
    let undefined = LanguageMatcher::try_from_data(data(vec![rule("*_*_$nope", "*_*_*", 4, false)])).unwrap();
    assert!(!undefined.pair_check(&id("en", "Latn", "US"), &id("en", "Latn", "GB")));
    assert!(!undefined.distance_check(&id("en", "Latn", "US"), &id("en", "Latn", "GB")));
}
