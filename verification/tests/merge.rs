use ayaka::action::{ActionLine, ActionLines};
use ayaka::context::{finish_action, merge_action, next_run_step, Action, RawContext, RunSearch, Switch};
use ayaka::exec::{Expr, Program, Ref};
use ayaka::fallback::Fallback;
use ayaka::raw_value::RawValue;
use ayaka::str_map::StrMap;

fn action(para: &str, line: &str, character: Option<&str>) -> Action {
    let mut ctx = RawContext::default();
    ctx.cur_para = para.to_string();
    let mut lines = ActionLines::new();
    if !line.is_empty() {
        lines.push_back_chars(line);
    }
    Action {
        ctx,
        line: lines,
        line_params: vec![],
        ch_key: None,
        character: character.map(|s| s.to_string()),
        para_title: None,
        switches: vec![],
        props: StrMap::new(),
    }
}

fn switch(text: &str, var: Option<&str>, enabled: bool) -> Switch {
    Switch {
        text: text.to_string(),
        action: Program(var.map(|v| vec![Expr::Ref(Ref::Var(v.to_string()))]).unwrap_or_default()),
        enabled,
    }
}

#[test]
fn merge_none() {
    assert!(merge_action(Fallback::new(None, None)).is_none());
}

#[test]
fn merge_prefers_filled_fields() {
    let mut main = action("main", "", Some("Alice"));
    main.line_params = vec![RawValue::Num(1)];
    main.props.insert("k".to_string(), "main".to_string());
    let mut base = action("base", "base text", Some("Base"));
    base.para_title = Some("Title".to_string());
    base.ch_key = Some(String::new());
    base.props.insert("k".to_string(), "base".to_string());
    base.props.insert("only".to_string(), "base".to_string());
    let merged = merge_action(Fallback::new(Some(main), Some(base))).unwrap();
    assert_eq!(merged.ctx.cur_para, "main");
    assert_eq!(merged.line.len(), 1);
    assert_eq!(*merged.line.get(0), ActionLine::chars("base text"));
    assert_eq!(merged.line_params, vec![RawValue::Num(1)]);
    assert_eq!(merged.character, Some("Alice".to_string()));
    assert_eq!(merged.para_title, Some("Title".to_string()));
    assert_eq!(merged.ch_key, None);
    assert_eq!(merged.props.get("k"), Some(&"main".to_string()));
    assert_eq!(merged.props.get("only"), Some(&"base".to_string()));
    assert_eq!(merged.props.len(), 2);
}

#[test]
fn merge_base_only() {
    let base = action("base", "hi", None);
    let merged = merge_action(Fallback::new(None, Some(base))).unwrap();
    assert_eq!(merged.ctx.cur_para, "base");
    assert_eq!(merged.line.get(0).as_str(), "hi");
    assert_eq!(merged.character, None);
}

#[test]
fn merge_switches_one_by_one() {
    let mut main = action("m", "x", None);
    main.switches = vec![switch("", Some("a"), true), switch("second", None, true)];
    let mut base = action("b", "y", None);
    base.switches = vec![switch("first", Some("b"), false)];
    let merged = merge_action(Fallback::new(Some(main), Some(base))).unwrap();
    assert_eq!(merged.switches.len(), 2);
    assert_eq!(merged.switches[0].text, "first");
    assert_eq!(merged.switches[0].action, Program(vec![Expr::Ref(Ref::Var("a".to_string()))]));
    assert!(!merged.switches[0].enabled);
    assert_eq!(merged.switches[1].text, "second");
    assert_eq!(merged.switches[1].action, Program(vec![]));
    assert!(merged.switches[1].enabled);
}

#[test]
fn finish_action_trims_and_keeps() {
    let mut a = action("p", "hello", None);
    a.line.push_front(ActionLine::chars("  "));
    a.line.push_back_block("\n\t");
    assert!(finish_action(&mut a));
    assert_eq!(a.line.len(), 1);
    assert_eq!(*a.line.get(0), ActionLine::chars("hello"));

    let mut blank = action("p", "   ", None);
    assert!(!finish_action(&mut blank));
    assert!(blank.line.is_empty());

    let mut speaker = action("p", " ", Some("Alice"));
    assert!(finish_action(&mut speaker));
    assert!(speaker.line.is_empty());
}

#[test]
fn next_run_step_walks_paragraphs() {
    let mut ctx = RawContext::default();
    ctx.cur_base_para = "base".to_string();
    ctx.cur_para = "intro".to_string();
    ctx.cur_act = 3;

    assert!(matches!(next_run_step(&mut ctx, true, true, None), RunSearch::Found));
    assert_eq!((ctx.cur_para.as_str(), ctx.cur_act), ("intro", 3));

    assert!(matches!(
        next_run_step(&mut ctx, true, false, Some("second".to_string())),
        RunSearch::Continue
    ));
    assert_eq!((ctx.cur_para.as_str(), ctx.cur_act), ("second", 0));
    assert_eq!(ctx.cur_base_para, "base");

    assert!(matches!(next_run_step(&mut ctx, false, false, None), RunSearch::Continue));
    assert_eq!(ctx.cur_base_para, "second");
    assert_eq!(ctx.cur_para, "second");

    assert!(matches!(next_run_step(&mut ctx, false, false, None), RunSearch::End));
    assert_eq!(ctx.cur_para, "second");

    assert!(matches!(next_run_step(&mut ctx, true, false, None), RunSearch::Continue));
    assert_eq!(ctx.cur_para, "");
    assert_eq!(ctx.cur_act, 0);
}
