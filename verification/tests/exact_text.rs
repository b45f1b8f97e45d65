use ayaka::action::{ActionLine, ActionLines};
use ayaka::context::{
    command_request, exact_text_start, exact_text_step, record_action, Action, CmdOutcome,
    CmdRequest, RawContext, TextResult,
};
use ayaka::exec::{Expr, Program, Ref};
use ayaka::raw_value::RawValue;
use ayaka::script_text::{Command, Line};
use ayaka::settings::{ActionRecord, GlobalRecord};
use ayaka::str_map::StrMap;

fn ctx(para: &str, act: usize) -> RawContext {
    let mut c = RawContext::default();
    c.cur_para = para.to_string();
    c.cur_act = act;
    c
}

fn prog(var: &str) -> Program {
    Program(vec![Expr::Ref(Ref::Var(var.to_string()))])
}

fn start() -> Action {
    exact_text_start(ctx("p", 2), Some("Title".to_string()))
}

#[test]
fn exact_text_start_is_empty() {
    let a = start();
    assert_eq!(a.ctx.cur_para, "p");
    assert_eq!(a.para_title.as_deref(), Some("Title"));
    assert!(a.line.is_empty() && a.line_params.is_empty() && a.switches.is_empty());
    assert!(a.ch_key.is_none() && a.character.is_none() && a.props.is_empty());
}

#[test]
fn command_requests() {
    assert!(matches!(command_request(&Line::Str("x".to_string())), CmdRequest::Nothing));
    match command_request(&Line::Cmd(Command::Character("alice".to_string(), String::new()))) {
        CmdRequest::Resource(k) => assert_eq!(k, "ch_alice"),
        _ => panic!("a character without alias asks for its resource"),
    }
    assert!(matches!(
        command_request(&Line::Cmd(Command::Character("alice".to_string(), "Al".to_string()))),
        CmdRequest::Nothing
    ));
    let exec = Line::Cmd(Command::Exec(prog("a")));
    assert!(matches!(command_request(&exec), CmdRequest::Exec(p) if *p == prog("a")));
    let sw = Line::Cmd(Command::Switch { text: "go".to_string(), action: prog("b"), enabled: Some(prog("c")) });
    assert!(matches!(command_request(&sw), CmdRequest::Enabled(p) if *p == prog("c")));
    let sw2 = Line::Cmd(Command::Switch { text: "go".to_string(), action: prog("b"), enabled: None });
    assert!(matches!(command_request(&sw2), CmdRequest::Nothing));
    let other = Line::Cmd(Command::Other("video".to_string(), vec!["x".to_string()]));
    assert!(matches!(command_request(&other), CmdRequest::Plugin(n, a) if n.as_str() == "video" && a.len() == 1));
}

#[test]
fn exact_text_takes_each_piece() {
    let mut a = start();
    exact_text_step(&mut a, Line::Str("Hello, ".to_string()), CmdOutcome::Nothing).unwrap();
    exact_text_step(&mut a, Line::Cmd(Command::Exec(prog("n"))), CmdOutcome::ExecValue(RawValue::Num(7))).unwrap();
    exact_text_step(&mut a, Line::Str(" and ".to_string()), CmdOutcome::Nothing).unwrap();
    exact_text_step(&mut a, Line::Cmd(Command::Exec(prog("m"))), CmdOutcome::ExecValue(RawValue::Bool(true))).unwrap();
    assert_eq!(a.line.len(), 1);
    assert_eq!(*a.line.get(0), ActionLine::chars("Hello, {0} and {1}"));
    assert_eq!(a.line_params, vec![RawValue::Num(7), RawValue::Bool(true)]);

    exact_text_step(
        &mut a,
        Line::Cmd(Command::Character("alice".to_string(), String::new())),
        CmdOutcome::Resource(Some(RawValue::Str("Alice".to_string()))),
    )
    .unwrap();
    assert_eq!(a.ch_key.as_deref(), Some("alice"));
    assert_eq!(a.character.as_deref(), Some("Alice"));
    exact_text_step(
        &mut a,
        Line::Cmd(Command::Character("bob".to_string(), "Bobby".to_string())),
        CmdOutcome::Nothing,
    )
    .unwrap();
    assert_eq!(a.ch_key.as_deref(), Some("bob"));
    assert_eq!(a.character.as_deref(), Some("Bobby"));
    exact_text_step(
        &mut a,
        Line::Cmd(Command::Character("carol".to_string(), String::new())),
        CmdOutcome::Resource(None),
    )
    .unwrap();
    assert_eq!(a.character, None);

    exact_text_step(
        &mut a,
        Line::Cmd(Command::Switch { text: "yes".to_string(), action: prog("y"), enabled: None }),
        CmdOutcome::Nothing,
    )
    .unwrap();
    exact_text_step(
        &mut a,
        Line::Cmd(Command::Switch { text: "no".to_string(), action: prog("z"), enabled: Some(prog("c")) }),
        CmdOutcome::Enabled(RawValue::Str(String::new())),
    )
    .unwrap();
    assert_eq!(a.switches.len(), 2);
    assert!(a.switches[0].enabled);
    assert!(!a.switches[1].enabled);
    assert_eq!(a.switches[1].text, "no");
    assert_eq!(a.switches[1].action, prog("z"));
}

#[test]
fn exact_text_plugin_commands() {
    let mut a = start();
    a.props.insert("k".to_string(), "old".to_string());
    let mut line = ActionLines::new();
    line.push_back_block("<b>");
    let mut props = StrMap::new();
    props.insert("k".to_string(), "new".to_string());
    props.insert("video".to_string(), "1".to_string());
    exact_text_step(
        &mut a,
        Line::Cmd(Command::Other("video".to_string(), vec![])),
        CmdOutcome::Plugin(Some(TextResult { line, props })),
    )
    .unwrap();
    assert_eq!(*a.line.get(0), ActionLine::block("<b>"));
    assert_eq!(a.props.get("k"), Some(&"new".to_string()));
    assert_eq!(a.props.get("video"), Some(&"1".to_string()));

    let err = exact_text_step(
        &mut a,
        Line::Cmd(Command::Other("nope".to_string(), vec![])),
        CmdOutcome::Plugin(None),
    )
    .unwrap_err();
    assert_eq!(err, "Invalid command nope");
    assert_eq!(a.line.len(), 1);
    assert_eq!(a.props.len(), 2);
}

#[test]
fn record_action_keeps_history() {
    let mut record = ActionRecord::default();
    let mut a = start();
    a.line.push_back_chars("text");
    assert!(record_action(&mut record, &mut a));
    assert_eq!(record.history.len(), 1);
    assert_eq!(record.history[0].cur_para, "p");
    assert_eq!(record.history[0].cur_act, 2);
    let mut blank = exact_text_start(ctx("q", 0), None);
    blank.line.push_back_chars("  ");
    assert!(!record_action(&mut record, &mut blank));
    assert_eq!(record.history.len(), 1);
}

#[test]
fn global_record_takes_last_context() {
    let mut g = GlobalRecord::default();
    let mut record = ActionRecord::default();
    g.update_last(&record);
    assert!(g.record.is_empty());
    record.history.push(ctx("a", 3));
    g.update_last(&record);
    assert_eq!(g.record.get("a"), Some(&3));
    record.history.push(ctx("a", 1));
    g.update_last(&record);
    assert_eq!(g.record.get("a"), Some(&3));
    record.history.push(ctx("b", 0));
    g.update_last(&record);
    assert_eq!(g.record.get("a"), Some(&3));
    assert_eq!(g.record.get("b"), Some(&0));
}

#[test]
fn str_map_insert_all_replaces() {
    let mut m = StrMap::new();
    m.insert("a".to_string(), 1);
    m.insert("b".to_string(), 2);
    let mut o = StrMap::new();
    o.insert("b".to_string(), 20);
    o.insert("c".to_string(), 30);
    m.insert_all(o);
    assert_eq!(m.len(), 3);
    assert_eq!(m.get("a"), Some(&1));
    assert_eq!(m.get("b"), Some(&20));
    assert_eq!(m.get("c"), Some(&30));
}
