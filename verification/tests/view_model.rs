use ayaka::context::{OpenStatus, RawContext};
use ayaka::exec::Program;
use ayaka::line::Line;
use ayaka::parser::{SubText, Text};
use ayaka::settings::{ActionRecord, GlobalRecord, Settings};
use ayaka::view_model::{GameViewModel, OpenGameStatus};

fn ctx(para: &str, act: usize) -> RawContext {
    let mut c = RawContext::default();
    c.cur_para = para.to_string();
    c.cur_act = act;
    c
}

fn text_line() -> Line {
    Line::Text(Text(vec![SubText::Str("hello".to_string())]))
}

#[test]
fn open_status_maps() {
    match OpenGameStatus::from(OpenStatus::LoadPlugin("p".to_string(), 1, 3)) {
        OpenGameStatus::LoadPlugin(name, i, len) => {
            assert_eq!(name, "p");
            assert_eq!((i, len), (1, 3));
        }
        _ => panic!("wrong status"),
    }
    assert!(matches!(
        OpenGameStatus::from(OpenStatus::LoadParagraph),
        OpenGameStatus::LoadParagraph
    ));
}

#[test]
fn view_model_runs_and_steps_back() {
    let mut m = GameViewModel::new();
    assert!(m.current_run().is_none());
    let start = m.init_context(ActionRecord::default(), "intro");
    assert_eq!(start.cur_para, "intro");
    assert_eq!(start.cur_act, 0);
    let exec = Line::Exec { program: Program::default() };
    assert!(m.next_run(Some(ctx("intro", 0)), Some(&text_line())));
    assert!(m.next_run(Some(ctx("intro", 1)), Some(&exec)));
    assert!(m.next_run(Some(ctx("intro", 2)), Some(&text_line())));
    assert!(m.next_run(Some(ctx("intro", 3)), Some(&Line::Empty)));
    assert!(m.next_run(Some(ctx("intro", 4)), None));
    assert!(m.next_run(Some(ctx("intro", 2)), Some(&text_line())));
    assert_eq!(m.record().history.len(), 3);
    let back = m.next_back_run().unwrap();
    assert_eq!(back.cur_act, 2);
    assert_eq!(m.record().history.len(), 2);
    assert_eq!(m.current_run().unwrap().cur_act, 2);
    let back = m.next_back_run().unwrap();
    assert_eq!(back.cur_act, 2);
    assert_eq!(m.current_run().unwrap().cur_act, 0);
    assert!(m.next_back_run().is_none());
    assert_eq!(m.record().history.len(), 1);
    assert!(!m.next_run(None, Some(&text_line())));
    assert!(m.current_run().is_none());
}

#[test]
fn view_model_saves_and_resumes() {
    let mut m = GameViewModel::new();
    m.set_opened(Settings::default(), GlobalRecord::default(), vec![]);
    assert_eq!(m.settings().lang.to_string(), "en");
    m.next_run(Some(ctx("a", 0)), Some(&text_line()));
    m.save_current_to(5);
    assert_eq!(m.records().len(), 1);
    m.next_run(Some(ctx("a", 1)), Some(&text_line()));
    m.save_current_to(0);
    assert_eq!(m.records().len(), 1);
    assert_eq!(m.records()[0].history.len(), 2);
    let record = m.records()[0].clone();
    let resume = m.init_context(record, "intro");
    assert_eq!(resume.cur_para, "a");
    assert_eq!(resume.cur_act, 2);
}

#[test]
fn view_model_visited() {
    let mut m = GameViewModel::new();
    let mut g = GlobalRecord::default();
    g.update(&ctx("a", 3));
    m.set_opened(Settings::default(), g, vec![]);
    assert!(!m.current_visited());
    m.next_run(Some(ctx("a", 2)), Some(&text_line()));
    assert!(m.current_visited());
    m.next_run(Some(ctx("a", 4)), Some(&text_line()));
    assert!(!m.current_visited());
}
