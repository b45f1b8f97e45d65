use ayaka::context::RawContext;
use ayaka::settings::{ActionRecord, GlobalRecord};

fn ctx(para: &str, act: usize) -> RawContext {
    let mut c = RawContext::default();
    c.cur_para = para.to_string();
    c.cur_act = act;
    c
}

#[test]
fn global_record_update_then_visited() {
    let mut r = GlobalRecord::default();
    assert!(!r.visited(&ctx("a", 0)));
    r.update(&ctx("a", 3));
    assert!(r.visited(&ctx("a", 0)));
    assert!(r.visited(&ctx("a", 3)));
    assert!(!r.visited(&ctx("a", 4)));
    assert!(!r.visited(&ctx("b", 0)));
    assert_eq!(r.record.get("a"), Some(&3));
}

#[test]
fn global_record_keeps_maximum() {
    let mut r = GlobalRecord::new();
    r.update(&ctx("a", 5));
    r.update(&ctx("a", 2));
    assert_eq!(r.record.get("a"), Some(&5));
    r.update(&ctx("a", 7));
    assert_eq!(r.record.get("a"), Some(&7));
    r.update(&ctx("b", 1));
    assert_eq!(r.record.len(), 2);
}

#[test]
fn action_record_last_ctx() {
    let mut rec = ActionRecord::default();
    assert!(rec.last_ctx().is_none());
    let start = rec.last_ctx_with_game("start");
    assert_eq!(start.cur_para, "start");
    assert_eq!(start.cur_base_para, "start");
    assert_eq!(start.cur_act, 0);
    rec.history.push(ctx("p", 2));
    rec.history.push(ctx("q", 4));
    assert_eq!(rec.last_ctx().unwrap().cur_para, "q");
    let last = rec.last_ctx_with_game("start");
    assert_eq!(last.cur_para, "q");
    assert_eq!(last.cur_act, 4);
}
