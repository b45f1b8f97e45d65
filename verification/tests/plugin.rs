use ayaka::plugin::{FrontendType, PluginRuntime, PluginType};

#[test]
fn plugin_type_builder() {
    let t = PluginType::builder().action().text(&["hello", "world"]).game().build();
    assert!(t.action);
    assert!(t.game);
    assert_eq!(t.text, vec!["hello".to_string(), "world".to_string()]);
    assert!(t.line.is_empty());
    let t = PluginType::builder().line(&["video"]).build();
    assert!(!t.action && !t.game);
    assert_eq!(t.line, vec!["video".to_string()]);
    let d = PluginType::default();
    assert!(!d.action && d.text.is_empty());
}

#[test]
fn runtime_finds_commands() {
    let mut rt: PluginRuntime<u32> = PluginRuntime::new();
    rt.insert_module(
        "fmt".to_string(),
        1,
        PluginType::builder().text(&["bold", "italic"]).build(),
    );
    rt.insert_module(
        "media".to_string(),
        2,
        PluginType::builder().action().line(&["video"]).text(&["italic"]).build(),
    );
    assert_eq!(rt.get_module("fmt"), Some(&1));
    assert_eq!(rt.get_module("none"), None);
    assert_eq!(rt.find_text_module("bold"), Some(&1));
    assert_eq!(rt.find_text_module("italic"), Some(&2));
    assert_eq!(rt.find_text_module("video"), None);
    assert_eq!(rt.find_line_module("video"), Some(&2));
    assert_eq!(rt.action_modules(), vec![&2]);
    assert!(rt.game_modules().is_empty());
}

#[test]
fn runtime_replaces_module_of_same_name() {
    let mut rt: PluginRuntime<u32> = PluginRuntime::new();
    rt.insert_module("a".to_string(), 1, PluginType::builder().game().text(&["x"]).build());
    rt.insert_module("a".to_string(), 5, PluginType::builder().game().build());
    assert_eq!(rt.get_module("a"), Some(&5));
    assert_eq!(rt.find_text_module("x"), Some(&5));
    assert_eq!(rt.game_modules(), vec![&5, &5]);
    let _ = FrontendType::Html;
}
