use poster::context::{Context, LogEntry, RequestSnapshot, ScriptScope};
use poster::panels::{
    render_lines, QueryParam, RequestParamsPanel, ResponseLogPanel, TestScriptWindows, WindowBody,
};
use poster::runtime::RunError;

fn param(key: &str, value: &str, desc: &str, enable: bool) -> QueryParam {
    QueryParam { key: key.to_string(), value: value.to_string(), desc: desc.to_string(), enable }
}

fn keys(params: &[QueryParam]) -> Vec<String> {
    params.iter().map(|p| p.key.clone()).collect()
}

fn seed(lines: &[&str]) -> Context {
    let mut context = Context::new(
        RequestSnapshot {
            method: "GET".to_string(),
            url: String::new(),
            headers: Vec::new(),
            body: String::new(),
        },
        None,
    );
    for line in lines {
        context.log(LogEntry { timestamp: 5, message: line.to_string() });
    }
    context
}

fn scopes() -> Vec<ScriptScope> {
    vec![ScriptScope { name: "pre".to_string(), source: "x".to_string() }]
}

#[test]
fn default_panel_has_a_blank_row() {
    let panel = RequestParamsPanel::default();
    assert_eq!(panel.new_param.key, "");
    assert_eq!(panel.new_param.value, "");
    assert_eq!(panel.new_param.desc, "");
    assert!(!panel.new_param.enable);
}

#[test]
fn nothing_typed_nothing_added() {
    let mut panel = RequestParamsPanel::default();
    let mut params = vec![param("a", "1", "", true)];
    panel.set_and_render(&mut params, None);
    assert_eq!(keys(&params), vec!["a"]);
}

#[test]
fn typed_row_is_added_switched_on() {
    for (key, value, desc) in [("k", "", ""), ("", "v", ""), ("", "", "d"), ("k", "v", "d")] {
        let mut panel = RequestParamsPanel::default();
        panel.new_param = param(key, value, desc, false);
        let mut params = vec![param("a", "1", "", false)];
        panel.set_and_render(&mut params, None);
        assert_eq!(params.len(), 2);
        assert_eq!(params[1].key, key);
        assert_eq!(params[1].value, value);
        assert_eq!(params[1].desc, desc);
        assert!(params[1].enable);
        assert!(!params[0].enable);
        assert_eq!(panel.new_param.key, "");
        assert_eq!(panel.new_param.value, "");
        assert_eq!(panel.new_param.desc, "");
        assert!(!panel.new_param.enable);
    }
}

#[test]
fn pressed_row_is_deleted() {
    let mut panel = RequestParamsPanel::default();
    let mut params = vec![param("a", "", "", true), param("b", "", "", true), param("c", "", "", true)];
    panel.set_and_render(&mut params, Some(1));
    assert_eq!(keys(&params), vec!["a", "c"]);
    panel.new_param.key = "d".to_string();
    panel.set_and_render(&mut params, Some(0));
    assert_eq!(keys(&params), vec!["c", "d"]);
    panel.set_and_render(&mut params, Some(1));
    assert_eq!(keys(&params), vec!["c"]);
}

#[test]
fn log_lines_are_marked() {
    let logs = vec![
        LogEntry { timestamp: 1, message: "one".to_string() },
        LogEntry { timestamp: 22, message: "two".to_string() },
    ];
    assert_eq!(ResponseLogPanel::default().set_and_render(&logs), vec!["> 1 one", "> 22 two"]);
    assert_eq!(render_lines(&logs), vec!["> 1 one", "> 22 two"]);
    assert!(ResponseLogPanel {}.set_and_render(&Vec::new()).is_empty());
    assert_eq!(TestScriptWindows::render_logs(&seed(&["x=1"])), vec!["> 5 x=1"]);
}

#[test]
fn closed_window_does_nothing() {
    let mut window = TestScriptWindows::default();
    let frame = window.frame();
    assert!(!frame.lock_ui);
    assert!(frame.run_enabled);
    assert!(matches!(frame.body, WindowBody::Empty));
    assert!(!window.set_and_render(true, false));
    assert!(window.frame().run_enabled);
    assert!(window.context().is_none());
    assert!(window.script_scopes().is_empty());
}

#[test]
fn window_runs_and_shows_the_log() {
    let mut window = TestScriptWindows::default();
    window.open(scopes(), seed(&[]));
    assert_eq!(window.script_scopes().len(), 1);
    assert!(window.context().is_some());

    let frame = window.frame();
    assert!(frame.lock_ui && frame.run_enabled);
    assert!(matches!(frame.body, WindowBody::Empty));
    assert!(!window.set_and_render(false, true));
    assert!(window.frame().run_enabled);

    assert!(window.set_and_render(true, true));
    let frame = window.frame();
    assert!(frame.lock_ui && !frame.run_enabled);
    assert!(matches!(frame.body, WindowBody::Waiting));
    assert!(!window.set_and_render(true, true));
    assert!(matches!(window.frame().body, WindowBody::Waiting));

    window.deliver(Ok(seed(&["x=1", "done"])));
    window.deliver(Ok(seed(&["late"])));
    for _ in 0..2 {
        let frame = window.frame();
        assert!(!frame.run_enabled);
        match frame.body {
            WindowBody::Log(lines) => assert_eq!(lines, vec!["> 5 x=1", "> 5 done"]),
            _ => panic!("the log is to be shown"),
        }
        assert!(!window.set_and_render(true, true));
    }
}

#[test]
fn window_shows_the_error() {
    let mut window = TestScriptWindows::default();
    window.open(scopes(), seed(&[]));
    assert!(window.set_and_render(true, true));
    window.deliver(Err(RunError {
        message: "boom".to_string(),
        scope: Some("pre".to_string()),
        context: seed(&["before"]),
    }));
    match window.frame().body {
        WindowBody::Error(message) => assert_eq!(message, "boom"),
        _ => panic!("the error is to be shown"),
    }
}

#[test]
fn window_closes_and_keeps_its_run() {
    let mut window = TestScriptWindows::default();
    window.open(scopes(), seed(&[]));
    assert!(window.set_and_render(true, false));
    let frame = window.frame();
    assert!(!frame.lock_ui && !frame.run_enabled);
    window.deliver(Ok(seed(&["kept"])));
    assert!(matches!(window.frame().body, WindowBody::Log(_)));
}

#[test]
fn opening_again_abandons_the_run() {
    let mut window = TestScriptWindows::default();
    window.open(scopes(), seed(&[]));
    assert!(window.set_and_render(true, true));
    window.open(scopes(), seed(&[]));
    window.deliver(Ok(seed(&["late"])));
    let frame = window.frame();
    assert!(frame.lock_ui && frame.run_enabled);
    assert!(matches!(frame.body, WindowBody::Empty));
}

#[test]
fn outcome_without_run_is_dropped() {
    let mut window = TestScriptWindows::default();
    window.open(scopes(), seed(&[]));
    window.deliver(Ok(seed(&["early"])));
    let frame = window.frame();
    assert!(frame.run_enabled);
    assert!(matches!(frame.body, WindowBody::Empty));
}
