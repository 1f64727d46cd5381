use poster::context::{Context, LogEntry, RequestSnapshot, ResponseSnapshot, ScopeEffects};

fn request() -> RequestSnapshot {
    RequestSnapshot {
        method: "GET".to_string(),
        url: "https://api.example.com/v1".to_string(),
        headers: vec![("accept".to_string(), "*/*".to_string())],
        body: String::new(),
    }
}

fn entry(timestamp: u64, message: &str) -> LogEntry {
    LogEntry { timestamp, message: message.to_string() }
}

fn pair(key: &str, value: &str) -> (String, String) {
    (key.to_string(), value.to_string())
}

fn messages(context: &Context) -> Vec<String> {
    context.logs().iter().map(|entry| entry.message.clone()).collect()
}

#[test]
fn new_context_is_empty() {
    let context = Context::new(request(), None);
    assert_eq!(context.variable(&"x".to_string()), None);
    assert!(context.logs().is_empty());
    assert_eq!(context.request_snapshot().url, "https://api.example.com/v1");
    assert!(context.response_snapshot().is_none());
}

#[test]
fn snapshots_are_kept() {
    let response = ResponseSnapshot { status: 404, headers: Vec::new(), body: "no".to_string() };
    let mut context = Context::new(request(), Some(response));
    context.set_variable("x".to_string(), "1".to_string());
    context.log(entry(1, "one"));
    context.apply(ScopeEffects { assignments: vec![pair("y", "2")], logs: vec![entry(2, "two")] });
    assert_eq!(context.request_snapshot().method, "GET");
    assert_eq!(context.request_snapshot().headers, vec![pair("accept", "*/*")]);
    let kept = context.response_snapshot().as_ref().unwrap();
    assert_eq!(kept.status, 404);
    assert_eq!(kept.body, "no");
}

#[test]
fn variables_are_set_and_overwritten() {
    let mut context = Context::new(request(), None);
    context.set_variable("x".to_string(), "1".to_string());
    context.set_variable("y".to_string(), "2".to_string());
    assert_eq!(context.variable(&"x".to_string()), Some(&"1".to_string()));
    assert_eq!(context.variable(&"y".to_string()), Some(&"2".to_string()));
    context.set_variable("x".to_string(), "3".to_string());
    assert_eq!(context.variable(&"x".to_string()), Some(&"3".to_string()));
    assert_eq!(context.variable(&"y".to_string()), Some(&"2".to_string()));
    assert_eq!(context.variable(&"X".to_string()), None);
}

#[test]
fn log_keeps_its_order() {
    let mut context = Context::new(request(), None);
    context.log(entry(1, "a"));
    context.log(entry(1, "b"));
    context.log(entry(0, "c"));
    assert_eq!(messages(&context), vec!["a", "b", "c"]);
}

#[test]
fn effects_are_applied_in_order() {
    let mut context = Context::new(request(), None);
    context.set_variable("x".to_string(), "0".to_string());
    context.log(entry(1, "before"));
    context.apply(ScopeEffects {
        assignments: vec![pair("x", "1"), pair("y", "1"), pair("x", "2")],
        logs: vec![entry(2, "first"), entry(3, "second")],
    });
    assert_eq!(context.variable(&"x".to_string()), Some(&"2".to_string()));
    assert_eq!(context.variable(&"y".to_string()), Some(&"1".to_string()));
    assert_eq!(messages(&context), vec!["before", "first", "second"]);
    context.apply(ScopeEffects { assignments: Vec::new(), logs: Vec::new() });
    assert_eq!(context.variable(&"x".to_string()), Some(&"2".to_string()));
    assert_eq!(messages(&context), vec!["before", "first", "second"]);
}

#[test]
fn entry_shows_time_and_message() {
    assert_eq!(entry(1700000000, "x=1").show(), "1700000000 x=1");
    assert_eq!(entry(0, "").show(), "0 ");
    assert_eq!(entry(u64::MAX, "é").show(), "18446744073709551615 é");
}
