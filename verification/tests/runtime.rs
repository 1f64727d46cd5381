use poster::context::{Context, LogEntry, RequestSnapshot, ScopeEffects, ScriptScope};
use poster::runtime::{RunAction, RunError, RunEvent, RunHandle, ScriptRun};

fn seed() -> Context {
    Context::new(
        RequestSnapshot {
            method: "GET".to_string(),
            url: "https://api.example.com".to_string(),
            headers: Vec::new(),
            body: String::new(),
        },
        None,
    )
}

fn scope(name: &str, source: &str) -> ScriptScope {
    ScriptScope { name: name.to_string(), source: source.to_string() }
}

fn entry(message: &str) -> LogEntry {
    LogEntry { timestamp: 1, message: message.to_string() }
}

fn effects(assignments: &[(&str, &str)], logs: &[&str]) -> ScopeEffects {
    ScopeEffects {
        assignments: assignments.iter().map(|(k, v)| (k.to_string(), v.to_string())).collect(),
        logs: logs.iter().map(|message| entry(message)).collect(),
    }
}

fn messages(context: &Context) -> Vec<String> {
    context.logs().iter().map(|entry| entry.message.clone()).collect()
}

// A stand-in for an interpreter. A source `set k v` sets a variable, `log k` writes the
// value of a variable to the log, and `fail m` logs a line and raises an error.
fn interpret(source: &str, context: &Context) -> Result<ScopeEffects, (ScopeEffects, String)> {
    let words: Vec<&str> = source.split(' ').collect();
    match words[0] {
        "set" => Ok(effects(&[(words[1], words[2])], &[])),
        "log" => {
            let line = match context.variable(&words[1].to_string()) {
                Some(value) => format!("{}={}", words[1], value),
                None => format!("{}=undefined", words[1]),
            };
            Ok(effects(&[], &[&line]))
        }
        _ => Err((effects(&[], &["about to fail"]), words[1].to_string())),
    }
}

fn drive(scopes: Vec<ScriptScope>, seed: Context) -> (Result<Context, RunError>, Vec<RunAction>) {
    let mut actions = Vec::new();
    let (mut run, mut action) = ScriptRun::new(scopes, seed).step(RunEvent::Start);
    loop {
        actions.push(action);
        let event = match action {
            RunAction::CreateInterpreter => RunEvent::InterpreterReady,
            RunAction::Execute(index) => {
                let scope = run.current_scope().unwrap();
                assert_eq!(scope.name, format!("scope{}", index));
                match interpret(&scope.source, run.context().unwrap()) {
                    Ok(done) => RunEvent::ScopeCompleted(done),
                    Err((partial, message)) => RunEvent::ScopeFailed(partial, message),
                }
            }
            RunAction::Release | RunAction::Nothing => break,
        };
        let next = run.step(event);
        run = next.0;
        action = next.1;
    }
    (run.into_outcome().unwrap(), actions)
}

#[test]
fn later_scope_sees_earlier_variable() {
    let scopes = vec![scope("scope0", "set x 1"), scope("scope1", "log x")];
    let (outcome, actions) = drive(scopes, seed());
    let context = outcome.unwrap();
    assert_eq!(messages(&context), vec!["x=1"]);
    assert_eq!(context.variable(&"x".to_string()), Some(&"1".to_string()));
    assert_eq!(actions, vec![
        RunAction::CreateInterpreter,
        RunAction::Execute(0),
        RunAction::Execute(1),
        RunAction::Release
    ]);
}

#[test]
fn scopes_run_in_list_order() {
    let scopes = vec![scope("scope0", "log x"), scope("scope1", "set x 1"), scope("scope2", "log x")];
    let (outcome, _) = drive(scopes, seed());
    assert_eq!(messages(&outcome.unwrap()), vec!["x=undefined", "x=1"]);
}

#[test]
fn error_keeps_earlier_logs() {
    let scopes = vec![
        scope("scope0", "set x 1"),
        scope("scope1", "log x"),
        scope("scope2", "fail boom"),
        scope("scope3", "log x"),
    ];
    let (outcome, actions) = drive(scopes, seed());
    let error = outcome.unwrap_err();
    assert_eq!(error.message, "boom");
    assert_eq!(error.scope, Some("scope2".to_string()));
    assert_eq!(messages(&error.context), vec!["x=1", "about to fail"]);
    assert_eq!(error.context.variable(&"x".to_string()), Some(&"1".to_string()));
    assert_eq!(actions.last(), Some(&RunAction::Release));
    assert!(!actions.contains(&RunAction::Execute(3)));
}

#[test]
fn run_without_scopes_gives_back_the_seed() {
    let mut context = seed();
    context.set_variable("x".to_string(), "1".to_string());
    context.log(entry("kept"));
    let (outcome, actions) = drive(Vec::new(), context);
    let context = outcome.unwrap();
    assert_eq!(messages(&context), vec!["kept"]);
    assert_eq!(context.variable(&"x".to_string()), Some(&"1".to_string()));
    assert_eq!(actions, vec![RunAction::CreateInterpreter, RunAction::Release]);
}

#[test]
fn interpreter_failure_ends_the_run() {
    let (run, action) = ScriptRun::new(vec![scope("scope0", "set x 1")], seed()).step(RunEvent::Start);
    assert_eq!(action, RunAction::CreateInterpreter);
    assert!(run.poll().is_none());
    let (run, action) = run.step(RunEvent::InterpreterFailed("no engine".to_string()));
    assert_eq!(action, RunAction::Nothing);
    let error = run.into_outcome().unwrap().unwrap_err();
    assert_eq!(error.message, "no engine");
    assert_eq!(error.scope, None);
    assert!(error.context.logs().is_empty());
}

#[test]
fn run_is_idle_until_started() {
    let run = ScriptRun::new(vec![scope("scope0", "set x 1")], seed());
    assert!(run.poll().is_none());
    assert!(run.context().is_none());
    assert!(run.current_scope().is_none());
    let (run, action) = run.step(RunEvent::InterpreterReady);
    assert_eq!(action, RunAction::Nothing);
    let (run, action) = run.step(RunEvent::ScopeCompleted(effects(&[("x", "1")], &["no"])));
    assert_eq!(action, RunAction::Nothing);
    assert!(run.context().is_none());
    let (run, action) = run.step(RunEvent::Start);
    assert_eq!(action, RunAction::CreateInterpreter);
    assert!(run.context().unwrap().logs().is_empty());
    assert!(run.into_outcome().is_none());
}

#[test]
fn resolved_run_does_not_change() {
    let (run, _) = ScriptRun::new(Vec::new(), seed()).step(RunEvent::Start);
    let (mut run, _) = run.step(RunEvent::InterpreterReady);
    assert!(run.poll().unwrap().is_ok());
    for event in [
        RunEvent::Start,
        RunEvent::InterpreterReady,
        RunEvent::InterpreterFailed("late".to_string()),
        RunEvent::ScopeCompleted(effects(&[("x", "1")], &["late"])),
        RunEvent::ScopeFailed(effects(&[], &["late"]), "late".to_string()),
        RunEvent::Cancel,
    ] {
        let next = run.step(event);
        assert_eq!(next.1, RunAction::Nothing);
        run = next.0;
        let context = run.poll().unwrap().as_ref().unwrap();
        assert!(context.logs().is_empty());
        assert_eq!(context.variable(&"x".to_string()), None);
    }
}

#[test]
fn cancelled_run_never_resolves() {
    let (run, _) = ScriptRun::new(vec![scope("scope0", "set x 1")], seed()).step(RunEvent::Start);
    let (run, _) = run.step(RunEvent::InterpreterReady);
    let (mut run, action) = run.step(RunEvent::Cancel);
    assert_eq!(action, RunAction::Release);
    for event in [
        RunEvent::ScopeCompleted(effects(&[("x", "1")], &["late"])),
        RunEvent::ScopeFailed(effects(&[], &["late"]), "late".to_string()),
        RunEvent::Start,
        RunEvent::InterpreterReady,
        RunEvent::Cancel,
    ] {
        let next = run.step(event);
        assert_eq!(next.1, RunAction::Nothing);
        run = next.0;
        assert!(run.poll().is_none());
        assert!(run.context().is_none());
    }
    assert!(run.into_outcome().is_none());
}

#[test]
fn cancel_before_start_releases_nothing() {
    let (run, action) = ScriptRun::new(Vec::new(), seed()).step(RunEvent::Cancel);
    assert_eq!(action, RunAction::Nothing);
    let (run, action) = run.step(RunEvent::Start);
    assert_eq!(action, RunAction::Nothing);
    assert!(run.poll().is_none());
    let (run, _) = ScriptRun::new(Vec::new(), seed()).step(RunEvent::Start);
    let (_, action) = run.step(RunEvent::Cancel);
    assert_eq!(action, RunAction::Release);
}

#[test]
fn handle_resolves_once() {
    let mut handle = RunHandle::new();
    assert!(handle.poll().is_none());
    assert!(handle.poll().is_none());
    let mut first = seed();
    first.log(entry("first"));
    handle.resolve(Ok(first));
    let mut second = seed();
    second.log(entry("second"));
    handle.resolve(Ok(second));
    handle.resolve(Err(RunError { message: "late".to_string(), scope: None, context: seed() }));
    handle.cancel();
    for _ in 0..3 {
        assert_eq!(messages(handle.poll().unwrap().as_ref().unwrap()), vec!["first"]);
    }
}

#[test]
fn cancelled_handle_never_resolves() {
    let mut handle = RunHandle::new();
    handle.cancel();
    handle.resolve(Ok(seed()));
    assert!(handle.poll().is_none());
    handle.resolve(Err(RunError { message: "late".to_string(), scope: None, context: seed() }));
    assert!(handle.poll().is_none());
}

#[test]
fn submitted_run_is_running_with_a_pending_handle() {
    let (run, handle) = ScriptRun::submit(vec![scope("scope0", "set x 1")], seed());
    assert!(handle.poll().is_none());
    assert!(run.poll().is_none());
    assert!(run.context().unwrap().logs().is_empty());
    assert!(run.current_scope().is_none());
    let (run, action) = run.step(RunEvent::Start);
    assert_eq!(action, RunAction::Nothing);
    let (run, action) = run.step(RunEvent::InterpreterReady);
    assert_eq!(action, RunAction::Execute(0));
    assert_eq!(run.current_scope().unwrap().source, "set x 1");
}
