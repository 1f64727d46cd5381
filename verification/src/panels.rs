//! What the panels of the editor decide; drawing them is left to the caller.

use crate::context::{log_view, shown, Context, ContextView, LogEntry, LogEntryView, ScriptScope};
use crate::runtime::{
    delivered, outcome_view, scopes_view, HandleView, RunError, RunHandle, ScopeView,
};
use crate::text::texts;
use vstd::prelude::*;

verus! {

/// One query parameter of a request.
#[derive(Clone, Debug)]
pub struct QueryParam {
    pub key: String,
    pub value: String,
    pub desc: String,
    pub enable: bool,
}

/// A `QueryParam` as mathematical data.
pub struct ParamView {
    pub key: Seq<char>,
    pub value: Seq<char>,
    pub desc: Seq<char>,
    pub enable: bool,
}

impl View for QueryParam {
    type V = ParamView;

    open spec fn view(&self) -> ParamView {
        ParamView { key: self.key@, value: self.value@, desc: self.desc@, enable: self.enable }
    }
}

/// The parameters of a request as mathematical data.
pub open spec fn params_view(params: Seq<QueryParam>) -> Seq<ParamView> {
    Seq::new(params.len(), |i: int| params[i]@)
}

/// The row that nothing was typed into: three empty texts, switched off.
pub open spec fn blank_param() -> ParamView {
    ParamView { key: Seq::empty(), value: Seq::empty(), desc: Seq::empty(), enable: false }
}

/// Something was typed into the row.
pub open spec fn filled(param: ParamView) -> bool {
    param.key.len() > 0 || param.value.len() > 0 || param.desc.len() > 0
}

/// The parameters without the one at `delete_index`, if one is to go.
pub open spec fn without(params: Seq<ParamView>, delete_index: Option<usize>) -> Seq<ParamView> {
    match delete_index {
        Some(index) => params.remove(index as int),
        None => params,
    }
}

/// The parameters with the row `typed` at their end, switched on, if something was typed
/// into it.
pub open spec fn with_row(params: Seq<ParamView>, typed: ParamView) -> Seq<ParamView> {
    if filled(typed) {
        params.push(ParamView { enable: true, ..typed })
    } else {
        params
    }
}

impl QueryParam {
    /// The row that nothing was typed into.
    pub fn blank() -> (param: QueryParam)
        ensures
            param@ == blank_param(),
    {
        QueryParam { key: String::new(), value: String::new(), desc: String::new(), enable: false }
    }
}

/// The table of the query parameters of a request, with one more row to type a new
/// parameter into.
#[derive(Clone, Debug)]
pub struct RequestParamsPanel {
    pub new_param: QueryParam,
}

impl Default for RequestParamsPanel {
    fn default() -> (panel: RequestParamsPanel)
        ensures
            panel.new_param@ == blank_param(),
    {
        RequestParamsPanel { new_param: QueryParam::blank() }
    }
}

impl RequestParamsPanel {
    /// Ends a frame of the table: the parameter whose delete button was pressed goes, and the
    /// new row, once something was typed into it, becomes the last parameter, switched on,
    /// and is blank again.
    pub fn set_and_render(&mut self, params: &mut Vec<QueryParam>, delete_index: Option<usize>)
        requires
            delete_index matches Some(index) ==> index < old(params)@.len(),
        ensures
            params_view(final(params)@) == with_row(
                without(params_view(old(params)@), delete_index),
                old(self).new_param@,
            ),
            final(self).new_param@ == if filled(old(self).new_param@) {
                blank_param()
            } else {
                old(self).new_param@
            },
    {
        let ghost before = params_view(params@);
        match delete_index {
            Some(index) => {
                params.remove(index);
                assert(params_view(params@) =~= before.remove(index as int));
            },
            None => {},
        }
        let ghost kept = params_view(params@);
        if self.new_param.key.as_str().unicode_len() > 0 || self.new_param.value.as_str().unicode_len()
            > 0 || self.new_param.desc.as_str().unicode_len() > 0 {
            let mut typed = QueryParam::blank();
            std::mem::swap(&mut self.new_param, &mut typed);
            typed.enable = true;
            let ghost row = typed@;
            params.push(typed);
            assert(params_view(params@) =~= kept.push(row));
        }
    }
}

/// The lines that show a log: each entry as `LogEntry::show` has it, behind a mark.
pub open spec fn log_lines(logs: Seq<LogEntryView>) -> Seq<Seq<char>> {
    Seq::new(logs.len(), |i: int| seq!['>', ' '] + shown(logs[i]))
}

/// The lines that show `logs`.
pub fn render_lines(logs: &Vec<LogEntry>) -> (lines: Vec<String>)
    ensures
        texts(lines@) == log_lines(log_view(logs@)),
{
    let mut lines: Vec<String> = Vec::new();
    let mut i: usize = 0;
    while i < logs.len()
        invariant
            i <= logs.len(),
            lines.len() == i,
            forall|k: int|
                0 <= k < i ==> (#[trigger] lines@[k])@ == seq!['>', ' '] + shown(logs@[k]@),
        decreases logs.len() - i,
    {
        let mut line = String::new();
        line.append("> ");
        line.append(logs[i].show().as_str());
        proof {
            reveal_strlit("> ");
            assert("> "@ =~= seq!['>', ' ']);
        }
        lines.push(line);
        i += 1;
    }
    assert(texts(lines@) =~= log_lines(log_view(logs@)));
    lines
}

/// The log of the response of a request.
#[derive(Clone, Copy, Debug, Default)]
pub struct ResponseLogPanel {}

impl ResponseLogPanel {
    /// The lines of the panel for the log `logs`, the oldest first.
    pub fn set_and_render(&self, logs: &Vec<LogEntry>) -> (lines: Vec<String>)
        ensures
            texts(lines@) == log_lines(log_view(logs@)),
    {
        render_lines(logs)
    }
}

/// What the window for trying out scripts shows below its button.
#[derive(Clone, Debug)]
pub enum WindowBody {
    /// Nothing: no run was started.
    Empty,
    /// Nothing yet: the run is not over. The window is to be drawn again soon.
    Waiting,
    /// The log of the run that went through, one line for each entry.
    Log(Vec<String>),
    /// The message of the run that failed.
    Error(String),
}

/// A `WindowBody` as mathematical data.
pub enum BodyView {
    Empty,
    Waiting,
    Log(Seq<Seq<char>>),
    Error(Seq<char>),
}

impl View for WindowBody {
    type V = BodyView;

    open spec fn view(&self) -> BodyView {
        match self {
            WindowBody::Empty => BodyView::Empty,
            WindowBody::Waiting => BodyView::Waiting,
            WindowBody::Log(lines) => BodyView::Log(texts(lines@)),
            WindowBody::Error(message) => BodyView::Error(message@),
        }
    }
}

/// What the window for trying out scripts shows in one frame.
#[derive(Clone, Debug)]
pub struct WindowFrame {
    /// The window is open, and the rest of the editor is locked.
    pub lock_ui: bool,
    /// The button that starts a run can be pressed.
    pub run_enabled: bool,
    pub body: WindowBody,
}

/// A `WindowFrame` as mathematical data.
pub struct FrameView {
    pub lock_ui: bool,
    pub run_enabled: bool,
    pub body: BodyView,
}

impl View for WindowFrame {
    type V = FrameView;

    open spec fn view(&self) -> FrameView {
        FrameView { lock_ui: self.lock_ui, run_enabled: self.run_enabled, body: self.body@ }
    }
}

/// The window in which the scripts of a request are tried out.
pub struct TestScriptWindows {
    test_windows_open: bool,
    script_scopes: Vec<ScriptScope>,
    context: Option<Context>,
    run_result: Option<RunHandle>,
}

/// A `TestScriptWindows` as mathematical data.
pub struct WindowsView {
    pub open: bool,
    pub scopes: Seq<ScopeView>,
    pub context: Option<ContextView>,
    pub run: Option<HandleView>,
}

impl View for TestScriptWindows {
    type V = WindowsView;

    closed spec fn view(&self) -> WindowsView {
        WindowsView {
            open: self.test_windows_open,
            scopes: scopes_view(self.script_scopes@),
            context: match self.context {
                Some(context) => Some(context@),
                None => None,
            },
            run: match self.run_result {
                Some(handle) => Some(handle@),
                None => None,
            },
        }
    }
}

/// What a frame shows below the button, for the run that the window holds.
pub open spec fn body_of(run: Option<HandleView>) -> BodyView {
    match run {
        None => BodyView::Empty,
        Some(HandleView::Resolved(Ok(context))) => BodyView::Log(log_lines(context.logs)),
        Some(HandleView::Resolved(Err(error))) => BodyView::Error(error.message),
        Some(_) => BodyView::Waiting,
    }
}

/// What the window shows in a frame.
pub open spec fn frame_of(window: WindowsView) -> FrameView {
    FrameView { lock_ui: window.open, run_enabled: window.run is None, body: body_of(window.run) }
}

/// A frame starts a run: the button was pressed, no run was started before, and there is a
/// context to run on.
pub open spec fn starts_run(window: WindowsView, run_clicked: bool) -> bool {
    run_clicked && window.run is None && window.context is Some
}

impl Default for TestScriptWindows {
    fn default() -> (window: TestScriptWindows)
        ensures
            window@ == (WindowsView {
                open: false,
                scopes: Seq::empty(),
                context: None,
                run: None,
            }),
    {
        let window = TestScriptWindows {
            test_windows_open: false,
            script_scopes: Vec::new(),
            context: None,
            run_result: None,
        };
        assert(window@.scopes =~= Seq::empty());
        window
    }
}

impl TestScriptWindows {
    /// Opens the window for `script_scopes` on `context`. A run that the window held is
    /// abandoned.
    pub fn open(&mut self, script_scopes: Vec<ScriptScope>, context: Context)
        ensures
            final(self)@ == (WindowsView {
                open: true,
                scopes: scopes_view(script_scopes@),
                context: Some(context@),
                run: None,
            }),
    {
        self.test_windows_open = true;
        self.script_scopes = script_scopes;
        self.context = Some(context);
        self.run_result = None;
    }

    /// What the window shows now: whether it is open, whether a run can be started, and the
    /// run that it holds as it stands. Asking changes nothing.
    pub fn frame(&self) -> (frame: WindowFrame)
        ensures
            frame@ == frame_of(self@),
    {
        let body = match &self.run_result {
            None => WindowBody::Empty,
            Some(handle) => match handle.poll() {
                None => WindowBody::Waiting,
                Some(Ok(context)) => WindowBody::Log(Self::render_logs(context)),
                Some(Err(error)) => WindowBody::Error(error.message.clone()),
            },
        };
        WindowFrame {
            lock_ui: self.test_windows_open,
            run_enabled: self.run_result.is_none(),
            body,
        }
    }

    /// Takes in what happened in a frame: `run_clicked` says that the button was pressed,
    /// `window_open` that the window is still open. Says whether a run of the scopes on the
    /// context is to be started now; such a run is pending from then on.
    pub fn set_and_render(&mut self, run_clicked: bool, window_open: bool) -> (start_run: bool)
        ensures
            start_run == starts_run(old(self)@, run_clicked),
            final(self)@ == (WindowsView {
                open: window_open,
                run: if starts_run(old(self)@, run_clicked) {
                    Some(HandleView::Pending)
                } else {
                    old(self)@.run
                },
                ..old(self)@
            }),
    {
        let start_run = run_clicked && self.run_result.is_none() && self.context.is_some();
        if start_run {
            self.run_result = Some(RunHandle::new());
        }
        self.test_windows_open = window_open;
        start_run
    }

    /// The lines that show the log of `new_context`.
    pub fn render_logs(new_context: &Context) -> (lines: Vec<String>)
        ensures
            texts(lines@) == log_lines(new_context@.logs),
    {
        render_lines(new_context.logs())
    }

    /// Takes in the outcome of the run that the window started. Only the first outcome of a
    /// run counts; without a run the outcome is dropped.
    pub fn deliver(&mut self, outcome: Result<Context, RunError>)
        ensures
            final(self)@ == (WindowsView {
                run: match old(self)@.run {
                    Some(handle) => Some(delivered(handle, outcome_view(outcome))),
                    None => None,
                },
                ..old(self)@
            }),
    {
        match &mut self.run_result {
            Some(handle) => {
                handle.resolve(outcome);
            },
            None => {},
        }
    }

    /// The scopes that a run of this window executes.
    pub fn script_scopes(&self) -> (scopes: &Vec<ScriptScope>)
        ensures
            scopes_view(scopes@) == self@.scopes,
    {
        &self.script_scopes
    }

    /// The context that a run of this window starts on.
    pub fn context(&self) -> (context: &Option<Context>)
        ensures
            match *context {
                Some(seed) => self@.context == Some(seed@),
                None => self@.context is None,
            },
    {
        &self.context
    }
}

} // verus!
