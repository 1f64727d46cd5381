//! The course of a script run: its scopes one after the other on one interpreter, and the one
//! outcome that the caller gets to see.

use crate::context::{applied, Context, ContextView, EffectsView, ScopeEffects, ScriptScope};
use vstd::prelude::*;

verus! {

/// A `ScriptScope` as mathematical data.
pub struct ScopeView {
    pub name: Seq<char>,
    pub source: Seq<char>,
}

impl View for ScriptScope {
    type V = ScopeView;

    open spec fn view(&self) -> ScopeView {
        ScopeView { name: self.name@, source: self.source@ }
    }
}

/// The scopes of a run as mathematical data.
pub open spec fn scopes_view(scopes: Seq<ScriptScope>) -> Seq<ScopeView> {
    Seq::new(scopes.len(), |i: int| scopes[i]@)
}

/// Why a run ended without going through all its scopes, and the context as the run left it:
/// the log holds what was written up to the failure.
#[derive(Clone, Debug)]
pub struct RunError {
    pub message: String,
    /// The name of the scope that failed; none where the interpreter could not be built.
    pub scope: Option<String>,
    pub context: Context,
}

/// A `RunError` as mathematical data.
pub struct RunErrorView {
    pub message: Seq<char>,
    pub scope: Option<Seq<char>>,
    pub context: ContextView,
}

impl View for RunError {
    type V = RunErrorView;

    open spec fn view(&self) -> RunErrorView {
        RunErrorView {
            message: self.message@,
            scope: match self.scope {
                Some(name) => Some(name@),
                None => None,
            },
            context: self.context@,
        }
    }
}

/// The outcome of a run as mathematical data.
pub open spec fn outcome_view(outcome: Result<Context, RunError>) -> Result<
    ContextView,
    RunErrorView,
> {
    match outcome {
        Ok(context) => Ok(context@),
        Err(error) => Err(error@),
    }
}

/// What happens to a run: the caller submits or abandons it, and the driver reports what
/// became of the work that the run asked for.
#[derive(Clone, Debug)]
pub enum RunEvent {
    /// The caller submits the run.
    Start,
    /// The interpreter stands, bound to the context of the run.
    InterpreterReady,
    /// The interpreter could not be built.
    InterpreterFailed(String),
    /// The scope that was asked for ran to its end.
    ScopeCompleted(ScopeEffects),
    /// The scope that was asked for raised an error, after the effects given.
    ScopeFailed(ScopeEffects, String),
    /// The caller abandons the run.
    Cancel,
}

/// A `RunEvent` as mathematical data.
pub enum EventView {
    Start,
    InterpreterReady,
    InterpreterFailed(Seq<char>),
    ScopeCompleted(EffectsView),
    ScopeFailed(EffectsView, Seq<char>),
    Cancel,
}

impl View for RunEvent {
    type V = EventView;

    open spec fn view(&self) -> EventView {
        match self {
            RunEvent::Start => EventView::Start,
            RunEvent::InterpreterReady => EventView::InterpreterReady,
            RunEvent::InterpreterFailed(message) => EventView::InterpreterFailed(message@),
            RunEvent::ScopeCompleted(effects) => EventView::ScopeCompleted(effects@),
            RunEvent::ScopeFailed(effects, message) => EventView::ScopeFailed(effects@, message@),
            RunEvent::Cancel => EventView::Cancel,
        }
    }
}

/// What the driver of a run is to do next.
#[derive(Clone, Copy, Debug, PartialEq, Eq, Structural)]
pub enum RunAction {
    /// Nothing: the run waits, or is over with no interpreter to give up.
    Nothing,
    /// Build a fresh interpreter, bound to the context of the run.
    CreateInterpreter,
    /// Execute the scope of this number on the interpreter of the run.
    Execute(usize),
    /// Give the interpreter up: the run is over.
    Release,
}

/// The states of a run as mathematical data.
pub enum RunView {
    /// Not submitted yet.
    Idle { scopes: Seq<ScopeView>, seed: ContextView },
    /// Running: the interpreter is being built.
    Starting { scopes: Seq<ScopeView>, context: ContextView },
    /// Running: the scope of number `index` is being executed.
    Executing { scopes: Seq<ScopeView>, context: ContextView, index: int },
    /// Over, with its outcome.
    Resolved { outcome: Result<ContextView, RunErrorView> },
    /// Abandoned by the caller before it was over.
    Cancelled,
}

impl RunView {
    /// The run is submitted and not over.
    pub open spec fn running(self) -> bool {
        self is Starting || self is Executing
    }

    /// The run is over or abandoned: nothing changes it any more.
    pub open spec fn settled(self) -> bool {
        self is Resolved || self is Cancelled
    }
}

/// The state that follows `run` on `event`, and what the driver is to do then.
pub open spec fn step_of(run: RunView, event: EventView) -> (RunView, RunAction) {
    match run {
        RunView::Idle { scopes, seed } => match event {
            EventView::Start => (
                RunView::Starting { scopes, context: seed },
                RunAction::CreateInterpreter,
            ),
            EventView::Cancel => (RunView::Cancelled, RunAction::Nothing),
            _ => (run, RunAction::Nothing),
        },
        RunView::Starting { scopes, context } => match event {
            EventView::InterpreterReady => if scopes.len() == 0 {
                (RunView::Resolved { outcome: Ok(context) }, RunAction::Release)
            } else {
                (RunView::Executing { scopes, context, index: 0 }, RunAction::Execute(0))
            },
            EventView::InterpreterFailed(message) => (
                RunView::Resolved { outcome: Err(RunErrorView { message, scope: None, context }) },
                RunAction::Nothing,
            ),
            EventView::Cancel => (RunView::Cancelled, RunAction::Release),
            _ => (run, RunAction::Nothing),
        },
        RunView::Executing { scopes, context, index } => match event {
            EventView::ScopeCompleted(effects) => if index + 1 < scopes.len() {
                (
                    RunView::Executing {
                        scopes,
                        context: applied(context, effects),
                        index: index + 1,
                    },
                    RunAction::Execute((index + 1) as usize),
                )
            } else {
                (
                    RunView::Resolved { outcome: Ok(applied(context, effects)) },
                    RunAction::Release,
                )
            },
            EventView::ScopeFailed(effects, message) => (
                RunView::Resolved {
                    outcome: Err(
                        RunErrorView {
                            message,
                            scope: Some(scopes[index].name),
                            context: applied(context, effects),
                        },
                    ),
                },
                RunAction::Release,
            ),
            EventView::Cancel => (RunView::Cancelled, RunAction::Release),
            _ => (run, RunAction::Nothing),
        },
        RunView::Resolved { .. } => (run, RunAction::Nothing),
        RunView::Cancelled => (run, RunAction::Nothing),
    }
}

enum RunState {
    Idle { scopes: Vec<ScriptScope>, seed: Context },
    Starting { scopes: Vec<ScriptScope>, context: Context },
    Executing { scopes: Vec<ScriptScope>, context: Context, index: usize },
    Resolved { outcome: Result<Context, RunError> },
    Cancelled,
}

/// One run: an ordered list of scopes against one context on one interpreter. The run owns
/// its context from the submission to the outcome.
pub struct ScriptRun {
    state: RunState,
}

impl View for ScriptRun {
    type V = RunView;

    closed spec fn view(&self) -> RunView {
        match self.state {
            RunState::Idle { scopes, seed } => RunView::Idle {
                scopes: scopes_view(scopes@),
                seed: seed@,
            },
            RunState::Starting { scopes, context } => RunView::Starting {
                scopes: scopes_view(scopes@),
                context: context@,
            },
            RunState::Executing { scopes, context, index } => RunView::Executing {
                scopes: scopes_view(scopes@),
                context: context@,
                index: index as int,
            },
            RunState::Resolved { outcome } => RunView::Resolved { outcome: outcome_view(outcome) },
            RunState::Cancelled => RunView::Cancelled,
        }
    }
}

impl ScriptRun {
    #[verifier::type_invariant]
    spec fn in_range(self) -> bool {
        match self.state {
            RunState::Executing { scopes, context, index } => index < scopes@.len(),
            _ => true,
        }
    }

    /// A run of `scopes` on `seed`, not submitted yet.
    pub fn new(scopes: Vec<ScriptScope>, seed: Context) -> (run: ScriptRun)
        ensures
            run@ == (RunView::Idle { scopes: scopes_view(scopes@), seed: seed@ }),
    {
        ScriptRun { state: RunState::Idle { scopes, seed } }
    }

    /// Submits a run of `scopes` on `seed`: the run is running at once, its interpreter is to
    /// be built, and the caller holds a handle that is pending. Each run has a handle and an
    /// interpreter of its own.
    pub fn submit(scopes: Vec<ScriptScope>, seed: Context) -> (started: (ScriptRun, RunHandle))
        ensures
            started.0@ == (RunView::Starting { scopes: scopes_view(scopes@), context: seed@ }),
            started.1@ == HandleView::Pending,
    {
        (ScriptRun { state: RunState::Starting { scopes, context: seed } }, RunHandle::new())
    }

    /// Takes `event` in: the run goes over to the state that follows, and the driver learns
    /// what to do next.
    pub fn step(self, event: RunEvent) -> (next: (ScriptRun, RunAction))
        ensures
            (next.0@, next.1) == step_of(self@, event@),
    {
        proof {
            use_type_invariant(&self);
        }
        match self.state {
            RunState::Idle { scopes, seed } => match event {
                RunEvent::Start => (
                    ScriptRun { state: RunState::Starting { scopes, context: seed } },
                    RunAction::CreateInterpreter,
                ),
                RunEvent::Cancel => (ScriptRun { state: RunState::Cancelled }, RunAction::Nothing),
                _ => (ScriptRun { state: RunState::Idle { scopes, seed } }, RunAction::Nothing),
            },
            RunState::Starting { scopes, context } => match event {
                RunEvent::InterpreterReady => if scopes.len() == 0 {
                    (
                        ScriptRun { state: RunState::Resolved { outcome: Ok(context) } },
                        RunAction::Release,
                    )
                } else {
                    (
                        ScriptRun { state: RunState::Executing { scopes, context, index: 0 } },
                        RunAction::Execute(0),
                    )
                },
                RunEvent::InterpreterFailed(message) => (
                    ScriptRun {
                        state: RunState::Resolved {
                            outcome: Err(RunError { message, scope: None, context }),
                        },
                    },
                    RunAction::Nothing,
                ),
                RunEvent::Cancel => (ScriptRun { state: RunState::Cancelled }, RunAction::Release),
                _ => (
                    ScriptRun { state: RunState::Starting { scopes, context } },
                    RunAction::Nothing,
                ),
            },
            RunState::Executing { scopes, context, index } => match event {
                RunEvent::ScopeCompleted(effects) => {
                    assert(index < scopes.len());
                    let mut context = context;
                    context.apply(effects);
                    if index + 1 < scopes.len() {
                        (
                            ScriptRun {
                                state: RunState::Executing { scopes, context, index: index + 1 },
                            },
                            RunAction::Execute(index + 1),
                        )
                    } else {
                        (
                            ScriptRun { state: RunState::Resolved { outcome: Ok(context) } },
                            RunAction::Release,
                        )
                    }
                },
                RunEvent::ScopeFailed(effects, message) => {
                    let mut context = context;
                    context.apply(effects);
                    let name = scopes[index].name.clone();
                    (
                        ScriptRun {
                            state: RunState::Resolved {
                                outcome: Err(RunError { message, scope: Some(name), context }),
                            },
                        },
                        RunAction::Release,
                    )
                },
                RunEvent::Cancel => (ScriptRun { state: RunState::Cancelled }, RunAction::Release),
                _ => (
                    ScriptRun { state: RunState::Executing { scopes, context, index } },
                    RunAction::Nothing,
                ),
            },
            RunState::Resolved { outcome } => (
                ScriptRun { state: RunState::Resolved { outcome } },
                RunAction::Nothing,
            ),
            RunState::Cancelled => (ScriptRun { state: RunState::Cancelled }, RunAction::Nothing),
        }
    }

    /// The outcome, once the run is over. Asking changes nothing, and asking again gives the
    /// same.
    pub fn poll(&self) -> (ready: Option<&Result<Context, RunError>>)
        ensures
            match ready {
                Some(outcome) => self@ == (RunView::Resolved { outcome: outcome_view(*outcome) }),
                None => !(self@ is Resolved),
            },
    {
        match &self.state {
            RunState::Resolved { outcome } => Some(outcome),
            _ => None,
        }
    }

    /// The context as the scopes so far have left it, while the run is submitted and not
    /// over: what the next scope works on.
    pub fn context(&self) -> (current: Option<&Context>)
        ensures
            match current {
                Some(context) => match self@ {
                    RunView::Starting { scopes, context: held } => held == context@,
                    RunView::Executing { scopes, context: held, index } => held == context@,
                    _ => false,
                },
                None => !self@.running(),
            },
    {
        match &self.state {
            RunState::Starting { scopes, context } => Some(context),
            RunState::Executing { scopes, context, index } => Some(context),
            _ => None,
        }
    }

    /// The scope that is being executed.
    pub fn current_scope(&self) -> (current: Option<&ScriptScope>)
        ensures
            match current {
                Some(scope) => match self@ {
                    RunView::Executing { scopes, context, index } => 0 <= index < scopes.len()
                        && scopes[index] == scope@,
                    _ => false,
                },
                None => !(self@ is Executing),
            },
    {
        proof {
            use_type_invariant(self);
        }
        match &self.state {
            RunState::Executing { scopes, context, index } => Some(&scopes[*index]),
            _ => None,
        }
    }

    /// Hands the outcome over to the caller; a run that is not over has none.
    pub fn into_outcome(self) -> (outcome: Option<Result<Context, RunError>>)
        ensures
            match outcome {
                Some(result) => self@ == (RunView::Resolved { outcome: outcome_view(result) }),
                None => !(self@ is Resolved),
            },
    {
        match self.state {
            RunState::Resolved { outcome } => Some(outcome),
            _ => None,
        }
    }
}

enum HandleState {
    Pending,
    Resolved(Result<Context, RunError>),
    Cancelled,
}

/// What the caller holds of a run: it resolves once, and can be asked at any time.
pub struct RunHandle {
    state: HandleState,
}

/// A `RunHandle` as mathematical data.
pub enum HandleView {
    /// The run has not reported its outcome.
    Pending,
    /// The run is over, with this outcome.
    Resolved(Result<ContextView, RunErrorView>),
    /// The caller has abandoned the run.
    Cancelled,
}

impl View for RunHandle {
    type V = HandleView;

    closed spec fn view(&self) -> HandleView {
        match self.state {
            HandleState::Pending => HandleView::Pending,
            HandleState::Resolved(outcome) => HandleView::Resolved(outcome_view(outcome)),
            HandleState::Cancelled => HandleView::Cancelled,
        }
    }
}

/// The handle after the run has reported `outcome`: resolved with it if it was pending,
/// else as it was.
pub open spec fn delivered(handle: HandleView, outcome: Result<ContextView, RunErrorView>) -> HandleView {
    match handle {
        HandleView::Pending => HandleView::Resolved(outcome),
        _ => handle,
    }
}

/// The handle after the caller has abandoned the run: cancelled if it was pending, else as
/// it was.
pub open spec fn abandoned(handle: HandleView) -> HandleView {
    match handle {
        HandleView::Pending => HandleView::Cancelled,
        _ => handle,
    }
}

impl RunHandle {
    /// The handle of a run that has just been submitted.
    pub fn new() -> (handle: RunHandle)
        ensures
            handle@ == HandleView::Pending,
    {
        RunHandle { state: HandleState::Pending }
    }

    /// Takes the outcome of the run in. Only the first outcome counts, and none after the
    /// caller has abandoned the run.
    pub fn resolve(&mut self, outcome: Result<Context, RunError>)
        ensures
            final(self)@ == delivered(old(self)@, outcome_view(outcome)),
    {
        if let HandleState::Pending = self.state {
            self.state = HandleState::Resolved(outcome);
        }
    }

    /// Abandons the run: its outcome will not be seen.
    pub fn cancel(&mut self)
        ensures
            final(self)@ == abandoned(old(self)@),
    {
        if let HandleState::Pending = self.state {
            self.state = HandleState::Cancelled;
        }
    }

    /// The outcome, once the run has reported it. Asking changes nothing, and asking again
    /// gives the same.
    pub fn poll(&self) -> (ready: Option<&Result<Context, RunError>>)
        ensures
            match ready {
                Some(outcome) => self@ == HandleView::Resolved(outcome_view(*outcome)),
                None => !(self@ is Resolved),
            },
    {
        match &self.state {
            HandleState::Resolved(outcome) => Some(outcome),
            _ => None,
        }
    }
}

} // verus!
