//! What holds of every run, whatever its scopes do.

use crate::context::{applied, assigned, ContextView, EffectsView, LogEntryView};
use crate::runtime::{
    abandoned, delivered, step_of, EventView, HandleView, RunErrorView, RunView, ScopeView,
};
use vstd::prelude::*;

verus! {

/// The state of a run after the events `events`, taken in one after the other.
pub open spec fn after(run: RunView, events: Seq<EventView>) -> RunView
    decreases events.len(),
{
    if events.len() == 0 {
        run
    } else {
        after(step_of(run, events[0]).0, events.drop_first())
    }
}

/// The context after scopes with the effects `effects`, one after the other.
pub open spec fn applied_all(context: ContextView, effects: Seq<EffectsView>) -> ContextView
    decreases effects.len(),
{
    if effects.len() == 0 {
        context
    } else {
        applied_all(applied(context, effects[0]), effects.drop_first())
    }
}

/// The lines that scopes with the effects `effects` logged, in the order of the scopes.
pub open spec fn logged(effects: Seq<EffectsView>) -> Seq<LogEntryView>
    decreases effects.len(),
{
    if effects.len() == 0 {
        Seq::empty()
    } else {
        effects[0].logs + logged(effects.drop_first())
    }
}

/// The events that report the scopes with the effects `effects` as run to their end.
pub open spec fn completions(effects: Seq<EffectsView>) -> Seq<EventView> {
    Seq::new(effects.len(), |i: int| EventView::ScopeCompleted(effects[i]))
}

/// Events taken in one after the other: first `first`, then `then`.
pub proof fn lemma_after_concat(run: RunView, first: Seq<EventView>, then: Seq<EventView>)
    ensures
        after(run, first + then) == after(after(run, first), then),
    decreases first.len(),
{
    if first.len() == 0 {
        assert(first + then =~= then);
    } else {
        assert((first + then).drop_first() =~= first.drop_first() + then);
        lemma_after_concat(step_of(run, first[0]).0, first.drop_first(), then);
    }
}

/// The log only grows: scopes leave the lines that were there and add theirs behind them,
/// in the order of the scopes. The snapshots stay as they were.
pub proof fn lemma_log_appended(context: ContextView, effects: Seq<EffectsView>)
    ensures
        applied_all(context, effects).logs == context.logs + logged(effects),
        applied_all(context, effects).request == context.request,
        applied_all(context, effects).response == context.response,
    decreases effects.len(),
{
    if effects.len() == 0 {
        assert(context.logs + logged(effects) =~= context.logs);
    } else {
        lemma_log_appended(applied(context, effects[0]), effects.drop_first());
        assert((context.logs + effects[0].logs) + logged(effects.drop_first()) =~= context.logs
            + logged(effects));
    }
}

/// Assignments to other variables leave a variable as it is.
pub proof fn lemma_untouched_variable(
    variables: Map<Seq<char>, Seq<char>>,
    assignments: Seq<(Seq<char>, Seq<char>)>,
    key: Seq<char>,
)
    requires
        forall|i: int| 0 <= i < assignments.len() ==> (#[trigger] assignments[i]).0 != key,
    ensures
        assigned(variables, assignments).contains_key(key) == variables.contains_key(key),
        variables.contains_key(key) ==> assigned(variables, assignments)[key] == variables[key],
    decreases assignments.len(),
{
    if assignments.len() > 0 {
        let rest = assignments.drop_first();
        assert(assignments[0].0 != key);
        assert forall|i: int| 0 <= i < rest.len() implies (#[trigger] rest[i]).0 != key by {
            assert(rest[i] == assignments[i + 1]);
        }
        lemma_untouched_variable(
            variables.insert(assignments[0].0, assignments[0].1),
            rest,
            key,
        );
    }
}

/// A variable has the value of the last assignment to it: a scope that sets a variable
/// leaves it to the scopes behind it, which find it in the context they work on.
pub proof fn lemma_last_assignment_wins(
    variables: Map<Seq<char>, Seq<char>>,
    assignments: Seq<(Seq<char>, Seq<char>)>,
    at: int,
)
    requires
        0 <= at < assignments.len(),
        forall|i: int| at < i < assignments.len() ==> (#[trigger] assignments[i]).0
            != assignments[at].0,
    ensures
        assigned(variables, assignments).contains_key(assignments[at].0),
        assigned(variables, assignments)[assignments[at].0] == assignments[at].1,
    decreases assignments.len(),
{
    let rest = assignments.drop_first();
    let next = variables.insert(assignments[0].0, assignments[0].1);
    if at == 0 {
        assert forall|i: int| 0 <= i < rest.len() implies (#[trigger] rest[i]).0
            != assignments[0].0 by {
            assert(rest[i] == assignments[i + 1]);
        }
        lemma_untouched_variable(next, rest, assignments[0].0);
    } else {
        assert(rest[at - 1] == assignments[at]);
        assert forall|i: int| at - 1 < i < rest.len() implies (#[trigger] rest[i]).0 != rest[at
            - 1].0 by {
            assert(rest[i] == assignments[i + 1]);
        }
        lemma_last_assignment_wins(next, rest, at - 1);
    }
}

/// The scopes of a run are executed in their order on one context: after some of them have
/// run to their end, the next one works on the context that these have left, and after the
/// last one the run resolves to the context that all of them have left.
pub proof fn lemma_scopes_in_order(
    scopes: Seq<ScopeView>,
    context: ContextView,
    index: int,
    effects: Seq<EffectsView>,
)
    requires
        0 <= index < scopes.len(),
        index + effects.len() <= scopes.len(),
    ensures
        after(RunView::Executing { scopes, context, index }, completions(effects)) == (if index
            + effects.len() < scopes.len() {
            RunView::Executing {
                scopes,
                context: applied_all(context, effects),
                index: index + effects.len(),
            }
        } else {
            RunView::Resolved { outcome: Ok(applied_all(context, effects)) }
        }),
    decreases effects.len(),
{
    if effects.len() > 0 {
        let rest = effects.drop_first();
        assert(completions(effects)[0] == EventView::ScopeCompleted(effects[0]));
        assert(completions(effects).drop_first() =~= completions(rest));
        if index + 1 < scopes.len() {
            lemma_scopes_in_order(scopes, applied(context, effects[0]), index + 1, rest);
        } else {
            let done = RunView::Resolved { outcome: Ok(applied(context, effects[0])) };
            assert(completions(rest).len() == 0);
            assert(after(done, completions(rest)) == done);
            assert(applied_all(applied(context, effects[0]), rest) == applied(context, effects[0]));
        }
    } else {
        assert(completions(effects).len() == 0);
    }
}

/// A run whose scopes all run to their end resolves to the seed context with the effects of
/// all scopes applied in their order.
pub proof fn lemma_run_to_end(scopes: Seq<ScopeView>, seed: ContextView, effects: Seq<EffectsView>)
    requires
        effects.len() == scopes.len(),
    ensures
        after(
            RunView::Idle { scopes, seed },
            seq![EventView::Start, EventView::InterpreterReady] + completions(effects),
        ) == (RunView::Resolved { outcome: Ok(applied_all(seed, effects)) }),
{
    let idle = RunView::Idle { scopes, seed };
    let start = seq![EventView::Start, EventView::InterpreterReady];
    lemma_after_concat(idle, start, completions(effects));
    reveal_with_fuel(after, 3);
    if scopes.len() > 0 {
        lemma_scopes_in_order(scopes, seed, 0, effects);
    } else {
        assert(completions(effects).len() == 0);
    }
}

/// A run in which a scope raises an error resolves to that error, with the name of the
/// scope. The context that comes with it holds the effects of the scopes before it and
/// what the failing scope did up to the error: its log starts with the lines of the seed and
/// then those of the scopes that ran to their end, none lost.
pub proof fn lemma_failure_keeps_log(
    scopes: Seq<ScopeView>,
    seed: ContextView,
    effects: Seq<EffectsView>,
    partial: EffectsView,
    message: Seq<char>,
)
    requires
        effects.len() < scopes.len(),
    ensures
        after(
            RunView::Idle { scopes, seed },
            seq![EventView::Start, EventView::InterpreterReady] + completions(effects)
                + seq![EventView::ScopeFailed(partial, message)],
        ) == (RunView::Resolved {
            outcome: Err(
                RunErrorView {
                    message,
                    scope: Some(scopes[effects.len() as int].name),
                    context: applied(applied_all(seed, effects), partial),
                },
            ),
        }),
        applied(applied_all(seed, effects), partial).logs == seed.logs + logged(effects)
            + partial.logs,
{
    let idle = RunView::Idle { scopes, seed };
    let start = seq![EventView::Start, EventView::InterpreterReady];
    let failure = seq![EventView::ScopeFailed(partial, message)];
    lemma_after_concat(idle, start + completions(effects), failure);
    lemma_after_concat(idle, start, completions(effects));
    reveal_with_fuel(after, 3);
    lemma_scopes_in_order(scopes, seed, 0, effects);
    lemma_log_appended(seed, effects);
}

/// A run whose interpreter cannot be built resolves to that error before any scope is
/// executed, with the seed context as it was.
pub proof fn lemma_interpreter_failure(scopes: Seq<ScopeView>, seed: ContextView, message: Seq<char>)
    ensures
        after(
            RunView::Idle { scopes, seed },
            seq![EventView::Start, EventView::InterpreterFailed(message)],
        ) == (RunView::Resolved {
            outcome: Err(RunErrorView { message, scope: None, context: seed }),
        }),
{
    reveal_with_fuel(after, 3);
}

/// A run that is over or abandoned stays as it is, whatever is reported to it later.
pub proof fn lemma_settled_stays(run: RunView, events: Seq<EventView>)
    requires
        run.settled(),
    ensures
        after(run, events) == run,
    decreases events.len(),
{
    if events.len() > 0 {
        lemma_settled_stays(run, events.drop_first());
    }
}

/// A run that is abandoned before it is over never resolves: whatever is reported to it
/// later, no outcome and no context of it is to be seen.
pub proof fn lemma_cancelled_never_resolves(run: RunView, events: Seq<EventView>)
    requires
        !(run is Resolved),
    ensures
        after(run, seq![EventView::Cancel] + events) == RunView::Cancelled,
{
    lemma_after_concat(run, seq![EventView::Cancel], events);
    reveal_with_fuel(after, 2);
    lemma_settled_stays(RunView::Cancelled, events);
}

/// The handle after the run has reported the outcomes `outcomes`, one after the other.
pub open spec fn delivered_all(
    handle: HandleView,
    outcomes: Seq<Result<ContextView, RunErrorView>>,
) -> HandleView
    decreases outcomes.len(),
{
    if outcomes.len() == 0 {
        handle
    } else {
        delivered_all(delivered(handle, outcomes[0]), outcomes.drop_first())
    }
}

/// A handle resolves once: the first outcome that is reported stays, whatever is reported
/// after it.
pub proof fn lemma_resolves_once(
    handle: HandleView,
    outcomes: Seq<Result<ContextView, RunErrorView>>,
)
    ensures
        delivered_all(handle, outcomes) == (if handle is Pending && outcomes.len() > 0 {
            HandleView::Resolved(outcomes[0])
        } else {
            handle
        }),
    decreases outcomes.len(),
{
    if outcomes.len() > 0 {
        lemma_resolves_once(delivered(handle, outcomes[0]), outcomes.drop_first());
    }
}

/// A handle that is abandoned while the run is pending never resolves, whatever the run
/// reports later.
pub proof fn lemma_abandoned_never_resolves(outcomes: Seq<Result<ContextView, RunErrorView>>)
    ensures
        delivered_all(abandoned(HandleView::Pending), outcomes) == HandleView::Cancelled,
{
    lemma_resolves_once(HandleView::Cancelled, outcomes);
}

} // verus!
