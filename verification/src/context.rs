//! What a script run works on: variables, a log, and the request and response it belongs to.

use crate::text::{append_decimal, decimal};
use vstd::prelude::*;

verus! {

/// One line of a script's log: when it was written, and what.
#[derive(Clone, Debug)]
pub struct LogEntry {
    /// Seconds since the first second of 1970.
    pub timestamp: u64,
    pub message: String,
}

/// A `LogEntry` as mathematical data.
pub struct LogEntryView {
    pub timestamp: nat,
    pub message: Seq<char>,
}

impl View for LogEntry {
    type V = LogEntryView;

    open spec fn view(&self) -> LogEntryView {
        LogEntryView { timestamp: self.timestamp as nat, message: self.message@ }
    }
}

/// The line that shows `entry`: its time as a decimal numeral, a space, its message.
pub open spec fn shown(entry: LogEntryView) -> Seq<char> {
    decimal(entry.timestamp) + seq![' '] + entry.message
}

impl LogEntry {
    /// The line that shows this entry.
    pub fn show(&self) -> (line: String)
        ensures
            line@ == shown(self@),
    {
        let mut line = String::new();
        append_decimal(&mut line, self.timestamp as u128);
        line.append(" ");
        line.append(self.message.as_str());
        proof {
            reveal_strlit(" ");
            assert(" "@ =~= seq![' ']);
        }
        line
    }
}

/// The entries of a log as mathematical data.
pub open spec fn log_view(entries: Seq<LogEntry>) -> Seq<LogEntryView> {
    Seq::new(entries.len(), |i: int| entries[i]@)
}

/// The request that a run belongs to, as it stood when the run was set up.
#[derive(Clone, Debug)]
pub struct RequestSnapshot {
    pub method: String,
    pub url: String,
    pub headers: Vec<(String, String)>,
    pub body: String,
}

/// The response that a run belongs to, as it stood when the run was set up.
#[derive(Clone, Debug)]
pub struct ResponseSnapshot {
    pub status: u16,
    pub headers: Vec<(String, String)>,
    pub body: String,
}

/// A named piece of script source.
#[derive(Clone, Debug)]
pub struct ScriptScope {
    pub name: String,
    pub source: String,
}

/// What the execution of one scope did: the variables it set, in the order in which it set
/// them, and the lines it logged.
#[derive(Clone, Debug)]
pub struct ScopeEffects {
    pub assignments: Vec<(String, String)>,
    pub logs: Vec<LogEntry>,
}

/// `ScopeEffects` as mathematical data.
pub struct EffectsView {
    pub assignments: Seq<(Seq<char>, Seq<char>)>,
    pub logs: Seq<LogEntryView>,
}

/// Pairs of strings as pairs of character sequences.
pub open spec fn pairs_view(pairs: Seq<(String, String)>) -> Seq<(Seq<char>, Seq<char>)> {
    Seq::new(pairs.len(), |i: int| (pairs[i].0@, pairs[i].1@))
}

impl View for ScopeEffects {
    type V = EffectsView;

    open spec fn view(&self) -> EffectsView {
        EffectsView { assignments: pairs_view(self.assignments@), logs: log_view(self.logs@) }
    }
}

/// The position of the first pair under `key`, or the number of pairs if there is none.
pub open spec fn pair_position(pairs: Seq<(Seq<char>, Seq<char>)>, key: Seq<char>) -> int
    decreases pairs.len(),
{
    if pairs.len() == 0 {
        0
    } else if pairs[0].0 == key {
        0
    } else {
        1 + pair_position(pairs.drop_first(), key)
    }
}

/// `pair_position` is the least position whose pair stands under `key`.
pub proof fn lemma_pair_position(pairs: Seq<(Seq<char>, Seq<char>)>, key: Seq<char>)
    ensures
        0 <= pair_position(pairs, key) <= pairs.len(),
        pair_position(pairs, key) < pairs.len() ==> pairs[pair_position(pairs, key)].0 == key,
        forall|i: int| 0 <= i < pair_position(pairs, key) ==> (#[trigger] pairs[i]).0 != key,
    decreases pairs.len(),
{
    if pairs.len() > 0 && pairs[0].0 != key {
        let rest = pairs.drop_first();
        lemma_pair_position(rest, key);
        assert forall|i: int| 0 <= i < pair_position(pairs, key) implies (#[trigger] pairs[i]).0
            != key by {
            if i > 0 {
                assert(pairs[i] == rest[i - 1]);
            }
        }
    }
}

/// A position whose pair stands under `key`, with no such pair before it, is
/// `pair_position`; so is the number of pairs where none stands under `key`.
pub proof fn lemma_pair_found(pairs: Seq<(Seq<char>, Seq<char>)>, key: Seq<char>, at: int)
    requires
        0 <= at <= pairs.len(),
        at < pairs.len() ==> pairs[at].0 == key,
        forall|i: int| 0 <= i < at ==> (#[trigger] pairs[i]).0 != key,
    ensures
        pair_position(pairs, key) == at,
{
    lemma_pair_position(pairs, key);
    let p = pair_position(pairs, key);
    if p < at {
        assert(pairs[p].0 == key);
    }
}

/// The mapping that a list of pairs stands for: each key with the value of its first pair.
pub open spec fn mapping_of(pairs: Seq<(Seq<char>, Seq<char>)>) -> Map<Seq<char>, Seq<char>> {
    Map::new(
        |key: Seq<char>| pair_position(pairs, key) < pairs.len(),
        |key: Seq<char>| pairs[pair_position(pairs, key)].1,
    )
}

/// A new value for the first pair under a key is a new value for the key.
pub proof fn lemma_mapping_update(pairs: Seq<(Seq<char>, Seq<char>)>, at: int, value: Seq<char>)
    requires
        0 <= at < pairs.len(),
        pair_position(pairs, pairs[at].0) == at,
    ensures
        mapping_of(pairs.update(at, (pairs[at].0, value))) == mapping_of(pairs).insert(
            pairs[at].0,
            value,
        ),
{
    let key = pairs[at].0;
    let now = pairs.update(at, (key, value));
    assert forall|other: Seq<char>|
        pair_position(now, other) == pair_position(pairs, other) && (pair_position(pairs, other)
            == at <==> other == key) by {
        lemma_pair_position(pairs, other);
        let p = pair_position(pairs, other);
        assert forall|k: int| 0 <= k < p implies (#[trigger] now[k]).0 != other by {
            assert(pairs[k].0 != other);
        }
        lemma_pair_found(now, other, p);
    }
    assert forall|other: Seq<char>|
        mapping_of(now).dom().contains(other) == mapping_of(pairs).insert(key, value).dom().contains(
            other,
        ) by {
        assert(pair_position(now, other) == pair_position(pairs, other));
    }
    assert forall|other: Seq<char>| mapping_of(now).dom().contains(other) implies mapping_of(
        now,
    )[other] == mapping_of(pairs).insert(key, value)[other] by {
        assert(pair_position(now, other) == pair_position(pairs, other) && (pair_position(
            pairs,
            other,
        ) == at <==> other == key));
        lemma_pair_position(pairs, other);
        let p = pair_position(pairs, other);
        if other != key {
            assert(now[p] == pairs[p]);
        }
    }
    assert(mapping_of(now) =~= mapping_of(pairs).insert(key, value));
}

/// A pair under a new key at the end is a new key with its value.
pub proof fn lemma_mapping_push(pairs: Seq<(Seq<char>, Seq<char>)>, key: Seq<char>, value: Seq<char>)
    requires
        pair_position(pairs, key) == pairs.len(),
    ensures
        mapping_of(pairs.push((key, value))) == mapping_of(pairs).insert(key, value),
{
    let now = pairs.push((key, value));
    assert forall|other: Seq<char>|
        pair_position(now, other) == (if other == key {
            pairs.len() as int
        } else if pair_position(pairs, other) < pairs.len() {
            pair_position(pairs, other)
        } else {
            now.len() as int
        }) by {
        lemma_pair_position(pairs, other);
        let p = pair_position(pairs, other);
        if p < pairs.len() {
            assert forall|k: int| 0 <= k < p implies (#[trigger] now[k]).0 != other by {
                assert(pairs[k].0 != other);
            }
            lemma_pair_found(now, other, p);
        } else if other == key {
            assert forall|k: int| 0 <= k < pairs.len() implies (#[trigger] now[k]).0 != other by {
                assert(pairs[k].0 != other);
            }
            lemma_pair_found(now, other, pairs.len() as int);
        } else {
            assert forall|k: int| 0 <= k < now.len() implies (#[trigger] now[k]).0 != other by {
                if k < pairs.len() {
                    assert(pairs[k].0 != other);
                }
            }
            lemma_pair_found(now, other, now.len() as int);
        }
    }
    assert forall|other: Seq<char>|
        mapping_of(now).dom().contains(other) == mapping_of(pairs).insert(key, value).dom().contains(
            other,
        ) by {
        assert(pair_position(now, other) == (if other == key {
            pairs.len() as int
        } else if pair_position(pairs, other) < pairs.len() {
            pair_position(pairs, other)
        } else {
            now.len() as int
        }));
    }
    assert forall|other: Seq<char>| mapping_of(now).dom().contains(other) implies mapping_of(
        now,
    )[other] == mapping_of(pairs).insert(key, value)[other] by {
        assert(pair_position(now, other) == (if other == key {
            pairs.len() as int
        } else if pair_position(pairs, other) < pairs.len() {
            pair_position(pairs, other)
        } else {
            now.len() as int
        }));
        lemma_pair_position(pairs, other);
        let p = pair_position(pairs, other);
        if other != key {
            assert(now[p] == pairs[p]);
        }
    }
    assert(mapping_of(now) =~= mapping_of(pairs).insert(key, value));
}

/// The variables after the assignments `assignments`, made in their order.
pub open spec fn assigned(
    variables: Map<Seq<char>, Seq<char>>,
    assignments: Seq<(Seq<char>, Seq<char>)>,
) -> Map<Seq<char>, Seq<char>>
    decreases assignments.len(),
{
    if assignments.len() == 0 {
        variables
    } else {
        assigned(
            variables.insert(assignments[0].0, assignments[0].1),
            assignments.drop_first(),
        )
    }
}

/// The state that the scopes of a run share.
#[derive(Clone, Debug)]
pub struct Context {
    variables: Vec<(String, String)>,
    logs: Vec<LogEntry>,
    request_snapshot: RequestSnapshot,
    response_snapshot: Option<ResponseSnapshot>,
}

/// A `Context` as mathematical data.
pub struct ContextView {
    pub variables: Map<Seq<char>, Seq<char>>,
    pub logs: Seq<LogEntryView>,
    pub request: RequestSnapshot,
    pub response: Option<ResponseSnapshot>,
}

impl View for Context {
    type V = ContextView;

    closed spec fn view(&self) -> ContextView {
        ContextView {
            variables: mapping_of(pairs_view(self.variables@)),
            logs: log_view(self.logs@),
            request: self.request_snapshot,
            response: self.response_snapshot,
        }
    }
}

/// The context after a scope with the effects `effects`: the variables with its assignments
/// made, the log with its lines at the end, the snapshots as they were.
pub open spec fn applied(context: ContextView, effects: EffectsView) -> ContextView {
    ContextView {
        variables: assigned(context.variables, effects.assignments),
        logs: context.logs + effects.logs,
        request: context.request,
        response: context.response,
    }
}

impl Context {
    /// A context without variables and with an empty log.
    pub fn new(request_snapshot: RequestSnapshot, response_snapshot: Option<ResponseSnapshot>) -> (context:
        Context)
        ensures
            context@ == (ContextView {
                variables: Map::empty(),
                logs: Seq::empty(),
                request: request_snapshot,
                response: response_snapshot,
            }),
    {
        let context = Context {
            variables: Vec::new(),
            logs: Vec::new(),
            request_snapshot,
            response_snapshot,
        };
        assert(context@.variables =~= Map::empty());
        assert(context@.logs =~= Seq::empty());
        context
    }

    /// The value of the variable `key`.
    pub fn variable(&self, key: &String) -> (value: Option<&String>)
        ensures
            match value {
                Some(text) => self@.variables.contains_key(key@) && self@.variables[key@] == text@,
                None => !self@.variables.contains_key(key@),
            },
    {
        let ghost pairs = pairs_view(self.variables@);
        let mut i: usize = 0;
        while i < self.variables.len()
            invariant
                i <= self.variables.len(),
                pairs == pairs_view(self.variables@),
                forall|k: int| 0 <= k < i ==> (#[trigger] pairs[k]).0 != key@,
            decreases self.variables.len() - i,
        {
            if self.variables[i].0 == *key {
                proof {
                    assert(pairs[i as int].0 == key@);
                    lemma_pair_found(pairs, key@, i as int);
                }
                return Some(&self.variables[i].1);
            }
            assert(pairs[i as int].0 != key@);
            i += 1;
        }
        proof {
            lemma_pair_found(pairs, key@, i as int);
        }
        None
    }

    /// Sets the variable `key` to `value`.
    pub fn set_variable(&mut self, key: String, value: String)
        ensures
            final(self)@ == (ContextView {
                variables: old(self)@.variables.insert(key@, value@),
                ..old(self)@
            }),
    {
        let ghost pairs = pairs_view(self.variables@);
        let mut i: usize = 0;
        while i < self.variables.len()
            invariant
                *self == *old(self),
                i <= self.variables.len(),
                pairs == pairs_view(self.variables@),
                forall|k: int| 0 <= k < i ==> (#[trigger] pairs[k]).0 != key@,
            decreases self.variables.len() - i,
        {
            if self.variables[i].0 == key {
                self.variables.set(i, (key, value));
                proof {
                    assert(pairs_view(self.variables@) =~= pairs.update(i as int, (key@, value@)));
                    assert(pairs[i as int].0 == key@);
                    lemma_pair_found(pairs, key@, i as int);
                    lemma_mapping_update(pairs, i as int, value@);
                }
                return ;
            }
            assert(pairs[i as int].0 != key@);
            i += 1;
        }
        self.variables.push((key, value));
        proof {
            assert(pairs_view(self.variables@) =~= pairs.push((key@, value@)));
            lemma_pair_found(pairs, key@, pairs.len() as int);
            lemma_mapping_push(pairs, key@, value@);
        }
    }

    /// Writes `entry` at the end of the log.
    pub fn log(&mut self, entry: LogEntry)
        ensures
            final(self)@ == (ContextView { logs: old(self)@.logs.push(entry@), ..old(self)@ }),
    {
        self.logs.push(entry);
        assert(log_view(self.logs@) =~= log_view(old(self).logs@).push(entry@));
    }

    /// The log, oldest line first.
    pub fn logs(&self) -> (entries: &Vec<LogEntry>)
        ensures
            log_view(entries@) == self@.logs,
    {
        &self.logs
    }

    /// The request that the run belongs to.
    pub fn request_snapshot(&self) -> (snapshot: &RequestSnapshot)
        ensures
            *snapshot == self@.request,
    {
        &self.request_snapshot
    }

    /// The response that the run belongs to, where there is one yet.
    pub fn response_snapshot(&self) -> (snapshot: &Option<ResponseSnapshot>)
        ensures
            *snapshot == self@.response,
    {
        &self.response_snapshot
    }

    /// Takes in what a scope did: its assignments in their order, then its lines at the end
    /// of the log.
    pub fn apply(&mut self, effects: ScopeEffects)
        ensures
            final(self)@ == applied(old(self)@, effects@),
    {
        let ScopeEffects { assignments, logs } = effects;
        let ghost all = pairs_view(assignments@);
        let mut logs = logs;
        let ghost lines = log_view(logs@);
        assert(all.skip(0) =~= all);
        for pair in it: assignments
            invariant
                all == pairs_view(it.seq()),
                assigned(old(self)@.variables, all) == assigned(
                    self@.variables,
                    all.skip(it.index() as int),
                ),
                self@.logs == old(self)@.logs,
                self@.request == old(self)@.request,
                self@.response == old(self)@.response,
        {
            let (key, value) = pair;
            assert(key@ == all[it.index() as int].0 && value@ == all[it.index() as int].1);
            assert(all.skip(it.index() as int).drop_first() =~= all.skip(it.index() + 1));
            self.set_variable(key, value);
        }
        assert(all.skip(all.len() as int) =~= Seq::empty());
        let ghost before = log_view(self.logs@);
        self.logs.append(&mut logs);
        assert(log_view(self.logs@) =~= before + lines);
    }
}

} // verus!
