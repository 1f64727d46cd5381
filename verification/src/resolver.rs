//! Interpolation: the placeholders of a text and what takes their place.

use crate::environment::{lookup, Environment, EnvironmentValue, LayerView, ValueView};
use crate::functions::{evaluate, output_of, parse, parsed, FunctionIdentifier, Sample};
use crate::text::{append_range, chars_of, string_of, texts, trim_bounds, trimmed};
use vstd::prelude::*;
use vstd::utf8::{decode_utf8, encode_utf8, encode_utf8_decode_utf8, is_char_boundary};

verus! {

/// Two opening braces stand at position `at`.
pub open spec fn opens_at(s: Seq<char>, at: int) -> bool {
    0 <= at && at + 1 < s.len() && s[at] == '{' && s[at + 1] == '{'
}

/// Two closing braces stand at position `at`.
pub open spec fn closes_at(s: Seq<char>, at: int) -> bool {
    0 <= at && at + 1 < s.len() && s[at] == '}' && s[at + 1] == '}'
}

/// `s[start..end]` is a placeholder: two opening braces, then characters on one line up to
/// the first two closing braces that follow, and those.
pub open spec fn placeholder_at(s: Seq<char>, start: int, end: int) -> bool {
    &&& opens_at(s, start)
    &&& start + 4 <= end <= s.len()
    &&& closes_at(s, end - 2)
    &&& forall|k: int|
        #![trigger s[k]]
        #![trigger closes_at(s, k)]
        start + 2 <= k < end - 2 ==> s[k] != '\n' && !closes_at(s, k)
}

/// `s[start..end]` is the first placeholder that starts at `from` or later.
#[verifier::opaque]
pub open spec fn first_placeholder(s: Seq<char>, from: int, start: int, end: int) -> bool {
    &&& 0 <= from <= start
    &&& placeholder_at(s, start, end)
    &&& forall|i: int, e: int| from <= i < start ==> !#[trigger] placeholder_at(s, i, e)
}

/// No placeholder starts at `from` or later.
#[verifier::opaque]
pub open spec fn no_placeholder(s: Seq<char>, from: int) -> bool {
    forall|i: int, e: int| from <= i ==> !#[trigger] placeholder_at(s, i, e)
}

/// The first placeholder of `s` that starts at `from` or later, as its start and its end.
#[verifier::opaque]
pub open spec fn next_placeholder(s: Seq<char>, from: int) -> Option<(int, int)> {
    if exists|start: int, end: int| first_placeholder(s, from, start, end) {
        Some(choose|start: int, end: int| first_placeholder(s, from, start, end))
    } else {
        None
    }
}

/// A text has at most one first placeholder from a position on.
pub proof fn lemma_first_placeholder_unique(s: Seq<char>, from: int, a: (int, int), b: (int, int))
    requires
        first_placeholder(s, from, a.0, a.1),
        first_placeholder(s, from, b.0, b.1),
    ensures
        a == b,
{
    reveal(first_placeholder);
    if a.0 < b.0 {
        assert(placeholder_at(s, a.0, a.1));
    } else if b.0 < a.0 {
        assert(placeholder_at(s, b.0, b.1));
    }
    if a.1 < b.1 {
        assert(closes_at(s, a.1 - 2));
    } else if b.1 < a.1 {
        assert(closes_at(s, b.1 - 2));
    }
}

/// The first placeholder from `from` on, once one is known.
pub proof fn lemma_next_is(s: Seq<char>, from: int, start: int, end: int)
    requires
        first_placeholder(s, from, start, end),
    ensures
        next_placeholder(s, from) == Some((start, end)),
        0 <= from <= start,
        start + 4 <= end <= s.len(),
{
    reveal(next_placeholder);
    assert(0 <= from <= start && start + 4 <= end <= s.len()) by {
        reveal(first_placeholder);
    }
    let found = choose|a: int, b: int| first_placeholder(s, from, a, b);
    lemma_first_placeholder_unique(s, from, found, (start, end));
}

/// Without a placeholder from `from` on there is no first one.
pub proof fn lemma_next_is_none(s: Seq<char>, from: int)
    requires
        0 <= from,
        no_placeholder(s, from),
    ensures
        next_placeholder(s, from) is None,
{
    reveal(next_placeholder);
    reveal(first_placeholder);
    reveal(no_placeholder);
    if exists|start: int, end: int| first_placeholder(s, from, start, end) {
        let (start, end) = choose|start: int, end: int| first_placeholder(s, from, start, end);
        assert(placeholder_at(s, start, end));
    }
}

/// Where the search for the placeholder of number `k` starts: behind the one before it.
pub open spec fn search_start(ranges: Seq<(usize, usize)>, k: int) -> int {
    if k <= 0 {
        0
    } else {
        ranges[k - 1].1 as int
    }
}

/// `ranges` are the placeholders of `s` from left to right, none overlapping another and
/// none left out.
pub open spec fn placeholders_of(s: Seq<char>, ranges: Seq<(usize, usize)>) -> bool {
    &&& forall|k: int|
        0 <= k < ranges.len() ==> first_placeholder(
            s,
            search_start(ranges, k),
            (#[trigger] ranges[k]).0 as int,
            ranges[k].1 as int,
        )
    &&& no_placeholder(s, search_start(ranges, ranges.len() as int))
}

/// The pattern of a placeholder in the syntax of the `regex` crate.
pub open spec fn placeholder_pattern() -> Seq<char> {
    "\\{\\{.*?}}"@
}

/// What stands in the place of a placeholder that resolves to nothing.
pub open spec fn unresolved_marker() -> Seq<char> {
    "{UNKNOWN}"@
}

/// The number of characters of `s` whose UTF-8 form lies before the byte of number `offset`.
pub open spec fn chars_before(s: Seq<char>, offset: usize) -> int {
    decode_utf8(encode_utf8(s).subrange(0, offset as int)).len() as int
}

/// The byte of number `offset` of the UTF-8 form of `s` starts a character, or `offset` is
/// the length of that form.
pub open spec fn at_boundary(s: Seq<char>, offset: usize) -> bool {
    is_char_boundary(encode_utf8(s), offset as int)
}

/// The spans `spans` of bytes of the UTF-8 form of `s`, as spans of characters of `s`.
pub open spec fn positions(s: Seq<char>, spans: Seq<(usize, usize)>) -> Seq<(usize, usize)> {
    Seq::new(
        spans.len(),
        |k: int| (chars_before(s, spans[k].0) as usize, chars_before(s, spans[k].1) as usize),
    )
}

/// `Regex::new` and `Regex::find_iter` of the `regex` crate, for the placeholder pattern
/// alone: the matches of `pattern` in `text` in the order in which the iterator yields them,
/// each as the byte offsets of its start and of its end.
///
/// The contract restates for this pattern what the crate documents. The offsets of a match
/// fall on the boundaries of characters. The iterator yields successive non-overlapping
/// matches, each the leftmost one behind the match before it; `\{` is a brace, `.` any
/// character except a line feed, and `*?` takes as few characters as lead to a match, so
/// that a match ends with the first `}}` behind its opening braces.
#[verifier::external_body]
fn find_matches(pattern: &str, text: &str) -> (found: Vec<(usize, usize)>)
    requires
        pattern@ == placeholder_pattern(),
    ensures
        forall|k: int|
            0 <= k < found@.len() ==> at_boundary(text@, (#[trigger] found@[k]).0) && at_boundary(
                text@,
                found@[k].1,
            ),
        placeholders_of(text@, positions(text@, found@)),
{
    match regex::Regex::new(pattern) {
        Ok(compiled) => compiled.find_iter(text).map(|m| (m.start(), m.end())).collect(),
        Err(_) => Vec::new(),
    }
}

/// The number of characters of `text` that lie before the byte of number `offset`.
pub fn chars_up_to(text: &str, offset: usize) -> (count: usize)
    requires
        at_boundary(text@, offset),
    ensures
        count == chars_before(text@, offset),
{
    let (head, _) = text.split_at(offset);
    proof {
        encode_utf8_decode_utf8(head@);
        assert(encode_utf8(head@) == encode_utf8(text@).subrange(0, offset as int));
    }
    head.unicode_len()
}

/// The placeholders of `text` from left to right, each as the positions of its first
/// character and behind its last.
pub fn placeholders(text: &str) -> (found: Vec<(usize, usize)>)
    ensures
        placeholders_of(text@, found@),
{
    let spans = find_matches("\\{\\{.*?}}", text);
    let ghost all = positions(text@, spans@);
    let mut found: Vec<(usize, usize)> = Vec::new();
    let mut k: usize = 0;
    while k < spans.len()
        invariant
            k <= spans.len(),
            all == positions(text@, spans@),
            forall|i: int|
                0 <= i < spans@.len() ==> at_boundary(text@, (#[trigger] spans@[i]).0)
                    && at_boundary(text@, spans@[i].1),
            found@ == all.take(k as int),
        decreases spans.len() - k,
    {
        let (start, end) = spans[k];
        let first = chars_up_to(text, start);
        let behind = chars_up_to(text, end);
        found.push((first, behind));
        assert(all[k as int] == (first, behind));
        assert(found@ =~= all.take(k + 1));
        k += 1;
    }
    assert(all.take(spans@.len() as int) =~= all);
    found
}

/// `body` without the pairs of opening braces that it starts with.
pub open spec fn placeholder_key(body: Seq<char>) -> Seq<char>
    decreases body.len(),
{
    if opens_at(body, 0) {
        placeholder_key(body.skip(2))
    } else {
        body
    }
}

/// The key of the placeholder `s[start..end]`: what stands between its braces, without the
/// pairs of opening braces that it starts with and then without the white space around it.
pub open spec fn key_at(s: Seq<char>, start: int, end: int) -> Seq<char> {
    trimmed(placeholder_key(s.subrange(start + 2, end - 2)))
}

/// The key of the placeholder `text[start..end]`.
pub fn key_of(text: &[char], start: usize, end: usize) -> (key: String)
    requires
        start + 4 <= end <= text@.len(),
    ensures
        key@ == key_at(text@, start as int, end as int),
{
    let stop = end - 2;
    let mut at: usize = start + 2;
    let ghost body = text@.subrange(start + 2, end - 2);
    assert(body.skip(0) =~= body);
    while at + 1 < stop && text[at] == '{' && text[at + 1] == '{'
        invariant
            start + 2 <= at <= stop,
            stop == end - 2,
            end <= text@.len(),
            body == text@.subrange(start + 2, end - 2),
            placeholder_key(body) == placeholder_key(body.skip(at - (start + 2))),
        decreases stop - at,
    {
        assert(opens_at(body.skip(at - (start + 2)), 0));
        assert(body.skip(at - (start + 2)).skip(2) =~= body.skip(at + 2 - (start + 2)));
        at += 2;
    }
    assert(!opens_at(body.skip(at - (start + 2)), 0));
    assert(body.skip(at - (start + 2)) =~= text@.subrange(at as int, stop as int));
    let (from, to) = trim_bounds(text, at, stop);
    string_of(text, from, to)
}

/// What takes the place of a placeholder: a text that is known, or the output of a builtin
/// function that is still to be called.
#[derive(Clone, Debug)]
pub enum Substitution {
    Text(String),
    Call(FunctionIdentifier),
}

/// A `Substitution` as mathematical data.
pub enum SubstitutionView {
    Text(Seq<char>),
    Call(FunctionIdentifier),
}

impl View for Substitution {
    type V = SubstitutionView;

    open spec fn view(&self) -> SubstitutionView {
        match self {
            Substitution::Text(text) => SubstitutionView::Text(text@),
            Substitution::Call(identifier) => SubstitutionView::Call(*identifier),
        }
    }
}

/// What takes the place of a placeholder with the key `key`: the text of the literal that the
/// key stands for; the call of the builtin function that it stands for; the marker where it
/// stands for nothing, or for a function value that does not parse.
pub open spec fn substitution(layers: Seq<LayerView>, key: Seq<char>) -> SubstitutionView {
    match lookup(layers, key) {
        None => SubstitutionView::Text(unresolved_marker()),
        Some(ValueView::Literal(text)) => SubstitutionView::Text(text),
        Some(ValueView::Function(call)) => match parsed(call) {
            Ok(spec) => SubstitutionView::Call(spec.identifier),
            Err(_) => SubstitutionView::Text(unresolved_marker()),
        },
    }
}

/// What takes the place of a placeholder with the key `key`.
pub fn substitute(envs: &Environment, key: &String) -> (result: Substitution)
    ensures
        result@ == substitution(envs@, key@),
{
    match envs.get(key) {
        None => Substitution::Text("{UNKNOWN}".to_owned()),
        Some(EnvironmentValue::Literal(text)) => Substitution::Text(text.clone()),
        Some(EnvironmentValue::Function(call)) => match parse(call.as_str()) {
            Ok(spec) => Substitution::Call(spec.identifier),
            Err(_) => Substitution::Text("{UNKNOWN}".to_owned()),
        },
    }
}

/// The output for the call of number `used`: the one supplied, or the marker where the
/// outputs have run out.
pub open spec fn output_at(outputs: Seq<Seq<char>>, used: int) -> Seq<char> {
    if 0 <= used < outputs.len() {
        outputs[used]
    } else {
        unresolved_marker()
    }
}

/// `s` from `from` on with each placeholder replaced, where the calls of builtin functions
/// take their outputs from `outputs`, from number `used` on. What is put in is not searched
/// for placeholders again.
pub open spec fn resolved_from(
    s: Seq<char>,
    layers: Seq<LayerView>,
    outputs: Seq<Seq<char>>,
    from: int,
    used: int,
) -> Seq<char>
    decreases s.len() - from,
{
    match next_placeholder(s, from) {
        Some((start, end)) => if from <= start < end <= s.len() {
            s.subrange(from, start) + (match substitution(layers, key_at(s, start, end)) {
                SubstitutionView::Text(text) => text + resolved_from(
                    s,
                    layers,
                    outputs,
                    end,
                    used,
                ),
                SubstitutionView::Call(_) => output_at(outputs, used) + resolved_from(
                    s,
                    layers,
                    outputs,
                    end,
                    used + 1,
                ),
            })
        } else {
            s.subrange(from, s.len() as int)
        },
        None => s.subrange(from, s.len() as int),
    }
}

/// `s` with each placeholder replaced; the calls of builtin functions take their outputs from
/// `outputs`, in the order of their placeholders.
pub open spec fn resolved(s: Seq<char>, layers: Seq<LayerView>, outputs: Seq<Seq<char>>) -> Seq<
    char,
> {
    resolved_from(s, layers, outputs, 0, 0)
}

/// The builtin functions that the placeholders of `s` call from `from` on, in their order.
pub open spec fn calls_from(s: Seq<char>, layers: Seq<LayerView>, from: int) -> Seq<
    FunctionIdentifier,
>
    decreases s.len() - from,
{
    match next_placeholder(s, from) {
        Some((start, end)) => if from <= start < end <= s.len() {
            match substitution(layers, key_at(s, start, end)) {
                SubstitutionView::Text(_) => calls_from(s, layers, end),
                SubstitutionView::Call(identifier) => seq![identifier] + calls_from(
                    s,
                    layers,
                    end,
                ),
            }
        } else {
            Seq::empty()
        },
        None => Seq::empty(),
    }
}

/// The builtin functions that the placeholders of `s` call, in their order.
pub open spec fn calls(s: Seq<char>, layers: Seq<LayerView>) -> Seq<FunctionIdentifier> {
    calls_from(s, layers, 0)
}

/// Replaces the placeholders `ranges` of `text`, with the outputs of the calls taken from
/// `outputs`.
fn fill(
    text: &[char],
    ranges: &Vec<(usize, usize)>,
    envs: &Environment,
    outputs: &Vec<String>,
) -> (result: String)
    requires
        placeholders_of(text@, ranges@),
    ensures
        result@ == resolved(text@, envs@, texts(outputs@)),
{
    let ghost s = text@;
    let ghost given = texts(outputs@);
    let mut out = String::new();
    let mut from: usize = 0;
    let mut used: usize = 0;
    let mut k: usize = 0;
    while k < ranges.len()
        invariant
            k <= ranges.len(),
            used <= k,
            from == search_start(ranges@, k as int),
            from <= text.len(),
            s == text@,
            given == texts(outputs@),
            placeholders_of(s, ranges@),
            resolved(s, envs@, given) == out@ + resolved_from(
                s,
                envs@,
                given,
                from as int,
                used as int,
            ),
        decreases ranges.len() - k,
    {
        let (start, end) = ranges[k];
        proof {
            assert(first_placeholder(
                s,
                from as int,
                ranges@[k as int].0 as int,
                ranges@[k as int].1 as int,
            ));
            lemma_next_is(s, from as int, start as int, end as int);
        }
        let ghost before = out@;
        append_range(&mut out, text, from, start);
        let key = key_of(text, start, end);
        match substitute(envs, &key) {
            Substitution::Text(value) => {
                out.append(value.as_str());
                let ghost rest = resolved_from(s, envs@, given, end as int, used as int);
                assert(before + (s.subrange(from as int, start as int) + (value@ + rest)) =~= out@
                    + rest);
            },
            Substitution::Call(_) => {
                if used < outputs.len() {
                    out.append(outputs[used].as_str());
                } else {
                    out.append("{UNKNOWN}");
                }
                let ghost rest = resolved_from(s, envs@, given, end as int, used + 1);
                assert(before + (s.subrange(from as int, start as int) + (output_at(
                    given,
                    used as int,
                ) + rest)) =~= out@ + rest);
                used += 1;
            },
        }
        from = end;
        k += 1;
    }
    proof {
        lemma_next_is_none(s, from as int);
    }
    append_range(&mut out, text, from, text.len());
    out
}

/// The builtin functions that the placeholders `ranges` of `text` call, in their order.
fn calls_in(text: &[char], ranges: &Vec<(usize, usize)>, envs: &Environment) -> (found: Vec<
    FunctionIdentifier,
>)
    requires
        placeholders_of(text@, ranges@),
    ensures
        found@ == calls(text@, envs@),
{
    let ghost s = text@;
    let mut found: Vec<FunctionIdentifier> = Vec::new();
    let mut k: usize = 0;
    while k < ranges.len()
        invariant
            k <= ranges.len(),
            s == text@,
            placeholders_of(s, ranges@),
            search_start(ranges@, k as int) <= text.len(),
            calls(s, envs@) == found@ + calls_from(s, envs@, search_start(ranges@, k as int)),
        decreases ranges.len() - k,
    {
        let (start, end) = ranges[k];
        let ghost from = search_start(ranges@, k as int);
        proof {
            assert(first_placeholder(
                s,
                from,
                ranges@[k as int].0 as int,
                ranges@[k as int].1 as int,
            ));
            lemma_next_is(s, from, start as int, end as int);
        }
        let key = key_of(text, start, end);
        let ghost before = found@;
        match substitute(envs, &key) {
            Substitution::Text(_) => {},
            Substitution::Call(identifier) => {
                found.push(identifier);
                assert(before + (seq![identifier] + calls_from(s, envs@, end as int)) =~= found@
                    + calls_from(s, envs@, end as int));
            },
        }
        k += 1;
    }
    proof {
        lemma_next_is_none(s, search_start(ranges@, k as int));
        assert(found@ + Seq::<FunctionIdentifier>::empty() =~= found@);
    }
    found
}

/// `content` with each placeholder replaced by what it stands for in `envs`; the calls of
/// builtin functions take their outputs from `outputs`, in the order of their placeholders,
/// and the marker once these have run out.
pub fn resolve_with(content: &str, envs: &Environment, outputs: &Vec<String>) -> (result: String)
    ensures
        result@ == resolved(content@, envs@, texts(outputs@)),
{
    let text = chars_of(content);
    let ranges = placeholders(content);
    fill(text.as_slice(), &ranges, envs, outputs)
}

/// The builtin functions that the placeholders of `content` call, in their order.
pub fn function_calls(content: &str, envs: &Environment) -> (found: Vec<FunctionIdentifier>)
    ensures
        found@ == calls(content@, envs@),
{
    let text = chars_of(content);
    let ranges = placeholders(content);
    calls_in(text.as_slice(), &ranges, envs)
}

/// `output` is what `identifier` gives for some reading of the clock and some random words.
pub open spec fn is_output(identifier: FunctionIdentifier, output: Seq<char>) -> bool {
    exists|sample: Sample| output == #[trigger] output_of(identifier, sample)
}

/// `outputs` holds one output for each of the calls `called`, each of them what its function
/// gives for some reading of the clock and some random words.
pub open spec fn evaluation_of(called: Seq<FunctionIdentifier>, outputs: Seq<Seq<char>>) -> bool {
    &&& outputs.len() == called.len()
    &&& forall|k: int| 0 <= k < called.len() ==> is_output(called[k], #[trigger] outputs[k])
}

/// `content` with each placeholder replaced by what it stands for in `envs`: the text of a
/// literal, the output at this moment of the builtin function that a function value calls,
/// and the marker for a key that no enabled entry has or a function value that does not
/// parse. The text between the placeholders stays as it is.
pub fn replace_variable(content: String, envs: &Environment) -> (result: String)
    ensures
        exists|outputs: Seq<Seq<char>>|
            evaluation_of(calls(content@, envs@), outputs) && result@ == resolved(
                content@,
                envs@,
                outputs,
            ),
        calls(content@, envs@).len() == 0 ==> result@ == resolved(content@, envs@, Seq::empty()),
{
    let text = chars_of(content.as_str());
    let ranges = placeholders(content.as_str());
    let called = calls_in(text.as_slice(), &ranges, envs);
    let mut outputs: Vec<String> = Vec::new();
    let mut k: usize = 0;
    while k < called.len()
        invariant
            k <= called.len(),
            outputs.len() == k,
            forall|i: int| 0 <= i < k ==> is_output(called@[i], #[trigger] texts(outputs@)[i]),
        decreases called.len() - k,
    {
        let output = evaluate(called[k]);
        let ghost before = texts(outputs@);
        outputs.push(output);
        assert(texts(outputs@) =~= before.push(output@));
        assert(is_output(called@[k as int], output@));
        k += 1;
    }
    assert(evaluation_of(calls(content@, envs@), texts(outputs@)));
    assert(outputs@.len() == 0 ==> texts(outputs@) =~= Seq::<Seq<char>>::empty());
    fill(text.as_slice(), &ranges, envs, &outputs)
}

} // verus!
