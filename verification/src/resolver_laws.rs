//! What holds of interpolation for every text and every environment.

use crate::environment::{layer_lookup, lookup, LayerView, ValueView};
use crate::resolver::{
    closes_at, first_placeholder, key_at, next_placeholder, no_placeholder, opens_at, output_at,
    placeholder_at, resolved, resolved_from, substitution, unresolved_marker, lemma_next_is,
    lemma_next_is_none, SubstitutionView,
};
use crate::text::trimmed;
use vstd::prelude::*;

verus! {

/// The first placeholder from a position on, where the text has one, is a placeholder with
/// none before it; where it has none, no placeholder starts at that position or later.
pub proof fn lemma_next_placeholder(s: Seq<char>, from: int)
    requires
        0 <= from,
    ensures
        match next_placeholder(s, from) {
            Some((start, end)) => first_placeholder(s, from, start, end) && from <= start
                && start + 4 <= end <= s.len(),
            None => forall|start: int, end: int| !first_placeholder(s, from, start, end),
        },
{
    reveal(next_placeholder);
    reveal(first_placeholder);
}

/// A text without placeholders resolves to itself, whatever the environment holds.
pub proof fn lemma_plain_text_unchanged(
    s: Seq<char>,
    layers: Seq<LayerView>,
    outputs: Seq<Seq<char>>,
)
    requires
        no_placeholder(s, 0),
    ensures
        resolved(s, layers, outputs) == s,
{
    lemma_next_is_none(s, 0);
    assert(s.subrange(0, s.len() as int) =~= s);
}

/// Resolution goes placeholder by placeholder: the text before the first placeholder stays
/// as it is, the placeholder gives way to what its key stands for, and what follows it is
/// resolved in the same way. What is put in is not looked at again.
pub proof fn lemma_resolved_step(
    s: Seq<char>,
    layers: Seq<LayerView>,
    outputs: Seq<Seq<char>>,
    from: int,
    used: int,
    start: int,
    end: int,
)
    requires
        first_placeholder(s, from, start, end),
    ensures
        resolved_from(s, layers, outputs, from, used) == s.subrange(from, start) + (
        match substitution(layers, key_at(s, start, end)) {
            SubstitutionView::Text(text) => text + resolved_from(s, layers, outputs, end, used),
            SubstitutionView::Call(_) => output_at(outputs, used) + resolved_from(
                s,
                layers,
                outputs,
                end,
                used + 1,
            ),
        }),
{
    lemma_next_is(s, from, start, end);
}

/// A placeholder whose key an enabled literal entry answers gives way to exactly the text
/// of that entry, also where that text holds placeholders of its own.
pub proof fn lemma_literal_substituted(
    s: Seq<char>,
    layers: Seq<LayerView>,
    outputs: Seq<Seq<char>>,
    from: int,
    used: int,
    start: int,
    end: int,
    value: Seq<char>,
)
    requires
        first_placeholder(s, from, start, end),
        lookup(layers, key_at(s, start, end)) == Some(ValueView::Literal(value)),
    ensures
        resolved_from(s, layers, outputs, from, used) == s.subrange(from, start) + (value
            + resolved_from(s, layers, outputs, end, used)),
{
    lemma_resolved_step(s, layers, outputs, from, used, start, end);
}

/// A placeholder whose key no enabled entry of any layer answers gives way to the marker.
pub proof fn lemma_unknown_key_marked(
    s: Seq<char>,
    layers: Seq<LayerView>,
    outputs: Seq<Seq<char>>,
    from: int,
    used: int,
    start: int,
    end: int,
)
    requires
        first_placeholder(s, from, start, end),
        lookup(layers, key_at(s, start, end)) is None,
    ensures
        resolved_from(s, layers, outputs, from, used) == s.subrange(from, start) + (
        unresolved_marker() + resolved_from(s, layers, outputs, end, used)),
{
    lemma_resolved_step(s, layers, outputs, from, used, start, end);
}

/// The first layer that answers for a key decides what the key stands for: the layers
/// behind it are not asked.
pub proof fn lemma_first_layer_wins(layers: Seq<LayerView>, key: Seq<char>, at: int)
    requires
        0 <= at < layers.len(),
        layer_lookup(layers[at].entries, key) is Some,
        forall|before: int| 0 <= before < at ==> layer_lookup(layers[before].entries, key) is None,
    ensures
        lookup(layers, key) == layer_lookup(layers[at].entries, key),
    decreases at,
{
    if at > 0 {
        let rest = layers.drop_first();
        assert(layer_lookup(layers[0].entries, key) is None);
        assert(rest[at - 1] == layers[at]);
        assert forall|before: int| 0 <= before < at - 1 implies layer_lookup(
            rest[before].entries,
            key,
        ) is None by {
            assert(rest[before] == layers[before + 1]);
        }
        lemma_first_layer_wins(rest, key, at - 1);
    }
}

/// Where no layer answers for a key, the key stands for nothing.
pub proof fn lemma_no_layer_answers(layers: Seq<LayerView>, key: Seq<char>)
    requires
        forall|at: int| 0 <= at < layers.len() ==> layer_lookup(layers[at].entries, key) is None,
    ensures
        lookup(layers, key) is None,
    decreases layers.len(),
{
    if layers.len() > 0 {
        let rest = layers.drop_first();
        assert(layer_lookup(layers[0].entries, key) is None);
        assert forall|at: int| 0 <= at < rest.len() implies layer_lookup(
            rest[at].entries,
            key,
        ) is None by {
            assert(rest[at] == layers[at + 1]);
        }
        lemma_no_layer_answers(rest, key);
    }
}

/// Whether `s[start..end]` is a placeholder depends on these characters alone: a text that
/// holds the same characters at another place has a placeholder there.
pub proof fn lemma_placeholder_window(
    s: Seq<char>,
    start: int,
    end: int,
    t: Seq<char>,
    at: int,
)
    requires
        0 <= start <= end <= s.len(),
        0 <= at,
        at + (end - start) <= t.len(),
        s.subrange(start, end) == t.subrange(at, at + (end - start)),
    ensures
        placeholder_at(s, start, end) == placeholder_at(t, at, at + (end - start)),
{
    let shift = at - start;
    let window = s.subrange(start, end);
    assert forall|k: int| start <= k < end implies s[k] == t[k + shift] by {
        assert(s[k] == window[k - start]);
        assert(t[k + shift] == t.subrange(at, at + (end - start))[k - start]);
    }
    if placeholder_at(s, start, end) {
        assert(s[start] == t[start + shift] && s[start + 1] == t[start + 1 + shift]);
        assert(s[end - 2] == t[end - 2 + shift] && s[end - 1] == t[end - 1 + shift]);
        assert forall|k: int|
            #![trigger t[k]]
            #![trigger closes_at(t, k)]
            at + 2 <= k < at + (end - start) - 2 implies t[k] != '\n' && !closes_at(t, k) by {
            assert(!closes_at(s, k - shift));
            assert(s[k - shift] == t[k - shift + shift] && s[k + 1 - shift] == t[k + 1 - shift
                + shift]);
        }
    }
    if placeholder_at(t, at, at + (end - start)) {
        assert(s[start] == t[start + shift] && s[start + 1] == t[start + 1 + shift]);
        assert(s[end - 2] == t[end - 2 + shift] && s[end - 1] == t[end - 1 + shift]);
        assert forall|k: int|
            #![trigger s[k]]
            #![trigger closes_at(s, k)]
            start + 2 <= k < end - 2 implies s[k] != '\n' && !closes_at(s, k) by {
            assert(!closes_at(t, k + shift));
            assert(s[k] == t[k + shift] && s[k + 1] == t[k + 1 + shift]);
        }
    }
}

/// Among the placeholders that start at `from` or later there is a first one, if there is
/// one at all.
pub proof fn lemma_first_exists(s: Seq<char>, from: int, start: int, end: int)
    requires
        0 <= from <= start,
        placeholder_at(s, start, end),
    ensures
        exists|a: int, b: int| first_placeholder(s, from, a, b),
    decreases start - from,
{
    reveal(first_placeholder);
    if exists|i: int, e: int| from <= i < start && placeholder_at(s, i, e) {
        let (i, e) = choose|i: int, e: int| from <= i < start && placeholder_at(s, i, e);
        lemma_first_exists(s, from, i, e);
    } else {
        assert(first_placeholder(s, from, start, end));
    }
}

/// A text whose search for a placeholder from `from` on finds none has none from there on.
pub proof fn lemma_none_found(s: Seq<char>, from: int)
    requires
        0 <= from,
        next_placeholder(s, from) is None,
    ensures
        no_placeholder(s, from),
{
    reveal(no_placeholder);
    assert forall|i: int, e: int| from <= i implies !#[trigger] placeholder_at(s, i, e) by {
        if placeholder_at(s, i, e) {
            lemma_first_exists(s, from, i, e);
            lemma_next_placeholder(s, from);
        }
    }
}

/// The placeholders behind a position are those of the text that starts at that position.
pub proof fn lemma_first_placeholder_shift(s: Seq<char>, cut: int, from: int, start: int, end: int)
    requires
        0 <= cut <= from,
        cut <= s.len(),
    ensures
        first_placeholder(s, from, start, end) == first_placeholder(
            s.skip(cut),
            from - cut,
            start - cut,
            end - cut,
        ),
{
    reveal(first_placeholder);
    let t = s.skip(cut);
    assert forall|i: int, e: int| cut <= i <= e <= s.len() implies #[trigger] placeholder_at(s, i, e)
        == placeholder_at(t, i - cut, e - cut) by {
        assert(s.subrange(i, e) =~= t.subrange(i - cut, e - cut));
        lemma_placeholder_window(s, i, e, t, i - cut);
    }
    if first_placeholder(s, from, start, end) {
        assert(placeholder_at(t, start - cut, end - cut));
        assert forall|i: int, e: int| from - cut <= i < start - cut implies !#[trigger] placeholder_at(
            t,
            i,
            e,
        ) by {
            if placeholder_at(t, i, e) {
                assert(placeholder_at(s, i + cut, e + cut));
            }
        }
    }
    if first_placeholder(t, from - cut, start - cut, end - cut) {
        assert(placeholder_at(s, start, end));
        assert forall|i: int, e: int| from <= i < start implies !#[trigger] placeholder_at(
            s,
            i,
            e,
        ) by {
            if placeholder_at(s, i, e) {
                assert(placeholder_at(t, i - cut, e - cut));
            }
        }
    }
}

/// The search for a placeholder behind a position finds what it finds in the text that
/// starts at that position.
pub proof fn lemma_next_shift(s: Seq<char>, cut: int, from: int)
    requires
        0 <= cut <= from,
        cut <= s.len(),
    ensures
        next_placeholder(s.skip(cut), from - cut) == match next_placeholder(s, from) {
            Some((start, end)) => Some((start - cut, end - cut)),
            None => None,
        },
{
    let t = s.skip(cut);
    lemma_next_placeholder(s, from);
    lemma_next_placeholder(t, from - cut);
    match next_placeholder(s, from) {
        Some((start, end)) => {
            lemma_first_placeholder_shift(s, cut, from, start, end);
            lemma_next_is(t, from - cut, start - cut, end - cut);
        },
        None => {
            match next_placeholder(t, from - cut) {
                Some((start, end)) => {
                    lemma_first_placeholder_shift(s, cut, from, start + cut, end + cut);
                },
                None => {},
            }
        },
    }
}

/// What a text resolves to behind a position does not depend on what stands before it.
pub proof fn lemma_resolved_shift(
    s: Seq<char>,
    layers: Seq<LayerView>,
    outputs: Seq<Seq<char>>,
    cut: int,
    from: int,
    used: int,
)
    requires
        0 <= cut <= from <= s.len(),
    ensures
        resolved_from(s, layers, outputs, from, used) == resolved_from(
            s.skip(cut),
            layers,
            outputs,
            from - cut,
            used,
        ),
    decreases s.len() - from,
{
    let t = s.skip(cut);
    lemma_next_shift(s, cut, from);
    lemma_next_placeholder(s, from);
    match next_placeholder(s, from) {
        Some((start, end)) => {
            assert(s.subrange(from, start) =~= t.subrange(from - cut, start - cut));
            assert(s.subrange(start + 2, end - 2) =~= t.subrange(start - cut + 2, end - cut - 2));
            lemma_resolved_shift(s, layers, outputs, cut, end, used);
            lemma_resolved_shift(s, layers, outputs, cut, end, used + 1);
        },
        None => {
            assert(s.subrange(from, s.len() as int) =~= t.subrange(from - cut, t.len() as int));
        },
    }
}

/// A placeholder that is written out between two texts: where the text before it holds no
/// opening brace and what stands between its braces neither a brace nor a line feed, the key
/// is that text without the white space around it. Where the key stands for a text, that
/// text takes the place of the placeholder, the text before it stays as it is, and the text
/// behind it is resolved by itself. The text put in is not resolved, also where it holds
/// placeholders.
pub proof fn lemma_placeholder_between(
    before: Seq<char>,
    inner: Seq<char>,
    after: Seq<char>,
    layers: Seq<LayerView>,
    outputs: Seq<Seq<char>>,
    text: Seq<char>,
)
    requires
        forall|i: int| 0 <= i < before.len() ==> before[i] != '{',
        forall|i: int|
            0 <= i < inner.len() ==> inner[i] != '{' && inner[i] != '}' && inner[i] != '\n',
        substitution(layers, trimmed(inner)) == SubstitutionView::Text(text),
    ensures
        resolved(before + seq!['{', '{'] + inner + seq!['}', '}'] + after, layers, outputs)
            == before + text + resolved(after, layers, outputs),
{
    let s = before + seq!['{', '{'] + inner + seq!['}', '}'] + after;
    let start = before.len() as int;
    let end = start + inner.len() + 4;
    assert forall|k: int| 0 <= k < start implies s[k] == before[k] by {}
    assert(s[start] == '{' && s[start + 1] == '{');
    assert forall|k: int| start + 2 <= k < end - 2 implies s[k] == inner[k - start - 2] by {}
    assert(s[end - 2] == '}' && s[end - 1] == '}');
    assert(placeholder_at(s, start, end));
    assert(first_placeholder(s, 0, start, end)) by {
        reveal(first_placeholder);
    }
    assert(s.subrange(start + 2, end - 2) =~= inner);
    assert(!opens_at(inner, 0));
    assert(key_at(s, start, end) == trimmed(inner));
    assert(s.subrange(0, start) =~= before);
    assert(s.skip(end) =~= after);
    lemma_resolved_step(s, layers, outputs, 0, 0, start, end);
    lemma_resolved_shift(s, layers, outputs, end, end, 0);
    assert(before + (text + resolved(after, layers, outputs)) =~= before + text + resolved(
        after,
        layers,
        outputs,
    ));
}

/// Each placeholder of `s` from `from` on gives way to the marker: no enabled entry answers
/// for its key, or the function value that does is no call of a builtin function.
pub open spec fn unresolved_from(s: Seq<char>, layers: Seq<LayerView>, from: int) -> bool
    decreases s.len() - from,
{
    match next_placeholder(s, from) {
        Some((start, end)) => if from <= start < end <= s.len() {
            substitution(layers, key_at(s, start, end)) == SubstitutionView::Text(
                unresolved_marker(),
            ) && unresolved_from(s, layers, end)
        } else {
            true
        },
        None => true,
    }
}

/// The marker in the place of a placeholder makes no new placeholder, neither by itself nor
/// together with the text around it.
pub proof fn lemma_marker_seals(s: Seq<char>, from: int, start: int, end: int, rest: Seq<char>)
    requires
        first_placeholder(s, from, start, end),
        no_placeholder(rest, 0),
    ensures
        no_placeholder(s.subrange(from, start) + unresolved_marker() + rest, 0),
{
    reveal(first_placeholder);
    reveal(no_placeholder);
    reveal_strlit("{UNKNOWN}");
    let gap = s.subrange(from, start);
    let marker = unresolved_marker();
    let out = gap + marker + rest;
    let g = gap.len() as int;
    assert(marker.len() == 9);
    assert forall|k: int| 0 <= k < g implies out[k] == s[from + k] by {}
    assert forall|k: int| g <= k < g + 9 implies out[k] == marker[k - g] by {}
    assert forall|k: int| g + 9 <= k < out.len() implies out[k] == rest[k - g - 9] by {}
    assert forall|i: int, x: int| 0 <= i implies !#[trigger] placeholder_at(out, i, x) by {
        if placeholder_at(out, i, x) {
            if i >= g + 9 {
                assert(out.subrange(i, x) =~= rest.subrange(i - g - 9, x - g - 9));
                lemma_placeholder_window(out, i, x, rest, i - g - 9);
                assert(placeholder_at(rest, i - g - 9, x - g - 9));
            } else if i >= g {
                assert(out[i] == marker[i - g]);
                if i + 1 < g + 9 {
                    assert(out[i + 1] == marker[i + 1 - g]);
                }
            } else if i + 1 == g {
                assert(out[i] == s[start - 1]);
                assert(out[i + 1] == marker[0]);
                assert forall|k: int|
                    #![trigger s[k]]
                    #![trigger closes_at(s, k)]
                    start + 1 <= k < end - 2 implies s[k] != '\n' && !closes_at(s, k) by {}
                assert(placeholder_at(s, start - 1, end));
            } else {
                let p = from + i;
                assert(out[i] == s[p] && out[i + 1] == s[p + 1]);
                if x <= g {
                    assert(out.subrange(i, x) =~= s.subrange(p, from + x));
                    lemma_placeholder_window(out, i, x, s, p);
                    assert(placeholder_at(s, p, from + x));
                } else {
                    if x - 1 == g {
                        assert(out[x - 1] == marker[0]);
                    }
                    assert(x - 2 >= g);
                    assert forall|k: int|
                        #![trigger s[k]]
                        #![trigger closes_at(s, k)]
                        p + 2 <= k < end - 2 implies s[k] != '\n' && !closes_at(s, k) by {
                        if k < start {
                            assert(out[k - from] == s[k]);
                            assert(!closes_at(out, k - from));
                            if k + 1 < start {
                                assert(out[k + 1 - from] == s[k + 1]);
                            }
                        }
                    }
                    assert(placeholder_at(s, p, end));
                }
            }
        }
    }
}

/// Where every placeholder gives way to the marker, the outcome holds no placeholder.
pub proof fn lemma_unresolved_output_is_plain(
    s: Seq<char>,
    layers: Seq<LayerView>,
    outputs: Seq<Seq<char>>,
    from: int,
    used: int,
)
    requires
        0 <= from <= s.len(),
        unresolved_from(s, layers, from),
    ensures
        no_placeholder(resolved_from(s, layers, outputs, from, used), 0),
    decreases s.len() - from,
{
    lemma_next_placeholder(s, from);
    match next_placeholder(s, from) {
        Some((start, end)) => {
            lemma_unresolved_output_is_plain(s, layers, outputs, end, used);
            let rest = resolved_from(s, layers, outputs, end, used);
            lemma_marker_seals(s, from, start, end, rest);
            assert(s.subrange(from, start) + (unresolved_marker() + rest) =~= s.subrange(from, start)
                + unresolved_marker() + rest);
        },
        None => {
            lemma_none_found(s, from);
            let tail = s.subrange(from, s.len() as int);
            reveal(no_placeholder);
            assert forall|i: int, x: int| 0 <= i implies !#[trigger] placeholder_at(tail, i, x) by {
                if placeholder_at(tail, i, x) {
                    assert(tail.subrange(i, x) =~= s.subrange(from + i, from + x));
                    lemma_placeholder_window(tail, i, x, s, from + i);
                    assert(placeholder_at(s, from + i, from + x));
                }
            }
        },
    }
}

/// Resolving what came out of a text whose placeholders all gave way to the marker changes
/// nothing: the marker is not expanded.
pub proof fn lemma_unresolved_output_is_final(
    s: Seq<char>,
    layers: Seq<LayerView>,
    outputs: Seq<Seq<char>>,
    again: Seq<Seq<char>>,
)
    requires
        unresolved_from(s, layers, 0),
    ensures
        resolved(resolved(s, layers, outputs), layers, again) == resolved(s, layers, outputs),
{
    lemma_unresolved_output_is_plain(s, layers, outputs, 0, 0);
    lemma_plain_text_unchanged(resolved(s, layers, outputs), layers, again);
}

} // verus!
