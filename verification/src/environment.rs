//! Layered environments: named values that a placeholder can stand for.

use vstd::prelude::*;

verus! {

/// What an entry holds: text to put in as it is, or the call of a builtin function.
#[derive(Clone, Debug)]
pub enum EnvironmentValue {
    Literal(String),
    Function(String),
}

/// An `EnvironmentValue` as mathematical data.
pub enum ValueView {
    Literal(Seq<char>),
    Function(Seq<char>),
}

impl View for EnvironmentValue {
    type V = ValueView;

    open spec fn view(&self) -> ValueView {
        match self {
            EnvironmentValue::Literal(text) => ValueView::Literal(text@),
            EnvironmentValue::Function(call) => ValueView::Function(call@),
        }
    }
}

/// One named value of a layer. A disabled entry takes no part in resolution.
#[derive(Clone, Debug)]
pub struct EnvironmentEntry {
    pub key: String,
    pub value: EnvironmentValue,
    pub enabled: bool,
}

/// An `EnvironmentEntry` as mathematical data.
pub struct EntryView {
    pub key: Seq<char>,
    pub value: ValueView,
    pub enabled: bool,
}

impl View for EnvironmentEntry {
    type V = EntryView;

    open spec fn view(&self) -> EntryView {
        EntryView { key: self.key@, value: self.value@, enabled: self.enabled }
    }
}

/// A named set of entries, in the order in which they were added.
#[derive(Clone, Debug)]
pub struct EnvironmentLayer {
    pub name: String,
    pub entries: Vec<EnvironmentEntry>,
}

/// An `EnvironmentLayer` as mathematical data.
pub struct LayerView {
    pub name: Seq<char>,
    pub entries: Seq<EntryView>,
}

impl View for EnvironmentLayer {
    type V = LayerView;

    open spec fn view(&self) -> LayerView {
        LayerView {
            name: self.name@,
            entries: Seq::new(self.entries@.len(), |i: int| self.entries@[i]@),
        }
    }
}

/// Layers in the order of their priority: the first one is searched first.
#[derive(Clone, Debug)]
pub struct Environment {
    pub layers: Vec<EnvironmentLayer>,
}

impl View for Environment {
    type V = Seq<LayerView>;

    open spec fn view(&self) -> Seq<LayerView> {
        Seq::new(self.layers@.len(), |i: int| self.layers@[i]@)
    }
}

/// The entry answers for `key`: it is enabled and stands under that key.
pub open spec fn answers(entry: EntryView, key: Seq<char>) -> bool {
    entry.enabled && entry.key == key
}

/// What `key` stands for in one layer: the value of the first entry that answers for it.
pub open spec fn layer_lookup(entries: Seq<EntryView>, key: Seq<char>) -> Option<ValueView>
    decreases entries.len(),
{
    if entries.len() == 0 {
        None
    } else if answers(entries[0], key) {
        Some(entries[0].value)
    } else {
        layer_lookup(entries.drop_first(), key)
    }
}

/// What `key` stands for in the layers: the answer of the first layer that has one.
pub open spec fn lookup(layers: Seq<LayerView>, key: Seq<char>) -> Option<ValueView>
    decreases layers.len(),
{
    if layers.len() == 0 {
        None
    } else {
        match layer_lookup(layers[0].entries, key) {
            Some(value) => Some(value),
            None => lookup(layers.drop_first(), key),
        }
    }
}

/// No two entries of the layer have the same key.
pub open spec fn unique_keys(entries: Seq<EntryView>) -> bool {
    forall|i: int, j: int|
        0 <= i < j < entries.len() ==> (#[trigger] entries[i]).key != (#[trigger] entries[j]).key
}

/// The position of the first entry under `key`, or the number of entries if there is none.
pub open spec fn key_position(entries: Seq<EntryView>, key: Seq<char>) -> int
    decreases entries.len(),
{
    if entries.len() == 0 {
        0
    } else if entries[0].key == key {
        0
    } else {
        1 + key_position(entries.drop_first(), key)
    }
}

/// `key_position` is the least position whose entry stands under `key`.
pub proof fn lemma_key_position(entries: Seq<EntryView>, key: Seq<char>)
    ensures
        0 <= key_position(entries, key) <= entries.len(),
        key_position(entries, key) < entries.len() ==> entries[key_position(entries, key)].key
            == key,
        forall|i: int| 0 <= i < key_position(entries, key) ==> (#[trigger] entries[i]).key != key,
    decreases entries.len(),
{
    if entries.len() > 0 && entries[0].key != key {
        let rest = entries.drop_first();
        lemma_key_position(rest, key);
        assert forall|i: int| 0 <= i < key_position(entries, key) implies (#[trigger] entries[i]).key
            != key by {
            if i > 0 {
                assert(entries[i] == rest[i - 1]);
            }
        }
    }
}

/// In a layer that holds each key once, a key stands for the value of its one entry if
/// that entry is enabled, and for nothing if it is not.
pub proof fn lemma_one_entry_answers(entries: Seq<EntryView>, key: Seq<char>, at: int)
    requires
        unique_keys(entries),
        0 <= at < entries.len(),
        entries[at].key == key,
    ensures
        layer_lookup(entries, key) == if entries[at].enabled {
            Some(entries[at].value)
        } else {
            None
        },
    decreases entries.len(),
{
    let rest = entries.drop_first();
    assert forall|i: int, j: int| 0 <= i < j < rest.len() implies (#[trigger] rest[i]).key != (
    #[trigger] rest[j]).key by {
        assert(rest[i] == entries[i + 1] && rest[j] == entries[j + 1]);
    }
    if at > 0 {
        assert(entries[0].key != entries[at].key);
        assert(rest[at - 1] == entries[at]);
        lemma_one_entry_answers(rest, key, at - 1);
    } else if !entries[0].enabled {
        lemma_no_entry_answers(rest, key);
    }
}

/// A layer without an enabled entry under a key has no answer for it.
pub proof fn lemma_no_entry_answers(entries: Seq<EntryView>, key: Seq<char>)
    requires
        forall|i: int| 0 <= i < entries.len() ==> !answers(#[trigger] entries[i], key),
    ensures
        layer_lookup(entries, key) is None,
    decreases entries.len(),
{
    if entries.len() > 0 {
        let rest = entries.drop_first();
        assert(!answers(entries[0], key));
        assert forall|i: int| 0 <= i < rest.len() implies !answers(#[trigger] rest[i], key) by {
            assert(rest[i] == entries[i + 1]);
        }
        lemma_no_entry_answers(rest, key);
    }
}

/// The entries with `entry` put in: in the place of the first entry under its key, or at the
/// end where the key is new.
pub open spec fn with_entry(entries: Seq<EntryView>, entry: EntryView) -> Seq<EntryView> {
    let at = key_position(entries, entry.key);
    if at < entries.len() {
        entries.update(at, entry)
    } else {
        entries.push(entry)
    }
}

/// A position whose entry stands under `key`, with no such entry before it, is
/// `key_position`; so is the number of entries where none stands under `key`.
pub proof fn lemma_key_found(entries: Seq<EntryView>, key: Seq<char>, at: int)
    requires
        0 <= at <= entries.len(),
        at < entries.len() ==> entries[at].key == key,
        forall|i: int| 0 <= i < at ==> (#[trigger] entries[i]).key != key,
    ensures
        key_position(entries, key) == at,
{
    lemma_key_position(entries, key);
    let p = key_position(entries, key);
    if p < at {
        assert(entries[p].key == key);
    }
}

/// A layer that holds each key once still does when an entry is put in.
pub proof fn lemma_with_entry_unique(entries: Seq<EntryView>, entry: EntryView)
    requires
        unique_keys(entries),
    ensures
        unique_keys(with_entry(entries, entry)),
{
    lemma_key_position(entries, entry.key);
    let at = key_position(entries, entry.key);
    let after = with_entry(entries, entry);
    assert forall|a: int, b: int| 0 <= a < b < after.len() implies (#[trigger] after[a]).key != (
    #[trigger] after[b]).key by {
        if at < entries.len() {
            assert(entries[a].key != entries[b].key);
            assert(entries[at].key == entry.key);
        } else if b < entries.len() {
            assert(entries[a].key != entries[b].key);
        } else {
            assert(entries[a].key != entry.key);
        }
    }
}

impl EnvironmentEntry {
    /// An enabled entry that stands for the text `value`.
    pub fn literal(key: String, value: String) -> (entry: EnvironmentEntry)
        ensures
            entry@ == (EntryView { key: key@, value: ValueView::Literal(value@), enabled: true }),
    {
        EnvironmentEntry { key, value: EnvironmentValue::Literal(value), enabled: true }
    }

    /// An enabled entry that stands for the builtin call written in `call`.
    pub fn function(key: String, call: String) -> (entry: EnvironmentEntry)
        ensures
            entry@ == (EntryView { key: key@, value: ValueView::Function(call@), enabled: true }),
    {
        EnvironmentEntry { key, value: EnvironmentValue::Function(call), enabled: true }
    }
}

impl EnvironmentLayer {
    /// The layer keeps its invariant: each key occurs once.
    pub open spec fn well_formed(&self) -> bool {
        unique_keys(self@.entries)
    }

    /// A layer without entries.
    pub fn new(name: String) -> (layer: EnvironmentLayer)
        ensures
            layer@.name == name@,
            layer@.entries.len() == 0,
            layer.well_formed(),
    {
        let layer = EnvironmentLayer { name, entries: Vec::new() };
        assert(layer@.entries =~= Seq::<EntryView>::empty());
        layer
    }

    /// Puts `entry` into the layer: in the place of the first entry with the same key, or at
    /// the end where the key is new. A layer that held each key once still does.
    pub fn insert(&mut self, entry: EnvironmentEntry)
        ensures
            final(self)@.name == old(self)@.name,
            final(self)@.entries == with_entry(old(self)@.entries, entry@),
            old(self).well_formed() ==> final(self).well_formed(),
    {
        let ghost before = self@.entries;
        proof {
            if unique_keys(before) {
                lemma_with_entry_unique(before, entry@);
            }
        }
        let mut i: usize = 0;
        while i < self.entries.len()
            invariant
                *self == *old(self),
                i <= self.entries@.len(),
                forall|k: int| 0 <= k < i ==> (#[trigger] before[k]).key != entry@.key,
                before == self@.entries,
            decreases self.entries@.len() - i,
        {
            if self.entries[i].key == entry.key {
                proof {
                    assert(before[i as int].key == entry@.key);
                    lemma_key_found(before, entry@.key, i as int);
                }
                let ghost replaced = entry@;
                self.entries.set(i, entry);
                assert(self@.entries =~= before.update(i as int, replaced));
                return ;
            }
            assert(before[i as int].key != entry@.key);
            i += 1;
        }
        proof {
            lemma_key_found(before, entry@.key, before.len() as int);
        }
        let ghost added = entry@;
        self.entries.push(entry);
        assert(self@.entries =~= before.push(added));
    }

    /// The value that `key` stands for in this layer.
    pub fn get(&self, key: &String) -> (found: Option<&EnvironmentValue>)
        ensures
            match found {
                Some(value) => layer_lookup(self@.entries, key@) == Some(value@),
                None => layer_lookup(self@.entries, key@) is None,
            },
    {
        let ghost entries = self@.entries;
        let mut i: usize = 0;
        assert(entries.skip(0) =~= entries);
        while i < self.entries.len()
            invariant
                i <= self.entries@.len(),
                entries == self@.entries,
                layer_lookup(entries, key@) == layer_lookup(entries.skip(i as int), key@),
            decreases self.entries@.len() - i,
        {
            let entry = &self.entries[i];
            assert(entries.skip(i as int)[0] == entry@);
            if entry.enabled && entry.key == *key {
                return Some(&entry.value);
            }
            assert(entries.skip(i as int).drop_first() =~= entries.skip(i + 1));
            i += 1;
        }
        None
    }
}

impl Environment {
    /// An environment without layers.
    pub fn new() -> (environment: Environment)
        ensures
            environment@.len() == 0,
    {
        Environment { layers: Vec::new() }
    }

    /// Adds `layer` below the layers already there: it is searched after them.
    pub fn push_layer(&mut self, layer: EnvironmentLayer)
        ensures
            final(self)@ == old(self)@.push(layer@),
    {
        self.layers.push(layer);
        assert(self@ =~= old(self)@.push(layer@));
    }

    /// The value that `key` stands for: that of the first layer with an enabled entry under it.
    pub fn get(&self, key: &String) -> (found: Option<&EnvironmentValue>)
        ensures
            match found {
                Some(value) => lookup(self@, key@) == Some(value@),
                None => lookup(self@, key@) is None,
            },
    {
        let ghost layers = self@;
        let mut i: usize = 0;
        assert(layers.skip(0) =~= layers);
        while i < self.layers.len()
            invariant
                i <= self.layers@.len(),
                layers == self@,
                lookup(layers, key@) == lookup(layers.skip(i as int), key@),
            decreases self.layers@.len() - i,
        {
            assert(layers.skip(i as int)[0] == self.layers@[i as int]@);
            match self.layers[i].get(key) {
                Some(value) => {
                    return Some(value);
                },
                None => {},
            }
            assert(layers.skip(i as int).drop_first() =~= layers.skip(i + 1));
            i += 1;
        }
        None
    }
}

} // verus!
