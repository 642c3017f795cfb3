//! The ordered maps of the wire format (`indexmap::IndexMap` keyed by
//! `String`) and JSON values (`serde_json::Value`), as Verus sees them.
//!
//! An `IndexMap` is described by the sequence of its `(key, value)` entries
//! in insertion order; keys are compared by their characters.
use indexmap::IndexMap;
use serde_json::Value;
use vstd::prelude::*;

use crate::wire::{Entry, Question, WireAnswer};

verus! {

#[verifier::external_type_specification]
#[verifier::external_body]
#[verifier::reject_recursive_types(K)]
#[verifier::reject_recursive_types(V)]
#[verifier::reject_recursive_types(S)]
pub struct ExIndexMap<K, V, S>(IndexMap<K, V, S>);

#[verifier::external_type_specification]
#[verifier::external_body]
pub struct ExJsonValue(Value);

/// No key occurs twice.
pub open spec fn keys_distinct<V>(e: Seq<(Seq<char>, V)>) -> bool {
    forall|i: int, j: int| 0 <= i < j < e.len() ==> #[trigger] e[i].0 != #[trigger] e[j].0
}

/// Some entry has key `k`.
pub open spec fn has_key<V>(e: Seq<(Seq<char>, V)>, k: Seq<char>) -> bool {
    exists|i: int| 0 <= i < e.len() && #[trigger] e[i].0 == k
}

/// Position of the entry with key `k` (meaningful when `has_key`).
pub open spec fn key_position<V>(e: Seq<(Seq<char>, V)>, k: Seq<char>) -> int {
    choose|i: int| 0 <= i < e.len() && #[trigger] e[i].0 == k
}

/// The value stored under `k`.
pub open spec fn lookup<V>(e: Seq<(Seq<char>, V)>, k: Seq<char>) -> Option<V> {
    if has_key(e, k) {
        Some(e[key_position(e, k)].1)
    } else {
        None
    }
}

/// Entries after inserting `(k, v)`: an existing key keeps its place and
/// takes the new value; a new key goes last.
pub open spec fn with_entry<V>(e: Seq<(Seq<char>, V)>, k: Seq<char>, v: V) -> Seq<(Seq<char>, V)> {
    if has_key(e, k) {
        e.update(key_position(e, k), (k, v))
    } else {
        e.push((k, v))
    }
}

/// The keys of the entries, in order.
pub open spec fn keys_of<V>(e: Seq<(Seq<char>, V)>) -> Seq<Seq<char>> {
    e.map_values(|p: (Seq<char>, V)| p.0)
}

/// Entries of a map from question ids to questions.
pub uninterp spec fn question_entries(m: IndexMap<String, Question>) -> Seq<(Seq<char>, Question)>;

/// Entries of a map from option labels to descriptions.
pub uninterp spec fn criteria_entries(m: IndexMap<String, Entry>) -> Seq<(Seq<char>, Entry)>;

/// Entries of a map from question ids to answers.
pub uninterp spec fn answer_entries(m: IndexMap<String, WireAnswer>) -> Seq<(Seq<char>, WireAnswer)>;

/// Entries of a map from labels to probabilities (binary64 bit patterns).
pub uninterp spec fn prob_entries(m: IndexMap<String, u64>) -> Seq<(Seq<char>, u64)>;

/// Entries of a map from level indices to JSON descriptions.
pub uninterp spec fn legend_entries(m: IndexMap<String, Value>) -> Seq<(Seq<char>, Value)>;

/// `IndexMap::len` for question maps.
#[verifier::external_body]
pub(crate) fn questions_len(m: &IndexMap<String, Question>) -> (n: usize)
    ensures
        n == question_entries(*m).len(),
{
    m.len()
}

/// `IndexMap::get_index` for question maps: the entry at position `i`,
/// whose key no other entry has (an `IndexMap` holds each key once).
#[verifier::external_body]
pub(crate) fn questions_get_index(m: &IndexMap<String, Question>, i: usize) -> (r: Option<
    (&String, &Question),
>)
    ensures
        r is Some <==> i < question_entries(*m).len(),
        r matches Some(p) ==> p.0@ == question_entries(*m)[i as int].0 && *p.1
            == question_entries(*m)[i as int].1,
        r matches Some(p) ==> forall|j: int|
            0 <= j < question_entries(*m).len() && j != i ==> #[trigger] question_entries(*m)[j].0
                != p.0@,
{
    m.get_index(i)
}

/// `IndexMap::with_capacity` for criteria maps: an empty map.
#[verifier::external_body]
pub(crate) fn criteria_with_capacity(n: usize) -> (m: IndexMap<String, Entry>)
    ensures
        criteria_entries(m) == Seq::<(Seq<char>, Entry)>::empty(),
{
    IndexMap::with_capacity(n)
}

/// `IndexMap::insert` for criteria maps.
#[verifier::external_body]
pub(crate) fn criteria_insert(m: &mut IndexMap<String, Entry>, k: String, v: Entry) -> (r: Option<Entry>)
    ensures
        criteria_entries(*final(m)) == with_entry(criteria_entries(*old(m)), k@, v),
        r == lookup(criteria_entries(*old(m)), k@),
{
    m.insert(k, v)
}

/// `IndexMap::len` for criteria maps.
#[verifier::external_body]
pub(crate) fn criteria_len(m: &IndexMap<String, Entry>) -> (n: usize)
    ensures
        n == criteria_entries(*m).len(),
{
    m.len()
}

/// `IndexMap::get_index` for criteria maps.
#[verifier::external_body]
pub(crate) fn criteria_get_index(m: &IndexMap<String, Entry>, i: usize) -> (r: Option<(&String, &Entry)>)
    ensures
        r is Some <==> i < criteria_entries(*m).len(),
        r matches Some(p) ==> p.0@ == criteria_entries(*m)[i as int].0 && *p.1
            == criteria_entries(*m)[i as int].1,
{
    m.get_index(i)
}

/// `IndexMap::new` for answer maps.
#[verifier::external_body]
pub(crate) fn answers_new() -> (m: IndexMap<String, WireAnswer>)
    ensures
        answer_entries(m) == Seq::<(Seq<char>, WireAnswer)>::empty(),
{
    IndexMap::new()
}

/// `IndexMap::insert` for answer maps.
#[verifier::external_body]
pub(crate) fn answers_insert(m: &mut IndexMap<String, WireAnswer>, k: String, v: WireAnswer) -> (r: Option<
    WireAnswer,
>)
    ensures
        answer_entries(*final(m)) == with_entry(answer_entries(*old(m)), k@, v),
        r == lookup(answer_entries(*old(m)), k@),
{
    m.insert(k, v)
}

/// `IndexMap::get` for answer maps: the value stored under `k`.
#[verifier::external_body]
pub(crate) fn answers_get<'a>(m: &'a IndexMap<String, WireAnswer>, k: &str) -> (r: Option<&'a WireAnswer>)
    ensures
        r is Some <==> has_key(answer_entries(*m), k@),
        r matches Some(a) ==> lookup(answer_entries(*m), k@) == Some(*a),
{
    m.get(k)
}

/// `IndexMap::contains_key` for answer maps.
#[verifier::external_body]
pub(crate) fn answers_contains_key(m: &IndexMap<String, WireAnswer>, k: &str) -> (r: bool)
    ensures
        r == has_key(answer_entries(*m), k@),
{
    m.contains_key(k)
}

/// `IndexMap::get` for probability maps.
#[verifier::external_body]
pub(crate) fn probs_get(m: &IndexMap<String, u64>, k: &str) -> (r: Option<u64>)
    ensures
        r == lookup(prob_entries(*m), k@),
{
    m.get(k).copied()
}

/// `Clone::clone` for probability maps: the same entries.
#[verifier::external_body]
pub(crate) fn probs_clone(m: &IndexMap<String, u64>) -> (c: IndexMap<String, u64>)
    ensures
        prob_entries(c) == prob_entries(*m),
{
    m.clone()
}

/// `Clone::clone` for legend maps: the same entries.
#[verifier::external_body]
pub(crate) fn legend_clone(m: &IndexMap<String, Value>) -> (c: IndexMap<String, Value>)
    ensures
        legend_entries(c) == legend_entries(*m),
{
    m.clone()
}

} // verus!
