//! The ordered map from target URL to node state, kept in an
//! `indexmap::IndexMap`, and the trusted items through which the verified
//! code uses it.
//!
//! The contents of a map are named by `target_entries`: the sequence of its
//! (key, value) pairs in insertion order, each key taken by its view.
use vstd::prelude::*;
use indexmap::IndexMap;
use crate::state::NodeState;

verus! {

/// The (URL, state) pairs of a target map, in the map's order.
pub type TargetEntries = Seq<(Seq<char>, NodeState)>;

/// Declaration of `indexmap::IndexMap`, an insertion-ordered hash map.
#[verifier::external_type_specification]
#[verifier::external_body]
#[verifier::reject_recursive_types(K)]
#[verifier::reject_recursive_types(V)]
#[verifier::reject_recursive_types(S)]
pub struct ExIndexMap<K, V, S>(IndexMap<K, V, S>);

/// The entries of an `IndexMap<String, NodeState>`, in the map's order.
pub uninterp spec fn target_entries(m: IndexMap<String, NodeState>) -> Seq<(Seq<char>, NodeState)>;

/// No two entries have the same key.
pub open spec fn keys_distinct(e: TargetEntries) -> bool {
    forall|i: int, j: int|
        0 <= i < e.len() && 0 <= j < e.len() && i != j ==> #[trigger] e[i].0 != #[trigger] e[j].0
}

/// Some entry has key `k`.
pub open spec fn has_key(e: TargetEntries, k: Seq<char>) -> bool {
    exists|i: int| 0 <= i < e.len() && #[trigger] e[i].0 == k
}

/// The position of an entry with key `k` (the only one where keys are
/// distinct); meaningful where `has_key(e, k)`.
pub open spec fn key_index(e: TargetEntries, k: Seq<char>) -> int {
    choose|i: int| 0 <= i < e.len() && #[trigger] e[i].0 == k
}

/// Where keys are distinct, `key_index` finds the one entry with the key.
pub proof fn lemma_key_index(e: TargetEntries, k: Seq<char>)
    requires
        keys_distinct(e),
        has_key(e, k),
    ensures
        0 <= key_index(e, k) < e.len(),
        e[key_index(e, k)].0 == k,
        forall|j: int| 0 <= j < e.len() && e[j].0 == k ==> j == key_index(e, k),
{
}

/// `IndexMap::new`: a map with no entries.
#[verifier::external_body]
pub(crate) fn map_new() -> (m: IndexMap<String, NodeState>)
    ensures
        target_entries(m) == Seq::<(Seq<char>, NodeState)>::empty(),
{
    IndexMap::new()
}

/// `IndexMap::len`: the number of entries.
#[verifier::external_body]
pub(crate) fn map_len(m: &IndexMap<String, NodeState>) -> (n: usize)
    ensures
        n == target_entries(*m).len(),
{
    m.len()
}

/// `IndexMap::get_index`: the key and value of the entry at position
/// `index`, or `None` past the end.
#[verifier::external_body]
pub(crate) fn map_get_index(m: &IndexMap<String, NodeState>, index: usize) -> (r: Option<(&String, &NodeState)>)
    ensures
        index < target_entries(*m).len() ==> r is Some,
        index < target_entries(*m).len() ==> r.unwrap().0@ == target_entries(*m)[index as int].0,
        index < target_entries(*m).len() ==> *r.unwrap().1 == target_entries(*m)[index as int].1,
        index >= target_entries(*m).len() ==> r is None,
{
    m.get_index(index)
}

/// `IndexMap::insert`: where the key is present, its value is replaced in
/// place and the old value returned; otherwise the entry is appended and
/// `None` returned.
#[verifier::external_body]
pub(crate) fn map_insert(m: &mut IndexMap<String, NodeState>, key: String, value: NodeState) -> (r: Option<NodeState>)
    requires
        keys_distinct(target_entries(*old(m))),
    ensures
        has_key(target_entries(*old(m)), key@) ==> {
            let i = key_index(target_entries(*old(m)), key@);
            &&& target_entries(*final(m)) == target_entries(*old(m)).update(i, (key@, value))
            &&& r == Some(target_entries(*old(m))[i].1)
        },
        !has_key(target_entries(*old(m)), key@) ==> {
            &&& target_entries(*final(m)) == target_entries(*old(m)).push((key@, value))
            &&& r is None
        },
{
    m.insert(key, value)
}

/// `Clone` of `IndexMap`: a map with clones of the same entries in the same
/// order (a `String` key clones to equal text, a `NodeState` is copied).
#[verifier::external_body]
pub(crate) fn map_clone(m: &IndexMap<String, NodeState>) -> (r: IndexMap<String, NodeState>)
    ensures
        target_entries(r) == target_entries(*m),
{
    m.clone()
}

/// `IndexMap::get_mut`: a mutable reference to the value of the entry with
/// key `key`, or `None` where there is none. Writing through the reference
/// changes that entry's value and nothing else. The lookup hashes the key
/// and indexes the entry found, and does not panic.
#[verifier::external_body]
pub(crate) fn map_get_mut<'a>(m: &'a mut IndexMap<String, NodeState>, key: &str) -> (r: Option<&'a mut NodeState>)
    requires
        keys_distinct(target_entries(*old(m))),
    ensures
        !has_key(target_entries(*old(m)), key@) ==> {
            &&& r is None
            &&& target_entries(*final(m)) == target_entries(*old(m))
        },
        has_key(target_entries(*old(m)), key@) ==> {
            let i = key_index(target_entries(*old(m)), key@);
            &&& r is Some
            &&& *r.unwrap() == target_entries(*old(m))[i].1
            &&& target_entries(*final(m)) == target_entries(*old(m)).update(
                i,
                (key@, *final(r.unwrap())),
            )
        },
    no_unwind
{
    m.get_mut(key)
}

} // verus!
