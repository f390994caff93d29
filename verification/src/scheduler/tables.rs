//! The coordinator's tables, kept in `hashbrown` collections keyed by 64-bit ids.
//!
//! Nothing here is proved: each function makes one call into `hashbrown` and
//! states what the crate documents of it. No table is ever walked, so no
//! statement depends on the order in which `hashbrown` would hand out entries.

use vstd::prelude::*;
use crate::scheduler::operation::{Payload, ThreadId};

verus! {

/// Who bound a variable, and to what.
#[derive(Clone, Copy, Debug, PartialEq, Eq, Structural)]
pub struct Binding {
    pub binder: ThreadId,
    pub payload: Payload,
}

/// A `hashbrown::HashSet` of ids.
#[verifier::external_body]
pub struct IdSet {
    inner: hashbrown::HashSet<u64>,
}

/// A `hashbrown::HashMap` from ids to values of type `V`.
#[verifier::external_body]
#[verifier::reject_recursive_types(V)]
pub struct IdMap<V> {
    inner: hashbrown::HashMap<u64, V>,
}

/// The ids that a set holds.
pub uninterp spec fn id_set(s: IdSet) -> Set<u64>;

/// The entries of a table from ids to ids.
pub uninterp spec fn id_table(m: IdMap<u64>) -> Map<u64, u64>;

/// The entries of a table from ids to lists of ids.
pub uninterp spec fn reader_table(m: IdMap<Vec<u64>>) -> Map<u64, Seq<u64>>;

/// The entries of a table from ids to bindings.
pub uninterp spec fn binding_table(m: IdMap<Binding>) -> Map<u64, Binding>;

/// Whether no id is in the set.
pub open spec fn holds_nothing(s: Set<u64>) -> bool {
    forall|id: u64| !s.contains(id)
}

/// `hashbrown::HashSet::new`: the new set holds nothing.
#[verifier::external_body]
pub(crate) fn id_set_new() -> (s: IdSet)
    ensures
        id_set(s) == Set::<u64>::empty(),
{
    IdSet { inner: hashbrown::HashSet::new() }
}

/// `hashbrown::HashSet::insert`: the id is in the set afterwards; the result tells whether it was new.
#[verifier::external_body]
pub(crate) fn id_set_insert(s: &mut IdSet, id: u64) -> (fresh: bool)
    ensures
        id_set(*final(s)) == id_set(*old(s)).insert(id),
        fresh == !id_set(*old(s)).contains(id),
{
    s.inner.insert(id)
}

/// `hashbrown::HashSet::remove`: the id is out of the set afterwards; the result tells whether it was in.
#[verifier::external_body]
pub(crate) fn id_set_remove(s: &mut IdSet, id: u64) -> (present: bool)
    ensures
        id_set(*final(s)) == id_set(*old(s)).remove(id),
        present == id_set(*old(s)).contains(id),
{
    s.inner.remove(&id)
}

/// `hashbrown::HashSet::contains`: whether the id is in the set.
#[verifier::external_body]
pub(crate) fn id_set_contains(s: &IdSet, id: u64) -> (present: bool)
    ensures
        present == id_set(*s).contains(id),
{
    s.inner.contains(&id)
}

/// `hashbrown::HashSet::is_empty`: whether the set holds no id at all.
#[verifier::external_body]
pub(crate) fn id_set_is_empty(s: &IdSet) -> (empty: bool)
    ensures
        empty == holds_nothing(id_set(*s)),
{
    s.inner.is_empty()
}

/// `hashbrown::HashMap::new`: the new table holds nothing.
#[verifier::external_body]
pub(crate) fn id_table_new() -> (m: IdMap<u64>)
    ensures
        id_table(m) == (Map::<u64, u64>::empty()),
{
    IdMap { inner: hashbrown::HashMap::new() }
}

/// `hashbrown::HashMap::insert`: the key maps to the new value afterwards, all else is as before;
/// the result is the value that the key had.
#[verifier::external_body]
pub(crate) fn id_table_insert(m: &mut IdMap<u64>, key: u64, value: u64) -> (prev: Option<u64>)
    ensures
        id_table(*final(m)) == id_table(*old(m)).insert(key, value),
        prev == (if id_table(*old(m)).contains_key(key) {
            Some(id_table(*old(m))[key])
        } else {
            None
        }),
{
    m.inner.insert(key, value)
}

/// `hashbrown::HashMap::get`: the value of the key, if it has one.
#[verifier::external_body]
pub(crate) fn id_table_get(m: &IdMap<u64>, key: u64) -> (found: Option<u64>)
    ensures
        found == (if id_table(*m).contains_key(key) {
            Some(id_table(*m)[key])
        } else {
            None
        }),
{
    m.inner.get(&key).copied()
}

/// `hashbrown::HashMap::remove`: the key has no value afterwards, all else is as before;
/// the result is the value that the key had.
#[verifier::external_body]
pub(crate) fn id_table_remove(m: &mut IdMap<u64>, key: u64) -> (prev: Option<u64>)
    ensures
        id_table(*final(m)) == id_table(*old(m)).remove(key),
        prev == (if id_table(*old(m)).contains_key(key) {
            Some(id_table(*old(m))[key])
        } else {
            None
        }),
{
    m.inner.remove(&key)
}

/// `hashbrown::HashMap::new`: the new table holds nothing.
#[verifier::external_body]
pub(crate) fn reader_table_new() -> (m: IdMap<Vec<u64>>)
    ensures
        reader_table(m) == (Map::<u64, Seq<u64>>::empty()),
{
    IdMap { inner: hashbrown::HashMap::new() }
}

/// `hashbrown::HashMap::insert`: the key maps to the new list afterwards, all else is as before.
/// The list that the key had is dropped.
#[verifier::external_body]
pub(crate) fn reader_table_insert(m: &mut IdMap<Vec<u64>>, key: u64, list: Vec<u64>)
    ensures
        reader_table(*final(m)) == reader_table(*old(m)).insert(key, list@),
{
    m.inner.insert(key, list);
}

/// `hashbrown::HashMap::get`: a copy of the list of the key, if it has one.
#[verifier::external_body]
pub(crate) fn reader_table_get(m: &IdMap<Vec<u64>>, key: u64) -> (found: Option<Vec<u64>>)
    ensures
        found is Some == reader_table(*m).contains_key(key),
        found is Some ==> found->0@ == reader_table(*m)[key],
{
    m.inner.get(&key).cloned()
}

/// `hashbrown::HashMap::remove`: the key has no list afterwards, all else is as before;
/// the result is the list that the key had.
#[verifier::external_body]
pub(crate) fn reader_table_remove(m: &mut IdMap<Vec<u64>>, key: u64) -> (prev: Option<Vec<u64>>)
    ensures
        reader_table(*final(m)) == reader_table(*old(m)).remove(key),
        prev is Some == reader_table(*old(m)).contains_key(key),
        prev is Some ==> prev->0@ == reader_table(*old(m))[key],
{
    m.inner.remove(&key)
}

/// `hashbrown::HashMap::new`: the new table holds nothing.
#[verifier::external_body]
pub(crate) fn binding_table_new() -> (m: IdMap<Binding>)
    ensures
        binding_table(m) == (Map::<u64, Binding>::empty()),
{
    IdMap { inner: hashbrown::HashMap::new() }
}

/// `hashbrown::HashMap::insert`: the key maps to the new binding afterwards, all else is as before;
/// the result is the binding that the key had.
#[verifier::external_body]
pub(crate) fn binding_table_insert(m: &mut IdMap<Binding>, key: u64, binding: Binding) -> (prev: Option<Binding>)
    ensures
        binding_table(*final(m)) == binding_table(*old(m)).insert(key, binding),
        prev == (if binding_table(*old(m)).contains_key(key) {
            Some(binding_table(*old(m))[key])
        } else {
            None
        }),
{
    m.inner.insert(key, binding)
}

/// `hashbrown::HashMap::get`: the binding of the key, if it has one.
#[verifier::external_body]
pub(crate) fn binding_table_get(m: &IdMap<Binding>, key: u64) -> (found: Option<Binding>)
    ensures
        found == (if binding_table(*m).contains_key(key) {
            Some(binding_table(*m)[key])
        } else {
            None
        }),
{
    m.inner.get(&key).copied()
}

} // verus!
