//! Bevy's hash collections, as this crate uses them, with what each call
//! does to their contents.
//!
//! Each contract below is taken on trust from `bevy_platform`, whose
//! `HashMap` and `HashSet` forward to `hashbrown`. The keys are this crate's
//! identities, whose `==` is verified to compare their views and whose
//! `Hash` is derived over the same fields, so equal keys hash alike.
use crate::ident::{CallsiteIdent, CallsiteView, EntityIdent, EntityView};
use bevy::platform::collections::{HashMap, HashSet};
use bevy::platform::hash::FixedHasher;
use vstd::prelude::*;

verus! {

/// Bevy's `FixedHasher`, carried through opaque.
#[verifier::external_type_specification]
#[verifier::external_body]
pub struct ExFixedHasher(FixedHasher);

/// Bevy's `HashSet`, whose contents the names below describe.
#[verifier::external_type_specification]
#[verifier::external_body]
#[verifier::reject_recursive_types(T)]
#[verifier::reject_recursive_types(S)]
pub struct ExHashSet<T, S>(HashSet<T, S>);

/// Bevy's `HashMap`, whose contents the names below describe.
#[verifier::external_type_specification]
#[verifier::external_body]
#[verifier::reject_recursive_types(K)]
#[verifier::reject_recursive_types(V)]
#[verifier::reject_recursive_types(S)]
pub struct ExHashMap<K, V, S>(HashMap<K, V, S>);

/// A set of call identities.
pub type CallSet = HashSet<CallsiteIdent>;

/// A table from entity identities to entities.
pub type EntityTable = HashMap<EntityIdent, u64>;

/// An index from call identities to positions.
pub type GroupIndex = HashMap<CallsiteIdent, usize>;

/// The call sites that a set of call identities holds.
pub uninterp spec fn call_set(s: CallSet) -> Set<CallsiteView>;

/// The entity of each entity identity that a table holds.
pub uninterp spec fn entity_table(m: EntityTable) -> Map<EntityView, u64>;

/// The position that an index holds for each call site.
pub uninterp spec fn group_index(m: GroupIndex) -> Map<CallsiteView, usize>;

/// `HashSet::new`: an empty set.
#[verifier::external_body]
pub(crate) fn call_set_new() -> (s: CallSet)
    ensures
        call_set(s) == Set::<CallsiteView>::empty(),
{
    HashSet::new()
}

/// `HashSet::contains`: whether the set holds the call site.
#[verifier::external_body]
pub(crate) fn call_set_contains(s: &CallSet, c: &CallsiteIdent) -> (found: bool)
    ensures
        found == call_set(*s).contains(c@),
{
    s.contains(c)
}

/// `HashSet::insert`: adds the call site; true when it was not there.
#[verifier::external_body]
pub(crate) fn call_set_insert(s: &mut CallSet, c: CallsiteIdent) -> (fresh: bool)
    ensures
        call_set(*final(s)) == call_set(*old(s)).insert(c@),
        fresh == !call_set(*old(s)).contains(c@),
{
    s.insert(c)
}

/// `HashSet::clear`: empties the set.
#[verifier::external_body]
pub(crate) fn call_set_clear(set: &mut CallSet)
    ensures
        call_set(*final(set)) == Set::<CallsiteView>::empty(),
{
    set.clear()
}

/// `HashMap::new`: an empty table of entities.
#[verifier::external_body]
pub(crate) fn entity_table_new() -> (m: EntityTable)
    ensures
        entity_table(m).dom() == Set::<EntityView>::empty(),
{
    HashMap::new()
}

/// `HashMap::get`: the entity stored for the identity, if any.
#[verifier::external_body]
pub(crate) fn entity_table_get(m: &EntityTable, e: &EntityIdent) -> (found: Option<
    u64,
>)
    ensures
        found == (if entity_table(*m).contains_key(e@) {
            Some(entity_table(*m)[e@])
        } else {
            None
        }),
{
    m.get(e).copied()
}

/// `HashMap::insert`: stores the entity for the identity.
#[verifier::external_body]
pub(crate) fn entity_table_insert(m: &mut EntityTable, e: EntityIdent, entity: u64) -> (replaced:
    Option<u64>)
    ensures
        entity_table(*final(m)) == entity_table(*old(m)).insert(e@, entity),
        replaced == (if entity_table(*old(m)).contains_key(e@) {
            Some(entity_table(*old(m))[e@])
        } else {
            None
        }),
{
    m.insert(e, entity)
}

/// `HashMap::new`: an empty index.
#[verifier::external_body]
pub(crate) fn group_index_new() -> (m: GroupIndex)
    ensures
        group_index(m).dom() == Set::<CallsiteView>::empty(),
{
    HashMap::new()
}

/// `HashMap::get`: the position stored for the call site, if any.
#[verifier::external_body]
pub(crate) fn group_index_get(m: &GroupIndex, c: &CallsiteIdent) -> (found:
    Option<usize>)
    ensures
        found == (if group_index(*m).contains_key(c@) {
            Some(group_index(*m)[c@])
        } else {
            None
        }),
{
    m.get(c).copied()
}

/// `HashMap::insert`: stores the position for the call site.
#[verifier::external_body]
pub(crate) fn group_index_insert(m: &mut GroupIndex, c: CallsiteIdent, at: usize)
    ensures
        group_index(*final(m)) == group_index(*old(m)).insert(c@, at),
{
    m.insert(c, at);
}

} // verus!
