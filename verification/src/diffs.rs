//! Immediate-mode diffs: each frame, work is queued under the identity of
//! the call that asked for it, then matched against the entities that
//! earlier frames created.
use crate::pending::{plan, planned, DiffAction, IndexKey, Pending};
use bevy::platform::collections::HashMap;
use std::hash::{DefaultHasher, Hasher};
use vstd::prelude::*;
use vstd::std_specs::hash::DefaultHasherAdditionalSpecFns;

verus! {

/// The identity of an immediate-mode call: its call site, and the hash of
/// its key plus one, or zero when it has no key.
#[derive(Hash, Eq, PartialEq, Structural, Debug, Clone, Copy)]
pub struct ImmidiateId {
    callsite: u64,
    ident: u64,
}

impl ImmidiateId {
    /// The call site.
    pub closed spec fn site(self) -> u64 {
        self.callsite
    }

    /// The key part: zero for a call without a key.
    pub closed spec fn key(self) -> u64 {
        self.ident
    }

    /// The identity of an unkeyed call from the call site.
    pub fn at(callsite: u64) -> (id: Self)
        ensures
            id.site() == callsite,
            id.key() == 0,
    {
        ImmidiateId { callsite, ident: 0 }
    }

    /// The identity of a keyed call from the call site.
    pub fn keyed_at(callsite: u64, ident: u64) -> (id: Self)
        ensures
            id.site() == callsite,
            id.key() == ident,
    {
        ImmidiateId { callsite, ident }
    }

    /// The call site.
    pub fn callsite(&self) -> (callsite: u64)
        ensures
            callsite == self.site(),
    {
        self.callsite
    }

    /// The key part: zero for a call without a key.
    pub fn ident(&self) -> (ident: u64)
        ensures
            ident == self.key(),
    {
        self.ident
    }

    /// Two identities are equal exactly when call site and key are.
    pub proof fn lemma_equal_parts(a: Self, b: Self)
        ensures
            (a == b) == (a.site() == b.site() && a.key() == b.key()),
    {
    }
}

/// An index from immediate-mode identities to positions.
pub type DiffIndex = HashMap<ImmidiateId, usize>;

/// The position that an index holds for each identity.
pub uninterp spec fn diff_index(m: DiffIndex) -> Map<ImmidiateId, usize>;

/// `HashMap::new`: an empty index.
#[verifier::external_body]
fn diff_index_new() -> (m: DiffIndex)
    ensures
        diff_index(m).dom() == Set::<ImmidiateId>::empty(),
{
    HashMap::new()
}

/// `HashMap::get`: the position stored for the identity, if any.
#[verifier::external_body]
fn diff_index_get(m: &DiffIndex, k: &ImmidiateId) -> (found: Option<usize>)
    ensures
        found == (if diff_index(*m).contains_key(*k) {
            Some(diff_index(*m)[*k])
        } else {
            None
        }),
{
    m.get(k).copied()
}

/// `HashMap::insert`: stores the position for the identity.
#[verifier::external_body]
fn diff_index_insert(m: &mut DiffIndex, k: ImmidiateId, at: usize) -> (replaced: Option<usize>)
    ensures
        diff_index(*final(m)) == diff_index(*old(m)).insert(k, at),
        replaced == (if diff_index(*old(m)).contains_key(k) {
            Some(diff_index(*old(m))[k])
        } else {
            None
        }),
{
    m.insert(k, at)
}

/// `HashMap::remove`: removes the identity.
#[verifier::external_body]
fn diff_index_remove(m: &mut DiffIndex, k: &ImmidiateId) -> (removed: Option<usize>)
    ensures
        diff_index(*final(m)) == diff_index(*old(m)).remove(*k),
        removed == (if diff_index(*old(m)).contains_key(*k) {
            Some(diff_index(*old(m))[*k])
        } else {
            None
        }),
{
    m.remove(k)
}

impl IndexKey for ImmidiateId {
    open spec fn positions(m: &DiffIndex) -> Map<ImmidiateId, usize> {
        diff_index(*m)
    }

    fn index_new() -> (m: DiffIndex) {
        diff_index_new()
    }

    fn index_get(m: &DiffIndex, k: &ImmidiateId) -> (found: Option<usize>) {
        diff_index_get(m, k)
    }

    fn index_insert(m: &mut DiffIndex, k: ImmidiateId, at: usize) {
        diff_index_insert(m, k, at);
    }

    fn index_remove(m: &mut DiffIndex, k: &ImmidiateId) {
        diff_index_remove(m, k);
    }
}

/// The diffs queued in this frame, one per identity.
pub struct Diffs<T>(Pending<ImmidiateId, T>);

impl<T> Diffs<T> {
    /// The diff queued under each identity.
    pub closed spec fn view(&self) -> Map<ImmidiateId, T> {
        self.0.view()
    }

    /// Whether the diffs are well formed.
    pub closed spec fn wf(&self) -> bool {
        self.0.wf()
    }

    /// No diffs.
    pub fn new() -> (d: Self)
        ensures
            d.wf(),
            d.view() == Map::<ImmidiateId, T>::empty(),
    {
        Diffs(Pending::new())
    }

    /// Whether a diff is queued under the identity.
    pub fn contains(&self, id: &ImmidiateId) -> (found: bool)
        requires
            self.wf(),
        ensures
            found == self.view().contains_key(*id),
    {
        self.0.contains(id)
    }

    /// Queues the diff under the identity, handing back the one queued
    /// there before.
    pub fn insert(&mut self, id: ImmidiateId, diff: T) -> (replaced: Option<T>)
        requires
            old(self).wf(),
        ensures
            final(self).wf(),
            final(self).view() == old(self).view().insert(id, diff),
            replaced == (if old(self).view().contains_key(id) {
                Some(old(self).view()[id])
            } else {
                None
            }),
    {
        self.0.insert(id, diff)
    }

    /// Matches the queued diffs against the entities of this family: an
    /// inactive entity with a diff is activated, an active one is
    /// refreshed, an active one without a diff is deactivated, and each
    /// diff that no entity took spawns an entity. No diff stays queued.
    pub fn apply_diffs(&mut self, active: &Vec<(u64, ImmidiateId)>, inactive: &Vec<(u64, ImmidiateId)>) -> (actions: Vec<DiffAction<ImmidiateId, T>>)
        requires
            old(self).wf(),
        ensures
            final(self).wf(),
            final(self).view() == Map::<ImmidiateId, T>::empty(),
            planned(old(self).view(), active@, inactive@, actions@),
    {
        plan(&mut self.0, active, inactive)
    }
}

impl<T> Default for Diffs<T> {
    fn default() -> (d: Self)
        ensures
            d.wf(),
            d.view() == Map::<ImmidiateId, T>::empty(),
    {
        Diffs::new()
    }
}

/// `Hash::hash`: feeds the key to the hasher. What it writes depends on
/// the key's `Hash` implementation, so nothing is stated of the hasher
/// afterwards.
#[verifier::external_body]
fn write_key<K: core::hash::Hash>(key: &K, hasher: &mut DefaultHasher) {
    key.hash(hasher)
}

/// The hash of the key by a fresh `DefaultHasher`: what `finish` gives
/// after the key's `Hash` implementation wrote to it. Which bytes it wrote
/// is not stated, so neither is the value.
pub fn key_hash<K: core::hash::Hash>(key: &K) -> (h: u64)
    ensures
        exists|writes: Seq<Seq<u8>>| h == #[trigger] DefaultHasher::spec_finish(writes),
{
    let mut hasher = DefaultHasher::new();
    write_key(key, &mut hasher);
    hasher.finish()
}

/// The key part for a key whose hash is `h`: the hash plus one, wrapping
/// to zero for the largest hash.
pub open spec fn key_part_of(h: u64) -> u64 {
    if h == u64::MAX {
        0
    } else {
        (h + 1) as u64
    }
}

/// The key part for a key whose hash is `h`: the hash plus one, wrapping
/// to zero for the largest hash.
pub fn key_part(h: u64) -> (k: u64)
    ensures
        k == key_part_of(h),
        h < u64::MAX ==> k == h + 1 && k >= 1,
{
    h.wrapping_add(1)
}

/// The key part of a keyed identity: the key part of the key's hash.
pub fn hash_ident<K: core::hash::Hash>(ident: &K) -> (k: u64)
    ensures
        exists|writes: Seq<Seq<u8>>| k == key_part_of(#[trigger] DefaultHasher::spec_finish(writes)),
{
    let h = key_hash(ident);
    key_part(h)
}

} // verus!
