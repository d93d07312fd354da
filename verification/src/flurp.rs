//! Flurps: closures queued under the call that made them, matched each
//! frame against the entities that earlier frames created.
use crate::diffs::key_hash;
use crate::pending::{
    lemma_matching_only_takes, lists_exactly, plan, planned, refreshed, spawned, woken, DiffAction,
    IndexKey, Pending,
};
use bevy::platform::collections::HashMap;
use std::hash::DefaultHasher;
use vstd::prelude::*;
use vstd::std_specs::hash::DefaultHasherAdditionalSpecFns;

verus! {

/// The identity of a flurp: its call site, and for a keyed flurp the hash
/// of its key.
#[derive(Hash, Eq, PartialEq, Structural, Debug, Clone, Copy)]
pub enum ImmidiateId {
    Single { callsite: u64 },
    Keyed { callsite: u64, ident: u64 },
}

/// An index from flurp identities to positions.
pub type FlurpIndex = HashMap<ImmidiateId, usize>;

/// The position that an index holds for each flurp identity.
pub uninterp spec fn flurp_index(m: FlurpIndex) -> Map<ImmidiateId, usize>;

/// `HashMap::new`: an empty index.
#[verifier::external_body]
fn flurp_index_new() -> (m: FlurpIndex)
    ensures
        flurp_index(m).dom() == Set::<ImmidiateId>::empty(),
{
    HashMap::new()
}

/// `HashMap::get`: the position stored for the identity, if any.
#[verifier::external_body]
fn flurp_index_get(m: &FlurpIndex, k: &ImmidiateId) -> (found: Option<usize>)
    ensures
        found == (if flurp_index(*m).contains_key(*k) {
            Some(flurp_index(*m)[*k])
        } else {
            None
        }),
{
    m.get(k).copied()
}

/// `HashMap::insert`: stores the position for the identity.
#[verifier::external_body]
fn flurp_index_insert(m: &mut FlurpIndex, k: ImmidiateId, at: usize) -> (replaced: Option<usize>)
    ensures
        flurp_index(*final(m)) == flurp_index(*old(m)).insert(k, at),
        replaced == (if flurp_index(*old(m)).contains_key(k) {
            Some(flurp_index(*old(m))[k])
        } else {
            None
        }),
{
    m.insert(k, at)
}

/// `HashMap::remove`: removes the identity.
#[verifier::external_body]
fn flurp_index_remove(m: &mut FlurpIndex, k: &ImmidiateId) -> (removed: Option<usize>)
    ensures
        flurp_index(*final(m)) == flurp_index(*old(m)).remove(*k),
        removed == (if flurp_index(*old(m)).contains_key(*k) {
            Some(flurp_index(*old(m))[*k])
        } else {
            None
        }),
{
    m.remove(k)
}

impl IndexKey for ImmidiateId {
    open spec fn positions(m: &FlurpIndex) -> Map<ImmidiateId, usize> {
        flurp_index(*m)
    }

    fn index_new() -> (m: FlurpIndex) {
        flurp_index_new()
    }

    fn index_get(m: &FlurpIndex, k: &ImmidiateId) -> (found: Option<usize>) {
        flurp_index_get(m, k)
    }

    fn index_insert(m: &mut FlurpIndex, k: ImmidiateId, at: usize) {
        flurp_index_insert(m, k, at);
    }

    fn index_remove(m: &mut FlurpIndex, k: &ImmidiateId) {
        flurp_index_remove(m, k);
    }
}

/// The flurps queued in this frame, one per identity.
pub struct FlurpStorage<F>(Pending<ImmidiateId, F>);

impl<F> FlurpStorage<F> {
    /// The flurp queued under each identity.
    pub closed spec fn view(&self) -> Map<ImmidiateId, F> {
        self.0.view()
    }

    /// Whether the storage is well formed.
    pub closed spec fn wf(&self) -> bool {
        self.0.wf()
    }

    /// No flurps.
    pub fn new() -> (s: Self)
        ensures
            s.wf(),
            s.view() == Map::<ImmidiateId, F>::empty(),
    {
        FlurpStorage(Pending::new())
    }

    /// Whether a flurp is queued under the identity.
    pub fn contains(&self, id: &ImmidiateId) -> (found: bool)
        requires
            self.wf(),
        ensures
            found == self.view().contains_key(*id),
    {
        self.0.contains(id)
    }

    /// Queues `f` for the call site; a call site flurps at most once a
    /// frame.
    pub fn flurp(&mut self, callsite: u64, f: F)
        requires
            old(self).wf(),
            !old(self).view().contains_key(ImmidiateId::Single { callsite }),
        ensures
            final(self).wf(),
            final(self).view() == old(self).view().insert(ImmidiateId::Single { callsite }, f),
    {
        self.0.insert(ImmidiateId::Single { callsite }, f);
    }

    /// Queues `f` for the call site and the key hash `ident`; a call site
    /// flurps each key at most once a frame.
    pub fn flurp_hashed(&mut self, callsite: u64, ident: u64, f: F)
        requires
            old(self).wf(),
            !old(self).view().contains_key(ImmidiateId::Keyed { callsite, ident }),
        ensures
            final(self).wf(),
            final(self).view() == old(self).view().insert(ImmidiateId::Keyed { callsite, ident }, f),
    {
        self.0.insert(ImmidiateId::Keyed { callsite, ident }, f);
    }

    /// Queues `f` for the call site and the hash of the key, as
    /// `flurp_hashed` with `key_hash(key)`, unless that pair already
    /// flurped this frame; tells whether it queued.
    pub fn flurp_keyed<K: core::hash::Hash>(&mut self, callsite: u64, key: &K, f: F) -> (queued: bool)
        requires
            old(self).wf(),
        ensures
            final(self).wf(),
            exists|ident: u64|
                {
                    &&& exists|writes: Seq<Seq<u8>>| ident == #[trigger] DefaultHasher::spec_finish(writes)
                    &&& queued == !(#[trigger] old(self).view().contains_key(
                        (ImmidiateId::Keyed { callsite, ident }),
                    ))
                    &&& final(self).view() == (if queued {
                        old(self).view().insert(ImmidiateId::Keyed { callsite, ident }, f)
                    } else {
                        old(self).view()
                    })
                },
    {
        let ident = key_hash(key);
        let id = ImmidiateId::Keyed { callsite, ident };
        let queued = if self.0.contains(&id) {
            false
        } else {
            self.flurp_hashed(callsite, ident, f);
            true
        };
        assert(old(self).view().contains_key(id) == !queued);
        queued
    }

    /// Matches the queued flurps against the flurped entities, one round
    /// for each inactive entity. A round matches that one inactive entity,
    /// then every active one, then spawns for the flurps that no entity
    /// took: an inactive entity with a flurp is activated and runs it, an
    /// active one with a flurp runs it, an active one without is
    /// deactivated. The first round empties the queue, so every later round
    /// deactivates every active entity; with no inactive entity nothing
    /// happens and the flurps stay queued.
    pub fn apply(&mut self, active: &Vec<(u64, ImmidiateId)>, inactive: &Vec<(u64, ImmidiateId)>) -> (actions: Vec<DiffAction<ImmidiateId, F>>)
        requires
            old(self).wf(),
        ensures
            final(self).wf(),
            inactive@.len() == 0 ==> actions@.len() == 0 && final(self).view() == old(self).view(),
            inactive@.len() > 0 ==> ({
                &&& final(self).view() == Map::<ImmidiateId, F>::empty()
                &&& exists|first: Seq<DiffAction<ImmidiateId, F>>|
                    #[trigger] planned(old(self).view(), active@, inactive@.take(1), first)
                        && actions@ == first + idle_rounds(active@, (inactive@.len() - 1) as nat)
            }),
    {
        let ghost start = self.view();
        let mut actions: Vec<DiffAction<ImmidiateId, F>> = Vec::new();
        let mut i: usize = 0;
        while i < inactive.len()
            invariant
                self.wf(),
                i <= inactive.len(),
                i == 0 ==> actions@.len() == 0 && self.view() == start,
                i > 0 ==> {
                    &&& self.view() == Map::<ImmidiateId, F>::empty()
                    &&& exists|first: Seq<DiffAction<ImmidiateId, F>>|
                        #[trigger] planned(start, active@, inactive@.take(1), first)
                            && actions@ == first + idle_rounds(active@, (i - 1) as nat)
                },
            decreases inactive.len() - i,
        {
            let mut one: Vec<(u64, ImmidiateId)> = Vec::new();
            one.push(inactive[i]);
            let ghost before = actions@;
            let mut round = plan(&mut self.0, active, &one);
            let ghost round_view = round@;
            actions.append(&mut round);
            proof {
                if i == 0 {
                    assert(one@ =~= inactive@.take(1));
                    assert(actions@ =~= round_view + idle_rounds::<ImmidiateId, F>(active@, 0));
                } else {
                    lemma_idle_round(active@, inactive@[i as int], round_view);
                    let first = choose|first: Seq<DiffAction<ImmidiateId, F>>|
                        #[trigger] planned(start, active@, inactive@.take(1), first)
                            && before == first + idle_rounds(active@, (i - 1) as nat);
                    assert(actions@ =~= first + idle_rounds(active@, i as nat));
                }
            }
            i += 1;
        }
        actions
    }
}

/// The actions of rounds that find nothing queued: each round deactivates
/// every active entity.
pub open spec fn idle_rounds<K, T>(active: Seq<(u64, K)>, n: nat) -> Seq<DiffAction<K, T>>
    decreases n,
{
    if n == 0 {
        Seq::empty()
    } else {
        idle_rounds(active, (n - 1) as nat) + refreshed(Map::empty(), active).1
    }
}

/// A round that finds nothing queued only deactivates the active entities.
proof fn lemma_idle_round<K, T>(active: Seq<(u64, K)>, x: (u64, K), round: Seq<DiffAction<K, T>>)
    requires
        planned(Map::<K, T>::empty(), active, seq![x], round),
    ensures
        round == refreshed(Map::<K, T>::empty(), active).1,
{
    reveal_with_fuel(woken, 2);
    let w = woken(Map::<K, T>::empty(), seq![x]);
    assert(seq![x].drop_last() =~= Seq::<(u64, K)>::empty());
    assert(w.0 == Map::<K, T>::empty());
    assert(w.1 =~= Seq::<DiffAction<K, T>>::empty());
    let r = refreshed(Map::<K, T>::empty(), active);
    lemma_matching_only_takes(Map::<K, T>::empty(), active);
    assert(r.0 =~= Map::<K, T>::empty()) by {
        assert forall|k: K| !r.0.dom().contains(k) by {
            if r.0.dom().contains(k) {
                assert(Map::<K, T>::empty().dom().contains(k));
            }
        }
    }
    let rest = choose|rest: Seq<(K, T)>| lists_exactly(rest, r.0) && round == w.1 + r.1 + spawned(rest);
    if rest.len() > 0 {
        assert(r.0.contains_key(rest[0].0));
    }
    assert(spawned(rest) =~= Seq::<DiffAction<K, T>>::empty());
    assert(round =~= r.1);
}

impl<F> Default for FlurpStorage<F> {
    fn default() -> (s: Self)
        ensures
            s.wf(),
            s.view() == Map::<ImmidiateId, F>::empty(),
    {
        FlurpStorage::new()
    }
}

} // verus!
