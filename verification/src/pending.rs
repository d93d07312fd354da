//! Work queued for the frame under an identity, and the plan that matches
//! it against the entities of the previous frames.
use bevy::platform::collections::HashMap;
use vstd::prelude::*;

verus! {

/// An identity under which work is queued, with the index operations of
/// Bevy's `HashMap` keyed by it.
pub trait IndexKey: Sized + Copy + Eq + core::hash::Hash {
    /// The position that an index holds for each identity.
    spec fn positions(m: &HashMap<Self, usize>) -> Map<Self, usize>;

    /// An empty index.
    fn index_new() -> (m: HashMap<Self, usize>)
        ensures
            Self::positions(&m).dom() == Set::<Self>::empty(),
    ;

    /// The position stored for the identity, if any.
    fn index_get(m: &HashMap<Self, usize>, k: &Self) -> (found: Option<usize>)
        ensures
            found == (if Self::positions(m).contains_key(*k) {
                Some(Self::positions(m)[*k])
            } else {
                None
            }),
    ;

    /// Stores the position for the identity.
    fn index_insert(m: &mut HashMap<Self, usize>, k: Self, at: usize)
        ensures
            Self::positions(final(m)) == Self::positions(old(m)).insert(k, at),
    ;

    /// Removes the identity.
    fn index_remove(m: &mut HashMap<Self, usize>, k: &Self)
        ensures
            Self::positions(final(m)) == Self::positions(old(m)).remove(*k),
    ;
}

/// Work queued under distinct identities.
#[verifier::reject_recursive_types(K)]
pub struct Pending<K, T> {
    index: HashMap<K, usize>,
    slots: Vec<Option<(K, T)>>,
}

impl<K: IndexKey, T> Pending<K, T> {
    /// The queued work of each identity.
    pub closed spec fn view(&self) -> Map<K, T> {
        Map::new(
            |k: K| K::positions(&self.index).contains_key(k),
            |k: K| self.slots@[K::positions(&self.index)[k] as int].unwrap().1,
        )
    }

    /// Whether the index and the slots agree.
    pub closed spec fn wf(&self) -> bool {
        &&& forall|k: K| #[trigger]
            K::positions(&self.index).contains_key(k) ==> {
                let i = K::positions(&self.index)[k] as int;
                &&& 0 <= i < self.slots.len()
                &&& self.slots@[i] is Some
                &&& self.slots@[i].unwrap().0 == k
            }
        &&& forall|i: int|
            0 <= i < self.slots.len() && (#[trigger] self.slots@[i]) is Some ==> {
                &&& K::positions(&self.index).contains_key(self.slots@[i].unwrap().0)
                &&& K::positions(&self.index)[self.slots@[i].unwrap().0] == i
            }
    }

    /// Nothing queued.
    pub fn new() -> (p: Self)
        ensures
            p.wf(),
            p.view() == Map::<K, T>::empty(),
    {
        let p = Pending { index: K::index_new(), slots: Vec::new() };
        assert(p.view() =~= Map::empty());
        p
    }

    /// Whether work is queued under the identity.
    pub fn contains(&self, k: &K) -> (found: bool)
        requires
            self.wf(),
        ensures
            found == self.view().contains_key(*k),
    {
        K::index_get(&self.index, k).is_some()
    }

    /// Queues the work under the identity, handing back what was queued
    /// there before.
    pub fn insert(&mut self, k: K, t: T) -> (replaced: Option<T>)
        requires
            old(self).wf(),
        ensures
            final(self).wf(),
            final(self).view() == old(self).view().insert(k, t),
            replaced == (if old(self).view().contains_key(k) {
                Some(old(self).view()[k])
            } else {
                None
            }),
    {
        match K::index_get(&self.index, &k) {
            Some(i) => {
                let mut previous = Some((k, t));
                std::mem::swap(&mut self.slots[i], &mut previous);
                assert(self.view() =~= old(self).view().insert(k, t));
                match previous {
                    Some(entry) => Some(entry.1),
                    None => None,
                }
            },
            None => {
                let at = self.slots.len();
                self.slots.push(Some((k, t)));
                K::index_insert(&mut self.index, k, at);
                proof {
                    assert forall|j: K| #[trigger]
                        K::positions(&self.index).contains_key(j) implies {
                        let i = K::positions(&self.index)[j] as int;
                        &&& 0 <= i < self.slots.len()
                        &&& self.slots@[i] is Some
                        &&& self.slots@[i].unwrap().0 == j
                    } by {
                        if j != k {
                            assert(K::positions(&old(self).index).contains_key(j));
                        }
                    }
                    assert forall|i: int|
                        0 <= i < self.slots.len() && (#[trigger] self.slots@[i]) is Some implies {
                        &&& K::positions(&self.index).contains_key(self.slots@[i].unwrap().0)
                        &&& K::positions(&self.index)[self.slots@[i].unwrap().0] == i
                    } by {
                        if i < at {
                            assert(self.slots@[i] == old(self).slots@[i]);
                        }
                    }
                    assert(self.view() =~= old(self).view().insert(k, t));
                }
                None
            },
        }
    }

    /// Takes the work queued under the identity, if any.
    pub fn remove(&mut self, k: &K) -> (taken: Option<T>)
        requires
            old(self).wf(),
        ensures
            final(self).wf(),
            final(self).view() == old(self).view().remove(*k),
            taken == (if old(self).view().contains_key(*k) {
                Some(old(self).view()[*k])
            } else {
                None
            }),
    {
        match K::index_get(&self.index, k) {
            Some(i) => {
                let entry = self.slots[i].take();
                K::index_remove(&mut self.index, k);
                proof {
                    assert forall|j: K| #[trigger]
                        K::positions(&self.index).contains_key(j) implies {
                        let i = K::positions(&self.index)[j] as int;
                        &&& 0 <= i < self.slots.len()
                        &&& self.slots@[i] is Some
                        &&& self.slots@[i].unwrap().0 == j
                    } by {
                        assert(K::positions(&old(self).index).contains_key(j));
                    }
                    assert forall|m: int|
                        0 <= m < self.slots.len() && (#[trigger] self.slots@[m]) is Some implies {
                        &&& K::positions(&self.index).contains_key(self.slots@[m].unwrap().0)
                        &&& K::positions(&self.index)[self.slots@[m].unwrap().0] == m
                    } by {
                        assert(self.slots@[m] == old(self).slots@[m]);
                    }
                    assert(self.view() =~= old(self).view().remove(*k));
                }
                match entry {
                    Some(e) => Some(e.1),
                    None => None,
                }
            },
            None => {
                assert(old(self).view().remove(*k) =~= old(self).view());
                None
            },
        }
    }

    /// Takes all queued work, each identity once; nothing stays queued.
    pub fn drain(&mut self) -> (entries: Vec<(K, T)>)
        requires
            old(self).wf(),
        ensures
            final(self).wf(),
            final(self).view() == Map::<K, T>::empty(),
            lists_exactly(entries@, old(self).view()),
    {
        let mut taken: Pending<K, T> = Pending::new();
        std::mem::swap(self, &mut taken);
        proof {
            lemma_filled_lists(&taken);
        }
        let ghost slots = taken.slots@;
        let mut out: Vec<(K, T)> = Vec::new();
        for s in it: taken.slots.into_iter()
            invariant
                it.seq() == slots,
                out@ == filled(slots.take(it.index() as int)),
        {
            proof {
                assert(slots.take(it.index() + 1).drop_last() =~= slots.take(it.index() as int));
            }
            match s {
                Some(e) => out.push(e),
                None => {},
            }
        }
        assert(slots.take(slots.len() as int) =~= slots);
        out
    }
}

/// The work in the slots, in slot order.
pub open spec fn filled<K, T>(slots: Seq<Option<(K, T)>>) -> Seq<(K, T)>
    decreases slots.len(),
{
    if slots.len() == 0 {
        Seq::empty()
    } else {
        let before = filled(slots.drop_last());
        match slots.last() {
            Some(e) => before.push(e),
            None => before,
        }
    }
}

/// The entries list the map exactly: each identity once, with its work.
pub open spec fn lists_exactly<K, T>(entries: Seq<(K, T)>, m: Map<K, T>) -> bool {
    &&& forall|i: int, j: int|
        0 <= i < j < entries.len() ==> (#[trigger] entries[i]).0 != (#[trigger] entries[j]).0
    &&& forall|i: int|
        0 <= i < entries.len() ==> m.contains_key((#[trigger] entries[i]).0) && m[entries[i].0]
            == entries[i].1
    &&& forall|k: K| #[trigger]
        m.contains_key(k) ==> exists|i: int| 0 <= i < entries.len() && (#[trigger] entries[i]).0 == k
}

proof fn lemma_filled<K, T>(slots: Seq<Option<(K, T)>>)
    ensures
        forall|a: int|
            0 <= a < filled(slots).len() ==> exists|i: int|
                0 <= i < slots.len() && slots[i] == Some(#[trigger] filled(slots)[a]),
        forall|i: int|
            0 <= i < slots.len() && (#[trigger] slots[i]) is Some ==> filled(slots).contains(
                slots[i].unwrap(),
            ),
        (forall|i: int, j: int|
            0 <= i < j < slots.len() && (#[trigger] slots[i]) is Some && (#[trigger] slots[j]) is Some
                ==> slots[i].unwrap().0 != slots[j].unwrap().0) ==> (forall|a: int, b: int|
            0 <= a < b < filled(slots).len() ==> (#[trigger] filled(slots)[a]).0 != (
            #[trigger] filled(slots)[b]).0),
    decreases slots.len(),
{
    if slots.len() > 0 {
        let init = slots.drop_last();
        lemma_filled(init);
        let f0 = filled(init);
        let f = filled(slots);
        assert forall|a: int| 0 <= a < f.len() implies exists|i: int|
            0 <= i < slots.len() && slots[i] == Some(#[trigger] f[a]) by {
            if a < f0.len() {
                assert(f[a] == f0[a]);
                let i = choose|i: int| 0 <= i < init.len() && init[i] == Some(f0[a]);
                assert(slots[i] == Some(f[a]));
            } else {
                assert(slots[slots.len() - 1] == Some(f[a]));
            }
        }
        assert forall|i: int| 0 <= i < slots.len() && (#[trigger] slots[i]) is Some implies f.contains(
            slots[i].unwrap(),
        ) by {
            if i < slots.len() - 1 {
                assert(init[i] == slots[i]);
                assert(f0.contains(slots[i].unwrap()));
                let a = choose|a: int| 0 <= a < f0.len() && f0[a] == slots[i].unwrap();
                assert(f[a] == slots[i].unwrap());
            } else {
                assert(f[f.len() - 1] == slots[i].unwrap());
            }
        }
        if forall|i: int, j: int|
            0 <= i < j < slots.len() && (#[trigger] slots[i]) is Some && (#[trigger] slots[j]) is Some
                ==> slots[i].unwrap().0 != slots[j].unwrap().0 {
            assert forall|i: int, j: int|
                0 <= i < j < init.len() && (#[trigger] init[i]) is Some && (#[trigger] init[j]) is Some
                    implies init[i].unwrap().0 != init[j].unwrap().0 by {
                assert(init[i] == slots[i]);
                assert(init[j] == slots[j]);
            }
            assert forall|a: int, b: int| 0 <= a < b < f.len() implies (#[trigger] f[a]).0 != (
            #[trigger] f[b]).0 by {
                if b < f0.len() {
                    assert(f[a] == f0[a]);
                    assert(f[b] == f0[b]);
                } else {
                    assert(f[a] == f0[a]);
                    let i = choose|i: int| 0 <= i < init.len() && init[i] == Some(f0[a]);
                    assert(slots[i] == init[i]);
                    assert(slots[slots.len() - 1] == Some(f[b]));
                }
            }
        }
    }
}

proof fn lemma_filled_lists<K: IndexKey, T>(p: &Pending<K, T>)
    requires
        p.wf(),
    ensures
        lists_exactly(filled(p.slots@), p.view()),
{
    let slots = p.slots@;
    lemma_filled(slots);
    let f = filled(slots);
    assert forall|i: int, j: int|
        0 <= i < j < slots.len() && (#[trigger] slots[i]) is Some && (#[trigger] slots[j]) is Some
            implies slots[i].unwrap().0 != slots[j].unwrap().0 by {
        assert(K::positions(&p.index)[slots[i].unwrap().0] == i);
        assert(K::positions(&p.index)[slots[j].unwrap().0] == j);
    }
    assert forall|a: int| 0 <= a < f.len() implies p.view().contains_key((#[trigger] f[a]).0)
        && p.view()[f[a].0] == f[a].1 by {
        let i = choose|i: int| 0 <= i < slots.len() && slots[i] == Some(f[a]);
        assert(slots[i] is Some);
    }
    assert forall|k: K| #[trigger] p.view().contains_key(k) implies exists|a: int|
        0 <= a < f.len() && (#[trigger] f[a]).0 == k by {
        let i = K::positions(&p.index)[k] as int;
        assert(slots[i] is Some);
        assert(f.contains(slots[i].unwrap()));
        let a = choose|a: int| 0 <= a < f.len() && f[a] == slots[i].unwrap();
        assert(f[a].0 == k);
    }
}

/// What the frame's queued work asks of an entity, or of a new one.
pub enum DiffAction<K, T> {
    /// The entity was inactive and has work again: activate it, then apply.
    Activate { entity: u64, diff: T },
    /// The entity was active and has work again: apply it.
    Refresh { entity: u64, diff: T },
    /// The entity was active and has no work this frame: deactivate it.
    Deactivate { entity: u64 },
    /// Work under an identity that no entity has: spawn one, then apply.
    Spawn { id: K, diff: T },
}

/// The work left and the actions after matching the inactive entities, in
/// order: an inactive entity whose identity has work is activated with it.
pub open spec fn woken<K, T>(p: Map<K, T>, inactive: Seq<(u64, K)>) -> (Map<K, T>, Seq<DiffAction<K, T>>)
    decreases inactive.len(),
{
    if inactive.len() == 0 {
        (p, Seq::empty())
    } else {
        let (q, acts) = woken(p, inactive.drop_last());
        let (e, id) = inactive.last();
        if q.contains_key(id) {
            (q.remove(id), acts.push(DiffAction::Activate { entity: e, diff: q[id] }))
        } else {
            (q, acts)
        }
    }
}

/// The work left and the actions after matching the active entities, in
/// order: an active entity whose identity has work is refreshed with it,
/// any other active entity is deactivated.
pub open spec fn refreshed<K, T>(p: Map<K, T>, active: Seq<(u64, K)>) -> (Map<K, T>, Seq<DiffAction<K, T>>)
    decreases active.len(),
{
    if active.len() == 0 {
        (p, Seq::empty())
    } else {
        let (q, acts) = refreshed(p, active.drop_last());
        let (e, id) = active.last();
        if q.contains_key(id) {
            (q.remove(id), acts.push(DiffAction::Refresh { entity: e, diff: q[id] }))
        } else {
            (q, acts.push(DiffAction::Deactivate { entity: e }))
        }
    }
}

/// A spawn for each entry.
pub open spec fn spawned<K, T>(entries: Seq<(K, T)>) -> Seq<DiffAction<K, T>> {
    entries.map_values(|e: (K, T)| DiffAction::Spawn { id: e.0, diff: e.1 })
}

/// The actions match the work against the entities: those of `woken`,
/// then those of `refreshed`, then a spawn for each identity whose work no
/// entity took, once each, in some order.
pub open spec fn planned<K, T>(
    p: Map<K, T>,
    active: Seq<(u64, K)>,
    inactive: Seq<(u64, K)>,
    actions: Seq<DiffAction<K, T>>,
) -> bool {
    let w = woken(p, inactive);
    let r = refreshed(w.0, active);
    exists|rest: Seq<(K, T)>| lists_exactly(rest, r.0) && actions == w.1 + r.1 + spawned(rest)
}

/// Matches the queued work against the entities: first the inactive ones,
/// then the active ones, then spawns for the work that no entity took.
/// Nothing stays queued.
pub fn plan<K: IndexKey, T>(pending: &mut Pending<K, T>, active: &Vec<(u64, K)>, inactive: &Vec<(u64, K)>) -> (actions: Vec<DiffAction<K, T>>)
    requires
        old(pending).wf(),
    ensures
        final(pending).wf(),
        final(pending).view() == Map::<K, T>::empty(),
        planned(old(pending).view(), active@, inactive@, actions@),
{
    let ghost start = pending.view();
    let mut actions: Vec<DiffAction<K, T>> = Vec::new();
    let mut i: usize = 0;
    while i < inactive.len()
        invariant
            pending.wf(),
            i <= inactive.len(),
            woken(start, inactive@.take(i as int)) == (pending.view(), actions@),
        decreases inactive.len() - i,
    {
        proof {
            assert(inactive@.take(i + 1).drop_last() =~= inactive@.take(i as int));
        }
        let (entity, id) = inactive[i];
        match pending.remove(&id) {
            Some(diff) => actions.push(DiffAction::Activate { entity, diff }),
            None => {},
        }
        i += 1;
    }
    assert(inactive@.take(inactive.len() as int) =~= inactive@);
    let ghost p1 = pending.view();
    let ghost a1 = actions@;
    let mut acts: Vec<DiffAction<K, T>> = Vec::new();
    let mut j: usize = 0;
    while j < active.len()
        invariant
            pending.wf(),
            j <= active.len(),
            refreshed(p1, active@.take(j as int)) == (pending.view(), acts@),
        decreases active.len() - j,
    {
        proof {
            assert(active@.take(j + 1).drop_last() =~= active@.take(j as int));
        }
        let (entity, id) = active[j];
        match pending.remove(&id) {
            Some(diff) => acts.push(DiffAction::Refresh { entity, diff }),
            None => acts.push(DiffAction::Deactivate { entity }),
        }
        j += 1;
    }
    assert(active@.take(active.len() as int) =~= active@);
    let ghost p2 = pending.view();
    let ghost a2 = acts@;
    actions.append(&mut acts);
    let rest = pending.drain();
    let ghost rest_view = rest@;
    let ghost a12 = actions@;
    for e in it: rest.into_iter()
        invariant
            it.seq() == rest_view,
            actions@ == a12 + spawned(rest_view.take(it.index() as int)),
    {
        proof {
            assert(spawned(rest_view.take(it.index() + 1)) =~= spawned(rest_view.take(it.index() as int)).push(
                DiffAction::Spawn { id: rest_view[it.index() as int].0, diff: rest_view[it.index() as int].1 },
            ));
        }
        actions.push(DiffAction::Spawn { id: e.0, diff: e.1 });
    }
    proof {
        assert(rest_view.take(rest_view.len() as int) =~= rest_view);
        assert(actions@ =~= a1 + a2 + spawned(rest_view));
        let w = woken(start, inactive@);
        assert(w.0 == p1 && w.1 == a1);
        let r = refreshed(w.0, active@);
        assert(r.0 == p2 && r.1 == a2);
        assert(lists_exactly(rest_view, r.0));
    }
    actions
}

/// The entity an action concerns, if it concerns an existing one.
pub open spec fn action_entity<K, T>(a: DiffAction<K, T>) -> Option<u64> {
    match a {
        DiffAction::Activate { entity, .. } => Some(entity),
        DiffAction::Refresh { entity, .. } => Some(entity),
        DiffAction::Deactivate { entity } => Some(entity),
        DiffAction::Spawn { .. } => None,
    }
}

/// Matching never invents or alters work: what is left after matching
/// either list of entities is the queued work minus some identities.
pub proof fn lemma_matching_only_takes<K, T>(p: Map<K, T>, entities: Seq<(u64, K)>)
    ensures
        woken(p, entities).0.submap_of(p),
        refreshed(p, entities).0.submap_of(p),
    decreases entities.len(),
{
    if entities.len() > 0 {
        lemma_matching_only_takes(p, entities.drop_last());
    }
}

/// Each active entity gets exactly one action, in order: a refresh with
/// the work of its identity when there is some, a deactivation otherwise.
pub proof fn lemma_each_active_entity_gets_one_action<K, T>(p: Map<K, T>, active: Seq<(u64, K)>)
    ensures
        refreshed(p, active).1.len() == active.len(),
        forall|i: int|
            0 <= i < active.len() ==> action_entity(#[trigger] refreshed(p, active).1[i]) == Some(
                active[i].0,
            ),
    decreases active.len(),
{
    if active.len() > 0 {
        let init = active.drop_last();
        lemma_each_active_entity_gets_one_action(p, init);
        assert forall|i: int| 0 <= i < active.len() implies action_entity(
            #[trigger] refreshed(p, active).1[i],
        ) == Some(active[i].0) by {
            if i < active.len() - 1 {
                assert(refreshed(p, active).1[i] == refreshed(p, init).1[i]);
                assert(init[i] == active[i]);
            }
        }
    }
}

/// Each action on an inactive entity activates it, and no inactive entity
/// gets more than one.
pub proof fn lemma_inactive_entities_only_activate<K, T>(p: Map<K, T>, inactive: Seq<(u64, K)>)
    ensures
        woken(p, inactive).1.len() <= inactive.len(),
        forall|i: int|
            0 <= i < woken(p, inactive).1.len() ==> (#[trigger] woken(p, inactive).1[i]) is Activate,
    decreases inactive.len(),
{
    if inactive.len() > 0 {
        let init = inactive.drop_last();
        lemma_inactive_entities_only_activate(p, init);
        assert forall|i: int| 0 <= i < woken(p, inactive).1.len() implies (#[trigger] woken(
            p,
            inactive,
        ).1[i]) is Activate by {
            if i < woken(p, init).1.len() {
                assert(woken(p, inactive).1[i] == woken(p, init).1[i]);
            }
        }
    }
}

/// Work is never lost while matching inactive entities: the work of an
/// identity that is no longer queued went, unchanged, to an inactive
/// entity of that identity, which is activated with it.
pub proof fn lemma_woken_work_goes_to_its_entity<K, T>(p: Map<K, T>, inactive: Seq<(u64, K)>)
    ensures
        forall|k: K|
            p.contains_key(k) && !(#[trigger] woken(p, inactive).0.contains_key(k)) ==> exists|i: int|
                0 <= i < inactive.len() && inactive[i].1 == k && woken(p, inactive).1.contains(
                    DiffAction::Activate { entity: inactive[i].0, diff: p[k] },
                ),
    decreases inactive.len(),
{
    if inactive.len() > 0 {
        let init = inactive.drop_last();
        lemma_woken_work_goes_to_its_entity(p, init);
        lemma_matching_only_takes(p, init);
        let (q, acts) = woken(p, init);
        let (e, id) = inactive.last();
        assert forall|k: K|
            p.contains_key(k) && !(#[trigger] woken(p, inactive).0.contains_key(k)) implies exists|i: int|
                0 <= i < inactive.len() && inactive[i].1 == k && woken(p, inactive).1.contains(
                    DiffAction::Activate { entity: inactive[i].0, diff: p[k] },
                ) by {
            if q.contains_key(k) {
                assert(k == id);
                let last = inactive.len() - 1;
                assert(woken(p, inactive).1[acts.len() as int] == (DiffAction::<K, T>::Activate { entity: e, diff: q[id] }));
                assert(inactive[last].1 == k);
            } else {
                let i = choose|i: int|
                    0 <= i < init.len() && init[i].1 == k && acts.contains(
                        DiffAction::Activate { entity: init[i].0, diff: p[k] },
                    );
                let j = choose|j: int| 0 <= j < acts.len() && acts[j] == (DiffAction::<K, T>::Activate { entity: init[i].0, diff: p[k] });
                assert(woken(p, inactive).1[j] == acts[j]);
                assert(inactive[i] == init[i]);
            }
        }
    }
}

/// Work is never lost while matching active entities: the work of an
/// identity that is no longer queued went, unchanged, to an active entity
/// of that identity, which is refreshed with it.
pub proof fn lemma_refreshed_work_goes_to_its_entity<K, T>(p: Map<K, T>, active: Seq<(u64, K)>)
    ensures
        forall|k: K|
            p.contains_key(k) && !(#[trigger] refreshed(p, active).0.contains_key(k)) ==> exists|i: int|
                0 <= i < active.len() && active[i].1 == k && refreshed(p, active).1.contains(
                    DiffAction::Refresh { entity: active[i].0, diff: p[k] },
                ),
    decreases active.len(),
{
    if active.len() > 0 {
        let init = active.drop_last();
        lemma_refreshed_work_goes_to_its_entity(p, init);
        lemma_matching_only_takes(p, init);
        let (q, acts) = refreshed(p, init);
        let (e, id) = active.last();
        assert forall|k: K|
            p.contains_key(k) && !(#[trigger] refreshed(p, active).0.contains_key(k)) implies exists|i: int|
                0 <= i < active.len() && active[i].1 == k && refreshed(p, active).1.contains(
                    DiffAction::Refresh { entity: active[i].0, diff: p[k] },
                ) by {
            if q.contains_key(k) {
                assert(k == id);
                let last = active.len() - 1;
                assert(refreshed(p, active).1[acts.len() as int] == (DiffAction::<K, T>::Refresh { entity: e, diff: q[id] }));
                assert(active[last].1 == k);
            } else {
                let i = choose|i: int|
                    0 <= i < init.len() && init[i].1 == k && acts.contains(
                        DiffAction::Refresh { entity: init[i].0, diff: p[k] },
                    );
                let j = choose|j: int| 0 <= j < acts.len() && acts[j] == (DiffAction::<K, T>::Refresh { entity: init[i].0, diff: p[k] });
                assert(refreshed(p, active).1[j] == acts[j]);
                assert(active[i] == init[i]);
            }
        }
    }
}

/// No two entities of the list carry the same identity.
pub open spec fn distinct_ids<K>(l: Seq<(u64, K)>) -> bool {
    forall|i: int, j: int| 0 <= i < j < l.len() ==> (#[trigger] l[i]).1 != (#[trigger] l[j]).1
}

/// Some entity of the list carries the identity.
pub open spec fn has_id<K>(l: Seq<(u64, K)>, k: K) -> bool {
    exists|i: int| 0 <= i < l.len() && (#[trigger] l[i]).1 == k
}

/// Matching inactive entities takes exactly the work of their identities.
pub proof fn lemma_woken_takes_their_ids<K, T>(p: Map<K, T>, l: Seq<(u64, K)>)
    ensures
        forall|k: K| #[trigger]
            woken(p, l).0.contains_key(k) == (p.contains_key(k) && !has_id(l, k)),
    decreases l.len(),
{
    if l.len() > 0 {
        let init = l.drop_last();
        lemma_woken_takes_their_ids(p, init);
        let q = woken(p, init).0;
        let id = l.last().1;
        assert(woken(p, l).0 == (if q.contains_key(id) { q.remove(id) } else { q }));
        assert forall|k: K| #[trigger]
            woken(p, l).0.contains_key(k) == (p.contains_key(k) && !has_id(l, k)) by {
            if k == id {
                assert(l[l.len() - 1].1 == k);
                assert(has_id(l, k));
            } else {
                if has_id(init, k) {
                    let i = choose|i: int| 0 <= i < init.len() && (#[trigger] init[i]).1 == k;
                    assert(l[i] == init[i]);
                    assert(has_id(l, k));
                }
                if has_id(l, k) {
                    let i = choose|i: int| 0 <= i < l.len() && (#[trigger] l[i]).1 == k;
                    assert(i < l.len() - 1);
                    assert(init[i] == l[i]);
                    assert(has_id(init, k));
                }
            }
        }
    }
}

/// Matching active entities takes exactly the work of their identities.
pub proof fn lemma_refreshed_takes_their_ids<K, T>(p: Map<K, T>, l: Seq<(u64, K)>)
    ensures
        forall|k: K| #[trigger]
            refreshed(p, l).0.contains_key(k) == (p.contains_key(k) && !has_id(l, k)),
    decreases l.len(),
{
    if l.len() > 0 {
        let init = l.drop_last();
        lemma_refreshed_takes_their_ids(p, init);
        let q = refreshed(p, init).0;
        let id = l.last().1;
        assert(refreshed(p, l).0 == (if q.contains_key(id) { q.remove(id) } else { q }));
        assert forall|k: K| #[trigger]
            refreshed(p, l).0.contains_key(k) == (p.contains_key(k) && !has_id(l, k)) by {
            if k == id {
                assert(l[l.len() - 1].1 == k);
                assert(has_id(l, k));
            } else {
                if has_id(init, k) {
                    let i = choose|i: int| 0 <= i < init.len() && (#[trigger] init[i]).1 == k;
                    assert(l[i] == init[i]);
                    assert(has_id(l, k));
                }
                if has_id(l, k) {
                    let i = choose|i: int| 0 <= i < l.len() && (#[trigger] l[i]).1 == k;
                    assert(i < l.len() - 1);
                    assert(init[i] == l[i]);
                    assert(has_id(init, k));
                }
            }
        }
    }
}

/// With distinct identities, each inactive entity whose identity has work
/// is activated with that work.
pub proof fn lemma_woken_activates_each<K, T>(p: Map<K, T>, l: Seq<(u64, K)>)
    requires
        distinct_ids(l),
    ensures
        forall|i: int|
            0 <= i < l.len() && p.contains_key((#[trigger] l[i]).1) ==> woken(p, l).1.contains(
                DiffAction::Activate { entity: l[i].0, diff: p[l[i].1] },
            ),
    decreases l.len(),
{
    if l.len() > 0 {
        let init = l.drop_last();
        lemma_woken_activates_each(p, init);
        lemma_woken_takes_their_ids(p, init);
        lemma_matching_only_takes(p, init);
        let (q, acts) = woken(p, init);
        assert forall|i: int|
            0 <= i < l.len() && p.contains_key((#[trigger] l[i]).1) implies woken(p, l).1.contains(
                DiffAction::Activate { entity: l[i].0, diff: p[l[i].1] },
            ) by {
            let x = DiffAction::<K, T>::Activate { entity: l[i].0, diff: p[l[i].1] };
            if i < l.len() - 1 {
                assert(init[i] == l[i]);
                assert(acts.contains(x));
                let j = choose|j: int| 0 <= j < acts.len() && acts[j] == x;
                assert(woken(p, l).1[j] == x);
            } else {
                assert(!has_id(init, l[i].1)) by {
                    if has_id(init, l[i].1) {
                        let j = choose|j: int| 0 <= j < init.len() && (#[trigger] init[j]).1 == l[i].1;
                        assert(l[j] == init[j]);
                    }
                }
                assert(q.contains_key(l[i].1));
                assert(q.dom().contains(l[i].1) ==> p.dom().contains(l[i].1));
                assert(woken(p, l).1[acts.len() as int] == x);
            }
        }
    }
}

/// With distinct identities, each active entity is refreshed with the work
/// of its identity when there is some, and deactivated otherwise.
pub proof fn lemma_refreshed_acts_on_each<K, T>(p: Map<K, T>, l: Seq<(u64, K)>)
    requires
        distinct_ids(l),
    ensures
        forall|i: int|
            0 <= i < l.len() && p.contains_key((#[trigger] l[i]).1) ==> refreshed(p, l).1.contains(
                DiffAction::Refresh { entity: l[i].0, diff: p[l[i].1] },
            ),
        forall|i: int|
            0 <= i < l.len() && !p.contains_key((#[trigger] l[i]).1) ==> refreshed(p, l).1.contains(
                DiffAction::Deactivate { entity: l[i].0 },
            ),
    decreases l.len(),
{
    if l.len() > 0 {
        let init = l.drop_last();
        lemma_refreshed_acts_on_each(p, init);
        lemma_refreshed_takes_their_ids(p, init);
        lemma_matching_only_takes(p, init);
        let (q, acts) = refreshed(p, init);
        assert forall|i: int| 0 <= i < l.len() implies {
            &&& p.contains_key((#[trigger] l[i]).1) ==> refreshed(p, l).1.contains(
                DiffAction::Refresh { entity: l[i].0, diff: p[l[i].1] },
            )
            &&& !p.contains_key(l[i].1) ==> refreshed(p, l).1.contains(
                DiffAction::Deactivate { entity: l[i].0 },
            )
        } by {
            let x = if p.contains_key(l[i].1) {
                DiffAction::<K, T>::Refresh { entity: l[i].0, diff: p[l[i].1] }
            } else {
                DiffAction::<K, T>::Deactivate { entity: l[i].0 }
            };
            if i < l.len() - 1 {
                assert(init[i] == l[i]);
                assert(acts.contains(x));
                let j = choose|j: int| 0 <= j < acts.len() && acts[j] == x;
                assert(refreshed(p, l).1[j] == x);
            } else {
                assert(!has_id(init, l[i].1)) by {
                    if has_id(init, l[i].1) {
                        let j = choose|j: int| 0 <= j < init.len() && (#[trigger] init[j]).1 == l[i].1;
                        assert(l[j] == init[j]);
                    }
                }
                assert(q.contains_key(l[i].1) == p.contains_key(l[i].1));
                assert(q.dom().contains(l[i].1) ==> p.dom().contains(l[i].1));
                assert(refreshed(p, l).1[acts.len() as int] == x);
            }
        }
    }
}

/// What the plan does to each entity and each identity, when no identity
/// is carried by two entities: an inactive entity whose identity has work
/// is activated with it, an active one is refreshed with its identity's
/// work or deactivated when there is none, and the work of an identity
/// that no entity carries spawns an entity.
pub proof fn lemma_planned_per_entity<K, T>(
    p: Map<K, T>,
    active: Seq<(u64, K)>,
    inactive: Seq<(u64, K)>,
    actions: Seq<DiffAction<K, T>>,
)
    requires
        planned(p, active, inactive, actions),
        distinct_ids(active),
        distinct_ids(inactive),
        forall|k: K| !(has_id(active, k) && has_id(inactive, k)),
    ensures
        forall|i: int|
            0 <= i < inactive.len() && p.contains_key((#[trigger] inactive[i]).1) ==> actions.contains(
                DiffAction::Activate { entity: inactive[i].0, diff: p[inactive[i].1] },
            ),
        forall|i: int|
            0 <= i < active.len() && p.contains_key((#[trigger] active[i]).1) ==> actions.contains(
                DiffAction::Refresh { entity: active[i].0, diff: p[active[i].1] },
            ),
        forall|i: int|
            0 <= i < active.len() && !p.contains_key((#[trigger] active[i]).1) ==> actions.contains(
                DiffAction::Deactivate { entity: active[i].0 },
            ),
        forall|k: K|
            #[trigger] p.contains_key(k) && !has_id(active, k) && !has_id(inactive, k)
                ==> actions.contains(DiffAction::Spawn { id: k, diff: p[k] }),
{
    let w = woken(p, inactive);
    let r = refreshed(w.0, active);
    let rest = choose|rest: Seq<(K, T)>| lists_exactly(rest, r.0) && actions == w.1 + r.1 + spawned(rest);
    lemma_woken_activates_each(p, inactive);
    lemma_woken_takes_their_ids(p, inactive);
    lemma_matching_only_takes(p, inactive);
    lemma_refreshed_acts_on_each(w.0, active);
    lemma_refreshed_takes_their_ids(w.0, active);
    lemma_matching_only_takes(w.0, active);
    assert forall|i: int|
        0 <= i < inactive.len() && p.contains_key((#[trigger] inactive[i]).1) implies actions.contains(
            DiffAction::Activate { entity: inactive[i].0, diff: p[inactive[i].1] },
        ) by {
        let x = DiffAction::<K, T>::Activate { entity: inactive[i].0, diff: p[inactive[i].1] };
        let j = choose|j: int| 0 <= j < w.1.len() && w.1[j] == x;
        assert(actions[j] == x);
    }
    assert forall|i: int| 0 <= i < active.len() implies {
        &&& p.contains_key((#[trigger] active[i]).1) ==> actions.contains(
            DiffAction::Refresh { entity: active[i].0, diff: p[active[i].1] },
        )
        &&& !p.contains_key(active[i].1) ==> actions.contains(
            DiffAction::Deactivate { entity: active[i].0 },
        )
    } by {
        let k = active[i].1;
        assert(!has_id(inactive, k)) by {
            assert(has_id(active, k)) by {
                assert(active[i].1 == k);
            }
        }
        assert(w.0.contains_key(k) == p.contains_key(k));
        if p.contains_key(k) {
            assert(w.0.dom().contains(k) ==> p.dom().contains(k));
            let x = DiffAction::<K, T>::Refresh { entity: active[i].0, diff: p[k] };
            assert(r.1.contains(x));
            let j = choose|j: int| 0 <= j < r.1.len() && r.1[j] == x;
            assert(actions[w.1.len() + j] == x);
        } else {
            let x = DiffAction::<K, T>::Deactivate { entity: active[i].0 };
            assert(r.1.contains(x));
            let j = choose|j: int| 0 <= j < r.1.len() && r.1[j] == x;
            assert(actions[w.1.len() + j] == x);
        }
    }
    assert forall|k: K|
        #[trigger] p.contains_key(k) && !has_id(active, k) && !has_id(inactive, k)
            implies actions.contains(DiffAction::Spawn { id: k, diff: p[k] }) by {
        assert(w.0.contains_key(k));
        assert(r.0.contains_key(k));
        assert(r.0.dom().contains(k) ==> w.0.dom().contains(k));
        assert(w.0.dom().contains(k) ==> p.dom().contains(k));
        let j = choose|j: int| 0 <= j < rest.len() && (#[trigger] rest[j]).0 == k;
        assert(r.0[rest[j].0] == rest[j].1);
        assert(spawned(rest)[j] == DiffAction::<K, T>::Spawn { id: k, diff: p[k] });
        assert(actions[w.1.len() + r.1.len() + j] == DiffAction::<K, T>::Spawn { id: k, diff: p[k] });
    }
}

} // verus!
