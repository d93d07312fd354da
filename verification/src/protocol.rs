//! The entity protocol: per-frame bookkeeping that gives each call a stable
//! entity, tells a call whether it runs for the first time or comes back
//! after a pause, and hands back the deactivations of calls that stopped.
use crate::collections::{
    call_set, call_set_clear, call_set_contains, call_set_insert, call_set_new, entity_table,
    entity_table_get, entity_table_insert, entity_table_new, CallSet, EntityTable,
};
use crate::deactivations::{
    distinct_sites, fire_absent, fired, group_added, has_group, Deactivations, Groups,
};
use crate::ident::{callsite_of, entity_of, CallsiteIdent, CallsiteView, EntityIdent, EntityView, Ident};
use vstd::prelude::*;

verus! {

/// The call sites of a sequence of call identities.
pub open spec fn sites(calls: Seq<CallsiteIdent>) -> Seq<CallsiteView> {
    calls.map_values(|c: CallsiteIdent| c@)
}

/// What the protocol knows between calls.
#[verifier::ext_equal]
pub struct GepView<F> {
    /// The entity given to each entity identity so far.
    pub entities: Map<EntityView, u64>,
    /// Every call site called in this frame or an earlier one.
    pub all_calls: Set<CallsiteView>,
    /// The call sites called for the first time in this frame.
    pub new_calls: Set<CallsiteView>,
    /// The call sites called in the previous frame.
    pub prev_calls: Set<CallsiteView>,
    /// The call sites called in this frame.
    pub frame_calls: Set<CallsiteView>,
    /// Deactivations registered in the previous frame.
    pub armed: Groups<F>,
    /// Deactivations registered in this frame.
    pub pending: Groups<F>,
}

impl<F> GepView<F> {
    /// The state before the first frame.
    pub open spec fn initial() -> Self {
        GepView {
            entities: Map::empty(),
            all_calls: Set::empty(),
            new_calls: Set::empty(),
            prev_calls: Set::empty(),
            frame_calls: Set::empty(),
            armed: Seq::empty(),
            pending: Seq::empty(),
        }
    }

    /// The state after a call from the call site.
    pub open spec fn called(self, c: CallsiteView) -> Self {
        GepView {
            all_calls: self.all_calls.insert(c),
            new_calls: if self.all_calls.contains(c) {
                self.new_calls
            } else {
                self.new_calls.insert(c)
            },
            frame_calls: self.frame_calls.insert(c),
            ..self
        }
    }

    /// The state with the entity given to the entity identity.
    pub open spec fn with_entity(self, e: EntityView, entity: u64) -> Self {
        GepView { entities: self.entities.insert(e, entity), ..self }
    }

    /// The state after `get` for the identity handed back `entity`: the
    /// call is counted, and the entity is recorded when the identity had
    /// none.
    pub open spec fn got(self, i: crate::ident::IdentView, entity: u64) -> Self {
        let s = self.called(callsite_of(i));
        if s.entities.contains_key(entity_of(i)) {
            s
        } else {
            s.with_entity(entity_of(i), entity)
        }
    }

    /// The state after a call that registers a deactivation: nothing is
    /// registered while the identity has no entity.
    pub open spec fn deactivation_added(self, i: crate::ident::IdentView, f: F) -> Self {
        let s = self.called(callsite_of(i));
        if s.entities.contains_key(entity_of(i)) {
            GepView {
                pending: group_added(s.pending, callsite_of(i), (s.entities[entity_of(i)], f)),
                ..s
            }
        } else {
            s
        }
    }

    /// The state after the end of a frame.
    pub open spec fn frame_ended(self) -> Self {
        GepView {
            new_calls: Set::empty(),
            prev_calls: self.frame_calls,
            frame_calls: Set::empty(),
            armed: self.pending,
            pending: Seq::empty(),
            ..self
        }
    }

    /// What holds of every state that the protocol reaches.
    pub open spec fn inv(self) -> bool {
        &&& self.new_calls.subset_of(self.all_calls)
        &&& self.prev_calls.subset_of(self.all_calls)
        &&& self.frame_calls.subset_of(self.all_calls)
        &&& self.new_calls.subset_of(self.frame_calls)
        &&& distinct_sites(self.armed)
        &&& distinct_sites(self.pending)
    }
}

/// The state of the entity protocol.
pub struct GepData<F> {
    ident_to_entity: EntityTable,
    all_calls: CallSet,
    new_calls: CallSet,
    prev_calls: CallSet,
    prev_calls_next: Vec<CallsiteIdent>,
    fn_deactivate: Deactivations<F>,
    fn_deactivate_next: Deactivations<F>,
}

impl<F> View for GepData<F> {
    type V = GepView<F>;

    closed spec fn view(&self) -> GepView<F> {
        GepView {
            entities: entity_table(self.ident_to_entity),
            all_calls: call_set(self.all_calls),
            new_calls: call_set(self.new_calls),
            prev_calls: call_set(self.prev_calls),
            frame_calls: sites(self.prev_calls_next@).to_set(),
            armed: self.fn_deactivate.view(),
            pending: self.fn_deactivate_next.view(),
        }
    }
}

impl<F> Default for GepData<F> {
    fn default() -> (data: Self)
        ensures
            data.wf(),
            data@ == GepView::<F>::initial(),
    {
        GepData::new()
    }
}

impl<F> GepData<F> {
    /// Whether the state is well formed.
    pub closed spec fn wf(&self) -> bool {
        &&& self.fn_deactivate.wf()
        &&& self.fn_deactivate_next.wf()
        &&& self@.inv()
    }

    /// A well-formed state satisfies the invariant of the protocol's
    /// states, on which the laws below rest.
    pub proof fn lemma_wf_inv(&self)
        requires
            self.wf(),
        ensures
            self@.inv(),
    {
    }

    /// An empty protocol state.
    pub fn new() -> (data: Self)
        ensures
            data.wf(),
            data@ == GepView::<F>::initial(),
    {
        let data = GepData {
            ident_to_entity: entity_table_new(),
            all_calls: call_set_new(),
            new_calls: call_set_new(),
            prev_calls: call_set_new(),
            prev_calls_next: Vec::new(),
            fn_deactivate: Deactivations::new(),
            fn_deactivate_next: Deactivations::new(),
        };
        assert(entity_table(data.ident_to_entity) =~= Map::empty());
        assert(data@.frame_calls =~= Set::empty());
        data
    }

    fn handle_callsite(&mut self, ident: Ident) -> (c: CallsiteIdent)
        requires
            old(self).wf(),
        ensures
            final(self).wf(),
            c@ == callsite_of(ident@),
            final(self)@ == old(self)@.called(c@),
    {
        let c = CallsiteIdent::from(ident);
        self.prev_calls_next.push(c);
        if !call_set_contains(&self.all_calls, &c) {
            call_set_insert(&mut self.all_calls, c);
            call_set_insert(&mut self.new_calls, c);
        }
        proof {
            assert(sites(self.prev_calls_next@) =~= sites(old(self).prev_calls_next@).push(c@));
            sites(old(self).prev_calls_next@).lemma_push_to_set_commute(c@);
            let s = self@;
            assert(s.all_calls =~= old(self)@.called(c@).all_calls);
            assert(s.new_calls =~= old(self)@.called(c@).new_calls);
            assert(s =~= old(self)@.called(c@));
        }
        c
    }

    /// The entity of the identity, calling `spawn` for a new one the first
    /// time the identity is seen; counts as a call of its call site.
    pub fn get<S: FnOnce(EntityIdent) -> u64>(&mut self, ident: Ident, spawn: S) -> (entity: u64)
        requires
            old(self).wf(),
            !old(self)@.entities.contains_key(entity_of(ident@)) ==> forall|e: EntityIdent|
                e@ == entity_of(ident@) ==> #[trigger] spawn.requires((e,)),
        ensures
            final(self).wf(),
            final(self)@ == old(self)@.got(ident@, entity),
            old(self)@.entities.contains_key(entity_of(ident@)) ==> entity == old(
                self,
            )@.entities[entity_of(ident@)],
            !old(self)@.entities.contains_key(entity_of(ident@)) ==> exists|x: EntityIdent|
                x@ == entity_of(ident@) && #[trigger] spawn.ensures((x,), entity),
    {
        self.handle_callsite(ident);
        let e = EntityIdent::from(ident);
        match entity_table_get(&self.ident_to_entity, &e) {
            Some(entity) => entity,
            None => {
                let entity = spawn(e);
                entity_table_insert(&mut self.ident_to_entity, e, entity);
                assert(self@ =~= old(self)@.called(callsite_of(ident@)).with_entity(e@, entity));
                entity
            },
        }
    }

    /// Whether the call site of the identity is called for the first time
    /// in this frame; counts as a call of its call site.
    pub fn when_once(&mut self, ident: Ident) -> (first: bool)
        requires
            old(self).wf(),
        ensures
            final(self).wf(),
            final(self)@ == old(self)@.called(callsite_of(ident@)),
            first == final(self)@.new_calls.contains(callsite_of(ident@)),
    {
        let c = self.handle_callsite(ident);
        call_set_contains(&self.new_calls, &c)
    }

    /// Whether the call site of the identity was not called in the previous
    /// frame; counts as a call of its call site.
    pub fn when_activate(&mut self, ident: Ident) -> (activating: bool)
        requires
            old(self).wf(),
        ensures
            final(self).wf(),
            final(self)@ == old(self)@.called(callsite_of(ident@)),
            activating == !old(self)@.prev_calls.contains(callsite_of(ident@)),
    {
        let c = self.handle_callsite(ident);
        !call_set_contains(&self.prev_calls, &c)
    }

    /// Registers `f` to run on the identity's entity at the end of the next
    /// frame unless its call site is called again in that frame; nothing
    /// is registered while the identity has no entity. Counts as a call of
    /// its call site.
    pub fn on_deactivate(&mut self, ident: Ident, f: F)
        requires
            old(self).wf(),
        ensures
            final(self).wf(),
            final(self)@ == old(self)@.deactivation_added(ident@, f),
    {
        let c = self.handle_callsite(ident);
        let e = EntityIdent::from(ident);
        match entity_table_get(&self.ident_to_entity, &e) {
            Some(entity) => {
                self.fn_deactivate_next.push(c, entity, f);
                proof {
                    self.fn_deactivate_next.lemma_distinct();
                }
                assert(self@ =~= old(self)@.deactivation_added(ident@, f));
            },
            None => {},
        }
    }

    /// Ends the frame: hands back the deactivations registered in the
    /// previous frame whose call site was not called in this frame, makes
    /// this frame's calls the previous ones and arms this frame's
    /// deactivations for the next frame.
    pub fn update(&mut self) -> (to_run: Vec<(u64, F)>)
        requires
            old(self).wf(),
        ensures
            final(self).wf(),
            final(self)@ == old(self)@.frame_ended(),
            to_run@ == fired(old(self)@.armed, old(self)@.frame_calls),
    {
        let mut armed: Deactivations<F> = Deactivations::new();
        std::mem::swap(&mut armed, &mut self.fn_deactivate_next);
        std::mem::swap(&mut armed, &mut self.fn_deactivate);
        let mut calls: Vec<CallsiteIdent> = Vec::new();
        std::mem::swap(&mut calls, &mut self.prev_calls_next);
        self.prev_calls = collect_calls(calls);
        let to_run = fire_absent(armed, &self.prev_calls);
        call_set_clear(&mut self.new_calls);
        proof {
            self.fn_deactivate.lemma_distinct();
            assert(sites(self.prev_calls_next@).to_set() =~= Set::empty());
            assert(self@ =~= old(self)@.frame_ended());
        }
        to_run
    }
}

/// The set of the call sites of the calls.
pub(crate) fn collect_calls(calls: Vec<CallsiteIdent>) -> (set: CallSet)
    ensures
        call_set(set) == sites(calls@).to_set(),
{
    let ghost called = sites(calls@);
    let mut set = call_set_new();
    let mut k: usize = 0;
    while k < calls.len()
        invariant
            k <= calls.len(),
            called == sites(calls@),
            call_set(set) == called.take(k as int).to_set(),
        decreases calls.len() - k,
    {
        call_set_insert(&mut set, calls[k]);
        proof {
            assert(called.take(k + 1).to_set() =~= called.take(k as int).to_set().insert(
                called[k as int],
            )) by {
                assert forall|x: CallsiteView|
                    called.take(k + 1).to_set().contains(x) == called.take(
                        k as int,
                    ).to_set().insert(called[k as int]).contains(x) by {
                    if called.take(k + 1).contains(x) {
                        let j = choose|j: int|
                            0 <= j < k + 1 && #[trigger] called.take(k + 1)[j] == x;
                        if j < k {
                            assert(called.take(k as int)[j] == x);
                        }
                    }
                    if called.take(k as int).contains(x) {
                        let j = choose|j: int|
                            0 <= j < k && #[trigger] called.take(k as int)[j] == x;
                        assert(called.take(k + 1)[j] == x);
                    }
                    if x == called[k as int] {
                        assert(called.take(k + 1)[k as int] == x);
                    }
                }
            }
        }
        k += 1;
    }
    assert(called.take(calls.len() as int) =~= called);
    set
}

/// An entity, once given to an identity, stays its entity: calls, the end
/// of a frame and registered deactivations leave every given entity as it
/// was, `get` gives a new entity only to an identity that has none, and
/// after `get` the identity has an entity.
pub proof fn lemma_entities_are_stable<F>(s: GepView<F>, c: CallsiteView, i: crate::ident::IdentView, f: F, e: EntityView)
    requires
        s.entities.contains_key(e),
    ensures
        s.called(c).entities == s.entities,
        s.frame_ended().entities == s.entities,
        s.deactivation_added(i, f).entities == s.entities,
        forall|j: crate::ident::IdentView, entity: u64| #[trigger] s.got(j, entity).entities[e]
            == s.entities[e],
        s.got(i, 0).entities.contains_key(entity_of(i)),
{
}

/// A call site is new in exactly one frame: a call makes its call site new
/// when it was never called before, it stays new for the rest of that
/// frame, and after the frame ends it is never new again.
pub proof fn lemma_once_only_in_first_frame<F>(s: GepView<F>, c: CallsiteView)
    requires
        s.inv(),
    ensures
        s.called(c).new_calls.contains(c) == (!s.all_calls.contains(c) || s.new_calls.contains(c)),
        s.called(c).all_calls.contains(c),
        s.called(c).new_calls.contains(c) ==> s.called(c).called(c).new_calls.contains(c),
        !s.called(c).frame_ended().called(c).new_calls.contains(c),
        s.frame_ended().new_calls.is_empty(),
{
}

/// The set of call sites ever called only grows.
pub proof fn lemma_all_calls_grow<F>(s: GepView<F>, c: CallsiteView, i: crate::ident::IdentView, f: F)
    ensures
        s.all_calls.subset_of(s.called(c).all_calls),
        s.all_calls.subset_of(s.deactivation_added(i, f).all_calls),
        s.all_calls == s.frame_ended().all_calls,
{
}

/// In the frame after one ends, a call site activates exactly when it was
/// not called in the frame that ended.
pub proof fn lemma_activation_follows_previous_frame<F>(s: GepView<F>, c: CallsiteView)
    ensures
        s.frame_ended().prev_calls.contains(c) == s.frame_calls.contains(c),
        s.frame_ended().called(c).frame_ended().prev_calls.contains(c),
{
}

/// The deactivations handed back at the end of a frame are exactly those
/// of the groups whose call site was not called in the frame: each entry
/// of such a group is handed back, and each entry handed back belongs to
/// such a group.
pub proof fn lemma_fired_exactly_when_absent<F>(groups: Groups<F>, calls: Set<CallsiteView>)
    ensures
        forall|i: int, j: int|
            0 <= i < groups.len() && 0 <= j < groups[i].1.len() && !calls.contains(groups[i].0)
                ==> fired(groups, calls).contains(#[trigger] groups[i].1[j]),
        forall|x: (u64, F)| #[trigger]
            fired(groups, calls).contains(x) ==> exists|i: int, j: int|
                0 <= i < groups.len() && 0 <= j < groups[i].1.len() && !calls.contains(groups[i].0)
                    && #[trigger] groups[i].1[j] == x,
    decreases groups.len(),
{
    if groups.len() > 0 {
        let init = groups.drop_last();
        let last = groups.last();
        lemma_fired_exactly_when_absent(init, calls);
        let before = fired(init, calls);
        assert forall|i: int, j: int|
            0 <= i < groups.len() && 0 <= j < groups[i].1.len() && !calls.contains(groups[i].0)
            implies fired(groups, calls).contains(#[trigger] groups[i].1[j]) by {
            if i < groups.len() - 1 {
                assert(init[i] == groups[i]);
                assert(before.contains(init[i].1[j]));
                let k = choose|k: int| 0 <= k < before.len() && before[k] == init[i].1[j];
                assert(fired(groups, calls)[k] == groups[i].1[j]);
            } else {
                assert(fired(groups, calls) == before + last.1);
                assert(fired(groups, calls)[before.len() + j] == groups[i].1[j]);
            }
        }
        assert forall|x: (u64, F)| #[trigger]
            fired(groups, calls).contains(x) implies exists|i: int, j: int|
                0 <= i < groups.len() && 0 <= j < groups[i].1.len() && !calls.contains(groups[i].0)
                    && #[trigger] groups[i].1[j] == x by {
            let k = choose|k: int| 0 <= k < fired(groups, calls).len() && fired(groups, calls)[k] == x;
            if k < before.len() {
                assert(before[k] == x);
                assert(before.contains(x));
                let (i, j) = choose|i: int, j: int|
                    0 <= i < init.len() && 0 <= j < init[i].1.len() && !calls.contains(init[i].0)
                        && #[trigger] init[i].1[j] == x;
                assert(groups[i] == init[i]);
            } else {
                assert(!calls.contains(last.0));
                assert(groups[groups.len() - 1].1[k - before.len()] == x);
            }
        }
    }
}

/// Calls within a frame never touch the deactivations armed for it; only
/// the end of the frame replaces them, by the ones registered in it.
pub proof fn lemma_calls_keep_armed<F>(s: GepView<F>, c: CallsiteView, i: crate::ident::IdentView, f: F, entity: u64)
    ensures
        s.called(c).armed == s.armed,
        s.got(i, entity).armed == s.armed,
        s.deactivation_added(i, f).armed == s.armed,
        s.frame_ended().armed == s.pending,
{
}

/// A deactivation registered in one frame comes back in the update that
/// ends the next frame exactly when that frame makes no call of its call
/// site, and in no update after that. `s` is the state when it is
/// registered, for an identity that has an entity; `t` is the state at
/// the end of the next frame, whose armed deactivations are, by
/// `lemma_calls_keep_armed`, those that the end of the registering frame
/// armed.
pub proof fn lemma_deactivation_fires_in_next_frame<F>(
    s: GepView<F>,
    i: crate::ident::IdentView,
    f: F,
    t: GepView<F>,
)
    requires
        s.inv(),
        s.entities.contains_key(entity_of(i)),
        t.armed == s.deactivation_added(i, f).frame_ended().armed,
    ensures
        ({
            let c = callsite_of(i);
            let e = s.entities[entity_of(i)];
            &&& exists|k: int|
                0 <= k < t.armed.len() && t.armed[k].0 == c && (#[trigger] t.armed[k].1).contains(
                    (e, f),
                )
            &&& !t.frame_calls.contains(c) ==> fired(t.armed, t.frame_calls).contains((e, f))
            &&& t.frame_calls.contains(c) ==> forall|x: (u64, F)| #[trigger]
                fired(t.armed, t.frame_calls).contains(x) ==> exists|k: int, j: int|
                    0 <= k < t.armed.len() && 0 <= j < t.armed[k].1.len() && t.armed[k].0 != c
                        && #[trigger] t.armed[k].1[j] == x
            &&& t.frame_ended().armed == t.pending
        }),
{
    let c = callsite_of(i);
    let e = s.entities[entity_of(i)];
    let s1 = s.called(c);
    let g = t.armed;
    assert(g == group_added(s1.pending, c, (e, f)));
    lemma_fired_exactly_when_absent(g, t.frame_calls);
    let k = if has_group(s1.pending, c) {
        choose|k: int| 0 <= k < s1.pending.len() && #[trigger] s1.pending[k].0 == c
    } else {
        s1.pending.len() as int
    };
    let j = g[k].1.len() - 1;
    assert(g[k].0 == c && g[k].1[j] == (e, f));
    assert(g[k].1.contains((e, f)));
    if t.frame_calls.contains(c) {
        assert forall|x: (u64, F)| #[trigger] fired(g, t.frame_calls).contains(x) implies exists|k: int, j: int|
            0 <= k < g.len() && 0 <= j < g[k].1.len() && g[k].0 != c && #[trigger] g[k].1[j] == x by {
            let (k2, j2) = choose|k2: int, j2: int|
                0 <= k2 < g.len() && 0 <= j2 < g[k2].1.len() && !t.frame_calls.contains(g[k2].0)
                    && #[trigger] g[k2].1[j2] == x;
            assert(g[k2].0 != c);
        }
    }
}

/// A call changes the new-ness of its own call site only: a call site
/// never called before becomes new, and stays new through every later call
/// of any call site in the same frame.
pub proof fn lemma_call_keeps_other_call_sites_new<F>(s: GepView<F>, c: CallsiteView, d: CallsiteView)
    ensures
        c != d ==> (s.called(d).new_calls.contains(c) == s.new_calls.contains(c)),
        !s.all_calls.contains(d) ==> s.called(d).new_calls.contains(d),
        s.new_calls.contains(c) ==> s.called(d).new_calls.contains(c),
        !s.all_calls.contains(c) ==> s.called(c).called(d).new_calls.contains(c),
        s.called(d).new_calls.subset_of(s.new_calls.insert(d)),
{
}

/// Every call records its own call site among this frame's calls and keeps
/// the others, so a call site called anywhere in a frame counts as called
/// in the previous frame once that frame ends.
pub proof fn lemma_call_is_recorded_in_its_frame<F>(s: GepView<F>, c: CallsiteView, d: CallsiteView)
    ensures
        s.called(c).frame_calls.contains(c),
        s.frame_calls.contains(d) ==> s.called(c).frame_calls.contains(d),
        s.called(c).frame_calls.contains(d) ==> d == c || s.frame_calls.contains(d),
        s.called(d).called(c).frame_ended().prev_calls.contains(d),
        s.called(d).called(c).frame_ended().prev_calls.contains(c),
        s.called(c).all_calls.contains(c),
{
}

/// Registering a deactivation is itself a call of the identity's call
/// site: it is recorded among this frame's calls, so the call site is not
/// absent from the frame, and it updates the calls ever made and the new
/// call sites as any call does.
pub proof fn lemma_deactivation_counts_as_a_call<F>(s: GepView<F>, i: crate::ident::IdentView, f: F, d: CallsiteView)
    ensures
        s.deactivation_added(i, f).frame_calls.contains(callsite_of(i)),
        s.deactivation_added(i, f).frame_calls.contains(d) == (d == callsite_of(i) || s.frame_calls.contains(d)),
        s.deactivation_added(i, f).all_calls.contains(callsite_of(i)),
        s.deactivation_added(i, f).new_calls.contains(d) == (s.new_calls.contains(d) || (d
            == callsite_of(i) && !s.all_calls.contains(d))),
        s.deactivation_added(i, f).frame_ended().prev_calls.contains(callsite_of(i)),
        s.deactivation_added(i, f).entities == s.entities,
{
}

} // verus!
