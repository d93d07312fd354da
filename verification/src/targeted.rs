//! The targeted form of the entity protocol: a call first names its target,
//! then asks whether work on it runs once, on waking, every frame, or when
//! the call stops.
use crate::collections::{
    call_set, call_set_contains, call_set_new, entity_table, entity_table_get,
    entity_table_insert, entity_table_new, CallSet, EntityTable,
};
use crate::deactivations::{distinct_sites, fire_absent, fired, group_added, Deactivations, Groups};
use crate::ident::{CallsiteIdent, CallsiteView, EntityIdent, EntityView, Key, KeyView, Loc};
use crate::protocol::{collect_calls, sites};
use vstd::prelude::*;

verus! {

/// How a targeted call names its entity.
#[derive(Hash, Eq, Debug, Clone, Copy)]
pub enum Ident {
    Loc(Loc),
    Key(Key),
    LocAndKey(Loc, Key),
}

impl View for Ident {
    type V = EntityView;

    open spec fn view(&self) -> EntityView {
        match self {
            Ident::Loc(l) => EntityView::LocOnly(l.address()),
            Ident::Key(k) => EntityView::Global(k@),
            Ident::LocAndKey(l, k) => EntityView::WithKey(l.address(), k@),
        }
    }
}

impl Ident {
    /// The entity identity that this names.
    pub fn entity_ident(&self) -> (e: EntityIdent)
        ensures
            e@ == self@,
    {
        match self {
            Ident::Loc(l) => EntityIdent::LocOnly(*l),
            Ident::Key(k) => EntityIdent::Global(*k),
            Ident::LocAndKey(l, k) => EntityIdent::WithKey(*l, *k),
        }
    }
}

impl PartialEq for Ident {
    fn eq(&self, other: &Ident) -> (same: bool) {
        self.entity_ident().eq(&other.entity_ident())
    }
}

impl vstd::std_specs::cmp::PartialEqSpecImpl for Ident {
    open spec fn obeys_eq_spec() -> bool {
        true
    }

    open spec fn eq_spec(&self, other: &Ident) -> bool {
        self@ == other@
    }
}

impl<T> From<T> for Ident where Key: From<T> {
    fn from(v: T) -> (ident: Ident) {
        Ident::Key(Key::from(v))
    }
}

impl<T> vstd::std_specs::convert::FromSpecImpl<T> for Ident where Key: From<T> {
    open spec fn obeys_from_spec() -> bool {
        <Key as vstd::std_specs::convert::FromSpec<T>>::obeys_from_spec()
    }

    open spec fn from_spec(v: T) -> Ident {
        Ident::Key(<Key as vstd::std_specs::convert::FromSpec<T>>::from_spec(v))
    }
}

impl From<Loc> for Ident {
    fn from(v: Loc) -> (ident: Ident) {
        Ident::Loc(v)
    }
}

impl vstd::std_specs::convert::FromSpecImpl<Loc> for Ident {
    open spec fn obeys_from_spec() -> bool {
        true
    }

    open spec fn from_spec(v: Loc) -> Ident {
        Ident::Loc(v)
    }
}

impl<T> From<(Loc, T)> for Ident where Key: From<T> {
    fn from(v: (Loc, T)) -> (ident: Ident) {
        Ident::LocAndKey(v.0, Key::from(v.1))
    }
}

impl<T> vstd::std_specs::convert::FromSpecImpl<(Loc, T)> for Ident where Key: From<T> {
    open spec fn obeys_from_spec() -> bool {
        <Key as vstd::std_specs::convert::FromSpec<T>>::obeys_from_spec()
    }

    open spec fn from_spec(v: (Loc, T)) -> Ident {
        Ident::LocAndKey(v.0, <Key as vstd::std_specs::convert::FromSpec<T>>::from_spec(v.1))
    }
}

/// The call identity of a targeted call: its call site and key, the call
/// site being the caller's for an identity made of a key alone.
pub open spec fn target_site(ident: EntityView, caller: u64) -> CallsiteView {
    match ident {
        EntityView::LocOnly(l) => CallsiteView::LocOnly(l),
        EntityView::Global(k) => CallsiteView::WithKey(caller, k),
        EntityView::WithKey(l, k) => CallsiteView::WithKey(l, k),
    }
}

/// A call that has named its target.
#[derive(Debug, Clone, Copy)]
pub struct GepWithTarget {
    ident: Ident,
    cid: CallsiteIdent,
}

impl GepWithTarget {
    /// The identity of the targeted entity.
    pub closed spec fn entity(self) -> EntityView {
        self.ident@
    }

    /// The identity the call named.
    pub closed spec fn named(self) -> Ident {
        self.ident
    }

    /// The call identity of the targeted call.
    pub closed spec fn site(self) -> CallsiteView {
        self.cid@
    }

    /// The identity the call named.
    pub fn ident(&self) -> (ident: Ident)
        ensures
            ident == self.named(),
            ident@ == self.entity(),
    {
        self.ident
    }
}

/// What the targeted protocol knows between calls.
#[verifier::ext_equal]
pub struct TargetView<F> {
    /// The entity given to each entity identity so far.
    pub entities: Map<EntityView, u64>,
    /// The call sites called in the previous frame, as `once` sees them.
    pub all_calls: Set<CallsiteView>,
    /// The call sites called in the previous frame, as waking sees them.
    pub prev_calls: Set<CallsiteView>,
    /// The call sites called in this frame, as `once` will see them.
    pub all_calls_next: Set<CallsiteView>,
    /// The call sites called in this frame, as waking will see them.
    pub prev_calls_next: Set<CallsiteView>,
    /// Work registered to run when its call stops.
    pub sleeping: Groups<F>,
}

impl<F> TargetView<F> {
    /// The state before the first frame.
    pub open spec fn initial() -> Self {
        TargetView {
            entities: Map::empty(),
            all_calls: Set::empty(),
            prev_calls: Set::empty(),
            all_calls_next: Set::empty(),
            prev_calls_next: Set::empty(),
            sleeping: Seq::empty(),
        }
    }

    /// The state after a call names the call site as its target.
    pub open spec fn targeted(self, c: CallsiteView) -> Self {
        TargetView {
            all_calls_next: self.all_calls_next.insert(c),
            prev_calls_next: self.prev_calls_next.insert(c),
            ..self
        }
    }

    /// The state with the entity given to the entity identity.
    pub open spec fn with_entity(self, e: EntityView, entity: u64) -> Self {
        TargetView { entities: self.entities.insert(e, entity), ..self }
    }

    /// The state after work is registered for when the call stops: nothing
    /// is registered while the target has no entity.
    pub open spec fn sleep_added(self, e: EntityView, c: CallsiteView, f: F) -> Self {
        if self.entities.contains_key(e) {
            TargetView { sleeping: group_added(self.sleeping, c, (self.entities[e], f)), ..self }
        } else {
            self
        }
    }

    /// The state after the end of a frame.
    pub open spec fn frame_ended(self) -> Self {
        TargetView {
            all_calls: self.all_calls_next,
            prev_calls: self.prev_calls_next,
            all_calls_next: Set::empty(),
            prev_calls_next: Set::empty(),
            sleeping: Seq::empty(),
            ..self
        }
    }

    /// What holds of every state that the protocol reaches: both records of
    /// calls agree.
    pub open spec fn inv(self) -> bool {
        &&& self.all_calls == self.prev_calls
        &&& self.all_calls_next == self.prev_calls_next
        &&& distinct_sites(self.sleeping)
    }
}

/// The state of the targeted protocol.
pub struct GepData<F> {
    ident_to_entity: EntityTable,
    all_calls: CallSet,
    all_calls_next: Vec<CallsiteIdent>,
    prev_calls: CallSet,
    prev_calls_next: Vec<CallsiteIdent>,
    fn_deactivate: Deactivations<F>,
}

impl<F> View for GepData<F> {
    type V = TargetView<F>;

    closed spec fn view(&self) -> TargetView<F> {
        TargetView {
            entities: entity_table(self.ident_to_entity),
            all_calls: call_set(self.all_calls),
            prev_calls: call_set(self.prev_calls),
            all_calls_next: sites(self.all_calls_next@).to_set(),
            prev_calls_next: sites(self.prev_calls_next@).to_set(),
            sleeping: self.fn_deactivate.view(),
        }
    }
}

impl<F> GepData<F> {
    /// Whether the state is well formed.
    pub closed spec fn wf(&self) -> bool {
        &&& self.fn_deactivate.wf()
        &&& self@.inv()
    }

    /// A well-formed state satisfies the invariant of the targeted
    /// protocol's states, on which its laws rest.
    pub proof fn lemma_wf_inv(&self)
        requires
            self.wf(),
        ensures
            self@.inv(),
    {
    }

    /// An empty protocol state.
    pub fn new() -> (data: Self)
        ensures
            data.wf(),
            data@ == TargetView::<F>::initial(),
    {
        let data = GepData {
            ident_to_entity: entity_table_new(),
            all_calls: call_set_new(),
            all_calls_next: Vec::new(),
            prev_calls: call_set_new(),
            prev_calls_next: Vec::new(),
            fn_deactivate: Deactivations::new(),
        };
        assert(entity_table(data.ident_to_entity) =~= Map::empty());
        assert(data@.all_calls_next =~= Set::empty());
        assert(data@.prev_calls_next =~= Set::empty());
        data
    }

    /// Names the target of a call; `caller` is the call site of the call,
    /// which stands for the call when the identity is a key alone.
    pub fn target(&mut self, ident: Ident, caller: Loc) -> (t: GepWithTarget)
        requires
            old(self).wf(),
        ensures
            final(self).wf(),
            t.named() == ident,
            t.entity() == ident@,
            t.site() == target_site(ident@, caller.address()),
            final(self)@ == old(self)@.targeted(t.site()),
    {
        let cid = match ident {
            Ident::Loc(loc) => CallsiteIdent::LocOnly(loc),
            Ident::Key(key) => CallsiteIdent::WithKey(caller, key),
            Ident::LocAndKey(loc, key) => CallsiteIdent::WithKey(loc, key),
        };
        self.all_calls_next.push(cid);
        self.prev_calls_next.push(cid);
        assert(sites(self.all_calls_next@) =~= sites(old(self).all_calls_next@).push(cid@));
        assert(sites(self.prev_calls_next@) =~= sites(old(self).prev_calls_next@).push(cid@));
        proof {
            sites(old(self).all_calls_next@).lemma_push_to_set_commute(cid@);
            sites(old(self).prev_calls_next@).lemma_push_to_set_commute(cid@);
        }
        GepWithTarget { ident, cid }
    }

    /// The entity of the target, calling `spawn` for a new one the first
    /// time the identity is seen.
    fn entity_of<S: FnOnce(Ident) -> u64>(&mut self, ident: Ident, spawn: S) -> (entity: u64)
        requires
            old(self).wf(),
            !old(self)@.entities.contains_key(ident@) ==> spawn.requires((ident,)),
        ensures
            final(self).wf(),
            if old(self)@.entities.contains_key(ident@) {
                entity == old(self)@.entities[ident@] && final(self)@ == old(self)@
            } else {
                &&& spawn.ensures((ident,), entity)
                &&& final(self)@ == old(self)@.with_entity(ident@, entity)
            },
    {
        let e = ident.entity_ident();
        match entity_table_get(&self.ident_to_entity, &e) {
            Some(entity) => entity,
            None => {
                let entity = spawn(ident);
                entity_table_insert(&mut self.ident_to_entity, e, entity);
                assert(self@ =~= old(self)@.with_entity(ident@, entity));
                entity
            },
        }
    }
}

/// What a targeted call learns: the target's entity, and whether its work
/// runs now.
pub struct TargetStep {
    pub entity: u64,
    pub run: bool,
}

impl GepWithTarget {
    /// The target's entity, and whether work meant to run once runs now:
    /// when the call site was not called in the previous frame.
    pub fn once<F, S: FnOnce(Ident) -> u64>(self, gep: &mut GepData<F>, spawn: S) -> (step: TargetStep)
        requires
            old(gep).wf(),
            !old(gep)@.entities.contains_key(self.entity()) ==> spawn.requires((self.named(),)),
        ensures
            final(gep).wf(),
            step.run == !old(gep)@.all_calls.contains(self.site()),
            if old(gep)@.entities.contains_key(self.entity()) {
                step.entity == old(gep)@.entities[self.entity()] && final(gep)@ == old(gep)@
            } else {
                &&& spawn.ensures((self.named(),), step.entity)
                &&& final(gep)@ == old(gep)@.with_entity(self.entity(), step.entity)
            },
    {
        let entity = gep.entity_of(self.ident, spawn);
        let run = !call_set_contains(&gep.all_calls, &self.cid);
        TargetStep { entity, run }
    }

    /// The target's entity, and whether work meant to run on waking runs
    /// now: when the call site was not called in the previous frame.
    pub fn on_awake<F, S: FnOnce(Ident) -> u64>(self, gep: &mut GepData<F>, spawn: S) -> (step: TargetStep)
        requires
            old(gep).wf(),
            !old(gep)@.entities.contains_key(self.entity()) ==> spawn.requires((self.named(),)),
        ensures
            final(gep).wf(),
            step.run == !old(gep)@.prev_calls.contains(self.site()),
            if old(gep)@.entities.contains_key(self.entity()) {
                step.entity == old(gep)@.entities[self.entity()] && final(gep)@ == old(gep)@
            } else {
                &&& spawn.ensures((self.named(),), step.entity)
                &&& final(gep)@ == old(gep)@.with_entity(self.entity(), step.entity)
            },
    {
        let entity = gep.entity_of(self.ident, spawn);
        let run = !call_set_contains(&gep.prev_calls, &self.cid);
        TargetStep { entity, run }
    }

    /// The target's entity, for work that runs every frame.
    pub fn on_update<F, S: FnOnce(Ident) -> u64>(self, gep: &mut GepData<F>, spawn: S) -> (entity: u64)
        requires
            old(gep).wf(),
            !old(gep)@.entities.contains_key(self.entity()) ==> spawn.requires((self.named(),)),
        ensures
            final(gep).wf(),
            if old(gep)@.entities.contains_key(self.entity()) {
                entity == old(gep)@.entities[self.entity()] && final(gep)@ == old(gep)@
            } else {
                &&& spawn.ensures((self.named(),), entity)
                &&& final(gep)@ == old(gep)@.with_entity(self.entity(), entity)
            },
    {
        gep.entity_of(self.ident, spawn)
    }

    /// Registers `f` to run on the target's entity at the end of the frame
    /// unless the call site was called in the previous frame; nothing is
    /// registered while the target has no entity.
    pub fn on_sleep<F>(self, gep: &mut GepData<F>, f: F)
        requires
            old(gep).wf(),
        ensures
            final(gep).wf(),
            final(gep)@ == old(gep)@.sleep_added(self.entity(), self.site(), f),
    {
        let e = self.ident.entity_ident();
        match entity_table_get(&gep.ident_to_entity, &e) {
            Some(entity) => {
                gep.fn_deactivate.push(self.cid, entity, f);
                proof {
                    gep.fn_deactivate.lemma_distinct();
                }
                assert(gep@ =~= old(gep)@.sleep_added(self.entity(), self.site(), f));
            },
            None => {},
        }
    }
}

impl<F> GepData<F> {
    /// Ends the frame: hands back the registered work whose call site was
    /// not called in the previous frame, drops the rest, and makes this
    /// frame's calls the previous ones.
    pub fn update(&mut self) -> (to_run: Vec<(u64, F)>)
        requires
            old(self).wf(),
        ensures
            final(self).wf(),
            final(self)@ == old(self)@.frame_ended(),
            to_run@ == fired(old(self)@.sleeping, old(self)@.prev_calls),
    {
        let mut sleeping: Deactivations<F> = Deactivations::new();
        std::mem::swap(&mut sleeping, &mut self.fn_deactivate);
        let to_run = fire_absent(sleeping, &self.prev_calls);
        let mut prev: Vec<CallsiteIdent> = Vec::new();
        std::mem::swap(&mut prev, &mut self.prev_calls_next);
        self.prev_calls = collect_calls(prev);
        let mut all: Vec<CallsiteIdent> = Vec::new();
        std::mem::swap(&mut all, &mut self.all_calls_next);
        self.all_calls = collect_calls(all);
        proof {
            self.fn_deactivate.lemma_distinct();
            assert(sites(self.prev_calls_next@).to_set() =~= Set::empty());
            assert(sites(self.all_calls_next@).to_set() =~= Set::empty());
            assert(self@ =~= old(self)@.frame_ended());
        }
        to_run
    }
}

impl<F> Default for GepData<F> {
    fn default() -> (data: Self)
        ensures
            data.wf(),
            data@ == TargetView::<F>::initial(),
    {
        GepData::new()
    }
}

/// Work meant to run once and work meant to run on waking run in exactly
/// the same frames: both run when the call site was not called in the
/// previous frame.
pub proof fn lemma_once_is_on_awake<F>(s: TargetView<F>, c: CallsiteView)
    requires
        s.inv(),
    ensures
        s.all_calls.contains(c) == s.prev_calls.contains(c),
        s.targeted(c).inv(),
        s.frame_ended().inv(),
{
}

/// Work registered on sleep is handed back at the end of the same frame
/// exactly when its call site was not called in the previous frame, and
/// never again after that frame.
pub proof fn lemma_sleep_fires_at_frame_end<F>(s: TargetView<F>, e: EntityView, c: CallsiteView, f: F)
    requires
        s.inv(),
        s.entities.contains_key(e),
    ensures
        fired(s.sleep_added(e, c, f).sleeping, s.prev_calls).contains((s.entities[e], f))
            <== !s.prev_calls.contains(c),
        s.frame_ended().sleeping.len() == 0,
{
    let g = s.sleep_added(e, c, f).sleeping;
    crate::protocol::lemma_fired_exactly_when_absent(g, s.prev_calls);
    if !s.prev_calls.contains(c) {
        if crate::deactivations::has_group(s.sleeping, c) {
            let i = choose|i: int| 0 <= i < s.sleeping.len() && #[trigger] s.sleeping[i].0 == c;
            assert(g[i].1[g[i].1.len() - 1] == (s.entities[e], f));
        } else {
            assert(g[g.len() - 1].1[0] == (s.entities[e], f));
        }
    }
}

/// A target made of a call site and a key is the call of that call site
/// and key, one made of a call site alone is the call of that call site,
/// and one made of a key alone is the call of the caller with that key:
/// different keys at one call site are different calls.
pub proof fn lemma_target_site_keeps_the_key(l: u64, k1: KeyView, k2: KeyView, caller: u64)
    ensures
        target_site(EntityView::WithKey(l, k1), caller) == CallsiteView::WithKey(l, k1),
        k1 != k2 ==> target_site(EntityView::WithKey(l, k1), caller) != target_site(
            EntityView::WithKey(l, k2),
            caller,
        ),
        target_site(EntityView::LocOnly(l), caller) == CallsiteView::LocOnly(l),
        target_site(EntityView::Global(k1), caller) == CallsiteView::WithKey(caller, k1),
        target_site(EntityView::WithKey(l, k1), caller) != target_site(EntityView::LocOnly(l), caller),
{
}

/// Naming a target records its call among this frame's calls, for both
/// `once` and waking, and keeps the others.
pub proof fn lemma_target_is_recorded<F>(s: TargetView<F>, c: CallsiteView, d: CallsiteView)
    ensures
        s.targeted(c).all_calls_next.contains(c),
        s.targeted(c).prev_calls_next.contains(c),
        s.targeted(c).frame_ended().all_calls.contains(c),
        s.targeted(c).frame_ended().prev_calls.contains(c),
        s.all_calls_next.contains(d) ==> s.targeted(c).all_calls_next.contains(d),
        s.prev_calls_next.contains(d) ==> s.targeted(c).prev_calls_next.contains(d),
{
}

} // verus!
