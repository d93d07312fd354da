//! Deactivations grouped by the call site that registered them.
use crate::collections::{
    call_set, call_set_contains, group_index, group_index_get, group_index_insert, group_index_new,
    CallSet, GroupIndex,
};
use crate::ident::{CallsiteIdent, CallsiteView};
use vstd::prelude::*;

verus! {

/// Deactivations grouped by call site, in the order in which their call
/// sites first registered one.
pub type Groups<F> = Seq<(CallsiteView, Seq<(u64, F)>)>;

/// Whether some group belongs to the call site.
pub open spec fn has_group<F>(groups: Groups<F>, c: CallsiteView) -> bool {
    exists|i: int| 0 <= i < groups.len() && #[trigger] groups[i].0 == c
}

/// No two groups belong to the same call site.
pub open spec fn distinct_sites<F>(groups: Groups<F>) -> bool {
    forall|i: int, j: int| 0 <= i < j < groups.len() ==> groups[i].0 != groups[j].0
}

/// The groups after one more deactivation for the call site: appended to
/// its group, or in a new last group.
pub open spec fn group_added<F>(groups: Groups<F>, c: CallsiteView, entry: (u64, F)) -> Groups<F> {
    if has_group(groups, c) {
        let i = choose|i: int| 0 <= i < groups.len() && #[trigger] groups[i].0 == c;
        groups.update(i, (c, groups[i].1.push(entry)))
    } else {
        groups.push((c, seq![entry]))
    }
}

/// The deactivations whose call site is not among the calls, group after
/// group.
pub open spec fn fired<F>(groups: Groups<F>, calls: Set<CallsiteView>) -> Seq<(u64, F)>
    decreases groups.len(),
{
    if groups.len() == 0 {
        Seq::empty()
    } else {
        let before = fired(groups.drop_last(), calls);
        if calls.contains(groups.last().0) {
            before
        } else {
            before + groups.last().1
        }
    }
}

/// Deactivations waiting on their call sites, grouped by call site.
pub(crate) struct Deactivations<F> {
    index: GroupIndex,
    groups: Vec<(CallsiteIdent, Vec<(u64, F)>)>,
}

spec fn group_view<F>(g: (CallsiteIdent, Vec<(u64, F)>)) -> (CallsiteView, Seq<(u64, F)>) {
    (g.0@, g.1@)
}

impl<F> Deactivations<F> {
    pub(crate) closed spec fn view(&self) -> Groups<F> {
        self.groups@.map_values(|g: (CallsiteIdent, Vec<(u64, F)>)| group_view(g))
    }

    pub(crate) closed spec fn wf(&self) -> bool {
        &&& forall|c: CallsiteView| #[trigger]
            group_index(self.index).contains_key(c) ==> {
                let i = group_index(self.index)[c];
                &&& 0 <= i < self.groups.len()
                &&& self.groups@[i as int].0@ == c
            }
        &&& forall|i: int|
            0 <= i < self.groups.len() ==> {
                &&& group_index(self.index).contains_key(#[trigger] self.groups@[i].0@)
                &&& group_index(self.index)[self.groups@[i].0@] == i
            }
    }

    pub(crate) proof fn lemma_distinct(&self)
        requires
            self.wf(),
        ensures
            distinct_sites(self.view()),
    {
        assert forall|i: int, j: int| 0 <= i < j < self.view().len() implies self.view()[i].0
            != self.view()[j].0 by {
            assert(self.groups@[i].0@ == self.view()[i].0);
            assert(self.groups@[j].0@ == self.view()[j].0);
        }
    }

    pub(crate) fn new() -> (d: Self)
        ensures
            d.wf(),
            d.view() == Seq::<(CallsiteView, Seq<(u64, F)>)>::empty(),
    {
        let d = Deactivations { index: group_index_new(), groups: Vec::new() };
        assert(group_index(d.index) =~= Map::empty());
        assert(d.view() =~= Seq::empty());
        d
    }

    pub(crate) fn push(&mut self, c: CallsiteIdent, entity: u64, f: F)
        requires
            old(self).wf(),
        ensures
            final(self).wf(),
            final(self).view() == group_added(old(self).view(), c@, (entity, f)),
    {
        let ghost before = self.view();
        proof {
            self.lemma_distinct();
        }
        match group_index_get(&self.index, &c) {
            Some(i) => {
                assert(self.groups@[i as int].0@ == c@);
                self.groups[i].1.push((entity, f));
                proof {
                    assert(before[i as int].0 == c@);
                    assert(has_group(before, c@));
                    let j = choose|j: int| 0 <= j < before.len() && #[trigger] before[j].0 == c@;
                    assert(j == i);
                    assert(self.view() =~= group_added(before, c@, (entity, f)));
                }
            },
            None => {
                let at = self.groups.len();
                let mut entries: Vec<(u64, F)> = Vec::new();
                entries.push((entity, f));
                self.groups.push((c, entries));
                group_index_insert(&mut self.index, c, at);
                proof {
                    assert(!has_group(before, c@)) by {
                        if has_group(before, c@) {
                            let j = choose|j: int|
                                0 <= j < before.len() && #[trigger] before[j].0 == c@;
                            assert(old(self).groups@[j].0@ == c@);
                        }
                    }
                    assert(self.view() =~= group_added(before, c@, (entity, f)));
                    assert forall|d: CallsiteView| #[trigger]
                        group_index(self.index).contains_key(d) implies {
                        let i = group_index(self.index)[d];
                        &&& 0 <= i < self.groups.len()
                        &&& self.groups@[i as int].0@ == d
                    } by {
                        if d != c@ {
                            assert(group_index(old(self).index).contains_key(d));
                        }
                    }
                    assert forall|k: int| 0 <= k < self.groups.len() implies {
                        &&& group_index(self.index).contains_key(#[trigger] self.groups@[k].0@)
                        &&& group_index(self.index)[self.groups@[k].0@] == k
                    } by {
                        if k < at {
                            assert(self.groups@[k] == old(self).groups@[k]);
                            assert(self.groups@[k].0@ != c@);
                        }
                    }
                }
            },
        }
    }
}


/// The deactivations of the groups whose call site is not in `present`.
pub(crate) fn fire_absent<F>(armed: Deactivations<F>, present: &CallSet) -> (to_run: Vec<(u64, F)>)
    ensures
        to_run@ == fired(armed.view(), call_set(*present)),
{
    let ghost gv = armed.view();
    let ghost called = call_set(*present);
    let groups = armed.groups;
    let mut to_run: Vec<(u64, F)> = Vec::new();
    for g in it: groups.into_iter()
        invariant
            gv == it.seq().map_values(|g: (CallsiteIdent, Vec<(u64, F)>)| group_view(g)),
            called == call_set(*present),
            to_run@ == fired(gv.take(it.index() as int), called),
    {
        proof {
            assert(gv.take(it.index() + 1).drop_last() =~= gv.take(it.index() as int));
        }
        let (c, mut entries) = g;
        if !call_set_contains(present, &c) {
            to_run.append(&mut entries);
        }
    }
    assert(gv.take(gv.len() as int) =~= gv);
    to_run
}

} // verus!
