//! Epic scheduler. The `Scheduler` is a pure state machine: it decides which
//! epics may run now (dependencies satisfied, under the parallel cap) and
//! records outcomes, cascading skips to dependents of failed epics.
use vstd::prelude::*;
use vstd::string::*;

use crate::app::{Language, Usd};
use crate::plan;
use crate::plan::{Epic, Plan};
use crate::strmap::StrMap;
use crate::text;
use crate::text::{clone_texts, same};

verus! {

/// Where an epic stands in the schedule.
#[derive(Debug, Clone, Copy, PartialEq, Eq, Structural)]
pub enum EpicState {
    Pending,
    Running,
    Succeeded,
    Failed,
    Skipped,
}

/// Decides which epics may run, and records how they ended.
pub struct Scheduler {
    order: Vec<String>,
    deps: StrMap<Vec<String>>,
    states: StrMap<EpicState>,
    max_parallel: usize,
}

/// The content of a scheduler: the ids in plan order, the dependencies and the
/// state of each id, and the parallel cap.
#[verifier::ext_equal]
pub ghost struct SchedulerModel {
    pub order: Seq<Seq<char>>,
    pub deps: Map<Seq<char>, Seq<Seq<char>>>,
    pub states: Map<Seq<char>, EpicState>,
    pub max_parallel: nat,
}

impl SchedulerModel {
    /// The ids in a given state.
    pub open spec fn in_state(self, state: EpicState) -> Set<Seq<char>> {
        self.states.dom().filter(|id: Seq<char>| self.states[id] == state)
    }

    /// The id has the state.
    pub open spec fn is(self, id: Seq<char>, state: EpicState) -> bool {
        self.states.contains_key(id) && self.states[id] == state
    }

    /// The id failed or was skipped.
    pub open spec fn lost(self, id: Seq<char>) -> bool {
        self.is(id, EpicState::Failed) || self.is(id, EpicState::Skipped)
    }

    /// Pending, with every dependency succeeded.
    pub open spec fn ready(self, id: Seq<char>) -> bool {
        &&& self.is(id, EpicState::Pending)
        &&& forall|k: int|
            0 <= k < self.deps[id].len() ==> self.is(
                #[trigger] self.deps[id][k],
                EpicState::Succeeded,
            )
    }

    /// The free parallel slots.
    pub open spec fn free_slots(self) -> nat {
        let running = self.in_state(EpicState::Running).len();
        if self.max_parallel >= running {
            (self.max_parallel - running) as nat
        } else {
            0
        }
    }

    /// The ready ids in plan order.
    pub open spec fn all_ready(self) -> Seq<Seq<char>> {
        self.order.filter(|id: Seq<char>| self.ready(id))
    }

    /// The ready ids in plan order, limited to the free slots.
    pub open spec fn next_ids(self) -> Seq<Seq<char>> {
        let all = self.all_ready();
        if all.len() <= self.free_slots() {
            all
        } else {
            all.take(self.free_slots() as int)
        }
    }

    /// No epic is pending or running.
    pub open spec fn done(self) -> bool {
        forall|id: Seq<char>| #[trigger]
            self.states.contains_key(id) ==> self.states[id] != EpicState::Pending
                && self.states[id] != EpicState::Running
    }

    /// The model with the state of a known id replaced; an unknown id changes nothing.
    pub open spec fn with_state(self, id: Seq<char>, state: EpicState) -> SchedulerModel {
        if self.states.contains_key(id) {
            SchedulerModel { states: self.states.insert(id, state), ..self }
        } else {
            self
        }
    }

    /// A dependency of the id is lost, directly (one step) or through at most
    /// `n` steps of pending epics.
    pub open spec fn doomed_within(self, id: Seq<char>, n: nat) -> bool
        decreases n,
    {
        &&& n > 0
        &&& self.is(id, EpicState::Pending)
        &&& exists|k: int|
            0 <= k < self.deps[id].len() && (self.lost(#[trigger] self.deps[id][k])
                || self.doomed_within(self.deps[id][k], (n - 1) as nat))
    }

    /// The id is pending and, directly or through pending epics, depends on a
    /// failed or skipped one.
    pub open spec fn doomed(self, id: Seq<char>) -> bool {
        exists|n: nat| self.doomed_within(id, n)
    }

    /// The model with every doomed epic skipped.
    pub open spec fn cascaded(self) -> SchedulerModel {
        SchedulerModel {
            states: Map::new(
                |id: Seq<char>| self.states.contains_key(id),
                |id: Seq<char>|
                    if self.doomed(id) {
                        EpicState::Skipped
                    } else {
                        self.states[id]
                    },
            ),
            ..self
        }
    }

    /// The ids and their dependencies and states belong together.
    pub open spec fn wf(self) -> bool {
        &&& self.states.dom() == self.order.to_set()
        &&& self.deps.dom() == self.order.to_set()
        &&& self.states.dom().finite()
    }

    /// No pending epic has a failed or skipped dependency.
    pub open spec fn settled(self) -> bool {
        forall|id: Seq<char>, k: int|
            self.is(id, EpicState::Pending) && 0 <= k < self.deps[id].len() ==> !self.lost(
                #[trigger] self.deps[id][k],
            )
    }

    /// Every skipped epic has a dependency that failed or was skipped.
    pub open spec fn justified(self) -> bool {
        forall|id: Seq<char>| #[trigger]
            self.is(id, EpicState::Skipped) ==> exists|k: int|
                0 <= k < self.deps[id].len() && self.lost(#[trigger] self.deps[id][k])
    }
}

/// The model of a fresh scheduler: every epic pending.
pub open spec fn fresh(epics: Seq<plan::EpicModel>, max_parallel: nat) -> SchedulerModel {
    SchedulerModel {
        order: plan::ids(epics),
        deps: Map::new(
            |id: Seq<char>| plan::ids(epics).contains(id),
            |id: Seq<char>| plan::deps_of(epics, id),
        ),
        states: Map::new(
            |id: Seq<char>| plan::ids(epics).contains(id),
            |id: Seq<char>| EpicState::Pending,
        ),
        max_parallel,
    }
}

impl View for Scheduler {
    type V = SchedulerModel;

    closed spec fn view(&self) -> SchedulerModel {
        SchedulerModel {
            order: text::views(self.order@),
            deps: self.deps@.map_values(|v: Vec<String>| text::views(v@)),
            states: self.states@,
            max_parallel: self.max_parallel as nat,
        }
    }
}

impl Scheduler {
    /// The maps hold no key twice, and exactly the ids of the order.
    pub closed spec fn wf(self) -> bool {
        &&& self.deps.wf()
        &&& self.states.wf()
        &&& self@.wf()
    }

    /// The ids of a scheduler and their dependencies and states belong together.
    pub proof fn lemma_wf(&self)
        requires
            self.wf(),
        ensures
            self@.wf(),
    {
    }

    /// A scheduler with every epic pending. Where an id occurs twice, the
    /// dependencies of the last epic with it count.
    pub fn new(plan: &Plan, max_parallel: usize) -> (r: Self)
        ensures
            r.wf(),
            r@ == fresh(plan@, max_parallel as nat),
    {
        let mut deps: StrMap<Vec<String>> = StrMap::new();
        let mut states: StrMap<EpicState> = StrMap::new();
        let mut order: Vec<String> = Vec::new();
        let mut i: usize = 0;
        while i < plan.epics.len()
            invariant
                i <= plan.epics@.len(),
                deps.wf(),
                states.wf(),
                text::views(order@) == plan::ids(plan@.take(i as int)),
                deps@.map_values(|v: Vec<String>| text::views(v@)) == fresh(
                    plan@.take(i as int),
                    0,
                ).deps,
                states@ == fresh(plan@.take(i as int), 0).states,
            decreases plan.epics@.len() - i,
        {
            let epic = &plan.epics[i];
            let ghost before = order@;
            let ghost old_deps = deps@;
            order.push(epic.id.clone());
            let list = clone_texts(&epic.depends_on);
            deps.insert(epic.id.clone(), list);
            states.insert(epic.id.clone(), EpicState::Pending);
            proof {
                let a = plan@.take(i as int);
                let b = plan@.take(i + 1);
                assert(b =~= a.push(epic@));
                assert(text::views(order@) =~= text::views(before).push(epic@.id));
                plan::lemma_push_epic(a, epic@);
                assert forall|id: Seq<char>| plan::ids(b).contains(id) implies #[trigger] plan::deps_of(
                    b,
                    id,
                ) == if id == epic@.id {
                    epic@.depends_on
                } else {
                    plan::deps_of(a, id)
                } by {
                    plan::lemma_last_with_id(a, id);
                    assert(plan::ids(b).contains(id));
                    assert(plan::last_with_id(b, id) == if id == epic@.id {
                        a.len() as int
                    } else {
                        plan::last_with_id(a, id)
                    });
                }
                let got = deps@.map_values(|v: Vec<String>| text::views(v@));
                let want = fresh(b, 0).deps;
                assert(old_deps.map_values(|v: Vec<String>| text::views(v@)).dom()
                    == old_deps.dom());
                assert forall|id: Seq<char>| got.dom().contains(id) == want.dom().contains(id)
                    && (got.dom().contains(id) ==> got[id] == want[id]) by {
                    if id != epic@.id && got.dom().contains(id) {
                        assert(old_deps.map_values(|v: Vec<String>| text::views(v@))[id]
                            == plan::deps_of(a, id));
                    }
                }
                assert(got =~= want);
                assert(states@ =~= fresh(b, 0).states);
            }
            i = i + 1;
        }
        assert(plan@.take(i as int) =~= plan@);
        let r = Scheduler { order, deps, states, max_parallel };
        proof {
            assert(r@ =~= fresh(plan@, max_parallel as nat));
            r.states.lemma_keys();
            assert(r@.states.dom() =~= r@.order.to_set());
            assert(r@.deps.dom() =~= r@.order.to_set());
        }
        r
    }

    /// The state of an epic.
    pub fn state(&self, id: &str) -> (r: Option<EpicState>)
        requires
            self.wf(),
        ensures
            r == if self@.states.contains_key(id@) {
                Some(self@.states[id@])
            } else {
                None
            },
    {
        match self.states.get(id) {
            Some(s) => Some(*s),
            None => None,
        }
    }

    fn count(&self, state: EpicState) -> (r: usize)
        requires
            self.wf(),
        ensures
            r == self@.in_state(state).len(),
            r <= self@.states.dom().len(),
    {
        let mut n: usize = 0;
        let mut i: usize = 0;
        let ghost keys = self.states.keys();
        let ghost f = |id: Seq<char>| self@.states[id] == state;
        proof {
            self.states.lemma_keys();
            assert(keys.take(0).to_set().filter(f) =~= Set::<Seq<char>>::empty());
        }
        while i < self.states.len()
            invariant
                self.wf(),
                keys == self.states.keys(),
                keys.no_duplicates(),
                f == (|id: Seq<char>| self@.states[id] == state),
                n <= i <= keys.len(),
                keys.take(i as int).to_set().filter(f).finite(),
                n == keys.take(i as int).to_set().filter(f).len(),
            decreases keys.len() - i,
        {
            let s: EpicState = *self.states.value_at(i);
            let ghost seen = keys.take(i as int).to_set();
            let ghost key = keys[i as int];
            proof {
                assert(keys.take(i + 1).to_set() =~= seen.insert(key)) by {
                    assert(keys.take(i + 1) =~= keys.take(i as int).push(key));
                    assert forall|x: Seq<char>| keys.take(i + 1).to_set().contains(x)
                        == seen.insert(key).contains(x) by {
                        if seen.contains(x) {
                            let j = choose|j: int| 0 <= j < i && keys.take(i as int)[j] == x;
                            assert(keys.take(i + 1)[j] == x);
                        }
                        assert(keys.take(i + 1)[i as int] == key);
                    }
                }
                assert(!seen.contains(key));
                if f(key) {
                    assert(seen.insert(key).filter(f) =~= seen.filter(f).insert(key));
                } else {
                    assert(seen.insert(key).filter(f) =~= seen.filter(f));
                }
            }
            if s == state {
                n = n + 1;
            }
            i = i + 1;
        }
        proof {
            self.states.lemma_keys();
            assert(keys.take(i as int) =~= keys);
            assert(keys.to_set().filter(f) =~= self@.in_state(state));
        }
        n
    }

    /// How many epics are running.
    pub fn running_count(&self) -> (r: usize)
        requires
            self.wf(),
        ensures
            r == self@.in_state(EpicState::Running).len(),
    {
        self.count(EpicState::Running)
    }

    fn deps_of(&self, id: &str) -> (r: &Vec<String>)
        requires
            self.wf(),
            self@.order.contains(id@),
        ensures
            text::views(r@) == self@.deps[id@],
    {
        proof {
            assert(self@.deps.dom().contains(id@));
            assert(self.deps@.contains_key(id@));
        }
        match self.deps.get(id) {
            Some(v) => v,
            None => &self.order,
        }
    }

    fn has_state(&self, id: &str, state: EpicState) -> (r: bool)
        requires
            self.wf(),
        ensures
            r == self@.is(id@, state),
    {
        match self.states.get(id) {
            Some(s) => *s == state,
            None => false,
        }
    }

    fn is_ready(&self, id: &str) -> (r: bool)
        requires
            self.wf(),
            self@.order.contains(id@),
        ensures
            r == self@.ready(id@),
    {
        if !self.has_state(id, EpicState::Pending) {
            return false;
        }
        let deps = self.deps_of(id);
        let mut k: usize = 0;
        while k < deps.len()
            invariant
                self.wf(),
                text::views(deps@) == self@.deps[id@],
                k <= deps@.len(),
                self@.is(id@, EpicState::Pending),
                forall|j: int|
                    0 <= j < k ==> self@.is(#[trigger] self@.deps[id@][j], EpicState::Succeeded),
            decreases deps@.len() - k,
        {
            assert(self@.deps[id@][k as int] == deps@[k as int]@);
            if !self.has_state(deps[k].as_str(), EpicState::Succeeded) {
                return false;
            }
            k = k + 1;
        }
        true
    }

    /// Ids that may start now: Pending, all deps Succeeded, in plan order,
    /// limited to the free parallel slots.
    pub fn next_ready(&self) -> (r: Vec<String>)
        requires
            self.wf(),
        ensures
            text::views(r@) == self@.next_ids(),
    {
        let running = self.running_count();
        let free: usize = if self.max_parallel > running {
            self.max_parallel - running
        } else {
            0
        };
        let mut ready: Vec<String> = Vec::new();
        assert(free == self@.free_slots());
        if free == 0 {
            assert(text::views(ready@) =~= self@.next_ids());
            return ready;
        }
        let ghost f = |id: Seq<char>| self@.ready(id);
        let mut i: usize = 0;
        assert(self@.order.take(0).filter(f) =~= Seq::<Seq<char>>::empty()) by {
            reveal(Seq::filter);
        }
        assert(text::views(ready@) =~= Seq::<Seq<char>>::empty());
        while i < self.order.len()
            invariant
                self.wf(),
                f == (|id: Seq<char>| self@.ready(id)),
                free == self@.free_slots(),
                i <= self.order@.len(),
                self@.order == text::views(self.order@),
                text::views(ready@) == self@.order.take(i as int).filter(f),
                ready@.len() < free,
            decreases self.order@.len() - i,
        {
            let id: &str = self.order[i].as_str();
            let ghost before = ready@;
            proof {
                assert(self@.order[i as int] == id@);
                assert(self@.order.take(i + 1) =~= self@.order.take(i as int).push(id@));
                self@.order.take(i as int).lemma_filter_push(id@, f);
            }
            if self.is_ready(id) {
                ready.push(self.order[i].clone());
                assert(text::views(ready@) =~= text::views(before).push(id@));
                if ready.len() == free {
                    proof {
                        lemma_filter_take(self@.order, i + 1, f);
                        assert(self@.all_ready().take(free as int) =~= text::views(ready@));
                        assert(text::views(ready@) =~= self@.next_ids());
                    }
                    return ready;
                }
            }
            i = i + 1;
        }
        assert(self@.order.take(i as int) =~= self@.order);
        ready
    }

    fn set(&mut self, id: &str, state: EpicState)
        requires
            old(self).wf(),
        ensures
            final(self).wf(),
            final(self)@ == old(self)@.with_state(id@, state),
    {
        if self.states.contains(id) {
            let ghost before = self@;
            self.states.insert(id.to_string(), state);
            assert(self@ =~= before.with_state(id@, state));
            assert(self@.states.dom() =~= before.states.dom());
        }
    }

    /// Records that an epic runs. An unknown id is ignored.
    pub fn mark_running(&mut self, id: &str)
        requires
            old(self).wf(),
        ensures
            final(self).wf(),
            final(self)@ == old(self)@.with_state(id@, EpicState::Running),
    {
        self.set(id, EpicState::Running);
    }

    /// Records that an epic succeeded. An unknown id is ignored.
    pub fn mark_succeeded(&mut self, id: &str)
        requires
            old(self).wf(),
        ensures
            final(self).wf(),
            final(self)@ == old(self)@.with_state(id@, EpicState::Succeeded),
    {
        self.set(id, EpicState::Succeeded);
    }

    /// Mark an epic failed, then skip every Pending epic that (transitively)
    /// depends on a failed or skipped epic.
    pub fn mark_failed(&mut self, id: &str)
        requires
            old(self).wf(),
        ensures
            final(self).wf(),
            final(self)@ == old(self)@.with_state(id@, EpicState::Failed).cascaded(),
    {
        self.set(id, EpicState::Failed);
        self.cascade_skips();
    }

    /// True when no epic is pending or running.
    pub fn is_done(&self) -> (r: bool)
        requires
            self.wf(),
        ensures
            r == self@.done(),
    {
        let mut i: usize = 0;
        proof {
            self.states.lemma_keys();
        }
        while i < self.states.len()
            invariant
                self.wf(),
                i <= self.states.keys().len(),
                forall|j: int|
                    0 <= j < i ==> {
                        let s = self@.states[#[trigger] self.states.keys()[j]];
                        s != EpicState::Pending && s != EpicState::Running
                    },
            decreases self.states.keys().len() - i,
        {
            let s: EpicState = *self.states.value_at(i);
            if s == EpicState::Pending || s == EpicState::Running {
                assert(self@.states.contains_key(self.states.keys()[i as int]));
                return false;
            }
            i = i + 1;
        }
        assert forall|id: Seq<char>| #[trigger] self@.states.contains_key(id) implies {
            self@.states[id] != EpicState::Pending && self@.states[id] != EpicState::Running
        } by {
            self.states.lemma_keys();
            assert(self.states.keys().to_set().contains(id));
            let j = choose|j: int| 0 <= j < self.states.keys().len() && self.states.keys()[j] == id;
            assert(self.states.keys()[j] == id);
        }
        true
    }

    /// A copy of every epic id and its current state.
    pub fn snapshot(&self) -> (r: Vec<(String, EpicState)>)
        requires
            self.wf(),
        ensures
            r@.len() == self@.order.len(),
            forall|i: int|
                0 <= i < r@.len() ==> (#[trigger] r@[i]).0@ == self@.order[i] && r@[i].1
                    == self@.states[self@.order[i]],
    {
        let mut out: Vec<(String, EpicState)> = Vec::new();
        let mut i: usize = 0;
        while i < self.order.len()
            invariant
                self.wf(),
                i <= self.order@.len(),
                self@.order == text::views(self.order@),
                out@.len() == i,
                forall|j: int|
                    0 <= j < i ==> (#[trigger] out@[j]).0@ == self@.order[j] && out@[j].1
                        == self@.states[self@.order[j]],
            decreases self.order@.len() - i,
        {
            let id: &str = self.order[i].as_str();
            assert(self@.order[i as int] == id@);
            assert(self@.order.to_set().contains(id@));
            assert(self@.states.dom().contains(id@));
            let s: EpicState = match self.states.get(id) {
                Some(s) => *s,
                None => EpicState::Pending,
            };
            out.push((self.order[i].clone(), s));
            i = i + 1;
        }
        out
    }

    fn has_lost_dep(&self, id: &str) -> (r: bool)
        requires
            self.wf(),
            self@.order.contains(id@),
        ensures
            r == (exists|k: int|
                0 <= k < self@.deps[id@].len() && self@.lost(#[trigger] self@.deps[id@][k])),
    {
        let deps = self.deps_of(id);
        let mut k: usize = 0;
        while k < deps.len()
            invariant
                self.wf(),
                text::views(deps@) == self@.deps[id@],
                k <= deps@.len(),
                forall|j: int| 0 <= j < k ==> !self@.lost(#[trigger] self@.deps[id@][j]),
            decreases deps@.len() - k,
        {
            let dep: &str = deps[k].as_str();
            assert(self@.deps[id@][k as int] == dep@);
            if self.has_state(dep, EpicState::Failed) || self.has_state(dep, EpicState::Skipped) {
                assert(self@.lost(self@.deps[id@][k as int]));
                return true;
            }
            k = k + 1;
        }
        false
    }

    fn cascade_skips(&mut self)
        requires
            old(self).wf(),
        ensures
            final(self).wf(),
            final(self)@ == old(self)@.cascaded(),
    {
        let ghost start = self@;
        proof {
            assert(partly_cascaded(start, start));
        }
        loop
            invariant
                self.wf(),
                partly_cascaded(start, self@),
            ensures
                self.wf(),
                partly_cascaded(start, self@),
                self@.settled(),
            decreases self@.in_state(EpicState::Pending).len(),
        {
            let ghost round = self@;
            let mut to_skip: Vec<String> = Vec::new();
            let mut i: usize = 0;
            while i < self.order.len()
                invariant
                    self.wf(),
                    self@ == round,
                    i <= self.order@.len(),
                    self@.order == text::views(self.order@),
                    forall|j: int|
                        0 <= j < to_skip@.len() ==> to_be_skipped(round, (#[trigger] to_skip@[j])@),
                    to_skip@.len() == 0 ==> forall|j: int|
                        0 <= j < i ==> !to_be_skipped(round, #[trigger] round.order[j]),
                decreases self.order@.len() - i,
            {
                let id: &str = self.order[i].as_str();
                assert(self@.order[i as int] == id@);
                assert(self@.order.contains(id@));
                if self.has_state(id, EpicState::Pending) && self.has_lost_dep(id) {
                    to_skip.push(self.order[i].clone());
                }
                i = i + 1;
            }
            if to_skip.len() == 0 {
                proof {
                    assert(self@.settled()) by {
                        assert forall|id: Seq<char>, k: int|
                            self@.is(id, EpicState::Pending) && 0 <= k < self@.deps[id].len()
                                implies !self@.lost(#[trigger] self@.deps[id][k]) by {
                            assert(self@.order.to_set().contains(id));
                            let j = choose|j: int| 0 <= j < round.order.len() && round.order[j] == id;
                            assert(!to_be_skipped(round, round.order[j]));
                        }
                    }
                }
                break;
            }
            let mut t: usize = 0;
            while t < to_skip.len()
                invariant
                    self.wf(),
                    t <= to_skip@.len(),
                    to_skip@.len() > 0,
                    partly_cascaded(start, round),
                    partly_cascaded(start, self@),
                    forall|j: int|
                        0 <= j < to_skip@.len() ==> to_be_skipped(round, (#[trigger] to_skip@[j])@),
                    self@.in_state(EpicState::Pending).subset_of(
                        round.in_state(EpicState::Pending),
                    ),
                    t > 0 ==> !self@.in_state(EpicState::Pending).contains(to_skip@[0]@),
                decreases to_skip@.len() - t,
            {
                let ghost before = self@;
                self.set(to_skip[t].as_str(), EpicState::Skipped);
                proof {
                    let id = to_skip@[t as int]@;
                    assert(to_be_skipped(round, to_skip@[t as int]@));
                    lemma_partly_step(start, round, before, id);
                    assert(self@ =~= before.with_state(id, EpicState::Skipped));
                }
                t = t + 1;
            }
            proof {
                let a = self@.in_state(EpicState::Pending);
                let b = round.in_state(EpicState::Pending);
                assert(to_be_skipped(round, to_skip@[0]@));
                assert(b.contains(to_skip@[0]@));
                assert(b.finite());
                vstd::set_lib::lemma_len_subset(a, b.remove(to_skip@[0]@));
            }
        }
        proof {
            lemma_settled_is_cascaded(start, self@);
        }
    }
}

/// One repository a run targets: where it lives, the ref its epics branch
/// from, and the branch their work merges into.
#[derive(Debug, PartialEq)]
pub struct RepoRun {
    pub path: String,
    pub base_ref: String,
    pub integration_branch: String,
}

impl Clone for RepoRun {
    fn clone(&self) -> (r: RepoRun)
        ensures
            r == *self,
    {
        RepoRun {
            path: self.path.clone(),
            base_ref: self.base_ref.clone(),
            integration_branch: self.integration_branch.clone(),
        }
    }
}

/// What a run works on, and with what.
pub struct RunConfig {
    pub repos: StrMap<RepoRun>,
    pub goal: String,
    pub default_verify: String,
    pub initial_cost: Usd,
    pub language: Language,
}

/// The repository of each id: that of the last epic with it.
pub open spec fn repos_of(epics: Seq<plan::EpicModel>) -> Map<Seq<char>, Seq<char>> {
    Map::new(
        |id: Seq<char>| plan::ids(epics).contains(id),
        |id: Seq<char>| epics[plan::last_with_id(epics, id)].repo,
    )
}

/// The values of a map of texts.
pub open spec fn text_map(m: Map<Seq<char>, String>) -> Map<Seq<char>, Seq<char>> {
    m.map_values(|s: String| s@)
}

/// Which repository each epic id belongs to.
pub fn repo_by_id(plan: &Plan) -> (r: StrMap<String>)
    ensures
        r.wf(),
        text_map(r@) == repos_of(plan@),
{
    let mut out: StrMap<String> = StrMap::new();
    let mut i: usize = 0;
    assert(text_map(out@) =~= repos_of(plan@.take(0)));
    while i < plan.epics.len()
        invariant
            i <= plan.epics@.len(),
            out.wf(),
            text_map(out@) == repos_of(plan@.take(i as int)),
        decreases plan.epics@.len() - i,
    {
        let epic = &plan.epics[i];
        let ghost before = out@;
        out.insert(epic.id.clone(), epic.repo.clone());
        proof {
            let a = plan@.take(i as int);
            let b = plan@.take(i + 1);
            assert(b =~= a.push(epic@));
            plan::lemma_push_epic(a, epic@);
            assert(text_map(before).dom() == before.dom());
            assert forall|id: Seq<char>|
                (#[trigger] text_map(out@).dom().contains(id)) == repos_of(b).dom().contains(id)
                    && (repos_of(b).dom().contains(id) ==> text_map(out@)[id] == repos_of(b)[id]) by {
                plan::lemma_last_with_id(a, id);
                assert(plan::ids(b).contains(id) == (plan::ids(a).contains(id) || id == epic@.id));
                assert(plan::last_with_id(b, id) == if id == epic@.id {
                    a.len() as int
                } else {
                    plan::last_with_id(a, id)
                });
                if id != epic@.id && plan::ids(a).contains(id) {
                    assert(text_map(before)[id] == repos_of(a)[id]);
                }
            }
            assert(text_map(out@) =~= repos_of(b));
        }
        i = i + 1;
    }
    assert(plan@.take(i as int) =~= plan@);
    out
}

/// Some dependency of the epic lives in the epic's own repository.
pub open spec fn has_same_repo_dep(
    epic: plan::EpicModel,
    repo_by_id: Map<Seq<char>, Seq<char>>,
) -> bool {
    exists|k: int|
        0 <= k < epic.depends_on.len() && repo_by_id.contains_key(#[trigger] epic.depends_on[k])
            && repo_by_id[epic.depends_on[k]] == epic.repo
}

/// The ref an epic's worktree branches from: its repo's integration branch
/// when a dependency lives in the SAME repo (so it inherits merged work),
/// otherwise its repo's base ref. Cross-repo deps do not change the base.
pub fn epic_base_ref(epic: &Epic, repo_by_id: &StrMap<String>, rc: &RepoRun) -> (r: String)
    requires
        repo_by_id.wf(),
    ensures
        r@ == if has_same_repo_dep(epic@, text_map(repo_by_id@)) {
            rc.integration_branch@
        } else {
            rc.base_ref@
        },
{
    let mut k: usize = 0;
    let ghost map = text_map(repo_by_id@);
    while k < epic.depends_on.len()
        invariant
            repo_by_id.wf(),
            map == text_map(repo_by_id@),
            k <= epic.depends_on@.len(),
            forall|j: int|
                0 <= j < k ==> !(map.contains_key(#[trigger] epic@.depends_on[j])
                    && map[epic@.depends_on[j]] == epic@.repo),
        decreases epic.depends_on@.len() - k,
    {
        assert(epic@.depends_on[k as int] == epic.depends_on@[k as int]@);
        let same_repo = match repo_by_id.get(epic.depends_on[k].as_str()) {
            Some(repo) => same(repo.as_str(), epic.repo.as_str()),
            None => false,
        };
        if same_repo {
            assert(map.contains_key(epic@.depends_on[k as int]));
            return rc.integration_branch.clone();
        }
        k = k + 1;
    }
    rc.base_ref.clone()
}

/// The id is pending and a dependency of it is lost.
pub open spec fn to_be_skipped(m: SchedulerModel, id: Seq<char>) -> bool {
    &&& m.is(id, EpicState::Pending)
    &&& exists|k: int| 0 <= k < m.deps[id].len() && m.lost(#[trigger] m.deps[id][k])
}

/// `m` is `start` with some doomed epics already skipped.
spec fn partly_cascaded(start: SchedulerModel, m: SchedulerModel) -> bool {
    &&& m.order == start.order
    &&& m.deps == start.deps
    &&& m.max_parallel == start.max_parallel
    &&& m.states.dom() == start.states.dom()
    &&& forall|id: Seq<char>| #[trigger]
        m.states.contains_key(id) ==> m.states[id] == start.states[id] || (start.doomed(id)
            && m.states[id] == EpicState::Skipped)
}

proof fn lemma_partly_step(
    start: SchedulerModel,
    round: SchedulerModel,
    m: SchedulerModel,
    id: Seq<char>,
)
    requires
        partly_cascaded(start, round),
        partly_cascaded(start, m),
        to_be_skipped(round, id),
    ensures
        partly_cascaded(start, m.with_state(id, EpicState::Skipped)),
{
    let k = choose|k: int| 0 <= k < round.deps[id].len() && round.lost(#[trigger] round.deps[id][k]);
    let dep = round.deps[id][k];
    assert(round.lost(dep));
    assert(start.is(id, EpicState::Pending));
    if start.lost(dep) {
        assert(start.doomed_within(id, 1)) by {
            assert(start.lost(start.deps[id][k]));
        }
    } else {
        assert(round.states.contains_key(dep));
        assert(start.doomed(dep));
        let n = choose|n: nat| start.doomed_within(dep, n);
        assert(start.doomed_within(id, n + 1)) by {
            assert(start.doomed_within(start.deps[id][k], (n + 1 - 1) as nat));
        }
    }
    assert(start.doomed(id));
    let w = m.with_state(id, EpicState::Skipped);
    assert(w.states.dom() =~= start.states.dom());
    assert forall|x: Seq<char>| #[trigger] w.states.contains_key(x) implies w.states[x]
        == start.states[x] || (start.doomed(x) && w.states[x] == EpicState::Skipped) by {
        assert(m.states.contains_key(x));
    }
}

proof fn lemma_doomed_skipped(start: SchedulerModel, m: SchedulerModel, id: Seq<char>, n: nat)
    requires
        partly_cascaded(start, m),
        m.settled(),
        start.doomed_within(id, n),
    ensures
        m.is(id, EpicState::Skipped),
    decreases n,
{
    let k = choose|k: int|
        0 <= k < start.deps[id].len() && (start.lost(#[trigger] start.deps[id][k])
            || start.doomed_within(start.deps[id][k], (n - 1) as nat));
    let dep = start.deps[id][k];
    assert(start.lost(dep) || start.doomed_within(dep, (n - 1) as nat));
    if start.lost(dep) {
        assert(m.states.contains_key(dep));
        assert(m.lost(dep)) by {
            assert(m.states[dep] == start.states[dep] || m.states[dep] == EpicState::Skipped);
        }
    } else {
        lemma_doomed_skipped(start, m, dep, (n - 1) as nat);
    }
    assert(m.lost(m.deps[id][k]));
    assert(m.states.contains_key(id));
}

proof fn lemma_settled_is_cascaded(start: SchedulerModel, m: SchedulerModel)
    requires
        partly_cascaded(start, m),
        m.settled(),
    ensures
        m == start.cascaded(),
{
    assert forall|id: Seq<char>| m.states.contains_key(id) implies #[trigger] m.states[id]
        == start.cascaded().states[id] by {
        assert(m.states.contains_key(id));
        if start.doomed(id) {
            let n = choose|n: nat| start.doomed_within(id, n);
            lemma_doomed_skipped(start, m, id, n);
        }
    }
    assert(m.states =~= start.cascaded().states);
    assert(m =~= start.cascaded());
}

/// Filtering a prefix gives a prefix of the filtered whole.
proof fn lemma_filter_take<A>(s: Seq<A>, i: int, f: spec_fn(A) -> bool)
    requires
        0 <= i <= s.len(),
    ensures
        s.take(i).filter(f).len() <= s.filter(f).len(),
        s.filter(f).take(s.take(i).filter(f).len() as int) == s.take(i).filter(f),
    decreases s.len() - i,
{
    if i < s.len() {
        lemma_filter_take(s, i + 1, f);
        assert(s.take(i + 1) =~= s.take(i).push(s[i]));
        s.take(i).lemma_filter_push(s[i], f);
        let a = s.take(i).filter(f);
        let b = s.take(i + 1).filter(f);
        assert(b.take(a.len() as int) =~= a);
        assert(s.filter(f).take(a.len() as int) =~= s.filter(f).take(b.len() as int).take(
            a.len() as int,
        ));
    } else {
        assert(s.take(i) =~= s);
        assert(s.filter(f).take(s.filter(f).len() as int) =~= s.filter(f));
    }
}

} // verus!
