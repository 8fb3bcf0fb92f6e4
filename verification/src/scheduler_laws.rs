//! What the scheduler and the driver decide, in terms of the plan and of where
//! every epic stands.
use vstd::prelude::*;

use crate::app::StageEvent;
use crate::driver::{end_event, merge_end, Driver, EpicEnd, Step};
use crate::orchestrator::{EpicState, RunConfig, Scheduler, SchedulerModel};
use crate::plan;
use crate::plan::Plan;
use crate::schedule_laws;
use crate::text;
use crate::worktree::MergeResult;

verus! {

/// The epic waits, and everything it depends on has succeeded.
pub open spec fn may_start(m: SchedulerModel, id: Seq<char>) -> bool {
    &&& m.states.contains_key(id)
    &&& m.states[id] == EpicState::Pending
    &&& forall|k: int|
        0 <= k < m.deps[id].len() ==> m.states.contains_key(#[trigger] m.deps[id][k])
            && m.states[m.deps[id][k]] == EpicState::Succeeded
}

/// The epics that run.
pub open spec fn running(m: SchedulerModel) -> Set<Seq<char>> {
    Set::new(|id: Seq<char>| m.states.contains_key(id) && m.states[id] == EpicState::Running)
}

/// The ids are the ones to start: each may start, they fill the free slots and
/// no more, and while slots are left no epic that may start is passed over.
/// Where the ids of the plan differ, they come in plan order, and what is passed
/// over comes after all of them.
pub open spec fn fills_the_slots(m: SchedulerModel, ids: Seq<Seq<char>>) -> bool {
    &&& forall|i: int| 0 <= i < ids.len() ==> may_start(m, #[trigger] ids[i])
    &&& ids.len() > 0 ==> ids.len() + running(m).len() <= m.max_parallel
    &&& forall|j: int|
        0 <= j < m.order.len() && may_start(m, #[trigger] m.order[j]) && !ids.contains(m.order[j])
            ==> ids.len() + running(m).len() >= m.max_parallel
    &&& m.order.no_duplicates() ==> forall|i: int, j: int|
        0 <= i < j < ids.len() ==> m.order.index_of(#[trigger] ids[i]) < m.order.index_of(
            #[trigger] ids[j],
        )
    &&& m.order.no_duplicates() ==> forall|i: int, j: int|
        0 <= i < ids.len() && 0 <= j < m.order.len() && may_start(m, #[trigger] m.order[j])
            && !ids.contains(m.order[j]) ==> m.order.index_of(#[trigger] ids[i]) < j
}

proof fn lemma_filter_places(s: Seq<Seq<char>>, f: spec_fn(Seq<char>) -> bool)
    requires
        s.no_duplicates(),
    ensures
        forall|i: int| 0 <= i < s.filter(f).len() ==> s.contains(#[trigger] s.filter(f)[i]),
        forall|i: int, j: int|
            0 <= i < j < s.filter(f).len() ==> s.index_of(#[trigger] s.filter(f)[i]) < s.index_of(
                #[trigger] s.filter(f)[j],
            ),
    decreases s.len(),
{
    reveal(Seq::filter);
    if s.len() > 0 {
        let rest = s.drop_last();
        lemma_filter_places(rest, f);
        let t = s.filter(f);
        let u = rest.filter(f);
        assert forall|i: int| 0 <= i < t.len() implies s.contains(#[trigger] t[i]) by {
            if i < u.len() {
                assert(t[i] == u[i]);
                let k = choose|k: int| 0 <= k < rest.len() && rest[k] == u[i];
                assert(s[k] == t[i]);
            } else {
                assert(s[s.len() - 1] == t[i]);
            }
        }
        assert forall|i: int, j: int| 0 <= i < j < t.len() implies s.index_of(#[trigger] t[i])
            < s.index_of(#[trigger] t[j]) by {
            assert(t[i] == u[i]);
            assert(rest.contains(u[i]));
            let a = rest.index_of(u[i]);
            assert(rest[a] == s[a]);
            assert(s.index_of(t[i]) == a);
            if j < u.len() {
                assert(t[j] == u[j]);
                assert(rest.contains(u[j]));
                let b = rest.index_of(u[j]);
                assert(rest[b] == s[b]);
                assert(s.index_of(t[j]) == b);
            } else {
                assert(t[j] == s.last());
                assert(s.index_of(t[j]) == s.len() - 1);
            }
        }
    }
}

proof fn lemma_filter_members(s: Seq<Seq<char>>, f: spec_fn(Seq<char>) -> bool)
    ensures
        forall|x: Seq<char>| #[trigger] s.filter(f).contains(x) <==> s.contains(x) && f(x),
    decreases s.len(),
{
    reveal(Seq::filter);
    if s.len() > 0 {
        let rest = s.drop_last();
        lemma_filter_members(rest, f);
        assert forall|x: Seq<char>| #[trigger] s.filter(f).contains(x) <==> s.contains(x) && f(x) by {
            let t = s.filter(f);
            let u = rest.filter(f);
            if t.contains(x) {
                let i = choose|i: int| 0 <= i < t.len() && t[i] == x;
                if i < u.len() {
                    assert(u[i] == x);
                    assert(u.contains(x));
                    let k = choose|k: int| 0 <= k < rest.len() && rest[k] == x;
                    assert(s[k] == x);
                } else {
                    assert(s[s.len() - 1] == x);
                }
            }
            if s.contains(x) && f(x) {
                let k = choose|k: int| 0 <= k < s.len() && s[k] == x;
                if k < rest.len() {
                    assert(rest[k] == x);
                    assert(u.contains(x));
                    let i = choose|i: int| 0 <= i < u.len() && u[i] == x;
                    assert(t[i] == x);
                } else {
                    assert(t[t.len() - 1] == x);
                }
            }
        }
    }
}

/// The ids that the model gives to start are the ones to start.
proof fn lemma_next_ids_fill(m: SchedulerModel)
    requires
        m.wf(),
    ensures
        fills_the_slots(m, m.next_ids()),
{
    let ids = m.next_ids();
    let all = m.all_ready();
    let f = |id: Seq<char>| m.ready(id);
    schedule_laws::law_next_ids_may_start(m);
    lemma_filter_members(m.order, f);
    assert(running(m) =~= m.in_state(EpicState::Running));
    assert forall|i: int| 0 <= i < ids.len() implies may_start(m, #[trigger] ids[i]) by {
        assert(m.ready(ids[i]));
        let d = m.deps[ids[i]];
        assert forall|k: int| 0 <= k < d.len() implies m.states.contains_key(#[trigger] d[k])
            && m.states[d[k]] == EpicState::Succeeded by {
            assert(m.is(m.deps[ids[i]][k], EpicState::Succeeded));
        }
    }
    assert forall|j: int| 0 <= j < m.order.len() && may_start(m, #[trigger] m.order[j]) implies all.contains(
        m.order[j],
    ) by {
        let d = m.deps[m.order[j]];
        assert forall|k: int| 0 <= k < d.len() implies m.is(
            #[trigger] m.deps[m.order[j]][k],
            EpicState::Succeeded,
        ) by {
            assert(m.states.contains_key(d[k]));
        }
        assert(m.ready(m.order[j]));
        assert(m.order.contains(m.order[j]));
    }
    if m.order.no_duplicates() {
        lemma_filter_places(m.order, f);
        assert forall|i: int, j: int| 0 <= i < j < ids.len() implies m.order.index_of(
            #[trigger] ids[i],
        ) < m.order.index_of(#[trigger] ids[j]) by {
            assert(ids[i] == all[i] && ids[j] == all[j]);
        }
        assert forall|i: int, j: int|
            0 <= i < ids.len() && 0 <= j < m.order.len() && may_start(m, #[trigger] m.order[j])
                && !ids.contains(m.order[j]) implies m.order.index_of(#[trigger] ids[i]) < j by {
            assert(all.contains(m.order[j]));
            let p = choose|p: int| 0 <= p < all.len() && all[p] == m.order[j];
            assert(p >= ids.len()) by {
                if p < ids.len() {
                    assert(ids[p] == all[p]);
                }
            }
            assert(ids[i] == all[i]);
            assert(m.order.index_of(all[i]) < m.order.index_of(all[p]));
            assert(m.order.index_of(m.order[j]) == j);
        }
    }
}

/// The scheduler offers exactly the epics to start, and changes nothing by it.
pub proof fn law_next_ready_fills_the_slots(s: &Scheduler, r: Vec<String>)
    requires
        s.wf(),
        call_ensures(Scheduler::next_ready, (s,), r),
    ensures
        fills_the_slots(s@, text::views(r@)),
{
    s.lemma_wf();
    lemma_next_ids_fill(s@);
}

/// A new scheduler has every epic of the plan, in its order, pending, with the
/// dependencies that the plan gives it.
pub proof fn law_new_schedules_wait(p: &Plan, max_parallel: usize, r: Scheduler, i: int)
    requires
        call_ensures(Scheduler::new, (p, max_parallel), r),
        forall|a: int, b: int|
            0 <= a < b < p.epics@.len() ==> (#[trigger] p.epics@[a]).id@ != (
            #[trigger] p.epics@[b]).id@,
        0 <= i < p.epics@.len(),
    ensures
        r.wf(),
        r@.max_parallel == max_parallel,
        r@.order.len() == p.epics@.len(),
        r@.order[i] == p.epics@[i].id@,
        r@.states.contains_key(p.epics@[i].id@),
        r@.states[p.epics@[i].id@] == EpicState::Pending,
        r@.deps[p.epics@[i].id@] == text::views(p.epics@[i].depends_on@),
        r@.states.dom() == r@.order.to_set(),
{
    let epics = p@;
    assert(epics.len() == p.epics@.len());
    assert(epics[i] == p.epics@[i]@);
    assert(plan::ids(epics)[i] == p.epics@[i].id@);
    assert(plan::ids(epics).contains(p.epics@[i].id@));
    let id = p.epics@[i].id@;
    plan::lemma_last_with_id(epics, id);
    let l = plan::last_with_id(epics, id);
    assert(epics[l] == p.epics@[l]@);
    assert(l == i) by {
        if l != i {
            assert(p.epics@[l].id@ == p.epics@[i].id@);
        }
    }
    r.lemma_wf();
}

/// Only the state of one epic changes.
pub open spec fn changes_only(
    before: SchedulerModel,
    after: SchedulerModel,
    id: Seq<char>,
    state: EpicState,
) -> bool {
    &&& after.order == before.order
    &&& after.deps == before.deps
    &&& after.max_parallel == before.max_parallel
    &&& after.states.dom() == before.states.dom()
    &&& forall|x: Seq<char>| #[trigger]
        before.states.contains_key(x) && x != id ==> after.states[x] == before.states[x]
    &&& before.states.contains_key(id) ==> after.states[id] == state
}

/// Recording that an epic runs or has succeeded changes the state of that epic
/// and nothing else.
pub proof fn law_records_change_one_epic(a: &mut Scheduler, b: &mut Scheduler, id: &str)
    requires
        old(a).wf(),
        old(b).wf(),
        call_ensures(Scheduler::mark_running, (a, id), ()),
        call_ensures(Scheduler::mark_succeeded, (b, id), ()),
    ensures
        changes_only(old(a)@, final(a)@, id@, EpicState::Running),
        changes_only(old(b)@, final(b)@, id@, EpicState::Succeeded),
{
    assert(final(a)@.states.dom() =~= a@.states.dom());
    assert(final(b)@.states.dom() =~= b@.states.dom());
}

/// How a failure spreads: the epic has failed, every other epic that did not
/// wait is as it was, and an epic that waited is skipped just where something
/// that it depends on has then failed or been skipped; else it still waits.
pub open spec fn fails(before: SchedulerModel, after: SchedulerModel, id: Seq<char>) -> bool {
    &&& after.order == before.order
    &&& after.deps == before.deps
    &&& after.max_parallel == before.max_parallel
    &&& after.states.dom() == before.states.dom()
    &&& before.states.contains_key(id) ==> after.states[id] == EpicState::Failed
    &&& forall|x: Seq<char>| #[trigger]
        before.states.contains_key(x) && x != id && before.states[x] != EpicState::Pending
            ==> after.states[x] == before.states[x]
    &&& forall|x: Seq<char>| #[trigger]
        before.states.contains_key(x) && x != id && before.states[x] == EpicState::Pending
            ==> after.states[x] == EpicState::Pending || after.states[x] == EpicState::Skipped
    &&& forall|x: Seq<char>| #[trigger]
        before.states.contains_key(x) && x != id && before.states[x] == EpicState::Pending
            ==> (after.states[x] == EpicState::Skipped <==> exists|k: int|
            0 <= k < after.deps[x].len() && after.states.contains_key(#[trigger] after.deps[x][k])
                && (after.states[after.deps[x][k]] == EpicState::Failed
                || after.states[after.deps[x][k]] == EpicState::Skipped))
}

proof fn lemma_fails(m: SchedulerModel, id: Seq<char>)
    requires
        m.wf(),
    ensures
        fails(m, m.with_state(id, EpicState::Failed).cascaded(), id),
{
    let failed = m.with_state(id, EpicState::Failed);
    let after = failed.cascaded();
    schedule_laws::law_failure_settles(m, id);
    assert(after.states.dom() =~= m.states.dom());
    assert forall|x: Seq<char>| #[trigger]
        m.states.contains_key(x) && m.states[x] != EpicState::Pending implies !failed.doomed(x) by {
        if failed.doomed(x) {
            let n = choose|n: nat| failed.doomed_within(x, n);
            assert(failed.is(x, EpicState::Pending));
        }
    }
    if m.states.contains_key(id) {
        assert(!failed.doomed(id)) by {
            if failed.doomed(id) {
                let n = choose|n: nat| failed.doomed_within(id, n);
                assert(failed.is(id, EpicState::Pending));
            }
        }
    }
    assert forall|x: Seq<char>| #[trigger]
        m.states.contains_key(x) && x != id && m.states[x] == EpicState::Pending implies (
    after.states[x] == EpicState::Skipped <==> exists|k: int|
        0 <= k < after.deps[x].len() && after.states.contains_key(#[trigger] after.deps[x][k]) && (
        after.states[after.deps[x][k]] == EpicState::Failed || after.states[after.deps[x][k]]
            == EpicState::Skipped)) by {
        assert(failed.is(x, EpicState::Pending));
        if after.states[x] == EpicState::Skipped {
            assert(failed.doomed(x));
            let n = choose|n: nat| failed.doomed_within(x, n);
            let k = choose|k: int|
                0 <= k < failed.deps[x].len() && (failed.lost(#[trigger] failed.deps[x][k])
                    || failed.doomed_within(failed.deps[x][k], (n - 1) as nat));
            let y = after.deps[x][k];
            if failed.lost(y) {
                assert(!failed.doomed(y)) by {
                    if failed.doomed(y) {
                        let q = choose|q: nat| failed.doomed_within(y, q);
                        assert(failed.is(y, EpicState::Pending));
                    }
                }
            } else {
                assert(failed.doomed(y));
            }
            assert(after.states.contains_key(after.deps[x][k]));
        }
        if exists|k: int|
            0 <= k < after.deps[x].len() && after.states.contains_key(#[trigger] after.deps[x][k])
                && (after.states[after.deps[x][k]] == EpicState::Failed
                || after.states[after.deps[x][k]] == EpicState::Skipped) {
            let k = choose|k: int|
                0 <= k < after.deps[x].len() && after.states.contains_key(
                    #[trigger] after.deps[x][k],
                ) && (after.states[after.deps[x][k]] == EpicState::Failed
                    || after.states[after.deps[x][k]] == EpicState::Skipped);
            assert(after.lost(after.deps[x][k]));
            if after.states[x] == EpicState::Pending {
                assert(after.is(x, EpicState::Pending));
            }
        }
    }
}

/// Recording a failure spreads it as `fails` says.
pub proof fn law_failures_skip_what_depends_on_them(s: &mut Scheduler, id: &str)
    requires
        old(s).wf(),
        call_ensures(Scheduler::mark_failed, (s, id), ()),
    ensures
        fails(old(s)@, final(s)@, id@),
{
    s.lemma_wf();
    lemma_fails(s@, id@);
}

/// A schedule is done just where no epic of it waits or runs, and it is read as
/// it stands.
pub proof fn law_schedules_are_read_as_they_stand(
    s: &Scheduler,
    done: bool,
    id: &str,
    state: Option<EpicState>,
    count: usize,
    list: Vec<(String, EpicState)>,
    i: int,
)
    requires
        s.wf(),
        call_ensures(Scheduler::is_done, (s,), done),
        call_ensures(Scheduler::state, (s, id), state),
        call_ensures(Scheduler::running_count, (s,), count),
        call_ensures(Scheduler::snapshot, (s,), list),
    ensures
        done <==> forall|x: Seq<char>| #[trigger]
            s@.states.contains_key(x) ==> s@.states[x] == EpicState::Succeeded || s@.states[x]
                == EpicState::Failed || s@.states[x] == EpicState::Skipped,
        state is Some <==> s@.states.contains_key(id@),
        state is Some ==> state->0 == s@.states[id@],
        count == running(s@).len(),
        list@.len() == s@.order.len(),
        0 <= i < list@.len() ==> list@[i].0@ == s@.order[i] && list@[i].1
            == s@.states[s@.order[i]],
{
    assert(running(s@) =~= s@.in_state(EpicState::Running));
}

/// Unless the budget is used up, the driver starts exactly the epics to start,
/// and only those change, from waiting to running. Where there are none to
/// start, it waits for what is in flight, and the run is over where nothing is.
pub proof fn law_steps_start_what_may_start(
    d: &mut Driver,
    in_flight: bool,
    over_budget: bool,
    step: Step,
)
    requires
        old(d).wf(),
        call_ensures(Driver::next_step, (d, in_flight, over_budget), step),
    ensures
        over_budget ==> !(step is Start),
        step is Wait ==> in_flight,
        step is Finished ==> !in_flight,
        step matches Step::Finished(ev) ==> ev is Done,
        !(step is Start) ==> final(d).schedule() == old(d).schedule(),
        !(step is Start) && !over_budget ==> fills_the_slots(old(d).schedule(), Seq::empty()),
        step matches Step::Start(starts) ==> {
            let ids = Seq::new(starts@.len(), |i: int| starts@[i].id@);
            let before = old(d).schedule();
            let after = final(d).schedule();
            &&& ids.len() > 0
            &&& fills_the_slots(before, ids)
            &&& after.order == before.order && after.deps == before.deps && after.max_parallel
                == before.max_parallel && after.states.dom() == before.states.dom()
            &&& forall|x: Seq<char>| #[trigger]
                before.states.contains_key(x) && ids.contains(x) ==> after.states[x]
                    == EpicState::Running
            &&& forall|x: Seq<char>| #[trigger]
                before.states.contains_key(x) && !ids.contains(x) ==> after.states[x]
                    == before.states[x]
        },
        final(d).epics() == old(d).epics(),
        final(d).config() == old(d).config(),
{
    let m = d.schedule();
    d.lemma_schedules();
    lemma_next_ids_fill(m);
    match step {
        Step::Start(starts) => {
            let ids = Seq::new(starts@.len(), |i: int| starts@[i].id@);
            assert forall|i: int| 0 <= i < ids.len() implies ids[i] == m.next_ids()[i] by {
                assert(d.is_start(starts@[i], m.next_ids()[i]));
            }
            assert(ids =~= m.next_ids());
            schedule_laws::lemma_started(m, ids);
        },
        _ => {
            if !over_budget {
                assert(m.next_ids() =~= Seq::empty());
            }
        },
    }
}

/// A merged epic has succeeded and nothing else changes; any other end fails the
/// epic, and the failure spreads. The end is told first, then every epic that is
/// skipped by then, in plan order.
pub proof fn law_ends_are_recorded_and_told(
    d: &mut Driver,
    id: &str,
    end: EpicEnd,
    events: Vec<StageEvent>,
    i: int,
)
    requires
        old(d).wf(),
        call_ensures(Driver::finish, (d, id, end), events),
    ensures
        end is Merged ==> changes_only(
            old(d).schedule(),
            final(d).schedule(),
            id@,
            EpicState::Succeeded,
        ),
        !(end is Merged) ==> fails(old(d).schedule(), final(d).schedule(), id@),
        ({
            let after = final(d).schedule();
            let skipped = after.order.filter(
                |x: Seq<char>|
                    after.states.contains_key(x) && after.states[x] == EpicState::Skipped,
            );
            &&& events@.len() == 1 + skipped.len()
            &&& match end {
                EpicEnd::Merged => events@[0] matches StageEvent::EpicMerged { id: e } && e@ == id@,
                EpicEnd::Conflict => events@[0] matches StageEvent::EpicConflict { id: e } && e@
                    == id@,
                EpicEnd::Failed { reason } => events@[0] matches StageEvent::EpicFailed {
                    id: e,
                    reason: r,
                } && e@ == id@ && r@ == reason@,
            }
            &&& 0 <= i < skipped.len() ==> (events@[i + 1] matches StageEvent::EpicSkipped { id: e }
                && e@ == skipped[i])
        }),
        final(d).epics() == old(d).epics(),
        final(d).config() == old(d).config(),
{
    let m = d.schedule();
    d.lemma_schedules();
    let after = final(d).schedule();
    if end is Merged {
        assert(after.states.dom() =~= m.states.dom());
    } else {
        lemma_fails(m, id@);
    }
    let f = |x: Seq<char>| after.states.contains_key(x) && after.states[x] == EpicState::Skipped;
    let g = |x: Seq<char>| after.is(x, EpicState::Skipped);
    assert(f =~= g);
    let skipped = after.order.filter(f);
    if 0 <= i < skipped.len() {
        assert(events@[i + 1] matches StageEvent::EpicSkipped { id: e } && e@ == skipped[i]);
    }
}

/// The end of a merge: merged work ends the epic as merged, and only then its
/// worktree goes; a conflict and an error keep it, and an error is the reason.
pub proof fn law_only_merged_worktrees_go(
    result: &Result<MergeResult, String>,
    r: (EpicEnd, bool),
    id: &str,
    ev: StageEvent,
)
    requires
        call_ensures(merge_end, (result,), r),
        call_ensures(end_event, (id, &r.0), ev),
    ensures
        r.1 <==> *result == Ok::<MergeResult, String>(MergeResult::Merged),
        r.0 is Merged <==> *result == Ok::<MergeResult, String>(MergeResult::Merged),
        r.0 is Conflict <==> *result == Ok::<MergeResult, String>(MergeResult::Conflict),
        *result matches Err(e) ==> (r.0 matches EpicEnd::Failed { reason } && reason@ == e@),
        r.0 is Merged ==> (ev matches StageEvent::EpicMerged { id: e } && e@ == id@),
        r.0 is Conflict ==> (ev matches StageEvent::EpicConflict { id: e } && e@ == id@),
        r.0 matches EpicEnd::Failed { reason } ==> (ev matches StageEvent::EpicFailed {
            id: e,
            reason: told,
        } && e@ == id@ && told@ == reason@),
{
}

/// A run starts with every epic of its plan waiting; a resumed one starts with
/// the epics that had merged as succeeded and all others waiting. At most three
/// epics run at once.
pub proof fn law_runs_start_from_what_has_merged(
    p: &Plan,
    config: RunConfig,
    merged: &Vec<String>,
    fresh: Driver,
    resumed: Driver,
    i: int,
)
    requires
        config.repos.wf(),
        call_ensures(Driver::new, (p, config), fresh),
        call_ensures(Driver::resume, (p, config, merged), resumed),
        0 <= i < p@.len(),
    ensures
        fresh.wf() && resumed.wf(),
        fresh.epics() == p@ && resumed.epics() == p@,
        fresh.config() == config && resumed.config() == config,
        fresh.schedule().max_parallel == 3 && resumed.schedule().max_parallel == 3,
        fresh.schedule().order[i] == p@[i].id && resumed.schedule().order[i] == p@[i].id,
        fresh.schedule().states.contains_key(p@[i].id),
        fresh.schedule().states[p@[i].id] == EpicState::Pending,
        resumed.schedule().states.contains_key(p@[i].id),
        (exists|k: int| 0 <= k < merged@.len() && (#[trigger] merged@[k])@ == p@[i].id)
            ==> resumed.schedule().states[p@[i].id] == EpicState::Succeeded,
        (forall|k: int| 0 <= k < merged@.len() ==> (#[trigger] merged@[k])@ != p@[i].id)
            ==> resumed.schedule().states[p@[i].id] == EpicState::Pending,
{
    let epics = p@;
    let ids = text::views(merged@);
    assert(ids.len() == merged@.len());
    assert(plan::ids(epics)[i] == epics[i].id);
    assert(plan::ids(epics).contains(epics[i].id));
    crate::driver::law_resume_runs_the_rest(epics, 3, ids);
    crate::driver::law_runs_stay_sound(epics, 3, ids, Seq::empty());
    resumed.lemma_schedules();
    fresh.lemma_schedules();
    if exists|k: int| 0 <= k < merged@.len() && (#[trigger] merged@[k])@ == p@[i].id {
        let k = choose|k: int| 0 <= k < merged@.len() && (#[trigger] merged@[k])@ == p@[i].id;
        assert(ids[k] == epics[i].id);
        assert(ids.contains(epics[i].id));
    }
    if forall|k: int| 0 <= k < merged@.len() ==> (#[trigger] merged@[k])@ != p@[i].id {
        if ids.contains(epics[i].id) {
            let k = choose|k: int| 0 <= k < ids.len() && ids[k] == epics[i].id;
            assert(merged@[k]@ == epics[i].id);
        }
    }
}

} // verus!
