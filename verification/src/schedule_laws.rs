//! What holds of every schedule: the parallel cap, how failures spread, and
//! that a run of a valid plan never gets stuck.
use vstd::prelude::*;

use crate::orchestrator;
use crate::orchestrator::EpicState;
use crate::plan;

verus! {

/// The model after the ids were marked running, one after the other.
pub open spec fn started(
    m: orchestrator::SchedulerModel,
    ids: Seq<Seq<char>>,
) -> orchestrator::SchedulerModel
    decreases ids.len(),
{
    if ids.len() == 0 {
        m
    } else {
        started(m, ids.drop_last()).with_state(ids.last(), EpicState::Running)
    }
}

/// The model belongs to the plan: it has the plan's ids and dependencies.
pub open spec fn schedules(
    m: orchestrator::SchedulerModel,
    epics: Seq<plan::EpicModel>,
) -> bool {
    &&& m.wf()
    &&& m.order == plan::ids(epics)
    &&& m.deps == orchestrator::fresh(epics, 0).deps
}

/// `x` depends on `id`, directly or through at most `n` steps.
pub open spec fn reaches_within(
    deps: Map<Seq<char>, Seq<Seq<char>>>,
    x: Seq<char>,
    id: Seq<char>,
    n: nat,
) -> bool
    decreases n,
{
    n > 0 && exists|k: int|
        0 <= k < deps[x].len() && (#[trigger] deps[x][k] == id || reaches_within(
            deps,
            deps[x][k],
            id,
            (n - 1) as nat,
        ))
}

/// `x` depends on `id`, directly or through other epics.
pub open spec fn reaches(
    deps: Map<Seq<char>, Seq<Seq<char>>>,
    x: Seq<char>,
    id: Seq<char>,
) -> bool {
    exists|n: nat| reaches_within(deps, x, id, n)
}

/// A fresh schedule belongs to its plan, is settled and justified, and runs nothing.
pub proof fn law_fresh(epics: Seq<plan::EpicModel>, max_parallel: nat)
    ensures
        schedules(orchestrator::fresh(epics, max_parallel), epics),
        orchestrator::fresh(epics, max_parallel).settled(),
        orchestrator::fresh(epics, max_parallel).justified(),
        orchestrator::fresh(epics, max_parallel).in_state(EpicState::Running).len() == 0,
{
    let m = orchestrator::fresh(epics, max_parallel);
    assert(m.states.dom() =~= m.order.to_set());
    assert(m.deps.dom() =~= m.order.to_set());
    assert(m.deps =~= orchestrator::fresh(epics, 0).deps);
    assert(m.in_state(EpicState::Running) =~= Set::<Seq<char>>::empty());
}

/// Every id that may start is pending with all its dependencies succeeded,
/// and there are no more of them than free slots.
pub proof fn law_next_ids_may_start(m: orchestrator::SchedulerModel)
    requires
        m.wf(),
    ensures
        m.next_ids().len() <= m.free_slots(),
        forall|i: int| 0 <= i < m.next_ids().len() ==> m.ready(#[trigger] m.next_ids()[i]),
{
    let f = |id: Seq<char>| m.ready(id);
    assert forall|i: int| 0 <= i < m.next_ids().len() implies m.ready(
        #[trigger] m.next_ids()[i],
    ) by {
        assert(m.next_ids()[i] == m.all_ready()[i]);
        m.order.lemma_filter_pred(f, i);
    }
}

/// What starting some epics changes: they run, and nothing else changes.
pub proof fn lemma_started(m: orchestrator::SchedulerModel, ids: Seq<Seq<char>>)
    requires
        m.wf(),
    ensures
        started(m, ids).wf(),
        started(m, ids).order == m.order,
        started(m, ids).deps == m.deps,
        started(m, ids).max_parallel == m.max_parallel,
        started(m, ids).states.dom() == m.states.dom(),
        forall|id: Seq<char>| #[trigger]
            m.states.contains_key(id) ==> started(m, ids).states[id] == if ids.contains(id) {
                EpicState::Running
            } else {
                m.states[id]
            },
    decreases ids.len(),
{
    if ids.len() > 0 {
        lemma_started(m, ids.drop_last());
        let n = started(m, ids);
        assert(n.states.dom() =~= m.states.dom());
        assert forall|id: Seq<char>| #[trigger] m.states.contains_key(id) implies n.states[id]
            == if ids.contains(id) {
            EpicState::Running
        } else {
            m.states[id]
        } by {
            if ids.contains(id) && id != ids.last() {
                let j = choose|j: int| 0 <= j < ids.len() && ids[j] == id;
                assert(ids.drop_last()[j] == id);
            }
            if ids.drop_last().contains(id) {
                let j = choose|j: int| 0 <= j < ids.drop_last().len() && ids.drop_last()[j] == id;
                assert(ids[j] == id);
            }
            assert(ids[ids.len() - 1] == ids.last());
        }
    }
}

/// Starting every id that may start never runs more epics at once than the cap.
pub proof fn law_parallel_cap(m: orchestrator::SchedulerModel)
    requires
        m.wf(),
        m.in_state(EpicState::Running).len() <= m.max_parallel,
    ensures
        started(m, m.next_ids()).in_state(EpicState::Running).len() <= m.max_parallel,
{
    let ids = m.next_ids();
    law_next_ids_may_start(m);
    lemma_started(m, ids);
    let before = m.in_state(EpicState::Running);
    let after = started(m, ids).in_state(EpicState::Running);
    ids.lemma_cardinality_of_set();
    assert(after.subset_of(before.union(ids.to_set())));
    vstd::set_lib::lemma_len_union(before, ids.to_set());
    vstd::set_lib::lemma_len_subset(after, before.union(ids.to_set()));
}

/// Recording a start or a success keeps the schedule settled and makes no
/// epic pending.
pub proof fn law_recording_keeps_settled(
    m: orchestrator::SchedulerModel,
    id: Seq<char>,
    state: EpicState,
)
    requires
        m.wf(),
        m.settled(),
        state == EpicState::Running || state == EpicState::Succeeded,
    ensures
        m.with_state(id, state).wf(),
        m.with_state(id, state).settled(),
        forall|x: Seq<char>|
            m.with_state(id, state).is(x, EpicState::Pending) ==> #[trigger] m.is(
                x,
                EpicState::Pending,
            ),
{
    let n = m.with_state(id, state);
    assert(n.states.dom() =~= m.states.dom());
    assert forall|x: Seq<char>, k: int|
        n.is(x, EpicState::Pending) && 0 <= k < n.deps[x].len() implies !n.lost(
        #[trigger] n.deps[x][k],
    ) by {
        assert(m.is(x, EpicState::Pending));
        assert(!m.lost(m.deps[x][k]));
    }
}

/// Recording a failure settles the schedule, whatever its state was, and
/// makes no epic pending.
pub proof fn law_failure_settles(m: orchestrator::SchedulerModel, id: Seq<char>)
    requires
        m.wf(),
    ensures
        m.with_state(id, EpicState::Failed).cascaded().wf(),
        m.with_state(id, EpicState::Failed).cascaded().settled(),
        forall|x: Seq<char>|
            m.with_state(id, EpicState::Failed).cascaded().is(x, EpicState::Pending)
                ==> #[trigger] m.is(x, EpicState::Pending),
{
    let f = m.with_state(id, EpicState::Failed);
    let n = f.cascaded();
    assert(f.states.dom() =~= m.states.dom());
    assert(n.states.dom() =~= m.states.dom());
    assert forall|x: Seq<char>, k: int|
        n.is(x, EpicState::Pending) && 0 <= k < n.deps[x].len() implies !n.lost(
        #[trigger] n.deps[x][k],
    ) by {
        let dep = n.deps[x][k];
        assert(f.is(x, EpicState::Pending) && !f.doomed(x));
        if n.lost(dep) {
            if f.doomed(dep) {
                let s = choose|s: nat| f.doomed_within(dep, s);
                assert(f.doomed_within(f.deps[x][k], (s + 1 - 1) as nat));
                assert(f.doomed_within(x, s + 1));
            } else {
                assert(f.lost(f.deps[x][k]));
                assert(f.doomed_within(x, 1));
            }
        }
    }
}

proof fn lemma_doomed_reaches(
    m: orchestrator::SchedulerModel,
    id: Seq<char>,
    x: Seq<char>,
    n: nat,
)
    requires
        m.wf(),
        m.settled(),
        m.with_state(id, EpicState::Failed).doomed_within(x, n),
    ensures
        reaches(m.deps, x, id),
    decreases n,
{
    let f = m.with_state(id, EpicState::Failed);
    let k = choose|k: int|
        0 <= k < f.deps[x].len() && (f.lost(#[trigger] f.deps[x][k]) || f.doomed_within(
            f.deps[x][k],
            (n - 1) as nat,
        ));
    let dep = f.deps[x][k];
    assert(f.lost(dep) || f.doomed_within(dep, (n - 1) as nat));
    assert(m.is(x, EpicState::Pending));
    assert(!m.lost(m.deps[x][k]));
    if dep == id {
        assert(m.deps[x][k] == id);
        assert(reaches_within(m.deps, x, id, 1));
    } else {
        assert(f.doomed_within(dep, (n - 1) as nat));
        lemma_doomed_reaches(m, id, dep, (n - 1) as nat);
        let s = choose|s: nat| reaches_within(m.deps, dep, id, s);
        assert(reaches_within(m.deps, m.deps[x][k], id, (s + 1 - 1) as nat));
        assert(reaches_within(m.deps, x, id, s + 1));
    }
}

/// A failure touches only the failed epic and pending epics that depend on
/// it, directly or through others: every other epic keeps its state.
pub proof fn law_failure_spares_the_rest(
    m: orchestrator::SchedulerModel,
    id: Seq<char>,
    x: Seq<char>,
)
    requires
        m.wf(),
        m.settled(),
        m.states.contains_key(x),
        x != id,
        m.states[x] != EpicState::Pending || !reaches(m.deps, x, id),
    ensures
        m.with_state(id, EpicState::Failed).cascaded().states[x] == m.states[x],
{
    let f = m.with_state(id, EpicState::Failed);
    if f.doomed(x) {
        let n = choose|n: nat| f.doomed_within(x, n);
        lemma_doomed_reaches(m, id, x, n);
    }
}

proof fn lemma_pending_earlier(
    epics: Seq<plan::EpicModel>,
    m: orchestrator::SchedulerModel,
    p: int,
) -> (q: int)
    requires
        plan::valid_plan(epics),
        schedules(m, epics),
        plan::plan_order(epics) is Some,
        0 <= p < plan::plan_order(epics)->0.len(),
        m.is(plan::plan_order(epics)->0[p], EpicState::Pending),
    ensures
        0 <= q <= p,
        m.is(plan::plan_order(epics)->0[q], EpicState::Pending),
        forall|j: int| 0 <= j < q ==> !m.is(#[trigger] plan::plan_order(epics)->0[j], EpicState::Pending),
    decreases p,
{
    let order = plan::plan_order(epics)->0;
    if exists|j: int| 0 <= j < p && m.is(#[trigger] order[j], EpicState::Pending) {
        let j = choose|j: int| 0 <= j < p && m.is(#[trigger] order[j], EpicState::Pending);
        lemma_pending_earlier(epics, m, j)
    } else {
        p
    }
}

/// A run of a valid plan never gets stuck: while it is not done and nothing
/// runs, some epic may start.
pub proof fn law_no_deadlock(epics: Seq<plan::EpicModel>, m: orchestrator::SchedulerModel)
    requires
        plan::valid_plan(epics),
        schedules(m, epics),
        m.settled(),
        m.max_parallel > 0,
        m.in_state(EpicState::Running).len() == 0,
        !m.done(),
    ensures
        m.next_ids().len() > 0,
{
    plan::law_order_fails_iff_cycle(epics);
    plan::law_order_respects_dependencies(epics);
    let order = plan::plan_order(epics)->0;
    assert forall|id: Seq<char>| !m.is(id, EpicState::Running) by {
        if m.is(id, EpicState::Running) {
            assert(m.in_state(EpicState::Running).contains(id));
            assert(m.in_state(EpicState::Running).finite());
        }
    }
    let id0 = choose|id: Seq<char>| #[trigger]
        m.states.contains_key(id) && (m.states[id] == EpicState::Pending || m.states[id]
            == EpicState::Running);
    assert(m.is(id0, EpicState::Pending)) by {
        assert(!m.is(id0, EpicState::Running));
    }
    assert(order.to_set().contains(id0));
    let p0 = choose|p: int| 0 <= p < order.len() && order[p] == id0;
    assert(m.is(order[p0], EpicState::Pending));
    let p = lemma_pending_earlier(epics, m, p0);
    let id = order[p];
    assert(order.to_set().contains(id));
    assert(plan::ids(epics).to_set().contains(id));
    let i = choose|i: int| 0 <= i < plan::ids(epics).len() && plan::ids(epics)[i] == id;
    plan::lemma_last_with_id(epics, id);
    let l = plan::last_with_id(epics, id);
    assert(m.deps[id] == epics[l].depends_on);
    assert(epics[l].id == id);
    assert(m.ready(id)) by {
        assert forall|k: int| 0 <= k < m.deps[id].len() implies m.is(
            #[trigger] m.deps[id][k],
            EpicState::Succeeded,
        ) by {
            let dep = epics[l].depends_on[k];
            assert(m.deps[id][k] == dep);
            assert(order.contains(dep) && order.index_of(dep) < order.index_of(epics[l].id));
            let q = order.index_of(dep);
            assert(order[q] == dep);
            assert(order[order.index_of(id)] == id);
            assert(q < p);
            assert(!m.is(order[q], EpicState::Pending));
            assert(!m.is(dep, EpicState::Running));
            assert(!m.lost(m.deps[id][k]));
            assert(order.to_set().contains(dep));
            assert(m.states.contains_key(dep));
        }
    }
    let f = |x: Seq<char>| m.ready(x);
    assert(m.order[i] == id);
    m.order.lemma_filter_contains_rev(f, id);
    assert(m.all_ready().contains(id));
}

/// Starting a pending epic, and ending a running one either way, keeps every
/// skipped epic justified.
pub proof fn law_recording_keeps_justified(
    m: orchestrator::SchedulerModel,
    id: Seq<char>,
    state: EpicState,
)
    requires
        m.wf(),
        m.justified(),
        (state == EpicState::Running && m.is(id, EpicState::Pending)) || ((state
            == EpicState::Succeeded || state == EpicState::Failed) && m.is(id, EpicState::Running)),
    ensures
        state != EpicState::Failed ==> m.with_state(id, state).justified(),
        state == EpicState::Failed ==> m.with_state(id, state).cascaded().justified(),
{
    let f = m.with_state(id, state);
    assert forall|x: Seq<char>| #[trigger] f.is(x, EpicState::Skipped) implies exists|k: int|
        0 <= k < f.deps[x].len() && f.lost(#[trigger] f.deps[x][k]) by {
        assert(m.is(x, EpicState::Skipped));
        let k = choose|k: int| 0 <= k < m.deps[x].len() && m.lost(#[trigger] m.deps[x][k]);
        assert(f.lost(f.deps[x][k]));
    }
    let n = f.cascaded();
    assert forall|x: Seq<char>| #[trigger] n.is(x, EpicState::Skipped) implies exists|k: int|
        0 <= k < n.deps[x].len() && n.lost(#[trigger] n.deps[x][k]) by {
        if f.doomed(x) {
            let s = choose|s: nat| f.doomed_within(x, s);
            let k = choose|k: int|
                0 <= k < f.deps[x].len() && (f.lost(#[trigger] f.deps[x][k]) || f.doomed_within(
                    f.deps[x][k],
                    (s - 1) as nat,
                ));
            let dep = f.deps[x][k];
            assert(f.lost(dep) || f.doomed_within(dep, (s - 1) as nat));
            if f.doomed_within(dep, (s - 1) as nat) {
                assert(f.doomed(dep));
                assert(f.is(dep, EpicState::Pending));
            }
            assert(n.lost(n.deps[x][k]));
        } else {
            assert(f.is(x, EpicState::Skipped));
            let k = choose|k: int| 0 <= k < f.deps[x].len() && f.lost(#[trigger] f.deps[x][k]);
            assert(!f.is(f.deps[x][k], EpicState::Pending));
            if f.doomed(f.deps[x][k]) {
                let s = choose|s: nat| f.doomed_within(f.deps[x][k], s);
                assert(f.is(f.deps[x][k], EpicState::Pending));
            }
            assert(n.lost(n.deps[x][k]));
        }
    }
}

/// In a schedule of a valid plan whose skipped epics are justified, every
/// skipped epic depends, directly or through others, on one that failed.
pub proof fn law_skipped_depends_on_failed(
    epics: Seq<plan::EpicModel>,
    m: orchestrator::SchedulerModel,
    id: Seq<char>,
)
    requires
        plan::valid_plan(epics),
        schedules(m, epics),
        m.justified(),
        m.is(id, EpicState::Skipped),
    ensures
        exists|f: Seq<char>|
            #![trigger m.is(f, EpicState::Failed)]
            m.is(f, EpicState::Failed) && reaches(m.deps, id, f),
    decreases plan::plan_order(epics)->0.index_of(id),
{
    plan::law_order_fails_iff_cycle(epics);
    plan::law_order_respects_dependencies(epics);
    let order = plan::plan_order(epics)->0;
    let k = choose|k: int| 0 <= k < m.deps[id].len() && m.lost(#[trigger] m.deps[id][k]);
    let dep = m.deps[id][k];
    if m.is(dep, EpicState::Failed) {
        assert(m.deps[id][k] == dep);
        assert(reaches_within(m.deps, id, dep, 1));
        assert(reaches(m.deps, id, dep));
    } else {
        assert(m.order.to_set().contains(id));
        plan::lemma_last_with_id(epics, id);
        let l = plan::last_with_id(epics, id);
        assert(epics[l].depends_on[k] == dep);
        assert(order.contains(dep));
        assert(order[order.index_of(dep)] == dep);
        law_skipped_depends_on_failed(epics, m, dep);
        let f = choose|f: Seq<char>|
            #![trigger m.is(f, EpicState::Failed)]
            m.is(f, EpicState::Failed) && reaches(m.deps, dep, f);
        let s = choose|s: nat| reaches_within(m.deps, dep, f, s);
        assert(reaches_within(m.deps, m.deps[id][k], f, (s + 1 - 1) as nat));
        assert(reaches_within(m.deps, id, f, s + 1));
        assert(reaches(m.deps, id, f));
        assert(m.is(f, EpicState::Failed));
    }
}

/// What a run still has to do: two steps for a pending epic, one for a running one.
pub open spec fn work_left(m: orchestrator::SchedulerModel) -> nat {
    2 * m.in_state(EpicState::Pending).len() + m.in_state(EpicState::Running).len()
}

/// Starting a pending epic, and ending a running one either way, each leaves
/// less to do, so every run comes to an end.
pub proof fn law_every_step_makes_progress(
    m: orchestrator::SchedulerModel,
    id: Seq<char>,
    state: EpicState,
)
    requires
        m.wf(),
        (state == EpicState::Running && m.is(id, EpicState::Pending)) || ((state
            == EpicState::Succeeded || state == EpicState::Failed) && m.is(id, EpicState::Running)),
    ensures
        work_left(m.with_state(id, state)) < work_left(m),
        work_left(m.with_state(id, state).cascaded()) < work_left(m),
{
    let f = m.with_state(id, state);
    let n = f.cascaded();
    assert(f.states.dom() =~= m.states.dom());
    if state == EpicState::Running {
        assert(f.in_state(EpicState::Pending) =~= m.in_state(EpicState::Pending).remove(id));
        assert(f.in_state(EpicState::Running) =~= m.in_state(EpicState::Running).insert(id));
    } else {
        assert(f.in_state(EpicState::Pending) =~= m.in_state(EpicState::Pending));
        assert(f.in_state(EpicState::Running) =~= m.in_state(EpicState::Running).remove(id));
    }
    assert(n.in_state(EpicState::Pending).subset_of(f.in_state(EpicState::Pending)));
    assert(n.in_state(EpicState::Running) =~= f.in_state(EpicState::Running)) by {
        assert forall|x: Seq<char>| f.is(x, EpicState::Running) implies !f.doomed(x) by {
            if f.doomed(x) {
                let s = choose|s: nat| f.doomed_within(x, s);
                assert(f.is(x, EpicState::Pending));
            }
        }
    }
    vstd::set_lib::lemma_len_subset(
        n.in_state(EpicState::Pending),
        f.in_state(EpicState::Pending),
    );
}

} // verus!
