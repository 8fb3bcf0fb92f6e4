//! What holds of the events that a run sends: when an epic starts, how many
//! are open at once, and that the end comes once and last.
use vstd::prelude::*;

use crate::app::StageEvent;
use crate::driver;
use crate::driver::{EpicEnd, Move};
use crate::orchestrator;
use crate::orchestrator::EpicState;
use crate::plan;
use crate::schedule_laws;

verus! {

/// The event tells that the epic started.
pub open spec fn starts(ev: StageEvent, id: Seq<char>) -> bool {
    ev matches StageEvent::EpicStarted { id: e, .. } && e@ == id
}

/// The event tells that the epic has merged.
pub open spec fn merges(ev: StageEvent, id: Seq<char>) -> bool {
    ev matches StageEvent::EpicMerged { id: e } && e@ == id
}

/// The event tells that the epic ended, in one way or another.
pub open spec fn ends(ev: StageEvent, id: Seq<char>) -> bool {
    match ev {
        StageEvent::EpicMerged { id: e } => e@ == id,
        StageEvent::EpicConflict { id: e } => e@ == id,
        StageEvent::EpicFailed { id: e, .. } => e@ == id,
        _ => false,
    }
}

/// The event tells that the epic is skipped.
pub open spec fn skips(ev: StageEvent, id: Seq<char>) -> bool {
    ev matches StageEvent::EpicSkipped { id: e } && e@ == id
}

/// Some event tells that the epic started.
pub open spec fn told_start(log: Seq<StageEvent>, id: Seq<char>) -> bool {
    exists|i: int| 0 <= i < log.len() && starts(#[trigger] log[i], id)
}

/// Some event tells that the epic has merged.
pub open spec fn told_merge(log: Seq<StageEvent>, id: Seq<char>) -> bool {
    exists|i: int| 0 <= i < log.len() && merges(#[trigger] log[i], id)
}

/// Some event tells that the epic ended.
pub open spec fn told_end(log: Seq<StageEvent>, id: Seq<char>) -> bool {
    exists|i: int| 0 <= i < log.len() && ends(#[trigger] log[i], id)
}

/// Some event tells that the epic is skipped.
pub open spec fn told_skip(log: Seq<StageEvent>, id: Seq<char>) -> bool {
    exists|i: int| 0 <= i < log.len() && skips(#[trigger] log[i], id)
}

/// The epics that started and have not ended yet.
pub open spec fn open_epics(log: Seq<StageEvent>) -> Set<Seq<char>> {
    Set::new(|id: Seq<char>| told_start(log, id) && !told_end(log, id))
}

/// The events of a move.
pub open spec fn sent_by(mv: Move) -> Seq<StageEvent> {
    match mv {
        Move::Start { events } => events,
        Move::End { events, .. } => events,
        Move::Progress { event } => seq![event],
    }
}

/// The events of a sequence of moves.
pub open spec fn sent(moves: Seq<Move>) -> Seq<StageEvent>
    decreases moves.len(),
{
    if moves.len() == 0 {
        Seq::empty()
    } else {
        sent(moves.drop_last()) + sent_by(moves.last())
    }
}

/// The events of a whole run: those of its moves, and then the one that
/// `Driver::next_step` gives when the run is finished.
pub open spec fn whole_log(moves: Seq<Move>) -> Seq<StageEvent> {
    sent(moves).push(StageEvent::Done)
}

proof fn lemma_told_concat(a: Seq<StageEvent>, b: Seq<StageEvent>, id: Seq<char>)
    ensures
        told_start(a + b, id) == (told_start(a, id) || told_start(b, id)),
        told_merge(a + b, id) == (told_merge(a, id) || told_merge(b, id)),
        told_end(a + b, id) == (told_end(a, id) || told_end(b, id)),
        told_skip(a + b, id) == (told_skip(a, id) || told_skip(b, id)),
{
    let c = a + b;
    assert forall|i: int| 0 <= i < a.len() implies c[i] == #[trigger] a[i] by {}
    assert forall|i: int| 0 <= i < b.len() implies c[a.len() + i] == #[trigger] b[i] by {}
    assert forall|i: int| 0 <= i < c.len() implies #[trigger] c[i] == if i < a.len() {
        a[i]
    } else {
        b[i - a.len()]
    } by {}
}

/// The ids that may start are all different, where the ids of the plan are.
proof fn lemma_next_ids_differ(m: orchestrator::SchedulerModel)
    requires
        m.order.no_duplicates(),
    ensures
        m.next_ids().no_duplicates(),
{
    lemma_filter_differ(m.order, |id: Seq<char>| m.ready(id));
}

proof fn lemma_filter_differ(s: Seq<Seq<char>>, keep: spec_fn(Seq<char>) -> bool)
    requires
        s.no_duplicates(),
    ensures
        s.filter(keep).no_duplicates(),
    decreases s.len(),
{
    reveal(Seq::filter);
    if s.len() > 0 {
        let init = s.drop_last();
        assert(init.no_duplicates()) by {
            assert forall|i: int, j: int| 0 <= i < init.len() && 0 <= j < init.len() && i != j
                implies init[i] != init[j] by {
                assert(s[i] != s[j]);
            }
        }
        lemma_filter_differ(init, keep);
        assert forall|k: int| 0 <= k < init.filter(keep).len() implies #[trigger] init.filter(
            keep,
        )[k] != s.last() by {
            let x = init.filter(keep)[k];
            assert(init.filter(keep).contains(x));
            init.lemma_filter_contains_rev(keep, x);
            let i = choose|i: int| 0 <= i < init.len() && init[i] == x;
            assert(s[i] == x);
        }
    }
}

/// What the events told so far say of each epic, by its state.
spec fn follows(
    m: orchestrator::SchedulerModel,
    log: Seq<StageEvent>,
    merged: Seq<Seq<char>>,
) -> bool {
    &&& forall|x: Seq<char>| #[trigger]
        m.states.contains_key(x) ==> match m.states[x] {
            EpicState::Pending => !told_start(log, x) && !told_end(log, x),
            EpicState::Running => told_start(log, x) && !told_end(log, x),
            EpicState::Succeeded => merged.contains(x) || (told_start(log, x) && told_merge(log, x)),
            EpicState::Failed => told_start(log, x),
            EpicState::Skipped => told_skip(log, x),
        }
    &&& forall|x: Seq<char>| #[trigger] told_start(log, x) && !told_end(log, x) ==> m.is(
        x,
        EpicState::Running,
    )
}

/// What the events of a start tell.
proof fn lemma_starts_told(
    events: Seq<StageEvent>,
    epics: Seq<plan::EpicModel>,
    m: orchestrator::SchedulerModel,
    x: Seq<char>,
)
    requires
        schedule_laws::schedules(m, epics),
        driver::tells_starts(events, epics, m.next_ids()),
    ensures
        told_start(events, x) == m.next_ids().contains(x),
        !told_merge(events, x),
        !told_end(events, x),
        !told_skip(events, x),
        forall|i: int, id: Seq<char>|
            0 <= i < events.len() ==> (#[trigger] starts(events[i], id)) == (id == m.next_ids()[i]),
{
    let ids = m.next_ids();
    schedule_laws::law_next_ids_may_start(m);
    assert forall|i: int| 0 <= i < ids.len() implies (#[trigger] driver::epic_of(epics, ids[i])).id
        == ids[i] by {
        assert(m.ready(ids[i]));
        assert(m.order.to_set().contains(ids[i]));
        plan::lemma_last_with_id(epics, ids[i]);
    }
    assert forall|i: int, id: Seq<char>| 0 <= i < events.len() implies (#[trigger] starts(
        events[i],
        id,
    )) == (id == ids[i]) by {
        assert(driver::tells_start(events[i], driver::epic_of(epics, ids[i])));
    }
    if ids.contains(x) {
        let i = choose|i: int| 0 <= i < ids.len() && ids[i] == x;
        assert(starts(events[i], x));
    }
    assert forall|i: int| 0 <= i < events.len() implies !merges(#[trigger] events[i], x) && !ends(
        events[i],
        x,
    ) && !skips(events[i], x) by {
        assert(driver::tells_start(events[i], driver::epic_of(epics, ids[i])));
    }
}

/// What the events of an end tell.
proof fn lemma_finish_told(
    events: Seq<StageEvent>,
    id: Seq<char>,
    end: EpicEnd,
    after: orchestrator::SchedulerModel,
    x: Seq<char>,
)
    requires
        after.wf(),
        driver::tells_finish(events, id, end, after),
    ensures
        !told_start(events, x),
        told_merge(events, x) == (x == id && end is Merged),
        told_end(events, x) == (x == id),
        after.is(x, EpicState::Skipped) ==> told_skip(events, x),
{
    let skipped = driver::skipped_ids(after);
    assert(driver::tells_end(events[0], id, end));
    assert forall|i: int| 0 < i < events.len() implies (#[trigger] events[i]) is EpicSkipped by {
        assert(events[(i - 1) + 1] is EpicSkipped);
    }
    if x == id {
        assert(ends(events[0], x));
        if end is Merged {
            assert(merges(events[0], x));
        }
    }
    if after.is(x, EpicState::Skipped) {
        let keep = |y: Seq<char>| after.is(y, EpicState::Skipped);
        assert(after.order.to_set().contains(x));
        let i = choose|i: int| 0 <= i < after.order.len() && after.order[i] == x;
        after.order.lemma_filter_contains(keep, i);
        let k = choose|k: int| 0 <= k < skipped.len() && skipped[k] == x;
        assert(skips(events[k + 1], x));
    }
}

proof fn lemma_progress_told(ev: StageEvent, x: Seq<char>)
    requires
        driver::tells_progress(ev),
    ensures
        !told_start(seq![ev], x),
        !told_merge(seq![ev], x),
        !told_end(seq![ev], x),
        !told_skip(seq![ev], x),
{
}

/// The schedule is one of the plan, sound and with each id once.
spec fn in_order(m: orchestrator::SchedulerModel, epics: Seq<plan::EpicModel>) -> bool {
    schedule_laws::schedules(m, epics) && driver::sound(m) && m.order.no_duplicates()
}

proof fn lemma_in_order(
    epics: Seq<plan::EpicModel>,
    max_parallel: nat,
    merged: Seq<Seq<char>>,
    moves: Seq<Move>,
)
    requires
        plan::unique_ids(epics),
        driver::can_reach(driver::run_start(epics, max_parallel, merged), epics, moves),
    ensures
        in_order(driver::reached(driver::run_start(epics, max_parallel, merged), moves), epics),
        driver::reached(driver::run_start(epics, max_parallel, merged), moves).max_parallel
            == max_parallel,
{
    driver::law_runs_stay_sound(epics, max_parallel, merged, moves);
    let m = driver::reached(driver::run_start(epics, max_parallel, merged), moves);
    assert forall|i: int, j: int| 0 <= i < m.order.len() && 0 <= j < m.order.len() && i != j implies
        m.order[i] != m.order[j] by {
        if i < j {
            assert(epics[i].id != epics[j].id);
        } else {
            assert(epics[j].id != epics[i].id);
        }
    }
}

proof fn lemma_move_follows(
    epics: Seq<plan::EpicModel>,
    m: orchestrator::SchedulerModel,
    log: Seq<StageEvent>,
    merged: Seq<Seq<char>>,
    mv: Move,
)
    requires
        in_order(m, epics),
        in_order(driver::moved(m, mv), epics),
        follows(m, log, merged),
        driver::can_move(m, epics, mv),
    ensures
        follows(driver::moved(m, mv), log + sent_by(mv), merged),
{
    let n = driver::moved(m, mv);
    let events = sent_by(mv);
    let after = log + events;
    match mv {
        Move::Start { .. } => {
            schedule_laws::law_next_ids_may_start(m);
            schedule_laws::lemma_started(m, m.next_ids());
            assert forall|x: Seq<char>| true implies #[trigger] told_start(after, x) == (told_start(
                log,
                x,
            ) || m.next_ids().contains(x)) && told_end(after, x) == told_end(log, x) && told_merge(
                after,
                x,
            ) == told_merge(log, x) && told_skip(after, x) == told_skip(log, x) by {
                lemma_told_concat(log, events, x);
                lemma_starts_told(events, epics, m, x);
            }
            assert forall|x: Seq<char>| #[trigger] m.next_ids().contains(x) implies m.is(
                x,
                EpicState::Pending,
            ) by {
                let i = choose|i: int| 0 <= i < m.next_ids().len() && m.next_ids()[i] == x;
                assert(m.ready(m.next_ids()[i]));
            }
            assert forall|x: Seq<char>| #[trigger] n.states.contains_key(x) implies match n.states[x] {
                EpicState::Pending => !told_start(after, x) && !told_end(after, x),
                EpicState::Running => told_start(after, x) && !told_end(after, x),
                EpicState::Succeeded => merged.contains(x) || (told_start(after, x) && told_merge(
                    after,
                    x,
                )),
                EpicState::Failed => told_start(after, x),
                EpicState::Skipped => told_skip(after, x),
            } by {
                assert(m.states.contains_key(x));
                assert(told_start(after, x) == (told_start(log, x) || m.next_ids().contains(x)));
            }
            assert forall|x: Seq<char>| #[trigger] told_start(after, x) && !told_end(
                after,
                x,
            ) implies n.is(x, EpicState::Running) by {
                if m.next_ids().contains(x) {
                    assert(m.states.contains_key(x));
                } else {
                    assert(told_start(log, x));
                    assert(m.states.contains_key(x));
                }
            }
        },
        Move::End { id, end, .. } => {
            assert forall|x: Seq<char>| true implies #[trigger] told_start(after, x) == told_start(
                log,
                x,
            ) && told_end(after, x) == (told_end(log, x) || x == id) && told_merge(after, x) == (
            told_merge(log, x) || (x == id && end is Merged)) && (told_skip(log, x) || n.is(
                x,
                EpicState::Skipped,
            ) ==> told_skip(after, x)) by {
                lemma_told_concat(log, events, x);
                lemma_finish_told(events, id, end, n, x);
            }
            assert forall|x: Seq<char>| #[trigger] n.states.contains_key(x) implies match n.states[x] {
                EpicState::Pending => !told_start(after, x) && !told_end(after, x),
                EpicState::Running => told_start(after, x) && !told_end(after, x),
                EpicState::Succeeded => merged.contains(x) || (told_start(after, x) && told_merge(
                    after,
                    x,
                )),
                EpicState::Failed => told_start(after, x),
                EpicState::Skipped => told_skip(after, x),
            } by {
                assert(m.states.contains_key(x));
                assert(told_start(after, x) == told_start(log, x));
            }
            assert forall|x: Seq<char>| #[trigger] told_start(after, x) && !told_end(
                after,
                x,
            ) implies n.is(x, EpicState::Running) by {
                assert(told_start(log, x));
                assert(m.is(x, EpicState::Running));
                let f = m.with_state(id, EpicState::Failed);
                if f.doomed(x) {
                    let s = choose|s: nat| f.doomed_within(x, s);
                    assert(f.is(x, EpicState::Pending));
                }
            }
        },
        Move::Progress { event } => {
            assert forall|x: Seq<char>| true implies #[trigger] told_start(after, x) == told_start(
                log,
                x,
            ) && told_end(after, x) == told_end(log, x) && told_merge(after, x) == told_merge(
                log,
                x,
            ) && told_skip(after, x) == told_skip(log, x) by {
                lemma_told_concat(log, events, x);
                lemma_progress_told(event, x);
            }
            assert forall|x: Seq<char>| #[trigger] n.states.contains_key(x) implies match n.states[x] {
                EpicState::Pending => !told_start(after, x) && !told_end(after, x),
                EpicState::Running => told_start(after, x) && !told_end(after, x),
                EpicState::Succeeded => merged.contains(x) || (told_start(after, x) && told_merge(
                    after,
                    x,
                )),
                EpicState::Failed => told_start(after, x),
                EpicState::Skipped => told_skip(after, x),
            } by {
                assert(told_start(after, x) == told_start(log, x));
            }
            assert forall|x: Seq<char>| #[trigger] told_start(after, x) && !told_end(
                after,
                x,
            ) implies n.is(x, EpicState::Running) by {
                assert(told_start(log, x));
            }
        },
    }
}

proof fn lemma_follows(
    epics: Seq<plan::EpicModel>,
    max_parallel: nat,
    merged: Seq<Seq<char>>,
    moves: Seq<Move>,
)
    requires
        plan::unique_ids(epics),
        driver::can_reach(driver::run_start(epics, max_parallel, merged), epics, moves),
    ensures
        follows(
            driver::reached(driver::run_start(epics, max_parallel, merged), moves),
            sent(moves),
            merged,
        ),
    decreases moves.len(),
{
    let start = driver::run_start(epics, max_parallel, merged);
    if moves.len() == 0 {
        driver::law_resume_runs_the_rest(epics, max_parallel, merged);
        lemma_in_order(epics, max_parallel, merged, moves);
        assert forall|x: Seq<char>| #[trigger] start.states.contains_key(x) implies start.states[x]
            == if merged.contains(x) {
            EpicState::Succeeded
        } else {
            EpicState::Pending
        } by {
            assert(start.order.to_set().contains(x));
            assert(plan::ids(epics).contains(x));
        }
    } else {
        let before = moves.drop_last();
        lemma_follows(epics, max_parallel, merged, before);
        lemma_in_order(epics, max_parallel, merged, before);
        lemma_in_order(epics, max_parallel, merged, moves);
        lemma_move_follows(
            epics,
            driver::reached(start, before),
            sent(before),
            merged,
            moves.last(),
        );
    }
}

/// In the events of a run of a plan, each epic starts at most once.
pub proof fn law_epics_start_at_most_once(
    epics: Seq<plan::EpicModel>,
    max_parallel: nat,
    merged: Seq<Seq<char>>,
    moves: Seq<Move>,
    id: Seq<char>,
    i: int,
    j: int,
)
    requires
        plan::valid_plan(epics),
        driver::can_reach(driver::run_start(epics, max_parallel, merged), epics, moves),
        0 <= i < j < sent(moves).len(),
        starts(sent(moves)[i], id),
    ensures
        !starts(sent(moves)[j], id),
    decreases moves.len(),
{
    let before = moves.drop_last();
    let m = driver::reached(driver::run_start(epics, max_parallel, merged), before);
    let head = sent(before);
    let chunk = sent_by(moves.last());
    lemma_in_order(epics, max_parallel, merged, before);
    lemma_in_order(epics, max_parallel, merged, moves);
    lemma_follows(epics, max_parallel, merged, before);
    if j < head.len() {
        law_epics_start_at_most_once(epics, max_parallel, merged, before, id, i, j);
    } else if starts(sent(moves)[j], id) {
        let k = j - head.len();
        assert(chunk[k] == sent(moves)[j]);
        assert(told_start(chunk, id));
        lemma_chunk_starts(epics, m, moves.last(), id);
        if i < head.len() {
            assert(starts(head[i], id));
            assert(told_start(head, id));
            assert(m.states.contains_key(id));
        } else {
            assert(chunk[i - head.len()] == sent(moves)[i]);
            lemma_next_ids_differ(m);
            lemma_starts_told(chunk, epics, m, id);
            assert(starts(chunk[i - head.len()], id));
            assert(starts(chunk[k], id));
        }
    }
}

/// Where a move tells that an epic starts, the move is a start, and the epic
/// was ready for it.
proof fn lemma_chunk_starts(
    epics: Seq<plan::EpicModel>,
    m: orchestrator::SchedulerModel,
    mv: Move,
    id: Seq<char>,
)
    requires
        in_order(m, epics),
        in_order(driver::moved(m, mv), epics),
        driver::can_move(m, epics, mv),
        told_start(sent_by(mv), id),
    ensures
        mv is Start,
        m.ready(id),
{
    match mv {
        Move::Start { events } => {
            lemma_starts_told(events, epics, m, id);
            schedule_laws::law_next_ids_may_start(m);
            let i = choose|i: int| 0 <= i < m.next_ids().len() && m.next_ids()[i] == id;
            assert(m.ready(m.next_ids()[i]));
        },
        Move::End { id: e, end, events } => {
            lemma_finish_told(events, e, end, driver::moved(m, mv), id);
        },
        Move::Progress { event } => {
            lemma_progress_told(event, id);
        },
    }
}

/// In the events of a run of a plan, an epic starts only after everything
/// that it depends on has merged, before the run or in it.
pub proof fn law_epics_start_after_their_dependencies(
    epics: Seq<plan::EpicModel>,
    max_parallel: nat,
    merged: Seq<Seq<char>>,
    moves: Seq<Move>,
    e: int,
    k: int,
    j: int,
)
    requires
        plan::valid_plan(epics),
        driver::can_reach(driver::run_start(epics, max_parallel, merged), epics, moves),
        0 <= e < epics.len(),
        0 <= k < epics[e].depends_on.len(),
        0 <= j < sent(moves).len(),
        starts(sent(moves)[j], epics[e].id),
    ensures
        merged.contains(epics[e].depends_on[k]) || exists|i: int|
            0 <= i < j && merges(#[trigger] sent(moves)[i], epics[e].depends_on[k]),
    decreases moves.len(),
{
    let before = moves.drop_last();
    let m = driver::reached(driver::run_start(epics, max_parallel, merged), before);
    let head = sent(before);
    let chunk = sent_by(moves.last());
    let id = epics[e].id;
    let dep = epics[e].depends_on[k];
    if j < head.len() {
        law_epics_start_after_their_dependencies(epics, max_parallel, merged, before, e, k, j);
        if !merged.contains(dep) {
            let i = choose|i: int| 0 <= i < j && merges(#[trigger] head[i], dep);
            assert(sent(moves)[i] == head[i]);
        }
    } else {
        lemma_in_order(epics, max_parallel, merged, before);
        lemma_in_order(epics, max_parallel, merged, moves);
        lemma_follows(epics, max_parallel, merged, before);
        assert(chunk[j - head.len()] == sent(moves)[j]);
        lemma_chunk_starts(epics, m, moves.last(), id);
        plan::lemma_last_with_id(epics, id);
        assert(plan::ids(epics)[e] == id);
        assert(plan::last_with_id(epics, id) == e) by {
            let l = plan::last_with_id(epics, id);
            if l < e {
            } else if e < l {
                assert(epics[e].id != epics[l].id);
            }
        }
        assert(m.order.to_set().contains(id));
        assert(m.deps[id][k] == dep);
        assert(m.is(dep, EpicState::Succeeded));
        if !merged.contains(dep) {
            let i = choose|i: int| 0 <= i < head.len() && merges(#[trigger] head[i], dep);
            assert(sent(moves)[i] == head[i]);
        }
    }
}

/// At no point of a run have more epics started without having ended than may
/// run at once.
pub proof fn law_open_epics_are_capped(
    epics: Seq<plan::EpicModel>,
    max_parallel: nat,
    merged: Seq<Seq<char>>,
    moves: Seq<Move>,
    n: int,
)
    requires
        plan::valid_plan(epics),
        driver::can_reach(driver::run_start(epics, max_parallel, merged), epics, moves),
        0 <= n <= sent(moves).len(),
    ensures
        open_epics(sent(moves).take(n)).finite(),
        open_epics(sent(moves).take(n)).len() <= max_parallel,
    decreases moves.len(),
{
    let start = driver::run_start(epics, max_parallel, merged);
    if moves.len() == 0 {
        assert(sent(moves).take(n) =~= Seq::<StageEvent>::empty());
        assert(open_epics(sent(moves).take(n)) =~= Set::<Seq<char>>::empty());
    } else {
        let before = moves.drop_last();
        let head = sent(before);
        let chunk = sent_by(moves.last());
        if n <= head.len() {
            law_open_epics_are_capped(epics, max_parallel, merged, before, n);
            assert(sent(moves).take(n) =~= head.take(n));
        } else {
            let m = driver::reached(start, before);
            let after = driver::reached(start, moves);
            let k = n - head.len();
            let part = chunk.take(k);
            assert(sent(moves).take(n) =~= head + part);
            assert(chunk =~= part + chunk.skip(k));
            lemma_in_order(epics, max_parallel, merged, before);
            lemma_in_order(epics, max_parallel, merged, moves);
            lemma_follows(epics, max_parallel, merged, before);
            let most = if moves.last() is Start {
                after.in_state(EpicState::Running)
            } else {
                m.in_state(EpicState::Running)
            };
            schedule_laws::lemma_started(m, m.next_ids());
            assert forall|x: Seq<char>| open_epics(head + part).contains(x) implies most.contains(x) by {
                lemma_told_concat(head, part, x);
                lemma_told_concat(part, chunk.skip(k), x);
                if told_start(part, x) {
                    lemma_chunk_starts(epics, m, moves.last(), x);
                    lemma_starts_told(chunk, epics, m, x);
                    assert(m.next_ids().contains(x));
                    assert(m.states.contains_key(x));
                } else {
                    assert(told_start(head, x));
                    assert(m.is(x, EpicState::Running));
                    assert(m.states.contains_key(x));
                }
            }
            assert(open_epics(head + part).subset_of(most));
            vstd::set_lib::lemma_set_subset_finite(most, open_epics(head + part));
            vstd::set_lib::lemma_len_subset(open_epics(head + part), most);
        }
    }
}

/// When a run of a valid plan has nothing running and nothing left to start,
/// the events have told of every epic that it started or that it is skipped,
/// but for those that had merged before.
pub proof fn law_every_epic_is_told(
    epics: Seq<plan::EpicModel>,
    max_parallel: nat,
    merged: Seq<Seq<char>>,
    moves: Seq<Move>,
    id: Seq<char>,
)
    requires
        plan::valid_plan(epics),
        max_parallel > 0,
        plan::ids(epics).contains(id),
        driver::can_reach(driver::run_start(epics, max_parallel, merged), epics, moves),
        ({
            let m = driver::reached(driver::run_start(epics, max_parallel, merged), moves);
            m.in_state(EpicState::Running).len() == 0 && m.next_ids().len() == 0
        }),
    ensures
        merged.contains(id) || told_start(sent(moves), id) || told_skip(sent(moves), id),
{
    let m = driver::reached(driver::run_start(epics, max_parallel, merged), moves);
    driver::law_runs_end_with_every_epic_decided(epics, max_parallel, merged, moves, id);
    lemma_follows(epics, max_parallel, merged, moves);
    assert(m.states.contains_key(id));
}

/// The end of a run is told once, and last.
pub proof fn law_the_end_is_told_once_and_last(
    epics: Seq<plan::EpicModel>,
    max_parallel: nat,
    merged: Seq<Seq<char>>,
    moves: Seq<Move>,
    i: int,
)
    requires
        driver::can_reach(driver::run_start(epics, max_parallel, merged), epics, moves),
        0 <= i < whole_log(moves).len(),
    ensures
        whole_log(moves)[i] is Done <==> i == whole_log(moves).len() - 1,
    decreases moves.len(),
{
    if i < sent(moves).len() {
        let before = moves.drop_last();
        let head = sent(before);
        if i < head.len() {
            law_the_end_is_told_once_and_last(epics, max_parallel, merged, before, i);
            assert(whole_log(before)[i] == whole_log(moves)[i]);
        } else {
            let m = driver::reached(driver::run_start(epics, max_parallel, merged), before);
            let k = i - head.len();
            let chunk = sent_by(moves.last());
            assert(whole_log(moves)[i] == chunk[k]);
            match moves.last() {
                Move::Start { events } => {
                    assert(driver::tells_start(
                        events[k],
                        driver::epic_of(epics, m.next_ids()[k]),
                    ));
                },
                Move::End { id, end, events } => {
                    if k > 0 {
                        assert(events[(k - 1) + 1] is EpicSkipped);
                    }
                },
                Move::Progress { event } => {},
            }
        }
    }
}

} // verus!
