//! That the board is honest: the cards of a run that was started afresh stand
//! where the schedule says, at every point of the run.
use vstd::prelude::*;

use crate::app;
use crate::app::{EpicStatus, StageEvent};
use crate::driver;
use crate::driver::EpicEnd;
use crate::orchestrator;
use crate::orchestrator::EpicState;
use crate::pipeline;
use crate::plan;

verus! {

/// A card with the status shows an epic in the state.
pub open spec fn shows_state(status: EpicStatus, state: EpicState) -> bool {
    match state {
        EpicState::Pending => status is Pending,
        EpicState::Running => status is Running || status is Verifying,
        EpicState::Succeeded => status is Merged,
        EpicState::Failed => status is Failed || status is Conflict,
        EpicState::Skipped => status is Skipped,
    }
}

/// The cards are those of the epics, in plan order, and each shows the state
/// of its epic.
pub open spec fn board_shows(m: orchestrator::SchedulerModel, cards: Seq<app::CardModel>) -> bool {
    &&& cards.len() == m.order.len()
    &&& forall|i: int|
        0 <= i < cards.len() ==> (#[trigger] cards[i]).id == m.order[i] && shows_state(
            cards[i].status,
            m.states[m.order[i]],
        )
}

/// The schedule has each id once, and a state for it.
pub open spec fn plain(m: orchestrator::SchedulerModel) -> bool {
    m.wf() && m.order.no_duplicates()
}

/// Once a plan is ready, the board shows a fresh schedule of it.
pub proof fn law_a_ready_plan_fills_the_board(
    m: app::AppModel,
    ev: StageEvent,
    epics: Seq<plan::EpicModel>,
    max_parallel: nat,
)
    requires
        pipeline::tells_plan(ev, epics),
    ensures
        board_shows(orchestrator::fresh(epics, max_parallel), m.after(ev).epics),
{
    let f = orchestrator::fresh(epics, max_parallel);
    let cards = m.after(ev).epics;
    assert forall|i: int| 0 <= i < cards.len() implies (#[trigger] cards[i]).id == f.order[i]
        && shows_state(cards[i].status, f.states[f.order[i]]) by {
        let metas = ev->PlanReady_epics;
        assert(pipeline::is_meta(metas@[i], epics[i]));
        assert(plan::ids(epics)[i] == epics[i].id);
        assert(plan::ids(epics).contains(plan::ids(epics)[i]));
    }
}

/// Setting the status of one epic changes the board there and nowhere else.
proof fn lemma_marked(
    m: orchestrator::SchedulerModel,
    cards: Seq<app::CardModel>,
    id: Seq<char>,
    status: EpicStatus,
    state: EpicState,
)
    requires
        plain(m),
        board_shows(m, cards),
        m.order.contains(id),
        shows_state(status, state),
    ensures
        app::has_card(cards, id),
        board_shows(m.with_state(id, state), app::with_status(cards, id, status)),
{
    let at = choose|i: int| 0 <= i < m.order.len() && m.order[i] == id;
    assert(cards[at].id == id);
    let after = app::with_status(cards, id, status);
    let n = m.with_state(id, state);
    assert(m.order.to_set().contains(id));
    assert forall|i: int| 0 <= i < after.len() implies (#[trigger] after[i]).id == n.order[i]
        && shows_state(after[i].status, n.states[n.order[i]]) by {
        assert(cards[i].id == m.order[i]);
        if i == at {
            assert forall|j: int| 0 <= j < i implies (#[trigger] cards[j]).id != id by {
                assert(cards[j].id == m.order[j]);
            }
            assert(app::first_card(cards, id, i));
        } else {
            assert(m.order[i] != id);
            assert(!app::first_card(cards, id, i));
        }
    }
}

/// A note on a card moves no card.
proof fn lemma_noted(
    m: orchestrator::SchedulerModel,
    cards: Seq<app::CardModel>,
    id: Seq<char>,
    repo: Option<Seq<char>>,
    reason: Option<Seq<char>>,
)
    requires
        board_shows(m, cards),
    ensures
        board_shows(m, app::with_note(cards, id, repo, reason)),
{
    let after = app::with_note(cards, id, repo, reason);
    assert forall|i: int| 0 <= i < after.len() implies (#[trigger] after[i]).id == m.order[i]
        && shows_state(after[i].status, m.states[m.order[i]]) by {
        assert(cards[i].id == m.order[i]);
    }
}

/// When an epic starts, the board shows it as running.
pub proof fn law_a_start_shows_on_the_board(
    a: app::AppModel,
    m: orchestrator::SchedulerModel,
    ev: StageEvent,
    epic: plan::EpicModel,
)
    requires
        plain(m),
        board_shows(m, a.epics),
        m.order.contains(epic.id),
        driver::tells_start(ev, epic),
    ensures
        board_shows(m.with_state(epic.id, EpicState::Running), a.after(ev).epics),
{
    lemma_marked(m, a.epics, epic.id, EpicStatus::Running, EpicState::Running);
    let n = m.with_state(epic.id, EpicState::Running);
    let repo = ev->EpicStarted_repo;
    lemma_noted(
        n,
        app::with_status(a.epics, epic.id, EpicStatus::Running),
        epic.id,
        Some(repo@),
        None,
    );
}

/// Verifying a running epic, and recording what it cost, moves no card to
/// another state.
pub proof fn law_verifying_keeps_the_board(
    a: app::AppModel,
    m: orchestrator::SchedulerModel,
    ev: StageEvent,
    id: Seq<char>,
)
    requires
        plain(m),
        board_shows(m, a.epics),
        m.is(id, EpicState::Running),
        match ev {
            StageEvent::EpicVerifying { id: e } => e@ == id,
            StageEvent::EpicSucceeded { id: e, .. } => e@ == id,
            StageEvent::StageLog { .. } => true,
            StageEvent::StageAssistant { .. } => true,
            StageEvent::StageTool { .. } => true,
            StageEvent::Cost { .. } => true,
            _ => false,
        },
    ensures
        board_shows(m, a.after(ev).epics),
{
    match ev {
        StageEvent::EpicVerifying { id: e } => {
            assert(m.order.to_set().contains(id));
            lemma_marked(m, a.epics, id, EpicStatus::Verifying, EpicState::Running);
            assert(m.with_state(id, EpicState::Running).states =~= m.states);
        },
        StageEvent::EpicSucceeded { id: e, cost } => {
            let after = app::with_cost(a.epics, id, cost);
            assert forall|i: int| 0 <= i < after.len() implies (#[trigger] after[i]).id
                == m.order[i] && shows_state(after[i].status, m.states[m.order[i]]) by {
                assert(a.epics[i].id == m.order[i]);
            }
        },
        _ => {},
    }
}

/// How the state of an epic is told when it ends.
spec fn end_state(end: EpicEnd) -> EpicState {
    if end is Merged {
        EpicState::Succeeded
    } else {
        EpicState::Failed
    }
}

/// The board after the end itself was told.
proof fn lemma_end_told(
    a: app::AppModel,
    m: orchestrator::SchedulerModel,
    ev: StageEvent,
    id: Seq<char>,
    end: EpicEnd,
)
    requires
        plain(m),
        board_shows(m, a.epics),
        m.order.contains(id),
        driver::tells_end(ev, id, end),
    ensures
        board_shows(m.with_state(id, end_state(end)), a.after(ev).epics),
{
    let n = m.with_state(id, end_state(end));
    match end {
        EpicEnd::Merged => {
            lemma_marked(m, a.epics, id, EpicStatus::Merged, EpicState::Succeeded);
        },
        EpicEnd::Conflict => {
            lemma_marked(m, a.epics, id, EpicStatus::Conflict, EpicState::Failed);
        },
        EpicEnd::Failed { reason } => {
            lemma_marked(m, a.epics, id, EpicStatus::Failed, EpicState::Failed);
            let told = ev->EpicFailed_reason;
            lemma_noted(
                n,
                app::with_status(a.epics, id, EpicStatus::Failed),
                id,
                None,
                Some(told@),
            );
        },
    }
}

/// The schedule with the first `n` of the ids skipped.
spec fn skipped_upto(
    m: orchestrator::SchedulerModel,
    ids: Seq<Seq<char>>,
    n: nat,
) -> orchestrator::SchedulerModel
    decreases n,
{
    if n == 0 {
        m
    } else {
        skipped_upto(m, ids, (n - 1) as nat).with_state(ids[n - 1], EpicState::Skipped)
    }
}

proof fn lemma_skipped_upto(m: orchestrator::SchedulerModel, ids: Seq<Seq<char>>, n: nat)
    requires
        plain(m),
        n <= ids.len(),
    ensures
        plain(skipped_upto(m, ids, n)),
        skipped_upto(m, ids, n).order == m.order,
        forall|x: Seq<char>| #[trigger]
            m.states.contains_key(x) ==> skipped_upto(m, ids, n).states[x] == if ids.take(
                n as int,
            ).contains(x) {
                EpicState::Skipped
            } else {
                m.states[x]
            },
        skipped_upto(m, ids, n).states.dom() == m.states.dom(),
        skipped_upto(m, ids, n).deps == m.deps,
    decreases n,
{
    if n > 0 {
        lemma_skipped_upto(m, ids, (n - 1) as nat);
        let p = skipped_upto(m, ids, (n - 1) as nat);
        let q = skipped_upto(m, ids, n);
        let before = ids.take(n - 1);
        let now = ids.take(n as int);
        assert(now =~= before.push(ids[n - 1]));
        assert(q.states.dom() =~= m.states.dom());
        assert forall|x: Seq<char>| #[trigger] m.states.contains_key(x) implies q.states[x]
            == if now.contains(x) {
            EpicState::Skipped
        } else {
            m.states[x]
        } by {
            assert(now[n - 1] == ids[n - 1]);
            if before.contains(x) {
                let j = choose|j: int| 0 <= j < before.len() && before[j] == x;
                assert(now[j] == x);
            }
            if now.contains(x) && x != ids[n - 1] {
                let j = choose|j: int| 0 <= j < now.len() && now[j] == x;
                assert(before[j] == x);
            }
        }
    }
}

/// The board after the end and the first `n` skipped epics were told.
proof fn lemma_finish_told(
    a: app::AppModel,
    m: orchestrator::SchedulerModel,
    events: Seq<StageEvent>,
    id: Seq<char>,
    end: EpicEnd,
    after: orchestrator::SchedulerModel,
    n: nat,
)
    requires
        plain(m),
        board_shows(m, a.epics),
        m.order.contains(id),
        after.order == m.order,
        driver::tells_finish(events, id, end, after),
        n <= driver::skipped_ids(after).len(),
    ensures
        board_shows(
            skipped_upto(m.with_state(id, end_state(end)), driver::skipped_ids(after), n),
            app::replayed(a, events.take(n as int + 1)).epics,
        ),
    decreases n,
{
    let ids = driver::skipped_ids(after);
    let start = m.with_state(id, end_state(end));
    assert(start.states.dom() =~= m.states.dom());
    let told = events.take(n as int + 1);
    assert(told.drop_last() =~= events.take(n as int));
    if n == 0 {
        assert(app::replayed(a, told.drop_last()) == a);
        lemma_end_told(a, m, events[0], id, end);
    } else {
        lemma_finish_told(a, m, events, id, end, after, (n - 1) as nat);
        let p = skipped_upto(start, ids, (n - 1) as nat);
        lemma_skipped_upto(start, ids, (n - 1) as nat);
        let b = app::replayed(a, told.drop_last());
        let x = ids[n - 1];
        assert(events[(n - 1) + 1] == told.last());
        let keep = |y: Seq<char>| after.is(y, EpicState::Skipped);
        after.order.lemma_filter_contains_rev(keep, x);
        lemma_marked(p, b.epics, x, EpicStatus::Skipped, EpicState::Skipped);
    }
}

/// When an epic ends, the board shows how it ended and everything that is
/// skipped for it, once the events of the end were told.
pub proof fn law_an_end_shows_on_the_board(
    a: app::AppModel,
    m: orchestrator::SchedulerModel,
    events: Seq<StageEvent>,
    id: Seq<char>,
    end: EpicEnd,
)
    requires
        plain(m),
        board_shows(m, a.epics),
        m.is(id, EpicState::Running),
        driver::tells_finish(events, id, end, driver::ended(m, id, end)),
    ensures
        board_shows(driver::ended(m, id, end), app::replayed(a, events).epics),
{
    let after = driver::ended(m, id, end);
    let ids = driver::skipped_ids(after);
    let start = m.with_state(id, end_state(end));
    assert(start.states.dom() =~= m.states.dom());
    assert(m.order.to_set().contains(id));
    lemma_finish_told(a, m, events, id, end, after, ids.len());
    lemma_skipped_upto(start, ids, ids.len());
    assert(ids.take(ids.len() as int) =~= ids);
    assert(events.take(ids.len() as int + 1) =~= events);
    let shown = skipped_upto(start, ids, ids.len());
    let keep = |y: Seq<char>| after.is(y, EpicState::Skipped);
    assert forall|x: Seq<char>| #[trigger] after.states.contains_key(x) implies shown.states[x]
        == after.states[x] by {
        assert(start.states.contains_key(x));
        assert(m.order.to_set().contains(x));
        let i = choose|i: int| 0 <= i < m.order.len() && m.order[i] == x;
        if after.is(x, EpicState::Skipped) {
            after.order.lemma_filter_contains(keep, i);
        } else if ids.contains(x) {
            lemma_kept(after.order, keep, x);
        }
    }
    assert(after.states.dom() =~= m.states.dom());
    let cards = app::replayed(a, events).epics;
    assert forall|i: int| 0 <= i < cards.len() implies (#[trigger] cards[i]).id == after.order[i]
        && shows_state(cards[i].status, after.states[after.order[i]]) by {
        assert(m.order.to_set().contains(m.order[i]));
        assert(after.states.contains_key(after.order[i]));
    }
}

/// What passes a filter satisfies it.
proof fn lemma_kept(s: Seq<Seq<char>>, keep: spec_fn(Seq<char>) -> bool, x: Seq<char>)
    requires
        s.filter(keep).contains(x),
    ensures
        keep(x),
{
    s.lemma_filter_pred(keep, s.filter(keep).index_of(x));
}

} // verus!
