//! What each event does to the state of a run: its phase, its cards, its log and
//! what it has cost.
use vstd::prelude::*;

use crate::app;
use crate::app::{
    has_merged, is_on_hold, kanban_column, App, AppEvent, EpicStatus, EpicView, KanbanColumn, Phase,
    StageEvent, Usd,
};
use crate::strmap::StrMap;
use crate::text;

verus! {

/// A new run is being planned, with nothing done, logged or spent.
pub proof fn law_new_runs_are_being_planned(goal: String, workspace: String, budget: Usd, r: App)
    requires
        call_ensures(App::new, (goal, workspace, budget), r),
    ensures
        r.goal@ == goal@ && r.workspace@ == workspace@ && r.budget == budget,
        r.phase == Phase::Planning,
        r.epics@.len() == 0 && r.log@.len() == 0 && r.error is None,
        r.total_cost.bits == 0 && r.elapsed_secs == 0,
{
    assert(text::views(r.epics@).len() == r.epics@.len());
    assert(text::views(r.log@).len() == r.log@.len());
}

/// A ready plan starts the implementation, a fatal error fails the run with its
/// reason, and the end makes the run done unless it has failed. No other event
/// changes the phase, and only a fatal error sets the message.
pub proof fn law_events_set_the_phase(app: &mut App, ev: StageEvent)
    requires
        call_ensures(App::apply_stage, (app, ev), ()),
    ensures
        ev is PlanReady ==> final(app).phase == Phase::Implementing,
        ev is Fatal ==> final(app).phase == Phase::Failed,
        ev matches StageEvent::Fatal { reason } ==> final(app).error is Some && final(app).error->0@
            == reason@,
        ev is Done && old(app).phase == Phase::Failed ==> final(app).phase == Phase::Failed,
        ev is Done && old(app).phase != Phase::Failed ==> final(app).phase == Phase::Done,
        !(ev is PlanReady || ev is Fatal || ev is Done) ==> final(app).phase == old(app).phase,
        !(ev is Fatal) ==> text::opt_view(final(app).error) == text::opt_view(old(app).error),
        ev matches StageEvent::Cost { total } ==> final(app).total_cost == total,
        !(ev is Cost) ==> final(app).total_cost == old(app).total_cost,
        final(app).goal@ == old(app).goal@ && final(app).workspace@ == old(app).workspace@,
        final(app).budget == old(app).budget,
        final(app).spinner == old(app).spinner && final(app).elapsed_secs == old(app).elapsed_secs,
{
}

/// The log line of an event, if it has one.
pub open spec fn line_of(ev: StageEvent) -> Option<Seq<char>> {
    match ev {
        StageEvent::StageLog { tag, line } => Some("["@ + tag@ + "] "@ + line@),
        StageEvent::StageAssistant { tag, text } => Some("["@ + tag@ + "] . "@ + text@),
        StageEvent::StageTool { tag, name, .. } => Some("["@ + tag@ + "] tool: "@ + name@),
        StageEvent::PlanReady { epics } => Some(
            "plan ready: "@ + text::decimal_of(epics@.len()) + " epics"@,
        ),
        StageEvent::EpicStarted { id, title, .. } => Some("epic "@ + id@ + " started: "@ + title@),
        StageEvent::EpicSucceeded { id, .. } => Some("epic "@ + id@ + " passed verify"@),
        StageEvent::EpicMerged { id } => Some("epic "@ + id@ + " merged"@),
        StageEvent::EpicFailed { id, reason } => Some("epic "@ + id@ + " failed: "@ + reason@),
        StageEvent::EpicConflict { id } => Some(
            "epic "@ + id@ + " merge conflict, needs manual merge"@,
        ),
        StageEvent::Fatal { reason } => Some("! FATAL: "@ + reason@),
        _ => None,
    }
}

/// An event with a line adds that line at the end of the log, and the oldest
/// lines go where there are more than 2000; one without a line leaves the log.
pub proof fn law_events_are_logged(app: &mut App, ev: StageEvent)
    requires
        call_ensures(App::apply_stage, (app, ev), ()),
        old(app).log@.len() <= 2000,
    ensures
        ({
            let was = text::views(old(app).log@);
            let is = text::views(final(app).log@);
            match line_of(ev) {
                Some(line) => {
                    &&& is.len() > 0 && is.last() == line
                    &&& was.len() < 2000 ==> is == was.push(line)
                    &&& was.len() == 2000 ==> is == was.skip(1).push(line)
                },
                None => is == was,
            }
        }),
{
    let was = text::views(app.log@);
    assert(was.len() == app.log@.len());
    match line_of(ev) {
        Some(line) => {
            if was.len() == 2000 {
                assert(was.push(line).skip(1) =~= was.skip(1).push(line));
            }
        },
        None => {},
    }
}

/// A ready plan puts up one card per epic of it, in its order, waiting, with its
/// dependencies and nothing else known of it.
pub proof fn law_a_ready_plan_puts_up_its_cards(app: &mut App, ev: StageEvent, i: int)
    requires
        call_ensures(App::apply_stage, (app, ev), ()),
        ev is PlanReady,
        0 <= i < ev->epics@.len(),
    ensures
        final(app).epics@.len() == ev->epics@.len(),
        ({
            let card = final(app).epics@[i];
            let meta = ev->epics@[i];
            &&& card.id@ == meta.id@ && card.title@ == meta.title@
            &&& text::views(card.depends_on@) == text::views(meta.depends_on@)
            &&& card.status == EpicStatus::Pending
            &&& card.cost.bits == 0 && card.repo@.len() == 0 && card.reason is None
        }),
{
    let v = text::views(final(app).epics@);
    assert(v.len() == final(app).epics@.len());
    assert(v[i] == final(app).epics@[i]@);
}

/// The epic that an event is about.
pub open spec fn about(ev: StageEvent) -> Option<Seq<char>> {
    match ev {
        StageEvent::EpicStarted { id, .. } => Some(id@),
        StageEvent::EpicVerifying { id } => Some(id@),
        StageEvent::EpicSucceeded { id, .. } => Some(id@),
        StageEvent::EpicFailed { id, .. } => Some(id@),
        StageEvent::EpicSkipped { id } => Some(id@),
        StageEvent::EpicMerged { id } => Some(id@),
        StageEvent::EpicConflict { id } => Some(id@),
        _ => None,
    }
}

/// An event about an epic moves the first card with its id, to the status that
/// the event tells, and keeps what the event says nothing of.
pub proof fn law_events_move_their_card(app: &mut App, ev: StageEvent, i: int)
    requires
        call_ensures(App::apply_stage, (app, ev), ()),
        0 <= i < old(app).epics@.len(),
        about(ev) == Some(old(app).epics@[i].id@),
        forall|j: int| 0 <= j < i ==> (#[trigger] old(app).epics@[j]).id@ != old(app).epics@[i].id@,
    ensures
        final(app).epics@.len() == old(app).epics@.len(),
        ({
            let was = old(app).epics@[i];
            let is = final(app).epics@[i];
            &&& ev is EpicStarted ==> is.status == EpicStatus::Running && is.reason is None
            &&& ev matches StageEvent::EpicStarted { repo, .. } ==> is.repo@ == repo@
            &&& ev is EpicVerifying ==> is.status == EpicStatus::Verifying
            &&& ev is EpicMerged ==> is.status == EpicStatus::Merged
            &&& ev is EpicConflict ==> is.status == EpicStatus::Conflict
            &&& ev is EpicSkipped ==> is.status == EpicStatus::Skipped
            &&& ev is EpicFailed ==> is.status == EpicStatus::Failed
            &&& ev matches StageEvent::EpicFailed { reason, .. } ==> is.reason is Some
                && is.reason->0@ == reason@
            &&& ev is EpicSucceeded ==> is.status == was.status
            &&& ev matches StageEvent::EpicSucceeded { cost, .. } ==> is.cost == cost
            &&& !(ev is EpicSucceeded) ==> is.cost == was.cost
            &&& !(ev is EpicStarted) ==> is.repo@ == was.repo@
            &&& !(ev is EpicStarted) && !(ev is EpicFailed) ==> text::opt_view(is.reason)
                == text::opt_view(was.reason)
            &&& is.id@ == was.id@ && is.title@ == was.title@
            &&& text::views(is.depends_on@) == text::views(was.depends_on@)
        }),
        forall|k: int|
            0 <= k < old(app).epics@.len() && k != i ==> (#[trigger] final(app).epics@[k])@
                == old(app).epics@[k]@,
{
    let was = text::views(app.epics@);
    let is = text::views(final(app).epics@);
    let id = app.epics@[i].id@;
    assert(was.len() == app.epics@.len());
    assert(is.len() == final(app).epics@.len());
    assert forall|k: int| 0 <= k < was.len() implies (#[trigger] was[k]) == app.epics@[k]@ by {}
    assert(app::first_card(was, id, i)) by {
        assert forall|j: int| 0 <= j < i implies (#[trigger] was[j]).id != id by {
            assert(was[j] == app.epics@[j]@);
        }
    }
    assert(app::has_card(was, id)) by {
        assert(was[i].id == id);
    }
    lemma_first_stays(was, id, i);
    assert forall|k: int| 0 <= k < was.len() && k != i implies !app::first_card(was, id, k) by {
        if k < i {
            assert(was[k] == app.epics@[k]@);
        }
    }
    assert(is.len() == was.len());
    assert forall|k: int| 0 <= k < is.len() implies (#[trigger] is[k]) == final(app).epics@[k]@ by {}
    assert(is[i] == final(app).epics@[i]@);
    assert forall|k: int| 0 <= k < was.len() && k != i implies (#[trigger] final(app).epics@[k])@
        == app.epics@[k]@ by {
        assert(is[k] == final(app).epics@[k]@);
        assert(was[k] == app.epics@[k]@);
        assert(is[k] == was[k]);
    }
}

/// Setting a status keeps the place of a card.
proof fn lemma_first_stays(cards: Seq<app::CardModel>, id: Seq<char>, i: int)
    requires
        app::first_card(cards, id, i),
    ensures
        forall|status: EpicStatus, k: int|
            app::first_card(#[trigger] app::with_status(cards, id, status), id, k)
                <==> #[trigger] app::first_card(cards, id, k),
{
    assert forall|status: EpicStatus, k: int|
        app::first_card(#[trigger] app::with_status(cards, id, status), id, k)
            <==> #[trigger] app::first_card(cards, id, k) by {
        let after = app::with_status(cards, id, status);
        assert forall|j: int| 0 <= j < cards.len() implies (#[trigger] after[j]).id
            == cards[j].id by {}
        if app::first_card(after, id, k) {
            assert forall|j: int| 0 <= j < k implies (#[trigger] cards[j]).id != id by {
                assert(after[j].id == cards[j].id);
            }
        }
    }
}

/// An event about an epic without a card puts one up at the end where the epic
/// starts or is skipped, and changes no card otherwise. Events that are about no
/// epic change no card, but for a ready plan.
pub proof fn law_unknown_epics_get_a_card_when_they_start(app: &mut App, ev: StageEvent)
    requires
        call_ensures(App::apply_stage, (app, ev), ()),
        forall|j: int|
            0 <= j < old(app).epics@.len() ==> about(ev) != Some((#[trigger] old(app).epics@[j]).id@),
        !(ev is PlanReady),
    ensures
        ({
            let was = text::views(old(app).epics@);
            let is = text::views(final(app).epics@);
            &&& ev is EpicStarted || ev is EpicSkipped ==> is.len() == was.len() + 1 && is.take(
                was.len() as int,
            ) == was
            &&& ev matches StageEvent::EpicStarted { id, title, repo } ==> is.last().id == id@
                && is.last().title == title@ && is.last().repo == repo@ && is.last().status
                == EpicStatus::Running && is.last().depends_on.len() == 0
            &&& ev matches StageEvent::EpicSkipped { id } ==> is.last().id == id@
                && is.last().title.len() == 0 && is.last().status == EpicStatus::Skipped
            &&& !(ev is EpicStarted || ev is EpicSkipped) ==> is == was
        }),
{
    let was = text::views(app.epics@);
    let is = text::views(final(app).epics@);
    assert(was.len() == app.epics@.len());
    assert forall|id: Seq<char>, k: int| about(ev) == Some(id) implies !#[trigger] app::first_card(
        was,
        id,
        k,
    ) by {
        if app::first_card(was, id, k) {
            assert(was[k] == app.epics@[k]@);
        }
    }
    match about(ev) {
        Some(id) => {
            assert(!app::has_card(was, id)) by {
                if app::has_card(was, id) {
                    let j = choose|j: int| 0 <= j < was.len() && (#[trigger] was[j]).id == id;
                    assert(was[j] == app.epics@[j]@);
                }
            }
            match ev {
                StageEvent::EpicStarted { id, title, repo } => {
                    let card = app::bare_card(id@, title@, EpicStatus::Running, repo@);
                    let pushed = was.push(card);
                    assert forall|k: int| app::first_card(pushed, id@, k) implies k == was.len() by {
                        if k < was.len() {
                            assert(pushed[k] == was[k]);
                            assert(was[k] == app.epics@[k]@);
                        }
                    }
                    assert(is.take(was.len() as int) =~= was);
                },
                StageEvent::EpicSkipped { id } => {
                    assert(is.take(was.len() as int) =~= was);
                },
                _ => {
                    assert(is =~= was);
                },
            }
        },
        None => {},
    }
}

/// Keys and the redraw tick leave the run as it is; anything else is the event
/// it carries.
pub proof fn law_only_pipeline_events_change_a_run(app: &mut App, ev: AppEvent, other: &mut App)
    requires
        call_ensures(App::apply, (app, ev), ()),
        *old(other) == *old(app),
        ev matches AppEvent::Stage(stage) ==> call_ensures(App::apply_stage, (other, stage), ()),
    ensures
        ev is Input || ev is Tick ==> final(app)@ == old(app)@,
        ev is Stage ==> final(app)@ == final(other)@,
{
}

/// A tick turns the spinner by one and, while the run is active, sets the time
/// that has passed; nothing else changes.
pub proof fn law_ticks_count_while_active(app: &mut App, since_start: u64)
    requires
        call_ensures(App::tick, (app, since_start), ()),
    ensures
        old(app).phase == Phase::Planning || old(app).phase == Phase::Implementing
            ==> final(app).elapsed_secs == since_start,
        old(app).phase == Phase::Done || old(app).phase == Phase::Failed ==> final(app).elapsed_secs
            == old(app).elapsed_secs,
        old(app).spinner < usize::MAX ==> final(app).spinner == old(app).spinner + 1,
        old(app).spinner == usize::MAX ==> final(app).spinner == 0,
        final(app).phase == old(app).phase,
        text::views(final(app).epics@) == text::views(old(app).epics@),
        text::views(final(app).log@) == text::views(old(app).log@),
        final(app).total_cost == old(app).total_cost,
        final(app).goal@ == old(app).goal@ && final(app).workspace@ == old(app).workspace@,
        text::opt_view(final(app).error) == text::opt_view(old(app).error),
{
}

/// The column of a card: what waits is to do, what runs is in progress, what is
/// verified is in review, what has merged is done, and everything else is
/// blocked.
pub proof fn law_columns_tell_the_status(status: EpicStatus, r: KanbanColumn)
    requires
        call_ensures(kanban_column, (status,), r),
    ensures
        r is Todo <==> status is Pending,
        r is InProgress <==> status is Running,
        r is Review <==> status is Verifying,
        r is Done <==> status is Merged,
        r is Blocked <==> status is Failed || status is Skipped || status is Conflict,
{
}

/// An epic is on hold where any dependency of it is not known to have merged.
pub proof fn law_epics_wait_for_every_dependency(
    depends_on: &Vec<String>,
    statuses: &StrMap<EpicStatus>,
    r: bool,
)
    requires
        statuses.wf(),
        call_ensures(is_on_hold, (depends_on, statuses), r),
    ensures
        !r <==> forall|k: int|
            0 <= k < depends_on@.len() ==> statuses@.contains_key((#[trigger] depends_on@[k])@)
                && statuses@[depends_on@[k]@] == EpicStatus::Merged,
{
    let v = text::views(depends_on@);
    assert(v.len() == depends_on@.len());
    assert forall|k: int| 0 <= k < v.len() implies (#[trigger] v[k]) == depends_on@[k]@ by {}
    if r {
        let k = choose|k: int|
            0 <= k < v.len() && !(statuses@.contains_key(#[trigger] v[k]) && statuses@[v[k]]
                == EpicStatus::Merged);
        assert(v[k] == depends_on@[k]@);
    } else {
        assert forall|k: int| 0 <= k < depends_on@.len() implies statuses@.contains_key(
            (#[trigger] depends_on@[k])@,
        ) && statuses@[depends_on@[k]@] == EpicStatus::Merged by {
            assert(v[k] == depends_on@[k]@);
        }
    }
}

/// Some epic has merged just where a card says so.
pub proof fn law_merged_work_shows(epics: &Vec<EpicView>, r: bool)
    requires
        call_ensures(has_merged, (epics,), r),
    ensures
        r <==> exists|i: int|
            0 <= i < epics@.len() && (#[trigger] epics@[i]).status == EpicStatus::Merged,
{
    let v = text::views(epics@);
    assert(v.len() == epics@.len());
    assert forall|i: int| 0 <= i < v.len() implies (#[trigger] v[i]) == epics@[i]@ by {}
    if exists|i: int|
        0 <= i < epics@.len() && (#[trigger] epics@[i]).status == EpicStatus::Merged {
        let i = choose|i: int|
            0 <= i < epics@.len() && (#[trigger] epics@[i]).status == EpicStatus::Merged;
        assert(v[i].status is Merged);
    }
}

} // verus!
