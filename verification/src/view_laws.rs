//! What the pages show of runs: every epic in its column and its report, every
//! run in its group, and what can be done about them.
use vstd::prelude::*;

use crate::app;
use crate::app::{App, EpicStatus, EpicView, KanbanColumn, Phase};
use crate::dashboard;
use crate::dashboard::{
    active_runs, board_cards, board_column, columns, dashboard_body, group_runs, phase_label,
    plural, status_label, BoardCard, BoardColumn, Dashboard, RunGroup,
};
use crate::dto;
use crate::dto::RunSummary;
use crate::run_view;
use crate::run_view::{
    can_retry, column_epics, final_report, group_epics_by_repo, hold_label, kanban_column_view,
    log_kind, named_repos, run_body, split_tag, LogKind, Report, RepoGroup, RequestButton, RunBody,
    RunColumn,
};
use crate::strmap::StrMap;
use crate::text;
use crate::tui;

verus! {

/// The status is shown in the column.
pub open spec fn stands_in(status: EpicStatus, column: KanbanColumn) -> bool {
    match column {
        KanbanColumn::Todo => status is Pending,
        KanbanColumn::InProgress => status is Running,
        KanbanColumn::Review => status is Verifying,
        KanbanColumn::Done => status is Merged,
        KanbanColumn::Blocked => status is Failed || status is Skipped || status is Conflict,
    }
}

/// A column shows exactly the epics whose status belongs in it, in their order.
pub proof fn law_columns_show_their_epics(
    epics: &Vec<EpicView>,
    column: KanbanColumn,
    r: Vec<EpicView>,
)
    requires
        call_ensures(column_epics, (epics, column), r),
    ensures
        text::views(r@) == text::views(epics@).filter(
            |e: app::CardModel| stands_in(e.status, column),
        ),
{
    let f = |e: app::CardModel| stands_in(e.status, column);
    let g = |e: app::CardModel| app::column_of(e.status) == column;
    assert(f =~= g);
}

/// A card waits with a hint just where it is in the Todo column and some
/// dependency of it has not merged; the hint names exactly those, in their order.
pub proof fn law_hints_name_what_is_waited_for(
    column: KanbanColumn,
    depends_on: &Vec<String>,
    statuses: &StrMap<EpicStatus>,
    r: Option<String>,
)
    requires
        statuses.wf(),
        call_ensures(hold_label, (column, depends_on, statuses), r),
    ensures
        ({
            let open = text::views(depends_on@).filter(
                |d: Seq<char>|
                    !(statuses@.contains_key(d) && statuses@[d] == EpicStatus::Merged),
            );
            &&& r is Some <==> column is Todo && open.len() > 0
            &&& r matches Some(hint) ==> hint@ == "on hold · waits on "@ + text::joined(open, ", "@)
        }),
{
    run_view::law_a_hold_names_its_reason(text::views(depends_on@), statuses@);
}

/// Only a failed or conflicted epic of a run that has ended can be retried.
pub proof fn law_only_blocked_work_is_retried(status: EpicStatus, ended: bool, r: bool)
    requires
        call_ensures(can_retry, (status, ended), r),
    ensures
        r <==> ended && (status == EpicStatus::Failed || status == EpicStatus::Conflict),
{
}

/// A column of the page has its title, and a card for each of its epics, in
/// their order, that offers a retry where one is possible.
pub proof fn law_column_views_show_their_cards(
    column: KanbanColumn,
    epics: &Vec<EpicView>,
    ended: bool,
    r: RunColumn,
    mine: Vec<EpicView>,
    i: int,
    retry: bool,
)
    requires
        call_ensures(kanban_column_view, (column, epics, ended), r),
        call_ensures(column_epics, (epics, column), mine),
        0 <= i < mine@.len(),
        call_ensures(can_retry, (mine@[i].status, ended), retry),
    ensures
        r.column == column,
        column is Todo ==> r.label@ == "Todo"@,
        column is InProgress ==> r.label@ == "In progress"@,
        column is Review ==> r.label@ == "Review"@,
        column is Done ==> r.label@ == "Done"@,
        column is Blocked ==> r.label@ == "Blocked"@,
        r.cards@.len() == mine@.len(),
        r.cards@[i].epic@ == mine@[i]@,
        r.cards@[i].retry == retry,
        !(column is Todo) ==> r.cards@[i].hold is None,
{
    let v = text::views(mine@);
    assert(v.len() == mine@.len());
    assert(v[i] == mine@[i]@);
    assert(run_view::is_card(
        r.cards@[i],
        v[i],
        column,
        tui::statuses(text::views(epics@)),
        ended,
    ));
}

/// What a log line tells: good news before bad news, bad news before the plan's
/// tag.
pub proof fn law_log_lines_are_told_apart(lower: &str, r: LogKind)
    requires
        call_ensures(log_kind, (lower,), r),
    ensures
        ({
            let good = text::has_part(lower@, "merged"@) || text::has_part(lower@, "passed"@)
                || text::has_part(lower@, "ok ("@);
            let bad = text::has_part(lower@, "conflict"@) || text::has_part(lower@, "error"@)
                || text::has_part(lower@, "fail"@);
            &&& r is Good <==> good
            &&& r is Bad <==> bad && !good
            &&& r is Plan <==> !good && !bad && text::has_prefix(lower@, "[plan]"@)
        }),
{
}

/// The tag of a line is its start up to the first closing bracket, where it
/// starts with an opening one; the rest follows it.
pub proof fn law_tags_end_at_the_first_bracket(line: &str, r: (Option<String>, String))
    requires
        call_ensures(split_tag, (line,), r),
    ensures
        r.0 is Some <==> line@.len() > 0 && line@[0] == '[' && line@.skip(1).contains(']'),
        r.0 matches Some(tag) ==> {
            &&& tag@ + r.1@ == line@
            &&& tag@.len() >= 2 && tag@[0] == '[' && tag@.last() == ']'
            &&& forall|i: int| 1 <= i < tag@.len() - 1 ==> tag@[i] != ']'
        },
        r.0 is None ==> r.1@ == line@,
{
    run_view::law_tag_and_body_are_the_line(line@);
    if run_view::has_tag(line@) {
        let rest = line@.skip(1);
        text::lemma_first_pos(rest, ']');
        let n = text::first_pos(rest, ']');
        assert(n < rest.len()) by {
            let k = choose|k: int| 0 <= k < rest.len() && rest[k] == ']';
            if n >= rest.len() {
                assert(rest[k] != ']');
            }
        }
        let tag = line@.take(1 + n as int + 1);
        assert(tag.last() == rest[n as int]);
        assert forall|i: int| 1 <= i < tag.len() - 1 implies tag[i] != ']' by {
            assert(tag[i] == rest[i - 1]);
        }
    }
}

/// The repositories of the epics that have a name, each once.
pub proof fn law_named_repositories_are_listed_once(epics: &Vec<EpicView>, r: Vec<String>, x: Seq<char>)
    requires
        call_ensures(named_repos, (epics,), r),
    ensures
        text::views(r@).no_duplicates(),
        text::views(r@).contains(x) <==> x.len() > 0 && exists|i: int|
            0 <= i < epics@.len() && (#[trigger] epics@[i]).repo@ == x,
{
    let cards = text::views(epics@);
    assert(cards.len() == epics@.len());
    let repos = run_view::repos_of(cards);
    let seen = text::first_seen(repos);
    text::law_first_seen(repos);
    let f = |s: Seq<char>| s.len() > 0;
    lemma_filter_members(seen, f);
    lemma_filter_differ(seen, f);
    assert(text::views(r@) == seen.filter(f));
    assert(repos.contains(x) <==> exists|i: int|
        0 <= i < epics@.len() && (#[trigger] epics@[i]).repo@ == x) by {
        if repos.contains(x) {
            let i = choose|i: int| 0 <= i < repos.len() && repos[i] == x;
            assert(cards[i] == epics@[i]@);
            assert(epics@[i].repo@ == x);
        }
        if exists|i: int| 0 <= i < epics@.len() && (#[trigger] epics@[i]).repo@ == x {
            let i = choose|i: int| 0 <= i < epics@.len() && (#[trigger] epics@[i]).repo@ == x;
            assert(cards[i] == epics@[i]@);
            assert(repos[i] == x);
        }
    }
}

proof fn lemma_filter_members(s: Seq<Seq<char>>, f: spec_fn(Seq<char>) -> bool)
    ensures
        forall|x: Seq<char>| #[trigger] s.filter(f).contains(x) <==> s.contains(x) && f(x),
    decreases s.len(),
{
    reveal(Seq::filter);
    if s.len() > 0 {
        let rest = s.drop_last();
        lemma_filter_members(rest, f);
        assert(s =~= rest.push(s.last()));
        assert forall|x: Seq<char>| #[trigger] s.filter(f).contains(x) <==> s.contains(x) && f(x) by {
            let t = s.filter(f);
            let u = rest.filter(f);
            if t.contains(x) {
                let i = choose|i: int| 0 <= i < t.len() && t[i] == x;
                if i < u.len() {
                    assert(u[i] == x);
                    assert(u.contains(x));
                    let k = choose|k: int| 0 <= k < rest.len() && rest[k] == x;
                    assert(s[k] == x);
                } else {
                    assert(s[s.len() - 1] == x);
                }
            }
            if s.contains(x) && f(x) {
                let k = choose|k: int| 0 <= k < s.len() && s[k] == x;
                if k < rest.len() {
                    assert(rest[k] == x);
                    assert(u.contains(x));
                    let i = choose|i: int| 0 <= i < u.len() && u[i] == x;
                    assert(t[i] == x);
                } else {
                    assert(t[t.len() - 1] == x);
                }
            }
        }
    }
}

proof fn lemma_filter_differ(s: Seq<Seq<char>>, f: spec_fn(Seq<char>) -> bool)
    requires
        s.no_duplicates(),
    ensures
        s.filter(f).no_duplicates(),
    decreases s.len(),
{
    reveal(Seq::filter);
    if s.len() > 0 {
        let rest = s.drop_last();
        lemma_filter_differ(rest, f);
        lemma_filter_members(rest, f);
        let u = rest.filter(f);
        assert(!rest.contains(s.last()));
        assert(!u.contains(s.last()));
    }
}

/// The report groups the epics by repository: each group holds exactly the epics
/// of its repository, in their order, no repository has two groups, and the one
/// without a name comes last.
pub proof fn law_reports_group_by_repository(
    epics: &Vec<EpicView>,
    r: Vec<RepoGroup>,
    names: Vec<String>,
    k: int,
)
    requires
        call_ensures(group_epics_by_repo, (epics,), r),
        call_ensures(named_repos, (epics,), names),
    ensures
        ({
            let unnamed = exists|i: int|
                0 <= i < epics@.len() && (#[trigger] epics@[i]).repo@.len() == 0;
            &&& unnamed ==> r@.len() == names@.len() + 1 && r@.last().repo@.len() == 0
            &&& !unnamed ==> r@.len() == names@.len()
            &&& 0 <= k < names@.len() ==> r@[k].repo@ == names@[k]@
            &&& 0 <= k < r@.len() ==> text::views(r@[k].epics@) == text::views(epics@).filter(
                |e: app::CardModel| e.repo == r@[k].repo@,
            )
        }),
{
    let cards = text::views(epics@);
    assert(cards.len() == epics@.len());
    let repos = run_view::repos_of(cards);
    let v = text::views(r@);
    assert(v.len() == r@.len());
    assert(text::views(names@).len() == names@.len());
    let empty = Seq::<char>::empty();
    assert(repos.contains(empty) <==> exists|i: int|
        0 <= i < epics@.len() && (#[trigger] epics@[i]).repo@.len() == 0) by {
        if repos.contains(empty) {
            let i = choose|i: int| 0 <= i < repos.len() && repos[i] == empty;
            assert(cards[i] == epics@[i]@);
            assert(epics@[i].repo@.len() == 0);
        }
        if exists|i: int| 0 <= i < epics@.len() && (#[trigger] epics@[i]).repo@.len() == 0 {
            let i = choose|i: int| 0 <= i < epics@.len() && (#[trigger] epics@[i]).repo@.len() == 0;
            assert(cards[i] == epics@[i]@);
            assert(epics@[i].repo@ =~= empty);
            assert(repos[i] == empty);
        }
    }
    if 0 <= k < r@.len() {
        assert(v[k] == r@[k]@);
    }
    if 0 <= k < names@.len() {
        assert(text::views(names@)[k] == names@[k]@);
    }
    if r@.len() > 0 {
        assert(v[r@.len() - 1] == r@[r@.len() - 1]@);
    }
}

/// The final report shows the error of the run and a section per group, and says
/// of each and of the whole whether anything has merged.
pub proof fn law_reports_show_what_has_merged(
    app: &App,
    r: Report,
    groups: Vec<RepoGroup>,
    k: int,
    any: bool,
    some: bool,
)
    requires
        call_ensures(final_report, (app,), r),
        call_ensures(group_epics_by_repo, (&app.epics,), groups),
        call_ensures(app::has_merged, (&app.epics,), any),
        0 <= k < groups@.len(),
        call_ensures(app::has_merged, (&groups@[k].epics,), some),
    ensures
        text::opt_view(r.error) == text::opt_view(app.error),
        r.any_merged == any,
        r.groups@.len() == groups@.len(),
        text::views(r.groups@[k].epics@) == text::views(groups@[k].epics@),
        r.groups@[k].merged == some,
        groups@[k].repo@.len() > 0 ==> r.groups@[k].heading@ == groups@[k].repo@,
        groups@[k].repo@.len() == 0 ==> r.groups@[k].heading@ == "No repo assigned"@,
{
    let v = text::views(groups@);
    assert(v.len() == groups@.len());
    assert(v[k] == groups@[k]@);
    assert(run_view::is_section(r.groups@[k], v[k]));
}

/// A run can be aborted until it has ended, and has a report from then on. It
/// can be resumed where it has failed with an epic that has not merged, and only
/// then its message is shown at the top.
pub proof fn law_pages_offer_what_can_be_done(app: &App, r: RunBody, resumable: bool)
    requires
        call_ensures(run_body, (app,), r),
        call_ensures(crate::run::resumable, (app,), resumable),
    ensures
        r.can_abort <==> app.phase == Phase::Planning || app.phase == Phase::Implementing,
        r.report is Some <==> app.phase == Phase::Done || app.phase == Phase::Failed,
        r.can_resume == resumable,
        resumable ==> text::opt_view(r.restart_error) == text::opt_view(app.error),
        !resumable ==> r.restart_error is None,
        r.log@.len() == app.log@.len(),
        r.columns@.len() == 5,
        r.columns@[0].column == KanbanColumn::Todo,
        r.columns@[1].column == KanbanColumn::InProgress,
        r.columns@[2].column == KanbanColumn::Review,
        r.columns@[3].column == KanbanColumn::Done,
        r.columns@[4].column == KanbanColumn::Blocked,
{
    assert(text::views(app.log@).len() == app.log@.len());
    assert(run_view::is_column(
        r.columns@[0],
        KanbanColumn::Todo,
        app@.epics,
        run_view::ended(app@),
    ));
    assert(run_view::is_column(
        r.columns@[1],
        KanbanColumn::InProgress,
        app@.epics,
        run_view::ended(app@),
    ));
    assert(run_view::is_column(
        r.columns@[2],
        KanbanColumn::Review,
        app@.epics,
        run_view::ended(app@),
    ));
    assert(run_view::is_column(
        r.columns@[3],
        KanbanColumn::Done,
        app@.epics,
        run_view::ended(app@),
    ));
    assert(run_view::is_column(
        r.columns@[4],
        KanbanColumn::Blocked,
        app@.epics,
        run_view::ended(app@),
    ));
}

/// A press sends a request unless one is in flight; the answer ends it, and an
/// error of it is shown until the next press.
pub proof fn law_one_request_at_a_time(
    a: &mut RequestButton,
    sent: bool,
    b: &mut RequestButton,
    reply: Result<(), String>,
)
    requires
        call_ensures(RequestButton::press, (a,), sent),
        call_ensures(RequestButton::done, (b, reply), ()),
    ensures
        sent <==> !old(a).busy,
        final(a).busy,
        sent ==> final(a).error is None,
        !final(b).busy,
        reply matches Err(e) ==> final(b).error == Some(e),
        reply is Ok ==> final(b).error == old(b).error,
{
}

/// "1 epic", and "2 epics" or "0 epics".
pub proof fn law_counts_have_their_plural(count: usize, noun: &str, r: String, n: String)
    requires
        call_ensures(plural, (count, noun), r),
        call_ensures(text::decimal, (count as u64,), n),
    ensures
        count == 1 ==> r@ == "1 "@ + noun@,
        count != 1 && count as u64 == count ==> r@ == n@ + " "@ + noun@ + "s"@,
{
}

/// The active runs are those that are planned or implemented, in their order.
pub proof fn law_active_runs_are_planned_or_implemented(runs: &Vec<RunSummary>, r: Vec<RunSummary>)
    requires
        call_ensures(active_runs, (runs,), r),
    ensures
        text::views(r@) == text::views(runs@).filter(
            |run: dto::SummaryModel|
                run.phase == Phase::Planning || run.phase == Phase::Implementing,
        ),
{
    let f = |run: dto::SummaryModel|
        run.phase == Phase::Planning || run.phase == Phase::Implementing;
    let g = |run: dto::SummaryModel| dashboard::in_flight(run);
    assert(f =~= g);
}

/// The board holds every epic of every run, in their order, each with the
/// workspace of its run: one more run adds just its own epics at the end.
pub proof fn law_the_board_holds_every_epic(
    few: &Vec<RunSummary>,
    more: &Vec<RunSummary>,
    run: RunSummary,
    a: Vec<BoardCard>,
    b: Vec<BoardCard>,
    i: int,
)
    requires
        more@ == few@.push(run),
        call_ensures(board_cards, (few,), a),
        call_ensures(board_cards, (more,), b),
    ensures
        few@.len() == 0 ==> a@.len() == 0,
        b@.len() == a@.len() + run.epics@.len(),
        0 <= i < a@.len() ==> b@[i]@ == a@[i]@,
        0 <= i < run.epics@.len() ==> b@[a@.len() + i].epic@ == run.epics@[i]@ && b@[a@.len()
            + i].workspace@ == run.workspace@,
{
    let va = text::views(a@);
    let vb = text::views(b@);
    assert(va.len() == a@.len() && vb.len() == b@.len());
    let f = text::views(few@);
    let m = text::views(more@);
    assert(f.len() == few@.len());
    assert(m =~= f.push(run@));
    assert(m.drop_last() =~= f);
    assert(run@.epics.len() == run.epics@.len());
    if 0 <= i < a@.len() {
        assert(va[i] == a@[i]@ && vb[i] == b@[i]@);
    }
    if 0 <= i < run.epics@.len() {
        assert(vb[a@.len() + i] == b@[a@.len() + i]@);
        assert(run@.epics[i] == run.epics@[i]@);
    }
}

/// A column of the board holds exactly the cards whose status belongs in it, in
/// their order.
pub proof fn law_board_columns_hold_their_cards(
    board: &Vec<BoardCard>,
    column: KanbanColumn,
    r: BoardColumn,
)
    requires
        call_ensures(board_column, (board, column), r),
    ensures
        r.column == column,
        text::views(r.cards@) == text::views(board@).filter(
            |c: dashboard::BoardCardModel| stands_in(c.epic.status, column),
        ),
{
    let f = |c: dashboard::BoardCardModel| stands_in(c.epic.status, column);
    let g = |c: dashboard::BoardCardModel| app::column_of(c.epic.status) == column;
    assert(f =~= g);
}

/// The runs are grouped by workspace: each group holds exactly the runs of its
/// workspace, in their order, and no workspace has two groups or none.
pub proof fn law_runs_are_grouped_by_workspace(runs: &Vec<RunSummary>, r: Vec<RunGroup>, k: int, i: int)
    requires
        call_ensures(group_runs, (runs,), r),
    ensures
        forall|a: int, b: int|
            0 <= a < b < r@.len() ==> (#[trigger] r@[a]).name@ != (#[trigger] r@[b]).name@,
        0 <= k < r@.len() ==> r@[k].runs@.len() > 0 && text::views(r@[k].runs@) == text::views(
            runs@,
        ).filter(|run: dto::SummaryModel| run.workspace == r@[k].name@),
        0 <= i < runs@.len() ==> exists|g: int|
            0 <= g < r@.len() && (#[trigger] r@[g]).name@ == runs@[i].workspace@,
{
    let v = text::views(r@);
    let all = text::views(runs@);
    assert(v.len() == r@.len() && all.len() == runs@.len());
    let names = Seq::new(v.len(), |g: int| v[g].name);
    let spaces = dashboard::workspaces_of(all);
    text::law_first_seen(spaces);
    assert(names == text::first_seen(spaces));
    assert forall|a: int, b: int| 0 <= a < b < r@.len() implies (#[trigger] r@[a]).name@ != (
    #[trigger] r@[b]).name@ by {
        assert(v[a] == r@[a]@ && v[b] == r@[b]@);
        assert(names[a] != names[b]);
    }
    if 0 <= k < r@.len() {
        assert(v[k] == r@[k]@);
        assert(dashboard::is_group(v[k], all));
        assert(text::views(r@[k].runs@).len() == r@[k].runs@.len());
    }
    if 0 <= i < runs@.len() {
        assert(all[i] == runs@[i]@);
        assert(spaces[i] == runs@[i].workspace@);
        assert(names.contains(spaces[i]));
        let g = choose|g: int| 0 <= g < names.len() && names[g] == spaces[i];
        assert(v[g] == r@[g]@);
        assert(r@[g].name@ == runs@[i].workspace@);
    }
}

/// The dashboard counts all runs, the active ones and all epics, and shows the
/// five columns of the board in their order.
pub proof fn law_the_dashboard_counts_what_there_is(
    runs: &Vec<RunSummary>,
    r: Dashboard,
    active: Vec<RunSummary>,
    board: Vec<BoardCard>,
    groups: Vec<RunGroup>,
)
    requires
        call_ensures(dashboard_body, (runs,), r),
        call_ensures(active_runs, (runs,), active),
        call_ensures(board_cards, (runs,), board),
    ensures
        r.total_runs == runs@.len(),
        r.active_runs == active@.len(),
        r.total_epics == board@.len(),
        r.columns@.len() == 5,
        r.columns@[0].column == KanbanColumn::Todo,
        r.columns@[1].column == KanbanColumn::InProgress,
        r.columns@[2].column == KanbanColumn::Review,
        r.columns@[3].column == KanbanColumn::Done,
        r.columns@[4].column == KanbanColumn::Blocked,
{
    assert(text::views(active@).len() == active@.len());
    assert(text::views(board@).len() == board@.len());
    let b = dashboard::board_of(text::views(runs@));
    assert(dashboard::is_board_column(r.columns@[0], b, KanbanColumn::Todo));
    assert(dashboard::is_board_column(r.columns@[1], b, KanbanColumn::InProgress));
    assert(dashboard::is_board_column(r.columns@[2], b, KanbanColumn::Review));
    assert(dashboard::is_board_column(r.columns@[3], b, KanbanColumn::Done));
    assert(dashboard::is_board_column(r.columns@[4], b, KanbanColumn::Blocked));
}

/// Phases and statuses are shown by their own names; a run that is implemented
/// is shown as running.
pub proof fn law_labels_name_what_they_show(
    phase: Phase,
    status: EpicStatus,
    a: &'static str,
    b: &'static str,
)
    requires
        call_ensures(phase_label, (phase,), a),
        call_ensures(status_label, (status,), b),
    ensures
        phase is Planning ==> a@ == "Planning"@,
        phase is Implementing ==> a@ == "Running"@,
        phase is Done ==> a@ == "Done"@,
        phase is Failed ==> a@ == "Failed"@,
        status is Pending ==> b@ == "Pending"@,
        status is Running ==> b@ == "Running"@,
        status is Verifying ==> b@ == "Verifying"@,
        status is Merged ==> b@ == "Merged"@,
        status is Failed ==> b@ == "Failed"@,
        status is Skipped ==> b@ == "Skipped"@,
        status is Conflict ==> b@ == "Conflict"@,
{
}

} // verus!
