//! The dashboard over all runs, live and finished: an overview, one kanban
//! board across every run, and the runs grouped by workspace.
use vstd::prelude::*;
use vstd::string::*;

use crate::app;
use crate::app::{kanban_column, EpicStatus, EpicView, KanbanColumn, Phase};
use crate::dto;
use crate::dto::RunSummary;
use crate::text;
use crate::text::{decimal, same};

verus! {

/// How often the dashboard asks for fresh runs, in milliseconds.
pub const POLL_INTERVAL_MS: u64 = 1500;

/// A count with its noun, "s" appended unless there is exactly one.
pub open spec fn counted(count: nat, singular: Seq<char>) -> Seq<char> {
    if count == 1 {
        "1 "@ + singular
    } else {
        text::decimal_of(count) + " "@ + singular + "s"@
    }
}

/// "1 repo" / "3 repos": a count with a naively pluralized noun.
pub fn plural(count: usize, singular: &str) -> (r: String)
    ensures
        r@ == counted(count as nat, singular@),
{
    if count == 1 {
        "1 ".to_string().concat(singular)
    } else {
        decimal(count as u64).concat(" ").concat(singular).concat("s")
    }
}

/// A short human label for an epic status.
pub fn status_label(status: EpicStatus) -> (r: &'static str)
    ensures
        r@ == match status {
            EpicStatus::Pending => "Pending"@,
            EpicStatus::Running => "Running"@,
            EpicStatus::Verifying => "Verifying"@,
            EpicStatus::Merged => "Merged"@,
            EpicStatus::Failed => "Failed"@,
            EpicStatus::Skipped => "Skipped"@,
            EpicStatus::Conflict => "Conflict"@,
        },
{
    match status {
        EpicStatus::Pending => "Pending",
        EpicStatus::Running => "Running",
        EpicStatus::Verifying => "Verifying",
        EpicStatus::Merged => "Merged",
        EpicStatus::Failed => "Failed",
        EpicStatus::Skipped => "Skipped",
        EpicStatus::Conflict => "Conflict",
    }
}

/// The color utilities of a phase's pill.
pub fn phase_class(phase: Phase) -> (r: &'static str)
    ensures
        r@ == match phase {
            Phase::Planning => "text-review bg-review/12 border-review/30"@,
            Phase::Implementing => "text-prog bg-prog/12 border-prog/40"@,
            Phase::Done => "text-done bg-done/12 border-done/30"@,
            Phase::Failed => "text-block bg-block/10 border-block/30"@,
        },
{
    match phase {
        Phase::Planning => "text-review bg-review/12 border-review/30",
        Phase::Implementing => "text-prog bg-prog/12 border-prog/40",
        Phase::Done => "text-done bg-done/12 border-done/30",
        Phase::Failed => "text-block bg-block/10 border-block/30",
    }
}

/// The color (and pulse) utilities of a run card's phase dot. Active phases
/// pulse; the others are static.
pub fn phase_dot_class(phase: Phase) -> (r: &'static str)
    ensures
        r@ == match phase {
            Phase::Planning => "bg-review animate-pulse-dot"@,
            Phase::Implementing => "bg-prog animate-pulse-dot"@,
            Phase::Done => "bg-done"@,
            Phase::Failed => "bg-block"@,
        },
{
    match phase {
        Phase::Planning => "bg-review animate-pulse-dot",
        Phase::Implementing => "bg-prog animate-pulse-dot",
        Phase::Done => "bg-done",
        Phase::Failed => "bg-block",
    }
}

/// The label of a phase; `Implementing` is shown as "Running".
pub fn phase_label(phase: Phase) -> (r: &'static str)
    ensures
        r@ == match phase {
            Phase::Planning => "Planning"@,
            Phase::Implementing => "Running"@,
            Phase::Done => "Done"@,
            Phase::Failed => "Failed"@,
        },
{
    match phase {
        Phase::Planning => "Planning",
        Phase::Implementing => "Running",
        Phase::Done => "Done",
        Phase::Failed => "Failed",
    }
}

/// The header text of a column.
pub open spec fn column_title(column: KanbanColumn) -> Seq<char> {
    match column {
        KanbanColumn::Todo => "Todo"@,
        KanbanColumn::InProgress => "In progress"@,
        KanbanColumn::Review => "Review"@,
        KanbanColumn::Done => "Done"@,
        KanbanColumn::Blocked => "Blocked"@,
    }
}

/// The header text of a column.
pub fn column_label(column: KanbanColumn) -> (r: &'static str)
    ensures
        r@ == column_title(column),
{
    match column {
        KanbanColumn::Todo => "Todo",
        KanbanColumn::InProgress => "In progress",
        KanbanColumn::Review => "Review",
        KanbanColumn::Done => "Done",
        KanbanColumn::Blocked => "Blocked",
    }
}

/// The background of a column's segment and swatch.
pub open spec fn column_fill(column: KanbanColumn) -> Seq<char> {
    match column {
        KanbanColumn::Todo => "bg-todo"@,
        KanbanColumn::InProgress => "bg-prog"@,
        KanbanColumn::Review => "bg-review"@,
        KanbanColumn::Done => "bg-done"@,
        KanbanColumn::Blocked => "bg-block"@,
    }
}

/// The background utility of a column's distribution segment and legend swatch.
pub fn column_class(column: KanbanColumn) -> (r: &'static str)
    ensures
        r@ == column_fill(column),
{
    match column {
        KanbanColumn::Todo => "bg-todo",
        KanbanColumn::InProgress => "bg-prog",
        KanbanColumn::Review => "bg-review",
        KanbanColumn::Done => "bg-done",
        KanbanColumn::Blocked => "bg-block",
    }
}

/// The text color of a column's heading.
pub open spec fn head_color(column: KanbanColumn) -> Seq<char> {
    match column {
        KanbanColumn::Todo => "text-todo"@,
        KanbanColumn::InProgress => "text-prog"@,
        KanbanColumn::Review => "text-review"@,
        KanbanColumn::Done => "text-done"@,
        KanbanColumn::Blocked => "text-block"@,
    }
}

/// The text color of a column's heading.
pub fn column_head_class(column: KanbanColumn) -> (r: &'static str)
    ensures
        r@ == head_color(column),
{
    match column {
        KanbanColumn::Todo => "text-todo",
        KanbanColumn::InProgress => "text-prog",
        KanbanColumn::Review => "text-review",
        KanbanColumn::Done => "text-done",
        KanbanColumn::Blocked => "text-block",
    }
}

/// The left-border accent of each card in a column, and a ring in the active one.
pub fn column_card_class(column: KanbanColumn) -> (r: &'static str)
    ensures
        r@ == match column {
            KanbanColumn::Todo => "border-l-todo/30"@,
            KanbanColumn::InProgress => "border-l-prog ring-1 ring-prog/40"@,
            KanbanColumn::Review => "border-l-review/30"@,
            KanbanColumn::Done => "border-l-done/30"@,
            KanbanColumn::Blocked => "border-l-block/30"@,
        },
{
    match column {
        KanbanColumn::Todo => "border-l-todo/30",
        KanbanColumn::InProgress => "border-l-prog ring-1 ring-prog/40",
        KanbanColumn::Review => "border-l-review/30",
        KanbanColumn::Done => "border-l-done/30",
        KanbanColumn::Blocked => "border-l-block/30",
    }
}

/// The colors of a card's status pill.
pub open spec fn pill_colors(column: KanbanColumn) -> Seq<char> {
    match column {
        KanbanColumn::Todo => "text-todo bg-todo/10 border-todo/30"@,
        KanbanColumn::InProgress => "text-prog bg-prog/12 border-prog/40"@,
        KanbanColumn::Review => "text-review bg-review/12 border-review/30"@,
        KanbanColumn::Done => "text-done bg-done/12 border-done/30"@,
        KanbanColumn::Blocked => "text-block bg-block/10 border-block/30"@,
    }
}

/// The color utilities of a card's status pill.
pub fn column_status_class(column: KanbanColumn) -> (r: &'static str)
    ensures
        r@ == pill_colors(column),
{
    match column {
        KanbanColumn::Todo => "text-todo bg-todo/10 border-todo/30",
        KanbanColumn::InProgress => "text-prog bg-prog/12 border-prog/40",
        KanbanColumn::Review => "text-review bg-review/12 border-review/30",
        KanbanColumn::Done => "text-done bg-done/12 border-done/30",
        KanbanColumn::Blocked => "text-block bg-block/10 border-block/30",
    }
}

/// The columns in their display order.
pub open spec fn column_order() -> Seq<KanbanColumn> {
    seq![
        KanbanColumn::Todo,
        KanbanColumn::InProgress,
        KanbanColumn::Review,
        KanbanColumn::Done,
        KanbanColumn::Blocked,
    ]
}

/// The columns in their display order.
pub fn columns() -> (r: Vec<KanbanColumn>)
    ensures
        r@ == column_order(),
{
    let mut out: Vec<KanbanColumn> = Vec::new();
    out.push(KanbanColumn::Todo);
    out.push(KanbanColumn::InProgress);
    out.push(KanbanColumn::Review);
    out.push(KanbanColumn::Done);
    out.push(KanbanColumn::Blocked);
    assert(out@ =~= column_order());
    out
}

/// A run in flight: planning or implementing.
pub open spec fn in_flight(run: dto::SummaryModel) -> bool {
    run.phase is Planning || run.phase is Implementing
}

/// The runs in flight, in their order. Everything else is left for the
/// dashboard.
pub fn active_runs(runs: &Vec<RunSummary>) -> (r: Vec<RunSummary>)
    ensures
        text::views(r@) == text::views(runs@).filter(|run: dto::SummaryModel| in_flight(run)),
{
    let ghost all = text::views(runs@);
    let ghost keep = |run: dto::SummaryModel| in_flight(run);
    let mut out: Vec<RunSummary> = Vec::new();
    let mut i: usize = 0;
    proof {
        reveal(Seq::filter);
    }
    assert(text::views(out@) =~= all.take(0).filter(keep));
    while i < runs.len()
        invariant
            i <= runs@.len(),
            all == text::views(runs@),
            keep == (|run: dto::SummaryModel| in_flight(run)),
            text::views(out@) == all.take(i as int).filter(keep),
        decreases runs@.len() - i,
    {
        let run = &runs[i];
        let ghost sofar = out@;
        proof {
            assert(all[i as int] == run@);
            assert(all.take(i + 1) =~= all.take(i as int).push(run@));
            all.take(i as int).lemma_filter_push(run@, keep);
        }
        if run.phase == Phase::Planning || run.phase == Phase::Implementing {
            let copy = run.clone();
            out.push(copy);
            proof {
                text::lemma_views_push(sofar, copy);
                assert(out@ =~= sofar.push(copy));
            }
        }
        i = i + 1;
    }
    assert(all.take(i as int) =~= all);
    out
}

/// "3 running": how many runs are in flight.
pub fn running_label(runs: &Vec<RunSummary>) -> (r: String)
    ensures
        r@ == text::decimal_of(
            text::views(runs@).filter(|run: dto::SummaryModel| in_flight(run)).len(),
        ) + " running"@,
{
    let active = active_runs(runs);
    assert(text::views(active@).len() == active@.len());
    decimal(active.len() as u64).concat(" running")
}

/// The page of a run.
pub fn run_link(id: &str) -> (r: String)
    ensures
        r@ == "/run/"@ + id@,
{
    "/run/".to_string().concat(id)
}

/// The line of a run in the switcher: its workspace and its repositories.
pub fn switcher_line(run: &RunSummary) -> (r: String)
    ensures
        r@ == run@.workspace + " · "@ + text::decimal_of(run@.repos.len()) + " repos"@,
{
    assert(run@.repos.len() == run.repos@.len());
    run.workspace.clone().concat(" · ").concat(decimal(run.repos.len() as u64).as_str()).concat(
        " repos",
    )
}

/// One card of the board over all runs.
#[derive(Debug, PartialEq)]
pub struct BoardCard {
    pub workspace: String,
    pub epic: EpicView,
}

/// The content of such a card.
#[verifier::ext_equal]
pub ghost struct BoardCardModel {
    pub workspace: Seq<char>,
    pub epic: app::CardModel,
}

impl View for BoardCard {
    type V = BoardCardModel;

    open spec fn view(&self) -> BoardCardModel {
        BoardCardModel { workspace: self.workspace@, epic: self.epic@ }
    }
}

/// The cards of one run.
pub open spec fn run_cards(run: dto::SummaryModel) -> Seq<BoardCardModel> {
    Seq::new(
        run.epics.len(),
        |i: int| BoardCardModel { workspace: run.workspace, epic: run.epics[i] },
    )
}

/// Every epic of every run, each with its run's workspace.
pub open spec fn board_of(runs: Seq<dto::SummaryModel>) -> Seq<BoardCardModel>
    decreases runs.len(),
{
    if runs.len() == 0 {
        Seq::empty()
    } else {
        board_of(runs.drop_last()) + run_cards(runs.last())
    }
}

/// Every epic of every run, each with its run's workspace.
pub fn board_cards(runs: &Vec<RunSummary>) -> (r: Vec<BoardCard>)
    ensures
        text::views(r@) == board_of(text::views(runs@)),
{
    let ghost all = text::views(runs@);
    let mut out: Vec<BoardCard> = Vec::new();
    let mut i: usize = 0;
    assert(text::views(out@) =~= board_of(all.take(0)));
    while i < runs.len()
        invariant
            i <= runs@.len(),
            all == text::views(runs@),
            text::views(out@) == board_of(all.take(i as int)),
        decreases runs@.len() - i,
    {
        let run = &runs[i];
        let ghost before = text::views(out@);
        let mut k: usize = 0;
        assert(before + run_cards(run@).take(0) =~= before);
        while k < run.epics.len()
            invariant
                k <= run.epics@.len(),
                text::views(out@) == before + run_cards(run@).take(k as int),
            decreases run.epics@.len() - k,
        {
            let ghost sofar = out@;
            let card = BoardCard { workspace: run.workspace.clone(), epic: run.epics[k].clone() };
            out.push(card);
            proof {
                text::lemma_views_push(sofar, card);
                assert(out@ =~= sofar.push(card));
                assert(run@.epics[k as int] == run.epics@[k as int]@);
                assert(run_cards(run@)[k as int] == card@);
                assert(before + run_cards(run@).take(k + 1) =~= (before + run_cards(run@).take(
                    k as int,
                )).push(card@));
            }
            k = k + 1;
        }
        proof {
            assert(run_cards(run@).take(k as int) =~= run_cards(run@));
            assert(all[i as int] == run@);
            assert(all.take(i + 1).drop_last() =~= all.take(i as int));
            assert(all.take(i + 1).last() == run@);
        }
        i = i + 1;
    }
    assert(all.take(i as int) =~= all);
    out
}

/// The cards of one column, in their order.
pub open spec fn in_column(
    board: Seq<BoardCardModel>,
    column: KanbanColumn,
) -> Seq<BoardCardModel> {
    board.filter(|c: BoardCardModel| app::column_of(c.epic.status) == column)
}

/// One column of the board.
#[derive(Debug, PartialEq)]
pub struct BoardColumn {
    pub column: KanbanColumn,
    pub label: &'static str,
    pub class: &'static str,
    pub cards: Vec<BoardCard>,
}

/// The column of the board that the model says.
pub open spec fn is_board_column(
    c: BoardColumn,
    board: Seq<BoardCardModel>,
    column: KanbanColumn,
) -> bool {
    &&& c.column == column
    &&& c.label@ == column_title(column)
    &&& c.class@ == column_fill(column)
    &&& text::views(c.cards@) == in_column(board, column)
}

/// One column of the board, with its cards in their order.
pub fn board_column(board: &Vec<BoardCard>, column: KanbanColumn) -> (r: BoardColumn)
    ensures
        is_board_column(r, text::views(board@), column),
{
    let ghost all = text::views(board@);
    let ghost keep = |c: BoardCardModel| app::column_of(c.epic.status) == column;
    let mut cards: Vec<BoardCard> = Vec::new();
    let mut i: usize = 0;
    proof {
        reveal(Seq::filter);
    }
    assert(text::views(cards@) =~= all.take(0).filter(keep));
    while i < board.len()
        invariant
            i <= board@.len(),
            all == text::views(board@),
            keep == (|c: BoardCardModel| app::column_of(c.epic.status) == column),
            text::views(cards@) == all.take(i as int).filter(keep),
        decreases board@.len() - i,
    {
        let card = &board[i];
        let ghost sofar = cards@;
        proof {
            assert(all[i as int] == card@);
            assert(all.take(i + 1) =~= all.take(i as int).push(card@));
            all.take(i as int).lemma_filter_push(card@, keep);
        }
        if kanban_column(card.epic.status) == column {
            let copy = BoardCard { workspace: card.workspace.clone(), epic: card.epic.clone() };
            cards.push(copy);
            proof {
                text::lemma_views_push(sofar, copy);
                assert(cards@ =~= sofar.push(copy));
            }
        }
        i = i + 1;
    }
    assert(all.take(i as int) =~= all);
    BoardColumn { column, label: column_label(column), class: column_class(column), cards }
}

/// The runs of one workspace.
#[derive(Debug, PartialEq)]
pub struct RunGroup {
    pub name: String,
    pub repo_summary: String,
    pub runs: Vec<RunSummary>,
}

/// The content of a group.
#[verifier::ext_equal]
pub ghost struct GroupModel {
    pub name: Seq<char>,
    pub repo_summary: Seq<char>,
    pub runs: Seq<dto::SummaryModel>,
}

impl View for RunGroup {
    type V = GroupModel;

    open spec fn view(&self) -> GroupModel {
        GroupModel {
            name: self.name@,
            repo_summary: self.repo_summary@,
            runs: text::views(self.runs@),
        }
    }
}

/// The workspaces of the runs.
pub open spec fn workspaces_of(runs: Seq<dto::SummaryModel>) -> Seq<Seq<char>> {
    Seq::new(runs.len(), |i: int| runs[i].workspace)
}

/// The runs of one workspace, in their order.
pub open spec fn runs_of(
    runs: Seq<dto::SummaryModel>,
    name: Seq<char>,
) -> Seq<dto::SummaryModel> {
    runs.filter(|run: dto::SummaryModel| run.workspace == name)
}

/// The group holds all runs of its workspace and sums up the repositories of
/// the first.
pub open spec fn is_group(g: GroupModel, runs: Seq<dto::SummaryModel>) -> bool {
    &&& g.runs == runs_of(runs, g.name)
    &&& g.runs.len() > 0
    &&& g.repo_summary == counted(g.runs[0].repos.len(), "repo"@)
}

/// The runs by workspace, in the order each workspace first appears.
pub open spec fn is_grouped(groups: Seq<GroupModel>, runs: Seq<dto::SummaryModel>) -> bool {
    &&& Seq::new(groups.len(), |k: int| groups[k].name) == text::first_seen(workspaces_of(runs))
    &&& forall|k: int| 0 <= k < groups.len() ==> is_group(#[trigger] groups[k], runs)
}

proof fn lemma_group_grows(runs: Seq<dto::SummaryModel>, run: dto::SummaryModel, name: Seq<char>)
    ensures
        runs_of(runs.push(run), name) == if run.workspace == name {
            runs_of(runs, name).push(run)
        } else {
            runs_of(runs, name)
        },
{
    runs.lemma_filter_push(run, |r: dto::SummaryModel| r.workspace == name);
}

proof fn lemma_no_runs(runs: Seq<dto::SummaryModel>, name: Seq<char>)
    requires
        !workspaces_of(runs).contains(name),
    ensures
        runs_of(runs, name).len() == 0,
    decreases runs.len(),
{
    reveal(Seq::filter);
    if runs.len() > 0 {
        let init = runs.drop_last();
        assert(workspaces_of(runs)[runs.len() - 1] == runs.last().workspace);
        assert(!workspaces_of(init).contains(name)) by {
            if workspaces_of(init).contains(name) {
                let i = choose|i: int|
                    0 <= i < workspaces_of(init).len() && workspaces_of(init)[i] == name;
                assert(workspaces_of(runs)[i] == name);
            }
        }
        lemma_no_runs(init, name);
    }
}

/// Runs grouped by workspace, in the order each workspace first appears in
/// the run list. A group's repositories are summed up by count.
pub fn group_runs(runs: &Vec<RunSummary>) -> (r: Vec<RunGroup>)
    ensures
        is_grouped(text::views(r@), text::views(runs@)),
{
    let ghost all = text::views(runs@);
    let mut groups: Vec<RunGroup> = Vec::new();
    let mut i: usize = 0;
    proof {
        assert(workspaces_of(all.take(0)) =~= Seq::<Seq<char>>::empty());
        assert(Seq::new(text::views(groups@).len(), |k: int| text::views(groups@)[k].name)
            =~= text::first_seen(workspaces_of(all.take(0))));
    }
    while i < runs.len()
        invariant
            i <= runs@.len(),
            all == text::views(runs@),
            is_grouped(text::views(groups@), all.take(i as int)),
        decreases runs@.len() - i,
    {
        let run = &runs[i];
        let ghost part = all.take(i as int);
        let ghost models = text::views(groups@);
        let ghost names = Seq::new(models.len(), |k: int| models[k].name);
        let ghost next = all.take(i + 1);
        proof {
            assert(all[i as int] == run@);
            assert(next =~= part.push(run@));
            assert(workspaces_of(next).drop_last() =~= workspaces_of(part));
            assert(workspaces_of(next).last() == run@.workspace);
            text::law_first_seen(workspaces_of(part));
        }
        let mut k: usize = 0;
        while k < groups.len() && !same(groups[k].name.as_str(), run.workspace.as_str())
            invariant
                k <= groups@.len(),
                models == text::views(groups@),
                forall|j: int| 0 <= j < k ==> (#[trigger] models[j]).name != run@.workspace,
            decreases groups@.len() - k,
        {
            assert(models[k as int] == groups@[k as int]@);
            k = k + 1;
        }
        let ghost old_groups = groups@;
        if k < groups.len() {
            let copy = run.clone();
            let ghost old_runs = groups@[k as int].runs@;
            groups[k].runs.push(copy);
            proof {
                assert(models[k as int] == old_groups[k as int]@);
                assert(names[k as int] == run@.workspace);
                assert(names.contains(run@.workspace));
                assert(workspaces_of(part).contains(run@.workspace));
                text::lemma_views_push(old_runs, copy);
                assert(groups@[k as int].runs@ =~= old_runs.push(copy));
                let now = text::views(groups@);
                assert forall|j: int| 0 <= j < now.len() implies is_group(
                    #[trigger] now[j],
                    next,
                ) by {
                    assert(is_group(models[j], part));
                    lemma_group_grows(part, run@, models[j].name);
                    assert(now[j] == groups@[j]@);
                    assert(models[j] == old_groups[j]@);
                    if j == k {
                        assert(now[j].runs == models[j].runs.push(run@));
                        assert(now[j].runs[0] == models[j].runs[0]);
                    } else {
                        assert(names[j] != names[k as int]);
                        assert(groups@[j] == old_groups[j]);
                    }
                }
                assert(Seq::new(now.len(), |j: int| now[j].name) =~= names);
            }
        } else {
            let mut first: Vec<RunSummary> = Vec::new();
            let copy = run.clone();
            first.push(copy);
            let group = RunGroup {
                name: run.workspace.clone(),
                repo_summary: plural(run.repos.len(), "repo"),
                runs: first,
            };
            groups.push(group);
            proof {
                assert(run@.repos.len() == run.repos@.len());
                assert(!names.contains(run@.workspace)) by {
                    if names.contains(run@.workspace) {
                        let j = choose|j: int|
                            0 <= j < names.len() && names[j] == run@.workspace;
                        assert(models[j].name == run@.workspace);
                    }
                }
                assert(!workspaces_of(part).contains(run@.workspace));
                text::lemma_views_push(old_groups, group);
                assert(groups@ =~= old_groups.push(group));
                let now = text::views(groups@);
                lemma_no_runs(part, run@.workspace);
                assert(text::views(first@) =~= seq![run@]);
                assert forall|j: int| 0 <= j < now.len() implies is_group(
                    #[trigger] now[j],
                    next,
                ) by {
                    if j < models.len() {
                        assert(now[j] == models[j]);
                        assert(is_group(models[j], part));
                        assert(names[j] == models[j].name);
                        assert(names.contains(names[j]));
                        lemma_group_grows(part, run@, models[j].name);
                    } else {
                        lemma_group_grows(part, run@, run@.workspace);
                        assert(now[j] == group@);
                        assert(runs_of(next, run@.workspace) =~= seq![run@]);
                    }
                }
                assert(Seq::new(now.len(), |j: int| now[j].name) =~= names.push(run@.workspace));
            }
        }
        i = i + 1;
    }
    assert(all.take(i as int) =~= all);
    groups
}

/// What the dashboard shows of the runs, but for the money.
#[derive(Debug, PartialEq)]
pub struct Dashboard {
    pub total_runs: usize,
    pub active_runs: usize,
    pub total_epics: usize,
    pub columns: Vec<BoardColumn>,
    pub groups: Vec<RunGroup>,
}

/// The overview, the board over all runs and the runs by workspace.
pub fn dashboard_body(runs: &Vec<RunSummary>) -> (r: Dashboard)
    ensures
        r.total_runs == runs@.len(),
        r.active_runs == text::views(runs@).filter(
            |run: dto::SummaryModel| in_flight(run),
        ).len(),
        r.total_epics == board_of(text::views(runs@)).len(),
        r.columns@.len() == column_order().len(),
        forall|i: int|
            0 <= i < r.columns@.len() ==> is_board_column(
                #[trigger] r.columns@[i],
                board_of(text::views(runs@)),
                column_order()[i],
            ),
        is_grouped(text::views(r.groups@), text::views(runs@)),
{
    let active = active_runs(runs);
    assert(text::views(active@).len() == active@.len());
    let board = board_cards(runs);
    assert(text::views(board@).len() == board@.len());
    let order = columns();
    let mut out: Vec<BoardColumn> = Vec::new();
    let mut i: usize = 0;
    while i < order.len()
        invariant
            i <= order@.len(),
            order@ == column_order(),
            text::views(board@) == board_of(text::views(runs@)),
            out@.len() == i,
            forall|j: int|
                0 <= j < i ==> is_board_column(
                    #[trigger] out@[j],
                    board_of(text::views(runs@)),
                    column_order()[j],
                ),
        decreases order@.len() - i,
    {
        out.push(board_column(&board, order[i]));
        i = i + 1;
    }
    Dashboard {
        total_runs: runs.len(),
        active_runs: active.len(),
        total_epics: board.len(),
        columns: out,
        groups: group_runs(runs),
    }
}

/// The line under a run's goal: its epics and its repositories.
pub fn run_line(run: &RunSummary) -> (r: String)
    ensures
        r@ == counted(run@.epics.len(), "epic"@) + " · "@ + counted(run@.repos.len(), "repo"@),
{
    assert(run@.epics.len() == run.epics@.len());
    assert(run@.repos.len() == run.repos@.len());
    plural(run.epics.len(), "epic").concat(" · ").concat(plural(run.repos.len(), "repo").as_str())
}

/// Every epic is in exactly one column: the counts of the columns add up to
/// the number of epics.
pub proof fn law_columns_share_the_board(board: Seq<BoardCardModel>)
    ensures
        in_column(board, KanbanColumn::Todo).len() + in_column(
            board,
            KanbanColumn::InProgress,
        ).len() + in_column(board, KanbanColumn::Review).len() + in_column(
            board,
            KanbanColumn::Done,
        ).len() + in_column(board, KanbanColumn::Blocked).len() == board.len(),
    decreases board.len(),
{
    reveal(Seq::filter);
    if board.len() > 0 {
        law_columns_share_the_board(board.drop_last());
    }
}

/// Every run is shown in the group of its workspace, and in no other.
pub proof fn law_every_run_has_its_group(
    groups: Seq<GroupModel>,
    runs: Seq<dto::SummaryModel>,
    i: int,
)
    requires
        is_grouped(groups, runs),
        0 <= i < runs.len(),
    ensures
        exists|k: int|
            0 <= k < groups.len() && (#[trigger] groups[k]).name == runs[i].workspace
                && groups[k].runs.contains(runs[i]),
        forall|k: int|
            0 <= k < groups.len() && (#[trigger] groups[k]).runs.contains(runs[i]) ==> groups[k].name
                == runs[i].workspace,
{
    let names = Seq::new(groups.len(), |k: int| groups[k].name);
    let name = runs[i].workspace;
    text::law_first_seen(workspaces_of(runs));
    assert(workspaces_of(runs)[i] == name);
    assert(workspaces_of(runs).contains(name));
    assert(names.contains(name));
    let k = choose|k: int| 0 <= k < names.len() && names[k] == name;
    assert(is_group(groups[k], runs));
    let keep = |run: dto::SummaryModel| run.workspace == name;
    assert(keep(runs[i]));
    runs.lemma_filter_contains(keep, i);
    assert forall|j: int| 0 <= j < groups.len() && (#[trigger] groups[j]).runs.contains(
        runs[i],
    ) implies groups[j].name == name by {
        assert(is_group(groups[j], runs));
        let keep_j = |run: dto::SummaryModel| run.workspace == groups[j].name;
        let x = choose|x: int| 0 <= x < groups[j].runs.len() && groups[j].runs[x] == runs[i];
        runs.lemma_filter_pred(keep_j, x);
    }
}

} // verus!
