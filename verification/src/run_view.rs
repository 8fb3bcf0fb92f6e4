//! The page of one run: its header, the five kanban columns, the log, and,
//! once the run has ended, the final report.
use vstd::prelude::*;
use vstd::string::*;

use crate::app;
use crate::app::{has_merged, is_on_hold, kanban_column, App, EpicStatus, EpicView, KanbanColumn, Phase};
use crate::dashboard;
use crate::dashboard::{column_head_class, column_label, column_status_class, columns};
use crate::run;
use crate::run::resumable;
use crate::strmap::StrMap;
use crate::text;
use crate::text::{
    clone_opt, contains, contains_text, decimal, find_from, from_chars, join, same, starts_with,
    to_chars,
};
use crate::tui;
use crate::tui::status_by_id;

verus! {

/// The class of a report row's pill: green for merged, neutral for skipped,
/// red for anything else.
pub fn report_status_class(status: EpicStatus) -> (r: &'static str)
    ensures
        r@ == match status {
            EpicStatus::Merged =>
                "inline-flex items-center gap-1.5 justify-self-start rounded-full border px-[9px] py-[3px] text-[12px] font-semibold whitespace-nowrap text-done bg-done/12 border-done/30"@,
            EpicStatus::Skipped =>
                "inline-flex items-center gap-1.5 justify-self-start rounded-full border px-[9px] py-[3px] text-[12px] font-semibold whitespace-nowrap text-dim bg-todo/10 border-todo/30"@,
            _ =>
                "inline-flex items-center gap-1.5 justify-self-start rounded-full border px-[9px] py-[3px] text-[12px] font-semibold whitespace-nowrap text-block bg-block/10 border-block/30"@,
        },
{
    match status {
        EpicStatus::Merged =>
            "inline-flex items-center gap-1.5 justify-self-start rounded-full border px-[9px] py-[3px] text-[12px] font-semibold whitespace-nowrap text-done bg-done/12 border-done/30",
        EpicStatus::Skipped =>
            "inline-flex items-center gap-1.5 justify-self-start rounded-full border px-[9px] py-[3px] text-[12px] font-semibold whitespace-nowrap text-dim bg-todo/10 border-todo/30",
        _ =>
            "inline-flex items-center gap-1.5 justify-self-start rounded-full border px-[9px] py-[3px] text-[12px] font-semibold whitespace-nowrap text-block bg-block/10 border-block/30",
    }
}

/// The epics of one column, in their order.
pub open spec fn in_column(epics: Seq<app::CardModel>, column: KanbanColumn) -> Seq<
    app::CardModel,
> {
    epics.filter(|e: app::CardModel| app::column_of(e.status) == column)
}

/// The epics belonging to one kanban column, in their original order.
pub fn column_epics(epics: &Vec<EpicView>, column: KanbanColumn) -> (r: Vec<EpicView>)
    ensures
        text::views(r@) == in_column(text::views(epics@), column),
{
    let ghost all = text::views(epics@);
    let ghost keep = |e: app::CardModel| app::column_of(e.status) == column;
    let mut out: Vec<EpicView> = Vec::new();
    let mut i: usize = 0;
    proof {
        reveal(Seq::filter);
    }
    assert(text::views(out@) =~= all.take(0).filter(keep));
    while i < epics.len()
        invariant
            i <= epics@.len(),
            all == text::views(epics@),
            keep == (|e: app::CardModel| app::column_of(e.status) == column),
            text::views(out@) == all.take(i as int).filter(keep),
        decreases epics@.len() - i,
    {
        let ghost sofar = out@;
        proof {
            assert(all[i as int] == epics@[i as int]@);
            assert(all.take(i + 1) =~= all.take(i as int).push(all[i as int]));
            all.take(i as int).lemma_filter_push(all[i as int], keep);
        }
        if kanban_column(epics[i].status) == column {
            let copy = epics[i].clone();
            out.push(copy);
            proof {
                text::lemma_views_push(sofar, copy);
                assert(out@ =~= sofar.push(copy));
            }
        }
        i = i + 1;
    }
    assert(all.take(i as int) =~= all);
    out
}

/// The dependencies that have not merged, in their order.
pub open spec fn waiting_on(
    depends_on: Seq<Seq<char>>,
    statuses: Map<Seq<char>, EpicStatus>,
) -> Seq<Seq<char>> {
    depends_on.filter(
        |d: Seq<char>| !(statuses.contains_key(d) && statuses[d] == EpicStatus::Merged),
    )
}

/// The hint on a card that waits: only in the Todo column, and only where a
/// dependency has not merged.
pub open spec fn hold_hint(
    column: KanbanColumn,
    depends_on: Seq<Seq<char>>,
    statuses: Map<Seq<char>, EpicStatus>,
) -> Option<Seq<char>> {
    if column is Todo && app::on_hold(depends_on, statuses) {
        Some("on hold · waits on "@ + text::joined(waiting_on(depends_on, statuses), ", "@))
    } else {
        None
    }
}

/// The hint on a card that waits for its dependencies, naming those that have
/// not merged.
pub fn hold_label(
    column: KanbanColumn,
    depends_on: &Vec<String>,
    statuses: &StrMap<EpicStatus>,
) -> (r: Option<String>)
    requires
        statuses.wf(),
    ensures
        text::opt_view(r) == hold_hint(column, text::views(depends_on@), statuses@),
{
    if column != KanbanColumn::Todo || !is_on_hold(depends_on, statuses) {
        return None;
    }
    let ghost all = text::views(depends_on@);
    let ghost keep = |d: Seq<char>|
        !(statuses@.contains_key(d) && statuses@[d] == EpicStatus::Merged);
    let mut waiting: Vec<String> = Vec::new();
    let mut i: usize = 0;
    proof {
        reveal(Seq::filter);
    }
    assert(text::views(waiting@) =~= all.take(0).filter(keep));
    while i < depends_on.len()
        invariant
            statuses.wf(),
            i <= depends_on@.len(),
            all == text::views(depends_on@),
            keep == (|d: Seq<char>|
                !(statuses@.contains_key(d) && statuses@[d] == EpicStatus::Merged)),
            text::views(waiting@) == all.take(i as int).filter(keep),
        decreases depends_on@.len() - i,
    {
        let ghost sofar = waiting@;
        proof {
            assert(all[i as int] == depends_on@[i as int]@);
            assert(all.take(i + 1) =~= all.take(i as int).push(all[i as int]));
            all.take(i as int).lemma_filter_push(all[i as int], keep);
        }
        let merged = match statuses.get(depends_on[i].as_str()) {
            Some(s) => *s == EpicStatus::Merged,
            None => false,
        };
        if !merged {
            let copy = depends_on[i].clone();
            waiting.push(copy);
            proof {
                text::lemma_views_push(sofar, copy);
                assert(waiting@ =~= sofar.push(copy));
            }
        }
        i = i + 1;
    }
    assert(all.take(i as int) =~= all);
    let list = join(&waiting, ", ");
    Some("on hold · waits on ".to_string().concat(list.as_str()))
}

/// An epic on hold always names at least one dependency it waits on.
pub proof fn law_a_hold_names_its_reason(
    depends_on: Seq<Seq<char>>,
    statuses: Map<Seq<char>, EpicStatus>,
)
    ensures
        app::on_hold(depends_on, statuses) <==> waiting_on(depends_on, statuses).len() > 0,
{
    let keep = |d: Seq<char>| !(statuses.contains_key(d) && statuses[d] == EpicStatus::Merged);
    let waiting = depends_on.filter(keep);
    if app::on_hold(depends_on, statuses) {
        let i = choose|i: int|
            0 <= i < depends_on.len() && !(statuses.contains_key(#[trigger] depends_on[i])
                && statuses[depends_on[i]] == EpicStatus::Merged);
        assert(keep(depends_on[i]));
        depends_on.lemma_filter_contains(keep, i);
    }
    if waiting.len() > 0 {
        depends_on.lemma_filter_pred(keep, 0);
        assert(waiting.contains(waiting[0]));
        depends_on.lemma_filter_contains_rev(keep, waiting[0]);
    }
}

/// The left rail of a card, by its column.
pub open spec fn rail(column: KanbanColumn) -> Seq<char> {
    match column {
        KanbanColumn::Todo => "border-l-todo/30"@,
        KanbanColumn::InProgress => "border-l-prog"@,
        KanbanColumn::Review => "border-l-review"@,
        KanbanColumn::Done => "border-l-done"@,
        KanbanColumn::Blocked => "border-l-block"@,
    }
}

/// The ring of a card that runs.
pub open spec fn glow(column: KanbanColumn) -> Seq<char> {
    if column is InProgress {
        "ring-1 ring-prog/40"@
    } else {
        ""@
    }
}

/// The class of a card in a column.
pub fn card_class(column: KanbanColumn) -> (r: String)
    ensures
        r@ == "flex flex-col gap-2 rounded-md border border-line border-l-[3px] "@ + rail(column)
            + " bg-inset py-3 pr-3 pl-4 shadow-card transition hover:-translate-y-px hover:bg-raised "@
            + glow(column),
{
    let left = match column {
        KanbanColumn::Todo => "border-l-todo/30",
        KanbanColumn::InProgress => "border-l-prog",
        KanbanColumn::Review => "border-l-review",
        KanbanColumn::Done => "border-l-done",
        KanbanColumn::Blocked => "border-l-block",
    };
    let ring = match column {
        KanbanColumn::InProgress => "ring-1 ring-prog/40",
        _ => "",
    };
    "flex flex-col gap-2 rounded-md border border-line border-l-[3px] ".to_string().concat(
        left,
    ).concat(
        " bg-inset py-3 pr-3 pl-4 shadow-card transition hover:-translate-y-px hover:bg-raised ",
    ).concat(ring)
}

/// The class of a card's status pill in a column.
pub fn status_class(column: KanbanColumn) -> (r: String)
    ensures
        r@
            == "inline-flex items-center gap-1.5 shrink-0 ml-auto rounded-full border px-2 py-[3px] text-[12px] font-semibold whitespace-nowrap "@
            + dashboard::pill_colors(column),
{
    "inline-flex items-center gap-1.5 shrink-0 ml-auto rounded-full border px-2 py-[3px] text-[12px] font-semibold whitespace-nowrap ".to_string().concat(
        column_status_class(column),
    )
}

/// Only an epic that did its own work and lost it can be retried, and only
/// once the run has ended.
pub open spec fn retriable(status: EpicStatus, run_ended: bool) -> bool {
    run_ended && (status is Failed || status is Conflict)
}

/// Whether a card offers a retry.
pub fn can_retry(status: EpicStatus, run_ended: bool) -> (r: bool)
    ensures
        r == retriable(status, run_ended),
{
    run_ended && (status == EpicStatus::Failed || status == EpicStatus::Conflict)
}

/// One card of a run's board.
#[derive(Debug, PartialEq)]
pub struct RunCard {
    pub epic: EpicView,
    pub hold: Option<String>,
    pub retry: bool,
}

/// The card shows the epic, in a column, with the statuses of all epics.
pub open spec fn is_card(
    c: RunCard,
    epic: app::CardModel,
    column: KanbanColumn,
    statuses: Map<Seq<char>, EpicStatus>,
    run_ended: bool,
) -> bool {
    &&& c.epic@ == epic
    &&& text::opt_view(c.hold) == hold_hint(column, epic.depends_on, statuses)
    &&& c.retry == retriable(epic.status, run_ended)
}

/// One column of a run's board.
#[derive(Debug, PartialEq)]
pub struct RunColumn {
    pub column: KanbanColumn,
    pub label: &'static str,
    pub header: &'static str,
    pub cards: Vec<RunCard>,
}

/// The column shows its epics of the run.
pub open spec fn is_column(
    c: RunColumn,
    column: KanbanColumn,
    epics: Seq<app::CardModel>,
    run_ended: bool,
) -> bool {
    let mine = in_column(epics, column);
    &&& c.column == column
    &&& c.label@ == dashboard::column_title(column)
    &&& c.header@ == dashboard::head_color(column)
    &&& c.cards@.len() == mine.len()
    &&& forall|i: int|
        0 <= i < mine.len() ==> is_card(
            #[trigger] c.cards@[i],
            mine[i],
            column,
            tui::statuses(epics),
            run_ended,
        )
}

/// One kanban column: its header, and its cards. In the Todo column, an epic
/// whose dependencies have not all merged yet carries a hint.
pub fn kanban_column_view(column: KanbanColumn, epics: &Vec<EpicView>, run_ended: bool) -> (r:
    RunColumn)
    ensures
        is_column(r, column, text::views(epics@), run_ended),
{
    let statuses = status_by_id(epics);
    let mine = column_epics(epics, column);
    let ghost all = text::views(mine@);
    let mut cards: Vec<RunCard> = Vec::new();
    let mut i: usize = 0;
    while i < mine.len()
        invariant
            statuses.wf(),
            statuses@ == tui::statuses(text::views(epics@)),
            i <= mine@.len(),
            all == text::views(mine@),
            cards@.len() == i,
            forall|j: int|
                0 <= j < i ==> is_card(
                    #[trigger] cards@[j],
                    all[j],
                    column,
                    tui::statuses(text::views(epics@)),
                    run_ended,
                ),
        decreases mine@.len() - i,
    {
        let epic = mine[i].clone();
        assert(all[i as int] == mine@[i as int]@);
        let hold = hold_label(column, &epic.depends_on, &statuses);
        let retry = can_retry(epic.status, run_ended);
        cards.push(RunCard { epic, hold, retry });
        i = i + 1;
    }
    RunColumn {
        column,
        label: column_label(column),
        header: column_head_class(column),
        cards,
    }
}

/// What `str::to_lowercase` of std gives for a text.
pub uninterp spec fn lower_case(s: Seq<char>) -> Seq<char>;

/// Calls `str::to_lowercase` of std, which maps every character to its lower
/// case by Unicode's tables. The contract claims that the result depends on
/// the text alone.
#[verifier::external_body]
fn to_lower(s: &str) -> (r: String)
    ensures
        r@ == lower_case(s@),
{
    s.to_lowercase()
}

/// What a log line tells.
#[derive(Debug, Clone, Copy, PartialEq, Eq, Structural)]
pub enum LogKind {
    Good,
    Bad,
    Plan,
    Other,
}

/// What a log line tells, by its lower-case text.
pub open spec fn kind_of(lower: Seq<char>) -> LogKind {
    if text::has_part(lower, "merged"@) || text::has_part(lower, "passed"@) || text::has_part(
        lower,
        "ok ("@,
    ) {
        LogKind::Good
    } else if text::has_part(lower, "conflict"@) || text::has_part(lower, "error"@)
        || text::has_part(lower, "fail"@) {
        LogKind::Bad
    } else if text::has_prefix(lower, "[plan]"@) {
        LogKind::Plan
    } else {
        LogKind::Other
    }
}

/// What a log line tells, by its lower-case text.
pub fn log_kind(lower: &str) -> (r: LogKind)
    ensures
        r == kind_of(lower@),
{
    if contains(lower, "merged") || contains(lower, "passed") || contains(lower, "ok (") {
        LogKind::Good
    } else if contains(lower, "conflict") || contains(lower, "error") || contains(lower, "fail") {
        LogKind::Bad
    } else if starts_with(lower, "[plan]") {
        LogKind::Plan
    } else {
        LogKind::Other
    }
}

/// The color of a line's text.
pub fn line_class(kind: LogKind) -> (r: &'static str)
    ensures
        r@ == if kind is Bad {
            "text-danger"@
        } else {
            "text-muted"@
        },
{
    match kind {
        LogKind::Bad => "text-danger",
        _ => "text-muted",
    }
}

/// The color of a line's leading tag.
pub fn tag_class(kind: LogKind) -> (r: &'static str)
    ensures
        r@ == match kind {
            LogKind::Good => "text-done"@,
            LogKind::Bad => "text-danger"@,
            LogKind::Plan => "text-review"@,
            LogKind::Other => "text-accent"@,
        },
{
    match kind {
        LogKind::Good => "text-done",
        LogKind::Bad => "text-danger",
        LogKind::Plan => "text-review",
        LogKind::Other => "text-accent",
    }
}

/// The line starts with a tag: a bracket that is closed.
pub open spec fn has_tag(line: Seq<char>) -> bool {
    line.len() > 0 && line[0] == '[' && line.skip(1).contains(']')
}

/// The leading tag with its brackets, and what follows it.
pub open spec fn tag_and_body(line: Seq<char>) -> (Option<Seq<char>>, Seq<char>) {
    if has_tag(line) {
        let end = 1 + text::first_pos(line.skip(1), ']') as int;
        (Some(line.take(end + 1)), line.skip(end + 1))
    } else {
        (None, line)
    }
}

/// The leading `[tag]` of a line, where it has one, and the rest.
pub fn split_tag(line: &str) -> (r: (Option<String>, String))
    ensures
        (text::opt_view(r.0), r.1@) == tag_and_body(line@),
{
    let cs = to_chars(line);
    if cs.len() == 0 || cs[0] != '[' {
        return (None, line.to_string());
    }
    let end = find_from(&cs, ']', 1);
    proof {
        assert(cs@.subrange(1, cs@.len() as int) =~= line@.skip(1));
        text::lemma_first_pos(line@.skip(1), ']');
    }
    if end == cs.len() {
        assert(!line@.skip(1).contains(']')) by {
            if line@.skip(1).contains(']') {
                let i = choose|i: int|
                    0 <= i < line@.skip(1).len() && line@.skip(1)[i] == ']';
            }
        }
        return (None, line.to_string());
    }
    assert(line@.skip(1)[end - 1] == ']');
    assert(line@.skip(1).contains(']'));
    let tag = from_chars(&cs, 0, end + 1);
    let body = from_chars(&cs, end + 1, cs.len());
    assert(tag@ =~= line@.take(end + 1));
    assert(body@ =~= line@.skip(end + 1));
    (Some(tag), body)
}

/// Nothing of a line is lost: the tag and the rest are the line.
pub proof fn law_tag_and_body_are_the_line(line: Seq<char>)
    ensures
        match tag_and_body(line) {
            (Some(tag), body) => tag + body == line,
            (None, body) => body == line,
        },
{
    if has_tag(line) {
        text::lemma_first_pos(line.skip(1), ']');
        let end = 1 + text::first_pos(line.skip(1), ']') as int;
        if end == line.len() {
            let i = choose|i: int| 0 <= i < line.skip(1).len() && line.skip(1)[i] == ']';
            assert(line.skip(1)[i] == ']');
        }
        assert(line.take(end + 1) + line.skip(end + 1) =~= line);
    }
}

/// One line of the log.
#[derive(Debug, PartialEq)]
pub struct LogLine {
    pub kind: LogKind,
    pub tag: Option<String>,
    pub body: String,
}

/// The line of the log for a text and its lower-case form.
pub open spec fn is_log_line(l: LogLine, line: Seq<char>, lower: Seq<char>) -> bool {
    &&& l.kind == kind_of(lower)
    &&& (text::opt_view(l.tag), l.body@) == tag_and_body(line)
}

/// One log line, given its lower-case form.
pub fn log_line_of(line: &str, lower: &str) -> (r: LogLine)
    ensures
        is_log_line(r, line@, lower@),
{
    let (tag, body) = split_tag(line);
    LogLine { kind: log_kind(lower), tag, body }
}

/// One log line, tinted by what it tells, with its leading `[tag]` apart.
pub fn log_line_view(line: &str) -> (r: LogLine)
    ensures
        is_log_line(r, line@, lower_case(line@)),
{
    let lower = to_lower(line);
    log_line_of(line, lower.as_str())
}

/// The repositories of the epics.
pub open spec fn repos_of(epics: Seq<app::CardModel>) -> Seq<Seq<char>> {
    Seq::new(epics.len(), |i: int| epics[i].repo)
}

/// The distinct repositories that have a name, each where it was first seen.
pub open spec fn named_repos_of(epics: Seq<app::CardModel>) -> Seq<Seq<char>> {
    text::first_seen(repos_of(epics)).filter(|r: Seq<char>| r.len() > 0)
}

/// The distinct repositories that have a name, each where it was first seen.
pub fn named_repos(epics: &Vec<EpicView>) -> (r: Vec<String>)
    ensures
        text::views(r@) == named_repos_of(text::views(epics@)),
{
    let ghost all = repos_of(text::views(epics@));
    let ghost keep = |r: Seq<char>| r.len() > 0;
    let mut out: Vec<String> = Vec::new();
    let mut i: usize = 0;
    proof {
        reveal(Seq::filter);
        assert(all.take(0) =~= Seq::<Seq<char>>::empty());
    }
    assert(text::views(out@) =~= text::first_seen(all.take(0)).filter(keep));
    while i < epics.len()
        invariant
            i <= epics@.len(),
            all == repos_of(text::views(epics@)),
            keep == (|r: Seq<char>| r.len() > 0),
            text::views(out@) == text::first_seen(all.take(i as int)).filter(keep),
        decreases epics@.len() - i,
    {
        let repo = &epics[i].repo;
        let ghost part = all.take(i as int);
        let ghost sofar = out@;
        proof {
            assert(all[i as int] == repo@);
            assert(all.take(i + 1).drop_last() =~= part);
            assert(all.take(i + 1).last() == repo@);
            text::law_first_seen(part);
            text::first_seen(part).lemma_filter_push(repo@, keep);
            lemma_kept(text::first_seen(part), keep, repo@);
        }
        if !repo.as_str().is_empty() && !contains_text(&out, repo.as_str()) {
            let copy = repo.clone();
            out.push(copy);
            proof {
                text::lemma_views_push(sofar, copy);
                assert(out@ =~= sofar.push(copy));
            }
        }
        i = i + 1;
    }
    assert(all.take(i as int) =~= all);
    out
}

proof fn lemma_kept(s: Seq<Seq<char>>, keep: spec_fn(Seq<char>) -> bool, x: Seq<char>)
    ensures
        s.filter(keep).contains(x) <==> s.contains(x) && keep(x),
{
    if s.contains(x) && keep(x) {
        let i = choose|i: int| 0 <= i < s.len() && s[i] == x;
        s.lemma_filter_contains(keep, i);
    }
    if s.filter(keep).contains(x) {
        let i = choose|i: int| 0 <= i < s.filter(keep).len() && s.filter(keep)[i] == x;
        s.lemma_filter_pred(keep, i);
        s.lemma_filter_contains_rev(keep, x);
    }
}

/// The epics of one repository.
#[derive(Debug, PartialEq)]
pub struct RepoGroup {
    pub repo: String,
    pub epics: Vec<EpicView>,
}

/// The content of such a group.
#[verifier::ext_equal]
pub ghost struct RepoGroupModel {
    pub repo: Seq<char>,
    pub epics: Seq<app::CardModel>,
}

impl View for RepoGroup {
    type V = RepoGroupModel;

    open spec fn view(&self) -> RepoGroupModel {
        RepoGroupModel { repo: self.repo@, epics: text::views(self.epics@) }
    }
}

/// The names of the groups: the repositories in the order they were first
/// seen, and the group without a repository last, where there is one.
pub open spec fn group_names(epics: Seq<app::CardModel>) -> Seq<Seq<char>> {
    if repos_of(epics).contains(Seq::empty()) {
        named_repos_of(epics).push(Seq::empty())
    } else {
        named_repos_of(epics)
    }
}

/// The epics of one repository, in their order.
pub open spec fn epics_in(epics: Seq<app::CardModel>, repo: Seq<char>) -> Seq<app::CardModel> {
    epics.filter(|e: app::CardModel| e.repo == repo)
}

/// The epics by repository.
pub open spec fn groups_of(epics: Seq<app::CardModel>) -> Seq<RepoGroupModel> {
    Seq::new(
        group_names(epics).len(),
        |k: int|
            RepoGroupModel {
                repo: group_names(epics)[k],
                epics: epics_in(epics, group_names(epics)[k]),
            },
    )
}

fn epics_of_repo(epics: &Vec<EpicView>, repo: &str) -> (r: Vec<EpicView>)
    ensures
        text::views(r@) == epics_in(text::views(epics@), repo@),
{
    let ghost all = text::views(epics@);
    let ghost keep = |e: app::CardModel| e.repo == repo@;
    let mut out: Vec<EpicView> = Vec::new();
    let mut i: usize = 0;
    proof {
        reveal(Seq::filter);
    }
    assert(text::views(out@) =~= all.take(0).filter(keep));
    while i < epics.len()
        invariant
            i <= epics@.len(),
            all == text::views(epics@),
            keep == (|e: app::CardModel| e.repo == repo@),
            text::views(out@) == all.take(i as int).filter(keep),
        decreases epics@.len() - i,
    {
        let ghost sofar = out@;
        proof {
            assert(all[i as int] == epics@[i as int]@);
            assert(all.take(i + 1) =~= all.take(i as int).push(all[i as int]));
            all.take(i as int).lemma_filter_push(all[i as int], keep);
        }
        if same(epics[i].repo.as_str(), repo) {
            let copy = epics[i].clone();
            out.push(copy);
            proof {
                text::lemma_views_push(sofar, copy);
                assert(out@ =~= sofar.push(copy));
            }
        }
        i = i + 1;
    }
    assert(all.take(i as int) =~= all);
    out
}

/// Groups epics by repo, preserving each repo's first-seen order. Epics with
/// no repo tag are collected under one group at the end, since an empty repo
/// carries no ordering signal of its own.
pub fn group_epics_by_repo(epics: &Vec<EpicView>) -> (r: Vec<RepoGroup>)
    ensures
        text::views(r@) == groups_of(text::views(epics@)),
{
    let ghost all = text::views(epics@);
    let mut names = named_repos(epics);
    let mut i: usize = 0;
    while i < epics.len() && !epics[i].repo.as_str().is_empty()
        invariant
            i <= epics@.len(),
            all == text::views(epics@),
            forall|j: int| 0 <= j < i ==> (#[trigger] all[j]).repo.len() > 0,
        decreases epics@.len() - i,
    {
        assert(all[i as int] == epics@[i as int]@);
        i = i + 1;
    }
    if i < epics.len() {
        let ghost sofar = names@;
        let blank = String::new();
        names.push(blank);
        proof {
            assert(all[i as int] == epics@[i as int]@);
            assert(blank@ =~= Seq::<char>::empty());
            assert(repos_of(all)[i as int] =~= Seq::<char>::empty());
            text::lemma_views_push(sofar, blank);
            assert(names@ =~= sofar.push(blank));
        }
    } else {
        assert(!repos_of(all).contains(Seq::empty())) by {
            if repos_of(all).contains(Seq::empty()) {
                let j = choose|j: int|
                    0 <= j < repos_of(all).len() && repos_of(all)[j] == Seq::<char>::empty();
                assert(all[j].repo.len() == 0);
            }
        }
    }
    assert(text::views(names@) == group_names(all));
    let mut out: Vec<RepoGroup> = Vec::new();
    let mut k: usize = 0;
    assert(text::views(out@) =~= groups_of(all).take(0));
    assert(text::views(names@).len() == names@.len());
    while k < names.len()
        invariant
            k <= names@.len(),
            all == text::views(epics@),
            text::views(names@) == group_names(all),
            groups_of(all).len() == names@.len(),
            text::views(out@) == groups_of(all).take(k as int),
        decreases names@.len() - k,
    {
        let ghost sofar = out@;
        let group = RepoGroup {
            repo: names[k].clone(),
            epics: epics_of_repo(epics, names[k].as_str()),
        };
        out.push(group);
        proof {
            assert(group_names(all)[k as int] == names@[k as int]@);
            text::lemma_views_push(sofar, group);
            assert(out@ =~= sofar.push(group));
            assert(groups_of(all).take(k + 1) =~= groups_of(all).take(k as int).push(group@));
        }
        k = k + 1;
    }
    assert(groups_of(all).take(k as int) =~= groups_of(all));
    out
}

/// Every epic is in the report, in the group of its repository.
pub proof fn law_every_epic_is_reported(epics: Seq<app::CardModel>, i: int)
    requires
        0 <= i < epics.len(),
    ensures
        exists|k: int|
            0 <= k < groups_of(epics).len() && (#[trigger] groups_of(epics)[k]).repo
                == epics[i].repo && groups_of(epics)[k].epics.contains(epics[i]),
{
    let repo = epics[i].repo;
    let keep = |r: Seq<char>| r.len() > 0;
    assert(repos_of(epics)[i] == repo);
    assert(repos_of(epics).contains(repo));
    text::law_first_seen(repos_of(epics));
    lemma_kept(text::first_seen(repos_of(epics)), keep, repo);
    let names = group_names(epics);
    assert(names.contains(repo)) by {
        if repo.len() == 0 {
            assert(repo =~= Seq::<char>::empty());
            assert(names[names.len() - 1] == repo);
        } else {
            let k = choose|k: int|
                0 <= k < named_repos_of(epics).len() && named_repos_of(epics)[k] == repo;
            assert(names[k] == repo);
        }
    }
    let k = choose|k: int| 0 <= k < names.len() && names[k] == repo;
    let of_repo = |e: app::CardModel| e.repo == repo;
    assert(of_repo(epics[i]));
    epics.lemma_filter_contains(of_repo, i);
    assert(groups_of(epics)[k].epics == epics_in(epics, repo));
}

/// One section of the final report.
#[derive(Debug, PartialEq)]
pub struct ReportGroup {
    pub heading: String,
    pub epics: Vec<EpicView>,
    pub merged: bool,
}

/// The section shows the group.
pub open spec fn is_section(s: ReportGroup, g: RepoGroupModel) -> bool {
    &&& s.heading@ == if g.repo.len() == 0 {
        "No repo assigned"@
    } else {
        g.repo
    }
    &&& text::views(s.epics@) == g.epics
    &&& s.merged == app::any_merged(g.epics)
}

/// The final report.
#[derive(Debug, PartialEq)]
pub struct Report {
    pub error: Option<String>,
    pub groups: Vec<ReportGroup>,
    pub any_merged: bool,
}

/// The report shows the run.
pub open spec fn is_report(r: Report, m: app::AppModel) -> bool {
    &&& text::opt_view(r.error) == m.error
    &&& r.any_merged == app::any_merged(m.epics)
    &&& r.groups@.len() == groups_of(m.epics).len()
    &&& forall|k: int|
        0 <= k < r.groups@.len() ==> is_section(#[trigger] r.groups@[k], groups_of(m.epics)[k])
}

/// The final report shown once the run has ended. Rows are grouped by repo,
/// so a run over several reads as one section each.
pub fn final_report(app: &App) -> (r: Report)
    ensures
        is_report(r, app@),
{
    let mut groups = group_epics_by_repo(&app.epics);
    let ghost all = groups_of(app@.epics);
    let mut out: Vec<ReportGroup> = Vec::new();
    let mut i: usize = 0;
    assert(text::views(groups@).len() == groups@.len());
    while i < groups.len()
        invariant
            i <= groups@.len(),
            groups@.len() == all.len(),
            text::views(groups@) == all,
            out@.len() == i,
            forall|k: int| 0 <= k < i ==> is_section(#[trigger] out@[k], all[k]),
        decreases groups@.len() - i,
    {
        assert(all[i as int] == groups@[i as int]@);
        let heading = if groups[i].repo.as_str().is_empty() {
            "No repo assigned".to_string()
        } else {
            groups[i].repo.clone()
        };
        let merged = has_merged(&groups[i].epics);
        let epics = app::clone_cards(&groups[i].epics);
        out.push(ReportGroup { heading, epics, merged });
        i = i + 1;
    }
    Report { error: clone_opt(&app.error), groups: out, any_merged: has_merged(&app.epics) }
}

/// A run that has ended.
pub open spec fn ended(m: app::AppModel) -> bool {
    m.phase is Done || m.phase is Failed
}

/// What the page shows of a run, but for the money.
#[derive(Debug, PartialEq)]
pub struct RunBody {
    pub restart_error: Option<String>,
    pub workspace_line: String,
    pub can_abort: bool,
    pub can_resume: bool,
    pub columns: Vec<RunColumn>,
    pub log: Vec<LogLine>,
    pub report: Option<Report>,
}

/// The page shows the run.
pub open spec fn is_body(b: RunBody, m: app::AppModel) -> bool {
    &&& text::opt_view(b.restart_error) == if run::can_resume(m) {
        m.error
    } else {
        None
    }
    &&& b.workspace_line@ == if named_repos_of(m.epics).len() > 0 {
        m.workspace + " · "@ + text::decimal_of(named_repos_of(m.epics).len()) + " repos"@
    } else {
        m.workspace
    }
    &&& b.can_abort == !ended(m)
    &&& b.can_resume == run::can_resume(m)
    &&& b.columns@.len() == dashboard::column_order().len()
    &&& forall|i: int|
        0 <= i < b.columns@.len() ==> is_column(
            #[trigger] b.columns@[i],
            dashboard::column_order()[i],
            m.epics,
            ended(m),
        )
    &&& b.log@.len() == m.log.len()
    &&& forall|i: int|
        0 <= i < b.log@.len() ==> is_log_line(
            #[trigger] b.log@[i],
            m.log[i],
            lower_case(m.log[i]),
        )
    &&& b.report is Some <==> ended(m)
    &&& b.report matches Some(r) ==> is_report(r, m)
}

/// What the page shows of the latest snapshot of a run. The repository count
/// is derived from the repositories of the epics.
pub fn run_body(app: &App) -> (r: RunBody)
    ensures
        is_body(r, app@),
{
    let is_ended = app.phase == Phase::Done || app.phase == Phase::Failed;
    let resume = resumable(app);
    let repos = named_repos(&app.epics);
    assert(text::views(repos@).len() == repos@.len());
    let workspace_line = if repos.len() > 0 {
        app.workspace.clone().concat(" · ").concat(decimal(repos.len() as u64).as_str()).concat(
            " repos",
        )
    } else {
        app.workspace.clone()
    };
    let order = columns();
    let mut cols: Vec<RunColumn> = Vec::new();
    let mut i: usize = 0;
    while i < order.len()
        invariant
            i <= order@.len(),
            order@ == dashboard::column_order(),
            is_ended == ended(app@),
            cols@.len() == i,
            forall|j: int|
                0 <= j < i ==> is_column(
                    #[trigger] cols@[j],
                    dashboard::column_order()[j],
                    app@.epics,
                    ended(app@),
                ),
        decreases order@.len() - i,
    {
        cols.push(kanban_column_view(order[i], &app.epics, is_ended));
        i = i + 1;
    }
    let mut log: Vec<LogLine> = Vec::new();
    let mut k: usize = 0;
    let ghost lines = app@.log;
    assert(lines.len() == app.log@.len());
    while k < app.log.len()
        invariant
            k <= app.log@.len(),
            lines == app@.log,
            log@.len() == k,
            forall|j: int|
                0 <= j < k ==> is_log_line(#[trigger] log@[j], lines[j], lower_case(lines[j])),
        decreases app.log@.len() - k,
    {
        assert(lines[k as int] == app.log@[k as int]@);
        log.push(log_line_view(app.log[k].as_str()));
        k = k + 1;
    }
    let report = if is_ended {
        Some(final_report(app))
    } else {
        None
    };
    let restart_error = if resume {
        clone_opt(&app.error)
    } else {
        None
    };
    RunBody {
        restart_error,
        workspace_line,
        can_abort: !is_ended,
        can_resume: resume,
        columns: cols,
        log,
        report,
    }
}

/// A button that asks the server for something: abort, resume or retry. While
/// one request is in flight another press does nothing.
#[derive(Debug, PartialEq)]
pub struct RequestButton {
    pub busy: bool,
    pub error: Option<String>,
}

impl RequestButton {
    /// The button before it is pressed.
    pub fn new() -> (r: RequestButton)
        ensures
            !r.busy,
            r.error is None,
    {
        RequestButton { busy: false, error: None }
    }

    /// A press: whether the request is to be sent. Sending clears the last error.
    pub fn press(&mut self) -> (r: bool)
        ensures
            r == !old(self).busy,
            final(self).busy,
            r ==> final(self).error is None,
            !r ==> *final(self) == *old(self),
    {
        if self.busy {
            return false;
        }
        self.busy = true;
        self.error = None;
        true
    }

    /// Takes in whether the request went through.
    pub fn done(&mut self, reply: Result<(), String>)
        ensures
            !final(self).busy,
            match reply {
                Ok(_) => final(self).error == old(self).error,
                Err(e) => final(self).error == Some(e),
            },
    {
        match reply {
            Ok(_) => {},
            Err(e) => {
                self.error = Some(e);
            },
        }
        self.busy = false;
    }
}

/// A run that can be resumed has ended, so it cannot be aborted: the page
/// never offers both.
pub proof fn law_abort_or_resume(m: app::AppModel)
    ensures
        run::can_resume(m) ==> ended(m),
{
}

} // verus!
