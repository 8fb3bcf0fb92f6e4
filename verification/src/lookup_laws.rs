//! What is found under a name or an id, and how what is shown is labelled.
use vstd::prelude::*;

use crate::app::{KanbanColumn, Phase, StageEvent};
use crate::cli::ignored_warning;
use crate::config::{prd_stage, Stage};
use crate::dashboard::{
    active_runs, column_card_class, column_class, column_head_class, column_label,
    column_status_class, columns, phase_class, phase_dot_class, plural, run_line, run_link,
    running_label, switcher_line,
};
use crate::dto::RunSummary;
use crate::new_run::{datalist_id, NewRunForm, RepoBranchState};
use crate::orchestrator;
use crate::orchestrator::repo_by_id;
use crate::paths::{join_path, not_after, sort_paths};
use crate::pipeline::plan_ready;
use crate::plan;
use crate::plan::Plan;
use crate::registry;
use crate::registry::{check_repos, resolve_repos, RefProbe};
use crate::registry_laws;
use crate::run::StartError;
use crate::run_view::{
    card_class, line_class, log_kind, log_line_of, split_tag, status_class, tag_class, LogKind,
    LogLine, RequestButton,
};
use crate::strmap::StrMap;
use crate::text;
use crate::text::{decimal, trim};
use crate::tui::{
    checklist_line, nothing_found, picker_line, question_title, refining_note, scanning_note,
};
use crate::workspace::Workspace;
use crate::worktree::{integration_worktree, worktrees_root};

verus! {

/// What was put under a key is found there, and what stood under the others
/// still is.
pub proof fn law_a_map_finds_what_was_put_in<V>(
    m: &mut StrMap<V>,
    before: &StrMap<V>,
    after: &StrMap<V>,
    key: String,
    value: V,
    asked: &str,
    was: Option<&V>,
    r: Option<&V>,
)
    requires
        *before == *old(m),
        *after == *final(m),
        before.wf(),
        call_ensures(StrMap::<V>::insert, (m, key, value), ()),
        call_ensures(StrMap::<V>::get, (before, asked), was),
        call_ensures(StrMap::<V>::get, (after, asked), r),
    ensures
        asked@ == key@ ==> r is Some && *r->0 == value,
        asked@ != key@ ==> (r is Some <==> was is Some),
        asked@ != key@ && r is Some ==> *r->0 == *was->0,
{
}

proof fn lemma_last_with_id(epics: Seq<plan::EpicModel>, id: Seq<char>, at: int)
    requires
        0 <= at < epics.len(),
        epics[at].id == id,
        forall|k: int| at < k < epics.len() ==> (#[trigger] epics[k]).id != id,
    ensures
        plan::last_with_id(epics, id) == at,
    decreases epics.len(),
{
    if at < epics.len() - 1 {
        assert(epics[epics.len() - 1].id != id);
        let init = epics.drop_last();
        assert(init[at] == epics[at]);
        assert forall|k: int| at < k < init.len() implies (#[trigger] init[k]).id != id by {
            assert(init[k] == epics[k]);
        }
        lemma_last_with_id(init, id, at);
    }
}

/// An id leads to the last epic that has it, and to that epic's repository; and
/// the first epic that has it is found too.
pub proof fn law_ids_lead_to_their_epics(
    plan: &Plan,
    id: &str,
    at: int,
    from: int,
    last: usize,
    first: Option<usize>,
    repos: StrMap<String>,
    repo: Option<&String>,
)
    requires
        0 <= from <= at < plan.epics@.len(),
        plan.epics@[at].id@ == id@,
        forall|k: int| at < k < plan.epics@.len() ==> (#[trigger] plan.epics@[k]).id@ != id@,
        plan.epics@[from].id@ == id@,
        forall|k: int| 0 <= k < from ==> (#[trigger] plan.epics@[k]).id@ != id@,
        call_ensures(Plan::last_index, (plan, id), last),
        call_ensures(Plan::first_index, (plan, id), first),
        call_ensures(repo_by_id, (plan,), repos),
        call_ensures(StrMap::<String>::get, (&repos, id), repo),
    ensures
        last == at,
        first is Some && first->0 == from,
        repo is Some && repo->0@ == plan.epics@[at].repo@,
{
    let v = plan@;
    assert(v.len() == plan.epics@.len());
    assert(v[at] == plan.epics@[at]@);
    assert(v[from] == plan.epics@[from]@);
    assert forall|k: int| at < k < v.len() implies (#[trigger] v[k]).id != id@ by {
        assert(v[k] == plan.epics@[k]@);
        assert(plan.epics@[k].id@ != id@);
    }
    lemma_last_with_id(v, id@, at);
    let ids = plan::ids(v);
    assert(ids[at] == id@ && ids[from] == id@);
    assert(ids.contains(id@));
    match first {
        Some(i) => {
            assert(v[i as int] == plan.epics@[i as int]@);
            if from < i {
                assert(ids.take(i as int)[from] == id@);
            }
            if i < from {
                assert(plan.epics@[i as int].id@ != id@);
            }
        },
        None => {},
    }
    assert(orchestrator::repos_of(v).contains_key(id@));
    assert(orchestrator::text_map(repos@).contains_key(id@));
    assert(orchestrator::text_map(repos@)[id@] == repos@[id@]@);
}

/// An id that no epic has leads nowhere.
pub proof fn law_unknown_ids_lead_nowhere(
    plan: &Plan,
    id: &str,
    first: Option<usize>,
    repos: StrMap<String>,
    repo: Option<&String>,
)
    requires
        forall|k: int| 0 <= k < plan.epics@.len() ==> (#[trigger] plan.epics@[k]).id@ != id@,
        call_ensures(Plan::first_index, (plan, id), first),
        call_ensures(repo_by_id, (plan,), repos),
        call_ensures(StrMap::<String>::get, (&repos, id), repo),
    ensures
        first is None,
        repo is None,
{
    let v = plan@;
    let ids = plan::ids(v);
    assert forall|k: int| 0 <= k < ids.len() implies ids[k] != id@ by {
        assert(v[k] == plan.epics@[k]@);
        assert(plan.epics@[k].id@ != id@);
    }
    match first {
        Some(i) => {
            assert(ids[i as int] == v[i as int].id);
        },
        None => {},
    }
    assert(!orchestrator::repos_of(v).contains_key(id@));
    assert(orchestrator::text_map(repos@).contains_key(id@) == repos@.contains_key(id@));
}

/// A ready plan is told with every epic, in its order, by its own values.
pub proof fn law_a_ready_plan_tells_every_epic(plan: &Plan, r: StageEvent, i: int)
    requires
        call_ensures(plan_ready, (plan,), r),
    ensures
        r is PlanReady && r->PlanReady_epics@.len() == plan.epics@.len(),
        0 <= i < plan.epics@.len() ==> {
            let meta = r->PlanReady_epics@[i];
            let epic = plan.epics@[i];
            &&& meta.id@ == epic.id@ && meta.title@ == epic.title@
            &&& text::views(meta.depends_on@) == text::views(epic.depends_on@)
        },
{
    assert(plan@.len() == plan.epics@.len());
    if 0 <= i < plan.epics@.len() {
        assert(plan@[i] == plan.epics@[i]@);
        assert(plan::ids(plan@)[i] == plan@[i].id);
    }
}

proof fn lemma_last_named(repos: Seq<crate::workspace::Repo>, n: int)
    requires
        0 <= n < repos.len(),
        forall|k: int| n < k < repos.len() ==> (#[trigger] repos[k]).name@ != repos[n].name@,
    ensures
        registry::last_named(repos, repos[n].name@) == n,
    decreases repos.len(),
{
    if n < repos.len() - 1 {
        assert(repos[repos.len() - 1].name@ != repos[n].name@);
        let init = repos.drop_last();
        assert(init[n] == repos[n]);
        assert forall|k: int| n < k < init.len() implies (#[trigger] init[k]).name@
            != init[n].name@ by {
            assert(init[k] == repos[k]);
        }
        lemma_last_named(init, n);
    }
}

/// A name leads to the last repository that has it, with its own path, with its
/// base or else `HEAD`, and with its branch or else the default one, whether or
/// not the repositories were looked at.
pub proof fn law_names_lead_to_their_repositories(
    workspace: &Workspace,
    probes: &Vec<RefProbe>,
    a: StrMap<crate::orchestrator::RepoRun>,
    b: Result<StrMap<crate::orchestrator::RepoRun>, StartError>,
    n: int,
)
    requires
        probes@.len() == workspace.repos@.len(),
        call_ensures(resolve_repos, (workspace,), a),
        call_ensures(check_repos, (workspace, probes), b),
        0 <= n < workspace.repos@.len(),
        forall|k: int|
            n < k < workspace.repos@.len() ==> (#[trigger] workspace.repos@[k]).name@
                != workspace.repos@[n].name@,
    ensures
        ({
            let repo = workspace.repos@[n];
            &&& a@.contains_key(repo.name@)
            &&& a@[repo.name@].path@ == repo.path@
            &&& repo.base is Some ==> a@[repo.name@].base_ref@ == repo.base->0@
            &&& repo.base is None ==> a@[repo.name@].base_ref@ == "HEAD"@
            &&& a@[repo.name@].integration_branch@ == registry_laws::merges_into(repo)
            &&& b matches Ok(m) ==> m@.contains_key(repo.name@) && m@[repo.name@].path@
                == a@[repo.name@].path@ && m@[repo.name@].base_ref@ == a@[repo.name@].base_ref@
                && m@[repo.name@].integration_branch@ == a@[repo.name@].integration_branch@
        }),
{
    lemma_last_named(workspace.repos@, n);
}

/// The repositories pass where each of them can take part; else the message
/// names the first that cannot.
pub proof fn law_the_first_unfit_repository_is_named(
    workspace: &Workspace,
    probes: &Vec<RefProbe>,
    r: Result<StrMap<crate::orchestrator::RepoRun>, StartError>,
    n: int,
)
    requires
        probes@.len() == workspace.repos@.len(),
        call_ensures(check_repos, (workspace, probes), r),
        0 <= n <= workspace.repos@.len(),
        forall|i: int|
            0 <= i < n ==> !registry_laws::unfit(#[trigger] workspace.repos@[i], probes@[i]),
        n < workspace.repos@.len() ==> registry_laws::unfit(workspace.repos@[n], probes@[n]),
    ensures
        r is Ok <==> n == workspace.repos@.len(),
        r is Err ==> r->Err_0 is Invalid,
        n < workspace.repos@.len() && probes@[n].base is Err ==> r->Err_0->Invalid_0@ == "repo '"@
            + workspace.repos@[n].name@ + "': "@ + probes@[n].base->Err_0@,
        n < workspace.repos@.len() && probes@[n].base is Ok && text::trimmed(
            registry_laws::merges_into(workspace.repos@[n]),
        ).len() == 0 ==> r->Err_0->Invalid_0@ == "repo '"@ + workspace.repos@[n].name@
            + "': the integration branch requires a name"@,
{
    assert forall|i: int| 0 <= i < workspace.repos@.len() implies (registry_laws::unfit(
        #[trigger] workspace.repos@[i],
        probes@[i],
    ) <==> registry::refusal_of(workspace.repos@[i], probes@[i]) is Some) by {}
    match r {
        Ok(_) => {
            if n < workspace.repos@.len() {
                assert(registry::refusal_of(workspace.repos@[n], probes@[n]) is None);
            }
        },
        Err(StartError::Invalid(msg)) => {
            let i = choose|i: int| #[trigger]
                registry::first_refused(workspace.repos@, probes@, i) && msg@
                    == registry::refusal_of(workspace.repos@[i], probes@[i])->0;
            assert(registry_laws::unfit(workspace.repos@[i], probes@[i]));
            if n < i {
                assert(registry::refusal_of(workspace.repos@[n], probes@[n]) is None);
            }
            assert(i == n);
        },
        Err(StartError::WorkspaceBusy) => {},
    }
}

/// The worktrees stand in a folder of the repository, and merges happen in one
/// of their own below it.
pub proof fn law_worktrees_stand_in_the_repository(
    repo: &str,
    root: String,
    merges: String,
    a: String,
    root_path: &str,
    b: String,
    first: &str,
    second: &str,
)
    requires
        call_ensures(worktrees_root, (repo,), root),
        call_ensures(integration_worktree, (repo,), merges),
        first@ == ".agentic-worktrees"@,
        second@ == ".integration"@,
        call_ensures(join_path, (repo, first), a),
        root_path@ == root@,
        call_ensures(join_path, (root_path, second), b),
    ensures
        root@ == a@,
        merges@ == b@,
{
}

/// Sorted paths are the same paths, none of them after the next.
pub proof fn law_sorted_paths_are_in_order(
    paths: &Vec<String>,
    r: Vec<String>,
    i: int,
    j: int,
    a: &str,
    b: &str,
    ordered: bool,
)
    requires
        call_ensures(sort_paths, (paths,), r),
        0 <= i < j < r@.len(),
        a@ == r@[i]@,
        b@ == r@[j]@,
        call_ensures(not_after, (a, b), ordered),
    ensures
        ordered,
        r@.to_multiset() == paths@.to_multiset(),
{
    assert(text::views(r@)[i] == r@[i]@);
    assert(text::views(r@)[j] == r@[j]@);
}

/// A trimmed text is a part of the text, with nothing but white space around it
/// and none at its own ends.
pub proof fn law_only_white_space_is_trimmed(s: &str, r: String)
    requires
        call_ensures(trim, (s,), r),
    ensures
        r@.len() > 0 ==> !text::white_space(r@[0]) && !text::white_space(r@.last()),
        exists|a: int, b: int|
            0 <= a <= b <= s@.len() && r@ == #[trigger] s@.subrange(a, b) && (forall|i: int|
                0 <= i < a || b <= i < s@.len() ==> text::white_space(#[trigger] s@[i])),
{
    text::law_trim(s@);
    text::law_trim_keeps_the_middle(s@);
}

/// The stage that writes a PRD may read, search and write, and ends after
/// fifteen turns.
pub proof fn law_the_prd_stage_may_write(r: Stage)
    requires
        call_ensures(prd_stage, (), r),
    ensures
        r.model@ == "opus"@,
        r.tools@ == "Read,Glob,Grep,Write,WebSearch,WebFetch,Skill"@,
        r.max_turns == 15,
{
}

/// The columns are shown from what is to be done to what is done, the blocked
/// ones last, each under its own name.
pub proof fn law_columns_are_shown_in_order(r: Vec<KanbanColumn>, column: KanbanColumn, l: &'static str)
    requires
        call_ensures(columns, (), r),
        call_ensures(column_label, (column,), l),
    ensures
        r@.len() == 5,
        r@[0] is Todo && r@[1] is InProgress && r@[2] is Review && r@[3] is Done
            && r@[4] is Blocked,
        column is Todo ==> l@ == "Todo"@,
        column is InProgress ==> l@ == "In progress"@,
        column is Review ==> l@ == "Review"@,
        column is Done ==> l@ == "Done"@,
        column is Blocked ==> l@ == "Blocked"@,
{
}

/// A column has one color in its segment, its heading and its pills, and no
/// other column has it.
pub proof fn law_every_column_has_its_own_color(
    column: KanbanColumn,
    fill: &'static str,
    head: &'static str,
    pill: &'static str,
    other: KanbanColumn,
    other_fill: &'static str,
)
    requires
        call_ensures(column_class, (column,), fill),
        call_ensures(column_head_class, (column,), head),
        call_ensures(column_status_class, (column,), pill),
        call_ensures(column_class, (other,), other_fill),
    ensures
        text::has_prefix(fill@, "bg-"@),
        head@ == "text-"@ + fill@.skip(3),
        text::has_prefix(pill@, head@ + " "@ + fill@),
        fill@ == other_fill@ ==> column == other,
{
    reveal_strlit("bg-");
    reveal_strlit("text-");
    reveal_strlit(" ");
    reveal_strlit("bg-todo");
    reveal_strlit("bg-prog");
    reveal_strlit("bg-review");
    reveal_strlit("bg-done");
    reveal_strlit("bg-block");
    reveal_strlit("text-todo");
    reveal_strlit("text-prog");
    reveal_strlit("text-review");
    reveal_strlit("text-done");
    reveal_strlit("text-block");
    reveal_strlit("text-todo bg-todo/10 border-todo/30");
    reveal_strlit("text-prog bg-prog/12 border-prog/40");
    reveal_strlit("text-review bg-review/12 border-review/30");
    reveal_strlit("text-done bg-done/12 border-done/30");
    reveal_strlit("text-block bg-block/10 border-block/30");
    assert(fill@.subrange(0, 3) =~= "bg-"@);
    assert(head@ =~= "text-"@ + fill@.skip(3));
    let start = head@ + " "@ + fill@;
    assert(pill@.subrange(0, start.len() as int) =~= start);
    assert(fill@ == other_fill@ ==> fill@.len() == other_fill@.len() && fill@[3] == other_fill@[3]
        && fill@[4] == other_fill@[4]);
}

/// On the dashboard a card has the border of its column, and only a running one
/// has a ring.
pub proof fn law_board_cards_have_the_border_of_their_column(column: KanbanColumn, r: &'static str)
    requires
        call_ensures(column_card_class, (column,), r),
    ensures
        column is Todo ==> r@ == "border-l-todo/30"@,
        column is InProgress ==> r@ == "border-l-prog ring-1 ring-prog/40"@,
        column is Review ==> r@ == "border-l-review/30"@,
        column is Done ==> r@ == "border-l-done/30"@,
        column is Blocked ==> r@ == "border-l-block/30"@,
{
}

/// A card has the rail of its column, and a ring just where its epic runs; its
/// pill has the colors of the column's pills.
pub proof fn law_only_running_cards_have_a_ring(
    column: KanbanColumn,
    card: String,
    pill: String,
    colors: &'static str,
    rail: Seq<char>,
)
    requires
        call_ensures(card_class, (column,), card),
        call_ensures(status_class, (column,), pill),
        call_ensures(column_status_class, (column,), colors),
        column is Todo ==> rail == "border-l-todo/30"@,
        column is InProgress ==> rail == "border-l-prog"@,
        column is Review ==> rail == "border-l-review"@,
        column is Done ==> rail == "border-l-done"@,
        column is Blocked ==> rail == "border-l-block"@,
    ensures
        ({
            let plain = "flex flex-col gap-2 rounded-md border border-line border-l-[3px] "@ + rail
                + " bg-inset py-3 pr-3 pl-4 shadow-card transition hover:-translate-y-px hover:bg-raised "@;
            &&& column is InProgress ==> card@ == plain + "ring-1 ring-prog/40"@
            &&& !(column is InProgress) ==> card@ == plain
        }),
        pill@
            == "inline-flex items-center gap-1.5 shrink-0 ml-auto rounded-full border px-2 py-[3px] text-[12px] font-semibold whitespace-nowrap "@
            + colors@,
{
    reveal_strlit("");
    if !(column is InProgress) {
        let plain = "flex flex-col gap-2 rounded-md border border-line border-l-[3px] "@ + rail
            + " bg-inset py-3 pr-3 pl-4 shadow-card transition hover:-translate-y-px hover:bg-raised "@;
        assert(plain + ""@ =~= plain);
    }
}

/// A new button waits for nothing and has nothing to complain about.
pub proof fn law_a_new_button_is_idle(r: RequestButton)
    requires
        call_ensures(RequestButton::new, (), r),
    ensures
        !r.busy,
        r.error is None,
{
}

/// The dot of a run pulses just while the run is in flight.
pub proof fn law_dots_pulse_while_a_run_is_in_flight(
    phase: Phase,
    dot: &'static str,
    pill: &'static str,
)
    requires
        call_ensures(phase_dot_class, (phase,), dot),
        call_ensures(phase_class, (phase,), pill),
    ensures
        phase is Planning ==> dot@ == "bg-review animate-pulse-dot"@ && pill@
            == "text-review bg-review/12 border-review/30"@,
        phase is Implementing ==> dot@ == "bg-prog animate-pulse-dot"@ && pill@
            == "text-prog bg-prog/12 border-prog/40"@,
        phase is Done ==> dot@ == "bg-done"@ && pill@ == "text-done bg-done/12 border-done/30"@,
        phase is Failed ==> dot@ == "bg-block"@ && pill@
            == "text-block bg-block/10 border-block/30"@,
{
}

/// The lines about runs count the runs in flight, the epics and the
/// repositories, and link to the run.
pub proof fn law_lines_count_what_a_run_has(
    runs: &Vec<RunSummary>,
    active: Vec<RunSummary>,
    running: String,
    count: u64,
    n: String,
    run: &RunSummary,
    switcher: String,
    line: String,
    epics: String,
    repos: String,
    repo_count: String,
    e: usize,
    q: usize,
    epic: &str,
    repo: &str,
    id: &str,
    link: String,
)
    requires
        call_ensures(active_runs, (runs,), active),
        call_ensures(running_label, (runs,), running),
        count == active@.len(),
        call_ensures(decimal, (count,), n),
        call_ensures(switcher_line, (run,), switcher),
        call_ensures(run_line, (run,), line),
        epic@ == "epic"@,
        repo@ == "repo"@,
        e == run.epics@.len(),
        q == run.repos@.len(),
        call_ensures(plural, (e, epic), epics),
        call_ensures(plural, (q, repo), repos),
        call_ensures(decimal, (q as u64,), repo_count),
        call_ensures(run_link, (id,), link),
    ensures
        running@ == n@ + " running"@,
        switcher@ == run.workspace@ + " · "@ + repo_count@ + " repos"@,
        line@ == epics@ + " · "@ + repos@,
        link@ == "/run/"@ + id@,
{
    assert(text::views(active@).len() == active@.len());
}

/// The base is chosen among the listed branches, the one that is set being
/// selected, where there are any; else the row says why it is free text.
pub proof fn law_the_base_is_chosen_among_the_branches(
    row: &RepoBranchState,
    r: Option<Vec<(String, bool)>>,
    hint: Option<&'static str>,
    i: int,
    index: usize,
    id: String,
    n: String,
)
    requires
        call_ensures(RepoBranchState::base_choices, (row,), r),
        call_ensures(RepoBranchState::status_hint, (row,), hint),
        call_ensures(datalist_id, (index,), id),
        call_ensures(decimal, (index as u64,), n),
    ensures
        r is Some <==> row.status is Loaded && row.branches@.len() > 0,
        r matches Some(v) ==> v@.len() == row.branches@.len() && (0 <= i < v@.len() ==> v@[i].0@
            == row.branches@[i]@ && (v@[i].1 <==> row.branches@[i]@ == row.base@)),
        hint is None <==> row.status is Loaded,
        row.status is Loading ==> hint->0@ == "Loading branches..."@,
        row.status is Failed ==> hint->0@ == "Could not list branches; enter refs by hand."@,
        id@ == "branches-"@ + n@,
{
    assert(text::views(row.branches@).len() == row.branches@.len());
    if 0 <= i < row.branches@.len() {
        assert(text::views(row.branches@)[i] == row.branches@[i]@);
    }
}

/// A form names the one repository of its workspace or counts them, and its
/// button tells whether the goal is refined first.
pub proof fn law_forms_tell_what_they_will_do(
    form: &NewRunForm,
    r: Option<String>,
    label: &'static str,
    count: u64,
    n: String,
)
    requires
        call_ensures(NewRunForm::repo_summary, (form,), r),
        call_ensures(NewRunForm::submit_label, (form,), label),
        call_ensures(decimal, (count,), n),
    ensures
        r is None <==> form@.workspace is None,
        form@.workspace matches Some(ws) ==> ws.repos.len() == 1 ==> r->0@ == ws.repos[0].path@,
        form@.workspace matches Some(ws) ==> ws.repos.len() != 1 && ws.repos.len() == count
            ==> r->0@ == n@ + " repos"@,
        form@.refine ==> label@ == "Refine & plan"@,
        !form@.refine ==> label@ == "Start run"@,
{
}

/// Lines of a list mark the selected one, show the box of each, its name and its
/// path; a question tells its number and how many there are.
pub proof fn law_list_lines_show_name_and_path(
    name: &str,
    path: &str,
    selected: bool,
    checked: bool,
    a: String,
    b: String,
    index: usize,
    total: usize,
    x: String,
    y: String,
    title: String,
    arg: &str,
    warning: String,
)
    requires
        call_ensures(picker_line, (name, path, selected), a),
        call_ensures(checklist_line, (name, path, selected, checked), b),
        call_ensures(question_title, (index, total), title),
        call_ensures(decimal, (index as u64,), x),
        call_ensures(decimal, (total as u64,), y),
        call_ensures(ignored_warning, (arg,), warning),
    ensures
        selected ==> a@ == "> "@ + name@ + "  "@ + path@,
        !selected ==> a@ == "  "@ + name@ + "  "@ + path@,
        selected && checked ==> b@ == ">"@ + " "@ + "[x]"@ + " "@ + name@ + "  "@ + path@,
        selected && !checked ==> b@ == ">"@ + " "@ + "[ ]"@ + " "@ + name@ + "  "@ + path@,
        !selected && checked ==> b@ == " "@ + " "@ + "[x]"@ + " "@ + name@ + "  "@ + path@,
        !selected && !checked ==> b@ == " "@ + " "@ + "[ ]"@ + " "@ + name@ + "  "@ + path@,
        title@ == " Question "@ + x@ + " of "@ + y@ + " "@,
        warning@ == "warning: ignoring unrecognized argument '"@ + arg@ + "'"@,
{
}

/// The notes of the wizard name the folder that is scanned, and the note of the
/// refine passes what they do.
pub proof fn law_notes_name_what_is_done(root: &str, note: &str, a: String, b: String, c: String)
    requires
        call_ensures(nothing_found, (root,), a),
        call_ensures(scanning_note, (root,), b),
        call_ensures(refining_note, (note,), c),
    ensures
        a@ == "No git repositories found under "@ + root@
            + ".\nPress r to scan a different folder, or Esc to quit."@,
        b@ == "Scanning "@ + root@ + " for git repositories..."@,
        c@ == "Refining the goal: "@ + note@ + "..."@,
{
}

/// A line of the log has the kind of its lower-case form, and its tag apart; only
/// a bad one is shown as such.
pub proof fn law_log_lines_keep_tag_and_text(
    line: &str,
    lower: &str,
    r: LogLine,
    kind: LogKind,
    parts: (Option<String>, String),
    shown: &'static str,
    tag: &'static str,
)
    requires
        call_ensures(log_line_of, (line, lower), r),
        call_ensures(log_kind, (lower,), kind),
        call_ensures(split_tag, (line,), parts),
        call_ensures(line_class, (kind,), shown),
        call_ensures(tag_class, (kind,), tag),
    ensures
        r.kind == kind,
        text::opt_view(r.tag) == text::opt_view(parts.0),
        r.body@ == parts.1@,
        shown@ == "text-danger"@ <==> kind is Bad,
        tag@ == "text-danger"@ <==> kind is Bad,
        tag@ == "text-done"@ <==> kind is Good,
{
    reveal_strlit("text-danger");
    reveal_strlit("text-muted");
    reveal_strlit("text-done");
    reveal_strlit("text-review");
    reveal_strlit("text-accent");
    assert("text-danger"@[5] == 'd' && "text-danger"@[6] == 'a');
    assert("text-done"@[5] == 'd' && "text-done"@[6] == 'o');
    assert("text-muted"@[5] == 'm');
    assert("text-review"@[5] == 'r');
    assert("text-accent"@[5] == 'a');
}

} // verus!
