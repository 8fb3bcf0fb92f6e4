//! What the registry does with a run: when one is accepted, refused, claimed
//! again, ended or restored, and that it touches no other run.
use vstd::prelude::*;

use crate::app;
use crate::app::{App, EpicStatus, Phase, StageEvent, Usd};
use crate::dto::{RunSummary, StartRunRequest};
use crate::registry;
use crate::registry::{
    AbortTicket, EntryModel, RefProbe, Registry, ResumeTicket, RetryTicket, RunEntry,
};
use crate::run;
use crate::run::{PersistCtx, ResumeError, RetryError, StartError};
use crate::run_laws;
use crate::run_store;
use crate::run_store::PersistedRun;
use crate::text;
use crate::workspace::{Repo, Workspace};

verus! {

/// The branch the repository's work merges into.
pub open spec fn merges_into(repo: Repo) -> Seq<char> {
    if repo.integration is Some {
        repo.integration->0@
    } else {
        "agentic-integration"@
    }
}

/// The repository cannot take part in a run: its base ref does not resolve, its
/// integration branch has no name, its current branch cannot be read, or that is
/// the integration branch.
pub open spec fn unfit(repo: Repo, probe: RefProbe) -> bool {
    ||| probe.base is Err
    ||| text::trimmed(merges_into(repo)).len() == 0
    ||| probe.current is Err
    ||| probe.current->Ok_0 is Some && probe.current->Ok_0->0@ == merges_into(repo)
}

/// A run is accepted where its workspace has a repository, every repository can
/// take part, and no run of the workspace is in flight. It is refused as busy
/// only for the last of these reasons, and a refusal changes nothing.
pub proof fn law_starts_are_accepted_unless_unfit_or_busy(
    reg: &mut Registry,
    req: &StartRunRequest,
    workspace: &Workspace,
    probes: &Vec<RefProbe>,
    budget: Usd,
    r: Result<String, StartError>,
)
    requires
        old(reg).wf(),
        probes@.len() == workspace.repos@.len(),
        call_ensures(Registry::start, (reg, req, workspace, probes, budget), r),
    ensures
        ({
            let fit = workspace.repos@.len() > 0 && forall|i: int|
                0 <= i < workspace.repos@.len() ==> !unfit(
                    #[trigger] workspace.repos@[i],
                    probes@[i],
                );
            let taken = exists|i: int|
                0 <= i < old(reg)@.runs.len() && (#[trigger] old(reg)@.runs[i]).workspace
                    == workspace.name@ && !old(reg)@.runs[i].completed;
            &&& r is Ok <==> fit && !taken
            &&& r == Err::<String, StartError>(StartError::WorkspaceBusy) <==> fit && taken
            &&& r is Err ==> final(reg)@ == old(reg)@
        }),
{
    assert forall|i: int| 0 <= i < workspace.repos@.len() implies (unfit(
        #[trigger] workspace.repos@[i],
        probes@[i],
    ) <==> registry::refusal_of(workspace.repos@[i], probes@[i]) is Some) by {}
    match r {
        Err(StartError::Invalid(_)) => {
            if workspace.repos@.len() > 0 {
                let i = choose|i: int| registry::first_refused(workspace.repos@, probes@, i);
                assert(unfit(workspace.repos@[i], probes@[i]));
            }
        },
        _ => {},
    }
}

/// The message of a refused run names the first repository that cannot take
/// part, or says that there is none.
pub proof fn law_refusals_name_the_first_unfit_repository(
    reg: &mut Registry,
    req: &StartRunRequest,
    workspace: &Workspace,
    probes: &Vec<RefProbe>,
    budget: Usd,
    msg: String,
)
    requires
        old(reg).wf(),
        probes@.len() == workspace.repos@.len(),
        call_ensures(
            Registry::start,
            (reg, req, workspace, probes, budget),
            Err(StartError::Invalid(msg)),
        ),
    ensures
        workspace.repos@.len() == 0 ==> msg@ == "a run needs at least one repository"@,
        workspace.repos@.len() > 0 ==> exists|i: int, why: Seq<char>|
            {
                &&& 0 <= i < workspace.repos@.len()
                &&& unfit(#[trigger] workspace.repos@[i], probes@[i])
                &&& forall|j: int| 0 <= j < i ==> !unfit(#[trigger] workspace.repos@[j], probes@[j])
                &&& msg@ == "repo '"@ + workspace.repos@[i].name@ + #[trigger] ("': "@ + why)
            },
{
    if workspace.repos@.len() > 0 {
        let i = choose|i: int|
            registry::first_refused(workspace.repos@, probes@, i) && msg@ == registry::refusal_of(
                workspace.repos@[i],
                probes@[i],
            )->0;
        let repo = workspace.repos@[i];
        assert(unfit(repo, probes@[i]));
        assert forall|j: int| 0 <= j < i implies !unfit(#[trigger] workspace.repos@[j], probes@[j]) by {
            assert(registry::refusal_of(workspace.repos@[j], probes@[j]) is None);
        }
        reveal_strlit("': ");
        reveal_strlit("': the integration branch requires a name");
        reveal_strlit("': cannot merge into '");
        let why = msg@.skip(("repo '"@ + repo.name@ + "': "@).len() as int);
        assert(msg@ =~= "repo '"@ + repo.name@ + ("': "@ + why));
    }
}

/// An accepted run gets the next id, and is the run that was asked for: of its
/// workspace, with its goal, its verification command or `make verify`, its
/// language and its budget, being planned, with nothing done and nothing spent,
/// in flight. No other run changes.
pub proof fn law_accepted_runs_are_the_ones_asked_for(
    reg: &mut Registry,
    req: &StartRunRequest,
    workspace: &Workspace,
    probes: &Vec<RefProbe>,
    budget: Usd,
    id: String,
)
    requires
        old(reg).wf(),
        probes@.len() == workspace.repos@.len(),
        call_ensures(Registry::start, (reg, req, workspace, probes, budget), Ok(id)),
        registry::ids_below(old(reg)@),
        old(reg)@.next_id < u64::MAX,
    ensures
        id@ == text::decimal_of(old(reg)@.next_id as nat),
        final(reg)@.next_id == old(reg)@.next_id + 1,
        final(reg)@.runs.len() == old(reg)@.runs.len() + 1,
        forall|k: int|
            0 <= k < old(reg)@.runs.len() ==> #[trigger] final(reg)@.runs[k] == old(reg)@.runs[k],
        ({
            let e = final(reg)@.runs.last();
            &&& e.id == id@
            &&& e.workspace == workspace.name@ && e.app.workspace == workspace.name@
            &&& e.goal == req.goal@ && e.app.goal == req.goal@
            &&& req.verify is Some ==> e.default_verify == req.verify->0@
            &&& req.verify is None ==> e.default_verify == "make verify"@
            &&& e.language == req.language
            &&& e.app.budget == budget
            &&& e.app.phase == Phase::Planning
            &&& e.app.epics.len() == 0 && e.app.log.len() == 0 && e.app.error is None
            &&& e.app.total_cost.bits == 0
            &&& !e.completed
            &&& e.repo_paths.len() == workspace.repos@.len()
            &&& e.repo_names.len() == workspace.repos@.len()
            &&& forall|i: int|
                0 <= i < workspace.repos@.len() ==> (#[trigger] e.repo_paths[i])
                    == workspace.repos@[i].path && e.repo_names[i] == workspace.repos@[i].name
        }),
{
    let e = choose|e: EntryModel|
        registry::accepted(e, id@, *req, *workspace, budget) && final(reg)@.runs == registry::put(
            reg@.runs,
            e,
        );
    registry::law_new_ids_are_free(reg@, e);
    assert(final(reg)@.runs == reg@.runs.push(e));
}

/// A run works on the repositories of its workspace: each with its path, its
/// base ref or `HEAD`, and its integration branch or `agentic-integration`.
pub proof fn law_accepted_runs_have_their_repositories(
    reg: &mut Registry,
    req: &StartRunRequest,
    workspace: &Workspace,
    probes: &Vec<RefProbe>,
    budget: Usd,
    id: String,
    i: int,
)
    requires
        old(reg).wf(),
        probes@.len() == workspace.repos@.len(),
        call_ensures(Registry::start, (reg, req, workspace, probes, budget), Ok(id)),
        registry::ids_below(old(reg)@),
        old(reg)@.next_id < u64::MAX,
        0 <= i < workspace.repos@.len(),
        forall|j: int|
            i < j < workspace.repos@.len() ==> (#[trigger] workspace.repos@[j]).name@
                != workspace.repos@[i].name@,
    ensures
        ({
            let repo = workspace.repos@[i];
            let repos = final(reg)@.runs.last().repos;
            &&& repos.contains_key(repo.name@)
            &&& repos[repo.name@].path@ == repo.path@
            &&& repo.base is Some ==> repos[repo.name@].base_ref@ == repo.base->0@
            &&& repo.base is None ==> repos[repo.name@].base_ref@ == "HEAD"@
            &&& repos[repo.name@].integration_branch@ == merges_into(repo)
        }),
{
    let e = choose|e: EntryModel|
        registry::accepted(e, id@, *req, *workspace, budget) && final(reg)@.runs == registry::put(
            reg@.runs,
            e,
        );
    registry::law_new_ids_are_free(reg@, e);
    assert(final(reg)@.runs == reg@.runs.push(e));
    lemma_last_named(workspace.repos@, i);
    assert(e.repos.contains_key(workspace.repos@[i].name@));
}

proof fn lemma_last_named(repos: Seq<Repo>, i: int)
    requires
        0 <= i < repos.len(),
        forall|j: int| i < j < repos.len() ==> (#[trigger] repos[j]).name@ != repos[i].name@,
    ensures
        registry::last_named(repos, repos[i].name@) == i,
    decreases repos.len(),
{
    if i < repos.len() - 1 {
        assert(repos[repos.len() - 1].name@ != repos[i].name@);
        lemma_last_named(repos.drop_last(), i);
    }
}

/// The runs are as they were, but for run `i`, which is in flight or not and in
/// every other way what it was.
pub open spec fn only_completion_changes(
    before: Seq<EntryModel>,
    after: Seq<EntryModel>,
    i: int,
    completed: bool,
) -> bool {
    &&& 0 <= i < before.len()
    &&& after.len() == before.len()
    &&& after[i] == (EntryModel { completed, ..before[i] })
    &&& forall|k: int| 0 <= k < before.len() && k != i ==> #[trigger] after[k] == before[k]
}

/// What the ticket of a run holds is the run's own.
pub open spec fn is_of(ctx: PersistCtx, e: EntryModel) -> bool {
    &&& ctx.id@ == e.id && ctx.workspace@ == e.workspace && ctx.goal@ == e.goal
    &&& ctx.default_verify@ == e.default_verify && ctx.language == e.language
    &&& ctx.plan_cwd@ == e.plan_cwd
    &&& keeps_repositories(ctx.repos@, e)
}

/// The repositories are the run's own that are known by name, in the order of the
/// names, each with its path, its base and its branch.
pub open spec fn keeps_repositories(kept: Seq<run_store::PersistedRepo>, e: EntryModel) -> bool {
    let known = e.repo_names.filter(|n: String| e.repos.contains_key(n@));
    &&& kept.len() == known.len()
    &&& forall|k: int|
        0 <= k < kept.len() ==> (#[trigger] kept[k]).name == known[k] && kept[k].path
            == e.repos[known[k]@].path && kept[k].base_ref == e.repos[known[k]@].base_ref
            && kept[k].integration_branch == e.repos[known[k]@].integration_branch
}

proof fn lemma_keeps_repositories(e: EntryModel)
    ensures
        keeps_repositories(run::known_repos(e.repo_names, e.repos), e),
{
    let a = |n: String| e.repos.contains_key(n@);
    let repos = e.repos;
    let b = |n: String| repos.contains_key(n@);
    assert(a =~= b);
    run_laws::lemma_known_repos(e.repo_names, repos);
}

/// An epic is retried where its run is known and has ended and the epic's card
/// shows it as failed or in conflict, and nowhere else. The run is then in flight
/// again. Each refusal has its reason and changes nothing.
pub proof fn law_only_blocked_epics_of_ended_runs_are_retried(
    reg: &mut Registry,
    run_id: &str,
    epic_id: &str,
    r: Result<RetryTicket, RetryError>,
    i: int,
    c: int,
)
    requires
        old(reg).wf(),
        call_ensures(Registry::retry, (reg, run_id, epic_id), r),
    ensures
        (forall|k: int| 0 <= k < old(reg)@.runs.len() ==> (#[trigger] old(reg)@.runs[k]).id
            != run_id@) ==> r == Err::<RetryTicket, RetryError>(RetryError::NotFound),
        r is Err ==> final(reg)@ == old(reg)@,
        0 <= i < old(reg)@.runs.len() && old(reg)@.runs[i].id == run_id@ ==> {
            let e = old(reg)@.runs[i];
            let here = 0 <= c < e.app.epics.len() && e.app.epics[c].id == epic_id@ && forall|k: int|
                0 <= k < c ==> (#[trigger] e.app.epics[k]).id != epic_id@;
            let stuck = e.app.epics[c].status == EpicStatus::Failed || e.app.epics[c].status
                == EpicStatus::Conflict;
            &&& !e.completed ==> r == Err::<RetryTicket, RetryError>(RetryError::RunActive)
            &&& e.completed && here && !stuck ==> r == Err::<RetryTicket, RetryError>(
                RetryError::NotBlocked,
            )
            &&& e.completed && (forall|k: int|
                0 <= k < e.app.epics.len() ==> (#[trigger] e.app.epics[k]).id != epic_id@) ==> r
                == Err::<RetryTicket, RetryError>(RetryError::NotBlocked)
            &&& e.completed && here && stuck ==> r is Ok
            &&& r matches Ok(ticket) ==> {
                &&& only_completion_changes(old(reg)@.runs, final(reg)@.runs, i, false)
                &&& is_of(ticket.ctx, e) && ticket.ctx.plan_json is None
                &&& ticket.initial_cost == e.app.total_cost
            }
        },
{
    let runs = reg@.runs;
    reg.law_runs_have_their_own_ids();
    if 0 <= i < runs.len() && runs[i].id == run_id@ {
        assert(registry::run_at(runs, run_id@, i));
        lemma_keeps_repositories(runs[i]);
        assert forall|k: int| #[trigger] registry::run_at(runs, run_id@, k) implies k == i by {
            assert(runs[k].id == runs[i].id);
        }
        let cards = runs[i].app.epics;
        if 0 <= c < cards.len() && cards[c].id == epic_id@ && forall|k: int|
            0 <= k < c ==> (#[trigger] cards[k]).id != epic_id@ {
            assert(app::first_card(cards, epic_id@, c));
            assert forall|k: int| #[trigger] app::first_card(cards, epic_id@, k) implies k == c by {
                if k < c {
                    assert(cards[k].id != epic_id@);
                }
            }
        }
    } else {
        if exists|k: int| registry::run_at(runs, run_id@, k) {
            let k = choose|k: int| registry::run_at(runs, run_id@, k);
            assert(runs[k].id == run_id@);
        }
    }
}

/// The ids are those of the merged cards, and of no others.
pub open spec fn are_the_merged(ids: Seq<Seq<char>>, cards: Seq<app::CardModel>) -> bool {
    &&& forall|k: int|
        0 <= k < cards.len() && (#[trigger] cards[k]).status == EpicStatus::Merged ==> ids.contains(
            cards[k].id,
        )
    &&& forall|x: Seq<char>| #[trigger]
        ids.contains(x) ==> exists|k: int|
            0 <= k < cards.len() && (#[trigger] cards[k]).status == EpicStatus::Merged
                && cards[k].id == x
}

/// A run is resumed where its plan is stored and can be read, the run is known,
/// has ended as failed, and has an epic that has not merged. It is then in
/// flight again, pinned to the stored plan, with exactly the merged epics counted
/// as done. Each refusal has its reason and changes nothing.
pub proof fn law_only_failed_unfinished_runs_are_resumed(
    reg: &mut Registry,
    run_id: &str,
    saved: &Option<Result<String, ()>>,
    r: Result<ResumeTicket, ResumeError>,
    i: int,
)
    requires
        old(reg).wf(),
        call_ensures(Registry::resume, (reg, run_id, saved), r),
    ensures
        *saved is None ==> r == Err::<ResumeTicket, ResumeError>(ResumeError::NotFound),
        *saved is Some && (*saved)->0 is Err ==> r == Err::<ResumeTicket, ResumeError>(
            ResumeError::NoPlan,
        ),
        *saved is Some && (*saved)->0 is Ok && (forall|k: int|
            0 <= k < old(reg)@.runs.len() ==> (#[trigger] old(reg)@.runs[k]).id != run_id@) ==> r
            == Err::<ResumeTicket, ResumeError>(ResumeError::NotFound),
        r is Err ==> final(reg)@ == old(reg)@,
        *saved is Some && (*saved)->0 is Ok && 0 <= i < old(reg)@.runs.len() && old(
            reg,
        )@.runs[i].id == run_id@ ==> {
            let e = old(reg)@.runs[i];
            let unfinished = e.app.phase == Phase::Failed && exists|k: int|
                0 <= k < e.app.epics.len() && (#[trigger] e.app.epics[k]).status
                    != EpicStatus::Merged;
            &&& !e.completed ==> r == Err::<ResumeTicket, ResumeError>(ResumeError::RunActive)
            &&& e.completed && !unfinished ==> r == Err::<ResumeTicket, ResumeError>(
                ResumeError::NotResumable,
            )
            &&& e.completed && unfinished ==> r is Ok
            &&& r matches Ok(ticket) ==> {
                &&& only_completion_changes(old(reg)@.runs, final(reg)@.runs, i, false)
                &&& is_of(ticket.ctx, e)
                &&& ticket.ctx.plan_json is Some && ticket.ctx.plan_json->0@
                    == ((*saved)->0)->Ok_0@
                &&& ticket.initial_cost == e.app.total_cost
                &&& are_the_merged(text::views(ticket.merged@), e.app.epics)
            }
        },
{
    let runs = reg@.runs;
    reg.law_runs_have_their_own_ids();
    if 0 <= i < runs.len() && runs[i].id == run_id@ {
        assert(registry::run_at(runs, run_id@, i));
        lemma_keeps_repositories(runs[i]);
        assert forall|k: int| #[trigger] registry::run_at(runs, run_id@, k) implies k == i by {
            assert(runs[k].id == runs[i].id);
        }
        match r {
            Ok(ticket) => {
                lemma_merged_ids(runs[i].app.epics);
                assert(only_completion_changes(runs, final(reg)@.runs, i, false));
            },
            _ => {},
        }
    } else {
        if exists|k: int| registry::run_at(runs, run_id@, k) {
            let k = choose|k: int| registry::run_at(runs, run_id@, k);
            assert(runs[k].id == run_id@);
        }
    }
}

proof fn lemma_merged_ids(cards: Seq<app::CardModel>)
    ensures
        are_the_merged(registry::merged_ids(cards), cards),
    decreases cards.len(),
{
    if cards.len() > 0 {
        let rest = cards.drop_last();
        lemma_merged_ids(rest);
        let ids = registry::merged_ids(cards);
        let head = registry::merged_ids(rest);
        assert forall|k: int| 0 <= k < cards.len() && (#[trigger] cards[k]).status
            == EpicStatus::Merged implies ids.contains(cards[k].id) by {
            if k < rest.len() {
                assert(rest[k] == cards[k]);
                let j = choose|j: int| 0 <= j < head.len() && head[j] == cards[k].id;
                assert(ids[j] == cards[k].id);
            } else {
                assert(ids[ids.len() - 1] == cards[k].id);
            }
        }
        assert forall|x: Seq<char>| #[trigger] ids.contains(x) implies exists|k: int|
            0 <= k < cards.len() && (#[trigger] cards[k]).status == EpicStatus::Merged
                && cards[k].id == x by {
            let j = choose|j: int| 0 <= j < ids.len() && ids[j] == x;
            if j < head.len() {
                assert(head[j] == x);
                assert(head.contains(x));
                let k = choose|k: int|
                    0 <= k < rest.len() && (#[trigger] rest[k]).status == EpicStatus::Merged
                        && rest[k].id == x;
                assert(cards[k] == rest[k]);
            } else {
                assert(cards[cards.len() - 1].id == x);
            }
        }
    }
}

/// Aborting ends the run if it is in flight, with the repositories to clean up
/// and the event that fails it; a run that is not known or has ended is left
/// alone.
pub proof fn law_aborts_end_runs_in_flight(
    reg: &mut Registry,
    id: &str,
    r: Option<AbortTicket>,
    i: int,
)
    requires
        old(reg).wf(),
        call_ensures(Registry::abort, (reg, id), r),
    ensures
        (forall|k: int| 0 <= k < old(reg)@.runs.len() ==> (#[trigger] old(reg)@.runs[k]).id != id@)
            ==> r is None,
        r is None ==> final(reg)@ == old(reg)@,
        0 <= i < old(reg)@.runs.len() && old(reg)@.runs[i].id == id@ ==> {
            let e = old(reg)@.runs[i];
            &&& e.completed ==> r is None
            &&& !e.completed ==> r is Some
            &&& r matches Some(ticket) ==> {
                &&& only_completion_changes(old(reg)@.runs, final(reg)@.runs, i, true)
                &&& is_of(ticket.ctx, e)
                &&& ticket.repo_paths@ == e.repo_paths
                &&& ticket.event matches StageEvent::Fatal { reason } && reason@ == "run aborted"@
            }
        },
{
    let runs = reg@.runs;
    reg.law_runs_have_their_own_ids();
    if 0 <= i < runs.len() && runs[i].id == id@ {
        assert(registry::run_at(runs, id@, i));
        lemma_keeps_repositories(runs[i]);
        assert forall|k: int| #[trigger] registry::run_at(runs, id@, k) implies k == i by {
            assert(runs[k].id == runs[i].id);
        }
    }
    match r {
        Some(ticket) => {
            let k = choose|k: int|
                registry::run_at(runs, id@, k) && !runs[k].completed && registry::is_ctx(
                    ticket.ctx,
                    runs[k],
                ) && ticket.ctx.plan_json is None && registry::tells_abort(ticket.event)
                    && ticket.repo_paths@ == runs[k].repo_paths && final(reg)@.runs
                    == registry::with_completed(runs, k, true);
            assert(runs[k].id == id@);
            assert(only_completion_changes(runs, final(reg)@.runs, k, true));
            if 0 <= i < runs.len() && runs[i].id == id@ {
                assert(k == i);
                assert(!runs[i].completed);
            }
        },
        None => {
            if 0 <= i < runs.len() && runs[i].id == id@ {
                assert(registry::run_at(runs, id@, i));
                assert(runs[i].completed);
            }
        },
    }
}

/// An event changes the state of its run as it changes the state on its own, and
/// ends the run where it is its last event and events may end it. No other run
/// changes, and an event for a run that is not known changes nothing.
pub proof fn law_events_are_recorded_in_their_run(
    reg: &mut Registry,
    id: &str,
    ev: StageEvent,
    ends_the_run: bool,
    r: Option<(App, bool)>,
    i: int,
    shown: &mut App,
)
    requires
        old(reg).wf(),
        call_ensures(Registry::record, (reg, id, ev, ends_the_run), r),
        call_ensures(App::apply_stage, (shown, ev), ()),
        0 <= i < old(reg)@.runs.len() ==> old(shown)@ == old(reg)@.runs[i].app,
    ensures
        (forall|k: int| 0 <= k < old(reg)@.runs.len() ==> (#[trigger] old(reg)@.runs[k]).id != id@)
            ==> r is None && final(reg)@ == old(reg)@,
        0 <= i < old(reg)@.runs.len() && old(reg)@.runs[i].id == id@ ==> {
            let was = old(reg)@.runs[i];
            let is = final(reg)@.runs[i];
            &&& final(reg)@.runs.len() == old(reg)@.runs.len()
            &&& forall|k: int|
                0 <= k < old(reg)@.runs.len() && k != i ==> #[trigger] final(reg)@.runs[k] == old(
                    reg,
                )@.runs[k]
            &&& is.app == final(shown)@
            &&& is.completed <==> was.completed || (ends_the_run && (ev is Done || ev is Fatal))
            &&& is.id == was.id && is.workspace == was.workspace && is.goal == was.goal
            &&& is.repos == was.repos && is.repo_names == was.repo_names && is.repo_paths
                == was.repo_paths
            &&& is.default_verify == was.default_verify && is.language == was.language
                && is.plan_cwd == was.plan_cwd
            &&& r matches Some((snapshot, persist)) && snapshot@ == final(shown)@ && (persist <==> !(
            ev is StageLog || ev is StageAssistant || ev is StageTool))
        },
{
    let runs = reg@.runs;
    reg.law_runs_have_their_own_ids();
    if 0 <= i < runs.len() && runs[i].id == id@ {
        assert(registry::run_at(runs, id@, i));
        assert forall|k: int| #[trigger] registry::run_at(runs, id@, k) implies k == i by {
            assert(runs[k].id == runs[i].id);
        }
    } else if r is Some {
        let k = choose|k: int| registry::run_at(runs, id@, k);
        assert(runs[k].id == id@);
    }
}

/// Closing a run ends it and changes nothing else; a run that is not known
/// changes nothing. The run that is asked for by its id is the one with the id.
pub proof fn law_runs_are_closed_and_found_by_id(
    reg: &mut Registry,
    id: &str,
    i: int,
    r: Option<&RunEntry>,
    found_in: &Registry,
)
    requires
        old(reg).wf(),
        call_ensures(Registry::close, (reg, id), ()),
        *found_in == *old(reg),
        call_ensures(Registry::get, (found_in, id), r),
    ensures
        (forall|k: int| 0 <= k < old(reg)@.runs.len() ==> (#[trigger] old(reg)@.runs[k]).id != id@)
            ==> r is None && final(reg)@ == old(reg)@,
        0 <= i < old(reg)@.runs.len() && old(reg)@.runs[i].id == id@ ==> {
            &&& only_completion_changes(old(reg)@.runs, final(reg)@.runs, i, true)
            &&& r is Some && r->0@ == old(reg)@.runs[i]
        },
{
    let runs = reg@.runs;
    reg.law_runs_have_their_own_ids();
    if 0 <= i < runs.len() && runs[i].id == id@ {
        assert(registry::run_at(runs, id@, i));
        assert(registry::has_run(runs, id@));
        assert forall|k: int| #[trigger] registry::run_at(runs, id@, k) implies k == i by {
            assert(runs[k].id == runs[i].id);
        }
    }
    if registry::has_run(runs, id@) {
        let k = choose|k: int| registry::run_at(runs, id@, k);
        assert(runs[k].id == id@);
    }
}

/// The list shows every run once, by its own values, sorted by id.
pub proof fn law_every_run_is_listed(reg: &Registry, r: Vec<RunSummary>, i: int)
    requires
        reg.wf(),
        call_ensures(Registry::list, (reg,), r),
    ensures
        r@.len() == reg@.runs.len(),
        0 <= i < reg@.runs.len() ==> exists|k: int|
            {
                let e = reg@.runs[i];
                &&& 0 <= k < r@.len()
                &&& (#[trigger] r@[k]).id@ == e.id && r@[k].workspace@ == e.workspace
                &&& r@[k].goal@ == e.app.goal && r@[k].phase == e.app.phase
                &&& r@[k].total_cost == e.app.total_cost
                &&& text::views(r@[k].epics@) == e.app.epics
                &&& text::views(r@[k].repos@) == text::views(e.repo_names)
            },
        forall|a: int, b: int|
            0 <= a < b < r@.len() ==> text::text_le((#[trigger] r@[a]).id@, (#[trigger] r@[b]).id@),
{
    let v = text::views(r@);
    let all = Seq::new(reg@.runs.len(), |i: int| registry::summary_of(reg@.runs[i]));
    assert(v.len() == r@.len());
    v.to_multiset_ensures();
    all.to_multiset_ensures();
    assert(v.to_multiset().len() == v.len());
    assert(all.to_multiset().len() == all.len());
    if 0 <= i < reg@.runs.len() {
        assert(all[i] == registry::summary_of(reg@.runs[i]));
        assert(all.contains(all[i]));
        assert(all.to_multiset().count(all[i]) > 0);
        assert(v.contains(all[i]));
        let k = choose|k: int| 0 <= k < v.len() && v[k] == all[i];
        assert(v[k] == r@[k]@);
    }
    assert forall|a: int, b: int| 0 <= a < b < r@.len() implies text::text_le(
        (#[trigger] r@[a]).id@,
        (#[trigger] r@[b]).id@,
    ) by {
        assert(v[a] == r@[a]@ && v[b] == r@[b]@);
    }
}

proof fn lemma_put_keeps_the_others(runs: Seq<EntryModel>, e: EntryModel)
    ensures
        exists|j: int| 0 <= j < registry::put(runs, e).len() && #[trigger] registry::put(runs, e)[j]
            == e,
        registry::put(runs, e).len() >= runs.len(),
        forall|k: int|
            0 <= k < runs.len() && runs[k].id != e.id ==> #[trigger] registry::put(runs, e)[k]
                == runs[k],
        forall|k: int|
            0 <= k < runs.len() ==> (#[trigger] registry::put(runs, e)[k]).id == runs[k].id,
{
    if registry::has_run(runs, e.id) {
        let at = choose|i: int| registry::run_at(runs, e.id, i);
        assert(registry::put(runs, e)[at] == e);
    } else {
        assert(registry::put(runs, e)[runs.len() as int] == e);
    }
}

proof fn lemma_restored_run(
    runs: Seq<EntryModel>,
    persisted: Seq<run_store::PersistedModel>,
    i: int,
) -> (j: int)
    requires
        0 <= i < persisted.len(),
        forall|k: int| i < k < persisted.len() ==> (#[trigger] persisted[k]).id != persisted[i].id,
    ensures
        0 <= j < registry::restored(runs, persisted).len(),
        registry::restored(runs, persisted)[j] == registry::restored_entry(persisted[i]),
    decreases persisted.len(),
{
    let init = persisted.drop_last();
    let before = registry::restored(runs, init);
    let e = registry::restored_entry(persisted.last());
    lemma_put_keeps_the_others(before, e);
    if i == persisted.len() - 1 {
        choose|j: int| 0 <= j < registry::put(before, e).len() && #[trigger] registry::put(
            before,
            e,
        )[j] == e
    } else {
        assert(init[i] == persisted[i]);
        assert forall|k: int| i < k < init.len() implies (#[trigger] init[k]).id != init[i].id by {
            assert(init[k] == persisted[k]);
        }
        let j = lemma_restored_run(runs, init, i);
        assert(persisted[persisted.len() - 1].id != persisted[i].id);
        assert(registry::put(before, e)[j] == before[j]);
        j
    }
}

proof fn lemma_other_runs_stay(
    runs: Seq<EntryModel>,
    persisted: Seq<run_store::PersistedModel>,
    k: int,
)
    requires
        0 <= k < runs.len(),
        forall|i: int| 0 <= i < persisted.len() ==> (#[trigger] persisted[i]).id != runs[k].id,
    ensures
        registry::restored(runs, persisted).len() >= runs.len(),
        registry::restored(runs, persisted)[k] == runs[k],
    decreases persisted.len(),
{
    if persisted.len() > 0 {
        let init = persisted.drop_last();
        assert forall|i: int| 0 <= i < init.len() implies (#[trigger] init[i]).id != runs[k].id by {
            assert(init[i] == persisted[i]);
        }
        lemma_other_runs_stay(runs, init, k);
        let before = registry::restored(runs, init);
        let e = registry::restored_entry(persisted.last());
        lemma_put_keeps_the_others(before, e);
        assert(persisted[persisted.len() - 1].id != runs[k].id);
        assert(registry::put(before, e)[k] == before[k]);
    }
}

proof fn lemma_last_stored_repository(repos: Seq<run_store::PersistedRepo>, n: int)
    requires
        0 <= n < repos.len(),
        forall|k: int| n < k < repos.len() ==> (#[trigger] repos[k]).name@ != repos[n].name@,
    ensures
        registry::persisted_repos(repos).contains_key(repos[n].name@),
        registry::persisted_repos(repos)[repos[n].name@].path == repos[n].path,
        registry::persisted_repos(repos)[repos[n].name@].base_ref == repos[n].base_ref,
        registry::persisted_repos(repos)[repos[n].name@].integration_branch
            == repos[n].integration_branch,
    decreases repos.len(),
{
    if n < repos.len() - 1 {
        let init = repos.drop_last();
        assert(init[n] == repos[n]);
        assert forall|k: int| n < k < init.len() implies (#[trigger] init[k]).name@
            != init[n].name@ by {
            assert(init[k] == repos[k]);
        }
        lemma_last_stored_repository(init, n);
        assert(repos[repos.len() - 1].name@ != repos[n].name@);
    }
}

/// A stored run comes back ended, with its interrupted epics recovered, and
/// otherwise as it was kept. Each name leads to its last repository. Runs that
/// were not stored stay as they are, and where nothing was stored all do.
pub proof fn law_stored_runs_come_back_ended(
    reg: &mut Registry,
    persisted: Vec<PersistedRun>,
    i: int,
    app: &mut App,
    n: int,
    k: int,
)
    requires
        old(reg).wf(),
        call_ensures(Registry::rehydrate, (reg, persisted), ()),
        0 <= i < persisted@.len(),
        forall|j: int|
            i < j < persisted@.len() ==> (#[trigger] persisted@[j]).id@ != persisted@[i].id@,
        old(app)@ == persisted@[i].app@,
        call_ensures(run::recover_interrupted, (app,), ()),
    ensures
        exists|j: int|
            {
                let p = persisted@[i];
                let e = #[trigger] final(reg)@.runs[j];
                &&& 0 <= j < final(reg)@.runs.len()
                &&& e.id == p.id@ && e.workspace == p.workspace@ && e.goal == p.goal@
                &&& e.completed
                &&& e.app == final(app)@
                &&& e.plan_cwd == p.plan_cwd@ && e.default_verify == p.default_verify@
                &&& e.language == p.language
                &&& e.repo_names.len() == p.repos@.len() && e.repo_paths.len() == p.repos@.len()
                &&& 0 <= n < p.repos@.len() ==> e.repo_names[n] == p.repos@[n].name
                    && e.repo_paths[n] == p.repos@[n].path
                &&& 0 <= n < p.repos@.len() && (forall|m: int|
                    n < m < p.repos@.len() ==> (#[trigger] p.repos@[m]).name@
                        != p.repos@[n].name@) ==> e.repos.contains_key(p.repos@[n].name@)
                    && e.repos[p.repos@[n].name@].path == p.repos@[n].path
                    && e.repos[p.repos@[n].name@].base_ref == p.repos@[n].base_ref
                    && e.repos[p.repos@[n].name@].integration_branch
                    == p.repos@[n].integration_branch
            },
        0 <= k < old(reg)@.runs.len() && (forall|j: int|
            0 <= j < persisted@.len() ==> (#[trigger] persisted@[j]).id@ != old(
                reg,
            )@.runs[k].id) ==> final(reg)@.runs[k] == old(reg)@.runs[k],
{
    let v = text::views(persisted@);
    let p = persisted@[i];
    assert(v[i] == p@);
    assert forall|j: int| i < j < v.len() implies (#[trigger] v[j]).id != v[i].id by {
        assert(v[j] == persisted@[j]@);
        assert(persisted@[j].id@ != p.id@);
    }
    let j = lemma_restored_run(old(reg)@.runs, v, i);
    let e = final(reg)@.runs[j];
    assert(e == registry::restored_entry(p@));
    if 0 <= n < p.repos@.len() && (forall|m: int|
        n < m < p.repos@.len() ==> (#[trigger] p.repos@[m]).name@ != p.repos@[n].name@) {
        lemma_last_stored_repository(p.repos@, n);
    }
    if 0 <= k < old(reg)@.runs.len() && (forall|j: int|
        0 <= j < persisted@.len() ==> (#[trigger] persisted@[j]).id@ != old(reg)@.runs[k].id) {
        assert forall|j: int| 0 <= j < v.len() implies (#[trigger] v[j]).id != old(
            reg,
        )@.runs[k].id by {
            assert(v[j] == persisted@[j]@);
            assert(persisted@[j].id@ == v[j].id);
        }
        lemma_other_runs_stay(old(reg)@.runs, v, k);
    }
}

} // verus!
