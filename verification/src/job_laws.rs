//! Where an epic's work starts from: the ref its worktree branches off, and what
//! its job holds.
use vstd::prelude::*;

use crate::app::StageEvent;
use crate::config::epic_prompt;
use crate::driver;
use crate::driver::{prepare_epic, retry_epic, Driver, EpicJob, EpicStart, RetryPlan, Step};
use crate::orchestrator;
use crate::orchestrator::{epic_base_ref, EpicState, RepoRun};
use crate::plan;
use crate::plan::{Epic, Plan};
use crate::schedule_laws;
use crate::strmap::StrMap;

verus! {

/// An epic branches from the integration branch where any dependency of it, at
/// whatever position, lives in its own repository, and from the base ref where
/// none does.
pub proof fn law_any_dependency_in_the_repository_gives_the_integration_branch(
    epic: &Epic,
    owners: &StrMap<String>,
    rc: &RepoRun,
    r: String,
)
    requires
        owners.wf(),
        call_ensures(epic_base_ref, (epic, owners, rc), r),
    ensures
        forall|k: int|
            0 <= k < epic.depends_on@.len() && owners@.contains_key(
                (#[trigger] epic.depends_on@[k])@,
            ) && owners@[epic.depends_on@[k]@]@ == epic.repo@ ==> r@ == rc.integration_branch@,
        (forall|k: int|
            0 <= k < epic.depends_on@.len() ==> !(owners@.contains_key(
                (#[trigger] epic.depends_on@[k])@,
            ) && owners@[epic.depends_on@[k]@]@ == epic.repo@)) ==> r@ == rc.base_ref@,
{
    let map = orchestrator::text_map(owners@);
    assert forall|k: int|
        0 <= k < epic.depends_on@.len() && owners@.contains_key(
            (#[trigger] epic.depends_on@[k])@,
        ) && owners@[epic.depends_on@[k]@]@ == epic.repo@ implies r@ == rc.integration_branch@ by {
        assert(epic@.depends_on[k] == epic.depends_on@[k]@);
        assert(map.contains_key(epic@.depends_on[k]));
    }
    if forall|k: int|
        0 <= k < epic.depends_on@.len() ==> !(owners@.contains_key(
            (#[trigger] epic.depends_on@[k])@,
        ) && owners@[epic.depends_on@[k]@]@ == epic.repo@) {
        assert forall|k: int| 0 <= k < epic@.depends_on.len() implies !(map.contains_key(
            #[trigger] epic@.depends_on[k],
        ) && map[epic@.depends_on[k]] == epic@.repo) by {
            assert(epic@.depends_on[k] == epic.depends_on@[k]@);
        }
    }
}

/// Adding dependencies to an epic, anywhere, never turns the integration branch
/// back into the base ref.
pub proof fn law_more_dependencies_keep_the_integration_branch(
    fewer: &Epic,
    more: &Epic,
    owners: &StrMap<String>,
    rc: &RepoRun,
    with_fewer: String,
    with_more: String,
)
    requires
        owners.wf(),
        fewer.repo@ == more.repo@,
        forall|k: int|
            0 <= k < fewer.depends_on@.len() ==> exists|j: int|
                0 <= j < more.depends_on@.len() && (#[trigger] more.depends_on@[j])@ == (
                #[trigger] fewer.depends_on@[k])@,
        call_ensures(epic_base_ref, (fewer, owners, rc), with_fewer),
        call_ensures(epic_base_ref, (more, owners, rc), with_more),
        with_fewer@ != rc.base_ref@,
    ensures
        with_fewer@ == rc.integration_branch@,
        with_more@ == rc.integration_branch@,
{
    law_any_dependency_in_the_repository_gives_the_integration_branch(fewer, owners, rc, with_fewer);
    law_any_dependency_in_the_repository_gives_the_integration_branch(more, owners, rc, with_more);
    let k = choose|k: int|
        0 <= k < fewer.depends_on@.len() && owners@.contains_key(
            (#[trigger] fewer.depends_on@[k])@,
        ) && owners@[fewer.depends_on@[k]@]@ == fewer.repo@;
    let j = choose|j: int|
        0 <= j < more.depends_on@.len() && (#[trigger] more.depends_on@[j])@
            == fewer.depends_on@[k]@;
    assert(more.depends_on@[j]@ == fewer.depends_on@[k]@);
}

/// No two epics of the plan share an id.
pub open spec fn distinct(epics: Seq<plan::EpicModel>) -> bool {
    forall|i: int, j: int|
        0 <= i < j < epics.len() ==> (#[trigger] epics[i]).id != (#[trigger] epics[j]).id
}

/// Some dependency of epic `e` is an epic of the same repository.
pub open spec fn builds_on_its_repository(epics: Seq<plan::EpicModel>, e: int) -> bool {
    exists|k: int, f: int|
        0 <= k < epics[e].depends_on.len() && 0 <= f < epics.len()
            && #[trigger] epics[e].depends_on[k] == (#[trigger] epics[f]).id && epics[f].repo
            == epics[e].repo
}

proof fn lemma_base(
    job: EpicJob,
    epics: Seq<plan::EpicModel>,
    e: int,
    rc: RepoRun,
    goal: Seq<char>,
    verify: Seq<char>,
)
    requires
        0 <= e < epics.len(),
        distinct(epics),
        driver::is_job(job, epics[e], rc, orchestrator::repos_of(epics), goal, verify),
    ensures
        builds_on_its_repository(epics, e) ==> job.base@ == rc.integration_branch@,
        !builds_on_its_repository(epics, e) ==> job.base@ == rc.base_ref@,
{
    let owners = orchestrator::repos_of(epics);
    let epic = epics[e];
    assert forall|f: int| 0 <= f < epics.len() implies owners.contains_key(
        (#[trigger] epics[f]).id,
    ) && owners[epics[f].id] == epics[f].repo by {
        assert(plan::ids(epics)[f] == epics[f].id);
        assert(plan::ids(epics).contains(epics[f].id));
        plan::lemma_last_with_id(epics, epics[f].id);
        let l = plan::last_with_id(epics, epics[f].id);
        if l != f {
            assert(epics[l].id == epics[f].id);
        }
    }
    if builds_on_its_repository(epics, e) {
        let (k, f) = choose|k: int, f: int|
            0 <= k < epics[e].depends_on.len() && 0 <= f < epics.len()
                && #[trigger] epics[e].depends_on[k] == (#[trigger] epics[f]).id && epics[f].repo
                == epics[e].repo;
        assert(owners.contains_key(epic.depends_on[k]));
    } else {
        assert forall|k: int| 0 <= k < epic.depends_on.len() implies !(owners.contains_key(
            #[trigger] epic.depends_on[k],
        ) && owners[epic.depends_on[k]] == epic.repo) by {
            if owners.contains_key(epic.depends_on[k]) {
                let f = choose|f: int|
                    0 <= f < plan::ids(epics).len() && plan::ids(epics)[f] == epic.depends_on[k];
                assert(epics[f].id == epic.depends_on[k]);
            }
        }
    }
}

/// The job that is prepared for an epic is in the epic's own repository, checks
/// it with the epic's own command or else the run's, and prompts with both; an
/// epic of a repository that the run does not target has none.
pub proof fn law_jobs_are_the_epics_own(
    epic: &Epic,
    owners: &StrMap<String>,
    repos: &StrMap<RepoRun>,
    goal: &str,
    verify: &str,
    r: Result<EpicJob, String>,
    base: String,
    cmd: &str,
    prompt: String,
)
    requires
        owners.wf(),
        repos.wf(),
        call_ensures(prepare_epic, (epic, owners, repos, goal, verify), r),
        r matches Ok(job) ==> call_ensures(epic_base_ref, (epic, owners, &job.repo), base)
            && cmd@ == job.verify@ && call_ensures(epic_prompt, (goal, epic, cmd), prompt),
    ensures
        r is Ok <==> repos@.contains_key(epic.repo@),
        r matches Err(reason) ==> reason@ == "epic names unknown repo "@ + epic.repo@,
        r matches Ok(job) ==> {
            &&& job.epic@ == epic@
            &&& job.repo == repos@[epic.repo@]
            &&& job.base@ == base@
            &&& epic.verify is Some ==> job.verify@ == epic.verify->0@
            &&& epic.verify is None ==> job.verify@ == verify@
            &&& job.prompt@ == prompt@
        },
{
}

/// Every epic that a run starts was waiting with all its dependencies done, and
/// its job branches from the integration branch where one of them is of the
/// same repository, from the base ref where none is.
pub proof fn law_started_epics_build_on_their_dependencies(
    d: &mut Driver,
    in_flight: bool,
    over_budget: bool,
    starts: Vec<EpicStart>,
    i: int,
    goal: &str,
    epic: &Epic,
    cmd: &str,
    prompt: String,
)
    requires
        old(d).wf(),
        distinct(old(d).epics()),
        call_ensures(Driver::next_step, (d, in_flight, over_budget), Step::Start(starts)),
        0 <= i < starts@.len(),
        goal@ == old(d).config().goal@,
        starts@[i].job matches Ok(job) ==> epic@ == job.epic@ && cmd@ == job.verify@,
        call_ensures(epic_prompt, (goal, epic, cmd), prompt),
    ensures
        !over_budget,
        exists|e: int|
            #![trigger old(d).epics()[e]]
            {
                let epics = old(d).epics();
                let before = old(d).schedule();
                let after = final(d).schedule();
                let repos = old(d).config().repos@;
                &&& 0 <= e < epics.len()
                &&& epics[e].id == starts@[i].id@
                &&& before.states.contains_key(epics[e].id)
                &&& before.states[epics[e].id] == EpicState::Pending
                &&& forall|k: int|
                    #![trigger old(d).epics()[e].depends_on[k]]
                    0 <= k < epics[e].depends_on.len() ==> before.states.contains_key(
                        epics[e].depends_on[k],
                    ) && before.states[epics[e].depends_on[k]] == EpicState::Succeeded
                &&& after.states.contains_key(epics[e].id)
                &&& after.states[epics[e].id] == EpicState::Running
                &&& starts@[i].event matches StageEvent::EpicStarted { id, title, repo } && id@
                    == epics[e].id && title@ == epics[e].title && repo@ == epics[e].repo
                &&& starts@[i].job is Ok <==> repos.contains_key(epics[e].repo)
                &&& starts@[i].job matches Ok(job) ==> {
                    &&& job.epic@ == epics[e]
                    &&& job.repo == repos[epics[e].repo]
                    &&& builds_on_its_repository(epics, e) ==> job.base@
                        == job.repo.integration_branch@
                    &&& !builds_on_its_repository(epics, e) ==> job.base@ == job.repo.base_ref@
                    &&& epics[e].verify is Some ==> job.verify@ == epics[e].verify->0
                    &&& epics[e].verify is None ==> job.verify@
                        == old(d).config().default_verify@
                    &&& job.prompt@ == prompt@
                }
            },
{
    let epics = d.epics();
    let m = d.schedule();
    let ids = m.next_ids();
    assert(d.is_start(starts@[i], ids[i]));
    d.lemma_schedules();
    schedule_laws::law_next_ids_may_start(m);
    assert(m.ready(ids[i]));
    schedule_laws::lemma_started(m, ids);
    assert(ids.contains(ids[i]));
    let e = plan::last_with_id(epics, ids[i]);
    assert(m.order.contains(ids[i]));
    plan::lemma_last_with_id(epics, ids[i]);
    assert(epics[e].id == ids[i]);
    assert(m.deps[ids[i]] == epics[e].depends_on);
    match starts@[i].job {
        Ok(job) => {
            lemma_base(
                job,
                epics,
                e,
                d.config().repos@[epics[e].repo],
                d.config().goal@,
                d.config().default_verify@,
            );
        },
        Err(_) => {},
    }
}

/// A retried epic gets the job it would get in a run of its plan; nothing runs
/// for an id that the plan does not have, nor for a repository that the run does
/// not target.
pub proof fn law_retried_epics_build_on_their_dependencies(
    p: &Plan,
    epic_id: &str,
    repos: &StrMap<RepoRun>,
    goal: &str,
    verify: &str,
    r: RetryPlan,
    e: int,
    epic: &Epic,
    cmd: &str,
    prompt: String,
)
    requires
        repos.wf(),
        distinct(p@),
        call_ensures(retry_epic, (p, epic_id, repos, goal, verify), r),
        r matches RetryPlan::Run { event, job } ==> epic@ == job.epic@ && cmd@ == job.verify@,
        call_ensures(epic_prompt, (goal, epic, cmd), prompt),
    ensures
        (forall|i: int| 0 <= i < p@.len() ==> (#[trigger] p@[i]).id != epic_id@) ==> (r matches
            RetryPlan::Missing { message } && message@ == "epic "@ + epic_id@
            + " is not in the plan"@),
        0 <= e < p@.len() && p@[e].id == epic_id@ && !repos@.contains_key(p@[e].repo) ==> (
        r matches RetryPlan::UnknownRepo { event } && (event matches StageEvent::EpicFailed {
            id,
            reason,
        } && id@ == epic_id@ && reason@ == "epic names unknown repo "@ + p@[e].repo)),
        0 <= e < p@.len() && p@[e].id == epic_id@ && repos@.contains_key(p@[e].repo) ==> (
        r matches RetryPlan::Run { event, job } && {
            &&& event matches StageEvent::EpicStarted { id, title, repo } && id@ == p@[e].id
                && title@ == p@[e].title && repo@ == p@[e].repo
            &&& job.epic@ == p@[e]
            &&& job.repo == repos@[p@[e].repo]
            &&& builds_on_its_repository(p@, e) ==> job.base@ == job.repo.integration_branch@
            &&& !builds_on_its_repository(p@, e) ==> job.base@ == job.repo.base_ref@
            &&& p@[e].verify is Some ==> job.verify@ == p@[e].verify->0
            &&& p@[e].verify is None ==> job.verify@ == verify@
            &&& job.prompt@ == prompt@
        }),
{
    let epics = p@;
    assert(plan::ids(epics).len() == epics.len());
    assert forall|i: int| 0 <= i < epics.len() && (#[trigger] epics[i]).id == epic_id@ implies
        plan::ids(epics).contains(epic_id@) by {
        assert(plan::ids(epics)[i] == epic_id@);
    }
    if plan::ids(epics).contains(epic_id@) {
        let i = choose|i: int| 0 <= i < plan::ids(epics).len() && plan::ids(epics)[i] == epic_id@;
        assert(epics[i].id == epic_id@);
    }
    if 0 <= e < epics.len() && epics[e].id == epic_id@ {
        assert forall|i: int| driver::first_epic(epics, epic_id@, i) implies i == e by {
            assert(epics[i].id == epics[e].id);
        }
        match r {
            RetryPlan::Run { event, job } => {
                lemma_base(job, epics, e, repos@[epics[e].repo], goal@, verify@);
            },
            _ => {},
        }
    }
}

} // verus!
