//! The Implement + Integrate flow: which epics to start, what to tell about
//! each, and what an epic's end means for the rest of the run. The caller
//! performs the work and reports back.
use vstd::prelude::*;
use vstd::string::*;

use crate::app::StageEvent;
use crate::config;
use crate::orchestrator;
use crate::orchestrator::{epic_base_ref, repo_by_id, EpicState, RepoRun, RunConfig, Scheduler};
use crate::plan;
use crate::plan::{Epic, Plan};
use crate::schedule_laws;
use crate::strmap::StrMap;
use crate::text;
use crate::worktree::MergeResult;

verus! {

/// Everything one epic's run needs.
#[derive(Debug, PartialEq)]
pub struct EpicJob {
    pub epic: Epic,
    pub repo: RepoRun,
    pub base: String,
    pub verify: String,
    pub prompt: String,
}

/// The verification command of an epic: its own, or the run's default.
pub open spec fn verify_of(epic: plan::EpicModel, default_verify: Seq<char>) -> Seq<char> {
    match epic.verify {
        Some(cmd) => cmd,
        None => default_verify,
    }
}

/// The job is the one that belongs to the epic.
pub open spec fn is_job(
    job: EpicJob,
    epic: plan::EpicModel,
    repo: RepoRun,
    owners: Map<Seq<char>, Seq<char>>,
    goal: Seq<char>,
    default_verify: Seq<char>,
) -> bool {
    &&& job.epic@ == epic
    &&& job.repo == repo
    &&& job.base@ == if orchestrator::has_same_repo_dep(epic, owners) {
        repo.integration_branch@
    } else {
        repo.base_ref@
    }
    &&& job.verify@ == verify_of(epic, default_verify)
    &&& job.prompt@ == config::epic_text(goal, epic, job.verify@)
}

/// Work out an epic's job, or the reason it cannot run: its repository is not
/// one the run targets.
pub fn prepare_epic(
    epic: &Epic,
    owners: &StrMap<String>,
    repos: &StrMap<RepoRun>,
    goal: &str,
    default_verify: &str,
) -> (r: Result<EpicJob, String>)
    requires
        owners.wf(),
        repos.wf(),
    ensures
        match r {
            Ok(job) => repos@.contains_key(epic@.repo) && is_job(
                job,
                epic@,
                repos@[epic@.repo],
                orchestrator::text_map(owners@),
                goal@,
                default_verify@,
            ),
            Err(reason) => !repos@.contains_key(epic@.repo) && reason@
                == "epic names unknown repo "@ + epic@.repo,
        },
{
    match repos.get(epic.repo.as_str()) {
        Some(rc) => {
            let base = epic_base_ref(epic, owners, rc);
            let verify = match &epic.verify {
                Some(cmd) => cmd.clone(),
                None => default_verify.to_string(),
            };
            let prompt = config::epic_prompt(goal, epic, verify.as_str());
            Ok(EpicJob { epic: epic.clone(), repo: rc.clone(), base, verify, prompt })
        },
        None => Err("epic names unknown repo ".to_string().concat(epic.repo.as_str())),
    }
}

/// How an epic ended: merged, in conflict, or failed for a reason.
#[derive(Debug, PartialEq)]
pub enum EpicEnd {
    Merged,
    Conflict,
    Failed { reason: String },
}

/// The reason given when verification failed and so did the retry.
pub const GAVE_UP: &'static str = "verify failed after retry";

/// What the end of a merge means: how the epic ended, and whether its worktree
/// goes.
pub open spec fn merge_means(
    result: Result<MergeResult, String>,
    end: EpicEnd,
    remove_worktree: bool,
) -> bool {
    match result {
        Ok(MergeResult::Merged) => end is Merged && remove_worktree,
        Ok(MergeResult::Conflict) => end is Conflict && !remove_worktree,
        Err(e) => end matches EpicEnd::Failed { reason } && reason@ == e@ && !remove_worktree,
    }
}

/// How an epic ended, by how its merge ended, and whether its worktree is to
/// be removed: only once its work is safely merged. After a conflict the
/// worktree and branch are kept for a manual merge, after an error for
/// diagnosis.
pub fn merge_end(result: &Result<MergeResult, String>) -> (r: (EpicEnd, bool))
    ensures
        merge_means(*result, r.0, r.1),
{
    match result {
        Ok(MergeResult::Merged) => (EpicEnd::Merged, true),
        Ok(MergeResult::Conflict) => (EpicEnd::Conflict, false),
        Err(e) => (EpicEnd::Failed { reason: e.clone() }, false),
    }
}

/// The event tells of the end.
pub open spec fn tells_end(ev: StageEvent, id: Seq<char>, end: EpicEnd) -> bool {
    match end {
        EpicEnd::Merged => ev matches StageEvent::EpicMerged { id: e } && e@ == id,
        EpicEnd::Conflict => ev matches StageEvent::EpicConflict { id: e } && e@ == id,
        EpicEnd::Failed { reason } => ev matches StageEvent::EpicFailed { id: e, reason: r } && e@
            == id && r@ == reason@,
    }
}

/// The event that tells how an epic ended.
pub fn end_event(id: &str, end: &EpicEnd) -> (r: StageEvent)
    ensures
        tells_end(r, id@, *end),
{
    match end {
        EpicEnd::Merged => StageEvent::EpicMerged { id: id.to_string() },
        EpicEnd::Conflict => StageEvent::EpicConflict { id: id.to_string() },
        EpicEnd::Failed { reason } => StageEvent::EpicFailed {
            id: id.to_string(),
            reason: reason.clone(),
        },
    }
}

/// The event tells that the epic started.
pub open spec fn tells_start(ev: StageEvent, epic: plan::EpicModel) -> bool {
    ev matches StageEvent::EpicStarted { id, title, repo } && id@ == epic.id && title@
        == epic.title && repo@ == epic.repo
}

fn start_event(epic: &Epic) -> (r: StageEvent)
    ensures
        tells_start(r, epic@),
{
    StageEvent::EpicStarted {
        id: epic.id.clone(),
        title: epic.title.clone(),
        repo: epic.repo.clone(),
    }
}

/// An epic to start: the event to send, and its job or why it cannot run.
#[derive(Debug, PartialEq)]
pub struct EpicStart {
    pub id: String,
    pub event: StageEvent,
    pub job: Result<EpicJob, String>,
}

/// What the caller does next.
#[derive(Debug, PartialEq)]
pub enum Step {
    /// Nothing runs and nothing is left to start: send this event, and the run
    /// is over.
    Finished(StageEvent),
    /// Wait for a running epic to end, then ask again.
    Wait,
    /// Start these epics, then ask again.
    Start(Vec<EpicStart>),
}

/// A run in progress.
pub struct Driver {
    plan: Plan,
    owners: StrMap<String>,
    sched: Scheduler,
    config: RunConfig,
}

/// The epic that an id stands for: the last one with it.
pub open spec fn epic_of(epics: Seq<plan::EpicModel>, id: Seq<char>) -> plan::EpicModel {
    epics[plan::last_with_id(epics, id)]
}

impl Driver {
    /// The epics of the plan.
    pub closed spec fn epics(self) -> Seq<plan::EpicModel> {
        self.plan@
    }

    /// Where every epic stands.
    pub closed spec fn schedule(self) -> orchestrator::SchedulerModel {
        self.sched@
    }

    /// The repositories, goal and default verification of the run.
    pub closed spec fn config(self) -> RunConfig {
        self.config
    }

    /// The schedule belongs to the plan, and the maps hold no key twice.
    pub closed spec fn wf(self) -> bool {
        &&& self.sched.wf()
        &&& self.owners.wf()
        &&& self.config.repos.wf()
        &&& schedule_laws::schedules(self.sched@, self.plan@)
        &&& orchestrator::text_map(self.owners@) == orchestrator::repos_of(self.plan@)
    }

    /// The start is the one that belongs to the id.
    pub open spec fn is_start(self, start: EpicStart, id: Seq<char>) -> bool {
        let epic = epic_of(self.epics(), id);
        let repos = self.config().repos@;
        &&& start.id@ == id
        &&& tells_start(start.event, epic)
        &&& match start.job {
            Ok(job) => repos.contains_key(epic.repo) && is_job(
                job,
                epic,
                repos[epic.repo],
                orchestrator::repos_of(self.epics()),
                self.config().goal@,
                self.config().default_verify@,
            ),
            Err(reason) => !repos.contains_key(epic.repo) && reason@ == "epic names unknown repo "@
                + epic.repo,
        }
    }

    /// A run in which every epic is pending.
    pub fn new(plan: &Plan, config: RunConfig) -> (r: Driver)
        requires
            config.repos.wf(),
        ensures
            r.wf(),
            r.epics() == plan@,
            r.config() == config,
            r.schedule() == orchestrator::fresh(plan@, config::MAX_PARALLEL_EPICS as nat),
    {
        let sched = Scheduler::new(plan, config::MAX_PARALLEL_EPICS);
        let owners = repo_by_id(plan);
        proof {
            schedule_laws::law_fresh(plan@, config::MAX_PARALLEL_EPICS as nat);
        }
        Driver { plan: plan.clone(), owners, sched, config }
    }

    /// A run in which the epics in `merged` count as succeeded already and
    /// every other epic is pending.
    pub fn resume(plan: &Plan, config: RunConfig, merged: &Vec<String>) -> (r: Driver)
        requires
            config.repos.wf(),
        ensures
            r.wf(),
            r.epics() == plan@,
            r.config() == config,
            r.schedule() == seeded(
                orchestrator::fresh(plan@, config::MAX_PARALLEL_EPICS as nat),
                text::views(merged@),
            ),
    {
        let mut r = Driver::new(plan, config);
        let ghost fresh = r.schedule();
        let ghost list = text::views(merged@);
        let mut i: usize = 0;
        assert(list.take(0) =~= Seq::<Seq<char>>::empty());
        while i < merged.len()
            invariant
                i <= merged@.len(),
                list == text::views(merged@),
                r.wf(),
                r.epics() == plan@,
                r.config() == config,
                r.schedule() == seeded(fresh, list.take(i as int)),
            decreases merged@.len() - i,
        {
            let ghost before = r.schedule();
            r.sched.mark_succeeded(merged[i].as_str());
            proof {
                assert(list.take(i + 1).drop_last() =~= list.take(i as int));
                assert(list.take(i + 1).last() == merged@[i as int]@);
                assert(r.schedule().states.dom() =~= before.states.dom());
            }
            i = i + 1;
        }
        assert(list.take(i as int) =~= list);
        r
    }

    /// The schedule of a run is one of its plan.
    pub proof fn lemma_schedules(&self)
        requires
            self.wf(),
        ensures
            schedule_laws::schedules(self.schedule(), self.epics()),
    {
    }

    fn start_of(&self, id: &str) -> (r: EpicStart)
        requires
            self.wf(),
            plan::ids(self.epics()).contains(id@),
        ensures
            self.is_start(r, id@),
    {
        let i = self.plan.last_index(id);
        let epic = &self.plan.epics[i];
        assert(epic@ == epic_of(self.epics(), id@));
        let job = prepare_epic(
            epic,
            &self.owners,
            &self.config.repos,
            self.config.goal.as_str(),
            self.config.default_verify.as_str(),
        );
        EpicStart { id: id.to_string(), event: start_event(epic), job }
    }

    /// Decide what to do next. `in_flight` says whether an epic that was
    /// started has not been waited for yet; `over_budget` says whether the
    /// accumulated cost has reached the run's budget, so that no new epic may
    /// start. The epics in `Start` count as running from then on.
    pub fn next_step(&mut self, in_flight: bool, over_budget: bool) -> (r: Step)
        requires
            old(self).wf(),
        ensures
            final(self).wf(),
            final(self).epics() == old(self).epics(),
            final(self).config() == old(self).config(),
            ({
                let m = old(self).schedule();
                let ids = if over_budget {
                    Seq::empty()
                } else {
                    m.next_ids()
                };
                if ids.len() == 0 && !in_flight {
                    r == Step::Finished(StageEvent::Done) && final(self).schedule() == m
                } else if ids.len() == 0 {
                    r is Wait && final(self).schedule() == m
                } else {
                    &&& r matches Step::Start(starts)
                    &&& starts@.len() == ids.len()
                    &&& forall|i: int|
                        0 <= i < ids.len() ==> old(self).is_start(#[trigger] starts@[i], ids[i])
                    &&& final(self).schedule() == schedule_laws::started(m, ids)
                }
            }),
            old(self).schedule().done() ==> !(r is Start),
    {
        proof {
            schedule_laws::law_next_ids_may_start(self.schedule());
            if self.schedule().done() && self.schedule().next_ids().len() > 0 {
                assert(self.schedule().ready(self.schedule().next_ids()[0]));
            }
        }
        let ready: Vec<String> = if over_budget {
            Vec::new()
        } else {
            self.sched.next_ready()
        };
        if ready.len() == 0 {
            if in_flight {
                return Step::Wait;
            }
            return Step::Finished(StageEvent::Done);
        }
        let ghost before = *self;
        let ghost ids = text::views(ready@);
        let mut starts: Vec<EpicStart> = Vec::new();
        let mut i: usize = 0;
        assert(ids.take(0) =~= Seq::<Seq<char>>::empty());
        proof {
            schedule_laws::law_next_ids_may_start(before.schedule());
        }
        while i < ready.len()
            invariant
                i <= ready@.len(),
                ids == text::views(ready@),
                before.wf(),
                forall|j: int|
                    0 <= j < ids.len() ==> before.schedule().ready(#[trigger] ids[j]),
                self.wf(),
                self.epics() == before.epics(),
                self.config() == before.config(),
                self.owners == before.owners,
                self.schedule() == schedule_laws::started(before.schedule(), ids.take(i as int)),
                starts@.len() == i,
                forall|j: int| 0 <= j < i ==> before.is_start(#[trigger] starts@[j], ids[j]),
            decreases ready@.len() - i,
        {
            let id: &str = ready[i].as_str();
            let ghost m = self.schedule();
            assert(ids[i as int] == id@);
            assert(before.schedule().ready(ids[i as int]));
            assert(before.schedule().order.to_set().contains(id@));
            self.sched.mark_running(id);
            proof {
                assert(ids.take(i + 1).drop_last() =~= ids.take(i as int));
                assert(ids.take(i + 1).last() == id@);
                assert(self.schedule().states.dom() =~= m.states.dom());
            }
            let start = self.start_of(id);
            starts.push(start);
            i = i + 1;
        }
        assert(ids.take(i as int) =~= ids);
        Step::Start(starts)
    }

    /// Record how an epic ended. Returns the events to send: how it ended,
    /// and one for every epic that is skipped by now, in plan order.
    pub fn finish(&mut self, id: &str, end: EpicEnd) -> (r: Vec<StageEvent>)
        requires
            old(self).wf(),
        ensures
            final(self).wf(),
            final(self).epics() == old(self).epics(),
            final(self).config() == old(self).config(),
            final(self).schedule() == ended(old(self).schedule(), id@, end),
            tells_finish(r@, id@, end, final(self).schedule()),
    {
        let ghost before = *self;
        let mut events: Vec<StageEvent> = Vec::new();
        events.push(end_event(id, &end));
        match end {
            EpicEnd::Merged => {
                self.sched.mark_succeeded(id);
                proof {
                    assert(self.sched@.states.dom() =~= before.sched@.states.dom());
                }
            },
            EpicEnd::Conflict => {
                self.sched.mark_failed(id);
                proof {
                    assert(self.sched@.states.dom() =~= before.sched@.states.dom());
                }
            },
            EpicEnd::Failed { .. } => {
                self.sched.mark_failed(id);
                proof {
                    assert(self.sched@.states.dom() =~= before.sched@.states.dom());
                }
            },
        }
        let snapshot = self.sched.snapshot();
        let ghost m = self.sched@;
        let ghost f = |x: Seq<char>| m.is(x, EpicState::Skipped);
        let mut i: usize = 0;
        proof {
            reveal(Seq::filter);
            assert(m.order.take(0).filter(f) =~= Seq::<Seq<char>>::empty());
        }
        while i < snapshot.len()
            invariant
                self.wf(),
                m == self.sched@,
                f == (|x: Seq<char>| m.is(x, EpicState::Skipped)),
                snapshot@.len() == m.order.len(),
                forall|j: int|
                    0 <= j < snapshot@.len() ==> (#[trigger] snapshot@[j]).0@ == m.order[j]
                        && snapshot@[j].1 == m.states[m.order[j]],
                i <= snapshot@.len(),
                events@.len() == 1 + m.order.take(i as int).filter(f).len(),
                tells_end(events@[0], id@, end),
                forall|j: int|
                    0 <= j < m.order.take(i as int).filter(f).len() ==> (#[trigger] events@[j + 1]
                        matches StageEvent::EpicSkipped { id: e } && e@ == m.order.take(
                        i as int,
                    ).filter(f)[j]),
            decreases snapshot@.len() - i,
        {
            let ghost head = m.order.take(i as int);
            let ghost sofar = events@;
            proof {
                assert(snapshot@[i as int].0@ == m.order[i as int]);
                assert(m.order.take(i + 1) =~= head.push(m.order[i as int]));
                head.lemma_filter_push(m.order[i as int], f);
                assert(m.order.to_set().contains(m.order[i as int]));
            }
            if snapshot[i].1 == EpicState::Skipped {
                events.push(StageEvent::EpicSkipped { id: snapshot[i].0.clone() });
            }
            i = i + 1;
            proof {
                let now = m.order.take(i as int).filter(f);
                assert forall|j: int| 0 <= j < now.len() implies (#[trigger] events@[j + 1] matches
                    StageEvent::EpicSkipped { id: e } && e@ == now[j]) by {
                    if j < head.filter(f).len() {
                        assert(events@[j + 1] == sofar[j + 1]);
                        assert(now[j] == head.filter(f)[j]);
                    }
                }
            }
        }
        assert(m.order.take(i as int) =~= m.order);
        events
    }
}

/// The schedule after an epic ended.
pub open spec fn ended(
    m: orchestrator::SchedulerModel,
    id: Seq<char>,
    end: EpicEnd,
) -> orchestrator::SchedulerModel {
    match end {
        EpicEnd::Merged => m.with_state(id, EpicState::Succeeded),
        _ => m.with_state(id, EpicState::Failed).cascaded(),
    }
}

/// The skipped ids, in plan order.
pub open spec fn skipped_ids(m: orchestrator::SchedulerModel) -> Seq<Seq<char>> {
    m.order.filter(|x: Seq<char>| m.is(x, EpicState::Skipped))
}

/// The events tell of an end, and of every epic that is skipped by then, in
/// plan order.
pub open spec fn tells_finish(
    events: Seq<StageEvent>,
    id: Seq<char>,
    end: EpicEnd,
    after: orchestrator::SchedulerModel,
) -> bool {
    let skipped = skipped_ids(after);
    &&& events.len() == 1 + skipped.len()
    &&& tells_end(events[0], id, end)
    &&& forall|i: int|
        0 <= i < skipped.len() ==> (#[trigger] events[i + 1] matches StageEvent::EpicSkipped {
            id: e,
        } && e@ == skipped[i])
}

/// The schedule after the ids were recorded as succeeded.
pub open spec fn seeded(
    m: orchestrator::SchedulerModel,
    ids: Seq<Seq<char>>,
) -> orchestrator::SchedulerModel
    decreases ids.len(),
{
    if ids.len() == 0 {
        m
    } else {
        seeded(m, ids.drop_last()).with_state(ids.last(), EpicState::Succeeded)
    }
}

/// A resumed run seeds exactly the merged epics as succeeded, leaves every
/// other epic pending, and never starts a seeded epic.
pub proof fn law_resume_runs_the_rest(
    epics: Seq<plan::EpicModel>,
    max_parallel: nat,
    merged: Seq<Seq<char>>,
)
    ensures
        ({
            let m = seeded(orchestrator::fresh(epics, max_parallel), merged);
            &&& m.wf()
            &&& m.settled()
            &&& forall|id: Seq<char>| #[trigger]
                plan::ids(epics).contains(id) ==> m.states.contains_key(id) && m.states[id]
                    == if merged.contains(id) {
                    EpicState::Succeeded
                } else {
                    EpicState::Pending
                }
            &&& forall|i: int|
                0 <= i < m.next_ids().len() ==> !merged.contains(#[trigger] m.next_ids()[i])
        }),
{
    let f = orchestrator::fresh(epics, max_parallel);
    let m = seeded(f, merged);
    schedule_laws::law_fresh(epics, max_parallel);
    lemma_seeded(f, merged);
    schedule_laws::law_next_ids_may_start(m);
    assert forall|id: Seq<char>| #[trigger] plan::ids(epics).contains(id) implies {
        m.states.contains_key(id) && m.states[id] == if merged.contains(id) {
            EpicState::Succeeded
        } else {
            EpicState::Pending
        }
    } by {
        assert(f.states.contains_key(id));
    }
    assert forall|i: int| 0 <= i < m.next_ids().len() implies !merged.contains(
        #[trigger] m.next_ids()[i],
    ) by {
        assert(m.ready(m.next_ids()[i]));
        assert(f.states.contains_key(m.next_ids()[i]));
    }
}

proof fn lemma_seeded(f: orchestrator::SchedulerModel, ids: Seq<Seq<char>>)
    requires
        f.wf(),
        f.settled(),
    ensures
        seeded(f, ids).wf(),
        seeded(f, ids).settled(),
        seeded(f, ids).order == f.order,
        seeded(f, ids).deps == f.deps,
        seeded(f, ids).max_parallel == f.max_parallel,
        seeded(f, ids).states.dom() == f.states.dom(),
        forall|id: Seq<char>| #[trigger]
            f.states.contains_key(id) ==> seeded(f, ids).states[id] == if ids.contains(id) {
                EpicState::Succeeded
            } else {
                f.states[id]
            },
    decreases ids.len(),
{
    if ids.len() > 0 {
        lemma_seeded(f, ids.drop_last());
        schedule_laws::law_recording_keeps_settled(
            seeded(f, ids.drop_last()),
            ids.last(),
            EpicState::Succeeded,
        );
        assert(seeded(f, ids).states.dom() =~= f.states.dom());
        assert forall|id: Seq<char>| #[trigger] f.states.contains_key(id) implies seeded(
            f,
            ids,
        ).states[id] == if ids.contains(id) {
            EpicState::Succeeded
        } else {
            f.states[id]
        } by {
            if ids.contains(id) && id != ids.last() {
                let j = choose|j: int| 0 <= j < ids.len() && ids[j] == id;
                assert(ids.drop_last()[j] == id);
            }
            if ids.drop_last().contains(id) {
                let j = choose|j: int| 0 <= j < ids.drop_last().len() && ids.drop_last()[j] == id;
                assert(ids[j] == id);
            }
            assert(ids[ids.len() - 1] == ids.last());
        }
    }
}

/// What to do when a single epic is run again.
#[derive(Debug, PartialEq)]
pub enum RetryPlan {
    /// The plan has no such epic.
    Missing { message: String },
    /// The epic's repository is not one the run targets: only this event is sent.
    UnknownRepo { event: StageEvent },
    /// Send the event and run the job.
    Run { event: StageEvent, job: EpicJob },
}

/// Work out how to re-run one epic that ended blocked. It takes the same path
/// a normal epic takes, without a schedule.
pub fn retry_epic(
    plan: &Plan,
    epic_id: &str,
    repos: &StrMap<RepoRun>,
    goal: &str,
    default_verify: &str,
) -> (r: RetryPlan)
    requires
        repos.wf(),
    ensures
        match r {
            RetryPlan::Missing { message } => !plan::ids(plan@).contains(epic_id@) && message@
                == "epic "@ + epic_id@ + " is not in the plan"@,
            RetryPlan::UnknownRepo { event } => exists|i: int| #[trigger]
                first_epic(plan@, epic_id@, i) && !repos@.contains_key(plan@[i].repo) && (
                event matches StageEvent::EpicFailed { id, reason } && id@ == epic_id@ && reason@
                    == "epic names unknown repo "@ + plan@[i].repo),
            RetryPlan::Run { event, job } => exists|i: int| #[trigger]
                first_epic(plan@, epic_id@, i) && repos@.contains_key(plan@[i].repo)
                    && tells_start(event, plan@[i]) && is_job(
                    job,
                    plan@[i],
                    repos@[plan@[i].repo],
                    orchestrator::repos_of(plan@),
                    goal@,
                    default_verify@,
                ),
        },
{
    match plan.first_index(epic_id) {
        None => RetryPlan::Missing {
            message: "epic ".to_string().concat(epic_id).concat(" is not in the plan"),
        },
        Some(i) => {
            let epic = &plan.epics[i];
            assert(first_epic(plan@, epic_id@, i as int));
            let owners = repo_by_id(plan);
            match prepare_epic(epic, &owners, repos, goal, default_verify) {
                Ok(job) => RetryPlan::Run { event: start_event(epic), job },
                Err(reason) => RetryPlan::UnknownRepo {
                    event: StageEvent::EpicFailed { id: epic.id.clone(), reason },
                },
            }
        },
    }
}

/// Epic `i` is the first with the id.
pub open spec fn first_epic(epics: Seq<plan::EpicModel>, id: Seq<char>, i: int) -> bool {
    0 <= i < epics.len() && epics[i].id == id && !plan::ids(epics).take(i).contains(id)
}

/// When a run stops with nothing in flight and its budget not reached, every
/// epic of a valid plan has succeeded, failed or been skipped.
pub proof fn law_finished_runs_are_done(
    epics: Seq<plan::EpicModel>,
    m: orchestrator::SchedulerModel,
)
    requires
        plan::valid_plan(epics),
        schedule_laws::schedules(m, epics),
        m.settled(),
        m.max_parallel > 0,
        m.in_state(EpicState::Running).len() == 0,
        m.next_ids().len() == 0,
    ensures
        m.done(),
{
    if !m.done() {
        schedule_laws::law_no_deadlock(epics, m);
    }
}

/// One move of a run, with the events it sends: every epic that may start is
/// started, a running epic ends, or a session tells how it gets on.
pub ghost enum Move {
    Start { events: Seq<StageEvent> },
    End { id: Seq<char>, end: EpicEnd, events: Seq<StageEvent> },
    Progress { event: StageEvent },
}

/// The events tell that the epics started, one event each.
pub open spec fn tells_starts(
    events: Seq<StageEvent>,
    epics: Seq<plan::EpicModel>,
    ids: Seq<Seq<char>>,
) -> bool {
    events.len() == ids.len() && forall|i: int|
        0 <= i < ids.len() ==> tells_start(#[trigger] events[i], epic_of(epics, ids[i]))
}

/// The event tells how a session gets on: it starts, ends and skips nothing.
pub open spec fn tells_progress(ev: StageEvent) -> bool {
    match ev {
        StageEvent::StageLog { .. } => true,
        StageEvent::StageAssistant { .. } => true,
        StageEvent::StageTool { .. } => true,
        StageEvent::EpicVerifying { .. } => true,
        StageEvent::EpicSucceeded { .. } => true,
        StageEvent::Cost { .. } => true,
        _ => false,
    }
}

/// The move can be made, with the events that `Driver` gives for it: only a
/// running epic can end.
pub open spec fn can_move(
    m: orchestrator::SchedulerModel,
    epics: Seq<plan::EpicModel>,
    mv: Move,
) -> bool {
    match mv {
        Move::Start { events } => tells_starts(events, epics, m.next_ids()),
        Move::End { id, end, events } => m.is(id, EpicState::Running) && tells_finish(
            events,
            id,
            end,
            ended(m, id, end),
        ),
        Move::Progress { event } => tells_progress(event),
    }
}

/// The schedule after a move.
pub open spec fn moved(m: orchestrator::SchedulerModel, mv: Move) -> orchestrator::SchedulerModel {
    match mv {
        Move::Start { .. } => schedule_laws::started(m, m.next_ids()),
        Move::End { id, end, .. } => ended(m, id, end),
        Move::Progress { .. } => m,
    }
}

/// The schedule after a sequence of moves.
pub open spec fn reached(
    m: orchestrator::SchedulerModel,
    moves: Seq<Move>,
) -> orchestrator::SchedulerModel
    decreases moves.len(),
{
    if moves.len() == 0 {
        m
    } else {
        moved(reached(m, moves.drop_last()), moves.last())
    }
}

/// Each of the moves can be made where it is made.
pub open spec fn can_reach(
    m: orchestrator::SchedulerModel,
    epics: Seq<plan::EpicModel>,
    moves: Seq<Move>,
) -> bool
    decreases moves.len(),
{
    moves.len() == 0 || (can_reach(m, epics, moves.drop_last()) && can_move(
        reached(m, moves.drop_last()),
        epics,
        moves.last(),
    ))
}

/// A run of a plan, some of whose epics had merged before: the schedule that
/// it starts from.
pub open spec fn run_start(
    epics: Seq<plan::EpicModel>,
    max_parallel: nat,
    merged: Seq<Seq<char>>,
) -> orchestrator::SchedulerModel {
    seeded(orchestrator::fresh(epics, max_parallel), merged)
}

/// What holds of a schedule at every point of a run: no pending epic has a
/// failed or skipped dependency, every skipped epic has one, and no more
/// epics run at once than the cap allows.
pub open spec fn sound(m: orchestrator::SchedulerModel) -> bool {
    &&& m.settled()
    &&& m.justified()
    &&& m.in_state(EpicState::Running).len() <= m.max_parallel
}

proof fn lemma_start_keeps_sound(m: orchestrator::SchedulerModel, epics: Seq<plan::EpicModel>)
    requires
        schedule_laws::schedules(m, epics),
        sound(m),
    ensures
        schedule_laws::schedules(schedule_laws::started(m, m.next_ids()), epics),
        sound(schedule_laws::started(m, m.next_ids())),
        schedule_laws::started(m, m.next_ids()).max_parallel == m.max_parallel,
{
    let ids = m.next_ids();
    let n = schedule_laws::started(m, ids);
    schedule_laws::law_next_ids_may_start(m);
    schedule_laws::lemma_started(m, ids);
    schedule_laws::law_parallel_cap(m);
    assert forall|x: Seq<char>| #[trigger] n.lost(x) == m.lost(x) by {
        if ids.contains(x) {
            let i = choose|i: int| 0 <= i < ids.len() && ids[i] == x;
            assert(m.ready(ids[i]));
            assert(m.states.contains_key(x));
        } else if m.states.contains_key(x) {
            assert(n.states[x] == m.states[x]);
        }
    }
    assert forall|x: Seq<char>, k: int|
        n.is(x, EpicState::Pending) && 0 <= k < n.deps[x].len() implies !n.lost(
        #[trigger] n.deps[x][k],
    ) by {
        assert(m.states.contains_key(x));
        assert(m.is(x, EpicState::Pending));
        assert(!m.lost(m.deps[x][k]));
    }
    assert forall|x: Seq<char>| #[trigger] n.is(x, EpicState::Skipped) implies exists|k: int|
        0 <= k < n.deps[x].len() && n.lost(#[trigger] n.deps[x][k]) by {
        assert(m.states.contains_key(x));
        assert(m.is(x, EpicState::Skipped));
        let k = choose|k: int| 0 <= k < m.deps[x].len() && m.lost(#[trigger] m.deps[x][k]);
        assert(n.lost(n.deps[x][k]));
    }
}

proof fn lemma_end_keeps_sound(
    m: orchestrator::SchedulerModel,
    epics: Seq<plan::EpicModel>,
    id: Seq<char>,
    end: EpicEnd,
)
    requires
        schedule_laws::schedules(m, epics),
        sound(m),
        m.is(id, EpicState::Running),
    ensures
        schedule_laws::schedules(ended(m, id, end), epics),
        sound(ended(m, id, end)),
        ended(m, id, end).max_parallel == m.max_parallel,
{
    let state = if end is Merged {
        EpicState::Succeeded
    } else {
        EpicState::Failed
    };
    let f = m.with_state(id, state);
    let n = ended(m, id, end);
    schedule_laws::law_recording_keeps_justified(m, id, state);
    if end is Merged {
        schedule_laws::law_recording_keeps_settled(m, id, state);
    } else {
        schedule_laws::law_failure_settles(m, id);
    }
    assert(n.in_state(EpicState::Running).subset_of(m.in_state(EpicState::Running)));
    vstd::set_lib::lemma_len_subset(
        n.in_state(EpicState::Running),
        m.in_state(EpicState::Running),
    );
}

/// At every point of a run of a plan, fresh or resumed, whatever epics ended
/// in whatever order and in whatever way: no more epics run at once than the
/// cap allows, no pending epic has a failed or skipped dependency, and every
/// skipped epic has one.
pub proof fn law_runs_stay_sound(
    epics: Seq<plan::EpicModel>,
    max_parallel: nat,
    merged: Seq<Seq<char>>,
    moves: Seq<Move>,
)
    requires
        can_reach(run_start(epics, max_parallel, merged), epics, moves),
    ensures
        ({
            let m = reached(run_start(epics, max_parallel, merged), moves);
            &&& schedule_laws::schedules(m, epics)
            &&& sound(m)
            &&& m.max_parallel == max_parallel
        }),
    decreases moves.len(),
{
    let fresh = orchestrator::fresh(epics, max_parallel);
    let start = seeded(fresh, merged);
    if moves.len() == 0 {
        schedule_laws::law_fresh(epics, max_parallel);
        lemma_seeded(fresh, merged);
        assert(start.in_state(EpicState::Running) =~= Set::<Seq<char>>::empty());
        assert forall|x: Seq<char>| !#[trigger] start.is(x, EpicState::Skipped) by {
            assert(start.states.contains_key(x) ==> fresh.states.contains_key(x));
        }
    } else {
        law_runs_stay_sound(epics, max_parallel, merged, moves.drop_last());
        let m = reached(start, moves.drop_last());
        match moves.last() {
            Move::Start { .. } => {
                lemma_start_keeps_sound(m, epics);
            },
            Move::End { id, end, .. } => {
                lemma_end_keeps_sound(m, epics, id, end);
            },
            Move::Progress { .. } => {},
        }
    }
}

/// When a run of a valid plan has nothing running and nothing left to start,
/// every epic has succeeded, failed or been skipped, and every skipped one
/// depends, directly or through others, on one that failed.
pub proof fn law_runs_end_with_every_epic_decided(
    epics: Seq<plan::EpicModel>,
    max_parallel: nat,
    merged: Seq<Seq<char>>,
    moves: Seq<Move>,
    id: Seq<char>,
)
    requires
        plan::valid_plan(epics),
        max_parallel > 0,
        plan::ids(epics).contains(id),
        can_reach(run_start(epics, max_parallel, merged), epics, moves),
        ({
            let m = reached(run_start(epics, max_parallel, merged), moves);
            m.in_state(EpicState::Running).len() == 0 && m.next_ids().len() == 0
        }),
    ensures
        ({
            let m = reached(run_start(epics, max_parallel, merged), moves);
            ||| m.is(id, EpicState::Succeeded)
            ||| m.is(id, EpicState::Failed)
            ||| m.is(id, EpicState::Skipped) && exists|f: Seq<char>|
                #![trigger m.is(f, EpicState::Failed)]
                m.is(f, EpicState::Failed) && schedule_laws::reaches(m.deps, id, f)
        }),
{
    let m = reached(run_start(epics, max_parallel, merged), moves);
    law_runs_stay_sound(epics, max_parallel, merged, moves);
    law_finished_runs_are_done(epics, m);
    assert(m.states.contains_key(id));
    if m.is(id, EpicState::Skipped) {
        schedule_laws::law_skipped_depends_on_failed(epics, m, id);
    }
}

} // verus!
