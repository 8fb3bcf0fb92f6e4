//! The session registry of pipeline runs, one active run per workspace at a
//! time. Finished runs stay in it, so they still show up in the list.
use vstd::prelude::*;
use vstd::string::*;

use crate::app;
use crate::app::{clone_cards, App, EpicStatus, Language, StageEvent, Usd};
use crate::config;
use crate::dto;
use crate::dto::{RunSummary, StartRunRequest};
use crate::orchestrator::RepoRun;
use crate::run;
use crate::run::{
    base_ref_or_head, build_persist_ctx, gate_base, gate_branch, integration_or_default,
    next_id_after, recover_interrupted, resumable, should_persist, PersistCtx, ResumeError, RetryError, StartError,
};
use crate::run_store;
use crate::run_store::{PersistedRepo, PersistedRun};
use crate::strmap::StrMap;
use crate::text;
use crate::text::{clone_texts, decimal, same, text_not_after};
use crate::workspace;
use crate::workspace::{common_root, Repo, Workspace};

verus! {

/// One run in the registry, active or finished.
pub struct RunEntry {
    pub id: String,
    pub workspace: String,
    pub app: App,
    pub completed: bool,
    pub repo_paths: Vec<String>,
    pub repo_names: Vec<String>,
    pub plan_cwd: String,
    pub repos: StrMap<RepoRun>,
    pub goal: String,
    pub default_verify: String,
    pub language: Language,
}

/// The content of a run in the registry.
#[verifier::ext_equal]
pub ghost struct EntryModel {
    pub id: Seq<char>,
    pub workspace: Seq<char>,
    pub app: app::AppModel,
    pub completed: bool,
    pub repo_paths: Seq<String>,
    pub repo_names: Seq<String>,
    pub plan_cwd: Seq<char>,
    pub repos: Map<Seq<char>, RepoRun>,
    pub goal: Seq<char>,
    pub default_verify: Seq<char>,
    pub language: Language,
}

impl View for RunEntry {
    type V = EntryModel;

    open spec fn view(&self) -> EntryModel {
        EntryModel {
            id: self.id@,
            workspace: self.workspace@,
            app: self.app@,
            completed: self.completed,
            repo_paths: self.repo_paths@,
            repo_names: self.repo_names@,
            plan_cwd: self.plan_cwd@,
            repos: self.repos@,
            goal: self.goal@,
            default_verify: self.default_verify@,
            language: self.language,
        }
    }
}

/// Every run of this session, and the next id to hand out.
pub struct Registry {
    runs: Vec<RunEntry>,
    next_id: u64,
}

/// The content of a registry.
#[verifier::ext_equal]
pub ghost struct RegistryModel {
    pub runs: Seq<EntryModel>,
    pub next_id: u64,
}

impl View for Registry {
    type V = RegistryModel;

    closed spec fn view(&self) -> RegistryModel {
        RegistryModel { runs: text::views(self.runs@), next_id: self.next_id }
    }
}

/// Run `i` has the id.
pub open spec fn run_at(runs: Seq<EntryModel>, id: Seq<char>, i: int) -> bool {
    0 <= i < runs.len() && runs[i].id == id
}

/// Some run has the id.
pub open spec fn has_run(runs: Seq<EntryModel>, id: Seq<char>) -> bool {
    exists|i: int| run_at(runs, id, i)
}

/// No run with the id is in flight.
pub open spec fn not_in_flight(runs: Seq<EntryModel>, id: Seq<char>) -> bool {
    forall|i: int| #[trigger] run_at(runs, id, i) ==> runs[i].completed
}

/// No two runs share an id.
pub open spec fn unique_runs(runs: Seq<EntryModel>) -> bool {
    forall|i: int, j: int|
        0 <= i < j < runs.len() ==> (#[trigger] runs[i]).id != (#[trigger] runs[j]).id
}

/// No workspace has two runs in flight.
pub open spec fn exclusive(runs: Seq<EntryModel>) -> bool {
    forall|i: int, j: int|
        0 <= i < j < runs.len() && (#[trigger] runs[i]).workspace == (
        #[trigger] runs[j]).workspace ==> runs[i].completed || runs[j].completed
}

/// The workspace has a run in flight.
pub open spec fn busy(runs: Seq<EntryModel>, workspace: Seq<char>) -> bool {
    exists|i: int|
        0 <= i < runs.len() && (#[trigger] runs[i]).workspace == workspace && !runs[i].completed
}

/// Every numeric id is below the next one.
pub open spec fn ids_below(m: RegistryModel) -> bool {
    forall|i: int|
        0 <= i < m.runs.len() ==> match text::number_of((#[trigger] m.runs[i]).id) {
            Some(n) => n < m.next_id,
            None => true,
        }
}

/// The runs with one added, in the place of the one with its id if there is one.
pub open spec fn put(runs: Seq<EntryModel>, e: EntryModel) -> Seq<EntryModel> {
    if has_run(runs, e.id) {
        runs.update(choose|i: int| run_at(runs, e.id, i), e)
    } else {
        runs.push(e)
    }
}

/// The runs with run `i` active or completed.
pub open spec fn with_completed(runs: Seq<EntryModel>, i: int, completed: bool) -> Seq<EntryModel> {
    runs.update(i, EntryModel { completed, ..runs[i] })
}

/// The position of the last repository with the name, or -1.
pub open spec fn last_named(repos: Seq<Repo>, name: Seq<char>) -> int
    decreases repos.len(),
{
    if repos.len() == 0 {
        -1
    } else if repos.last().name@ == name {
        repos.len() - 1
    } else {
        last_named(repos.drop_last(), name)
    }
}

/// The repository as a run resolves it.
pub open spec fn is_resolved(rc: RepoRun, repo: Repo) -> bool {
    rc.path@ == repo.path@ && rc.base_ref@ == base_of(repo) && rc.integration_branch@
        == integration_of(repo)
}

/// The repositories of a group as a run resolves them: the last one of each name.
pub open spec fn resolved(repos: Seq<Repo>, m: Map<Seq<char>, RepoRun>) -> bool {
    forall|name: Seq<char>|
        {
            &&& #[trigger] m.contains_key(name) <==> last_named(repos, name) >= 0
            &&& m.contains_key(name) ==> is_resolved(m[name], repos[last_named(repos, name)])
        }
}

/// The ref a repository's epics branch from.
pub open spec fn base_of(repo: Repo) -> Seq<char> {
    match repo.base {
        Some(b) => b@,
        None => "HEAD"@,
    }
}

/// The branch a repository's work merges into.
pub open spec fn integration_of(repo: Repo) -> Seq<char> {
    match repo.integration {
        Some(b) => b@,
        None => config::DEFAULT_INTEGRATION@,
    }
}

/// The repositories of a group, resolved for a run: each with its base ref,
/// or `HEAD`, and its integration branch, or `agentic-integration`.
pub fn resolve_repos(workspace: &Workspace) -> (r: StrMap<RepoRun>)
    ensures
        r.wf(),
        resolved(workspace.repos@, r@),
{
    let mut out: StrMap<RepoRun> = StrMap::new();
    let mut i: usize = 0;
    let ghost all = workspace.repos@;
    while i < workspace.repos.len()
        invariant
            i <= workspace.repos@.len(),
            all == workspace.repos@,
            out.wf(),
            resolved(all.take(i as int), out@),
        decreases workspace.repos@.len() - i,
    {
        let repo = &workspace.repos[i];
        let ghost before = out@;
        let rc = RepoRun {
            path: repo.path.clone(),
            base_ref: base_ref_or_head(&repo.base),
            integration_branch: integration_or_default(&repo.integration),
        };
        out.insert(repo.name.clone(), rc);
        proof {
            let a = all.take(i as int);
            let b = all.take(i + 1);
            assert(b.drop_last() =~= a);
            assert(b.last() == all[i as int]);
            assert forall|name: Seq<char>|
                {
                    &&& #[trigger] out@.contains_key(name) <==> last_named(b, name) >= 0
                    &&& out@.contains_key(name) ==> is_resolved(
                        out@[name],
                        b[last_named(b, name)],
                    )
                } by {
                lemma_last_named(a, name);
                assert(before.contains_key(name) <==> last_named(a, name) >= 0);
            }
        }
        i = i + 1;
    }
    assert(all.take(i as int) =~= all);
    out
}

proof fn lemma_last_named(repos: Seq<Repo>, name: Seq<char>)
    ensures
        -1 <= last_named(repos, name) < repos.len(),
    decreases repos.len(),
{
    if repos.len() > 0 {
        lemma_last_named(repos.drop_last(), name);
    }
}

/// What git says of a repository before a run starts: whether the base ref
/// resolves, and which branch is checked out.
#[derive(Debug, PartialEq)]
pub struct RefProbe {
    pub base: Result<(), String>,
    pub current: Result<Option<String>, String>,
}

/// Why a repository cannot take part in a run, or none.
pub open spec fn refusal_of(repo: Repo, probe: RefProbe) -> Option<Seq<char>> {
    let integration = integration_of(repo);
    match probe.base {
        Err(e) => Some("repo '"@ + repo.name@ + "': "@ + e@),
        Ok(_) => if text::trimmed(integration).len() == 0 {
            Some("repo '"@ + repo.name@ + "': the integration branch requires a name"@)
        } else {
            match probe.current {
                Err(e) => Some("repo '"@ + repo.name@ + "': "@ + e@),
                Ok(Some(branch)) => if branch@ == integration {
                    Some(run::checked_out_text(repo.name@, integration))
                } else {
                    None
                },
                Ok(None) => None,
            }
        },
    }
}

/// Repository `i` is the first that cannot take part.
pub open spec fn first_refused(
    repos: Seq<Repo>,
    probes: Seq<RefProbe>,
    i: int,
) -> bool {
    &&& 0 <= i < repos.len()
    &&& refusal_of(repos[i], probes[i]) is Some
    &&& forall|j: int| 0 <= j < i ==> refusal_of(#[trigger] repos[j], probes[j]) is None
}

/// Every repository can take part.
pub open spec fn none_refused(repos: Seq<Repo>, probes: Seq<RefProbe>) -> bool {
    forall|i: int| 0 <= i < repos.len() ==> refusal_of(#[trigger] repos[i], probes[i]) is None
}

/// The fail-fast gates, run per repository before the registry is touched, so
/// that an invalid request never contends with a real run: every base ref
/// must resolve, and every integration branch must have a name and must not be
/// checked out. The error names the first offending repository.
pub fn check_repos(workspace: &Workspace, probes: &Vec<RefProbe>) -> (r: Result<
    StrMap<RepoRun>,
    StartError,
>)
    requires
        probes@.len() == workspace.repos@.len(),
    ensures
        match r {
            Ok(repos) => repos.wf() && resolved(workspace.repos@, repos@) && none_refused(
                workspace.repos@,
                probes@,
            ),
            Err(StartError::Invalid(msg)) => exists|i: int| #[trigger]
                first_refused(workspace.repos@, probes@, i) && msg@ == refusal_of(
                    workspace.repos@[i],
                    probes@[i],
                )->0,
            Err(StartError::WorkspaceBusy) => false,
        },
{
    let mut i: usize = 0;
    while i < workspace.repos.len()
        invariant
            i <= workspace.repos@.len(),
            probes@.len() == workspace.repos@.len(),
            forall|j: int|
                0 <= j < i ==> refusal_of(#[trigger] workspace.repos@[j], probes@[j]) is None,
        decreases workspace.repos@.len() - i,
    {
        let repo = &workspace.repos[i];
        let integration = integration_or_default(&repo.integration);
        match gate_base(repo.name.as_str(), integration.as_str(), &probes[i].base) {
            Err(e) => {
                assert(first_refused(workspace.repos@, probes@, i as int));
                return Err(e);
            },
            Ok(()) => {},
        }
        match gate_branch(repo.name.as_str(), integration.as_str(), &probes[i].current) {
            Err(e) => {
                assert(first_refused(workspace.repos@, probes@, i as int));
                return Err(e);
            },
            Ok(()) => {},
        }
        i = i + 1;
    }
    Ok(resolve_repos(workspace))
}

/// A run that was just accepted.
pub open spec fn accepted(
    e: EntryModel,
    id: Seq<char>,
    req: StartRunRequest,
    workspace: Workspace,
    budget: Usd,
) -> bool {
    &&& e.id == id
    &&& e.workspace == workspace.name@
    &&& e.app.goal == req.goal@ && e.app.workspace == workspace.name@
    &&& e.app.phase == app::Phase::Planning && e.app.epics.len() == 0 && e.app.log.len() == 0
    &&& e.app.total_cost == (Usd { bits: 0 }) && e.app.budget == budget && e.app.error is None
    &&& !e.completed
    &&& e.repo_paths == Seq::new(workspace.repos@.len(), |i: int| workspace.repos@[i].path)
    &&& e.repo_names == Seq::new(workspace.repos@.len(), |i: int| workspace.repos@[i].name)
    &&& workspace::is_common_root(workspace.repos@, e.plan_cwd)
    &&& resolved(workspace.repos@, e.repos)
    &&& e.goal == req.goal@
    &&& e.default_verify == match req.verify {
        Some(cmd) => cmd@,
        None => config::DEFAULT_VERIFY_CMD@,
    }
    &&& e.language == req.language
}

/// The runs with the accepted one put in.
pub open spec fn adds_run(
    before: Seq<EntryModel>,
    after: Seq<EntryModel>,
    id: Seq<char>,
    req: StartRunRequest,
    workspace: Workspace,
    budget: Usd,
) -> bool {
    exists|e: EntryModel| #[trigger]
        accepted(e, id, req, workspace, budget) && after == put(before, e)
}

/// What is needed to re-run one epic.
#[derive(Debug, PartialEq)]
pub struct RetryTicket {
    pub ctx: PersistCtx,
    pub initial_cost: Usd,
}

/// What is needed to resume a run: which epics have merged already, the plan
/// that persistence is pinned to, and what the run has cost so far.
#[derive(Debug, PartialEq)]
pub struct ResumeTicket {
    pub ctx: PersistCtx,
    pub merged: Vec<String>,
    pub initial_cost: Usd,
}

/// What is needed to tear a run down: its repositories, and the event to
/// record once its task has ended.
#[derive(Debug, PartialEq)]
pub struct AbortTicket {
    pub ctx: PersistCtx,
    pub repo_paths: Vec<String>,
    pub event: StageEvent,
}

/// The reason recorded for an aborted run.
pub const ABORTED: &'static str = "run aborted";

/// The event tells that the run was aborted.
pub open spec fn tells_abort(ev: StageEvent) -> bool {
    ev matches StageEvent::Fatal { reason } && reason@ == ABORTED@
}

/// The context is the one of the run, with no plan pinned.
pub open spec fn is_ctx(ctx: PersistCtx, e: EntryModel) -> bool {
    &&& ctx.id@ == e.id
    &&& ctx.workspace@ == e.workspace
    &&& ctx.goal@ == e.goal
    &&& ctx.default_verify@ == e.default_verify
    &&& ctx.language == e.language
    &&& ctx.plan_cwd@ == e.plan_cwd
    &&& ctx.repos@ == run::known_repos(e.repo_names, e.repos)
}

/// The first card with the id failed or is in conflict.
pub open spec fn blocked(epics: Seq<app::CardModel>, id: Seq<char>) -> bool {
    exists|i: int| #[trigger]
        app::first_card(epics, id, i) && (epics[i].status == EpicStatus::Failed || epics[i].status
            == EpicStatus::Conflict)
}

/// The ids of the merged cards, in their order.
pub open spec fn merged_ids(epics: Seq<app::CardModel>) -> Seq<Seq<char>>
    decreases epics.len(),
{
    if epics.len() == 0 {
        Seq::empty()
    } else {
        let head = merged_ids(epics.drop_last());
        if epics.last().status == EpicStatus::Merged {
            head.push(epics.last().id)
        } else {
            head
        }
    }
}

fn is_blocked(app: &App, epic_id: &str) -> (r: bool)
    ensures
        r == blocked(app@.epics, epic_id@),
{
    let mut i: usize = 0;
    while i < app.epics.len()
        invariant
            i <= app.epics@.len(),
            forall|j: int| 0 <= j < i ==> (#[trigger] app@.epics[j]).id != epic_id@,
        decreases app.epics@.len() - i,
    {
        assert(app@.epics[i as int] == app.epics@[i as int]@);
        if same(app.epics[i].id.as_str(), epic_id) {
            let status = app.epics[i].status;
            let r = status == EpicStatus::Failed || status == EpicStatus::Conflict;
            proof {
                assert(app::first_card(app@.epics, epic_id@, i as int));
                if blocked(app@.epics, epic_id@) {
                    let k = choose|k: int| #[trigger]
                        app::first_card(app@.epics, epic_id@, k) && (app@.epics[k].status
                            == EpicStatus::Failed || app@.epics[k].status == EpicStatus::Conflict);
                    if k < i {
                        assert(app@.epics[k].id != epic_id@);
                    } else if i < k {
                        assert(app@.epics[i as int].id != epic_id@);
                    }
                }
            }
            return r;
        }
        i = i + 1;
    }
    assert(!blocked(app@.epics, epic_id@));
    false
}

fn merged_of(app: &App) -> (r: Vec<String>)
    ensures
        text::views(r@) == merged_ids(app@.epics),
{
    let mut out: Vec<String> = Vec::new();
    let mut i: usize = 0;
    let ghost cards = app@.epics;
    assert(cards.take(0) =~= Seq::<app::CardModel>::empty());
    assert(text::views(out@) =~= Seq::<Seq<char>>::empty());
    while i < app.epics.len()
        invariant
            i <= app.epics@.len(),
            cards == app@.epics,
            text::views(out@) == merged_ids(cards.take(i as int)),
        decreases app.epics@.len() - i,
    {
        let ghost before = out@;
        proof {
            assert(cards.take(i + 1).drop_last() =~= cards.take(i as int));
            assert(cards.take(i + 1).last() == app.epics@[i as int]@);
        }
        if app.epics[i].status == EpicStatus::Merged {
            out.push(app.epics[i].id.clone());
            proof {
                text::lemma_views_push(before, out@.last());
                assert(out@ =~= before.push(out@.last()));
            }
        }
        i = i + 1;
    }
    assert(cards.take(i as int) =~= cards);
    out
}

impl RunEntry {
    fn ctx(&self) -> (r: PersistCtx)
        requires
            self.repos.wf(),
        ensures
            is_ctx(r, self@),
            r.plan_json is None,
    {
        build_persist_ctx(
            self.id.as_str(),
            self.workspace.as_str(),
            self.goal.as_str(),
            self.default_verify.as_str(),
            self.language,
            self.plan_cwd.as_str(),
            &self.repo_names,
            &self.repos,
        )
    }
}

/// A run's summary.
pub open spec fn summary_of(e: EntryModel) -> dto::SummaryModel {
    dto::SummaryModel {
        id: e.id,
        workspace: e.workspace,
        goal: e.app.goal,
        phase: e.app.phase,
        total_cost: e.app.total_cost,
        epics: e.app.epics,
        repos: text::views(e.repo_names),
    }
}

/// The summaries are sorted by id.
pub open spec fn sorted_by_id(list: Seq<dto::SummaryModel>) -> bool {
    forall|i: int, j: int|
        0 <= i < j < list.len() ==> text::text_le(
            (#[trigger] list[i]).id,
            (#[trigger] list[j]).id,
        )
}

impl Registry {
    /// No two runs share an id, and no map holds a key twice.
    pub closed spec fn wf(self) -> bool {
        &&& unique_runs(self@.runs)
        &&& forall|i: int| 0 <= i < self.runs@.len() ==> (#[trigger] self.runs@[i]).repos.wf()
    }

    /// No two runs of a registry share an id.
    pub proof fn law_runs_have_their_own_ids(self)
        requires
            self.wf(),
        ensures
            unique_runs(self@.runs),
    {
    }

    /// A registry without runs. The first run gets the id 1.
    pub fn new() -> (r: Registry)
        ensures
            r.wf(),
            r@ == (RegistryModel { runs: Seq::empty(), next_id: 1 }),
            exclusive(r@.runs),
            ids_below(r@),
    {
        let r = Registry { runs: Vec::new(), next_id: 1 };
        assert(r@.runs =~= Seq::<EntryModel>::empty());
        r
    }

    fn find(&self, id: &str) -> (r: Option<usize>)
        ensures
            match r {
                Some(i) => run_at(self@.runs, id@, i as int) && i < self.runs@.len(),
                None => !has_run(self@.runs, id@),
            },
    {
        let mut i: usize = 0;
        while i < self.runs.len()
            invariant
                i <= self.runs@.len(),
                forall|j: int| 0 <= j < i ==> (#[trigger] self@.runs[j]).id != id@,
            decreases self.runs@.len() - i,
        {
            assert(self@.runs[i as int] == self.runs@[i as int]@);
            if same(self.runs[i].id.as_str(), id) {
                return Some(i);
            }
            i = i + 1;
        }
        None
    }

    /// The run with the id.
    pub fn get(&self, id: &str) -> (r: Option<&RunEntry>)
        requires
            self.wf(),
        ensures
            match r {
                Some(e) => e.repos.wf() && exists|i: int| #[trigger]
                    run_at(self@.runs, id@, i) && e@ == self@.runs[i],
                None => !has_run(self@.runs, id@),
            },
    {
        match self.find(id) {
            Some(i) => {
                assert(self@.runs[i as int] == self.runs@[i as int]@);
                Some(&self.runs[i])
            },
            None => None,
        }
    }

    fn is_busy(&self, workspace: &str) -> (r: bool)
        ensures
            r == busy(self@.runs, workspace@),
    {
        let mut i: usize = 0;
        while i < self.runs.len()
            invariant
                i <= self.runs@.len(),
                forall|j: int|
                    0 <= j < i ==> !((#[trigger] self@.runs[j]).workspace == workspace@
                        && !self@.runs[j].completed),
            decreases self.runs@.len() - i,
        {
            assert(self@.runs[i as int] == self.runs@[i as int]@);
            if !self.runs[i].completed && same(self.runs[i].workspace.as_str(), workspace) {
                return true;
            }
            i = i + 1;
        }
        false
    }

    fn insert(&mut self, e: RunEntry)
        requires
            old(self).wf(),
            e.repos.wf(),
        ensures
            final(self).wf(),
            final(self)@ == (RegistryModel { runs: put(old(self)@.runs, e@), ..old(self)@ }),
    {
        let ghost before = *self;
        match self.find(e.id.as_str()) {
            Some(i) => {
                proof {
                    assert(run_at(before@.runs, e@.id, i as int));
                    lemma_run_at_unique(before@.runs, e@.id, i as int);
                }
                self.runs.set(i, e);
                proof {
                    assert(self@.runs =~= before@.runs.update(i as int, e@));
                    lemma_update_unique(before@.runs, i as int, e@);
                }
            },
            None => {
                self.runs.push(e);
                proof {
                    assert(self@.runs =~= before@.runs.push(e@));
                    assert forall|a: int, b: int| 0 <= a < b < self@.runs.len() implies (
                    #[trigger] self@.runs[a]).id != (#[trigger] self@.runs[b]).id by {
                        assert(self@.runs[a] == before@.runs[a]);
                        if b < before@.runs.len() {
                            assert(self@.runs[b] == before@.runs[b]);
                        } else {
                            assert(!run_at(before@.runs, e@.id, a));
                        }
                    }
                }
            },
        }
    }

    /// Accept a run of a workspace whose repositories are at their paths;
    /// `probes` says what git says of each of them. Refused when the workspace
    /// has no repository, when a repository cannot take part, or when the
    /// workspace already has a run in flight.
    pub fn start(
        &mut self,
        req: &StartRunRequest,
        workspace: &Workspace,
        probes: &Vec<RefProbe>,
        budget: Usd,
    ) -> (r: Result<String, StartError>)
        requires
            old(self).wf(),
            probes@.len() == workspace.repos@.len(),
        ensures
            final(self).wf(),
            exclusive(old(self)@.runs) ==> exclusive(final(self)@.runs),
            ids_below(old(self)@) && old(self)@.next_id < u64::MAX ==> ids_below(final(self)@),
            match r {
                Err(StartError::Invalid(msg)) => final(self)@ == old(self)@ && if workspace.repos@.len()
                    == 0 {
                    msg@ == "a run needs at least one repository"@
                } else {
                    exists|i: int| #[trigger]
                        first_refused(workspace.repos@, probes@, i) && msg@ == refusal_of(
                            workspace.repos@[i],
                            probes@[i],
                        )->0
                },
                Err(StartError::WorkspaceBusy) => workspace.repos@.len() > 0 && none_refused(
                    workspace.repos@,
                    probes@,
                ) && busy(old(self)@.runs, workspace.name@) && final(self)@ == old(self)@,
                Ok(id) => {
                    &&& workspace.repos@.len() > 0
                    &&& none_refused(workspace.repos@, probes@)
                    &&& !busy(old(self)@.runs, workspace.name@)
                    &&& id@ == text::decimal_of(old(self)@.next_id as nat)
                    &&& final(self)@.next_id == if old(self)@.next_id == u64::MAX {
                        0
                    } else {
                        (old(self)@.next_id + 1) as u64
                    }
                    &&& adds_run(
                        old(self)@.runs,
                        final(self)@.runs,
                        id@,
                        *req,
                        *workspace,
                        budget,
                    )
                },
            },
    {
        if workspace.repos.len() == 0 {
            return Err(StartError::Invalid("a run needs at least one repository".to_string()));
        }
        let repos = match check_repos(workspace, probes) {
            Ok(repos) => repos,
            Err(e) => {
                return Err(e);
            },
        };
        if self.is_busy(workspace.name.as_str()) {
            return Err(StartError::WorkspaceBusy);
        }
        let ghost before = *self;
        let id = decimal(self.next_id);
        if self.next_id == u64::MAX {
            self.next_id = 0;
        } else {
            self.next_id = self.next_id + 1;
        }
        let mut repo_paths: Vec<String> = Vec::new();
        let mut repo_names: Vec<String> = Vec::new();
        let mut i: usize = 0;
        while i < workspace.repos.len()
            invariant
                i <= workspace.repos@.len(),
                repo_paths@ == Seq::new(i as nat, |j: int| workspace.repos@[j].path),
                repo_names@ == Seq::new(i as nat, |j: int| workspace.repos@[j].name),
            decreases workspace.repos@.len() - i,
        {
            repo_paths.push(workspace.repos[i].path.clone());
            repo_names.push(workspace.repos[i].name.clone());
            i = i + 1;
            assert(repo_paths@ =~= Seq::new(i as nat, |j: int| workspace.repos@[j].path));
            assert(repo_names@ =~= Seq::new(i as nat, |j: int| workspace.repos@[j].name));
        }
        let default_verify = match &req.verify {
            Some(cmd) => cmd.clone(),
            None => config::DEFAULT_VERIFY_CMD.to_string(),
        };
        let entry = RunEntry {
            id: id.clone(),
            workspace: workspace.name.clone(),
            app: App::new(req.goal.clone(), workspace.name.clone(), budget),
            completed: false,
            repo_paths,
            repo_names,
            plan_cwd: common_root(workspace),
            repos,
            goal: req.goal.clone(),
            default_verify,
            language: req.language,
        };
        assert(accepted(entry@, id@, *req, *workspace, budget));
        assert(self@.runs =~= before@.runs);
        self.insert(entry);
        proof {
            if exclusive(before@.runs) {
                law_start_keeps_exclusive(before@.runs, entry@);
            }
            if ids_below(before@) && before@.next_id < u64::MAX {
                law_new_ids_are_free(before@, entry@);
                assert(self@ =~= (RegistryModel {
                    runs: put(before@.runs, entry@),
                    next_id: (before@.next_id + 1) as u64,
                }));
            }
        }
        assert(adds_run(before@.runs, self@.runs, id@, *req, *workspace, budget));
        Ok(id)
    }

    fn set_completed(&mut self, i: usize, completed: bool)
        requires
            old(self).wf(),
            i < old(self)@.runs.len(),
        ensures
            final(self).wf(),
            final(self)@ == (RegistryModel {
                runs: with_completed(old(self)@.runs, i as int, completed),
                ..old(self)@
            }),
    {
        let ghost before = *self;
        let ghost runs = self.runs@;
        assert(before@.runs[i as int] == runs[i as int]@);
        self.runs[i].completed = completed;
        proof {
            assert(self.runs@ =~= runs.update(i as int, self.runs@[i as int]));
            assert(self@.runs =~= with_completed(before@.runs, i as int, completed));
            lemma_update_unique(before@.runs, i as int, self@.runs[i as int]);
        }
    }

    /// Claim a finished run for re-running one blocked epic. Refused for an
    /// unknown run, a run still in flight, and an epic that neither failed nor
    /// is in conflict. On success the run counts as active again. Other runs of
    /// the workspace are not looked at.
    pub fn retry(&mut self, run_id: &str, epic_id: &str) -> (r: Result<RetryTicket, RetryError>)
        requires
            old(self).wf(),
        ensures
            final(self).wf(),
            exclusive(old(self)@.runs) && (forall|i: int| #[trigger]
                run_at(old(self)@.runs, run_id@, i) ==> !busy(
                    old(self)@.runs,
                    old(self)@.runs[i].workspace,
                )) ==> exclusive(final(self)@.runs),
            ids_below(old(self)@) ==> ids_below(final(self)@),
            match r {
                Err(RetryError::NotFound) => !has_run(old(self)@.runs, run_id@) && final(self)@
                    == old(self)@,
                Err(RetryError::RunActive) => exists|i: int| #[trigger]
                    run_at(old(self)@.runs, run_id@, i) && !old(self)@.runs[i].completed
                        && final(self)@ == old(self)@,
                Err(RetryError::NotBlocked) => exists|i: int| #[trigger]
                    run_at(old(self)@.runs, run_id@, i) && old(self)@.runs[i].completed && !blocked(
                        old(self)@.runs[i].app.epics,
                        epic_id@,
                    ) && final(self)@ == old(self)@,
                Ok(ticket) => exists|i: int| #[trigger]
                    run_at(old(self)@.runs, run_id@, i) && old(self)@.runs[i].completed && blocked(
                        old(self)@.runs[i].app.epics,
                        epic_id@,
                    ) && is_ctx(ticket.ctx, old(self)@.runs[i]) && ticket.ctx.plan_json is None
                        && ticket.initial_cost == old(self)@.runs[i].app.total_cost && final(self)@
                        == (RegistryModel {
                        runs: with_completed(old(self)@.runs, i, false),
                        ..old(self)@
                    }),
            },
    {
        match self.find(run_id) {
            None => Err(RetryError::NotFound),
            Some(i) => {
                assert(self@.runs[i as int] == self.runs@[i as int]@);
                if !self.runs[i].completed {
                    return Err(RetryError::RunActive);
                }
                if !is_blocked(&self.runs[i].app, epic_id) {
                    return Err(RetryError::NotBlocked);
                }
                let ctx = self.runs[i].ctx();
                let initial_cost = self.runs[i].app.total_cost;
                let ghost before = self@.runs;
                self.set_completed(i, false);
                proof {
                    if exclusive(before) && !busy(before, before[i as int].workspace) {
                        law_claiming_keeps_exclusive(before, i as int);
                    }
                    assert(run_at(before, run_id@, i as int));
                }
                Ok(RetryTicket { ctx, initial_cost })
            },
        }
    }

    /// Claim a finished run for re-running every epic that has not merged.
    /// `saved` is what the disk store holds of the run: nothing, a plan that
    /// could not be read, or the text of its plan. Refused for a run that is
    /// not stored or unknown, without a readable plan, still in flight, or
    /// with nothing left to resume. On success the run counts as active again,
    /// and persistence is pinned to the saved plan. Other runs of the workspace
    /// are not looked at.
    pub fn resume(&mut self, run_id: &str, saved: &Option<Result<String, ()>>) -> (r: Result<
        ResumeTicket,
        ResumeError,
    >)
        requires
            old(self).wf(),
        ensures
            final(self).wf(),
            exclusive(old(self)@.runs) && (forall|i: int| #[trigger]
                run_at(old(self)@.runs, run_id@, i) ==> !busy(
                    old(self)@.runs,
                    old(self)@.runs[i].workspace,
                )) ==> exclusive(final(self)@.runs),
            ids_below(old(self)@) ==> ids_below(final(self)@),
            match r {
                Err(ResumeError::NotFound) => (*saved is None || ((*saved)->0 is Ok && !has_run(
                    old(self)@.runs,
                    run_id@,
                ))) && final(self)@ == old(self)@,
                Err(ResumeError::NoPlan) => *saved is Some && (*saved)->0 is Err && final(self)@
                    == old(self)@,
                Err(ResumeError::RunActive) => *saved is Some && (*saved)->0 is Ok && exists|i: int|
                    #[trigger] run_at(old(self)@.runs, run_id@, i) && !old(self)@.runs[i].completed
                        && final(self)@ == old(self)@,
                Err(ResumeError::NotResumable) => *saved is Some && (*saved)->0 is Ok && exists|
                    i: int,
                | #[trigger]
                    run_at(old(self)@.runs, run_id@, i) && old(self)@.runs[i].completed
                        && !run::can_resume(old(self)@.runs[i].app) && final(self)@ == old(self)@,
                Ok(ticket) => *saved is Some && (*saved)->0 is Ok && exists|i: int| #[trigger]
                    run_at(old(self)@.runs, run_id@, i) && old(self)@.runs[i].completed
                        && run::can_resume(old(self)@.runs[i].app) && is_ctx(
                        ticket.ctx,
                        old(self)@.runs[i],
                    ) && text::opt_view(ticket.ctx.plan_json) == Some(((*saved)->0)->Ok_0@)
                        && text::views(ticket.merged@) == merged_ids(old(self)@.runs[i].app.epics)
                        && ticket.initial_cost == old(self)@.runs[i].app.total_cost && final(self)@
                        == (RegistryModel {
                        runs: with_completed(old(self)@.runs, i, false),
                        ..old(self)@
                    }),
            },
    {
        let plan = match saved {
            None => {
                return Err(ResumeError::NotFound);
            },
            Some(Err(())) => {
                return Err(ResumeError::NoPlan);
            },
            Some(Ok(plan)) => plan.clone(),
        };
        match self.find(run_id) {
            None => Err(ResumeError::NotFound),
            Some(i) => {
                assert(self@.runs[i as int] == self.runs@[i as int]@);
                if !self.runs[i].completed {
                    return Err(ResumeError::RunActive);
                }
                if !resumable(&self.runs[i].app) {
                    return Err(ResumeError::NotResumable);
                }
                let merged = merged_of(&self.runs[i].app);
                let initial_cost = self.runs[i].app.total_cost;
                let mut ctx = self.runs[i].ctx();
                ctx.plan_json = Some(plan);
                let ghost before = self@.runs;
                self.set_completed(i, false);
                proof {
                    if exclusive(before) && !busy(before, before[i as int].workspace) {
                        law_claiming_keeps_exclusive(before, i as int);
                    }
                    assert(run_at(before, run_id@, i as int));
                }
                Ok(ResumeTicket { ctx, merged, initial_cost })
            },
        }
    }

    /// Mark a run in flight as completed so that it can be torn down. Nothing
    /// happens for an unknown or already finished run. The run stays listed.
    pub fn abort(&mut self, id: &str) -> (r: Option<AbortTicket>)
        requires
            old(self).wf(),
        ensures
            final(self).wf(),
            exclusive(old(self)@.runs) ==> exclusive(final(self)@.runs),
            ids_below(old(self)@) ==> ids_below(final(self)@),
            match r {
                None => not_in_flight(old(self)@.runs, id@) && final(self)@ == old(self)@,
                Some(ticket) => exists|i: int| #[trigger]
                    run_at(old(self)@.runs, id@, i) && !old(self)@.runs[i].completed && is_ctx(
                        ticket.ctx,
                        old(self)@.runs[i],
                    ) && ticket.ctx.plan_json is None && tells_abort(ticket.event)
                        && ticket.repo_paths@ == old(self)@.runs[i].repo_paths && final(self)@ == (RegistryModel {
                        runs: with_completed(old(self)@.runs, i, true),
                        ..old(self)@
                    }),
            },
    {
        match self.find(id) {
            None => {
                assert forall|i: int| #[trigger] run_at(self@.runs, id@, i) implies self@.runs[i].completed by {
                    assert(has_run(self@.runs, id@));
                }
                None
            },
            Some(i) => {
                assert(self@.runs[i as int] == self.runs@[i as int]@);
                if self.runs[i].completed {
                    proof {
                        assert forall|k: int| #[trigger] run_at(self@.runs, id@, k) implies self@.runs[k].completed by {
                            lemma_run_at_unique(self@.runs, id@, i as int);
                            assert(k == i);
                        }
                    }
                    return None;
                }
                let ctx = self.runs[i].ctx();
                let repo_paths = clone_texts(&self.runs[i].repo_paths);
                let ghost before = self@.runs;
                self.set_completed(i, true);
                proof {
                    if exclusive(before) {
                        law_completing_keeps_exclusive(before, i as int, self@.runs[i as int]);
                    }
                }
                let event = StageEvent::Fatal { reason: ABORTED.to_string() };
                Some(AbortTicket { ctx, repo_paths, event })
            },
        }
    }

    /// Apply an event to a run. Returns the snapshot to send to subscribers,
    /// and whether to persist it; none for an unknown run. Where
    /// `ends_the_run` is set, the run is completed by `Done` and `Fatal`.
    pub fn record(&mut self, id: &str, ev: StageEvent, ends_the_run: bool) -> (r: Option<
        (App, bool),
    >)
        requires
            old(self).wf(),
        ensures
            final(self).wf(),
            exclusive(old(self)@.runs) ==> exclusive(final(self)@.runs),
            ids_below(old(self)@) ==> ids_below(final(self)@),
            match r {
                None => !has_run(old(self)@.runs, id@) && final(self)@ == old(self)@,
                Some((snapshot, persist)) => exists|i: int| #[trigger]
                    run_at(old(self)@.runs, id@, i) && final(self)@ == (RegistryModel {
                        runs: old(self)@.runs.update(
                            i,
                            recorded(old(self)@.runs[i], ev, ends_the_run),
                        ),
                        ..old(self)@
                    }) && snapshot@ == old(self)@.runs[i].app.after(ev) && persist == !run::streams(
                        ev,
                    ),
            },
    {
        match self.find(id) {
            None => None,
            Some(i) => {
                let ghost before = *self;
                let ghost runs = self.runs@;
                assert(before@.runs[i as int] == runs[i as int]@);
                let ends: bool = match &ev {
                    StageEvent::Done => true,
                    StageEvent::Fatal { .. } => true,
                    _ => false,
                };
                let persist = should_persist(&ev);
                self.runs[i].app.apply_stage(ev);
                if ends_the_run && ends {
                    self.runs[i].completed = true;
                }
                let snapshot = self.runs[i].app.clone();
                proof {
                    let e = recorded(before@.runs[i as int], ev, ends_the_run);
                    assert(self.runs@ =~= runs.update(i as int, self.runs@[i as int]));
                    assert(self.runs@[i as int]@ =~= e);
                    assert(self@.runs =~= before@.runs.update(i as int, e));
                    lemma_update_unique(before@.runs, i as int, e);
                    assert(run_at(before@.runs, id@, i as int));
                    if exclusive(before@.runs) {
                        law_completing_keeps_exclusive(before@.runs, i as int, e);
                    }
                }
                Some((snapshot, persist))
            },
        }
    }

    /// Mark a run as completed: the events of its task have ended.
    pub fn close(&mut self, id: &str)
        requires
            old(self).wf(),
        ensures
            final(self).wf(),
            exclusive(old(self)@.runs) ==> exclusive(final(self)@.runs),
            ids_below(old(self)@) ==> ids_below(final(self)@),
            has_run(old(self)@.runs, id@) ==> exists|i: int| #[trigger]
                run_at(old(self)@.runs, id@, i) && final(self)@ == (RegistryModel {
                    runs: with_completed(old(self)@.runs, i, true),
                    ..old(self)@
                }),
            !has_run(old(self)@.runs, id@) ==> final(self)@ == old(self)@,
    {
        if let Some(i) = self.find(id) {
            assert(run_at(self@.runs, id@, i as int));
            let ghost before = self@.runs;
            self.set_completed(i, true);
            proof {
                if exclusive(before) {
                    law_completing_keeps_exclusive(before, i as int, self@.runs[i as int]);
                }
            }
        }
    }

    /// A snapshot of every run (active and finished), sorted by id.
    pub fn list(&self) -> (r: Vec<RunSummary>)
        requires
            self.wf(),
        ensures
            sorted_by_id(text::views(r@)),
            text::views(r@).to_multiset() == Seq::new(
                self@.runs.len(),
                |i: int| summary_of(self@.runs[i]),
            ).to_multiset(),
    {
        let mut out: Vec<RunSummary> = Vec::new();
        let ghost all = Seq::new(self@.runs.len(), |i: int| summary_of(self@.runs[i]));
        let mut i: usize = 0;
        assert(all.take(0) =~= text::views(out@));
        while i < self.runs.len()
            invariant
                self.wf(),
                i <= self.runs@.len(),
                all == Seq::new(self@.runs.len(), |i: int| summary_of(self@.runs[i])),
                sorted_by_id(text::views(out@)),
                text::views(out@).to_multiset() == all.take(i as int).to_multiset(),
            decreases self.runs@.len() - i,
        {
            let e = &self.runs[i];
            let summary = RunSummary {
                id: e.id.clone(),
                workspace: e.workspace.clone(),
                goal: e.app.goal.clone(),
                phase: e.app.phase,
                total_cost: e.app.total_cost,
                epics: clone_cards(&e.app.epics),
                repos: clone_texts(&e.repo_names),
            };
            assert(summary@ =~= all[i as int]);
            insert_summary(&mut out, summary);
            proof {
                all.take(i as int).to_multiset_ensures();
                assert(all.take(i + 1) =~= all.take(i as int).push(all[i as int]));
            }
            i = i + 1;
        }
        assert(all.take(i as int) =~= all);
        out
    }

    /// Rebuild the registry from what the disk store holds. Every run is
    /// recovered and completed, and the next id is moved past the largest one.
    pub fn rehydrate(&mut self, persisted: Vec<PersistedRun>)
        requires
            old(self).wf(),
            run::room_for_more(run::stored_ids(persisted@)),
        ensures
            final(self).wf(),
            exclusive(old(self)@.runs) ==> exclusive(final(self)@.runs),
            old(self)@.runs.len() == 0 ==> ids_below(final(self)@),
            persisted@.len() == 0 ==> final(self)@ == old(self)@,
            persisted@.len() > 0 ==> final(self)@.runs == restored(
                old(self)@.runs,
                text::views(persisted@),
            ) && final(self)@.next_id == run::next_id_of(run::stored_ids(persisted@)),
    {
        if persisted.len() == 0 {
            return;
        }
        let next_id = next_id_after(&persisted);
        let ghost start = self@;
        let ghost all = text::views(persisted@);
        let mut i: usize = 0;
        assert(all.take(0) =~= Seq::<run_store::PersistedModel>::empty());
        while i < persisted.len()
            invariant
                i <= persisted@.len(),
                all == text::views(persisted@),
                self.wf(),
                self@.runs == restored(start.runs, all.take(i as int)),
            decreases persisted@.len() - i,
        {
            let entry = restore(&persisted[i]);
            proof {
                assert(all.take(i + 1).drop_last() =~= all.take(i as int));
                assert(all.take(i + 1).last() == persisted@[i as int]@);
            }
            self.insert(entry);
            i = i + 1;
        }
        assert(all.take(i as int) =~= all);
        proof {
            if exclusive(start.runs) {
                law_restoring_keeps_exclusive(start.runs, all);
            }
            if start.runs.len() == 0 {
                assert(start.runs =~= Seq::<EntryModel>::empty());
                assert(run::stored_ids(persisted@) =~= Seq::new(all.len(), |i: int| all[i].id));
                law_rebuilt_ids_are_below(all, run::stored_ids(persisted@), next_id);
            }
        }
        self.next_id = next_id;
    }
}

/// A run with an event applied.
pub open spec fn recorded(e: EntryModel, ev: StageEvent, ends_the_run: bool) -> EntryModel {
    EntryModel {
        app: e.app.after(ev),
        completed: e.completed || (ends_the_run && (ev is Done || ev is Fatal)),
        ..e
    }
}

/// The repositories of a persisted run: the last one of each name.
pub open spec fn persisted_repos(repos: Seq<PersistedRepo>) -> Map<Seq<char>, RepoRun>
    decreases repos.len(),
{
    if repos.len() == 0 {
        Map::empty()
    } else {
        let r = repos.last();
        persisted_repos(repos.drop_last()).insert(
            r.name@,
            RepoRun {
                path: r.path,
                base_ref: r.base_ref,
                integration_branch: r.integration_branch,
            },
        )
    }
}

/// The run that a persisted one is restored as: recovered and completed.
pub open spec fn restored_entry(p: run_store::PersistedModel) -> EntryModel {
    EntryModel {
        id: p.id,
        workspace: p.workspace,
        app: run::recovered(p.app),
        completed: true,
        repo_paths: Seq::new(p.repos.len(), |i: int| p.repos[i].path),
        repo_names: Seq::new(p.repos.len(), |i: int| p.repos[i].name),
        plan_cwd: p.plan_cwd,
        repos: persisted_repos(p.repos),
        goal: p.goal,
        default_verify: p.default_verify,
        language: p.language,
    }
}

/// The runs with the persisted ones put in, one after the other.
pub open spec fn restored(
    runs: Seq<EntryModel>,
    persisted: Seq<run_store::PersistedModel>,
) -> Seq<EntryModel>
    decreases persisted.len(),
{
    if persisted.len() == 0 {
        runs
    } else {
        put(restored(runs, persisted.drop_last()), restored_entry(persisted.last()))
    }
}

fn restore(p: &PersistedRun) -> (r: RunEntry)
    ensures
        r.repos.wf(),
        r@ == restored_entry(p@),
{
    let mut app = p.app.clone();
    recover_interrupted(&mut app);
    let mut repos: StrMap<RepoRun> = StrMap::new();
    let mut repo_paths: Vec<String> = Vec::new();
    let mut repo_names: Vec<String> = Vec::new();
    let mut i: usize = 0;
    assert(p.repos@.take(0) =~= Seq::<PersistedRepo>::empty());
    while i < p.repos.len()
        invariant
            i <= p.repos@.len(),
            repos.wf(),
            repos@ == persisted_repos(p.repos@.take(i as int)),
            repo_paths@ == Seq::new(i as nat, |j: int| p.repos@[j].path),
            repo_names@ == Seq::new(i as nat, |j: int| p.repos@[j].name),
        decreases p.repos@.len() - i,
    {
        let repo = &p.repos[i];
        repos.insert(
            repo.name.clone(),
            RepoRun {
                path: repo.path.clone(),
                base_ref: repo.base_ref.clone(),
                integration_branch: repo.integration_branch.clone(),
            },
        );
        repo_paths.push(repo.path.clone());
        repo_names.push(repo.name.clone());
        proof {
            assert(p.repos@.take(i + 1).drop_last() =~= p.repos@.take(i as int));
            assert(p.repos@.take(i + 1).last() == p.repos@[i as int]);
        }
        i = i + 1;
        assert(repo_paths@ =~= Seq::new(i as nat, |j: int| p.repos@[j].path));
        assert(repo_names@ =~= Seq::new(i as nat, |j: int| p.repos@[j].name));
    }
    assert(p.repos@.take(i as int) =~= p.repos@);
    let r = RunEntry {
        id: p.id.clone(),
        workspace: p.workspace.clone(),
        app,
        completed: true,
        repo_paths,
        repo_names,
        plan_cwd: p.plan_cwd.clone(),
        repos,
        goal: p.goal.clone(),
        default_verify: p.default_verify.clone(),
        language: p.language,
    };
    assert(r@ =~= restored_entry(p@));
    r
}

fn insert_summary(out: &mut Vec<RunSummary>, s: RunSummary)
    requires
        sorted_by_id(text::views(old(out)@)),
    ensures
        sorted_by_id(text::views(final(out)@)),
        text::views(final(out)@).to_multiset() == text::views(old(out)@).to_multiset().insert(s@),
{
    let ghost v = text::views(out@);
    let ghost before = out@;
    let mut p: usize = 0;
    while p < out.len() && text_not_after(out[p].id.as_str(), s.id.as_str())
        invariant
            p <= out@.len(),
            out@ == before,
            v == text::views(before),
            forall|j: int| 0 <= j < p ==> text::text_le((#[trigger] v[j]).id, s@.id),
        decreases out@.len() - p,
    {
        assert(v[p as int] == out@[p as int]@);
        p = p + 1;
    }
    proof {
        if p < before.len() {
            assert(v[p as int] == before[p as int]@);
            text::law_text_order(s@.id, v[p as int].id, s@.id);
            assert forall|j: int| p <= j < v.len() implies text::text_le(
                s@.id,
                (#[trigger] v[j]).id,
            ) by {
                if j > p {
                    assert(text::text_le(v[p as int].id, v[j].id));
                    text::law_text_order(s@.id, v[p as int].id, v[j].id);
                }
            }
        }
    }
    out.insert(p, s);
    proof {
        let w = text::views(out@);
        assert(w =~= v.insert(p as int, s@));
        crate::paths::lemma_insert_multiset(v, p as int, s@);
        assert forall|a: int, b: int| 0 <= a < b < w.len() implies text::text_le(
            (#[trigger] w[a]).id,
            (#[trigger] w[b]).id,
        ) by {
            let a0 = if a < p { a } else { a - 1 };
            let b0 = if b < p { b } else { b - 1 };
            if a != p {
                assert(w[a] == v[a0]);
            }
            if b != p {
                assert(w[b] == v[b0]);
            }
        }
    }
}

proof fn lemma_run_at_unique(runs: Seq<EntryModel>, id: Seq<char>, i: int)
    requires
        unique_runs(runs),
        run_at(runs, id, i),
    ensures
        forall|k: int| #[trigger] run_at(runs, id, k) ==> k == i,
        has_run(runs, id),
        (choose|k: int| run_at(runs, id, k)) == i,
{
    assert forall|k: int| #[trigger] run_at(runs, id, k) implies k == i by {
        if k < i {
            assert(runs[k].id != runs[i].id);
        } else if i < k {
            assert(runs[i].id != runs[k].id);
        }
    }
    let k = choose|k: int| run_at(runs, id, k);
    assert(run_at(runs, id, k));
}

proof fn lemma_update_unique(runs: Seq<EntryModel>, i: int, e: EntryModel)
    requires
        unique_runs(runs),
        0 <= i < runs.len(),
        e.id == runs[i].id,
    ensures
        unique_runs(runs.update(i, e)),
{
    let w = runs.update(i, e);
    assert forall|a: int, b: int| 0 <= a < b < w.len() implies (#[trigger] w[a]).id != (
    #[trigger] w[b]).id by {
        assert(runs[a].id != runs[b].id);
    }
}

/// Accepting a run keeps every workspace at one run in flight.
pub proof fn law_start_keeps_exclusive(runs: Seq<EntryModel>, e: EntryModel)
    requires
        unique_runs(runs),
        exclusive(runs),
        !busy(runs, e.workspace),
    ensures
        exclusive(put(runs, e)),
{
    let w = put(runs, e);
    let at = if has_run(runs, e.id) {
        choose|i: int| run_at(runs, e.id, i)
    } else {
        runs.len() as int
    };
    if has_run(runs, e.id) {
        assert(run_at(runs, e.id, at));
    }
    assert forall|i: int, j: int|
        0 <= i < j < w.len() && (#[trigger] w[i]).workspace == (
        #[trigger] w[j]).workspace implies w[i].completed || w[j].completed by {
        if i == at {
            assert(w[j] == runs[j]);
        } else if j == at {
            assert(w[i] == runs[i]);
        } else {
            assert(w[i] == runs[i] && w[j] == runs[j]);
        }
    }
}

/// Completing a run, by an abort, by its end or by an event, keeps every
/// workspace at one run in flight.
pub proof fn law_completing_keeps_exclusive(runs: Seq<EntryModel>, i: int, e: EntryModel)
    requires
        exclusive(runs),
        0 <= i < runs.len(),
        e.workspace == runs[i].workspace,
        runs[i].completed ==> e.completed,
    ensures
        exclusive(runs.update(i, e)),
{
    let w = runs.update(i, e);
    assert forall|a: int, b: int|
        0 <= a < b < w.len() && (#[trigger] w[a]).workspace == (
        #[trigger] w[b]).workspace implies w[a].completed || w[b].completed by {
        assert(runs[a].workspace == runs[b].workspace);
    }
}

/// Claiming a finished run again, to retry an epic or to resume it, keeps
/// every workspace at one run in flight as long as no other run of its
/// workspace is in flight.
pub proof fn law_claiming_keeps_exclusive(runs: Seq<EntryModel>, i: int)
    requires
        exclusive(runs),
        0 <= i < runs.len(),
        !busy(runs, runs[i].workspace),
    ensures
        exclusive(with_completed(runs, i, false)),
{
    let w = with_completed(runs, i, false);
    assert forall|a: int, b: int|
        0 <= a < b < w.len() && (#[trigger] w[a]).workspace == (
        #[trigger] w[b]).workspace implies w[a].completed || w[b].completed by {
        assert(runs[a].workspace == runs[b].workspace);
        if a != i {
            assert(w[a] == runs[a]);
        }
        if b != i {
            assert(w[b] == runs[b]);
        }
    }
}

/// Restoring runs from disk keeps every workspace at one run in flight: a
/// restored run is never in flight.
pub proof fn law_restoring_keeps_exclusive(
    runs: Seq<EntryModel>,
    persisted: Seq<run_store::PersistedModel>,
)
    requires
        exclusive(runs),
    ensures
        exclusive(restored(runs, persisted)),
    decreases persisted.len(),
{
    if persisted.len() > 0 {
        law_restoring_keeps_exclusive(runs, persisted.drop_last());
        let head = restored(runs, persisted.drop_last());
        let e = restored_entry(persisted.last());
        let w = put(head, e);
        let at = if has_run(head, e.id) {
            choose|i: int| run_at(head, e.id, i)
        } else {
            head.len() as int
        };
        if has_run(head, e.id) {
            assert(run_at(head, e.id, at));
        }
        assert forall|i: int, j: int|
            0 <= i < j < w.len() && (#[trigger] w[i]).workspace == (
            #[trigger] w[j]).workspace implies w[i].completed || w[j].completed by {
            if i != at && j != at {
                assert(w[i] == head[i] && w[j] == head[j]);
            }
        }
    }
}

/// A new run's id is not one that is taken, as long as every numeric id is
/// below the next one; and it stays so.
pub proof fn law_new_ids_are_free(m: RegistryModel, e: EntryModel)
    requires
        ids_below(m),
        m.next_id < u64::MAX,
        e.id == text::decimal_of(m.next_id as nat),
    ensures
        !has_run(m.runs, e.id),
        ids_below(RegistryModel { runs: put(m.runs, e), next_id: (m.next_id + 1) as u64 }),
{
    text::law_decimal_reads_back(m.next_id);
    if has_run(m.runs, e.id) {
        let i = choose|i: int| run_at(m.runs, e.id, i);
        assert(m.runs[i].id == e.id);
    }
    let w = put(m.runs, e);
    assert forall|i: int| 0 <= i < w.len() implies match text::number_of((#[trigger] w[i]).id) {
        Some(n) => n < (m.next_id + 1) as u64,
        None => true,
    } by {
        if i < m.runs.len() {
            assert(w[i] == m.runs[i]);
        }
    }
}

/// After a registry without runs was rebuilt from disk, every numeric id is
/// below the next one.
pub proof fn law_rebuilt_ids_are_below(
    persisted: Seq<run_store::PersistedModel>,
    ids: Seq<Seq<char>>,
    next_id: u64,
)
    requires
        ids == Seq::new(persisted.len(), |i: int| persisted[i].id),
        next_id == run::next_id_of(ids),
    ensures
        ids_below(RegistryModel { runs: restored(Seq::empty(), persisted), next_id }),
{
    lemma_restored_ids(persisted, persisted.len() as int);
    assert(persisted.take(persisted.len() as int) =~= persisted);
    let runs = restored(Seq::empty(), persisted);
    assert forall|i: int| 0 <= i < runs.len() implies match text::number_of(
        (#[trigger] runs[i]).id,
    ) {
        Some(n) => n < next_id,
        None => true,
    } by {
        let k = choose|k: int| 0 <= k < persisted.len() && (#[trigger] persisted[k]).id == runs[i].id;
        assert(ids[k] == runs[i].id);
        if text::number_of(ids[k]) is Some {
            run::law_next_id_is_new(ids, k);
        }
    }
}

proof fn lemma_restored_ids(persisted: Seq<run_store::PersistedModel>, n: int)
    requires
        0 <= n <= persisted.len(),
    ensures
        forall|i: int|
            0 <= i < restored(Seq::empty(), persisted.take(n)).len() ==> exists|k: int|
                0 <= k < n && (#[trigger] persisted[k]).id == (#[trigger] restored(
                    Seq::empty(),
                    persisted.take(n),
                )[i]).id,
    decreases n,
{
    if n > 0 {
        lemma_restored_ids(persisted, n - 1);
        assert(persisted.take(n).drop_last() =~= persisted.take(n - 1));
        let head = restored(Seq::empty(), persisted.take(n - 1));
        let e = restored_entry(persisted[n - 1]);
        let w = restored(Seq::empty(), persisted.take(n));
        assert(w == put(head, e));
        if has_run(head, e.id) {
            let at = choose|i: int| run_at(head, e.id, i);
            assert(run_at(head, e.id, at));
        }
        assert forall|i: int| 0 <= i < w.len() implies exists|k: int|
            0 <= k < n && (#[trigger] persisted[k]).id == (#[trigger] w[i]).id by {
            if w[i] == e {
                assert(persisted[n - 1].id == w[i].id);
            } else {
                assert(w[i] == head[i]);
                let k = choose|k: int| 0 <= k < n - 1 && (#[trigger] persisted[k]).id == head[i].id;
                assert(persisted[k].id == w[i].id);
            }
        }
    }
}

/// An aborted run is over and shows as failed with the reason of the abort,
/// once its event was recorded; it stays in its place, keeps its epics as they
/// were, and no other run changes.
pub proof fn law_aborted_runs_have_failed(
    runs: Seq<EntryModel>,
    i: int,
    ev: StageEvent,
    ends_the_run: bool,
)
    requires
        0 <= i < runs.len(),
        tells_abort(ev),
    ensures
        ({
            let claimed = with_completed(runs, i, true);
            let after = claimed.update(i, recorded(claimed[i], ev, ends_the_run));
            &&& after.len() == runs.len()
            &&& after[i].completed
            &&& after[i].id == runs[i].id
            &&& after[i].app.phase == app::Phase::Failed
            &&& after[i].app.error == Some(ABORTED@)
            &&& after[i].app.epics == runs[i].app.epics
            &&& forall|k: int| 0 <= k < runs.len() && k != i ==> #[trigger] after[k] == runs[k]
        }),
{
}

/// A repository of an accepted run that sets neither ref branches its epics
/// from `HEAD` and merges them into `agentic-integration`.
pub proof fn law_unset_refs_have_their_defaults(
    e: EntryModel,
    id: Seq<char>,
    req: StartRunRequest,
    workspace: Workspace,
    budget: Usd,
    i: int,
)
    requires
        accepted(e, id, req, workspace, budget),
        0 <= i < workspace.repos@.len(),
        last_named(workspace.repos@, workspace.repos@[i].name@) == i,
        workspace.repos@[i].base is None,
        workspace.repos@[i].integration is None,
    ensures
        ({
            let name = workspace.repos@[i].name@;
            &&& e.repos.contains_key(name)
            &&& e.repos[name].path@ == workspace.repos@[i].path@
            &&& e.repos[name].base_ref@ == "HEAD"@
            &&& e.repos[name].integration_branch@ == "agentic-integration"@
        }),
{
    let name = workspace.repos@[i].name@;
    assert(e.repos.contains_key(name) <==> last_named(workspace.repos@, name) >= 0);
}

} // verus!
