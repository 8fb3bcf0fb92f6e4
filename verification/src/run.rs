//! Run manager rules: why a request is refused, what is kept of a run and
//! when, how an interrupted run is recovered, and how branches and ids are
//! named.
use vstd::prelude::*;
use vstd::string::*;

use crate::app;
use crate::app::{App, EpicStatus, Language, Phase, StageEvent};
use crate::config;
use crate::orchestrator::RepoRun;
use crate::run_store;
use crate::run_store::{clone_repos, PersistedRepo, PersistedRun};
use crate::strmap::StrMap;
use crate::text;
use crate::text::{parse_number, same, to_chars, trim};

verus! {

/// Why a start was refused: an invalid request, or the request's workspace
/// already has a run in flight.
#[derive(Debug, Clone, PartialEq)]
pub enum StartError {
    Invalid(String),
    WorkspaceBusy,
}

impl StartError {
    /// The text of the message.
    pub open spec fn text(self) -> Seq<char> {
        match self {
            StartError::Invalid(msg) => msg@,
            StartError::WorkspaceBusy =>
            "this workspace already has a run in flight; only one run per workspace at a time"@,
        }
    }

    /// A human-readable message.
    pub fn message(&self) -> (r: String)
        ensures
            r@ == self.text(),
    {
        match self {
            StartError::Invalid(msg) => msg.clone(),
            StartError::WorkspaceBusy =>
            "this workspace already has a run in flight; only one run per workspace at a time".to_string(),
        }
    }

    /// The HTTP status of the refusal.
    pub fn status(&self) -> (r: u16)
        ensures
            r == match self {
                StartError::Invalid(_) => 400u16,
                StartError::WorkspaceBusy => 409u16,
            },
    {
        match self {
            StartError::Invalid(_) => 400,
            StartError::WorkspaceBusy => 409,
        }
    }
}

/// Why a retry was refused: no such run, the run is still in flight, or the
/// epic is not in a retryable blocked state.
#[derive(Debug, Clone, Copy, PartialEq, Eq, Structural)]
pub enum RetryError {
    NotFound,
    RunActive,
    NotBlocked,
}

impl RetryError {
    /// The text of the message.
    pub open spec fn text(self) -> Seq<char> {
        match self {
            RetryError::NotFound => "no such run"@,
            RetryError::RunActive =>
            "the run is still in flight; wait for it to finish before retrying an epic"@,
            RetryError::NotBlocked => "only a failed or conflicted epic can be retried"@,
        }
    }

    /// A human-readable message.
    pub fn message(&self) -> (r: String)
        ensures
            r@ == self.text(),
    {
        match self {
            RetryError::NotFound => "no such run".to_string(),
            RetryError::RunActive =>
            "the run is still in flight; wait for it to finish before retrying an epic".to_string(),
            RetryError::NotBlocked => "only a failed or conflicted epic can be retried".to_string(),
        }
    }

    /// The HTTP status of the refusal.
    pub fn status(&self) -> (r: u16)
        ensures
            r == match self {
                RetryError::NotFound => 404u16,
                RetryError::RunActive => 409u16,
                RetryError::NotBlocked => 400u16,
            },
    {
        match self {
            RetryError::NotFound => 404,
            RetryError::RunActive => 409,
            RetryError::NotBlocked => 400,
        }
    }
}

/// Why a resume was refused: no such run, the run is still in flight, the run
/// has nothing left to resume, or its saved plan could not be read.
#[derive(Debug, Clone, Copy, PartialEq, Eq, Structural)]
pub enum ResumeError {
    NotFound,
    RunActive,
    NotResumable,
    NoPlan,
}

impl ResumeError {
    /// The text of the message.
    pub open spec fn text(self) -> Seq<char> {
        match self {
            ResumeError::NotFound => "no such run"@,
            ResumeError::RunActive =>
            "the run is still in flight; wait for it to finish before resuming"@,
            ResumeError::NotResumable => "this run has no unfinished epics to resume"@,
            ResumeError::NoPlan => "the saved plan for this run could not be read"@,
        }
    }

    /// A human-readable message.
    pub fn message(&self) -> (r: String)
        ensures
            r@ == self.text(),
    {
        match self {
            ResumeError::NotFound => "no such run".to_string(),
            ResumeError::RunActive =>
            "the run is still in flight; wait for it to finish before resuming".to_string(),
            ResumeError::NotResumable => "this run has no unfinished epics to resume".to_string(),
            ResumeError::NoPlan => "the saved plan for this run could not be read".to_string(),
        }
    }

    /// The HTTP status of the refusal.
    pub fn status(&self) -> (r: u16)
        ensures
            r == match self {
                ResumeError::NotFound => 404u16,
                ResumeError::RunActive => 409u16,
                ResumeError::NotResumable => 400u16,
                ResumeError::NoPlan => 400u16,
            },
    {
        match self {
            ResumeError::NotFound => 404,
            ResumeError::RunActive => 409,
            ResumeError::NotResumable => 400,
            ResumeError::NoPlan => 400,
        }
    }
}

/// Each reason for which a resume is refused has its own message.
pub proof fn law_resume_messages_differ(a: ResumeError, b: ResumeError)
    requires
        a != b,
    ensures
        a.text() != b.text(),
{
    reveal_strlit("no such run");
    reveal_strlit("the run is still in flight; wait for it to finish before resuming");
    reveal_strlit("this run has no unfinished epics to resume");
    reveal_strlit("the saved plan for this run could not be read");
    assert(a.text().len() != b.text().len());
}

/// The static context a run needs to write a persisted snapshot: its identity,
/// config, and the repos it targets, in display order.
#[derive(Debug, PartialEq)]
pub struct PersistCtx {
    pub id: String,
    pub workspace: String,
    pub goal: String,
    pub default_verify: String,
    pub language: Language,
    pub plan_cwd: String,
    pub repos: Vec<PersistedRepo>,
    /// The run's own plan, when known. `Some` pins persistence to that exact
    /// plan regardless of what the shared plan file holds later.
    pub plan_json: Option<String>,
}

/// The persisted form of the named repositories that are known, in the order
/// of the names.
pub open spec fn known_repos(
    names: Seq<String>,
    repos: Map<Seq<char>, RepoRun>,
) -> Seq<PersistedRepo>
    decreases names.len(),
{
    if names.len() == 0 {
        Seq::empty()
    } else {
        let head = known_repos(names.drop_last(), repos);
        if repos.contains_key(names.last()@) {
            let rc = repos[names.last()@];
            head.push(
                PersistedRepo {
                    name: names.last(),
                    path: rc.path,
                    base_ref: rc.base_ref,
                    integration_branch: rc.integration_branch,
                },
            )
        } else {
            head
        }
    }
}

/// Build a `PersistCtx` from a run's resolved config. `repo_names` fixes the
/// display order; `repos` supplies each repo's refs.
pub fn build_persist_ctx(
    id: &str,
    workspace: &str,
    goal: &str,
    default_verify: &str,
    language: Language,
    plan_cwd: &str,
    repo_names: &Vec<String>,
    repos: &StrMap<RepoRun>,
) -> (r: PersistCtx)
    requires
        repos.wf(),
    ensures
        r.id@ == id@,
        r.workspace@ == workspace@,
        r.goal@ == goal@,
        r.default_verify@ == default_verify@,
        r.language == language,
        r.plan_cwd@ == plan_cwd@,
        r.repos@ == known_repos(repo_names@, repos@),
        r.plan_json is None,
{
    let mut list: Vec<PersistedRepo> = Vec::new();
    let mut i: usize = 0;
    assert(repo_names@.take(0) =~= Seq::<String>::empty());
    while i < repo_names.len()
        invariant
            repos.wf(),
            i <= repo_names@.len(),
            list@ == known_repos(repo_names@.take(i as int), repos@),
        decreases repo_names@.len() - i,
    {
        proof {
            assert(repo_names@.take(i + 1).drop_last() =~= repo_names@.take(i as int));
            assert(repo_names@.take(i + 1).last() == repo_names@[i as int]);
        }
        if let Some(rc) = repos.get(repo_names[i].as_str()) {
            list.push(
                PersistedRepo {
                    name: repo_names[i].clone(),
                    path: rc.path.clone(),
                    base_ref: rc.base_ref.clone(),
                    integration_branch: rc.integration_branch.clone(),
                },
            );
        }
        i = i + 1;
    }
    assert(repo_names@.take(i as int) =~= repo_names@);
    PersistCtx {
        id: id.to_string(),
        workspace: workspace.to_string(),
        goal: goal.to_string(),
        default_verify: default_verify.to_string(),
        language,
        plan_cwd: plan_cwd.to_string(),
        repos: list,
        plan_json: None,
    }
}

/// A streaming log event.
pub open spec fn streams(ev: StageEvent) -> bool {
    ev is StageLog || ev is StageAssistant || ev is StageTool
}

/// True for events that change a run's persisted state (lifecycle, cost, and
/// terminal). Streaming log events are skipped so persistence does not hammer
/// the disk on every line.
pub fn should_persist(ev: &StageEvent) -> (r: bool)
    ensures
        r == !streams(*ev),
{
    match ev {
        StageEvent::StageLog { .. } => false,
        StageEvent::StageAssistant { .. } => false,
        StageEvent::StageTool { .. } => false,
        _ => true,
    }
}

/// The snapshot of a run to write, given what the shared plan file holds. None
/// while the run is still Planning, so a run interrupted before its plan
/// exists leaves no file to resume. The plan in the context wins over the
/// shared file; a file that could not be read counts as empty.
pub fn snapshot_to_persist(ctx: &PersistCtx, app: &App, shared_plan: &Option<String>) -> (r: Option<
    PersistedRun,
>)
    ensures
        match r {
            None => app.phase == Phase::Planning,
            Some(run) => app.phase != Phase::Planning && run@ == (run_store::PersistedModel {
                id: ctx.id@,
                workspace: ctx.workspace@,
                goal: ctx.goal@,
                default_verify: ctx.default_verify@,
                language: ctx.language,
                plan_cwd: ctx.plan_cwd@,
                repos: ctx.repos@,
                plan_json: match ctx.plan_json {
                    Some(plan) => plan@,
                    None => match *shared_plan {
                        Some(plan) => plan@,
                        None => Seq::empty(),
                    },
                },
                app: app@,
            }),
        },
{
    if app.phase == Phase::Planning {
        return None;
    }
    let plan_json = match &ctx.plan_json {
        Some(plan) => plan.clone(),
        None => match shared_plan {
            Some(plan) => plan.clone(),
            None => String::new(),
        },
    };
    let run = PersistedRun {
        id: ctx.id.clone(),
        workspace: ctx.workspace.clone(),
        goal: ctx.goal.clone(),
        default_verify: ctx.default_verify.clone(),
        language: ctx.language,
        plan_cwd: ctx.plan_cwd.clone(),
        repos: clone_repos(&ctx.repos),
        plan_json,
        app: app.clone(),
    };
    Some(run)
}

/// The message of a run that a restart interrupted.
pub const INTERRUPTED: &'static str =
    "Interrupted by a server restart. Resume to continue the unfinished epics.";

/// The reason of an epic that a restart interrupted.
pub const INTERRUPTED_EPIC: &'static str = "interrupted by a server restart";

/// The card after a restart: one that was being worked on has failed.
pub open spec fn recovered_card(card: app::CardModel) -> app::CardModel {
    if card.status == EpicStatus::Running || card.status == EpicStatus::Verifying {
        app::CardModel {
            status: EpicStatus::Failed,
            reason: Some(INTERRUPTED_EPIC@),
            ..card
        }
    } else {
        card
    }
}

/// The run after a restart: one that was being implemented has failed.
pub open spec fn recovered(m: app::AppModel) -> app::AppModel {
    if m.phase == Phase::Implementing {
        app::AppModel {
            phase: Phase::Failed,
            error: Some(INTERRUPTED@),
            epics: Seq::new(m.epics.len(), |i: int| recovered_card(m.epics[i])),
            ..m
        }
    } else {
        m
    }
}

/// Transform a snapshot loaded from disk into an honest post-restart state. A
/// run still mid-flight (`Implementing`) becomes `Failed`, and any epic caught
/// `Running` or `Verifying` becomes `Failed` with a restart reason, so the
/// board never shows a run as active when nothing is driving it. Any other
/// snapshot is left untouched.
pub fn recover_interrupted(app: &mut App)
    ensures
        final(app)@ == recovered(old(app)@),
{
    let ghost before = app@;
    if app.phase != Phase::Implementing {
        return;
    }
    app.phase = Phase::Failed;
    app.error = Some(INTERRUPTED.to_string());
    let ghost mid = app@;
    let mut i: usize = 0;
    while i < app.epics.len()
        invariant
            i <= app.epics@.len(),
            app@.epics.len() == before.epics.len(),
            app@ == (app::AppModel { epics: app@.epics, ..mid }),
            forall|j: int|
                0 <= j < i ==> #[trigger] app@.epics[j] == recovered_card(before.epics[j]),
            forall|j: int| i <= j < before.epics.len() ==> #[trigger] app@.epics[j] == before.epics[j],
        decreases app.epics@.len() - i,
    {
        let ghost cards = app.epics@;
        assert(app@.epics[i as int] == before.epics[i as int]);
        let status = app.epics[i].status;
        if status == EpicStatus::Running || status == EpicStatus::Verifying {
            app.epics[i].status = EpicStatus::Failed;
            app.epics[i].reason = Some(INTERRUPTED_EPIC.to_string());
            proof {
                assert(app.epics@ =~= cards.update(i as int, app.epics@[i as int]));
                assert(app@.epics =~= text::views(cards).update(i as int, app.epics@[i as int]@));
            }
        }
        i = i + 1;
    }
    assert(app@ =~= recovered(before));
}

/// After a restart no run is shown as being implemented, and no epic of a run
/// that was is shown as being worked on.
pub proof fn law_recovered_runs_are_not_active(m: app::AppModel)
    ensures
        recovered(m).phase != Phase::Implementing,
        m.phase == Phase::Implementing ==> forall|i: int|
            0 <= i < recovered(m).epics.len() ==> (#[trigger] recovered(m).epics[i]).status
                != EpicStatus::Running && recovered(m).epics[i].status != EpicStatus::Verifying,
        recovered(recovered(m)) == recovered(m),
{
}

/// An ASCII letter or digit.
pub open spec fn alphanumeric(c: char) -> bool {
    'a' <= c <= 'z' || 'A' <= c <= 'Z' || '0' <= c <= '9'
}

/// The lower case of an ASCII letter; any other character itself.
pub open spec fn lowered(c: char) -> char {
    if 'A' <= c <= 'Z' {
        (c as u32 + 32) as char
    } else {
        c
    }
}

/// The longest a slug gets.
pub const MAX_SLUG: usize = 40;

/// The slug with one more character of the goal taken in: letters and digits
/// in lower case, and one dash for any run of other characters that does not
/// start the slug.
pub open spec fn slug_step(slug: Seq<char>, c: char) -> Seq<char> {
    if slug.len() >= MAX_SLUG {
        slug
    } else if alphanumeric(c) {
        slug.push(lowered(c))
    } else if slug.len() > 0 && slug.last() != '-' {
        slug.push('-')
    } else {
        slug
    }
}

/// The slug of a goal, before dashes at its end are taken off.
pub open spec fn raw_slug(goal: Seq<char>) -> Seq<char>
    decreases goal.len(),
{
    if goal.len() == 0 {
        Seq::empty()
    } else {
        slug_step(raw_slug(goal.drop_last()), goal.last())
    }
}

/// The text without dashes at its end.
pub open spec fn without_end_dashes(s: Seq<char>) -> Seq<char>
    decreases s.len(),
{
    if s.len() > 0 && s.last() == '-' {
        without_end_dashes(s.drop_last())
    } else {
        s
    }
}

/// The slug of a goal.
pub open spec fn slug_of(goal: Seq<char>) -> Seq<char> {
    without_end_dashes(raw_slug(goal))
}

/// The integration branch of a goal.
pub open spec fn branch_of(goal: Seq<char>) -> Seq<char> {
    if slug_of(goal).len() == 0 {
        "agentic/run"@
    } else {
        "agentic/"@ + slug_of(goal)
    }
}

fn is_alphanumeric(c: char) -> (r: bool)
    ensures
        r == alphanumeric(c),
{
    let n: u32 = c as u32;
    (97 <= n && n <= 122) || (65 <= n && n <= 90) || (48 <= n && n <= 57)
}

fn lower(c: char) -> (r: char)
    ensures
        r == lowered(c),
{
    let n: u32 = c as u32;
    if 65 <= n && n <= 90 {
        let b: u8 = (n + 32) as u8;
        b as char
    } else {
        c
    }
}

/// Derive a git-branch-safe integration branch name from the run's goal, e.g.
/// "Add a /healthz endpoint" -> "agentic/add-a-healthz-endpoint". Lowercases
/// ASCII, turns every run of other characters into a single `-`, trims dashes,
/// and caps the slug so the branch stays readable. An empty or all-punctuation
/// goal falls back to "agentic/run".
pub fn integration_branch_for(goal: &str) -> (r: String)
    ensures
        r@ == branch_of(goal@),
{
    let cs = to_chars(goal);
    let mut slug: Vec<char> = Vec::new();
    let mut i: usize = 0;
    assert(goal@.take(0) =~= Seq::<char>::empty());
    while i < cs.len()
        invariant
            i <= cs@.len(),
            cs@ == goal@,
            slug@ == raw_slug(goal@.take(i as int)),
        decreases cs@.len() - i,
    {
        let c: char = cs[i];
        proof {
            assert(goal@.take(i + 1).drop_last() =~= goal@.take(i as int));
            assert(goal@.take(i + 1).last() == c);
        }
        if slug.len() < MAX_SLUG {
            if is_alphanumeric(c) {
                slug.push(lower(c));
            } else if slug.len() > 0 && slug[slug.len() - 1] != '-' {
                slug.push('-');
            }
        }
        i = i + 1;
    }
    assert(goal@.take(i as int) =~= goal@);
    let mut hi: usize = slug.len();
    assert(slug@.subrange(0, hi as int) =~= slug@);
    while hi > 0 && slug[hi - 1] == '-'
        invariant
            hi <= slug@.len(),
            slug_of(goal@) == without_end_dashes(slug@.subrange(0, hi as int)),
        decreases hi,
    {
        assert(slug@.subrange(0, hi as int).drop_last() =~= slug@.subrange(0, hi - 1));
        hi = hi - 1;
    }
    if hi == 0 {
        "agentic/run".to_string()
    } else {
        "agentic/".to_string().concat(text::from_chars(&slug, 0, hi).as_str())
    }
}

/// A lower-case ASCII letter, a digit or a dash.
pub open spec fn slug_char(c: char) -> bool {
    'a' <= c <= 'z' || '0' <= c <= '9' || c == '-'
}

/// What holds of a slug while it is built.
pub open spec fn slug_inv(s: Seq<char>) -> bool {
    &&& s.len() <= MAX_SLUG
    &&& forall|i: int| 0 <= i < s.len() ==> slug_char(#[trigger] s[i])
    &&& s.len() > 0 ==> s[0] != '-'
    &&& forall|i: int, j: int|
        #![trigger s[i], s[j]]
        0 <= i < s.len() && j == i + 1 && j < s.len() ==> !(s[i] == '-' && s[j] == '-')
}

/// A slug keeps what holds of it while it is built.
pub proof fn lemma_raw_slug(goal: Seq<char>)
    ensures
        slug_inv(raw_slug(goal)),
    decreases goal.len(),
{
    if goal.len() > 0 {
        lemma_raw_slug(goal.drop_last());
        let s = raw_slug(goal.drop_last());
        let t = raw_slug(goal);
        assert forall|i: int, j: int|
            #![trigger t[i], t[j]]
            0 <= i < t.len() && j == i + 1 && j < t.len() implies !(t[i] == '-' && t[j] == '-') by {
            if j < s.len() {
                assert(t[i] == s[i] && t[j] == s[j]);
            }
        }
    }
}

/// Taking the dashes off the end keeps what holds of a slug.
pub proof fn lemma_end_dashes(s: Seq<char>)
    requires
        slug_inv(s),
    ensures
        slug_inv(without_end_dashes(s)),
        without_end_dashes(s).len() > 0 ==> without_end_dashes(s).last() != '-',
    decreases s.len(),
{
    if s.len() > 0 && s.last() == '-' {
        let t = s.drop_last();
        assert forall|i: int, j: int|
            #![trigger t[i], t[j]]
            0 <= i < t.len() && j == i + 1 && j < t.len() implies !(t[i] == '-' && t[j] == '-') by {
            assert(t[i] == s[i] && t[j] == s[j]);
        }
        lemma_end_dashes(t);
    }
}

/// A slug is at most 40 lower-case letters, digits and dashes, with no dash at
/// its start or end and no two dashes next to each other.
pub proof fn law_slug_is_branch_safe(goal: Seq<char>)
    ensures
        slug_of(goal).len() <= MAX_SLUG,
        forall|i: int| 0 <= i < slug_of(goal).len() ==> slug_char(#[trigger] slug_of(goal)[i]),
        slug_of(goal).len() > 0 ==> slug_of(goal)[0] != '-' && slug_of(goal).last() != '-',
        forall|i: int|
            0 <= i < slug_of(goal).len() - 1 ==> !(#[trigger] slug_of(goal)[i] == '-' && slug_of(
                goal,
            )[i + 1] == '-'),
        text::has_prefix(branch_of(goal), "agentic/"@),
{
    lemma_raw_slug(goal);
    lemma_end_dashes(raw_slug(goal));
    let s = slug_of(goal);
    assert forall|i: int| 0 <= i < s.len() - 1 implies !(#[trigger] s[i] == '-' && s[i + 1]
        == '-') by {
        let j = i + 1;
        assert(!(s[i] == '-' && s[j] == '-'));
    }
    reveal_strlit("agentic/");
    reveal_strlit("agentic/run");
    let p = "agentic/"@;
    assert(branch_of(goal).subrange(0, p.len() as int) =~= p);
}

/// The ids of persisted runs.
pub open spec fn stored_ids(runs: Seq<PersistedRun>) -> Seq<Seq<char>> {
    Seq::new(runs.len(), |i: int| runs[i].id@)
}

/// One past the largest number among the ids, or 1 where none is a number.
pub open spec fn next_id_of(ids: Seq<Seq<char>>) -> int
    decreases ids.len(),
{
    if ids.len() == 0 {
        1
    } else {
        let rest = next_id_of(ids.drop_last());
        match text::number_of(ids.last()) {
            Some(n) => if some_number(ids.drop_last()) && rest > n {
                rest
            } else {
                n + 1
            },
            None => rest,
        }
    }
}

/// Some id is a number.
pub open spec fn some_number(ids: Seq<Seq<char>>) -> bool {
    exists|i: int| 0 <= i < ids.len() && text::number_of(#[trigger] ids[i]) is Some
}

/// No id is the largest number there is, so that a next one exists.
pub open spec fn room_for_more(ids: Seq<Seq<char>>) -> bool {
    forall|i: int|
        0 <= i < ids.len() ==> text::number_of(#[trigger] ids[i]) != Some(u64::MAX)
}

/// The next run id to hand out so a new run never collides with a rehydrated
/// one: one past the largest numeric id on disk, or 1 when the store is empty.
pub fn next_id_after(runs: &Vec<PersistedRun>) -> (r: u64)
    requires
        room_for_more(stored_ids(runs@)),
    ensures
        r == next_id_of(stored_ids(runs@)),
{
    let ghost ids = stored_ids(runs@);
    let mut next: u64 = 1;
    let mut any = false;
    let mut i: usize = 0;
    while i < runs.len()
        invariant
            i <= runs@.len(),
            ids == stored_ids(runs@),
            room_for_more(ids),
            next == next_id_of(ids.take(i as int)),
            any == some_number(ids.take(i as int)),
        decreases runs@.len() - i,
    {
        let ghost head = ids.take(i as int);
        let ghost now = ids.take(i + 1);
        proof {
            assert(now.drop_last() =~= head);
            assert(now.last() == runs@[i as int].id@);
            assert(ids[i as int] == runs@[i as int].id@);
            if any {
                let k = choose|k: int| 0 <= k < head.len() && text::number_of(#[trigger] head[k]) is Some;
                assert(now[k] == head[k]);
            }
            if some_number(now) {
                let k = choose|k: int| 0 <= k < now.len() && text::number_of(#[trigger] now[k]) is Some;
                if k < head.len() {
                    assert(head[k] == now[k]);
                }
            }
        }
        if let Some(n) = parse_number(runs[i].id.as_str()) {
            assert(text::number_of(ids[i as int]) != Some(u64::MAX));
            if !(any && next > n) {
                next = n + 1;
            }
            any = true;
            assert(now[i as int] == runs@[i as int].id@);
        }
        i = i + 1;
    }
    assert(ids.take(i as int) =~= ids);
    next
}

/// The next id is above every numeric id, so a new run never collides with
/// one that was kept.
pub proof fn law_next_id_is_new(ids: Seq<Seq<char>>, i: int)
    requires
        0 <= i < ids.len(),
        text::number_of(ids[i]) is Some,
    ensures
        next_id_of(ids) > text::number_of(ids[i])->0,
    decreases ids.len(),
{
    if i < ids.len() - 1 {
        let head = ids.drop_last();
        assert(head[i] == ids[i]);
        law_next_id_is_new(head, i);
        assert(some_number(head));
    }
}

/// True when a run can be resumed: it has ended in `Failed` and still has at
/// least one epic that has not merged.
pub open spec fn can_resume(m: app::AppModel) -> bool {
    m.phase == Phase::Failed && exists|i: int|
        0 <= i < m.epics.len() && (#[trigger] m.epics[i]).status != EpicStatus::Merged
}

/// True when a run can be resumed: it has ended in `Failed` and still has at
/// least one epic that has not merged.
pub fn resumable(app: &App) -> (r: bool)
    ensures
        r == can_resume(app@),
{
    if app.phase != Phase::Failed {
        return false;
    }
    let mut i: usize = 0;
    while i < app.epics.len()
        invariant
            i <= app.epics@.len(),
            app.phase == Phase::Failed,
            forall|j: int| 0 <= j < i ==> (#[trigger] app@.epics[j]).status == EpicStatus::Merged,
        decreases app.epics@.len() - i,
    {
        assert(app@.epics[i as int].status == app.epics@[i as int].status);
        if app.epics[i].status != EpicStatus::Merged {
            return true;
        }
        i = i + 1;
    }
    false
}

/// The integration branch requires a name, and must not be the one that is
/// checked out.
pub open spec fn checked_out_text(repo: Seq<char>, integration: Seq<char>) -> Seq<char> {
    "repo '"@ + repo + "': cannot merge into '"@ + integration
        + "': it is checked out in the workspace. Check out a different branch first, or choose another integration target."@
}

/// The ref a repository's epics branch from: its own, or `HEAD`.
pub fn base_ref_or_head(base: &Option<String>) -> (r: String)
    ensures
        r@ == match *base {
            Some(b) => b@,
            None => "HEAD"@,
        },
{
    match base {
        Some(b) => b.clone(),
        None => "HEAD".to_string(),
    }
}

/// The branch a repository's work merges into: its own, or
/// `agentic-integration`.
pub fn integration_or_default(integration: &Option<String>) -> (r: String)
    ensures
        r@ == match *integration {
            Some(b) => b@,
            None => config::DEFAULT_INTEGRATION@,
        },
{
    match integration {
        Some(b) => b.clone(),
        None => config::DEFAULT_INTEGRATION.to_string(),
    }
}

/// The check of one repository before a run starts, once its base ref has
/// been looked up: an unresolvable base ref or a blank integration branch is
/// refused. The message names the repository.
pub fn gate_base(repo: &str, integration: &str, base: &Result<(), String>) -> (r: Result<
    (),
    StartError,
>)
    ensures
        match base {
            Err(e) => r matches Err(StartError::Invalid(msg)) && msg@ == "repo '"@ + repo@
                + "': "@ + e@,
            Ok(()) => if text::trimmed(integration@).len() == 0 {
                r matches Err(StartError::Invalid(msg)) && msg@ == "repo '"@ + repo@
                    + "': the integration branch requires a name"@
            } else {
                r is Ok
            },
        },
{
    match base {
        Err(e) => Err(
            StartError::Invalid(
                "repo '".to_string().concat(repo).concat("': ").concat(e.as_str()),
            ),
        ),
        Ok(()) => if trim(integration).as_str().is_empty() {
            Err(
                StartError::Invalid(
                    "repo '".to_string().concat(repo).concat(
                        "': the integration branch requires a name",
                    ),
                ),
            )
        } else {
            Ok(())
        },
    }
}

/// The check of one repository before a run starts, once its checked-out
/// branch has been looked up: merging into that branch is refused.
pub fn gate_branch(
    repo: &str,
    integration: &str,
    current: &Result<Option<String>, String>,
) -> (r: Result<(), StartError>)
    ensures
        match current {
            Err(e) => r matches Err(StartError::Invalid(msg)) && msg@ == "repo '"@ + repo@
                + "': "@ + e@,
            Ok(Some(branch)) => if branch@ == integration@ {
                r matches Err(StartError::Invalid(msg)) && msg@ == checked_out_text(
                    repo@,
                    integration@,
                )
            } else {
                r is Ok
            },
            Ok(None) => r is Ok,
        },
{
    match current {
        Err(e) => Err(
            StartError::Invalid(
                "repo '".to_string().concat(repo).concat("': ").concat(e.as_str()),
            ),
        ),
        Ok(Some(branch)) => if same(branch.as_str(), integration) {
            Err(
                StartError::Invalid(
                    "repo '".to_string().concat(repo).concat("': cannot merge into '").concat(
                        integration,
                    ).concat(
                        "': it is checked out in the workspace. Check out a different branch first, or choose another integration target.",
                    ),
                ),
            )
        } else {
            Ok(())
        },
        Ok(None) => Ok(()),
    }
}

} // verus!
