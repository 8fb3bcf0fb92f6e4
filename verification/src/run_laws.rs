//! What becomes of a run: how it is kept, what a restart makes of it, when it can
//! go on, and how its branches and ids are named.
use vstd::prelude::*;

use crate::app;
use crate::app::{App, EpicStatus, Language, Phase, StageEvent};
use crate::orchestrator::RepoRun;
use crate::run;
use crate::run::{
    base_ref_or_head, build_persist_ctx, gate_base, gate_branch, integration_branch_for,
    integration_or_default, next_id_after, recover_interrupted, resumable, should_persist,
    snapshot_to_persist, PersistCtx, ResumeError, RetryError, StartError,
};
use crate::run_store::{PersistedRepo, PersistedRun};
use crate::strmap::StrMap;
use crate::text;

verus! {

/// After a restart, every epic of a run that was being implemented and that was
/// running or being verified has failed, because of the restart, and is what it
/// was in every other way. Every other epic is as it was: none has merged that
/// had not merged before.
pub proof fn law_interrupted_epics_have_failed(app: &mut App, i: int)
    requires
        call_ensures(recover_interrupted, (app,), ()),
        old(app).phase == Phase::Implementing,
        0 <= i < old(app).epics@.len(),
    ensures
        final(app).epics@.len() == old(app).epics@.len(),
        ({
            let was = old(app).epics@[i];
            let is = final(app).epics@[i];
            &&& was.status == EpicStatus::Running || was.status == EpicStatus::Verifying
                ==> is.status == EpicStatus::Failed && is.reason is Some && is.reason->0@
                == "interrupted by a server restart"@
            &&& was.status != EpicStatus::Running && was.status != EpicStatus::Verifying
                ==> is.status == was.status && text::opt_view(is.reason) == text::opt_view(
                was.reason,
            )
            &&& is.status == EpicStatus::Merged <==> was.status == EpicStatus::Merged
            &&& is.id@ == was.id@ && is.title@ == was.title@ && is.repo@ == was.repo@
            &&& is.cost == was.cost
            &&& text::views(is.depends_on@) == text::views(was.depends_on@)
        }),
{
    let was = text::views(app.epics@);
    let is = text::views(final(app).epics@);
    assert(was.len() == app.epics@.len());
    assert(is.len() == final(app).epics@.len());
    assert(was[i] == app.epics@[i]@);
    assert(is[i] == final(app).epics@[i]@);
}

/// A restart fails a run that was being implemented, with a message that says so
/// and that it can be resumed, and keeps everything else of it. Any other run is
/// left as it was.
pub proof fn law_interrupted_runs_have_failed(app: &mut App)
    requires
        call_ensures(recover_interrupted, (app,), ()),
    ensures
        old(app).phase == Phase::Implementing ==> {
            &&& final(app).phase == Phase::Failed
            &&& final(app).error is Some && final(app).error->0@
                == "Interrupted by a server restart. Resume to continue the unfinished epics."@
        },
        old(app).phase != Phase::Implementing ==> final(app)@ == old(app)@,
        final(app).goal@ == old(app).goal@,
        final(app).workspace@ == old(app).workspace@,
        text::views(final(app).log@) == text::views(old(app).log@),
        final(app).total_cost == old(app).total_cost,
        final(app).budget == old(app).budget,
        final(app).elapsed_secs == old(app).elapsed_secs,
{
}

/// A run that a restart interrupted can be resumed just where some epic of it
/// had not merged.
pub proof fn law_interrupted_runs_can_be_resumed(app: &mut App, after: &App, r: bool)
    requires
        old(app).phase == Phase::Implementing,
        call_ensures(recover_interrupted, (app,), ()),
        *after == *final(app),
        call_ensures(resumable, (after,), r),
    ensures
        r <==> exists|i: int|
            0 <= i < old(app).epics@.len() && (#[trigger] old(app).epics@[i]).status
                != EpicStatus::Merged,
{
    let was = text::views(app.epics@);
    let is = text::views(after.epics@);
    assert(was.len() == app.epics@.len());
    assert(is.len() == after.epics@.len());
    assert forall|i: int| 0 <= i < was.len() implies (#[trigger] was[i]) == app.epics@[i]@ by {}
    if r {
        let i = choose|i: int|
            0 <= i < after@.epics.len() && (#[trigger] after@.epics[i]).status
                != EpicStatus::Merged;
        assert(was[i] == app.epics@[i]@);
        assert(is[i].status != EpicStatus::Merged);
    }
    if exists|i: int|
        0 <= i < app.epics@.len() && (#[trigger] app.epics@[i]).status != EpicStatus::Merged {
        let i = choose|i: int|
            0 <= i < app.epics@.len() && (#[trigger] app.epics@[i]).status != EpicStatus::Merged;
        assert(was[i].status != EpicStatus::Merged);
        assert(is[i].status != EpicStatus::Merged);
        assert(after@.epics[i].status != EpicStatus::Merged);
    }
}

/// A run can be resumed where it has failed and some epic of it has not merged,
/// and nowhere else.
pub proof fn law_failed_unfinished_runs_can_be_resumed(app: &App, r: bool)
    requires
        call_ensures(resumable, (app,), r),
    ensures
        r <==> app.phase == Phase::Failed && exists|i: int|
            0 <= i < app.epics@.len() && (#[trigger] app.epics@[i]).status != EpicStatus::Merged,
{
    let v = text::views(app.epics@);
    assert(v.len() == app.epics@.len());
    assert forall|i: int| 0 <= i < v.len() implies (#[trigger] v[i]).status
        == app.epics@[i].status by {}
    if exists|i: int|
        0 <= i < app.epics@.len() && (#[trigger] app.epics@[i]).status != EpicStatus::Merged {
        let i = choose|i: int|
            0 <= i < app.epics@.len() && (#[trigger] app.epics@[i]).status != EpicStatus::Merged;
        assert(app@.epics[i].status != EpicStatus::Merged);
    }
}

/// What is kept of a run is the run: its identity and configuration, its state,
/// and its plan, the one that is pinned or else the shared file's. A run that is
/// still being planned is not kept.
pub proof fn law_kept_runs_are_the_run(
    ctx: &PersistCtx,
    app: &App,
    shared: &Option<String>,
    r: Option<PersistedRun>,
)
    requires
        call_ensures(snapshot_to_persist, (ctx, app, shared), r),
    ensures
        r is None <==> app.phase == Phase::Planning,
        r matches Some(kept) ==> {
            &&& kept.id@ == ctx.id@ && kept.workspace@ == ctx.workspace@ && kept.goal@ == ctx.goal@
            &&& kept.default_verify@ == ctx.default_verify@ && kept.language == ctx.language
            &&& kept.plan_cwd@ == ctx.plan_cwd@ && kept.repos@ == ctx.repos@
            &&& kept.app@ == app@
            &&& ctx.plan_json is Some ==> kept.plan_json@ == ctx.plan_json->0@
            &&& ctx.plan_json is None && *shared is Some ==> kept.plan_json@ == (*shared)->0@
            &&& ctx.plan_json is None && *shared is None ==> kept.plan_json@.len() == 0
        },
{
}

/// Every event is worth keeping but the three that stream a session's output.
pub proof fn law_streamed_output_is_not_kept(ev: &StageEvent, r: bool)
    requires
        call_ensures(should_persist, (ev,), r),
    ensures
        r <==> match ev {
            StageEvent::StageLog { .. } => false,
            StageEvent::StageAssistant { .. } => false,
            StageEvent::StageTool { .. } => false,
            _ => true,
        },
{
}

/// The next id is one past the largest number among the ids that are kept, and 1
/// where none is a number.
pub proof fn law_next_id_is_one_past_the_largest(runs: &Vec<PersistedRun>, r: u64)
    requires
        run::room_for_more(run::stored_ids(runs@)),
        call_ensures(next_id_after, (runs,), r),
    ensures
        forall|i: int|
            0 <= i < runs@.len() ==> (text::number_of((#[trigger] runs@[i]).id@) matches Some(n)
                ==> n < r),
        r == 1 || exists|i: int|
            0 <= i < runs@.len() && text::number_of((#[trigger] runs@[i]).id@) == Some(
                (r - 1) as u64,
            ),
        (forall|i: int| 0 <= i < runs@.len() ==> text::number_of((#[trigger] runs@[i]).id@) is None)
            ==> r == 1,
{
    let ids = run::stored_ids(runs@);
    assert(ids.len() == runs@.len());
    assert forall|i: int| 0 <= i < runs@.len() implies (text::number_of(
        (#[trigger] runs@[i]).id@,
    ) matches Some(n) ==> n < r) by {
        assert(ids[i] == runs@[i].id@);
        if text::number_of(ids[i]) is Some {
            run::law_next_id_is_new(ids, i);
        }
    }
    lemma_next_id_met(ids);
    if run::some_number(ids) {
        let i = choose|i: int|
            0 <= i < ids.len() && text::number_of(#[trigger] ids[i]) is Some && text::number_of(
                ids[i],
            )->0 + 1 == run::next_id_of(ids);
        assert(ids[i] == runs@[i].id@);
        assert(text::number_of(runs@[i].id@) == Some((r - 1) as u64));
    }
    if forall|i: int| 0 <= i < runs@.len() ==> text::number_of((#[trigger] runs@[i]).id@) is None {
        assert(!run::some_number(ids)) by {
            assert forall|i: int| 0 <= i < ids.len() implies text::number_of(
                #[trigger] ids[i],
            ) is None by {
                assert(ids[i] == runs@[i].id@);
            }
        }
    }
}

proof fn lemma_next_id_met(ids: Seq<Seq<char>>)
    ensures
        !run::some_number(ids) ==> run::next_id_of(ids) == 1,
        run::some_number(ids) ==> exists|i: int|
            0 <= i < ids.len() && text::number_of(#[trigger] ids[i]) is Some && text::number_of(
                ids[i],
            )->0 + 1 == run::next_id_of(ids),
    decreases ids.len(),
{
    if ids.len() > 0 {
        let rest = ids.drop_last();
        lemma_next_id_met(rest);
        if run::some_number(rest) {
            let i = choose|i: int|
                0 <= i < rest.len() && text::number_of(#[trigger] rest[i]) is Some
                    && text::number_of(rest[i])->0 + 1 == run::next_id_of(rest);
            assert(ids[i] == rest[i]);
        }
        assert(ids[ids.len() - 1] == ids.last());
        if run::some_number(ids) && text::number_of(ids.last()) is None {
            let i = choose|i: int| 0 <= i < ids.len() && text::number_of(#[trigger] ids[i]) is Some;
            assert(rest[i] == ids[i]);
        }
    }
}

/// Letters and digits, in lower case.
pub open spec fn letters(goal: Seq<char>) -> Seq<char> {
    goal.filter(
        |c: char| 'a' <= c <= 'z' || 'A' <= c <= 'Z' || '0' <= c <= '9',
    ).map_values(
        |c: char|
            if 'A' <= c <= 'Z' {
                (c as u32 + 32) as char
            } else {
                c
            },
    )
}

/// The branch of a goal spells the goal: without its prefix and its dashes, it
/// is the letters and digits of the goal, in lower case and in their order, all
/// of them where the branch is not cut short. A goal without any has the branch
/// `agentic/run`.
pub proof fn law_branches_spell_their_goal(goal: &str, r: String)
    requires
        call_ensures(integration_branch_for, (goal,), r),
    ensures
        letters(goal@).len() == 0 ==> r@ == "agentic/run"@,
        letters(goal@).len() > 0 ==> exists|slug: Seq<char>|
            {
                let spelled = slug.filter(|c: char| c != '-');
                &&& r@ == #[trigger] ("agentic/"@ + slug)
                &&& 0 < slug.len() <= 40
                &&& spelled.len() <= letters(goal@).len()
                &&& spelled == letters(goal@).take(spelled.len() as int)
                &&& slug.len() < 39 ==> spelled == letters(goal@)
            },
{
    lemma_slug_spells(goal@);
    lemma_no_letters(goal@);
    let raw = run::raw_slug(goal@);
    lemma_dashes_dropped(raw);
    run::lemma_raw_slug(goal@);
    run::lemma_end_dashes(raw);
    lemma_end_dash_is_one(raw);
    if letters(goal@).len() > 0 {
        let slug = run::slug_of(goal@);
        assert(slug.len() > 0) by {
            assert(raw.len() > 0 && raw[0] != '-');
            lemma_head_kept(raw);
        }
        assert(r@ == "agentic/"@ + slug);
        let spelled = slug.filter(|c: char| c != '-');
        assert(spelled == raw.filter(|c: char| c != '-'));
        if slug.len() < 39 {
            assert(raw.len() < 40);
        }
    }
}

proof fn lemma_filter_snoc(s: Seq<char>, f: spec_fn(char) -> bool)
    requires
        s.len() > 0,
    ensures
        s.filter(f) == if f(s.last()) {
            s.drop_last().filter(f).push(s.last())
        } else {
            s.drop_last().filter(f)
        },
{
    reveal(Seq::filter);
}

proof fn lemma_slug_spells(goal: Seq<char>)
    ensures
        ({
            let raw = run::raw_slug(goal);
            let spelled = raw.filter(|c: char| c != '-');
            &&& raw.len() <= 40
            &&& spelled.len() <= letters(goal).len()
            &&& spelled == letters(goal).take(spelled.len() as int)
            &&& raw.len() < 40 ==> spelled == letters(goal)
        }),
    decreases goal.len(),
{
    let dash = |c: char| c != '-';
    let alnum = |c: char| 'a' <= c <= 'z' || 'A' <= c <= 'Z' || '0' <= c <= '9';
    let low = |c: char|
        if 'A' <= c <= 'Z' {
            (c as u32 + 32) as char
        } else {
            c
        };
    let raw = run::raw_slug(goal);
    if goal.len() == 0 {
        reveal(Seq::filter);
        assert(raw.filter(dash) =~= Seq::<char>::empty());
        assert(letters(goal) =~= Seq::<char>::empty());
    } else {
        let rest = goal.drop_last();
        let before = run::raw_slug(rest);
        lemma_slug_spells(rest);
        lemma_filter_snoc(goal, alnum);
        let c = goal.last();
        assert(letters(goal) =~= if alnum(c) {
            letters(rest).push(low(c))
        } else {
            letters(rest)
        });
        if before.len() < 40 {
            if run::alphanumeric(c) {
                assert(raw == before.push(run::lowered(c)));
                assert(run::lowered(c) == low(c));
                assert(low(c) != '-');
                assert(raw.drop_last() =~= before);
                lemma_filter_snoc(raw, dash);
                assert(raw.filter(dash) =~= letters(goal));
            } else if before.len() > 0 && before.last() != '-' {
                assert(raw == before.push('-'));
                assert(raw.drop_last() =~= before);
                lemma_filter_snoc(raw, dash);
            }
        } else {
            let spelled = before.filter(dash);
            assert(letters(goal).take(spelled.len() as int) =~= letters(rest).take(
                spelled.len() as int,
            ));
        }
        assert(raw.filter(dash) =~= letters(goal).take(raw.filter(dash).len() as int));
    }
}

proof fn lemma_no_letters(goal: Seq<char>)
    ensures
        letters(goal).len() == 0 <==> run::raw_slug(goal).len() == 0,
    decreases goal.len(),
{
    let alnum = |c: char| 'a' <= c <= 'z' || 'A' <= c <= 'Z' || '0' <= c <= '9';
    if goal.len() == 0 {
        reveal(Seq::filter);
    } else {
        lemma_no_letters(goal.drop_last());
        lemma_filter_snoc(goal, alnum);
    }
}

proof fn lemma_dashes_dropped(s: Seq<char>)
    ensures
        run::without_end_dashes(s).filter(|c: char| c != '-') == s.filter(|c: char| c != '-'),
    decreases s.len(),
{
    if s.len() > 0 && s.last() == '-' {
        lemma_dashes_dropped(s.drop_last());
        lemma_filter_snoc(s, |c: char| c != '-');
    }
}

proof fn lemma_head_kept(s: Seq<char>)
    requires
        s.len() > 0,
        s[0] != '-',
    ensures
        run::without_end_dashes(s).len() > 0,
    decreases s.len(),
{
    if s.last() == '-' {
        lemma_head_kept(s.drop_last());
    }
}

proof fn lemma_end_dash_is_one(s: Seq<char>)
    requires
        run::slug_inv(s),
    ensures
        run::without_end_dashes(s).len() >= s.len() - 1,
{
    reveal_with_fuel(run::without_end_dashes, 3);
    if s.len() > 0 && s.last() == '-' {
        let rest = s.drop_last();
        if rest.len() > 0 {
            assert(s[rest.len() - 1] != '-' || s[rest.len() as int] != '-');
        }
    }
}

/// A repository's epics branch from its own base ref or from `HEAD`, and merge
/// into its own integration branch or into `agentic-integration`.
pub proof fn law_refs_have_defaults(
    set: &Option<String>,
    unset: &Option<String>,
    a: String,
    b: String,
    c: String,
    d: String,
)
    requires
        *set is Some,
        *unset is None,
        call_ensures(base_ref_or_head, (set,), a),
        call_ensures(base_ref_or_head, (unset,), b),
        call_ensures(integration_or_default, (set,), c),
        call_ensures(integration_or_default, (unset,), d),
    ensures
        a@ == (*set)->0@ && c@ == (*set)->0@,
        b@ == "HEAD"@,
        d@ == "agentic-integration"@,
{
}

/// A repository is refused where its base ref does not resolve, where its
/// integration branch is blank, where its current branch cannot be read, and
/// where that is the integration branch; and nowhere else. The message names the
/// repository.
pub proof fn law_gates_refuse_what_cannot_be_merged(
    repo: &str,
    integration: &str,
    base: &Result<(), String>,
    current: &Result<Option<String>, String>,
    a: Result<(), StartError>,
    b: Result<(), StartError>,
)
    requires
        call_ensures(gate_base, (repo, integration, base), a),
        call_ensures(gate_branch, (repo, integration, current), b),
    ensures
        a is Ok <==> *base is Ok && text::trimmed(integration@).len() > 0,
        b is Ok <==> *current is Ok && (((*current)->Ok_0) matches Some(branch) ==> branch@
            != integration@),
        a matches Err(e) ==> (e matches StartError::Invalid(msg) && exists|why: Seq<char>|
            msg@ == #[trigger] ("repo '"@ + repo@ + "': "@ + why) && (*base matches Err(told)
                ==> why == told@) && (*base is Ok ==> why
                == "the integration branch requires a name"@)),
        b matches Err(e) ==> (e matches StartError::Invalid(msg) && exists|why: Seq<char>|
            msg@ == #[trigger] ("repo '"@ + repo@ + "': "@ + why) && (*current matches Err(told)
                ==> why == told@) && (*current is Ok ==> why == "cannot merge into '"@ + integration@
                + "': it is checked out in the workspace. Check out a different branch first, or choose another integration target."@)),
{
    let lead = "repo '"@ + repo@ + "': "@;
    match a {
        Err(StartError::Invalid(msg)) => {
            if *base is Ok {
                let why = "the integration branch requires a name"@;
                reveal_strlit("': ");
                reveal_strlit("': the integration branch requires a name");
                reveal_strlit("the integration branch requires a name");
                assert(msg@ =~= "repo '"@ + repo@ + "': "@ + why);
            } else {
                assert(msg@ == "repo '"@ + repo@ + "': "@ + (*base)->Err_0@);
            }
        },
        _ => {},
    }
    match b {
        Err(StartError::Invalid(msg)) => {
            if *current is Ok {
                reveal_strlit("': ");
                reveal_strlit("': cannot merge into '");
                reveal_strlit("cannot merge into '");
                let why = "cannot merge into '"@ + integration@
                    + "': it is checked out in the workspace. Check out a different branch first, or choose another integration target."@;
                assert(msg@ =~= "repo '"@ + repo@ + "': "@ + why);
            } else {
                assert(msg@ == "repo '"@ + repo@ + "': "@ + (*current)->Err_0@);
            }
        },
        _ => {},
    }
}

/// What is kept to run a run again holds the run's own values, and every
/// repository of it that is known, in the order of the names.
pub proof fn law_contexts_hold_every_repository(
    id: &str,
    workspace: &str,
    goal: &str,
    verify: &str,
    language: Language,
    cwd: &str,
    names: &Vec<String>,
    repos: &StrMap<RepoRun>,
    r: PersistCtx,
    i: int,
)
    requires
        repos.wf(),
        call_ensures(
            build_persist_ctx,
            (id, workspace, goal, verify, language, cwd, names, repos),
            r,
        ),
    ensures
        r.id@ == id@ && r.workspace@ == workspace@ && r.goal@ == goal@,
        r.default_verify@ == verify@ && r.language == language && r.plan_cwd@ == cwd@,
        r.plan_json is None,
        ({
            let known = names@.filter(|n: String| repos@.contains_key(n@));
            &&& r.repos@.len() == known.len()
            &&& 0 <= i < known.len() ==> {
                let rc = repos@[known[i]@];
                &&& r.repos@[i].name == known[i]
                &&& r.repos@[i].path == rc.path
                &&& r.repos@[i].base_ref == rc.base_ref
                &&& r.repos@[i].integration_branch == rc.integration_branch
            }
        }),
{
    lemma_known_repos(names@, repos@);
}

/// The repositories that are kept, by the names that are known.
pub proof fn lemma_known_repos(names: Seq<String>, repos: Map<Seq<char>, RepoRun>)
    ensures
        ({
            let known = names.filter(|n: String| repos.contains_key(n@));
            run::known_repos(names, repos) == Seq::new(
                known.len(),
                |i: int|
                    PersistedRepo {
                        name: known[i],
                        path: repos[known[i]@].path,
                        base_ref: repos[known[i]@].base_ref,
                        integration_branch: repos[known[i]@].integration_branch,
                    },
            )
        }),
    decreases names.len(),
{
    reveal(Seq::filter);
    let keep = |n: String| repos.contains_key(n@);
    let known = names.filter(keep);
    let all = Seq::new(
        known.len(),
        |i: int|
            PersistedRepo {
                name: known[i],
                path: repos[known[i]@].path,
                base_ref: repos[known[i]@].base_ref,
                integration_branch: repos[known[i]@].integration_branch,
            },
    );
    if names.len() > 0 {
        lemma_known_repos(names.drop_last(), repos);
    }
    assert(run::known_repos(names, repos) =~= all);
}

/// What a refused request is answered: an unknown run is not found, what is in
/// flight is a conflict, and anything else that cannot be done is a bad request.
pub proof fn law_refusals_have_their_status(
    start: &StartError,
    retry: &RetryError,
    resume: &ResumeError,
    a: u16,
    b: u16,
    c: u16,
)
    requires
        call_ensures(StartError::status, (start,), a),
        call_ensures(RetryError::status, (retry,), b),
        call_ensures(ResumeError::status, (resume,), c),
    ensures
        *start is WorkspaceBusy ==> a == 409,
        *start is Invalid ==> a == 400,
        *retry is NotFound ==> b == 404,
        *retry is RunActive ==> b == 409,
        *retry is NotBlocked ==> b == 400,
        *resume is NotFound ==> c == 404,
        *resume is RunActive ==> c == 409,
        *resume is NotResumable || *resume is NoPlan ==> c == 400,
{
}

/// A refused request tells why: that the run is not known, that something is in
/// flight, or what else stands in the way.
pub proof fn law_refusals_tell_why(
    start: &StartError,
    retry: &RetryError,
    resume: &ResumeError,
    a: String,
    b: String,
    c: String,
)
    requires
        call_ensures(StartError::message, (start,), a),
        call_ensures(RetryError::message, (retry,), b),
        call_ensures(ResumeError::message, (resume,), c),
    ensures
        *start matches StartError::Invalid(why) ==> a@ == why@,
        *start is WorkspaceBusy ==> a@
            == "this workspace already has a run in flight; only one run per workspace at a time"@,
        *retry is NotFound ==> b@ == "no such run"@,
        *resume is NotFound ==> c@ == "no such run"@,
        *retry is RunActive ==> b@
            == "the run is still in flight; wait for it to finish before retrying an epic"@,
        *resume is RunActive ==> c@
            == "the run is still in flight; wait for it to finish before resuming"@,
        *retry is NotBlocked ==> b@ == "only a failed or conflicted epic can be retried"@,
        *resume is NotResumable ==> c@ == "this run has no unfinished epics to resume"@,
        *resume is NoPlan ==> c@ == "the saved plan for this run could not be read"@,
{
}

} // verus!
