//! The pipeline around the orchestrator: where settings come from, where the
//! plan is written, and when a plan is accepted.
use vstd::prelude::*;
use vstd::string::*;

use crate::app::{EpicMeta, StageEvent};
use crate::config;
use crate::engine::StageSpec;
use crate::paths;
use crate::paths::join_path;
use crate::plan;
use crate::plan::{Plan, PlanError};
use crate::text;
use crate::text::clone_texts;

verus! {

/// Resolve a setting by precedence: the CLI flag, then the workspace config,
/// then the built-in default.
pub fn resolve_setting(flag: Option<&str>, configured: Option<&str>, default: &str) -> (r: String)
    ensures
        r@ == match flag {
            Some(f) => f@,
            None => match configured {
                Some(c) => c@,
                None => default@,
            },
        },
{
    match flag {
        Some(f) => f.to_string(),
        None => match configured {
            Some(c) => c.to_string(),
            None => default.to_string(),
        },
    }
}

/// Where the plan stage writes the plan.
pub fn plan_file(root: &str) -> (r: String)
    ensures
        r@ == paths::joined_path(root@, ".agentic-plan.json"@),
{
    join_path(root, ".agentic-plan.json")
}

/// What the plan session is asked to do, given its prompt.
pub fn plan_stage<'a>(root: &'a str, prompt: &'a str) -> (r: StageSpec<'a>)
    ensures
        r.tag@ == "plan"@,
        r.cwd@ == root@,
        r.model@ == config::MODEL_PLAN@,
        r.tools@ == config::PLAN_TOOLS@,
        r.max_turns == config::PLAN_MAX_TURNS,
        r.budget_cents == config::EPIC_BUDGET_CENTS,
        r.prompt@ == prompt@,
{
    StageSpec {
        tag: "plan",
        cwd: root,
        model: config::MODEL_PLAN,
        tools: config::PLAN_TOOLS,
        max_turns: config::PLAN_MAX_TURNS,
        budget_cents: config::EPIC_BUDGET_CENTS,
        prompt,
    }
}

/// What an epic's session is asked to do, given its worktree and prompt.
pub fn epic_stage<'a>(id: &'a str, worktree: &'a str, prompt: &'a str) -> (r: StageSpec<'a>)
    ensures
        r.tag@ == id@,
        r.cwd@ == worktree@,
        r.model@ == config::MODEL_EPIC@,
        r.tools@ == config::EPIC_TOOLS@,
        r.max_turns == config::EPIC_MAX_TURNS,
        r.budget_cents == config::EPIC_BUDGET_CENTS,
        r.prompt@ == prompt@,
{
    StageSpec {
        tag: id,
        cwd: worktree,
        model: config::MODEL_EPIC,
        tools: config::EPIC_TOOLS,
        max_turns: config::EPIC_MAX_TURNS,
        budget_cents: config::EPIC_BUDGET_CENTS,
        prompt,
    }
}

/// What a refine session is asked to do, given its prompt.
pub fn refine_stage<'a>(root: &'a str, prompt: &'a str) -> (r: StageSpec<'a>)
    ensures
        r.tag@ == "refine"@,
        r.cwd@ == root@,
        r.model@ == config::MODEL_REFINE@,
        r.tools@ == config::REFINE_TOOLS@,
        r.max_turns == config::REFINE_MAX_TURNS,
        r.budget_cents == config::REFINE_BUDGET_CENTS,
        r.prompt@ == prompt@,
{
    StageSpec {
        tag: "refine",
        cwd: root,
        model: config::MODEL_REFINE,
        tools: config::REFINE_TOOLS,
        max_turns: config::REFINE_MAX_TURNS,
        budget_cents: config::REFINE_BUDGET_CENTS,
        prompt,
    }
}

/// The meta data of an epic of the plan.
pub open spec fn is_meta(meta: EpicMeta, epic: plan::EpicModel) -> bool {
    meta.id@ == epic.id && meta.title@ == epic.title && text::views(meta.depends_on@)
        == epic.depends_on
}

/// The event tells that the plan is ready.
pub open spec fn tells_plan(ev: StageEvent, epics: Seq<plan::EpicModel>) -> bool {
    ev matches StageEvent::PlanReady { epics: metas } && metas@.len() == epics.len() && forall|
        i: int,
    |
        0 <= i < epics.len() ==> is_meta(#[trigger] metas@[i], epics[i])
}

/// The event that tells that the plan is ready.
pub fn plan_ready(plan: &Plan) -> (r: StageEvent)
    ensures
        tells_plan(r, plan@),
{
    let mut metas: Vec<EpicMeta> = Vec::new();
    let mut i: usize = 0;
    while i < plan.epics.len()
        invariant
            i <= plan.epics@.len(),
            metas@.len() == i,
            forall|j: int| 0 <= j < i ==> is_meta(#[trigger] metas@[j], plan@[j]),
        decreases plan.epics@.len() - i,
    {
        let epic = &plan.epics[i];
        metas.push(
            EpicMeta {
                id: epic.id.clone(),
                title: epic.title.clone(),
                depends_on: clone_texts(&epic.depends_on),
            },
        );
        assert(is_meta(metas@[i as int], plan@[i as int]));
        i = i + 1;
    }
    StageEvent::PlanReady { epics: metas }
}

/// The plan as it is run: where the run targets exactly one repository, that
/// one is filled in for every epic that names none.
pub open spec fn filled(
    epics: Seq<plan::EpicModel>,
    repo_names: Seq<Seq<char>>,
) -> Seq<plan::EpicModel> {
    if repo_names.len() == 1 {
        Seq::new(epics.len(), |i: int| plan::with_repo(epics[i], repo_names[0]))
    } else {
        epics
    }
}

/// Accept a plan for the named repositories: it must be valid, and every epic
/// must name one of them, where the only one is filled in for epics that name
/// none. Returns the event that tells that the plan is ready.
pub fn accept_plan(plan: &mut Plan, repo_names: &Vec<String>) -> (r: Result<StageEvent, PlanError>)
    ensures
        match r {
            Ok(ev) => {
                &&& plan::valid_plan(old(plan)@)
                &&& final(plan)@ == filled(old(plan)@, text::views(repo_names@))
                &&& forall|i: int|
                    0 <= i < final(plan)@.len() ==> plan::repo_named(
                        #[trigger] final(plan)@[i],
                        text::views(repo_names@),
                    )
                &&& tells_plan(ev, final(plan)@)
            },
            Err(PlanError::MissingRepo { epic }) => plan::valid_plan(old(plan)@) && final(plan)@
                == filled(old(plan)@, text::views(repo_names@)) && exists|i: int|
                #[trigger] plan::first_unnamed(
                    filled(old(plan)@, text::views(repo_names@)),
                    text::views(repo_names@),
                    i,
                ) && filled(old(plan)@, text::views(repo_names@))[i].repo.len() == 0 && epic@
                    == old(plan)@[i].id,
            Err(PlanError::UnknownRepo { epic, repo }) => plan::valid_plan(old(plan)@)
                && final(plan)@ == filled(old(plan)@, text::views(repo_names@)) && exists|
                i: int,
            | #[trigger]
                plan::first_unnamed(
                    filled(old(plan)@, text::views(repo_names@)),
                    text::views(repo_names@),
                    i,
                ) && filled(old(plan)@, text::views(repo_names@))[i].repo.len() > 0 && epic@
                    == old(plan)@[i].id && repo@ == filled(
                    old(plan)@,
                    text::views(repo_names@),
                )[i].repo,
            Err(PlanError::DuplicateEpic { id }) => final(plan)@ == old(plan)@ && exists|i: int|
                plan::first_repeat(old(plan)@, i) && old(plan)@[i].id == id@,
            Err(PlanError::UnknownDependency { epic, dep }) => final(plan)@ == old(plan)@
                && plan::unique_ids(old(plan)@) && exists|i: int, k: int| #[trigger]
                plan::first_unknown(old(plan)@, i, k) && old(plan)@[i].id == epic@
                    && old(plan)@[i].depends_on[k] == dep@,
            Err(PlanError::Cycle) => final(plan)@ == old(plan)@ && plan::unique_ids(old(plan)@)
                && plan::known_deps(old(plan)@) && plan::has_cycle(old(plan)@),
        },
{
    let ghost before = plan@;
    let ghost names = text::views(repo_names@);
    match plan.validate() {
        Ok(()) => {},
        Err(e) => {
            return Err(e);
        },
    }
    if repo_names.len() == 1 {
        plan.fill_missing_repo(repo_names[0].as_str());
        assert(names[0] == repo_names@[0]@);
        assert(plan@ =~= filled(before, names));
    } else {
        assert(plan@ == filled(before, names));
    }
    match plan.validate_repos(repo_names) {
        Ok(()) => {
            let ev = plan_ready(plan);
            Ok(ev)
        },
        Err(e) => {
            proof {
                let f = filled(before, names);
                assert forall|i: int| 0 <= i < f.len() implies (#[trigger] f[i]).id
                    == before[i].id by {}
            }
            Err(e)
        },
    }
}

} // verus!
