//! Plans, the scheduler, and the driver around it.
use agentic_tui::app::{App, EpicStatus, Language, Phase, StageEvent, Usd};
use agentic_tui::driver::{
    end_event, merge_end, prepare_epic, retry_epic, Driver, EpicEnd, RetryPlan, Step, GAVE_UP,
};
use agentic_tui::epic_run::{EpicAction, EpicInput, EpicPhase, EpicRun};
use agentic_tui::orchestrator::{
    epic_base_ref, repo_by_id, EpicState, RepoRun, RunConfig, Scheduler,
};
use agentic_tui::pipeline::{
    accept_plan, epic_stage, plan_file, plan_ready, plan_stage, refine_stage, resolve_setting,
};
use agentic_tui::plan::{Epic, Plan, PlanError, Task};
use agentic_tui::strmap::StrMap;
use agentic_tui::worktree::{
    create_commands, integration_worktree, remove_commands, worktree_for, GitCommand, MergePlace,
    MergeResult, MergeRun, MergeStep,
};
use serde_json::Value;

fn usd(amount: f64) -> Usd {
    Usd { bits: amount.to_bits() }
}

fn text_of(v: &Value, key: &str) -> String {
    v.get(key).and_then(Value::as_str).unwrap_or_default().to_string()
}

fn texts_of(v: &Value, key: &str) -> Vec<String> {
    match v.get(key).and_then(Value::as_array) {
        Some(list) => list.iter().map(|t| t.as_str().unwrap().to_string()).collect(),
        None => vec![],
    }
}

fn plan(json: &str) -> Plan {
    let v: Value = serde_json::from_str(json).unwrap();
    let mut epics = vec![];
    for e in v["epics"].as_array().unwrap() {
        let mut tasks = vec![];
        if let Some(list) = e.get("tasks").and_then(Value::as_array) {
            for t in list {
                tasks.push(Task {
                    id: text_of(t, "id"),
                    title: text_of(t, "title"),
                    detail: text_of(t, "detail"),
                });
            }
        }
        epics.push(Epic {
            id: text_of(e, "id"),
            title: text_of(e, "title"),
            repo: text_of(e, "repo"),
            verify: e.get("verify").and_then(Value::as_str).map(str::to_string),
            depends_on: texts_of(e, "depends_on"),
            acceptance: texts_of(e, "acceptance"),
            tasks,
        });
    }
    Plan { epics }
}

fn scheduler(json: &str, max_parallel: usize) -> Scheduler {
    Scheduler::new(&plan(json), max_parallel)
}

fn diamond() -> &'static str {
    // a -> b, a -> c, (b,c) -> d
    r#"{"epics":[
            {"id":"a","title":"a"},
            {"id":"b","title":"b","depends_on":["a"]},
            {"id":"c","title":"c","depends_on":["a"]},
            {"id":"d","title":"d","depends_on":["b","c"]}
        ]}"#
}

fn plan_json() -> &'static str {
    r#"{
          "epics": [
            {"id": "a", "title": "Base", "depends_on": [], "acceptance": ["x"],
             "tasks": [{"id": "a1", "title": "do a1", "detail": "details"}]},
            {"id": "b", "title": "Build on base", "depends_on": ["a"], "tasks": []}
          ]
        }"#
}

#[test]
fn resolve_setting_prefers_flag_then_config_then_default() {
    assert_eq!(resolve_setting(Some("flag"), Some("config"), "default"), "flag");
    assert_eq!(resolve_setting(None, Some("config"), "default"), "config");
    assert_eq!(resolve_setting(None, None, "default"), "default");
}

#[test]
fn orchestrator_only_dependency_free_epics_are_ready_at_first() {
    let sched = scheduler(diamond(), 3);
    assert_eq!(sched.next_ready(), vec!["a".to_string()]);
}

#[test]
fn orchestrator_dependents_become_ready_after_their_dependency_succeeds() {
    let mut sched = scheduler(diamond(), 3);
    sched.mark_running("a");
    sched.mark_succeeded("a");
    let mut ready = sched.next_ready();
    ready.sort();
    assert_eq!(ready, vec!["b".to_string(), "c".to_string()]);
}

#[test]
fn orchestrator_the_parallel_cap_limits_how_many_are_ready() {
    let mut sched = scheduler(diamond(), 1);
    sched.mark_running("a");
    sched.mark_succeeded("a");
    assert_eq!(sched.next_ready().len(), 1);
}

#[test]
fn orchestrator_running_epics_consume_parallel_slots() {
    let mut sched = scheduler(diamond(), 2);
    sched.mark_running("a");
    sched.mark_succeeded("a");
    sched.mark_running("b");
    // cap 2, one running (b), so one more slot -> exactly one ready (c).
    assert_eq!(sched.next_ready(), vec!["c".to_string()]);
    assert_eq!(sched.running_count(), 1);
}

#[test]
fn orchestrator_a_failed_epic_skips_its_transitive_dependents() {
    let mut sched = scheduler(diamond(), 3);
    sched.mark_running("a");
    sched.mark_failed("a");
    assert_eq!(sched.state("b"), Some(EpicState::Skipped));
    assert_eq!(sched.state("c"), Some(EpicState::Skipped));
    assert_eq!(sched.state("d"), Some(EpicState::Skipped));
    assert!(sched.is_done());
}

#[test]
fn orchestrator_independent_epics_survive_a_failure() {
    let mut sched = scheduler(
        r#"{"epics":[
                {"id":"a","title":"a"},
                {"id":"b","title":"b","depends_on":["a"]},
                {"id":"x","title":"x"}
            ]}"#,
        3,
    );
    sched.mark_running("a");
    sched.mark_failed("a");
    assert_eq!(sched.state("b"), Some(EpicState::Skipped));
    assert_eq!(sched.state("x"), Some(EpicState::Pending));
    assert_eq!(sched.next_ready(), vec!["x".to_string()]);
}

#[test]
fn orchestrator_is_done_only_when_no_epic_is_pending_or_running() {
    let mut sched = scheduler(diamond(), 3);
    assert!(!sched.is_done());
    for id in ["a", "b", "c", "d"] {
        sched.mark_running(id);
        sched.mark_succeeded(id);
    }
    assert!(sched.is_done());
}

#[test]
fn orchestrator_snapshot_reports_every_epic_state() {
    let mut sched = scheduler(diamond(), 3);
    sched.mark_running("a");
    sched.mark_failed("a");
    let snap = sched.snapshot();
    assert_eq!(snap.len(), 4);
    assert!(snap.iter().any(|(id, s)| id == "a" && *s == EpicState::Failed));
}

#[test]
fn an_unknown_epic_has_no_state() {
    let sched = scheduler(diamond(), 3);
    assert_eq!(sched.state("ghost"), None);
}

#[test]
fn a_late_failure_spares_what_already_succeeded() {
    let mut sched = scheduler(diamond(), 3);
    for id in ["a", "b"] {
        sched.mark_running(id);
        sched.mark_succeeded(id);
    }
    sched.mark_running("c");
    sched.mark_failed("c");
    assert_eq!(sched.state("a"), Some(EpicState::Succeeded));
    assert_eq!(sched.state("b"), Some(EpicState::Succeeded));
    assert_eq!(sched.state("d"), Some(EpicState::Skipped));
    assert!(sched.is_done());
}

#[test]
fn base_ref_uses_integration_only_for_a_same_repo_dep() {
    let rc = RepoRun {
        path: "/tmp/x".to_string(),
        base_ref: "main".to_string(),
        integration_branch: "agentic-integration".to_string(),
    };
    let mut repo_by_id = StrMap::new();
    repo_by_id.insert("a".to_string(), "greentic".to_string());
    repo_by_id.insert("b".to_string(), "greentic".to_string());
    repo_by_id.insert("c".to_string(), "billing".to_string());

    // same-repo dependency -> integration
    let same = Epic {
        id: "b".into(),
        title: "B".into(),
        repo: "greentic".into(),
        verify: None,
        depends_on: vec!["a".into()],
        acceptance: vec![],
        tasks: vec![],
    };
    assert_eq!(epic_base_ref(&same, &repo_by_id, &rc), "agentic-integration");

    // cross-repo dependency only -> base
    let cross = Epic {
        id: "c".into(),
        title: "C".into(),
        repo: "billing".into(),
        verify: None,
        depends_on: vec!["a".into()],
        acceptance: vec![],
        tasks: vec![],
    };
    assert_eq!(epic_base_ref(&cross, &repo_by_id, &rc), "main");

    // no dependency -> base
    let free = Epic {
        id: "a".into(),
        title: "A".into(),
        repo: "greentic".into(),
        verify: None,
        depends_on: vec![],
        acceptance: vec![],
        tasks: vec![],
    };
    assert_eq!(epic_base_ref(&free, &repo_by_id, &rc), "main");
}

#[test]
fn validate_accepts_a_well_formed_plan() {
    let plan = plan(plan_json());
    assert!(plan.validate().is_ok());
}

#[test]
fn validate_rejects_a_dependency_on_an_unknown_epic() {
    let plan = plan(r#"{"epics":[{"id":"a","title":"t","depends_on":["ghost"]}]}"#);
    assert!(plan.validate().is_err());
    let err = plan.validate().unwrap_err();
    assert_eq!(
        err,
        PlanError::UnknownDependency { epic: "a".to_string(), dep: "ghost".to_string() }
    );
    assert!(err.message().contains("ghost"));
}

#[test]
fn validate_rejects_duplicate_epic_ids() {
    let plan = plan(r#"{"epics":[{"id":"a","title":"t"},{"id":"a","title":"u"}]}"#);
    assert!(plan.validate().is_err());
    assert_eq!(plan.validate(), Err(PlanError::DuplicateEpic { id: "a".to_string() }));
}

#[test]
fn validate_rejects_a_dependency_cycle() {
    let plan = plan(
        r#"{"epics":[
                {"id":"a","title":"t","depends_on":["b"]},
                {"id":"b","title":"u","depends_on":["a"]}
            ]}"#,
    );
    assert!(plan.validate().is_err());
    assert_eq!(plan.validate(), Err(PlanError::Cycle));
}

#[test]
fn topological_order_places_dependencies_first() {
    let plan = plan(plan_json());
    let order = plan.topological_order().unwrap();
    let pos_a = order.iter().position(|id| id == "a").unwrap();
    let pos_b = order.iter().position(|id| id == "b").unwrap();
    assert!(pos_a < pos_b);
}

#[test]
fn the_order_of_a_backwards_list() {
    let plan = plan(
        r#"{"epics":[
                {"id":"c","title":"t","depends_on":["b"]},
                {"id":"b","title":"u","depends_on":["a"]},
                {"id":"a","title":"v"}
            ]}"#,
    );
    assert_eq!(plan.topological_order(), Ok(vec!["a".to_string(), "b".to_string(), "c".to_string()]));
    assert_eq!(plan.first_index("b"), Some(1));
    assert_eq!(plan.first_index("z"), None);
}

#[test]
fn fill_missing_repo_only_fills_blanks() {
    let mut plan =
        plan(r#"{"epics":[{"id":"a","title":"A"},{"id":"b","title":"B","repo":"x"}]}"#);
    plan.fill_missing_repo("solo");
    assert_eq!(plan.epics[0].repo, "solo");
    assert_eq!(plan.epics[1].repo, "x", "an already-set repo is left alone");
}

#[test]
fn validate_repos_requires_known_nonempty_repo() {
    let names = vec!["greentic".to_string(), "billing".to_string()];

    let ok = plan(
        r#"{"epics":[{"id":"a","title":"A","repo":"greentic","depends_on":[]},
                        {"id":"b","title":"B","repo":"billing","depends_on":["a"]}]}"#,
    );
    assert!(ok.validate_repos(&names).is_ok(), "cross-repo dep is allowed");

    let unknown = plan(r#"{"epics":[{"id":"a","title":"A","repo":"ghost"}]}"#);
    assert!(unknown.validate_repos(&names).is_err());
    assert_eq!(
        unknown.validate_repos(&names).unwrap_err().message(),
        "epic a names unknown repo ghost"
    );

    let blank = plan(r#"{"epics":[{"id":"a","title":"A"}]}"#);
    assert!(blank.validate_repos(&names).is_err(), "empty repo is rejected");
    assert_eq!(blank.validate_repos(&names).unwrap_err().message(), "epic a has no repo");
}

#[test]
fn a_single_repo_fills_the_plan_before_it_is_checked() {
    let mut p = plan(r#"{"epics":[{"id":"a","title":"A"}]}"#);
    let event = accept_plan(&mut p, &vec!["solo".to_string()]).unwrap();
    assert_eq!(p.epics[0].repo, "solo");
    match event {
        StageEvent::PlanReady { epics } => {
            assert_eq!(epics.len(), 1);
            assert_eq!(epics[0].id, "a");
        }
        other => panic!("expected a ready plan, got {other:?}"),
    }
    let mut two = plan(r#"{"epics":[{"id":"a","title":"A"}]}"#);
    assert_eq!(
        accept_plan(&mut two, &vec!["x".to_string(), "y".to_string()]),
        Err(PlanError::MissingRepo { epic: "a".to_string() })
    );
}

#[test]
fn a_ready_plan_announces_every_epic() {
    match plan_ready(&plan(diamond())) {
        StageEvent::PlanReady { epics } => {
            let ids: Vec<&str> = epics.iter().map(|e| e.id.as_str()).collect();
            assert_eq!(ids, vec!["a", "b", "c", "d"]);
            assert_eq!(epics[3].depends_on, vec!["b".to_string(), "c".to_string()]);
        }
        other => panic!("expected a ready plan, got {other:?}"),
    }
}

#[test]
fn stages_carry_the_configured_limits() {
    assert_eq!(plan_file("/tmp/ws"), "/tmp/ws/.agentic-plan.json");
    let p = plan_stage("/tmp/ws", "go");
    assert_eq!((p.tag, p.cwd, p.model, p.max_turns, p.budget_cents), ("plan", "/tmp/ws", "opus", 20, 200));
    let e = epic_stage("epic-1", "/tmp/wt", "go");
    assert_eq!((e.tag, e.cwd, e.model, e.max_turns, e.budget_cents), ("epic-1", "/tmp/wt", "sonnet", 40, 200));
    let r = refine_stage("/tmp/ws", "go");
    assert_eq!((r.cwd, r.model, r.max_turns, r.budget_cents), ("/tmp/ws", "sonnet", 12, 20));
}

fn repo_run(path: &str) -> RepoRun {
    RepoRun {
        path: path.to_string(),
        base_ref: "HEAD".to_string(),
        integration_branch: "agentic-integration".to_string(),
    }
}

fn config(names: &[&str], goal: &str) -> RunConfig {
    let mut repos = StrMap::new();
    for name in names {
        repos.insert(name.to_string(), repo_run(&format!("/tmp/{name}")));
    }
    RunConfig {
        repos,
        goal: goal.to_string(),
        default_verify: "true".to_string(),
        initial_cost: usd(0.0),
        language: Language::English,
    }
}

/// Runs a merge whose commands all succeed but for those it is told to fail.
fn merge(repo: &str, place: MergePlace, branch: &str, failing: &[&str]) -> (Vec<GitCommand>, MergeResult) {
    let (mut run, first) = MergeRun::new(repo, place, branch, "agentic-integration", "HEAD");
    let mut commands = vec![];
    let mut next = first;
    loop {
        let ok = !failing.contains(&next.args[0].as_str());
        commands.push(next);
        match run.report(Ok(ok)) {
            MergeStep::Run(c) => next = c,
            MergeStep::End(end) => {
                assert!(run.is_over());
                return (commands, end.unwrap());
            }
        }
    }
}

#[test]
fn a_two_repo_plan_merges_each_epic_into_its_own_integration_branch() {
    let plan = plan(
        r#"{"epics":[
            {"id":"epic-a","title":"A","repo":"greentic","verify":"true","depends_on":[]},
            {"id":"epic-b","title":"B","repo":"billing","verify":"true","depends_on":[]}
        ]}"#,
    );
    let mut driver = Driver::new(&plan, config(&["greentic", "billing"], "spread work"));
    let started = match driver.next_step(false, false) {
        Step::Start(list) => list,
        other => panic!("expected epics to start, got {other:?}"),
    };
    assert_eq!(started.len(), 2);
    for start in started {
        let job = start.job.unwrap();
        let wt = worktree_for(&job.repo.path, &start.id);
        let (commands, result) =
            merge(&job.repo.path, MergePlace::Dedicated { ready: false }, &wt.branch, &[]);
        assert_eq!(result, MergeResult::Merged);
        let last = commands.last().unwrap();
        assert_eq!(last.dir, format!("{}/.agentic-worktrees/.integration", job.repo.path));
        assert_eq!(last.args, vec!["merge", "--no-edit", wt.branch.as_str()]);
        driver.finish(&start.id, EpicEnd::Merged);
    }
    assert_eq!(driver.next_step(false, false), Step::Finished(StageEvent::Done));
}

#[test]
fn run_resume_skips_seeded_epics_and_runs_the_rest() {
    // Two independent epics. epic-a is seeded as already merged, so only epic-b
    // should run.
    let plan = plan(
        r#"{"epics":[
            {"id":"epic-a","title":"A","repo":"greentic","verify":"true","depends_on":[]},
            {"id":"epic-b","title":"B","repo":"greentic","verify":"true","depends_on":[]}
        ]}"#,
    );
    let mut driver = Driver::resume(&plan, config(&["greentic"], "resume"), &vec!["epic-a".to_string()]);
    let mut started: Vec<String> = Vec::new();
    loop {
        match driver.next_step(false, false) {
            Step::Finished(_) => break,
            Step::Wait => panic!("nothing is in flight"),
            Step::Start(list) => {
                for start in list {
                    if let StageEvent::EpicStarted { id, .. } = start.event {
                        started.push(id);
                    }
                    driver.finish(&start.id, EpicEnd::Merged);
                }
            }
        }
    }
    assert_eq!(started, vec!["epic-b".to_string()], "only the non-seeded epic runs");
}

#[test]
fn a_failed_epic_announces_the_skipped_ones() {
    let plan = plan(diamond());
    let mut driver = Driver::new(&plan, config(&["r"], "g"));
    match driver.next_step(false, false) {
        Step::Start(list) => assert_eq!(list[0].id, "a"),
        other => panic!("expected a start, got {other:?}"),
    }
    assert_eq!(driver.next_step(true, false), Step::Wait);
    let events = driver.finish("a", EpicEnd::Failed { reason: "boom".to_string() });
    assert!(events.contains(&StageEvent::EpicFailed { id: "a".to_string(), reason: "boom".to_string() }));
    for id in ["b", "c", "d"] {
        assert!(events.contains(&StageEvent::EpicSkipped { id: id.to_string() }));
    }
    assert_eq!(driver.next_step(false, false), Step::Finished(StageEvent::Done));
}

#[test]
fn an_exhausted_budget_starts_nothing_new() {
    let plan = plan(diamond());
    let mut driver = Driver::new(&plan, config(&["r"], "g"));
    assert_eq!(driver.next_step(false, true), Step::Finished(StageEvent::Done));
}

#[test]
fn an_epic_of_an_unknown_repo_cannot_be_prepared() {
    let plan = plan(r#"{"epics":[{"id":"a","title":"A","repo":"ghost"}]}"#);
    let cfg = config(&["r"], "g");
    let owners = repo_by_id(&plan);
    let job = prepare_epic(&plan.epics[0], &owners, &cfg.repos, "g", "make verify");
    assert!(job.unwrap_err().contains("ghost"));
}

#[test]
fn a_prepared_epic_uses_its_own_verify_command() {
    let plan = plan(
        r#"{"epics":[{"id":"a","title":"A","repo":"r","verify":"cargo test"},
                     {"id":"b","title":"B","repo":"r","depends_on":["a"]}]}"#,
    );
    let cfg = config(&["r"], "g");
    let owners = repo_by_id(&plan);
    let a = prepare_epic(&plan.epics[0], &owners, &cfg.repos, "g", "make verify").unwrap();
    assert_eq!((a.verify.as_str(), a.base.as_str()), ("cargo test", "HEAD"));
    let b = prepare_epic(&plan.epics[1], &owners, &cfg.repos, "g", "make verify").unwrap();
    assert_eq!((b.verify.as_str(), b.base.as_str()), ("make verify", "agentic-integration"));
    assert!(b.prompt.contains("make verify"));
}

#[test]
fn an_end_becomes_its_event() {
    assert_eq!(end_event("a", &EpicEnd::Merged), StageEvent::EpicMerged { id: "a".to_string() });
    assert_eq!(end_event("a", &EpicEnd::Conflict), StageEvent::EpicConflict { id: "a".to_string() });
    assert_eq!(
        end_event("a", &EpicEnd::Failed { reason: GAVE_UP.to_string() }),
        StageEvent::EpicFailed { id: "a".to_string(), reason: "verify failed after retry".to_string() }
    );
}

#[test]
fn a_retry_needs_an_epic_and_its_repo() {
    let plan = plan(r#"{"epics":[{"id":"a","title":"A","repo":"r"},{"id":"b","title":"B","repo":"ghost"}]}"#);
    let cfg = config(&["r"], "g");
    assert!(matches!(
        retry_epic(&plan, "zz", &cfg.repos, "g", "true"),
        RetryPlan::Missing { message } if message.contains("zz")
    ));
    assert!(matches!(
        retry_epic(&plan, "b", &cfg.repos, "g", "true"),
        RetryPlan::UnknownRepo { event: StageEvent::EpicFailed { .. } }
    ));
    match retry_epic(&plan, "a", &cfg.repos, "g", "true") {
        RetryPlan::Run { event, job } => {
            assert!(matches!(event, StageEvent::EpicStarted { id, .. } if id == "a"));
            assert_eq!(job.repo.path, "/tmp/r");
        }
        other => panic!("expected a run, got {other:?}"),
    }
}

#[test]
fn an_epic_that_verifies_is_merged() {
    let mut run = EpicRun::new("a");
    assert_eq!(run.phase(), EpicPhase::Creating);
    assert_eq!(run.step(EpicInput::Created).1, EpicAction::RunSession);
    let (events, action) =
        run.step(EpicInput::SessionEnded { ok: true, cost: usd(0.1), total: usd(0.1) });
    assert_eq!(action, EpicAction::RunVerify);
    assert!(events.contains(&StageEvent::Cost { total: usd(0.1) }));
    assert!(events.contains(&StageEvent::EpicVerifying { id: "a".to_string() }));
    let (events, action) = run.step(EpicInput::Verified { passed: true });
    assert_eq!(action, EpicAction::Merge);
    assert!(events.contains(&StageEvent::EpicSucceeded { id: "a".to_string(), cost: usd(0.1) }));
    assert_eq!(run.phase(), EpicPhase::Passed);
}

#[test]
fn a_failed_verify_is_retried_once_from_a_fresh_worktree() {
    let mut run = EpicRun::new("a");
    run.step(EpicInput::Created);
    run.step(EpicInput::SessionEnded { ok: true, cost: usd(0.1), total: usd(0.1) });
    assert_eq!(run.step(EpicInput::Verified { passed: false }).1, EpicAction::DiscardWorktree);
    assert_eq!(run.step(EpicInput::Discarded).1, EpicAction::CreateWorktree);
    assert_eq!(run.step(EpicInput::Created).1, EpicAction::RunSession);
    run.step(EpicInput::SessionEnded { ok: true, cost: usd(0.1), total: usd(0.2) });
    assert_eq!(run.step(EpicInput::Verified { passed: false }).1, EpicAction::DiscardWorktree);
    assert_eq!(run.step(EpicInput::Discarded).1, EpicAction::GiveUp);
    assert_eq!(run.phase(), EpicPhase::GaveUp);
    assert_eq!(run.step(EpicInput::Created).1, EpicAction::Ignore);
}

#[test]
fn an_epic_without_a_worktree_fails() {
    let mut run = EpicRun::new("a");
    let (_, action) = run.step(EpicInput::CreateFailed { reason: "no disk".to_string() });
    assert_eq!(action, EpicAction::Fail { reason: "no disk".to_string() });
    assert_eq!(run.phase(), EpicPhase::Broken);
}

#[test]
fn create_and_merge_a_clean_epic() {
    let wt = worktree_for("/tmp/repo", "epic-1");
    assert_eq!(wt.path, "/tmp/repo/.agentic-worktrees/epic-1");
    assert_eq!(wt.branch, "agentic/epic-1");
    let create = create_commands("/tmp/repo", &wt, "main");
    assert_eq!(create.len(), 3);
    assert_eq!(
        create[2].args,
        vec!["worktree", "add", "-b", "agentic/epic-1", "/tmp/repo/.agentic-worktrees/epic-1", "main"]
    );
    assert!(create[2].must_succeed && !create[0].must_succeed);

    let (commands, result) = merge("/tmp/repo", MergePlace::MainTree, &wt.branch, &["rev-parse"]);
    assert_eq!(result, MergeResult::Merged);
    let words: Vec<String> = commands.iter().map(|c| c.args.join(" ")).collect();
    assert_eq!(
        words,
        vec![
            "rev-parse --verify agentic-integration",
            "branch agentic-integration HEAD",
            "checkout agentic-integration",
            "merge --no-edit agentic/epic-1",
        ]
    );
    let remove = remove_commands("/tmp/repo", &wt);
    assert_eq!(remove[0].args, vec!["worktree", "remove", "--force", "/tmp/repo/.agentic-worktrees/epic-1"]);
    assert_eq!(remove[1].args, vec!["branch", "-D", "agentic/epic-1"]);
}

#[test]
fn a_conflicting_epic_is_reported_not_resolved() {
    let (commands, result) = merge("/tmp/repo", MergePlace::MainTree, "agentic/epic-2", &["merge"]);
    assert_eq!(result, MergeResult::Conflict);
    assert_eq!(commands.last().unwrap().args, vec!["merge", "--abort"]);
}

#[test]
fn a_later_merge_reuses_the_dedicated_worktree() {
    let dir = integration_worktree("/tmp/repo");
    let (commands, _) = merge("/tmp/repo", MergePlace::Dedicated { ready: true }, "agentic/x", &[]);
    let places: Vec<(&str, &str)> =
        commands.iter().map(|c| (c.dir.as_str(), c.args[0].as_str())).collect();
    assert_eq!(
        places,
        vec![("/tmp/repo", "rev-parse"), (dir.as_str(), "checkout"), (dir.as_str(), "merge")]
    );
    let (commands, _) = merge("/tmp/repo", MergePlace::Dedicated { ready: false }, "agentic/x", &[]);
    assert_eq!(
        commands[1].args,
        vec!["worktree", "add", dir.as_str(), "agentic-integration"]
    );
}

#[test]
fn a_git_failure_ends_the_merge() {
    let (mut run, _) = MergeRun::new("/r", MergePlace::MainTree, "b", "i", "HEAD");
    assert_eq!(
        run.report(Err("no git".to_string())),
        MergeStep::End(Err("no git".to_string()))
    );
    assert!(run.is_over());
}

#[test]
fn a_worktree_goes_only_once_its_work_is_merged() {
    assert_eq!(merge_end(&Ok(MergeResult::Merged)), (EpicEnd::Merged, true));
    assert_eq!(merge_end(&Ok(MergeResult::Conflict)), (EpicEnd::Conflict, false));
    assert_eq!(
        merge_end(&Err("boom".to_string())),
        (EpicEnd::Failed { reason: "boom".to_string() }, false)
    );
}

fn statuses(app: &App) -> Vec<EpicStatus> {
    app.epics.iter().map(|card| card.status).collect()
}

#[test]
fn the_board_follows_the_schedule() {
    let plan = plan(
        r#"{"epics":[
            {"id":"a","title":"a","repo":"r"},
            {"id":"b","title":"b","repo":"r","depends_on":["a"]},
            {"id":"c","title":"c","repo":"r"},
            {"id":"d","title":"d","repo":"r","depends_on":["b"]}
        ]}"#,
    );
    let mut driver = Driver::new(&plan, config(&["r"], "g"));
    let mut app = App::new("g".to_string(), "w".to_string(), usd(10.0));
    app.apply_stage(plan_ready(&plan));
    assert_eq!(statuses(&app), vec![EpicStatus::Pending; 4]);
    let started = match driver.next_step(false, false) {
        Step::Start(list) => list,
        other => panic!("expected a start, got {other:?}"),
    };
    let ids: Vec<&str> = started.iter().map(|s| s.id.as_str()).collect();
    assert_eq!(ids, vec!["a", "c"]);
    for start in started {
        app.apply_stage(start.event);
    }
    board_is(&app, &["running", "pending", "running", "pending"]);
    app.apply_stage(StageEvent::EpicVerifying { id: "c".to_string() });
    board_is(&app, &["running", "pending", "verifying", "pending"]);
    for event in driver.finish("c", EpicEnd::Merged) {
        app.apply_stage(event);
    }
    board_is(&app, &["running", "pending", "merged", "pending"]);
    for event in driver.finish("a", EpicEnd::Conflict) {
        app.apply_stage(event);
    }
    board_is(&app, &["conflict", "skipped", "merged", "skipped"]);
    assert_eq!(driver.next_step(false, false), Step::Finished(StageEvent::Done));
    app.apply_stage(StageEvent::Done);
    assert_eq!(app.phase, Phase::Done);
}

fn board_is(app: &App, expected: &[&str]) {
    let words: Vec<String> =
        statuses(app).iter().map(|s| format!("{s:?}").to_lowercase()).collect();
    assert_eq!(words, expected);
}

/// Drives a run in which some epics fail, and returns its events.
fn events_of_run(plan: &Plan, failing: &[&str]) -> Vec<StageEvent> {
    let mut driver = Driver::new(plan, config(&["r"], "g"));
    let mut log = vec![];
    let mut running: Vec<String> = vec![];
    loop {
        match driver.next_step(!running.is_empty(), false) {
            Step::Start(list) => {
                for start in list {
                    log.push(start.event);
                    running.push(start.id);
                }
                assert!(running.len() <= 3);
            }
            Step::Wait => {
                let id = running.remove(0);
                let end = if failing.contains(&id.as_str()) {
                    EpicEnd::Failed { reason: "boom".to_string() }
                } else {
                    EpicEnd::Merged
                };
                log.extend(driver.finish(&id, end));
            }
            Step::Finished(event) => {
                log.push(event);
                return log;
            }
        }
    }
}

fn position(log: &[StageEvent], wanted: &StageEvent) -> usize {
    log.iter().position(|event| event == wanted).unwrap()
}

fn starts_of(log: &[StageEvent]) -> Vec<String> {
    let mut ids = vec![];
    for event in log {
        if let StageEvent::EpicStarted { id, .. } = event {
            ids.push(id.clone());
        }
    }
    ids
}

#[test]
fn a_run_tells_each_start_once_and_its_end_last() {
    let plan = plan(diamond());
    let log = events_of_run(&plan, &[]);
    assert_eq!(starts_of(&log), vec!["a", "b", "c", "d"]);
    assert_eq!(position(&log, &StageEvent::Done), log.len() - 1);
    for epic in &plan.epics {
        let start = StageEvent::EpicStarted {
            id: epic.id.clone(),
            title: epic.title.clone(),
            repo: epic.repo.clone(),
        };
        for dep in &epic.depends_on {
            let merged = StageEvent::EpicMerged { id: dep.clone() };
            assert!(position(&log, &merged) < position(&log, &start));
        }
    }
}

#[test]
fn a_run_tells_what_it_never_started_as_skipped() {
    let log = events_of_run(&plan(diamond()), &["b"]);
    assert_eq!(starts_of(&log), vec!["a", "b", "c"]);
    assert!(log.contains(&StageEvent::EpicSkipped { id: "d".to_string() }));
    assert_eq!(position(&log, &StageEvent::Done), log.len() - 1);
}

#[test]
fn a_finished_run_waits_for_what_is_in_flight() {
    let mut driver = Driver::new(&plan(diamond()), config(&["r"], "g"));
    assert_eq!(driver.next_step(true, true), Step::Wait);
    assert_eq!(driver.next_step(false, true), Step::Finished(StageEvent::Done));
}

#[test]
fn a_refused_plan_is_left_alone_or_only_filled() {
    let mut bad = plan(r#"{"epics":[{"id":"a","title":"A","depends_on":["x"]}]}"#);
    let before = bad.clone();
    assert!(accept_plan(&mut bad, &vec!["r".to_string()]).is_err());
    assert_eq!(bad, before);
    let mut other = plan(
        r#"{"epics":[{"id":"a","title":"A"},{"id":"b","title":"B","repo":"elsewhere"}]}"#,
    );
    let refused = accept_plan(&mut other, &vec!["r".to_string()]);
    assert_eq!(
        refused,
        Err(PlanError::UnknownRepo { epic: "b".to_string(), repo: "elsewhere".to_string() })
    );
    assert_eq!(other.epics[0].repo, "r");
}
