//! The run registry, what is kept of runs on disk, and the start gates.
use agentic_tui::app::{App, EpicMeta, EpicStatus, EpicView, Language, Phase, StageEvent, Usd};
use agentic_tui::dto::{RepoDto, StartRunRequest, WorkspaceDto, requested_paths, requested_workspace};
use agentic_tui::orchestrator::RepoRun;
use agentic_tui::registry::{check_repos, resolve_repos, RefProbe, Registry, ABORTED};
use agentic_tui::run::{
    base_ref_or_head, build_persist_ctx, gate_base, gate_branch, integration_branch_for,
    integration_or_default, next_id_after, recover_interrupted, resumable, should_persist,
    snapshot_to_persist, PersistCtx, ResumeError, RetryError, StartError, INTERRUPTED,
    INTERRUPTED_EPIC,
};
use agentic_tui::run_store::{is_run_file, run_file, run_tmp_file, PersistedRepo, PersistedRun};
use agentic_tui::strmap::StrMap;
use agentic_tui::workspace::{Repo, Workspace};

fn usd(amount: f64) -> Usd {
    Usd { bits: amount.to_bits() }
}

fn new_app(goal: &str, workspace: &str) -> App {
    App::new(goal.to_string(), workspace.to_string(), usd(10.0))
}

fn card(id: &str, title: &str, status: EpicStatus, cost: f64) -> EpicView {
    EpicView {
        id: id.into(),
        title: title.into(),
        status,
        cost: usd(cost),
        repo: "r".into(),
        depends_on: vec![],
        reason: None,
    }
}

fn ctx(id: &str, plan_json: Option<&str>) -> PersistCtx {
    PersistCtx {
        id: id.to_string(),
        workspace: "greentic".to_string(),
        goal: "g".to_string(),
        default_verify: "make verify".to_string(),
        language: Language::English,
        plan_cwd: "/tmp/cwd".to_string(),
        repos: vec![],
        plan_json: plan_json.map(str::to_string),
    }
}

#[test]
fn should_persist_ignores_streaming_events_only() {
    assert!(!should_persist(&StageEvent::StageLog { tag: "plan".into(), line: "hi".into() }));
    assert!(!should_persist(&StageEvent::StageAssistant { tag: "plan".into(), text: "hi".into() }));
    assert!(!should_persist(&StageEvent::StageTool {
        tag: "plan".into(),
        name: "Read".into(),
        input: String::new(),
    }));
    assert!(should_persist(&StageEvent::Cost { total: usd(1.0) }));
    assert!(should_persist(&StageEvent::Done));
    assert!(should_persist(&StageEvent::EpicMerged { id: "a".into() }));
}

#[test]
fn persist_writes_a_snapshot_once_past_planning() {
    let shared = Some(r#"{"epics":[]}"#.to_string());
    let ctx = ctx("7", None);

    // Planning phase writes nothing.
    let mut app = new_app("g", "greentic");
    assert_eq!(snapshot_to_persist(&ctx, &app, &shared), None);

    // Implementing phase writes a snapshot carrying the plan JSON.
    app.phase = Phase::Implementing;
    let saved = snapshot_to_persist(&ctx, &app, &shared).unwrap();
    assert_eq!(saved.id, "7");
    assert_eq!(saved.plan_json, r#"{"epics":[]}"#);
    assert_eq!(saved.app, app);
}

#[test]
fn persist_prefers_ctx_plan_over_a_since_overwritten_shared_file() {
    let plan_1 = r#"{"epics":[{"id":"a","title":"A","repo":"r","depends_on":[]}]}"#;
    let plan_2 = r#"{"epics":[{"id":"z","title":"Z","repo":"r","depends_on":[]}]}"#;
    let mut app = new_app("g", "greentic");
    app.phase = Phase::Implementing;
    let saved =
        snapshot_to_persist(&ctx("1", Some(plan_1)), &app, &Some(plan_2.to_string())).unwrap();
    assert_eq!(saved.plan_json, plan_1, "the ctx's own plan must win over the shared file");
    let saved = snapshot_to_persist(&ctx("1", None), &app, &None).unwrap();
    assert_eq!(saved.plan_json, "");
}

#[test]
fn recover_interrupted_fails_a_mid_flight_run() {
    let mut app = new_app("g", "ws");
    app.phase = Phase::Implementing;
    app.epics = vec![
        card("a", "A", EpicStatus::Running, 0.0),
        card("b", "B", EpicStatus::Merged, 0.1),
        card("c", "C", EpicStatus::Pending, 0.0),
    ];

    recover_interrupted(&mut app);

    assert_eq!(app.phase, Phase::Failed);
    assert!(app.error.is_some());
    assert_eq!(app.error.as_deref(), Some(INTERRUPTED));
    assert_eq!(app.epics[0].status, EpicStatus::Failed, "Running becomes Failed");
    assert!(app.epics[0].reason.is_some());
    assert_eq!(app.epics[0].reason.as_deref(), Some(INTERRUPTED_EPIC));
    assert_eq!(app.epics[1].status, EpicStatus::Merged, "Merged is kept");
    assert_eq!(app.epics[2].status, EpicStatus::Pending, "Pending is kept");
}

#[test]
fn recover_interrupted_leaves_a_finished_run_alone() {
    let mut app = new_app("g", "ws");
    app.phase = Phase::Done;
    app.epics = vec![card("a", "A", EpicStatus::Merged, 0.1)];
    recover_interrupted(&mut app);
    assert_eq!(app.phase, Phase::Done);
    assert!(app.error.is_none());
    assert_eq!(app.epics[0].status, EpicStatus::Merged);
}

fn persisted(id: &str, workspace: &str, app: App) -> PersistedRun {
    PersistedRun {
        id: id.to_string(),
        workspace: workspace.to_string(),
        goal: "g".to_string(),
        default_verify: "make verify".to_string(),
        language: Language::English,
        plan_cwd: "/tmp".to_string(),
        repos: vec![PersistedRepo {
            name: "r".to_string(),
            path: "/tmp/r".to_string(),
            base_ref: "HEAD".to_string(),
            integration_branch: "agentic/g".to_string(),
        }],
        plan_json: r#"{"epics":[]}"#.to_string(),
        app,
    }
}

#[test]
fn next_id_after_is_one_past_the_max_numeric_id() {
    let mut runs = vec![];
    for id in ["2", "5", "3"] {
        let mut app = new_app("g", "ws");
        app.phase = Phase::Done;
        runs.push(persisted(id, "ws", app));
    }
    assert_eq!(next_id_after(&runs), 6);
    runs.push(persisted("not-a-number", "ws", new_app("g", "ws")));
    assert_eq!(next_id_after(&runs), 6);
}

#[test]
fn next_id_after_starts_at_one_when_empty() {
    assert_eq!(next_id_after(&vec![]), 1);
}

#[test]
fn integration_branch_for_slugs_the_goal() {
    assert_eq!(
        integration_branch_for("Add a /healthz endpoint"),
        "agentic/add-a-healthz-endpoint"
    );
    assert_eq!(integration_branch_for("do nothing"), "agentic/do-nothing");
    // Leading/trailing/adjacent punctuation collapses to single dashes and
    // never leaves a leading or trailing dash.
    assert_eq!(integration_branch_for("  --Fix!! the   bug.  "), "agentic/fix-the-bug");
    // Non-ASCII becomes a separator, keeping the ref ASCII-safe.
    assert_eq!(integration_branch_for("Café münchen"), "agentic/caf-m-nchen");
    // An empty or all-punctuation goal still yields a valid branch.
    assert_eq!(integration_branch_for(""), "agentic/run");
    assert_eq!(integration_branch_for("!!! ???"), "agentic/run");
}

#[test]
fn integration_branch_for_caps_the_slug_length() {
    let long = "a".repeat(200);
    let branch = integration_branch_for(&long);
    // "agentic/" + at most 40 slug chars.
    assert!(branch.starts_with("agentic/"));
    assert!(branch.len() <= "agentic/".len() + 40, "got {branch}");
}

#[test]
fn a_capped_slug_never_ends_in_a_dash() {
    let goal = format!("{} tail", "a".repeat(40));
    assert_eq!(integration_branch_for(&goal), format!("agentic/{}", "a".repeat(40)));
    let goal = format!("{} tail", "a".repeat(39));
    assert_eq!(integration_branch_for(&goal), format!("agentic/{}", "a".repeat(39)));
}

#[test]
fn resumable_needs_a_failed_run_with_unfinished_work() {
    let mut app = new_app("g", "ws");
    app.epics = vec![card("a", "A", EpicStatus::Failed, 0.0)];

    app.phase = Phase::Implementing;
    assert!(!resumable(&app), "a running run is not resumable");

    app.phase = Phase::Failed;
    assert!(resumable(&app), "a failed run with a non-merged epic is resumable");

    app.epics[0].status = EpicStatus::Merged;
    assert!(!resumable(&app), "nothing left to resume when all epics merged");
}

#[test]
fn resume_error_messages_are_distinct() {
    assert_ne!(ResumeError::NotFound.message(), ResumeError::RunActive.message());
    assert_ne!(ResumeError::NotResumable.message(), ResumeError::NoPlan.message());
}

#[test]
fn refusals_have_their_status() {
    assert_eq!(StartError::Invalid("x".to_string()).status(), 400);
    assert_eq!(StartError::Invalid("x".to_string()).message(), "x");
    assert_eq!(StartError::WorkspaceBusy.status(), 409);
    assert_eq!(RetryError::NotFound.status(), 404);
    assert_eq!(RetryError::RunActive.status(), 409);
    assert_eq!(RetryError::NotBlocked.status(), 400);
    assert_eq!(RetryError::NotFound.message(), "no such run");
    assert_eq!(ResumeError::NotFound.status(), 404);
    assert_eq!(ResumeError::RunActive.status(), 409);
}

#[test]
fn only_finished_files_are_loaded() {
    assert_eq!(run_file("/runs", "7"), "/runs/7.json");
    assert_eq!(run_tmp_file("/runs", "7"), "/runs/7.json.tmp");
    assert!(is_run_file("7.json"));
    assert!(!is_run_file("7.json.tmp"));
    assert!(!is_run_file("notes.txt"));
    assert!(!is_run_file("json"));
}

fn workspace_dto(name: &str) -> WorkspaceDto {
    WorkspaceDto {
        name: name.to_string(),
        repos: vec![RepoDto {
            name: name.to_string(),
            path: format!("~/{name}"),
            base: None,
            integration: None,
        }],
    }
}

fn request(name: &str, goal: &str) -> StartRunRequest {
    StartRunRequest {
        workspace: workspace_dto(name),
        goal: goal.to_string(),
        verify: Some("true".to_string()),
        refine_cost: usd(0.0),
        language: Language::English,
    }
}

fn start(registry: &mut Registry, req: &StartRunRequest) -> Result<String, StartError> {
    let paths = requested_paths(&req.workspace, "/home/u");
    let ws = requested_workspace(&req.workspace, &paths);
    let probes: Vec<RefProbe> = ws
        .repos
        .iter()
        .map(|_| RefProbe { base: Ok(()), current: Ok(Some("main".to_string())) })
        .collect();
    registry.start(req, &ws, &probes, usd(10.0))
}

#[test]
fn registry_is_busy_per_workspace_and_keeps_aborted_runs_listed() {
    let mut registry = Registry::new();
    let run_a = start(&mut registry, &request("regA", "do nothing"))
        .expect("the first run in workspace regA must be accepted");

    // Same workspace, still active: rejected.
    let err = start(&mut registry, &request("regA", "do something else"))
        .expect_err("a second run in the same active workspace must be rejected");
    assert_eq!(err, StartError::WorkspaceBusy);

    // A different workspace is unaffected.
    let run_b = start(&mut registry, &request("regB", "do nothing"))
        .expect("a run in a different workspace must be accepted");

    let listed = registry.list();
    assert!(
        listed.iter().any(|s| s.id == run_a && s.workspace == "regA"),
        "list() must include the run started in workspace regA"
    );
    assert!(
        listed.iter().any(|s| s.id == run_b && s.workspace == "regB"),
        "list() must include the run started in workspace regB"
    );

    let ticket = registry.abort(&run_a).unwrap();
    assert_eq!(ticket.repo_paths, vec!["/home/u/regA".to_string()]);
    assert_eq!(ticket.event, StageEvent::Fatal { reason: ABORTED.to_string() });
    registry.record(&run_a, ticket.event, false);
    let aborted = registry.get(&run_a).unwrap();
    assert!(aborted.completed);
    assert_eq!(aborted.app.error, Some("run aborted".to_string()));

    let listed_after_abort = registry.list();
    let summary_a = listed_after_abort
        .iter()
        .find(|s| s.id == run_a)
        .expect("aborted run must still appear in list()");
    assert_eq!(summary_a.phase, Phase::Failed, "an aborted run must show a terminal phase");
    assert_eq!(registry.abort(&run_a), None);
    assert!(start(&mut registry, &request("regA", "again")).is_ok());
}

#[test]
fn a_run_streams_snapshots_to_done_with_the_expected_cost() {
    let mut registry = Registry::new();
    let id = start(&mut registry, &request("happy", "do nothing")).unwrap();
    let (snapshot, persist) =
        registry.record(&id, StageEvent::Cost { total: usd(0.25) }, true).unwrap();
    assert_eq!(snapshot.total_cost, usd(0.25));
    assert!(persist);
    let (last, _) = registry.record(&id, StageEvent::Done, true).unwrap();
    assert_eq!(last.phase, Phase::Done);
    assert_eq!(last.total_cost, usd(0.25));
    assert!(registry.get(&id).unwrap().completed);
    assert!(registry.record("no-such-run", StageEvent::Done, true).is_none());
}

#[test]
fn starting_a_run_with_no_repositories_is_400() {
    let mut registry = Registry::new();
    let req = StartRunRequest {
        workspace: WorkspaceDto { name: "empty".to_string(), repos: vec![] },
        goal: "do a thing".to_string(),
        verify: None,
        refine_cost: usd(0.0),
        language: Language::English,
    };
    let err = start(&mut registry, &req).unwrap_err();
    assert_eq!(err.status(), 400);
    assert!(
        err.message().contains("at least one repository"),
        "the 400 must explain the validation failure"
    );
}

#[test]
fn retrying_an_epic_of_an_unknown_run_is_404() {
    let mut registry = Registry::new();
    let err = registry.retry("no-such-run", "epic-1").unwrap_err();
    assert_eq!(err.status(), 404);
}

#[test]
fn start_rejects_an_invalid_base_ref() {
    let err = gate_base("badbase", "main", &Err("no such ref".to_string()))
        .expect_err("an unresolvable base ref must be rejected");
    assert!(matches!(err, StartError::Invalid(_)));
    assert_eq!(err.message(), "repo 'badbase': no such ref");
    assert!(gate_base("r", "  ", &Ok(())).unwrap_err().message().contains("requires a name"));
    assert!(gate_base("r", "agentic-integration", &Ok(())).is_ok());
}

#[test]
fn start_rejects_a_checked_out_integration_target() {
    let err = gate_branch("checkedout", "main", &Ok(Some("main".to_string())))
        .expect_err("an integration target checked out in the workspace must be rejected");
    assert!(matches!(err, StartError::Invalid(_)));
    assert!(gate_branch("r", "main", &Ok(Some("develop".to_string()))).is_ok());
    assert!(gate_branch("r", "main", &Ok(None)).is_ok());
    assert!(gate_branch("r", "main", &Err("no git".to_string())).is_err());
}

#[test]
fn a_blocked_epic_of_a_finished_run_can_be_retried() {
    let mut registry = Registry::new();
    let id = start(&mut registry, &request("ws", "g")).unwrap();
    registry.record(
        &id,
        StageEvent::PlanReady {
            epics: vec![
                EpicMeta { id: "a".to_string(), title: "A".to_string(), depends_on: vec![] },
                EpicMeta { id: "b".to_string(), title: "B".to_string(), depends_on: vec![] },
            ],
        },
        true,
    );
    registry.record(
        &id,
        StageEvent::EpicFailed { id: "a".to_string(), reason: "boom".to_string() },
        true,
    );
    registry.record(&id, StageEvent::EpicMerged { id: "b".to_string() }, true);
    assert_eq!(registry.retry(&id, "a"), Err(RetryError::RunActive));
    registry.record(&id, StageEvent::Done, true);
    assert_eq!(registry.retry(&id, "b"), Err(RetryError::NotBlocked));
    let ticket = registry.retry(&id, "a").unwrap();
    assert_eq!(ticket.ctx.id, id);
    assert!(!registry.get(&id).unwrap().completed);
    registry.close(&id);
    assert!(registry.get(&id).unwrap().completed);
}

#[test]
fn a_failed_run_is_resumed_with_its_saved_plan() {
    let mut registry = Registry::new();
    let id = start(&mut registry, &request("ws", "g")).unwrap();
    registry.record(
        &id,
        StageEvent::PlanReady {
            epics: vec![
                EpicMeta { id: "a".to_string(), title: "A".to_string(), depends_on: vec![] },
                EpicMeta { id: "b".to_string(), title: "B".to_string(), depends_on: vec![] },
            ],
        },
        true,
    );
    registry.record(&id, StageEvent::EpicMerged { id: "a".to_string() }, true);
    let saved = Some(Ok("{}".to_string()));
    assert_eq!(registry.resume(&id, &saved), Err(ResumeError::RunActive));
    registry.record(&id, StageEvent::Fatal { reason: "stop".to_string() }, true);
    assert_eq!(registry.resume(&id, &None), Err(ResumeError::NotFound));
    assert_eq!(registry.resume(&id, &Some(Err(()))), Err(ResumeError::NoPlan));
    let ticket = registry.resume(&id, &saved).unwrap();
    assert_eq!(ticket.merged, vec!["a".to_string()]);
    assert_eq!(ticket.ctx.plan_json, Some("{}".to_string()));
    assert_eq!(registry.resume("ghost", &saved), Err(ResumeError::NotFound));
}

#[test]
fn a_run_without_unfinished_work_is_not_resumed() {
    let mut registry = Registry::new();
    let id = start(&mut registry, &request("ws", "g")).unwrap();
    registry.record(&id, StageEvent::Done, true);
    assert_eq!(registry.resume(&id, &Some(Ok("{}".to_string()))), Err(ResumeError::NotResumable));
}

#[test]
fn restored_runs_are_listed_and_new_ids_come_after_them() {
    let mut app = new_app("g", "ws");
    app.phase = Phase::Implementing;
    app.epics = vec![card("a", "A", EpicStatus::Running, 0.0)];
    let mut registry = Registry::new();
    registry.rehydrate(vec![persisted("4", "ws", app)]);
    let entry = registry.get("4").unwrap();
    assert!(entry.completed);
    assert_eq!(entry.app.phase, Phase::Failed);
    let id = start(&mut registry, &request("ws", "next")).unwrap();
    assert_eq!(id, "5");
    let ids: Vec<String> = registry.list().into_iter().map(|s| s.id).collect();
    assert_eq!(ids, vec!["4".to_string(), "5".to_string()]);
}

#[test]
fn runs_are_listed_in_the_order_of_their_ids_as_texts() {
    let mut registry = Registry::new();
    for i in 0..11 {
        start(&mut registry, &request(&format!("w{i}"), "g")).unwrap();
    }
    let ids: Vec<String> = registry.list().into_iter().map(|s| s.id).collect();
    let mut sorted = ids.clone();
    sorted.sort();
    assert_eq!(ids, sorted);
    assert_eq!(ids.len(), 11);
}

#[test]
fn repositories_fall_back_to_head_and_the_default_branch() {
    assert_eq!(base_ref_or_head(&None), "HEAD");
    assert_eq!(base_ref_or_head(&Some("develop".to_string())), "develop");
    assert_eq!(integration_or_default(&None), "agentic-integration");
    assert_eq!(integration_or_default(&Some("wip".to_string())), "wip");
    let ws = Workspace {
        name: "ws".to_string(),
        repos: vec![
            Repo { name: "a".to_string(), path: "/a".to_string(), base: None, integration: None },
            Repo {
                name: "b".to_string(),
                path: "/b".to_string(),
                base: Some("main".to_string()),
                integration: Some("wip".to_string()),
            },
        ],
    };
    let repos = resolve_repos(&ws);
    assert_eq!(
        repos.get("a"),
        Some(&RepoRun {
            path: "/a".to_string(),
            base_ref: "HEAD".to_string(),
            integration_branch: "agentic-integration".to_string(),
        })
    );
    assert_eq!(repos.get("b").unwrap().integration_branch, "wip");
    assert!(repos.get("c").is_none());
}

#[test]
fn a_persist_context_names_the_repositories_in_order() {
    let mut repos = StrMap::new();
    for name in ["b", "a"] {
        repos.insert(
            name.to_string(),
            RepoRun {
                path: format!("/{name}"),
                base_ref: "HEAD".to_string(),
                integration_branch: "i".to_string(),
            },
        );
    }
    let ctx = build_persist_ctx(
        "1",
        "ws",
        "g",
        "make verify",
        Language::Indonesian,
        "/cwd",
        &vec!["a".to_string(), "b".to_string()],
        &repos,
    );
    assert_eq!(ctx.repos.len(), 2);
    assert_eq!(ctx.language, Language::Indonesian);
    assert_eq!(ctx.plan_json, None);
    let names: Vec<&str> = ctx.repos.iter().map(|r| r.name.as_str()).collect();
    assert_eq!(names, vec!["a", "b"]);
}

#[test]
fn the_first_offending_repository_is_named() {
    let repo = |name: &str| Repo {
        name: name.to_string(),
        path: format!("/{name}"),
        base: None,
        integration: Some("wip".to_string()),
    };
    let ws = Workspace { name: "ws".to_string(), repos: vec![repo("a"), repo("b")] };
    let probe = |branch: &str| RefProbe { base: Ok(()), current: Ok(Some(branch.to_string())) };
    let repos = check_repos(&ws, &vec![probe("main"), probe("main")]).ok().unwrap();
    assert_eq!(repos.len(), 2);
    let err = check_repos(&ws, &vec![probe("main"), probe("wip")]).err().unwrap();
    assert!(err.message().starts_with("repo 'b': cannot merge into 'wip'"));
    let bad = RefProbe { base: Err("no such ref".to_string()), current: Ok(None) };
    let err = check_repos(&ws, &vec![bad, probe("wip")]).err().unwrap();
    assert_eq!(err.message(), "repo 'a': no such ref");
}

#[test]
fn a_started_run_merges_into_the_default_branch() {
    let mut registry = Registry::new();
    let id = start(&mut registry, &request("ws", "Fix it")).unwrap();
    let rc = registry.get(&id).unwrap().repos.get("ws").unwrap().clone();
    assert_eq!(rc.base_ref, "HEAD");
    assert_eq!(rc.integration_branch, "agentic-integration");
}

#[test]
fn a_refused_start_changes_nothing() {
    let mut registry = Registry::new();
    let req = request("ws", "g");
    let ws = requested_workspace(&req.workspace, &vec!["/ws".to_string()]);
    let probe = |base: Result<(), String>, branch: &str| {
        vec![RefProbe { base, current: Ok(Some(branch.to_string())) }]
    };
    let bad = probe(Err("no such ref".to_string()), "main");
    let err = registry.start(&req, &ws, &bad, usd(10.0)).unwrap_err();
    assert_eq!(err.message(), "repo 'ws': no such ref");
    let taken = probe(Ok(()), "agentic-integration");
    let err = registry.start(&req, &ws, &taken, usd(10.0)).unwrap_err();
    assert!(err.message().starts_with("repo 'ws': cannot merge into 'agentic-integration'"));
    assert!(registry.list().is_empty());
    let fine = probe(Ok(()), "main");
    assert_eq!(registry.start(&req, &ws, &fine, usd(10.0)), Ok("1".to_string()));
    assert_eq!(
        registry.start(&req, &ws, &taken, usd(10.0)).unwrap_err().status(),
        400,
        "a repository is looked at before the workspace is"
    );
    assert_eq!(
        registry.start(&req, &ws, &fine, usd(10.0)),
        Err(StartError::WorkspaceBusy)
    );
}

#[test]
fn new_ids_stay_above_old_ones() {
    let mut registry = Registry::new();
    let first = start(&mut registry, &request("a", "g")).unwrap();
    let ticket = registry.abort(&first).unwrap();
    registry.record(&first, ticket.event, false);
    registry.close(&first);
    let second = start(&mut registry, &request("a", "g")).unwrap();
    assert_eq!((first.as_str(), second.as_str()), ("1", "2"));
}
