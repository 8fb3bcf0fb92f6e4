//! The pages of the browser.
use agentic_tui::api::{abort_url, check_status, failed_to, resume_url, retry_url, RUNS, SCAN, WORKSPACES};
use agentic_tui::app::{App, EpicStatus, EpicView, KanbanColumn, Language, Phase, Usd};
use agentic_tui::dashboard::{
    column_card_class, column_class, column_head_class, column_label, column_status_class,
    columns, dashboard_body, phase_class, phase_dot_class, phase_label, plural, run_line,
    run_link, running_label, status_label,
};
use agentic_tui::dto::{RepoDto, RunSummary, WorkspaceDto};
use agentic_tui::new_run::{
    common_root, datalist_id, normalize, BranchList, BranchStatus, FlowState, FormAction,
    NewRunForm, Screen,
};
use agentic_tui::run::resumable;
use agentic_tui::run_view::{
    can_retry, card_class, final_report, group_epics_by_repo, line_class, log_kind,
    log_line_of, log_line_view, report_status_class, run_body, status_class, tag_class, LogKind,
    RequestButton,
};
use agentic_tui::workspaces_view::{
    new_run_link, root_basename, workspace_summary, WorkspacesPage,
};

fn usd(amount: f64) -> Usd {
    Usd { bits: amount.to_bits() }
}

fn repo(name: &str, path: &str) -> RepoDto {
    RepoDto { name: name.to_string(), path: path.to_string(), base: None, integration: None }
}

fn epic(id: &str, status: EpicStatus, repo: &str, deps: &[&str]) -> EpicView {
    EpicView {
        id: id.to_string(),
        title: id.to_uppercase(),
        status,
        cost: usd(0.0),
        repo: repo.to_string(),
        depends_on: deps.iter().map(|d| d.to_string()).collect(),
        reason: None,
    }
}

fn summary(id: &str, workspace: &str, phase: Phase, epics: Vec<EpicView>, repos: &[&str]) -> RunSummary {
    RunSummary {
        id: id.to_string(),
        workspace: workspace.to_string(),
        goal: "g".to_string(),
        phase,
        total_cost: usd(0.0),
        epics,
        repos: repos.iter().map(|r| r.to_string()).collect(),
    }
}

fn loaded_form(repos: Vec<RepoDto>) -> NewRunForm {
    let mut form = NewRunForm::new("ws");
    form.loaded(&Ok(vec![
        WorkspaceDto { name: "other".to_string(), repos: vec![] },
        WorkspaceDto { name: "ws".to_string(), repos },
    ]));
    form
}

#[test]
fn refine_runs_in_the_shared_root() {
    assert_eq!(common_root(&vec![]), "");
    assert_eq!(common_root(&vec![repo("a", "/home/u/a")]), "/home/u");
    assert_eq!(common_root(&vec![repo("a", "/a")]), "/");
    assert_eq!(common_root(&vec![repo("a", "plain")]), "plain");
    assert_eq!(
        common_root(&vec![repo("a", "/home/u/x/a"), repo("b", "/home/u/x/b"), repo("c", "/home/u/y")]),
        "/home/u"
    );
    // Nothing but the filesystem root is shared: the first repo's own path.
    assert_eq!(common_root(&vec![repo("a", "/a/x"), repo("b", "/b/y")]), "/a/x");
    // The whole of one path can be shared.
    assert_eq!(common_root(&vec![repo("a", "/a/x"), repo("b", "/a/x/y")]), "/a/x");
}

#[test]
fn blank_inputs_are_unset() {
    assert_eq!(normalize("  "), None);
    assert_eq!(normalize(" make test "), Some("make test".to_string()));
}

#[test]
fn a_form_needs_a_goal_and_a_workspace() {
    let mut form = NewRunForm::new("ws");
    assert_eq!(form.screen(), Screen::Loading);
    assert_eq!(form.submit(), FormAction::Nothing);
    assert_eq!(form.flow(), &FlowState::Error("Enter a goal before starting.".to_string()));
    form.set_goal("do it");
    assert_eq!(form.submit(), FormAction::Nothing);
    assert_eq!(form.flow(), &FlowState::Error("The workspace is still loading.".to_string()));
    form.loaded(&Ok(vec![]));
    assert_eq!(form.load_error(), &Some("workspace 'ws' was not found".to_string()));
    assert_eq!(form.screen(), Screen::LoadError);
    let mut form = NewRunForm::new("ws");
    form.loaded(&Err("down".to_string()));
    assert_eq!(form.load_error(), &Some("down".to_string()));
}

#[test]
fn a_form_without_refining_starts_at_once() {
    let mut form = loaded_form(vec![repo("a", "/p/a")]);
    assert_eq!(form.submit_label(), "Refine & plan");
    form.toggle_refine();
    assert_eq!(form.submit_label(), "Start run");
    assert_eq!(form.screen(), Screen::Form);
    assert_eq!(form.repo_summary(), Some("/p/a".to_string()));
    form.set_goal("  do it ");
    form.set_verify("  ");
    form.set_language("indonesian");
    form.set_base(0, " main ");
    form.set_integration(0, "");
    form.set_base(7, "ignored");
    match form.submit() {
        FormAction::Start(req) => {
            assert_eq!(req.goal, "do it");
            assert_eq!(req.verify, None);
            assert_eq!(req.refine_cost, usd(0.0));
            assert_eq!(req.language, Language::Indonesian);
            assert_eq!(req.workspace.name, "ws");
            assert_eq!(req.workspace.repos[0].base, Some("main".to_string()));
            assert_eq!(req.workspace.repos[0].integration, None);
        }
        other => panic!("expected a start, got {other:?}"),
    }
    assert_eq!(form.screen(), Screen::Submitting);
    assert_eq!(form.launched(&Ok("12".to_string())), Some("/run/12".to_string()));
    assert_eq!(form.launched(&Err("busy".to_string())), None);
    assert_eq!(form.flow(), &FlowState::Error("busy".to_string()));
    assert_eq!(form.screen(), Screen::Form);
}

#[test]
fn refining_asks_answers_and_confirms() {
    let mut form = loaded_form(vec![repo("a", "/p/a"), repo("b", "/p/b")]);
    assert_eq!(form.repo_summary(), Some("2 repos".to_string()));
    form.set_goal("g");
    assert_eq!(
        form.submit(),
        FormAction::AskQuestions {
            root: "/p".to_string(),
            goal: "g".to_string(),
            language: Language::English,
        }
    );
    form.questions_ready(&Ok((
        "better g".to_string(),
        vec!["why?".to_string(), "when?".to_string()],
        usd(0.1),
    )));
    assert_eq!(form.screen(), Screen::Questions);
    form.set_answer(0, "because");
    form.set_answer(9, "ignored");
    match form.proceed() {
        FormAction::Finalize { root, goal, answers, cost, .. } => {
            assert_eq!((root.as_str(), goal.as_str()), ("/p", "g"));
            assert_eq!(
                answers,
                vec![
                    ("why?".to_string(), "because".to_string()),
                    ("when?".to_string(), String::new()),
                ]
            );
            assert_eq!(cost, usd(0.1));
        }
        other => panic!("expected the second pass, got {other:?}"),
    }
    form.finalized(&Ok(("best g".to_string(), usd(0.3))));
    assert_eq!(form.screen(), Screen::Confirmation);
    form.edit_goal("best g!");
    match form.plan() {
        FormAction::Start(req) => {
            assert_eq!(req.goal, "best g!");
            assert_eq!(req.refine_cost, usd(0.3));
            assert_eq!(req.workspace.repos[1].integration, Some("agentic-integration".to_string()));
        }
        other => panic!("expected a start, got {other:?}"),
    }
    assert_eq!(form.plan(), FormAction::Nothing);
    assert_eq!(form.proceed(), FormAction::Nothing);
}

#[test]
fn a_clear_goal_is_confirmed_without_questions() {
    let mut form = loaded_form(vec![repo("a", "/p/a")]);
    form.set_goal("g");
    form.submit();
    form.questions_ready(&Ok(("better".to_string(), vec![], usd(0.1))));
    assert_eq!(
        form.flow(),
        &FlowState::Confirming { goal: "better".to_string(), cost: usd(0.1) }
    );
    form.questions_ready(&Err("refine failed".to_string()));
    assert_eq!(form.flow(), &FlowState::Error("refine failed".to_string()));
}

#[test]
fn branches_fill_an_unset_base() {
    let mut form = loaded_form(vec![repo("a", "/p/a"), repo("b", "/p/b"), repo("c", "/p/c")]);
    assert_eq!(form.repos()[0].status_hint(), Some("Loading branches..."));
    assert_eq!(form.repos()[0].base_choices(), None);
    form.branches_listed(
        0,
        &Some(BranchList {
            current: Some("dev".to_string()),
            branches: vec!["main".to_string(), "dev".to_string()],
        }),
    );
    assert_eq!(form.repos()[0].base, "dev");
    assert_eq!(
        form.repos()[0].base_choices(),
        Some(vec![("main".to_string(), false), ("dev".to_string(), true)])
    );
    assert_eq!(form.repos()[0].status_hint(), None);
    form.branches_listed(1, &None);
    assert_eq!(form.repos()[1].base, "HEAD");
    assert_eq!(form.repos()[1].status, BranchStatus::Failed);
    assert_eq!(
        form.repos()[1].status_hint(),
        Some("Could not list branches; enter refs by hand.")
    );
    form.set_base(2, "kept");
    form.branches_listed(2, &Some(BranchList { current: None, branches: vec!["m".to_string()] }));
    assert_eq!(form.repos()[2].base, "kept");
    assert_eq!(datalist_id(3), "branches-3");
}

#[test]
fn a_scan_prefills_the_wizard() {
    let mut page = WorkspacesPage::new();
    assert_eq!(page.start_scan(), None);
    assert_eq!(page.scan_error(), &Some("Enter a folder path before scanning.".to_string()));
    page.set_root("/home/u/work/");
    assert_eq!(page.start_scan(), Some("/home/u/work/".to_string()));
    assert_eq!(page.busy(), (true, false));
    page.scan_done("/home/u/work/", Ok(vec![repo("a", "/w/a"), repo("b", "/w/b")]));
    assert_eq!(page.group_name(), "work");
    assert_eq!(page.found_label(), Some("2 repositories found".to_string()));
    assert!(page.is_checked("/w/a") && page.is_checked("/w/b"));
    page.toggle("/w/a");
    assert!(!page.is_checked("/w/a"));
    let group = page.save().unwrap();
    assert_eq!(group.name, "work");
    assert_eq!(group.repos, vec![repo("b", "/w/b")]);
    assert!(page.saved(Ok(())));
    assert!(page.found().is_empty());
    assert_eq!(page.group_name(), "");
    assert_eq!(page.found_label(), None);
}

#[test]
fn a_save_names_what_is_missing() {
    let mut page = WorkspacesPage::new();
    assert_eq!(page.save(), None);
    assert_eq!(
        page.save_error(),
        &Some("Enter a workspace name and check at least one repo before saving.".to_string())
    );
    page.set_group_name("g");
    page.save();
    assert_eq!(page.save_error(), &Some("Check at least one repo before saving.".to_string()));
    page.scan_done("/", Ok(vec![repo("a", "/a")]));
    page.set_group_name("  ");
    page.save();
    assert_eq!(page.save_error(), &Some("Enter a workspace name before saving.".to_string()));
    page.set_group_name("g");
    assert!(page.save().is_some());
    assert!(!page.saved(Err("disk full".to_string())));
    assert_eq!(page.save_error(), &Some("disk full".to_string()));
    page.scan_done("/", Err("denied".to_string()));
    assert_eq!(page.scan_error(), &Some("denied".to_string()));
}

#[test]
fn a_failed_load_keeps_the_list() {
    let mut page = WorkspacesPage::new();
    page.loaded(Ok(vec![WorkspaceDto { name: "w".to_string(), repos: vec![] }]));
    page.loaded(Err("down".to_string()));
    assert_eq!(page.workspaces().len(), 1);
    assert_eq!(page.load_error(), &Some("down".to_string()));
}

#[test]
fn toggling_twice_changes_nothing() {
    let mut page = WorkspacesPage::new();
    page.toggle("/a");
    assert!(page.is_checked("/a"));
    page.toggle("/a");
    assert!(!page.is_checked("/a"));
}

#[test]
fn folders_are_named_by_their_last_part() {
    assert_eq!(root_basename("/home/u/work"), "work");
    assert_eq!(root_basename("/home/u/work///"), "work");
    assert_eq!(root_basename("/"), "/");
    assert_eq!(root_basename("plain"), "plain");
    assert_eq!(root_basename(""), "");
}

#[test]
fn workspaces_are_summed_up() {
    let mut ws = WorkspaceDto { name: "w".to_string(), repos: vec![] };
    assert_eq!(workspace_summary(&ws), "no repos");
    ws.repos.push(repo("a", "/a"));
    assert_eq!(workspace_summary(&ws), "/a · 1 repo");
    ws.repos.push(repo("b", "/b"));
    assert_eq!(workspace_summary(&ws), "2 repos");
    assert_eq!(new_run_link("w"), "/run/new?workspace=w");
}

#[test]
fn the_dashboard_counts_and_groups() {
    let runs = vec![
        summary("1", "w1", Phase::Implementing, vec![epic("a", EpicStatus::Running, "", &[])], &["r"]),
        summary("2", "w2", Phase::Done, vec![epic("b", EpicStatus::Merged, "", &[])], &["x", "y"]),
        summary(
            "3",
            "w1",
            Phase::Planning,
            vec![epic("c", EpicStatus::Conflict, "", &[]), epic("d", EpicStatus::Skipped, "", &[])],
            &[],
        ),
    ];
    let d = dashboard_body(&runs);
    assert_eq!((d.total_runs, d.active_runs, d.total_epics), (3, 2, 4));
    let counts: Vec<usize> = d.columns.iter().map(|c| c.cards.len()).collect();
    assert_eq!(counts, vec![0, 1, 0, 1, 2]);
    assert_eq!(d.columns[4].cards[0].workspace, "w1");
    assert_eq!(d.columns[1].label, "In progress");
    assert_eq!(d.columns[1].class, "bg-prog");
    let groups: Vec<(&str, &str, usize)> = d
        .groups
        .iter()
        .map(|g| (g.name.as_str(), g.repo_summary.as_str(), g.runs.len()))
        .collect();
    assert_eq!(groups, vec![("w1", "1 repo", 2), ("w2", "2 repos", 1)]);
    assert_eq!(d.groups[0].runs[1].id, "3");
    assert_eq!(running_label(&runs), "2 running");
    assert_eq!(run_line(&runs[1]), "1 epic · 2 repos");
    assert_eq!(run_link("1"), "/run/1");
}

#[test]
fn counts_take_their_plural() {
    assert_eq!(plural(1, "repo"), "1 repo");
    assert_eq!(plural(0, "repo"), "0 repos");
    assert_eq!(plural(12, "run"), "12 runs");
}

#[test]
fn labels_and_classes() {
    assert_eq!(status_label(EpicStatus::Verifying), "Verifying");
    assert_eq!(phase_label(Phase::Implementing), "Running");
    assert_eq!(phase_class(Phase::Failed), "text-block bg-block/10 border-block/30");
    assert_eq!(phase_dot_class(Phase::Planning), "bg-review animate-pulse-dot");
    assert_eq!(columns().len(), 5);
    assert_eq!(column_label(KanbanColumn::Todo), "Todo");
    assert_eq!(column_class(KanbanColumn::Done), "bg-done");
    assert_eq!(column_head_class(KanbanColumn::Blocked), "text-block");
    assert_eq!(column_card_class(KanbanColumn::InProgress), "border-l-prog ring-1 ring-prog/40");
    assert_eq!(column_status_class(KanbanColumn::Review), "text-review bg-review/12 border-review/30");
    assert!(report_status_class(EpicStatus::Merged).ends_with("text-done bg-done/12 border-done/30"));
    assert!(report_status_class(EpicStatus::Conflict).ends_with("text-block bg-block/10 border-block/30"));
    assert!(card_class(KanbanColumn::InProgress).ends_with(" ring-1 ring-prog/40"));
    assert!(card_class(KanbanColumn::Todo).contains(" border-l-todo/30 bg-inset"));
    assert!(status_class(KanbanColumn::Done).ends_with(" text-done bg-done/12 border-done/30"));
}

#[test]
fn log_lines_are_tinted_and_tagged() {
    assert_eq!(log_kind("epic merged"), LogKind::Good);
    assert_eq!(log_kind("merge conflict"), LogKind::Bad);
    assert_eq!(log_kind("[plan] reading"), LogKind::Plan);
    assert_eq!(log_kind("hello"), LogKind::Other);
    let line = log_line_view("[PLAN] Reading");
    assert_eq!(line.kind, LogKind::Plan);
    assert_eq!(line.tag, Some("[PLAN]".to_string()));
    assert_eq!(line.body, " Reading");
    // The Kelvin sign is a capital k, so this reads "ok (".
    assert_eq!(log_line_view("O\u{212a} (1)").kind, LogKind::Good);
    assert_eq!(log_line_view("FAILED").kind, LogKind::Bad);
    let line = log_line_of("[open", "[open");
    assert_eq!((line.tag, line.body.as_str()), (None, "[open"));
    assert_eq!(log_line_of("[]x", "[]x").tag, Some("[]".to_string()));
    assert_eq!(line_class(LogKind::Bad), "text-danger");
    assert_eq!(tag_class(LogKind::Good), "text-done");
}

#[test]
fn the_report_groups_by_repo_with_the_rest_last() {
    let epics = vec![
        epic("a", EpicStatus::Merged, "", &[]),
        epic("b", EpicStatus::Failed, "x", &[]),
        epic("c", EpicStatus::Merged, "y", &[]),
        epic("d", EpicStatus::Skipped, "x", &[]),
    ];
    let groups = group_epics_by_repo(&epics);
    let names: Vec<(&str, usize)> = groups.iter().map(|g| (g.repo.as_str(), g.epics.len())).collect();
    assert_eq!(names, vec![("x", 2), ("y", 1), ("", 1)]);
    let mut app = App::new("g".to_string(), "w".to_string(), usd(1.0));
    app.epics = epics;
    app.error = Some("boom".to_string());
    let report = final_report(&app);
    assert!(report.any_merged);
    assert_eq!(report.error, Some("boom".to_string()));
    let heads: Vec<(&str, bool)> = report.groups.iter().map(|g| (g.heading.as_str(), g.merged)).collect();
    assert_eq!(heads, vec![("x", false), ("y", true), ("No repo assigned", true)]);
}

#[test]
fn a_run_page_shows_what_can_be_done() {
    let mut app = App::new("g".to_string(), "w".to_string(), usd(1.0));
    app.phase = Phase::Implementing;
    app.epics = vec![
        epic("a", EpicStatus::Failed, "x", &[]),
        epic("b", EpicStatus::Pending, "x", &["a", "c", "m"]),
        epic("m", EpicStatus::Merged, "y", &[]),
        epic("p", EpicStatus::Pending, "", &["m"]),
    ];
    app.error = Some("boom".to_string());
    let body = run_body(&app);
    assert!(body.can_abort && !body.can_resume);
    assert_eq!(body.restart_error, None);
    assert_eq!(body.workspace_line, "w · 2 repos");
    assert!(body.report.is_none());
    assert_eq!(body.columns[0].cards[0].hold, Some("on hold · waits on a, c".to_string()));
    assert_eq!(body.columns[0].cards[1].hold, None);
    assert!(!body.columns[4].cards[0].retry);
    app.phase = Phase::Failed;
    let body = run_body(&app);
    assert!(!body.can_abort && body.can_resume);
    assert_eq!(body.restart_error, Some("boom".to_string()));
    assert!(body.columns[4].cards[0].retry);
    assert!(body.report.is_some());
    assert!(resumable(&app));
    assert!(can_retry(EpicStatus::Conflict, true));
    assert!(!can_retry(EpicStatus::Skipped, true));
    assert!(!can_retry(EpicStatus::Failed, false));
}

#[test]
fn a_button_sends_one_request_at_a_time() {
    let mut button = RequestButton::new();
    assert!(button.press());
    assert!(!button.press());
    button.done(Err("no".to_string()));
    assert_eq!(button.error, Some("no".to_string()));
    assert!(button.press());
    assert_eq!(button.error, None);
    button.done(Ok(()));
    assert!(!button.busy);
}

#[test]
fn endpoints_and_failures() {
    assert_eq!((WORKSPACES, SCAN, RUNS), ("/api/workspaces", "/api/workspaces/scan", "/api/runs"));
    assert_eq!(abort_url("7"), "/api/runs/7/abort");
    assert_eq!(resume_url("7"), "/api/runs/7/resume");
    assert_eq!(retry_url("7", "e"), "/api/runs/7/epics/e/retry");
    assert_eq!(check_status("save", 204, ""), Ok(()));
    assert_eq!(
        check_status("save", 500, "oops"),
        Err("save failed with status 500: oops".to_string())
    );
    assert_eq!(failed_to("fetch runs", "timeout"), "failed to fetch runs: timeout");
}

#[test]
fn inputs_are_shown_as_typed() {
    let mut form = NewRunForm::new("w");
    form.set_goal(" do it ");
    form.set_verify("make test");
    form.set_language("indonesian");
    form.toggle_refine();
    assert_eq!(form.goal(), " do it ");
    assert_eq!(form.verify(), "make test");
    assert_eq!(form.options(), (false, Language::Indonesian));
    let mut page = WorkspacesPage::new();
    page.set_root(" /src ");
    assert_eq!(page.root(), " /src ");
}
