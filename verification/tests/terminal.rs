//! The terminal: arguments, key handling, the board and the refine flow.
use agentic_tui::app::{App, EpicStatus, EpicView, Key, KanbanColumn, Phase, Usd};
use agentic_tui::cli::{
    ignored_warning, parse_args, parse_run_args, resolve_workspace, WorkspaceChoice,
};
use agentic_tui::config::{
    epic_prompt, plan_prompt, prd_prompt, prd_stage, refine_finalize_prompt,
    refine_questions_prompt,
};
use agentic_tui::plan::{Epic, Task};
use agentic_tui::refine::{
    check_refine, finalize_outcome, questions_outcome, refine_file, RefineFlow, RefineResult,
    RefineStage,
};
use agentic_tui::tui::{
    board_column, card_marker, checklist_line, footer, goal_key, log_start, nothing_found,
    onboarded, picker_line, question_title, quits, refining_note, report, report_label,
    scanning_note, status_by_id, truncate, CardColor, GoalStep, LoopEvent, LoopStep, Onboarding,
    OnboardingStep, Picker, PickerOutcome, RunLoop, Screen,
};
use agentic_tui::workspace::{Repo, Workspace};

fn usd(amount: f64) -> Usd {
    Usd { bits: amount.to_bits() }
}

fn words(list: &[&str]) -> Vec<String> {
    list.iter().map(|w| w.to_string()).collect()
}

fn group(name: &str) -> Workspace {
    Workspace {
        name: name.to_string(),
        repos: vec![Repo {
            name: name.to_string(),
            path: format!("/w/{name}"),
            base: None,
            integration: None,
        }],
    }
}

fn epic(id: &str, status: EpicStatus, deps: &[&str]) -> EpicView {
    EpicView {
        id: id.to_string(),
        title: format!("Epic {id}"),
        status,
        cost: usd(0.0),
        repo: String::new(),
        depends_on: words(deps),
        reason: None,
    }
}

fn refined(goal: &str, questions: &[&str]) -> RefineResult {
    RefineResult { refined_goal: goal.to_string(), questions: words(questions) }
}

#[test]
fn refine_an_empty_refined_goal_is_an_error() {
    assert!(check_refine(refined("   ", &[])).is_err());
    assert_eq!(
        check_refine(refined("   ", &[])).unwrap_err(),
        "refine result has an empty refined_goal"
    );
    assert!(check_refine(refined("Do the thing", &[])).is_ok());
}

#[test]
fn a_failed_pass_keeps_the_goal() {
    assert_eq!(questions_outcome("g", &None), ("g".to_string(), vec![]));
    assert_eq!(finalize_outcome("g", &None), "g");
    let six = ["1", "2", "3", "4", "5", "6"];
    let (goal, questions) = questions_outcome("g", &Some(refined("better", &six)));
    assert_eq!(goal, "better");
    assert_eq!(questions.len(), 5);
    assert_eq!(finalize_outcome("g", &Some(refined("best", &[]))), "best");
    assert_eq!(refine_file("/w"), "/w/.agentic-refine.json");
}

fn type_text(flow: &mut RefineFlow, text: &str) {
    for c in text.chars() {
        flow.on_key(Key::Char(c));
    }
}

#[test]
fn the_refine_flow_asks_one_question_at_a_time() {
    let mut flow = RefineFlow::new("g");
    assert_eq!(flow.stage(), RefineStage::FirstPass);
    flow.on_first_pass(&Some(refined("better", &["why?", "when?"])));
    assert_eq!(flow.question().map(|q| q.0), Some("why?"));
    type_text(&mut flow, " becausee");
    flow.on_key(Key::Backspace);
    assert_eq!(flow.buffer(), " because");
    flow.on_key(Key::Enter);
    assert_eq!(flow.question().map(|q| q.0), Some("when?"));
    flow.on_key(Key::Enter);
    assert_eq!(flow.stage(), RefineStage::SecondPass);
    assert_eq!(
        flow.answers(),
        &vec![
            ("why?".to_string(), "because".to_string()),
            ("when?".to_string(), String::new()),
        ]
    );
    flow.on_second_pass(&Some(refined("best", &[])));
    assert_eq!(flow.stage(), RefineStage::Confirming);
    assert_eq!(flow.buffer(), "best");
    flow.on_key(Key::Enter);
    assert_eq!(flow.stage(), RefineStage::Finished);
    assert_eq!(flow.outcome(), &Some("best".to_string()));
}

#[test]
fn the_refine_flow_can_be_left() {
    let mut flow = RefineFlow::new("g");
    flow.on_first_pass(&None);
    assert_eq!(flow.outcome(), &Some("g".to_string()));
    let mut flow = RefineFlow::new("g");
    flow.on_first_pass(&Some(refined("better", &["why?"])));
    flow.on_key(Key::Esc);
    assert_eq!(flow.outcome(), &Some("g".to_string()));
    let mut flow = RefineFlow::new("g");
    flow.on_first_pass(&Some(refined("better", &["why?"])));
    flow.on_key(Key::CtrlC);
    assert_eq!((flow.stage(), flow.outcome()), (RefineStage::Finished, &None));
    let mut flow = RefineFlow::new("g");
    flow.on_first_pass(&Some(refined("better", &[])));
    assert_eq!(flow.stage(), RefineStage::Confirming);
    assert_eq!(flow.buffer(), "better");
}

#[test]
fn server_arguments() {
    let args = parse_args(&words(&["--no-open", "what"]));
    assert!(args.no_open);
    assert_eq!(args.ignored, words(&["what"]));
    assert!(ignored_warning("what").contains("what"));
    assert!(!parse_args(&vec![]).no_open);
}

#[test]
fn run_arguments() {
    let args = parse_run_args(&words(&["--workspace", "w", "add", "a", "--verify", "make t", "--no-refine"]));
    assert_eq!(args.goal, "add a");
    assert_eq!(args.workspace, Some("w".to_string()));
    assert_eq!(args.verify, Some("make t".to_string()));
    assert!(args.no_refine);
    let args = parse_run_args(&vec![]);
    assert_eq!((args.goal.as_str(), args.workspace, args.no_refine), ("", None, false));
}

#[test]
fn a_wanted_workspace_is_looked_up_first() {
    let known = vec![group("a"), group("b")];
    assert_eq!(
        resolve_workspace(&Some("b".to_string()), &known, "/home/u"),
        WorkspaceChoice::Found(group("b"))
    );
    assert_eq!(resolve_workspace(&None, &known, "/home/u"), WorkspaceChoice::Pick);
    assert_eq!(resolve_workspace(&None, &vec![], "/home/u"), WorkspaceChoice::Onboard);
    match resolve_workspace(&Some("~/x/proj".to_string()), &known, "/home/u") {
        WorkspaceChoice::Found(ws) => assert_eq!(ws.repos[0].path, "/home/u/x/proj"),
        other => panic!("expected a path, got {other:?}"),
    }
}

#[test]
fn the_picker_moves_and_chooses() {
    let mut picker = Picker::new(2);
    assert_eq!(picker.selected(), 0);
    picker.on_key(Key::Up);
    assert_eq!(picker.selected(), 0);
    picker.on_key(Key::Down);
    picker.on_key(Key::Down);
    assert_eq!(picker.selected(), 1);
    assert_eq!(picker.on_key(Key::Enter), PickerOutcome::Chosen(1));
    assert_eq!(picker.on_key(Key::Char('q')), PickerOutcome::Quit);
    assert_eq!(picker.on_key(Key::Char('a')), PickerOutcome::Add);
    assert_eq!(picker.on_key(Key::Esc), PickerOutcome::Stay);
    assert_eq!(picker.on_key(Key::Other), PickerOutcome::Stay);
}

#[test]
fn the_picker_of_an_empty_list_adds_or_quits() {
    let mut picker = Picker::new(0);
    picker.on_key(Key::Down);
    picker.on_key(Key::Up);
    assert_eq!(picker.selected(), 0);
    assert_eq!(picker.on_key(Key::Char('a')), PickerOutcome::Add);
    assert_eq!(picker.on_key(Key::Char('q')), PickerOutcome::Quit);
}

#[test]
fn onboarding_saves_only_what_is_checked() {
    let mut page = Onboarding::new("/home/u");
    assert_eq!((page.screen(), page.root()), (Screen::Root, "/home/u"));
    assert_eq!(page.on_key(Key::Enter), OnboardingStep::Scan("/home/u".to_string()));
    page.scanned(vec![group("a"), group("b")]);
    assert_eq!(page.screen(), Screen::List);
    assert_eq!(page.repos().len(), 2);
    let first = page.checked()[0];
    page.on_key(Key::Char(' '));
    assert_eq!(page.checked()[0], !first);
    page.on_key(Key::Down);
    assert_eq!(page.selected(), 1);
    let want: Vec<Workspace> = [group("a"), group("b")]
        .into_iter()
        .zip(page.checked().clone())
        .filter(|(_, on)| *on)
        .map(|(ws, _)| ws)
        .collect();
    match page.on_key(Key::Enter) {
        OnboardingStep::Save(list) => assert_eq!(list, want),
        OnboardingStep::Stay => assert!(want.is_empty()),
        other => panic!("expected a save, got {other:?}"),
    }
}

#[test]
fn onboarding_falls_back_to_the_picks() {
    let picks = vec![group("a")];
    assert_eq!(onboarded(true, Some(vec![group("a"), group("b")]), vec![group("a")]).len(), 2);
    assert_eq!(onboarded(false, None, picks), vec![group("a")]);
}

#[test]
fn a_goal_is_typed() {
    let mut buffer = String::new();
    assert_eq!(goal_key(&mut buffer, Key::Enter), GoalStep::Stay);
    for c in " go".chars() {
        goal_key(&mut buffer, Key::Char(c));
    }
    goal_key(&mut buffer, Key::Backspace);
    assert_eq!(buffer, " g");
    assert_eq!(goal_key(&mut buffer, Key::Enter), GoalStep::Entered("g".to_string()));
    assert_eq!(goal_key(&mut buffer, Key::Esc), GoalStep::Cancel);
    assert!(quits(Key::CtrlC));
    assert!(!quits(Key::Up));
}

#[test]
fn long_texts_are_cut() {
    assert_eq!(truncate("short", 10), "short");
    assert_eq!(truncate("abcdef", 4), "abc...");
    assert_eq!(truncate("abc", 0), "...");
    assert_eq!(log_start(10, 4), 6);
    assert_eq!(log_start(3, 4), 0);
}

#[test]
fn cards_carry_their_marker() {
    let epics = vec![
        epic("a", EpicStatus::Merged, &[]),
        epic("b", EpicStatus::Pending, &["a"]),
        epic("c", EpicStatus::Pending, &["b"]),
        epic("d", EpicStatus::Conflict, &[]),
    ];
    let statuses = status_by_id(&epics);
    assert_eq!(card_marker(&epics[1], KanbanColumn::Todo, &statuses), ("redy", CardColor::Cyan));
    assert_eq!(card_marker(&epics[2], KanbanColumn::Todo, &statuses), ("hold", CardColor::DarkGray));
    assert_eq!(card_marker(&epics[3], KanbanColumn::Blocked, &statuses), ("!   ", CardColor::Magenta));
    let lines = board_column(&epics, KanbanColumn::Todo, 40, 10);
    assert_eq!(lines.len(), 2);
    assert!(lines[0].text.contains("redy"));
    let lines = board_column(&epics, KanbanColumn::Todo, 40, 1);
    assert!(lines.last().unwrap().text.ends_with(" more"));
}

#[test]
fn the_footer_and_the_report() {
    let mut app = App::new("goal".to_string(), "ws".to_string(), usd(1.0));
    app.elapsed_secs = 7;
    assert_eq!(footer(&app).1, "planning... 7s");
    app.phase = Phase::Failed;
    assert_eq!(footer(&app), ("x", "failed".to_string(), CardColor::Red));
    app.epics = vec![epic("a", EpicStatus::Merged, &[]), epic("b", EpicStatus::Skipped, &[])];
    let lines = report(&app, "0.10", "agentic-integration", "/w");
    assert_eq!(lines[0], "=== Run report ===");
    assert_eq!(lines[1], "Workspace: ws");
    assert_eq!(lines[2], "Goal: goal");
    assert!(lines[3].contains("merged") && lines[4].contains("skipped"));
    assert_eq!(lines[5], "Total cost ~$0.10");
    assert_eq!(
        lines[6],
        "Merged work is on branch 'agentic-integration' in /w. Review and merge to your main branch."
    );
    app.epics[0].status = EpicStatus::Failed;
    assert_eq!(report(&app, "0.10", "agentic-integration", "/w").len(), 6);
    assert_eq!(report_label(EpicStatus::Conflict), "conflict (manual merge)");
}

#[test]
fn prompts_carry_their_inputs() {
    let plan = plan_prompt("THE GOAL", "/w/.agentic-plan.json");
    assert!(plan.contains("\n\nGOAL:\nTHE GOAL\n\n") && plan.contains("/w/.agentic-plan.json"));
    let ask = refine_questions_prompt("THE GOAL", "/w/r.json");
    assert!(ask.contains("List at most 5 clarifying questions") && ask.contains("/w/r.json"));
    let last = refine_finalize_prompt("THE GOAL", &vec![("q?".to_string(), "a!".to_string())], "/w/r.json");
    assert!(last.contains("q?") && last.contains("a!"));
    let e = Epic {
        id: "e".to_string(),
        title: "The epic".to_string(),
        repo: String::new(),
        verify: None,
        depends_on: vec![],
        acceptance: words(&["it works"]),
        tasks: vec![Task {
            id: "t1".to_string(),
            title: "first".to_string(),
            detail: "detail".to_string(),
        }],
    };
    let prompt = epic_prompt("THE GOAL", &e, "make verify");
    assert!(prompt.contains("it works") && prompt.contains("first") && prompt.contains("`make verify`"));
    let prd = prd_prompt("TOOL", "THE GOAL", "/w/prd.md");
    assert!(prd.contains("later in a separate TOOL session, so this PRD") && prd.contains("/w/prd.md"));
    assert_eq!(prd_stage().max_turns, 15);
}

#[test]
fn screens_have_their_lines() {
    assert_eq!(picker_line("a", "/w/a", true), "> a  /w/a");
    assert_eq!(picker_line("a", "/w/a", false), "  a  /w/a");
    assert_eq!(checklist_line("a", "/w/a", true, true), "> [x] a  /w/a");
    assert_eq!(checklist_line("a", "/w/a", false, false), "  [ ] a  /w/a");
    assert_eq!(
        nothing_found("/x"),
        "No git repositories found under /x.\nPress r to scan a different folder, or Esc to quit."
    );
    assert_eq!(scanning_note("/x"), "Scanning /x for git repositories...");
    assert_eq!(refining_note("reading"), "Refining the goal: reading...");
    assert_eq!(question_title(1, 3), " Question 1 of 3 ");
}

#[test]
fn leaving_a_running_run_cleans_up() {
    let mut screen = RunLoop::new();
    assert_eq!(screen.on_event(LoopEvent::Tick), LoopStep::Redraw);
    assert_eq!(screen.on_event(LoopEvent::Pressed(Key::Up)), LoopStep::Redraw);
    assert_eq!(
        screen.on_event(LoopEvent::Pressed(Key::Char('q'))),
        LoopStep::Leave { clean_up: true }
    );
    screen.on_event(LoopEvent::Progress { ends: true });
    assert_eq!(
        screen.on_event(LoopEvent::Pressed(Key::CtrlC)),
        LoopStep::Leave { clean_up: false }
    );
    assert_eq!(screen.on_event(LoopEvent::Closed), LoopStep::Leave { clean_up: false });
}
