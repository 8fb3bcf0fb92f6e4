//! The run state and the kanban board.
use agentic_tui::app::{
    is_on_hold, kanban_column, App, AppEvent, EpicMeta, EpicStatus, Key, KanbanColumn, Phase,
    StageEvent, Usd, LOG_CAP,
};
use agentic_tui::strmap::StrMap;

fn usd(amount: f64) -> Usd {
    Usd { bits: amount.to_bits() }
}

#[test]
fn lib_kanban_column_maps_each_status() {
    assert_eq!(kanban_column(EpicStatus::Pending), KanbanColumn::Todo);
    assert_eq!(kanban_column(EpicStatus::Running), KanbanColumn::InProgress);
    assert_eq!(kanban_column(EpicStatus::Verifying), KanbanColumn::Review);
    assert_eq!(kanban_column(EpicStatus::Merged), KanbanColumn::Done);
    assert_eq!(kanban_column(EpicStatus::Failed), KanbanColumn::Blocked);
    assert_eq!(kanban_column(EpicStatus::Skipped), KanbanColumn::Blocked);
    assert_eq!(kanban_column(EpicStatus::Conflict), KanbanColumn::Blocked);
}

#[test]
fn app_kanban_column_maps_each_status() {
    assert_eq!(kanban_column(EpicStatus::Pending), KanbanColumn::Todo);
    assert_eq!(kanban_column(EpicStatus::Running), KanbanColumn::InProgress);
    assert_eq!(kanban_column(EpicStatus::Verifying), KanbanColumn::Review);
    assert_eq!(kanban_column(EpicStatus::Merged), KanbanColumn::Done);
    assert_eq!(kanban_column(EpicStatus::Failed), KanbanColumn::Blocked);
    assert_eq!(kanban_column(EpicStatus::Skipped), KanbanColumn::Blocked);
    assert_eq!(kanban_column(EpicStatus::Conflict), KanbanColumn::Blocked);
}

#[test]
fn lib_is_on_hold_true_when_a_dependency_is_not_merged() {
    let mut status_by_id = StrMap::new();
    status_by_id.insert("a".to_string(), EpicStatus::Running);
    assert!(is_on_hold(&vec!["a".to_string()], &status_by_id));
}

#[test]
fn app_is_on_hold_true_when_a_dependency_is_not_merged() {
    let mut status_by_id = StrMap::new();
    status_by_id.insert("a".to_string(), EpicStatus::Running);
    assert!(is_on_hold(&vec!["a".to_string()], &status_by_id));
}

#[test]
fn lib_is_on_hold_false_when_all_dependencies_merged() {
    let mut status_by_id = StrMap::new();
    status_by_id.insert("a".to_string(), EpicStatus::Merged);
    status_by_id.insert("b".to_string(), EpicStatus::Merged);
    assert!(!is_on_hold(&vec!["a".to_string(), "b".to_string()], &status_by_id));
}

#[test]
fn app_is_on_hold_false_when_all_dependencies_merged() {
    let mut status_by_id = StrMap::new();
    status_by_id.insert("a".to_string(), EpicStatus::Merged);
    status_by_id.insert("b".to_string(), EpicStatus::Merged);
    assert!(!is_on_hold(&vec!["a".to_string(), "b".to_string()], &status_by_id));
}

#[test]
fn lib_is_on_hold_true_for_an_unknown_dependency() {
    let status_by_id = StrMap::new();
    assert!(is_on_hold(&vec!["ghost".to_string()], &status_by_id));
}

#[test]
fn app_is_on_hold_true_for_an_unknown_dependency() {
    let status_by_id = StrMap::new();
    assert!(is_on_hold(&vec!["ghost".to_string()], &status_by_id));
}

#[test]
fn lib_no_dependencies_is_never_on_hold() {
    let status_by_id = StrMap::new();
    assert!(!is_on_hold(&vec![], &status_by_id));
}

#[test]
fn app_no_dependencies_is_never_on_hold() {
    let status_by_id = StrMap::new();
    assert!(!is_on_hold(&vec![], &status_by_id));
}

fn two_epics() -> StageEvent {
    StageEvent::PlanReady {
        epics: vec![
            EpicMeta { id: "a".to_string(), title: "A".to_string(), depends_on: vec![] },
            EpicMeta {
                id: "b".to_string(),
                title: "B".to_string(),
                depends_on: vec!["a".to_string()],
            },
        ],
    }
}

#[test]
fn lib_plan_ready_seeds_a_pending_card_per_epic() {
    let mut app = App::new("goal".to_string(), "ws".to_string(), usd(10.0));
    app.apply_stage(two_epics());
    assert_eq!(app.epics.len(), 2);
    assert!(app.epics.iter().all(|e| e.status == EpicStatus::Pending));
    let b = app.epics.iter().find(|e| e.id == "b").unwrap();
    assert_eq!(b.depends_on, vec!["a".to_string()]);
}

#[test]
fn app_plan_ready_seeds_a_pending_card_per_epic() {
    let mut app = App::new("goal".to_string(), "ws".to_string(), usd(10.0));
    app.apply(AppEvent::Stage(two_epics()));
    assert_eq!(app.epics.len(), 2);
    assert!(app.epics.iter().all(|e| e.status == EpicStatus::Pending));
    let b = app.epics.iter().find(|e| e.id == "b").unwrap();
    assert_eq!(b.depends_on, vec!["a".to_string()]);
}

#[test]
fn events_move_a_card_through_the_board() {
    let mut app = App::new("goal".to_string(), "ws".to_string(), usd(10.0));
    assert_eq!(app.phase, Phase::Planning);
    app.apply_stage(two_epics());
    assert_eq!(app.phase, Phase::Implementing);
    app.apply_stage(StageEvent::EpicStarted {
        id: "a".to_string(),
        title: "A".to_string(),
        repo: "r".to_string(),
    });
    assert_eq!(app.epics[0].status, EpicStatus::Running);
    app.apply_stage(StageEvent::EpicVerifying { id: "a".to_string() });
    assert_eq!(app.epics[0].status, EpicStatus::Verifying);
    app.apply_stage(StageEvent::EpicSucceeded { id: "a".to_string(), cost: usd(0.5) });
    assert_eq!(app.epics[0].cost, usd(0.5));
    app.apply_stage(StageEvent::EpicMerged { id: "a".to_string() });
    assert_eq!(app.epics[0].status, EpicStatus::Merged);
    assert_eq!(app.epics[0].repo, "r");
    app.apply_stage(StageEvent::EpicFailed { id: "b".to_string(), reason: "boom".to_string() });
    assert_eq!(app.epics[1].status, EpicStatus::Failed);
    assert_eq!(app.epics[1].reason, Some("boom".to_string()));
    app.apply_stage(StageEvent::EpicStarted {
        id: "b".to_string(),
        title: "B".to_string(),
        repo: "s".to_string(),
    });
    assert_eq!((app.epics[1].repo.as_str(), app.epics[1].reason.as_ref()), ("s", None));
    app.apply_stage(StageEvent::EpicConflict { id: "b".to_string() });
    assert_eq!(app.epics[1].status, EpicStatus::Conflict);
    app.apply_stage(StageEvent::Cost { total: usd(1.5) });
    assert_eq!(app.total_cost, usd(1.5));
    app.apply_stage(StageEvent::Done);
    assert_eq!(app.phase, Phase::Done);
}

#[test]
fn a_failed_run_stays_failed() {
    let mut app = App::new("goal".to_string(), "ws".to_string(), usd(10.0));
    app.apply_stage(StageEvent::Fatal { reason: "no plan".to_string() });
    assert_eq!(app.phase, Phase::Failed);
    assert_eq!(app.error, Some("no plan".to_string()));
    app.apply_stage(StageEvent::Done);
    assert_eq!(app.phase, Phase::Failed);
    assert!(app.log.back().unwrap().contains("no plan"));
}

#[test]
fn the_log_keeps_its_newest_lines() {
    let mut app = App::new("goal".to_string(), "ws".to_string(), usd(10.0));
    for i in 0..LOG_CAP + 5 {
        app.apply_stage(StageEvent::StageLog { tag: "plan".to_string(), line: format!("line {i}") });
    }
    assert_eq!(app.log.len(), LOG_CAP);
    assert!(app.log.back().unwrap().contains(&format!("line {}", LOG_CAP + 4)));
    assert!(app.log.front().unwrap().contains("line 5"));
}

#[test]
fn a_tick_counts_seconds_and_turns_the_spinner() {
    let mut app = App::new("goal".to_string(), "ws".to_string(), usd(10.0));
    let before = app.spinner;
    app.tick(42);
    assert_eq!(app.elapsed_secs, 42);
    assert_ne!(app.spinner, before);
    app.apply(AppEvent::Input(Key::Enter));
    app.apply(AppEvent::Tick);
    assert_eq!(app.epics.len(), 0);
}

#[test]
fn a_fatal_event_leaves_merged_work_merged() {
    let mut app = App::new("g".to_string(), "w".to_string(), usd(10.0));
    app.apply_stage(two_epics());
    let id = app.epics[0].id.clone();
    app.apply_stage(StageEvent::EpicMerged { id });
    app.apply_stage(StageEvent::Fatal { reason: "run aborted".to_string() });
    assert_eq!(app.phase, Phase::Failed);
    assert_eq!(app.error, Some("run aborted".to_string()));
    assert_eq!(app.epics[0].status, EpicStatus::Merged);
    assert_eq!(app.epics[1].status, EpicStatus::Pending);
}
