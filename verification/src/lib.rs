//! The logic of the agentic orchestrator: planning data, the epic scheduler,
//! the run state a browser or a terminal shows, the run registry, and the
//! decisions around sessions, worktrees and prompts.

pub mod api;
pub mod app;
pub mod board_laws;
pub mod cli;
pub mod config;
pub mod dashboard;
pub mod driver;
pub mod dto;
pub mod engine;
pub mod epic_run;
pub mod event_laws;
pub mod form_laws;
pub mod http;
pub mod job_laws;
pub mod json;
pub mod lookup_laws;
pub mod merge_laws;
pub mod new_run;
pub mod orchestrator;
pub mod page_laws;
pub mod paths;
pub mod pipeline;
pub mod plan;
pub mod plan_laws;
pub mod prompt_laws;
pub mod refine;
pub mod refine_laws;
pub mod registry;
pub mod registry_laws;
pub mod run;
pub mod run_laws;
pub mod run_store;
pub mod run_view;
pub mod scan;
pub mod schedule_laws;
pub mod scheduler_laws;
pub mod session_laws;
pub mod state_laws;
pub mod strmap;
pub mod terminal_laws;
pub mod text;
pub mod text_laws;
pub mod tui;
pub mod view_laws;
pub mod workspace;
pub mod workspace_laws;
pub mod workspaces_view;
pub mod worktree;
