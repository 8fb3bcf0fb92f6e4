# agentic_tui

The verified core of an orchestrator that breaks a goal into epics, runs each
epic as a headless session of a coding tool in its own git worktree, verifies
it, and merges what passes into an integration branch.

- `src/` is the library. Everything in it is verified by Verus: the plan and
  its dependency order, the epic scheduler, the driver of a run, the life of
  one epic, the merge, the run registry, the board and its events, what the
  stream of a session says, workspaces and the scan for repositories, the
  prompts, and what the browser and the terminal show.
- `app/` is the program around it: processes, files, sockets, the web server,
  the terminal and the browser pages. It performs what the library decides and
  reports back. Money is floating point and is added up and formatted there.
- `tests/` runs the library with the real outside crates.

Where the library calls code that Verus does not read, the call stands in a
small function whose contract is believed: `json.rs` (serde_json), `http.rs`
(mime_guess), `run_view.rs` and `text.rs` (std).

What holds of the library as a whole stands in proof functions whose names
start with `law_`. The most telling ones are in `schedule_laws.rs`, `driver.rs`,
`event_laws.rs` and `board_laws.rs`: a run never gets stuck, never runs more
epics at once than it may, skips what depends on a failure and nothing else,
tells each start once and its end last, and the board shows where the schedule
stands.

Two environment variables matter to the program: `AGENTIC_CLI` names the coding
tool's command, and `HOME` is what `~` stands for.
