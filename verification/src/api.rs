//! The addresses of the server's endpoints and the messages the browser shows
//! when a request fails. Network failures, non-success statuses and bodies
//! that cannot be read all become a text for the user.
use vstd::prelude::*;
use vstd::string::*;

use crate::text;
use crate::text::decimal;

verus! {

/// The configured workspaces: listed by a get, saved by a post.
pub const WORKSPACES: &'static str = "/api/workspaces";

/// Repositories below a folder.
pub const SCAN: &'static str = "/api/workspaces/scan";

/// The runs: listed by a get, started by a post.
pub const RUNS: &'static str = "/api/runs";

/// The first refine pass.
pub const REFINE_QUESTIONS: &'static str = "/api/refine/questions";

/// The second refine pass.
pub const REFINE_FINALIZE: &'static str = "/api/refine/finalize";

/// Stops a run.
pub fn abort_url(id: &str) -> (r: String)
    ensures
        r@ == "/api/runs/"@ + id@ + "/abort"@,
{
    "/api/runs/".to_string().concat(id).concat("/abort")
}

/// Runs every unfinished epic of a failed run again.
pub fn resume_url(id: &str) -> (r: String)
    ensures
        r@ == "/api/runs/"@ + id@ + "/resume"@,
{
    "/api/runs/".to_string().concat(id).concat("/resume")
}

/// Runs one blocked epic again.
pub fn retry_url(run_id: &str, epic_id: &str) -> (r: String)
    ensures
        r@ == "/api/runs/"@ + run_id@ + "/epics/"@ + epic_id@ + "/retry"@,
{
    "/api/runs/".to_string().concat(run_id).concat("/epics/").concat(epic_id).concat("/retry")
}

/// A success status: one of the two hundreds.
pub open spec fn succeeded(status: u16) -> bool {
    200 <= status < 300
}

/// The message of a refused request.
pub open spec fn refused(what: Seq<char>, status: u16, body: Seq<char>) -> Seq<char> {
    what + " failed with status "@ + text::decimal_of(status as nat) + ": "@ + body
}

/// Whether a reply is a success, or else the message: what was asked for, the
/// status and the body.
pub fn check_status(what: &str, status: u16, body: &str) -> (r: Result<(), String>)
    ensures
        match r {
            Ok(_) => succeeded(status),
            Err(msg) => !succeeded(status) && msg@ == refused(what@, status, body@),
        },
{
    if 200 <= status && status < 300 {
        Ok(())
    } else {
        Err(
            what.to_string().concat(" failed with status ").concat(
                decimal(status as u64).as_str(),
            ).concat(": ").concat(body),
        )
    }
}

/// The message of a step that failed: what was tried, and why it failed.
pub fn failed_to(what: &str, why: &str) -> (r: String)
    ensures
        r@ == "failed to "@ + what@ + ": "@ + why@,
{
    "failed to ".to_string().concat(what).concat(": ").concat(why)
}

} // verus!
