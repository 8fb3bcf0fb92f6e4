//! What is kept of a run on disk, so that the run registry survives a restart.
use vstd::prelude::*;
use vstd::string::*;

use crate::app;
use crate::app::{App, Language};
use crate::paths;
use crate::paths::join_path;
use crate::text::{from_chars, same, to_chars};

verus! {

/// One repository a run targeted, in the order the run listed it.
#[derive(Debug, PartialEq)]
pub struct PersistedRepo {
    pub name: String,
    pub path: String,
    pub base_ref: String,
    pub integration_branch: String,
}

/// Everything needed to show a run as history and to resume it: its identity
/// and config, its own copy of the plan JSON, and the last `App` snapshot.
#[derive(Debug, PartialEq)]
pub struct PersistedRun {
    pub id: String,
    pub workspace: String,
    pub goal: String,
    pub default_verify: String,
    pub language: Language,
    pub plan_cwd: String,
    pub repos: Vec<PersistedRepo>,
    /// This run's own copy of the plan, so resuming never depends on the
    /// shared plan file, which a later run overwrites.
    pub plan_json: String,
    pub app: App,
}

/// The content of a persisted run.
#[verifier::ext_equal]
pub ghost struct PersistedModel {
    pub id: Seq<char>,
    pub workspace: Seq<char>,
    pub goal: Seq<char>,
    pub default_verify: Seq<char>,
    pub language: Language,
    pub plan_cwd: Seq<char>,
    pub repos: Seq<PersistedRepo>,
    pub plan_json: Seq<char>,
    pub app: app::AppModel,
}

impl View for PersistedRun {
    type V = PersistedModel;

    open spec fn view(&self) -> PersistedModel {
        PersistedModel {
            id: self.id@,
            workspace: self.workspace@,
            goal: self.goal@,
            default_verify: self.default_verify@,
            language: self.language,
            plan_cwd: self.plan_cwd@,
            repos: self.repos@,
            plan_json: self.plan_json@,
            app: self.app@,
        }
    }
}

impl Clone for PersistedRepo {
    fn clone(&self) -> (r: PersistedRepo)
        ensures
            r == *self,
    {
        PersistedRepo {
            name: self.name.clone(),
            path: self.path.clone(),
            base_ref: self.base_ref.clone(),
            integration_branch: self.integration_branch.clone(),
        }
    }
}

/// A copy of a list of repositories.
pub fn clone_repos(repos: &Vec<PersistedRepo>) -> (r: Vec<PersistedRepo>)
    ensures
        r@ == repos@,
{
    let mut out: Vec<PersistedRepo> = Vec::new();
    let mut i: usize = 0;
    while i < repos.len()
        invariant
            i <= repos@.len(),
            out@ == repos@.take(i as int),
        decreases repos@.len() - i,
    {
        out.push(repos[i].clone());
        i = i + 1;
        assert(out@ =~= repos@.take(i as int));
    }
    assert(repos@.take(i as int) =~= repos@);
    out
}

/// Where a run is kept: `<dir>/<id>.json`.
pub fn run_file(dir: &str, id: &str) -> (r: String)
    ensures
        r@ == paths::joined_path(dir@, id@ + ".json"@),
{
    let name = id.to_string().concat(".json");
    join_path(dir, name.as_str())
}

/// Where a run is written first, before it is renamed into place, so that a
/// crash mid-write never leaves a torn file.
pub fn run_tmp_file(dir: &str, id: &str) -> (r: String)
    ensures
        r@ == paths::joined_path(dir@, id@ + ".json.tmp"@),
{
    let name = id.to_string().concat(".json.tmp");
    join_path(dir, name.as_str())
}

/// The part of a file name after its last dot; none where there is no dot, or
/// only one at its start, or the name is the parent directory.
pub open spec fn extension_of(name: Seq<char>) -> Option<Seq<char>> {
    let at = last_dot(name);
    if at <= 0 || name == ".."@ {
        None
    } else {
        Some(name.skip(at + 1))
    }
}

/// The position of the last dot, or -1.
pub open spec fn last_dot(name: Seq<char>) -> int
    decreases name.len(),
{
    if name.len() == 0 {
        -1
    } else if name.last() == '.' {
        name.len() - 1
    } else {
        last_dot(name.drop_last())
    }
}

/// A file of the run store: one with the extension `json`. Leftovers of a
/// write and anything else are ignored.
pub open spec fn stored_run(name: Seq<char>) -> bool {
    extension_of(name) == Some("json"@)
}

/// True of a file of the run store, given the file's name.
pub fn is_run_file(name: &str) -> (r: bool)
    ensures
        r == stored_run(name@),
{
    let cs = to_chars(name);
    let mut i: usize = cs.len();
    assert(cs@.take(i as int) =~= cs@);
    while i > 0 && cs[i - 1] != '.'
        invariant
            i <= cs@.len(),
            last_dot(cs@) == last_dot(cs@.take(i as int)),
        decreases i,
    {
        assert(cs@.take(i as int).last() == cs@[i - 1]);
        assert(cs@.take(i as int).drop_last() =~= cs@.take(i - 1));
        i = i - 1;
    }
    if i > 0 {
        assert(cs@.take(i as int).last() == cs@[i - 1]);
    }
    assert(last_dot(cs@) == i - 1);
    if i <= 1 || same(name, "..") {
        return false;
    }
    let ext = from_chars(&cs, i, cs.len());
    assert(ext@ =~= cs@.skip(i as int));
    same(ext.as_str(), "json")
}

/// A finished run's file counts as one of the store's, and the file it is
/// written to first does not.
pub proof fn law_only_finished_files_are_loaded(id: Seq<char>)
    requires
        id.len() > 0,
    ensures
        stored_run(id + ".json"@),
        !stored_run(id + ".json.tmp"@),
{
    reveal_strlit(".json");
    reveal_strlit(".json.tmp");
    reveal_strlit("json");
    reveal_strlit("tmp");
    reveal_strlit("..");
    let n = id.len() as int;
    let a = id + ".json"@;
    lemma_last_dot_at(a, n);
    assert(a.skip(n + 1) =~= "json"@);
    let b = id + ".json.tmp"@;
    lemma_last_dot_at(b, n + 5);
    assert(b.skip(n + 6) =~= "tmp"@);
    assert("tmp"@.len() != "json"@.len());
}

proof fn lemma_last_dot_at(s: Seq<char>, at: int)
    requires
        0 <= at < s.len(),
        s[at] == '.',
        forall|i: int| at < i < s.len() ==> s[i] != '.',
    ensures
        last_dot(s) == at,
    decreases s.len(),
{
    if s.len() - 1 > at {
        lemma_last_dot_at(s.drop_last(), at);
    }
}

} // verus!
