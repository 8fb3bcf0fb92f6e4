//! What workspaces are read and saved as, when one is valid, and what a scan for
//! repositories looks into.
use vstd::prelude::*;

use crate::dto::{requested_paths, requested_workspace, WorkspaceDto};
use crate::paths;
use crate::paths::{join_path, parent};
use crate::scan;
use crate::scan::{Finding, FindingModel, Scan};
use crate::text;
use crate::workspace;
use crate::workspace::{
    base_name, common_root, default_config_path, entries_to_save, expand_tilde, merge_workspaces,
    raw_from_workspace, repos_from_paths, runs_dir, save_base, validate, workspaces_from_raw,
    PathProbe, RawWorkspace, Repo, Workspace, WorkspaceError,
};

verus! {

/// A path is joined to another with one slash between them; an absolute path is
/// joined to nothing.
pub proof fn law_paths_are_joined_by_one_slash(base: &str, rest: &str, r: String)
    requires
        call_ensures(join_path, (base, rest), r),
    ensures
        rest@.len() > 0 && rest@[0] == '/' ==> r@ == rest@,
        !(rest@.len() > 0 && rest@[0] == '/') && (base@.len() == 0 || base@.last() == '/') ==> r@
            == base@ + rest@,
        !(rest@.len() > 0 && rest@[0] == '/') && base@.len() > 0 && base@.last() != '/' ==> r@
            == base@ + "/"@ + rest@,
{
}

/// A lone tilde, and one before a slash, stand for the home directory; nothing
/// else of a path is expanded, nor any other path.
pub proof fn law_only_a_leading_tilde_is_expanded(
    raw: &str,
    home: &str,
    r: String,
    rest: &str,
    joined: String,
)
    requires
        call_ensures(expand_tilde, (raw, home), r),
        call_ensures(join_path, (home, rest), joined),
        raw@.len() >= 2 ==> rest@ == raw@.skip(2),
    ensures
        raw@.len() == 1 && raw@[0] == '~' ==> r@ == home@,
        raw@.len() >= 2 && raw@[0] == '~' && raw@[1] == '/' ==> r@ == joined@,
        raw@.len() == 0 || raw@[0] != '~' || (raw@.len() >= 2 && raw@[1] != '/') ==> r@ == raw@,
{
    reveal_strlit("~");
    reveal_strlit("~/");
    if raw@.len() == 1 && raw@[0] == '~' {
        assert(raw@ =~= "~"@);
    }
    if raw@.len() >= 2 && raw@[0] == '~' && raw@[1] == '/' {
        assert(raw@.subrange(0, 2) =~= "~/"@);
    }
    if raw@.len() >= 2 {
        assert(raw@.subrange(0, 2)[0] == raw@[0]);
        assert(raw@.subrange(0, 2)[1] == raw@[1]);
    }
}

/// The configuration and the runs are kept below the home directory, or below
/// the current one where there is none.
pub proof fn law_files_are_kept_below_home(
    home: &Option<String>,
    none: &Option<String>,
    a: String,
    b: String,
    c: String,
)
    requires
        *home is Some,
        (*home)->0@.len() > 0,
        (*home)->0@.last() != '/',
        *none is None,
        call_ensures(default_config_path, (home,), a),
        call_ensures(runs_dir, (home,), b),
        call_ensures(default_config_path, (none,), c),
    ensures
        a@ == (*home)->0@ + "/.config/agentic-tui/workspaces.toml"@,
        b@ == (*home)->0@ + "/.config/agentic-tui/runs"@,
        c@ == "./.config/agentic-tui/workspaces.toml"@,
{
    reveal_strlit("/.config/agentic-tui/workspaces.toml");
    reveal_strlit("./.config/agentic-tui/workspaces.toml");
    reveal_strlit("/.config/agentic-tui/runs");
    reveal_strlit(".config");
    reveal_strlit("agentic-tui");
    reveal_strlit("workspaces.toml");
    reveal_strlit("runs");
    reveal_strlit("/");
    reveal_strlit(".");
    assert(a@ =~= (*home)->0@ + "/.config/agentic-tui/workspaces.toml"@);
    assert(b@ =~= (*home)->0@ + "/.config/agentic-tui/runs"@);
    assert(c@ =~= "./.config/agentic-tui/workspaces.toml"@);
}

/// The configured groups are read one by one, in their order. A group with a
/// list of repositories has just these; one with a path alone has the one
/// repository at the path, named after the group. A group with neither is the
/// only thing that is refused, and the first such one is named.
pub proof fn law_groups_are_read_as_written(
    raws: &Vec<RawWorkspace>,
    home: &str,
    r: Result<Vec<Workspace>, WorkspaceError>,
    i: int,
    k: int,
    path: &str,
    at: String,
)
    requires
        call_ensures(workspaces_from_raw, (raws, home), r),
        call_ensures(expand_tilde, (path, home), at),
    ensures
        r is Ok <==> forall|j: int|
            0 <= j < raws@.len() ==> (#[trigger] raws@[j]).repo@.len() > 0 || raws@[j].path is Some,
        r matches Err(e) ==> (e matches WorkspaceError::NoPath { workspace } && exists|j: int|
            0 <= j < raws@.len() && (#[trigger] raws@[j]).repo@.len() == 0 && raws@[j].path is None
                && raws@[j].name@ == workspace@),
        r matches Ok(list) ==> {
            &&& list@.len() == raws@.len()
            &&& 0 <= i < raws@.len() ==> {
                let raw = raws@[i];
                let ws = list@[i];
                &&& ws.name@ == raw.name@
                &&& raw.repo@.len() > 0 ==> ws.repos@.len() == raw.repo@.len()
                &&& raw.repo@.len() > 0 && 0 <= k < raw.repo@.len() && path@ == raw.repo@[k].path@
                    ==> ws.repos@[k].name@ == raw.repo@[k].name@ && ws.repos@[k].path@ == at@
                    && text::opt_view(ws.repos@[k].base) == text::opt_view(raw.repo@[k].base)
                    && text::opt_view(ws.repos@[k].integration) == text::opt_view(
                    raw.repo@[k].integration,
                )
                &&& raw.repo@.len() == 0 ==> ws.repos@.len() == 1 && ws.repos@[0].name@ == raw.name@
                    && text::opt_view(ws.repos@[0].base) == text::opt_view(raw.base)
                    && text::opt_view(ws.repos@[0].integration) == text::opt_view(raw.integration)
                &&& raw.repo@.len() == 0 && raw.path is Some && path@ == raw.path->0@
                    ==> ws.repos@[0].path@ == at@
            }
        },
{
    match r {
        Ok(list) => {
            assert forall|j: int| 0 <= j < raws@.len() implies (#[trigger] raws@[j]).repo@.len() > 0
                || raws@[j].path is Some by {
                assert(workspace::is_group(list@[j], raws@[j], home@));
            }
            if 0 <= i < raws@.len() {
                assert(workspace::is_group(list@[i], raws@[i], home@));
                if 0 <= k < raws@[i].repo@.len() {
                    assert(workspace::is_nested_repo(
                        list@[i].repos@[k],
                        raws@[i].repo@[k],
                        home@,
                    ));
                }
            }
        },
        Err(_) => {
            let j = choose|j: int| 0 <= j < raws@.len() && workspace::pathless(#[trigger] raws@[j]);
            assert(!(raws@[j].repo@.len() > 0 || raws@[j].path is Some));
        },
    }
}

/// A group is saved as a list of all its repositories, each with its own values.
pub proof fn law_groups_are_saved_whole(ws: &Workspace, r: RawWorkspace, i: int)
    requires
        call_ensures(raw_from_workspace, (ws,), r),
    ensures
        r.name@ == ws.name@,
        r.path is None && r.base is None && r.integration is None,
        r.repo@.len() == ws.repos@.len(),
        0 <= i < ws.repos@.len() ==> r.repo@[i].name@ == ws.repos@[i].name@ && r.repo@[i].path@
            == ws.repos@[i].path@ && r.repo@[i].base == ws.repos@[i].base && r.repo@[i].integration
            == ws.repos@[i].integration,
{
    if 0 <= i < ws.repos@.len() {
        assert(r.repo@[i].name@ == ws@.repos[i].name@);
    }
}

/// Merging nothing changes nothing, and one more group is added at the end just
/// where neither an existing nor an earlier new group has its name.
pub proof fn law_new_groups_are_added_by_name(
    existing: &Vec<Workspace>,
    new: &Vec<Workspace>,
    one_more: &Vec<Workspace>,
    ws: Workspace,
    a: Vec<Workspace>,
    b: Vec<Workspace>,
)
    requires
        one_more@ == new@.push(ws),
        call_ensures(merge_workspaces, (existing, new), a),
        call_ensures(merge_workspaces, (existing, one_more), b),
    ensures
        new@.len() == 0 ==> text::views(a@) == text::views(existing@),
        ({
            let taken = (exists|i: int|
                0 <= i < existing@.len() && (#[trigger] existing@[i]).name@ == ws.name@) || exists|
                i: int,
            |
                0 <= i < new@.len() && (#[trigger] new@[i]).name@ == ws.name@;
            &&& taken ==> text::views(b@) == text::views(a@)
            &&& !taken ==> text::views(b@) == text::views(a@).push(ws@)
        }),
{
    let old = text::views(existing@);
    let few = text::views(new@);
    let more = text::views(one_more@);
    assert(old.len() == existing@.len() && few.len() == new@.len());
    assert(more =~= few.push(ws@));
    let k = few.len() as int;
    workspace::law_merge_adds_new_names(old, more, k);
    assert(more.take(k + 1) =~= more);
    assert(more.take(k) =~= few);
    assert(more[k] == ws@);
    assert forall|i: int| 0 <= i < old.len() implies (#[trigger] old[i]) == existing@[i]@ by {}
    assert forall|i: int| 0 <= i < few.len() implies (#[trigger] few[i]) == new@[i]@ by {}
    if exists|i: int| 0 <= i < existing@.len() && (#[trigger] existing@[i]).name@ == ws.name@ {
        let i = choose|i: int|
            0 <= i < existing@.len() && (#[trigger] existing@[i]).name@ == ws.name@;
        assert(old[i].name == ws@.name);
    }
    if exists|i: int| 0 <= i < new@.len() && (#[trigger] new@[i]).name@ == ws.name@ {
        let i = choose|i: int| 0 <= i < new@.len() && (#[trigger] new@[i]).name@ == ws.name@;
        assert(few[i].name == ws@.name);
    }
    if workspace::has_group(old, ws@.name) {
        let i = choose|i: int| 0 <= i < old.len() && (#[trigger] old[i]).name == ws@.name;
        assert(existing@[i].name@ == ws.name@);
    }
    if workspace::has_group(few, ws@.name) {
        let i = choose|i: int| 0 <= i < few.len() && (#[trigger] few[i]).name == ws@.name;
        assert(new@[i].name@ == ws.name@);
    }
    if few.len() == 0 {
        assert(text::views(a@) =~= old);
    }
}

/// A configuration that is there and cannot be read is never overwritten; one
/// that is not there counts as empty; and else all groups are saved, those that
/// were there and the new ones, as merging and saving them gives.
pub proof fn law_unreadable_configurations_are_kept(
    loaded: Result<Vec<Workspace>, String>,
    exists_already: bool,
    new: &Vec<Workspace>,
    base: Result<Vec<Workspace>, String>,
    r: Result<Vec<RawWorkspace>, String>,
    groups: Vec<Workspace>,
    i: int,
    raw: RawWorkspace,
)
    requires
        call_ensures(save_base, (loaded, exists_already), base),
        call_ensures(entries_to_save, (loaded, exists_already, new), r),
        base matches Ok(list) ==> call_ensures(merge_workspaces, (&list, new), groups),
        0 <= i < groups@.len() ==> call_ensures(raw_from_workspace, (&groups@[i],), raw),
    ensures
        loaded is Ok ==> base == loaded,
        loaded is Err && exists_already ==> base == loaded && r is Err && r->Err_0
            == loaded->Err_0,
        loaded is Err && !exists_already ==> base is Ok && base->Ok_0@.len() == 0,
        r is Ok <==> base is Ok,
        r matches Ok(entries) ==> {
            &&& entries@.len() == groups@.len()
            &&& 0 <= i < groups@.len() ==> entries@[i].name@ == raw.name@ && entries@[i].repo@.len()
                == raw.repo@.len() && forall|k: int|
                0 <= k < raw.repo@.len() ==> (#[trigger] entries@[i].repo@[k]).name@
                    == raw.repo@[k].name@ && entries@[i].repo@[k].path@ == raw.repo@[k].path@
                    && entries@[i].repo@[k].base == raw.repo@[k].base
                    && entries@[i].repo@[k].integration == raw.repo@[k].integration
        },
{
    match r {
        Ok(entries) => {
            let list = base->Ok_0;
            assert(text::views(list@) =~= workspace::loaded_groups(loaded));
            let all = text::views(groups@);
            assert(all.len() == groups@.len());
            if 0 <= i < groups@.len() {
                assert(all[i] == groups@[i]@);
                assert(workspace::is_raw_of(entries@[i], all[i]));
                assert forall|k: int| 0 <= k < raw.repo@.len() implies (
                #[trigger] entries@[i].repo@[k]).name@ == raw.repo@[k].name@
                    && entries@[i].repo@[k].path@ == raw.repo@[k].path@
                    && entries@[i].repo@[k].base == raw.repo@[k].base
                    && entries@[i].repo@[k].integration == raw.repo@[k].integration by {
                    assert(raw.repo@[k].name@ == groups@[i]@.repos[k].name@);
                }
            }
        },
        Err(_) => {},
    }
}

/// The path of repository `i` is a directory with a `.git` in it. A path that
/// was not looked at is not.
pub open spec fn is_repository(probes: Seq<PathProbe>, i: int) -> bool {
    0 <= i < probes.len() && probes[i].is_dir && probes[i].has_git
}

/// Every path is one of a repository.
pub open spec fn all_repositories(repos: Seq<Repo>, probes: Seq<PathProbe>) -> bool {
    forall|i: int| 0 <= i < repos.len() ==> #[trigger] is_repository(probes, i)
}

/// No two repositories share a name.
pub open spec fn names_differ(repos: Seq<Repo>) -> bool {
    forall|i: int, j: int|
        0 <= i < j < repos.len() ==> (#[trigger] repos[i]).name@ != (#[trigger] repos[j]).name@
}

/// A workspace is valid just where it has a repository, no two repositories of it
/// share a name, and each is a directory with a `.git` in it.
pub proof fn law_valid_workspaces_hold_repositories(
    ws: &Workspace,
    probes: &Vec<PathProbe>,
    r: Result<(), WorkspaceError>,
)
    requires
        call_ensures(validate, (ws, probes), r),
    ensures
        r is Ok <==> ws.repos@.len() > 0 && all_repositories(ws.repos@, probes@) && names_differ(
            ws.repos@,
        ),
        r matches Err(WorkspaceError::NoRepositories { workspace }) ==> ws.repos@.len() == 0
            && workspace@ == ws.name@,
        r matches Err(WorkspaceError::DuplicateRepo { workspace, repo }) ==> workspace@ == ws.name@
            && exists|i: int, j: int|
            0 <= i < j < ws.repos@.len() && (#[trigger] ws.repos@[i]).name@ == repo@ && (
            #[trigger] ws.repos@[j]).name@ == repo@,
        r matches Err(WorkspaceError::NotADirectory { repo, path }) ==> exists|i: int|
            0 <= i < ws.repos@.len() && (#[trigger] ws.repos@[i]).name@ == repo@
                && ws.repos@[i].path@ == path@ && !(i < probes@.len() && probes@[i].is_dir),
        r matches Err(WorkspaceError::NotGit { repo, path }) ==> exists|i: int|
            0 <= i < ws.repos@.len() && (#[trigger] ws.repos@[i]).name@ == repo@
                && ws.repos@[i].path@ == path@ && i < probes@.len() && probes@[i].is_dir
                && !probes@[i].has_git,
{
    let repos = ws.repos@;
    match r {
        Ok(()) => {
            assert forall|i: int| 0 <= i < repos.len() implies #[trigger] is_repository(
                probes@,
                i,
            ) by {
                assert(workspace::repo_ok(repos, probes@, i));
            }
            assert forall|i: int, j: int| 0 <= i < j < repos.len() implies (
            #[trigger] repos[i]).name@ != (#[trigger] repos[j]).name@ by {
                assert(workspace::repo_ok(repos, probes@, j));
                if repos[i].name@ == repos[j].name@ {
                    assert(workspace::repeats_name(repos, j));
                }
            }
        },
        Err(WorkspaceError::NoRepositories { .. }) => {},
        Err(WorkspaceError::DuplicateRepo { workspace: w, repo }) => {
            let j = choose|j: int|
                workspace::first_bad_repo(repos, probes@, j) && workspace::repeats_name(repos, j)
                    && repo@ == repos[j].name@;
            let i = choose|i: int| 0 <= i < j && (#[trigger] repos[i]).name@ == repos[j].name@;
            assert(ws.repos@[i].name@ == repo@ && ws.repos@[j].name@ == repo@);
        },
        Err(WorkspaceError::NotADirectory { repo, path }) => {
            let i = choose|i: int|
                workspace::first_bad_repo(repos, probes@, i) && !workspace::probe(
                    probes@,
                    i,
                ).is_dir && repo@ == repos[i].name@ && path@ == repos[i].path@;
            assert(ws.repos@[i].name@ == repo@);
            assert(!is_repository(probes@, i));
        },
        Err(WorkspaceError::NotGit { repo, path }) => {
            let i = choose|i: int|
                workspace::first_bad_repo(repos, probes@, i) && workspace::probe(probes@, i).is_dir
                    && !workspace::probe(probes@, i).has_git && repo@ == repos[i].name@ && path@
                    == repos[i].path@;
            assert(ws.repos@[i].name@ == repo@);
            assert(!is_repository(probes@, i));
        },
        Err(WorkspaceError::NoPath { .. }) => {},
    }
}

/// Planning for one repository runs in its parent directory, or in the
/// repository where it has none.
pub proof fn law_one_repository_is_planned_from_its_parent(
    ws: &Workspace,
    r: String,
    path: &str,
    up: Option<String>,
)
    requires
        ws.repos@.len() == 1,
        call_ensures(common_root, (ws,), r),
        path@ == ws.repos@[0].path@,
        call_ensures(parent, (path,), up),
    ensures
        up is Some ==> r@ == up->0@,
        up is None ==> r@ == path@,
{
}

/// The first `n` components of the paths of all repositories are the same.
pub open spec fn all_lie_below(repos: Seq<Repo>, n: nat) -> bool {
    forall|i: int|
        0 <= i < repos.len() ==> {
            let own = paths::components((#[trigger] repos[i]).path@);
            n <= own.len() && own.take(n as int) == paths::components(repos[0].path@).take(n as int)
        }
}

/// Planning for several repositories runs in the deepest folder that all of them
/// lie below.
pub proof fn law_several_repositories_are_planned_from_what_they_share(
    ws: &Workspace,
    r: String,
    n: nat,
)
    requires
        ws.repos@.len() >= 2,
        forall|i: int|
            0 <= i < ws.repos@.len() ==> (#[trigger] ws.repos@[i]).path@.len() > 0
                && ws.repos@[i].path@[0] == '/',
        call_ensures(common_root, (ws,), r),
    ensures
        r@.len() > 0 && r@[0] == '/',
        all_lie_below(ws.repos@, paths::components(r@).len()),
        paths::components(r@) == paths::components(ws.repos@[0].path@).take(
            paths::components(r@).len() as int,
        ),
        all_lie_below(ws.repos@, n) ==> n <= paths::components(r@).len(),
{
    let repos = ws.repos@;
    let root = workspace::full_components(r@);
    let slash = seq!["/"@];
    workspace::law_common_root_is_the_longest_shared(repos, r@);
    assert(repos[0].path@.len() > 0);
    assert(workspace::leads_all(slash, repos)) by {
        assert forall|i: int| 0 <= i < repos.len() implies slash.len()
            <= workspace::full_components((#[trigger] repos[i]).path@).len() && slash
            == workspace::full_components(repos[i].path@).take(slash.len() as int) by {
            let own = workspace::full_components(repos[i].path@);
            assert(own == slash + paths::components(repos[i].path@));
            assert(own.take(1) =~= slash);
        }
    }
    assert(root.len() >= 1);
    let first = workspace::full_components(repos[0].path@);
    assert(root == first.take(root.len() as int));
    assert(root[0] == "/"@);
    reveal_strlit("/");
    assert(paths::absolute(r@)) by {
        if !paths::absolute(r@) {
            paths::lemma_components_proper(r@);
            assert("/"@[0] == '/');
            assert(root[0].contains('/'));
        }
    }
    let c = paths::components(r@);
    assert(root == slash + c);
    assert forall|i: int| 0 <= i < repos.len() implies c.len() <= paths::components(
        (#[trigger] repos[i]).path@,
    ).len() && paths::components(repos[i].path@).take(c.len() as int) == c by {
        let own = paths::components(repos[i].path@);
        let full = workspace::full_components(repos[i].path@);
        assert(full == slash + own);
        assert(root == full.take(root.len() as int));
        assert forall|k: int| 0 <= k < c.len() implies own[k] == c[k] by {
            assert(root[k + 1] == c[k]);
            assert(full.take(root.len() as int)[k + 1] == full[k + 1]);
            assert(full[k + 1] == own[k]);
        }
        assert(own.take(c.len() as int) =~= c);
    }
    if all_lie_below(repos, n) {
        let parts = slash + paths::components(repos[0].path@).take(n as int);
        assert(workspace::leads_all(parts, repos)) by {
            assert forall|i: int| 0 <= i < repos.len() implies parts.len()
                <= workspace::full_components((#[trigger] repos[i]).path@).len() && parts
                == workspace::full_components(repos[i].path@).take(parts.len() as int) by {
                let own = paths::components(repos[i].path@);
                let full = workspace::full_components(repos[i].path@);
                assert(full == slash + own);
                assert(full.take(parts.len() as int) =~= slash + own.take(n as int));
            }
        }
        assert(repos[0] == repos[0]);
        assert(n <= paths::components(repos[0].path@).len());
        assert(parts.len() == n + 1);
    }
}

/// A refused workspace tells which one it is, or which repository of it, and
/// what is wrong.
pub proof fn law_refused_workspaces_tell_what_is_wrong(e: &WorkspaceError, r: String)
    requires
        call_ensures(WorkspaceError::message, (e,), r),
    ensures
        *e matches WorkspaceError::NoPath { workspace } ==> r@ == "workspace '"@ + workspace@
            + "' has neither a path nor a [[workspace.repo]] list"@,
        *e matches WorkspaceError::NoRepositories { workspace } ==> r@ == "workspace '"@ + workspace@
            + "' has no repositories"@,
        *e matches WorkspaceError::DuplicateRepo { workspace, repo } ==> r@ == "workspace '"@
            + workspace@ + "' has a duplicate repo name: "@ + repo@,
        *e matches WorkspaceError::NotADirectory { repo, path } ==> r@ == "repo '"@ + repo@
            + "' path is not a directory: "@ + path@,
        *e matches WorkspaceError::NotGit { repo, path } ==> r@ == "repo '"@ + repo@
            + "' is not a git repository (no .git): "@ + path@,
{
}

/// Repositories found by their paths keep them, and are named by their last
/// component, with the name of the directory before it where another repository
/// has the same; neither ref of them is set.
pub proof fn law_found_repositories_are_named_by_their_directory(
    list: Vec<String>,
    r: Vec<Repo>,
    i: int,
    j: int,
    a: &str,
    b: &str,
    name_a: String,
    name_b: String,
)
    requires
        call_ensures(repos_from_paths, (list,), r),
        0 <= i < list@.len(),
        a@ == list@[i]@,
        call_ensures(base_name, (a,), name_a),
    ensures
        r@.len() == list@.len(),
        r@[i].path@ == list@[i]@,
        r@[i].base is None && r@[i].integration is None,
        (forall|k: int|
            0 <= k < list@.len() && k != i ==> workspace::base_name_of((#[trigger] list@[k])@)
                != name_a@) ==> r@[i].name@ == name_a@,
        0 <= j < list@.len() && j != i && b@ == list@[j]@ && call_ensures(base_name, (b,), name_b)
            && name_b@ == name_a@ ==> match paths::parent_of(a@) {
            Some(up) => match paths::file_name_of(up) {
                Some(dir) => r@[i].name@ == dir + "/"@ + name_a@,
                None => r@[i].name@ == name_a@,
            },
            None => r@[i].name@ == name_a@,
        },
{
    let all = text::views(list@);
    assert(all.len() == list@.len());
    assert forall|k: int| 0 <= k < all.len() implies (#[trigger] all[k]) == list@[k]@ by {}
    assert(all[i] == a@);
    if 0 <= j < list@.len() && j != i && b@ == list@[j]@ && call_ensures(base_name, (b,), name_b)
        && name_b@ == name_a@ {
        assert(workspace::base_name_of(all[j]) == workspace::base_name_of(all[i]));
        assert(workspace::shares_name(all, i));
    }
    if forall|k: int|
        0 <= k < list@.len() && k != i ==> workspace::base_name_of((#[trigger] list@[k])@)
            != name_a@ {
        assert(!workspace::shares_name(all, i)) by {
            if workspace::shares_name(all, i) {
                let k = choose|k: int|
                    0 <= k < all.len() && k != i && workspace::base_name_of(#[trigger] all[k])
                        == workspace::base_name_of(all[i]);
                assert(workspace::base_name_of(list@[k]@) == name_a@);
            }
        }
    }
}

/// A requested workspace is run as requested: its name, its repositories in
/// their order with their refs, each at the path it was found at.
pub proof fn law_requests_are_run_as_requested(
    asked: &WorkspaceDto,
    home: &str,
    found: Vec<String>,
    r: Workspace,
    i: int,
    path: &str,
    at: String,
)
    requires
        call_ensures(requested_paths, (asked, home), found),
        call_ensures(requested_workspace, (asked, &found), r),
        0 <= i < asked.repos@.len(),
        path@ == asked.repos@[i].path@,
        call_ensures(expand_tilde, (path, home), at),
    ensures
        found@.len() == asked.repos@.len(),
        found@[i]@ == at@,
        r.name@ == asked.name@,
        r.repos@.len() == asked.repos@.len(),
        r.repos@[i].name == asked.repos@[i].name,
        r.repos@[i].path == found@[i],
        r.repos@[i].base == asked.repos@[i].base,
        r.repos@[i].integration == asked.repos@[i].integration,
{
    assert(r.repos@[i] == (Repo {
        name: asked@.repos[i].name,
        path: found@[i],
        base: asked@.repos[i].base,
        integration: asked@.repos[i].integration,
    }));
}

/// A directory that a scan does not look into: a hidden one, or one that builds
/// fill.
pub open spec fn passed_over(name: Seq<char>) -> bool {
    ||| name.len() > 0 && name[0] == '.'
    ||| name == "node_modules"@
    ||| name == "target"@
    ||| name == "dist"@
    ||| name == "build"@
}

/// A scan starts at its root and looks into one directory after the other until
/// none is left or 500 repositories are found; the entries of a directory matter
/// above the greatest depth only.
pub proof fn law_scans_look_until_done(
    root: &str,
    max_depth: usize,
    fresh: Scan,
    s: &mut Scan,
    r: Option<(String, bool)>,
)
    requires
        call_ensures(Scan::new, (root, max_depth), fresh),
        old(s).wf(),
        call_ensures(Scan::advance, (s,), r),
    ensures
        fresh@.stack.len() == 1 && fresh@.stack[0] == (root@, 0nat),
        fresh@.repos.len() == 0 && fresh@.current is None && fresh@.max_depth == max_depth,
        r is None <==> old(s)@.stack.len() == 0 || old(s)@.repos.len() >= 500,
        r matches Some((dir, descend)) ==> {
            let next = old(s)@.stack.last();
            &&& dir@ == next.0
            &&& descend == (next.1 < old(s)@.max_depth)
            &&& final(s)@.current == Some(next)
            &&& final(s)@.stack == old(s)@.stack.drop_last()
        },
        r is None ==> final(s)@.stack == old(s)@.stack && final(s)@.current is None,
        final(s)@.repos == old(s)@.repos && final(s)@.max_depth == old(s)@.max_depth,
{
}

/// A repository that is looked into is found and not looked below. A directory
/// that is none is looked below, unless it is at the greatest depth: into every
/// directory in it, in their order, but for those that are passed over.
pub proof fn law_scans_find_repositories_and_look_below_the_rest(s: &mut Scan, finding: &Finding)
    requires
        old(s).wf(),
        old(s)@.current is Some,
        call_ensures(Scan::report, (s, finding), ()),
    ensures
        final(s)@.current is None,
        final(s)@.max_depth == old(s)@.max_depth,
        *finding is Repository ==> final(s)@.repos == old(s)@.repos.push((old(s)@.current->0).0),
        !(*finding is Repository) ==> final(s)@.repos == old(s)@.repos,
        !(*finding is Entries) ==> final(s)@.stack == old(s)@.stack,
        *finding is Entries && (old(s)@.current->0).1 >= old(s)@.max_depth ==> final(s)@.stack
            == old(s)@.stack,
        *finding is Entries && (old(s)@.current->0).1 < old(s)@.max_depth ==> {
            let below = text::views(finding->Entries_0@).filter(
                |e: scan::EntryModel| e.is_dir && !passed_over(e.name),
            );
            final(s)@.stack == old(s)@.stack + Seq::new(
                below.len(),
                |i: int| (below[i].path, (old(s)@.current->0).1 + 1),
            )
        },
{
    match finding@ {
        FindingModel::Entries(entries) => {
            lemma_children_filter(entries, (s@.current->0).1);
        },
        _ => {},
    }
}

proof fn lemma_children_filter(entries: Seq<scan::EntryModel>, depth: nat)
    ensures
        ({
            let below = entries.filter(|e: scan::EntryModel| e.is_dir && !passed_over(e.name));
            scan::children(entries, depth) == Seq::new(
                below.len(),
                |i: int| (below[i].path, depth + 1),
            )
        }),
    decreases entries.len(),
{
    reveal(Seq::filter);
    reveal_strlit(".");
    let keep = |e: scan::EntryModel| e.is_dir && !passed_over(e.name);
    let below = entries.filter(keep);
    let all = Seq::new(below.len(), |i: int| (below[i].path, depth + 1));
    if entries.len() > 0 {
        let rest = entries.drop_last();
        lemma_children_filter(rest, depth);
        let e = entries.last();
        assert(scan::skipped_name(e.name) <==> passed_over(e.name)) by {
            if e.name.len() > 0 {
                assert(e.name.subrange(0, 1)[0] == e.name[0]);
                if e.name[0] == '.' {
                    assert(e.name.subrange(0, 1) =~= "."@);
                }
            }
        }
    }
    assert(scan::children(entries, depth) =~= all);
}

/// What a scan gives is what it found, each repository at its path, with neither
/// ref set.
pub proof fn law_scans_give_what_they_found(s: &Scan, r: Vec<Repo>)
    requires
        s.wf(),
        call_ensures(Scan::finish, (s,), r),
    ensures
        r@.len() == s@.repos.len(),
        Seq::new(r@.len(), |i: int| r@[i].path@).to_multiset() == s@.repos.to_multiset(),
        forall|i: int|
            0 <= i < r@.len() ==> (#[trigger] r@[i]).base is None && r@[i].integration is None,
        forall|i: int, j: int|
            0 <= i < j < r@.len() ==> paths::path_le(
                (#[trigger] r@[i]).path@,
                (#[trigger] r@[j]).path@,
            ),
{
    let sorted = choose|sorted: Seq<Seq<char>>|
        {
            &&& #[trigger] paths::listed(sorted)
            &&& sorted.to_multiset() == s@.repos.to_multiset()
            &&& sorted.len() == r@.len()
            &&& forall|i: int|
                0 <= i < r@.len() ==> (#[trigger] r@[i]).path@ == sorted[i] && r@[i].name@
                    == workspace::display_name(sorted, i) && r@[i].base is None
                    && r@[i].integration is None
        };
    assert(Seq::new(r@.len(), |i: int| r@[i].path@) =~= sorted);
    assert forall|i: int, j: int| 0 <= i < j < r@.len() implies paths::path_le(
        (#[trigger] r@[i]).path@,
        (#[trigger] r@[j]).path@,
    ) by {
        assert(paths::path_le(sorted[i], sorted[j]));
    }
}

} // verus!
