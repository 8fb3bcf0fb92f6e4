//! Workspaces: named groups of one or more git repositories that a run
//! targets together, as registered in `~/.config/agentic-tui/workspaces.toml`.
use vstd::prelude::*;
use vstd::string::*;

use crate::paths;
use crate::paths::{
    file_name, is_absolute, join_path, parent, path_components, render,
};
use crate::text;
use crate::text::{
    clone_opt, contains_text, from_chars, same, starts_with, to_chars,
};

verus! {

/// One repository inside a workspace group: where it lives, the ref its epics
/// branch from (defaulting later to `HEAD`), and the branch their work merges
/// into (defaulting later to `agentic-integration`).
#[derive(Debug, PartialEq)]
pub struct Repo {
    pub name: String,
    pub path: String,
    pub base: Option<String>,
    pub integration: Option<String>,
}

/// A named group of repositories a run targets together.
#[derive(Debug, PartialEq)]
pub struct Workspace {
    pub name: String,
    pub repos: Vec<Repo>,
}

/// The content of a workspace.
#[verifier::ext_equal]
pub ghost struct WorkspaceModel {
    pub name: Seq<char>,
    pub repos: Seq<Repo>,
}

impl View for Workspace {
    type V = WorkspaceModel;

    open spec fn view(&self) -> WorkspaceModel {
        WorkspaceModel { name: self.name@, repos: self.repos@ }
    }
}

impl Clone for Repo {
    fn clone(&self) -> (r: Repo)
        ensures
            r == *self,
    {
        Repo {
            name: self.name.clone(),
            path: self.path.clone(),
            base: clone_opt(&self.base),
            integration: clone_opt(&self.integration),
        }
    }
}

impl Clone for Workspace {
    fn clone(&self) -> (r: Workspace)
        ensures
            r@ == self@,
            r.name == self.name,
            r.repos@ == self.repos@,
    {
        let mut repos: Vec<Repo> = Vec::new();
        let mut i: usize = 0;
        while i < self.repos.len()
            invariant
                i <= self.repos@.len(),
                repos@ == self.repos@.take(i as int),
            decreases self.repos@.len() - i,
        {
            repos.push(self.repos[i].clone());
            i = i + 1;
            assert(repos@ =~= self.repos@.take(i as int));
        }
        assert(self.repos@.take(i as int) =~= self.repos@);
        Workspace { name: self.name.clone(), repos }
    }
}

/// A repository of a `[[workspace]]` entry, as it stands in the file.
#[derive(Debug, Clone, PartialEq)]
pub struct RawRepo {
    pub name: String,
    pub path: String,
    pub base: Option<String>,
    pub integration: Option<String>,
}

/// A `[[workspace]]` entry as it stands in the file. It has BOTH shapes: a
/// nested list of `[[workspace.repo]]` blocks (a multi-repo group), or a flat
/// `path`/`base`/`integration` (a one-repo group named after the workspace).
#[derive(Debug, Clone, PartialEq)]
pub struct RawWorkspace {
    pub name: String,
    pub path: Option<String>,
    pub base: Option<String>,
    pub integration: Option<String>,
    pub repo: Vec<RawRepo>,
}

/// Why a workspace is refused.
#[derive(Debug, PartialEq)]
pub enum WorkspaceError {
    NoPath { workspace: String },
    NoRepositories { workspace: String },
    DuplicateRepo { workspace: String, repo: String },
    NotADirectory { repo: String, path: String },
    NotGit { repo: String, path: String },
}

impl WorkspaceError {
    /// The text of the message.
    pub open spec fn text(self) -> Seq<char> {
        match self {
            WorkspaceError::NoPath { workspace } => "workspace '"@ + workspace@
                + "' has neither a path nor a [[workspace.repo]] list"@,
            WorkspaceError::NoRepositories { workspace } => "workspace '"@ + workspace@
                + "' has no repositories"@,
            WorkspaceError::DuplicateRepo { workspace, repo } => "workspace '"@ + workspace@
                + "' has a duplicate repo name: "@ + repo@,
            WorkspaceError::NotADirectory { repo, path } => "repo '"@ + repo@
                + "' path is not a directory: "@ + path@,
            WorkspaceError::NotGit { repo, path } => "repo '"@ + repo@
                + "' is not a git repository (no .git): "@ + path@,
        }
    }

    /// A human-readable message.
    pub fn message(&self) -> (r: String)
        ensures
            r@ == self.text(),
    {
        match self {
            WorkspaceError::NoPath { workspace } => "workspace '".to_string().concat(
                workspace.as_str(),
            ).concat("' has neither a path nor a [[workspace.repo]] list"),
            WorkspaceError::NoRepositories { workspace } => "workspace '".to_string().concat(
                workspace.as_str(),
            ).concat("' has no repositories"),
            WorkspaceError::DuplicateRepo { workspace, repo } => "workspace '".to_string().concat(
                workspace.as_str(),
            ).concat("' has a duplicate repo name: ").concat(repo.as_str()),
            WorkspaceError::NotADirectory { repo, path } => "repo '".to_string().concat(
                repo.as_str(),
            ).concat("' path is not a directory: ").concat(path.as_str()),
            WorkspaceError::NotGit { repo, path } => "repo '".to_string().concat(
                repo.as_str(),
            ).concat("' is not a git repository (no .git): ").concat(path.as_str()),
        }
    }
}

/// The path of a file in the configuration directory below a home directory,
/// or below the current directory where there is no home.
pub open spec fn config_file(home: Option<Seq<char>>, name: Seq<char>) -> Seq<char> {
    let base = match home {
        Some(h) => h,
        None => "."@,
    };
    paths::joined_path(
        paths::joined_path(paths::joined_path(base, ".config"@), "agentic-tui"@),
        name,
    )
}

fn in_config_dir(home: &Option<String>, name: &str) -> (r: String)
    ensures
        r@ == config_file(text::opt_view(*home), name@),
{
    let base: &str = match home {
        Some(h) => h.as_str(),
        None => ".",
    };
    let config = join_path(base, ".config");
    let dir = join_path(config.as_str(), "agentic-tui");
    join_path(dir.as_str(), name)
}

/// Default location of the workspace registry, for a home directory.
pub fn default_config_path(home: &Option<String>) -> (r: String)
    ensures
        r@ == config_file(text::opt_view(*home), "workspaces.toml"@),
{
    in_config_dir(home, "workspaces.toml")
}

/// Default location of the run store, for a home directory.
pub fn runs_dir(home: &Option<String>) -> (r: String)
    ensures
        r@ == config_file(text::opt_view(*home), "runs"@),
{
    in_config_dir(home, "runs")
}

/// The path with a single leading `~` replaced by the home directory.
pub open spec fn expanded(raw: Seq<char>, home: Seq<char>) -> Seq<char> {
    if text::has_prefix(raw, "~/"@) {
        paths::joined_path(home, raw.skip(2))
    } else if raw == "~"@ {
        home
    } else {
        raw
    }
}

/// Expand a single leading `~` to the home directory. Other paths pass through.
pub fn expand_tilde(raw: &str, home: &str) -> (r: String)
    ensures
        r@ == expanded(raw@, home@),
{
    if starts_with(raw, "~/") {
        let cs = to_chars(raw);
        proof {
            reveal_strlit("~/");
            assert(cs@.subrange(2, cs@.len() as int) =~= raw@.skip(2));
        }
        let rest = from_chars(&cs, 2, cs.len());
        join_path(home, rest.as_str())
    } else if same(raw, "~") {
        home.to_string()
    } else {
        raw.to_string()
    }
}

/// The repository of a nested block.
pub open spec fn is_nested_repo(repo: Repo, raw: RawRepo, home: Seq<char>) -> bool {
    &&& repo.name@ == raw.name@
    &&& repo.path@ == expanded(raw.path@, home)
    &&& text::opt_view(repo.base) == text::opt_view(raw.base)
    &&& text::opt_view(repo.integration) == text::opt_view(raw.integration)
}

/// The entry has neither a nested list nor a path.
pub open spec fn pathless(raw: RawWorkspace) -> bool {
    raw.repo@.len() == 0 && raw.path is None
}

/// The group of an entry: its nested repositories, or the one its path names.
pub open spec fn is_group(ws: Workspace, raw: RawWorkspace, home: Seq<char>) -> bool {
    &&& ws.name@ == raw.name@
    &&& if raw.repo@.len() > 0 {
        &&& ws.repos@.len() == raw.repo@.len()
        &&& forall|i: int|
            0 <= i < ws.repos@.len() ==> is_nested_repo(#[trigger] ws.repos@[i], raw.repo@[i], home)
    } else {
        &&& raw.path is Some
        &&& ws.repos@.len() == 1
        &&& ws.repos@[0].name@ == raw.name@
        &&& ws.repos@[0].path@ == expanded(raw.path->0@, home)
        &&& text::opt_view(ws.repos@[0].base) == text::opt_view(raw.base)
        &&& text::opt_view(ws.repos@[0].integration) == text::opt_view(raw.integration)
    }
}

fn group_of(raw: &RawWorkspace, home: &str) -> (r: Option<Workspace>)
    ensures
        match r {
            Some(ws) => is_group(ws, *raw, home@),
            None => pathless(*raw),
        },
{
    let mut repos: Vec<Repo> = Vec::new();
    if raw.repo.len() > 0 {
        let mut i: usize = 0;
        while i < raw.repo.len()
            invariant
                i <= raw.repo@.len(),
                repos@.len() == i,
                forall|j: int|
                    0 <= j < i ==> is_nested_repo(#[trigger] repos@[j], raw.repo@[j], home@),
            decreases raw.repo@.len() - i,
        {
            let entry = &raw.repo[i];
            repos.push(
                Repo {
                    name: entry.name.clone(),
                    path: expand_tilde(entry.path.as_str(), home),
                    base: clone_opt(&entry.base),
                    integration: clone_opt(&entry.integration),
                },
            );
            i = i + 1;
        }
        return Some(Workspace { name: raw.name.clone(), repos });
    }
    match &raw.path {
        Some(path) => {
            repos.push(
                Repo {
                    name: raw.name.clone(),
                    path: expand_tilde(path.as_str(), home),
                    base: clone_opt(&raw.base),
                    integration: clone_opt(&raw.integration),
                },
            );
            Some(Workspace { name: raw.name.clone(), repos })
        },
        None => None,
    }
}

/// The groups are those of the entries, one each, in their order.
pub open spec fn loads(raws: Seq<RawWorkspace>, list: Seq<Workspace>, home: Seq<char>) -> bool {
    list.len() == raws.len() && forall|i: int|
        0 <= i < raws.len() ==> is_group(#[trigger] list[i], raws[i], home)
}

/// Turn the entries of the file into workspace groups, expanding paths. A
/// nested `[[workspace.repo]]` list maps to a multi-repo group; a flat `path`
/// maps to a one-repo group named after the workspace. An entry with neither
/// is an error.
pub fn workspaces_from_raw(raws: &Vec<RawWorkspace>, home: &str) -> (r: Result<
    Vec<Workspace>,
    WorkspaceError,
>)
    ensures
        match r {
            Ok(list) => loads(raws@, list@, home@),
            Err(e) => e matches WorkspaceError::NoPath { workspace } && exists|i: int|
                0 <= i < raws@.len() && pathless(#[trigger] raws@[i]) && workspace@
                    == raws@[i].name@ && forall|j: int|
                    0 <= j < i ==> !pathless(#[trigger] raws@[j]),
        },
{
    let mut list: Vec<Workspace> = Vec::new();
    let mut i: usize = 0;
    while i < raws.len()
        invariant
            i <= raws@.len(),
            list@.len() == i,
            forall|j: int| 0 <= j < i ==> is_group(#[trigger] list@[j], raws@[j], home@),
        decreases raws@.len() - i,
    {
        match group_of(&raws[i], home) {
            Some(ws) => list.push(ws),
            None => {
                assert forall|j: int| 0 <= j < i implies !pathless(#[trigger] raws@[j]) by {
                    assert(is_group(list@[j], raws@[j], home@));
                }
                return Err(WorkspaceError::NoPath { workspace: raws[i].name.clone() });
            },
        }
        i = i + 1;
    }
    Ok(list)
}

/// The entry is the nested shape of the group.
pub open spec fn is_raw_of(raw: RawWorkspace, ws: WorkspaceModel) -> bool {
    &&& raw.name@ == ws.name
    &&& raw.path is None && raw.base is None && raw.integration is None
    &&& raw.repo@.len() == ws.repos.len()
    &&& forall|i: int|
        0 <= i < ws.repos.len() ==> (#[trigger] raw.repo@[i]).name@ == ws.repos[i].name@
            && raw.repo@[i].path@ == ws.repos[i].path@ && raw.repo@[i].base == ws.repos[i].base
            && raw.repo@[i].integration == ws.repos[i].integration
}

/// The entry a group is saved as: `name` plus one nested block per repository
/// (a one-repo group gets a single block).
pub fn raw_from_workspace(ws: &Workspace) -> (r: RawWorkspace)
    ensures
        is_raw_of(r, ws@),
{
    let mut repo: Vec<RawRepo> = Vec::new();
    let mut i: usize = 0;
    while i < ws.repos.len()
        invariant
            i <= ws.repos@.len(),
            repo@.len() == i,
            forall|j: int|
                0 <= j < i ==> (#[trigger] repo@[j]).name@ == ws.repos@[j].name@ && repo@[j].path@
                    == ws.repos@[j].path@ && repo@[j].base == ws.repos@[j].base
                    && repo@[j].integration == ws.repos@[j].integration,
        decreases ws.repos@.len() - i,
    {
        let entry = &ws.repos[i];
        repo.push(
            RawRepo {
                name: entry.name.clone(),
                path: entry.path.clone(),
                base: clone_opt(&entry.base),
                integration: clone_opt(&entry.integration),
            },
        );
        i = i + 1;
    }
    RawWorkspace { name: ws.name.clone(), path: None, base: None, integration: None, repo }
}

/// A path that is not expanded when it is read.
pub open spec fn untilded(path: Seq<char>) -> bool {
    path != "~"@ && !text::has_prefix(path, "~/"@)
}

/// A group that is read back as it was saved: it has a repository, and reading
/// its paths leaves them as they are.
pub open spec fn savable(ws: WorkspaceModel, home: Seq<char>) -> bool {
    ws.repos.len() > 0 && forall|i: int|
        0 <= i < ws.repos.len() ==> expanded((#[trigger] ws.repos[i]).path@, home)
            == ws.repos[i].path@
}

/// The two repositories hold the same texts.
pub open spec fn same_repo(a: Repo, b: Repo) -> bool {
    &&& a.name@ == b.name@
    &&& a.path@ == b.path@
    &&& text::opt_view(a.base) == text::opt_view(b.base)
    &&& text::opt_view(a.integration) == text::opt_view(b.integration)
}

/// The group has the name and the repositories.
pub open spec fn same_group(back: Workspace, ws: WorkspaceModel) -> bool {
    &&& back.name@ == ws.name
    &&& back.repos@.len() == ws.repos.len()
    &&& forall|i: int|
        0 <= i < ws.repos.len() ==> same_repo(#[trigger] back.repos@[i], ws.repos[i])
}

/// What a saved group is read back as: the same name and repositories. A
/// group without repositories is refused when read, and a path with a leading
/// tilde is expanded.
pub proof fn law_saved_group_reads_back(
    ws: WorkspaceModel,
    raw: RawWorkspace,
    back: Workspace,
    home: Seq<char>,
)
    requires
        is_raw_of(raw, ws),
        is_group(back, raw, home),
        savable(ws, home),
    ensures
        same_group(back, ws),
{
    assert forall|i: int| 0 <= i < ws.repos.len() implies same_repo(
        #[trigger] back.repos@[i],
        ws.repos[i],
    ) by {
        assert(is_nested_repo(back.repos@[i], raw.repo@[i], home));
        assert(raw.repo@[i].name@ == ws.repos[i].name@);
        assert(expanded(ws.repos[i].path@, home) == ws.repos[i].path@);
    }
}

/// Some group has the name.
pub open spec fn has_group(list: Seq<WorkspaceModel>, name: Seq<char>) -> bool {
    exists|i: int| 0 <= i < list.len() && (#[trigger] list[i]).name == name
}

/// The groups with each new one added whose name is not taken yet.
pub open spec fn merged(
    existing: Seq<WorkspaceModel>,
    new: Seq<WorkspaceModel>,
) -> Seq<WorkspaceModel>
    decreases new.len(),
{
    if new.len() == 0 {
        existing
    } else {
        let head = merged(existing, new.drop_last());
        if has_group(head, new.last().name) {
            head
        } else {
            head.push(new.last())
        }
    }
}

/// Union two lists of groups by name. The existing group wins on a name conflict.
pub fn merge_workspaces(existing: &Vec<Workspace>, new: &Vec<Workspace>) -> (r: Vec<Workspace>)
    ensures
        text::views(r@) == merged(text::views(existing@), text::views(new@)),
{
    let mut out: Vec<Workspace> = Vec::new();
    let mut names: Vec<String> = Vec::new();
    let ghost old_list = text::views(existing@);
    let ghost new_list = text::views(new@);
    let mut i: usize = 0;
    while i < existing.len()
        invariant
            i <= existing@.len(),
            old_list == text::views(existing@),
            text::views(out@) == old_list.take(i as int),
            names_of(text::views(out@), text::views(names@)),
        decreases existing@.len() - i,
    {
        let ghost before = out@;
        let ghost named = names@;
        out.push(existing[i].clone());
        names.push(existing[i].name.clone());
        proof {
            text::lemma_views_push(before, out@.last());
            text::lemma_views_push(named, names@.last());
            assert(out@ =~= before.push(out@.last()));
            assert(names@ =~= named.push(names@.last()));
            assert(old_list.take(i + 1) =~= old_list.take(i as int).push(existing@[i as int]@));
        }
        i = i + 1;
    }
    assert(old_list.take(i as int) =~= old_list);
    let mut k: usize = 0;
    assert(new_list.take(0) =~= Seq::<WorkspaceModel>::empty());
    while k < new.len()
        invariant
            k <= new@.len(),
            new_list == text::views(new@),
            text::views(out@) == merged(old_list, new_list.take(k as int)),
            names_of(text::views(out@), text::views(names@)),
        decreases new@.len() - k,
    {
        let ghost before = out@;
        let ghost named = names@;
        let ws = &new[k];
        proof {
            assert(new_list.take(k + 1).drop_last() =~= new_list.take(k as int));
            assert(new_list.take(k + 1).last() == ws@);
            lemma_names_of(text::views(out@), text::views(names@), ws@.name);
        }
        if !contains_text(&names, ws.name.as_str()) {
            out.push(ws.clone());
            names.push(ws.name.clone());
            proof {
                text::lemma_views_push(before, out@.last());
                text::lemma_views_push(named, names@.last());
                assert(out@ =~= before.push(out@.last()));
                assert(names@ =~= named.push(names@.last()));
            }
        }
        k = k + 1;
    }
    assert(new_list.take(k as int) =~= new_list);
    out
}

spec fn names_of(list: Seq<WorkspaceModel>, names: Seq<Seq<char>>) -> bool {
    names.len() == list.len() && forall|i: int|
        0 <= i < list.len() ==> #[trigger] names[i] == list[i].name
}

proof fn lemma_names_of(list: Seq<WorkspaceModel>, names: Seq<Seq<char>>, name: Seq<char>)
    requires
        names_of(list, names),
    ensures
        names.contains(name) == has_group(list, name),
{
    if names.contains(name) {
        let i = choose|i: int| 0 <= i < names.len() && names[i] == name;
        assert(list[i].name == name);
    }
    if has_group(list, name) {
        let i = choose|i: int| 0 <= i < list.len() && (#[trigger] list[i]).name == name;
        assert(names[i] == name);
    }
}

/// Saving keeps every group that was there, where it was, and afterwards
/// every group that was asked for is there by name.
pub proof fn law_merge_is_a_union(existing: Seq<WorkspaceModel>, new: Seq<WorkspaceModel>)
    ensures
        merged(existing, new).len() >= existing.len(),
        merged(existing, new).take(existing.len() as int) == existing,
        forall|i: int|
            0 <= i < new.len() ==> has_group(merged(existing, new), (#[trigger] new[i]).name),
        forall|i: int|
            existing.len() <= i < merged(existing, new).len() ==> new.contains(
                #[trigger] merged(existing, new)[i],
            ),
    decreases new.len(),
{
    if new.len() == 0 {
        assert(existing.take(existing.len() as int) =~= existing);
    } else {
        let last = new.last();
        let head = merged(existing, new.drop_last());
        let whole = merged(existing, new);
        law_merge_is_a_union(existing, new.drop_last());
        assert(whole.take(existing.len() as int) =~= head.take(existing.len() as int));
        assert forall|i: int| 0 <= i < new.len() implies has_group(
            whole,
            (#[trigger] new[i]).name,
        ) by {
            if i < new.len() - 1 {
                assert(new.drop_last()[i] == new[i]);
                let k = choose|k: int|
                    0 <= k < head.len() && (#[trigger] head[k]).name == new[i].name;
                assert(whole[k].name == new[i].name);
            } else if !has_group(head, last.name) {
                assert(whole[head.len() as int].name == last.name);
            }
        }
        assert forall|i: int| existing.len() <= i < whole.len() implies new.contains(
            #[trigger] whole[i],
        ) by {
            if i < head.len() {
                assert(whole[i] == head[i]);
                let k = choose|k: int| 0 <= k < new.drop_last().len() && new.drop_last()[k] == head[i];
                assert(new[k] == whole[i]);
            } else {
                assert(new[new.len() - 1] == whole[i]);
            }
        }
    }
}

/// A saved list has no name twice, if it had none twice before.
pub proof fn law_merge_keeps_names_unique(existing: Seq<WorkspaceModel>, new: Seq<WorkspaceModel>)
    requires
        forall|i: int, j: int|
            0 <= i < j < existing.len() ==> (#[trigger] existing[i]).name
                != (#[trigger] existing[j]).name,
    ensures
        forall|i: int, j: int|
            0 <= i < j < merged(existing, new).len() ==> (#[trigger] merged(existing, new)[i]).name
                != (#[trigger] merged(existing, new)[j]).name,
    decreases new.len(),
{
    if new.len() > 0 {
        law_merge_keeps_names_unique(existing, new.drop_last());
        let head = merged(existing, new.drop_last());
        let whole = merged(existing, new);
        assert forall|i: int, j: int| 0 <= i < j < whole.len() implies (#[trigger] whole[i]).name
            != (#[trigger] whole[j]).name by {
            assert(whole[i] == head[i]);
            if j < head.len() {
                assert(whole[j] == head[j]);
            }
        }
    }
}

/// What a save starts from: the entries that could be read, or nothing where
/// no file exists yet. A file that exists and cannot be read is an error, so
/// that it is never overwritten.
pub fn save_base(loaded: Result<Vec<Workspace>, String>, exists: bool) -> (r: Result<
    Vec<Workspace>,
    String,
>)
    ensures
        match loaded {
            Ok(list) => r == Ok::<Vec<Workspace>, String>(list),
            Err(e) => if exists {
                r == Err::<Vec<Workspace>, String>(e)
            } else {
                r matches Ok(list) && list@.len() == 0
            },
        },
{
    match loaded {
        Ok(list) => Ok(list),
        Err(e) => if exists {
            Err(e)
        } else {
            Ok(Vec::new())
        },
    }
}

/// What a save starts from.
pub open spec fn loaded_groups(loaded: Result<Vec<Workspace>, String>) -> Seq<WorkspaceModel> {
    match loaded {
        Ok(list) => text::views(list@),
        Err(_) => Seq::empty(),
    }
}

/// The entries are those of the groups that were there and of the new ones.
pub open spec fn is_saved(
    raws: Seq<RawWorkspace>,
    existing: Seq<WorkspaceModel>,
    new: Seq<WorkspaceModel>,
) -> bool {
    raws.len() == merged(existing, new).len() && forall|i: int|
        0 <= i < raws.len() ==> is_raw_of(#[trigger] raws[i], merged(existing, new)[i])
}

/// What a save writes, given what could be read and whether a file is there:
/// the entries of all groups, the existing one winning on a name conflict. A
/// file that is there and could not be read is left as it is, with the error
/// of reading it.
pub fn entries_to_save(
    loaded: Result<Vec<Workspace>, String>,
    exists: bool,
    new: &Vec<Workspace>,
) -> (r: Result<Vec<RawWorkspace>, String>)
    ensures
        match r {
            Ok(raws) => (loaded is Ok || !exists) && is_saved(
                raws@,
                loaded_groups(loaded),
                text::views(new@),
            ),
            Err(e) => exists && loaded == Err::<Vec<Workspace>, String>(e),
        },
{
    let base = match save_base(loaded, exists) {
        Ok(base) => base,
        Err(e) => {
            return Err(e);
        },
    };
    assert(text::views(base@) =~= loaded_groups(loaded));
    let all = merge_workspaces(&base, new);
    let mut raws: Vec<RawWorkspace> = Vec::new();
    let mut i: usize = 0;
    while i < all.len()
        invariant
            i <= all@.len(),
            raws@.len() == i,
            forall|j: int| 0 <= j < i ==> is_raw_of(#[trigger] raws@[j], text::views(all@)[j]),
        decreases all@.len() - i,
    {
        raws.push(raw_from_workspace(&all[i]));
        assert(text::views(all@)[i as int] == all@[i as int]@);
        i = i + 1;
    }
    Ok(raws)
}

/// What expanding a path gives is not expanded again, for a home directory
/// that would not be expanded itself.
proof fn lemma_expanded_once(raw: Seq<char>, home: Seq<char>)
    requires
        home.len() > 0,
        untilded(home),
    ensures
        untilded(expanded(raw, home)),
{
    reveal_strlit("~");
    reveal_strlit("~/");
    reveal_strlit("/");
    let e = expanded(raw, home);
    if text::has_prefix(e, "~/"@) {
        assert(e.subrange(0, 2)[0] == '~' && e.subrange(0, 2)[1] == '/');
    }
    if text::has_prefix(raw, "~/"@) || raw == "~"@ {
        if home.len() == 1 {
            assert(home[0] == '~' ==> home == "~"@);
        } else if home[0] == '~' && home[1] == '/' {
            assert(home.subrange(0, 2) == "~/"@);
        }
    }
}

proof fn lemma_loaded_is_savable(raw: RawWorkspace, ws: Workspace, home: Seq<char>)
    requires
        is_group(ws, raw, home),
        home.len() > 0,
        untilded(home),
    ensures
        savable(ws@, home),
{
    assert forall|i: int| 0 <= i < ws@.repos.len() implies expanded(
        (#[trigger] ws@.repos[i]).path@,
        home,
    ) == ws@.repos[i].path@ by {
        if raw.repo@.len() > 0 {
            assert(is_nested_repo(ws.repos@[i], raw.repo@[i], home));
            lemma_expanded_once(raw.repo@[i].path@, home);
        } else {
            lemma_expanded_once(raw.path->0@, home);
        }
    }
}

/// What a load gives back of a save: first every group that was there, then
/// the new ones whose names were not taken, each as it was. `old` is what the
/// file held before, which is nothing where there was no file. A group that is
/// added has to be savable; one that was read is, under every home directory
/// that is neither empty nor expanded itself.
pub proof fn law_saved_list_reads_back(
    entries: Seq<RawWorkspace>,
    old: Seq<Workspace>,
    new: Seq<WorkspaceModel>,
    raws: Seq<RawWorkspace>,
    back: Seq<Workspace>,
    home: Seq<char>,
)
    requires
        loads(entries, old, home),
        home.len() > 0 && untilded(home) || forall|i: int|
            0 <= i < old.len() ==> savable((#[trigger] old[i])@, home),
        forall|i: int|
            old.len() <= i < merged(text::views(old), new).len() ==> savable(
                #[trigger] merged(text::views(old), new)[i],
                home,
            ),
        is_saved(raws, text::views(old), new),
    ensures
        forall|i: int| 0 <= i < raws.len() ==> !pathless(#[trigger] raws[i]),
        loads(raws, back, home) ==> back.len() == merged(text::views(old), new).len() && forall|
            i: int,
        |
            0 <= i < back.len() ==> same_group(
                #[trigger] back[i],
                merged(text::views(old), new)[i],
            ),
{
    let existing = text::views(old);
    let all = merged(existing, new);
    law_merge_is_a_union(existing, new);
    assert forall|i: int| 0 <= i < all.len() implies savable(#[trigger] all[i], home) by {
        if i < existing.len() {
            assert(all.take(existing.len() as int)[i] == all[i]);
            assert(all[i] == old[i]@);
            assert(is_group(old[i], entries[i], home));
            if home.len() > 0 && untilded(home) {
                lemma_loaded_is_savable(entries[i], old[i], home);
            }
        }
    }
    assert forall|i: int| 0 <= i < raws.len() implies !pathless(#[trigger] raws[i]) by {
        assert(is_raw_of(raws[i], all[i]));
        assert(savable(all[i], home));
    }
    if loads(raws, back, home) {
        assert forall|i: int| 0 <= i < back.len() implies same_group(#[trigger] back[i], all[i]) by {
            assert(is_raw_of(raws[i], all[i]));
            assert(savable(all[i], home));
            assert(is_group(back[i], raws[i], home));
            law_saved_group_reads_back(all[i], raws[i], back[i], home);
        }
    }
}

/// A new group is added, at the end, just where neither an existing group nor
/// an earlier new one has its name.
pub proof fn law_merge_adds_new_names(
    existing: Seq<WorkspaceModel>,
    new: Seq<WorkspaceModel>,
    k: int,
)
    requires
        0 <= k < new.len(),
    ensures
        merged(existing, new.take(k + 1)) == if has_group(existing, new[k].name) || has_group(
            new.take(k),
            new[k].name,
        ) {
            merged(existing, new.take(k))
        } else {
            merged(existing, new.take(k)).push(new[k])
        },
{
    let before = new.take(k);
    let head = merged(existing, before);
    let name = new[k].name;
    assert(new.take(k + 1).drop_last() =~= before);
    law_merge_is_a_union(existing, before);
    if has_group(existing, name) {
        let i = choose|i: int| 0 <= i < existing.len() && (#[trigger] existing[i]).name == name;
        assert(head.take(existing.len() as int)[i] == head[i]);
        assert(head[i].name == name);
    } else if has_group(before, name) {
        let i = choose|i: int| 0 <= i < before.len() && (#[trigger] before[i]).name == name;
        assert(has_group(head, before[i].name));
    } else if has_group(head, name) {
        let i = choose|i: int| 0 <= i < head.len() && (#[trigger] head[i]).name == name;
        if i < existing.len() {
            assert(head.take(existing.len() as int)[i] == head[i]);
            assert(existing[i].name == name);
        } else {
            assert(before.contains(head[i]));
            let j = choose|j: int| 0 <= j < before.len() && before[j] == head[i];
            assert(before[j].name == name);
        }
    }
}

/// What is at a repository's path.
#[derive(Debug, Clone, Copy, PartialEq, Eq, Structural)]
pub struct PathProbe {
    pub is_dir: bool,
    pub has_git: bool,
}

/// What is known of the path of repository `i`; a path that was not looked at
/// counts as missing.
pub open spec fn probe(probes: Seq<PathProbe>, i: int) -> PathProbe {
    if 0 <= i < probes.len() {
        probes[i]
    } else {
        PathProbe { is_dir: false, has_git: false }
    }
}

/// Repository `i` has the name of an earlier one.
pub open spec fn repeats_name(repos: Seq<Repo>, i: int) -> bool {
    exists|j: int| 0 <= j < i && (#[trigger] repos[j]).name@ == repos[i].name@
}

/// Repository `i` is fine: its name is new, its path is a directory, and a
/// `.git` is in it.
pub open spec fn repo_ok(repos: Seq<Repo>, probes: Seq<PathProbe>, i: int) -> bool {
    !repeats_name(repos, i) && probe(probes, i).is_dir && probe(probes, i).has_git
}

/// Every repository is fine.
pub open spec fn all_repos_ok(repos: Seq<Repo>, probes: Seq<PathProbe>) -> bool {
    forall|i: int| 0 <= i < repos.len() ==> #[trigger] repo_ok(repos, probes, i)
}

/// Repository `i` is the first that is not fine.
pub open spec fn first_bad_repo(repos: Seq<Repo>, probes: Seq<PathProbe>, i: int) -> bool {
    &&& 0 <= i < repos.len()
    &&& !repo_ok(repos, probes, i)
    &&& forall|j: int| 0 <= j < i ==> #[trigger] repo_ok(repos, probes, j)
}

/// Ensure a workspace is a non-empty group of git repositories with unique
/// repo names, each repo path being a directory that contains `.git`. The
/// error names the offending repo. `probes` says what is at each repo's path.
pub fn validate(workspace: &Workspace, probes: &Vec<PathProbe>) -> (r: Result<(), WorkspaceError>)
    ensures
        match r {
            Ok(()) => workspace.repos@.len() > 0 && all_repos_ok(workspace.repos@, probes@),
            Err(WorkspaceError::NoRepositories { workspace: name }) => workspace.repos@.len() == 0
                && name@ == workspace.name@,
            Err(WorkspaceError::DuplicateRepo { workspace: name, repo }) => exists|i: int|
                #[trigger] first_bad_repo(workspace.repos@, probes@, i) && repeats_name(
                    workspace.repos@,
                    i,
                ) && name@ == workspace.name@ && repo@ == workspace.repos@[i].name@,
            Err(WorkspaceError::NotADirectory { repo, path }) => exists|i: int| #[trigger]
                first_bad_repo(workspace.repos@, probes@, i) && !repeats_name(workspace.repos@, i)
                    && !probe(probes@, i).is_dir && repo@ == workspace.repos@[i].name@ && path@
                    == workspace.repos@[i].path@,
            Err(WorkspaceError::NotGit { repo, path }) => exists|i: int| #[trigger]
                first_bad_repo(workspace.repos@, probes@, i) && !repeats_name(workspace.repos@, i)
                    && probe(probes@, i).is_dir && !probe(probes@, i).has_git && repo@
                    == workspace.repos@[i].name@ && path@ == workspace.repos@[i].path@,
            Err(WorkspaceError::NoPath { .. }) => false,
        },
{
    if workspace.repos.len() == 0 {
        return Err(WorkspaceError::NoRepositories { workspace: workspace.name.clone() });
    }
    let ghost repos = workspace.repos@;
    let mut seen: Vec<String> = Vec::new();
    let mut i: usize = 0;
    while i < workspace.repos.len()
        invariant
            i <= workspace.repos@.len(),
            repos == workspace.repos@,
            seen@.len() == i,
            forall|j: int| 0 <= j < i ==> (#[trigger] seen@[j])@ == repos[j].name@,
            forall|j: int| 0 <= j < i ==> #[trigger] repo_ok(repos, probes@, j),
        decreases workspace.repos@.len() - i,
    {
        let repo = &workspace.repos[i];
        let repeated = contains_text(&seen, repo.name.as_str());
        proof {
            let names = text::views(seen@);
            if names.contains(repo.name@) {
                let j = choose|j: int| 0 <= j < names.len() && names[j] == repo.name@;
                assert(seen@[j]@ == repos[j].name@);
            }
            if repeats_name(repos, i as int) {
                let j = choose|j: int| 0 <= j < i && (#[trigger] repos[j]).name@ == repos[i as int].name@;
                assert(seen@[j]@ == repos[j].name@);
                assert(names[j] == repo.name@);
            }
            assert(repeated == repeats_name(repos, i as int));
        }
        let found: PathProbe = if i < probes.len() {
            probes[i]
        } else {
            PathProbe { is_dir: false, has_git: false }
        };
        assert(found == probe(probes@, i as int));
        if repeated {
            assert(first_bad_repo(repos, probes@, i as int));
            return Err(
                WorkspaceError::DuplicateRepo {
                    workspace: workspace.name.clone(),
                    repo: repo.name.clone(),
                },
            );
        }
        if !found.is_dir {
            assert(first_bad_repo(repos, probes@, i as int));
            return Err(
                WorkspaceError::NotADirectory { repo: repo.name.clone(), path: repo.path.clone() },
            );
        }
        if !found.has_git {
            assert(first_bad_repo(repos, probes@, i as int));
            return Err(
                WorkspaceError::NotGit { repo: repo.name.clone(), path: repo.path.clone() },
            );
        }
        seen.push(repo.name.clone());
        assert(repo_ok(repos, probes@, i as int));
        i = i + 1;
    }
    Ok(())
}

/// The components of a path with the root as the first one.
pub open spec fn full_components(path: Seq<char>) -> Seq<Seq<char>> {
    if paths::absolute(path) {
        seq!["/"@] + paths::components(path)
    } else {
        paths::components(path)
    }
}

/// The first `n` components of all repositories agree.
pub open spec fn share_prefix(repos: Seq<Repo>, n: nat) -> bool {
    forall|i: int|
        0 <= i < repos.len() ==> full_components((#[trigger] repos[i]).path@).len() >= n
            && full_components(repos[i].path@).take(n as int) == full_components(
            repos[0].path@,
        ).take(n as int)
}

/// `n` is the length of the longest prefix that all repositories share.
pub open spec fn longest_shared(repos: Seq<Repo>, n: nat) -> bool {
    share_prefix(repos, n) && forall|m: nat| m > n ==> !#[trigger] share_prefix(repos, m)
}

/// The path of a list of components that may start with the root.
pub open spec fn full_rendered(parts: Seq<Seq<char>>) -> Seq<char> {
    if parts.len() > 0 && parts[0] == "/"@ {
        paths::rendered(true, parts.drop_first())
    } else {
        paths::rendered(false, parts)
    }
}

fn all_components(path: &str) -> (r: Vec<String>)
    ensures
        text::views(r@) == full_components(path@),
{
    let mut parts = path_components(path);
    let ghost before = parts@;
    if is_absolute(path) {
        let slash = "/".to_string();
        parts.insert(0, slash);
        assert(text::views(parts@) =~= seq!["/"@] + text::views(before));
    }
    parts
}

/// The directory is the one that planning for these repositories runs in: the
/// parent of a single one, or the longest directory that several share.
pub open spec fn is_common_root(repos: Seq<Repo>, root: Seq<char>) -> bool {
    &&& repos.len() == 0 ==> root.len() == 0
    &&& repos.len() == 1 ==> root == match paths::parent_of(repos[0].path@) {
        Some(p) => p,
        None => repos[0].path@,
    }
    &&& repos.len() > 1 ==> exists|n: nat| #[trigger]
        longest_shared(repos, n) && root == full_rendered(
            full_components(repos[0].path@).take(n as int),
        )
}

/// The longest shared directory prefix of every repo path in the group. For a
/// single repo it is that repo's parent directory, so planning runs one level
/// above the repo.
pub fn common_root(workspace: &Workspace) -> (r: String)
    ensures
        is_common_root(workspace.repos@, r@),
{
    let ghost repos = workspace.repos@;
    if workspace.repos.len() == 0 {
        return String::new();
    }
    if workspace.repos.len() == 1 {
        return match parent(workspace.repos[0].path.as_str()) {
            Some(p) => p,
            None => workspace.repos[0].path.clone(),
        };
    }
    let first = all_components(workspace.repos[0].path.as_str());
    let ghost head = full_components(repos[0].path@);
    let mut n: usize = first.len();
    let mut i: usize = 1;
    proof {
        assert(first@.len() == head.len()) by {
            assert(text::views(first@).len() == head.len());
        }
        assert(share_prefix(repos.take(1), n as nat)) by {
            assert(repos.take(1)[0] == repos[0]);
        }
        assert forall|m: nat| m > n implies !#[trigger] share_prefix(repos.take(1), m) by {
            assert(full_components(repos.take(1)[0].path@).len() < m);
        }
    }
    while i < workspace.repos.len()
        invariant
            1 <= i <= workspace.repos@.len(),
            repos == workspace.repos@,
            text::views(first@) == head,
            head == full_components(repos[0].path@),
            first@.len() == head.len(),
            n <= first@.len(),
            longest_shared(repos.take(i as int), n as nat),
        decreases workspace.repos@.len() - i,
    {
        let other = all_components(workspace.repos[i].path.as_str());
        let ghost parts = full_components(repos[i as int].path@);
        proof {
            assert(other@.len() == parts.len()) by {
                assert(text::views(other@).len() == parts.len());
            }
        }
        let mut k: usize = 0;
        while k < n && k < other.len() && same(first[k].as_str(), other[k].as_str())
            invariant
                k <= n,
                k <= other@.len(),
                n <= first@.len(),
                text::views(first@) == head,
                text::views(other@) == parts,
                first@.len() == head.len(),
                other@.len() == parts.len(),
                forall|j: int| 0 <= j < k ==> head[j] == #[trigger] parts[j],
            decreases n - k,
        {
            assert(head[k as int] == first@[k as int]@);
            assert(parts[k as int] == other@[k as int]@);
            k = k + 1;
        }
        proof {
            if k < n && k < other@.len() {
                assert(head[k as int] == first@[k as int]@);
                assert(parts[k as int] == other@[k as int]@);
            }
            lemma_extend_shared(repos, i as int, n as nat, k as nat);
        }
        n = k;
        i = i + 1;
    }
    assert(repos.take(i as int) =~= repos);
    let mut parts: Vec<String> = Vec::new();
    let mut root = false;
    let mut j: usize = 0;
    proof {
        reveal_strlit("/");
    }
    if n > 0 && same(first[0].as_str(), "/") {
        root = true;
        j = 1;
        assert(head.take(n as int)[0] == first@[0]@);
    }
    let ghost from = j as int;
    if n > 0 {
        assert(head.take(n as int)[0] == first@[0]@);
    }
    assert(head.subrange(from, from) =~= Seq::<Seq<char>>::empty());
    while j < n
        invariant
            from <= j <= n,
            n <= first@.len(),
            text::views(first@) == head,
            first@.len() == head.len(),
            0 <= from <= n,
            text::views(parts@) == head.subrange(from, j as int),
        decreases n - j,
    {
        let ghost before = parts@;
        parts.push(first[j].clone());
        proof {
            text::lemma_views_push(before, parts@.last());
            assert(parts@ =~= before.push(parts@.last()));
            assert(head.subrange(from, j + 1) =~= head.subrange(from, j as int).push(head[j as int]));
        }
        j = j + 1;
    }
    proof {
        let shared = head.take(n as int);
        if root {
            assert(shared.drop_first() =~= head.subrange(1, n as int));
        } else {
            assert(shared =~= head.subrange(0, n as int));
        }
        assert(longest_shared(repos, n as nat));
    }
    render(root, &parts)
}

proof fn lemma_extend_shared(repos: Seq<Repo>, i: int, n: nat, k: nat)
    requires
        1 <= i < repos.len(),
        longest_shared(repos.take(i), n),
        k <= n,
        n <= full_components(repos[0].path@).len(),
        k <= full_components(repos[i].path@).len(),
        forall|j: int|
            0 <= j < k ==> full_components(repos[0].path@)[j] == #[trigger] full_components(
                repos[i].path@,
            )[j],
        k == n || k == full_components(repos[i].path@).len() || full_components(
            repos[0].path@,
        )[k as int] != full_components(repos[i].path@)[k as int],
    ensures
        longest_shared(repos.take(i + 1), k),
{
    let a = repos.take(i);
    let b = repos.take(i + 1);
    let head = full_components(repos[0].path@);
    let parts = full_components(repos[i].path@);
    assert(b[0] == repos[0] && a[0] == repos[0]);
    assert forall|x: int| 0 <= x < b.len() implies full_components((#[trigger] b[x]).path@).len()
        >= k && full_components(b[x].path@).take(k as int) == full_components(b[0].path@).take(
        k as int,
    ) by {
        if x < i {
            assert(b[x] == a[x]);
            let c = full_components(a[x].path@);
            assert(c.take(n as int) == head.take(n as int));
            assert(c.take(k as int) =~= c.take(n as int).take(k as int));
            assert(head.take(k as int) =~= head.take(n as int).take(k as int));
        } else {
            assert(parts.take(k as int) =~= head.take(k as int));
        }
    }
    assert forall|m: nat| m > k implies !#[trigger] share_prefix(b, m) by {
        if share_prefix(b, m) {
            assert(share_prefix(a, m)) by {
                assert forall|x: int| 0 <= x < a.len() implies full_components(
                    (#[trigger] a[x]).path@,
                ).len() >= m && full_components(a[x].path@).take(m as int) == full_components(
                    a[0].path@,
                ).take(m as int) by {
                    assert(b[x] == a[x]);
                }
            }
            assert(m <= n);
            assert(full_components(b[i].path@).take(m as int) == head.take(m as int));
            assert(parts.take(m as int)[k as int] == head.take(m as int)[k as int]);
        }
    }
}

/// What a path is written as from its first components has those components.
proof fn lemma_full_rendered(path: Seq<char>, n: nat)
    requires
        n <= full_components(path).len(),
    ensures
        full_components(full_rendered(full_components(path).take(n as int)))
            == full_components(path).take(n as int),
{
    reveal_strlit("/");
    let all = full_components(path);
    let parts = all.take(n as int);
    paths::lemma_components_proper(path);
    if paths::absolute(path) && n > 0 {
        let rest = parts.drop_first();
        assert(parts[0] == "/"@);
        assert forall|i: int| 0 <= i < rest.len() implies (#[trigger] rest[i]).len() > 0
            && !rest[i].contains('/') && (rest[i] == "."@ ==> i == 0 && !true) by {
            assert(rest[i] == paths::components(path)[i]);
        }
        paths::law_rendered_components(true, rest);
        assert(seq!["/"@] + rest =~= parts);
    } else {
        assert forall|i: int| 0 <= i < parts.len() implies (#[trigger] parts[i]).len() > 0
            && !parts[i].contains('/') && (parts[i] == "."@ ==> i == 0 && !false) by {
            assert(parts[i] == paths::components(path)[i]);
        }
        if n > 0 {
            assert(!parts[0].contains('/'));
            if parts[0] == "/"@ {
                assert("/"@[0] == '/');
                assert(parts[0].contains('/'));
            }
        }
        paths::law_rendered_components(false, parts);
    }
}

/// The components lead every path of the group.
pub open spec fn leads_all(parts: Seq<Seq<char>>, repos: Seq<Repo>) -> bool {
    forall|i: int|
        0 <= i < repos.len() ==> parts.len() <= full_components((#[trigger] repos[i]).path@).len()
            && parts == full_components(repos[i].path@).take(parts.len() as int)
}

/// The components of the directory that several repositories share lead the
/// path of each of them, whole components only, and no longer list does.
pub proof fn law_common_root_is_the_longest_shared(repos: Seq<Repo>, root: Seq<char>)
    requires
        repos.len() >= 2,
        is_common_root(repos, root),
    ensures
        leads_all(full_components(root), repos),
        forall|parts: Seq<Seq<char>>| #[trigger]
            leads_all(parts, repos) ==> parts.len() <= full_components(root).len(),
{
    let n = choose|n: nat| #[trigger]
        longest_shared(repos, n) && root == full_rendered(
            full_components(repos[0].path@).take(n as int),
        );
    let first = full_components(repos[0].path@);
    assert(repos[0].path@ == repos[0].path@ && share_prefix(repos, n));
    assert(first.len() >= n);
    lemma_full_rendered(repos[0].path@, n);
    assert(full_components(root) == first.take(n as int));
    assert forall|parts: Seq<Seq<char>>| #[trigger] leads_all(parts, repos) implies parts.len()
        <= n by {
        let m = parts.len();
        assert(parts == full_components(repos[0].path@).take(m as int));
        assert(share_prefix(repos, m)) by {
            assert forall|i: int| 0 <= i < repos.len() implies full_components(
                (#[trigger] repos[i]).path@,
            ).len() >= m && full_components(repos[i].path@).take(m as int) == first.take(
                m as int,
            ) by {}
        }
    }
}

proof fn lemma_share_prefix_moves(a: Seq<Repo>, b: Seq<Repo>, n: nat)
    requires
        a.len() > 0,
        b.len() > 0,
        forall|i: int| 0 <= i < b.len() ==> a.contains(#[trigger] b[i]),
        share_prefix(a, n),
    ensures
        share_prefix(b, n),
        full_components(b[0].path@).take(n as int) == full_components(a[0].path@).take(n as int),
{
    assert forall|i: int| 0 <= i < b.len() implies full_components((#[trigger] b[i]).path@).len()
        >= n && full_components(b[i].path@).take(n as int) == full_components(a[0].path@).take(
        n as int,
    ) by {
        let j = choose|j: int| 0 <= j < a.len() && a[j] == b[i];
        assert(full_components(a[j].path@).len() >= n);
    }
    assert(full_components(b[0].path@).len() >= n);
}

/// The order in which the repositories of a group stand does not change the
/// directory that they share.
pub proof fn law_common_root_ignores_order(
    a: Seq<Repo>,
    b: Seq<Repo>,
    root_a: Seq<char>,
    root_b: Seq<char>,
)
    requires
        a.to_multiset() == b.to_multiset(),
        is_common_root(a, root_a),
        is_common_root(b, root_b),
    ensures
        root_a == root_b,
{
    a.to_multiset_ensures();
    b.to_multiset_ensures();
    assert(a.len() == b.len());
    assert forall|i: int| 0 <= i < b.len() implies a.contains(#[trigger] b[i]) by {
        assert(b.contains(b[i]));
        assert(a.to_multiset().count(b[i]) > 0);
    }
    assert forall|i: int| 0 <= i < a.len() implies b.contains(#[trigger] a[i]) by {
        assert(a.contains(a[i]));
        assert(b.to_multiset().count(a[i]) > 0);
    }
    if a.len() == 0 {
        assert(root_a =~= root_b);
    } else if a.len() == 1 {
        assert(a.contains(b[0]));
        assert(a[0] == b[0]);
    } else {
        let n = choose|n: nat| #[trigger]
            longest_shared(a, n) && root_a == full_rendered(
                full_components(a[0].path@).take(n as int),
            );
        let m = choose|m: nat| #[trigger]
            longest_shared(b, m) && root_b == full_rendered(
                full_components(b[0].path@).take(m as int),
            );
        lemma_share_prefix_moves(a, b, n);
        lemma_share_prefix_moves(b, a, m);
        assert(n == m);
    }
}

/// Maximum directory depth a scan descends from its root.
pub const DEFAULT_SCAN_DEPTH: usize = 6;

/// Upper bound on how many repositories a single scan returns, so a huge tree
/// cannot hang the wizard.
pub const MAX_SCAN_RESULTS: usize = 500;

/// The final path component as a display name, or the whole path.
pub open spec fn base_name_of(path: Seq<char>) -> Seq<char> {
    match paths::file_name_of(path) {
        Some(name) => name,
        None => path,
    }
}

/// The final path component as a display name, falling back to the whole path.
pub fn base_name(path: &str) -> (r: String)
    ensures
        r@ == base_name_of(path@),
{
    match file_name(path) {
        Some(name) => name,
        None => path.to_string(),
    }
}

/// Another path has the same base name as path `i`.
pub open spec fn shares_name(list: Seq<Seq<char>>, i: int) -> bool {
    exists|j: int|
        0 <= j < list.len() && j != i && base_name_of(#[trigger] list[j]) == base_name_of(list[i])
}

/// The display name of path `i`: its base name, with the name of its parent
/// before it where another path has the same base name.
pub open spec fn display_name(list: Seq<Seq<char>>, i: int) -> Seq<char> {
    let base = base_name_of(list[i]);
    if shares_name(list, i) {
        match paths::parent_of(list[i]) {
            Some(p) => match paths::file_name_of(p) {
                Some(name) => name + "/"@ + base,
                None => base,
            },
            None => base,
        }
    } else {
        base
    }
}

fn name_is_shared(paths: &Vec<String>, i: usize) -> (r: bool)
    requires
        i < paths@.len(),
    ensures
        r == shares_name(text::views(paths@), i as int),
{
    let ghost list = text::views(paths@);
    let base = base_name(paths[i].as_str());
    let mut j: usize = 0;
    while j < paths.len()
        invariant
            i < paths@.len(),
            j <= paths@.len(),
            list == text::views(paths@),
            base@ == base_name_of(list[i as int]),
            forall|k: int|
                0 <= k < j && k != i ==> base_name_of(#[trigger] list[k]) != base_name_of(
                    list[i as int],
                ),
        decreases paths@.len() - j,
    {
        assert(list[j as int] == paths@[j as int]@);
        if j != i {
            let other = base_name(paths[j].as_str());
            if same(other.as_str(), base.as_str()) {
                return true;
            }
        }
        j = j + 1;
    }
    false
}

/// Turn repo paths into repos, disambiguating any names shared by more than
/// one repo with a `parent/name` label.
pub fn repos_from_paths(paths: Vec<String>) -> (r: Vec<Repo>)
    ensures
        r@.len() == paths@.len(),
        forall|i: int|
            0 <= i < r@.len() ==> (#[trigger] r@[i]).name@ == display_name(
                text::views(paths@),
                i,
            ) && r@[i].path@ == paths@[i]@ && r@[i].base is None && r@[i].integration is None,
{
    let mut out: Vec<Repo> = Vec::new();
    let ghost list = text::views(paths@);
    let mut i: usize = 0;
    while i < paths.len()
        invariant
            i <= paths@.len(),
            list == text::views(paths@),
            out@.len() == i,
            forall|j: int|
                0 <= j < i ==> (#[trigger] out@[j]).name@ == display_name(list, j)
                    && out@[j].path@ == paths@[j]@ && out@[j].base is None
                    && out@[j].integration is None,
        decreases paths@.len() - i,
    {
        let path: &str = paths[i].as_str();
        assert(list[i as int] == path@);
        let base = base_name(path);
        let name = if name_is_shared(&paths, i) {
            match parent(path) {
                Some(p) => match file_name(p.as_str()) {
                    Some(dir) => dir.concat("/").concat(base.as_str()),
                    None => base,
                },
                None => base,
            }
        } else {
            base
        };
        out.push(Repo { name, path: path.to_string(), base: None, integration: None });
        i = i + 1;
    }
    out
}

/// Two repositories of one scan that would have the same base name are told
/// apart by their parents' names, as long as those differ.
pub proof fn law_shared_names_are_told_apart(list: Seq<Seq<char>>, i: int, j: int)
    requires
        0 <= i < list.len(),
        0 <= j < list.len(),
        i != j,
        base_name_of(list[i]) == base_name_of(list[j]),
        paths::parent_of(list[i]) is Some,
        paths::parent_of(list[j]) is Some,
        paths::file_name_of(paths::parent_of(list[i])->0) is Some,
        paths::file_name_of(paths::parent_of(list[j])->0) is Some,
        paths::file_name_of(paths::parent_of(list[i])->0) != paths::file_name_of(
            paths::parent_of(list[j])->0,
        ),
    ensures
        display_name(list, i) != display_name(list, j),
{
    assert(shares_name(list, i));
    assert(shares_name(list, j));
    let a = paths::file_name_of(paths::parent_of(list[i])->0)->0;
    let b = paths::file_name_of(paths::parent_of(list[j])->0)->0;
    let base = base_name_of(list[i]);
    let x = a + "/"@ + base;
    let y = b + "/"@ + base;
    if x == y {
        assert(x.len() == y.len());
        assert(a.len() == b.len());
        assert forall|k: int| 0 <= k < a.len() implies a[k] == b[k] by {
            assert(x[k] == a[k]);
            assert(y[k] == b[k]);
        }
        assert(a =~= b);
    }
}

} // verus!
