//! The workspace picker and its scan wizard: the list of the configured
//! workspaces, and a small wizard that scans a folder for repositories and
//! saves the checked ones as a group.
use vstd::prelude::*;
use vstd::string::*;

use crate::dto;
use crate::dto::{RepoDto, WorkspaceDto};
use crate::text;
use crate::text::{contains_text, decimal, same, split, trim};

verus! {

/// The last piece that is not empty, or none.
pub open spec fn last_piece(pieces: Seq<Seq<char>>) -> Option<Seq<char>>
    decreases pieces.len(),
{
    if pieces.len() == 0 {
        None
    } else if pieces.last().len() > 0 {
        Some(pieces.last())
    } else {
        last_piece(pieces.drop_last())
    }
}

/// The last piece of the path between slashes that is not empty; the path
/// itself where there is none.
pub open spec fn basename_of(root: Seq<char>) -> Seq<char> {
    match last_piece(text::parts_of(root, '/')) {
        Some(p) => p,
        None => root,
    }
}

/// The last path component of `root`, used to prefill the group-name input
/// once a scan of that root comes back.
pub fn root_basename(root: &str) -> (r: String)
    ensures
        r@ == basename_of(root@),
{
    let parts = split(root, '/');
    let ghost all = text::parts_of(root@, '/');
    let mut i: usize = parts.len();
    assert(text::views(parts@).len() == parts@.len());
    assert(all.take(i as int) =~= all);
    while i > 0
        invariant
            i <= parts@.len(),
            all == text::parts_of(root@, '/'),
            text::views(parts@) == all,
            all.len() == parts@.len(),
            last_piece(all) == last_piece(all.take(i as int)),
        decreases i,
    {
        assert(all.take(i as int).last() == parts@[i - 1]@);
        assert(all.take(i as int).drop_last() =~= all.take(i - 1));
        if !parts[i - 1].as_str().is_empty() {
            return parts[i - 1].clone();
        }
        i = i - 1;
    }
    root.to_string()
}

/// The page.
#[derive(Debug, PartialEq)]
pub struct WorkspacesPage {
    workspaces: Vec<WorkspaceDto>,
    load_error: Option<String>,
    root: String,
    found: Vec<RepoDto>,
    checked: Vec<String>,
    group_name: String,
    scanning: bool,
    scan_error: Option<String>,
    saving: bool,
    save_error: Option<String>,
}

/// The content of the page.
#[verifier::ext_equal]
pub ghost struct PageModel {
    pub workspaces: Seq<dto::WorkspaceDtoModel>,
    pub load_error: Option<Seq<char>>,
    pub root: Seq<char>,
    pub found: Seq<RepoDto>,
    pub checked: Set<Seq<char>>,
    pub group_name: Seq<char>,
    pub scanning: bool,
    pub scan_error: Option<Seq<char>>,
    pub saving: bool,
    pub save_error: Option<Seq<char>>,
}

impl View for WorkspacesPage {
    type V = PageModel;

    closed spec fn view(&self) -> PageModel {
        PageModel {
            workspaces: text::views(self.workspaces@),
            load_error: text::opt_view(self.load_error),
            root: self.root@,
            found: self.found@,
            checked: text::views(self.checked@).to_set(),
            group_name: self.group_name@,
            scanning: self.scanning,
            scan_error: text::opt_view(self.scan_error),
            saving: self.saving,
            save_error: text::opt_view(self.save_error),
        }
    }
}

/// The message where no folder was entered.
pub const NO_ROOT: &'static str = "Enter a folder path before scanning.";

/// The message where neither a name nor a repository is there.
pub const NO_NAME_NO_REPO: &'static str =
    "Enter a workspace name and check at least one repo before saving.";

/// The message where no name is there.
pub const NO_NAME: &'static str = "Enter a workspace name before saving.";

/// The message where no repository is checked.
pub const NO_REPO: &'static str = "Check at least one repo before saving.";

/// The paths of the repositories.
pub open spec fn paths_of(repos: Seq<RepoDto>) -> Set<Seq<char>> {
    repos.map_values(|r: RepoDto| r.path@).to_set()
}

impl PageModel {
    /// The found repositories that are checked, in the order they were found.
    pub open spec fn selected(self) -> Seq<RepoDto> {
        self.found.filter(|r: RepoDto| self.checked.contains(r.path@))
    }

    /// The message a save is refused with, or none.
    pub open spec fn refusal(self) -> Option<Seq<char>> {
        let unnamed = text::trimmed(self.group_name).len() == 0;
        let none = self.selected().len() == 0;
        if unnamed && none {
            Some(NO_NAME_NO_REPO@)
        } else if unnamed {
            Some(NO_NAME@)
        } else if none {
            Some(NO_REPO@)
        } else {
            None
        }
    }

    /// The page after a scan of a folder answered.
    pub open spec fn scanned(self, root: Seq<char>, repos: Seq<RepoDto>) -> PageModel {
        PageModel {
            found: repos,
            checked: paths_of(repos),
            group_name: basename_of(root),
            scan_error: None,
            scanning: false,
            ..self
        }
    }

    /// The page once its group is saved.
    pub open spec fn cleared(self) -> PageModel {
        PageModel {
            found: Seq::empty(),
            checked: Set::empty(),
            root: Seq::empty(),
            group_name: Seq::empty(),
            save_error: None,
            saving: false,
            ..self
        }
    }
}

impl WorkspacesPage {
    /// The page before anything is loaded.
    pub fn new() -> (r: WorkspacesPage)
        ensures
            r@ == (PageModel {
                workspaces: Seq::empty(),
                load_error: None,
                root: Seq::empty(),
                found: Seq::empty(),
                checked: Set::empty(),
                group_name: Seq::empty(),
                scanning: false,
                scan_error: None,
                saving: false,
                save_error: None,
            }),
    {
        let r = WorkspacesPage {
            workspaces: Vec::new(),
            load_error: None,
            root: String::new(),
            found: Vec::new(),
            checked: Vec::new(),
            group_name: String::new(),
            scanning: false,
            scan_error: None,
            saving: false,
            save_error: None,
        };
        proof {
            assert(r@.workspaces =~= Seq::<dto::WorkspaceDtoModel>::empty());
            assert(r@.root =~= Seq::<char>::empty());
            assert(r@.group_name =~= Seq::<char>::empty());
            assert(r@.checked =~= Set::<Seq<char>>::empty());
        }
        r
    }

    /// The configured workspaces.
    pub fn workspaces(&self) -> (r: &Vec<WorkspaceDto>)
        ensures
            text::views(r@) == self@.workspaces,
    {
        &self.workspaces
    }

    /// The repositories the last scan found.
    pub fn found(&self) -> (r: &Vec<RepoDto>)
        ensures
            r@ == self@.found,
    {
        &self.found
    }

    /// The folder as typed.
    pub fn root(&self) -> (r: &String)
        ensures
            r@ == self@.root,
    {
        &self.root
    }

    /// The name of the group.
    pub fn group_name(&self) -> (r: &String)
        ensures
            r@ == self@.group_name,
    {
        &self.group_name
    }

    /// Why the workspaces could not be loaded.
    pub fn load_error(&self) -> (r: &Option<String>)
        ensures
            text::opt_view(*r) == self@.load_error,
    {
        &self.load_error
    }

    /// Why the scan failed.
    pub fn scan_error(&self) -> (r: &Option<String>)
        ensures
            text::opt_view(*r) == self@.scan_error,
    {
        &self.scan_error
    }

    /// Why the save failed.
    pub fn save_error(&self) -> (r: &Option<String>)
        ensures
            text::opt_view(*r) == self@.save_error,
    {
        &self.save_error
    }

    /// Whether a scan or a save is in flight.
    pub fn busy(&self) -> (r: (bool, bool))
        ensures
            r == (self@.scanning, self@.saving),
    {
        (self.scanning, self.saving)
    }

    /// Whether the repository at the path is checked.
    pub fn is_checked(&self, path: &str) -> (r: bool)
        ensures
            r == self@.checked.contains(path@),
    {
        contains_text(&self.checked, path)
    }

    /// Sets the folder as it is typed.
    pub fn set_root(&mut self, root: &str)
        ensures
            final(self)@ == (PageModel { root: root@, ..old(self)@ }),
    {
        self.root = root.to_string();
    }

    /// Sets the name of the group as it is typed.
    pub fn set_group_name(&mut self, name: &str)
        ensures
            final(self)@ == (PageModel { group_name: name@, ..old(self)@ }),
    {
        self.group_name = name.to_string();
    }

    /// Takes in the list of workspaces. A failure keeps the one that is shown.
    pub fn loaded(&mut self, list: Result<Vec<WorkspaceDto>, String>)
        ensures
            final(self)@ == match list {
                Ok(all) => PageModel {
                    workspaces: text::views(all@),
                    load_error: None,
                    ..old(self)@
                },
                Err(e) => PageModel { load_error: Some(e@), ..old(self)@ },
            },
    {
        match list {
            Ok(all) => {
                self.workspaces = all;
                self.load_error = None;
            },
            Err(e) => {
                self.load_error = Some(e);
            },
        }
    }

    /// Starts a scan: the folder to scan, or none where no folder was entered.
    pub fn start_scan(&mut self) -> (r: Option<String>)
        ensures
            if text::trimmed(old(self)@.root).len() == 0 {
                r is None && final(self)@ == (PageModel {
                    scan_error: Some(NO_ROOT@),
                    ..old(self)@
                })
            } else {
                text::opt_view(r) == Some(old(self)@.root) && final(self)@ == (PageModel {
                    scanning: true,
                    scan_error: None,
                    ..old(self)@
                })
            },
    {
        if trim(self.root.as_str()).as_str().is_empty() {
            self.scan_error = Some(NO_ROOT.to_string());
            return None;
        }
        self.scanning = true;
        self.scan_error = None;
        Some(self.root.clone())
    }

    /// Takes in what a scan of `root` found. Every repository is checked, and
    /// the group is named after the folder.
    pub fn scan_done(&mut self, root: &str, reply: Result<Vec<RepoDto>, String>)
        ensures
            final(self)@ == match reply {
                Ok(repos) => old(self)@.scanned(root@, repos@),
                Err(e) => PageModel { scan_error: Some(e@), scanning: false, ..old(self)@ },
            },
    {
        match reply {
            Ok(repos) => {
                let mut paths: Vec<String> = Vec::new();
                let mut i: usize = 0;
                let ghost all = repos@.map_values(|r: RepoDto| r.path@);
                while i < repos.len()
                    invariant
                        i <= repos@.len(),
                        all == repos@.map_values(|r: RepoDto| r.path@),
                        text::views(paths@) == all.take(i as int),
                    decreases repos@.len() - i,
                {
                    let ghost sofar = paths@;
                    let path = repos[i].path.clone();
                    paths.push(path);
                    proof {
                        text::lemma_views_push(sofar, path);
                        assert(paths@ =~= sofar.push(path));
                        assert(all.take(i + 1) =~= all.take(i as int).push(all[i as int]));
                    }
                    i = i + 1;
                }
                assert(all.take(i as int) =~= all);
                self.checked = paths;
                self.group_name = root_basename(root);
                self.found = repos;
                self.scan_error = None;
            },
            Err(e) => {
                self.scan_error = Some(e);
            },
        }
        self.scanning = false;
    }

    /// Checks the repository at the path, or unchecks it where it is checked.
    pub fn toggle(&mut self, path: &str)
        ensures
            final(self)@ == (PageModel {
                checked: if old(self)@.checked.contains(path@) {
                    old(self)@.checked.remove(path@)
                } else {
                    old(self)@.checked.insert(path@)
                },
                ..old(self)@
            }),
    {
        let ghost before = *self;
        let ghost all = text::views(self.checked@);
        if contains_text(&self.checked, path) {
            let mut rest: Vec<String> = Vec::new();
            let mut i: usize = 0;
            while i < self.checked.len()
                invariant
                    i <= self.checked@.len(),
                    *self == before,
                    all == text::views(self.checked@),
                    all.len() == self.checked@.len(),
                    forall|s: Seq<char>| #[trigger]
                        text::views(rest@).contains(s) <==> all.take(i as int).contains(s) && s
                            != path@,
                decreases self.checked@.len() - i,
            {
                let ghost sofar = rest@;
                let item = self.checked[i].clone();
                proof {
                    assert(item@ == all[i as int]);
                    assert(all.take(i + 1) =~= all.take(i as int).push(item@));
                    lemma_push_contains(all.take(i as int), item@);
                }
                if !same(item.as_str(), path) {
                    rest.push(item);
                    proof {
                        text::lemma_views_push(sofar, item);
                        assert(rest@ =~= sofar.push(item));
                        lemma_push_contains(text::views(sofar), item@);
                    }
                }
                i = i + 1;
            }
            assert(all.take(i as int) =~= all);
            self.checked = rest;
            assert(self@.checked =~= before@.checked.remove(path@));
        } else {
            let ghost sofar = self.checked@;
            let item = path.to_string();
            self.checked.push(item);
            proof {
                text::lemma_views_push(sofar, item);
                assert(self.checked@ =~= sofar.push(item));
                lemma_push_contains(all, item@);
                assert(self@.checked =~= before@.checked.insert(path@));
            }
        }
    }

    /// Saves the checked repositories as one group under the trimmed name: the
    /// group to send, or none where something is missing.
    pub fn save(&mut self) -> (r: Option<WorkspaceDto>)
        ensures
            match old(self)@.refusal() {
                Some(msg) => r is None && final(self)@ == (PageModel {
                    save_error: Some(msg),
                    ..old(self)@
                }),
                None => text::opt_view(r) == Some(
                    dto::WorkspaceDtoModel {
                        name: text::trimmed(old(self)@.group_name),
                        repos: old(self)@.selected(),
                    },
                ) && final(self)@ == (PageModel { saving: true, save_error: None, ..old(self)@ }),
            },
    {
        let ghost before = *self;
        let ghost keep = |r: RepoDto| before@.checked.contains(r.path@);
        let name = trim(self.group_name.as_str());
        let mut repos: Vec<RepoDto> = Vec::new();
        let mut i: usize = 0;
        proof {
            reveal(Seq::filter);
        }
        assert(repos@ =~= self.found@.take(0).filter(keep));
        while i < self.found.len()
            invariant
                i <= self.found@.len(),
                *self == before,
                keep == (|r: RepoDto| before@.checked.contains(r.path@)),
                repos@ == self.found@.take(i as int).filter(keep),
            decreases self.found@.len() - i,
        {
            proof {
                assert(self.found@.take(i + 1) =~= self.found@.take(i as int).push(
                    self.found@[i as int],
                ));
                self.found@.take(i as int).lemma_filter_push(self.found@[i as int], keep);
            }
            if contains_text(&self.checked, self.found[i].path.as_str()) {
                repos.push(self.found[i].clone());
            }
            i = i + 1;
        }
        assert(self.found@.take(i as int) =~= self.found@);
        assert(repos@ == before@.selected());
        let unnamed = name.as_str().is_empty();
        if unnamed && repos.len() == 0 {
            self.save_error = Some(NO_NAME_NO_REPO.to_string());
            return None;
        }
        if unnamed {
            self.save_error = Some(NO_NAME.to_string());
            return None;
        }
        if repos.len() == 0 {
            self.save_error = Some(NO_REPO.to_string());
            return None;
        }
        self.saving = true;
        self.save_error = None;
        Some(WorkspaceDto { name, repos })
    }

    /// Takes in whether the save went through: on success the wizard is
    /// cleared, and the workspaces are to be loaded again.
    pub fn saved(&mut self, reply: Result<(), String>) -> (r: bool)
        ensures
            match reply {
                Ok(_) => r && final(self)@ == old(self)@.cleared(),
                Err(e) => !r && final(self)@ == (PageModel {
                    save_error: Some(e@),
                    saving: false,
                    ..old(self)@
                }),
            },
    {
        self.saving = false;
        match reply {
            Ok(_) => {
                self.found = Vec::new();
                self.checked = Vec::new();
                self.root = String::new();
                self.group_name = String::new();
                self.save_error = None;
                proof {
                    assert(self@.root =~= Seq::<char>::empty());
                    assert(self@.group_name =~= Seq::<char>::empty());
                    assert(self@.checked =~= Set::<Seq<char>>::empty());
                }
                true
            },
            Err(e) => {
                self.save_error = Some(e);
                false
            },
        }
    }

    /// How many repositories the scan found, where it found any.
    pub fn found_label(&self) -> (r: Option<String>)
        ensures
            text::opt_view(r) == if self@.found.len() == 0 {
                None
            } else {
                Some(text::decimal_of(self@.found.len()) + " repositories found"@)
            },
    {
        if self.found.len() == 0 {
            None
        } else {
            Some(decimal(self.found.len() as u64).concat(" repositories found"))
        }
    }
}

proof fn lemma_push_contains(s: Seq<Seq<char>>, x: Seq<char>)
    ensures
        forall|y: Seq<char>| #[trigger] s.push(x).contains(y) <==> s.contains(y) || y == x,
{
    assert forall|y: Seq<char>| #[trigger] s.push(x).contains(y) <==> s.contains(y) || y == x by {
        if s.contains(y) {
            let i = choose|i: int| 0 <= i < s.len() && s[i] == y;
            assert(s.push(x)[i] == y);
        }
        if y == x {
            assert(s.push(x)[s.len() as int] == y);
        }
        if s.push(x).contains(y) && y != x {
            let i = choose|i: int| 0 <= i < s.push(x).len() && s.push(x)[i] == y;
            assert(s[i] == y);
        }
    }
}

/// The repositories of a workspace in a word.
pub open spec fn summary_of(ws: dto::WorkspaceDtoModel) -> Seq<char> {
    if ws.repos.len() == 0 {
        "no repos"@
    } else if ws.repos.len() == 1 {
        ws.repos[0].path@ + " · 1 repo"@
    } else {
        text::decimal_of(ws.repos.len()) + " repos"@
    }
}

/// The line under a workspace's name.
pub fn workspace_summary(ws: &WorkspaceDto) -> (r: String)
    ensures
        r@ == summary_of(ws@),
{
    if ws.repos.len() == 0 {
        "no repos".to_string()
    } else if ws.repos.len() == 1 {
        ws.repos[0].path.clone().concat(" · 1 repo")
    } else {
        decimal(ws.repos.len() as u64).concat(" repos")
    }
}

/// The page that starts a run of the named workspace.
pub fn new_run_link(name: &str) -> (r: String)
    ensures
        r@ == "/run/new?workspace="@ + name@,
{
    "/run/new?workspace=".to_string().concat(name)
}

/// Right after a scan, everything that it found is selected, and the group is
/// named after the folder.
pub proof fn law_scan_preselects_everything(
    page: PageModel,
    root: Seq<char>,
    repos: Seq<RepoDto>,
)
    ensures
        page.scanned(root, repos).selected() == repos,
        page.scanned(root, repos).group_name == basename_of(root),
{
    let m = page.scanned(root, repos);
    let keep = |r: RepoDto| m.checked.contains(r.path@);
    let mapped = repos.map_values(|r: RepoDto| r.path@);
    assert forall|i: int| 0 <= i < repos.len() implies keep(#[trigger] repos[i]) by {
        assert(mapped[i] == repos[i].path@);
        assert(mapped.contains(repos[i].path@));
    }
    lemma_filter_all(repos, keep);
}

proof fn lemma_filter_all(s: Seq<RepoDto>, keep: spec_fn(RepoDto) -> bool)
    requires
        forall|i: int| 0 <= i < s.len() ==> keep(#[trigger] s[i]),
    ensures
        s.filter(keep) == s,
    decreases s.len(),
{
    reveal(Seq::filter);
    if s.len() > 0 {
        assert forall|i: int| 0 <= i < s.drop_last().len() implies keep(
            #[trigger] s.drop_last()[i],
        ) by {
            assert(s.drop_last()[i] == s[i]);
        }
        lemma_filter_all(s.drop_last(), keep);
        assert(s.drop_last().push(s.last()) =~= s);
    }
}

/// Toggling a path twice leaves the page as it was.
pub proof fn law_toggle_twice(checked: Set<Seq<char>>, path: Seq<char>)
    ensures
        ({
            let once = if checked.contains(path) {
                checked.remove(path)
            } else {
                checked.insert(path)
            };
            let twice = if once.contains(path) {
                once.remove(path)
            } else {
                once.insert(path)
            };
            twice == checked
        }),
{
    if checked.contains(path) {
        assert(checked.remove(path).insert(path) =~= checked);
    } else {
        assert(checked.insert(path).remove(path) =~= checked);
    }
}

} // verus!
