//! What the browser and the server send each other about workspaces and runs.
use vstd::prelude::*;
use vstd::string::*;

use crate::app;
use crate::app::{clone_cards, EpicView, Language, Phase, Usd};
use crate::text;
use crate::text::{clone_opt, clone_texts};
use crate::workspace;
use crate::workspace::{expand_tilde, Repo, Workspace};

verus! {

/// One repository of a workspace.
#[derive(Debug, PartialEq)]
pub struct RepoDto {
    pub name: String,
    pub path: String,
    pub base: Option<String>,
    pub integration: Option<String>,
}

/// A named group of repositories.
#[derive(Debug, PartialEq)]
pub struct WorkspaceDto {
    pub name: String,
    pub repos: Vec<RepoDto>,
}

impl Clone for RepoDto {
    fn clone(&self) -> (r: RepoDto)
        ensures
            r == *self,
    {
        RepoDto {
            name: self.name.clone(),
            path: self.path.clone(),
            base: clone_opt(&self.base),
            integration: clone_opt(&self.integration),
        }
    }
}

/// The content of a workspace.
#[verifier::ext_equal]
pub ghost struct WorkspaceDtoModel {
    pub name: Seq<char>,
    pub repos: Seq<RepoDto>,
}

impl View for WorkspaceDto {
    type V = WorkspaceDtoModel;

    open spec fn view(&self) -> WorkspaceDtoModel {
        WorkspaceDtoModel { name: self.name@, repos: self.repos@ }
    }
}

impl Clone for WorkspaceDto {
    fn clone(&self) -> (r: WorkspaceDto)
        ensures
            r@ == self@,
            r.name == self.name,
            r.repos@ == self.repos@,
    {
        let mut repos: Vec<RepoDto> = Vec::new();
        let mut i: usize = 0;
        while i < self.repos.len()
            invariant
                i <= self.repos@.len(),
                repos@ == self.repos@.take(i as int),
            decreases self.repos@.len() - i,
        {
            repos.push(self.repos[i].clone());
            i = i + 1;
            assert(repos@ =~= self.repos@.take(i as int));
        }
        assert(self.repos@.take(i as int) =~= self.repos@);
        WorkspaceDto { name: self.name.clone(), repos }
    }
}

/// A request to start a run.
#[derive(Debug, Clone, PartialEq)]
pub struct StartRunRequest {
    pub workspace: WorkspaceDto,
    pub goal: String,
    pub verify: Option<String>,
    pub refine_cost: Usd,
    pub language: Language,
}

/// One run as the dashboard shows it.
#[derive(Debug, PartialEq)]
pub struct RunSummary {
    pub id: String,
    pub workspace: String,
    pub goal: String,
    pub phase: Phase,
    pub total_cost: Usd,
    pub epics: Vec<EpicView>,
    pub repos: Vec<String>,
}

/// The content of a run's summary.
#[verifier::ext_equal]
pub ghost struct SummaryModel {
    pub id: Seq<char>,
    pub workspace: Seq<char>,
    pub goal: Seq<char>,
    pub phase: Phase,
    pub total_cost: Usd,
    pub epics: Seq<app::CardModel>,
    pub repos: Seq<Seq<char>>,
}

impl View for RunSummary {
    type V = SummaryModel;

    open spec fn view(&self) -> SummaryModel {
        SummaryModel {
            id: self.id@,
            workspace: self.workspace@,
            goal: self.goal@,
            phase: self.phase,
            total_cost: self.total_cost,
            epics: text::views(self.epics@),
            repos: text::views(self.repos@),
        }
    }
}

impl Clone for RunSummary {
    fn clone(&self) -> (r: RunSummary)
        ensures
            r@ == self@,
    {
        RunSummary {
            id: self.id.clone(),
            workspace: self.workspace.clone(),
            goal: self.goal.clone(),
            phase: self.phase,
            total_cost: self.total_cost,
            epics: clone_cards(&self.epics),
            repos: clone_texts(&self.repos),
        }
    }
}

/// The paths of the requested repositories, with a leading `~` expanded.
pub fn requested_paths(ws: &WorkspaceDto, home: &str) -> (r: Vec<String>)
    ensures
        r@.len() == ws.repos@.len(),
        forall|i: int|
            0 <= i < r@.len() ==> (#[trigger] r@[i])@ == workspace::expanded(
                ws.repos@[i].path@,
                home@,
            ),
{
    let mut out: Vec<String> = Vec::new();
    let mut i: usize = 0;
    while i < ws.repos.len()
        invariant
            i <= ws.repos@.len(),
            out@.len() == i,
            forall|j: int|
                0 <= j < i ==> (#[trigger] out@[j])@ == workspace::expanded(
                    ws.repos@[j].path@,
                    home@,
                ),
        decreases ws.repos@.len() - i,
    {
        out.push(expand_tilde(ws.repos[i].path.as_str(), home));
        i = i + 1;
    }
    out
}

/// The group is the requested one, with its repositories at these paths.
pub open spec fn is_requested(ws: Workspace, dto: WorkspaceDtoModel, paths: Seq<String>) -> bool {
    &&& ws.name@ == dto.name
    &&& ws.repos@.len() == dto.repos.len()
    &&& forall|i: int|
        0 <= i < dto.repos.len() ==> (#[trigger] ws.repos@[i]) == (Repo {
            name: dto.repos[i].name,
            path: if i < paths.len() {
                paths[i]
            } else {
                dto.repos[i].path
            },
            base: dto.repos[i].base,
            integration: dto.repos[i].integration,
        })
}

/// The requested group, with its repositories at the paths they were found to
/// be at; one without such a path stays where the request puts it.
pub fn requested_workspace(dto: &WorkspaceDto, paths: &Vec<String>) -> (r: Workspace)
    ensures
        is_requested(r, dto@, paths@),
{
    let mut repos: Vec<Repo> = Vec::new();
    let mut i: usize = 0;
    while i < dto.repos.len()
        invariant
            i <= dto.repos@.len(),
            repos@.len() == i,
            forall|j: int|
                0 <= j < i ==> (#[trigger] repos@[j]) == (Repo {
                    name: dto.repos@[j].name,
                    path: if j < paths@.len() {
                        paths@[j]
                    } else {
                        dto.repos@[j].path
                    },
                    base: dto.repos@[j].base,
                    integration: dto.repos@[j].integration,
                }),
        decreases dto.repos@.len() - i,
    {
        let repo = &dto.repos[i];
        let path = if i < paths.len() {
            paths[i].clone()
        } else {
            repo.path.clone()
        };
        repos.push(
            Repo {
                name: repo.name.clone(),
                path,
                base: clone_opt(&repo.base),
                integration: clone_opt(&repo.integration),
            },
        );
        i = i + 1;
    }
    Workspace { name: dto.name.clone(), repos }
}

} // verus!
