//! Per-epic git worktree lifecycle: which git commands create an isolated
//! worktree and branch for an epic, remove it, and merge a passing epic branch
//! into the integration branch. Merge conflicts are reported, never
//! auto-resolved.
use vstd::prelude::*;
use vstd::string::*;

use crate::paths;
use crate::paths::join_path;
use crate::text;

verus! {

/// An epic's worktree and branch.
#[derive(Debug, PartialEq)]
pub struct EpicWorktree {
    pub id: String,
    pub path: String,
    pub branch: String,
}

impl Clone for EpicWorktree {
    fn clone(&self) -> (r: EpicWorktree)
        ensures
            r == *self,
    {
        EpicWorktree {
            id: self.id.clone(),
            path: self.path.clone(),
            branch: self.branch.clone(),
        }
    }
}

/// How a merge ended.
#[derive(Debug, Clone, Copy, PartialEq, Eq, Structural)]
pub enum MergeResult {
    Merged,
    Conflict,
}

/// One git command, the directory it runs in, and whether its failure is an
/// error.
#[derive(Debug, PartialEq)]
pub struct GitCommand {
    pub dir: String,
    pub args: Vec<String>,
    pub must_succeed: bool,
}

/// The command has these arguments, in this directory.
pub open spec fn is_git(
    c: GitCommand,
    dir: Seq<char>,
    args: Seq<Seq<char>>,
    must_succeed: bool,
) -> bool {
    c.dir@ == dir && text::views(c.args@) == args && c.must_succeed == must_succeed
}

/// Directory where epic worktrees live, in the repository.
pub open spec fn worktrees_dir(repo: Seq<char>) -> Seq<char> {
    paths::joined_path(repo, ".agentic-worktrees"@)
}

/// Directory where epic worktrees live, in the repository.
pub fn worktrees_root(repo: &str) -> (r: String)
    ensures
        r@ == worktrees_dir(repo@),
{
    join_path(repo, ".agentic-worktrees")
}

/// The dedicated worktree that merges happen in.
pub open spec fn integration_dir(repo: Seq<char>) -> Seq<char> {
    paths::joined_path(worktrees_dir(repo), ".integration"@)
}

/// The dedicated worktree that merges happen in.
pub fn integration_worktree(repo: &str) -> (r: String)
    ensures
        r@ == integration_dir(repo@),
{
    let root = worktrees_root(repo);
    join_path(root.as_str(), ".integration")
}

/// The branch of an epic.
pub open spec fn epic_branch(id: Seq<char>) -> Seq<char> {
    "agentic/"@ + id
}

/// The worktree and branch of an epic.
pub fn worktree_for(repo: &str, epic_id: &str) -> (r: EpicWorktree)
    ensures
        r.id@ == epic_id@,
        r.path@ == paths::joined_path(worktrees_dir(repo@), epic_id@),
        r.branch@ == epic_branch(epic_id@),
{
    let root = worktrees_root(repo);
    EpicWorktree {
        id: epic_id.to_string(),
        path: join_path(root.as_str(), epic_id),
        branch: "agentic/".to_string().concat(epic_id),
    }
}

fn git(dir: &str, words: &[&str], must_succeed: bool) -> (r: GitCommand)
    ensures
        is_git(r, dir@, Seq::new(words@.len(), |i: int| words@[i]@), must_succeed),
{
    let mut args: Vec<String> = Vec::new();
    let mut i: usize = 0;
    while i < words.len()
        invariant
            i <= words@.len(),
            text::views(args@) == Seq::new(i as nat, |j: int| words@[j]@),
        decreases words@.len() - i,
    {
        let ghost before = args@;
        args.push(words[i].to_string());
        i = i + 1;
        proof {
            text::lemma_views_push(before, args@.last());
            assert(args@ =~= before.push(args@.last()));
            assert(text::views(args@) =~= Seq::new(i as nat, |j: int| words@[j]@));
        }
    }
    GitCommand { dir: dir.to_string(), args, must_succeed }
}

/// The commands that remove an epic's worktree and delete its branch. Either
/// may fail: there may be nothing to remove.
pub fn remove_commands(repo: &str, worktree: &EpicWorktree) -> (r: Vec<GitCommand>)
    ensures
        r@.len() == 2,
        is_git(r@[0], repo@, seq!["worktree"@, "remove"@, "--force"@, worktree.path@], false),
        is_git(r@[1], repo@, seq!["branch"@, "-D"@, worktree.branch@], false),
{
    let mut out: Vec<GitCommand> = Vec::new();
    let a = git(repo, &["worktree", "remove", "--force", worktree.path.as_str()], false);
    assert(text::views(a.args@) =~= seq!["worktree"@, "remove"@, "--force"@, worktree.path@]);
    let b = git(repo, &["branch", "-D", worktree.branch.as_str()], false);
    assert(text::views(b.args@) =~= seq!["branch"@, "-D"@, worktree.branch@]);
    out.push(a);
    out.push(b);
    out
}

/// The commands that create an epic's worktree and branch off a base ref:
/// whatever is left of an earlier attempt goes first.
pub fn create_commands(repo: &str, worktree: &EpicWorktree, base: &str) -> (r: Vec<GitCommand>)
    ensures
        r@.len() == 3,
        is_git(r@[0], repo@, seq!["worktree"@, "remove"@, "--force"@, worktree.path@], false),
        is_git(r@[1], repo@, seq!["branch"@, "-D"@, worktree.branch@], false),
        is_git(
            r@[2],
            repo@,
            seq!["worktree"@, "add"@, "-b"@, worktree.branch@, worktree.path@, base@],
            true,
        ),
{
    let mut out = remove_commands(repo, worktree);
    let c = git(
        repo,
        &["worktree", "add", "-b", worktree.branch.as_str(), worktree.path.as_str(), base],
        true,
    );
    assert(text::views(c.args@) =~= seq![
        "worktree"@,
        "add"@,
        "-b"@,
        worktree.branch@,
        worktree.path@,
        base@,
    ]);
    out.push(c);
    out
}

/// Where the integration branch is checked out for a merge.
#[derive(Debug, Clone, Copy, PartialEq, Eq, Structural)]
pub enum MergePlace {
    /// In the repository's main working tree.
    MainTree,
    /// In the dedicated worktree, which an earlier merge has left there or not.
    Dedicated { ready: bool },
}

/// Where a merge stands.
#[derive(Debug, Clone, Copy, PartialEq, Eq, Structural)]
pub enum MergeStage {
    /// Looking up the integration branch.
    Probing,
    /// Creating the integration branch.
    Creating,
    /// Checking the integration branch out.
    CheckingOut,
    /// Merging the epic's branch.
    Merging,
    /// Undoing a merge that did not apply.
    Aborting,
    Over,
}

/// A merge of an epic's branch into the integration branch.
#[derive(Debug, PartialEq)]
pub struct MergeRun {
    repo: String,
    place: MergePlace,
    branch: String,
    integration: String,
    base: String,
    stage: MergeStage,
}

/// What the merge does next.
#[derive(Debug, PartialEq)]
pub enum MergeStep {
    Run(GitCommand),
    /// The merge is over: merged, in conflict, or failed with this message.
    End(Result<MergeResult, String>),
}

/// What a merge is about.
#[verifier::ext_equal]
pub ghost struct MergeModel {
    pub repo: Seq<char>,
    pub place: MergePlace,
    /// The epic's branch.
    pub branch: Seq<char>,
    /// The integration branch.
    pub integration: Seq<char>,
    /// What the integration branch is created from.
    pub base: Seq<char>,
    pub stage: MergeStage,
}

impl View for MergeRun {
    type V = MergeModel;

    closed spec fn view(&self) -> MergeModel {
        MergeModel {
            repo: self.repo@,
            place: self.place,
            branch: self.branch@,
            integration: self.integration@,
            base: self.base@,
            stage: self.stage,
        }
    }
}

impl MergeModel {
    /// The directory that merges are made in.
    pub open spec fn merge_dir(self) -> Seq<char> {
        match self.place {
            MergePlace::MainTree => self.repo,
            MergePlace::Dedicated { .. } => integration_dir(self.repo),
        }
    }

    /// The command that belongs to a stage.
    pub open spec fn is_command(self, c: GitCommand, stage: MergeStage) -> bool {
        match stage {
            MergeStage::Probing => is_git(
                c,
                self.repo,
                seq!["rev-parse"@, "--verify"@, self.integration],
                false,
            ),
            MergeStage::Creating => is_git(
                c,
                self.repo,
                seq!["branch"@, self.integration, self.base],
                true,
            ),
            MergeStage::CheckingOut => if self.place == (MergePlace::Dedicated { ready: false }) {
                is_git(
                    c,
                    self.repo,
                    seq!["worktree"@, "add"@, integration_dir(self.repo), self.integration],
                    true,
                )
            } else {
                is_git(c, self.merge_dir(), seq!["checkout"@, self.integration], true)
            },
            MergeStage::Merging => is_git(
                c,
                self.merge_dir(),
                seq!["merge"@, "--no-edit"@, self.branch],
                false,
            ),
            MergeStage::Aborting => is_git(
                c,
                self.merge_dir(),
                seq!["merge"@, "--abort"@],
                false,
            ),
            MergeStage::Over => false,
        }
    }

    /// The merge in another stage.
    pub open spec fn at(self, stage: MergeStage) -> MergeModel {
        MergeModel { stage, ..self }
    }
}

impl MergeRun {
    fn command(&self, stage: MergeStage) -> (r: GitCommand)
        requires
            stage != MergeStage::Over,
        ensures
            self@.is_command(r, stage),
    {
        let repo = self.repo.as_str();
        let target = self.integration.as_str();
        let dir = match self.place {
            MergePlace::MainTree => self.repo.clone(),
            MergePlace::Dedicated { .. } => integration_worktree(repo),
        };
        match stage {
            MergeStage::Probing => {
                let c = git(repo, &["rev-parse", "--verify", target], false);
                assert(text::views(c.args@) =~= seq!["rev-parse"@, "--verify"@, target@]);
                c
            },
            MergeStage::Creating => {
                let c = git(repo, &["branch", target, self.base.as_str()], true);
                assert(text::views(c.args@) =~= seq!["branch"@, target@, self.base@]);
                c
            },
            MergeStage::CheckingOut => {
                if self.place == (MergePlace::Dedicated { ready: false }) {
                    let c = git(repo, &["worktree", "add", dir.as_str(), target], true);
                    assert(text::views(c.args@) =~= seq!["worktree"@, "add"@, dir@, target@]);
                    c
                } else {
                    let c = git(dir.as_str(), &["checkout", target], true);
                    assert(text::views(c.args@) =~= seq!["checkout"@, target@]);
                    c
                }
            },
            MergeStage::Merging => {
                let c = git(dir.as_str(), &["merge", "--no-edit", self.branch.as_str()], false);
                assert(text::views(c.args@) =~= seq!["merge"@, "--no-edit"@, self.branch@]);
                c
            },
            _ => {
                let c = git(dir.as_str(), &["merge", "--abort"], false);
                assert(text::views(c.args@) =~= seq!["merge"@, "--abort"@]);
                c
            },
        }
    }

    /// Start a merge: the first command looks the integration branch up.
    pub fn new(
        repo: &str,
        place: MergePlace,
        branch: &str,
        integration: &str,
        base: &str,
    ) -> (r: (MergeRun, GitCommand))
        ensures
            r.0@ == (MergeModel {
                repo: repo@,
                place,
                branch: branch@,
                integration: integration@,
                base: base@,
                stage: MergeStage::Probing,
            }),
            r.0@.is_command(r.1, MergeStage::Probing),
    {
        let run = MergeRun {
            repo: repo.to_string(),
            place,
            branch: branch.to_string(),
            integration: integration.to_string(),
            base: base.to_string(),
            stage: MergeStage::Probing,
        };
        let c = run.command(MergeStage::Probing);
        (run, c)
    }

    /// Whether the merge is over.
    pub fn is_over(&self) -> (r: bool)
        ensures
            r == (self@.stage == MergeStage::Over),
    {
        self.stage == MergeStage::Over
    }

    /// Takes in how the last command ended: whether it succeeded, or a message
    /// where it could not be run or had to succeed and did not.
    pub fn report(&mut self, result: Result<bool, String>) -> (r: MergeStep)
        requires
            old(self)@.stage != MergeStage::Over,
        ensures
            final(self)@ == old(self)@.at(stage_after(old(self)@.stage, result)),
            match r {
                MergeStep::Run(c) => final(self)@.stage != MergeStage::Over
                    && old(self)@.is_command(c, final(self)@.stage),
                MergeStep::End(end) => final(self)@.stage == MergeStage::Over && match (
                    old(self)@.stage,
                    result,
                ) {
                    (MergeStage::Aborting, _) => end == Ok::<MergeResult, String>(
                        MergeResult::Conflict,
                    ),
                    (_, Err(e)) => end matches Err(msg) && msg@ == e@,
                    (_, Ok(_)) => end == Ok::<MergeResult, String>(MergeResult::Merged),
                },
            },
    {
        let stage = self.stage;
        if stage == MergeStage::Aborting {
            self.stage = MergeStage::Over;
            return MergeStep::End(Ok(MergeResult::Conflict));
        }
        let success = match result {
            Err(e) => {
                self.stage = MergeStage::Over;
                return MergeStep::End(Err(e));
            },
            Ok(success) => success,
        };
        let next: MergeStage = match stage {
            MergeStage::Probing => if success {
                MergeStage::CheckingOut
            } else {
                MergeStage::Creating
            },
            MergeStage::Creating => MergeStage::CheckingOut,
            MergeStage::CheckingOut => MergeStage::Merging,
            _ => if success {
                MergeStage::Over
            } else {
                MergeStage::Aborting
            },
        };
        if next == MergeStage::Over {
            self.stage = MergeStage::Over;
            return MergeStep::End(Ok(MergeResult::Merged));
        }
        let c = self.command(next);
        self.stage = next;
        MergeStep::Run(c)
    }
}

/// The stage that follows, given how the command of a stage ended.
pub open spec fn stage_after(stage: MergeStage, result: Result<bool, String>) -> MergeStage {
    match (stage, result) {
        (MergeStage::Aborting, _) => MergeStage::Over,
        (_, Err(_)) => MergeStage::Over,
        (MergeStage::Probing, Ok(exists_already)) => if exists_already {
            MergeStage::CheckingOut
        } else {
            MergeStage::Creating
        },
        (MergeStage::Creating, Ok(_)) => MergeStage::CheckingOut,
        (MergeStage::CheckingOut, Ok(_)) => MergeStage::Merging,
        (MergeStage::Merging, Ok(applied)) => if applied {
            MergeStage::Over
        } else {
            MergeStage::Aborting
        },
        (MergeStage::Over, _) => MergeStage::Over,
    }
}

/// How far a merge has come.
pub open spec fn merge_rank(stage: MergeStage) -> nat {
    match stage {
        MergeStage::Probing => 5,
        MergeStage::Creating => 4,
        MergeStage::CheckingOut => 3,
        MergeStage::Merging => 2,
        MergeStage::Aborting => 1,
        MergeStage::Over => 0,
    }
}

/// A merge takes at most five commands, and a merge that did not apply is
/// always undone before it is reported.
pub proof fn law_merge_ends(stage: MergeStage, result: Result<bool, String>)
    requires
        stage != MergeStage::Over,
    ensures
        merge_rank(stage_after(stage, result)) < merge_rank(stage),
        stage == MergeStage::Merging && result == Ok::<bool, String>(false) ==> stage_after(
            stage,
            result,
        ) == MergeStage::Aborting,
{
}

/// A merge in the dedicated worktree never disturbs the repository's main
/// working tree: what runs there only looks the integration branch up, creates
/// it, or adds the dedicated worktree.
pub proof fn law_dedicated_merges_spare_the_main_tree(
    m: MergeModel,
    c: GitCommand,
    stage: MergeStage,
)
    requires
        m.place is Dedicated,
        m.is_command(c, stage),
        c.dir@ == m.repo,
    ensures
        stage is Probing || stage is Creating || text::views(c.args@) == seq![
            "worktree"@,
            "add"@,
            integration_dir(m.repo),
            m.integration,
        ],
{
    reveal_strlit(".agentic-worktrees");
    reveal_strlit(".integration");
    reveal_strlit("/");
    assert(worktrees_dir(m.repo).len() > m.repo.len());
    assert(integration_dir(m.repo).len() > m.repo.len());
}

} // verus!
