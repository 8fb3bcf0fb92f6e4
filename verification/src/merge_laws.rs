//! What a merge of an epic's branch does, command by command, in terms of what
//! it was started with.
use vstd::prelude::*;

use crate::paths;
use crate::worktree::{
    create_commands, remove_commands, worktree_for, EpicWorktree, GitCommand, MergePlace,
    MergeResult, MergeRun, MergeStage, MergeStep,
};

verus! {

/// The command has these words, in this directory.
pub open spec fn runs(c: GitCommand, dir: Seq<char>, words: Seq<Seq<char>>) -> bool {
    &&& c.dir@ == dir
    &&& c.args@.len() == words.len()
    &&& forall|i: int| 0 <= i < words.len() ==> (#[trigger] c.args@[i])@ == words[i]
}

/// The directory that a merge is made in: the repository, or its dedicated
/// worktree.
pub open spec fn made_in(repo: Seq<char>, place: MergePlace) -> Seq<char> {
    if place is MainTree {
        repo
    } else {
        paths::joined_path(paths::joined_path(repo, ".agentic-worktrees"@), ".integration"@)
    }
}

/// The worktree of an epic is below the repository, under the epic's id, and
/// its branch is named after the id. Two epics never share a branch.
pub proof fn law_worktrees_are_named_after_their_epics(
    repo: &str,
    id: &str,
    other: &str,
    r: EpicWorktree,
    o: EpicWorktree,
)
    requires
        call_ensures(worktree_for, (repo, id), r),
        call_ensures(worktree_for, (repo, other), o),
    ensures
        r.id@ == id@,
        r.path@ == paths::joined_path(paths::joined_path(repo@, ".agentic-worktrees"@), id@),
        r.branch@ == "agentic/"@ + id@,
        r.branch@ == o.branch@ ==> id@ == other@,
{
    assert(r.branch@.skip("agentic/"@.len() as int) =~= id@);
    assert(o.branch@.skip("agentic/"@.len() as int) =~= other@);
}

/// Creating an epic's worktree first removes what an earlier attempt left, which
/// may be nothing, and then adds the worktree with its branch off the base that
/// was asked for; that must succeed.
pub proof fn law_worktrees_start_from_their_base(
    repo: &str,
    w: &EpicWorktree,
    base: &str,
    r: Vec<GitCommand>,
    removal: Vec<GitCommand>,
)
    requires
        call_ensures(create_commands, (repo, w, base), r),
        call_ensures(remove_commands, (repo, w), removal),
    ensures
        removal@.len() == 2,
        runs(removal@[0], repo@, seq!["worktree"@, "remove"@, "--force"@, w.path@]),
        runs(removal@[1], repo@, seq!["branch"@, "-D"@, w.branch@]),
        r@.len() == 3,
        runs(r@[0], repo@, seq!["worktree"@, "remove"@, "--force"@, w.path@]),
        runs(r@[1], repo@, seq!["branch"@, "-D"@, w.branch@]),
        runs(r@[2], repo@, seq!["worktree"@, "add"@, "-b"@, w.branch@, w.path@, base@]),
        !removal@[0].must_succeed && !removal@[1].must_succeed,
        !r@[0].must_succeed && !r@[1].must_succeed && r@[2].must_succeed,
{
    lemma_runs(removal@[0]);
    lemma_runs(removal@[1]);
    lemma_runs(r@[0]);
    lemma_runs(r@[1]);
    lemma_runs(r@[2]);
}

/// The words of a command are the views of its arguments.
proof fn lemma_runs(c: GitCommand)
    ensures
        forall|dir: Seq<char>, words: Seq<Seq<char>>, must_succeed: bool|
            #[trigger] crate::worktree::is_git(c, dir, words, must_succeed) ==> runs(c, dir, words),
{
    assert forall|dir: Seq<char>, words: Seq<Seq<char>>, must_succeed: bool|
        #[trigger] crate::worktree::is_git(c, dir, words, must_succeed) implies runs(c, dir, words) by {
        assert forall|i: int| 0 <= i < words.len() implies (#[trigger] c.args@[i])@ == words[i] by {
            assert(crate::text::views(c.args@)[i] == c.args@[i]@);
        }
    }
}

/// A merge starts by looking the integration branch up, in the repository. That
/// may fail.
pub proof fn law_merges_look_the_branch_up(
    repo: &str,
    place: MergePlace,
    branch: &str,
    integration: &str,
    base: &str,
    r: (MergeRun, GitCommand),
)
    requires
        call_ensures(MergeRun::new, (repo, place, branch, integration, base), r),
    ensures
        runs(r.1, repo@, seq!["rev-parse"@, "--verify"@, integration@]),
        !r.1.must_succeed,
        r.0@.stage == MergeStage::Probing,
        r.0@.repo == repo@ && r.0@.place == place,
        r.0@.branch == branch@ && r.0@.integration == integration@ && r.0@.base == base@,
{
    lemma_runs(r.1);
}

/// An integration branch that does not exist is created, in the repository,
/// from the base that the merge was started with.
pub proof fn law_a_missing_integration_branch_is_created_from_the_base(
    repo: &str,
    place: MergePlace,
    branch: &str,
    integration: &str,
    base: &str,
    start: (MergeRun, GitCommand),
    run: &mut MergeRun,
    step: MergeStep,
)
    requires
        call_ensures(MergeRun::new, (repo, place, branch, integration, base), start),
        *old(run) == start.0,
        call_ensures(MergeRun::report, (run, Ok(false)), step),
    ensures
        step matches MergeStep::Run(c) && runs(c, repo@, seq!["branch"@, integration@, base@])
            && c.must_succeed,
{
    match step {
        MergeStep::Run(c) => {
            lemma_runs(c);
        },
        _ => {},
    }
}

/// Two merges that differ in their base alone create a missing integration
/// branch by different commands.
pub proof fn law_merges_with_different_bases_create_different_branches(
    repo: &str,
    place: MergePlace,
    branch: &str,
    integration: &str,
    base_a: &str,
    base_b: &str,
    start_a: (MergeRun, GitCommand),
    start_b: (MergeRun, GitCommand),
    run_a: &mut MergeRun,
    run_b: &mut MergeRun,
    a: GitCommand,
    b: GitCommand,
)
    requires
        base_a@ != base_b@,
        call_ensures(MergeRun::new, (repo, place, branch, integration, base_a), start_a),
        call_ensures(MergeRun::new, (repo, place, branch, integration, base_b), start_b),
        *old(run_a) == start_a.0,
        *old(run_b) == start_b.0,
        call_ensures(MergeRun::report, (run_a, Ok(false)), MergeStep::Run(a)),
        call_ensures(MergeRun::report, (run_b, Ok(false)), MergeStep::Run(b)),
    ensures
        a.args@.len() == 3 && b.args@.len() == 3,
        a.args@[0]@ == b.args@[0]@,
        a.args@[1]@ == b.args@[1]@,
        a.args@[2]@ == base_a@ && b.args@[2]@ == base_b@,
{
    lemma_runs(a);
    lemma_runs(b);
    assert(runs(a, repo@, seq!["branch"@, integration@, base_a@]));
    assert(runs(b, repo@, seq!["branch"@, integration@, base_b@]));
}

/// Once the integration branch is there, found or just created, it is checked
/// out where the merge is made: in the main working tree, or in the dedicated
/// worktree, which is added where it is not ready.
pub proof fn law_the_integration_branch_is_checked_out(
    run: &mut MergeRun,
    created: bool,
    found: bool,
    step: MergeStep,
)
    requires
        old(run)@.stage == if created {
            MergeStage::Creating
        } else {
            MergeStage::Probing
        },
        created || found,
        call_ensures(MergeRun::report, (run, Ok(found)), step),
    ensures
        step matches MergeStep::Run(c) && c.must_succeed && match old(run)@.place {
            MergePlace::MainTree => runs(
                c,
                old(run)@.repo,
                seq!["checkout"@, old(run)@.integration],
            ),
            MergePlace::Dedicated { ready: true } => runs(
                c,
                made_in(old(run)@.repo, old(run)@.place),
                seq!["checkout"@, old(run)@.integration],
            ),
            MergePlace::Dedicated { ready: false } => runs(
                c,
                old(run)@.repo,
                seq![
                    "worktree"@,
                    "add"@,
                    made_in(old(run)@.repo, old(run)@.place),
                    old(run)@.integration,
                ],
            ),
        },
        final(run)@.stage == MergeStage::CheckingOut,
{
    match step {
        MergeStep::Run(c) => {
            lemma_runs(c);
        },
        _ => {},
    }
}

/// Then the epic's branch is merged there. A merge that applies ends the run as
/// merged; one that does not is undone in the same place, and is then reported
/// as a conflict, however the undoing goes.
pub proof fn law_the_epic_branch_is_merged_or_undone(
    checked_out: &mut MergeRun,
    any: bool,
    merging: MergeStep,
    applied: &mut MergeRun,
    merged: MergeStep,
    refused: &mut MergeRun,
    undoing: MergeStep,
    undone: &mut MergeRun,
    how: Result<bool, String>,
    conflict: MergeStep,
)
    requires
        old(checked_out)@.stage == MergeStage::CheckingOut,
        call_ensures(MergeRun::report, (checked_out, Ok(any)), merging),
        *old(applied) == *final(checked_out),
        *old(refused) == *final(checked_out),
        call_ensures(MergeRun::report, (applied, Ok(true)), merged),
        call_ensures(MergeRun::report, (refused, Ok(false)), undoing),
        *old(undone) == *final(refused),
        call_ensures(MergeRun::report, (undone, how), conflict),
    ensures
        ({
            let m = old(checked_out)@;
            let dir = made_in(m.repo, m.place);
            &&& merging matches MergeStep::Run(c) && runs(
                c,
                dir,
                seq!["merge"@, "--no-edit"@, m.branch],
            ) && !c.must_succeed
            &&& merged == MergeStep::End(Ok(MergeResult::Merged))
            &&& undoing matches MergeStep::Run(c) && runs(c, dir, seq!["merge"@, "--abort"@])
                && !c.must_succeed
            &&& conflict == MergeStep::End(Ok(MergeResult::Conflict))
        }),
{
    match merging {
        MergeStep::Run(c) => {
            lemma_runs(c);
        },
        _ => {},
    }
    match undoing {
        MergeStep::Run(c) => {
            lemma_runs(c);
        },
        _ => {},
    }
}

/// An error while the integration branch is looked up, created or checked out,
/// or while the epic's branch is merged, ends the merge with that error and
/// nothing else is run. What a merge is about never changes on the way.
pub proof fn law_errors_end_a_merge(
    run: &mut MergeRun,
    e: String,
    step: MergeStep,
    going: &mut MergeRun,
    result: Result<bool, String>,
    other: MergeStep,
)
    requires
        old(run)@.stage != MergeStage::Over,
        old(run)@.stage != MergeStage::Aborting,
        call_ensures(MergeRun::report, (run, Err(e)), step),
        old(going)@.stage != MergeStage::Over,
        call_ensures(MergeRun::report, (going, result), other),
    ensures
        step matches MergeStep::End(Err(msg)) && msg@ == e@,
        final(run)@.stage == MergeStage::Over,
        final(going)@.repo == old(going)@.repo,
        final(going)@.place == old(going)@.place,
        final(going)@.branch == old(going)@.branch,
        final(going)@.integration == old(going)@.integration,
        final(going)@.base == old(going)@.base,
        other is End <==> final(going)@.stage == MergeStage::Over,
{
}

} // verus!
