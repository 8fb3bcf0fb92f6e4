//! Command-line arguments and the choice of a workspace by name or path.
use vstd::prelude::*;
use vstd::string::*;

use crate::paths;
use crate::paths::file_name;
use crate::text;
use crate::text::{join, same, trim};
use crate::workspace;
use crate::workspace::{expand_tilde, Repo, Workspace};

verus! {

/// The arguments of the server.
#[derive(Debug, PartialEq)]
pub struct Args {
    pub no_open: bool,
    /// The arguments that are not recognized.
    pub ignored: Vec<String>,
}

/// An argument the server knows.
pub open spec fn known_arg(arg: Seq<char>) -> bool {
    arg == "--no-open"@ || arg == "--web"@
}

/// Parse the server's arguments. `--web` is accepted and changes nothing; an
/// argument that is not recognized is ignored, and reported.
pub fn parse_args(raw: &Vec<String>) -> (r: Args)
    ensures
        r.no_open == text::views(raw@).contains("--no-open"@),
        text::views(r.ignored@) == text::views(raw@).filter(|a: Seq<char>| !known_arg(a)),
{
    let mut no_open = false;
    let mut ignored: Vec<String> = Vec::new();
    let ghost all = text::views(raw@);
    let ghost f = |a: Seq<char>| !known_arg(a);
    let mut i: usize = 0;
    proof {
        reveal(Seq::filter);
        assert(all.take(0).filter(f) =~= Seq::<Seq<char>>::empty());
        assert(text::views(ignored@) =~= Seq::<Seq<char>>::empty());
    }
    while i < raw.len()
        invariant
            i <= raw@.len(),
            all == text::views(raw@),
            f == (|a: Seq<char>| !known_arg(a)),
            no_open == all.take(i as int).contains("--no-open"@),
            text::views(ignored@) == all.take(i as int).filter(f),
        decreases raw@.len() - i,
    {
        let arg: &str = raw[i].as_str();
        let ghost head = all.take(i as int);
        let ghost before = ignored@;
        proof {
            assert(all[i as int] == arg@);
            assert(all.take(i + 1) =~= head.push(arg@));
            head.lemma_filter_push(arg@, f);
            assert(all.take(i + 1)[i as int] == arg@);
            if head.contains("--no-open"@) {
                let k = choose|k: int| 0 <= k < head.len() && head[k] == "--no-open"@;
                assert(all.take(i + 1)[k] == "--no-open"@);
            }
        }
        if same(arg, "--no-open") {
            no_open = true;
        } else if !same(arg, "--web") {
            ignored.push(raw[i].clone());
            proof {
                text::lemma_views_push(before, ignored@.last());
                assert(ignored@ =~= before.push(ignored@.last()));
            }
        }
        i = i + 1;
    }
    assert(all.take(i as int) =~= all);
    Args { no_open, ignored }
}

/// The warning about an argument that is not recognized.
pub fn ignored_warning(arg: &str) -> (r: String)
    ensures
        r@ == "warning: ignoring unrecognized argument '"@ + arg@ + "'"@,
{
    "warning: ignoring unrecognized argument '".to_string().concat(arg).concat("'")
}

/// The arguments of a run started from the command line.
#[derive(Debug, PartialEq)]
pub struct RunArgs {
    pub goal: String,
    pub workspace: Option<String>,
    pub verify: Option<String>,
    pub no_refine: bool,
}

/// The content of a run's arguments, with the goal still in its parts.
#[verifier::ext_equal]
pub ghost struct ArgsModel {
    pub goal_parts: Seq<Seq<char>>,
    pub workspace: Option<Seq<char>>,
    pub verify: Option<Seq<char>>,
    pub no_refine: bool,
}

/// The argument after position `i`, if there is one.
pub open spec fn following(raw: Seq<Seq<char>>, i: int) -> Option<Seq<char>> {
    if i + 1 < raw.len() {
        Some(raw[i + 1])
    } else {
        None
    }
}

/// The arguments from position `i` on, taken into what was read before: the
/// options take the argument after them, and every other one is part of the goal.
pub open spec fn args_from(raw: Seq<Seq<char>>, i: int, m: ArgsModel) -> ArgsModel
    decreases raw.len() + 1 - i,
{
    if i < 0 || i >= raw.len() {
        m
    } else if raw[i] == "--workspace"@ {
        args_from(raw, i + 2, ArgsModel { workspace: following(raw, i), ..m })
    } else if raw[i] == "--verify"@ {
        args_from(raw, i + 2, ArgsModel { verify: following(raw, i), ..m })
    } else if raw[i] == "--no-refine"@ {
        args_from(raw, i + 1, ArgsModel { no_refine: true, ..m })
    } else {
        args_from(raw, i + 1, ArgsModel { goal_parts: m.goal_parts.push(raw[i]), ..m })
    }
}

/// What no arguments stand for.
pub open spec fn no_args() -> ArgsModel {
    ArgsModel { goal_parts: Seq::empty(), workspace: None, verify: None, no_refine: false }
}

/// Parse the arguments of a run: the goal is every argument that belongs to
/// no option, joined by spaces and trimmed.
pub fn parse_run_args(raw: &Vec<String>) -> (r: RunArgs)
    ensures
        ({
            let m = args_from(text::views(raw@), 0, no_args());
            &&& r.goal@ == text::trimmed(text::joined(m.goal_parts, " "@))
            &&& text::opt_view(r.workspace) == m.workspace
            &&& text::opt_view(r.verify) == m.verify
            &&& r.no_refine == m.no_refine
        }),
{
    let ghost all = text::views(raw@);
    let mut goal_parts: Vec<String> = Vec::new();
    let mut workspace: Option<String> = None;
    let mut verify: Option<String> = None;
    let mut no_refine = false;
    let mut i: usize = 0;
    let ghost mut m = no_args();
    assert(text::views(goal_parts@) =~= Seq::<Seq<char>>::empty());
    while i < raw.len()
        invariant
            i <= raw@.len(),
            all == text::views(raw@),
            m == (ArgsModel {
                goal_parts: text::views(goal_parts@),
                workspace: text::opt_view(workspace),
                verify: text::opt_view(verify),
                no_refine,
            }),
            args_from(all, 0, no_args()) == args_from(all, i as int, m),
        decreases raw@.len() - i,
    {
        let arg: &str = raw[i].as_str();
        let ghost at = i as int;
        let ghost m0 = m;
        assert(all[i as int] == arg@);
        let next: Option<String> = if i + 1 < raw.len() {
            Some(raw[i + 1].clone())
        } else {
            None
        };
        assert(text::opt_view(next) == following(all, i as int));
        if same(arg, "--workspace") {
            workspace = next;
            if i + 1 < raw.len() {
                i = i + 1;
            }
        } else if same(arg, "--verify") {
            verify = next;
            if i + 1 < raw.len() {
                i = i + 1;
            }
        } else if same(arg, "--no-refine") {
            no_refine = true;
        } else {
            let ghost before = goal_parts@;
            goal_parts.push(raw[i].clone());
            proof {
                text::lemma_views_push(before, goal_parts@.last());
                assert(goal_parts@ =~= before.push(goal_parts@.last()));
            }
        }
        proof {
            m = ArgsModel {
                goal_parts: text::views(goal_parts@),
                workspace: text::opt_view(workspace),
                verify: text::opt_view(verify),
                no_refine,
            };
            if arg@ == "--workspace"@ {
                assert(m =~= ArgsModel { workspace: following(all, at), ..m0 });
            } else if arg@ == "--verify"@ {
                assert(m =~= ArgsModel { verify: following(all, at), ..m0 });
            } else if arg@ == "--no-refine"@ {
                assert(m =~= ArgsModel { no_refine: true, ..m0 });
            } else {
                assert(m =~= ArgsModel { goal_parts: m0.goal_parts.push(arg@), ..m0 });
            }
            if at + 1 >= all.len() {
                assert(args_from(all, at + 2, m) == m);
                assert(args_from(all, at + 1, m) == m);
            }
        }
        i = i + 1;
    }
    let whole = join(&goal_parts, " ");
    RunArgs { goal: trim(whole.as_str()), workspace, verify, no_refine }
}

/// How a workspace is chosen.
#[derive(Debug, PartialEq)]
pub enum WorkspaceChoice {
    /// This workspace was asked for.
    Found(Workspace),
    /// Nothing is configured: run the onboarding wizard first, then pick.
    Onboard,
    /// Let the user pick one.
    Pick,
}

/// Group `i` is the first with the name.
pub open spec fn first_group(
    list: Seq<workspace::WorkspaceModel>,
    name: Seq<char>,
    i: int,
) -> bool {
    &&& 0 <= i < list.len()
    &&& list[i].name == name
    &&& forall|j: int| 0 <= j < i ==> (#[trigger] list[j]).name != name
}

/// Resolve the chosen workspace. A wanted one matches by name, or else is
/// taken as a path to a single repository, named after its last component.
/// With none wanted, an empty configuration leads to the onboarding wizard,
/// any other to the picker.
pub fn resolve_workspace(
    wanted: &Option<String>,
    workspaces: &Vec<Workspace>,
    home: &str,
) -> (r: WorkspaceChoice)
    ensures
        match wanted {
            None => if workspaces@.len() == 0 {
                r is Onboard
            } else {
                r is Pick
            },
            Some(name) => r matches WorkspaceChoice::Found(ws) && if workspace::has_group(
                text::views(workspaces@),
                name@,
            ) {
                exists|i: int| #[trigger]
                    first_group(text::views(workspaces@), name@, i) && ws@ == workspaces@[i]@
            } else {
                &&& ws.name@ == match paths::file_name_of(workspace::expanded(name@, home@)) {
                    Some(last) => last,
                    None => "workspace"@,
                }
                &&& ws.repos@.len() == 1
                &&& ws.repos@[0].name@ == ws.name@
                &&& ws.repos@[0].path@ == workspace::expanded(name@, home@)
                &&& ws.repos@[0].base is None && ws.repos@[0].integration is None
            },
        },
{
    match wanted {
        None => if workspaces.len() == 0 {
            WorkspaceChoice::Onboard
        } else {
            WorkspaceChoice::Pick
        },
        Some(name) => {
            let ghost list = text::views(workspaces@);
            let mut i: usize = 0;
            while i < workspaces.len()
                invariant
                    i <= workspaces@.len(),
                    *wanted == Some(*name),
                    list == text::views(workspaces@),
                    forall|j: int| 0 <= j < i ==> (#[trigger] list[j]).name != name@,
                decreases workspaces@.len() - i,
            {
                assert(list[i as int] == workspaces@[i as int]@);
                if same(workspaces[i].name.as_str(), name.as_str()) {
                    assert(first_group(list, name@, i as int));
                    assert(workspace::has_group(list, name@));
                    return WorkspaceChoice::Found(workspaces[i].clone());
                }
                i = i + 1;
            }
            let path = expand_tilde(name.as_str(), home);
            let label = match file_name(path.as_str()) {
                Some(last) => last,
                None => "workspace".to_string(),
            };
            let mut repos: Vec<Repo> = Vec::new();
            repos.push(Repo { name: label.clone(), path, base: None, integration: None });
            WorkspaceChoice::Found(Workspace { name: label, repos })
        },
    }
}

} // verus!
