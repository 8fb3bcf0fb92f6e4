//! What the command line and the terminal screens do: how arguments are read,
//! what keys do, and what the run view and its report show.
use vstd::prelude::*;

use crate::app;
use crate::app::{App, EpicStatus, EpicView, KanbanColumn, Key, Phase};
use crate::cli;
use crate::cli::{
    parse_args, parse_run_args, resolve_workspace, Args, RunArgs, WorkspaceChoice,
};
use crate::paths::file_name;
use crate::refine::type_key;
use crate::strmap::StrMap;
use crate::text;
use crate::tui;
use crate::tui::{
    board_column, card_marker, footer, goal_key, log_start, onboarded, quits, report, report_label,
    status_by_id, truncate, BoardLine, CardColor, GoalStep, LoopEvent, LoopStep, Onboarding,
    OnboardingStep, Picker, PickerOutcome, RunLoop, Screen,
};
use crate::workspace::{expand_tilde, Workspace};

verus! {

/// The server opens the browser unless told not to, anywhere among its
/// arguments, and reports every argument it does not know, in their order.
pub proof fn law_unknown_arguments_are_reported(raw: &Vec<String>, r: Args)
    requires
        call_ensures(parse_args, (raw,), r),
    ensures
        r.no_open <==> exists|i: int| 0 <= i < raw@.len() && (#[trigger] raw@[i])@ == "--no-open"@,
        text::views(r.ignored@) == text::views(raw@).filter(
            |a: Seq<char>| a != "--no-open"@ && a != "--web"@,
        ),
{
    let v = text::views(raw@);
    assert(v.len() == raw@.len());
    if r.no_open {
        let i = choose|i: int| 0 <= i < v.len() && v[i] == "--no-open"@;
        assert(raw@[i]@ == "--no-open"@);
    }
    if exists|i: int| 0 <= i < raw@.len() && (#[trigger] raw@[i])@ == "--no-open"@ {
        let i = choose|i: int| 0 <= i < raw@.len() && (#[trigger] raw@[i])@ == "--no-open"@;
        assert(v[i] == "--no-open"@);
    }
    let f = |a: Seq<char>| a != "--no-open"@ && a != "--web"@;
    let g = |a: Seq<char>| !cli::known_arg(a);
    assert(f =~= g);
}

/// The argument is the name of an option of a run.
pub open spec fn is_option(arg: Seq<char>) -> bool {
    arg == "--workspace"@ || arg == "--verify"@ || arg == "--no-refine"@
}

/// Without options, all arguments are the goal, with spaces between them and
/// none around it, and nothing is set.
pub proof fn law_plain_arguments_are_the_goal(raw: &Vec<String>, r: RunArgs)
    requires
        call_ensures(parse_run_args, (raw,), r),
        forall|i: int| 0 <= i < raw@.len() ==> !is_option((#[trigger] raw@[i])@),
    ensures
        r.goal@ == text::trimmed(text::joined(text::views(raw@), " "@)),
        r.workspace is None && r.verify is None && !r.no_refine,
{
    let v = text::views(raw@);
    assert(v.len() == raw@.len());
    assert forall|i: int| 0 <= i < v.len() implies !is_option(#[trigger] v[i]) by {
        assert(v[i] == raw@[i]@);
    }
    lemma_plain(v, 0, cli::no_args());
    assert(v.skip(0) =~= v);
    assert(Seq::<Seq<char>>::empty() + v =~= v);
}

proof fn lemma_plain(raw: Seq<Seq<char>>, i: int, m: cli::ArgsModel)
    requires
        0 <= i <= raw.len(),
        forall|k: int| i <= k < raw.len() ==> !is_option(#[trigger] raw[k]),
    ensures
        cli::args_from(raw, i, m) == (cli::ArgsModel {
            goal_parts: m.goal_parts + raw.skip(i),
            ..m
        }),
    decreases raw.len() - i,
{
    if i < raw.len() {
        let next = cli::ArgsModel { goal_parts: m.goal_parts.push(raw[i]), ..m };
        assert(!is_option(raw[i]));
        lemma_plain(raw, i + 1, next);
        assert(m.goal_parts.push(raw[i]) + raw.skip(i + 1) =~= m.goal_parts + raw.skip(i));
    } else {
        assert(m.goal_parts + raw.skip(i) =~= m.goal_parts);
    }
}

/// An option after plain arguments takes the argument that follows it, and
/// leaves the goal as it was: the workspace, the verification command, or, with
/// nothing after it, that the goal is not refined.
pub proof fn law_options_take_what_follows(
    plain: &Vec<String>,
    more: &Vec<String>,
    option: String,
    value: String,
    a: RunArgs,
    b: RunArgs,
)
    requires
        forall|i: int| 0 <= i < plain@.len() ==> !is_option((#[trigger] plain@[i])@),
        call_ensures(parse_run_args, (plain,), a),
        call_ensures(parse_run_args, (more,), b),
        option@ == "--workspace"@ || option@ == "--verify"@ ==> more@ == plain@.push(option).push(
            value,
        ),
        option@ == "--no-refine"@ ==> more@ == plain@.push(option),
        is_option(option@),
    ensures
        b.goal@ == a.goal@,
        option@ == "--workspace"@ ==> b.workspace is Some && b.workspace->0@ == value@
            && b.verify is None && !b.no_refine,
        option@ == "--verify"@ ==> b.verify is Some && b.verify->0@ == value@ && b.workspace is None
            && !b.no_refine,
        option@ == "--no-refine"@ ==> b.no_refine && b.workspace is None && b.verify is None,
{
    let p = text::views(plain@);
    let m = text::views(more@);
    let n = p.len() as int;
    assert(p.len() == plain@.len());
    assert(m.len() == more@.len());
    assert forall|i: int| 0 <= i < n implies !is_option(#[trigger] p[i]) && m[i] == p[i] by {
        assert(p[i] == plain@[i]@);
        assert(more@[i] == plain@[i]);
    }
    assert(more@[n] == option);
    assert(m[n] == option@);
    lemma_plain(p, 0, cli::no_args());
    lemma_plain_upto(m, 0, n, cli::no_args());
    assert(p.skip(0) =~= m.subrange(0, n));
    let mid = cli::ArgsModel {
        goal_parts: cli::no_args().goal_parts + m.subrange(0, n),
        ..cli::no_args()
    };
    reveal_strlit("--workspace");
    reveal_strlit("--verify");
    reveal_strlit("--no-refine");
    assert("--workspace"@.len() == 11 && "--verify"@.len() == 8 && "--no-refine"@.len() == 11);
    assert("--workspace"@[2] != "--no-refine"@[2]);
    if option@ == "--no-refine"@ {
        let after = cli::ArgsModel { no_refine: true, ..mid };
        assert(cli::args_from(m, n + 1, after) == after);
    } else {
        assert(more@[n + 1] == value);
        assert(m[n + 1] == value@);
        if option@ == "--workspace"@ {
            let after = cli::ArgsModel { workspace: Some(value@), ..mid };
            assert(cli::args_from(m, n + 2, after) == after);
        } else {
            let after = cli::ArgsModel { verify: Some(value@), ..mid };
            assert(cli::args_from(m, n + 2, after) == after);
        }
    }
}

proof fn lemma_plain_upto(raw: Seq<Seq<char>>, i: int, n: int, m: cli::ArgsModel)
    requires
        0 <= i <= n <= raw.len(),
        forall|k: int| i <= k < n ==> !is_option(#[trigger] raw[k]),
    ensures
        cli::args_from(raw, i, m) == cli::args_from(
            raw,
            n,
            cli::ArgsModel { goal_parts: m.goal_parts + raw.subrange(i, n), ..m },
        ),
    decreases n - i,
{
    if i < n {
        let next = cli::ArgsModel { goal_parts: m.goal_parts.push(raw[i]), ..m };
        assert(!is_option(raw[i]));
        lemma_plain_upto(raw, i + 1, n, next);
        assert(m.goal_parts.push(raw[i]) + raw.subrange(i + 1, n) =~= m.goal_parts + raw.subrange(
            i,
            n,
        ));
    } else {
        assert(m.goal_parts + raw.subrange(i, n) =~= m.goal_parts);
    }
}

/// An option that needs an argument and has none after it sets nothing.
pub proof fn law_a_trailing_option_sets_nothing(
    plain: &Vec<String>,
    more: &Vec<String>,
    option: String,
    a: RunArgs,
    b: RunArgs,
)
    requires
        forall|i: int| 0 <= i < plain@.len() ==> !is_option((#[trigger] plain@[i])@),
        call_ensures(parse_run_args, (plain,), a),
        call_ensures(parse_run_args, (more,), b),
        option@ == "--workspace"@ || option@ == "--verify"@,
        more@ == plain@.push(option),
    ensures
        b.goal@ == a.goal@,
        b.workspace is None && b.verify is None && !b.no_refine,
{
    let p = text::views(plain@);
    let m = text::views(more@);
    let n = p.len() as int;
    assert(p.len() == plain@.len());
    assert(m.len() == more@.len());
    assert forall|i: int| 0 <= i < n implies !is_option(#[trigger] p[i]) && m[i] == p[i] by {
        assert(p[i] == plain@[i]@);
        assert(more@[i] == plain@[i]);
    }
    assert(more@[n] == option);
    assert(m[n] == option@);
    lemma_plain(p, 0, cli::no_args());
    lemma_plain_upto(m, 0, n, cli::no_args());
    assert(p.skip(0) =~= m.subrange(0, n));
    let mid = cli::ArgsModel {
        goal_parts: cli::no_args().goal_parts + m.subrange(0, n),
        ..cli::no_args()
    };
    reveal_strlit("--workspace");
    reveal_strlit("--verify");
    assert("--workspace"@.len() == 11 && "--verify"@.len() == 8);
    assert(cli::args_from(m, n + 2, mid) == mid);
}

proof fn lemma_args_later(raw: Seq<Seq<char>>, all: Seq<Seq<char>>, i: int, m: cli::ArgsModel)
    requires
        0 <= i,
        all.len() == raw.len() + 2,
        forall|k: int| 0 <= k < raw.len() ==> #[trigger] raw[k] == all[k + 2],
    ensures
        cli::args_from(all, i + 2, m) == cli::args_from(raw, i, m),
    decreases raw.len() + 1 - i,
{
    if i < raw.len() {
        assert(raw[i] == all[i + 2]);
        if i + 1 < raw.len() {
            assert(raw[i + 1] == all[i + 3]);
        }
        assert(cli::following(raw, i) == cli::following(all, i + 2));
        if raw[i] == "--workspace"@ {
            lemma_args_later(
                raw,
                all,
                i + 2,
                cli::ArgsModel { workspace: cli::following(raw, i), ..m },
            );
        } else if raw[i] == "--verify"@ {
            lemma_args_later(
                raw,
                all,
                i + 2,
                cli::ArgsModel { verify: cli::following(raw, i), ..m },
            );
        } else if raw[i] == "--no-refine"@ {
            lemma_args_later(raw, all, i + 1, cli::ArgsModel { no_refine: true, ..m });
        } else {
            lemma_args_later(
                raw,
                all,
                i + 1,
                cli::ArgsModel { goal_parts: m.goal_parts.push(raw[i]), ..m },
            );
        }
    }
}

proof fn lemma_args_given(raw: Seq<Seq<char>>, i: int, given: cli::ArgsModel, m: cli::ArgsModel)
    requires
        0 <= i,
    ensures
        ({
            let x = cli::args_from(raw, i, m);
            let y = cli::args_from(raw, i, given);
            &&& m.goal_parts == given.goal_parts ==> x.goal_parts == y.goal_parts
            &&& m.workspace == given.workspace ==> x.workspace == y.workspace
            &&& m.verify == given.verify ==> x.verify == y.verify
            &&& m.no_refine == given.no_refine ==> x.no_refine == y.no_refine
            &&& (forall|k: int| i <= k < raw.len() ==> #[trigger] raw[k] != "--workspace"@)
                ==> y.workspace == given.workspace
            &&& (forall|k: int| i <= k < raw.len() ==> #[trigger] raw[k] != "--verify"@)
                ==> y.verify == given.verify
        }),
    decreases raw.len() + 1 - i,
{
    if i < raw.len() {
        if raw[i] == "--workspace"@ {
            lemma_args_given(
                raw,
                i + 2,
                cli::ArgsModel { workspace: cli::following(raw, i), ..given },
                cli::ArgsModel { workspace: cli::following(raw, i), ..m },
            );
        } else if raw[i] == "--verify"@ {
            lemma_args_given(
                raw,
                i + 2,
                cli::ArgsModel { verify: cli::following(raw, i), ..given },
                cli::ArgsModel { verify: cli::following(raw, i), ..m },
            );
        } else if raw[i] == "--no-refine"@ {
            lemma_args_given(
                raw,
                i + 1,
                cli::ArgsModel { no_refine: true, ..given },
                cli::ArgsModel { no_refine: true, ..m },
            );
        } else {
            lemma_args_given(
                raw,
                i + 1,
                cli::ArgsModel { goal_parts: given.goal_parts.push(raw[i]), ..given },
                cli::ArgsModel { goal_parts: m.goal_parts.push(raw[i]), ..m },
            );
        }
    }
}

/// An option before other arguments changes nothing of how those are read, and
/// what it sets holds unless a later one like it follows.
pub proof fn law_options_leave_what_follows_them(
    rest: &Vec<String>,
    all: &Vec<String>,
    option: String,
    value: String,
    a: RunArgs,
    b: RunArgs,
)
    requires
        option@ == "--workspace"@ || option@ == "--verify"@,
        all@ == seq![option, value] + rest@,
        call_ensures(parse_run_args, (rest,), a),
        call_ensures(parse_run_args, (all,), b),
    ensures
        b.goal@ == a.goal@,
        b.no_refine == a.no_refine,
        option@ == "--workspace"@ ==> text::opt_view(b.verify) == text::opt_view(a.verify),
        option@ == "--verify"@ ==> text::opt_view(b.workspace) == text::opt_view(a.workspace),
        option@ == "--workspace"@ && (forall|k: int|
            0 <= k < rest@.len() ==> (#[trigger] rest@[k])@ != option@) ==> b.workspace is Some
            && b.workspace->0@ == value@,
        option@ == "--verify"@ && (forall|k: int|
            0 <= k < rest@.len() ==> (#[trigger] rest@[k])@ != option@) ==> b.verify is Some
            && b.verify->0@ == value@,
{
    let p = text::views(rest@);
    let m = text::views(all@);
    assert(p.len() == rest@.len());
    assert(m.len() == all@.len());
    assert(all@[0] == option && all@[1] == value);
    assert(m[0] == option@ && m[1] == value@);
    assert forall|k: int| 0 <= k < p.len() implies #[trigger] p[k] == m[k + 2] by {
        assert(p[k] == rest@[k]@);
        assert(all@[k + 2] == rest@[k]);
    }
    reveal_strlit("--workspace");
    reveal_strlit("--verify");
    assert("--workspace"@.len() == 11 && "--verify"@.len() == 8);
    let given = if option@ == "--workspace"@ {
        cli::ArgsModel { workspace: Some(value@), ..cli::no_args() }
    } else {
        cli::ArgsModel { verify: Some(value@), ..cli::no_args() }
    };
    assert(cli::following(m, 0) == Some(value@));
    assert(cli::args_from(m, 0, cli::no_args()) == cli::args_from(m, 2, given));
    lemma_args_later(p, m, 0, given);
    lemma_args_given(p, 0, given, cli::no_args());
    if forall|k: int| 0 <= k < rest@.len() ==> (#[trigger] rest@[k])@ != option@ {
        assert forall|k: int| 0 <= k < p.len() implies #[trigger] p[k] != option@ by {
            assert(p[k] == rest@[k]@);
            assert(rest@[k]@ != option@);
        }
    }
}

/// A wanted workspace is the first configured one of that name, or else a single
/// repository at that path. Without one the user picks, or sets some up where
/// there are none.
pub proof fn law_wanted_workspaces_are_found_or_taken_as_paths(
    name: String,
    known: &Vec<Workspace>,
    home: &str,
    wanted: &Option<String>,
    none: &Option<String>,
    r: WorkspaceChoice,
    picked: WorkspaceChoice,
    i: int,
    path: &str,
    at: String,
    dir: &str,
    last: Option<String>,
)
    requires
        dir@ == at@,
        call_ensures(file_name, (dir,), last),
        *wanted == Some(name),
        *none is None,
        call_ensures(resolve_workspace, (wanted, known, home), r),
        call_ensures(resolve_workspace, (none, known, home), picked),
        path@ == name@,
        call_ensures(expand_tilde, (path, home), at),
    ensures
        known@.len() == 0 ==> picked is Onboard,
        known@.len() > 0 ==> picked is Pick,
        r is Found,
        0 <= i < known@.len() && known@[i].name@ == name@ && (forall|j: int|
            0 <= j < i ==> (#[trigger] known@[j]).name@ != name@) ==> r->Found_0@ == known@[i]@,
        (forall|j: int| 0 <= j < known@.len() ==> (#[trigger] known@[j]).name@ != name@)
            ==> r->Found_0.repos@.len() == 1 && r->Found_0.repos@[0].path@ == at@
            && r->Found_0.repos@[0].base is None && r->Found_0.repos@[0].integration is None
            && r->Found_0.repos@[0].name@ == r->Found_0.name@ && r->Found_0.name@ == if last is Some {
            last->0@
        } else {
            "workspace"@
        },
{
    let all = text::views(known@);
    assert(all.len() == known@.len());
    assert forall|j: int| 0 <= j < all.len() implies (#[trigger] all[j]) == known@[j]@ by {}
    if 0 <= i < known@.len() && known@[i].name@ == name@ && (forall|j: int|
        0 <= j < i ==> (#[trigger] known@[j]).name@ != name@) {
        assert(all[i].name == name@);
        assert(crate::workspace::has_group(all, name@));
        assert forall|k: int| #[trigger] cli::first_group(all, name@, k) implies k == i by {
            if k < i {
                assert(known@[k].name@ != name@);
            }
            if i < k {
                assert(all[i].name != name@);
            }
        }
    }
    if forall|j: int| 0 <= j < known@.len() ==> (#[trigger] known@[j]).name@ != name@ {
        if crate::workspace::has_group(all, name@) {
            let j = choose|j: int| 0 <= j < all.len() && (#[trigger] all[j]).name == name@;
            assert(known@[j].name@ == name@);
        }
    }
}

/// In the picker up and down move by one and stop at the ends, Enter chooses
/// where the cursor is, `a` adds, `q` quits, and any other key does nothing.
pub proof fn law_picker_keys(p: &mut Picker, key: Key, r: PickerOutcome)
    requires
        old(p).wf(),
        key is Enter ==> old(p).count() > 0,
        call_ensures(Picker::on_key, (p, key), r),
    ensures
        final(p).count() == old(p).count(),
        key == Key::Up && old(p).cursor() > 0 ==> final(p).cursor() == old(p).cursor() - 1,
        key == Key::Down && old(p).cursor() + 1 < old(p).count() ==> final(p).cursor() == old(
            p,
        ).cursor() + 1,
        key == Key::Up && old(p).cursor() == 0 ==> final(p).cursor() == 0,
        key == Key::Down && old(p).cursor() + 1 >= old(p).count() ==> final(p).cursor() == old(
            p,
        ).cursor(),
        key != Key::Up && key != Key::Down ==> final(p).cursor() == old(p).cursor(),
        r is Chosen <==> key == Key::Enter,
        r matches PickerOutcome::Chosen(i) ==> i == old(p).cursor() && i < old(p).count(),
        r is Add <==> key == Key::Char('a'),
        r is Quit <==> key == Key::Char('q'),
{
}

/// In the wizard's list a space checks the repository at the cursor or unchecks
/// it, and `r` goes back to the folder; on the folder's screen keys are typed.
/// What a scan found is listed with nothing checked.
pub proof fn law_wizard_keys(
    w: &mut Onboarding,
    key: Key,
    r: OnboardingStep,
    typed: &mut String,
    found: &mut Onboarding,
    repos: Vec<Workspace>,
    i: int,
)
    requires
        old(w).wf(),
        call_ensures(Onboarding::on_key, (w, key), r),
        old(typed)@ == old(w)@.root,
        call_ensures(type_key, (typed, key), ()),
        old(found).wf(),
        call_ensures(Onboarding::scanned, (found, repos), ()),
    ensures
        ({
            let was = old(w)@;
            let is = final(w)@;
            let list = was.screen == Screen::List;
            &&& r is Cancel <==> key == Key::CtrlC || key == Key::Esc
            &&& r is Scan <==> key == Key::Enter && !list
            &&& r matches OnboardingStep::Scan(dir) ==> dir@ == text::trimmed(was.root)
            &&& !list ==> is.screen == was.screen && is.checked == was.checked && is.selected
                == was.selected
            &&& !list && (key is Char || key == Key::Backspace) ==> is.root == final(typed)@
            &&& list ==> is.root == was.root
            &&& list && key == Key::Char('r') ==> is.screen == Screen::Root
            &&& list && key != Key::Char('r') ==> is.screen == Screen::List
            &&& list && key == Key::Char(' ') && was.repos.len() > 0 ==> is.checked.len()
                == was.checked.len() && is.checked[was.selected as int]
                == !was.checked[was.selected as int] && (0 <= i < was.checked.len() && i
                != was.selected ==> is.checked[i] == was.checked[i])
            &&& list && key != Key::Char(' ') ==> is.checked == was.checked
            &&& list && key == Key::Down && was.selected + 1 < was.repos.len() ==> is.selected
                == was.selected + 1
            &&& list && key == Key::Up && was.selected > 0 ==> is.selected == was.selected - 1
            &&& is.repos == was.repos
        }),
        final(found)@.screen == Screen::List,
        final(found)@.repos == text::views(repos@),
        final(found)@.checked.len() == repos@.len(),
        0 <= i < repos@.len() ==> !final(found)@.checked[i],
        final(found)@.selected == 0,
        final(found)@.root == old(found)@.root,
{
    w.lemma_wf();
    assert(text::views(repos@).len() == repos@.len());
}

/// Enter on the list saves exactly the checked repositories, in their order, and
/// does nothing where none is checked.
pub proof fn law_the_wizard_saves_what_is_checked(w: &mut Onboarding, r: OnboardingStep)
    requires
        old(w).wf(),
        old(w)@.screen == Screen::List,
        call_ensures(Onboarding::on_key, (w, Key::Enter), r),
    ensures
        (exists|i: int| 0 <= i < old(w)@.checked.len() && #[trigger] old(w)@.checked[i])
            <==> r is Save,
        !(r is Save) ==> r is Stay,
        r matches OnboardingStep::Save(list) ==> keeps(
            text::views(list@),
            old(w)@.repos,
            old(w)@.checked,
        ),
{
    w.lemma_wf();
    lemma_picked(w@.repos, w@.checked);
    if exists|i: int| 0 <= i < w@.checked.len() && #[trigger] w@.checked[i] {
        let i = choose|i: int| 0 <= i < w@.checked.len() && #[trigger] w@.checked[i];
        assert(tui::picked(w@.repos, w@.checked).contains(w@.repos[i]));
    }
    if tui::picked(w@.repos, w@.checked).len() > 0 {
        let x = tui::picked(w@.repos, w@.checked)[0];
        assert(tui::picked(w@.repos, w@.checked).contains(x));
    }
}

/// The list holds every checked one of all, and nothing else, and as many.
pub open spec fn keeps(
    list: Seq<crate::workspace::WorkspaceModel>,
    all: Seq<crate::workspace::WorkspaceModel>,
    checked: Seq<bool>,
) -> bool {
    &&& forall|i: int| 0 <= i < all.len() && #[trigger] checked[i] ==> list.contains(all[i])
    &&& forall|x: crate::workspace::WorkspaceModel| #[trigger]
        list.contains(x) ==> exists|i: int|
            0 <= i < all.len() && #[trigger] checked[i] && all[i] == x
    &&& list.len() == checked.filter(|c: bool| c).len()
}

proof fn lemma_picked(all: Seq<crate::workspace::WorkspaceModel>, checked: Seq<bool>)
    requires
        all.len() == checked.len(),
    ensures
        keeps(tui::picked(all, checked), all, checked),
    decreases all.len(),
{
    reveal(Seq::filter);
    let list = tui::picked(all, checked);
    if all.len() > 0 {
        let a = all.drop_last();
        let c = checked.drop_last();
        lemma_picked(a, c);
        let head = tui::picked(a, c);
        assert forall|i: int| 0 <= i < all.len() && #[trigger] checked[i] implies list.contains(
            all[i],
        ) by {
            if i < a.len() {
                assert(c[i] == checked[i] && a[i] == all[i]);
                let k = choose|k: int| 0 <= k < head.len() && head[k] == a[i];
                assert(list[k] == all[i]);
            } else {
                assert(list[list.len() - 1] == all[i]);
            }
        }
        assert forall|x: crate::workspace::WorkspaceModel| #[trigger] list.contains(x) implies exists|
            i: int,
        | 0 <= i < all.len() && #[trigger] checked[i] && all[i] == x by {
            let k = choose|k: int| 0 <= k < list.len() && list[k] == x;
            if k < head.len() {
                assert(head[k] == x);
                assert(head.contains(x));
                let i = choose|i: int| 0 <= i < a.len() && #[trigger] c[i] && a[i] == x;
                assert(checked[i] && all[i] == x);
            } else {
                assert(checked[checked.len() - 1]);
            }
        }
    }
}

/// The wizard ends with what was saved and read again, or with the picks where
/// either failed.
pub proof fn law_the_wizard_ends_with_the_picks_at_least(
    saved: bool,
    loaded: Option<Vec<Workspace>>,
    picks: Vec<Workspace>,
    r: Vec<Workspace>,
)
    requires
        call_ensures(onboarded, (saved, loaded, picks), r),
    ensures
        saved && loaded is Some ==> r == loaded->0,
        !saved || loaded is None ==> r == picks,
{
}

/// Enter takes the trimmed goal unless it is blank, an escape and an interrupt
/// cancel, and any other key is typed.
pub proof fn law_goals_are_entered_trimmed(
    buffer: &mut String,
    key: Key,
    r: GoalStep,
    typed: &mut String,
)
    requires
        call_ensures(goal_key, (buffer, key), r),
        old(typed)@ == old(buffer)@,
        call_ensures(type_key, (typed, key), ()),
    ensures
        final(buffer)@ == final(typed)@,
        r is Cancel <==> key == Key::CtrlC || key == Key::Esc,
        r is Entered <==> key == Key::Enter && text::trimmed(old(buffer)@).len() > 0,
        r matches GoalStep::Entered(goal) ==> goal@ == text::trimmed(old(buffer)@),
{
}

/// A text that fits is shown whole; another one is cut one short of the width,
/// with dots after it.
pub proof fn law_long_texts_are_cut(s: &str, max: usize, r: String)
    requires
        call_ensures(truncate, (s, max), r),
    ensures
        s@.len() <= max ==> r@ == s@,
        s@.len() > max && max > 0 ==> r@ == s@.take(max - 1) + "..."@,
        s@.len() > max && max == 0 ==> r@ == "..."@,
{
    if s@.len() > max && max == 0 {
        assert(s@.take(0) + "..."@ =~= "..."@);
    }
}

/// The newest lines are shown: as many as there are rows, or all.
pub proof fn law_the_newest_lines_are_shown(total: usize, rows: usize, r: usize)
    requires
        call_ensures(log_start, (total, rows), r),
    ensures
        r <= total,
        total >= rows ==> total - r == rows,
        total < rows ==> r == 0,
{
}

/// The markers of the cards: on hold or ready, running, checked, fine, failed,
/// skipped or in conflict.
pub proof fn law_markers_tell_the_state(
    epic: &EpicView,
    column: KanbanColumn,
    statuses: &StrMap<EpicStatus>,
    r: (&'static str, CardColor),
    waits: bool,
)
    requires
        statuses.wf(),
        call_ensures(card_marker, (epic, column, statuses), r),
        call_ensures(app::is_on_hold, (&epic.depends_on, statuses), waits),
    ensures
        column is Todo && waits ==> r.0@ == "hold"@ && r.1 == CardColor::DarkGray,
        column is Todo && !waits ==> r.0@ == "redy"@ && r.1 == CardColor::Cyan,
        column is InProgress ==> r.0@ == "run "@ && r.1 == CardColor::Yellow,
        column is Review ==> r.0@ == "chk "@ && r.1 == CardColor::Yellow,
        column is Done ==> r.0@ == "ok  "@ && r.1 == CardColor::Green,
        column is Blocked && epic.status == EpicStatus::Failed ==> r.0@ == "x   "@ && r.1
            == CardColor::Red,
        column is Blocked && epic.status == EpicStatus::Skipped ==> r.0@ == "skip"@ && r.1
            == CardColor::DarkGray,
        column is Blocked && epic.status == EpicStatus::Conflict ==> r.0@ == "!   "@ && r.1
            == CardColor::Magenta,
{
}

/// The status that is known of an id is that of the last card with it; an id
/// without a card has none.
pub proof fn law_statuses_are_those_of_the_cards(
    epics: &Vec<EpicView>,
    r: StrMap<EpicStatus>,
    i: int,
    x: Seq<char>,
)
    requires
        call_ensures(status_by_id, (epics,), r),
    ensures
        r.wf(),
        0 <= i < epics@.len() && (forall|j: int|
            i < j < epics@.len() ==> (#[trigger] epics@[j]).id@ != epics@[i].id@)
            ==> r@.contains_key(epics@[i].id@) && r@[epics@[i].id@] == epics@[i].status,
        (forall|j: int| 0 <= j < epics@.len() ==> (#[trigger] epics@[j]).id@ != x)
            ==> !r@.contains_key(x),
{
    let v = text::views(epics@);
    assert(v.len() == epics@.len());
    assert forall|j: int| 0 <= j < v.len() implies (#[trigger] v[j]) == epics@[j]@ by {}
    if 0 <= i < epics@.len() && (forall|j: int|
        i < j < epics@.len() ==> (#[trigger] epics@[j]).id@ != epics@[i].id@) {
        assert forall|j: int| i < j < v.len() implies (#[trigger] v[j]).id != v[i].id by {
            assert(v[j] == epics@[j]@);
        }
        lemma_status_of(v, i);
    }
    if forall|j: int| 0 <= j < epics@.len() ==> (#[trigger] epics@[j]).id@ != x {
        assert forall|j: int| 0 <= j < v.len() implies (#[trigger] v[j]).id != x by {
            assert(v[j] == epics@[j]@);
        }
        lemma_no_status(v, x);
    }
}

proof fn lemma_status_of(cards: Seq<app::CardModel>, i: int)
    requires
        0 <= i < cards.len(),
        forall|j: int| i < j < cards.len() ==> (#[trigger] cards[j]).id != cards[i].id,
    ensures
        tui::statuses(cards).contains_key(cards[i].id),
        tui::statuses(cards)[cards[i].id] == cards[i].status,
    decreases cards.len(),
{
    if i < cards.len() - 1 {
        assert(cards[cards.len() - 1].id != cards[i].id);
        lemma_status_of(cards.drop_last(), i);
    }
}

proof fn lemma_no_status(cards: Seq<app::CardModel>, x: Seq<char>)
    requires
        forall|j: int| 0 <= j < cards.len() ==> (#[trigger] cards[j]).id != x,
    ensures
        !tui::statuses(cards).contains_key(x),
    decreases cards.len(),
{
    if cards.len() > 0 {
        assert(cards[cards.len() - 1].id != x);
        lemma_no_status(cards.drop_last(), x);
    }
}

/// A column of the terminal's board shows all its cards where they fit, and else
/// as many as leave a row for how many more there are.
pub proof fn law_columns_show_what_fits(
    epics: &Vec<EpicView>,
    column: KanbanColumn,
    width: usize,
    rows: usize,
    r: Vec<BoardLine>,
)
    requires
        call_ensures(board_column, (epics, column, width, rows), r),
        rows > 0,
    ensures
        ({
            let cards = text::views(epics@).filter(
                |c: app::CardModel| crate::view_laws::stands_in(c.status, column),
            );
            &&& cards.len() <= rows ==> r@.len() == cards.len()
            &&& cards.len() > rows ==> r@.len() == rows && r@.last().text@ == "+"@
                + text::decimal_of((cards.len() - (rows - 1)) as nat) + " more"@
        }),
{
    let f = |c: app::CardModel| crate::view_laws::stands_in(c.status, column);
    let g = |c: app::CardModel| app::column_of(c.status) == column;
    assert(f =~= g);
}

/// The footer of a run that is active turns and counts the seconds; that of one
/// that has ended says how.
pub proof fn law_footers_tell_the_phase(
    app: &App,
    r: (&'static str, String, CardColor),
    secs: String,
)
    requires
        call_ensures(footer, (app,), r),
        call_ensures(text::decimal, (app.elapsed_secs,), secs),
    ensures
        app.phase == Phase::Planning ==> r.1@ == "planning... "@ + secs@ + "s"@ && r.2
            == CardColor::Yellow,
        app.phase == Phase::Implementing ==> r.1@ == "implementing... "@ + secs@ + "s"@ && r.2
            == CardColor::Yellow,
        app.phase == Phase::Done ==> r.0@ == "ok"@ && r.1@ == "done"@ && r.2 == CardColor::Green,
        app.phase == Phase::Failed ==> r.0@ == "x"@ && r.1@ == "failed"@ && r.2 == CardColor::Red,
{
}

/// The report has its heading, the workspace and the goal, one line for every
/// epic, in their order, and the cost; where the run has ended with work merged,
/// it says last on which branch and in which repository that is.
pub proof fn law_reports_name_every_epic(
    app: &App,
    cost: &str,
    branch: &str,
    repo: &str,
    r: Vec<String>,
    i: int,
    label: &'static str,
)
    requires
        call_ensures(report, (app, cost, branch, repo), r),
        0 <= i < app.epics@.len(),
        call_ensures(report_label, (app.epics@[i].status,), label),
    ensures
        ({
            let n = app.epics@.len() as int;
            let merged = (app.phase == Phase::Done || app.phase == Phase::Failed) && exists|k: int|
                0 <= k < n && (#[trigger] app.epics@[k]).status == EpicStatus::Merged;
            &&& r@.len() == n + 4 + (if merged {
                1int
            } else {
                0
            })
            &&& r@[0]@ == "=== Run report ==="@
            &&& r@[1]@ == "Workspace: "@ + app.workspace@
            &&& r@[2]@ == "Goal: "@ + app.goal@
            &&& r@[i + 3]@ == "  ["@ + label@ + "] "@ + app.epics@[i].id@ + " "@
                + app.epics@[i].title@
            &&& r@[n + 3]@ == "Total cost ~$"@ + cost@
            &&& merged ==> r@.last()@ == "Merged work is on branch '"@ + branch@ + "' in "@ + repo@
                + ". Review and merge to your main branch."@
        }),
        app.epics@[i].status is Merged ==> label@ == "merged"@,
        app.epics@[i].status is Failed ==> label@ == "failed"@,
        app.epics@[i].status is Skipped ==> label@ == "skipped"@,
        app.epics@[i].status is Conflict ==> label@ == "conflict (manual merge)"@,
        app.epics@[i].status is Pending || app.epics@[i].status is Running
            || app.epics@[i].status is Verifying ==> label@ == "incomplete"@,
{
    let v = text::views(r@);
    let cards = app@.epics;
    assert(v.len() == r@.len());
    assert(cards.len() == app.epics@.len());
    assert(cards[i] == app.epics@[i]@);
    assert forall|k: int| 0 <= k < v.len() implies (#[trigger] v[k]) == r@[k]@ by {}
    assert(app::any_merged(cards) <==> exists|k: int|
        0 <= k < app.epics@.len() && (#[trigger] app.epics@[k]).status == EpicStatus::Merged) by {
        if app::any_merged(cards) {
            let k = choose|k: int| 0 <= k < cards.len() && (#[trigger] cards[k]).status is Merged;
            assert(cards[k] == app.epics@[k]@);
            assert(app.epics@[k].status == EpicStatus::Merged);
        }
        if exists|k: int|
            0 <= k < app.epics@.len() && (#[trigger] app.epics@[k]).status == EpicStatus::Merged {
            let k = choose|k: int|
                0 <= k < app.epics@.len() && (#[trigger] app.epics@[k]).status
                    == EpicStatus::Merged;
            assert(cards[k].status is Merged);
        }
    }
    let n = app.epics@.len() as int;
    assert(v[0] == r@[0]@ && v[1] == r@[1]@ && v[2] == r@[2]@);
    assert(v[i + 3] == r@[i + 3]@);
    assert(v[n + 3] == r@[n + 3]@);
    assert(v[r@.len() - 1] == r@[r@.len() - 1]@);
}

/// A quit while the run goes on cleans up; one after its end leaves what is
/// there. The screen is left when the events end, and at no other time.
pub proof fn law_quitting_cleans_up_only_while_running(
    fresh: RunLoop,
    l: &mut RunLoop,
    event: LoopEvent,
    r: LoopStep,
    leaves: bool,
    key: Key,
)
    requires
        call_ensures(RunLoop::new, (), fresh),
        call_ensures(RunLoop::on_event, (l, event), r),
        call_ensures(quits, (key,), leaves),
    ensures
        !fresh.ended(),
        leaves <==> key == Key::Char('q') || key == Key::CtrlC,
        event == LoopEvent::Pressed(key) && leaves ==> r == (LoopStep::Leave {
            clean_up: !old(l).ended(),
        }),
        event == LoopEvent::Pressed(key) && !leaves ==> r is Redraw,
        event is Closed ==> r == (LoopStep::Leave { clean_up: false }) && final(l).ended(),
        event is Tick || event is Progress ==> r is Redraw,
        event == (LoopEvent::Progress { ends: true }) ==> final(l).ended(),
        old(l).ended() ==> final(l).ended(),
        event is Pressed || event is Tick || event == (LoopEvent::Progress { ends: false })
            ==> final(l).ended() == old(l).ended(),
{
}

} // verus!
