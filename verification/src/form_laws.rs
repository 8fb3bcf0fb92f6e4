//! What the new-run form asks the server for, and what it shows.
use vstd::prelude::*;

use crate::app::{Language, Usd};
use crate::dto::WorkspaceDto;
use crate::new_run;
use crate::new_run::{
    normalize, workspace_from_states, BranchList, BranchStatus, FlowModel, FormAction, NewRunForm,
    RepoBranchState, Screen,
};
use crate::text;

verus! {

/// A blank input is unset; any other one is taken without the space around it.
pub proof fn law_blank_inputs_are_unset(value: &str, r: Option<String>)
    requires
        call_ensures(normalize, (value,), r),
    ensures
        r is None <==> text::trimmed(value@).len() == 0,
        r matches Some(s) ==> s@ == text::trimmed(value@),
{
}

/// The workspace that is submitted holds every repository of the form, with the
/// base and the integration branch that were chosen, each unset where it is
/// blank.
pub proof fn law_chosen_branches_are_submitted(
    name: &str,
    states: &Vec<RepoBranchState>,
    r: WorkspaceDto,
    i: int,
    base: &str,
    integration: &str,
    b: Option<String>,
    g: Option<String>,
)
    requires
        call_ensures(workspace_from_states, (name, states), r),
        0 <= i < states@.len(),
        base@ == states@[i].base@,
        integration@ == states@[i].integration@,
        call_ensures(normalize, (base,), b),
        call_ensures(normalize, (integration,), g),
    ensures
        r.name@ == name@,
        r.repos@.len() == states@.len(),
        r.repos@[i].name@ == states@[i].name@ && r.repos@[i].path@ == states@[i].path@,
        text::opt_view(r.repos@[i].base) == text::opt_view(b),
        text::opt_view(r.repos@[i].integration) == text::opt_view(g),
{
    let v = text::views(states@);
    assert(v.len() == states@.len());
    assert(v[i] == states@[i]@);
    assert(new_run::is_selected_repo(r@.repos[i], v[i]));
}

/// Submitting asks for a goal first, then for the workspace; then it asks for
/// questions where the goal is to be refined, and starts the run where not, with
/// the trimmed goal either way.
pub proof fn law_submits_refine_or_start(form: &mut NewRunForm, r: FormAction)
    requires
        call_ensures(NewRunForm::submit, (form,), r),
    ensures
        ({
            let m = old(form)@;
            let goal = text::trimmed(m.goal);
            let ready = goal.len() > 0 && m.workspace is Some;
            &&& goal.len() == 0 ==> final(form)@.flow == FlowModel::Error(
                "Enter a goal before starting."@,
            )
            &&& goal.len() > 0 && m.workspace is None ==> final(form)@.flow == FlowModel::Error(
                "The workspace is still loading."@,
            )
            &&& ready ==> final(form)@.flow == FlowModel::Submitting
            &&& r is Nothing <==> !ready
            &&& r is AskQuestions <==> ready && m.refine
            &&& r is Start <==> ready && !m.refine
            &&& r matches FormAction::AskQuestions { root, goal: g, language } ==> g@ == goal
                && language == m.language
            &&& r matches FormAction::Start(req) ==> {
                &&& req.goal@ == goal && req.language == m.language && req.refine_cost.bits == 0
                &&& req.workspace.name@ == m.workspace->0.name
                &&& req.workspace.repos@.len() == m.repos.len()
                &&& text::trimmed(m.verify).len() == 0 <==> req.verify is None
                &&& req.verify matches Some(cmd) ==> cmd@ == text::trimmed(m.verify)
            }
            &&& final(form)@.goal == m.goal && final(form)@.verify == m.verify && final(form)@.repos
                == m.repos && final(form)@.workspace == m.workspace
        }),
{
}

/// The questions come with the answers so far empty; without questions the goal
/// is to be confirmed; an error is shown. Everything typed stays.
pub proof fn law_questions_are_asked_or_the_goal_confirmed(
    form: &mut NewRunForm,
    reply: &Result<(String, Vec<String>, Usd), String>,
    i: int,
)
    requires
        call_ensures(NewRunForm::questions_ready, (form, reply), ()),
    ensures
        *reply matches Err(e) ==> final(form)@.flow == FlowModel::Error(e@),
        *reply matches Ok((goal, questions, cost)) ==> {
            &&& questions@.len() == 0 ==> final(form)@.flow == (FlowModel::Confirming {
                goal: goal@,
                cost,
            })
            &&& questions@.len() > 0 ==> (final(form)@.flow matches FlowModel::Answering {
                questions: asked,
                answers,
                refined_goal,
                cost: c,
            } && refined_goal == goal@ && c == cost && asked.len() == questions@.len()
                && answers.len() == questions@.len() && (0 <= i < questions@.len() ==> asked[i]
                == questions@[i]@ && answers[i].len() == 0))
        },
        final(form)@.goal == old(form)@.goal && final(form)@.repos == old(form)@.repos,
{
    match *reply {
        Ok((goal, questions, cost)) => {
            assert(text::views(questions@).len() == questions@.len());
            if 0 <= i < questions@.len() {
                assert(text::views(questions@)[i] == questions@[i]@);
            }
        },
        Err(_) => {},
    }
}

/// An answer is set at its place while questions are asked and nowhere else, and
/// going on sends every question with its answer, in their order.
pub proof fn law_answers_are_sent_with_their_questions(
    form: &mut NewRunForm,
    index: usize,
    value: &str,
    next: &mut NewRunForm,
    r: FormAction,
    i: int,
)
    requires
        call_ensures(NewRunForm::set_answer, (form, index, value), ()),
        call_ensures(NewRunForm::proceed, (next,), r),
    ensures
        !(old(form)@.flow is Answering) ==> final(form)@ == old(form)@,
        old(form)@.flow matches FlowModel::Answering { questions, answers, refined_goal, cost } ==> {
            &&& final(form)@.flow matches FlowModel::Answering {
                questions: q,
                answers: a,
                refined_goal: g,
                cost: c,
            } && q == questions && g == refined_goal && c == cost && a.len() == answers.len() && (0
                <= i < answers.len() && i != index ==> a[i] == answers[i]) && (index
                < answers.len() ==> a[index as int] == value@)
        },
        !(old(next)@.flow is Answering) ==> r is Nothing && final(next)@ == old(next)@,
        old(next)@.flow is Answering && old(next)@.workspace is None ==> r is Nothing
            && final(next)@.flow == FlowModel::Error("The workspace is still loading."@),
        old(next)@.flow matches FlowModel::Answering { questions, answers, refined_goal, cost } ==> (
        old(next)@.workspace is Some && questions.len() == answers.len() ==> {
            &&& final(next)@.flow == FlowModel::Submitting
            &&& r matches FormAction::Finalize { root, goal, answers: list, language, cost: c }
                && goal@ == text::trimmed(old(next)@.goal) && language == old(next)@.language && c
                == cost && list@.len() == questions.len() && (0 <= i < questions.len()
                ==> list@[i].0@ == questions[i] && list@[i].1@ == answers[i])
        }),
{
    match old(next)@.flow {
        FlowModel::Answering { questions, answers, refined_goal, cost } => {
            if next@.workspace is Some && questions.len() == answers.len() {
                match r {
                    FormAction::Finalize { root, goal, answers: list, language, cost: c } => {
                        let v = crate::config::answer_views(list@);
                        assert(v.len() == list@.len());
                        assert(new_run::pairs(questions, answers).len() == questions.len());
                        if 0 <= i < questions.len() {
                            assert(v[i] == (list@[i].0@, list@[i].1@));
                        }
                    },
                    _ => {},
                }
            }
        },
        _ => {},
    }
}

/// The final goal can be edited while it is confirmed. Planning then starts the
/// run with it and what refining it has cost.
pub proof fn law_the_confirmed_goal_is_run(
    form: &mut NewRunForm,
    reply: &Result<(String, Usd), String>,
    edit: &mut NewRunForm,
    value: &str,
    go: &mut NewRunForm,
    r: FormAction,
)
    requires
        call_ensures(NewRunForm::finalized, (form, reply), ()),
        call_ensures(NewRunForm::edit_goal, (edit, value), ()),
        call_ensures(NewRunForm::plan, (go,), r),
    ensures
        *reply matches Err(e) ==> final(form)@.flow == FlowModel::Error(e@),
        *reply matches Ok((goal, total)) ==> final(form)@.flow == (FlowModel::Confirming {
            goal: goal@,
            cost: total,
        }),
        !(old(edit)@.flow is Confirming) ==> final(edit)@ == old(edit)@,
        old(edit)@.flow matches FlowModel::Confirming { goal, cost } ==> final(edit)@.flow == (
        FlowModel::Confirming { goal: value@, cost }),
        !(old(go)@.flow is Confirming) ==> r is Nothing && final(go)@ == old(go)@,
        old(go)@.flow is Confirming && old(go)@.workspace is None ==> r is Nothing,
        old(go)@.flow matches FlowModel::Confirming { goal, cost } ==> (old(go)@.workspace is Some ==> {
            &&& final(go)@.flow == FlowModel::Submitting
            &&& r matches FormAction::Start(req) && req.goal@ == goal && req.refine_cost == cost
                && req.language == old(go)@.language && req.workspace.name@
                == old(go)@.workspace->0.name && req.workspace.repos@.len() == old(go)@.repos.len()
        }),
{
}

/// The form starts for its workspace with refining on, in English, with nothing
/// typed; what is typed and chosen is what it holds.
pub proof fn law_forms_hold_what_was_typed(
    name: &str,
    fresh: NewRunForm,
    a: &mut NewRunForm,
    b: &mut NewRunForm,
    c: &mut NewRunForm,
    d: &mut NewRunForm,
    value: &str,
)
    requires
        call_ensures(NewRunForm::new, (name,), fresh),
        call_ensures(NewRunForm::set_goal, (a, value), ()),
        call_ensures(NewRunForm::set_verify, (b, value), ()),
        call_ensures(NewRunForm::toggle_refine, (c,), ()),
        call_ensures(NewRunForm::set_language, (d, value), ()),
    ensures
        fresh@.name == name@ && fresh@.refine && fresh@.language == Language::English,
        fresh@.goal.len() == 0 && fresh@.verify.len() == 0 && fresh@.workspace is None
            && fresh@.load_error is None && fresh@.repos.len() == 0 && fresh@.flow
            == FlowModel::Editing,
        final(a)@.goal == value@ && final(a)@.verify == old(a)@.verify && final(a)@.repos
            == old(a)@.repos && final(a)@.flow == old(a)@.flow,
        final(b)@.verify == value@ && final(b)@.goal == old(b)@.goal && final(b)@.flow == old(b)@.flow,
        final(c)@.refine == !old(c)@.refine && final(c)@.goal == old(c)@.goal,
        value@ == "indonesian"@ ==> final(d)@.language == Language::Indonesian,
        value@ != "indonesian"@ ==> final(d)@.language == Language::English,
        final(d)@.goal == old(d)@.goal && final(d)@.refine == old(d)@.refine,
{
}

/// The branches of a repository are chosen for that repository alone.
pub proof fn law_branches_are_chosen_per_repository(
    a: &mut NewRunForm,
    b: &mut NewRunForm,
    index: usize,
    value: &str,
    k: int,
)
    requires
        call_ensures(NewRunForm::set_base, (a, index, value), ()),
        call_ensures(NewRunForm::set_integration, (b, index, value), ()),
        index < old(a)@.repos.len(),
        index < old(b)@.repos.len(),
    ensures
        final(a)@.repos.len() == old(a)@.repos.len() && final(b)@.repos.len() == old(b)@.repos.len(),
        final(a)@.repos[index as int].base == value@,
        final(a)@.repos[index as int].integration == old(a)@.repos[index as int].integration,
        final(b)@.repos[index as int].integration == value@,
        final(b)@.repos[index as int].base == old(b)@.repos[index as int].base,
        0 <= k < old(a)@.repos.len() && k != index ==> final(a)@.repos[k] == old(a)@.repos[k],
        0 <= k < old(b)@.repos.len() && k != index ==> final(b)@.repos[k] == old(b)@.repos[k],
{
}

/// Once the branches of a repository are listed, a base that was unset becomes
/// the current branch, else the first one; where they could not be listed it
/// becomes `HEAD`. A base that was set stays, and so does the integration branch.
pub proof fn law_listed_branches_fill_an_unset_base(
    form: &mut NewRunForm,
    index: usize,
    list: &Option<BranchList>,
)
    requires
        call_ensures(NewRunForm::branches_listed, (form, index, list), ()),
        index < old(form)@.repos.len(),
    ensures
        ({
            let was = old(form)@.repos[index as int];
            let is = final(form)@.repos[index as int];
            let unset = text::trimmed(was.base).len() == 0;
            &&& !unset ==> is.base == was.base
            &&& is.integration == was.integration && is.name == was.name && is.path == was.path
            &&& *list is None ==> is.status == BranchStatus::Failed
            &&& *list is None && unset ==> is.base == "HEAD"@
            &&& *list matches Some(l) ==> {
                &&& is.status == BranchStatus::Loaded
                &&& is.branches == text::views(l.branches@)
                &&& unset && l.current is Some ==> is.base == l.current->0@
                &&& unset && l.current is None && l.branches@.len() > 0 ==> is.base
                    == l.branches@[0]@
                &&& unset && l.current is None && l.branches@.len() == 0 ==> is.base.len() == 0
            }
        }),
        final(form)@.repos.len() == old(form)@.repos.len(),
{
}

/// A started run is shown at its own page; an error is shown in the form.
pub proof fn law_started_runs_are_shown(
    form: &mut NewRunForm,
    reply: &Result<String, String>,
    r: Option<String>,
)
    requires
        call_ensures(NewRunForm::launched, (form, reply), r),
    ensures
        *reply matches Ok(id) ==> r is Some && r->0@ == "/run/"@ + id@,
        *reply matches Err(e) ==> r is None && final(form)@.flow == FlowModel::Error(e@),
{
}

/// Which part of the page is up: an error of loading before anything, then the
/// loading, then what the flow is at. An error of the flow shows the form.
pub proof fn law_the_page_shows_where_the_form_stands(form: &NewRunForm, r: Screen)
    requires
        call_ensures(NewRunForm::screen, (form,), r),
    ensures
        ({
            let m = form@;
            let up = m.load_error is None && m.workspace is Some;
            &&& r is LoadError <==> m.load_error is Some
            &&& r is Loading <==> m.load_error is None && m.workspace is None
            &&& r is Form <==> up && (m.flow is Editing || m.flow is Error)
            &&& r is Submitting <==> up && m.flow is Submitting
            &&& r is Questions <==> up && m.flow is Answering
            &&& r is Confirmation <==> up && m.flow is Confirming
        }),
{
}

/// The first workspace of the form's name seeds the form: each repository with
/// its own base, unset where it has none, and its integration branch or
/// `agentic-integration`. Without such a workspace there is an error.
pub proof fn law_the_named_workspace_seeds_the_form(
    form: &mut NewRunForm,
    list: &Result<Vec<WorkspaceDto>, String>,
    i: int,
    k: int,
)
    requires
        call_ensures(NewRunForm::loaded, (form, list), ()),
    ensures
        *list matches Err(e) ==> final(form)@.load_error == Some(e@) && final(form)@.workspace
            == old(form)@.workspace,
        *list matches Ok(all) ==> {
            &&& (forall|j: int|
                0 <= j < all@.len() ==> (#[trigger] all@[j]).name@ != old(form)@.name)
                    ==> final(form)@.load_error
                    == Some("workspace '"@ + old(form)@.name + "' was not found"@)
            &&& 0 <= i < all@.len() && all@[i].name@ == old(form)@.name && (forall|j: int|
                0 <= j < i ==> (#[trigger] all@[j]).name@ != old(form)@.name) ==> {
                &&& final(form)@.workspace == Some(all@[i]@)
                &&& final(form)@.repos.len() == all@[i].repos@.len()
                &&& 0 <= k < all@[i].repos@.len() ==> {
                    let repo = all@[i].repos@[k];
                    let row = final(form)@.repos[k];
                    &&& row.name == repo.name@ && row.path == repo.path@
                    &&& repo.base is Some ==> row.base == repo.base->0@
                    &&& repo.base is None ==> row.base.len() == 0
                    &&& repo.integration is Some ==> row.integration == repo.integration->0@
                    &&& repo.integration is None ==> row.integration == "agentic-integration"@
                    &&& row.status == BranchStatus::Loading
                }
            }
        },
        final(form)@.goal == old(form)@.goal && final(form)@.verify == old(form)@.verify,
{
    match *list {
        Ok(all) => {
            let name = form@.name;
            assert forall|j: int| #[trigger] new_run::first_named(all@, name, j) && 0 <= i
                < all@.len() && all@[i].name@ == name && (forall|q: int|
                0 <= q < i ==> (#[trigger] all@[q]).name@ != name) implies j == i by {
                if j < i {
                    assert(all@[j].name@ != name);
                }
                if i < j {
                    assert(all@[i].name@ != name);
                }
            }
            if 0 <= i < all@.len() && all@[i].name@ == name && (forall|q: int|
                0 <= q < i ==> (#[trigger] all@[q]).name@ != name) {
                assert(new_run::first_named(all@, name, i));
            }
        },
        Err(_) => {},
    }
}

} // verus!
