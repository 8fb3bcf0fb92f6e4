//! When a plan is accepted, and in which order its epics come.
use vstd::prelude::*;

use crate::app::StageEvent;
use crate::pipeline;
use crate::pipeline::accept_plan;
use crate::plan;
use crate::plan::{EpicModel, Plan, PlanError};
use crate::text;

verus! {

/// The position after `i` in a circle.
pub open spec fn next_in(c: Seq<int>, i: int) -> int {
    if i + 1 < c.len() {
        c[i + 1]
    } else {
        c[0]
    }
}

/// The epics at these positions depend on each other in a circle.
pub open spec fn circle(epics: Seq<EpicModel>, c: Seq<int>) -> bool {
    &&& c.len() > 0
    &&& forall|i: int| 0 <= i < c.len() ==> 0 <= #[trigger] c[i] < epics.len()
    &&& forall|i: int|
        0 <= i < c.len() ==> exists|k: int|
            0 <= k < epics[#[trigger] c[i]].depends_on.len()
                && #[trigger] epics[c[i]].depends_on[k] == epics[next_in(c, i)].id
}

/// The plan can be run: its ids differ, each dependency is an epic of it, and no
/// epics depend on each other in a circle.
pub open spec fn runnable(epics: Seq<EpicModel>) -> bool {
    &&& forall|i: int, j: int|
        0 <= i < j < epics.len() ==> (#[trigger] epics[i]).id != (#[trigger] epics[j]).id
    &&& forall|i: int, k: int|
        0 <= i < epics.len() && 0 <= k < epics[i].depends_on.len() ==> exists|j: int|
            0 <= j < epics.len() && (#[trigger] epics[j]).id == #[trigger] epics[i].depends_on[k]
    &&& forall|c: Seq<int>| !#[trigger] circle(epics, c)
}

proof fn lemma_circle(epics: Seq<EpicModel>, c: Seq<int>)
    ensures
        circle(epics, c) <==> plan::is_cycle(epics, c),
{
    if circle(epics, c) {
        assert forall|i: int| 0 <= i < c.len() - 1 implies plan::depends(
            epics,
            #[trigger] c[i],
            c[i + 1],
        ) by {
            let k = choose|k: int|
                0 <= k < epics[c[i]].depends_on.len() && #[trigger] epics[c[i]].depends_on[k]
                    == epics[next_in(c, i)].id;
            assert(epics[c[i]].depends_on.contains(epics[c[i + 1]].id));
            assert(0 <= c[i + 1] < epics.len());
        }
        let l = c.len() - 1;
        assert(c[l] == c.last());
        let k = choose|k: int|
            0 <= k < epics[c[l]].depends_on.len() && #[trigger] epics[c[l]].depends_on[k]
                == epics[next_in(c, l)].id;
        assert(epics[c.last()].depends_on.contains(epics[c[0]].id));
        assert(plan::depends(epics, c.last(), c[0]));
    }
    if plan::is_cycle(epics, c) {
        assert forall|i: int| 0 <= i < c.len() implies plan::depends(
            epics,
            #[trigger] c[i],
            next_in(c, i),
        ) by {
            if i == c.len() - 1 {
                assert(c[i] == c.last());
            }
        }
        assert forall|i: int| 0 <= i < c.len() implies exists|k: int|
            0 <= k < epics[#[trigger] c[i]].depends_on.len()
                && #[trigger] epics[c[i]].depends_on[k] == epics[next_in(c, i)].id by {
            assert(plan::depends(epics, c[i], next_in(c, i)));
            assert(epics[c[i]].depends_on.contains(epics[next_in(c, i)].id));
        }
    }
}

proof fn lemma_runnable(epics: Seq<EpicModel>)
    ensures
        runnable(epics) <==> plan::valid_plan(epics),
{
    let ids = plan::ids(epics);
    assert(ids.len() == epics.len());
    assert forall|x: Seq<char>| #[trigger] ids.contains(x) <==> exists|j: int|
        0 <= j < epics.len() && (#[trigger] epics[j]).id == x by {
        if ids.contains(x) {
            let j = choose|j: int| 0 <= j < ids.len() && ids[j] == x;
            assert(epics[j].id == x);
        }
        if exists|j: int| 0 <= j < epics.len() && (#[trigger] epics[j]).id == x {
            let j = choose|j: int| 0 <= j < epics.len() && (#[trigger] epics[j]).id == x;
            assert(ids[j] == x);
        }
    }
    assert forall|c: Seq<int>| #[trigger] circle(epics, c) <==> plan::is_cycle(epics, c) by {
        lemma_circle(epics, c);
    }
    if runnable(epics) {
        assert(plan::known_deps(epics)) by {
            assert forall|i: int, k: int|
                0 <= i < epics.len() && 0 <= k < epics[i].depends_on.len() implies ids.contains(
                #[trigger] epics[i].depends_on[k],
            ) by {}
        }
        assert(!plan::has_cycle(epics)) by {
            if plan::has_cycle(epics) {
                let c = choose|c: Seq<int>| plan::is_cycle(epics, c);
                assert(circle(epics, c));
            }
        }
    }
    if plan::valid_plan(epics) {
        assert forall|i: int, k: int|
            0 <= i < epics.len() && 0 <= k < epics[i].depends_on.len() implies exists|j: int|
            0 <= j < epics.len() && (#[trigger] epics[j]).id == #[trigger] epics[i].depends_on[k] by {
            assert(ids.contains(epics[i].depends_on[k]));
        }
        assert forall|c: Seq<int>| !#[trigger] circle(epics, c) by {
            if circle(epics, c) {
                assert(plan::is_cycle(epics, c));
            }
        }
    }
}

/// A plan is valid just where it can be run. Else the error says what is wrong
/// with it: an id that two epics have, a dependency that no epic is, or a
/// circle.
pub proof fn law_valid_plans_can_be_run(p: &Plan, r: Result<(), PlanError>)
    requires
        call_ensures(Plan::validate, (p,), r),
    ensures
        r is Ok <==> runnable(p@),
        r matches Err(PlanError::DuplicateEpic { id }) ==> exists|i: int, j: int|
            0 <= i < j < p@.len() && (#[trigger] p@[i]).id == id@ && (#[trigger] p@[j]).id == id@,
        r matches Err(PlanError::UnknownDependency { epic, dep }) ==> {
            &&& exists|i: int, k: int|
                0 <= i < p@.len() && 0 <= k < p@[i].depends_on.len() && p@[i].id == epic@
                    && #[trigger] p@[i].depends_on[k] == dep@
            &&& forall|j: int| 0 <= j < p@.len() ==> (#[trigger] p@[j]).id != dep@
        },
        r matches Err(PlanError::Cycle) ==> exists|c: Seq<int>| #[trigger] circle(p@, c),
        !(r matches Err(PlanError::MissingRepo { .. })) && !(r matches Err(
            PlanError::UnknownRepo { .. },
        )),
{
    let epics = p@;
    lemma_runnable(epics);
    assert(plan::ids(epics).len() == epics.len());
    match r {
        Err(PlanError::DuplicateEpic { id }) => {
            let j = choose|j: int| plan::first_repeat(epics, j) && epics[j].id == id@;
            let before = plan::ids(epics).take(j);
            let i = choose|i: int| 0 <= i < before.len() && before[i] == epics[j].id;
            assert(epics[i].id == id@ && epics[j].id == id@);
        },
        Err(PlanError::UnknownDependency { epic, dep }) => {
            let (i, k) = choose|i: int, k: int| #[trigger]
                plan::first_unknown(epics, i, k) && epics[i].id == epic@ && epics[i].depends_on[k]
                    == dep@;
            assert forall|j: int| 0 <= j < epics.len() implies (#[trigger] epics[j]).id != dep@ by {
                assert(plan::ids(epics)[j] == epics[j].id);
            }
            assert(epics[i].depends_on[k] == dep@);
        },
        Err(PlanError::Cycle) => {
            let c = choose|c: Seq<int>| plan::is_cycle(epics, c);
            lemma_circle(epics, c);
        },
        _ => {},
    }
}

/// At every place of the order comes the first epic, in plan order, that has not
/// come yet and whose dependencies all have.
pub open spec fn greedy(epics: Seq<EpicModel>, order: Seq<Seq<char>>) -> bool {
    forall|p: int| #![trigger order[p]] 0 <= p < order.len() ==> first_free(epics, order, p)
}

/// The id at place `p` is that of the first epic that is free there.
pub open spec fn first_free(epics: Seq<EpicModel>, order: Seq<Seq<char>>, p: int) -> bool {
    exists|e: int|
        {
            &&& 0 <= e < epics.len()
            &&& (#[trigger] epics[e]).id == order[p]
            &&& is_free(epics, order.take(p), e)
            &&& forall|f: int| 0 <= f < e ==> !#[trigger] is_free(epics, order.take(p), f)
        }
}

/// The epic has not come yet, and all its dependencies have.
pub open spec fn is_free(epics: Seq<EpicModel>, came: Seq<Seq<char>>, e: int) -> bool {
    &&& !came.contains(epics[e].id)
    &&& forall|k: int|
        0 <= k < epics[e].depends_on.len() ==> came.contains(#[trigger] epics[e].depends_on[k])
}

proof fn lemma_free(epics: Seq<EpicModel>, came: Seq<Seq<char>>, e: int)
    requires
        0 <= e < epics.len(),
        plan::unique_ids(epics),
    ensures
        is_free(epics, came, e) <==> plan::placeable(epics, came, e),
{
    plan::lemma_last_with_id(epics, epics[e].id);
    assert(plan::ids(epics)[e] == epics[e].id);
    assert(plan::ids(epics).contains(epics[e].id));
    let l = plan::last_with_id(epics, epics[e].id);
    assert(l == e) by {
        if l != e {
            assert(epics[l].id == epics[e].id);
        }
    }
    assert(plan::deps_of(epics, epics[e].id) == epics[e].depends_on);
}

proof fn lemma_greedy(epics: Seq<EpicModel>, placed: Seq<Seq<char>>)
    requires
        plan::unique_ids(epics),
        greedy(epics, placed),
        placed.len() <= epics.len(),
    ensures
        plan::order_from(epics, placed) matches Some(order) ==> greedy(epics, order),
    decreases epics.len() - placed.len(),
{
    if placed.len() < epics.len() && exists|i: int| plan::next_to_place(epics, placed, i) {
        let i = choose|i: int| plan::next_to_place(epics, placed, i);
        let next = placed.push(epics[i].id);
        assert forall|p: int| #![trigger next[p]] 0 <= p < next.len() implies first_free(
            epics,
            next,
            p,
        ) by {
            if p < placed.len() {
                assert(next.take(p) =~= placed.take(p));
                assert(first_free(epics, placed, p)) by {
                    assert(placed[p] == placed[p]);
                }
                assert(next[p] == placed[p]);
            } else {
                assert(next.take(p) =~= placed);
                lemma_free(epics, placed, i);
                assert forall|f: int| 0 <= f < i implies !#[trigger] is_free(
                    epics,
                    next.take(p),
                    f,
                ) by {
                    lemma_free(epics, placed, f);
                }
                assert(epics[i].id == next[p]);
            }
        }
        lemma_greedy(epics, next);
    }
}

/// The dependency order lists every epic of the plan once, and at every place
/// the first epic, in plan order, whose dependencies have all come. There is one
/// just where no epics depend on each other in a circle.
pub proof fn law_the_order_takes_the_first_free_epic(p: &Plan, r: Result<Vec<String>, PlanError>)
    requires
        call_ensures(Plan::topological_order, (p,), r),
    ensures
        r matches Ok(order) ==> {
            let ids = text::views(order@);
            &&& ids.len() == p@.len() && ids.no_duplicates()
            &&& forall|i: int| 0 <= i < p@.len() ==> ids.contains((#[trigger] p@[i]).id)
            &&& greedy(p@, ids)
        },
        r matches Err(e) ==> e is Cycle,
        runnable(p@) ==> r is Ok,
        (exists|c: Seq<int>| #[trigger] circle(p@, c)) ==> r is Err,
{
    let epics = p@;
    lemma_runnable(epics);
    match r {
        Ok(order) => {
            let ids = text::views(order@);
            plan::law_order_respects_dependencies(epics);
            lemma_greedy(epics, Seq::empty());
            assert forall|i: int| 0 <= i < epics.len() implies ids.contains(
                (#[trigger] epics[i]).id,
            ) by {
                assert(plan::ids(epics)[i] == epics[i].id);
                assert(plan::ids(epics).to_set().contains(epics[i].id));
                assert(ids.to_set().contains(epics[i].id));
            }
            assert(plan::known_deps(epics)) by {
                assert forall|i: int, k: int|
                    0 <= i < epics.len() && 0 <= k < epics[i].depends_on.len() implies plan::ids(
                    epics,
                ).contains(#[trigger] epics[i].depends_on[k]) by {
                    assert(ids.contains(epics[i].depends_on[k]));
                    assert(ids.to_set().contains(epics[i].depends_on[k]));
                    assert(plan::ids(epics).to_set().contains(epics[i].depends_on[k]));
                }
            }
            plan::law_order_fails_iff_cycle(epics);
            assert forall|c: Seq<int>| !#[trigger] circle(epics, c) by {
                lemma_circle(epics, c);
            }
        },
        Err(_) => {
            if runnable(epics) {
                plan::law_order_fails_iff_cycle(epics);
            }
        },
    }
}

/// Filling in a repository names it for every epic that has none and leaves
/// every other epic, and everything else of each epic, as it was.
pub proof fn law_filling_names_only_the_unnamed(p: &mut Plan, repo: &str, i: int)
    requires
        call_ensures(Plan::fill_missing_repo, (p, repo), ()),
        0 <= i < old(p)@.len(),
    ensures
        final(p)@.len() == old(p)@.len(),
        old(p)@[i].repo.len() == 0 ==> final(p)@[i].repo == repo@,
        old(p)@[i].repo.len() > 0 ==> final(p)@[i].repo == old(p)@[i].repo,
        final(p)@[i].id == old(p)@[i].id && final(p)@[i].title == old(p)@[i].title,
        final(p)@[i].depends_on == old(p)@[i].depends_on && final(p)@[i].tasks == old(p)@[i].tasks,
        final(p)@[i].acceptance == old(p)@[i].acceptance && final(p)@[i].verify == old(
            p,
        )@[i].verify,
{
}

/// The repositories of a plan are fine where every epic names one of them. Else
/// the error names the first epic that does not, and what it names.
pub proof fn law_every_epic_names_a_repository(
    p: &Plan,
    names: &Vec<String>,
    r: Result<(), PlanError>,
)
    requires
        call_ensures(Plan::validate_repos, (p, names), r),
    ensures
        r is Ok <==> forall|i: int|
            0 <= i < p@.len() ==> (#[trigger] p@[i]).repo.len() > 0 && text::views(names@).contains(
                p@[i].repo,
            ),
        r is Err ==> exists|i: int|
            {
                &&& 0 <= i < p@.len()
                &&& !((#[trigger] p@[i]).repo.len() > 0 && text::views(names@).contains(p@[i].repo))
                &&& forall|j: int|
                    0 <= j < i ==> (#[trigger] p@[j]).repo.len() > 0 && text::views(
                        names@,
                    ).contains(p@[j].repo)
                &&& p@[i].repo.len() == 0 ==> (r matches Err(PlanError::MissingRepo { epic })
                    && epic@ == p@[i].id)
                &&& p@[i].repo.len() > 0 ==> (r matches Err(PlanError::UnknownRepo { epic, repo })
                    && epic@ == p@[i].id && repo@ == p@[i].repo)
            },
{
    if r is Err {
        let i = choose|i: int| plan::first_unnamed(p@, text::views(names@), i);
        assert(!plan::repo_named(p@[i], text::views(names@)));
        assert forall|j: int| 0 <= j < i implies (#[trigger] p@[j]).repo.len() > 0 && text::views(
            names@,
        ).contains(p@[j].repo) by {
            assert(plan::repo_named(p@[j], text::views(names@)));
        }
        assert forall|k: int| #[trigger] plan::first_unnamed(p@, text::views(names@), k) implies k
            == i by {
            if k < i {
                assert(plan::repo_named(p@[k], text::views(names@)));
            }
            if i < k {
                assert(plan::repo_named(p@[i], text::views(names@)));
            }
        }
    } else {
        assert forall|i: int| 0 <= i < p@.len() implies (#[trigger] p@[i]).repo.len() > 0
            && text::views(names@).contains(p@[i].repo) by {
            assert(plan::repo_named(p@[i], text::views(names@)));
        }
    }
}

/// The repository that an epic is run in: its own, or the only one of the run.
pub open spec fn run_in(epic: EpicModel, names: Seq<Seq<char>>) -> Seq<char> {
    if epic.repo.len() == 0 && names.len() == 1 {
        names[0]
    } else {
        epic.repo
    }
}

/// A plan is accepted just where it can be run and every epic has a repository
/// of the run, its own or the only one. It is then told, epic by epic, and every
/// epic is as planned but for its repository.
pub proof fn law_accepted_plans_can_be_run(
    p: &mut Plan,
    names: &Vec<String>,
    r: Result<StageEvent, PlanError>,
    i: int,
)
    requires
        call_ensures(accept_plan, (p, names), r),
    ensures
        r is Ok <==> runnable(old(p)@) && forall|k: int|
            0 <= k < old(p)@.len() ==> run_in(#[trigger] old(p)@[k], text::views(names@)).len() > 0
                && text::views(names@).contains(run_in(old(p)@[k], text::views(names@))),
        r matches Ok(ev) ==> {
            &&& final(p)@.len() == old(p)@.len()
            &&& ev is PlanReady && ev->epics@.len() == old(p)@.len()
            &&& 0 <= i < old(p)@.len() ==> {
                let was = old(p)@[i];
                let is = final(p)@[i];
                let told = ev->epics@[i];
                &&& is == (EpicModel { repo: run_in(was, text::views(names@)), ..was })
                &&& told.id@ == was.id && told.title@ == was.title
                &&& text::views(told.depends_on@) == was.depends_on
            }
        },
        !runnable(old(p)@) ==> final(p)@ == old(p)@,
{
    let was = p@;
    let all = text::views(names@);
    lemma_runnable(was);
    let filled = pipeline::filled(was, all);
    assert(filled.len() == was.len());
    assert forall|k: int| 0 <= k < was.len() implies (#[trigger] filled[k]) == (EpicModel {
        repo: run_in(was[k], all),
        ..was[k]
    }) by {}
    match r {
        Ok(ev) => {
            assert forall|k: int| 0 <= k < was.len() implies run_in(#[trigger] was[k], all).len() > 0
                && all.contains(run_in(was[k], all)) by {
                assert(plan::repo_named(final(p)@[k], all));
                assert(filled[k].repo == run_in(was[k], all));
            }
            if 0 <= i < was.len() {
                assert(pipeline::is_meta(ev->epics@[i], final(p)@[i]));
                assert(filled[i].id == was[i].id);
            }
        },
        Err(PlanError::MissingRepo { .. }) => {
            let k = choose|k: int| plan::first_unnamed(filled, all, k);
            assert(!plan::repo_named(filled[k], all));
            assert(run_in(was[k], all) == filled[k].repo);
        },
        Err(PlanError::UnknownRepo { .. }) => {
            let k = choose|k: int| plan::first_unnamed(filled, all, k);
            assert(!plan::repo_named(filled[k], all));
            assert(run_in(was[k], all) == filled[k].repo);
        },
        Err(PlanError::DuplicateEpic { id }) => {
            let j = choose|j: int| plan::first_repeat(was, j) && was[j].id == id@;
            let before = plan::ids(was).take(j);
            let k = choose|k: int| 0 <= k < before.len() && before[k] == was[j].id;
            assert(was[k].id == was[j].id);
        },
        Err(PlanError::UnknownDependency { epic, dep }) => {
            let (a, k) = choose|a: int, k: int| #[trigger]
                plan::first_unknown(was, a, k) && was[a].id == epic@ && was[a].depends_on[k]
                    == dep@;
            assert(!plan::ids(was).contains(was[a].depends_on[k]));
        },
        Err(PlanError::Cycle) => {},
    }
}

/// The message that a plan is refused with names what is wrong.
pub proof fn law_plan_errors_name_what_is_wrong(e: &PlanError, r: String)
    requires
        call_ensures(PlanError::message, (e,), r),
    ensures
        *e matches PlanError::DuplicateEpic { id } ==> r@ == "duplicate epic id: "@ + id@,
        *e matches PlanError::UnknownDependency { epic, dep } ==> r@ == "epic "@ + epic@
            + " depends on unknown epic "@ + dep@,
        *e is Cycle ==> r@ == "dependency cycle detected in plan"@,
        *e matches PlanError::MissingRepo { epic } ==> r@ == "epic "@ + epic@ + " has no repo"@,
        *e matches PlanError::UnknownRepo { epic, repo } ==> r@ == "epic "@ + epic@
            + " names unknown repo "@ + repo@,
{
}

} // verus!
