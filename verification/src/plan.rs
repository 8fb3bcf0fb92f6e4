//! The plan model. A plan is a list of epics, each with tasks, acceptance
//! criteria, and dependencies on other epics.
use vstd::prelude::*;
use vstd::string::*;

use crate::text;
use crate::text::{clone_opt, clone_texts, contains_text, same};

verus! {

/// One task of an epic.
#[derive(Debug, PartialEq)]
pub struct Task {
    pub id: String,
    pub title: String,
    pub detail: String,
}

/// One epic of a plan.
#[derive(Debug, PartialEq)]
pub struct Epic {
    pub id: String,
    pub title: String,
    pub repo: String,
    pub verify: Option<String>,
    pub depends_on: Vec<String>,
    pub acceptance: Vec<String>,
    pub tasks: Vec<Task>,
}

/// A list of epics.
#[derive(Debug, PartialEq)]
pub struct Plan {
    pub epics: Vec<Epic>,
}

/// The content of a task.
#[verifier::ext_equal]
pub ghost struct TaskModel {
    pub id: Seq<char>,
    pub title: Seq<char>,
    pub detail: Seq<char>,
}

/// The content of an epic.
#[verifier::ext_equal]
pub ghost struct EpicModel {
    pub id: Seq<char>,
    pub title: Seq<char>,
    pub repo: Seq<char>,
    pub verify: Option<Seq<char>>,
    pub depends_on: Seq<Seq<char>>,
    pub acceptance: Seq<Seq<char>>,
    pub tasks: Seq<TaskModel>,
}

impl View for Task {
    type V = TaskModel;

    open spec fn view(&self) -> TaskModel {
        TaskModel { id: self.id@, title: self.title@, detail: self.detail@ }
    }
}

impl View for Epic {
    type V = EpicModel;

    open spec fn view(&self) -> EpicModel {
        EpicModel {
            id: self.id@,
            title: self.title@,
            repo: self.repo@,
            verify: text::opt_view(self.verify),
            depends_on: text::views(self.depends_on@),
            acceptance: text::views(self.acceptance@),
            tasks: text::views(self.tasks@),
        }
    }
}

impl View for Plan {
    type V = Seq<EpicModel>;

    open spec fn view(&self) -> Seq<EpicModel> {
        text::views(self.epics@)
    }
}

impl Clone for Task {
    fn clone(&self) -> (r: Task)
        ensures
            r@ == self@,
    {
        Task { id: self.id.clone(), title: self.title.clone(), detail: self.detail.clone() }
    }
}

impl Clone for Epic {
    fn clone(&self) -> (r: Epic)
        ensures
            r@ == self@,
    {
        let mut tasks: Vec<Task> = Vec::new();
        let mut i: usize = 0;
        while i < self.tasks.len()
            invariant
                i <= self.tasks@.len(),
                text::views(tasks@) == text::views(self.tasks@).take(i as int),
            decreases self.tasks@.len() - i,
        {
            let ghost before = tasks@;
            tasks.push(self.tasks[i].clone());
            i = i + 1;
            assert(text::views(tasks@) =~= text::views(before).push(self.tasks@[i - 1]@));
            assert(text::views(tasks@) =~= text::views(self.tasks@).take(i as int));
        }
        assert(text::views(self.tasks@).take(i as int) =~= text::views(self.tasks@));
        Epic {
            id: self.id.clone(),
            title: self.title.clone(),
            repo: self.repo.clone(),
            verify: clone_opt(&self.verify),
            depends_on: clone_texts(&self.depends_on),
            acceptance: clone_texts(&self.acceptance),
            tasks,
        }
    }
}

impl Clone for Plan {
    fn clone(&self) -> (r: Plan)
        ensures
            r@ == self@,
    {
        let mut epics: Vec<Epic> = Vec::new();
        let mut i: usize = 0;
        while i < self.epics.len()
            invariant
                i <= self.epics@.len(),
                text::views(epics@) == self@.take(i as int),
            decreases self.epics@.len() - i,
        {
            let ghost before = epics@;
            epics.push(self.epics[i].clone());
            i = i + 1;
            assert(text::views(epics@) =~= text::views(before).push(self.epics@[i - 1]@));
            assert(text::views(epics@) =~= self@.take(i as int));
        }
        assert(self@.take(i as int) =~= self@);
        Plan { epics }
    }
}

/// Why a plan is refused.
#[derive(Debug, PartialEq)]
pub enum PlanError {
    DuplicateEpic { id: String },
    UnknownDependency { epic: String, dep: String },
    Cycle,
    MissingRepo { epic: String },
    UnknownRepo { epic: String, repo: String },
}

impl PlanError {
    /// The text of the message.
    pub open spec fn text(self) -> Seq<char> {
        match self {
            PlanError::DuplicateEpic { id } => "duplicate epic id: "@ + id@,
            PlanError::UnknownDependency { epic, dep } => "epic "@ + epic@
                + " depends on unknown epic "@ + dep@,
            PlanError::Cycle => "dependency cycle detected in plan"@,
            PlanError::MissingRepo { epic } => "epic "@ + epic@ + " has no repo"@,
            PlanError::UnknownRepo { epic, repo } => "epic "@ + epic@ + " names unknown repo "@
                + repo@,
        }
    }

    /// A human-readable message.
    pub fn message(&self) -> (r: String)
        ensures
            r@ == self.text(),
    {
        match self {
            PlanError::DuplicateEpic { id } => "duplicate epic id: ".to_string().concat(id.as_str()),
            PlanError::UnknownDependency { epic, dep } => "epic ".to_string().concat(
                epic.as_str(),
            ).concat(" depends on unknown epic ").concat(dep.as_str()),
            PlanError::Cycle => "dependency cycle detected in plan".to_string(),
            PlanError::MissingRepo { epic } => "epic ".to_string().concat(epic.as_str()).concat(
                " has no repo",
            ),
            PlanError::UnknownRepo { epic, repo } => "epic ".to_string().concat(
                epic.as_str(),
            ).concat(" names unknown repo ").concat(repo.as_str()),
        }
    }
}

/// The ids of the epics, in plan order.
pub open spec fn ids(epics: Seq<EpicModel>) -> Seq<Seq<char>> {
    Seq::new(epics.len(), |i: int| epics[i].id)
}

/// No two epics share an id.
pub open spec fn unique_ids(epics: Seq<EpicModel>) -> bool {
    forall|i: int, j: int| 0 <= i < j < epics.len() ==> #[trigger] epics[i].id != #[trigger] epics[j].id
}

/// Every dependency names an epic of the plan.
pub open spec fn known_deps(epics: Seq<EpicModel>) -> bool {
    forall|i: int, k: int|
        0 <= i < epics.len() && 0 <= k < epics[i].depends_on.len() ==> ids(epics).contains(
            #[trigger] epics[i].depends_on[k],
        )
}

/// Epic `i` is the first whose id an earlier epic has.
pub open spec fn first_repeat(epics: Seq<EpicModel>, i: int) -> bool {
    &&& 0 <= i < epics.len()
    &&& unique_ids(epics.take(i))
    &&& ids(epics).take(i).contains(epics[i].id)
}

/// Dependency `k` of epic `i` is the first that names no epic of the plan.
pub open spec fn first_unknown(epics: Seq<EpicModel>, i: int, k: int) -> bool {
    &&& 0 <= i < epics.len()
    &&& 0 <= k < epics[i].depends_on.len()
    &&& !ids(epics).contains(epics[i].depends_on[k])
    &&& forall|a: int, b: int|
        0 <= a <= i && 0 <= b < epics[a].depends_on.len() && (a < i || b < k) ==> ids(
            epics,
        ).contains(#[trigger] epics[a].depends_on[b])
}

/// The position of the last epic with the id, or -1.
pub open spec fn last_with_id(epics: Seq<EpicModel>, id: Seq<char>) -> int
    decreases epics.len(),
{
    if epics.len() == 0 {
        -1
    } else if epics.last().id == id {
        epics.len() - 1
    } else {
        last_with_id(epics.drop_last(), id)
    }
}

/// The dependencies recorded under an id: those of the last epic that has it.
pub open spec fn deps_of(epics: Seq<EpicModel>, id: Seq<char>) -> Seq<Seq<char>> {
    epics[last_with_id(epics, id)].depends_on
}

/// Every dependency recorded under the id is placed.
pub open spec fn deps_placed(
    epics: Seq<EpicModel>,
    id: Seq<char>,
    placed: Seq<Seq<char>>,
) -> bool {
    forall|k: int|
        0 <= k < deps_of(epics, id).len() ==> placed.contains(#[trigger] deps_of(epics, id)[k])
}

/// Epic `i` is not placed yet, and all its dependencies are.
pub open spec fn placeable(epics: Seq<EpicModel>, placed: Seq<Seq<char>>, i: int) -> bool {
    &&& 0 <= i < epics.len()
    &&& !placed.contains(epics[i].id)
    &&& deps_placed(epics, epics[i].id, placed)
}

/// Epic `i` is the first placeable one in plan order.
pub open spec fn next_to_place(epics: Seq<EpicModel>, placed: Seq<Seq<char>>, i: int) -> bool {
    placeable(epics, placed, i) && forall|j: int| 0 <= j < i ==> !placeable(epics, placed, j)
}

/// The order that results from placing, again and again, the first placeable
/// epic in plan order; none if at some point no epic is placeable.
pub open spec fn order_from(epics: Seq<EpicModel>, placed: Seq<Seq<char>>) -> Option<
    Seq<Seq<char>>,
>
    decreases epics.len() - placed.len(),
{
    if placed.len() >= epics.len() {
        Some(placed)
    } else if exists|i: int| next_to_place(epics, placed, i) {
        let i = choose|i: int| next_to_place(epics, placed, i);
        order_from(epics, placed.push(epics[i].id))
    } else {
        None
    }
}

/// The dependency order of a plan.
pub open spec fn plan_order(epics: Seq<EpicModel>) -> Option<Seq<Seq<char>>> {
    order_from(epics, Seq::empty())
}

/// Epic `a` depends directly on epic `b`.
pub open spec fn depends(epics: Seq<EpicModel>, a: int, b: int) -> bool {
    &&& 0 <= a < epics.len()
    &&& 0 <= b < epics.len()
    &&& epics[a].depends_on.contains(epics[b].id)
}

/// The epics at these positions form a cycle: each depends on the next, and
/// the last on the first.
pub open spec fn is_cycle(epics: Seq<EpicModel>, c: Seq<int>) -> bool {
    &&& c.len() > 0
    &&& forall|i: int| 0 <= i < c.len() - 1 ==> depends(epics, #[trigger] c[i], c[i + 1])
    &&& depends(epics, c.last(), c[0])
}

/// Some epics of the plan depend on each other in a circle.
pub open spec fn has_cycle(epics: Seq<EpicModel>) -> bool {
    exists|c: Seq<int>| is_cycle(epics, c)
}

/// The plan's ids are unique, its dependencies exist, and no cycle is in it.
pub open spec fn valid_plan(epics: Seq<EpicModel>) -> bool {
    unique_ids(epics) && known_deps(epics) && !has_cycle(epics)
}

/// The last epic with an id that occurs has that id.
pub proof fn lemma_last_with_id(epics: Seq<EpicModel>, id: Seq<char>)
    ensures
        -1 <= last_with_id(epics, id) < epics.len(),
        last_with_id(epics, id) >= 0 ==> epics[last_with_id(epics, id)].id == id,
        forall|i: int| last_with_id(epics, id) < i < epics.len() ==> epics[i].id != id,
        ids(epics).contains(id) ==> last_with_id(epics, id) >= 0,
    decreases epics.len(),
{
    if epics.len() > 0 && epics.last().id != id {
        lemma_last_with_id(epics.drop_last(), id);
        assert forall|i: int| last_with_id(epics, id) < i < epics.len() implies epics[i].id
            != id by {
            if i < epics.len() - 1 {
                assert(epics[i] == epics.drop_last()[i]);
            }
        }
        if ids(epics).contains(id) {
            let i = choose|i: int| 0 <= i < ids(epics).len() && ids(epics)[i] == id;
            assert(epics[i].id == id);
            assert(ids(epics.drop_last())[i] == id);
        }
    }
}

/// How the ids and the last epic of each id change when an epic is added.
pub proof fn lemma_push_epic(epics: Seq<EpicModel>, epic: EpicModel)
    ensures
        ids(epics.push(epic)) == ids(epics).push(epic.id),
        forall|id: Seq<char>| #[trigger]
            ids(epics.push(epic)).contains(id) == (ids(epics).contains(id) || id == epic.id),
        forall|id: Seq<char>| #[trigger]
            last_with_id(epics.push(epic), id) == if id == epic.id {
                epics.len() as int
            } else {
                last_with_id(epics, id)
            },
{
    let b = epics.push(epic);
    assert(ids(b) =~= ids(epics).push(epic.id));
    assert forall|id: Seq<char>| #[trigger] ids(b).contains(id) == (ids(epics).contains(id) || id
        == epic.id) by {
        if ids(epics).contains(id) {
            let j = choose|j: int| 0 <= j < ids(epics).len() && ids(epics)[j] == id;
            assert(ids(b)[j] == id);
        }
        if id == epic.id {
            assert(ids(b)[epics.len() as int] == id);
        }
        if ids(b).contains(id) && id != epic.id {
            let j = choose|j: int| 0 <= j < ids(b).len() && ids(b)[j] == id;
            assert(ids(epics)[j] == id);
        }
    }
    assert(b.last() == epic);
    assert(b.drop_last() =~= epics);
}

proof fn lemma_unique_deps(epics: Seq<EpicModel>, i: int)
    requires
        unique_ids(epics),
        0 <= i < epics.len(),
    ensures
        deps_of(epics, epics[i].id) == epics[i].depends_on,
{
    lemma_last_with_id(epics, epics[i].id);
    assert(ids(epics)[i] == epics[i].id);
    let l = last_with_id(epics, epics[i].id);
    if l < i {
        assert(epics[l].id != epics[i].id);
    } else if i < l {
        assert(epics[i].id != epics[l].id);
    }
}

/// What a sequence of placed ids keeps: the ids are distinct ids of the plan,
/// each after the dependencies recorded under it.
pub open spec fn well_placed(epics: Seq<EpicModel>, placed: Seq<Seq<char>>) -> bool {
    &&& placed.no_duplicates()
    &&& forall|p: int| 0 <= p < placed.len() ==> ids(epics).contains(#[trigger] placed[p])
    &&& forall|p: int| 0 <= p < placed.len() ==> deps_placed(
        epics,
        #[trigger] placed[p],
        placed.take(p),
    )
}

proof fn lemma_place(epics: Seq<EpicModel>, placed: Seq<Seq<char>>, i: int)
    requires
        well_placed(epics, placed),
        placeable(epics, placed, i),
    ensures
        well_placed(epics, placed.push(epics[i].id)),
{
    let next = placed.push(epics[i].id);
    assert(ids(epics)[i] == epics[i].id);
    assert forall|p: int| 0 <= p < next.len() implies deps_placed(
        epics,
        #[trigger] next[p],
        next.take(p),
    ) by {
        if p < placed.len() {
            assert(next[p] == placed[p]);
            assert(next.take(p) =~= placed.take(p));
        } else {
            assert(next.take(p) =~= placed);
        }
    }
}

proof fn lemma_order_from(epics: Seq<EpicModel>, placed: Seq<Seq<char>>)
    requires
        well_placed(epics, placed),
        placed.len() <= epics.len(),
    ensures
        order_from(epics, placed) matches Some(order) ==> {
            &&& well_placed(epics, order)
            &&& order.len() == epics.len()
        },
    decreases epics.len() - placed.len(),
{
    if placed.len() < epics.len() && exists|i: int| next_to_place(epics, placed, i) {
        let i = choose|i: int| next_to_place(epics, placed, i);
        lemma_place(epics, placed, i);
        lemma_order_from(epics, placed.push(epics[i].id));
    }
}

/// A dependency order lists the ids of the plan, each exactly once, and each
/// after everything that the epic depends on.
pub proof fn law_order_respects_dependencies(epics: Seq<EpicModel>)
    requires
        plan_order(epics) is Some,
    ensures
        plan_order(epics)->0.no_duplicates(),
        plan_order(epics)->0.len() == epics.len(),
        plan_order(epics)->0.to_set() == ids(epics).to_set(),
        forall|i: int, k: int|
            0 <= i < epics.len() && 0 <= k < epics[i].depends_on.len() ==> {
                let order = plan_order(epics)->0;
                order.contains(#[trigger] epics[i].depends_on[k]) && order.index_of(
                    epics[i].depends_on[k],
                ) < order.index_of(epics[i].id)
            },
        unique_ids(epics),
{
    let order = plan_order(epics)->0;
    assert(well_placed(epics, Seq::<Seq<char>>::empty()));
    lemma_order_from(epics, Seq::empty());
    lemma_order_covers(epics, order);
    assert forall|i: int, k: int|
        0 <= i < epics.len() && 0 <= k < epics[i].depends_on.len() implies {
        order.contains(#[trigger] epics[i].depends_on[k]) && order.index_of(
            epics[i].depends_on[k],
        ) < order.index_of(epics[i].id)
    } by {
        let id = epics[i].id;
        let dep = epics[i].depends_on[k];
        assert(ids(epics)[i] == id);
        assert(order.contains(id)) by {
            assert(ids(epics).to_set().contains(id));
            assert(order.to_set().contains(id));
        }
        let p = order.index_of(id);
        assert(order[p] == id);
        lemma_unique_deps(epics, i);
        assert(deps_placed(epics, order[p], order.take(p)));
        assert(order.take(p).contains(deps_of(epics, id)[k]));
        let q = choose|q: int| 0 <= q < p && order.take(p)[q] == dep;
        assert(order[q] == dep);
        assert(order.contains(dep));
        let q2 = order.index_of(dep);
        assert(order[q2] == dep);
        assert(q2 == q);
    }
}

proof fn lemma_order_covers(epics: Seq<EpicModel>, order: Seq<Seq<char>>)
    requires
        well_placed(epics, order),
        order.len() == epics.len(),
    ensures
        order.to_set() == ids(epics).to_set(),
        unique_ids(epics),
{
    let n = epics.len();
    order.unique_seq_to_set();
    ids(epics).lemma_cardinality_of_set();
    assert(order.to_set().subset_of(ids(epics).to_set())) by {
        assert forall|x: Seq<char>| order.to_set().contains(x) implies ids(epics).to_set().contains(
            x,
        ) by {
            let p = choose|p: int| 0 <= p < order.len() && order[p] == x;
            assert(ids(epics).contains(order[p]));
        }
    }
    vstd::set_lib::lemma_len_subset(order.to_set(), ids(epics).to_set());
    vstd::set_lib::lemma_subset_equality(order.to_set(), ids(epics).to_set());
    ids(epics).lemma_no_dup_set_cardinality();
    assert forall|i: int, j: int| 0 <= i < j < epics.len() implies #[trigger] epics[i].id
        != #[trigger] epics[j].id by {
        assert(ids(epics)[i] == epics[i].id);
        assert(ids(epics)[j] == epics[j].id);
    }
}

/// A walk along dependencies that stays among the epics not placed yet.
spec fn stuck_walk(epics: Seq<EpicModel>, placed: Seq<Seq<char>>, start: int, k: nat) -> int
    decreases k,
{
    if k == 0 {
        start
    } else {
        let a = stuck_walk(epics, placed, start, (k - 1) as nat);
        choose|b: int| depends(epics, a, b) && !placed.contains(epics[b].id)
    }
}

proof fn lemma_stuck_walk(epics: Seq<EpicModel>, placed: Seq<Seq<char>>, start: int, k: nat)
    requires
        unique_ids(epics),
        known_deps(epics),
        forall|i: int| !placeable(epics, placed, i),
        0 <= start < epics.len(),
        !placed.contains(epics[start].id),
    ensures
        0 <= stuck_walk(epics, placed, start, k) < epics.len(),
        !placed.contains(epics[stuck_walk(epics, placed, start, k)].id),
        k > 0 ==> depends(
            epics,
            stuck_walk(epics, placed, start, (k - 1) as nat),
            stuck_walk(epics, placed, start, k),
        ),
    decreases k,
{
    if k > 0 {
        lemma_stuck_walk(epics, placed, start, (k - 1) as nat);
        let a = stuck_walk(epics, placed, start, (k - 1) as nat);
        lemma_unique_deps(epics, a);
        assert(!placeable(epics, placed, a));
        let d = choose|d: int|
            0 <= d < epics[a].depends_on.len() && !placed.contains(
                #[trigger] epics[a].depends_on[d],
            );
        let dep = epics[a].depends_on[d];
        assert(ids(epics).contains(dep));
        let b = choose|b: int| 0 <= b < ids(epics).len() && ids(epics)[b] == dep;
        assert(epics[b].id == dep);
        assert(depends(epics, a, b) && !placed.contains(epics[b].id));
    }
}

/// Among more positions than there are values, two hold the same value.
proof fn lemma_pigeonhole(s: Seq<int>, n: int) -> (pair: (int, int))
    requires
        0 <= n < s.len(),
        forall|i: int| 0 <= i < s.len() ==> 0 <= #[trigger] s[i] < n,
    ensures
        0 <= pair.0 < pair.1 < s.len(),
        s[pair.0] == s[pair.1],
{
    if s.no_duplicates() {
        s.unique_seq_to_set();
        let range = vstd::set_lib::set_int_range(0, n);
        vstd::set_lib::lemma_int_range(0, n);
        assert(s.to_set().subset_of(range)) by {
            assert forall|x: int| s.to_set().contains(x) implies range.contains(x) by {
                let i = choose|i: int| 0 <= i < s.len() && s[i] == x;
                assert(0 <= s[i] < n);
            }
        }
        vstd::set_lib::lemma_len_subset(s.to_set(), range);
        assert(false);
    }
    let (a, b) = choose|a: int, b: int|
        0 <= a < s.len() && 0 <= b < s.len() && a != b && #[trigger] s[a] == #[trigger] s[b];
    if a < b {
        (a, b)
    } else {
        (b, a)
    }
}

proof fn lemma_stuck_has_cycle(epics: Seq<EpicModel>, placed: Seq<Seq<char>>)
    requires
        unique_ids(epics),
        known_deps(epics),
        placed.len() < epics.len(),
        forall|i: int| !placeable(epics, placed, i),
    ensures
        has_cycle(epics),
{
    // some epic is not placed
    assert(exists|i: int| 0 <= i < epics.len() && !placed.contains(epics[i].id)) by {
        if forall|i: int| 0 <= i < epics.len() ==> placed.contains(epics[i].id) {
            assert(ids(epics).no_duplicates()) by {
                assert forall|i: int, j: int|
                    0 <= i < ids(epics).len() && 0 <= j < ids(epics).len() && i != j implies ids(
                    epics,
                )[i] != ids(epics)[j] by {
                    assert(ids(epics)[i] == epics[i].id);
                    assert(ids(epics)[j] == epics[j].id);
                    if i < j {
                        assert(epics[i].id != epics[j].id);
                    } else {
                        assert(epics[j].id != epics[i].id);
                    }
                }
            }
            ids(epics).unique_seq_to_set();
            placed.lemma_cardinality_of_set();
            assert(ids(epics).to_set().subset_of(placed.to_set())) by {
                assert forall|x: Seq<char>| ids(epics).to_set().contains(x) implies
                    placed.to_set().contains(x) by {
                    let i = choose|i: int| 0 <= i < ids(epics).len() && ids(epics)[i] == x;
                    assert(placed.contains(epics[i].id));
                }
            }
            vstd::set_lib::lemma_len_subset(ids(epics).to_set(), placed.to_set());
        }
    }
    let start = choose|i: int| 0 <= i < epics.len() && !placed.contains(epics[i].id);
    let n = epics.len() as int;
    let walk = Seq::new((n + 1) as nat, |k: int| stuck_walk(epics, placed, start, k as nat));
    assert forall|k: int| 0 <= k < walk.len() implies 0 <= #[trigger] walk[k] < n by {
        lemma_stuck_walk(epics, placed, start, k as nat);
    }
    let (a, b) = lemma_pigeonhole(walk, n);
    let c = walk.subrange(a, b);
    assert forall|i: int| 0 <= i < c.len() - 1 implies depends(epics, #[trigger] c[i], c[i + 1]) by {
        lemma_stuck_walk(epics, placed, start, (a + i + 1) as nat);
        assert(c[i] == walk[a + i]);
        assert(c[i + 1] == walk[a + i + 1]);
    }
    lemma_stuck_walk(epics, placed, start, b as nat);
    assert(c.last() == walk[b - 1]);
    assert(c[0] == walk[a]);
    assert(is_cycle(epics, c));
}

proof fn lemma_no_order_cycle(epics: Seq<EpicModel>, placed: Seq<Seq<char>>)
    requires
        unique_ids(epics),
        known_deps(epics),
        placed.len() <= epics.len(),
        order_from(epics, placed) is None,
    ensures
        has_cycle(epics),
    decreases epics.len() - placed.len(),
{
    if exists|i: int| next_to_place(epics, placed, i) {
        let i = choose|i: int| next_to_place(epics, placed, i);
        lemma_no_order_cycle(epics, placed.push(epics[i].id));
    } else {
        assert forall|i: int| !placeable(epics, placed, i) by {
            if placeable(epics, placed, i) {
                lemma_first_placeable(epics, placed, i);
            }
        }
        lemma_stuck_has_cycle(epics, placed);
    }
}

proof fn lemma_first_placeable(epics: Seq<EpicModel>, placed: Seq<Seq<char>>, i: int)
    requires
        placeable(epics, placed, i),
    ensures
        exists|j: int| next_to_place(epics, placed, j),
    decreases i,
{
    if exists|j: int| 0 <= j < i && placeable(epics, placed, j) {
        let j = choose|j: int| 0 <= j < i && placeable(epics, placed, j);
        lemma_first_placeable(epics, placed, j);
    } else {
        assert(next_to_place(epics, placed, i));
    }
}

proof fn lemma_cycle_positions(epics: Seq<EpicModel>, c: Seq<int>, i: int)
    requires
        plan_order(epics) is Some,
        is_cycle(epics, c),
        0 <= i < c.len(),
    ensures
        plan_order(epics)->0.index_of(epics[c[i]].id) + i <= plan_order(epics)->0.index_of(
            epics[c[0]].id,
        ),
    decreases i,
{
    if i > 0 {
        lemma_cycle_positions(epics, c, i - 1);
        lemma_step_down(epics, c[i - 1], c[i - 1 + 1]);
    }
}

proof fn lemma_step_down(epics: Seq<EpicModel>, a: int, b: int)
    requires
        plan_order(epics) is Some,
        depends(epics, a, b),
    ensures
        plan_order(epics)->0.index_of(epics[b].id) < plan_order(epics)->0.index_of(epics[a].id),
{
    law_order_respects_dependencies(epics);
    let k = choose|k: int|
        0 <= k < epics[a].depends_on.len() && epics[a].depends_on[k] == epics[b].id;
    assert(epics[a].depends_on[k] == epics[b].id);
}

/// Ordering a plan whose ids are unique and whose dependencies exist fails if
/// and only if some of its epics depend on each other in a circle.
pub proof fn law_order_fails_iff_cycle(epics: Seq<EpicModel>)
    requires
        unique_ids(epics),
        known_deps(epics),
    ensures
        plan_order(epics) is None <==> has_cycle(epics),
{
    if plan_order(epics) is None {
        lemma_no_order_cycle(epics, Seq::empty());
    } else if has_cycle(epics) {
        let c = choose|c: Seq<int>| is_cycle(epics, c);
        lemma_cycle_positions(epics, c, c.len() - 1);
        lemma_step_down(epics, c.last(), c[0]);
    }
}

impl Plan {
    /// The position of the last epic with the id.
    pub fn last_index(&self, id: &str) -> (r: usize)
        requires
            ids(self@).contains(id@),
        ensures
            r == last_with_id(self@, id@),
            r < self.epics@.len(),
    {
        let mut i: usize = self.epics.len();
        proof {
            lemma_last_with_id(self@, id@);
            assert(self@.take(i as int) =~= self@);
        }
        while i > 0
            invariant
                i <= self.epics@.len(),
                last_with_id(self@, id@) == last_with_id(self@.take(i as int), id@),
                last_with_id(self@, id@) >= 0,
            decreases i,
        {
            assert(self@.take(i as int).last() == self.epics@[i - 1]@);
            if same(self.epics[i - 1].id.as_str(), id) {
                return i - 1;
            }
            assert(self@.take(i as int).drop_last() =~= self@.take(i - 1));
            i = i - 1;
        }
        assert(last_with_id(self@.take(0), id@) == -1);
        0
    }

    /// The position of the first epic with the id.
    pub fn first_index(&self, id: &str) -> (r: Option<usize>)
        ensures
            match r {
                Some(i) => i < self.epics@.len() && self@[i as int].id == id@ && !ids(self@).take(
                    i as int,
                ).contains(id@),
                None => !ids(self@).contains(id@),
            },
    {
        let mut i: usize = 0;
        while i < self.epics.len()
            invariant
                i <= self.epics@.len(),
                !ids(self@).take(i as int).contains(id@),
            decreases self.epics@.len() - i,
        {
            if same(self.epics[i].id.as_str(), id) {
                return Some(i);
            }
            assert(ids(self@).take(i + 1) =~= ids(self@).take(i as int).push(self@[i as int].id));
            i = i + 1;
        }
        assert(ids(self@).take(i as int) =~= ids(self@));
        None
    }

    fn is_placeable(&self, placed: &Vec<String>, i: usize) -> (r: bool)
        requires
            i < self.epics@.len(),
        ensures
            r == placeable(self@, text::views(placed@), i as int),
    {
        let id: &str = self.epics[i].id.as_str();
        if contains_text(placed, id) {
            return false;
        }
        assert(ids(self@)[i as int] == id@);
        let l = self.last_index(id);
        let deps = &self.epics[l].depends_on;
        assert(text::views(deps@) == deps_of(self@, id@));
        let mut k: usize = 0;
        while k < deps.len()
            invariant
                k <= deps@.len(),
                text::views(deps@) == deps_of(self@, id@),
                id@ == self@[i as int].id,
                i < self.epics@.len(),
                forall|j: int|
                    0 <= j < k ==> text::views(placed@).contains(
                        #[trigger] deps_of(self@, id@)[j],
                    ),
            decreases deps@.len() - k,
        {
            assert(deps_of(self@, id@)[k as int] == deps@[k as int]@);
            if !contains_text(placed, deps[k].as_str()) {
                return false;
            }
            k = k + 1;
        }
        true
    }

    /// Return epic ids in dependency order (each epic after all its deps).
    /// Ties break by the order epics appear in the plan, for determinism.
    pub fn topological_order(&self) -> (r: Result<Vec<String>, PlanError>)
        ensures
            match r {
                Ok(order) => plan_order(self@) == Some(text::views(order@)),
                Err(e) => plan_order(self@) is None && e is Cycle,
            },
    {
        let mut order: Vec<String> = Vec::new();
        assert(text::views(order@) =~= Seq::<Seq<char>>::empty());
        while order.len() < self.epics.len()
            invariant
                order@.len() <= self.epics@.len(),
                plan_order(self@) == order_from(self@, text::views(order@)),
            decreases self.epics@.len() - order@.len(),
        {
            let mut i: usize = 0;
            while i < self.epics.len() && !self.is_placeable(&order, i)
                invariant
                    i <= self.epics@.len(),
                    forall|j: int|
                        0 <= j < i ==> !placeable(self@, text::views(order@), j),
                decreases self.epics@.len() - i,
            {
                i = i + 1;
            }
            if i == self.epics.len() {
                return Err(PlanError::Cycle);
            }
            proof {
                assert(next_to_place(self@, text::views(order@), i as int));
                let c = choose|c: int| next_to_place(self@, text::views(order@), c);
                assert(next_to_place(self@, text::views(order@), c));
                assert(c == i) by {
                    if c < i {
                        assert(!placeable(self@, text::views(order@), c));
                    } else if i < c {
                        assert(!placeable(self@, text::views(order@), i as int));
                    }
                }
            }
            let ghost before = order@;
            order.push(self.epics[i].id.clone());
            assert(text::views(order@) =~= text::views(before).push(self@[i as int].id));
        }
        Ok(order)
    }

    /// Check ids are unique, dependencies exist, and there is no cycle.
    pub fn validate(&self) -> (r: Result<(), PlanError>)
        ensures
            match r {
                Ok(()) => valid_plan(self@),
                Err(PlanError::DuplicateEpic { id }) => exists|i: int|
                    first_repeat(self@, i) && self@[i].id == id@,
                Err(PlanError::UnknownDependency { epic, dep }) => unique_ids(self@) && exists|
                    i: int,
                    k: int,
                | #[trigger]
                    first_unknown(self@, i, k) && self@[i].id == epic@ && self@[i].depends_on[k]
                        == dep@,
                Err(PlanError::Cycle) => unique_ids(self@) && known_deps(self@) && has_cycle(
                    self@,
                ),
                Err(_) => false,
            },
    {
        let mut seen: Vec<String> = Vec::new();
        let mut i: usize = 0;
        while i < self.epics.len()
            invariant
                i <= self.epics@.len(),
                text::views(seen@) == ids(self@).take(i as int),
                unique_ids(self@.take(i as int)),
            decreases self.epics@.len() - i,
        {
            let epic = &self.epics[i];
            if contains_text(&seen, epic.id.as_str()) {
                assert(first_repeat(self@, i as int));
                return Err(PlanError::DuplicateEpic { id: epic.id.clone() });
            }
            let ghost before = seen@;
            seen.push(epic.id.clone());
            assert(text::views(seen@) =~= text::views(before).push(self@[i as int].id));
            assert(text::views(seen@) =~= ids(self@).take(i + 1));
            assert forall|a: int, b: int| 0 <= a < b < i + 1 implies #[trigger] self@.take(
                i + 1,
            )[a].id != #[trigger] self@.take(i + 1)[b].id by {
                if b < i {
                    assert(self@.take(i as int)[a].id != self@.take(i as int)[b].id);
                } else {
                    assert(ids(self@).take(i as int)[a] == self@[a].id);
                }
            }
            i = i + 1;
        }
        assert(self@.take(i as int) =~= self@);
        assert(ids(self@).take(i as int) =~= ids(self@));
        let mut a: usize = 0;
        while a < self.epics.len()
            invariant
                a <= self.epics@.len(),
                unique_ids(self@),
                text::views(seen@) == ids(self@),
                forall|x: int, y: int|
                    0 <= x < a && 0 <= y < self@[x].depends_on.len() ==> ids(self@).contains(
                        #[trigger] self@[x].depends_on[y],
                    ),
            decreases self.epics@.len() - a,
        {
            let epic = &self.epics[a];
            let mut k: usize = 0;
            while k < epic.depends_on.len()
                invariant
                    a < self.epics@.len(),
                    epic@ == self@[a as int],
                    k <= epic.depends_on@.len(),
                    unique_ids(self@),
                    text::views(seen@) == ids(self@),
                    forall|x: int, y: int|
                        0 <= x <= a && 0 <= y < self@[x].depends_on.len() && (x < a || y < k)
                            ==> ids(self@).contains(#[trigger] self@[x].depends_on[y]),
                decreases epic.depends_on@.len() - k,
            {
                assert(self@[a as int].depends_on[k as int] == epic.depends_on@[k as int]@);
                if !contains_text(&seen, epic.depends_on[k].as_str()) {
                    assert(first_unknown(self@, a as int, k as int));
                    return Err(
                        PlanError::UnknownDependency {
                            epic: epic.id.clone(),
                            dep: epic.depends_on[k].clone(),
                        },
                    );
                }
                k = k + 1;
            }
            a = a + 1;
        }
        proof {
            law_order_fails_iff_cycle(self@);
        }
        match self.topological_order() {
            Ok(_) => Ok(()),
            Err(e) => Err(e),
        }
    }

    /// Set `repo` on every epic that has none. Used when a run targets exactly
    /// one repo, so the planner may omit the repo tag.
    pub fn fill_missing_repo(&mut self, repo_name: &str)
        ensures
            final(self)@ == Seq::new(
                old(self)@.len(),
                |i: int| with_repo(old(self)@[i], repo_name@),
            ),
    {
        let mut i: usize = 0;
        let ghost before = self@;
        while i < self.epics.len()
            invariant
                i <= self.epics@.len(),
                self@.len() == before.len(),
                forall|j: int| 0 <= j < i ==> #[trigger] self@[j] == with_repo(before[j], repo_name@),
                forall|j: int| i <= j < before.len() ==> #[trigger] self@[j] == before[j],
            decreases self.epics@.len() - i,
        {
            assert(self@[i as int] == before[i as int]);
            if self.epics[i].repo.as_str().is_empty() {
                let mut epic = self.epics[i].clone();
                let ghost start = self.epics@;
                epic.repo = repo_name.to_string();
                self.epics.set(i, epic);
                assert(self.epics@ =~= start.update(i as int, epic));
                assert(self@ =~= text::views(start).update(i as int, epic@));
                assert(before[i as int].repo.len() == 0);
                assert(epic@ =~= with_repo(before[i as int], repo_name@));
            } else {
                assert(self.epics@[i as int].repo@.len() != 0);
            }
            i = i + 1;
        }
        assert(self@ =~= Seq::new(before.len(), |i: int| with_repo(before[i], repo_name@)));
    }

    /// Every epic's `repo` must be non-empty and name one of `repo_names`.
    pub fn validate_repos(&self, repo_names: &Vec<String>) -> (r: Result<(), PlanError>)
        ensures
            match r {
                Ok(()) => forall|i: int|
                    0 <= i < self@.len() ==> repo_named(
                        #[trigger] self@[i],
                        text::views(repo_names@),
                    ),
                Err(PlanError::MissingRepo { epic }) => exists|i: int| #[trigger]
                    first_unnamed(self@, text::views(repo_names@), i) && self@[i].repo.len() == 0
                        && epic@ == self@[i].id,
                Err(PlanError::UnknownRepo { epic, repo }) => exists|i: int| #[trigger]
                    first_unnamed(self@, text::views(repo_names@), i) && self@[i].repo.len() > 0
                        && epic@ == self@[i].id && repo@ == self@[i].repo,
                Err(_) => false,
            },
    {
        let mut i: usize = 0;
        while i < self.epics.len()
            invariant
                i <= self.epics@.len(),
                forall|j: int|
                    0 <= j < i ==> repo_named(#[trigger] self@[j], text::views(repo_names@)),
            decreases self.epics@.len() - i,
        {
            let epic = &self.epics[i];
            assert(self@[i as int] == epic@);
            if epic.repo.as_str().is_empty() {
                assert(first_unnamed(self@, text::views(repo_names@), i as int));
                return Err(PlanError::MissingRepo { epic: epic.id.clone() });
            }
            if !contains_text(repo_names, epic.repo.as_str()) {
                assert(first_unnamed(self@, text::views(repo_names@), i as int));
                return Err(
                    PlanError::UnknownRepo { epic: epic.id.clone(), repo: epic.repo.clone() },
                );
            }
            i = i + 1;
        }
        Ok(())
    }
}

/// The epic with `repo` filled in if it has none.
pub open spec fn with_repo(epic: EpicModel, repo: Seq<char>) -> EpicModel {
    if epic.repo.len() == 0 {
        EpicModel { repo, ..epic }
    } else {
        epic
    }
}

/// The epic names one of the repositories.
pub open spec fn repo_named(epic: EpicModel, names: Seq<Seq<char>>) -> bool {
    epic.repo.len() > 0 && names.contains(epic.repo)
}

/// Epic `i` is the first that names none of the repositories.
pub open spec fn first_unnamed(epics: Seq<EpicModel>, names: Seq<Seq<char>>, i: int) -> bool {
    &&& 0 <= i < epics.len()
    &&& !repo_named(epics[i], names)
    &&& forall|j: int| 0 <= j < i ==> repo_named(#[trigger] epics[j], names)
}

/// After filling in the only repository of a run, every epic that had no
/// repository names it, and the plan then passes the repository check if and
/// only if no epic named another one.
pub proof fn law_filled_repo_passes(epics: Seq<EpicModel>, repo: Seq<char>)
    requires
        repo.len() > 0,
    ensures
        (forall|i: int| 0 <= i < epics.len() ==> repo_named(with_repo(#[trigger] epics[i], repo), seq![repo]))
            <==> (forall|i: int|
            0 <= i < epics.len() ==> (#[trigger] epics[i]).repo.len() == 0 || epics[i].repo == repo),
{
    assert(seq![repo][0] == repo);
    assert forall|i: int| 0 <= i < epics.len() implies (repo_named(
        with_repo(#[trigger] epics[i], repo),
        seq![repo],
    ) == (epics[i].repo.len() == 0 || epics[i].repo == repo)) by {
        assert(seq![repo].contains(repo));
    }
}

} // verus!
