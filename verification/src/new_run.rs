//! The "new run" form: collects the goal and options for a workspace,
//! optionally runs the goal-refine clarification flow, then starts the run.
//! The form decides what to ask the server for; its caller asks, and hands
//! the reply back.
use vstd::prelude::*;
use vstd::string::*;

use crate::app::{Language, Usd};
use crate::config;
use crate::dto;
use crate::dto::{RepoDto, StartRunRequest, WorkspaceDto};
use crate::text;
use crate::text::{clone_texts, decimal, from_chars, join, same, split, to_chars, trim};

verus! {

/// Where a repo's branch list is in its fetch lifecycle. `Loaded` drives the
/// real dropdowns; `Failed` falls the form back to free-text inputs so a repo
/// whose branches could not be listed never blocks starting a run.
#[derive(Debug, Clone, Copy, PartialEq, Eq, Structural)]
pub enum BranchStatus {
    Loading,
    Loaded,
    Failed,
}

/// Per-repo branch selection for the form: the chosen base ref and integration
/// branch, plus the repo's real branches once fetched.
#[derive(Debug, PartialEq)]
pub struct RepoBranchState {
    pub name: String,
    pub path: String,
    pub base: String,
    pub integration: String,
    pub branches: Vec<String>,
    pub status: BranchStatus,
}

/// The content of a repo's branch selection.
#[verifier::ext_equal]
pub ghost struct BranchModel {
    pub name: Seq<char>,
    pub path: Seq<char>,
    pub base: Seq<char>,
    pub integration: Seq<char>,
    pub branches: Seq<Seq<char>>,
    pub status: BranchStatus,
}

impl View for RepoBranchState {
    type V = BranchModel;

    open spec fn view(&self) -> BranchModel {
        BranchModel {
            name: self.name@,
            path: self.path@,
            base: self.base@,
            integration: self.integration@,
            branches: text::views(self.branches@),
            status: self.status,
        }
    }
}

/// Where the form stands. `Editing` is the initial form. `Answering` holds the
/// clarifying questions together with the answers collected so far.
/// `Confirming` shows the final goal, editable, before the run starts.
/// `Submitting` is set while a call is in flight. `Error` shows a message;
/// nothing entered is lost.
#[derive(Debug, PartialEq)]
pub enum FlowState {
    Editing,
    Answering {
        questions: Vec<String>,
        answers: Vec<String>,
        refined_goal: String,
        cost: Usd,
    },
    Confirming { goal: String, cost: Usd },
    Submitting,
    Error(String),
}

/// The content of a flow state.
#[verifier::ext_equal]
pub ghost enum FlowModel {
    Editing,
    Answering {
        questions: Seq<Seq<char>>,
        answers: Seq<Seq<char>>,
        refined_goal: Seq<char>,
        cost: Usd,
    },
    Confirming { goal: Seq<char>, cost: Usd },
    Submitting,
    Error(Seq<char>),
}

impl View for FlowState {
    type V = FlowModel;

    open spec fn view(&self) -> FlowModel {
        match self {
            FlowState::Editing => FlowModel::Editing,
            FlowState::Answering { questions, answers, refined_goal, cost } => FlowModel::Answering {
                questions: text::views(questions@),
                answers: text::views(answers@),
                refined_goal: refined_goal@,
                cost: *cost,
            },
            FlowState::Confirming { goal, cost } => FlowModel::Confirming {
                goal: goal@,
                cost: *cost,
            },
            FlowState::Submitting => FlowModel::Submitting,
            FlowState::Error(msg) => FlowModel::Error(msg@),
        }
    }
}

/// The text trimmed, or none where it is blank.
pub open spec fn normalized(value: Seq<char>) -> Option<Seq<char>> {
    if text::trimmed(value).len() == 0 {
        None
    } else {
        Some(text::trimmed(value))
    }
}

/// Trims a text input and turns a blank value into `None`: empty means unset.
pub fn normalize(value: &str) -> (r: Option<String>)
    ensures
        text::opt_view(r) == normalized(value@),
{
    let t = trim(value);
    if t.as_str().is_empty() {
        None
    } else {
        Some(t)
    }
}

/// The repository is the one of the branch selection.
pub open spec fn is_selected_repo(repo: RepoDto, state: BranchModel) -> bool {
    &&& repo.name@ == state.name
    &&& repo.path@ == state.path
    &&& text::opt_view(repo.base) == normalized(state.base)
    &&& text::opt_view(repo.integration) == normalized(state.integration)
}

/// The workspace to submit is the one of the branch selections.
pub open spec fn is_submitted(
    ws: dto::WorkspaceDtoModel,
    name: Seq<char>,
    states: Seq<BranchModel>,
) -> bool {
    &&& ws.name == name
    &&& ws.repos.len() == states.len()
    &&& forall|i: int|
        0 <= i < states.len() ==> is_selected_repo(#[trigger] ws.repos[i], states[i])
}

/// Build the workspace to submit, folding each repo's chosen base and
/// integration branch (blank means "unset", so the server applies its default)
/// back into the repos.
pub fn workspace_from_states(name: &str, states: &Vec<RepoBranchState>) -> (r: WorkspaceDto)
    ensures
        is_submitted(r@, name@, text::views(states@)),
{
    let mut repos: Vec<RepoDto> = Vec::new();
    let mut i: usize = 0;
    let ghost all = text::views(states@);
    while i < states.len()
        invariant
            i <= states@.len(),
            all == text::views(states@),
            repos@.len() == i,
            forall|j: int| 0 <= j < i ==> is_selected_repo(#[trigger] repos@[j], all[j]),
        decreases states@.len() - i,
    {
        let state = &states[i];
        assert(all[i as int] == state@);
        repos.push(
            RepoDto {
                name: state.name.clone(),
                path: state.path.clone(),
                base: normalize(state.base.as_str()),
                integration: normalize(state.integration.as_str()),
            },
        );
        i = i + 1;
    }
    WorkspaceDto { name: name.to_string(), repos }
}

/// The position of the last slash, or -1.
pub open spec fn last_slash(path: Seq<char>) -> int
    decreases path.len(),
{
    if path.len() == 0 {
        -1
    } else if path.last() == '/' {
        path.len() - 1
    } else {
        last_slash(path.drop_last())
    }
}

/// What stands before the last slash; the root where nothing does, and the
/// path itself where there is no slash.
pub open spec fn folder_of(path: Seq<char>) -> Seq<char> {
    let at = last_slash(path);
    if at < 0 {
        path
    } else if at == 0 {
        "/"@
    } else {
        path.take(at)
    }
}

/// The first `n` pieces between slashes agree in all paths.
pub open spec fn share_pieces(repos: Seq<RepoDto>, n: nat) -> bool {
    forall|i: int|
        0 <= i < repos.len() ==> text::parts_of((#[trigger] repos[i]).path@, '/').len() >= n
            && text::parts_of(repos[i].path@, '/').take(n as int) == text::parts_of(
            repos[0].path@,
            '/',
        ).take(n as int)
}

/// `n` is the number of leading pieces that all paths share.
pub open spec fn most_shared(repos: Seq<RepoDto>, n: nat) -> bool {
    share_pieces(repos, n) && forall|m: nat| m > n ==> !#[trigger] share_pieces(repos, m)
}

/// The path of the first `n` pieces; the whole first path where that is no
/// more than the root.
pub open spec fn shared_folder(first: Seq<char>, n: nat) -> Seq<char> {
    let folder = text::joined(text::parts_of(first, '/').take(n as int), "/"@);
    if folder.len() == 0 || folder == "/"@ {
        first
    } else {
        folder
    }
}

/// The directory is the one the refine passes run in.
pub open spec fn is_refine_root(repos: Seq<RepoDto>, root: Seq<char>) -> bool {
    &&& repos.len() == 0 ==> root.len() == 0
    &&& repos.len() == 1 ==> root == folder_of(repos[0].path@)
    &&& repos.len() > 1 ==> exists|n: nat| #[trigger]
        most_shared(repos, n) && root == shared_folder(repos[0].path@, n)
}

fn folder(path: &str) -> (r: String)
    ensures
        r@ == folder_of(path@),
{
    let cs = to_chars(path);
    let mut i: usize = cs.len();
    assert(cs@.take(i as int) =~= cs@);
    while i > 0 && cs[i - 1] != '/'
        invariant
            i <= cs@.len(),
            last_slash(cs@) == last_slash(cs@.take(i as int)),
        decreases i,
    {
        assert(cs@.take(i as int).last() == cs@[i - 1]);
        assert(cs@.take(i as int).drop_last() =~= cs@.take(i - 1));
        i = i - 1;
    }
    if i > 0 {
        assert(cs@.take(i as int).last() == cs@[i - 1]);
    }
    assert(last_slash(cs@) == i - 1);
    if i == 0 {
        return path.to_string();
    }
    if i == 1 {
        return "/".to_string();
    }
    let r = from_chars(&cs, 0, i - 1);
    assert(r@ =~= path@.take(i - 1));
    r
}

/// The directory the refine passes run in. The refine passes launch a single
/// process against one working directory, so a multi-repo workspace needs a
/// single shared root: the leading path pieces that are identical across all
/// repos. A one-repo workspace uses its parent directory. Where nothing but
/// the filesystem root is shared, the first repo's own path is used.
pub fn common_root(repos: &Vec<RepoDto>) -> (r: String)
    ensures
        is_refine_root(repos@, r@),
{
    if repos.len() == 0 {
        return String::new();
    }
    if repos.len() == 1 {
        return folder(repos[0].path.as_str());
    }
    let ghost all = repos@;
    let mut common = split(repos[0].path.as_str(), '/');
    let ghost head = text::parts_of(all[0].path@, '/');
    let mut i: usize = 1;
    proof {
        assert(common@.len() == head.len()) by {
            assert(text::views(common@).len() == head.len());
        }
        assert(head.take(head.len() as int) =~= head);
        assert(share_pieces(all.take(1), head.len())) by {
            assert(all.take(1)[0] == all[0]);
        }
        assert forall|m: nat| m > head.len() implies !#[trigger] share_pieces(all.take(1), m) by {
            assert(text::parts_of(all.take(1)[0].path@, '/').len() < m);
        }
    }
    while i < repos.len()
        invariant
            1 <= i <= repos@.len(),
            all == repos@,
            head == text::parts_of(all[0].path@, '/'),
            common@.len() <= head.len(),
            text::views(common@) == head.take(common@.len() as int),
            most_shared(all.take(i as int), common@.len()),
        decreases repos@.len() - i,
    {
        let other = split(repos[i].path.as_str(), '/');
        let ghost parts = text::parts_of(all[i as int].path@, '/');
        proof {
            assert(other@.len() == parts.len()) by {
                assert(text::views(other@).len() == parts.len());
            }
        }
        let mut k: usize = 0;
        while k < common.len() && k < other.len() && same(common[k].as_str(), other[k].as_str())
            invariant
                k <= common@.len(),
                k <= other@.len(),
                common@.len() <= head.len(),
                text::views(common@) == head.take(common@.len() as int),
                text::views(other@) == parts,
                other@.len() == parts.len(),
                forall|j: int| 0 <= j < k ==> head[j] == #[trigger] parts[j],
            decreases common@.len() - k,
        {
            assert(head.take(common@.len() as int)[k as int] == common@[k as int]@);
            assert(parts[k as int] == other@[k as int]@);
            k = k + 1;
        }
        proof {
            if k < common@.len() && k < other@.len() {
                assert(head.take(common@.len() as int)[k as int] == common@[k as int]@);
                assert(parts[k as int] == other@[k as int]@);
            }
            lemma_extend_pieces(all, i as int, common@.len(), k as nat);
        }
        let ghost before = common@;
        common.truncate(k);
        proof {
            assert(common@ =~= before.take(k as int));
            assert(text::views(common@) =~= text::views(before).take(k as int));
            assert(head.take(before.len() as int).take(k as int) =~= head.take(k as int));
        }
        i = i + 1;
    }
    assert(all.take(i as int) =~= all);
    let joined = join(&common, "/");
    if joined.as_str().is_empty() || same(joined.as_str(), "/") {
        assert(most_shared(all, common@.len()));
        repos[0].path.clone()
    } else {
        assert(most_shared(all, common@.len()));
        joined
    }
}

proof fn lemma_extend_pieces(repos: Seq<RepoDto>, i: int, n: nat, k: nat)
    requires
        1 <= i < repos.len(),
        most_shared(repos.take(i), n),
        k <= n,
        n <= text::parts_of(repos[0].path@, '/').len(),
        k <= text::parts_of(repos[i].path@, '/').len(),
        forall|j: int|
            0 <= j < k ==> text::parts_of(repos[0].path@, '/')[j] == #[trigger] text::parts_of(
                repos[i].path@,
                '/',
            )[j],
        k == n || k == text::parts_of(repos[i].path@, '/').len() || text::parts_of(
            repos[0].path@,
            '/',
        )[k as int] != text::parts_of(repos[i].path@, '/')[k as int],
    ensures
        most_shared(repos.take(i + 1), k),
{
    let a = repos.take(i);
    let b = repos.take(i + 1);
    let head = text::parts_of(repos[0].path@, '/');
    let parts = text::parts_of(repos[i].path@, '/');
    assert(b[0] == repos[0] && a[0] == repos[0]);
    assert forall|x: int| 0 <= x < b.len() implies text::parts_of(
        (#[trigger] b[x]).path@,
        '/',
    ).len() >= k && text::parts_of(b[x].path@, '/').take(k as int) == text::parts_of(
        b[0].path@,
        '/',
    ).take(k as int) by {
        if x < i {
            assert(b[x] == a[x]);
            let c = text::parts_of(a[x].path@, '/');
            assert(c.take(n as int) == head.take(n as int));
            assert(c.take(k as int) =~= c.take(n as int).take(k as int));
            assert(head.take(k as int) =~= head.take(n as int).take(k as int));
        } else {
            assert(parts.take(k as int) =~= head.take(k as int));
        }
    }
    assert forall|m: nat| m > k implies !#[trigger] share_pieces(b, m) by {
        if share_pieces(b, m) {
            assert(share_pieces(a, m)) by {
                assert forall|x: int| 0 <= x < a.len() implies text::parts_of(
                    (#[trigger] a[x]).path@,
                    '/',
                ).len() >= m && text::parts_of(a[x].path@, '/').take(m as int)
                    == text::parts_of(a[0].path@, '/').take(m as int) by {
                    assert(b[x] == a[x]);
                }
            }
            assert(m <= n);
            assert(text::parts_of(b[i].path@, '/').take(m as int) == head.take(m as int));
            assert(parts.take(m as int)[k as int] == head.take(m as int)[k as int]);
        }
    }
}

/// A repo's branches, as the server lists them.
#[derive(Debug, Clone, PartialEq)]
pub struct BranchList {
    pub current: Option<String>,
    pub branches: Vec<String>,
}

/// The branch selection of a repo of the workspace, before its branches are
/// known. Where the workspace config pins no integration branch, the fallback
/// that a run would use is offered.
pub open spec fn seeded_state(repo: RepoDto) -> BranchModel {
    BranchModel {
        name: repo.name@,
        path: repo.path@,
        base: match repo.base {
            Some(b) => b@,
            None => Seq::empty(),
        },
        integration: match repo.integration {
            Some(b) => b@,
            None => config::DEFAULT_INTEGRATION@,
        },
        branches: Seq::empty(),
        status: BranchStatus::Loading,
    }
}

/// The base to start from where none is set: the current branch, else the
/// first one, else nothing.
pub open spec fn default_base(list: BranchList) -> Seq<char> {
    match list.current {
        Some(b) => b@,
        None => if list.branches@.len() > 0 {
            list.branches@[0]@
        } else {
            Seq::empty()
        },
    }
}

/// The branch selection once the branches were listed, or could not be.
pub open spec fn listed_state(state: BranchModel, list: Option<BranchList>) -> BranchModel {
    let unset = text::trimmed(state.base).len() == 0;
    match list {
        Some(l) => BranchModel {
            status: BranchStatus::Loaded,
            base: if unset {
                default_base(l)
            } else {
                state.base
            },
            branches: text::views(l.branches@),
            ..state
        },
        None => BranchModel {
            status: BranchStatus::Failed,
            base: if unset {
                "HEAD"@
            } else {
                state.base
            },
            ..state
        },
    }
}

impl RepoBranchState {
    /// The choices of the base control where it is a dropdown: every branch,
    /// and whether it is the selected one. None where the base is free text,
    /// while the branches are loading, could not be listed or are none.
    pub fn base_choices(&self) -> (r: Option<Vec<(String, bool)>>)
        ensures
            r is Some <==> self@.status is Loaded && self@.branches.len() > 0,
            r matches Some(v) ==> v@.len() == self@.branches.len() && forall|i: int|
                0 <= i < v@.len() ==> (#[trigger] v@[i]).0@ == self@.branches[i] && v@[i].1 == (
                self@.branches[i] == self@.base),
    {
        let ghost all = self@.branches;
        assert(all.len() == self.branches@.len());
        if self.status != BranchStatus::Loaded || self.branches.len() == 0 {
            return None;
        }
        let mut out: Vec<(String, bool)> = Vec::new();
        let mut i: usize = 0;
        while i < self.branches.len()
            invariant
                i <= self.branches@.len(),
                all == self@.branches,
                all.len() == self.branches@.len(),
                out@.len() == i,
                forall|j: int|
                    0 <= j < i ==> (#[trigger] out@[j]).0@ == all[j] && out@[j].1 == (all[j]
                        == self@.base),
            decreases self.branches@.len() - i,
        {
            assert(all[i as int] == self.branches@[i as int]@);
            out.push(
                (
                    self.branches[i].clone(),
                    same(self.branches[i].as_str(), self.base.as_str()),
                ),
            );
            i = i + 1;
        }
        Some(out)
    }

    /// What the row says about the branches.
    pub fn status_hint(&self) -> (r: Option<&'static str>)
        ensures
            match self.status {
                BranchStatus::Loading => r matches Some(t) && t@ == "Loading branches..."@,
                BranchStatus::Failed => r matches Some(t) && t@
                    == "Could not list branches; enter refs by hand."@,
                BranchStatus::Loaded => r is None,
            },
    {
        match self.status {
            BranchStatus::Loading => Some("Loading branches..."),
            BranchStatus::Failed => Some("Could not list branches; enter refs by hand."),
            BranchStatus::Loaded => None,
        }
    }

    fn list(&mut self, list: &Option<BranchList>)
        ensures
            final(self)@ == listed_state(old(self)@, *list),
    {
        let unset = trim(self.base.as_str()).as_str().is_empty();
        match list {
            Some(l) => {
                self.status = BranchStatus::Loaded;
                if unset {
                    self.base = match &l.current {
                        Some(b) => b.clone(),
                        None => if l.branches.len() > 0 {
                            l.branches[0].clone()
                        } else {
                            String::new()
                        },
                    };
                    assert(self.base@ =~= default_base(*l));
                }
                self.branches = clone_texts(&l.branches);
            },
            None => {
                self.status = BranchStatus::Failed;
                if unset {
                    self.base = "HEAD".to_string();
                }
            },
        }
    }
}

/// The form.
#[derive(Debug, PartialEq)]
pub struct NewRunForm {
    name: String,
    workspace: Option<WorkspaceDto>,
    load_error: Option<String>,
    goal: String,
    verify: String,
    refine: bool,
    language: Language,
    repos: Vec<RepoBranchState>,
    flow: FlowState,
}

/// The content of the form.
#[verifier::ext_equal]
pub ghost struct FormModel {
    pub name: Seq<char>,
    pub workspace: Option<dto::WorkspaceDtoModel>,
    pub load_error: Option<Seq<char>>,
    pub goal: Seq<char>,
    pub verify: Seq<char>,
    pub refine: bool,
    pub language: Language,
    pub repos: Seq<BranchModel>,
    pub flow: FlowModel,
}

impl View for NewRunForm {
    type V = FormModel;

    closed spec fn view(&self) -> FormModel {
        FormModel {
            name: self.name@,
            workspace: text::opt_view(self.workspace),
            load_error: text::opt_view(self.load_error),
            goal: self.goal@,
            verify: self.verify@,
            refine: self.refine,
            language: self.language,
            repos: text::views(self.repos@),
            flow: self.flow@,
        }
    }
}

/// What the caller asks the server for.
#[derive(Debug, PartialEq)]
pub enum FormAction {
    Nothing,
    /// Run the first refine pass in `root`.
    AskQuestions { root: String, goal: String, language: Language },
    /// Run the second refine pass in `root`; `cost` is what the first one cost.
    Finalize {
        root: String,
        goal: String,
        answers: Vec<(String, String)>,
        language: Language,
        cost: Usd,
    },
    /// Start the run.
    Start(StartRunRequest),
}

/// The parts of the page, of which one is up.
#[derive(Debug, Clone, Copy, PartialEq, Eq, Structural)]
pub enum Screen {
    LoadError,
    Loading,
    Form,
    Submitting,
    Questions,
    Confirmation,
}

/// The message where no goal was entered.
pub const NO_GOAL: &'static str = "Enter a goal before starting.";

/// The message where the workspace is not there yet.
pub const STILL_LOADING: &'static str = "The workspace is still loading.";

/// Workspace `i` is the first with the name.
pub open spec fn first_named(list: Seq<WorkspaceDto>, name: Seq<char>, i: int) -> bool {
    &&& 0 <= i < list.len()
    &&& list[i].name@ == name
    &&& forall|j: int| 0 <= j < i ==> (#[trigger] list[j]).name@ != name
}

/// The questions with their answers, as far as both go.
pub open spec fn pairs(
    questions: Seq<Seq<char>>,
    answers: Seq<Seq<char>>,
) -> Seq<(Seq<char>, Seq<char>)> {
    Seq::new(
        if questions.len() <= answers.len() {
            questions.len()
        } else {
            answers.len()
        },
        |i: int| (questions[i], answers[i]),
    )
}

/// The id of the branch list of row `index`.
pub fn datalist_id(index: usize) -> (r: String)
    ensures
        r@ == "branches-"@ + text::decimal_of(index as nat),
{
    "branches-".to_string().concat(decimal(index as u64).as_str())
}

impl FormModel {
    /// Which part of the page is up. An error shows the form again.
    pub open spec fn screen_shown(self) -> Screen {
        if self.load_error is Some {
            Screen::LoadError
        } else if self.workspace is None {
            Screen::Loading
        } else {
            match self.flow {
                FlowModel::Editing => Screen::Form,
                FlowModel::Error(_) => Screen::Form,
                FlowModel::Submitting => Screen::Submitting,
                FlowModel::Answering { .. } => Screen::Questions,
                FlowModel::Confirming { .. } => Screen::Confirmation,
            }
        }
    }

    /// The request starts a run of the form with a goal and what refining it cost.
    pub open spec fn requests(self, req: StartRunRequest, goal: Seq<char>, cost: Usd) -> bool {
        &&& self.workspace is Some
        &&& is_submitted(req.workspace@, self.workspace->0.name, self.repos)
        &&& req.goal@ == goal
        &&& text::opt_view(req.verify) == normalized(self.verify)
        &&& req.refine_cost == cost
        &&& req.language == self.language
    }

    /// The form with another flow state.
    pub open spec fn at(self, flow: FlowModel) -> FormModel {
        FormModel { flow, ..self }
    }

    /// What a submit leads to.
    pub open spec fn submits(self, after: FormModel, action: FormAction) -> bool {
        let goal = text::trimmed(self.goal);
        if goal.len() == 0 {
            after == self.at(FlowModel::Error(NO_GOAL@)) && action is Nothing
        } else if self.workspace is None {
            after == self.at(FlowModel::Error(STILL_LOADING@)) && action is Nothing
        } else if self.refine {
            &&& after == self.at(FlowModel::Submitting)
            &&& action matches FormAction::AskQuestions { root, goal: g, language }
                && is_refine_root(self.workspace->0.repos, root@) && g@ == goal && language
                == self.language
        } else {
            &&& after == self.at(FlowModel::Submitting)
            &&& action matches FormAction::Start(req) && self.requests(
                req,
                goal,
                Usd { bits: 0 },
            )
        }
    }

    /// What "continue" leads to.
    pub open spec fn continues(self, after: FormModel, action: FormAction) -> bool {
        match self.flow {
            FlowModel::Answering { questions, answers, refined_goal, cost } => if self.workspace is None {
                after == self.at(FlowModel::Error(STILL_LOADING@)) && action is Nothing
            } else {
                &&& after == self.at(FlowModel::Submitting)
                &&& action matches FormAction::Finalize {
                    root,
                    goal,
                    answers: list,
                    language,
                    cost: c,
                } && is_refine_root(self.workspace->0.repos, root@) && goal@ == text::trimmed(
                    self.goal,
                ) && config::answer_views(list@) == pairs(questions, answers) && language
                    == self.language && c == cost
            },
            _ => after == self && action is Nothing,
        }
    }

    /// What "plan" leads to.
    pub open spec fn plans(self, after: FormModel, action: FormAction) -> bool {
        match self.flow {
            FlowModel::Confirming { goal, cost } => if self.workspace is None {
                after == self.at(FlowModel::Error(STILL_LOADING@)) && action is Nothing
            } else {
                &&& after == self.at(FlowModel::Submitting)
                &&& action matches FormAction::Start(req) && self.requests(req, goal, cost)
            },
            _ => after == self && action is Nothing,
        }
    }

    /// The form after the first refine pass answered.
    pub open spec fn asked(
        self,
        refined_goal: Seq<char>,
        questions: Seq<Seq<char>>,
        cost: Usd,
    ) -> FormModel {
        if questions.len() == 0 {
            self.at(FlowModel::Confirming { goal: refined_goal, cost })
        } else {
            self.at(
                FlowModel::Answering {
                    questions,
                    answers: Seq::new(questions.len(), |i: int| Seq::<char>::empty()),
                    refined_goal,
                    cost,
                },
            )
        }
    }
}

impl NewRunForm {
    /// The form for the named workspace, before that is loaded.
    pub fn new(name: &str) -> (r: NewRunForm)
        ensures
            r@ == (FormModel {
                name: name@,
                workspace: None,
                load_error: None,
                goal: Seq::empty(),
                verify: Seq::empty(),
                refine: true,
                language: Language::English,
                repos: Seq::empty(),
                flow: FlowModel::Editing,
            }),
    {
        let r = NewRunForm {
            name: name.to_string(),
            workspace: None,
            load_error: None,
            goal: String::new(),
            verify: String::new(),
            refine: true,
            language: Language::English,
            repos: Vec::new(),
            flow: FlowState::Editing,
        };
        assert(r@.repos =~= Seq::<BranchModel>::empty());
        assert(r@.goal =~= Seq::<char>::empty());
        assert(r@.verify =~= Seq::<char>::empty());
        r
    }

    /// Where the form stands.
    pub fn flow(&self) -> (r: &FlowState)
        ensures
            r@ == self@.flow,
    {
        &self.flow
    }

    /// The branch selections.
    pub fn repos(&self) -> (r: &Vec<RepoBranchState>)
        ensures
            text::views(r@) == self@.repos,
    {
        &self.repos
    }

    /// The workspace, once loaded.
    pub fn workspace(&self) -> (r: &Option<WorkspaceDto>)
        ensures
            text::opt_view(*r) == self@.workspace,
    {
        &self.workspace
    }

    /// Why the workspace could not be loaded.
    pub fn load_error(&self) -> (r: &Option<String>)
        ensures
            text::opt_view(*r) == self@.load_error,
    {
        &self.load_error
    }

    /// The goal as typed.
    pub fn goal(&self) -> (r: &String)
        ensures
            r@ == self@.goal,
    {
        &self.goal
    }

    /// The verify command as typed.
    pub fn verify(&self) -> (r: &String)
        ensures
            r@ == self@.verify,
    {
        &self.verify
    }

    /// Whether the goal is refined first, and the language of the run.
    pub fn options(&self) -> (r: (bool, Language))
        ensures
            r == (self@.refine, self@.language),
    {
        (self.refine, self.language)
    }

    /// Sets the goal as it is typed.
    pub fn set_goal(&mut self, goal: &str)
        ensures
            final(self)@ == (FormModel { goal: goal@, ..old(self)@ }),
    {
        self.goal = goal.to_string();
    }

    /// Sets the verify command as it is typed.
    pub fn set_verify(&mut self, verify: &str)
        ensures
            final(self)@ == (FormModel { verify: verify@, ..old(self)@ }),
    {
        self.verify = verify.to_string();
    }

    /// Switches refining on or off.
    pub fn toggle_refine(&mut self)
        ensures
            final(self)@ == (FormModel { refine: !old(self)@.refine, ..old(self)@ }),
    {
        self.refine = !self.refine;
    }

    /// Sets the language by the value of its option.
    pub fn set_language(&mut self, value: &str)
        ensures
            final(self)@ == (FormModel {
                language: if value@ == "indonesian"@ {
                    Language::Indonesian
                } else {
                    Language::English
                },
                ..old(self)@
            }),
    {
        self.language = if same(value, "indonesian") {
            Language::Indonesian
        } else {
            Language::English
        };
    }

    /// Takes in the list of workspaces, or why it could not be fetched. The
    /// first workspace with the form's name seeds the branch selections.
    pub fn loaded(&mut self, list: &Result<Vec<WorkspaceDto>, String>)
        ensures
            match list {
                Err(e) => final(self)@ == (FormModel { load_error: Some(e@), ..old(self)@ }),
                Ok(all) => {
                    ||| exists|i: int| #[trigger]
                        first_named(all@, old(self)@.name, i) && final(self)@ == (FormModel {
                            workspace: Some(all@[i]@),
                            repos: Seq::new(
                                all@[i].repos@.len(),
                                |k: int| seeded_state(all@[i].repos@[k]),
                            ),
                            ..old(self)@
                        })
                    ||| (forall|i: int| !#[trigger] first_named(all@, old(self)@.name, i))
                        && final(self)@ == (FormModel {
                        load_error: Some("workspace '"@ + old(self)@.name + "' was not found"@),
                        ..old(self)@
                    })
                },
            },
    {
        let ghost before = *self;
        match list {
            Err(e) => {
                self.load_error = Some(e.clone());
            },
            Ok(all) => {
                let mut i: usize = 0;
                while i < all.len() && !same(all[i].name.as_str(), self.name.as_str())
                    invariant
                        i <= all@.len(),
                        *self == before,
                        forall|j: int| 0 <= j < i ==> (#[trigger] all@[j]).name@ != before@.name,
                    decreases all@.len() - i,
                {
                    i = i + 1;
                }
                if i == all.len() {
                    assert forall|k: int| !#[trigger] first_named(all@, before@.name, k) by {
                        if 0 <= k < all@.len() {
                            assert(all@[k].name@ != before@.name);
                        }
                    }
                    self.load_error = Some(
                        "workspace '".to_string().concat(self.name.as_str()).concat(
                            "' was not found",
                        ),
                    );
                    return;
                }
                assert(first_named(all@, before@.name, i as int));
                let found = &all[i];
                let mut states: Vec<RepoBranchState> = Vec::new();
                let mut k: usize = 0;
                while k < found.repos.len()
                    invariant
                        k <= found.repos@.len(),
                        text::views(states@) == Seq::new(
                            k as nat,
                            |j: int| seeded_state(found.repos@[j]),
                        ),
                    decreases found.repos@.len() - k,
                {
                    let repo = &found.repos[k];
                    let ghost sofar = states@;
                    let base = match &repo.base {
                        Some(b) => b.clone(),
                        None => String::new(),
                    };
                    let integration = match &repo.integration {
                        Some(b) => b.clone(),
                        None => config::DEFAULT_INTEGRATION.to_string(),
                    };
                    let state = RepoBranchState {
                        name: repo.name.clone(),
                        path: repo.path.clone(),
                        base,
                        integration,
                        branches: Vec::new(),
                        status: BranchStatus::Loading,
                    };
                    assert(state@ =~= seeded_state(*repo));
                    states.push(state);
                    k = k + 1;
                    proof {
                        text::lemma_views_push(sofar, state);
                        assert(states@ =~= sofar.push(state));
                        assert(text::views(states@) =~= Seq::new(
                            k as nat,
                            |j: int| seeded_state(found.repos@[j]),
                        ));
                    }
                }
                self.repos = states;
                self.workspace = Some(found.clone());
                proof {
                    assert(self@.repos =~= Seq::new(
                        all@[i as int].repos@.len(),
                        |k: int| seeded_state(all@[i as int].repos@[k]),
                    ));
                }
            },
        }
    }

    /// Takes in the branches of repo `index`, or that they could not be listed.
    pub fn branches_listed(&mut self, index: usize, list: &Option<BranchList>)
        ensures
            final(self)@ == if index < old(self)@.repos.len() {
                FormModel {
                    repos: old(self)@.repos.update(
                        index as int,
                        listed_state(old(self)@.repos[index as int], *list),
                    ),
                    ..old(self)@
                }
            } else {
                old(self)@
            },
    {
        let ghost before = *self;
        let ghost states = self.repos@;
        assert(self@.repos.len() == self.repos@.len());
        if index < self.repos.len() {
            assert(before@.repos[index as int] == states[index as int]@);
            self.repos[index].list(list);
            proof {
                assert(self.repos@ =~= states.update(index as int, self.repos@[index as int]));
                assert(self@.repos =~= before@.repos.update(
                    index as int,
                    listed_state(before@.repos[index as int], *list),
                ));
            }
        }
    }

    /// Sets the base of repo `index`.
    pub fn set_base(&mut self, index: usize, value: &str)
        ensures
            final(self)@ == if index < old(self)@.repos.len() {
                FormModel {
                    repos: old(self)@.repos.update(
                        index as int,
                        BranchModel { base: value@, ..old(self)@.repos[index as int] },
                    ),
                    ..old(self)@
                }
            } else {
                old(self)@
            },
    {
        let ghost before = *self;
        let ghost states = self.repos@;
        assert(self@.repos.len() == self.repos@.len());
        if index < self.repos.len() {
            assert(before@.repos[index as int] == states[index as int]@);
            self.repos[index].base = value.to_string();
            proof {
                assert(self.repos@ =~= states.update(index as int, self.repos@[index as int]));
                assert(self@.repos =~= before@.repos.update(
                    index as int,
                    BranchModel { base: value@, ..before@.repos[index as int] },
                ));
            }
        }
    }

    /// Sets the integration branch of repo `index`.
    pub fn set_integration(&mut self, index: usize, value: &str)
        ensures
            final(self)@ == if index < old(self)@.repos.len() {
                FormModel {
                    repos: old(self)@.repos.update(
                        index as int,
                        BranchModel { integration: value@, ..old(self)@.repos[index as int] },
                    ),
                    ..old(self)@
                }
            } else {
                old(self)@
            },
    {
        let ghost before = *self;
        let ghost states = self.repos@;
        assert(self@.repos.len() == self.repos@.len());
        if index < self.repos.len() {
            assert(before@.repos[index as int] == states[index as int]@);
            self.repos[index].integration = value.to_string();
            proof {
                assert(self.repos@ =~= states.update(index as int, self.repos@[index as int]));
                assert(self@.repos =~= before@.repos.update(
                    index as int,
                    BranchModel { integration: value@, ..before@.repos[index as int] },
                ));
            }
        }
    }

    fn request(&self, selected: &WorkspaceDto, goal: String, cost: Usd) -> (r: StartRunRequest)
        requires
            self@.workspace == Some(selected@),
        ensures
            self@.requests(r, goal@, cost),
    {
        StartRunRequest {
            workspace: workspace_from_states(selected.name.as_str(), &self.repos),
            goal,
            verify: normalize(self.verify.as_str()),
            refine_cost: cost,
            language: self.language,
        }
    }

    /// Submit the form. With refining on, this asks for the first pass; with
    /// it off, it starts the run directly with a zero refine cost.
    pub fn submit(&mut self) -> (r: FormAction)
        ensures
            old(self)@.submits(final(self)@, r),
    {
        let goal = trim(self.goal.as_str());
        if goal.as_str().is_empty() {
            self.flow = FlowState::Error(NO_GOAL.to_string());
            return FormAction::Nothing;
        }
        let action = match &self.workspace {
            None => None,
            Some(selected) => if self.refine {
                Some(
                    FormAction::AskQuestions {
                        root: common_root(&selected.repos),
                        goal,
                        language: self.language,
                    },
                )
            } else {
                Some(FormAction::Start(self.request(selected, goal, Usd { bits: 0 })))
            },
        };
        match action {
            None => {
                self.flow = FlowState::Error(STILL_LOADING.to_string());
                FormAction::Nothing
            },
            Some(a) => {
                self.flow = FlowState::Submitting;
                a
            },
        }
    }

    /// Takes in what the first refine pass answered, or the error: with
    /// questions, they are asked; without, the goal is to be confirmed.
    pub fn questions_ready(&mut self, reply: &Result<(String, Vec<String>, Usd), String>)
        ensures
            final(self)@ == match reply {
                Err(e) => old(self)@.at(FlowModel::Error(e@)),
                Ok((goal, questions, cost)) => old(self)@.asked(
                    goal@,
                    text::views(questions@),
                    *cost,
                ),
            },
    {
        let ghost before = *self;
        match reply {
            Err(e) => {
                self.flow = FlowState::Error(e.clone());
            },
            Ok(r) => {
                assert(text::views(r.1@).len() == r.1@.len());
                if r.1.len() == 0 {
                    self.flow = FlowState::Confirming { goal: r.0.clone(), cost: r.2 };
                } else {
                    let mut answers: Vec<String> = Vec::new();
                    let mut i: usize = 0;
                    while i < r.1.len()
                        invariant
                            i <= r.1@.len(),
                            text::views(answers@) == Seq::new(
                                i as nat,
                                |j: int| Seq::<char>::empty(),
                            ),
                        decreases r.1@.len() - i,
                    {
                        let ghost sofar = answers@;
                        let blank = String::new();
                        assert(blank@ =~= Seq::<char>::empty());
                        answers.push(blank);
                        i = i + 1;
                        proof {
                            text::lemma_views_push(sofar, blank);
                            assert(answers@ =~= sofar.push(blank));
                            assert(text::views(answers@) =~= Seq::new(
                                i as nat,
                                |j: int| Seq::<char>::empty(),
                            ));
                        }
                    }
                    self.flow = FlowState::Answering {
                        questions: clone_texts(&r.1),
                        answers,
                        refined_goal: r.0.clone(),
                        cost: r.2,
                    };
                    assert(self@ =~= before@.asked(r.0@, text::views(r.1@), r.2));
                }
            },
        }
    }

    /// Sets the answer to question `index` while questions are asked.
    pub fn set_answer(&mut self, index: usize, value: &str)
        ensures
            final(self)@ == match old(self)@.flow {
                FlowModel::Answering { questions, answers, refined_goal, cost } => if index
                    < answers.len() {
                    old(self)@.at(
                        FlowModel::Answering {
                            questions,
                            answers: answers.update(index as int, value@),
                            refined_goal,
                            cost,
                        },
                    )
                } else {
                    old(self)@
                },
                _ => old(self)@,
            },
    {
        let ghost before = *self;
        match &mut self.flow {
            FlowState::Answering { questions, answers, refined_goal, cost } => {
                let ghost old_answers = answers@;
                let ghost m = before@.flow;
                assert(m == FlowModel::Answering {
                    questions: text::views(questions@),
                    answers: text::views(old_answers),
                    refined_goal: refined_goal@,
                    cost: *cost,
                });
                assert(text::views(old_answers).len() == old_answers.len());
                if index < answers.len() {
                    answers.set(index, value.to_string());
                    assert(text::views(answers@) =~= text::views(old_answers).update(
                        index as int,
                        value@,
                    ));
                }
            },
            _ => {},
        }
    }

    /// "Continue" from the questions: asks for the second pass with the
    /// answers collected.
    pub fn proceed(&mut self) -> (r: FormAction)
        ensures
            old(self)@.continues(final(self)@, r),
    {
        let ghost before = *self;
        let action = match &self.flow {
            FlowState::Answering { questions, answers, refined_goal, cost } => {
                match &self.workspace {
                    None => None,
                    Some(selected) => {
                        let ghost all = pairs(text::views(questions@), text::views(answers@));
                        let mut list: Vec<(String, String)> = Vec::new();
                        let mut i: usize = 0;
                        while i < questions.len() && i < answers.len()
                            invariant
                                i <= questions@.len(),
                                i <= answers@.len(),
                                all == pairs(text::views(questions@), text::views(answers@)),
                                config::answer_views(list@) == all.take(i as int),
                            decreases questions@.len() - i,
                        {
                            let ghost sofar = list@;
                            list.push((questions[i].clone(), answers[i].clone()));
                            proof {
                                assert(config::answer_views(list@) =~= config::answer_views(
                                    sofar,
                                ).push((questions@[i as int]@, answers@[i as int]@)));
                                assert(all.take(i + 1) =~= all.take(i as int).push(all[i as int]));
                            }
                            i = i + 1;
                        }
                        assert(all.take(i as int) =~= all);
                        Some(
                            FormAction::Finalize {
                                root: common_root(&selected.repos),
                                goal: trim(self.goal.as_str()),
                                answers: list,
                                language: self.language,
                                cost: *cost,
                            },
                        )
                    },
                }
            },
            _ => {
                return FormAction::Nothing;
            },
        };
        match action {
            None => {
                self.flow = FlowState::Error(STILL_LOADING.to_string());
                FormAction::Nothing
            },
            Some(a) => {
                self.flow = FlowState::Submitting;
                a
            },
        }
    }

    /// Takes in what the second refine pass answered and what both passes
    /// cost together, or the error.
    pub fn finalized(&mut self, reply: &Result<(String, Usd), String>)
        ensures
            final(self)@ == old(self)@.at(
                match reply {
                    Err(e) => FlowModel::Error(e@),
                    Ok((goal, total)) => FlowModel::Confirming { goal: goal@, cost: *total },
                },
            ),
    {
        match reply {
            Err(e) => {
                self.flow = FlowState::Error(e.clone());
            },
            Ok(r) => {
                self.flow = FlowState::Confirming { goal: r.0.clone(), cost: r.1 };
            },
        }
    }

    /// Edits the goal while it is confirmed.
    pub fn edit_goal(&mut self, value: &str)
        ensures
            final(self)@ == match old(self)@.flow {
                FlowModel::Confirming { goal, cost } => old(self)@.at(
                    FlowModel::Confirming { goal: value@, cost },
                ),
                _ => old(self)@,
            },
    {
        let cost: Option<Usd> = match &self.flow {
            FlowState::Confirming { goal, cost } => Some(*cost),
            _ => None,
        };
        if let Some(cost) = cost {
            self.flow = FlowState::Confirming { goal: value.to_string(), cost };
        }
    }

    /// "Plan" from the confirmation: starts the run with the (possibly
    /// edited) final goal and the accumulated refine cost.
    pub fn plan(&mut self) -> (r: FormAction)
        ensures
            old(self)@.plans(final(self)@, r),
    {
        let action = match &self.flow {
            FlowState::Confirming { goal, cost } => {
                match &self.workspace {
                    None => None,
                    Some(selected) => Some(
                        FormAction::Start(self.request(selected, goal.clone(), *cost)),
                    ),
                }
            },
            _ => {
                return FormAction::Nothing;
            },
        };
        match action {
            None => {
                self.flow = FlowState::Error(STILL_LOADING.to_string());
                FormAction::Nothing
            },
            Some(a) => {
                self.flow = FlowState::Submitting;
                a
            },
        }
    }

    /// Takes in the id of the started run, or the error: the page of the run
    /// to go to, or none.
    pub fn launched(&mut self, reply: &Result<String, String>) -> (r: Option<String>)
        ensures
            match reply {
                Ok(id) => text::opt_view(r) == Some("/run/"@ + id@) && final(self)@ == old(self)@,
                Err(e) => r is None && final(self)@ == old(self)@.at(FlowModel::Error(e@)),
            },
    {
        match reply {
            Ok(id) => Some("/run/".to_string().concat(id.as_str())),
            Err(e) => {
                self.flow = FlowState::Error(e.clone());
                None
            },
        }
    }

    /// Which part of the page is up.
    pub fn screen(&self) -> (r: Screen)
        ensures
            r == self@.screen_shown(),
    {
        if self.load_error.is_some() {
            Screen::LoadError
        } else if self.workspace.is_none() {
            Screen::Loading
        } else {
            match &self.flow {
                FlowState::Editing => Screen::Form,
                FlowState::Error(_) => Screen::Form,
                FlowState::Submitting => Screen::Submitting,
                FlowState::Answering { .. } => Screen::Questions,
                FlowState::Confirming { .. } => Screen::Confirmation,
            }
        }
    }

    /// The repositories of the workspace in a word: the path of a single one,
    /// or how many there are.
    pub fn repo_summary(&self) -> (r: Option<String>)
        ensures
            text::opt_view(r) == match self@.workspace {
                None => None,
                Some(ws) => Some(
                    if ws.repos.len() == 1 {
                        ws.repos[0].path@
                    } else {
                        text::decimal_of(ws.repos.len()) + " repos"@
                    },
                ),
            },
    {
        match &self.workspace {
            None => None,
            Some(ws) => if ws.repos.len() == 1 {
                Some(ws.repos[0].path.clone())
            } else {
                Some(decimal(ws.repos.len() as u64).concat(" repos"))
            },
        }
    }

    /// What the submit button says.
    pub fn submit_label(&self) -> (r: &'static str)
        ensures
            r@ == if self@.refine {
                "Refine & plan"@
            } else {
                "Start run"@
            },
    {
        if self.refine {
            "Refine & plan"
        } else {
            "Start run"
        }
    }
}

/// Submitting, continuing and planning change only where the form stands, also
/// where they end in an error: what was typed into the form stays.
pub proof fn law_errors_lose_nothing(m: FormModel, after: FormModel, action: FormAction)
    requires
        m.submits(after, action) || m.continues(after, action) || m.plans(after, action),
    ensures
        after == m.at(after.flow),
{
}

/// A submit that starts a run starts it with a goal that has text in it, and
/// with exactly the repositories of the form.
pub proof fn law_started_runs_have_a_goal(m: FormModel, after: FormModel, action: FormAction)
    requires
        m.submits(after, action),
        action is Start,
    ensures
        action matches FormAction::Start(req) && req.goal@.len() > 0
            && req.workspace.repos@.len() == m.repos.len(),
{
}

} // verus!
