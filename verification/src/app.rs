//! Run state and the events that change it: the run phase, one view per
//! epic, and a bounded log.
use std::collections::VecDeque;
use vstd::prelude::*;
use vstd::string::*;

use crate::strmap::StrMap;
use crate::text;
use crate::text::{clone_opt, clone_texts, decimal, same};

verus! {

/// The most log lines a run keeps.
pub const LOG_CAP: usize = 2000;

/// An amount in US dollars, held as the bits of its IEEE-754 double.
#[derive(Debug, Clone, Copy, PartialEq, Eq, Structural)]
pub struct Usd {
    pub bits: u64,
}

/// No cost: the bits of zero are all clear.
pub open spec fn no_cost() -> Usd {
    Usd { bits: 0 }
}

/// Where a run stands.
#[derive(Debug, Clone, Copy, PartialEq, Eq, Structural)]
pub enum Phase {
    Planning,
    Implementing,
    Done,
    Failed,
}

/// Where an epic stands, as the board shows it.
#[derive(Debug, Clone, Copy, PartialEq, Eq, Structural)]
pub enum EpicStatus {
    // Seeded when the plan is ready; shown in the kanban Todo column.
    Pending,
    Running,
    Verifying,
    Merged,
    Failed,
    Skipped,
    Conflict,
}

/// The kanban board column an epic belongs to.
#[derive(Debug, Clone, Copy, PartialEq, Eq, Structural)]
pub enum KanbanColumn {
    Todo,
    InProgress,
    Review,
    Done,
    Blocked,
}

/// The language of a run's questions, summaries and prose.
#[derive(Debug, Clone, Copy, PartialEq, Eq, Structural)]
pub enum Language {
    English,
    Indonesian,
}

/// The column of a status.
pub open spec fn column_of(status: EpicStatus) -> KanbanColumn {
    match status {
        EpicStatus::Pending => KanbanColumn::Todo,
        EpicStatus::Running => KanbanColumn::InProgress,
        EpicStatus::Verifying => KanbanColumn::Review,
        EpicStatus::Merged => KanbanColumn::Done,
        EpicStatus::Failed => KanbanColumn::Blocked,
        EpicStatus::Skipped => KanbanColumn::Blocked,
        EpicStatus::Conflict => KanbanColumn::Blocked,
    }
}

/// Map an epic status to its kanban column.
pub fn kanban_column(status: EpicStatus) -> (r: KanbanColumn)
    ensures
        r == column_of(status),
{
    match status {
        EpicStatus::Pending => KanbanColumn::Todo,
        EpicStatus::Running => KanbanColumn::InProgress,
        EpicStatus::Verifying => KanbanColumn::Review,
        EpicStatus::Merged => KanbanColumn::Done,
        EpicStatus::Failed | EpicStatus::Skipped | EpicStatus::Conflict => KanbanColumn::Blocked,
    }
}

/// True when any dependency is not known to have merged.
pub open spec fn on_hold(
    depends_on: Seq<Seq<char>>,
    status_by_id: Map<Seq<char>, EpicStatus>,
) -> bool {
    exists|i: int|
        0 <= i < depends_on.len() && !(status_by_id.contains_key(#[trigger] depends_on[i])
            && status_by_id[depends_on[i]] == EpicStatus::Merged)
}

/// True when any dependency has not yet merged, so a pending epic is on hold.
pub fn is_on_hold(depends_on: &Vec<String>, status_by_id: &StrMap<EpicStatus>) -> (r: bool)
    requires
        status_by_id.wf(),
    ensures
        r == on_hold(text::views(depends_on@), status_by_id@),
{
    let mut i: usize = 0;
    let ghost deps = text::views(depends_on@);
    while i < depends_on.len()
        invariant
            status_by_id.wf(),
            deps == text::views(depends_on@),
            i <= depends_on@.len(),
            forall|j: int|
                0 <= j < i ==> status_by_id@.contains_key(#[trigger] deps[j])
                    && status_by_id@[deps[j]] == EpicStatus::Merged,
        decreases depends_on@.len() - i,
    {
        assert(deps[i as int] == depends_on@[i as int]@);
        let merged = match status_by_id.get(depends_on[i].as_str()) {
            Some(s) => *s == EpicStatus::Merged,
            None => false,
        };
        if !merged {
            return true;
        }
        i = i + 1;
    }
    false
}

/// One epic as the board shows it.
#[derive(Debug, PartialEq)]
pub struct EpicView {
    pub id: String,
    pub title: String,
    pub status: EpicStatus,
    pub cost: Usd,
    pub repo: String,
    pub depends_on: Vec<String>,
    pub reason: Option<String>,
}

/// The content of an epic's card.
#[verifier::ext_equal]
pub ghost struct CardModel {
    pub id: Seq<char>,
    pub title: Seq<char>,
    pub status: EpicStatus,
    pub cost: Usd,
    pub repo: Seq<char>,
    pub depends_on: Seq<Seq<char>>,
    pub reason: Option<Seq<char>>,
}

impl View for EpicView {
    type V = CardModel;

    open spec fn view(&self) -> CardModel {
        CardModel {
            id: self.id@,
            title: self.title@,
            status: self.status,
            cost: self.cost,
            repo: self.repo@,
            depends_on: text::views(self.depends_on@),
            reason: text::opt_view(self.reason),
        }
    }
}

impl Clone for EpicView {
    fn clone(&self) -> (r: EpicView)
        ensures
            r@ == self@,
    {
        EpicView {
            id: self.id.clone(),
            title: self.title.clone(),
            status: self.status,
            cost: self.cost,
            repo: self.repo.clone(),
            depends_on: clone_texts(&self.depends_on),
            reason: clone_opt(&self.reason),
        }
    }
}

/// A copy of a list of cards.
pub fn clone_cards(cards: &Vec<EpicView>) -> (r: Vec<EpicView>)
    ensures
        text::views(r@) == text::views(cards@),
{
    let mut out: Vec<EpicView> = Vec::new();
    let mut i: usize = 0;
    while i < cards.len()
        invariant
            i <= cards@.len(),
            text::views(out@) == text::views(cards@).take(i as int),
        decreases cards@.len() - i,
    {
        let ghost before = out@;
        out.push(cards[i].clone());
        i = i + 1;
        assert(text::views(out@) =~= text::views(before).push(cards@[i - 1]@));
        assert(text::views(out@) =~= text::views(cards@).take(i as int));
    }
    assert(text::views(cards@).take(i as int) =~= text::views(cards@));
    out
}

/// Some epic has merged.
pub open spec fn any_merged(epics: Seq<CardModel>) -> bool {
    exists|i: int| 0 <= i < epics.len() && (#[trigger] epics[i]).status is Merged
}

/// Whether some epic has merged.
pub fn has_merged(epics: &Vec<EpicView>) -> (r: bool)
    ensures
        r == any_merged(text::views(epics@)),
{
    let ghost all = text::views(epics@);
    let mut i: usize = 0;
    while i < epics.len()
        invariant
            i <= epics@.len(),
            all == text::views(epics@),
            forall|j: int| 0 <= j < i ==> !((#[trigger] all[j]).status is Merged),
        decreases epics@.len() - i,
    {
        assert(all[i as int] == epics@[i as int]@);
        if epics[i].status == EpicStatus::Merged {
            return true;
        }
        i = i + 1;
    }
    false
}

/// What the plan says of an epic before it runs.
#[derive(Debug, Clone, PartialEq)]
pub struct EpicMeta {
    pub id: String,
    pub title: String,
    pub depends_on: Vec<String>,
}

/// A pipeline event the server applies to `App` and forwards to the browser.
#[derive(Debug, Clone, PartialEq)]
pub enum StageEvent {
    // Streaming from a session. `tag` is "plan" or an epic id.
    StageLog { tag: String, line: String },
    StageAssistant { tag: String, text: String },
    StageTool { tag: String, name: String, input: String },
    // Lifecycle.
    PlanReady { epics: Vec<EpicMeta> },
    EpicStarted { id: String, title: String, repo: String },
    EpicVerifying { id: String },
    EpicSucceeded { id: String, cost: Usd },
    EpicFailed { id: String, reason: String },
    EpicSkipped { id: String },
    EpicMerged { id: String },
    EpicConflict { id: String },
    Cost { total: Usd },
    Fatal { reason: String },
    Done,
}

/// A key the terminal reports.
#[derive(Debug, Clone, Copy, PartialEq, Eq, Structural)]
pub enum Key {
    Char(char),
    /// The interrupt key.
    CtrlC,
    Enter,
    Esc,
    Up,
    Down,
    Backspace,
    Other,
}

/// Everything that reaches the UI: a pipeline event, a key, or the redraw tick.
#[derive(Debug, Clone, PartialEq)]
pub enum AppEvent {
    Stage(StageEvent),
    Input(Key),
    Tick,
}

/// The state of one run.
#[derive(Debug, PartialEq)]
pub struct App {
    pub goal: String,
    pub workspace: String,
    pub phase: Phase,
    pub epics: Vec<EpicView>,
    pub log: VecDeque<String>,
    pub total_cost: Usd,
    pub budget: Usd,
    pub error: Option<String>,
    pub spinner: usize,
    pub elapsed_secs: u64,
}

/// The content of a run's state.
#[verifier::ext_equal]
pub ghost struct AppModel {
    pub goal: Seq<char>,
    pub workspace: Seq<char>,
    pub phase: Phase,
    pub epics: Seq<CardModel>,
    pub log: Seq<Seq<char>>,
    pub total_cost: Usd,
    pub budget: Usd,
    pub error: Option<Seq<char>>,
    pub spinner: usize,
    pub elapsed_secs: u64,
}

impl View for App {
    type V = AppModel;

    open spec fn view(&self) -> AppModel {
        AppModel {
            goal: self.goal@,
            workspace: self.workspace@,
            phase: self.phase,
            epics: text::views(self.epics@),
            log: text::views(self.log@),
            total_cost: self.total_cost,
            budget: self.budget,
            error: text::opt_view(self.error),
            spinner: self.spinner,
            elapsed_secs: self.elapsed_secs,
        }
    }
}

impl Clone for App {
    fn clone(&self) -> (r: App)
        ensures
            r@ == self@,
    {
        let mut log: VecDeque<String> = VecDeque::new();
        let mut i: usize = 0;
        while i < self.log.len()
            invariant
                i <= self.log@.len(),
                log@ == self.log@.take(i as int),
            decreases self.log@.len() - i,
        {
            log.push_back(self.log[i].clone());
            i = i + 1;
            assert(log@ =~= self.log@.take(i as int));
        }
        assert(self.log@.take(i as int) =~= self.log@);
        App {
            goal: self.goal.clone(),
            workspace: self.workspace.clone(),
            phase: self.phase,
            epics: clone_cards(&self.epics),
            log,
            total_cost: self.total_cost,
            budget: self.budget,
            error: clone_opt(&self.error),
            spinner: self.spinner,
            elapsed_secs: self.elapsed_secs,
        }
    }
}

/// Card `i` is the first with the id.
pub open spec fn first_card(epics: Seq<CardModel>, id: Seq<char>, i: int) -> bool {
    &&& 0 <= i < epics.len()
    &&& epics[i].id == id
    &&& forall|j: int| 0 <= j < i ==> (#[trigger] epics[j]).id != id
}

/// Some card has the id.
pub open spec fn has_card(epics: Seq<CardModel>, id: Seq<char>) -> bool {
    exists|i: int| 0 <= i < epics.len() && (#[trigger] epics[i]).id == id
}

/// The cards with the status of the first one with the id replaced.
pub open spec fn with_status(
    epics: Seq<CardModel>,
    id: Seq<char>,
    status: EpicStatus,
) -> Seq<CardModel> {
    Seq::new(
        epics.len(),
        |i: int|
            if first_card(epics, id, i) {
                CardModel { status, ..epics[i] }
            } else {
                epics[i]
            },
    )
}

/// The cards with the cost of the first one with the id replaced.
pub open spec fn with_cost(epics: Seq<CardModel>, id: Seq<char>, cost: Usd) -> Seq<CardModel> {
    Seq::new(
        epics.len(),
        |i: int|
            if first_card(epics, id, i) {
                CardModel { cost, ..epics[i] }
            } else {
                epics[i]
            },
    )
}

/// The cards with a note on the first one with the id: its repository, where
/// one is given, and why it is stuck.
pub open spec fn with_note(
    epics: Seq<CardModel>,
    id: Seq<char>,
    repo: Option<Seq<char>>,
    reason: Option<Seq<char>>,
) -> Seq<CardModel> {
    Seq::new(
        epics.len(),
        |i: int|
            if first_card(epics, id, i) {
                CardModel {
                    repo: match repo {
                        Some(name) => name,
                        None => epics[i].repo,
                    },
                    reason,
                    ..epics[i]
                }
            } else {
                epics[i]
            },
    )
}

/// A card that nothing is known of but its id, title, status and repository.
pub open spec fn bare_card(
    id: Seq<char>,
    title: Seq<char>,
    status: EpicStatus,
    repo: Seq<char>,
) -> CardModel {
    CardModel { id, title, status, cost: no_cost(), repo, depends_on: Seq::empty(), reason: None }
}

/// The card seeded for an epic of the plan.
pub open spec fn seeded_card(meta: EpicMeta) -> CardModel {
    CardModel {
        id: meta.id@,
        title: meta.title@,
        status: EpicStatus::Pending,
        cost: no_cost(),
        repo: Seq::empty(),
        depends_on: text::views(meta.depends_on@),
        reason: None,
    }
}

/// The newest lines, as many as the cap allows.
pub open spec fn capped(log: Seq<Seq<char>>) -> Seq<Seq<char>> {
    if log.len() > LOG_CAP {
        log.skip(log.len() - LOG_CAP)
    } else {
        log
    }
}

impl AppModel {
    /// The state with a line added to the log.
    pub open spec fn logged(self, line: Seq<char>) -> AppModel {
        AppModel { log: capped(self.log.push(line)), ..self }
    }

    /// The state with the status of an epic replaced.
    pub open spec fn marked(self, id: Seq<char>, status: EpicStatus) -> AppModel {
        AppModel { epics: with_status(self.epics, id, status), ..self }
    }

    /// The state with the status of an epic replaced, or a card added for it.
    pub open spec fn marked_or_added(self, card: CardModel) -> AppModel {
        if has_card(self.epics, card.id) {
            self.marked(card.id, card.status)
        } else {
            AppModel { epics: self.epics.push(card), ..self }
        }
    }

    /// The state with a note on an epic's card.
    pub open spec fn noted(
        self,
        id: Seq<char>,
        repo: Option<Seq<char>>,
        reason: Option<Seq<char>>,
    ) -> AppModel {
        AppModel { epics: with_note(self.epics, id, repo, reason), ..self }
    }

    /// The state after an event.
    pub open spec fn after(self, ev: StageEvent) -> AppModel {
        match ev {
            StageEvent::StageLog { tag, line } => self.logged("["@ + tag@ + "] "@ + line@),
            StageEvent::StageAssistant { tag, text } => self.logged("["@ + tag@ + "] . "@ + text@),
            StageEvent::StageTool { tag, name, input } => self.logged(
                "["@ + tag@ + "] tool: "@ + name@,
            ),
            StageEvent::PlanReady { epics } => AppModel {
                phase: Phase::Implementing,
                epics: Seq::new(epics@.len(), |i: int| seeded_card(epics@[i])),
                ..self
            }.logged("plan ready: "@ + text::decimal_of(epics@.len()) + " epics"@),
            StageEvent::EpicStarted { id, title, repo } => self.marked_or_added(
                bare_card(id@, title@, EpicStatus::Running, repo@),
            ).noted(id@, Some(repo@), None).logged("epic "@ + id@ + " started: "@ + title@),
            StageEvent::EpicVerifying { id } => self.marked(id@, EpicStatus::Verifying),
            StageEvent::EpicSucceeded { id, cost } => AppModel {
                epics: with_cost(self.epics, id@, cost),
                ..self
            }.logged("epic "@ + id@ + " passed verify"@),
            StageEvent::EpicMerged { id } => self.marked(id@, EpicStatus::Merged).logged(
                "epic "@ + id@ + " merged"@,
            ),
            StageEvent::EpicFailed { id, reason } => self.marked(id@, EpicStatus::Failed).noted(
                id@,
                None,
                Some(reason@),
            ).logged("epic "@ + id@ + " failed: "@ + reason@),
            StageEvent::EpicSkipped { id } => self.marked_or_added(
                bare_card(id@, Seq::empty(), EpicStatus::Skipped, Seq::empty()),
            ),
            StageEvent::EpicConflict { id } => self.marked(id@, EpicStatus::Conflict).logged(
                "epic "@ + id@ + " merge conflict, needs manual merge"@,
            ),
            StageEvent::Cost { total } => AppModel { total_cost: total, ..self },
            StageEvent::Fatal { reason } => AppModel {
                phase: Phase::Failed,
                error: Some(reason@),
                ..self
            }.logged("! FATAL: "@ + reason@),
            StageEvent::Done => AppModel {
                phase: if self.phase == Phase::Failed {
                    Phase::Failed
                } else {
                    Phase::Done
                },
                ..self
            },
        }
    }
}

impl App {
    /// A run that is being planned.
    pub fn new(goal: String, workspace: String, budget: Usd) -> (r: Self)
        ensures
            r@ == (AppModel {
                goal: goal@,
                workspace: workspace@,
                phase: Phase::Planning,
                epics: Seq::empty(),
                log: Seq::empty(),
                total_cost: no_cost(),
                budget,
                error: None,
                spinner: 0,
                elapsed_secs: 0,
            }),
    {
        let r = App {
            goal,
            workspace,
            phase: Phase::Planning,
            epics: Vec::new(),
            log: VecDeque::new(),
            total_cost: Usd { bits: 0 },
            budget,
            error: None,
            spinner: 0,
            elapsed_secs: 0,
        };
        assert(r@.epics =~= Seq::<CardModel>::empty());
        assert(r@.log =~= Seq::<Seq<char>>::empty());
        r
    }

    /// Advances the spinner and, while the run is active, the elapsed time;
    /// `since_start` is the time since the run started, in seconds.
    pub fn tick(&mut self, since_start: u64)
        ensures
            final(self)@ == (AppModel {
                spinner: if old(self).spinner == usize::MAX {
                    0
                } else {
                    (old(self).spinner + 1) as usize
                },
                elapsed_secs: if old(self).phase == Phase::Planning || old(self).phase
                    == Phase::Implementing {
                    since_start
                } else {
                    old(self).elapsed_secs
                },
                ..old(self)@
            }),
    {
        if self.spinner == usize::MAX {
            self.spinner = 0;
        } else {
            self.spinner = self.spinner + 1;
        }
        if self.phase == Phase::Planning || self.phase == Phase::Implementing {
            self.elapsed_secs = since_start;
        }
    }

    fn push_log(&mut self, line: String)
        ensures
            final(self)@ == old(self)@.logged(line@),
    {
        let ghost before = self@;
        let ghost start = self.log@;
        self.log.push_back(line);
        let ghost full = self.log@;
        assert(text::views(full) =~= before.log.push(line@));
        let ghost rest = self@;
        while self.log.len() > LOG_CAP
            invariant
                self.log@.len() <= full.len(),
                self.log@ == full.skip(full.len() - self.log@.len()),
                self.log@.len() >= LOG_CAP || self.log@ == full,
                self@ == (AppModel { log: text::views(self.log@), ..rest }),
            decreases self.log@.len(),
        {
            let ghost now = self.log@;
            let _ = self.log.pop_front();
            assert(self.log@ =~= full.skip(full.len() - self.log@.len()));
        }
        assert(text::views(self.log@) =~= capped(text::views(full)));
        assert(self@ =~= before.logged(line@));
    }

    fn find_epic(&self, id: &str) -> (r: Option<usize>)
        ensures
            match r {
                Some(i) => first_card(self@.epics, id@, i as int),
                None => !has_card(self@.epics, id@),
            },
    {
        let mut i: usize = 0;
        while i < self.epics.len()
            invariant
                i <= self.epics@.len(),
                forall|j: int| 0 <= j < i ==> (#[trigger] self@.epics[j]).id != id@,
            decreases self.epics@.len() - i,
        {
            assert(self@.epics[i as int].id == self.epics@[i as int].id@);
            if same(self.epics[i].id.as_str(), id) {
                return Some(i);
            }
            i = i + 1;
        }
        None
    }

    fn set_status(&mut self, id: &str, status: EpicStatus)
        ensures
            final(self)@ == old(self)@.marked(id@, status),
    {
        let ghost before = self@;
        match self.find_epic(id) {
            Some(i) => {
                let ghost cards = self.epics@;
                self.epics[i].status = status;
                proof {
                    assert(self.epics@ =~= cards.update(i as int, self.epics@[i as int]));
                    assert forall|j: int| 0 <= j < cards.len() implies #[trigger] self@.epics[j]
                        == with_status(before.epics, id@, status)[j] by {
                        assert(before.epics[j] == cards[j]@);
                        if j != i && first_card(before.epics, id@, j) {
                            assert(before.epics[i as int].id == id@);
                        }
                    }
                    assert(self@.epics =~= with_status(before.epics, id@, status));
                    assert(self@ =~= before.marked(id@, status));
                }
            },
            None => {
                assert(self@.epics =~= with_status(before.epics, id@, status));
                assert(self@ =~= before.marked(id@, status));
            },
        }
    }

    fn set_cost(&mut self, id: &str, cost: Usd)
        ensures
            final(self)@ == (AppModel {
                epics: with_cost(old(self)@.epics, id@, cost),
                ..old(self)@
            }),
    {
        let ghost before = self@;
        match self.find_epic(id) {
            Some(i) => {
                let ghost cards = self.epics@;
                self.epics[i].cost = cost;
                proof {
                    assert(self.epics@ =~= cards.update(i as int, self.epics@[i as int]));
                    assert forall|j: int| 0 <= j < cards.len() implies #[trigger] self@.epics[j]
                        == with_cost(before.epics, id@, cost)[j] by {
                        assert(before.epics[j] == cards[j]@);
                        if j != i && first_card(before.epics, id@, j) {
                            assert(before.epics[i as int].id == id@);
                        }
                    }
                    assert(self@.epics =~= with_cost(before.epics, id@, cost));
                }
            },
            None => {
                assert(self@.epics =~= with_cost(before.epics, id@, cost));
            },
        }
    }

    fn set_note(&mut self, id: &str, repo: Option<&str>, reason: Option<String>)
        ensures
            final(self)@ == old(self)@.noted(id@, match repo {
                Some(name) => Some(name@),
                None => None,
            }, text::opt_view(reason)),
    {
        let ghost before = self@;
        let ghost repo_text = match repo {
            Some(name) => Some(name@),
            None => None,
        };
        let ghost reason_text = text::opt_view(reason);
        match self.find_epic(id) {
            Some(i) => {
                let ghost cards = self.epics@;
                if let Some(name) = repo {
                    self.epics[i].repo = name.to_string();
                }
                self.epics[i].reason = reason;
                proof {
                    assert(self.epics@ =~= cards.update(i as int, self.epics@[i as int]));
                    assert forall|j: int| 0 <= j < cards.len() implies #[trigger] self@.epics[j]
                        == with_note(before.epics, id@, repo_text, reason_text)[j] by {
                        assert(before.epics[j] == cards[j]@);
                        if j != i && first_card(before.epics, id@, j) {
                            assert(before.epics[i as int].id == id@);
                        }
                    }
                    assert(self@.epics =~= with_note(before.epics, id@, repo_text, reason_text));
                }
            },
            None => {
                assert(self@.epics =~= with_note(before.epics, id@, repo_text, reason_text));
            },
        }
    }

    fn mark_or_add(&mut self, id: &str, title: &str, status: EpicStatus, repo: &str)
        ensures
            final(self)@ == old(self)@.marked_or_added(bare_card(id@, title@, status, repo@)),
    {
        let ghost before = self@;
        match self.find_epic(id) {
            Some(i) => {
                assert(has_card(self@.epics, id@)) by {
                    assert(self@.epics[i as int].id == id@);
                }
                self.set_status(id, status);
            },
            None => {
                let card = EpicView {
                    id: id.to_string(),
                    title: title.to_string(),
                    status,
                    cost: Usd { bits: 0 },
                    repo: repo.to_string(),
                    depends_on: Vec::new(),
                    reason: None,
                };
                assert(card@ =~= bare_card(id@, title@, status, repo@));
                self.epics.push(card);
                assert(self@.epics =~= before.epics.push(card@));
                assert(self@ =~= before.marked_or_added(card@));
            },
        }
    }

    /// Apply a wire event to the run state.
    pub fn apply_stage(&mut self, ev: StageEvent)
        ensures
            final(self)@ == old(self)@.after(ev),
    {
        let ghost before = self@;
        match ev {
            StageEvent::StageLog { tag, line } => self.push_log(
                "[".to_string().concat(tag.as_str()).concat("] ").concat(line.as_str()),
            ),
            StageEvent::StageAssistant { tag, text } => self.push_log(
                "[".to_string().concat(tag.as_str()).concat("] . ").concat(text.as_str()),
            ),
            StageEvent::StageTool { tag, name, input } => self.push_log(
                "[".to_string().concat(tag.as_str()).concat("] tool: ").concat(name.as_str()),
            ),
            StageEvent::PlanReady { epics } => {
                self.phase = Phase::Implementing;
                let mut cards: Vec<EpicView> = Vec::new();
                let mut i: usize = 0;
                while i < epics.len()
                    invariant
                        i <= epics@.len(),
                        text::views(cards@) == Seq::new(
                            i as nat,
                            |j: int| seeded_card(epics@[j]),
                        ),
                    decreases epics@.len() - i,
                {
                    let ghost sofar = cards@;
                    let meta = &epics[i];
                    let card = EpicView {
                        id: meta.id.clone(),
                        title: meta.title.clone(),
                        status: EpicStatus::Pending,
                        cost: Usd { bits: 0 },
                        repo: String::new(),
                        depends_on: clone_texts(&meta.depends_on),
                        reason: None,
                    };
                    assert(card@ =~= seeded_card(epics@[i as int]));
                    cards.push(card);
                    i = i + 1;
                    assert(text::views(cards@) =~= text::views(sofar).push(card@));
                    assert(text::views(cards@) =~= Seq::new(
                        i as nat,
                        |j: int| seeded_card(epics@[j]),
                    ));
                }
                self.epics = cards;
                let n: usize = self.epics.len();
                self.push_log(
                    "plan ready: ".to_string().concat(decimal(n as u64).as_str()).concat(" epics"),
                );
            },
            StageEvent::EpicStarted { id, title, repo } => {
                self.mark_or_add(id.as_str(), title.as_str(), EpicStatus::Running, repo.as_str());
                self.set_note(id.as_str(), Some(repo.as_str()), None);
                self.push_log(
                    "epic ".to_string().concat(id.as_str()).concat(" started: ").concat(
                        title.as_str(),
                    ),
                );
            },
            StageEvent::EpicVerifying { id } => self.set_status(
                id.as_str(),
                EpicStatus::Verifying,
            ),
            StageEvent::EpicSucceeded { id, cost } => {
                self.set_cost(id.as_str(), cost);
                self.push_log("epic ".to_string().concat(id.as_str()).concat(" passed verify"));
            },
            StageEvent::EpicMerged { id } => {
                self.set_status(id.as_str(), EpicStatus::Merged);
                self.push_log("epic ".to_string().concat(id.as_str()).concat(" merged"));
            },
            StageEvent::EpicFailed { id, reason } => {
                self.set_status(id.as_str(), EpicStatus::Failed);
                self.set_note(id.as_str(), None, Some(reason.clone()));
                self.push_log(
                    "epic ".to_string().concat(id.as_str()).concat(" failed: ").concat(
                        reason.as_str(),
                    ),
                );
            },
            StageEvent::EpicSkipped { id } => {
                let none = String::new();
                self.mark_or_add(id.as_str(), none.as_str(), EpicStatus::Skipped, none.as_str());
                assert(none@ =~= Seq::<char>::empty());
            },
            StageEvent::EpicConflict { id } => {
                self.set_status(id.as_str(), EpicStatus::Conflict);
                self.push_log(
                    "epic ".to_string().concat(id.as_str()).concat(
                        " merge conflict, needs manual merge",
                    ),
                );
            },
            StageEvent::Cost { total } => self.total_cost = total,
            StageEvent::Fatal { reason } => {
                self.phase = Phase::Failed;
                self.error = Some(reason.clone());
                self.push_log("! FATAL: ".to_string().concat(reason.as_str()));
            },
            StageEvent::Done => {
                if self.phase != Phase::Failed {
                    self.phase = Phase::Done;
                }
            },
        }
    }

    /// Apply any event. Keys and the redraw tick leave the run state alone.
    pub fn apply(&mut self, ev: AppEvent)
        ensures
            final(self)@ == match ev {
                AppEvent::Stage(stage) => old(self)@.after(stage),
                AppEvent::Input(_) => old(self)@,
                AppEvent::Tick => old(self)@,
            },
    {
        match ev {
            AppEvent::Stage(stage) => self.apply_stage(stage),
            AppEvent::Input(_) => {},
            AppEvent::Tick => {},
        }
    }
}

/// The state after a sequence of events.
pub open spec fn replayed(app: AppModel, events: Seq<StageEvent>) -> AppModel
    decreases events.len(),
{
    if events.len() == 0 {
        app
    } else {
        replayed(app, events.drop_last()).after(events.last())
    }
}

/// Whatever happens, the log never holds more lines than the cap.
pub proof fn law_log_is_bounded(app: AppModel, events: Seq<StageEvent>)
    requires
        app.log.len() <= LOG_CAP,
    ensures
        replayed(app, events).log.len() <= LOG_CAP,
    decreases events.len(),
{
    if events.len() > 0 {
        law_log_is_bounded(app, events.drop_last());
    }
}

/// An event adds at most one line, at the end, and drops lines from the
/// front only when the log is full.
pub proof fn law_log_keeps_the_newest(app: AppModel, ev: StageEvent)
    requires
        app.log.len() <= LOG_CAP,
    ensures
        app.after(ev).log == app.log || exists|line: Seq<char>|
            app.after(ev).log == if app.log.len() < LOG_CAP {
                app.log.push(line)
            } else {
                #[trigger] app.log.push(line).skip(1)
            },
{
    if app.after(ev).log != app.log {
        let line = app.after(ev).log.last();
        let full = app.log.push(line);
        assert(app.after(ev).log == capped(full));
        assert(full.skip(1) == app.log.push(line).skip(1));
    }
}

/// Once a run has failed, no end of the run hides it: it stays failed until a
/// new plan is ready.
pub proof fn law_failure_is_kept(app: AppModel, ev: StageEvent)
    requires
        app.phase == Phase::Failed,
        !(ev is PlanReady),
    ensures
        app.after(ev).phase == Phase::Failed,
{
}

/// A fatal event always ends the run as failed, with its reason recorded, and
/// leaves every epic as it was: what has merged stays merged.
pub proof fn law_fatal_fails_the_run(app: AppModel, reason: String)
    ensures
        app.after(StageEvent::Fatal { reason }).phase == Phase::Failed,
        app.after(StageEvent::Fatal { reason }).error == Some(reason@),
        app.after(StageEvent::Fatal { reason }).epics == app.epics,
{
}

/// An event about one epic leaves every card with another id as it was.
pub proof fn law_events_touch_one_epic(app: AppModel, ev: StageEvent, id: Seq<char>, i: int)
    requires
        0 <= i < app.epics.len(),
        match ev {
            StageEvent::EpicStarted { id: e, .. } => e@ == id,
            StageEvent::EpicVerifying { id: e } => e@ == id,
            StageEvent::EpicSucceeded { id: e, .. } => e@ == id,
            StageEvent::EpicFailed { id: e, .. } => e@ == id,
            StageEvent::EpicSkipped { id: e } => e@ == id,
            StageEvent::EpicMerged { id: e } => e@ == id,
            StageEvent::EpicConflict { id: e } => e@ == id,
            _ => false,
        },
        app.epics[i].id != id,
    ensures
        app.after(ev).epics.len() >= app.epics.len(),
        app.after(ev).epics[i] == app.epics[i],
{
}

/// A card that has failed shows why it is stuck, and one that has started
/// shows its repository and no reason.
pub proof fn law_cards_show_why_they_are_stuck(
    app: AppModel,
    id: String,
    title: String,
    repo: String,
    reason: String,
    i: int,
)
    requires
        first_card(app.epics, id@, i),
    ensures
        ({
            let card = app.after(StageEvent::EpicFailed { id, reason }).epics[i];
            card.status is Failed && card.reason == Some(reason@)
        }),
        ({
            let card = app.after(StageEvent::EpicStarted { id, title, repo }).epics[i];
            card.status is Running && card.repo == repo@ && card.reason is None
        }),
{
    let marked = with_status(app.epics, id@, EpicStatus::Failed);
    let running = with_status(app.epics, id@, EpicStatus::Running);
    assert(has_card(app.epics, id@)) by {
        assert(app.epics[i].id == id@);
    }
    assert forall|j: int| 0 <= j < i implies (#[trigger] marked[j]).id != id@ by {
        assert(app.epics[j].id != id@);
    }
    assert forall|j: int| 0 <= j < i implies (#[trigger] running[j]).id != id@ by {
        assert(app.epics[j].id != id@);
    }
    assert(first_card(marked, id@, i));
    assert(first_card(running, id@, i));
}

} // verus!
