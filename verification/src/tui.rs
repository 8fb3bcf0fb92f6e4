//! The terminal screens: the workspace picker, the onboarding wizard and the
//! goal input as state machines, and what the run view shows.
use vstd::prelude::*;
use vstd::string::*;

use crate::app;
use crate::app::{
    has_merged, is_on_hold, kanban_column, App, EpicStatus, EpicView, KanbanColumn, Key, Phase,
};
use crate::refine;
use crate::refine::type_key;
use crate::strmap::StrMap;
use crate::text;
use crate::text::{decimal, take_chars, to_chars, trim};
use crate::workspace;
use crate::workspace::Workspace;

verus! {

/// What a key did in the workspace picker.
#[derive(Debug, Clone, Copy, PartialEq, Eq, Structural)]
pub enum PickerOutcome {
    Stay,
    /// The workspace at this position was chosen.
    Chosen(usize),
    /// More workspaces are to be added with the onboarding wizard.
    Add,
    Quit,
}

/// The workspace picker: a cursor on a list.
#[derive(Debug, Clone, Copy, PartialEq, Eq, Structural)]
pub struct Picker {
    count: usize,
    selected: usize,
}

/// The cursor moved up.
pub open spec fn moved_up(selected: nat) -> nat {
    if selected > 0 {
        (selected - 1) as nat
    } else {
        0
    }
}

/// The cursor moved down a list.
pub open spec fn moved_down(selected: nat, count: nat) -> nat {
    if selected + 1 < count {
        selected + 1
    } else {
        selected
    }
}

impl Picker {
    /// How many workspaces there are.
    pub closed spec fn count(self) -> nat {
        self.count as nat
    }

    /// Where the cursor is.
    pub closed spec fn cursor(self) -> nat {
        self.selected as nat
    }

    /// The cursor is on the list, or at the start of an empty one.
    pub open spec fn wf(self) -> bool {
        self.cursor() < self.count() || self.cursor() == 0
    }

    /// A picker with the cursor on the first of `count` workspaces.
    pub fn new(count: usize) -> (r: Picker)
        ensures
            r.wf(),
            r.count() == count,
            r.cursor() == 0,
    {
        Picker { count, selected: 0 }
    }

    /// Where the cursor is.
    pub fn selected(&self) -> (r: usize)
        ensures
            r == self.cursor(),
    {
        self.selected
    }

    /// Takes in a key: up and down move the cursor, Enter chooses, `a` adds
    /// and `q` quits. There is nothing to choose on an empty list.
    pub fn on_key(&mut self, key: Key) -> (r: PickerOutcome)
        requires
            old(self).wf(),
            key is Enter ==> old(self).count() > 0,
        ensures
            final(self).wf(),
            final(self).count() == old(self).count(),
            final(self).cursor() == match key {
                Key::Up => moved_up(old(self).cursor()),
                Key::Down => moved_down(old(self).cursor(), old(self).count()),
                _ => old(self).cursor(),
            },
            match key {
                Key::Enter => r matches PickerOutcome::Chosen(i) && i == old(self).cursor()
                    && i < old(self).count(),
                Key::Char('a') => r == PickerOutcome::Add,
                Key::Char('q') => r == PickerOutcome::Quit,
                _ => r == PickerOutcome::Stay,
            },
    {
        match key {
            Key::Up => {
                if self.selected > 0 {
                    self.selected = self.selected - 1;
                }
                PickerOutcome::Stay
            },
            Key::Down => {
                if self.count > 0 && self.selected < self.count - 1 {
                    self.selected = self.selected + 1;
                }
                PickerOutcome::Stay
            },
            Key::Enter => PickerOutcome::Chosen(self.selected),
            Key::Char(c) => if c == 'a' {
                PickerOutcome::Add
            } else if c == 'q' {
                PickerOutcome::Quit
            } else {
                PickerOutcome::Stay
            },
            _ => PickerOutcome::Stay,
        }
    }
}

/// The screens of the onboarding wizard.
#[derive(Debug, Clone, Copy, PartialEq, Eq, Structural)]
pub enum Screen {
    /// Typing the folder to scan.
    Root,
    /// Checking repositories off a list.
    List,
}

/// What a key did in the onboarding wizard.
#[derive(Debug, PartialEq)]
pub enum OnboardingStep {
    Stay,
    Cancel,
    /// Scan this folder, and hand the repositories found back.
    Scan(String),
    /// Save these workspaces.
    Save(Vec<Workspace>),
}

/// The onboarding wizard: scans a folder for git repositories and lets the
/// user pick some.
#[derive(Debug, PartialEq)]
pub struct Onboarding {
    screen: Screen,
    root: String,
    repos: Vec<Workspace>,
    checked: Vec<bool>,
    selected: usize,
}

/// The content of the wizard.
#[verifier::ext_equal]
pub ghost struct OnboardingModel {
    pub screen: Screen,
    pub root: Seq<char>,
    pub repos: Seq<workspace::WorkspaceModel>,
    pub checked: Seq<bool>,
    pub selected: nat,
}

impl View for Onboarding {
    type V = OnboardingModel;

    closed spec fn view(&self) -> OnboardingModel {
        OnboardingModel {
            screen: self.screen,
            root: self.root@,
            repos: text::views(self.repos@),
            checked: self.checked@,
            selected: self.selected as nat,
        }
    }
}

/// The workspaces that are checked, in their order.
pub open spec fn picked(
    repos: Seq<workspace::WorkspaceModel>,
    checked: Seq<bool>,
) -> Seq<workspace::WorkspaceModel>
    decreases repos.len(),
{
    if repos.len() == 0 || checked.len() == 0 {
        Seq::empty()
    } else {
        let head = picked(repos.drop_last(), checked.drop_last());
        if checked.last() {
            head.push(repos.last())
        } else {
            head
        }
    }
}

impl OnboardingModel {
    /// Every repository has its box, and the cursor is on the list unless it
    /// is empty.
    pub open spec fn wf(self) -> bool {
        &&& self.checked.len() == self.repos.len()
        &&& self.repos.len() > 0 ==> self.selected < self.repos.len()
    }

    /// The wizard after a key.
    pub open spec fn after(self, key: Key) -> OnboardingModel {
        match self.screen {
            Screen::Root => match key {
                Key::Char(_) => OnboardingModel { root: refine::typed(self.root, key), ..self },
                Key::Backspace => OnboardingModel { root: refine::typed(self.root, key), ..self },
                _ => self,
            },
            Screen::List => match key {
                Key::Char('r') => OnboardingModel { screen: Screen::Root, ..self },
                Key::Up => OnboardingModel { selected: moved_up(self.selected), ..self },
                Key::Down => OnboardingModel {
                    selected: moved_down(self.selected, self.repos.len()),
                    ..self
                },
                Key::Char(' ') => if self.repos.len() > 0 {
                    OnboardingModel {
                        checked: self.checked.update(
                            self.selected as int,
                            !self.checked[self.selected as int],
                        ),
                        ..self
                    }
                } else {
                    self
                },
                _ => self,
            },
        }
    }

    /// What a key asks for.
    pub open spec fn asks(self, key: Key, step: OnboardingStep) -> bool {
        if key == Key::CtrlC || key == Key::Esc {
            step is Cancel
        } else if key == Key::Enter && self.screen == Screen::Root {
            step matches OnboardingStep::Scan(dir) && dir@ == text::trimmed(self.root)
        } else if key == Key::Enter && picked(self.repos, self.checked).len() > 0 {
            step matches OnboardingStep::Save(list) && text::views(list@) == picked(
                self.repos,
                self.checked,
            )
        } else {
            step is Stay
        }
    }
}

impl Onboarding {
    /// Every repository has its box, and the cursor is on the list.
    pub closed spec fn wf(self) -> bool {
        self@.wf()
    }

    /// The boxes and the cursor of the wizard belong to its list.
    pub proof fn lemma_wf(&self)
        requires
            self.wf(),
        ensures
            self@.wf(),
    {
    }

    /// The wizard on its first screen, with a folder to start from.
    pub fn new(root: &str) -> (r: Onboarding)
        ensures
            r.wf(),
            r@ == (OnboardingModel {
                screen: Screen::Root,
                root: root@,
                repos: Seq::empty(),
                checked: Seq::empty(),
                selected: 0,
            }),
    {
        let r = Onboarding {
            screen: Screen::Root,
            root: root.to_string(),
            repos: Vec::new(),
            checked: Vec::new(),
            selected: 0,
        };
        assert(r@.repos =~= Seq::<workspace::WorkspaceModel>::empty());
        r
    }

    /// The screen that is shown.
    pub fn screen(&self) -> (r: Screen)
        ensures
            r == self@.screen,
    {
        self.screen
    }

    /// The folder being typed.
    pub fn root(&self) -> (r: &str)
        ensures
            r@ == self@.root,
    {
        self.root.as_str()
    }

    /// The repositories on the list.
    pub fn repos(&self) -> (r: &Vec<Workspace>)
        ensures
            text::views(r@) == self@.repos,
    {
        &self.repos
    }

    /// The boxes of the list.
    pub fn checked(&self) -> (r: &Vec<bool>)
        ensures
            r@ == self@.checked,
    {
        &self.checked
    }

    /// Where the cursor is.
    pub fn selected(&self) -> (r: usize)
        ensures
            r == self@.selected,
    {
        self.selected
    }

    /// Takes in what a scan found: the list is shown with nothing checked.
    pub fn scanned(&mut self, repos: Vec<Workspace>)
        requires
            old(self).wf(),
        ensures
            final(self).wf(),
            final(self)@ == (OnboardingModel {
                screen: Screen::List,
                root: old(self)@.root,
                repos: text::views(repos@),
                checked: Seq::new(repos@.len(), |i: int| false),
                selected: 0,
            }),
    {
        let mut checked: Vec<bool> = Vec::new();
        let mut i: usize = 0;
        while i < repos.len()
            invariant
                i <= repos@.len(),
                checked@ == Seq::new(i as nat, |j: int| false),
            decreases repos@.len() - i,
        {
            checked.push(false);
            i = i + 1;
            assert(checked@ =~= Seq::new(i as nat, |j: int| false));
        }
        self.repos = repos;
        self.checked = checked;
        self.selected = 0;
        self.screen = Screen::List;
    }

    fn picks(&self) -> (r: Vec<Workspace>)
        requires
            self.wf(),
        ensures
            text::views(r@) == picked(self@.repos, self@.checked),
    {
        let mut out: Vec<Workspace> = Vec::new();
        let ghost repos = self@.repos;
        let ghost boxes = self@.checked;
        let mut i: usize = 0;
        assert(text::views(out@) =~= Seq::<workspace::WorkspaceModel>::empty());
        assert(self.repos@.len() == repos.len());
        while i < self.repos.len()
            invariant
                i <= self.repos@.len(),
                repos == self@.repos,
                boxes == self@.checked,
                boxes == self.checked@,
                repos.len() == self.repos@.len(),
                boxes.len() == repos.len(),
                text::views(out@) == picked(repos.take(i as int), boxes.take(i as int)),
            decreases self.repos@.len() - i,
        {
            let ghost before = out@;
            proof {
                assert(repos.take(i + 1).drop_last() =~= repos.take(i as int));
                assert(boxes.take(i + 1).drop_last() =~= boxes.take(i as int));
                assert(repos.take(i + 1).last() == self.repos@[i as int]@);
            }
            if self.checked[i] {
                out.push(self.repos[i].clone());
                proof {
                    text::lemma_views_push(before, out@.last());
                    assert(out@ =~= before.push(out@.last()));
                }
            }
            i = i + 1;
        }
        assert(repos.take(i as int) =~= repos);
        assert(boxes.take(i as int) =~= boxes);
        out
    }

    /// Takes in a key.
    pub fn on_key(&mut self, key: Key) -> (r: OnboardingStep)
        requires
            old(self).wf(),
        ensures
            final(self).wf(),
            final(self)@ == old(self)@.after(key),
            old(self)@.asks(key, r),
    {
        let ghost before = *self;
        assert(self.repos@.len() == self@.repos.len());
        if key == Key::CtrlC || key == Key::Esc {
            return OnboardingStep::Cancel;
        }
        if self.screen == Screen::Root {
            match key {
                Key::Enter => OnboardingStep::Scan(trim(self.root.as_str())),
                Key::Char(_) => {
                    type_key(&mut self.root, key);
                    OnboardingStep::Stay
                },
                Key::Backspace => {
                    type_key(&mut self.root, key);
                    OnboardingStep::Stay
                },
                _ => OnboardingStep::Stay,
            }
        } else {
            match key {
                Key::Enter => {
                    let list = self.picks();
                    assert(list@.len() == text::views(list@).len());
                    if list.len() == 0 {
                        OnboardingStep::Stay
                    } else {
                        OnboardingStep::Save(list)
                    }
                },
                Key::Up => {
                    if self.selected > 0 {
                        self.selected = self.selected - 1;
                    }
                    OnboardingStep::Stay
                },
                Key::Down => {
                    if self.repos.len() > 0 && self.selected < self.repos.len() - 1 {
                        self.selected = self.selected + 1;
                    }
                    proof {
                        assert(self@ =~= before@.after(key));
                    }
                    OnboardingStep::Stay
                },
                Key::Char(c) => {
                    if c == 'r' {
                        self.screen = Screen::Root;
                    } else if c == ' ' && self.repos.len() > 0 {
                        let i: usize = self.selected;
                        let flipped: bool = !self.checked[i];
                        self.checked.set(i, flipped);
                        proof {
                            assert(self@ =~= before@.after(key));
                        }
                    }
                    OnboardingStep::Stay
                },
                _ => OnboardingStep::Stay,
            }
        }
    }
}

/// Which list the wizard ends with: what was saved and could be loaded again,
/// or the picks themselves where saving or loading failed.
pub fn onboarded(saved: bool, loaded: Option<Vec<Workspace>>, picks: Vec<Workspace>) -> (r: Vec<
    Workspace,
>)
    ensures
        r == match loaded {
            Some(list) => if saved {
                list
            } else {
                picks
            },
            None => picks,
        },
{
    if saved {
        match loaded {
            Some(list) => list,
            None => picks,
        }
    } else {
        picks
    }
}

/// What a key did in the goal input.
#[derive(Debug, PartialEq)]
pub enum GoalStep {
    Stay,
    Cancel,
    Entered(String),
}

/// Takes a key into the goal input: Enter takes the trimmed goal unless it is
/// blank, and Esc or an interrupt cancels.
pub fn goal_key(buffer: &mut String, key: Key) -> (r: GoalStep)
    ensures
        final(buffer)@ == refine::typed(old(buffer)@, key),
        match key {
            Key::CtrlC => r is Cancel,
            Key::Esc => r is Cancel,
            Key::Enter => if text::trimmed(old(buffer)@).len() > 0 {
                r matches GoalStep::Entered(goal) && goal@ == text::trimmed(old(buffer)@)
            } else {
                r is Stay
            },
            _ => r is Stay,
        },
{
    match key {
        Key::CtrlC => GoalStep::Cancel,
        Key::Esc => GoalStep::Cancel,
        Key::Enter => {
            let goal = trim(buffer.as_str());
            if goal.as_str().is_empty() {
                GoalStep::Stay
            } else {
                GoalStep::Entered(goal)
            }
        },
        _ => {
            type_key(buffer, key);
            GoalStep::Stay
        },
    }
}

/// The keys that leave the run view.
pub open spec fn quit_key(key: Key) -> bool {
    key == Key::Char('q') || key == Key::CtrlC
}

/// True of the keys that leave the run view.
pub fn quits(key: Key) -> (r: bool)
    ensures
        r == quit_key(key),
{
    match key {
        Key::Char(c) => c == 'q',
        Key::CtrlC => true,
        _ => false,
    }
}

/// The text cut to fit `max` characters, with dots where something was cut.
pub open spec fn truncated(s: Seq<char>, max: nat) -> Seq<char> {
    if s.len() <= max {
        s
    } else {
        text::first_chars(s, if max > 0 { (max - 1) as nat } else { 0 }) + "..."@
    }
}

/// The text cut to fit `max` characters, with dots where something was cut.
pub fn truncate(s: &str, max: usize) -> (r: String)
    ensures
        r@ == truncated(s@, max as nat),
{
    let cs = to_chars(s);
    if cs.len() <= max {
        s.to_string()
    } else {
        let keep: usize = if max > 0 {
            max - 1
        } else {
            0
        };
        take_chars(s, keep).concat("...")
    }
}

/// The colors of the board.
#[derive(Debug, Clone, Copy, PartialEq, Eq, Structural)]
pub enum CardColor {
    DarkGray,
    Cyan,
    Yellow,
    Green,
    Red,
    Magenta,
    Gray,
}

/// The marker and color of a card in a column.
pub open spec fn marker_of(
    card: app::CardModel,
    column: KanbanColumn,
    status_by_id: Map<Seq<char>, EpicStatus>,
) -> (Seq<char>, CardColor) {
    match column {
        KanbanColumn::Todo => if app::on_hold(card.depends_on, status_by_id) {
            ("hold"@, CardColor::DarkGray)
        } else {
            ("redy"@, CardColor::Cyan)
        },
        KanbanColumn::InProgress => ("run "@, CardColor::Yellow),
        KanbanColumn::Review => ("chk "@, CardColor::Yellow),
        KanbanColumn::Done => ("ok  "@, CardColor::Green),
        KanbanColumn::Blocked => match card.status {
            EpicStatus::Failed => ("x   "@, CardColor::Red),
            EpicStatus::Skipped => ("skip"@, CardColor::DarkGray),
            EpicStatus::Conflict => ("!   "@, CardColor::Magenta),
            _ => ("    "@, CardColor::Gray),
        },
    }
}

/// The short marker and color for an epic card, by column.
pub fn card_marker(
    epic: &EpicView,
    column: KanbanColumn,
    status_by_id: &StrMap<EpicStatus>,
) -> (r: (&'static str, CardColor))
    requires
        status_by_id.wf(),
    ensures
        (r.0@, r.1) == marker_of(epic@, column, status_by_id@),
{
    match column {
        KanbanColumn::Todo => {
            if is_on_hold(&epic.depends_on, status_by_id) {
                ("hold", CardColor::DarkGray)
            } else {
                ("redy", CardColor::Cyan)
            }
        },
        KanbanColumn::InProgress => ("run ", CardColor::Yellow),
        KanbanColumn::Review => ("chk ", CardColor::Yellow),
        KanbanColumn::Done => ("ok  ", CardColor::Green),
        KanbanColumn::Blocked => match epic.status {
            EpicStatus::Failed => ("x   ", CardColor::Red),
            EpicStatus::Skipped => ("skip", CardColor::DarkGray),
            EpicStatus::Conflict => ("!   ", CardColor::Magenta),
            _ => ("    ", CardColor::Gray),
        },
    }
}

/// The status of each id: that of the last card with it.
pub open spec fn statuses(epics: Seq<app::CardModel>) -> Map<Seq<char>, EpicStatus>
    decreases epics.len(),
{
    if epics.len() == 0 {
        Map::empty()
    } else {
        statuses(epics.drop_last()).insert(epics.last().id, epics.last().status)
    }
}

/// The status of each id: that of the last card with it.
pub fn status_by_id(epics: &Vec<EpicView>) -> (r: StrMap<EpicStatus>)
    ensures
        r.wf(),
        r@ == statuses(text::views(epics@)),
{
    let mut out: StrMap<EpicStatus> = StrMap::new();
    let ghost all = text::views(epics@);
    let mut i: usize = 0;
    while i < epics.len()
        invariant
            i <= epics@.len(),
            all == text::views(epics@),
            out.wf(),
            out@ == statuses(all.take(i as int)),
        decreases epics@.len() - i,
    {
        out.insert(epics[i].id.clone(), epics[i].status);
        proof {
            assert(all.take(i + 1).drop_last() =~= all.take(i as int));
            assert(all.take(i + 1).last() == epics@[i as int]@);
        }
        i = i + 1;
    }
    assert(all.take(i as int) =~= all);
    out
}

/// One line of a board column.
#[derive(Debug, PartialEq)]
pub struct BoardLine {
    pub text: String,
    pub color: CardColor,
}

/// The text of a card.
pub open spec fn card_label(card: app::CardModel) -> Seq<char> {
    if card.title.len() == 0 {
        card.id
    } else {
        card.id + " "@ + card.title
    }
}

/// The cards of a column, in their order.
pub open spec fn column_cards(
    epics: Seq<app::CardModel>,
    column: KanbanColumn,
) -> Seq<app::CardModel> {
    epics.filter(|c: app::CardModel| app::column_of(c.status) == column)
}

/// How many cards of a column are shown in so many rows: all that fit, with
/// one row kept for the overflow line where not all do.
pub open spec fn visible_cards(cards: nat, rows: nat) -> nat {
    if cards > rows {
        if rows > 0 {
            (rows - 1) as nat
        } else {
            0
        }
    } else {
        cards
    }
}

/// The line of a card.
pub open spec fn is_card_line(
    line: BoardLine,
    card: app::CardModel,
    column: KanbanColumn,
    status: Map<Seq<char>, EpicStatus>,
    width: nat,
) -> bool {
    &&& line.text@ == truncated(
        marker_of(card, column, status).0 + " "@ + card_label(card),
        width,
    )
    &&& line.color == marker_of(card, column, status).1
}

/// The lines of one board column, for a board of the given inner size: as
/// many cards as are visible, and how many more there are.
pub fn board_column(epics: &Vec<EpicView>, column: KanbanColumn, width: usize, rows: usize) -> (r: Vec<
    BoardLine,
>)
    ensures
        ({
            let all = text::views(epics@);
            let cards = column_cards(all, column);
            let shown = visible_cards(cards.len(), rows as nat);
            &&& r@.len() == shown + (if cards.len() > shown {
                1int
            } else {
                0int
            })
            &&& forall|i: int|
                0 <= i < shown ==> is_card_line(
                    #[trigger] r@[i],
                    cards[i],
                    column,
                    statuses(all),
                    width as nat,
                )
            &&& cards.len() > shown ==> r@[shown as int].text@ == "+"@ + text::decimal_of(
                (cards.len() - shown) as nat,
            ) + " more"@ && r@[shown as int].color == CardColor::DarkGray
        }),
{
    let status = status_by_id(epics);
    let ghost all = text::views(epics@);
    let ghost f = |c: app::CardModel| app::column_of(c.status) == column;
    let mut found: Vec<usize> = Vec::new();
    let mut i: usize = 0;
    proof {
        reveal(Seq::filter);
        assert(all.take(0).filter(f) =~= Seq::<app::CardModel>::empty());
    }
    while i < epics.len()
        invariant
            i <= epics@.len(),
            all == text::views(epics@),
            f == (|c: app::CardModel| app::column_of(c.status) == column),
            found@.len() == all.take(i as int).filter(f).len(),
            forall|k: int|
                0 <= k < found@.len() ==> (#[trigger] found@[k]) < epics@.len()
                    && epics@[found@[k] as int]@ == all.take(i as int).filter(f)[k],
        decreases epics@.len() - i,
    {
        let ghost head = all.take(i as int);
        let ghost sofar = found@;
        proof {
            assert(all[i as int] == epics@[i as int]@);
            assert(all.take(i + 1) =~= head.push(all[i as int]));
            head.lemma_filter_push(all[i as int], f);
        }
        if kanban_column(epics[i].status) == column {
            found.push(i);
        }
        i = i + 1;
        proof {
            let now = all.take(i as int).filter(f);
            assert forall|k: int| 0 <= k < found@.len() implies (#[trigger] found@[k])
                < epics@.len() && epics@[found@[k] as int]@ == now[k] by {
                if k < sofar.len() {
                    assert(found@[k] == sofar[k]);
                    assert(now[k] == head.filter(f)[k]);
                }
            }
        }
    }
    assert(all.take(i as int) =~= all);
    let ghost cards = column_cards(all, column);
    let shown: usize = if found.len() > rows {
        if rows > 0 {
            rows - 1
        } else {
            0
        }
    } else {
        found.len()
    };
    let mut out: Vec<BoardLine> = Vec::new();
    let mut k: usize = 0;
    while k < shown
        invariant
            k <= shown <= found@.len(),
            all == text::views(epics@),
            cards.len() == found@.len(),
            status.wf(),
            status@ == statuses(all),
            forall|j: int|
                0 <= j < found@.len() ==> (#[trigger] found@[j]) < epics@.len()
                    && epics@[found@[j] as int]@ == cards[j],
            out@.len() == k,
            forall|j: int|
                0 <= j < k ==> is_card_line(
                    #[trigger] out@[j],
                    cards[j],
                    column,
                    statuses(all),
                    width as nat,
                ),
        decreases shown - k,
    {
        let at: usize = found[k];
        let epic = &epics[at];
        let (marker, color) = card_marker(epic, column, &status);
        let label = if epic.title.as_str().is_empty() {
            epic.id.clone()
        } else {
            epic.id.clone().concat(" ").concat(epic.title.as_str())
        };
        assert(label@ =~= card_label(epic@));
        let whole = marker.to_string().concat(" ").concat(label.as_str());
        out.push(BoardLine { text: truncate(whole.as_str(), width), color });
        k = k + 1;
    }
    if found.len() > shown {
        let more = "+".to_string().concat(decimal((found.len() - shown) as u64).as_str()).concat(
            " more",
        );
        out.push(BoardLine { text: more, color: CardColor::DarkGray });
    }
    out
}

/// The first log line shown in so many rows: the newest lines are shown.
pub fn log_start(total: usize, rows: usize) -> (r: usize)
    ensures
        r == if total > rows {
            total - rows
        } else {
            0
        },
{
    if total > rows {
        total - rows
    } else {
        0
    }
}

/// The footer: an icon, a label and a color.
pub open spec fn footer_of(phase: Phase, spinner: usize, elapsed: u64) -> (
    Seq<char>,
    Seq<char>,
    CardColor,
) {
    match phase {
        Phase::Planning => (
            spinner_of(spinner),
            "planning... "@ + text::decimal_of(elapsed as nat) + "s"@,
            CardColor::Yellow,
        ),
        Phase::Implementing => (
            spinner_of(spinner),
            "implementing... "@ + text::decimal_of(elapsed as nat) + "s"@,
            CardColor::Yellow,
        ),
        Phase::Done => ("ok"@, "done"@, CardColor::Green),
        Phase::Failed => ("x"@, "failed"@, CardColor::Red),
    }
}

/// The picture of the spinner, which turns by one in four.
pub open spec fn spinner_of(n: usize) -> Seq<char> {
    if n % 4 == 0 {
        "|"@
    } else if n % 4 == 1 {
        "/"@
    } else if n % 4 == 2 {
        "-"@
    } else {
        "\\"@
    }
}

fn spinner(n: usize) -> (r: &'static str)
    ensures
        r@ == spinner_of(n),
{
    if n % 4 == 0 {
        "|"
    } else if n % 4 == 1 {
        "/"
    } else if n % 4 == 2 {
        "-"
    } else {
        "\\"
    }
}

/// The footer of the run view: an icon, a label and a color.
pub fn footer(app: &App) -> (r: (&'static str, String, CardColor))
    ensures
        (r.0@, r.1@, r.2) == footer_of(app.phase, app.spinner, app.elapsed_secs),
{
    match app.phase {
        Phase::Planning => (
            spinner(app.spinner),
            "planning... ".to_string().concat(decimal(app.elapsed_secs).as_str()).concat("s"),
            CardColor::Yellow,
        ),
        Phase::Implementing => (
            spinner(app.spinner),
            "implementing... ".to_string().concat(decimal(app.elapsed_secs).as_str()).concat("s"),
            CardColor::Yellow,
        ),
        Phase::Done => ("ok", "done".to_string(), CardColor::Green),
        Phase::Failed => ("x", "failed".to_string(), CardColor::Red),
    }
}

/// How the report calls a status.
pub open spec fn report_label_of(status: EpicStatus) -> Seq<char> {
    match status {
        EpicStatus::Merged => "merged"@,
        EpicStatus::Failed => "failed"@,
        EpicStatus::Skipped => "skipped"@,
        EpicStatus::Conflict => "conflict (manual merge)"@,
        _ => "incomplete"@,
    }
}

/// How the report calls a status.
pub fn report_label(status: EpicStatus) -> (r: &'static str)
    ensures
        r@ == report_label_of(status),
{
    match status {
        EpicStatus::Merged => "merged",
        EpicStatus::Failed => "failed",
        EpicStatus::Skipped => "skipped",
        EpicStatus::Conflict => "conflict (manual merge)",
        _ => "incomplete",
    }
}

/// The report's line for an epic.
pub open spec fn report_line_of(card: app::CardModel) -> Seq<char> {
    "  ["@ + report_label_of(card.status) + "] "@ + card.id + " "@ + card.title
}

/// The report of a run: its workspace and goal, one line per epic, and what it
/// cost, of which `cost` is the text. The report of a run that has ended with
/// any epic merged says where the merged work is.
pub open spec fn report_of(
    m: app::AppModel,
    cost: Seq<char>,
    branch: Seq<char>,
    repo: Seq<char>,
) -> Seq<Seq<char>> {
    let head = seq!["=== Run report ==="@, "Workspace: "@ + m.workspace, "Goal: "@ + m.goal];
    let lines = Seq::new(m.epics.len(), |i: int| report_line_of(m.epics[i]));
    let body = head + lines + seq!["Total cost ~$"@ + cost];
    if (m.phase is Done || m.phase is Failed) && app::any_merged(m.epics) {
        body.push(
            "Merged work is on branch '"@ + branch + "' in "@ + repo
                + ". Review and merge to your main branch."@,
        )
    } else {
        body
    }
}

/// The report of a run: a line per epic, the cost, and, where the run has
/// ended and any epic merged, a reminder of the branch the work is on.
pub fn report(app: &App, cost: &str, branch: &str, repo: &str) -> (r: Vec<String>)
    ensures
        text::views(r@) == report_of(app@, cost@, branch@, repo@),
{
    let mut out: Vec<String> = Vec::new();
    out.push("=== Run report ===".to_string());
    out.push("Workspace: ".to_string().concat(app.workspace.as_str()));
    out.push("Goal: ".to_string().concat(app.goal.as_str()));
    let ghost head = seq![
        "=== Run report ==="@,
        "Workspace: "@ + app@.workspace,
        "Goal: "@ + app@.goal,
    ];
    let mut i: usize = 0;
    assert(text::views(out@) =~= head + Seq::new(0nat, |j: int| report_line_of(app@.epics[j])));
    while i < app.epics.len()
        invariant
            i <= app.epics@.len(),
            text::views(out@) == head + Seq::new(
                i as nat,
                |j: int| report_line_of(app@.epics[j]),
            ),
        decreases app.epics@.len() - i,
    {
        let epic = &app.epics[i];
        let ghost before = out@;
        let line = "  [".to_string().concat(report_label(epic.status)).concat("] ").concat(
            epic.id.as_str(),
        ).concat(" ").concat(epic.title.as_str());
        out.push(line);
        i = i + 1;
        proof {
            text::lemma_views_push(before, line);
            assert(out@ =~= before.push(line));
            assert(text::views(out@) =~= head + Seq::new(
                i as nat,
                |j: int| report_line_of(app@.epics[j]),
            ));
        }
    }
    let ghost lines = Seq::new(app@.epics.len(), |j: int| report_line_of(app@.epics[j]));
    assert(Seq::new(i as nat, |j: int| report_line_of(app@.epics[j])) =~= lines);
    let ghost before = out@;
    let total = "Total cost ~$".to_string().concat(cost);
    out.push(total);
    proof {
        text::lemma_views_push(before, total);
        assert(out@ =~= before.push(total));
        assert(text::views(out@) =~= head + lines + seq!["Total cost ~$"@ + cost@]);
    }
    if (app.phase == Phase::Done || app.phase == Phase::Failed) && has_merged(&app.epics) {
        let ghost body = out@;
        let last = "Merged work is on branch '".to_string().concat(branch).concat("' in ").concat(
            repo,
        ).concat(". Review and merge to your main branch.");
        out.push(last);
        proof {
            text::lemma_views_push(body, last);
            assert(out@ =~= body.push(last));
        }
    }
    out
}

/// One line of the picker: a cursor, the workspace's name and its path.
pub fn picker_line(name: &str, path: &str, is_selected: bool) -> (r: String)
    ensures
        r@ == (if is_selected {
            "> "@
        } else {
            "  "@
        }) + name@ + "  "@ + path@,
{
    let marker = if is_selected {
        "> "
    } else {
        "  "
    };
    marker.to_string().concat(name).concat("  ").concat(path)
}

/// One line of the checklist: a cursor, a box, the repository's name and its
/// path.
pub fn checklist_line(name: &str, path: &str, is_selected: bool, is_checked: bool) -> (r: String)
    ensures
        r@ == (if is_selected {
            ">"@
        } else {
            " "@
        }) + " "@ + (if is_checked {
            "[x]"@
        } else {
            "[ ]"@
        }) + " "@ + name@ + "  "@ + path@,
{
    let cursor = if is_selected {
        ">"
    } else {
        " "
    };
    let mark = if is_checked {
        "[x]"
    } else {
        "[ ]"
    };
    cursor.to_string().concat(" ").concat(mark).concat(" ").concat(name).concat("  ").concat(path)
}

/// What the checklist says where a scan found nothing.
pub fn nothing_found(root: &str) -> (r: String)
    ensures
        r@ == "No git repositories found under "@ + root@
            + ".\nPress r to scan a different folder, or Esc to quit."@,
{
    "No git repositories found under ".to_string().concat(root).concat(
        ".\nPress r to scan a different folder, or Esc to quit.",
    )
}

/// What the screen says while a scan runs.
pub fn scanning_note(root: &str) -> (r: String)
    ensures
        r@ == "Scanning "@ + root@ + " for git repositories..."@,
{
    "Scanning ".to_string().concat(root).concat(" for git repositories...")
}

/// What the screen says while a refine pass runs.
pub fn refining_note(note: &str) -> (r: String)
    ensures
        r@ == "Refining the goal: "@ + note@ + "..."@,
{
    "Refining the goal: ".to_string().concat(note).concat("...")
}

/// The title over a clarifying question.
pub fn question_title(index: usize, total: usize) -> (r: String)
    ensures
        r@ == " Question "@ + text::decimal_of(index as nat) + " of "@ + text::decimal_of(
            total as nat,
        ) + " "@,
{
    " Question ".to_string().concat(decimal(index as u64).as_str()).concat(" of ").concat(
        decimal(total as u64).as_str(),
    ).concat(" ")
}

/// What reaches the screen of a run.
#[derive(Debug, Clone, Copy, PartialEq, Eq, Structural)]
pub enum LoopEvent {
    Pressed(Key),
    Tick,
    /// An event of the run; `ends` where it is the last one.
    Progress { ends: bool },
    /// The run's events have come to an end.
    Closed,
}

/// What the screen of a run does next.
#[derive(Debug, Clone, Copy, PartialEq, Eq, Structural)]
pub enum LoopStep {
    Redraw,
    /// Leave the screen. A quit while the run is still going cleans up the
    /// epic worktrees; one after it leaves them in place, so a conflict
    /// worktree kept for a manual merge survives.
    Leave { clean_up: bool },
}

/// The screen of a run, and whether the run has ended.
#[derive(Debug, Clone, Copy, PartialEq, Eq, Structural)]
pub struct RunLoop {
    completed: bool,
}

impl RunLoop {
    /// Whether the run has ended.
    pub closed spec fn ended(self) -> bool {
        self.completed
    }

    /// The screen of a run that has just started.
    pub fn new() -> (r: RunLoop)
        ensures
            !r.ended(),
    {
        RunLoop { completed: false }
    }

    /// Takes in an event.
    pub fn on_event(&mut self, event: LoopEvent) -> (r: LoopStep)
        ensures
            final(self).ended() == (old(self).ended() || event is Closed || event == (
            LoopEvent::Progress { ends: true })),
            r == match event {
                LoopEvent::Pressed(key) => if quit_key(key) {
                    LoopStep::Leave { clean_up: !old(self).ended() }
                } else {
                    LoopStep::Redraw
                },
                LoopEvent::Tick => LoopStep::Redraw,
                LoopEvent::Progress { .. } => LoopStep::Redraw,
                LoopEvent::Closed => LoopStep::Leave { clean_up: false },
            },
    {
        match event {
            LoopEvent::Pressed(key) => if quits(key) {
                LoopStep::Leave { clean_up: !self.completed }
            } else {
                LoopStep::Redraw
            },
            LoopEvent::Tick => LoopStep::Redraw,
            LoopEvent::Progress { ends } => {
                if ends {
                    self.completed = true;
                }
                LoopStep::Redraw
            },
            LoopEvent::Closed => {
                self.completed = true;
                LoopStep::Leave { clean_up: false }
            },
        }
    }
}

/// Whatever was typed and scanned before, only checked repositories are ever
/// saved, and never none.
pub proof fn law_only_checked_are_saved(m: OnboardingModel, key: Key, step: OnboardingStep)
    requires
        m.wf(),
        m.asks(key, step),
        step is Save,
    ensures
        key == Key::Enter,
        m.screen == Screen::List,
        step matches OnboardingStep::Save(list) && list@.len() > 0 && text::views(list@) == picked(
            m.repos,
            m.checked,
        ),
{
    match step {
        OnboardingStep::Save(list) => {
            assert(text::views(list@).len() == list@.len());
        },
        _ => {},
    }
}

} // verus!
