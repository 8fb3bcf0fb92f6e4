//! One epic from worktree to outcome: create a worktree, run the session,
//! verify, and on failure discard the worktree and try once more. The machine
//! decides; its caller performs each action and reports what came of it.
use vstd::prelude::*;
use vstd::string::*;

use crate::app::{StageEvent, Usd};

verus! {

/// What an epic run waits for, or how it ended.
#[derive(Debug, Clone, Copy, PartialEq, Eq, Structural)]
pub enum EpicPhase {
    Creating,
    Session,
    Verifying,
    Discarding,
    /// Verified: its worktree is ready to merge.
    Passed,
    /// Failed verification twice.
    GaveUp,
    /// An action itself failed.
    Broken,
}

/// What the caller reports.
#[derive(Debug, PartialEq)]
pub enum EpicInput {
    Created,
    CreateFailed { reason: String },
    /// The session ended: whether it went well, what it cost, and what the
    /// whole run has cost with it.
    SessionEnded { ok: bool, cost: Usd, total: Usd },
    SessionFailed { reason: String },
    Verified { passed: bool },
    Discarded,
}

/// What the caller does next.
#[derive(Debug, PartialEq)]
pub enum EpicAction {
    CreateWorktree,
    RunSession,
    RunVerify,
    DiscardWorktree,
    /// Keep the worktree: the epic passed and is ready to merge.
    Merge,
    /// The epic failed for good.
    GiveUp,
    /// An action failed: the epic failed with this reason.
    Fail { reason: String },
    /// The report does not belong to what the run waits for.
    Ignore,
}

/// An epic being run.
#[derive(Debug, PartialEq)]
pub struct EpicRun {
    id: String,
    retried: bool,
    phase: EpicPhase,
    cost: Usd,
}

/// The content of an epic run.
#[verifier::ext_equal]
pub ghost struct EpicRunModel {
    pub id: Seq<char>,
    pub retried: bool,
    pub phase: EpicPhase,
    pub cost: Usd,
}

impl View for EpicRun {
    type V = EpicRunModel;

    closed spec fn view(&self) -> EpicRunModel {
        EpicRunModel {
            id: self.id@,
            retried: self.retried,
            phase: self.phase,
            cost: self.cost,
        }
    }
}

impl EpicRunModel {
    /// The report belongs to what the run waits for.
    pub open spec fn fits(self, input: EpicInput) -> bool {
        match input {
            EpicInput::Created => self.phase == EpicPhase::Creating,
            EpicInput::CreateFailed { .. } => self.phase == EpicPhase::Creating,
            EpicInput::SessionEnded { .. } => self.phase == EpicPhase::Session,
            EpicInput::SessionFailed { .. } => self.phase == EpicPhase::Session,
            EpicInput::Verified { .. } => self.phase == EpicPhase::Verifying,
            EpicInput::Discarded => self.phase == EpicPhase::Discarding,
        }
    }

    /// The run after a report.
    pub open spec fn after(self, input: EpicInput) -> EpicRunModel {
        if !self.fits(input) {
            self
        } else {
            match input {
                EpicInput::Created => EpicRunModel { phase: EpicPhase::Session, ..self },
                EpicInput::CreateFailed { .. } => EpicRunModel { phase: EpicPhase::Broken, ..self },
                EpicInput::SessionEnded { ok, cost, .. } => EpicRunModel {
                    phase: if ok {
                        EpicPhase::Verifying
                    } else {
                        EpicPhase::Discarding
                    },
                    cost,
                    ..self
                },
                EpicInput::SessionFailed { .. } => EpicRunModel { phase: EpicPhase::Broken, ..self },
                EpicInput::Verified { passed } => EpicRunModel {
                    phase: if passed {
                        EpicPhase::Passed
                    } else {
                        EpicPhase::Discarding
                    },
                    ..self
                },
                EpicInput::Discarded => if self.retried {
                    EpicRunModel { phase: EpicPhase::GaveUp, ..self }
                } else {
                    EpicRunModel { phase: EpicPhase::Creating, retried: true, ..self }
                },
            }
        }
    }

    /// The action that belongs to a report.
    pub open spec fn action_on(self, input: EpicInput, action: EpicAction) -> bool {
        if !self.fits(input) {
            action is Ignore
        } else {
            match input {
                EpicInput::Created => action is RunSession,
                EpicInput::CreateFailed { reason } => action matches EpicAction::Fail { reason: r }
                    && r@ == reason@,
                EpicInput::SessionEnded { ok, .. } => if ok {
                    action is RunVerify
                } else {
                    action is DiscardWorktree
                },
                EpicInput::SessionFailed { reason } => action matches EpicAction::Fail { reason: r }
                    && r@ == reason@,
                EpicInput::Verified { passed } => if passed {
                    action is Merge
                } else {
                    action is DiscardWorktree
                },
                EpicInput::Discarded => if self.retried {
                    action is GiveUp
                } else {
                    action is CreateWorktree
                },
            }
        }
    }

    /// The events that belong to a report.
    pub open spec fn events_on(self, input: EpicInput, events: Seq<StageEvent>) -> bool {
        if !self.fits(input) {
            events.len() == 0
        } else {
            match input {
                EpicInput::SessionEnded { total, .. } => {
                    &&& events.len() == 2
                    &&& events[0] == StageEvent::Cost { total }
                    &&& events[1] matches StageEvent::EpicVerifying { id } && id@ == self.id
                },
                EpicInput::Verified { passed: true } => {
                    &&& events.len() == 1
                    &&& events[0] matches StageEvent::EpicSucceeded { id, cost } && id@ == self.id
                        && cost == self.cost
                },
                EpicInput::Discarded => if self.retried {
                    events.len() == 0
                } else {
                    &&& events.len() == 1
                    &&& events[0] matches StageEvent::StageLog { tag, line } && tag@ == self.id
                        && line@ == "verify failed, retrying once"@
                },
                _ => events.len() == 0,
            }
        }
    }
}

/// The start of an epic's run.
pub open spec fn fresh_run(id: Seq<char>) -> EpicRunModel {
    EpicRunModel { id, retried: false, phase: EpicPhase::Creating, cost: Usd { bits: 0 } }
}

impl EpicRun {
    /// A run that waits for its first worktree.
    pub fn new(id: &str) -> (r: EpicRun)
        ensures
            r@ == fresh_run(id@),
    {
        EpicRun {
            id: id.to_string(),
            retried: false,
            phase: EpicPhase::Creating,
            cost: Usd { bits: 0 },
        }
    }

    /// What the run waits for, or how it ended.
    pub fn phase(&self) -> (r: EpicPhase)
        ensures
            r == self@.phase,
    {
        self.phase
    }

    /// Takes in a report: the events to send, and what to do next.
    pub fn step(&mut self, input: EpicInput) -> (r: (Vec<StageEvent>, EpicAction))
        ensures
            final(self)@ == old(self)@.after(input),
            old(self)@.events_on(input, r.0@),
            old(self)@.action_on(input, r.1),
    {
        let mut events: Vec<StageEvent> = Vec::new();
        match input {
            EpicInput::Created => {
                if self.phase != EpicPhase::Creating {
                    return (events, EpicAction::Ignore);
                }
                self.phase = EpicPhase::Session;
                (events, EpicAction::RunSession)
            },
            EpicInput::CreateFailed { reason } => {
                if self.phase != EpicPhase::Creating {
                    return (events, EpicAction::Ignore);
                }
                self.phase = EpicPhase::Broken;
                (events, EpicAction::Fail { reason })
            },
            EpicInput::SessionEnded { ok, cost, total } => {
                if self.phase != EpicPhase::Session {
                    return (events, EpicAction::Ignore);
                }
                self.cost = cost;
                events.push(StageEvent::Cost { total });
                events.push(StageEvent::EpicVerifying { id: self.id.clone() });
                if ok {
                    self.phase = EpicPhase::Verifying;
                    (events, EpicAction::RunVerify)
                } else {
                    self.phase = EpicPhase::Discarding;
                    (events, EpicAction::DiscardWorktree)
                }
            },
            EpicInput::SessionFailed { reason } => {
                if self.phase != EpicPhase::Session {
                    return (events, EpicAction::Ignore);
                }
                self.phase = EpicPhase::Broken;
                (events, EpicAction::Fail { reason })
            },
            EpicInput::Verified { passed } => {
                if self.phase != EpicPhase::Verifying {
                    return (events, EpicAction::Ignore);
                }
                if passed {
                    self.phase = EpicPhase::Passed;
                    events.push(StageEvent::EpicSucceeded { id: self.id.clone(), cost: self.cost });
                    (events, EpicAction::Merge)
                } else {
                    self.phase = EpicPhase::Discarding;
                    (events, EpicAction::DiscardWorktree)
                }
            },
            EpicInput::Discarded => {
                if self.phase != EpicPhase::Discarding {
                    return (events, EpicAction::Ignore);
                }
                if self.retried {
                    self.phase = EpicPhase::GaveUp;
                    (events, EpicAction::GiveUp)
                } else {
                    self.phase = EpicPhase::Creating;
                    self.retried = true;
                    events.push(
                        StageEvent::StageLog {
                            tag: self.id.clone(),
                            line: "verify failed, retrying once".to_string(),
                        },
                    );
                    (events, EpicAction::CreateWorktree)
                }
            },
        }
    }
}

/// The run after a sequence of reports.
pub open spec fn run_after(m: EpicRunModel, inputs: Seq<EpicInput>) -> EpicRunModel
    decreases inputs.len(),
{
    if inputs.len() == 0 {
        m
    } else {
        run_after(m, inputs.drop_last()).after(inputs.last())
    }
}

/// How many sessions were asked for while a sequence of reports came in.
pub open spec fn sessions_asked(m: EpicRunModel, inputs: Seq<EpicInput>) -> nat
    decreases inputs.len(),
{
    if inputs.len() == 0 {
        0
    } else {
        let before = run_after(m, inputs.drop_last());
        sessions_asked(m, inputs.drop_last()) + (if before.fits(inputs.last())
            && inputs.last() is Created {
            1nat
        } else {
            0nat
        })
    }
}

/// How many sessions a run may still ask for.
pub open spec fn sessions_left(m: EpicRunModel) -> nat {
    match m.phase {
        EpicPhase::Creating => if m.retried { 1 } else { 2 },
        EpicPhase::Session => if m.retried { 0 } else { 1 },
        EpicPhase::Verifying => if m.retried { 0 } else { 1 },
        EpicPhase::Discarding => if m.retried { 0 } else { 1 },
        _ => 0,
    }
}

/// However an epic's run goes, it runs at most two sessions: one, and one retry.
pub proof fn law_at_most_two_sessions(id: Seq<char>, inputs: Seq<EpicInput>)
    ensures
        sessions_asked(fresh_run(id), inputs) + sessions_left(run_after(fresh_run(id), inputs))
            <= 2,
    decreases inputs.len(),
{
    if inputs.len() > 0 {
        law_at_most_two_sessions(id, inputs.drop_last());
    }
}

/// An epic passes only when a session that went well was reported, and then a
/// verification that passed, with nothing in between but reports that were
/// ignored.
pub proof fn law_passes_only_when_verified(m: EpicRunModel, input: EpicInput)
    requires
        m.phase != EpicPhase::Passed,
    ensures
        m.after(input).phase == EpicPhase::Passed <==> m.phase == EpicPhase::Verifying && input
            == (EpicInput::Verified { passed: true }),
        m.phase != EpicPhase::Verifying && m.after(input).phase == EpicPhase::Verifying ==> m.phase
            == EpicPhase::Session && (input matches EpicInput::SessionEnded { ok, .. } && ok),
{
}

/// A run that has ended takes no further report.
pub proof fn law_ended_runs_stay_ended(m: EpicRunModel, input: EpicInput)
    requires
        m.phase == EpicPhase::Passed || m.phase == EpicPhase::GaveUp || m.phase
            == EpicPhase::Broken,
    ensures
        m.after(input) == m,
{
}

} // verus!
