//! The goal-refine step: a first pass rewrites the goal and proposes
//! clarifying questions, the user answers them, a second pass finalizes the
//! goal, and the user confirms it.
use vstd::prelude::*;
use vstd::string::*;

use crate::app::Key;
use crate::config;
use crate::paths;
use crate::paths::join_path;
use crate::text;
use crate::text::trim;

verus! {

/// The JSON a refine pass writes to `.agentic-refine.json`.
#[derive(Debug, Clone, PartialEq)]
pub struct RefineResult {
    pub refined_goal: String,
    pub questions: Vec<String>,
}

/// The message of a result without a goal.
pub const EMPTY_GOAL: &'static str = "refine result has an empty refined_goal";

/// Check the result of a refine pass: a blank `refined_goal` is an error,
/// which the caller turns into a fall back to the original goal.
pub fn check_refine(result: RefineResult) -> (r: Result<RefineResult, String>)
    ensures
        match r {
            Ok(same) => text::trimmed(result.refined_goal@).len() > 0 && same == result,
            Err(e) => text::trimmed(result.refined_goal@).len() == 0 && e@ == EMPTY_GOAL@,
        },
{
    if trim(result.refined_goal.as_str()).as_str().is_empty() {
        Err(EMPTY_GOAL.to_string())
    } else {
        Ok(result)
    }
}

/// Where a refine pass writes its result.
pub fn refine_file(root: &str) -> (r: String)
    ensures
        r@ == paths::joined_path(root@, ".agentic-refine.json"@),
{
    join_path(root, ".agentic-refine.json")
}

/// As many questions as may be asked.
pub open spec fn asked(questions: Seq<Seq<char>>) -> Seq<Seq<char>> {
    if questions.len() <= config::REFINE_MAX_QUESTIONS {
        questions
    } else {
        questions.take(config::REFINE_MAX_QUESTIONS as int)
    }
}

fn cap_questions(questions: &Vec<String>) -> (r: Vec<String>)
    ensures
        text::views(r@) == asked(text::views(questions@)),
{
    let mut out: Vec<String> = Vec::new();
    let mut i: usize = 0;
    let ghost all = text::views(questions@);
    while i < questions.len() && i < config::REFINE_MAX_QUESTIONS
        invariant
            i <= questions@.len(),
            i <= config::REFINE_MAX_QUESTIONS,
            all == text::views(questions@),
            text::views(out@) == all.take(i as int),
        decreases questions@.len() - i,
    {
        let ghost before = out@;
        out.push(questions[i].clone());
        proof {
            text::lemma_views_push(before, out@.last());
            assert(out@ =~= before.push(out@.last()));
            assert(all.take(i + 1) =~= all.take(i as int).push(all[i as int]));
        }
        i = i + 1;
    }
    assert(text::views(out@) =~= asked(all));
    out
}

/// What the first pass gives: the refined goal with at most as many questions
/// as may be asked, or the original goal with none where the pass failed.
pub fn questions_outcome(goal: &str, result: &Option<RefineResult>) -> (r: (String, Vec<String>))
    ensures
        match result {
            Some(res) => r.0@ == res.refined_goal@ && text::views(r.1@) == asked(
                text::views(res.questions@),
            ),
            None => r.0@ == goal@ && r.1@.len() == 0,
        },
{
    match result {
        Some(res) => (res.refined_goal.clone(), cap_questions(&res.questions)),
        None => (goal.to_string(), Vec::new()),
    }
}

/// What the second pass gives: the refined goal, or the original goal where
/// the pass failed.
pub fn finalize_outcome(goal: &str, result: &Option<RefineResult>) -> (r: String)
    ensures
        r@ == match result {
            Some(res) => res.refined_goal@,
            None => goal@,
        },
{
    match result {
        Some(res) => res.refined_goal.clone(),
        None => goal.to_string(),
    }
}

/// Where the refine flow stands.
#[derive(Debug, Clone, Copy, PartialEq, Eq, Structural)]
pub enum RefineStage {
    FirstPass,
    Asking,
    SecondPass,
    Confirming,
    Finished,
}

/// The refine flow on the terminal.
#[derive(Debug, PartialEq)]
pub struct RefineFlow {
    goal: String,
    stage: RefineStage,
    questions: Vec<String>,
    answers: Vec<(String, String)>,
    buffer: String,
    refined: String,
    outcome: Option<String>,
}

/// The content of a refine flow.
#[verifier::ext_equal]
pub ghost struct RefineModel {
    pub goal: Seq<char>,
    pub stage: RefineStage,
    pub questions: Seq<Seq<char>>,
    pub answers: Seq<(Seq<char>, Seq<char>)>,
    pub buffer: Seq<char>,
    pub refined: Seq<char>,
    pub outcome: Option<Seq<char>>,
}

impl View for RefineFlow {
    type V = RefineModel;

    closed spec fn view(&self) -> RefineModel {
        RefineModel {
            goal: self.goal@,
            stage: self.stage,
            questions: text::views(self.questions@),
            answers: config::answer_views(self.answers@),
            buffer: self.buffer@,
            refined: self.refined@,
            outcome: text::opt_view(self.outcome),
        }
    }
}

/// The text with a key typed into it.
pub open spec fn typed(buffer: Seq<char>, key: Key) -> Seq<char> {
    match key {
        Key::Char(c) => buffer.push(c),
        Key::Backspace => if buffer.len() > 0 {
            buffer.drop_last()
        } else {
            buffer
        },
        _ => buffer,
    }
}

/// Types a key into a text.
pub fn type_key(buffer: &mut String, key: Key)
    ensures
        final(buffer)@ == typed(old(buffer)@, key),
{
    match key {
        Key::Char(c) => buffer.push(c),
        Key::Backspace => {
            let _ = buffer.pop();
        },
        _ => {},
    }
}

impl RefineModel {
    /// A question is open while the flow asks.
    pub open spec fn wf(self) -> bool {
        self.stage == RefineStage::Asking ==> self.answers.len() < self.questions.len()
    }

    /// The flow ended with an outcome.
    pub open spec fn finished(self, outcome: Option<Seq<char>>) -> RefineModel {
        RefineModel { stage: RefineStage::Finished, outcome, ..self }
    }

    /// The flow after the first pass.
    pub open spec fn after_first(self, result: Option<(Seq<char>, Seq<Seq<char>>)>) -> RefineModel {
        if self.stage != RefineStage::FirstPass {
            self
        } else {
            match result {
                None => self.finished(Some(self.goal)),
                Some((refined, questions)) => if asked(questions).len() == 0 {
                    RefineModel {
                        stage: RefineStage::Confirming,
                        questions: asked(questions),
                        answers: Seq::empty(),
                        refined,
                        buffer: refined,
                        ..self
                    }
                } else {
                    RefineModel {
                        stage: RefineStage::Asking,
                        questions: asked(questions),
                        answers: Seq::empty(),
                        refined,
                        buffer: Seq::empty(),
                        ..self
                    }
                },
            }
        }
    }

    /// The flow after the second pass: the rewrite of the first pass stays
    /// where the second one failed.
    pub open spec fn after_second(self, result: Option<Seq<char>>) -> RefineModel {
        if self.stage != RefineStage::SecondPass {
            self
        } else {
            let refined = match result {
                Some(goal) => goal,
                None => self.refined,
            };
            RefineModel { stage: RefineStage::Confirming, refined, buffer: refined, ..self }
        }
    }

    /// The flow after a key.
    pub open spec fn after_key(self, key: Key) -> RefineModel {
        match self.stage {
            RefineStage::Asking => match key {
                Key::CtrlC => self.finished(None),
                Key::Esc => self.finished(Some(self.goal)),
                Key::Enter => {
                    let answers = self.answers.push(
                        (self.questions[self.answers.len() as int], text::trimmed(self.buffer)),
                    );
                    RefineModel {
                        stage: if answers.len() < self.questions.len() {
                            RefineStage::Asking
                        } else {
                            RefineStage::SecondPass
                        },
                        answers,
                        buffer: Seq::empty(),
                        ..self
                    }
                },
                _ => RefineModel { buffer: typed(self.buffer, key), ..self },
            },
            RefineStage::Confirming => match key {
                Key::CtrlC => self.finished(None),
                Key::Esc => self.finished(Some(self.goal)),
                Key::Enter => if text::trimmed(self.buffer).len() > 0 {
                    self.finished(Some(text::trimmed(self.buffer)))
                } else {
                    self
                },
                _ => RefineModel { buffer: typed(self.buffer, key), ..self },
            },
            _ => self,
        }
    }
}

/// The content of a pass's result.
pub open spec fn pass_view(result: Option<RefineResult>) -> Option<(Seq<char>, Seq<Seq<char>>)> {
    match result {
        Some(res) => Some((res.refined_goal@, text::views(res.questions@))),
        None => None,
    }
}

impl RefineFlow {
    /// A question is open while the flow asks.
    pub closed spec fn wf(self) -> bool {
        self@.wf()
    }

    /// While the flow asks, a question is open.
    pub proof fn lemma_wf(&self)
        requires
            self.wf(),
        ensures
            self@.wf(),
    {
    }

    /// A flow that waits for the first pass.
    pub fn new(goal: &str) -> (r: RefineFlow)
        ensures
            r.wf(),
            r@ == (RefineModel {
                goal: goal@,
                stage: RefineStage::FirstPass,
                questions: Seq::empty(),
                answers: Seq::empty(),
                buffer: Seq::empty(),
                refined: Seq::empty(),
                outcome: None,
            }),
    {
        let r = RefineFlow {
            goal: goal.to_string(),
            stage: RefineStage::FirstPass,
            questions: Vec::new(),
            answers: Vec::new(),
            buffer: String::new(),
            refined: String::new(),
            outcome: None,
        };
        assert(r@.questions =~= Seq::<Seq<char>>::empty());
        assert(r@.answers =~= Seq::<(Seq<char>, Seq<char>)>::empty());
        assert(r@.buffer =~= Seq::<char>::empty());
        r
    }

    /// Where the flow stands.
    pub fn stage(&self) -> (r: RefineStage)
        ensures
            r == self@.stage,
    {
        self.stage
    }

    /// What is being typed.
    pub fn buffer(&self) -> (r: &str)
        ensures
            r@ == self@.buffer,
    {
        self.buffer.as_str()
    }

    /// The question that is asked, with its number and how many there are.
    pub fn question(&self) -> (r: Option<(&str, usize, usize)>)
        requires
            self.wf(),
        ensures
            match r {
                Some((question, number, total)) => self@.stage == RefineStage::Asking && question@
                    == self@.questions[self@.answers.len() as int] && number == self@.answers.len()
                    + 1 && total == self@.questions.len(),
                None => self@.stage != RefineStage::Asking,
            },
    {
        if self.stage != RefineStage::Asking {
            return None;
        }
        let n: usize = self.answers.len();
        assert(self.questions@.len() == self@.questions.len());
        assert(self.answers@.len() == self@.answers.len());
        let total: usize = self.questions.len();
        assert(n < total);
        Some((self.questions[n].as_str(), n + 1, total))
    }

    /// The questions answered so far, with their answers.
    pub fn answers(&self) -> (r: &Vec<(String, String)>)
        ensures
            config::answer_views(r@) == self@.answers,
    {
        &self.answers
    }

    /// The goal the flow ended with; none where the user cancelled the run.
    pub fn outcome(&self) -> (r: &Option<String>)
        ensures
            text::opt_view(*r) == self@.outcome,
    {
        &self.outcome
    }

    /// Takes in what the first pass gave, or that it failed.
    pub fn on_first_pass(&mut self, result: &Option<RefineResult>)
        requires
            old(self).wf(),
        ensures
            final(self).wf(),
            final(self)@ == old(self)@.after_first(pass_view(*result)),
    {
        if self.stage != RefineStage::FirstPass {
            return;
        }
        let ghost before = *self;
        match result {
            None => {
                self.stage = RefineStage::Finished;
                self.outcome = Some(self.goal.clone());
            },
            Some(res) => {
                self.questions = cap_questions(&res.questions);
                self.refined = res.refined_goal.clone();
                self.answers = Vec::new();
                assert(self.questions@.len() == self@.questions.len());
                if self.questions.len() == 0 {
                    self.stage = RefineStage::Confirming;
                    self.buffer = res.refined_goal.clone();
                } else {
                    self.stage = RefineStage::Asking;
                    self.buffer = String::new();
                    assert(self.buffer@ =~= Seq::<char>::empty());
                }
                assert(self@.answers =~= Seq::<(Seq<char>, Seq<char>)>::empty());
            },
        }
    }

    /// Takes in what the second pass gave, or that it failed.
    pub fn on_second_pass(&mut self, result: &Option<RefineResult>)
        requires
            old(self).wf(),
        ensures
            final(self).wf(),
            final(self)@ == old(self)@.after_second(
                match pass_view(*result) {
                    Some(p) => Some(p.0),
                    None => None,
                },
            ),
    {
        if self.stage != RefineStage::SecondPass {
            return;
        }
        if let Some(res) = result {
            self.refined = res.refined_goal.clone();
        }
        self.buffer = self.refined.clone();
        self.stage = RefineStage::Confirming;
    }

    /// Takes in a key.
    pub fn on_key(&mut self, key: Key)
        requires
            old(self).wf(),
        ensures
            final(self).wf(),
            final(self)@ == old(self)@.after_key(key),
    {
        let ghost before = *self;
        if self.stage == RefineStage::Asking {
            match key {
                Key::CtrlC => {
                    self.stage = RefineStage::Finished;
                    self.outcome = None;
                },
                Key::Esc => {
                    self.stage = RefineStage::Finished;
                    self.outcome = Some(self.goal.clone());
                },
                Key::Enter => {
                    let n: usize = self.answers.len();
                    assert(self.questions@.len() == self@.questions.len());
                    assert(self.answers@.len() == self@.answers.len());
                    let question = self.questions[n].clone();
                    let answer = trim(self.buffer.as_str());
                    self.answers.push((question, answer));
                    self.buffer = String::new();
                    if self.answers.len() == self.questions.len() {
                        self.stage = RefineStage::SecondPass;
                    }
                    proof {
                        assert(self@.answers =~= before@.answers.push((question@, answer@)));
                        assert(self@.buffer =~= Seq::<char>::empty());
                        assert(self@ =~= before@.after_key(key));
                    }
                },
                _ => type_key(&mut self.buffer, key),
            }
        } else if self.stage == RefineStage::Confirming {
            match key {
                Key::CtrlC => {
                    self.stage = RefineStage::Finished;
                    self.outcome = None;
                },
                Key::Esc => {
                    self.stage = RefineStage::Finished;
                    self.outcome = Some(self.goal.clone());
                },
                Key::Enter => {
                    let goal = trim(self.buffer.as_str());
                    if !goal.as_str().is_empty() {
                        self.stage = RefineStage::Finished;
                        self.outcome = Some(goal);
                    }
                },
                _ => type_key(&mut self.buffer, key),
            }
        }
    }
}

/// A refine flow never ends with a goal that is blank, unless that is the
/// goal it started from: what the user confirms has text in it.
pub proof fn law_confirmed_goal_has_text(m: RefineModel, key: Key)
    requires
        m.stage != RefineStage::Finished,
        m.after_key(key).stage == RefineStage::Finished,
    ensures
        match m.after_key(key).outcome {
            Some(goal) => goal == m.goal || (goal.len() > 0 && text::trimmed(goal) == goal),
            None => key == Key::CtrlC,
        },
{
    text::law_trim(m.buffer);
}

/// The questions are asked in order, each once, and each answer is recorded
/// with its question.
pub proof fn law_answers_belong_to_questions(m: RefineModel, key: Key)
    requires
        m.wf(),
        forall|i: int| 0 <= i < m.answers.len() ==> (#[trigger] m.answers[i]).0 == m.questions[i],
    ensures
        m.after_key(key).wf(),
        forall|i: int|
            0 <= i < m.after_key(key).answers.len() ==> (#[trigger] m.after_key(key).answers[i]).0
                == m.after_key(key).questions[i],
        m.after_key(key).stage == RefineStage::SecondPass && m.stage == RefineStage::Asking ==> m.after_key(
            key,
        ).answers.len() == m.questions.len(),
{
}

} // verus!
