//! How a goal is refined: what the passes give, which questions are asked, and
//! what the user's keys do.
use vstd::prelude::*;

use crate::app::Key;
use crate::refine::{
    check_refine, finalize_outcome, questions_outcome, refine_file, type_key, RefineFlow,
    RefineResult, RefineStage,
};
use crate::text;

verus! {

/// A pass is taken as it is, unless the goal it gives is blank.
pub proof fn law_blank_goals_are_no_result(result: RefineResult, r: Result<RefineResult, String>)
    requires
        call_ensures(check_refine, (result,), r),
    ensures
        r is Ok <==> text::trimmed(result.refined_goal@).len() > 0,
        r matches Ok(same) ==> same == result,
        r matches Err(e) ==> e@ == "refine result has an empty refined_goal"@,
{
}

/// The first pass gives its goal and its first five questions at most; where it
/// failed, the goal stays as it was and nothing is asked. The second pass gives
/// its goal, or leaves it.
pub proof fn law_failed_passes_leave_the_goal(
    goal: &str,
    result: &Option<RefineResult>,
    r: (String, Vec<String>),
    last: String,
    i: int,
)
    requires
        call_ensures(questions_outcome, (goal, result), r),
        call_ensures(finalize_outcome, (goal, result), last),
    ensures
        *result is None ==> r.0@ == goal@ && r.1@.len() == 0 && last@ == goal@,
        *result matches Some(res) ==> {
            &&& r.0@ == res.refined_goal@ && last@ == res.refined_goal@
            &&& res.questions@.len() <= 5 ==> r.1@.len() == res.questions@.len()
            &&& res.questions@.len() > 5 ==> r.1@.len() == 5
            &&& 0 <= i < r.1@.len() ==> r.1@[i]@ == res.questions@[i]@
        },
{
    assert(text::views(r.1@).len() == r.1@.len());
    match *result {
        Some(res) => {
            assert(text::views(res.questions@).len() == res.questions@.len());
            if 0 <= i < r.1@.len() {
                assert(text::views(r.1@)[i] == r.1@[i]@);
                assert(text::views(res.questions@)[i] == res.questions@[i]@);
            }
        },
        None => {},
    }
}

/// A flow starts by waiting for the first pass, with the goal and nothing else.
pub proof fn law_flows_start_with_the_goal(goal: &str, r: RefineFlow, root: &str, file: String)
    requires
        call_ensures(RefineFlow::new, (goal,), r),
        call_ensures(refine_file, (root,), file),
    ensures
        r@.goal == goal@,
        r@.stage == RefineStage::FirstPass,
        r@.questions.len() == 0 && r@.answers.len() == 0 && r@.buffer.len() == 0,
        r@.outcome is None,
        file@ == crate::paths::joined_path(root@, ".agentic-refine.json"@),
{
}

/// After the first pass the questions are asked, five at most, or the goal is
/// confirmed where there are none; where the pass failed, the flow is over with
/// the goal as it was. A pass that was not waited for changes nothing.
pub proof fn law_the_first_pass_asks_or_confirms(
    flow: &mut RefineFlow,
    result: &Option<RefineResult>,
    i: int,
)
    requires
        old(flow).wf(),
        call_ensures(RefineFlow::on_first_pass, (flow, result), ()),
    ensures
        old(flow)@.stage != RefineStage::FirstPass ==> final(flow)@ == old(flow)@,
        final(flow)@.goal == old(flow)@.goal,
        old(flow)@.stage == RefineStage::FirstPass ==> {
            let after = final(flow)@;
            &&& *result is None ==> after.stage == RefineStage::Finished && after.outcome == Some(
                old(flow)@.goal,
            )
            &&& *result matches Some(res) ==> {
                &&& after.outcome == old(flow)@.outcome
                &&& after.refined == res.refined_goal@
                &&& after.answers.len() == 0
                &&& res.questions@.len() == 0 ==> after.stage == RefineStage::Confirming
                    && after.buffer == res.refined_goal@
                &&& res.questions@.len() > 0 ==> after.stage == RefineStage::Asking
                    && after.buffer.len() == 0
                &&& after.questions.len() == if res.questions@.len() <= 5 {
                    res.questions@.len()
                } else {
                    5
                }
                &&& 0 <= i < after.questions.len() ==> after.questions[i] == res.questions@[i]@
            }
        },
{
    match *result {
        Some(res) => {
            assert(text::views(res.questions@).len() == res.questions@.len());
            if 0 <= i < res.questions@.len() {
                assert(text::views(res.questions@)[i] == res.questions@[i]@);
            }
        },
        None => {},
    }
}

/// After the second pass its goal is confirmed, or that of the first where it
/// failed. A pass that was not waited for changes nothing.
pub proof fn law_the_second_pass_confirms(flow: &mut RefineFlow, result: &Option<RefineResult>)
    requires
        old(flow).wf(),
        call_ensures(RefineFlow::on_second_pass, (flow, result), ()),
    ensures
        old(flow)@.stage != RefineStage::SecondPass ==> final(flow)@ == old(flow)@,
        old(flow)@.stage == RefineStage::SecondPass ==> {
            let after = final(flow)@;
            &&& after.stage == RefineStage::Confirming
            &&& after.buffer == after.refined
            &&& *result is None ==> after.refined == old(flow)@.refined
            &&& *result matches Some(res) ==> after.refined == res.refined_goal@
            &&& after.goal == old(flow)@.goal && after.answers == old(flow)@.answers
            &&& after.questions == old(flow)@.questions && after.outcome == old(flow)@.outcome
        },
{
}

/// An interrupt cancels the run and an escape keeps the goal as it was, both at
/// a question and at the confirmation. Enter records the trimmed answer with its
/// question and goes on to the next one, or to the second pass after the last;
/// at the confirmation it ends the flow with the trimmed goal, unless that is
/// blank. Any other key is typed. No key does anything while a pass runs.
pub proof fn law_keys_answer_and_confirm(flow: &mut RefineFlow, key: Key, typed: &mut String)
    requires
        old(flow).wf(),
        call_ensures(RefineFlow::on_key, (flow, key), ()),
        old(typed)@ == old(flow)@.buffer,
        call_ensures(type_key, (typed, key), ()),
    ensures
        ({
            let was = old(flow)@;
            let is = final(flow)@;
            let open = was.stage == RefineStage::Asking || was.stage == RefineStage::Confirming;
            let answer = text::trimmed(was.buffer);
            &&& !open ==> is == was
            &&& open && key == Key::CtrlC ==> is.stage == RefineStage::Finished
                && is.outcome is None
            &&& open && key == Key::Esc ==> is.stage == RefineStage::Finished && is.outcome == Some(
                was.goal,
            )
            &&& was.stage == RefineStage::Confirming && key == Key::Enter && answer.len() > 0
                ==> is.stage == RefineStage::Finished && is.outcome == Some(answer)
            &&& was.stage == RefineStage::Confirming && key == Key::Enter && answer.len() == 0 ==> is
                == was
            &&& was.stage == RefineStage::Asking && key == Key::Enter ==> {
                let n = was.answers.len();
                &&& is.answers == was.answers.push((was.questions[n as int], answer))
                &&& is.buffer.len() == 0
                &&& n + 1 < was.questions.len() ==> is.stage == RefineStage::Asking
                &&& n + 1 == was.questions.len() ==> is.stage == RefineStage::SecondPass
                &&& is.outcome == was.outcome
            }
            &&& open && key != Key::CtrlC && key != Key::Esc && key != Key::Enter ==> {
                &&& is.buffer == final(typed)@
                &&& is.stage == was.stage && is.answers == was.answers && is.outcome == was.outcome
            }
            &&& is.goal == was.goal && is.questions == was.questions && is.refined == was.refined
        }),
{
    flow.lemma_wf();
}

/// A character is typed at the end, and the backspace takes the last one away.
/// Any other key leaves the text.
pub proof fn law_keys_are_typed(buffer: &mut String, key: Key)
    requires
        call_ensures(type_key, (buffer, key), ()),
    ensures
        key matches Key::Char(c) ==> final(buffer)@ == old(buffer)@.push(c),
        key == Key::Backspace && old(buffer)@.len() > 0 ==> final(buffer)@ == old(
            buffer,
        )@.drop_last(),
        key == Key::Backspace && old(buffer)@.len() == 0 ==> final(buffer)@ == old(buffer)@,
        !(key is Char) && key != Key::Backspace ==> final(buffer)@ == old(buffer)@,
{
}

/// The question that is asked is the first without an answer, with its number.
pub proof fn law_the_first_open_question_is_asked(
    flow: &RefineFlow,
    r: Option<(&str, usize, usize)>,
)
    requires
        flow.wf(),
        call_ensures(RefineFlow::question, (flow,), r),
    ensures
        r is Some <==> flow@.stage == RefineStage::Asking,
        r matches Some((question, number, total)) ==> question@
            == flow@.questions[flow@.answers.len() as int] && number == flow@.answers.len() + 1
            && total == flow@.questions.len(),
{
}

} // verus!
