//! What the prompts tell a session: every task, every acceptance item and every
//! answer, in their order, and whatever else was handed in.
use vstd::prelude::*;

use crate::config;
use crate::config::{
    epic_prompt, plan_prompt, prd_prompt, refine_finalize_prompt, refine_questions_prompt,
};
use crate::plan::Epic;

verus! {

/// From position `from` on, the text holds the lines, each right after the one
/// before it.
pub open spec fn lists(text: Seq<char>, lines: Seq<Seq<char>>, from: int) -> bool {
    &&& 0 <= from
    &&& from + lines.flatten().len() <= text.len()
    &&& forall|i: int|
        0 <= i < lines.len() ==> text.subrange(
            from + lines.take(i).flatten().len(),
            from + lines.take(i).flatten().len() + lines[i].len(),
        ) == #[trigger] lines[i]
}

proof fn lemma_lists(before: Seq<char>, lines: Seq<Seq<char>>, after: Seq<char>)
    ensures
        lists(before + lines.flatten() + after, lines, before.len() as int),
{
    let text = before + lines.flatten() + after;
    let from = before.len() as int;
    assert forall|i: int| 0 <= i < lines.len() implies text.subrange(
        from + lines.take(i).flatten().len(),
        from + lines.take(i).flatten().len() + lines[i].len(),
    ) == #[trigger] lines[i] by {
        lemma_flatten_at(lines, i);
        let at = lines.take(i).flatten().len() as int;
        let line = lines.flatten().subrange(at, at + lines[i].len());
        assert forall|k: int| 0 <= k < lines[i].len() implies text[from + at + k]
            == lines[i][k] by {
            assert(line[k] == lines.flatten()[at + k]);
        }
        assert(text.subrange(from + at, from + at + lines[i].len()) =~= lines[i]);
    }
}

proof fn lemma_flatten_at(lines: Seq<Seq<char>>, i: int)
    requires
        0 <= i < lines.len(),
    ensures
        lines.take(i).flatten().len() + lines[i].len() <= lines.flatten().len(),
        lines.flatten().subrange(
            lines.take(i).flatten().len() as int,
            (lines.take(i).flatten().len() + lines[i].len()) as int,
        ) == lines[i],
    decreases lines.len(),
{
    let rest = lines.drop_last();
    assert(lines =~= rest.push(lines.last()));
    rest.lemma_flatten_push(lines.last());
    let at = lines.take(i).flatten().len() as int;
    if i == lines.len() - 1 {
        assert(lines.take(i) =~= rest);
        assert(lines.flatten().subrange(at, at + lines[i].len()) =~= lines[i]);
    } else {
        lemma_flatten_at(rest, i);
        assert(rest.take(i) =~= lines.take(i));
        assert(lines.flatten().subrange(at, at + lines[i].len()) =~= rest.flatten().subrange(
            at,
            at + lines[i].len(),
        ));
    }
}

proof fn lemma_tasks_flatten(tasks: Seq<crate::plan::TaskModel>)
    ensures
        config::task_lines(tasks) == Seq::new(
            tasks.len(),
            |i: int| "- "@ + tasks[i].title + " ("@ + tasks[i].id + "): "@ + tasks[i].detail + "\n"@,
        ).flatten(),
    decreases tasks.len(),
{
    let lines = Seq::new(
        tasks.len(),
        |i: int| "- "@ + tasks[i].title + " ("@ + tasks[i].id + "): "@ + tasks[i].detail + "\n"@,
    );
    if tasks.len() > 0 {
        let rest = tasks.drop_last();
        lemma_tasks_flatten(rest);
        let head = Seq::new(
            rest.len(),
            |i: int| "- "@ + rest[i].title + " ("@ + rest[i].id + "): "@ + rest[i].detail + "\n"@,
        );
        assert(lines =~= head.push(lines.last()));
        head.lemma_flatten_push(lines.last());
    }
}

proof fn lemma_items_flatten(items: Seq<Seq<char>>)
    ensures
        config::item_lines(items) == Seq::new(
            items.len(),
            |i: int| "- "@ + items[i] + "\n"@,
        ).flatten(),
    decreases items.len(),
{
    let lines = Seq::new(items.len(), |i: int| "- "@ + items[i] + "\n"@);
    if items.len() > 0 {
        let rest = items.drop_last();
        lemma_items_flatten(rest);
        let head = Seq::new(rest.len(), |i: int| "- "@ + rest[i] + "\n"@);
        assert(lines =~= head.push(lines.last()));
        head.lemma_flatten_push(lines.last());
    }
}

proof fn lemma_clarifications_flatten(answers: Seq<(Seq<char>, Seq<char>)>)
    ensures
        config::clarifications(answers) == Seq::new(
            answers.len(),
            |i: int|
                "Q: "@ + answers[i].0 + "\nA: "@ + (if answers[i].1.len() == 0 {
                    "(no answer)"@
                } else {
                    answers[i].1
                }) + "\n"@,
        ).flatten(),
    decreases answers.len(),
{
    let lines = Seq::new(
        answers.len(),
        |i: int|
            "Q: "@ + answers[i].0 + "\nA: "@ + (if answers[i].1.len() == 0 {
                "(no answer)"@
            } else {
                answers[i].1
            }) + "\n"@,
    );
    if answers.len() > 0 {
        let rest = answers.drop_last();
        lemma_clarifications_flatten(rest);
        let head = Seq::new(
            rest.len(),
            |i: int|
                "Q: "@ + rest[i].0 + "\nA: "@ + (if rest[i].1.len() == 0 {
                    "(no answer)"@
                } else {
                    rest[i].1
                }) + "\n"@,
        );
        assert(lines =~= head.push(lines.last()));
        head.lemma_flatten_push(lines.last());
    }
}

/// The prompt of an epic lists every task of it, one line each and in their
/// order, between the two headings: no task is left out, repeated or moved.
pub proof fn law_epic_prompts_list_every_task(goal: &str, epic: &Epic, verify: &str, r: String)
    requires
        call_ensures(epic_prompt, (goal, epic, verify), r),
    ensures
        exists|before: Seq<char>, after: Seq<char>|
            {
                let lines = Seq::new(
                    epic.tasks@.len(),
                    |i: int|
                        "- "@ + epic.tasks@[i].title@ + " ("@ + epic.tasks@[i].id@ + "): "@
                            + epic.tasks@[i].detail@ + "\n"@,
                );
                &&& r@ == #[trigger] (before + "\n\nTASKS:\n"@) + lines.flatten() + #[trigger] (
                "\nACCEPTANCE CRITERIA:\n"@ + after)
                &&& lists(r@, lines, (before + "\n\nTASKS:\n"@).len() as int)
            },
{
    let lines = Seq::new(
        epic.tasks@.len(),
        |i: int|
            "- "@ + epic.tasks@[i].title@ + " ("@ + epic.tasks@[i].id@ + "): "@
                + epic.tasks@[i].detail@ + "\n"@,
    );
    let tasks = epic@.tasks;
    lemma_tasks_flatten(tasks);
    assert(lines =~= Seq::new(
        tasks.len(),
        |i: int| "- "@ + tasks[i].title + " ("@ + tasks[i].id + "): "@ + tasks[i].detail + "\n"@,
    ));
    let before = config::EPIC_TEXT_1@ + config::STYLE@ + config::EPIC_TEXT_2@ + goal@
        + config::EPIC_TEXT_3@ + epic.title@;
    let after = config::item_lines(epic@.acceptance) + config::EPIC_TEXT_6@ + verify@
        + config::EPIC_TEXT_7@;
    assert(r@ =~= (before + "\n\nTASKS:\n"@) + lines.flatten() + ("\nACCEPTANCE CRITERIA:\n"@
        + after));
    lemma_lists(before + "\n\nTASKS:\n"@, lines, "\nACCEPTANCE CRITERIA:\n"@ + after);
}

/// The prompt of an epic lists every acceptance item of it, one line each and
/// in their order, after its heading.
pub proof fn law_epic_prompts_list_every_acceptance_item(
    goal: &str,
    epic: &Epic,
    verify: &str,
    r: String,
)
    requires
        call_ensures(epic_prompt, (goal, epic, verify), r),
    ensures
        exists|before: Seq<char>, after: Seq<char>|
            {
                let lines = Seq::new(
                    epic.acceptance@.len(),
                    |i: int| "- "@ + epic.acceptance@[i]@ + "\n"@,
                );
                &&& r@ == #[trigger] (before + "\nACCEPTANCE CRITERIA:\n"@) + lines.flatten()
                    + #[trigger] ("\nImplement every task with Edit and Write. Follow existing conventions in the \
repository. When done, run `"@ + after)
                &&& lists(r@, lines, (before + "\nACCEPTANCE CRITERIA:\n"@).len() as int)
            },
{
    let lines = Seq::new(epic.acceptance@.len(), |i: int| "- "@ + epic.acceptance@[i]@ + "\n"@);
    let items = epic@.acceptance;
    lemma_items_flatten(items);
    assert(lines =~= Seq::new(items.len(), |i: int| "- "@ + items[i] + "\n"@));
    let before = config::EPIC_TEXT_1@ + config::STYLE@ + config::EPIC_TEXT_2@ + goal@
        + config::EPIC_TEXT_3@ + epic.title@ + config::EPIC_TEXT_4@ + config::task_lines(
        epic@.tasks,
    );
    let after = verify@ + config::EPIC_TEXT_7@;
    assert(r@ =~= (before + "\nACCEPTANCE CRITERIA:\n"@) + lines.flatten() + (
    config::EPIC_TEXT_6@ + after));
    lemma_lists(before + "\nACCEPTANCE CRITERIA:\n"@, lines, config::EPIC_TEXT_6@ + after);
}

/// The prompts of two epics differ in what was handed in alone: the overall
/// goal and the epic's title come first, each after its heading, and the
/// command that verifies the epic comes last, to be run.
pub proof fn law_epic_prompts_carry_goal_title_and_verification(
    goal: &str,
    epic: &Epic,
    verify: &str,
    r: String,
)
    requires
        call_ensures(epic_prompt, (goal, epic, verify), r),
    ensures
        exists|work: Seq<char>|
            r@
                == "You are implementing one epic of a larger goal, working in an isolated git worktree. "@
                + config::STYLE@ + "\n\nOVERALL GOAL:\n"@ + goal@ + "\n\nTHIS EPIC: "@ + epic.title@
                + #[trigger] ("\n\nTASKS:\n"@ + work
                + "\nImplement every task with Edit and Write. Follow existing conventions in the \
repository. When done, run `"@) + verify@
                + "` with Bash and fix anything it reports until it passes. Do not stop to ask questions, \
this run is non-interactive. Commit your work with git when the epic is complete."@,
{
    let work = config::task_lines(epic@.tasks) + config::EPIC_TEXT_5@ + config::item_lines(
        epic@.acceptance,
    );
    assert(r@ =~= config::EPIC_TEXT_1@ + config::STYLE@ + config::EPIC_TEXT_2@ + goal@
        + config::EPIC_TEXT_3@ + epic.title@ + (config::EPIC_TEXT_4@ + work + config::EPIC_TEXT_6@)
        + verify@ + config::EPIC_TEXT_7@);
}

/// The prompt that finalizes a goal shows every question with its answer, in
/// their order, after the original goal. A question without an answer says so.
pub proof fn law_finalize_prompts_show_every_answer(
    goal: &str,
    answers: &Vec<(String, String)>,
    out_path: &str,
    r: String,
)
    requires
        call_ensures(refine_finalize_prompt, (goal, answers, out_path), r),
    ensures
        exists|before: Seq<char>, middle: Seq<char>, after: Seq<char>|
            {
                let lines = Seq::new(
                    answers@.len(),
                    |i: int|
                        "Q: "@ + answers@[i].0@ + "\nA: "@ + (if answers@[i].1@.len() == 0 {
                            "(no answer)"@
                        } else {
                            answers@[i].1@
                        }) + "\n"@,
                );
                let head = #[trigger] (before + "\n\nORIGINAL GOAL:\n"@) + goal@
                    + "\n\nCLARIFICATIONS:\n"@;
                &&& r@ == head + lines.flatten() + (#[trigger] (middle + out_path@) + #[trigger] (
                " with this exact shape and nothing else:\n{\"refined_goal\":\"...\",\"questions\":[]}\n\
Do not write any other file."@ + after))
                &&& after.len() == 0
                &&& lists(r@, lines, head.len() as int)
            },
{
    let lines = Seq::new(
        answers@.len(),
        |i: int|
            "Q: "@ + answers@[i].0@ + "\nA: "@ + (if answers@[i].1@.len() == 0 {
                "(no answer)"@
            } else {
                answers@[i].1@
            }) + "\n"@,
    );
    let pairs = config::answer_views(answers@);
    lemma_clarifications_flatten(pairs);
    assert(lines =~= Seq::new(
        pairs.len(),
        |i: int|
            "Q: "@ + pairs[i].0 + "\nA: "@ + (if pairs[i].1.len() == 0 {
                "(no answer)"@
            } else {
                pairs[i].1
            }) + "\n"@,
    ));
    let before = config::FINALIZE_TEXT_1@ + config::STYLE@;
    let middle = config::FINALIZE_TEXT_4@;
    let after = Seq::<char>::empty();
    let head = (before + "\n\nORIGINAL GOAL:\n"@) + goal@ + "\n\nCLARIFICATIONS:\n"@;
    let tail = (middle + out_path@) + (config::FINALIZE_TEXT_5@ + after);
    assert(r@ =~= head + lines.flatten() + tail);
    lemma_lists(head, lines, tail);
}

/// Two plan prompts have the same text around what was handed in: the goal,
/// after its heading, and the file the plan is to be written to, which the
/// shape of the plan follows.
pub proof fn law_plan_prompts_carry_goal_and_file(
    goal_a: &str,
    file_a: &str,
    a: String,
    goal_b: &str,
    file_b: &str,
    b: String,
)
    requires
        call_ensures(plan_prompt, (goal_a, file_a), a),
        call_ensures(plan_prompt, (goal_b, file_b), b),
    ensures
        exists|before: Seq<char>, middle: Seq<char>, after: Seq<char>|
            {
                &&& a@ == #[trigger] (before + "\n\nGOAL:\n"@) + goal_a@ + #[trigger] (middle
                    + "Write ONLY a JSON file to "@) + file_a@ + #[trigger] (
                " with this exact shape and nothing else:\n"@ + after)
                &&& b@ == (before + "\n\nGOAL:\n"@) + goal_b@ + (middle
                    + "Write ONLY a JSON file to "@) + file_b@ + (
                " with this exact shape and nothing else:\n"@ + after)
            },
{
    let before = config::PLAN_TEXT_1@ + config::STYLE@;
    reveal_strlit("Write ONLY a JSON file to ");
    reveal_strlit(" with this exact shape and nothing else:\n");
    reveal_strlit("\n\nStep 1. Understand this repository with Glob and Grep. Detect language, framework, \
layout, and conventions so the plan fits the real code.\nStep 2. Break the goal into \
epics. Each epic is a coherent unit one engineer can implement in one session. Split \
each epic into concrete tasks. Record dependencies between epics with epic ids in \
depends_on. Keep epics as independent as possible so they can run in parallel.\nStep 3. \
Write ONLY a JSON file to ");
    reveal_strlit(" with this exact shape and nothing else:\n{\"epics\":[{\"id\":\"epic-1\",\"title\":\"...\
\",\"depends_on\":[],\"acceptance\":[\"verifiable item\"],\"tasks\":[{\"id\":\"epic-1-t1\
\",\"title\":\"...\",\"detail\":\"...\"}]}]}\nUse short kebab-case ids. Every \
depends_on entry must be an id that exists. Do not create cycles. Do not write any \
other file.\nStep 4. After writing, print the number of epics and a one line summary.");
    let middle = config::PLAN_TEXT_3@.take(config::PLAN_TEXT_3@.len() - 26);
    let after = config::PLAN_TEXT_4@.skip(41);
    assert(config::PLAN_TEXT_3@ =~= middle + "Write ONLY a JSON file to "@);
    assert(config::PLAN_TEXT_4@ =~= " with this exact shape and nothing else:\n"@ + after);
}

/// Two prompts that ask for questions have the same text around what was
/// handed in: the goal, after its heading, and the file of the result. Both ask
/// for at most five questions.
pub proof fn law_question_prompts_carry_goal_and_file(
    goal_a: &str,
    file_a: &str,
    a: String,
    goal_b: &str,
    file_b: &str,
    b: String,
)
    requires
        call_ensures(refine_questions_prompt, (goal_a, file_a), a),
        call_ensures(refine_questions_prompt, (goal_b, file_b), b),
    ensures
        exists|before: Seq<char>, middle: Seq<char>, after: Seq<char>|
            {
                &&& a@ == #[trigger] (before + "\n\nGOAL:\n"@) + goal_a@ + (#[trigger] (middle
                    + "5"@) + config::QUESTIONS_TEXT_4@) + #[trigger] (file_a@ + after)
                &&& b@ == (before + "\n\nGOAL:\n"@) + goal_b@ + ((middle + "5"@)
                    + config::QUESTIONS_TEXT_4@) + (file_b@ + after)
            },
{
    let before = config::QUESTIONS_TEXT_1@ + config::STYLE@;
    let middle = config::QUESTIONS_TEXT_3@;
    let after = config::QUESTIONS_TEXT_5@;
    reveal_strlit("5");
    assert(crate::text::decimal_of(5) =~= "5"@);
    assert(a@ =~= (before + "\n\nGOAL:\n"@) + goal_a@ + ((middle + "5"@)
        + config::QUESTIONS_TEXT_4@) + (file_a@ + after));
    assert(b@ =~= (before + "\n\nGOAL:\n"@) + goal_b@ + ((middle + "5"@)
        + config::QUESTIONS_TEXT_4@) + (file_b@ + after));
}

/// Two PRD prompts have the same text around what was handed in: the tool, the
/// goal, after its heading, and the file the document is to be written to.
pub proof fn law_prd_prompts_carry_tool_goal_and_file(
    tool_a: &str,
    goal_a: &str,
    file_a: &str,
    a: String,
    tool_b: &str,
    goal_b: &str,
    file_b: &str,
    b: String,
)
    requires
        call_ensures(prd_prompt, (tool_a, goal_a, file_a), a),
        call_ensures(prd_prompt, (tool_b, goal_b, file_b), b),
    ensures
        exists|before: Seq<char>, between: Seq<char>, middle: Seq<char>, after: Seq<char>|
            {
                &&& a@ == #[trigger] (before + tool_a@) + #[trigger] (between + "\n\nGOAL:\n"@)
                    + goal_a@ + #[trigger] (middle + file_a@) + #[trigger] (
                " with these sections: "@ + after)
                &&& b@ == (before + tool_b@) + (between + "\n\nGOAL:\n"@) + goal_b@ + (middle
                    + file_b@) + (" with these sections: "@ + after)
            },
{
    let before = config::PRD_TEXT_1@;
    let between = config::PRD_TEXT_1_REST@ + config::STYLE@;
    let middle = config::PRD_TEXT_3@;
    reveal_strlit(" with these sections: ");
    reveal_strlit(
        " with these sections: Summary, Problem statement, Goals and non-goals, Assumptions, \
User stories, Functional requirements, Acceptance criteria as a checklist of verifiable \
items, Technical scope referencing real files and modules in THIS repo by path, Out of \
scope, Testing strategy per acceptance criterion, Open questions, and the ordered \
Implementation task breakdown from Step 4 as a checklist.\nStep 6. After writing, print \
the path to the PRD and a two line scope summary.",
    );
    let after = config::PRD_TEXT_4@.skip(22);
    assert(config::PRD_TEXT_4@ =~= " with these sections: "@ + after);
    assert(a@ =~= (before + tool_a@) + (between + "\n\nGOAL:\n"@) + goal_a@ + (middle + file_a@) + (
    " with these sections: "@ + after));
    assert(b@ =~= (before + tool_b@) + (between + "\n\nGOAL:\n"@) + goal_b@ + (middle + file_b@) + (
    " with these sections: "@ + after));
}

} // verus!
