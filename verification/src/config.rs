//! Knobs for the multi-stage orchestrator: permission mode, prose style, model
//! and tool selection per stage, and the prompts.
use vstd::prelude::*;
use vstd::string::*;

use crate::plan;
use crate::plan::Epic;
use crate::text;
use crate::text::decimal;

verus! {

pub const PERMISSION_MODE: &'static str = "acceptEdits";

/// The prose style every prompt asks for.
pub const STYLE: &'static str = "Write directly and concisely. Do not use em dashes. Do not use contractions in English \
prose. Avoid AI-sounding filler.";

/// Global cost brake, in cents: once accumulated cost reaches this, the
/// orchestrator stops starting new epics. Epics already in flight still finish.
pub const GLOBAL_BUDGET_CENTS: u64 = 1000;

/// Budget for a single stage (plan or one epic), in cents.
pub const EPIC_BUDGET_CENTS: u64 = 200;

// Models. Plan quality drives epic accuracy, so plan defaults to opus.
pub const MODEL_PLAN: &'static str = "opus";

pub const MODEL_EPIC: &'static str = "sonnet";

// Read-only + Write for planning. Adds Edit and Bash for epics that write code.
pub const PLAN_TOOLS: &'static str = "Read,Glob,Grep,Write,WebSearch,WebFetch,Skill";

pub const EPIC_TOOLS: &'static str = "Read,Glob,Grep,Edit,Write,Bash,WebSearch,WebFetch,Skill";

pub const PLAN_MAX_TURNS: u32 = 20;

pub const EPIC_MAX_TURNS: u32 = 40;

// Refine stage. Sharpening the goal does not need opus, so it defaults to
// sonnet. Read-only plus Write (for the result file), no Edit or Bash.
pub const MODEL_REFINE: &'static str = "sonnet";

pub const REFINE_TOOLS: &'static str = "Read,Glob,Grep,Write,WebSearch,WebFetch,Skill";

pub const REFINE_MAX_TURNS: u32 = 12;

/// Budget for one refine pass, in cents.
pub const REFINE_BUDGET_CENTS: u64 = 20;

pub const REFINE_MAX_QUESTIONS: usize = 5;

/// How many epics may run in parallel.
pub const MAX_PARALLEL_EPICS: usize = 3;

/// Command run inside each epic worktree to decide if the epic passed.
pub const DEFAULT_VERIFY_CMD: &'static str = "make verify";

/// The branch a repository's work merges into where neither its workspace
/// config nor the request pins one. The new-run form offers the same name.
pub const DEFAULT_INTEGRATION: &'static str = "agentic-integration";

// Model for the PRD. Its quality determines the accuracy of the session that
// implements it, so the default is opus.
pub const MODEL_PRD: &'static str = "opus";

// Read-only tools + Write, plus Skill so the run can invoke skills.
pub const PRD_TOOLS: &'static str = "Read,Glob,Grep,Write,WebSearch,WebFetch,Skill";

pub const PRD_MAX_TURNS: u32 = 15;

// The fixed parts of the plan prompt.

pub const PLAN_TEXT_1: &'static str = "You are a Tech Lead decomposing a goal into an implementation plan for a repository. ";

pub const PLAN_TEXT_2: &'static str = "\n\nGOAL:\n";

pub const PLAN_TEXT_3: &'static str = "\n\nStep 1. Understand this repository with Glob and Grep. Detect language, framework, \
layout, and conventions so the plan fits the real code.\nStep 2. Break the goal into \
epics. Each epic is a coherent unit one engineer can implement in one session. Split \
each epic into concrete tasks. Record dependencies between epics with epic ids in \
depends_on. Keep epics as independent as possible so they can run in parallel.\nStep 3. \
Write ONLY a JSON file to ";

pub const PLAN_TEXT_4: &'static str = " with this exact shape and nothing else:\n{\"epics\":[{\"id\":\"epic-1\",\"title\":\"...\
\",\"depends_on\":[],\"acceptance\":[\"verifiable item\"],\"tasks\":[{\"id\":\"epic-1-t1\
\",\"title\":\"...\",\"detail\":\"...\"}]}]}\nUse short kebab-case ids. Every \
depends_on entry must be an id that exists. Do not create cycles. Do not write any \
other file.\nStep 4. After writing, print the number of epics and a one line summary.";

// The fixed parts of the first refine prompt.

pub const QUESTIONS_TEXT_1: &'static str = "You are a Tech Lead sharpening a goal before planning work on a repository. ";

pub const QUESTIONS_TEXT_2: &'static str = "\n\nGOAL:\n";

pub const QUESTIONS_TEXT_3: &'static str = "\n\nStep 1. Understand this repository with Glob and Grep so your rewrite and questions \
fit the real code.\nStep 2. Rewrite the goal so it is specific and actionable.\nStep 3. \
List at most ";

pub const QUESTIONS_TEXT_4: &'static str = " clarifying questions whose answers would materially change the plan. Ask only \
genuinely useful questions. If the goal is already clear, use an empty list.\nStep 4. \
Write ONLY a JSON file to ";

pub const QUESTIONS_TEXT_5: &'static str = " with this exact shape and nothing else:\n{\"refined_goal\":\"...\",\"questions\":[\"...\
\"]}\nDo not write any other file.";

// The fixed parts of the second refine prompt.

pub const FINALIZE_TEXT_1: &'static str = "You are a Tech Lead finalizing a goal before planning. ";

pub const FINALIZE_TEXT_2: &'static str = "\n\nORIGINAL GOAL:\n";

pub const FINALIZE_TEXT_3: &'static str = "\n\nCLARIFICATIONS:\n";

pub const FINALIZE_TEXT_4: &'static str = "\nProduce one specific, actionable goal statement that folds in the answers above. \
Write ONLY a JSON file to ";

pub const FINALIZE_TEXT_5: &'static str = " with this exact shape and nothing else:\n{\"refined_goal\":\"...\",\"questions\":[]}\n\
Do not write any other file.";

// The fixed parts of the epic prompt.

pub const EPIC_TEXT_1: &'static str = "You are implementing one epic of a larger goal, working in an isolated git worktree. ";

pub const EPIC_TEXT_2: &'static str = "\n\nOVERALL GOAL:\n";

pub const EPIC_TEXT_3: &'static str = "\n\nTHIS EPIC: ";

pub const EPIC_TEXT_4: &'static str = "\n\nTASKS:\n";

pub const EPIC_TEXT_5: &'static str = "\nACCEPTANCE CRITERIA:\n";

pub const EPIC_TEXT_6: &'static str = "\nImplement every task with Edit and Write. Follow existing conventions in the \
repository. When done, run `";

pub const EPIC_TEXT_7: &'static str = "` with Bash and fix anything it reports until it passes. Do not stop to ask questions, \
this run is non-interactive. Commit your work with git when the epic is complete.";

// The fixed parts of the PRD prompt.

pub const PRD_TEXT_1: &'static str = "You are a Tech Lead writing a Product Requirements Document. The goal below will be \
implemented later in a separate ";

pub const PRD_TEXT_1_REST: &'static str = " session, so this PRD is the single source of truth for that session. Make it \
concrete, grounded in the actual repository, and testable. ";

pub const PRD_TEXT_2: &'static str = "\n\nGOAL:\n";

pub const PRD_TEXT_3: &'static str = "\n\nStep 1. Understand this repository with Glob and Grep. Detect language, framework, \
layout, and existing conventions so the PRD fits the real code, not a generic \
assumption.\nStep 2. If the goal is genuinely ambiguous on scope, make a reasonable \
decision and record it under Assumptions. Do not stop to ask, this run is \
non-interactive.\nStep 3. If a pattern or library needs verifying, do a short \
WebSearch. Keep it light.\nStep 4. Invoke the superpowers:writing-plans skill to \
structure the ordered Implementation task breakdown. Run it non-interactively: do not \
stop to ask questions, use what you learned about the repository as the input, and fold \
the resulting plan into the PRD as the task breakdown checklist. If the skill is \
unavailable, continue without it.\nStep 5. Write the PRD to ";

pub const PRD_TEXT_4: &'static str = " with these sections: Summary, Problem statement, Goals and non-goals, Assumptions, \
User stories, Functional requirements, Acceptance criteria as a checklist of verifiable \
items, Technical scope referencing real files and modules in THIS repo by path, Out of \
scope, Testing strategy per acceptance criterion, Open questions, and the ordered \
Implementation task breakdown from Step 4 as a checklist.\nStep 6. After writing, print \
the path to the PRD and a two line scope summary.";

/// A stage's model, tools and turn cap.
#[derive(Debug, Clone)]
pub struct Stage {
    pub model: &'static str,
    pub tools: &'static str,
    pub max_turns: u32,
}

/// The stage that writes a PRD.
pub fn prd_stage() -> (r: Stage)
    ensures
        r.model@ == MODEL_PRD@,
        r.tools@ == PRD_TOOLS@,
        r.max_turns == PRD_MAX_TURNS,
{
    Stage { model: MODEL_PRD, tools: PRD_TOOLS, max_turns: PRD_MAX_TURNS }
}

/// The text of the plan prompt.
pub open spec fn plan_text(goal: Seq<char>, out_path: Seq<char>) -> Seq<char> {
    PLAN_TEXT_1@
        + STYLE@
        + PLAN_TEXT_2@
        + goal
        + PLAN_TEXT_3@
        + out_path
        + PLAN_TEXT_4@
}

/// Prompt for the Plan stage. The session explores the workspace and writes a
/// machine-readable plan.json (epics with tasks, dependencies, acceptance).
pub fn plan_prompt(goal: &str, out_path: &str) -> (r: String)
    ensures
        r@ == plan_text(goal@, out_path@),
{
    PLAN_TEXT_1.to_string().concat(
        STYLE,
    ).concat(
        PLAN_TEXT_2,
    ).concat(
        goal,
    ).concat(
        PLAN_TEXT_3,
    ).concat(
        out_path,
    ).concat(
        PLAN_TEXT_4,
    )
}

/// The text of the first refine prompt.
pub open spec fn questions_text(goal: Seq<char>, out_path: Seq<char>) -> Seq<char> {
    QUESTIONS_TEXT_1@
        + STYLE@
        + QUESTIONS_TEXT_2@
        + goal
        + QUESTIONS_TEXT_3@
        + text::decimal_of(REFINE_MAX_QUESTIONS as nat)
        + QUESTIONS_TEXT_4@
        + out_path
        + QUESTIONS_TEXT_5@
}

/// Prompt for the first refine pass. The session reads the repo, rewrites the goal to
/// be specific, and lists clarifying questions, writing them to a JSON file.
pub fn refine_questions_prompt(goal: &str, out_path: &str) -> (r: String)
    ensures
        r@ == questions_text(goal@, out_path@),
{
    QUESTIONS_TEXT_1.to_string().concat(
        STYLE,
    ).concat(
        QUESTIONS_TEXT_2,
    ).concat(
        goal,
    ).concat(
        QUESTIONS_TEXT_3,
    ).concat(
        decimal(REFINE_MAX_QUESTIONS as u64).as_str(),
    ).concat(
        QUESTIONS_TEXT_4,
    ).concat(
        out_path,
    ).concat(
        QUESTIONS_TEXT_5,
    )
}

/// The text of the PRD prompt.
pub open spec fn prd_text(tool: Seq<char>, goal: Seq<char>, out_path: Seq<char>) -> Seq<char> {
    PRD_TEXT_1@
        + tool
        + PRD_TEXT_1_REST@
        + STYLE@
        + PRD_TEXT_2@
        + goal
        + PRD_TEXT_3@
        + out_path
        + PRD_TEXT_4@
}

/// PRD prompt. The name of the coding tool, the goal and the output path are
/// injected, so we know exactly where the file is written and can show the
/// path at the end.
pub fn prd_prompt(tool: &str, goal: &str, out_path: &str) -> (r: String)
    ensures
        r@ == prd_text(tool@, goal@, out_path@),
{
    PRD_TEXT_1.to_string().concat(
        tool,
    ).concat(
        PRD_TEXT_1_REST,
    ).concat(
        STYLE,
    ).concat(
        PRD_TEXT_2,
    ).concat(
        goal,
    ).concat(
        PRD_TEXT_3,
    ).concat(
        out_path,
    ).concat(
        PRD_TEXT_4,
    )
}

/// One question with its answer, as the second refine prompt shows it.
pub open spec fn clarification(answer: (Seq<char>, Seq<char>)) -> Seq<char> {
    "Q: "@ + answer.0 + "\nA: "@ + (if answer.1.len() == 0 {
        "(no answer)"@
    } else {
        answer.1
    }) + "\n"@
}

/// The questions with their answers, one after the other.
pub open spec fn clarifications(answers: Seq<(Seq<char>, Seq<char>)>) -> Seq<char>
    decreases answers.len(),
{
    if answers.len() == 0 {
        Seq::empty()
    } else {
        clarifications(answers.drop_last()) + clarification(answers.last())
    }
}

/// The views of a list of questions with answers.
pub open spec fn answer_views(answers: Seq<(String, String)>) -> Seq<(Seq<char>, Seq<char>)> {
    Seq::new(answers.len(), |i: int| (answers[i].0@, answers[i].1@))
}

/// The text of the second refine prompt.
pub open spec fn finalize_text(
    goal: Seq<char>,
    answers: Seq<(Seq<char>, Seq<char>)>,
    out_path: Seq<char>,
) -> Seq<char> {
    FINALIZE_TEXT_1@
        + STYLE@
        + FINALIZE_TEXT_2@
        + goal
        + FINALIZE_TEXT_3@
        + clarifications(answers)
        + FINALIZE_TEXT_4@
        + out_path
        + FINALIZE_TEXT_5@
}

/// Prompt for the second refine pass. Given the original goal and the user's
/// answers, produce one final goal, writing it to the same JSON file.
pub fn refine_finalize_prompt(
    goal: &str,
    answers: &Vec<(String, String)>,
    out_path: &str,
) -> (r: String)
    ensures
        r@ == finalize_text(goal@, answer_views(answers@), out_path@),
{
    let mut qa = String::new();
    let mut i: usize = 0;
    let ghost list = answer_views(answers@);
    while i < answers.len()
        invariant
            i <= answers@.len(),
            list == answer_views(answers@),
            qa@ == clarifications(list.take(i as int)),
        decreases answers@.len() - i,
    {
        let answer: &str = if answers[i].1.as_str().is_empty() {
            "(no answer)"
        } else {
            answers[i].1.as_str()
        };
        let entry = "Q: ".to_string().concat(answers[i].0.as_str()).concat("\nA: ").concat(
            answer,
        ).concat("\n");
        qa.append(entry.as_str());
        assert(entry@ == clarification(list[i as int]));
        assert(list.take(i + 1).drop_last() =~= list.take(i as int));
        i = i + 1;
    }
    assert(list.take(i as int) =~= list);
    FINALIZE_TEXT_1.to_string().concat(
        STYLE,
    ).concat(
        FINALIZE_TEXT_2,
    ).concat(
        goal,
    ).concat(
        FINALIZE_TEXT_3,
    ).concat(
        qa.as_str(),
    ).concat(
        FINALIZE_TEXT_4,
    ).concat(
        out_path,
    ).concat(
        FINALIZE_TEXT_5,
    )
}

/// One task, as the epic prompt lists it.
pub open spec fn task_line(task: plan::TaskModel) -> Seq<char> {
    "- "@ + task.title + " ("@ + task.id + "): "@ + task.detail + "\n"@
}

/// The tasks, one line each.
pub open spec fn task_lines(tasks: Seq<plan::TaskModel>) -> Seq<char>
    decreases tasks.len(),
{
    if tasks.len() == 0 {
        Seq::empty()
    } else {
        task_lines(tasks.drop_last()) + task_line(tasks.last())
    }
}

/// The items, one line each.
pub open spec fn item_lines(items: Seq<Seq<char>>) -> Seq<char>
    decreases items.len(),
{
    if items.len() == 0 {
        Seq::empty()
    } else {
        item_lines(items.drop_last()) + ("- "@ + items.last() + "\n"@)
    }
}

/// The text of an epic's prompt.
pub open spec fn epic_text(
    goal: Seq<char>,
    epic: plan::EpicModel,
    verify_cmd: Seq<char>,
) -> Seq<char> {
    EPIC_TEXT_1@
        + STYLE@
        + EPIC_TEXT_2@
        + goal
        + EPIC_TEXT_3@
        + epic.title
        + EPIC_TEXT_4@
        + task_lines(epic.tasks)
        + EPIC_TEXT_5@
        + item_lines(epic.acceptance)
        + EPIC_TEXT_6@
        + verify_cmd
        + EPIC_TEXT_7@
}

/// Prompt for one epic session. Runs inside that epic's worktree and implements
/// the epic's tasks, then runs the verification command itself as a check.
pub fn epic_prompt(goal: &str, epic: &Epic, verify_cmd: &str) -> (r: String)
    ensures
        r@ == epic_text(goal@, epic@, verify_cmd@),
{
    let mut tasks = String::new();
    let mut i: usize = 0;
    while i < epic.tasks.len()
        invariant
            i <= epic.tasks@.len(),
            tasks@ == task_lines(epic@.tasks.take(i as int)),
        decreases epic.tasks@.len() - i,
    {
        let task = &epic.tasks[i];
        let line = "- ".to_string().concat(task.title.as_str()).concat(" (").concat(
            task.id.as_str(),
        ).concat("): ").concat(task.detail.as_str()).concat("\n");
        tasks.append(line.as_str());
        assert(line@ == task_line(epic@.tasks[i as int]));
        assert(epic@.tasks.take(i + 1).drop_last() =~= epic@.tasks.take(i as int));
        i = i + 1;
    }
    assert(epic@.tasks.take(i as int) =~= epic@.tasks);
    let mut acceptance = String::new();
    let mut j: usize = 0;
    while j < epic.acceptance.len()
        invariant
            j <= epic.acceptance@.len(),
            acceptance@ == item_lines(epic@.acceptance.take(j as int)),
        decreases epic.acceptance@.len() - j,
    {
        let line = "- ".to_string().concat(epic.acceptance[j].as_str()).concat("\n");
        acceptance.append(line.as_str());
        assert(line@ == "- "@ + epic@.acceptance[j as int] + "\n"@);
        assert(epic@.acceptance.take(j + 1).drop_last() =~= epic@.acceptance.take(j as int));
        j = j + 1;
    }
    assert(epic@.acceptance.take(j as int) =~= epic@.acceptance);
    EPIC_TEXT_1.to_string().concat(
        STYLE,
    ).concat(
        EPIC_TEXT_2,
    ).concat(
        goal,
    ).concat(
        EPIC_TEXT_3,
    ).concat(
        epic.title.as_str(),
    ).concat(
        EPIC_TEXT_4,
    ).concat(
        tasks.as_str(),
    ).concat(
        EPIC_TEXT_5,
    ).concat(
        acceptance.as_str(),
    ).concat(
        EPIC_TEXT_6,
    ).concat(
        verify_cmd,
    ).concat(
        EPIC_TEXT_7,
    )
}

} // verus!
