//! What a session is asked to do, what its output means, and how an epic's run
//! goes from one session to the next.
use vstd::prelude::*;

use crate::app::{StageEvent, Usd};
use crate::engine;
use crate::engine::{
    assistant_preview, format_cents, parse_stage_line, read_stage_line, stage_args, stage_messages,
    Outcome, Session, StageLine, StageMessage, StageSpec,
};
use crate::epic_run::{EpicAction, EpicInput, EpicPhase, EpicRun};
use crate::json;
use crate::pipeline::{epic_stage, plan_file, plan_stage, refine_stage, resolve_setting};
use crate::text;

verus! {

/// The optional text is this one.
pub open spec fn holds(o: Option<String>, s: Seq<char>) -> bool {
    o is Some && o->0@ == s
}

/// A result line gives one message, with its cost. The session went well just
/// where the line reports no error, neither by its flag, whatever the subtype,
/// nor by a subtype other than `success`, whatever the flag.
pub proof fn law_results_are_ok_unless_an_error_is_reported(line: &StageLine, r: Vec<StageMessage>)
    requires
        call_ensures(stage_messages, (line,), r),
        holds(line.kind, "result"@),
    ensures
        r@.len() == 1,
        r@[0] matches StageMessage::Result { cost, ok } && {
            &&& line.cost is Some ==> cost == line.cost->0
            &&& line.cost is None ==> cost.bits == 0
            &&& line.is_error == Some(true) ==> !ok
            &&& line.subtype is Some && line.subtype->0@.len() > 0 && line.subtype->0@
                != "success"@ ==> !ok
            &&& line.is_error != Some(true) && (line.subtype is None || line.subtype->0@.len() == 0
                || line.subtype->0@ == "success"@) ==> ok
        },
{
    lemma_kinds();
    assert(text::views(r@).len() == r@.len());
    assert(text::views(r@)[0] == r@[0]@);
}

proof fn lemma_kinds()
    ensures
        "result"@ != "system"@,
        "result"@ != "assistant"@,
        "system"@ != "assistant"@,
        "text"@ != "tool_use"@,
{
    reveal_strlit("result");
    reveal_strlit("system");
    reveal_strlit("assistant");
    reveal_strlit("text");
    reveal_strlit("tool_use");
    assert("result"@[0] != "system"@[0]);
    assert("result"@[0] != "assistant"@[0]);
    assert("system"@[0] != "assistant"@[0]);
    assert("text"@.len() != "tool_use"@.len());
}

/// A starting session tells its model, and lines of a kind that is not known,
/// or of none, tell nothing.
pub proof fn law_only_known_lines_tell_something(line: &StageLine, r: Vec<StageMessage>)
    requires
        call_ensures(stage_messages, (line,), r),
    ensures
        holds(line.kind, "system"@) && holds(line.subtype, "init"@) ==> r@.len() == 1 && (
        r@[0] matches StageMessage::Init { model } && (line.model is Some ==> model@
            == line.model->0@) && (line.model is None ==> model@.len() == 0)),
        holds(line.kind, "system"@) && !holds(line.subtype, "init"@) ==> r@.len() == 0,
        !holds(line.kind, "system"@) && !holds(line.kind, "assistant"@) && !holds(
            line.kind,
            "result"@,
        ) ==> r@.len() == 0,
        holds(line.kind, "assistant"@) && line.blocks is None ==> r@.len() == 0,
{
    lemma_kinds();
    assert(text::views(r@).len() == r@.len());
    if r@.len() > 0 {
        assert(text::views(r@)[0] == r@[0]@);
    }
}

/// The messages of an assistant turn are those of its blocks, in their order: a
/// turn of two lists of blocks says what the first says and then what the
/// second says.
pub proof fn law_turns_add_up(
    a: &StageLine,
    b: &StageLine,
    both: &StageLine,
    ra: Vec<StageMessage>,
    rb: Vec<StageMessage>,
    r: Vec<StageMessage>,
)
    requires
        holds(a.kind, "assistant"@),
        holds(b.kind, "assistant"@),
        holds(both.kind, "assistant"@),
        a.blocks is Some && b.blocks is Some && both.blocks is Some,
        text::views(both.blocks->0@) == text::views(a.blocks->0@) + text::views(b.blocks->0@),
        call_ensures(stage_messages, (a,), ra),
        call_ensures(stage_messages, (b,), rb),
        call_ensures(stage_messages, (both,), r),
    ensures
        text::views(r@) == text::views(ra@) + text::views(rb@),
{
    lemma_kinds();
    lemma_blocks_add_up(text::views(a.blocks->0@), text::views(b.blocks->0@));
}

proof fn lemma_blocks_add_up(a: Seq<engine::BlockModel>, b: Seq<engine::BlockModel>)
    ensures
        engine::block_messages(a + b) == engine::block_messages(a) + engine::block_messages(b),
    decreases b.len(),
{
    if b.len() == 0 {
        assert(a + b =~= a);
    } else {
        lemma_blocks_add_up(a, b.drop_last());
        assert((a + b).drop_last() =~= a + b.drop_last());
        assert(engine::block_messages(a + b) =~= engine::block_messages(a)
            + engine::block_messages(b));
    }
}

/// What a turn of one block says: a text gives its preview unless it is blank,
/// a tool gives its name, and nothing else says anything.
pub proof fn law_single_blocks(line: &StageLine, r: Vec<StageMessage>, preview: Option<String>, t: &str)
    requires
        holds(line.kind, "assistant"@),
        line.blocks is Some,
        line.blocks->0@.len() == 1,
        call_ensures(stage_messages, (line,), r),
        holds(line.blocks->0@[0].text, t@),
        call_ensures(assistant_preview, (t,), preview),
    ensures
        ({
            let b = line.blocks->0@[0];
            &&& holds(b.kind, "text"@) && preview is Some ==> r@.len() == 1 && (
            r@[0] matches StageMessage::Assistant { preview: p } && p@ == preview->0@)
            &&& holds(b.kind, "text"@) && preview is None ==> r@.len() == 0
            &&& holds(b.kind, "tool_use"@) && b.name is Some ==> r@.len() == 1 && (
            r@[0] matches StageMessage::Tool { name } && name@ == b.name->0@)
            &&& holds(b.kind, "tool_use"@) && b.name is None ==> r@.len() == 0
            &&& !holds(b.kind, "text"@) && !holds(b.kind, "tool_use"@) ==> r@.len() == 0
        }),
{
    lemma_kinds();
    let blocks = text::views(line.blocks->0@);
    assert(blocks[0] == line.blocks->0@[0]@);
    assert(blocks.drop_last() =~= Seq::empty());
    assert(engine::block_messages(blocks.drop_last()).len() == 0);
    assert(text::views(r@).len() == r@.len());
    if r@.len() > 0 {
        assert(text::views(r@)[0] == r@[0]@);
    }
}

/// The preview of a text is the start of it once the white space before it is
/// gone: up to 120 characters of its first line, with no white space at an end
/// that comes before them. A blank text has none.
pub proof fn law_previews_are_the_first_line(s: &str, r: Option<String>)
    requires
        call_ensures(assistant_preview, (s,), r),
    ensures
        r is None <==> text::trimmed(s@).len() == 0,
        r matches Some(p) ==> {
            let t = text::trimmed(s@);
            &&& 0 < p@.len() <= 120
            &&& p@.len() <= t.len() && p@ == t.take(p@.len() as int)
            &&& !p@.contains('\n')
            &&& p@.len() < 120 ==> !text::white_space(p@.last())
            &&& p@.len() < 120 ==> forall|i: int|
                p@.len() <= i < t.len() && (forall|j: int| 0 <= j <= i ==> t[j] != '\n')
                    ==> text::white_space(#[trigger] t[i])
        },
{
    let t = text::trimmed(s@);
    text::law_trim(s@);
    let line = text::before_char(t, '\n');
    if t.len() > 0 {
        lemma_first_line(t);
        let p = text::first_chars(text::trimmed(line), 120);
        assert(p == text::trimmed(line).take(p.len() as int));
        assert(p =~= t.take(p.len() as int));
        assert forall|i: int| 0 <= i < p.len() implies #[trigger] p[i] != '\n' by {
            assert(p[i] == text::trimmed(line)[i]);
        }
    } else {
        text::lemma_first_pos(t, '\n');
        assert(line.len() == 0);
    }
}

/// The first line of a text that starts with no white space, trimmed: a prefix
/// of the text without a line end, and nothing but white space is cut off.
proof fn lemma_first_line(t: Seq<char>)
    requires
        t.len() > 0,
        !text::white_space(t[0]),
    ensures
        ({
            let cut = text::trimmed(text::before_char(t, '\n'));
            &&& 0 < cut.len() <= t.len()
            &&& cut == t.take(cut.len() as int)
            &&& forall|i: int| 0 <= i < cut.len() ==> #[trigger] cut[i] != '\n'
            &&& !text::white_space(cut.last())
            &&& forall|i: int|
                cut.len() <= i < t.len() && (forall|j: int| 0 <= j <= i ==> t[j] != '\n')
                    ==> text::white_space(#[trigger] t[i])
        }),
{
    let line = text::before_char(t, '\n');
    let cut = text::trimmed(line);
    text::lemma_first_pos(t, '\n');
    text::law_trim(line);
    text::law_trim_keeps_the_middle(line);
    assert(text::white_space('\n'));
    assert(line.len() > 0 && line[0] == t[0]);
    let (a, b) = choose|a: int, b: int|
        0 <= a <= b <= line.len() && cut == #[trigger] line.subrange(a, b) && (forall|i: int|
            0 <= i < a || b <= i < line.len() ==> text::white_space(#[trigger] line[i]));
    assert(a == 0) by {
        if a > 0 {
            assert(text::white_space(line[0]));
        }
    }
    assert(b > 0) by {
        if b == 0 {
            assert(text::white_space(line[0]));
        }
    }
    assert(cut =~= t.take(b));
    assert forall|i: int|
        cut.len() <= i < t.len() && (forall|j: int| 0 <= j <= i ==> t[j] != '\n') implies text::white_space(
        #[trigger] t[i],
    ) by {
        assert(i < text::first_pos(t, '\n')) by {
            if text::first_pos(t, '\n') <= i {
                assert(t[text::first_pos(t, '\n') as int] == '\n');
            }
        }
        assert(line[i] == t[i]);
    }
}

/// Blank lines and lines that are no JSON say nothing; a JSON line says what
/// its fields say, each read at its own place.
pub proof fn law_lines_are_read_at_their_places(
    line: &str,
    r: Vec<StageMessage>,
    s: &str,
    read: StageLine,
    messages: Vec<StageMessage>,
)
    requires
        call_ensures(parse_stage_line, (line,), r),
        s@ == text::trimmed(line@),
        call_ensures(read_stage_line, (s,), read),
        call_ensures(stage_messages, (&read,), messages),
    ensures
        s@.len() == 0 || !json::json_parses(s@) ==> r@.len() == 0,
        s@.len() > 0 && json::json_parses(s@) ==> text::views(r@) == text::views(messages@),
        text::opt_view(read.kind) == json::json_string(s@, "/type"@),
        text::opt_view(read.subtype) == json::json_string(s@, "/subtype"@),
        text::opt_view(read.model) == json::json_string(s@, "/model"@),
        read.is_error == json::json_bool(s@, "/is_error"@),
        read.cost is Some <==> json::json_number(s@, "/total_cost_usd"@) is Some,
        read.cost matches Some(c) ==> json::json_number(s@, "/total_cost_usd"@) == Some(c.bits),
        read.blocks is Some <==> json::json_array_len(s@, "/message/content"@) is Some,
        read.blocks matches Some(list) ==> {
            &&& json::json_array_len(s@, "/message/content"@)->0 == list@.len()
            &&& forall|i: int|
                0 <= i < list@.len() ==> {
                    let at = "/message/content/"@ + text::decimal_of(i as nat) + "/"@;
                    &&& text::opt_view((#[trigger] list@[i]).kind) == json::json_string(
                        s@,
                        at + "type"@,
                    )
                    &&& text::opt_view(list@[i].text) == json::json_string(s@, at + "text"@)
                    &&& text::opt_view(list@[i].name) == json::json_string(s@, at + "name"@)
                }
        },
{
    assert(text::views(r@).len() == r@.len());
    match read.blocks {
        Some(list) => {
            let v = text::views(list@);
            assert(read@.blocks == Some(v));
            assert(v.len() == list@.len());
            assert forall|i: int| 0 <= i < list@.len() implies {
                let at = "/message/content/"@ + text::decimal_of(i as nat) + "/"@;
                &&& text::opt_view((#[trigger] list@[i]).kind) == json::json_string(s@, at + "type"@)
                &&& text::opt_view(list@[i].text) == json::json_string(s@, at + "text"@)
                &&& text::opt_view(list@[i].name) == json::json_string(s@, at + "name"@)
            } by {
                assert(v[i] == list@[i]@);
            }
        },
        None => {},
    }
}

/// A session has failed until a result says otherwise. The last result of the
/// messages counts; messages without one change nothing.
pub proof fn law_a_session_is_as_its_last_result(
    tag: &str,
    fresh: Session,
    session: &mut Session,
    messages: &Vec<StageMessage>,
    events: Vec<StageEvent>,
    i: int,
    cost: Usd,
    ok: bool,
)
    requires
        call_ensures(Session::new, (tag,), fresh),
        call_ensures(Session::on_messages, (session, messages), events),
    ensures
        fresh.tag() == tag@ && !fresh.result().ok && fresh.result().cost.bits == 0,
        final(session).tag() == old(session).tag(),
        (forall|j: int| 0 <= j < messages@.len() ==> !((#[trigger] messages@[j]) is Result))
            ==> final(session).result() == old(session).result(),
        0 <= i < messages@.len() && messages@[i] == (StageMessage::Result { cost, ok }) && (
        forall|j: int| i < j < messages@.len() ==> !((#[trigger] messages@[j]) is Result))
            ==> final(session).result() == (Outcome { cost, ok }),
{
    let views = text::views(messages@);
    assert forall|j: int| 0 <= j < messages@.len() implies (#[trigger] views[j]) is Result
        == messages@[j] is Result by {
        assert(views[j] == messages@[j]@);
    }
    if forall|j: int| 0 <= j < messages@.len() ==> !((#[trigger] messages@[j]) is Result) {
        lemma_no_result(session.result(), views);
    }
    if 0 <= i < messages@.len() && messages@[i] == (StageMessage::Result { cost, ok }) && (forall|
        j: int,
    |
        i < j < messages@.len() ==> !((#[trigger] messages@[j]) is Result)) {
        let after = views.skip(i + 1);
        assert forall|j: int| 0 <= j < after.len() implies !((#[trigger] after[j]) is Result) by {
            assert(after[j] == views[i + 1 + j]);
        }
        engine::law_last_result_counts(session.result(), views.take(i), cost, ok, after);
        assert(views[i] == messages@[i]@);
        assert(views =~= views.take(i).push(engine::MessageModel::Result { cost, ok }) + after);
    }
}

proof fn lemma_no_result(start: Outcome, messages: Seq<engine::MessageModel>)
    requires
        forall|j: int| 0 <= j < messages.len() ==> !((#[trigger] messages[j]) is Result),
    ensures
        engine::outcome_after(start, messages) == start,
    decreases messages.len(),
{
    if messages.len() > 0 {
        lemma_no_result(start, messages.drop_last());
    }
}

/// Every message but a result is told, in their order, under the tag of the
/// session: the model of a starting one, previews, and the names of tools.
pub proof fn law_messages_are_told_under_the_tag(
    session: &mut Session,
    messages: &Vec<StageMessage>,
    events: Vec<StageEvent>,
    i: int,
)
    requires
        call_ensures(Session::on_messages, (session, messages), events),
    ensures
        ({
            let told = text::views(messages@).filter(
                |m: engine::MessageModel| !(m is Result),
            );
            &&& events@.len() == told.len()
            &&& 0 <= i < told.len() ==> match told[i] {
                engine::MessageModel::Init { model } => events@[i] matches StageEvent::StageLog {
                    tag,
                    line,
                } && tag@ == old(session).tag() && line@ == "session init ("@ + model + ")"@,
                engine::MessageModel::Assistant { preview } => events@[i] matches StageEvent::StageAssistant {
                    tag,
                    text,
                } && tag@ == old(session).tag() && text@ == preview,
                engine::MessageModel::Tool { name } => events@[i] matches StageEvent::StageTool {
                    tag,
                    name: n,
                    input,
                } && tag@ == old(session).tag() && n@ == name && input@.len() == 0,
                engine::MessageModel::Result { .. } => false,
            }
        }),
{
    let told = text::views(messages@).filter(|m: engine::MessageModel| !(m is Result));
    assert(told == engine::visible(text::views(messages@)));
    if 0 <= i < told.len() {
        assert(engine::tells_message(events@[i], session.tag(), told[i]));
    }
}

/// A line is taken in as the messages it holds.
pub proof fn law_lines_are_taken_in_as_their_messages(
    a: &mut Session,
    b: &mut Session,
    line: &str,
    messages: &Vec<StageMessage>,
    ea: Vec<StageEvent>,
    eb: Vec<StageEvent>,
)
    requires
        *old(a) == *old(b),
        call_ensures(parse_stage_line, (line,), *messages),
        call_ensures(Session::on_line, (a, line), ea),
        call_ensures(Session::on_messages, (b, messages), eb),
    ensures
        final(a).result() == final(b).result(),
        final(a).tag() == final(b).tag(),
        ea@.len() == eb@.len(),
{
}

/// A session is started without a prompt of its own to answer: with its prompt,
/// model, tools, turn cap and budget, each after the flag that names it.
pub proof fn law_sessions_are_started_as_asked(
    spec: &StageSpec,
    r: Vec<String>,
    turns: String,
    budget: String,
)
    requires
        call_ensures(stage_args, (spec,), r),
        call_ensures(text::decimal, (spec.max_turns as u64,), turns),
        call_ensures(format_cents, (spec.budget_cents,), budget),
    ensures
        r@.len() == 15,
        r@[0]@ == "-p"@ && r@[1]@ == spec.prompt@,
        r@[2]@ == "--output-format"@ && r@[3]@ == "stream-json"@ && r@[4]@ == "--verbose"@,
        r@[5]@ == "--model"@ && r@[6]@ == spec.model@,
        r@[7]@ == "--allowedTools"@ && r@[8]@ == spec.tools@,
        r@[9]@ == "--permission-mode"@ && r@[10]@ == "acceptEdits"@,
        r@[11]@ == "--max-turns"@ && r@[12]@ == turns@,
        r@[13]@ == "--max-budget-usd"@ && r@[14]@ == budget@,
{
    let v = text::views(r@);
    assert(v.len() == 15);
    assert forall|i: int| 0 <= i < 15 implies v[i] == #[trigger] r@[i]@ by {}
}

/// Cents are written as dollars with exactly two decimals: without the point,
/// the digits are the number of cents.
pub proof fn law_cents_have_two_decimals(cents: u64, r: String)
    requires
        call_ensures(format_cents, (cents,), r),
    ensures
        r@.len() >= 4,
        r@[r@.len() - 3] == '.',
        text::all_digits(r@.remove(r@.len() - 3)),
        text::digits_value(r@.remove(r@.len() - 3)) == cents,
{
    let n = cents as nat;
    let whole = text::decimal_of(n / 100);
    reveal_strlit(".");
    text::lemma_decimal_digits(n / 100);
    let tens = n / 10 % 10;
    let ones = n % 10;
    text::lemma_decimal_digits(tens);
    text::lemma_decimal_digits(ones);
    let t = text::decimal_of(tens);
    let o = text::decimal_of(ones);
    assert(t.len() == 1 && o.len() == 1);
    assert(r@ =~= whole + "."@ + t + o);
    let digits = r@.remove(r@.len() - 3);
    assert(digits =~= whole.push(t[0]).push(o[0]));
    assert(t =~= Seq::<char>::empty().push(t[0]));
    assert(o =~= Seq::<char>::empty().push(o[0]));
    assert(t.drop_last() =~= Seq::<char>::empty());
    assert(o.drop_last() =~= Seq::<char>::empty());
    assert(text::digits_value(Seq::<char>::empty()) == 0);
    assert(digits.drop_last() =~= whole.push(t[0]));
    assert(whole.push(t[0]).drop_last() =~= whole);
    assert(text::digits_value(whole.push(t[0])) == n / 100 * 10 + tens);
    assert(text::digits_value(digits) == (n / 100 * 10 + tens) * 10 + ones);
}

/// An epic's run starts with a worktree, then a session in it, then the
/// verification. Only a passed verification leads to a merge. A session that
/// went badly and a verification that failed both discard the worktree.
pub proof fn law_an_epic_is_merged_only_when_verified(
    run: &mut EpicRun,
    input: EpicInput,
    r: (Vec<StageEvent>, EpicAction),
)
    requires
        call_ensures(EpicRun::step, (run, input), r),
    ensures
        r.1 is Merge <==> old(run)@.phase == EpicPhase::Verifying && input == (EpicInput::Verified {
            passed: true,
        }),
        r.1 is RunVerify <==> old(run)@.phase == EpicPhase::Session && (
        input matches EpicInput::SessionEnded { ok, .. } && ok),
        r.1 is RunSession <==> old(run)@.phase == EpicPhase::Creating && input is Created,
        r.1 is DiscardWorktree <==> (old(run)@.phase == EpicPhase::Session && (
        input matches EpicInput::SessionEnded { ok, .. } && !ok)) || (old(run)@.phase
            == EpicPhase::Verifying && input == (EpicInput::Verified { passed: false })),
        r.1 is CreateWorktree <==> old(run)@.phase == EpicPhase::Discarding && input is Discarded
            && !old(run)@.retried,
        r.1 is GiveUp <==> old(run)@.phase == EpicPhase::Discarding && input is Discarded && old(
            run,
        )@.retried,
        r.1 is RunSession ==> final(run)@.phase == EpicPhase::Session,
        r.1 is RunVerify ==> final(run)@.phase == EpicPhase::Verifying,
        r.1 is Merge ==> final(run)@.phase == EpicPhase::Passed,
        r.1 is DiscardWorktree ==> final(run)@.phase == EpicPhase::Discarding,
        r.1 is CreateWorktree ==> final(run)@.phase == EpicPhase::Creating && final(run)@.retried,
        r.1 is GiveUp ==> final(run)@.phase == EpicPhase::GaveUp,
        r.1 is Ignore ==> final(run)@ == old(run)@ && r.0@.len() == 0,
        final(run)@.id == old(run)@.id,
        old(run)@.retried ==> final(run)@.retried,
        !(r.1 is CreateWorktree) ==> final(run)@.retried == old(run)@.retried,
{
}

/// An action that itself fails fails the epic for good, with its reason.
pub proof fn law_broken_actions_fail_the_epic(
    run: &mut EpicRun,
    input: EpicInput,
    r: (Vec<StageEvent>, EpicAction),
)
    requires
        call_ensures(EpicRun::step, (run, input), r),
    ensures
        r.1 is Fail <==> (old(run)@.phase == EpicPhase::Creating && input is CreateFailed) || (old(
            run,
        )@.phase == EpicPhase::Session && input is SessionFailed),
        input matches EpicInput::CreateFailed { reason } ==> (r.1 matches EpicAction::Fail {
            reason: told,
        } ==> told@ == reason@),
        input matches EpicInput::SessionFailed { reason } ==> (r.1 matches EpicAction::Fail {
            reason: told,
        } ==> told@ == reason@),
        r.1 is Fail ==> final(run)@.phase == EpicPhase::Broken && r.0@.len() == 0,
{
}

/// A session that ended is told with what the run has cost and that its epic is
/// being verified, whether it went well or not; its cost is what the epic is
/// told to have cost once it passed. A retry is told in the epic's log.
pub proof fn law_an_epics_run_is_told(
    run: &mut EpicRun,
    input: EpicInput,
    r: (Vec<StageEvent>, EpicAction),
)
    requires
        call_ensures(EpicRun::step, (run, input), r),
    ensures
        r.1 is RunVerify || (input is SessionEnded && r.1 is DiscardWorktree) ==> {
            &&& input matches EpicInput::SessionEnded { cost, total, .. } && final(run)@.cost == cost
                && r.0@.len() == 2 && r.0@[0] == (StageEvent::Cost { total })
            &&& r.0@[1] matches StageEvent::EpicVerifying { id } && id@ == old(run)@.id
        },
        r.1 is Merge ==> r.0@.len() == 1 && (r.0@[0] matches StageEvent::EpicSucceeded { id, cost }
            && id@ == old(run)@.id && cost == old(run)@.cost),
        r.1 is CreateWorktree ==> r.0@.len() == 1 && (r.0@[0] matches StageEvent::StageLog {
            tag,
            line,
        } && tag@ == old(run)@.id && line@ == "verify failed, retrying once"@),
        r.1 is RunSession || r.1 is GiveUp || (r.1 is DiscardWorktree && input is Verified)
            ==> r.0@.len() == 0,
        !(input is SessionEnded) ==> final(run)@.cost == old(run)@.cost,
{
}

/// A new run of an epic waits for its first worktree and has neither retried nor
/// cost anything.
pub proof fn law_an_epics_run_starts_afresh(id: &str, r: EpicRun)
    requires
        call_ensures(EpicRun::new, (id,), r),
    ensures
        r@.id == id@,
        r@.phase == EpicPhase::Creating,
        !r@.retried,
        r@.cost.bits == 0,
{
}

/// A setting comes from the flag where there is one, else from the workspace's
/// configuration, else it is the default.
pub proof fn law_flags_win_over_configuration_and_defaults(
    flag: &str,
    configured: &str,
    default: &str,
    a: String,
    b: String,
    c: String,
    d: String,
)
    requires
        call_ensures(resolve_setting, (Some(flag), Some(configured), default), a),
        call_ensures(resolve_setting, (Some(flag), None, default), b),
        call_ensures(resolve_setting, (None, Some(configured), default), c),
        call_ensures(resolve_setting, (None, None, default), d),
    ensures
        a@ == flag@ && b@ == flag@,
        c@ == configured@,
        d@ == default@,
{
}

/// Planning and refining run in the root they are given and may not edit or run
/// anything; an epic's session runs in its own worktree and may. Each has its
/// model, its turn cap and its budget, and is tagged by what it is for.
pub proof fn law_stages_have_their_means(
    root: &str,
    id: &str,
    prompt: &str,
    plan: StageSpec,
    epic: StageSpec,
    refine: StageSpec,
    file: String,
)
    requires
        call_ensures(plan_stage, (root, prompt), plan),
        call_ensures(epic_stage, (id, root, prompt), epic),
        call_ensures(refine_stage, (root, prompt), refine),
        call_ensures(plan_file, (root,), file),
    ensures
        plan.tag@ == "plan"@ && epic.tag@ == id@ && refine.tag@ == "refine"@,
        plan.cwd@ == root@ && epic.cwd@ == root@ && refine.cwd@ == root@,
        plan.prompt@ == prompt@ && epic.prompt@ == prompt@ && refine.prompt@ == prompt@,
        plan.model@ == "opus"@ && epic.model@ == "sonnet"@ && refine.model@ == "sonnet"@,
        plan.tools@ == "Read,Glob,Grep,Write,WebSearch,WebFetch,Skill"@,
        refine.tools@ == plan.tools@,
        epic.tools@ == "Read,Glob,Grep,Edit,Write,Bash,WebSearch,WebFetch,Skill"@,
        plan.max_turns == 20 && epic.max_turns == 40 && refine.max_turns == 12,
        plan.budget_cents == 200 && epic.budget_cents == 200 && refine.budget_cents == 20,
        file@ == crate::paths::joined_path(root@, ".agentic-plan.json"@),
{
}

} // verus!
