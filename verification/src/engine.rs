//! Engine: what is asked of a headless session of the coding tool, and what its
//! stream-json NDJSON lines say. Used by both the Plan stage and each epic
//! session.
use vstd::prelude::*;
use vstd::string::*;

use crate::app::{StageEvent, Usd};
use crate::config;
use crate::json;
use crate::json::{array_len_at, bool_at, is_json, number_at, string_at};
use crate::text;
use crate::text::{decimal, same, take_chars, trim, until_char};

verus! {

/// What one session is asked to do.
#[derive(Debug)]
pub struct StageSpec<'a> {
    pub tag: &'a str,
    pub cwd: &'a str,
    pub model: &'a str,
    pub tools: &'a str,
    pub max_turns: u32,
    /// What the session may cost, in cents.
    pub budget_cents: u64,
    pub prompt: &'a str,
}

/// What a session cost, and whether it went well.
#[derive(Debug, Clone, Copy, PartialEq, Eq, Structural)]
pub struct Outcome {
    pub cost: Usd,
    pub ok: bool,
}

/// An amount of cents as dollars with two decimals.
pub open spec fn dollars(cents: nat) -> Seq<char> {
    text::decimal_of(cents / 100) + "."@ + text::decimal_of(cents / 10 % 10) + text::decimal_of(
        cents % 10,
    )
}

/// An amount of cents as dollars with two decimals.
pub fn format_cents(cents: u64) -> (r: String)
    ensures
        r@ == dollars(cents as nat),
{
    decimal(cents / 100).concat(".").concat(decimal(cents / 10 % 10).as_str()).concat(
        decimal(cents % 10).as_str(),
    )
}

/// The arguments the coding tool's command is started with.
pub open spec fn args_of(spec: StageSpec) -> Seq<Seq<char>> {
    seq![
        "-p"@,
        spec.prompt@,
        "--output-format"@,
        "stream-json"@,
        "--verbose"@,
        "--model"@,
        spec.model@,
        "--allowedTools"@,
        spec.tools@,
        "--permission-mode"@,
        config::PERMISSION_MODE@,
        "--max-turns"@,
        text::decimal_of(spec.max_turns as nat),
        "--max-budget-usd"@,
        dollars(spec.budget_cents as nat),
    ]
}

/// The arguments the coding tool's command is started with.
pub fn stage_args(spec: &StageSpec) -> (r: Vec<String>)
    ensures
        text::views(r@) == args_of(*spec),
{
    let mut args: Vec<String> = Vec::new();
    args.push("-p".to_string());
    args.push(spec.prompt.to_string());
    args.push("--output-format".to_string());
    args.push("stream-json".to_string());
    args.push("--verbose".to_string());
    args.push("--model".to_string());
    args.push(spec.model.to_string());
    args.push("--allowedTools".to_string());
    args.push(spec.tools.to_string());
    args.push("--permission-mode".to_string());
    args.push(config::PERMISSION_MODE.to_string());
    args.push("--max-turns".to_string());
    args.push(decimal(spec.max_turns as u64));
    args.push("--max-budget-usd".to_string());
    args.push(format_cents(spec.budget_cents));
    assert(text::views(args@) =~= args_of(*spec));
    args
}

/// A meaningful message decoded from one NDJSON line of the session's stream.
/// One line can yield several messages (an assistant turn carries a content
/// array of text and tool_use blocks), so parsing returns a `Vec`.
#[derive(Debug, PartialEq)]
pub enum StageMessage {
    Init { model: String },
    Assistant { preview: String },
    Tool { name: String },
    Result { cost: Usd, ok: bool },
}

/// The content of a message.
#[verifier::ext_equal]
pub ghost enum MessageModel {
    Init { model: Seq<char> },
    Assistant { preview: Seq<char> },
    Tool { name: Seq<char> },
    Result { cost: Usd, ok: bool },
}

impl View for StageMessage {
    type V = MessageModel;

    open spec fn view(&self) -> MessageModel {
        match self {
            StageMessage::Init { model } => MessageModel::Init { model: model@ },
            StageMessage::Assistant { preview } => MessageModel::Assistant { preview: preview@ },
            StageMessage::Tool { name } => MessageModel::Tool { name: name@ },
            StageMessage::Result { cost, ok } => MessageModel::Result { cost: *cost, ok: *ok },
        }
    }
}

/// The first non-empty line, trimmed and capped at 120 characters; none if
/// the text is blank.
pub open spec fn preview_of(s: Seq<char>) -> Option<Seq<char>> {
    let first = text::trimmed(text::before_char(text::trimmed(s), '\n'));
    if first.len() == 0 {
        None
    } else {
        Some(text::first_chars(first, 120))
    }
}

/// Preview text sent to the UI for an assistant text block: the first non-empty
/// line, capped at 120 characters.
pub fn assistant_preview(text: &str) -> (r: Option<String>)
    ensures
        text::opt_view(r) == preview_of(text@),
{
    let whole = trim(text);
    let line = until_char(whole.as_str(), '\n');
    let first = trim(line.as_str());
    if first.as_str().is_empty() {
        return None;
    }
    Some(take_chars(first.as_str(), 120))
}

/// One block of an assistant turn: the fields that a message may need.
#[derive(Debug, PartialEq)]
pub struct Block {
    pub kind: Option<String>,
    pub text: Option<String>,
    pub name: Option<String>,
}

/// One stream line: the fields that a message may need. `blocks` is absent
/// where the line has no content array.
#[derive(Debug, PartialEq)]
pub struct StageLine {
    pub kind: Option<String>,
    pub subtype: Option<String>,
    pub model: Option<String>,
    pub blocks: Option<Vec<Block>>,
    pub cost: Option<Usd>,
    pub is_error: Option<bool>,
}

/// The content of a block.
#[verifier::ext_equal]
pub ghost struct BlockModel {
    pub kind: Option<Seq<char>>,
    pub text: Option<Seq<char>>,
    pub name: Option<Seq<char>>,
}

/// The content of a line.
#[verifier::ext_equal]
pub ghost struct LineModel {
    pub kind: Option<Seq<char>>,
    pub subtype: Option<Seq<char>>,
    pub model: Option<Seq<char>>,
    pub blocks: Option<Seq<BlockModel>>,
    pub cost: Option<Usd>,
    pub is_error: Option<bool>,
}

impl View for Block {
    type V = BlockModel;

    open spec fn view(&self) -> BlockModel {
        BlockModel {
            kind: text::opt_view(self.kind),
            text: text::opt_view(self.text),
            name: text::opt_view(self.name),
        }
    }
}

impl View for StageLine {
    type V = LineModel;

    open spec fn view(&self) -> LineModel {
        LineModel {
            kind: text::opt_view(self.kind),
            subtype: text::opt_view(self.subtype),
            model: text::opt_view(self.model),
            blocks: match self.blocks {
                Some(list) => Some(text::views(list@)),
                None => None,
            },
            cost: self.cost,
            is_error: self.is_error,
        }
    }
}

/// The message of a block, if it has one: the preview of a text, or the name
/// of a tool.
pub open spec fn block_message(b: BlockModel) -> Option<MessageModel> {
    if b.kind == Some("text"@) {
        match b.text {
            Some(t) => match preview_of(t) {
                Some(preview) => Some(MessageModel::Assistant { preview }),
                None => None,
            },
            None => None,
        }
    } else if b.kind == Some("tool_use"@) {
        match b.name {
            Some(name) => Some(MessageModel::Tool { name }),
            None => None,
        }
    } else {
        None
    }
}

/// The messages of the blocks, in their order.
pub open spec fn block_messages(blocks: Seq<BlockModel>) -> Seq<MessageModel>
    decreases blocks.len(),
{
    if blocks.len() == 0 {
        Seq::empty()
    } else {
        let head = block_messages(blocks.drop_last());
        match block_message(blocks.last()) {
            Some(m) => head.push(m),
            None => head,
        }
    }
}

/// A result is fine when it is no error and its subtype is empty, absent or
/// `success`.
pub open spec fn result_ok(line: LineModel) -> bool {
    &&& line.is_error != Some(true)
    &&& match line.subtype {
        Some(s) => s.len() == 0 || s == "success"@,
        None => true,
    }
}

/// What a line says.
pub open spec fn messages_of(line: LineModel) -> Seq<MessageModel> {
    if line.kind == Some("system"@) && line.subtype == Some("init"@) {
        seq![
            MessageModel::Init {
                model: match line.model {
                    Some(m) => m,
                    None => Seq::empty(),
                },
            },
        ]
    } else if line.kind == Some("assistant"@) {
        match line.blocks {
            Some(blocks) => block_messages(blocks),
            None => Seq::empty(),
        }
    } else if line.kind == Some("result"@) {
        seq![
            MessageModel::Result {
                cost: match line.cost {
                    Some(c) => c,
                    None => Usd { bits: 0 },
                },
                ok: result_ok(line),
            },
        ]
    } else {
        Seq::empty()
    }
}

fn is_text(o: &Option<String>, s: &str) -> (r: bool)
    ensures
        r == (text::opt_view(*o) == Some(s@)),
{
    match o {
        Some(t) => same(t.as_str(), s),
        None => false,
    }
}

fn message_of(b: &Block) -> (r: Option<StageMessage>)
    ensures
        text::opt_view(r) == block_message(b@),
{
    proof {
        reveal_strlit("text");
        reveal_strlit("tool_use");
        assert("text"@.len() != "tool_use"@.len());
    }
    if is_text(&b.kind, "text") {
        match &b.text {
            Some(t) => match assistant_preview(t.as_str()) {
                Some(preview) => Some(StageMessage::Assistant { preview }),
                None => None,
            },
            None => None,
        }
    } else if is_text(&b.kind, "tool_use") {
        match &b.name {
            Some(name) => Some(StageMessage::Tool { name: name.clone() }),
            None => None,
        }
    } else {
        None
    }
}

/// What a line says: the model of a starting session, previews and tool names
/// of an assistant turn, or cost and success of a result. Lines of any other
/// kind say nothing.
pub fn stage_messages(line: &StageLine) -> (r: Vec<StageMessage>)
    ensures
        text::views(r@) == messages_of(line@),
{
    let mut out: Vec<StageMessage> = Vec::new();
    if is_text(&line.kind, "system") && is_text(&line.subtype, "init") {
        let model = match &line.model {
            Some(m) => m.clone(),
            None => String::new(),
        };
        out.push(StageMessage::Init { model });
        assert(text::views(out@) =~= messages_of(line@));
        return out;
    }
    if is_text(&line.kind, "assistant") {
        assert(text::views(out@) =~= Seq::<MessageModel>::empty());
        if let Some(blocks) = &line.blocks {
            let ghost all = text::views(blocks@);
            let mut i: usize = 0;
            assert(all.take(0) =~= Seq::<BlockModel>::empty());
            while i < blocks.len()
                invariant
                    i <= blocks@.len(),
                    all == text::views(blocks@),
                    text::views(out@) == block_messages(all.take(i as int)),
                decreases blocks@.len() - i,
            {
                let ghost before = out@;
                let m = message_of(&blocks[i]);
                proof {
                    assert(all.take(i + 1).drop_last() =~= all.take(i as int));
                    assert(all.take(i + 1).last() == blocks@[i as int]@);
                }
                if let Some(message) = m {
                    out.push(message);
                    proof {
                        text::lemma_views_push(before, message);
                    }
                }
                i = i + 1;
            }
            assert(all.take(i as int) =~= all);
        }
        return out;
    }
    if is_text(&line.kind, "result") {
        let cost = match line.cost {
            Some(c) => c,
            None => Usd { bits: 0 },
        };
        let is_error = match line.is_error {
            Some(e) => e,
            None => false,
        };
        let subtype_ok = match &line.subtype {
            Some(s) => s.as_str().is_empty() || same(s.as_str(), "success"),
            None => true,
        };
        out.push(StageMessage::Result { cost, ok: !is_error && subtype_ok });
        assert(text::views(out@) =~= messages_of(line@));
        return out;
    }
    assert(text::views(out@) =~= Seq::<MessageModel>::empty());
    out
}

/// The pointer of a field of block `i`.
pub open spec fn block_pointer(i: nat, field: Seq<char>) -> Seq<char> {
    "/message/content/"@ + text::decimal_of(i) + "/"@ + field
}

/// The content of a JSON line: what stands at each place that is read.
pub open spec fn line_of(s: Seq<char>) -> LineModel {
    LineModel {
        kind: json::json_string(s, "/type"@),
        subtype: json::json_string(s, "/subtype"@),
        model: json::json_string(s, "/model"@),
        blocks: match json::json_array_len(s, "/message/content"@) {
            Some(n) => Some(
                Seq::new(
                    n as nat,
                    |i: int|
                        BlockModel {
                            kind: json::json_string(s, block_pointer(i as nat, "type"@)),
                            text: json::json_string(s, block_pointer(i as nat, "text"@)),
                            name: json::json_string(s, block_pointer(i as nat, "name"@)),
                        },
                ),
            ),
            None => None,
        },
        cost: match json::json_number(s, "/total_cost_usd"@) {
            Some(bits) => Some(Usd { bits }),
            None => None,
        },
        is_error: json::json_bool(s, "/is_error"@),
    }
}

fn block_field(line: &str, i: usize, field: &str) -> (r: Option<String>)
    ensures
        text::opt_view(r) == json::json_string(line@, block_pointer(i as nat, field@)),
{
    let pointer = "/message/content/".to_string().concat(decimal(i as u64).as_str()).concat(
        "/",
    ).concat(field);
    string_at(line, pointer.as_str())
}

/// Reads the fields of a JSON line.
pub fn read_stage_line(line: &str) -> (r: StageLine)
    ensures
        r@ == line_of(line@),
{
    let blocks: Option<Vec<Block>> = match array_len_at(line, "/message/content") {
        Some(n) => {
            let mut list: Vec<Block> = Vec::new();
            let mut i: usize = 0;
            while i < n
                invariant
                    i <= n,
                    list@.len() == i,
                    forall|j: int|
                        0 <= j < i ==> (#[trigger] list@[j])@ == (BlockModel {
                            kind: json::json_string(line@, block_pointer(j as nat, "type"@)),
                            text: json::json_string(line@, block_pointer(j as nat, "text"@)),
                            name: json::json_string(line@, block_pointer(j as nat, "name"@)),
                        }),
                decreases n - i,
            {
                list.push(
                    Block {
                        kind: block_field(line, i, "type"),
                        text: block_field(line, i, "text"),
                        name: block_field(line, i, "name"),
                    },
                );
                i = i + 1;
            }
            Some(list)
        },
        None => None,
    };
    let r = StageLine {
        kind: string_at(line, "/type"),
        subtype: string_at(line, "/subtype"),
        model: string_at(line, "/model"),
        blocks,
        cost: number_at(line, "/total_cost_usd"),
        is_error: bool_at(line, "/is_error"),
    };
    proof {
        if r@.blocks is Some {
            assert(r@.blocks->0 =~= line_of(line@).blocks->0);
        }
        assert(r@ =~= line_of(line@));
    }
    r
}

/// What one line of the stream says. Blank lines and lines that are no JSON
/// say nothing.
pub open spec fn stream_messages(s: Seq<char>) -> Seq<MessageModel> {
    let line = text::trimmed(s);
    if line.len() == 0 || !json::json_parses(line) {
        Seq::empty()
    } else {
        messages_of(line_of(line))
    }
}

/// Decode one line of a session's stream-json output into zero or more messages.
/// Blank lines, non-JSON lines, and JSON we do not act on yield an empty `Vec`.
pub fn parse_stage_line(line: &str) -> (r: Vec<StageMessage>)
    ensures
        text::views(r@) == stream_messages(line@),
{
    let trimmed = trim(line);
    if trimmed.as_str().is_empty() || !is_json(trimmed.as_str()) {
        let none: Vec<StageMessage> = Vec::new();
        assert(text::views(none@) =~= Seq::<MessageModel>::empty());
        return none;
    }
    let fields = read_stage_line(trimmed.as_str());
    stage_messages(&fields)
}

/// A session as its lines come in.
#[derive(Debug, PartialEq)]
pub struct Session {
    tag: String,
    outcome: Outcome,
}

/// The event that a message gives, under a tag; a result gives none.
pub open spec fn tells_message(ev: StageEvent, tag: Seq<char>, m: MessageModel) -> bool {
    match m {
        MessageModel::Init { model } => ev matches StageEvent::StageLog { tag: t, line } && t@
            == tag && line@ == "session init ("@ + model + ")"@,
        MessageModel::Assistant { preview } => ev matches StageEvent::StageAssistant {
            tag: t,
            text,
        } && t@ == tag && text@ == preview,
        MessageModel::Tool { name } => ev matches StageEvent::StageTool { tag: t, name: n, input }
            && t@ == tag && n@ == name && input@.len() == 0,
        MessageModel::Result { .. } => false,
    }
}

/// The messages that give an event.
pub open spec fn visible(messages: Seq<MessageModel>) -> Seq<MessageModel> {
    messages.filter(|m: MessageModel| !(m is Result))
}

/// The outcome after some messages: that of the last result among them.
pub open spec fn outcome_after(start: Outcome, messages: Seq<MessageModel>) -> Outcome
    decreases messages.len(),
{
    if messages.len() == 0 {
        start
    } else {
        match messages.last() {
            MessageModel::Result { cost, ok } => Outcome { cost, ok },
            _ => outcome_after(start, messages.drop_last()),
        }
    }
}

impl Session {
    /// The tag of the session's events.
    pub closed spec fn tag(self) -> Seq<char> {
        self.tag@
    }

    /// What is known of the session's outcome.
    pub closed spec fn result(self) -> Outcome {
        self.outcome
    }

    /// A session that has said nothing yet: not ok, and free.
    pub fn new(tag: &str) -> (r: Session)
        ensures
            r.tag() == tag@,
            r.result() == (Outcome { cost: Usd { bits: 0 }, ok: false }),
    {
        Session { tag: tag.to_string(), outcome: Outcome { cost: Usd { bits: 0 }, ok: false } }
    }

    /// Takes in messages: the events to send for them, in their order.
    pub fn on_messages(&mut self, messages: &Vec<StageMessage>) -> (r: Vec<StageEvent>)
        ensures
            final(self).tag() == old(self).tag(),
            final(self).result() == outcome_after(old(self).result(), text::views(messages@)),
            r@.len() == visible(text::views(messages@)).len(),
            forall|i: int|
                0 <= i < r@.len() ==> tells_message(
                    #[trigger] r@[i],
                    old(self).tag(),
                    visible(text::views(messages@))[i],
                ),
    {
        let ghost all = text::views(messages@);
        let ghost f = |m: MessageModel| !(m is Result);
        let ghost start = self.outcome;
        let ghost tag = self.tag@;
        let mut events: Vec<StageEvent> = Vec::new();
        let mut i: usize = 0;
        proof {
            assert(all.take(0) =~= Seq::<MessageModel>::empty());
            reveal(Seq::filter);
            assert(visible(all.take(0)) =~= Seq::<MessageModel>::empty());
        }
        while i < messages.len()
            invariant
                i <= messages@.len(),
                all == text::views(messages@),
                f == (|m: MessageModel| !(m is Result)),
                self.tag@ == tag,
                self.outcome == outcome_after(start, all.take(i as int)),
                events@.len() == visible(all.take(i as int)).len(),
                forall|j: int|
                    0 <= j < events@.len() ==> tells_message(
                        #[trigger] events@[j],
                        tag,
                        visible(all.take(i as int))[j],
                    ),
            decreases messages@.len() - i,
        {
            let ghost head = all.take(i as int);
            let ghost sofar = events@;
            let ghost m = all[i as int];
            proof {
                assert(all.take(i + 1) =~= head.push(m));
                assert(all.take(i + 1).drop_last() =~= head);
                head.lemma_filter_push(m, f);
            }
            match &messages[i] {
                StageMessage::Init { model } => {
                    events.push(
                        StageEvent::StageLog {
                            tag: self.tag.clone(),
                            line: "session init (".to_string().concat(model.as_str()).concat(")"),
                        },
                    );
                },
                StageMessage::Assistant { preview } => {
                    events.push(
                        StageEvent::StageAssistant {
                            tag: self.tag.clone(),
                            text: preview.clone(),
                        },
                    );
                },
                StageMessage::Tool { name } => {
                    events.push(
                        StageEvent::StageTool {
                            tag: self.tag.clone(),
                            name: name.clone(),
                            input: String::new(),
                        },
                    );
                },
                StageMessage::Result { cost, ok } => {
                    self.outcome = Outcome { cost: *cost, ok: *ok };
                },
            }
            i = i + 1;
            proof {
                let now = visible(all.take(i as int));
                assert forall|j: int| 0 <= j < events@.len() implies tells_message(
                    #[trigger] events@[j],
                    tag,
                    now[j],
                ) by {
                    if j < sofar.len() {
                        assert(events@[j] == sofar[j]);
                        assert(now[j] == visible(head)[j]);
                    }
                }
            }
        }
        assert(all.take(i as int) =~= all);
        events
    }

    /// Takes in one line of the stream: the events to send for it.
    pub fn on_line(&mut self, line: &str) -> (r: Vec<StageEvent>)
        ensures
            final(self).tag() == old(self).tag(),
            final(self).result() == outcome_after(old(self).result(), stream_messages(line@)),
            r@.len() == visible(stream_messages(line@)).len(),
            forall|i: int|
                0 <= i < r@.len() ==> tells_message(
                    #[trigger] r@[i],
                    old(self).tag(),
                    visible(stream_messages(line@))[i],
                ),
    {
        let messages = parse_stage_line(line);
        self.on_messages(&messages)
    }

    /// The outcome once the stream has ended.
    pub fn outcome(&self) -> (r: Outcome)
        ensures
            r == self.result(),
    {
        self.outcome
    }
}

/// A preview is one line of 1 to 120 characters that does not start with white
/// space.
pub proof fn law_preview_is_one_short_line(s: Seq<char>)
    requires
        preview_of(s) is Some,
    ensures
        0 < preview_of(s)->0.len() <= 120,
        !preview_of(s)->0.contains('\n'),
        !text::white_space(preview_of(s)->0[0]),
{
    let t = text::trimmed(s);
    let line = text::before_char(t, '\n');
    let first = text::trimmed(line);
    text::lemma_first_pos(t, '\n');
    text::law_trim(line);
    text::lemma_trimmed_part(line);
    assert forall|i: int| 0 <= i < preview_of(s)->0.len() implies preview_of(s)->0[i] != '\n' by {
        assert(preview_of(s)->0[i] == first[i]);
        assert(line.contains(first[i]));
    }
}

/// What came before a result does not matter to the outcome, and lines that
/// hold no result do not change it.
pub proof fn law_last_result_counts(
    start: Outcome,
    before: Seq<MessageModel>,
    cost: Usd,
    ok: bool,
    after: Seq<MessageModel>,
)
    requires
        forall|i: int| 0 <= i < after.len() ==> !((#[trigger] after[i]) is Result),
    ensures
        outcome_after(start, before.push(MessageModel::Result { cost, ok }) + after) == (Outcome {
            cost,
            ok,
        }),
    decreases after.len(),
{
    let head = before.push(MessageModel::Result { cost, ok });
    if after.len() == 0 {
        assert(head + after =~= head);
    } else {
        law_last_result_counts(start, before, cost, ok, after.drop_last());
        assert((head + after).drop_last() =~= head + after.drop_last());
        assert((head + after).last() == after.last());
    }
}

} // verus!
