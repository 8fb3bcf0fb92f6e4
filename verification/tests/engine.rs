//! Reading a session's output stream.
use agentic_tui::app::{StageEvent, Usd};
use agentic_tui::engine::{
    assistant_preview, format_cents, parse_stage_line, read_stage_line, stage_args,
    stage_messages, Block, Outcome, Session, StageLine, StageMessage, StageSpec,
};

fn usd(amount: f64) -> Usd {
    Usd { bits: amount.to_bits() }
}

#[test]
fn blank_and_non_json_lines_are_ignored() {
    assert!(parse_stage_line("").is_empty());
    assert!(parse_stage_line("   ").is_empty());
    assert!(parse_stage_line("not json at all").is_empty());
    assert!(parse_stage_line(r#"{"type":"unknown"}"#).is_empty());
}

#[test]
fn init_line_yields_the_model() {
    let line = r#"{"type":"system","subtype":"init","model":"opus"}"#;
    assert_eq!(
        parse_stage_line(line),
        vec![StageMessage::Init { model: "opus".to_string() }]
    );
}

#[test]
fn init_without_model_falls_back_to_empty() {
    let line = r#"{"type":"system","subtype":"init"}"#;
    assert_eq!(
        parse_stage_line(line),
        vec![StageMessage::Init { model: String::new() }]
    );
}

#[test]
fn a_non_init_system_line_is_ignored() {
    assert!(parse_stage_line(r#"{"type":"system","subtype":"other"}"#).is_empty());
}

#[test]
fn assistant_text_preview_keeps_first_line_only() {
    let line = r#"{"type":"assistant","message":{"content":[{"type":"text","text":"first line\nsecond line"}]}}"#;
    assert_eq!(
        parse_stage_line(line),
        vec![StageMessage::Assistant { preview: "first line".to_string() }]
    );
}

#[test]
fn assistant_preview_is_capped_at_120_chars() {
    let long = "x".repeat(200);
    let line = format!(
        r#"{{"type":"assistant","message":{{"content":[{{"type":"text","text":"{long}"}}]}}}}"#
    );
    match parse_stage_line(&line).as_slice() {
        [StageMessage::Assistant { preview }] => assert_eq!(preview.chars().count(), 120),
        other => panic!("expected one assistant message, got {other:?}"),
    }
}

#[test]
fn blank_assistant_text_is_dropped() {
    let line = r#"{"type":"assistant","message":{"content":[{"type":"text","text":"   \n  "}]}}"#;
    assert!(parse_stage_line(line).is_empty());
}

#[test]
fn an_assistant_turn_can_yield_text_and_tools_together() {
    let line = r#"{"type":"assistant","message":{"content":[
            {"type":"text","text":"looking around"},
            {"type":"tool_use","name":"Grep"},
            {"type":"tool_use","name":"Read"}
        ]}}"#;
    assert_eq!(
        parse_stage_line(line),
        vec![
            StageMessage::Assistant { preview: "looking around".to_string() },
            StageMessage::Tool { name: "Grep".to_string() },
            StageMessage::Tool { name: "Read".to_string() },
        ]
    );
}

#[test]
fn result_success_is_ok_with_cost() {
    let line = r#"{"type":"result","subtype":"success","is_error":false,"total_cost_usd":0.42}"#;
    assert_eq!(
        parse_stage_line(line),
        vec![StageMessage::Result { cost: usd(0.42), ok: true }]
    );
}

#[test]
fn result_with_error_flag_is_not_ok() {
    let line = r#"{"type":"result","subtype":"success","is_error":true,"total_cost_usd":0.1}"#;
    assert_eq!(
        parse_stage_line(line),
        vec![StageMessage::Result { cost: usd(0.1), ok: false }]
    );
}

#[test]
fn result_with_a_failure_subtype_is_not_ok() {
    let line =
        r#"{"type":"result","subtype":"error_max_turns","is_error":false,"total_cost_usd":0.3}"#;
    assert_eq!(
        parse_stage_line(line),
        vec![StageMessage::Result { cost: usd(0.3), ok: false }]
    );
}

#[test]
fn result_without_cost_defaults_to_zero() {
    let line = r#"{"type":"result","subtype":"success","is_error":false}"#;
    assert_eq!(
        parse_stage_line(line),
        vec![StageMessage::Result { cost: usd(0.0), ok: true }]
    );
}

#[test]
fn an_integer_cost_is_read_as_an_amount() {
    let line = r#"{"type":"result","subtype":"success","is_error":false,"total_cost_usd":2}"#;
    assert_eq!(
        parse_stage_line(line),
        vec![StageMessage::Result { cost: usd(2.0), ok: true }]
    );
}

#[test]
fn values_of_another_kind_count_as_missing() {
    let line = r#"{"type":"result","subtype":"success","is_error":"no","total_cost_usd":"0.4"}"#;
    let read = read_stage_line(line);
    assert_eq!(read.is_error, None);
    assert_eq!(read.cost, None);
    assert_eq!(read.subtype, Some("success".to_string()));
    let line = r#"{"type":"assistant","message":{"content":"plain"}}"#;
    assert!(parse_stage_line(line).is_empty());
}

#[test]
fn a_line_is_read_field_by_field() {
    let line = r#"{"type":"assistant","message":{"content":[{"type":"text","text":"hi"}]}}"#;
    assert_eq!(
        read_stage_line(line),
        StageLine {
            kind: Some("assistant".to_string()),
            subtype: None,
            model: None,
            blocks: Some(vec![Block {
                kind: Some("text".to_string()),
                text: Some("hi".to_string()),
                name: None,
            }]),
            cost: None,
            is_error: None,
        }
    );
}

#[test]
fn messages_of_a_read_line() {
    let line = StageLine {
        kind: Some("result".to_string()),
        subtype: Some("success".to_string()),
        model: None,
        blocks: None,
        cost: Some(usd(1.5)),
        is_error: None,
    };
    let messages = stage_messages(&line);
    assert_eq!(messages.len(), 1);
    assert!(matches!(messages[0], StageMessage::Result { cost, .. } if cost == usd(1.5)));
}

#[test]
fn previews_are_trimmed_one_line_texts() {
    assert_eq!(assistant_preview("  hello \n world"), Some("hello".to_string()));
    assert_eq!(assistant_preview(""), None);
    assert_eq!(assistant_preview(" \n\t"), None);
    let long = "é".repeat(130);
    assert_eq!(assistant_preview(&long).unwrap().chars().count(), 120);
}

#[test]
fn cents_are_written_as_dollars() {
    assert_eq!(format_cents(1000), "10.00");
    assert_eq!(format_cents(20), "0.20");
    assert_eq!(format_cents(125), "1.25");
    assert_eq!(format_cents(5), "0.05");
    for cents in 0..2000u64 {
        assert_eq!(format_cents(cents), format!("{:.2}", cents as f64 / 100.0));
    }
}

#[test]
fn a_stage_runs_with_its_arguments() {
    let spec = StageSpec {
        tag: "plan",
        cwd: "/tmp/ws",
        model: "opus",
        tools: "Read,Glob",
        max_turns: 20,
        budget_cents: 200,
        prompt: "do it",
    };
    let args = stage_args(&spec);
    assert_eq!(
        args,
        vec![
            "-p",
            "do it",
            "--output-format",
            "stream-json",
            "--verbose",
            "--model",
            "opus",
            "--allowedTools",
            "Read,Glob",
            "--permission-mode",
            "acceptEdits",
            "--max-turns",
            "20",
            "--max-budget-usd",
            "2.00",
        ]
    );
}

#[test]
fn the_last_result_counts() {
    let mut session = Session::new("plan");
    assert_eq!(session.outcome(), Outcome { cost: usd(0.0), ok: false });
    session.on_line(r#"{"type":"result","subtype":"success","is_error":false,"total_cost_usd":0.1}"#);
    session.on_line("noise");
    session.on_line(r#"{"type":"result","subtype":"error","is_error":false,"total_cost_usd":0.3}"#);
    assert_eq!(session.outcome(), Outcome { cost: usd(0.3), ok: false });
    session.on_line(r#"{"type":"result","subtype":"success","is_error":false,"total_cost_usd":0.7}"#);
    assert_eq!(session.outcome(), Outcome { cost: usd(0.7), ok: true });
}

#[test]
fn messages_become_events_under_the_session_tag() {
    let mut session = Session::new("epic-1");
    let events = session.on_messages(&vec![
        StageMessage::Init { model: "sonnet".to_string() },
        StageMessage::Assistant { preview: "working".to_string() },
        StageMessage::Tool { name: "Edit".to_string() },
    ]);
    assert_eq!(events.len(), 3);
    assert!(matches!(&events[0], StageEvent::StageLog { tag, line } if tag == "epic-1" && line.contains("sonnet")));
    assert!(matches!(&events[1], StageEvent::StageAssistant { tag, text } if tag == "epic-1" && text == "working"));
    assert!(matches!(&events[2], StageEvent::StageTool { tag, name, .. } if tag == "epic-1" && name == "Edit"));
}
