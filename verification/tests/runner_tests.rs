use zerostack::runner::{
    btw_context_note, history_messages, tool_output_exec, AgentRun, BtwOutcome, BtwRun, Control,
    PrintRun, PrintStep, Role, RunnerEvent, StreamItem, SubagentRun, SubagentStep,
};

fn text(s: &str) -> StreamItem {
    StreamItem::Text(s.to_string())
}

#[test]
fn tool_results_are_paired_by_call_id() {
    let mut run = AgentRun::new();
    let s = run.step(StreamItem::ToolCall {
        call_id: "c1".to_string(),
        name: "read".to_string(),
        args: "{\"path\":\"a\"}".to_string(),
    });
    assert!(s.record);
    assert_eq!(s.control, Control::Continue);
    run.step(StreamItem::ToolCall { call_id: "c2".to_string(), name: "bash".to_string(), args: "{}".to_string() });
    let s = run.step(StreamItem::ToolResult {
        call_id: "c1".to_string(),
        parts: vec![Some("line 1".to_string()), None, Some("line 2".to_string())],
    });
    match s.event {
        Some(RunnerEvent::ToolResult { call_id, name, output }) => {
            assert_eq!(call_id, "c1");
            assert_eq!(name, "read");
            assert_eq!(output, "line 1\nline 2");
        },
        other => panic!("unexpected {other:?}"),
    }
    match run.step(StreamItem::ToolResult { call_id: "c2".to_string(), parts: vec![] }).event {
        Some(RunnerEvent::ToolResult { name, .. }) => assert_eq!(name, "bash"),
        other => panic!("unexpected {other:?}"),
    }
    assert!(run.pending.is_empty());
    match run.step(StreamItem::ToolResult { call_id: "c9".to_string(), parts: vec![] }).event {
        Some(RunnerEvent::ToolResult { name, output, .. }) => {
            assert_eq!(name, "");
            assert_eq!(output, "");
        },
        other => panic!("unexpected {other:?}"),
    }
}

#[test]
fn a_pass_stops_at_the_first_error() {
    let mut run = AgentRun::new();
    let items = vec![
        text("a"),
        StreamItem::ToolCall { call_id: "c1".to_string(), name: "read".to_string(), args: "{}".to_string() },
        StreamItem::Failed("boom".to_string()),
        text("never"),
    ];
    let out = run.run_pass(items);
    assert_eq!(out.consumed, 3);
    assert_eq!(out.control, Control::Stop);
    assert_eq!(out.events.len(), 3);
    assert!(matches!(out.events.last(), Some(RunnerEvent::Error(e)) if e == "boom"));
    assert_eq!(out.recorded, vec![1]);
}

#[test]
fn a_pass_without_a_response_asks_for_a_new_stream() {
    let mut run = AgentRun::new();
    let out = run.run_pass(vec![text("a"), StreamItem::End, text("b")]);
    assert_eq!(out.consumed, 2);
    assert_eq!(out.control, Control::Restart);
    let out = run.run_pass(vec![text("c")]);
    assert_eq!((out.consumed, out.control), (1, Control::Continue));
}

#[test]
fn tool_output_skips_leading_empty_parts() {
    assert_eq!(tool_output_exec(&[Some(String::new()), Some("a".to_string())]), "a");
    assert_eq!(tool_output_exec(&[Some("a".to_string()), Some(String::new())]), "a\n");
}

#[test]
fn an_empty_final_response_restarts_the_stream() {
    let mut run = AgentRun::new();
    let s = run.step(StreamItem::FinalResponse { response: String::new(), input_tokens: 1, output_tokens: 2 });
    assert_eq!(s.control, Control::Restart);
    assert!(s.event.is_none());
    assert_eq!(run.step(StreamItem::End).control, Control::Restart);
    let s = run.step(StreamItem::FinalResponse { response: "done".to_string(), input_tokens: 3, output_tokens: 4 });
    assert_eq!(s.control, Control::Stop);
    match s.event {
        Some(RunnerEvent::Done { response, input_tokens, output_tokens }) => {
            assert_eq!(response, "done");
            assert_eq!((input_tokens, output_tokens), (3, 4));
        },
        other => panic!("unexpected {other:?}"),
    }
    let s = run.step(StreamItem::Failed("net".to_string()));
    assert_eq!(s.control, Control::Stop);
    assert!(matches!(s.event, Some(RunnerEvent::Error(ref e)) if e == "net"));
    assert!(matches!(run.step(text("t")).event, Some(RunnerEvent::Token(ref t)) if t == "t"));
}

#[test]
fn side_question_falls_back_to_streamed_text() {
    let mut run = BtwRun::new();
    assert!(run.step(text("par")).is_none());
    assert!(run.step(text("tial")).is_none());
    match run.step(StreamItem::FinalResponse { response: String::new(), input_tokens: 5, output_tokens: 6 }) {
        Some(BtwOutcome::Done { response, .. }) => assert_eq!(response, "partial"),
        other => panic!("unexpected {other:?}"),
    }
    let mut other = BtwRun::new();
    match other.step(StreamItem::End) {
        Some(BtwOutcome::Error(m)) => assert_eq!(m, "side question ended without a response"),
        x => panic!("unexpected {x:?}"),
    }
}

#[test]
fn subagent_needs_a_response() {
    let mut run = SubagentRun::new();
    assert!(matches!(run.step(text("a")), SubagentStep::Continue));
    assert!(matches!(run.step(StreamItem::ToolCall { call_id: "g".to_string(), name: "grep".to_string(), args: "{}".to_string() }), SubagentStep::ToolCall { .. }));
    assert!(matches!(run.step(StreamItem::FinalResponse { response: "final".to_string(), input_tokens: 0, output_tokens: 0 }), SubagentStep::Finish));
    assert_eq!(run.finish(), Ok("final".to_string()));
    let empty = SubagentRun::new();
    assert_eq!(empty.finish(), Err("subagent returned empty response".to_string()));
    let mut failing = SubagentRun::new();
    match failing.step(StreamItem::Failed("x".to_string())) {
        SubagentStep::Fail(m) => assert_eq!(m, "subagent error: x"),
        other => panic!("unexpected {other:?}"),
    }
}

#[test]
fn printing_run_routes_text_and_reasoning() {
    let mut run = PrintRun::new();
    assert!(matches!(run.step(text("hi")), PrintStep::Out(ref t) if t == "hi"));
    assert!(matches!(run.step(StreamItem::Reasoning("hmm".to_string())), PrintStep::ErrOut(ref t) if t == "hmm"));
    assert!(matches!(run.step(StreamItem::Failed("bad".to_string())), PrintStep::Fail(ref t) if t == "Error: bad"));
    assert_eq!(run.full_response, "hi");
}

#[test]
fn history_starts_with_the_summary() {
    let msgs = vec![
        (Role::User, "old".to_string()),
        (Role::Assistant, "older reply".to_string()),
        (Role::User, "new".to_string()),
    ];
    let h = history_messages(Some("sum"), &msgs, 2);
    assert_eq!(h, vec![(Role::System, "[Previous conversation summary]\nsum".to_string()), (Role::User, "new".to_string())]);
    assert_eq!(history_messages(None, &msgs, 0).len(), 3);
}

#[test]
fn side_question_note_lists_the_turn() {
    let trace = vec!["read a.rs".to_string(), "edit a.rs".to_string()];
    let note = btw_context_note(&trace, true).unwrap();
    assert_eq!(
        note,
        "(Context only \u{2014} the main assistant is working in parallel right now. Its progress so far this turn:\nread a.rs\nedit a.rs\nThe last step may still be running. Use this only if the user's question is about what the main assistant is doing.)"
    );
    assert!(btw_context_note(&trace, false).is_none());
    assert!(btw_context_note(&[], true).is_none());
}

#[test]
fn a_pass_sends_an_event_for_each_item_that_has_one() {
    let mut run = AgentRun::new();
    let out = run.run_pass(vec![
        text("t"),
        StreamItem::Reasoning("r".to_string()),
        StreamItem::Other,
        StreamItem::ToolCall { call_id: "c".to_string(), name: "read".to_string(), args: "{}".to_string() },
        StreamItem::ToolResult { call_id: "c".to_string(), parts: vec![Some("x".to_string())] },
        StreamItem::FinalResponse { response: "ok".to_string(), input_tokens: 1, output_tokens: 2 },
    ]);
    assert_eq!(out.events.len(), 5);
    assert!(matches!(&out.events[0], RunnerEvent::Token(t) if t == "t"));
    assert!(matches!(&out.events[3], RunnerEvent::ToolResult { name, output, .. } if name == "read" && output == "x"));
    assert!(matches!(&out.events[4], RunnerEvent::Done { response, .. } if response == "ok"));
    assert_eq!(out.recorded, vec![3, 4]);
}

#[test]
fn a_side_question_ends_at_its_first_outcome() {
    let (o, n) = zerostack::runner::run_btw(vec![
        text("a"),
        text("b"),
        StreamItem::FinalResponse { response: String::new(), input_tokens: 5, output_tokens: 6 },
        StreamItem::Failed("late".to_string()),
    ]);
    assert_eq!(n, 3);
    assert!(matches!(o, BtwOutcome::Done { ref response, input_tokens: 5, output_tokens: 6 } if response == "ab"));
    let (o, n) = zerostack::runner::run_btw(vec![text("a")]);
    assert_eq!(n, 1);
    assert!(matches!(o, BtwOutcome::Error(ref m) if m == "side question ended without a response"));
}

#[test]
fn the_agent_reprompts_until_a_response() {
    let out = zerostack::runner::run_agent(vec![
        vec![text("a"), StreamItem::End],
        vec![StreamItem::FinalResponse { response: String::new(), input_tokens: 0, output_tokens: 0 }],
        vec![StreamItem::FinalResponse { response: "done".to_string(), input_tokens: 1, output_tokens: 1 }],
        vec![text("never")],
    ]);
    assert!(out.ended);
    assert_eq!(out.passes, 3);
    assert_eq!(out.events.len(), 2);
    assert_eq!(zerostack::runner::continue_prompt(), "Please continue.");
}
