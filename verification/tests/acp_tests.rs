use zerostack::acp::{
    acp_checks_permissions, prompt_model, prompt_text, resolve_acp_mode, serve_transport,
    tcp_address, AcpServerConfig, PermissionModeSettings, PromptBlock, PromptEvent, PromptRun,
    PromptStep, SecurityMode, SessionStore, SessionUpdate, AGENT_NAME, AGENT_VERSION, run_turn, StopReason,
};

fn call(id: &str, name: &str) -> PromptEvent {
    PromptEvent::ToolCall { call_id: id.to_string(), name: name.to_string(), args: "{}".to_string() }
}

fn result(id: &str, out: &str) -> PromptEvent {
    PromptEvent::ToolResult { call_id: id.to_string(), output: out.to_string() }
}

#[test]
fn results_go_to_the_call_with_their_id() {
    let mut run = PromptRun::new();
    run.step(call("c1", "read"), "uuid-1".to_string());
    run.step(call("c2", "grep"), "uuid-2".to_string());
    match run.step(result("c1", "text"), "unused".to_string()) {
        PromptStep::Notify(SessionUpdate::ToolCallUpdate { id, output }) => {
            assert_eq!(id, "uuid-1");
            assert_eq!(output, "text");
        },
        other => panic!("unexpected step {other:?}"),
    }
    assert!(matches!(run.step(result("c1", "again"), "u".to_string()), PromptStep::Skip));
    match run.step(result("c2", "hits"), "u".to_string()) {
        PromptStep::Notify(SessionUpdate::ToolCallUpdate { id, .. }) => assert_eq!(id, "uuid-2"),
        other => panic!("unexpected step {other:?}"),
    }
}

#[test]
fn tokens_build_the_response() {
    let mut run = PromptRun::new();
    run.step(PromptEvent::Token("Hel".to_string()), String::new());
    run.step(PromptEvent::Reasoning("thinking".to_string()), String::new());
    run.step(PromptEvent::Token("lo".to_string()), String::new());
    assert_eq!(run.assistant_message(), Some("Hello".to_string()));
    assert!(matches!(run.step(PromptEvent::Done, String::new()), PromptStep::Finish));
    assert_eq!(PromptRun::new().assistant_message(), None);
}

#[test]
fn retry_error_and_subagent_events() {
    let mut run = PromptRun::new();
    match run.step(PromptEvent::Retrying { attempt: 2, max: 5 }, String::new()) {
        PromptStep::Notify(SessionUpdate::AgentThoughtChunk(t)) => assert_eq!(t, "retrying... (2/5)"),
        other => panic!("unexpected step {other:?}"),
    }
    match run.step(PromptEvent::Error("boom".to_string()), String::new()) {
        PromptStep::Refuse(SessionUpdate::AgentMessageChunk(t)) => assert_eq!(t, "[error: boom]"),
        other => panic!("unexpected step {other:?}"),
    }
    match run.step(PromptEvent::SubagentToolCall { name: "grep".to_string(), args: "{}".to_string() }, "s1".to_string()) {
        PromptStep::Notify(SessionUpdate::ToolCall { id, title, completed, .. }) => {
            assert_eq!(id, "s1");
            assert_eq!(title, "[subagent] grep");
            assert!(completed);
        },
        other => panic!("unexpected step {other:?}"),
    }
    assert!(matches!(run.step(PromptEvent::CompletionCall, String::new()), PromptStep::Skip));
}

#[test]
fn sessions_keep_their_own_history() {
    let mut s = SessionStore::new();
    s.open("a".to_string());
    s.open("b".to_string());
    s.record("a", "user", "hi".to_string());
    s.record("a", "assistant", "hello".to_string());
    s.record("zzz", "user", "lost".to_string());
    let a = &s.sessions.iter().find(|(k, _)| k == "a").unwrap().1;
    assert_eq!(a, &vec![("user".to_string(), "hi".to_string()), ("assistant".to_string(), "hello".to_string())]);
    let b = &s.sessions.iter().find(|(k, _)| k == "b").unwrap().1;
    assert!(b.is_empty());
    assert_eq!(s.sessions.len(), 2);
}

#[test]
fn prompt_text_joins_text_blocks() {
    let blocks = vec![
        PromptBlock::Text("first".to_string()),
        PromptBlock::Other,
        PromptBlock::Text("second".to_string()),
    ];
    assert_eq!(prompt_text(&blocks), "first\nsecond");
    assert_eq!(prompt_text(&[]), "");
}

#[test]
fn custom_provider_model_applies_when_no_model_was_asked_for() {
    assert_eq!(prompt_model("deepseek/deepseek-v4-pro".to_string(), true, Some("m1")), "m1");
    assert_eq!(prompt_model("gpt".to_string(), false, Some("m1")), "m1");
    assert_eq!(prompt_model("gpt".to_string(), true, Some("m1")), "gpt");
    assert_eq!(prompt_model("gpt".to_string(), false, None), "gpt");
}

#[test]
fn transport_and_identity() {
    match serve_transport(Some("0.0.0.0".to_string()), None) {
        AcpServerConfig::Tcp { host, port, api_key } => {
            assert_eq!(host, "0.0.0.0");
            assert_eq!(port, 7243);
            assert!(api_key.is_none());
        },
        AcpServerConfig::Stdio => panic!("expected tcp"),
    }
    assert_eq!(serve_transport(None, Some(1)).transport_type(), "stdio");
    assert_eq!(tcp_address("localhost", 8080), "localhost:8080");
    assert_eq!(AGENT_NAME, "zerostack");
    assert_eq!(AGENT_VERSION, "1.0.5");
    assert!(acp_checks_permissions(false, false));
    assert!(!acp_checks_permissions(true, false));
    assert!(!acp_checks_permissions(false, true));
}

fn settings() -> PermissionModeSettings {
    PermissionModeSettings {
        dangerously_skip_permissions: false,
        cli_yolo: false,
        cfg_yolo: None,
        cli_accept_all: false,
        cfg_accept_all: None,
        cli_restrictive: false,
        cfg_restrictive: None,
        default_permission_mode: None,
    }
}

#[test]
fn acp_mode_resolution() {
    assert_eq!(resolve_acp_mode(&settings()), SecurityMode::Standard);
    let mut s = settings();
    s.cfg_yolo = Some(true);
    s.cli_restrictive = true;
    assert_eq!(resolve_acp_mode(&s), SecurityMode::Yolo);
    s.dangerously_skip_permissions = true;
    assert_eq!(resolve_acp_mode(&s), SecurityMode::Standard);
    let mut t = settings();
    t.default_permission_mode = Some("guarded".to_string());
    assert_eq!(resolve_acp_mode(&t), SecurityMode::Guarded);
    t.default_permission_mode = Some("nonsense".to_string());
    assert_eq!(resolve_acp_mode(&t), SecurityMode::Standard);
    t.cfg_restrictive = Some(true);
    assert_eq!(resolve_acp_mode(&t), SecurityMode::Restrictive);
}

#[test]
fn a_turn_ends_at_the_first_error_with_one_refusal() {
    let events = vec![
        (PromptEvent::Token("hel".to_string()), "u1".to_string()),
        (call("c1", "read"), "u2".to_string()),
        (result("c9", "stray"), "u3".to_string()),
        (result("c1", "ok"), "u4".to_string()),
        (PromptEvent::Error("boom".to_string()), "u5".to_string()),
        (PromptEvent::Token("late".to_string()), "u6".to_string()),
    ];
    let out = run_turn(events);
    assert_eq!(out.consumed, 5);
    assert_eq!(out.stop, StopReason::Refusal);
    assert!(out.assistant.is_none());
    assert_eq!(out.updates.len(), 4);
    match &out.updates[2] {
        SessionUpdate::ToolCallUpdate { id, output } => {
            assert_eq!(id, "u2");
            assert_eq!(output, "ok");
        },
        other => panic!("unexpected {other:?}"),
    }
}

#[test]
fn a_turn_ends_at_done_or_when_the_channel_closes() {
    let out = run_turn(vec![
        (PromptEvent::Token("a".to_string()), "u1".to_string()),
        (PromptEvent::Token("b".to_string()), "u2".to_string()),
        (PromptEvent::Done, "u3".to_string()),
        (PromptEvent::Token("c".to_string()), "u4".to_string()),
    ]);
    assert_eq!((out.consumed, out.stop), (3, StopReason::EndTurn));
    assert_eq!(out.assistant.as_deref(), Some("ab"));
    let out = run_turn(vec![(PromptEvent::Reasoning("r".to_string()), "u1".to_string())]);
    assert_eq!((out.consumed, out.stop), (1, StopReason::EndTurn));
    assert!(out.assistant.is_none());
}

#[test]
fn a_stray_result_sends_no_update() {
    let out = run_turn(vec![
        (result("ghost", "x"), "u1".to_string()),
        (call("c1", "read"), "u2".to_string()),
        (PromptEvent::CompletionCall, "u3".to_string()),
        (result("c1", "ok"), "u4".to_string()),
    ]);
    assert_eq!(out.consumed, 4);
    assert_eq!(out.updates.len(), 2);
    assert!(matches!(&out.updates[0], SessionUpdate::ToolCall { id, title, .. } if id == "u2" && title == "read"));
    assert!(matches!(&out.updates[1], SessionUpdate::ToolCallUpdate { id, output } if id == "u2" && output == "ok"));
}
