use zerostack::mcp_config::{inject_mcp_defaults, strip_mcp_defaults, McpServerConfig, OAuthConfig, OAuthSettings};
use zerostack::mcp_tool::{
    call_error_message, connect_notice, mcp_perm_key, reconnect_failed_message, sort_notices,
    tool_result_text, CallFailure, McpCall, McpCallAction, McpCallEvent, McpContent, McpToolError,
};

fn command(cmd: &str) -> McpServerConfig {
    McpServerConfig::Command {
        command: cmd.to_string(),
        args: vec![],
        env: vec![],
        connect_timeout_secs: Some(3),
        tool_timeout_secs: None,
        connect_retries: Some(0),
    }
}

fn names(v: &[(String, McpServerConfig)]) -> Vec<String> {
    let mut n: Vec<String> = v.iter().map(|(k, _)| k.clone()).collect();
    n.sort();
    n
}

#[test]
fn defaults_are_added_when_switched_on() {
    let servers = inject_mcp_defaults(
        Some(vec![("mine".to_string(), command("x"))]),
        [true, false, true],
        [Some("k1".to_string()), None, None],
    );
    assert_eq!(names(&servers), vec!["Exa Web Search", "Grep.app", "mine"]);
    match &servers.iter().find(|(k, _)| k == "Exa Web Search").unwrap().1 {
        McpServerConfig::Url { url, headers, oauth, .. } => {
            assert_eq!(url, "https://mcp.exa.ai/mcp");
            assert_eq!(headers, &vec![("x-api-key".to_string(), "k1".to_string())]);
            assert!(oauth.is_none());
        },
        _ => panic!("expected a url server"),
    }
    match &servers.iter().find(|(k, _)| k == "Grep.app").unwrap().1 {
        McpServerConfig::Url { url, headers, .. } => {
            assert_eq!(url, "https://mcp.grep.app");
            assert!(headers.is_empty());
        },
        _ => panic!("expected a url server"),
    }
}

#[test]
fn bearer_key_and_user_entries_win() {
    let servers = inject_mcp_defaults(
        Some(vec![("Context7".to_string(), command("own"))]),
        [false, true, true],
        [None, Some("ignored".to_string()), Some("g".to_string())],
    );
    assert!(matches!(&servers.iter().find(|(k, _)| k == "Context7").unwrap().1, McpServerConfig::Command { command, .. } if command == "own"));
    match &servers.iter().find(|(k, _)| k == "Grep.app").unwrap().1 {
        McpServerConfig::Url { headers, .. } => {
            assert_eq!(headers, &vec![("authorization".to_string(), "Bearer g".to_string())])
        },
        _ => panic!("expected a url server"),
    }
}

#[test]
fn switched_off_defaults_are_removed_and_saving_strips_them() {
    let servers = inject_mcp_defaults(
        Some(vec![("Exa Web Search".to_string(), command("old")), ("keep".to_string(), command("k"))]),
        [false, true, false],
        [None, None, None],
    );
    assert_eq!(names(&servers), vec!["Context7", "keep"]);
    let saved = strip_mcp_defaults(servers);
    assert_eq!(names(&saved), vec!["keep"]);
    assert_eq!(names(&inject_mcp_defaults(None, [false, false, false], [None, None, None])), Vec::<String>::new());
}

#[test]
fn timeouts_and_oauth_settings() {
    let c = command("x");
    assert_eq!(c.connect_timeout(), std::time::Duration::from_secs(3));
    assert_eq!(c.tool_timeout(), std::time::Duration::from_secs(20));
    assert_eq!(c.connect_retries(), 0);
    assert!(OAuthConfig::Enabled(false).settings().is_none());
    let d = OAuthConfig::Enabled(true).settings().unwrap();
    assert_eq!(d.redirect_uri(), "http://127.0.0.1:8970/callback");
    let s = OAuthSettings { scopes: vec![], client_id: None, redirect_port: Some(9000) };
    assert_eq!(s.redirect_port(), 9000);
}

#[test]
fn tool_call_messages() {
    assert_eq!(mcp_perm_key("fs", "read"), "mcp_tool:fs:read");
    assert_eq!(call_error_message("fs", "read", Some(20), "ignored"), "MCP tool 'read' on server 'fs' timed out after 20s");
    assert_eq!(call_error_message("fs", "read", None, "Transport closed"), "MCP tool error: Transport closed");
    assert_eq!(reconnect_failed_message("fs", "refused"), "MCP server 'fs' transport closed and reconnect failed: refused");
    assert_eq!(connect_notice("fs", "boom"), "MCP server 'fs' not connected: boom");
    assert_eq!(McpToolError("m".to_string()).message(), "m");
}

#[test]
fn tool_results_become_text() {
    let content = vec![
        McpContent::Text("a".to_string()),
        McpContent::Image { mime_type: "image/png".to_string(), data: "QUJD".to_string() },
        McpContent::TextResource("r".to_string()),
        McpContent::BlobResource("b".to_string()),
        McpContent::Other,
    ];
    assert_eq!(tool_result_text(None, &content, None), Ok("adata:image/png;base64,QUJDrb".to_string()));
    assert_eq!(tool_result_text(Some(false), &content[..1], Some("coach")), Ok("coach\n\na".to_string()));
    let err = vec![McpContent::Text("e1".to_string()), McpContent::Other, McpContent::Text("e2".to_string())];
    assert_eq!(tool_result_text(Some(true), &err, None), Err("e1\ne2".to_string()));
    assert_eq!(tool_result_text(Some(true), &[McpContent::Other], None), Err("MCP tool returned an error".to_string()));
}

#[test]
fn notices_are_sorted() {
    let n = sort_notices(vec!["b".to_string(), "a2".to_string(), "a".to_string(), "B".to_string()]);
    assert_eq!(n, vec!["B", "a", "a2", "b"]);
}

#[test]
fn an_mcp_call_retries_once_after_a_reconnect() {
    let closed = || CallFailure { transport_closed: true, timeout_secs: None, text: "closed".to_string() };
    let mut call = McpCall::new("srv", "tool");
    assert!(matches!(call.step(McpCallEvent::Checked(Ok(None))), McpCallAction::Send));
    assert!(matches!(call.step(McpCallEvent::Answered(Err(closed()))), McpCallAction::Reconnect));
    assert!(matches!(call.step(McpCallEvent::Reconnected(Ok(()))), McpCallAction::Send));
    match call.step(McpCallEvent::Answered(Err(closed()))) {
        McpCallAction::Fail(m) => assert_eq!(m, "MCP tool error: closed"),
        other => panic!("unexpected {other:?}"),
    }
    let mut call = McpCall::new("srv", "tool");
    call.step(McpCallEvent::Checked(Ok(None)));
    call.step(McpCallEvent::Answered(Err(closed())));
    match call.step(McpCallEvent::Reconnected(Err("boom".to_string()))) {
        McpCallAction::Fail(m) => assert_eq!(m, "MCP server 'srv' transport closed and reconnect failed: boom"),
        other => panic!("unexpected {other:?}"),
    }
}
