use zerostack::chain::{parse_chain_decision, ChainDecision, ChainPhase};
use zerostack::config::{ChainConfig, RtkConfig};
use zerostack::docs::{docs_need_copy, global_docs_dir};
use zerostack::fs::{expand_tilde_with_home, join_path};
use zerostack::logging::{crash_log_dir, crash_log_path, crash_report, log_path, stderr_filter_directive, PanicLocation};
use zerostack::oauth::{
    callback_response, parse_callback, percent_decode, request_line, token_filename, token_path,
    CallbackError, FileCredentialStore, CALLBACK_PAGE,
};
use zerostack::pattern::{glob_to_regex, Pattern};
use zerostack::pricing::billable_input_tokens;
use zerostack::rtk::{command_to_run, rewritten_command, rtk_binary, Rtk};
use zerostack::signals::{signal_bytes, Signal, StatusSignals};
use zerostack::storage::{chat_history_path, iteration_file_name, transcript_dir};
use zerostack::subagents::{explore_prompt, EXPLORE_PROMPT};
use zerostack::tools::{lsp_tool_output, write_report, LspArgs, WriteTool, DEFAULT_MAX_TEXT_SIZE};
use zerostack::truncate::truncate_cjk;

#[test]
fn chain_phases_advance() {
    assert_eq!(ChainPhase::from_prompt_name("plan"), Some(ChainPhase::Plan));
    assert_eq!(ChainPhase::from_prompt_name("review"), None);
    assert_eq!(ChainPhase::Brainstorm.next_prompt_name(), "plan");
    assert_eq!(ChainPhase::from_prompt_name(ChainPhase::Plan.next_prompt_name()), Some(ChainPhase::Code));
    assert_eq!(ChainPhase::Code.chain_label(), "Run /review? [Y/N/B]");
    assert_eq!(ChainPhase::Plan.transition_message(), "Implement the plan above. Write code, tests, and verify.");
    assert!(!ChainPhase::Code.is_enabled(&ChainConfig::default()));
}

#[test]
fn chain_answers() {
    assert_eq!(parse_chain_decision("  NO "), ChainDecision::Decline);
    assert_eq!(parse_chain_decision("Yes"), ChainDecision::Accept(None));
    assert_eq!(parse_chain_decision("yes but Add Tests "), ChainDecision::Accept(Some("Add Tests".to_string())));
    assert_eq!(parse_chain_decision("b   "), ChainDecision::NotChain);
    assert_eq!(parse_chain_decision("maybe"), ChainDecision::NotChain);
}

#[test]
fn anthropic_cache_tiers_are_folded() {
    assert_eq!(billable_input_tokens(false, 1000, 500, 200), 1000);
    assert_eq!(billable_input_tokens(true, 100, 1000, 100), 325);
    assert_eq!(billable_input_tokens(true, 0, 0, 0), 0);
}

#[test]
fn globs_become_anchored_regexes() {
    assert_eq!(glob_to_regex("src/**/*.rs"), "^src/(?:.*/)?[^/]*\\.rs$");
    assert_eq!(glob_to_regex("a?c"), "^a.c$");
    let p = Pattern::with_home("~/proj/*.rs", Some("/home/u"));
    assert!(p.matches("/home/u/proj/main.rs"));
    assert!(!p.matches("/home/u/proj/sub/main.rs"));
    assert_eq!(p.original, "~/proj/*.rs");
    let q = Pattern::with_home("git push*", None);
    assert!(q.matches("git push origin"));
    assert!(!q.matches("git pull"));
}

#[test]
fn paths_and_tilde() {
    assert_eq!(join_path("/a", "b"), "/a/b");
    assert_eq!(join_path("/a/", "/abs"), "/abs");
    assert_eq!(expand_tilde_with_home("~/x", Some("/home/u")), "/home/u/x");
    assert_eq!(expand_tilde_with_home("$HOME", Some("/home/u")), "/home/u");
    assert_eq!(expand_tilde_with_home("~user/x", Some("/home/u")), "~user/x");
    assert_eq!(expand_tilde_with_home("~/x", None), "~/x");
    assert_eq!(global_docs_dir("/d"), "/d/docs");
    assert!(docs_need_copy(None, "1.0"));
    assert!(!docs_need_copy(Some(" 1.0\n"), "1.0"));
    assert!(docs_need_copy(Some("0.9"), "1.0"));
}

#[test]
fn truncation_keeps_whole_characters() {
    assert_eq!(truncate_cjk("short", 10, "…"), "short");
    assert_eq!(truncate_cjk("日本語テキスト", 7, "..."), "日本...");
    assert_eq!(truncate_cjk("abcdef", 3, "+"), "abc+");
}

#[test]
fn oauth_redirect_handling() {
    assert_eq!(
        parse_callback("GET /callback?code=a%2Fb&state=s+1 HTTP/1.1"),
        Ok(("a/b".to_string(), "s 1".to_string()))
    );
    assert_eq!(parse_callback("GET"), Err(CallbackError::MalformedRequestLine));
    assert_eq!(
        parse_callback("GET /callback?error=access_denied&code=x&state=y HTTP/1.1"),
        Err(CallbackError::ServerError("access_denied".to_string()))
    );
    assert_eq!(parse_callback("GET /callback?code=x HTTP/1.1"), Err(CallbackError::MissingCodeOrState));
    assert_eq!(CallbackError::MissingCodeOrState.message(), "redirect missing code or state");
    assert_eq!(percent_decode("a%41%zz+b%4"), "aA%zz b%4");
    assert_eq!(percent_decode("%E2%82%AC"), "€");
    assert_eq!(percent_decode("plain"), "plain");
    assert_eq!(token_filename("my server/1"), "my_server_1.json");
    assert_eq!(token_path("/d", "x"), "/d/mcp-oauth/x.json");
    assert_eq!(FileCredentialStore::new("/d", "a.b").path, "/d/mcp-oauth/a_b.json");
    assert_eq!(request_line(b"GET /cb?code=1 HTTP/1.1\r\nHost: x\r\n"), Ok("GET /cb?code=1 HTTP/1.1".to_string()));
    assert_eq!(request_line(b""), Err("empty redirect request".to_string()));
    let resp = callback_response();
    assert!(resp.starts_with("HTTP/1.1 200 OK\r\nContent-Type: text/html\r\nContent-Length: "));
    assert!(resp.ends_with(&format!("\r\nConnection: close\r\n\r\n{CALLBACK_PAGE}")));
    assert!(resp.contains(&format!("Content-Length: {}\r\n", CALLBACK_PAGE.len())));
}

#[test]
fn logging_paths_and_reports() {
    assert_eq!(crash_log_dir("/d"), "/d/logs/crashes");
    assert_eq!(crash_log_path("/d", "2024-01-02_03-04-05", 42), "/d/logs/crashes/zerostack-crash-2024-01-02_03-04-05_42.log");
    assert_eq!(log_path(None, true, "/d", "T", 7), Some("/d/logs/zerostack-T_7.log".to_string()));
    assert_eq!(log_path(Some("/tmp/x.log".to_string()), true, "/d", "T", 7), Some("/tmp/x.log".to_string()));
    assert_eq!(log_path(None, false, "/d", "T", 7), None);
    assert_eq!(stderr_filter_directive("debug"), "debug,rig=off");
    let loc = PanicLocation { file: "src/a.rs".to_string(), line: 3, column: 9 };
    assert_eq!(
        crash_report("now", Some("1.0"), Some("oops"), Some(&loc), "bt"),
        "zerostack crash report\ntime: now\nversion: 1.0\n\npanic: oops\nlocation: src/a.rs:3:9\n\nbt"
    );
    assert_eq!(crash_report("now", None, None, None, ""), "zerostack crash report\ntime: now\n\npanic: unknown\n\n");
}

#[test]
fn storage_paths() {
    assert_eq!(transcript_dir("/d", "s1"), "/d/loops/s1");
    assert_eq!(iteration_file_name(7), "iter-0007.json");
    assert_eq!(iteration_file_name(12345), "iter-12345.json");
    assert_eq!(chat_history_path("/d"), "/d/chat_history.json");
}

#[test]
fn signals_and_rtk() {
    assert_eq!(StatusSignals::new("/run/s".to_string()).path, "/run/s");
    assert_eq!(signal_bytes(Signal::Start), b"start\n".to_vec());
    assert_eq!(signal_bytes(Signal::GitConflict), b"git-conflict\n".to_vec());
    assert_eq!(signal_bytes(Signal::Stop), b"stop\n".to_vec());
    assert_eq!(rtk_binary(None), None);
    assert_eq!(rtk_binary(Some(&RtkConfig { enabled: false, path: None })), None);
    assert_eq!(rtk_binary(Some(&RtkConfig { enabled: true, path: None })), Some("rtk".to_string()));
    assert_eq!(rtk_binary(Some(&RtkConfig { enabled: true, path: Some("/bin/rtk".to_string()) })), Some("/bin/rtk".to_string()));
    assert_eq!(rewritten_command(b"  rtk git status\n"), Some("rtk git status".to_string()));
    assert_eq!(rewritten_command(b" \n"), None);
    assert_eq!(command_to_run("git status", Some("rtk git status".to_string())), "rtk git status");
    assert_eq!(command_to_run("ls", Some("ls".to_string())), "ls");
    assert_eq!(command_to_run("ls", None), "ls");
    assert_eq!(Rtk::new("rtk".to_string()).path, "rtk");
}

#[test]
fn explore_prompt_variants() {
    assert_eq!(explore_prompt(false), EXPLORE_PROMPT);
    assert!(EXPLORE_PROMPT.starts_with("You are a precise code investigation agent. Answer specific technical questions"));
    let m = explore_prompt(true);
    assert!(m.ends_with("- **memory_search**: Keyword search across all memory files.\n"));
}

#[test]
fn write_tool_checks_and_reports() {
    let t: WriteTool<(), (), ()> = WriteTool::new(None, None, None);
    assert_eq!(t.max_text_file_size, DEFAULT_MAX_TEXT_SIZE);
    assert_eq!(t.check_write("a.txt", false, 10), Ok(()));
    assert_eq!(
        t.check_write("a.txt", true, 10),
        Err("File 'a.txt' already exists. Use edit for targeted changes, or delete and recreate if a full rewrite is needed.".to_string())
    );
    let small: WriteTool<(), (), u8> = WriteTool::new(None, None, Some(5)).with_lsp(Some(1));
    assert_eq!(small.lsp, Some(1));
    assert_eq!(
        small.check_write("b", false, 6),
        Err("File too large (6 bytes). Maximum allowed file size is 5 bytes.".to_string())
    );
    assert_eq!(write_report(12, "a.txt", Some("coach"), Some("\n\nLSP diagnostics (x):")), "coach\n\nWritten 12 bytes to a.txt\n\nLSP diagnostics (x):");
    assert_eq!(write_report(0, "b", None, None), "Written 0 bytes to b");
}

#[test]
fn diagnostics_tool_answers() {
    let args = LspArgs { path: Some("x.rs".to_string()) };
    assert_eq!(args.path.as_deref(), Some("x.rs"));
    assert_eq!(lsp_tool_output(Some("x.rs"), false, None), Err("File 'x.rs' does not exist.".to_string()));
    assert_eq!(lsp_tool_output(Some("x.rs"), true, None), Ok("No diagnostics for x.rs.".to_string()));
    assert_eq!(lsp_tool_output(Some("x.rs"), true, Some("\n\nLSP diagnostics (ra):")), Ok("LSP diagnostics (ra):".to_string()));
    assert_eq!(lsp_tool_output(None, true, Some("  a")), Ok("Files with diagnostics:\n  a".to_string()));
    assert_eq!(lsp_tool_output(None, true, None), Ok("No diagnostics.".to_string()));
}
