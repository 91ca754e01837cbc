use zerostack::bash::{BashAction, BashCall, BashEvent};
use zerostack::bash::{
    append_hints, cap_output, command_output, network_hint_for_exit, split_bash_commands,
    with_coaching, BashTool,
};
use zerostack::sandbox::Sandbox;

#[test]
fn splits_on_separators_outside_quotes() {
    assert_eq!(
        split_bash_commands("ls -la; echo 'a;b' && cat \"x||y\" || rm z >> log\npwd"),
        vec!["ls -la", "echo 'a;b'", "cat \"x||y\"", "rm z", "log", "pwd"]
    );
}

#[test]
fn keeps_single_pipes_and_escapes() {
    assert_eq!(split_bash_commands("a | b & c \\; d > e"), vec!["a | b & c \\; d > e"]);
}

#[test]
fn drops_empty_commands() {
    assert_eq!(split_bash_commands(" ; ;;\n  && "), Vec::<String>::new());
    assert!(split_bash_commands("").is_empty());
}

#[test]
fn command_output_joins_streams_and_exit_code() {
    assert_eq!(command_output("out", "err", 0), "out\nerr");
    assert_eq!(command_output("", "err", 2), "err\nExit code: 2");
    assert_eq!(command_output("out", "", -1), "out\nExit code: -1");
    assert_eq!(command_output("", "", 0), "");
}

#[test]
fn coaching_goes_first() {
    assert_eq!(with_coaching(Some("note"), "body".to_string()), "note\n\nbody");
    assert_eq!(with_coaching(None, "body".to_string()), "body");
}

#[test]
fn output_cap_explains_the_cut() {
    assert_eq!(
        cap_output("a\nb\nc".to_string(), 2, "a\nb", 3),
        "a\nb\n\n[truncated after 2 lines \u{2014} 1 more lines elided; re-run with a narrower invocation or pipe through `tail`/`grep` to see trailing output]"
    );
    assert_eq!(cap_output("a\nb".to_string(), 2, "a\nb", 2), "a\nb");
}

#[test]
fn hints_end_the_result() {
    let hints = vec![Some("mask".to_string()), None, Some("net".to_string())];
    assert_eq!(append_hints("out".to_string(), &hints), "out\nmask\nnet");
}

#[test]
fn network_hint_needs_a_failure_in_a_sandbox() {
    let sandboxed = Sandbox::new(true, "/w".to_string());
    let open = Sandbox::new(false, "/w".to_string());
    let hint = |e: &str| if e.contains("resolve") { Some("no network".to_string()) } else { None };
    assert_eq!(network_hint_for_exit(6, "could not resolve host", &sandboxed, hint), Some("no network".to_string()));
    assert_eq!(network_hint_for_exit(0, "could not resolve host", &sandboxed, hint), None);
    assert_eq!(network_hint_for_exit(6, "could not resolve host", &open, hint), None);
}

#[test]
fn description_mentions_the_network_only_when_cut() {
    let t: BashTool<(), ()> = BashTool::new(None, None, Sandbox::new(true, "/w".to_string()), None);
    let d = t.description();
    assert!(d.starts_with("Execute a bash command in the current working directory. Returns stdout and stderr. This session's sandbox runs commands without network access"));
    let u: BashTool<(), ()> = BashTool::new(None, None, Sandbox::new(false, "/w".to_string()), Some(5));
    assert_eq!(u.description(), "Execute a bash command in the current working directory. Returns stdout and stderr.");
    assert_eq!(u.max_output_lines, Some(5));
}

#[test]
fn sandbox_command_lines() {
    let plain = Sandbox::new(false, "/work".to_string()).with_shell("zsh");
    assert_eq!(plain.command_line("echo hi"), vec!["zsh", "-c", "echo hi"]);
    let boxed = Sandbox::new(true, "/work".to_string()).with_shell("");
    assert_eq!(boxed.shell, "bash");
    assert_eq!(
        boxed.command_line("ls"),
        vec![
            "bwrap", "--ro-bind", "/", "/", "--bind", "/work", "/work", "--proc", "/proc", "--dev",
            "/dev", "--tmpfs", "/tmp", "--unshare-all", "--die-with-parent", "bash", "-c", "ls",
        ]
    );
    assert!(boxed.network_unshared());
    assert!(!plain.network_unshared());
}

#[test]
fn bash_result_caps_then_coaches_then_hints() {
    let r = zerostack::bash::bash_result(
        "a\nb\nc",
        "",
        2,
        Some(1),
        Some("note"),
        &[None, Some("hint".to_string())],
    );
    assert!(r.starts_with("note\n\na\n\n[truncated after 1 lines"));
    assert!(r.contains("3 more lines elided"));
    assert!(r.ends_with("\nhint"));
    let plain = zerostack::bash::bash_result("out", "err", 0, None, None, &[]);
    assert_eq!(plain, "out\nerr");
    let short = zerostack::bash::bash_result("x\ny", "", 0, Some(2), None, &[]);
    assert_eq!(short, "x\ny");
}

#[test]
fn head_lines_counts_lines_as_str_lines() {
    let (head, total) = zerostack::bash::head_lines("a\r\nb\nc\n", 2);
    assert_eq!(head, "a\nb");
    assert_eq!(total, 3);
    assert_eq!(zerostack::bash::head_lines("", 3), (String::new(), 0));
}

#[test]
fn bash_call_refuses_before_asking() {
    let mut call = BashCall::new("ls; pwd", false);
    match call.step(BashEvent::Begin { refusal: Some("no sandbox".to_string()) }) {
        BashAction::Fail(m) => assert_eq!(m, "no sandbox"),
        other => panic!("unexpected {other:?}"),
    }
}

#[test]
fn bash_call_checks_each_command_then_rewrites() {
    let mut call = BashCall::new("ls; pwd", true);
    assert!(matches!(call.step(BashEvent::Begin { refusal: None }), BashAction::Check(c) if c == "ls"));
    assert!(matches!(call.step(BashEvent::Checked(Ok(Some("careful".to_string())))), BashAction::Check(c) if c == "pwd"));
    assert!(matches!(call.step(BashEvent::Checked(Ok(None))), BashAction::Rewrite(c) if c == "ls; pwd"));
    assert_eq!(call.coaching.as_deref(), Some("careful"));
    assert!(matches!(call.step(BashEvent::Rewritten(Some("rtk ls".to_string()))), BashAction::Run(c) if c == "rtk ls"));
    let mut denied = BashCall::new("rm x", false);
    denied.step(BashEvent::Begin { refusal: None });
    assert!(matches!(denied.step(BashEvent::Checked(Err("denied".to_string()))), BashAction::Fail(m) if m == "denied"));
}
