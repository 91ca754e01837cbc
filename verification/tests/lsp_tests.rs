use zerostack::config::LspServerConfig;
use zerostack::lsp::{
    all_diagnostics_block, builtin_servers, display_name_exec, format_diag_line, format_file_diags,
    handles, path_dot_ext_exec, resolve_servers, server_for_path, Diagnostic, FileDiagnostics,
};

fn diag(severity: Option<i32>, line: u32, character: u32, message: &str) -> Diagnostic {
    Diagnostic { severity, line, character, message: message.to_string() }
}

fn user(command: &str, exts: &[&str], disabled: bool) -> LspServerConfig {
    LspServerConfig {
        command: command.to_string(),
        args: vec![],
        extensions: exts.iter().map(|e| e.to_string()).collect(),
        env: vec![],
        initialization: None,
        disabled,
    }
}

#[test]
fn builtins_cover_common_languages() {
    let b = builtin_servers();
    let names: Vec<&str> = b.iter().map(|(n, _)| n.as_str()).collect();
    assert_eq!(names, vec!["rust", "go", "typescript", "python", "clangd", "bash", "lua"]);
    let ts = &b[2].1;
    assert_eq!(ts.command, "typescript-language-server");
    assert_eq!(ts.args, vec!["--stdio"]);
    assert_eq!(ts.extensions.len(), 8);
}

#[test]
fn user_entries_replace_remove_and_add() {
    let resolved = resolve_servers(vec![
        ("rust".to_string(), user("my-ra", &[".rs"], false)),
        ("go".to_string(), user("gopls", &[".go"], true)),
        ("lua".to_string(), user("", &[], false)),
        ("zig".to_string(), user("zls", &[".zig"], false)),
    ]);
    let get = |n: &str| resolved.iter().find(|(k, _)| k == n).map(|(_, c)| c);
    assert_eq!(get("rust").unwrap().command, "my-ra");
    assert!(get("go").is_none());
    assert!(get("lua").is_none());
    assert_eq!(get("zig").unwrap().command, "zls");
    assert_eq!(get("python").unwrap().command, "pyright-langserver");
    assert_eq!(resolved.len(), 6);
}

#[test]
fn servers_are_chosen_by_extension() {
    let servers = builtin_servers();
    assert_eq!(server_for_path(&servers, "src/main.RS").unwrap().0, "rust");
    assert_eq!(server_for_path(&servers, "/x/app.tsx").unwrap().0, "typescript");
    assert!(server_for_path(&servers, "Makefile").is_none());
    assert!(server_for_path(&servers, ".bashrc").is_none());
    assert!(handles(&servers, "a/b/c.py"));
    assert_eq!(path_dot_ext_exec("dir/x.tar.GZ"), Some(".gz".to_string()));
    assert_eq!(path_dot_ext_exec("dir/x/"), None);
    assert_eq!(path_dot_ext_exec("a/b.rs/."), Some(".rs".to_string()));
    assert_eq!(path_dot_ext_exec("a/.."), None);
}

#[test]
fn one_diagnostic_line() {
    assert_eq!(format_diag_line("", &diag(Some(1), 0, 4, "bad\nmore")), "\n  1:5 error: bad");
    assert_eq!(format_diag_line("src/a.rs", &diag(Some(2), 9, 0, "w")), "\n  src/a.rs:10:1 warning: w");
    assert_eq!(format_diag_line("", &diag(None, 0, 0, "")), "\n  1:1 hint: ");
    let long = "x".repeat(250);
    assert_eq!(format_diag_line("", &diag(Some(3), 0, 0, &long)), format!("\n  1:1 info: {}", "x".repeat(200)));
}

#[test]
fn file_report_orders_and_filters() {
    let ds = vec![diag(Some(2), 1, 0, "warn"), diag(Some(4), 2, 0, "hint"), diag(Some(1), 3, 0, "err")];
    assert_eq!(
        format_file_diags("ra", &ds).unwrap(),
        "\n\nLSP diagnostics (ra):\n  4:1 error: err\n  2:1 warning: warn"
    );
    assert!(format_file_diags("ra", &[diag(Some(3), 0, 0, "i")]).is_none());
}

#[test]
fn a_diagnostic_without_severity_is_not_reported() {
    assert!(format_file_diags("s", &[diag(None, 0, 0, "m")]).is_none());
    let entries = vec![FileDiagnostics {
        uri: "file:///p/a.rs".to_string(),
        server: "ra".to_string(),
        diagnostics: vec![diag(None, 0, 0, "m")],
    }];
    assert!(all_diagnostics_block(entries, "/p").is_none());
}

#[test]
fn file_report_is_capped() {
    let ds: Vec<Diagnostic> = (0..25).map(|i| diag(Some(1), i, 0, "e")).collect();
    let r = format_file_diags("s", &ds).unwrap();
    assert!(r.ends_with("\n  \u{2026} (truncated)"));
    assert_eq!(r.matches(" error: ").count(), 20);
}

#[test]
fn whole_report_names_files_under_the_root() {
    let entries = vec![
        FileDiagnostics { uri: "file:///p/src/b.rs".to_string(), server: "ra".to_string(), diagnostics: vec![diag(Some(1), 0, 0, "b")] },
        FileDiagnostics { uri: "file:///p/src/a.rs".to_string(), server: "ra".to_string(), diagnostics: vec![diag(Some(2), 1, 1, "a"), diag(Some(3), 0, 0, "skip")] },
        FileDiagnostics { uri: "untitled:x".to_string(), server: "ra".to_string(), diagnostics: vec![] },
    ];
    assert_eq!(
        all_diagnostics_block(entries, "/p").unwrap(),
        "\n  src/a.rs:2:2 warning: a\n  src/b.rs:1:1 error: b"
    );
    assert!(all_diagnostics_block(vec![], "/p").is_none());
    assert_eq!(display_name_exec("file:///elsewhere/f", "/p"), "file:///elsewhere/f");
}
