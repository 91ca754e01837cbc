use zerostack::prompts::{ensure_global, global_dir, load, source_of, zerostack_dir, PromptSource};

fn files(list: &[(&str, &str)]) -> Vec<(String, String)> {
    list.iter().map(|(n, c)| (n.to_string(), c.to_string())).collect()
}

fn embedded() -> Vec<(String, String)> {
    files(&[
        ("code.md", "stock code prompt"),
        ("ask.md", "stock ask prompt"),
        ("default.md", "stock default prompt"),
        ("README.txt", "not a prompt"),
    ])
}

fn get<'a>(prompts: &'a [(String, String)], name: &str) -> Option<&'a str> {
    prompts.iter().find(|(n, _)| n == name).map(|(_, c)| c.as_str())
}

#[test]
fn test_zerostack_prompts_are_loaded() {
    let local = files(&[("myproject.md", "# My Project Prompt")]);
    let prompts = load(&embedded(), &[], &[], &local);
    assert!(get(&prompts, "myproject").is_some());
    assert_eq!(get(&prompts, "myproject"), Some("# My Project Prompt"));
}

#[test]
fn test_zerostack_overrides_prompts_dir() {
    let project = files(&[("code.md", "from prompts/")]);
    let local = files(&[("code.md", "from .zerostack/prompts/")]);
    let prompts = load(&embedded(), &[], &project, &local);
    assert_eq!(get(&prompts, "code"), Some("from .zerostack/prompts/"));
}

#[test]
fn test_zerostack_overrides_global() {
    let global = files(&[("code.md", "from global/")]);
    let local = files(&[("code.md", "from .zerostack/")]);
    let prompts = load(&embedded(), &global, &[], &local);
    assert_eq!(get(&prompts, "code"), Some("from .zerostack/"));
}

#[test]
fn test_zerostack_overrides_embedded() {
    let local = files(&[("code.md", "from .zerostack/")]);
    let prompts = load(&embedded(), &[], &[], &local);
    assert_eq!(get(&prompts, "code"), Some("from .zerostack/"));
}

#[test]
fn test_prompts_dir_overrides_global() {
    let global = files(&[("custom.md", "from global/")]);
    let project = files(&[("custom.md", "from prompts/")]);
    let prompts = load(&embedded(), &global, &project, &[]);
    assert_eq!(get(&prompts, "custom"), Some("from prompts/"));
}

#[test]
fn test_full_priority_chain() {
    let global = files(&[("code.md", "from global/")]);
    let project = files(&[("custom.md", "from prompts/")]);
    let local = files(&[("custom.md", "from .zerostack/"), ("code.md", "from .zerostack/code")]);
    let prompts = load(&embedded(), &global, &project, &local);
    assert_eq!(get(&prompts, "code"), Some("from .zerostack/code"));
    assert_eq!(get(&prompts, "custom"), Some("from .zerostack/"));
    assert!(get(&prompts, "ask").is_some());
}

#[test]
fn test_zerostack_dir_missing_is_ok() {
    let prompts = load(&embedded(), &[], &[], &[]);
    assert!(get(&prompts, "code").is_some());
    assert!(get(&prompts, "ask").is_some());
    assert!(get(&prompts, "default").is_some());
    assert!(get(&prompts, "README").is_none());
}

#[test]
fn test_source_of_built_in_prompt() {
    let prompts = load(&embedded(), &[], &[], &[]);
    assert!(get(&prompts, "code").is_some());
    assert_eq!(source_of(None, None, None, Some("stock code prompt")), PromptSource::BuiltIn);
}

#[test]
fn test_source_of_user_file_shadowing_a_built_in_name() {
    let local = files(&[("code.md", "from .zerostack/")]);
    let prompts = load(&embedded(), &[], &[], &local);
    assert_eq!(get(&prompts, "code"), Some("from .zerostack/"));
    assert_eq!(
        source_of(Some("from .zerostack/"), None, None, Some("stock code prompt")),
        PromptSource::UserFile
    );
}

#[test]
fn test_source_of_user_only_prompt() {
    let local = files(&[("myproject.md", "# My Project Prompt")]);
    let prompts = load(&embedded(), &[], &[], &local);
    assert!(get(&prompts, "myproject").is_some());
    assert_eq!(source_of(Some("# My Project Prompt"), None, None, None), PromptSource::UserFile);
}

#[test]
fn test_source_of_built_in_survives_ensure_global() {
    let dir = global_dir("/data");
    let writes = ensure_global(&embedded(), &dir, false);
    assert!(
        writes.iter().any(|(p, _)| p == "/data/prompts/code.md"),
        "ensure_global should have seeded the global prompts dir"
    );
    let seeded = writes.iter().find(|(p, _)| p == "/data/prompts/code.md").unwrap().1.clone();
    assert_eq!(source_of(None, None, Some(&seeded), Some("stock code prompt")), PromptSource::BuiltIn);
}

#[test]
fn test_source_of_edited_global_copy() {
    let global = files(&[("code.md", "edited in place")]);
    let prompts = load(&embedded(), &global, &[], &[]);
    assert_eq!(get(&prompts, "code"), Some("edited in place"));
    assert_eq!(
        source_of(None, None, Some("edited in place"), Some("stock code prompt")),
        PromptSource::UserFile
    );
}

#[test]
fn test_source_of_reads_highest_precedence_copy() {
    let built_in = get(&load(&embedded(), &[], &[], &[]), "code").unwrap().to_string();
    let global = files(&[("code.md", "edited in place")]);
    let local = vec![("code.md".to_string(), built_in.clone())];
    let prompts = load(&embedded(), &global, &[], &local);
    assert_eq!(get(&prompts, "code"), Some(built_in.as_str()));
    assert_eq!(
        source_of(Some(&built_in), None, Some("edited in place"), Some("stock code prompt")),
        PromptSource::BuiltIn
    );
}

#[test]
fn ensure_global_writes_nothing_when_the_directory_exists() {
    assert!(ensure_global(&embedded(), "/data/prompts", true).is_empty());
}

#[test]
fn prompt_directories_are_named() {
    assert_eq!(global_dir("/home/u/.local/share/zerostack"), "/home/u/.local/share/zerostack/prompts");
    assert_eq!(zerostack_dir(), ".zerostack/prompts");
}
