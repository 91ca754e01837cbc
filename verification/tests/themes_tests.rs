use zerostack::themes::{ensure_global, load};

fn files(items: &[(&str, &str)]) -> Vec<(String, String)> {
    items.iter().map(|(n, c)| (n.to_string(), c.to_string())).collect()
}

fn lookup<'a>(themes: &'a [(String, String)], name: &str) -> Option<&'a str> {
    themes.iter().find(|(n, _)| n == name).map(|(_, c)| c.as_str())
}

#[test]
fn theme_project_overrides_global_and_default() {
    let embedded = files(&[("dark.json", "d0"), ("light.json", "l0"), ("notes.txt", "x")]);
    let global = files(&[("dark.json", "d1"), ("solar.json", "s1")]);
    let project = files(&[("dark.json", "d2")]);
    let themes = load(&embedded, &global, &project);
    assert_eq!(lookup(&themes, "dark"), Some("d2"));
    assert_eq!(lookup(&themes, "light"), Some("l0"));
    assert_eq!(lookup(&themes, "solar"), Some("s1"));
    assert_eq!(lookup(&themes, "notes"), None);
    assert_eq!(themes.len(), 3);
}

#[test]
fn theme_global_seeded_only_when_missing() {
    let embedded = files(&[("dark.json", "d0")]);
    assert!(ensure_global(&embedded, "/data/themes", true).is_empty());
    let writes = ensure_global(&embedded, "/data/themes", false);
    assert_eq!(writes.len(), 1);
    assert_eq!(writes[0].1, "d0");
    assert!(writes[0].0.ends_with("dark.json"));
}
