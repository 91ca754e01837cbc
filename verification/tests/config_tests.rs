use zerostack::config::{
    config_file_path, default_statusline, pick_existing, AdvisorConfig, ChainConfig, EditSystem,
    SchemeType, startup_plan, StartupPlan,
};
use zerostack::json_text::{merge_config_override, parse_json_text};
use zerostack::json::{deep_merge_json, unknown_keys, Json};

fn obj(fields: Vec<(&str, Json)>) -> Json {
    Json::Object(fields.into_iter().map(|(k, v)| (k.to_string(), v)).collect())
}

fn s(v: &str) -> Json {
    Json::Str(v.to_string())
}

fn render(j: &Json) -> String {
    match j {
        Json::Null => "null".to_string(),
        Json::Bool(b) => b.to_string(),
        Json::Number(n) => n.clone(),
        Json::Str(t) => format!("{t:?}"),
        Json::Array(a) => format!("[{}]", a.iter().map(render).collect::<Vec<_>>().join(",")),
        Json::Object(o) => format!(
            "{{{}}}",
            o.iter().map(|(k, v)| format!("{k:?}:{}", render(v))).collect::<Vec<_>>().join(",")
        ),
    }
}

#[test]
fn edit_system_names() {
    assert_eq!(EditSystem::parse("hashedit"), Ok(EditSystem::Hashedit));
    assert_eq!("similarity".parse::<EditSystem>(), Ok(EditSystem::Similarity));
    assert_eq!(
        EditSystem::parse("fuzzy"),
        Err("unknown edit system 'fuzzy' (valid: similarity, hashedit)".to_string())
    );
    assert_eq!(EditSystem::Hashedit.as_str(), "hashedit");
    assert_eq!(EditSystem::default(), EditSystem::Similarity);
    assert_eq!(SchemeType::default(), SchemeType::Full);
}

#[test]
fn chain_and_advisor_defaults() {
    let c = ChainConfig::default();
    assert!(c.brainstorm_to_plan && c.plan_to_code && !c.code_to_review);
    let a = AdvisorConfig::default();
    assert!(!a.enabled);
    assert_eq!(a.model.as_deref(), Some("deepseek-v4-pro"));
    assert_eq!(a.max_uses, Some(3));
    assert!(a.human_handoff);
    assert_eq!(a.advisor_kilobytes_limit, 256);
}

#[test]
fn default_statusline_layout() {
    let sl = default_statusline();
    assert_eq!(sl.lines.len(), 1);
    let segs = &sl.lines[0].segments;
    assert_eq!(segs.len(), 25);
    assert_eq!(segs[0].item, "cwd");
    assert_eq!(segs[0].color.as_deref(), Some("grey"));
    assert_eq!(segs[2].item, "git_branch");
    assert_eq!(segs[2].left.as_deref(), Some("("));
    assert_eq!(segs[2].right.as_deref(), Some(")"));
    assert_eq!(segs[11].text.as_deref(), Some("  \u{21d1}"));
    assert_eq!(segs[15].item, "flex_separator");
    assert!(segs[15].color.is_none() && segs[15].text.is_none());
    assert_eq!(segs[24].item, "prompt");
}

#[test]
fn config_file_choice() {
    let existing = vec!["/cfg/zerostack/config.yaml".to_string()];
    assert_eq!(pick_existing("/cfg/zerostack", &existing), "/cfg/zerostack/config.yaml");
    assert_eq!(pick_existing("/other", &existing), "/other/config.toml");
    assert_eq!(
        config_file_path(None, Some("/home/u"), Some("/cfg"), "/data", &existing),
        "/cfg/zerostack/config.yaml"
    );
    assert_eq!(config_file_path(None, Some("/home/u"), Some("/none"), "/data", &existing), "/data/config.toml");
    assert_eq!(
        config_file_path(Some("~/conf"), Some("/home/u"), Some("/cfg"), "/data", &existing),
        "/home/u/conf/config.toml"
    );
}

#[test]
fn local_override_merges_tables_and_replaces_scalars() {
    let mut base = obj(vec![
        ("model", s("a")),
        ("quick_models", obj(vec![("x", s("1")), ("y", s("2"))])),
        ("tags", Json::Array(vec![s("t")])),
    ]);
    let over = obj(vec![
        ("quick_models", obj(vec![("y", s("3")), ("z", s("4"))])),
        ("tags", Json::Array(vec![])),
        ("yolo", Json::Bool(true)),
    ]);
    deep_merge_json(&mut base, over);
    assert_eq!(
        render(&base),
        r#"{"model":"a","quick_models":{"x":"1","y":"3","z":"4"},"tags":[],"yolo":true}"#
    );
}

#[test]
fn non_object_override_replaces_everything() {
    let mut base = obj(vec![("a", s("1"))]);
    deep_merge_json(&mut base, Json::Number("5".to_string()));
    assert_eq!(render(&base), "5");
}

#[test]
fn unknown_top_level_keys() {
    let file = obj(vec![("model", s("m")), ("modle", s("typo")), ("lsp", obj(vec![]))]);
    let known = obj(vec![("model", s("m")), ("provider", s("p"))]);
    assert_eq!(unknown_keys(&file, &known), vec!["modle", "lsp"]);
    assert!(unknown_keys(&Json::Null, &known).is_empty());
}

#[test]
fn first_start_defaults() {
    let c = zerostack::config::rich_default_config();
    assert_eq!(c.provider.as_deref(), Some("openrouter"));
    assert_eq!(c.model.as_deref(), Some("deepseek-v4-pro"));
    assert_eq!(c.max_tokens, Some(16384));
    assert_eq!(c.compact_enabled, Some(false));
    assert_eq!(c.max_text_file_size, Some(1_048_576));
    assert_eq!(c.edit_system, Some(zerostack::config::EditSystem::Similarity));
    assert_eq!(c.default_permission_mode.as_deref(), Some("standard"));
    assert_eq!(c.default_prompt.as_deref(), Some("code"));
    assert_eq!(c.statusline.unwrap().lines[0].segments.len(), 25);
    assert!(!c.advisor.unwrap().enabled);
}

#[test]
fn startup_plan_by_extension() {
    assert_eq!(startup_plan("/c/config.toml", false), StartupPlan::FirstStart { write_defaults: true });
    assert_eq!(startup_plan("/c/config.yaml", false), StartupPlan::FirstStart { write_defaults: false });
    assert_eq!(startup_plan("/c/config.toml", true), StartupPlan::ReadToml);
    assert_eq!(startup_plan("/c/config.json", true), StartupPlan::ReadYaml);
}

#[test]
fn json_text_reads_compact_serde_json_output() {

    let j = parse_json_text("{\"a\":[1,true,null],\"b\":{\"c\":\"x\\\"y\\n\\u0001\"},\"d\":-2.5e3}").unwrap();
    match j {
        Json::Object(fields) => {
            assert_eq!(fields.len(), 3);
            assert_eq!(fields[0].0, "a");
            assert!(matches!(&fields[0].1, Json::Array(items) if items.len() == 3));
            match &fields[1].1 {
                Json::Object(inner) => assert!(matches!(&inner[0].1, Json::Str(s) if s == "x\"y\n\u{1}")),
                other => panic!("unexpected {other:?}"),
            }
            assert!(matches!(&fields[2].1, Json::Number(n) if n == "-2.5e3"));
        },
        other => panic!("unexpected {other:?}"),
    }
    assert!(parse_json_text("[1,]").is_none());
    assert!(parse_json_text("{}x").is_none());
    assert!(matches!(parse_json_text("[]"), Some(Json::Array(v)) if v.is_empty()));
}

#[test]
fn local_toml_overrides_merge_per_key() {

    let base = Json::Object(vec![
        ("model".to_string(), Json::Str("m1".to_string())),
        ("chain".to_string(), Json::Object(vec![("plan-to-code".to_string(), Json::Bool(true))])),
    ]);
    let merged = merge_config_override(base, "model = \"m2\"\n[chain]\ncode-to-review = true\n").unwrap();
    match merged {
        Json::Object(fields) => {
            assert!(matches!(&fields[0].1, Json::Str(s) if s == "m2"));
            match &fields[1].1 {
                Json::Object(chain) => assert_eq!(chain.len(), 2),
                other => panic!("unexpected {other:?}"),
            }
        },
        other => panic!("unexpected {other:?}"),
    }
    assert!(merge_config_override(Json::Null, "= broken").is_err());
}
