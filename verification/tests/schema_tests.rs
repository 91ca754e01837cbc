use zerostack::bash::BashTool;
use zerostack::edit::EditTool;
use zerostack::json::Json;
use zerostack::sandbox::Sandbox;
use zerostack::schema::{lsp_description, lsp_parameters};
use zerostack::tools::WriteTool;

fn field<'a>(j: &'a Json, key: &str) -> Option<&'a Json> {
    match j {
        Json::Object(fields) => fields.iter().find(|(k, _)| k == key).map(|(_, v)| v),
        _ => None,
    }
}

fn text(j: Option<&Json>) -> Option<&str> {
    match j {
        Some(Json::Str(s)) => Some(s.as_str()),
        _ => None,
    }
}

fn required(j: &Json) -> Option<Vec<String>> {
    match field(j, "required") {
        Some(Json::Array(items)) => Some(
            items
                .iter()
                .map(|i| match i {
                    Json::Str(s) => s.clone(),
                    _ => panic!("non-string in required"),
                })
                .collect(),
        ),
        _ => None,
    }
}

fn prop_type<'a>(schema: &'a Json, name: &str) -> Option<&'a str> {
    text(field(field(field(schema, "properties")?, name)?, "type"))
}

#[test]
fn bash_schema_requires_command() {
    let t: BashTool<(), ()> = BashTool::new(None, None, Sandbox::new(false, "/w".to_string()), None);
    let p = t.parameters();
    assert_eq!(text(field(&p, "type")), Some("object"));
    assert_eq!(prop_type(&p, "command"), Some("string"));
    assert_eq!(prop_type(&p, "timeout"), Some("integer"));
    assert_eq!(required(&p), Some(vec!["command".to_string()]));
}

#[test]
fn write_schema_requires_path_and_content() {
    let t: WriteTool<(), (), ()> = WriteTool::new(None, None, None);
    let p = t.parameters();
    assert_eq!(prop_type(&p, "path"), Some("string"));
    assert_eq!(prop_type(&p, "content"), Some("string"));
    assert_eq!(required(&p), Some(vec!["path".to_string(), "content".to_string()]));
    assert!(t.description().starts_with("Create a new file with the given content."));
}

#[test]
fn edit_definition_names_the_tool() {
    let t: EditTool<(), ()> = EditTool::new(None, None);
    let d = t.definition();
    assert_eq!(d.name, "edit");
    assert!(d.description.contains("SEARCH/REPLACE"));
    assert_eq!(required(&d.parameters), Some(vec!["path".to_string(), "block".to_string()]));
    let block_desc = text(field(field(field(&d.parameters, "properties").unwrap(), "block").unwrap(), "description"));
    assert!(block_desc.unwrap().starts_with("One or more SEARCH/REPLACE blocks:\n<<<<<<< SEARCH"));
}

#[test]
fn lsp_schema_has_optional_path() {
    let p = lsp_parameters();
    assert_eq!(prop_type(&p, "path"), Some("string"));
    assert_eq!(required(&p), None);
    assert!(lsp_description().starts_with("Get language-server diagnostics"));
}
