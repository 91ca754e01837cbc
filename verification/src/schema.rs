//! JSON Schemas of the tools' arguments, as the model is shown them: an
//! object whose properties each have a type and a description, and the
//! names of those it must give.

use vstd::prelude::*;

use crate::json::{Json, SpecJson};

verus! {

/// What a tool tells the model of itself: its name, a description and the
/// schema of its arguments.
pub struct ToolSpec {
    pub name: String,
    pub description: String,
    pub parameters: Json,
}

/// The schema of one property: `{"type": ty, "description": desc}`.
pub open spec fn spec_property(ty: Seq<char>, desc: Seq<char>) -> SpecJson {
    SpecJson::Object(seq![("type"@, SpecJson::Str(ty)), ("description"@, SpecJson::Str(desc))])
}

/// An object schema with the given properties and, when given, the names
/// that are required.
pub open spec fn spec_object_schema(
    props: Seq<(Seq<char>, SpecJson)>,
    required: Option<Seq<Seq<char>>>,
) -> SpecJson {
    let head = seq![("type"@, SpecJson::Str("object"@)), ("properties"@, SpecJson::Object(props))];
    match required {
        Some(names) => SpecJson::Object(
            head.push(("required"@, SpecJson::Array(names.map_values(|n: Seq<char>| SpecJson::Str(n))))),
        ),
        None => SpecJson::Object(head),
    }
}

/// A JSON string.
fn json_str(s: &str) -> (r: Json)
    ensures
        r@ == SpecJson::Str(s@),
{
    Json::Str(String::from_str(s))
}

/// An object of two fields.
fn object2(k1: &str, v1: Json, k2: &str, v2: Json) -> (r: Json)
    ensures
        r@ == SpecJson::Object(seq![(k1@, v1@), (k2@, v2@)]),
{
    let ghost (s1, s2) = (v1@, v2@);
    let fields = vec![(String::from_str(k1), v1), (String::from_str(k2), v2)];
    proof {
        crate::json::lemma_fields_view_ext(fields@, seq![(k1@, s1), (k2@, s2)]);
    }
    Json::Object(fields)
}

/// An object of three fields.
fn object3(k1: &str, v1: Json, k2: &str, v2: Json, k3: &str, v3: Json) -> (r: Json)
    ensures
        r@ == SpecJson::Object(seq![(k1@, v1@), (k2@, v2@), (k3@, v3@)]),
{
    let ghost (s1, s2, s3) = (v1@, v2@, v3@);
    let fields = vec![(String::from_str(k1), v1), (String::from_str(k2), v2), (String::from_str(k3), v3)];
    proof {
        crate::json::lemma_fields_view_ext(fields@, seq![(k1@, s1), (k2@, s2), (k3@, s3)]);
    }
    Json::Object(fields)
}

/// The schema of one property.
fn property(ty: &str, desc: &str) -> (r: Json)
    ensures
        r@ == spec_property(ty@, desc@),
{
    object2("type", json_str(ty), "description", json_str(desc))
}

/// A JSON array of strings.
fn string_array(names: &[&str]) -> (r: Json)
    ensures
        r@ == SpecJson::Array(names@.map_values(|n: &str| SpecJson::Str(n@))),
{
    let mut items: Vec<Json> = Vec::new();
    let mut i: usize = 0;
    while i < names.len()
        invariant
            i <= names.len(),
            items@.len() == i,
            crate::json::items_view(items@, i as int) =~= names@.take(i as int).map_values(
                |n: &str| SpecJson::Str(n@),
            ),
        decreases names.len() - i,
    {
        let ghost before = items@;
        items.push(json_str(names[i]));
        proof {
            lemma_items_view_push(before, items@);
            assert(names@.take(i + 1) =~= names@.take(i as int).push(names@[i as int]));
        }
        i = i + 1;
    }
    proof {
        assert(names@.take(i as int) =~= names@);
    }
    Json::Array(items)
}

/// Pushing an item extends the items' mathematical forms by its form.
pub(crate) proof fn lemma_items_view_push(before: Seq<Json>, after: Seq<Json>)
    requires
        after.len() == before.len() + 1,
        forall|j: int| 0 <= j < before.len() ==> after[j] == before[j],
    ensures
        crate::json::items_view(after, after.len() as int) == crate::json::items_view(
            before,
            before.len() as int,
        ).push(crate::json::json_view(after[before.len() as int])),
{
    lemma_items_view_prefix(before, after, before.len() as int);
}

/// Sequences that agree on their first `n` items have the same forms of them.
proof fn lemma_items_view_prefix(a: Seq<Json>, b: Seq<Json>, n: int)
    requires
        0 <= n <= a.len(),
        n <= b.len(),
        forall|j: int| 0 <= j < n ==> a[j] == b[j],
    ensures
        crate::json::items_view(a, n) == crate::json::items_view(b, n),
    decreases n,
{
    if n > 0 {
        lemma_items_view_prefix(a, b, n - 1);
    }
}

/// The arguments of the `bash` tool: a required `command` and an optional
/// `timeout` in milliseconds.
pub open spec fn bash_parameters_schema() -> SpecJson {
    spec_object_schema(
        seq![
            ("command"@, spec_property("string"@, "Bash command to execute"@)),
            ("timeout"@, spec_property("integer"@, "Timeout in milliseconds (optional)"@)),
        ],
        Some(seq!["command"@]),
    )
}

/// The arguments of the `write` tool: a required `path` and `content`.
pub open spec fn write_parameters_schema() -> SpecJson {
    spec_object_schema(
        seq![
            ("path"@, spec_property("string"@, "Path to the file (relative or absolute)"@)),
            ("content"@, spec_property("string"@, "Content to write to the file"@)),
        ],
        Some(seq!["path"@, "content"@]),
    )
}

/// The arguments of the `lsp_diagnostics` tool: an optional `path`.
pub open spec fn lsp_parameters_schema() -> SpecJson {
    spec_object_schema(
        seq![("path"@, spec_property("string"@, "File to inspect (optional; omit for all files)"@))],
        None,
    )
}

/// What the `path` argument of the `edit` tool is.
pub open spec fn edit_path_text() -> Seq<char> {
    "Path to the file (relative or absolute)"@
}

/// What the `block` argument of the `edit` tool is.
pub open spec fn edit_block_text() -> Seq<char> {
    "One or more SEARCH/REPLACE blocks:\n<<<<<<< SEARCH\nexisting code to find\n=======\nreplacement code\n>>>>>>> REPLACE\n\nInclude multiple blocks for separate edits to the same file."@
}

/// The arguments of the `edit` tool: a required `path` and `block`.
pub open spec fn edit_parameters_schema() -> SpecJson {
    spec_object_schema(
        seq![
            ("path"@, spec_property("string"@, edit_path_text())),
            ("block"@, spec_property("string"@, edit_block_text())),
        ],
        Some(seq!["path"@, "block"@]),
    )
}

/// The schema of an object with two properties.
fn schema2(
    n1: &str,
    t1: &str,
    d1: &str,
    n2: &str,
    t2: &str,
    d2: &str,
    required: &[&str],
) -> (r: Json)
    ensures
        r@ == spec_object_schema(
            seq![(n1@, spec_property(t1@, d1@)), (n2@, spec_property(t2@, d2@))],
            Some(required@.map_values(|n: &str| n@)),
        ),
{
    let props = object2(n1, property(t1, d1), n2, property(t2, d2));
    let ghost props_view = props@;
    let req = string_array(required);
    let ghost req_view = req@;
    let r = object3("type", json_str("object"), "properties", props, "required", req);
    proof {
        let names = required@.map_values(|n: &str| n@);
        let items = names.map_values(|n: Seq<char>| SpecJson::Str(n));
        assert(items =~= required@.map_values(|n: &str| SpecJson::Str(n@)));
        let head = seq![("type"@, SpecJson::Str("object"@)), ("properties"@, props_view)];
        assert(head.push(("required"@, SpecJson::Array(items))) =~= seq![
            ("type"@, SpecJson::Str("object"@)),
            ("properties"@, props_view),
            ("required"@, req_view),
        ]);
    }
    r
}

/// The `bash` tool's argument schema.
pub(crate) fn bash_parameters() -> (r: Json)
    ensures
        r@ == bash_parameters_schema(),
{
    let required = ["command"];
    let r = schema2(
        "command",
        "string",
        "Bash command to execute",
        "timeout",
        "integer",
        "Timeout in milliseconds (optional)",
        &required,
    );
    proof {
        assert(required@.map_values(|n: &str| n@) =~= seq!["command"@]);
    }
    r
}

/// The `write` tool's argument schema.
pub(crate) fn write_parameters() -> (r: Json)
    ensures
        r@ == write_parameters_schema(),
{
    let required = ["path", "content"];
    let r = schema2(
        "path",
        "string",
        "Path to the file (relative or absolute)",
        "content",
        "string",
        "Content to write to the file",
        &required,
    );
    proof {
        assert(required@.map_values(|n: &str| n@) =~= seq!["path"@, "content"@]);
    }
    r
}

/// The `edit` tool's argument schema.
pub(crate) fn edit_parameters() -> (r: Json)
    ensures
        r@ == edit_parameters_schema(),
{
    let required = ["path", "block"];
    let r = schema2(
        "path",
        "string",
        "Path to the file (relative or absolute)",
        "block",
        "string",
        "One or more SEARCH/REPLACE blocks:\n<<<<<<< SEARCH\nexisting code to find\n=======\nreplacement code\n>>>>>>> REPLACE\n\nInclude multiple blocks for separate edits to the same file.",
        &required,
    );
    proof {
        assert(required@.map_values(|n: &str| n@) =~= seq!["path"@, "block"@]);
    }
    r
}

/// What the `lsp_diagnostics` tool says of itself.
pub open spec fn lsp_description_text() -> Seq<char> {
    "Get language-server diagnostics (errors/warnings). With `path`: diagnostics for that file, synced from disk first. Without: every file that currently has diagnostics."@
}

/// The `lsp_diagnostics` tool's description.
pub fn lsp_description() -> (r: String)
    ensures
        r@ == lsp_description_text(),
{
    String::from_str(
        "Get language-server diagnostics (errors/warnings). With `path`: diagnostics for that file, synced from disk first. Without: every file that currently has diagnostics.",
    )
}

/// The `lsp_diagnostics` tool's argument schema.
pub fn lsp_parameters() -> (r: Json)
    ensures
        r@ == lsp_parameters_schema(),
{
    let prop = property("string", "File to inspect (optional; omit for all files)");
    let ghost p = prop@;
    let fields = vec![(String::from_str("path"), prop)];
    proof {
        crate::json::lemma_fields_view_ext(fields@, seq![("path"@, p)]);
    }
    let props = Json::Object(fields);
    object2("type", json_str("object"), "properties", props)
}

} // verus!
