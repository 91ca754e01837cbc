//! Configuration types and the rules that resolve them.

use vstd::prelude::*;

verus! {

/// Which chain steps are offered automatically.
#[derive(Debug, Clone, Copy, PartialEq, Eq, Structural)]
pub struct ChainConfig {
    pub brainstorm_to_plan: bool,
    pub plan_to_code: bool,
    pub code_to_review: bool,
}

impl Default for ChainConfig {
    /// Brainstorm → plan and plan → code are offered; code → review is not.
    fn default() -> (r: Self)
        ensures
            r.brainstorm_to_plan,
            r.plan_to_code,
            !r.code_to_review,
    {
        ChainConfig { brainstorm_to_plan: true, plan_to_code: true, code_to_review: false }
    }
}

} // verus!

verus! {

/// The wire protocol of a custom OpenAI-compatible provider.
#[derive(Debug, Clone, Copy, PartialEq, Eq, Structural)]
pub enum ApiStyle {
    Responses,
    Completions,
}

/// How the edit tool locates the text it replaces.
#[derive(Debug, Clone, Copy, PartialEq, Eq, Structural)]
pub enum EditSystem {
    Similarity,
    Hashedit,
}

impl EditSystem {
    /// The configuration name of the edit system.
    pub fn as_str(&self) -> (r: &'static str)
        ensures
            r@ == match self {
                EditSystem::Similarity => "similarity"@,
                EditSystem::Hashedit => "hashedit"@,
            },
    {
        match self {
            EditSystem::Similarity => "similarity",
            EditSystem::Hashedit => "hashedit",
        }
    }

    /// Reads an edit system name: `similarity` or `hashedit`; any other text
    /// is refused with a message naming it and the valid choices.
    pub fn parse(s: &str) -> (r: Result<Self, String>)
        ensures
            s@ == "similarity"@ <==> r == Ok::<Self, String>(EditSystem::Similarity),
            s@ == "hashedit"@ <==> r == Ok::<Self, String>(EditSystem::Hashedit),
            r matches Err(m) ==> m@ == "unknown edit system '"@ + s@
                + "' (valid: similarity, hashedit)"@,
    {
        proof {
            reveal_strlit("similarity");
            reveal_strlit("hashedit");
            assert("similarity"@.len() != "hashedit"@.len());
        }
        if crate::text::str_eq(s, "similarity") {
            Ok(EditSystem::Similarity)
        } else if crate::text::str_eq(s, "hashedit") {
            Ok(EditSystem::Hashedit)
        } else {
            let mut m = String::from_str("unknown edit system '");
            crate::text::push_str(&mut m, s);
            crate::text::push_str(&mut m, "' (valid: similarity, hashedit)");
            Err(m)
        }
    }
}

impl Default for EditSystem {
    /// Similarity matching.
    fn default() -> (r: Self)
        ensures
            r == EditSystem::Similarity,
    {
        EditSystem::Similarity
    }
}

impl std::str::FromStr for EditSystem {
    type Err = String;

    /// Reads an edit system name as [`EditSystem::parse`] does.
    fn from_str(s: &str) -> (r: Result<Self, String>)
        ensures
            s@ == "similarity"@ <==> r == Ok::<Self, String>(EditSystem::Similarity),
            s@ == "hashedit"@ <==> r == Ok::<Self, String>(EditSystem::Hashedit),
            r matches Err(m) ==> m@ == "unknown edit system '"@ + s@
                + "' (valid: similarity, hashedit)"@,
    {
        EditSystem::parse(s)
    }
}

/// How theme colors are rendered.
#[derive(Debug, Clone, Copy, PartialEq, Eq, Structural)]
pub enum SchemeType {
    /// 24-bit colors.
    Full,
    /// The nearest of the 256 ANSI colors.
    Ansi,
}

impl Default for SchemeType {
    /// Full color.
    fn default() -> (r: Self)
        ensures
            r == SchemeType::Full,
    {
        SchemeType::Full
    }
}

/// Colors of a theme.
#[derive(Debug, Clone)]
pub struct ColorsConfig {
    pub chat_background: Option<String>,
    pub input_background: Option<String>,
    pub status_background: Option<String>,
    /// Semantic role to color overrides, e.g. `agent` → `white`.
    pub roles: Option<Vec<(String, String)>>,
    pub scheme_type: SchemeType,
}

/// The configuration file names looked for in a directory, in order of
/// preference.
pub open spec fn config_candidate(i: int) -> Seq<char> {
    if i == 0 {
        "config.toml"@
    } else if i == 1 {
        "config.yaml"@
    } else if i == 2 {
        "config.yml"@
    } else {
        "config.json"@
    }
}

/// The exec form of [`config_candidate`].
fn config_candidate_name(i: usize) -> (r: &'static str)
    requires
        i < 4,
    ensures
        r@ == config_candidate(i as int),
{
    if i == 0 {
        "config.toml"
    } else if i == 1 {
        "config.yaml"
    } else if i == 2 {
        "config.yml"
    } else {
        "config.json"
    }
}

/// `existing` lists `p`.
pub open spec fn listed(existing: Seq<String>, p: Seq<char>) -> bool {
    exists|i: int| 0 <= i < existing.len() && #[trigger] existing[i]@ == p
}

/// Whether `existing` lists `p`.
fn is_listed(existing: &[String], p: &str) -> (r: bool)
    ensures
        r == listed(existing@, p@),
{
    let mut i: usize = 0;
    while i < existing.len()
        invariant
            0 <= i <= existing.len(),
            forall|j: int| 0 <= j < i ==> #[trigger] existing@[j]@ != p@,
        decreases existing.len() - i,
    {
        if crate::text::str_eq(existing[i].as_str(), p) {
            return true;
        }
        i = i + 1;
    }
    false
}

/// The first configuration file of `dir` from `from` on that exists.
pub open spec fn pick_from(dir: Seq<char>, existing: Seq<String>, from: int) -> Seq<char>
    decreases 4 - from,
{
    if from >= 4 || from < 0 {
        crate::fs::spec_join_path(dir, config_candidate(0))
    } else if listed(existing, crate::fs::spec_join_path(dir, config_candidate(from))) {
        crate::fs::spec_join_path(dir, config_candidate(from))
    } else {
        pick_from(dir, existing, from + 1)
    }
}

/// The configuration file of `dir`: the first of `config.toml`,
/// `config.yaml`, `config.yml`, `config.json` that exists, else
/// `config.toml`.
pub open spec fn spec_pick_existing(dir: Seq<char>, existing: Seq<String>) -> Seq<char> {
    pick_from(dir, existing, 0)
}

/// The configuration file is the most preferred candidate that exists: the
/// candidate `k` (in the order `config.toml`, `config.yaml`, `config.yml`,
/// `config.json`) is chosen exactly when it is listed and no earlier one is;
/// when none is listed, `config.toml` is. In particular an existing
/// `config.toml` is always chosen, whatever else exists.
pub proof fn lemma_pick_prefers_earlier(dir: Seq<char>, existing: Seq<String>, k: int)
    requires
        0 <= k < 4,
    ensures
        (listed(existing, crate::fs::spec_join_path(dir, config_candidate(k))) && forall|j: int|
            0 <= j < k ==> !listed(existing, crate::fs::spec_join_path(dir, #[trigger] config_candidate(j))))
            ==> spec_pick_existing(dir, existing) == crate::fs::spec_join_path(dir, config_candidate(k)),
        listed(existing, crate::fs::spec_join_path(dir, "config.toml"@)) ==> spec_pick_existing(dir, existing)
            == crate::fs::spec_join_path(dir, "config.toml"@),
        (forall|j: int| 0 <= j < 4 ==> !listed(existing, crate::fs::spec_join_path(dir, #[trigger] config_candidate(j))))
            ==> spec_pick_existing(dir, existing) == crate::fs::spec_join_path(dir, "config.toml"@),
{
    reveal_with_fuel(pick_from, 5);
    assert(config_candidate(0) == "config.toml"@);
    if listed(existing, crate::fs::spec_join_path(dir, config_candidate(k))) && forall|j: int|
        0 <= j < k ==> !listed(existing, crate::fs::spec_join_path(dir, #[trigger] config_candidate(j))) {
        if k >= 1 {
            assert(!listed(existing, crate::fs::spec_join_path(dir, config_candidate(0))));
        }
        if k >= 2 {
            assert(!listed(existing, crate::fs::spec_join_path(dir, config_candidate(1))));
        }
        if k >= 3 {
            assert(!listed(existing, crate::fs::spec_join_path(dir, config_candidate(2))));
        }
    }
    if forall|j: int| 0 <= j < 4 ==> !listed(existing, crate::fs::spec_join_path(dir, #[trigger] config_candidate(j))) {
        assert(!listed(existing, crate::fs::spec_join_path(dir, config_candidate(0))));
        assert(!listed(existing, crate::fs::spec_join_path(dir, config_candidate(1))));
        assert(!listed(existing, crate::fs::spec_join_path(dir, config_candidate(2))));
        assert(!listed(existing, crate::fs::spec_join_path(dir, config_candidate(3))));
        assert(pick_from(dir, existing, 4) == crate::fs::spec_join_path(dir, config_candidate(0)));
    }
}

/// The paths of the configuration file candidates of `dir`, in order of
/// preference.
pub fn config_candidates(dir: &str) -> (r: Vec<String>)
    ensures
        r@.len() == 4,
        forall|i: int|
            0 <= i < 4 ==> #[trigger] r@[i]@ == crate::fs::spec_join_path(
                dir@,
                config_candidate(i),
            ),
{
    let mut r: Vec<String> = Vec::new();
    let mut i: usize = 0;
    while i < 4
        invariant
            0 <= i <= 4,
            r@.len() == i,
            forall|j: int|
                0 <= j < i ==> #[trigger] r@[j]@ == crate::fs::spec_join_path(
                    dir@,
                    config_candidate(j),
                ),
        decreases 4 - i,
    {
        r.push(crate::fs::join_path(dir, config_candidate_name(i)));
        i = i + 1;
    }
    r
}

/// The configuration file of `dir`, given the paths that exist.
pub fn pick_existing(dir: &str, existing: &[String]) -> (r: String)
    ensures
        r@ == spec_pick_existing(dir@, existing@),
{
    let mut i: usize = 0;
    while i < 4
        invariant
            0 <= i <= 4,
            spec_pick_existing(dir@, existing@) == pick_from(dir@, existing@, i as int),
        decreases 4 - i,
    {
        let p = crate::fs::join_path(dir, config_candidate_name(i));
        if is_listed(existing, p.as_str()) {
            return p;
        }
        i = i + 1;
    }
    crate::fs::join_path(dir, config_candidate_name(0))
}

/// Where the configuration lives: in `$ZS_CONFIG_DIR` (with `~` expanded)
/// when that is set; else in `<config dir>/zerostack` when a file exists
/// there; else in the data directory.
pub open spec fn spec_config_file_path(
    env_dir: Option<Seq<char>>,
    home: Option<Seq<char>>,
    config_dir: Option<Seq<char>>,
    data_dir: Seq<char>,
    existing: Seq<String>,
) -> Seq<char> {
    match env_dir {
        Some(d) => spec_pick_existing(crate::fs::spec_expand_tilde(d, home), existing),
        None => {
            let fallback = spec_pick_existing(data_dir, existing);
            match config_dir {
                Some(c) => {
                    let picked = spec_pick_existing(
                        crate::fs::spec_join_path(c, "zerostack"@),
                        existing,
                    );
                    if listed(existing, picked) {
                        picked
                    } else {
                        fallback
                    }
                },
                None => fallback,
            }
        },
    }
}

/// The path of the configuration file, given `$ZS_CONFIG_DIR`, the home
/// directory, the user's config directory, the data directory and the
/// candidate paths that exist.
pub fn config_file_path(
    env_dir: Option<&str>,
    home: Option<&str>,
    config_dir: Option<&str>,
    data_dir: &str,
    existing: &[String],
) -> (r: String)
    ensures
        r@ == spec_config_file_path(
            crate::prompts::opt_view(env_dir),
            crate::prompts::opt_view(home),
            crate::prompts::opt_view(config_dir),
            data_dir@,
            existing@,
        ),
{
    match env_dir {
        Some(d) => {
            let dir = crate::fs::expand_tilde_with_home(d, home);
            pick_existing(dir.as_str(), existing)
        },
        None => {
            match config_dir {
                Some(c) => {
                    let dir = crate::fs::join_path(c, "zerostack");
                    let picked = pick_existing(dir.as_str(), existing);
                    if is_listed(existing, picked.as_str()) {
                        return picked;
                    }
                },
                None => {},
            }
            pick_existing(data_dir, existing)
        },
    }
}


/// Language-server integration: whether it is on, and per-server
/// overrides or additions by name (a built-in's name replaces it).
#[derive(Debug)]
pub struct LspConfig {
    pub enabled: bool,
    pub servers: Vec<(String, LspServerConfig)>,
}

/// One language server.
#[derive(Debug)]
pub struct LspServerConfig {
    /// The binary, found on the search path; empty for an entry that only
    /// disables a built-in server.
    pub command: String,
    pub args: Vec<String>,
    /// The file extensions it handles, dot included, e.g. `.rs`.
    pub extensions: Vec<String>,
    pub env: Vec<(String, String)>,
    /// Options sent to the server when it starts.
    pub initialization: Option<crate::json::Json>,
    pub disabled: bool,
}

/// The output-filtering proxy `rtk`: whether it is on, and its binary when
/// not `rtk` on the search path.
#[derive(Debug, Clone)]
pub struct RtkConfig {
    pub enabled: bool,
    pub path: Option<String>,
}

/// A custom OpenAI-compatible (or other) provider.
#[derive(Debug, Clone)]
pub struct CustomProviderConfig {
    pub provider_type: String,
    pub base_url: String,
    /// The environment variable holding the API key.
    pub api_key_env: Option<String>,
    pub danger_accept_invalid_certs: Option<bool>,
    pub api_style: Option<ApiStyle>,
    pub headers: Vec<(String, String)>,
    pub timeout_secs: Option<u64>,
    /// The model used with this provider when none is asked for.
    pub model: Option<String>,
}

/// The advisor: a second model the agent may consult.
#[derive(Debug, Clone)]
pub struct AdvisorConfig {
    pub enabled: bool,
    pub model: Option<String>,
    pub max_uses: Option<usize>,
    pub human_handoff: bool,
    pub advisor_kilobytes_limit: u32,
}

impl Default for AdvisorConfig {
    /// Off; `deepseek-v4-pro`, at most 3 uses, hand-off to the human on,
    /// 256 KiB of context.
    fn default() -> (r: Self)
        ensures
            !r.enabled,
            r.model matches Some(m) && m@ == "deepseek-v4-pro"@,
            r.max_uses == Some(3usize),
            r.human_handoff,
            r.advisor_kilobytes_limit == 256,
    {
        AdvisorConfig {
            enabled: false,
            model: Some(String::from_str("deepseek-v4-pro")),
            max_uses: Some(3),
            human_handoff: true,
            advisor_kilobytes_limit: 256,
        }
    }
}

/// The icon of a status-line item: its own glyph when `Auto(true)`, or a
/// named or literal glyph.
#[derive(Debug, Clone)]
pub enum IconSpec {
    Auto(bool),
    Custom(String),
}

/// One piece of the status line: the item it shows, its colors, the text
/// of a separator, the cap glyphs drawn around it, its icon, and whether a
/// numeric item shows when zero.
#[derive(Debug, Clone)]
pub struct StatusLineSegment {
    pub item: String,
    pub color: Option<String>,
    pub bg: Option<String>,
    pub text: Option<String>,
    pub left: Option<String>,
    pub right: Option<String>,
    pub icon: Option<IconSpec>,
    pub always: Option<bool>,
}

/// One line of the status line.
#[derive(Debug, Clone)]
pub struct StatusLineLine {
    pub segments: Vec<StatusLineSegment>,
}

/// The status-line layout.
#[derive(Debug, Clone)]
pub struct StatusLineConfig {
    pub lines: Vec<StatusLineLine>,
}

/// A text option as plain characters.
pub open spec fn opt_chars(o: Option<String>) -> Option<Seq<char>> {
    match o {
        Some(s) => Some(s@),
        None => None,
    }
}

/// A segment as item, color, text, left and right cap.
pub open spec fn segment_view(g: StatusLineSegment) -> (
    Seq<char>,
    Option<Seq<char>>,
    Option<Seq<char>>,
    Option<Seq<char>>,
    Option<Seq<char>>,
) {
    (g.item@, opt_chars(g.color), opt_chars(g.text), opt_chars(g.left), opt_chars(g.right))
}

/// A grey item.
pub open spec fn grey(item: Seq<char>) -> (
    Seq<char>,
    Option<Seq<char>>,
    Option<Seq<char>>,
    Option<Seq<char>>,
    Option<Seq<char>>,
) {
    (item, Some("grey"@), None, None, None)
}

/// A separator showing `text`.
pub open spec fn sep(text: Seq<char>) -> (
    Seq<char>,
    Option<Seq<char>>,
    Option<Seq<char>>,
    Option<Seq<char>>,
    Option<Seq<char>>,
) {
    ("separator"@, None, Some(text), None, None)
}

/// The segments of the status line a first start writes: the directory and
/// git branch, the model, the context used of the maximum and its share,
/// the tokens in and out, then at the right the loop, mode, cost, side
/// question and prompt, all grey.
pub open spec fn default_segments() -> Seq<
    (Seq<char>, Option<Seq<char>>, Option<Seq<char>>, Option<Seq<char>>, Option<Seq<char>>),
> {
    seq![
        grey("cwd"@),
        sep("  "@),
        ("git_branch"@, Some("grey"@), None, Some("("@), Some(")"@)),
        sep(" | "@),
        grey("model"@),
        sep("  |  "@),
        grey("context_used"@),
        sep("/"@),
        grey("context_max"@),
        sep(" "@),
        grey("context_percentage"@),
        sep("  \u{21d1}"@),
        grey("tokens_input"@),
        sep(" \u{21d3}"@),
        grey("tokens_output"@),
        ("flex_separator"@, None, None, None, None),
        grey("loop"@),
        sep(" "@),
        grey("mode"@),
        sep(" "@),
        grey("cost"@),
        sep(" "@),
        grey("btw"@),
        sep(" "@),
        grey("prompt"@),
    ]
}

/// A segment with the given parts and no background, icon or override.
fn segment(
    item: &str,
    color: Option<&str>,
    text: Option<&str>,
    left: Option<&str>,
    right: Option<&str>,
) -> (r: StatusLineSegment)
    ensures
        r.item@ == item@,
        opt_chars(r.color) == match color {
            Some(c) => Some(c@),
            None => None,
        },
        opt_chars(r.text) == match text {
            Some(c) => Some(c@),
            None => None,
        },
        opt_chars(r.left) == match left {
            Some(c) => Some(c@),
            None => None,
        },
        opt_chars(r.right) == match right {
            Some(c) => Some(c@),
            None => None,
        },
        r.bg is None,
        r.icon is None,
        r.always is None,
{
    let o = |x: Option<&str>| -> (r: Option<String>)
        ensures
            opt_chars(r) == match x {
                Some(c) => Some(c@),
                None => None,
            },
        {
            match x {
                Some(c) => Some(String::from_str(c)),
                None => None,
            }
        };
    StatusLineSegment {
        item: String::from_str(item),
        color: o(color),
        bg: None,
        text: o(text),
        left: o(left),
        right: o(right),
        icon: None,
        always: None,
    }
}

/// Whether a status line is the default one: one line of the default
/// segments, none with a background, icon or always-flag.
pub open spec fn is_default_statusline(r: StatusLineConfig) -> bool {
    &&& r.lines@.len() == 1
    &&& r.lines@[0].segments@.map_values(|g: StatusLineSegment| segment_view(g)) == default_segments()
    &&& forall|i: int|
        0 <= i < r.lines@[0].segments@.len() ==> (#[trigger] r.lines@[0].segments@[i]).bg is None
            && r.lines@[0].segments@[i].icon is None && r.lines@[0].segments@[i].always is None
}

/// The status line a first start writes into the configuration: one line
/// of the default segments.
pub fn default_statusline() -> (r: StatusLineConfig)
    ensures
        r.lines@.len() == 1,
        r.lines@[0].segments@.map_values(|g: StatusLineSegment| segment_view(g)) == default_segments(),
        forall|i: int|
            0 <= i < r.lines@[0].segments@.len() ==> (#[trigger] r.lines@[0].segments@[i]).bg is None
                && r.lines@[0].segments@[i].icon is None && r.lines@[0].segments@[i].always is None,
{
    let g = Some("grey");
    let mut v: Vec<StatusLineSegment> = Vec::new();
    v.push(segment("cwd", g, None, None, None));
    v.push(segment("separator", None, Some("  "), None, None));
    v.push(segment("git_branch", g, None, Some("("), Some(")")));
    v.push(segment("separator", None, Some(" | "), None, None));
    v.push(segment("model", g, None, None, None));
    v.push(segment("separator", None, Some("  |  "), None, None));
    v.push(segment("context_used", g, None, None, None));
    v.push(segment("separator", None, Some("/"), None, None));
    v.push(segment("context_max", g, None, None, None));
    v.push(segment("separator", None, Some(" "), None, None));
    v.push(segment("context_percentage", g, None, None, None));
    v.push(segment("separator", None, Some("  \u{21d1}"), None, None));
    v.push(segment("tokens_input", g, None, None, None));
    v.push(segment("separator", None, Some(" \u{21d3}"), None, None));
    v.push(segment("tokens_output", g, None, None, None));
    v.push(segment("flex_separator", None, None, None, None));
    v.push(segment("loop", g, None, None, None));
    v.push(segment("separator", None, Some(" "), None, None));
    v.push(segment("mode", g, None, None, None));
    v.push(segment("separator", None, Some(" "), None, None));
    v.push(segment("cost", g, None, None, None));
    v.push(segment("separator", None, Some(" "), None, None));
    v.push(segment("btw", g, None, None, None));
    v.push(segment("separator", None, Some(" "), None, None));
    v.push(segment("prompt", g, None, None, None));
    assert(v@.map_values(|g: StatusLineSegment| segment_view(g)) =~= default_segments());
    let mut lines: Vec<StatusLineLine> = Vec::new();
    lines.push(StatusLineLine { segments: v });
    StatusLineConfig { lines }
}


/// The settings of the configuration file that the library resolves; the
/// quick models, priced in floating point, are kept by the application.
#[derive(Debug, Clone)]
pub struct Config {
    pub provider: Option<String>,
    pub model: Option<String>,
    pub max_tokens: Option<u64>,
    pub compact_enabled: Option<bool>,
    pub max_text_file_size: Option<u64>,
    pub edit_system: Option<EditSystem>,
    pub default_permission_mode: Option<String>,
    pub default_prompt: Option<String>,
    pub show_tool_details: Option<bool>,
    pub chain: Option<ChainConfig>,
    pub subagent_max_read_lines: Option<u64>,
    pub subagent_max_grep_results: Option<u64>,
    pub subagent_max_find_results: Option<u64>,
    pub advisor: Option<AdvisorConfig>,
    pub statusline: Option<StatusLineConfig>,
}

/// The configuration a first start writes: OpenRouter with
/// `deepseek-v4-pro`, 16384 tokens, no compaction, a 1 MiB text-file limit,
/// similarity editing, the standard permission mode, the `code` prompt, the
/// default chain, subagent limits of 2000 lines and 200 results, the
/// default advisor and the default status line.
pub fn rich_default_config() -> (r: Config)
    ensures
        r.provider matches Some(p) && p@ == "openrouter"@,
        r.model matches Some(m) && m@ == "deepseek-v4-pro"@,
        r.max_tokens == Some(16384u64),
        r.compact_enabled == Some(false),
        r.max_text_file_size == Some(1048576u64),
        r.edit_system == Some(EditSystem::Similarity),
        r.default_permission_mode matches Some(m) && m@ == "standard"@,
        r.default_prompt matches Some(p) && p@ == "code"@,
        r.show_tool_details is None,
        r.chain == Some((ChainConfig { brainstorm_to_plan: true, plan_to_code: true, code_to_review: false })),
        r.subagent_max_read_lines == Some(2000u64),
        r.subagent_max_grep_results == Some(200u64),
        r.subagent_max_find_results == Some(200u64),
        r.advisor matches Some(a) && !a.enabled && (a.model matches Some(m) && m@ == "deepseek-v4-pro"@)
            && a.max_uses == Some(3usize) && a.human_handoff && a.advisor_kilobytes_limit == 256,
        r.statusline matches Some(s) && is_default_statusline(s),
{
    Config {
        provider: Some(String::from_str("openrouter")),
        model: Some(String::from_str("deepseek-v4-pro")),
        max_tokens: Some(16384),
        compact_enabled: Some(false),
        max_text_file_size: Some(1048576),
        edit_system: Some(EditSystem::Similarity),
        default_permission_mode: Some(String::from_str("standard")),
        default_prompt: Some(String::from_str("code")),
        show_tool_details: None,
        chain: Some(ChainConfig::default()),
        subagent_max_read_lines: Some(2000),
        subagent_max_grep_results: Some(200),
        subagent_max_find_results: Some(200),
        advisor: Some(AdvisorConfig::default()),
        statusline: Some(default_statusline()),
    }
}

/// What a start does with the configuration file at a path: a first start
/// when the file is missing, which writes the defaults back only to a
/// `.toml` file; otherwise the file is read with the TOML reader when it
/// ends in `.toml` and with the YAML reader (which also reads JSON)
/// otherwise.
#[derive(Debug, Clone, Copy, PartialEq, Eq, Structural)]
pub enum StartupPlan {
    FirstStart { write_defaults: bool },
    ReadToml,
    ReadYaml,
}

/// Whether `path` has the extension `toml`.
pub open spec fn is_toml_path(path: Seq<char>) -> bool {
    match crate::lsp::path_file_name(path) {
        Some(n) => crate::layers::file_extension(n) == Some("toml"@),
        None => false,
    }
}

/// How a start treats the configuration file at `path`, given whether it
/// exists.
pub fn startup_plan(path: &str, exists: bool) -> (r: StartupPlan)
    ensures
        !exists ==> r == (StartupPlan::FirstStart { write_defaults: is_toml_path(path@) }),
        exists ==> r == (if is_toml_path(path@) {
            StartupPlan::ReadToml
        } else {
            StartupPlan::ReadYaml
        }),
{
    let toml = match crate::lsp::path_file_name_exec(path) {
        Some(name) => {
            let n = crate::text::string_from_chars(name.as_slice());
            match crate::layers::extension_of(n.as_str()) {
                Some(e) => crate::text::str_eq(e.as_str(), "toml"),
                None => false,
            }
        },
        None => false,
    };
    if !exists {
        StartupPlan::FirstStart { write_defaults: toml }
    } else if toml {
        StartupPlan::ReadToml
    } else {
        StartupPlan::ReadYaml
    }
}

} // verus!
