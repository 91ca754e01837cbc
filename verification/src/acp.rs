//! The Agent Client Protocol server: its transport configuration and the
//! permission mode a headless session runs in.

use vstd::prelude::*;

use crate::strmap::{keys_unique, map_get, map_insert, map_take, to_map};
use crate::text::{decimal, join_seq, push_decimal, push_str, str_eq, views, join_strings};

verus! {

/// How the ACP server is reached.
#[derive(Debug, Clone)]
pub enum AcpServerConfig {
    Tcp { host: String, port: u16, api_key: Option<String> },
    Stdio,
}

impl AcpServerConfig {
    /// `tcp` or `stdio`.
    pub fn transport_type(&self) -> (r: &str)
        ensures
            r@ == match self {
                AcpServerConfig::Tcp { .. } => "tcp"@,
                AcpServerConfig::Stdio => "stdio"@,
            },
    {
        match self {
            AcpServerConfig::Tcp { .. } => "tcp",
            AcpServerConfig::Stdio => "stdio",
        }
    }
}

/// How much the agent may do without asking.
#[derive(Debug, Clone, Copy, PartialEq, Eq, Structural)]
pub enum SecurityMode {
    Yolo,
    Standard,
    Guarded,
    ReadOnly,
    Restrictive,
}

/// What decides the permission mode of an ACP session: the command-line
/// flags and the configuration file's settings.
#[derive(Debug, Clone)]
pub struct PermissionModeSettings {
    pub dangerously_skip_permissions: bool,
    pub cli_yolo: bool,
    pub cfg_yolo: Option<bool>,
    pub cli_accept_all: bool,
    pub cfg_accept_all: Option<bool>,
    pub cli_restrictive: bool,
    pub cfg_restrictive: Option<bool>,
    /// `default_permission_mode` from the configuration file.
    pub default_permission_mode: Option<String>,
}

/// The mode named by `default_permission_mode`; unknown names mean
/// standard.
pub open spec fn mode_named(name: Seq<char>) -> SecurityMode {
    if name == "yolo"@ {
        SecurityMode::Yolo
    } else if name == "accept"@ || name == "standard"@ {
        SecurityMode::Standard
    } else if name == "guarded"@ {
        SecurityMode::Guarded
    } else if name == "readonly"@ {
        SecurityMode::ReadOnly
    } else if name == "restrictive"@ {
        SecurityMode::Restrictive
    } else {
        SecurityMode::Standard
    }
}

/// The mode of a session, first match wins: skipping permissions means
/// standard; yolo (flag or config) means yolo; accept-all means standard;
/// restrictive means restrictive; then the configured default mode; else
/// standard.
pub open spec fn spec_resolve_acp_mode(s: PermissionModeSettings) -> SecurityMode {
    if s.dangerously_skip_permissions {
        SecurityMode::Standard
    } else if s.cli_yolo || s.cfg_yolo == Some(true) {
        SecurityMode::Yolo
    } else if s.cli_accept_all || s.cfg_accept_all == Some(true) {
        SecurityMode::Standard
    } else if s.cli_restrictive || s.cfg_restrictive == Some(true) {
        SecurityMode::Restrictive
    } else {
        match s.default_permission_mode {
            Some(m) => mode_named(m@),
            None => SecurityMode::Standard,
        }
    }
}

/// The permission mode of a headless ACP session.
pub fn resolve_acp_mode(s: &PermissionModeSettings) -> (r: SecurityMode)
    ensures
        r == spec_resolve_acp_mode(*s),
{
    if s.dangerously_skip_permissions {
        SecurityMode::Standard
    } else if s.cli_yolo || s.cfg_yolo == Some(true) {
        SecurityMode::Yolo
    } else if s.cli_accept_all || s.cfg_accept_all == Some(true) {
        SecurityMode::Standard
    } else if s.cli_restrictive || s.cfg_restrictive == Some(true) {
        SecurityMode::Restrictive
    } else {
        match &s.default_permission_mode {
            Some(m) => {
                let m = m.as_str();
                if str_eq(m, "yolo") {
                    SecurityMode::Yolo
                } else if str_eq(m, "accept") || str_eq(m, "standard") {
                    SecurityMode::Standard
                } else if str_eq(m, "guarded") {
                    SecurityMode::Guarded
                } else if str_eq(m, "readonly") {
                    SecurityMode::ReadOnly
                } else if str_eq(m, "restrictive") {
                    SecurityMode::Restrictive
                } else {
                    SecurityMode::Standard
                }
            },
            None => SecurityMode::Standard,
        }
    }
}


/// The name the server announces itself under.
pub const AGENT_NAME: &'static str = "zerostack";

/// The version the server announces.
pub const AGENT_VERSION: &'static str = "1.0.5";

/// The port a TCP server listens on when none is given.
pub const DEFAULT_ACP_PORT: u16 = 7243;

/// How `serve` reaches its client: TCP when a host is given (on the given
/// port, or the default one), otherwise standard input and output.
pub fn serve_transport(acp_host: Option<String>, acp_port: Option<u16>) -> (r: AcpServerConfig)
    ensures
        match acp_host {
            Some(h) => r matches AcpServerConfig::Tcp { host, port, api_key }
                && host@ == h@ && api_key is None
                && port == match acp_port { Some(p) => p, None => DEFAULT_ACP_PORT },
            None => r is Stdio,
        },
{
    match acp_host {
        Some(host) => {
            let port = match acp_port {
                Some(p) => p,
                None => DEFAULT_ACP_PORT,
            };
            AcpServerConfig::Tcp { host, port, api_key: None }
        },
        None => AcpServerConfig::Stdio,
    }
}

/// The address a TCP server listens on: `host:port`.
pub fn tcp_address(host: &str, port: u16) -> (r: String)
    ensures
        r@ == host@ + ":"@ + decimal(port as nat),
{
    let mut s = String::from_str(host);
    push_str(&mut s, ":");
    let mut d: Vec<char> = Vec::new();
    push_decimal(&mut d, port as u64);
    crate::text::push_chars(&mut s, d.as_slice());
    s
}

/// A content block of a prompt request: text, or anything else.
#[derive(Debug, Clone)]
pub enum PromptBlock {
    Text(String),
    Other,
}

/// The texts of the text blocks, in order.
pub open spec fn block_texts(blocks: Seq<PromptBlock>) -> Seq<Seq<char>>
    decreases blocks.len(),
{
    if blocks.len() == 0 {
        Seq::empty()
    } else {
        let rest = block_texts(blocks.drop_last());
        match blocks.last() {
            PromptBlock::Text(t) => rest.push(t@),
            PromptBlock::Other => rest,
        }
    }
}

/// The prompt text of a request: its text blocks joined by newlines; other
/// blocks are left out.
pub fn prompt_text(blocks: &[PromptBlock]) -> (r: String)
    ensures
        r@ == join_seq(block_texts(blocks@), "\n"@),
{
    let mut texts: Vec<String> = Vec::new();
    let mut i: usize = 0;
    while i < blocks.len()
        invariant
            0 <= i <= blocks.len(),
            views(texts@) == block_texts(blocks@.take(i as int)),
        decreases blocks.len() - i,
    {
        proof {
            assert(blocks@.take(i + 1).drop_last() =~= blocks@.take(i as int));
        }
        match &blocks[i] {
            PromptBlock::Text(t) => {
                texts.push(t.clone());
                assert(views(texts@) =~= block_texts(blocks@.take(i as int)).push(t@));
            },
            PromptBlock::Other => {},
        }
        i = i + 1;
    }
    assert(blocks@.take(blocks.len() as int) =~= blocks@);
    join_strings(texts.as_slice(), "\n")
}

/// The model a prompt runs on: a custom provider's own model replaces the
/// resolved one when no model was asked for on the command line, or when the
/// resolved one is the built-in default `deepseek/deepseek-v4-pro`.
pub fn prompt_model(resolved: String, cli_model_given: bool, custom_model: Option<&str>) -> (r:
    String)
    ensures
        r@ == match custom_model {
            Some(m) if resolved@ == "deepseek/deepseek-v4-pro"@ || !cli_model_given => m@,
            _ => resolved@,
        },
{
    match custom_model {
        Some(m) => {
            if str_eq(resolved.as_str(), "deepseek/deepseek-v4-pro") || !cli_model_given {
                String::from_str(m)
            } else {
                resolved
            }
        },
        None => resolved,
    }
}

/// Whether a headless session checks permissions at all: not when tools are
/// off or permission checks are skipped.
pub fn acp_checks_permissions(no_tools: bool, dangerously_skip_permissions: bool) -> (r: bool)
    ensures
        r == !(no_tools || dangerously_skip_permissions),
{
    !(no_tools || dangerously_skip_permissions)
}

/// What the running agent reports, as the prompt loop sees it. Tool
/// arguments are their JSON text.
#[derive(Debug, Clone)]
pub enum PromptEvent {
    Token(String),
    Reasoning(String),
    ToolCall { call_id: String, name: String, args: String },
    SubagentToolCall { name: String, args: String },
    ToolResult { call_id: String, output: String },
    Retrying { attempt: u64, max: u64 },
    CompletionCall,
    Done,
    Error(String),
}

/// A session update sent to the client.
#[derive(Debug, Clone)]
pub enum SessionUpdate {
    AgentMessageChunk(String),
    AgentThoughtChunk(String),
    /// A tool call announced under `id`; `completed` marks one that will
    /// never be updated.
    ToolCall { id: String, title: String, raw_input: String, completed: bool },
    /// The completed result of the tool call announced under `id`.
    ToolCallUpdate { id: String, output: String },
}

/// What the prompt loop does with one event.
#[derive(Debug, Clone)]
pub enum PromptStep {
    /// Send the update and go on.
    Notify(SessionUpdate),
    /// Nothing to send; go on.
    Skip,
    /// The turn ended; answer the prompt with end-turn.
    Finish,
    /// Send the update, answer the prompt with a refusal, and stop.
    Refuse(SessionUpdate),
}

/// The state of one prompt turn: the tool calls announced and not yet
/// answered, by the agent's call id, and the response text so far.
pub struct PromptRun {
    pub tool_call_ids: Vec<(String, String)>,
    pub final_response: String,
}

/// The announced calls after an event: a tool call is recorded under the
/// agent's id with its new identifier; a result takes its call out.
pub open spec fn next_call_ids(ids: Map<Seq<char>, String>, event: PromptEvent, fresh_id: String) -> Map<
    Seq<char>,
    String,
> {
    match event {
        PromptEvent::ToolCall { call_id, .. } => ids.insert(call_id@, fresh_id),
        PromptEvent::ToolResult { call_id, .. } => ids.remove(call_id@),
        _ => ids,
    }
}

/// The announced call a result updates: the one recorded under its id.
pub open spec fn result_target(ids: Map<Seq<char>, String>, event: PromptEvent) -> Option<String> {
    match event {
        PromptEvent::ToolResult { call_id, .. } => if ids.contains_key(call_id@) {
            Some(ids[call_id@])
        } else {
            None
        },
        _ => None,
    }
}

/// A tool result updates the call announced for its own id, however many
/// calls were announced after it: with two calls in flight, the result of
/// the first goes to the first's identifier, and once answered the call is
/// gone, so a second result for it is dropped.
pub proof fn lemma_results_pair_by_call_id(
    ids: Map<Seq<char>, String>,
    first: PromptEvent,
    second: PromptEvent,
    result: PromptEvent,
    f1: String,
    f2: String,
    f3: String,
)
    requires
        first is ToolCall,
        second is ToolCall,
        result is ToolResult,
        first->ToolCall_call_id@ != second->ToolCall_call_id@,
        result->ToolResult_call_id@ == first->ToolCall_call_id@,
    ensures
        result_target(next_call_ids(next_call_ids(ids, first, f1), second, f2), result) == Some(f1),
        result_target(
            next_call_ids(next_call_ids(next_call_ids(ids, first, f1), second, f2), result, f3),
            result,
        ) is None,
{
}

/// `retrying... (attempt/max)`.
pub open spec fn retry_text(attempt: nat, max: nat) -> Seq<char> {
    "retrying... ("@ + decimal(attempt) + "/"@ + decimal(max) + ")"@
}

impl PromptRun {
    /// A turn with nothing announced and no response yet.
    pub fn new() -> (r: Self)
        ensures
            r.tool_call_ids@.len() == 0,
            r.final_response@.len() == 0,
    {
        PromptRun { tool_call_ids: Vec::new(), final_response: String::new() }
    }

    /// Handles one event of the running agent. `fresh_id` is the identifier
    /// a newly announced tool call gets.
    pub fn step(&mut self, event: PromptEvent, fresh_id: String) -> (r: PromptStep)
        requires
            keys_unique(old(self).tool_call_ids@),
        ensures
            keys_unique(final(self).tool_call_ids@),
            to_map(final(self).tool_call_ids@) == next_call_ids(
                to_map(old(self).tool_call_ids@),
                event,
                fresh_id,
            ),
            match result_target(to_map(old(self).tool_call_ids@), event) {
                Some(id) => r matches PromptStep::Notify(SessionUpdate::ToolCallUpdate { id: x, .. })
                    && x == id,
                None => !(r matches PromptStep::Notify(SessionUpdate::ToolCallUpdate { .. })),
            },
            match event {
                PromptEvent::Token(t) => {
                    &&& final(self).final_response@ == old(self).final_response@ + t@
                    &&& to_map(final(self).tool_call_ids@) == to_map(old(self).tool_call_ids@)
                    &&& r matches PromptStep::Notify(SessionUpdate::AgentMessageChunk(c))
                    &&& c@ == t@
                },
                PromptEvent::Reasoning(t) => {
                    &&& final(self).final_response@ == old(self).final_response@
                    &&& to_map(final(self).tool_call_ids@) == to_map(old(self).tool_call_ids@)
                    &&& r matches PromptStep::Notify(SessionUpdate::AgentThoughtChunk(c))
                    &&& c@ == t@
                },
                PromptEvent::ToolCall { call_id, name, args } => {
                    &&& final(self).final_response@ == old(self).final_response@
                    &&& to_map(final(self).tool_call_ids@) == to_map(
                        old(self).tool_call_ids@,
                    ).insert(call_id@, fresh_id)
                    &&& r matches PromptStep::Notify(
                        SessionUpdate::ToolCall { id, title, raw_input, completed },
                    )
                    &&& id@ == fresh_id@ && title@ == name@ && raw_input@ == args@ && !completed
                },
                PromptEvent::SubagentToolCall { name, args } => {
                    &&& final(self).final_response@ == old(self).final_response@
                    &&& to_map(final(self).tool_call_ids@) == to_map(old(self).tool_call_ids@)
                    &&& r matches PromptStep::Notify(
                        SessionUpdate::ToolCall { id, title, raw_input, completed },
                    )
                    &&& id@ == fresh_id@ && title@ == "[subagent] "@ + name@ && raw_input@
                        == args@ && completed
                },
                PromptEvent::ToolResult { call_id, output } => {
                    &&& final(self).final_response@ == old(self).final_response@
                    &&& to_map(final(self).tool_call_ids@) == to_map(
                        old(self).tool_call_ids@,
                    ).remove(call_id@)
                    &&& if to_map(old(self).tool_call_ids@).contains_key(call_id@) {
                        r matches PromptStep::Notify(SessionUpdate::ToolCallUpdate { id, output: o })
                            && id == to_map(old(self).tool_call_ids@)[call_id@] && o@ == output@
                    } else {
                        r is Skip
                    }
                },
                PromptEvent::Retrying { attempt, max } => {
                    &&& final(self).final_response@ == old(self).final_response@
                    &&& to_map(final(self).tool_call_ids@) == to_map(old(self).tool_call_ids@)
                    &&& r matches PromptStep::Notify(SessionUpdate::AgentThoughtChunk(c))
                    &&& c@ == retry_text(attempt as nat, max as nat)
                },
                PromptEvent::CompletionCall => {
                    &&& final(self).final_response@ == old(self).final_response@
                    &&& to_map(final(self).tool_call_ids@) == to_map(old(self).tool_call_ids@)
                    &&& r is Skip
                },
                PromptEvent::Done => {
                    &&& final(self).final_response@ == old(self).final_response@
                    &&& to_map(final(self).tool_call_ids@) == to_map(old(self).tool_call_ids@)
                    &&& r is Finish
                },
                PromptEvent::Error(e) => {
                    &&& final(self).final_response@ == old(self).final_response@
                    &&& to_map(final(self).tool_call_ids@) == to_map(old(self).tool_call_ids@)
                    &&& r matches PromptStep::Refuse(SessionUpdate::AgentMessageChunk(c))
                    &&& c@ == "[error: "@ + e@ + "]"@
                },
            },
    {
        match event {
            PromptEvent::Token(t) => {
                push_str(&mut self.final_response, t.as_str());
                PromptStep::Notify(SessionUpdate::AgentMessageChunk(t))
            },
            PromptEvent::Reasoning(t) => PromptStep::Notify(SessionUpdate::AgentThoughtChunk(t)),
            PromptEvent::ToolCall { call_id, name, args } => {
                let id = fresh_id.clone();
                map_insert(&mut self.tool_call_ids, call_id, fresh_id);
                PromptStep::Notify(
                    SessionUpdate::ToolCall { id, title: name, raw_input: args, completed: false },
                )
            },
            PromptEvent::SubagentToolCall { name, args } => {
                let mut title = String::from_str("[subagent] ");
                push_str(&mut title, name.as_str());
                PromptStep::Notify(
                    SessionUpdate::ToolCall { id: fresh_id, title, raw_input: args, completed: true },
                )
            },
            PromptEvent::ToolResult { call_id, output } => {
                match map_take(&mut self.tool_call_ids, call_id.as_str()) {
                    Some(id) => PromptStep::Notify(SessionUpdate::ToolCallUpdate { id, output }),
                    None => PromptStep::Skip,
                }
            },
            PromptEvent::Retrying { attempt, max } => {
                let mut cs: Vec<char> = Vec::new();
                push_decimal(&mut cs, attempt);
                let mut t = String::from_str("retrying... (");
                crate::text::push_chars(&mut t, cs.as_slice());
                push_str(&mut t, "/");
                let mut ms: Vec<char> = Vec::new();
                push_decimal(&mut ms, max);
                crate::text::push_chars(&mut t, ms.as_slice());
                push_str(&mut t, ")");
                PromptStep::Notify(SessionUpdate::AgentThoughtChunk(t))
            },
            PromptEvent::CompletionCall => PromptStep::Skip,
            PromptEvent::Done => PromptStep::Finish,
            PromptEvent::Error(e) => {
                let mut t = String::from_str("[error: ");
                push_str(&mut t, e.as_str());
                push_str(&mut t, "]");
                PromptStep::Refuse(SessionUpdate::AgentMessageChunk(t))
            },
        }
    }

    /// The assistant message the turn leaves in the session history: its
    /// response text, unless that is empty.
    pub fn assistant_message(&self) -> (r: Option<String>)
        ensures
            match r {
                Some(m) => m@ == self.final_response@ && m@.len() > 0,
                None => self.final_response@.len() == 0,
            },
    {
        let cs = crate::text::chars_of(self.final_response.as_str());
        if cs.len() == 0 {
            None
        } else {
            Some(self.final_response.clone())
        }
    }
}

/// A history as pairs of role and text.
pub open spec fn history_view(h: Vec<(String, String)>) -> Seq<(Seq<char>, Seq<char>)> {
    h@.map_values(|m: (String, String)| (m.0@, m.1@))
}

/// The message history of each open session, by session id.
pub struct SessionStore {
    pub sessions: Vec<(String, Vec<(String, String)>)>,
}

impl SessionStore {
    /// The store holds each session once.
    pub open spec fn wf(&self) -> bool {
        keys_unique(self.sessions@)
    }

    /// The history of each session, as pairs of role and text.
    pub open spec fn view_map(&self) -> Map<Seq<char>, Seq<(Seq<char>, Seq<char>)>> {
        to_map(self.sessions@).map_values(|h: Vec<(String, String)>| history_view(h))
    }

    /// No session open.
    pub fn new() -> (r: Self)
        ensures
            r.wf(),
            r.view_map() =~= Map::empty(),
    {
        SessionStore { sessions: Vec::new() }
    }

    /// Opens session `id` with an empty history.
    pub fn open(&mut self, id: String)
        requires
            old(self).wf(),
        ensures
            final(self).wf(),
            final(self).view_map() =~= old(self).view_map().insert(id@, Seq::empty()),
    {
        let ghost k = id@;
        let empty: Vec<(String, String)> = Vec::new();
        proof {
            assert(history_view(empty) =~= Seq::empty());
        }
        map_insert(&mut self.sessions, id, empty);
        proof {
            assert(self.view_map() =~= old(self).view_map().insert(k, Seq::empty()));
        }
    }

    /// Appends a message to the history of session `id`; an unknown session
    /// is left alone.
    pub fn record(&mut self, id: &str, role: &str, text: String)
        requires
            old(self).wf(),
        ensures
            final(self).wf(),
            final(self).view_map() =~= if old(self).view_map().contains_key(id@) {
                old(self).view_map().insert(id@, old(self).view_map()[id@].push((role@, text@)))
            } else {
                old(self).view_map()
            },
    {
        match map_take(&mut self.sessions, id) {
            Some(mut h) => {
                let ghost h0 = h;
                h.push((String::from_str(role), text));
                proof {
                    assert(history_view(h) =~= history_view(h0).push((role@, text@)));
                }
                map_insert(&mut self.sessions, String::from_str(id), h);
                proof {
                    assert(self.view_map() =~= old(self).view_map().insert(
                        id@,
                        old(self).view_map()[id@].push((role@, text@)),
                    ));
                }
            },
            None => {},
        }
    }
}


/// How a prompt turn is answered.
#[derive(Debug, Clone, Copy, PartialEq, Eq, Structural)]
pub enum StopReason {
    EndTurn,
    Refusal,
}

/// Whether an event ends the turn.
pub open spec fn ends_turn(e: PromptEvent) -> bool {
    e is Done || e is Error
}

/// The text of the `Token` events among the first `k` events.
pub open spec fn tokens_text(events: Seq<(PromptEvent, String)>, k: int) -> Seq<char>
    decreases k,
{
    if k <= 0 || k > events.len() {
        Seq::empty()
    } else {
        tokens_text(events, k - 1) + match events[k - 1].0 {
            PromptEvent::Token(t) => t@,
            _ => Seq::empty(),
        }
    }
}

/// Whether `id` is the identifier of a tool call announced in `updates`.
pub open spec fn announced(updates: Seq<SessionUpdate>, id: Seq<char>) -> bool {
    exists|j: int| 0 <= j < updates.len() && (#[trigger] updates[j] matches SessionUpdate::ToolCall {
        id: a,
        ..
    } && a@ == id)
}

/// A session update as plain values.
pub enum SpecUpdate {
    Chunk(Seq<char>),
    Thought(Seq<char>),
    Call { id: Seq<char>, title: Seq<char>, raw_input: Seq<char>, completed: bool },
    CallUpdate { id: Seq<char>, output: Seq<char> },
}

/// The plain values of a session update.
pub open spec fn update_view(u: SessionUpdate) -> SpecUpdate {
    match u {
        SessionUpdate::AgentMessageChunk(c) => SpecUpdate::Chunk(c@),
        SessionUpdate::AgentThoughtChunk(c) => SpecUpdate::Thought(c@),
        SessionUpdate::ToolCall { id, title, raw_input, completed } => SpecUpdate::Call {
            id: id@,
            title: title@,
            raw_input: raw_input@,
            completed,
        },
        SessionUpdate::ToolCallUpdate { id, output } => SpecUpdate::CallUpdate { id: id@, output: output@ },
    }
}

/// The update an event sends, given the calls announced so far and the
/// identifier a new call gets: tokens as message chunks, reasoning and
/// retries as thoughts, tool calls (the subagent's marked completed) as
/// announcements, a result as the update of the call its id announced (none
/// when no call announced it), an error as a message chunk; nothing for a
/// completion call or the end of the turn.
pub open spec fn event_update(ids: Map<Seq<char>, String>, e: PromptEvent, fresh: String) -> Option<
    SpecUpdate,
> {
    match e {
        PromptEvent::Token(t) => Some(SpecUpdate::Chunk(t@)),
        PromptEvent::Reasoning(t) => Some(SpecUpdate::Thought(t@)),
        PromptEvent::ToolCall { name, args, .. } => Some(
            SpecUpdate::Call { id: fresh@, title: name@, raw_input: args@, completed: false },
        ),
        PromptEvent::SubagentToolCall { name, args } => Some(
            SpecUpdate::Call {
                id: fresh@,
                title: "[subagent] "@ + name@,
                raw_input: args@,
                completed: true,
            },
        ),
        PromptEvent::ToolResult { call_id, output } => if ids.contains_key(call_id@) {
            Some(SpecUpdate::CallUpdate { id: ids[call_id@]@, output: output@ })
        } else {
            None
        },
        PromptEvent::Retrying { attempt, max } => Some(
            SpecUpdate::Thought(retry_text(attempt as nat, max as nat)),
        ),
        PromptEvent::CompletionCall => None,
        PromptEvent::Done => None,
        PromptEvent::Error(x) => Some(SpecUpdate::Chunk("[error: "@ + x@ + "]"@)),
    }
}

/// The calls announced and not answered after the first `k` events.
pub open spec fn turn_ids(events: Seq<(PromptEvent, String)>, k: int) -> Map<Seq<char>, String>
    decreases k,
{
    if k <= 0 || k > events.len() {
        Map::empty()
    } else {
        next_call_ids(turn_ids(events, k - 1), events[k - 1].0, events[k - 1].1)
    }
}

/// The updates the first `k` events send, in order.
pub open spec fn turn_updates(events: Seq<(PromptEvent, String)>, k: int) -> Seq<SpecUpdate>
    decreases k,
{
    if k <= 0 || k > events.len() {
        Seq::empty()
    } else {
        let before = turn_updates(events, k - 1);
        match event_update(turn_ids(events, k - 1), events[k - 1].0, events[k - 1].1) {
            Some(u) => before.push(u),
            None => before,
        }
    }
}

/// A whole prompt turn: the updates sent, in order; how the prompt is
/// answered; how many events were read; and the assistant message left in
/// the session history.
pub struct TurnOutcome {
    pub updates: Vec<SessionUpdate>,
    pub stop: StopReason,
    pub consumed: usize,
    pub assistant: Option<String>,
}

/// Runs a prompt turn over the agent's events, in the order the channel
/// delivers them until it closes, each with the identifier a tool call it
/// announces gets. The turn reads up to the first `Done` or `Error`, or to
/// the end, and is answered exactly once: with a refusal when it stopped at
/// an `Error`, with end-turn otherwise. Only an end-turn leaves an assistant
/// message, the text of the tokens read, when that is not empty. The
/// updates are those the events read send, in order; so every tool-call
/// update names a call announced earlier in the turn.
pub fn run_turn(events: Vec<(PromptEvent, String)>) -> (r: TurnOutcome)
    ensures
        r.updates@.map_values(|u: SessionUpdate| update_view(u)) == turn_updates(events@, r.consumed as int),
        r.consumed <= events@.len(),
        r.consumed < events@.len() ==> r.consumed > 0 && ends_turn(events@[r.consumed - 1].0),
        forall|i: int| 0 <= i < r.consumed - 1 ==> !ends_turn(#[trigger] events@[i].0),
        r.stop == StopReason::Refusal <==> (r.consumed > 0 && events@[r.consumed - 1].0 is Error),
        match r.stop {
            StopReason::EndTurn => match r.assistant {
                Some(m) => m@ == tokens_text(events@, r.consumed as int) && m@.len() > 0,
                None => tokens_text(events@, r.consumed as int).len() == 0,
            },
            StopReason::Refusal => r.assistant is None,
        },
        forall|j: int|
            0 <= j < r.updates@.len() ==> (#[trigger] r.updates@[j] matches SessionUpdate::ToolCallUpdate {
                id,
                ..
            } ==> announced(r.updates@.take(j), id@)),
{
    let ghost orig = events@;
    let n = events.len();
    let mut events = events;
    let mut run = PromptRun::new();
    let mut updates: Vec<SessionUpdate> = Vec::new();
    let mut consumed: usize = 0;
    let mut ended = false;
    let mut refused = false;
    proof {
        assert(to_map(run.tool_call_ids@) =~= Map::<Seq<char>, String>::empty());
    }
    while consumed < n && !ended
        invariant
            n == orig.len(),
            consumed <= n,
            events@ == orig.subrange(consumed as int, n as int),
            keys_unique(run.tool_call_ids@),
            to_map(run.tool_call_ids@) == turn_ids(orig, consumed as int),
            updates@.map_values(|u: SessionUpdate| update_view(u)) == turn_updates(orig, consumed as int),
            run.final_response@ == tokens_text(orig, consumed as int),
            ended ==> consumed > 0 && ends_turn(orig[consumed - 1].0),
            refused <==> (ended && orig[consumed - 1].0 is Error),
            forall|i: int| 0 <= i < consumed && (!ended || i < consumed - 1) ==> !ends_turn(#[trigger] orig[i].0),
            forall|k: Seq<char>|
                #[trigger] to_map(run.tool_call_ids@).contains_key(k) ==> announced(
                    updates@,
                    to_map(run.tool_call_ids@)[k]@,
                ),
            forall|j: int|
                0 <= j < updates@.len() ==> (#[trigger] updates@[j] matches SessionUpdate::ToolCallUpdate {
                    id,
                    ..
                } ==> announced(updates@.take(j), id@)),
        decreases n - consumed,
    {
        let (event, fresh_id) = events.remove(0);
        assert((event, fresh_id) == orig[consumed as int]);
        let ghost ev = event;
        let ghost fr = fresh_id;
        let ghost before = updates@;
        let ghost old_map = to_map(run.tool_call_ids@);
        let step = run.step(event, fresh_id);
        match step {
            PromptStep::Notify(u) => {
                updates.push(u);
            },
            PromptStep::Skip => {},
            PromptStep::Finish => {
                ended = true;
            },
            PromptStep::Refuse(u) => {
                updates.push(u);
                ended = true;
                refused = true;
            },
        }
        proof {
            assert(orig.take(consumed + 1) =~= orig.take(consumed as int).push(orig[consumed as int]));
            assert(turn_ids(orig, consumed + 1) == next_call_ids(old_map, ev, fr));
            match event_update(old_map, ev, fr) {
                Some(u) => {
                    assert(updates@ == before.push(updates@.last()));
                    assert(update_view(updates@.last()) == u);
                    assert(updates@.map_values(|u: SessionUpdate| update_view(u)) =~= before.map_values(
                        |u: SessionUpdate| update_view(u),
                    ).push(u));
                },
                None => {
                    assert(updates@ == before);
                },
            }
            assert forall|k: Seq<char>| #[trigger] to_map(run.tool_call_ids@).contains_key(k) implies announced(
                updates@,
                to_map(run.tool_call_ids@)[k]@,
            ) by {
                if old_map.contains_key(k) && to_map(run.tool_call_ids@)[k] == old_map[k] {
                    let j = choose|j: int| 0 <= j < before.len() && (#[trigger] before[j] matches SessionUpdate::ToolCall {
                        id: a,
                        ..
                    } && a@ == old_map[k]@);
                    assert(updates@[j] == before[j]);
                } else {
                    let j = before.len() as int;
                    assert(updates@[j] matches SessionUpdate::ToolCall { .. });
                }
            }
            assert forall|j: int|
                0 <= j < updates@.len() implies (#[trigger] updates@[j] matches SessionUpdate::ToolCallUpdate {
                    id,
                    ..
                } ==> announced(updates@.take(j), id@)) by {
                if j < before.len() {
                    assert(updates@.take(j) =~= before.take(j));
                    assert(updates@[j] == before[j]);
                } else {
                    assert(updates@.take(j) =~= before);
                }
            }
        }
        consumed = consumed + 1;
        assert(events@ =~= orig.subrange(consumed as int, n as int));
    }
    let assistant = if refused {
        None
    } else {
        run.assistant_message()
    };
    TurnOutcome {
        updates,
        stop: if refused {
            StopReason::Refusal
        } else {
            StopReason::EndTurn
        },
        consumed,
        assistant,
    }
}

} // verus!
