//! MCP tools: the permission key of a call, what a failed call reports, and
//! the text a tool result becomes.

use vstd::prelude::*;

use crate::text::{chars_of, decimal, join_seq, join_strings, push_chars, push_decimal, push_str, views};

verus! {

/// The error an MCP tool call fails with.
#[derive(Debug, Clone)]
pub struct McpToolError(pub String);

impl McpToolError {
    /// Its message.
    pub fn message(&self) -> (r: String)
        ensures
            r@ == self.0@,
    {
        self.0.clone()
    }
}

/// The key a call is checked under: `mcp_tool:{server}:{tool}`.
pub fn mcp_perm_key(server_name: &str, tool_name: &str) -> (r: String)
    ensures
        r@ == "mcp_tool:"@ + server_name@ + ":"@ + tool_name@,
{
    let mut s = String::from_str("mcp_tool:");
    push_str(&mut s, server_name);
    push_str(&mut s, ":");
    push_str(&mut s, tool_name);
    s
}

/// What a failed call reports: a timeout (of so many seconds) is spelled
/// out; any other error is shown as it describes itself.
pub open spec fn spec_call_error(
    server_name: Seq<char>,
    tool_name: Seq<char>,
    timeout_secs: Option<u64>,
    error_text: Seq<char>,
) -> Seq<char> {
    match timeout_secs {
        Some(t) => "MCP tool '"@ + tool_name + "' on server '"@ + server_name + "' timed out after "@
            + decimal(t as nat) + "s"@,
        None => "MCP tool error: "@ + error_text,
    }
}

/// The message of a failed call; `timeout_secs` is set when the call timed
/// out, and `error_text` is how the error describes itself.
pub fn call_error_message(
    server_name: &str,
    tool_name: &str,
    timeout_secs: Option<u64>,
    error_text: &str,
) -> (r: String)
    ensures
        r@ == spec_call_error(server_name@, tool_name@, timeout_secs, error_text@),
{
    match timeout_secs {
        Some(t) => {
            let mut s = String::from_str("MCP tool '");
            push_str(&mut s, tool_name);
            push_str(&mut s, "' on server '");
            push_str(&mut s, server_name);
            push_str(&mut s, "' timed out after ");
            let mut d: Vec<char> = Vec::new();
            push_decimal(&mut d, t);
            push_chars(&mut s, d.as_slice());
            push_str(&mut s, "s");
            s
        },
        None => {
            let mut s = String::from_str("MCP tool error: ");
            push_str(&mut s, error_text);
            s
        },
    }
}

/// The message when a server's transport closed and reconnecting failed.
pub fn reconnect_failed_message(server_name: &str, error_text: &str) -> (r: String)
    ensures
        r@ == "MCP server '"@ + server_name@ + "' transport closed and reconnect failed: "@
            + error_text@,
{
    let mut s = String::from_str("MCP server '");
    push_str(&mut s, server_name);
    push_str(&mut s, "' transport closed and reconnect failed: ");
    push_str(&mut s, error_text);
    s
}

/// The notice for a server that could not be connected.
pub fn connect_notice(server_name: &str, error_text: &str) -> (r: String)
    ensures
        r@ == "MCP server '"@ + server_name@ + "' not connected: "@ + error_text@,
{
    let mut s = String::from_str("MCP server '");
    push_str(&mut s, server_name);
    push_str(&mut s, "' not connected: ");
    push_str(&mut s, error_text);
    s
}

/// A part of a tool result.
#[derive(Debug, Clone)]
pub enum McpContent {
    Text(String),
    Image { mime_type: String, data: String },
    /// An embedded resource given as text.
    TextResource(String),
    /// An embedded resource given as base64 data.
    BlobResource(String),
    /// Anything else (audio, links).
    Other,
}

/// The texts of the text parts.
pub open spec fn text_parts(c: Seq<McpContent>) -> Seq<Seq<char>>
    decreases c.len(),
{
    if c.len() == 0 {
        Seq::empty()
    } else {
        let r = text_parts(c.drop_last());
        match c.last() {
            McpContent::Text(t) => r.push(t@),
            _ => r,
        }
    }
}

/// What a part contributes to a successful result: text as it is, an image
/// as a data URL, a resource as its text or data, anything else nothing.
pub open spec fn part_text(p: McpContent) -> Seq<char> {
    match p {
        McpContent::Text(t) => t@,
        McpContent::Image { mime_type, data } => "data:"@ + mime_type@ + ";base64,"@ + data@,
        McpContent::TextResource(t) => t@,
        McpContent::BlobResource(b) => b@,
        McpContent::Other => Seq::empty(),
    }
}

/// The parts' contributions, end to end.
pub open spec fn parts_text(c: Seq<McpContent>) -> Seq<char>
    decreases c.len(),
{
    if c.len() == 0 {
        Seq::empty()
    } else {
        parts_text(c.drop_last()) + part_text(c.last())
    }
}

/// What a tool call returns: for a result marked as an error, its text
/// parts joined by newlines (or a stock message when there are none) as the
/// error; otherwise the parts' contributions, after the permission coaching
/// message and a blank line when there is one.
pub open spec fn spec_tool_result(
    is_error: Option<bool>,
    content: Seq<McpContent>,
    coaching: Option<Seq<char>>,
) -> Result<Seq<char>, Seq<char>> {
    if is_error == Some(true) {
        let m = join_seq(text_parts(content), "\n"@);
        if m.len() == 0 {
            Err("MCP tool returned an error"@)
        } else {
            Err(m)
        }
    } else {
        let body = parts_text(content);
        match coaching {
            Some(c) => Ok(c + "\n\n"@ + body),
            None => Ok(body),
        }
    }
}

/// The outcome of a finished call.
pub fn tool_result_text(is_error: Option<bool>, content: &[McpContent], coaching: Option<&str>) -> (r:
    Result<String, String>)
    ensures
        match r {
            Ok(s) => spec_tool_result(
                is_error,
                content@,
                match coaching {
                    Some(c) => Some(c@),
                    None => None,
                },
            ) == Ok::<_, Seq<char>>(s@),
            Err(m) => spec_tool_result(
                is_error,
                content@,
                match coaching {
                    Some(c) => Some(c@),
                    None => None,
                },
            ) == Err::<Seq<char>, _>(m@),
        },
{
    if is_error == Some(true) {
        let mut texts: Vec<String> = Vec::new();
        let mut i: usize = 0;
        proof {
            assert(content@.take(0) =~= Seq::<McpContent>::empty());
            assert(views(texts@) =~= Seq::<Seq<char>>::empty());
        }
        while i < content.len()
            invariant
                0 <= i <= content@.len(),
                views(texts@) == text_parts(content@.take(i as int)),
            decreases content@.len() - i,
        {
            proof {
                assert(content@.take(i + 1).drop_last() =~= content@.take(i as int));
            }
            match &content[i] {
                McpContent::Text(t) => {
                    let ghost before = views(texts@);
                    texts.push(t.clone());
                    proof {
                        assert(views(texts@) =~= before.push(t@));
                    }
                },
                _ => {},
            }
            i = i + 1;
        }
        proof {
            assert(content@.take(content@.len() as int) =~= content@);
        }
        let m = join_strings(texts.as_slice(), "\n");
        if chars_of(m.as_str()).len() == 0 {
            return Err(String::from_str("MCP tool returned an error"));
        }
        return Err(m);
    }
    let mut body = String::new();
    let mut i: usize = 0;
    proof {
        assert(content@.take(0) =~= Seq::<McpContent>::empty());
    }
    while i < content.len()
        invariant
            0 <= i <= content@.len(),
            body@ == parts_text(content@.take(i as int)),
        decreases content@.len() - i,
    {
        proof {
            assert(content@.take(i + 1).drop_last() =~= content@.take(i as int));
        }
        match &content[i] {
            McpContent::Text(t) => push_str(&mut body, t.as_str()),
            McpContent::Image { mime_type, data } => {
                push_str(&mut body, "data:");
                push_str(&mut body, mime_type.as_str());
                push_str(&mut body, ";base64,");
                push_str(&mut body, data.as_str());
            },
            McpContent::TextResource(t) => push_str(&mut body, t.as_str()),
            McpContent::BlobResource(b) => push_str(&mut body, b.as_str()),
            McpContent::Other => {
                assert(body@ + Seq::<char>::empty() =~= body@);
            },
        }
        i = i + 1;
    }
    proof {
        assert(content@.take(content@.len() as int) =~= content@);
    }
    match coaching {
        Some(c) => {
            let mut s = String::from_str(c);
            push_str(&mut s, "\n\n");
            push_str(&mut s, body.as_str());
            Ok(s)
        },
        None => Ok(body),
    }
}

/// Where `x` goes among texts already in order: before the first one that
/// comes after it.
pub open spec fn text_insert_pos(t: Seq<Seq<char>>, x: Seq<char>, j: int) -> int
    decreases t.len() - j,
{
    if j < 0 || j >= t.len() {
        t.len() as int
    } else if crate::lsp::lex_lt(x, t[j]) {
        j
    } else {
        text_insert_pos(t, x, j + 1)
    }
}

/// The texts in the order of `String`'s comparison.
pub open spec fn sort_texts(s: Seq<Seq<char>>) -> Seq<Seq<char>>
    decreases s.len(),
{
    if s.len() == 0 {
        s
    } else {
        let t = sort_texts(s.drop_last());
        t.insert(text_insert_pos(t, s.last(), 0), s.last())
    }
}

/// `String`'s order is transitive.
pub proof fn lemma_lex_lt_transitive(a: Seq<char>, b: Seq<char>, c: Seq<char>)
    requires
        crate::lsp::lex_lt(a, b),
        crate::lsp::lex_lt(b, c),
    ensures
        crate::lsp::lex_lt(a, c),
    decreases a.len(),
{
    if a.len() > 0 && b.len() > 0 && c.len() > 0 && a[0] == b[0] && b[0] == c[0] {
        lemma_lex_lt_transitive(a.skip(1), b.skip(1), c.skip(1));
    }
}

/// Texts before the insertion point do not come after `x`; the text at it,
/// if any, does.
proof fn lemma_text_insert_pos_splits(t: Seq<Seq<char>>, x: Seq<char>, j: int)
    requires
        0 <= j <= t.len(),
    ensures
        j <= text_insert_pos(t, x, j) <= t.len(),
        forall|k: int| j <= k < text_insert_pos(t, x, j) ==> !crate::lsp::lex_lt(x, #[trigger] t[k]),
        text_insert_pos(t, x, j) < t.len() ==> crate::lsp::lex_lt(x, t[text_insert_pos(t, x, j)]),
    decreases t.len() - j,
{
    if j < t.len() && !crate::lsp::lex_lt(x, t[j]) {
        lemma_text_insert_pos_splits(t, x, j + 1);
    }
}

/// Whether no text comes after a later one in `String`'s order.
pub open spec fn texts_sorted(s: Seq<Seq<char>>) -> bool {
    forall|i: int, j: int| 0 <= i < j < s.len() ==> !crate::lsp::lex_lt(s[j], s[i])
}

/// [`sort_texts`] is a sort: its result holds the same texts, in order.
pub proof fn lemma_sort_texts_sorts(s: Seq<Seq<char>>)
    ensures
        sort_texts(s).to_multiset() == s.to_multiset(),
        texts_sorted(sort_texts(s)),
    decreases s.len(),
{
    broadcast use vstd::seq_lib::to_multiset_insert, vstd::seq_lib::to_multiset_build;

    if s.len() > 0 {
        let init = s.drop_last();
        let x = s.last();
        lemma_sort_texts_sorts(init);
        let t = sort_texts(init);
        let p = text_insert_pos(t, x, 0);
        lemma_text_insert_pos_splits(t, x, 0);
        let u = t.insert(p, x);
        assert(s =~= init.push(x));
        assert(u.to_multiset() == t.to_multiset().insert(x));
        assert(s.to_multiset() == init.to_multiset().insert(x));
        assert forall|i: int, j: int| 0 <= i < j < u.len() implies !crate::lsp::lex_lt(u[j], u[i]) by {
            if j < p {
            } else if j == p {
                assert(!crate::lsp::lex_lt(x, t[i]));
            } else if i < p {
                assert(u[j] == t[j - 1]);
            } else if i == p {
                assert(u[j] == t[j - 1]);
                if crate::lsp::lex_lt(t[j - 1], x) {
                    lemma_lex_lt_transitive(t[j - 1], x, t[p]);
                    if j - 1 == p {
                        lemma_lex_lt_irreflexive(t[p]);
                    }
                }
            } else {
                assert(u[i] == t[i - 1] && u[j] == t[j - 1]);
            }
        }
    }
}

/// No text comes before itself.
pub proof fn lemma_lex_lt_irreflexive(a: Seq<char>)
    ensures
        !crate::lsp::lex_lt(a, a),
    decreases a.len(),
{
    if a.len() > 0 {
        lemma_lex_lt_irreflexive(a.skip(1));
    }
}

/// The connection notices, sorted.
pub fn sort_notices(notices: Vec<String>) -> (r: Vec<String>)
    ensures
        views(r@) == sort_texts(views(notices@)),
{
    let ghost all = views(notices@);
    let n: usize = notices.len();
    let mut rest = notices;
    let mut out: Vec<String> = Vec::new();
    let mut i: usize = 0;
    proof {
        assert(all.take(0) =~= Seq::<Seq<char>>::empty());
        assert(views(out@) =~= Seq::<Seq<char>>::empty());
        assert(views(rest@) =~= all.skip(0));
    }
    while rest.len() > 0
        invariant
            all.len() == n,
            0 <= i <= n,
            rest@.len() == n - i,
            views(rest@) == all.skip(i as int),
            views(out@) == sort_texts(all.take(i as int)),
        decreases rest@.len(),
    {
        let ghost old_rest = rest@;
        let x = rest.remove(0);
        proof {
            assert(x@ == views(old_rest)[0]);
            assert(views(rest@) =~= all.skip(i + 1)) by {
                assert forall|k: int| 0 <= k < rest@.len() implies #[trigger] views(rest@)[k] == all.skip(i + 1)[k] by {
                    assert(rest@[k] == old_rest[k + 1]);
                    assert(views(old_rest)[k + 1] == all.skip(i as int)[k + 1]);
                }
            }
            assert(all.take(i + 1).drop_last() =~= all.take(i as int));
            assert(all.take(i + 1).last() == all[i as int]);
            assert(all[i as int] == all.skip(i as int)[0]);
        }
        let xc = chars_of(x.as_str());
        let mut j: usize = 0;
        while j < out.len() && !crate::lsp::lex_lt_exec(xc.as_slice(), chars_of(out[j].as_str()).as_slice())
            invariant
                0 <= j <= out@.len(),
                xc@ == x@,
                text_insert_pos(views(out@), x@, 0) == text_insert_pos(views(out@), x@, j as int),
            decreases out@.len() - j,
        {
            j = j + 1;
        }
        let ghost before = views(out@);
        out.insert(j, x);
        proof {
            assert(views(out@) =~= before.insert(j as int, xc@));
        }
        i = i + 1;
    }
    proof {
        assert(all.take(n as int) =~= all);
    }
    out
}


/// How a request to the server failed: whether its transport closed, the
/// seconds after which it timed out, if it did, and how the error describes
/// itself.
#[derive(Debug, Clone)]
pub struct CallFailure {
    pub transport_closed: bool,
    pub timeout_secs: Option<u64>,
    pub text: String,
}

/// Where an MCP tool call stands.
#[derive(Debug, Clone, Copy, PartialEq, Eq, Structural)]
pub enum McpCallPhase {
    /// Waiting for the permission check.
    Checking,
    /// A request is out.
    Sending,
    /// The server is being reconnected after its transport closed.
    Reconnecting,
    Done,
}

/// What the application reports back to an MCP tool call.
#[derive(Debug)]
pub enum McpCallEvent {
    /// The permission check: allowed, with a coaching message or none, or
    /// refused with a message.
    Checked(Result<Option<String>, String>),
    /// The server's answer to the request: whether it is an error, and its
    /// parts; or how the request failed.
    Answered(Result<(Option<bool>, Vec<McpContent>), CallFailure>),
    /// Whether reconnecting the server worked, with the error if not.
    Reconnected(Result<(), String>),
}

/// What an MCP tool call asks the application to do next.
#[derive(Debug, Clone)]
pub enum McpCallAction {
    /// Send the request to the server.
    Send,
    /// Reconnect the server.
    Reconnect,
    /// The call fails with this message.
    Fail(String),
    /// The call succeeds with this text.
    Finish(String),
}

/// One MCP tool call: the server and tool, the coaching of the permission
/// check, how many requests were sent, and where it stands.
pub struct McpCall {
    pub server_name: String,
    pub tool_name: String,
    pub coaching: Option<String>,
    pub sent: u8,
    pub phase: McpCallPhase,
}

impl McpCall {
    /// A call of `tool_name` on `server_name`, waiting for its permission
    /// check (under [`mcp_perm_key`]).
    pub fn new(server_name: &str, tool_name: &str) -> (r: Self)
        ensures
            r.server_name@ == server_name@,
            r.tool_name@ == tool_name@,
            r.coaching is None,
            r.sent == 0,
            r.phase == McpCallPhase::Checking,
    {
        McpCall {
            server_name: String::from_str(server_name),
            tool_name: String::from_str(tool_name),
            coaching: None,
            sent: 0,
            phase: McpCallPhase::Checking,
        }
    }

    /// Handles what the application reports. A refused permission fails
    /// the call; an allowed one sends the request. A request whose
    /// transport closed is retried once, after a reconnect: a failed
    /// reconnect fails the call, a second failure is reported as it is. Any
    /// other failure is reported at once; an answer becomes the result text,
    /// with the coaching message in front. So at most two requests are sent,
    /// the second only after a reconnect.
    pub fn step(&mut self, event: McpCallEvent) -> (r: McpCallAction)
        requires
            old(self).phase == McpCallPhase::Checking ==> event is Checked && old(self).sent == 0,
            old(self).phase == McpCallPhase::Sending ==> event is Answered && 1 <= old(self).sent <= 2,
            old(self).phase == McpCallPhase::Reconnecting ==> event is Reconnected && old(self).sent == 1,
            old(self).phase != McpCallPhase::Done,
        ensures
            final(self).server_name == old(self).server_name,
            final(self).tool_name == old(self).tool_name,
            final(self).sent <= 2,
            r is Send ==> final(self).phase == McpCallPhase::Sending && final(self).sent == old(self).sent
                + 1,
            r is Send && old(self).sent == 1 ==> old(self).phase == McpCallPhase::Reconnecting,
            match event {
                McpCallEvent::Checked(Err(m)) => r matches McpCallAction::Fail(x) && x@ == m@
                    && final(self).phase == McpCallPhase::Done,
                McpCallEvent::Checked(Ok(c)) => r is Send && final(self).coaching == c,
                McpCallEvent::Answered(Err(f)) => if f.transport_closed && old(self).sent == 1 {
                    r is Reconnect && final(self).phase == McpCallPhase::Reconnecting
                        && final(self).sent == 1
                } else {
                    r matches McpCallAction::Fail(x) && x@ == spec_call_error(
                        old(self).server_name@,
                        old(self).tool_name@,
                        f.timeout_secs,
                        f.text@,
                    ) && final(self).phase == McpCallPhase::Done
                },
                McpCallEvent::Answered(Ok((is_error, content))) => final(self).phase
                    == McpCallPhase::Done && match spec_tool_result(
                    is_error,
                    content@,
                    match old(self).coaching {
                        Some(c) => Some(c@),
                        None => None,
                    },
                ) {
                    Ok(t) => r matches McpCallAction::Finish(x) && x@ == t,
                    Err(m) => r matches McpCallAction::Fail(x) && x@ == m,
                },
                McpCallEvent::Reconnected(Err(e)) => r matches McpCallAction::Fail(x) && x@
                    == "MCP server '"@ + old(self).server_name@
                    + "' transport closed and reconnect failed: "@ + e@ && final(self).phase
                    == McpCallPhase::Done,
                McpCallEvent::Reconnected(Ok(())) => r is Send && final(self).coaching
                    == old(self).coaching,
            },
    {
        match event {
            McpCallEvent::Checked(Err(m)) => {
                self.phase = McpCallPhase::Done;
                McpCallAction::Fail(m)
            },
            McpCallEvent::Checked(Ok(c)) => {
                self.coaching = c;
                self.sent = 1;
                self.phase = McpCallPhase::Sending;
                McpCallAction::Send
            },
            McpCallEvent::Answered(Err(f)) => {
                if f.transport_closed && self.sent == 1 {
                    self.phase = McpCallPhase::Reconnecting;
                    McpCallAction::Reconnect
                } else {
                    self.phase = McpCallPhase::Done;
                    McpCallAction::Fail(
                        call_error_message(
                            self.server_name.as_str(),
                            self.tool_name.as_str(),
                            f.timeout_secs,
                            f.text.as_str(),
                        ),
                    )
                }
            },
            McpCallEvent::Answered(Ok((is_error, content))) => {
                self.phase = McpCallPhase::Done;
                let coaching = match &self.coaching {
                    Some(c) => Some(c.as_str()),
                    None => None,
                };
                match tool_result_text(is_error, content.as_slice(), coaching) {
                    Ok(t) => McpCallAction::Finish(t),
                    Err(m) => McpCallAction::Fail(m),
                }
            },
            McpCallEvent::Reconnected(Err(e)) => {
                self.phase = McpCallPhase::Done;
                McpCallAction::Fail(reconnect_failed_message(self.server_name.as_str(), e.as_str()))
            },
            McpCallEvent::Reconnected(Ok(())) => {
                self.sent = 2;
                self.phase = McpCallPhase::Sending;
                McpCallAction::Send
            },
        }
    }
}

} // verus!
