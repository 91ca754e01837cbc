//! Configuration of MCP servers: timeouts, retries and OAuth settings.

use vstd::prelude::*;

use std::time::Duration;

use crate::strmap::{keys_unique, map_insert_if_absent, map_remove, to_map};
use crate::text::{push_chars, push_decimal, push_str};

verus! {

/// The connection timeout used when none is configured, in seconds.
pub const DEFAULT_CONNECT_TIMEOUT_SECS: u64 = 10;

/// The tool-call timeout used when none is configured, in seconds.
pub const DEFAULT_TOOL_TIMEOUT_SECS: u64 = 20;

/// How often a failed connection is retried when nothing is configured.
pub const DEFAULT_CONNECT_RETRIES: u32 = 1;

/// The loopback port of the OAuth redirect when none is configured.
pub const DEFAULT_REDIRECT_PORT: u16 = 8970;

/// The duration `Duration::from_secs(secs)` makes.
pub uninterp spec fn duration_of_secs(secs: u64) -> Duration;

/// `std::time::Duration::from_secs`: a duration of `secs` whole seconds.
#[verifier::external_body]
fn duration_from_secs(secs: u64) -> (d: Duration)
    ensures
        d == duration_of_secs(secs),
{
    Duration::from_secs(secs)
}

/// How an MCP server is reached.
#[derive(Debug, Clone)]
pub enum McpServerConfig {
    /// A child process speaking MCP over stdio.
    Command {
        command: String,
        args: Vec<String>,
        /// Environment variables set for the child, in order.
        env: Vec<(String, String)>,
        /// Timeout for the connection and handshake, in seconds.
        connect_timeout_secs: Option<u64>,
        /// Timeout for individual tool calls, in seconds.
        tool_timeout_secs: Option<u64>,
        /// Number of times a failed connection attempt is retried.
        connect_retries: Option<u32>,
    },
    /// An HTTP endpoint.
    Url {
        url: String,
        /// Headers sent with every request, in order.
        headers: Vec<(String, String)>,
        oauth: Option<OAuthConfig>,
        /// Timeout for the connection and handshake, in seconds.
        connect_timeout_secs: Option<u64>,
        /// Timeout for individual tool calls, in seconds.
        tool_timeout_secs: Option<u64>,
        /// Number of times a failed connection attempt is retried.
        connect_retries: Option<u32>,
    },
}

impl McpServerConfig {
    /// The configured connection timeout, tool timeout and retry count.
    pub open spec fn spec_timeout_fields(&self) -> (Option<u64>, Option<u64>, Option<u32>) {
        match self {
            McpServerConfig::Command {
                connect_timeout_secs,
                tool_timeout_secs,
                connect_retries,
                ..
            } => (*connect_timeout_secs, *tool_timeout_secs, *connect_retries),
            McpServerConfig::Url {
                connect_timeout_secs,
                tool_timeout_secs,
                connect_retries,
                ..
            } => (*connect_timeout_secs, *tool_timeout_secs, *connect_retries),
        }
    }

    fn timeout_fields(&self) -> (r: (Option<u64>, Option<u64>, Option<u32>))
        ensures
            r == self.spec_timeout_fields(),
    {
        match self {
            McpServerConfig::Command {
                connect_timeout_secs,
                tool_timeout_secs,
                connect_retries,
                ..
            } => (*connect_timeout_secs, *tool_timeout_secs, *connect_retries),
            McpServerConfig::Url {
                connect_timeout_secs,
                tool_timeout_secs,
                connect_retries,
                ..
            } => (*connect_timeout_secs, *tool_timeout_secs, *connect_retries),
        }
    }

    /// The connection timeout in seconds: the configured one, else the
    /// default.
    pub open spec fn spec_connect_timeout_secs(&self) -> u64 {
        match self.spec_timeout_fields().0 {
            Some(s) => s,
            None => DEFAULT_CONNECT_TIMEOUT_SECS,
        }
    }

    /// The tool-call timeout in seconds: the configured one, else the
    /// default.
    pub open spec fn spec_tool_timeout_secs(&self) -> u64 {
        match self.spec_timeout_fields().1 {
            Some(s) => s,
            None => DEFAULT_TOOL_TIMEOUT_SECS,
        }
    }

    /// Timeout for establishing the connection and MCP handshake.
    pub fn connect_timeout(&self) -> (d: Duration)
        ensures
            d == duration_of_secs(self.spec_connect_timeout_secs()),
    {
        let secs = match self.timeout_fields().0 {
            Some(s) => s,
            None => DEFAULT_CONNECT_TIMEOUT_SECS,
        };
        duration_from_secs(secs)
    }

    /// Timeout for individual tool calls and tool listing.
    pub fn tool_timeout(&self) -> (d: Duration)
        ensures
            d == duration_of_secs(self.spec_tool_timeout_secs()),
    {
        let secs = match self.timeout_fields().1 {
            Some(s) => s,
            None => DEFAULT_TOOL_TIMEOUT_SECS,
        };
        duration_from_secs(secs)
    }

    /// Number of times a failed connection attempt is retried: the
    /// configured count, else the default.
    pub fn connect_retries(&self) -> (r: u32)
        ensures
            r == match self.spec_timeout_fields().2 {
                Some(n) => n,
                None => DEFAULT_CONNECT_RETRIES,
            },
    {
        match self.timeout_fields().2 {
            Some(n) => n,
            None => DEFAULT_CONNECT_RETRIES,
        }
    }
}

/// OAuth for a URL server: a bare `true`/`false`, or explicit settings.
#[derive(Debug, Clone)]
pub enum OAuthConfig {
    Enabled(bool),
    Settings(OAuthSettings),
}

/// Explicit OAuth settings.
#[derive(Debug, Clone)]
pub struct OAuthSettings {
    /// Scopes to request; empty requests none explicitly.
    pub scopes: Vec<String>,
    /// Pre-registered client id; without one, dynamic registration is used.
    pub client_id: Option<String>,
    /// Loopback port of the redirect URI.
    pub redirect_port: Option<u16>,
}

impl OAuthSettings {
    /// Settings with no scopes, no client id and the default port.
    pub fn empty() -> (r: Self)
        ensures
            r.scopes@.len() == 0,
            r.client_id is None,
            r.redirect_port is None,
    {
        OAuthSettings { scopes: Vec::new(), client_id: None, redirect_port: None }
    }

    /// The redirect port: the configured one, else the default.
    pub open spec fn spec_redirect_port(&self) -> u16 {
        match self.redirect_port {
            Some(p) => p,
            None => DEFAULT_REDIRECT_PORT,
        }
    }

    /// The loopback port the redirect is caught on.
    pub fn redirect_port(&self) -> (r: u16)
        ensures
            r == self.spec_redirect_port(),
    {
        match self.redirect_port {
            Some(p) => p,
            None => DEFAULT_REDIRECT_PORT,
        }
    }

    /// `http://127.0.0.1:<port>/callback`.
    pub open spec fn spec_redirect_uri(&self) -> Seq<char> {
        "http://127.0.0.1:"@ + crate::text::decimal(self.spec_redirect_port() as nat)
            + "/callback"@
    }

    /// The redirect URI registered with the authorization server.
    pub fn redirect_uri(&self) -> (r: String)
        ensures
            r@ == self.spec_redirect_uri(),
    {
        let mut out = String::from_str("http://127.0.0.1:");
        let mut digits: Vec<char> = Vec::new();
        push_decimal(&mut digits, self.redirect_port() as u64);
        push_chars(&mut out, digits.as_slice());
        crate::text::push_str(&mut out, "/callback");
        out
    }
}

impl OAuthConfig {
    /// The settings in force: none when disabled, the defaults for a bare
    /// `true`, the explicit ones otherwise.
    pub fn settings(&self) -> (r: Option<OAuthSettings>)
        ensures
            match self {
                OAuthConfig::Enabled(false) => r is None,
                OAuthConfig::Enabled(true) => r matches Some(s) && s.scopes@.len() == 0
                    && s.client_id is None && s.redirect_port is None,
                OAuthConfig::Settings(s) => r matches Some(t) && t.redirect_port
                    == s.redirect_port && t.client_id == s.client_id && t.scopes@.len()
                    == s.scopes@.len() && forall|i: int|
                    0 <= i < s.scopes@.len() ==> #[trigger] t.scopes@[i] == s.scopes@[i],
            },
    {
        match self {
            OAuthConfig::Enabled(false) => None,
            OAuthConfig::Enabled(true) => Some(OAuthSettings::empty()),
            OAuthConfig::Settings(s) => Some(
                OAuthSettings {
                    scopes: s.scopes.clone(),
                    client_id: s.client_id.clone(),
                    redirect_port: s.redirect_port,
                },
            ),
        }
    }
}


/// The default server entries that can be switched on and off: web search
/// by Exa, Context7 and Grep.app, each with its name, endpoint, and the
/// header its API key goes in, with the text before the key.
pub open spec fn default_server(i: int) -> (Seq<char>, Seq<char>, Seq<char>, Seq<char>) {
    if i == 0 {
        ("Exa Web Search"@, "https://mcp.exa.ai/mcp"@, "x-api-key"@, ""@)
    } else if i == 1 {
        ("Context7"@, "https://mcp.context7.com/mcp"@, "authorization"@, "Bearer "@)
    } else {
        ("Grep.app"@, "https://mcp.grep.app"@, "authorization"@, "Bearer "@)
    }
}

/// Whether `c` is the entry of default server `i`: its endpoint, the API
/// key header when a key is given and no other, no OAuth, no timeouts.
pub open spec fn is_default_entry(c: McpServerConfig, i: int, key: Option<Seq<char>>) -> bool {
    match c {
        McpServerConfig::Url {
            url,
            headers,
            oauth,
            connect_timeout_secs,
            tool_timeout_secs,
            connect_retries,
        } => {
            &&& url@ == default_server(i).1
            &&& oauth is None && connect_timeout_secs is None && tool_timeout_secs is None
                && connect_retries is None
            &&& match key {
                Some(k) => headers@.len() == 1 && headers@[0].0@ == default_server(i).2
                    && headers@[0].1@ == default_server(i).3 + k,
                None => headers@.len() == 0,
            }
        },
        _ => false,
    }
}

/// The entry of default server `i`.
fn default_entry(i: usize, key: Option<String>) -> (r: McpServerConfig)
    requires
        i < 3,
    ensures
        is_default_entry(
            r,
            i as int,
            match key {
                Some(k) => Some(k@),
                None => None,
            },
        ),
{
    let (url, header, prefix) = if i == 0 {
        ("https://mcp.exa.ai/mcp", "x-api-key", "")
    } else if i == 1 {
        ("https://mcp.context7.com/mcp", "authorization", "Bearer ")
    } else {
        ("https://mcp.grep.app", "authorization", "Bearer ")
    };
    let mut headers: Vec<(String, String)> = Vec::new();
    match key {
        Some(k) => {
            let mut v = String::from_str(prefix);
            push_str(&mut v, k.as_str());
            headers.push((String::from_str(header), v));
        },
        None => {},
    }
    McpServerConfig::Url {
        url: String::from_str(url),
        headers,
        oauth: None,
        connect_timeout_secs: None,
        tool_timeout_secs: None,
        connect_retries: None,
    }
}

/// The servers after the defaults are applied to `before`: a default that
/// is switched on is added unless an entry of its name exists (which is
/// kept as it is), one that is switched off is removed; other entries stay.
pub open spec fn defaults_applied(
    after: Map<Seq<char>, McpServerConfig>,
    before: Map<Seq<char>, McpServerConfig>,
    enabled: Seq<bool>,
    keys: Seq<Option<Seq<char>>>,
) -> bool {
    &&& forall|i: int|
        0 <= i < 3 ==> {
            let n = #[trigger] default_server(i).0;
            if enabled[i] {
                after.contains_key(n) && if before.contains_key(n) {
                    after[n] == before[n]
                } else {
                    is_default_entry(after[n], i, keys[i])
                }
            } else {
                !after.contains_key(n)
            }
        }
    &&& forall|k: Seq<char>|
        k != default_server(0).0 && k != default_server(1).0 && k != default_server(2).0 ==> (
        #[trigger] after.contains_key(k) == before.contains_key(k) && (before.contains_key(k)
            ==> after[k] == before[k]))
}

/// Adds the default servers that are switched on and removes those that
/// are switched off. `enabled` tells for Exa, Context7 and Grep.app whether
/// each is on, and `api_keys` gives the API key found for each.
pub fn inject_mcp_defaults(
    servers: Option<Vec<(String, McpServerConfig)>>,
    enabled: [bool; 3],
    api_keys: [Option<String>; 3],
) -> (r: Vec<(String, McpServerConfig)>)
    requires
        servers matches Some(v) ==> keys_unique(v@),
    ensures
        keys_unique(r@),
        defaults_applied(
            to_map(r@),
            match servers {
                Some(v) => to_map(v@),
                None => Map::empty(),
            },
            enabled@,
            api_keys@.map_values(
                |k: Option<String>|
                    match k {
                        Some(s) => Some(s@),
                        None => None,
                    },
            ),
        ),
{
    let mut m = match servers {
        Some(v) => v,
        None => Vec::new(),
    };
    let ghost before = to_map(m@);
    let ghost kv = api_keys@.map_values(
        |k: Option<String>|
            match k {
                Some(s) => Some(s@),
                None => None,
            },
    );
    proof {
        reveal_strlit("Exa Web Search");
        reveal_strlit("Context7");
        reveal_strlit("Grep.app");
        assert(default_server(0).0[0] == 'E' && default_server(1).0[0] == 'C' && default_server(2).0[0] == 'G');
        assert(default_server(0).0 != default_server(1).0);
        assert(default_server(0).0 != default_server(2).0);
        assert(default_server(1).0 != default_server(2).0);
    }
    let mut keys = api_keys;
    let mut i: usize = 0;
    while i < 3
        invariant
            0 <= i <= 3,
            keys_unique(m@),
            forall|j: int| i <= j < 3 ==> #[trigger] keys@[j] == api_keys@[j],
            kv == api_keys@.map_values(
                |k: Option<String>|
                    match k {
                        Some(s) => Some(s@),
                        None => None,
                    },
            ),
            default_server(0).0 != default_server(1).0,
            default_server(0).0 != default_server(2).0,
            default_server(1).0 != default_server(2).0,
            forall|j: int|
                0 <= j < i ==> {
                    let n = #[trigger] default_server(j).0;
                    if enabled@[j] {
                        to_map(m@).contains_key(n) && if before.contains_key(n) {
                            to_map(m@)[n] == before[n]
                        } else {
                            is_default_entry(to_map(m@)[n], j, kv[j])
                        }
                    } else {
                        !to_map(m@).contains_key(n)
                    }
                },
            forall|j: int| i <= j < 3 ==> to_map(m@).contains_key(#[trigger] default_server(j).0) == before.contains_key(default_server(j).0)
                && (before.contains_key(default_server(j).0) ==> to_map(m@)[default_server(j).0] == before[default_server(j).0]),
            forall|k: Seq<char>|
                k != default_server(0).0 && k != default_server(1).0 && k != default_server(2).0
                    ==> (#[trigger] to_map(m@).contains_key(k) == before.contains_key(k) && (before.contains_key(k)
                    ==> to_map(m@)[k] == before[k])),
        decreases 3 - i,
    {
        let name = if i == 0 {
            "Exa Web Search"
        } else if i == 1 {
            "Context7"
        } else {
            "Grep.app"
        };
        assert(name@ == default_server(i as int).0);
        let ghost prev = to_map(m@);
        if enabled[i] {
            let mut key: Option<String> = None;
            std::mem::swap(&mut key, &mut keys[i]);
            let entry = default_entry(i, key);
            map_insert_if_absent(&mut m, String::from_str(name), entry);
        } else {
            map_remove(&mut m, name);
        }
        proof {
            assert forall|k: Seq<char>| k != name@ implies #[trigger] to_map(m@).contains_key(k) == prev.contains_key(k)
                && (prev.contains_key(k) ==> to_map(m@)[k] == prev[k]) by {
            }
        }
        i = i + 1;
    }
    m
}

/// The servers without the default entries, as a configuration is saved:
/// the defaults are added again when it is loaded.
pub fn strip_mcp_defaults(servers: Vec<(String, McpServerConfig)>) -> (r: Vec<(String, McpServerConfig)>)
    requires
        keys_unique(servers@),
    ensures
        keys_unique(r@),
        to_map(r@) == to_map(servers@).remove(default_server(0).0).remove(default_server(1).0).remove(
            default_server(2).0,
        ),
{
    let mut m = servers;
    map_remove(&mut m, "Exa Web Search");
    map_remove(&mut m, "Context7");
    map_remove(&mut m, "Grep.app");
    m
}


/// The servers with the three default names taken out.
pub open spec fn without_defaults(m: Map<Seq<char>, McpServerConfig>) -> Map<Seq<char>, McpServerConfig> {
    m.remove(default_server(0).0).remove(default_server(1).0).remove(default_server(2).0)
}

/// The defaults never reach the saved configuration: whatever applying the
/// defaults added or removed, taking the default names out again gives the
/// user's own entries, exactly as they were before.
pub proof fn lemma_defaults_not_saved(
    after: Map<Seq<char>, McpServerConfig>,
    before: Map<Seq<char>, McpServerConfig>,
    enabled: Seq<bool>,
    keys: Seq<Option<Seq<char>>>,
)
    requires
        defaults_applied(after, before, enabled, keys),
    ensures
        without_defaults(after) == without_defaults(before),
{
    assert(without_defaults(after) =~= without_defaults(before));
}

} // verus!
