//! Language servers: the built-in defaults, how user configuration
//! overrides them, which server handles a file, and how their diagnostics
//! are reported to the agent.

use vstd::prelude::*;

use crate::config::LspServerConfig;
use crate::layers::file_extension;
use crate::strmap::{keys_unique, map_insert, map_remove, to_map};
use crate::text::{
    ascii_lower_seq, chars_of, decimal, join_seq, lines_seq, push_chars, push_decimal, push_str, split_seq,
    starts_with, views,
};

verus! {

/// A built-in server: name, command, arguments and extensions.
pub open spec fn builtin_table() -> Seq<(Seq<char>, Seq<char>, Seq<Seq<char>>, Seq<Seq<char>>)> {
    seq![
        ("rust"@, "rust-analyzer"@, seq![], seq![".rs"@]),
        ("go"@, "gopls"@, seq![], seq![".go"@]),
        (
            "typescript"@,
            "typescript-language-server"@,
            seq!["--stdio"@],
            seq![".ts"@, ".tsx"@, ".js"@, ".jsx"@, ".mjs"@, ".cjs"@, ".mts"@, ".cts"@],
        ),
        ("python"@, "pyright-langserver"@, seq!["--stdio"@], seq![".py"@, ".pyi"@]),
        (
            "clangd"@,
            "clangd"@,
            seq![],
            seq![".c"@, ".h"@, ".cpp"@, ".cc"@, ".cxx"@, ".hpp"@, ".hh"@, ".hxx"@],
        ),
        ("bash"@, "bash-language-server"@, seq!["start"@], seq![".sh"@, ".bash"@, ".zsh"@]),
        ("lua"@, "lua-language-server"@, seq![], seq![".lua"@]),
    ]
}

/// Whether a server configuration is the plain one built from a command,
/// arguments and extensions: no environment, no initialization options,
/// not disabled.
pub open spec fn plain_server(
    c: LspServerConfig,
    command: Seq<char>,
    args: Seq<Seq<char>>,
    extensions: Seq<Seq<char>>,
) -> bool {
    &&& c.command@ == command
    &&& views(c.args@) == args
    &&& views(c.extensions@) == extensions
    &&& c.env@.len() == 0
    &&& c.initialization is None
    &&& !c.disabled
}

/// The strings of `items`.
fn strings(items: &[&str]) -> (r: Vec<String>)
    ensures
        r@.len() == items@.len(),
        forall|i: int| 0 <= i < r@.len() ==> (#[trigger] r@[i])@ == items@[i]@,
{
    let mut v: Vec<String> = Vec::new();
    let mut i: usize = 0;
    while i < items.len()
        invariant
            0 <= i <= items@.len(),
            v@.len() == i,
            forall|j: int| 0 <= j < i ==> (#[trigger] v@[j])@ == items@[j]@,
        decreases items@.len() - i,
    {
        v.push(String::from_str(items[i]));
        i = i + 1;
    }
    v
}

/// A plain server configuration.
fn server(command: &str, args: &[&str], extensions: &[&str]) -> (r: LspServerConfig)
    ensures
        r.command@ == command@,
        r.args@.len() == args@.len(),
        forall|i: int| 0 <= i < args@.len() ==> (#[trigger] r.args@[i])@ == args@[i]@,
        r.extensions@.len() == extensions@.len(),
        forall|i: int| 0 <= i < extensions@.len() ==> (#[trigger] r.extensions@[i])@ == extensions@[i]@,
        r.env@.len() == 0,
        r.initialization is None,
        !r.disabled,
{
    LspServerConfig {
        command: String::from_str(command),
        args: strings(args),
        extensions: strings(extensions),
        env: Vec::new(),
        initialization: None,
        disabled: false,
    }
}

/// The servers used by default when language servers are enabled, each only
/// if its binary is found when it is needed.
pub fn builtin_servers() -> (r: Vec<(String, LspServerConfig)>)
    ensures
        r@.len() == builtin_table().len(),
        forall|i: int|
            0 <= i < r@.len() ==> (#[trigger] r@[i]).0@ == builtin_table()[i].0 && plain_server(
                r@[i].1,
                builtin_table()[i].1,
                builtin_table()[i].2,
                builtin_table()[i].3,
            ),
{
    let mut v: Vec<(String, LspServerConfig)> = Vec::new();
    v.push((String::from_str("rust"), server("rust-analyzer", &[], &[".rs"])));
    v.push((String::from_str("go"), server("gopls", &[], &[".go"])));
    v.push(
        (
            String::from_str("typescript"),
            server(
                "typescript-language-server",
                &["--stdio"],
                &[".ts", ".tsx", ".js", ".jsx", ".mjs", ".cjs", ".mts", ".cts"],
            ),
        ),
    );
    v.push(
        (String::from_str("python"), server("pyright-langserver", &["--stdio"], &[".py", ".pyi"])),
    );
    v.push(
        (
            String::from_str("clangd"),
            server("clangd", &[], &[".c", ".h", ".cpp", ".cc", ".cxx", ".hpp", ".hh", ".hxx"]),
        ),
    );
    v.push(
        (
            String::from_str("bash"),
            server("bash-language-server", &["start"], &[".sh", ".bash", ".zsh"]),
        ),
    );
    v.push((String::from_str("lua"), server("lua-language-server", &[], &[".lua"])));
    proof {
        assert forall|i: int| 0 <= i < v@.len() implies (#[trigger] v@[i]).0@ == builtin_table()[i].0
            && plain_server(v@[i].1, builtin_table()[i].1, builtin_table()[i].2, builtin_table()[i].3) by {
            assert(views(v@[i].1.args@) =~= builtin_table()[i].2);
            assert(views(v@[i].1.extensions@) =~= builtin_table()[i].3);
        }
    }
    v
}

/// Whether a user entry keeps its server: it is not disabled and names a
/// command.
pub open spec fn server_enabled(c: LspServerConfig) -> bool {
    !c.disabled && c.command@.len() > 0
}

/// Whether `k` names a built-in server.
pub open spec fn is_builtin(k: Seq<char>) -> bool {
    exists|i: int| 0 <= i < builtin_table().len() && #[trigger] builtin_table()[i].0 == k
}

/// Whether the resolved servers have one named `k`: the user's entry
/// decides when there is one, else whether a built-in has the name.
pub open spec fn resolved_has(k: Seq<char>, user: Map<Seq<char>, LspServerConfig>) -> bool {
    if user.contains_key(k) {
        server_enabled(user[k])
    } else {
        is_builtin(k)
    }
}

/// What the resolution promises of `v` for the user entries `user`.
pub open spec fn resolution_of(v: Seq<(String, LspServerConfig)>, user: Map<Seq<char>, LspServerConfig>) -> bool {
    &&& keys_unique(v)
    &&& forall|k: Seq<char>| #[trigger] to_map(v).contains_key(k) <==> resolved_has(k, user)
    &&& forall|k: Seq<char>|
        #![trigger to_map(v)[k]]
        user.contains_key(k) && server_enabled(user[k]) ==> to_map(v)[k] == user[k]
    &&& forall|i: int|
        0 <= i < builtin_table().len() && !user.contains_key(#[trigger] builtin_table()[i].0)
            ==> plain_server(
            to_map(v)[builtin_table()[i].0],
            builtin_table()[i].1,
            builtin_table()[i].2,
            builtin_table()[i].3,
        )
}

/// The servers to use: the built-ins with the user's entries over them. A
/// user entry replaces the built-in of the same name or adds a server; one
/// that is disabled or names no command removes the server of its name.
pub fn resolve_servers(user: Vec<(String, LspServerConfig)>) -> (r: Vec<(String, LspServerConfig)>)
    requires
        keys_unique(user@),
    ensures
        resolution_of(r@, to_map(user@)),
{
    let mut v = builtin_servers();
    proof {
        reveal_strlit("rust");
        reveal_strlit("go");
        reveal_strlit("typescript");
        reveal_strlit("python");
        reveal_strlit("clangd");
        reveal_strlit("bash");
        reveal_strlit("lua");
        let t = builtin_table();
        assert(t[0].0[0] == 'r' && t[1].0[0] == 'g' && t[2].0[0] == 't' && t[3].0[0] == 'p');
        assert(t[4].0[0] == 'c' && t[5].0[0] == 'b' && t[6].0[0] == 'l');
        assert forall|a: int, b: int| 0 <= a < b < v@.len() implies v@[a].0@ != v@[b].0@ by {
            assert(v@[a].0@[0] == t[a].0[0]);
            assert(v@[b].0@[0] == t[b].0[0]);
        }
        assert forall|k: Seq<char>| #[trigger] to_map(v@).contains_key(k) <==> is_builtin(k) by {
            if to_map(v@).contains_key(k) {
                crate::strmap::lemma_to_map_keys(v@, k);
                let i = choose|i: int| 0 <= i < v@.len() && #[trigger] v@[i].0@ == k;
                assert(builtin_table()[i].0 == k);
            }
            if is_builtin(k) {
                let i = choose|i: int| 0 <= i < builtin_table().len() && #[trigger] builtin_table()[i].0 == k;
                crate::strmap::lemma_to_map_index(v@, i);
            }
        }
        assert forall|i: int| 0 <= i < builtin_table().len() implies plain_server(
            to_map(v@)[#[trigger] builtin_table()[i].0],
            builtin_table()[i].1,
            builtin_table()[i].2,
            builtin_table()[i].3,
        ) by {
            crate::strmap::lemma_to_map_index(v@, i);
        }
        assert(to_map(user@.take(0)) =~= Map::<Seq<char>, LspServerConfig>::empty());
    }
    let ghost all = user@;
    let n: usize = user.len();
    let mut rest = user;
    let mut i: usize = 0;
    while rest.len() > 0
        invariant
            keys_unique(all),
            all.len() == n,
            0 <= i <= n,
            rest@ == all.skip(i as int),
            resolution_of(v@, to_map(all.take(i as int))),
        decreases rest@.len(),
    {
        let ghost p = to_map(all.take(i as int));
        let (name, cfg) = rest.remove(0);
        proof {
            assert(all[i as int] == (name, cfg)) by {
                assert(all.skip(i as int)[0] == all[i as int]);
            }
            assert(all.take(i + 1).drop_last() =~= all.take(i as int));
            assert(to_map(all.take(i + 1)) == p.insert(name@, cfg));
            assert(rest@ =~= all.skip(i + 1));
            assert forall|j: int| 0 <= j < all.take(i as int).len() implies #[trigger] all.take(i as int)[j].0@ != name@ by {
                assert(all.take(i as int)[j] == all[j]);
            }
            crate::strmap::lemma_to_map_absent(all.take(i as int), name@);
        }
        let ghost key = name@;
        if cfg.disabled || chars_of(cfg.command.as_str()).len() == 0 {
            map_remove(&mut v, name.as_str());
            proof {
                let q = p.insert(key, cfg);
                assert forall|k: Seq<char>| #[trigger] to_map(v@).contains_key(k) <==> resolved_has(k, q) by {
                    if k != key {
                        assert(resolved_has(k, q) == resolved_has(k, p));
                    }
                }
                assert forall|j: int|
                    0 <= j < builtin_table().len() && !q.contains_key(#[trigger] builtin_table()[j].0) implies plain_server(
                    to_map(v@)[builtin_table()[j].0],
                    builtin_table()[j].1,
                    builtin_table()[j].2,
                    builtin_table()[j].3,
                ) by {
                    assert(!p.contains_key(builtin_table()[j].0));
                }
            }
        } else {
            map_insert(&mut v, name, cfg);
            proof {
                let q = p.insert(key, cfg);
                assert forall|k: Seq<char>| #[trigger] to_map(v@).contains_key(k) <==> resolved_has(k, q) by {
                    if k != key {
                        assert(resolved_has(k, q) == resolved_has(k, p));
                    }
                }
                assert forall|j: int|
                    0 <= j < builtin_table().len() && !q.contains_key(#[trigger] builtin_table()[j].0) implies plain_server(
                    to_map(v@)[builtin_table()[j].0],
                    builtin_table()[j].1,
                    builtin_table()[j].2,
                    builtin_table()[j].3,
                ) by {
                    assert(!p.contains_key(builtin_table()[j].0));
                }
            }
        }
        i = i + 1;
    }
    proof {
        assert(all.take(n as int) =~= all);
    }
    v
}

/// The components of a path that name something: the pieces between `/`
/// that are neither empty nor `.`.
pub open spec fn named_components(parts: Seq<Seq<char>>) -> Seq<Seq<char>>
    decreases parts.len(),
{
    if parts.len() == 0 {
        parts
    } else {
        let r = named_components(parts.drop_last());
        let x = parts.last();
        if x.len() == 0 || x == "."@ {
            r
        } else {
            r.push(x)
        }
    }
}

/// The file name of a path, as `Path::file_name` gives it: its last named
/// component, unless that is `..`.
pub open spec fn path_file_name(p: Seq<char>) -> Option<Seq<char>> {
    let k = named_components(split_seq(p, '/'));
    if k.len() == 0 || k.last() == ".."@ {
        None
    } else {
        Some(k.last())
    }
}

/// The extension a server must list to handle the path: a dot and the
/// path's extension in ASCII lower case.
pub open spec fn path_dot_ext(p: Seq<char>) -> Option<Seq<char>> {
    match path_file_name(p) {
        None => None,
        Some(n) => match file_extension(n) {
            None => None,
            Some(e) => Some("."@ + ascii_lower_seq(e)),
        },
    }
}

/// Whether a server lists the extension `e`.
pub open spec fn claims(c: LspServerConfig, e: Seq<char>) -> bool {
    exists|j: int| 0 <= j < c.extensions@.len() && (#[trigger] c.extensions@[j])@ == e
}

/// The first server from position `i` on that lists `e`.
pub open spec fn first_claiming(servers: Seq<(String, LspServerConfig)>, e: Seq<char>, i: int) -> Option<int>
    decreases servers.len() - i,
{
    if i < 0 || i >= servers.len() {
        None
    } else if claims(servers[i].1, e) {
        Some(i)
    } else {
        first_claiming(servers, e, i + 1)
    }
}

/// The file name of a path.
pub(crate) fn path_file_name_exec(p: &str) -> (r: Option<Vec<char>>)
    ensures
        match r {
            Some(n) => path_file_name(p@) == Some(n@),
            None => path_file_name(p@) is None,
        },
{
    let cs = chars_of(p);
    let parts = crate::text::split_chars(cs.as_slice(), '/');
    let dot = chars_of(".");
    let dotdot = chars_of("..");
    let ghost sp = split_seq(p@, '/');
    let mut last: Option<Vec<char>> = None;
    let mut i: usize = 0;
    proof {
        assert(sp.take(0) =~= Seq::<Seq<char>>::empty());
    }
    while i < parts.len()
        invariant
            cs@ == p@,
            sp == split_seq(p@, '/'),
            parts@.len() == sp.len(),
            forall|k: int| 0 <= k < parts@.len() ==> #[trigger] parts@[k]@ == sp[k],
            dot@ == "."@,
            0 <= i <= parts@.len(),
            match last {
                Some(x) => named_components(sp.take(i as int)).len() > 0 && named_components(
                    sp.take(i as int),
                ).last() == x@,
                None => named_components(sp.take(i as int)).len() == 0,
            },
        decreases parts@.len() - i,
    {
        proof {
            assert(sp.take(i + 1).drop_last() =~= sp.take(i as int));
        }
        let part = &parts[i];
        if part.len() > 0 && !crate::text::chars_equal(part.as_slice(), dot.as_slice()) {
            last = Some(part.clone());
        }
        i = i + 1;
    }
    proof {
        assert(sp.take(parts@.len() as int) =~= sp);
    }
    match last {
        Some(x) => {
            if crate::text::chars_equal(x.as_slice(), dotdot.as_slice()) {
                None
            } else {
                Some(x)
            }
        },
        None => None,
    }
}

/// The extension, dot included and in ASCII lower case, that selects the
/// server for a path.
pub fn path_dot_ext_exec(p: &str) -> (r: Option<String>)
    ensures
        match r {
            Some(e) => path_dot_ext(p@) == Some(e@),
            None => path_dot_ext(p@) is None,
        },
{
    match path_file_name_exec(p) {
        None => None,
        Some(name) => {
            let s = crate::text::string_from_chars(name.as_slice());
            match crate::layers::extension_of(s.as_str()) {
                None => None,
                Some(e) => {
                    let ecs = chars_of(e.as_str());
                    let lower = crate::text::ascii_lower_chars(ecs.as_slice());
                    let mut out = String::from_str(".");
                    push_chars(&mut out, lower.as_slice());
                    Some(out)
                },
            }
        },
    }
}

/// The first server that lists the path's extension.
pub fn server_for_path<'a>(servers: &'a [(String, LspServerConfig)], path: &str) -> (r: Option<
    &'a (String, LspServerConfig),
>)
    ensures
        match path_dot_ext(path@) {
            None => r is None,
            Some(e) => match first_claiming(servers@, e, 0) {
                Some(i) => r == Some(&servers@[i]),
                None => r is None,
            },
        },
{
    let e = match path_dot_ext_exec(path) {
        Some(e) => e,
        None => {
            return None;
        },
    };
    let mut i: usize = 0;
    while i < servers.len()
        invariant
            0 <= i <= servers@.len(),
            path_dot_ext(path@) == Some(e@),
            first_claiming(servers@, e@, 0) == first_claiming(servers@, e@, i as int),
        decreases servers@.len() - i,
    {
        let exts = &servers[i].1.extensions;
        let mut j: usize = 0;
        let mut found = false;
        while j < exts.len()
            invariant
                0 <= j <= exts@.len(),
                found ==> claims(servers@[i as int].1, e@),
                !found ==> forall|k: int| 0 <= k < j ==> (#[trigger] exts@[k])@ != e@,
                exts@ == servers@[i as int].1.extensions@,
            decreases exts@.len() - j,
        {
            if crate::text::str_eq(exts[j].as_str(), e.as_str()) {
                assert(servers@[i as int].1.extensions@[j as int]@ == e@);
                found = true;
            }
            j = j + 1;
        }
        if found {
            assert(first_claiming(servers@, e@, i as int) == Some(i as int));
            return Some(&servers[i]);
        }
        assert(!claims(servers@[i as int].1, e@));
        i = i + 1;
    }
    None
}

/// Whether some server handles the path.
pub fn handles(servers: &[(String, LspServerConfig)], path: &str) -> (r: bool)
    ensures
        r == match path_dot_ext(path@) {
            None => false,
            Some(e) => first_claiming(servers@, e, 0) is Some,
        },
{
    server_for_path(servers, path).is_some()
}

/// A diagnostic as the agent sees it: its severity (1 error, 2 warning,
/// 3 information, 4 hint, as the protocol numbers them; possibly absent),
/// where it starts (zero-based line and character) and its message.
#[derive(Debug, Clone)]
pub struct Diagnostic {
    pub severity: Option<i32>,
    pub line: u32,
    pub character: u32,
    pub message: String,
}

/// The diagnostics one server published for one file.
#[derive(Debug)]
pub struct FileDiagnostics {
    pub uri: String,
    pub server: String,
    pub diagnostics: Vec<Diagnostic>,
}

/// The most diagnostic lines a report holds.
pub const MAX_DIAG_LINES: usize = 20;

/// The word for a severity.
pub open spec fn severity_name(s: Option<i32>) -> Seq<char> {
    match s {
        Some(1) => "error"@,
        Some(2) => "warning"@,
        Some(3) => "info"@,
        _ => "hint"@,
    }
}

/// Only errors and warnings are reported.
pub open spec fn reportable(s: Option<i32>) -> bool {
    s == Some(1i32) || s == Some(2i32)
}

/// The severity order: absent first, then by number.
pub open spec fn severity_le(a: Option<i32>, b: Option<i32>) -> bool {
    match (a, b) {
        (None, _) => true,
        (Some(_), None) => false,
        (Some(x), Some(y)) => x <= y,
    }
}

/// The first line of a message, or nothing.
pub open spec fn first_line(m: Seq<char>) -> Seq<char> {
    if lines_seq(m).len() > 0 {
        lines_seq(m)[0]
    } else {
        Seq::empty()
    }
}

/// One report line: where (after `prefix:` when there is a prefix; line
/// and column counted from 1), the severity, and the first 200 characters
/// of the first line of the message.
pub open spec fn diag_line(prefix: Seq<char>, d: Diagnostic) -> Seq<char> {
    let at = decimal(d.line as nat + 1) + ":"@ + decimal(d.character as nat + 1);
    let where_ = if prefix.len() == 0 {
        at
    } else {
        prefix + ":"@ + at
    };
    "\n  "@ + where_ + " "@ + severity_name(d.severity) + ": "@ + crate::edit::first_chars(
        first_line(d.message@),
        200,
    )
}

/// Whether a diagnostic's position can be counted from 1.
pub open spec fn position_fits(d: Diagnostic) -> bool {
    d.line < u32::MAX && d.character < u32::MAX
}

/// Formats one diagnostic.
pub fn format_diag_line(prefix: &str, d: &Diagnostic) -> (r: String)
    requires
        position_fits(*d),
    ensures
        r@ == diag_line(prefix@, *d),
{
    let severity = match d.severity {
        Some(1) => "error",
        Some(2) => "warning",
        Some(3) => "info",
        _ => "hint",
    };
    let mut at: Vec<char> = Vec::new();
    push_decimal(&mut at, (d.line + 1) as u64);
    at.push(':');
    push_decimal(&mut at, (d.character + 1) as u64);
    let mcs = chars_of(d.message.as_str());
    let lines = crate::text::lines_of(mcs.as_slice());
    let first: Vec<char> = if lines.len() > 0 {
        lines[0].clone()
    } else {
        Vec::new()
    };
    let stop = if first.len() > 200 {
        200
    } else {
        first.len()
    };
    let shown = crate::text::slice_range(first.as_slice(), 0, stop);
    let mut out = String::from_str("\n  ");
    if chars_of(prefix).len() > 0 {
        push_str(&mut out, prefix);
        push_str(&mut out, ":");
    }
    push_chars(&mut out, at.as_slice());
    push_str(&mut out, " ");
    push_str(&mut out, severity);
    push_str(&mut out, ": ");
    push_chars(&mut out, shown.as_slice());
    proof {
        assert(first@ == first_line(d.message@));
        assert(shown@ =~= crate::edit::first_chars(first@, 200));
        assert(at@ =~= decimal(d.line as nat + 1) + ":"@ + decimal(d.character as nat + 1)) by {
            reveal_strlit(":");
        }
    }
    out
}

/// The reportable diagnostics, in order.
pub open spec fn filter_reportable(ds: Seq<Diagnostic>) -> Seq<Diagnostic>
    decreases ds.len(),
{
    if ds.len() == 0 {
        ds
    } else {
        let r = filter_reportable(ds.drop_last());
        if reportable(ds.last().severity) {
            r.push(ds.last())
        } else {
            r
        }
    }
}

/// Where a diagnostic of severity `s` goes in a list ordered by severity:
/// before the first entry whose severity orders strictly after `s`, so
/// that equal ones keep their order.
pub open spec fn severity_insert_pos(t: Seq<Diagnostic>, s: Option<i32>, j: int) -> int
    decreases t.len() - j,
{
    if j < 0 || j >= t.len() {
        t.len() as int
    } else if !severity_le(t[j].severity, s) {
        j
    } else {
        severity_insert_pos(t, s, j + 1)
    }
}

/// The diagnostics ordered by severity, equal ones in their order: a
/// stable sort.
pub open spec fn sort_by_severity(ds: Seq<Diagnostic>) -> Seq<Diagnostic>
    decreases ds.len(),
{
    if ds.len() == 0 {
        ds
    } else {
        let t = sort_by_severity(ds.drop_last());
        t.insert(severity_insert_pos(t, ds.last().severity, 0), ds.last())
    }
}

/// The report of one file: a heading naming the server, then a line for
/// each reportable diagnostic, most severe first, at most twenty, with a
/// note when some were left out; nothing when none is reportable.
pub open spec fn spec_file_report(server: Seq<char>, ds: Seq<Diagnostic>) -> Option<Seq<char>> {
    let sorted = sort_by_severity(filter_reportable(ds));
    let lines = sorted.map_values(|d: Diagnostic| diag_line(Seq::empty(), d));
    if lines.len() == 0 {
        None
    } else {
        let shown = if lines.len() > 20 {
            lines.take(20)
        } else {
            lines
        };
        Some(
            "\n\nLSP diagnostics ("@ + server + "):"@ + join_seq(shown, Seq::empty()) + if lines.len()
                > 20 {
                "\n  \u{2026} (truncated)"@
            } else {
                Seq::empty()
            },
        )
    }
}

/// An exact copy of a diagnostic.
fn copy_diag(d: &Diagnostic) -> (r: Diagnostic)
    ensures
        r == *d,
{
    Diagnostic { severity: d.severity, line: d.line, character: d.character, message: d.message.clone() }
}

/// Whether severity `a` orders no later than `b`.
fn severity_le_exec(a: Option<i32>, b: Option<i32>) -> (r: bool)
    ensures
        r == severity_le(a, b),
{
    match (a, b) {
        (None, _) => true,
        (Some(_), None) => false,
        (Some(x), Some(y)) => x <= y,
    }
}

/// Entries before the insertion point order no later than `s`; the entry
/// at it, if any, orders strictly after.
proof fn lemma_severity_insert_pos_splits(t: Seq<Diagnostic>, s: Option<i32>, j: int)
    requires
        0 <= j <= t.len(),
    ensures
        j <= severity_insert_pos(t, s, j) <= t.len(),
        forall|k: int| j <= k < severity_insert_pos(t, s, j) ==> severity_le(#[trigger] t[k].severity, s),
        severity_insert_pos(t, s, j) < t.len() ==> !severity_le(t[severity_insert_pos(t, s, j)].severity, s),
    decreases t.len() - j,
{
    if j < t.len() && severity_le(t[j].severity, s) {
        lemma_severity_insert_pos_splits(t, s, j + 1);
    }
}

/// Whether diagnostics run from the most severe to the least.
pub open spec fn severity_sorted(ds: Seq<Diagnostic>) -> bool {
    forall|i: int, j: int| 0 <= i < j < ds.len() ==> severity_le(ds[i].severity, ds[j].severity)
}

/// [`sort_by_severity`] is a sort: its result holds the same diagnostics,
/// the most severe first.
pub proof fn lemma_sort_by_severity_sorts(ds: Seq<Diagnostic>)
    ensures
        sort_by_severity(ds).to_multiset() == ds.to_multiset(),
        severity_sorted(sort_by_severity(ds)),
    decreases ds.len(),
{
    broadcast use vstd::seq_lib::to_multiset_insert, vstd::seq_lib::to_multiset_build;

    if ds.len() > 0 {
        let init = ds.drop_last();
        let x = ds.last();
        lemma_sort_by_severity_sorts(init);
        let t = sort_by_severity(init);
        let p = severity_insert_pos(t, x.severity, 0);
        lemma_severity_insert_pos_splits(t, x.severity, 0);
        let u = t.insert(p, x);
        assert(ds =~= init.push(x));
        assert(u.to_multiset() == t.to_multiset().insert(x));
        assert(ds.to_multiset() == init.to_multiset().insert(x));
        assert forall|i: int, j: int| 0 <= i < j < u.len() implies severity_le(
            u[i].severity,
            u[j].severity,
        ) by {
            if j < p {
            } else if j == p {
                assert(severity_le(t[i].severity, x.severity));
            } else if i < p {
                assert(u[j] == t[j - 1]);
            } else if i == p {
                assert(u[j] == t[j - 1]);
                assert(!severity_le(t[p].severity, x.severity));
                assert(severity_le(t[p].severity, t[j - 1].severity));
            } else {
                assert(u[i] == t[i - 1] && u[j] == t[j - 1]);
            }
        }
    }
}

/// The reportable diagnostics ordered by severity.
fn sorted_reportable(ds: &[Diagnostic]) -> (r: Vec<Diagnostic>)
    ensures
        r@ == sort_by_severity(filter_reportable(ds@)),
{
    let mut out: Vec<Diagnostic> = Vec::new();
    let mut kept: Vec<Diagnostic> = Vec::new();
    let mut i: usize = 0;
    proof {
        assert(ds@.take(0) =~= Seq::<Diagnostic>::empty());
    }
    while i < ds.len()
        invariant
            0 <= i <= ds@.len(),
            kept@ == filter_reportable(ds@.take(i as int)),
        decreases ds@.len() - i,
    {
        proof {
            assert(ds@.take(i + 1).drop_last() =~= ds@.take(i as int));
        }
        let keep = match ds[i].severity {
            None => false,
            Some(v) => v == 1 || v == 2,
        };
        if keep {
            kept.push(copy_diag(&ds[i]));
        }
        i = i + 1;
    }
    proof {
        assert(ds@.take(ds@.len() as int) =~= ds@);
    }
    let ghost kv = kept@;
    let mut k: usize = 0;
    proof {
        assert(kv.take(0) =~= Seq::<Diagnostic>::empty());
    }
    while k < kept.len()
        invariant
            kept@ == kv,
            0 <= k <= kv.len(),
            out@ == sort_by_severity(kv.take(k as int)),
        decreases kv.len() - k,
    {
        let x = copy_diag(&kept[k]);
        let mut j: usize = 0;
        while j < out.len() && severity_le_exec(out[j].severity, x.severity)
            invariant
                0 <= j <= out@.len(),
                severity_insert_pos(out@, x.severity, 0) == severity_insert_pos(out@, x.severity, j as int),
            decreases out@.len() - j,
        {
            j = j + 1;
        }
        proof {
            assert(kv.take(k + 1).drop_last() =~= kv.take(k as int));
            assert(kv.take(k + 1).last() == kv[k as int]);
        }
        out.insert(j, x);
        k = k + 1;
    }
    proof {
        assert(kv.take(kv.len() as int) =~= kv);
    }
    out
}

/// Whether every diagnostic's position can be counted from 1.
pub open spec fn positions_fit(ds: Seq<Diagnostic>) -> bool {
    forall|i: int| 0 <= i < ds.len() ==> position_fits(#[trigger] ds[i])
}

/// The diagnostics a report lists have positions countable from 1.
proof fn lemma_sorted_positions_fit(ds: Seq<Diagnostic>)
    requires
        positions_fit(ds),
    ensures
        positions_fit(sort_by_severity(filter_reportable(ds))),
{
    lemma_filter_fits(ds);
    lemma_sort_fits(filter_reportable(ds));
}

/// Filtering keeps every position countable from 1.
proof fn lemma_filter_fits(ds: Seq<Diagnostic>)
    requires
        positions_fit(ds),
    ensures
        positions_fit(filter_reportable(ds)),
    decreases ds.len(),
{
    if ds.len() > 0 {
        assert(positions_fit(ds.drop_last())) by {
            assert forall|i: int| 0 <= i < ds.drop_last().len() implies position_fits(#[trigger] ds.drop_last()[i]) by {
                assert(ds.drop_last()[i] == ds[i]);
            }
        }
        lemma_filter_fits(ds.drop_last());
        assert(position_fits(ds[ds.len() - 1]));
    }
}

/// Sorting keeps every position countable from 1, and the count.
proof fn lemma_sort_fits(ds: Seq<Diagnostic>)
    requires
        positions_fit(ds),
    ensures
        positions_fit(sort_by_severity(ds)),
        sort_by_severity(ds).len() == ds.len(),
    decreases ds.len(),
{
    if ds.len() > 0 {
        assert(positions_fit(ds.drop_last())) by {
            assert forall|i: int| 0 <= i < ds.drop_last().len() implies position_fits(#[trigger] ds.drop_last()[i]) by {
                assert(ds.drop_last()[i] == ds[i]);
            }
        }
        lemma_sort_fits(ds.drop_last());
        let t = sort_by_severity(ds.drop_last());
        let j = severity_insert_pos(t, ds.last().severity, 0);
        lemma_severity_insert_pos_bounds(t, ds.last().severity, 0);
        let u = t.insert(j, ds.last());
        assert(position_fits(ds[ds.len() - 1]));
        assert forall|i: int| 0 <= i < u.len() implies position_fits(#[trigger] u[i]) by {
            if i < j {
                assert(u[i] == t[i]);
            } else if i > j {
                assert(u[i] == t[i - 1]);
            }
        }
    }
}

/// The insertion point lies between `j` and the end.
proof fn lemma_severity_insert_pos_bounds(t: Seq<Diagnostic>, s: Option<i32>, j: int)
    requires
        0 <= j <= t.len(),
    ensures
        j <= severity_insert_pos(t, s, j) <= t.len(),
    decreases t.len() - j,
{
    if j < t.len() && severity_le(t[j].severity, s) {
        lemma_severity_insert_pos_bounds(t, s, j + 1);
    }
}

/// The diagnostics report of one file, or `None` when it has nothing worth
/// reporting.
pub fn format_file_diags(server: &str, diags: &[Diagnostic]) -> (r: Option<String>)
    requires
        positions_fit(diags@),
    ensures
        match r {
            Some(s) => spec_file_report(server@, diags@) == Some(s@),
            None => spec_file_report(server@, diags@) is None,
        },
{
    let sorted = sorted_reportable(diags);
    proof {
        lemma_sorted_positions_fit(diags@);
    }
    if sorted.len() == 0 {
        return None;
    }
    let ghost lines = sorted@.map_values(|d: Diagnostic| diag_line(Seq::empty(), d));
    let mut out = String::from_str("\n\nLSP diagnostics (");
    push_str(&mut out, server);
    push_str(&mut out, "):");
    let ghost head = out@;
    let mut body = String::new();
    let mut i: usize = 0;
    proof {
        assert(lines.take(0) =~= Seq::<Seq<char>>::empty());
    }
    while i < sorted.len() && i < 20
        invariant
            positions_fit(sorted@),
            lines == sorted@.map_values(|d: Diagnostic| diag_line(Seq::empty(), d)),
            0 <= i <= sorted@.len(),
            i <= 20,
            body@ == join_seq(lines.take(i as int), Seq::empty()),
        decreases sorted@.len() - i,
    {
        proof {
            assert(lines.take(i + 1).drop_last() =~= lines.take(i as int));
            assert(position_fits(sorted@[i as int]));
        }
        let l = format_diag_line("", &sorted[i]);
        proof {
            reveal_strlit("");
            assert(""@ =~= Seq::<char>::empty());
            if i > 0 {
                assert(join_seq(lines.take(i + 1), Seq::empty()) =~= join_seq(lines.take(i as int), Seq::empty()) + Seq::<char>::empty() + lines[i as int]);
            } else {
                assert(lines.take(1) =~= seq![lines[0]]);
            }
        }
        push_str(&mut body, l.as_str());
        i = i + 1;
    }
    push_str(&mut out, body.as_str());
    if sorted.len() > 20 {
        push_str(&mut out, "\n  \u{2026} (truncated)");
    } else {
        proof {
            assert(lines.take(i as int) =~= lines);
        }
    }
    Some(out)
}

/// Whether `a` comes before `b` in the order of `String`'s comparison:
/// character by character, a proper prefix first.
pub open spec fn lex_lt(a: Seq<char>, b: Seq<char>) -> bool
    decreases a.len(),
{
    if a.len() == 0 {
        b.len() > 0
    } else if b.len() == 0 {
        false
    } else if a[0] != b[0] {
        (a[0] as u32) < (b[0] as u32)
    } else {
        lex_lt(a.skip(1), b.skip(1))
    }
}

/// Whether `a` comes before `b`.
pub fn lex_lt_exec(a: &[char], b: &[char]) -> (r: bool)
    ensures
        r == lex_lt(a@, b@),
{
    let mut i: usize = 0;
    proof {
        assert(a@.skip(0) =~= a@);
        assert(b@.skip(0) =~= b@);
    }
    while i < a.len() && i < b.len() && a[i] == b[i]
        invariant
            0 <= i <= a@.len(),
            i <= b@.len(),
            lex_lt(a@, b@) == lex_lt(a@.skip(i as int), b@.skip(i as int)),
        decreases a@.len() - i,
    {
        proof {
            assert(a@.skip(i as int).skip(1) =~= a@.skip(i + 1));
            assert(b@.skip(i as int).skip(1) =~= b@.skip(i + 1));
        }
        i = i + 1;
    }
    if i == a.len() {
        i < b.len()
    } else if i == b.len() {
        false
    } else {
        (a[i] as u32) < (b[i] as u32)
    }
}

/// Where an entry for `uri` goes in a list ordered by URI: before the first
/// entry whose URI comes after it.
pub open spec fn uri_insert_pos(t: Seq<FileDiagnostics>, uri: Seq<char>, j: int) -> int
    decreases t.len() - j,
{
    if j < 0 || j >= t.len() {
        t.len() as int
    } else if lex_lt(uri, t[j].uri@) {
        j
    } else {
        uri_insert_pos(t, uri, j + 1)
    }
}

/// The entries ordered by URI.
pub open spec fn sort_by_uri(es: Seq<FileDiagnostics>) -> Seq<FileDiagnostics>
    decreases es.len(),
{
    if es.len() == 0 {
        es
    } else {
        let t = sort_by_uri(es.drop_last());
        t.insert(uri_insert_pos(t, es.last().uri@, 0), es.last())
    }
}

/// `s` without its leading slashes.
pub open spec fn trim_leading_slashes(s: Seq<char>) -> Seq<char>
    decreases s.len(),
{
    if s.len() > 0 && s[0] == '/' {
        trim_leading_slashes(s.skip(1))
    } else {
        s
    }
}

/// How a file is named in the report: its path under the project root when
/// its URI is a `file://` URI under the root, without leading slashes;
/// otherwise the URI itself.
pub open spec fn display_name(uri: Seq<char>, root: Seq<char>) -> Seq<char> {
    if starts_with(uri, "file://"@) && starts_with(uri.skip(7), root) {
        trim_leading_slashes(uri.skip(7).skip(root.len() as int))
    } else {
        uri
    }
}

/// The report lines of the entries, in order: for each file, a line for
/// each reportable diagnostic, in the order the server gave them.
pub open spec fn report_lines(es: Seq<FileDiagnostics>, root: Seq<char>) -> Seq<Seq<char>>
    decreases es.len(),
{
    if es.len() == 0 {
        Seq::empty()
    } else {
        let e = es.last();
        report_lines(es.drop_last(), root) + filter_reportable(e.diagnostics@).map_values(
            |d: Diagnostic| diag_line(display_name(e.uri@, root), d),
        )
    }
}

/// The report of every file with diagnostics: files in URI order, at most
/// twenty lines, with a note when some were left out; nothing when no file
/// has a reportable diagnostic.
pub open spec fn spec_all_report(es: Seq<FileDiagnostics>, root: Seq<char>) -> Option<Seq<char>> {
    let lines = report_lines(sort_by_uri(es), root);
    if lines.len() == 0 {
        None
    } else if lines.len() > 20 {
        Some(join_seq(lines.take(20), Seq::empty()) + "  \u{2026} (truncated)\n"@)
    } else {
        Some(join_seq(lines, Seq::empty()))
    }
}

/// Every entry's diagnostics have positions that count from 1.
pub open spec fn entries_fit(es: Seq<FileDiagnostics>) -> bool {
    forall|i: int| 0 <= i < es.len() ==> positions_fit((#[trigger] es[i]).diagnostics@)
}

/// The entries ordered by URI.
fn sort_entries(es: Vec<FileDiagnostics>) -> (r: Vec<FileDiagnostics>)
    requires
        entries_fit(es@),
    ensures
        r@ == sort_by_uri(es@),
        entries_fit(r@),
{
    let ghost all = es@;
    let n: usize = es.len();
    let mut rest = es;
    let mut out: Vec<FileDiagnostics> = Vec::new();
    let mut i: usize = 0;
    proof {
        assert(all.take(0) =~= Seq::<FileDiagnostics>::empty());
    }
    while rest.len() > 0
        invariant
            all.len() == n,
            entries_fit(all),
            0 <= i <= n,
            rest@ == all.skip(i as int),
            out@ == sort_by_uri(all.take(i as int)),
            entries_fit(out@),
        decreases rest@.len(),
    {
        let x = rest.remove(0);
        proof {
            assert(x == all[i as int]) by {
                assert(all.skip(i as int)[0] == all[i as int]);
            }
            assert(rest@ =~= all.skip(i + 1));
            assert(all.take(i + 1).drop_last() =~= all.take(i as int));
            assert(all.take(i + 1).last() == all[i as int]);
        }
        let xu = chars_of(x.uri.as_str());
        let mut j: usize = 0;
        while j < out.len() && !lex_lt_exec(xu.as_slice(), chars_of(out[j].uri.as_str()).as_slice())
            invariant
                0 <= j <= out@.len(),
                xu@ == x.uri@,
                uri_insert_pos(out@, x.uri@, 0) == uri_insert_pos(out@, x.uri@, j as int),
            decreases out@.len() - j,
        {
            j = j + 1;
        }
        let ghost before = out@;
        proof {
            assert(positions_fit(x.diagnostics@));
        }
        out.insert(j, x);
        proof {
            assert forall|k: int| 0 <= k < out@.len() implies positions_fit((#[trigger] out@[k]).diagnostics@) by {
                if k < j {
                    assert(out@[k] == before[k]);
                } else if k > j {
                    assert(out@[k] == before[k - 1]);
                }
            }
        }
        i = i + 1;
    }
    proof {
        assert(all.take(n as int) =~= all);
    }
    out
}

/// `s` without its leading slashes.
fn trim_leading_slashes_exec(cs: &[char]) -> (r: Vec<char>)
    ensures
        r@ == trim_leading_slashes(cs@),
{
    let mut i: usize = 0;
    proof {
        assert(cs@.skip(0) =~= cs@);
    }
    while i < cs.len() && cs[i] == '/'
        invariant
            0 <= i <= cs@.len(),
            trim_leading_slashes(cs@) == trim_leading_slashes(cs@.skip(i as int)),
        decreases cs@.len() - i,
    {
        proof {
            assert(cs@.skip(i as int).skip(1) =~= cs@.skip(i + 1));
        }
        i = i + 1;
    }
    let r = crate::text::slice_range(cs, i, cs.len());
    assert(r@ =~= cs@.skip(i as int));
    r
}

/// How a file is named in the report.
pub fn display_name_exec(uri: &str, root: &str) -> (r: String)
    ensures
        r@ == display_name(uri@, root@),
{
    let u = chars_of(uri);
    let scheme = chars_of("file://");
    let rt = chars_of(root);
    proof {
        reveal_strlit("file://");
    }
    if crate::text::chars_start_with(u.as_slice(), scheme.as_slice()) {
        let rest = crate::text::slice_range(u.as_slice(), 7, u.len());
        assert(rest@ =~= uri@.skip(7));
        if crate::text::chars_start_with(rest.as_slice(), rt.as_slice()) {
            let tail = crate::text::slice_range(rest.as_slice(), rt.len(), rest.len());
            assert(tail@ =~= rest@.skip(rt@.len() as int));
            let t = trim_leading_slashes_exec(tail.as_slice());
            return crate::text::string_from_chars(t.as_slice());
        }
    }
    String::from_str(uri)
}

/// The report of every file with diagnostics, or `None` when all are clean.
/// `root` is the project root whose files are named relative to it.
pub fn all_diagnostics_block(entries: Vec<FileDiagnostics>, root: &str) -> (r: Option<String>)
    requires
        entries_fit(entries@),
    ensures
        match r {
            Some(s) => spec_all_report(entries@, root@) == Some(s@),
            None => spec_all_report(entries@, root@) is None,
        },
{
    let sorted = sort_entries(entries);
    let ghost sv = sorted@;
    let mut lines: Vec<String> = Vec::new();
    let mut e: usize = 0;
    proof {
        assert(sv.take(0) =~= Seq::<FileDiagnostics>::empty());
        assert(views(lines@) =~= Seq::<Seq<char>>::empty());
    }
    while e < sorted.len()
        invariant
            sv == sorted@,
            entries_fit(sv),
            0 <= e <= sv.len(),
            views(lines@) == report_lines(sv.take(e as int), root@),
        decreases sv.len() - e,
    {
        let display = display_name_exec(sorted[e].uri.as_str(), root);
        let ds = &sorted[e].diagnostics;
        let ghost kept = filter_reportable(ds@);
        let ghost base = views(lines@);
        let mut k: usize = 0;
        proof {
            assert(positions_fit(sv[e as int].diagnostics@));
            assert(ds@.take(0) =~= Seq::<Diagnostic>::empty());
        }
        while k < ds.len()
            invariant
                positions_fit(ds@),
                0 <= k <= ds@.len(),
                views(lines@) == base + filter_reportable(ds@.take(k as int)).map_values(
                    |d: Diagnostic| diag_line(display@, d),
                ),
            decreases ds@.len() - k,
        {
            proof {
                assert(ds@.take(k + 1).drop_last() =~= ds@.take(k as int));
                assert(position_fits(ds@[k as int]));
            }
            let keep = match ds[k].severity {
                None => false,
                Some(v) => v == 1 || v == 2,
            };
            let ghost before = views(lines@);
            if keep {
                let l = format_diag_line(display.as_str(), &ds[k]);
                lines.push(l);
                proof {
                    assert(filter_reportable(ds@.take(k + 1)) == filter_reportable(ds@.take(k as int)).push(ds@[k as int]));
                    assert(views(lines@) =~= before.push(l@));
                    assert(filter_reportable(ds@.take(k + 1)).map_values(|d: Diagnostic| diag_line(display@, d)) =~= filter_reportable(ds@.take(k as int)).map_values(|d: Diagnostic| diag_line(display@, d)).push(l@));
                }
            }
            k = k + 1;
        }
        proof {
            assert(ds@.take(ds@.len() as int) =~= ds@);
            assert(sv.take(e + 1).drop_last() =~= sv.take(e as int));
            assert(sv.take(e + 1).last() == sv[e as int]);
        }
        e = e + 1;
    }
    proof {
        assert(sv.take(sv.len() as int) =~= sv);
    }
    if lines.len() == 0 {
        return None;
    }
    let ghost lv = views(lines@);
    let mut out = String::new();
    let mut i: usize = 0;
    proof {
        assert(lv.take(0) =~= Seq::<Seq<char>>::empty());
    }
    while i < lines.len() && i < 20
        invariant
            lv == views(lines@),
            0 <= i <= lines@.len(),
            i <= 20,
            out@ == join_seq(lv.take(i as int), Seq::empty()),
        decreases lines@.len() - i,
    {
        proof {
            assert(lv.take(i + 1).drop_last() =~= lv.take(i as int));
            if i == 0 {
                assert(lv.take(1) =~= seq![lv[0]]);
            } else {
                assert(join_seq(lv.take(i + 1), Seq::empty()) =~= join_seq(lv.take(i as int), Seq::empty()) + Seq::<char>::empty() + lv[i as int]);
            }
        }
        push_str(&mut out, lines[i].as_str());
        i = i + 1;
    }
    if lines.len() > 20 {
        push_str(&mut out, "  \u{2026} (truncated)\n");
    } else {
        proof {
            assert(lv.take(i as int) =~= lv);
        }
    }
    Some(out)
}

} // verus!
