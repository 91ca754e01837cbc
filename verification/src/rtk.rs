//! The `rtk` output-filtering proxy: which binary is used, and what its
//! rewrite of a command yields. Everything fails open: without a usable
//! rewrite, the original command runs.

use vstd::prelude::*;

use crate::config::RtkConfig;
use crate::text::{chars_of, str_eq, string_from_chars, trim_chars, trim_seq};

verus! {

/// A working rtk binary.
#[derive(Debug, Clone)]
pub struct Rtk {
    pub path: String,
}

impl Rtk {
    /// The rtk found at `path`.
    pub fn new(path: String) -> (r: Self)
        ensures
            r.path@ == path@,
    {
        Rtk { path }
    }
}

/// The binary to probe: none when rtk is not enabled; the configured path,
/// else `rtk` on the search path.
pub fn rtk_binary(cfg: Option<&RtkConfig>) -> (r: Option<String>)
    ensures
        match cfg {
            Some(c) if c.enabled => r matches Some(p) && p@ == match c.path {
                Some(q) => q@,
                None => "rtk"@,
            },
            _ => r is None,
        },
{
    match cfg {
        Some(c) => {
            if c.enabled {
                match &c.path {
                    Some(p) => Some(p.clone()),
                    None => Some(String::from_str("rtk")),
                }
            } else {
                None
            }
        },
        None => None,
    }
}

/// What a rewrite printed, decoded and trimmed; nothing when that is
/// empty.
pub open spec fn spec_rewritten(stdout: Seq<u8>) -> Option<Seq<char>> {
    let t = trim_seq(crate::oauth::utf8_lossy(stdout));
    if t.len() == 0 {
        None
    } else {
        Some(t)
    }
}

/// The rewritten command from what `rtk rewrite` printed.
pub fn rewritten_command(stdout: &[u8]) -> (r: Option<String>)
    ensures
        match r {
            Some(s) => spec_rewritten(stdout@) == Some(s@),
            None => spec_rewritten(stdout@) is None,
        },
{
    let text = crate::oauth::from_utf8_lossy(stdout);
    let cs = chars_of(text.as_str());
    let t = trim_chars(cs.as_slice());
    if t.len() == 0 {
        None
    } else {
        Some(string_from_chars(t.as_slice()))
    }
}

/// The command that runs: the rewrite when there is one that differs from
/// the original, else the original. Permissions are checked on the
/// original, which the rewrite only wraps.
pub fn command_to_run(original: &str, rewritten: Option<String>) -> (r: String)
    ensures
        r@ == match rewritten {
            Some(w) if w@ != original@ => w@,
            _ => original@,
        },
{
    match rewritten {
        Some(w) => {
            if str_eq(w.as_str(), original) {
                String::from_str(original)
            } else {
                w
            }
        },
        None => String::from_str(original),
    }
}

} // verus!
