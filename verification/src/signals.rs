//! Status signals sent to a listening socket when the agent starts or stops
//! working, or meets a git conflict.

use vstd::prelude::*;

verus! {

/// Where status signals go: the path of a Unix socket.
#[derive(Debug, Clone)]
pub struct StatusSignals {
    pub path: String,
}

/// A status signal.
#[derive(Debug, Clone, Copy, PartialEq, Eq, Structural)]
pub enum Signal {
    Start,
    Stop,
    GitConflict,
}

impl StatusSignals {
    /// Signals sent to the socket at `path`.
    pub fn new(path: String) -> (r: Self)
        ensures
            r.path@ == path@,
    {
        StatusSignals { path }
    }
}

/// The line a signal is written as.
pub open spec fn signal_line(s: Signal) -> Seq<u8> {
    match s {
        Signal::Start => seq![115u8, 116, 97, 114, 116, 10],
        Signal::Stop => seq![115u8, 116, 111, 112, 10],
        Signal::GitConflict => seq![103u8, 105, 116, 45, 99, 111, 110, 102, 108, 105, 99, 116, 10],
    }
}

/// The bytes written for a signal: `start`, `stop` or `git-conflict`, and
/// a newline.
pub fn signal_bytes(s: Signal) -> (r: Vec<u8>)
    ensures
        r@ == signal_line(s),
{
    let r: Vec<u8> = match s {
        Signal::Start => vec![115u8, 116, 97, 114, 116, 10],
        Signal::Stop => vec![115u8, 116, 111, 112, 10],
        Signal::GitConflict => vec![103u8, 105, 116, 45, 99, 111, 110, 102, 108, 105, 99, 116, 10],
    };
    assert(r@ =~= signal_line(s));
    r
}

} // verus!
