//! Where logs and crash reports go, how log files are named, and what a
//! crash report holds.

use vstd::prelude::*;

use crate::fs::{join_path, spec_join_path};
use crate::text::{decimal, push_chars, push_decimal, push_str};

verus! {

/// The filter of the log written to standard error when none is asked for.
pub const DEFAULT_STDERR_FILTER: &'static str = "warn,rig=off";

/// The filter of the log file.
pub const FILE_FILTER: &'static str = "zerostack=trace,rig=off";

/// The directory of crash reports, under the data directory.
pub fn crash_log_dir(data_dir: &str) -> (r: String)
    ensures
        r@ == spec_join_path(spec_join_path(data_dir@, "logs"@), "crashes"@),
{
    let logs = join_path(data_dir, "logs");
    join_path(logs.as_str(), "crashes")
}

/// The directory of log files, under the data directory.
pub fn logs_dir(data_dir: &str) -> (r: String)
    ensures
        r@ == spec_join_path(data_dir@, "logs"@),
{
    join_path(data_dir, "logs")
}

/// `{prefix}{timestamp}_{pid}.log`.
pub open spec fn stamped_name(prefix: Seq<char>, timestamp: Seq<char>, pid: u32) -> Seq<char> {
    prefix + timestamp + "_"@ + decimal(pid as nat) + ".log"@
}

/// A log file name from its prefix, the local time and the process id.
fn stamped(prefix: &str, timestamp: &str, pid: u32) -> (r: String)
    ensures
        r@ == stamped_name(prefix@, timestamp@, pid),
{
    let mut s = String::from_str(prefix);
    push_str(&mut s, timestamp);
    push_str(&mut s, "_");
    let mut d: Vec<char> = Vec::new();
    push_decimal(&mut d, pid as u64);
    push_chars(&mut s, d.as_slice());
    push_str(&mut s, ".log");
    s
}

/// The crash report file of a process: `zerostack-crash-{time}_{pid}.log`
/// in the crash directory.
pub fn crash_log_path(data_dir: &str, timestamp: &str, pid: u32) -> (r: String)
    ensures
        r@ == spec_join_path(
            spec_join_path(spec_join_path(data_dir@, "logs"@), "crashes"@),
            stamped_name("zerostack-crash-"@, timestamp@, pid),
        ),
{
    let dir = crash_log_dir(data_dir);
    let name = stamped("zerostack-crash-", timestamp, pid);
    join_path(dir.as_str(), name.as_str())
}

/// The log file of a run: the one asked for; in verbose mode
/// `zerostack-{time}_{pid}.log` in the log directory; otherwise none.
pub fn log_path(log_file: Option<String>, verbose: bool, data_dir: &str, timestamp: &str, pid: u32) -> (r:
    Option<String>)
    ensures
        match log_file {
            Some(f) => r matches Some(p) && p@ == f@,
            None => if verbose {
                r matches Some(p) && p@ == spec_join_path(
                    spec_join_path(data_dir@, "logs"@),
                    stamped_name("zerostack-"@, timestamp@, pid),
                )
            } else {
                r is None
            },
        },
{
    match log_file {
        Some(f) => Some(f),
        None => {
            if verbose {
                let dir = logs_dir(data_dir);
                let name = stamped("zerostack-", timestamp, pid);
                Some(join_path(dir.as_str(), name.as_str()))
            } else {
                None
            }
        },
    }
}

/// The filter for a log level asked for on the command line: the level,
/// with the model library's own logging off.
pub fn stderr_filter_directive(level: &str) -> (r: String)
    ensures
        r@ == level@ + ",rig=off"@,
{
    let mut s = String::from_str(level);
    push_str(&mut s, ",rig=off");
    s
}

/// Where a panic happened: file, line and column.
#[derive(Debug, Clone)]
pub struct PanicLocation {
    pub file: String,
    pub line: u32,
    pub column: u32,
}

/// The text of a crash report: a heading, the time, the version when
/// known, the panic message (`unknown` when it is not text), the location
/// when known, and the backtrace.
pub open spec fn spec_crash_report(
    time: Seq<char>,
    version: Option<Seq<char>>,
    payload: Option<Seq<char>>,
    location: Option<(Seq<char>, u32, u32)>,
    backtrace: Seq<char>,
) -> Seq<char> {
    let head = "zerostack crash report\n"@ + "time: "@ + time + "\n"@ + match version {
        Some(v) => "version: "@ + v + "\n"@,
        None => Seq::empty(),
    } + "\n"@;
    let panic = match payload {
        Some(p) => "panic: "@ + p + "\n"@,
        None => "panic: unknown\n"@,
    };
    let loc = match location {
        Some((f, l, c)) => "location: "@ + f + ":"@ + decimal(l as nat) + ":"@ + decimal(c as nat)
            + "\n"@,
        None => Seq::empty(),
    };
    head + panic + loc + "\n"@ + backtrace
}

/// The heading of a crash report.
fn report_head(time: &str, version: Option<&str>) -> (r: String)
    ensures
        r@ == "zerostack crash report\n"@ + "time: "@ + time@ + "\n"@ + match version {
            Some(v) => "version: "@ + v@ + "\n"@,
            None => Seq::empty(),
        } + "\n"@,
{
    let mut s = String::from_str("zerostack crash report\n");
    push_str(&mut s, "time: ");
    push_str(&mut s, time);
    push_str(&mut s, "\n");
    match version {
        Some(v) => {
            push_str(&mut s, "version: ");
            push_str(&mut s, v);
            push_str(&mut s, "\n");
        },
        None => {},
    }
    push_str(&mut s, "\n");
    s
}

/// The location line of a crash report.
fn location_line(l: &PanicLocation) -> (r: String)
    ensures
        r@ == "location: "@ + l.file@ + ":"@ + decimal(l.line as nat) + ":"@ + decimal(
            l.column as nat,
        ) + "\n"@,
{
    let mut s = String::from_str("location: ");
    push_str(&mut s, l.file.as_str());
    push_str(&mut s, ":");
    let mut d: Vec<char> = Vec::new();
    push_decimal(&mut d, l.line as u64);
    push_chars(&mut s, d.as_slice());
    push_str(&mut s, ":");
    let mut e: Vec<char> = Vec::new();
    push_decimal(&mut e, l.column as u64);
    push_chars(&mut s, e.as_slice());
    push_str(&mut s, "\n");
    s
}

/// The crash report for a panic.
pub fn crash_report(
    time: &str,
    version: Option<&str>,
    payload: Option<&str>,
    location: Option<&PanicLocation>,
    backtrace: &str,
) -> (r: String)
    ensures
        r@ == spec_crash_report(
            time@,
            match version {
                Some(v) => Some(v@),
                None => None,
            },
            match payload {
                Some(p) => Some(p@),
                None => None,
            },
            match location {
                Some(l) => Some((l.file@, l.line, l.column)),
                None => None,
            },
            backtrace@,
        ),
{
    let mut s = report_head(time, version);
    match payload {
        Some(p) => {
            push_str(&mut s, "panic: ");
            push_str(&mut s, p);
            push_str(&mut s, "\n");
        },
        None => push_str(&mut s, "panic: unknown\n"),
    }
    match location {
        Some(l) => {
            let t = location_line(l);
            push_str(&mut s, t.as_str());
        },
        None => {},
    }
    push_str(&mut s, "\n");
    push_str(&mut s, backtrace);
    s
}

} // verus!
