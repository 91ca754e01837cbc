//! How a shell command is launched: directly through the configured shell,
//! or inside a bubblewrap sandbox that sees the filesystem read-only except
//! for the working directory.

use vstd::prelude::*;

use crate::text::{chars_of, views};

verus! {

/// Launch settings for shell commands.
#[derive(Debug, Clone)]
pub struct Sandbox {
    pub enabled: bool,
    /// The working directory the sandbox binds writable.
    pub cwd: String,
    pub shell: String,
}

impl Sandbox {
    /// A sandbox for the working directory `cwd`, running `bash`.
    pub fn new(enabled: bool, cwd: String) -> (r: Self)
        ensures
            r.enabled == enabled,
            r.cwd@ == cwd@,
            r.shell@ == "bash"@,
    {
        Sandbox { enabled, cwd, shell: String::from_str("bash") }
    }

    /// Whether commands run without network: the bubblewrap sandbox
    /// unshares every namespace, the network's included.
    pub open spec fn network_unshared_spec(&self) -> bool {
        self.enabled
    }

    /// Whether commands run without network.
    pub fn network_unshared(&self) -> (r: bool)
        ensures
            r == self.network_unshared_spec(),
    {
        self.enabled
    }

    /// The program and arguments that run `command`: the shell with `-c`,
    /// or, sandboxed, bubblewrap binding the root read-only and the working
    /// directory writable, with fresh `/proc`, `/dev` and `/tmp`, every
    /// namespace unshared, and the shell dying with its parent.
    pub open spec fn spec_command_line(&self, command: Seq<char>) -> Seq<Seq<char>> {
        if !self.enabled {
            seq![self.shell@, "-c"@, command]
        } else {
            seq![
                "bwrap"@,
                "--ro-bind"@,
                "/"@,
                "/"@,
                "--bind"@,
                self.cwd@,
                self.cwd@,
                "--proc"@,
                "/proc"@,
                "--dev"@,
                "/dev"@,
                "--tmpfs"@,
                "/tmp"@,
                "--unshare-all"@,
                "--die-with-parent"@,
                self.shell@,
                "-c"@,
                command,
            ]
        }
    }

    /// The program (first) and arguments that run `command`.
    pub fn command_line(&self, command: &str) -> (r: Vec<String>)
        ensures
            views(r@) == self.spec_command_line(command@),
    {
        let mut v: Vec<String> = Vec::new();
        if !self.enabled {
            v.push(self.shell.clone());
            v.push(String::from_str("-c"));
            v.push(String::from_str(command));
        } else {
            v.push(String::from_str("bwrap"));
            v.push(String::from_str("--ro-bind"));
            v.push(String::from_str("/"));
            v.push(String::from_str("/"));
            v.push(String::from_str("--bind"));
            v.push(self.cwd.clone());
            v.push(self.cwd.clone());
            v.push(String::from_str("--proc"));
            v.push(String::from_str("/proc"));
            v.push(String::from_str("--dev"));
            v.push(String::from_str("/dev"));
            v.push(String::from_str("--tmpfs"));
            v.push(String::from_str("/tmp"));
            v.push(String::from_str("--unshare-all"));
            v.push(String::from_str("--die-with-parent"));
            v.push(self.shell.clone());
            v.push(String::from_str("-c"));
            v.push(String::from_str(command));
        }
        assert(views(v@) =~= self.spec_command_line(command@));
        v
    }

    /// The same sandbox running `shell`, unless `shell` is empty.
    pub fn with_shell(self, shell: &str) -> (r: Self)
        ensures
            r.enabled == self.enabled,
            r.cwd@ == self.cwd@,
            r.shell@ == if shell@.len() == 0 {
                self.shell@
            } else {
                shell@
            },
    {
        let cs = chars_of(shell);
        if cs.len() > 0 {
            Sandbox { shell: String::from_str(shell), ..self }
        } else {
            self
        }
    }
}

} // verus!
