//! The commands that a sandbox takes, and the calls that send them.

use vstd::prelude::*;

use crate::map::StrMap;
use crate::sdk::config::PortMapping;

verus! {

use crate::text::{text_of, texts_of};

/// What a caller is told when no one is left to take commands.
pub const VM_THREAD_EXITED: &'static str = "VM thread exited";

/// A command to the thread that owns the virtual machine.
#[allow(inconsistent_fields)]
pub enum SandboxCmd {
    Exec { argv: Vec<String> },
    ReadFile { path: String },
    WriteFile { path: String, content: Vec<u8> },
    ReadDir { path: String },
    Mkdir { path: String, recursive: bool },
    Rename { old_path: String, new_path: String },
    Chmod { path: String, mode: u32 },
    Download { url: String, path: String, extract: bool, strip_components: u32 },
    OpenShell {
        argv: Option<Vec<String>>,
        rows: u16,
        cols: u16,
        cwd: Option<String>,
        extra_env: StrMap<String>,
    },
    Watch { path: String, recursive: bool },
    Remove { path: String, recursive: bool },
    DiscardOverlay { path: String },
    AddPortForward { mapping: PortMapping },
    DialGuest { port: u16 },
    Checkpoint { name: String },
    Stop,
}

/// What became of a command that was sent, where `A` is an answer to it.
pub enum Delivery<A> {
    /// No one was left to take it.
    Refused,
    /// It was dropped without an answer; what was reported of that.
    Dropped(String),
    /// It was taken and answered.
    Answered(A),
}

impl<A> Delivery<A> {
    /// What the caller gets.
    pub open spec fn outcome(self) -> Result<A, Seq<char>> {
        match self {
            Delivery::Refused => Err(VM_THREAD_EXITED@),
            Delivery::Dropped(e) => Err(e@),
            Delivery::Answered(answer) => Ok(answer),
        }
    }

    /// The answer, or why there is none. A caller never waits for one that cannot
    /// come.
    pub fn received(self) -> (r: Result<A, String>)
        ensures
            match r {
                Ok(answer) => self.outcome() == Ok::<A, Seq<char>>(answer),
                Err(e) => self.outcome() == Err::<A, Seq<char>>(e@),
            },
    {
        match self {
            Delivery::Refused => Err(VM_THREAD_EXITED.to_string()),
            Delivery::Dropped(e) => Err(e),
            Delivery::Answered(answer) => Ok(answer),
        }
    }
}

/// What stopping comes to: a machine whose thread is gone is stopped.
pub open spec fn stop_outcome(d: Delivery<Result<(), String>>) -> Result<(), String> {
    match d {
        Delivery::Answered(answer) => answer,
        _ => Ok(()),
    }
}

/// The texts in a sequence of string slices.
pub open spec fn slices_of(v: Seq<&str>) -> Seq<Seq<char>> {
    Seq::new(v.len(), |i: int| v[i]@)
}

/// Owned copies of string slices.
fn to_strings(v: &[&str]) -> (r: Vec<String>)
    ensures
        texts_of(r@) == slices_of(v@),
{
    let mut r: Vec<String> = Vec::new();
    let mut i: usize = 0;
    while i < v.len()
        invariant
            i <= v@.len(),
            r@.len() == i,
            forall|j: int| 0 <= j < i ==> #[trigger] r@[j]@ == v@[j]@,
        decreases v@.len() - i,
    {
        r.push(v[i].to_string());
        i = i + 1;
    }
    assert(texts_of(r@) =~= slices_of(v@));
    r
}

/// A running sandbox, from the side of its callers. Each call gives the command
/// that is sent to the thread that owns the machine.
pub struct AsyncSandbox {
    /// The directory with the working disk.
    pub instance_dir: String,
}

impl AsyncSandbox {
    /// The sandbox, once its thread has reported the instance directory, or why
    /// there is none.
    pub fn boot(ready: Result<String, String>) -> (r: Result<Self, String>)
        ensures
            match ready {
                Ok(dir) => r matches Ok(s) && s.instance_dir == dir,
                Err(e) => r == Err::<Self, String>(e),
            },
    {
        match ready {
            Ok(instance_dir) => Ok(AsyncSandbox { instance_dir }),
            Err(e) => Err(e),
        }
    }

    /// The directory of the instance.
    pub fn instance_dir(&self) -> (r: &str)
        ensures
            r@ == self.instance_dir@,
    {
        self.instance_dir.as_str()
    }

    /// Runs a command.
    pub fn exec(&self, argv: &[&str]) -> (r: SandboxCmd)
        ensures
            r matches SandboxCmd::Exec { argv: a } && texts_of(a@) == slices_of(argv@),
    {
        SandboxCmd::Exec { argv: to_strings(argv) }
    }

    /// Runs a command line in `/bin/sh`.
    pub fn exec_shell(&self, command: &str) -> (r: SandboxCmd)
        ensures
            r matches SandboxCmd::Exec { argv } && texts_of(argv@) == seq![
                "/bin/sh"@,
                "-c"@,
                command@,
            ],
    {
        self.exec_in("/bin/sh", command)
    }

    /// Runs a command line in a shell.
    pub fn exec_in(&self, shell: &str, command: &str) -> (r: SandboxCmd)
        ensures
            r matches SandboxCmd::Exec { argv } && texts_of(argv@) == seq![
                shell@,
                "-c"@,
                command@,
            ],
    {
        let mut argv: Vec<String> = Vec::new();
        argv.push(shell.to_string());
        argv.push("-c".to_string());
        argv.push(command.to_string());
        assert(texts_of(argv@) =~= seq![shell@, "-c"@, command@]);
        SandboxCmd::Exec { argv }
    }

    /// Opens an interactive session: a login shell, or `argv` where it is given.
    pub fn open_shell(
        &self,
        rows: u16,
        cols: u16,
        cwd: Option<&str>,
        argv: Option<&[&str]>,
        extra_env: StrMap<String>,
    ) -> (r: SandboxCmd)
        ensures
            r matches SandboxCmd::OpenShell { argv: a, rows: h, cols: w, cwd: d, extra_env: x }
                && h == rows && w == cols && x == extra_env && (match cwd {
                Some(c) => text_of(d) == Some(c@),
                None => d is None,
            }) && (match argv {
                Some(v) => a matches Some(b) && texts_of(b@) == slices_of(v@),
                None => a is None,
            }),
    {
        let argv = match argv {
            Some(v) => Some(to_strings(v)),
            None => None,
        };
        let cwd = match cwd {
            Some(d) => Some(d.to_string()),
            None => None,
        };
        SandboxCmd::OpenShell { argv, rows, cols, cwd, extra_env }
    }

    /// Reads a file of the guest.
    pub fn read_file(&self, path: &str) -> (r: SandboxCmd)
        ensures
            r matches SandboxCmd::ReadFile { path: p } && p@ == path@,
    {
        SandboxCmd::ReadFile { path: path.to_string() }
    }

    /// Writes a file of the guest.
    pub fn write_file(&self, path: &str, content: &[u8]) -> (r: SandboxCmd)
        ensures
            r matches SandboxCmd::WriteFile { path: p, content: c } && p@ == path@ && c@
                == content@,
    {
        let mut bytes: Vec<u8> = Vec::new();
        bytes.extend_from_slice(content);
        assert(bytes@ =~= content@);
        SandboxCmd::WriteFile { path: path.to_string(), content: bytes }
    }

    /// Drops the guest's changes to a file, which reveals the host's version.
    pub fn discard_overlay(&self, path: &str) -> (r: SandboxCmd)
        ensures
            r matches SandboxCmd::DiscardOverlay { path: p } && p@ == path@,
    {
        SandboxCmd::DiscardOverlay { path: path.to_string() }
    }

    /// Forwards a port of the host.
    pub fn add_port_forward(&self, host_port: u16, guest_port: u16) -> (r: SandboxCmd)
        ensures
            r == (SandboxCmd::AddPortForward { mapping: PortMapping { host_port, guest_port } }),
    {
        SandboxCmd::AddPortForward { mapping: PortMapping { host_port, guest_port } }
    }

    /// Opens a stream to a port of the guest.
    pub fn dial_guest(&self, port: u16) -> (r: SandboxCmd)
        ensures
            r == (SandboxCmd::DialGuest { port }),
    {
        SandboxCmd::DialGuest { port }
    }

    /// Removes a file or a directory of the guest.
    pub fn remove(&self, path: &str, recursive: bool) -> (r: SandboxCmd)
        ensures
            r matches SandboxCmd::Remove { path: p, recursive: x } && p@ == path@ && x
                == recursive,
    {
        SandboxCmd::Remove { path: path.to_string(), recursive }
    }

    /// Lists a directory of the guest.
    pub fn read_dir(&self, path: &str) -> (r: SandboxCmd)
        ensures
            r matches SandboxCmd::ReadDir { path: p } && p@ == path@,
    {
        SandboxCmd::ReadDir { path: path.to_string() }
    }

    /// Creates a directory of the guest, with its parents where `recursive`.
    pub fn mkdir(&self, path: &str, recursive: bool) -> (r: SandboxCmd)
        ensures
            r matches SandboxCmd::Mkdir { path: p, recursive: x } && p@ == path@ && x == recursive,
    {
        SandboxCmd::Mkdir { path: path.to_string(), recursive }
    }

    /// Renames a file or a directory of the guest.
    pub fn rename(&self, old_path: &str, new_path: &str) -> (r: SandboxCmd)
        ensures
            r matches SandboxCmd::Rename { old_path: o, new_path: n } && o@ == old_path@ && n@
                == new_path@,
    {
        SandboxCmd::Rename { old_path: old_path.to_string(), new_path: new_path.to_string() }
    }

    /// Changes the permissions of a file of the guest.
    pub fn chmod(&self, path: &str, mode: u32) -> (r: SandboxCmd)
        ensures
            r matches SandboxCmd::Chmod { path: p, mode: m } && p@ == path@ && m == mode,
    {
        SandboxCmd::Chmod { path: path.to_string(), mode }
    }

    /// Downloads into the guest, and extracts an archive where `extract`.
    pub fn download(&self, url: &str, path: &str, extract: bool, strip_components: u32) -> (r:
        SandboxCmd)
        ensures
            r matches SandboxCmd::Download { url: u, path: p, extract: x, strip_components: n }
                && u@ == url@ && p@ == path@ && x == extract && n == strip_components,
    {
        SandboxCmd::Download {
            url: url.to_string(),
            path: path.to_string(),
            extract,
            strip_components,
        }
    }

    /// Saves the disk as a checkpoint.
    pub fn checkpoint(&self, name: &str) -> (r: SandboxCmd)
        ensures
            r matches SandboxCmd::Checkpoint { name: n } && n@ == name@,
    {
        SandboxCmd::Checkpoint { name: name.to_string() }
    }

    /// Watches a path of the guest.
    pub fn open_watch(&self, path: &str, recursive: bool) -> (r: SandboxCmd)
        ensures
            r matches SandboxCmd::Watch { path: p, recursive: x } && p@ == path@ && x == recursive,
    {
        SandboxCmd::Watch { path: path.to_string(), recursive }
    }

    /// Stops the machine.
    pub fn stop(&self) -> (r: SandboxCmd)
        ensures
            r is Stop,
    {
        SandboxCmd::Stop
    }

    /// What stopping comes to: a machine whose thread is gone is stopped.
    pub fn stop_result(d: Delivery<Result<(), String>>) -> (r: Result<(), String>)
        ensures
            r == stop_outcome(d),
    {
        match d {
            Delivery::Answered(answer) => answer,
            _ => Ok(()),
        }
    }
}

/// An answer is handed on as it is, and without one there is an error: the one that
/// was reported, or that the thread of the machine has ended.
pub proof fn law_what_a_caller_receives<A>(d: Delivery<A>, r: Result<A, String>)
    requires
        call_ensures(Delivery::<A>::received, (d,), r),
    ensures
        forall|a: A| r == Ok::<A, String>(a) <==> d == Delivery::Answered(a),
        r matches Err(e) ==> match d {
            Delivery::Refused => e@ == "VM thread exited"@,
            Delivery::Dropped(x) => e@ == x@,
            Delivery::Answered(_) => false,
        },
{
}

/// Stopping comes to what the machine answers, and to no error where it is gone.
pub proof fn law_what_stopping_comes_to(d: Delivery<Result<(), String>>, r: Result<(), String>)
    requires
        call_ensures(AsyncSandbox::stop_result, (d,), r),
    ensures
        r matches Err(e) ==> d == Delivery::Answered(Err::<(), String>(e)),
        d matches Delivery::Answered(Err(_)) ==> r is Err,
{
}

/// A sandbox has the directory that its boot reported, or there is none and the
/// error is the boot's.
pub proof fn law_booted_sandbox(
    ready: Result<String, String>,
    r: Result<AsyncSandbox, String>,
    dir: &str,
)
    requires
        call_ensures(AsyncSandbox::boot, (ready,), r),
        r matches Ok(s) ==> call_ensures(AsyncSandbox::instance_dir, (&s,), dir),
    ensures
        match ready {
            Ok(d) => r is Ok && dir@ == d@,
            Err(e) => r matches Err(m) && m@ == e@,
        },
{
}

} // verus!
