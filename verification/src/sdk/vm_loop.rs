//! The loop of the thread that owns a virtual machine: which call a command
//! comes to, and where it is made.

use vstd::prelude::*;

use crate::map::StrMap;
use crate::sdk::checkpoint::CheckpointRun;
use crate::sdk::command::{Delivery, SandboxCmd, VM_THREAD_EXITED};
use crate::sdk::config::PortMapping;
use crate::text::string_from_utf8_lossy;

verus! {

use crate::sdk::checkpoint::CheckpointPhase;
use crate::sdk::command::{slices_of, stop_outcome, AsyncSandbox};
use crate::text::{text_of, texts_of, utf8_lossy};

/// What running a command in the guest came to.
#[derive(Debug)]
pub struct ExecResult {
    pub stdout: String,
    pub stderr: String,
    pub exit_code: i32,
}

/// The result of a command from what it wrote and how it ended. Output that is
/// not UTF-8 is replaced where it is not.
pub fn exec_command(stdout: &Vec<u8>, stderr: &Vec<u8>, exit_code: i32) -> (r: ExecResult)
    ensures
        r.stdout@ == utf8_lossy(stdout@),
        r.stderr@ == utf8_lossy(stderr@),
        vstd::utf8::valid_utf8(stdout@) ==> r.stdout@ == vstd::utf8::decode_utf8(stdout@),
        vstd::utf8::valid_utf8(stderr@) ==> r.stderr@ == vstd::utf8::decode_utf8(stderr@),
        r.exit_code == exit_code,
{
    ExecResult {
        stdout: string_from_utf8_lossy(stdout.as_slice()),
        stderr: string_from_utf8_lossy(stderr.as_slice()),
        exit_code,
    }
}

/// A call to make.
pub enum VmAction {
    /// Run a command with the environment in `VmLoop::env`.
    Exec { argv: Vec<String> },
    ReadFile { path: String },
    WriteFile { path: String, content: Vec<u8> },
    ReadDir { path: String },
    Mkdir { path: String, recursive: bool },
    Rename { old_path: String, new_path: String },
    Chmod { path: String, mode: u32 },
    Download { url: String, path: String, extract: bool, strip_components: u32 },
    OpenShell {
        argv: Vec<String>,
        env: StrMap<String>,
        rows: u16,
        cols: u16,
        cwd: Option<String>,
    },
    Watch { path: String, recursive: bool },
    Remove { path: String, recursive: bool },
    DiscardOverlay { path: String },
    /// Start a port forward and keep it for as long as the machine runs.
    AddPortForward { mapping: PortMapping },
    DialGuest { port: u16 },
    /// Take the steps of a checkpoint.
    Checkpoint { run: CheckpointRun },
    /// Stop the machine and take no more commands.
    Stop,
}

impl VmAction {
    /// The call reads or connects, and is made beside the loop.
    pub open spec fn beside(self) -> bool {
        self is ReadFile || self is ReadDir || self is DialGuest
    }

    /// Tells whether the call is made on a thread of its own, so that it holds
    /// no other command up.
    pub fn on_worker(&self) -> (r: bool)
        ensures
            r == self.beside(),
    {
        matches!(self, VmAction::ReadFile { .. }) || matches!(self, VmAction::ReadDir { .. })
            || matches!(self, VmAction::DialGuest { .. })
    }
}

/// The environment of commands: what the proxy gives goes over the defaults.
pub open spec fn base_env(
    defaults: Map<Seq<char>, String>,
    placeholders: Option<StrMap<String>>,
) -> Map<Seq<char>, String> {
    match placeholders {
        Some(p) => defaults.union_prefer_right(p@),
        None => defaults,
    }
}

/// The loop takes another command after this one.
pub open spec fn runs_on(cmd: SandboxCmd) -> bool {
    !(cmd is Stop)
}

/// How many of the commands that are sent to a loop it takes.
pub open spec fn taken(cmds: Seq<SandboxCmd>) -> nat
    decreases cmds.len(),
{
    if cmds.len() == 0 {
        0
    } else if runs_on(cmds[0]) {
        1 + taken(cmds.drop_first())
    } else {
        1
    }
}

/// The state of the loop.
pub struct VmLoop {
    /// The environment of every command.
    pub env: StrMap<String>,
    pub data_dir: String,
    pub instance_dir: String,
    /// The disk is in a chunk store.
    pub cas: bool,
    /// Commands are still taken.
    pub running: bool,
}

impl VmLoop {
    /// The loop before its first command.
    pub fn new(
        default_env: StrMap<String>,
        placeholders: Option<StrMap<String>>,
        data_dir: String,
        instance_dir: String,
        cas: bool,
    ) -> (r: Self)
        ensures
            r.env@ == base_env(default_env@, placeholders),
            r.data_dir == data_dir,
            r.instance_dir == instance_dir,
            r.cas == cas,
            r.running,
    {
        let mut env = default_env;
        match placeholders {
            Some(p) => {
                env.extend(p);
            },
            None => {},
        }
        VmLoop { env, data_dir, instance_dir, cas, running: true }
    }

    /// The call that a command comes to. A session without a command of its own
    /// is a login shell, and the caller's environment goes over the loop's.
    pub fn dispatch(&mut self, cmd: SandboxCmd) -> (r: VmAction)
        requires
            old(self).running,
        ensures
            *final(self) == (VmLoop { running: runs_on(cmd), ..*old(self) }),
            match cmd {
                SandboxCmd::Exec { argv } => r == (VmAction::Exec { argv }),
                SandboxCmd::ReadFile { path } => r == (VmAction::ReadFile { path }),
                SandboxCmd::WriteFile { path, content } => r == (VmAction::WriteFile {
                    path,
                    content,
                }),
                SandboxCmd::ReadDir { path } => r == (VmAction::ReadDir { path }),
                SandboxCmd::Mkdir { path, recursive } => r == (VmAction::Mkdir { path, recursive }),
                SandboxCmd::Rename { old_path, new_path } => r == (VmAction::Rename {
                    old_path,
                    new_path,
                }),
                SandboxCmd::Chmod { path, mode } => r == (VmAction::Chmod { path, mode }),
                SandboxCmd::Download { url, path, extract, strip_components } => r == (
                VmAction::Download { url, path, extract, strip_components }),
                SandboxCmd::OpenShell { argv, rows, cols, cwd, extra_env } => r matches
                    VmAction::OpenShell { argv: a, env, rows: h, cols: w, cwd: d } && (
                match argv {
                    Some(v) => a == v,
                    None => texts_of(a@) == seq!["/bin/bash"@, "-l"@],
                }) && env@ == old(self).env@.union_prefer_right(extra_env@) && h == rows && w
                    == cols && d == cwd,
                SandboxCmd::Watch { path, recursive } => r == (VmAction::Watch { path, recursive }),
                SandboxCmd::Remove { path, recursive } => r == (VmAction::Remove {
                    path,
                    recursive,
                }),
                SandboxCmd::DiscardOverlay { path } => r == (VmAction::DiscardOverlay { path }),
                SandboxCmd::AddPortForward { mapping } => r == (VmAction::AddPortForward {
                    mapping,
                }),
                SandboxCmd::DialGuest { port } => r == (VmAction::DialGuest { port }),
                SandboxCmd::Checkpoint { name } => r matches VmAction::Checkpoint { run }
                    && run.phase == CheckpointPhase::Name && run.name == name && run.data_dir@
                    == old(self).data_dir@ && run.instance_dir@ == old(self).instance_dir@
                    && run.cas == old(self).cas && run.error is None,
                SandboxCmd::Stop => r is Stop,
            },
    {
        match cmd {
            SandboxCmd::Exec { argv } => VmAction::Exec { argv },
            SandboxCmd::ReadFile { path } => VmAction::ReadFile { path },
            SandboxCmd::WriteFile { path, content } => VmAction::WriteFile { path, content },
            SandboxCmd::ReadDir { path } => VmAction::ReadDir { path },
            SandboxCmd::Mkdir { path, recursive } => VmAction::Mkdir { path, recursive },
            SandboxCmd::Rename { old_path, new_path } => VmAction::Rename { old_path, new_path },
            SandboxCmd::Chmod { path, mode } => VmAction::Chmod { path, mode },
            SandboxCmd::Download { url, path, extract, strip_components } => {
                VmAction::Download { url, path, extract, strip_components }
            },
            SandboxCmd::OpenShell { argv, rows, cols, cwd, extra_env } => {
                let argv = match argv {
                    Some(argv) => argv,
                    None => login_shell(),
                };
                let mut env = self.env.duplicate();
                env.extend(extra_env);
                VmAction::OpenShell { argv, env, rows, cols, cwd }
            },
            SandboxCmd::Watch { path, recursive } => VmAction::Watch { path, recursive },
            SandboxCmd::Remove { path, recursive } => VmAction::Remove { path, recursive },
            SandboxCmd::DiscardOverlay { path } => VmAction::DiscardOverlay { path },
            SandboxCmd::AddPortForward { mapping } => VmAction::AddPortForward { mapping },
            SandboxCmd::DialGuest { port } => VmAction::DialGuest { port },
            SandboxCmd::Checkpoint { name } => {
                let run = CheckpointRun::new(
                    name,
                    self.data_dir.clone(),
                    self.instance_dir.clone(),
                    self.cas,
                );
                VmAction::Checkpoint { run }
            },
            SandboxCmd::Stop => {
                self.running = false;
                VmAction::Stop
            },
        }
    }
}

/// The command of a session that has none of its own.
fn login_shell() -> (r: Vec<String>)
    ensures
        texts_of(r@) == seq!["/bin/bash"@, "-l"@],
{
    let mut r: Vec<String> = Vec::new();
    r.push("/bin/bash".to_string());
    r.push("-l".to_string());
    assert(texts_of(r@) =~= seq!["/bin/bash"@, "-l"@]);
    r
}

/// Environments are layered: a session sees what its caller asks for, below that
/// what the proxy gives, and below that the defaults.
pub proof fn law_env_is_layered(
    defaults: Map<Seq<char>, String>,
    placeholders: Option<StrMap<String>>,
    extra: Map<Seq<char>, String>,
    name: Seq<char>,
)
    ensures
        ({
            let env = base_env(defaults, placeholders).union_prefer_right(extra);
            &&& extra.contains_key(name) ==> env.contains_key(name) && env[name] == extra[name]
            &&& !extra.contains_key(name) && (placeholders matches Some(p) && p@.contains_key(name))
                ==> env.contains_key(name) && env[name] == placeholders->Some_0@[name]
            &&& !extra.contains_key(name) && !(placeholders matches Some(p) && p@.contains_key(
                name,
            )) ==> env.contains_key(name) == defaults.contains_key(name) && (defaults.contains_key(
                name,
            ) ==> env[name] == defaults[name])
        }),
{
}

/// Stopping is final: a loop takes every command up to the first `Stop`, that one
/// included, and none after it.
pub proof fn law_nothing_is_taken_after_stop(cmds: Seq<SandboxCmd>, i: int)
    requires
        0 <= i < cmds.len(),
        cmds[i] is Stop,
        forall|j: int| 0 <= j < i ==> !(#[trigger] cmds[j] is Stop),
    ensures
        taken(cmds) == i + 1,
    decreases i,
{
    if i > 0 {
        let rest = cmds.drop_first();
        assert(!(cmds[0] is Stop));
        assert(rest[i - 1] == cmds[i]);
        assert forall|j: int| 0 <= j < i - 1 implies !(#[trigger] rest[j] is Stop) by {
            assert(rest[j] == cmds[j + 1]);
        }
        law_nothing_is_taken_after_stop(rest, i - 1);
    }
}

/// Only a command that the loop takes is answered: `d` may be what became of
/// command `i`.
pub open spec fn heard<A>(cmds: Seq<SandboxCmd>, i: int, d: Delivery<A>) -> bool {
    d is Answered ==> i < taken(cmds)
}

/// No command behind a `Stop` is taken.
proof fn lemma_taken_up_to_stop(cmds: Seq<SandboxCmd>, i: int)
    requires
        0 <= i < cmds.len(),
        cmds[i] is Stop,
    ensures
        taken(cmds) <= i + 1,
    decreases i,
{
    if i > 0 {
        assert(cmds.drop_first()[i - 1] == cmds[i]);
        lemma_taken_up_to_stop(cmds.drop_first(), i - 1);
    }
}

/// A call after a stop fails: whatever became of a command behind a `Stop`, its
/// caller gets an error.
pub proof fn law_calls_after_stop_fail<A>(cmds: Seq<SandboxCmd>, i: int, j: int, d: Delivery<A>)
    requires
        0 <= i < j < cmds.len(),
        cmds[i] is Stop,
        heard(cmds, j, d),
    ensures
        d.outcome() is Err,
        d is Refused ==> d.outcome() == Err::<A, Seq<char>>(VM_THREAD_EXITED@),
{
    lemma_taken_up_to_stop(cmds, i);
}

/// Stopping again is no error, whatever the first stop came to.
pub proof fn law_stopping_again_is_no_error(
    cmds: Seq<SandboxCmd>,
    i: int,
    j: int,
    d: Delivery<Result<(), String>>,
)
    requires
        0 <= i < j < cmds.len(),
        cmds[i] is Stop,
        cmds[j] is Stop,
        heard(cmds, j, d),
    ensures
        stop_outcome(d) == Ok::<(), String>(()),
{
    lemma_taken_up_to_stop(cmds, i);
}

/// What is asked of a sandbox is what is done, in the guest and with the same
/// arguments: commands.
pub proof fn law_commands_reach_the_machine(
    s: &AsyncSandbox,
    argv: &[&str],
    shell: &str,
    line: &str,
    cmds: (SandboxCmd, SandboxCmd, SandboxCmd),
    vms: (&mut VmLoop, &mut VmLoop, &mut VmLoop),
    acts: (VmAction, VmAction, VmAction),
    i: int,
)
    requires
        call_ensures(AsyncSandbox::exec, (s, argv), cmds.0),
        call_ensures(AsyncSandbox::exec_in, (s, shell, line), cmds.1),
        call_ensures(AsyncSandbox::exec_shell, (s, line), cmds.2),
        call_ensures(VmLoop::dispatch, (vms.0, cmds.0), acts.0),
        call_ensures(VmLoop::dispatch, (vms.1, cmds.1), acts.1),
        call_ensures(VmLoop::dispatch, (vms.2, cmds.2), acts.2),
    ensures
        acts.0 matches VmAction::Exec { argv: a } && a@.len() == argv@.len() && (0 <= i
            < argv@.len() ==> a@[i]@ == argv@[i]@),
        acts.1 matches VmAction::Exec { argv: a } && a@.len() == 3 && a@[0]@ == shell@ && a@[1]@
            == "-c"@ && a@[2]@ == line@,
        acts.2 matches VmAction::Exec { argv: a } && a@.len() == 3 && a@[0]@ == "/bin/sh"@
            && a@[1]@ == "-c"@ && a@[2]@ == line@,
{
    let a0 = acts.0->Exec_argv@;
    let a1 = acts.1->Exec_argv@;
    let a2 = acts.2->Exec_argv@;
    assert(texts_of(a0).len() == slices_of(argv@).len());
    if 0 <= i < argv@.len() {
        assert(texts_of(a0)[i] == slices_of(argv@)[i]);
    }
    assert(texts_of(a1).len() == 3 && texts_of(a2).len() == 3);
    assert(texts_of(a1)[0] == shell@ && texts_of(a1)[1] == "-c"@ && texts_of(a1)[2] == line@);
    assert(texts_of(a2)[0] == "/bin/sh"@ && texts_of(a2)[1] == "-c"@ && texts_of(a2)[2] == line@);
}

/// What is asked of a sandbox is what is done, in the guest and with the same
/// arguments: files.
pub proof fn law_files_reach_the_machine(
    s: &AsyncSandbox,
    path: &str,
    other: &str,
    content: &[u8],
    recursive: bool,
    mode: u32,
    cmds: (SandboxCmd, SandboxCmd, SandboxCmd, SandboxCmd, SandboxCmd, SandboxCmd, SandboxCmd),
    vms: (
        &mut VmLoop,
        &mut VmLoop,
        &mut VmLoop,
        &mut VmLoop,
        &mut VmLoop,
        &mut VmLoop,
        &mut VmLoop,
    ),
    acts: (VmAction, VmAction, VmAction, VmAction, VmAction, VmAction, VmAction),
)
    requires
        call_ensures(AsyncSandbox::read_file, (s, path), cmds.0),
        call_ensures(AsyncSandbox::write_file, (s, path, content), cmds.1),
        call_ensures(AsyncSandbox::read_dir, (s, path), cmds.2),
        call_ensures(AsyncSandbox::mkdir, (s, path, recursive), cmds.3),
        call_ensures(AsyncSandbox::remove, (s, path, recursive), cmds.4),
        call_ensures(AsyncSandbox::rename, (s, path, other), cmds.5),
        call_ensures(AsyncSandbox::chmod, (s, path, mode), cmds.6),
        call_ensures(VmLoop::dispatch, (vms.0, cmds.0), acts.0),
        call_ensures(VmLoop::dispatch, (vms.1, cmds.1), acts.1),
        call_ensures(VmLoop::dispatch, (vms.2, cmds.2), acts.2),
        call_ensures(VmLoop::dispatch, (vms.3, cmds.3), acts.3),
        call_ensures(VmLoop::dispatch, (vms.4, cmds.4), acts.4),
        call_ensures(VmLoop::dispatch, (vms.5, cmds.5), acts.5),
        call_ensures(VmLoop::dispatch, (vms.6, cmds.6), acts.6),
    ensures
        acts.0 matches VmAction::ReadFile { path: p } && p@ == path@,
        acts.1 matches VmAction::WriteFile { path: p, content: c } && p@ == path@ && c@ == content@,
        acts.2 matches VmAction::ReadDir { path: p } && p@ == path@,
        acts.3 matches VmAction::Mkdir { path: p, recursive: x } && p@ == path@ && x == recursive,
        acts.4 matches VmAction::Remove { path: p, recursive: x } && p@ == path@ && x == recursive,
        acts.5 matches VmAction::Rename { old_path: p, new_path: q } && p@ == path@ && q@ == other@,
        acts.6 matches VmAction::Chmod { path: p, mode: m } && p@ == path@ && m == mode,
{
}

/// What is asked of a sandbox is what is done, with the same arguments: downloads,
/// watches, overlays, ports and streams.
pub proof fn law_other_calls_reach_the_machine(
    s: &AsyncSandbox,
    url: &str,
    path: &str,
    flag: bool,
    strip: u32,
    ports: (u16, u16),
    cmds: (SandboxCmd, SandboxCmd, SandboxCmd, SandboxCmd, SandboxCmd),
    vms: (&mut VmLoop, &mut VmLoop, &mut VmLoop, &mut VmLoop, &mut VmLoop),
    acts: (VmAction, VmAction, VmAction, VmAction, VmAction),
)
    requires
        call_ensures(AsyncSandbox::download, (s, url, path, flag, strip), cmds.0),
        call_ensures(AsyncSandbox::open_watch, (s, path, flag), cmds.1),
        call_ensures(AsyncSandbox::discard_overlay, (s, path), cmds.2),
        call_ensures(AsyncSandbox::add_port_forward, (s, ports.0, ports.1), cmds.3),
        call_ensures(AsyncSandbox::dial_guest, (s, ports.1), cmds.4),
        call_ensures(VmLoop::dispatch, (vms.0, cmds.0), acts.0),
        call_ensures(VmLoop::dispatch, (vms.1, cmds.1), acts.1),
        call_ensures(VmLoop::dispatch, (vms.2, cmds.2), acts.2),
        call_ensures(VmLoop::dispatch, (vms.3, cmds.3), acts.3),
        call_ensures(VmLoop::dispatch, (vms.4, cmds.4), acts.4),
    ensures
        acts.0 matches VmAction::Download { url: u, path: p, extract: x, strip_components: n } && u@
            == url@ && p@ == path@ && x == flag && n == strip,
        acts.1 matches VmAction::Watch { path: p, recursive: x } && p@ == path@ && x == flag,
        acts.2 matches VmAction::DiscardOverlay { path: p } && p@ == path@,
        acts.3 matches VmAction::AddPortForward { mapping: m } && m.host_port == ports.0
            && m.guest_port == ports.1,
        acts.4 == (VmAction::DialGuest { port: ports.1 }),
{
}

/// A checkpoint is taken under the name that was asked for, of the disk of this
/// instance, and a stop stops the machine. Only a stop ends the loop, and no command
/// changes what the loop works with.
pub proof fn law_checkpoints_and_stops_reach_the_machine(
    s: &AsyncSandbox,
    name: &str,
    cmds: (SandboxCmd, SandboxCmd),
    vms: (&mut VmLoop, &mut VmLoop),
    acts: (VmAction, VmAction),
    any: SandboxCmd,
    vm: &mut VmLoop,
    act: VmAction,
)
    requires
        call_ensures(AsyncSandbox::checkpoint, (s, name), cmds.0),
        call_ensures(AsyncSandbox::stop, (s,), cmds.1),
        call_ensures(VmLoop::dispatch, (vms.0, cmds.0), acts.0),
        call_ensures(VmLoop::dispatch, (vms.1, cmds.1), acts.1),
        call_ensures(VmLoop::dispatch, (vm, any), act),
    ensures
        acts.0 matches VmAction::Checkpoint { run } && run.name@ == name@ && run.data_dir@ == old(
            vms.0,
        ).data_dir@ && run.instance_dir@ == old(vms.0).instance_dir@ && run.cas == old(vms.0).cas
            && run.phase is Name && run.error is None,
        final(vms.0).running,
        acts.1 is Stop && !final(vms.1).running,
        act is Stop <==> any is Stop,
        final(vm).running <==> !(any is Stop),
        final(vm).env == old(vm).env && final(vm).cas == old(vm).cas,
        final(vm).data_dir == old(vm).data_dir && final(vm).instance_dir == old(vm).instance_dir,
        old(vm).running ==> call_requires(VmLoop::dispatch, (vm, any)),
{
}

/// A session runs what was asked for, or a login shell, at the size and in the
/// directory that were asked for. Its environment is what the caller gives, over
/// what the proxy gives, over the defaults.
pub proof fn law_sessions_reach_the_machine(
    s: &AsyncSandbox,
    size: (u16, u16),
    cwd: Option<&str>,
    argv: Option<&[&str]>,
    extra: StrMap<String>,
    cmd: SandboxCmd,
    vm: &mut VmLoop,
    act: VmAction,
    defaults: StrMap<String>,
    given: Option<StrMap<String>>,
    dirs: (String, String),
    cas: bool,
    i: int,
    name: Seq<char>,
)
    requires
        call_ensures(AsyncSandbox::open_shell, (s, size.0, size.1, cwd, argv, extra), cmd),
        call_ensures(VmLoop::new, (defaults, given, dirs.0, dirs.1, cas), *old(vm)),
        call_ensures(VmLoop::dispatch, (vm, cmd), act),
    ensures
        act matches VmAction::OpenShell { argv: a, env, rows, cols, cwd: d } && {
            &&& rows == size.0 && cols == size.1
            &&& match cwd {
                Some(c) => d matches Some(x) && x@ == c@,
                None => d is None,
            }
            &&& match argv {
                Some(v) => a@.len() == v@.len() && (0 <= i < v@.len() ==> a@[i]@ == v@[i]@),
                None => a@.len() == 2 && a@[0]@ == "/bin/bash"@ && a@[1]@ == "-l"@,
            }
            &&& env@.contains_key(name) <==> extra@.contains_key(name) || (given matches Some(p)
                && p@.contains_key(name)) || defaults@.contains_key(name)
            &&& extra@.contains_key(name) ==> env@[name] == extra@[name]
            &&& !extra@.contains_key(name) && (given matches Some(p) && p@.contains_key(name))
                ==> env@[name] == given->Some_0@[name]
            &&& !extra@.contains_key(name) && !(given matches Some(p) && p@.contains_key(name))
                && defaults@.contains_key(name) ==> env@[name] == defaults@[name]
        },
        old(vm).running && old(vm).data_dir == dirs.0 && old(vm).instance_dir == dirs.1 && old(
            vm,
        ).cas == cas,
{
    let a = act->OpenShell_argv@;
    match argv {
        Some(v) => {
            assert(texts_of(a).len() == slices_of(v@).len());
            if 0 <= i < v@.len() {
                assert(texts_of(a)[i] == slices_of(v@)[i]);
            }
        },
        None => {
            assert(texts_of(a).len() == 2);
            assert(texts_of(a)[0] == "/bin/bash"@ && texts_of(a)[1] == "-l"@);
        },
    }
    match cwd {
        Some(c) => {
            assert(text_of(act->OpenShell_cwd) == Some(c@));
        },
        None => {},
    }
}

/// Reading files and directories and connecting hold no other command up, and
/// everything else is done in turn.
pub proof fn law_what_goes_beside_the_loop(a: &VmAction, r: bool)
    requires
        call_ensures(VmAction::on_worker, (a,), r),
    ensures
        r <==> match *a {
            VmAction::ReadFile { .. } | VmAction::ReadDir { .. } | VmAction::DialGuest { .. } => true,
            _ => false,
        },
{
}

/// A command comes back with its own output, error output and exit code: what it
/// wrote as text is that text.
pub proof fn law_command_comes_back(
    stdout: &Vec<u8>,
    stderr: &Vec<u8>,
    code: i32,
    r: ExecResult,
    out: Seq<char>,
    err: Seq<char>,
)
    requires
        call_ensures(exec_command, (stdout, stderr, code), r),
        stdout@ == vstd::utf8::encode_utf8(out),
        stderr@ == vstd::utf8::encode_utf8(err),
    ensures
        r.stdout@ == out,
        r.stderr@ == err,
        r.exit_code == code,
{
    broadcast use vstd::utf8::encode_utf8_decode_utf8, vstd::utf8::encode_utf8_valid_utf8;

}

/// What a command writes comes back whether or not it is text, each stream as its own
/// text, with what is no text in it replaced.
pub proof fn law_all_output_comes_back(
    stdout: &Vec<u8>,
    stderr: &Vec<u8>,
    code: i32,
    r: ExecResult,
)
    requires
        call_ensures(exec_command, (stdout, stderr, code), r),
    ensures
        r.stdout@ == utf8_lossy(stdout@),
        r.stderr@ == utf8_lossy(stderr@),
        r.exit_code == code,
{
}

} // verus!
