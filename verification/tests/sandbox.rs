use shuru::map::StrMap;
use shuru::sdk::checkpoint::{CheckpointAction, CheckpointPhase, CheckpointRun};
use shuru::sdk::command::{AsyncSandbox, Delivery, SandboxCmd, VM_THREAD_EXITED};
use shuru::sdk::config::{PortMapping, SandboxConfig};
use shuru::sdk::session::{ShellEvent, ShellFrame, ShellReader, WatchFrame, WatchReceiver};
use shuru::sdk::vm_loop::{exec_command, VmAction, VmLoop};

fn sandbox() -> AsyncSandbox {
    AsyncSandbox::boot(Ok("/d/instances/sdk-1-0".to_string())).ok().unwrap()
}

fn vm_loop(cas: bool) -> VmLoop {
    VmLoop::new(StrMap::new(), None, "/d".to_string(), "/d/instances/sdk-1-0".to_string(), cas)
}

fn env(entries: &[(&str, &str)]) -> StrMap<String> {
    let mut map = StrMap::new();
    for (k, v) in entries {
        map.insert(k.to_string(), v.to_string());
    }
    map
}

#[test]
fn boot_reports_the_instance_or_the_error() {
    assert_eq!(sandbox().instance_dir(), "/d/instances/sdk-1-0");
    assert_eq!(AsyncSandbox::boot(Err("no kernel".to_string())).err().unwrap(), "no kernel");
    assert_eq!(VM_THREAD_EXITED, "VM thread exited");
}

#[test]
fn commands_carry_their_arguments() {
    let s = sandbox();
    match s.exec(&["ls", "-l"]) {
        SandboxCmd::Exec { argv } => assert_eq!(argv, ["ls", "-l"]),
        _ => panic!(),
    }
    match s.exec_shell("echo hi") {
        SandboxCmd::Exec { argv } => assert_eq!(argv, ["/bin/sh", "-c", "echo hi"]),
        _ => panic!(),
    }
    match s.exec_in("bash", "true") {
        SandboxCmd::Exec { argv } => assert_eq!(argv, ["bash", "-c", "true"]),
        _ => panic!(),
    }
    match s.write_file("/a", b"xyz") {
        SandboxCmd::WriteFile { path, content } => {
            assert_eq!(path, "/a");
            assert_eq!(content, b"xyz");
        }
        _ => panic!(),
    }
    match s.rename("/a", "/b") {
        SandboxCmd::Rename { old_path, new_path } => {
            assert_eq!((old_path.as_str(), new_path.as_str()), ("/a", "/b"))
        }
        _ => panic!(),
    }
    match s.chmod("/a", 0o644) {
        SandboxCmd::Chmod { path, mode } => assert_eq!((path.as_str(), mode), ("/a", 0o644)),
        _ => panic!(),
    }
    match s.download("https://x", "/y", true, 1) {
        SandboxCmd::Download { url, path, extract, strip_components } => {
            assert_eq!((url.as_str(), path.as_str()), ("https://x", "/y"));
            assert_eq!((extract, strip_components), (true, 1));
        }
        _ => panic!(),
    }
    match s.add_port_forward(8080, 80) {
        SandboxCmd::AddPortForward { mapping } => {
            assert_eq!(mapping, PortMapping { host_port: 8080, guest_port: 80 })
        }
        _ => panic!(),
    }
    assert!(matches!(s.read_file("/a"), SandboxCmd::ReadFile { path } if path == "/a"));
    assert!(matches!(s.read_dir("/a"), SandboxCmd::ReadDir { path } if path == "/a"));
    assert!(matches!(s.mkdir("/a", true), SandboxCmd::Mkdir { recursive: true, .. }));
    assert!(matches!(s.remove("/a", false), SandboxCmd::Remove { recursive: false, .. }));
    assert!(matches!(s.discard_overlay("/a"), SandboxCmd::DiscardOverlay { path } if path == "/a"));
    assert!(matches!(s.dial_guest(22), SandboxCmd::DialGuest { port: 22 }));
    assert!(matches!(s.open_watch("/a", true), SandboxCmd::Watch { recursive: true, .. }));
    assert!(matches!(s.checkpoint("c"), SandboxCmd::Checkpoint { name } if name == "c"));
    assert!(matches!(s.stop(), SandboxCmd::Stop));
}

#[test]
fn stopping_a_stopped_sandbox_is_fine() {
    assert_eq!(AsyncSandbox::stop_result(Delivery::Refused), Ok(()));
    assert_eq!(AsyncSandbox::stop_result(Delivery::Dropped("gone".to_string())), Ok(()));
    assert_eq!(AsyncSandbox::stop_result(Delivery::Answered(Ok(()))), Ok(()));
    assert_eq!(
        AsyncSandbox::stop_result(Delivery::Answered(Err("x".to_string()))),
        Err("x".to_string())
    );
}

#[test]
fn calls_on_a_stopped_sandbox_fail() {
    let mut vm = vm_loop(false);
    assert!(matches!(vm.dispatch(sandbox().stop()), VmAction::Stop));
    assert!(!vm.running);
    assert_eq!(Delivery::<u8>::Refused.received(), Err("VM thread exited".to_string()));
    assert_eq!(
        Delivery::<u8>::Dropped("channel closed".to_string()).received(),
        Err("channel closed".to_string())
    );
    assert_eq!(Delivery::Answered(7u8).received(), Ok(7));
}

#[test]
fn sandbox_configuration_can_be_copied() {
    let config: SandboxConfig<String> = SandboxConfig {
        mounts: vec!["/src".to_string()],
        env: env(&[("A", "1")]),
        ..SandboxConfig::default()
    };
    let copy = config.clone();
    assert_eq!(format!("{:?}", copy), format!("{:?}", config));
    assert_eq!(copy.env.get("A").unwrap(), "1");
    assert_eq!(copy.cpus, 2);
}

#[test]
fn session_without_command_is_a_login_shell() {
    let cmd = sandbox().open_shell(24, 80, Some("/w"), None, env(&[("B", "caller"), ("C", "3")]));
    let mut vm = VmLoop::new(
        env(&[("A", "default"), ("B", "default"), ("P", "default")]),
        Some(env(&[("P", "proxy"), ("B", "proxy")])),
        "/d".to_string(),
        "/i".to_string(),
        false,
    );
    match vm.dispatch(cmd) {
        VmAction::OpenShell { argv, env, rows, cols, cwd } => {
            assert_eq!(argv, ["/bin/bash", "-l"]);
            assert_eq!((rows, cols), (24, 80));
            assert_eq!(cwd.as_deref(), Some("/w"));
            assert_eq!(env.get("A").unwrap(), "default");
            assert_eq!(env.get("P").unwrap(), "proxy");
            assert_eq!(env.get("B").unwrap(), "caller");
            assert_eq!(env.get("C").unwrap(), "3");
            assert!(env.get("D").is_none());
        }
        _ => panic!(),
    }
    assert_eq!(vm.env.get("B").unwrap(), "proxy");
    assert!(vm.env.get("C").is_none());
}

#[test]
fn session_with_command_runs_it() {
    let cmd = sandbox().open_shell(1, 2, None, Some(&["vi", "f"]), StrMap::new());
    match vm_loop(false).dispatch(cmd) {
        VmAction::OpenShell { argv, cwd, .. } => {
            assert_eq!(argv, ["vi", "f"]);
            assert_eq!(cwd, None);
        }
        _ => panic!(),
    }
}

#[test]
fn reads_and_dials_go_beside_the_loop() {
    let s = sandbox();
    let mut vm = vm_loop(false);
    assert!(vm.dispatch(s.read_file("/a")).on_worker());
    assert!(vm.dispatch(s.read_dir("/a")).on_worker());
    assert!(vm.dispatch(s.dial_guest(1)).on_worker());
    assert!(!vm.dispatch(s.write_file("/a", b"")).on_worker());
    assert!(!vm.dispatch(s.exec(&["true"])).on_worker());
    assert!(vm.running);
    assert!(!vm.dispatch(s.stop()).on_worker());
    assert!(!vm.running);
}

#[test]
fn commands_keep_their_arguments_in_the_loop() {
    let s = sandbox();
    let mut vm = vm_loop(false);
    assert!(matches!(vm.dispatch(s.mkdir("/a", true)),
        VmAction::Mkdir { path, recursive: true } if path == "/a"));
    assert!(matches!(vm.dispatch(s.chmod("/a", 7)),
        VmAction::Chmod { path, mode: 7 } if path == "/a"));
    assert!(matches!(vm.dispatch(s.add_port_forward(1, 2)),
        VmAction::AddPortForward { mapping: PortMapping { host_port: 1, guest_port: 2 } }));
    assert!(matches!(vm.dispatch(s.open_watch("/w", false)),
        VmAction::Watch { path, recursive: false } if path == "/w"));
    assert!(matches!(vm.dispatch(s.discard_overlay("/w")),
        VmAction::DiscardOverlay { path } if path == "/w"));
}

#[test]
fn command_output_is_text() {
    let r = exec_command(&b"out\n".to_vec(), &vec![b'e', 0xff, b'r'], 3);
    assert_eq!(r.stdout, "out\n");
    assert_eq!(r.stderr, "e\u{fffd}r");
    assert_eq!(r.exit_code, 3);
}

fn run_checkpoint(mut run: CheckpointRun, there: bool) -> Vec<String> {
    let mut log = Vec::new();
    loop {
        let answer = match run.action() {
            CheckpointAction::Validate { name } => {
                log.push(format!("validate {}", name));
                Ok(false)
            }
            CheckpointAction::CreateDir { path } => {
                log.push(format!("mkdir {}", path));
                Ok(false)
            }
            CheckpointAction::Probe { path } => {
                log.push(format!("probe {}", path));
                Ok(there)
            }
            CheckpointAction::Remove { path } => {
                log.push(format!("remove {}", path));
                Ok(false)
            }
            CheckpointAction::SaveIndex { path } => {
                log.push(format!("save {}", path));
                Ok(false)
            }
            CheckpointAction::Clone { from, to } => {
                log.push(format!("clone {} {}", from, to));
                Ok(false)
            }
            CheckpointAction::Saved | CheckpointAction::Failed => {
                assert_eq!(run.result(), Ok(()));
                return log;
            }
        };
        run.step(answer);
    }
}

fn checkpoint_run(cas: bool) -> CheckpointRun {
    match vm_loop(cas).dispatch(sandbox().checkpoint("snap")) {
        VmAction::Checkpoint { run } => run,
        _ => panic!(),
    }
}

#[test]
fn checkpoint_of_a_direct_disk_is_a_clone() {
    assert_eq!(
        run_checkpoint(checkpoint_run(false), false),
        [
            "validate snap",
            "mkdir /d/checkpoints",
            "probe /d/checkpoints/snap.ext4",
            "clone /d/instances/sdk-1-0/rootfs.ext4 /d/checkpoints/snap.ext4",
        ]
    );
}

#[test]
fn checkpoint_of_a_chunk_store_disk_is_an_index() {
    assert_eq!(
        run_checkpoint(checkpoint_run(true), true),
        [
            "validate snap",
            "mkdir /d/checkpoints",
            "probe /d/checkpoints/snap.idx",
            "remove /d/checkpoints/snap.idx",
            "save /d/checkpoints/snap.idx",
        ]
    );
}

#[test]
fn failed_checkpoint_step_ends_it() {
    let mut run = checkpoint_run(true);
    run.step(Err("bad name".to_string()));
    assert_eq!(run.phase, CheckpointPhase::Failed);
    assert_eq!(run.result(), Err("bad name".to_string()));
}

#[test]
fn shell_session_ends_with_its_process() {
    let mut reader = ShellReader::new();
    assert!(matches!(reader.frame(ShellFrame::Stdout(vec![1])),
        Some(ShellEvent::Output(data)) if data == [1]));
    assert!(reader.frame(ShellFrame::Other).is_none());
    assert!(reader.open);
    assert!(matches!(reader.frame(ShellFrame::Exit(Some(7))), Some(ShellEvent::Exit(7))));
    assert!(!reader.open);
    let mut reader = ShellReader::new();
    assert!(matches!(reader.frame(ShellFrame::Exit(None)), Some(ShellEvent::Exit(0))));
    let mut reader = ShellReader::new();
    assert!(matches!(reader.frame(ShellFrame::Error(b"no\xffpe".to_vec())),
        Some(ShellEvent::Error(m)) if m == "no\u{fffd}pe"));
    assert!(!reader.open);
    let mut reader = ShellReader::new();
    assert!(reader.frame(ShellFrame::End).is_none());
    assert!(!reader.open);
    let mut reader = ShellReader::new();
    reader.delivered(true);
    assert!(reader.open);
    reader.delivered(false);
    assert!(!reader.open);
}

#[test]
fn watch_passes_events_on() {
    let mut watch = WatchReceiver::new();
    assert_eq!(watch.frame(WatchFrame::Event(Some(5))), Some(5));
    assert_eq!(watch.frame::<i32>(WatchFrame::Event(None)), None);
    assert_eq!(watch.frame::<i32>(WatchFrame::Other), None);
    assert!(watch.open);
    watch.delivered(true);
    assert!(watch.open);
    assert_eq!(watch.frame::<i32>(WatchFrame::End), None);
    assert!(!watch.open);
    let mut watch = WatchReceiver::new();
    watch.delivered(false);
    assert!(!watch.open);
}

#[test]
fn last_entry_of_a_map_counts() {
    let mut map = env(&[("a", "1"), ("b", "2"), ("a", "3")]);
    assert_eq!(map.get("a").unwrap(), "3");
    let copy = map.duplicate();
    map.extend(env(&[("b", "4")]));
    assert_eq!(map.get("b").unwrap(), "4");
    assert_eq!(copy.get("b").unwrap(), "2");
}
