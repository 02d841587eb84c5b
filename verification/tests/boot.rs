use shuru::map::StrMap;
use shuru::sdk::boot::{Boot, BootAction, BootError, BootEvent, Phase};
use shuru::sdk::config::{
    ExposeHostMapping, PortMapping, SandboxConfig, SecretConfig, StorageMode,
};

fn config() -> SandboxConfig<String> {
    let mut config: SandboxConfig<String> = Default::default();
    config.data_dir = Some("/d".to_string());
    config
}

fn probe(boot: &Boot<String>) -> String {
    match boot.action() {
        BootAction::Probe { path } => path,
        _ => panic!("expected a probe in {:?}", boot.phase),
    }
}

fn ok() -> BootEvent {
    BootEvent::Done(Ok(()))
}

#[test]
fn default_configuration() {
    let config: SandboxConfig<String> = Default::default();
    assert_eq!(config.cpus, 2);
    assert_eq!(config.memory_mb, 2048);
    assert_eq!(config.disk_size_mb, 4096);
    assert!(!config.allow_net);
    assert!(config.data_dir.is_none());
    assert!(config.from.is_none());
    assert!(matches!(config.storage, StorageMode::Direct));
    assert!(config.env.get("PATH").is_none());
}

#[test]
fn direct_boot_clones_and_extends_the_root_disk() {
    let mut boot = Boot::new(config());
    assert_eq!(boot.disk_size_mb, 4096);
    assert_eq!(probe(&boot), "/d/Image");
    boot.step(BootEvent::Exists(true));
    assert_eq!(probe(&boot), "/d/rootfs.ext4");
    boot.step(BootEvent::Exists(true));
    assert!(matches!(boot.action(), BootAction::Number));
    boot.step(BootEvent::Numbered { pid: 42, seq: 0 });
    match boot.action() {
        BootAction::CreateDir { path } => assert_eq!(path, "/d/instances/sdk-42-0"),
        _ => panic!("expected the instance directory"),
    }
    boot.step(ok());
    match boot.action() {
        BootAction::Clone { from, to } => {
            assert_eq!(from, "/d/rootfs.ext4");
            assert_eq!(to, "/d/instances/sdk-42-0/rootfs.ext4");
        }
        _ => panic!("expected a clone"),
    }
    boot.step(ok());
    assert!(matches!(boot.action(), BootAction::Measure { .. }));
    boot.step(BootEvent::Measured(Ok(1000)));
    match boot.action() {
        BootAction::Extend { path, len } => {
            assert_eq!(path, "/d/instances/sdk-42-0/rootfs.ext4");
            assert_eq!(len, 4294967296);
        }
        _ => panic!("expected an extension"),
    }
    boot.step(ok());
    assert_eq!(probe(&boot), "/d/initramfs.cpio.gz");
    boot.step(BootEvent::Exists(true));
    match boot.action() {
        BootAction::Build { kernel, rootfs, cpus, memory_mb, nbd_uri, initrd } => {
            assert_eq!(kernel, "/d/Image");
            assert_eq!(rootfs, "/d/instances/sdk-42-0/rootfs.ext4");
            assert_eq!((cpus, memory_mb), (2, 2048));
            assert_eq!(nbd_uri, None);
            assert_eq!(initrd.as_deref(), Some("/d/initramfs.cpio.gz"));
        }
        _ => panic!("expected the machine"),
    }
    boot.step(ok());
    assert!(matches!(boot.action(), BootAction::Launch));
    boot.step(ok());
    assert!(matches!(boot.action(), BootAction::Ready));
    assert_eq!(boot.phase, Phase::Ready);
}

#[test]
fn large_enough_disk_is_not_extended() {
    let mut boot = Boot::new(config());
    boot.step(BootEvent::Exists(true));
    boot.step(BootEvent::Exists(true));
    boot.step(BootEvent::Numbered { pid: 1, seq: 2 });
    boot.step(ok());
    boot.step(ok());
    boot.step(BootEvent::Measured(Ok(4294967296)));
    assert_eq!(boot.phase, Phase::Initrd);
    boot.step(BootEvent::Exists(false));
    match boot.action() {
        BootAction::Build { initrd, .. } => assert_eq!(initrd, None),
        _ => panic!("expected the machine"),
    }
}

#[test]
fn chunk_store_boot_serves_the_disk() {
    let mut config = config();
    config.storage = StorageMode::Cas { cas_dir: None };
    config.disk_size_mb = 1;
    let mut boot = Boot::new(config);
    boot.step(BootEvent::Exists(true));
    boot.step(BootEvent::Exists(true));
    boot.step(BootEvent::Numbered { pid: 1, seq: 2 });
    boot.step(ok());
    match boot.action() {
        BootAction::Placeholder { path } => assert_eq!(path, "/d/instances/sdk-1-2/rootfs.ext4"),
        _ => panic!("expected a placeholder"),
    }
    boot.step(ok());
    match boot.action() {
        BootAction::Serve { rootfs, cas_dir, index_path, socket_path, disk_size } => {
            assert_eq!(rootfs, "/d/rootfs.ext4");
            assert_eq!(cas_dir, "/d/cas");
            let hash = blake3::hash(b"/d/rootfs.ext4").to_hex().to_string();
            assert_eq!(index_path, format!("/d/cas/indexes/{}.idx", &hash[..16]));
            assert_eq!(socket_path, "/d/instances/sdk-1-2/nbd.sock");
            assert_eq!(disk_size, 1048576);
        }
        _ => panic!("expected the block device"),
    }
    boot.step(BootEvent::Served(Ok("nbd+unix:///x".to_string())));
    boot.step(BootEvent::Exists(false));
    match boot.action() {
        BootAction::Build { nbd_uri, .. } => {
            assert_eq!(nbd_uri.as_deref(), Some("nbd+unix:///x"))
        }
        _ => panic!("expected the machine"),
    }
}

#[test]
fn checkpoint_index_goes_before_its_image() {
    let mut config = config();
    config.from = Some("base".to_string());
    let mut boot = Boot::new(config);
    boot.step(BootEvent::Exists(true));
    match boot.action() {
        BootAction::Validate { name } => assert_eq!(name, "base"),
        _ => panic!("expected the name to be checked"),
    }
    boot.step(ok());
    assert_eq!(probe(&boot), "/d/checkpoints/base.idx");
    boot.step(BootEvent::Exists(true));
    assert_eq!(boot.source.as_deref(), Some("/d/checkpoints/base.idx"));
    boot.step(BootEvent::Numbered { pid: 1, seq: 1 });
    boot.step(ok());
    boot.step(ok());
    match boot.action() {
        BootAction::Serve { index_path, cas_dir, .. } => {
            assert_eq!(index_path, "/d/checkpoints/base.idx");
            assert_eq!(cas_dir, "/d/cas");
        }
        _ => panic!("expected the block device"),
    }
}

#[test]
fn checkpoint_image_is_cloned() {
    let mut config = config();
    config.from = Some("old".to_string());
    let mut boot = Boot::new(config);
    boot.step(BootEvent::Exists(true));
    boot.step(ok());
    boot.step(BootEvent::Exists(false));
    assert_eq!(probe(&boot), "/d/checkpoints/old.ext4");
    boot.step(BootEvent::Exists(true));
    assert_eq!(boot.phase, Phase::Number);
    assert_eq!(boot.source.as_deref(), Some("/d/checkpoints/old.ext4"));
    assert_eq!(boot.cas_index, None);
}

fn failure(boot: &Boot<String>) -> String {
    assert_eq!(boot.phase, Phase::Failed);
    assert!(matches!(boot.action(), BootAction::Failed));
    match &boot.failure {
        Some(e) => e.message(),
        None => panic!("expected a failure"),
    }
}

#[test]
fn missing_files_fail_the_boot() {
    let mut boot = Boot::new(config());
    boot.step(BootEvent::Exists(false));
    assert_eq!(
        failure(&boot),
        "Kernel not found at /d/Image. Run `shuru init` to download."
    );
    let mut boot = Boot::new(config());
    boot.step(BootEvent::Exists(true));
    boot.step(BootEvent::Exists(false));
    assert_eq!(
        failure(&boot),
        "Rootfs not found at /d/rootfs.ext4. Run `shuru init` to download."
    );
    let mut from = config();
    from.from = Some("gone".to_string());
    let mut boot = Boot::new(from);
    boot.step(BootEvent::Exists(true));
    boot.step(ok());
    boot.step(BootEvent::Exists(false));
    boot.step(BootEvent::Exists(false));
    assert_eq!(failure(&boot), "Checkpoint 'gone' not found");
}

#[test]
fn failed_steps_fail_the_boot() {
    let mut from = config();
    from.from = Some("a/b".to_string());
    let mut boot = Boot::new(from);
    boot.step(BootEvent::Exists(true));
    boot.step(BootEvent::Done(Err("bad name".to_string())));
    assert_eq!(failure(&boot), "bad name");
    assert!(matches!(boot.failure, Some(BootError::Step(_))));

    let mut boot = Boot::new(config());
    boot.step(BootEvent::Exists(true));
    boot.step(BootEvent::Exists(true));
    boot.step(BootEvent::Numbered { pid: 1, seq: 1 });
    boot.step(ok());
    boot.step(ok());
    boot.step(BootEvent::Measured(Err("no access".to_string())));
    assert_eq!(failure(&boot), "no access");
}

#[test]
fn data_directory_is_located_where_none_is_given() {
    let mut boot: Boot<String> = Boot::new(Default::default());
    assert!(matches!(boot.action(), BootAction::Locate));
    boot.step(BootEvent::Located("/home/u/.local/share/shuru".to_string()));
    assert_eq!(probe(&boot), "/home/u/.local/share/shuru/Image");
}

#[test]
fn networked_boot_takes_up_the_certificate() {
    let mut config = config();
    config.allow_net = true;
    config.ports = vec![PortMapping { host_port: 8080, guest_port: 80 }];
    config.allowed_hosts = vec!["example.com".to_string()];
    config.expose_host = vec![ExposeHostMapping { host_port: 1, guest_port: 2 }];
    config.ca_bundle = Some("system".to_string());
    let mut secrets = StrMap::new();
    secrets.insert(
        "KEY".to_string(),
        SecretConfig { from: "HOST_KEY".to_string(), hosts: Vec::new(), value: None },
    );
    config.secrets = secrets;
    let mut boot = Boot::new(config);
    boot.step(BootEvent::Exists(true));
    boot.step(BootEvent::Exists(true));
    boot.step(BootEvent::Numbered { pid: 1, seq: 1 });
    boot.step(ok());
    boot.step(ok());
    boot.step(BootEvent::Measured(Ok(u64::MAX)));
    boot.step(BootEvent::Exists(false));
    assert!(matches!(boot.action(), BootAction::Connect));
    let proxy = boot.proxy.as_ref().unwrap();
    assert_eq!(proxy.network.allow, vec!["example.com".to_string()]);
    assert_eq!(proxy.ca_bundle.as_deref(), Some("system"));
    assert_eq!(proxy.expose_host[0].guest_port, 2);
    assert_eq!(proxy.secrets.get("KEY").unwrap().from, "HOST_KEY");
    boot.step(BootEvent::Connected(Ok(true)));
    boot.step(ok());
    boot.step(ok());
    assert!(matches!(boot.action(), BootAction::Forward));
    boot.step(ok());
    match boot.action() {
        BootAction::Install { path } => {
            assert_eq!(path, "/usr/local/share/ca-certificates/shuru-proxy.crt")
        }
        _ => panic!("expected the certificate"),
    }
    boot.step(ok());
    match boot.action() {
        BootAction::Run { argv } => assert_eq!(argv, ["update-ca-certificates", "--fresh"]),
        _ => panic!("expected the certificate to be taken up"),
    }
    boot.step(ok());
    assert!(matches!(boot.action(), BootAction::Ready));
}

#[test]
fn proxy_without_placeholders_needs_no_certificate() {
    let mut config = config();
    config.allow_net = true;
    let mut boot = Boot::new(config);
    boot.step(BootEvent::Exists(true));
    boot.step(BootEvent::Exists(true));
    boot.step(BootEvent::Numbered { pid: 1, seq: 1 });
    boot.step(ok());
    boot.step(ok());
    boot.step(BootEvent::Measured(Ok(u64::MAX)));
    boot.step(BootEvent::Exists(false));
    boot.step(BootEvent::Connected(Ok(false)));
    boot.step(ok());
    boot.step(ok());
    assert!(matches!(boot.action(), BootAction::Ready));
}

#[test]
fn instances_have_directories_of_their_own() {
    let mut dirs = Vec::new();
    for (pid, seq) in [(1, 23), (12, 3), (123, 0), (1, 230)] {
        let mut boot = Boot::new(config());
        boot.step(BootEvent::Exists(true));
        boot.step(BootEvent::Exists(true));
        boot.step(BootEvent::Numbered { pid, seq });
        assert_eq!(boot.instance_dir, format!("/d/instances/sdk-{}-{}", pid, seq));
        assert!(!dirs.contains(&boot.instance_dir));
        dirs.push(boot.instance_dir);
    }
}

#[test]
fn missing_kernel_is_reported_whatever_the_disk_size() {
    let mut config = config();
    config.disk_size_mb = u64::MAX;
    let mut boot = Boot::new(config);
    boot.step(BootEvent::Exists(false));
    assert_eq!(
        failure(&boot),
        "Kernel not found at /d/Image. Run `shuru init` to download."
    );
}
