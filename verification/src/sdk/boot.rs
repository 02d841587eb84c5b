//! Booting a sandbox: what is done in which order, and what each step is done
//! with. The steps themselves are taken outside and reported back.

use vstd::prelude::*;
use vstd::string::StringExecFns;

use crate::map::StrMap;
use crate::sdk::config::{NetworkConfig, PortMapping, ProxyConfig, SandboxConfig, StorageMode};
use crate::store::chunk::hash_hex;
use crate::text::{append_decimal, concat, from_chars, to_chars};

verus! {

use crate::store::chunk::blake3_hex;
use crate::text::{decimal, law_decimal_is_read_back, text_of};
use vstd::utf8::encode_utf8;

/// The step of a boot that is being taken.
#[derive(Debug, Clone, Copy, PartialEq, Eq, Structural)]
pub enum Phase {
    /// Finding the default data directory.
    Locate,
    /// Looking for the kernel.
    Kernel,
    /// Checking the name of the checkpoint.
    Name,
    /// Looking for the index of the checkpoint.
    Index,
    /// Looking for the disk image of the checkpoint.
    Image,
    /// Looking for the root disk.
    Rootfs,
    /// Getting numbers for the instance.
    Number,
    /// Creating the instance directory.
    Directory,
    /// Creating the working disk.
    Disk,
    /// Measuring the working disk.
    Measure,
    /// Extending the working disk.
    Extend,
    /// Starting the block device server.
    Nbd,
    /// Looking for the initial file system.
    Initrd,
    /// Starting the proxy.
    Proxy,
    /// Building the machine.
    Build,
    /// Starting the machine.
    Launch,
    /// Starting the port forwards.
    Ports,
    /// Writing the proxy's certificate into the guest.
    Certificate,
    /// Having the guest take the certificate up.
    Refresh,
    /// The sandbox runs.
    Ready,
    /// The boot failed.
    Failed,
}

/// How far a boot is.
pub open spec fn stage(p: Phase) -> int {
    match p {
        Phase::Locate => 0,
        Phase::Kernel => 1,
        Phase::Name => 2,
        Phase::Index => 3,
        Phase::Image => 4,
        Phase::Rootfs => 4,
        Phase::Number => 5,
        Phase::Directory => 6,
        Phase::Disk => 7,
        Phase::Measure => 8,
        Phase::Extend => 9,
        Phase::Nbd => 9,
        Phase::Initrd => 10,
        Phase::Proxy => 11,
        Phase::Build => 12,
        Phase::Launch => 13,
        Phase::Ports => 14,
        Phase::Certificate => 15,
        Phase::Refresh => 16,
        Phase::Ready => 17,
        Phase::Failed => 18,
    }
}

/// What came of a step.
pub enum BootEvent {
    /// The default data directory.
    Located(String),
    /// Whether a file is there.
    Exists(bool),
    /// The process and a number that no other instance in it has.
    Numbered { pid: u32, seq: u64 },
    /// A step that gives nothing back, or why it failed.
    Done(Result<(), String>),
    /// The size of a file.
    Measured(Result<u64, String>),
    /// The address of the block device.
    Served(Result<String, String>),
    /// Whether the proxy has placeholders for secrets.
    Connected(Result<bool, String>),
}

impl BootEvent {
    /// The step failed.
    pub open spec fn failed(self) -> bool {
        match self {
            BootEvent::Done(r) => r is Err,
            BootEvent::Measured(r) => r is Err,
            BootEvent::Served(r) => r is Err,
            BootEvent::Connected(r) => r is Err,
            _ => false,
        }
    }

    /// Why it failed.
    pub open spec fn error(self) -> Seq<char> {
        match self {
            BootEvent::Done(Err(e)) => e@,
            BootEvent::Measured(Err(e)) => e@,
            BootEvent::Served(Err(e)) => e@,
            BootEvent::Connected(Err(e)) => e@,
            _ => Seq::empty(),
        }
    }
}

/// An event of the sort that a step ends in.
pub open spec fn answers(p: Phase, e: BootEvent) -> bool {
    match p {
        Phase::Locate => e is Located,
        Phase::Kernel | Phase::Index | Phase::Image | Phase::Rootfs | Phase::Initrd => e is Exists,
        Phase::Number => e is Numbered,
        Phase::Measure => e is Measured,
        Phase::Nbd => e is Served,
        Phase::Proxy => e is Connected,
        Phase::Ready | Phase::Failed => false,
        _ => e is Done,
    }
}

/// Why a boot failed.
pub enum BootError {
    KernelMissing { path: String },
    RootfsMissing { path: String },
    CheckpointMissing { name: String },
    /// A step failed.
    Step(String),
}

impl BootError {
    /// What the error says.
    pub open spec fn text(self) -> Seq<char> {
        match self {
            BootError::KernelMissing { path } => "Kernel not found at "@ + path@
                + ". Run `shuru init` to download."@,
            BootError::RootfsMissing { path } => "Rootfs not found at "@ + path@
                + ". Run `shuru init` to download."@,
            BootError::CheckpointMissing { name } => "Checkpoint '"@ + name@ + "' not found"@,
            BootError::Step(e) => e@,
        }
    }

    /// The error as a message.
    pub fn message(&self) -> (r: String)
        ensures
            r@ == self.text(),
    {
        match self {
            BootError::KernelMissing { path } => {
                let mut r = concat("Kernel not found at ", path.as_str());
                r.append(". Run `shuru init` to download.");
                r
            },
            BootError::RootfsMissing { path } => {
                let mut r = concat("Rootfs not found at ", path.as_str());
                r.append(". Run `shuru init` to download.");
                r
            },
            BootError::CheckpointMissing { name } => {
                let mut r = concat("Checkpoint '", name.as_str());
                r.append("' not found");
                r
            },
            BootError::Step(e) => e.clone(),
        }
    }
}

/// The kernel in a data directory.
pub open spec fn kernel_path(data_dir: Seq<char>) -> Seq<char> {
    data_dir + "/Image"@
}

/// The root disk in a data directory.
pub open spec fn rootfs_path(data_dir: Seq<char>) -> Seq<char> {
    data_dir + "/rootfs.ext4"@
}

/// The initial file system in a data directory.
pub open spec fn initrd_path(data_dir: Seq<char>) -> Seq<char> {
    data_dir + "/initramfs.cpio.gz"@
}

/// The directory of the checkpoints.
pub open spec fn checkpoints_dir(data_dir: Seq<char>) -> Seq<char> {
    data_dir + "/checkpoints"@
}

/// The index of a checkpoint.
pub open spec fn index_file(data_dir: Seq<char>, name: Seq<char>) -> Seq<char> {
    checkpoints_dir(data_dir) + "/"@ + name + ".idx"@
}

/// The disk image of a checkpoint.
pub open spec fn image_file(data_dir: Seq<char>, name: Seq<char>) -> Seq<char> {
    checkpoints_dir(data_dir) + "/"@ + name + ".ext4"@
}

/// The directory of an instance.
pub open spec fn instance_path(data_dir: Seq<char>, pid: nat, seq: nat) -> Seq<char> {
    data_dir + "/instances/sdk-"@ + decimal(pid) + "-"@ + decimal(seq)
}

/// The index of a disk that was not opened from an index: it is named by the
/// hash of the path of the disk.
pub open spec fn derived_index(data_dir: Seq<char>, source: Seq<char>) -> Seq<char> {
    data_dir + "/cas/indexes/"@ + blake3_hex(encode_utf8(source)).take(16) + ".idx"@
}

/// Computes `index_file`.
pub fn make_index_file(data_dir: &str, name: &str) -> (r: String)
    ensures
        r@ == index_file(data_dir@, name@),
{
    let mut r = concat(data_dir, "/checkpoints");
    r.append("/");
    r.append(name);
    r.append(".idx");
    r
}

/// Computes `image_file`.
pub fn make_image_file(data_dir: &str, name: &str) -> (r: String)
    ensures
        r@ == image_file(data_dir@, name@),
{
    let mut r = concat(data_dir, "/checkpoints");
    r.append("/");
    r.append(name);
    r.append(".ext4");
    r
}

/// Computes `derived_index`.
fn make_derived_index(data_dir: &str, source: &str) -> (r: String)
    ensures
        r@ == derived_index(data_dir@, source@),
{
    let hash = hash_hex(source.as_bytes());
    let digits = to_chars(hash.as_str());
    let short = from_chars(&digits, 0, 16);
    assert(short@ =~= blake3_hex(encode_utf8(source@)).take(16));
    let mut r = concat(data_dir, "/cas/indexes/");
    r.append(short.as_str());
    r.append(".idx");
    r
}

/// A step to take.
pub enum BootAction {
    /// Find the default data directory.
    Locate,
    /// See whether this file is there.
    Probe { path: String },
    /// Check the name of a checkpoint.
    Validate { name: String },
    /// Get the process and a number for the instance.
    Number,
    /// Create a directory, with its parents.
    CreateDir { path: String },
    /// Create an empty file.
    Placeholder { path: String },
    /// Clone a file, sharing its blocks where the file system can.
    Clone { from: String, to: String },
    /// Get the size of a file.
    Measure { path: String },
    /// Set the size of a file.
    Extend { path: String, len: u64 },
    /// Start the block device server.
    Serve {
        rootfs: String,
        cas_dir: String,
        index_path: String,
        socket_path: String,
        disk_size: u64,
    },
    /// Start the proxy with the configuration in `Boot::proxy`.
    Connect,
    /// Build the machine, with the mounts in `Boot::mounts` and without a
    /// console. It is connected to the proxy if there is one.
    Build {
        kernel: String,
        rootfs: String,
        cpus: usize,
        memory_mb: u64,
        nbd_uri: Option<String>,
        initrd: Option<String>,
    },
    /// Start the machine.
    Launch,
    /// Forward the ports in `Boot::ports`.
    Forward,
    /// Write the proxy's certificate to this file in the guest.
    Install { path: String },
    /// Run a command in the guest.
    Run { argv: Vec<String> },
    /// Nothing: the sandbox runs.
    Ready,
    /// Nothing: the boot failed.
    Failed,
}

/// A boot under way.
pub struct Boot<M> {
    pub phase: Phase,
    /// The data directory, once it is known.
    pub data_dir: String,
    /// The checkpoint to boot from.
    pub from: Option<String>,
    pub storage: StorageMode,
    /// The size that the disk is to have at least, in megabytes.
    pub disk_size_mb: u64,
    pub cpus: usize,
    pub memory_mb: u64,
    pub mounts: Vec<M>,
    pub ports: Vec<PortMapping>,
    /// What the proxy is started with, if there is to be one.
    pub proxy: Option<ProxyConfig>,
    /// The default environment of commands.
    pub env: StrMap<String>,
    /// The file that the disk comes from, once it was found.
    pub source: Option<String>,
    /// The index that the disk is opened from, if there is one.
    pub cas_index: Option<String>,
    /// The directory of the instance, once it is known.
    pub instance_dir: String,
    /// The address of the block device, once it is served.
    pub nbd_uri: Option<String>,
    /// Whether there is an initial file system.
    pub initrd: bool,
    /// Whether the proxy has placeholders for secrets.
    pub has_placeholders: bool,
    /// Why the boot failed.
    pub failure: Option<BootError>,
}

impl<M> Boot<M> {
    /// The disk is served as a network block device.
    pub open spec fn use_nbd(self) -> bool {
        self.cas_index is Some || self.storage is Cas
    }

    /// The size that the disk is to have at least, in bytes.
    pub open spec fn target_size(self) -> int {
        self.disk_size_mb * 1048576
    }

    /// That size is within the numbers that the machine has for it.
    pub open spec fn size_fits(self) -> bool {
        self.target_size() <= u64::MAX
    }

    /// The step after the port forwards.
    pub open spec fn after_ports(self) -> Phase {
        if self.proxy is Some && self.has_placeholders {
            Phase::Certificate
        } else {
            Phase::Ready
        }
    }

    /// The step after this one, given what came of this one.
    pub open spec fn next_phase(self, e: BootEvent) -> Phase {
        if e.failed() {
            Phase::Failed
        } else {
            match self.phase {
                Phase::Locate => Phase::Kernel,
                Phase::Kernel => if e != BootEvent::Exists(true) {
                    Phase::Failed
                } else if self.from is Some {
                    Phase::Name
                } else {
                    Phase::Rootfs
                },
                Phase::Name => Phase::Index,
                Phase::Index => if e == BootEvent::Exists(true) {
                    Phase::Number
                } else {
                    Phase::Image
                },
                Phase::Image | Phase::Rootfs => if e == BootEvent::Exists(true) {
                    Phase::Number
                } else {
                    Phase::Failed
                },
                Phase::Number => Phase::Directory,
                Phase::Directory => Phase::Disk,
                Phase::Disk => if self.use_nbd() {
                    Phase::Nbd
                } else {
                    Phase::Measure
                },
                Phase::Measure => match e {
                    BootEvent::Measured(Ok(len)) if self.target_size() > len => Phase::Extend,
                    _ => Phase::Initrd,
                },
                Phase::Extend | Phase::Nbd => Phase::Initrd,
                Phase::Initrd => if self.proxy is Some {
                    Phase::Proxy
                } else {
                    Phase::Build
                },
                Phase::Proxy => Phase::Build,
                Phase::Build => Phase::Launch,
                Phase::Launch => if self.ports@.len() > 0 {
                    Phase::Ports
                } else {
                    self.after_ports()
                },
                Phase::Ports => self.after_ports(),
                Phase::Certificate => Phase::Refresh,
                Phase::Refresh => Phase::Ready,
                Phase::Ready => Phase::Ready,
                Phase::Failed => Phase::Failed,
            }
        }
    }

    /// The source of the disk is the one that the configuration asks for: the
    /// checkpoint by its index or by its image, or else the root disk.
    pub open spec fn source_found(self) -> bool {
        match self.from {
            Some(name) => {
                ||| text_of(self.source) == Some(index_file(self.data_dir@, name@)) && text_of(
                    self.cas_index,
                ) == Some(index_file(self.data_dir@, name@))
                ||| text_of(self.source) == Some(image_file(self.data_dir@, name@))
                    && self.cas_index is None
            },
            None => text_of(self.source) == Some(rootfs_path(self.data_dir@)) && self.cas_index
                is None,
        }
    }

    /// What is known at each step of a boot.
    pub open spec fn sound(self) -> bool {
        &&& self.phase is Name || self.phase is Index || self.phase is Image ==> self.from is Some
        &&& self.phase is Rootfs ==> self.from is None
        &&& stage(self.phase) < 5 ==> self.source is None && self.cas_index is None
        &&& 5 <= stage(self.phase) < 18 ==> self.source_found()
        &&& self.phase is Nbd ==> self.use_nbd()
        &&& self.phase is Measure || self.phase is Extend ==> !self.use_nbd()
        &&& stage(self.phase) < 10 ==> self.nbd_uri is None
        &&& 10 <= stage(self.phase) < 18 ==> (self.nbd_uri is Some <==> self.use_nbd())
        &&& self.phase is Proxy ==> self.proxy is Some
        &&& self.phase is Ports ==> self.ports@.len() > 0
        &&& self.phase is Certificate || self.phase is Refresh ==> self.proxy is Some
            && self.has_placeholders
        &&& self.phase is Failed <==> self.failure is Some
    }

    /// What was asked for is as it was.
    pub open spec fn same_request(self, other: Self) -> bool {
        &&& self.from == other.from
        &&& self.storage == other.storage
        &&& self.disk_size_mb == other.disk_size_mb
        &&& self.cpus == other.cpus
        &&& self.memory_mb == other.memory_mb
        &&& self.mounts == other.mounts
        &&& self.ports == other.ports
        &&& self.proxy == other.proxy
        &&& self.env == other.env
    }

    /// A boot with this configuration. The proxy takes the secrets, the allowed
    /// hosts, the exposed ports and the certificates from it.
    pub fn new(config: SandboxConfig<M>) -> (r: Self)
        ensures
            r.sound(),
            match config.data_dir {
                Some(d) => r.phase is Kernel && r.data_dir == d,
                None => r.phase is Locate,
            },
            r.from == config.from,
            r.storage == config.storage,
            r.disk_size_mb == config.disk_size_mb,
            r.cpus == config.cpus,
            r.memory_mb == config.memory_mb,
            r.mounts == config.mounts,
            r.ports == config.ports,
            r.env == config.env,
            r.proxy is Some <==> config.allow_net,
            r.proxy matches Some(p) ==> {
                &&& p.secrets == config.secrets
                &&& p.network.allow == config.allowed_hosts
                &&& p.expose_host == config.expose_host
                &&& p.ca_bundle == config.ca_bundle
            },
    {
        let (phase, data_dir) = match config.data_dir {
            Some(d) => (Phase::Kernel, d),
            None => (Phase::Locate, String::new()),
        };
        let proxy = if config.allow_net {
            Some(
                ProxyConfig {
                    secrets: config.secrets,
                    network: NetworkConfig { allow: config.allowed_hosts },
                    expose_host: config.expose_host,
                    ca_bundle: config.ca_bundle,
                },
            )
        } else {
            None
        };
        Boot {
            phase,
            data_dir,
            from: config.from,
            storage: config.storage,
            disk_size_mb: config.disk_size_mb,
            cpus: config.cpus,
            memory_mb: config.memory_mb,
            mounts: config.mounts,
            ports: config.ports,
            proxy,
            env: config.env,
            source: None,
            cas_index: None,
            instance_dir: String::new(),
            nbd_uri: None,
            initrd: false,
            has_placeholders: false,
            failure: None,
        }
    }

    /// Ends the boot.
    fn fail(&mut self, error: BootError)
        ensures
            final(self).phase is Failed,
            final(self).failure == Some(error),
            final(self).same_request(*old(self)),
            final(self).data_dir == old(self).data_dir,
            final(self).source == old(self).source,
            final(self).cas_index == old(self).cas_index,
            final(self).instance_dir == old(self).instance_dir,
            final(self).nbd_uri == old(self).nbd_uri,
            final(self).initrd == old(self).initrd,
            final(self).has_placeholders == old(self).has_placeholders,
    {
        self.phase = Phase::Failed;
        self.failure = Some(error);
    }

    /// Takes up what came of the current step and goes on to the next one.
    pub fn step(&mut self, event: BootEvent)
        requires
            old(self).sound(),
            answers(old(self).phase, event),
            event is Measured && !event.failed() ==> old(self).size_fits(),
        ensures
            final(self).sound(),
            final(self).phase == old(self).next_phase(event),
            final(self).same_request(*old(self)),
            final(self).data_dir@ == (match event {
                BootEvent::Located(d) => d@,
                _ => old(self).data_dir@,
            }),
            final(self).instance_dir@ == (match event {
                BootEvent::Numbered { pid, seq } => instance_path(
                    old(self).data_dir@,
                    pid as nat,
                    seq as nat,
                ),
                _ => old(self).instance_dir@,
            }),
            text_of(final(self).source) == (if event == BootEvent::Exists(true) {
                match old(self).phase {
                    Phase::Index => Some(index_file(old(self).data_dir@, old(self).from->Some_0@)),
                    Phase::Image => Some(image_file(old(self).data_dir@, old(self).from->Some_0@)),
                    Phase::Rootfs => Some(rootfs_path(old(self).data_dir@)),
                    _ => text_of(old(self).source),
                }
            } else {
                text_of(old(self).source)
            }),
            text_of(final(self).cas_index) == (if event == BootEvent::Exists(true) && old(
                self,
            ).phase is Index {
                Some(index_file(old(self).data_dir@, old(self).from->Some_0@))
            } else {
                text_of(old(self).cas_index)
            }),
            text_of(final(self).nbd_uri) == (match event {
                BootEvent::Served(Ok(uri)) => Some(uri@),
                _ => text_of(old(self).nbd_uri),
            }),
            final(self).initrd == (if old(self).phase is Initrd {
                event == BootEvent::Exists(true)
            } else {
                old(self).initrd
            }),
            final(self).has_placeholders == (match event {
                BootEvent::Connected(Ok(b)) => b,
                _ => old(self).has_placeholders,
            }),
            final(self).failure matches Some(error) ==> match error {
                BootError::Step(e) => event.failed() && e@ == event.error(),
                BootError::KernelMissing { path } => old(self).phase is Kernel && path@
                    == kernel_path(old(self).data_dir@),
                BootError::RootfsMissing { path } => old(self).phase is Rootfs && path@
                    == rootfs_path(old(self).data_dir@),
                BootError::CheckpointMissing { name } => old(self).phase is Image && name@
                    == old(self).from->Some_0@,
            },
    {
        match event {
            BootEvent::Located(d) => {
                self.data_dir = d;
                self.phase = Phase::Kernel;
            },
            BootEvent::Exists(there) => {
                self.probed(there);
            },
            BootEvent::Numbered { pid, seq } => {
                let mut dir = concat(self.data_dir.as_str(), "/instances/sdk-");
                append_decimal(&mut dir, pid as u64);
                dir.append("-");
                append_decimal(&mut dir, seq);
                self.instance_dir = dir;
                self.phase = Phase::Directory;
            },
            BootEvent::Done(Err(e)) => {
                self.fail(BootError::Step(e));
            },
            BootEvent::Done(Ok(_)) => {
                self.done();
            },
            BootEvent::Measured(Err(e)) => {
                self.fail(BootError::Step(e));
            },
            BootEvent::Measured(Ok(len)) => {
                self.phase = if self.disk_size_mb * 1048576 > len {
                    Phase::Extend
                } else {
                    Phase::Initrd
                };
            },
            BootEvent::Served(Err(e)) => {
                self.fail(BootError::Step(e));
            },
            BootEvent::Served(Ok(uri)) => {
                self.nbd_uri = Some(uri);
                self.phase = Phase::Initrd;
            },
            BootEvent::Connected(Err(e)) => {
                self.fail(BootError::Step(e));
            },
            BootEvent::Connected(Ok(has_placeholders)) => {
                self.has_placeholders = has_placeholders;
                self.phase = Phase::Build;
            },
        }
    }

    /// Goes on after a file was looked for.
    fn probed(&mut self, there: bool)
        requires
            old(self).sound(),
            answers(old(self).phase, BootEvent::Exists(there)),
        ensures
            final(self).sound(),
            final(self).phase == old(self).next_phase(BootEvent::Exists(there)),
            final(self).same_request(*old(self)),
            final(self).data_dir == old(self).data_dir,
            final(self).instance_dir == old(self).instance_dir,
            final(self).nbd_uri == old(self).nbd_uri,
            final(self).has_placeholders == old(self).has_placeholders,
            text_of(final(self).source) == (if there {
                match old(self).phase {
                    Phase::Index => Some(index_file(old(self).data_dir@, old(self).from->Some_0@)),
                    Phase::Image => Some(image_file(old(self).data_dir@, old(self).from->Some_0@)),
                    Phase::Rootfs => Some(rootfs_path(old(self).data_dir@)),
                    _ => text_of(old(self).source),
                }
            } else {
                text_of(old(self).source)
            }),
            text_of(final(self).cas_index) == (if there && old(self).phase is Index {
                Some(index_file(old(self).data_dir@, old(self).from->Some_0@))
            } else {
                text_of(old(self).cas_index)
            }),
            final(self).initrd == (if old(self).phase is Initrd {
                there
            } else {
                old(self).initrd
            }),
            final(self).failure matches Some(error) ==> match error {
                BootError::Step(_) => false,
                BootError::KernelMissing { path } => old(self).phase is Kernel && path@
                    == kernel_path(old(self).data_dir@),
                BootError::RootfsMissing { path } => old(self).phase is Rootfs && path@
                    == rootfs_path(old(self).data_dir@),
                BootError::CheckpointMissing { name } => old(self).phase is Image && name@
                    == old(self).from->Some_0@,
            },
    {
        let name = match &self.from {
            Some(name) => name.clone(),
            None => String::new(),
        };
        match self.phase {
            Phase::Kernel => {
                if !there {
                    let path = concat(self.data_dir.as_str(), "/Image");
                    self.fail(BootError::KernelMissing { path });
                } else if self.from.is_some() {
                    self.phase = Phase::Name;
                } else {
                    self.phase = Phase::Rootfs;
                }
            },
            Phase::Index => {
                if there {
                    let path = make_index_file(self.data_dir.as_str(), name.as_str());
                    self.cas_index = Some(path.clone());
                    self.source = Some(path);
                    self.phase = Phase::Number;
                } else {
                    self.phase = Phase::Image;
                }
            },
            Phase::Image => {
                if there {
                    let path = make_image_file(self.data_dir.as_str(), name.as_str());
                    self.source = Some(path);
                    self.phase = Phase::Number;
                } else {
                    self.fail(BootError::CheckpointMissing { name });
                }
            },
            Phase::Rootfs => {
                let path = concat(self.data_dir.as_str(), "/rootfs.ext4");
                if there {
                    self.source = Some(path);
                    self.phase = Phase::Number;
                } else {
                    self.fail(BootError::RootfsMissing { path });
                }
            },
            _ => {
                self.initrd = there;
                self.phase = if self.proxy.is_some() {
                    Phase::Proxy
                } else {
                    Phase::Build
                };
            },
        }
    }

    /// Goes on after a step that went well and gave nothing back.
    fn done(&mut self)
        requires
            old(self).sound(),
            answers(old(self).phase, BootEvent::Done(Ok(()))),
        ensures
            final(self).sound(),
            *final(self) == (Boot {
                phase: old(self).next_phase(BootEvent::Done(Ok(()))),
                ..*old(self)
            }),
    {
        let serves_nbd = self.cas_index.is_some() || matches!(self.storage, StorageMode::Cas { .. });
        let after_ports = if self.proxy.is_some() && self.has_placeholders {
            Phase::Certificate
        } else {
            Phase::Ready
        };
        self.phase = match self.phase {
            Phase::Name => Phase::Index,
            Phase::Directory => Phase::Disk,
            Phase::Disk => if serves_nbd {
                Phase::Nbd
            } else {
                Phase::Measure
            },
            Phase::Extend => Phase::Initrd,
            Phase::Build => Phase::Launch,
            Phase::Launch => if self.ports.len() > 0 {
                Phase::Ports
            } else {
                after_ports
            },
            Phase::Ports => after_ports,
            Phase::Certificate => Phase::Refresh,
            _ => Phase::Ready,
        };
    }

    /// The step to take now.
    pub fn action(&self) -> (r: BootAction)
        requires
            self.sound(),
            self.phase is Extend || self.phase is Nbd ==> self.size_fits(),
        ensures
            match self.phase {
                Phase::Locate => r is Locate,
                Phase::Kernel => r matches BootAction::Probe { path } && path@ == kernel_path(
                    self.data_dir@,
                ),
                Phase::Name => r matches BootAction::Validate { name } && Some(name@) == text_of(
                    self.from,
                ),
                Phase::Index => r matches BootAction::Probe { path } && path@ == index_file(
                    self.data_dir@,
                    self.from->Some_0@,
                ),
                Phase::Image => r matches BootAction::Probe { path } && path@ == image_file(
                    self.data_dir@,
                    self.from->Some_0@,
                ),
                Phase::Rootfs => r matches BootAction::Probe { path } && path@ == rootfs_path(
                    self.data_dir@,
                ),
                Phase::Number => r is Number,
                Phase::Directory => r matches BootAction::CreateDir { path } && path@
                    == self.instance_dir@,
                Phase::Disk => if self.use_nbd() {
                    r matches BootAction::Placeholder { path } && path@ == rootfs_path(
                        self.instance_dir@,
                    )
                } else {
                    r matches BootAction::Clone { from, to } && Some(from@) == text_of(self.source)
                        && to@ == rootfs_path(self.instance_dir@)
                },
                Phase::Measure => r matches BootAction::Measure { path } && path@ == rootfs_path(
                    self.instance_dir@,
                ),
                Phase::Extend => r matches BootAction::Extend { path, len } && path@
                    == rootfs_path(self.instance_dir@) && len == self.target_size(),
                Phase::Nbd => r matches BootAction::Serve {
                    rootfs,
                    cas_dir,
                    index_path,
                    socket_path,
                    disk_size,
                } && Some(rootfs@) == text_of(self.source) && cas_dir@ == (match self.storage {
                    StorageMode::Cas { cas_dir: Some(d) } => d@,
                    _ => self.data_dir@ + "/cas"@,
                }) && index_path@ == (match self.cas_index {
                    Some(idx) => idx@,
                    None => derived_index(self.data_dir@, self.source->Some_0@),
                }) && socket_path@ == self.instance_dir@ + "/nbd.sock"@ && disk_size
                    == self.target_size(),
                Phase::Initrd => r matches BootAction::Probe { path } && path@ == initrd_path(
                    self.data_dir@,
                ),
                Phase::Proxy => r is Connect,
                Phase::Build => r matches BootAction::Build {
                    kernel,
                    rootfs,
                    cpus,
                    memory_mb,
                    nbd_uri,
                    initrd,
                } && kernel@ == kernel_path(self.data_dir@) && rootfs@ == rootfs_path(
                    self.instance_dir@,
                ) && cpus == self.cpus && memory_mb == self.memory_mb && text_of(nbd_uri)
                    == text_of(self.nbd_uri) && text_of(initrd) == (if self.initrd {
                    Some(initrd_path(self.data_dir@))
                } else {
                    None
                }),
                Phase::Launch => r is Launch,
                Phase::Ports => r is Forward,
                Phase::Certificate => r matches BootAction::Install { path } && path@
                    == "/usr/local/share/ca-certificates/shuru-proxy.crt"@,
                Phase::Refresh => r matches BootAction::Run { argv } && argv@.len() == 2
                    && argv@[0]@ == "update-ca-certificates"@ && argv@[1]@ == "--fresh"@,
                Phase::Ready => r is Ready,
                Phase::Failed => r is Failed,
            },
    {
        let data_dir = self.data_dir.as_str();
        let name = match &self.from {
            Some(name) => name.clone(),
            None => String::new(),
        };
        let source = match &self.source {
            Some(source) => source.clone(),
            None => String::new(),
        };
        let work_rootfs = concat(self.instance_dir.as_str(), "/rootfs.ext4");
        match self.phase {
            Phase::Locate => BootAction::Locate,
            Phase::Kernel => BootAction::Probe { path: concat(data_dir, "/Image") },
            Phase::Name => BootAction::Validate { name },
            Phase::Index => BootAction::Probe { path: make_index_file(data_dir, name.as_str()) },
            Phase::Image => BootAction::Probe { path: make_image_file(data_dir, name.as_str()) },
            Phase::Rootfs => BootAction::Probe { path: concat(data_dir, "/rootfs.ext4") },
            Phase::Number => BootAction::Number,
            Phase::Directory => BootAction::CreateDir { path: self.instance_dir.clone() },
            Phase::Disk => {
                if self.cas_index.is_some() || matches!(self.storage, StorageMode::Cas { .. }) {
                    BootAction::Placeholder { path: work_rootfs }
                } else {
                    BootAction::Clone { from: source, to: work_rootfs }
                }
            },
            Phase::Measure => BootAction::Measure { path: work_rootfs },
            Phase::Extend => BootAction::Extend {
                path: work_rootfs,
                len: self.disk_size_mb * 1048576,
            },
            Phase::Nbd => {
                let cas_dir = match &self.storage {
                    StorageMode::Cas { cas_dir: Some(d) } => d.clone(),
                    _ => concat(data_dir, "/cas"),
                };
                let index_path = match &self.cas_index {
                    Some(idx) => idx.clone(),
                    None => make_derived_index(data_dir, source.as_str()),
                };
                BootAction::Serve {
                    rootfs: source,
                    cas_dir,
                    index_path,
                    socket_path: concat(self.instance_dir.as_str(), "/nbd.sock"),
                    disk_size: self.disk_size_mb * 1048576,
                }
            },
            Phase::Initrd => BootAction::Probe { path: concat(data_dir, "/initramfs.cpio.gz") },
            Phase::Proxy => BootAction::Connect,
            Phase::Build => BootAction::Build {
                kernel: concat(data_dir, "/Image"),
                rootfs: work_rootfs,
                cpus: self.cpus,
                memory_mb: self.memory_mb,
                nbd_uri: self.nbd_uri.clone(),
                initrd: if self.initrd {
                    Some(concat(data_dir, "/initramfs.cpio.gz"))
                } else {
                    None
                },
            },
            Phase::Launch => BootAction::Launch,
            Phase::Ports => BootAction::Forward,
            Phase::Certificate => BootAction::Install {
                path: "/usr/local/share/ca-certificates/shuru-proxy.crt".to_string(),
            },
            Phase::Refresh => {
                let mut argv: Vec<String> = Vec::new();
                argv.push("update-ca-certificates".to_string());
                argv.push("--fresh".to_string());
                BootAction::Run { argv }
            },
            Phase::Ready => BootAction::Ready,
            Phase::Failed => BootAction::Failed,
        }
    }
}

/// A boot comes to an end: every step goes to a later stage, and there are
/// eighteen stages after the first.
pub proof fn law_boot_advances<M>(boot: Boot<M>, e: BootEvent)
    requires
        answers(boot.phase, e),
    ensures
        stage(boot.phase) < stage(boot.next_phase(e)) <= 18,
{
}

/// A step that failed ends the boot.
pub proof fn law_failed_step_ends_the_boot<M>(boot: Boot<M>, e: BootEvent)
    requires
        answers(boot.phase, e),
        e.failed(),
    ensures
        boot.next_phase(e) is Failed,
{
}

/// A step of this phase changes something outside.
pub open spec fn leaves_traces(p: Phase) -> bool {
    match p {
        Phase::Locate | Phase::Kernel | Phase::Name | Phase::Index | Phase::Image
        | Phase::Rootfs | Phase::Number | Phase::Measure | Phase::Initrd | Phase::Ready
        | Phase::Failed => false,
        _ => true,
    }
}

/// A boot leaves no traces before it has found the kernel and the source of the
/// disk.
pub proof fn law_no_traces_before_the_source<M>(boot: Boot<M>)
    requires
        boot.sound(),
        leaves_traces(boot.phase),
    ensures
        boot.source_found(),
{
}

/// A sandbox that runs has its disk from where the configuration says, and has
/// it through the block device server exactly when it is kept in a chunk store.
pub proof fn law_ready_sandbox_has_its_disk<M>(boot: Boot<M>)
    requires
        boot.sound(),
        boot.phase is Ready,
    ensures
        boot.source_found(),
        boot.failure is None,
        boot.nbd_uri is Some <==> boot.cas_index is Some || boot.storage is Cas,
{
}

/// Numerals with a dash between them are told apart.
proof fn lemma_dashed_numerals(a1: nat, b1: nat, a2: nat, b2: nat)
    requires
        decimal(a1) + "-"@ + decimal(b1) == decimal(a2) + "-"@ + decimal(b2),
    ensures
        a1 == a2,
        b1 == b2,
{
    reveal_strlit("-");
    law_decimal_is_read_back(a1);
    law_decimal_is_read_back(a2);
    law_decimal_is_read_back(b1);
    law_decimal_is_read_back(b2);
    let (p1, q1) = (decimal(a1), decimal(b1));
    let (p2, q2) = (decimal(a2), decimal(b2));
    let s1 = p1 + "-"@ + q1;
    let s2 = p2 + "-"@ + q2;
    assert(s1[p1.len() as int] == '-');
    assert(s2[p2.len() as int] == '-');
    if p1.len() < p2.len() {
        assert(s2[p1.len() as int] == p2[p1.len() as int]);
    }
    if p2.len() < p1.len() {
        assert(s1[p2.len() as int] == p1[p2.len() as int]);
    }
    assert(p1 =~= p2) by {
        assert forall|i: int| 0 <= i < p1.len() implies p1[i] == p2[i] by {
            assert(s1[i] == p1[i]);
            assert(s2[i] == p2[i]);
        }
    }
    assert(q1 =~= q2) by {
        assert(s1.len() == s2.len());
        assert forall|i: int| 0 <= i < q1.len() implies q1[i] == q2[i] by {
            assert(s1[p1.len() + 1 + i] == q1[i]);
            assert(s2[p2.len() + 1 + i] == q2[i]);
        }
    }
}

/// Instances do not collide: in one data directory, two processes or two numbers
/// never have the same instance directory.
pub proof fn law_instances_do_not_collide(
    data_dir: Seq<char>,
    pid1: nat,
    seq1: nat,
    pid2: nat,
    seq2: nat,
)
    requires
        instance_path(data_dir, pid1, seq1) == instance_path(data_dir, pid2, seq2),
    ensures
        pid1 == pid2,
        seq1 == seq2,
{
    let pre = data_dir + "/instances/sdk-"@;
    let n = pre.len() as int;
    let t1 = decimal(pid1) + "-"@ + decimal(seq1);
    let t2 = decimal(pid2) + "-"@ + decimal(seq2);
    let s1 = instance_path(data_dir, pid1, seq1);
    let s2 = instance_path(data_dir, pid2, seq2);
    assert(s1.skip(n) =~= t1);
    assert(s2.skip(n) =~= t2);
    lemma_dashed_numerals(pid1, seq1, pid2, seq2);
}

/// What leads to each step of a boot: the step that was taken before it, and what
/// came of that.
pub proof fn law_what_leads_to_a_step<M>(b: &mut Boot<M>, e: BootEvent)
    requires
        answers(old(b).phase, e),
        call_ensures(Boot::<M>::step, (b, e), ()),
    ensures
        ({
            let was = old(b).phase;
            let went_well = e matches BootEvent::Done(Ok(_));
            let in_store = old(b).cas_index is Some || old(b).storage is Cas;
            let certified = old(b).proxy is Some && old(b).has_placeholders;
            let forwarded = went_well && (was is Ports || was is Launch && old(b).ports@.len()
                == 0);
            match final(b).phase {
                Phase::Locate => false,
                Phase::Kernel => was is Locate,
                Phase::Name => was is Kernel && e == BootEvent::Exists(true) && old(b).from
                    is Some,
                Phase::Rootfs => was is Kernel && e == BootEvent::Exists(true) && old(b).from
                    is None,
                Phase::Index => was is Name && went_well,
                Phase::Image => was is Index && e == BootEvent::Exists(false),
                Phase::Number => (was is Index || was is Image || was is Rootfs) && e
                    == BootEvent::Exists(true),
                Phase::Directory => was is Number,
                Phase::Disk => was is Directory && went_well,
                Phase::Nbd => was is Disk && went_well && in_store,
                Phase::Measure => was is Disk && went_well && !in_store,
                Phase::Extend => was is Measure && (e matches BootEvent::Measured(Ok(len)) && len
                    < old(b).disk_size_mb * 1024 * 1024),
                Phase::Initrd => {
                    ||| was is Extend && went_well
                    ||| was is Nbd && (e matches BootEvent::Served(Ok(_)))
                    ||| was is Measure && (e matches BootEvent::Measured(Ok(len)) && len
                        >= old(b).disk_size_mb * 1024 * 1024)
                },
                Phase::Proxy => was is Initrd && old(b).proxy is Some,
                Phase::Build => {
                    ||| was is Initrd && old(b).proxy is None
                    ||| was is Proxy && (e matches BootEvent::Connected(Ok(_)))
                },
                Phase::Launch => was is Build && went_well,
                Phase::Ports => was is Launch && went_well && old(b).ports@.len() > 0,
                Phase::Certificate => forwarded && certified,
                Phase::Refresh => was is Certificate && went_well,
                Phase::Ready => was is Refresh && went_well || forwarded && !certified,
                Phase::Failed => {
                    ||| e matches BootEvent::Done(Err(_))
                    ||| e matches BootEvent::Measured(Err(_))
                    ||| e matches BootEvent::Served(Err(_))
                    ||| e matches BootEvent::Connected(Err(_))
                    ||| e == BootEvent::Exists(false) && (was is Kernel || was is Image || was
                        is Rootfs)
                },
            }
        }),
{
}

/// What a step leaves behind: the file that was found is the source of the disk,
/// an index that was found is also the index of the disk, what was reported is
/// taken up, and what was asked for is as it was.
pub proof fn law_what_a_step_leaves<M>(b: &mut Boot<M>, e: BootEvent, a: BootAction)
    requires
        old(b).sound(),
        answers(old(b).phase, e),
        call_ensures(Boot::<M>::action, (old(b),), a),
        call_ensures(Boot::<M>::step, (b, e), ()),
    ensures
        ({
            let (was, now) = (*old(b), *final(b));
            let found = e == BootEvent::Exists(true) && (was.phase is Index || was.phase is Image
                || was.phase is Rootfs);
            &&& found ==> (a matches BootAction::Probe { path } && now.source matches Some(s) && s@
                == path@)
            &&& found && was.phase is Index ==> (a matches BootAction::Probe { path }
                && now.cas_index matches Some(i) && i@ == path@)
            &&& !found ==> same_text(now.source, was.source)
            &&& !(found && was.phase is Index) ==> same_text(now.cas_index, was.cas_index)
            &&& e matches BootEvent::Located(dir) ==> now.data_dir@ == dir@
            &&& !(e is Located) ==> now.data_dir@ == was.data_dir@
            &&& e matches BootEvent::Numbered { pid, seq } ==> now.instance_dir@ == was.data_dir@
                + "/instances/sdk-"@ + decimal(pid as nat) + "-"@ + decimal(seq as nat)
            &&& !(e is Numbered) ==> now.instance_dir@ == was.instance_dir@
            &&& e matches BootEvent::Served(Ok(uri)) ==> (now.nbd_uri matches Some(u) && u@ == uri@)
            &&& !(e matches BootEvent::Served(Ok(_))) ==> same_text(now.nbd_uri, was.nbd_uri)
            &&& was.phase is Initrd ==> now.initrd == (e == BootEvent::Exists(true))
            &&& !(was.phase is Initrd) ==> now.initrd == was.initrd
            &&& e matches BootEvent::Connected(Ok(has)) ==> now.has_placeholders == has
            &&& !(e matches BootEvent::Connected(Ok(_))) ==> now.has_placeholders
                == was.has_placeholders
            &&& now.from == was.from && now.storage == was.storage
            &&& now.disk_size_mb == was.disk_size_mb && now.cpus == was.cpus
            &&& now.memory_mb == was.memory_mb && now.mounts == was.mounts
            &&& now.ports == was.ports && now.proxy == was.proxy && now.env == was.env
        }),
{
}

/// Two optional strings are both absent or have the same characters.
pub open spec fn same_text(a: Option<String>, b: Option<String>) -> bool {
    match (a, b) {
        (Some(x), Some(y)) => x@ == y@,
        (None, None) => true,
        _ => false,
    }
}

/// A boot that fails says why: a file that is missing is named, and a step that
/// failed is quoted. Nothing is said of a boot that did not fail.
pub proof fn law_failed_boot_says_why<M>(b: &mut Boot<M>, e: BootEvent, a: BootAction, m: String)
    requires
        old(b).sound(),
        answers(old(b).phase, e),
        call_ensures(Boot::<M>::action, (old(b),), a),
        call_ensures(Boot::<M>::step, (b, e), ()),
        final(b).failure is Some ==> call_ensures(
            BootError::message,
            (&final(b).failure->Some_0,),
            m,
        ),
    ensures
        final(b).failure is Some <==> final(b).phase is Failed,
        final(b).phase is Failed ==> m@ == match e {
            BootEvent::Done(Err(x)) => x@,
            BootEvent::Measured(Err(x)) => x@,
            BootEvent::Served(Err(x)) => x@,
            BootEvent::Connected(Err(x)) => x@,
            _ => if old(b).phase is Kernel {
                "Kernel not found at "@ + a->Probe_path@ + ". Run `shuru init` to download."@
            } else if old(b).phase is Rootfs {
                "Rootfs not found at "@ + a->Probe_path@ + ". Run `shuru init` to download."@
            } else {
                "Checkpoint '"@ + old(b).from->Some_0@ + "' not found"@
            },
        },
{
}

/// What is done, and with what. The disk that is cloned, measured, extended and
/// given to the machine is one and the same; a disk in a chunk store is served
/// from its source, and the machine then has its address; and the machine has the
/// size that was asked for.
pub proof fn law_what_is_done<M>(b: &Boot<M>, a: BootAction)
    requires
        b.sound(),
        call_ensures(Boot::<M>::action, (b,), a),
    ensures
        ({
            let in_store = b.cas_index is Some || b.storage is Cas;
            let work = b.instance_dir@ + "/rootfs.ext4"@;
            match a {
                BootAction::Locate => b.phase is Locate,
                BootAction::Probe { path } => {
                    ||| b.phase is Kernel && path@ == b.data_dir@ + "/Image"@
                    ||| b.phase is Index && path@ == b.data_dir@ + "/checkpoints"@ + "/"@
                        + b.from->Some_0@ + ".idx"@
                    ||| b.phase is Image && path@ == b.data_dir@ + "/checkpoints"@ + "/"@
                        + b.from->Some_0@ + ".ext4"@
                    ||| b.phase is Rootfs && path@ == b.data_dir@ + "/rootfs.ext4"@
                    ||| b.phase is Initrd && path@ == b.data_dir@ + "/initramfs.cpio.gz"@
                },
                BootAction::Validate { name } => b.phase is Name && name@ == b.from->Some_0@,
                BootAction::Number => b.phase is Number,
                BootAction::CreateDir { path } => b.phase is Directory && path@ == b.instance_dir@,
                BootAction::Placeholder { path } => b.phase is Disk && in_store && path@ == work,
                BootAction::Clone { from, to } => b.phase is Disk && !in_store && from@
                    == b.source->Some_0@ && to@ == work,
                BootAction::Measure { path } => b.phase is Measure && path@ == work,
                BootAction::Extend { path, len } => b.phase is Extend && path@ == work && len
                    == b.disk_size_mb * 1024 * 1024,
                BootAction::Serve { rootfs, cas_dir, index_path, socket_path, disk_size } => {
                    &&& b.phase is Nbd
                    &&& rootfs@ == b.source->Some_0@
                    &&& match b.storage {
                        StorageMode::Cas { cas_dir: Some(dir) } => cas_dir@ == dir@,
                        _ => cas_dir@ == b.data_dir@ + "/cas"@,
                    }
                    &&& match b.cas_index {
                        Some(index) => index_path@ == index@,
                        None => index_path@ == b.data_dir@ + "/cas/indexes/"@ + blake3_hex(
                            encode_utf8(rootfs@),
                        ).subrange(0, 16) + ".idx"@,
                    }
                    &&& socket_path@ == b.instance_dir@ + "/nbd.sock"@
                    &&& disk_size == b.disk_size_mb * 1024 * 1024
                },
                BootAction::Connect => b.phase is Proxy,
                BootAction::Build { kernel, rootfs, cpus, memory_mb, nbd_uri, initrd } => {
                    &&& b.phase is Build
                    &&& kernel@ == b.data_dir@ + "/Image"@
                    &&& rootfs@ == work
                    &&& cpus == b.cpus && memory_mb == b.memory_mb
                    &&& nbd_uri is Some <==> in_store
                    &&& nbd_uri matches Some(uri) ==> uri@ == b.nbd_uri->Some_0@
                    &&& initrd is Some <==> b.initrd
                    &&& initrd matches Some(path) ==> path@ == b.data_dir@
                        + "/initramfs.cpio.gz"@
                },
                BootAction::Launch => b.phase is Launch,
                BootAction::Forward => b.phase is Ports,
                BootAction::Install { path } => b.phase is Certificate && path@
                    == "/usr/local/share/ca-certificates/shuru-proxy.crt"@,
                BootAction::Run { argv } => b.phase is Refresh && argv@.len() == 2 && argv@[0]@
                    == "update-ca-certificates"@ && argv@[1]@ == "--fresh"@,
                BootAction::Ready => b.phase is Ready,
                BootAction::Failed => b.phase is Failed,
            }
        }),
{
    if b.phase is Nbd && b.cas_index is None {
        let hash = blake3_hex(encode_utf8(b.source->Some_0@));
        assert(hash.take(16) =~= hash.subrange(0, 16));
    }
}

/// A boot starts with what the configuration says: at the kernel where a data
/// directory is given and by finding one otherwise. There is a proxy exactly where
/// the network is allowed, and it is configured with the secrets, hosts, ports and
/// certificates of the sandbox.
pub proof fn law_boot_takes_up_the_configuration<M>(c: SandboxConfig<M>, b: Boot<M>)
    requires
        call_ensures(Boot::<M>::new, (c,), b),
    ensures
        match c.data_dir {
            Some(dir) => b.phase is Kernel && b.data_dir@ == dir@,
            None => b.phase is Locate,
        },
        b.from == c.from && b.storage == c.storage && b.disk_size_mb == c.disk_size_mb,
        b.cpus == c.cpus && b.memory_mb == c.memory_mb,
        b.mounts == c.mounts && b.ports == c.ports && b.env == c.env,
        match b.proxy {
            Some(p) => {
                &&& c.allow_net
                &&& p.secrets == c.secrets
                &&& p.network.allow == c.allowed_hosts
                &&& p.expose_host == c.expose_host
                &&& p.ca_bundle == c.ca_bundle
            },
            None => !c.allow_net,
        },
        b.source is None && b.cas_index is None && b.failure is None,
{
}

/// A boot with these properties has to take this step.
pub open spec fn is_due<M>(p: Phase, b: Boot<M>) -> bool {
    match p {
        Phase::Kernel | Phase::Number | Phase::Directory | Phase::Disk | Phase::Initrd
        | Phase::Build | Phase::Launch => true,
        Phase::Nbd => b.cas_index is Some || b.storage is Cas,
        Phase::Measure => !(b.cas_index is Some || b.storage is Cas),
        Phase::Proxy => b.proxy is Some,
        Phase::Ports => b.ports@.len() > 0,
        Phase::Certificate | Phase::Refresh => b.proxy is Some && b.has_placeholders,
        _ => false,
    }
}

/// A sandbox that is ready has gone through every step that its configuration asks
/// for: its kernel was found, it has an instance and a disk, served or measured,
/// the proxy was started if there is one, the machine was built and started, the
/// ports were forwarded if there are any, and the certificate was taken up where
/// the proxy has secrets. The boot took the steps `steps`, each from where the one
/// before it had led, and `events` came of them.
pub proof fn law_ready_sandbox_took_its_steps<M>(
    steps: Seq<&mut Boot<M>>,
    events: Seq<BootEvent>,
    p: Phase,
)
    requires
        steps.len() == events.len(),
        steps.len() > 0,
        steps[0].phase is Locate || steps[0].phase is Kernel,
        forall|i: int|
            0 <= i < steps.len() ==> #[trigger] answers(steps[i].phase, events[i])
                && call_ensures(Boot::<M>::step, (steps[i], events[i]), ()),
        forall|i: int|
            0 < i < steps.len() && #[trigger] answers(steps[i].phase, events[i]) ==> *steps[i]
                == *final(steps[i - 1]),
        final(steps.last()).phase is Ready,
        is_due(p, *final(steps.last())),
    ensures
        exists|i: int|
            0 <= i < steps.len() && #[trigger] answers(steps[i].phase, events[i]) && steps[i].phase
                == p,
{
    lemma_steps_were_taken(steps, events, p, steps.len() - 1);
}

/// A step that is due and lies behind was taken.
proof fn lemma_steps_were_taken<M>(
    steps: Seq<&mut Boot<M>>,
    events: Seq<BootEvent>,
    p: Phase,
    n: int,
)
    requires
        steps.len() == events.len(),
        steps[0].phase is Locate || steps[0].phase is Kernel,
        forall|i: int|
            0 <= i < steps.len() ==> #[trigger] answers(steps[i].phase, events[i])
                && call_ensures(Boot::<M>::step, (steps[i], events[i]), ()),
        forall|i: int|
            0 < i < steps.len() && #[trigger] answers(steps[i].phase, events[i]) ==> *steps[i]
                == *final(steps[i - 1]),
        0 <= n < steps.len(),
        !(final(steps[n]).phase is Failed),
        stage(p) < stage(final(steps[n]).phase),
        is_due(p, *final(steps[n])),
    ensures
        exists|i: int|
            0 <= i < steps.len() && #[trigger] answers(steps[i].phase, events[i]) && steps[i].phase
                == p,
    decreases n,
{
    assert(answers(steps[n].phase, events[n]));
    if n > 0 {
        assert(answers(steps[n - 1].phase, events[n - 1]));
        assert(*steps[n] == *final(steps[n - 1]));
        assert(steps[n].sound());
    }
    lemma_step_is_due(steps[n], events[n], p);
    if steps[n].phase != p {
        lemma_steps_were_taken(steps, events, p, n - 1);
    }
}

/// Before a step that lies behind a due one, the due one was at hand or behind.
proof fn lemma_step_is_due<M>(b: &mut Boot<M>, e: BootEvent, p: Phase)
    requires
        old(b).phase is Locate || old(b).phase is Kernel || old(b).sound(),
        answers(old(b).phase, e),
        call_ensures(Boot::<M>::step, (b, e), ()),
        !(final(b).phase is Failed),
        stage(p) < stage(final(b).phase),
        is_due(p, *final(b)),
    ensures
        !(old(b).phase is Failed),
        old(b).phase == p || stage(p) < stage(old(b).phase) && is_due(p, *old(b)),
{
    assert(final(b).cas_index is Some == (text_of(final(b).cas_index) is Some));
    assert(old(b).cas_index is Some == (text_of(old(b).cas_index) is Some));
}

/// Until a boot ends, every event of the sort that its step ends in is taken, where
/// the size of the disk is within the numbers that there are for it.
pub proof fn law_boot_takes_every_answer<M>(b: &mut Boot<M>, e: BootEvent)
    requires
        old(b).sound(),
        match old(b).phase {
            Phase::Locate => e is Located,
            Phase::Kernel | Phase::Index | Phase::Image | Phase::Rootfs | Phase::Initrd => {
                e is Exists
            },
            Phase::Number => e is Numbered,
            Phase::Measure => e is Measured,
            Phase::Nbd => e is Served,
            Phase::Proxy => e is Connected,
            _ => e is Done,
        },
        !(old(b).phase is Ready || old(b).phase is Failed),
        old(b).disk_size_mb * 1048576 <= 18446744073709551615,
    ensures
        call_requires(Boot::<M>::step, (b, e)),
        call_requires(Boot::<M>::action, (old(b),)),
{
}

} // verus!
