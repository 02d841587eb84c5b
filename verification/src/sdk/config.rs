//! What a sandbox is configured with.

use vstd::prelude::*;

use crate::map::StrMap;

verus! {

/// Where the root disk of a virtual machine lives.
#[derive(Debug, Clone)]
pub enum StorageMode {
    /// A disk image that is attached directly: a copy-on-write clone of its
    /// source.
    Direct,
    /// A content-addressable chunk store behind a network block device.
    Cas {
        /// Directory of the chunk store; `<data_dir>/cas` where there is none.
        cas_dir: Option<String>,
    },
}

impl Default for StorageMode {
    fn default() -> (r: Self)
        ensures
            r is Direct,
    {
        StorageMode::Direct
    }
}

/// A secret that the proxy puts into requests.
#[derive(Debug, Clone)]
pub struct SecretConfig {
    /// Host environment variable with the real value.
    pub from: String,
    /// Domains to which the secret may be sent.
    pub hosts: Vec<String>,
    /// The value itself, in place of an environment variable.
    pub value: Option<String>,
}

/// A host port that the guest can reach.
#[derive(Debug, Clone, Copy, PartialEq, Eq, Structural)]
pub struct ExposeHostMapping {
    pub host_port: u16,
    pub guest_port: u16,
}

/// A guest port that is forwarded from a host port.
#[derive(Debug, Clone, Copy, PartialEq, Eq, Structural)]
pub struct PortMapping {
    pub host_port: u16,
    pub guest_port: u16,
}

/// Which hosts the guest may reach.
pub struct NetworkConfig {
    /// Allowed domain patterns. Without any, all are allowed.
    pub allow: Vec<String>,
}

/// What the proxy is configured with.
pub struct ProxyConfig {
    pub secrets: StrMap<SecretConfig>,
    pub network: NetworkConfig,
    pub expose_host: Vec<ExposeHostMapping>,
    pub ca_bundle: Option<String>,
}

impl Default for ProxyConfig {
    fn default() -> (r: Self)
        ensures
            r.secrets@ == Map::<Seq<char>, SecretConfig>::empty(),
            r.network.allow@.len() == 0,
            r.expose_host@.len() == 0,
            r.ca_bundle is None,
    {
        ProxyConfig {
            secrets: StrMap::new(),
            network: NetworkConfig { allow: Vec::new() },
            expose_host: Vec::new(),
            ca_bundle: None,
        }
    }
}

/// Configuration for booting a sandbox. `M` is a directory mount.
#[derive(Debug, Clone)]
pub struct SandboxConfig<M> {
    /// Directory with the kernel, the root disk and the initial file system.
    pub data_dir: Option<String>,
    pub cpus: usize,
    pub memory_mb: u64,
    pub disk_size_mb: u64,
    /// Host directories that the guest sees.
    pub mounts: Vec<M>,
    /// Whether the guest has a network, through the proxy.
    pub allow_net: bool,
    /// Secrets for the proxy.
    pub secrets: StrMap<SecretConfig>,
    /// Domain patterns that the guest may reach.
    pub allowed_hosts: Vec<String>,
    /// Certificates for the proxy's own connections.
    pub ca_bundle: Option<String>,
    pub ports: Vec<PortMapping>,
    pub expose_host: Vec<ExposeHostMapping>,
    /// The checkpoint to boot from, in place of the root disk.
    pub from: Option<String>,
    pub storage: StorageMode,
    /// Environment of every command. Proxy placeholders go over it, and what a
    /// caller asks for goes over both.
    pub env: StrMap<String>,
}

impl<M> Default for SandboxConfig<M> {
    fn default() -> (r: Self)
        ensures
            r.data_dir is None,
            r.cpus == 2,
            r.memory_mb == 2048,
            r.disk_size_mb == 4096,
            r.mounts@.len() == 0,
            !r.allow_net,
            r.secrets@ == Map::<Seq<char>, SecretConfig>::empty(),
            r.allowed_hosts@.len() == 0,
            r.ca_bundle is None,
            r.ports@.len() == 0,
            r.expose_host@.len() == 0,
            r.from is None,
            r.storage is Direct,
            r.env@ == Map::<Seq<char>, String>::empty(),
    {
        SandboxConfig {
            data_dir: None,
            cpus: 2,
            memory_mb: 2048,
            disk_size_mb: 4096,
            mounts: Vec::new(),
            allow_net: false,
            secrets: StrMap::new(),
            allowed_hosts: Vec::new(),
            ca_bundle: None,
            ports: Vec::new(),
            expose_host: Vec::new(),
            from: None,
            storage: StorageMode::Direct,
            env: StrMap::new(),
        }
    }
}

/// A sandbox that nothing was asked for has two processors, 2048 MB of memory and a
/// disk of 4096 MB that is attached directly. It has no network and boots from the
/// root disk.
pub proof fn law_default_sandbox<M>(c: SandboxConfig<M>, p: ProxyConfig, s: StorageMode, k: Seq<char>)
    requires
        call_ensures(SandboxConfig::<M>::default, (), c),
        call_ensures(ProxyConfig::default, (), p),
        call_ensures(StorageMode::default, (), s),
    ensures
        s is Direct && c.storage is Direct,
        c.cpus == 2 && c.memory_mb == 2048 && c.disk_size_mb == 4096,
        c.data_dir is None && c.from is None && c.ca_bundle is None && p.ca_bundle is None,
        !c.allow_net,
        c.mounts@.len() == 0 && c.ports@.len() == 0,
        c.allowed_hosts@.len() == 0 && p.network.allow@.len() == 0,
        c.expose_host@.len() == 0 && p.expose_host@.len() == 0,
        !c.secrets@.contains_key(k) && !p.secrets@.contains_key(k) && !c.env@.contains_key(k),
{
}

} // verus!
