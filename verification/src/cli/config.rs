//! The configuration file of the command line.

use vstd::prelude::*;
use vstd::string::StringExecFns;

use crate::map::StrMap;
use crate::sdk::config::{ExposeHostMapping, ProxyConfig, SecretConfig};
use crate::text::{concat, find_char, from_chars, parse_unsigned, to_chars};

verus! {

use crate::map::entry_map;
use crate::text::{
    decimal, first_at, law_decimal_is_read_back, lemma_first_at_behind, lemma_first_at_splits, text_of,
    texts_of, unsigned_value,
};

/// A secret for the proxy.
#[derive(Debug, Clone)]
pub struct SecretEntry {
    /// Host environment variable with the real value.
    pub from: String,
    /// Domains to which the secret may be sent.
    pub hosts: Vec<String>,
}

/// Network access policy.
#[derive(Debug, Clone)]
pub struct NetworkEntry {
    /// Allowed domain patterns. Empty or absent, all are allowed.
    pub allow: Option<Vec<String>>,
}

impl Default for NetworkEntry {
    fn default() -> (r: Self)
        ensures
            r.allow is None,
    {
        NetworkEntry { allow: None }
    }
}

/// The contents of a configuration file.
pub struct ShuruConfig {
    pub cpus: Option<usize>,
    pub memory: Option<u64>,
    pub disk_size: Option<u64>,
    pub allow_net: Option<bool>,
    pub allow_host_writes: Option<bool>,
    pub ports: Option<Vec<String>>,
    pub mounts: Option<Vec<String>>,
    pub command: Option<Vec<String>>,
    pub secrets: Option<StrMap<SecretEntry>>,
    pub network: Option<NetworkEntry>,
    /// Certificates for the proxy's own connections.
    pub ca_bundle: Option<String>,
    /// Host ports that the guest can reach, such as "3000:8080" or "5432".
    pub expose_host: Option<Vec<String>>,
}

impl ShuruConfig {
    /// Nothing is configured.
    pub open spec fn is_blank(self) -> bool {
        &&& self.cpus is None
        &&& self.memory is None
        &&& self.disk_size is None
        &&& self.allow_net is None
        &&& self.allow_host_writes is None
        &&& self.ports is None
        &&& self.mounts is None
        &&& self.command is None
        &&& self.secrets is None
        &&& self.network is None
        &&& self.ca_bundle is None
        &&& self.expose_host is None
    }
}

impl Default for ShuruConfig {
    fn default() -> (r: Self)
        ensures
            r.is_blank(),
    {
        ShuruConfig {
            cpus: None,
            memory: None,
            disk_size: None,
            allow_net: None,
            allow_host_writes: None,
            ports: None,
            mounts: None,
            command: None,
            secrets: None,
            network: None,
            ca_bundle: None,
            expose_host: None,
        }
    }
}

/// A port number.
pub open spec fn port_value(s: Seq<char>) -> Option<nat> {
    unsigned_value(s, 65535)
}

/// What is exposed by "HOST_PORT:GUEST_PORT" or "PORT", or a message that says
/// what is wrong.
pub open spec fn exposed(s: Seq<char>) -> Result<(nat, nat), Seq<char>> {
    let at = first_at(s, ':');
    if at == s.len() {
        match port_value(s) {
            Some(port) => Ok((port, port)),
            None => Err("invalid port: '"@ + s + "'"@),
        }
    } else {
        let host = s.take(at);
        let guest = s.skip(at + 1);
        if first_at(guest, ':') < guest.len() {
            Err("expected HOST_PORT:GUEST_PORT or PORT format"@)
        } else {
            match (port_value(host), port_value(guest)) {
                (None, _) => Err("invalid host port: '"@ + host + "'"@),
                (Some(_), None) => Err("invalid guest port: '"@ + guest + "'"@),
                (Some(h), Some(g)) => Ok((h, g)),
            }
        }
    }
}

/// A message about a text in quotes.
fn quoted(prefix: &str, s: &str) -> (r: String)
    ensures
        r@ == prefix@ + s@ + "'"@,
{
    let mut r = concat(prefix, s);
    r.append("'");
    r
}

/// Reads a port number.
fn parse_port(s: &str) -> (r: Option<u16>)
    ensures
        match r {
            Some(n) => port_value(s@) == Some(n as nat),
            None => port_value(s@) is None,
        },
{
    match parse_unsigned(s, 65535) {
        Some(n) => Some(n as u16),
        None => None,
    }
}

/// Reads "HOST_PORT:GUEST_PORT" or "PORT".
pub fn parse_expose_host(s: &str) -> (r: Result<ExposeHostMapping, String>)
    ensures
        match r {
            Ok(m) => exposed(s@) == Ok::<(nat, nat), Seq<char>>(
                (m.host_port as nat, m.guest_port as nat),
            ),
            Err(e) => exposed(s@) == Err::<(nat, nat), Seq<char>>(e@),
        },
{
    let v = to_chars(s);
    let at: usize = find_char(&v, 0, v.len(), ':');
    assert(v@.subrange(0, v@.len() as int) =~= s@);
    if at == v.len() {
        return match parse_port(s) {
            Some(port) => Ok(ExposeHostMapping { host_port: port, guest_port: port }),
            None => Err(quoted("invalid port: '", s)),
        };
    }
    let next: usize = find_char(&v, at + 1, v.len(), ':');
    assert(v@.subrange(at + 1, v@.len() as int) =~= s@.skip(at + 1));
    if next < v.len() {
        return Err("expected HOST_PORT:GUEST_PORT or PORT format".to_string());
    }
    let host = from_chars(&v, 0, at);
    let guest = from_chars(&v, at + 1, v.len());
    assert(host@ =~= s@.take(at as int));
    assert(guest@ =~= s@.skip(at + 1));
    let host_port = match parse_port(host.as_str()) {
        Some(port) => port,
        None => {
            return Err(quoted("invalid host port: '", host.as_str()));
        },
    };
    let guest_port = match parse_port(guest.as_str()) {
        Some(port) => port,
        None => {
            return Err(quoted("invalid guest port: '", guest.as_str()));
        },
    };
    Ok(ExposeHostMapping { host_port, guest_port })
}

/// A secret as the proxy takes it.
pub open spec fn secret_from(entry: SecretEntry, secret: SecretConfig) -> bool {
    &&& secret.from@ == entry.from@
    &&& texts_of(secret.hosts@) == texts_of(entry.hosts@)
    &&& secret.value is None
}

/// The mappings among texts, in order; texts that are none are passed over.
pub open spec fn mappings(texts: Seq<Seq<char>>) -> Seq<(nat, nat)>
    decreases texts.len(),
{
    if texts.len() == 0 {
        Seq::empty()
    } else {
        match exposed(texts.last()) {
            Ok(m) => mappings(texts.drop_last()).push(m),
            Err(_) => mappings(texts.drop_last()),
        }
    }
}

/// The ports of mappings.
pub open spec fn port_pairs(v: Seq<ExposeHostMapping>) -> Seq<(nat, nat)> {
    Seq::new(v.len(), |i: int| (v[i].host_port as nat, v[i].guest_port as nat))
}

/// Copies strings.
fn copy_strings(v: &Vec<String>) -> (r: Vec<String>)
    ensures
        texts_of(r@) == texts_of(v@),
{
    let mut r: Vec<String> = Vec::new();
    let mut i: usize = 0;
    while i < v.len()
        invariant
            i <= v@.len(),
            r@.len() == i,
            forall|j: int| 0 <= j < i ==> #[trigger] r@[j]@ == v@[j]@,
        decreases v@.len() - i,
    {
        r.push(v[i].clone());
        i = i + 1;
    }
    assert(texts_of(r@) =~= texts_of(v@));
    r
}

/// The proxy's secrets from the configured ones.
fn convert_secrets(secrets: &StrMap<SecretEntry>) -> (r: StrMap<SecretConfig>)
    ensures
        r@.dom() == secrets@.dom(),
        forall|name: Seq<char>| #[trigger]
            secrets@.contains_key(name) ==> secret_from(secrets@[name], r@[name]),
{
    let mut r: StrMap<SecretConfig> = StrMap::new();
    let ghost all = secrets.entries@;
    let mut i: usize = 0;
    assert(r@.dom() =~= entry_map(all.take(0)).dom());
    while i < secrets.entries.len()
        invariant
            i <= all.len(),
            all == secrets.entries@,
            r@.dom() == entry_map(all.take(i as int)).dom(),
            forall|name: Seq<char>| #[trigger]
                entry_map(all.take(i as int)).contains_key(name) ==> secret_from(
                    entry_map(all.take(i as int))[name],
                    r@[name],
                ),
        decreases all.len() - i,
    {
        let ghost before = entry_map(all.take(i as int));
        let secret = SecretConfig {
            from: secrets.entries[i].1.from.clone(),
            hosts: copy_strings(&secrets.entries[i].1.hosts),
            value: None,
        };
        assert(all.take(i + 1).drop_last() =~= all.take(i as int));
        assert(all.take(i + 1).last() == all[i as int]);
        let ghost after = entry_map(all.take(i + 1));
        assert(after == before.insert(all[i as int].0@, all[i as int].1));
        let ghost held = r@;
        r.insert(secrets.entries[i].0.clone(), secret);
        proof {
            assert(r@.dom() =~= after.dom());
            assert forall|name: Seq<char>| #[trigger] after.contains_key(name) implies secret_from(
                after[name],
                r@[name],
            ) by {
                if name != all[i as int].0@ {
                    assert(before.contains_key(name));
                }
            }
        }
        i = i + 1;
    }
    assert(all.take(i as int) =~= all);
    r
}

/// The mappings that can be read, in order.
fn convert_mappings(texts: &Vec<String>) -> (r: Vec<ExposeHostMapping>)
    ensures
        port_pairs(r@) == mappings(texts_of(texts@)),
{
    let mut r: Vec<ExposeHostMapping> = Vec::new();
    let ghost all = texts_of(texts@);
    let mut i: usize = 0;
    assert(port_pairs(r@) =~= mappings(all.take(0)));
    while i < texts.len()
        invariant
            i <= texts@.len(),
            all == texts_of(texts@),
            port_pairs(r@) == mappings(all.take(i as int)),
        decreases texts@.len() - i,
    {
        let ghost before = r@;
        assert(all.take(i + 1).drop_last() =~= all.take(i as int));
        assert(all.take(i + 1).last() == texts@[i as int]@);
        match parse_expose_host(texts[i].as_str()) {
            Ok(mapping) => {
                r.push(mapping);
                assert(port_pairs(r@) =~= port_pairs(before).push(
                    (mapping.host_port as nat, mapping.guest_port as nat),
                ));
            },
            Err(_) => {},
        }
        i = i + 1;
    }
    assert(all.take(i as int) =~= all);
    r
}

impl ShuruConfig {
    /// What the proxy is configured with. Exposed ports that cannot be read are
    /// passed over.
    pub fn to_proxy_config(&self) -> (r: ProxyConfig)
        ensures
            match self.secrets {
                Some(secrets) => {
                    &&& r.secrets@.dom() == secrets@.dom()
                    &&& forall|name: Seq<char>| #[trigger]
                        secrets@.contains_key(name) ==> secret_from(
                            secrets@[name],
                            r.secrets@[name],
                        )
                },
                None => r.secrets@ == Map::<Seq<char>, SecretConfig>::empty(),
            },
            texts_of(r.network.allow@) == (match self.network {
                Some(NetworkEntry { allow: Some(allow) }) => texts_of(allow@),
                _ => Seq::<Seq<char>>::empty(),
            }),
            text_of(r.ca_bundle) == text_of(self.ca_bundle),
            port_pairs(r.expose_host@) == (match self.expose_host {
                Some(texts) => mappings(texts_of(texts@)),
                None => Seq::<(nat, nat)>::empty(),
            }),
    {
        let mut proxy: ProxyConfig = Default::default();
        assert(texts_of(proxy.network.allow@) =~= Seq::<Seq<char>>::empty());
        assert(port_pairs(proxy.expose_host@) =~= Seq::<(nat, nat)>::empty());
        match &self.secrets {
            Some(secrets) => {
                proxy.secrets = convert_secrets(secrets);
            },
            None => {},
        }
        match &self.network {
            Some(network) => match &network.allow {
                Some(allow) => {
                    proxy.network.allow = copy_strings(allow);
                },
                None => {},
            },
            None => {},
        }
        proxy.ca_bundle = self.ca_bundle.clone();
        match &self.expose_host {
            Some(texts) => {
                proxy.expose_host = convert_mappings(texts);
            },
            None => {},
        }
        proxy
    }
}

/// The configuration file: the one that was asked for, or the default one.
pub open spec fn config_file(flag: Option<Seq<char>>) -> Seq<char> {
    match flag {
        Some(path) => path,
        None => "shuru.json"@,
    }
}

/// Computes `config_file`.
pub fn config_path(flag: Option<&str>) -> (r: String)
    ensures
        r@ == config_file(
            match flag {
                Some(p) => Some(p@),
                None => None,
            },
        ),
{
    match flag {
        Some(p) => p.to_string(),
        None => "shuru.json".to_string(),
    }
}

/// What reading and parsing a configuration file came to.
pub enum ConfigRead {
    Parsed(ShuruConfig),
    /// It is not a configuration; why.
    Unparsable(String),
    /// There is no such file.
    NotFound,
    /// It could not be read; why.
    Unreadable(String),
}

/// The configuration. A file that is not there is an error only where it was
/// asked for.
pub fn load_config(flag: Option<&str>, read: ConfigRead) -> (r: Result<ShuruConfig, String>)
    ensures
        ({
            let path = config_file(
                match flag {
                    Some(p) => Some(p@),
                    None => None,
                },
            );
            match read {
                ConfigRead::Parsed(config) => r == Ok::<ShuruConfig, String>(config),
                ConfigRead::Unparsable(e) => r matches Err(m) && m@ == "Failed to parse "@ + path
                    + ": "@ + e@,
                ConfigRead::NotFound => if flag is Some {
                    r matches Err(m) && m@ == "Config file not found: "@ + path
                } else {
                    r matches Ok(config) && config.is_blank()
                },
                ConfigRead::Unreadable(e) => r matches Err(m) && m@ == "Failed to read "@ + path
                    + ": "@ + e@,
            }
        }),
{
    let path = config_path(flag);
    match read {
        ConfigRead::Parsed(config) => Ok(config),
        ConfigRead::Unparsable(e) => {
            let mut m = concat("Failed to parse ", path.as_str());
            m.append(": ");
            m.append(e.as_str());
            Err(m)
        },
        ConfigRead::NotFound => {
            if flag.is_some() {
                Err(concat("Config file not found: ", path.as_str()))
            } else {
                Ok(Default::default())
            }
        },
        ConfigRead::Unreadable(e) => {
            let mut m = concat("Failed to read ", path.as_str());
            m.append(": ");
            m.append(e.as_str());
            Err(m)
        },
    }
}

/// Reading inverts writing: a numeral is a port of the host and of the guest, and
/// two numerals with a colon between them are a port of the host and one of the
/// guest, in that order. A number that is no port is refused.
pub proof fn law_written_ports_are_read(
    h: nat,
    g: nat,
    one: &str,
    two: &str,
    r1: Result<ExposeHostMapping, String>,
    r2: Result<ExposeHostMapping, String>,
)
    requires
        one@ == decimal(h),
        two@ == decimal(h) + seq![':'] + decimal(g),
        call_ensures(parse_expose_host, (one,), r1),
        call_ensures(parse_expose_host, (two,), r2),
    ensures
        r1 is Ok <==> h <= 65535,
        r1 matches Ok(m) ==> m.host_port == h && m.guest_port == h,
        r2 is Ok <==> h <= 65535 && g <= 65535,
        r2 matches Ok(m) ==> m.host_port == h && m.guest_port == g,
{
    law_decimal_is_read_back(h);
    law_decimal_is_read_back(g);
    let (a, b) = (decimal(h), decimal(g));
    lemma_first_at_behind(a, ':', b);
    lemma_first_at_behind(b, ':', Seq::empty());
    assert(two@.take(a.len() as int) =~= a);
    assert(two@.skip(a.len() as int + 1) =~= b);
}

/// A text with one colon is read as the texts on its sides are: it is in order
/// where both are, and the host's port is the one on the left. Otherwise the
/// message quotes the first side that is wrong.
pub proof fn law_sides_are_read_apart(
    host: &str,
    guest: &str,
    both: &str,
    rh: Result<ExposeHostMapping, String>,
    rg: Result<ExposeHostMapping, String>,
    r: Result<ExposeHostMapping, String>,
)
    requires
        forall|i: int| 0 <= i < host@.len() ==> host@[i] != ':',
        forall|i: int| 0 <= i < guest@.len() ==> guest@[i] != ':',
        both@ == host@ + seq![':'] + guest@,
        call_ensures(parse_expose_host, (host,), rh),
        call_ensures(parse_expose_host, (guest,), rg),
        call_ensures(parse_expose_host, (both,), r),
    ensures
        r is Ok <==> rh is Ok && rg is Ok,
        r matches Ok(m) ==> m.host_port == rh->Ok_0.host_port && m.guest_port
            == rg->Ok_0.guest_port,
        rh matches Ok(m) ==> m.host_port == m.guest_port,
        rh matches Err(e) ==> {
            &&& e@ == "invalid port: '"@ + host@ + "'"@
            &&& r matches Err(m) && m@ == "invalid host port: '"@ + host@ + "'"@
        },
        rh is Ok && rg is Err ==> (r matches Err(m) && m@ == "invalid guest port: '"@ + guest@
            + "'"@),
{
    lemma_first_at_behind(host@, ':', guest@);
    lemma_first_at_behind(guest@, ':', Seq::empty());
    assert(both@.take(host@.len() as int) =~= host@);
    assert(both@.skip(host@.len() as int + 1) =~= guest@);
}

/// A text with more than one colon is refused, whatever stands between them.
pub proof fn law_one_colon_at_most(
    a: Seq<char>,
    b: Seq<char>,
    c: Seq<char>,
    s: &str,
    r: Result<ExposeHostMapping, String>,
)
    requires
        s@ == a + seq![':'] + b + seq![':'] + c,
        call_ensures(parse_expose_host, (s,), r),
    ensures
        r matches Err(m) && m@ == "expected HOST_PORT:GUEST_PORT or PORT format"@,
{
    lemma_first_at_splits(s@, ':');
    let at = first_at(s@, ':');
    assert(s@[a.len() as int] == ':');
    let rest = s@.skip(at + 1);
    lemma_first_at_splits(rest, ':');
    let second = a.len() as int + 1 + b.len();
    assert(s@[second] == ':');
    assert(rest[second - at - 1] == ':');
}

/// The exposed ports are the ones of the texts that can be read, in their order:
/// those of a list are those of its parts, one text after the other.
pub proof fn law_mappings_keep_their_order(
    a: Seq<Seq<char>>,
    b: Seq<Seq<char>>,
    s: &str,
    r: Result<ExposeHostMapping, String>,
)
    requires
        call_ensures(parse_expose_host, (s,), r),
    ensures
        mappings(a + b) == mappings(a) + mappings(b),
        mappings(Seq::empty()).len() == 0,
        match r {
            Ok(m) => mappings(seq![s@]) == seq![(m.host_port as nat, m.guest_port as nat)],
            Err(_) => mappings(seq![s@]).len() == 0,
        },
    decreases b.len(),
{
    if b.len() == 0 {
        assert(a + b =~= a);
        assert(mappings(a) + mappings(b) =~= mappings(a));
    } else {
        law_mappings_keep_their_order(a, b.drop_last(), s, r);
        assert((a + b).drop_last() =~= a + b.drop_last());
        assert((a + b).last() == b.last());
        assert(mappings(a + b) =~= mappings(a) + mappings(b));
    }
    let one = seq![s@];
    assert(one.drop_last() =~= Seq::<Seq<char>>::empty());
    assert(mappings(one.drop_last()) =~= Seq::<(nat, nat)>::empty());
    match r {
        Ok(m) => {
            assert(mappings(one) =~= seq![(m.host_port as nat, m.guest_port as nat)]);
        },
        Err(_) => {},
    }
}

/// The proxy gets what the file says. Each secret keeps its name, its variable and
/// its hosts; the allowed hosts are those of the file, in order, and none where it
/// has none; the certificates are those of the file; and the exposed ports are
/// the readable ones, in order.
pub proof fn law_proxy_gets_what_the_file_says(
    c: &ShuruConfig,
    r: ProxyConfig,
    name: &str,
    there: Option<&SecretConfig>,
    i: int,
)
    requires
        call_ensures(ShuruConfig::to_proxy_config, (c,), r),
        call_ensures(StrMap::<SecretConfig>::get, (&r.secrets, name), there),
    ensures
        match c.secrets {
            Some(secrets) => {
                &&& there is Some <==> secrets@.contains_key(name@)
                &&& there matches Some(s) ==> {
                    let entry = secrets@[name@];
                    &&& s.from@ == entry.from@
                    &&& s.value is None
                    &&& s.hosts@.len() == entry.hosts@.len()
                    &&& 0 <= i < entry.hosts@.len() ==> s.hosts@[i]@ == entry.hosts@[i]@
                }
            },
            None => there is None,
        },
        match c.network {
            Some(n) => match n.allow {
                Some(allow) => {
                    &&& r.network.allow@.len() == allow@.len()
                    &&& 0 <= i < allow@.len() ==> r.network.allow@[i]@ == allow@[i]@
                },
                None => r.network.allow@.len() == 0,
            },
            None => r.network.allow@.len() == 0,
        },
        match c.ca_bundle {
            Some(path) => r.ca_bundle matches Some(p) && p@ == path@,
            None => r.ca_bundle is None,
        },
        match c.expose_host {
            Some(texts) => {
                let pairs = mappings(Seq::new(texts@.len(), |j: int| texts@[j]@));
                &&& r.expose_host@.len() == pairs.len()
                &&& 0 <= i < pairs.len() ==> r.expose_host@[i].host_port == pairs[i].0
                    && r.expose_host@[i].guest_port == pairs[i].1
            },
            None => r.expose_host@.len() == 0,
        },
{
    match c.secrets {
        Some(secrets) => {
            if secrets@.contains_key(name@) {
                let (entry, s) = (secrets@[name@], r.secrets@[name@]);
                assert(secret_from(entry, s));
                assert(texts_of(s.hosts@).len() == texts_of(entry.hosts@).len());
                if 0 <= i < entry.hosts@.len() {
                    assert(texts_of(s.hosts@)[i] == texts_of(entry.hosts@)[i]);
                }
            }
            assert(r.secrets@.dom().contains(name@) == secrets@.dom().contains(name@));
        },
        None => {},
    }
    match c.network {
        Some(n) => match n.allow {
            Some(allow) => {
                assert(texts_of(r.network.allow@).len() == texts_of(allow@).len());
                if 0 <= i < allow@.len() {
                    assert(texts_of(r.network.allow@)[i] == texts_of(allow@)[i]);
                }
            },
            None => {
                assert(texts_of(r.network.allow@).len() == 0);
            },
        },
        None => {
            assert(texts_of(r.network.allow@).len() == 0);
        },
    }
    match c.expose_host {
        Some(texts) => {
            assert(texts_of(texts@) =~= Seq::new(texts@.len(), |j: int| texts@[j]@));
            let pairs = mappings(texts_of(texts@));
            assert(port_pairs(r.expose_host@).len() == pairs.len());
            if 0 <= i < pairs.len() {
                assert(port_pairs(r.expose_host@)[i] == pairs[i]);
            }
        },
        None => {
            assert(port_pairs(r.expose_host@).len() == 0);
        },
    }
}

/// A configuration comes from the file that was asked for, or from `shuru.json`.
/// A file that was read is taken as it is. One that is missing is an error only
/// where it was asked for, and otherwise nothing is configured. Every error names
/// the file, and says why where that is known.
pub proof fn law_configuration_comes_from_its_file(
    flag: Option<&str>,
    read: ConfigRead,
    path: String,
    r: Result<ShuruConfig, String>,
)
    requires
        call_ensures(config_path, (flag,), path),
        call_ensures(load_config, (flag, read), r),
    ensures
        match flag {
            Some(p) => path@ == p@,
            None => path@ == "shuru.json"@,
        },
        r is Ok <==> read is Parsed || read is NotFound && flag is None,
        read matches ConfigRead::Parsed(c) ==> r == Ok::<ShuruConfig, String>(c),
        read is NotFound && flag is None ==> {
            let c = r->Ok_0;
            &&& c.cpus is None && c.memory is None && c.disk_size is None
            &&& c.allow_net is None && c.allow_host_writes is None
            &&& c.ports is None && c.mounts is None && c.command is None
            &&& c.secrets is None && c.network is None
            &&& c.ca_bundle is None && c.expose_host is None
        },
        r matches Err(m) ==> m@ == match read {
            ConfigRead::Unparsable(e) => "Failed to parse "@ + path@ + ": "@ + e@,
            ConfigRead::Unreadable(e) => "Failed to read "@ + path@ + ": "@ + e@,
            _ => "Config file not found: "@ + path@,
        },
{
}

/// A configuration without entries has none, of whatever sort.
pub proof fn law_empty_configuration(c: ShuruConfig, n: NetworkEntry)
    requires
        call_ensures(ShuruConfig::default, (), c),
        call_ensures(NetworkEntry::default, (), n),
    ensures
        c.cpus is None && c.memory is None && c.disk_size is None,
        c.allow_net is None && c.allow_host_writes is None,
        c.ports is None && c.mounts is None && c.command is None,
        c.secrets is None && c.network is None && c.ca_bundle is None && c.expose_host is None,
        n.allow is None,
{
}

/// A text without a colon is a port, of the host and of the guest, exactly where it is
/// a number up to 65535, and then it is that number.
pub proof fn law_ports_are_numbers(
    s: &str,
    n: Option<u64>,
    r: Result<ExposeHostMapping, String>,
)
    requires
        forall|i: int| 0 <= i < s@.len() ==> s@[i] != ':',
        call_ensures(parse_unsigned, (s, 65535), n),
        call_ensures(parse_expose_host, (s,), r),
    ensures
        r is Ok <==> n is Some,
        r matches Ok(m) ==> m.host_port == n->Some_0 && m.guest_port == n->Some_0,
{
    lemma_first_at_behind(s@, ':', Seq::empty());
}

} // verus!
