//! Gateway configuration.
//!
//! Secrets are deliberately not part of the config file. The Cloudflare token
//! can edit DNS for a whole zone and the admin token is a login, so both are
//! read from the environment or from a file path named by the config — never
//! from the file that someone will eventually paste into a forum post while
//! asking why their ports do not work.

use crate::addr;
use crate::addr::{IpAddr, Ipv4Addr};
use crate::allocator;
use crate::allocator::{AllocError, EdgePortRange};
use crate::model::Protocol;
use crate::net;
use crate::net::Ipv4Net;
use crate::text;
use vstd::prelude::*;

verus! {

// ---- errors -------------------------------------------------------------

#[derive(Debug, Clone)]
pub enum ConfigError {
    Read { path: String, source: String },
    Parse { path: String, source: String },
    Range(AllocError),
    MissingSecret { name: String, env: String, key: String },
    SecretFile { path: String, source: String },
    GatewayIpOutsideSubnet(Ipv4Addr, Ipv4Net),
}

/// What a [`ConfigError`] says.
pub enum ConfigErrorModel {
    Read { path: Seq<char>, source: Seq<char> },
    Parse { path: Seq<char>, source: Seq<char> },
    Range(AllocError),
    MissingSecret { name: Seq<char>, env: Seq<char>, key: Seq<char> },
    SecretFile { path: Seq<char>, source: Seq<char> },
    GatewayIpOutsideSubnet(Ipv4Addr, Ipv4Net),
}

impl View for ConfigError {
    type V = ConfigErrorModel;

    open spec fn view(&self) -> ConfigErrorModel {
        match *self {
            ConfigError::Read { path, source } => ConfigErrorModel::Read {
                path: path@,
                source: source@,
            },
            ConfigError::Parse { path, source } => ConfigErrorModel::Parse {
                path: path@,
                source: source@,
            },
            ConfigError::Range(e) => ConfigErrorModel::Range(e),
            ConfigError::MissingSecret { name, env, key } => ConfigErrorModel::MissingSecret {
                name: name@,
                env: env@,
                key: key@,
            },
            ConfigError::SecretFile { path, source } => ConfigErrorModel::SecretFile {
                path: path@,
                source: source@,
            },
            ConfigError::GatewayIpOutsideSubnet(ip, subnet) => {
                ConfigErrorModel::GatewayIpOutsideSubnet(ip, subnet)
            },
        }
    }
}

/// What an operator is told.
pub open spec fn config_error_text(e: ConfigErrorModel) -> Seq<char> {
    match e {
        ConfigErrorModel::Read { path, source } => "failed to read config `"@ + path + "`: "@
            + source,
        ConfigErrorModel::Parse { path, source } => "failed to parse config `"@ + path + "`: "@
            + source,
        ConfigErrorModel::Range(e) => "edge port range is invalid: "@
            + allocator::alloc_error_text(e),
        ConfigErrorModel::MissingSecret { name, env, key } => "no "@ + name + ": set the `"@ + env
            + "` environment variable, or point `"@ + key + "` at a file containing it"@,
        ConfigErrorModel::SecretFile { path, source } => "failed to read secret from `"@ + path
            + "`: "@ + source,
        ConfigErrorModel::GatewayIpOutsideSubnet(ip, subnet) => "the gateway's tunnel address "@
            + addr::ipv4_text(ip) + " is not inside the tunnel subnet "@ + net::cidr_text(
            subnet.network(),
            subnet.len(),
        ),
    }
}

impl ConfigError {
    /// What an operator is told.
    pub fn to_string(&self) -> (r: String)
        ensures
            r@ == config_error_text(self@),
    {
        match self {
            ConfigError::Read { path, source } => {
                let mut out = "failed to read config `".to_owned();
                out.append(path.as_str());
                out.append("`: ");
                out.append(source.as_str());
                out
            },
            ConfigError::Parse { path, source } => {
                let mut out = "failed to parse config `".to_owned();
                out.append(path.as_str());
                out.append("`: ");
                out.append(source.as_str());
                out
            },
            ConfigError::Range(e) => {
                let mut out = "edge port range is invalid: ".to_owned();
                let detail = e.to_string();
                out.append(detail.as_str());
                out
            },
            ConfigError::MissingSecret { name, env, key } => {
                let mut out = "no ".to_owned();
                out.append(name.as_str());
                out.append(": set the `");
                out.append(env.as_str());
                out.append("` environment variable, or point `");
                out.append(key.as_str());
                out.append("` at a file containing it");
                out
            },
            ConfigError::SecretFile { path, source } => {
                let mut out = "failed to read secret from `".to_owned();
                out.append(path.as_str());
                out.append("`: ");
                out.append(source.as_str());
                out
            },
            ConfigError::GatewayIpOutsideSubnet(ip, subnet) => {
                let mut out = "the gateway's tunnel address ".to_owned();
                let ip_text = ip.to_string();
                out.append(ip_text.as_str());
                out.append(" is not inside the tunnel subnet ");
                let subnet_text = subnet.to_string();
                out.append(subnet_text.as_str());
                out
            },
        }
    }
}

// ---- paths --------------------------------------------------------------

/// A path below a directory: a relative one is appended, an absolute one
/// stands for itself.
pub open spec fn joined(dir: Seq<char>, path: Seq<char>) -> Seq<char> {
    if path.len() > 0 && path[0] == '/' {
        path
    } else if dir.len() == 0 || dir.last() == '/' {
        dir + path
    } else {
        dir + "/"@ + path
    }
}

/// A path below a directory.
pub fn join_path(dir: &str, path: &str) -> (r: String)
    ensures
        r@ == joined(dir@, path@),
{
    let d = text::chars_of(dir);
    let p = text::chars_of(path);
    if p.len() > 0 && p[0] == '/' {
        return path.to_owned();
    }
    let mut out = dir.to_owned();
    if d.len() > 0 && d[d.len() - 1] != '/' {
        out.append("/");
    }
    out.append(path);
    out
}

// ---- sections -----------------------------------------------------------

/// Where a listener is bound.
#[derive(Debug, Clone, Copy, PartialEq, Eq, Structural)]
pub struct ListenAddr {
    pub ip: IpAddr,
    pub port: u16,
}

#[derive(Debug, Clone)]
pub struct Config {
    pub gateway: GatewaySection,
    pub tunnel: TunnelSection,
    pub cloudflare: CloudflareSection,
    pub nftables: NftablesSection,
}

#[derive(Debug, Clone)]
pub struct GatewaySection {
    /// Public IPv4 of the VPS. This is what goes in DNS and what players
    /// connect to; the home IP is never published.
    pub public_ip: Ipv4Addr,
    /// The Cloudflare zone being managed, e.g. `example.com`.
    pub zone: String,
    /// Where the HTTP API and web UI listen. Bind to localhost and put a
    /// reverse proxy in front unless you enjoy surprises.
    pub listen: ListenAddr,
    pub data_dir: String,
    pub profiles_dir: String,
    pub edge_port_range_start: u16,
    pub edge_port_range_end: u16,
    /// Ports the gateway must never hand out, on top of whatever services
    /// already hold. SSH and the WireGuard endpoint are added automatically.
    pub reserved_tcp_ports: Vec<u16>,
    pub reserved_udp_ports: Vec<u16>,
    /// File holding the admin token. When absent, `PORTAL_ADMIN_TOKEN` is used,
    /// and failing that one is generated at startup and logged once.
    pub admin_token_file: Option<String>,
}

#[derive(Debug, Clone)]
pub struct TunnelSection {
    pub subnet: Ipv4Net,
    pub gateway_ip: Ipv4Addr,
    pub interface: String,
    pub listen_port: u16,
    /// `host:port` agents dial to reach WireGuard. Usually the VPS's public IP
    /// and `listen_port`, but a hostname works and survives an IP change.
    pub endpoint: String,
    /// Path to the gateway's WireGuard private key. Generated on first start
    /// if missing.
    pub private_key_file: String,
    /// Agents are behind home NAT, so they must keep the binding alive; the
    /// gateway can never dial them first.
    pub persistent_keepalive: u16,
}

#[derive(Debug, Clone)]
pub struct CloudflareSection {
    pub zone_id: String,
    /// File holding the API token. `PORTAL_CF_API_TOKEN` takes precedence.
    pub api_token_file: Option<String>,
    /// Set false to run everything except the DNS writes, which is the honest
    /// way to try this out against a real zone.
    pub enabled: bool,
}

#[derive(Debug, Clone)]
pub struct NftablesSection {
    pub table: String,
    /// Set false on a box where something else owns the ruleset; the gateway
    /// will compute rules and log them without applying.
    pub enabled: bool,
}

impl Default for NftablesSection {
    fn default() -> (r: NftablesSection)
        ensures
            r.table@ == "portal"@,
            r.enabled,
    {
        NftablesSection { table: "portal".to_owned(), enabled: true }
    }
}

// ---- defaults -----------------------------------------------------------

/// What a config file says, before defaults are filled in.
#[derive(Debug)]
pub struct RawConfig {
    pub gateway: RawGateway,
    pub tunnel: RawTunnel,
    pub cloudflare: RawCloudflare,
    pub nftables: Option<RawNftables>,
}

/// The `[gateway]` section as written.
#[derive(Debug)]
pub struct RawGateway {
    pub public_ip: Ipv4Addr,
    pub zone: String,
    pub listen: Option<ListenAddr>,
    pub data_dir: Option<String>,
    pub profiles_dir: Option<String>,
    pub edge_port_range_start: Option<u16>,
    pub edge_port_range_end: Option<u16>,
    pub reserved_tcp_ports: Option<Vec<u16>>,
    pub reserved_udp_ports: Option<Vec<u16>>,
    pub admin_token_file: Option<String>,
}

/// The `[tunnel]` section as written.
#[derive(Debug)]
pub struct RawTunnel {
    pub subnet: Option<Ipv4Net>,
    pub gateway_ip: Option<Ipv4Addr>,
    pub interface: Option<String>,
    pub listen_port: Option<u16>,
    pub endpoint: String,
    pub private_key_file: Option<String>,
    pub persistent_keepalive: Option<u16>,
}

/// The `[cloudflare]` section as written.
#[derive(Debug)]
pub struct RawCloudflare {
    pub zone_id: String,
    pub api_token_file: Option<String>,
    pub enabled: Option<bool>,
}

/// The `[nftables]` section as written.
#[derive(Debug)]
pub struct RawNftables {
    pub table: Option<String>,
    pub enabled: Option<bool>,
}

/// A value as written, or its default.
pub open spec fn or_default<T>(written: Option<T>, default: T) -> T {
    match written {
        Some(x) => x,
        None => default,
    }
}

/// A text as written, or its default.
fn text_or(written: Option<String>, default: &str) -> (r: String)
    ensures
        r@ == or_default(text::opt_view(written), default@),
{
    match written {
        Some(s) => s,
        None => default.to_owned(),
    }
}

fn number_or(written: Option<u16>, default: u16) -> (r: u16)
    ensures
        r == or_default(written, default),
{
    match written {
        Some(n) => n,
        None => default,
    }
}

fn flag_or(written: Option<bool>, default: bool) -> (r: bool)
    ensures
        r == or_default(written, default),
{
    match written {
        Some(b) => b,
        None => default,
    }
}

fn ports_or_none(written: Option<Vec<u16>>) -> (r: Vec<u16>)
    ensures
        r@ == or_default(text::opt_view(written), Seq::<u16>::empty()),
{
    match written {
        Some(ports) => ports,
        None => Vec::new(),
    }
}

/// Where the API listens unless told otherwise: this machine only.
pub open spec fn default_listen() -> ListenAddr {
    ListenAddr { ip: IpAddr::V4(addr::ipv4(127, 0, 0, 1)), port: 8080 }
}

impl RawGateway {
    /// The section with defaults filled in.
    pub fn complete(self) -> (r: GatewaySection)
        ensures
            r.public_ip == self.public_ip,
            r.zone@ == self.zone@,
            r.listen == or_default(self.listen, default_listen()),
            r.data_dir@ == or_default(text::opt_view(self.data_dir), "/var/lib/portal"@),
            r.profiles_dir@ == or_default(
                text::opt_view(self.profiles_dir),
                "/etc/portal/profiles"@,
            ),
            r.edge_port_range_start == or_default(
                self.edge_port_range_start,
                allocator::DEFAULT_RANGE_START,
            ),
            r.edge_port_range_end == or_default(
                self.edge_port_range_end,
                allocator::DEFAULT_RANGE_END,
            ),
            r.reserved_tcp_ports@ == or_default(
                text::opt_view(self.reserved_tcp_ports),
                Seq::<u16>::empty(),
            ),
            r.reserved_udp_ports@ == or_default(
                text::opt_view(self.reserved_udp_ports),
                Seq::<u16>::empty(),
            ),
            text::opt_view(r.admin_token_file) == text::opt_view(self.admin_token_file),
    {
        let listen = match self.listen {
            Some(listen) => listen,
            None => ListenAddr { ip: IpAddr::V4(Ipv4Addr::new(127, 0, 0, 1)), port: 8080 },
        };
        GatewaySection {
            public_ip: self.public_ip,
            zone: self.zone,
            listen,
            data_dir: text_or(self.data_dir, "/var/lib/portal"),
            profiles_dir: text_or(self.profiles_dir, "/etc/portal/profiles"),
            edge_port_range_start: number_or(
                self.edge_port_range_start,
                allocator::DEFAULT_RANGE_START,
            ),
            edge_port_range_end: number_or(
                self.edge_port_range_end,
                allocator::DEFAULT_RANGE_END,
            ),
            reserved_tcp_ports: ports_or_none(self.reserved_tcp_ports),
            reserved_udp_ports: ports_or_none(self.reserved_udp_ports),
            admin_token_file: self.admin_token_file,
        }
    }
}

impl RawTunnel {
    /// The section with defaults filled in.
    pub fn complete(self) -> (r: TunnelSection)
        ensures
            match self.subnet {
                Some(subnet) => r.subnet == subnet,
                None => r.subnet.network() == addr::ipv4(10, 99, 0, 0) && r.subnet.len() == 24,
            },
            r.gateway_ip == or_default(self.gateway_ip, addr::ipv4(10, 99, 0, 1)),
            r.interface@ == or_default(text::opt_view(self.interface), "wg0"@),
            r.listen_port == or_default(self.listen_port, 51820),
            r.endpoint@ == self.endpoint@,
            r.private_key_file@ == or_default(
                text::opt_view(self.private_key_file),
                "/etc/portal/wg-private.key"@,
            ),
            r.persistent_keepalive == or_default(self.persistent_keepalive, 25),
    {
        let subnet = match self.subnet {
            Some(subnet) => subnet,
            None => Ipv4Net::tunnel_default(),
        };
        let gateway_ip = match self.gateway_ip {
            Some(ip) => ip,
            None => Ipv4Addr::new(10, 99, 0, 1),
        };
        TunnelSection {
            subnet,
            gateway_ip,
            interface: text_or(self.interface, "wg0"),
            listen_port: number_or(self.listen_port, 51820),
            endpoint: self.endpoint,
            private_key_file: text_or(self.private_key_file, "/etc/portal/wg-private.key"),
            persistent_keepalive: number_or(self.persistent_keepalive, 25),
        }
    }
}

impl RawCloudflare {
    /// The section with defaults filled in.
    pub fn complete(self) -> (r: CloudflareSection)
        ensures
            r.zone_id@ == self.zone_id@,
            text::opt_view(r.api_token_file) == text::opt_view(self.api_token_file),
            r.enabled == or_default(self.enabled, true),
    {
        CloudflareSection {
            zone_id: self.zone_id,
            api_token_file: self.api_token_file,
            enabled: flag_or(self.enabled, true),
        }
    }
}

impl RawNftables {
    /// The section with defaults filled in.
    pub fn complete(self) -> (r: NftablesSection)
        ensures
            r.table@ == or_default(text::opt_view(self.table), "portal"@),
            r.enabled == or_default(self.enabled, true),
    {
        NftablesSection {
            table: text_or(self.table, "portal"),
            enabled: flag_or(self.enabled, true),
        }
    }
}

// ---- secrets ------------------------------------------------------------

/// What became of reading a secret's file.
#[derive(Debug)]
pub enum SecretFile {
    /// The config names no file.
    NotNamed,
    /// The file could not be read.
    Unreadable { path: String, source: String },
    Contents(String),
}

/// What a [`SecretFile`] says.
pub enum SecretFileModel {
    NotNamed,
    Unreadable { path: Seq<char>, source: Seq<char> },
    Contents(Seq<char>),
}

impl View for SecretFile {
    type V = SecretFileModel;

    open spec fn view(&self) -> SecretFileModel {
        match *self {
            SecretFile::NotNamed => SecretFileModel::NotNamed,
            SecretFile::Unreadable { path, source } => SecretFileModel::Unreadable {
                path: path@,
                source: source@,
            },
            SecretFile::Contents(s) => SecretFileModel::Contents(s@),
        }
    }
}

/// A secret as written somewhere: without the space around it, and none where
/// nothing else is left.
pub open spec fn secret_in(raw: Seq<char>) -> Option<Seq<char>> {
    if text::trim(raw).len() > 0 {
        Some(text::trim(raw))
    } else {
        None
    }
}

/// A secret, from the environment before any file.
pub open spec fn secret_of(env: Option<Seq<char>>, file: SecretFileModel) -> Result<
    Option<Seq<char>>,
    ConfigErrorModel,
> {
    if env is Some && secret_in(env->0) is Some {
        Ok(secret_in(env->0))
    } else {
        match file {
            SecretFileModel::NotNamed => Ok(None),
            SecretFileModel::Unreadable { path, source } => Err(
                ConfigErrorModel::SecretFile { path, source },
            ),
            SecretFileModel::Contents(raw) => Ok(secret_in(raw)),
        }
    }
}

fn find_secret(raw: &str) -> (r: Option<String>)
    ensures
        text::opt_view(r) == secret_in(raw@),
{
    let value = text::trimmed(raw);
    let chars = text::chars_of(value.as_str());
    if chars.len() > 0 {
        Some(value)
    } else {
        None
    }
}

/// The view of an optional borrowed text.
pub open spec fn opt_str(s: Option<&str>) -> Option<Seq<char>> {
    match s {
        Some(s) => Some(s@),
        None => None,
    }
}

/// A secret, from the environment before any file.
pub fn read_secret(env: Option<&str>, file: &SecretFile) -> (r: Result<
    Option<String>,
    ConfigError,
>)
    ensures
        match r {
            Ok(secret) => secret_of(opt_str(env), file@) == Ok::<
                Option<Seq<char>>,
                ConfigErrorModel,
            >(text::opt_view(secret)),
            Err(e) => secret_of(opt_str(env), file@) == Err::<Option<Seq<char>>, ConfigErrorModel>(
                e@,
            ),
        },
{
    if let Some(value) = env {
        let found = find_secret(value);
        if found.is_some() {
            return Ok(found);
        }
    }
    match file {
        SecretFile::NotNamed => Ok(None),
        SecretFile::Unreadable { path, source } => Err(
            ConfigError::SecretFile { path: path.clone(), source: source.clone() },
        ),
        SecretFile::Contents(raw) => Ok(find_secret(raw.as_str())),
    }
}

// ---- the whole ----------------------------------------------------------

/// The ports that a list names, under one protocol.
pub open spec fn ports_under(protocol: Protocol, ports: Seq<u16>) -> Seq<(Protocol, u16)> {
    Seq::new(ports.len(), |i: int| (protocol, ports[i]))
}

/// Ports that must stay clear of allocation.
pub open spec fn reserved(config: Config) -> Seq<(Protocol, u16)> {
    seq![
        (Protocol::Tcp, 22u16),
        (Protocol::Udp, config.tunnel.listen_port),
        (Protocol::Tcp, config.gateway.listen.port),
    ] + ports_under(Protocol::Tcp, config.gateway.reserved_tcp_ports@) + ports_under(
        Protocol::Udp,
        config.gateway.reserved_udp_ports@,
    )
}

/// What is wrong with a config, if anything.
pub open spec fn config_fault(config: Config) -> Option<ConfigErrorModel> {
    let start = config.gateway.edge_port_range_start;
    let end = config.gateway.edge_port_range_end;
    if !(1024 <= start <= end) {
        Some(ConfigErrorModel::Range(AllocError::InvalidRange(start, end)))
    } else if net::network_of(config.tunnel.gateway_ip, config.tunnel.subnet.len())
        != config.tunnel.subnet.network() {
        Some(
            ConfigErrorModel::GatewayIpOutsideSubnet(
                config.tunnel.gateway_ip,
                config.tunnel.subnet,
            ),
        )
    } else {
        None
    }
}

impl Config {
    /// Fills in the defaults of a config as written and checks it.
    pub fn from_raw(raw: RawConfig) -> (r: Result<Config, ConfigError>)
        ensures
            r matches Ok(config) ==> config_fault(config) is None,
            r matches Ok(config) ==> completes(raw, config),
            r matches Err(e) ==> exists|config: Config|
                #![trigger completes(raw, config)]
                completes(raw, config) && config_fault(config) == Some(e@),
    {
        let ghost written = raw;
        let nftables = match raw.nftables {
            Some(section) => section.complete(),
            None => NftablesSection::default(),
        };
        let config = Config {
            gateway: raw.gateway.complete(),
            tunnel: raw.tunnel.complete(),
            cloudflare: raw.cloudflare.complete(),
            nftables,
        };
        proof {
            assert(completes(written, config));
        }
        match config.validate() {
            Ok(()) => Ok(config),
            Err(e) => Err(e),
        }
    }

    pub fn validate(&self) -> (r: Result<(), ConfigError>)
        ensures
            match r {
                Ok(()) => config_fault(*self) is None,
                Err(e) => config_fault(*self) == Some(e@),
            },
    {
        if let Err(e) = self.edge_port_range() {
            return Err(e);
        }
        if !self.tunnel.subnet.contains(self.tunnel.gateway_ip) {
            return Err(
                ConfigError::GatewayIpOutsideSubnet(self.tunnel.gateway_ip, self.tunnel.subnet),
            );
        }
        Ok(())
    }

    pub fn edge_port_range(&self) -> (r: Result<EdgePortRange, ConfigError>)
        ensures
            ({
                let start = self.gateway.edge_port_range_start;
                let end = self.gateway.edge_port_range_end;
                match r {
                    Ok(range) => 1024 <= start <= end && range == EdgePortRange::between(
                        start,
                        end,
                    ) && range.first() == start && range.last() == end,
                    Err(e) => !(1024 <= start <= end) && e@ == ConfigErrorModel::Range(
                        AllocError::InvalidRange(start, end),
                    ),
                }
            }),
    {
        match EdgePortRange::new(
            self.gateway.edge_port_range_start,
            self.gateway.edge_port_range_end,
        ) {
            Ok(range) => Ok(range),
            Err(e) => Err(ConfigError::Range(e)),
        }
    }

    pub fn database_path(&self) -> (r: String)
        ensures
            r@ == joined(self.gateway.data_dir@, "portal.db"@),
    {
        join_path(self.gateway.data_dir.as_str(), "portal.db")
    }

    /// Where the gateway's WireGuard configuration is written.
    pub fn wireguard_config_path(&self) -> (r: String)
        ensures
            r@ == joined(self.gateway.data_dir@, self.tunnel.interface@ + ".conf"@),
    {
        let mut file = self.tunnel.interface.clone();
        file.append(".conf");
        join_path(self.gateway.data_dir.as_str(), file.as_str())
    }

    /// Path to the gateway's WireGuard private key.
    pub fn private_key_file(&self) -> (r: &str)
        ensures
            r@ == self.tunnel.private_key_file@,
    {
        self.tunnel.private_key_file.as_str()
    }

    /// Ports that must stay clear of allocation: the gateway's own listener,
    /// whichever interface it is on, the WireGuard endpoint, SSH, and anything
    /// the operator listed.
    pub fn reserved_ports(&self) -> (r: Vec<(Protocol, u16)>)
        ensures
            r@ == reserved(*self),
    {
        let mut out: Vec<(Protocol, u16)> = Vec::new();
        out.push((Protocol::Tcp, 22));
        out.push((Protocol::Udp, self.tunnel.listen_port));
        out.push((Protocol::Tcp, self.gateway.listen.port));
        push_ports(&mut out, Protocol::Tcp, &self.gateway.reserved_tcp_ports);
        push_ports(&mut out, Protocol::Udp, &self.gateway.reserved_udp_ports);
        proof {
            assert(out@ =~= reserved(*self));
        }
        out
    }

    /// The Cloudflare API token, given `PORTAL_CF_API_TOKEN` and the file that
    /// the config names.
    pub fn cloudflare_token(&self, env: Option<&str>, file: &SecretFile) -> (r: Result<
        String,
        ConfigError,
    >)
        ensures
            match secret_of(opt_str(env), file@) {
                Ok(Some(secret)) => r is Ok && r->Ok_0@ == secret,
                Ok(None) => r is Err && r->Err_0@ == (ConfigErrorModel::MissingSecret {
                    name: "Cloudflare API token"@,
                    env: "PORTAL_CF_API_TOKEN"@,
                    key: "cloudflare.api_token_file"@,
                }),
                Err(e) => r is Err && r->Err_0@ == e,
            },
    {
        match read_secret(env, file) {
            Ok(Some(token)) => Ok(token),
            Ok(None) => Err(
                ConfigError::MissingSecret {
                    name: "Cloudflare API token".to_owned(),
                    env: "PORTAL_CF_API_TOKEN".to_owned(),
                    key: "cloudflare.api_token_file".to_owned(),
                },
            ),
            Err(e) => Err(e),
        }
    }

    /// The admin token, given `PORTAL_ADMIN_TOKEN` and the file that the
    /// config names; `None` when the operator has not set one and the caller
    /// should generate a temporary one.
    pub fn admin_token(&self, env: Option<&str>, file: &SecretFile) -> (r: Result<
        Option<String>,
        ConfigError,
    >)
        ensures
            match r {
                Ok(secret) => secret_of(opt_str(env), file@) == Ok::<
                    Option<Seq<char>>,
                    ConfigErrorModel,
                >(text::opt_view(secret)),
                Err(e) => secret_of(opt_str(env), file@) == Err::<
                    Option<Seq<char>>,
                    ConfigErrorModel,
                >(e@),
            },
    {
        read_secret(env, file)
    }
}

fn push_ports(out: &mut Vec<(Protocol, u16)>, protocol: Protocol, ports: &Vec<u16>)
    ensures
        final(out)@ == old(out)@ + ports_under(protocol, ports@),
{
    let ghost before = out@;
    let ghost all = ports_under(protocol, ports@);
    let mut i: usize = 0;
    proof {
        assert(before + all.take(0) =~= before);
    }
    while i < ports.len()
        invariant
            i <= ports@.len(),
            all == ports_under(protocol, ports@),
            out@ == before + all.take(i as int),
        decreases ports@.len() - i,
    {
        out.push((protocol, ports[i]));
        proof {
            assert(out@ =~= before + all.take(i + 1));
        }
        i += 1;
    }
    proof {
        assert(all.take(i as int) =~= all);
    }
}

/// Whether a config says what was written, with the defaults of the rest.
pub open spec fn completes(raw: RawConfig, config: Config) -> bool {
    &&& config.gateway.public_ip == raw.gateway.public_ip
    &&& config.gateway.zone@ == raw.gateway.zone@
    &&& config.gateway.listen == or_default(raw.gateway.listen, default_listen())
    &&& config.gateway.data_dir@ == or_default(
        text::opt_view(raw.gateway.data_dir),
        "/var/lib/portal"@,
    )
    &&& config.gateway.profiles_dir@ == or_default(
        text::opt_view(raw.gateway.profiles_dir),
        "/etc/portal/profiles"@,
    )
    &&& config.gateway.edge_port_range_start == or_default(
        raw.gateway.edge_port_range_start,
        allocator::DEFAULT_RANGE_START,
    )
    &&& config.gateway.edge_port_range_end == or_default(
        raw.gateway.edge_port_range_end,
        allocator::DEFAULT_RANGE_END,
    )
    &&& config.gateway.reserved_tcp_ports@ == or_default(
        text::opt_view(raw.gateway.reserved_tcp_ports),
        Seq::<u16>::empty(),
    )
    &&& config.gateway.reserved_udp_ports@ == or_default(
        text::opt_view(raw.gateway.reserved_udp_ports),
        Seq::<u16>::empty(),
    )
    &&& text::opt_view(config.gateway.admin_token_file) == text::opt_view(
        raw.gateway.admin_token_file,
    )
    &&& match raw.tunnel.subnet {
        Some(subnet) => config.tunnel.subnet == subnet,
        None => config.tunnel.subnet.network() == addr::ipv4(10, 99, 0, 0)
            && config.tunnel.subnet.len() == 24,
    }
    &&& config.tunnel.gateway_ip == or_default(raw.tunnel.gateway_ip, addr::ipv4(10, 99, 0, 1))
    &&& config.tunnel.interface@ == or_default(text::opt_view(raw.tunnel.interface), "wg0"@)
    &&& config.tunnel.listen_port == or_default(raw.tunnel.listen_port, 51820)
    &&& config.tunnel.endpoint@ == raw.tunnel.endpoint@
    &&& config.tunnel.private_key_file@ == or_default(
        text::opt_view(raw.tunnel.private_key_file),
        "/etc/portal/wg-private.key"@,
    )
    &&& config.tunnel.persistent_keepalive == or_default(raw.tunnel.persistent_keepalive, 25)
    &&& config.cloudflare.zone_id@ == raw.cloudflare.zone_id@
    &&& text::opt_view(config.cloudflare.api_token_file) == text::opt_view(
        raw.cloudflare.api_token_file,
    )
    &&& config.cloudflare.enabled == or_default(raw.cloudflare.enabled, true)
    &&& config.nftables.table@ == match raw.nftables {
        Some(section) => or_default(text::opt_view(section.table), "portal"@),
        None => "portal"@,
    }
    &&& config.nftables.enabled == match raw.nftables {
        Some(section) => or_default(section.enabled, true),
        None => true,
    }
}

/// SSH, the WireGuard endpoint and the gateway's own listener are kept clear
/// of allocation without being asked for.
pub proof fn law_own_ports_are_reserved(config: Config)
    ensures
        reserved(config).contains((Protocol::Tcp, 22u16)),
        reserved(config).contains((Protocol::Udp, config.tunnel.listen_port)),
        reserved(config).contains((Protocol::Tcp, config.gateway.listen.port)),
{
    let all = reserved(config);
    assert(all[0] == (Protocol::Tcp, 22u16));
    assert(all[1] == (Protocol::Udp, config.tunnel.listen_port));
    assert(all[2] == (Protocol::Tcp, config.gateway.listen.port));
}

/// A secret in the environment wins over any file, readable or not.
pub proof fn law_environment_comes_first(env: Seq<char>, file: SecretFileModel)
    requires
        secret_in(env) is Some,
    ensures
        secret_of(Some(env), file) == Ok::<Option<Seq<char>>, ConfigErrorModel>(secret_in(env)),
{
}

} // verus!
