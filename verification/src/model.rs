//! Core domain model.
//!
//! Three things, and the relationship between them is the whole product:
//!
//! - A **node** is a machine at home running the agent. It holds one end of a
//!   WireGuard tunnel and can reach everything on its LAN.
//! - A **service** is one subdomain, pointed at one node.
//! - A **port mapping** says "this public port reaches this address and port
//!   behind that node".
//!
//! Because a mapping names its own `local_host`, one agent can serve any
//! number of machines on the network it sits in.

use crate::addr::Ipv4Addr;
use crate::clock::Timestamp;
use crate::ids::Uuid;
use crate::number;
use crate::text;
use vstd::prelude::*;

verus! {

// ---- protocols ----------------------------------------------------------

#[derive(Debug, Clone, Copy, PartialEq, Eq, Hash, Structural)]
pub enum Protocol {
    Tcp,
    Udp,
}

impl View for Protocol {
    type V = Protocol;

    open spec fn view(&self) -> Protocol {
        *self
    }
}

/// The protocol that `s` names, in any ASCII case.
pub open spec fn protocol_read(s: Seq<char>) -> Option<Protocol> {
    if text::lower(s) == "tcp"@ {
        Some(Protocol::Tcp)
    } else if text::lower(s) == "udp"@ {
        Some(Protocol::Udp)
    } else {
        None
    }
}

/// What is said of a text that names no protocol.
pub open spec fn not_a_protocol_text(s: Seq<char>) -> Seq<char> {
    "`"@ + text::lower(s) + "` is not tcp or udp"@
}

impl Protocol {
    pub open spec fn name(self) -> Seq<char> {
        match self {
            Protocol::Tcp => "tcp"@,
            Protocol::Udp => "udp"@,
        }
    }

    /// The token nftables and `wg` expect.
    pub fn as_str(self) -> (r: &'static str)
        ensures
            r@ == self.name(),
    {
        match self {
            Protocol::Tcp => "tcp",
            Protocol::Udp => "udp",
        }
    }

    /// The protocol's token as a string of its own.
    pub fn to_string(&self) -> (r: String)
        ensures
            r@ == self.name(),
    {
        self.as_str().to_owned()
    }
}

impl std::str::FromStr for Protocol {
    type Err = String;

    fn from_str(s: &str) -> (r: Result<Protocol, String>)
        ensures
            match r {
                Ok(p) => protocol_read(s@) == Some(p),
                Err(e) => protocol_read(s@) is None && e@ == not_a_protocol_text(s@),
            },
    {
        let lowered = text::lowered(s);
        if text::same_text(lowered.as_str(), "tcp") {
            Ok(Protocol::Tcp)
        } else if text::same_text(lowered.as_str(), "udp") {
            Ok(Protocol::Udp)
        } else {
            let mut e = "`".to_owned();
            e.append(lowered.as_str());
            e.append("` is not tcp or udp");
            Err(e)
        }
    }
}

/// A protocol's own token names it.
pub proof fn law_protocol_round_trip(p: Protocol)
    ensures
        protocol_read(p.name()) == Some(p),
{
    reveal_strlit("tcp");
    reveal_strlit("udp");
    assert(text::lower("tcp"@) =~= "tcp"@);
    assert(text::lower("udp"@) =~= "udp"@);
    assert("udp"@[0] != "tcp"@[0]);
}

// ---- nodes --------------------------------------------------------------

/// How long after its last handshake a node still counts as online, in
/// nanoseconds: three minutes.
///
/// WireGuard rekeys every ~2 minutes when traffic flows and
/// persistent-keepalive holds the NAT binding open, so a threshold a bit above
/// that avoids flapping on idle tunnels.
pub const ONLINE_THRESHOLD_NANOS: i128 = 180_000_000_000;

/// A machine running the agent, paired to the gateway over WireGuard.
///
/// Created in the web UI before the agent ever starts: the gateway assigns the
/// tunnel address up front so it stays put across agent restarts, and hands
/// back a key the agent authenticates with.
#[derive(Debug)]
pub struct Node {
    pub id: Uuid,
    /// Human label shown in the UI, e.g. "basement-box".
    pub name: String,
    /// WireGuard public key, base64. `None` until the agent first registers;
    /// it changes whenever the agent restarts, which is expected and fine.
    pub public_key: Option<String>,
    /// Address inside the tunnel subnet, and the DNAT target. Stable for the
    /// life of the node.
    pub tunnel_ip: Ipv4Addr,
    pub last_handshake: Option<Timestamp>,
    pub created_at: Timestamp,
}

/// What a [`Node`] says.
pub struct NodeModel {
    pub id: Uuid,
    pub name: Seq<char>,
    pub public_key: Option<Seq<char>>,
    pub tunnel_ip: Ipv4Addr,
    pub last_handshake: Option<Timestamp>,
    pub created_at: Timestamp,
}

impl View for Node {
    type V = NodeModel;

    open spec fn view(&self) -> NodeModel {
        NodeModel {
            id: self.id,
            name: self.name@,
            public_key: text::opt_view(self.public_key),
            tunnel_ip: self.tunnel_ip,
            last_handshake: self.last_handshake,
            created_at: self.created_at,
        }
    }
}

impl Clone for Node {
    fn clone(&self) -> (r: Node)
        ensures
            r@ == self@,
    {
        Node {
            id: self.id,
            name: self.name.clone(),
            public_key: text::copy_opt_text(&self.public_key),
            tunnel_ip: self.tunnel_ip,
            last_handshake: self.last_handshake,
            created_at: self.created_at,
        }
    }
}

/// Whether a handshake at `last` still counts at `now`.
pub open spec fn online(last: Option<Timestamp>, now: Timestamp) -> bool {
    match last {
        Some(at) => now.unix_nanos - at.unix_nanos < ONLINE_THRESHOLD_NANOS,
        None => false,
    }
}

impl Node {
    /// Nodes are online if WireGuard has completed a handshake recently.
    pub fn is_online(&self, now: Timestamp) -> (r: bool)
        ensures
            r == online(self.last_handshake, now),
    {
        match self.last_handshake {
            Some(at) => match now.unix_nanos.checked_sub(at.unix_nanos) {
                Some(elapsed) => elapsed < ONLINE_THRESHOLD_NANOS,
                None => now.unix_nanos < at.unix_nanos,
            },
            None => false,
        }
    }
}

/// A node whose agent has registered: one WireGuard peer.
#[derive(Debug, Clone)]
pub struct Agent {
    pub id: Uuid,
    pub name: String,
    pub public_key: String,
    pub tunnel_ip: Ipv4Addr,
    pub last_handshake: Option<Timestamp>,
    pub created_at: Timestamp,
}

/// What an [`Agent`] says.
pub struct AgentModel {
    pub id: Uuid,
    pub name: Seq<char>,
    pub public_key: Seq<char>,
    pub tunnel_ip: Ipv4Addr,
    pub last_handshake: Option<Timestamp>,
    pub created_at: Timestamp,
}

impl View for Agent {
    type V = AgentModel;

    open spec fn view(&self) -> AgentModel {
        AgentModel {
            id: self.id,
            name: self.name@,
            public_key: self.public_key@,
            tunnel_ip: self.tunnel_ip,
            last_handshake: self.last_handshake,
            created_at: self.created_at,
        }
    }
}

// ---- services -----------------------------------------------------------

/// One subdomain, served by one node.
#[derive(Debug)]
pub struct Service {
    pub id: Uuid,
    pub node_id: Uuid,
    /// Label for the UI, e.g. "SMP season 4".
    pub name: String,
    /// Left-hand label only: `mc` in `mc.example.com`.
    pub subdomain: String,
    pub enabled: bool,
    pub created_at: Timestamp,
}

/// What a [`Service`] says.
pub struct ServiceModel {
    pub id: Uuid,
    pub node_id: Uuid,
    pub name: Seq<char>,
    pub subdomain: Seq<char>,
    pub enabled: bool,
    pub created_at: Timestamp,
}

impl View for Service {
    type V = ServiceModel;

    open spec fn view(&self) -> ServiceModel {
        ServiceModel {
            id: self.id,
            node_id: self.node_id,
            name: self.name@,
            subdomain: self.subdomain@,
            enabled: self.enabled,
            created_at: self.created_at,
        }
    }
}

impl Clone for Service {
    fn clone(&self) -> (r: Service)
        ensures
            r@ == self@,
    {
        Service {
            id: self.id,
            node_id: self.node_id,
            name: self.name.clone(),
            subdomain: self.subdomain.clone(),
            enabled: self.enabled,
            created_at: self.created_at,
        }
    }
}

/// The fully qualified name of a subdomain; `@` stands for the zone itself.
pub open spec fn fqdn_of(subdomain: Seq<char>, zone: Seq<char>) -> Seq<char> {
    if subdomain == "@"@ {
        zone
    } else {
        subdomain + "."@ + zone
    }
}

impl Service {
    /// Fully qualified name, given the zone the gateway manages.
    pub fn fqdn(&self, zone: &str) -> (r: String)
        ensures
            r@ == fqdn_of(self.subdomain@, zone@),
    {
        if text::same_text(self.subdomain.as_str(), "@") {
            zone.to_owned()
        } else {
            let mut out = self.subdomain.clone();
            out.append(".");
            out.append(zone);
            out
        }
    }
}

// ---- port mappings ------------------------------------------------------

/// One public port, forwarded to one address and port behind the node.
///
/// `edge_port` need not equal `local_port`: two servers can both want 25565
/// and only one can have it on the public IP. `local_host` is any address the
/// node can reach, which is what lets a single agent front a whole LAN.
#[derive(Debug)]
pub struct PortMapping {
    pub id: Uuid,
    pub service_id: Uuid,
    pub protocol: Protocol,
    /// Where the server actually listens, as seen from the node.
    /// `192.168.1.50`, or `127.0.0.1` when it is on the node itself.
    pub local_host: String,
    pub local_port: u16,
    /// Port players connect to on the gateway's public IP.
    pub edge_port: u16,
    /// When set, an SRV record is published so compatible clients connect to
    /// the bare hostname with no port.
    pub srv: Option<SrvSpec>,
}

/// What a [`PortMapping`] says.
pub struct PortMappingModel {
    pub id: Uuid,
    pub service_id: Uuid,
    pub protocol: Protocol,
    pub local_host: Seq<char>,
    pub local_port: u16,
    pub edge_port: u16,
    pub srv: Option<SrvSpecModel>,
}

impl View for PortMapping {
    type V = PortMappingModel;

    open spec fn view(&self) -> PortMappingModel {
        PortMappingModel {
            id: self.id,
            service_id: self.service_id,
            protocol: self.protocol,
            local_host: self.local_host@,
            local_port: self.local_port,
            edge_port: self.edge_port,
            srv: text::opt_view(self.srv),
        }
    }
}

impl Clone for PortMapping {
    fn clone(&self) -> (r: PortMapping)
        ensures
            r@ == self@,
    {
        PortMapping {
            id: self.id,
            service_id: self.service_id,
            protocol: self.protocol,
            local_host: self.local_host.clone(),
            local_port: self.local_port,
            edge_port: self.edge_port,
            srv: match &self.srv {
                Some(spec) => Some(spec.clone()),
                None => None,
            },
        }
    }
}

// ---- SRV records --------------------------------------------------------

/// An SRV record published alongside a service's A record.
#[derive(Debug)]
pub struct SrvSpec {
    /// Leading-underscore service label, e.g. `_minecraft`.
    pub service: String,
    /// Leading-underscore protocol label, e.g. `_tcp`.
    pub proto: String,
    pub priority: u16,
    pub weight: u16,
}

/// What an [`SrvSpec`] says.
pub struct SrvSpecModel {
    pub service: Seq<char>,
    pub proto: Seq<char>,
    pub priority: u16,
    pub weight: u16,
}

impl View for SrvSpec {
    type V = SrvSpecModel;

    open spec fn view(&self) -> SrvSpecModel {
        SrvSpecModel {
            service: self.service@,
            proto: self.proto@,
            priority: self.priority,
            weight: self.weight,
        }
    }
}

impl Clone for SrvSpec {
    fn clone(&self) -> (r: SrvSpec)
        ensures
            r@ == self@,
    {
        SrvSpec {
            service: self.service.clone(),
            proto: self.proto.clone(),
            priority: self.priority,
            weight: self.weight,
        }
    }
}

/// What Minecraft Java clients look up.
pub open spec fn minecraft_java_spec() -> SrvSpecModel {
    SrvSpecModel { service: "_minecraft"@, proto: "_tcp"@, priority: 0, weight: 5 }
}

/// The name of an SRV record under a service's own name.
pub open spec fn srv_name(
    service: Seq<char>,
    proto: Seq<char>,
    service_fqdn: Seq<char>,
) -> Seq<char> {
    service + "."@ + proto + "."@ + service_fqdn
}

impl SrvSpec {
    /// What Minecraft Java clients look up. The one case common enough to be
    /// worth a constructor.
    pub fn minecraft_java() -> (r: SrvSpec)
        ensures
            r@ == minecraft_java_spec(),
    {
        SrvSpec {
            service: "_minecraft".to_owned(),
            proto: "_tcp".to_owned(),
            priority: 0,
            weight: 5,
        }
    }

    /// The record name under a service's FQDN, e.g.
    /// `_minecraft._tcp.mc.example.com`.
    pub fn record_name(&self, service_fqdn: &str) -> (r: String)
        ensures
            r@ == srv_name(self.service@, self.proto@, service_fqdn@),
    {
        let mut out = self.service.clone();
        out.append(".");
        out.append(self.proto.as_str());
        out.append(".");
        out.append(service_fqdn);
        out
    }
}

// ---- endpoints ----------------------------------------------------------

/// What a player actually types, derived for display.
#[derive(Debug, Clone)]
pub struct Endpoint {
    pub host: String,
    pub port: u16,
    pub protocol: Protocol,
    /// True when an SRV record makes the port implicit for compatible clients.
    pub port_implied_by_srv: bool,
}

/// What an [`Endpoint`] says.
pub struct EndpointModel {
    pub host: Seq<char>,
    pub port: u16,
    pub protocol: Protocol,
    pub port_implied_by_srv: bool,
}

impl View for Endpoint {
    type V = EndpointModel;

    open spec fn view(&self) -> EndpointModel {
        EndpointModel {
            host: self.host@,
            port: self.port,
            protocol: self.protocol,
            port_implied_by_srv: self.port_implied_by_srv,
        }
    }
}

/// The address as typed: the bare host when an SRV record covers the port.
pub open spec fn endpoint_text(e: EndpointModel) -> Seq<char> {
    if e.port_implied_by_srv {
        e.host
    } else {
        e.host + ":"@ + number::decimal(e.port as nat)
    }
}

impl Endpoint {
    /// The address as typed.
    pub fn to_string(&self) -> (r: String)
        ensures
            r@ == endpoint_text(self@),
    {
        let mut out = self.host.clone();
        if !self.port_implied_by_srv {
            out.append(":");
            number::push_decimal(&mut out, self.port as u64);
        }
        out
    }
}

} // verus!
