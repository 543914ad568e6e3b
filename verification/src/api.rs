//! Request/response bodies for the gateway's HTTP API.
//!
//! Two callers with different credentials. A person holds the admin token and
//! drives everything. An agent holds its node key, and can do exactly two
//! things: register its tunnel identity, and read its own forwards.

use crate::addr::Ipv4Addr;
use crate::ids::Uuid;
use crate::model::{
    Endpoint, EndpointModel, Node, NodeModel, PortMapping, PortMappingModel, Protocol, Service,
    ServiceModel,
};
use crate::text;
use crate::wg::PublicKey;
use vstd::prelude::*;

verus! {

// ---- nodes --------------------------------------------------------------

#[derive(Debug, Clone)]
pub struct CreateNodeRequest {
    pub name: String,
}

/// The node, plus the key its agent authenticates with.
///
/// The key is shown once and stored only as a hash. It goes straight into the
/// agent's compose file — that is the entire setup on the home side.
#[derive(Debug, Clone)]
pub struct CreateNodeResponse {
    pub node: Node,
    pub key: String,
}

/// What a [`CreateNodeResponse`] says.
pub struct CreateNodeResponseModel {
    pub node: NodeModel,
    pub key: Seq<char>,
}

impl View for CreateNodeResponse {
    type V = CreateNodeResponseModel;

    open spec fn view(&self) -> CreateNodeResponseModel {
        CreateNodeResponseModel { node: self.node@, key: self.key@ }
    }
}

/// Agent -> gateway on every start, authenticated with the node key.
///
/// The agent generates a fresh WireGuard keypair each time it boots and tells
/// the gateway the public half, so it needs to persist nothing at all. The
/// tunnel address is fixed by the gateway when the node is created, so
/// restarts do not disturb the forwards pointing at it.
#[derive(Debug, Clone)]
pub struct RegisterRequest {
    pub public_key: PublicKey,
}

#[derive(Debug, Clone)]
pub struct RegisterResponse {
    pub node_id: Uuid,
    pub tunnel: TunnelConfig,
}

/// What a [`RegisterResponse`] says.
pub struct RegisterResponseModel {
    pub node_id: Uuid,
    pub tunnel: TunnelConfigModel,
}

impl View for RegisterResponse {
    type V = RegisterResponseModel;

    open spec fn view(&self) -> RegisterResponseModel {
        RegisterResponseModel { node_id: self.node_id, tunnel: self.tunnel@ }
    }
}

/// Everything the agent needs to bring up its side of the tunnel.
#[derive(Debug, Clone)]
pub struct TunnelConfig {
    pub gateway_public_key: PublicKey,
    /// `host:port` the agent sends WireGuard traffic to.
    pub gateway_endpoint: String,
    /// Address assigned to this node inside the tunnel.
    pub tunnel_ip: Ipv4Addr,
    pub tunnel_prefix_len: u8,
    /// Seconds between keepalives. Non-zero so the agent's NAT binding stays
    /// open without requiring a port forward at home.
    pub persistent_keepalive: u16,
}

/// What a [`TunnelConfig`] says.
pub struct TunnelConfigModel {
    pub gateway_public_key: Seq<char>,
    pub gateway_endpoint: Seq<char>,
    pub tunnel_ip: Ipv4Addr,
    pub tunnel_prefix_len: u8,
    pub persistent_keepalive: u16,
}

impl View for TunnelConfig {
    type V = TunnelConfigModel;

    open spec fn view(&self) -> TunnelConfigModel {
        TunnelConfigModel {
            gateway_public_key: self.gateway_public_key@,
            gateway_endpoint: self.gateway_endpoint@,
            tunnel_ip: self.tunnel_ip,
            tunnel_prefix_len: self.tunnel_prefix_len,
            persistent_keepalive: self.persistent_keepalive,
        }
    }
}

// ---- assignments --------------------------------------------------------

/// Gateway -> agent: the full set of forwards this node should serve.
///
/// Sent in full rather than as deltas; the agent applies it declaratively, so
/// a missed update self-heals on the next poll.
#[derive(Debug, Clone)]
pub struct AgentAssignment {
    pub revision: u64,
    pub forwards: Vec<Forward>,
}

/// What an [`AgentAssignment`] says.
pub struct AgentAssignmentModel {
    pub revision: u64,
    pub forwards: Seq<ForwardModel>,
}

impl View for AgentAssignment {
    type V = AgentAssignmentModel;

    open spec fn view(&self) -> AgentAssignmentModel {
        AgentAssignmentModel {
            revision: self.revision,
            forwards: text::views(self.forwards@),
        }
    }
}

/// One listener the agent accepts on its tunnel address and bridges to a
/// server on its network.
#[derive(Debug)]
pub struct Forward {
    pub protocol: Protocol,
    /// Port the agent accepts on, inside the tunnel. Matches the DNAT target.
    pub tunnel_port: u16,
    /// Where the server is, as seen from the node. Any LAN address it can
    /// reach, which is what lets one agent front many machines.
    pub local_host: String,
    pub local_port: u16,
}

/// What a [`Forward`] says.
pub struct ForwardModel {
    pub protocol: Protocol,
    pub tunnel_port: u16,
    pub local_host: Seq<char>,
    pub local_port: u16,
}

impl View for Forward {
    type V = ForwardModel;

    open spec fn view(&self) -> ForwardModel {
        ForwardModel {
            protocol: self.protocol,
            tunnel_port: self.tunnel_port,
            local_host: self.local_host@,
            local_port: self.local_port,
        }
    }
}

impl Clone for Forward {
    fn clone(&self) -> (r: Forward)
        ensures
            r@ == self@,
    {
        Forward {
            protocol: self.protocol,
            tunnel_port: self.tunnel_port,
            local_host: self.local_host.clone(),
            local_port: self.local_port,
        }
    }
}

// ---- services and ports -------------------------------------------------

/// Step one: a subdomain on a node. Ports come afterwards.
#[derive(Debug, Clone)]
pub struct CreateServiceRequest {
    pub node_id: Uuid,
    pub name: String,
    pub subdomain: String,
}

/// Step two: where the traffic actually goes.
#[derive(Debug, Clone)]
pub struct AddPortRequest {
    pub protocol: Protocol,
    /// LAN address of the server, e.g. `192.168.1.50`.
    pub local_host: String,
    pub local_port: u16,
    /// Public port. Left empty, the gateway picks — the local port when it is
    /// free, otherwise one from its range.
    pub edge_port: Option<u16>,
    /// Publish an SRV record so Minecraft Java clients need no port number.
    pub minecraft_srv: bool,
}

/// What an [`AddPortRequest`] says.
pub struct AddPortRequestModel {
    pub protocol: Protocol,
    pub local_host: Seq<char>,
    pub local_port: u16,
    pub edge_port: Option<u16>,
    pub minecraft_srv: bool,
}

impl View for AddPortRequest {
    type V = AddPortRequestModel;

    open spec fn view(&self) -> AddPortRequestModel {
        AddPortRequestModel {
            protocol: self.protocol,
            local_host: self.local_host@,
            local_port: self.local_port,
            edge_port: self.edge_port,
            minecraft_srv: self.minecraft_srv,
        }
    }
}

/// UI-facing view of a service with everything needed to render it.
#[derive(Debug, Clone)]
pub struct ServiceView {
    pub service: Service,
    pub fqdn: String,
    pub node_name: String,
    pub node_online: bool,
    pub ports: Vec<PortView>,
    pub dns_synced: bool,
}

/// What a [`ServiceView`] says.
pub struct ServiceViewModel {
    pub service: ServiceModel,
    pub fqdn: Seq<char>,
    pub node_name: Seq<char>,
    pub node_online: bool,
    pub ports: Seq<PortViewModel>,
    pub dns_synced: bool,
}

impl View for ServiceView {
    type V = ServiceViewModel;

    open spec fn view(&self) -> ServiceViewModel {
        ServiceViewModel {
            service: self.service@,
            fqdn: self.fqdn@,
            node_name: self.node_name@,
            node_online: self.node_online,
            ports: text::views(self.ports@),
            dns_synced: self.dns_synced,
        }
    }
}

/// One mapping plus the address a player would type for it.
#[derive(Debug, Clone)]
pub struct PortView {
    pub mapping: PortMapping,
    pub endpoint: Endpoint,
    /// Pre-rendered, because this is the one string most people came for.
    pub connect: String,
}

/// What a [`PortView`] says.
pub struct PortViewModel {
    pub mapping: PortMappingModel,
    pub endpoint: EndpointModel,
    pub connect: Seq<char>,
}

impl View for PortView {
    type V = PortViewModel;

    open spec fn view(&self) -> PortViewModel {
        PortViewModel {
            mapping: self.mapping@,
            endpoint: self.endpoint@,
            connect: self.connect@,
        }
    }
}

#[derive(Debug, Clone)]
pub struct ApiError {
    pub error: String,
}

} // verus!
