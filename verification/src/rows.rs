//! What a row of the gateway's database holds, and what is read from it.
//!
//! Values are stored in forms a human can read with the `sqlite3` CLI — UUIDs
//! and timestamps as text. When someone's tunnel is down at midnight, being
//! able to read the database without this binary is worth more than a few
//! bytes per row.

use crate::addr;
use crate::addr::Ipv4Addr;
use crate::clock;
use crate::clock::Timestamp;
use crate::ids;
use crate::ids::Uuid;
use crate::model;
use crate::model::{
    Node, NodeModel, PortMapping, PortMappingModel, Protocol, Service, ServiceModel, SrvSpec,
    SrvSpecModel,
};
use crate::store::{StoreError, StoreErrorModel};
use crate::table::Ordered;
use crate::text;
use std::str::FromStr;
use vstd::prelude::*;

verus! {

/// A row whose table refuses two of a kind.
pub trait Unique: View + Sized {
    /// Whether the table's unique columns keep `a` and `b` apart.
    spec fn clash(a: Self::V, b: Self::V) -> bool;

    /// Whether the table's unique columns keep this row and `other` apart.
    fn clashes(&self, other: &Self) -> (r: bool)
        ensures
            r == Self::clash(self@, other@),
    ;
}

// ---- nodes --------------------------------------------------------------

/// One row of the `nodes` table.
#[derive(Debug, PartialEq, Eq)]
pub struct NodeRow {
    pub id: String,
    pub name: String,
    pub key_hash: String,
    pub public_key: Option<String>,
    pub tunnel_ip: String,
    pub last_handshake: Option<String>,
    pub created_at: String,
}

/// What a [`NodeRow`] holds.
pub struct NodeRowModel {
    pub id: Seq<char>,
    pub name: Seq<char>,
    pub key_hash: Seq<char>,
    pub public_key: Option<Seq<char>>,
    pub tunnel_ip: Seq<char>,
    pub last_handshake: Option<Seq<char>>,
    pub created_at: Seq<char>,
}

impl View for NodeRow {
    type V = NodeRowModel;

    open spec fn view(&self) -> NodeRowModel {
        NodeRowModel {
            id: self.id@,
            name: self.name@,
            key_hash: self.key_hash@,
            public_key: text::opt_view(self.public_key),
            tunnel_ip: self.tunnel_ip@,
            last_handshake: text::opt_view(self.last_handshake),
            created_at: self.created_at@,
        }
    }
}

/// Nodes are listed by when they were created.
impl Ordered for NodeRow {
    open spec fn le(a: NodeRowModel, b: NodeRowModel) -> bool {
        text::text_le(a.created_at, b.created_at)
    }

    fn not_after(&self, other: &NodeRow) -> (r: bool) {
        text::not_after(self.created_at.as_str(), other.created_at.as_str())
    }
}

/// `id` is the primary key; `key_hash` and `tunnel_ip` are unique.
impl Unique for NodeRow {
    open spec fn clash(a: NodeRowModel, b: NodeRowModel) -> bool {
        a.id == b.id || a.key_hash == b.key_hash || a.tunnel_ip == b.tunnel_ip
    }

    fn clashes(&self, other: &NodeRow) -> (r: bool) {
        text::same_text(self.id.as_str(), other.id.as_str()) || text::same_text(
            self.key_hash.as_str(),
            other.key_hash.as_str(),
        ) || text::same_text(self.tunnel_ip.as_str(), other.tunnel_ip.as_str())
    }
}

/// The time a column spells.
pub open spec fn time_of(raw: Seq<char>) -> Result<Timestamp, StoreErrorModel> {
    match clock::stamp_read(raw) {
        Ok(at) => Ok(at),
        Err(e) => Err(StoreErrorModel::Corrupt(e)),
    }
}

/// The time a column spells, where it spells one.
pub open spec fn opt_time_of(raw: Option<Seq<char>>) -> Result<
    Option<Timestamp>,
    StoreErrorModel,
> {
    match raw {
        None => Ok(None),
        Some(raw) => match time_of(raw) {
            Ok(at) => Ok(Some(at)),
            Err(e) => Err(e),
        },
    }
}

/// The identifier a column spells; `what` names it where it spells none.
pub open spec fn id_of(raw: Seq<char>, what: Seq<char>) -> Result<Uuid, StoreErrorModel> {
    match ids::uuid_parsed(raw) {
        Some(id) => Ok(id),
        None => Err(StoreErrorModel::Corrupt(what)),
    }
}

/// The tunnel address a column spells.
pub open spec fn address_of(raw: Seq<char>) -> Result<Ipv4Addr, StoreErrorModel> {
    match addr::ipv4_read(raw) {
        Some(address) => Ok(address),
        None => Err(StoreErrorModel::Corrupt("tunnel_ip"@)),
    }
}

/// The protocol a column spells.
pub open spec fn protocol_of(raw: Seq<char>) -> Result<Protocol, StoreErrorModel> {
    match model::protocol_read(raw) {
        Some(protocol) => Ok(protocol),
        None => Err(StoreErrorModel::Corrupt("protocol `"@ + raw + "`"@)),
    }
}

/// The node a row describes, or the first column that spells nothing.
pub open spec fn node_of(row: NodeRowModel) -> Result<NodeModel, StoreErrorModel> {
    match (
        id_of(row.id, "node id"@),
        address_of(row.tunnel_ip),
        opt_time_of(row.last_handshake),
        time_of(row.created_at),
    ) {
        (Err(e), _, _, _) => Err(e),
        (_, Err(e), _, _) => Err(e),
        (_, _, Err(e), _) => Err(e),
        (_, _, _, Err(e)) => Err(e),
        (Ok(id), Ok(tunnel_ip), Ok(last_handshake), Ok(created_at)) => Ok(
            NodeModel {
                id,
                name: row.name,
                public_key: row.public_key,
                tunnel_ip,
                last_handshake,
                created_at,
            },
        ),
    }
}

/// What came of reading something, by its view.
pub open spec fn outcome<T: View>(r: Result<T, StoreError>) -> Result<T::V, StoreErrorModel> {
    match r {
        Ok(x) => Ok(x@),
        Err(e) => Err(e@),
    }
}

/// What came of reading several things, each by its view.
pub open spec fn outcomes<T: View>(r: Result<Vec<T>, StoreError>) -> Result<
    Seq<T::V>,
    StoreErrorModel,
> {
    match r {
        Ok(v) => Ok(text::views(v@)),
        Err(e) => Err(e@),
    }
}

/// Reads a time column.
pub fn parse_time(raw: &str) -> (r: Result<Timestamp, StoreError>)
    ensures
        outcome(r) == time_of(raw@),
{
    match Timestamp::from_rfc3339(raw) {
        Ok(at) => Ok(at),
        Err(e) => Err(StoreError::Corrupt(e)),
    }
}

/// Writes a time column.
pub fn fmt_time(at: Timestamp) -> (r: Result<String, StoreError>)
    ensures
        r is Ok <==> at.writable(),
        match clock::stamp_text(at) {
            Ok(s) => r is Ok && r->Ok_0@ == s && time_of(s) == Ok::<Timestamp, StoreErrorModel>(
                at,
            ),
            Err(e) => r is Err && r->Err_0@ == StoreErrorModel::Corrupt(e),
        },
{
    match at.to_rfc3339() {
        Ok(s) => Ok(s),
        Err(e) => Err(StoreError::Corrupt(e)),
    }
}

/// Reads an identifier column.
pub fn parse_id(raw: &str, what: &str) -> (r: Result<Uuid, StoreError>)
    ensures
        outcome(r) == id_of(raw@, what@),
{
    match Uuid::parse(raw) {
        Some(id) => Ok(id),
        None => Err(StoreError::Corrupt(what.to_owned())),
    }
}

/// Reads a tunnel address column.
pub fn parse_address(raw: &str) -> (r: Result<Ipv4Addr, StoreError>)
    ensures
        outcome(r) == address_of(raw@),
{
    match Ipv4Addr::parse(raw) {
        Some(address) => Ok(address),
        None => Err(StoreError::Corrupt("tunnel_ip".to_owned())),
    }
}

/// Reads a protocol column.
pub fn parse_protocol(raw: &str) -> (r: Result<Protocol, StoreError>)
    ensures
        outcome(r) == protocol_of(raw@),
{
    match Protocol::from_str(raw) {
        Ok(protocol) => Ok(protocol),
        Err(_) => {
            let mut what = "protocol `".to_owned();
            what.append(raw);
            what.append("`");
            Err(StoreError::Corrupt(what))
        },
    }
}

impl NodeRow {
    /// The node this row describes.
    pub fn read(&self) -> (r: Result<Node, StoreError>)
        ensures
            outcome(r) == node_of(self@),
    {
        let id = match parse_id(self.id.as_str(), "node id") {
            Ok(id) => id,
            Err(e) => {
                return Err(e);
            },
        };
        let tunnel_ip = match parse_address(self.tunnel_ip.as_str()) {
            Ok(tunnel_ip) => tunnel_ip,
            Err(e) => {
                return Err(e);
            },
        };
        let last_handshake = match &self.last_handshake {
            None => None,
            Some(raw) => match parse_time(raw.as_str()) {
                Ok(at) => Some(at),
                Err(e) => {
                    return Err(e);
                },
            },
        };
        let created_at = match parse_time(self.created_at.as_str()) {
            Ok(at) => at,
            Err(e) => {
                return Err(e);
            },
        };
        Ok(
            Node {
                id,
                name: self.name.clone(),
                public_key: text::copy_opt_text(&self.public_key),
                tunnel_ip,
                last_handshake,
                created_at,
            },
        )
    }
}

// ---- services -----------------------------------------------------------

/// One row of the `services` table.
#[derive(Debug, PartialEq, Eq)]
pub struct ServiceRow {
    pub id: String,
    pub node_id: String,
    pub name: String,
    pub subdomain: String,
    pub enabled: i64,
    pub dns_synced: i64,
    pub created_at: String,
}

/// What a [`ServiceRow`] holds.
pub struct ServiceRowModel {
    pub id: Seq<char>,
    pub node_id: Seq<char>,
    pub name: Seq<char>,
    pub subdomain: Seq<char>,
    pub enabled: i64,
    pub dns_synced: i64,
    pub created_at: Seq<char>,
}

impl View for ServiceRow {
    type V = ServiceRowModel;

    open spec fn view(&self) -> ServiceRowModel {
        ServiceRowModel {
            id: self.id@,
            node_id: self.node_id@,
            name: self.name@,
            subdomain: self.subdomain@,
            enabled: self.enabled,
            dns_synced: self.dns_synced,
            created_at: self.created_at@,
        }
    }
}

/// Services are listed by subdomain.
impl Ordered for ServiceRow {
    open spec fn le(a: ServiceRowModel, b: ServiceRowModel) -> bool {
        text::text_le(a.subdomain, b.subdomain)
    }

    fn not_after(&self, other: &ServiceRow) -> (r: bool) {
        text::not_after(self.subdomain.as_str(), other.subdomain.as_str())
    }
}

/// `id` is the primary key; `subdomain` is unique.
impl Unique for ServiceRow {
    open spec fn clash(a: ServiceRowModel, b: ServiceRowModel) -> bool {
        a.id == b.id || a.subdomain == b.subdomain
    }

    fn clashes(&self, other: &ServiceRow) -> (r: bool) {
        text::same_text(self.id.as_str(), other.id.as_str()) || text::same_text(
            self.subdomain.as_str(),
            other.subdomain.as_str(),
        )
    }
}

/// The service a row describes, or the first column that spells nothing.
pub open spec fn service_of(row: ServiceRowModel) -> Result<ServiceModel, StoreErrorModel> {
    match (
        id_of(row.id, "service id"@),
        id_of(row.node_id, "node id"@),
        time_of(row.created_at),
    ) {
        (Err(e), _, _) => Err(e),
        (_, Err(e), _) => Err(e),
        (_, _, Err(e)) => Err(e),
        (Ok(id), Ok(node_id), Ok(created_at)) => Ok(
            ServiceModel {
                id,
                node_id,
                name: row.name,
                subdomain: row.subdomain,
                enabled: row.enabled != 0,
                created_at,
            },
        ),
    }
}

impl ServiceRow {
    /// The service this row describes.
    pub fn read(&self) -> (r: Result<Service, StoreError>)
        ensures
            outcome(r) == service_of(self@),
    {
        let id = match parse_id(self.id.as_str(), "service id") {
            Ok(id) => id,
            Err(e) => {
                return Err(e);
            },
        };
        let node_id = match parse_id(self.node_id.as_str(), "node id") {
            Ok(id) => id,
            Err(e) => {
                return Err(e);
            },
        };
        let created_at = match parse_time(self.created_at.as_str()) {
            Ok(at) => at,
            Err(e) => {
                return Err(e);
            },
        };
        Ok(
            Service {
                id,
                node_id,
                name: self.name.clone(),
                subdomain: self.subdomain.clone(),
                enabled: self.enabled != 0,
                created_at,
            },
        )
    }
}

// ---- port mappings ------------------------------------------------------

/// One row of the `port_mappings` table.
#[derive(Debug, PartialEq, Eq)]
pub struct PortRow {
    pub id: String,
    pub service_id: String,
    pub protocol: String,
    pub local_host: String,
    pub local_port: u16,
    pub edge_port: u16,
    pub srv_service: Option<String>,
    pub srv_proto: Option<String>,
    pub srv_priority: Option<u16>,
    pub srv_weight: Option<u16>,
}

/// What a [`PortRow`] holds.
pub struct PortRowModel {
    pub id: Seq<char>,
    pub service_id: Seq<char>,
    pub protocol: Seq<char>,
    pub local_host: Seq<char>,
    pub local_port: u16,
    pub edge_port: u16,
    pub srv_service: Option<Seq<char>>,
    pub srv_proto: Option<Seq<char>>,
    pub srv_priority: Option<u16>,
    pub srv_weight: Option<u16>,
}

impl View for PortRow {
    type V = PortRowModel;

    open spec fn view(&self) -> PortRowModel {
        PortRowModel {
            id: self.id@,
            service_id: self.service_id@,
            protocol: self.protocol@,
            local_host: self.local_host@,
            local_port: self.local_port,
            edge_port: self.edge_port,
            srv_service: text::opt_view(self.srv_service),
            srv_proto: text::opt_view(self.srv_proto),
            srv_priority: self.srv_priority,
            srv_weight: self.srv_weight,
        }
    }
}

/// Mappings are listed by protocol, and by public port within one.
impl Ordered for PortRow {
    open spec fn le(a: PortRowModel, b: PortRowModel) -> bool {
        if a.protocol == b.protocol {
            a.edge_port <= b.edge_port
        } else {
            text::text_le(a.protocol, b.protocol)
        }
    }

    fn not_after(&self, other: &PortRow) -> (r: bool) {
        if text::same_text(self.protocol.as_str(), other.protocol.as_str()) {
            self.edge_port <= other.edge_port
        } else {
            text::not_after(self.protocol.as_str(), other.protocol.as_str())
        }
    }
}

/// `id` is the primary key; no two mappings share a protocol and public port.
impl Unique for PortRow {
    open spec fn clash(a: PortRowModel, b: PortRowModel) -> bool {
        a.id == b.id || (a.protocol == b.protocol && a.edge_port == b.edge_port)
    }

    fn clashes(&self, other: &PortRow) -> (r: bool) {
        text::same_text(self.id.as_str(), other.id.as_str()) || (text::same_text(
            self.protocol.as_str(),
            other.protocol.as_str(),
        ) && self.edge_port == other.edge_port)
    }
}

/// Priority of an SRV record whose row has none.
pub const UNSET_SRV_PRIORITY: u16 = 0;

/// Weight of an SRV record whose row has none.
pub const UNSET_SRV_WEIGHT: u16 = 5;

/// The SRV settings that a row describes. A row from before the priority and
/// the weight had columns has neither.
pub open spec fn srv_of(row: PortRowModel) -> Option<SrvSpecModel> {
    match (row.srv_service, row.srv_proto) {
        (Some(service), Some(proto)) => Some(
            SrvSpecModel {
                service,
                proto,
                priority: match row.srv_priority {
                    Some(priority) => priority,
                    None => UNSET_SRV_PRIORITY,
                },
                weight: match row.srv_weight {
                    Some(weight) => weight,
                    None => UNSET_SRV_WEIGHT,
                },
            },
        ),
        _ => None,
    }
}

/// The mapping a row describes, or the first column that spells nothing.
pub open spec fn mapping_of(row: PortRowModel) -> Result<PortMappingModel, StoreErrorModel> {
    match (
        id_of(row.id, "mapping id"@),
        id_of(row.service_id, "service id"@),
        protocol_of(row.protocol),
    ) {
        (Err(e), _, _) => Err(e),
        (_, Err(e), _) => Err(e),
        (_, _, Err(e)) => Err(e),
        (Ok(id), Ok(service_id), Ok(protocol)) => Ok(
            PortMappingModel {
                id,
                service_id,
                protocol,
                local_host: row.local_host,
                local_port: row.local_port,
                edge_port: row.edge_port,
                srv: srv_of(row),
            },
        ),
    }
}

impl PortRow {
    /// The mapping this row describes.
    pub fn read(&self) -> (r: Result<PortMapping, StoreError>)
        ensures
            outcome(r) == mapping_of(self@),
    {
        let id = match parse_id(self.id.as_str(), "mapping id") {
            Ok(id) => id,
            Err(e) => {
                return Err(e);
            },
        };
        let service_id = match parse_id(self.service_id.as_str(), "service id") {
            Ok(id) => id,
            Err(e) => {
                return Err(e);
            },
        };
        let protocol = match parse_protocol(self.protocol.as_str()) {
            Ok(protocol) => protocol,
            Err(e) => {
                return Err(e);
            },
        };
        let srv = match (&self.srv_service, &self.srv_proto) {
            (Some(service), Some(proto)) => Some(
                SrvSpec {
                    service: service.clone(),
                    proto: proto.clone(),
                    priority: match self.srv_priority {
                        Some(priority) => priority,
                        None => UNSET_SRV_PRIORITY,
                    },
                    weight: match self.srv_weight {
                        Some(weight) => weight,
                        None => UNSET_SRV_WEIGHT,
                    },
                },
            ),
            _ => None,
        };
        Ok(
            PortMapping {
                id,
                service_id,
                protocol,
                local_host: self.local_host.clone(),
                local_port: self.local_port,
                edge_port: self.edge_port,
                srv,
            },
        )
    }
}

} // verus!
