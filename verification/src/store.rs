//! Persistent state.
//!
//! The store is the gateway's three tables and every statement that runs on
//! them: what is looked up, what is changed, and what is refused. The program
//! around it reads the tables from SQLite, runs one statement and writes back
//! what changed, in one transaction.
//!
//! `port_mappings` keeps a protocol and public port unique. The allocator
//! already prevents collisions, but the allocator is rebuilt from this table;
//! the constraint is what makes a bug there fail loudly instead of quietly
//! pointing two services at one port.

use crate::addr;
use crate::addr::Ipv4Addr;
use crate::api::{Forward, ForwardModel};
use crate::clock;
use crate::clock::Timestamp;
use crate::ids;
use crate::ids::Uuid;
use crate::model;
use crate::model::{
    Node, NodeModel, PortMapping, PortMappingModel, Protocol, Service, ServiceModel,
};
use crate::net;
use crate::net::Ipv4Net;
use crate::rows;
use crate::rows::{
    NodeRow, NodeRowModel, PortRow, PortRowModel, ServiceRow, ServiceRowModel, Unique,
};
use crate::store_laws;
use crate::table;
use crate::text;
use crate::token;
use vstd::prelude::*;

verus! {

#[derive(Debug)]
pub enum StoreError {
    /// What the database said.
    Sqlite(String),
    /// What is already taken.
    Conflict(String),
    NotFound,
    SubnetExhausted,
    /// What could not be read back.
    Corrupt(String),
    IncompatibleSchema,
}

/// What a [`StoreError`] says.
pub enum StoreErrorModel {
    Sqlite(Seq<char>),
    Conflict(Seq<char>),
    NotFound,
    SubnetExhausted,
    Corrupt(Seq<char>),
    IncompatibleSchema,
}

impl View for StoreError {
    type V = StoreErrorModel;

    open spec fn view(&self) -> StoreErrorModel {
        match *self {
            StoreError::Sqlite(s) => StoreErrorModel::Sqlite(s@),
            StoreError::Conflict(s) => StoreErrorModel::Conflict(s@),
            StoreError::NotFound => StoreErrorModel::NotFound,
            StoreError::SubnetExhausted => StoreErrorModel::SubnetExhausted,
            StoreError::Corrupt(s) => StoreErrorModel::Corrupt(s@),
            StoreError::IncompatibleSchema => StoreErrorModel::IncompatibleSchema,
        }
    }
}

/// How the error reads.
pub open spec fn store_error_text(e: StoreErrorModel) -> Seq<char> {
    match e {
        StoreErrorModel::Sqlite(s) => s,
        StoreErrorModel::Conflict(s) => s + " is already taken"@,
        StoreErrorModel::NotFound => "not found"@,
        StoreErrorModel::SubnetExhausted => "the tunnel subnet has no free addresses left"@,
        StoreErrorModel::Corrupt(s) => "stored value is corrupt: "@ + s,
        StoreErrorModel::IncompatibleSchema =>
            "this database predates the node/service/port model and cannot be upgraded in place; delete it (or the portal-data volume) and start again"@,
    }
}

impl StoreError {
    /// How the error reads.
    pub fn to_string(&self) -> (r: String)
        ensures
            r@ == store_error_text(self@),
    {
        match self {
            StoreError::Sqlite(s) => s.clone(),
            StoreError::Conflict(s) => {
                let mut out = s.clone();
                out.append(" is already taken");
                out
            },
            StoreError::NotFound => "not found".to_owned(),
            StoreError::SubnetExhausted => {
                "the tunnel subnet has no free addresses left".to_owned()
            },
            StoreError::Corrupt(s) => {
                let mut out = "stored value is corrupt: ".to_owned();
                out.append(s.as_str());
                out
            },
            StoreError::IncompatibleSchema => {
                "this database predates the node/service/port model and cannot be upgraded in place; delete it (or the portal-data volume) and start again".to_owned()
            },
        }
    }
}

// ---- the tables ---------------------------------------------------------

/// The rows of every table, each in the order they were added.
#[derive(Debug)]
struct Tables {
    nodes: Vec<NodeRow>,
    services: Vec<ServiceRow>,
    ports: Vec<PortRow>,
}

/// The gateway's tables. They always keep what the schema promises.
#[derive(Debug)]
pub struct Store {
    tables: Tables,
}

/// What a [`Store`] holds.
#[verifier::ext_equal]
pub struct StoreModel {
    pub nodes: Seq<NodeRowModel>,
    pub services: Seq<ServiceRowModel>,
    pub ports: Seq<PortRowModel>,
}

impl View for Tables {
    type V = StoreModel;

    closed spec fn view(&self) -> StoreModel {
        StoreModel {
            nodes: text::views(self.nodes@),
            services: text::views(self.services@),
            ports: text::views(self.ports@),
        }
    }
}

impl View for Store {
    type V = StoreModel;

    closed spec fn view(&self) -> StoreModel {
        self.tables@
    }
}

impl Store {
    /// What the schema promises holds of every store.
    #[verifier::type_invariant]
    pub open spec fn well_formed(self) -> bool {
        self@.valid()
    }
}

/// The row of a node.
pub open spec fn node_with_id(id: Seq<char>) -> spec_fn(NodeRowModel) -> bool {
    |row: NodeRowModel| row.id == id
}

/// The row of a node whose key has this hash.
pub open spec fn node_with_hash(hash: Seq<char>) -> spec_fn(NodeRowModel) -> bool {
    |row: NodeRowModel| row.key_hash == hash
}

/// The row of a service.
pub open spec fn service_with_id(id: Seq<char>) -> spec_fn(ServiceRowModel) -> bool {
    |row: ServiceRowModel| row.id == id
}

/// The row of a mapping.
pub open spec fn port_with_id(id: Seq<char>) -> spec_fn(PortRowModel) -> bool {
    |row: PortRowModel| row.id == id
}

/// Whether no two rows clash.
pub open spec fn apart<T: Unique>(rows: Seq<T::V>) -> bool {
    forall|i: int, j: int| 0 <= i < j < rows.len() ==> !(#[trigger] T::clash(rows[i], rows[j]))
}

/// Whether `row` clashes with none of `rows`.
pub open spec fn fits<T: Unique>(rows: Seq<T::V>, row: T::V) -> bool {
    forall|i: int| 0 <= i < rows.len() ==> !T::clash(#[trigger] rows[i], row)
}

impl StoreModel {
    /// What the schema promises of the tables: what is unique is unique.
    pub open spec fn valid(self) -> bool {
        &&& apart::<NodeRow>(self.nodes)
        &&& apart::<ServiceRow>(self.services)
        &&& apart::<PortRow>(self.ports)
    }

    /// Whether every service belongs to a node and every mapping to a service.
    /// Rows that came from elsewhere need not. Where all of them do, every
    /// change here keeps it so.
    pub open spec fn linked(self) -> bool {
        &&& forall|i: int|
            0 <= i < self.services.len() ==> table::any(
                self.nodes,
                node_with_id((#[trigger] self.services[i]).node_id),
            )
        &&& forall|i: int|
            0 <= i < self.ports.len() ==> table::any(
                self.services,
                service_with_id((#[trigger] self.ports[i]).service_id),
            )
    }

    /// No rows at all.
    pub open spec fn empty() -> StoreModel {
        StoreModel { nodes: Seq::empty(), services: Seq::empty(), ports: Seq::empty() }
    }
}

/// Whether a table's columns are those of a database this version can use: it
/// has no `services` table yet, or one that names the node it runs on.
pub open spec fn compatible(services_columns: Option<Seq<Seq<char>>>) -> bool {
    match services_columns {
        None => true,
        Some(columns) => columns.contains("node_id"@),
    }
}

/// Refuse a database written by an older, incompatible schema.
///
/// Creating the tables leaves an existing one alone, so that would run happily
/// against the old shape and then fail deep inside an index with "no such
/// column: node_id" — which tells an operator nothing about what to do. Detect
/// it up front and say so. `services_columns` names the columns of the
/// `services` table, where there is one.
pub fn check_compatible(services_columns: Option<&Vec<String>>) -> (r: Result<(), StoreError>)
    ensures
        ({
            let columns = match services_columns {
                Some(v) => Some(text::views(v@)),
                None => None,
            };
            match r {
                Ok(()) => compatible(columns),
                Err(e) => !compatible(columns) && e@ == StoreErrorModel::IncompatibleSchema,
            }
        }),
{
    match services_columns {
        None => Ok(()),
        Some(columns) => {
            let ghost all = text::views(columns@);
            let mut i: usize = 0;
            while i < columns.len()
                invariant
                    i <= columns@.len(),
                    services_columns == Some(columns),
                    all == text::views(columns@),
                    forall|k: int| 0 <= k < i ==> #[trigger] all[k] != "node_id"@,
                decreases columns@.len() - i,
            {
                if text::same_text(columns[i].as_str(), "node_id") {
                    proof {
                        assert(all[i as int] == "node_id"@);
                    }
                    return Ok(());
                }
                proof {
                    assert(all[i as int] == columns@[i as int]@);
                }
                i += 1;
            }
            Err(StoreError::IncompatibleSchema)
        },
    }
}

/// Whether `row` clashes with none of `rows`.
fn has_room<T: Unique>(rows: &Vec<T>, row: &T) -> (r: bool)
    ensures
        r == fits::<T>(text::views(rows@), row@),
{
    let ghost all = text::views(rows@);
    let mut i: usize = 0;
    while i < rows.len()
        invariant
            i <= rows@.len(),
            all == text::views(rows@),
            forall|k: int| 0 <= k < i ==> !T::clash(#[trigger] all[k], row@),
        decreases rows@.len() - i,
    {
        proof {
            assert(all[i as int] == rows@[i as int]@);
        }
        if rows[i].clashes(row) {
            return false;
        }
        i += 1;
    }
    true
}

/// Whether no two rows clash.
fn all_apart<T: Unique>(rows: &Vec<T>) -> (r: bool)
    ensures
        r == apart::<T>(text::views(rows@)),
{
    let ghost all = text::views(rows@);
    let mut j: usize = 0;
    while j < rows.len()
        invariant
            j <= rows@.len(),
            all == text::views(rows@),
            forall|a: int, b: int| 0 <= a < b < j ==> !(#[trigger] T::clash(all[a], all[b])),
        decreases rows@.len() - j,
    {
        let mut i: usize = 0;
        while i < j
            invariant
                i <= j < rows@.len(),
                all == text::views(rows@),
                forall|a: int| 0 <= a < i ==> !(#[trigger] T::clash(all[a], all[j as int])),
            decreases j - i,
        {
            proof {
                assert(all[i as int] == rows@[i as int]@);
                assert(all[j as int] == rows@[j as int]@);
            }
            if rows[i].clashes(&rows[j]) {
                return false;
            }
            i += 1;
        }
        j += 1;
    }
    true
}

impl Tables {
    fn none() -> (r: Tables)
        ensures
            r@ == StoreModel::empty(),
            r@.valid(),
    {
        let r = Tables { nodes: Vec::new(), services: Vec::new(), ports: Vec::new() };
        proof {
            assert(r@ =~= StoreModel::empty());
        }
        r
    }

    fn has_node(&self, id: &str) -> (r: bool)
        ensures
            r == table::any(self@.nodes, node_with_id(id@)),
    {
        let hit = |row: &NodeRow| -> (b: bool)
            ensures
                b == (row@.id == id@),
            { text::same_text(row.id.as_str(), id) };
        table::holds_some(&self.nodes, hit, Ghost(node_with_id(id@)))
    }

    fn has_service(&self, id: &str) -> (r: bool)
        ensures
            r == table::any(self@.services, service_with_id(id@)),
    {
        let hit = |row: &ServiceRow| -> (b: bool)
            ensures
                b == (row@.id == id@),
            { text::same_text(row.id.as_str(), id) };
        table::holds_some(&self.services, hit, Ghost(service_with_id(id@)))
    }
}

impl Store {
    /// Takes the rows out, to be put back changed.
    fn take(&mut self) -> (r: Tables)
        ensures
            r@ == old(self)@,
            final(self)@ == StoreModel::empty(),
    {
        let mut tables = Tables::none();
        std::mem::swap(&mut tables, &mut self.tables);
        tables
    }

    /// An empty store, kept nowhere.
    pub fn open_in_memory() -> (r: Result<Store, StoreError>)
        ensures
            r is Ok,
            r->Ok_0@ == StoreModel::empty(),
            r->Ok_0@.valid(),
            r->Ok_0@.linked(),
    {
        Ok(Store { tables: Tables::none() })
    }

    /// A store made of rows read from somewhere, where they keep what the
    /// schema promises.
    pub fn from_tables(
        nodes: Vec<NodeRow>,
        services: Vec<ServiceRow>,
        ports: Vec<PortRow>,
    ) -> (r: Option<Store>)
        ensures
            ({
                let tables = StoreModel {
                    nodes: text::views(nodes@),
                    services: text::views(services@),
                    ports: text::views(ports@),
                };
                match r {
                    Some(store) => store@ == tables && tables.valid(),
                    None => !tables.valid(),
                }
            }),
    {
        let held = Tables { nodes, services, ports };
        if !all_apart(&held.nodes) || !all_apart(&held.services) || !all_apart(&held.ports) {
            return None;
        }
        Some(Store { tables: held })
    }

    /// The rows of the `nodes` table.
    pub fn node_rows(&self) -> (r: &Vec<NodeRow>)
        ensures
            text::views(r@) == self@.nodes,
            self@.valid(),
    {
        proof {
            use_type_invariant(self);
        }
        &self.tables.nodes
    }

    /// The rows of the `services` table.
    pub fn service_rows(&self) -> (r: &Vec<ServiceRow>)
        ensures
            text::views(r@) == self@.services,
            self@.valid(),
    {
        proof {
            use_type_invariant(self);
        }
        &self.tables.services
    }

    /// The rows of the `port_mappings` table.
    pub fn port_rows(&self) -> (r: &Vec<PortRow>)
        ensures
            text::views(r@) == self@.ports,
            self@.valid(),
    {
        proof {
            use_type_invariant(self);
        }
        &self.tables.ports
    }
}

// ---- reading ------------------------------------------------------------

/// Reads the row of a node.
pub open spec fn node_reader() -> spec_fn(NodeRowModel) -> Result<NodeModel, StoreErrorModel> {
    |row: NodeRowModel| rows::node_of(row)
}

/// Reads the tunnel address of a node.
pub open spec fn address_reader() -> spec_fn(NodeRowModel) -> Result<Ipv4Addr, StoreErrorModel> {
    |row: NodeRowModel| rows::address_of(row.tunnel_ip)
}

/// Reads the row of a service.
pub open spec fn service_reader() -> spec_fn(ServiceRowModel) -> Result<
    ServiceModel,
    StoreErrorModel,
> {
    |row: ServiceRowModel| rows::service_of(row)
}

/// Reads the row of a mapping.
pub open spec fn mapping_reader() -> spec_fn(PortRowModel) -> Result<
    PortMappingModel,
    StoreErrorModel,
> {
    |row: PortRowModel| rows::mapping_of(row)
}

/// Reads the public port of a mapping.
pub open spec fn port_reader() -> spec_fn(PortRowModel) -> Result<
    (Protocol, u16),
    StoreErrorModel,
> {
    |row: PortRowModel|
        match rows::protocol_of(row.protocol) {
            Ok(protocol) => Ok((protocol, row.edge_port)),
            Err(e) => Err(e),
        }
}

/// Every node, in the order they were created.
pub open spec fn listed_nodes(s: StoreModel) -> Result<Seq<NodeModel>, StoreErrorModel> {
    table::collected(table::ordered(s.nodes, table::le_of::<NodeRow>()), node_reader())
}

/// The node with an identifier.
pub open spec fn got_node(s: StoreModel, id: Uuid) -> Result<NodeModel, StoreErrorModel> {
    match table::first(s.nodes, node_with_id(ids::uuid_text(id))) {
        Some(row) => rows::node_of(row),
        None => Err(StoreErrorModel::NotFound),
    }
}

/// The node whose key this is.
pub open spec fn authenticated(s: StoreModel, key: Seq<char>) -> Result<
    NodeModel,
    StoreErrorModel,
> {
    match table::first(s.nodes, node_with_hash(token::token_hash(key))) {
        Some(row) => rows::node_of(row),
        None => Err(StoreErrorModel::NotFound),
    }
}

/// Every service, by subdomain.
pub open spec fn listed_services(s: StoreModel) -> Result<Seq<ServiceModel>, StoreErrorModel> {
    table::collected(table::ordered(s.services, table::le_of::<ServiceRow>()), service_reader())
}

/// The service with an identifier.
pub open spec fn got_service(s: StoreModel, id: Uuid) -> Result<ServiceModel, StoreErrorModel> {
    match table::first(s.services, service_with_id(ids::uuid_text(id))) {
        Some(row) => rows::service_of(row),
        None => Err(StoreErrorModel::NotFound),
    }
}

/// Whether a service's records are known to be published.
pub open spec fn dns_synced(s: StoreModel, id: Uuid) -> Result<bool, StoreErrorModel> {
    match table::first(s.services, service_with_id(ids::uuid_text(id))) {
        Some(row) => Ok(row.dns_synced != 0),
        None => Err(StoreErrorModel::NotFound),
    }
}

/// A mapping of a service.
pub open spec fn port_of_service(service_id: Seq<char>) -> spec_fn(PortRowModel) -> bool {
    |row: PortRowModel| row.service_id == service_id
}

/// The mappings of a service, by protocol and public port.
pub open spec fn ports_of(s: StoreModel, service_id: Uuid) -> Result<
    Seq<PortMappingModel>,
    StoreErrorModel,
> {
    table::collected(
        table::ordered(
            s.ports.filter(port_of_service(ids::uuid_text(service_id))),
            table::le_of::<PortRow>(),
        ),
        mapping_reader(),
    )
}

/// Every public port in use.
pub open spec fn taken_ports(s: StoreModel) -> Result<Seq<(Protocol, u16)>, StoreErrorModel> {
    table::collected(s.ports, port_reader())
}

/// A mapping of an enabled service that runs on a node.
pub open spec fn forwarded_to(s: StoreModel, node_id: Seq<char>) -> spec_fn(PortRowModel) -> bool {
    |row: PortRowModel|
        match table::first(s.services, service_with_id(row.service_id)) {
            Some(service) => service.node_id == node_id && service.enabled == 1,
            None => false,
        }
}

/// Reads what an agent is told of a mapping. It listens on the same port
/// inside the tunnel that players hit outside it, so DNAT is a pure address
/// change and a packet capture reads the same on both sides.
pub open spec fn forward_reader() -> spec_fn(PortRowModel) -> Result<
    ForwardModel,
    StoreErrorModel,
> {
    |row: PortRowModel|
        match rows::protocol_of(row.protocol) {
            Ok(protocol) => Ok(
                ForwardModel {
                    protocol,
                    tunnel_port: row.edge_port,
                    local_host: row.local_host,
                    local_port: row.local_port,
                },
            ),
            Err(e) => Err(e),
        }
}

/// All enabled forwards for one node, which is exactly its assignment.
pub open spec fn forwards_of(s: StoreModel, node_id: Uuid) -> Result<
    Seq<ForwardModel>,
    StoreErrorModel,
> {
    table::collected(
        table::ordered(
            s.ports.filter(forwarded_to(s, ids::uuid_text(node_id))),
            table::le_of::<PortRow>(),
        ),
        forward_reader(),
    )
}

/// The row of the node that a mapping's service runs on.
pub open spec fn node_behind(s: StoreModel, row: PortRowModel) -> Option<NodeRowModel> {
    match table::first(s.services, service_with_id(row.service_id)) {
        Some(service) => table::first(s.nodes, node_with_id(service.node_id)),
        None => None,
    }
}

/// A mapping of an enabled service.
pub open spec fn live(s: StoreModel) -> spec_fn(PortRowModel) -> bool {
    |row: PortRowModel|
        match table::first(s.services, service_with_id(row.service_id)) {
            Some(service) => service.enabled == 1 && node_behind(s, row) is Some,
            None => false,
        }
}

/// The tunnel address of a node's row, where there is one.
pub open spec fn address_behind(node: Option<NodeRowModel>) -> Result<Ipv4Addr, StoreErrorModel> {
    match node {
        Some(row) => rows::address_of(row.tunnel_ip),
        None => Err(StoreErrorModel::NotFound),
    }
}

/// Reads what the packet filter is told of a live mapping.
pub open spec fn active_reader(s: StoreModel) -> spec_fn(PortRowModel) -> Result<
    ActiveForward,
    StoreErrorModel,
> {
    |row: PortRowModel|
        match (
            address_behind(node_behind(s, row)),
            rows::protocol_of(row.protocol),
            rows::id_of(row.service_id, "service id"@),
        ) {
            (Err(e), _, _) => Err(e),
            (_, Err(e), _) => Err(e),
            (_, _, Err(e)) => Err(e),
            (Ok(tunnel_ip), Ok(protocol), Ok(service_id)) => Ok(
                ActiveForward {
                    tunnel_ip,
                    protocol,
                    edge_port: row.edge_port,
                    local_port: row.local_port,
                    service_id,
                },
            ),
        }
}

/// Everything the packet filter needs: live mappings, by protocol and public
/// port, with the tunnel address they belong to.
pub open spec fn active_of(s: StoreModel) -> Result<Seq<ActiveForward>, StoreErrorModel> {
    table::collected(
        table::ordered(s.ports.filter(live(s)), table::le_of::<PortRow>()),
        active_reader(s),
    )
}

/// One live forward, flattened across service and node.
#[derive(Debug, Clone, Copy, PartialEq, Eq, Structural)]
pub struct ActiveForward {
    pub tunnel_ip: Ipv4Addr,
    pub protocol: Protocol,
    pub edge_port: u16,
    /// Where the server behind the node listens.
    pub local_port: u16,
    pub service_id: Uuid,
}

impl View for ActiveForward {
    type V = ActiveForward;

    open spec fn view(&self) -> ActiveForward {
        *self
    }
}

impl Store {
    /// The row of a node.
    fn node_row(&self, id: &str) -> (r: Option<&NodeRow>)
        ensures
            match r {
                Some(row) => table::first(self@.nodes, node_with_id(id@)) == Some(row@),
                None => table::first(self@.nodes, node_with_id(id@)) is None,
            },
    {
        let hit = |row: &NodeRow| -> (b: bool)
            ensures
                b == (row@.id == id@),
            { text::same_text(row.id.as_str(), id) };
        match table::find(&self.tables.nodes, hit, Ghost(node_with_id(id@))) {
            Some(i) => Some(&self.tables.nodes[i]),
            None => None,
        }
    }

    /// The row of a service.
    fn service_row(&self, id: &str) -> (r: Option<&ServiceRow>)
        ensures
            match r {
                Some(row) => table::first(self@.services, service_with_id(id@)) == Some(row@),
                None => table::first(self@.services, service_with_id(id@)) is None,
            },
    {
        let hit = |row: &ServiceRow| -> (b: bool)
            ensures
                b == (row@.id == id@),
            { text::same_text(row.id.as_str(), id) };
        match table::find(&self.tables.services, hit, Ghost(service_with_id(id@))) {
            Some(i) => Some(&self.tables.services[i]),
            None => None,
        }
    }

    pub fn list_nodes(&self) -> (r: Result<Vec<Node>, StoreError>)
        ensures
            rows::outcomes(r) == listed_nodes(self@),
            self@.valid(),
    {
        proof {
            use_type_invariant(self);
        }
        let every = table::borrowed(&self.tables.nodes);
        let sorted = table::in_order(&every);
        let read = |row: &NodeRow| -> (m: Result<Node, StoreError>)
            ensures
                rows::outcome(m) == rows::node_of(row@),
            { row.read() };
        table::read_all(&sorted, read, Ghost(node_reader()))
    }

    pub fn get_node(&self, id: Uuid) -> (r: Result<Node, StoreError>)
        ensures
            rows::outcome(r) == got_node(self@, id),
            self@.valid(),
    {
        proof {
            use_type_invariant(self);
        }
        let id = id.to_string();
        match self.node_row(id.as_str()) {
            Some(row) => row.read(),
            None => Err(StoreError::NotFound),
        }
    }

    /// Resolve a node from the key its agent presents.
    pub fn authenticate_node(&self, key: &str) -> (r: Result<Node, StoreError>)
        ensures
            rows::outcome(r) == authenticated(self@, key@),
            self@.valid(),
    {
        proof {
            use_type_invariant(self);
        }
        let hash = token::hash(key);
        let hit = |row: &NodeRow| -> (b: bool)
            ensures
                b == (row@.key_hash == hash@),
            { text::same_text(row.key_hash.as_str(), hash.as_str()) };
        match table::find(&self.tables.nodes, hit, Ghost(node_with_hash(hash@))) {
            Some(i) => self.tables.nodes[i].read(),
            None => Err(StoreError::NotFound),
        }
    }

    pub fn list_services(&self) -> (r: Result<Vec<Service>, StoreError>)
        ensures
            rows::outcomes(r) == listed_services(self@),
            self@.valid(),
    {
        proof {
            use_type_invariant(self);
        }
        let every = table::borrowed(&self.tables.services);
        let sorted = table::in_order(&every);
        let read = |row: &ServiceRow| -> (m: Result<Service, StoreError>)
            ensures
                rows::outcome(m) == rows::service_of(row@),
            { row.read() };
        table::read_all(&sorted, read, Ghost(service_reader()))
    }

    pub fn get_service(&self, id: Uuid) -> (r: Result<Service, StoreError>)
        ensures
            rows::outcome(r) == got_service(self@, id),
            self@.valid(),
    {
        proof {
            use_type_invariant(self);
        }
        let id = id.to_string();
        match self.service_row(id.as_str()) {
            Some(row) => row.read(),
            None => Err(StoreError::NotFound),
        }
    }

    pub fn is_dns_synced(&self, id: Uuid) -> (r: Result<bool, StoreError>)
        ensures
            rows::outcome(r) == dns_synced(self@, id),
            self@.valid(),
    {
        proof {
            use_type_invariant(self);
        }
        let id = id.to_string();
        match self.service_row(id.as_str()) {
            Some(row) => Ok(row.dns_synced != 0),
            None => Err(StoreError::NotFound),
        }
    }

    pub fn ports_for_service(&self, service_id: Uuid) -> (r: Result<Vec<PortMapping>, StoreError>)
        ensures
            rows::outcomes(r) == ports_of(self@, service_id),
            self@.valid(),
    {
        proof {
            use_type_invariant(self);
        }
        let id = service_id.to_string();
        let keep = |row: &PortRow| -> (b: bool)
            ensures
                b == (row@.service_id == id@),
            { text::same_text(row.service_id.as_str(), id.as_str()) };
        let mine = table::chosen(&self.tables.ports, keep, Ghost(port_of_service(id@)));
        let sorted = table::in_order(&mine);
        let read = |row: &PortRow| -> (m: Result<PortMapping, StoreError>)
            ensures
                rows::outcome(m) == rows::mapping_of(row@),
            { row.read() };
        table::read_all(&sorted, read, Ghost(mapping_reader()))
    }

    /// Every `(protocol, edge_port)` in use, for rebuilding the allocator at
    /// startup. Disabled services keep their ports: turning a server off for
    /// the winter should not mean losing its address.
    pub fn taken_edge_ports(&self) -> (r: Result<Vec<(Protocol, u16)>, StoreError>)
        ensures
            rows::outcomes(r) == taken_ports(self@),
            self@.valid(),
    {
        proof {
            use_type_invariant(self);
        }
        let every = table::borrowed(&self.tables.ports);
        let read = |row: &PortRow| -> (m: Result<(Protocol, u16), StoreError>)
            ensures
                rows::outcome(m) == port_reader()(row@),
            {
                match rows::parse_protocol(row.protocol.as_str()) {
                    Ok(protocol) => Ok((protocol, row.edge_port)),
                    Err(e) => Err(e),
                }
            };
        table::read_all(&every, read, Ghost(port_reader()))
    }

    /// All enabled forwards for one node, which is exactly its assignment.
    pub fn forwards_for_node(&self, node_id: Uuid) -> (r: Result<Vec<Forward>, StoreError>)
        ensures
            rows::outcomes(r) == forwards_of(self@, node_id),
            self@.valid(),
    {
        proof {
            use_type_invariant(self);
        }
        let id = node_id.to_string();
        let keep = |row: &PortRow| -> (b: bool)
            ensures
                b == forwarded_to(self@, id@)(row@),
            {
                match self.service_row(row.service_id.as_str()) {
                    Some(service) => text::same_text(service.node_id.as_str(), id.as_str())
                        && service.enabled == 1,
                    None => false,
                }
            };
        let mine = table::chosen(&self.tables.ports, keep, Ghost(forwarded_to(self@, id@)));
        let sorted = table::in_order(&mine);
        let read = |row: &PortRow| -> (m: Result<Forward, StoreError>)
            ensures
                rows::outcome(m) == forward_reader()(row@),
            {
                match rows::parse_protocol(row.protocol.as_str()) {
                    Ok(protocol) => Ok(
                        Forward {
                            protocol,
                            tunnel_port: row.edge_port,
                            local_host: row.local_host.clone(),
                            local_port: row.local_port,
                        },
                    ),
                    Err(e) => Err(e),
                }
            };
        table::read_all(&sorted, read, Ghost(forward_reader()))
    }

    /// The row of the node that a mapping's service runs on.
    fn node_row_behind(&self, row: &PortRow) -> (r: Option<&NodeRow>)
        ensures
            match r {
                Some(node) => node_behind(self@, row@) == Some(node@),
                None => node_behind(self@, row@) is None,
            },
    {
        match self.service_row(row.service_id.as_str()) {
            Some(service) => self.node_row(service.node_id.as_str()),
            None => None,
        }
    }

    /// Reads what the packet filter is told of a live mapping.
    fn read_active(&self, row: &PortRow) -> (r: Result<ActiveForward, StoreError>)
        ensures
            rows::outcome(r) == active_reader(self@)(row@),
    {
        let tunnel_ip = match self.node_row_behind(row) {
            Some(node) => match rows::parse_address(node.tunnel_ip.as_str()) {
                Ok(address) => address,
                Err(e) => {
                    return Err(e);
                },
            },
            None => {
                return Err(StoreError::NotFound);
            },
        };
        let protocol = match rows::parse_protocol(row.protocol.as_str()) {
            Ok(protocol) => protocol,
            Err(e) => {
                return Err(e);
            },
        };
        let service_id = match rows::parse_id(row.service_id.as_str(), "service id") {
            Ok(id) => id,
            Err(e) => {
                return Err(e);
            },
        };
        Ok(
            ActiveForward {
                tunnel_ip,
                protocol,
                edge_port: row.edge_port,
                local_port: row.local_port,
                service_id,
            },
        )
    }

    /// Everything nftables needs: enabled mappings joined to the tunnel
    /// address they belong to.
    pub fn active_forwards(&self) -> (r: Result<Vec<ActiveForward>, StoreError>)
        ensures
            rows::outcomes(r) == active_of(self@),
            self@.valid(),
    {
        proof {
            use_type_invariant(self);
        }
        let keep = |row: &PortRow| -> (b: bool)
            ensures
                b == live(self@)(row@),
            {
                match self.service_row(row.service_id.as_str()) {
                    Some(service) => {
                        let behind = self.node_row_behind(row);
                        service.enabled == 1 && behind.is_some()
                    },
                    None => false,
                }
            };
        let mine = table::chosen(&self.tables.ports, keep, Ghost(live(self@)));
        let sorted = table::in_order(&mine);
        let read = |row: &PortRow| -> (m: Result<ActiveForward, StoreError>)
            ensures
                rows::outcome(m) == active_reader(self@)(row@),
            { self.read_active(row) };
        table::read_all(&sorted, read, Ghost(active_reader(self@)))
    }
}

// ---- changing -----------------------------------------------------------

/// The addresses in use: the gateway's, and every node's.
pub open spec fn taken_addresses(s: StoreModel, gateway_ip: Ipv4Addr) -> Result<
    Seq<Ipv4Addr>,
    StoreErrorModel,
> {
    match table::collected(s.nodes, address_reader()) {
        Ok(addresses) => Ok(seq![gateway_ip] + addresses),
        Err(e) => Err(e),
    }
}

/// The row of a fresh node.
pub open spec fn fresh_node_row(
    id: Uuid,
    name: Seq<char>,
    key: Seq<char>,
    tunnel_ip: Ipv4Addr,
    created_at: Seq<char>,
) -> NodeRowModel {
    NodeRowModel {
        id: ids::uuid_text(id),
        name,
        key_hash: token::token_hash(key),
        public_key: None,
        tunnel_ip: addr::ipv4_text(tunnel_ip),
        last_handshake: None,
        created_at,
    }
}

/// A node that has never been heard of.
pub open spec fn fresh_node(
    id: Uuid,
    name: Seq<char>,
    tunnel_ip: Ipv4Addr,
    created_at: Timestamp,
) -> NodeModel {
    NodeModel { id, name, public_key: None, tunnel_ip, last_handshake: None, created_at }
}

/// The tables and the answer after creating a node with this identifier and
/// key: it gets the lowest free address of the subnet.
pub open spec fn node_created(
    s: StoreModel,
    name: Seq<char>,
    subnet: Ipv4Net,
    gateway_ip: Ipv4Addr,
    now: Timestamp,
    id: Uuid,
    key: Seq<char>,
) -> (StoreModel, Result<(NodeModel, Seq<char>), StoreErrorModel>) {
    match taken_addresses(s, gateway_ip) {
        Err(e) => (s, Err(e)),
        Ok(taken) => match net::next_host(subnet, taken) {
            None => (s, Err(StoreErrorModel::SubnetExhausted)),
            Some(tunnel_ip) => match clock::stamp_text(now) {
                Err(e) => (s, Err(StoreErrorModel::Corrupt(e))),
                Ok(created_at) => if table::any(s.nodes, node_with_id(ids::uuid_text(id))) {
                    (s, Err(StoreErrorModel::Sqlite("UNIQUE constraint failed: nodes.id"@)))
                } else if table::any(s.nodes, node_with_hash(token::token_hash(key))) {
                    (s, Err(StoreErrorModel::Sqlite("UNIQUE constraint failed: nodes.key_hash"@)))
                } else {
                    (
                        StoreModel {
                            nodes: s.nodes.push(
                                fresh_node_row(id, name, key, tunnel_ip, created_at),
                            ),
                            ..s
                        },
                        Ok((fresh_node(id, name, tunnel_ip, now), key)),
                    )
                },
            },
        },
    }
}

/// Whether a node can be created with this identifier and key: every stored
/// address can be read, one is free, the time can be written, and neither the
/// identifier nor the key is another node's.
pub open spec fn can_create_node(
    s: StoreModel,
    subnet: Ipv4Net,
    gateway_ip: Ipv4Addr,
    now: Timestamp,
    id: Uuid,
    key: Seq<char>,
) -> bool {
    &&& taken_addresses(s, gateway_ip) matches Ok(taken) && net::next_host(subnet, taken) is Some
    &&& now.writable()
    &&& !table::any(s.nodes, node_with_id(ids::uuid_text(id)))
    &&& !table::any(s.nodes, node_with_hash(token::token_hash(key)))
}

/// The answer of a statement that touches one row: whether there was one.
pub open spec fn touched(found: bool) -> Result<(), StoreErrorModel> {
    if found {
        Ok(())
    } else {
        Err(StoreErrorModel::NotFound)
    }
}

/// Gives the node with this identifier a public key.
pub open spec fn keyed(id: Seq<char>, key: Seq<char>) -> spec_fn(NodeRowModel) -> NodeRowModel {
    |row: NodeRowModel|
        if row.id == id {
            NodeRowModel { public_key: Some(key), ..row }
        } else {
            row
        }
}

/// Notes when the node with this identifier was last heard.
pub open spec fn heard(id: Seq<char>, at: Seq<char>) -> spec_fn(NodeRowModel) -> NodeRowModel {
    |row: NodeRowModel|
        if row.id == id {
            NodeRowModel { last_handshake: Some(at), ..row }
        } else {
            row
        }
}

/// Turns the service with this identifier on or off.
pub open spec fn switched(id: Seq<char>, enabled: i64) -> spec_fn(
    ServiceRowModel,
) -> ServiceRowModel {
    |row: ServiceRowModel|
        if row.id == id {
            ServiceRowModel { enabled, ..row }
        } else {
            row
        }
}

/// Notes whether the records of the service with this identifier are published.
pub open spec fn marked(id: Seq<char>, synced: i64) -> spec_fn(ServiceRowModel) -> ServiceRowModel {
    |row: ServiceRowModel|
        if row.id == id {
            ServiceRowModel { dns_synced: synced, ..row }
        } else {
            row
        }
}

/// How a flag is stored.
pub open spec fn flag(b: bool) -> i64 {
    if b {
        1
    } else {
        0
    }
}

/// The tables after a node's agent announced a public key.
pub open spec fn key_set(s: StoreModel, id: Uuid, key: Seq<char>) -> StoreModel {
    StoreModel { nodes: s.nodes.map_values(keyed(ids::uuid_text(id), key)), ..s }
}

/// The tables and the answer after a node was heard.
pub open spec fn handshake_recorded(s: StoreModel, id: Uuid, at: Timestamp) -> (
    StoreModel,
    Result<(), StoreErrorModel>,
) {
    match clock::stamp_text(at) {
        Ok(at) => (
            StoreModel { nodes: s.nodes.map_values(heard(ids::uuid_text(id), at)), ..s },
            Ok(()),
        ),
        Err(e) => (s, Err(StoreErrorModel::Corrupt(e))),
    }
}

/// A row that is not a given node's.
pub open spec fn not_node(id: Seq<char>) -> spec_fn(NodeRowModel) -> bool {
    |row: NodeRowModel| row.id != id
}

/// A service that does not run on a given node.
pub open spec fn not_on_node(id: Seq<char>) -> spec_fn(ServiceRowModel) -> bool {
    |row: ServiceRowModel| row.node_id != id
}

/// A service, with this identifier, that runs on a given node.
pub open spec fn on_node(service_id: Seq<char>, id: Seq<char>) -> spec_fn(ServiceRowModel) -> bool {
    |row: ServiceRowModel| row.id == service_id && row.node_id == id
}

/// A mapping of no service of a given node.
pub open spec fn not_behind_node(services: Seq<ServiceRowModel>, id: Seq<char>) -> spec_fn(
    PortRowModel,
) -> bool {
    |row: PortRowModel| !table::any(services, on_node(row.service_id, id))
}

/// The tables without a node, its services and their mappings, where there is
/// such a node.
pub open spec fn node_deleted(s: StoreModel, id: Uuid) -> StoreModel {
    let id = ids::uuid_text(id);
    if table::any(s.nodes, node_with_id(id)) {
        StoreModel {
            nodes: s.nodes.filter(not_node(id)),
            services: s.services.filter(not_on_node(id)),
            ports: s.ports.filter(not_behind_node(s.services, id)),
        }
    } else {
        s
    }
}

/// The row of a service that was just added; its records are not published.
pub open spec fn service_row_of(service: ServiceModel, created_at: Seq<char>) -> ServiceRowModel {
    ServiceRowModel {
        id: ids::uuid_text(service.id),
        node_id: ids::uuid_text(service.node_id),
        name: service.name,
        subdomain: service.subdomain,
        enabled: flag(service.enabled),
        dns_synced: 0,
        created_at,
    }
}

/// Whether a service can be added: the time can be written, no other service
/// has its identifier or subdomain, and its node is there.
pub open spec fn can_insert_service(s: StoreModel, service: ServiceModel) -> bool {
    &&& service.created_at.writable()
    &&& fits::<ServiceRow>(s.services, service_row_of(service, Seq::empty()))
    &&& table::any(s.nodes, node_with_id(ids::uuid_text(service.node_id)))
}

/// The tables and the answer after adding a service.
pub open spec fn service_inserted(s: StoreModel, service: ServiceModel) -> (
    StoreModel,
    Result<(), StoreErrorModel>,
) {
    match clock::stamp_text(service.created_at) {
        Err(e) => (s, Err(StoreErrorModel::Corrupt(e))),
        Ok(created_at) => {
            let row = service_row_of(service, created_at);
            if fits::<ServiceRow>(s.services, row) && table::any(
                s.nodes,
                node_with_id(row.node_id),
            ) {
                (StoreModel { services: s.services.push(row), ..s }, Ok(()))
            } else {
                (s, Err(StoreErrorModel::Conflict("that subdomain"@)))
            }
        },
    }
}

/// The tables after turning a service on or off.
pub open spec fn service_switched(s: StoreModel, id: Uuid, enabled: bool) -> StoreModel {
    StoreModel {
        services: s.services.map_values(switched(ids::uuid_text(id), flag(enabled))),
        ..s
    }
}

/// The tables after noting whether a service's records are published.
pub open spec fn service_marked(s: StoreModel, id: Uuid, synced: bool) -> StoreModel {
    StoreModel { services: s.services.map_values(marked(ids::uuid_text(id), flag(synced))), ..s }
}

/// A row that is not a given service's.
pub open spec fn not_service(id: Seq<char>) -> spec_fn(ServiceRowModel) -> bool {
    |row: ServiceRowModel| row.id != id
}

/// A mapping that is not a given service's.
pub open spec fn not_of_service(id: Seq<char>) -> spec_fn(PortRowModel) -> bool {
    |row: PortRowModel| row.service_id != id
}

/// The tables without a service and its mappings, where there is such a
/// service.
pub open spec fn service_deleted(s: StoreModel, id: Uuid) -> StoreModel {
    let id = ids::uuid_text(id);
    if table::any(s.services, service_with_id(id)) {
        StoreModel {
            services: s.services.filter(not_service(id)),
            ports: s.ports.filter(not_of_service(id)),
            ..s
        }
    } else {
        s
    }
}

/// The row of a mapping, with its SRV settings where it has any.
pub open spec fn port_row_of(mapping: PortMappingModel) -> PortRowModel {
    PortRowModel {
        id: ids::uuid_text(mapping.id),
        service_id: ids::uuid_text(mapping.service_id),
        protocol: mapping.protocol.name(),
        local_host: mapping.local_host,
        local_port: mapping.local_port,
        edge_port: mapping.edge_port,
        srv_service: match mapping.srv {
            Some(spec) => Some(spec.service),
            None => None,
        },
        srv_proto: match mapping.srv {
            Some(spec) => Some(spec.proto),
            None => None,
        },
        srv_priority: match mapping.srv {
            Some(spec) => Some(spec.priority),
            None => None,
        },
        srv_weight: match mapping.srv {
            Some(spec) => Some(spec.weight),
            None => None,
        },
    }
}

/// The tables and the answer after adding a mapping.
pub open spec fn port_added(s: StoreModel, mapping: PortMappingModel) -> (
    StoreModel,
    Result<(), StoreErrorModel>,
) {
    let row = port_row_of(mapping);
    if fits::<PortRow>(s.ports, row) && table::any(s.services, service_with_id(row.service_id)) {
        (StoreModel { ports: s.ports.push(row), ..s }, Ok(()))
    } else {
        (s, Err(StoreErrorModel::Conflict("that public port"@)))
    }
}

/// A row that is not a given mapping's.
pub open spec fn not_port(id: Seq<char>) -> spec_fn(PortRowModel) -> bool {
    |row: PortRowModel| row.id != id
}

/// The tables and the answer after deleting a mapping: which service it was
/// of.
pub open spec fn port_deleted(s: StoreModel, id: Uuid) -> (
    StoreModel,
    Result<Uuid, StoreErrorModel>,
) {
    let id = ids::uuid_text(id);
    match table::first(s.ports, port_with_id(id)) {
        None => (s, Err(StoreErrorModel::NotFound)),
        Some(row) => (
            StoreModel { ports: s.ports.filter(not_port(id)), ..s },
            rows::id_of(row.service_id, "service id"@),
        ),
    }
}

impl Store {
    /// Create a node with this identifier and key.
    ///
    /// The tunnel address is assigned now and never changes, so the forwards
    /// pointing at it survive the agent restarting, upgrading, or being moved
    /// to another machine.
    pub fn create_node_with(
        &mut self,
        name: &str,
        subnet: Ipv4Net,
        gateway_ip: Ipv4Addr,
        now: Timestamp,
        id: Uuid,
        key: String,
    ) -> (r: Result<(Node, String), StoreError>)
        ensures
            (final(self)@, rows::outcome(r)) == node_created(
                old(self)@,
                name@,
                subnet,
                gateway_ip,
                now,
                id,
                key@,
            ),
            r is Ok <==> can_create_node(old(self)@, subnet, gateway_ip, now, id, key@),
            r matches Ok(made) ==> {
                &&& got_node(final(self)@, id) == Ok::<NodeModel, StoreErrorModel>(made.0@)
                &&& authenticated(final(self)@, key@) == Ok::<NodeModel, StoreErrorModel>(
                    made.0@,
                )
            },
            final(self)@.valid(),
            old(self)@.linked() ==> final(self)@.linked(),
    {
        proof {
            use_type_invariant(&*self);
            store_laws::law_create_node_keeps_the_schema(self@, name@, subnet, gateway_ip, now, id, key@);
        }
        let ghost before = self@;
        let every = table::borrowed(&self.tables.nodes);
        let read = |row: &NodeRow| -> (m: Result<Ipv4Addr, StoreError>)
            ensures
                rows::outcome(m) == rows::address_of(row@.tunnel_ip),
            { rows::parse_address(row.tunnel_ip.as_str()) };
        let addresses = match table::read_all(&every, read, Ghost(address_reader())) {
            Ok(addresses) => addresses,
            Err(e) => {
                return Err(e);
            },
        };
        let mut taken: Vec<Ipv4Addr> = Vec::new();
        taken.push(gateway_ip);
        let mut i: usize = 0;
        while i < addresses.len()
            invariant
                i <= addresses@.len(),
                taken@ == seq![gateway_ip] + text::views(addresses@).take(i as int),
            decreases addresses@.len() - i,
        {
            proof {
                text::lemma_views_step(addresses@, i as int);
            }
            taken.push(addresses[i]);
            i += 1;
        }
        proof {
            assert(text::views(addresses@).take(i as int) =~= text::views(addresses@));
        }
        let tunnel_ip = match subnet.next_free(taken.as_slice()) {
            Ok(address) => address,
            Err(_) => {
                proof {
                    net::lemma_no_next_host(subnet, taken@);
                }
                return Err(StoreError::SubnetExhausted);
            },
        };
        proof {
            net::lemma_next_host(subnet, taken@, tunnel_ip);
        }
        let created_at = match rows::fmt_time(now) {
            Ok(s) => s,
            Err(e) => {
                return Err(e);
            },
        };
        let id_text = id.to_string();
        if self.tables.has_node(id_text.as_str()) {
            return Err(StoreError::Sqlite("UNIQUE constraint failed: nodes.id".to_owned()));
        }
        let key_hash = token::hash(key.as_str());
        let hit = |row: &NodeRow| -> (b: bool)
            ensures
                b == (row@.key_hash == key_hash@),
            { text::same_text(row.key_hash.as_str(), key_hash.as_str()) };
        if table::holds_some(&self.tables.nodes, hit, Ghost(node_with_hash(key_hash@))) {
            return Err(StoreError::Sqlite("UNIQUE constraint failed: nodes.key_hash".to_owned()));
        }
        let row = NodeRow {
            id: id_text,
            name: name.to_owned(),
            key_hash,
            public_key: None,
            tunnel_ip: tunnel_ip.to_string(),
            last_handshake: None,
            created_at,
        };
        let mut tables = self.take();
        proof {
            text::lemma_views_push(tables.nodes@, row);
            addr::law_ipv4_round_trip(tunnel_ip);
            lemma_first_pushed(before.nodes, row@, node_with_id(row@.id));
            lemma_first_pushed(before.nodes, row@, node_with_hash(row@.key_hash));
        }
        tables.nodes.push(row);
        self.tables = tables;
        let node = Node {
            id,
            name: name.to_owned(),
            public_key: None,
            tunnel_ip,
            last_handshake: None,
            created_at: now,
        };
        Ok((node, key))
    }

    /// Create a node and mint the key its agent will authenticate with.
    pub fn create_node(
        &mut self,
        name: &str,
        subnet: Ipv4Net,
        gateway_ip: Ipv4Addr,
        now: Timestamp,
    ) -> (r: Result<(Node, String), StoreError>)
        ensures
            exists|id: Uuid, key: Seq<char>|
                (final(self)@, rows::outcome(r)) == #[trigger] node_created(
                    old(self)@,
                    name@,
                    subnet,
                    gateway_ip,
                    now,
                    id,
                    key,
                ) && (r is Ok <==> can_create_node(
                    old(self)@,
                    subnet,
                    gateway_ip,
                    now,
                    id,
                    key,
                )) && ids::is_v4(id) && token::is_token(key),
            r matches Ok(made) ==> {
                &&& got_node(final(self)@, made.0.id) == Ok::<NodeModel, StoreErrorModel>(made.0@)
                &&& authenticated(final(self)@, made.1@) == Ok::<NodeModel, StoreErrorModel>(
                    made.0@,
                )
            },
            final(self)@.valid(),
            old(self)@.linked() ==> final(self)@.linked(),
    {
        let id = Uuid::new_v4();
        let key = token::generate();
        self.create_node_with(name, subnet, gateway_ip, now, id, key)
    }

    /// Record the tunnel identity an agent just generated.
    ///
    /// Agents are stateless and make a fresh keypair every start, so this
    /// overwrites whatever was there. The node — and its address — persist.
    pub fn set_node_public_key(&mut self, id: Uuid, public_key: &str) -> (r: Result<
        (),
        StoreError,
    >)
        ensures
            final(self)@ == key_set(old(self)@, id, public_key@),
            rows::outcome(r) == touched(
                table::any(old(self)@.nodes, node_with_id(ids::uuid_text(id))),
            ),
            final(self)@.valid(),
            old(self)@.linked() ==> final(self)@.linked(),
    {
        proof {
            use_type_invariant(&*self);
            store_laws::law_set_key_keeps_the_schema(self@, id, public_key@);
        }
        let id = id.to_string();
        let found = self.tables.has_node(id.as_str());
        let ghost before = self@;
        let mut tables = self.take();
        let ghost change = keyed(id@, public_key@);
        let mut i: usize = 0;
        while i < tables.nodes.len()
            invariant
                i <= tables.nodes@.len() == before.nodes.len(),
                tables@ == (StoreModel { nodes: tables@.nodes, ..before }),
                change == keyed(id@, public_key@),
                forall|k: int| 0 <= k < i ==> #[trigger] tables@.nodes[k] == change(before.nodes[k]),
                forall|k: int|
                    i <= k < before.nodes.len() ==> #[trigger] tables@.nodes[k] == before.nodes[k],
            decreases tables.nodes@.len() - i,
        {
            let ghost held = tables.nodes@;
            proof {
                assert(tables@.nodes[i as int] == held[i as int]@);
            }
            if text::same_text(tables.nodes[i].id.as_str(), id.as_str()) {
                tables.nodes[i].public_key = Some(public_key.to_owned());
                proof {
                    assert(tables.nodes@ =~= held.update(i as int, tables.nodes@[i as int]));
                    text::lemma_views_update(held, i as int, tables.nodes@[i as int]);
                }
            }
            i += 1;
        }
        proof {
            assert(tables@.nodes =~= before.nodes.map_values(change));
        }
        self.tables = tables;
        if found {
            Ok(())
        } else {
            Err(StoreError::NotFound)
        }
    }

    pub fn record_handshake(&mut self, id: Uuid, at: Timestamp) -> (r: Result<(), StoreError>)
        ensures
            (final(self)@, rows::outcome(r)) == handshake_recorded(old(self)@, id, at),
            r is Ok <==> at.writable(),
            r is Ok ==> (got_node(old(self)@, id) matches Ok(node) ==> got_node(final(self)@, id)
                == Ok::<NodeModel, StoreErrorModel>(
                NodeModel { last_handshake: Some(at), ..node },
            )),
            final(self)@.valid(),
            old(self)@.linked() ==> final(self)@.linked(),
    {
        proof {
            use_type_invariant(&*self);
            store_laws::law_record_handshake_keeps_the_schema(self@, id, at);
        }
        let at = match rows::fmt_time(at) {
            Ok(s) => s,
            Err(e) => {
                return Err(e);
            },
        };
        let id = id.to_string();
        let ghost before = self@;
        let mut tables = self.take();
        let ghost change = heard(id@, at@);
        let mut i: usize = 0;
        while i < tables.nodes.len()
            invariant
                i <= tables.nodes@.len() == before.nodes.len(),
                tables@ == (StoreModel { nodes: tables@.nodes, ..before }),
                change == heard(id@, at@),
                forall|k: int| 0 <= k < i ==> #[trigger] tables@.nodes[k] == change(before.nodes[k]),
                forall|k: int|
                    i <= k < before.nodes.len() ==> #[trigger] tables@.nodes[k] == before.nodes[k],
            decreases tables.nodes@.len() - i,
        {
            let ghost held = tables.nodes@;
            proof {
                assert(tables@.nodes[i as int] == held[i as int]@);
            }
            if text::same_text(tables.nodes[i].id.as_str(), id.as_str()) {
                tables.nodes[i].last_handshake = Some(at.clone());
                proof {
                    assert(tables.nodes@ =~= held.update(i as int, tables.nodes@[i as int]));
                    text::lemma_views_update(held, i as int, tables.nodes@[i as int]);
                }
            }
            i += 1;
        }
        proof {
            assert(tables@.nodes =~= before.nodes.map_values(change));
        }
        self.tables = tables;
        proof {
            store_laws::lemma_first_mapped(before.nodes, node_with_id(id@), change);
            table::lemma_first(before.nodes, node_with_id(id@));
        }
        Ok(())
    }

    /// Deletes a node, its services and their mappings.
    pub fn delete_node(&mut self, id: Uuid) -> (r: Result<(), StoreError>)
        ensures
            final(self)@ == node_deleted(old(self)@, id),
            rows::outcome(r) == touched(
                table::any(old(self)@.nodes, node_with_id(ids::uuid_text(id))),
            ),
            final(self)@.valid(),
            old(self)@.linked() ==> final(self)@.linked(),
    {
        proof {
            use_type_invariant(&*self);
            store_laws::law_delete_node_keeps_the_schema(self@, id);
        }
        let id = id.to_string();
        if !self.tables.has_node(id.as_str()) {
            return Err(StoreError::NotFound);
        }
        let mut tables = self.take();
        let services: &Vec<ServiceRow> = &tables.services;
        let keep_port = |row: &PortRow| -> (b: bool)
            ensures
                b == not_behind_node(text::views(services@), id@)(row@),
            {
                let hit = |service: &ServiceRow| -> (b: bool)
                    ensures
                        b == on_node(row@.service_id, id@)(service@),
                    {
                        text::same_text(service.id.as_str(), row.service_id.as_str())
                            && text::same_text(service.node_id.as_str(), id.as_str())
                    };
                !table::holds_some(services, hit, Ghost(on_node(row@.service_id, id@)))
            };
        table::retain(
            &mut tables.ports,
            keep_port,
            Ghost(not_behind_node(text::views(services@), id@)),
        );
        let keep_service = |row: &ServiceRow| -> (b: bool)
            ensures
                b == not_on_node(id@)(row@),
            { !text::same_text(row.node_id.as_str(), id.as_str()) };
        table::retain(&mut tables.services, keep_service, Ghost(not_on_node(id@)));
        let keep_node = |row: &NodeRow| -> (b: bool)
            ensures
                b == not_node(id@)(row@),
            { !text::same_text(row.id.as_str(), id.as_str()) };
        table::retain(&mut tables.nodes, keep_node, Ghost(not_node(id@)));
        self.tables = tables;
        Ok(())
    }

    pub fn insert_service(&mut self, service: &Service) -> (r: Result<(), StoreError>)
        ensures
            (final(self)@, rows::outcome(r)) == service_inserted(old(self)@, service@),
            r is Ok <==> can_insert_service(old(self)@, service@),
            r is Ok ==> got_service(final(self)@, service.id) == Ok::<
                ServiceModel,
                StoreErrorModel,
            >(service@) && dns_synced(final(self)@, service.id) == Ok::<bool, StoreErrorModel>(
                false,
            ),
            final(self)@.valid(),
            old(self)@.linked() ==> final(self)@.linked(),
    {
        proof {
            use_type_invariant(&*self);
            store_laws::law_insert_service_keeps_the_schema(self@, service@);
        }
        let created_at = match rows::fmt_time(service.created_at) {
            Ok(s) => s,
            Err(e) => {
                return Err(e);
            },
        };
        let enabled: i64 = if service.enabled {
            1
        } else {
            0
        };
        let row = ServiceRow {
            id: service.id.to_string(),
            node_id: service.node_id.to_string(),
            name: service.name.clone(),
            subdomain: service.subdomain.clone(),
            enabled,
            dns_synced: 0,
            created_at,
        };
        if !has_room(&self.tables.services, &row) || !self.tables.has_node(row.node_id.as_str()) {
            return Err(StoreError::Conflict("that subdomain".to_owned()));
        }
        proof {
            let p = service_with_id(row@.id);
            assert(!table::any(self@.services, p)) by {
                assert forall|i: int| 0 <= i < self@.services.len() implies !p(
                    #[trigger] self@.services[i],
                ) by {
                    assert(!ServiceRow::clash(self@.services[i], row@));
                }
            }
            lemma_first_pushed(self@.services, row@, p);
        }
        let mut tables = self.take();
        proof {
            text::lemma_views_push(tables.services@, row);
        }
        tables.services.push(row);
        self.tables = tables;
        Ok(())
    }

    pub fn set_service_enabled(&mut self, id: Uuid, enabled: bool) -> (r: Result<(), StoreError>)
        ensures
            final(self)@ == service_switched(old(self)@, id, enabled),
            rows::outcome(r) == touched(
                table::any(old(self)@.services, service_with_id(ids::uuid_text(id))),
            ),
            final(self)@.valid(),
            old(self)@.linked() ==> final(self)@.linked(),
    {
        proof {
            use_type_invariant(&*self);
            store_laws::law_switch_keeps_the_schema(self@, id, enabled);
        }
        let id = id.to_string();
        let value: i64 = if enabled {
            1
        } else {
            0
        };
        let found = self.tables.has_service(id.as_str());
        let ghost before = self@;
        let mut tables = self.take();
        let ghost change = switched(id@, value);
        let mut i: usize = 0;
        while i < tables.services.len()
            invariant
                i <= tables.services@.len() == before.services.len(),
                tables@ == (StoreModel { services: tables@.services, ..before }),
                change == switched(id@, value),
                forall|k: int| 0 <= k < i ==> #[trigger] tables@.services[k] == change(before.services[k]),
                forall|k: int|
                    i <= k < before.services.len() ==> #[trigger] tables@.services[k] == before.services[k],
            decreases tables.services@.len() - i,
        {
            let ghost held = tables.services@;
            proof {
                assert(tables@.services[i as int] == held[i as int]@);
            }
            if text::same_text(tables.services[i].id.as_str(), id.as_str()) {
                tables.services[i].enabled = value;
                proof {
                    assert(tables.services@ =~= held.update(i as int, tables.services@[i as int]));
                    text::lemma_views_update(held, i as int, tables.services@[i as int]);
                }
            }
            i += 1;
        }
        proof {
            assert(tables@.services =~= before.services.map_values(change));
        }
        self.tables = tables;
        if found {
            Ok(())
        } else {
            Err(StoreError::NotFound)
        }
    }

    pub fn set_dns_synced(&mut self, id: Uuid, synced: bool) -> (r: Result<(), StoreError>)
        ensures
            final(self)@ == service_marked(old(self)@, id, synced),
            r is Ok,
            final(self)@.valid(),
            old(self)@.linked() ==> final(self)@.linked(),
    {
        proof {
            use_type_invariant(&*self);
            store_laws::law_mark_keeps_the_schema(self@, id, synced);
        }
        let id = id.to_string();
        let value: i64 = if synced {
            1
        } else {
            0
        };
        let ghost before = self@;
        let mut tables = self.take();
        let ghost change = marked(id@, value);
        let mut i: usize = 0;
        while i < tables.services.len()
            invariant
                i <= tables.services@.len() == before.services.len(),
                tables@ == (StoreModel { services: tables@.services, ..before }),
                change == marked(id@, value),
                forall|k: int| 0 <= k < i ==> #[trigger] tables@.services[k] == change(before.services[k]),
                forall|k: int|
                    i <= k < before.services.len() ==> #[trigger] tables@.services[k] == before.services[k],
            decreases tables.services@.len() - i,
        {
            let ghost held = tables.services@;
            proof {
                assert(tables@.services[i as int] == held[i as int]@);
            }
            if text::same_text(tables.services[i].id.as_str(), id.as_str()) {
                tables.services[i].dns_synced = value;
                proof {
                    assert(tables.services@ =~= held.update(i as int, tables.services@[i as int]));
                    text::lemma_views_update(held, i as int, tables.services@[i as int]);
                }
            }
            i += 1;
        }
        proof {
            assert(tables@.services =~= before.services.map_values(change));
        }
        self.tables = tables;
        Ok(())
    }

    /// Deletes a service and its mappings.
    pub fn delete_service(&mut self, id: Uuid) -> (r: Result<(), StoreError>)
        ensures
            final(self)@ == service_deleted(old(self)@, id),
            rows::outcome(r) == touched(
                table::any(old(self)@.services, service_with_id(ids::uuid_text(id))),
            ),
            final(self)@.valid(),
            old(self)@.linked() ==> final(self)@.linked(),
    {
        proof {
            use_type_invariant(&*self);
            store_laws::law_delete_service_keeps_the_schema(self@, id);
        }
        let id = id.to_string();
        if !self.tables.has_service(id.as_str()) {
            return Err(StoreError::NotFound);
        }
        let keep_port = |row: &PortRow| -> (b: bool)
            ensures
                b == not_of_service(id@)(row@),
            { !text::same_text(row.service_id.as_str(), id.as_str()) };
        let mut tables = self.take();
        table::retain(&mut tables.ports, keep_port, Ghost(not_of_service(id@)));
        let keep_service = |row: &ServiceRow| -> (b: bool)
            ensures
                b == not_service(id@)(row@),
            { !text::same_text(row.id.as_str(), id.as_str()) };
        table::retain(&mut tables.services, keep_service, Ghost(not_service(id@)));
        self.tables = tables;
        Ok(())
    }

    pub fn add_port(&mut self, mapping: &PortMapping) -> (r: Result<(), StoreError>)
        ensures
            (final(self)@, rows::outcome(r)) == port_added(old(self)@, mapping@),
            r is Ok ==> (ports_of(final(self)@, mapping.service_id) matches Ok(listed)
                ==> listed.contains(mapping@)),
            r is Ok ==> (ports_of(old(self)@, mapping.service_id) matches Ok(before) ==> (ports_of(
                final(self)@,
                mapping.service_id,
            ) matches Ok(listed) && listed.to_multiset() == before.to_multiset().insert(
                mapping@,
            ))),
            final(self)@.valid(),
            old(self)@.linked() ==> final(self)@.linked(),
    {
        proof {
            use_type_invariant(&*self);
            store_laws::law_add_port_keeps_the_schema(self@, mapping@);
        }
        let (srv_service, srv_proto, srv_priority, srv_weight) = match &mapping.srv {
            Some(spec) => (
                Some(spec.service.clone()),
                Some(spec.proto.clone()),
                Some(spec.priority),
                Some(spec.weight),
            ),
            None => (None, None, None, None),
        };
        let row = PortRow {
            id: mapping.id.to_string(),
            service_id: mapping.service_id.to_string(),
            protocol: mapping.protocol.to_string(),
            local_host: mapping.local_host.clone(),
            local_port: mapping.local_port,
            edge_port: mapping.edge_port,
            srv_service,
            srv_proto,
            srv_priority,
            srv_weight,
        };
        if !has_room(&self.tables.ports, &row) || !self.tables.has_service(row.service_id.as_str()) {
            return Err(StoreError::Conflict("that public port".to_owned()));
        }
        proof {
            model::law_protocol_round_trip(mapping.protocol);
        }
        let mut tables = self.take();
        proof {
            text::lemma_views_push(tables.ports@, row);
        }
        let ghost before = tables@.ports;
        tables.ports.push(row);
        self.tables = tables;
        proof {
            assert(mapping_reader()(row@) == Ok::<PortMappingModel, StoreErrorModel>(
                mapping@,
            ));
            store_laws::lemma_listed(
                self@.ports,
                port_of_service(ids::uuid_text(mapping.service_id)),
                table::le_of::<PortRow>(),
                mapping_reader(),
                self@.ports.len() - 1,
            );
            if ports_of(old(self)@, mapping.service_id) is Ok {
                table::lemma_listing_gains(
                    before,
                    port_of_service(ids::uuid_text(mapping.service_id)),
                    table::le_of::<PortRow>(),
                    mapping_reader(),
                    row@,
                );
            }
        }
        Ok(())
    }

    /// Deletes a mapping and names its service.
    pub fn delete_port(&mut self, id: Uuid) -> (r: Result<Uuid, StoreError>)
        ensures
            (final(self)@, rows::outcome(r)) == port_deleted(old(self)@, id),
            final(self)@.valid(),
            old(self)@.linked() ==> final(self)@.linked(),
    {
        proof {
            use_type_invariant(&*self);
            store_laws::law_delete_port_keeps_the_schema(self@, id);
        }
        let id = id.to_string();
        let hit = |row: &PortRow| -> (b: bool)
            ensures
                b == (row@.id == id@),
            { text::same_text(row.id.as_str(), id.as_str()) };
        let service_id = match table::find(&self.tables.ports, hit, Ghost(port_with_id(id@))) {
            Some(i) => self.tables.ports[i].service_id.clone(),
            None => {
                return Err(StoreError::NotFound);
            },
        };
        let keep = |row: &PortRow| -> (b: bool)
            ensures
                b == not_port(id@)(row@),
            { !text::same_text(row.id.as_str(), id.as_str()) };
        let mut tables = self.take();
        table::retain(&mut tables.ports, keep, Ghost(not_port(id@)));
        self.tables = tables;
        rows::parse_id(service_id.as_str(), "service id")
    }
}

/// A row that alone meets `p` is found once it is added.
proof fn lemma_first_pushed<V>(s: Seq<V>, x: V, p: spec_fn(V) -> bool)
    requires
        !table::any(s, p),
        p(x),
    ensures
        table::first(s.push(x), p) == Some(x),
{
    table::lemma_first(s, p);
    assert(s.push(x).drop_last() =~= s);
}

} // verus!
