//! HTTP API: what each request does and what it is answered.
//!
//! Two audiences with different credentials: a person holding the admin token,
//! and agents holding their node key. An agent can register its tunnel
//! identity and read its own forwards, and nothing else — if a home machine is
//! compromised, what leaks is the port list that machine was already serving.
//!
//! A request that changes something is answered in two steps. The change is
//! decided and made here; the program then brings the kernel and DNS in line,
//! and asks here again for what the caller is shown.

use crate::allocator::{EdgePortRange, PortAllocator};
use crate::api::{
    AddPortRequest, AddPortRequestModel, AgentAssignment, AgentAssignmentModel,
    CreateNodeRequest, CreateNodeResponse, CreateNodeResponseModel, CreateServiceRequest, Forward,
    ForwardModel, RegisterRequest, RegisterResponse, RegisterResponseModel, ServiceView,
    ServiceViewModel, TunnelConfig, TunnelConfigModel,
};
use crate::clock::Timestamp;
use crate::config;
use crate::config::Config;
use crate::dns;
use crate::dns::{DnsPlan, DnsRecord, ExistingRecord};
use crate::ids::Uuid;
use crate::model;
use crate::model::{Node, NodeModel, PortMapping, PortMappingModel, Protocol, Service, ServiceModel};
use crate::net;
use crate::nft;
use crate::number;
use crate::plan;
use crate::plan::{PlanError, PlanErrorModel, ServiceDescription, ServiceDescriptionModel};
use crate::rows::ServiceRowModel;
use crate::store;
use crate::store::{Store, StoreError, StoreErrorModel, StoreModel};
use crate::store_laws;
use crate::table;
use crate::text;
use crate::token;
use crate::wg;
use crate::wg::PublicKey;
use crate::wgctl;
use crate::wgctl::{InterfaceConfig, InterfaceConfigModel, PeerStatus, PeerStatusModel};
use vstd::arithmetic::power;
use vstd::prelude::*;
use vstd::utf8;

verus! {

// ---- errors -------------------------------------------------------------

/// An API error that has already decided what the caller should be told.
///
/// Auth failures are deliberately vague: "unauthorized" whether the token was
/// missing, malformed or simply wrong, so the endpoint cannot be used to
/// confirm that a guessed token exists.
#[derive(Debug, Clone)]
pub struct ApiErr {
    pub status: u16,
    pub message: String,
}

/// What an [`ApiErr`] says.
pub struct ApiErrModel {
    pub status: u16,
    pub message: Seq<char>,
}

impl View for ApiErr {
    type V = ApiErrModel;

    open spec fn view(&self) -> ApiErrModel {
        ApiErrModel { status: self.status, message: self.message@ }
    }
}

/// What came of a request, by its view.
pub open spec fn answer<T: View>(r: Result<T, ApiErr>) -> Result<T::V, ApiErrModel> {
    match r {
        Ok(x) => Ok(x@),
        Err(e) => Err(e@),
    }
}

/// What came of a request for several things, each by its view.
pub open spec fn answers<T: View>(r: Result<Vec<T>, ApiErr>) -> Result<Seq<T::V>, ApiErrModel> {
    match r {
        Ok(v) => Ok(text::views(v@)),
        Err(e) => Err(e@),
    }
}

/// What every failed authentication is told.
pub open spec fn unauthorized() -> ApiErrModel {
    ApiErrModel { status: 401, message: "unauthorized"@ }
}

/// What a caller is told of a database error. What is not theirs to fix is
/// not described.
pub open spec fn store_err(e: StoreErrorModel) -> ApiErrModel {
    match e {
        StoreErrorModel::NotFound => ApiErrModel { status: 404, message: "not found"@ },
        StoreErrorModel::Conflict(_) | StoreErrorModel::SubnetExhausted => ApiErrModel {
            status: 409,
            message: store::store_error_text(e),
        },
        _ => ApiErrModel { status: 500, message: "internal error"@ },
    }
}

/// What a caller is told of a request that cannot be planned. These are the
/// operator's to fix — a bad subdomain, a taken port — so they are reported
/// verbatim rather than hidden.
pub open spec fn plan_err(e: PlanErrorModel) -> ApiErrModel {
    ApiErrModel { status: 400, message: plan::plan_error_text(e) }
}

/// What came of a database query, as a caller is told.
pub open spec fn told<T>(r: Result<T, StoreErrorModel>) -> Result<T, ApiErrModel> {
    match r {
        Ok(x) => Ok(x),
        Err(e) => Err(store_err(e)),
    }
}

impl ApiErr {
    pub fn new(status: u16, message: &str) -> (r: ApiErr)
        ensures
            r@ == (ApiErrModel { status, message: message@ }),
    {
        ApiErr { status, message: message.to_owned() }
    }

    pub fn unauthorized() -> (r: ApiErr)
        ensures
            r@ == unauthorized(),
    {
        ApiErr::new(401, "unauthorized")
    }

    /// What a caller is told of a database error.
    pub fn from_store(e: &StoreError) -> (r: ApiErr)
        ensures
            r@ == store_err(e@),
    {
        match e {
            StoreError::NotFound => ApiErr::new(404, "not found"),
            StoreError::Conflict(_) => ApiErr { status: 409, message: e.to_string() },
            StoreError::SubnetExhausted => ApiErr { status: 409, message: e.to_string() },
            _ => ApiErr::new(500, "internal error"),
        }
    }

    /// What a caller is told of a request that cannot be planned.
    pub fn from_plan(e: &PlanError) -> (r: ApiErr)
        ensures
            r@ == plan_err(e@),
    {
        ApiErr { status: 400, message: e.to_string() }
    }
}

// ---- authentication -----------------------------------------------------

/// The token in an `Authorization` header.
pub open spec fn bearer_of(header: Option<Seq<char>>) -> Option<Seq<char>> {
    match header {
        Some(h) => if "Bearer "@.is_prefix_of(h) {
            Some(text::trim(h.skip("Bearer "@.len() as int)))
        } else {
            None
        },
        None => None,
    }
}

/// The token in an `Authorization` header, where there is one that is text.
pub fn bearer(header: Option<&str>) -> (r: Option<String>)
    ensures
        text::opt_view(r) == bearer_of(config::opt_str(header)),
{
    match header {
        Some(h) => {
            let chars = text::chars_of(h);
            let prefix = text::chars_of("Bearer ");
            if text::starts_with(chars.as_slice(), prefix.as_slice()) {
                let rest = text::substring(chars.as_slice(), prefix.len(), chars.len());
                proof {
                    assert(rest@ =~= h@.skip("Bearer "@.len() as int));
                }
                Some(text::trimmed(rest.as_str()))
            } else {
                None
            }
        },
        None => None,
    }
}

/// Proof that the caller holds the admin token.
#[derive(Debug, Clone, Copy)]
pub struct AdminAuth;

/// Whether a header carries the admin token.
pub open spec fn is_admin(header: Option<Seq<char>>, admin_token: Seq<char>) -> bool {
    bearer_of(header) matches Some(presented) && token::accepts(
        presented,
        token::token_hash(admin_token),
    )
}

/// Lets the holder of the admin token in.
pub fn authorize_admin(header: Option<&str>, admin_token: &str) -> (r: Result<AdminAuth, ApiErr>)
    ensures
        match r {
            Ok(_) => is_admin(config::opt_str(header), admin_token@),
            Err(e) => !is_admin(config::opt_str(header), admin_token@) && e@ == unauthorized(),
        },
{
    match bearer(header) {
        Some(presented) => {
            let stored = token::hash(admin_token);
            if token::verify(presented.as_str(), stored.as_str()) {
                Ok(AdminAuth)
            } else {
                Err(ApiErr::unauthorized())
            }
        },
        None => Err(ApiErr::unauthorized()),
    }
}

/// Proof that the caller is a specific node's agent.
#[derive(Debug)]
pub struct NodeAuth(pub Node);

/// The node whose key a header carries.
pub open spec fn node_in(s: StoreModel, header: Option<Seq<char>>) -> Result<
    NodeModel,
    ApiErrModel,
> {
    match bearer_of(header) {
        None => Err(unauthorized()),
        Some(presented) => match store::authenticated(s, presented) {
            Ok(node) => Ok(node),
            Err(e) => if e == StoreErrorModel::NotFound {
                Err(unauthorized())
            } else {
                Err(store_err(e))
            },
        },
    }
}

/// Lets a node's agent in.
pub fn authorize_node(store: &Store, header: Option<&str>) -> (r: Result<NodeAuth, ApiErr>)
    ensures
        match r {
            Ok(auth) => node_in(store@, config::opt_str(header)) == Ok::<NodeModel, ApiErrModel>(
                auth.0@,
            ),
            Err(e) => node_in(store@, config::opt_str(header)) == Err::<NodeModel, ApiErrModel>(
                e@,
            ),
        },
{
    match bearer(header) {
        Some(presented) => match store.authenticate_node(presented.as_str()) {
            Ok(node) => Ok(NodeAuth(node)),
            Err(e) => match e {
                StoreError::NotFound => Err(ApiErr::unauthorized()),
                other => Err(ApiErr::from_store(&other)),
            },
        },
        None => Err(ApiErr::unauthorized()),
    }
}

/// The holder of the admin token is let in.
pub proof fn law_admin_token_is_accepted(admin_token: Seq<char>)
    requires
        text::trim(admin_token) == admin_token,
    ensures
        is_admin(Some("Bearer "@ + admin_token), admin_token),
{
    let h = "Bearer "@ + admin_token;
    assert(h.skip("Bearer "@.len() as int) =~= admin_token);
    assert("Bearer "@.is_prefix_of(h)) by {
        assert(h.take("Bearer "@.len() as int) =~= "Bearer "@);
    }
}

// ---- status -------------------------------------------------------------

#[derive(Debug, Clone)]
pub struct Status {
    pub zone: String,
    pub public_ip: String,
    pub edge_port_range: String,
    pub cloudflare_enabled: bool,
    pub nftables_enabled: bool,
}

/// What a [`Status`] says.
pub struct StatusModel {
    pub zone: Seq<char>,
    pub public_ip: Seq<char>,
    pub edge_port_range: Seq<char>,
    pub cloudflare_enabled: bool,
    pub nftables_enabled: bool,
}

impl View for Status {
    type V = StatusModel;

    open spec fn view(&self) -> StatusModel {
        StatusModel {
            zone: self.zone@,
            public_ip: self.public_ip@,
            edge_port_range: self.edge_port_range@,
            cloudflare_enabled: self.cloudflare_enabled,
            nftables_enabled: self.nftables_enabled,
        }
    }
}

/// Whether a config's port range can be used.
pub open spec fn range_ok(config: Config) -> bool {
    1024 <= config.gateway.edge_port_range_start <= config.gateway.edge_port_range_end
}

/// The range that a config names.
pub open spec fn port_range(config: Config) -> EdgePortRange {
    EdgePortRange::between(
        config.gateway.edge_port_range_start,
        config.gateway.edge_port_range_end,
    )
}

/// What a caller is told of a port range that cannot be used.
pub open spec fn range_err(config: Config) -> ApiErrModel {
    ApiErrModel {
        status: 500,
        message: config::config_error_text(
            config::ConfigErrorModel::Range(
                crate::allocator::AllocError::InvalidRange(
                    config.gateway.edge_port_range_start,
                    config.gateway.edge_port_range_end,
                ),
            ),
        ),
    }
}

/// How the gateway is set up.
pub open spec fn status_of(config: Config, cloudflare_enabled: bool) -> StatusModel {
    StatusModel {
        zone: config.gateway.zone@,
        public_ip: crate::addr::ipv4_text(config.gateway.public_ip),
        edge_port_range: number::decimal(config.gateway.edge_port_range_start as nat) + "-"@
            + number::decimal(config.gateway.edge_port_range_end as nat),
        cloudflare_enabled,
        nftables_enabled: config.nftables.enabled,
    }
}

fn range_of(config: &Config) -> (r: Result<EdgePortRange, ApiErr>)
    ensures
        match r {
            Ok(range) => range_ok(*config) && range == port_range(*config) && range.first()
                == config.gateway.edge_port_range_start && range.last()
                == config.gateway.edge_port_range_end,
            Err(e) => !range_ok(*config) && e@ == range_err(*config),
        },
{
    match config.edge_port_range() {
        Ok(range) => Ok(range),
        Err(e) => Err(ApiErr { status: 500, message: e.to_string() }),
    }
}

pub fn status(config: &Config, cloudflare_enabled: bool) -> (r: Result<Status, ApiErr>)
    ensures
        answer(r) == (if range_ok(*config) {
            Ok(status_of(*config, cloudflare_enabled))
        } else {
            Err(range_err(*config))
        }),
{
    let range = match range_of(config) {
        Ok(range) => range,
        Err(e) => {
            return Err(e);
        },
    };
    let mut span = number::decimal_of(range.start() as u64);
    span.append("-");
    number::push_decimal(&mut span, range.end() as u64);
    Ok(
        Status {
            zone: config.gateway.zone.clone(),
            public_ip: config.gateway.public_ip.to_string(),
            edge_port_range: span,
            cloudflare_enabled,
            nftables_enabled: config.nftables.enabled,
        },
    )
}

// ---- nodes --------------------------------------------------------------

#[derive(Debug)]
pub struct NodeView {
    pub node: Node,
    pub online: bool,
    pub service_count: usize,
}

/// What a [`NodeView`] says.
pub struct NodeViewModel {
    pub node: NodeModel,
    pub online: bool,
    pub service_count: nat,
}

impl View for NodeView {
    type V = NodeViewModel;

    open spec fn view(&self) -> NodeViewModel {
        NodeViewModel {
            node: self.node@,
            online: self.online,
            service_count: self.service_count as nat,
        }
    }
}

/// A service that runs on a node.
pub open spec fn on(node_id: Uuid) -> spec_fn(ServiceModel) -> bool {
    |s: ServiceModel| s.node_id == node_id
}

/// A node as the UI shows it.
pub open spec fn node_view(node: NodeModel, services: Seq<ServiceModel>, now: Timestamp) -> NodeViewModel {
    NodeViewModel {
        node,
        online: model::online(node.last_handshake, now),
        service_count: services.filter(on(node.id)).len(),
    }
}

/// Every node as the UI shows it.
pub open spec fn node_views(s: StoreModel, now: Timestamp) -> Result<
    Seq<NodeViewModel>,
    ApiErrModel,
> {
    match (store::listed_services(s), store::listed_nodes(s)) {
        (Err(e), _) => Err(store_err(e)),
        (_, Err(e)) => Err(store_err(e)),
        (Ok(services), Ok(nodes)) => Ok(
            Seq::new(nodes.len(), |i: int| node_view(nodes[i], services, now)),
        ),
    }
}

pub fn list_nodes(store: &Store, now: Timestamp) -> (r: Result<Vec<NodeView>, ApiErr>)
    ensures
        answers(r) == node_views(store@, now),
{
    let services = match store.list_services() {
        Ok(services) => services,
        Err(e) => {
            return Err(ApiErr::from_store(&e));
        },
    };
    let nodes = match store.list_nodes() {
        Ok(nodes) => nodes,
        Err(e) => {
            return Err(ApiErr::from_store(&e));
        },
    };
    let ghost have = text::views(services@);
    let ghost all = text::views(nodes@);
    let mut out: Vec<NodeView> = Vec::new();
    let mut i: usize = 0;
    while i < nodes.len()
        invariant
            i <= nodes@.len(),
            have == text::views(services@),
            all == text::views(nodes@),
            out@.len() == i,
            forall|k: int| 0 <= k < i ==> (#[trigger] out@[k])@ == node_view(all[k], have, now),
        decreases nodes@.len() - i,
    {
        let node: &Node = &nodes[i];
        proof {
            assert(all[i as int] == node@);
        }
        let keep = |s: &Service| -> (b: bool)
            ensures
                b == on(node@.id)(s@),
            { s.node_id == node.id };
        let mine = table::chosen(&services, keep, Ghost(on(node@.id)));
        proof {
            assert(text::views(mine@).len() == mine@.len());
        }
        out.push(
            NodeView {
                online: node.is_online(now),
                service_count: mine.len(),
                node: node.clone(),
            },
        );
        i += 1;
    }
    proof {
        assert(text::views(out@) =~= node_views(store@, now)->Ok_0);
    }
    Ok(out)
}

/// The store after creating a node, and what the caller is told: the trimmed
/// name must not be empty, and the key is shown this once.
pub open spec fn node_created(
    s: StoreModel,
    config: Config,
    name: Seq<char>,
    now: Timestamp,
    id: Uuid,
    key: Seq<char>,
) -> (StoreModel, Result<CreateNodeResponseModel, ApiErrModel>) {
    if text::trim(name).len() == 0 {
        (s, Err(ApiErrModel { status: 400, message: "give the node a name"@ }))
    } else {
        let (after, r) = store::node_created(
            s,
            text::trim(name),
            config.tunnel.subnet,
            config.tunnel.gateway_ip,
            now,
            id,
            key,
        );
        (
            after,
            match r {
                Ok(made) => Ok(CreateNodeResponseModel { node: made.0, key: made.1 }),
                Err(e) => Err(store_err(e)),
            },
        )
    }
}

/// Whether a node can be created with this identifier and key: it is given a
/// name, and the store has room for it.
pub open spec fn can_create_node(
    s: StoreModel,
    config: Config,
    name: Seq<char>,
    now: Timestamp,
    id: Uuid,
    key: Seq<char>,
) -> bool {
    text::trim(name).len() > 0 && store::can_create_node(
        s,
        config.tunnel.subnet,
        config.tunnel.gateway_ip,
        now,
        id,
        key,
    )
}

/// Creates a node with this identifier and key.
pub fn create_node_with(
    store: &mut Store,
    config: &Config,
    req: &CreateNodeRequest,
    now: Timestamp,
    id: Uuid,
    key: String,
) -> (r: Result<CreateNodeResponse, ApiErr>)
    ensures
        (final(store)@, answer(r)) == node_created(old(store)@, *config, req.name@, now, id, key@),
        r is Ok <==> can_create_node(old(store)@, *config, req.name@, now, id, key@),
        final(store)@.valid(),
        old(store)@.linked() ==> final(store)@.linked(),
{
    proof {
        use_type_invariant(&*store);
    }
    let name = text::trimmed(req.name.as_str());
    let chars = text::chars_of(name.as_str());
    if chars.len() == 0 {
        return Err(ApiErr::new(400, "give the node a name"));
    }
    match store.create_node_with(
        name.as_str(),
        config.tunnel.subnet,
        config.tunnel.gateway_ip,
        now,
        id,
        key,
    ) {
        Ok((node, key)) => Ok(CreateNodeResponse { node, key }),
        Err(e) => Err(ApiErr::from_store(&e)),
    }
}

/// Creates a node and mints its key.
pub fn create_node(store: &mut Store, config: &Config, req: &CreateNodeRequest, now: Timestamp) -> (r:
    Result<CreateNodeResponse, ApiErr>)
    ensures
        exists|id: Uuid, key: Seq<char>|
            (final(store)@, answer(r)) == #[trigger] node_created(
                old(store)@,
                *config,
                req.name@,
                now,
                id,
                key,
            ) && (r is Ok <==> can_create_node(old(store)@, *config, req.name@, now, id, key))
                && crate::ids::is_v4(id) && token::is_token(key),
        final(store)@.valid(),
        old(store)@.linked() ==> final(store)@.linked(),
{
    let id = Uuid::new_v4();
    let key = token::generate();
    create_node_with(store, config, req, now, id, key)
}

/// Deletes a node, its services and their mappings.
pub fn delete_node(store: &mut Store, id: Uuid) -> (r: Result<(), ApiErr>)
    ensures
        final(store)@ == store::node_deleted(old(store)@, id),
        answer(r) == told(
            store::touched(
                table::any(old(store)@.nodes, store::node_with_id(crate::ids::uuid_text(id))),
            ),
        ),
        final(store)@.valid(),
        old(store)@.linked() ==> final(store)@.linked(),
{
    match store.delete_node(id) {
        Ok(()) => Ok(()),
        Err(e) => Err(ApiErr::from_store(&e)),
    }
}

// ---- services -----------------------------------------------------------

/// A node with an identifier.
pub open spec fn node_with(id: Uuid) -> spec_fn(NodeModel) -> bool {
    |n: NodeModel| n.id == id
}

/// A service as the UI shows it.
pub open spec fn shown(
    s: StoreModel,
    config: Config,
    service: ServiceModel,
    nodes: Seq<NodeModel>,
    now: Timestamp,
) -> Result<ServiceViewModel, ApiErrModel> {
    match store::ports_of(s, service.id) {
        Err(e) => Err(store_err(e)),
        Ok(mappings) => {
            let face = plan::described(
                service,
                mappings,
                config.gateway.zone@,
                config.gateway.public_ip,
            );
            let node = table::first(nodes, node_with(service.node_id));
            Ok(
                ServiceViewModel {
                    service,
                    fqdn: face.fqdn,
                    node_name: match node {
                        Some(n) => n.name,
                        None => Seq::empty(),
                    },
                    node_online: node matches Some(n) && model::online(n.last_handshake, now),
                    ports: face.ports,
                    dns_synced: store::dns_synced(s, service.id) == Ok::<bool, StoreErrorModel>(
                        true,
                    ),
                },
            )
        },
    }
}

/// A service as the UI shows it, with the nodes that are stored.
pub open spec fn shown_now(s: StoreModel, config: Config, service: ServiceModel, now: Timestamp) -> Result<
    ServiceViewModel,
    ApiErrModel,
> {
    match store::listed_nodes(s) {
        Err(e) => Err(store_err(e)),
        Ok(nodes) => shown(s, config, service, nodes, now),
    }
}

/// The first `n` services as the UI shows them.
pub open spec fn shown_all(
    s: StoreModel,
    config: Config,
    services: Seq<ServiceModel>,
    nodes: Seq<NodeModel>,
    now: Timestamp,
    n: nat,
) -> Result<Seq<ServiceViewModel>, ApiErrModel>
    decreases n,
{
    if n == 0 {
        Ok(Seq::empty())
    } else {
        match shown_all(s, config, services, nodes, now, (n - 1) as nat) {
            Err(e) => Err(e),
            Ok(before) => match shown(s, config, services[n - 1], nodes, now) {
                Err(e) => Err(e),
                Ok(view) => Ok(before.push(view)),
            },
        }
    }
}

proof fn lemma_shown_refusal(
    s: StoreModel,
    config: Config,
    services: Seq<ServiceModel>,
    nodes: Seq<NodeModel>,
    now: Timestamp,
    n: nat,
    m: nat,
)
    requires
        n <= m,
        shown_all(s, config, services, nodes, now, n) is Err,
    ensures
        shown_all(s, config, services, nodes, now, m) == shown_all(
            s,
            config,
            services,
            nodes,
            now,
            n,
        ),
    decreases m,
{
    if n < m {
        lemma_shown_refusal(s, config, services, nodes, now, n, (m - 1) as nat);
    }
}

/// A service as the UI shows it.
pub fn service_view(
    store: &Store,
    config: &Config,
    service: Service,
    nodes: &Vec<Node>,
    now: Timestamp,
) -> (r: Result<ServiceView, ApiErr>)
    ensures
        answer(r) == shown(store@, *config, service@, text::views(nodes@), now),
{
    let mappings = match store.ports_for_service(service.id) {
        Ok(mappings) => mappings,
        Err(e) => {
            return Err(ApiErr::from_store(&e));
        },
    };
    let face = plan::describe_service(
        &service,
        mappings.as_slice(),
        config.gateway.zone.as_str(),
        config.gateway.public_ip,
    );
    let hit = |n: &Node| -> (b: bool)
        ensures
            b == node_with(service@.node_id)(n@),
        { n.id == service.node_id };
    let (node_name, node_online) = match table::find(
        nodes,
        hit,
        Ghost(node_with(service@.node_id)),
    ) {
        Some(i) => (nodes[i].name.clone(), nodes[i].is_online(now)),
        None => (String::new(), false),
    };
    let dns_synced = match store.is_dns_synced(service.id) {
        Ok(synced) => synced,
        Err(_) => false,
    };
    Ok(
        ServiceView {
            fqdn: face.fqdn,
            node_name,
            node_online,
            ports: face.ports,
            dns_synced,
            service,
        },
    )
}

/// What a caller is shown of a service after a change.
pub fn show_service(store: &Store, config: &Config, service: Service, now: Timestamp) -> (r: Result<
    ServiceView,
    ApiErr,
>)
    ensures
        answer(r) == shown_now(store@, *config, service@, now),
{
    match store.list_nodes() {
        Ok(nodes) => service_view(store, config, service, &nodes, now),
        Err(e) => Err(ApiErr::from_store(&e)),
    }
}

pub fn list_services(store: &Store, config: &Config, now: Timestamp) -> (r: Result<
    Vec<ServiceView>,
    ApiErr,
>)
    ensures
        answers(r) == match (store::listed_nodes(store@), store::listed_services(store@)) {
            (Err(e), _) => Err(store_err(e)),
            (_, Err(e)) => Err(store_err(e)),
            (Ok(nodes), Ok(services)) => shown_all(
                store@,
                *config,
                services,
                nodes,
                now,
                services.len(),
            ),
        },
{
    let nodes = match store.list_nodes() {
        Ok(nodes) => nodes,
        Err(e) => {
            return Err(ApiErr::from_store(&e));
        },
    };
    let services = match store.list_services() {
        Ok(services) => services,
        Err(e) => {
            return Err(ApiErr::from_store(&e));
        },
    };
    let ghost all = text::views(services@);
    let ghost have = text::views(nodes@);
    let mut out: Vec<ServiceView> = Vec::new();
    let mut i: usize = 0;
    proof {
        assert(text::views(out@) =~= Seq::<ServiceViewModel>::empty());
    }
    while i < services.len()
        invariant
            i <= services@.len(),
            all == text::views(services@),
            have == text::views(nodes@),
            store::listed_nodes(store@) == Ok::<Seq<NodeModel>, StoreErrorModel>(have),
            store::listed_services(store@) == Ok::<Seq<ServiceModel>, StoreErrorModel>(all),
            shown_all(store@, *config, all, have, now, i as nat) == Ok::<
                Seq<ServiceViewModel>,
                ApiErrModel,
            >(text::views(out@)),
        decreases services@.len() - i,
    {
        proof {
            assert(all[i as int] == services@[i as int]@);
        }
        match service_view(store, config, services[i].clone(), &nodes, now) {
            Ok(view) => {
                proof {
                    text::lemma_views_push(out@, view);
                }
                out.push(view);
            },
            Err(e) => {
                proof {
                    lemma_shown_refusal(
                        store@,
                        *config,
                        all,
                        have,
                        now,
                        (i + 1) as nat,
                        all.len(),
                    );
                }
                return Err(e);
            },
        }
        i += 1;
    }
    Ok(out)
}

/// What a service is called: the name given, or its subdomain where none was.
pub open spec fn service_name(name: Seq<char>, subdomain: Seq<char>) -> Seq<char> {
    if text::trim(name).len() == 0 {
        subdomain
    } else {
        text::trim(name)
    }
}

/// The service that a request makes, once its subdomain is decided.
pub open spec fn service_for(
    req: CreateServiceRequest,
    now: Timestamp,
    id: Uuid,
    subdomain: Seq<char>,
) -> ServiceModel {
    ServiceModel {
        id,
        node_id: req.node_id,
        name: service_name(req.name@, subdomain),
        subdomain,
        enabled: true,
        created_at: now,
    }
}

/// Whether a subdomain can be claimed on a node: the node can be read, the
/// subdomain is one, and the store has room for the service.
pub open spec fn can_create_service(
    s: StoreModel,
    req: CreateServiceRequest,
    now: Timestamp,
    id: Uuid,
) -> bool {
    &&& store::got_node(s, req.node_id) is Ok
    &&& plan::subdomain_of(req.subdomain@) matches Some(subdomain) && store::can_insert_service(
        s,
        service_for(req, now, id, subdomain),
    )
}

/// The tables and the answer after claiming a subdomain on a node.
pub open spec fn service_created(
    s: StoreModel,
    req: CreateServiceRequest,
    now: Timestamp,
    id: Uuid,
) -> (StoreModel, Result<ServiceModel, ApiErrModel>) {
    match store::got_node(s, req.node_id) {
        Err(e) => (s, Err(store_err(e))),
        Ok(_) => match plan::subdomain_of(req.subdomain@) {
            None => (s, Err(plan_err(PlanErrorModel::InvalidSubdomain(req.subdomain@)))),
            Some(subdomain) => {
                let service = service_for(req, now, id, subdomain);
                let (after, r) = store::service_inserted(s, service);
                (
                    after,
                    match r {
                        Ok(()) => Ok(service),
                        Err(e) => Err(store_err(e)),
                    },
                )
            },
        },
    }
}

/// Step one of adding a server: claim a subdomain on a node, with this
/// identifier.
///
/// Deliberately does nothing else. Ports are a separate step, because the
/// question "which machine is this?" and the question "which ports does it
/// listen on?" are answered at different times by different people.
pub fn create_service_with(
    store: &mut Store,
    req: &CreateServiceRequest,
    now: Timestamp,
    id: Uuid,
) -> (r: Result<Service, ApiErr>)
    ensures
        (final(store)@, answer(r)) == service_created(old(store)@, *req, now, id),
        r is Ok <==> can_create_service(old(store)@, *req, now, id),
        final(store)@.valid(),
        old(store)@.linked() ==> final(store)@.linked(),
{
    if let Err(e) = store.get_node(req.node_id) {
        return Err(ApiErr::from_store(&e));
    }
    let subdomain = match plan::normalize_subdomain(req.subdomain.as_str()) {
        Ok(subdomain) => subdomain,
        Err(e) => {
            return Err(ApiErr::from_plan(&e));
        },
    };
    let given = text::trimmed(req.name.as_str());
    let chars = text::chars_of(given.as_str());
    let name = if chars.len() == 0 {
        subdomain.clone()
    } else {
        given
    };
    let service = Service {
        id,
        node_id: req.node_id,
        name,
        subdomain,
        enabled: true,
        created_at: now,
    };
    match store.insert_service(&service) {
        Ok(()) => Ok(service),
        Err(e) => Err(ApiErr::from_store(&e)),
    }
}

/// Step one of adding a server: claim a subdomain on a node.
pub fn create_service(store: &mut Store, req: &CreateServiceRequest, now: Timestamp) -> (r: Result<
    Service,
    ApiErr,
>)
    ensures
        exists|id: Uuid|
            (final(store)@, answer(r)) == #[trigger] service_created(old(store)@, *req, now, id)
                && (r is Ok <==> can_create_service(old(store)@, *req, now, id))
                && crate::ids::is_v4(id),
        final(store)@.valid(),
        old(store)@.linked() ==> final(store)@.linked(),
{
    let id = Uuid::new_v4();
    create_service_with(store, req, now, id)
}

/// The ports that a new mapping has to keep clear of: those in use, and those
/// that are reserved.
pub open spec fn unavailable(taken: Seq<(Protocol, u16)>, config: Config) -> Set<(Protocol, u16)> {
    Set::new(|k: (Protocol, u16)| taken.contains(k) || config::reserved(config).contains(k))
}

/// The mapping that a request makes, once its host and public port are
/// decided.
pub open spec fn mapping_for(
    id: Uuid,
    service_id: Uuid,
    req: AddPortRequestModel,
    local_host: Seq<char>,
    edge_port: u16,
) -> PortMappingModel {
    PortMappingModel {
        id,
        service_id,
        protocol: req.protocol,
        local_host,
        local_port: req.local_port,
        edge_port,
        srv: if req.minecraft_srv {
            Some(model::minecraft_java_spec())
        } else {
            None
        },
    }
}

/// The tables and the answer after adding a mapping to a service: the service
/// as it was.
pub open spec fn port_created(
    s: StoreModel,
    config: Config,
    service_id: Uuid,
    req: AddPortRequestModel,
    id: Uuid,
) -> (StoreModel, Result<ServiceModel, ApiErrModel>) {
    match store::got_service(s, service_id) {
        Err(e) => (s, Err(store_err(e))),
        Ok(service) => match plan::local_host_of(req.local_host) {
            None => (s, Err(plan_err(PlanErrorModel::InvalidLocalHost(req.local_host)))),
            Some(local_host) => if !range_ok(config) {
                (s, Err(range_err(config)))
            } else {
                match store::taken_ports(s) {
                    Err(e) => (s, Err(store_err(e))),
                    Ok(taken) => match plan::edge_port_for(
                        unavailable(taken, config),
                        port_range(config),
                        req,
                    ) {
                        Err(e) => (s, Err(plan_err(e))),
                        Ok(edge_port) => {
                            let (after, r) = store::port_added(
                                s,
                                mapping_for(id, service_id, req, local_host, edge_port),
                            );
                            (
                                after,
                                match r {
                                    Ok(()) => Ok(service),
                                    Err(e) => Err(store_err(e)),
                                },
                            )
                        },
                    },
                }
            },
        },
    }
}

/// Step two: where the traffic actually goes, as a mapping with this
/// identifier.
pub fn add_port_with(
    store: &mut Store,
    config: &Config,
    service_id: Uuid,
    req: &AddPortRequest,
    id: Uuid,
) -> (r: Result<Service, ApiErr>)
    ensures
        (final(store)@, answer(r)) == port_created(old(store)@, *config, service_id, req@, id),
        final(store)@.valid(),
        old(store)@.linked() ==> final(store)@.linked(),
{
    let service = match store.get_service(service_id) {
        Ok(service) => service,
        Err(e) => {
            return Err(ApiErr::from_store(&e));
        },
    };
    let local_host = match plan::normalize_local_host(req.local_host.as_str()) {
        Ok(local_host) => local_host,
        Err(e) => {
            return Err(ApiErr::from_plan(&e));
        },
    };
    // Rebuilt from the database every time rather than kept in memory: the
    // stored mappings are the truth about what is taken, and rebuilding is a
    // single cheap query.
    let range = match range_of(config) {
        Ok(range) => range,
        Err(e) => {
            return Err(e);
        },
    };
    let mut taken = match store.taken_edge_ports() {
        Ok(taken) => taken,
        Err(e) => {
            return Err(ApiErr::from_store(&e));
        },
    };
    let ghost in_use = text::views(taken@);
    let reserved = config.reserved_ports();
    let mut i: usize = 0;
    proof {
        assert(in_use =~= taken@);
        assert(taken@ =~= in_use + reserved@.take(0));
    }
    while i < reserved.len()
        invariant
            i <= reserved@.len(),
            taken@ == in_use + reserved@.take(i as int),
        decreases reserved@.len() - i,
    {
        taken.push(reserved[i]);
        proof {
            assert(taken@ =~= in_use + reserved@.take(i + 1));
        }
        i += 1;
    }
    proof {
        assert(reserved@.take(i as int) =~= reserved@);
        lemma_joined_members(in_use, reserved@);
    }
    let mut allocator = PortAllocator::with_taken(range, taken);
    proof {
        assert(allocator@ =~= unavailable(in_use, *config));
    }
    let edge_port = match plan::allocate_edge_port(&mut allocator, req) {
        Ok(port) => port,
        Err(e) => {
            return Err(ApiErr::from_plan(&e));
        },
    };
    let mapping = PortMapping {
        id,
        service_id,
        protocol: req.protocol,
        local_host,
        local_port: req.local_port,
        edge_port,
        srv: plan::srv_for(req),
    };
    match store.add_port(&mapping) {
        Ok(()) => Ok(service),
        Err(e) => Err(ApiErr::from_store(&e)),
    }
}

proof fn lemma_joined_members(a: Seq<(Protocol, u16)>, b: Seq<(Protocol, u16)>)
    ensures
        forall|k: (Protocol, u16)| #[trigger] (a + b).contains(k) <==> a.contains(k) || b.contains(
            k,
        ),
{
    let all = a + b;
    assert forall|k: (Protocol, u16)| #[trigger] all.contains(k) <==> a.contains(k) || b.contains(
        k,
    ) by {
        if all.contains(k) {
            let i = choose|i: int| 0 <= i < all.len() && all[i] == k;
            if i < a.len() {
                assert(a[i] == k);
            } else {
                assert(b[i - a.len()] == k);
            }
        }
        if a.contains(k) {
            let i = choose|i: int| 0 <= i < a.len() && a[i] == k;
            assert(all[i] == k);
        }
        if b.contains(k) {
            let i = choose|i: int| 0 <= i < b.len() && b[i] == k;
            assert(all[a.len() + i] == k);
        }
    }
}

/// Step two: where the traffic actually goes.
pub fn add_port(store: &mut Store, config: &Config, service_id: Uuid, req: &AddPortRequest) -> (r:
    Result<Service, ApiErr>)
    ensures
        exists|id: Uuid|
            (final(store)@, answer(r)) == #[trigger] port_created(
                old(store)@,
                *config,
                service_id,
                req@,
                id,
            ) && crate::ids::is_v4(id),
        final(store)@.valid(),
        old(store)@.linked() ==> final(store)@.linked(),
{
    let id = Uuid::new_v4();
    add_port_with(store, config, service_id, req, id)
}

/// A public port that was allocated never conflicts with one that is stored:
/// once a request has its port, it is carried out.
pub proof fn law_allocated_port_never_conflicts(
    s: StoreModel,
    config: Config,
    service_id: Uuid,
    req: AddPortRequestModel,
    id: Uuid,
)
    requires
        !table::any(s.ports, store::port_with_id(crate::ids::uuid_text(id))),
    ensures
        (store::got_service(s, service_id) is Ok && plan::local_host_of(req.local_host) is Some
            && range_ok(config) && (store::taken_ports(s) matches Ok(taken)
            && plan::edge_port_for(unavailable(taken, config), port_range(config), req) is Ok))
            ==> port_created(s, config, service_id, req, id).1 is Ok,
{
    if let (Ok(_), Some(local_host), Ok(taken)) = (
        store::got_service(s, service_id),
        plan::local_host_of(req.local_host),
        store::taken_ports(s),
    ) {
        let before = unavailable(taken, config);
        let wish = plan::port_request(req);
        if let Ok(port) = plan::edge_port_for(before, port_range(config), req) {
            crate::allocator::law_granted_port_was_free(before, port_range(config), wish);
            assert(!before.contains((req.protocol, port)));
            table::lemma_first(
                s.services,
                store::service_with_id(crate::ids::uuid_text(service_id)),
            );
            crate::store_laws::law_free_port_is_accepted(
                s,
                mapping_for(id, service_id, req, local_host, port),
                taken,
            );
        }
    }
}

/// A port that is added to an enabled service is forwarded to the node that
/// the service runs on.
pub proof fn law_added_port_is_forwarded(
    s: StoreModel,
    config: Config,
    service_id: Uuid,
    req: AddPortRequestModel,
    id: Uuid,
    service: ServiceRowModel,
)
    requires
        table::first(s.services, store::service_with_id(crate::ids::uuid_text(service_id))) == Some(
            service,
        ),
        service.enabled == 1,
    ensures
        port_created(s, config, service_id, req, id).1 is Ok ==> {
            let after = port_created(s, config, service_id, req, id).0;
            &&& after.ports.len() == s.ports.len() + 1
            &&& store::forwarded_to(after, service.node_id)(after.ports.last())
            &&& after.ports.last().local_port == req.local_port
            &&& Some(after.ports.last().local_host) == plan::local_host_of(req.local_host)
        },
{
}

/// Deletes a mapping and names its service.
pub fn remove_port(store: &mut Store, id: Uuid) -> (r: Result<Uuid, ApiErr>)
    ensures
        final(store)@ == store::port_deleted(old(store)@, id).0,
        answer(r) == told(store::port_deleted(old(store)@, id).1),
        final(store)@.valid(),
        old(store)@.linked() ==> final(store)@.linked(),
{
    match store.delete_port(id) {
        Ok(service_id) => Ok(service_id),
        Err(e) => Err(ApiErr::from_store(&e)),
    }
}

/// Turns a service on or off.
pub fn set_service_enabled(store: &mut Store, id: Uuid, enabled: bool) -> (r: Result<(), ApiErr>)
    ensures
        final(store)@ == store::service_switched(old(store)@, id, enabled),
        answer(r) == told(
            store::touched(
                table::any(old(store)@.services, store::service_with_id(crate::ids::uuid_text(id))),
            ),
        ),
        final(store)@.valid(),
        old(store)@.linked() ==> final(store)@.linked(),
{
    match store.set_service_enabled(id, enabled) {
        Ok(()) => Ok(()),
        Err(e) => Err(ApiErr::from_store(&e)),
    }
}

/// What a caller is shown of a stored service.
pub fn show_stored_service(store: &Store, config: &Config, id: Uuid, now: Timestamp) -> (r: Result<
    ServiceView,
    ApiErr,
>)
    ensures
        answer(r) == match store::got_service(store@, id) {
            Ok(service) => shown_now(store@, *config, service, now),
            Err(e) => Err(store_err(e)),
        },
{
    match store.get_service(id) {
        Ok(service) => show_service(store, config, service, now),
        Err(e) => Err(ApiErr::from_store(&e)),
    }
}

/// A stored service's public face.
pub open spec fn face_of(s: StoreModel, config: Config, id: Uuid) -> Result<
    ServiceDescriptionModel,
    StoreErrorModel,
> {
    match (store::got_service(s, id), store::ports_of(s, id)) {
        (Err(e), _) => Err(e),
        (_, Err(e)) => Err(e),
        (Ok(service), Ok(mappings)) => Ok(
            plan::described(service, mappings, config.gateway.zone@, config.gateway.public_ip),
        ),
    }
}

/// A stored service's public face.
pub fn stored_face(store: &Store, config: &Config, id: Uuid) -> (r: Result<
    ServiceDescription,
    StoreError,
>)
    ensures
        crate::rows::outcome(r) == face_of(store@, *config, id),
{
    let service = match store.get_service(id) {
        Ok(service) => service,
        Err(e) => {
            return Err(e);
        },
    };
    let mappings = match store.ports_for_service(id) {
        Ok(mappings) => mappings,
        Err(e) => {
            return Err(e);
        },
    };
    Ok(
        plan::describe_service(
            &service,
            mappings.as_slice(),
            config.gateway.zone.as_str(),
            config.gateway.public_ip,
        ),
    )
}

/// Deletes a service and its mappings, and gives back the face it had: its
/// records are to be retracted too, because a name still resolving to the VPS
/// after the service is gone is a black hole players keep trying to connect
/// to.
pub fn delete_service(store: &mut Store, config: &Config, id: Uuid) -> (r: Result<
    ServiceDescription,
    ApiErr,
>)
    ensures
        answer(r) == told(face_of(old(store)@, *config, id)),
        final(store)@ == if r is Ok {
            store::service_deleted(old(store)@, id)
        } else {
            old(store)@
        },
        final(store)@.valid(),
        old(store)@.linked() ==> final(store)@.linked(),
{
    proof {
        use_type_invariant(&*store);
    }
    let face = match stored_face(store, config, id) {
        Ok(face) => face,
        Err(e) => {
            return Err(ApiErr::from_store(&e));
        },
    };
    proof {
        table::lemma_first(
            store@.services,
            store::service_with_id(crate::ids::uuid_text(id)),
        );
    }
    match store.delete_service(id) {
        Ok(()) => Ok(face),
        Err(e) => Err(ApiErr::from_store(&e)),
    }
}

// ---- agents -------------------------------------------------------------

/// The gateway's public key, given what became of reading its private one.
pub open spec fn gateway_key(private: Result<Seq<char>, Seq<char>>) -> Result<
    Seq<char>,
    Seq<char>,
> {
    match private {
        Err(e) => Err("could not read the gateway's WireGuard key: "@ + e),
        Ok(key) => match wg::public_for(key) {
            Ok(public) => Ok(public),
            Err(e) => Err("the gateway's WireGuard key is not valid: "@ + wg::key_error_text(e)),
        },
    }
}

/// The gateway's public key, given what became of reading its private one.
pub fn gateway_public_key(private: Result<String, String>) -> (r: Result<PublicKey, String>)
    ensures
        match r {
            Ok(key) => gateway_key(crate::clock::result_text(private)) == Ok::<
                Seq<char>,
                Seq<char>,
            >(key@),
            Err(e) => gateway_key(crate::clock::result_text(private)) == Err::<
                Seq<char>,
                Seq<char>,
            >(e@),
        },
{
    match private {
        Err(e) => {
            let mut out = "could not read the gateway's WireGuard key: ".to_owned();
            out.append(e.as_str());
            Err(out)
        },
        Ok(key) => match wg::public_from_private(key.as_str()) {
            Ok(public) => Ok(public),
            Err(e) => {
                let mut out = "the gateway's WireGuard key is not valid: ".to_owned();
                let detail = e.to_string();
                out.append(detail.as_str());
                Err(out)
            },
        },
    }
}

/// What an agent is told of its tunnel.
pub open spec fn tunnel_for(config: Config, node: NodeModel, gateway_public_key: Seq<char>) -> TunnelConfigModel {
    TunnelConfigModel {
        gateway_public_key,
        gateway_endpoint: config.tunnel.endpoint@,
        tunnel_ip: node.tunnel_ip,
        tunnel_prefix_len: config.tunnel.subnet.len(),
        persistent_keepalive: config.tunnel.persistent_keepalive,
    }
}

/// An agent announcing itself on boot.
///
/// Idempotent by design: agents keep no state and generate a fresh keypair
/// every start, so this is called on every restart and simply overwrites the
/// stored public key. The tunnel address was fixed when the node was created.
pub fn register(
    store: &mut Store,
    config: &Config,
    node: &Node,
    req: &RegisterRequest,
    gateway_public_key: Result<PublicKey, String>,
) -> (r: Result<RegisterResponse, ApiErr>)
    ensures
        final(store)@ == store::key_set(old(store)@, node.id, req.public_key@),
        answer(r) == if !table::any(
            old(store)@.nodes,
            store::node_with_id(crate::ids::uuid_text(node.id)),
        ) {
            Err(store_err(StoreErrorModel::NotFound))
        } else {
            match gateway_public_key {
                Err(e) => Err(ApiErrModel { status: 500, message: e@ }),
                Ok(key) => Ok(
                    RegisterResponseModel {
                        node_id: node.id,
                        tunnel: tunnel_for(*config, node@, key@),
                    },
                ),
            }
        },
        final(store)@.valid(),
        old(store)@.linked() ==> final(store)@.linked(),
{
    if let Err(e) = store.set_node_public_key(node.id, req.public_key.as_str()) {
        return Err(ApiErr::from_store(&e));
    }
    match gateway_public_key {
        Err(e) => Err(ApiErr { status: 500, message: e }),
        Ok(key) => Ok(
            RegisterResponse {
                node_id: node.id,
                tunnel: TunnelConfig {
                    gateway_public_key: key,
                    gateway_endpoint: config.tunnel.endpoint.clone(),
                    tunnel_ip: node.tunnel_ip,
                    tunnel_prefix_len: config.tunnel.subnet.prefix_len(),
                    persistent_keepalive: config.tunnel.persistent_keepalive,
                },
            },
        ),
    }
}

/// A port as two bytes, the high one first.
pub open spec fn port_bytes(port: u16) -> Seq<u8> {
    seq![(port / 256) as u8, (port % 256) as u8]
}

/// A length in groups of seven bits, the low one first. Every group but the
/// last has the high bit set, so where it ends can be read off it.
pub open spec fn length_bytes(n: nat) -> Seq<u8>
    decreases n,
{
    if n < 128 {
        seq![n as u8]
    } else {
        seq![(128 + n % 128) as u8] + length_bytes(n / 128)
    }
}

/// A text after its length.
pub open spec fn text_bytes(s: Seq<char>) -> Seq<u8> {
    length_bytes(utf8::encode_utf8(s).len()) + utf8::encode_utf8(s)
}

/// What a forward contributes to a revision: the protocol's name, the port in
/// the tunnel, the host after its length, and the port behind it. It can be
/// read back, so that different assignments never contribute the same.
pub open spec fn forward_bytes(f: ForwardModel) -> Seq<u8> {
    utf8::encode_utf8(f.protocol.name()) + port_bytes(f.tunnel_port) + text_bytes(f.local_host)
        + port_bytes(f.local_port)
}

/// What a revision is a checksum of.
pub open spec fn assignment_bytes(forwards: Seq<ForwardModel>) -> Seq<u8>
    decreases forwards.len(),
{
    if forwards.len() == 0 {
        Seq::empty()
    } else {
        assignment_bytes(forwards.drop_last()) + forward_bytes(forwards.last())
    }
}

/// The number that bytes spell, the high one first.
pub open spec fn be_value(bytes: Seq<u8>) -> nat
    decreases bytes.len(),
{
    if bytes.len() == 0 {
        0
    } else {
        256 * be_value(bytes.drop_last()) + bytes.last() as nat
    }
}

/// The revision of an assignment: the first eight bytes of the checksum of its
/// content, as one number.
pub open spec fn revision(forwards: Seq<ForwardModel>) -> nat {
    be_value(token::sha256_digest(assignment_bytes(forwards)).take(8))
}

fn push_bytes(out: &mut Vec<u8>, bytes: &[u8])
    ensures
        final(out)@ == old(out)@ + bytes@,
{
    let ghost before = out@;
    let mut i: usize = 0;
    proof {
        assert(before + bytes@.take(0) =~= before);
    }
    while i < bytes.len()
        invariant
            i <= bytes@.len(),
            out@ == before + bytes@.take(i as int),
        decreases bytes@.len() - i,
    {
        out.push(bytes[i]);
        proof {
            assert(out@ =~= before + bytes@.take(i + 1));
        }
        i += 1;
    }
    proof {
        assert(bytes@.take(i as int) =~= bytes@);
    }
}

fn push_port(out: &mut Vec<u8>, port: u16)
    ensures
        final(out)@ == old(out)@ + port_bytes(port),
{
    out.push((port / 256) as u8);
    out.push((port % 256) as u8);
    proof {
        assert(out@ =~= old(out)@ + port_bytes(port));
    }
}

fn push_length(out: &mut Vec<u8>, length: usize)
    ensures
        final(out)@ == old(out)@ + length_bytes(length as nat),
{
    let ghost before = out@;
    let mut rest: usize = length;
    while rest >= 128
        invariant
            out@ + length_bytes(rest as nat) == before + length_bytes(length as nat),
        decreases rest,
    {
        let group: u8 = (128 + rest % 128) as u8;
        proof {
            assert(out@.push(group) + length_bytes((rest / 128) as nat) =~= out@ + length_bytes(
                rest as nat,
            ));
        }
        out.push(group);
        rest = rest / 128;
    }
    out.push(rest as u8);
    proof {
        assert(out@ =~= before + length_bytes(length as nat));
    }
}

fn push_text(out: &mut Vec<u8>, s: &str)
    ensures
        final(out)@ == old(out)@ + text_bytes(s@),
{
    let bytes = s.as_bytes();
    push_length(out, bytes.len());
    push_bytes(out, bytes);
    proof {
        assert(out@ =~= old(out)@ + text_bytes(s@));
    }
}

fn push_forward(out: &mut Vec<u8>, f: &Forward)
    ensures
        final(out)@ == old(out)@ + forward_bytes(f@),
{
    push_bytes(out, f.protocol.as_str().as_bytes());
    push_port(out, f.tunnel_port);
    push_text(out, f.local_host.as_str());
    push_port(out, f.local_port);
    proof {
        assert(out@ =~= old(out)@ + forward_bytes(f@));
    }
}

/// The revision of an assignment.
///
/// A checksum of the content, not a counter: the agent only needs to know
/// whether anything changed, and deriving it means a gateway restart does not
/// make every agent think it missed an update.
pub fn revision_of(forwards: &[Forward]) -> (r: u64)
    ensures
        r == revision(text::views(forwards@)),
{
    let ghost all = text::views(forwards@);
    let mut bytes: Vec<u8> = Vec::new();
    let mut i: usize = 0;
    proof {
        assert(all.take(0) =~= Seq::<ForwardModel>::empty());
    }
    while i < forwards.len()
        invariant
            i <= forwards@.len(),
            all == text::views(forwards@),
            bytes@ == assignment_bytes(all.take(i as int)),
        decreases forwards@.len() - i,
    {
        proof {
            text::lemma_views_step(forwards@, i as int);
        }
        push_forward(&mut bytes, &forwards[i]);
        i += 1;
    }
    proof {
        assert(all.take(i as int) =~= all);
    }
    let digest = token::sha256(bytes.as_slice());
    let ghost head = digest@.take(8);
    let mut value: u64 = 0;
    let mut k: usize = 0;
    let ghost mut bound: nat = 1;
    proof {
        power::lemma_pow0(256);
        assert(head.take(0) =~= Seq::<u8>::empty());
    }
    while k < 8
        invariant
            k <= 8,
            digest@.len() == 32,
            head == digest@.take(8),
            value == be_value(head.take(k as int)),
            value < bound,
            bound == power::pow(256, k as nat),
        decreases 8 - k,
    {
        proof {
            assert(head.take(k + 1).drop_last() =~= head.take(k as int));
            assert(head.take(k + 1).last() == digest@[k as int]);
            lemma_eight_bytes(k as nat);
        }
        value = value * 256 + digest[k] as u64;
        proof {
            bound = bound * 256;
        }
        k += 1;
    }
    proof {
        assert(head.take(8) =~= head);
    }
    value
}

/// A length is read off what begins with it.
proof fn lemma_length_read(a: nat, b: nat, x: Seq<u8>, y: Seq<u8>)
    requires
        length_bytes(a) + x == length_bytes(b) + y,
    ensures
        a == b,
        x == y,
    decreases a,
{
    let l = length_bytes(a) + x;
    let r = length_bytes(b) + y;
    assert(l[0] == length_bytes(a)[0]);
    assert(r[0] == length_bytes(b)[0]);
    if a < 128 {
        assert(b < 128);
        assert(x =~= l.skip(1));
        assert(y =~= r.skip(1));
    } else {
        assert(b >= 128);
        assert(a % 128 == b % 128);
        assert(l.skip(1) =~= length_bytes(a / 128) + x);
        assert(r.skip(1) =~= length_bytes(b / 128) + y);
        lemma_length_read(a / 128, b / 128, x, y);
    }
}

/// A text is read off what begins with it.
proof fn lemma_text_read(a: Seq<char>, b: Seq<char>, x: Seq<u8>, y: Seq<u8>)
    requires
        text_bytes(a) + x == text_bytes(b) + y,
    ensures
        a == b,
        x == y,
{
    let m = utf8::encode_utf8(a);
    let n = utf8::encode_utf8(b);
    assert(text_bytes(a) + x =~= length_bytes(m.len()) + (m + x));
    assert(text_bytes(b) + y =~= length_bytes(n.len()) + (n + y));
    lemma_length_read(m.len(), n.len(), m + x, n + y);
    assert(m =~= (m + x).take(m.len() as int));
    assert(n =~= (n + y).take(m.len() as int));
    assert(x =~= (m + x).skip(m.len() as int));
    assert(y =~= (n + y).skip(m.len() as int));
    utf8::encode_utf8_decode_utf8(a);
    utf8::encode_utf8_decode_utf8(b);
}

proof fn lemma_name_bytes(p: Protocol)
    ensures
        utf8::encode_utf8(p.name()).len() == 3,
        utf8::encode_utf8(p.name())[0] == (if p == Protocol::Tcp {
            116u8
        } else {
            117u8
        }),
{
    reveal_strlit("tcp");
    reveal_strlit("udp");
    utf8::is_ascii_chars_encode_utf8(p.name());
}

/// A forward is read off what begins with it.
proof fn lemma_forward_read(a: ForwardModel, b: ForwardModel, x: Seq<u8>, y: Seq<u8>)
    requires
        forward_bytes(a) + x == forward_bytes(b) + y,
    ensures
        a == b,
        x == y,
{
    let l = forward_bytes(a) + x;
    let r = forward_bytes(b) + y;
    lemma_name_bytes(a.protocol);
    lemma_name_bytes(b.protocol);
    assert(l[0] == utf8::encode_utf8(a.protocol.name())[0]);
    assert(r[0] == utf8::encode_utf8(b.protocol.name())[0]);
    assert(l[3] == port_bytes(a.tunnel_port)[0] && l[4] == port_bytes(a.tunnel_port)[1]);
    assert(r[3] == port_bytes(b.tunnel_port)[0] && r[4] == port_bytes(b.tunnel_port)[1]);
    let tail_a = port_bytes(a.local_port) + x;
    let tail_b = port_bytes(b.local_port) + y;
    assert(l.skip(5) =~= text_bytes(a.local_host) + tail_a);
    assert(r.skip(5) =~= text_bytes(b.local_host) + tail_b);
    lemma_text_read(a.local_host, b.local_host, tail_a, tail_b);
    assert(tail_a[0] == port_bytes(a.local_port)[0] && tail_a[1] == port_bytes(a.local_port)[1]);
    assert(tail_b[0] == port_bytes(b.local_port)[0] && tail_b[1] == port_bytes(b.local_port)[1]);
    assert(x =~= tail_a.skip(2));
    assert(y =~= tail_b.skip(2));
}

/// What an assignment begins with, and what follows.
proof fn lemma_assignment_split(forwards: Seq<ForwardModel>)
    requires
        forwards.len() > 0,
    ensures
        assignment_bytes(forwards) == forward_bytes(forwards[0]) + assignment_bytes(
            forwards.drop_first(),
        ),
    decreases forwards.len(),
{
    let rest = forwards.drop_first();
    if forwards.len() == 1 {
        assert(forwards.drop_last() =~= Seq::<ForwardModel>::empty());
        assert(rest =~= Seq::<ForwardModel>::empty());
        assert(assignment_bytes(forwards) =~= forward_bytes(forwards[0]) + assignment_bytes(rest));
    } else {
        let head = forwards.drop_last();
        lemma_assignment_split(head);
        assert(head.drop_first() =~= rest.drop_last());
        assert(rest.last() == forwards.last());
        assert(assignment_bytes(forwards) =~= forward_bytes(forwards[0]) + assignment_bytes(rest));
    }
}

proof fn lemma_assignment_read(a: Seq<ForwardModel>, b: Seq<ForwardModel>)
    requires
        assignment_bytes(a) == assignment_bytes(b),
    ensures
        a == b,
    decreases a.len(),
{
    if a.len() > 0 {
        lemma_assignment_split(a);
        lemma_name_bytes(a[0].protocol);
    }
    if b.len() > 0 {
        lemma_assignment_split(b);
        lemma_name_bytes(b[0].protocol);
    }
    if a.len() > 0 && b.len() > 0 {
        lemma_forward_read(
            a[0],
            b[0],
            assignment_bytes(a.drop_first()),
            assignment_bytes(b.drop_first()),
        );
        lemma_assignment_read(a.drop_first(), b.drop_first());
        assert(a =~= seq![a[0]] + a.drop_first());
        assert(b =~= seq![b[0]] + b.drop_first());
    } else {
        assert(a =~= b);
    }
}

/// Different assignments are checksummed over different content, so that a
/// revision tells the agent whether anything changed.
pub proof fn law_revision_covers_the_assignment(a: Seq<ForwardModel>, b: Seq<ForwardModel>)
    ensures
        a != b ==> assignment_bytes(a) != assignment_bytes(b),
{
    if assignment_bytes(a) == assignment_bytes(b) {
        lemma_assignment_read(a, b);
    }
}

proof fn lemma_eight_bytes(k: nat)
    requires
        k < 8,
    ensures
        power::pow(256, k + 1) == 256 * power::pow(256, k),
        0 < power::pow(256, k) <= 0x100_0000_0000_0000,
{
    reveal_with_fuel(power::pow, 9);
}

/// What a node is to serve: its own forwards and nothing else.
pub open spec fn assignment_for(s: StoreModel, node_id: Uuid) -> Result<
    AgentAssignmentModel,
    ApiErrModel,
> {
    match store::forwards_of(s, node_id) {
        Ok(forwards) => Ok(AgentAssignmentModel { revision: revision(forwards) as u64, forwards }),
        Err(e) => Err(store_err(e)),
    }
}

pub fn assignment(store: &Store, node: &Node) -> (r: Result<AgentAssignment, ApiErr>)
    ensures
        answer(r) == assignment_for(store@, node.id),
{
    match store.forwards_for_node(node.id) {
        Ok(forwards) => {
            let revision = revision_of(forwards.as_slice());
            Ok(AgentAssignment { revision, forwards })
        },
        Err(e) => Err(ApiErr::from_store(&e)),
    }
}

// ---- the edge -----------------------------------------------------------

/// The packet filter's ruleset for what is stored.
pub fn edge_ruleset(store: &Store, config: &Config) -> (r: Result<String, StoreError>)
    ensures
        match store::active_of(store@) {
            Ok(forwards) => r is Ok && r->Ok_0@ == nft::ruleset_text(
                config.nftables.table@,
                net::cidr_text(config.tunnel.subnet.network(), config.tunnel.subnet.len()),
                forwards,
            ),
            Err(e) => r is Err && r->Err_0@ == e,
        },
{
    match store.active_forwards() {
        Ok(forwards) => {
            let subnet = config.tunnel.subnet.to_string();
            proof {
                assert(text::views(forwards@) =~= forwards@);
            }
            Ok(
                nft::ruleset(
                    config.nftables.table.as_str(),
                    subnet.as_str(),
                    forwards.as_slice(),
                ),
            )
        },
        Err(e) => Err(e),
    }
}

/// The gateway's own device.
pub open spec fn interface_of(config: Config, private_key: Seq<char>) -> InterfaceConfigModel {
    InterfaceConfigModel {
        private_key,
        listen_port: config.tunnel.listen_port,
        address: config.tunnel.gateway_ip,
        prefix_len: config.tunnel.subnet.len(),
    }
}

/// WireGuard's configuration for what is stored.
pub fn edge_wireguard(store: &Store, config: &Config, private_key: String) -> (r: Result<
    String,
    StoreError,
>)
    ensures
        match store::listed_nodes(store@) {
            Ok(nodes) => r is Ok && r->Ok_0@ == wgctl::config_text(
                interface_of(*config, private_key@),
                wgctl::peers_among(nodes),
            ),
            Err(e) => r is Err && r->Err_0@ == e,
        },
{
    match store.list_nodes() {
        Ok(nodes) => {
            let peers = wgctl::peers_of(nodes.as_slice());
            let iface = InterfaceConfig {
                private_key,
                listen_port: config.tunnel.listen_port,
                address: config.tunnel.gateway_ip,
                prefix_len: config.tunnel.subnet.prefix_len(),
            };
            Ok(wgctl::render_config(&iface, peers.as_slice()))
        },
        Err(e) => Err(e),
    }
}

// ---- records ------------------------------------------------------------

/// What brings the zone in line with a service's face.
pub fn publish_plan(face: &ServiceDescription, existing: &[ExistingRecord]) -> (r: DnsPlan)
    ensures
        r@ == dns::reconciled(face.fqdn@, text::views(face.dns@), text::views(existing@)),
{
    dns::reconcile_service(face.fqdn.as_str(), face.dns.as_slice(), existing)
}

/// What retracts the records of a service that is gone.
pub fn retract_plan(face: &ServiceDescription, existing: &[ExistingRecord]) -> (r: DnsPlan)
    ensures
        r@ == dns::reconciled(face.fqdn@, Seq::empty(), text::views(existing@)),
{
    let none: Vec<DnsRecord> = Vec::new();
    proof {
        assert(text::views(none@) =~= Seq::<dns::DnsRecordModel>::empty());
    }
    dns::reconcile_service(face.fqdn.as_str(), none.as_slice(), existing)
}

/// Whether a service's records are published, given whether the zone could be
/// listed, the plan that follows from the listing, and whether that plan could
/// be carried out. One with nothing in it needs no carrying out.
pub fn dns_published(listed: bool, plan: &DnsPlan, applied: bool) -> (r: bool)
    ensures
        r == (listed && (plan@.is_empty() || applied)),
{
    listed && (plan.is_empty() || applied)
}

/// Notes whether a service's records are published, so that the UI can say so
/// and they are published again where not. Where no zone is configured there
/// is nothing to note.
pub fn note_published(store: &mut Store, configured: bool, id: Uuid, published: bool)
    ensures
        final(store)@ == if configured {
            store::service_marked(old(store)@, id, published)
        } else {
            old(store)@
        },
        final(store)@.valid(),
        old(store)@.linked() ==> final(store)@.linked(),
{
    proof {
        use_type_invariant(&*store);
    }
    if configured {
        let _ = store.set_dns_synced(id, published);
    }
}

// ---- catching up --------------------------------------------------------

/// Liveness of the peer with a key.
pub open spec fn status_with_key(key: Seq<char>) -> spec_fn(PeerStatusModel) -> bool {
    |p: PeerStatusModel| p.public_key == key
}

/// When a node was last heard, according to WireGuard.
pub open spec fn heard_at(node: NodeModel, peers: Seq<PeerStatusModel>) -> Option<Timestamp> {
    match node.public_key {
        Some(key) => match table::first(peers, status_with_key(key)) {
            Some(peer) => peer.last_handshake,
            None => None,
        },
        None => None,
    }
}

/// The tables after the handshakes of the first `n` nodes were noted. One that
/// cannot be noted is passed over.
pub open spec fn handshakes_noted(
    s: StoreModel,
    nodes: Seq<NodeModel>,
    peers: Seq<PeerStatusModel>,
    n: nat,
) -> StoreModel
    decreases n,
{
    if n == 0 {
        s
    } else {
        let before = handshakes_noted(s, nodes, peers, (n - 1) as nat);
        match heard_at(nodes[n - 1], peers) {
            Some(at) => store::handshake_recorded(before, nodes[n - 1].id, at).0,
            None => before,
        }
    }
}

/// Whether the node listed at `i` is the one that its identifier finds, and no
/// other is listed under that identifier.
pub open spec fn is_found(s: StoreModel, nodes: Seq<NodeModel>, i: int) -> bool {
    &&& store::got_node(s, nodes[i].id) == Ok::<NodeModel, StoreErrorModel>(nodes[i])
    &&& forall|j: int|
        0 <= j < nodes.len() && (#[trigger] nodes[j]).id == nodes[i].id ==> j == i
}

/// The node listed at `i`, as it reads once its handshake is noted.
pub open spec fn once_heard(
    nodes: Seq<NodeModel>,
    peers: Seq<PeerStatusModel>,
    i: int,
) -> NodeModel {
    match heard_at(nodes[i], peers) {
        Some(at) => if at.writable() {
            NodeModel { last_handshake: Some(at), ..nodes[i] }
        } else {
            nodes[i]
        },
        None => nodes[i],
    }
}

/// Notes when each node was last heard, for the online indicator.
pub fn note_handshakes(store: &mut Store, peers: &Vec<PeerStatus>)
    ensures
        final(store)@ == match store::listed_nodes(old(store)@) {
            Ok(nodes) => handshakes_noted(old(store)@, nodes, text::views(peers@), nodes.len()),
            Err(_) => old(store)@,
        },
        store::listed_nodes(old(store)@) matches Ok(nodes) ==> forall|i: int|
            0 <= i < nodes.len() && #[trigger] is_found(old(store)@, nodes, i) ==> store::got_node(
                final(store)@,
                nodes[i].id,
            ) == Ok::<NodeModel, StoreErrorModel>(once_heard(nodes, text::views(peers@), i)),
        final(store)@.valid(),
        old(store)@.linked() ==> final(store)@.linked(),
{
    let nodes = match store.list_nodes() {
        Ok(nodes) => nodes,
        Err(_) => {
            return;
        },
    };
    let ghost before = store@;
    let ghost all = text::views(nodes@);
    let ghost have = text::views(peers@);
    let mut i: usize = 0;
    while i < nodes.len()
        invariant
            i <= nodes@.len(),
            all == text::views(nodes@),
            have == text::views(peers@),
            store@ == handshakes_noted(before, all, have, i as nat),
            store@.valid(),
            before.linked() ==> store@.linked(),
            forall|k: int|
                0 <= k < i && #[trigger] is_found(before, all, k) ==> store::got_node(
                    store@,
                    all[k].id,
                ) == Ok::<NodeModel, StoreErrorModel>(once_heard(all, have, k)),
            forall|k: int|
                i <= k < all.len() && #[trigger] is_found(before, all, k) ==> store::got_node(
                    store@,
                    all[k].id,
                ) == Ok::<NodeModel, StoreErrorModel>(all[k]),
        decreases nodes@.len() - i,
    {
        let node: &Node = &nodes[i];
        let ghost so_far = store@;
        proof {
            assert(all[i as int] == node@);
            if let Some(at) = heard_at(node@, have) {
                assert forall|k: int| 0 <= k < all.len() && k != i && #[trigger] is_found(
                    before,
                    all,
                    k,
                ) implies store::got_node(
                    store::handshake_recorded(so_far, node.id, at).0,
                    all[k].id,
                ) == store::got_node(so_far, all[k].id) by {
                    assert(all[i as int].id != all[k].id);
                    store_laws::law_handshake_leaves_others(so_far, node.id, at, all[k].id);
                }
            }
        }
        if let Some(key) = &node.public_key {
            let hit = |p: &PeerStatus| -> (b: bool)
                ensures
                    b == status_with_key(key@)(p@),
                { text::same_text(p.public_key.as_str(), key.as_str()) };
            if let Some(k) = table::find(peers, hit, Ghost(status_with_key(key@))) {
                if let Some(at) = peers[k].last_handshake {
                    let _ = store.record_handshake(node.id, at);
                }
            }
        }
        i += 1;
    }
}

/// A service whose records are not known to be published.
pub open spec fn unpublished(s: StoreModel) -> spec_fn(ServiceModel) -> bool {
    |service: ServiceModel|
        store::dns_synced(s, service.id) != Ok::<bool, StoreErrorModel>(true)
}

/// The services whose records are to be published again.
pub fn unsynced_services(store: &Store) -> (r: Vec<Uuid>)
    ensures
        match store::listed_services(store@) {
            Ok(services) => r@ == Seq::new(
                services.filter(unpublished(store@)).len(),
                |i: int| services.filter(unpublished(store@))[i].id,
            ),
            Err(_) => r@.len() == 0,
        },
{
    let services = match store.list_services() {
        Ok(services) => services,
        Err(_) => {
            return Vec::new();
        },
    };
    let keep = |service: &Service| -> (b: bool)
        ensures
            b == unpublished(store@)(service@),
        {
            match store.is_dns_synced(service.id) {
                Ok(synced) => !synced,
                Err(_) => true,
            }
        };
    let rows = table::chosen(&services, keep, Ghost(unpublished(store@)));
    let mut out: Vec<Uuid> = Vec::new();
    let mut i: usize = 0;
    while i < rows.len()
        invariant
            i <= rows@.len(),
            out@.len() == i,
            forall|k: int| 0 <= k < i ==> #[trigger] out@[k] == rows@[k]@.id,
        decreases rows@.len() - i,
    {
        out.push(rows[i].id);
        i += 1;
    }
    proof {
        let kept = text::views(rows@);
        assert(out@ =~= Seq::new(kept.len(), |i: int| kept[i].id));
    }
    out
}

} // verus!
