//! What every request to the gateway does and answers, and what the agent's and
//! the publisher's tables do, of every result that a call may give.

use crate::addr;
use crate::address_laws;
use crate::agent_laws;
use crate::allocator::{AllocError, PortAllocator, PortRequest};
use crate::api::{
    AddPortRequest, AgentAssignment, CreateNodeRequest, CreateNodeResponse, CreateServiceRequest,
    Forward,
};
use crate::clock::Timestamp;
use crate::cloudflare;
use crate::cloudflare::{ApiCall, Cloudflare};
use crate::config;
use crate::config::Config;
use crate::dns;
use crate::dns::{DnsPlan, DnsRecord, ExistingRecord};
use crate::dns_laws;
use crate::edge_laws;
use crate::forward;
use crate::forward::{Forwarder, PeerAddr, Sending, Session, SessionTable};
use crate::http;
use crate::http::{AdminAuth, ApiErr};
use crate::http_laws;
use crate::ids;
use crate::ids::Uuid;
use crate::model;
use crate::model::{Node, NodeModel, Protocol, Service};
use crate::plan;
use crate::plan::ServiceDescription;
use crate::profile;
use crate::profile::{Profile, ProfileError, ProfileSet};
use crate::profile_laws;
use crate::publish_laws;
use crate::rows;
use crate::store;
use crate::store::{Store, StoreError, StoreErrorModel};
use crate::table;
use crate::text;
use crate::text_laws;
use crate::token;
use crate::traffic_laws;
use crate::wgctl;
use crate::wgctl::KeyFile;
use vstd::prelude::*;

verus! {

// ---- who may ask --------------------------------------------------------

/// Only whoever presents a token with the admin token's hash is let in as the
/// admin; everyone else is told so.
pub proof fn law_admin_needs_the_token(
    header: Option<&str>,
    admin_token: &str,
    r: Result<AdminAuth, ApiErr>,
)
    requires
        call_ensures(http::authorize_admin, (header, admin_token), r),
    ensures
        header is None ==> r is Err,
        header matches Some(h) ==> (r is Ok <==> exists|rest: Seq<char>|
            h@ == #[trigger] ("Bearer "@ + rest) && token::token_hash(text::trim(rest))
                == token::token_hash(admin_token@)),
        r matches Err(e) ==> e.status == 401 && e.message@ == "unauthorized"@,
{
    http_laws::law_only_the_admin_token_lets_in(config::opt_str(header), admin_token@);
    if let Some(h) = header {
        if r is Ok {
            let rest = choose|rest: Seq<char>|
                config::opt_str(header) == Some(#[trigger] ("Bearer "@ + rest)) && token::token_hash(
                    text::trim(rest),
                ) == token::token_hash(admin_token@);
            assert(h@ == "Bearer "@ + rest);
        }
        if exists|rest: Seq<char>|
            h@ == #[trigger] ("Bearer "@ + rest) && token::token_hash(text::trim(rest))
                == token::token_hash(admin_token@) {
            let rest = choose|rest: Seq<char>|
                h@ == #[trigger] ("Bearer "@ + rest) && token::token_hash(text::trim(rest))
                    == token::token_hash(admin_token@);
            assert(config::opt_str(header) == Some("Bearer "@ + rest));
        }
    }
}

/// A key lets in the node whose row has its hash, and no other.
pub proof fn law_a_key_opens_its_node(s: &Store, key: &str, r: Result<Node, StoreError>, k: int)
    requires
        call_ensures(Store::authenticate_node, (s, key), r),
        0 <= k < s@.nodes.len(),
        s@.nodes[k].key_hash == token::token_hash(key@),
    ensures
        r is Ok <==> rows::node_of(s@.nodes[k]) is Ok,
        r matches Ok(node) ==> rows::node_of(s@.nodes[k]) == Ok::<NodeModel, StoreErrorModel>(
            node@,
        ),
{
    traffic_laws::law_a_key_lets_its_node_in(s@, key@);
}

/// A node is found under its identifier.
pub proof fn law_a_node_is_found(s: &Store, id: Uuid, r: Result<Node, StoreError>)
    requires
        call_ensures(Store::get_node, (s, id), r),
    ensures
        forall|k: int|
            0 <= k < s@.nodes.len() && (#[trigger] s@.nodes[k]).id == ids::uuid_text(id) ==> (r
                is Ok <==> rows::node_of(s@.nodes[k]) is Ok) && (r matches Ok(node)
                ==> rows::node_of(s@.nodes[k]) == Ok::<NodeModel, StoreErrorModel>(node@)),
        (forall|k: int| 0 <= k < s@.nodes.len() ==> (#[trigger] s@.nodes[k]).id != ids::uuid_text(id))
            ==> r is Err && r->Err_0@ == StoreErrorModel::NotFound,
{
    traffic_laws::law_identifiers_find_their_rows(s@, id);
}

// ---- what is asked for --------------------------------------------------

/// A port that is added is one more row: where the server is as it was asked
/// for, and the public port that was asked for, if one was, which nothing spoke
/// for before.
pub proof fn law_added_port_is_the_asked_one(
    s: &mut Store,
    config: &Config,
    service_id: Uuid,
    req: &AddPortRequest,
    id: Uuid,
    r: Result<Service, ApiErr>,
)
    requires
        call_ensures(http::add_port_with, (s, config, service_id, req, id), r),
    ensures
        r is Err ==> final(s)@ == old(s)@,
        r is Ok ==> {
            let row = final(s)@.ports.last();
            &&& final(s)@.ports == old(s)@.ports.push(row)
            &&& final(s)@.nodes == old(s)@.nodes
            &&& final(s)@.services == old(s)@.services
            &&& row.service_id == ids::uuid_text(service_id)
            &&& row.protocol == req.protocol.name()
            &&& row.local_port == req.local_port
            &&& Some(row.local_host) == plan::local_host_of(req.local_host@)
            &&& !http_laws::spoken_for(old(s)@, *config, req.protocol, row.edge_port)
            &&& req.edge_port matches Some(port) ==> port != 0 ==> row.edge_port == port
            &&& rows::srv_of(row) is Some <==> req.minecraft_srv
        },
{
    http_laws::law_port_is_added_as_asked(old(s)@, *config, service_id, req@, id);
}

/// A service that is created is one more row, on the node and under the
/// subdomain that were asked for.
pub proof fn law_created_service_is_the_asked_one(
    s: &mut Store,
    req: &CreateServiceRequest,
    now: Timestamp,
    id: Uuid,
    r: Result<Service, ApiErr>,
)
    requires
        call_ensures(http::create_service_with, (s, req, now, id), r),
    ensures
        r is Err ==> final(s)@ == old(s)@,
        r matches Ok(service) ==> {
            let row = final(s)@.services.last();
            &&& final(s)@.services == old(s)@.services.push(row)
            &&& final(s)@.nodes == old(s)@.nodes
            &&& final(s)@.ports == old(s)@.ports
            &&& service.id == id
            &&& service.node_id == req.node_id
            &&& Some(service.subdomain@) == plan::subdomain_of(req.subdomain@)
            &&& service.enabled
            &&& row.node_id == ids::uuid_text(req.node_id)
            &&& row.subdomain == service.subdomain@
        },
{
    http_laws::law_service_is_created_as_asked(old(s)@, *req, now, id);
}

/// A node that is created is one more row under the name that was asked for,
/// with an address of the tunnel's that nobody had; its key is told once and
/// kept as its hash.
pub proof fn law_created_node_is_the_asked_one(
    s: &mut Store,
    config: &Config,
    req: &CreateNodeRequest,
    now: Timestamp,
    id: Uuid,
    key: String,
    r: Result<CreateNodeResponse, ApiErr>,
)
    requires
        call_ensures(http::create_node_with, (s, config, req, now, id, key), r),
    ensures
        r is Err ==> final(s)@ == old(s)@,
        r matches Ok(made) ==> {
            let row = final(s)@.nodes.last();
            &&& final(s)@.nodes == old(s)@.nodes.push(row)
            &&& final(s)@.services == old(s)@.services
            &&& final(s)@.ports == old(s)@.ports
            &&& made.key@ == key@
            &&& made.node.id == id
            &&& made.node.name@ == text::trim(req.name@)
            &&& made.node.tunnel_ip != config.tunnel.gateway_ip
            &&& config.tunnel.subnet.is_host(made.node.tunnel_ip)
            &&& row.key_hash == token::token_hash(key@)
            &&& addr::ipv4_read(row.tunnel_ip) == Some(made.node.tunnel_ip)
        },
{
    http_laws::law_node_is_created_as_asked(old(s)@, *config, req.name@, now, id, key@);
}

/// Removing a mapping takes its row and no other, and tells whose it was.
pub proof fn law_removed_port_is_gone(
    s: &mut Store,
    id: Uuid,
    r: Result<Uuid, ApiErr>,
    k: int,
)
    requires
        call_ensures(http::remove_port, (s, id), r),
        0 <= k < old(s)@.ports.len(),
    ensures
        final(s)@.nodes == old(s)@.nodes,
        final(s)@.services == old(s)@.services,
        final(s)@.ports.contains(old(s)@.ports[k]) <==> old(s)@.ports[k].id != ids::uuid_text(id),
        final(s)@.ports.len() <= old(s)@.ports.len(),
{
    traffic_laws::law_deleting_a_mapping_takes_its_row(old(s)@, id, old(s)@.ports[k]);
    assert(old(s)@.ports.contains(old(s)@.ports[k]));
    old(s)@.ports.lemma_filter_len(store::not_port(ids::uuid_text(id)));
}

/// Deleting a node that is there takes its row, and answers that it did; where
/// there is none, that is what is answered.
pub proof fn law_deleted_node_is_gone(s: &mut Store, id: Uuid, r: Result<(), ApiErr>, k: int)
    requires
        call_ensures(http::delete_node, (s, id), r),
        0 <= k < old(s)@.nodes.len(),
    ensures
        old(s)@.nodes[k].id == ids::uuid_text(id) ==> r is Ok,
        final(s)@.nodes.contains(old(s)@.nodes[k]) <==> old(s)@.nodes[k].id != ids::uuid_text(id),
        r matches Err(e) ==> e.status == 404,
{
    let p = store::node_with_id(ids::uuid_text(id));
    let before = old(s)@;
    if before.nodes[k].id == ids::uuid_text(id) {
        assert(p(before.nodes[k]));
        assert(table::any(before.nodes, p));
    }
    table::lemma_filter_members(before.nodes, store::not_node(ids::uuid_text(id)));
    assert(before.nodes.contains(before.nodes[k]));
}

/// Deleting a service takes its row and gives back what was published of it, so
/// that it can be retracted.
pub proof fn law_deleted_service_is_gone(
    s: &mut Store,
    config: &Config,
    id: Uuid,
    r: Result<ServiceDescription, ApiErr>,
    k: int,
)
    requires
        call_ensures(http::delete_service, (s, config, id), r),
        0 <= k < old(s)@.services.len(),
    ensures
        final(s)@.nodes == old(s)@.nodes,
        r is Err ==> final(s)@ == old(s)@,
        r is Ok ==> (final(s)@.services.contains(old(s)@.services[k]) <==> old(s)@.services[k].id
            != ids::uuid_text(id)),
        r matches Ok(face) ==> http::face_of(old(s)@, *config, id) == Ok::<
            plan::ServiceDescriptionModel,
            StoreErrorModel,
        >(face@),
        http::face_of(old(s)@, *config, id) is Ok ==> r is Ok,
{
    let before = old(s)@;
    table::lemma_filter_members(before.services, store::not_service(ids::uuid_text(id)));
    assert(before.services.contains(before.services[k]));
}

/// A node's assignment has an entry for every enabled mapping on it: the public
/// port to listen on and where the server is.
pub proof fn law_assigned_is_every_enabled_mapping(
    s: &Store,
    node: &Node,
    r: Result<AgentAssignment, ApiErr>,
    i: int,
)
    requires
        call_ensures(http::assignment, (s, node), r),
        s@.valid(),
        r is Ok,
        0 <= i < s@.ports.len(),
        traffic_laws::enabled_on(s@, s@.ports[i], ids::uuid_text(node.id)),
    ensures
        exists|k: int|
            0 <= k < r->Ok_0.forwards@.len() && (#[trigger] r->Ok_0.forwards@[k]).tunnel_port
                == s@.ports[i].edge_port && r->Ok_0.forwards@[k].local_port
                == s@.ports[i].local_port && r->Ok_0.forwards@[k].local_host@
                == s@.ports[i].local_host && model::protocol_read(s@.ports[i].protocol) == Some(
                r->Ok_0.forwards@[k].protocol,
            ),
{
    let assigned = r->Ok_0;
    let v = store::forwards_of(s@, node.id)->Ok_0;
    traffic_laws::law_assignment_is_the_enabled_mappings(s@, node.id);
    assert(text::views(assigned.forwards@) == v);
    let k = choose|k: int| 0 <= k < v.len() && traffic_laws::is_forward_of(#[trigger] v[k], s@.ports[i]);
    assert(v[k] == assigned.forwards@[k]@);
}

/// An assignment is numbered by what it says: its number is that of its
/// forwards, whoever asks for it.
pub proof fn law_assignment_is_numbered_by_its_forwards(
    s: &Store,
    node: &Node,
    r: Result<AgentAssignment, ApiErr>,
    forwards: &[Forward],
    number: u64,
)
    requires
        call_ensures(http::assignment, (s, node), r),
        call_ensures(http::revision_of, (forwards,), number),
        r is Ok,
        text::views(forwards@) == text::views(r->Ok_0.forwards@),
    ensures
        r->Ok_0.revision == number,
{
    let told = r->Ok_0@;
    assert(http::assignment_for(s@, node.id) == Ok::<
        crate::api::AgentAssignmentModel,
        http::ApiErrModel,
    >(told));
    assert(told.forwards == text::views(forwards@));
}

/// A service is published again exactly where its row does not say that it is.
pub proof fn law_unpublished_are_listed(
    s: &Store,
    r: Vec<Uuid>,
    services: Seq<model::ServiceModel>,
    i: int,
)
    requires
        call_ensures(http::unsynced_services, (s,), r),
        store::listed_services(s@) == Ok::<Seq<model::ServiceModel>, StoreErrorModel>(services),
        0 <= i < services.len(),
    ensures
        r@.contains(services[i].id) <==> store::dns_synced(s@, services[i].id) != Ok::<
            bool,
            StoreErrorModel,
        >(true),
{
    let p = http::unpublished(s@);
    let kept = services.filter(p);
    table::lemma_filter_members(services, p);
    assert(services.contains(services[i]));
    if p(services[i]) {
        assert(kept.contains(services[i]));
        let k = choose|k: int| 0 <= k < kept.len() && kept[k] == services[i];
        assert(r@[k] == services[i].id);
    }
    if r@.contains(services[i].id) {
        let k = choose|k: int| 0 <= k < r@.len() && r@[k] == services[i].id;
        assert(kept[k].id == services[i].id);
        assert(kept.contains(kept[k]));
    }
}

// ---- ports and tables ---------------------------------------------------

/// Allocating gives the preferred port where it is free, refuses one that cannot
/// be moved, and otherwise gives the lowest free port of the range.
pub proof fn law_allocator_gives_from_below(
    allocator: &mut PortAllocator,
    req: PortRequest,
    r: Result<u16, AllocError>,
)
    requires
        call_ensures(PortAllocator::allocate, (allocator, req), r),
    ensures
        ({
            let before = old(allocator)@;
            let range = old(allocator).spec_range();
            &&& !before.contains((req.protocol, req.preferred)) <==> r == Ok::<u16, AllocError>(
                req.preferred,
            )
            &&& before.contains((req.protocol, req.preferred)) && req.fixed ==> r == Err::<
                u16,
                AllocError,
            >(AllocError::FixedPortTaken { protocol: req.protocol, port: req.preferred })
            &&& r matches Ok(port) ==> port != req.preferred ==> range.first() <= port
                <= range.last() && forall|q: u16|
                range.first() <= q < port ==> #[trigger] before.contains((req.protocol, q))
            &&& forall|k: (Protocol, u16)| #[trigger]
                final(allocator)@.contains(k) <==> before.contains(k) || (r matches Ok(port) && k
                    == (req.protocol, port))
        }),
{
    address_laws::law_ports_are_given_from_below(
        old(allocator)@,
        old(allocator).spec_range(),
        req,
        r,
        final(allocator)@,
    );
}

/// What is missing of an assignment is what it says last of the ports that
/// nothing serves.
pub proof fn law_missing_is_what_nothing_serves(
    f: &Forwarder,
    forwards: &[Forward],
    r: Vec<Forward>,
    i: int,
)
    requires
        call_ensures(Forwarder::missing, (f, forwards), r),
        0 <= i < forwards@.len(),
        agent_laws::last_of_its_port(text::views(forwards@), i),
    ensures
        text::views(r@).contains(forwards@[i]@) <==> forall|k: int|
            0 <= k < f@.len() ==> (#[trigger] f@[k]).protocol != forwards@[i].protocol
                || f@[k].tunnel_port != forwards@[i].tunnel_port,
{
    let all = text::views(forwards@);
    assert(all[i] == forwards@[i]@);
    agent_laws::law_missing_ports_are_started(f@, all, all[i]);
}

/// Sending on notes the flow's moment, or drops the flow, and touches no other.
pub proof fn law_sending_notes_the_flow(
    t: &mut SessionTable,
    peer: PeerAddr,
    now: u64,
    outcome: Sending,
    other: Session,
)
    requires
        call_ensures(SessionTable::sent, (t, peer, now, outcome), ()),
    ensures
        other.peer != peer ==> (final(t)@.contains(other) <==> old(t)@.contains(other)),
        other.peer == peer && outcome == Sending::Sent ==> (final(t)@.contains(other) <==> other.seen
            == now),
        other.peer == peer && outcome == Sending::Failed ==> !final(t)@.contains(other),
{
    agent_laws::law_sending_touches_one_flow(old(t)@, peer, now, outcome, other);
}

/// Reaping ends the flows that were quiet for a minute and keeps the others.
pub proof fn law_reaping_ends_quiet_flows(t: &mut SessionTable, now: u64, r: Vec<PeerAddr>, s: Session)
    requires
        call_ensures(SessionTable::reap, (t, now), r),
        old(t)@.contains(s),
    ensures
        final(t)@.contains(s) <==> now - s.seen < 60 * 1_000_000_000,
        now - s.seen >= 60 * 1_000_000_000 ==> r@.contains(s.peer),
{
    let before = old(t)@;
    table::lemma_filter_members(before, forward::still_heard(now));
    table::lemma_filter_members(before, forward::gone_quiet(now));
    if now - s.seen >= 60 * 1_000_000_000 {
        let over = before.filter(forward::gone_quiet(now));
        assert(over.contains(s));
        let k = choose|k: int| 0 <= k < over.len() && over[k] == s;
        assert(r@[k] == s.peer);
    }
}

// ---- publishing ---------------------------------------------------------

/// What is created is desired, and what is updated was owned and of another
/// content.
pub proof fn law_reconciling_asks_for_what_differs(
    service_fqdn: &str,
    desired: &[DnsRecord],
    zone: &[ExistingRecord],
    r: DnsPlan,
)
    requires
        call_ensures(dns::reconcile_service, (service_fqdn, desired, zone), r),
    ensures
        forall|i: int|
            0 <= i < r.create@.len() ==> text::views(desired@).contains((#[trigger] r.create@[i])@),
        forall|i: int|
            0 <= i < r.update@.len() ==> text::views(desired@).contains((#[trigger] r.update@[i]).1@),
        forall|i: int|
            0 <= i < r.delete@.len() ==> dns_laws::owns_id(
                text::views(zone@),
                service_fqdn@,
                (#[trigger] r.delete@[i])@,
            ),
{
    let want = text::views(desired@);
    let have = text::views(zone@);
    dns_laws::law_foreign_records_are_left_alone(service_fqdn@, want, have);
    assert forall|i: int| 0 <= i < r.create@.len() implies want.contains(
        (#[trigger] r.create@[i])@,
    ) by {
        assert(r@.create[i] == r.create@[i]@);
        dns_laws::law_only_desired_records_are_created(service_fqdn@, want, have, i);
    }
    assert forall|i: int| 0 <= i < r.update@.len() implies want.contains(
        (#[trigger] r.update@[i]).1@,
    ) by {
        assert(r@.update[i] == r.update@[i]@);
        dns_laws::law_updates_change_content_only(service_fqdn@, want, have, i);
    }
    assert forall|i: int| 0 <= i < r.delete@.len() implies dns_laws::owns_id(
        have,
        service_fqdn@,
        (#[trigger] r.delete@[i])@,
    ) by {
        assert(r@.delete[i] == r.delete@[i]@);
    }
}

/// A plan is one call for each thing it asks for.
pub proof fn law_each_change_is_one_call(c: &Cloudflare, p: &DnsPlan, r: Vec<ApiCall>)
    requires
        call_ensures(Cloudflare::calls, (c, p), r),
    ensures
        r@.len() == p.create@.len() + p.update@.len() + p.delete@.len(),
        forall|i: int| 0 <= i < p.create@.len() ==> #[trigger] r@[i] is Post,
        forall|i: int|
            p.create@.len() <= i < p.create@.len() + p.update@.len() ==> #[trigger] r@[i] is Put,
        forall|i: int|
            p.create@.len() + p.update@.len() <= i < r@.len() ==> #[trigger] r@[i] is Delete,
{
    publish_laws::law_plan_is_carried_out_call_by_call(c.zone_id@, p@);
    let calls = cloudflare::calls_of(c.zone_id@, p@);
    assert(text::views(r@) == calls);
    assert(calls.len() == r@.len());
    assert(forall|i: int| 0 <= i < r@.len() ==> calls[i] == (#[trigger] r@[i])@);
}

// ---- keys and profiles --------------------------------------------------

/// A fresh key file holds the key and a newline, and reads back as the key.
pub proof fn law_fresh_key_reads_back(r: KeyFile)
    requires
        call_ensures(wgctl::create_key, (), r),
    ensures
        r.contents@ == r.private@ + "\n"@,
        wgctl::key_in(Some(r.contents@)) == Some(r.private@),
{
}

/// A key that is stored is what its file holds but for the space around it; an
/// empty file holds none.
pub proof fn law_stored_key_is_trimmed(contents: &str, r: Option<String>)
    requires
        call_ensures(wgctl::stored_key, (Some(contents),), r),
    ensures
        r is None <==> text_laws::blank(contents@),
        r matches Some(key) ==> key@ == text::trim(contents@),
{
    edge_laws::law_key_file_is_trimmed(contents@);
}

/// A profile is accepted where its templates have ids of their own, and is then
/// in the set in place of the one of its id.
pub proof fn law_added_profile_is_in_the_set(
    set: &mut ProfileSet,
    p: Profile,
    r: Result<(), ProfileError>,
    x: profile::ProfileModel,
)
    requires
        call_ensures(ProfileSet::add, (set, p), r),
    ensures
        r is Ok <==> profile_laws::ids_apart(p@.ports),
        r is Ok ==> (final(set)@.contains(x) <==> x == p@ || old(set)@.contains(x) && x.id != p.id@),
        r is Err ==> final(set)@ == old(set)@,
{
    profile_laws::law_repeated_templates_are_found(p@.ports);
    profile_laws::law_adding_replaces_by_id(old(set)@, p@, x);
}

} // verus!
