//! What the operations themselves promise: of every result that a call may
//! give, in terms of what was handed in.

use crate::addr;
use crate::addr::Ipv4Addr;
use crate::agent;
use crate::agent::{PollStep, RegisterStep};
use crate::allocator::{AllocError, EdgePortRange, PortAllocator};
use crate::api::{
    AddPortRequest, AgentAssignment, Forward, RegisterRequest, RegisterResponse, TunnelConfig,
};
use crate::cli;
use crate::client;
use crate::client::{Answer, ClientError, ClientErrorModel, GatewayClient};
use crate::cloudflare;
use crate::cloudflare::{ApiResponse, ApplyStepModel, CloudflareError, Listing, RecordJson};
use crate::config::{Config, ConfigError};
use crate::dns::{DnsPlan, DnsRecord, ExistingRecord};
use crate::edge_laws;
use crate::forward;
use crate::http;
use crate::http::ApiErr;
use crate::ids;
use crate::ids::Uuid;
use crate::model::{Agent, Node, PortMapping, Protocol, Service};
use crate::net;
use crate::net::Ipv4Net;
use crate::nft;
use crate::number;
use crate::plan;
use crate::plan::{PlanError, PlanErrorModel, ServiceDescription};
use crate::plan_laws;
use crate::publish_laws;
use crate::state;
use crate::state::{FileRead, StateError, StateErrorModel};
use crate::store;
use crate::store::{ActiveForward, Store, StoreError};
use crate::table;
use crate::text;
use crate::text_laws;
use crate::tunnel;
use crate::wg::PublicKey;
use crate::wgctl;
use vstd::prelude::*;

verus! {

// ---- describing a service -----------------------------------------------

/// A description has an SRV record for every mapping that asks for one, under
/// the mapping's service and protocol, to the service's own name and the
/// mapping's public port.
pub proof fn law_described_srv_has_the_public_port(
    service: &Service,
    mappings: &[PortMapping],
    zone: &str,
    edge_ip: Ipv4Addr,
    r: ServiceDescription,
    i: int,
)
    requires
        call_ensures(plan::describe_service, (service, mappings, zone, edge_ip), r),
        0 <= i < mappings@.len(),
        mappings@[i].srv is Some,
    ensures
        exists|k: int|
            0 <= k < r.dns@.len() && (#[trigger] r.dns@[k] matches DnsRecord::Srv {
                name,
                target,
                port,
                priority,
                weight,
                ..
            } && name@ == mappings@[i].srv->0.service@ + "."@ + mappings@[i].srv->0.proto@ + "."@
                + r.fqdn@ && target@ == r.fqdn@ && port == mappings@[i].edge_port && priority
                == mappings@[i].srv->0.priority && weight == mappings@[i].srv->0.weight),
{
    let all = text::views(mappings@);
    let face = plan::described(service@, all, zone@, edge_ip);
    assert(r@ == face);
    let asking = all.filter(plan_laws::asks_for_srv());
    plan_laws::law_srv_records_give_the_public_port(service@, all, zone@, edge_ip);
    table::lemma_filter_members(all, plan_laws::asks_for_srv());
    assert(all[i] == mappings@[i]@);
    assert(all.contains(all[i]));
    assert(asking.contains(all[i]));
    let k = choose|k: int| 0 <= k < asking.len() && asking[k] == all[i];
    assert(face.dns[k + 1] == r.dns@[k + 1]@);
    assert(asking[k].srv->0 == mappings@[i].srv->0@);
    let record = r.dns@[k + 1];
    assert(record is Srv);
}

/// A description names the service's one address record, and says of every
/// mapping the public port and nothing of where the server is.
pub proof fn law_described_ports_are_public(
    service: &Service,
    mappings: &[PortMapping],
    zone: &str,
    edge_ip: Ipv4Addr,
    r: ServiceDescription,
)
    requires
        call_ensures(plan::describe_service, (service, mappings, zone, edge_ip), r),
    ensures
        r.fqdn@ == if service.subdomain@ == "@"@ {
            zone@
        } else {
            service.subdomain@ + "."@ + zone@
        },
        r.dns@.len() == 1 + text::views(mappings@).filter(plan_laws::asks_for_srv()).len(),
        r.dns@[0] matches DnsRecord::A { name, address, ttl } && name@ == r.fqdn@ && address == edge_ip
            && ttl == 120,
        r.ports@.len() == mappings@.len(),
        forall|i: int|
            0 <= i < r.ports@.len() ==> {
                let shown = #[trigger] r.ports@[i];
                &&& shown.mapping@ == mappings@[i]@
                &&& shown.endpoint.port == mappings@[i].edge_port
                &&& shown.endpoint.protocol == mappings@[i].protocol
                &&& shown.endpoint.host@ == r.fqdn@
                &&& mappings@[i].srv is Some ==> shown.connect@ == r.fqdn@
                &&& mappings@[i].srv is None ==> shown.connect@ == r.fqdn@ + ":"@ + number::decimal(
                    mappings@[i].edge_port as nat,
                )
            },
{
    let all = text::views(mappings@);
    let face = plan::described(service@, all, zone@, edge_ip);
    assert(r@ == face);
    plan_laws::law_srv_records_give_the_public_port(service@, all, zone@, edge_ip);
    plan_laws::law_players_are_told_the_public_port(service@, all, zone@, edge_ip);
    plan_laws::law_names_are_within_the_zone(service@, service@, all, zone@, edge_ip);
    assert(face.dns[0] == r.dns@[0]@);
    assert(face.dns.len() == r.dns@.len());
    assert(face.ports.len() == r.ports@.len());
    assert forall|i: int| 0 <= i < r.ports@.len() implies {
        let shown = #[trigger] r.ports@[i];
        &&& shown.mapping@ == mappings@[i]@
        &&& shown.endpoint.port == mappings@[i].edge_port
        &&& shown.endpoint.protocol == mappings@[i].protocol
        &&& shown.endpoint.host@ == r.fqdn@
        &&& mappings@[i].srv is Some ==> shown.connect@ == r.fqdn@
        &&& mappings@[i].srv is None ==> shown.connect@ == r.fqdn@ + ":"@ + number::decimal(
            mappings@[i].edge_port as nat,
        )
    } by {
        assert(face.ports[i] == r.ports@[i]@);
        assert(all[i] == mappings@[i]@);
    }
}

/// An explicit public port is given where it is free and refused where it is
/// not, whatever port the server itself listens on.
pub proof fn law_allocating_honours_an_explicit_port(
    allocator: &mut PortAllocator,
    req: &AddPortRequest,
    r: Result<u16, PlanError>,
    port: u16,
)
    requires
        call_ensures(plan::allocate_edge_port, (allocator, req), r),
        req.edge_port == Some(port),
        port != 0,
        req.local_port != 0,
    ensures
        !old(allocator)@.contains((req.protocol, port)) ==> r == Ok::<u16, PlanError>(port)
            && final(allocator)@ == old(allocator)@.insert((req.protocol, port)),
        old(allocator)@.contains((req.protocol, port)) ==> r is Err && r->Err_0@
            == PlanErrorModel::Alloc(AllocError::FixedPortTaken { protocol: req.protocol, port })
            && final(allocator)@ == old(allocator)@,
{
    plan_laws::law_explicit_port_is_honoured_or_refused(
        old(allocator)@,
        old(allocator).spec_range(),
        req@,
        port,
    );
}

/// An open public port is the server's own where that is free; the port that is
/// given was free and is taken from then on, and nothing else changes.
pub proof fn law_allocating_takes_what_it_gives(
    allocator: &mut PortAllocator,
    req: &AddPortRequest,
    r: Result<u16, PlanError>,
)
    requires
        call_ensures(plan::allocate_edge_port, (allocator, req), r),
    ensures
        r matches Ok(port) ==> !old(allocator)@.contains((req.protocol, port)) && final(allocator)@
            == old(allocator)@.insert((req.protocol, port)) && port > 0,
        r is Err ==> final(allocator)@ == old(allocator)@,
        req.local_port == 0 ==> r is Err && r->Err_0@ == PlanErrorModel::InvalidPort,
        req.local_port != 0 && (req.edge_port is None || req.edge_port == Some(0u16)) && !old(allocator)@.contains((req.protocol, req.local_port)) ==> r == Ok::<u16, PlanError>(req.local_port),
{
    let before = old(allocator)@;
    let range = old(allocator).spec_range();
    plan_laws::law_local_port_must_be_one(before, range, req@);
    if req.local_port != 0 && (req.edge_port is None || req.edge_port == Some(0u16)) {
        plan_laws::law_blank_port_prefers_the_local_one(before, range, req@);
    }
}

// ---- the gateway's rules and device -------------------------------------

/// The ruleset that is written moves every forward to its node's address, at the
/// public port, for either protocol.
pub proof fn law_written_rules_keep_the_port(
    name: &str,
    tunnel_subnet: &str,
    forwards: &[ActiveForward],
    r: String,
    i: int,
)
    requires
        call_ensures(nft::ruleset, (name, tunnel_subnet, forwards), r),
        0 <= i < forwards@.len(),
    ensures
        ({
            let port = number::decimal(forwards@[i].edge_port as nat);
            let ip = addr::ipv4_text(forwards@[i].tunnel_ip);
            let protocol = if forwards@[i].protocol == Protocol::Tcp {
                "tcp"@
            } else {
                "udp"@
            };
            text_laws::has_part(
                r@,
                "    "@ + protocol + " dport "@ + port + " dnat to "@ + ip + ":"@ + port
                    + "  # service "@ + ids::uuid_text(forwards@[i].service_id) + "\n"@,
            )
        }),
{
    let (before, after) = {
        nft::law_every_forward_has_its_rule(name@, tunnel_subnet@, forwards@, i);
        choose|before: Seq<char>, after: Seq<char>|
            nft::ruleset_text(name@, tunnel_subnet@, forwards@) == #[trigger] (before
                + nft::rule_text(forwards@[i]) + after)
    };
    assert(r@ == before + nft::rule_text(forwards@[i]) + after);
}

/// Every node that has announced a key is a peer, under that key and at its
/// address; no other node is.
pub proof fn law_peers_are_the_announced_nodes(nodes: &[Node], r: Vec<Agent>)
    requires
        call_ensures(wgctl::peers_of, (nodes,), r),
    ensures
        r@.len() == text::views(nodes@).filter(edge_laws::has_key()).len(),
        forall|i: int|
            0 <= i < nodes@.len() && (#[trigger] nodes@[i]).public_key is Some ==> exists|j: int|
                0 <= j < r@.len() && (#[trigger] r@[j]).public_key@ == nodes@[i].public_key->0@
                    && r@[j].tunnel_ip == nodes@[i].tunnel_ip,
{
    let all = text::views(nodes@);
    let peers = wgctl::peers_among(all);
    assert(text::views(r@) == peers);
    edge_laws::law_every_keyed_node_is_a_peer(all);
    assert forall|i: int|
        0 <= i < nodes@.len() && (#[trigger] nodes@[i]).public_key is Some implies exists|j: int|
        0 <= j < r@.len() && (#[trigger] r@[j]).public_key@ == nodes@[i].public_key->0@
            && r@[j].tunnel_ip == nodes@[i].tunnel_ip by {
        assert(all[i] == nodes@[i]@);
        edge_laws::law_keyed_node_is_among_the_peers(all, i);
        let j = choose|j: int|
            0 <= j < peers.len() && Some((#[trigger] peers[j]).public_key) == all[i].public_key
                && peers[j].tunnel_ip == all[i].tunnel_ip;
        assert(peers[j] == r@[j]@);
    }
}

/// The agent's file names its own key as the device's and the gateway's as the
/// peer's.
pub proof fn law_written_agent_config_has_both_keys(
    config: &TunnelConfig,
    private_key: &str,
    r: String,
)
    requires
        call_ensures(tunnel::render_config, (config, private_key), r),
        config.tunnel_prefix_len <= 32,
    ensures
        r@ == ("# Managed by portal-agent. Edits here are overwritten.\n"@ + "[Interface]\n"@) + (
        "PrivateKey = "@ + private_key@ + "\n"@) + ("Address = "@ + addr::ipv4_text(
            config.tunnel_ip,
        ) + "/"@ + number::decimal(config.tunnel_prefix_len as nat) + "\n"@ + "\n"@) + "[Peer]\n"@
            + ("PublicKey = "@ + config.gateway_public_key@ + "\n"@ + ("Endpoint = "@
            + config.gateway_endpoint@ + "\n"@) + ("AllowedIPs = "@ + addr::ipv4_text(
            net::network_of(config.tunnel_ip, config.tunnel_prefix_len),
        ) + "/"@ + number::decimal(config.tunnel_prefix_len as nat) + "\n"@) + (
        "PersistentKeepalive = "@ + number::decimal(config.persistent_keepalive as nat) + "\n"@)),
{
    edge_laws::law_agent_config_is_these_lines(config@, private_key@);
}

/// The gateway's rules are written under the configured table, for the tunnel's
/// network, from the forwards that are enabled.
pub proof fn law_gateway_rules_are_the_enabled_forwards(
    s: &Store,
    config: &Config,
    r: Result<String, StoreError>,
    forwards: Seq<ActiveForward>,
    i: int,
)
    requires
        call_ensures(http::edge_ruleset, (s, config), r),
        store::active_of(s@) == Ok::<Seq<ActiveForward>, crate::store::StoreErrorModel>(forwards),
        0 <= i < forwards.len(),
    ensures
        r is Ok,
        text_laws::has_part(
            r->Ok_0@,
            "    "@ + forwards[i].protocol.name() + " dport "@ + number::decimal(
                forwards[i].edge_port as nat,
            ) + " dnat to "@ + addr::ipv4_text(forwards[i].tunnel_ip) + ":"@ + number::decimal(
                forwards[i].edge_port as nat,
            ) + "  # service "@ + ids::uuid_text(forwards[i].service_id) + "\n"@,
        ),
{
    let subnet = net::cidr_text(config.tunnel.subnet.network(), config.tunnel.subnet.len());
    nft::law_every_forward_has_its_rule(config.nftables.table@, subnet, forwards, i);
    let (before, after) = choose|before: Seq<char>, after: Seq<char>|
        nft::ruleset_text(config.nftables.table@, subnet, forwards) == #[trigger] (before
            + nft::rule_text(forwards[i]) + after);
    assert(r->Ok_0@ == before + nft::rule_text(forwards[i]) + after);
}

/// The gateway's device knows every node that has announced a key.
pub proof fn law_gateway_device_knows_the_announced_nodes(
    s: &Store,
    config: &Config,
    private_key: String,
    r: Result<String, StoreError>,
    nodes: Seq<crate::model::NodeModel>,
    i: int,
)
    requires
        call_ensures(http::edge_wireguard, (s, config, private_key), r),
        store::listed_nodes(s@) == Ok::<
            Seq<crate::model::NodeModel>,
            crate::store::StoreErrorModel,
        >(nodes),
        0 <= i < nodes.len(),
        nodes[i].public_key is Some,
    ensures
        r is Ok,
        text_laws::has_part(
            r->Ok_0@,
            "[Peer]\n"@ + "PublicKey = "@ + nodes[i].public_key->0 + "\n"@ + "AllowedIPs = "@
                + addr::ipv4_text(nodes[i].tunnel_ip) + "/32\n"@,
        ),
{
    edge_laws::law_keyed_node_is_configured(
        http::interface_of(*config, private_key@),
        nodes,
        i,
    );
}

// ---- publishing ---------------------------------------------------------

/// Records are published where the zone could be listed and what was missing
/// could be brought about, or nothing was missing.
pub proof fn law_published_means_nothing_is_missing(
    listed: bool,
    plan: &DnsPlan,
    carried_out: bool,
    r: bool,
)
    requires
        call_ensures(http::dns_published, (listed, plan, carried_out), r),
    ensures
        r ==> listed,
        listed && carried_out ==> r,
        listed && !carried_out ==> (r <==> plan@.create.len() == 0 && plan@.update.len() == 0
            && plan@.delete.len() == 0),
{
}

/// Retracting deletes every record that the service owns, and asks for nothing
/// else.
pub proof fn law_retracting_takes_everything_back(
    face: &ServiceDescription,
    existing: &[ExistingRecord],
    r: DnsPlan,
    z: int,
)
    requires
        call_ensures(http::retract_plan, (face, existing), r),
        0 <= z < existing@.len(),
        crate::dns::owned(existing@[z].record@.name(), face.fqdn@),
    ensures
        r@.create.len() == 0,
        r@.update.len() == 0,
        r@.delete.contains(existing@[z].id@),
{
    let zone = text::views(existing@);
    publish_laws::law_retracting_deletes_what_is_owned(face.fqdn@, zone);
    assert(zone[z] == existing@[z]@);
}

/// Whether records are published is noted of the service alone, and only where
/// there is a zone to publish them in.
pub proof fn law_publication_is_noted_of_the_service(
    s: &mut Store,
    configured: bool,
    id: Uuid,
    published: bool,
    k: int,
)
    requires
        call_ensures(http::note_published, (s, configured, id, published), ()),
        0 <= k < old(s)@.services.len(),
    ensures
        !configured ==> final(s)@ == old(s)@,
        final(s)@.nodes == old(s)@.nodes,
        final(s)@.ports == old(s)@.ports,
        final(s)@.services.len() == old(s)@.services.len(),
        old(s)@.services[k].id != ids::uuid_text(id) ==> final(s)@.services[k]
            == old(s)@.services[k],
        configured && old(s)@.services[k].id == ids::uuid_text(id) ==> final(s)@.services[k].dns_synced == if published {
            1i64
        } else {
            0i64
        },
{
}

// ---- nodes and services -------------------------------------------------

/// Registering notes the agent's key of its node and of no other, and tells the
/// agent the gateway's key and endpoint and the node's own address.
pub proof fn law_registering_notes_the_key(
    s: &mut Store,
    config: &Config,
    node: &Node,
    req: &RegisterRequest,
    gateway: Result<PublicKey, String>,
    r: Result<RegisterResponse, ApiErr>,
    k: int,
)
    requires
        call_ensures(http::register, (s, config, node, req, gateway), r),
        0 <= k < old(s)@.nodes.len(),
    ensures
        final(s)@.services == old(s)@.services,
        final(s)@.ports == old(s)@.ports,
        final(s)@.nodes.len() == old(s)@.nodes.len(),
        old(s)@.nodes[k].id == ids::uuid_text(node.id) ==> {
            &&& final(s)@.nodes[k].public_key == Some(req.public_key@)
            &&& r is Ok <==> gateway is Ok
        },
        old(s)@.nodes[k].id != ids::uuid_text(node.id) ==> final(s)@.nodes[k] == old(s)@.nodes[k],
        r matches Ok(told) ==> {
            &&& told.node_id == node.id
            &&& gateway matches Ok(key) && told.tunnel.gateway_public_key@ == key@
            &&& told.tunnel.gateway_endpoint@ == config.tunnel.endpoint@
            &&& told.tunnel.tunnel_ip == node.tunnel_ip
            &&& told.tunnel.tunnel_prefix_len == config.tunnel.subnet.len()
            &&& told.tunnel.persistent_keepalive == config.tunnel.persistent_keepalive
        },
{
    let p = store::node_with_id(ids::uuid_text(node.id));
    if old(s)@.nodes[k].id == ids::uuid_text(node.id) {
        assert(p(old(s)@.nodes[k]));
        assert(table::any(old(s)@.nodes, p));
    }
    if let Ok(told) = r {
        assert(told@.tunnel == http::tunnel_for(*config, node@, gateway->Ok_0@));
    }
}

/// A switch is set on the service with the identifier, and on no other.
pub proof fn law_switching_sets_one_service(
    s: &mut Store,
    id: Uuid,
    on: bool,
    r: Result<(), ApiErr>,
    k: int,
)
    requires
        call_ensures(http::set_service_enabled, (s, id, on), r),
        0 <= k < old(s)@.services.len(),
    ensures
        final(s)@.nodes == old(s)@.nodes,
        final(s)@.ports == old(s)@.ports,
        final(s)@.services.len() == old(s)@.services.len(),
        old(s)@.services[k].id == ids::uuid_text(id) ==> r is Ok && final(s)@.services[k].enabled
            == if on {
            1i64
        } else {
            0i64
        },
        old(s)@.services[k].id != ids::uuid_text(id) ==> final(s)@.services[k]
            == old(s)@.services[k],
        r matches Err(e) ==> e.status == 404,
{
    let p = store::service_with_id(ids::uuid_text(id));
    if old(s)@.services[k].id == ids::uuid_text(id) {
        assert(p(old(s)@.services[k]));
        assert(table::any(old(s)@.services, p));
    }
}

// ---- the agent ----------------------------------------------------------

/// An agent that registered has what it was told; one whose key is not known
/// gives up; any other waits as long as it was to, and up to twice as long the
/// next time.
pub proof fn law_registering_is_tried_again(
    wait: u64,
    outcome: Result<RegisterResponse, ClientError>,
    r: RegisterStep,
)
    requires
        call_ensures(agent::after_registering, (wait, outcome), r),
    ensures
        outcome matches Ok(response) ==> r == RegisterStep::Registered(response),
        outcome matches Err(e) ==> e@ == ClientErrorModel::Unauthorized ==> r is GiveUp,
        outcome matches Err(e) ==> e@ != ClientErrorModel::Unauthorized ==> (r
            matches RegisterStep::Retry { wait: now, next, error } && now == wait && error == e && (
        2 * wait <= 60 ==> next == 2 * wait) && (2 * wait > 60 ==> next == 60)),
{
}

/// An assignment is put in place unless its revision is in place already; a key
/// that is no longer known ends the agent; any other failure is waited out.
pub proof fn law_polling_applies_what_is_new(
    in_place: Option<u64>,
    outcome: Result<AgentAssignment, ClientError>,
    r: PollStep,
)
    requires
        call_ensures(agent::after_polling, (in_place, outcome), r),
    ensures
        outcome matches Ok(a) ==> in_place == Some(a.revision) ==> r == PollStep::Unchanged,
        outcome matches Ok(a) ==> in_place != Some(a.revision) ==> r == PollStep::Apply(a),
        outcome matches Err(e) ==> e@ == ClientErrorModel::Unauthorized ==> r is Stop,
        outcome matches Err(e) ==> e@ != ClientErrorModel::Unauthorized ==> r == PollStep::Wait(e),
{
}

/// Only an assignment that was put in place counts as being there.
pub proof fn law_only_success_is_in_place(revision: u64, applied: bool, r: Option<u64>)
    requires
        call_ensures(agent::after_applying, (revision, applied), r),
    ensures
        applied ==> r == Some(revision),
        !applied ==> r is None,
{
}

/// Traffic goes to the forward's host and port.
pub proof fn law_traffic_goes_to_the_server(f: &Forward, r: String)
    requires
        call_ensures(forward::local_target, (f,), r),
    ensures
        r@ == f.local_host@ + ":"@ + number::decimal(f.local_port as nat),
{
}

/// The gateway is asked under its base address.
pub proof fn law_gateway_is_asked_under_its_base(c: &GatewayClient, a: String, b: String)
    requires
        call_ensures(GatewayClient::register_url, (c,), a),
        call_ensures(GatewayClient::assignment_url, (c,), b),
    ensures
        a@ == c.base() + "/api/register"@,
        b@ == c.base() + "/api/assignment"@,
{
}

/// An answer is its value where it is a success that can be read. One that is
/// no success is an error, whatever its body holds.
pub proof fn law_only_successes_have_values<T>(answer: Answer<T>, r: Result<T, ClientError>)
    requires
        call_ensures(client::decode::<T>, (answer,), r),
    ensures
        r is Ok <==> 200 <= answer.status <= 299 && answer.value is Ok,
        r matches Ok(value) ==> answer.value == Ok::<T, String>(value),
        answer.status == 401 ==> r is Err && r->Err_0@ == ClientErrorModel::Unauthorized,
        200 <= answer.status <= 299 && answer.value is Err ==> r is Err && r->Err_0@ == (
        ClientErrorModel::Transport { url: answer.url@, source: answer.value->Err_0@ }),
        !(200 <= answer.status <= 299) && answer.status != 401 ==> r is Err && (r->Err_0@
            matches ClientErrorModel::Api { status, message } && status == answer.status && message
            == match answer.refusal {
            Some(e) => e.error@,
            None => answer.status_text@,
        }),
{
}

/// A switch is read from its words whatever their case and the space around
/// them, and anything else is refused.
pub proof fn law_switches_are_read_leniently(raw: &str, r: Result<bool, String>)
    requires
        call_ensures(cli::lenient_bool, (raw,), r),
    ensures
        ({
            let s = text::lower(text::trim(raw@));
            &&& r == Ok::<bool, String>(true) <==> (s == "1"@ || s == "true"@ || s == "yes"@ || s
                == "on"@)
            &&& r == Ok::<bool, String>(false) <==> (s == "0"@ || s == "false"@ || s == "no"@ || s
                == "off"@ || s == ""@)
            &&& r matches Err(e) ==> e@ == "expected true or false, got `"@ + s + "`"@
        }),
{
    let s = text::lower(text::trim(raw@));
    cli::law_spellings_are_unambiguous(s);
}

/// A state file that is not there means that the agent is not enrolled; one that
/// is there is read as it is.
pub proof fn law_missing_state_is_not_enrolled(
    path: &str,
    read: FileRead,
    r: Result<String, StateError>,
)
    requires
        call_ensures(state::contents_of, (path, read), r),
    ensures
        read is Missing ==> r is Err && r->Err_0@ == StateErrorModel::NotEnrolled(path@),
        read matches FileRead::Failed(source) ==> r is Err && r->Err_0@ == (StateErrorModel::Io {
            path: path@,
            source: source@,
        }),
        read matches FileRead::Contents(raw) ==> r is Ok && r->Ok_0@ == raw@,
{
}

// ---- Cloudflare ---------------------------------------------------------

/// A page adds what is understood of it to what was found before, and there is
/// another one exactly where it is full.
pub proof fn law_pages_add_up(
    listing: &mut Listing,
    body: ApiResponse<Vec<RecordJson>>,
    r: Result<bool, CloudflareError>,
)
    requires
        call_ensures(Listing::take_page, (listing, body), r),
    ensures
        r is Ok <==> body.success && body.result is Some,
        r is Ok ==> final(listing).so_far() == old(listing).so_far() + cloudflare::managed(
            text::views(body.result->0@),
        ),
        r matches Ok(more) ==> (more <==> body.result->0@.len() >= 100),
        r == Ok::<bool, CloudflareError>(true) && old(listing).next_page() < 0xffff_ffff ==> final(listing).next_page() == old(listing).next_page() + 1,
        r is Err ==> *final(listing) == *old(listing),
{
}

/// A failure stops; otherwise the next call is sent while there is one.
pub proof fn law_calls_go_on_until_one_fails<T>(
    left: usize,
    answer: Result<ApiResponse<T>, CloudflareError>,
    r: cloudflare::ApplyStep,
)
    requires
        call_ensures(cloudflare::after_call::<T>, (left, answer), r),
    ensures
        answer matches Err(e) ==> r@ == ApplyStepModel::Stop(e@),
        answer matches Ok(body) ==> !(body.success && body.result is Some) ==> r@ is Stop,
        answer matches Ok(body) ==> body.success && body.result is Some ==> r@ == if left == 0 {
            ApplyStepModel::Done
        } else {
            ApplyStepModel::SendNext
        },
{
}

// ---- ranges and networks ------------------------------------------------

/// A range of public ports is made where it begins at 1024 or above and does
/// not end before it begins.
pub proof fn law_ranges_are_unprivileged(start: u16, end: u16, r: Result<EdgePortRange, AllocError>)
    requires
        call_ensures(EdgePortRange::new, (start, end), r),
    ensures
        r is Ok <==> 1024 <= start <= end,
        r matches Ok(range) ==> range.first() == start && range.last() == end,
        r matches Err(e) ==> e == AllocError::InvalidRange(start, end),
{
}

/// The configured range is that of the configuration, or refused with it.
pub proof fn law_configured_range_is_the_written_one(
    config: &Config,
    r: Result<EdgePortRange, ConfigError>,
)
    requires
        call_ensures(Config::edge_port_range, (config,), r),
    ensures
        r is Ok <==> 1024 <= config.gateway.edge_port_range_start
            <= config.gateway.edge_port_range_end,
        r matches Ok(range) ==> range.first() == config.gateway.edge_port_range_start
            && range.last() == config.gateway.edge_port_range_end,
{
}

/// Of a network's hosts the lowest that is not taken is the next, and none is
/// only where all are taken.
pub proof fn law_next_free_is_the_lowest(
    n: Ipv4Net,
    taken: &[Ipv4Addr],
    r: Result<Ipv4Addr, net::NetError>,
)
    requires
        call_ensures(Ipv4Net::next_free, (n, taken), r),
    ensures
        r matches Ok(a) ==> {
            &&& n.network().bits < a.bits < n.network().bits + net::block_size(n.len()) - 1
            &&& !taken@.contains(a)
            &&& forall|b: Ipv4Addr|
                n.network().bits < b.bits < a.bits ==> #[trigger] taken@.contains(b)
        },
        r is Err ==> forall|b: Ipv4Addr|
            n.network().bits < b.bits < n.network().bits + net::block_size(n.len()) - 1
                ==> #[trigger] taken@.contains(b),
{
    if let Ok(a) = r {
        assert forall|b: Ipv4Addr| n.network().bits < b.bits < a.bits implies
            #[trigger] taken@.contains(b) by {
            assert(n.is_host(b));
        }
    } else {
        assert forall|b: Ipv4Addr|
            n.network().bits < b.bits < n.network().bits + net::block_size(n.len()) - 1 implies
            #[trigger] taken@.contains(b) by {
            assert(n.is_host(b));
        }
    }
}

} // verus!
