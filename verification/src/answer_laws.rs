//! What is shown, spelled and set up: of every result that a call may give, in
//! terms of what was handed in.

use crate::addr;
use crate::addr::Ipv4Addr;
use crate::agent_laws;
use crate::allocator::{EdgePortRange, PortAllocator};
use crate::api::{AddPortRequest, Forward, ServiceView, TunnelConfig};
use crate::clock::Timestamp;
use crate::cloudflare;
use crate::cloudflare::{Cloudflare, Listing, Payload, RecordJson};
use crate::config;
use crate::config::{Config, ConfigError, ConfigErrorModel, SecretFile};
use crate::dns::DnsRecord;
use crate::edge_laws;
use crate::forward;
use crate::forward::{Arrival, Forwarder, PeerAddr, Route, Sending, Session, SessionTable};
use crate::http;
use crate::http::{ApiErr, NodeView, Status};
use crate::http_laws;
use crate::ids::Uuid;
use crate::model::{Agent, Endpoint, Node, NodeModel, Protocol, Service, ServiceModel, SrvSpec};
use crate::net;
use crate::net::{Hosts, Ipv4Net, NetError};
use crate::number;
use crate::plan;
use crate::plan::{PlanError, PlanErrorModel};
use crate::profile;
use crate::profile::{
    Profile, ProfileError, ProfileErrorModel, ProfileSet, ResolvedTemplate, ServerConfigHint,
};
use crate::profile_laws;
use crate::publish_laws;
use crate::state;
use crate::store;
use crate::store::{Store, StoreErrorModel};
use crate::table;
use crate::text;
use crate::text_laws;
use crate::token;
use crate::tunnel;
use crate::tunnel::{KernelTunnel, TunnelBackend, TunnelStep};
use crate::wgctl;
use crate::wgctl::{InterfaceConfig, PeerStatus};
use vstd::prelude::*;

verus! {

// ---- what is shown ------------------------------------------------------

/// The status is that of the configuration.
pub proof fn law_status_says_the_configuration(
    config: &Config,
    published: bool,
    r: Result<Status, ApiErr>,
)
    requires
        call_ensures(http::status, (config, published), r),
    ensures
        r is Ok <==> 1024 <= config.gateway.edge_port_range_start
            <= config.gateway.edge_port_range_end,
        r matches Err(e) ==> e.status == 500,
        r matches Ok(status) ==> {
            &&& status.zone@ == config.gateway.zone@
            &&& addr::ipv4_read(status.public_ip@) == Some(config.gateway.public_ip)
            &&& status.edge_port_range@ == number::decimal(
                config.gateway.edge_port_range_start as nat,
            ) + "-"@ + number::decimal(config.gateway.edge_port_range_end as nat)
            &&& status.cloudflare_enabled == published
            &&& status.nftables_enabled == config.nftables.enabled
        },
{
    http_laws::law_status_is_the_configuration(*config, published);
}

/// Every node is shown, with whether it was heard in the last three minutes and
/// how many services are on it.
pub proof fn law_nodes_are_shown(
    s: &Store,
    now: Timestamp,
    r: Result<Vec<NodeView>, ApiErr>,
    nodes: Seq<NodeModel>,
    services: Seq<ServiceModel>,
)
    requires
        call_ensures(http::list_nodes, (s, now), r),
        store::listed_nodes(s@) == Ok::<Seq<NodeModel>, StoreErrorModel>(nodes),
        store::listed_services(s@) == Ok::<Seq<ServiceModel>, StoreErrorModel>(services),
    ensures
        r is Ok,
        r->Ok_0@.len() == nodes.len(),
        forall|i: int|
            0 <= i < nodes.len() ==> {
                let shown = #[trigger] r->Ok_0@[i];
                &&& shown.node@ == nodes[i]
                &&& shown.online <==> (nodes[i].last_handshake matches Some(at) && now.unix_nanos
                    - at.unix_nanos < 180 * 1_000_000_000)
                &&& shown.service_count == services.filter(
                    |x: ServiceModel| x.node_id == nodes[i].id,
                ).len()
            },
{
    http_laws::law_every_node_is_shown(s@, now);
    let views = text::views(r->Ok_0@);
    assert(http::node_views(s@, now) == Ok::<Seq<http::NodeViewModel>, http::ApiErrModel>(views));
    assert forall|i: int| 0 <= i < nodes.len() implies {
        let shown = #[trigger] r->Ok_0@[i];
        &&& shown.node@ == nodes[i]
        &&& shown.online <==> (nodes[i].last_handshake matches Some(at) && now.unix_nanos
            - at.unix_nanos < 180 * 1_000_000_000)
        &&& shown.service_count == services.filter(|x: ServiceModel| x.node_id == nodes[i].id).len()
    } by {
        assert(views[i] == r->Ok_0@[i]@);
    }
}

/// Every service is shown, as it is shown alone.
pub proof fn law_services_are_shown(
    s: &Store,
    config: &Config,
    now: Timestamp,
    r: Result<Vec<ServiceView>, ApiErr>,
    nodes: Seq<NodeModel>,
    services: Seq<ServiceModel>,
)
    requires
        call_ensures(http::list_services, (s, config, now), r),
        store::listed_nodes(s@) == Ok::<Seq<NodeModel>, StoreErrorModel>(nodes),
        store::listed_services(s@) == Ok::<Seq<ServiceModel>, StoreErrorModel>(services),
    ensures
        r is Ok <==> forall|i: int|
            0 <= i < services.len() ==> store::ports_of(s@, (#[trigger] services[i]).id) is Ok,
        r matches Ok(views) ==> views@.len() == services.len() && forall|i: int|
            0 <= i < views@.len() ==> {
                let view = #[trigger] views@[i];
                &&& view.service@ == services[i]
                &&& view.fqdn@ == if services[i].subdomain == "@"@ {
                    config.gateway.zone@
                } else {
                    services[i].subdomain + "."@ + config.gateway.zone@
                }
                &&& view.dns_synced <==> store::dns_synced(s@, services[i].id) == Ok::<
                    bool,
                    StoreErrorModel,
                >(true)
            },
{
    http_laws::law_every_service_is_shown(s@, *config, services, nodes, now, services.len());
    let all = http::shown_all(s@, *config, services, nodes, now, services.len());
    assert forall|i: int| 0 <= i < services.len() implies (http::shown(
        s@,
        *config,
        #[trigger] services[i],
        nodes,
        now,
    ) is Ok <==> store::ports_of(s@, services[i].id) is Ok) by {
        http_laws::law_service_is_shown_with_its_node(s@, *config, services[i], nodes, now);
    }
    if let Ok(views) = r {
        let shown = text::views(views@);
        assert(all == Ok::<Seq<crate::api::ServiceViewModel>, http::ApiErrModel>(shown));
        assert forall|i: int| 0 <= i < views@.len() implies {
            let view = #[trigger] views@[i];
            &&& view.service@ == services[i]
            &&& view.fqdn@ == if services[i].subdomain == "@"@ {
                config.gateway.zone@
            } else {
                services[i].subdomain + "."@ + config.gateway.zone@
            }
            &&& view.dns_synced <==> store::dns_synced(s@, services[i].id) == Ok::<
                bool,
                StoreErrorModel,
            >(true)
        } by {
            assert(shown[i] == views@[i]@);
            http_laws::law_service_is_shown_with_its_node(s@, *config, services[i], nodes, now);
        }
    }
}

/// A service that is asked for is shown, and one that is not there is said not
/// to be.
pub proof fn law_one_service_is_shown(
    s: &Store,
    config: &Config,
    id: Uuid,
    now: Timestamp,
    r: Result<ServiceView, ApiErr>,
)
    requires
        call_ensures(http::show_stored_service, (s, config, id, now), r),
    ensures
        store::got_service(s@, id) == Err::<ServiceModel, StoreErrorModel>(
            StoreErrorModel::NotFound,
        ) ==> r is Err && r->Err_0.status == 404,
        store::got_service(s@, id) matches Ok(service) ==> r matches Ok(view) ==> view.service@
            == service && store::ports_of(s@, service.id) is Ok && view.ports@.len()
            == store::ports_of(s@, service.id)->Ok_0.len(),
{
    if let Ok(service) = store::got_service(s@, id) {
        if let Ok(nodes) = store::listed_nodes(s@) {
            http_laws::law_service_is_shown_with_its_node(s@, *config, service, nodes, now);
        }
    }
}

/// Players are told the host, and the port wherever no SRV record says it.
pub proof fn law_players_are_told_where(e: &Endpoint, r: String)
    requires
        call_ensures(Endpoint::to_string, (e,), r),
    ensures
        e.port_implied_by_srv ==> r@ == e.host@,
        !e.port_implied_by_srv ==> r@ == e.host@ + ":"@ + number::decimal(e.port as nat),
{
}

/// A service's name is its subdomain under the zone, or the zone itself.
pub proof fn law_service_is_named_under_the_zone(s: &Service, zone: &str, r: String)
    requires
        call_ensures(Service::fqdn, (s, zone), r),
    ensures
        s.subdomain@ == "@"@ ==> r@ == zone@,
        s.subdomain@ != "@"@ ==> r@ == s.subdomain@ + "."@ + zone@,
{
}

/// A node is online where it was heard less than three minutes ago.
pub proof fn law_heard_nodes_are_online(node: &Node, now: Timestamp, r: bool)
    requires
        call_ensures(Node::is_online, (node, now), r),
    ensures
        r <==> (node.last_handshake matches Some(at) && now.unix_nanos - at.unix_nanos < 180
            * 1_000_000_000),
{
}

// ---- what may be asked --------------------------------------------------

/// A subdomain is taken in as it is normalised, or refused as it was written.
pub proof fn law_subdomains_are_normalised(raw: &str, r: Result<String, PlanError>)
    requires
        call_ensures(plan::normalize_subdomain, (raw,), r),
    ensures
        r is Ok <==> plan::subdomain_of(raw@) is Some,
        r matches Ok(label) ==> plan::subdomain_of(raw@) == Some(label@),
        r matches Err(e) ==> e@ == PlanErrorModel::InvalidSubdomain(raw@),
{
}

/// A host is taken in as it is normalised, or refused as it was written.
pub proof fn law_hosts_are_normalised(raw: &str, r: Result<String, PlanError>)
    requires
        call_ensures(plan::normalize_local_host, (raw,), r),
    ensures
        r is Ok <==> plan::local_host_of(raw@) is Some,
        r matches Ok(host) ==> plan::local_host_of(raw@) == Some(host@),
        r matches Err(e) ==> e@ == PlanErrorModel::InvalidLocalHost(raw@),
{
}

/// A mapping has an SRV record where one is asked for, and it is the one that
/// Minecraft clients look for.
pub proof fn law_srv_is_for_minecraft(req: &AddPortRequest, r: Option<SrvSpec>)
    requires
        call_ensures(plan::srv_for, (req,), r),
    ensures
        r is Some <==> req.minecraft_srv,
        r matches Some(srv) ==> srv.service@ == "_minecraft"@ && srv.proto@ == "_tcp"@
            && srv.priority == 0 && srv.weight == 5,
{
}

// ---- the device ---------------------------------------------------------

/// The gateway's file begins with its own device and has a section for every
/// agent, under the agent's key and for its address alone.
pub proof fn law_written_gateway_config_has_every_agent(
    iface: &InterfaceConfig,
    agents: &[Agent],
    r: String,
    i: int,
)
    requires
        call_ensures(wgctl::render_config, (iface, agents), r),
        0 <= i < agents@.len(),
    ensures
        exists|before: Seq<char>, after: Seq<char>|
            r@ == #[trigger] (before + ("\n"@ + "# "@ + agents@[i].name@ + "\n"@ + "[Peer]\n"@
                + "PublicKey = "@ + agents@[i].public_key@ + "\n"@ + "AllowedIPs = "@
                + addr::ipv4_text(agents@[i].tunnel_ip) + "/32\n"@) + after),
{
    let all = text::views(agents@);
    assert(all[i] == agents@[i]@);
    wgctl::law_every_agent_is_a_peer(iface@, all, i);
    let (before, after) = choose|before: Seq<char>, after: Seq<char>|
        wgctl::config_text(iface@, all) == #[trigger] (before + wgctl::peer_text(all[i]) + after);
    assert(r@ == before + wgctl::peer_text(all[i]) + after);
}

/// What went wrong with `wg-quick` is told with what it said.
pub proof fn law_tunnel_failures_are_told(action: &str, output: &str, r: String)
    requires
        call_ensures(tunnel::failure_text, (action, output), r),
    ensures
        r@ == "wg-quick "@ + action@ + " failed: "@ + text::trim(output@),
{
}

/// The agent's device is named by its file, in the directory it is given.
pub proof fn law_tunnel_file_is_named_after_the_interface(
    interface: &str,
    dir: &str,
    r: KernelTunnel,
)
    requires
        call_ensures(KernelTunnel::new, (interface, dir), r),
    ensures
        r.path() == config::joined(dir@, interface@ + ".conf"@),
{
}

/// A tunnel is brought up from a fresh file: written, taken down where it was
/// up, and put up.
pub proof fn law_tunnel_is_brought_up_afresh(
    t: &KernelTunnel,
    c: &TunnelConfig,
    private_key: &str,
    r: Vec<TunnelStep>,
)
    requires
        call_ensures(<KernelTunnel as TunnelBackend>::bring_up, (t, c, private_key), r),
    ensures
        r@.len() == 3,
        r@[0] matches TunnelStep::WritePrivate { path, contents } && path@ == t.path()
            && text_laws::has_part(contents@, "PublicKey = "@ + c.gateway_public_key@ + "\n"@)
            && text_laws::has_part(contents@, "PrivateKey = "@ + private_key@ + "\n"@),
        r@[1] matches TunnelStep::Try { action, path } && action@ == "down"@ && path@ == t.path(),
        r@[2] matches TunnelStep::Run { action, path } && action@ == "up"@ && path@ == t.path(),
{
    let steps = tunnel::up_steps(t.path(), c@, private_key@);
    edge_laws::law_tunnel_comes_up_in_order(t.path(), c@, private_key@);
    assert(text::views(r@) == steps);
    assert(steps.len() == r@.len());
    assert(steps[0] == r@[0]@);
    assert(steps[1] == r@[1]@);
    assert(steps[2] == r@[2]@);
}

/// A tunnel is taken down by its file.
pub proof fn law_tunnel_is_taken_down(t: &KernelTunnel, r: Vec<TunnelStep>)
    requires
        call_ensures(<KernelTunnel as TunnelBackend>::tear_down, (t,), r),
    ensures
        r@.len() == 1,
        r@[0] matches TunnelStep::Run { action, path } && action@ == "down"@ && path@ == t.path(),
{
    assert(text::views(r@).len() == r@.len());
    assert(text::views(r@)[0] == r@[0]@);
}

/// Of a dump every line but the first that has enough columns is a peer, under
/// the key in its first column.
pub proof fn law_dump_is_read_line_by_line(dump: &str, r: Vec<PeerStatus>)
    requires
        call_ensures(wgctl::parse_dump, (dump,), r),
    ensures
        text::lines(dump@).len() == 0 ==> r@.len() == 0,
        text::lines(dump@).len() > 0 ==> {
            let telling = text::lines(dump@).drop_first().filter(edge_laws::tells_of_a_peer());
            &&& r@.len() == telling.len()
            &&& forall|k: int|
                0 <= k < r@.len() ==> Some((#[trigger] r@[k])@) == wgctl::status_of(telling[k])
        },
{
    edge_laws::law_dump_tells_of_each_peer(dump@);
    let peers = wgctl::dump_statuses(dump@);
    assert(text::views(r@) == peers);
    assert(peers.len() == r@.len());
    assert(forall|k: int| 0 <= k < r@.len() ==> peers[k] == (#[trigger] r@[k])@);
}

// ---- listeners and flows ------------------------------------------------

/// A listener that was started is served, beside every other but the one on its
/// own port.
pub proof fn law_started_listener_is_served(
    f: &mut Forwarder,
    new: Forward,
    x: crate::api::ForwardModel,
)
    requires
        call_ensures(Forwarder::started, (f, new), ()),
    ensures
        final(f)@.contains(x) <==> x == new@ || old(f)@.contains(x) && (x.protocol != new.protocol
            || x.tunnel_port != new.tunnel_port),
{
    let rest = old(f)@.filter(forward::without_key(forward::key_of(new@)));
    table::lemma_filter_members(old(f)@, forward::without_key(forward::key_of(new@)));
    table::lemma_place_members(rest, new@, table::le_of::<Forward>());
}

/// A listener that was stopped is served no more, and every other still is.
pub proof fn law_stopped_listener_is_gone(
    f: &mut Forwarder,
    protocol: Protocol,
    port: u16,
    x: crate::api::ForwardModel,
)
    requires
        call_ensures(Forwarder::stopped, (f, protocol, port), ()),
    ensures
        final(f)@.contains(x) <==> old(f)@.contains(x) && (x.protocol != protocol || x.tunnel_port
            != port),
{
    table::lemma_filter_members(old(f)@, forward::without_key((protocol, port)));
}

/// A listener is stopped where the assignment no longer says what it serves.
pub proof fn law_changed_listeners_are_stale(
    f: &Forwarder,
    forwards: &[Forward],
    r: Vec<(Protocol, u16)>,
    k: int,
)
    requires
        call_ensures(Forwarder::stale, (f, forwards), r),
        0 <= k < f@.len(),
        !(exists|i: int|
            0 <= i < forwards@.len() && #[trigger] text::views(forwards@)[i] == f@[k]
                && agent_laws::last_of_its_port(text::views(forwards@), i)),
    ensures
        r@.contains((f@[k].protocol, f@[k].tunnel_port)),
{
    let all = text::views(forwards@);
    agent_laws::law_a_listener_stops_where_it_changed(f@, all, k);
    let over = f@.filter(forward::in_the_way(all));
    assert(over.contains(f@[k]));
    let j = choose|j: int| 0 <= j < over.len() && over[j] == f@[k];
    assert(r@[j] == forward::key_of(over[j]));
}

/// A packet reuses its peer's flow where that was heard within the minute.
pub proof fn law_packets_reuse_live_flows(
    t: &mut SessionTable,
    peer: PeerAddr,
    now: u64,
    r: Arrival,
    s: Session,
)
    requires
        call_ensures(SessionTable::arrived, (t, peer, now), r),
        old(t)@.contains(s),
        s.peer == peer,
        now - s.seen < 60 * 1_000_000_000,
    ensures
        r.route == Route::Reuse,
        final(t)@.contains(s),
{
    let before = old(t)@;
    let kept = before.filter(forward::still_heard(now));
    table::lemma_filter_members(before, forward::still_heard(now));
    assert(kept.contains(s));
    let k = choose|k: int| 0 <= k < kept.len() && kept[k] == s;
    assert(forward::of_peer(peer)(kept[k]));
}

/// A flow that is heard is heard at that moment, and no other flow changes.
pub proof fn law_heard_flow_is_the_peers(
    t: &mut SessionTable,
    peer: PeerAddr,
    now: u64,
    other: Session,
)
    requires
        call_ensures(SessionTable::heard, (t, peer, now), ()),
    ensures
        other.peer != peer ==> (final(t)@.contains(other) <==> old(t)@.contains(other)),
        other.peer == peer ==> (final(t)@.contains(other) <==> other.seen == now),
{
    agent_laws::law_sending_touches_one_flow(old(t)@, peer, now, Sending::Sent, other);
}

/// A flow that is dropped is gone, and no other flow changes.
pub proof fn law_dropped_flow_is_gone(t: &mut SessionTable, peer: PeerAddr, other: Session)
    requires
        call_ensures(SessionTable::drop_session, (t, peer), ()),
    ensures
        final(t)@.contains(other) <==> old(t)@.contains(other) && other.peer != peer,
{
    table::lemma_filter_members(old(t)@, forward::not_of_peer(peer));
}

/// Listeners are listed by protocol and port, each once, TCP first.
pub proof fn law_active_listeners_are_listed(f: &Forwarder, r: Vec<(Protocol, u16)>)
    requires
        call_ensures(Forwarder::active, (f,), r),
    ensures
        r@.len() == f@.len(),
        forall|i: int|
            0 <= i < r@.len() ==> #[trigger] r@[i] == (f@[i].protocol, f@[i].tunnel_port),
        forall|i: int, j: int|
            0 <= i < j < r@.len() ==> {
                let a = #[trigger] r@[i];
                let b = #[trigger] r@[j];
                if a.0 == b.0 {
                    a.1 < b.1
                } else {
                    a.0 == Protocol::Tcp && b.0 == Protocol::Udp
                }
            },
{
    assert forall|i: int, j: int| 0 <= i < j < r@.len() implies {
        let a = #[trigger] r@[i];
        let b = #[trigger] r@[j];
        if a.0 == b.0 {
            a.1 < b.1
        } else {
            a.0 == Protocol::Tcp && b.0 == Protocol::Udp
        }
    } by {
        agent_laws::law_listeners_are_listed_in_order(f@, i, j);
    }
}

// ---- configuration ------------------------------------------------------

/// The database and the device's file lie in the data directory.
pub proof fn law_files_lie_in_the_data_directory(c: &Config, a: String, b: String)
    requires
        call_ensures(Config::database_path, (c,), a),
        call_ensures(Config::wireguard_config_path, (c,), b),
    ensures
        a@ == config::joined(c.gateway.data_dir@, "portal.db"@),
        b@ == config::joined(c.gateway.data_dir@, c.tunnel.interface@ + ".conf"@),
{
}

/// A port is reserved where the gateway itself needs it, or the operator said
/// so.
pub proof fn law_reserved_ports_are_kept_clear(
    c: &Config,
    r: Vec<(Protocol, u16)>,
    protocol: Protocol,
    port: u16,
)
    requires
        call_ensures(Config::reserved_ports, (c,), r),
    ensures
        r@.contains((protocol, port)) <==> {
            ||| protocol == Protocol::Tcp && (port == 22 || port == c.gateway.listen.port
                || c.gateway.reserved_tcp_ports@.contains(port))
            ||| protocol == Protocol::Udp && (port == c.tunnel.listen_port
                || c.gateway.reserved_udp_ports@.contains(port))
        },
{
    http_laws::law_reserved_ports_are_these(*c, protocol, port);
}

/// The Cloudflare token is the one in the environment, otherwise the one in the
/// file, and cannot be done without.
pub proof fn law_cloudflare_needs_its_token(
    c: &Config,
    env: Option<&str>,
    file: &SecretFile,
    r: Result<String, ConfigError>,
)
    requires
        call_ensures(Config::cloudflare_token, (c, env, file), r),
    ensures
        env matches Some(raw) ==> !text_laws::blank(raw@) ==> r is Ok && r->Ok_0@ == text::trim(
            raw@,
        ),
        env is None || text_laws::blank(env->0@) ==> match *file {
            SecretFile::NotNamed => r is Err && r->Err_0@ is MissingSecret,
            SecretFile::Unreadable { path, source } => r is Err && r->Err_0@ == (
            ConfigErrorModel::SecretFile { path: path@, source: source@ }),
            SecretFile::Contents(raw) => if text_laws::blank(raw@) {
                r is Err && r->Err_0@ is MissingSecret
            } else {
                r is Ok && r->Ok_0@ == text::trim(raw@)
            },
        },
{
    http_laws::law_secrets_are_found_in_order(config::opt_str(env), file@);
}

/// A configuration is refused where its ports are no range or its gateway is
/// outside its tunnel.
pub proof fn law_configurations_are_validated(c: &Config, r: Result<(), ConfigError>)
    requires
        call_ensures(Config::validate, (c,), r),
    ensures
        r is Ok <==> {
            &&& 1024 <= c.gateway.edge_port_range_start <= c.gateway.edge_port_range_end
            &&& net::network_of(c.tunnel.gateway_ip, c.tunnel.subnet.len())
                == c.tunnel.subnet.network()
        },
{
    http_laws::law_sound_configurations_are_accepted(*c);
}

/// A configuration is as it was written, with what was not written as
/// documented, and is taken in where its ports are a range and its gateway is in
/// its tunnel.
pub proof fn law_written_configuration_is_taken_in(
    raw: config::RawConfig,
    r: Result<Config, ConfigError>,
    start: u16,
    end: u16,
    ip: Ipv4Addr,
    subnet: Ipv4Net,
)
    requires
        call_ensures(Config::from_raw, (raw,), r),
        raw.gateway.edge_port_range_start == Some(start),
        raw.gateway.edge_port_range_end == Some(end),
        raw.tunnel.gateway_ip == Some(ip),
        raw.tunnel.subnet == Some(subnet),
    ensures
        r is Ok <==> 1024 <= start <= end && net::network_of(ip, subnet.len()) == subnet.network(),
        r matches Ok(c) ==> {
            &&& c.gateway.public_ip == raw.gateway.public_ip
            &&& c.gateway.zone@ == raw.gateway.zone@
            &&& c.gateway.edge_port_range_start == start
            &&& c.gateway.edge_port_range_end == end
            &&& c.tunnel.gateway_ip == ip
            &&& c.tunnel.subnet == subnet
            &&& c.tunnel.endpoint@ == raw.tunnel.endpoint@
            &&& raw.tunnel.listen_port matches Some(p) ==> c.tunnel.listen_port == p
            &&& raw.tunnel.listen_port is None ==> c.tunnel.listen_port == 51820
        },
{
    if let Ok(c) = r {
        http_laws::law_documented_defaults(raw, c);
        http_laws::law_sound_configurations_are_accepted(c);
    } else {
        let c = choose|c: Config| #[trigger]
            config::completes(raw, c) && config::config_fault(c) == Some(r->Err_0@);
        http_laws::law_documented_defaults(raw, c);
        http_laws::law_sound_configurations_are_accepted(c);
    }
}

/// Where an agent keeps its state when it is told a directory, and when not.
pub proof fn law_state_has_its_place(r: String, dir: &str, s: String)
    requires
        call_ensures(state::default_state_path, (None,), r),
        call_ensures(state::default_state_path, (Some(dir),), s),
    ensures
        r@ == "/var/lib/portal-agent/agent.json"@,
        s@ == config::joined(dir@, "agent.json"@),
{
}

// ---- networks -----------------------------------------------------------

/// A network is made of an address by clearing what lies beyond its prefix,
/// which is at most thirty-two bits long.
pub proof fn law_networks_are_made_of_addresses(
    a: Ipv4Addr,
    len: u8,
    r: Result<Ipv4Net, NetError>,
)
    requires
        call_ensures(Ipv4Net::new, (a, len), r),
    ensures
        r is Ok <==> len <= 32,
        r matches Ok(n) ==> n.network() == net::network_of(a, len) && n.len() == len,
{
}

/// An address is in a network where clearing what lies beyond the prefix gives
/// the network.
pub proof fn law_networks_hold_their_addresses(n: Ipv4Net, a: Ipv4Addr, r: bool)
    requires
        call_ensures(Ipv4Net::contains, (n, a), r),
    ensures
        r <==> net::network_of(a, n.len()) == n.network(),
{
}

/// A network's hosts are listed from the one after its address to the one before
/// its last.
pub proof fn law_hosts_are_listed_in_order(n: Ipv4Net, h: Hosts, v: Vec<Ipv4Addr>)
    requires
        call_ensures(Ipv4Net::hosts, (n,), h),
        call_ensures(Hosts::to_vec, (&h,), v),
    ensures
        net::block_size(n.len()) <= 2 ==> v@.len() == 0,
        net::block_size(n.len()) > 2 ==> v@.len() == net::block_size(n.len()) - 2,
        forall|i: int| 0 <= i < v@.len() ==> (#[trigger] v@[i]).bits == n.network().bits + 1 + i,
{
}

// ---- public ports -------------------------------------------------------

/// A port is in a range where it lies between its ends, or is one of them.
pub proof fn law_range_contains_its_ports(range: EdgePortRange, port: u16, r: bool)
    requires
        call_ensures(EdgePortRange::contains, (range, port), r),
    ensures
        r <==> range.first() <= port <= range.last(),
{
}

/// A port that is reserved is taken from then on, and the caller is told whether
/// it was free; one that is released is free again.
pub proof fn law_reserved_ports_are_taken(
    a: &mut PortAllocator,
    protocol: Protocol,
    port: u16,
    r: bool,
    k: (Protocol, u16),
)
    requires
        call_ensures(PortAllocator::reserve, (a, protocol, port), r),
    ensures
        r <==> !old(a)@.contains((protocol, port)),
        final(a)@.contains(k) <==> k == (protocol, port) || old(a)@.contains(k),
{
}

/// A port that is released is free again, and every other stays as it was.
pub proof fn law_released_ports_are_free(
    a: &mut PortAllocator,
    protocol: Protocol,
    port: u16,
    k: (Protocol, u16),
)
    requires
        call_ensures(PortAllocator::release, (a, protocol, port), ()),
    ensures
        final(a)@.contains(k) <==> k != (protocol, port) && old(a)@.contains(k),
{
}

// ---- Cloudflare ---------------------------------------------------------

/// What is sent of a record is the record.
pub proof fn law_sent_record_is_the_record(record: &DnsRecord, r: Payload)
    requires
        call_ensures(cloudflare::to_payload, (record,), r),
    ensures
        r.proxied == Some(false),
        *record matches DnsRecord::A { name, address, ttl } ==> {
            &&& r.kind@ == "A"@
            &&& r.name@ == name@
            &&& r.ttl == ttl
            &&& r.data is None
            &&& r.content matches Some(content) && addr::ipv4_read(content@) == Some(address)
        },
        *record matches DnsRecord::Srv { name, target, port, priority, weight, ttl } ==> {
            &&& r.kind@ == "SRV"@
            &&& r.name@ == name@
            &&& r.ttl == ttl
            &&& r.content is None
            &&& r.data matches Some(d) && d.port == port && d.priority == priority && d.weight
                == weight && d.target@ == target@
        },
{
    publish_laws::law_payload_is_the_record(record@);
    assert(r@ == cloudflare::payload_of(record@));
}

/// A listed record is understood as what it says, where it says something we
/// publish.
pub proof fn law_listed_record_is_read(json: &RecordJson, r: Option<DnsRecord>)
    requires
        call_ensures(cloudflare::to_dns_record, (json,), r),
    ensures
        text::opt_view(r) == cloudflare::record_of(json@),
        json.kind@ == "A"@ && addr::ipv4_read(json.content@) is Some ==> r is Some && r->0 is A,
        json.kind@ == "SRV"@ && json.data is Some ==> r is Some && r->0 is Srv,
        json.kind@ != "A"@ && json.kind@ != "SRV"@ ==> r is None,
{
    publish_laws::law_listed_records_are_understood(json@);
}

/// Pages are asked for one after the other, a hundred records at a time.
pub proof fn law_pages_are_asked_for_by_number(l: &Listing, c: &Cloudflare, r: String)
    requires
        call_ensures(Listing::url, (l, c), r),
    ensures
        r@ == "https://api.cloudflare.com/client/v4/zones/"@ + c.zone_id@ + "/dns_records"@ + (
        "?per_page="@ + number::decimal(100) + "&page="@) + number::decimal(l.next_page() as nat),
{
    publish_laws::law_pages_are_asked_for_in_full(c.zone_id@, l.next_page() as nat);
}

// ---- profiles and tokens ------------------------------------------------

/// Profiles are read from YAML files.
pub proof fn law_profiles_are_yaml(extension: &str, r: bool, s: bool)
    requires
        call_ensures(profile::is_profile_extension, (Some(extension),), r),
        call_ensures(profile::is_profile_extension, (None,), s),
    ensures
        r <==> extension@ == "yaml"@ || extension@ == "yml"@,
        !s,
{
}

/// A profile is valid where its templates have ids of their own.
pub proof fn law_profiles_are_validated(p: &Profile, r: Result<(), ProfileError>)
    requires
        call_ensures(Profile::validate, (p,), r),
    ensures
        r is Ok <==> profile_laws::ids_apart(p@.ports),
        r matches Err(e) ==> (e@ matches ProfileErrorModel::DuplicateTemplate(id, _) && id == p.id@),
{
    profile_laws::law_repeated_templates_are_found(p@.ports);
}

/// Profiles are listed by id, each id once.
pub proof fn law_profiles_are_listed_by_id<'a>(set: &'a ProfileSet, r: Vec<&'a Profile>)
    requires
        call_ensures(ProfileSet::iter, (set,), r),
    ensures
        r@.len() == set@.len(),
        forall|i: int, j: int|
            0 <= i < j < r@.len() ==> text::text_le(
                (#[trigger] r@[i]).id@,
                (#[trigger] r@[j]).id@,
            ) && r@[i].id@ != r@[j].id@,
{
    assert(text::views(r@).len() == r@.len());
    assert forall|i: int, j: int| 0 <= i < j < r@.len() implies text::text_le(
        (#[trigger] r@[i]).id@,
        (#[trigger] r@[j]).id@,
    ) && r@[i].id@ != r@[j].id@ by {
        assert(set@[i] == r@[i]@ && set@[j] == r@[j]@);
    }
}

/// A profile is got by its id.
pub proof fn law_profile_is_got_by_id<'a>(set: &'a ProfileSet, id: &str, r: Option<&'a Profile>)
    requires
        call_ensures(ProfileSet::get, (set, id), r),
    ensures
        r matches Some(p) ==> p.id@ == id@ && set@.contains(p@),
        r is None ==> forall|i: int| 0 <= i < set@.len() ==> (#[trigger] set@[i]).id != id@,
{
    let p = profile::profile_with_id(id@);
    table::lemma_first(set@, p);
    if r is None {
        assert forall|i: int| 0 <= i < set@.len() implies (#[trigger] set@[i]).id != id@ by {
            assert(!p(set@[i]));
        }
    }
}

/// A selection is every template of every profile in it, where no two want one
/// port.
pub proof fn law_selection_is_resolved<'a>(
    set: &'a ProfileSet,
    ids: &[String],
    r: Result<Vec<ResolvedTemplate<'a>>, ProfileError>,
    chosen: Seq<profile::ProfileModel>,
)
    requires
        call_ensures(ProfileSet::resolve, (set, ids), r),
        profile::keyed(set@),
        profile_laws::chosen_by(set@, text::views(ids@), chosen),
    ensures
        r is Ok <==> profile::ports_apart(profile_laws::all_templates(chosen)),
        r matches Ok(v) ==> text::views(v@) == profile_laws::all_templates(chosen),
{
    profile_laws::law_selection_is_every_template(set@, text::views(ids@), chosen);
}

/// A hint names the host and the public port where its template says so.
pub proof fn law_hint_names_host_and_port(
    hint: &ServerConfigHint,
    host: &str,
    edge_port: u16,
    r: String,
    a: Seq<char>,
    b: Seq<char>,
    c: Seq<char>,
)
    requires
        call_ensures(ServerConfigHint::render, (hint, host, edge_port), r),
        hint.value_template@ == a + "{host}"@ + (b + "{edge_port}"@ + c),
        profile_laws::braceless(a),
        profile_laws::braceless(b),
        profile_laws::braceless(c),
        profile_laws::braceless(host@),
    ensures
        r@ == a + host@ + b + number::decimal(edge_port as nat) + c,
{
    profile_laws::law_hints_name_host_and_port(a, b, c, host@, edge_port);
}

/// A token is let through exactly where its hash is the stored one.
pub proof fn law_tokens_are_verified_by_hash(presented: &str, stored: &str, r: bool, h: String)
    requires
        call_ensures(token::verify, (presented, stored), r),
        call_ensures(token::hash, (presented,), h),
    ensures
        r <==> h@ == stored@,
        h@.len() == 64,
{
}

} // verus!
