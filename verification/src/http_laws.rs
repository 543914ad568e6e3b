//! What the API answers, and what it leaves behind, for every request.

use crate::addr;
use crate::allocator::{AllocError, EdgePortRange};
use crate::api::{AddPortRequestModel, CreateServiceRequest, ForwardModel, ServiceViewModel};
use crate::clock;
use crate::clock::Timestamp;
use crate::config;
use crate::config::Config;
use crate::dns::DnsRecordModel;
use crate::http;
use crate::http::ApiErrModel;
use crate::ids;
use crate::ids::Uuid;
use crate::model;
use crate::model::{NodeModel, PortMappingModel, Protocol, ServiceModel, SrvSpecModel};
use crate::number;
use crate::plan;
use crate::plan::PlanErrorModel;
use crate::plan_laws;
use crate::rows;
use crate::rows::NodeRowModel;
use crate::store;
use crate::store::{StoreErrorModel, StoreModel};
use crate::table;
use crate::text;
use crate::text_laws;
use crate::token;
use crate::traffic_laws;
use crate::wg;
use crate::wgctl::PeerStatusModel;
use vstd::prelude::*;

verus! {

// ---- who is let in ------------------------------------------------------

/// A header carries what follows the word `Bearer` and a blank, without the
/// space around it; without that word it carries nothing.
pub proof fn law_bearer_is_what_follows_the_word(header: Seq<char>, rest: Seq<char>)
    ensures
        http::bearer_of(None) is None,
        http::bearer_of(Some("Bearer "@ + rest)) == Some(text::trim(rest)),
        http::bearer_of(Some(header)) is Some ==> exists|tail: Seq<char>|
            header == #[trigger] ("Bearer "@ + tail),
{
    let whole = "Bearer "@ + rest;
    let n = "Bearer "@.len() as int;
    assert("Bearer "@ =~= whole.subrange(0, n));
    assert(whole.skip(n) =~= rest);
    if http::bearer_of(Some(header)) is Some {
        assert(header =~= "Bearer "@ + header.skip(n));
    }
}

/// The operator is let in by the admin token and by nothing whose hash is
/// another: a header is accepted exactly where what it carries has the hash of
/// the token.
pub proof fn law_only_the_admin_token_lets_in(
    header: Option<Seq<char>>,
    admin_token: Seq<char>,
)
    ensures
        http::is_admin(header, admin_token) <==> exists|rest: Seq<char>|
            header == Some(#[trigger] ("Bearer "@ + rest)) && token::token_hash(text::trim(rest))
                == token::token_hash(admin_token),
        http::is_admin(None, admin_token) == false,
{
    if let Some(h) = header {
        if http::bearer_of(header) is Some {
            law_bearer_is_what_follows_the_word(h, Seq::empty());
            let tail = choose|tail: Seq<char>| h == #[trigger] ("Bearer "@ + tail);
            law_bearer_is_what_follows_the_word(h, tail);
        }
        if exists|rest: Seq<char>|
            header == Some(#[trigger] ("Bearer "@ + rest)) && token::token_hash(text::trim(rest))
                == token::token_hash(admin_token) {
            let rest = choose|rest: Seq<char>|
                header == Some(#[trigger] ("Bearer "@ + rest)) && token::token_hash(
                    text::trim(rest),
                ) == token::token_hash(admin_token);
            law_bearer_is_what_follows_the_word(h, rest);
        }
    }
}

/// An agent is let in as the node whose key it carries. Without a key, or with
/// one that is nobody's, it is told that it is not authorized and nothing more.
pub proof fn law_an_agent_is_its_node(s: StoreModel, header: Option<Seq<char>>)
    requires
        s.valid(),
    ensures
        http::node_in(s, header) matches Ok(node) ==> exists|i: int, rest: Seq<char>|
            #![trigger s.nodes[i], "Bearer "@ + rest]
            0 <= i < s.nodes.len() && header == Some("Bearer "@ + rest) && s.nodes[i].key_hash
                == token::token_hash(text::trim(rest)) && rows::node_of(s.nodes[i]) == Ok::<
                NodeModel,
                StoreErrorModel,
            >(node),
        http::bearer_of(header) is None ==> http::node_in(s, header) == Err::<
            NodeModel,
            ApiErrModel,
        >(ApiErrModel { status: 401, message: "unauthorized"@ }),
        http::bearer_of(header) matches Some(key) ==> (forall|i: int|
            0 <= i < s.nodes.len() ==> (#[trigger] s.nodes[i]).key_hash != token::token_hash(key))
            ==> http::node_in(s, header) == Err::<NodeModel, ApiErrModel>(
            ApiErrModel { status: 401, message: "unauthorized"@ },
        ),
        forall|i: int|
            0 <= i < s.nodes.len() && (http::bearer_of(header) matches Some(key)
                && (#[trigger] s.nodes[i]).key_hash == token::token_hash(key) && rows::node_of(
                s.nodes[i],
            ) is Ok) ==> http::node_in(s, header) is Ok && rows::node_of(s.nodes[i]) == Ok::<
                NodeModel,
                StoreErrorModel,
            >(http::node_in(s, header)->Ok_0),
{
    if let Some(key) = http::bearer_of(header) {
        traffic_laws::law_a_key_lets_its_node_in(s, key);
        let h = header->0;
        law_bearer_is_what_follows_the_word(h, Seq::empty());
        let tail = choose|tail: Seq<char>| h == #[trigger] ("Bearer "@ + tail);
        law_bearer_is_what_follows_the_word(h, tail);
        if let Ok(node) = http::node_in(s, header) {
            let p = store::node_with_hash(token::token_hash(key));
            table::lemma_first(s.nodes, p);
            let i = choose|i: int| 0 <= i < s.nodes.len() && p(#[trigger] s.nodes[i]);
            assert(s.nodes[i].key_hash == token::token_hash(key));
            assert(rows::node_of(s.nodes[i]) == Ok::<NodeModel, StoreErrorModel>(node));
            assert(header == Some("Bearer "@ + tail));
        }
    }
}

/// A caller is told what it can do something about: what is missing, what is
/// taken, that the network is full. What went wrong inside is not told.
pub proof fn law_errors_have_their_status(e: StoreErrorModel, p: PlanErrorModel)
    ensures
        http::store_err(e).status == (match e {
            StoreErrorModel::NotFound => 404u16,
            StoreErrorModel::Conflict(_) => 409u16,
            StoreErrorModel::SubnetExhausted => 409u16,
            _ => 500u16,
        }),
        http::store_err(e).status == 500 ==> http::store_err(e).message == "internal error"@,
        e == StoreErrorModel::NotFound ==> http::store_err(e).message == "not found"@,
        e matches StoreErrorModel::Conflict(what) ==> http::store_err(e).message == what
            + " is already taken"@,
        e == StoreErrorModel::SubnetExhausted ==> http::store_err(e).message
            == "the tunnel subnet has no free addresses left"@,
        http::plan_err(p).status == 400,
        http::plan_err(p).message == plan::plan_error_text(p),
        p matches PlanErrorModel::InvalidSubdomain(s) ==> http::plan_err(p).message == "`"@ + s
            + "` is not a valid subdomain label"@,
        p matches PlanErrorModel::InvalidLocalHost(s) ==> http::plan_err(p).message == "`"@ + s
            + "` is not a valid address for the server behind the node"@,
        p == PlanErrorModel::InvalidPort ==> http::plan_err(p).message
            == "port numbers must be between 1 and 65535"@,
        p matches PlanErrorModel::Alloc(AllocError::FixedPortTaken { protocol, port })
            ==> text_laws::has_part(
            http::plan_err(p).message,
            protocol.name() + " port "@ + number::decimal(port as nat),
        ),
        p matches PlanErrorModel::Alloc(AllocError::RangeExhausted { protocol, start, end })
            ==> text_laws::has_part(
            http::plan_err(p).message,
            number::decimal(start as nat) + "-"@ + number::decimal(end as nat),
        ) && text_laws::has_part(http::plan_err(p).message, protocol.name()),
{
    match p {
        PlanErrorModel::Alloc(AllocError::FixedPortTaken { protocol, port }) => {
            let what = protocol.name() + " port "@ + number::decimal(port as nat);
            let rest =
                " cannot be moved (clients of this game cannot be told a different port) and is already in use"@;
            assert(http::plan_err(p).message =~= Seq::<char>::empty() + what + rest);
        },
        PlanErrorModel::Alloc(AllocError::RangeExhausted { protocol, start, end }) => {
            let range = number::decimal(start as nat) + "-"@ + number::decimal(end as nat);
            let head = "no free "@ + protocol.name() + " port left in the edge range "@;
            assert(http::plan_err(p).message =~= head + range + Seq::<char>::empty());
            assert(http::plan_err(p).message =~= "no free "@ + protocol.name() + (
            " port left in the edge range "@ + range));
        },
        _ => {},
    }
}

// ---- what is shown ------------------------------------------------------

/// The status is what the gateway is set up with.
pub proof fn law_status_is_the_configuration(config: Config, cloudflare_enabled: bool)
    ensures
        ({
            let status = http::status_of(config, cloudflare_enabled);
            &&& status.zone == config.gateway.zone@
            &&& addr::ipv4_read(status.public_ip) == Some(config.gateway.public_ip)
            &&& status.edge_port_range == number::decimal(
                config.gateway.edge_port_range_start as nat,
            ) + "-"@ + number::decimal(config.gateway.edge_port_range_end as nat)
            &&& status.cloudflare_enabled == cloudflare_enabled
            &&& status.nftables_enabled == config.nftables.enabled
        }),
        http::range_ok(config) <==> 1024 <= config.gateway.edge_port_range_start
            && config.gateway.edge_port_range_start <= config.gateway.edge_port_range_end,
        http::port_range(config) == EdgePortRange::between(
            config.gateway.edge_port_range_start,
            config.gateway.edge_port_range_end,
        ),
{
    addr::law_ipv4_round_trip(config.gateway.public_ip);
}

/// A node is online where it was heard less than three minutes ago, and never
/// where it was not heard at all.
pub proof fn law_online_means_heard_lately(at: Timestamp, now: Timestamp)
    ensures
        model::online(Some(at), now) <==> now.unix_nanos - at.unix_nanos < 180 * 1_000_000_000,
        !model::online(None, now),
{
}

/// Every node is shown, in its place, as it is stored; online where it was
/// heard lately, and with the number of services that run on it.
pub proof fn law_every_node_is_shown(s: StoreModel, now: Timestamp)
    ensures
        http::node_views(s, now) matches Ok(views) ==> {
            let nodes = store::listed_nodes(s)->Ok_0;
            let services = store::listed_services(s)->Ok_0;
            &&& store::listed_nodes(s) is Ok && store::listed_services(s) is Ok
            &&& views.len() == nodes.len()
            &&& forall|i: int|
                0 <= i < views.len() ==> {
                    &&& (#[trigger] views[i]).node == nodes[i]
                    &&& views[i].online <==> (nodes[i].last_handshake matches Some(at)
                        && now.unix_nanos - at.unix_nanos < 180 * 1_000_000_000)
                    &&& views[i].service_count == services.filter(
                        |x: ServiceModel| x.node_id == nodes[i].id,
                    ).len()
                }
        },
{
    if let Ok(views) = http::node_views(s, now) {
        let nodes = store::listed_nodes(s)->Ok_0;
        let services = store::listed_services(s)->Ok_0;
        assert forall|i: int| 0 <= i < views.len() implies (#[trigger] views[i]).service_count
            == services.filter(|x: ServiceModel| x.node_id == nodes[i].id).len() by {
            table::lemma_filter_same(
                services,
                http::on(nodes[i].id),
                |x: ServiceModel| x.node_id == nodes[i].id,
            );
        }
    }
}

/// A service is shown as it is stored, with its public face, the node that it
/// runs on, and whether its records are known to be published.
pub proof fn law_service_is_shown_with_its_node(
    s: StoreModel,
    config: Config,
    service: ServiceModel,
    nodes: Seq<NodeModel>,
    now: Timestamp,
)
    ensures
        http::shown(s, config, service, nodes, now) matches Ok(view) ==> {
            &&& store::ports_of(s, service.id) matches Ok(mappings) && view.ports.len()
                == mappings.len() && forall|i: int|
                0 <= i < mappings.len() ==> (#[trigger] view.ports[i]).mapping == mappings[i]
                    && view.ports[i].endpoint.port == mappings[i].edge_port
                    && view.ports[i].endpoint.host == view.fqdn
            &&& view.service == service
            &&& view.fqdn == if service.subdomain == "@"@ {
                config.gateway.zone@
            } else {
                service.subdomain + "."@ + config.gateway.zone@
            }
            &&& view.dns_synced <==> store::dns_synced(s, service.id) == Ok::<
                bool,
                StoreErrorModel,
            >(true)
            &&& (forall|i: int|
                0 <= i < nodes.len() ==> (#[trigger] nodes[i]).id != service.node_id)
                ==> view.node_name.len() == 0 && !view.node_online
            &&& forall|i: int|
                0 <= i < nodes.len() && (#[trigger] nodes[i]).id == service.node_id && (forall|
                    j: int,
                |
                    0 <= j < nodes.len() && (#[trigger] nodes[j]).id == service.node_id ==> nodes[j]
                        == nodes[i]) ==> view.node_name == nodes[i].name && (view.node_online <==> (
                nodes[i].last_handshake matches Some(at) && now.unix_nanos - at.unix_nanos < 180
                    * 1_000_000_000))
        },
        http::shown(s, config, service, nodes, now) is Ok <==> store::ports_of(
            s,
            service.id,
        ) is Ok,
{
    let p = http::node_with(service.node_id);
    table::lemma_first(nodes, p);
    if let Ok(view) = http::shown(s, config, service, nodes, now) {
        assert forall|i: int|
            0 <= i < nodes.len() && (#[trigger] nodes[i]).id == service.node_id && (forall|j: int|
                0 <= j < nodes.len() && (#[trigger] nodes[j]).id == service.node_id ==> nodes[j]
                    == nodes[i]) implies view.node_name == nodes[i].name && (view.node_online <==> (
        nodes[i].last_handshake matches Some(at) && now.unix_nanos - at.unix_nanos < 180
            * 1_000_000_000)) by {
            assert(p(nodes[i]));
            table::lemma_first_is(nodes, p, i);
        }
        if forall|i: int| 0 <= i < nodes.len() ==> (#[trigger] nodes[i]).id != service.node_id {
            if table::any(nodes, p) {
                let i = choose|i: int| 0 <= i < nodes.len() && p(#[trigger] nodes[i]);
                assert(nodes[i].id == service.node_id);
            }
        }
    }
}

/// All services are shown, in their order.
pub proof fn law_every_service_is_shown(
    s: StoreModel,
    config: Config,
    services: Seq<ServiceModel>,
    nodes: Seq<NodeModel>,
    now: Timestamp,
    n: nat,
)
    requires
        n <= services.len(),
    ensures
        http::shown_all(s, config, services, nodes, now, n) matches Ok(views) ==> views.len() == n
            && forall|i: int|
            0 <= i < n ==> http::shown(s, config, services[i], nodes, now) == Ok::<
                ServiceViewModel,
                ApiErrModel,
            >(#[trigger] views[i]),
        http::shown_all(s, config, services, nodes, now, n) is Ok <==> forall|i: int|
            0 <= i < n ==> http::shown(s, config, #[trigger] services[i], nodes, now) is Ok,
    decreases n,
{
    if n > 0 {
        law_every_service_is_shown(s, config, services, nodes, now, (n - 1) as nat);
        if http::shown_all(s, config, services, nodes, now, n) is Ok {
            assert forall|i: int| 0 <= i < n implies http::shown(
                s,
                config,
                #[trigger] services[i],
                nodes,
                now,
            ) is Ok by {}
        }
    }
}

// ---- what is made -------------------------------------------------------

/// A node is created under its trimmed name, which must not be empty, with an
/// address of the configured subnet that is not the gateway's, and its key is
/// handed out as it is.
pub proof fn law_node_is_created_as_asked(
    s: StoreModel,
    config: Config,
    name: Seq<char>,
    now: Timestamp,
    id: Uuid,
    key: Seq<char>,
)
    ensures
        ({
            let (after, r) = http::node_created(s, config, name, now, id, key);
            &&& r is Err ==> after == s
            &&& text_laws::blank(name) ==> (r matches Err(e) && e.status == 400 && e.message
                == "give the node a name"@)
            &&& r matches Ok(made) ==> {
                &&& !text_laws::blank(name)
                &&& made.key == key
                &&& made.node.id == id
                &&& made.node.name == text::trim(name)
                &&& made.node.public_key is None
                &&& made.node.last_handshake is None
                &&& made.node.created_at == now
                &&& config.tunnel.subnet.is_host(made.node.tunnel_ip)
                &&& made.node.tunnel_ip != config.tunnel.gateway_ip
                &&& after.nodes == s.nodes.push(after.nodes.last())
                &&& after.nodes.last().id == ids::uuid_text(id)
                &&& after.nodes.last().name == text::trim(name)
                &&& after.nodes.last().key_hash == token::token_hash(key)
                &&& addr::ipv4_read(after.nodes.last().tunnel_ip) == Some(made.node.tunnel_ip)
                &&& after.services == s.services
                &&& after.ports == s.ports
            }
        }),
{
    let taken = text_laws::law_trim_takes_only_space(name);
    let subnet = config.tunnel.subnet;
    let gateway_ip = config.tunnel.gateway_ip;
    let trimmed = text::trim(name);
    traffic_laws::law_created_node_is_one_more_row(s, trimmed, subnet, gateway_ip, now, id, key);
    crate::store_laws::law_new_address_is_unused(s, trimmed, subnet, gateway_ip, now, id, key);
}

/// A service is created enabled, on the node and under the subdomain that were
/// asked for, and is called by the subdomain where it was given no name.
pub proof fn law_service_is_created_as_asked(
    s: StoreModel,
    req: CreateServiceRequest,
    now: Timestamp,
    id: Uuid,
)
    ensures
        ({
            let (after, r) = http::service_created(s, req, now, id);
            &&& r is Err ==> after == s
            &&& r matches Ok(service) ==> {
                let row = after.services.last();
                &&& service.id == id
                &&& service.node_id == req.node_id
                &&& Some(service.subdomain) == plan::subdomain_of(req.subdomain@)
                &&& service.enabled
                &&& service.created_at == now
                &&& text_laws::blank(req.name@) ==> service.name == service.subdomain
                &&& !text_laws::blank(req.name@) ==> service.name == text::trim(req.name@)
                &&& after.services == s.services.push(row)
                &&& after.nodes == s.nodes
                &&& after.ports == s.ports
                &&& row.id == ids::uuid_text(id)
                &&& row.node_id == ids::uuid_text(req.node_id)
                &&& row.name == service.name
                &&& row.subdomain == service.subdomain
                &&& row.enabled == 1
                &&& row.dns_synced == 0
            }
            &&& store::got_node(s, req.node_id) is Ok && plan::subdomain_of(
                req.subdomain@,
            ) is None ==> (r matches Err(e) && e.status == 400)
            &&& store::got_node(s, req.node_id) == Err::<NodeModel, StoreErrorModel>(
                StoreErrorModel::NotFound,
            ) ==> (r matches Err(e) && e.status == 404)
        }),
{
    let taken = text_laws::law_trim_takes_only_space(req.name@);
    if let Some(subdomain) = plan::subdomain_of(req.subdomain@) {
        traffic_laws::law_added_service_is_one_more_row(
            s,
            http::service_for(req, now, id, subdomain),
        );
    }
}

/// Whether a public port is spoken for: by a mapping, by the gateway itself, or
/// because the operator set it aside.
pub open spec fn spoken_for(
    s: StoreModel,
    config: Config,
    protocol: Protocol,
    port: u16,
) -> bool {
    ||| exists|i: int|
        0 <= i < s.ports.len() && (#[trigger] s.ports[i]).edge_port == port
            && model::protocol_read(s.ports[i].protocol) == Some(protocol)
    ||| protocol == Protocol::Tcp && (port == 22 || port == config.gateway.listen.port
        || config.gateway.reserved_tcp_ports@.contains(port))
    ||| protocol == Protocol::Udp && (port == config.tunnel.listen_port
        || config.gateway.reserved_udp_ports@.contains(port))
}

/// The ports set aside are SSH, the gateway's own two, and those that the
/// operator listed, each under its protocol; no other.
pub proof fn law_reserved_ports_are_these(config: Config, protocol: Protocol, port: u16)
    ensures
        config::reserved(config).contains((protocol, port)) <==> {
            ||| protocol == Protocol::Tcp && (port == 22 || port == config.gateway.listen.port
                || config.gateway.reserved_tcp_ports@.contains(port))
            ||| protocol == Protocol::Udp && (port == config.tunnel.listen_port
                || config.gateway.reserved_udp_ports@.contains(port))
        },
{
    let all = config::reserved(config);
    let tcp = config.gateway.reserved_tcp_ports@;
    let udp = config.gateway.reserved_udp_ports@;
    assert(all[0] == (Protocol::Tcp, 22u16));
    assert(all[1] == (Protocol::Udp, config.tunnel.listen_port));
    assert(all[2] == (Protocol::Tcp, config.gateway.listen.port));
    if protocol == Protocol::Tcp && tcp.contains(port) {
        let i = choose|i: int| 0 <= i < tcp.len() && tcp[i] == port;
        assert(all[3 + i] == (protocol, port));
    }
    if protocol == Protocol::Udp && udp.contains(port) {
        let i = choose|i: int| 0 <= i < udp.len() && udp[i] == port;
        assert(all[3 + tcp.len() + i] == (protocol, port));
    }
    if all.contains((protocol, port)) {
        let i = choose|i: int| 0 <= i < all.len() && all[i] == (protocol, port);
        if 3 <= i < 3 + tcp.len() {
            assert(tcp[i - 3] == port);
        } else if i >= 3 + tcp.len() {
            assert(udp[i - 3 - tcp.len()] == port);
        }
    }
}

pub proof fn lemma_unavailable(
    s: StoreModel,
    config: Config,
    taken: Seq<(Protocol, u16)>,
    protocol: Protocol,
    port: u16,
)
    requires
        store::taken_ports(s) == Ok::<Seq<(Protocol, u16)>, StoreErrorModel>(taken),
    ensures
        http::unavailable(taken, config).contains((protocol, port)) <==> spoken_for(
            s,
            config,
            protocol,
            port,
        ),
{
    law_reserved_ports_are_these(config, protocol, port);
    traffic_laws::law_every_public_port_is_in_use(s);
    if taken.contains((protocol, port)) {
        let i = choose|i: int| 0 <= i < taken.len() && taken[i] == (protocol, port);
        assert(s.ports[i].edge_port == port);
    }
    if exists|i: int|
        0 <= i < s.ports.len() && (#[trigger] s.ports[i]).edge_port == port && model::protocol_read(
            s.ports[i].protocol,
        ) == Some(protocol) {
        let i = choose|i: int|
            0 <= i < s.ports.len() && (#[trigger] s.ports[i]).edge_port == port
                && model::protocol_read(s.ports[i].protocol) == Some(protocol);
        assert(taken[i] == (protocol, port));
    }
}

/// A port is added as it was asked for: to that service, for that protocol, to
/// that host and port at home, and with the SRV settings of Minecraft where
/// those were asked for. Its public port was spoken for by nobody, is the one
/// that was asked for where one was, and else the port at home or one of the
/// range.
pub proof fn law_port_is_added_as_asked(
    s: StoreModel,
    config: Config,
    service_id: Uuid,
    req: AddPortRequestModel,
    id: Uuid,
)
    ensures
        ({
            let (after, r) = http::port_created(s, config, service_id, req, id);
            &&& r is Err ==> after == s
            &&& r matches Ok(service) ==> {
                let row = after.ports.last();
                &&& store::got_service(s, service_id) == Ok::<ServiceModel, StoreErrorModel>(
                    service,
                )
                &&& after.ports == s.ports.push(row)
                &&& after.nodes == s.nodes
                &&& after.services == s.services
                &&& row.id == ids::uuid_text(id)
                &&& row.service_id == ids::uuid_text(service_id)
                &&& row.protocol == req.protocol.name()
                &&& Some(row.local_host) == plan::local_host_of(req.local_host)
                &&& row.local_port == req.local_port
                &&& req.local_port != 0
                &&& !spoken_for(s, config, req.protocol, row.edge_port)
                &&& req.edge_port matches Some(port) ==> port != 0 ==> row.edge_port == port
                &&& req.edge_port is None || req.edge_port == Some(0u16) ==> {
                    ||| row.edge_port == req.local_port
                    ||| spoken_for(s, config, req.protocol, req.local_port)
                        && config.gateway.edge_port_range_start <= row.edge_port
                        <= config.gateway.edge_port_range_end
                }
                &&& rows::srv_of(row) == if req.minecraft_srv {
                    Some(
                        SrvSpecModel {
                            service: "_minecraft"@,
                            proto: "_tcp"@,
                            priority: 0,
                            weight: 5,
                        },
                    )
                } else {
                    None
                }
            }
        }),
{
    crate::allocator::lemma_between(
        config.gateway.edge_port_range_start,
        config.gateway.edge_port_range_end,
    );
    let (after, r) = http::port_created(s, config, service_id, req, id);
    if let Ok(taken) = store::taken_ports(s) {
        let unavailable = http::unavailable(taken, config);
        let range = http::port_range(config);
        if let Ok(edge_port) = plan::edge_port_for(unavailable, range, req) {
            let local_host = plan::local_host_of(req.local_host);
            if local_host is Some {
                let mapping = http::mapping_for(id, service_id, req, local_host->0, edge_port);
                traffic_laws::law_added_mapping_is_one_more_row(s, mapping);
            }
            plan_laws::law_granted_port_was_free(unavailable, range, req);
            lemma_unavailable(s, config, taken, req.protocol, edge_port);
            lemma_unavailable(s, config, taken, req.protocol, req.local_port);
            plan_laws::law_local_port_must_be_one(unavailable, range, req);
            if req.edge_port is Some && req.edge_port != Some(0u16) {
                plan_laws::law_explicit_port_is_honoured_or_refused(
                    unavailable,
                    range,
                    req,
                    req.edge_port->0,
                );
            } else {
                plan_laws::law_blank_port_prefers_the_local_one(unavailable, range, req);
            }
        }
    }
}

/// An explicit public port that is spoken for is refused, and nothing is moved
/// or stored.
pub proof fn law_spoken_for_port_is_refused(
    s: StoreModel,
    config: Config,
    service_id: Uuid,
    req: AddPortRequestModel,
    id: Uuid,
    port: u16,
)
    requires
        req.edge_port == Some(port),
        port != 0,
        req.local_port != 0,
        store::got_service(s, service_id) is Ok,
        plan::local_host_of(req.local_host) is Some,
        http::range_ok(config),
        store::taken_ports(s) is Ok,
        spoken_for(s, config, req.protocol, port),
    ensures
        http::port_created(s, config, service_id, req, id).0 == s,
        http::port_created(s, config, service_id, req, id).1 matches Err(e) && e == http::plan_err(
            PlanErrorModel::Alloc(AllocError::FixedPortTaken { protocol: req.protocol, port }),
        ) && e.status == 400,
{
    let taken = store::taken_ports(s)->Ok_0;
    lemma_unavailable(s, config, taken, req.protocol, port);
    plan_laws::law_explicit_port_is_honoured_or_refused(
        http::unavailable(taken, config),
        http::port_range(config),
        req,
        port,
    );
}

/// An explicit public port that nobody has is given.
pub proof fn law_free_port_is_given(
    s: StoreModel,
    config: Config,
    service_id: Uuid,
    req: AddPortRequestModel,
    id: Uuid,
    port: u16,
)
    requires
        req.edge_port == Some(port),
        port != 0,
        req.local_port != 0,
        store::got_service(s, service_id) is Ok,
        plan::local_host_of(req.local_host) is Some,
        http::range_ok(config),
        store::taken_ports(s) is Ok,
        !spoken_for(s, config, req.protocol, port),
        forall|i: int|
            0 <= i < s.ports.len() ==> (#[trigger] s.ports[i]).id != ids::uuid_text(id),
    ensures
        http::port_created(s, config, service_id, req, id).1 is Ok,
        http::port_created(s, config, service_id, req, id).0.ports.len() == s.ports.len() + 1,
        http::port_created(s, config, service_id, req, id).0.ports.last().edge_port == port,
{
    let taken = store::taken_ports(s)->Ok_0;
    lemma_unavailable(s, config, taken, req.protocol, port);
    plan_laws::law_explicit_port_is_honoured_or_refused(
        http::unavailable(taken, config),
        http::port_range(config),
        req,
        port,
    );
    let p = store::port_with_id(ids::uuid_text(id));
    assert(!table::any(s.ports, p)) by {
        if table::any(s.ports, p) {
            let i = choose|i: int| 0 <= i < s.ports.len() && p(#[trigger] s.ports[i]);
            assert(s.ports[i].id == ids::uuid_text(id));
        }
    }
    http::law_allocated_port_never_conflicts(s, config, service_id, req, id);
    law_port_is_added_as_asked(s, config, service_id, req, id);
}

// ---- agents -------------------------------------------------------------

/// A node that registers is told how to reach the gateway: its key, where it is
/// dialled, the node's own address, the length of the tunnel's prefix and how
/// often to keep the binding open.
pub proof fn law_registering_tells_the_tunnel(
    config: Config,
    node: NodeModel,
    gateway_public_key: Seq<char>,
)
    ensures
        ({
            let tunnel = http::tunnel_for(config, node, gateway_public_key);
            &&& tunnel.gateway_public_key == gateway_public_key
            &&& tunnel.gateway_endpoint == config.tunnel.endpoint@
            &&& tunnel.tunnel_ip == node.tunnel_ip
            &&& tunnel.tunnel_prefix_len == config.tunnel.subnet.len()
            &&& tunnel.persistent_keepalive == config.tunnel.persistent_keepalive
        }),
{
}

/// The gateway's own device has the configured port, the gateway's address and
/// the tunnel's prefix, under the key it is given.
pub proof fn law_gateway_device_is_the_configured_one(config: Config, private_key: Seq<char>)
    ensures
        ({
            let device = http::interface_of(config, private_key);
            &&& device.private_key == private_key
            &&& device.listen_port == config.tunnel.listen_port
            &&& device.address == config.tunnel.gateway_ip
            &&& device.prefix_len == config.tunnel.subnet.len()
        }),
{
}

/// The gateway's public key is the one that belongs to its private key; where
/// that cannot be read or is none, it is told why.
pub proof fn law_gateway_key_belongs_to_the_private_one(key: Seq<char>, e: Seq<char>)
    ensures
        wg::public_for(key) matches Ok(public) ==> http::gateway_key(Ok(key)) == Ok::<
            Seq<char>,
            Seq<char>,
        >(public),
        wg::public_for(key) matches Err(fault) ==> http::gateway_key(Ok(key)) == Err::<
            Seq<char>,
            Seq<char>,
        >("the gateway's WireGuard key is not valid: "@ + wg::key_error_text(fault)),
        http::gateway_key(Err(e)) == Err::<Seq<char>, Seq<char>>(
            "could not read the gateway's WireGuard key: "@ + e,
        ),
{
}

/// A node's assignment is its forwards, and its revision is told by them alone:
/// nodes with the same forwards have the same revision, and the revision
/// changes where the first eight bytes of the checksum do.
pub proof fn law_revision_is_told_by_the_forwards(
    s: StoreModel,
    t: StoreModel,
    a: Uuid,
    b: Uuid,
)
    ensures
        http::assignment_for(s, a) matches Ok(assignment) ==> store::forwards_of(s, a) == Ok::<
            Seq<ForwardModel>,
            StoreErrorModel,
        >(assignment.forwards),
        store::forwards_of(s, a) is Ok ==> http::assignment_for(s, a) is Ok,
        store::forwards_of(s, a) is Ok && store::forwards_of(s, a) == store::forwards_of(t, b)
            ==> http::assignment_for(s, a) == http::assignment_for(t, b),
{
}

/// A checksum's first eight bytes are told by the number they make.
pub proof fn law_revision_tells_the_checksum(x: Seq<u8>, y: Seq<u8>)
    requires
        x.len() == y.len(),
    ensures
        http::be_value(x) == http::be_value(y) <==> x == y,
    decreases x.len(),
{
    if x.len() > 0 {
        law_revision_tells_the_checksum(x.drop_last(), y.drop_last());
        if http::be_value(x) == http::be_value(y) {
            assert(x.last() == y.last());
            assert(x =~= x.drop_last().push(x.last()));
            assert(y =~= y.drop_last().push(y.last()));
        }
    } else {
        assert(x =~= y);
    }
}

/// A revision is the number that the first eight bytes of the checksum make, of
/// what the assignment says.
pub proof fn law_revision_is_a_checksum(a: Seq<ForwardModel>, b: Seq<ForwardModel>)
    ensures
        token::sha256_digest(http::assignment_bytes(a)).len() == 32 && token::sha256_digest(
            http::assignment_bytes(b),
        ).len() == 32 ==> (http::revision(a) == http::revision(b) <==> token::sha256_digest(
            http::assignment_bytes(a),
        ).take(8) == token::sha256_digest(http::assignment_bytes(b)).take(8)),
        a != b ==> http::assignment_bytes(a) != http::assignment_bytes(b),
{
    let x = token::sha256_digest(http::assignment_bytes(a));
    let y = token::sha256_digest(http::assignment_bytes(b));
    if x.len() == 32 && y.len() == 32 {
        law_revision_tells_the_checksum(x.take(8), y.take(8));
    }
    http::law_revision_covers_the_assignment(a, b);
}

spec fn limit(n: nat) -> nat
    decreases n,
{
    if n == 0 {
        1
    } else {
        256 * limit((n - 1) as nat)
    }
}

proof fn lemma_limit(bytes: Seq<u8>)
    ensures
        http::be_value(bytes) < limit(bytes.len()),
    decreases bytes.len(),
{
    if bytes.len() > 0 {
        lemma_limit(bytes.drop_last());
    }
}

/// Every assignment, an empty one too, has the number that the first eight bytes
/// of its checksum spell, the most significant first.
pub proof fn law_assignment_has_its_revision(s: StoreModel, node: Uuid, bytes: Seq<u8>, b: u8)
    ensures
        http::be_value(Seq::empty()) == 0,
        http::be_value(bytes.push(b)) == 256 * http::be_value(bytes) + b,
        http::assignment_for(s, node) matches Ok(a) ==> {
            let digest = token::sha256_digest(http::assignment_bytes(a.forwards));
            digest.len() == 32 ==> a.revision == http::be_value(digest.take(8))
        },
{
    assert(bytes.push(b).drop_last() =~= bytes);
    if let Ok(a) = http::assignment_for(s, node) {
        let digest = token::sha256_digest(http::assignment_bytes(a.forwards));
        if digest.len() == 32 {
            lemma_limit(digest.take(8));
            reveal_with_fuel(limit, 9);
            assert(limit(8) == 0x1_0000_0000_0000_0000);
        }
    }
}

// ---- catching up --------------------------------------------------------

/// A node was heard when WireGuard says that the peer with its key was; a node
/// without a key, or whose key WireGuard does not know, was not.
pub proof fn law_a_node_is_heard_by_its_key(node: NodeModel, peers: Seq<PeerStatusModel>)
    ensures
        node.public_key is None ==> http::heard_at(node, peers) is None,
        node.public_key matches Some(key) ==> (forall|i: int|
            0 <= i < peers.len() ==> (#[trigger] peers[i]).public_key != key) ==> http::heard_at(
            node,
            peers,
        ) is None,
        forall|i: int|
            0 <= i < peers.len() && node.public_key == Some((#[trigger] peers[i]).public_key) && (
            forall|j: int|
                0 <= j < peers.len() && (#[trigger] peers[j]).public_key == peers[i].public_key
                    ==> peers[j] == peers[i]) ==> http::heard_at(node, peers)
                == peers[i].last_handshake,
{
    if let Some(key) = node.public_key {
        let p = http::status_with_key(key);
        table::lemma_first(peers, p);
        assert forall|i: int|
            0 <= i < peers.len() && node.public_key == Some((#[trigger] peers[i]).public_key) && (
            forall|j: int|
                0 <= j < peers.len() && (#[trigger] peers[j]).public_key == peers[i].public_key
                    ==> peers[j] == peers[i]) implies http::heard_at(node, peers)
            == peers[i].last_handshake by {
            table::lemma_first_is(peers, p, i);
        }
        if table::any(peers, p) {
            let i = choose|i: int| 0 <= i < peers.len() && p(#[trigger] peers[i]);
            assert(peers[i].public_key == key);
        }
    }
}

/// Hearing a node changes when it was last heard, to when it was, and nothing
/// else about it; a node that was not heard stays as it is.
pub proof fn law_hearing_changes_the_handshake_only(
    nodes: Seq<NodeModel>,
    peers: Seq<PeerStatusModel>,
    i: int,
)
    ensures
        ({
            let after = http::once_heard(nodes, peers, i);
            let heard = http::heard_at(nodes[i], peers);
            &&& after == NodeModel { last_handshake: after.last_handshake, ..nodes[i] }
            &&& heard is None ==> after == nodes[i]
            &&& heard matches Some(at) ==> at.writable() ==> after.last_handshake == heard
        }),
{
}

/// A service's records are published again exactly where they are not known to
/// be published.
pub proof fn law_unpublished_services_are_caught_up(s: StoreModel, service: ServiceModel, i: int)
    requires
        s.valid(),
        0 <= i < s.services.len(),
        s.services[i].id == ids::uuid_text(service.id),
    ensures
        http::unpublished(s)(service) <==> s.services[i].dns_synced == 0,
{
    traffic_laws::law_identifiers_find_their_rows(s, service.id);
}

/// What is published of a service, and retracted when it goes, is its name with
/// the gateway's public address, and an SRV record to the public port of every
/// mapping of it that asks for one.
pub proof fn law_published_is_where_players_arrive(
    s: StoreModel,
    config: Config,
    id: Uuid,
    service: ServiceModel,
    mappings: Seq<PortMappingModel>,
    i: int,
)
    requires
        store::got_service(s, id) == Ok::<ServiceModel, StoreErrorModel>(service),
        store::ports_of(s, id) == Ok::<Seq<PortMappingModel>, StoreErrorModel>(mappings),
        0 <= i < mappings.len(),
        mappings[i].srv is Some,
    ensures
        http::face_of(s, config, id) matches Ok(face) && {
            &&& service.subdomain == "@"@ ==> face.fqdn == config.gateway.zone@
            &&& service.subdomain != "@"@ ==> face.fqdn == service.subdomain + "."@
                + config.gateway.zone@
            &&& face.dns[0] == DnsRecordModel::A {
                name: face.fqdn,
                address: config.gateway.public_ip,
                ttl: 120,
            }
            &&& exists|k: int|
                0 <= k < face.dns.len() && (#[trigger] face.dns[k] matches DnsRecordModel::Srv {
                    target,
                    port,
                    ..
                } && target == face.fqdn && port == mappings[i].edge_port)
        },
{
    plan_laws::law_srv_records_give_the_public_port(
        service,
        mappings,
        config.gateway.zone@,
        config.gateway.public_ip,
    );
    plan_laws::law_every_srv_mapping_has_its_record(
        service,
        mappings,
        config.gateway.zone@,
        config.gateway.public_ip,
        i,
    );
    plan_laws::law_names_are_within_the_zone(
        service,
        service,
        mappings,
        config.gateway.zone@,
        config.gateway.public_ip,
    );
}

/// A service that is not there is not published, and whoever asks is told so.
pub proof fn law_nothing_is_published_of_no_service(s: StoreModel, config: Config, id: Uuid)
    requires
        store::got_service(s, id) == Err::<ServiceModel, StoreErrorModel>(
            StoreErrorModel::NotFound,
        ),
    ensures
        http::face_of(s, config, id) is Err,
        http::told(http::face_of(s, config, id)) == Err::<plan::ServiceDescriptionModel, ApiErrModel>(
            ApiErrModel { status: 404, message: "not found"@ },
        ),
{
}

/// A service is shown among the nodes there are.
pub proof fn law_service_is_shown_among_the_nodes(
    s: StoreModel,
    config: Config,
    service: ServiceModel,
    nodes: Seq<NodeModel>,
    now: Timestamp,
)
    requires
        store::listed_nodes(s) == Ok::<Seq<NodeModel>, StoreErrorModel>(nodes),
    ensures
        http::shown_now(s, config, service, now) == http::shown(s, config, service, nodes, now),
{
}

/// Noting handshakes changes when nodes were last heard, and nothing else; a row
/// whose node was not heard stays as it is.
pub proof fn law_handshakes_are_noted_where_heard(
    s: StoreModel,
    nodes: Seq<NodeModel>,
    peers: Seq<PeerStatusModel>,
    n: nat,
    k: int,
)
    requires
        n <= nodes.len(),
        0 <= k < s.nodes.len(),
    ensures
        ({
            let after = http::handshakes_noted(s, nodes, peers, n);
            &&& after.services == s.services
            &&& after.ports == s.ports
            &&& after.nodes.len() == s.nodes.len()
            &&& after.nodes[k] == NodeRowModel {
                last_handshake: after.nodes[k].last_handshake,
                ..s.nodes[k]
            }
            &&& (forall|i: int|
                0 <= i < n && ids::uuid_text((#[trigger] nodes[i]).id) == s.nodes[k].id
                    ==> http::heard_at(nodes[i], peers) is None) ==> after.nodes[k] == s.nodes[k]
        }),
    decreases n,
{
    if n > 0 {
        law_handshakes_are_noted_where_heard(s, nodes, peers, (n - 1) as nat, k);
        let before = http::handshakes_noted(s, nodes, peers, (n - 1) as nat);
        let after = http::handshakes_noted(s, nodes, peers, n);
        let last = nodes[n - 1];
        if let Some(at) = http::heard_at(last, peers) {
            if let Ok(written) = clock::stamp_text(at) {
                let touch = store::heard(ids::uuid_text(last.id), written);
                assert(after.nodes == before.nodes.map_values(touch));
                assert(after.nodes[k] == touch(before.nodes[k]));
            }
        }
        if forall|i: int|
            0 <= i < n && ids::uuid_text((#[trigger] nodes[i]).id) == s.nodes[k].id
                ==> http::heard_at(nodes[i], peers) is None {
            assert(after.nodes[k] == before.nodes[k]) by {
                if ids::uuid_text(nodes[n - 1].id) == s.nodes[k].id {
                    assert(http::heard_at(nodes[n - 1], peers) is None);
                }
            }
        }
    }
}

/// The row of a node that was heard says when, as the node's last entry has it.
pub proof fn law_heard_nodes_say_when(
    s: StoreModel,
    nodes: Seq<NodeModel>,
    peers: Seq<PeerStatusModel>,
    n: nat,
    k: int,
    i: int,
)
    requires
        0 <= i < n <= nodes.len(),
        0 <= k < s.nodes.len(),
        ids::uuid_text(nodes[i].id) == s.nodes[k].id,
        forall|j: int| i < j < n ==> ids::uuid_text((#[trigger] nodes[j]).id) != s.nodes[k].id,
    ensures
        http::heard_at(nodes[i], peers) matches Some(at) ==> clock::stamp_text(at) matches Ok(
            written,
        ) ==> http::handshakes_noted(s, nodes, peers, n).nodes[k].last_handshake == Some(written),
    decreases n,
{
    law_handshakes_are_noted_where_heard(s, nodes, peers, (n - 1) as nat, k);
    let before = http::handshakes_noted(s, nodes, peers, (n - 1) as nat);
    let after = http::handshakes_noted(s, nodes, peers, n);
    let last = nodes[n - 1];
    if i < n - 1 {
        law_heard_nodes_say_when(s, nodes, peers, (n - 1) as nat, k, i);
        assert(ids::uuid_text(last.id) != s.nodes[k].id);
    }
    if let Some(at) = http::heard_at(last, peers) {
        if let Ok(written) = clock::stamp_text(at) {
            let touch = store::heard(ids::uuid_text(last.id), written);
            assert(after.nodes == before.nodes.map_values(touch));
            assert(after.nodes[k] == touch(before.nodes[k]));
        }
    }
}

// ---- configuration ------------------------------------------------------

/// What is written is used, and what is not written is the default.
pub proof fn law_written_settings_win<T>(written: T, default: T)
    ensures
        config::or_default(Some(written), default) == written,
        config::or_default(None, default) == default,
{
}

/// With nothing but what has to be written, the gateway is set up as
/// documented.
pub proof fn law_documented_defaults(raw: config::RawConfig, config: Config)
    requires
        config::completes(raw, config),
    ensures
        config.gateway.public_ip == raw.gateway.public_ip,
        config.gateway.zone@ == raw.gateway.zone@,
        config.tunnel.endpoint@ == raw.tunnel.endpoint@,
        config.cloudflare.zone_id@ == raw.cloudflare.zone_id@,
        raw.gateway.listen is None ==> config.gateway.listen.port == 8080
            && config.gateway.listen.ip == addr::IpAddr::V4(addr::Ipv4Addr { bits: 0x7f00_0001 }),
        raw.gateway.listen matches Some(listen) ==> config.gateway.listen == listen,
        raw.gateway.edge_port_range_start is None ==> config.gateway.edge_port_range_start == 30000,
        raw.gateway.edge_port_range_start matches Some(p) ==> config.gateway.edge_port_range_start
            == p,
        raw.gateway.edge_port_range_end is None ==> config.gateway.edge_port_range_end == 32767,
        raw.gateway.edge_port_range_end matches Some(p) ==> config.gateway.edge_port_range_end == p,
        raw.gateway.data_dir is None ==> config.gateway.data_dir@ == "/var/lib/portal"@,
        raw.gateway.data_dir matches Some(d) ==> config.gateway.data_dir@ == d@,
        raw.gateway.profiles_dir is None ==> config.gateway.profiles_dir@
            == "/etc/portal/profiles"@,
        raw.gateway.profiles_dir matches Some(d) ==> config.gateway.profiles_dir@ == d@,
        raw.gateway.reserved_tcp_ports is None ==> config.gateway.reserved_tcp_ports@.len() == 0,
        raw.gateway.reserved_tcp_ports matches Some(v) ==> config.gateway.reserved_tcp_ports@ == v@,
        raw.gateway.reserved_udp_ports is None ==> config.gateway.reserved_udp_ports@.len() == 0,
        raw.gateway.reserved_udp_ports matches Some(v) ==> config.gateway.reserved_udp_ports@ == v@,
        raw.gateway.admin_token_file is None <==> config.gateway.admin_token_file is None,
        raw.gateway.admin_token_file matches Some(f) ==> config.gateway.admin_token_file->0@ == f@,
        raw.cloudflare.api_token_file is None <==> config.cloudflare.api_token_file is None,
        raw.cloudflare.api_token_file matches Some(f) ==> config.cloudflare.api_token_file->0@
            == f@,
        raw.tunnel.subnet is None ==> config.tunnel.subnet.network().bits == 0x0a63_0000
            && config.tunnel.subnet.len() == 24,
        raw.tunnel.subnet matches Some(n) ==> config.tunnel.subnet == n,
        raw.tunnel.gateway_ip is None ==> config.tunnel.gateway_ip.bits == 0x0a63_0001,
        raw.tunnel.gateway_ip matches Some(ip) ==> config.tunnel.gateway_ip == ip,
        raw.tunnel.interface is None ==> config.tunnel.interface@ == "wg0"@,
        raw.tunnel.interface matches Some(i) ==> config.tunnel.interface@ == i@,
        raw.tunnel.listen_port is None ==> config.tunnel.listen_port == 51820,
        raw.tunnel.listen_port matches Some(p) ==> config.tunnel.listen_port == p,
        raw.tunnel.private_key_file is None ==> config.tunnel.private_key_file@
            == "/etc/portal/wg-private.key"@,
        raw.tunnel.private_key_file matches Some(f) ==> config.tunnel.private_key_file@ == f@,
        raw.tunnel.persistent_keepalive is None ==> config.tunnel.persistent_keepalive == 25,
        raw.tunnel.persistent_keepalive matches Some(k) ==> config.tunnel.persistent_keepalive == k,
        raw.cloudflare.enabled is None ==> config.cloudflare.enabled,
        raw.cloudflare.enabled matches Some(b) ==> config.cloudflare.enabled == b,
        raw.nftables is None ==> config.nftables.enabled && config.nftables.table@ == "portal"@,
        raw.nftables matches Some(n) ==> {
            &&& n.enabled is None ==> config.nftables.enabled
            &&& n.enabled matches Some(b) ==> config.nftables.enabled == b
            &&& n.table is None ==> config.nftables.table@ == "portal"@
            &&& n.table matches Some(t) ==> config.nftables.table@ == t@
        },
{
}

/// A configuration is refused where its range is none, or where the gateway's
/// address is outside the tunnel's network; otherwise it is accepted.
pub proof fn law_sound_configurations_are_accepted(config: Config)
    ensures
        config::config_fault(config) is None <==> {
            &&& 1024 <= config.gateway.edge_port_range_start
            &&& config.gateway.edge_port_range_start <= config.gateway.edge_port_range_end
            &&& crate::net::network_of(config.tunnel.gateway_ip, config.tunnel.subnet.len())
                == config.tunnel.subnet.network()
        },
        config.gateway.edge_port_range_start < 1024 || config.gateway.edge_port_range_start
            > config.gateway.edge_port_range_end ==> config::config_fault(config) == Some(
            config::ConfigErrorModel::Range(
                AllocError::InvalidRange(
                    config.gateway.edge_port_range_start,
                    config.gateway.edge_port_range_end,
                ),
            ),
        ),
{
}

/// A secret is what the environment says, without the space around it; where
/// that is blank, what the named file says, in the same way. A file that cannot
/// be read is an error only where the environment says nothing.
pub proof fn law_secrets_are_found_in_order(
    env: Option<Seq<char>>,
    file: config::SecretFileModel,
)
    ensures
        env matches Some(raw) ==> !text_laws::blank(raw) ==> config::secret_of(env, file) == Ok::<
            Option<Seq<char>>,
            config::ConfigErrorModel,
        >(Some(text::trim(raw))),
        env is None || text_laws::blank(env->0) ==> config::secret_of(env, file) == match file {
            config::SecretFileModel::NotNamed => Ok::<
                Option<Seq<char>>,
                config::ConfigErrorModel,
            >(None),
            config::SecretFileModel::Unreadable { path, source } => Err(
                config::ConfigErrorModel::SecretFile { path, source },
            ),
            config::SecretFileModel::Contents(raw) => Ok(
                if text_laws::blank(raw) {
                    None
                } else {
                    Some(text::trim(raw))
                },
            ),
        },
{
    if let Some(raw) = env {
        let r = text_laws::law_trim_takes_only_space(raw);
    }
    if let config::SecretFileModel::Contents(raw) = file {
        let r = text_laws::law_trim_takes_only_space(raw);
    }
}

/// A path that begins at the root is taken as it is; any other lies in the
/// directory, with one slash between.
pub proof fn law_paths_lie_in_their_directory(dir: Seq<char>, path: Seq<char>)
    ensures
        path.len() > 0 && path[0] == '/' ==> config::joined(dir, path) == path,
        (path.len() == 0 || path[0] != '/') && dir.len() > 0 && dir.last() != '/'
            ==> config::joined(dir, path) == dir + "/"@ + path,
        (path.len() == 0 || path[0] != '/') && dir.len() > 0 && dir.last() == '/'
            ==> config::joined(dir, path) == dir + path,
        dir.len() == 0 ==> config::joined(dir, path) == path,
{
    if dir.len() == 0 {
        assert(dir + path =~= path);
    }
}

} // verus!
