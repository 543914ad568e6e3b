//! When what is asked for is granted, and what whoever asked is told when it is
//! not.

use crate::addr;
use crate::addr::Ipv4Addr;
use crate::address_laws;
use crate::allocator;
use crate::api::{AddPortRequestModel, CreateServiceRequest};
use crate::clock;
use crate::clock::Timestamp;
use crate::config::Config;
use crate::http;
use crate::http::ApiErrModel;
use crate::http_laws;
use crate::ids;
use crate::ids::Uuid;
use crate::model::{PortMappingModel, ServiceModel};
use crate::net;
use crate::net::Ipv4Net;
use crate::plan;
use crate::plan_laws;
use crate::rows;
use crate::rows::{NodeRowModel, PortRow, PortRowModel, ServiceRow, ServiceRowModel, Unique};
use crate::store;
use crate::store::{StoreErrorModel, StoreModel};
use crate::table;
use crate::text;
use crate::token;
use vstd::prelude::*;

verus! {

// ---- reading ------------------------------------------------------------

proof fn lemma_all_read<M>(
    all: Seq<PortRowModel>,
    keep: spec_fn(PortRowModel) -> bool,
    f: spec_fn(PortRowModel) -> Result<M, StoreErrorModel>,
)
    requires
        forall|i: int| 0 <= i < all.len() && keep(#[trigger] all[i]) ==> f(all[i]) is Ok,
    ensures
        table::collected(table::ordered(all.filter(keep), table::le_of::<PortRow>()), f) is Ok,
{
    let kept = all.filter(keep);
    let sorted = table::ordered(kept, table::le_of::<PortRow>());
    table::lemma_filter_members(all, keep);
    table::lemma_ordered_members(kept, table::le_of::<PortRow>());
    assert forall|k: int| 0 <= k < sorted.len() implies f(#[trigger] sorted[k]) is Ok by {
        assert(sorted.contains(sorted[k]));
        assert(kept.contains(sorted[k]));
        assert(all.contains(sorted[k]));
        let i = choose|i: int| 0 <= i < all.len() && all[i] == sorted[k];
        assert(keep(all[i]));
        assert(f(all[i]) is Ok);
    }
    table::lemma_collected_all(sorted, f);
}

/// Where every mapping's row can be read, so can a service's mappings, the ports
/// in use and a node's assignment.
pub proof fn law_readable_mappings_are_read(s: StoreModel, id: Uuid)
    requires
        forall|i: int| 0 <= i < s.ports.len() ==> rows::mapping_of(#[trigger] s.ports[i]) is Ok,
    ensures
        store::ports_of(s, id) is Ok,
        store::taken_ports(s) is Ok,
        store::forwards_of(s, id) is Ok,
        http::assignment_for(s, id) is Ok,
{
    assert forall|i: int| 0 <= i < s.ports.len() implies store::mapping_reader()(
        #[trigger] s.ports[i],
    ) is Ok by {
        assert(rows::mapping_of(s.ports[i]) is Ok);
    }
    lemma_all_read(
        s.ports,
        store::port_of_service(ids::uuid_text(id)),
        store::mapping_reader(),
    );
    assert forall|i: int| 0 <= i < s.ports.len() implies store::port_reader()(
        #[trigger] s.ports[i],
    ) is Ok && store::forward_reader()(s.ports[i]) is Ok by {
        assert(rows::mapping_of(s.ports[i]) is Ok);
    }
    table::lemma_collected_all(s.ports, store::port_reader());
    lemma_all_read(
        s.ports,
        store::forwarded_to(s, ids::uuid_text(id)),
        store::forward_reader(),
    );
}

/// Where every row of mappings and nodes can be read, so can the forwards that
/// the gateway's rules are made of.
pub proof fn law_readable_forwards_are_read(s: StoreModel)
    requires
        forall|i: int| 0 <= i < s.ports.len() ==> rows::mapping_of(#[trigger] s.ports[i]) is Ok,
        forall|i: int| 0 <= i < s.nodes.len() ==> rows::node_of(#[trigger] s.nodes[i]) is Ok,
    ensures
        store::active_of(s) is Ok,
{
    assert forall|i: int| 0 <= i < s.ports.len() && store::live(s)(#[trigger] s.ports[i]) implies
        store::active_reader(s)(s.ports[i]) is Ok by {
        assert(rows::mapping_of(s.ports[i]) is Ok);
        let service = table::first(s.services, store::service_with_id(s.ports[i].service_id))->0;
        let p = store::node_with_id(service.node_id);
        table::lemma_first(s.nodes, p);
        let node = table::first(s.nodes, p)->0;
        let n = choose|n: int| 0 <= n < s.nodes.len() && s.nodes[n] == node;
        assert(rows::node_of(s.nodes[n]) is Ok);
    }
    lemma_all_read(s.ports, store::live(s), store::active_reader(s));
}

/// What cannot be read is told by its column: a row's first one that cannot.
pub proof fn law_corrupt_rows_name_the_column(
    node: NodeRowModel,
    service: ServiceRowModel,
    port: PortRowModel,
)
    ensures
        ids::uuid_parsed(node.id) is None ==> rows::node_of(node) is Err && rows::node_of(
            node,
        )->Err_0 == StoreErrorModel::Corrupt("node id"@),
        ids::uuid_parsed(node.id) is Some && addr::ipv4_read(node.tunnel_ip) is None
            ==> rows::node_of(node) is Err && rows::node_of(node)->Err_0
            == StoreErrorModel::Corrupt("tunnel_ip"@),
        ids::uuid_parsed(service.id) is None ==> rows::service_of(service) is Err
            && rows::service_of(service)->Err_0 == StoreErrorModel::Corrupt("service id"@),
        ids::uuid_parsed(service.id) is Some && ids::uuid_parsed(service.node_id) is None
            ==> rows::service_of(service) is Err && rows::service_of(service)->Err_0
            == StoreErrorModel::Corrupt("node id"@),
        ids::uuid_parsed(port.id) is None ==> rows::mapping_of(port) is Err && rows::mapping_of(
            port,
        )->Err_0 == StoreErrorModel::Corrupt("mapping id"@),
        ids::uuid_parsed(port.id) is Some && ids::uuid_parsed(port.service_id) is None
            ==> rows::mapping_of(port) is Err && rows::mapping_of(port)->Err_0
            == StoreErrorModel::Corrupt("service id"@),
        crate::model::protocol_read(port.protocol) is None ==> rows::protocol_of(port.protocol)
            is Err && rows::protocol_of(port.protocol)->Err_0 == StoreErrorModel::Corrupt(
            "protocol `"@ + port.protocol + "`"@,
        ),
{
}

// ---- nodes --------------------------------------------------------------

/// Whether some host's address is neither the gateway's nor a node's.
pub open spec fn has_room(s: StoreModel, subnet: Ipv4Net, gateway_ip: Ipv4Addr) -> bool {
    exists|a: Ipv4Addr|
        {
            &&& #[trigger] subnet.is_host(a)
            &&& a != gateway_ip
            &&& forall|i: int|
                0 <= i < s.nodes.len() ==> addr::ipv4_read((#[trigger] s.nodes[i]).tunnel_ip)
                    != Some(a)
        }
}

proof fn lemma_addresses(s: StoreModel, gateway_ip: Ipv4Addr, a: Ipv4Addr)
    requires
        forall|i: int|
            0 <= i < s.nodes.len() ==> addr::ipv4_read((#[trigger] s.nodes[i]).tunnel_ip) is Some,
    ensures
        store::taken_addresses(s, gateway_ip) is Ok,
        store::taken_addresses(s, gateway_ip)->Ok_0.contains(a) <==> a == gateway_ip || exists|
            i: int,
        |
            0 <= i < s.nodes.len() && addr::ipv4_read((#[trigger] s.nodes[i]).tunnel_ip) == Some(a),
{
    let f = store::address_reader();
    assert forall|i: int| 0 <= i < s.nodes.len() implies f(#[trigger] s.nodes[i]) is Ok by {
        assert(addr::ipv4_read(s.nodes[i].tunnel_ip) is Some);
    }
    table::lemma_collected_all(s.nodes, f);
    table::lemma_collected_each(s.nodes, f);
    let others = table::collected(s.nodes, f)->Ok_0;
    let taken = store::taken_addresses(s, gateway_ip)->Ok_0;
    assert(taken == seq![gateway_ip] + others);
    assert(taken[0] == gateway_ip);
    if taken.contains(a) {
        let t = choose|t: int| 0 <= t < taken.len() && taken[t] == a;
        if t > 0 {
            assert(others[t - 1] == a);
            assert(f(s.nodes[t - 1]) == Ok::<Ipv4Addr, StoreErrorModel>(a));
            assert(addr::ipv4_read(s.nodes[t - 1].tunnel_ip) == Some(a));
        }
    }
    if exists|i: int|
        0 <= i < s.nodes.len() && addr::ipv4_read((#[trigger] s.nodes[i]).tunnel_ip) == Some(a) {
        let i = choose|i: int|
            0 <= i < s.nodes.len() && addr::ipv4_read((#[trigger] s.nodes[i]).tunnel_ip) == Some(a);
        assert(f(s.nodes[i]) == Ok::<Ipv4Addr, StoreErrorModel>(others[i]));
        assert(taken[i + 1] == a);
    }
}

/// A node is taken in wherever there is room for it, and nobody has its
/// identifier or its key; without room that is what is told.
pub proof fn law_node_is_taken_in_where_there_is_room(
    s: StoreModel,
    name: Seq<char>,
    subnet: Ipv4Net,
    gateway_ip: Ipv4Addr,
    now: Timestamp,
    id: Uuid,
    key: Seq<char>,
)
    requires
        forall|i: int|
            0 <= i < s.nodes.len() ==> addr::ipv4_read((#[trigger] s.nodes[i]).tunnel_ip) is Some,
    ensures
        ({
            let r = store::node_created(s, name, subnet, gateway_ip, now, id, key).1;
            &&& r is Ok <==> {
                &&& has_room(s, subnet, gateway_ip)
                &&& clock::stamp_text(now) is Ok
                &&& forall|i: int|
                    0 <= i < s.nodes.len() ==> (#[trigger] s.nodes[i]).id != ids::uuid_text(id)
                        && s.nodes[i].key_hash != token::token_hash(key)
            }
            &&& !has_room(s, subnet, gateway_ip) ==> r is Err && r->Err_0
                == StoreErrorModel::SubnetExhausted
        }),
{
    lemma_addresses(s, gateway_ip, gateway_ip);
    let taken = store::taken_addresses(s, gateway_ip)->Ok_0;
    address_laws::law_next_address_is_the_lowest_free(subnet, taken);
    if has_room(s, subnet, gateway_ip) {
        let a = choose|a: Ipv4Addr|
            {
                &&& #[trigger] subnet.is_host(a)
                &&& a != gateway_ip
                &&& forall|i: int|
                    0 <= i < s.nodes.len() ==> addr::ipv4_read((#[trigger] s.nodes[i]).tunnel_ip)
                        != Some(a)
            };
        lemma_addresses(s, gateway_ip, a);
        assert(!taken.contains(a));
        assert(net::next_host(subnet, taken) is Some);
    }
    if let Some(a) = net::next_host(subnet, taken) {
        lemma_addresses(s, gateway_ip, a);
        assert(net::lowest_free_host(subnet, taken, a));
        assert(subnet.is_host(a));
        assert(has_room(s, subnet, gateway_ip));
    }
    let p = store::node_with_id(ids::uuid_text(id));
    let q = store::node_with_hash(token::token_hash(key));
    if table::any(s.nodes, p) {
        let i = choose|i: int| 0 <= i < s.nodes.len() && p(#[trigger] s.nodes[i]);
        assert(s.nodes[i].id == ids::uuid_text(id));
    }
    if table::any(s.nodes, q) {
        let i = choose|i: int| 0 <= i < s.nodes.len() && q(#[trigger] s.nodes[i]);
        assert(s.nodes[i].key_hash == token::token_hash(key));
    }
    assert forall|i: int|
        0 <= i < s.nodes.len() && !table::any(s.nodes, p) && !table::any(s.nodes, q) implies (
    #[trigger] s.nodes[i]).id != ids::uuid_text(id) && s.nodes[i].key_hash != token::token_hash(
        key,
    ) by {
        assert(!p(s.nodes[i]));
        assert(!q(s.nodes[i]));
    }
}

/// Whoever gives a node a name gets the node, as long as there is room.
pub proof fn law_named_node_is_created(
    s: StoreModel,
    config: Config,
    name: Seq<char>,
    now: Timestamp,
    id: Uuid,
    key: Seq<char>,
)
    requires
        text::trim(name).len() > 0,
        forall|i: int|
            0 <= i < s.nodes.len() ==> addr::ipv4_read((#[trigger] s.nodes[i]).tunnel_ip) is Some,
        forall|i: int|
            0 <= i < s.nodes.len() ==> (#[trigger] s.nodes[i]).id != ids::uuid_text(id)
                && s.nodes[i].key_hash != token::token_hash(key),
    ensures
        has_room(s, config.tunnel.subnet, config.tunnel.gateway_ip) && clock::stamp_text(now) is Ok
            ==> http::node_created(s, config, name, now, id, key).1 is Ok,
        !has_room(s, config.tunnel.subnet, config.tunnel.gateway_ip) ==> http::node_created(
            s,
            config,
            name,
            now,
            id,
            key,
        ).1 == Err::<crate::api::CreateNodeResponseModel, ApiErrModel>(
            ApiErrModel {
                status: 409,
                message: "the tunnel subnet has no free addresses left"@,
            },
        ),
{
    law_node_is_taken_in_where_there_is_room(
        s,
        text::trim(name),
        config.tunnel.subnet,
        config.tunnel.gateway_ip,
        now,
        id,
        key,
    );
}

// ---- services -----------------------------------------------------------

/// Whether a service has the subdomain or the identifier.
pub open spec fn has_service(s: StoreModel, id: Uuid, subdomain: Seq<char>) -> bool {
    exists|i: int|
        0 <= i < s.services.len() && ((#[trigger] s.services[i]).subdomain == subdomain
            || s.services[i].id == ids::uuid_text(id))
}

/// A service is taken in wherever its node is there and nothing has its
/// subdomain or identifier; otherwise its subdomain is said to be taken.
pub proof fn law_service_is_taken_in_where_it_fits(s: StoreModel, service: ServiceModel)
    ensures
        clock::stamp_text(service.created_at) is Ok ==> {
            let r = store::service_inserted(s, service).1;
            &&& r is Ok <==> {
                &&& !has_service(s, service.id, service.subdomain)
                &&& exists|i: int|
                    0 <= i < s.nodes.len() && (#[trigger] s.nodes[i]).id == ids::uuid_text(
                        service.node_id,
                    )
            }
            &&& r is Err ==> r->Err_0 == StoreErrorModel::Conflict("that subdomain"@)
        },
{
    if let Ok(created_at) = clock::stamp_text(service.created_at) {
        let row = store::service_row_of(service, created_at);
        let p = store::node_with_id(row.node_id);
        if has_service(s, service.id, service.subdomain) {
            let i = choose|i: int|
                0 <= i < s.services.len() && ((#[trigger] s.services[i]).subdomain
                    == service.subdomain || s.services[i].id == ids::uuid_text(service.id));
            assert(ServiceRow::clash(s.services[i], row));
        } else {
            assert forall|i: int| 0 <= i < s.services.len() implies !ServiceRow::clash(
                #[trigger] s.services[i],
                row,
            ) by {}
        }
        if table::any(s.nodes, p) {
            let i = choose|i: int| 0 <= i < s.nodes.len() && p(#[trigger] s.nodes[i]);
            assert(s.nodes[i].id == ids::uuid_text(service.node_id));
        }
        if exists|i: int|
            0 <= i < s.nodes.len() && (#[trigger] s.nodes[i]).id == ids::uuid_text(
                service.node_id,
            ) {
            let i = choose|i: int|
                0 <= i < s.nodes.len() && (#[trigger] s.nodes[i]).id == ids::uuid_text(
                    service.node_id,
                );
            assert(p(s.nodes[i]));
        }
    }
}

/// A service is created for a node that is there, under a subdomain that can be
/// one and that no other service has; where another has it, that is what is
/// told.
pub proof fn law_service_request_is_granted(
    s: StoreModel,
    req: CreateServiceRequest,
    now: Timestamp,
    id: Uuid,
    subdomain: Seq<char>,
)
    requires
        store::got_node(s, req.node_id) is Ok,
        plan::subdomain_of(req.subdomain@) == Some(subdomain),
    ensures
        clock::stamp_text(now) is Ok ==> {
            let r = http::service_created(s, req, now, id).1;
            &&& !has_service(s, id, subdomain) ==> r is Ok
            &&& has_service(s, id, subdomain) ==> r is Err && r->Err_0 == (ApiErrModel {
                status: 409,
                message: "that subdomain"@ + " is already taken"@,
            })
        },
{
    let service = http::service_for(req, now, id, subdomain);
    law_service_is_taken_in_where_it_fits(s, service);
    let p = store::node_with_id(ids::uuid_text(req.node_id));
    table::lemma_first(s.nodes, p);
    let i = choose|i: int| 0 <= i < s.nodes.len() && p(#[trigger] s.nodes[i]);
    assert(s.nodes[i].id == ids::uuid_text(req.node_id));
}

// ---- ports --------------------------------------------------------------

/// A mapping that has no place is told that its public port is taken.
pub proof fn law_misplaced_mappings_are_told_so(s: StoreModel, mapping: PortMappingModel)
    ensures
        store::port_added(s, mapping).1 matches Err(e) ==> e == StoreErrorModel::Conflict(
            "that public port"@,
        ),
{
}

/// Whoever leaves the public port open gets the server's own where nothing
/// speaks for it, otherwise the lowest of the range that nothing speaks for, and
/// is refused only where there is none.
pub proof fn law_open_port_request_is_granted(
    s: StoreModel,
    config: Config,
    service_id: Uuid,
    req: AddPortRequestModel,
    id: Uuid,
)
    requires
        req.edge_port is None || req.edge_port == Some(0u16),
        req.local_port != 0,
        store::got_service(s, service_id) is Ok,
        plan::local_host_of(req.local_host) is Some,
        http::range_ok(config),
        store::taken_ports(s) is Ok,
        forall|i: int|
            0 <= i < s.ports.len() ==> (#[trigger] s.ports[i]).id != ids::uuid_text(id),
    ensures
        ({
            let (after, r) = http::port_created(s, config, service_id, req, id);
            let start = config.gateway.edge_port_range_start;
            let end = config.gateway.edge_port_range_end;
            &&& !http_laws::spoken_for(s, config, req.protocol, req.local_port) ==> r is Ok
                && after.ports.last().edge_port == req.local_port
            &&& http_laws::spoken_for(s, config, req.protocol, req.local_port) && r is Ok
                ==> forall|q: u16|
                start <= q < after.ports.last().edge_port ==> #[trigger] http_laws::spoken_for(
                    s,
                    config,
                    req.protocol,
                    q,
                )
            &&& r is Err ==> {
                &&& r->Err_0.status == 400
                &&& forall|q: u16|
                    start <= q <= end ==> #[trigger] http_laws::spoken_for(
                        s,
                        config,
                        req.protocol,
                        q,
                    )
            }
        }),
{
    let taken = store::taken_ports(s)->Ok_0;
    let busy = http::unavailable(taken, config);
    let range = http::port_range(config);
    allocator::lemma_between(
        config.gateway.edge_port_range_start,
        config.gateway.edge_port_range_end,
    );
    http_laws::lemma_unavailable(s, config, taken, req.protocol, req.local_port);
    plan_laws::law_blank_port_prefers_the_local_one(busy, range, req);
    assert forall|q: u16| #[trigger] http_laws::spoken_for(s, config, req.protocol, q)
        == busy.contains((req.protocol, q)) by {
        http_laws::lemma_unavailable(s, config, taken, req.protocol, q);
    }
    let p = store::port_with_id(ids::uuid_text(id));
    assert(!table::any(s.ports, p)) by {
        if table::any(s.ports, p) {
            let i = choose|i: int| 0 <= i < s.ports.len() && p(#[trigger] s.ports[i]);
            assert(s.ports[i].id == ids::uuid_text(id));
        }
    }
    http::law_allocated_port_never_conflicts(s, config, service_id, req, id);
    http_laws::law_port_is_added_as_asked(s, config, service_id, req, id);
}

/// A request for a port is refused with what is wrong with it: no such service,
/// no such host, no range to choose from, or no port of the server.
pub proof fn law_bad_port_requests_are_told_why(
    s: StoreModel,
    config: Config,
    service_id: Uuid,
    req: AddPortRequestModel,
    id: Uuid,
)
    ensures
        ({
            let r = http::port_created(s, config, service_id, req, id).1;
            &&& store::got_service(s, service_id) == Err::<ServiceModel, StoreErrorModel>(
                StoreErrorModel::NotFound,
            ) ==> r is Err && r->Err_0 == (ApiErrModel { status: 404, message: "not found"@ })
            &&& store::got_service(s, service_id) is Ok ==> {
                &&& plan::local_host_of(req.local_host) is None ==> r is Err && r->Err_0 == (
                ApiErrModel {
                    status: 400,
                    message: "`"@ + req.local_host
                        + "` is not a valid address for the server behind the node"@,
                })
                &&& plan::local_host_of(req.local_host) is Some ==> {
                    &&& !(1024 <= config.gateway.edge_port_range_start
                        <= config.gateway.edge_port_range_end) ==> r is Err && r->Err_0.status
                        == 500
                    &&& 1024 <= config.gateway.edge_port_range_start
                        <= config.gateway.edge_port_range_end && store::taken_ports(s) is Ok
                        && req.local_port == 0 ==> r is Err && r->Err_0 == (ApiErrModel {
                        status: 400,
                        message: "port numbers must be between 1 and 65535"@,
                    })
                }
            }
        }),
{
    if let Ok(taken) = store::taken_ports(s) {
        plan_laws::law_local_port_must_be_one(
            http::unavailable(taken, config),
            http::port_range(config),
            req,
        );
    }
}

// ---- what is shown ------------------------------------------------------

/// The nodes are shown wherever nodes and services can be read.
pub proof fn law_readable_nodes_are_shown(s: StoreModel, now: Timestamp)
    ensures
        http::node_views(s, now) is Ok <==> store::listed_nodes(s) is Ok && store::listed_services(
            s,
        ) is Ok,
{
}

} // verus!
