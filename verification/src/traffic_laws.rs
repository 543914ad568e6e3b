//! What is stored, what is read back of it, and whose traffic it moves, told
//! row by row.

use crate::addr;
use crate::addr::Ipv4Addr;
use crate::api::ForwardModel;
use crate::clock;
use crate::clock::Timestamp;
use crate::ids;
use crate::ids::Uuid;
use crate::model;
use crate::model::{NodeModel, PortMappingModel, Protocol, ServiceModel};
use crate::net;
use crate::net::Ipv4Net;
use crate::rows;
use crate::rows::{
    NodeRow, NodeRowModel, PortRow, PortRowModel, ServiceRow, ServiceRowModel, Unique,
};
use crate::store;
use crate::store::{ActiveForward, StoreErrorModel, StoreModel};
use crate::store_laws;
use crate::table;
use crate::text;
use crate::token;
use vstd::prelude::*;

verus! {

// ---- reading rows -------------------------------------------------------

/// A protocol is read from its name in any case, and from nothing else.
pub proof fn law_protocol_is_read_by_name(raw: Seq<char>)
    ensures
        model::protocol_read(raw) == Some(Protocol::Tcp) <==> text::lower(raw) == "tcp"@,
        model::protocol_read(raw) == Some(Protocol::Udp) <==> text::lower(raw) == "udp"@,
        Protocol::Tcp.name() == "tcp"@,
        Protocol::Udp.name() == "udp"@,
{
    reveal_strlit("tcp");
    reveal_strlit("udp");
    assert("tcp"@[0] != "udp"@[0]);
}

/// What a node's row says is what is read of the node, column by column.
pub proof fn law_node_is_its_row(row: NodeRowModel)
    ensures
        rows::node_of(row) matches Ok(node) ==> {
            &&& ids::uuid_parsed(row.id) == Some(node.id)
            &&& node.name == row.name
            &&& node.public_key == row.public_key
            &&& addr::ipv4_read(row.tunnel_ip) == Some(node.tunnel_ip)
            &&& clock::stamp_read(row.created_at) == Ok::<Timestamp, Seq<char>>(node.created_at)
            &&& row.last_handshake is None <==> node.last_handshake is None
            &&& row.last_handshake matches Some(raw) ==> clock::stamp_read(raw) == Ok::<
                Timestamp,
                Seq<char>,
            >(node.last_handshake->0)
        },
        rows::node_of(row) is Ok <==> {
            &&& ids::uuid_parsed(row.id) is Some
            &&& addr::ipv4_read(row.tunnel_ip) is Some
            &&& clock::stamp_read(row.created_at) is Ok
            &&& row.last_handshake matches Some(raw) ==> clock::stamp_read(raw) is Ok
        },
{
}

/// What a service's row says is what is read of the service, column by column.
pub proof fn law_service_is_its_row(row: ServiceRowModel)
    ensures
        rows::service_of(row) matches Ok(service) ==> {
            &&& ids::uuid_parsed(row.id) == Some(service.id)
            &&& ids::uuid_parsed(row.node_id) == Some(service.node_id)
            &&& service.name == row.name
            &&& service.subdomain == row.subdomain
            &&& service.enabled == (row.enabled != 0)
            &&& clock::stamp_read(row.created_at) == Ok::<Timestamp, Seq<char>>(
                service.created_at,
            )
        },
        rows::service_of(row) is Ok <==> {
            &&& ids::uuid_parsed(row.id) is Some
            &&& ids::uuid_parsed(row.node_id) is Some
            &&& clock::stamp_read(row.created_at) is Ok
        },
{
}

/// What a mapping's row says is what is read of the mapping, column by column.
/// It has SRV settings where both labels are stored; a priority or weight that
/// is not stored is 0 or 5.
pub proof fn law_mapping_is_its_row(row: PortRowModel)
    ensures
        rows::mapping_of(row) matches Ok(mapping) ==> {
            &&& ids::uuid_parsed(row.id) == Some(mapping.id)
            &&& ids::uuid_parsed(row.service_id) == Some(mapping.service_id)
            &&& model::protocol_read(row.protocol) == Some(mapping.protocol)
            &&& mapping.local_host == row.local_host
            &&& mapping.local_port == row.local_port
            &&& mapping.edge_port == row.edge_port
            &&& mapping.srv is Some <==> row.srv_service is Some && row.srv_proto is Some
            &&& mapping.srv matches Some(srv) ==> {
                &&& row.srv_service == Some(srv.service)
                &&& row.srv_proto == Some(srv.proto)
                &&& row.srv_priority == Some(srv.priority) || (row.srv_priority is None
                    && srv.priority == 0)
                &&& row.srv_weight == Some(srv.weight) || (row.srv_weight is None && srv.weight
                    == 5)
            }
        },
        rows::mapping_of(row) is Ok <==> {
            &&& ids::uuid_parsed(row.id) is Some
            &&& ids::uuid_parsed(row.service_id) is Some
            &&& model::protocol_read(row.protocol) is Some
        },
{
}

// ---- looking up ---------------------------------------------------------

/// The row with an identifier is the one that is looked up, and where there is
/// no such row nothing is found.
pub proof fn law_identifiers_find_their_rows(s: StoreModel, id: Uuid)
    requires
        s.valid(),
    ensures
        forall|i: int|
            0 <= i < s.nodes.len() && (#[trigger] s.nodes[i]).id == ids::uuid_text(id)
                ==> store::got_node(s, id) == rows::node_of(s.nodes[i]),
        (forall|i: int| 0 <= i < s.nodes.len() ==> (#[trigger] s.nodes[i]).id != ids::uuid_text(id))
            ==> store::got_node(s, id) == Err::<NodeModel, StoreErrorModel>(
            StoreErrorModel::NotFound,
        ),
        forall|i: int|
            0 <= i < s.services.len() && (#[trigger] s.services[i]).id == ids::uuid_text(id) ==> {
                &&& store::got_service(s, id) == rows::service_of(s.services[i])
                &&& store::dns_synced(s, id) == Ok::<bool, StoreErrorModel>(
                    s.services[i].dns_synced != 0,
                )
            },
        (forall|i: int|
            0 <= i < s.services.len() ==> (#[trigger] s.services[i]).id != ids::uuid_text(id)) ==> {
            &&& store::got_service(s, id) == Err::<ServiceModel, StoreErrorModel>(
                StoreErrorModel::NotFound,
            )
            &&& store::dns_synced(s, id) == Err::<bool, StoreErrorModel>(StoreErrorModel::NotFound)
        },
{
    let text = ids::uuid_text(id);
    let p = store::node_with_id(text);
    let q = store::service_with_id(text);
    table::lemma_first(s.nodes, p);
    table::lemma_first(s.services, q);
    assert forall|i: int|
        0 <= i < s.nodes.len() && (#[trigger] s.nodes[i]).id == text implies table::first(
        s.nodes,
        p,
    ) == Some(s.nodes[i]) by {
        lemma_only_node(s, i);
    }
    assert forall|i: int|
        0 <= i < s.services.len() && (#[trigger] s.services[i]).id == text implies table::first(
        s.services,
        q,
    ) == Some(s.services[i]) by {
        lemma_only_service(s, i);
    }
    if table::any(s.nodes, p) {
        let i = choose|i: int| 0 <= i < s.nodes.len() && p(#[trigger] s.nodes[i]);
        assert(s.nodes[i].id == text);
    }
    if table::any(s.services, q) {
        let i = choose|i: int| 0 <= i < s.services.len() && q(#[trigger] s.services[i]);
        assert(s.services[i].id == text);
    }
}

proof fn lemma_only_node(s: StoreModel, i: int)
    requires
        s.valid(),
        0 <= i < s.nodes.len(),
    ensures
        table::first(s.nodes, store::node_with_id(s.nodes[i].id)) == Some(s.nodes[i]),
{
    let p = store::node_with_id(s.nodes[i].id);
    assert forall|j: int| 0 <= j < s.nodes.len() && p(#[trigger] s.nodes[j]) implies s.nodes[j]
        == s.nodes[i] by {
        if j < i {
            assert(!NodeRow::clash(s.nodes[j], s.nodes[i]));
        } else if i < j {
            assert(!NodeRow::clash(s.nodes[i], s.nodes[j]));
        }
    }
    table::lemma_first_is(s.nodes, p, i);
}

proof fn lemma_only_service(s: StoreModel, i: int)
    requires
        s.valid(),
        0 <= i < s.services.len(),
    ensures
        table::first(s.services, store::service_with_id(s.services[i].id)) == Some(s.services[i]),
{
    let p = store::service_with_id(s.services[i].id);
    assert forall|j: int|
        0 <= j < s.services.len() && p(#[trigger] s.services[j]) implies s.services[j]
        == s.services[i] by {
        if j < i {
            assert(!ServiceRow::clash(s.services[j], s.services[i]));
        } else if i < j {
            assert(!ServiceRow::clash(s.services[i], s.services[j]));
        }
    }
    table::lemma_first_is(s.services, p, i);
}

/// A key lets in the node whose hash it has, and no other; a key whose hash no
/// node has lets nobody in.
pub proof fn law_a_key_lets_its_node_in(s: StoreModel, key: Seq<char>)
    requires
        s.valid(),
    ensures
        forall|i: int|
            0 <= i < s.nodes.len() && (#[trigger] s.nodes[i]).key_hash == token::token_hash(key)
                ==> store::authenticated(s, key) == rows::node_of(s.nodes[i]),
        (forall|i: int|
            0 <= i < s.nodes.len() ==> (#[trigger] s.nodes[i]).key_hash != token::token_hash(key))
            ==> store::authenticated(s, key) == Err::<NodeModel, StoreErrorModel>(
            StoreErrorModel::NotFound,
        ),
{
    let hash = token::token_hash(key);
    let p = store::node_with_hash(hash);
    table::lemma_first(s.nodes, p);
    assert forall|i: int|
        0 <= i < s.nodes.len() && (#[trigger] s.nodes[i]).key_hash == hash implies table::first(
        s.nodes,
        p,
    ) == Some(s.nodes[i]) by {
        assert forall|j: int| 0 <= j < s.nodes.len() && p(#[trigger] s.nodes[j]) implies s.nodes[j]
            == s.nodes[i] by {
            if j < i {
                assert(!NodeRow::clash(s.nodes[j], s.nodes[i]));
            } else if i < j {
                assert(!NodeRow::clash(s.nodes[i], s.nodes[j]));
            }
        }
        table::lemma_first_is(s.nodes, p, i);
    }
    if table::any(s.nodes, p) {
        let i = choose|i: int| 0 <= i < s.nodes.len() && p(#[trigger] s.nodes[i]);
        assert(s.nodes[i].key_hash == hash);
    }
}

/// What must not be shared: nodes share no identifier, key or address,
/// services no identifier or subdomain, mappings no identifier and no public
/// port of one protocol. Anything else may be.
pub proof fn law_what_must_be_unique(s: StoreModel)
    ensures
        s.valid() <==> {
            &&& forall|i: int, j: int|
                0 <= i < j < s.nodes.len() ==> (#[trigger] s.nodes[i]).id != (
                #[trigger] s.nodes[j]).id && s.nodes[i].key_hash != s.nodes[j].key_hash
                    && s.nodes[i].tunnel_ip != s.nodes[j].tunnel_ip
            &&& forall|i: int, j: int|
                0 <= i < j < s.services.len() ==> (#[trigger] s.services[i]).id != (
                #[trigger] s.services[j]).id && s.services[i].subdomain != s.services[j].subdomain
            &&& forall|i: int, j: int|
                0 <= i < j < s.ports.len() ==> (#[trigger] s.ports[i]).id != (
                #[trigger] s.ports[j]).id && (s.ports[i].protocol != s.ports[j].protocol
                    || s.ports[i].edge_port != s.ports[j].edge_port)
        },
{
    if s.valid() {
        assert forall|i: int, j: int| 0 <= i < j < s.nodes.len() implies (#[trigger] s.nodes[i]).id
            != (#[trigger] s.nodes[j]).id && s.nodes[i].key_hash != s.nodes[j].key_hash
            && s.nodes[i].tunnel_ip != s.nodes[j].tunnel_ip by {
            assert(!NodeRow::clash(s.nodes[i], s.nodes[j]));
        }
        assert forall|i: int, j: int| 0 <= i < j < s.services.len() implies (
        #[trigger] s.services[i]).id != (#[trigger] s.services[j]).id && s.services[i].subdomain
            != s.services[j].subdomain by {
            assert(!ServiceRow::clash(s.services[i], s.services[j]));
        }
        assert forall|i: int, j: int| 0 <= i < j < s.ports.len() implies (#[trigger] s.ports[i]).id
            != (#[trigger] s.ports[j]).id && (s.ports[i].protocol != s.ports[j].protocol
            || s.ports[i].edge_port != s.ports[j].edge_port) by {
            assert(!PortRow::clash(s.ports[i], s.ports[j]));
        }
    }
}

// ---- listings -----------------------------------------------------------

/// Every node is listed, in the order they were created, each as its row says.
pub proof fn law_nodes_are_listed_by_creation(s: StoreModel) -> (r: Seq<NodeRowModel>)
    ensures
        r.to_multiset() == s.nodes.to_multiset(),
        forall|i: int, j: int|
            0 <= i < j < r.len() ==> text::text_le(
                (#[trigger] r[i]).created_at,
                (#[trigger] r[j]).created_at,
            ),
        store::listed_nodes(s) matches Ok(v) ==> v.len() == r.len() && forall|i: int|
            0 <= i < v.len() ==> rows::node_of(#[trigger] r[i]) == Ok::<NodeModel, StoreErrorModel>(
                v[i],
            ),
        store::listed_nodes(s) is Ok <==> forall|i: int|
            0 <= i < s.nodes.len() ==> rows::node_of(#[trigger] s.nodes[i]) is Ok,
{
    let le = table::le_of::<NodeRow>();
    let r = table::ordered(s.nodes, le);
    store_laws::law_listings_are_ordered(s);
    table::lemma_collected_each(r, store::node_reader());
    lemma_listing_succeeds(s.nodes, le, store::node_reader());
    assert forall|i: int, j: int| 0 <= i < j < r.len() implies text::text_le(
        (#[trigger] r[i]).created_at,
        (#[trigger] r[j]).created_at,
    ) by {
        assert(le(r[i], r[j]));
    }
    if let Ok(v) = store::listed_nodes(s) {
        assert forall|i: int| 0 <= i < v.len() implies rows::node_of(#[trigger] r[i]) == Ok::<
            NodeModel,
            StoreErrorModel,
        >(v[i]) by {
            assert(store::node_reader()(r[i]) == Ok::<NodeModel, StoreErrorModel>(v[i]));
        }
    }
    if forall|i: int| 0 <= i < s.nodes.len() ==> rows::node_of(#[trigger] s.nodes[i]) is Ok {
        assert forall|i: int| 0 <= i < s.nodes.len() implies store::node_reader()(
            #[trigger] s.nodes[i],
        ) is Ok by {}
    }
    if store::listed_nodes(s) is Ok {
        assert forall|i: int| 0 <= i < s.nodes.len() implies rows::node_of(
            #[trigger] s.nodes[i],
        ) is Ok by {
            assert(store::node_reader()(s.nodes[i]) is Ok);
        }
    }
    r
}

/// A listing is read where each of its rows is.
proof fn lemma_listing_succeeds<R, M, E>(
    s: Seq<R>,
    le: spec_fn(R, R) -> bool,
    f: spec_fn(R) -> Result<M, E>,
)
    ensures
        table::collected(table::ordered(s, le), f) is Ok <==> forall|i: int|
            0 <= i < s.len() ==> f(#[trigger] s[i]) is Ok,
{
    let r = table::ordered(s, le);
    table::lemma_ordered_members(s, le);
    table::lemma_collected_each(r, f);
    if forall|i: int| 0 <= i < s.len() ==> f(#[trigger] s[i]) is Ok {
        assert forall|i: int| 0 <= i < r.len() implies f(#[trigger] r[i]) is Ok by {
            assert(r.contains(r[i]));
            let k = choose|k: int| 0 <= k < s.len() && s[k] == r[i];
            assert(f(s[k]) is Ok);
        }
        table::lemma_collected_all(r, f);
    }
    if table::collected(r, f) is Ok {
        assert forall|i: int| 0 <= i < s.len() implies f(#[trigger] s[i]) is Ok by {
            assert(s.contains(s[i]));
            assert(r.contains(s[i]));
            let k = choose|k: int| 0 <= k < r.len() && r[k] == s[i];
            assert(f(r[k]) is Ok);
        }
    }
}

/// Every service is listed, in the order of their subdomains, each as its row
/// says.
pub proof fn law_services_are_listed_by_subdomain(s: StoreModel) -> (r: Seq<ServiceRowModel>)
    ensures
        r.to_multiset() == s.services.to_multiset(),
        forall|i: int, j: int|
            0 <= i < j < r.len() ==> text::text_le(
                (#[trigger] r[i]).subdomain,
                (#[trigger] r[j]).subdomain,
            ),
        store::listed_services(s) matches Ok(v) ==> v.len() == r.len() && forall|i: int|
            0 <= i < v.len() ==> rows::service_of(#[trigger] r[i]) == Ok::<
                ServiceModel,
                StoreErrorModel,
            >(v[i]),
        store::listed_services(s) is Ok <==> forall|i: int|
            0 <= i < s.services.len() ==> rows::service_of(#[trigger] s.services[i]) is Ok,
{
    let le = table::le_of::<ServiceRow>();
    let r = table::ordered(s.services, le);
    store_laws::law_listings_are_ordered(s);
    table::lemma_collected_each(r, store::service_reader());
    lemma_listing_succeeds(s.services, le, store::service_reader());
    assert forall|i: int, j: int| 0 <= i < j < r.len() implies text::text_le(
        (#[trigger] r[i]).subdomain,
        (#[trigger] r[j]).subdomain,
    ) by {
        assert(le(r[i], r[j]));
    }
    if let Ok(v) = store::listed_services(s) {
        assert forall|i: int| 0 <= i < v.len() implies rows::service_of(#[trigger] r[i]) == Ok::<
            ServiceModel,
            StoreErrorModel,
        >(v[i]) by {
            assert(store::service_reader()(r[i]) == Ok::<ServiceModel, StoreErrorModel>(v[i]));
        }
    }
    if forall|i: int|
        0 <= i < s.services.len() ==> rows::service_of(#[trigger] s.services[i]) is Ok {
        assert forall|i: int| 0 <= i < s.services.len() implies store::service_reader()(
            #[trigger] s.services[i],
        ) is Ok by {}
    }
    if store::listed_services(s) is Ok {
        assert forall|i: int| 0 <= i < s.services.len() implies rows::service_of(
            #[trigger] s.services[i],
        ) is Ok by {
            assert(store::service_reader()(s.services[i]) is Ok);
        }
    }
    r
}

/// A mapping of a service.
pub open spec fn belongs_to(service: Seq<char>) -> spec_fn(PortRowModel) -> bool {
    |row: PortRowModel| row.service_id == service
}

/// The mappings of a service are those that name it, by protocol and public
/// port, each as its row says.
pub proof fn law_mappings_are_those_of_the_service(s: StoreModel, service: Uuid) -> (r: Seq<
    PortRowModel,
>)
    ensures
        r.to_multiset() == s.ports.filter(belongs_to(ids::uuid_text(service))).to_multiset(),
        forall|i: int, j: int|
            0 <= i < j < r.len() ==> {
                let a = #[trigger] r[i];
                let b = #[trigger] r[j];
                if a.protocol == b.protocol {
                    a.edge_port <= b.edge_port
                } else {
                    text::text_le(a.protocol, b.protocol)
                }
            },
        store::ports_of(s, service) matches Ok(v) ==> v.len() == r.len() && forall|i: int|
            0 <= i < v.len() ==> rows::mapping_of(#[trigger] r[i]) == Ok::<
                PortMappingModel,
                StoreErrorModel,
            >(v[i]),
{
    let le = table::le_of::<PortRow>();
    let mine = s.ports.filter(store::port_of_service(ids::uuid_text(service)));
    table::lemma_filter_same(
        s.ports,
        store::port_of_service(ids::uuid_text(service)),
        belongs_to(ids::uuid_text(service)),
    );
    let r = table::ordered(mine, le);
    store_laws::law_listings_are_ordered(StoreModel { ports: mine, ..s });
    table::lemma_collected_each(r, store::mapping_reader());
    assert forall|i: int, j: int| 0 <= i < j < r.len() implies {
        let a = #[trigger] r[i];
        let b = #[trigger] r[j];
        if a.protocol == b.protocol {
            a.edge_port <= b.edge_port
        } else {
            text::text_le(a.protocol, b.protocol)
        }
    } by {
        assert(le(r[i], r[j]));
    }
    if let Ok(v) = store::ports_of(s, service) {
        assert forall|i: int| 0 <= i < v.len() implies rows::mapping_of(#[trigger] r[i]) == Ok::<
            PortMappingModel,
            StoreErrorModel,
        >(v[i]) by {
            assert(store::mapping_reader()(r[i]) == Ok::<PortMappingModel, StoreErrorModel>(v[i]));
        }
    }
    r
}

/// The ports in use are the public ports of all mappings, whether their
/// services are enabled or not.
pub proof fn law_every_public_port_is_in_use(s: StoreModel)
    ensures
        store::taken_ports(s) matches Ok(v) ==> v.len() == s.ports.len() && forall|i: int|
            0 <= i < v.len() ==> (#[trigger] v[i]).1 == s.ports[i].edge_port
                && model::protocol_read(s.ports[i].protocol) == Some(v[i].0),
{
    table::lemma_collected_each(s.ports, store::port_reader());
    if let Ok(v) = store::taken_ports(s) {
        assert forall|i: int| 0 <= i < v.len() implies (#[trigger] v[i]).1 == s.ports[i].edge_port
            && model::protocol_read(s.ports[i].protocol) == Some(v[i].0) by {
            assert(store::port_reader()(s.ports[i]) == Ok::<(Protocol, u16), StoreErrorModel>(
                v[i],
            ));
        }
    }
}

// ---- whose traffic ------------------------------------------------------

/// Whether a mapping is of an enabled service on this node.
pub open spec fn enabled_on(s: StoreModel, row: PortRowModel, node: Seq<char>) -> bool {
    exists|j: int|
        0 <= j < s.services.len() && (#[trigger] s.services[j]).id == row.service_id
            && s.services[j].enabled == 1 && s.services[j].node_id == node
}

proof fn lemma_forwarded(s: StoreModel, row: PortRowModel, node: Seq<char>)
    requires
        s.valid(),
    ensures
        store::forwarded_to(s, node)(row) <==> enabled_on(s, row, node),
{
    let p = store::service_with_id(row.service_id);
    table::lemma_first(s.services, p);
    if enabled_on(s, row, node) {
        let j = choose|j: int|
            0 <= j < s.services.len() && (#[trigger] s.services[j]).id == row.service_id
                && s.services[j].enabled == 1 && s.services[j].node_id == node;
        lemma_only_service(s, j);
    }
    if store::forwarded_to(s, node)(row) {
        let service = table::first(s.services, p)->0;
        let j = choose|j: int| 0 <= j < s.services.len() && s.services[j] == service;
        assert(s.services[j].id == row.service_id);
    }
}

/// A node is assigned the mappings of its enabled services, all of them and no
/// other: each forward listens on the public port and goes to the host and port
/// at home that the mapping names.
pub proof fn law_assignment_is_the_enabled_mappings(s: StoreModel, node_id: Uuid)
    requires
        s.valid(),
    ensures
        store::forwards_of(s, node_id) matches Ok(v) ==> {
            &&& forall|i: int|
                0 <= i < s.ports.len() && enabled_on(s, #[trigger] s.ports[i], ids::uuid_text(node_id))
                    ==> exists|k: int|
                    0 <= k < v.len() && is_forward_of(#[trigger] v[k], s.ports[i])
            &&& forall|k: int|
                0 <= k < v.len() ==> exists|i: int|
                    0 <= i < s.ports.len() && is_forward_of(#[trigger] v[k], #[trigger] s.ports[i])
                        && enabled_on(s, s.ports[i], ids::uuid_text(node_id))
            &&& v.len() == s.ports.filter(
                |row: PortRowModel| enabled_on(s, row, ids::uuid_text(node_id)),
            ).len()
        },
{
    let node = ids::uuid_text(node_id);
    let p = store::forwarded_to(s, node);
    let raw = |row: PortRowModel| enabled_on(s, row, node);
    let le = table::le_of::<PortRow>();
    let mine = s.ports.filter(p);
    let sorted = table::ordered(mine, le);
    assert forall|i: int| 0 <= i < s.ports.len() implies p(#[trigger] s.ports[i]) == raw(
        s.ports[i],
    ) by {
        lemma_forwarded(s, s.ports[i], node);
    }
    table::lemma_filter_same(s.ports, p, raw);
    table::lemma_filter_members(s.ports, p);
    table::lemma_ordered_members(mine, le);
    table::lemma_collected_each(sorted, store::forward_reader());
    store_laws::law_listings_are_ordered(StoreModel { ports: mine, ..s });
    lemma_same_length(mine, sorted);
    if let Ok(v) = store::forwards_of(s, node_id) {
        assert forall|i: int|
            0 <= i < s.ports.len() && enabled_on(s, #[trigger] s.ports[i], node) implies exists|
            k: int,
        |
            0 <= k < v.len() && is_forward_of(#[trigger] v[k], s.ports[i]) by {
            assert(p(s.ports[i]));
            assert(s.ports.contains(s.ports[i]));
            assert(mine.contains(s.ports[i]));
            assert(sorted.contains(s.ports[i]));
            let k = choose|k: int| 0 <= k < sorted.len() && sorted[k] == s.ports[i];
            assert(store::forward_reader()(sorted[k]) == Ok::<ForwardModel, StoreErrorModel>(v[k]));
            assert(is_forward_of(v[k], s.ports[i]));
        }
        assert forall|k: int| 0 <= k < v.len() implies exists|i: int|
            0 <= i < s.ports.len() && is_forward_of(#[trigger] v[k], #[trigger] s.ports[i])
                && enabled_on(s, s.ports[i], node) by {
            assert(store::forward_reader()(sorted[k]) == Ok::<ForwardModel, StoreErrorModel>(v[k]));
            assert(sorted.contains(sorted[k]));
            assert(mine.contains(sorted[k]));
            let i = choose|i: int| 0 <= i < s.ports.len() && s.ports[i] == sorted[k];
            assert(p(s.ports[i]));
            assert(is_forward_of(v[k], s.ports[i]));
        }
    }
}

proof fn lemma_same_length(a: Seq<PortRowModel>, b: Seq<PortRowModel>)
    requires
        b.to_multiset() == a.to_multiset(),
    ensures
        a.len() == b.len(),
{
    broadcast use vstd::seq_lib::group_to_multiset_ensures;

    assert(a.to_multiset().len() == a.len());
    assert(b.to_multiset().len() == b.len());
}

/// Whether a forward is what a mapping asks of its node's agent.
pub open spec fn is_forward_of(f: ForwardModel, row: PortRowModel) -> bool {
    &&& f.tunnel_port == row.edge_port
    &&& f.local_host == row.local_host
    &&& f.local_port == row.local_port
    &&& model::protocol_read(row.protocol) == Some(f.protocol)
}

/// Whether a mapping is of an enabled service, on a node that is there and has
/// this address.
pub open spec fn enabled_behind(s: StoreModel, row: PortRowModel, ip: Ipv4Addr) -> bool {
    exists|n: int|
        0 <= n < s.nodes.len() && enabled_on(s, row, (#[trigger] s.nodes[n]).id)
            && addr::ipv4_read(s.nodes[n].tunnel_ip) == Some(ip)
}

/// Whether a rule of the packet filter is what a mapping asks of the gateway.
pub open spec fn is_rule_of(f: ActiveForward, row: PortRowModel) -> bool {
    &&& f.edge_port == row.edge_port
    &&& f.local_port == row.local_port
    &&& model::protocol_read(row.protocol) == Some(f.protocol)
    &&& ids::uuid_parsed(row.service_id) == Some(f.service_id)
}

proof fn lemma_live(s: StoreModel, row: PortRowModel)
    requires
        s.valid(),
    ensures
        store::live(s)(row) <==> exists|n: int|
            0 <= n < s.nodes.len() && enabled_on(s, row, (#[trigger] s.nodes[n]).id),
        forall|n: int|
            0 <= n < s.nodes.len() && enabled_on(s, row, (#[trigger] s.nodes[n]).id)
                ==> store::node_behind(s, row) == Some(s.nodes[n]),
{
    let p = store::service_with_id(row.service_id);
    table::lemma_first(s.services, p);
    assert forall|n: int|
        0 <= n < s.nodes.len() && enabled_on(s, row, (#[trigger] s.nodes[n]).id) implies
        store::node_behind(s, row) == Some(s.nodes[n]) && store::live(s)(row) by {
        let j = choose|j: int|
            0 <= j < s.services.len() && (#[trigger] s.services[j]).id == row.service_id
                && s.services[j].enabled == 1 && s.services[j].node_id == s.nodes[n].id;
        lemma_only_service(s, j);
        lemma_only_node(s, n);
    }
    if store::live(s)(row) {
        let service = table::first(s.services, p)->0;
        let j = choose|j: int| 0 <= j < s.services.len() && s.services[j] == service;
        let q = store::node_with_id(service.node_id);
        table::lemma_first(s.nodes, q);
        let node = table::first(s.nodes, q)->0;
        let n = choose|n: int| 0 <= n < s.nodes.len() && s.nodes[n] == node;
        assert(s.services[j].id == row.service_id);
        assert(enabled_on(s, row, s.nodes[n].id));
    }
}

/// The packet filter moves the mappings of enabled services, all of them and no
/// other: each at its public port, to the tunnel address of the node that the
/// service runs on.
pub proof fn law_rules_are_the_enabled_mappings(s: StoreModel)
    requires
        s.valid(),
    ensures
        store::active_of(s) matches Ok(v) ==> {
            &&& forall|i: int, n: int|
                0 <= i < s.ports.len() && 0 <= n < s.nodes.len() && enabled_on(
                    s,
                    #[trigger] s.ports[i],
                    (#[trigger] s.nodes[n]).id,
                ) ==> exists|k: int|
                    0 <= k < v.len() && is_rule_of(#[trigger] v[k], s.ports[i]) && addr::ipv4_read(
                        s.nodes[n].tunnel_ip,
                    ) == Some(v[k].tunnel_ip)
            &&& forall|k: int|
                0 <= k < v.len() ==> exists|i: int|
                    0 <= i < s.ports.len() && is_rule_of(#[trigger] v[k], #[trigger] s.ports[i])
                        && enabled_behind(s, s.ports[i], v[k].tunnel_ip)
        },
{
    let le = table::le_of::<PortRow>();
    let f = store::active_reader(s);
    let p = store::live(s);
    let mine = s.ports.filter(p);
    let sorted = table::ordered(mine, le);
    table::lemma_filter_members(s.ports, p);
    table::lemma_ordered_members(mine, le);
    table::lemma_collected_each(sorted, f);
    if let Ok(v) = store::active_of(s) {
        assert forall|i: int, n: int|
            0 <= i < s.ports.len() && 0 <= n < s.nodes.len() && enabled_on(
                s,
                #[trigger] s.ports[i],
                (#[trigger] s.nodes[n]).id,
            ) implies exists|k: int|
            0 <= k < v.len() && is_rule_of(#[trigger] v[k], s.ports[i]) && addr::ipv4_read(
                s.nodes[n].tunnel_ip,
            ) == Some(v[k].tunnel_ip) by {
            lemma_live(s, s.ports[i]);
            assert(s.ports.contains(s.ports[i]));
            assert(mine.contains(s.ports[i]));
            assert(sorted.contains(s.ports[i]));
            let k = choose|k: int| 0 <= k < sorted.len() && sorted[k] == s.ports[i];
            assert(f(sorted[k]) == Ok::<ActiveForward, StoreErrorModel>(v[k]));
            assert(is_rule_of(v[k], s.ports[i]));
        }
        assert forall|k: int| 0 <= k < v.len() implies exists|i: int|
            0 <= i < s.ports.len() && is_rule_of(#[trigger] v[k], #[trigger] s.ports[i])
                && enabled_behind(s, s.ports[i], v[k].tunnel_ip) by {
            assert(f(sorted[k]) == Ok::<ActiveForward, StoreErrorModel>(v[k]));
            assert(sorted.contains(sorted[k]));
            assert(mine.contains(sorted[k]));
            let i = choose|i: int| 0 <= i < s.ports.len() && s.ports[i] == sorted[k];
            lemma_live(s, s.ports[i]);
            let n = choose|n: int|
                0 <= n < s.nodes.len() && enabled_on(s, s.ports[i], (#[trigger] s.nodes[n]).id);
            assert(store::node_behind(s, s.ports[i]) == Some(s.nodes[n]));
            assert(enabled_behind(s, s.ports[i], v[k].tunnel_ip));
            assert(is_rule_of(v[k], s.ports[i]));
        }
    }
}

/// What the packet filter sends to a port of a node's tunnel address, that
/// node's agent listens for there: for each mapping of an enabled service there
/// is a rule and a forward of the same protocol, and the port in the tunnel
/// that the agent listens on is the public port of the rule.
pub proof fn law_agent_listens_where_packets_arrive(
    s: StoreModel,
    i: int,
    n: int,
    node_id: Uuid,
    rules: Seq<ActiveForward>,
    assigned: Seq<ForwardModel>,
) -> (r: (int, int))
    requires
        s.valid(),
        0 <= i < s.ports.len(),
        0 <= n < s.nodes.len(),
        s.nodes[n].id == ids::uuid_text(node_id),
        enabled_on(s, s.ports[i], s.nodes[n].id),
        store::active_of(s) == Ok::<Seq<ActiveForward>, StoreErrorModel>(rules),
        store::forwards_of(s, node_id) == Ok::<Seq<ForwardModel>, StoreErrorModel>(assigned),
    ensures
        0 <= r.0 < rules.len(),
        0 <= r.1 < assigned.len(),
        addr::ipv4_read(s.nodes[n].tunnel_ip) == Some(rules[r.0].tunnel_ip),
        rules[r.0].edge_port == s.ports[i].edge_port,
        assigned[r.1].tunnel_port == rules[r.0].edge_port,
        assigned[r.1].protocol == rules[r.0].protocol,
        assigned[r.1].local_port == s.ports[i].local_port,
        assigned[r.1].local_host == s.ports[i].local_host,
{
    law_rules_are_the_enabled_mappings(s);
    law_assignment_is_the_enabled_mappings(s, node_id);
    let k = choose|k: int|
        0 <= k < rules.len() && is_rule_of(#[trigger] rules[k], s.ports[i]) && addr::ipv4_read(
            s.nodes[n].tunnel_ip,
        ) == Some(rules[k].tunnel_ip);
    let a = choose|a: int|
        0 <= a < assigned.len() && is_forward_of(#[trigger] assigned[a], s.ports[i]);
    (k, a)
}

// ---- changes ------------------------------------------------------------

/// A node that is created is one more row, and everything else stays: it has
/// the name and identifier it was given, the hash of its key, no public key and
/// no handshake yet, and the lowest address of the subnet that is neither the
/// gateway's nor another node's.
pub proof fn law_created_node_is_one_more_row(
    s: StoreModel,
    name: Seq<char>,
    subnet: Ipv4Net,
    gateway_ip: Ipv4Addr,
    now: Timestamp,
    id: Uuid,
    key: Seq<char>,
)
    ensures
        ({
            let (after, r) = store::node_created(s, name, subnet, gateway_ip, now, id, key);
            &&& r is Err ==> after == s
            &&& r matches Ok(made) ==> {
                let row = after.nodes.last();
                &&& after.nodes == s.nodes.push(row)
                &&& after.services == s.services
                &&& after.ports == s.ports
                &&& row.id == ids::uuid_text(id)
                &&& row.name == name
                &&& row.key_hash == token::token_hash(key)
                &&& row.public_key is None
                &&& row.last_handshake is None
                &&& clock::stamp_text(now) == Ok::<Seq<char>, Seq<char>>(row.created_at)
                &&& addr::ipv4_read(row.tunnel_ip) == Some(made.0.tunnel_ip)
                &&& made.1 == key
                &&& made.0.id == id
                &&& made.0.name == name
                &&& made.0.public_key is None
                &&& made.0.last_handshake is None
                &&& made.0.created_at == now
                &&& made.0.tunnel_ip != gateway_ip
                &&& forall|ip: Ipv4Addr|
                    #![trigger subnet.is_host(ip)]
                    subnet.is_host(ip) && ip.bits < made.0.tunnel_ip.bits ==> ip == gateway_ip
                        || exists|i: int|
                        0 <= i < s.nodes.len() && addr::ipv4_read(
                            (#[trigger] s.nodes[i]).tunnel_ip,
                        ) == Some(ip)
            }
        }),
{
    let (after, r) = store::node_created(s, name, subnet, gateway_ip, now, id, key);
    if let Ok(made) = r {
        let row = after.nodes.last();
        assert(after.nodes =~= s.nodes.push(row));
        addr::law_ipv4_round_trip(made.0.tunnel_ip);
        store_laws::law_new_address_is_unused(s, name, subnet, gateway_ip, now, id, key);
        let taken = store::taken_addresses(s, gateway_ip)->Ok_0;
        let others = table::collected(s.nodes, store::address_reader())->Ok_0;
        let mine = made.0.tunnel_ip;
        assert(net::lowest_free_host(subnet, taken, mine));
        table::lemma_collected_each(s.nodes, store::address_reader());
        assert forall|ip: Ipv4Addr|
            #![trigger subnet.is_host(ip)]
            subnet.is_host(ip) && ip.bits < mine.bits implies ip == gateway_ip || exists|i: int|
            0 <= i < s.nodes.len() && addr::ipv4_read((#[trigger] s.nodes[i]).tunnel_ip) == Some(
                ip,
            ) by {
            assert(taken.contains(ip));
            let t = choose|t: int| 0 <= t < taken.len() && taken[t] == ip;
            if t > 0 {
                assert(others[t - 1] == ip);
                assert(store::address_reader()(s.nodes[t - 1]) == Ok::<Ipv4Addr, StoreErrorModel>(
                    ip,
                ));
            }
        }
    }
}

/// A service that is added is one more row, and everything else stays: it is as
/// it was given, and its records are not known to be published.
pub proof fn law_added_service_is_one_more_row(s: StoreModel, service: ServiceModel)
    ensures
        ({
            let (after, r) = store::service_inserted(s, service);
            &&& r is Err ==> after == s
            &&& r is Ok ==> {
                let row = after.services.last();
                &&& after.services == s.services.push(row)
                &&& after.nodes == s.nodes
                &&& after.ports == s.ports
                &&& row.id == ids::uuid_text(service.id)
                &&& row.node_id == ids::uuid_text(service.node_id)
                &&& row.name == service.name
                &&& row.subdomain == service.subdomain
                &&& row.enabled == if service.enabled {
                    1i64
                } else {
                    0i64
                }
                &&& row.dns_synced == 0
                &&& clock::stamp_text(service.created_at) == Ok::<Seq<char>, Seq<char>>(
                    row.created_at,
                )
                &&& forall|i: int|
                    0 <= i < s.services.len() ==> (#[trigger] s.services[i]).subdomain
                        != service.subdomain && s.services[i].id != ids::uuid_text(service.id)
                &&& exists|i: int|
                    0 <= i < s.nodes.len() && (#[trigger] s.nodes[i]).id == ids::uuid_text(
                        service.node_id,
                    )
            }
        }),
{
    let (after, r) = store::service_inserted(s, service);
    if r is Ok {
        let row = after.services.last();
        assert(after.services =~= s.services.push(row));
        assert forall|i: int| 0 <= i < s.services.len() implies (
        #[trigger] s.services[i]).subdomain != service.subdomain && s.services[i].id
            != ids::uuid_text(service.id) by {
            assert(!ServiceRow::clash(s.services[i], row));
        }
        let p = store::node_with_id(ids::uuid_text(service.node_id));
        let i = choose|i: int| 0 <= i < s.nodes.len() && p(#[trigger] s.nodes[i]);
        assert(s.nodes[i].id == ids::uuid_text(service.node_id));
    }
}

/// A mapping that is added is one more row, as it was given, and everything
/// else stays. It is added where its service is there and nothing else has its
/// identifier or its public port.
pub proof fn law_added_mapping_is_one_more_row(s: StoreModel, mapping: PortMappingModel)
    ensures
        ({
            let (after, r) = store::port_added(s, mapping);
            &&& r is Err ==> after == s
            &&& r is Ok ==> {
                let row = after.ports.last();
                &&& after.ports == s.ports.push(row)
                &&& after.nodes == s.nodes
                &&& after.services == s.services
                &&& row.id == ids::uuid_text(mapping.id)
                &&& row.service_id == ids::uuid_text(mapping.service_id)
                &&& row.protocol == if mapping.protocol == Protocol::Tcp {
                    "tcp"@
                } else {
                    "udp"@
                }
                &&& row.local_host == mapping.local_host
                &&& row.local_port == mapping.local_port
                &&& row.edge_port == mapping.edge_port
                &&& rows::srv_of(row) == mapping.srv
            }
            &&& r is Ok <==> {
                &&& exists|i: int|
                    0 <= i < s.services.len() && (#[trigger] s.services[i]).id == ids::uuid_text(
                        mapping.service_id,
                    )
                &&& forall|i: int|
                    0 <= i < s.ports.len() ==> (#[trigger] s.ports[i]).id != ids::uuid_text(
                        mapping.id,
                    ) && (s.ports[i].protocol != mapping.protocol.name() || s.ports[i].edge_port
                        != mapping.edge_port)
            }
        }),
{
    let (after, r) = store::port_added(s, mapping);
    let row = store::port_row_of(mapping);
    let p = store::service_with_id(ids::uuid_text(mapping.service_id));
    if r is Ok {
        assert(after.ports =~= s.ports.push(row));
        let i = choose|i: int| 0 <= i < s.services.len() && p(#[trigger] s.services[i]);
        assert(s.services[i].id == ids::uuid_text(mapping.service_id));
        assert forall|i: int| 0 <= i < s.ports.len() implies (#[trigger] s.ports[i]).id
            != ids::uuid_text(mapping.id) && (s.ports[i].protocol != mapping.protocol.name()
            || s.ports[i].edge_port != mapping.edge_port) by {
            assert(!PortRow::clash(s.ports[i], row));
        }
    }
    if exists|i: int|
        0 <= i < s.services.len() && (#[trigger] s.services[i]).id == ids::uuid_text(
            mapping.service_id,
        ) {
        let i = choose|i: int|
            0 <= i < s.services.len() && (#[trigger] s.services[i]).id == ids::uuid_text(
                mapping.service_id,
            );
        assert(p(s.services[i]));
    }
}

/// A new public key, a handshake, a switch or a mark changes one column of the
/// rows with the identifier, and nothing else anywhere.
pub proof fn law_changes_touch_one_column(
    s: StoreModel,
    id: Uuid,
    key: Seq<char>,
    at: Timestamp,
    on: bool,
)
    ensures
        ({
            let text = ids::uuid_text(id);
            let keyed = store::key_set(s, id, key);
            let heard = store::handshake_recorded(s, id, at);
            let switched = store::service_switched(s, id, on);
            let marked = store::service_marked(s, id, on);
            let flag: i64 = if on {
                1
            } else {
                0
            };
            &&& keyed.services == s.services && keyed.ports == s.ports && keyed.nodes.len()
                == s.nodes.len()
            &&& forall|i: int|
                0 <= i < s.nodes.len() ==> #[trigger] keyed.nodes[i] == if s.nodes[i].id == text {
                    NodeRowModel { public_key: Some(key), ..s.nodes[i] }
                } else {
                    s.nodes[i]
                }
            &&& heard.1 is Err ==> heard.0 == s
            &&& heard.0.services == s.services && heard.0.ports == s.ports && heard.0.nodes.len()
                == s.nodes.len()
            &&& clock::stamp_text(at) matches Ok(written) ==> heard.1 is Ok && forall|i: int|
                0 <= i < s.nodes.len() ==> #[trigger] heard.0.nodes[i] == if s.nodes[i].id == text {
                    NodeRowModel { last_handshake: Some(written), ..s.nodes[i] }
                } else {
                    s.nodes[i]
                }
            &&& switched.nodes == s.nodes && switched.ports == s.ports && switched.services.len()
                == s.services.len()
            &&& forall|i: int|
                0 <= i < s.services.len() ==> #[trigger] switched.services[i]
                    == if s.services[i].id == text {
                    ServiceRowModel { enabled: flag, ..s.services[i] }
                } else {
                    s.services[i]
                }
            &&& marked.nodes == s.nodes && marked.ports == s.ports && marked.services.len()
                == s.services.len()
            &&& forall|i: int|
                0 <= i < s.services.len() ==> #[trigger] marked.services[i]
                    == if s.services[i].id == text {
                    ServiceRowModel { dns_synced: flag, ..s.services[i] }
                } else {
                    s.services[i]
                }
        }),
{
}

/// Deleting a mapping takes the row with its identifier, and no other.
pub proof fn law_deleting_a_mapping_takes_its_row(s: StoreModel, id: Uuid, row: PortRowModel)
    ensures
        ({
            let (after, r) = store::port_deleted(s, id);
            &&& after.nodes == s.nodes && after.services == s.services
            &&& after.ports.contains(row) <==> s.ports.contains(row) && row.id != ids::uuid_text(id)
            &&& (exists|i: int|
                0 <= i < s.ports.len() && (#[trigger] s.ports[i]).id == ids::uuid_text(id)) || r
                == Err::<Uuid, StoreErrorModel>(StoreErrorModel::NotFound)
        }),
{
    let gone = ids::uuid_text(id);
    let p = store::port_with_id(gone);
    table::lemma_first(s.ports, p);
    table::lemma_filter_members(s.ports, store::not_port(gone));
    if table::first(s.ports, p) is None {
        if s.ports.contains(row) {
            let i = choose|i: int| 0 <= i < s.ports.len() && s.ports[i] == row;
            assert(!p(s.ports[i]));
        }
    } else {
        let i = choose|i: int| 0 <= i < s.ports.len() && p(#[trigger] s.ports[i]);
        assert(s.ports[i].id == gone);
    }
}

/// Deleting a service takes its row and the mappings that name it, and nothing
/// else.
pub proof fn law_deleting_a_service_takes_its_rows(
    s: StoreModel,
    id: Uuid,
    service: ServiceRowModel,
    port: PortRowModel,
)
    requires
        exists|i: int|
            0 <= i < s.services.len() && (#[trigger] s.services[i]).id == ids::uuid_text(id),
    ensures
        ({
            let after = store::service_deleted(s, id);
            &&& after.nodes == s.nodes
            &&& after.services.contains(service) <==> s.services.contains(service) && service.id
                != ids::uuid_text(id)
            &&& after.ports.contains(port) <==> s.ports.contains(port) && port.service_id
                != ids::uuid_text(id)
        }),
{
    let gone = ids::uuid_text(id);
    let i = choose|i: int| 0 <= i < s.services.len() && (#[trigger] s.services[i]).id == gone;
    assert(store::service_with_id(gone)(s.services[i]));
    table::lemma_filter_members(s.services, store::not_service(gone));
    table::lemma_filter_members(s.ports, store::not_of_service(gone));
}

/// Deleting a node takes its row, the services that run on it and the mappings
/// that name one of those, and nothing else.
pub proof fn law_deleting_a_node_takes_its_rows(
    s: StoreModel,
    id: Uuid,
    node: NodeRowModel,
    service: ServiceRowModel,
    port: PortRowModel,
)
    requires
        exists|i: int| 0 <= i < s.nodes.len() && (#[trigger] s.nodes[i]).id == ids::uuid_text(id),
    ensures
        ({
            let after = store::node_deleted(s, id);
            let gone = ids::uuid_text(id);
            &&& after.nodes.contains(node) <==> s.nodes.contains(node) && node.id != gone
            &&& after.services.contains(service) <==> s.services.contains(service)
                && service.node_id != gone
            &&& after.ports.contains(port) <==> s.ports.contains(port) && !(exists|j: int|
                0 <= j < s.services.len() && (#[trigger] s.services[j]).id == port.service_id
                    && s.services[j].node_id == gone)
        }),
{
    let gone = ids::uuid_text(id);
    let i = choose|i: int| 0 <= i < s.nodes.len() && (#[trigger] s.nodes[i]).id == gone;
    assert(store::node_with_id(gone)(s.nodes[i]));
    table::lemma_filter_members(s.nodes, store::not_node(gone));
    table::lemma_filter_members(s.services, store::not_on_node(gone));
    table::lemma_filter_members(s.ports, store::not_behind_node(s.services, gone));
    let p = store::on_node(port.service_id, gone);
    if table::any(s.services, p) {
        let j = choose|j: int| 0 <= j < s.services.len() && p(#[trigger] s.services[j]);
        assert(s.services[j].id == port.service_id && s.services[j].node_id == gone);
    }
    if exists|j: int|
        0 <= j < s.services.len() && (#[trigger] s.services[j]).id == port.service_id
            && s.services[j].node_id == gone {
        let j = choose|j: int|
            0 <= j < s.services.len() && (#[trigger] s.services[j]).id == port.service_id
                && s.services[j].node_id == gone;
        assert(p(s.services[j]));
    }
}

/// A database is refused exactly where it has services that cannot name the
/// node they run on.
pub proof fn law_only_older_databases_are_refused(columns: Seq<Seq<char>>)
    ensures
        store::compatible(None),
        store::compatible(Some(columns)) <==> exists|i: int|
            0 <= i < columns.len() && #[trigger] columns[i] == "node_id"@,
{
}

} // verus!
