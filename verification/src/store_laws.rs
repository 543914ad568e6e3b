//! What holds of the store whatever is asked of it.

use crate::addr;
use crate::addr::Ipv4Addr;
use crate::api::ForwardModel;
use crate::clock::Timestamp;
use crate::forward;
use crate::ids;
use crate::ids::Uuid;
use crate::model::{NodeModel, PortMappingModel, Protocol, ServiceModel};
use crate::net;
use crate::net::Ipv4Net;
use crate::rows;
use crate::rows::{
    NodeRow, NodeRowModel, PortRow, PortRowModel, ServiceRow, ServiceRowModel, Unique,
};
use crate::store;
use crate::store::{ActiveForward, StoreErrorModel, StoreModel};
use crate::table;
use crate::text;
use crate::token;
use vstd::prelude::*;

verus! {

// ---- rows under change --------------------------------------------------

/// Where a row that was kept came from.
proof fn lemma_kept<V>(s: Seq<V>, keep: spec_fn(V) -> bool, k: int) -> (i: int)
    requires
        0 <= k < s.filter(keep).len(),
    ensures
        0 <= i < s.len(),
        s[i] == s.filter(keep)[k],
        keep(s[i]),
    decreases s.len(),
{
    reveal(Seq::filter);
    let head = s.drop_last();
    if keep(s.last()) && k == head.filter(keep).len() {
        s.len() - 1
    } else {
        lemma_kept(head, keep, k)
    }
}

/// Where a row that meets `keep` went.
proof fn lemma_keeps<V>(s: Seq<V>, keep: spec_fn(V) -> bool, i: int) -> (k: int)
    requires
        0 <= i < s.len(),
        keep(s[i]),
    ensures
        0 <= k < s.filter(keep).len(),
        s.filter(keep)[k] == s[i],
    decreases s.len(),
{
    reveal(Seq::filter);
    let head = s.drop_last();
    if i == head.len() {
        head.filter(keep).len() as int
    } else {
        lemma_keeps(head, keep, i)
    }
}

/// What is looked up after a change that keeps `p` is the changed row.
pub proof fn lemma_first_mapped<V>(s: Seq<V>, p: spec_fn(V) -> bool, change: spec_fn(V) -> V)
    requires
        forall|x: V| p(#[trigger] change(x)) == p(x),
    ensures
        match table::first(s, p) {
            Some(x) => table::first(s.map_values(change), p) == Some(change(x)),
            None => table::first(s.map_values(change), p) is None,
        },
        table::any(s.map_values(change), p) == table::any(s, p),
    decreases s.len(),
{
    let t = s.map_values(change);
    if s.len() > 0 {
        lemma_first_mapped(s.drop_last(), p, change);
        assert(t.drop_last() =~= s.drop_last().map_values(change));
        assert(t.last() == change(s.last()));
    }
    table::lemma_first(s, p);
    table::lemma_first(t, p);
}

/// Whether something is found does not change when rows that are not looked
/// for leave.
proof fn lemma_any_filtered<V>(s: Seq<V>, p: spec_fn(V) -> bool, keep: spec_fn(V) -> bool)
    requires
        forall|x: V| #[trigger] p(x) ==> keep(x),
    ensures
        table::any(s.filter(keep), p) == table::any(s, p),
{
    if table::any(s, p) {
        let i = choose|i: int| 0 <= i < s.len() && p(#[trigger] s[i]);
        let k = lemma_keeps(s, keep, i);
        assert(p(s.filter(keep)[k]));
    }
    if table::any(s.filter(keep), p) {
        let k = choose|k: int| 0 <= k < s.filter(keep).len() && p(#[trigger] s.filter(keep)[k]);
        let i = lemma_kept(s, keep, k);
        assert(p(s[i]));
    }
}

/// What is looked up does not change when rows that are not looked for leave.
proof fn lemma_first_filtered<V>(s: Seq<V>, p: spec_fn(V) -> bool, keep: spec_fn(V) -> bool)
    requires
        forall|x: V| #[trigger] p(x) ==> keep(x),
    ensures
        table::first(s.filter(keep), p) == table::first(s, p),
    decreases s.len(),
{
    reveal(Seq::filter);
    if s.len() > 0 {
        lemma_first_filtered(s.drop_last(), p, keep);
        let head = s.drop_last().filter(keep);
        if keep(s.last()) {
            assert(s.filter(keep) =~= head.push(s.last()));
            assert(s.filter(keep).drop_last() =~= head);
        } else {
            assert(s.filter(keep) =~= head);
        }
    }
}

/// Something that is found is found still once more rows are added.
proof fn lemma_any_pushed<V>(s: Seq<V>, p: spec_fn(V) -> bool, x: V)
    requires
        table::any(s, p),
    ensures
        table::any(s.push(x), p),
{
    let i = choose|i: int| 0 <= i < s.len() && p(#[trigger] s[i]);
    assert(s.push(x)[i] == s[i]);
}

proof fn lemma_apart_pushed<T: Unique>(s: Seq<T::V>, x: T::V)
    requires
        store::apart::<T>(s),
        store::fits::<T>(s, x),
    ensures
        store::apart::<T>(s.push(x)),
{
    let t = s.push(x);
    assert forall|i: int, j: int| 0 <= i < j < t.len() implies !(#[trigger] T::clash(
        t[i],
        t[j],
    )) by {
        if j < s.len() {
            assert(!T::clash(s[i], s[j]));
        } else {
            assert(!T::clash(s[i], x));
        }
    }
}

proof fn lemma_apart_filtered<T: Unique>(s: Seq<T::V>, keep: spec_fn(T::V) -> bool)
    requires
        store::apart::<T>(s),
    ensures
        store::apart::<T>(s.filter(keep)),
{
    let apart = |a: T::V, b: T::V| !T::clash(a, b);
    let kept = s.filter(keep);
    assert(table::ascending(s, apart)) by {
        assert forall|i: int, j: int| 0 <= i < j < s.len() implies #[trigger] apart(s[i], s[j]) by {
            assert(!T::clash(s[i], s[j]));
        }
    }
    table::lemma_ascending_filtered(s, keep, apart);
    assert forall|i: int, j: int| 0 <= i < j < kept.len() implies !(#[trigger] T::clash(
        kept[i],
        kept[j],
    )) by {
        assert(apart(kept[i], kept[j]));
    }
}

proof fn lemma_apart_mapped<T: Unique>(s: Seq<T::V>, change: spec_fn(T::V) -> T::V)
    requires
        store::apart::<T>(s),
        forall|a: T::V, b: T::V| #[trigger]
            T::clash(change(a), change(b)) ==> T::clash(a, b),
    ensures
        store::apart::<T>(s.map_values(change)),
{
    let t = s.map_values(change);
    assert forall|i: int, j: int| 0 <= i < j < t.len() implies !(#[trigger] T::clash(
        t[i],
        t[j],
    )) by {
        assert(!T::clash(s[i], s[j]));
        assert(t[i] == change(s[i]) && t[j] == change(s[j]));
    }
}

// ---- the schema's promises ----------------------------------------------

/// Creating a node keeps what the schema promises, and every row linked
/// where every row was.
pub proof fn law_create_node_keeps_the_schema(
    s: StoreModel,
    name: Seq<char>,
    subnet: Ipv4Net,
    gateway_ip: Ipv4Addr,
    now: Timestamp,
    id: Uuid,
    key: Seq<char>,
)
    requires
        s.valid(),
    ensures
        store::node_created(s, name, subnet, gateway_ip, now, id, key).0.valid(),
        s.linked() ==> store::node_created(s, name, subnet, gateway_ip, now, id, key).0.linked(),
{
    let (after, r) = store::node_created(s, name, subnet, gateway_ip, now, id, key);
    if r is Ok {
        law_new_address_is_unused(s, name, subnet, gateway_ip, now, id, key);
        let row = after.nodes.last();
        let ip = r->Ok_0.0.tunnel_ip;
        assert(after.nodes =~= s.nodes.push(row));
        assert(store::fits::<NodeRow>(s.nodes, row)) by {
            assert forall|i: int| 0 <= i < s.nodes.len() implies !NodeRow::clash(
                #[trigger] s.nodes[i],
                row,
            ) by {
                assert(!store::node_with_id(ids::uuid_text(id))(s.nodes[i]));
                assert(!store::node_with_hash(token::token_hash(key))(s.nodes[i]));
                addr::law_ipv4_round_trip(ip);
            }
        }
        lemma_apart_pushed::<NodeRow>(s.nodes, row);
        assert forall|i: int| s.linked() && 0 <= i < after.services.len() implies table::any(
            after.nodes,
            store::node_with_id((#[trigger] after.services[i]).node_id),
        ) by {
            lemma_any_pushed(s.nodes, store::node_with_id(s.services[i].node_id), row);
        }
    }
}

/// A new node's address is an assignable one of the subnet that neither the
/// gateway nor any other node has.
pub proof fn law_new_address_is_unused(
    s: StoreModel,
    name: Seq<char>,
    subnet: Ipv4Net,
    gateway_ip: Ipv4Addr,
    now: Timestamp,
    id: Uuid,
    key: Seq<char>,
)
    ensures
        store::node_created(s, name, subnet, gateway_ip, now, id, key).1 matches Ok(made) ==> {
            &&& subnet.is_host(made.0.tunnel_ip)
            &&& made.0.tunnel_ip != gateway_ip
            &&& forall|i: int|
                0 <= i < s.nodes.len() ==> addr::ipv4_read((#[trigger] s.nodes[i]).tunnel_ip)
                    != Some(made.0.tunnel_ip)
        },
{
    let (after, r) = store::node_created(s, name, subnet, gateway_ip, now, id, key);
    if let Ok(made) = r {
        let taken = store::taken_addresses(s, gateway_ip)->Ok_0;
        let others = table::collected(s.nodes, store::address_reader())->Ok_0;
        let ip = made.0.tunnel_ip;
        assert(net::lowest_free_host(subnet, taken, ip));
        assert(taken[0] == gateway_ip);
        table::lemma_collected_each(s.nodes, store::address_reader());
        assert forall|i: int| 0 <= i < s.nodes.len() implies addr::ipv4_read(
            (#[trigger] s.nodes[i]).tunnel_ip,
        ) != Some(ip) by {
            assert(store::address_reader()(s.nodes[i]) == Ok::<Ipv4Addr, StoreErrorModel>(
                others[i],
            ));
            assert(taken[i + 1] == others[i]);
        }
    }
}

proof fn lemma_nodes_mapped(s: StoreModel, change: spec_fn(NodeRowModel) -> NodeRowModel)
    requires
        s.valid(),
        forall|row: NodeRowModel|
            (#[trigger] change(row)).id == row.id && change(row).key_hash == row.key_hash
                && change(row).tunnel_ip == row.tunnel_ip,
    ensures
        (StoreModel { nodes: s.nodes.map_values(change), ..s }).valid(),
        s.linked() ==> (StoreModel { nodes: s.nodes.map_values(change), ..s }).linked(),
{
    let after = StoreModel { nodes: s.nodes.map_values(change), ..s };
    lemma_apart_mapped::<NodeRow>(s.nodes, change);
    assert forall|i: int| s.linked() && 0 <= i < after.services.len() implies table::any(
        after.nodes,
        store::node_with_id((#[trigger] after.services[i]).node_id),
    ) by {
        lemma_first_mapped(s.nodes, store::node_with_id(s.services[i].node_id), change);
    }
}

/// Announcing a public key keeps what the schema promises, and every row linked
/// where every row was.
pub proof fn law_set_key_keeps_the_schema(s: StoreModel, id: Uuid, key: Seq<char>)
    requires
        s.valid(),
    ensures
        store::key_set(s, id, key).valid(),
        s.linked() ==> store::key_set(s, id, key).linked(),
{
    lemma_nodes_mapped(s, store::keyed(ids::uuid_text(id), key));
}

/// Noting a handshake keeps what the schema promises, and every row linked
/// where every row was.
pub proof fn law_record_handshake_keeps_the_schema(s: StoreModel, id: Uuid, at: Timestamp)
    requires
        s.valid(),
    ensures
        store::handshake_recorded(s, id, at).0.valid(),
        s.linked() ==> store::handshake_recorded(s, id, at).0.linked(),
{
    if store::handshake_recorded(s, id, at).1 is Ok {
        let text = crate::clock::stamp_text(at)->Ok_0;
        lemma_nodes_mapped(s, store::heard(ids::uuid_text(id), text));
    }
}

proof fn lemma_services_mapped(
    s: StoreModel,
    change: spec_fn(ServiceRowModel) -> ServiceRowModel,
)
    requires
        s.valid(),
        forall|row: ServiceRowModel|
            (#[trigger] change(row)).id == row.id && change(row).subdomain == row.subdomain
                && change(row).node_id == row.node_id,
    ensures
        (StoreModel { services: s.services.map_values(change), ..s }).valid(),
        s.linked() ==> (StoreModel { services: s.services.map_values(change), ..s }).linked(),
{
    let after = StoreModel { services: s.services.map_values(change), ..s };
    lemma_apart_mapped::<ServiceRow>(s.services, change);
    assert forall|i: int| s.linked() && 0 <= i < after.services.len() implies table::any(
        after.nodes,
        store::node_with_id((#[trigger] after.services[i]).node_id),
    ) by {
        assert(after.services[i] == change(s.services[i]));
    }
    assert forall|i: int| s.linked() && 0 <= i < after.ports.len() implies table::any(
        after.services,
        store::service_with_id((#[trigger] after.ports[i]).service_id),
    ) by {
        lemma_first_mapped(
            s.services,
            store::service_with_id(s.ports[i].service_id),
            change,
        );
    }
}

/// Turning a service on or off keeps what the schema promises, and every row linked
/// where every row was.
pub proof fn law_switch_keeps_the_schema(s: StoreModel, id: Uuid, enabled: bool)
    requires
        s.valid(),
    ensures
        store::service_switched(s, id, enabled).valid(),
        s.linked() ==> store::service_switched(s, id, enabled).linked(),
{
    lemma_services_mapped(s, store::switched(ids::uuid_text(id), store::flag(enabled)));
}

/// Noting whether records are published keeps what the schema promises, and every row linked
/// where every row was.
pub proof fn law_mark_keeps_the_schema(s: StoreModel, id: Uuid, synced: bool)
    requires
        s.valid(),
    ensures
        store::service_marked(s, id, synced).valid(),
        s.linked() ==> store::service_marked(s, id, synced).linked(),
{
    lemma_services_mapped(s, store::marked(ids::uuid_text(id), store::flag(synced)));
}

/// Adding a service keeps what the schema promises, and every row linked
/// where every row was.
pub proof fn law_insert_service_keeps_the_schema(s: StoreModel, service: ServiceModel)
    requires
        s.valid(),
    ensures
        store::service_inserted(s, service).0.valid(),
        s.linked() ==> store::service_inserted(s, service).0.linked(),
{
    let (after, r) = store::service_inserted(s, service);
    if r is Ok {
        let row = after.services.last();
        assert(after.services =~= s.services.push(row));
        lemma_apart_pushed::<ServiceRow>(s.services, row);
        assert forall|i: int| s.linked() && 0 <= i < after.services.len() implies table::any(
            after.nodes,
            store::node_with_id((#[trigger] after.services[i]).node_id),
        ) by {
            if i < s.services.len() {
                assert(after.services[i] == s.services[i]);
            }
        }
        assert forall|i: int| s.linked() && 0 <= i < after.ports.len() implies table::any(
            after.services,
            store::service_with_id((#[trigger] after.ports[i]).service_id),
        ) by {
            lemma_any_pushed(
                s.services,
                store::service_with_id(s.ports[i].service_id),
                row,
            );
        }
    }
}

/// Adding a mapping keeps what the schema promises, and every row linked
/// where every row was.
pub proof fn law_add_port_keeps_the_schema(s: StoreModel, mapping: PortMappingModel)
    requires
        s.valid(),
    ensures
        store::port_added(s, mapping).0.valid(),
        s.linked() ==> store::port_added(s, mapping).0.linked(),
{
    let (after, r) = store::port_added(s, mapping);
    if r is Ok {
        let row = store::port_row_of(mapping);
        lemma_apart_pushed::<PortRow>(s.ports, row);
        assert forall|i: int| s.linked() && 0 <= i < after.ports.len() implies table::any(
            after.services,
            store::service_with_id((#[trigger] after.ports[i]).service_id),
        ) by {
            if i < s.ports.len() {
                assert(after.ports[i] == s.ports[i]);
            }
        }
    }
}

/// What remains of mappings after some leave still has its service.
proof fn lemma_ports_filtered(
    s: StoreModel,
    services: Seq<ServiceRowModel>,
    keep: spec_fn(PortRowModel) -> bool,
)
    requires
        s.valid(),
        forall|row: PortRowModel| #[trigger]
            keep(row) && table::any(s.services, store::service_with_id(row.service_id))
                ==> table::any(services, store::service_with_id(row.service_id)),
    ensures
        store::apart::<PortRow>(s.ports.filter(keep)),
        s.linked() ==> forall|i: int|
            0 <= i < s.ports.filter(keep).len() ==> table::any(
                services,
                store::service_with_id((#[trigger] s.ports.filter(keep)[i]).service_id),
            ),
{
    lemma_apart_filtered::<PortRow>(s.ports, keep);
    let kept = s.ports.filter(keep);
    assert forall|i: int| s.linked() && 0 <= i < kept.len() implies table::any(
        services,
        store::service_with_id((#[trigger] kept[i]).service_id),
    ) by {
        let k = lemma_kept(s.ports, keep, i);
        assert(table::any(s.services, store::service_with_id(s.ports[k].service_id)));
        assert(keep(kept[i]));
    }
}

/// Deleting a mapping keeps what the schema promises, and every row linked
/// where every row was.
pub proof fn law_delete_port_keeps_the_schema(s: StoreModel, id: Uuid)
    requires
        s.valid(),
    ensures
        store::port_deleted(s, id).0.valid(),
        s.linked() ==> store::port_deleted(s, id).0.linked(),
{
    lemma_ports_filtered(s, s.services, store::not_port(ids::uuid_text(id)));
}

/// Deleting a service keeps what the schema promises, and every row linked
/// where every row was.
pub proof fn law_delete_service_keeps_the_schema(s: StoreModel, id: Uuid)
    requires
        s.valid(),
    ensures
        store::service_deleted(s, id).valid(),
        s.linked() ==> store::service_deleted(s, id).linked(),
{
    let gone = ids::uuid_text(id);
    let after = store::service_deleted(s, id);
    if table::any(s.services, store::service_with_id(gone)) {
        lemma_apart_filtered::<ServiceRow>(s.services, store::not_service(gone));
        assert forall|row: PortRowModel| #[trigger]
            store::not_of_service(gone)(row) && table::any(
                s.services,
                store::service_with_id(row.service_id),
            ) implies table::any(after.services, store::service_with_id(row.service_id)) by {
            lemma_any_filtered(
                s.services,
                store::service_with_id(row.service_id),
                store::not_service(gone),
            );
        }
        lemma_ports_filtered(s, after.services, store::not_of_service(gone));
        assert forall|i: int| s.linked() && 0 <= i < after.services.len() implies table::any(
            after.nodes,
            store::node_with_id((#[trigger] after.services[i]).node_id),
        ) by {
            let k = lemma_kept(s.services, store::not_service(gone), i);
            assert(table::any(s.nodes, store::node_with_id(s.services[k].node_id)));
        }
    }
}

/// Deleting a node keeps what the schema promises, and every row linked
/// where every row was.
pub proof fn law_delete_node_keeps_the_schema(s: StoreModel, id: Uuid)
    requires
        s.valid(),
    ensures
        store::node_deleted(s, id).valid(),
        s.linked() ==> store::node_deleted(s, id).linked(),
{
    let gone = ids::uuid_text(id);
    let after = store::node_deleted(s, id);
    if table::any(s.nodes, store::node_with_id(gone)) {
        lemma_apart_filtered::<NodeRow>(s.nodes, store::not_node(gone));
        lemma_apart_filtered::<ServiceRow>(s.services, store::not_on_node(gone));
        let keep = store::not_behind_node(s.services, gone);
        assert forall|row: PortRowModel| #[trigger]
            keep(row) && table::any(s.services, store::service_with_id(row.service_id)) implies
            table::any(after.services, store::service_with_id(row.service_id)) by {
            let p = store::service_with_id(row.service_id);
            let i = choose|i: int| 0 <= i < s.services.len() && p(#[trigger] s.services[i]);
            let service = s.services[i];
            assert(!store::on_node(row.service_id, gone)(service));
            let k = lemma_keeps(s.services, store::not_on_node(gone), i);
            assert(p(after.services[k]));
        }
        lemma_ports_filtered(s, after.services, keep);
        assert forall|i: int| s.linked() && 0 <= i < after.services.len() implies table::any(
            after.nodes,
            store::node_with_id((#[trigger] after.services[i]).node_id),
        ) by {
            let service = after.services[i];
            let k = lemma_kept(s.services, store::not_on_node(gone), i);
            assert(table::any(s.nodes, store::node_with_id(s.services[k].node_id)));
            lemma_any_filtered(
                s.nodes,
                store::node_with_id(service.node_id),
                store::not_node(gone),
            );
        }
    }
}

// ---- listings -----------------------------------------------------------

/// Nodes are listed by creation, services by subdomain, mappings by protocol
/// and public port; each listing has every row it is about.
pub proof fn law_listings_are_ordered(s: StoreModel)
    ensures
        table::ascending(
            table::ordered(s.nodes, table::le_of::<NodeRow>()),
            table::le_of::<NodeRow>(),
        ),
        table::ascending(
            table::ordered(s.services, table::le_of::<ServiceRow>()),
            table::le_of::<ServiceRow>(),
        ),
        table::ascending(
            table::ordered(s.ports, table::le_of::<PortRow>()),
            table::le_of::<PortRow>(),
        ),
        table::ordered(s.nodes, table::le_of::<NodeRow>()).to_multiset() == s.nodes.to_multiset(),
        table::ordered(s.services, table::le_of::<ServiceRow>()).to_multiset()
            == s.services.to_multiset(),
        table::ordered(s.ports, table::le_of::<PortRow>()).to_multiset() == s.ports.to_multiset(),
{
    let le = table::le_of::<NodeRow>();
    assert(table::preorder(le)) by {
        assert forall|a: NodeRowModel, b: NodeRowModel| #[trigger] le(a, b) || le(b, a) by {
            text::lemma_text_le_total(a.created_at, b.created_at);
        }
        assert forall|a: NodeRowModel, b: NodeRowModel, c: NodeRowModel| #[trigger]
            le(a, b) && #[trigger] le(b, c) implies le(a, c) by {
            text::lemma_text_le_transitive(a.created_at, b.created_at, c.created_at);
        }
    }
    table::law_ordered_is_an_ordering(s.nodes, le);
    let le = table::le_of::<ServiceRow>();
    assert(table::preorder(le)) by {
        assert forall|a: ServiceRowModel, b: ServiceRowModel| #[trigger] le(a, b) || le(b, a) by {
            text::lemma_text_le_total(a.subdomain, b.subdomain);
        }
        assert forall|a: ServiceRowModel, b: ServiceRowModel, c: ServiceRowModel| #[trigger]
            le(a, b) && #[trigger] le(b, c) implies le(a, c) by {
            text::lemma_text_le_transitive(a.subdomain, b.subdomain, c.subdomain);
        }
    }
    table::law_ordered_is_an_ordering(s.services, le);
    lemma_mappings_are_ordered();
    table::law_ordered_is_an_ordering(s.ports, table::le_of::<PortRow>());
}

proof fn lemma_mappings_are_ordered()
    ensures
        table::preorder(table::le_of::<PortRow>()),
{
    let le = table::le_of::<PortRow>();
    assert forall|a: PortRowModel, b: PortRowModel| #[trigger] le(a, b) || le(b, a) by {
        text::lemma_text_le_total(a.protocol, b.protocol);
    }
    assert forall|a: PortRowModel, b: PortRowModel, c: PortRowModel| #[trigger]
        le(a, b) && #[trigger] le(b, c) implies le(a, c) by {
        if a.protocol != b.protocol && b.protocol != c.protocol {
            text::lemma_text_le_transitive(a.protocol, b.protocol, c.protocol);
            if a.protocol == c.protocol {
                text::lemma_text_le_antisymmetric(a.protocol, b.protocol);
            }
        }
    }
}

/// A row that is asked for and can be read is among what is listed.
pub proof fn lemma_listed<R, M, E>(
    s: Seq<R>,
    p: spec_fn(R) -> bool,
    le: spec_fn(R, R) -> bool,
    f: spec_fn(R) -> Result<M, E>,
    i: int,
)
    requires
        0 <= i < s.len(),
        p(s[i]),
    ensures
        table::collected(table::ordered(s.filter(p), le), f) matches Ok(v) ==> f(s[i]) is Ok
            && v.contains(f(s[i])->Ok_0),
{
    let rows = table::ordered(s.filter(p), le);
    let k = lemma_keeps(s, p, i);
    assert(s.filter(p).contains(s[i]));
    table::lemma_ordered_members(s.filter(p), le);
    assert(rows.contains(s[i]));
    let j = choose|j: int| 0 <= j < rows.len() && rows[j] == s[i];
    table::lemma_collected_each(rows, f);
    if let Ok(v) = table::collected(rows, f) {
        assert(f(rows[j]) == Ok::<M, E>(v[j]));
    }
}

// ---- nodes --------------------------------------------------------------

/// An agent that comes back with another key is the same node at the same
/// address; nothing but its public key is replaced.
pub proof fn law_new_key_keeps_the_node(s: StoreModel, id: Uuid, key: Seq<char>)
    ensures
        match store::got_node(s, id) {
            Ok(node) => store::got_node(store::key_set(s, id, key), id) == Ok::<
                NodeModel,
                StoreErrorModel,
            >(NodeModel { public_key: Some(key), ..node }),
            Err(e) => store::got_node(store::key_set(s, id, key), id) == Err::<
                NodeModel,
                StoreErrorModel,
            >(e),
        },
{
    let text = ids::uuid_text(id);
    lemma_first_mapped(s.nodes, store::node_with_id(text), store::keyed(text, key));
    table::lemma_first(s.nodes, store::node_with_id(text));
}

/// Another node is not affected by an agent's new key.
pub proof fn law_new_key_leaves_others(s: StoreModel, id: Uuid, key: Seq<char>, other: Uuid)
    requires
        other != id,
    ensures
        store::got_node(store::key_set(s, id, key), other) == store::got_node(s, other),
{
    let text = ids::uuid_text(other);
    ids::law_uuid_text_is_distinct(id, other);
    lemma_first_mapped(
        s.nodes,
        store::node_with_id(text),
        store::keyed(ids::uuid_text(id), key),
    );
    table::lemma_first(s.nodes, store::node_with_id(text));
}

/// Noting a handshake leaves every other node as it was.
pub proof fn law_handshake_leaves_others(s: StoreModel, id: Uuid, at: Timestamp, other: Uuid)
    requires
        other != id,
    ensures
        store::got_node(store::handshake_recorded(s, id, at).0, other) == store::got_node(s, other),
{
    if let Ok(written) = crate::clock::stamp_text(at) {
        let text = ids::uuid_text(other);
        ids::law_uuid_text_is_distinct(id, other);
        lemma_first_mapped(
            s.nodes,
            store::node_with_id(text),
            store::heard(ids::uuid_text(id), written),
        );
        table::lemma_first(s.nodes, store::node_with_id(text));
    }
}

/// Deleting a node takes its services and their mappings with it: nothing that
/// is left is on that node, and so the ports return to the pool. Rows that named
/// a node which was never there stay.
pub proof fn law_deleting_a_node_takes_everything(s: StoreModel, id: Uuid)
    ensures
        store::got_node(store::node_deleted(s, id), id) == Err::<NodeModel, StoreErrorModel>(
            StoreErrorModel::NotFound,
        ),
        table::any(s.nodes, store::node_with_id(ids::uuid_text(id))) || s.linked() ==> {
            &&& forall|i: int|
                0 <= i < store::node_deleted(s, id).services.len() ==> (
                #[trigger] store::node_deleted(s, id).services[i]).node_id != ids::uuid_text(id)
            &&& forall|i: int|
                0 <= i < store::node_deleted(s, id).ports.len() ==> !table::any(
                    s.services,
                    store::on_node(
                        (#[trigger] store::node_deleted(s, id).ports[i]).service_id,
                        ids::uuid_text(id),
                    ),
                )
        },
{
    let after = store::node_deleted(s, id);
    let gone = ids::uuid_text(id);
    let known = table::any(s.nodes, store::node_with_id(gone));
    table::lemma_first(after.nodes, store::node_with_id(gone));
    if known && table::any(after.nodes, store::node_with_id(gone)) {
        let k = choose|k: int|
            0 <= k < after.nodes.len() && store::node_with_id(gone)(#[trigger] after.nodes[k]);
        let i = lemma_kept(s.nodes, store::not_node(gone), k);
    }
    assert forall|i: int| (known || s.linked()) && 0 <= i < after.services.len() implies (
    #[trigger] after.services[i]).node_id != gone by {
        if known {
            let k = lemma_kept(s.services, store::not_on_node(gone), i);
        }
    }
    assert forall|i: int| (known || s.linked()) && 0 <= i < after.ports.len() implies !table::any(
        s.services,
        store::on_node((#[trigger] after.ports[i]).service_id, gone),
    ) by {
        if known {
            let k = lemma_kept(s.ports, store::not_behind_node(s.services, gone), i);
        }
    }
}

/// Deleting a node leaves every other node as it was.
pub proof fn law_deleting_a_node_leaves_others(s: StoreModel, id: Uuid, other: Uuid)
    requires
        other != id,
    ensures
        store::got_node(store::node_deleted(s, id), other) == store::got_node(s, other),
{
    ids::law_uuid_text_is_distinct(id, other);
    lemma_first_filtered(
        s.nodes,
        store::node_with_id(ids::uuid_text(other)),
        store::not_node(ids::uuid_text(id)),
    );
}

// ---- services -----------------------------------------------------------

/// Two services cannot have one subdomain.
pub proof fn law_duplicate_subdomain_is_refused(s: StoreModel, service: ServiceModel, i: int)
    requires
        0 <= i < s.services.len(),
        s.services[i].subdomain == service.subdomain,
    ensures
        store::service_inserted(s, service).0 == s,
        store::service_inserted(s, service).1 is Err,
{
    if let Ok(created_at) = crate::clock::stamp_text(service.created_at) {
        let row = store::service_row_of(service, created_at);
        assert(ServiceRow::clash(s.services[i], row));
    }
}

/// A service can only be added to a node that exists.
pub proof fn law_service_needs_its_node(s: StoreModel, service: ServiceModel)
    requires
        !table::any(s.nodes, store::node_with_id(ids::uuid_text(service.node_id))),
    ensures
        store::service_inserted(s, service).0 == s,
        store::service_inserted(s, service).1 is Err,
{
}

/// Turning a service on or off changes nothing else about it, and keeps every
/// mapping and so every public port it has.
pub proof fn law_switch_keeps_the_service(s: StoreModel, id: Uuid, enabled: bool)
    ensures
        match store::got_service(s, id) {
            Ok(service) => store::got_service(store::service_switched(s, id, enabled), id) == Ok::<
                ServiceModel,
                StoreErrorModel,
            >(ServiceModel { enabled, ..service }),
            Err(e) => store::got_service(store::service_switched(s, id, enabled), id) == Err::<
                ServiceModel,
                StoreErrorModel,
            >(e),
        },
        store::ports_of(store::service_switched(s, id, enabled), id) == store::ports_of(s, id),
        store::taken_ports(store::service_switched(s, id, enabled)) == store::taken_ports(s),
{
    let text = ids::uuid_text(id);
    lemma_first_mapped(
        s.services,
        store::service_with_id(text),
        store::switched(text, store::flag(enabled)),
    );
    table::lemma_first(s.services, store::service_with_id(text));
}

/// A disabled service is forwarded to no agent and through no packet filter.
pub proof fn law_disabled_service_is_not_forwarded(s: StoreModel, id: Uuid, row: PortRowModel)
    requires
        row.service_id == ids::uuid_text(id),
    ensures
        forall|node: Seq<char>|
            !(#[trigger] store::forwarded_to(store::service_switched(s, id, false), node))(row),
        !store::live(store::service_switched(s, id, false))(row),
{
    let text = ids::uuid_text(id);
    let after = store::service_switched(s, id, false);
    lemma_first_mapped(
        s.services,
        store::service_with_id(text),
        store::switched(text, store::flag(false)),
    );
    table::lemma_first(s.services, store::service_with_id(text));
    assert forall|node: Seq<char>| !(#[trigger] store::forwarded_to(after, node))(row) by {}
}

/// What is noted about a service's records is what is read.
pub proof fn law_mark_reads_back(s: StoreModel, id: Uuid, synced: bool)
    requires
        table::any(s.services, store::service_with_id(ids::uuid_text(id))),
    ensures
        store::dns_synced(store::service_marked(s, id, synced), id) == Ok::<bool, StoreErrorModel>(
            synced,
        ),
{
    let text = ids::uuid_text(id);
    lemma_first_mapped(
        s.services,
        store::service_with_id(text),
        store::marked(text, store::flag(synced)),
    );
    table::lemma_first(s.services, store::service_with_id(text));
}

/// A deleted service is gone with its mappings. Mappings that named a service
/// which was never there stay.
pub proof fn law_deleted_service_is_gone(s: StoreModel, id: Uuid)
    ensures
        store::got_service(store::service_deleted(s, id), id) == Err::<
            ServiceModel,
            StoreErrorModel,
        >(StoreErrorModel::NotFound),
        table::any(s.services, store::service_with_id(ids::uuid_text(id))) || s.linked()
            ==> store::ports_of(store::service_deleted(s, id), id) == Ok::<
            Seq<PortMappingModel>,
            StoreErrorModel,
        >(Seq::empty()),
{
    let after = store::service_deleted(s, id);
    let gone = ids::uuid_text(id);
    let known = table::any(s.services, store::service_with_id(gone));
    table::lemma_first(after.services, store::service_with_id(gone));
    if known && table::any(after.services, store::service_with_id(gone)) {
        let k = choose|k: int|
            0 <= k < after.services.len() && store::service_with_id(gone)(
                #[trigger] after.services[k],
            );
        let i = lemma_kept(s.services, store::not_service(gone), k);
    }
    let mine = after.ports.filter(store::port_of_service(gone));
    if known || s.linked() {
        if mine.len() > 0 {
            let k = lemma_kept(after.ports, store::port_of_service(gone), 0);
            if known {
                let i = lemma_kept(s.ports, store::not_of_service(gone), k);
            }
        }
        assert(mine =~= Seq::<PortRowModel>::empty());
    }
}

/// Deleting a service leaves every other service and its mappings as they
/// were.
pub proof fn law_deleting_a_service_leaves_others(s: StoreModel, id: Uuid, other: Uuid)
    requires
        other != id,
    ensures
        store::got_service(store::service_deleted(s, id), other) == store::got_service(s, other),
        store::ports_of(store::service_deleted(s, id), other) == store::ports_of(s, other),
{
    ids::law_uuid_text_is_distinct(id, other);
    let gone = ids::uuid_text(id);
    let text = ids::uuid_text(other);
    lemma_first_filtered(s.services, store::service_with_id(text), store::not_service(gone));
    table::lemma_filter_twice(
        s.ports,
        store::not_of_service(gone),
        store::port_of_service(text),
        store::port_of_service(text),
    );
}

// ---- port mappings ------------------------------------------------------

/// Two mappings cannot share a public port.
pub proof fn law_shared_port_is_refused(s: StoreModel, mapping: PortMappingModel, i: int)
    requires
        0 <= i < s.ports.len(),
        s.ports[i].protocol == mapping.protocol.name(),
        s.ports[i].edge_port == mapping.edge_port,
    ensures
        store::port_added(s, mapping) == (
            s,
            Err::<(), StoreErrorModel>(StoreErrorModel::Conflict("that public port"@)),
        ),
{
    assert(PortRow::clash(s.ports[i], store::port_row_of(mapping)));
}

/// A port that is not among those in use is accepted: what an allocator that
/// knows them hands out never conflicts.
pub proof fn law_free_port_is_accepted(
    s: StoreModel,
    mapping: PortMappingModel,
    taken: Seq<(Protocol, u16)>,
)
    requires
        store::taken_ports(s) == Ok::<Seq<(Protocol, u16)>, StoreErrorModel>(taken),
        !taken.contains((mapping.protocol, mapping.edge_port)),
        !table::any(s.ports, store::port_with_id(ids::uuid_text(mapping.id))),
        table::any(s.services, store::service_with_id(ids::uuid_text(mapping.service_id))),
    ensures
        store::port_added(s, mapping).1 is Ok,
{
    let row = store::port_row_of(mapping);
    table::lemma_collected_each(s.ports, store::port_reader());
    crate::model::law_protocol_round_trip(mapping.protocol);
    assert(store::fits::<PortRow>(s.ports, row)) by {
        assert forall|i: int| 0 <= i < s.ports.len() implies !PortRow::clash(
            #[trigger] s.ports[i],
            row,
        ) by {
            assert(!store::port_with_id(row.id)(s.ports[i]));
            assert(store::port_reader()(s.ports[i]) == Ok::<(Protocol, u16), StoreErrorModel>(
                taken[i],
            ));
            if s.ports[i].protocol == row.protocol && s.ports[i].edge_port == row.edge_port {
                assert(taken[i] == (mapping.protocol, mapping.edge_port));
            }
        }
    }
}

/// A deleted mapping's public port is free again.
pub proof fn law_deleted_port_is_free(s: StoreModel, id: Uuid, i: int)
    requires
        s.valid(),
        0 <= i < s.ports.len(),
        s.ports[i].id == ids::uuid_text(id),
    ensures
        store::port_deleted(s, id).1 == rows::id_of(s.ports[i].service_id, "service id"@),
        forall|k: int|
            0 <= k < store::port_deleted(s, id).0.ports.len() ==> {
                let left = #[trigger] store::port_deleted(s, id).0.ports[k];
                left.protocol != s.ports[i].protocol || left.edge_port != s.ports[i].edge_port
            },
{
    let gone = ids::uuid_text(id);
    let p = store::port_with_id(gone);
    assert forall|j: int| 0 <= j < s.ports.len() && p(#[trigger] s.ports[j]) implies s.ports[j]
        == s.ports[i] by {
        if j < i {
            assert(PortRow::clash(s.ports[j], s.ports[i]));
        } else if i < j {
            assert(PortRow::clash(s.ports[i], s.ports[j]));
        }
    }
    table::lemma_first_is(s.ports, p, i);
    let after = store::port_deleted(s, id).0;
    assert forall|k: int| 0 <= k < after.ports.len() implies {
        let left = #[trigger] after.ports[k];
        left.protocol != s.ports[i].protocol || left.edge_port != s.ports[i].edge_port
    } by {
        let j = lemma_kept(s.ports, store::not_port(gone), k);
        if j < i {
            assert(!PortRow::clash(s.ports[j], s.ports[i]));
        } else if i < j {
            assert(!PortRow::clash(s.ports[i], s.ports[j]));
        }
    }
}

/// Every mapping of an enabled service is in its node's assignment, at the
/// public port and with the target it was given.
pub proof fn law_enabled_mapping_is_assigned(s: StoreModel, node_id: Uuid, i: int)
    requires
        0 <= i < s.ports.len(),
        store::forwarded_to(s, ids::uuid_text(node_id))(s.ports[i]),
    ensures
        store::forwards_of(s, node_id) matches Ok(v) ==> exists|k: int|
            0 <= k < v.len() && (#[trigger] v[k]).tunnel_port == s.ports[i].edge_port
                && v[k].local_host == s.ports[i].local_host && v[k].local_port
                == s.ports[i].local_port && rows::protocol_of(s.ports[i].protocol) == Ok::<
                Protocol,
                StoreErrorModel,
            >(v[k].protocol),
{
    lemma_listed(
        s.ports,
        store::forwarded_to(s, ids::uuid_text(node_id)),
        table::le_of::<PortRow>(),
        store::forward_reader(),
        i,
    );
    if let Ok(v) = store::forwards_of(s, node_id) {
        let f = store::forward_reader()(s.ports[i])->Ok_0;
        assert(v.contains(f));
        let k = choose|k: int| 0 <= k < v.len() && v[k] == f;
        assert(v[k].tunnel_port == s.ports[i].edge_port);
    }
}

/// Whether every mapping's protocol is stored under the name it is written
/// with.
pub open spec fn plainly_named(s: StoreModel) -> bool {
    forall|i: int|
        0 <= i < s.ports.len() ==> (#[trigger] s.ports[i]).protocol == Protocol::Tcp.name()
            || s.ports[i].protocol == Protocol::Udp.name()
}

/// An empty store has plain protocol names.
pub proof fn law_empty_store_is_plainly_named()
    ensures
        plainly_named(StoreModel::empty()),
{
}

/// Mappings are written with plain protocol names.
pub proof fn law_add_port_names_plainly(s: StoreModel, mapping: PortMappingModel)
    requires
        plainly_named(s),
    ensures
        plainly_named(store::port_added(s, mapping).0),
{
}

proof fn lemma_names_filtered(ports: Seq<PortRowModel>, keep: spec_fn(PortRowModel) -> bool)
    requires
        forall|i: int|
            0 <= i < ports.len() ==> (#[trigger] ports[i]).protocol == Protocol::Tcp.name()
                || ports[i].protocol == Protocol::Udp.name(),
    ensures
        forall|i: int|
            0 <= i < ports.filter(keep).len() ==> (#[trigger] ports.filter(keep)[i]).protocol
                == Protocol::Tcp.name() || ports.filter(keep)[i].protocol == Protocol::Udp.name(),
{
    let kept = ports.filter(keep);
    table::lemma_filter_members(ports, keep);
    assert forall|i: int| 0 <= i < kept.len() implies (#[trigger] kept[i]).protocol
        == Protocol::Tcp.name() || kept[i].protocol == Protocol::Udp.name() by {
        assert(kept.contains(kept[i]));
    }
}

/// Deleting leaves plain protocol names plain, whether it is of a mapping, a
/// service or a node.
pub proof fn law_deletions_leave_names_plain(s: StoreModel, id: Uuid)
    requires
        plainly_named(s),
    ensures
        plainly_named(store::port_deleted(s, id).0),
        plainly_named(store::service_deleted(s, id)),
        plainly_named(store::node_deleted(s, id)),
{
    let gone = ids::uuid_text(id);
    lemma_names_filtered(s.ports, store::not_port(gone));
    lemma_names_filtered(s.ports, store::not_of_service(gone));
    lemma_names_filtered(s.ports, store::not_behind_node(s.services, gone));
}

/// What else changes a store leaves its mappings alone, and with them their
/// protocol names.
pub proof fn law_other_changes_leave_mappings_alone(
    s: StoreModel,
    name: Seq<char>,
    subnet: Ipv4Net,
    gateway_ip: Ipv4Addr,
    at: Timestamp,
    id: Uuid,
    key: Seq<char>,
    service: ServiceModel,
    on: bool,
)
    ensures
        store::node_created(s, name, subnet, gateway_ip, at, id, key).0.ports == s.ports,
        store::key_set(s, id, key).ports == s.ports,
        store::handshake_recorded(s, id, at).0.ports == s.ports,
        store::service_inserted(s, service).0.ports == s.ports,
        store::service_switched(s, id, on).ports == s.ports,
        store::service_marked(s, id, on).ports == s.ports,
{
}

proof fn lemma_place_apart(s: Seq<PortRowModel>, x: PortRowModel)
    requires
        store::apart::<PortRow>(s),
        store::fits::<PortRow>(s, x),
    ensures
        store::apart::<PortRow>(table::place(s, x, table::le_of::<PortRow>())),
        forall|y: PortRowModel|
            store::fits::<PortRow>(s, y) && !PortRow::clash(x, y) ==> #[trigger] store::fits::<
                PortRow,
            >(table::place(s, x, table::le_of::<PortRow>()), y),
    decreases s.len(),
{
    let le = table::le_of::<PortRow>();
    let out = table::place(s, x, le);
    if s.len() == 0 {
    } else if le(s.last(), x) {
        lemma_apart_pushed::<PortRow>(s, x);
    } else {
        let head = s.drop_last();
        let last = s.last();
        assert(store::apart::<PortRow>(head)) by {
            assert forall|i: int, j: int| 0 <= i < j < head.len() implies !(
            #[trigger] PortRow::clash(head[i], head[j])) by {
                assert(!PortRow::clash(s[i], s[j]));
            }
        }
        assert(store::fits::<PortRow>(head, x)) by {
            assert forall|i: int| 0 <= i < head.len() implies !PortRow::clash(
                #[trigger] head[i],
                x,
            ) by {
                assert(!PortRow::clash(s[i], x));
            }
        }
        lemma_place_apart(head, x);
        assert(store::fits::<PortRow>(head, last)) by {
            assert forall|i: int| 0 <= i < head.len() implies !PortRow::clash(
                #[trigger] head[i],
                last,
            ) by {
                assert(!PortRow::clash(s[i], s[s.len() - 1]));
            }
        }
        assert(!PortRow::clash(s[s.len() - 1], x));
        lemma_apart_pushed::<PortRow>(table::place(head, x, le), last);
        assert forall|y: PortRowModel|
            store::fits::<PortRow>(s, y) && !PortRow::clash(x, y) implies #[trigger] store::fits::<
            PortRow,
        >(out, y) by {
            assert(store::fits::<PortRow>(head, y)) by {
                assert forall|i: int| 0 <= i < head.len() implies !PortRow::clash(
                    #[trigger] head[i],
                    y,
                ) by {
                    assert(!PortRow::clash(s[i], y));
                }
            }
            assert(store::fits::<PortRow>(table::place(head, x, le), y));
            assert(!PortRow::clash(s[s.len() - 1], y));
        }
    }
}

proof fn lemma_ordered_apart(s: Seq<PortRowModel>)
    requires
        store::apart::<PortRow>(s),
    ensures
        store::apart::<PortRow>(table::ordered(s, table::le_of::<PortRow>())),
        forall|y: PortRowModel|
            store::fits::<PortRow>(s, y) ==> #[trigger] store::fits::<PortRow>(
                table::ordered(s, table::le_of::<PortRow>()),
                y,
            ),
    decreases s.len(),
{
    if s.len() > 0 {
        let head = s.drop_last();
        let le = table::le_of::<PortRow>();
        assert forall|i: int, j: int| 0 <= i < j < head.len() implies !(#[trigger] PortRow::clash(
            head[i],
            head[j],
        )) by {
            assert(!PortRow::clash(s[i], s[j]));
        }
        assert(store::fits::<PortRow>(head, s.last())) by {
            assert forall|i: int| 0 <= i < head.len() implies !PortRow::clash(
                #[trigger] head[i],
                s.last(),
            ) by {
                assert(!PortRow::clash(s[i], s[s.len() - 1]));
            }
        }
        lemma_ordered_apart(head);
        lemma_place_apart(table::ordered(head, le), s.last());
        assert forall|y: PortRowModel| store::fits::<PortRow>(s, y) implies #[trigger] store::fits::<
            PortRow,
        >(table::ordered(s, le), y) by {
            assert(store::fits::<PortRow>(head, y)) by {
                assert forall|i: int| 0 <= i < head.len() implies !PortRow::clash(
                    #[trigger] head[i],
                    y,
                ) by {
                    assert(!PortRow::clash(s[i], y));
                }
            }
            assert(!PortRow::clash(s[s.len() - 1], y));
            assert(store::fits::<PortRow>(table::ordered(head, le), y));
        }
    }
}

/// No two live forwards share a protocol and public port, so the packet filter
/// never has two rules for one.
pub proof fn law_live_forwards_share_no_port(s: StoreModel)
    requires
        s.valid(),
        plainly_named(s),
    ensures
        store::active_of(s) matches Ok(v) ==> forall|i: int, j: int|
            0 <= i < j < v.len() ==> (#[trigger] v[i]).protocol != (#[trigger] v[j]).protocol
                || v[i].edge_port != v[j].edge_port,
{
    let le = table::le_of::<PortRow>();
    let mine = s.ports.filter(store::live(s));
    let sorted = table::ordered(mine, le);
    let f = store::active_reader(s);
    lemma_apart_filtered::<PortRow>(s.ports, store::live(s));
    lemma_ordered_apart(mine);
    table::lemma_ordered_members(mine, le);
    table::lemma_collected_each(sorted, f);
    if let Ok(v) = store::active_of(s) {
        assert forall|i: int, j: int| 0 <= i < j < v.len() implies (#[trigger] v[i]).protocol != (
        #[trigger] v[j]).protocol || v[i].edge_port != v[j].edge_port by {
            assert(f(sorted[i]) == Ok::<ActiveForward, StoreErrorModel>(v[i]));
            assert(f(sorted[j]) == Ok::<ActiveForward, StoreErrorModel>(v[j]));
            assert(!PortRow::clash(sorted[i], sorted[j]));
            lemma_sorted_is_plain(s, i);
            lemma_sorted_is_plain(s, j);
            crate::model::law_protocol_round_trip(Protocol::Tcp);
            crate::model::law_protocol_round_trip(Protocol::Udp);
        }
    }
}

proof fn lemma_sorted_is_plain(s: StoreModel, i: int)
    requires
        plainly_named(s),
        0 <= i < table::ordered(
            s.ports.filter(store::live(s)),
            table::le_of::<PortRow>(),
        ).len(),
    ensures
        ({
            let row = table::ordered(s.ports.filter(store::live(s)), table::le_of::<PortRow>())[i];
            row.protocol == Protocol::Tcp.name() || row.protocol == Protocol::Udp.name()
        }),
{
    let mine = s.ports.filter(store::live(s));
    let sorted = table::ordered(mine, table::le_of::<PortRow>());
    table::lemma_ordered_members(mine, table::le_of::<PortRow>());
    assert(sorted.contains(sorted[i]));
    let k = choose|k: int| 0 <= k < mine.len() && mine[k] == sorted[i];
    let j = lemma_kept(s.ports, store::live(s), k);
}

/// A mapping of an enabled service.
pub open spec fn of_enabled(s: StoreModel) -> spec_fn(PortRowModel) -> bool {
    |row: PortRowModel|
        match table::first(s.services, store::service_with_id(row.service_id)) {
            Some(service) => service.enabled == 1,
            None => false,
        }
}

/// What the packet filter is told of a mapping that can be read.
pub open spec fn forward_for(s: StoreModel) -> spec_fn(PortRowModel) -> ActiveForward {
    |row: PortRowModel| store::active_reader(s)(row)->Ok_0
}

/// The live forwards are those of the mappings of enabled services on a known
/// node, one for each and no other. Where every row is linked, those are the
/// mappings of enabled services.
pub proof fn law_one_forward_per_enabled_mapping(s: StoreModel)
    ensures
        store::active_of(s) matches Ok(v) ==> {
            &&& v.len() == s.ports.filter(store::live(s)).len()
            &&& v.to_multiset() == s.ports.filter(store::live(s)).map_values(
                forward_for(s),
            ).to_multiset()
        },
        s.linked() ==> s.ports.filter(store::live(s)) == s.ports.filter(of_enabled(s)),
{
    let le = table::le_of::<PortRow>();
    let f = store::active_reader(s);
    let mine = s.ports.filter(store::live(s));
    let sorted = table::ordered(mine, le);
    assert forall|i: int| s.linked() && 0 <= i < s.ports.len() implies store::live(s)(
        #[trigger] s.ports[i],
    ) == of_enabled(s)(s.ports[i]) by {
        let p = store::service_with_id(s.ports[i].service_id);
        table::lemma_first(s.services, p);
        if let Some(service) = table::first(s.services, p) {
            assert(s.services.contains(service));
            let k = choose|k: int| 0 <= k < s.services.len() && s.services[k] == service;
            let q = store::node_with_id(s.services[k].node_id);
            assert(table::any(s.nodes, q));
            table::lemma_first(s.nodes, q);
        }
    }
    if s.linked() {
        table::lemma_filter_same(s.ports, store::live(s), of_enabled(s));
    }
    table::lemma_ordered_mapped(mine, le, forward_for(s));
    table::lemma_collected_each(sorted, f);
    if let Ok(v) = store::active_of(s) {
        assert(v =~= sorted.map_values(forward_for(s))) by {
            assert forall|i: int| 0 <= i < v.len() implies v[i] == sorted.map_values(
                forward_for(s),
            )[i] by {
                assert(f(sorted[i]) == Ok::<ActiveForward, StoreErrorModel>(v[i]));
            }
        }
    }
}

/// The live forwards are told by protocol and, within one, by public port.
pub proof fn law_live_forwards_are_sorted(s: StoreModel)
    requires
        s.valid(),
        plainly_named(s),
    ensures
        store::active_of(s) matches Ok(v) ==> forall|i: int, j: int|
            0 <= i < j < v.len() ==> forward::listed_before(
                ((#[trigger] v[i]).protocol, v[i].edge_port),
                ((#[trigger] v[j]).protocol, v[j].edge_port),
            ),
{
    let le = table::le_of::<PortRow>();
    let mine = s.ports.filter(store::live(s));
    let sorted = table::ordered(mine, le);
    let f = store::active_reader(s);
    lemma_mappings_are_ordered();
    table::law_ordered_is_an_ordering(mine, le);
    law_live_forwards_share_no_port(s);
    table::lemma_collected_each(sorted, f);
    crate::model::law_protocol_round_trip(Protocol::Tcp);
    crate::model::law_protocol_round_trip(Protocol::Udp);
    assert(!text::text_le(Protocol::Udp.name(), Protocol::Tcp.name())) by {
        reveal_strlit("tcp");
        reveal_strlit("udp");
    }
    if let Ok(v) = store::active_of(s) {
        assert forall|i: int, j: int| 0 <= i < j < v.len() implies forward::listed_before(
            ((#[trigger] v[i]).protocol, v[i].edge_port),
            ((#[trigger] v[j]).protocol, v[j].edge_port),
        ) by {
            assert(f(sorted[i]) == Ok::<ActiveForward, StoreErrorModel>(v[i]));
            assert(f(sorted[j]) == Ok::<ActiveForward, StoreErrorModel>(v[j]));
            assert(le(sorted[i], sorted[j]));
            lemma_sorted_is_plain(s, i);
            lemma_sorted_is_plain(s, j);
        }
    }
}

/// Every mapping of an enabled service is live, at the tunnel address of the
/// node it runs on and the public port it was given.
pub proof fn law_enabled_mapping_is_live(s: StoreModel, i: int)
    requires
        0 <= i < s.ports.len(),
        store::live(s)(s.ports[i]),
    ensures
        store::active_of(s) matches Ok(v) ==> exists|k: int|
            0 <= k < v.len() && (#[trigger] v[k]).edge_port == s.ports[i].edge_port
                && v[k].local_port == s.ports[i].local_port && rows::protocol_of(
                s.ports[i].protocol,
            ) == Ok::<Protocol, StoreErrorModel>(v[k].protocol) && store::address_behind(
                store::node_behind(s, s.ports[i]),
            ) == Ok::<Ipv4Addr, StoreErrorModel>(v[k].tunnel_ip),
{
    lemma_listed(
        s.ports,
        store::live(s),
        table::le_of::<PortRow>(),
        store::active_reader(s),
        i,
    );
    if let Ok(v) = store::active_of(s) {
        let f = store::active_reader(s)(s.ports[i])->Ok_0;
        assert(v.contains(f));
        let k = choose|k: int| 0 <= k < v.len() && v[k] == f;
        assert(v[k].edge_port == s.ports[i].edge_port);
    }
}

/// What the packet filter sends to a node's tunnel address, that node's agent
/// is told to serve.
pub proof fn law_live_mapping_is_its_nodes(s: StoreModel, row: PortRowModel)
    requires
        store::live(s)(row),
    ensures
        store::forwarded_to(s, store::node_behind(s, row)->0.id)(row),
{
    let service = table::first(s.services, store::service_with_id(row.service_id))->0;
    table::lemma_first(s.nodes, store::node_with_id(service.node_id));
}

/// An assignment tells of nothing but mappings of enabled services of its own
/// node.
pub proof fn law_assignment_is_the_nodes_own(s: StoreModel, node_id: Uuid, k: int)
    ensures
        store::forwards_of(s, node_id) matches Ok(v) ==> 0 <= k < v.len() ==> exists|i: int|
            0 <= i < s.ports.len() && store::forwarded_to(s, ids::uuid_text(node_id))(
                #[trigger] s.ports[i],
            ) && v[k].tunnel_port == s.ports[i].edge_port && v[k].local_host
                == s.ports[i].local_host && v[k].local_port == s.ports[i].local_port,
{
    let p = store::forwarded_to(s, ids::uuid_text(node_id));
    let mine = s.ports.filter(p);
    let sorted = table::ordered(mine, table::le_of::<PortRow>());
    let f = store::forward_reader();
    table::lemma_ordered_members(mine, table::le_of::<PortRow>());
    table::lemma_collected_each(sorted, f);
    if let Ok(v) = store::forwards_of(s, node_id) {
        if 0 <= k < v.len() {
            assert(f(sorted[k]) == Ok::<ForwardModel, StoreErrorModel>(v[k]));
            assert(sorted.contains(sorted[k]));
            let m = choose|m: int| 0 <= m < mine.len() && mine[m] == sorted[k];
            let i = lemma_kept(s.ports, p, m);
            assert(s.ports[i] == sorted[k]);
        }
    }
}

/// Of a node's key, only the hash is stored.
pub proof fn law_keys_are_stored_as_hashes(
    s: StoreModel,
    name: Seq<char>,
    subnet: Ipv4Net,
    gateway_ip: Ipv4Addr,
    now: Timestamp,
    id: Uuid,
    key: Seq<char>,
    other_key: Seq<char>,
)
    ensures
        token::token_hash(key) == token::token_hash(other_key) ==> store::node_created(
            s,
            name,
            subnet,
            gateway_ip,
            now,
            id,
            key,
        ).0 == store::node_created(s, name, subnet, gateway_ip, now, id, other_key).0,
{
}

} // verus!
