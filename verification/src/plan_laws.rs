//! What a plan is for: the names, ports and records that players end up with.

use crate::addr::Ipv4Addr;
use crate::allocator;
use crate::allocator::{AllocError, EdgePortRange};
use crate::api::AddPortRequestModel;
use crate::dns::{DnsRecordModel, SrvBindingModel};
use crate::model;
use crate::model::{PortMappingModel, Protocol, ServiceModel};
use crate::plan;
use crate::plan::PlanErrorModel;
use crate::table;
use crate::text;
use vstd::prelude::*;

verus! {

// ---- ports --------------------------------------------------------------

/// An explicit public port is honoured or refused, never moved: the request
/// gets that port where it was free, and is told that it is taken where not.
pub proof fn law_explicit_port_is_honoured_or_refused(
    taken: Set<(Protocol, u16)>,
    range: EdgePortRange,
    req: AddPortRequestModel,
    port: u16,
)
    requires
        req.edge_port == Some(port),
        port != 0,
        req.local_port != 0,
    ensures
        !taken.contains((req.protocol, port)) ==> plan::edge_port_for(taken, range, req) == Ok::<
            u16,
            PlanErrorModel,
        >(port),
        taken.contains((req.protocol, port)) ==> plan::edge_port_for(taken, range, req) == Err::<
            u16,
            PlanErrorModel,
        >(
            PlanErrorModel::Alloc(AllocError::FixedPortTaken { protocol: req.protocol, port }),
        ),
{
}

/// A request that names no public port gets its local port where that is free.
/// Where it is taken, it gets the lowest free port of the range, and is refused
/// only where the range has none left.
pub proof fn law_blank_port_prefers_the_local_one(
    taken: Set<(Protocol, u16)>,
    range: EdgePortRange,
    req: AddPortRequestModel,
)
    requires
        req.edge_port is None || req.edge_port == Some(0u16),
        req.local_port != 0,
    ensures
        !taken.contains((req.protocol, req.local_port)) ==> plan::edge_port_for(taken, range, req)
            == Ok::<u16, PlanErrorModel>(req.local_port),
        taken.contains((req.protocol, req.local_port)) ==> match plan::edge_port_for(
            taken,
            range,
            req,
        ) {
            Ok(port) => {
                &&& range.first() <= port <= range.last()
                &&& !taken.contains((req.protocol, port))
                &&& forall|q: u16|
                    range.first() <= q < port ==> #[trigger] taken.contains((req.protocol, q))
            },
            Err(e) => {
                &&& forall|q: u16|
                    range.first() <= q <= range.last() ==> #[trigger] taken.contains(
                        (req.protocol, q),
                    )
                &&& e == PlanErrorModel::Alloc(
                    AllocError::RangeExhausted {
                        protocol: req.protocol,
                        start: range.first(),
                        end: range.last(),
                    },
                )
            },
        },
{
    let request = plan::port_request(req);
    if taken.contains((req.protocol, req.local_port)) {
        if exists|q: u16| allocator::lowest_free(taken, range, req.protocol, q) {
            let q = choose|q: u16| allocator::lowest_free(taken, range, req.protocol, q);
            assert(allocator::lowest_free(taken, range, req.protocol, q));
        } else {
            assert forall|q: u16| range.first() <= q <= range.last() implies #[trigger] taken.contains(
                (req.protocol, q),
            ) by {
                lemma_no_lowest_free(taken, range, req.protocol, q);
            }
        }
    }
}

/// Where no port is the lowest free one, none is free.
proof fn lemma_no_lowest_free(
    taken: Set<(Protocol, u16)>,
    range: EdgePortRange,
    protocol: Protocol,
    q: u16,
)
    requires
        range.first() <= q <= range.last(),
        !(exists|p: u16| allocator::lowest_free(taken, range, protocol, p)),
    ensures
        taken.contains((protocol, q)),
    decreases q,
{
    if !taken.contains((protocol, q)) {
        assert forall|p: u16| range.first() <= p < q implies #[trigger] taken.contains(
            (protocol, p),
        ) by {
            lemma_no_lowest_free(taken, range, protocol, p);
        }
        assert(allocator::lowest_free(taken, range, protocol, q));
    }
}

/// Port zero is no port to forward to, whatever else is asked for; every other
/// local port is one.
pub proof fn law_local_port_must_be_one(
    taken: Set<(Protocol, u16)>,
    range: EdgePortRange,
    req: AddPortRequestModel,
)
    ensures
        plan::edge_port_for(taken, range, req) == Err::<u16, PlanErrorModel>(
            PlanErrorModel::InvalidPort,
        ) <==> req.local_port == 0,
{
    let request = plan::port_request(req);
    let granted = allocator::granted(taken, range, request);
}

/// The port that a request gets was free, for its protocol, and nobody else's:
/// with it taken, the same request is not answered with it again.
pub proof fn law_granted_port_was_free(
    taken: Set<(Protocol, u16)>,
    range: EdgePortRange,
    req: AddPortRequestModel,
)
    ensures
        plan::edge_port_for(taken, range, req) matches Ok(port) ==> {
            &&& !taken.contains((req.protocol, port))
            &&& plan::edge_port_for(taken.insert((req.protocol, port)), range, req) != Ok::<
                u16,
                PlanErrorModel,
            >(port)
            &&& req.edge_port == Some(port) || port == req.local_port || range.first() <= port
                <= range.last()
        },
{
    if let Ok(port) = plan::edge_port_for(taken, range, req) {
        let after = taken.insert((req.protocol, port));
        if req.edge_port is Some && req.edge_port != Some(0u16) {
            law_explicit_port_is_honoured_or_refused(taken, range, req, req.edge_port->0);
            law_explicit_port_is_honoured_or_refused(after, range, req, req.edge_port->0);
        } else {
            law_blank_port_prefers_the_local_one(taken, range, req);
            law_blank_port_prefers_the_local_one(after, range, req);
        }
    }
}

/// Which ports of the other protocol are taken makes no difference.
pub proof fn law_protocols_do_not_compete(
    taken: Set<(Protocol, u16)>,
    other: Set<(Protocol, u16)>,
    range: EdgePortRange,
    req: AddPortRequestModel,
)
    requires
        forall|p: u16|
            #[trigger] taken.contains((req.protocol, p)) == other.contains((req.protocol, p)),
    ensures
        plan::edge_port_for(taken, range, req) == plan::edge_port_for(other, range, req),
{
    if req.local_port == 0 {
    } else if req.edge_port is Some && req.edge_port != Some(0u16) {
        law_explicit_port_is_honoured_or_refused(taken, range, req, req.edge_port->0);
        law_explicit_port_is_honoured_or_refused(other, range, req, req.edge_port->0);
    } else {
        law_blank_port_prefers_the_local_one(taken, range, req);
        law_blank_port_prefers_the_local_one(other, range, req);
        assert(taken.contains((req.protocol, req.local_port)) == other.contains(
            (req.protocol, req.local_port),
        ));
        if taken.contains((req.protocol, req.local_port)) {
            match (plan::edge_port_for(taken, range, req), plan::edge_port_for(other, range, req)) {
                (Ok(a), Ok(b)) => {
                    assert(taken.contains((req.protocol, a)) == other.contains((req.protocol, a)));
                    assert(taken.contains((req.protocol, b)) == other.contains((req.protocol, b)));
                    if a < b {
                        assert(other.contains((req.protocol, a)));
                    } else if b < a {
                        assert(taken.contains((req.protocol, b)));
                    }
                },
                (Ok(a), Err(_)) => {
                    assert(taken.contains((req.protocol, a)) == other.contains((req.protocol, a)));
                },
                (Err(_), Ok(b)) => {
                    assert(taken.contains((req.protocol, b)) == other.contains((req.protocol, b)));
                },
                (Err(_), Err(_)) => {},
            }
        }
    }
}

// ---- descriptions -------------------------------------------------------

/// A mapping that asks for an SRV record.
pub open spec fn asks_for_srv() -> spec_fn(PortMappingModel) -> bool {
    |m: PortMappingModel| m.srv is Some
}

/// The public port and the SRV settings of a mapping that asks for a record.
spec fn binding_for() -> spec_fn(PortMappingModel) -> SrvBindingModel {
    |m: PortMappingModel| SrvBindingModel { spec: m.srv->0, edge_port: m.edge_port }
}

proof fn lemma_bindings(mappings: Seq<PortMappingModel>)
    ensures
        plan::srv_bindings(mappings) == mappings.filter(asks_for_srv()).map_values(binding_for()),
    decreases mappings.len(),
{
    reveal(Seq::filter);
    let kept = mappings.filter(asks_for_srv());
    if mappings.len() > 0 {
        lemma_bindings(mappings.drop_last());
        if asks_for_srv()(mappings.last()) {
            let before = mappings.drop_last().filter(asks_for_srv());
            assert(kept =~= before.push(mappings.last()));
            assert(kept.map_values(binding_for()) =~= before.map_values(binding_for()).push(
                binding_for()(mappings.last()),
            ));
        }
    }
    assert(plan::srv_bindings(mappings) =~= kept.map_values(binding_for()));
}

/// A service is published as one A record and one SRV record for each mapping
/// that asks for one, in their order. Each SRV record stands beneath the
/// service's name, sends players back to that name, and gives the public port
/// that is forwarded: the port at home appears nowhere.
pub proof fn law_srv_records_give_the_public_port(
    service: ServiceModel,
    mappings: Seq<PortMappingModel>,
    zone: Seq<char>,
    edge_ip: Ipv4Addr,
)
    ensures
        ({
            let face = plan::described(service, mappings, zone, edge_ip);
            let asking = mappings.filter(asks_for_srv());
            &&& face.dns.len() == 1 + asking.len()
            &&& face.dns[0] matches DnsRecordModel::A { name, address, ttl } && name == face.fqdn
                && address == edge_ip && ttl == 120
            &&& forall|k: int|
                0 <= k < asking.len() ==> {
                    let spec = (#[trigger] asking[k]).srv->0;
                    face.dns[k + 1] == DnsRecordModel::Srv {
                        name: spec.service + "."@ + spec.proto + "."@ + face.fqdn,
                        target: face.fqdn,
                        port: asking[k].edge_port,
                        priority: spec.priority,
                        weight: spec.weight,
                        ttl: 120,
                    }
                }
        }),
{
    lemma_bindings(mappings);
    let face = plan::described(service, mappings, zone, edge_ip);
    let asking = mappings.filter(asks_for_srv());
    let bindings = plan::srv_bindings(mappings);
    assert forall|k: int| 0 <= k < asking.len() implies {
        let spec = (#[trigger] asking[k]).srv->0;
        face.dns[k + 1] == DnsRecordModel::Srv {
            name: spec.service + "."@ + spec.proto + "."@ + face.fqdn,
            target: face.fqdn,
            port: asking[k].edge_port,
            priority: spec.priority,
            weight: spec.weight,
            ttl: 120,
        }
    } by {
        assert(bindings[k] == binding_for()(asking[k]));
    }
}

/// Every mapping that asks for an SRV record has one, at its public port.
pub proof fn law_every_srv_mapping_has_its_record(
    service: ServiceModel,
    mappings: Seq<PortMappingModel>,
    zone: Seq<char>,
    edge_ip: Ipv4Addr,
    i: int,
)
    requires
        0 <= i < mappings.len(),
        mappings[i].srv is Some,
    ensures
        ({
            let face = plan::described(service, mappings, zone, edge_ip);
            exists|k: int|
                0 <= k < face.dns.len() && (#[trigger] face.dns[k] matches DnsRecordModel::Srv {
                    name,
                    target,
                    port,
                    ..
                } && name == mappings[i].srv->0.service + "."@ + mappings[i].srv->0.proto + "."@
                    + face.fqdn && target == face.fqdn && port == mappings[i].edge_port)
        }),
{
    let face = plan::described(service, mappings, zone, edge_ip);
    let asking = mappings.filter(asks_for_srv());
    law_srv_records_give_the_public_port(service, mappings, zone, edge_ip);
    table::lemma_filter_members(mappings, asks_for_srv());
    assert(mappings.contains(mappings[i]));
    assert(asking.contains(mappings[i]));
    let k = choose|k: int| 0 <= k < asking.len() && asking[k] == mappings[i];
    assert(asking[k] == mappings[i]);
    assert(face.dns[k + 1] is Srv);
}

/// Where the servers really are makes no difference to what is published: not
/// the host at home, not the port at home, and not the protocol.
pub proof fn law_home_is_not_published(
    service: ServiceModel,
    mappings: Seq<PortMappingModel>,
    others: Seq<PortMappingModel>,
    zone: Seq<char>,
    edge_ip: Ipv4Addr,
)
    requires
        mappings.len() == others.len(),
        forall|i: int|
            0 <= i < mappings.len() ==> (#[trigger] mappings[i]).srv == others[i].srv
                && mappings[i].edge_port == others[i].edge_port,
    ensures
        plan::described(service, mappings, zone, edge_ip).dns == plan::described(
            service,
            others,
            zone,
            edge_ip,
        ).dns,
{
    lemma_same_bindings(mappings, others);
}

proof fn lemma_same_bindings(mappings: Seq<PortMappingModel>, others: Seq<PortMappingModel>)
    requires
        mappings.len() == others.len(),
        forall|i: int|
            0 <= i < mappings.len() ==> (#[trigger] mappings[i]).srv == others[i].srv
                && mappings[i].edge_port == others[i].edge_port,
    ensures
        plan::srv_bindings(mappings) == plan::srv_bindings(others),
    decreases mappings.len(),
{
    if mappings.len() > 0 {
        let head = mappings.drop_last();
        assert forall|i: int| 0 <= i < head.len() implies (#[trigger] head[i]).srv
            == others.drop_last()[i].srv && head[i].edge_port == others.drop_last()[i].edge_port by {
            assert(mappings[i].srv == others[i].srv);
        }
        lemma_same_bindings(head, others.drop_last());
        assert(mappings[mappings.len() - 1].srv == others[others.len() - 1].srv);
    }
}

/// Each mapping is shown as it is stored, in its place, with the address that
/// players type: the service's name, and the public port unless an SRV record
/// tells it.
pub proof fn law_players_are_told_the_public_port(
    service: ServiceModel,
    mappings: Seq<PortMappingModel>,
    zone: Seq<char>,
    edge_ip: Ipv4Addr,
)
    ensures
        ({
            let face = plan::described(service, mappings, zone, edge_ip);
            &&& face.ports.len() == mappings.len()
            &&& forall|i: int|
                0 <= i < mappings.len() ==> {
                    let shown = #[trigger] face.ports[i];
                    &&& shown.mapping == mappings[i]
                    &&& shown.endpoint.host == face.fqdn
                    &&& shown.endpoint.port == mappings[i].edge_port
                    &&& shown.endpoint.protocol == mappings[i].protocol
                    &&& shown.endpoint.port_implied_by_srv == (mappings[i].srv is Some)
                    &&& shown.connect == if mappings[i].srv is Some {
                        face.fqdn
                    } else {
                        face.fqdn + ":"@ + crate::number::decimal(mappings[i].edge_port as nat)
                    }
                }
        }),
{
}

/// A service is known by its subdomain in the zone, or by the zone itself where
/// its subdomain is `@`; services with different subdomains have different
/// names, all within the zone.
pub proof fn law_names_are_within_the_zone(
    service: ServiceModel,
    other: ServiceModel,
    mappings: Seq<PortMappingModel>,
    zone: Seq<char>,
    edge_ip: Ipv4Addr,
)
    ensures
        ({
            let name = plan::described(service, mappings, zone, edge_ip).fqdn;
            let theirs = plan::described(other, mappings, zone, edge_ip).fqdn;
            &&& service.subdomain == "@"@ ==> name == zone
            &&& service.subdomain != "@"@ ==> name == service.subdomain + "."@ + zone
            &&& zone.is_suffix_of(name)
            &&& service.subdomain != other.subdomain ==> name != theirs
        }),
{
    reveal_strlit("@");
    reveal_strlit(".");
    let name = model::fqdn_of(service.subdomain, zone);
    let theirs = model::fqdn_of(other.subdomain, zone);
    assert(zone =~= name.subrange(name.len() - zone.len(), name.len() as int));
    if service.subdomain != other.subdomain && name == theirs {
        assert(name.len() == theirs.len());
        if service.subdomain != "@"@ && other.subdomain != "@"@ {
            assert(service.subdomain =~= name.take(name.len() - zone.len() - 1));
            assert(other.subdomain =~= theirs.take(theirs.len() - zone.len() - 1));
        }
    }
}

// ---- names --------------------------------------------------------------

/// Whether a text is a letter, digit or hyphen label, spelled out.
pub open spec fn hostname_label(s: Seq<char>) -> bool {
    &&& 0 < s.len() < 64
    &&& s[0] != '-'
    &&& s[s.len() - 1] != '-'
    &&& forall|i: int|
        0 <= i < s.len() ==> ('a' <= #[trigger] s[i] <= 'z' || '0' <= s[i] <= '9' || s[i] == '-')
}

/// A text in lower case with no space around it names a subdomain exactly where
/// it is one DNS label or `@`, and names it as written.
pub proof fn law_labels_are_subdomains(s: Seq<char>)
    requires
        text::trim(s) == s,
        text::lower(s) == s,
    ensures
        plan::subdomain_of(s) == if s == "@"@ || hostname_label(s) {
            Some(s)
        } else {
            None
        },
{
    if hostname_label(s) {
        assert forall|i: int| 0 <= i < s.len() implies plan::label_char(#[trigger] s[i]) by {}
    }
    if plan::is_label(s) {
        assert forall|i: int| 0 <= i < s.len() implies ('a' <= #[trigger] s[i] <= 'z' || '0' <= s[i]
            <= '9' || s[i] == '-') by {
            assert(plan::label_char(s[i]));
        }
    }
}

/// Neither case nor the space around it changes which subdomain, or which host,
/// a text names.
pub proof fn law_case_and_space_do_not_matter(s: Seq<char>)
    ensures
        plan::subdomain_of(s) == plan::subdomain_of(text::lower(text::trim(s))),
        plan::local_host_of(s) == plan::local_host_of(text::lower(text::trim(s))),
{
    let plain = text::lower(text::trim(s));
    text::law_trim_is_idempotent(s);
    lemma_plain_stays(text::trim(s));
    assert(text::trim(plain) == plain);
    assert(text::lower(plain) =~= plain);
}

/// What is trimmed is still trimmed in lower case.
proof fn lemma_plain_stays(s: Seq<char>)
    requires
        text::trim(s) == s,
    ensures
        text::trim(text::lower(s)) == text::lower(s),
{
    let t = text::lower(s);
    if s.len() > 0 {
        lemma_trimmed_ends(s);
        assert(!text::is_white(t[0]));
        assert(!text::is_white(t.last()));
        assert(text::trim_start(t) == t);
        assert(text::trim_end(t) == t);
    }
}

proof fn lemma_trimmed_ends(s: Seq<char>)
    requires
        text::trim(s) == s,
        s.len() > 0,
    ensures
        !text::is_white(s[0]),
        !text::is_white(s.last()),
{
    lemma_trim_start_shorter(s);
    lemma_trim_end_shorter(text::trim_start(s));
    if text::is_white(s[0]) {
        lemma_trim_start_shorter(s.drop_first());
    } else if text::is_white(s.last()) {
        lemma_trim_end_shorter(s.drop_last());
    }
}

proof fn lemma_trim_start_shorter(s: Seq<char>)
    ensures
        text::trim_start(s).len() <= s.len(),
    decreases s.len(),
{
    if s.len() > 0 && text::is_white(s[0]) {
        lemma_trim_start_shorter(s.drop_first());
    }
}

proof fn lemma_trim_end_shorter(s: Seq<char>)
    ensures
        text::trim_end(s).len() <= s.len(),
    decreases s.len(),
{
    if s.len() > 0 && text::is_white(s.last()) {
        lemma_trim_end_shorter(s.drop_last());
    }
}

/// Whether a text could be a host name or an IPv4 address, spelled out.
pub open spec fn host_spelling(s: Seq<char>) -> bool {
    &&& 0 < s.len() < 254
    &&& s[0] != '.'
    &&& s[s.len() - 1] != '.'
    &&& forall|i: int|
        0 <= i < s.len() ==> ('a' <= #[trigger] s[i] <= 'z' || '0' <= s[i] <= '9' || s[i] == '-'
            || s[i] == '.')
}

/// A text in lower case with no space around it names a host behind the node
/// exactly where it could be one, and names it as written.
pub proof fn law_hosts_are_named_as_written(s: Seq<char>)
    requires
        text::trim(s) == s,
        text::lower(s) == s,
    ensures
        plan::local_host_of(s) == if host_spelling(s) {
            Some(s)
        } else {
            None
        },
{
    if host_spelling(s) {
        assert forall|i: int| 0 <= i < s.len() implies plan::host_char(#[trigger] s[i]) by {}
    }
    if plan::is_host_text(s) {
        assert forall|i: int| 0 <= i < s.len() implies ('a' <= #[trigger] s[i] <= 'z' || '0' <= s[i]
            <= '9' || s[i] == '-' || s[i] == '.') by {
            assert(plan::host_char(s[i]));
        }
    }
}

/// Every label is also a host name, so whatever can be a subdomain can be
/// reached behind a node.
pub proof fn law_a_label_is_a_host(s: Seq<char>)
    ensures
        plan::subdomain_of(s) matches Some(label) ==> label == "@"@ || plan::local_host_of(s)
            == Some(label),
{
    if let Some(label) = plan::subdomain_of(s) {
        if label != "@"@ {
            assert forall|i: int| 0 <= i < label.len() implies plan::host_char(
                #[trigger] label[i],
            ) by {
                assert(plan::label_char(label[i]));
            }
            assert(plan::label_char(label[0]));
            assert(plan::label_char(label[label.len() - 1]));
        }
    }
}

} // verus!
