//! Turning a service and its mappings into what the world sees.
//!
//! There is no game-specific knowledge here any more. A service is a
//! subdomain; a mapping is "public port -> address and port behind a node".
//! Everything else is derived: the address a player types, and the DNS records
//! that make it resolve.

use crate::addr::Ipv4Addr;
use crate::allocator;
use crate::allocator::{AllocError, EdgePortRange, PortAllocator, PortRequest};
use crate::api::{AddPortRequest, AddPortRequestModel, PortView, PortViewModel};
use crate::dns;
use crate::dns::{DnsRecord, DnsRecordModel, SrvBinding, SrvBindingModel};
use crate::model;
use crate::model::{
    Endpoint, EndpointModel, PortMapping, PortMappingModel, Protocol, Service, ServiceModel,
    SrvSpec, SrvSpecModel,
};
use crate::text;
use vstd::prelude::*;

verus! {

#[derive(Debug, Clone)]
pub enum PlanError {
    Alloc(AllocError),
    InvalidSubdomain(String),
    InvalidLocalHost(String),
    InvalidPort,
}

/// What a [`PlanError`] says.
pub enum PlanErrorModel {
    Alloc(AllocError),
    InvalidSubdomain(Seq<char>),
    InvalidLocalHost(Seq<char>),
    InvalidPort,
}

impl View for PlanError {
    type V = PlanErrorModel;

    open spec fn view(&self) -> PlanErrorModel {
        match *self {
            PlanError::Alloc(e) => PlanErrorModel::Alloc(e),
            PlanError::InvalidSubdomain(s) => PlanErrorModel::InvalidSubdomain(s@),
            PlanError::InvalidLocalHost(s) => PlanErrorModel::InvalidLocalHost(s@),
            PlanError::InvalidPort => PlanErrorModel::InvalidPort,
        }
    }
}

/// What an operator is told.
pub open spec fn plan_error_text(e: PlanErrorModel) -> Seq<char> {
    match e {
        PlanErrorModel::Alloc(e) => allocator::alloc_error_text(e),
        PlanErrorModel::InvalidSubdomain(s) => "`"@ + s + "` is not a valid subdomain label"@,
        PlanErrorModel::InvalidLocalHost(s) => "`"@ + s
            + "` is not a valid address for the server behind the node"@,
        PlanErrorModel::InvalidPort => "port numbers must be between 1 and 65535"@,
    }
}

impl PlanError {
    /// What an operator is told.
    pub fn to_string(&self) -> (r: String)
        ensures
            r@ == plan_error_text(self@),
    {
        match self {
            PlanError::Alloc(e) => e.to_string(),
            PlanError::InvalidSubdomain(s) => {
                let mut out = "`".to_owned();
                out.append(s.as_str());
                out.append("` is not a valid subdomain label");
                out
            },
            PlanError::InvalidLocalHost(s) => {
                let mut out = "`".to_owned();
                out.append(s.as_str());
                out.append("` is not a valid address for the server behind the node");
                out
            },
            PlanError::InvalidPort => "port numbers must be between 1 and 65535".to_owned(),
        }
    }
}

// ---- names --------------------------------------------------------------

/// A character of a DNS label.
pub open spec fn label_char(c: char) -> bool {
    text::is_lower(c) || text::is_digit(c) || c == '-'
}

/// Whether a text is one lower-case DNS label.
pub open spec fn is_label(s: Seq<char>) -> bool {
    &&& 1 <= s.len() <= 63
    &&& forall|i: int| 0 <= i < s.len() ==> label_char(#[trigger] s[i])
    &&& s[0] != '-'
    &&& s.last() != '-'
}

/// The subdomain that an operator's text names: in lower case and without the
/// space around it. `@` names the zone itself.
pub open spec fn subdomain_of(raw: Seq<char>) -> Option<Seq<char>> {
    let label = text::lower(text::trim(raw));
    if label == "@"@ || is_label(label) {
        Some(label)
    } else {
        None
    }
}

/// A character of a host name or an IPv4 address.
pub open spec fn host_char(c: char) -> bool {
    text::is_lower(c) || text::is_digit(c) || c == '.' || c == '-'
}

/// Whether a text could be a lower-case host name or an IPv4 address.
pub open spec fn is_host_text(s: Seq<char>) -> bool {
    &&& 1 <= s.len() <= 253
    &&& forall|i: int| 0 <= i < s.len() ==> host_char(#[trigger] s[i])
    &&& s[0] != '.'
    &&& s.last() != '.'
}

/// The host that an operator's text names: in lower case and without the space
/// around it.
pub open spec fn local_host_of(raw: Seq<char>) -> Option<Seq<char>> {
    let host = text::lower(text::trim(raw));
    if is_host_text(host) {
        Some(host)
    } else {
        None
    }
}

/// DNS labels are case-insensitive and letter/digit/hyphen only; `@` means the
/// zone apex. Normalising rather than rejecting on case keeps `MC` from being
/// an error when the operator meant `mc`.
pub fn normalize_subdomain(raw: &str) -> (r: Result<String, PlanError>)
    ensures
        match r {
            Ok(label) => subdomain_of(raw@) == Some(label@),
            Err(e) => subdomain_of(raw@) is None && e@ == PlanErrorModel::InvalidSubdomain(raw@),
        },
{
    let trimmed = text::trimmed(raw);
    let label = text::lowered(trimmed.as_str());
    if text::same_text(label.as_str(), "@") {
        return Ok(label);
    }
    let chars = text::chars_of(label.as_str());
    let n: usize = chars.len();
    if n == 0 || n > 63 || chars[0] == '-' || chars[n - 1] == '-' {
        return Err(PlanError::InvalidSubdomain(raw.to_owned()));
    }
    let mut i: usize = 0;
    while i < n
        invariant
            i <= n == chars@.len(),
            chars@ == label@,
            label@ == text::lower(text::trim(raw@)),
            label@ != "@"@,
            forall|k: int| 0 <= k < i ==> label_char(#[trigger] chars@[k]),
        decreases n - i,
    {
        let c: char = chars[i];
        if !(('a' <= c && c <= 'z') || ('0' <= c && c <= '9') || c == '-') {
            proof {
                assert(!label_char(label@[i as int]));
            }
            return Err(PlanError::InvalidSubdomain(raw.to_owned()));
        }
        i += 1;
    }
    Ok(label)
}

/// Accept a hostname or IP for the server behind the node.
///
/// Deliberately permissive about *which* address: the agent may be able to
/// reach things this process cannot, which is the entire point of it being
/// over there. What it rejects is input that could not be an address at all.
pub fn normalize_local_host(raw: &str) -> (r: Result<String, PlanError>)
    ensures
        match r {
            Ok(host) => local_host_of(raw@) == Some(host@),
            Err(e) => local_host_of(raw@) is None && e@ == PlanErrorModel::InvalidLocalHost(raw@),
        },
{
    let trimmed = text::trimmed(raw);
    let host = text::lowered(trimmed.as_str());
    let chars = text::chars_of(host.as_str());
    let n: usize = chars.len();
    if n == 0 || n > 253 || chars[0] == '.' || chars[n - 1] == '.' {
        return Err(PlanError::InvalidLocalHost(raw.to_owned()));
    }
    let mut i: usize = 0;
    while i < n
        invariant
            i <= n == chars@.len(),
            chars@ == host@,
            host@ == text::lower(text::trim(raw@)),
            forall|k: int| 0 <= k < i ==> host_char(#[trigger] chars@[k]),
        decreases n - i,
    {
        let c: char = chars[i];
        if !(('a' <= c && c <= 'z') || ('0' <= c && c <= '9') || c == '.' || c == '-') {
            proof {
                assert(!host_char(host@[i as int]));
            }
            return Err(PlanError::InvalidLocalHost(raw.to_owned()));
        }
        i += 1;
    }
    Ok(host)
}

proof fn lemma_trim_keeps(s: Seq<char>)
    requires
        s.len() > 0,
        !text::is_white(s[0]),
        !text::is_white(s.last()),
    ensures
        text::trim(s) == s,
{
}

/// Normalising a subdomain again changes nothing.
pub proof fn law_normalizing_is_idempotent(raw: Seq<char>)
    ensures
        subdomain_of(raw) matches Some(label) ==> subdomain_of(label) == Some(label),
        local_host_of(raw) matches Some(host) ==> local_host_of(host) == Some(host),
{
    if let Some(label) = subdomain_of(raw) {
        reveal_strlit("@");
        assert(label.len() > 0);
        lemma_trim_keeps(label);
        assert(text::lower(label) =~= label) by {
            assert forall|i: int| 0 <= i < label.len() implies text::lower_char(
                #[trigger] label[i],
            ) == label[i] by {
                if label != "@"@ {
                    assert(label_char(label[i]));
                }
            }
        }
    }
    if let Some(host) = local_host_of(raw) {
        lemma_trim_keeps(host);
        assert(text::lower(host) =~= host) by {
            assert forall|i: int| 0 <= i < host.len() implies text::lower_char(
                #[trigger] host[i],
            ) == host[i] by {
                assert(host_char(host[i]));
            }
        }
    }
}

// ---- ports --------------------------------------------------------------

/// What a request asks the allocator for: an explicit public port is honoured
/// or refused; left blank, the local port is only preferred.
pub open spec fn port_request(req: AddPortRequestModel) -> PortRequest {
    match req.edge_port {
        Some(explicit) => if explicit == 0 {
            PortRequest { protocol: req.protocol, preferred: req.local_port, fixed: false }
        } else {
            PortRequest { protocol: req.protocol, preferred: explicit, fixed: true }
        },
        None => PortRequest { protocol: req.protocol, preferred: req.local_port, fixed: false },
    }
}

/// The public port a request gets.
pub open spec fn edge_port_for(
    taken: Set<(Protocol, u16)>,
    range: EdgePortRange,
    req: AddPortRequestModel,
) -> Result<u16, PlanErrorModel> {
    if req.local_port == 0 {
        Err(PlanErrorModel::InvalidPort)
    } else {
        match allocator::granted(taken, range, port_request(req)) {
            Ok(port) => Ok(port),
            Err(e) => Err(PlanErrorModel::Alloc(e)),
        }
    }
}

/// Decide the public port for a new mapping and reserve it.
///
/// An explicit choice is honoured or refused; left blank, the local port is
/// tried first so the common single-server case looks like an ordinary
/// forwarded port, and the configured range is the fallback.
pub fn allocate_edge_port(allocator: &mut PortAllocator, req: &AddPortRequest) -> (r: Result<
    u16,
    PlanError,
>)
    ensures
        match r {
            Ok(port) => edge_port_for(old(allocator)@, old(allocator).spec_range(), req@) == Ok::<
                u16,
                PlanErrorModel,
            >(port) && !old(allocator)@.contains((req.protocol, port)) && final(allocator)@ == old(
                allocator,
            )@.insert((req.protocol, port)) && port > 0,
            Err(e) => edge_port_for(old(allocator)@, old(allocator).spec_range(), req@) == Err::<
                u16,
                PlanErrorModel,
            >(e@) && final(allocator)@ == old(allocator)@,
        },
        final(allocator).spec_range() == old(allocator).spec_range(),
{
    if req.local_port == 0 {
        return Err(PlanError::InvalidPort);
    }
    let request = match req.edge_port {
        Some(explicit) => if explicit == 0 {
            PortRequest::flexible(req.protocol, req.local_port)
        } else {
            PortRequest::fixed(req.protocol, explicit)
        },
        None => PortRequest::flexible(req.protocol, req.local_port),
    };
    let lowest: u16 = allocator.range().start();
    let ghost before = allocator@;
    let granted = allocator.allocate(request);
    proof {
        allocator::lemma_granted(before, allocator.spec_range(), request, granted, allocator@);
        assert(lowest > 0);
    }
    match granted {
        Ok(port) => Ok(port),
        Err(e) => Err(PlanError::Alloc(e)),
    }
}

/// The SRV spec a request asks for, if any.
pub fn srv_for(req: &AddPortRequest) -> (r: Option<SrvSpec>)
    ensures
        text::opt_view(r) == (if req.minecraft_srv {
            Some(model::minecraft_java_spec())
        } else {
            None::<SrvSpecModel>
        }),
{
    if req.minecraft_srv {
        Some(SrvSpec::minecraft_java())
    } else {
        None
    }
}

// ---- descriptions -------------------------------------------------------

/// What a stored service looks like to the UI and to the DNS reconciler.
#[derive(Debug, Clone)]
pub struct ServiceDescription {
    pub fqdn: String,
    pub ports: Vec<PortView>,
    pub dns: Vec<DnsRecord>,
}

/// What a [`ServiceDescription`] says.
pub struct ServiceDescriptionModel {
    pub fqdn: Seq<char>,
    pub ports: Seq<PortViewModel>,
    pub dns: Seq<DnsRecordModel>,
}

impl View for ServiceDescription {
    type V = ServiceDescriptionModel;

    open spec fn view(&self) -> ServiceDescriptionModel {
        ServiceDescriptionModel {
            fqdn: self.fqdn@,
            ports: text::views(self.ports@),
            dns: text::views(self.dns@),
        }
    }
}

/// One mapping as players see it.
pub open spec fn port_view(fqdn: Seq<char>, mapping: PortMappingModel) -> PortViewModel {
    let endpoint = EndpointModel {
        host: fqdn,
        port: mapping.edge_port,
        protocol: mapping.protocol,
        port_implied_by_srv: mapping.srv is Some,
    };
    PortViewModel { mapping, endpoint, connect: model::endpoint_text(endpoint) }
}

/// The SRV records that mappings ask for, in their order.
pub open spec fn srv_bindings(mappings: Seq<PortMappingModel>) -> Seq<SrvBindingModel>
    decreases mappings.len(),
{
    if mappings.len() == 0 {
        Seq::empty()
    } else {
        let before = srv_bindings(mappings.drop_last());
        match mappings.last().srv {
            Some(spec) => before.push(
                SrvBindingModel { spec, edge_port: mappings.last().edge_port },
            ),
            None => before,
        }
    }
}

/// A service's public face.
pub open spec fn described(
    service: ServiceModel,
    mappings: Seq<PortMappingModel>,
    zone: Seq<char>,
    edge_ip: Ipv4Addr,
) -> ServiceDescriptionModel {
    let fqdn = model::fqdn_of(service.subdomain, zone);
    ServiceDescriptionModel {
        fqdn,
        ports: Seq::new(mappings.len(), |i: int| port_view(fqdn, mappings[i])),
        dns: dns::desired_records(fqdn, edge_ip, srv_bindings(mappings)),
    }
}

/// Derive a service's public face from what is actually stored.
///
/// The database is the source of truth, so what the UI shows and what the
/// reconciler publishes cannot drift from what is really forwarded.
pub fn describe_service(
    service: &Service,
    mappings: &[PortMapping],
    zone: &str,
    edge_ip: Ipv4Addr,
) -> (r: ServiceDescription)
    ensures
        r@ == described(service@, text::views(mappings@), zone@, edge_ip),
{
    let fqdn = service.fqdn(zone);
    let mut ports: Vec<PortView> = Vec::new();
    let mut srvs: Vec<SrvBinding> = Vec::new();
    let ghost all = text::views(mappings@);
    let mut i: usize = 0;
    proof {
        assert(all.take(0) =~= Seq::<PortMappingModel>::empty());
        assert(text::views(srvs@) =~= Seq::<SrvBindingModel>::empty());
    }
    while i < mappings.len()
        invariant
            i <= mappings@.len(),
            all == text::views(mappings@),
            ports@.len() == i,
            forall|k: int| 0 <= k < i ==> (#[trigger] ports@[k])@ == port_view(fqdn@, all[k]),
            text::views(srvs@) == srv_bindings(all.take(i as int)),
        decreases mappings@.len() - i,
    {
        let mapping: &PortMapping = &mappings[i];
        proof {
            text::lemma_views_step(mappings@, i as int);
        }
        let endpoint = Endpoint {
            host: fqdn.clone(),
            port: mapping.edge_port,
            protocol: mapping.protocol,
            port_implied_by_srv: mapping.srv.is_some(),
        };
        ports.push(
            PortView { connect: endpoint.to_string(), endpoint, mapping: mapping.clone() },
        );
        if let Some(spec) = &mapping.srv {
            let binding = SrvBinding { spec, edge_port: mapping.edge_port };
            proof {
                text::lemma_views_push(srvs@, binding);
            }
            srvs.push(binding);
        }
        i += 1;
    }
    proof {
        assert(all.take(i as int) =~= all);
    }
    let records = dns::service_records(fqdn.as_str(), edge_ip, srvs.as_slice());
    let out = ServiceDescription { fqdn, ports, dns: records };
    proof {
        let want = described(service@, all, zone@, edge_ip);
        assert(out@.ports =~= want.ports);
    }
    out
}

/// A service's name always resolves: whatever ports it has, the first of its
/// records is the A record that points its name at the gateway.
pub proof fn law_every_service_resolves(
    service: ServiceModel,
    mappings: Seq<PortMappingModel>,
    zone: Seq<char>,
    edge_ip: Ipv4Addr,
)
    ensures
        ({
            let face = described(service, mappings, zone, edge_ip);
            face.dns.len() > 0 && face.dns[0] == dns::a_record(face.fqdn, edge_ip)
        }),
{
}

/// Where an SRV record covers a mapping, players type the bare name; elsewhere
/// they are told the public port.
pub proof fn law_srv_hides_the_port(fqdn: Seq<char>, mapping: PortMappingModel)
    ensures
        mapping.srv is Some ==> port_view(fqdn, mapping).connect == fqdn,
        mapping.srv is None ==> port_view(fqdn, mapping).connect == fqdn + ":"@
            + crate::number::decimal(mapping.edge_port as nat),
{
}

} // verus!
