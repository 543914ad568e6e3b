use portal::addr::Ipv4Addr;
use portal::allocator::{AllocError, EdgePortRange, PortAllocator};
use portal::api::AddPortRequest;
use portal::clock::Timestamp;
use portal::ids::Uuid;
use portal::model::{PortMapping, Protocol, Service, SrvSpec};
use portal::plan::{
    allocate_edge_port, describe_service, normalize_local_host, normalize_subdomain, srv_for,
    PlanError,
};

fn ip() -> Ipv4Addr {
    Ipv4Addr::new(203, 0, 113, 10)
}

fn service(subdomain: &str) -> Service {
    Service {
        id: Uuid::new_v4(),
        node_id: Uuid::new_v4(),
        name: subdomain.into(),
        subdomain: subdomain.into(),
        enabled: true,
        created_at: Timestamp::epoch(),
    }
}

fn mapping(service: &Service, port: u16, edge: u16, srv: bool) -> PortMapping {
    PortMapping {
        id: Uuid::new_v4(),
        service_id: service.id,
        protocol: Protocol::Tcp,
        local_host: "192.168.1.50".into(),
        local_port: port,
        edge_port: edge,
        srv: if srv {
            Some(SrvSpec::minecraft_java())
        } else {
            None
        },
    }
}

fn request(port: u16, edge: Option<u16>) -> AddPortRequest {
    AddPortRequest {
        protocol: Protocol::Tcp,
        local_host: "192.168.1.50".into(),
        local_port: port,
        edge_port: edge,
        minecraft_srv: false,
    }
}

fn allocator() -> PortAllocator {
    PortAllocator::new(EdgePortRange::default())
}

#[test]
fn subdomains_are_normalized_and_validated() {
    assert_eq!(normalize_subdomain("  MC  ").unwrap(), "mc");
    assert_eq!(normalize_subdomain("@").unwrap(), "@");
    for bad in ["-mc", "mc-", "mc.smp", "mc_smp", ""] {
        assert!(
            normalize_subdomain(bad).is_err(),
            "`{bad}` should be rejected"
        );
    }
}

#[test]
fn lan_addresses_are_accepted_as_the_target() {
    assert_eq!(
        normalize_local_host("192.168.1.50").unwrap(),
        "192.168.1.50"
    );
    assert_eq!(normalize_local_host(" NAS.local ").unwrap(), "nas.local");
    for bad in ["", "192.168.1.50:25565", "has space", "http://x"] {
        assert!(
            normalize_local_host(bad).is_err(),
            "`{bad}` should be rejected"
        );
    }
}

#[test]
fn a_blank_public_port_prefers_the_local_one() {
    let mut alloc = allocator();
    assert_eq!(
        allocate_edge_port(&mut alloc, &request(25565, None)).unwrap(),
        25565
    );
}

#[test]
fn the_second_server_on_the_same_port_falls_back_to_the_range() {
    let mut alloc = allocator();
    allocate_edge_port(&mut alloc, &request(25565, None)).unwrap();
    let second = allocate_edge_port(&mut alloc, &request(25565, None)).unwrap();
    assert_eq!(second, 30000);
}

#[test]
fn an_explicit_public_port_is_refused_rather_than_moved() {
    let mut alloc = allocator();
    allocate_edge_port(&mut alloc, &request(25565, Some(25565))).unwrap();
    let err = allocate_edge_port(&mut alloc, &request(25566, Some(25565)))
        .expect_err("asking for a taken port must fail, not silently move");
    assert!(matches!(
        err,
        PlanError::Alloc(AllocError::FixedPortTaken { .. })
    ));
}

#[test]
fn ten_servers_on_one_node_each_get_their_own_public_port() {
    let mut alloc = allocator();
    let ports: Vec<u16> = (0..10)
        .map(|_| allocate_edge_port(&mut alloc, &request(25565, None)).unwrap())
        .collect();
    let unique: std::collections::HashSet<_> = ports.iter().collect();
    assert_eq!(unique.len(), 10, "every server needs its own public port");
    assert_eq!(ports[0], 25565, "the first one still looks normal");
}

#[test]
fn srv_hides_the_port_so_ten_servers_are_all_bare_names() {
    let svc = service("mc");
    let described = describe_service(
        &svc,
        &[mapping(&svc, 25565, 30007, true)],
        "example.com",
        ip(),
    );
    assert_eq!(described.ports[0].connect, "mc.example.com");
    assert!(described
        .dns
        .iter()
        .any(|r| r.name() == "_minecraft._tcp.mc.example.com"));
}

#[test]
fn without_srv_the_player_gets_told_the_port() {
    let svc = service("mc");
    let described = describe_service(
        &svc,
        &[mapping(&svc, 25565, 30007, false)],
        "example.com",
        ip(),
    );
    assert_eq!(described.ports[0].connect, "mc.example.com:30007");
    assert_eq!(described.dns.len(), 1, "just the A record");
}

#[test]
fn a_service_with_no_ports_still_resolves() {
    let svc = service("mc");
    let described = describe_service(&svc, &[], "example.com", ip());
    assert_eq!(described.dns.len(), 1);
    assert!(described.ports.is_empty());
}

#[test]
fn labels_and_hosts_have_a_longest_length() {
    assert!(normalize_subdomain(&"a".repeat(63)).is_ok());
    assert!(normalize_subdomain(&"a".repeat(64)).is_err());
    assert!(normalize_local_host(&"a".repeat(253)).is_ok());
    assert!(normalize_local_host(&"a".repeat(254)).is_err());
    for bad in [".nas", "nas.", "nas_1", "nä"] {
        assert!(normalize_local_host(bad).is_err(), "`{bad}`");
    }
    assert!(normalize_subdomain("mü").is_err());
}

#[test]
fn normalizing_again_changes_nothing() {
    let once = normalize_subdomain(" My-Server1 ").unwrap();
    assert_eq!(once, "my-server1");
    assert_eq!(normalize_subdomain(&once).unwrap(), once);
    let host = normalize_local_host(" NAS.Local ").unwrap();
    assert_eq!(normalize_local_host(&host).unwrap(), host);
}

#[test]
fn port_zero_is_no_port_and_a_zero_public_port_is_a_blank_one() {
    let mut alloc = allocator();
    assert!(matches!(
        allocate_edge_port(&mut alloc, &request(0, Some(25565))),
        Err(PlanError::InvalidPort)
    ));
    assert_eq!(
        allocate_edge_port(&mut alloc, &request(25565, Some(0))).unwrap(),
        25565
    );
}

#[test]
fn plan_errors_are_reported_verbatim() {
    assert_eq!(
        normalize_subdomain(" A_B ").unwrap_err().to_string(),
        "` A_B ` is not a valid subdomain label"
    );
    assert_eq!(
        normalize_local_host("a b").unwrap_err().to_string(),
        "`a b` is not a valid address for the server behind the node"
    );
    assert_eq!(
        PlanError::InvalidPort.to_string(),
        "port numbers must be between 1 and 65535"
    );
    assert_eq!(
        PlanError::Alloc(AllocError::FixedPortTaken {
            protocol: Protocol::Tcp,
            port: 1
        })
        .to_string(),
        "tcp port 1 cannot be moved (clients of this game cannot be told a different port) and is already in use"
    );
}

#[test]
fn an_srv_record_is_published_when_asked_for() {
    let mut req = request(25565, None);
    assert!(srv_for(&req).is_none());
    req.minecraft_srv = true;
    let spec = srv_for(&req).unwrap();
    assert_eq!((spec.service.as_str(), spec.proto.as_str()), ("_minecraft", "_tcp"));
    assert_eq!((spec.priority, spec.weight), (0, 5));
}
