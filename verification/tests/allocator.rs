use portal::allocator::{AllocError, EdgePortRange, PortAllocator, PortRequest};
use portal::model::Protocol;

fn allocator() -> PortAllocator {
    PortAllocator::new(EdgePortRange::new(30000, 30003).unwrap())
}

#[test]
fn prefers_the_well_known_port_when_it_is_free() {
    let mut alloc = allocator();
    let port = alloc
        .allocate(PortRequest::flexible(Protocol::Tcp, 25565))
        .unwrap();
    assert_eq!(port, 25565, "the first Minecraft server should look normal");
}

#[test]
fn second_service_falls_back_into_the_range() {
    let mut alloc = allocator();
    alloc
        .allocate(PortRequest::flexible(Protocol::Tcp, 25565))
        .unwrap();
    let second = alloc
        .allocate(PortRequest::flexible(Protocol::Tcp, 25565))
        .unwrap();
    assert_eq!(second, 30000);
    assert!(alloc.range().contains(second));
}

#[test]
fn tcp_and_udp_are_allocated_independently() {
    let mut alloc = allocator();
    alloc
        .allocate(PortRequest::flexible(Protocol::Tcp, 25565))
        .unwrap();
    let udp = alloc
        .allocate(PortRequest::flexible(Protocol::Udp, 25565))
        .unwrap();
    assert_eq!(udp, 25565);
}

#[test]
fn a_fixed_port_fails_rather_than_moving() {
    let mut alloc = allocator();
    alloc
        .allocate(PortRequest::fixed(Protocol::Udp, 19132))
        .unwrap();
    let err = alloc
        .allocate(PortRequest::fixed(Protocol::Udp, 19132))
        .expect_err("Bedrock's port must not be silently relocated");
    assert!(matches!(
        err,
        AllocError::FixedPortTaken {
            protocol: Protocol::Udp,
            port: 19132
        }
    ));
}

#[test]
fn exhausting_the_range_is_an_error_not_a_wrap_around() {
    let mut alloc = PortAllocator::new(EdgePortRange::new(30000, 30001).unwrap());
    for _ in 0..3 {
        alloc
            .allocate(PortRequest::flexible(Protocol::Tcp, 25565))
            .unwrap();
    }
    let err = alloc
        .allocate(PortRequest::flexible(Protocol::Tcp, 25565))
        .expect_err("range holds two ports plus the preferred one");
    assert!(matches!(err, AllocError::RangeExhausted { .. }));
}

#[test]
fn seeded_ports_are_not_handed_out() {
    let mut alloc = PortAllocator::with_taken(
        EdgePortRange::new(30000, 30003).unwrap(),
        vec![(Protocol::Tcp, 25565), (Protocol::Tcp, 30000)],
    );
    let port = alloc
        .allocate(PortRequest::flexible(Protocol::Tcp, 25565))
        .unwrap();
    assert_eq!(port, 30001);
}

#[test]
fn released_ports_come_back() {
    let mut alloc = allocator();
    alloc
        .allocate(PortRequest::flexible(Protocol::Tcp, 25565))
        .unwrap();
    alloc.release(Protocol::Tcp, 25565);
    assert_eq!(
        alloc
            .allocate(PortRequest::flexible(Protocol::Tcp, 25565))
            .unwrap(),
        25565
    );
}

#[test]
fn rejects_privileged_or_inverted_ranges() {
    assert!(matches!(
        EdgePortRange::new(80, 30000),
        Err(AllocError::InvalidRange(80, 30000))
    ));
    assert!(matches!(
        EdgePortRange::new(32767, 30000),
        Err(AllocError::InvalidRange(32767, 30000))
    ));
}

#[test]
fn the_default_range_ends_below_the_ephemeral_ports() {
    let range = EdgePortRange::default();
    assert_eq!((range.start(), range.end()), (30000, 32767));
    assert!(PortAllocator::default().range().contains(32767));
    assert!(!range.contains(32768));
}

#[test]
fn reserving_a_taken_port_says_so() {
    let mut alloc = allocator();
    assert!(alloc.reserve(Protocol::Tcp, 30000));
    assert!(!alloc.reserve(Protocol::Tcp, 30000));
    assert!(alloc.is_taken(Protocol::Tcp, 30000));
    assert!(!alloc.is_taken(Protocol::Udp, 30000));
}

#[test]
fn a_failed_allocation_takes_nothing() {
    let mut alloc = PortAllocator::new(EdgePortRange::new(30000, 30000).unwrap());
    alloc.reserve(Protocol::Tcp, 30000);
    alloc.reserve(Protocol::Tcp, 25565);
    assert!(alloc
        .allocate(PortRequest::flexible(Protocol::Tcp, 25565))
        .is_err());
    alloc.release(Protocol::Tcp, 30000);
    assert_eq!(
        alloc
            .allocate(PortRequest::flexible(Protocol::Tcp, 25565))
            .unwrap(),
        30000
    );
}

#[test]
fn allocation_errors_tell_an_operator_what_happened() {
    assert_eq!(
        AllocError::InvalidRange(80, 30000).to_string(),
        "edge port range 80-30000 is invalid: start must be at least 1024 and not above end"
    );
    assert_eq!(
        AllocError::FixedPortTaken {
            protocol: Protocol::Udp,
            port: 19132
        }
        .to_string(),
        "udp port 19132 cannot be moved (clients of this game cannot be told a different port) and is already in use"
    );
    assert_eq!(
        AllocError::RangeExhausted {
            protocol: Protocol::Tcp,
            start: 30000,
            end: 30001
        }
        .to_string(),
        "no free tcp port left in the edge range 30000-30001"
    );
}
