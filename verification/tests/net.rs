use portal::addr::Ipv4Addr;
use portal::net::{Ipv4Net, NetError};

fn net(s: &str) -> Ipv4Net {
    s.parse().unwrap()
}

#[test]
fn parses_and_masks_to_the_network_address() {
    let n = net("10.99.0.37/24");
    assert_eq!(n.base(), Ipv4Addr::new(10, 99, 0, 0));
    assert_eq!(n.to_string(), "10.99.0.0/24");
}

#[test]
fn rejects_junk() {
    assert!("10.99.0.0".parse::<Ipv4Net>().is_err());
    assert!("not/a/net".parse::<Ipv4Net>().is_err());
    assert!("10.99.0.0/33".parse::<Ipv4Net>().is_err());
}

#[test]
fn hosts_exclude_network_and_broadcast() {
    let hosts = net("10.99.0.0/29").hosts().to_vec();
    assert_eq!(hosts.first(), Some(&Ipv4Addr::new(10, 99, 0, 1)));
    assert_eq!(hosts.last(), Some(&Ipv4Addr::new(10, 99, 0, 6)));
    assert_eq!(hosts.len(), 6);
}

#[test]
fn allocation_skips_taken_addresses() {
    let n = net("10.99.0.0/24");
    let taken = [Ipv4Addr::new(10, 99, 0, 1), Ipv4Addr::new(10, 99, 0, 2)];
    assert_eq!(n.next_free(&taken).unwrap(), Ipv4Addr::new(10, 99, 0, 3));
}

#[test]
fn a_full_subnet_is_an_error_not_a_wrap_around() {
    let n = net("10.99.0.0/30");
    let taken = n.hosts().to_vec();
    assert!(matches!(n.next_free(&taken), Err(NetError::Exhausted)));
}

#[test]
fn containment_is_by_prefix() {
    let n = net("10.99.0.0/24");
    assert!(n.contains(Ipv4Addr::new(10, 99, 0, 1)));
    assert!(!n.contains(Ipv4Addr::new(10, 99, 1, 1)));
}

#[test]
fn networks_that_are_too_small_have_no_hosts() {
    for s in ["10.99.0.0/31", "10.99.0.1/32"] {
        assert_eq!(net(s).hosts().len(), 0, "{s}");
        assert!(matches!(net(s).next_free(&[]), Err(NetError::Exhausted)));
    }
    assert_eq!(net("0.0.0.0/0").hosts().len(), 4294967294);
    assert_eq!(
        net("0.0.0.0/0").next_free(&[]).unwrap(),
        Ipv4Addr::new(0, 0, 0, 1)
    );
}

#[test]
fn a_prefix_length_out_of_range_is_its_own_error() {
    assert!(matches!(
        "10.99.0.0/33".parse::<Ipv4Net>(),
        Err(NetError::PrefixLen(33))
    ));
    let err = "10.99.0.0/33".parse::<Ipv4Net>().unwrap_err();
    assert_eq!(err.to_string(), "prefix length /33 is out of range");
    let err = "junk".parse::<Ipv4Net>().unwrap_err();
    assert_eq!(
        err.to_string(),
        "`junk` is not a CIDR network like 10.99.0.0/24"
    );
    assert_eq!(
        NetError::Exhausted.to_string(),
        "the tunnel subnet has no free addresses left"
    );
}

#[test]
fn addresses_round_trip_through_text() {
    for a in [
        Ipv4Addr::new(0, 0, 0, 0),
        Ipv4Addr::new(10, 99, 0, 2),
        Ipv4Addr::new(255, 255, 255, 255),
    ] {
        assert_eq!(Ipv4Addr::parse(&a.to_string()), Some(a));
    }
    for bad in ["", "10.99.0", "10.99.0.256", "10.99.0.01", " 10.99.0.1", "1.2.3.4.5"] {
        assert_eq!(Ipv4Addr::parse(bad), None, "{bad}");
    }
}
