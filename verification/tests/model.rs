use portal::addr::Ipv4Addr;
use portal::clock::Timestamp;
use portal::ids::Uuid;
use portal::model::{Endpoint, Node, Protocol, Service, SrvSpec};

#[test]
fn model_srv_record_name_is_fully_qualified() {
    assert_eq!(
        SrvSpec::minecraft_java().record_name("mc.example.com"),
        "_minecraft._tcp.mc.example.com"
    );
}

#[test]
fn an_endpoint_hides_its_port_only_when_srv_covers_it() {
    let mut endpoint = Endpoint {
        host: "mc.example.com".into(),
        port: 30001,
        protocol: Protocol::Tcp,
        port_implied_by_srv: true,
    };
    assert_eq!(endpoint.to_string(), "mc.example.com");
    endpoint.port_implied_by_srv = false;
    assert_eq!(endpoint.to_string(), "mc.example.com:30001");
}

#[test]
fn the_apex_service_is_the_zone_itself() {
    let service = Service {
        id: Uuid::nil(),
        node_id: Uuid::nil(),
        name: "root".into(),
        subdomain: "@".into(),
        enabled: true,
        created_at: Timestamp::epoch(),
    };
    assert_eq!(service.fqdn("example.com"), "example.com");
}

#[test]
fn protocols_round_trip_through_text() {
    for p in [Protocol::Tcp, Protocol::Udp] {
        assert_eq!(p.as_str().parse::<Protocol>().unwrap(), p);
    }
    assert!("sctp".parse::<Protocol>().is_err());
}

#[test]
fn a_protocol_is_named_in_any_case() {
    assert_eq!("TCP".parse::<Protocol>(), Ok(Protocol::Tcp));
    assert_eq!("Udp".parse::<Protocol>(), Ok(Protocol::Udp));
    assert_eq!(
        "SCTP".parse::<Protocol>(),
        Err("`sctp` is not tcp or udp".to_string())
    );
}

#[test]
fn a_node_is_online_for_three_minutes_after_a_handshake() {
    let mut node = Node {
        id: Uuid::nil(),
        name: "box".into(),
        public_key: None,
        tunnel_ip: Ipv4Addr::new(10, 99, 0, 2),
        last_handshake: None,
        created_at: Timestamp::epoch(),
    };
    assert!(!node.is_online(Timestamp::epoch()));
    node.last_handshake = Timestamp::from_unix_seconds(1000);
    assert!(node.is_online(Timestamp::from_unix_seconds(1179).unwrap()));
    assert!(!node.is_online(Timestamp::from_unix_seconds(1180).unwrap()));
    assert!(node.is_online(Timestamp::from_unix_seconds(900).unwrap()));
}

#[test]
fn identifiers_are_hyphenated_and_read_back() {
    assert_eq!(
        Uuid::nil().to_string(),
        "00000000-0000-0000-0000-000000000000"
    );
    let id = Uuid {
        bits: 0x0123_4567_89ab_cdef_0123_4567_89ab_cdef,
    };
    assert_eq!(id.to_string(), "01234567-89ab-cdef-0123-456789abcdef");
    assert_eq!(Uuid::parse(&id.to_string()), Some(id));
    assert_eq!(Uuid::parse("0123456789abcdef0123456789abcdef"), Some(id));
    assert_eq!(Uuid::parse("not an id"), None);
}

#[test]
fn random_identifiers_are_version_four_and_differ() {
    let a = Uuid::new_v4();
    let b = Uuid::new_v4();
    assert_ne!(a, b);
    let text = a.to_string();
    assert_eq!(&text[14..15], "4");
    assert!(["8", "9", "a", "b"].contains(&&text[19..20]));
}

#[test]
fn instants_are_written_as_rfc_3339_and_read_back() {
    assert_eq!(
        Timestamp::epoch().to_rfc3339(),
        Ok("1970-01-01T00:00:00Z".to_string())
    );
    let at = Timestamp {
        unix_nanos: 1_700_000_000_123_456_789,
        offset_seconds: 0,
    };
    let text = at.to_rfc3339().unwrap();
    assert_eq!(text, "2023-11-14T22:13:20.123456789Z");
    assert_eq!(Timestamp::from_rfc3339(&text), Ok(at));
    assert_eq!(
        Timestamp::from_rfc3339("1970-01-01T00:00:00+00:00"),
        Ok(Timestamp::epoch())
    );
    assert!(Timestamp::from_rfc3339("yesterday").is_err());
}

#[test]
fn a_time_keeps_the_offset_it_is_written_with() {
    for (text, unix_nanos, offset_seconds) in [
        ("1970-01-01T02:00:00+02:00", 0, 7200),
        ("1969-12-31T18:15:00.5-05:45", 500_000_000, -20_700),
        ("1970-01-01T00:30:00-00:30", 3_600_000_000_000, -1_800),
        ("9999-12-31T23:59:59-23:59", 253_402_387_139_000_000_000, -86_340),
    ] {
        let at = Timestamp::from_rfc3339(text).unwrap();
        assert_eq!((at.unix_nanos, at.offset_seconds), (unix_nanos, offset_seconds));
        assert_eq!(at.to_rfc3339().unwrap(), text);
    }
}

#[test]
fn what_has_four_digits_for_the_year_and_an_offset_in_minutes_has_a_text() {
    let second: i128 = 1_000_000_000;
    let text = |unix_nanos, offset_seconds| {
        Timestamp {
            unix_nanos,
            offset_seconds,
        }
        .to_rfc3339()
        .ok()
    };
    let first = -62_167_219_200 * second;
    let last = 253_402_300_799 * second + 999_999_999;
    assert_eq!(text(first, 0).unwrap(), "0000-01-01T00:00:00Z");
    assert_eq!(text(first - 1, 0), None);
    assert_eq!(text(last, 0).unwrap(), "9999-12-31T23:59:59.999999999Z");
    assert_eq!(text(last + 1, 0), None);
    // What counts is the year that the clock shows, not the one in UTC.
    assert_eq!(
        text(first - 60 * second, 60).unwrap(),
        "0000-01-01T00:00:00+00:01"
    );
    assert_eq!(text(last, 60), None);
    assert_eq!(text(0, 86_340).unwrap(), "1970-01-01T23:59:00+23:59");
    assert_eq!(text(0, 86_400), None);
    assert_eq!(text(0, -86_400), None);
    assert_eq!(text(0, 30), None);
    assert_eq!(text(0, i32::MIN), None);
    assert_eq!(text(i128::MIN, -60), None);
}

#[test]
fn instants_off_the_calendar_have_no_text() {
    assert!(Timestamp {
        unix_nanos: i128::MAX,
        offset_seconds: 0
    }
    .to_rfc3339()
    .is_err());
    assert_eq!(Timestamp::from_unix_seconds(i64::MAX), None);
    assert_eq!(
        Timestamp::from_unix_seconds(253402300799)
            .unwrap()
            .unix_seconds(),
        253402300799
    );
    let before = Timestamp {
        unix_nanos: -1,
        offset_seconds: 0,
    };
    assert_eq!(before.unix_seconds(), -1);
}
