use portal::addr::Ipv4Addr;
use portal::clock::Timestamp;
use portal::ids::Uuid;
use portal::model::{Agent, Node};
use portal::wg::public_from_private;
use portal::wgctl::{
    create_key, parse_dump, peers_of, render_config, stored_key, InterfaceConfig,
};

fn agent(name: &str, key: &str, last_octet: u8) -> Agent {
    Agent {
        id: Uuid::new_v4(),
        name: name.to_string(),
        public_key: key.to_string(),
        tunnel_ip: Ipv4Addr::new(10, 99, 0, last_octet),
        last_handshake: None,
        created_at: Timestamp::epoch(),
    }
}

fn iface() -> InterfaceConfig {
    InterfaceConfig {
        private_key: "PRIVATE".into(),
        listen_port: 51820,
        address: Ipv4Addr::new(10, 99, 0, 1),
        prefix_len: 24,
    }
}

#[test]
fn every_agent_becomes_a_peer() {
    let config = render_config(
        &iface(),
        &[agent("basement", "KEY-A", 2), agent("attic", "KEY-B", 3)],
    );
    assert_eq!(config.matches("[Peer]").count(), 2);
    assert!(config.contains("PublicKey = KEY-A"));
    assert!(config.contains("PublicKey = KEY-B"));
}

#[test]
fn a_peer_is_allowed_exactly_one_address() {
    let config = render_config(&iface(), &[agent("basement", "KEY-A", 2)]);
    assert!(
        config.contains("AllowedIPs = 10.99.0.2/32"),
        "a wider range would let one agent impersonate another"
    );
    assert!(!config.contains("10.99.0.0/24"));
}

#[test]
fn peers_have_no_endpoint_because_the_gateway_never_dials_home() {
    let config = render_config(&iface(), &[agent("basement", "KEY-A", 2)]);
    assert!(!config.contains("Endpoint"));
}

#[test]
fn the_interface_section_carries_key_port_and_address() {
    let config = render_config(&iface(), &[]);
    assert!(config.contains("PrivateKey = PRIVATE"));
    assert!(config.contains("ListenPort = 51820"));
    assert!(config.contains("Address = 10.99.0.1/24"));
}

#[test]
fn dump_parsing_reads_handshakes_and_counters() {
    let dump = "PRIVKEY\tPUBKEY\t51820\toff\n\
                KEY-A\t(none)\t203.0.113.5:1234\t10.99.0.2/32\t1700000000\t1024\t2048\t25\n";
    let peers = parse_dump(dump);
    assert_eq!(peers.len(), 1, "the interface line must not be a peer");
    assert_eq!(peers[0].public_key, "KEY-A");
    assert_eq!(peers[0].rx_bytes, 1024);
    assert_eq!(peers[0].tx_bytes, 2048);
    assert_eq!(
        peers[0].last_handshake.unwrap().unix_seconds(),
        1700000000
    );
}

#[test]
fn a_zero_handshake_means_never_not_1970() {
    let dump = "PRIVKEY\tPUBKEY\t51820\toff\n\
                KEY-A\t(none)\t(none)\t10.99.0.2/32\t0\t0\t0\t25\n";
    let peers = parse_dump(dump);
    assert_eq!(peers[0].last_handshake, None);
}

#[test]
fn malformed_dump_lines_are_skipped_not_panicked_on() {
    let dump =
        "iface\tline\there\tok\ngarbage\nKEY-A\t(none)\t(none)\t10.99.0.2/32\t0\t0\t0\t25\n";
    assert_eq!(parse_dump(dump).len(), 1);
}

#[test]
fn counters_that_are_no_numbers_count_as_zero() {
    let dump = "iface\nKEY-A\tx\tx\tx\tsoon\tmany\t18446744073709551616\nKEY-B\tx\tx\tx\t-5\t+7\t18446744073709551615";
    let peers = parse_dump(dump);
    assert_eq!(peers.len(), 2);
    assert_eq!((peers[0].rx_bytes, peers[0].tx_bytes), (0, 0));
    assert_eq!(peers[0].last_handshake, None);
    assert_eq!(peers[1].last_handshake, None);
    assert_eq!((peers[1].rx_bytes, peers[1].tx_bytes), (7, u64::MAX));
    assert!(parse_dump("").is_empty());
    assert!(parse_dump("only the interface").is_empty());
}

#[test]
fn a_generated_key_is_reused_on_the_next_start() {
    let first = create_key();
    let second = stored_key(Some(&first.contents)).unwrap();
    assert_eq!(
        first.private, second,
        "regenerating would orphan every enrolled agent"
    );
    assert!(public_from_private(&first.private).is_ok());
}

#[test]
fn a_blank_key_file_is_no_key() {
    assert_eq!(stored_key(None), None);
    assert_eq!(stored_key(Some("")), None);
    assert_eq!(stored_key(Some(" \n\t ")), None);
    assert_eq!(stored_key(Some(" KEY \n")), Some("KEY".to_string()));
}

#[test]
fn a_node_is_a_peer_once_its_agent_has_a_key() {
    let node = |name: &str, key: Option<&str>| Node {
        id: Uuid::new_v4(),
        name: name.to_string(),
        public_key: key.map(|k| k.to_string()),
        tunnel_ip: Ipv4Addr::new(10, 99, 0, 2),
        last_handshake: None,
        created_at: Timestamp::epoch(),
    };
    let nodes = [
        node("new", None),
        node("basement", Some("KEY-A")),
        node("attic", Some("KEY-B")),
    ];
    let peers = peers_of(&nodes);
    assert_eq!(peers.len(), 2);
    assert_eq!(peers[0].name, "basement");
    assert_eq!(peers[0].id, nodes[1].id);
    assert_eq!(peers[1].public_key, "KEY-B");
}

#[test]
fn a_configuration_reads_as_wg_quick_expects_it() {
    let config = render_config(&iface(), &[agent("basement", "KEY-A", 2)]);
    let expected = "\
# Managed by portal. Edits here are overwritten.
[Interface]
PrivateKey = PRIVATE
ListenPort = 51820
Address = 10.99.0.1/24

# basement
[Peer]
PublicKey = KEY-A
AllowedIPs = 10.99.0.2/32
";
    assert_eq!(config, expected);
}
