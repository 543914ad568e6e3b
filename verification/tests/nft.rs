use portal::addr::Ipv4Addr;
use portal::ids::Uuid;
use portal::model::Protocol;
use portal::nft::ruleset;
use portal::store::ActiveForward;

fn forward(protocol: Protocol, edge_port: u16, last_octet: u8) -> ActiveForward {
    ActiveForward {
        tunnel_ip: Ipv4Addr::new(10, 99, 0, last_octet),
        protocol,
        edge_port,
        local_port: 25565,
        service_id: Uuid::nil(),
    }
}

#[test]
fn each_forward_becomes_one_dnat_rule() {
    let rules = ruleset(
        "portal",
        "10.99.0.0/24",
        &[
            forward(Protocol::Tcp, 25565, 2),
            forward(Protocol::Udp, 24454, 2),
        ],
    );
    assert!(rules.contains("tcp dport 25565 dnat to 10.99.0.2:25565"));
    assert!(rules.contains("udp dport 24454 dnat to 10.99.0.2:24454"));
}

#[test]
fn the_table_is_replaced_atomically() {
    let rules = ruleset("portal", "10.99.0.0/24", &[]);
    let lines: Vec<&str> = rules.lines().filter(|l| !l.starts_with('#')).collect();
    assert_eq!(
        &lines[..3],
        &[
            "table ip portal",
            "delete table ip portal",
            "table ip portal {"
        ],
        "create-then-delete keeps the first boot from failing"
    );
}

#[test]
fn an_empty_ruleset_is_still_a_valid_table() {
    let rules = ruleset("portal", "10.99.0.0/24", &[]);
    assert!(rules.contains("chain prerouting"));
    assert!(rules.contains("chain postrouting"));
    assert_eq!(rules.matches("dnat to").count(), 0);
}

#[test]
fn return_traffic_is_masqueraded_into_the_tunnel() {
    let rules = ruleset("portal", "10.99.0.0/24", &[]);
    assert!(rules.contains("ip daddr 10.99.0.0/24 masquerade"));
}

#[test]
fn braces_balance_so_nft_can_parse_it() {
    let rules = ruleset(
        "portal",
        "10.99.0.0/24",
        &[forward(Protocol::Tcp, 25565, 2)],
    );
    assert_eq!(rules.matches('{').count(), rules.matches('}').count());
}

#[test]
fn the_table_name_is_configurable() {
    let rules = ruleset("custom", "10.99.0.0/24", &[]);
    assert!(rules.contains("table ip custom {"));
    assert!(!rules.contains("table ip portal"));
}

#[test]
fn a_ruleset_reads_as_nft_expects_it() {
    let rules = ruleset(
        "portal",
        "10.99.0.0/24",
        &[forward(Protocol::Tcp, 25565, 2)],
    );
    let expected = "\
# Managed by portal. Edits here are overwritten.
table ip portal
delete table ip portal
table ip portal {
  chain prerouting {
    type nat hook prerouting priority dstnat; policy accept;
    tcp dport 25565 dnat to 10.99.0.2:25565  # service 00000000-0000-0000-0000-000000000000
  }
  chain postrouting {
    type nat hook postrouting priority srcnat; policy accept;
    ip daddr 10.99.0.0/24 masquerade
  }
}
";
    assert_eq!(rules, expected);
}
