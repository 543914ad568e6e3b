use portal::addr::{IpAddr, Ipv4Addr};
use portal::allocator::AllocError;
use portal::config::{
    join_path, read_secret, Config, ConfigError, ListenAddr, NftablesSection, RawCloudflare,
    RawConfig, RawGateway, RawNftables, RawTunnel, SecretFile,
};
use portal::model::Protocol;

const MINIMAL: &str = r#"
[gateway]
public_ip = "203.0.113.10"
zone = "example.com"

[tunnel]
endpoint = "vps.example.com:51820"

[cloudflare]
zone_id = "abc123"
"#;

fn text(table: &toml::Table, key: &str) -> Option<String> {
    table
        .get(key)
        .map(|v| v.as_str().expect("a string").to_string())
}

fn port(table: &toml::Table, key: &str) -> Option<u16> {
    table
        .get(key)
        .map(|v| v.as_integer().expect("a number") as u16)
}

fn ports(table: &toml::Table, key: &str) -> Option<Vec<u16>> {
    table.get(key).map(|v| {
        v.as_array()
            .expect("a list")
            .iter()
            .map(|p| p.as_integer().expect("a number") as u16)
            .collect()
    })
}

fn section<'a>(table: &'a toml::Table, key: &str) -> &'a toml::Table {
    table[key].as_table().expect("a section")
}

fn parse(toml_src: &str) -> Result<Config, ConfigError> {
    let table: toml::Table = toml_src.parse().map_err(|e: toml::de::Error| ConfigError::Parse {
        path: "test".into(),
        source: e.to_string(),
    })?;
    let gateway = section(&table, "gateway");
    let tunnel = section(&table, "tunnel");
    let cloudflare = section(&table, "cloudflare");
    let address = |s: String| Ipv4Addr::parse(&s).expect("an address");
    Config::from_raw(RawConfig {
        gateway: RawGateway {
            public_ip: address(text(gateway, "public_ip").unwrap()),
            zone: text(gateway, "zone").unwrap(),
            listen: None,
            data_dir: text(gateway, "data_dir"),
            profiles_dir: text(gateway, "profiles_dir"),
            edge_port_range_start: port(gateway, "edge_port_range_start"),
            edge_port_range_end: port(gateway, "edge_port_range_end"),
            reserved_tcp_ports: ports(gateway, "reserved_tcp_ports"),
            reserved_udp_ports: ports(gateway, "reserved_udp_ports"),
            admin_token_file: text(gateway, "admin_token_file"),
        },
        tunnel: RawTunnel {
            subnet: text(tunnel, "subnet").map(|s| s.parse().expect("a network")),
            gateway_ip: text(tunnel, "gateway_ip").map(address),
            interface: text(tunnel, "interface"),
            listen_port: port(tunnel, "listen_port"),
            endpoint: text(tunnel, "endpoint").unwrap(),
            private_key_file: text(tunnel, "private_key_file"),
            persistent_keepalive: port(tunnel, "persistent_keepalive"),
        },
        cloudflare: RawCloudflare {
            zone_id: text(cloudflare, "zone_id").unwrap(),
            api_token_file: text(cloudflare, "api_token_file"),
            enabled: cloudflare.get("enabled").and_then(|v| v.as_bool()),
        },
        nftables: table
            .get("nftables")
            .and_then(|v| v.as_table())
            .map(|n| RawNftables {
                table: text(n, "table"),
                enabled: n.get("enabled").and_then(|v| v.as_bool()),
            }),
    })
}

#[test]
fn a_minimal_config_gets_working_defaults() {
    let config = parse(MINIMAL).expect("minimal config should be enough");
    assert_eq!(config.gateway.listen.port, 8080);
    assert_eq!(config.tunnel.subnet.to_string(), "10.99.0.0/24");
    assert_eq!(config.tunnel.gateway_ip, Ipv4Addr::new(10, 99, 0, 1));
    assert_eq!(config.tunnel.persistent_keepalive, 25);
    assert!(config.cloudflare.enabled);
    assert_eq!(config.nftables.table, "portal");
}

#[test]
fn wireguard_and_ssh_ports_are_reserved_without_being_asked() {
    let reserved = parse(MINIMAL).unwrap().reserved_ports();
    assert!(reserved.contains(&(Protocol::Udp, 51820)));
    assert!(reserved.contains(&(Protocol::Tcp, 22)));
    assert!(reserved.contains(&(Protocol::Tcp, 8080)));
}

#[test]
fn a_gateway_ip_outside_its_own_subnet_is_rejected() {
    let src = MINIMAL.replace(
        "endpoint = \"vps.example.com:51820\"",
        "endpoint = \"vps.example.com:51820\"\ngateway_ip = \"192.168.1.1\"",
    );
    assert!(matches!(
        parse(&src),
        Err(ConfigError::GatewayIpOutsideSubnet(..))
    ));
}

#[test]
fn an_inverted_port_range_is_rejected_at_load() {
    let src = MINIMAL.replace(
        "zone = \"example.com\"",
        "zone = \"example.com\"\nedge_port_range_start = 40000\nedge_port_range_end = 30000",
    );
    assert!(matches!(parse(&src), Err(ConfigError::Range(_))));
}

#[test]
fn secrets_come_from_the_environment_before_any_file() {
    let unreadable = SecretFile::Unreadable {
        path: "/nonexistent".into(),
        source: "no such file".into(),
    };
    let value = read_secret(Some("from-env"), &unreadable).unwrap();
    assert_eq!(value.as_deref(), Some("from-env"));
}

#[test]
fn a_missing_cloudflare_token_names_both_ways_to_set_it() {
    let config = parse(MINIMAL).unwrap();
    let err = config
        .cloudflare_token(None, &SecretFile::NotNamed)
        .expect_err("no token configured");
    let msg = err.to_string();
    assert!(msg.contains("PORTAL_CF_API_TOKEN"), "{msg}");
    assert!(msg.contains("cloudflare.api_token_file"), "{msg}");
}

#[test]
fn every_default_is_filled_in() {
    let config = parse(MINIMAL).unwrap();
    assert_eq!(config.gateway.public_ip, Ipv4Addr::new(203, 0, 113, 10));
    assert_eq!(config.gateway.zone, "example.com");
    assert_eq!(
        config.gateway.listen,
        ListenAddr {
            ip: IpAddr::V4(Ipv4Addr::new(127, 0, 0, 1)),
            port: 8080
        }
    );
    assert_eq!(config.gateway.data_dir, "/var/lib/portal");
    assert_eq!(config.gateway.profiles_dir, "/etc/portal/profiles");
    assert_eq!(config.gateway.edge_port_range_start, 30000);
    assert_eq!(config.gateway.edge_port_range_end, 32767);
    assert!(config.gateway.reserved_tcp_ports.is_empty());
    assert!(config.gateway.reserved_udp_ports.is_empty());
    assert_eq!(config.gateway.admin_token_file, None);
    assert_eq!(config.tunnel.interface, "wg0");
    assert_eq!(config.tunnel.listen_port, 51820);
    assert_eq!(config.tunnel.endpoint, "vps.example.com:51820");
    assert_eq!(config.private_key_file(), "/etc/portal/wg-private.key");
    assert_eq!(config.cloudflare.zone_id, "abc123");
    assert_eq!(config.cloudflare.api_token_file, None);
    assert!(config.nftables.enabled);
    assert!(NftablesSection::default().enabled);
    assert_eq!(NftablesSection::default().table, "portal");
    assert_eq!(config.database_path(), "/var/lib/portal/portal.db");
    assert_eq!(config.wireguard_config_path(), "/var/lib/portal/wg0.conf");
}

#[test]
fn what_is_written_wins_over_the_defaults() {
    let src = r#"
[gateway]
public_ip = "203.0.113.10"
zone = "example.com"
data_dir = "/data/"
edge_port_range_start = 20000
edge_port_range_end = 20010
reserved_tcp_ports = [80, 443]
reserved_udp_ports = [53]

[tunnel]
endpoint = "vps:1"
subnet = "10.7.0.0/16"
gateway_ip = "10.7.0.1"
interface = "wg7"
listen_port = 7777
persistent_keepalive = 5

[cloudflare]
zone_id = "z"
enabled = false

[nftables]
table = "custom"
enabled = false
"#;
    let config = parse(src).unwrap();
    assert_eq!(config.tunnel.subnet.to_string(), "10.7.0.0/16");
    assert_eq!(config.database_path(), "/data/portal.db");
    assert!(!config.cloudflare.enabled);
    assert!(!config.nftables.enabled);
    assert_eq!(config.nftables.table, "custom");
    assert_eq!(
        config.reserved_ports(),
        vec![
            (Protocol::Tcp, 22),
            (Protocol::Udp, 7777),
            (Protocol::Tcp, 8080),
            (Protocol::Tcp, 80),
            (Protocol::Tcp, 443),
            (Protocol::Udp, 53),
        ]
    );
    let range = config.edge_port_range().unwrap();
    assert_eq!((range.start(), range.end()), (20000, 20010));
}

#[test]
fn paths_are_joined_like_paths() {
    assert_eq!(join_path("/a", "b"), "/a/b");
    assert_eq!(join_path("/a/", "b"), "/a/b");
    assert_eq!(join_path("", "b"), "b");
    assert_eq!(join_path("/a", "/b"), "/b");
}

#[test]
fn a_secret_is_trimmed_and_a_blank_one_is_none() {
    let named = |s: &str| SecretFile::Contents(s.to_string());
    assert_eq!(
        read_secret(None, &named(" token \n")).unwrap(),
        Some("token".to_string())
    );
    assert_eq!(read_secret(None, &named(" \n")).unwrap(), None);
    assert_eq!(
        read_secret(Some("  "), &named("file")).unwrap(),
        Some("file".to_string())
    );
    assert_eq!(read_secret(None, &SecretFile::NotNamed).unwrap(), None);
    let config = parse(MINIMAL).unwrap();
    assert_eq!(
        config.admin_token(Some(" a "), &SecretFile::NotNamed).unwrap(),
        Some("a".to_string())
    );
    assert_eq!(
        config
            .cloudflare_token(None, &named("cf"))
            .expect("in the file"),
        "cf"
    );
}

#[test]
fn config_errors_tell_an_operator_what_to_do() {
    let unreadable = SecretFile::Unreadable {
        path: "/x".into(),
        source: "denied".into(),
    };
    assert_eq!(
        read_secret(None, &unreadable).unwrap_err().to_string(),
        "failed to read secret from `/x`: denied"
    );
    let src = MINIMAL.replace(
        "endpoint = \"vps.example.com:51820\"",
        "endpoint = \"vps.example.com:51820\"\ngateway_ip = \"192.168.1.1\"",
    );
    assert_eq!(
        parse(&src).unwrap_err().to_string(),
        "the gateway's tunnel address 192.168.1.1 is not inside the tunnel subnet 10.99.0.0/24"
    );
    assert_eq!(
        ConfigError::Range(AllocError::InvalidRange(2, 1)).to_string(),
        "edge port range is invalid: edge port range 2-1 is invalid: start must be at least 1024 and not above end"
    );
    assert_eq!(
        ConfigError::Read {
            path: "p".into(),
            source: "s".into()
        }
        .to_string(),
        "failed to read config `p`: s"
    );
    assert_eq!(
        ConfigError::Parse {
            path: "p".into(),
            source: "s".into()
        }
        .to_string(),
        "failed to parse config `p`: s"
    );
    assert_eq!(
        parse(MINIMAL)
            .unwrap()
            .cloudflare_token(None, &SecretFile::NotNamed)
            .unwrap_err()
            .to_string(),
        "no Cloudflare API token: set the `PORTAL_CF_API_TOKEN` environment variable, or point `cloudflare.api_token_file` at a file containing it"
    );
}
