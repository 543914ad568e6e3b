use portal::addr::{IpAddr, Ipv4Addr};
use portal::api::{
    AddPortRequest, CreateNodeRequest, CreateServiceRequest, Forward, RegisterRequest,
};
use portal::clock::Timestamp;
use portal::config::{
    Config, ListenAddr, RawCloudflare, RawConfig, RawGateway, RawTunnel,
};
use portal::dns::{DnsPlan, DnsRecord, ExistingRecord};
use portal::http;
use portal::ids::Uuid;
use portal::model::{Node, Protocol, Service};
use portal::plan::PlanError;
use portal::rows::ServiceRow;
use portal::store::{Store, StoreError};
use portal::wg::generate_keypair;
use portal::wgctl::parse_dump;

fn config() -> Config {
    Config::from_raw(RawConfig {
        gateway: RawGateway {
            public_ip: Ipv4Addr::new(203, 0, 113, 10),
            zone: "example.com".into(),
            listen: Some(ListenAddr {
                ip: IpAddr::V4(Ipv4Addr::new(127, 0, 0, 1)),
                port: 8080,
            }),
            data_dir: None,
            profiles_dir: None,
            edge_port_range_start: None,
            edge_port_range_end: None,
            reserved_tcp_ports: Some(vec![443]),
            reserved_udp_ports: None,
            admin_token_file: None,
        },
        tunnel: RawTunnel {
            subnet: None,
            gateway_ip: None,
            interface: None,
            listen_port: None,
            endpoint: "vps.example.com:51820".into(),
            private_key_file: None,
            persistent_keepalive: None,
        },
        cloudflare: RawCloudflare {
            zone_id: "z".into(),
            api_token_file: None,
            enabled: None,
        },
        nftables: None,
    })
    .unwrap()
}

fn now() -> Timestamp {
    Timestamp::from_unix_seconds(1_700_000_000).unwrap()
}

fn node(store: &mut Store) -> (Node, String) {
    let made = http::create_node(
        store,
        &config(),
        &CreateNodeRequest {
            name: " box ".into(),
        },
        now(),
    )
    .unwrap();
    (made.node, made.key)
}

fn service(store: &mut Store, node: &Node, subdomain: &str) -> Service {
    http::create_service(
        store,
        &CreateServiceRequest {
            node_id: node.id,
            name: "".into(),
            subdomain: subdomain.into(),
        },
        now(),
    )
    .unwrap()
}

fn request(local_port: u16, edge_port: Option<u16>) -> AddPortRequest {
    AddPortRequest {
        protocol: Protocol::Tcp,
        local_host: " NAS.local ".into(),
        local_port,
        edge_port,
        minecraft_srv: false,
    }
}

#[test]
fn only_the_admin_token_lets_an_operator_in() {
    assert!(http::authorize_admin(Some("Bearer secret"), "secret").is_ok());
    assert!(http::authorize_admin(Some("Bearer  secret "), "secret").is_ok());
    for header in [
        None,
        Some("secret"),
        Some("bearer secret"),
        Some("Bearer wrong"),
        Some("Bearer "),
    ] {
        let err = http::authorize_admin(header, "secret").unwrap_err();
        assert_eq!(
            (err.status, err.message.as_str()),
            (401, "unauthorized"),
            "a failure never says why: {header:?}"
        );
    }
}

#[test]
fn a_node_key_lets_its_agent_in() {
    let mut store = Store::open_in_memory().unwrap();
    let (n, key) = node(&mut store);
    let auth = http::authorize_node(&store, Some(&format!("Bearer {key}"))).unwrap();
    assert_eq!(auth.0.id, n.id);
    assert_eq!(auth.0.name, "box");
    for header in [None, Some("Bearer wrong")] {
        let err = http::authorize_node(&store, header).unwrap_err();
        assert_eq!((err.status, err.message.as_str()), (401, "unauthorized"));
    }
}

#[test]
fn errors_decide_what_the_caller_is_told() {
    let told = |e: StoreError| {
        let e = http::ApiErr::from_store(&e);
        (e.status, e.message)
    };
    assert_eq!(told(StoreError::NotFound), (404, "not found".to_string()));
    assert_eq!(
        told(StoreError::Conflict("that subdomain".into())),
        (409, "that subdomain is already taken".to_string())
    );
    assert_eq!(
        told(StoreError::SubnetExhausted),
        (409, "the tunnel subnet has no free addresses left".to_string())
    );
    for hidden in [
        StoreError::Sqlite("disk".into()),
        StoreError::Corrupt("x".into()),
        StoreError::IncompatibleSchema,
    ] {
        assert_eq!(told(hidden), (500, "internal error".to_string()));
    }
    let e = http::ApiErr::from_plan(&PlanError::InvalidPort);
    assert_eq!(
        (e.status, e.message.as_str()),
        (400, "port numbers must be between 1 and 65535")
    );
}

#[test]
fn the_status_tells_how_the_gateway_is_set_up() {
    let status = http::status(&config(), true).unwrap();
    assert_eq!(status.zone, "example.com");
    assert_eq!(status.public_ip, "203.0.113.10");
    assert_eq!(status.edge_port_range, "30000-32767");
    assert!(status.cloudflare_enabled);
    assert!(status.nftables_enabled);
    let mut bad = config();
    bad.gateway.edge_port_range_end = 1;
    assert_eq!(http::status(&bad, true).unwrap_err().status, 500);
}

#[test]
fn a_node_needs_a_name() {
    let mut store = Store::open_in_memory().unwrap();
    let err = http::create_node(
        &mut store,
        &config(),
        &CreateNodeRequest { name: "  ".into() },
        now(),
    )
    .unwrap_err();
    assert_eq!(
        (err.status, err.message.as_str()),
        (400, "give the node a name")
    );
    assert!(http::list_nodes(&store, now()).unwrap().is_empty());
}

#[test]
fn nodes_are_shown_with_what_they_serve() {
    let mut store = Store::open_in_memory().unwrap();
    let (n, _) = node(&mut store);
    service(&mut store, &n, "mc");
    service(&mut store, &n, "smp");
    node(&mut store);
    store.record_handshake(n.id, now()).unwrap();
    let views = http::list_nodes(&store, now()).unwrap();
    let mine = views.iter().find(|v| v.node.id == n.id).unwrap();
    assert!(mine.online);
    assert_eq!(mine.service_count, 2);
    let other = views.iter().find(|v| v.node.id != n.id).unwrap();
    assert!(!other.online);
    assert_eq!(other.service_count, 0);
    http::delete_node(&mut store, n.id).unwrap();
    assert_eq!(
        http::delete_node(&mut store, n.id).unwrap_err().status,
        404
    );
    assert_eq!(http::list_nodes(&store, now()).unwrap().len(), 1);
}

#[test]
fn a_service_is_named_after_its_subdomain_unless_told_otherwise() {
    let mut store = Store::open_in_memory().unwrap();
    let (n, _) = node(&mut store);
    let mc = service(&mut store, &n, " MC ");
    assert_eq!((mc.name.as_str(), mc.subdomain.as_str()), ("mc", "mc"));
    let named = http::create_service(
        &mut store,
        &CreateServiceRequest {
            node_id: n.id,
            name: " SMP season 4 ".into(),
            subdomain: "smp".into(),
        },
        now(),
    )
    .unwrap();
    assert_eq!(named.name, "SMP season 4");
    let shown = http::show_service(&store, &config(), named, now()).unwrap();
    assert_eq!(shown.fqdn, "smp.example.com");
    assert_eq!(shown.node_name, "box");
    assert!(!shown.node_online);
    assert!(!shown.dns_synced);
    assert!(shown.ports.is_empty());
    assert_eq!(
        http::list_services(&store, &config(), now()).unwrap().len(),
        2
    );
}

#[test]
fn a_service_that_cannot_be_created_says_why() {
    let mut store = Store::open_in_memory().unwrap();
    let (n, _) = node(&mut store);
    service(&mut store, &n, "mc");
    let mut create = |node_id: Uuid, subdomain: &str| {
        http::create_service(
            &mut store,
            &CreateServiceRequest {
                node_id,
                name: "".into(),
                subdomain: subdomain.into(),
            },
            now(),
        )
        .unwrap_err()
        .status
    };
    assert_eq!(create(Uuid::new_v4(), "smp"), 404);
    assert_eq!(create(n.id, "not.a.label"), 400);
    assert_eq!(create(n.id, "mc"), 409);
}

#[test]
fn a_port_is_allocated_clear_of_what_is_taken_and_reserved() {
    let mut store = Store::open_in_memory().unwrap();
    let (n, _) = node(&mut store);
    let mc = service(&mut store, &n, "mc");
    let c = config();
    http::add_port(&mut store, &c, mc.id, &request(25565, None)).unwrap();
    http::add_port(&mut store, &c, mc.id, &request(25565, None)).unwrap();
    http::add_port(&mut store, &c, mc.id, &request(443, None)).unwrap();
    let shown = http::show_stored_service(&store, &c, mc.id, now()).unwrap();
    let ports: Vec<u16> = shown.ports.iter().map(|p| p.mapping.edge_port).collect();
    assert_eq!(ports, [25565, 30000, 30001]);
    assert_eq!(shown.ports[0].connect, "mc.example.com:25565");
    assert_eq!(shown.ports[0].mapping.local_host, "nas.local");

    let status = |store: &mut Store, id: Uuid, req: AddPortRequest| {
        http::add_port(store, &config(), id, &req).unwrap_err().status
    };
    assert_eq!(status(&mut store, Uuid::new_v4(), request(1, None)), 404);
    assert_eq!(status(&mut store, mc.id, request(0, None)), 400);
    assert_eq!(status(&mut store, mc.id, request(1, Some(22))), 400);
    let mut bad = request(1, None);
    bad.local_host = "has space".into();
    assert_eq!(status(&mut store, mc.id, bad), 400);
    let mut bad = config();
    bad.gateway.edge_port_range_start = 1;
    assert_eq!(
        http::add_port(&mut store, &bad, mc.id, &request(1, None))
            .unwrap_err()
            .status,
        500
    );
}

#[test]
fn removing_a_port_names_its_service() {
    let mut store = Store::open_in_memory().unwrap();
    let (n, _) = node(&mut store);
    let mc = service(&mut store, &n, "mc");
    let id = Uuid::new_v4();
    http::add_port_with(&mut store, &config(), mc.id, &request(25565, None), id).unwrap();
    assert_eq!(http::remove_port(&mut store, id).unwrap(), mc.id);
    assert_eq!(http::remove_port(&mut store, id).unwrap_err().status, 404);
}

#[test]
fn switching_a_service_off_takes_it_out_of_the_assignment() {
    let mut store = Store::open_in_memory().unwrap();
    let (n, _) = node(&mut store);
    let mc = service(&mut store, &n, "mc");
    http::add_port(&mut store, &config(), mc.id, &request(25565, None)).unwrap();
    let on = http::assignment(&store, &n).unwrap();
    assert_eq!(on.forwards.len(), 1);
    assert_eq!(on.forwards[0].tunnel_port, 25565);
    http::set_service_enabled(&mut store, mc.id, false).unwrap();
    let off = http::assignment(&store, &n).unwrap();
    assert!(off.forwards.is_empty());
    assert_ne!(on.revision, off.revision);
    let shown = http::show_stored_service(&store, &config(), mc.id, now()).unwrap();
    assert!(!shown.service.enabled);
    assert_eq!(shown.ports.len(), 1);
    assert_eq!(
        http::set_service_enabled(&mut store, Uuid::new_v4(), true)
            .unwrap_err()
            .status,
        404
    );
}

#[test]
fn a_revision_is_a_checksum_of_the_content() {
    assert_eq!(http::revision_of(&[]), 16406829232824261652);
    let forward = Forward {
        protocol: Protocol::Tcp,
        tunnel_port: 25565,
        local_host: "192.168.1.50".into(),
        local_port: 25565,
    };
    assert_eq!(http::revision_of(&[forward]), 13327395306412844841);
}

#[test]
fn an_agent_that_registers_is_told_its_tunnel() {
    let mut store = Store::open_in_memory().unwrap();
    let (n, _) = node(&mut store);
    let gateway = generate_keypair();
    let own = generate_keypair();
    let gateway_key = http::gateway_public_key(Ok(gateway.private)).unwrap();
    assert_eq!(gateway_key, gateway.public);
    let response = http::register(
        &mut store,
        &config(),
        &n,
        &RegisterRequest {
            public_key: own.public.clone(),
        },
        Ok(gateway_key),
    )
    .unwrap();
    assert_eq!(response.node_id, n.id);
    assert_eq!(response.tunnel.tunnel_ip, n.tunnel_ip);
    assert_eq!(response.tunnel.tunnel_prefix_len, 24);
    assert_eq!(response.tunnel.persistent_keepalive, 25);
    assert_eq!(response.tunnel.gateway_endpoint, "vps.example.com:51820");
    assert_eq!(
        store.get_node(n.id).unwrap().public_key.as_deref(),
        Some(own.public.as_str())
    );

    let err = http::register(
        &mut store,
        &config(),
        &n,
        &RegisterRequest {
            public_key: own.public,
        },
        Err("no key".into()),
    )
    .unwrap_err();
    assert_eq!((err.status, err.message.as_str()), (500, "no key"));
}

#[test]
fn a_gateway_key_that_cannot_be_used_says_why() {
    assert_eq!(
        http::gateway_public_key(Err("denied".into())).unwrap_err(),
        "could not read the gateway's WireGuard key: denied"
    );
    assert_eq!(
        http::gateway_public_key(Ok("AAAA".into())).unwrap_err(),
        "the gateway's WireGuard key is not valid: key must decode to 32 bytes, got 3"
    );
}

#[test]
fn the_edge_follows_the_database() {
    let mut store = Store::open_in_memory().unwrap();
    let (n, _) = node(&mut store);
    let mc = service(&mut store, &n, "mc");
    http::add_port(&mut store, &config(), mc.id, &request(25565, None)).unwrap();
    let rules = http::edge_ruleset(&store, &config()).unwrap();
    assert!(rules.contains("tcp dport 25565 dnat to 10.99.0.2:25565"));
    assert!(rules.contains("ip daddr 10.99.0.0/24 masquerade"));
    let wg = http::edge_wireguard(&store, &config(), "PRIVATE".into()).unwrap();
    assert!(!wg.contains("[Peer]"), "no agent has registered yet");
    store.set_node_public_key(n.id, "KEY-A").unwrap();
    let wg = http::edge_wireguard(&store, &config(), "PRIVATE".into()).unwrap();
    assert!(wg.contains("PrivateKey = PRIVATE"));
    assert!(wg.contains("Address = 10.99.0.1/24"));
    assert!(wg.contains("PublicKey = KEY-A"));
    assert!(wg.contains("AllowedIPs = 10.99.0.2/32"));
}

#[test]
fn records_are_published_and_retracted() {
    let mut store = Store::open_in_memory().unwrap();
    let (n, _) = node(&mut store);
    let mc = service(&mut store, &n, "mc");
    let mut req = request(25565, None);
    req.minecraft_srv = true;
    http::add_port(&mut store, &config(), mc.id, &req).unwrap();
    let face = http::stored_face(&store, &config(), mc.id).unwrap();
    let plan = http::publish_plan(&face, &[]);
    assert_eq!(plan.create.len(), 2);

    let gone = http::delete_service(&mut store, &config(), mc.id).unwrap();
    assert_eq!(gone.fqdn, "mc.example.com");
    let mut zone: Vec<ExistingRecord> = Vec::new();
    for (i, record) in plan.create.into_iter().enumerate() {
        zone.push(ExistingRecord {
            id: format!("r{i}"),
            record,
        });
    }
    zone.push(ExistingRecord {
        id: "apex".into(),
        record: DnsRecord::A {
            name: "example.com".into(),
            address: Ipv4Addr::new(1, 2, 3, 4),
            ttl: 1,
        },
    });
    let plan = http::retract_plan(&gone, &zone);
    assert_eq!(plan.delete, ["r0", "r1"]);
    assert!(plan.create.is_empty() && plan.update.is_empty());
    assert_eq!(
        http::delete_service(&mut store, &config(), mc.id)
            .unwrap_err()
            .status,
        404
    );
}

#[test]
fn handshakes_are_noted_for_the_peers_that_had_one() {
    let mut store = Store::open_in_memory().unwrap();
    let (a, _) = node(&mut store);
    let (b, _) = node(&mut store);
    node(&mut store);
    store.set_node_public_key(a.id, "KEY-A").unwrap();
    store.set_node_public_key(b.id, "KEY-B").unwrap();
    let peers = parse_dump(
        "iface\nKEY-A\t-\t-\t-\t1700000000\t0\t0\nKEY-B\t-\t-\t-\t0\t0\t0\nKEY-C\t-\t-\t-\t5\t0\t0\n",
    );
    http::note_handshakes(&mut store, &peers);
    assert!(store.get_node(a.id).unwrap().is_online(now()));
    assert_eq!(store.get_node(a.id).unwrap().last_handshake, Some(now()));
    assert_eq!(store.get_node(b.id).unwrap().last_handshake, None);
}

#[test]
fn a_service_whose_node_is_missing_is_shown_without_its_name() {
    let id = Uuid::new_v4();
    let store = Store::from_tables(
        vec![],
        vec![ServiceRow {
            id: id.to_string(),
            node_id: Uuid::new_v4().to_string(),
            name: "lone".into(),
            subdomain: "lone".into(),
            enabled: 1,
            dns_synced: 0,
            created_at: "2024-05-01T12:00:00+02:00".into(),
        }],
        vec![],
    )
    .unwrap();
    let shown = http::list_services(&store, &config(), now()).unwrap();
    assert_eq!(shown.len(), 1);
    assert_eq!(shown[0].service.id, id);
    assert_eq!(shown[0].node_name, "");
    assert!(!shown[0].node_online);
    assert_eq!(
        shown[0].service.created_at.to_rfc3339().unwrap(),
        "2024-05-01T12:00:00+02:00"
    );
}

#[test]
fn a_node_is_created_at_any_time_that_can_be_written() {
    let create = |at: Timestamp| {
        let mut store = Store::open_in_memory().unwrap();
        http::create_node(
            &mut store,
            &config(),
            &CreateNodeRequest { name: "box".into() },
            at,
        )
        .map(|made| made.node.created_at)
        .map_err(|e| e.status)
    };
    for seconds in [-62_167_219_200, 0, 253_402_300_799] {
        let at = Timestamp::from_unix_seconds(seconds).unwrap();
        assert_eq!(create(at), Ok(at));
    }
    let early = Timestamp::from_unix_seconds(-62_167_219_201).unwrap();
    assert_eq!(create(early), Err(500));
}

#[test]
fn services_whose_records_failed_are_tried_again() {
    let mut store = Store::open_in_memory().unwrap();
    let (n, _) = node(&mut store);
    let mc = service(&mut store, &n, "mc");
    let smp = service(&mut store, &n, "smp");
    assert_eq!(http::unsynced_services(&store), vec![mc.id, smp.id]);
    store.set_dns_synced(mc.id, true).unwrap();
    assert_eq!(http::unsynced_services(&store), vec![smp.id]);
}

#[test]
fn a_bearer_token_is_what_follows_the_word() {
    assert_eq!(http::bearer(Some("Bearer abc")), Some("abc".to_string()));
    assert_eq!(http::bearer(Some("Bearer  a b ")), Some("a b".to_string()));
    assert_eq!(http::bearer(Some("Bearer")), None);
    assert_eq!(http::bearer(Some("Basic abc")), None);
    assert_eq!(http::bearer(None), None);
}

#[test]
fn assignments_that_read_alike_have_different_revisions() {
    let forward = |tunnel_port, host: &str, local_port| Forward {
        protocol: Protocol::Tcp,
        tunnel_port,
        local_host: host.into(),
        local_port,
    };
    let two = [forward(1, "a", 24929), forward(24929, "b", 2)];
    let one = [forward(1, "aaatcpaab", 2)];
    assert_ne!(http::revision_of(&two), http::revision_of(&one));
    let long = "h".repeat(300);
    assert_ne!(
        http::revision_of(&[forward(1, &long, 2)]),
        http::revision_of(&[forward(1, &long[..299], 2)])
    );
}

#[test]
fn what_decides_whether_records_are_published() {
    let nothing = DnsPlan::default();
    let something = DnsPlan {
        create: vec![],
        update: vec![],
        delete: vec!["x".into()],
    };
    assert!(!http::dns_published(false, &nothing, true));
    assert!(http::dns_published(true, &nothing, false));
    assert!(!http::dns_published(true, &something, false));
    assert!(http::dns_published(true, &something, true));
}

#[test]
fn what_is_noted_of_publishing_reads_back() {
    let mut store = Store::open_in_memory().unwrap();
    let (n, _) = node(&mut store);
    let svc = http::create_service(
        &mut store,
        &CreateServiceRequest {
            node_id: n.id,
            name: "".into(),
            subdomain: "mc".into(),
        },
        now(),
    )
    .unwrap();
    http::note_published(&mut store, false, svc.id, true);
    assert!(!store.is_dns_synced(svc.id).unwrap());
    http::note_published(&mut store, true, svc.id, true);
    assert!(store.is_dns_synced(svc.id).unwrap());
    http::note_published(&mut store, false, svc.id, false);
    assert!(store.is_dns_synced(svc.id).unwrap());
    http::note_published(&mut store, true, svc.id, false);
    assert!(!store.is_dns_synced(svc.id).unwrap());
}
