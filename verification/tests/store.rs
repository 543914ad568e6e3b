use portal::addr::Ipv4Addr;
use portal::clock::Timestamp;
use portal::ids::Uuid;
use portal::model::{Node, PortMapping, Protocol, Service, SrvSpec};
use portal::net::Ipv4Net;
use portal::rows::{NodeRow, PortRow, ServiceRow};
use portal::store::{check_compatible, Store, StoreError};
use portal::token;

fn now() -> Timestamp {
    Timestamp::epoch()
}

fn subnet() -> Ipv4Net {
    "10.99.0.0/24".parse().unwrap()
}

fn gateway_ip() -> Ipv4Addr {
    Ipv4Addr::new(10, 99, 0, 1)
}

fn store() -> Store {
    Store::open_in_memory().unwrap()
}

fn node(store: &mut Store, name: &str) -> (Node, String) {
    store
        .create_node(name, subnet(), gateway_ip(), now())
        .unwrap()
}

fn service(store: &mut Store, node: &Node, subdomain: &str) -> Service {
    let service = Service {
        id: Uuid::new_v4(),
        node_id: node.id,
        name: subdomain.to_string(),
        subdomain: subdomain.to_string(),
        enabled: true,
        created_at: now(),
    };
    store.insert_service(&service).unwrap();
    service
}

fn port(service: &Service, host: &str, local: u16, edge: u16) -> PortMapping {
    PortMapping {
        id: Uuid::new_v4(),
        service_id: service.id,
        protocol: Protocol::Tcp,
        local_host: host.to_string(),
        local_port: local,
        edge_port: edge,
        srv: None,
    }
}

#[test]
fn nodes_get_a_stable_address_and_a_key() {
    let mut store = store();
    let (first, key_a) = node(&mut store, "one");
    let (second, key_b) = node(&mut store, "two");

    assert_eq!(first.tunnel_ip, Ipv4Addr::new(10, 99, 0, 2));
    assert_eq!(second.tunnel_ip, Ipv4Addr::new(10, 99, 0, 3));
    assert_ne!(key_a, key_b);
    assert_eq!(store.authenticate_node(&key_a).unwrap().id, first.id);
}

#[test]
fn node_keys_are_not_stored_in_the_clear() {
    let mut store = store();
    let (_, key) = node(&mut store, "box");
    let stored = &store.node_rows()[0].key_hash;
    assert_ne!(*stored, key);
    assert!(matches!(
        store.authenticate_node("wrong"),
        Err(StoreError::NotFound)
    ));
}

#[test]
fn a_restarting_agent_keeps_its_address_but_changes_its_key() {
    let mut store = store();
    let (n, _) = node(&mut store, "box");
    store.set_node_public_key(n.id, "FIRST-BOOT-KEY").unwrap();
    store.set_node_public_key(n.id, "SECOND-BOOT-KEY").unwrap();

    let reloaded = store.get_node(n.id).unwrap();
    assert_eq!(reloaded.public_key.as_deref(), Some("SECOND-BOOT-KEY"));
    assert_eq!(
        reloaded.tunnel_ip, n.tunnel_ip,
        "the address must survive, or every forward pointing at it breaks"
    );
}

#[test]
fn one_node_can_front_many_machines_on_its_lan() {
    let mut store = store();
    let (n, _) = node(&mut store, "box");

    for i in 0..10u16 {
        let svc = service(&mut store, &n, &format!("mc{i}"));
        store
            .add_port(&port(
                &svc,
                &format!("192.168.1.{}", 50 + i),
                25565,
                30000 + i,
            ))
            .unwrap();
    }

    let forwards = store.forwards_for_node(n.id).unwrap();
    assert_eq!(forwards.len(), 10);
    assert_eq!(forwards[0].local_host, "192.168.1.50");
    assert_eq!(forwards[9].local_host, "192.168.1.59");
    assert!(
        forwards.iter().all(|f| f.local_port == 25565),
        "ten servers can all use the standard port on their own machines"
    );
}

#[test]
fn a_service_can_hold_several_ports() {
    let mut store = store();
    let (n, _) = node(&mut store, "box");
    let svc = service(&mut store, &n, "mc");

    store
        .add_port(&port(&svc, "192.168.1.50", 25565, 25565))
        .unwrap();
    let mut voice = port(&svc, "192.168.1.50", 24454, 24454);
    voice.protocol = Protocol::Udp;
    store.add_port(&voice).unwrap();

    assert_eq!(store.ports_for_service(svc.id).unwrap().len(), 2);
}

#[test]
fn two_mappings_cannot_share_a_public_port() {
    let mut store = store();
    let (n, _) = node(&mut store, "box");
    let a = service(&mut store, &n, "mc");
    let b = service(&mut store, &n, "smp");
    store
        .add_port(&port(&a, "192.168.1.50", 25565, 25565))
        .unwrap();
    assert!(matches!(
        store.add_port(&port(&b, "192.168.1.51", 25565, 25565)),
        Err(StoreError::Conflict(_))
    ));
}

#[test]
fn duplicate_subdomains_are_refused() {
    let mut store = store();
    let (n, _) = node(&mut store, "box");
    service(&mut store, &n, "mc");
    let clash = Service {
        id: Uuid::new_v4(),
        node_id: n.id,
        name: "again".into(),
        subdomain: "mc".into(),
        enabled: true,
        created_at: now(),
    };
    assert!(matches!(
        store.insert_service(&clash),
        Err(StoreError::Conflict(_))
    ));
}

#[test]
fn deleting_a_node_takes_its_services_and_ports_with_it() {
    let mut store = store();
    let (n, _) = node(&mut store, "box");
    let svc = service(&mut store, &n, "mc");
    store
        .add_port(&port(&svc, "192.168.1.50", 25565, 25565))
        .unwrap();

    store.delete_node(n.id).unwrap();
    assert!(store.list_services().unwrap().is_empty());
    assert!(
        store.taken_edge_ports().unwrap().is_empty(),
        "ports must return to the pool"
    );
}

#[test]
fn a_disabled_service_keeps_its_ports_but_stops_being_forwarded() {
    let mut store = store();
    let (n, _) = node(&mut store, "box");
    let svc = service(&mut store, &n, "mc");
    store
        .add_port(&port(&svc, "192.168.1.50", 25565, 25565))
        .unwrap();
    store.set_service_enabled(svc.id, false).unwrap();

    assert!(store.forwards_for_node(n.id).unwrap().is_empty());
    assert!(store
        .taken_edge_ports()
        .unwrap()
        .contains(&(Protocol::Tcp, 25565)));
}

#[test]
fn deleting_a_port_frees_it_and_names_its_service() {
    let mut store = store();
    let (n, _) = node(&mut store, "box");
    let svc = service(&mut store, &n, "mc");
    let mapping = port(&svc, "192.168.1.50", 25565, 25565);
    store.add_port(&mapping).unwrap();

    assert_eq!(store.delete_port(mapping.id).unwrap(), svc.id);
    assert!(store.taken_edge_ports().unwrap().is_empty());
}

#[test]
fn srv_settings_survive_a_round_trip() {
    let mut store = store();
    let (n, _) = node(&mut store, "box");
    let svc = service(&mut store, &n, "mc");
    let mut mapping = port(&svc, "192.168.1.50", 25565, 30001);
    mapping.srv = Some(SrvSpec::minecraft_java());
    store.add_port(&mapping).unwrap();

    let loaded = &store.ports_for_service(svc.id).unwrap()[0];
    assert_eq!(loaded.srv.as_ref().unwrap().service, "_minecraft");
}

#[test]
fn active_forwards_carry_the_tunnel_address_for_dnat() {
    let mut store = store();
    let (n, _) = node(&mut store, "box");
    let svc = service(&mut store, &n, "mc");
    store
        .add_port(&port(&svc, "192.168.1.50", 25565, 25565))
        .unwrap();

    let active = store.active_forwards().unwrap();
    assert_eq!(active.len(), 1);
    assert_eq!(active[0].tunnel_ip, n.tunnel_ip);
}

#[test]
fn handshakes_drive_the_online_flag() {
    let mut store = store();
    let (n, _) = node(&mut store, "box");
    assert!(!store.get_node(n.id).unwrap().is_online(now()));

    store.record_handshake(n.id, now()).unwrap();
    assert!(store.get_node(n.id).unwrap().is_online(now()));
    assert!(!store
        .get_node(n.id)
        .unwrap()
        .is_online(Timestamp::from_unix_seconds(3600).unwrap()));
}

#[test]
fn a_database_from_the_old_model_is_refused_with_an_explanation() {
    // The shape before nodes existed: services keyed by agent_id.
    let conn = rusqlite::Connection::open_in_memory().unwrap();
    conn.execute_batch(
        "CREATE TABLE services (id TEXT PRIMARY KEY, agent_id TEXT, subdomain TEXT);",
    )
    .unwrap();
    let mut stmt = conn
        .prepare("SELECT name FROM pragma_table_info('services')")
        .unwrap();
    let columns: Vec<String> = stmt
        .query_map([], |row| row.get::<_, String>(0))
        .unwrap()
        .collect::<rusqlite::Result<Vec<_>>>()
        .unwrap();

    let err = match check_compatible(Some(&columns)) {
        Err(e) => e,
        Ok(_) => panic!("an unupgradable database must not be opened"),
    };
    assert!(matches!(err, StoreError::IncompatibleSchema));
    assert!(
        err.to_string().contains("delete it"),
        "the message has to say what to do: {}",
        err.to_string()
    );
}

fn copy_node(r: &NodeRow) -> NodeRow {
    NodeRow {
        id: r.id.clone(),
        name: r.name.clone(),
        key_hash: r.key_hash.clone(),
        public_key: r.public_key.clone(),
        tunnel_ip: r.tunnel_ip.clone(),
        last_handshake: r.last_handshake.clone(),
        created_at: r.created_at.clone(),
    }
}

fn copy_service(r: &ServiceRow) -> ServiceRow {
    ServiceRow {
        id: r.id.clone(),
        node_id: r.node_id.clone(),
        name: r.name.clone(),
        subdomain: r.subdomain.clone(),
        enabled: r.enabled,
        dns_synced: r.dns_synced,
        created_at: r.created_at.clone(),
    }
}

fn copy_port(r: &PortRow) -> PortRow {
    PortRow {
        id: r.id.clone(),
        service_id: r.service_id.clone(),
        protocol: r.protocol.clone(),
        local_host: r.local_host.clone(),
        local_port: r.local_port,
        edge_port: r.edge_port,
        srv_service: r.srv_service.clone(),
        srv_proto: r.srv_proto.clone(),
        srv_priority: r.srv_priority,
        srv_weight: r.srv_weight,
    }
}

type Tables = (Vec<NodeRow>, Vec<ServiceRow>, Vec<PortRow>);

fn tables(store: &Store) -> Tables {
    (
        store.node_rows().iter().map(copy_node).collect(),
        store.service_rows().iter().map(copy_service).collect(),
        store.port_rows().iter().map(copy_port).collect(),
    )
}

/// A node with two services and a mapping each.
fn furnished() -> (Store, Node, Service, Service) {
    let mut store = store();
    let (n, _) = node(&mut store, "box");
    let a = service(&mut store, &n, "b-second");
    let b = service(&mut store, &n, "a-first");
    store.add_port(&port(&a, "host-a", 1, 30001)).unwrap();
    store.add_port(&port(&b, "host-b", 2, 30000)).unwrap();
    (store, n, a, b)
}

#[test]
fn state_survives_being_read_back_from_its_rows() {
    let (store, n, _, _) = furnished();
    let (nodes, services, ports) = tables(&store);
    let again = Store::from_tables(nodes, services, ports).unwrap();
    assert_eq!(again.list_nodes().unwrap().len(), 1);
    assert_eq!(again.get_node(n.id).unwrap().name, "box");
    assert_eq!(again.forwards_for_node(n.id).unwrap().len(), 2);
}

#[test]
fn rows_that_break_the_schema_are_no_store() {
    let (store, _, _, _) = furnished();
    let check = |change: &dyn Fn(&mut Tables)| {
        let mut t = tables(&store);
        change(&mut t);
        Store::from_tables(t.0, t.1, t.2).is_some()
    };
    assert!(check(&|_| {}));
    assert!(check(&|t| t.0.clear()), "services without their node");
    assert!(check(&|t| t.1.clear()), "mappings without their service");
    assert!(!check(&|t| t.1[1].subdomain = t.1[0].subdomain.clone()));
    assert!(!check(&|t| t.1[1].id = t.1[0].id.clone()));
    assert!(!check(&|t| t.2[1].edge_port = t.2[0].edge_port));
    assert!(check(&|t| {
        t.2[1].edge_port = t.2[0].edge_port;
        t.2[1].protocol = "udp".into();
    }));
    assert!(!check(&|t| {
        let mut twin = copy_node(&t.0[0]);
        twin.id = "other".into();
        twin.key_hash = "other".into();
        t.0.push(twin);
    }));
}

#[test]
fn rows_that_name_nothing_stay_and_are_not_forwarded() {
    let (store, n, a, b) = furnished();
    let mut t = tables(&store);
    t.0.clear();
    let mut lone = Store::from_tables(t.0, t.1, t.2).unwrap();
    assert_eq!(lone.get_service(a.id).unwrap().node_id, n.id);
    assert_eq!(lone.ports_for_service(a.id).unwrap().len(), 1);
    assert!(lone.active_forwards().unwrap().is_empty());
    assert!(matches!(lone.delete_node(n.id), Err(StoreError::NotFound)));
    assert_eq!(lone.list_services().unwrap().len(), 2);
    lone.delete_service(a.id).unwrap();
    assert_eq!(lone.list_services().unwrap().len(), 1);
    assert!(lone.ports_for_service(a.id).unwrap().is_empty());
    assert_eq!(lone.ports_for_service(b.id).unwrap().len(), 1);

    let mut t = tables(&store);
    t.1.clear();
    let mut lone = Store::from_tables(t.0, t.1, t.2).unwrap();
    assert!(lone.active_forwards().unwrap().is_empty());
    assert!(lone.forwards_for_node(n.id).unwrap().is_empty());
    assert!(matches!(lone.delete_service(a.id), Err(StoreError::NotFound)));
    assert_eq!(lone.ports_for_service(a.id).unwrap().len(), 1);
    assert_eq!(lone.taken_edge_ports().unwrap().len(), 2);
}

#[test]
fn a_time_stored_with_an_offset_is_read_with_it() {
    let (store, n, a, _) = furnished();
    let mut t = tables(&store);
    t.0[0].created_at = "2024-05-01T12:00:00+02:00".into();
    t.0[0].last_handshake = Some("2024-05-01T10:00:00Z".into());
    t.1[0].created_at = "2024-05-01T05:30:00-04:30".into();
    let store = Store::from_tables(t.0, t.1, t.2).unwrap();
    let node = store.get_node(n.id).unwrap();
    assert_eq!(node.created_at.offset_seconds, 7200);
    assert_eq!(node.created_at.unix_nanos, 1_714_557_600_000_000_000);
    assert_eq!(
        node.created_at.to_rfc3339().unwrap(),
        "2024-05-01T12:00:00+02:00"
    );
    let heard = node.last_handshake.unwrap();
    assert_eq!(heard.offset_seconds, 0);
    assert_eq!(heard.unix_nanos, node.created_at.unix_nanos);
    let made = store.get_service(a.id).unwrap().created_at;
    assert_eq!(made.offset_seconds, -16_200);
    assert_eq!(made.unix_nanos, node.created_at.unix_nanos);
}

#[test]
fn everything_stored_about_a_node_is_read_back() {
    let mut store = store();
    let at = Timestamp {
        unix_nanos: 1_700_000_000_000_000_001,
        offset_seconds: 0,
    };
    let id = Uuid::new_v4();
    let (made, key) = store
        .create_node_with("box", subnet(), gateway_ip(), at, id, "the-key".into())
        .unwrap();
    assert_eq!(key, "the-key");
    assert_eq!(made.id, id);
    let read = store.get_node(id).unwrap();
    assert_eq!(read.name, "box");
    assert_eq!(read.tunnel_ip, Ipv4Addr::new(10, 99, 0, 2));
    assert_eq!(read.created_at, at);
    assert_eq!(read.public_key, None);
    assert_eq!(read.last_handshake, None);
    assert_eq!(store.node_rows()[0].key_hash, token::hash("the-key"));
    assert_eq!(store.node_rows()[0].tunnel_ip, "10.99.0.2");
    store.record_handshake(id, at).unwrap();
    assert_eq!(store.get_node(id).unwrap().last_handshake, Some(at));
}

#[test]
fn an_identifier_or_key_that_is_taken_is_the_databases_error() {
    let mut store = store();
    let (n, key) = node(&mut store, "box");
    let err = store
        .create_node_with("x", subnet(), gateway_ip(), now(), n.id, "k".into())
        .unwrap_err();
    assert_eq!(err.to_string(), "UNIQUE constraint failed: nodes.id");
    let err = store
        .create_node_with("x", subnet(), gateway_ip(), now(), Uuid::new_v4(), key)
        .unwrap_err();
    assert_eq!(err.to_string(), "UNIQUE constraint failed: nodes.key_hash");
    assert_eq!(store.list_nodes().unwrap().len(), 1);
}

#[test]
fn a_full_subnet_has_no_room_for_a_node() {
    let mut store = store();
    let small: Ipv4Net = "10.99.0.0/30".parse().unwrap();
    store
        .create_node("one", small, gateway_ip(), now())
        .unwrap();
    let err = store
        .create_node("two", small, gateway_ip(), now())
        .unwrap_err();
    assert!(matches!(err, StoreError::SubnetExhausted));
    assert_eq!(
        err.to_string(),
        "the tunnel subnet has no free addresses left"
    );
    let id = store.list_nodes().unwrap()[0].id;
    store.delete_node(id).unwrap();
    let (again, _) = store
        .create_node("two", small, gateway_ip(), now())
        .unwrap();
    assert_eq!(again.tunnel_ip, Ipv4Addr::new(10, 99, 0, 2));
}

#[test]
fn listings_are_in_order() {
    let (mut store, n, a, b) = furnished();
    let names: Vec<String> = store
        .list_services()
        .unwrap()
        .into_iter()
        .map(|s| s.subdomain)
        .collect();
    assert_eq!(names, ["a-first", "b-second"]);
    let ports: Vec<u16> = store
        .forwards_for_node(n.id)
        .unwrap()
        .iter()
        .map(|f| f.tunnel_port)
        .collect();
    assert_eq!(ports, [30000, 30001]);
    let mut voice = port(&a, "host-a", 3, 1024);
    voice.protocol = Protocol::Udp;
    store.add_port(&voice).unwrap();
    let active: Vec<(Protocol, u16)> = store
        .active_forwards()
        .unwrap()
        .iter()
        .map(|f| (f.protocol, f.edge_port))
        .collect();
    assert_eq!(
        active,
        [
            (Protocol::Tcp, 30000),
            (Protocol::Tcp, 30001),
            (Protocol::Udp, 1024)
        ]
    );
    assert_eq!(store.ports_for_service(b.id).unwrap().len(), 1);
    assert_eq!(
        store.taken_edge_ports().unwrap(),
        vec![
            (Protocol::Tcp, 30001),
            (Protocol::Tcp, 30000),
            (Protocol::Udp, 1024)
        ]
    );

    let late = store
        .create_node(
            "late",
            subnet(),
            gateway_ip(),
            Timestamp::from_unix_seconds(-5).unwrap(),
        )
        .unwrap()
        .0;
    assert_eq!(store.list_nodes().unwrap()[0].id, late.id);
}

#[test]
fn deleting_a_service_leaves_the_others() {
    let (mut store, n, a, b) = furnished();
    store.delete_service(a.id).unwrap();
    assert!(matches!(
        store.get_service(a.id),
        Err(StoreError::NotFound)
    ));
    assert!(store.ports_for_service(a.id).unwrap().is_empty());
    assert_eq!(store.get_service(b.id).unwrap().subdomain, "a-first");
    assert_eq!(store.forwards_for_node(n.id).unwrap().len(), 1);
}

#[test]
fn what_is_not_there_is_not_found() {
    let mut store = store();
    let id = Uuid::new_v4();
    assert!(matches!(store.get_node(id), Err(StoreError::NotFound)));
    assert!(matches!(store.get_service(id), Err(StoreError::NotFound)));
    assert!(matches!(store.is_dns_synced(id), Err(StoreError::NotFound)));
    assert!(matches!(store.delete_node(id), Err(StoreError::NotFound)));
    assert!(matches!(store.delete_service(id), Err(StoreError::NotFound)));
    assert!(matches!(store.delete_port(id), Err(StoreError::NotFound)));
    assert!(matches!(
        store.set_node_public_key(id, "k"),
        Err(StoreError::NotFound)
    ));
    assert!(matches!(
        store.set_service_enabled(id, true),
        Err(StoreError::NotFound)
    ));
    assert!(store.record_handshake(id, now()).is_ok());
    assert!(store.set_dns_synced(id, true).is_ok());
    assert_eq!(StoreError::NotFound.to_string(), "not found");
}

#[test]
fn a_service_needs_its_node_and_a_mapping_its_service() {
    let mut store = store();
    let orphan = Service {
        id: Uuid::new_v4(),
        node_id: Uuid::new_v4(),
        name: "x".into(),
        subdomain: "x".into(),
        enabled: true,
        created_at: now(),
    };
    let err = store.insert_service(&orphan).unwrap_err();
    assert_eq!(err.to_string(), "that subdomain is already taken");
    let err = store.add_port(&port(&orphan, "h", 1, 2)).unwrap_err();
    assert_eq!(err.to_string(), "that public port is already taken");
}

#[test]
fn an_instant_off_the_calendar_cannot_be_stored() {
    let mut store = store();
    let (n, _) = node(&mut store, "box");
    let never = Timestamp {
        unix_nanos: i128::MAX,
        offset_seconds: 0,
    };
    assert!(matches!(
        store.record_handshake(n.id, never),
        Err(StoreError::Corrupt(_))
    ));
    assert!(matches!(
        store.create_node("x", subnet(), gateway_ip(), never),
        Err(StoreError::Corrupt(_))
    ));
    let service = Service {
        id: Uuid::new_v4(),
        node_id: n.id,
        name: "x".into(),
        subdomain: "x".into(),
        enabled: true,
        created_at: never,
    };
    assert!(matches!(
        store.insert_service(&service),
        Err(StoreError::Corrupt(_))
    ));
}

#[test]
fn published_records_are_remembered() {
    let (mut store, _, a, b) = furnished();
    assert!(!store.is_dns_synced(a.id).unwrap());
    store.set_dns_synced(a.id, true).unwrap();
    assert!(store.is_dns_synced(a.id).unwrap());
    assert!(!store.is_dns_synced(b.id).unwrap());
    store.set_dns_synced(a.id, false).unwrap();
    assert!(!store.is_dns_synced(a.id).unwrap());
}

#[test]
fn columns_that_spell_nothing_are_reported() {
    let (store, n, a, _) = furnished();
    let with = |change: &dyn Fn(&mut Tables)| {
        let mut t = tables(&store);
        change(&mut t);
        Store::from_tables(t.0, t.1, t.2).unwrap()
    };
    let bad = with(&|t| t.0[0].tunnel_ip = "nowhere".into());
    assert_eq!(
        bad.get_node(n.id).unwrap_err().to_string(),
        "stored value is corrupt: tunnel_ip"
    );
    assert!(matches!(
        bad.active_forwards(),
        Err(StoreError::Corrupt(what)) if what == "tunnel_ip"
    ));
    let mut bad = bad;
    assert!(matches!(
        bad.create_node("x", subnet(), gateway_ip(), now()),
        Err(StoreError::Corrupt(_))
    ));
    let bad = with(&|t| t.2[0].protocol = "sctp".into());
    assert!(matches!(
        bad.taken_edge_ports(),
        Err(StoreError::Corrupt(what)) if what == "protocol `sctp`"
    ));
    assert!(bad.forwards_for_node(n.id).is_err());
    assert!(bad.ports_for_service(a.id).is_err());
    let bad = with(&|t| t.2[0].id = "nonsense".into());
    assert!(matches!(
        bad.ports_for_service(a.id),
        Err(StoreError::Corrupt(what)) if what == "mapping id"
    ));
    let bad = with(&|t| t.0[0].created_at = "yesterday".into());
    assert!(matches!(bad.list_nodes(), Err(StoreError::Corrupt(_))));
    let bad = with(&|t| t.1[0].created_at = "yesterday".into());
    assert!(matches!(bad.get_service(a.id), Err(StoreError::Corrupt(_))));
}

#[test]
fn a_usable_database_is_opened() {
    assert!(check_compatible(None).is_ok());
    assert!(check_compatible(Some(&vec!["id".to_string(), "node_id".to_string()])).is_ok());
    assert_eq!(
        check_compatible(Some(&vec![])).unwrap_err().to_string(),
        "this database predates the node/service/port model and cannot be upgraded in place; delete it (or the portal-data volume) and start again"
    );
}

#[test]
fn every_srv_setting_survives_a_round_trip() {
    let mut store = store();
    let (n, _) = node(&mut store, "box");
    let svc = service(&mut store, &n, "mc");
    let mut mapping = port(&svc, "192.168.1.50", 25565, 30001);
    mapping.srv = Some(SrvSpec {
        service: "_game".into(),
        proto: "_udp".into(),
        priority: 7,
        weight: 65535,
    });
    store.add_port(&mapping).unwrap();

    let (nodes, services, ports) = tables(&store);
    let store = Store::from_tables(nodes, services, ports).unwrap();
    let listed = store.ports_for_service(svc.id).unwrap();
    assert_eq!(listed.len(), 1);
    let srv = listed[0].srv.as_ref().unwrap();
    assert_eq!(listed[0].id, mapping.id);
    assert_eq!(srv.service, "_game");
    assert_eq!(srv.proto, "_udp");
    assert_eq!(srv.priority, 7);
    assert_eq!(srv.weight, 65535);
}

#[test]
fn a_row_without_srv_priority_and_weight_has_the_usual_ones() {
    let mut store = store();
    let (n, _) = node(&mut store, "box");
    let svc = service(&mut store, &n, "mc");
    let mut mapping = port(&svc, "192.168.1.50", 25565, 30001);
    mapping.srv = Some(SrvSpec::minecraft_java());
    store.add_port(&mapping).unwrap();

    let (nodes, services, mut ports) = tables(&store);
    ports[0].srv_priority = None;
    ports[0].srv_weight = None;
    let store = Store::from_tables(nodes, services, ports).unwrap();
    let listed = store.ports_for_service(svc.id).unwrap();
    let srv = listed[0].srv.as_ref().unwrap();
    assert_eq!((srv.priority, srv.weight), (0, 5));
}

#[test]
fn live_forwards_are_one_per_enabled_mapping_in_order() {
    let mut store = store();
    let (n, _) = node(&mut store, "box");
    let on = service(&mut store, &n, "on");
    let off = service(&mut store, &n, "off");
    let mut udp = port(&on, "10.0.0.1", 1, 20000);
    udp.protocol = Protocol::Udp;
    store.add_port(&udp).unwrap();
    store.add_port(&port(&on, "10.0.0.1", 2, 30002)).unwrap();
    store.add_port(&port(&off, "10.0.0.1", 3, 30000)).unwrap();
    store.add_port(&port(&on, "10.0.0.1", 4, 30001)).unwrap();
    store.set_service_enabled(off.id, false).unwrap();

    let live: Vec<_> = store
        .active_forwards()
        .unwrap()
        .iter()
        .map(|f| (f.protocol, f.edge_port))
        .collect();
    assert_eq!(
        live,
        vec![
            (Protocol::Tcp, 30001),
            (Protocol::Tcp, 30002),
            (Protocol::Udp, 20000)
        ]
    );
}

#[test]
fn fresh_nodes_have_version_4_identifiers_and_tokens_for_keys() {
    let mut store = store();
    let (n, key) = node(&mut store, "box");
    let text = n.id.to_string();
    assert_eq!(&text[14..15], "4");
    assert!("89ab".contains(&text[19..20]));
    assert_eq!(key.len(), 43);
    assert!(key
        .chars()
        .all(|c| c.is_ascii_alphanumeric() || c == '-' || c == '_'));
}
