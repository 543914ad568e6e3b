use portal::addr::Ipv4Addr;
use portal::dns::{
    owned_by_service, reconcile_service, service_records, DnsRecord, ExistingRecord, SrvBinding,
    DEFAULT_TTL,
};
use portal::model::SrvSpec;

fn ip() -> Ipv4Addr {
    Ipv4Addr::new(203, 0, 113, 10)
}

fn srv_spec() -> SrvSpec {
    SrvSpec {
        service: "_minecraft".into(),
        proto: "_tcp".into(),
        priority: 0,
        weight: 5,
    }
}

fn existing(id: &str, record: DnsRecord) -> ExistingRecord {
    ExistingRecord {
        id: id.to_string(),
        record,
    }
}

#[test]
fn a_record_is_never_proxied() {
    let records = service_records("mc.example.com", ip(), &[]);
    assert_eq!(records.len(), 1);
    assert!(
        !records[0].proxied(),
        "orange cloud cannot carry a game port"
    );
}

#[test]
fn srv_points_at_the_hostname_and_the_allocated_port() {
    let spec = srv_spec();
    let records = service_records(
        "mc.example.com",
        ip(),
        &[SrvBinding {
            spec: &spec,
            edge_port: 30001,
        }],
    );
    let srv = &records[1];
    assert_eq!(srv.name(), "_minecraft._tcp.mc.example.com");
    assert!(matches!(
        srv,
        DnsRecord::Srv { target, port: 30001, .. } if target == "mc.example.com"
    ));
}

#[test]
fn an_in_sync_zone_produces_no_calls() {
    let desired = service_records("mc.example.com", ip(), &[]);
    let zone = vec![existing("rec1", desired[0].clone())];
    assert!(reconcile_service("mc.example.com", &desired, &zone).is_empty());
}

#[test]
fn missing_records_are_created() {
    let spec = srv_spec();
    let desired = service_records(
        "mc.example.com",
        ip(),
        &[SrvBinding {
            spec: &spec,
            edge_port: 25565,
        }],
    );
    let plan = reconcile_service("mc.example.com", &desired, &[]);
    assert_eq!(plan.create.len(), 2);
    assert!(plan.update.is_empty() && plan.delete.is_empty());
}

#[test]
fn a_changed_edge_ip_is_an_update_not_a_delete_and_create() {
    let desired = service_records("mc.example.com", ip(), &[]);
    let zone = vec![existing(
        "rec1",
        DnsRecord::A {
            name: "mc.example.com".into(),
            address: Ipv4Addr::new(198, 51, 100, 7),
            ttl: DEFAULT_TTL,
        },
    )];
    let plan = reconcile_service("mc.example.com", &desired, &zone);
    assert_eq!(plan.update.len(), 1);
    assert_eq!(plan.update[0].0, "rec1");
    assert!(plan.delete.is_empty(), "the name must never stop resolving");
}

#[test]
fn stale_records_under_the_service_are_deleted() {
    let desired = service_records("mc.example.com", ip(), &[]);
    let zone = vec![
        existing("rec1", desired[0].clone()),
        existing(
            "rec2",
            DnsRecord::Srv {
                name: "_minecraft._tcp.mc.example.com".into(),
                target: "mc.example.com".into(),
                port: 30001,
                priority: 0,
                weight: 5,
                ttl: DEFAULT_TTL,
            },
        ),
    ];
    let plan = reconcile_service("mc.example.com", &desired, &zone);
    assert_eq!(plan.delete, vec!["rec2".to_string()]);
}

#[test]
fn records_elsewhere_in_the_zone_are_left_alone() {
    let desired = service_records("mc.example.com", ip(), &[]);
    let zone = vec![
        existing("rec1", desired[0].clone()),
        existing(
            "apex",
            DnsRecord::A {
                name: "example.com".into(),
                address: Ipv4Addr::new(198, 51, 100, 1),
                ttl: 300,
            },
        ),
        existing(
            "other-service",
            DnsRecord::A {
                name: "notmc.example.com".into(),
                address: ip(),
                ttl: DEFAULT_TTL,
            },
        ),
    ];
    let plan = reconcile_service("mc.example.com", &desired, &zone);
    assert!(
        plan.is_empty(),
        "reconciling one service must not touch the rest of the zone: {plan:?}"
    );
}

#[test]
fn ownership_check_requires_a_label_boundary() {
    assert!(owned_by_service("mc.example.com", "mc.example.com"));
    assert!(owned_by_service(
        "_minecraft._tcp.mc.example.com",
        "mc.example.com"
    ));
    assert!(!owned_by_service("notmc.example.com", "mc.example.com"));
    assert!(!owned_by_service("example.com", "mc.example.com"));
}

#[test]
fn duplicate_records_collapse_to_one() {
    let desired = service_records("mc.example.com", ip(), &[]);
    let zone = vec![
        existing("rec1", desired[0].clone()),
        existing("dupe", desired[0].clone()),
    ];
    let plan = reconcile_service("mc.example.com", &desired, &zone);
    assert_eq!(plan.delete, vec!["dupe".to_string()]);
    assert!(plan.create.is_empty() && plan.update.is_empty());
}

/// Carries a plan out on a zone.
fn apply(zone: Vec<ExistingRecord>, fqdn: &str, desired: &[DnsRecord]) -> Vec<ExistingRecord> {
    let plan = reconcile_service(fqdn, desired, &zone);
    let mut out: Vec<ExistingRecord> = Vec::new();
    for r in zone {
        if plan.delete.contains(&r.id) {
            continue;
        }
        let record = match plan.update.iter().find(|(id, _)| *id == r.id) {
            Some((_, new)) => new.clone(),
            None => r.record,
        };
        out.push(ExistingRecord { id: r.id, record });
    }
    for (i, record) in plan.create.into_iter().enumerate() {
        out.push(ExistingRecord {
            id: format!("new{i}"),
            record,
        });
    }
    out
}

#[test]
fn a_plan_that_was_carried_out_leaves_nothing_to_do() {
    let spec = srv_spec();
    let desired = service_records(
        "mc.example.com",
        ip(),
        &[SrvBinding {
            spec: &spec,
            edge_port: 25565,
        }],
    );
    let zone = vec![
        existing(
            "old-a",
            DnsRecord::A {
                name: "mc.example.com".into(),
                address: Ipv4Addr::new(198, 51, 100, 7),
                ttl: 300,
            },
        ),
        existing(
            "stale",
            DnsRecord::Srv {
                name: "_gone._udp.mc.example.com".into(),
                target: "mc.example.com".into(),
                port: 1,
                priority: 0,
                weight: 0,
                ttl: 300,
            },
        ),
        existing(
            "apex",
            DnsRecord::A {
                name: "example.com".into(),
                address: ip(),
                ttl: 300,
            },
        ),
    ];
    let after = apply(zone, "mc.example.com", &desired);
    assert_eq!(after.len(), 3);
    assert!(after.iter().any(|r| r.id == "apex"));
    assert!(reconcile_service("mc.example.com", &desired, &after).is_empty());
}

#[test]
fn retracting_a_service_deletes_all_it_had_and_nothing_else() {
    let spec = srv_spec();
    let desired = service_records(
        "mc.example.com",
        ip(),
        &[SrvBinding {
            spec: &spec,
            edge_port: 25565,
        }],
    );
    let mut zone: Vec<ExistingRecord> = Vec::new();
    for (i, r) in desired.iter().enumerate() {
        zone.push(existing(&format!("rec{i}"), r.clone()));
    }
    zone.push(existing(
        "apex",
        DnsRecord::A {
            name: "example.com".into(),
            address: ip(),
            ttl: 300,
        },
    ));
    let plan = reconcile_service("mc.example.com", &[], &zone);
    assert_eq!(plan.delete, vec!["rec0".to_string(), "rec1".to_string()]);
    assert!(plan.create.is_empty() && plan.update.is_empty());
}

#[test]
fn carrying_out_a_plan_leaves_exactly_the_desired_records() {
    let spec = srv_spec();
    let desired = service_records(
        "mc.example.com",
        ip(),
        &[SrvBinding {
            spec: &spec,
            edge_port: 30001,
        }],
    );
    let a = |name: &str, last: u8, ttl: u32| DnsRecord::A {
        name: name.into(),
        address: Ipv4Addr::new(203, 0, 113, last),
        ttl,
    };
    let mut zone = vec![
        existing("1", a("mc.example.com", 99, DEFAULT_TTL)),
        existing("2", a("mc.example.com", 10, DEFAULT_TTL)),
        existing("3", a("old.mc.example.com", 10, DEFAULT_TTL)),
        existing("4", a("example.com", 1, 300)),
    ];
    let plan = reconcile_service("mc.example.com", &desired, &zone);
    assert_eq!(plan.update.len(), 1);
    assert_eq!(plan.delete, vec!["2".to_string(), "3".to_string()]);
    for (id, record) in &plan.update {
        let at = zone.iter().position(|e| &e.id == id).unwrap();
        zone[at].record = record.clone();
    }
    zone.retain(|e| !plan.delete.contains(&e.id));
    for (i, record) in plan.create.iter().enumerate() {
        zone.push(existing(&format!("new{i}"), record.clone()));
    }
    let mine: Vec<&DnsRecord> = zone
        .iter()
        .map(|e| &e.record)
        .filter(|r| owned_by_service(r.name(), "mc.example.com"))
        .collect();
    assert_eq!(mine.len(), desired.len());
    for want in &desired {
        assert_eq!(mine.iter().filter(|r| **r == want).count(), 1);
    }
    assert!(zone.iter().any(|e| e.id == "4"));
    assert!(reconcile_service("mc.example.com", &desired, &zone).is_empty());
}
