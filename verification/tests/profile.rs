use portal::model::Protocol;
use portal::profile::{
    is_profile_extension, PortTemplate, Profile, ProfileError, ProfileSet, ServerConfigHint,
    SrvSpec,
};

fn profile(id: &str, ports: &[(&str, Protocol, u16)]) -> Profile {
    Profile {
        id: id.to_string(),
        name: id.to_string(),
        description: None,
        addon: false,
        notes: vec![],
        ports: ports
            .iter()
            .map(|(tid, proto, port)| PortTemplate {
                id: tid.to_string(),
                label: tid.to_string(),
                protocol: *proto,
                default_port: *port,
                optional: false,
                edge_port_fixed: false,
                srv: None,
                server_config: None,
            })
            .collect(),
    }
}

fn set(profiles: Vec<Profile>) -> ProfileSet {
    let mut out = ProfileSet::default();
    for p in profiles {
        out.add(p).unwrap();
    }
    out
}

#[test]
fn composes_game_and_addon_ports() {
    let set = set(vec![
        profile("minecraft-java", &[("game", Protocol::Tcp, 25565)]),
        profile("simple-voice-chat", &[("voice", Protocol::Udp, 24454)]),
    ]);
    let resolved = set
        .resolve(&[
            "minecraft-java".to_string(),
            "simple-voice-chat".to_string(),
        ])
        .expect("profiles compose");
    assert_eq!(resolved.len(), 2);
    assert_eq!(resolved[1].template.default_port, 24454);
}

#[test]
fn tcp_and_udp_on_the_same_number_do_not_collide() {
    let set = set(vec![
        profile("game", &[("game", Protocol::Tcp, 25565)]),
        profile("voice", &[("voice", Protocol::Udp, 25565)]),
    ]);
    assert!(set
        .resolve(&["game".to_string(), "voice".to_string()])
        .is_ok());
}

#[test]
fn rejects_same_protocol_port_collisions() {
    let set = set(vec![
        profile("a", &[("game", Protocol::Udp, 24454)]),
        profile("b", &[("voice", Protocol::Udp, 24454)]),
    ]);
    let err = set
        .resolve(&["a".to_string(), "b".to_string()])
        .expect_err("collision must be rejected");
    assert!(matches!(err, ProfileError::ConflictingPort(..)));
}

#[test]
fn unknown_profile_is_named_in_the_error() {
    let set = set(vec![]);
    let err = set.resolve(&["nope".to_string()]).expect_err("unknown");
    assert_eq!(err.to_string(), "no profile named `nope`");
}

#[test]
fn profile_srv_record_name_is_fully_qualified() {
    let srv = SrvSpec {
        service: "_minecraft".into(),
        proto: "_tcp".into(),
        priority: 0,
        weight: 5,
    };
    assert_eq!(
        srv.record_name("mc.example.com"),
        "_minecraft._tcp.mc.example.com"
    );
}

#[test]
fn config_hint_renders_public_address() {
    let hint = ServerConfigHint {
        file: "config/voicechat/voicechat-server.properties".into(),
        key: "voice_host".into(),
        value_template: "{host}:{edge_port}".into(),
        explanation: None,
    };
    assert_eq!(hint.render("mc.example.com", 30001), "mc.example.com:30001");
}

#[test]
fn every_placeholder_is_filled_in_and_the_rest_is_kept() {
    let hint = ServerConfigHint {
        file: "f".into(),
        key: "k".into(),
        value_template: "{host}{host} {edge_port}/{other} {".into(),
        explanation: None,
    };
    assert_eq!(hint.render("{edge_port}", 7), "77 7/{other} {");
}

#[test]
fn profiles_are_listed_by_id_and_the_last_of_an_id_counts() {
    let mut second = profile("b", &[]);
    second.name = "second".into();
    let set = set(vec![
        profile("c", &[]),
        profile("b", &[]),
        profile("a", &[]),
        second,
    ]);
    let ids: Vec<&str> = set.iter().iter().map(|p| p.id.as_str()).collect();
    assert_eq!(ids, ["a", "b", "c"]);
    assert_eq!(set.len(), 3);
    assert!(!set.is_empty());
    assert!(ProfileSet::default().is_empty());
    assert_eq!(set.get("b").unwrap().name, "second");
    assert!(set.get("d").is_none());
}

#[test]
fn a_profile_with_a_repeated_template_is_refused() {
    let bad = profile(
        "p",
        &[
            ("x", Protocol::Tcp, 1),
            ("y", Protocol::Tcp, 2),
            ("x", Protocol::Udp, 3),
        ],
    );
    assert!(bad.validate().is_err());
    let mut set = ProfileSet::default();
    let err = set.add(bad).unwrap_err();
    assert!(matches!(&err, ProfileError::DuplicateTemplate(p, t) if p == "p" && t == "x"));
    assert_eq!(
        err.to_string(),
        "profile `p` declares duplicate port template id `x`"
    );
    assert!(set.is_empty());
    assert!(profile("p", &[("x", Protocol::Tcp, 1)]).validate().is_ok());
}

#[test]
fn a_collision_names_both_profiles_and_the_port() {
    let set = set(vec![
        profile("a", &[("t", Protocol::Tcp, 1), ("u", Protocol::Udp, 2)]),
        profile("b", &[("u", Protocol::Udp, 2)]),
    ]);
    let err = set
        .resolve(&["a".to_string(), "b".to_string()])
        .unwrap_err();
    assert_eq!(
        err.to_string(),
        "profiles `a` and `b` both define udp port 2; they cannot be combined"
    );
    let err = set
        .resolve(&["a".to_string(), "a".to_string()])
        .unwrap_err();
    assert_eq!(
        err.to_string(),
        "profiles `a` and `a` both define tcp port 1; they cannot be combined"
    );
    let resolved = set.resolve(&["a".to_string()]).unwrap();
    assert_eq!(resolved.len(), 2);
    assert_eq!(resolved[0].profile.id, "a");
}

#[test]
fn reading_errors_name_the_file() {
    assert_eq!(
        ProfileError::Io("denied".into()).to_string(),
        "failed to read profile directory: denied"
    );
    assert_eq!(
        ProfileError::Parse {
            path: "p.yaml".into(),
            source: "bad".into()
        }
        .to_string(),
        "failed to parse `p.yaml`: bad"
    );
    assert!(is_profile_extension(Some("yaml")));
    assert!(is_profile_extension(Some("yml")));
    assert!(!is_profile_extension(Some("YAML")));
    assert!(!is_profile_extension(None));
}
