use portal::addr::{IpAddr, Ipv4Addr};
use portal::agent::{
    after_applying, after_polling, after_registering, next_wait, PollStep, RegisterStep,
    FIRST_BACKOFF_SECONDS,
};
use portal::api::{AgentAssignment, ApiError, Forward, RegisterResponse, TunnelConfig};
use portal::cli::lenient_bool;
use portal::client::{body_kind, decode, Answer, BodyKind, ClientError, GatewayClient};
use portal::forward::{
    local_target, same_target, Forwarder, PeerAddr, Route, Sending, SessionTable,
};
use portal::ids::Uuid;
use portal::model::Protocol;
use portal::state::{contents_of, default_state_path, FileRead, StateError};
use portal::tunnel::{
    failure_text, render_config, subnet_base, ExistingTunnel, KernelTunnel, TunnelBackend,
    TunnelStep,
};
use portal::wg::generate_keypair;

#[test]
fn trailing_slashes_do_not_produce_double_slashed_urls() {
    let client = GatewayClient::new("https://portal.example.com/", " key ");
    assert_eq!(client.base_url(), "https://portal.example.com");
    assert_eq!(client.key(), "key", "a pasted key often brings whitespace");
}

#[test]
fn a_client_knows_where_to_ask() {
    let client = GatewayClient::new("  https://portal.example.com/x///  ", "k");
    assert_eq!(
        client.register_url(),
        "https://portal.example.com/x/api/register"
    );
    assert_eq!(
        client.assignment_url(),
        "https://portal.example.com/x/api/assignment"
    );
    assert_eq!(GatewayClient::new("///", "k").base_url(), "");
}

fn answered(status: u16, value: Result<u8, String>, refusal: Option<&str>) -> Answer<u8> {
    Answer {
        status,
        status_text: "418 I'm a teapot".into(),
        url: "http://u".into(),
        value,
        refusal: refusal.map(|e| ApiError { error: e.into() }),
    }
}

#[test]
fn an_answer_is_read_as_its_status_asks_for() {
    assert_eq!(body_kind(200), BodyKind::Value);
    assert_eq!(body_kind(299), BodyKind::Value);
    assert_eq!(body_kind(401), BodyKind::Nothing);
    assert_eq!(body_kind(300), BodyKind::Refusal);
    assert_eq!(body_kind(199), BodyKind::Refusal);
    assert_eq!(decode(answered(201, Ok(7), None)).unwrap(), 7);
    assert_eq!(
        decode(answered(200, Err("eof".into()), None))
            .unwrap_err()
            .to_string(),
        "could not reach the gateway at http://u: eof"
    );
    assert!(matches!(
        decode(answered(401, Ok(7), Some("x"))),
        Err(ClientError::Unauthorized)
    ));
    assert_eq!(
        decode(answered(409, Ok(7), Some("taken")))
            .unwrap_err()
            .to_string(),
        "gateway returned 409: taken"
    );
    assert_eq!(
        decode(answered(418, Ok(7), None)).unwrap_err().to_string(),
        "gateway returned 418: 418 I'm a teapot"
    );
    assert_eq!(
        ClientError::Unauthorized.to_string(),
        "the gateway does not recognise this key; copy it again from the control panel"
    );
}

fn tunnel_config() -> TunnelConfig {
    TunnelConfig {
        gateway_public_key: generate_keypair().public,
        gateway_endpoint: "vps.example.com:51820".into(),
        tunnel_ip: Ipv4Addr::new(10, 99, 0, 2),
        tunnel_prefix_len: 24,
        persistent_keepalive: 25,
    }
}

#[test]
fn the_agent_config_carries_its_own_address_and_the_gateway_peer() {
    let rendered = render_config(&tunnel_config(), "PRIVATE");
    assert!(rendered.contains("PrivateKey = PRIVATE"));
    assert!(rendered.contains("Address = 10.99.0.2/24"));
    assert!(rendered.contains("Endpoint = vps.example.com:51820"));
}

#[test]
fn only_the_tunnel_subnet_is_routed_over_the_vpn() {
    let rendered = render_config(&tunnel_config(), "PRIVATE");
    assert!(rendered.contains("AllowedIPs = 10.99.0.0/24"));
    assert!(
        !rendered.contains("0.0.0.0/0"),
        "publishing a game server must not reroute the household's internet"
    );
}

#[test]
fn keepalive_is_set_because_the_gateway_cannot_dial_home() {
    assert!(render_config(&tunnel_config(), "PRIVATE").contains("PersistentKeepalive = 25"));
}

#[test]
fn the_bind_address_is_the_agents_tunnel_address() {
    let config = tunnel_config();
    assert_eq!(
        ExistingTunnel.bind_address(&config),
        IpAddr::V4(Ipv4Addr::new(10, 99, 0, 2))
    );
}

#[test]
fn subnet_is_derived_from_the_assigned_address() {
    let mut config = tunnel_config();
    config.tunnel_ip = Ipv4Addr::new(10, 99, 3, 200);
    config.tunnel_prefix_len = 16;
    assert_eq!(subnet_base(&config), Ipv4Addr::new(10, 99, 0, 0));
}

#[test]
fn a_subnet_can_be_everything_or_one_address() {
    let mut config = tunnel_config();
    config.tunnel_prefix_len = 0;
    assert_eq!(subnet_base(&config), Ipv4Addr::new(0, 0, 0, 0));
    config.tunnel_prefix_len = 200;
    assert_eq!(subnet_base(&config), Ipv4Addr::new(10, 99, 0, 2));
}

#[test]
fn kernel_wireguard_is_taken_down_before_it_is_brought_up() {
    let tunnel = KernelTunnel::new("portal0", "/etc/wireguard");
    let config = tunnel_config();
    let path = "/etc/wireguard/portal0.conf".to_string();
    assert_eq!(
        tunnel.bring_up(&config, "PRIVATE"),
        vec![
            TunnelStep::WritePrivate {
                path: path.clone(),
                contents: render_config(&config, "PRIVATE")
            },
            TunnelStep::Try {
                action: "down".into(),
                path: path.clone()
            },
            TunnelStep::Run {
                action: "up".into(),
                path: path.clone()
            },
        ]
    );
    assert_eq!(
        tunnel.tear_down(),
        vec![TunnelStep::Run {
            action: "down".into(),
            path
        }]
    );
    assert!(ExistingTunnel.bring_up(&config, "PRIVATE").is_empty());
    assert!(ExistingTunnel.tear_down().is_empty());
    assert_eq!(failure_text("up", " boom\n"), "wg-quick up failed: boom");
}

#[test]
fn waits_double_up_to_a_minute() {
    let mut wait = FIRST_BACKOFF_SECONDS;
    let mut seen = vec![wait];
    for _ in 0..6 {
        wait = next_wait(wait);
        seen.push(wait);
    }
    assert_eq!(seen, [2, 4, 8, 16, 32, 60, 60]);
    assert_eq!(next_wait(u64::MAX), 60);
}

fn transport() -> ClientError {
    ClientError::Transport {
        url: "u".into(),
        source: "s".into(),
    }
}

#[test]
fn registering_is_retried_unless_the_key_is_wrong() {
    let response = RegisterResponse {
        node_id: Uuid::nil(),
        tunnel: tunnel_config(),
    };
    assert!(matches!(
        after_registering(2, Ok(response)),
        RegisterStep::Registered(r) if r.node_id == Uuid::nil()
    ));
    assert!(matches!(
        after_registering(8, Err(transport())),
        RegisterStep::Retry { wait: 8, next: 16, .. }
    ));
    assert!(matches!(
        after_registering(8, Err(ClientError::Unauthorized)),
        RegisterStep::GiveUp(why) if why == "the gateway does not recognise this node's key; copy PORTAL_KEY again from the control panel"
    ));
}

fn assignment(revision: u64) -> AgentAssignment {
    AgentAssignment {
        revision,
        forwards: vec![],
    }
}

#[test]
fn an_assignment_that_comes_back_after_a_failure_is_applied_again() {
    let mut in_place = None;
    for (revision, works) in [(1, true), (2, false), (1, true)] {
        match after_polling(in_place, Ok(assignment(revision))) {
            PollStep::Apply(a) => assert_eq!(a.revision, revision),
            other => panic!("revision {revision} was not applied: {other:?}"),
        }
        in_place = after_applying(revision, works);
    }
    assert!(matches!(
        after_polling(in_place, Ok(assignment(1))),
        PollStep::Unchanged
    ));
}

#[test]
fn an_assignment_is_applied_once() {
    assert!(matches!(
        after_polling(None, Ok(assignment(5))),
        PollStep::Apply(a) if a.revision == 5
    ));
    assert_eq!(after_applying(5, false), None);
    let in_place = after_applying(5, true);
    assert!(matches!(
        after_polling(in_place, Ok(assignment(5))),
        PollStep::Unchanged
    ));
    assert!(matches!(
        after_polling(in_place, Ok(assignment(6))),
        PollStep::Apply(_)
    ));
    assert!(matches!(
        after_polling(in_place, Err(transport())),
        PollStep::Wait(ClientError::Transport { .. })
    ));
    assert!(matches!(
        after_polling(in_place, Err(ClientError::Unauthorized)),
        PollStep::Stop(why) if why == "the gateway does not recognise this node's key; check PORTAL_KEY"
    ));
}

fn forward(protocol: Protocol, tunnel_port: u16, local_port: u16) -> Forward {
    Forward {
        protocol,
        tunnel_port,
        local_host: "127.0.0.1".into(),
        local_port,
    }
}

/// Makes the listeners match, as if every socket could be bound.
fn apply(forwarder: &mut Forwarder, forwards: &[Forward]) -> (usize, usize) {
    let stale = forwarder.stale(forwards);
    for (protocol, port) in &stale {
        forwarder.stopped(*protocol, *port);
    }
    let missing = forwarder.missing(forwards);
    let started = missing.len();
    for f in missing {
        forwarder.started(f);
    }
    (stale.len(), started)
}

#[test]
fn a_new_assignment_disturbs_only_what_changed() {
    let mut forwarder = Forwarder::new();
    let before = [
        forward(Protocol::Tcp, 100, 1),
        forward(Protocol::Tcp, 200, 1),
    ];
    assert_eq!(apply(&mut forwarder, &before), (0, 2));
    let after = [
        forward(Protocol::Tcp, 100, 1),
        forward(Protocol::Tcp, 50, 1),
    ];
    assert_eq!(forwarder.stale(&after), vec![(Protocol::Tcp, 200)]);
    assert_eq!(apply(&mut forwarder, &after), (1, 1));
    assert_eq!(
        forwarder.active(),
        vec![(Protocol::Tcp, 50), (Protocol::Tcp, 100)]
    );
}

#[test]
fn a_moved_target_is_started_again() {
    let mut forwarder = Forwarder::default();
    apply(&mut forwarder, &[forward(Protocol::Tcp, 100, 1)]);
    let moved = [forward(Protocol::Tcp, 100, 2)];
    assert_eq!(forwarder.stale(&moved), vec![(Protocol::Tcp, 100)]);
    assert_eq!(apply(&mut forwarder, &moved), (1, 1));
    assert_eq!(forwarder.active(), vec![(Protocol::Tcp, 100)]);
    assert_eq!(apply(&mut forwarder, &[]), (1, 0));
    assert!(forwarder.active().is_empty());
}

#[test]
fn the_same_assignment_twice_stops_and_starts_nothing() {
    let mut forwarder = Forwarder::new();
    let assignment = [
        forward(Protocol::Udp, 100, 1),
        forward(Protocol::Tcp, 100, 2),
    ];
    assert_eq!(apply(&mut forwarder, &assignment), (0, 2));
    assert_eq!(apply(&mut forwarder, &assignment), (0, 0));
    assert_eq!(
        forwarder.active(),
        vec![(Protocol::Tcp, 100), (Protocol::Udp, 100)]
    );
    forwarder.shutdown();
    assert!(forwarder.active().is_empty());
}

#[test]
fn the_last_word_on_a_port_counts() {
    let mut forwarder = Forwarder::new();
    let twice = [
        forward(Protocol::Tcp, 100, 1),
        forward(Protocol::Tcp, 100, 2),
    ];
    let missing = forwarder.missing(&twice);
    assert_eq!(missing.len(), 1);
    assert_eq!(missing[0].local_port, 2);
    assert_eq!(apply(&mut forwarder, &twice), (0, 1));
    assert_eq!(apply(&mut forwarder, &twice), (0, 0));
}

#[test]
fn a_target_is_a_host_and_a_port() {
    let a = forward(Protocol::Tcp, 100, 1);
    let b = forward(Protocol::Udp, 200, 1);
    assert!(same_target(&a, &b));
    assert!(!same_target(&a, &forward(Protocol::Tcp, 100, 2)));
    let mut elsewhere = forward(Protocol::Tcp, 100, 1);
    elsewhere.local_host = "127.0.0.2".into();
    assert!(!same_target(&a, &elsewhere));
    assert_eq!(local_target(&a), "127.0.0.1:1");
}

fn peer(last: u8) -> PeerAddr {
    PeerAddr {
        ip: IpAddr::V4(Ipv4Addr::new(192, 0, 2, last)),
        port: 5000,
        flowinfo: 0,
        scope_id: 0,
    }
}

#[test]
fn a_quiet_flow_is_reaped_after_a_minute() {
    let second = 1_000_000_000;
    let mut table = SessionTable::new();
    table.heard(peer(1), 0);
    table.heard(peer(2), 30 * second);
    assert!(table.has(peer(1)) && table.has(peer(2)) && !table.has(peer(3)));
    assert!(table.reap(60 * second - 1).is_empty());
    assert_eq!(table.reap(60 * second), vec![peer(1)]);
    assert!(!table.has(peer(1)));
    table.heard(peer(2), 80 * second);
    assert!(table.reap(139 * second).is_empty());
    assert!(table.reap(0).is_empty(), "a clock that stood still");
    table.drop_session(peer(2));
    assert!(!table.has(peer(2)));
}

#[test]
fn a_datagram_reuses_its_peers_session_for_a_minute() {
    let second = 1_000_000_000;
    let mut table = SessionTable::new();
    let first = table.arrived(peer(1), 0);
    assert_eq!((first.route, first.over.len()), (Route::Open, 0));
    table.sent(peer(1), 0, Sending::Sent);
    assert_eq!(table.arrived(peer(1), 59 * second).route, Route::Reuse);
    table.sent(peer(1), 59 * second, Sending::Sent);
    assert_eq!(table.arrived(peer(2), 60 * second).route, Route::Open);
    table.sent(peer(2), 60 * second, Sending::Sent);

    let late = table.arrived(peer(1), 119 * second);
    assert_eq!(late.route, Route::Open);
    assert_eq!(late.over, vec![peer(1)]);
    assert_eq!(table.arrived(peer(2), 119 * second).route, Route::Reuse);
}

#[test]
fn a_datagram_that_could_not_be_forwarded_costs_its_session() {
    let mut table = SessionTable::new();
    for p in [peer(1), peer(2)] {
        assert_eq!(table.arrived(p, 0).route, Route::Open);
        table.sent(p, 0, Sending::Sent);
    }
    assert_eq!(table.arrived(peer(1), 1).route, Route::Reuse);
    table.sent(peer(1), 1, Sending::Failed);
    assert_eq!(table.arrived(peer(1), 2).route, Route::Open);
    table.sent(peer(1), 2, Sending::NotOpened);
    assert_eq!(table.arrived(peer(1), 3).route, Route::Open);
    assert_eq!(table.arrived(peer(2), 3).route, Route::Reuse);
}

#[test]
fn a_missing_state_file_says_how_to_fix_it() {
    let err = contents_of("/nonexistent/agent.json", FileRead::Missing).unwrap_err();
    assert!(
        err.to_string().contains("portal-agent enroll"),
        "{}",
        err.to_string()
    );
}

#[test]
fn a_state_file_that_cannot_be_used_is_named() {
    assert_eq!(
        contents_of("/s/agent.json", FileRead::Failed("denied".into()))
            .unwrap_err()
            .to_string(),
        "failed to read `/s/agent.json`: denied"
    );
    assert_eq!(
        contents_of("/s/agent.json", FileRead::Contents("{}".into())).unwrap(),
        "{}"
    );
    let err = StateError::Parse {
        path: "/s/agent.json".into(),
        source: "bad".into(),
    };
    assert_eq!(
        err.to_string(),
        "state file `/s/agent.json` is not valid: bad"
    );
}

#[test]
fn state_lives_where_a_service_keeps_its_data() {
    assert_eq!(
        default_state_path(None),
        "/var/lib/portal-agent/agent.json"
    );
    assert_eq!(default_state_path(Some("/data")), "/data/agent.json");
}

#[test]
fn a_flag_is_read_in_the_spellings_people_use() {
    for yes in ["1", "true", " Yes ", "ON"] {
        assert_eq!(lenient_bool(yes), Ok(true), "{yes}");
    }
    for no in ["0", "false", "No", "off", "", "  "] {
        assert_eq!(lenient_bool(no), Ok(false), "{no}");
    }
    assert_eq!(
        lenient_bool("Maybe"),
        Err("expected true or false, got `maybe`".to_string())
    );
}
