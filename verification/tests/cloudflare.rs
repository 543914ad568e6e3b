use portal::addr::Ipv4Addr;
use portal::cloudflare::{
    after_call, to_dns_record, to_payload, unwrap_response, ApiCall, ApiMessage, ApiResponse,
    ApplyStep, Cloudflare, CloudflareError, Listing, RecordJson, SrvData,
};
use portal::dns::{DnsPlan, DnsRecord};

fn a_record() -> DnsRecord {
    DnsRecord::A {
        name: "mc.example.com".into(),
        address: Ipv4Addr::new(203, 0, 113, 10),
        ttl: 120,
    }
}

fn srv_record() -> DnsRecord {
    DnsRecord::Srv {
        name: "_minecraft._tcp.mc.example.com".into(),
        target: "mc.example.com".into(),
        port: 30000,
        priority: 0,
        weight: 5,
        ttl: 120,
    }
}

fn listed(id: &str, kind: &str, content: &str) -> RecordJson {
    RecordJson {
        id: id.into(),
        kind: kind.into(),
        name: "mc.example.com".into(),
        content: content.into(),
        ttl: 120,
        data: None,
    }
}

#[test]
fn an_a_record_payload_is_never_proxied() {
    let payload = to_payload(&a_record());
    assert_eq!(payload.kind, "A");
    assert_eq!(payload.content.as_deref(), Some("203.0.113.10"));
    assert_eq!(
        payload.proxied,
        Some(false),
        "the orange cloud cannot carry a game port"
    );
}

#[test]
fn an_srv_payload_nests_its_parts_where_cloudflare_wants_them() {
    let payload = to_payload(&srv_record());
    assert_eq!(payload.kind, "SRV");
    assert_eq!(payload.proxied, Some(false));
    let data = payload.data.expect("nested");
    assert_eq!(data.port, 30000);
    assert_eq!(data.target, "mc.example.com");
    assert_eq!(data.weight, 5);
}

#[test]
fn records_round_trip_through_cloudflares_shape() {
    let json = RecordJson {
        id: "abc".into(),
        kind: "A".into(),
        name: "mc.example.com".into(),
        content: "203.0.113.10".into(),
        ttl: 120,
        data: None,
    };
    let record = to_dns_record(&json).expect("A records are understood");
    assert_eq!(to_payload(&record).content.as_deref(), Some("203.0.113.10"));
}

#[test]
fn record_types_the_gateway_does_not_manage_are_ignored() {
    for kind in ["MX", "TXT", "CNAME", "AAAA"] {
        let json = RecordJson {
            id: "x".into(),
            kind: kind.into(),
            name: "example.com".into(),
            content: "whatever".into(),
            ttl: 300,
            data: None,
        };
        assert!(
            to_dns_record(&json).is_none(),
            "{kind} belongs to the operator, not the gateway"
        );
    }
}

#[test]
fn an_srv_record_without_data_is_skipped_rather_than_panicking() {
    let json = RecordJson {
        id: "x".into(),
        kind: "SRV".into(),
        name: "_minecraft._tcp.mc.example.com".into(),
        content: String::new(),
        ttl: 120,
        data: None,
    };
    assert!(to_dns_record(&json).is_none());
}

#[test]
fn what_was_written_is_read_back_as_it_was() {
    for record in [a_record(), srv_record()] {
        let body = to_payload(&record);
        let json = RecordJson {
            id: "x".into(),
            kind: body.kind,
            name: body.name,
            content: body.content.unwrap_or_default(),
            ttl: body.ttl,
            data: body.data,
        };
        assert_eq!(to_dns_record(&json), Some(record));
    }
}

#[test]
fn an_a_record_with_a_bad_address_is_skipped() {
    assert!(to_dns_record(&listed("x", "A", "not an address")).is_none());
}

#[test]
fn a_rejection_gives_every_reason() {
    let message = |code: i64, message: &str| ApiMessage {
        code,
        message: message.into(),
    };
    let body: ApiResponse<u8> = ApiResponse {
        success: false,
        errors: vec![message(1004, "DNS validation"), message(-3, "")],
        result: Some(1),
    };
    let err = unwrap_response(body).unwrap_err();
    assert_eq!(
        err.to_string(),
        "cloudflare rejected the request: DNS validation (1004);  (-3)"
    );
    let body: ApiResponse<u8> = ApiResponse {
        success: false,
        errors: vec![],
        result: None,
    };
    assert!(matches!(
        unwrap_response(body),
        Err(CloudflareError::Api(reason)) if reason == "no reason given"
    ));
    let body: ApiResponse<u8> = ApiResponse {
        success: true,
        errors: vec![],
        result: None,
    };
    assert!(matches!(
        unwrap_response(body),
        Err(CloudflareError::Api(reason)) if reason == "response had no result"
    ));
    let body = ApiResponse {
        success: true,
        errors: vec![],
        result: Some(7u8),
    };
    assert_eq!(unwrap_response(body).unwrap(), 7);
}

#[test]
fn errors_say_where_they_come_from() {
    assert_eq!(
        CloudflareError::Transport("timeout".into()).to_string(),
        "cloudflare request failed: timeout"
    );
    assert_eq!(
        CloudflareError::UnknownRecord("X".into()).to_string(),
        "cloudflare returned a record this gateway does not understand: X"
    );
}

#[test]
fn a_plan_becomes_calls_in_order() {
    let cf = Cloudflare::new("zone".into(), "token".into());
    let plan = DnsPlan {
        create: vec![a_record()],
        update: vec![("r1".into(), srv_record())],
        delete: vec!["r2".into(), "r3".into()],
    };
    let base = "https://api.cloudflare.com/client/v4/zones/zone/dns_records";
    assert_eq!(
        cf.calls(&plan),
        vec![
            ApiCall::Post {
                url: base.to_string(),
                body: to_payload(&a_record())
            },
            ApiCall::Put {
                url: format!("{base}/r1"),
                body: to_payload(&srv_record())
            },
            ApiCall::Delete {
                url: format!("{base}/r2")
            },
            ApiCall::Delete {
                url: format!("{base}/r3")
            },
        ]
    );
    assert!(cf.calls(&DnsPlan::default()).is_empty());
}

#[test]
fn a_listing_goes_on_while_pages_are_full() {
    let cf = Cloudflare::new("zone".into(), "token".into());
    let mut listing = Listing::new();
    let base = "https://api.cloudflare.com/client/v4/zones/zone/dns_records";
    assert_eq!(listing.url(&cf), format!("{base}?per_page=100&page=1"));

    let mut full: Vec<RecordJson> = Vec::new();
    for i in 0..100 {
        full.push(if i % 2 == 0 {
            listed(&format!("a{i}"), "A", "203.0.113.10")
        } else {
            listed(&format!("t{i}"), "TXT", "whatever")
        });
    }
    let more = listing
        .take_page(ApiResponse {
            success: true,
            errors: vec![],
            result: Some(full),
        })
        .unwrap();
    assert!(more);
    assert_eq!(listing.url(&cf), format!("{base}?per_page=100&page=2"));

    let mut last = listed("srv", "SRV", "");
    last.data = Some(SrvData {
        priority: 1,
        weight: 2,
        port: 3,
        target: "t".into(),
    });
    let more = listing
        .take_page(ApiResponse {
            success: true,
            errors: vec![],
            result: Some(vec![last]),
        })
        .unwrap();
    assert!(!more);
    let found = listing.finish();
    assert_eq!(found.len(), 51);
    assert_eq!(found[1].id, "a2");
    assert_eq!(found[50].id, "srv");
}

#[test]
fn a_failed_page_ends_the_listing() {
    let mut listing = Listing::new();
    assert!(listing
        .take_page(ApiResponse {
            success: false,
            errors: vec![],
            result: None
        })
        .is_err());
    assert!(listing.finish().is_empty());
}

#[test]
fn nothing_is_sent_after_the_first_failure() {
    let good = || {
        Ok(ApiResponse {
            success: true,
            errors: vec![],
            result: Some(1),
        })
    };
    let refused = || {
        Ok(ApiResponse {
            success: false,
            errors: vec![ApiMessage {
                code: 81057,
                message: "exists".into(),
            }],
            result: Some(1),
        })
    };
    let run = |answers: Vec<Result<ApiResponse<i32>, CloudflareError>>| {
        let calls = answers.len();
        let mut sent = 0;
        for answer in answers {
            sent += 1;
            match after_call(calls - sent, answer) {
                ApplyStep::SendNext => {}
                ApplyStep::Done => return (sent, None),
                ApplyStep::Stop(e) => return (sent, Some(e.to_string())),
            }
        }
        (sent, None)
    };
    assert_eq!(run(vec![]), (0, None));
    assert_eq!(run(vec![good(), good(), good()]), (3, None));
    assert_eq!(
        run(vec![good(), refused(), good()]),
        (
            2,
            Some("cloudflare rejected the request: exists (81057)".to_string())
        )
    );
    assert_eq!(
        run(vec![
            Err(CloudflareError::Transport("timed out".into())),
            good()
        ]),
        (
            1,
            Some("cloudflare request failed: timed out".to_string())
        )
    );
    let empty: Result<ApiResponse<i32>, CloudflareError> = Ok(ApiResponse {
        success: true,
        errors: vec![],
        result: None,
    });
    assert_eq!(
        run(vec![empty]),
        (
            1,
            Some("cloudflare rejected the request: response had no result".to_string())
        )
    );
}
