use quix::builder::{
    availability, classify_reply, classify_status, clean, link, may_retry, new, new_with_headers,
    relink, routed, Body, Header, Method, Outcome, RelinkBody, Reply, SyncRequest,
};
use quix::configs::{Environment, Project, Session, Vtex};
use quix::error::SyncError;
use quix::json::JsonProbe;
use quix::routes::{Channel, Routes};

fn project() -> Project {
    Project {
        vendor: "avantivtexio".to_string(),
        name: "shopping-list".to_string(),
        version: "0.0.1".to_string(),
    }
}

fn env() -> Vtex {
    Vtex {
        account: "acme".to_string(),
        login: "dev@acme.com".to_string(),
        token: "t0k3n".to_string(),
        workspace: "dev".to_string(),
        last_used_workspace: "master".to_string(),
    }
}

fn pairs(request: &SyncRequest) -> Vec<(String, String)> {
    request.headers.iter().map(|h| (h.name.clone(), h.value.clone())).collect()
}

fn pair(name: &str, value: &str) -> (String, String) {
    (name.to_string(), value.to_string())
}

#[test]
fn routes_are_assembled_from_project_and_workspace() {
    let base = "https://app.io.vtex.com/vtex.builder-hub/v0/acme/dev/_v/builder/0/";
    assert_eq!(
        Routes::assemble(Routes::Link, &project(), &env()),
        format!("{}link/avantivtexio.shopping-list@0.0.1?tsErrorsAsWarnings=false", base)
    );
    assert_eq!(
        Routes::assemble(Routes::Relink, &project(), &env()),
        format!("{}relink/avantivtexio.shopping-list@0.0.1?tsErrorsAsWarnings=false", base)
    );
    assert_eq!(
        Routes::assemble(Routes::Availability, &project(), &env()),
        format!("{}availability/avantivtexio.shopping-list@0.0.1", base)
    );
    assert_eq!(
        Routes::assemble(Routes::Clean, &project(), &env()),
        format!("{}clean/avantivtexio.shopping-list@0.0.1", base)
    );
}

#[test]
fn channel_addresses_name_account_and_workspace() {
    assert_eq!(
        Channel::Build.url(&env()),
        "https://infra.io.vtex.com/colossus/v0/acme/dev/events?onUnsubscribe=link_interrupted&sender=vtex.builder-hub&keys=build.status"
    );
    assert_eq!(
        Channel::Status.url(&env()),
        "https://infra.io.vtex.com/colossus/v0/acme/dev/events?onUnsubscribe=link_interrupted&sender=vtex.builder-hub&keys=receive.status"
    );
    assert_eq!(
        Channel::Logs.url(&env()),
        "https://infra.io.vtex.com/colossus/v0/acme/dev/logs?level=debug"
    );
}

#[test]
fn relink_body_is_written_as_json() {
    let body = RelinkBody { content: "aGk=".to_string(), byte_size: 4, path: "src/a.ts".to_string() };
    assert_eq!(body.to_string(), "{\"content\":\"aGk=\",\"byteSize\":4,\"path\":\"src/a.ts\"}");
    assert_eq!(
        body.to_batch(),
        "[{\"content\":\"aGk=\",\"byteSize\":4,\"path\":\"src/a.ts\"}]"
    );
    let empty = RelinkBody { content: String::new(), byte_size: 0, path: String::new() };
    assert_eq!(empty.to_string(), "{\"content\":\"\",\"byteSize\":0,\"path\":\"\"}");
    let large = RelinkBody { content: "x".to_string(), byte_size: 1234567890, path: "p".to_string() };
    assert_eq!(large.to_string(), "{\"content\":\"x\",\"byteSize\":1234567890,\"path\":\"p\"}");
}

#[test]
fn clients_carry_the_signing_headers() {
    let client = new("t0k3n");
    let names: Vec<(String, String)> =
        client.headers.iter().map(|h| (h.name.clone(), h.value.clone())).collect();
    assert_eq!(
        names,
        vec![
            pair("authorization", "Bearer t0k3n"),
            pair("accept", "application/json, text/plain, */*"),
        ]
    );
    let extra = vec![Header { name: "x-test".to_string(), value: "1".to_string() }];
    let with = new_with_headers("t0k3n", &extra);
    assert_eq!(with.headers.len(), 3);
    assert_eq!(with.headers[0].name, "x-test");
    assert_eq!(with.headers[1].value, "Bearer t0k3n");
    let sticky = routed("t0k3n", "host-1");
    assert_eq!(sticky.headers[0].name, "x-vtex-sticky-host");
    assert_eq!(sticky.headers[0].value, "host-1");
    assert_eq!(sticky.headers.len(), 3);
}

#[test]
fn full_sync_request_carries_the_archive() {
    let client = routed("t0k3n", "host-1");
    let request = link(&client, &project(), &env(), vec![1, 2, 3]);
    assert_eq!(request.method, Method::Post);
    assert_eq!(request.url, Routes::assemble(Routes::Link, &project(), &env()));
    assert_eq!(
        pairs(&request),
        vec![
            pair("x-vtex-sticky-host", "host-1"),
            pair("authorization", "Bearer t0k3n"),
            pair("accept", "application/json, text/plain, */*"),
            pair("accept-encoding", "gzip"),
            pair("content-type", "application/octet-stream"),
            pair("content-length", "3"),
        ]
    );
    assert!(matches!(request.body, Body::Binary(ref bytes) if bytes == &vec![1u8, 2, 3]));
}

#[test]
fn incremental_request_carries_one_file() {
    let client = routed("t0k3n", "host-1");
    let body = RelinkBody { content: "aGk=".to_string(), byte_size: 4, path: "a.ts".to_string() };
    let request = relink(&client, &project(), &env(), body);
    assert_eq!(request.method, Method::Put);
    assert_eq!(request.url, Routes::assemble(Routes::Relink, &project(), &env()));
    assert_eq!(pairs(&request)[3], pair("accept-encoding", "gzip"));
    assert_eq!(pairs(&request)[4], pair("content-type", "application/json"));
    assert_eq!(pairs(&request).len(), 5);
    match request.body {
        Body::Text(text) => {
            assert_eq!(text, "[{\"content\":\"aGk=\",\"byteSize\":4,\"path\":\"a.ts\"}]")
        }
        other => panic!("unexpected body {:?}", other),
    }
}

#[test]
fn cache_clear_request_has_the_control_payload() {
    let client = routed("t0k3n", "host-1");
    let request = clean(&client, &project(), &env());
    assert_eq!(request.method, Method::Post);
    assert_eq!(request.url, Routes::assemble(Routes::Clean, &project(), &env()));
    match request.body {
        Body::Text(text) => assert_eq!(
            text,
            "{\"headers\": {\"Content-Type\": \"application/json\"},\"metric\": \"bh-clean\"}"
        ),
        other => panic!("unexpected body {:?}", other),
    }
}

#[test]
fn availability_probe_carries_the_tag() {
    let request = availability(&project(), &env());
    assert_eq!(request.method, Method::Post);
    assert_eq!(request.url, Routes::assemble(Routes::Availability, &project(), &env()));
    assert_eq!(
        pairs(&request),
        vec![
            pair("authorization", "Bearer t0k3n"),
            pair("accept", "application/json, text/plain, */*"),
            pair("x-vtex-sticky-host", "request:acme:dev:avantivtexio.shopping-list@0.0.1"),
        ]
    );
    assert!(matches!(request.body, Body::Empty));
}

#[test]
fn status_503_is_retryable() {
    let reply = Reply::Response {
        status: 503,
        body: "{\"code\":\"unavailable\",\"message\":\"x\"}".to_string(),
    };
    match classify_reply(reply) {
        Outcome::Retryable { code, message } => {
            assert_eq!(code, "unavailable");
            assert_eq!(message, "x");
        }
        other => panic!("unexpected outcome {:?}", other),
    }
}

#[test]
fn status_400_on_production_is_rejected_with_the_flag() {
    let reply = Reply::Response {
        status: 400,
        body: "{\"code\":\"link_on_production\",\"message\":\"no\"}".to_string(),
    };
    match classify_reply(reply) {
        Outcome::Rejected { code, message, on_production } => {
            assert_eq!(code, "link_on_production");
            assert_eq!(message, "no");
            assert!(on_production);
        }
        other => panic!("unexpected outcome {:?}", other),
    }
    let plain = Reply::Response {
        status: 404,
        body: "{\"code\":\"not_found\",\"message\":\"gone\"}".to_string(),
    };
    match classify_reply(plain) {
        Outcome::Rejected { code, on_production, .. } => {
            assert_eq!(code, "not_found");
            assert!(!on_production);
        }
        other => panic!("unexpected outcome {:?}", other),
    }
}

#[test]
fn status_classes_have_sharp_edges() {
    let body = "{\"code\":\"c\",\"message\":\"m\"}";
    let outcome = |status: u16| classify_reply(Reply::Response { status, body: body.to_string() });
    assert!(matches!(outcome(200), Outcome::Success));
    assert!(matches!(outcome(204), Outcome::Success));
    assert!(matches!(outcome(299), Outcome::Success));
    assert!(matches!(outcome(199), Outcome::Rejected { .. }));
    assert!(matches!(outcome(300), Outcome::Rejected { .. }));
    assert!(matches!(outcome(499), Outcome::Rejected { .. }));
    assert!(matches!(outcome(500), Outcome::Retryable { .. }));
    assert!(matches!(outcome(599), Outcome::Retryable { .. }));
    assert!(matches!(outcome(600), Outcome::Rejected { .. }));
}

#[test]
fn unreadable_error_body_becomes_the_message() {
    let reply = Reply::Response { status: 502, body: "<html>bad gateway</html>".to_string() };
    match classify_reply(reply) {
        Outcome::Retryable { code, message } => {
            assert_eq!(code, "");
            assert_eq!(message, "<html>bad gateway</html>");
        }
        other => panic!("unexpected outcome {:?}", other),
    }
    let partial = Reply::Response { status: 400, body: "{\"code\":\"only\"}".to_string() };
    match classify_reply(partial) {
        Outcome::Rejected { code, message, on_production } => {
            assert_eq!(code, "");
            assert_eq!(message, "{\"code\":\"only\"}");
            assert!(!on_production);
        }
        other => panic!("unexpected outcome {:?}", other),
    }
}

#[test]
fn no_reply_is_a_transport_error() {
    match classify_reply(Reply::Failure("connection refused".to_string())) {
        Outcome::TransportError(e) => assert_eq!(e, "connection refused"),
        other => panic!("unexpected outcome {:?}", other),
    }
}

#[test]
fn outcome_for_given_probes() {
    let outcome = classify_status(
        503,
        "raw".to_string(),
        JsonProbe::Text("unavailable".to_string()),
        JsonProbe::Text("x".to_string()),
    );
    assert!(matches!(outcome, Outcome::Retryable { ref code, ref message } if code == "unavailable" && message == "x"));
    let fallback = classify_status(418, "raw".to_string(), JsonProbe::Absent, JsonProbe::Null);
    assert!(matches!(fallback, Outcome::Rejected { ref code, ref message, on_production: false } if code.is_empty() && message == "raw"));
    let ok = classify_status(201, "raw".to_string(), JsonProbe::Malformed, JsonProbe::Malformed);
    assert!(matches!(ok, Outcome::Success));
}

#[test]
fn only_server_failures_may_be_retried() {
    assert!(may_retry(&Outcome::Retryable { code: "c".to_string(), message: "m".to_string() }));
    assert!(!may_retry(&Outcome::Success));
    assert!(!may_retry(&Outcome::TransportError("e".to_string())));
    assert!(!may_retry(&Outcome::Rejected {
        code: "c".to_string(),
        message: "m".to_string(),
        on_production: false
    }));
}

#[test]
fn errors_map_to_exit_codes() {
    assert_eq!(SyncError::ConfigError.exit_code(), 78);
    assert_eq!(SyncError::RoutingError.exit_code(), 69);
    assert_eq!(SyncError::TransportError.exit_code(), 69);
    assert_eq!(SyncError::Retryable.exit_code(), 69);
    assert_eq!(SyncError::Rejected.exit_code(), 1);
    assert_eq!(SyncError::IOError.exit_code(), 1);
    assert_eq!(SyncError::ParseError.exit_code(), 1);
    assert!(SyncError::ConfigError.is_fatal());
    assert!(SyncError::RoutingError.is_fatal());
    assert!(!SyncError::IOError.is_fatal());
    assert!(!SyncError::ParseError.is_fatal());
    assert!(!SyncError::TransportError.is_fatal());
    assert_eq!(SyncError::of_outcome(&Outcome::Success), None);
    assert_eq!(
        SyncError::of_outcome(&Outcome::TransportError("e".to_string())),
        Some(SyncError::TransportError)
    );
    assert_eq!(
        SyncError::of_outcome(&Outcome::Retryable { code: String::new(), message: String::new() }),
        Some(SyncError::Retryable)
    );
    assert_eq!(
        SyncError::of_outcome(&Outcome::Rejected {
            code: String::new(),
            message: String::new(),
            on_production: true
        }),
        Some(SyncError::Rejected)
    );
    assert_eq!(
        SyncError::of_action(&quix::colossus::classify("{broken")),
        Some(SyncError::ParseError)
    );
    assert_eq!(SyncError::of_action(&quix::colossus::classify("ping\n")), None);
}

#[test]
fn credentials_are_joined_from_session_and_workspace() {
    let session = Session {
        account: "acme".to_string(),
        login: "dev@acme.com".to_string(),
        token: "t".to_string(),
    };
    let environment = Environment {
        current_workspace: "dev".to_string(),
        last_workspace: "master".to_string(),
    };
    let vtex = Vtex::from_parts(session, environment);
    assert_eq!(vtex.account, "acme");
    assert_eq!(vtex.workspace, "dev");
    assert_eq!(vtex.last_used_workspace, "master");
    assert!(vtex.is_complete());
    let mut blank = vtex.clone();
    blank.token = String::new();
    assert!(!blank.is_complete());
}

#[test]
fn relink_body_is_json_for_every_path() {
    let body = RelinkBody {
        content: "aGk=".to_string(),
        byte_size: 4,
        path: "src/a\"b\\c\n\u{1}.ts".to_string(),
    };
    assert_eq!(
        body.to_string(),
        "{\"content\":\"aGk=\",\"byteSize\":4,\"path\":\"src/a\\\"b\\\\c\\u000a\\u0001.ts\"}"
    );
    let parsed: serde_json::Value = serde_json::from_str(&body.to_batch()).unwrap();
    let items = parsed.as_array().unwrap();
    assert_eq!(items.len(), 1);
    let item = items[0].as_object().unwrap();
    assert_eq!(item.len(), 3);
    assert_eq!(item["content"].as_str(), Some("aGk="));
    assert_eq!(item["byteSize"].as_u64(), Some(4));
    assert_eq!(item["path"].as_str(), Some("src/a\"b\\c\n\u{1}.ts"));
}

#[test]
fn account_and_vendor_stand_in_their_own_places() {
    let project = Project {
        vendor: "acme".to_string(),
        name: "store".to_string(),
        version: "1.2.3".to_string(),
    };
    let mut env = env();
    env.account = "acc".to_string();
    assert_eq!(
        Routes::assemble(Routes::Availability, &project, &env),
        "https://app.io.vtex.com/vtex.builder-hub/v0/acc/dev/_v/builder/0/availability/acme.store@1.2.3"
    );
}
