use roselite::heartbeat::{Heartbeat, HeartbeatStatus};
use roselite::request::{response_is_rejection, RelayError, RoseliteRequest};
use roselite::server::{
    convert_to_upstream, plan_remote_write, remote_write_response, RemoteWriteOutcome,
    RemoteWritePlan, ServerConfig, ServerOptions,
};

#[test]
pub fn should_convert_upstream_url() {
    let upstream_url = String::from("https://uptime-kuma.selfhosted.com");
    let id = String::from("tiMmL99KBB");

    let resulting_url = convert_to_upstream(upstream_url, id);

    assert!(resulting_url.is_ok());

    if let Ok(url) = resulting_url {
        assert_eq!(
            url,
            "https://uptime-kuma.selfhosted.com/api/push/tiMmL99KBB"
        );
    }
}

#[test]
fn join_is_a_pure_join() {
    assert_eq!(
        convert_to_upstream("https://kuma.example.com".to_string(), "abc123".to_string()).unwrap(),
        "https://kuma.example.com/api/push/abc123"
    );
    assert_eq!(
        convert_to_upstream(
            "https://kuma.example.com/base".to_string(),
            "abc123".to_string()
        )
        .unwrap(),
        "https://kuma.example.com/base/api/push/abc123"
    );
}

#[test]
fn join_normalizes_trailing_slashes() {
    assert_eq!(
        convert_to_upstream("https://kuma.example.com/".to_string(), "abc".to_string()).unwrap(),
        "https://kuma.example.com/api/push/abc"
    );
    assert_eq!(
        convert_to_upstream("http://kuma.example.com/base///".to_string(), "x".to_string())
            .unwrap(),
        "http://kuma.example.com/base/api/push/x"
    );
}

#[test]
fn join_rejects_unusable_bases() {
    assert_eq!(
        convert_to_upstream("ftp://kuma.example.com".to_string(), "abc".to_string()),
        Err(RelayError::InvalidUrl)
    );
    assert_eq!(
        convert_to_upstream("not a url".to_string(), "abc".to_string()),
        Err(RelayError::InvalidUrl)
    );
    assert_eq!(
        convert_to_upstream("https://".to_string(), "abc".to_string()),
        Err(RelayError::InvalidUrl)
    );
}

#[test]
fn push_request_url_appends_query_parameters() {
    let request = RoseliteRequest::new();
    let hb = Heartbeat::new("OK".to_string(), HeartbeatStatus::Up, 42);
    let url = request
        .push_request_url("https://kuma.example.com/api/push/abc123", &hb)
        .unwrap();
    assert_eq!(
        url,
        "https://kuma.example.com/api/push/abc123?msg=OK&status=up&ping=42"
    );
}

#[test]
fn push_request_url_continues_an_existing_query() {
    let request = RoseliteRequest::default();
    let hb = Heartbeat::new("OK".to_string(), HeartbeatStatus::Down, 5);
    let url = request
        .push_request_url("https://kuma.example.com/push?token=abc", &hb)
        .unwrap();
    assert_eq!(
        url,
        "https://kuma.example.com/push?token=abc&msg=OK&status=down&ping=5"
    );
}

#[test]
fn push_request_url_rejects_unusable_destinations() {
    let request = RoseliteRequest::new();
    let hb = Heartbeat::new("OK".to_string(), HeartbeatStatus::Up, 0);
    assert_eq!(
        request.push_request_url("gopher://old.example.com", &hb),
        Err(RelayError::InvalidUrl)
    );
}

#[test]
fn aggregator_rejection_still_counts_as_delivered() {
    let request = RoseliteRequest::new();
    assert_eq!(request.interpret_push_response(Some(503)), Ok(()));
    assert_eq!(request.interpret_push_response(Some(200)), Ok(()));
    assert_eq!(
        request.interpret_push_response(None),
        Err(RelayError::Transport)
    );
    assert!(response_is_rejection(503));
    assert!(response_is_rejection(400));
    assert!(!response_is_rejection(399));
    assert!(!response_is_rejection(200));
}

#[test]
fn remote_write_plan_fails_closed_without_upstream() {
    let plan = plan_remote_write(&None, "xyz");
    assert!(matches!(plan, RemoteWritePlan::RejectNoUpstream));
    let (code, body) = remote_write_response(RemoteWriteOutcome::NoUpstream);
    assert_eq!(code, 412);
    assert!(!body.ok);
}

#[test]
fn remote_write_plan_relays_to_joined_destination() {
    let upstream = Some("https://uptime-kuma.selfhosted.com".to_string());
    match plan_remote_write(&upstream, "xyz") {
        RemoteWritePlan::Relay { push_url } => {
            assert_eq!(push_url, "https://uptime-kuma.selfhosted.com/api/push/xyz");
        }
        other => panic!("expected a relay plan, got {:?}", other),
    }
    let (code, body) = remote_write_response(RemoteWriteOutcome::Relayed);
    assert_eq!(code, 200);
    assert!(body.ok);
}

#[test]
fn remote_write_plan_rejects_bad_upstream() {
    let upstream = Some("oops".to_string());
    assert!(matches!(
        plan_remote_write(&upstream, "xyz"),
        RemoteWritePlan::RejectBadUpstream
    ));
    let (code, body) = remote_write_response(RemoteWriteOutcome::BadUpstream);
    assert_eq!(code, 500);
    assert!(!body.ok);
    let (code, body) = remote_write_response(RemoteWriteOutcome::RelayFailed);
    assert_eq!(code, 500);
    assert!(!body.ok);
}

#[test]
fn federation_success_path_reaches_the_joined_destination() {
    let upstream = Some("https://kuma.example.com".to_string());
    let heartbeat = Heartbeat::new("OK".to_string(), HeartbeatStatus::Up, 42);
    let push_url = match plan_remote_write(&upstream, "xyz") {
        RemoteWritePlan::Relay { push_url } => push_url,
        other => panic!("expected a relay plan, got {:?}", other),
    };
    let full = RoseliteRequest::new()
        .push_request_url(&push_url, &heartbeat)
        .unwrap();
    assert_eq!(
        full,
        "https://kuma.example.com/api/push/xyz?msg=OK&status=up&ping=42"
    );
}

#[test]
fn server_options_expose_the_upstream() {
    let config = ServerConfig {
        address: "127.0.0.1:8321".to_string(),
        upstream_kuma: Some("https://kuma.example.com".to_string()),
    };
    assert_eq!(
        config.get_upstream_kuma(),
        Some("https://kuma.example.com".to_string())
    );
    let config = ServerConfig { address: "127.0.0.1:8321".to_string(), upstream_kuma: None };
    assert_eq!(config.get_upstream_kuma(), None);
}
