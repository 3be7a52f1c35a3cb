use roselite::codec::{decode_heartbeat_query, encode_heartbeat_query};
use roselite::heartbeat::{status_from_token, Heartbeat, HeartbeatStatus};

#[test]
fn status_tokens_are_canonical() {
    assert_eq!(HeartbeatStatus::Up.as_token(), "up");
    assert_eq!(HeartbeatStatus::Down.as_token(), "down");
    assert_eq!(
        HeartbeatStatus::DegradedPerformance.as_token(),
        "degraded_performance"
    );
    assert_eq!(
        HeartbeatStatus::UnderMaintenance.as_token(),
        "under_maintenance"
    );
    assert_eq!(
        HeartbeatStatus::LimitedAvailability.as_token(),
        "limited_availability"
    );
}

#[test]
fn status_tokens_parse_back() {
    for status in [
        HeartbeatStatus::Up,
        HeartbeatStatus::Down,
        HeartbeatStatus::DegradedPerformance,
        HeartbeatStatus::UnderMaintenance,
        HeartbeatStatus::LimitedAvailability,
    ] {
        assert_eq!(status_from_token(&status.as_token()), Some(status));
    }
    assert_eq!(status_from_token("UP"), None);
    assert_eq!(status_from_token("unknown"), None);
    assert_eq!(status_from_token(""), None);
}

#[test]
fn encodes_simple_heartbeat() {
    let hb = Heartbeat::new("OK".to_string(), HeartbeatStatus::Up, 42);
    assert_eq!(encode_heartbeat_query(&hb), "msg=OK&status=up&ping=42");
}

#[test]
fn encodes_statuses_and_large_pings() {
    let hb = Heartbeat::new(
        "OK".to_string(),
        HeartbeatStatus::DegradedPerformance,
        340282366920938463463374607431768211455,
    );
    assert_eq!(
        encode_heartbeat_query(&hb),
        "msg=OK&status=degraded_performance&ping=340282366920938463463374607431768211455"
    );
}

#[test]
fn encodes_message_with_reserved_characters() {
    let hb = Heartbeat::new("service down & out".to_string(), HeartbeatStatus::Down, 0);
    assert_eq!(
        encode_heartbeat_query(&hb),
        "msg=service+down+%26+out&status=down&ping=0"
    );
}

#[test]
fn encodes_non_ascii_message_as_utf8_escapes() {
    let hb = Heartbeat::new("härlig".to_string(), HeartbeatStatus::Up, 1);
    assert_eq!(
        encode_heartbeat_query(&hb),
        "msg=h%C3%A4rlig&status=up&ping=1"
    );
}

#[test]
fn heartbeat_round_trip() {
    let hb = Heartbeat::new("OK".to_string(), HeartbeatStatus::Up, 42);
    let decoded = decode_heartbeat_query(&encode_heartbeat_query(&hb)).unwrap();
    assert_eq!(decoded.msg, "OK");
    assert_eq!(decoded.status, HeartbeatStatus::Up);
    assert_eq!(decoded.ping, 42);
    assert_eq!(decoded, hb);
}

#[test]
fn heartbeat_round_trip_exotic_message() {
    let hb = Heartbeat::new(
        "åtta läget? 100% =&+".to_string(),
        HeartbeatStatus::LimitedAvailability,
        987654321,
    );
    let decoded = decode_heartbeat_query(&encode_heartbeat_query(&hb)).unwrap();
    assert_eq!(decoded, hb);
}

#[test]
fn decodes_plain_query() {
    let decoded = decode_heartbeat_query("msg=OK&status=up&ping=42").unwrap();
    assert_eq!(decoded.msg, "OK");
    assert_eq!(decoded.status, HeartbeatStatus::Up);
    assert_eq!(decoded.ping, 42);
}

#[test]
fn decodes_escaped_values() {
    let decoded = decode_heartbeat_query("msg=a+b%21&status=%75p&ping=7").unwrap();
    assert_eq!(decoded.msg, "a b!");
    assert_eq!(decoded.status, HeartbeatStatus::Up);
    assert_eq!(decoded.ping, 7);
}

#[test]
fn rejects_malformed_queries() {
    assert!(decode_heartbeat_query("").is_none());
    assert!(decode_heartbeat_query("msg=OK").is_none());
    assert!(decode_heartbeat_query("msg=OK&status=up").is_none());
    assert!(decode_heartbeat_query("status=up&msg=OK&ping=42").is_none());
    assert!(decode_heartbeat_query("msg=OK&status=sideways&ping=42").is_none());
    assert!(decode_heartbeat_query("msg=OK&status=up&ping=").is_none());
    assert!(decode_heartbeat_query("msg=OK&status=up&ping=4x2").is_none());
    assert!(decode_heartbeat_query("msg=OK&status=up&ping=-1").is_none());
    assert!(decode_heartbeat_query("msg=OK&status=up&ping=42&extra=1").is_none());
    assert!(decode_heartbeat_query("msg=%zz&status=up&ping=42").is_none());
    assert!(decode_heartbeat_query("msg=%2&status=up&ping=42").is_none());
}

#[test]
fn rejects_ping_overflow_but_takes_the_maximum() {
    assert!(decode_heartbeat_query(
        "msg=OK&status=up&ping=340282366920938463463374607431768211456"
    )
    .is_none());
    let decoded = decode_heartbeat_query(
        "msg=OK&status=up&ping=340282366920938463463374607431768211455",
    )
    .unwrap();
    assert_eq!(decoded.ping, u128::MAX);
}

#[test]
fn accepts_raw_equals_inside_a_value() {
    let decoded = decode_heartbeat_query("msg=a=b&status=up&ping=1").unwrap();
    assert_eq!(decoded.msg, "a=b");
}

#[test]
fn rejects_invalid_utf8_in_message() {
    assert!(decode_heartbeat_query("msg=%ff%fe&status=up&ping=1").is_none());
}
