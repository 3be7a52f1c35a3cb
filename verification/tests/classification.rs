use roselite::classify::{
    classify_basic, classify_extended, classify_http, classify_icmp, heartbeat_from_http,
    ClassificationPolicy,
};
use roselite::heartbeat::HeartbeatStatus;

#[test]
fn basic_policy_is_up_below_400() {
    assert_eq!(classify_basic(200), HeartbeatStatus::Up);
    assert_eq!(classify_basic(308), HeartbeatStatus::Up);
    assert_eq!(classify_basic(399), HeartbeatStatus::Up);
    assert_eq!(classify_basic(0), HeartbeatStatus::Up);
    assert_eq!(classify_basic(400), HeartbeatStatus::Down);
    assert_eq!(classify_basic(404), HeartbeatStatus::Down);
    assert_eq!(classify_basic(500), HeartbeatStatus::Down);
    assert_eq!(classify_basic(503), HeartbeatStatus::Down);
}

#[test]
fn extended_policy_ranges() {
    assert_eq!(classify_extended(200, 100), HeartbeatStatus::Up);
    assert_eq!(classify_extended(308, 100), HeartbeatStatus::Up);
    assert_eq!(classify_extended(199, 100), HeartbeatStatus::Down);
    assert_eq!(classify_extended(309, 100), HeartbeatStatus::Down);
    assert_eq!(classify_extended(403, 100), HeartbeatStatus::LimitedAvailability);
    assert_eq!(classify_extended(410, 100), HeartbeatStatus::LimitedAvailability);
    assert_eq!(classify_extended(404, 100), HeartbeatStatus::Down);
    assert_eq!(classify_extended(500, 100), HeartbeatStatus::Down);
}

#[test]
fn extended_policy_latency_override_wins() {
    assert_eq!(classify_extended(200, 30001), HeartbeatStatus::DegradedPerformance);
    assert_eq!(classify_extended(500, 30001), HeartbeatStatus::DegradedPerformance);
    assert_eq!(classify_extended(403, 31000), HeartbeatStatus::DegradedPerformance);
    // The bound itself is not degraded.
    assert_eq!(classify_extended(200, 30000), HeartbeatStatus::Up);
    assert_eq!(classify_extended(403, 30000), HeartbeatStatus::LimitedAvailability);
}

#[test]
fn probe_returning_500_is_down_under_both_policies() {
    assert_eq!(
        classify_http(ClassificationPolicy::Basic, 500, 1000),
        HeartbeatStatus::Down
    );
    assert_eq!(
        classify_http(ClassificationPolicy::Extended, 500, 1000),
        HeartbeatStatus::Down
    );
}

#[test]
fn probe_returning_403_depends_on_latency_under_extended() {
    assert_eq!(
        classify_http(ClassificationPolicy::Extended, 403, 1000),
        HeartbeatStatus::LimitedAvailability
    );
    assert_eq!(
        classify_http(ClassificationPolicy::Extended, 403, 31000),
        HeartbeatStatus::DegradedPerformance
    );
}

#[test]
fn icmp_classification_ignores_policy() {
    assert_eq!(classify_icmp(true), HeartbeatStatus::Up);
    assert_eq!(classify_icmp(false), HeartbeatStatus::Down);
}

#[test]
fn http_heartbeat_carries_latency_as_ping() {
    let hb = heartbeat_from_http(ClassificationPolicy::Extended, 403, 1000);
    assert_eq!(hb.msg, "OK");
    assert_eq!(hb.status, HeartbeatStatus::LimitedAvailability);
    assert_eq!(hb.ping, 1000);

    let hb = heartbeat_from_http(ClassificationPolicy::Basic, 204, 7);
    assert_eq!(hb.status, HeartbeatStatus::Up);
    assert_eq!(hb.ping, 7);
}
