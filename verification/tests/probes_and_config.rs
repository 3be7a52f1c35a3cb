use std::str::FromStr;

use roselite::config::{format_for_path, ConfigFormat, Monitor, MonitorType};
use roselite::heartbeat::HeartbeatStatus;
use roselite::probe::{BonkCaller, IcmpCaller, PingReply, RequestCaller};
use roselite::schedule::sleep_seconds;

fn sample_monitor() -> Monitor {
    Monitor {
        monitor_type: MonitorType::HTTP,
        push_url: "https://your-uptime-kuma.com/api/push/Eq15E23yc3".to_string(),
        monitor_target: "https://github.com/healthz".to_string(),
        request_headers: None,
        skip_tls_verify: None,
    }
}

#[test]
fn bonk_caller_reports_a_fixed_healthy_outcome() {
    let caller = BonkCaller::new();
    let hb = caller.call(sample_monitor()).unwrap();
    assert_eq!(hb.msg, "OK");
    assert_eq!(hb.status, HeartbeatStatus::Up);
    assert_eq!(hb.ping, 0);
}

#[test]
fn icmp_replies_fold_by_most_recent() {
    let caller = IcmpCaller::new();

    let hb = caller.heartbeat_from_replies(&vec![]);
    assert_eq!(hb.status, HeartbeatStatus::Up);
    assert_eq!(hb.ping, 0);

    let hb = caller.heartbeat_from_replies(&vec![
        PingReply::Receive { rtt_ms: 5 },
        PingReply::Idle,
        PingReply::Idle,
        PingReply::Receive { rtt_ms: 7 },
    ]);
    assert_eq!(hb.status, HeartbeatStatus::Up);
    assert_eq!(hb.ping, 7);

    let hb = caller.heartbeat_from_replies(&vec![
        PingReply::Receive { rtt_ms: 5 },
        PingReply::Idle,
    ]);
    assert_eq!(hb.status, HeartbeatStatus::Down);
    assert_eq!(hb.ping, 5);

    let hb = caller.heartbeat_from_replies(&vec![
        PingReply::Idle,
        PingReply::Idle,
        PingReply::Idle,
        PingReply::Idle,
    ]);
    assert_eq!(hb.status, HeartbeatStatus::Down);
    assert_eq!(hb.ping, 0);
}

#[test]
fn monitor_type_parses_exact_tokens_only() {
    assert_eq!(MonitorType::from_str("HTTP"), Ok(MonitorType::HTTP));
    assert_eq!(MonitorType::from_str("ICMP"), Ok(MonitorType::ICMP));
    assert_eq!(MonitorType::from_str("http"), Err(()));
    assert_eq!(MonitorType::from_str(""), Err(()));
}

#[test]
fn configuration_format_follows_the_path_ending() {
    assert_eq!(format_for_path("conf.toml"), Some(ConfigFormat::Toml));
    assert_eq!(format_for_path("conf.json"), Some(ConfigFormat::Json));
    assert_eq!(format_for_path("conf.json5"), Some(ConfigFormat::Json));
    assert_eq!(format_for_path("conf.yaml"), Some(ConfigFormat::Yaml));
    assert_eq!(format_for_path("conf.yml"), Some(ConfigFormat::Yaml));
    assert_eq!(format_for_path("conf.ini"), None);
    assert_eq!(format_for_path(""), None);
}

#[test]
fn sleep_never_underflows() {
    assert_eq!(sleep_seconds(0), 60);
    assert_eq!(sleep_seconds(1), 59);
    assert_eq!(sleep_seconds(59), 1);
    assert_eq!(sleep_seconds(60), 0);
    assert_eq!(sleep_seconds(61), 0);
    assert_eq!(sleep_seconds(u64::MAX), 0);
}
