//! Classification of raw probe outcomes into heartbeat statuses.
//!
//! HTTP outcomes are classified under one of two policies, chosen once
//! at startup and applied to every HTTP target.  ICMP outcomes ignore
//! the HTTP policy entirely: a reply means up, no reply means down.

use vstd::prelude::*;
use crate::heartbeat::{Heartbeat, HeartbeatStatus};

verus! {

/// Latency bound of the extended policy: above this many milliseconds
/// the target counts as degraded no matter what it answered.
pub const DEGRADED_LATENCY_MS: u128 = 30000;

/// The two supported HTTP classification rule sets.
#[derive(Clone, Copy, Debug, PartialEq, Eq, Structural)]
pub enum ClassificationPolicy {
    /// Any status code below 400 is up, everything else is down.
    Basic,
    /// Distinguishes limited availability and degraded performance,
    /// see `spec_classify_extended`.
    Extended,
}

/// Basic policy: up exactly on status codes below 400.
pub open spec fn spec_classify_basic(status_code: u16) -> HeartbeatStatus {
    if status_code < 400 {
        HeartbeatStatus::Up
    } else {
        HeartbeatStatus::Down
    }
}

/// Extended policy.  A latency above `DEGRADED_LATENCY_MS` always wins
/// and yields `DegradedPerformance`; otherwise codes in `[200, 308]`
/// are up, 403 and 410 are limited availability, and everything else
/// is down.
pub open spec fn spec_classify_extended(status_code: u16, latency_ms: u128) -> HeartbeatStatus {
    if latency_ms > DEGRADED_LATENCY_MS {
        HeartbeatStatus::DegradedPerformance
    } else if 200 <= status_code <= 308 {
        HeartbeatStatus::Up
    } else if status_code == 403 || status_code == 410 {
        HeartbeatStatus::LimitedAvailability
    } else {
        HeartbeatStatus::Down
    }
}

/// The selected policy applied to one HTTP outcome.
pub open spec fn spec_classify_http(
    policy: ClassificationPolicy,
    status_code: u16,
    latency_ms: u128,
) -> HeartbeatStatus {
    match policy {
        ClassificationPolicy::Basic => spec_classify_basic(status_code),
        ClassificationPolicy::Extended => spec_classify_extended(status_code, latency_ms),
    }
}

/// Classifies one HTTP status code under the basic policy.
///
/// For every latency and status code, the result is `Up` if and only
/// if the code is below 400, and `Down` otherwise.
pub fn classify_basic(status_code: u16) -> (r: HeartbeatStatus)
    ensures
        r == spec_classify_basic(status_code),
        (r == HeartbeatStatus::Up) <==> status_code < 400,
        r == HeartbeatStatus::Up || r == HeartbeatStatus::Down,
{
    if status_code < 400 {
        HeartbeatStatus::Up
    } else {
        HeartbeatStatus::Down
    }
}

/// Classifies one HTTP outcome under the extended policy.
///
/// A latency above `DEGRADED_LATENCY_MS` yields `DegradedPerformance`
/// whatever the status code was; below that bound, codes in
/// `[200, 308]` are `Up`, 403 and 410 are `LimitedAvailability`, and
/// any other code is `Down`.
pub fn classify_extended(status_code: u16, latency_ms: u128) -> (r: HeartbeatStatus)
    ensures
        r == spec_classify_extended(status_code, latency_ms),
        latency_ms > DEGRADED_LATENCY_MS ==> r == HeartbeatStatus::DegradedPerformance,
        latency_ms <= DEGRADED_LATENCY_MS ==> {
            &&& (r == HeartbeatStatus::Up) <==> (200 <= status_code <= 308)
            &&& (r == HeartbeatStatus::LimitedAvailability) <==> (status_code == 403
                || status_code == 410)
            &&& (r == HeartbeatStatus::Down) <==> (!(200 <= status_code <= 308) && status_code
                != 403 && status_code != 410)
        },
{
    let mut status = if 200 <= status_code && status_code <= 308 {
        HeartbeatStatus::Up
    } else if status_code == 403 || status_code == 410 {
        HeartbeatStatus::LimitedAvailability
    } else {
        HeartbeatStatus::Down
    };
    if latency_ms > DEGRADED_LATENCY_MS {
        status = HeartbeatStatus::DegradedPerformance;
    }
    status
}

/// Classifies one HTTP outcome under the selected policy.
pub fn classify_http(
    policy: ClassificationPolicy,
    status_code: u16,
    latency_ms: u128,
) -> (r: HeartbeatStatus)
    ensures
        r == spec_classify_http(policy, status_code, latency_ms),
{
    match policy {
        ClassificationPolicy::Basic => classify_basic(status_code),
        ClassificationPolicy::Extended => classify_extended(status_code, latency_ms),
    }
}

/// Classifies one ICMP outcome: a received reply is up, none is down.
pub fn classify_icmp(reply_received: bool) -> (r: HeartbeatStatus)
    ensures
        r == if reply_received {
            HeartbeatStatus::Up
        } else {
            HeartbeatStatus::Down
        },
{
    if reply_received {
        HeartbeatStatus::Up
    } else {
        HeartbeatStatus::Down
    }
}

/// The heartbeat for one HTTP probe outcome: message `"OK"`, the
/// classified status, and the observed latency as the ping.
pub fn heartbeat_from_http(
    policy: ClassificationPolicy,
    status_code: u16,
    latency_ms: u128,
) -> (hb: Heartbeat)
    ensures
        hb.msg@ == "OK"@,
        hb.status == spec_classify_http(policy, status_code, latency_ms),
        hb.ping == latency_ms,
{
    Heartbeat {
        msg: "OK".to_owned(),
        status: classify_http(policy, status_code, latency_ms),
        ping: latency_ms,
    }
}

} // verus!
