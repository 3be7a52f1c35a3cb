//! Heartbeats and their status vocabulary.
//!
//! A heartbeat is the normalized result of one probe: a short message,
//! a status, and a latency in milliseconds.  The status names form the
//! wire vocabulary of the push protocol; each has a canonical lowercase
//! token.

use vstd::prelude::*;
use crate::text::str_eq;

verus! {

/// Status vocabulary of the heartbeat wire format.
///
/// `UnderMaintenance` is reserved: it is part of the wire vocabulary
/// for forward compatibility, but no classifier path produces it.
#[derive(Clone, Copy, Debug, PartialEq, Eq, Structural)]
pub enum HeartbeatStatus {
    Up,
    Down,
    DegradedPerformance,
    UnderMaintenance,
    LimitedAvailability,
}

impl HeartbeatStatus {
    /// The canonical lowercase token of this status, as characters.
    pub open spec fn token(self) -> Seq<char> {
        match self {
            HeartbeatStatus::Up => "up"@,
            HeartbeatStatus::Down => "down"@,
            HeartbeatStatus::DegradedPerformance => "degraded_performance"@,
            HeartbeatStatus::UnderMaintenance => "under_maintenance"@,
            HeartbeatStatus::LimitedAvailability => "limited_availability"@,
        }
    }

    /// Canonical lowercase token, e.g. `"degraded_performance"`.
    pub fn as_token(&self) -> (r: String)
        ensures
            r@ == self.token(),
    {
        match self {
            HeartbeatStatus::Up => "up".to_owned(),
            HeartbeatStatus::Down => "down".to_owned(),
            HeartbeatStatus::DegradedPerformance => "degraded_performance".to_owned(),
            HeartbeatStatus::UnderMaintenance => "under_maintenance".to_owned(),
            HeartbeatStatus::LimitedAvailability => "limited_availability".to_owned(),
        }
    }
}

/// The status whose canonical token is `s`, if any.
pub open spec fn spec_status_from_token(s: Seq<char>) -> Option<HeartbeatStatus> {
    if s == HeartbeatStatus::Up.token() {
        Some(HeartbeatStatus::Up)
    } else if s == HeartbeatStatus::Down.token() {
        Some(HeartbeatStatus::Down)
    } else if s == HeartbeatStatus::DegradedPerformance.token() {
        Some(HeartbeatStatus::DegradedPerformance)
    } else if s == HeartbeatStatus::UnderMaintenance.token() {
        Some(HeartbeatStatus::UnderMaintenance)
    } else if s == HeartbeatStatus::LimitedAvailability.token() {
        Some(HeartbeatStatus::LimitedAvailability)
    } else {
        None
    }
}

/// Parses a canonical status token; anything else is rejected.
pub fn status_from_token(s: &str) -> (r: Option<HeartbeatStatus>)
    ensures
        r == spec_status_from_token(s@),
{
    if str_eq(s, "up") {
        Some(HeartbeatStatus::Up)
    } else if str_eq(s, "down") {
        Some(HeartbeatStatus::Down)
    } else if str_eq(s, "degraded_performance") {
        Some(HeartbeatStatus::DegradedPerformance)
    } else if str_eq(s, "under_maintenance") {
        Some(HeartbeatStatus::UnderMaintenance)
    } else if str_eq(s, "limited_availability") {
        Some(HeartbeatStatus::LimitedAvailability)
    } else {
        None
    }
}

/// Every status token parses back to the status it came from.
pub proof fn lemma_status_token_round_trip(status: HeartbeatStatus)
    ensures
        spec_status_from_token(status.token()) == Some(status),
{
    reveal_strlit("up");
    reveal_strlit("down");
    reveal_strlit("degraded_performance");
    reveal_strlit("under_maintenance");
    reveal_strlit("limited_availability");
    assert("up"@.len() == 2);
    assert("down"@.len() == 4);
    assert("degraded_performance"@.len() == 20);
    assert("under_maintenance"@.len() == 17);
    assert("limited_availability"@.len() == 20);
    if status is LimitedAvailability {
        assert(HeartbeatStatus::LimitedAvailability.token()
            != HeartbeatStatus::DegradedPerformance.token()) by {
            assert(HeartbeatStatus::LimitedAvailability.token()[0] == 'l');
        }
    }
}

/// Normalized result of one probe, ready for relaying.
///
/// `msg` is a short human-readable note (the probes always produce
/// `"OK"`; the field is reserved for failure detail), `ping` is a
/// latency in milliseconds.
#[derive(Debug)]
pub struct Heartbeat {
    pub msg: String,
    pub status: HeartbeatStatus,
    pub ping: u128,
}

impl Heartbeat {
    /// Fresh heartbeat with the given fields.
    pub fn new(msg: String, status: HeartbeatStatus, ping: u128) -> (r: Heartbeat)
        ensures
            r.msg@ == msg@,
            r.status == status,
            r.ping == ping,
    {
        Heartbeat { msg, status, ping }
    }
}

impl Clone for Heartbeat {
    /// The copy agrees with the original on every field.
    fn clone(&self) -> (r: Self)
        ensures
            r.msg@ == self.msg@,
            r.status == self.status,
            r.ping == self.ping,
    {
        Heartbeat { msg: self.msg.clone(), status: self.status, ping: self.ping }
    }
}

impl PartialEq for Heartbeat {
    fn eq(&self, other: &Self) -> (r: bool) {
        self.msg == other.msg && self.status == other.status && self.ping == other.ping
    }
}

impl vstd::std_specs::cmp::PartialEqSpecImpl for Heartbeat {
    open spec fn obeys_eq_spec() -> bool {
        true
    }

    open spec fn eq_spec(&self, other: &Self) -> bool {
        self.msg@ == other.msg@ && self.status == other.status && self.ping == other.ping
    }
}

} // verus!
