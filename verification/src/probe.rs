//! Probe capabilities.
//!
//! A probe performs one health check against a monitor's target and
//! yields a heartbeat.  The stub probe is pure and verified here; the
//! HTTP and ICMP transports live outside the library and feed their
//! raw observations into the verified classification functions.

use vstd::prelude::*;
use crate::config::Monitor;
use crate::heartbeat::{Heartbeat, HeartbeatStatus};

verus! {

/// Failure of a probe transport (connection refused, resolution
/// failure, hard ICMP channel error).  A ping that merely timed out is
/// not a transport failure.
#[derive(Debug, Clone)]
pub struct ProbeError {
    pub message: String,
}

/// One health-check capability: performs a single probe of `monitor`'s
/// target and reports the outcome as a heartbeat.
pub trait RequestCaller {
    fn call(&self, monitor: Monitor) -> Result<Heartbeat, ProbeError>;
}

/// Stub probe: reports a fixed healthy outcome without touching the
/// network.  Used only for default wiring, never for real monitoring.
#[derive(Clone, Debug)]
pub struct BonkCaller {}

impl BonkCaller {
    pub fn new() -> (r: Self) {
        BonkCaller {  }
    }
}

impl Default for BonkCaller {
    fn default() -> (r: Self) {
        BonkCaller::new()
    }
}

impl RequestCaller for BonkCaller {
    /// Always succeeds with the fixed outcome "OK, up, 0 ms".
    fn call(&self, monitor: Monitor) -> (r: Result<Heartbeat, ProbeError>)
        ensures
            r matches Ok(hb) && hb.msg@ == "OK"@ && hb.status == HeartbeatStatus::Up && hb.ping
                == 0,
    {
        Ok(Heartbeat { msg: "OK".to_owned(), status: HeartbeatStatus::Up, ping: 0 })
    }
}

/// What one echo request of an ICMP probe observed.
#[derive(Clone, Copy, Debug, PartialEq, Eq, Structural)]
pub enum PingReply {
    /// No reply before the timeout.
    Idle,
    /// A reply after `rtt_ms` milliseconds.
    Receive { rtt_ms: u128 },
}

/// Whether a reply sequence counts as reachable: vacuously true when
/// nothing was observed, otherwise decided by the most recent reply.
pub open spec fn spec_reachable(replies: Seq<PingReply>) -> bool {
    replies.len() == 0 || replies.last() is Receive
}

/// Round-trip time of the most recent received reply, zero if none.
pub open spec fn spec_last_rtt(replies: Seq<PingReply>) -> u128
    decreases replies.len(),
{
    if replies.len() == 0 {
        0
    } else {
        match replies.last() {
            PingReply::Receive { rtt_ms } => rtt_ms,
            PingReply::Idle => spec_last_rtt(replies.drop_last()),
        }
    }
}

/// ICMP probe capability.  The echo transport lives outside the
/// library; the folding of its replies into a heartbeat is verified
/// here.
#[derive(Clone, Debug)]
pub struct IcmpCaller {}

impl IcmpCaller {
    pub fn new() -> (r: Self) {
        IcmpCaller {  }
    }

    /// Folds the replies of one probe (one per echo request, in send
    /// order) into a heartbeat: up exactly when the most recent
    /// request got a reply, with the ping taken from the most recent
    /// reply.
    pub fn heartbeat_from_replies(&self, replies: &Vec<PingReply>) -> (hb: Heartbeat)
        ensures
            hb.msg@ == "OK"@,
            hb.status == if spec_reachable(replies@) {
                HeartbeatStatus::Up
            } else {
                HeartbeatStatus::Down
            },
            hb.ping == spec_last_rtt(replies@),
    {
        let mut ok = true;
        let mut ping_ms: u128 = 0;
        let mut i: usize = 0;
        while i < replies.len()
            invariant
                0 <= i <= replies@.len(),
                ok == spec_reachable(replies@.take(i as int)),
                ping_ms == spec_last_rtt(replies@.take(i as int)),
            decreases replies@.len() - i,
        {
            proof {
                assert(replies@.take(i + 1).drop_last() =~= replies@.take(i as int));
                assert(replies@.take(i + 1).last() == replies@[i as int]);
            }
            match replies[i] {
                PingReply::Idle => {
                    ok = false;
                },
                PingReply::Receive { rtt_ms } => {
                    ok = true;
                    ping_ms = rtt_ms;
                },
            }
            i += 1;
        }
        proof {
            assert(replies@.take(replies@.len() as int) =~= replies@);
        }
        Heartbeat {
            msg: "OK".to_owned(),
            status: if ok {
                HeartbeatStatus::Up
            } else {
                HeartbeatStatus::Down
            },
            ping: ping_ms,
        }
    }
}

} // verus!
