//! Outbound relay: building the push request and judging its outcome.
//!
//! A heartbeat is delivered by a GET request against the push
//! destination with the heartbeat encoded into query parameters.  The
//! relay tolerates upstream rejection -- any answered status code
//! counts as delivered -- but a transport failure is an error for the
//! caller.

use vstd::prelude::*;
use vstd::string::StrSliceExecFns;
use vstd::string::StringExecFns;
use vstd::utf8::decode_utf8;
use vstd::utf8::encode_utf8;
use crate::codec::encode_heartbeat_query;
use crate::codec::spec_encode_query;
use crate::heartbeat::{Heartbeat, HeartbeatStatus};
use crate::text::{str_contains_char, str_starts_with};

verus! {

/// Relay failures: the destination is not a usable URL, or the
/// transport could not obtain any response.  An error-range answer
/// from the aggregator is deliberately not a relay failure.
#[derive(Clone, Copy, Debug, PartialEq, Eq, Structural)]
pub enum RelayError {
    InvalidUrl,
    Transport,
}

/// Length of the URL scheme prefix `http://` or `https://`, zero when
/// neither is present.
pub open spec fn spec_scheme_len(s: Seq<char>) -> int {
    if s.len() >= 8 && s.take(8) == "https://"@ {
        8
    } else if s.len() >= 7 && s.take(7) == "http://"@ {
        7
    } else {
        0
    }
}

/// A usable push destination: an `http` or `https` URL with a
/// non-empty host part.
pub open spec fn spec_is_http_url(s: Seq<char>) -> bool {
    spec_scheme_len(s) > 0 && s.len() > spec_scheme_len(s) && s[spec_scheme_len(s)] != '/'
}

fn scheme_len(s: &str) -> (r: usize)
    ensures
        r == spec_scheme_len(s@),
{
    proof {
        reveal_strlit("https://");
        reveal_strlit("http://");
    }
    if str_starts_with(s, "https://") {
        8
    } else if str_starts_with(s, "http://") {
        7
    } else {
        0
    }
}

/// Syntactic check that `s` can serve as a push destination.
pub fn is_http_url(s: &str) -> (r: bool)
    ensures
        r == spec_is_http_url(s@),
{
    let k = scheme_len(s);
    if k == 0 {
        return false;
    }
    let n = s.unicode_len();
    if n <= k {
        return false;
    }
    s.get_char(k) != '/'
}

/// What is put between the destination and the appended parameters: a
/// fresh `?`, a continuing `&`, or nothing after a bare trailing `?`.
pub open spec fn spec_query_separator(base: Seq<char>) -> Seq<char> {
    if base.contains('?') {
        if base.last() == '?' {
            Seq::empty()
        } else {
            "&"@
        }
    } else {
        "?"@
    }
}

fn query_separator(base: &str) -> (r: &'static str)
    requires
        base@.len() > 0,
    ensures
        r@ == spec_query_separator(base@),
{
    if str_contains_char(base, '?') {
        if base.get_char(base.unicode_len() - 1) == '?' {
            proof {
                reveal_strlit("");
                assert(""@ =~= Seq::<char>::empty());
            }
            ""
        } else {
            "&"
        }
    } else {
        "?"
    }
}

/// The full GET URL that pushes a heartbeat to `base`: the base with
/// `msg`, `status` and `ping` appended as query parameters.
pub open spec fn spec_push_request_url(
    base: Seq<char>,
    msg: Seq<char>,
    status: HeartbeatStatus,
    ping: u128,
) -> Seq<char> {
    base + spec_query_separator(base) + decode_utf8(
        spec_encode_query(encode_utf8(msg), status, ping),
    )
}

/// The relay engine: turns heartbeats into push requests and judges
/// push outcomes.  The HTTP transport itself lives outside the
/// library.
pub struct RoseliteRequest {}

impl Default for RoseliteRequest {
    fn default() -> (r: Self) {
        RoseliteRequest {  }
    }
}

impl RoseliteRequest {
    pub fn new() -> (r: Self) {
        RoseliteRequest {  }
    }

    /// Builds the URL of the push GET request for `heartbeat` against
    /// the destination `upstream_url`, rejecting destinations that
    /// are not http(s) URLs.
    pub fn push_request_url(&self, upstream_url: &str, heartbeat: &Heartbeat) -> (r: Result<
        String,
        RelayError,
    >)
        ensures
            (r is Ok) == spec_is_http_url(upstream_url@),
            r matches Ok(u) ==> u@ == spec_push_request_url(
                upstream_url@,
                heartbeat.msg@,
                heartbeat.status,
                heartbeat.ping,
            ),
            r matches Err(e) ==> e == RelayError::InvalidUrl,
    {
        if !is_http_url(upstream_url) {
            return Err(RelayError::InvalidUrl);
        }
        let query = encode_heartbeat_query(heartbeat);
        let separator = query_separator(upstream_url);
        let mut out = upstream_url.to_owned();
        out.append(separator);
        out.append(query.as_str());
        Ok(out)
    }

    /// Judges one push attempt.  `response_status` is the status code
    /// the aggregator answered, or `None` when the transport obtained
    /// no response at all.  Delivery succeeds exactly when a response
    /// was obtained: an error-range answer is logged by the caller
    /// but still counts as delivered, because the relay has no retry
    /// and must not stall the scheduler.
    pub fn interpret_push_response(&self, response_status: Option<u16>) -> (r: Result<
        (),
        RelayError,
    >)
        ensures
            (r is Ok) == (response_status is Some),
            r matches Err(e) ==> e == RelayError::Transport,
    {
        match response_status {
            Some(_) => Ok(()),
            None => Err(RelayError::Transport),
        }
    }
}

/// Is an answered status code a rejection worth logging?  True
/// exactly for error-range codes (400 and above); such an answer is
/// still a delivered push.
pub fn response_is_rejection(status_code: u16) -> (r: bool)
    ensures
        r == (status_code >= 400),
{
    status_code >= 400
}

} // verus!
