//! Inbound relay endpoint decisions.
//!
//! The federation route accepts an externally computed heartbeat and
//! forwards it to the configured upstream aggregator.  The listening
//! socket and routing live outside the library; the decisions -- when
//! to refuse, where to relay, and what to answer -- are verified
//! here.

use vstd::prelude::*;
use vstd::string::StrSliceExecFns;
use vstd::string::StringExecFns;
use vstd::utf8::decode_utf8;
use vstd::utf8::encode_utf8;
use crate::codec::spec_encode_query;
use crate::heartbeat::HeartbeatStatus;
use crate::request::{
    is_http_url,
    spec_is_http_url,
    spec_push_request_url,
    spec_query_separator,
    RelayError,
};

verus! {

/// Inbound relay server settings.
#[derive(Clone, Debug)]
pub struct ServerConfig {
    pub address: String,
    pub upstream_kuma: Option<String>,
}

/// What the inbound endpoint needs to know of its configuration.
pub trait ServerOptions {
    /// The configured upstream base URL, as characters.
    spec fn upstream_kuma_view(&self) -> Option<Seq<char>>;

    /// The configured upstream base URL, if any.
    fn get_upstream_kuma(&self) -> (r: Option<String>)
        ensures
            r.deep_view() == self.upstream_kuma_view(),
    ;
}

impl ServerOptions for ServerConfig {
    open spec fn upstream_kuma_view(&self) -> Option<Seq<char>> {
        match self.upstream_kuma {
            Some(u) => Some(u@),
            None => None,
        }
    }

    fn get_upstream_kuma(&self) -> (r: Option<String>)
        ensures
            r.deep_view() == self.upstream_kuma_view(),
    {
        match &self.upstream_kuma {
            Some(u) => Some(u.clone()),
            None => None,
        }
    }
}

/// Body of every answer of the federation route.
#[derive(Clone, Copy, Debug, PartialEq, Eq, Structural)]
pub struct RemoteWriteResponse {
    pub ok: bool,
}

/// Length of `base` without its trailing `/` characters.
pub open spec fn spec_trimmed_len(s: Seq<char>) -> int
    decreases s.len(),
{
    if s.len() > 0 && s.last() == '/' {
        spec_trimmed_len(s.drop_last())
    } else {
        s.len() as int
    }
}

/// The push destination for inbound id `id`: the upstream base
/// without trailing slashes, then `/api/push/`, then the id.  A pure
/// join that keeps whatever base path the upstream has.
pub open spec fn spec_joined_push_url(base: Seq<char>, id: Seq<char>) -> Seq<char> {
    base.take(spec_trimmed_len(base)) + "/api/push/"@ + id
}

/// Joins the upstream base URL and an inbound id into the push
/// destination, rejecting bases that are not http(s) URLs.
pub fn convert_to_upstream(upstream_url: String, id: String) -> (r: Result<String, RelayError>)
    ensures
        (r is Ok) == spec_is_http_url(upstream_url@),
        r matches Ok(u) ==> u@ == spec_joined_push_url(upstream_url@, id@),
        r matches Err(e) ==> e == RelayError::InvalidUrl,
{
    if !is_http_url(upstream_url.as_str()) {
        return Err(RelayError::InvalidUrl);
    }
    let base = upstream_url.as_str();
    let n = base.unicode_len();
    let mut k = n;
    proof {
        assert(base@.take(n as int) =~= base@);
    }
    while k > 0 && base.get_char(k - 1) == '/'
        invariant
            0 <= k <= n,
            n == base@.len(),
            spec_trimmed_len(base@) == spec_trimmed_len(base@.take(k as int)),
        decreases k,
    {
        proof {
            assert(base@.take(k as int).drop_last() =~= base@.take(k - 1));
            assert(base@.take(k as int).last() == base@[k - 1]);
        }
        k = k - 1;
    }
    proof {
        if k > 0 {
            assert(base@.take(k as int).last() == base@[k - 1]);
        }
        assert(spec_trimmed_len(base@.take(k as int)) == k);
    }
    let prefix = base.substring_char(0, k);
    let mut out = prefix.to_owned();
    out.append("/api/push/");
    out.append(id.as_str());
    proof {
        assert(base@.subrange(0, k as int) =~= base@.take(k as int));
    }
    Ok(out)
}

/// What the federation route must do for one inbound request.
#[derive(Debug)]
pub enum RemoteWritePlan {
    /// No upstream configured: refuse with 412, relay nothing.
    RejectNoUpstream,
    /// An upstream is configured but unusable: refuse with 500.
    RejectBadUpstream,
    /// Forward the heartbeat to this push destination.
    Relay { push_url: String },
}

/// Decides the federation route's action for inbound id `id`: refuse
/// when no upstream is configured (fails closed) or when the
/// configured upstream is unusable, otherwise relay to the joined
/// push destination.
pub fn plan_remote_write(upstream_kuma: &Option<String>, id: &str) -> (r: RemoteWritePlan)
    ensures
        (r is RejectNoUpstream) == (upstream_kuma is None),
        (upstream_kuma matches Some(u) && spec_is_http_url(u@)) ==> (r matches RemoteWritePlan::Relay {
            push_url,
        } && push_url@ == spec_joined_push_url(upstream_kuma->0@, id@)),
        (upstream_kuma matches Some(u) && !spec_is_http_url(u@)) ==> r is RejectBadUpstream,
{
    match upstream_kuma {
        None => RemoteWritePlan::RejectNoUpstream,
        Some(u) => match convert_to_upstream(u.clone(), id.to_owned()) {
            Ok(push_url) => RemoteWritePlan::Relay { push_url },
            Err(_) => RemoteWritePlan::RejectBadUpstream,
        },
    }
}

/// How one inbound federation request ended.
#[derive(Clone, Copy, Debug, PartialEq, Eq, Structural)]
pub enum RemoteWriteOutcome {
    /// Refused: no upstream configured.
    NoUpstream,
    /// Refused: the configured upstream is not a usable URL.
    BadUpstream,
    /// The relay transport obtained no response.
    RelayFailed,
    /// The push was delivered (whatever the aggregator answered).
    Relayed,
}

/// The HTTP status code and body answered for each outcome:
/// precondition-failed with `{ok:false}` exactly when no upstream is
/// configured, OK with `{ok:true}` exactly when the push was
/// delivered, internal-server-error with `{ok:false}` otherwise.
pub fn remote_write_response(outcome: RemoteWriteOutcome) -> (r: (u16, RemoteWriteResponse))
    ensures
        r.0 == match outcome {
            RemoteWriteOutcome::NoUpstream => 412u16,
            RemoteWriteOutcome::BadUpstream => 500u16,
            RemoteWriteOutcome::RelayFailed => 500u16,
            RemoteWriteOutcome::Relayed => 200u16,
        },
        r.1.ok == (outcome is Relayed),
{
    match outcome {
        RemoteWriteOutcome::NoUpstream => (412, RemoteWriteResponse { ok: false }),
        RemoteWriteOutcome::BadUpstream => (500, RemoteWriteResponse { ok: false }),
        RemoteWriteOutcome::RelayFailed => (500, RemoteWriteResponse { ok: false }),
        RemoteWriteOutcome::Relayed => (200, RemoteWriteResponse { ok: true }),
    }
}

/// The federation success path, spelled out: when the upstream base
/// and the id hold no `?`, the push request built against the joined
/// destination is exactly the upstream base (trailing slashes
/// trimmed), `/api/push/`, the id, a `?`, and the encoded heartbeat
/// parameters.
pub proof fn lemma_federation_push_destination(
    upstream: Seq<char>,
    id: Seq<char>,
    msg: Seq<char>,
    status: HeartbeatStatus,
    ping: u128,
)
    requires
        !upstream.contains('?'),
        !id.contains('?'),
    ensures
        spec_push_request_url(spec_joined_push_url(upstream, id), msg, status, ping)
            == upstream.take(spec_trimmed_len(upstream)) + "/api/push/"@ + id + "?"@ + decode_utf8(
            spec_encode_query(encode_utf8(msg), status, ping),
        ),
{
    let joined = spec_joined_push_url(upstream, id);
    let trimmed = upstream.take(spec_trimmed_len(upstream));
    lemma_trimmed_len_bounds(upstream);
    reveal_strlit("/api/push/");
    reveal_strlit("?");
    assert(!joined.contains('?')) by {
        assert(forall|i: int|
            0 <= i < trimmed.len() ==> trimmed[i] == upstream[i] && #[trigger] joined[i]
                == upstream[i]);
        assert(forall|i: int|
            0 <= i < 10 ==> #[trigger] joined[trimmed.len() + i] == "/api/push/"@[i]);
        assert(forall|i: int|
            0 <= i < id.len() ==> #[trigger] joined[trimmed.len() + 10 + i] == id[i]);
        if joined.contains('?') {
            let w = choose|w: int| 0 <= w < joined.len() && joined[w] == '?';
            if w < trimmed.len() {
                assert(upstream.contains('?'));
            } else if w < trimmed.len() + 10 {
                assert("/api/push/"@[w - trimmed.len()] == '?');
            } else {
                assert(id[w - trimmed.len() - 10] == '?');
                assert(id.contains(id[w - trimmed.len() - 10]));
            }
        }
    }
    assert(spec_query_separator(joined) == "?"@);
    assert(joined + "?"@ + decode_utf8(spec_encode_query(encode_utf8(msg), status, ping)) =~= trimmed
        + "/api/push/"@ + id + "?"@ + decode_utf8(spec_encode_query(encode_utf8(msg), status, ping)));
}

/// The trimmed length never exceeds the length.
pub proof fn lemma_trimmed_len_bounds(s: Seq<char>)
    ensures
        0 <= spec_trimmed_len(s) <= s.len(),
    decreases s.len(),
{
    if s.len() > 0 && s.last() == '/' {
        lemma_trimmed_len_bounds(s.drop_last());
    }
}

} // verus!
