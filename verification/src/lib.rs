//! Active health-check relay.
//!
//! The library is the verified core of a push-style uptime relay: it
//! classifies probe outcomes into heartbeat statuses, encodes heartbeats
//! into the query-string wire format of an Uptime-Kuma-style aggregator,
//! decodes inbound heartbeats on the federation path, builds push
//! destination URLs, and makes the per-tick scheduling and server-side
//! relay decisions.  Transports (HTTP, ICMP, the listening socket) live
//! outside the library and hand it plain values.

pub mod classify;
pub mod codec;
pub mod config;
pub mod heartbeat;
pub mod probe;
pub mod request;
pub mod schedule;
pub mod server;
pub mod text;
