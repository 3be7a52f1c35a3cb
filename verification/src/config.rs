//! Monitor and application configuration data.
//!
//! Configuration is parsed outside the library (it is a generic
//! deserialization concern); the types here are its verified shape,
//! and the file-format dispatch on the configuration path is verified
//! logic.

use vstd::prelude::*;
use std::collections::BTreeMap;
use crate::text::str_eq;
use crate::text::str_ends_with;

verus! {

/// The kind of health check a monitor performs.
#[derive(Clone, Copy, Debug, PartialEq, Eq, Structural)]
pub enum MonitorType {
    HTTP,
    ICMP,
}

impl core::str::FromStr for MonitorType {
    type Err = ();

    fn from_str(s: &str) -> Result<Self, Self::Err> {
        if str_eq(s, "HTTP") {
            Ok(MonitorType::HTTP)
        } else if str_eq(s, "ICMP") {
            Ok(MonitorType::ICMP)
        } else {
            Err(())
        }
    }
}

/// One monitored target: what to probe and where to push the result.
#[derive(Clone, Debug)]
pub struct Monitor {
    pub monitor_type: MonitorType,
    pub push_url: String,
    pub monitor_target: String,
    pub request_headers: Option<BTreeMap<String, String>>,
    pub skip_tls_verify: Option<bool>,
}

/// Where diagnostics are reported.
#[derive(Clone, Debug)]
pub struct ErrorReporting {
    pub sentry_dsn: String,
}

/// Inbound relay server settings: where to listen, and the optional
/// upstream aggregator that inbound heartbeats are forwarded to.
#[derive(Clone, Debug)]
pub struct ServerConfig {
    pub listen_address: String,
    pub upstream_kuma: Option<String>,
}

/// Global application configuration.
#[derive(Clone, Debug)]
pub struct Configuration {
    pub error_reporting: Option<ErrorReporting>,
    pub server: Option<ServerConfig>,
    pub monitors: Vec<Monitor>,
}

/// Supported configuration file formats.
#[derive(Clone, Copy, Debug, PartialEq, Eq, Structural)]
pub enum ConfigFormat {
    Toml,
    Json,
    Yaml,
}

/// Does `s` end with the characters of `suffix`?
pub open spec fn spec_ends_with(s: Seq<char>, suffix: Seq<char>) -> bool {
    suffix.len() <= s.len() && s.skip(s.len() - suffix.len()) == suffix
}

/// File format chosen for a configuration path, decided by the path's
/// ending: `toml`, then `json` or `json5`, then `yaml` or `yml`.
pub open spec fn spec_format_for_path(path: Seq<char>) -> Option<ConfigFormat> {
    if spec_ends_with(path, "toml"@) {
        Some(ConfigFormat::Toml)
    } else if spec_ends_with(path, "json"@) || spec_ends_with(path, "json5"@) {
        Some(ConfigFormat::Json)
    } else if spec_ends_with(path, "yaml"@) || spec_ends_with(path, "yml"@) {
        Some(ConfigFormat::Yaml)
    } else {
        None
    }
}

/// Decides which parser a configuration path calls for; `None` means
/// the file type is unsupported and loading must fail.
pub fn format_for_path(path: &str) -> (r: Option<ConfigFormat>)
    ensures
        r == spec_format_for_path(path@),
{
    if str_ends_with(path, "toml") {
        Some(ConfigFormat::Toml)
    } else if str_ends_with(path, "json") || str_ends_with(path, "json5") {
        Some(ConfigFormat::Json)
    } else if str_ends_with(path, "yaml") || str_ends_with(path, "yml") {
        Some(ConfigFormat::Yaml)
    } else {
        None
    }
}

} // verus!
