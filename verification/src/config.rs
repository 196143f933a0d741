//! The server's configuration.

use vstd::prelude::*;
use vstd::string::*;
use vstd::utf8::encode_utf8;
use crate::text::{parse_bounded, parse_number};

verus! {

/// The connection limit that is used where none is configured.
pub const DEFAULT_MAX_CONNECTIONS: usize = 1000;

/// The time limit, in seconds, that is used where none is configured.
pub const DEFAULT_TIMEOUT_SECS: u64 = 30;

/// What the server is started with. It is made once and only read afterwards.
#[derive(Debug, Clone)]
pub struct ServerConfig {
    /// The port to listen on.
    pub port: String,
    /// How many connections may be handled at the same time.
    pub max_connections: usize,
    /// The limit on each read from and write to a connection, in seconds.
    pub connection_timeout_secs: u64,
    /// The directory that the `files` route reads from and writes to.
    pub base_dir: String,
}

/// The number that a setting gives: the number that its text spells, or
/// `default` where the setting is absent, is not a number, or is larger than
/// `max`.
pub open spec fn setting_value(setting: Option<String>, max: nat, default: nat) -> nat {
    match setting {
        Some(text) => match parse_bounded(encode_utf8(text@), max) {
            Some(n) => n,
            None => default,
        },
        None => default,
    }
}

/// The text that a setting gives: its own, or `default` where it is absent.
pub open spec fn setting_text(setting: Option<String>, default: Seq<char>) -> Seq<char> {
    match setting {
        Some(text) => text@,
        None => default,
    }
}

/// Reads a numeric setting.
fn number_setting(setting: &Option<String>, max: u64, default: u64) -> (n: u64)
    requires
        default <= max,
    ensures
        n == setting_value(*setting, max as nat, default as nat),
        n <= max,
{
    match setting {
        Some(text) => match parse_number(text.as_str().as_bytes(), max) {
            Some(n) => n,
            None => default,
        },
        None => default,
    }
}

impl Default for ServerConfig {
    /// Port 4221, a thousand connections, thirty seconds, and the current
    /// directory.
    fn default() -> (out: Self)
        ensures
            out.port@ == "4221"@,
            out.max_connections == DEFAULT_MAX_CONNECTIONS,
            out.connection_timeout_secs == DEFAULT_TIMEOUT_SECS,
            out.base_dir@ == "./"@,
    {
        ServerConfig {
            port: String::from_str("4221"),
            max_connections: DEFAULT_MAX_CONNECTIONS,
            connection_timeout_secs: DEFAULT_TIMEOUT_SECS,
            base_dir: String::from_str("./"),
        }
    }
}

impl ServerConfig {
    /// The configuration that the given settings describe. Each setting is
    /// the text found for it, if any; one that is absent or, for a number,
    /// unreadable gives way to its default.
    pub fn from_settings(
        port: Option<String>,
        max_connections: Option<String>,
        timeout_secs: Option<String>,
        base_dir: Option<String>,
    ) -> (out: Self)
        ensures
            out.port@ == setting_text(port, "4221"@),
            out.max_connections == setting_value(
                max_connections,
                usize::MAX as nat,
                DEFAULT_MAX_CONNECTIONS as nat,
            ),
            out.connection_timeout_secs == setting_value(
                timeout_secs,
                u64::MAX as nat,
                DEFAULT_TIMEOUT_SECS as nat,
            ),
            out.base_dir@ == setting_text(base_dir, "./"@),
    {
        let limit = number_setting(
            &max_connections,
            usize::MAX as u64,
            DEFAULT_MAX_CONNECTIONS as u64,
        );
        let timeout = number_setting(&timeout_secs, u64::MAX, DEFAULT_TIMEOUT_SECS);
        ServerConfig {
            port: match port {
                Some(text) => text,
                None => String::from_str("4221"),
            },
            max_connections: limit as usize,
            connection_timeout_secs: timeout,
            base_dir: match base_dir {
                Some(text) => text,
                None => String::from_str("./"),
            },
        }
    }
}

} // verus!
