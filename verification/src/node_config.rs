//! The settings of a node, from its environment.
use vstd::prelude::*;

use crate::crypto::KekSource;
use crate::text::{chars_of, number, parse_number, same_text};

verus! {

/// The environment variables that a node reads; nothing where one is unset.
#[derive(Debug)]
pub struct NodeEnv {
    pub at_rest_enc: Option<String>,
    pub node_fsync: Option<String>,
    pub flush_interval_ms: Option<String>,
    pub wal_compact_interval_secs: Option<String>,
    pub wal_compact_min_bytes: Option<String>,
    pub kek_source: Option<String>,
    pub kek_path: Option<String>,
    pub kek_hex: Option<String>,
    pub keyring_path: Option<String>,
}

/// The settings of a node.
#[derive(Debug)]
pub struct NodeConfig {
    /// Whether shards are sealed.
    pub at_rest_encryption: bool,
    /// Whether a sync forces the log to disk.
    pub fsync_on_write: bool,
    /// How often the log is flushed; at least 1.
    pub flush_interval_ms: u64,
    /// How long after a compaction the next one is due; 0 for never.
    pub wal_compact_interval_secs: u64,
    /// How long the log must be for a compaction.
    pub wal_compact_min_bytes: u64,
    /// Where the wrapping key comes from.
    pub kek_source: KekSource,
    /// Where the ring is kept, unless in its usual place.
    pub keyring_path: Option<String>,
}

/// The text of a variable; empty where it is unset.
pub open spec fn text_or_empty(v: Option<String>) -> Seq<char> {
    match v {
        Some(s) => s@,
        None => Seq::empty(),
    }
}

/// The number that a variable spells, or the default.
pub open spec fn number_or(v: Option<String>, default: u64) -> u64 {
    match v {
        Some(s) => match number(s@, u64::MAX as nat) {
            Some(n) => n as u64,
            None => default,
        },
        None => default,
    }
}

/// Whether a variable switches something on.
pub open spec fn says_yes(v: Option<String>) -> bool {
    v matches Some(s) && (s@ == "1"@ || s@ == "true"@ || s@ == "yes"@)
}

/// Whether a variable switches something off.
pub open spec fn says_no(v: Option<String>) -> bool {
    v matches Some(s) && (s@ == "0"@ || s@ == "false"@ || s@ == "no"@)
}

/// The number that a variable spells, or the default.
pub fn env_number(v: &Option<String>, default: u64) -> (r: u64)
    ensures
        r == number_or(*v, default),
{
    match v {
        Some(s) => {
            let c = chars_of(s.as_str());
            match parse_number(c.as_slice(), u64::MAX) {
                Some(n) => n,
                None => default,
            }
        },
        None => default,
    }
}

/// The text of a variable; empty where it is unset.
fn env_text(v: &Option<String>) -> (r: String)
    ensures
        r@ == text_or_empty(*v),
{
    match v {
        Some(s) => s.clone(),
        None => String::new(),
    }
}

impl NodeConfig {
    /// The settings that an environment gives.
    pub fn from_env(env: &NodeEnv) -> (r: NodeConfig)
        ensures
            r.at_rest_encryption == says_yes(env.at_rest_enc),
            r.fsync_on_write == !says_no(env.node_fsync),
            r.flush_interval_ms == if number_or(env.flush_interval_ms, 5) < 1 {
                1
            } else {
                number_or(env.flush_interval_ms, 5)
            },
            r.wal_compact_interval_secs == number_or(env.wal_compact_interval_secs, 300),
            r.wal_compact_min_bytes == number_or(env.wal_compact_min_bytes, 4194304),
            match r.kek_source {
                KekSource::File(p) => text_or_empty(env.kek_source) == "file"@ && p@ == text_or_empty(
                    env.kek_path,
                ),
                KekSource::EnvHex(h) => text_or_empty(env.kek_source) == "env"@ && h@ == text_or_empty(
                    env.kek_hex,
                ),
                KekSource::IdentitySeed => text_or_empty(env.kek_source) != "file"@ && text_or_empty(
                    env.kek_source,
                ) != "env"@,
            },
            r.keyring_path == env.keyring_path,
    {
        let at_rest_encryption: bool = match &env.at_rest_enc {
            Some(s) => same_text(s.as_str(), "1") || same_text(s.as_str(), "true") || same_text(
                s.as_str(),
                "yes",
            ),
            None => false,
        };
        let fsync_on_write: bool = match &env.node_fsync {
            Some(s) => !(same_text(s.as_str(), "0") || same_text(s.as_str(), "false") || same_text(
                s.as_str(),
                "no",
            )),
            None => true,
        };
        let flush: u64 = env_number(&env.flush_interval_ms, 5);
        let source = env_text(&env.kek_source);
        proof {
            reveal_strlit("file");
            reveal_strlit("env");
            assert("file"@.len() != "env"@.len());
        }
        let kek_source = if same_text(source.as_str(), "file") {
            KekSource::File(env_text(&env.kek_path))
        } else if same_text(source.as_str(), "env") {
            KekSource::EnvHex(env_text(&env.kek_hex))
        } else {
            KekSource::IdentitySeed
        };
        let keyring_path: Option<String> = match &env.keyring_path {
            Some(s) => Some(s.clone()),
            None => None,
        };
        NodeConfig {
            at_rest_encryption,
            fsync_on_write,
            flush_interval_ms: if flush < 1 {
                1
            } else {
                flush
            },
            wal_compact_interval_secs: env_number(&env.wal_compact_interval_secs, 300),
            wal_compact_min_bytes: env_number(&env.wal_compact_min_bytes, 4194304),
            kek_source,
            keyring_path,
        }
    }
}

} // verus!
