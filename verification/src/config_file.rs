//! The configuration file, and how it fills the environment.
//!
//! Every value of the file stands for an environment variable. A variable that is set
//! already is left alone, so that the environment wins over the file.
use vstd::prelude::*;
use vstd::string::StringExecFns;

use crate::catalog_view::pairs;
use crate::form::opt_text;
use crate::text::{
    chars_of, dec, dec_string, deep, line_chars, lines, same_text, starts, string_of, strip_prefix,
    texts, trim, trimmed,
};

verus! {

/// The whole file; every value may be left out.
#[derive(Debug)]
pub struct ConfigFile {
    pub server: ServerSection,
    pub tls: TlsSection,
    pub cluster: ClusterSection,
    pub features: FeaturesSection,
    pub reliability: ReliabilitySection,
    pub admin: AdminSection,
    pub mcp: McpSection,
}

#[derive(Debug)]
pub struct ServerSection {
    pub addr: Option<String>,
    pub storage: Option<String>,
    pub catalog: Option<String>,
    pub log: Option<String>,
    pub log_format: Option<String>,
    pub metrics_listen: Option<String>,
}

#[derive(Debug)]
pub struct TlsSection {
    pub enabled: Option<bool>,
    pub mtls: Option<bool>,
    pub cert: Option<String>,
    pub key: Option<String>,
    pub ca_cert: Option<String>,
}

#[derive(Debug)]
pub struct ClusterSection {
    pub whitelist: Option<String>,
    pub admin_pubkey: Option<String>,
    pub embed_base_port: Option<u16>,
    pub seed_photo: Option<String>,
    pub no_seed: Option<bool>,
}

#[derive(Debug)]
pub struct FeaturesSection {
    pub embed: Option<bool>,
    pub versions: Option<bool>,
}

#[derive(Debug)]
pub struct ReliabilitySection {
    pub medium_concurrency: Option<usize>,
    pub long_concurrency: Option<usize>,
    pub scrub_interval_secs: Option<u64>,
    pub reputation_persist_interval_secs: Option<u64>,
    pub monitor_interval_secs: Option<u64>,
    pub audit_interval_secs: Option<u64>,
    pub rpc_timeout_ms: Option<u64>,
    pub versions_keep_last: Option<usize>,
    /// The longest body of an upload, in bytes.
    pub upload_max_size: Option<u64>,
}

#[derive(Debug)]
pub struct AdminSection {
    /// The token itself.
    pub token: Option<String>,
    /// A file with the token in its first line that is not blank.
    pub token_file: Option<String>,
    pub unauthenticated: Option<bool>,
}

#[derive(Debug)]
pub struct McpSection {
    pub token: Option<String>,
    pub token_file: Option<String>,
}

/// The first line that is not blank, without the white space around it.
pub open spec fn first_line(ls: Seq<Seq<char>>) -> Option<Seq<char>>
    decreases ls.len(),
{
    if ls.len() == 0 {
        None
    } else if trim(ls[0]).len() > 0 {
        Some(trim(ls[0]))
    } else {
        first_line(ls.drop_first())
    }
}

/// A secret: the one that is given, else the first line of the file that is not blank.
pub open spec fn secret(inline: Option<Seq<char>>, file: Option<Seq<char>>) -> Option<Seq<char>> {
    match (inline, file) {
        (Some(v), _) => Some(v),
        (None, Some(t)) => first_line(lines(t)),
        (None, None) => None,
    }
}

/// A text, where there is one.
pub open spec fn str_text(s: Option<&str>) -> Option<Seq<char>> {
    match s {
        Some(t) => Some(t@),
        None => None,
    }
}

/// A secret: the one that is given, else the first line of the file that is not blank.
/// `file` is what the file holds, where it could be read.
pub fn resolve_secret(inline: &Option<String>, file: Option<&str>) -> (r: Option<String>)
    ensures
        opt_text(r) == secret(opt_text(*inline), str_text(file)),
{
    match inline {
        Some(v) => {
            return Some(v.clone());
        },
        None => {},
    }
    let text = match file {
        Some(t) => t,
        None => {
            return None;
        },
    };
    let v = chars_of(text);
    let ls = line_chars(v.as_slice());
    let ghost all = deep(ls@);
    let mut i: usize = 0;
    assert(all.skip(0) =~= all);
    while i < ls.len()
        invariant
            0 <= i <= ls@.len(),
            all == deep(ls@),
            all == lines(text@),
            *inline is None,
            str_text(file) == Some(text@),
            first_line(all) == first_line(all.skip(i as int)),
        decreases ls@.len() - i,
    {
        let ghost rest = all.skip(i as int);
        assert(rest[0] == ls@[i as int]@);
        assert(rest.drop_first() =~= all.skip(i + 1));
        let t = trimmed(ls[i].as_slice());
        if t.len() > 0 {
            return Some(string_of(t));
        }
        i += 1;
    }
    None
}

/// What a value of the file adds: its variable, where the value is given and the variable is
/// not set.
pub open spec fn one(key: Seq<char>, value: Option<Seq<char>>, set: Seq<String>) -> Seq<
    (Seq<char>, Seq<char>),
> {
    match value {
        Some(v) => if texts(set).contains(key) {
            Seq::empty()
        } else {
            seq![(key, v)]
        },
        None => Seq::empty(),
    }
}

/// Whether none of the variables is set.
pub open spec fn none_is_set(v: Seq<(Seq<char>, Seq<char>)>, set: Seq<String>) -> bool {
    forall|i: int| 0 <= i < v.len() ==> !texts(set).contains((#[trigger] v[i]).0)
}

/// A truth value in words.
pub open spec fn bool_text(b: Option<bool>) -> Option<Seq<char>> {
    match b {
        Some(true) => Some("true"@),
        Some(false) => Some("false"@),
        None => None,
    }
}

/// A number in decimal, where there is one.
pub open spec fn number_text(n: Option<nat>) -> Option<Seq<char>> {
    match n {
        Some(x) => Some(dec(x)),
        None => None,
    }
}

pub open spec fn opt_u16(n: Option<u16>) -> Option<nat> {
    match n {
        Some(x) => Some(x as nat),
        None => None,
    }
}

pub open spec fn opt_u64(n: Option<u64>) -> Option<nat> {
    match n {
        Some(x) => Some(x as nat),
        None => None,
    }
}

pub open spec fn opt_usize(n: Option<usize>) -> Option<nat> {
    match n {
        Some(x) => Some(x as nat),
        None => None,
    }
}

fn wide_u16(n: Option<u16>) -> (r: Option<u64>)
    ensures
        opt_u64(r) == opt_u16(n),
{
    match n {
        Some(x) => Some(x as u64),
        None => None,
    }
}

fn wide_u64(n: Option<u64>) -> (r: Option<u64>)
    ensures
        opt_u64(r) == opt_u64(n),
{
    n
}

fn wide_usize(n: Option<usize>) -> (r: Option<u64>)
    ensures
        opt_u64(r) == opt_usize(n),
{
    match n {
        Some(x) => Some(x as u64),
        None => None,
    }
}

/// A borrowed text, where there is one.
fn opt_str(s: &Option<String>) -> (r: Option<&str>)
    ensures
        str_text(r) == opt_text(*s),
{
    match s {
        Some(t) => Some(t.as_str()),
        None => None,
    }
}

/// Whether a variable is set.
fn is_set(set: &Vec<String>, key: &str) -> (r: bool)
    ensures
        r == texts(set@).contains(key@),
{
    let mut i: usize = 0;
    while i < set.len()
        invariant
            0 <= i <= set@.len(),
            forall|j: int| 0 <= j < i ==> #[trigger] texts(set@)[j] != key@,
        decreases set@.len() - i,
    {
        assert(texts(set@)[i as int] == set@[i as int]@);
        if same_text(set[i].as_str(), key) {
            return true;
        }
        i += 1;
    }
    false
}

/// Adds a variable, where the value is given and the variable is not set.
fn set_if_missing(out: &mut Vec<(String, String)>, set: &Vec<String>, key: &str, value: Option<&str>)
    requires
        none_is_set(pairs(old(out)@), set@),
    ensures
        pairs(final(out)@) == pairs(old(out)@) + one(key@, str_text(value), set@),
        none_is_set(pairs(final(out)@), set@),
{
    let ghost before = pairs(out@);
    match value {
        Some(v) => {
            if !is_set(set, key) {
                out.push((String::from_str(key), String::from_str(v)));
                assert(pairs(out@) =~= before.push((key@, v@)));
            }
        },
        None => {},
    }
    assert(pairs(out@) =~= before + one(key@, str_text(value), set@));
}

/// Adds a variable for a truth value.
fn set_bool_if_missing(
    out: &mut Vec<(String, String)>,
    set: &Vec<String>,
    key: &str,
    value: Option<bool>,
)
    requires
        none_is_set(pairs(old(out)@), set@),
    ensures
        pairs(final(out)@) == pairs(old(out)@) + one(key@, bool_text(value), set@),
        none_is_set(pairs(final(out)@), set@),
{
    let v: Option<&str> = match value {
        Some(b) => if b {
            Some("true")
        } else {
            Some("false")
        },
        None => None,
    };
    set_if_missing(out, set, key, v);
}

/// Adds a variable for a number.
fn set_number_if_missing(
    out: &mut Vec<(String, String)>,
    set: &Vec<String>,
    key: &str,
    value: Option<u64>,
)
    requires
        none_is_set(pairs(old(out)@), set@),
    ensures
        pairs(final(out)@) == pairs(old(out)@) + one(key@, number_text(opt_u64(value)), set@),
        none_is_set(pairs(final(out)@), set@),
{
    match value {
        Some(n) => {
            let t = dec_string(n);
            set_if_missing(out, set, key, Some(t.as_str()));
        },
        None => {
            set_if_missing(out, set, key, None);
        },
    }
}

/// The variables that a file adds to an environment, in order.
pub open spec fn added(
    c: ConfigFile,
    admin_secret: Option<Seq<char>>,
    mcp_secret: Option<Seq<char>>,
    set: Seq<String>,
) -> Seq<(Seq<char>, Seq<char>)> {
    one("LEPTOS_SITE_ADDR"@, opt_text(c.server.addr), set)
        + one("HOLOFS_STORAGE_DIR"@, opt_text(c.server.storage), set)
        + one("HOLOFS_CATALOG"@, opt_text(c.server.catalog), set)
        + one("HOLOFS_LOG"@, opt_text(c.server.log), set)
        + one("HOLOFS_LOG_FORMAT"@, opt_text(c.server.log_format), set)
        + one("HOLOFS_METRICS_LISTEN"@, opt_text(c.server.metrics_listen), set)
        + one("HOLOFS_TLS"@, bool_text(c.tls.enabled), set)
        + one("HOLOFS_MTLS"@, bool_text(c.tls.mtls), set)
        + one("HOLOFS_TLS_CERT"@, opt_text(c.tls.cert), set)
        + one("HOLOFS_TLS_KEY"@, opt_text(c.tls.key), set)
        + one("HOLOFS_TLS_CA_CERT"@, opt_text(c.tls.ca_cert), set)
        + one("HOLOFS_WHITELIST"@, opt_text(c.cluster.whitelist), set)
        + one("HOLOFS_ADMIN_PUBKEY"@, opt_text(c.cluster.admin_pubkey), set)
        + one("HOLOFS_EMBED_BASE_PORT"@, number_text(opt_u16(c.cluster.embed_base_port)), set)
        + one("HOLOFS_SEED_PHOTO"@, opt_text(c.cluster.seed_photo), set)
        + one("HOLOFS_NO_SEED"@, bool_text(c.cluster.no_seed), set)
        + one("HOLOFS_ENABLE_EMBED"@, bool_text(c.features.embed), set)
        + one("HOLOFS_ENABLE_VERSIONS"@, bool_text(c.features.versions), set)
        + one("HOLOFS_MEDIUM_CONCURRENCY"@, number_text(opt_usize(c.reliability.medium_concurrency)), set)
        + one("HOLOFS_LONG_CONCURRENCY"@, number_text(opt_usize(c.reliability.long_concurrency)), set)
        + one("HOLOFS_SCRUB_INTERVAL"@, number_text(opt_u64(c.reliability.scrub_interval_secs)), set)
        + one("HOLOFS_REPUTATION_PERSIST_INTERVAL"@, number_text(opt_u64(c.reliability.reputation_persist_interval_secs)), set)
        + one("HOLOFS_MONITOR_INTERVAL"@, number_text(opt_u64(c.reliability.monitor_interval_secs)), set)
        + one("HOLOFS_AUDIT_INTERVAL"@, number_text(opt_u64(c.reliability.audit_interval_secs)), set)
        + one("HOLOFS_RPC_TIMEOUT_MS"@, number_text(opt_u64(c.reliability.rpc_timeout_ms)), set)
        + one("HOLOFS_VERSIONS_KEEP_LAST"@, number_text(opt_usize(c.reliability.versions_keep_last)), set)
        + one("HOLOFS_UPLOAD_MAX_SIZE"@, number_text(opt_u64(c.reliability.upload_max_size)), set)
        + one("HOLOFS_ADMIN_TOKEN"@, admin_secret, set)
        + one("HOLOFS_ADMIN_UNAUTHENTICATED"@, bool_text(c.admin.unauthenticated), set)
        + one("HOLOFS_MCP_TOKEN"@, mcp_secret, set)
}

impl ConfigFile {
    /// The variables to be set for this file, where those in `set` are set already. The
    /// token files' contents are handed in, where they could be read.
    pub fn apply_to_env(
        &self,
        admin_token_file: Option<&str>,
        mcp_token_file: Option<&str>,
        set: &Vec<String>,
    ) -> (r: Vec<(String, String)>)
        ensures
            pairs(r@) == added(
                *self,
                secret(opt_text(self.admin.token), str_text(admin_token_file)),
                secret(opt_text(self.mcp.token), str_text(mcp_token_file)),
                set@,
            ),
            none_is_set(pairs(r@), set@),
    {
        let admin_token = resolve_secret(&self.admin.token, admin_token_file);
        let mcp_token = resolve_secret(&self.mcp.token, mcp_token_file);
        let mut out: Vec<(String, String)> = Vec::new();
        assert(pairs(out@) =~= Seq::empty());
        set_if_missing(&mut out, set, "LEPTOS_SITE_ADDR", opt_str(&self.server.addr));
        set_if_missing(&mut out, set, "HOLOFS_STORAGE_DIR", opt_str(&self.server.storage));
        set_if_missing(&mut out, set, "HOLOFS_CATALOG", opt_str(&self.server.catalog));
        set_if_missing(&mut out, set, "HOLOFS_LOG", opt_str(&self.server.log));
        set_if_missing(&mut out, set, "HOLOFS_LOG_FORMAT", opt_str(&self.server.log_format));
        set_if_missing(&mut out, set, "HOLOFS_METRICS_LISTEN", opt_str(&self.server.metrics_listen));
        set_bool_if_missing(&mut out, set, "HOLOFS_TLS", self.tls.enabled);
        set_bool_if_missing(&mut out, set, "HOLOFS_MTLS", self.tls.mtls);
        set_if_missing(&mut out, set, "HOLOFS_TLS_CERT", opt_str(&self.tls.cert));
        set_if_missing(&mut out, set, "HOLOFS_TLS_KEY", opt_str(&self.tls.key));
        set_if_missing(&mut out, set, "HOLOFS_TLS_CA_CERT", opt_str(&self.tls.ca_cert));
        set_if_missing(&mut out, set, "HOLOFS_WHITELIST", opt_str(&self.cluster.whitelist));
        set_if_missing(&mut out, set, "HOLOFS_ADMIN_PUBKEY", opt_str(&self.cluster.admin_pubkey));
        set_number_if_missing(&mut out, set, "HOLOFS_EMBED_BASE_PORT", wide_u16(self.cluster.embed_base_port));
        set_if_missing(&mut out, set, "HOLOFS_SEED_PHOTO", opt_str(&self.cluster.seed_photo));
        set_bool_if_missing(&mut out, set, "HOLOFS_NO_SEED", self.cluster.no_seed);
        set_bool_if_missing(&mut out, set, "HOLOFS_ENABLE_EMBED", self.features.embed);
        set_bool_if_missing(&mut out, set, "HOLOFS_ENABLE_VERSIONS", self.features.versions);
        set_number_if_missing(&mut out, set, "HOLOFS_MEDIUM_CONCURRENCY", wide_usize(self.reliability.medium_concurrency));
        set_number_if_missing(&mut out, set, "HOLOFS_LONG_CONCURRENCY", wide_usize(self.reliability.long_concurrency));
        set_number_if_missing(&mut out, set, "HOLOFS_SCRUB_INTERVAL", wide_u64(self.reliability.scrub_interval_secs));
        set_number_if_missing(&mut out, set, "HOLOFS_REPUTATION_PERSIST_INTERVAL", wide_u64(self.reliability.reputation_persist_interval_secs));
        set_number_if_missing(&mut out, set, "HOLOFS_MONITOR_INTERVAL", wide_u64(self.reliability.monitor_interval_secs));
        set_number_if_missing(&mut out, set, "HOLOFS_AUDIT_INTERVAL", wide_u64(self.reliability.audit_interval_secs));
        set_number_if_missing(&mut out, set, "HOLOFS_RPC_TIMEOUT_MS", wide_u64(self.reliability.rpc_timeout_ms));
        set_number_if_missing(&mut out, set, "HOLOFS_VERSIONS_KEEP_LAST", wide_usize(self.reliability.versions_keep_last));
        set_number_if_missing(&mut out, set, "HOLOFS_UPLOAD_MAX_SIZE", wide_u64(self.reliability.upload_max_size));
        set_if_missing(&mut out, set, "HOLOFS_ADMIN_TOKEN", opt_str(&admin_token));
        set_bool_if_missing(&mut out, set, "HOLOFS_ADMIN_UNAUTHENTICATED", self.admin.unauthenticated);
        set_if_missing(&mut out, set, "HOLOFS_MCP_TOKEN", opt_str(&mcp_token));
        assert(pairs(out@) =~= added(*self, opt_text(admin_token), opt_text(mcp_token), set@));
        out
    }
}

/// The file that the command line names: behind `--config`, or in `--config=`, whichever
/// comes first.
pub open spec fn config_arg(args: Seq<Seq<char>>) -> Option<Seq<char>>
    decreases args.len(),
{
    if args.len() == 0 {
        None
    } else if args[0] == "--config"@ {
        if args.len() > 1 {
            Some(args[1])
        } else {
            None
        }
    } else if starts(args[0], "--config="@) {
        Some(args[0].skip("--config="@.len() as int))
    } else {
        config_arg(args.drop_first())
    }
}

/// The configuration file: from the environment where it names one, else from the command
/// line, without the program's name.
pub fn detect_config_path(env: Option<&str>, args: &Vec<String>) -> (r: Option<String>)
    ensures
        opt_text(r) == match env {
            Some(p) => if p@.len() > 0 {
                Some(p@)
            } else {
                config_arg(texts(args@))
            },
            None => config_arg(texts(args@)),
        },
{
    match env {
        Some(p) => {
            if !p.is_empty() {
                return Some(String::from_str(p));
            }
        },
        None => {},
    }
    let ghost all = texts(args@);
    let mut i: usize = 0;
    assert(all.skip(0) =~= all);
    while i < args.len()
        invariant
            0 <= i <= args@.len(),
            all == texts(args@),
            config_arg(all) == config_arg(all.skip(i as int)),
            env matches Some(p) ==> p@.len() == 0,
        decreases args@.len() - i,
    {
        let ghost rest = all.skip(i as int);
        assert(rest[0] == args@[i as int]@);
        assert(rest.drop_first() =~= all.skip(i + 1));
        if same_text(args[i].as_str(), "--config") {
            if i + 1 < args.len() {
                assert(rest[1] == args@[i + 1]@);
                return Some(args[i + 1].clone());
            }
            return None;
        }
        let a = chars_of(args[i].as_str());
        match strip_prefix(a.as_slice(), "--config=") {
            Some(t) => {
                return Some(string_of(t));
            },
            None => {},
        }
        i += 1;
    }
    None
}

} // verus!
