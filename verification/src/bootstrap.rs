//! How a cluster starts: where things are kept, which nodes there are, what is made of the
//! catalog that was found, and how the connections are secured.
use vstd::prelude::*;
use vstd::string::StringExecFns;
use vstd::utf8::encode_utf8;

use crate::audit::{file_in, path_in};
use crate::form::opt_text;
use crate::hex::{decode_hex_bytes, unhex};
use crate::identity::PubKey;
use crate::node_config::{env_number, number_or};
use crate::text::{
    ahead_of_last, before_last, chars_of, dec, dec_padded, dec_string, pad_left, rfind, rfind_char,
    same_text, string_of, trim_end_of, trimmed_end_of,
};
use crate::whitelist::{accepted, parse_list, SignedList, Whitelist, WhitelistEntry, WhitelistError};

verus! {

/// Where the certificates for the connections between gateway and nodes come from.
#[derive(Debug, Clone)]
pub struct TlsOptions {
    /// Whether the connections are encrypted at all.
    pub enabled: bool,
    /// Whether a client has to show a certificate too.
    pub mtls: bool,
    pub cert_path: Option<String>,
    pub key_path: Option<String>,
    pub ca_path: Option<String>,
}

impl TlsOptions {
    /// No encryption.
    pub fn off() -> (r: TlsOptions)
        ensures
            r == (TlsOptions {
                enabled: false,
                mtls: false,
                cert_path: None,
                key_path: None,
                ca_path: None,
            }),
    {
        TlsOptions { enabled: false, mtls: false, cert_path: None, key_path: None, ca_path: None }
    }
}

/// What a gateway needs to know to start.
#[derive(Debug, Clone)]
pub struct BootstrapConfig {
    /// The directory under which everything is kept.
    pub storage: String,
    /// The file of the catalog, where it is not the one in the storage directory.
    pub catalog: Option<String>,
    /// The signed list of the nodes; without one the gateway starts nodes of its own.
    pub whitelist: Option<String>,
    /// Who must have signed that list; required where there is one.
    pub admin_pubkey: Option<PubKey>,
    /// A picture to start with.
    pub seed_photo: Option<String>,
    /// Whether an empty catalog is to stay empty.
    pub no_seed: bool,
    pub tls: TlsOptions,
    pub enable_embed: bool,
    pub enable_versions: bool,
}

/// The settings of the process that concern the start.
#[derive(Debug, Clone)]
pub struct StorageSettings {
    pub storage_dir: String,
    pub catalog: Option<String>,
    pub whitelist: Option<String>,
    pub admin_pubkey: Option<String>,
    pub seed_photo: Option<String>,
    pub no_seed: bool,
    pub enable_embed: bool,
    pub enable_versions: bool,
}

/// The key that a text of 64 hexadecimal digits spells.
pub open spec fn pubkey_in(s: Seq<char>) -> Option<Seq<u8>> {
    let b = encode_utf8(s);
    if b.len() == 64 && unhex(b) is Ok {
        Some(unhex(b)->Ok_0)
    } else {
        None
    }
}

/// The key that a text of 64 hexadecimal digits spells.
pub fn parse_pubkey_hex(s: &str) -> (r: Option<PubKey>)
    ensures
        match r {
            Some(k) => pubkey_in(s@) == Some(k@),
            None => pubkey_in(s@) is None,
        },
{
    if s.as_bytes().len() != 64 {
        return None;
    }
    match decode_hex_bytes(s) {
        Ok(v) => {
            proof {
                assert(v@.len() == 32);
            }
            let k: PubKey = crate::bytes::copy32(v.as_slice(), 0);
            assert(k@ =~= v@);
            Some(k)
        },
        Err(_) => None,
    }
}

/// An optional key, as a sequence of bytes.
pub open spec fn opt_key(k: Option<PubKey>) -> Option<Seq<u8>> {
    match k {
        Some(k) => Some(k@),
        None => None,
    }
}

/// The directory that a path lies in: what stands before its last part, without the slashes
/// between; the root where only slashes stand before it; nothing where there is no last part.
pub open spec fn dir_of(path: Seq<char>) -> Option<Seq<char>> {
    let t = trim_end_of(path, '/');
    let d = trim_end_of(before_last(t, '/'), '/');
    if t.len() == 0 {
        None
    } else if d.len() == 0 && rfind(t, '/') >= 0 {
        Some("/"@)
    } else {
        Some(d)
    }
}

/// The directory that a path lies in.
pub fn parent_dir(path: &str) -> (r: Option<String>)
    ensures
        opt_text(r) == dir_of(path@),
{
    let v = chars_of(path);
    let t = trimmed_end_of(v.as_slice(), '/');
    if t.len() == 0 {
        return None;
    }
    let d = trimmed_end_of(ahead_of_last(t, '/'), '/');
    if d.len() == 0 && rfind_char(t, '/').is_some() {
        Some(String::from_str("/"))
    } else {
        Some(string_of(d))
    }
}

impl BootstrapConfig {
    /// The configuration that the settings give: no encryption, and a key that is not well
    /// written counts as none.
    pub fn from_env(s: StorageSettings) -> (r: BootstrapConfig)
        ensures
            r.storage == s.storage_dir,
            r.catalog == s.catalog,
            r.whitelist == s.whitelist,
            opt_key(r.admin_pubkey) == match opt_text(s.admin_pubkey) {
                Some(t) => pubkey_in(t),
                None => None,
            },
            r.seed_photo == s.seed_photo,
            r.no_seed == s.no_seed,
            r.tls == (TlsOptions {
                enabled: false,
                mtls: false,
                cert_path: None,
                key_path: None,
                ca_path: None,
            }),
            r.enable_embed == s.enable_embed,
            r.enable_versions == s.enable_versions,
    {
        let admin_pubkey: Option<PubKey> = match &s.admin_pubkey {
            Some(t) => parse_pubkey_hex(t.as_str()),
            None => None,
        };
        BootstrapConfig {
            storage: s.storage_dir,
            catalog: s.catalog,
            whitelist: s.whitelist,
            admin_pubkey,
            seed_photo: s.seed_photo,
            no_seed: s.no_seed,
            tls: TlsOptions::off(),
            enable_embed: s.enable_embed,
            enable_versions: s.enable_versions,
        }
    }

    /// The file of the catalog.
    pub fn catalog_path(&self) -> (r: String)
        ensures
            r@ == match opt_text(self.catalog) {
                Some(p) => p,
                None => file_in(self.storage@, "catalog.bin"@),
            },
    {
        match &self.catalog {
            Some(p) => String::from_str(p.as_str()),
            None => path_in(self.storage.as_str(), "catalog.bin"),
        }
    }

    /// The directory of the catalog: the one that its file is in, or the storage directory where
    /// the file is in none.
    pub fn catalog_dir(&self) -> (r: String)
        ensures
            r@ == match dir_of(
                match opt_text(self.catalog) {
                    Some(p) => p,
                    None => file_in(self.storage@, "catalog.bin"@),
                },
            ) {
                Some(d) => d,
                None => self.storage@,
            },
    {
        let path = self.catalog_path();
        match parent_dir(path.as_str()) {
            Some(d) => d,
            None => String::from_str(self.storage.as_str()),
        }
    }

    /// The file with the key of the gateway: where the setting says, or in the storage
    /// directory.
    pub fn identity_path(&self, setting: Option<&str>) -> (r: String)
        ensures
            r@ == match setting {
                Some(p) => p@,
                None => file_in(self.storage@, "gateway_identity.key"@),
            },
    {
        match setting {
            Some(p) => String::from_str(p),
            None => path_in(self.storage.as_str(), "gateway_identity.key"),
        }
    }

    /// The file with what is known of the reliability of the nodes.
    pub fn reputation_path(&self) -> (r: String)
        ensures
            r@ == file_in(self.storage@, "reputation.bin"@),
    {
        path_in(self.storage.as_str(), "reputation.bin")
    }

    /// The file with the index of the search by meaning, where that is switched on.
    pub fn embed_path(&self) -> (r: Option<String>)
        ensures
            opt_text(r) == if self.enable_embed {
                Some(file_in(self.storage@, "embeddings.bin"@))
            } else {
                None
            },
    {
        if self.enable_embed {
            Some(path_in(self.storage.as_str(), "embeddings.bin"))
        } else {
            None
        }
    }

    /// The directory under which old versions are kept, where they are.
    pub fn versions_root(&self) -> (r: Option<String>)
        ensures
            opt_text(r) == if self.enable_versions {
                Some(self.storage@)
            } else {
                None
            },
    {
        if self.enable_versions {
            Some(String::from_str(self.storage.as_str()))
        } else {
            None
        }
    }

    /// Whether objects to start with are put into the catalog: only into one that is empty,
    /// of a cluster that the gateway started itself.
    pub fn should_seed(&self, catalog_is_empty: bool) -> (r: bool)
        ensures
            r == (self.whitelist is None && !self.no_seed && catalog_is_empty),
    {
        self.whitelist.is_none() && !self.no_seed && catalog_is_empty
    }

    /// Which picture an empty catalog starts with: the one that was given, else the sample
    /// where there is one, else one that is computed.
    pub fn seed_source(&self, sample_exists: bool) -> (r: SeedSource)
        ensures
            match (self.seed_photo, sample_exists) {
                (Some(p), _) => r matches SeedSource::Given(q) && q@ == p@,
                (None, true) => r is Sample,
                (None, false) => r is Synthetic,
            },
    {
        match &self.seed_photo {
            Some(p) => SeedSource::Given(String::from_str(p.as_str())),
            None => if sample_exists {
                SeedSource::Sample
            } else {
                SeedSource::Synthetic
            },
        }
    }
}

/// Which picture an empty catalog starts with.
#[derive(Debug)]
pub enum SeedSource {
    Given(String),
    Sample,
    Synthetic,
}

impl SeedSource {
    /// The source in words.
    pub fn label(&self) -> (r: &'static str)
        ensures
            r@ == match self {
                SeedSource::Given(_) => "operator-supplied file"@,
                SeedSource::Sample => "assets/sample.png (Kodak kodim23)"@,
                SeedSource::Synthetic => "synthetic mandala"@,
            },
    {
        match self {
            SeedSource::Given(_) => "operator-supplied file",
            SeedSource::Sample => "assets/sample.png (Kodak kodim23)",
            SeedSource::Synthetic => "synthetic mandala",
        }
    }
}

/// Whether a catalog under its old name is to be renamed: only where there is none under the
/// name that is read.
pub fn renames_legacy_catalog(bin_exists: bool, holo_exists: bool) -> (r: bool)
    ensures
        r == (bin_exists && !holo_exists),
{
    bin_exists && !holo_exists
}

/// A node that the gateway starts itself.
#[derive(Debug)]
pub struct EmbeddedNode {
    /// The name of its directory.
    pub dir: String,
    pub port: u16,
    pub zone: u8,
}

/// How many nodes of `n` stand in one zone, with four zones.
pub open spec fn zone_size(n: nat) -> nat {
    n / 4
}

/// Whether `e` is the `i`-th of `n` nodes.
pub open spec fn is_embedded_node(e: EmbeddedNode, i: int, n: nat, base_port: u16) -> bool {
    &&& e.dir@ == "node_"@ + pad_left(dec(i as nat), 2, '0')
    &&& e.port == base_port + i
    &&& e.zone == i / zone_size(n) as int
}

/// The nodes that the gateway starts itself: each with a directory of its own, on ports that
/// follow each other, in zones of equal size; what is left over forms further zones.
pub fn embedded_nodes(n: u16, base_port: u16) -> (r: Vec<EmbeddedNode>)
    requires
        n >= 4,
        base_port + n <= 65536,
    ensures
        r@.len() == n,
        forall|i: int| 0 <= i < n ==> is_embedded_node(#[trigger] r@[i], i, n as nat, base_port),
{
    let size: u16 = n / 4;
    let mut r: Vec<EmbeddedNode> = Vec::new();
    let mut i: u16 = 0;
    while i < n
        invariant
            0 <= i <= n,
            n >= 4,
            size == n / 4,
            base_port + n <= 65536,
            r@.len() == i,
            forall|j: int| 0 <= j < i ==> is_embedded_node(#[trigger] r@[j], j, n as nat, base_port),
        decreases n - i,
    {
        assert(i / size <= 7) by (nonlinear_arith)
            requires
                i < n,
                size == n / 4,
                n >= 4,
        ;
        r.push(
            EmbeddedNode {
                dir: String::from_str("node_").concat(dec_padded(i as u64, 2).as_str()),
                port: base_port + i,
                zone: (i / size) as u8,
            },
        );
        i += 1;
    }
    r
}

/// No two nodes share a port, and the zones go up with the nodes.
pub proof fn embedded_nodes_stay_apart(v: Seq<EmbeddedNode>, base_port: u16, i: int, j: int)
    requires
        v.len() >= 4,
        forall|k: int| 0 <= k < v.len() ==> is_embedded_node(#[trigger] v[k], k, v.len(), base_port),
        0 <= i < j < v.len(),
    ensures
        v[i].port != v[j].port,
        v[i].zone <= v[j].zone,
{
    let size = zone_size(v.len()) as int;
    assert(is_embedded_node(v[i], i, v.len(), base_port));
    assert(is_embedded_node(v[j], j, v.len(), base_port));
    assert(i / size <= j / size) by (nonlinear_arith)
        requires
            0 <= i < j,
            size >= 1,
    ;
}

/// What is said where a node cannot be started on its port.
pub fn bind_failure(port: u16, i: u16, error: &str) -> (r: String)
    ensures
        r@ == "failed to bind port "@ + dec(port as nat) + " for node_"@ + pad_left(
            dec(i as nat),
            2,
            '0',
        ) + ": "@ + error@
            + "\nhint: another holofs binary already running? Stop it or set HOLOFS_EMBED_BASE_PORT=N to change the base."@,
{
    String::from_str("failed to bind port ").concat(dec_string(port as u64).as_str()).concat(
        " for node_",
    ).concat(dec_padded(i as u64, 2).as_str()).concat(": ").concat(error).concat(
        "\nhint: another holofs binary already running? Stop it or set HOLOFS_EMBED_BASE_PORT=N to change the base.",
    )
}

/// Whether a list is signed by the administrator that is trusted. Without one, none is.
pub open spec fn is_trusted(l: SignedList, admin: Option<Seq<u8>>) -> bool {
    admin is Some && accepted(l, admin)
}

/// The list of the nodes that run by themselves, taken from a signed list, or why it cannot
/// be trusted. The key of the administrator is required: a list that only vouches for itself
/// is not trusted.
pub fn distributed_nodes(list: &[u8], admin_pubkey: Option<&PubKey>) -> (r: Result<Whitelist, String>)
    ensures
        match parse_list(list@) {
            Ok(l) => if is_trusted(
                l,
                match admin_pubkey {
                    Some(k) => Some(k@),
                    None => None,
                },
            ) {
                r matches Ok(w) && w@ == l
            } else {
                r matches Err(e) && e@ == "BAD whitelist signature"@
            },
            Err(e) => r matches Err(m) && m@ == e.text(),
        },
{
    match Whitelist::decode(list) {
        Ok(w) => {
            if admin_pubkey.is_some() && w.verify(admin_pubkey) {
                Ok(w)
            } else {
                Err(String::from_str("BAD whitelist signature"))
            }
        },
        Err(e) => Err(e.message()),
    }
}

/// The key by which the node at an address is known: that of the last member with the address.
pub fn node_key(w: &Whitelist, addr: &str) -> (r: Option<PubKey>)
    ensures
        match r {
            Some(k) => exists|i: int|
                {
                    &&& 0 <= i < w.entries@.len()
                    &&& (#[trigger] w.entries@[i]).addr@ == addr@
                    &&& w.entries@[i].pubkey@ == k@
                    &&& forall|j: int|
                        i < j < w.entries@.len() ==> (#[trigger] w.entries@[j]).addr@ != addr@
                },
            None => forall|i: int|
                0 <= i < w.entries@.len() ==> (#[trigger] w.entries@[i]).addr@ != addr@,
        },
{
    let mut i: usize = w.entries.len();
    while i > 0
        invariant
            0 <= i <= w.entries@.len(),
            forall|j: int| i <= j < w.entries@.len() ==> (#[trigger] w.entries@[j]).addr@ != addr@,
        decreases i,
    {
        i -= 1;
        if same_text(w.entries[i].addr.as_str(), addr) {
            return Some(w.entries[i].pubkey);
        }
    }
    None
}

/// The nodes of a cluster.
#[derive(Debug)]
pub enum Nodes {
    /// Nodes that the gateway starts itself.
    Embedded(Vec<EmbeddedNode>),
    /// Nodes that run by themselves.
    Listed(Whitelist),
}

/// The zones that nodes are in, in their order.
pub open spec fn zones_of(n: Nodes) -> Seq<u8> {
    match n {
        Nodes::Embedded(v) => v@.map_values(|e: EmbeddedNode| e.zone),
        Nodes::Listed(w) => w.entries@.map_values(|e: WhitelistEntry| e.zone),
    }
}

impl Nodes {
    /// The zones that the nodes are in, in their order.
    pub fn zones(&self) -> (r: Vec<u8>)
        ensures
            r@ == zones_of(*self),
    {
        let mut r: Vec<u8> = Vec::new();
        let mut i: usize = 0;
        match self {
            Nodes::Embedded(v) => {
                while i < v.len()
                    invariant
                        0 <= i <= v@.len(),
                        r@.len() == i,
                        forall|j: int| 0 <= j < i ==> #[trigger] r@[j] == v@[j].zone,
                    decreases v@.len() - i,
                {
                    r.push(v[i].zone);
                    i += 1;
                }
            },
            Nodes::Listed(w) => {
                while i < w.entries.len()
                    invariant
                        0 <= i <= w.entries@.len(),
                        r@.len() == i,
                        forall|j: int| 0 <= j < i ==> #[trigger] r@[j] == w.entries@[j].zone,
                    decreases w.entries@.len() - i,
                {
                    r.push(w.entries[i].zone);
                    i += 1;
                }
            },
        }
        assert(r@ =~= zones_of(*self));
        r
    }
}

/// What the start of a cluster depends on besides its configuration.
#[derive(Debug)]
pub struct Found {
    /// The signed list, read from the file that the configuration names.
    pub list: Vec<u8>,
    /// How many nodes the gateway starts where there is no such list, and from which port on.
    pub n_nodes: u16,
    pub base_port: u16,
}

/// How a cluster is to be started.
#[derive(Debug)]
pub struct BootPlan {
    pub tls: TlsPlan,
    pub nodes: Nodes,
}

/// Why a cluster cannot be started.
pub open spec fn boot_refusal(config: BootstrapConfig, list: Seq<u8>) -> Option<Seq<char>> {
    let t = config.tls;
    let named = (t.cert_path is Some, t.key_path is Some, t.ca_path is Some);
    if t.enabled && named != (true, true, true) && named != (false, false, false) {
        Some("partial TLS config: provide all of --tls-cert, --tls-key, --tls-ca-cert"@)
    } else if config.whitelist is None {
        None
    } else {
        match parse_list(list) {
            Ok(l) => if is_trusted(l, opt_key(config.admin_pubkey)) {
                None
            } else {
                Some("BAD whitelist signature"@)
            },
            Err(e) => Some(e.text()),
        }
    }
}

/// Decides how a cluster is started: first how its connections are secured, then which nodes it
/// has. With a signed list these are the members of the list, which must have been signed by the
/// administrator that is trusted; without one, nodes of the gateway's own.
pub fn plan_boot(config: &BootstrapConfig, found: &Found) -> (r: Result<BootPlan, String>)
    requires
        config.whitelist is None ==> found.n_nodes >= 4 && found.base_port + found.n_nodes <= 65536,
    ensures
        match boot_refusal(*config, found.list@) {
            Some(t) => r matches Err(e) && e@ == t,
            None => {
                &&& r matches Ok(p)
                &&& r matches Ok(p) ==> {
                    &&& is_tls_plan(config.tls, config.whitelist is None, p.tls)
                    &&& match config.whitelist {
                        Some(_) => p.nodes matches Nodes::Listed(w) && parse_list(found.list@) == Ok::<
                            SignedList,
                            WhitelistError,
                        >(w@),
                        None => p.nodes matches Nodes::Embedded(v) && v@.len() == found.n_nodes
                            && forall|i: int|
                            0 <= i < v@.len() ==> is_embedded_node(
                                #[trigger] v@[i],
                                i,
                                v@.len(),
                                found.base_port,
                            ),
                    }
                }
            },
        },
{
    let tls = match build_tls(&config.tls, config.whitelist.is_none()) {
        Ok(t) => t,
        Err(e) => {
            return Err(String::from_str(e));
        },
    };
    let nodes = if config.whitelist.is_some() {
        match distributed_nodes(found.list.as_slice(), config.admin_pubkey.as_ref()) {
            Ok(w) => Nodes::Listed(w),
            Err(e) => {
                return Err(e);
            },
        }
    } else {
        Nodes::Embedded(embedded_nodes(found.n_nodes, found.base_port))
    };
    Ok(BootPlan { tls, nodes })
}

/// A cluster of listed nodes never starts on a list that somebody else signed, nor on any list
/// where nobody is trusted to sign one.
pub proof fn foreign_list_is_refused(config: BootstrapConfig, list: Seq<u8>)
    requires
        config.whitelist is Some,
        parse_list(list) matches Ok(l) ==> Some(l.admin) != opt_key(config.admin_pubkey),
    ensures
        boot_refusal(config, list) is Some,
{
}

/// How far an object has come into the cluster.
#[derive(Debug, Clone, Copy, PartialEq, Eq, Structural)]
pub enum ManifestState {
    Ready,
    Encoding,
    Failed,
}

/// The state after a restart: nobody works any more on what was being encoded.
pub open spec fn recovered(s: ManifestState) -> ManifestState {
    if s == ManifestState::Encoding {
        ManifestState::Failed
    } else {
        s
    }
}

/// The positions among the first `n` that a restart changes.
pub open spec fn orphans(v: Seq<ManifestState>, n: nat) -> Seq<usize>
    decreases n,
{
    if n == 0 {
        Seq::empty()
    } else if v[n - 1] == ManifestState::Encoding {
        orphans(v, (n - 1) as nat).push((n - 1) as usize)
    } else {
        orphans(v, (n - 1) as nat)
    }
}

/// Marks every object that was being encoded when the process ended as failed, and tells which
/// ones these were, so that they can be written back.
pub fn recover_states(v: &mut Vec<ManifestState>) -> (r: Vec<usize>)
    ensures
        final(v)@ == old(v)@.map_values(|s: ManifestState| recovered(s)),
        r@ == orphans(old(v)@, old(v)@.len()),
{
    let ghost before = v@;
    let mut r: Vec<usize> = Vec::new();
    let mut i: usize = 0;
    assert(r@ =~= orphans(before, 0));
    while i < v.len()
        invariant
            0 <= i <= v@.len(),
            before == old(v)@,
            v@.len() == before.len(),
            r@ == orphans(before, i as nat),
            forall|j: int| 0 <= j < i ==> v@[j] == recovered(#[trigger] before[j]),
            forall|j: int| i <= j < v@.len() ==> v@[j] == #[trigger] before[j],
        decreases v@.len() - i,
    {
        if v[i] == ManifestState::Encoding {
            v.set(i, ManifestState::Failed);
            r.push(i);
        }
        i += 1;
    }
    assert(v@ =~= before.map_values(|s: ManifestState| recovered(s)));
    r
}

/// A second restart changes nothing.
pub proof fn recovery_is_done_once(v: Seq<ManifestState>, n: nat)
    requires
        n <= v.len(),
    ensures
        orphans(v.map_values(|s: ManifestState| recovered(s)), n).len() == 0,
    decreases n,
{
    if n > 0 {
        recovery_is_done_once(v, (n - 1) as nat);
    }
}

/// How often something is done in the background, in seconds; 0 means never.
pub fn background_interval(secs: u64) -> (r: Option<u64>)
    ensures
        r == unless_zero(secs),
{
    if secs > 0 {
        Some(secs)
    } else {
        None
    }
}

/// The settings of what goes on in the background, in seconds. Those that are texts come from the
/// environment; one that is not a number counts as not set.
#[derive(Debug)]
pub struct BackgroundSettings {
    pub monitor_secs: u64,
    pub audit_secs: u64,
    pub reputation_persist_secs: u64,
    pub scrub_secs: u64,
    pub capacity_poll: Option<String>,
    pub rebalance: Option<String>,
    pub retention: Option<String>,
    /// Whether nodes are to be emptied when they get too full.
    pub rebalance_wanted: bool,
}

/// What holds for a setting that is not set.
#[derive(Debug, Clone, Copy, PartialEq, Eq, Structural)]
pub struct BackgroundDefaults {
    pub capacity_poll_secs: u64,
    pub rebalance_secs: u64,
    pub retention_secs: u64,
}

/// What goes on in the background, and how often, in seconds; nothing for what does not.
#[derive(Debug, Clone, Copy, PartialEq, Eq, Structural)]
pub struct BackgroundPlan {
    pub monitor: u64,
    pub audit: u64,
    pub reputation_persist: u64,
    pub scrub: Option<u64>,
    pub capacity_poll: u64,
    pub rebalance: Option<u64>,
    pub retention: Option<u64>,
}

/// A number of seconds, where it is not 0.
pub open spec fn unless_zero(secs: u64) -> Option<u64> {
    if secs > 0 {
        Some(secs)
    } else {
        None
    }
}

/// Decides what goes on in the background: the watch over the nodes, their audit and the saving of
/// their reputation always; the search for lost shards, the evening out of full nodes and the end
/// of what is kept for a time only unless their interval is 0.
pub fn plan_background(s: &BackgroundSettings, d: &BackgroundDefaults) -> (r: BackgroundPlan)
    ensures
        r == (BackgroundPlan {
            monitor: s.monitor_secs,
            audit: s.audit_secs,
            reputation_persist: s.reputation_persist_secs,
            scrub: unless_zero(s.scrub_secs),
            capacity_poll: number_or(s.capacity_poll, d.capacity_poll_secs),
            rebalance: if s.rebalance_wanted {
                unless_zero(number_or(s.rebalance, d.rebalance_secs))
            } else {
                None
            },
            retention: unless_zero(number_or(s.retention, d.retention_secs)),
        }),
{
    BackgroundPlan {
        monitor: s.monitor_secs,
        audit: s.audit_secs,
        reputation_persist: s.reputation_persist_secs,
        scrub: background_interval(s.scrub_secs),
        capacity_poll: env_number(&s.capacity_poll, d.capacity_poll_secs),
        rebalance: if s.rebalance_wanted {
            background_interval(env_number(&s.rebalance, d.rebalance_secs))
        } else {
            None
        },
        retention: background_interval(env_number(&s.retention, d.retention_secs)),
    }
}

/// How many old versions of an object are kept; none where all are.
pub fn versions_kept(setting: Option<u64>) -> (r: Option<u64>)
    ensures
        r == match setting {
            Some(n) => unless_zero(n),
            None => None,
        },
{
    match setting {
        Some(n) => background_interval(n),
        None => None,
    }
}

/// A certificate to be issued: for whom, and for which hosts.
#[derive(Debug)]
pub struct LeafPlan {
    pub name: &'static str,
    pub hosts: Vec<&'static str>,
}

/// How the connections between gateway and nodes are secured.
#[derive(Debug)]
pub enum TlsPlan {
    /// Not at all.
    Off,
    /// With the certificates in these files.
    Files { cert: String, key: String, ca: String, mtls: bool, embedded: bool },
    /// With certificates of an authority of the gateway's own: one for the nodes, and one for
    /// the gateway where it has to show one.
    SelfSigned { node: LeafPlan, gateway: Option<LeafPlan>, embedded: bool },
}

/// The hosts of a certificate.
pub open spec fn hosts(l: LeafPlan) -> Seq<Seq<char>> {
    l.hosts@.map_values(|h: &'static str| h@)
}

/// Whether `p` is how the connections are secured under options that make sense. (`embedded` says
/// whether the gateway starts the nodes itself, and so sets up their end too.)
pub open spec fn is_tls_plan(opts: TlsOptions, embedded: bool, p: TlsPlan) -> bool {
    if !opts.enabled {
        p is Off
    } else {
        match (opts.cert_path, opts.key_path, opts.ca_path) {
            (Some(c), Some(k), Some(a)) => {
                &&& p matches TlsPlan::Files { cert, key, ca, mtls, embedded: e } && cert@ == c@
                    && key@ == k@ && ca@ == a@ && mtls == opts.mtls && e == embedded
            },
            _ => {
                &&& p matches TlsPlan::SelfSigned { node, gateway, embedded: e }
                &&& e == embedded
                &&& node.name@ == "holofs-node"@
                &&& hosts(node) == seq!["127.0.0.1"@, "localhost"@]
                &&& gateway is Some <==> opts.mtls
                &&& gateway matches Some(g) ==> g.name@ == "holofs-gateway"@ && hosts(g)
                    == seq!["127.0.0.1"@]
            },
        }
    }
}

/// Decides how the connections are secured: all three files must be named, or none. `embedded`
/// says whether the gateway starts the nodes itself.
pub fn build_tls(opts: &TlsOptions, embedded: bool) -> (r: Result<TlsPlan, &'static str>)
    ensures
        ({
            let named = (opts.cert_path is Some, opts.key_path is Some, opts.ca_path is Some);
            if opts.enabled && named != (true, true, true) && named != (false, false, false) {
                r matches Err(e) && e@
                    == "partial TLS config: provide all of --tls-cert, --tls-key, --tls-ca-cert"@
            } else {
                r matches Ok(p) && is_tls_plan(*opts, embedded, p)
            }
        }),
{
    if !opts.enabled {
        return Ok(TlsPlan::Off);
    }
    match (&opts.cert_path, &opts.key_path, &opts.ca_path) {
        (Some(c), Some(k), Some(a)) => Ok(
            TlsPlan::Files {
                cert: String::from_str(c.as_str()),
                key: String::from_str(k.as_str()),
                ca: String::from_str(a.as_str()),
                mtls: opts.mtls,
                embedded,
            },
        ),
        (None, None, None) => {
            let mut h: Vec<&'static str> = Vec::new();
            h.push("127.0.0.1");
            h.push("localhost");
            let node = LeafPlan { name: "holofs-node", hosts: h };
            assert(hosts(node) =~= seq!["127.0.0.1"@, "localhost"@]);
            let gateway: Option<LeafPlan> = if opts.mtls {
                let mut g: Vec<&'static str> = Vec::new();
                g.push("127.0.0.1");
                let leaf = LeafPlan { name: "holofs-gateway", hosts: g };
                assert(hosts(leaf) =~= seq!["127.0.0.1"@]);
                Some(leaf)
            } else {
                None
            };
            Ok(TlsPlan::SelfSigned { node, gateway, embedded })
        },
        _ => Err("partial TLS config: provide all of --tls-cert, --tls-key, --tls-ca-cert"),
    }
}

/// What came of asking a node for a shard that it should hold.
#[derive(Debug, Clone, Copy, PartialEq, Eq, Structural)]
pub enum AuditOutcome {
    Pass,
    MissingShard,
    HashMismatch,
    Unreachable,
    ProtocolError,
}

/// The word under which a failed question is logged; a node that passed is not logged.
pub fn audit_tag(outcome: AuditOutcome) -> (r: Option<&'static str>)
    ensures
        match outcome {
            AuditOutcome::Pass => r is None,
            AuditOutcome::MissingShard => r matches Some(t) && t@ == "MISSING"@,
            AuditOutcome::HashMismatch => r matches Some(t) && t@ == "MISMATCH"@,
            AuditOutcome::Unreachable => r matches Some(t) && t@ == "UNREACH"@,
            AuditOutcome::ProtocolError => r matches Some(t) && t@ == "PROTO"@,
        },
{
    match outcome {
        AuditOutcome::Pass => None,
        AuditOutcome::MissingShard => Some("MISSING"),
        AuditOutcome::HashMismatch => Some("MISMATCH"),
        AuditOutcome::Unreachable => Some("UNREACH"),
        AuditOutcome::ProtocolError => Some("PROTO"),
    }
}

} // verus!
