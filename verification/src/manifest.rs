//! What the catalog knows of an object, and what lists and pages show of it.
use vstd::prelude::*;
use vstd::string::StringExecFns;

use crate::filter::CatalogEntry;
use crate::health_view::{cid_texts, kind_label, kind_name, ObjectKind};
use crate::hex::hex;

verus! {

/// What the catalog knows of an object.
#[derive(Debug)]
pub struct Manifest {
    pub kind: ObjectKind,
    pub content_type: String,
    pub width: u32,
    pub height: u32,
    /// How many shards there are of each layer, in one channel.
    pub n_per_layer: Vec<u32>,
    /// How many bytes a shard of each layer carries.
    pub sym_len: Vec<u32>,
    /// How many shards are needed, and so how many coefficients each has.
    pub k: u16,
    pub channels: u8,
    pub data_cid: [u8; 32],
    pub audio_sample_rate: u32,
    pub created_at_unix: u64,
}

/// How many shards the first `n` layers have, in one channel.
pub open spec fn shards_of(n_per_layer: Seq<u32>, n: nat) -> nat
    decreases n,
{
    if n == 0 {
        0
    } else {
        shards_of(n_per_layer, (n - 1) as nat) + n_per_layer[n - 1] as nat
    }
}

/// How many bytes the shards of layer `l` take in one channel: the coefficients count as well.
pub open spec fn channel_bytes(m: Manifest, l: int) -> nat {
    let sym = if l < m.sym_len@.len() {
        m.sym_len@[l] as nat
    } else {
        0
    };
    m.n_per_layer@[l] as nat * (sym + m.k as nat)
}

/// How many bytes the shards of layer `l` take.
pub open spec fn layer_bytes(m: Manifest, l: int) -> nat {
    channel_bytes(m, l) * m.channels as nat
}

/// How many bytes the shards of the first `n` layers take.
pub open spec fn bytes_of_layers(m: Manifest, n: nat) -> nat
    decreases n,
{
    if n == 0 {
        0
    } else {
        bytes_of_layers(m, (n - 1) as nat) + layer_bytes(m, n - 1)
    }
}

proof fn lemma_shards_grow(v: Seq<u32>, a: nat, b: nat)
    requires
        a <= b <= v.len(),
    ensures
        shards_of(v, a) <= shards_of(v, b),
    decreases b,
{
    if a < b {
        lemma_shards_grow(v, a, (b - 1) as nat);
    }
}

proof fn lemma_bytes_grow(m: Manifest, a: nat, b: nat)
    requires
        a <= b <= m.n_per_layer@.len(),
    ensures
        bytes_of_layers(m, a) <= bytes_of_layers(m, b),
    decreases b,
{
    if a < b {
        lemma_bytes_grow(m, a, (b - 1) as nat);
    }
}

/// The number of shards of an object.
fn count_shards(m: &Manifest) -> (r: u32)
    requires
        shards_of(m.n_per_layer@, m.n_per_layer@.len()) <= u32::MAX,
    ensures
        r == shards_of(m.n_per_layer@, m.n_per_layer@.len()),
{
    let mut sum: u32 = 0;
    let mut l: usize = 0;
    while l < m.n_per_layer.len()
        invariant
            0 <= l <= m.n_per_layer@.len(),
            sum == shards_of(m.n_per_layer@, l as nat),
            shards_of(m.n_per_layer@, m.n_per_layer@.len()) <= u32::MAX,
        decreases m.n_per_layer@.len() - l,
    {
        proof {
            lemma_shards_grow(m.n_per_layer@, (l + 1) as nat, m.n_per_layer@.len());
        }
        sum = sum + m.n_per_layer[l];
        l += 1;
    }
    sum
}

/// Whether the sums over an object fit the numbers that hold them.
pub open spec fn can_be_counted(m: Manifest) -> bool {
    let layers = m.n_per_layer@.len();
    &&& shards_of(m.n_per_layer@, layers) <= u32::MAX
    &&& shards_of(m.n_per_layer@, layers) * m.channels <= u32::MAX
    &&& forall|l: int| 0 <= l < layers ==> #[trigger] channel_bytes(m, l) <= u64::MAX
    &&& bytes_of_layers(m, layers) <= u64::MAX
}

/// The number of bytes that the shards of an object take.
fn count_bytes(m: &Manifest) -> (r: u64)
    requires
        can_be_counted(*m),
    ensures
        r == bytes_of_layers(*m, m.n_per_layer@.len()),
{
    let mut sum: u64 = 0;
    let mut l: usize = 0;
    while l < m.n_per_layer.len()
        invariant
            0 <= l <= m.n_per_layer@.len(),
            sum == bytes_of_layers(*m, l as nat),
            can_be_counted(*m),
        decreases m.n_per_layer@.len() - l,
    {
        let sym: u64 = if l < m.sym_len.len() {
            m.sym_len[l] as u64
        } else {
            0
        };
        let n: u64 = m.n_per_layer[l] as u64;
        let per: u64 = sym + m.k as u64;
        proof {
            lemma_bytes_grow(*m, (l + 1) as nat, m.n_per_layer@.len());
            assert(channel_bytes(*m, l as int) == n * per);
        }
        let one: u64 = n * per;
        sum = sum + one * m.channels as u64;
        l += 1;
    }
    sum
}

impl CatalogEntry {
    /// What lists and pages show of an object.
    pub fn from_manifest(name: &str, m: &Manifest) -> (r: CatalogEntry)
        requires
            can_be_counted(*m),
        ensures
            r.name@ == name@,
            r.kind@ == kind_name(m.kind),
            r.content_type@ == m.content_type@,
            r.width == m.width,
            r.height == m.height,
            r.n_shards == shards_of(m.n_per_layer@, m.n_per_layer@.len()) * m.channels,
            r.bytes_stored == bytes_of_layers(*m, m.n_per_layer@.len()),
            r.cid_short@ == hex(m.data_cid@).take(12),
            r.audio_sample_rate == m.audio_sample_rate,
            r.channels == m.channels,
            r.created_at_unix == m.created_at_unix,
    {
        let shards: u32 = count_shards(m);
        CatalogEntry {
            name: String::from_str(name),
            kind: String::from_str(kind_label(m.kind)),
            content_type: String::from_str(m.content_type.as_str()),
            width: m.width,
            height: m.height,
            n_shards: shards * m.channels as u32,
            bytes_stored: count_bytes(m),
            cid_short: cid_texts(&m.data_cid).0,
            audio_sample_rate: m.audio_sample_rate,
            channels: m.channels,
            created_at_unix: m.created_at_unix,
        }
    }
}

} // verus!
