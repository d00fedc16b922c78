//! What the health and diff pages show, as plain values.
use vstd::prelude::*;
use vstd::string::StringExecFns;

use crate::hex::{encode_hex_bytes, hex};
use crate::text::{dec, dec_string, texts};

verus! {

/// What a catalog object is.
#[derive(Debug, Clone, Copy, PartialEq, Eq, Structural)]
pub enum ObjectKind {
    Image,
    Audio,
    Text,
    Opaque,
    Directory,
}

/// The name of a kind.
pub open spec fn kind_name(kind: ObjectKind) -> Seq<char> {
    match kind {
        ObjectKind::Image => "image"@,
        ObjectKind::Audio => "audio"@,
        ObjectKind::Text => "text"@,
        ObjectKind::Opaque => "opaque"@,
        ObjectKind::Directory => "directory"@,
    }
}

/// The name of a kind.
pub fn kind_label(kind: ObjectKind) -> (r: &'static str)
    ensures
        r@ == kind_name(kind),
{
    match kind {
        ObjectKind::Image => "image",
        ObjectKind::Audio => "audio",
        ObjectKind::Text => "text",
        ObjectKind::Opaque => "opaque",
        ObjectKind::Directory => "directory",
    }
}

/// A node in the table of nodes.
#[derive(Debug, Clone, PartialEq, Eq)]
pub struct NodeRow {
    pub idx: usize,
    pub addr: String,
    pub zone: u8,
    pub admin_killed: bool,
}

/// The class and the keys of the labels for a node's state and for the button that changes
/// it.
pub fn node_status(admin_killed: bool) -> (r: (&'static str, &'static str, &'static str))
    ensures
        r.0@ == if admin_killed {
            "bad"@
        } else {
            "ok"@
        },
        r.1@ == if admin_killed {
            "health.status.disabled"@
        } else {
            "health.status.live"@
        },
        r.2@ == if admin_killed {
            "health.action.revive"@
        } else {
            "health.action.kill"@
        },
{
    if admin_killed {
        ("bad", "health.status.disabled", "health.action.revive")
    } else {
        ("ok", "health.status.live", "health.action.kill")
    }
}

/// A snapshot of the cluster.
#[derive(Debug, Clone, Copy, PartialEq, Eq, Structural)]
pub struct HealthSnapshot {
    pub n_live: usize,
    pub n_total: usize,
    pub objects: usize,
    /// When, in milliseconds since 1970.
    pub ts_ms: u64,
}

/// How the stream of snapshots stands.
#[derive(Debug, Clone, Copy, PartialEq, Eq, Structural)]
pub enum SseState {
    Connecting,
    Live,
    Disconnected,
}

/// What happens on the stream of snapshots.
#[derive(Debug, Clone, Copy, PartialEq, Eq, Structural)]
pub enum SseEvent {
    /// The stream could not be made.
    Refused,
    Open,
    /// A message that is a snapshot, or that is none.
    Message(Option<HealthSnapshot>),
    Error,
}

/// The cards with the state of the cluster.
#[derive(Debug, Clone, Copy, PartialEq, Eq, Structural)]
pub struct LiveStats {
    pub snap: HealthSnapshot,
    pub state: SseState,
}

impl LiveStats {
    /// The cards with the snapshot that came with the page.
    pub fn new(initial: HealthSnapshot) -> (r: LiveStats)
        ensures
            r.snap == initial,
            r.state == SseState::Connecting,
    {
        LiveStats { snap: initial, state: SseState::Connecting }
    }

    /// Takes an event: any message shows that the stream is live, and a snapshot in it is
    /// shown.
    pub fn on_event(&mut self, e: SseEvent)
        ensures
            final(self).state == match e {
                SseEvent::Open | SseEvent::Message(_) => SseState::Live,
                SseEvent::Refused | SseEvent::Error => SseState::Disconnected,
            },
            final(self).snap == match e {
                SseEvent::Message(Some(s)) => s,
                _ => old(self).snap,
            },
    {
        match e {
            SseEvent::Open => {
                self.state = SseState::Live;
            },
            SseEvent::Message(m) => {
                self.state = SseState::Live;
                match m {
                    Some(s) => {
                        self.snap = s;
                    },
                    None => {},
                }
            },
            SseEvent::Refused => {
                self.state = SseState::Disconnected;
            },
            SseEvent::Error => {
                self.state = SseState::Disconnected;
            },
        }
    }

    /// How many nodes are live, of how many.
    pub fn live_label(&self) -> (r: String)
        ensures
            r@ == dec(self.snap.n_live as nat) + "/"@ + dec(self.snap.n_total as nat),
    {
        dec_string(self.snap.n_live as u64).concat("/").concat(
            dec_string(self.snap.n_total as u64).as_str(),
        )
    }

    /// How many nodes are switched off.
    pub fn disabled_label(&self) -> (r: String)
        requires
            self.snap.n_live <= self.snap.n_total,
        ensures
            r@ == dec((self.snap.n_total - self.snap.n_live) as nat),
    {
        dec_string((self.snap.n_total - self.snap.n_live) as u64)
    }

    /// The class of the number of live nodes.
    pub fn live_class(&self) -> (r: &'static str)
        ensures
            r@ == if self.snap.n_live == self.snap.n_total {
                "v ok"@
            } else {
                "v partial"@
            },
    {
        if self.snap.n_live == self.snap.n_total {
            "v ok"
        } else {
            "v partial"
        }
    }

    /// The class of the sign for the stream.
    pub fn sse_class(&self) -> (r: &'static str)
        ensures
            r@ == match self.state {
                SseState::Live => "v mono ok"@,
                SseState::Disconnected => "v mono bad"@,
                SseState::Connecting => "v mono mut"@,
            },
    {
        match self.state {
            SseState::Live => "v mono ok",
            SseState::Disconnected => "v mono bad",
            SseState::Connecting => "v mono mut",
        }
    }

    /// The sign for the stream in words.
    pub fn sse_aria(&self) -> (r: &'static str)
        ensures
            r@ == match self.state {
                SseState::Live => "live"@,
                SseState::Disconnected => "disconnected"@,
                SseState::Connecting => "connecting"@,
            },
    {
        match self.state {
            SseState::Live => "live",
            SseState::Disconnected => "disconnected",
            SseState::Connecting => "connecting",
        }
    }
}

/// A layer of a channel of an object.
#[derive(Debug, Clone, Copy, PartialEq, Eq, Structural)]
pub struct LayerRow {
    pub channel: u8,
    pub layer: u8,
    pub n_shards: u32,
    pub n_alive: u32,
    pub n_hosting_nodes: u32,
    pub k: u16,
    pub margin: i32,
}

/// What is left of an object when a zone dies.
#[derive(Debug, Clone, Copy, PartialEq, Eq, Structural)]
pub struct ZoneFailureRow {
    pub zone: u8,
    pub nodes_in_zone: u32,
    /// The last layer that survives; none where the object is lost.
    pub resolution: Option<u8>,
}

/// The layers from the first to `l`.
pub open spec fn layers_to(l: nat) -> Seq<char> {
    "L0-L"@ + dec(l)
}

/// What can still be read of an object, and the class of that.
pub fn resolution_label(current: Option<u8>, nlayers: u8) -> (r: (String, &'static str))
    ensures
        match current {
            Some(l) => r.1@ == "v ok"@ && r.0@ == if l + 1 == nlayers {
                "full ("@ + layers_to(l as nat) + ")"@
            } else {
                layers_to(l as nat)
            },
            None => r.1@ == "v bad"@ && r.0@ == "DEAD"@,
        },
{
    match current {
        Some(l) => {
            let t = String::from_str("L0-L").concat(dec_string(l as u64).as_str());
            if l as u16 + 1 == nlayers as u16 {
                (String::from_str("full (").concat(t.as_str()).concat(")"), "v ok")
            } else {
                (t, "v ok")
            }
        },
        None => (String::from_str("DEAD"), "v bad"),
    }
}

/// What is left of an object when a zone dies, and the class of that.
pub fn zone_label(resolution: Option<u8>) -> (r: (String, &'static str))
    ensures
        match resolution {
            Some(l) => r.1@ == "ok"@ && r.0@ == layers_to(l as nat),
            None => r.1@ == "bad"@ && r.0@ == "DEAD"@,
        },
{
    match resolution {
        Some(l) => (String::from_str("L0-L").concat(dec_string(l as u64).as_str()), "ok"),
        None => (String::from_str("DEAD"), "bad"),
    }
}

/// The name of a layer in the matrix of layers.
pub fn layer_label(l: u8, nlayers: u8) -> (r: String)
    ensures
        r@ == if l == 0 {
            "L0 · LL (coarse)"@
        } else if l + 1 == nlayers {
            "L"@ + dec(l as nat) + " · HH (fine)"@
        } else {
            "L"@ + dec(l as nat)
        },
{
    if l == 0 {
        String::from_str("L0 · LL (coarse)")
    } else if l as u16 + 1 == nlayers as u16 {
        String::from_str("L").concat(dec_string(l as u64).as_str()).concat(" · HH (fine)")
    } else {
        String::from_str("L").concat(dec_string(l as u64).as_str())
    }
}

/// A number with its sign.
pub open spec fn signed(n: int) -> Seq<char> {
    if n < 0 {
        "-"@ + dec((-n) as nat)
    } else {
        "+"@ + dec(n as nat)
    }
}

/// A number with its sign.
pub fn signed_string(n: i32) -> (r: String)
    ensures
        r@ == signed(n as int),
{
    if n < 0 {
        let m: i64 = -(n as i64);
        String::from_str("-").concat(dec_string(m as u64).as_str())
    } else {
        String::from_str("+").concat(dec_string(n as u64).as_str())
    }
}

/// A cell of the matrix of layers: how many shards are alive, of how many that are needed,
/// and by how many that is too few or more than enough; and the class of that.
pub fn layer_cell(row: &LayerRow, k: u16) -> (r: (String, &'static str))
    ensures
        r.0@ == dec(row.n_alive as nat) + "/"@ + dec(k as nat) + "  ("@ + signed(row.margin as int)
            + ")"@,
        r.1@ == if row.margin < 0 {
            "bad"@
        } else if row.margin == 0 {
            "partial"@
        } else {
            "ok"@
        },
{
    let text = dec_string(row.n_alive as u64).concat("/").concat(dec_string(k as u64).as_str()).concat(
        "  (",
    ).concat(signed_string(row.margin).as_str()).concat(")");
    let class = if row.margin < 0 {
        "bad"
    } else if row.margin == 0 {
        "partial"
    } else {
        "ok"
    };
    (text, class)
}

/// The row for a layer of a channel.
pub fn find_layer(layers: &Vec<LayerRow>, channel: u8, layer: u8) -> (r: Option<LayerRow>)
    ensures
        match r {
            Some(x) => exists|i: int|
                {
                    &&& 0 <= i < layers@.len()
                    &&& #[trigger] layers@[i] == x
                    &&& x.channel == channel && x.layer == layer
                    &&& forall|j: int|
                        0 <= j < i ==> !((#[trigger] layers@[j]).channel == channel && layers@[j].layer
                            == layer)
                },
            None => forall|i: int|
                0 <= i < layers@.len() ==> !((#[trigger] layers@[i]).channel == channel
                    && layers@[i].layer == layer),
        },
{
    let mut i: usize = 0;
    while i < layers.len()
        invariant
            0 <= i <= layers@.len(),
            forall|j: int|
                0 <= j < i ==> !((#[trigger] layers@[j]).channel == channel && layers@[j].layer
                    == layer),
        decreases layers@.len() - i,
    {
        let x = layers[i];
        if x.channel == channel && x.layer == layer {
            assert(layers@[i as int] == x);
            return Some(x);
        }
        i += 1;
    }
    None
}

/// The heading for the outcome that the layers up to `l` survive.
pub open spec fn loss_heading(l: int, nlayers: u8) -> Seq<char> {
    if l + 1 == nlayers {
        layers_to(l as nat) + " (full)"@
    } else {
        layers_to(l as nat)
    }
}

/// The headings of the table of losses: that the object is dead, and then one for each
/// layer.
pub fn loss_headings(nlayers: u8) -> (r: Vec<String>)
    ensures
        texts(r@) == seq!["dead"@] + Seq::new(nlayers as nat, |l: int| loss_heading(l, nlayers)),
{
    let mut out: Vec<String> = Vec::new();
    out.push(String::from_str("dead"));
    let mut l: u8 = 0;
    while l < nlayers
        invariant
            0 <= l <= nlayers,
            out@.len() == l + 1,
            out@[0]@ == "dead"@,
            forall|j: int| 1 <= j < out@.len() ==> (#[trigger] out@[j])@ == loss_heading(j - 1, nlayers),
        decreases nlayers - l,
    {
        let t = String::from_str("L0-L").concat(dec_string(l as u64).as_str());
        if l as u16 + 1 == nlayers as u16 {
            out.push(t.concat(" (full)"));
        } else {
            out.push(t);
        }
        l += 1;
    }
    assert(texts(out@) =~= seq!["dead"@] + Seq::new(
        nlayers as nat,
        |l: int| loss_heading(l, nlayers),
    ));
    out
}

/// A cell of the diff of two objects.
#[derive(Debug, Clone, Copy, PartialEq, Eq, Structural)]
pub struct DiffCellView {
    pub idx: u32,
    pub is_common: bool,
}

/// A layer of the diff of two objects.
#[derive(Debug)]
pub struct DiffLayerView {
    pub channel: u8,
    pub layer: u8,
    pub n_common: usize,
    pub n_total: usize,
    pub cells: Vec<DiffCellView>,
}

/// The class and the title of a cell of a diff.
pub fn diff_cell(c: &DiffCellView) -> (r: (&'static str, String))
    ensures
        r.0@ == if c.is_common {
            "diff-cell common"@
        } else {
            "diff-cell diff"@
        },
        r.1@ == "chunk #"@ + dec(c.idx as nat),
{
    let class = if c.is_common {
        "diff-cell common"
    } else {
        "diff-cell diff"
    };
    (class, String::from_str("chunk #").concat(dec_string(c.idx as u64).as_str()))
}

/// How much storage is shared, in kilobytes.
pub fn saved_label(storage_saved_bytes: u64) -> (r: String)
    ensures
        r@ == "~"@ + dec((storage_saved_bytes / 1024) as nat) + " KB"@,
{
    String::from_str("~").concat(dec_string(storage_saved_bytes / 1024).as_str()).concat(" KB")
}

/// The first digits of an object's content id, and the id.
pub fn cid_texts(data_cid: &[u8; 32]) -> (r: (String, String))
    ensures
        r.0@ == hex(data_cid@).take(12),
        r.1@ == hex(data_cid@),
{
    let full = encode_hex_bytes(data_cid.as_slice());
    let v = crate::text::chars_of(full.as_str());
    (crate::text::string_of(crate::text::take_chars(v.as_slice(), 12)), full)
}

} // verus!
