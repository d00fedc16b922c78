//! The counters of the gateway as a monitoring system reads them, and as JSON.
use vstd::prelude::*;
use vstd::string::StringExecFns;

use crate::text::{dec, dec_string};

verus! {

/// How many objects there are of each kind.
#[derive(Debug, Clone, Copy, PartialEq, Eq, Structural)]
pub struct KindCounts {
    pub image: u64,
    pub audio: u64,
    pub text: u64,
    pub opaque: u64,
    pub directory: u64,
}

/// What is counted over the whole cluster. The share that is saved by keeping equal shards once
/// is a text with two places.
#[derive(Debug)]
pub struct ApiStats {
    pub nodes_total: u64,
    pub nodes_live: u64,
    pub objects_total: u64,
    pub objects_by_kind: KindCounts,
    pub shards_total: u64,
    pub shards_unique: u64,
    pub dedup_savings_pct: String,
    pub bytes_total: u64,
    pub auto_repairs_total: u64,
    pub auto_repair_failures_total: u64,
    pub scrub_runs_total: u64,
    pub scrub_repairs_total: u64,
}

/// What one gateway has counted since it started.
#[derive(Debug, Clone, Copy, PartialEq, Eq, Structural)]
pub struct Counters {
    pub catalog_persist_failures_total: u64,
    pub timeout_short_total: u64,
    pub timeout_medium_total: u64,
    pub timeout_long_total: u64,
    pub medium_rejected_total: u64,
    pub long_rejected_total: u64,
    pub medium_permits_available: u64,
    pub long_permits_available: u64,
    pub task_restarts_monitor: u64,
    pub task_restarts_auditor: u64,
    pub task_restarts_scrub: u64,
    pub objects_encoding: u64,
    pub encode_completed_total: u64,
    pub encode_failed_total: u64,
    pub put_cpu_ns_sum: u64,
    pub put_fanout_ns_sum: u64,
    pub put_count: u64,
    pub rate_limit_rejected_total: u64,
    pub admin_auth_missing_total: u64,
    pub admin_auth_bad_total: u64,
    pub admin_auth_disabled_total: u64,
}

/// The nodes: which of them are switched off, where they are and in which zones.
#[derive(Debug)]
pub struct NodeFlags {
    pub kills: Vec<bool>,
    pub addrs: Vec<String>,
    pub zones: Vec<u8>,
}

/// The two lines that stand before a counter: what it counts, and whether it only grows.
pub open spec fn family(name: Seq<char>, help: Seq<char>, kind: Seq<char>) -> Seq<char> {
    "# HELP "@ + name + " "@ + help + "\n# TYPE "@ + name + " "@ + kind + "\n"@
}

/// The line with the value of a counter; a counter with several values has a label on each.
pub open spec fn sample(name: Seq<char>, labels: Seq<char>, value: Seq<char>) -> Seq<char> {
    name + (if labels.len() == 0 {
        Seq::empty()
    } else {
        "{"@ + labels + "}"@
    }) + " "@ + value + "\n"@
}

fn push_family(buf: &mut String, name: &str, help: &str, kind: &str)
    ensures
        final(buf)@ == old(buf)@ + family(name@, help@, kind@),
{
    let ghost before = buf@;
    buf.append("# HELP ");
    buf.append(name);
    buf.append(" ");
    buf.append(help);
    buf.append("\n# TYPE ");
    buf.append(name);
    buf.append(" ");
    buf.append(kind);
    buf.append("\n");
    assert(buf@ =~= before + family(name@, help@, kind@));
}

fn push_text(buf: &mut String, name: &str, labels: &str, value: &str)
    ensures
        final(buf)@ == old(buf)@ + sample(name@, labels@, value@),
{
    let ghost before = buf@;
    buf.append(name);
    if !labels.is_empty() {
        buf.append("{");
        buf.append(labels);
        buf.append("}");
    }
    buf.append(" ");
    buf.append(value);
    buf.append("\n");
    assert(buf@ =~= before + sample(name@, labels@, value@));
}

fn push_sample(buf: &mut String, name: &str, labels: &str, value: u64)
    ensures
        final(buf)@ == old(buf)@ + sample(name@, labels@, dec(value as nat)),
{
    push_text(buf, name, labels, dec_string(value).as_str());
}

/// The line with the value of a counter that has one value.
pub open spec fn single(name: Seq<char>, help: Seq<char>, kind: Seq<char>, value: u64) -> Seq<char> {
    family(name, help, kind) + sample(name, Seq::empty(), dec(value as nat))
}

fn push_single(buf: &mut String, name: &str, help: &str, kind: &str, value: u64)
    ensures
        final(buf)@ == old(buf)@ + single(name@, help@, kind@, value),
{
    proof {
        reveal_strlit("");
    }
    let ghost before = buf@;
    push_family(buf, name, help, kind);
    push_sample(buf, name, "", value);
    assert(""@ =~= Seq::<char>::empty());
    assert(buf@ =~= before + single(name@, help@, kind@, value));
}

/// The nodes and the objects.
pub open spec fn cluster_text(s: ApiStats) -> Seq<char> {
    single(
        "holofs_nodes_total"@,
        "Total nodes in the cluster topology."@,
        "gauge"@,
        s.nodes_total,
    )
        + single(
        "holofs_nodes_live"@,
        "Nodes not currently admin-disabled."@,
        "gauge"@,
        s.nodes_live,
    )
        + family(
        "holofs_objects_total"@,
        "Objects in the catalog, broken down by kind."@,
        "gauge"@,
    )
        + sample("holofs_objects_total"@, "kind=\"image\""@, dec(s.objects_by_kind.image as nat))
        + sample("holofs_objects_total"@, "kind=\"audio\""@, dec(s.objects_by_kind.audio as nat))
        + sample("holofs_objects_total"@, "kind=\"text\""@, dec(s.objects_by_kind.text as nat))
        + sample("holofs_objects_total"@, "kind=\"opaque\""@, dec(s.objects_by_kind.opaque as nat))
        + sample("holofs_objects_total"@, "kind=\"directory\""@, dec(s.objects_by_kind.directory as nat))
}

fn push_cluster(buf: &mut String, s: &ApiStats)
    ensures
        final(buf)@ == old(buf)@ + cluster_text(*s),
{
    let ghost before = buf@;
    push_single(
        buf,
        "holofs_nodes_total",
        "Total nodes in the cluster topology.",
        "gauge",
        s.nodes_total,
    );
    push_single(
        buf,
        "holofs_nodes_live",
        "Nodes not currently admin-disabled.",
        "gauge",
        s.nodes_live,
    );
    push_family(
        buf,
        "holofs_objects_total",
        "Objects in the catalog, broken down by kind.",
        "gauge",
    );
    push_sample(buf, "holofs_objects_total", "kind=\"image\"", s.objects_by_kind.image);
    push_sample(buf, "holofs_objects_total", "kind=\"audio\"", s.objects_by_kind.audio);
    push_sample(buf, "holofs_objects_total", "kind=\"text\"", s.objects_by_kind.text);
    push_sample(buf, "holofs_objects_total", "kind=\"opaque\"", s.objects_by_kind.opaque);
    push_sample(buf, "holofs_objects_total", "kind=\"directory\"", s.objects_by_kind.directory);
    assert(buf@ =~= before + cluster_text(*s));
}

/// The shards and their repair.
pub open spec fn objects_text(s: ApiStats) -> Seq<char> {
    single(
        "holofs_shards_total"@,
        "Planned shards across every object × layer × channel."@,
        "gauge"@,
        s.shards_total,
    )
        + single(
        "holofs_shards_unique"@,
        "Distinct shard hashes recorded across the catalog."@,
        "gauge"@,
        s.shards_unique,
    )
        + family(
        "holofs_dedup_savings_pct"@,
        "(1 - unique/total) * 100."@,
        "gauge"@,
    )
        + sample("holofs_dedup_savings_pct"@, ""@, s.dedup_savings_pct@)
        + single(
        "holofs_bytes_total"@,
        "Approximate stored bytes across the cluster."@,
        "gauge"@,
        s.bytes_total,
    )
        + single(
        "holofs_auto_repairs_total"@,
        "GET path hit a LayerLost error and ran an inline repair_node pass."@,
        "counter"@,
        s.auto_repairs_total,
    )
        + single(
        "holofs_auto_repair_failures_total"@,
        "Auto-repair attempted but the post-repair decode also failed (irrecoverable)."@,
        "counter"@,
        s.auto_repair_failures_total,
    )
        + single(
        "holofs_scrub_runs_total"@,
        "Background scrub-task tick count."@,
        "counter"@,
        s.scrub_runs_total,
    )
        + single(
        "holofs_scrub_repairs_total"@,
        "Objects the background scrub repaired before any user GET tripped them."@,
        "counter"@,
        s.scrub_repairs_total,
    )
}

fn push_objects(buf: &mut String, s: &ApiStats)
    ensures
        final(buf)@ == old(buf)@ + objects_text(*s),
{
    let ghost before = buf@;
    push_single(
        buf,
        "holofs_shards_total",
        "Planned shards across every object × layer × channel.",
        "gauge",
        s.shards_total,
    );
    push_single(
        buf,
        "holofs_shards_unique",
        "Distinct shard hashes recorded across the catalog.",
        "gauge",
        s.shards_unique,
    );
    push_family(
        buf,
        "holofs_dedup_savings_pct",
        "(1 - unique/total) * 100.",
        "gauge",
    );
    push_text(buf, "holofs_dedup_savings_pct", "", s.dedup_savings_pct.as_str());
    push_single(
        buf,
        "holofs_bytes_total",
        "Approximate stored bytes across the cluster.",
        "gauge",
        s.bytes_total,
    );
    push_single(
        buf,
        "holofs_auto_repairs_total",
        "GET path hit a LayerLost error and ran an inline repair_node pass.",
        "counter",
        s.auto_repairs_total,
    );
    push_single(
        buf,
        "holofs_auto_repair_failures_total",
        "Auto-repair attempted but the post-repair decode also failed (irrecoverable).",
        "counter",
        s.auto_repair_failures_total,
    );
    push_single(
        buf,
        "holofs_scrub_runs_total",
        "Background scrub-task tick count.",
        "counter",
        s.scrub_runs_total,
    );
    push_single(
        buf,
        "holofs_scrub_repairs_total",
        "Objects the background scrub repaired before any user GET tripped them.",
        "counter",
        s.scrub_repairs_total,
    );
    assert(buf@ =~= before + objects_text(*s));
}

/// What the frontend refused or could not do in time.
pub open spec fn requests_text(c: Counters) -> Seq<char> {
    single(
        "holofs_catalog_persist_failures_total"@,
        "Atomic catalog save-to-disk failures. Non-zero means the on-disk catalog is behind memory."@,
        "counter"@,
        c.catalog_persist_failures_total,
    )
        + family(
        "holofs_handler_timeouts_total"@,
        "504 Gateway Timeout responses, split by deadline bucket."@,
        "counter"@,
    )
        + sample("holofs_handler_timeouts_total"@, "bucket=\"short\""@, dec(c.timeout_short_total as nat))
        + sample("holofs_handler_timeouts_total"@, "bucket=\"medium\""@, dec(c.timeout_medium_total as nat))
        + sample("holofs_handler_timeouts_total"@, "bucket=\"long\""@, dec(c.timeout_long_total as nat))
        + family(
        "holofs_backpressure_rejected_total"@,
        "503 responses caused by N3 backpressure (semaphore at capacity), split by bucket."@,
        "counter"@,
    )
        + sample("holofs_backpressure_rejected_total"@, "bucket=\"medium\""@, dec(c.medium_rejected_total as nat))
        + sample("holofs_backpressure_rejected_total"@, "bucket=\"long\""@, dec(c.long_rejected_total as nat))
        + family(
        "holofs_backpressure_permits_available"@,
        "Backpressure semaphore permits still free, by bucket."@,
        "gauge"@,
    )
        + sample("holofs_backpressure_permits_available"@, "bucket=\"medium\""@, dec(c.medium_permits_available as nat))
        + sample("holofs_backpressure_permits_available"@, "bucket=\"long\""@, dec(c.long_permits_available as nat))
}

fn push_requests(buf: &mut String, c: &Counters)
    ensures
        final(buf)@ == old(buf)@ + requests_text(*c),
{
    let ghost before = buf@;
    push_single(
        buf,
        "holofs_catalog_persist_failures_total",
        "Atomic catalog save-to-disk failures. Non-zero means the on-disk catalog is behind memory.",
        "counter",
        c.catalog_persist_failures_total,
    );
    push_family(
        buf,
        "holofs_handler_timeouts_total",
        "504 Gateway Timeout responses, split by deadline bucket.",
        "counter",
    );
    push_sample(buf, "holofs_handler_timeouts_total", "bucket=\"short\"", c.timeout_short_total);
    push_sample(buf, "holofs_handler_timeouts_total", "bucket=\"medium\"", c.timeout_medium_total);
    push_sample(buf, "holofs_handler_timeouts_total", "bucket=\"long\"", c.timeout_long_total);
    push_family(
        buf,
        "holofs_backpressure_rejected_total",
        "503 responses caused by N3 backpressure (semaphore at capacity), split by bucket.",
        "counter",
    );
    push_sample(buf, "holofs_backpressure_rejected_total", "bucket=\"medium\"", c.medium_rejected_total);
    push_sample(buf, "holofs_backpressure_rejected_total", "bucket=\"long\"", c.long_rejected_total);
    push_family(
        buf,
        "holofs_backpressure_permits_available",
        "Backpressure semaphore permits still free, by bucket.",
        "gauge",
    );
    push_sample(buf, "holofs_backpressure_permits_available", "bucket=\"medium\"", c.medium_permits_available);
    push_sample(buf, "holofs_backpressure_permits_available", "bucket=\"long\"", c.long_permits_available);
    assert(buf@ =~= before + requests_text(*c));
}

/// The work in the background.
pub open spec fn work_text(c: Counters) -> Seq<char> {
    family(
        "holofs_supervised_task_restarts_total"@,
        "Supervised background task restarts (panic or unexpected exit). Non-zero flags a repeated crash under monitor/auditor/scrub."@,
        "counter"@,
    )
        + sample("holofs_supervised_task_restarts_total"@, "task=\"monitor\""@, dec(c.task_restarts_monitor as nat))
        + sample("holofs_supervised_task_restarts_total"@, "task=\"auditor\""@, dec(c.task_restarts_auditor as nat))
        + sample("holofs_supervised_task_restarts_total"@, "task=\"scrub\""@, dec(c.task_restarts_scrub as nat))
        + single(
        "holofs_objects_encoding"@,
        "Currently-encoding objects (async ingest, in-flight background workers)."@,
        "gauge"@,
        c.objects_encoding,
    )
        + single(
        "holofs_encode_completed_total"@,
        "Async-ingest background encodes that finished successfully."@,
        "counter"@,
        c.encode_completed_total,
    )
        + single(
        "holofs_encode_failed_total"@,
        "Async-ingest background encodes that failed (encode error, cluster degraded, catalog persist error). Manifest gets state=Failed."@,
        "counter"@,
        c.encode_failed_total,
    )
}

fn push_work(buf: &mut String, c: &Counters)
    ensures
        final(buf)@ == old(buf)@ + work_text(*c),
{
    let ghost before = buf@;
    push_family(
        buf,
        "holofs_supervised_task_restarts_total",
        "Supervised background task restarts (panic or unexpected exit). Non-zero flags a repeated crash under monitor/auditor/scrub.",
        "counter",
    );
    push_sample(buf, "holofs_supervised_task_restarts_total", "task=\"monitor\"", c.task_restarts_monitor);
    push_sample(buf, "holofs_supervised_task_restarts_total", "task=\"auditor\"", c.task_restarts_auditor);
    push_sample(buf, "holofs_supervised_task_restarts_total", "task=\"scrub\"", c.task_restarts_scrub);
    push_single(
        buf,
        "holofs_objects_encoding",
        "Currently-encoding objects (async ingest, in-flight background workers).",
        "gauge",
        c.objects_encoding,
    );
    push_single(
        buf,
        "holofs_encode_completed_total",
        "Async-ingest background encodes that finished successfully.",
        "counter",
        c.encode_completed_total,
    );
    push_single(
        buf,
        "holofs_encode_failed_total",
        "Async-ingest background encodes that failed (encode error, cluster degraded, catalog persist error). Manifest gets state=Failed.",
        "counter",
        c.encode_failed_total,
    );
    assert(buf@ =~= before + work_text(*c));
}

/// What writing costs, and who was turned away.
pub open spec fn throughput_text(c: Counters) -> Seq<char> {
    single(
        "holofs_put_cpu_nanoseconds_sum"@,
        "Sum of CPU-phase (RLNC + DWT + hash) nanoseconds inside put_object."@,
        "counter"@,
        c.put_cpu_ns_sum,
    )
        + single(
        "holofs_put_fanout_nanoseconds_sum"@,
        "Sum of fanout-phase (network) nanoseconds inside put_object."@,
        "counter"@,
        c.put_fanout_ns_sum,
    )
        + single(
        "holofs_put_count_total"@,
        "Number of put_object completions contributing to CPU / fanout ns sums."@,
        "counter"@,
        c.put_count,
    )
        + single(
        "holofs_rate_limit_rejected_total"@,
        "v0.7 per-IP rate limit rejections (429 responses)."@,
        "counter"@,
        c.rate_limit_rejected_total,
    )
        + family(
        "holofs_admin_auth_failures_total"@,
        "N6 admin bearer-token rejections, split by reason."@,
        "counter"@,
    )
        + sample("holofs_admin_auth_failures_total"@, "outcome=\"missing\""@, dec(c.admin_auth_missing_total as nat))
        + sample("holofs_admin_auth_failures_total"@, "outcome=\"bad\""@, dec(c.admin_auth_bad_total as nat))
        + sample("holofs_admin_auth_failures_total"@, "outcome=\"disabled\""@, dec(c.admin_auth_disabled_total as nat))
}

fn push_throughput(buf: &mut String, c: &Counters)
    ensures
        final(buf)@ == old(buf)@ + throughput_text(*c),
{
    let ghost before = buf@;
    push_single(
        buf,
        "holofs_put_cpu_nanoseconds_sum",
        "Sum of CPU-phase (RLNC + DWT + hash) nanoseconds inside put_object.",
        "counter",
        c.put_cpu_ns_sum,
    );
    push_single(
        buf,
        "holofs_put_fanout_nanoseconds_sum",
        "Sum of fanout-phase (network) nanoseconds inside put_object.",
        "counter",
        c.put_fanout_ns_sum,
    );
    push_single(
        buf,
        "holofs_put_count_total",
        "Number of put_object completions contributing to CPU / fanout ns sums.",
        "counter",
        c.put_count,
    );
    push_single(
        buf,
        "holofs_rate_limit_rejected_total",
        "v0.7 per-IP rate limit rejections (429 responses).",
        "counter",
        c.rate_limit_rejected_total,
    );
    push_family(
        buf,
        "holofs_admin_auth_failures_total",
        "N6 admin bearer-token rejections, split by reason.",
        "counter",
    );
    push_sample(buf, "holofs_admin_auth_failures_total", "outcome=\"missing\"", c.admin_auth_missing_total);
    push_sample(buf, "holofs_admin_auth_failures_total", "outcome=\"bad\"", c.admin_auth_bad_total);
    push_sample(buf, "holofs_admin_auth_failures_total", "outcome=\"disabled\"", c.admin_auth_disabled_total);
    assert(buf@ =~= before + throughput_text(*c));
}

/// The line about one node; a node that the topology does not know is at `?`, in zone 0.
pub open spec fn node_sample(f: NodeFlags, i: int) -> Seq<char> {
    let addr = if i < f.addrs@.len() {
        f.addrs@[i]@
    } else {
        "?"@
    };
    let zone = if i < f.zones@.len() {
        f.zones@[i] as nat
    } else {
        0
    };
    sample(
        "holofs_node_admin_killed"@,
        "node=\"n"@ + dec(i as nat) + "\",addr=\""@ + addr + "\",zone=\""@ + dec(zone) + "\""@,
        if f.kills@[i] {
            "1"@
        } else {
            "0"@
        },
    )
}

/// The lines about the first `n` nodes.
pub open spec fn node_samples(f: NodeFlags, n: nat) -> Seq<char>
    decreases n,
{
    if n == 0 {
        Seq::empty()
    } else {
        node_samples(f, (n - 1) as nat) + node_sample(f, n - 1)
    }
}

/// Which nodes are switched off.
pub open spec fn nodes_text(f: NodeFlags) -> Seq<char> {
    family(
        "holofs_node_admin_killed"@,
        "Per-node admin-kill flag (1 = disabled)."@,
        "gauge"@,
    ) + node_samples(f, f.kills@.len())
}

fn push_nodes(buf: &mut String, f: &NodeFlags)
    ensures
        final(buf)@ == old(buf)@ + nodes_text(*f),
{
    let ghost before = buf@;
    push_family(
        buf,
        "holofs_node_admin_killed",
        "Per-node admin-kill flag (1 = disabled).",
        "gauge",
    );
    let ghost head = buf@;
    let mut i: usize = 0;
    assert(buf@ =~= head + node_samples(*f, 0));
    while i < f.kills.len()
        invariant
            0 <= i <= f.kills@.len(),
            buf@ == head + node_samples(*f, i as nat),
        decreases f.kills@.len() - i,
    {
        let addr: &str = if i < f.addrs.len() {
            f.addrs[i].as_str()
        } else {
            "?"
        };
        let zone: u8 = if i < f.zones.len() {
            f.zones[i]
        } else {
            0
        };
        let labels = String::from_str("node=\"n").concat(dec_string(i as u64).as_str()).concat(
            "\",addr=\"",
        ).concat(addr).concat("\",zone=\"").concat(dec_string(zone as u64).as_str()).concat("\"");
        push_text(
            buf,
            "holofs_node_admin_killed",
            labels.as_str(),
            if f.kills[i] {
                "1"
            } else {
                "0"
            },
        );
        assert(buf@ =~= head + node_samples(*f, (i + 1) as nat));
        i += 1;
    }
    assert(buf@ =~= before + nodes_text(*f));
}

/// All counters, in the text format of Prometheus.
pub fn metrics(s: &ApiStats, c: &Counters, f: &NodeFlags) -> (r: String)
    ensures
        r@ == cluster_text(*s) + objects_text(*s) + requests_text(*c) + work_text(*c)
            + throughput_text(*c) + nodes_text(*f),
{
    let mut buf = String::new();
    push_cluster(&mut buf, s);
    assert(buf@ =~= cluster_text(*s));
    push_objects(&mut buf, s);
    push_requests(&mut buf, c);
    push_work(&mut buf, c);
    push_throughput(&mut buf, c);
    push_nodes(&mut buf, f);
    buf
}

/// The counters of the whole cluster, in JSON.
pub open spec fn stats_json(s: ApiStats) -> Seq<char> {
    "{\"nodes_total\":"@ + dec(s.nodes_total as nat) + ",\"nodes_live\":"@ + dec(
        s.nodes_live as nat,
    ) + ",\"objects_total\":"@ + dec(s.objects_total as nat)
        + ",\"objects_by_kind\":{\"image\":"@ + dec(s.objects_by_kind.image as nat)
        + ",\"audio\":"@ + dec(s.objects_by_kind.audio as nat) + ",\"text\":"@ + dec(
        s.objects_by_kind.text as nat,
    ) + ",\"opaque\":"@ + dec(s.objects_by_kind.opaque as nat) + ",\"directory\":"@ + dec(
        s.objects_by_kind.directory as nat,
    ) + "},\"shards_total\":"@ + dec(s.shards_total as nat) + ",\"shards_unique\":"@ + dec(
        s.shards_unique as nat,
    ) + ",\"dedup_savings_pct\":"@ + s.dedup_savings_pct@ + ",\"bytes_total\":"@ + dec(
        s.bytes_total as nat,
    ) + ",\"auto_repairs_total\":"@ + dec(s.auto_repairs_total as nat)
        + ",\"auto_repair_failures_total\":"@ + dec(s.auto_repair_failures_total as nat)
        + ",\"scrub_runs_total\":"@ + dec(s.scrub_runs_total as nat)
        + ",\"scrub_repairs_total\":"@ + dec(s.scrub_repairs_total as nat) + "}\n"@
}

/// The counters of the whole cluster, in JSON.
pub fn stats_to_json(s: &ApiStats) -> (r: String)
    ensures
        r@ == stats_json(*s),
{
    let k = &s.objects_by_kind;
    String::from_str("{\"nodes_total\":").concat(dec_string(s.nodes_total).as_str()).concat(
        ",\"nodes_live\":",
    ).concat(dec_string(s.nodes_live).as_str()).concat(",\"objects_total\":").concat(
        dec_string(s.objects_total).as_str(),
    ).concat(",\"objects_by_kind\":{\"image\":").concat(dec_string(k.image).as_str()).concat(
        ",\"audio\":",
    ).concat(dec_string(k.audio).as_str()).concat(",\"text\":").concat(
        dec_string(k.text).as_str(),
    ).concat(",\"opaque\":").concat(dec_string(k.opaque).as_str()).concat(
        ",\"directory\":",
    ).concat(dec_string(k.directory).as_str()).concat("},\"shards_total\":").concat(
        dec_string(s.shards_total).as_str(),
    ).concat(",\"shards_unique\":").concat(dec_string(s.shards_unique).as_str()).concat(
        ",\"dedup_savings_pct\":",
    ).concat(s.dedup_savings_pct.as_str()).concat(",\"bytes_total\":").concat(
        dec_string(s.bytes_total).as_str(),
    ).concat(",\"auto_repairs_total\":").concat(dec_string(s.auto_repairs_total).as_str()).concat(
        ",\"auto_repair_failures_total\":",
    ).concat(dec_string(s.auto_repair_failures_total).as_str()).concat(
        ",\"scrub_runs_total\":",
    ).concat(dec_string(s.scrub_runs_total).as_str()).concat(",\"scrub_repairs_total\":").concat(
        dec_string(s.scrub_repairs_total).as_str(),
    ).concat("}\n")
}

} // verus!
