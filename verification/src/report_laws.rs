//! What holds of every report: each number stands under its own name, everything that was counted
//! is told, and pictures show what they are made of.
use vstd::prelude::*;

use crate::handlers::{
    bad, band_name, embed_off, hit_json, listed_json, node_gc_json, quotes_escaped, refuses,
    backslashed, ListedObject, NodeGc, SearchBand, SearchHit,
};
use crate::health_view::kind_name;
use crate::http::{Answer, Reply};
use crate::json::escaped;
use crate::manifest::{
    bytes_of_layers, can_be_counted, channel_bytes, layer_bytes, shards_of, Manifest,
};
use crate::metrics::{
    cluster_text, family, node_sample, node_samples, nodes_text, objects_text, requests_text, sample,
    single, stats_json, throughput_text, work_text, ApiStats, Counters, NodeFlags,
};
use crate::pictures::{frame, frame_head, grey_points, is_side, side_of, stream_tail};
use crate::text::{dec, ends, starts, utf8};
use crate::text_laws::beginnings_and_ends;

verus! {

/// Whether a text stands somewhere in another.
pub open spec fn occurs(t: Seq<char>, x: Seq<char>) -> bool {
    exists|i: int| #[trigger] stands_at(t, i, x)
}

/// Whether a text stands in another at a place.
pub open spec fn stands_at(t: Seq<char>, i: int, x: Seq<char>) -> bool {
    0 <= i && i + x.len() <= t.len() && t.subrange(i, i + x.len()) == x
}

/// What stands in one of two texts stands in the two together.
proof fn lemma_occurs_in_either()
    ensures
        forall|a: Seq<char>, b: Seq<char>, x: Seq<char>|
            occurs(a, x) || occurs(b, x) ==> #[trigger] occurs(a + b, x),
        forall|x: Seq<char>| #[trigger] occurs(x, x),
{
    assert forall|a: Seq<char>, b: Seq<char>, x: Seq<char>| occurs(a, x) || occurs(b, x) implies #[trigger] occurs(
        a + b,
        x,
    ) by {
        lemma_occurs_grows(a, b, x);
    }
    assert forall|x: Seq<char>| #[trigger] occurs(x, x) by {
        assert(x.subrange(0, x.len() as int) =~= x);
        assert(stands_at(x, 0, x));
    }
}

proof fn lemma_occurs_grows(a: Seq<char>, b: Seq<char>, x: Seq<char>)
    requires
        occurs(a, x) || occurs(b, x),
    ensures
        occurs(a + b, x),
{
    let s = a + b;
    if occurs(a, x) {
        let i = choose|i: int| #[trigger] stands_at(a, i, x);
        assert(s.subrange(i, i + x.len()) =~= a.subrange(i, i + x.len()));
        assert(stands_at(s, i, x));
    } else {
        let i = choose|i: int| #[trigger] stands_at(b, i, x);
        let j = i + a.len();
        assert(s.subrange(j, j + x.len()) =~= b.subrange(i, i + x.len()));
        assert(stands_at(s, j, x));
    }
}

/// A line has the name of what was counted at its start and the count at its end, with the label in
/// braces between them where there is one.
pub proof fn lines_tell_name_and_count(name: Seq<char>, labels: Seq<char>, value: Seq<char>)
    ensures
        labels.len() == 0 ==> sample(name, labels, value) == name + " "@ + value + "\n"@,
        labels.len() > 0 ==> sample(name, labels, value) == name + "{"@ + labels + "} "@ + value + "\n"@,
{
    reveal_strlit(" ");
    reveal_strlit("}");
    reveal_strlit("} ");
    if labels.len() == 0 {
        assert(sample(name, labels, value) =~= name + " "@ + value + "\n"@);
    } else {
        assert(sample(name, labels, value) =~= name + "{"@ + labels + "} "@ + value + "\n"@);
    }
}

/// Before the lines with counts stands what is counted, and of what kind the count is.
pub proof fn counts_are_explained(name: Seq<char>, help: Seq<char>, kind: Seq<char>, value: u64)
    ensures
        starts(family(name, help, kind), "# HELP "@ + name + " "@ + help + "\n"@),
        ends(family(name, help, kind), "# TYPE "@ + name + " "@ + kind + "\n"@),
        starts(single(name, help, kind, value), family(name, help, kind)),
        ends(single(name, help, kind, value), name + " "@ + dec(value as nat) + "\n"@),
{
    reveal_strlit("\n# TYPE ");
    reveal_strlit("\n");
    reveal_strlit("# TYPE ");
    let a = "# HELP "@ + name + " "@ + help + "\n"@;
    let b = "# TYPE "@ + name + " "@ + kind + "\n"@;
    assert(family(name, help, kind) =~= a + b);
    beginnings_and_ends(a, b, b);
    let line = name + " "@ + dec(value as nat) + "\n"@;
    lines_tell_name_and_count(name, Seq::empty(), dec(value as nat));
    beginnings_and_ends(family(name, help, kind), line, line);
}

/// The nodes and the objects are counted under their names.
pub proof fn nodes_and_objects_are_counted(s: ApiStats)
    ensures
        ({
            let t = cluster_text(s);
            let k = s.objects_by_kind;
            &&& occurs(t, sample("holofs_nodes_total"@, Seq::empty(), dec(s.nodes_total as nat)))
            &&& occurs(t, sample("holofs_nodes_live"@, Seq::empty(), dec(s.nodes_live as nat)))
            &&& occurs(t, sample("holofs_objects_total"@, "kind=\"image\""@, dec(k.image as nat)))
            &&& occurs(t, sample("holofs_objects_total"@, "kind=\"audio\""@, dec(k.audio as nat)))
            &&& occurs(t, sample("holofs_objects_total"@, "kind=\"text\""@, dec(k.text as nat)))
            &&& occurs(t, sample("holofs_objects_total"@, "kind=\"opaque\""@, dec(k.opaque as nat)))
            &&& occurs(t, sample("holofs_objects_total"@, "kind=\"directory\""@, dec(k.directory as nat)))
        }),
{
    lemma_occurs_in_either();
}

/// The shards and their repair are counted under their names.
pub proof fn shards_are_counted(s: ApiStats)
    ensures
        ({
            let t = objects_text(s);
            &&& occurs(t, sample("holofs_shards_total"@, Seq::empty(), dec(s.shards_total as nat)))
            &&& occurs(t, sample("holofs_shards_unique"@, Seq::empty(), dec(s.shards_unique as nat)))
            &&& occurs(t, sample("holofs_dedup_savings_pct"@, ""@, s.dedup_savings_pct@))
            &&& occurs(t, sample("holofs_bytes_total"@, Seq::empty(), dec(s.bytes_total as nat)))
            &&& occurs(
                t,
                sample("holofs_auto_repairs_total"@, Seq::empty(), dec(s.auto_repairs_total as nat)),
            )
            &&& occurs(
                t,
                sample(
                    "holofs_auto_repair_failures_total"@,
                    Seq::empty(),
                    dec(s.auto_repair_failures_total as nat),
                ),
            )
            &&& occurs(t, sample("holofs_scrub_runs_total"@, Seq::empty(), dec(s.scrub_runs_total as nat)))
            &&& occurs(
                t,
                sample("holofs_scrub_repairs_total"@, Seq::empty(), dec(s.scrub_repairs_total as nat)),
            )
        }),
{
    lemma_occurs_in_either();
}

/// What was refused or came too late is counted under its name.
pub proof fn refusals_are_counted(c: Counters)
    ensures
        ({
            let t = requests_text(c);
            let timeouts = "holofs_handler_timeouts_total"@;
            let rejected = "holofs_backpressure_rejected_total"@;
            let permits = "holofs_backpressure_permits_available"@;
            &&& occurs(
                t,
                sample(
                    "holofs_catalog_persist_failures_total"@,
                    Seq::empty(),
                    dec(c.catalog_persist_failures_total as nat),
                ),
            )
            &&& occurs(t, sample(timeouts, "bucket=\"short\""@, dec(c.timeout_short_total as nat)))
            &&& occurs(t, sample(timeouts, "bucket=\"medium\""@, dec(c.timeout_medium_total as nat)))
            &&& occurs(t, sample(timeouts, "bucket=\"long\""@, dec(c.timeout_long_total as nat)))
            &&& occurs(t, sample(rejected, "bucket=\"medium\""@, dec(c.medium_rejected_total as nat)))
            &&& occurs(t, sample(rejected, "bucket=\"long\""@, dec(c.long_rejected_total as nat)))
            &&& occurs(t, sample(permits, "bucket=\"medium\""@, dec(c.medium_permits_available as nat)))
            &&& occurs(t, sample(permits, "bucket=\"long\""@, dec(c.long_permits_available as nat)))
        }),
{
    lemma_occurs_in_either();
}

/// The work in the background is counted under its name.
pub proof fn background_work_is_counted(c: Counters)
    ensures
        ({
            let t = work_text(c);
            let restarts = "holofs_supervised_task_restarts_total"@;
            &&& occurs(t, sample(restarts, "task=\"monitor\""@, dec(c.task_restarts_monitor as nat)))
            &&& occurs(t, sample(restarts, "task=\"auditor\""@, dec(c.task_restarts_auditor as nat)))
            &&& occurs(t, sample(restarts, "task=\"scrub\""@, dec(c.task_restarts_scrub as nat)))
            &&& occurs(t, sample("holofs_objects_encoding"@, Seq::empty(), dec(c.objects_encoding as nat)))
            &&& occurs(
                t,
                sample(
                    "holofs_encode_completed_total"@,
                    Seq::empty(),
                    dec(c.encode_completed_total as nat),
                ),
            )
            &&& occurs(
                t,
                sample("holofs_encode_failed_total"@, Seq::empty(), dec(c.encode_failed_total as nat)),
            )
        }),
{
    lemma_occurs_in_either();
}

/// What writing costs and who was turned away is counted under its name.
pub proof fn writing_is_counted(c: Counters)
    ensures
        ({
            let t = throughput_text(c);
            let failures = "holofs_admin_auth_failures_total"@;
            &&& occurs(
                t,
                sample("holofs_put_cpu_nanoseconds_sum"@, Seq::empty(), dec(c.put_cpu_ns_sum as nat)),
            )
            &&& occurs(
                t,
                sample("holofs_put_fanout_nanoseconds_sum"@, Seq::empty(), dec(c.put_fanout_ns_sum as nat)),
            )
            &&& occurs(t, sample("holofs_put_count_total"@, Seq::empty(), dec(c.put_count as nat)))
            &&& occurs(
                t,
                sample(
                    "holofs_rate_limit_rejected_total"@,
                    Seq::empty(),
                    dec(c.rate_limit_rejected_total as nat),
                ),
            )
            &&& occurs(t, sample(failures, "outcome=\"missing\""@, dec(c.admin_auth_missing_total as nat)))
            &&& occurs(t, sample(failures, "outcome=\"bad\""@, dec(c.admin_auth_bad_total as nat)))
            &&& occurs(t, sample(failures, "outcome=\"disabled\""@, dec(c.admin_auth_disabled_total as nat)))
        }),
{
    lemma_occurs_in_either();
}

/// Every node is told with its number, its address, its zone and whether it is switched off.
pub proof fn every_node_is_told(f: NodeFlags, i: int)
    requires
        0 <= i < f.kills@.len(),
    ensures
        occurs(nodes_text(f), node_sample(f, i)),
        i < f.addrs@.len() && i < f.zones@.len() ==> node_sample(f, i) == sample(
            "holofs_node_admin_killed"@,
            "node=\"n"@ + dec(i as nat) + "\",addr=\""@ + f.addrs@[i]@ + "\",zone=\""@ + dec(
                f.zones@[i] as nat,
            ) + "\""@,
            if f.kills@[i] {
                "1"@
            } else {
                "0"@
            },
        ),
        i >= f.addrs@.len() && i >= f.zones@.len() ==> node_sample(f, i) == sample(
            "holofs_node_admin_killed"@,
            "node=\"n"@ + dec(i as nat) + "\",addr=\"?\",zone=\"0\""@,
            if f.kills@[i] {
                "1"@
            } else {
                "0"@
            },
        ),
{
    lemma_occurs_in_either();
    lemma_nodes(f, i, f.kills@.len());
    if i >= f.addrs@.len() && i >= f.zones@.len() {
        reveal_strlit("\",addr=\"");
        reveal_strlit("?");
        reveal_strlit("\",zone=\"");
        reveal_strlit("\"");
        reveal_strlit("\",addr=\"?\",zone=\"0\"");
        assert(dec(0) =~= seq!['0']);
        assert("\",addr=\""@ + "?"@ + "\",zone=\""@ + dec(0) + "\""@ =~= "\",addr=\"?\",zone=\"0\""@);
        let h = "node=\"n"@ + dec(i as nat);
        assert(h + "\",addr=\""@ + "?"@ + "\",zone=\""@ + dec(0) + "\""@ =~= h + ("\",addr=\""@ + "?"@
            + "\",zone=\""@ + dec(0) + "\""@));
    }
}

proof fn lemma_nodes(f: NodeFlags, i: int, n: nat)
    requires
        0 <= i < n,
    ensures
        occurs(node_samples(f, n), node_sample(f, i)),
    decreases n,
{
    lemma_occurs_in_either();
    if i < n - 1 {
        lemma_nodes(f, i, (n - 1) as nat);
    }
}

/// The lines that count one thing under several labels stand together, behind what explains them, and
/// a line that counts one thing alone stands behind its own explanation.
pub proof fn families_are_explained_before_their_counts(s: ApiStats, c: Counters)
    ensures
        ({
            let k = s.objects_by_kind;
            let objects = "holofs_objects_total"@;
            let timeouts = "holofs_handler_timeouts_total"@;
            let rejected = "holofs_backpressure_rejected_total"@;
            let permits = "holofs_backpressure_permits_available"@;
            let restarts = "holofs_supervised_task_restarts_total"@;
            let failures = "holofs_admin_auth_failures_total"@;
            &&& ends(
                cluster_text(s),
                family(objects, "Objects in the catalog, broken down by kind."@, "gauge"@) + sample(
                    objects,
                    "kind=\"image\""@,
                    dec(k.image as nat),
                ) + sample(objects, "kind=\"audio\""@, dec(k.audio as nat)) + sample(
                    objects,
                    "kind=\"text\""@,
                    dec(k.text as nat),
                ) + sample(objects, "kind=\"opaque\""@, dec(k.opaque as nat)) + sample(
                    objects,
                    "kind=\"directory\""@,
                    dec(k.directory as nat),
                ),
            )
            &&& occurs(
                requests_text(c),
                family(timeouts, "504 Gateway Timeout responses, split by deadline bucket."@, "counter"@)
                    + sample(timeouts, "bucket=\"short\""@, dec(c.timeout_short_total as nat)) + sample(
                    timeouts,
                    "bucket=\"medium\""@,
                    dec(c.timeout_medium_total as nat),
                ) + sample(timeouts, "bucket=\"long\""@, dec(c.timeout_long_total as nat)),
            )
            &&& occurs(
                requests_text(c),
                family(
                    rejected,
                    "503 responses caused by N3 backpressure (semaphore at capacity), split by bucket."@,
                    "counter"@,
                ) + sample(rejected, "bucket=\"medium\""@, dec(c.medium_rejected_total as nat)) + sample(
                    rejected,
                    "bucket=\"long\""@,
                    dec(c.long_rejected_total as nat),
                ),
            )
            &&& ends(
                requests_text(c),
                family(permits, "Backpressure semaphore permits still free, by bucket."@, "gauge"@) + sample(
                    permits,
                    "bucket=\"medium\""@,
                    dec(c.medium_permits_available as nat),
                ) + sample(permits, "bucket=\"long\""@, dec(c.long_permits_available as nat)),
            )
            &&& starts(
                work_text(c),
                family(
                    restarts,
                    "Supervised background task restarts (panic or unexpected exit). Non-zero flags a repeated crash under monitor/auditor/scrub."@,
                    "counter"@,
                ) + sample(restarts, "task=\"monitor\""@, dec(c.task_restarts_monitor as nat)) + sample(
                    restarts,
                    "task=\"auditor\""@,
                    dec(c.task_restarts_auditor as nat),
                ) + sample(restarts, "task=\"scrub\""@, dec(c.task_restarts_scrub as nat)),
            )
            &&& ends(
                throughput_text(c),
                family(failures, "N6 admin bearer-token rejections, split by reason."@, "counter"@) + sample(
                    failures,
                    "outcome=\"missing\""@,
                    dec(c.admin_auth_missing_total as nat),
                ) + sample(failures, "outcome=\"bad\""@, dec(c.admin_auth_bad_total as nat)) + sample(
                    failures,
                    "outcome=\"disabled\""@,
                    dec(c.admin_auth_disabled_total as nat),
                ),
            )
            &&& occurs(
                objects_text(s),
                family("holofs_dedup_savings_pct"@, "(1 - unique/total) * 100."@, "gauge"@) + sample(
                    "holofs_dedup_savings_pct"@,
                    ""@,
                    s.dedup_savings_pct@,
                ),
            )
        }),
{
    lemma_occurs_in_either();
    let k = s.objects_by_kind;
    let objects = "holofs_objects_total"@;
    let timeouts = "holofs_handler_timeouts_total"@;
    let rejected = "holofs_backpressure_rejected_total"@;
    let permits = "holofs_backpressure_permits_available"@;
    let restarts = "holofs_supervised_task_restarts_total"@;
    let failures = "holofs_admin_auth_failures_total"@;
    let a = single("holofs_nodes_total"@, "Total nodes in the cluster topology."@, "gauge"@, s.nodes_total);
    let b = single("holofs_nodes_live"@, "Nodes not currently admin-disabled."@, "gauge"@, s.nodes_live);
    let f = family(objects, "Objects in the catalog, broken down by kind."@, "gauge"@);
    let x1 = sample(objects, "kind=\"image\""@, dec(k.image as nat));
    let x2 = sample(objects, "kind=\"audio\""@, dec(k.audio as nat));
    let x3 = sample(objects, "kind=\"text\""@, dec(k.text as nat));
    let x4 = sample(objects, "kind=\"opaque\""@, dec(k.opaque as nat));
    let x5 = sample(objects, "kind=\"directory\""@, dec(k.directory as nat));
    lemma_block(a + b, f, x1, x2);
    lemma_block(a + b, f + x1 + x2, x3, x4);
    lemma_block(a + b, f + x1 + x2 + x3 + x4, x5, Seq::empty());
    assert(a + b + (f + x1 + x2 + x3 + x4) + x5 + Seq::<char>::empty() =~= cluster_text(s));
    assert(f + x1 + x2 + x3 + x4 + x5 + Seq::<char>::empty() =~= f + x1 + x2 + x3 + x4 + x5);
    beginnings_and_ends(a + b, f + x1 + x2 + x3 + x4 + x5, f + x1 + x2 + x3 + x4 + x5);

    let p = single(
        "holofs_catalog_persist_failures_total"@,
        "Atomic catalog save-to-disk failures. Non-zero means the on-disk catalog is behind memory."@,
        "counter"@,
        c.catalog_persist_failures_total,
    );
    let f = family(timeouts, "504 Gateway Timeout responses, split by deadline bucket."@, "counter"@);
    let x1 = sample(timeouts, "bucket=\"short\""@, dec(c.timeout_short_total as nat));
    let x2 = sample(timeouts, "bucket=\"medium\""@, dec(c.timeout_medium_total as nat));
    let x3 = sample(timeouts, "bucket=\"long\""@, dec(c.timeout_long_total as nat));
    lemma_block(p, f, x1, x2);
    lemma_block(p, f + x1 + x2, x3, Seq::empty());
    let t1 = p + f + x1 + x2 + x3;
    assert(p + (f + x1 + x2) + x3 + Seq::<char>::empty() =~= t1);
    assert(f + x1 + x2 + x3 + Seq::<char>::empty() =~= f + x1 + x2 + x3);
    let g = family(
        rejected,
        "503 responses caused by N3 backpressure (semaphore at capacity), split by bucket."@,
        "counter"@,
    );
    let y1 = sample(rejected, "bucket=\"medium\""@, dec(c.medium_rejected_total as nat));
    let y2 = sample(rejected, "bucket=\"long\""@, dec(c.long_rejected_total as nat));
    lemma_block(t1, g, y1, y2);
    let t2 = t1 + g + y1 + y2;
    let h = family(permits, "Backpressure semaphore permits still free, by bucket."@, "gauge"@);
    let z1 = sample(permits, "bucket=\"medium\""@, dec(c.medium_permits_available as nat));
    let z2 = sample(permits, "bucket=\"long\""@, dec(c.long_permits_available as nat));
    lemma_block(t2, h, z1, z2);
    assert(requests_text(c) == t2 + h + z1 + z2);
    beginnings_and_ends(t2, h + z1 + z2, h + z1 + z2);

    let f = family(
        restarts,
        "Supervised background task restarts (panic or unexpected exit). Non-zero flags a repeated crash under monitor/auditor/scrub."@,
        "counter"@,
    ) + sample(restarts, "task=\"monitor\""@, dec(c.task_restarts_monitor as nat)) + sample(
        restarts,
        "task=\"auditor\""@,
        dec(c.task_restarts_auditor as nat),
    ) + sample(restarts, "task=\"scrub\""@, dec(c.task_restarts_scrub as nat));
    assert(work_text(c).take(f.len() as int) =~= f);

    let a = single(
        "holofs_put_cpu_nanoseconds_sum"@,
        "Sum of CPU-phase (RLNC + DWT + hash) nanoseconds inside put_object."@,
        "counter"@,
        c.put_cpu_ns_sum,
    ) + single(
        "holofs_put_fanout_nanoseconds_sum"@,
        "Sum of fanout-phase (network) nanoseconds inside put_object."@,
        "counter"@,
        c.put_fanout_ns_sum,
    ) + single(
        "holofs_put_count_total"@,
        "Number of put_object completions contributing to CPU / fanout ns sums."@,
        "counter"@,
        c.put_count,
    ) + single(
        "holofs_rate_limit_rejected_total"@,
        "v0.7 per-IP rate limit rejections (429 responses)."@,
        "counter"@,
        c.rate_limit_rejected_total,
    );
    let f = family(failures, "N6 admin bearer-token rejections, split by reason."@, "counter"@);
    let x1 = sample(failures, "outcome=\"missing\""@, dec(c.admin_auth_missing_total as nat));
    let x2 = sample(failures, "outcome=\"bad\""@, dec(c.admin_auth_bad_total as nat));
    let x3 = sample(failures, "outcome=\"disabled\""@, dec(c.admin_auth_disabled_total as nat));
    lemma_block(a, f, x1, x2);
    lemma_block(a, f + x1 + x2, x3, Seq::empty());
    assert(a + (f + x1 + x2) + x3 + Seq::<char>::empty() =~= throughput_text(c));
    assert(f + x1 + x2 + x3 + Seq::<char>::empty() =~= f + x1 + x2 + x3);
    beginnings_and_ends(a, f + x1 + x2 + x3, f + x1 + x2 + x3);

    let a = single(
        "holofs_shards_total"@,
        "Planned shards across every object × layer × channel."@,
        "gauge"@,
        s.shards_total,
    ) + single(
        "holofs_shards_unique"@,
        "Distinct shard hashes recorded across the catalog."@,
        "gauge"@,
        s.shards_unique,
    );
    let f = family("holofs_dedup_savings_pct"@, "(1 - unique/total) * 100."@, "gauge"@);
    let x1 = sample("holofs_dedup_savings_pct"@, ""@, s.dedup_savings_pct@);
    assert(a + f + x1 =~= a + (f + x1));
}

/// Two lines behind a block belong to the block.
proof fn lemma_block(before: Seq<char>, block: Seq<char>, x: Seq<char>, y: Seq<char>)
    ensures
        before + block + x + y == before + (block + x + y),
        before + (block + x + y) == before + block + x + y,
{
    assert(before + block + x + y =~= before + (block + x + y));
}

/// What is counted alone is explained by its own words.
pub proof fn single_counts_have_their_own_words(s: ApiStats, c: Counters)
    ensures
        starts(
            cluster_text(s),
            single("holofs_nodes_total"@, "Total nodes in the cluster topology."@, "gauge"@, s.nodes_total)
                + single("holofs_nodes_live"@, "Nodes not currently admin-disabled."@, "gauge"@, s.nodes_live),
        ),
        starts(
            objects_text(s),
            single(
                "holofs_shards_total"@,
                "Planned shards across every object × layer × channel."@,
                "gauge"@,
                s.shards_total,
            ) + single(
                "holofs_shards_unique"@,
                "Distinct shard hashes recorded across the catalog."@,
                "gauge"@,
                s.shards_unique,
            ),
        ),
        occurs(
            objects_text(s),
            single(
                "holofs_bytes_total"@,
                "Approximate stored bytes across the cluster."@,
                "gauge"@,
                s.bytes_total,
            ),
        ),
        occurs(
            objects_text(s),
            single(
                "holofs_auto_repairs_total"@,
                "GET path hit a LayerLost error and ran an inline repair_node pass."@,
                "counter"@,
                s.auto_repairs_total,
            ),
        ),
        occurs(
            objects_text(s),
            single(
                "holofs_auto_repair_failures_total"@,
                "Auto-repair attempted but the post-repair decode also failed (irrecoverable)."@,
                "counter"@,
                s.auto_repair_failures_total,
            ),
        ),
        occurs(
            objects_text(s),
            single(
                "holofs_scrub_runs_total"@,
                "Background scrub-task tick count."@,
                "counter"@,
                s.scrub_runs_total,
            ),
        ),
        ends(
            objects_text(s),
            single(
                "holofs_scrub_repairs_total"@,
                "Objects the background scrub repaired before any user GET tripped them."@,
                "counter"@,
                s.scrub_repairs_total,
            ),
        ),
        starts(
            requests_text(c),
            single(
                "holofs_catalog_persist_failures_total"@,
                "Atomic catalog save-to-disk failures. Non-zero means the on-disk catalog is behind memory."@,
                "counter"@,
                c.catalog_persist_failures_total,
            ),
        ),
        occurs(
            work_text(c),
            single(
                "holofs_objects_encoding"@,
                "Currently-encoding objects (async ingest, in-flight background workers)."@,
                "gauge"@,
                c.objects_encoding,
            ),
        ),
        occurs(
            work_text(c),
            single(
                "holofs_encode_completed_total"@,
                "Async-ingest background encodes that finished successfully."@,
                "counter"@,
                c.encode_completed_total,
            ),
        ),
        ends(
            work_text(c),
            single(
                "holofs_encode_failed_total"@,
                "Async-ingest background encodes that failed (encode error, cluster degraded, catalog persist error). Manifest gets state=Failed."@,
                "counter"@,
                c.encode_failed_total,
            ),
        ),
        starts(
            throughput_text(c),
            single(
                "holofs_put_cpu_nanoseconds_sum"@,
                "Sum of CPU-phase (RLNC + DWT + hash) nanoseconds inside put_object."@,
                "counter"@,
                c.put_cpu_ns_sum,
            ) + single(
                "holofs_put_fanout_nanoseconds_sum"@,
                "Sum of fanout-phase (network) nanoseconds inside put_object."@,
                "counter"@,
                c.put_fanout_ns_sum,
            ) + single(
                "holofs_put_count_total"@,
                "Number of put_object completions contributing to CPU / fanout ns sums."@,
                "counter"@,
                c.put_count,
            ) + single(
                "holofs_rate_limit_rejected_total"@,
                "v0.7 per-IP rate limit rejections (429 responses)."@,
                "counter"@,
                c.rate_limit_rejected_total,
            ),
        ),
{
    lemma_occurs_in_either();
    lemma_begins();
    let last = single(
        "holofs_scrub_repairs_total"@,
        "Objects the background scrub repaired before any user GET tripped them."@,
        "counter"@,
        s.scrub_repairs_total,
    );
    let t = objects_text(s);
    assert(t =~= t.take(t.len() - last.len()) + last);
    beginnings_and_ends(t.take(t.len() - last.len()), last, last);
    let last = single(
        "holofs_encode_failed_total"@,
        "Async-ingest background encodes that failed (encode error, cluster degraded, catalog persist error). Manifest gets state=Failed."@,
        "counter"@,
        c.encode_failed_total,
    );
    let t = work_text(c);
    assert(t =~= t.take(t.len() - last.len()) + last);
    beginnings_and_ends(t.take(t.len() - last.len()), last, last);
}

/// A text begins with itself, and still does with more behind it.
proof fn lemma_begins()
    ensures
        forall|a: Seq<char>, b: Seq<char>, x: Seq<char>| starts(a, x) ==> #[trigger] starts(a + b, x),
        forall|x: Seq<char>| #[trigger] starts(x, x),
{
    assert forall|a: Seq<char>, b: Seq<char>, x: Seq<char>| starts(a, x) implies #[trigger] starts(a + b, x) by {
        assert((a + b).take(x.len() as int) =~= a.take(x.len() as int));
    }
    assert forall|x: Seq<char>| #[trigger] starts(x, x) by {
        assert(x.take(x.len() as int) =~= x);
    }
}

/// The nodes are told in their order, behind the words that explain the lines.
pub proof fn nodes_are_told_in_their_order(f: NodeFlags, n: nat)
    ensures
        node_samples(f, 0).len() == 0,
        node_samples(f, n + 1) == node_samples(f, n) + node_sample(f, n as int),
        nodes_text(f) == family(
            "holofs_node_admin_killed"@,
            "Per-node admin-kill flag (1 = disabled)."@,
            "gauge"@,
        ) + node_samples(f, f.kills@.len()),
{
}

/// The counters in JSON stand in their order, those of the kinds in braces of their own.
pub proof fn counters_in_json_stand_in_order(s: ApiStats)
    ensures
        ({
            let k = s.objects_by_kind;
            let nodes = "{\"nodes_total\":"@ + dec(s.nodes_total as nat) + ",\"nodes_live\":"@ + dec(
                s.nodes_live as nat,
            );
            let objects = nodes + ",\"objects_total\":"@ + dec(s.objects_total as nat);
            let kinds = objects + ",\"objects_by_kind\":{\"image\":"@ + dec(k.image as nat)
                + ",\"audio\":"@ + dec(k.audio as nat) + ",\"text\":"@ + dec(k.text as nat)
                + ",\"opaque\":"@ + dec(k.opaque as nat) + ",\"directory\":"@ + dec(k.directory as nat);
            let shards = kinds + "},\"shards_total\":"@ + dec(s.shards_total as nat)
                + ",\"shards_unique\":"@ + dec(s.shards_unique as nat) + ",\"dedup_savings_pct\":"@
                + s.dedup_savings_pct@ + ",\"bytes_total\":"@ + dec(s.bytes_total as nat);
            let repairs = shards + ",\"auto_repairs_total\":"@ + dec(s.auto_repairs_total as nat)
                + ",\"auto_repair_failures_total\":"@ + dec(s.auto_repair_failures_total as nat);
            stats_json(s) == repairs + ",\"scrub_runs_total\":"@ + dec(s.scrub_runs_total as nat)
                + ",\"scrub_repairs_total\":"@ + dec(s.scrub_repairs_total as nat) + "}\n"@
        }),
{
}

/// The counters in JSON stand behind their own names.
pub proof fn counters_in_json_have_their_names(s: ApiStats)
    ensures
        ({
            let t = stats_json(s);
            let k = s.objects_by_kind;
            &&& starts(t, "{\"nodes_total\":"@ + dec(s.nodes_total as nat))
            &&& occurs(t, ",\"nodes_live\":"@ + dec(s.nodes_live as nat))
            &&& occurs(t, ",\"objects_total\":"@ + dec(s.objects_total as nat))
            &&& occurs(t, ",\"objects_by_kind\":{\"image\":"@ + dec(k.image as nat))
            &&& occurs(t, ",\"audio\":"@ + dec(k.audio as nat))
            &&& occurs(t, ",\"text\":"@ + dec(k.text as nat))
            &&& occurs(t, ",\"opaque\":"@ + dec(k.opaque as nat))
            &&& occurs(t, ",\"directory\":"@ + dec(k.directory as nat))
            &&& occurs(t, "},\"shards_total\":"@ + dec(s.shards_total as nat))
            &&& occurs(t, ",\"shards_unique\":"@ + dec(s.shards_unique as nat))
            &&& occurs(t, ",\"dedup_savings_pct\":"@ + s.dedup_savings_pct@)
            &&& occurs(t, ",\"bytes_total\":"@ + dec(s.bytes_total as nat))
            &&& occurs(t, ",\"auto_repairs_total\":"@ + dec(s.auto_repairs_total as nat))
            &&& occurs(t, ",\"auto_repair_failures_total\":"@ + dec(s.auto_repair_failures_total as nat))
            &&& occurs(t, ",\"scrub_runs_total\":"@ + dec(s.scrub_runs_total as nat))
            &&& ends(t, ",\"scrub_repairs_total\":"@ + dec(s.scrub_repairs_total as nat) + "}\n"@)
        }),
{
    let k = s.objects_by_kind;
    let front = "{\"nodes_total\":"@ + dec(s.nodes_total as nat);
    assert(front.take(front.len() as int) =~= front);
    let t = front;
    lemma_named(t, ",\"nodes_live\":"@, dec(s.nodes_live as nat), front);
    let t = t + ",\"nodes_live\":"@ + dec(s.nodes_live as nat);
    lemma_named(t, ",\"objects_total\":"@, dec(s.objects_total as nat), front);
    let t = t + ",\"objects_total\":"@ + dec(s.objects_total as nat);
    lemma_named(t, ",\"objects_by_kind\":{\"image\":"@, dec(k.image as nat), front);
    let t = t + ",\"objects_by_kind\":{\"image\":"@ + dec(k.image as nat);
    lemma_named(t, ",\"audio\":"@, dec(k.audio as nat), front);
    let t = t + ",\"audio\":"@ + dec(k.audio as nat);
    lemma_named(t, ",\"text\":"@, dec(k.text as nat), front);
    let t = t + ",\"text\":"@ + dec(k.text as nat);
    lemma_named(t, ",\"opaque\":"@, dec(k.opaque as nat), front);
    let t = t + ",\"opaque\":"@ + dec(k.opaque as nat);
    lemma_named(t, ",\"directory\":"@, dec(k.directory as nat), front);
    let t = t + ",\"directory\":"@ + dec(k.directory as nat);
    lemma_named(t, "},\"shards_total\":"@, dec(s.shards_total as nat), front);
    let t = t + "},\"shards_total\":"@ + dec(s.shards_total as nat);
    lemma_named(t, ",\"shards_unique\":"@, dec(s.shards_unique as nat), front);
    let t = t + ",\"shards_unique\":"@ + dec(s.shards_unique as nat);
    lemma_named(t, ",\"dedup_savings_pct\":"@, s.dedup_savings_pct@, front);
    let t = t + ",\"dedup_savings_pct\":"@ + s.dedup_savings_pct@;
    lemma_named(t, ",\"bytes_total\":"@, dec(s.bytes_total as nat), front);
    let t = t + ",\"bytes_total\":"@ + dec(s.bytes_total as nat);
    lemma_named(t, ",\"auto_repairs_total\":"@, dec(s.auto_repairs_total as nat), front);
    let t = t + ",\"auto_repairs_total\":"@ + dec(s.auto_repairs_total as nat);
    lemma_named(t, ",\"auto_repair_failures_total\":"@, dec(s.auto_repair_failures_total as nat), front);
    let t = t + ",\"auto_repair_failures_total\":"@ + dec(s.auto_repair_failures_total as nat);
    lemma_named(t, ",\"scrub_runs_total\":"@, dec(s.scrub_runs_total as nat), front);
    let t = t + ",\"scrub_runs_total\":"@ + dec(s.scrub_runs_total as nat);
    let key = ",\"scrub_repairs_total\":"@;
    let value = dec(s.scrub_repairs_total as nat);
    let end = key + value + "}\n"@;
    assert(t + key + value + "}\n"@ =~= t + end);
    lemma_named(t, end, Seq::empty(), front);
    assert(t + end + Seq::<char>::empty() =~= t + end);
    beginnings_and_ends(t, end, end);
}

/// A name and a value behind a text.
proof fn lemma_named(t: Seq<char>, key: Seq<char>, value: Seq<char>, front: Seq<char>)
    requires
        starts(t, front),
    ensures
        starts(t + key + value, front),
        occurs(t + key + value, key + value),
        forall|y: Seq<char>| occurs(t, y) ==> #[trigger] occurs(t + key + value, y),
{
    assert(t + key + value =~= t + (key + value));
    lemma_occurs_in_either();
    assert((t + key + value).take(front.len() as int) =~= t.take(front.len() as int));
}

/// What a sweep did on a node is told under its names.
pub proof fn sweeps_of_nodes_are_told(n: NodeGc)
    ensures
        starts(node_gc_json(n), "{\"idx\":"@ + dec(n.node_idx as nat) + ",\"addr\":\""@ + quotes_escaped(
            n.node_addr@,
        ) + "\""@),
        occurs(node_gc_json(n), ",\"held\":"@ + dec(n.held as nat)),
        occurs(node_gc_json(n), ",\"orphaned\":"@ + dec(n.orphaned as nat)),
        n.ok ==> occurs(node_gc_json(n), ",\"ok\":true"@),
        !n.ok ==> occurs(node_gc_json(n), ",\"ok\":false"@),
        n.error matches Some(e) ==> ends(node_gc_json(n), ",\"error\":\""@ + escaped(e@, false) + "\"}"@),
        n.error is None && n.ok ==> node_gc_json(n) == "{\"idx\":"@ + dec(n.node_idx as nat) + ",\"addr\":\""@
            + quotes_escaped(n.node_addr@) + "\""@ + (",\"held\":"@ + dec(n.held as nat)) + (
        ",\"orphaned\":"@ + dec(n.orphaned as nat)) + ",\"ok\":true"@ + "}"@,
{
    lemma_occurs_in_either();
    reveal_strlit("\",\"held\":");
    reveal_strlit(",\"held\":");
    reveal_strlit("\"");
    reveal_strlit("}");
    reveal_strlit("\"}");
    reveal_strlit(",\"ok\":");
    reveal_strlit("true");
    reveal_strlit("false");
    reveal_strlit(",\"ok\":true");
    reveal_strlit(",\"ok\":false");
    let a = "{\"idx\":"@ + dec(n.node_idx as nat) + ",\"addr\":\""@ + quotes_escaped(n.node_addr@) + "\""@;
    let b = ",\"held\":"@ + dec(n.held as nat);
    let c = ",\"orphaned\":"@ + dec(n.orphaned as nat);
    let d = if n.ok {
        ",\"ok\":true"@
    } else {
        ",\"ok\":false"@
    };
    let e = match n.error {
        Some(e) => ",\"error\":\""@ + escaped(e@, false) + "\"}"@,
        None => "}"@,
    };
    assert(",\"ok\":"@ + (if n.ok {
        "true"@
    } else {
        "false"@
    }) =~= d);
    assert(node_gc_json(n) =~= a + b + c + d + e);
    assert(a + b + c + d + e =~= a + (b + c + d + e));
    beginnings_and_ends(a, b + c + d + e, a);
    beginnings_and_ends(a + b + c + d, e, e);
}

/// An object in a list is told with its name, its kind and its size, and a result of a search with
/// its name, its score and its band.
pub proof fn rows_tell_what_they_are_about(o: ListedObject, h: SearchHit)
    ensures
        starts(listed_json(o), "{\"name\":\""@ + escaped(o.name@, false) + "\""@),
        occurs(listed_json(o), ",\"kind\":\""@ + kind_name(o.kind) + "\""@),
        ends(listed_json(o), ",\"size\":"@ + dec(o.size as nat) + "}"@),
        starts(hit_json(h), "{\"name\":\""@ + backslashed(h.name@) + "\""@),
        occurs(hit_json(h), ",\"score\":"@ + h.score@),
        ends(hit_json(h), ",\"band\":\""@ + band_name(h.band) + "\"}"@),
        listed_json(o).len() == escaped(o.name@, false).len() + kind_name(o.kind).len() + dec(
            o.size as nat,
        ).len() + 29,
        hit_json(h).len() == backslashed(h.name@).len() + h.score@.len() + band_name(h.band).len() + 30,
{
    lemma_occurs_in_either();
    reveal_strlit("\"");
    reveal_strlit("\",\"kind\":\"");
    reveal_strlit(",\"kind\":\"");
    reveal_strlit("\",\"size\":");
    reveal_strlit(",\"size\":");
    reveal_strlit("\",\"score\":");
    reveal_strlit(",\"score\":");
    reveal_strlit("{\"name\":\"");
    reveal_strlit("}");
    reveal_strlit("\"}");
    reveal_strlit(",\"band\":\"");
    let a = "{\"name\":\""@ + escaped(o.name@, false) + "\""@;
    let b = ",\"kind\":\""@ + kind_name(o.kind) + "\""@;
    let c = ",\"size\":"@ + dec(o.size as nat) + "}"@;
    assert(listed_json(o) =~= a + b + c);
    assert(a + b + c =~= a + (b + c));
    beginnings_and_ends(a, b + c, a);
    beginnings_and_ends(a + b, c, c);
    let d = "{\"name\":\""@ + backslashed(h.name@) + "\""@;
    let e = ",\"score\":"@ + h.score@;
    let f = ",\"band\":\""@ + band_name(h.band) + "\"}"@;
    assert(hit_json(h) =~= d + e + f);
    assert(d + e + f =~= d + (e + f));
    beginnings_and_ends(d, e + f, d);
    beginnings_and_ends(d + e, f, f);
}

/// The bands of a search have names that tell them apart.
pub proof fn bands_are_told_apart(a: SearchBand, b: SearchBand)
    requires
        band_name(a) == band_name(b),
    ensures
        a == b,
        a == SearchBand::Coarse ==> band_name(a) == "coarse"@,
        a == SearchBand::Mid ==> band_name(a) == "mid"@,
        a == SearchBand::Full ==> band_name(a) == "full"@,
        a == SearchBand::Any ==> band_name(a) == "any"@,
{
    reveal_strlit("coarse");
    reveal_strlit("mid");
    reveal_strlit("full");
    reveal_strlit("any");
    assert("coarse"@[0] == 'c' && "mid"@[0] == 'm' && "full"@[0] == 'f' && "any"@[0] == 'a');
}

/// A request that makes no sense is told so, in the words that are given; a search that is switched
/// off is told to be unavailable.
pub proof fn refused_requests_are_told_why<T>(msg: Seq<char>, r: Result<T, Reply>, a: Answer)
    ensures
        bad(msg).status == 400,
        bad(msg).body == utf8(msg),
        embed_off().status == 503,
        refuses(r, a) <==> r is Err && r->Err_0@ == a,
{
    reveal(utf8);
}

/// The shards of an object are those of its layers together.
pub proof fn shards_of_layers_add_up(v: Seq<u32>, n: nat)
    ensures
        shards_of(v, 0) == 0,
        shards_of(v, n + 1) == shards_of(v, n) + v[n as int],
{
}

/// The bytes of an object are those of its layers together, in each channel; each shard takes the
/// bytes that it carries and one for each coefficient.
pub proof fn bytes_of_layers_add_up(m: Manifest, n: nat)
    ensures
        bytes_of_layers(m, 0) == 0,
        n < m.sym_len@.len() ==> bytes_of_layers(m, n + 1) - bytes_of_layers(m, n) == m.n_per_layer@[n as int]
            * (m.sym_len@[n as int] + m.k) * m.channels,
        n >= m.sym_len@.len() ==> bytes_of_layers(m, n + 1) - bytes_of_layers(m, n) == m.n_per_layer@[n as int]
            * m.k * m.channels,
{
    assert(bytes_of_layers(m, n + 1) == bytes_of_layers(m, n) + layer_bytes(m, n as int));
    assert(layer_bytes(m, n as int) == channel_bytes(m, n as int) * m.channels as nat);
}

/// An object whose sums fit can be counted, and no other.
pub proof fn objects_that_fit_can_be_counted(m: Manifest)
    ensures
        can_be_counted(m) ==> bytes_of_layers(m, m.n_per_layer@.len()) <= u64::MAX && shards_of(
            m.n_per_layer@,
            m.n_per_layer@.len(),
        ) * m.channels <= u32::MAX,
        m.n_per_layer@.len() == 0 ==> can_be_counted(m),
{
}

/// The square for a shard has room for all its bytes, and no smaller one has.
pub proof fn squares_are_as_small_as_they_can_be(n: nat, s: nat)
    requires
        s >= 1,
        s * s >= n,
    ensures
        1 <= side_of(n) <= s,
        side_of(n) * side_of(n) >= n,
{
    let t = lemma_some_side(n, s);
    assert(is_side(t, n));
    assert(is_side(side_of(n), n));
    let d = side_of(n);
    if d > s {
        assert(s * s <= (d - 1) * (d - 1)) by (nonlinear_arith)
            requires
                s <= d - 1,
        ;
    }
}

proof fn lemma_some_side(n: nat, top: nat) -> (s: nat)
    requires
        top >= 1,
        top * top >= n,
    ensures
        is_side(s, n),
    decreases top,
{
    if top > 1 && (top - 1) * (top - 1) >= n {
        lemma_some_side(n, (top - 1) as nat)
    } else {
        top
    }
}

/// Each byte of a shard is one grey point, in the order of the bytes; the points that are left over
/// are black.
pub proof fn each_byte_is_a_point(b: Seq<u8>, side: nat, i: int)
    requires
        0 <= i < side * side,
    ensures
        grey_points(b, side).len() == 3 * (side * side),
        i < b.len() ==> grey_points(b, side)[3 * i] == b[i] && grey_points(b, side)[3 * i + 1] == b[i]
            && grey_points(b, side)[3 * i + 2] == b[i],
        i >= b.len() ==> grey_points(b, side)[3 * i] == 0 && grey_points(b, side)[3 * i + 1] == 0
            && grey_points(b, side)[3 * i + 2] == 0,
{
    assert((3 * i) / 3 == i && (3 * i + 1) / 3 == i && (3 * i + 2) / 3 == i);
}

/// A frame ends with the whole picture, behind a head that tells its length and its layer; the
/// stream is closed by the same boundary.
pub proof fn frames_hold_whole_pictures(png: Seq<u8>, layer: nat)
    ensures
        frame(png, layer).skip(frame(png, layer).len() - png.len()) == png,
        frame(png, layer).take(frame(png, layer).len() - png.len()) == utf8(
            "\r\n--hololayer-2026-06-25\r\nContent-Type: image/png\r\nContent-Length: "@,
        ) + utf8(dec(png.len())) + utf8("\r\nX-Holofs-Layer: "@) + utf8(dec(layer)) + utf8("\r\n\r\n"@),
        stream_tail() == utf8("\r\n--hololayer-2026-06-25--\r\n"@),
{
    let h = frame_head(png.len(), layer);
    let f = frame(png, layer);
    assert(f.skip(f.len() - png.len()) =~= png);
    assert(f.take(f.len() - png.len()) =~= h);
}

} // verus!
