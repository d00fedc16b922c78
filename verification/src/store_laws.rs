//! What holds of every store: what was put is found, what was purged is gone and
//! nothing else, and what the log holds is what a restart gives back.
use vstd::prelude::*;

use crate::bytes::be64;

use crate::compaction::snapshot_of;
use crate::keyring::{sealed_blob_opens, Dek, Ring};
use crate::live::{
    applied, applied_all, has_none_of, holds, is_slot, keep, lemma_keep, lemma_place,
    lemma_place_is, no_twins, not_due, not_of, place, stored, without_hashes, without_object, Item,
};
use crate::recovery::{recovered, replayed, DiskFile};
use crate::shard_file::{shard_digest, Key};
use crate::store::State;
use crate::wal::{
    closed_segment, frame, hashes_body, is_put_record, next_frame, parse_body, put_head,
    sealed_body, sealed_plain, seg_magic, segment, KIND_PURGE, KIND_PURGE_HASHES, KIND_WIPE, Next,
    Numbered, Piece, Rec, WalError,
};
use crate::wal_laws::{
    log_is_read_back, log_of, meaning, plain_put_is_read_back, purge_hashes_is_read_back,
    purge_is_read_back, sealed_put_is_read_back, sound, whole_segment_is_read_back,
    wipe_is_read_back, Raw,
};

verus! {

broadcast use crate::bytes::group_be;

/// The items without the times at which they were written.
pub open spec fn bare(items: Seq<Item>) -> Seq<Item> {
    items.map_values(|i: Item| Item { epoch: 0, ..i })
}

/// Whether a condition does not look at the time at which an item was written.
spec fn timeless(p: spec_fn(Item) -> bool) -> bool {
    forall|i: Item| #[trigger] p(Item { epoch: 0, ..i }) == p(i)
}

/// The shards with lengths that the fields of a record can hold.
pub open spec fn short_enough(p: Piece) -> bool {
    p.coeffs.len() + p.payload.len() + 100 <= u32::MAX
}

/// Whether a log that is sealed with this ring can be read with it: the current key
/// is the newest.
pub open spec fn ring_reads_itself(ring: Option<Ring>) -> bool {
    ring matches Some(r) ==> r.wf() && r.current_dek() == r.deks.last()
}

/// The keys of a ring, where there is one.
pub open spec fn deks_of(ring: Option<Ring>) -> Option<Seq<Dek>> {
    match ring {
        Some(r) => Some(r.deks),
        None => None,
    }
}

/// Whether the records in `list`, read over `base`, give the shards in `items`.
pub open spec fn accounts_for(
    list: Seq<Raw>,
    keys: Option<Seq<Dek>>,
    base: Seq<Item>,
    items: Seq<Item>,
) -> bool {
    &&& sound(list, keys)
    &&& bare(items) == applied_all(bare(base), meaning(list, keys), 0)
}

pub proof fn lemma_bare_place(items: Seq<Item>, key: Key, hash: Seq<u8>)
    ensures
        place(bare(items), key, hash) == place(items, key, hash),
{
    lemma_place(items, key, hash);
    let b = bare(items);
    let k = place(items, key, hash);
    assert forall|j: int| 0 <= j < k implies !is_slot(#[trigger] b[j], key, hash) by {
        assert(!is_slot(items[j], key, hash));
    }
    lemma_place_is(b, key, hash, k);
}

proof fn lemma_bare_stored(items: Seq<Item>, it: Item)
    ensures
        bare(stored(items, it)) == stored(bare(items), Item { epoch: 0, ..it }),
{
    lemma_bare_place(items, it.key, it.hash);
    lemma_place(items, it.key, it.hash);
    assert(bare(stored(items, it)) =~= stored(bare(items), Item { epoch: 0, ..it }));
}

proof fn lemma_bare_keep(items: Seq<Item>, p: spec_fn(Item) -> bool)
    requires
        timeless(p),
    ensures
        bare(keep(items, p)) == keep(bare(items), p),
    decreases items.len(),
{
    if items.len() == 0 {
        assert(bare(keep(items, p)) =~= keep(bare(items), p));
    } else {
        let t = items.drop_first();
        lemma_bare_keep(t, p);
        assert(bare(items).drop_first() =~= bare(t));
        assert(bare(items)[0] == (Item { epoch: 0, ..items[0] }));
        assert(p(bare(items)[0]) == p(items[0]));
        assert(bare(seq![items[0]] + keep(t, p)) =~= seq![bare(items)[0]] + bare(keep(t, p)));
        assert(bare(keep(items, p)) =~= keep(bare(items), p));
    }
}

/// What a record does to the shards does not depend on the times.
proof fn lemma_bare_applied(items: Seq<Item>, rec: Rec, epoch: u64)
    ensures
        bare(applied(items, rec, epoch)) == applied(bare(items), rec, 0),
{
    match rec {
        Rec::Put { object_id, channel, layer, hash, shard } => {
            lemma_bare_stored(
                items,
                Item { key: (object_id, channel, layer), hash, shard, epoch },
            );
        },
        Rec::Purge { object_id } => {
            assert(timeless(not_of(object_id)));
            lemma_bare_keep(items, not_of(object_id));
        },
        Rec::PurgeHashes { hashes } => {
            assert(timeless(has_none_of(hashes)));
            lemma_bare_keep(items, has_none_of(hashes));
        },
        Rec::Wipe => {
            assert(bare(Seq::<Item>::empty()) =~= Seq::<Item>::empty());
        },
    }
}

proof fn lemma_bare_applied_all(items: Seq<Item>, recs: Seq<Rec>, epoch: u64)
    ensures
        bare(applied_all(items, recs, epoch)) == applied_all(bare(items), recs, 0),
    decreases recs.len(),
{
    if recs.len() > 0 {
        lemma_bare_applied(items, recs[0], epoch);
        lemma_bare_applied_all(applied(items, recs[0], epoch), recs.drop_first(), epoch);
    }
}

proof fn lemma_applied_push(items: Seq<Item>, recs: Seq<Rec>, r: Rec, epoch: u64)
    ensures
        applied_all(items, recs.push(r), epoch) == applied(applied_all(items, recs, epoch), r, epoch),
    decreases recs.len(),
{
    let all = recs.push(r);
    if recs.len() == 0 {
        assert(all.drop_first() =~= Seq::<Rec>::empty());
        assert(applied_all(applied(items, r, epoch), all.drop_first(), epoch) == applied(
            items,
            r,
            epoch,
        ));
    } else {
        assert(all.drop_first() =~= recs.drop_first().push(r));
        lemma_applied_push(applied(items, recs[0], epoch), recs.drop_first(), r, epoch);
    }
}

/// One more record that makes sense, and its effect.
proof fn lemma_account_push(
    list: Seq<Raw>,
    raw: Raw,
    keys: Option<Seq<Dek>>,
    base: Seq<Item>,
    items: Seq<Item>,
    epoch: u64,
)
    requires
        accounts_for(list, keys, base, items),
        raw.body.len() < u32::MAX,
        parse_body(raw.kind, raw.body, keys) is Ok,
    ensures
        accounts_for(
            list.push(raw),
            keys,
            base,
            applied(items, parse_body(raw.kind, raw.body, keys)->Ok_0, epoch),
        ),
{
    let more = list.push(raw);
    let rec = parse_body(raw.kind, raw.body, keys)->Ok_0;
    assert(meaning(more, keys) =~= meaning(list, keys).push(rec));
    lemma_applied_push(bare(base), meaning(list, keys), rec, 0);
    lemma_bare_applied(items, rec, epoch);
    assert forall|i: int| 0 <= i < more.len() implies {
        &&& (#[trigger] more[i]).body.len() < u32::MAX
        &&& parse_body(more[i].kind, more[i].body, keys) is Ok
    } by {
        if i < list.len() {
            assert(more[i] == list[i]);
        }
    }
}

/// The record of a put is read as the shard that was put.
pub proof fn lemma_put_record(
    ring: Option<Ring>,
    key: Key,
    hash: Seq<u8>,
    shard: Piece,
    raw: Raw,
)
    requires
        is_put_record(ring, put_head(key.0, key.1, key.2, hash), shard, raw.kind, raw.body),
        hash.len() == 32,
        short_enough(shard),
        ring_reads_itself(ring),
    ensures
        raw.body.len() < u32::MAX,
        parse_body(raw.kind, raw.body, deks_of(ring)) == Ok::<Rec, WalError>(
            Rec::Put { object_id: key.0, channel: key.1, layer: key.2, hash, shard },
        ),
{
    let head = put_head(key.0, key.1, key.2, hash);
    match ring {
        None => {
            plain_put_is_read_back(key.0, key.1, key.2, hash, shard, None);
        },
        Some(r) => {
            let blob = choose|blob: Seq<u8>|
                {
                    &&& r.seals(head, sealed_plain(shard), blob)
                    &&& raw.body == #[trigger] sealed_body(head, blob)
                };
            sealed_blob_opens(r, head, sealed_plain(shard), blob);
            sealed_put_is_read_back(key.0, key.1, key.2, hash, shard, blob, r.deks);
        },
    }
}

/// A put that was stored is in the log: with its record, the log accounts for what
/// the store then holds.
pub proof fn put_is_logged(
    before: State,
    key: Key,
    shard: Piece,
    now: u64,
    after: State,
    n: u64,
    list: Seq<Raw>,
    base: Seq<Item>,
) -> (raw: Raw)
    requires
        before.put_step(key, shard, now, after, (true, n)),
        before.log is Some,
        short_enough(shard),
        ring_reads_itself(before.log->0.ring),
        accounts_for(list, deks_of(before.log->0.ring), base, before.items),
    ensures
        accounts_for(list.push(raw), deks_of(before.log->0.ring), base, after.items),
        after.log->0.pending == before.log->0.pending + frame(raw.kind, raw.body),
{
    let l = before.log->0;
    let hash = shard_digest(shard);
    let head = put_head(key.0, key.1, key.2, hash);
    let (kind, body) = choose|kind: u8, body: Seq<u8>|
        {
            &&& is_put_record(l.ring, head, shard, kind, body)
            &&& after.log->0 == #[trigger] l.recorded(kind, body)
        };
    let raw = Raw { kind, body };
    lemma_put_record(l.ring, key, hash, shard, raw);
    lemma_account_push(list, raw, deks_of(l.ring), base, before.items, now);
    raw
}

/// A put that was not stored (the shard is held already, or the log refused it) leaves
/// the shards and the log as they were.
pub proof fn put_that_is_not_stored_changes_no_shard(
    before: State,
    key: Key,
    shard: Piece,
    now: u64,
    after: State,
    n: u64,
)
    requires
        before.put_step(key, shard, now, after, (false, n)),
    ensures
        bare(after.items) == bare(before.items),
        before.log matches Some(l) ==> after.log matches Some(m) && m.pending == l.pending,
        after.ops == before.ops,
{
    lemma_place(before.items, key, shard_digest(shard));
    assert(bare(after.items) =~= bare(before.items));
}

/// A purge that went through is in the log.
pub proof fn purge_is_logged(object_id: u64, keys: Option<Seq<Dek>>, list: Seq<Raw>, base: Seq<Item>, items: Seq<Item>)
    requires
        accounts_for(list, keys, base, items),
    ensures
        accounts_for(
            list.push(Raw { kind: KIND_PURGE, body: be64(object_id) }),
            keys,
            base,
            without_object(items, object_id),
        ),
{
    purge_is_read_back(object_id, keys);
    lemma_account_push(
        list,
        Raw { kind: KIND_PURGE, body: be64(object_id) },
        keys,
        base,
        items,
        0,
    );
}

/// A purge by hashes that went through is in the log.
pub proof fn purge_by_hashes_is_logged(
    hashes: Seq<Seq<u8>>,
    keys: Option<Seq<Dek>>,
    list: Seq<Raw>,
    base: Seq<Item>,
    items: Seq<Item>,
)
    requires
        accounts_for(list, keys, base, items),
        forall|i: int| 0 <= i < hashes.len() ==> (#[trigger] hashes[i]).len() == 32,
        hashes_body(hashes).len() < u32::MAX,
        hashes.len() <= u32::MAX,
    ensures
        accounts_for(
            list.push(Raw { kind: KIND_PURGE_HASHES, body: hashes_body(hashes) }),
            keys,
            base,
            without_hashes(items, hashes),
        ),
{
    purge_hashes_is_read_back(hashes, keys);
    lemma_account_push(
        list,
        Raw { kind: KIND_PURGE_HASHES, body: hashes_body(hashes) },
        keys,
        base,
        items,
        0,
    );
}

/// After a wipe the log accounts for an empty store, whatever was there before.
pub proof fn wipe_is_logged(keys: Option<Seq<Dek>>, base: Seq<Item>)
    ensures
        accounts_for(seq![Raw { kind: KIND_WIPE, body: Seq::empty() }], keys, base, Seq::empty()),
{
    wipe_is_read_back(keys);
    let list = Seq::<Raw>::empty();
    assert(meaning(list, keys) =~= Seq::<Rec>::empty());
    assert(accounts_for(list, keys, base, base));
    lemma_account_push(
        list,
        Raw { kind: KIND_WIPE, body: Seq::empty() },
        keys,
        base,
        base,
        0,
    );
    assert(list.push(Raw { kind: KIND_WIPE, body: Seq::empty() }) =~= seq![
        Raw { kind: KIND_WIPE, body: Seq::empty() },
    ]);
}

/// A restart gives back exactly the shards that the log accounts for, also where a
/// crash has cut the last record short.
pub proof fn logged_shards_survive_restart(
    list: Seq<Raw>,
    tail: Seq<u8>,
    keys: Option<Seq<Dek>>,
    base: Seq<Item>,
    items: Seq<Item>,
    mtime: u64,
)
    requires
        accounts_for(list, keys, base, items),
        next_frame(tail) == Next::Torn,
    ensures
        segment(seg_magic() + log_of(list) + tail, keys) matches Ok(t) && bare(
            applied_all(base, t.records, mtime),
        ) == bare(items),
{
    crate::wal::lemma_seg_magic();
    log_is_read_back(list, tail, keys);
    let b = seg_magic() + log_of(list) + tail;
    assert(b.subrange(0, 8) =~= seg_magic());
    assert(b.skip(8) =~= log_of(list) + tail);
    lemma_bare_applied_all(base, meaning(list, keys), mtime);
}

proof fn lemma_snapshot_steps(
    items: Seq<Item>,
    list: Seq<Raw>,
    ring: Option<Ring>,
    n: int,
)
    requires
        snapshot_of(ring, items, list),
        no_twins(items),
        ring_reads_itself(ring),
        forall|i: int|
            0 <= i < items.len() ==> (#[trigger] items[i]).hash.len() == 32 && short_enough(
                items[i].shard,
            ),
        0 <= n <= items.len(),
    ensures
        accounts_for(list.take(n), deks_of(ring), Seq::empty(), items.take(n)),
    decreases n,
{
    let keys = deks_of(ring);
    if n == 0 {
        assert(meaning(list.take(0), keys) =~= Seq::<Rec>::empty());
        assert(bare(items.take(0)) =~= bare(Seq::<Item>::empty()));
    } else {
        lemma_snapshot_steps(items, list, ring, n - 1);
        let it = items[n - 1];
        let raw = list[n - 1];
        assert(it.hash.len() == 32 && short_enough(it.shard));
        lemma_put_record(ring, it.key, it.hash, it.shard, raw);
        lemma_account_push(
            list.take(n - 1),
            raw,
            keys,
            Seq::empty(),
            items.take(n - 1),
            it.epoch,
        );
        let prev = items.take(n - 1);
        lemma_place(prev, it.key, it.hash);
        if holds(prev, it.key, it.hash) {
            let k = place(prev, it.key, it.hash);
            assert(is_slot(prev[k], it.key, it.hash));
            assert(items[k] == prev[k]);
            assert(!is_slot(items[k], items[n - 1].key, items[n - 1].hash));
        }
        assert(list.take(n - 1).push(raw) =~= list.take(n));
        assert(prev.push(it) =~= items.take(n));
        assert(stored(prev, it) == items.take(n));
    }
}

/// A compacted segment gives back exactly the shards that were held when it was
/// written.
pub proof fn snapshot_restores_every_shard(
    items: Seq<Item>,
    list: Seq<Raw>,
    ring: Option<Ring>,
    mtime: u64,
)
    requires
        snapshot_of(ring, items, list),
        no_twins(items),
        ring_reads_itself(ring),
        forall|i: int|
            0 <= i < items.len() ==> (#[trigger] items[i]).hash.len() == 32 && short_enough(
                items[i].shard,
            ),
    ensures
        closed_segment(seg_magic() + log_of(list), deks_of(ring)) matches Ok(recs) && bare(
            applied_all(Seq::empty(), recs, mtime),
        ) == bare(items),
{
    lemma_snapshot_steps(items, list, ring, items.len() as int);
    assert(list.take(items.len() as int) =~= list);
    assert(items.take(items.len() as int) =~= items);
    whole_segment_is_read_back(list, deks_of(ring));
    crate::wal::lemma_seg_magic();
    lemma_bare_applied_all(Seq::empty(), meaning(list, deks_of(ring)), mtime);
}

/// The records of a compacted segment do nothing but store shards.
pub proof fn snapshot_only_stores(items: Seq<Item>, list: Seq<Raw>, ring: Option<Ring>)
    requires
        snapshot_of(ring, items, list),
        no_twins(items),
        ring_reads_itself(ring),
        forall|i: int|
            0 <= i < items.len() ==> (#[trigger] items[i]).hash.len() == 32 && short_enough(
                items[i].shard,
            ),
    ensures
        closed_segment(seg_magic() + log_of(list), deks_of(ring)) matches Ok(recs) && forall|i: int|
            0 <= i < recs.len() ==> (#[trigger] recs[i]) is Put,
{
    lemma_snapshot_steps(items, list, ring, items.len() as int);
    assert(list.take(items.len() as int) =~= list);
    whole_segment_is_read_back(list, deks_of(ring));
    crate::wal::lemma_seg_magic();
    let recs = meaning(list, deks_of(ring));
    assert(closed_segment(seg_magic() + log_of(list), deks_of(ring)) == Ok::<Seq<Rec>, WalError>(recs));
    assert forall|i: int| 0 <= i < recs.len() implies (#[trigger] recs[i]) is Put by {
        let it = items[i];
        assert(it.hash.len() == 32 && short_enough(it.shard));
        lemma_put_record(ring, it.key, it.hash, it.shard, list[i]);
    }
}

/// Segments that a compacted segment stands for are not read again, though a crash
/// may have left them on disk.
pub proof fn subsumed_segments_are_skipped(
    items: Seq<Item>,
    list: Seq<Numbered>,
    after: u64,
    files: Seq<DiskFile>,
    keys: Option<Seq<Dek>>,
)
    requires
        forall|i: int| 0 <= i < list.len() ==> (#[trigger] list[i]).0 <= after,
    ensures
        replayed(items, list, after, files, keys) == Ok::<Seq<Item>, WalError>(items),
    decreases list.len(),
{
    if list.len() > 0 {
        let t = list.drop_first();
        assert forall|i: int| 0 <= i < t.len() implies (#[trigger] t[i]).0 <= after by {
            assert(t[i] == list[i + 1]);
        }
        subsumed_segments_are_skipped(items, t, after, files, keys);
    }
}

/// The records of several segments in a row.
pub open spec fn joined_records(raws: Seq<Seq<Raw>>) -> Seq<Raw>
    decreases raws.len(),
{
    if raws.len() == 0 {
        Seq::empty()
    } else {
        raws[0] + joined_records(raws.drop_first())
    }
}

/// Whether a segment's file holds these records, up to a tail that begins no whole
/// record.
pub open spec fn file_holds(bytes: Seq<u8>, raws: Seq<Raw>, keys: Option<Seq<Dek>>) -> bool {
    &&& sound(raws, keys)
    &&& exists|tail: Seq<u8>|
        next_frame(tail) == Next::Torn && bytes == #[trigger] (seg_magic() + log_of(raws) + tail)
}

/// Whether the segments in `list` are all numbered over `after` and hold these records.
pub open spec fn segments_hold(
    list: Seq<Numbered>,
    after: u64,
    files: Seq<DiskFile>,
    raws: Seq<Seq<Raw>>,
    keys: Option<Seq<Dek>>,
) -> bool {
    &&& list.len() == raws.len()
    &&& forall|i: int|
        0 <= i < list.len() ==> (#[trigger] list[i]).0 > after && file_holds(
            files[crate::recovery::file_place(files, list[i].1@)].bytes@,
            raws[i],
            keys,
        )
}

proof fn lemma_applied_concat(items: Seq<Item>, a: Seq<Rec>, b: Seq<Rec>, epoch: u64)
    ensures
        applied_all(items, a + b, epoch) == applied_all(applied_all(items, a, epoch), b, epoch),
    decreases a.len(),
{
    if a.len() == 0 {
        assert(a + b =~= b);
    } else {
        assert((a + b).drop_first() =~= a.drop_first() + b);
        lemma_applied_concat(applied(items, a[0], epoch), a.drop_first(), b, epoch);
    }
}

/// Reading segments in order does what all their records in a row do.
pub proof fn rotated_log_survives_restart(
    base: Seq<Item>,
    list: Seq<Numbered>,
    after: u64,
    files: Seq<DiskFile>,
    raws: Seq<Seq<Raw>>,
    keys: Option<Seq<Dek>>,
)
    requires
        segments_hold(list, after, files, raws, keys),
    ensures
        replayed(base, list, after, files, keys) matches Ok(v) && accounts_for(
            joined_records(raws),
            keys,
            base,
            v,
        ),
    decreases list.len(),
{
    if list.len() == 0 {
        assert(meaning(joined_records(raws), keys) =~= Seq::<Rec>::empty());
    } else {
        let f = files[crate::recovery::file_place(files, list[0].1@)];
        assert(list[0].0 > after);
        let tail = choose|tail: Seq<u8>|
            next_frame(tail) == Next::Torn && f.bytes@ == #[trigger] (seg_magic() + log_of(raws[0])
                + tail);
        crate::wal::lemma_seg_magic();
        log_is_read_back(raws[0], tail, keys);
        assert(f.bytes@.subrange(0, 8) =~= seg_magic());
        assert(f.bytes@.skip(8) =~= log_of(raws[0]) + tail);
        let recs = meaning(raws[0], keys);
        let next = applied_all(base, recs, f.mtime_ms);
        let more = raws.drop_first();
        let rest = list.drop_first();
        assert forall|i: int| 0 <= i < rest.len() implies (#[trigger] rest[i]).0 > after && file_holds(
            files[crate::recovery::file_place(files, rest[i].1@)].bytes@,
            more[i],
            keys,
        ) by {
            assert(rest[i] == list[i + 1]);
            assert(more[i] == raws[i + 1]);
        }
        rotated_log_survives_restart(next, rest, after, files, more, keys);
        lemma_bare_applied_all(base, recs, f.mtime_ms);
        let all = joined_records(raws);
        assert(meaning(all, keys) =~= recs + meaning(joined_records(more), keys));
        lemma_applied_concat(bare(base), recs, meaning(joined_records(more), keys), 0);
        assert forall|i: int| 0 <= i < all.len() implies {
            &&& (#[trigger] all[i]).body.len() < u32::MAX
            &&& parse_body(all[i].kind, all[i].body, keys) is Ok
        } by {
            if i < raws[0].len() {
                assert(all[i] == raws[0][i]);
            } else {
                assert(all[i] == joined_records(more)[i - raws[0].len()]);
            }
        }
    }
}

/// A node that restarts after a compaction holds exactly the shards that it held
/// then, though segments that the compacted one stands for are still on disk.
pub proof fn compacted_store_survives_restart(
    items: Seq<Item>,
    list: Seq<Raw>,
    ring: Option<Ring>,
    files: Seq<DiskFile>,
)
    requires
        snapshot_of(ring, items, list),
        no_twins(items),
        ring_reads_itself(ring),
        forall|i: int|
            0 <= i < items.len() ==> (#[trigger] items[i]).hash.len() == 32 && short_enough(
                items[i].shard,
            ),
        ({
            let names = crate::recovery::file_names(files);
            let n = crate::recovery::top_compact(names);
            let on_disk = crate::wal::by_number(crate::wal::numbered(names));
            &&& n > 0
            &&& files[crate::recovery::compact_place(files, n)].bytes@ == seg_magic() + log_of(list)
            &&& forall|i: int| 0 <= i < on_disk.len() ==> (#[trigger] on_disk[i]).0 <= n
        }),
    ensures
        recovered(Seq::empty(), files, deks_of(ring)) matches Ok(v) && bare(v) == bare(items),
{
    let names = crate::recovery::file_names(files);
    let n = crate::recovery::top_compact(names);
    let f = files[crate::recovery::compact_place(files, n)];
    snapshot_restores_every_shard(items, list, ring, f.mtime_ms);
    let recs = closed_segment(f.bytes@, deks_of(ring))->Ok_0;
    subsumed_segments_are_skipped(
        applied_all(Seq::empty(), recs, f.mtime_ms),
        crate::wal::by_number(crate::wal::numbered(names)),
        n,
        files,
        deks_of(ring),
    );
}

/// What was stored is found under its key and hash.
pub proof fn stored_shard_is_found(items: Seq<Item>, it: Item)
    ensures
        holds(stored(items, it), it.key, it.hash),
        stored(items, it)[place(stored(items, it), it.key, it.hash)] == it,
{
    lemma_place(items, it.key, it.hash);
    let s = stored(items, it);
    let k = if holds(items, it.key, it.hash) {
        place(items, it.key, it.hash)
    } else {
        items.len() as int
    };
    assert(s[k] == it);
    assert forall|j: int| 0 <= j < k implies !is_slot(#[trigger] s[j], it.key, it.hash) by {
        assert(!is_slot(items[j], it.key, it.hash));
    }
    lemma_place_is(s, it.key, it.hash, k);
}

/// Storing one shard changes no other.
pub proof fn storing_keeps_the_others(items: Seq<Item>, it: Item, x: Item)
    requires
        items.contains(x),
        !is_slot(x, it.key, it.hash),
    ensures
        stored(items, it).contains(x),
{
    lemma_place(items, it.key, it.hash);
    let i = choose|i: int| 0 <= i < items.len() && items[i] == x;
    assert(stored(items, it)[i] == x);
}

/// A second put of the same shard is not stored; it only marks the shard as written
/// at that time.
pub proof fn second_put_only_bumps_the_epoch(
    before: State,
    key: Key,
    shard: Piece,
    t1: u64,
    mid: State,
    n1: u64,
    t2: u64,
    after: State,
    r: (bool, u64),
)
    requires
        before.put_step(key, shard, t1, mid, (true, n1)),
        mid.put_step(key, shard, t2, after, r),
    ensures
        r == (false, mid.next_seq),
        after.items.len() == mid.items.len(),
        after.items[place(after.items, key, shard_digest(shard))] == (Item {
            key,
            hash: shard_digest(shard),
            shard,
            epoch: t2,
        }),
{
    let hash = shard_digest(shard);
    let it = Item { key, hash, shard, epoch: t1 };
    stored_shard_is_found(before.items, it);
    let k = place(mid.items, key, hash);
    lemma_place(mid.items, key, hash);
    assert forall|j: int| 0 <= j < k implies !is_slot(#[trigger] after.items[j], key, hash) by {
        assert(!is_slot(mid.items[j], key, hash));
    }
    lemma_place_is(after.items, key, hash, k);
}

/// A purge takes every shard of the object, and no shard of another.
pub proof fn purge_removes_only_the_object(items: Seq<Item>, object_id: u64, x: Item)
    ensures
        without_object(items, object_id).contains(x) <==> items.contains(x) && x.key.0 != object_id,
{
    lemma_keep(items, not_of(object_id));
}

/// A purge by hashes up to a time takes every shard that has one of the hashes and is
/// no younger.
pub proof fn purge_takes_what_is_due(items: Seq<Item>, targets: Seq<Seq<u8>>, max: u64, x: Item)
    requires
        targets.contains(x.hash),
        x.epoch <= max,
    ensures
        !keep(items, not_due(targets, max)).contains(x),
{
    lemma_keep(items, not_due(targets, max));
}

/// A purge by hashes up to a time leaves every shard that is younger, and every shard that
/// has none of the hashes.
pub proof fn purge_spares_what_is_younger(items: Seq<Item>, targets: Seq<Seq<u8>>, max: u64, x: Item)
    requires
        items.contains(x),
        !targets.contains(x.hash) || x.epoch > max,
    ensures
        keep(items, not_due(targets, max)).contains(x),
{
    lemma_keep(items, not_due(targets, max));
}

} // verus!
