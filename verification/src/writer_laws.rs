//! What holds of the writer of the log and of what becomes of its bytes: every row of appends is
//! read back, a segment that was cut gives the whole records that are left, and a byte that was
//! altered is found.
use vstd::prelude::*;

use crate::bytes::{be32, be32_round_trip, be64, be64_round_trip, len32};
use crate::keyring::{Dek, Ring};
use crate::restart::lemma_cut;
use crate::store_laws::{deks_of, lemma_put_record, ring_reads_itself, short_enough};
use crate::wal::{
    closed_segment, digest, frame, hashes_body, is_put_record, lemma_seg_magic, next_frame,
    parse_body, put_head, scan, seg_magic, segment, Log, Next, Rec, Scan, WalError, KIND_PURGE,
    KIND_PURGE_HASHES, KIND_PUT_PLAIN, KIND_PUT_SEALED, KIND_WIPE,
};
use crate::wal_laws::{
    framed_record_is_found, log_is_read_back, log_of, log_of_push, meaning, purge_hashes_is_read_back,
    purge_is_read_back, sound, whole_segment_is_read_back, wipe_is_read_back, Raw,
};

verus! {

broadcast use crate::bytes::group_be;

/// What appending one record does to a log that refuses nothing.
pub open spec fn append_step(before: Log, rec: Rec, after: Log) -> bool {
    match rec {
        Rec::Put { object_id, channel, layer, hash, shard } => before.put_recorded(
            put_head(object_id, channel, layer, hash),
            shard,
            after,
        ),
        Rec::Purge { object_id } => after == before.recorded(KIND_PURGE, be64(object_id)),
        Rec::PurgeHashes { hashes } => after == before.recorded(
            KIND_PURGE_HASHES,
            hashes_body(hashes),
        ),
        Rec::Wipe => after == before.recorded(KIND_WIPE, Seq::empty()),
    }
}

/// Whether the lengths of a record fit their fields.
pub open spec fn recordable(rec: Rec) -> bool {
    match rec {
        Rec::Put { hash, shard, .. } => hash.len() == 32 && short_enough(shard),
        Rec::PurgeHashes { hashes } => {
            &&& hashes.len() <= u32::MAX
            &&& hashes_body(hashes).len() < u32::MAX
            &&& forall|i: int| 0 <= i < hashes.len() ==> (#[trigger] hashes[i]).len() == 32
        },
        _ => true,
    }
}

/// Whether `logs` are what a log goes through when records are appended, one after the other.
pub open spec fn appended(logs: Seq<Log>, recs: Seq<Rec>) -> bool {
    &&& logs.len() == recs.len() + 1
    &&& forall|i: int| 0 <= i < recs.len() ==> append_step(#[trigger] logs[i], recs[i], logs[i + 1])
}

/// The framed record of one append.
proof fn lemma_append(before: Log, rec: Rec, after: Log) -> (raw: Raw)
    requires
        append_step(before, rec, after),
        recordable(rec),
        ring_reads_itself(before.ring),
    ensures
        after.pending == before.pending + frame(raw.kind, raw.body),
        after.ring == before.ring,
        raw.body.len() < u32::MAX,
        parse_body(raw.kind, raw.body, deks_of(before.ring)) == Ok::<Rec, WalError>(rec),
        rec is Put ==> raw.kind == if before.ring is Some {
            KIND_PUT_SEALED
        } else {
            KIND_PUT_PLAIN
        },
        !(rec is Put) ==> forall|keys: Option<Seq<Dek>>| #[trigger]
            parse_body(raw.kind, raw.body, keys) == Ok::<Rec, WalError>(rec),
{
    let keys = deks_of(before.ring);
    match rec {
        Rec::Put { object_id, channel, layer, hash, shard } => {
            let head = put_head(object_id, channel, layer, hash);
            let (kind, body) = choose|kind: u8, body: Seq<u8>|
                {
                    &&& is_put_record(before.ring, head, shard, kind, body)
                    &&& after == #[trigger] before.recorded(kind, body)
                };
            let raw = Raw { kind, body };
            lemma_put_record(before.ring, (object_id, channel, layer), hash, shard, raw);
            raw
        },
        Rec::Purge { object_id } => {
            be64_round_trip(object_id);
            purge_is_read_back(object_id, keys);
            assert forall|k: Option<Seq<Dek>>| #[trigger]
                parse_body(KIND_PURGE, be64(object_id), k) == Ok::<Rec, WalError>(rec) by {
                purge_is_read_back(object_id, k);
            }
            Raw { kind: KIND_PURGE, body: be64(object_id) }
        },
        Rec::PurgeHashes { hashes } => {
            purge_hashes_is_read_back(hashes, keys);
            assert forall|k: Option<Seq<Dek>>| #[trigger]
                parse_body(KIND_PURGE_HASHES, hashes_body(hashes), k) == Ok::<Rec, WalError>(
                    rec,
                ) by {
                purge_hashes_is_read_back(hashes, k);
            }
            Raw { kind: KIND_PURGE_HASHES, body: hashes_body(hashes) }
        },
        Rec::Wipe => {
            wipe_is_read_back(keys);
            assert forall|k: Option<Seq<Dek>>| #[trigger]
                parse_body(KIND_WIPE, Seq::empty(), k) == Ok::<Rec, WalError>(rec) by {
                wipe_is_read_back(k);
            }
            Raw { kind: KIND_WIPE, body: Seq::empty() }
        },
    }
}

/// Whether `list` are the framed records of some appends under a ring.
spec fn stands_as(list: Seq<Raw>, recs: Seq<Rec>, ring: Option<Ring>) -> bool {
    &&& list.len() == recs.len()
    &&& sound(list, deks_of(ring))
    &&& meaning(list, deks_of(ring)) == recs
    &&& forall|i: int|
        0 <= i < list.len() ==> if recs[i] is Put {
            (#[trigger] list[i]).kind == if ring is Some {
                KIND_PUT_SEALED
            } else {
                KIND_PUT_PLAIN
            }
        } else {
            forall|k: Option<Seq<Dek>>| #[trigger]
                parse_body(list[i].kind, list[i].body, k) == Ok::<Rec, WalError>(recs[i])
        }
}

/// The framed records of a row of appends.
proof fn lemma_appended(logs: Seq<Log>, recs: Seq<Rec>, n: int) -> (list: Seq<Raw>)
    requires
        appended(logs, recs),
        0 <= n <= recs.len(),
        ring_reads_itself(logs[0].ring),
        forall|i: int| 0 <= i < recs.len() ==> recordable(#[trigger] recs[i]),
    ensures
        stands_as(list, recs.take(n), logs[0].ring),
        logs[n].pending == logs[0].pending + log_of(list),
        logs[n].ring == logs[0].ring,
    decreases n,
{
    let ring = logs[0].ring;
    let keys = deks_of(ring);
    if n == 0 {
        let list = Seq::<Raw>::empty();
        assert(log_of(list) =~= Seq::<u8>::empty());
        assert(logs[0].pending + log_of(list) =~= logs[0].pending);
        assert(meaning(list, keys) =~= recs.take(0));
        list
    } else {
        let first = lemma_appended(logs, recs, n - 1);
        let rec = recs[n - 1];
        assert(recordable(rec));
        assert(append_step(logs[n - 1], rec, logs[n - 1 + 1]));
        let raw = lemma_append(logs[n - 1], rec, logs[n]);
        let list = first.push(raw);
        log_of_push(first, raw);
        assert(logs[n].pending =~= logs[0].pending + log_of(list));
        let t = recs.take(n);
        assert(t =~= recs.take(n - 1).push(rec));
        assert(meaning(list, keys) =~= meaning(first, keys).push(rec));
        assert(sound(list, keys)) by {
            assert forall|i: int| 0 <= i < list.len() implies {
                &&& (#[trigger] list[i]).body.len() < u32::MAX
                &&& parse_body(list[i].kind, list[i].body, keys) is Ok
            } by {
                if i < first.len() {
                    assert(list[i] == first[i]);
                }
            }
        }
        assert forall|i: int| 0 <= i < list.len() implies if t[i] is Put {
            (#[trigger] list[i]).kind == if ring is Some {
                KIND_PUT_SEALED
            } else {
                KIND_PUT_PLAIN
            }
        } else {
            forall|k: Option<Seq<Dek>>| #[trigger]
                parse_body(list[i].kind, list[i].body, k) == Ok::<Rec, WalError>(t[i])
        } by {
            if i < first.len() {
                assert(list[i] == first[i]);
                assert(t[i] == recs.take(n - 1)[i]);
            }
        }
        list
    }
}

/// Whatever is appended by a new writer is read back from its segment: every record, in order, as
/// it was given, sealed or not. `logs` are what the log went through.
pub proof fn every_row_of_appends_is_read_back(logs: Seq<Log>, recs: Seq<Rec>)
    requires
        appended(logs, recs),
        logs[0].pending == seg_magic(),
        ring_reads_itself(logs[0].ring),
        forall|i: int| 0 <= i < recs.len() ==> recordable(#[trigger] recs[i]),
    ensures
        segment(logs.last().pending, deks_of(logs[0].ring)) == Ok::<Scan, WalError>(
            Scan { records: recs, rest: Seq::empty() },
        ),
{
    let list = lemma_appended(logs, recs, recs.len() as int);
    assert(recs.take(recs.len() as int) =~= recs);
    whole_segment_is_read_back(list, deks_of(logs[0].ring));
}

/// A record that makes no sense, behind some that do, is the error, whatever follows.
proof fn lemma_scan_stops(list: Seq<Raw>, bad: Raw, rest: Seq<u8>, keys: Option<Seq<Dek>>)
    requires
        sound(list, keys),
        bad.body.len() < u32::MAX,
        parse_body(bad.kind, bad.body, keys) is Err,
    ensures
        scan(log_of(list) + frame(bad.kind, bad.body) + rest, keys) == Err::<Scan, WalError>(
            parse_body(bad.kind, bad.body, keys)->Err_0,
        ),
    decreases list.len(),
{
    let f = frame(bad.kind, bad.body);
    if list.len() == 0 {
        assert(log_of(list) + f + rest =~= f + rest);
        framed_record_is_found(bad.kind, bad.body, rest);
    } else {
        let r = list[0];
        let more = list.drop_first();
        let tail = log_of(more) + f + rest;
        assert(r.body.len() < u32::MAX && parse_body(r.kind, r.body, keys) is Ok);
        assert(log_of(list) + f + rest =~= frame(r.kind, r.body) + tail);
        framed_record_is_found(r.kind, r.body, tail);
        assert(sound(more, keys)) by {
            assert forall|i: int| 0 <= i < more.len() implies {
                &&& (#[trigger] more[i]).body.len() < u32::MAX
                &&& parse_body(more[i].kind, more[i].body, keys) is Ok
            } by {
                assert(more[i] == list[i + 1]);
            }
        }
        lemma_scan_stops(more, bad, rest, keys);
    }
}

/// A segment that holds a sealed shard is not read without keys.
pub proof fn sealed_segment_needs_its_keys(logs: Seq<Log>, recs: Seq<Rec>)
    requires
        appended(logs, recs),
        logs[0].pending == seg_magic(),
        logs[0].ring is Some,
        ring_reads_itself(logs[0].ring),
        forall|i: int| 0 <= i < recs.len() ==> recordable(#[trigger] recs[i]),
        exists|i: int| 0 <= i < recs.len() && (#[trigger] recs[i]) is Put,
    ensures
        segment(logs.last().pending, None) == Err::<Scan, WalError>(WalError::SealedWithoutKey),
{
    let list = lemma_appended(logs, recs, recs.len() as int);
    assert(recs.take(recs.len() as int) =~= recs);
    let i = choose|i: int| 0 <= i < recs.len() && (#[trigger] recs[i]) is Put;
    let k = lemma_first_put(recs, i);
    let none: Option<Seq<Dek>> = None;
    let init = list.take(k);
    assert(sound(init, none)) by {
        assert forall|j: int| 0 <= j < init.len() implies {
            &&& (#[trigger] init[j]).body.len() < u32::MAX
            &&& parse_body(init[j].kind, init[j].body, none) is Ok
        } by {
            assert(init[j] == list[j]);
            assert(!(recs[j] is Put));
            assert(parse_body(list[j].kind, list[j].body, none) == Ok::<Rec, WalError>(recs[j]));
        }
    }
    let bad = list[k];
    assert(bad.kind == KIND_PUT_SEALED);
    assert(parse_body(bad.kind, bad.body, none) == Err::<Rec, WalError>(WalError::SealedWithoutKey))
        by {
        reveal(parse_body);
    }
    let rest = log_of(list.skip(k + 1));
    lemma_log_of_split(list, k);
    lemma_scan_stops(init, bad, rest, none);
    lemma_seg_magic();
    let b = logs.last().pending;
    assert(b.subrange(0, 8) =~= seg_magic());
    assert(b.skip(8) =~= log_of(list));
}

/// The first put of a row that has one.
proof fn lemma_first_put(recs: Seq<Rec>, i: int) -> (k: int)
    requires
        0 <= i < recs.len(),
        recs[i] is Put,
    ensures
        0 <= k <= i,
        recs[k] is Put,
        forall|j: int| 0 <= j < k ==> !((#[trigger] recs[j]) is Put),
    decreases i,
{
    if exists|j: int| 0 <= j < i && (#[trigger] recs[j]) is Put {
        let j = choose|j: int| 0 <= j < i && (#[trigger] recs[j]) is Put;
        lemma_first_put(recs, j)
    } else {
        i
    }
}

/// A log is what stands before a record, the record, and what stands behind it.
proof fn lemma_log_of_split(list: Seq<Raw>, k: int)
    requires
        0 <= k < list.len(),
    ensures
        log_of(list) == log_of(list.take(k)) + frame(list[k].kind, list[k].body) + log_of(
            list.skip(k + 1),
        ),
    decreases k,
{
    let f = frame(list[0].kind, list[0].body);
    let more = list.drop_first();
    if k == 0 {
        assert(list.take(0) =~= Seq::<Raw>::empty());
        assert(log_of(list.take(0)) =~= Seq::<u8>::empty());
        assert(list.skip(1) =~= more);
        assert(log_of(list) =~= log_of(list.take(0)) + f + log_of(list.skip(1)));
    } else {
        lemma_log_of_split(more, k - 1);
        assert(list.take(k).drop_first() =~= more.take(k - 1));
        assert(list.skip(k + 1) =~= more.skip(k));
        assert(log_of(list) =~= log_of(list.take(k)) + frame(list[k].kind, list[k].body) + log_of(
            list.skip(k + 1),
        ));
    }
}

/// A segment that was cut at any byte gives exactly the records that lie whole before the cut; a
/// segment that was cut within its first bytes gives none.
pub proof fn cut_segment_gives_its_whole_records(list: Seq<Raw>, n: int, keys: Option<Seq<Dek>>) -> (j:
    int)
    requires
        sound(list, keys),
        0 <= n <= 8 + log_of(list).len(),
    ensures
        0 <= j <= list.len(),
        segment((seg_magic() + log_of(list)).take(n), keys) matches Ok(t) && t.records == meaning(
            list.take(j),
            keys,
        ),
        j > 0 ==> 8 + log_of(list.take(j)).len() <= n,
        forall|q: int|
            0 <= q <= list.len() && 8 + #[trigger] log_of(list.take(q)).len() <= n ==> q <= j,
{
    lemma_seg_magic();
    let b = seg_magic() + log_of(list);
    let c = b.take(n);
    assert(list.take(0) =~= Seq::<Raw>::empty());
    assert(meaning(list.take(0), keys) =~= Seq::<Rec>::empty());
    assert(log_of(list.take(0)) =~= Seq::<u8>::empty());
    if n < 8 {
        0
    } else {
        let (j, tail) = lemma_cut(list, n - 8, keys);
        log_is_read_back(list.take(j), tail, keys);
        assert(c.subrange(0, 8) =~= seg_magic());
        assert(c.skip(8) =~= log_of(list).take(n - 8));
        j
    }
}

/// Whether altering a byte of a record is told by its digest: a byte of the digest itself always
/// is; a byte of the kind or the body, where the digest of what it became is another.
pub open spec fn is_told(kind: u8, body: Seq<u8>, i: int, x: u8) -> bool {
    let f = frame(kind, body).update(i, x);
    i >= 5 + body.len() || digest(f[4], f.subrange(5, 5 + body.len() as int)) != digest(kind, body)
}

/// A record of which a byte behind the length was altered is no record.
proof fn lemma_altered_is_torn(kind: u8, body: Seq<u8>, i: int, x: u8, rest: Seq<u8>)
    requires
        body.len() < u32::MAX,
        4 <= i < frame(kind, body).len(),
        x != frame(kind, body)[i],
        is_told(kind, body, i, x),
    ensures
        next_frame(frame(kind, body).update(i, x) + rest) == Next::Torn,
{
    let f = frame(kind, body);
    let g = f.update(i, x);
    let s = g + rest;
    let n = 1 + body.len() as int;
    framed_record_is_found(kind, body, rest);
    be32_round_trip(n as u32);
    assert(s.subrange(0, 4) =~= be32(len32(n as nat)));
    assert(f.subrange(4 + n, 12 + n) =~= digest(kind, body));
    assert(f.subrange(4, 4 + n) =~= seq![kind] + body);
    assert(s.subrange(4 + n, 12 + n) =~= g.subrange(4 + n, 12 + n));
    assert(s.subrange(4, 4 + n) =~= g.subrange(4, 4 + n));
    let k2 = g[4];
    let b2 = g.subrange(5, 5 + body.len() as int);
    assert(g.subrange(4, 4 + n) =~= seq![k2] + b2);
    if i >= 4 + n {
        assert(g.subrange(4, 4 + n) =~= f.subrange(4, 4 + n));
        assert(g.subrange(4 + n, 12 + n)[i - 4 - n] == x);
        assert(f.subrange(4 + n, 12 + n)[i - 4 - n] == f[i]);
    } else {
        assert(g.subrange(4 + n, 12 + n) =~= f.subrange(4 + n, 12 + n));
    }
}

/// A byte that was altered in a record, behind its length, ends the log before that record, where
/// the digest tells it; a closed segment with such a byte is refused.
pub proof fn altered_record_is_found(
    list: Seq<Raw>,
    k: int,
    i: int,
    x: u8,
    keys: Option<Seq<Dek>>,
)
    requires
        sound(list, keys),
        0 <= k < list.len(),
        4 <= i < frame(list[k].kind, list[k].body).len(),
        x != frame(list[k].kind, list[k].body)[i],
        is_told(list[k].kind, list[k].body, i, x),
    ensures
        ({
            let at = 8 + log_of(list.take(k)).len() + i;
            let b = (seg_magic() + log_of(list)).update(at, x);
            &&& segment(b, keys) matches Ok(t) && t.records == meaning(list.take(k), keys)
            &&& closed_segment(b, keys) == Err::<Seq<Rec>, WalError>(WalError::Incomplete)
        }),
{
    lemma_seg_magic();
    let r = list[k];
    assert(r.body.len() < u32::MAX);
    let f = frame(r.kind, r.body);
    let g = f.update(i, x);
    let rest = log_of(list.skip(k + 1));
    let init = list.take(k);
    lemma_log_of_split(list, k);
    let at = 8 + log_of(init).len() + i;
    let b = (seg_magic() + log_of(list)).update(at, x);
    let tail = g + rest;
    lemma_altered_is_torn(r.kind, r.body, i, x, rest);
    assert(b =~= seg_magic() + (log_of(init) + tail));
    assert(b.subrange(0, 8) =~= seg_magic());
    assert(b.skip(8) =~= log_of(init) + tail);
    assert(sound(init, keys)) by {
        assert forall|j: int| 0 <= j < init.len() implies {
            &&& (#[trigger] init[j]).body.len() < u32::MAX
            &&& parse_body(init[j].kind, init[j].body, keys) is Ok
        } by {
            assert(init[j] == list[j]);
        }
    }
    log_is_read_back(init, tail, keys);
}

/// A segment whose first bytes were altered is refused.
pub proof fn altered_magic_is_refused(b: Seq<u8>, keys: Option<Seq<Dek>>)
    requires
        b.len() >= 8,
        b.subrange(0, 8) != seg_magic(),
    ensures
        segment(b, keys) matches Err(WalError::WrongMagic(_)),
{
}

/// A whole record of a kind that is not known, behind records that make sense, is refused.
pub proof fn unknown_kind_is_refused(list: Seq<Raw>, kind: u8, body: Seq<u8>, rest: Seq<u8>, keys: Option<Seq<Dek>>)
    requires
        sound(list, keys),
        body.len() < u32::MAX,
        kind != KIND_PUT_PLAIN,
        kind != KIND_PUT_SEALED,
        kind != KIND_PURGE,
        kind != KIND_PURGE_HASHES,
        kind != KIND_WIPE,
    ensures
        segment(seg_magic() + log_of(list) + frame(kind, body) + rest, keys) == Err::<Scan, WalError>(
            WalError::UnknownKind(kind),
        ),
{
    reveal(parse_body);
    lemma_seg_magic();
    lemma_scan_stops(list, Raw { kind, body }, rest, keys);
    let b = seg_magic() + log_of(list) + frame(kind, body) + rest;
    assert(b.subrange(0, 8) =~= seg_magic());
    assert(b.skip(8) =~= log_of(list) + frame(kind, body) + rest);
}

} // verus!
