//! What every operation of a store does to its log and to what is queued for its disk, and what is
//! read back from there.
use vstd::prelude::*;

use crate::chaos::{ErrorKind, Fault};
use crate::keyring::{Dek, Ring};
use crate::compaction::{is_snapshot, snapshot_of};
use crate::live::{
    applied, applied_all, due, has_none_of, holds, is_slot, keep, lemma_keep, lemma_place, no_twins, not_due,
    not_of, place, stored, Item,
};
use crate::node::{
    at_once, failed, fault_text, outcome, purge_answer, purge_goes_on, DiskError, Dropping, Response,
    Step,
};
use crate::recovery::{
    after_compacted, any_compact, compact_number, file_names, file_place, legacy_items, opened_state,
    recovered, replayed, single_ring, top_compact, top_number, top_segment, DiskFile,
};
use crate::shard_file::{is_shard_name, parse_shard_file, shard_digest, shard_file_name, Key};
use crate::store::{
    cut, doomed, hash_purge_start, left_of, object_purge_start, object_purge_step, remove_ops, spared,
    unwritten, Op, State,
};
use crate::store_laws::{bare, deks_of, ring_reads_itself, short_enough, snapshot_restores_every_shard};
use crate::wal::{
    append_outcome, by_number, by_number_is_sorted, closed_segment, frame, hashes_body, inserted, numbered,
    seg_magic, segment, segment_number, Log, Numbered, Rec, WalError,
};
use crate::wal_laws::{log_of, Raw};

verus! {

/// A sync queues just what is pending, for the active segment, and forces it to disk where that is
/// asked for; then nothing is pending any more, and what is held stays.
pub proof fn sync_queues_what_is_pending(s: State, l: Log)
    requires
        s.log == Some(l),
    ensures
        ({
            let t = s.synced();
            let m = t.log->0;
            &&& t.log is Some
            &&& t.items == s.items
            &&& t.next_seq == s.next_seq
            &&& t.synced_seq == s.synced_seq
            &&& t.sync_on_write == s.sync_on_write
            &&& m.pending.len() == 0
            &&& m.seq == l.seq && m.written == l.written && m.rotate_at == l.rotate_at && m.ring == l.ring
            &&& m.append_fault == l.append_fault
            &&& s.sync_on_write ==> m.sync_fault is None
            &&& !s.sync_on_write ==> m.sync_fault == l.sync_fault
            &&& t.ops.len() == s.ops.len() + 1
            &&& t.ops.drop_last() == s.ops
            &&& t.ops.last() matches Op::Append { seq, bytes, fsync } && seq == l.seq && bytes == l.pending
                && (fsync <==> s.sync_on_write && l.sync_fault is None)
        }),
{
    assert(s.synced().ops.drop_last() =~= s.ops);
}

/// A sync fails just where a fault is armed and the log is forced to disk, with that fault; only one
/// that does not fail counts what was logged as asked for.
pub proof fn sync_fails_by_its_fault(s: State)
    ensures
        s.log is None ==> s.synced() == s && s.sync_result() is Ok,
        s.log matches Some(l) ==> {
            &&& s.sync_result() is Err <==> s.sync_on_write && l.sync_fault is Some
            &&& s.sync_result() matches Err(f) ==> l.sync_fault matches Some(k) && f == Fault::Sync(k)
            &&& s.sync_result() is Ok ==> s.synced().flushed_seq == s.next_seq
            &&& s.sync_result() is Err ==> s.synced().flushed_seq == s.flushed_seq
        },
{
}

/// A log goes on in the next segment: what is pending is forced to the old one, the new one begins
/// with its name, and nothing else changes.
pub proof fn next_segment_begins_with_its_name(s: State, l: Log)
    requires
        s.log == Some(l),
        l.seq < u64::MAX,
    ensures
        ({
            let t = s.advanced();
            let m = t.log->0;
            &&& t.log is Some
            &&& m.seq == l.seq + 1
            &&& m.written == 8
            &&& m.pending.len() == 0
            &&& m.ring == l.ring && m.rotate_at == l.rotate_at && m.append_fault == l.append_fault
                && m.sync_fault == l.sync_fault
            &&& t.items == s.items
            &&& t.next_seq == s.next_seq && t.flushed_seq == s.flushed_seq && t.synced_seq == s.synced_seq
                && t.sync_on_write == s.sync_on_write
            &&& t.ops.len() == s.ops.len() + 2
            &&& t.ops.take(s.ops.len() as int) == s.ops
            &&& t.ops[s.ops.len() as int] == (Op::Append { seq: l.seq, bytes: l.pending, fsync: true })
            &&& t.ops.last() == (Op::Append {
                seq: (l.seq + 1) as u64,
                bytes: vstd::utf8::encode_utf8("HOLOFSW1"@),
                fsync: false,
            })
        }),
{
    assert(s.advanced().ops.take(s.ops.len() as int) =~= s.ops);
}

/// A log goes on in the next segment just where the active one is full.
pub proof fn full_segments_are_left(s: State)
    ensures
        s.log is None ==> s.rotated() == s && s.advanced() == s,
        s.log matches Some(l) ==> {
            &&& l.written >= l.rotate_at ==> s.rotated() == s.advanced()
            &&& l.written < l.rotate_at ==> s.rotated() == s
            &&& l.seq == u64::MAX ==> s.advanced() == s
        },
{
}

/// A record goes behind what is pending, whole, and the log is as much longer as the record is.
pub proof fn records_go_behind_what_is_pending(l: Log, kind: u8, body: Seq<u8>)
    ensures
        l.recorded(kind, body).pending == l.pending + frame(kind, body),
        l.written + 13 + body.len() <= u64::MAX ==> l.recorded(kind, body).written == l.written + 13
            + body.len(),
        l.recorded(kind, body).seq == l.seq,
        l.recorded(kind, body).ring == l.ring,
        l.recorded(kind, body).rotate_at == l.rotate_at,
        l.recorded(kind, body).append_fault == l.append_fault,
        l.recorded(kind, body).sync_fault == l.sync_fault,
        l.append_cleared().append_fault is None,
        l.append_cleared().pending == l.pending,
        l.append_cleared().written == l.written,
{
}

/// An append is refused just where a fault is armed, with that fault, which is then gone; nothing is
/// written then.
pub proof fn append_fails_by_its_fault(before: Log, after: Log, r: Result<(), Fault>, done: Log)
    requires
        append_outcome(before, after, r, done),
    ensures
        r is Err <==> before.append_fault is Some,
        before.append_fault matches Some(k) ==> r == Err::<(), Fault>(Fault::Append(k)) && after.append_fault
            is None && after.pending == before.pending && after.written == before.written,
        before.append_fault is None ==> after == done,
{
}

/// A shard that is put again is marked with the time, and nothing else of it or of the others changes.
pub proof fn only_the_time_changes(s: State, key: Key, hash: Seq<u8>, now: u64, i: int)
    requires
        holds(s.items, key, hash),
        0 <= i < s.items.len(),
    ensures
        s.touched(key, hash, now).items.len() == s.items.len(),
        i == place(s.items, key, hash) ==> s.touched(key, hash, now).items[i] == (Item {
            epoch: now,
            ..s.items[i]
        }),
        i != place(s.items, key, hash) ==> s.touched(key, hash, now).items[i] == s.items[i],
        s.touched(key, hash, now).log == s.log,
        s.touched(key, hash, now).ops == s.ops,
        s.touched(key, hash, now).next_seq == s.next_seq,
{
    lemma_place(s.items, key, hash);
}

/// After a wipe nothing is held; the directory is to be emptied, and then the log begins anew with
/// the record of the wipe, unless an append was to fail.
pub proof fn wipe_leaves_nothing(s: State)
    ensures
        s.wiped().items.len() == 0,
        s.log is None ==> s.wiped().ops == s.ops && s.wiped().log is None,
        s.log matches Some(l) ==> {
            &&& s.wiped().ops.len() == s.ops.len() + 2
            &&& s.wiped().ops.take(s.ops.len() as int) == s.ops
            &&& s.wiped().ops[s.ops.len() as int] == Op::RemoveAll
            &&& s.wiped().ops.last() matches Op::Append { seq, bytes, .. } && seq == 1 && bytes
                == vstd::utf8::encode_utf8("HOLOFSW1"@) + (if l.append_fault is Some {
                Seq::empty()
            } else {
                frame(3, Seq::empty())
            })
            &&& s.wiped().log matches Some(m) && m.seq == 1 && m.ring == l.ring && m.pending.len() == 0
        },
        s.wiped().next_seq == s.next_seq,
        s.wiped().sync_on_write == s.sync_on_write,
{
    if s.log is Some {
        assert(s.wiped().ops.take(s.ops.len() as int) =~= s.ops);
        let m = vstd::utf8::encode_utf8("HOLOFSW1"@);
        assert(m + Seq::<u8>::empty() =~= m);
    }
}

/// What is left of a queue is what was not done: of an append the bytes that were not written, and
/// every operation behind it.
pub proof fn what_was_not_done_is_left(ops: Seq<Op>, k: nat, n: nat)
    ensures
        k >= ops.len() ==> left_of(ops, k, n).len() == 0,
        k < ops.len() ==> {
            &&& left_of(ops, k, n).len() == ops.len() - k
            &&& left_of(ops, k, n)[0] == cut(ops[k as int], n)
            &&& left_of(ops, k, n).skip(1) == ops.skip(k as int + 1)
            &&& ops[k as int] matches Op::Append { seq, bytes, fsync } ==> cut(ops[k as int], n) matches Op::Append {
                seq: q,
                bytes: b,
                fsync: f,
            } && q == seq && f == fsync && (n <= bytes.len() ==> bytes.take(n as int) + b == bytes) && (n
                > bytes.len() ==> b.len() == 0)
            &&& !(ops[k as int] is Append) ==> cut(ops[k as int], n) == ops[k as int]
        },
{
    if k < ops.len() {
        assert(left_of(ops, k, n).skip(1) =~= ops.skip(k as int + 1));
        if let Op::Append { seq, bytes, fsync } = ops[k as int] {
            if n <= bytes.len() {
                assert(bytes.take(n as int) + bytes.skip(n as int) =~= bytes);
                if n == bytes.len() {
                    assert(bytes.take(n as int) + Seq::<u8>::empty() =~= bytes);
                }
            }
        }
    }
}

/// A record counts as written where the writing went well and nothing is left to be done.
pub proof fn records_count_as_written_when_all_is_done(s: State, written: Result<(), ErrorKind>)
    ensures
        unwritten(s, written) is None <==> written is Ok && s.ops.len() == 0,
        written matches Err(k) ==> unwritten(s, written) == Some(k),
        written is Ok && s.ops.len() > 0 ==> unwritten(s, written) == Some(ErrorKind::Other),
{
}

/// The hashes that a purge logs are those of the shards that it drops, and no other; a shard that it
/// spares has one of these hashes and is younger.
pub proof fn purge_logs_what_it_drops(items: Seq<Item>, targets: Seq<Seq<u8>>, max: u64, h: Seq<u8>, x: Item)
    ensures
        doomed(items, targets, max).contains(h) <==> exists|i: int|
            0 <= i < items.len() && (#[trigger] items[i]).hash == h && targets.contains(h) && items[i].epoch
                <= max,
        spared(targets, max)(x) <==> targets.contains(x.hash) && x.epoch > max,
        due(targets, max)(x) <==> targets.contains(x.hash) && x.epoch <= max,
        not_due(targets, max)(x) <==> !(targets.contains(x.hash) && x.epoch <= max),
        not_of(x.key.0)(x) == false,
        has_none_of(targets)(x) <==> !targets.contains(x.hash),
{
    let k = keep(items, due(targets, max));
    let d = doomed(items, targets, max);
    lemma_keep(items, due(targets, max));
    if d.contains(h) {
        let i = choose|i: int| 0 <= i < d.len() && d[i] == h;
        assert(k.contains(k[i]));
        let j = choose|j: int| 0 <= j < items.len() && items[j] == k[i];
        assert(items[j].hash == h);
    }
    if exists|i: int|
        0 <= i < items.len() && (#[trigger] items[i]).hash == h && targets.contains(h) && items[i].epoch <= max {
        let i = choose|i: int|
            0 <= i < items.len() && (#[trigger] items[i]).hash == h && targets.contains(h) && items[i].epoch
                <= max;
        assert(items.contains(items[i]));
        assert(k.contains(items[i]));
        let j = choose|j: int| 0 <= j < k.len() && k[j] == items[i];
        assert(d[j] == h);
    }
}

/// The files of the shards that were dropped are to be removed, one for each hash.
pub proof fn files_of_dropped_shards_are_removed(hashes: Seq<Seq<u8>>, i: int)
    ensures
        remove_ops(hashes).len() == hashes.len(),
        0 <= i < hashes.len() ==> remove_ops(hashes)[i] == (Op::Remove { name: shard_file_name(hashes[i]) }),
{
}

/// A record that is read does what it was written for: a put stores its shard, a purge drops the
/// object or the hashes and nothing else, and a wipe drops everything.
pub proof fn records_do_what_they_were_written_for(items: Seq<Item>, id: u64, hashes: Seq<Seq<u8>>, epoch: u64, x: Item)
    ensures
        applied(items, Rec::Purge { object_id: id }, epoch).contains(x) <==> items.contains(x) && x.key.0 != id,
        applied(items, Rec::PurgeHashes { hashes }, epoch).contains(x) <==> items.contains(x)
            && !hashes.contains(x.hash),
        applied(items, Rec::Wipe, epoch).len() == 0,
        applied(
            items,
            Rec::Put { object_id: x.key.0, channel: x.key.1, layer: x.key.2, hash: x.hash, shard: x.shard },
            x.epoch,
        ) == stored(items, x),
{
    lemma_keep(items, not_of(id));
    lemma_keep(items, has_none_of(hashes));
}

/// Records are read in their order.
pub proof fn records_are_read_in_order(items: Seq<Item>, recs: Seq<Rec>, r: Rec, epoch: u64)
    ensures
        applied_all(items, Seq::empty(), epoch) == items,
        applied_all(items, recs.push(r), epoch) == applied(applied_all(items, recs, epoch), r, epoch),
    decreases recs.len(),
{
    let all = recs.push(r);
    if recs.len() == 0 {
        assert(all[0] == r);
        assert(all.drop_first() =~= Seq::<Rec>::empty());
        assert(applied_all(applied(items, r, epoch), all.drop_first(), epoch) == applied(items, r, epoch));
    } else {
        records_are_read_in_order(applied(items, recs[0], epoch), recs.drop_first(), r, epoch);
        assert(all[0] == recs[0]);
        assert(all.drop_first() =~= recs.drop_first().push(r));
    }
}

/// A segment that was closed must end with a whole record; what it holds are its records.
pub proof fn closed_segments_end_with_whole_records(b: Seq<u8>, keys: Option<Seq<Dek>>)
    ensures
        closed_segment(b, keys) matches Ok(recs) ==> segment(b, keys) matches Ok(t) && t.records == recs
            && t.rest.len() == 0,
        segment(b, keys) matches Err(e) ==> closed_segment(b, keys) == Err::<Seq<Rec>, WalError>(e),
        segment(b, keys) matches Ok(t) && t.rest.len() > 0 ==> closed_segment(b, keys) is Err,
{
}

/// The numbers of the segments are those in their names; other files have none.
pub proof fn segments_are_numbered_by_their_names(names: Seq<String>, name: String)
    ensures
        numbered(Seq::empty()).len() == 0,
        segment_number(name@) matches Some(n) ==> numbered(names.push(name)) == numbered(names).push(
            (n as u64, name),
        ),
        segment_number(name@) is None ==> numbered(names.push(name)) == numbered(names),
{
    assert(names.push(name).drop_last() =~= names);
    assert(names.push(name).last() == name);
}

/// The greatest number of a compacted segment is that of one of them, and none has a greater.
pub proof fn newest_compacted_segment_counts(names: Seq<String>, i: int)
    requires
        0 <= i < names.len(),
    ensures
        compact_number(names[i]@) matches Some(n) ==> n <= top_compact(names),
        top_compact(names) > 0 ==> exists|k: int|
            0 <= k < names.len() && compact_number((#[trigger] names[k])@) == Some(top_compact(names) as nat),
        any_compact(names) <==> exists|k: int|
            0 <= k < names.len() && compact_number((#[trigger] names[k])@) is Some,
    decreases names.len(),
{
    let t = names.drop_last();
    assert(names[names.len() - 1] == names.last());
    crate::recovery::lemma_number_bound(names.last()@);
    if t.len() > 0 {
        newest_compacted_segment_counts(t, if i < t.len() {
            i
        } else {
            0
        });
        if top_compact(t) > 0 {
            let k = choose|k: int|
                0 <= k < t.len() && compact_number((#[trigger] t[k])@) == Some(top_compact(t) as nat);
            assert(names[k] == t[k]);
        }
    } else {
        assert(top_compact(t) == 0);
    }
    if i < t.len() {
        assert(t[i] == names[i]);
    }
}

/// The next segment is numbered behind all that are there.
pub proof fn greatest_number_is_not_exceeded(list: Seq<Numbered>, after: u64, i: int)
    requires
        0 <= i < list.len(),
    ensures
        list[i].0 <= top_number(list, after),
        after <= top_number(list, after),
        top_number(list, after) == after || exists|k: int|
            0 <= k < list.len() && (#[trigger] list[k]).0 == top_number(list, after),
        top_number(Seq::empty(), after) == after,
    decreases list.len(),
{
    let t = list.drop_last();
    assert(list[list.len() - 1] == list.last());
    if t.len() > 0 {
        greatest_number_is_not_exceeded(t, after, if i < t.len() {
            i
        } else {
            0
        });
        if top_number(t, after) != after {
            let k = choose|k: int| 0 <= k < t.len() && (#[trigger] t[k]).0 == top_number(t, after);
            assert(list[k] == t[k]);
        }
    } else {
        assert(top_number(t, after) == after);
    }
    if i < t.len() {
        assert(t[i] == list[i]);
    }
}

/// A file with one shard gives that shard, with the file's time; one that is none, or cannot be read,
/// gives nothing and stops nothing.
pub proof fn single_files_give_their_shards(files: Seq<DiskFile>, f: DiskFile, keys: Option<Seq<Dek>>)
    ensures
        legacy_items(Seq::empty(), keys).len() == 0,
        !is_shard_name(f.name@) || parse_shard_file(f.bytes@, keys) is Err ==> legacy_items(
            files.push(f),
            keys,
        ) == legacy_items(files, keys),
        is_shard_name(f.name@) ==> (parse_shard_file(f.bytes@, keys) matches Ok((k, p)) ==> legacy_items(
            files.push(f),
            keys,
        ) == stored(
            legacy_items(files, keys),
            Item { key: k, hash: shard_digest(p), shard: p, epoch: f.mtime_ms },
        )),
{
    assert(files.push(f).drop_last() =~= files);
    assert(files.push(f).last() == f);
}

/// What is recovered comes from the single files, then the newest compacted segment, and then the
/// segments behind it, in the order of their numbers.
pub proof fn recovery_reads_in_order(legacy: Seq<DiskFile>, files: Seq<DiskFile>, keys: Option<Seq<Dek>>)
    ensures
        after_compacted(legacy_items(legacy, keys), files, keys) matches Err(e) ==> recovered(legacy, files, keys)
            == Err::<Seq<Item>, WalError>(e),
        after_compacted(legacy_items(legacy, keys), files, keys) matches Ok(items) ==> recovered(
            legacy,
            files,
            keys,
        ) == replayed(
            items,
            by_number(numbered(file_names(files))),
            top_compact(file_names(files)),
            files,
            keys,
        ),
        top_compact(file_names(files)) == 0 ==> after_compacted(legacy_items(legacy, keys), files, keys) == Ok::<
            Seq<Item>,
            WalError,
        >(legacy_items(legacy, keys)),
        files.len() == 0 ==> recovered(legacy, files, keys) == Ok::<Seq<Item>, WalError>(
            legacy_items(legacy, keys),
        ),
        file_names(files).len() == files.len(),
        top_segment(files) >= top_compact(file_names(files)),
{
    if files.len() == 0 {
        assert(file_names(files) =~= Seq::<String>::empty());
        assert(numbered(file_names(files)) =~= Seq::<Numbered>::empty());
        assert(by_number(numbered(file_names(files))) =~= Seq::<Numbered>::empty());
    }
    let list = by_number(numbered(file_names(files)));
    if list.len() > 0 {
        greatest_number_is_not_exceeded(list, top_compact(file_names(files)), 0);
    }
}

/// Reading goes on behind a segment with what it holds, and stops at one that cannot be read; a
/// segment that a compacted one stands for is passed over.
pub proof fn segments_are_read_one_by_one(
    items: Seq<Item>,
    n: Numbered,
    rest: Seq<Numbered>,
    after: u64,
    files: Seq<DiskFile>,
    keys: Option<Seq<Dek>>,
)
    ensures
        replayed(items, Seq::empty(), after, files, keys) == Ok::<Seq<Item>, WalError>(items),
        n.0 <= after ==> replayed(items, seq![n] + rest, after, files, keys) == replayed(
            items,
            rest,
            after,
            files,
            keys,
        ),
        n.0 > after ==> ({
            let f = files[file_place(files, n.1@)];
            match segment(f.bytes@, keys) {
                Err(e) => replayed(items, seq![n] + rest, after, files, keys) == Err::<Seq<Item>, WalError>(e),
                Ok(t) => replayed(items, seq![n] + rest, after, files, keys) == replayed(
                    applied_all(items, t.records, f.mtime_ms),
                    rest,
                    after,
                    files,
                    keys,
                ),
            }
        }),
{
    let list = seq![n] + rest;
    assert(list[0] == n);
    assert(list.drop_first() =~= rest);
}

/// A store that was opened holds what was recovered, logs to a new segment behind all others, and has
/// that segment's name to write; no put has been logged yet.
pub proof fn opened_stores_begin_a_segment(items: Seq<Item>, highest: u64, ring: Option<Ring>)
    requires
        highest < u64::MAX,
    ensures
        ({
            let s = opened_state(items, highest, ring);
            &&& s.items == items
            &&& s.log matches Some(l) && l.seq == highest + 1 && l.ring == ring && l.pending.len() == 0
                && l.append_fault is None && l.sync_fault is None && l.rotate_at == 64 * 1024 * 1024
            &&& s.next_seq == 0 && s.flushed_seq == 0 && s.synced_seq == 0
            &&& s.sync_on_write
            &&& s.ops == seq![
                Op::Append {
                    seq: (highest + 1) as u64,
                    bytes: vstd::utf8::encode_utf8("HOLOFSW1"@),
                    fsync: false,
                },
            ]
        }),
{
}

/// A ring of one key has it as the first and current one.
pub proof fn rings_of_one_key_use_it(key: Seq<u8>)
    ensures
        single_ring(key).deks.len() == 1,
        single_ring(key).deks[0].key == key,
        single_ring(key).current_dek().key == key,
        single_ring(key).wf(),
        single_ring(key).current == 1,
{
    let r = single_ring(key);
    crate::keyring::lemma_place_of(r.deks, 1);
    assert(r.deks[0].id == r.current);
}

/// A purge that was refused is answered at once, in the words of the fault; one that was not waits for
/// its record to be written.
pub proof fn refused_purges_are_answered_at_once(
    c: Result<(), Fault>,
    what: Seq<char>,
    drop: Dropping,
    step: Step,
    resp: Response,
)
    ensures
        purge_goes_on(c, what, drop, step) && c is Ok ==> step == Step::Write(drop),
        purge_goes_on(c, what, drop, step) && c is Err ==> step is Answer && step->wait_for == 0 && step->resp is Error
            && step->resp->Error_0@ == what + fault_text(c->Err_0),
        at_once(step, resp) <==> step == (Step::Answer { resp, wait_for: 0 }),
        failed(what, what, resp) <==> resp is Error && resp->Error_0@ == what + what,
        c matches Err(Fault::Append(_)) ==> fault_text(c->Err_0) == "chaos: injected WAL append fault"@,
        c matches Err(Fault::Sync(_)) ==> fault_text(c->Err_0) == "chaos: injected WAL sync fault"@,
        c matches Err(Fault::Disk(_)) ==> fault_text(c->Err_0) == "log could not be written"@,
{
}

/// A purge is acknowledged just where it went through; else it is told why, in the words of the disk
/// where it was the disk.
pub proof fn purges_are_acknowledged_when_they_went_through(
    c: Result<usize, Fault>,
    what: Seq<char>,
    written: Result<(), DiskError>,
    resp: Response,
)
    requires
        purge_answer(c, what, written, resp),
    ensures
        c is Ok ==> resp is Ack,
        c is Err ==> resp is Error,
        c is Err ==> (written matches Err(e) ==> resp->Error_0@ == what + e.text@),
        c matches Err(f) ==> written is Ok ==> resp->Error_0@ == what + fault_text(f),
        outcome(written) is Ok <==> written is Ok,
        written matches Err(e) ==> outcome(written) == Err::<(), ErrorKind>(e.kind),
{
}

/// The first half of dropping an object logs the record of it, unless that is refused; a store without
/// a log has nothing to log.
pub proof fn dropping_an_object_is_logged_first(before: State, id: u64, after: State, r: Result<(), Fault>)
    requires
        object_purge_start(before, id, after, r),
    ensures
        after.items == before.items,
        before.log is None ==> after == before && r is Ok,
        before.log matches Some(l) ==> (l.append_fault matches Some(k) ==> r == Err::<(), Fault>(Fault::Append(k))
            && after.ops == before.ops),
        before.log matches Some(l) ==> l.append_fault is None ==> {
            &&& r == before.sync_result()
            &&& after.ops.len() == before.ops.len() + 1
            &&& after.ops.last() matches Op::Append { seq, bytes, .. } && seq == l.seq && bytes == l.pending
                + frame(2, crate::bytes::be64(id))
        },
{
}

/// A sound store holds no shard twice under one key, and counts no more puts as written than were
/// asked for, and no more as asked for than were logged.
pub proof fn sound_stores_hold_no_shard_twice(s: State, i: int, j: int)
    requires
        s.wf(),
        0 <= i < j < s.items.len(),
    ensures
        s.items[i].key != s.items[j].key || s.items[i].hash != s.items[j].hash,
        s.synced_seq <= s.flushed_seq <= s.next_seq,
{
    assert(!is_slot(s.items[i], s.items[j].key, s.items[j].hash));
}

/// Segments in order have numbers that do not fall, and are all there.
pub proof fn ordered_segments_are_all_there(s: Seq<Numbered>, i: int, j: int)
    requires
        0 <= i < j < by_number(s).len(),
    ensures
        by_number(s)[i].0 <= by_number(s)[j].0,
        by_number(s).to_multiset() == s.to_multiset(),
{
    by_number_is_sorted(s);
}

/// A purge of an object queues the removal of the file of each shard that it dropped, behind what was
/// queued, and of no other; a store without a log has no files.
pub proof fn purge_removes_the_files_of_its_shards(
    before: State,
    id: u64,
    written: Result<(), ErrorKind>,
    after: State,
    n: usize,
    i: int,
)
    requires
        object_purge_step(before, id, written, after, Ok(n)),
        0 <= i < before.items.len(),
        before.items[i].key.0 == id,
    ensures
        before.log is Some ==> after.ops.contains(Op::Remove { name: shard_file_name(before.items[i].hash) }),
        before.log is None ==> after.ops == before.rotated().ops,
        before.log is Some ==> after.ops.len() == before.rotated().ops.len() + before.items.len()
            - after.items.len(),
{
    let mid = before.rotated();
    let h = before.items[i].hash;
    assert(unwritten(before, written) is None);
    if before.log is Some {
        assert forall|gone: Seq<Seq<u8>>|
            gone.contains(h) && after.ops == mid.ops + #[trigger] remove_ops(gone) implies after.ops.contains(
            Op::Remove { name: shard_file_name(h) },
        ) && after.ops.len() == mid.ops.len() + gone.len() by {
            let j = choose|j: int| 0 <= j < gone.len() && gone[j] == h;
            assert(after.ops[mid.ops.len() + j] == (Op::Remove { name: shard_file_name(h) }));
        }
    }
}

/// A purge by hashes logs the hashes of what it will drop, behind what is pending, and behind them a
/// put for each shard that it spares; where nothing is due it logs nothing.
pub proof fn purge_by_hashes_is_logged_first(
    before: State,
    targets: Seq<Seq<u8>>,
    max: u64,
    after: State,
    r: Result<(), Fault>,
)
    requires
        hash_purge_start(before, targets, max, after, r),
    ensures
        after.items == before.items,
        before.log is None || doomed(before.items, targets, max).len() == 0 ==> after == before && r is Ok,
        before.log matches Some(l) ==> doomed(before.items, targets, max).len() > 0 ==> {
            let head = l.pending + frame(4, hashes_body(doomed(before.items, targets, max)));
            &&& l.append_fault matches Some(k) ==> r == Err::<(), Fault>(Fault::Append(k)) && after.ops
                == before.ops
            &&& l.append_fault is None ==> {
                &&& r == before.sync_result()
                &&& after.ops.len() == before.ops.len() + 1
                &&& after.ops.last() is Append
                &&& after.ops.last()->seq == l.seq
                &&& exists|list: Seq<Raw>|
                    {
                        &&& #[trigger] snapshot_of(
                            l.ring,
                            keep(before.items, spared(doomed(before.items, targets, max), max)),
                            list,
                        )
                        &&& after.ops.last()->Append_bytes == head + log_of(list)
                    }
            }
        },
{
    if before.log is Some && doomed(before.items, targets, max).len() > 0 && before.log->0.append_fault is None {
        let l = before.log->0;
        let hs = doomed(before.items, targets, max);
        let list = choose|list: Seq<Raw>|
            {
                &&& #[trigger] snapshot_of(l.ring, keep(before.items, spared(hs, max)), list)
                &&& after == before.with_log_synced(
                    l.recorded(4, hashes_body(hs)).recorded_all(list),
                )
            };
        crate::wal::lemma_recorded_all(l.recorded(4, hashes_body(hs)), list);
    }
}

/// The segment that a compaction writes gives back exactly the shards that were held then, and begins
/// as every segment does.
pub proof fn compacted_segment_gives_back_every_shard(
    ring: Option<Ring>,
    items: Seq<Item>,
    bytes: Seq<u8>,
    mtime: u64,
)
    requires
        is_snapshot(ring, items, bytes),
        no_twins(items),
        ring_reads_itself(ring),
        forall|i: int|
            0 <= i < items.len() ==> (#[trigger] items[i]).hash.len() == 32 && short_enough(items[i].shard),
    ensures
        closed_segment(bytes, deks_of(ring)) matches Ok(recs) && bare(
            applied_all(Seq::empty(), recs, mtime),
        ) == bare(items),
{
    let list = choose|list: Seq<Raw>|
        #[trigger] snapshot_of(ring, items, list) && bytes == seg_magic() + log_of(list);
    snapshot_restores_every_shard(items, list, ring, mtime);
}

/// Segments that have the same number stay in the order in which they were found.
pub proof fn segments_with_one_number_stay_in_order(s: Seq<Numbered>, n: u64)
    ensures
        by_number(s).filter(|x: Numbered| x.0 == n) == s.filter(|x: Numbered| x.0 == n),
    decreases s.len(),
{
    let p = |x: Numbered| x.0 == n;
    if s.len() > 0 {
        segments_with_one_number_stay_in_order(s.drop_last(), n);
        lemma_inserted_in_order(by_number(s.drop_last()), s.last(), n);
        lemma_filter_push(by_number(s.drop_last()), s.last(), p);
        lemma_filter_push(s.drop_last(), s.last(), p);
        assert(s.drop_last().push(s.last()) =~= s);
    }
}

proof fn lemma_filter_push(s: Seq<Numbered>, x: Numbered, p: spec_fn(Numbered) -> bool)
    ensures
        p(x) ==> s.push(x).filter(p) == s.filter(p).push(x),
        !p(x) ==> s.push(x).filter(p) == s.filter(p),
{
    reveal(Seq::filter);
    assert(s.push(x).drop_last() =~= s);
}

proof fn lemma_inserted_in_order(s: Seq<Numbered>, x: Numbered, n: u64)
    ensures
        inserted(s, x).filter(|x: Numbered| x.0 == n) == s.push(x).filter(|x: Numbered| x.0 == n),
    decreases s.len(),
{
    let p = |x: Numbered| x.0 == n;
    if s.len() > 0 && s.last().0 > x.0 {
        let t = s.drop_last();
        lemma_inserted_in_order(t, x, n);
        lemma_filter_push(inserted(t, x), s.last(), p);
        lemma_filter_push(t, x, p);
        lemma_filter_push(t, s.last(), p);
        lemma_filter_push(s, x, p);
        assert(t.push(s.last()) =~= s);
    }
}

} // verus!
