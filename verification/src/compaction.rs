//! Compaction of the log: the shards that are held are written to one segment,
//! which stands for all segments up to its number, and those are removed.
use vstd::prelude::*;

use crate::bytes::append;
use crate::chaos::{ErrorKind, Fault};
use crate::keyring::{Keyring, Ring};
use crate::live::{item_views, Entry, Item};
use crate::recovery::{
    any_compact, compact_name, compact_number, compact_path, highest_compact_epoch,
    parse_compact_name, top_compact,
};
use crate::store::{sum_bytes, unwritten, DiskOp, Op, State, Store};
use crate::text::{chars_of, ends, starts, strip_prefix, strip_suffix};
use crate::wal::{
    by_number, by_number_is_sorted, encode_frame, encode_put, is_put_record, numbered,
    parse_segment_name, put_head, ring_of, seg_magic, segment_number, walk_wal_segments, Log, Numbered,
};
use crate::wal_laws::{log_of, log_of_push, Raw};

verus! {

broadcast use crate::bytes::group_be;

/// What a compaction did.
#[derive(Debug)]
pub struct CompactionReport {
    /// The number of the last segment that it stands for.
    pub epoch: u64,
    /// How many shards were written.
    pub records: usize,
    /// How many bytes of coefficients and payload they have.
    pub live_bytes: u64,
    /// The name of the segment's file.
    pub compact_path: String,
}

/// Whether some segment in `list` is numbered below `seq`.
pub open spec fn any_below(list: Seq<Numbered>, seq: u64) -> bool {
    exists|i: int| 0 <= i < list.len() && (#[trigger] list[i]).0 < seq
}

/// Whether there is anything to compact: more than one segment, one before the
/// active, something in the active one, or an older compacted segment.
pub open spec fn worth_compacting(names: Seq<String>, l: Log) -> bool {
    ||| numbered(names).len() > 1
    ||| any_below(by_number(numbered(names)), l.seq)
    ||| l.written > 8
    ||| any_compact(names)
}

/// Whether `list` holds a put for every item, in order.
pub open spec fn snapshot_of(ring: Option<Ring>, items: Seq<Item>, list: Seq<Raw>) -> bool {
    &&& list.len() == items.len()
    &&& forall|i: int|
        0 <= i < items.len() ==> is_put_record(
            ring,
            put_head(items[i].key.0, items[i].key.1, items[i].key.2, items[i].hash),
            items[i].shard,
            (#[trigger] list[i]).kind,
            list[i].body,
        )
}

/// Whether a file's content is a segment with a put for every item, in order.
pub open spec fn is_snapshot(ring: Option<Ring>, items: Seq<Item>, bytes: Seq<u8>) -> bool {
    exists|list: Seq<Raw>|
        #[trigger] snapshot_of(ring, items, list) && bytes == seg_magic() + log_of(list)
}

/// Whether a file is to be removed once the compacted segment numbered `epoch` is
/// there: it is a segment that this one stands for, an older compacted one, or the
/// remains of a compaction that was cut short.
pub open spec fn is_garbage(name: Seq<char>, epoch: u64) -> bool {
    ||| (segment_number(name) matches Some(n) && n <= epoch)
    ||| (compact_number(name) matches Some(n) && n < epoch)
    ||| (starts(name, "wal-"@) && ends(name, ".seg.tmp"@))
}

/// The operations that remove the garbage.
pub open spec fn garbage_ops(names: Seq<String>, epoch: u64) -> Seq<Op>
    decreases names.len(),
{
    if names.len() == 0 {
        Seq::empty()
    } else {
        let before = garbage_ops(names.drop_last(), epoch);
        if is_garbage(names.last()@, epoch) {
            before.push(Op::Remove { name: names.last()@ })
        } else {
            before
        }
    }
}

/// Whether a file is part of the log on disk.
pub open spec fn is_wal_file(name: Seq<char>) -> bool {
    starts(name, "wal-"@) && (ends(name, ".seg"@) || ends(name, ".seg.tmp"@))
}

/// A file's name and how long it is.
pub type Sized64 = (String, u64);

/// How long the files of the log are together, as far as 64 bits go.
pub open spec fn wal_bytes(files: Seq<Sized64>) -> u64
    decreases files.len(),
{
    if files.len() == 0 {
        0
    } else {
        let t = wal_bytes(files.drop_last());
        if is_wal_file(files.last().0@) {
            crate::wal::sum_up_to_max(t, files.last().1 as int)
        } else {
            t
        }
    }
}

/// Whether a file is part of the log on disk.
pub fn wal_file(name: &str) -> (r: bool)
    ensures
        r == is_wal_file(name@),
{
    let v = chars_of(name);
    strip_prefix(v.as_slice(), "wal-").is_some() && (strip_suffix(v.as_slice(), ".seg").is_some()
        || strip_suffix(v.as_slice(), ".seg.tmp").is_some())
}

/// How long the files of the log are together.
pub fn wal_disk_bytes(files: &Vec<Sized64>) -> (r: u64)
    ensures
        r == wal_bytes(files@),
{
    let mut t: u64 = 0;
    let mut i: usize = 0;
    while i < files.len()
        invariant
            0 <= i <= files@.len(),
            t == wal_bytes(files@.take(i as int)),
        decreases files@.len() - i,
    {
        assert(files@.take(i + 1).drop_last() =~= files@.take(i as int));
        assert(files@.take(i + 1).last() == files@[i as int]);
        if wal_file(files[i].0.as_str()) {
            t = t.saturating_add(files[i].1);
        }
        i += 1;
    }
    assert(files@.take(i as int) =~= files@);
    t
}

/// Whether a file is to be removed after the compaction up to `epoch`.
pub fn garbage(name: &str, epoch: u64) -> (r: bool)
    ensures
        r == is_garbage(name@, epoch),
{
    match parse_segment_name(name) {
        Some(n) => {
            if n <= epoch {
                return true;
            }
        },
        None => {},
    }
    match parse_compact_name(name) {
        Some(n) => {
            if n < epoch {
                return true;
            }
        },
        None => {},
    }
    let v = chars_of(name);
    strip_prefix(v.as_slice(), "wal-").is_some() && strip_suffix(v.as_slice(), ".seg.tmp").is_some()
}

/// The numbers of the compacted segments among some names.
pub fn has_compact(names: &Vec<String>) -> (r: bool)
    ensures
        r == any_compact(names@),
{
    let mut i: usize = 0;
    while i < names.len()
        invariant
            0 <= i <= names@.len(),
            forall|j: int| 0 <= j < i ==> compact_number((#[trigger] names@[j])@) is None,
        decreases names@.len() - i,
    {
        if parse_compact_name(names[i].as_str()).is_some() {
            assert(compact_number(names@[i as int]@) is Some);
            return true;
        }
        i += 1;
    }
    false
}

/// The content of a compacted segment.
pub fn write_compacted_segment(entries: &Vec<Entry>, keys: Option<&Keyring>) -> (r: Vec<u8>)
    requires
        keys matches Some(k) ==> k.wf(),
        crate::live::all_fit(item_views(entries@)),
    ensures
        is_snapshot(ring_of(keys), item_views(entries@), r@),
{
    let ghost items = item_views(entries@);
    let ghost ring = ring_of(keys);
    let mut out: Vec<u8> = Vec::new();
    append(&mut out, "HOLOFSW1".as_bytes());
    let ghost mut list: Seq<Raw> = Seq::empty();
    let mut i: usize = 0;
    proof {
        assert(out@ =~= seg_magic() + log_of(list));
    }
    while i < entries.len()
        invariant
            0 <= i <= entries@.len(),
            items == item_views(entries@),
            ring == ring_of(keys),
            keys matches Some(k) ==> k.wf(),
            crate::live::all_fit(items),
            snapshot_of(ring, items.take(i as int), list),
            out@ == seg_magic() + log_of(list),
        decreases entries@.len() - i,
    {
        let e = &entries[i];
        assert(items[i as int] == e@);
        assert(crate::wal::piece_fits(items[i as int].shard));
        let (kind, body) = encode_put(keys, e.key.0, e.key.1, e.key.2, &e.hash, &e.shard);
        let f = encode_frame(kind, body.as_slice());
        append(&mut out, f.as_slice());
        proof {
            let before = list;
            let raw = Raw { kind, body: body@ };
            list = list.push(raw);
            log_of_push(before, raw);
            assert(out@ =~= seg_magic() + log_of(list));
            let t = items.take(i + 1);
            assert forall|j: int| 0 <= j < t.len() implies is_put_record(
                ring,
                put_head(t[j].key.0, t[j].key.1, t[j].key.2, t[j].hash),
                t[j].shard,
                (#[trigger] list[j]).kind,
                list[j].body,
            ) by {
                if j < before.len() {
                    assert(list[j] == before[j]);
                    assert(t[j] == items.take(i as int)[j]);
                }
            }
        }
        i += 1;
    }
    assert(items.take(i as int) =~= items);
    out
}

impl State {
    /// What the first half of a compaction does, once it goes ahead: the log is synced and
    /// goes on in a new segment, and the snapshot is queued.
    pub open spec fn compacted(self, bytes: Seq<u8>) -> State {
        let epoch = self.log->0.seq;
        let moved = (State { sync_on_write: true, ..self }).synced().advanced();
        State {
            sync_on_write: self.sync_on_write,
            ops: moved.ops.push(Op::WriteCompacted { epoch, bytes }),
            ..moved
        }
    }

    /// Without the snapshot at the end of the queue.
    pub open spec fn without_snapshot(self) -> State {
        if self.ops.len() > 0 && self.ops.last() is WriteCompacted {
            State { ops: self.ops.drop_last(), ..self }
        } else {
            self
        }
    }
}

impl Store {
    /// First half of a compaction, given the names of the files in the node's directory:
    /// queues a segment that holds all shards. Gives the number of the last segment that it
    /// stands for; nothing where there is no log or nothing to compact.
    pub fn compact_start(&mut self, names: &Vec<String>) -> (r: Result<Option<u64>, Fault>)
        requires
            old(self).wf(),
            old(self)@.log matches Some(l) ==> l.seq < u64::MAX,
        ensures
            final(self).wf(),
            final(self)@.items == old(self)@.items,
            match old(self)@.log {
                None => r == Ok::<Option<u64>, Fault>(None) && final(self)@ == old(self)@,
                Some(l) => if !worth_compacting(names@, l) {
                    r == Ok::<Option<u64>, Fault>(None) && final(self)@ == old(self)@
                } else {
                    match l.sync_fault {
                        Some(k) => {
                            &&& r == Err::<Option<u64>, Fault>(Fault::Sync(k))
                            &&& final(self)@ == (State {
                                sync_on_write: old(self)@.sync_on_write,
                                ..(State { sync_on_write: true, ..old(self)@ }).synced()
                            })
                        },
                        None => {
                            &&& r == Ok::<Option<u64>, Fault>(Some(l.seq))
                            &&& exists|bytes: Seq<u8>|
                                {
                                    &&& #[trigger] is_snapshot(l.ring, old(self)@.items, bytes)
                                    &&& final(self)@ == old(self)@.compacted(bytes)
                                }
                        },
                    }
                },
            },
    {
        let ghost before = self@;
        let list = walk_wal_segments(names);
        proof {
            by_number_is_sorted(numbered(names@));
            lemma_same_len(numbered(names@));
        }
        let epoch: u64 = match self.wal() {
            None => {
                return Ok(None);
            },
            Some(wal) => {
                let epoch: u64 = wal.active_seq();
                let mut below: bool = false;
                let mut i: usize = 0;
                while i < list.len()
                    invariant
                        0 <= i <= list@.len(),
                        below == any_below(list@.take(i as int), epoch),
                    decreases list@.len() - i,
                {
                    proof {
                        let t = list@.take(i + 1);
                        let u = list@.take(i as int);
                        if any_below(u, epoch) {
                            let j = choose|j: int| 0 <= j < u.len() && (#[trigger] u[j]).0 < epoch;
                            assert(t[j].0 < epoch);
                        }
                        if any_below(t, epoch) {
                            let j = choose|j: int| 0 <= j < t.len() && (#[trigger] t[j]).0 < epoch;
                            if j < i {
                                assert(u[j].0 < epoch);
                            }
                        }
                        if list@[i as int].0 < epoch {
                            assert(t[i as int].0 < epoch);
                        }
                    }
                    if list[i].0 < epoch {
                        below = true;
                    }
                    i += 1;
                }
                assert(list@.take(i as int) =~= list@);
                let data: bool = wal.bytes_written() > 8;
                if !(list.len() > 1 || below || data || has_compact(names)) {
                    return Ok(None);
                }
                epoch
            },
        };
        let on: bool = self.sync_on_write();
        self.set_sync_on_write(true);
        let synced = self.sync_wal();
        match synced {
            Err(f) => {
                self.set_sync_on_write(on);
                return Err(f);
            },
            Ok(()) => {},
        }
        self.advance_wal();
        self.set_sync_on_write(on);
        let bytes = match self.wal() {
            Some(w) => write_compacted_segment(self.entries(), w.keys()),
            None => Vec::new(),
        };
        let ghost snap = bytes@;
        self.push_op(DiskOp::WriteCompacted { epoch, bytes });
        proof {
            assert(is_snapshot(before.log->0.ring, before.items, snap));
            assert(self@ == before.compacted(snap));
        }
        Ok(Some(epoch))
    }

    /// Second half of a compaction, given the names of the files that are now in the node's
    /// directory, and what came of the writing: where the queue has been carried out, all
    /// files are to be removed that the newest compacted segment stands for. Else the
    /// snapshot is given up, and no file is removed. Gives nothing where there is no log or
    /// no compacted segment.
    pub fn compact(&mut self, names: &Vec<String>, written: Result<(), ErrorKind>) -> (r: Result<
        Option<CompactionReport>,
        Fault,
    >)
        requires
            old(self).wf(),
        ensures
            final(self).wf(),
            final(self)@.items == old(self)@.items,
            old(self)@.log is None ==> (r matches Ok(None)) && final(self)@ == old(self)@,
            old(self)@.log is Some ==> match unwritten(old(self)@, written) {
                Some(k) => {
                    &&& r matches Err(f)
                    &&& r->Err_0 == Fault::Disk(k)
                    &&& final(self)@ == old(self)@.without_snapshot()
                },
                None => {
                    let epoch = top_compact(names@);
                    if epoch == 0 {
                        r matches Ok(None) && final(self)@ == old(self)@
                    } else {
                        &&& r matches Ok(Some(rep))
                        &&& rep_is(r->Ok_0->0, epoch, old(self)@.items)
                        &&& final(self)@ == (State {
                            ops: garbage_ops(names@, epoch),
                            ..old(self)@
                        })
                    }
                },
            },
    {
        if !self.is_persistent() {
            return Ok(None);
        }
        match self.not_written(written) {
            Some(k) => {
                self.drop_snapshot();
                return Err(Fault::Disk(k));
            },
            None => {},
        }
        let epoch: u64 = highest_compact_epoch(names);
        if epoch == 0 {
            return Ok(None);
        }
        let records: usize = self.total();
        let live_bytes: u64 = self.live_bytes_estimate();
        let ghost mid = self@;
        let mut i: usize = 0;
        assert(self@.ops =~= garbage_ops(names@.take(0), epoch));
        while i < names.len()
            invariant
                0 <= i <= names@.len(),
                self@ == (State { ops: garbage_ops(names@.take(i as int), epoch), ..mid }),
            decreases names@.len() - i,
        {
            let ghost t = names@.take(i + 1);
            assert(t.drop_last() =~= names@.take(i as int));
            assert(t.last() == names@[i as int]);
            if garbage(names[i].as_str(), epoch) {
                let name: String = names[i].clone();
                let ghost was = self@.ops;
                self.push_op(DiskOp::Remove { name });
                proof {
                    assert(self@.ops == was.push(Op::Remove { name: t.last()@ }));
                    assert(self@.ops =~= garbage_ops(t, epoch));
                }
            }
            i += 1;
        }
        assert(names@.take(i as int) =~= names@);
        Ok(Some(CompactionReport { epoch, records, live_bytes, compact_path: compact_path(epoch) }))
    }
}

/// Whether a report is that of the compaction up to `epoch` of these items.
pub open spec fn rep_is(r: CompactionReport, epoch: u64, items: Seq<Item>) -> bool {
    &&& r.epoch == epoch
    &&& r.records == items.len()
    &&& r.live_bytes == sum_bytes(items)
    &&& r.compact_path@ == compact_name(epoch)
}

proof fn lemma_same_len(s: Seq<Numbered>)
    ensures
        by_number(s).len() == s.len(),
{
    broadcast use vstd::seq_lib::group_to_multiset_ensures;

    by_number_is_sorted(s);
    assert(by_number(s).to_multiset().len() == by_number(s).len());
    assert(s.to_multiset().len() == s.len());
}

/// Why a compaction is due.
#[derive(Debug, Clone, Copy, PartialEq, Eq, Structural)]
pub enum Trigger {
    /// The last one was long enough ago.
    Interval,
    /// The log is too long for what is held.
    Ratio,
}

/// Whether the node should compact its log now: the log must have reached
/// `min_bytes`; then it is due after `interval_secs`, and before that where the log
/// is too long for what is held.
pub fn compaction_due(
    wal_bytes: u64,
    min_bytes: u64,
    elapsed_secs: u64,
    interval_secs: u64,
    ratio_hit: bool,
) -> (r: Option<Trigger>)
    ensures
        r == if wal_bytes < min_bytes {
            None::<Trigger>
        } else if elapsed_secs >= interval_secs {
            Some(Trigger::Interval)
        } else if ratio_hit {
            Some(Trigger::Ratio)
        } else {
            None
        },
{
    if wal_bytes < min_bytes {
        None
    } else if elapsed_secs >= interval_secs {
        Some(Trigger::Interval)
    } else if ratio_hit {
        Some(Trigger::Ratio)
    } else {
        None
    }
}

/// How often, in seconds, the node looks whether a compaction is due; never where
/// the interval is 0.
pub fn compaction_tick(interval_secs: u64) -> (r: Option<u64>)
    ensures
        r == if interval_secs == 0 {
            None::<u64>
        } else if interval_secs > 30 {
            Some(30u64)
        } else {
            Some(interval_secs)
        },
{
    if interval_secs == 0 {
        None
    } else if interval_secs > 30 {
        Some(30)
    } else {
        Some(interval_secs)
    }
}

} // verus!
