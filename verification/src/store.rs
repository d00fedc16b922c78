//! The shard store of a node: what it holds, its log, and what it wants done on
//! disk.
//!
//! The store itself touches no file. Every change that has to reach the disk is
//! queued as a `DiskOp`, in order. Whoever owns the store carries the queue out and
//! reports how far that went: what was not done stays in the queue, and nothing is
//! published or dropped before the queue is empty.
use vstd::prelude::*;
use vstd::string::StringExecFns;

use crate::bytes::append;
use crate::chaos::{ErrorKind, Fault};
use crate::compaction::snapshot_of;
use crate::live::{
    all_fit, among, drop_due, drop_object, due, find_slot, holds, is_slot, item_views, keep,
    lemma_keep, lemma_keep_fits, lemma_keep_no_twins, lemma_place, lemma_stored_fits,
    lemma_stored_no_twins, no_twins, not_due, place, store_entry, stored, without_object, Entry,
    Item, WriteEpoch,
};
use crate::shard_file::{shard_digest, shard_file_name, shard_hash, shard_path, Key};
use crate::text::{number, starts};
use crate::wal::{
    hash_views, hashes_body, piece_fits, put_head, seg_magic, segment, sum_up_to_max, KIND_PURGE,
    KIND_PURGE_HASHES, KIND_WIPE, Log, Piece, Shard, ShardHash, WalWriter,
};
use crate::wal_laws::Raw;

verus! {

broadcast use crate::bytes::group_be;

/// Something to be done on disk, below the node's directory.
#[derive(Debug, Clone)]
pub enum DiskOp {
    /// Append to the file of a segment, and force it to disk or not.
    Append { seq: u64, bytes: Vec<u8>, fsync: bool },
    /// Write the compacted segment of an epoch, whole, and force it to disk.
    WriteCompacted { epoch: u64, bytes: Vec<u8> },
    /// Remove the file with this name.
    Remove { name: String },
    /// Remove everything.
    RemoveAll,
}

/// Something to be done on disk, as a mathematical value.
pub enum Op {
    Append { seq: u64, bytes: Seq<u8>, fsync: bool },
    WriteCompacted { epoch: u64, bytes: Seq<u8> },
    Remove { name: Seq<char> },
    RemoveAll,
}

impl View for DiskOp {
    type V = Op;

    open spec fn view(&self) -> Op {
        match *self {
            DiskOp::Append { seq, bytes, fsync } => Op::Append { seq, bytes: bytes@, fsync },
            DiskOp::WriteCompacted { epoch, bytes } => Op::WriteCompacted { epoch, bytes: bytes@ },
            DiskOp::Remove { name } => Op::Remove { name: name@ },
            DiskOp::RemoveAll => Op::RemoveAll,
        }
    }
}

/// The operations that `v` stands for.
pub open spec fn op_views(v: Seq<DiskOp>) -> Seq<Op> {
    v.map_values(|o: DiskOp| o@)
}

/// What is left of an operation of which the first `n` bytes were written: of an append the
/// other bytes, of any other operation all.
pub open spec fn cut(op: Op, n: nat) -> Op {
    match op {
        Op::Append { seq, bytes, fsync } => Op::Append {
            seq,
            bytes: if n < bytes.len() {
                bytes.skip(n as int)
            } else {
                Seq::empty()
            },
            fsync,
        },
        _ => op,
    }
}

/// What is left of a queue of which the first `k` operations were done, and of the next one
/// the first `n` bytes.
pub open spec fn left_of(ops: Seq<Op>, k: nat, n: nat) -> Seq<Op> {
    if k < ops.len() {
        seq![cut(ops[k as int], n)] + ops.skip(k as int + 1)
    } else {
        Seq::empty()
    }
}

/// A store as a mathematical value.
pub struct State {
    /// What it holds.
    pub items: Seq<Item>,
    /// Its log; none in a store that keeps everything in memory.
    pub log: Option<Log>,
    /// How many puts have been logged since it was opened.
    pub next_seq: u64,
    /// How many of them will be on disk once the queue is carried out.
    pub flushed_seq: u64,
    /// How many of them are known to be on disk.
    pub synced_seq: u64,
    /// Whether a sync forces the log to disk.
    pub sync_on_write: bool,
    /// What has to be done on disk.
    pub ops: Seq<Op>,
}

/// The shard store of a node.
pub struct Store {
    entries: Vec<Entry>,
    wal: Option<WalWriter>,
    wal_next_seq: u64,
    wal_flushed_seq: u64,
    wal_synced_seq: u64,
    sync_on_write: bool,
    ops: Vec<DiskOp>,
}

impl View for Store {
    type V = State;

    closed spec fn view(&self) -> State {
        State {
            items: item_views(self.entries@),
            log: match self.wal {
                Some(w) => Some(w@),
                None => None,
            },
            next_seq: self.wal_next_seq,
            flushed_seq: self.wal_flushed_seq,
            synced_seq: self.wal_synced_seq,
            sync_on_write: self.sync_on_write,
            ops: op_views(self.ops@),
        }
    }
}

impl State {
    /// No shard is held twice under one key, every shard can be sealed, the ring that
    /// the log is sealed with has a current key, and no more puts are known to be on disk
    /// than were asked for.
    pub open spec fn wf(self) -> bool {
        &&& no_twins(self.items)
        &&& all_fit(self.items)
        &&& self.synced_seq <= self.flushed_seq <= self.next_seq
        &&& (self.log matches Some(l) ==> l.wf())
    }

    /// After a sync of the log: what was pending is to be appended to the segment. With
    /// that, all that was logged is asked for, unless the sync fails.
    pub open spec fn synced(self) -> State {
        match self.log {
            None => self,
            Some(l) => State {
                log: Some(
                    Log {
                        pending: Seq::empty(),
                        sync_fault: if self.sync_on_write {
                            None
                        } else {
                            l.sync_fault
                        },
                        ..l
                    },
                ),
                ops: self.ops.push(
                    Op::Append {
                        seq: l.seq,
                        bytes: l.pending,
                        fsync: self.sync_on_write && l.sync_fault is None,
                    },
                ),
                flushed_seq: if self.sync_result() is Ok {
                    self.next_seq
                } else {
                    self.flushed_seq
                },
                ..self
            },
        }
    }

    /// What a sync of the log reports.
    pub open spec fn sync_result(self) -> Result<(), Fault> {
        match self.log {
            Some(l) => match l.sync_fault {
                Some(k) => if self.sync_on_write {
                    Err(Fault::Sync(k))
                } else {
                    Ok(())
                },
                None => Ok(()),
            },
            None => Ok(()),
        }
    }

    /// After the log has gone on in a new segment.
    pub open spec fn advanced(self) -> State {
        match self.log {
            None => self,
            Some(l) => if l.seq == u64::MAX {
                self
            } else {
                State {
                    log: Some(
                        Log {
                            seq: (l.seq + 1) as u64,
                            written: 8,
                            pending: Seq::empty(),
                            ..l
                        },
                    ),
                    ops: self.ops.push(
                        Op::Append { seq: l.seq, bytes: l.pending, fsync: true },
                    ).push(
                        Op::Append { seq: (l.seq + 1) as u64, bytes: seg_magic(), fsync: false },
                    ),
                    ..self
                }
            },
        }
    }

    /// After the log has gone on in a new segment, where the active one is full.
    pub open spec fn rotated(self) -> State {
        match self.log {
            Some(l) => if l.written >= l.rotate_at {
                self.advanced()
            } else {
                self
            },
            None => self,
        }
    }

    /// With another time at which the shard was written.
    pub open spec fn touched(self, key: Key, hash: Seq<u8>, now: u64) -> State {
        let i = place(self.items, key, hash);
        State { items: self.items.update(i, Item { epoch: now, ..self.items[i] }), ..self }
    }

    /// Without the fault for the next append.
    pub open spec fn append_cleared(self) -> State {
        State {
            log: match self.log {
                Some(l) => Some(l.append_cleared()),
                None => None,
            },
            ..self
        }
    }

    /// Whether an append to the log will be refused.
    pub open spec fn append_fails(self) -> bool {
        self.log matches Some(l) && l.append_fault is Some
    }

    /// What a put does and gives, short of a sync: a shard that is held already is
    /// only marked as written now; one that the log refuses is not stored; any other
    /// is logged and stored.
    pub open spec fn put_step(self, key: Key, shard: Piece, now: u64, after: State, r: (bool, u64)) -> bool {
        let hash = shard_digest(shard);
        let item = Item { key, hash, shard, epoch: now };
        if holds(self.items, key, hash) {
            r == (false, self.next_seq) && after == self.touched(key, hash, now)
        } else if self.append_fails() {
            r == (false, self.next_seq) && after == self.append_cleared()
        } else {
            match self.log {
                None => r == (true, 0u64) && after == (State {
                    items: stored(self.items, item),
                    ..self
                }),
                Some(l) => {
                    &&& r == (true, (self.next_seq + 1) as u64)
                    &&& after.log is Some
                    &&& l.put_recorded(put_head(key.0, key.1, key.2, hash), shard, after.log->0)
                    &&& after == (State {
                        items: stored(self.items, item),
                        log: after.log,
                        next_seq: (self.next_seq + 1) as u64,
                        ..self
                    })
                },
            }
        }
    }

    /// With a record behind the log, where there is one.
    pub open spec fn logged(self, kind: u8, body: Seq<u8>) -> State {
        State {
            log: match self.log {
                Some(l) => Some(l.recorded(kind, body)),
                None => None,
            },
            ..self
        }
    }

    /// How many bytes of coefficients and payload are held, as far as 64 bits go.
    pub open spec fn live_bytes(self) -> u64 {
        sum_bytes(self.items)
    }
}

/// How many bytes of coefficients and payload the items have, as far as 64 bits go.
pub open spec fn sum_bytes(items: Seq<Item>) -> u64
    decreases items.len(),
{
    if items.len() == 0 {
        0
    } else {
        sum_up_to_max(
            sum_bytes(items.drop_last()),
            (items.last().shard.coeffs.len() + items.last().shard.payload.len()) as int,
        )
    }
}

/// The shards under a key.
pub open spec fn under(items: Seq<Item>, key: Key) -> Seq<Item> {
    keep(items, |i: Item| i.key == key)
}

/// The shards that `v` stands for.
pub open spec fn pieces(v: Seq<Shard>) -> Seq<Piece> {
    v.map_values(|s: Shard| s@)
}

impl Store {
    /// No shard is held twice under one key, every shard can be sealed, the ring that
    /// the log is sealed with has a current key, and no more puts are known to be on disk
    /// than were asked for.
    pub open spec fn wf(&self) -> bool {
        self@.wf()
    }

    /// An empty store that keeps everything in memory.
    pub fn new() -> (r: Store)
        ensures
            r.wf(),
            r@ == (State {
                items: Seq::empty(),
                log: None,
                next_seq: 0,
                flushed_seq: 0,
                synced_seq: 0,
                sync_on_write: true,
                ops: Seq::empty(),
            }),
    {
        let s = Store {
            entries: Vec::new(),
            wal: None,
            wal_next_seq: 0,
            wal_flushed_seq: 0,
            wal_synced_seq: 0,
            sync_on_write: true,
            ops: Vec::new(),
        };
        assert(s@.items =~= Seq::<Item>::empty());
        assert(s@.ops =~= Seq::<Op>::empty());
        s
    }

    /// A store with a log, and one thing to be done on disk.
    pub(crate) fn from_parts(entries: Vec<Entry>, wal: WalWriter, op: DiskOp) -> (r: Store)
        ensures
            r@ == (State {
                items: item_views(entries@),
                log: Some(wal@),
                next_seq: 0,
                flushed_seq: 0,
                synced_seq: 0,
                sync_on_write: true,
                ops: seq![op@],
            }),
    {
        let mut ops: Vec<DiskOp> = Vec::new();
        let ghost o = op@;
        ops.push(op);
        let s = Store {
            entries,
            wal: Some(wal),
            wal_next_seq: 0,
            wal_flushed_seq: 0,
            wal_synced_seq: 0,
            sync_on_write: true,
            ops,
        };
        assert(s@.ops =~= seq![o]);
        s
    }

    /// What the store holds.
    pub fn entries(&self) -> (r: &Vec<Entry>)
        ensures
            item_views(r@) == self@.items,
    {
        &self.entries
    }

    /// The log.
    pub fn wal(&self) -> (r: Option<&WalWriter>)
        ensures
            match r {
                Some(w) => self@.log == Some(w@),
                None => self@.log is None,
            },
    {
        self.wal.as_ref()
    }

    /// Queues something to be done on disk.
    pub(crate) fn push_op(&mut self, op: DiskOp)
        ensures
            final(self)@ == (State { ops: old(self)@.ops.push(op@), ..old(self)@ }),
    {
        let ghost before = self@;
        let ghost o = op@;
        self.ops.push(op);
        assert(self@.ops =~= before.ops.push(o));
    }

    /// Sets whether a sync forces the log to disk.
    pub fn set_sync_on_write(&mut self, on: bool)
        ensures
            final(self)@ == (State { sync_on_write: on, ..old(self)@ }),
    {
        self.sync_on_write = on;
    }

    /// Whether a sync forces the log to disk.
    pub fn sync_on_write(&self) -> (r: bool)
        ensures
            r == self@.sync_on_write,
    {
        self.sync_on_write
    }

    /// What has to be done on disk, in order.
    pub fn ops(&self) -> (r: &Vec<DiskOp>)
        ensures
            op_views(r@) == self@.ops,
    {
        &self.ops
    }

    /// Takes note that the first `k` operations of the queue were done, and of the next one,
    /// where it is an append, the first `n` bytes. The rest stays in the queue.
    pub fn carried_out(&mut self, k: usize, n: usize)
        ensures
            final(self)@ == (State { ops: left_of(old(self)@.ops, k as nat, n as nat), ..old(self)@ }),
    {
        let ghost before = self@;
        if k >= self.ops.len() {
            self.ops = Vec::new();
            assert(self@.ops =~= Seq::<Op>::empty());
            return;
        }
        let ghost all = self.ops@;
        let mut rest = self.ops.split_off(k);
        let ghost tail = rest@;
        assert(tail =~= all.skip(k as int));
        let first = rest.remove(0);
        let ghost whole = first@;
        assert(whole == before.ops[k as int]);
        let first = match first {
            DiskOp::Append { seq, mut bytes, fsync } => {
                let bytes: Vec<u8> = if n < bytes.len() {
                    bytes.split_off(n)
                } else {
                    Vec::new()
                };
                DiskOp::Append { seq, bytes, fsync }
            },
            op => op,
        };
        proof {
            match whole {
                Op::Append { seq, bytes, fsync } => {
                    assert(first@->Append_bytes =~= cut(whole, n as nat)->Append_bytes);
                },
                _ => {},
            }
            assert(first@ == cut(whole, n as nat));
        }
        let ghost head = first@;
        rest.insert(0, first);
        self.ops = rest;
        proof {
            assert(op_views(rest@) =~= seq![head] + before.ops.skip(k + 1));
        }
    }

    /// Whether the store keeps a log.
    pub fn is_persistent(&self) -> (r: bool)
        ensures
            r == self@.log is Some,
    {
        self.wal.is_some()
    }

    /// Makes the next append to the log fail.
    pub fn arm_append_fault(&mut self, kind: ErrorKind)
        ensures
            final(self)@ == (State {
                log: match old(self)@.log {
                    Some(l) => Some(Log { append_fault: Some(crate::chaos::carried(kind)), ..l }),
                    None => None,
                },
                ..old(self)@
            }),
    {
        let mut w: Option<WalWriter> = None;
        core::mem::swap(&mut self.wal, &mut w);
        match w {
            Some(mut wal) => {
                wal.arm_append_fault(kind);
                self.wal = Some(wal);
            },
            None => {},
        }
    }

    /// Makes the next sync of the log fail.
    pub fn arm_sync_fault(&mut self, kind: ErrorKind)
        ensures
            final(self)@ == (State {
                log: match old(self)@.log {
                    Some(l) => Some(Log { sync_fault: Some(crate::chaos::carried(kind)), ..l }),
                    None => None,
                },
                ..old(self)@
            }),
    {
        let mut w: Option<WalWriter> = None;
        core::mem::swap(&mut self.wal, &mut w);
        match w {
            Some(mut wal) => {
                wal.arm_sync_fault(kind);
                self.wal = Some(wal);
            },
            None => {},
        }
    }

    /// Syncs the log.
    pub(crate) fn sync_wal(&mut self) -> (r: Result<(), Fault>)
        ensures
            final(self)@ == old(self)@.synced(),
            r == old(self)@.sync_result(),
    {
        let ghost before = self@;
        let mut w: Option<WalWriter> = None;
        core::mem::swap(&mut self.wal, &mut w);
        match w {
            None => Ok(()),
            Some(mut wal) => {
                let bytes = crate::bytes::copy(wal.pending());
                let seq: u64 = wal.active_seq();
                let r = wal.sync(self.sync_on_write);
                self.wal = Some(wal);
                let fsync: bool = self.sync_on_write && r.is_ok();
                self.ops.push(DiskOp::Append { seq, bytes, fsync });
                if r.is_ok() {
                    self.wal_flushed_seq = self.wal_next_seq;
                }
                proof {
                    assert(self@.ops =~= before.synced().ops);
                }
                r
            },
        }
    }

    /// Goes on in a new segment.
    pub(crate) fn advance_wal(&mut self)
        ensures
            final(self)@ == old(self)@.advanced(),
    {
        let ghost before = self@;
        let mut w: Option<WalWriter> = None;
        core::mem::swap(&mut self.wal, &mut w);
        match w {
            None => {},
            Some(mut wal) => {
                let seq: u64 = wal.active_seq();
                if seq < u64::MAX {
                    let bytes = wal.rotate();
                    self.ops.push(DiskOp::Append { seq, bytes, fsync: true });
                    let magic = crate::bytes::copy(wal.pending());
                    let _r = wal.sync(false);
                    self.ops.push(DiskOp::Append { seq: seq + 1, bytes: magic, fsync: false });
                }
                self.wal = Some(wal);
                proof {
                    assert(self@.ops =~= before.advanced().ops);
                }
            },
        }
    }

    /// Goes on in a new segment where the active one is full.
    fn maybe_rotate_wal(&mut self)
        ensures
            final(self)@ == old(self)@.rotated(),
    {
        let full: bool = match &self.wal {
            Some(w) => w.is_full(),
            None => false,
        };
        if full {
            self.advance_wal();
        }
    }

    /// Stores a shard and logs it, without a sync. Gives whether the shard was
    /// stored, and the number that the log must have reached for it to be safe.
    pub fn put_appended(&mut self, k: Key, shard: Shard, now: WriteEpoch) -> (r: (bool, u64))
        requires
            old(self).wf(),
            shard.fits(),
            old(self)@.next_seq < u64::MAX,
        ensures
            final(self).wf(),
            old(self)@.put_step(k, shard@, now, final(self)@, r),
    {
        let ghost before = self@;
        let h = shard_hash(&shard);
        let ghost piece = shard@;
        let i: usize = find_slot(&self.entries, k, &h);
        proof {
            lemma_place(before.items, k, h@);
            let it = Item { key: k, hash: h@, shard: piece, epoch: now };
            lemma_stored_no_twins(before.items, it);
            lemma_stored_fits(before.items, it);
        }
        if i < self.entries.len() {
            let ghost was = self.entries@;
            self.entries[i].epoch = now;
            proof {
                assert(before.items[i as int] == was[i as int]@);
                assert(self@.items =~= before.touched(k, h@, now).items);
                assert forall|a: int| 0 <= a < self@.items.len() implies piece_fits(
                    (#[trigger] self@.items[a]).shard,
                ) by {
                    assert(piece_fits(before.items[a].shard));
                }
                assert forall|a: int, b: int| 0 <= a < b < self@.items.len() implies !is_slot(
                    #[trigger] self@.items[a],
                    (#[trigger] self@.items[b]).key,
                    self@.items[b].hash,
                ) by {
                    assert(!is_slot(before.items[a], before.items[b].key, before.items[b].hash));
                }
            }
            return (false, self.wal_next_seq);
        }
        let mut seq: u64 = 0;
        let mut w: Option<WalWriter> = None;
        core::mem::swap(&mut self.wal, &mut w);
        match w {
            Some(mut wal) => {
                let r = wal.append_put(k.0, k.1, k.2, &h, &shard);
                let refused: bool = r.is_err();
                self.wal = Some(wal);
                if refused {
                    return (false, self.wal_next_seq);
                }
                self.wal_next_seq = self.wal_next_seq + 1;
                seq = self.wal_next_seq;
            },
            None => {},
        }
        store_entry(&mut self.entries, Entry { key: k, hash: h, shard, epoch: now });
        (true, seq)
    }

    /// Stores a shard, logs it and syncs the log. Gives whether the shard was stored.
    pub fn put(&mut self, k: Key, shard: Shard, now: WriteEpoch) -> (r: bool)
        requires
            old(self).wf(),
            shard.fits(),
            old(self)@.next_seq < u64::MAX,
        ensures
            final(self).wf(),
            exists|mid: State, n: u64|
                {
                    &&& #[trigger] old(self)@.put_step(k, shard@, now, mid, (r, n))
                    &&& final(self)@ == if r {
                        mid.synced().rotated()
                    } else {
                        mid
                    }
                },
    {
        let ghost before = self@;
        let ghost piece = shard@;
        let (ok, n) = self.put_appended(k, shard, now);
        let ghost mid = self@;
        assert(before.put_step(k, piece, now, mid, (ok, n)));
        if ok {
            let _r = self.sync_wal();
            self.maybe_rotate_wal();
        }
        ok
    }

    /// First half of a flush: queues what is pending for the disk. Gives the number that
    /// the log will have reached once the queue is carried out; nothing where there is
    /// nothing new.
    pub fn flush_start(&mut self) -> (r: Result<Option<u64>, Fault>)
        requires
            old(self).wf(),
        ensures
            final(self).wf(),
            if old(self)@.log is None || old(self)@.next_seq == old(self)@.synced_seq {
                r == Ok::<Option<u64>, Fault>(None) && final(self)@ == old(self)@
            } else {
                &&& final(self)@ == old(self)@.synced()
                &&& r == match old(self)@.sync_result() {
                    Ok(()) => Ok::<Option<u64>, Fault>(Some(old(self)@.next_seq)),
                    Err(f) => Err(f),
                }
            },
    {
        if self.wal.is_none() || self.wal_next_seq == self.wal_synced_seq {
            return Ok(None);
        }
        let target: u64 = self.wal_next_seq;
        match self.sync_wal() {
            Ok(()) => Ok(Some(target)),
            Err(f) => Err(f),
        }
    }

    /// Second half of a flush, given what came of the writing: where the queue has been
    /// carried out, takes note of how far the log has come, and goes on in a new segment
    /// where the active one is full. Else nothing is published. Gives how far the log is
    /// known to have come.
    pub fn flush_and_publish(&mut self, written: Result<(), ErrorKind>) -> (r: u64)
        requires
            old(self).wf(),
        ensures
            final(self).wf(),
            final(self)@ == if written is Ok && old(self)@.ops.len() == 0
                && old(self)@.flushed_seq != old(self)@.synced_seq {
                (State { synced_seq: old(self)@.flushed_seq, ..old(self)@ }).rotated()
            } else {
                old(self)@
            },
            r == final(self)@.synced_seq,
    {
        if written.is_ok() && self.ops.len() == 0 && self.wal_flushed_seq != self.wal_synced_seq {
            self.wal_synced_seq = self.wal_flushed_seq;
            self.maybe_rotate_wal();
        }
        self.wal_synced_seq
    }

    /// Whether the put with this number is safe: it needs no log, or the log has
    /// come as far.
    pub fn is_published(&self, my_seq: u64) -> (r: bool)
        ensures
            r == (my_seq == 0 || self@.synced_seq >= my_seq),
    {
        my_seq == 0 || self.wal_synced_seq >= my_seq
    }

    /// The shards under a key.
    pub fn get(&self, k: Key) -> (r: Vec<Shard>)
        ensures
            pieces(r@) == under(self@.items, k).map_values(|i: Item| i.shard),
    {
        let mut out: Vec<Shard> = Vec::new();
        let ghost items = self@.items;
        let ghost p = |i: Item| i.key == k;
        let mut i: usize = 0;
        assert(items.skip(0) =~= items);
        assert(pieces(out@) + keep(items.skip(0), p).map_values(|i: Item| i.shard) =~= under(
            items,
            k,
        ).map_values(|i: Item| i.shard));
        while i < self.entries.len()
            invariant
                0 <= i <= self.entries@.len(),
                items == item_views(self.entries@),
                under(items, k).map_values(|i: Item| i.shard) == pieces(out@) + under(
                    items.skip(i as int),
                    k,
                ).map_values(|i: Item| i.shard),
            decreases self.entries@.len() - i,
        {
            let e = &self.entries[i];
            let ghost s = items.skip(i as int);
            let ghost before = pieces(out@);
            assert(s.drop_first() =~= items.skip(i + 1));
            assert(s[0] == e@);
            let ghost rest = under(items.skip(i + 1), k);
            if e.key.0 == k.0 && e.key.1 == k.1 && e.key.2 == k.2 {
                out.push(e.shard.copy());
                proof {
                    assert(pieces(out@) =~= before.push(e.shard@));
                    assert(under(s, k) =~= seq![s[0]] + rest);
                    assert(under(s, k).map_values(|i: Item| i.shard) =~= seq![e.shard@]
                        + rest.map_values(|i: Item| i.shard));
                    assert(before + under(s, k).map_values(|i: Item| i.shard) =~= pieces(out@)
                        + rest.map_values(|i: Item| i.shard));
                }
            } else {
                assert(under(s, k) =~= rest);
            }
            i += 1;
        }
        assert(items.skip(i as int) =~= Seq::<Item>::empty());
        assert(under(items.skip(i as int), k).map_values(|i: Item| i.shard) =~= Seq::<Piece>::empty());
        assert(pieces(out@) =~= under(items, k).map_values(|i: Item| i.shard));
        out
    }

    /// The shard with this hash under a key.
    pub fn get_by_hash(&self, k: Key, hash: &ShardHash) -> (r: Option<Shard>)
        ensures
            match r {
                Some(s) => holds(self@.items, k, hash@) && s@ == self@.items[place(
                    self@.items,
                    k,
                    hash@,
                )].shard,
                None => !holds(self@.items, k, hash@),
            },
    {
        let i: usize = find_slot(&self.entries, k, hash);
        if i < self.entries.len() {
            assert(self@.items[i as int] == self.entries@[i as int]@);
            Some(self.entries[i].shard.copy())
        } else {
            None
        }
    }

    /// When the shard with this hash under a key was written.
    pub fn epoch_of(&self, k: Key, hash: &ShardHash) -> (r: Option<WriteEpoch>)
        ensures
            match r {
                Some(e) => holds(self@.items, k, hash@) && e == self@.items[place(
                    self@.items,
                    k,
                    hash@,
                )].epoch,
                None => !holds(self@.items, k, hash@),
            },
    {
        let i: usize = find_slot(&self.entries, k, hash);
        if i < self.entries.len() {
            assert(self@.items[i as int] == self.entries@[i as int]@);
            Some(self.entries[i].epoch)
        } else {
            None
        }
    }

    /// How many shards are held.
    pub fn total(&self) -> (r: usize)
        ensures
            r == self@.items.len(),
    {
        self.entries.len()
    }

    /// The hash of every shard that is held.
    pub fn list_all_hashes(&self) -> (r: Vec<ShardHash>)
        ensures
            hash_views(r@) == self@.items.map_values(|i: Item| i.hash),
    {
        let mut out: Vec<ShardHash> = Vec::new();
        let mut i: usize = 0;
        while i < self.entries.len()
            invariant
                0 <= i <= self.entries@.len(),
                out@.len() == i,
                forall|j: int| 0 <= j < i ==> (#[trigger] out@[j]) == self.entries@[j].hash,
            decreases self.entries@.len() - i,
        {
            out.push(self.entries[i].hash);
            i += 1;
        }
        assert(hash_views(out@) =~= self@.items.map_values(|i: Item| i.hash));
        out
    }

    /// How many bytes of coefficients and payload are held.
    pub fn live_bytes_estimate(&self) -> (r: u64)
        ensures
            r == self@.live_bytes(),
    {
        let ghost items = self@.items;
        let mut t: u64 = 0;
        let mut i: usize = 0;
        while i < self.entries.len()
            invariant
                0 <= i <= self.entries@.len(),
                items == item_views(self.entries@),
                t == sum_bytes(items.take(i as int)),
            decreases self.entries@.len() - i,
        {
            let e = &self.entries[i];
            proof {
                assert(items.take(i + 1).drop_last() =~= items.take(i as int));
                assert(items.take(i + 1).last() == e@);
            }
            t = t.saturating_add(e.shard.coeffs.len() as u64).saturating_add(
                e.shard.payload.len() as u64,
            );
            i += 1;
        }
        assert(items.take(i as int) =~= items);
        t
    }
}

/// The hashes of the shards that a purge up to `max` will drop: of those that have one of
/// the target hashes and are no younger than `max`.
pub open spec fn doomed(items: Seq<Item>, targets: Seq<Seq<u8>>, max: u64) -> Seq<Seq<u8>> {
    keep(items, due(targets, max)).map_values(|i: Item| i.hash)
}

/// The condition that an item has one of the hashes but is younger than `max`.
pub open spec fn spared(hashes: Seq<Seq<u8>>, max: u64) -> spec_fn(Item) -> bool {
    |i: Item| hashes.contains(i.hash) && i.epoch > max
}

/// The operations that remove the files of shards.
pub open spec fn remove_ops(hashes: Seq<Seq<u8>>) -> Seq<Op> {
    hashes.map_values(|h: Seq<u8>| Op::Remove { name: shard_file_name(h) })
}

impl State {
    /// With another log, and a sync.
    pub open spec fn with_log_synced(self, log: Log) -> State {
        (State { log: Some(log), ..self }).synced()
    }
}

/// What the first half of dropping an object gives and does: the record is logged and
/// queued. Refused, it changes nothing but that the fault is gone; where the sync fails,
/// the record stays.
pub open spec fn object_purge_start(
    before: State,
    object_id: u64,
    after: State,
    r: Result<(), Fault>,
) -> bool {
    match before.log {
        None => r is Ok && after == before,
        Some(l) => match l.append_fault {
            Some(k) => r == Err::<(), Fault>(Fault::Append(k)) && after == before.append_cleared(),
            None => {
                &&& r == before.sync_result()
                &&& after == before.with_log_synced(
                    l.recorded(KIND_PURGE, crate::bytes::be64(object_id)),
                )
            },
        },
    }
}

/// What the second half of dropping an object gives and does: where the queue has been
/// carried out, the shards go, and the files with one shard each are to be removed. Else
/// nothing changes.
pub open spec fn object_purge_step(
    before: State,
    object_id: u64,
    written: Result<(), ErrorKind>,
    after: State,
    r: Result<usize, Fault>,
) -> bool {
    match unwritten(before, written) {
        Some(k) => r == Err::<usize, Fault>(Fault::Disk(k)) && after == before,
        None => {
            let mid = before.rotated();
            &&& r == Ok::<usize, Fault>((before.items.len() - after.items.len()) as usize)
            &&& exists|gone: Seq<Seq<u8>>|
                {
                    &&& gone.len() == before.items.len() - after.items.len()
                    &&& forall|h: Seq<u8>|
                        gone.contains(h) <==> exists|i: int|
                            0 <= i < before.items.len() && (#[trigger] before.items[i]).key.0
                                == object_id && before.items[i].hash == h
                    &&& after == (State {
                        items: without_object(before.items, object_id),
                        ops: if mid.log is Some {
                            mid.ops + #[trigger] remove_ops(gone)
                        } else {
                            mid.ops
                        },
                        ..mid
                    })
                }
        },
    }
}

/// Why a record is not taken to be on disk: the writing failed, or the queue was not
/// carried out.
pub open spec fn unwritten(s: State, written: Result<(), ErrorKind>) -> Option<ErrorKind> {
    match written {
        Err(k) => Some(k),
        Ok(()) => if s.ops.len() > 0 {
            Some(ErrorKind::Other)
        } else {
            None
        },
    }
}

/// What the first half of a purge by hashes gives and does. Nothing where no shard is due.
/// Else the hashes of those that are due are logged, and behind them, since the record
/// drops every shard with these hashes, a put for each that is younger; and all that is
/// queued. Refused, it changes nothing but that the fault is gone; where the sync fails,
/// the records stay.
pub open spec fn hash_purge_start(
    before: State,
    targets: Seq<Seq<u8>>,
    max: u64,
    after: State,
    r: Result<(), Fault>,
) -> bool {
    let hs = doomed(before.items, targets, max);
    match before.log {
        None => r is Ok && after == before,
        Some(l) => if hs.len() == 0 {
            r is Ok && after == before
        } else {
            match l.append_fault {
                Some(k) => r == Err::<(), Fault>(Fault::Append(k)) && after
                    == before.append_cleared(),
                None => {
                    &&& r == before.sync_result()
                    &&& exists|list: Seq<Raw>|
                        {
                            &&& #[trigger] snapshot_of(
                                l.ring,
                                keep(before.items, spared(hs, max)),
                                list,
                            )
                            &&& after == before.with_log_synced(
                                l.recorded(KIND_PURGE_HASHES, hashes_body(hs)).recorded_all(list),
                            )
                        }
                },
            }
        },
    }
}

/// What the second half of a purge by hashes gives and does: where no shard is due,
/// nothing; where the queue has been carried out, those that are due go, and files with
/// one of their hashes are to be removed. Else nothing changes.
pub open spec fn hash_purge_step(
    before: State,
    targets: Seq<Seq<u8>>,
    max: u64,
    written: Result<(), ErrorKind>,
    after: State,
    r: Result<usize, Fault>,
) -> bool {
    let hs = doomed(before.items, targets, max);
    if hs.len() == 0 {
        r == Ok::<usize, Fault>(0) && after == before
    } else {
        match unwritten(before, written) {
            Some(k) => r == Err::<usize, Fault>(Fault::Disk(k)) && after == before,
            None => {
                let mid = before.rotated();
                &&& r == Ok::<usize, Fault>((before.items.len() - after.items.len()) as usize)
                &&& after == (State {
                    items: keep(before.items, not_due(targets, max)),
                    ops: if mid.log is Some {
                        mid.ops + remove_ops(hs)
                    } else {
                        mid.ops
                    },
                    ..mid
                })
            },
        }
    }
}

impl Store {
    /// Why a record is not taken to be on disk.
    pub(crate) fn not_written(&self, written: Result<(), ErrorKind>) -> (r: Option<ErrorKind>)
        ensures
            r == unwritten(self@, written),
    {
        match written {
            Err(k) => Some(k),
            Ok(()) => if self.ops.len() > 0 {
                Some(ErrorKind::Other)
            } else {
                None
            },
        }
    }

    /// Gives up a snapshot at the end of the queue.
    pub(crate) fn drop_snapshot(&mut self)
        ensures
            final(self)@ == old(self)@.without_snapshot(),
    {
        let n: usize = self.ops.len();
        if n > 0 {
            let last: bool = match &self.ops[n - 1] {
                DiskOp::WriteCompacted { .. } => true,
                _ => false,
            };
            if last {
                let ghost before = self@;
                let _op = self.ops.pop();
                assert(self@.ops =~= before.ops.drop_last());
            }
        }
    }

    /// Queues the removal of the files of shards.
    fn remove_shard_files(&mut self, hashes: &[ShardHash])
        ensures
            final(self)@ == (State {
                ops: old(self)@.ops + remove_ops(hash_views(hashes@)),
                ..old(self)@
            }),
    {
        let ghost before = self@;
        let ghost hs = hash_views(hashes@);
        let mut i: usize = 0;
        assert(self@.ops =~= before.ops + remove_ops(hs.take(0)));
        while i < hashes.len()
            invariant
                0 <= i <= hashes@.len(),
                hs == hash_views(hashes@),
                self@ == (State { ops: before.ops + remove_ops(hs.take(i as int)), ..before }),
            decreases hashes@.len() - i,
        {
            let name = shard_path(&hashes[i]);
            let ghost prev = self@.ops;
            let ghost op = Op::Remove { name: name@ };
            self.ops.push(DiskOp::Remove { name });
            proof {
                assert(self@.ops =~= prev.push(op));
                assert(hs[i as int] == hashes@[i as int]@);
                assert(remove_ops(hs.take(i + 1)) =~= remove_ops(hs.take(i as int)).push(
                    Op::Remove { name: shard_file_name(hs[i as int]) },
                ));
                assert(self@.ops =~= before.ops + remove_ops(hs.take(i + 1)));
            }
            i += 1;
        }
        assert(hs.take(i as int) =~= hs);
    }

    /// First half of dropping an object: logs that, and queues it for the disk. Nothing is
    /// dropped yet.
    pub fn purge_start(&mut self, object_id: u64) -> (r: Result<(), Fault>)
        requires
            old(self).wf(),
        ensures
            final(self).wf(),
            final(self)@.items == old(self)@.items,
            object_purge_start(old(self)@, object_id, final(self)@, r),
    {
        let mut w: Option<WalWriter> = None;
        core::mem::swap(&mut self.wal, &mut w);
        match w {
            None => {
                return Ok(());
            },
            Some(mut wal) => {
                let r = wal.append_purge(object_id);
                self.wal = Some(wal);
                match r {
                    Err(f) => {
                        return Err(f);
                    },
                    Ok(()) => {},
                }
            },
        }
        self.sync_wal()
    }

    /// Drops every shard of an object, given what came of the writing of its record: where
    /// that is not on disk, nothing is dropped. Gives how many shards went.
    pub fn purge(&mut self, object_id: u64, written: Result<(), ErrorKind>) -> (r: Result<
        usize,
        Fault,
    >)
        requires
            old(self).wf(),
        ensures
            final(self).wf(),
            written is Err ==> r is Err,
            r is Err ==> final(self)@ == old(self)@,
            r is Ok ==> final(self)@.items == without_object(old(self)@.items, object_id),
            object_purge_step(old(self)@, object_id, written, final(self)@, r),
    {
        let ghost before = self@;
        match self.not_written(written) {
            Some(k) => {
                return Err(Fault::Disk(k));
            },
            None => {},
        }
        self.maybe_rotate_wal();
        proof {
            lemma_keep_no_twins(before.items, crate::live::not_of(object_id));
            lemma_keep_fits(before.items, crate::live::not_of(object_id));
        }
        let ghost all = self.entries@;
        let gone = drop_object(&mut self.entries, object_id);
        let ghost hs = hash_views(gone@);
        if self.wal.is_some() {
            self.remove_shard_files(gone.as_slice());
        }
        proof {
            assert(remove_ops(hs) == remove_ops(hs));
            assert(before.items == item_views(all));
            assert forall|h: Seq<u8>|
                hs.contains(h) <==> exists|i: int|
                    0 <= i < before.items.len() && (#[trigger] before.items[i]).key.0 == object_id
                        && before.items[i].hash == h by {
                if hs.contains(h) {
                    let i = choose|i: int|
                        0 <= i < all.len() && (#[trigger] all[i]).key.0 == object_id && all[i].hash@
                            == h;
                    assert(before.items[i] == all[i]@);
                }
                if exists|i: int|
                    0 <= i < before.items.len() && (#[trigger] before.items[i]).key.0 == object_id
                        && before.items[i].hash == h {
                    let i = choose|i: int|
                        0 <= i < before.items.len() && (#[trigger] before.items[i]).key.0
                            == object_id && before.items[i].hash == h;
                    assert(before.items[i] == all[i]@);
                    assert(all[i].key.0 == object_id);
                }
            }
        }
        Ok(gone.len())
    }

    /// The hashes that a purge up to `max_epoch` will drop.
    fn doomed_hashes(&self, targets: &[ShardHash], max_epoch: WriteEpoch) -> (r: Vec<ShardHash>)
        ensures
            hash_views(r@) == doomed(self@.items, hash_views(targets@), max_epoch),
    {
        let ghost items = self@.items;
        let ghost p = due(hash_views(targets@), max_epoch);
        let mut out: Vec<ShardHash> = Vec::new();
        let mut i: usize = 0;
        assert(items.skip(0) =~= items);
        assert(hash_views(out@) + keep(items.skip(0), p).map_values(|i: Item| i.hash) =~= doomed(
            items,
            hash_views(targets@),
            max_epoch,
        ));
        while i < self.entries.len()
            invariant
                0 <= i <= self.entries@.len(),
                items == item_views(self.entries@),
                p == due(hash_views(targets@), max_epoch),
                doomed(items, hash_views(targets@), max_epoch) == hash_views(out@) + keep(
                    items.skip(i as int),
                    p,
                ).map_values(|i: Item| i.hash),
            decreases self.entries@.len() - i,
        {
            let e = &self.entries[i];
            let ghost s = items.skip(i as int);
            let ghost before = hash_views(out@);
            let ghost rest = keep(items.skip(i + 1), p);
            assert(s.drop_first() =~= items.skip(i + 1));
            assert(s[0] == e@);
            if among(targets, &e.hash) && e.epoch <= max_epoch {
                out.push(e.hash);
                proof {
                    assert(hash_views(out@) =~= before.push(e.hash@));
                    assert(keep(s, p) =~= seq![s[0]] + rest);
                    assert(before + keep(s, p).map_values(|i: Item| i.hash) =~= hash_views(out@)
                        + rest.map_values(|i: Item| i.hash));
                }
            } else {
                assert(keep(s, p) =~= rest);
            }
            i += 1;
        }
        assert(items.skip(i as int) =~= Seq::<Item>::empty());
        assert(hash_views(out@) =~= doomed(items, hash_views(targets@), max_epoch));
        out
    }

    /// Logs a put for every shard that has one of the hashes but is younger than
    /// `max_epoch`.
    fn relog(&mut self, hashes: &[ShardHash], max_epoch: WriteEpoch)
        requires
            old(self).wf(),
            old(self)@.log is Some,
            old(self)@.log->0.append_fault is None,
        ensures
            exists|list: Seq<Raw>|
                {
                    &&& #[trigger] snapshot_of(
                        old(self)@.log->0.ring,
                        keep(old(self)@.items, spared(hash_views(hashes@), max_epoch)),
                        list,
                    )
                    &&& final(self)@ == (State {
                        log: Some(old(self)@.log->0.recorded_all(list)),
                        ..old(self)@
                    })
                },
    {
        let ghost before = self@;
        let ghost items = self@.items;
        let ghost p = spared(hash_views(hashes@), max_epoch);
        let ghost ring = self@.log->0.ring;
        let mut w: Option<WalWriter> = None;
        core::mem::swap(&mut self.wal, &mut w);
        let ghost mut list: Seq<Raw> = Seq::empty();
        let ghost mut done: Seq<Item> = Seq::empty();
        match w {
            None => {},
            Some(mut wal) => {
                let mut i: usize = 0;
                proof {
                    assert(items.skip(0) =~= items);
                    assert(done + keep(items.skip(0), p) =~= keep(items, p));
                }
                while i < self.entries.len()
                    invariant
                        0 <= i <= self.entries@.len(),
                        items == item_views(self.entries@),
                        all_fit(items),
                        p == spared(hash_views(hashes@), max_epoch),
                        wal.wf(),
                        wal@.append_fault is None,
                        wal@.ring == ring,
                        before.log is Some,
                        wal@ == before.log->0.recorded_all(list),
                        snapshot_of(ring, done, list),
                        keep(items, p) == done + keep(items.skip(i as int), p),
                    decreases self.entries@.len() - i,
                {
                    let e = &self.entries[i];
                    let ghost s = items.skip(i as int);
                    let ghost rest = keep(items.skip(i + 1), p);
                    assert(s.drop_first() =~= items.skip(i + 1));
                    assert(s[0] == e@);
                    assert(items[i as int] == e@);
                    if among(hashes, &e.hash) && e.epoch > max_epoch {
                        assert(piece_fits(items[i as int].shard));
                        let ghost was = wal@;
                        let _r = wal.append_put(e.key.0, e.key.1, e.key.2, &e.hash, &e.shard);
                        proof {
                            let head = put_head(e.key.0, e.key.1, e.key.2, e.hash@);
                            let (kind, body) = choose|kind: u8, body: Seq<u8>|
                                {
                                    &&& crate::wal::is_put_record(was.ring, head, e.shard@, kind, body)
                                    &&& wal@ == #[trigger] was.recorded(kind, body)
                                };
                            let raw = Raw { kind, body };
                            let l0 = list;
                            let d0 = done;
                            list = list.push(raw);
                            done = done.push(e@);
                            assert(list.drop_last() =~= l0);
                            assert(snapshot_of(ring, done, list)) by {
                                assert forall|j: int| 0 <= j < done.len() implies crate::wal::is_put_record(
                                    ring,
                                    put_head(done[j].key.0, done[j].key.1, done[j].key.2, done[j].hash),
                                    done[j].shard,
                                    (#[trigger] list[j]).kind,
                                    list[j].body,
                                ) by {
                                    if j < d0.len() {
                                        assert(list[j] == l0[j]);
                                        assert(done[j] == d0[j]);
                                    }
                                }
                            }
                            assert(keep(s, p) =~= seq![s[0]] + rest);
                            assert(d0 + keep(s, p) =~= done + rest);
                        }
                    } else {
                        assert(keep(s, p) =~= rest);
                    }
                    i += 1;
                }
                proof {
                    assert(items.skip(i as int) =~= Seq::<Item>::empty());
                    assert(done + keep(items.skip(i as int), p) =~= done);
                }
                self.wal = Some(wal);
            },
        }
        assert(snapshot_of(ring, keep(items, p), list));
    }

    /// First half of dropping the shards that have one of the hashes and were not written
    /// after `max_epoch`: logs that, and queues it for the disk. Nothing is dropped yet.
    pub fn purge_by_hashes_start(&mut self, targets: &[ShardHash], max_epoch: WriteEpoch) -> (r: Result<
        (),
        Fault,
    >)
        requires
            old(self).wf(),
        ensures
            final(self).wf(),
            final(self)@.items == old(self)@.items,
            hash_purge_start(old(self)@, hash_views(targets@), max_epoch, final(self)@, r),
    {
        let ghost before = self@;
        let gone = self.doomed_hashes(targets, max_epoch);
        let ghost hs = hash_views(gone@);
        if gone.len() == 0 {
            assert(hs.len() == 0);
            return Ok(());
        }
        assert(hs.len() > 0);
        let mut w: Option<WalWriter> = None;
        core::mem::swap(&mut self.wal, &mut w);
        match w {
            None => {
                return Ok(());
            },
            Some(mut wal) => {
                let r = wal.append_purge_hashes(gone.as_slice());
                self.wal = Some(wal);
                match r {
                    Err(f) => {
                        return Err(f);
                    },
                    Ok(()) => {},
                }
            },
        }
        let ghost l = before.log->0;
        let ghost mid = self@;
        self.relog(gone.as_slice(), max_epoch);
        proof {
            let list = choose|list: Seq<Raw>|
                {
                    &&& #[trigger] snapshot_of(
                        mid.log->0.ring,
                        keep(mid.items, spared(hs, max_epoch)),
                        list,
                    )
                    &&& self@ == (State { log: Some(mid.log->0.recorded_all(list)), ..mid })
                };
            crate::wal::lemma_recorded_all(mid.log->0, list);
            assert(snapshot_of(l.ring, keep(before.items, spared(hs, max_epoch)), list));
        }
        self.sync_wal()
    }

    /// Drops the shards that have one of the hashes. See `purge_by_hashes_up_to`.
    pub fn purge_by_hashes(&mut self, targets: &[ShardHash], written: Result<(), ErrorKind>) -> (r: Result<
        usize,
        Fault,
    >)
        requires
            old(self).wf(),
        ensures
            final(self).wf(),
            r is Err ==> final(self)@ == old(self)@,
            r is Ok ==> final(self)@.items == keep(
                old(self)@.items,
                not_due(hash_views(targets@), u64::MAX),
            ),
            hash_purge_step(old(self)@, hash_views(targets@), u64::MAX, written, final(self)@, r),
    {
        self.purge_by_hashes_up_to(targets, u64::MAX, written)
    }

    /// Drops the shards that have one of the hashes and were not written after
    /// `max_epoch`, each judged on its own, given what came of the writing of the record:
    /// where that is not on disk, nothing is dropped. Gives how many shards went.
    pub fn purge_by_hashes_up_to(
        &mut self,
        targets: &[ShardHash],
        max_epoch: WriteEpoch,
        written: Result<(), ErrorKind>,
    ) -> (r: Result<usize, Fault>)
        requires
            old(self).wf(),
        ensures
            final(self).wf(),
            r is Err ==> final(self)@ == old(self)@,
            r is Ok ==> final(self)@.items == keep(
                old(self)@.items,
                not_due(hash_views(targets@), max_epoch),
            ),
            hash_purge_step(old(self)@, hash_views(targets@), max_epoch, written, final(self)@, r),
    {
        let ghost before = self@;
        let ghost ts = hash_views(targets@);
        let gone = self.doomed_hashes(targets, max_epoch);
        let ghost hs = hash_views(gone@);
        if gone.len() == 0 {
            proof {
                assert(keep(before.items, due(ts, max_epoch)).len() == hs.len());
                crate::live::lemma_none_due(before.items, ts, max_epoch);
            }
            return Ok(0);
        }
        assert(hs.len() > 0);
        match self.not_written(written) {
            Some(k) => {
                return Err(Fault::Disk(k));
            },
            None => {},
        }
        self.maybe_rotate_wal();
        proof {
            lemma_keep_no_twins(before.items, not_due(ts, max_epoch));
            lemma_keep(before.items, not_due(ts, max_epoch));
            lemma_keep_fits(before.items, not_due(ts, max_epoch));
        }
        let n: usize = self.entries.len();
        drop_due(&mut self.entries, targets, max_epoch);
        let removed: usize = n - self.entries.len();
        if self.wal.is_some() {
            self.remove_shard_files(gone.as_slice());
        }
        Ok(removed)
    }

    /// Drops everything, on disk too, and starts a new log with the record of that. What
    /// came of it is told to `wipe_finish`.
    pub fn wipe(&mut self)
        requires
            old(self).wf(),
        ensures
            final(self).wf(),
            final(self)@ == old(self)@.wiped(),
    {
        let ghost before = self@;
        self.entries.clear();
        assert(self@.items =~= Seq::<Item>::empty());
        let mut w: Option<WalWriter> = None;
        core::mem::swap(&mut self.wal, &mut w);
        match w {
            None => {},
            Some(mut wal) => {
                self.ops.push(DiskOp::RemoveAll);
                wal.restart();
                let _r = wal.append_wipe();
                self.wal = Some(wal);
                proof {
                    assert(self@.ops =~= before.ops.push(Op::RemoveAll));
                }
                let _r = self.sync_wal();
            },
        }
    }

    /// Takes note of whether the file of the new log could be opened: where it could not,
    /// the store goes on without a log.
    pub fn wipe_finish(&mut self, opened: Result<(), ErrorKind>)
        requires
            old(self).wf(),
        ensures
            final(self).wf(),
            final(self)@ == match opened {
                Ok(()) => old(self)@,
                Err(_) => (State { log: None, ops: Seq::empty(), ..old(self)@ }),
            },
    {
        if opened.is_err() {
            self.wal = None;
            self.ops = Vec::new();
            assert(self@.ops =~= Seq::<Op>::empty());
        }
    }

    /// Stores a shard without logging it.
    pub fn inject_corrupt(&mut self, k: Key, shard: Shard, now: WriteEpoch)
        requires
            old(self).wf(),
            shard.fits(),
        ensures
            final(self).wf(),
            final(self)@ == (State {
                items: stored(
                    old(self)@.items,
                    Item { key: k, hash: shard_digest(shard@), shard: shard@, epoch: now },
                ),
                ..old(self)@
            }),
    {
        let h = shard_hash(&shard);
        proof {
            let it = Item { key: k, hash: h@, shard: shard@, epoch: now };
            lemma_stored_no_twins(self@.items, it);
            lemma_stored_fits(self@.items, it);
        }
        store_entry(&mut self.entries, Entry { key: k, hash: h, shard, epoch: now });
    }
}

impl State {
    /// After everything was dropped.
    pub open spec fn wiped(self) -> State {
        match self.log {
            None => State { items: Seq::empty(), ..self },
            Some(l) => {
                let fresh = Log { seq: 1, written: 8, pending: seg_magic(), ..l };
                (State {
                    items: Seq::empty(),
                    log: Some(
                        if l.append_fault is Some {
                            fresh.append_cleared()
                        } else {
                            fresh.recorded(KIND_WIPE, Seq::empty())
                        },
                    ),
                    ops: self.ops.push(Op::RemoveAll),
                    ..self
                }).synced()
            },
        }
    }
}

} // verus!
