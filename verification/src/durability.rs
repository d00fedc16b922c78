//! What a store promises over restarts: once what it asks of the disk is done, its directory holds
//! its whole history. A directory may also hold files with one shard each, as older nodes wrote
//! them; the history begins with these.
use vstd::prelude::*;

use crate::chaos::Fault;
use crate::compaction::{garbage_ops, is_garbage, snapshot_of};
use crate::held::{
    effect, effects, held, lemma_effects_push, lemma_held_bare, lemma_held_empty, lemma_held_stored,
    lemma_kept_slot,
    less_hashes, less_object, part_of, purged_hashes_leave_no_trace, purged_object_leaves_no_trace,
    records_have_their_effects, Held, Slot,
};
use crate::hex::{hex, hex_round_trip};
use crate::keyring::{Dek, Ring};
use crate::live::{
    due, keep, lemma_keep, lemma_keep_no_twins, no_twins, not_due, without_object, Item,
};
use crate::recovery::{compact_name, compact_names_round_trip, compact_number};
use crate::shard_file::{is_shard_name, parse_shard_file, shard_digest, shard_file_name, Key};
use crate::store::{
    cut, doomed, hash_purge_start, hash_purge_step, left_of, object_purge_start, object_purge_step,
    remove_ops, spared, Op, State,
};
use crate::store_laws::{
    accounts_for, bare, deks_of, file_holds, joined_records, lemma_put_record, purge_is_logged,
    put_is_logged, put_that_is_not_stored_changes_no_shard, ring_reads_itself,
    short_enough, wipe_is_logged,
};
use crate::text::after_last;
use crate::wal::{
    frame, hashes_body, next_frame, numbered, parse_body, seg_magic, segment_name,
    segment_names_round_trip, segment_number, KIND_PURGE, KIND_PURGE_HASHES, KIND_WIPE, Log, Next,
    Piece, Rec, WalError,
};
use crate::wal_laws::{log_of, log_of_push, meaning, sound, Raw};

verus! {

/// The files in a node's directory: what each name stands for.
pub type Dir = Map<Seq<char>, Seq<u8>>;

/// What a file holds; nothing where there is none.
pub open spec fn content(d: Dir, name: Seq<char>) -> Seq<u8> {
    if d.dom().contains(name) {
        d[name]
    } else {
        Seq::empty()
    }
}

/// The directory after something was done to it.
pub open spec fn done(d: Dir, op: Op) -> Dir {
    match op {
        Op::Append { seq, bytes, fsync } => d.insert(
            segment_name(seq),
            content(d, segment_name(seq)) + bytes,
        ),
        Op::WriteCompacted { epoch, bytes } => d.insert(compact_name(epoch), bytes),
        Op::Remove { name } => d.remove(name),
        Op::RemoveAll => Map::empty(),
    }
}

/// The directory after several things were done to it, in order.
pub open spec fn done_all(d: Dir, ops: Seq<Op>) -> Dir
    decreases ops.len(),
{
    if ops.len() == 0 {
        d
    } else {
        done(done_all(d, ops.drop_last()), ops.last())
    }
}

/// How a store came to hold what it holds: a compacted segment, and the segments behind it.
pub struct History {
    /// The number of the compacted segment; 0 where there is none.
    pub n: u64,
    /// What the store held when that was written, and its records.
    pub base: Seq<Item>,
    pub snap: Seq<Raw>,
    /// What was held before the first record: what was in the compacted segment, or in files with
    /// one shard each where there is none.
    pub start: Held,
    /// The number of the first segment behind it, and the records of each segment from there on.
    pub first: u64,
    pub raws: Seq<Seq<Raw>>,
}

impl History {
    /// With one more record in the last segment.
    pub open spec fn with(self, raw: Raw) -> History {
        History {
            raws: self.raws.drop_last().push(self.raws.last().push(raw)),
            ..self
        }
    }

    /// With a new segment.
    pub open spec fn going_on(self) -> History {
        History { raws: self.raws.push(Seq::empty()), ..self }
    }

    /// The records, as they are read.
    pub open spec fn recs(self, keys: Option<Seq<Dek>>) -> Seq<Rec> {
        meaning(joined_records(self.raws), keys)
    }

    /// What is held at the end.
    pub open spec fn told(self, keys: Option<Seq<Dek>>) -> Held {
        effects(self.start, self.recs(keys))
    }
}

/// Whether every file with one shard that can be read has the name that its shard gives it.
pub open spec fn named_right(d: Dir, keys: Option<Seq<Dek>>) -> bool {
    forall|name: Seq<char>|
        #[trigger]
        d.dom().contains(name) && is_shard_name(name) ==> (parse_shard_file(d[name], keys) matches Ok(
            x,
        ) ==> name == shard_file_name(shard_digest(x.1)))
}

/// Whether a file of the directory holds the shard of a slot.
pub open spec fn is_old(d: Dir, keys: Option<Seq<Dek>>, s: Slot) -> bool {
    let name = shard_file_name(s.1);
    &&& d.dom().contains(name)
    &&& is_shard_name(name)
    &&& parse_shard_file(d[name], keys) matches Ok(x) && x.0 == s.0 && shard_digest(x.1) == s.1
}

/// What is held in files with one shard each.
pub open spec fn old_shards(d: Dir, keys: Option<Seq<Dek>>) -> Held {
    Map::new(
        |s: Slot| is_old(d, keys, s),
        |s: Slot| parse_shard_file(d[shard_file_name(s.1)], keys)->Ok_0.1,
    )
}

/// Whether reading the log over the files with one shard each gives the same as over what they
/// were once.
#[verifier::opaque]
pub open spec fn reads_over(d: Dir, h: History, keys: Option<Seq<Dek>>) -> bool {
    &&& named_right(d, keys)
    &&& if h.n == 0 {
        effects(old_shards(d, keys), h.recs(keys)) == h.told(keys)
    } else {
        part_of(old_shards(d, keys), h.start)
    }
}

/// Whether the files with one shard each agree with a history: reading the log over them gives the
/// same as over what they were once, and they hold nothing that is not held any more.
#[verifier::opaque]
pub open spec fn agrees(d: Dir, h: History, keys: Option<Seq<Dek>>) -> bool {
    &&& reads_over(d, h, keys)
    &&& part_of(old_shards(d, keys), h.told(keys))
}

/// Whether the directory holds no segment but those numbered from `first` to `last` under their
/// own names, those that the compacted segment `n` stands for, and no newer compacted segment.
pub open spec fn tidy(d: Dir, n: u64, first: int, last: int) -> bool {
    &&& forall|name: Seq<char>|
        #[trigger]
        d.dom().contains(name) ==> (segment_number(name) matches Some(k) ==> k <= n || (first <= k
            <= last && name == segment_name(k as u64)))
    &&& forall|name: Seq<char>|
        #[trigger]
        d.dom().contains(name) ==> (compact_number(name) matches Some(k) ==> k < n || (k == n && name
            == compact_name(n)))
}

/// Whether the compacted segment of a history is in the directory.
pub open spec fn has_base(d: Dir, h: History, ring: Option<Ring>) -> bool {
    h.n > 0 ==> {
        &&& h.start == held(h.base)
        &&& d.dom().contains(compact_name(h.n))
        &&& d[compact_name(h.n)] == seg_magic() + log_of(h.snap)
        &&& snapshot_of(ring, h.base, h.snap)
        &&& crate::live::no_twins(h.base)
        &&& forall|i: int|
            0 <= i < h.base.len() ==> (#[trigger] h.base[i]).hash.len() == 32 && short_enough(
                h.base[i].shard,
            )
    }
}

/// Whether the first `m` segments of a history are in the directory, each up to a tail that begins
/// no whole record.
pub open spec fn has_segments(d: Dir, h: History, m: int, keys: Option<Seq<Dek>>) -> bool {
    forall|i: int|
        0 <= i < m ==> {
            &&& d.dom().contains(#[trigger] segment_name((h.first + i) as u64))
            &&& file_holds(d[segment_name((h.first + i) as u64)], h.raws[i], keys)
        }
}

/// Whether a directory holds a history.
pub open spec fn keeps(d: Dir, h: History, ring: Option<Ring>) -> bool {
    &&& readable(d, h, ring)
    &&& agrees(d, h, deks_of(ring))
}

/// Whether a history can be read from a directory. There may still be files with one shard each
/// that a crash kept from being removed.
pub open spec fn readable(d: Dir, h: History, ring: Option<Ring>) -> bool {
    &&& ring_reads_itself(ring)
    &&& h.n < h.first
    &&& h.raws.len() == 0 ==> h.first == h.n + 1
    &&& h.first + h.raws.len() <= u64::MAX
    &&& tidy(d, h.n, h.first as int, h.first + h.raws.len() - 1)
    &&& has_base(d, h, ring)
    &&& has_segments(d, h, h.raws.len() as int, deks_of(ring))
    &&& sound(joined_records(h.raws), deks_of(ring))
    &&& reads_over(d, h, deks_of(ring))
}

/// Whether the log of a store and the segments of its directory make up a history, once what the
/// store asks of the disk is done and what is pending is appended.
pub open spec fn logged_on(s: State, d: Dir, h: History) -> bool {
    let e = done_all(d, s.ops);
    &&& s.log matches Some(l) && {
        let last = h.raws.len() - 1;
        &&& ring_reads_itself(l.ring)
        &&& h.raws.len() > 0
        &&& h.n < h.first
        &&& h.first + last == l.seq
        &&& tidy(e, h.n, h.first as int, l.seq as int)
        &&& has_base(e, h, l.ring)
        &&& has_segments(e, h, last, deks_of(l.ring))
        &&& sound(h.raws.last(), deks_of(l.ring))
        &&& content(e, segment_name(l.seq)) + l.pending == seg_magic() + log_of(h.raws.last())
        &&& sound(joined_records(h.raws), deks_of(l.ring))
        &&& held(s.items) == h.told(deks_of(l.ring))
    }
}

/// Whether a store and its directory agree on a history: the log makes it up, it accounts for the
/// shards that the store holds, and files with one shard each do not contradict it.
pub open spec fn faithful(s: State, d: Dir, h: History) -> bool {
    &&& logged_on(s, d, h)
    &&& agrees(done_all(d, s.ops), h, deks_of(s.log->0.ring))
}

pub proof fn lemma_done_push(d: Dir, ops: Seq<Op>, op: Op)
    ensures
        done_all(d, ops.push(op)) == done(done_all(d, ops), op),
{
    assert(ops.push(op).drop_last() =~= ops);
}

pub proof fn lemma_names_differ(a: u64, b: u64)
    requires
        a != b,
    ensures
        segment_name(a) != segment_name(b),
{
    segment_names_round_trip(a);
    segment_names_round_trip(b);
}

proof fn lemma_joined_push_record(raws: Seq<Seq<Raw>>, raw: Raw)
    requires
        raws.len() > 0,
    ensures
        joined_records(raws.drop_last().push(raws.last().push(raw))) == joined_records(raws).push(raw),
    decreases raws.len(),
{
    let more = raws.drop_last().push(raws.last().push(raw));
    if raws.len() == 1 {
        assert(more.drop_first() =~= Seq::<Seq<Raw>>::empty());
        assert(raws.drop_first() =~= Seq::<Seq<Raw>>::empty());
        assert(joined_records(Seq::<Seq<Raw>>::empty()) =~= Seq::<Raw>::empty());
        assert(joined_records(more) =~= more[0] + Seq::<Raw>::empty());
        assert(joined_records(raws) =~= raws[0] + Seq::<Raw>::empty());
        assert(joined_records(more) =~= joined_records(raws).push(raw));
    } else {
        let t = raws.drop_first();
        lemma_joined_push_record(t, raw);
        assert(more.drop_first() =~= t.drop_last().push(t.last().push(raw)));
        assert(joined_records(more) =~= joined_records(raws).push(raw));
    }
}

pub proof fn lemma_joined_push_segment(raws: Seq<Seq<Raw>>)
    ensures
        joined_records(raws.push(Seq::empty())) == joined_records(raws),
    decreases raws.len(),
{
    let more = raws.push(Seq::empty());
    if raws.len() == 0 {
        assert(more.drop_first() =~= Seq::<Seq<Raw>>::empty());
        assert(joined_records(Seq::<Seq<Raw>>::empty()) =~= Seq::<Raw>::empty());
        assert(joined_records(more) =~= more[0] + Seq::<Raw>::empty());
        assert(joined_records(more) =~= joined_records(raws));
    } else {
        lemma_joined_push_segment(raws.drop_first());
        assert(more.drop_first() =~= raws.drop_first().push(Seq::empty()));
        assert(joined_records(more) =~= joined_records(raws));
    }
}

/// Appending to the active segment disturbs nothing else.
pub proof fn lemma_append_active(e: Dir, h: History, ring: Option<Ring>, seq: u64, bytes: Seq<u8>)
    requires
        h.raws.len() > 0,
        h.first + h.raws.len() - 1 == seq,
        tidy(e, h.n, h.first as int, seq as int),
        has_base(e, h, ring),
        has_segments(e, h, h.raws.len() - 1, deks_of(ring)),
        h.n < h.first,
    ensures
        ({
            let f = e.insert(segment_name(seq), content(e, segment_name(seq)) + bytes);
            &&& tidy(f, h.n, h.first as int, seq as int)
            &&& has_base(f, h, ring)
            &&& has_segments(f, h, h.raws.len() - 1, deks_of(ring))
            &&& content(f, segment_name(seq)) == content(e, segment_name(seq)) + bytes
        }),
{
    let f = e.insert(segment_name(seq), content(e, segment_name(seq)) + bytes);
    segment_names_round_trip(seq);
    compact_names_round_trip(h.n);
    lemma_segment_is_no_compact(seq);
    assert forall|name: Seq<char>| #[trigger] f.dom().contains(name) implies (segment_number(
        name,
    ) matches Some(k) ==> k <= h.n || (h.first <= k <= seq && name == segment_name(k as u64))) by {
        if name != segment_name(seq) {
            assert(e.dom().contains(name));
        }
    }
    assert forall|name: Seq<char>| #[trigger] f.dom().contains(name) implies (compact_number(
        name,
    ) matches Some(k) ==> k < h.n || (k == h.n && name == compact_name(h.n))) by {
        if name != segment_name(seq) {
            assert(e.dom().contains(name));
        }
    }
    assert forall|i: int| 0 <= i < h.raws.len() - 1 implies {
        &&& f.dom().contains(#[trigger] segment_name((h.first + i) as u64))
        &&& file_holds(f[segment_name((h.first + i) as u64)], h.raws[i], deks_of(ring))
    } by {
        lemma_names_differ((h.first + i) as u64, seq);
        assert(e.dom().contains(segment_name((h.first + i) as u64)));
    }
}

/// The name of a segment is not taken for that of a compacted one.
proof fn lemma_segment_is_no_compact(seq: u64)
    ensures
        compact_number(segment_name(seq)) is None,
{
    reveal_strlit(".seg");
    reveal_strlit("wal-");
    reveal_strlit("wal-c");
    segment_names_round_trip(seq);
    let n = segment_name(seq);
    let stem = n.take(n.len() - 4);
    let d = crate::text::pad_left(crate::text::dec(seq as nat), 8, '0');
    assert(stem =~= "wal-"@ + d);
    if crate::text::starts(stem, "wal-c"@) {
        assert(stem.take(5)[4] == 'c');
        assert(stem[4] == 'c');
        assert(stem.skip(4)[0] == 'c');
        assert(!crate::text::is_digit(crate::text::unsigned_part(stem.skip(4))[0]));
    }
}

/// The name of a shard's file is that of no segment.
proof fn lemma_shard_is_no_segment(hash: Seq<u8>)
    ensures
        segment_number(shard_file_name(hash)) is None,
        compact_number(shard_file_name(hash)) is None,
{
    reveal_strlit(".seg");
    reveal_strlit(".shard");
    let n = shard_file_name(hash);
    assert(n.last() == 'd');
    if crate::text::ends(n, ".seg"@) {
        assert(n.skip(n.len() - 4)[3] == 'g');
        assert(n[n.len() - 1] == 'g');
    }
}

/// A name that ends like that of a shard's file is no segment's and no garbage.
proof fn lemma_shard_name_ends(name: Seq<char>)
    requires
        is_shard_name(name),
    ensures
        name.len() > 0,
        name.last() == 'd',
{
    reveal_strlit(".shard");
    let base = after_last(name, '/');
    crate::text::lemma_rfind(name, '/');
    assert(base.skip(base.len() - 6)[5] == 'd');
    assert(base[base.len() - 1] == 'd');
    assert(name[name.len() - 1] == base[base.len() - 1]);
}

/// The names of segments are no names of shards' files.
pub proof fn lemma_segment_is_no_shard(name: Seq<char>)
    requires
        segment_number(name) is Some || compact_number(name) is Some,
    ensures
        !is_shard_name(name),
{
    reveal_strlit(".seg");
    if is_shard_name(name) {
        lemma_shard_name_ends(name);
        assert(name.skip(name.len() - 4)[3] == 'g');
        assert(name[name.len() - 1] == 'g');
    }
}

/// Garbage is no shard's file.
proof fn lemma_garbage_is_no_shard(name: Seq<char>, epoch: u64)
    requires
        is_garbage(name, epoch),
    ensures
        !is_shard_name(name),
{
    reveal_strlit(".seg.tmp");
    if segment_number(name) is Some || compact_number(name) is Some {
        lemma_segment_is_no_shard(name);
    } else if is_shard_name(name) {
        lemma_shard_name_ends(name);
        assert(name.skip(name.len() - 8)[7] == 'p');
        assert(name[name.len() - 1] == 'p');
    }
}

/// Whether two directories have the same files with one shard each.
pub open spec fn same_old(d: Dir, e: Dir) -> bool {
    forall|name: Seq<char>|
        is_shard_name(name) ==> #[trigger] d.dom().contains(name) == e.dom().contains(name) && (
        d.dom().contains(name) ==> d[name] == e[name])
}

pub proof fn lemma_same_old(d: Dir, e: Dir, keys: Option<Seq<Dek>>)
    requires
        same_old(d, e),
    ensures
        old_shards(d, keys) == old_shards(e, keys),
        named_right(d, keys) == named_right(e, keys),
{
    let a = old_shards(d, keys);
    let b = old_shards(e, keys);
    assert forall|s: Slot| #[trigger] a.dom().contains(s) <==> b.dom().contains(s) by {
        let name = shard_file_name(s.1);
        assert(is_shard_name(name) ==> d.dom().contains(name) == e.dom().contains(name));
    }
    assert forall|s: Slot| #[trigger] a.dom().contains(s) implies a[s] == b[s] by {
        let name = shard_file_name(s.1);
        assert(is_shard_name(name) ==> d.dom().contains(name) == e.dom().contains(name));
    }
    assert(a =~= b);
    assert(named_right(d, keys) == named_right(e, keys)) by {
        if named_right(d, keys) {
            assert forall|name: Seq<char>| #[trigger] e.dom().contains(name) && is_shard_name(name) implies (
            parse_shard_file(e[name], keys) matches Ok(x) ==> name == shard_file_name(shard_digest(x.1))) by {
                assert(d.dom().contains(name));
            }
        }
        if named_right(e, keys) {
            assert forall|name: Seq<char>| #[trigger] d.dom().contains(name) && is_shard_name(name) implies (
            parse_shard_file(d[name], keys) matches Ok(x) ==> name == shard_file_name(shard_digest(x.1))) by {
                assert(e.dom().contains(name));
            }
        }
    }
}

/// Files with one shard each that are the same agree with the same histories.
pub proof fn lemma_agrees(d: Dir, e: Dir, h: History, g: History, keys: Option<Seq<Dek>>)
    requires
        agrees(e, h, keys),
        same_old(d, e),
        g.n == h.n,
        g.start == h.start,
        g.recs(keys) == h.recs(keys),
    ensures
        agrees(d, g, keys),
{
    reveal(agrees);
    reveal(reads_over);
    lemma_same_old(d, e, keys);
}

/// Writing to a segment leaves the files with one shard each alone.
pub proof fn lemma_append_old(e: Dir, seq: u64, bytes: Seq<u8>)
    ensures
        same_old(e.insert(segment_name(seq), bytes), e),
{
    segment_names_round_trip(seq);
    lemma_segment_is_no_shard(segment_name(seq));
}

/// A sync of the log keeps the history.
pub proof fn sync_keeps_the_history(s: State, d: Dir, h: History)
    requires
        faithful(s, d, h),
    ensures
        faithful(s.synced(), d, h),
{
    lemma_sync_logged(s, d, h);
    let l = s.log->0;
    let e = done_all(d, s.ops);
    let t = s.synced();
    lemma_done_push(d, s.ops, t.ops.last());
    assert(t.ops =~= s.ops.push(t.ops.last()));
    lemma_append_old(e, l.seq, content(e, segment_name(l.seq)) + l.pending);
    lemma_agrees(done_all(d, t.ops), e, h, h, deks_of(l.ring));
}

/// A sync of the log keeps what the log makes up.
pub proof fn lemma_sync_logged(s: State, d: Dir, h: History)
    requires
        logged_on(s, d, h),
    ensures
        logged_on(s.synced(), d, h),
        same_old(done_all(d, s.synced().ops), done_all(d, s.ops)),
{
    let l = s.log->0;
    let e = done_all(d, s.ops);
    let t = s.synced();
    lemma_done_push(d, s.ops, t.ops.last());
    assert(t.ops =~= s.ops.push(t.ops.last()));
    lemma_append_active(e, h, l.ring, l.seq, l.pending);
    lemma_append_old(e, l.seq, content(e, segment_name(l.seq)) + l.pending);
    assert(content(done_all(d, t.ops), segment_name(l.seq)) + t.log->0.pending =~= content(
        e,
        segment_name(l.seq),
    ) + l.pending);
}

/// Going on in a new segment keeps the history.
pub proof fn rotation_keeps_the_history(s: State, d: Dir, h: History)
    requires
        faithful(s, d, h),
        s.log->0.seq < u64::MAX,
    ensures
        faithful(s.advanced(), d, h.going_on()),
{
    lemma_rotation_logged(s, d, h);
    lemma_joined_push_segment(h.raws);
    lemma_agrees(
        done_all(d, s.advanced().ops),
        done_all(d, s.ops),
        h,
        h.going_on(),
        deks_of(s.log->0.ring),
    );
}

#[verifier::spinoff_prover]
#[verifier::rlimit(60)]
proof fn lemma_rotation_logged(s: State, d: Dir, h: History)
    requires
        logged_on(s, d, h),
        s.log->0.seq < u64::MAX,
    ensures
        logged_on(s.advanced(), d, h.going_on()),
        same_old(done_all(d, s.advanced().ops), done_all(d, s.ops)),
{
    let l = s.log->0;
    let e = done_all(d, s.ops);
    let t = s.advanced();
    let m = s.log->0.seq;
    let keys = deks_of(l.ring);
    let op1 = Op::Append { seq: m, bytes: l.pending, fsync: true };
    let op2 = Op::Append { seq: (m + 1) as u64, bytes: seg_magic(), fsync: false };
    lemma_done_push(d, s.ops, op1);
    lemma_done_push(d, s.ops.push(op1), op2);
    let e1 = done(e, op1);
    let e2 = done(e1, op2);
    let g = h.going_on();
    lemma_append_old(e, m, content(e, segment_name(m)) + l.pending);
    lemma_append_old(e1, (m + 1) as u64, content(e1, segment_name((m + 1) as u64)) + seg_magic());
    assert(same_old(e2, e)) by {
        assert forall|name: Seq<char>| is_shard_name(name) implies #[trigger] e2.dom().contains(name)
            == e.dom().contains(name) && (e2.dom().contains(name) ==> e2[name] == e[name]) by {
            assert(e2.dom().contains(name) == e1.dom().contains(name));
            assert(e1.dom().contains(name) == e.dom().contains(name));
        }
    }
    lemma_append_active(e, h, l.ring, m, l.pending);
    assert(e1.dom().contains(segment_name(m)));
    assert(e1[segment_name(m)] == seg_magic() + log_of(h.raws.last()));
    let none = Seq::<u8>::empty();
    assert(next_frame(none) == Next::Torn);
    assert(e1[segment_name(m)] =~= seg_magic() + log_of(h.raws.last()) + none);
    assert(file_holds(e1[segment_name(m)], h.raws.last(), keys));
    segment_names_round_trip((m + 1) as u64);
    assert(!e1.dom().contains(segment_name((m + 1) as u64)));
    assert(tidy(e1, g.n, g.first as int, m + 1));
    assert(has_segments(e1, g, g.raws.len() - 1, keys)) by {
        assert forall|i: int| 0 <= i < g.raws.len() - 1 implies {
            &&& e1.dom().contains(#[trigger] segment_name((g.first + i) as u64))
            &&& file_holds(e1[segment_name((g.first + i) as u64)], g.raws[i], keys)
        } by {
            if i < h.raws.len() - 1 {
                assert(g.raws[i] == h.raws[i]);
                assert(e1.dom().contains(segment_name((h.first + i) as u64)));
            } else {
                assert((g.first + i) as u64 == m);
                assert(g.raws[i] == h.raws.last());
            }
        }
    }
    assert(has_base(e1, g, l.ring));
    lemma_append_active(e1, g, l.ring, (m + 1) as u64, seg_magic());
    lemma_joined_push_segment(h.raws);
    assert(log_of(Seq::<Raw>::empty()) =~= none);
    assert(content(e2, segment_name((m + 1) as u64)) + none =~= seg_magic() + log_of(
        g.raws.last(),
    ));
}

/// One more record that makes sense is in the log, once it has had its effect.
pub proof fn lemma_record(s: State, d: Dir, h: History, raw: Raw, t: State)
    requires
        logged_on(s, d, h),
        t.ops == s.ops,
        t.log matches Some(m) && m.seq == s.log->0.seq && m.ring == s.log->0.ring && m.pending
            == s.log->0.pending + frame(raw.kind, raw.body),
        raw.body.len() < u32::MAX,
        parse_body(raw.kind, raw.body, deks_of(s.log->0.ring)) is Ok,
        held(t.items) == effect(
            held(s.items),
            parse_body(raw.kind, raw.body, deks_of(s.log->0.ring))->Ok_0,
        ),
    ensures
        logged_on(t, d, h.with(raw)),
        h.with(raw).recs(deks_of(s.log->0.ring)) == h.recs(deks_of(s.log->0.ring)).push(
            parse_body(raw.kind, raw.body, deks_of(s.log->0.ring))->Ok_0,
        ),
{
    let l = s.log->0;
    let e = done_all(d, s.ops);
    let g = h.with(raw);
    let keys = deks_of(l.ring);
    let rec = parse_body(raw.kind, raw.body, keys)->Ok_0;
    lemma_joined_push_record(h.raws, raw);
    log_of_push(h.raws.last(), raw);
    let all = joined_records(g.raws);
    assert(sound(all, keys)) by {
        assert forall|i: int| 0 <= i < all.len() implies {
            &&& (#[trigger] all[i]).body.len() < u32::MAX
            &&& parse_body(all[i].kind, all[i].body, keys) is Ok
        } by {
            if i < joined_records(h.raws).len() {
                assert(all[i] == joined_records(h.raws)[i]);
            } else {
                assert(all[i] == raw);
            }
        }
    }
    assert(g.recs(keys) =~= h.recs(keys).push(rec));
    lemma_effects_push(h.start, h.recs(keys), rec);
    assert(sound(g.raws.last(), keys)) by {
        let v = g.raws.last();
        assert forall|i: int| 0 <= i < v.len() implies {
            &&& (#[trigger] v[i]).body.len() < u32::MAX
            &&& parse_body(v[i].kind, v[i].body, keys) is Ok
        } by {
            if i < h.raws.last().len() {
                assert(v[i] == h.raws.last()[i]);
            }
        }
    }
    assert(has_segments(e, g, g.raws.len() - 1, keys)) by {
        assert forall|i: int| 0 <= i < g.raws.len() - 1 implies {
            &&& e.dom().contains(#[trigger] segment_name((g.first + i) as u64))
            &&& file_holds(e[segment_name((g.first + i) as u64)], g.raws[i], keys)
        } by {
            assert(g.raws[i] == h.raws[i]);
            assert(e.dom().contains(segment_name((h.first + i) as u64)));
        }
    }
    let c = content(e, segment_name(l.seq));
    let f = frame(raw.kind, raw.body);
    assert(c + (l.pending + f) =~= (c + l.pending) + f);
    assert((seg_magic() + log_of(h.raws.last())) + f =~= seg_magic() + (log_of(h.raws.last()) + f));
    assert(g.raws.last() == h.raws.last().push(raw));
}

/// What one record that accounts for a change does to what is held.
pub proof fn lemma_one_effect(raw: Raw, keys: Option<Seq<Dek>>, items: Seq<Item>, after: Seq<Item>)
    requires
        accounts_for(seq![raw], keys, items, after),
    ensures
        raw.body.len() < u32::MAX,
        parse_body(raw.kind, raw.body, keys) is Ok,
        held(after) == effect(held(items), parse_body(raw.kind, raw.body, keys)->Ok_0),
{
    let rec = parse_body(raw.kind, raw.body, keys)->Ok_0;
    assert(seq![raw][0] == raw);
    assert(meaning(seq![raw], keys) =~= seq![rec]);
    records_have_their_effects(bare(items), seq![rec], 0);
    lemma_effects_push(held(bare(items)), Seq::empty(), rec);
    assert(Seq::<Rec>::empty().push(rec) =~= seq![rec]);
    lemma_held_bare(items);
    lemma_held_bare(after);
}

/// Several more records that make sense are in the log, once they have had their effects.
pub proof fn lemma_records(s: State, d: Dir, h: History, list: Seq<Raw>, t: State) -> (g: History)
    requires
        logged_on(s, d, h),
        t.ops == s.ops,
        t.log matches Some(m) && m.seq == s.log->0.seq && m.ring == s.log->0.ring && m.pending
            == s.log->0.pending + log_of(list),
        sound(list, deks_of(s.log->0.ring)),
        held(t.items) == effects(held(s.items), meaning(list, deks_of(s.log->0.ring))),
    ensures
        logged_on(t, d, g),
        g.n == h.n,
        g.start == h.start,
        g.recs(deks_of(s.log->0.ring)) == h.recs(deks_of(s.log->0.ring)) + meaning(
            list,
            deks_of(s.log->0.ring),
        ),
    decreases list.len(),
{
    let keys = deks_of(s.log->0.ring);
    if list.len() == 0 {
        assert(t.log->0.pending =~= s.log->0.pending);
        assert(meaning(list, keys) =~= Seq::<Rec>::empty());
        assert(h.recs(keys) =~= h.recs(keys) + meaning(list, keys));
        h
    } else {
        let first = list.drop_last();
        let raw = list.last();
        assert(list[list.len() - 1] == raw);
        let rec = parse_body(raw.kind, raw.body, keys)->Ok_0;
        assert(sound(first, keys)) by {
            assert forall|i: int| 0 <= i < first.len() implies {
                &&& (#[trigger] first[i]).body.len() < u32::MAX
                &&& parse_body(first[i].kind, first[i].body, keys) is Ok
            } by {
                assert(first[i] == list[i]);
            }
        }
        log_of_push(first, raw);
        assert(first.push(raw) =~= list);
        assert(meaning(list, keys) =~= meaning(first, keys).push(rec));
        lemma_effects_push(held(s.items), meaning(first, keys), rec);
        let u = State {
            items: crate::live::applied_all(s.items, meaning(first, keys), 0),
            log: Some(Log { pending: s.log->0.pending + log_of(first), ..s.log->0 }),
            ..s
        };
        records_have_their_effects(s.items, meaning(first, keys), 0);
        let g = lemma_records(s, d, h, first, u);
        assert(t.log->0.pending =~= u.log->0.pending + frame(raw.kind, raw.body));
        lemma_record(u, d, g, raw, t);
        assert(g.with(raw).recs(keys) =~= h.recs(keys) + meaning(list, keys));
        g.with(raw)
    }
}

/// A change of times, or of faults that are to come, is no matter for the history.
proof fn lemma_same_shards(s: State, d: Dir, h: History, t: State)
    requires
        faithful(s, d, h),
        t.ops == s.ops,
        t.log matches Some(m) && m.seq == s.log->0.seq && m.ring == s.log->0.ring && m.pending
            == s.log->0.pending,
        bare(t.items) == bare(s.items),
    ensures
        faithful(t, d, h),
{
    lemma_held_bare(s.items);
    lemma_held_bare(t.items);
}

/// No records account for what is already there.
pub proof fn lemma_nothing_yet(items: Seq<Item>, keys: Option<Seq<Dek>>)
    ensures
        accounts_for(Seq::empty(), keys, items, items),
{
    assert(meaning(Seq::<Raw>::empty(), keys) =~= Seq::<Rec>::empty());
}

/// A put keeps the history: a shard that was stored adds its record, one that was not adds
/// nothing.
pub proof fn put_keeps_the_history(
    s: State,
    key: Key,
    shard: Piece,
    now: u64,
    t: State,
    r: (bool, u64),
    d: Dir,
    h: History,
) -> (g: History)
    requires
        faithful(s, d, h),
        short_enough(shard),
        s.put_step(key, shard, now, t, r),
    ensures
        faithful(t, d, g),
{
    if r.0 {
        reveal(agrees);
        reveal(reads_over);
        let keys = deks_of(s.log->0.ring);
        let none = Seq::<Raw>::empty();
        lemma_nothing_yet(s.items, keys);
        let raw = put_is_logged(s, key, shard, now, t, r.1, none, s.items);
        assert(none.push(raw) =~= seq![raw]);
        lemma_one_effect(raw, keys, s.items, t.items);
        lemma_record(s, d, h, raw, t);
        let g = h.with(raw);
        let rec = parse_body(raw.kind, raw.body, keys)->Ok_0;
        let e = done_all(d, s.ops);
        let old = old_shards(e, keys);
        lemma_effects_push(old, h.recs(keys), rec);
        let hash = shard_digest(shard);
        lemma_held_stored(s.items, Item { key, hash, shard, epoch: now });
        assert(part_of(old, g.told(keys))) by {
            assert forall|x: Slot| #[trigger] old.dom().contains(x) implies g.told(keys).dom().contains(x)
                && old[x] == g.told(keys)[x] by {
                assert(held(s.items).dom().contains(x));
                assert(x != (key, hash));
            }
        }
        g
    } else {
        put_that_is_not_stored_changes_no_shard(s, key, shard, now, t, r.1);
        lemma_same_shards(s, d, h, t);
        h
    }
}

/// Two shards' files have one name only where they have one hash.
proof fn lemma_shard_names_differ(a: Seq<u8>, b: Seq<u8>)
    requires
        a.len() == 32,
        b.len() == 32,
        shard_file_name(a) == shard_file_name(b),
    ensures
        a == b,
{
    reveal_strlit("/");
    reveal_strlit(".shard");
    let x = hex(a);
    let y = hex(b);
    let n = shard_file_name(a);
    assert(x.take(2) =~= n.take(2));
    assert(y.take(2) =~= n.take(2));
    assert(x.skip(2) =~= n.subrange(3, 65));
    assert(y.skip(2) =~= n.subrange(3, 65));
    assert(x =~= x.take(2) + x.skip(2));
    assert(y =~= y.take(2) + y.skip(2));
    hex_round_trip(a);
    hex_round_trip(b);
    let c = vstd::utf8::encode_utf8(x);
    assert(crate::hex::pair_bytes(c) == a);
    assert(crate::hex::pair_bytes(c) == b);
}

/// Removing the files of shards removes what they hold, and nothing else.
proof fn lemma_old_removed(e: Dir, hs: Seq<Seq<u8>>, keys: Option<Seq<Dek>>)
    requires
        forall|i: int| 0 <= i < hs.len() ==> (#[trigger] hs[i]).len() == 32,
    ensures
        old_shards(done_all(e, remove_ops(hs)), keys) == less_hashes(old_shards(e, keys), hs),
        named_right(e, keys) ==> named_right(done_all(e, remove_ops(hs)), keys),
    decreases hs.len(),
{
    if hs.len() == 0 {
        assert(remove_ops(hs) =~= Seq::<Op>::empty());
        assert(old_shards(e, keys) =~= less_hashes(old_shards(e, keys), hs));
    } else {
        let t = hs.drop_last();
        assert(hs[hs.len() - 1].len() == 32);
        assert forall|i: int| 0 <= i < t.len() implies (#[trigger] t[i]).len() == 32 by {
            assert(t[i] == hs[i]);
        }
        lemma_old_removed(e, t, keys);
        let f = done_all(e, remove_ops(t));
        let name = shard_file_name(hs.last());
        assert(remove_ops(hs) =~= remove_ops(t).push(Op::Remove { name }));
        lemma_done_push(e, remove_ops(t), Op::Remove { name });
        let g = f.remove(name);
        let a = old_shards(g, keys);
        let b = less_hashes(old_shards(e, keys), hs);
        let m = old_shards(f, keys);
        assert forall|s: Slot| #[trigger] a.dom().contains(s) <==> b.dom().contains(s) by {
            if shard_file_name(s.1) == name && s.1.len() == 32 {
                lemma_shard_names_differ(s.1, hs.last());
            }
            assert(hs.contains(s.1) == (t.contains(s.1) || s.1 == hs.last())) by {
                assert(t.push(hs.last()) =~= hs);
            }
            assert(m.dom().contains(s) == less_hashes(old_shards(e, keys), t).dom().contains(s));
        }
        assert forall|s: Slot| #[trigger] a.dom().contains(s) implies a[s] == b[s] by {
            assert(b.dom().contains(s));
            assert(hs.contains(s.1) == (t.contains(s.1) || s.1 == hs.last())) by {
                assert(t.push(hs.last()) =~= hs);
            }
            assert(m.dom().contains(s));
            assert(m[s] == less_hashes(old_shards(e, keys), t)[s]);
        }
        assert(a =~= b);
    }
}

/// Removing the files of shards leaves the segments alone.
proof fn lemma_removals(e: Dir, h: History, ring: Option<Ring>, seq: u64, hs: Seq<Seq<u8>>)
    requires
        h.raws.len() > 0,
        h.first + h.raws.len() - 1 == seq,
        tidy(e, h.n, h.first as int, seq as int),
        has_base(e, h, ring),
        has_segments(e, h, h.raws.len() - 1, deks_of(ring)),
    ensures
        ({
            let f = done_all(e, remove_ops(hs));
            &&& tidy(f, h.n, h.first as int, seq as int)
            &&& has_base(f, h, ring)
            &&& has_segments(f, h, h.raws.len() - 1, deks_of(ring))
            &&& content(f, segment_name(seq)) == content(e, segment_name(seq))
        }),
    decreases hs.len(),
{
    if hs.len() > 0 {
        let t = hs.drop_last();
        lemma_removals(e, h, ring, seq, t);
        let f = done_all(e, remove_ops(t));
        let name = shard_file_name(hs.last());
        assert(remove_ops(hs) =~= remove_ops(t).push(Op::Remove { name }));
        lemma_done_push(e, remove_ops(t), Op::Remove { name });
        lemma_shard_is_no_segment(hs.last());
        let k = f.remove(name);
        segment_names_round_trip(seq);
        compact_names_round_trip(h.n);
        assert forall|n: Seq<char>| #[trigger] k.dom().contains(n) implies f.dom().contains(n) by {}
        assert(has_segments(k, h, h.raws.len() - 1, deks_of(ring))) by {
            assert forall|i: int| 0 <= i < h.raws.len() - 1 implies {
                &&& k.dom().contains(#[trigger] segment_name((h.first + i) as u64))
                &&& file_holds(k[segment_name((h.first + i) as u64)], h.raws[i], deks_of(ring))
            } by {
                segment_names_round_trip((h.first + i) as u64);
                assert(f.dom().contains(segment_name((h.first + i) as u64)));
            }
        }
    }
}

proof fn lemma_done_concat(d: Dir, a: Seq<Op>, b: Seq<Op>)
    ensures
        done_all(d, a + b) == done_all(done_all(d, a), b),
    decreases b.len(),
{
    if b.len() == 0 {
        assert(a + b =~= a);
    } else {
        lemma_done_concat(d, a, b.drop_last());
        assert((a + b).drop_last() =~= a + b.drop_last());
    }
}

/// A store whose queue was carried out.
pub open spec fn drained(s: State) -> State {
    State { ops: Seq::empty(), ..s }
}

/// Records that were logged, queued and written, their effects, and the removal of the files of
/// shards.
proof fn lemma_dropped(
    s: State,
    list: Seq<Raw>,
    m: Log,
    items: Seq<Item>,
    gone: Seq<Seq<u8>>,
    d: Dir,
    h: History,
) -> (g: History)
    requires
        faithful(s, d, h),
        s.log->0.seq < u64::MAX,
        m == (Log { pending: s.log->0.pending + log_of(list), written: m.written, ..s.log->0 }),
        sound(list, deks_of(s.log->0.ring)),
        held(items) == effects(held(s.items), meaning(list, deks_of(s.log->0.ring))),
        forall|i: int| 0 <= i < gone.len() ==> (#[trigger] gone[i]).len() == 32,
    ensures
        ({
            let s1 = s.with_log_synced(m);
            let e = done_all(d, s1.ops);
            let mid = drained(s1).rotated();
            let t = State { items, ops: mid.ops + remove_ops(gone), ..mid };
            let keys = deks_of(s.log->0.ring);
            &&& logged_on(t, e, g)
            &&& t.log->0.ring == s.log->0.ring
            &&& g.n == h.n && g.start == h.start
            &&& g.recs(keys) == h.recs(keys) + meaning(list, keys)
            &&& old_shards(done_all(e, t.ops), keys) == less_hashes(
                old_shards(done_all(d, s.ops), keys),
                gone,
            )
            &&& named_right(done_all(e, t.ops), keys)
        }),
{
    reveal(agrees);
    reveal(reads_over);
    let keys = deks_of(s.log->0.ring);
    let one = State { items, log: Some(m), ..s };
    let g1 = lemma_records(s, d, h, list, one);
    lemma_sync_logged(one, d, g1);
    lemma_same_old(done_all(d, one.synced().ops), done_all(d, one.ops), keys);
    let s1 = s.with_log_synced(m);
    assert(one.synced() == (State { items, ..s1 }));
    let e = done_all(d, s1.ops);
    let two = drained(one.synced());
    assert(done_all(e, Seq::<Op>::empty()) == e);
    assert(logged_on(two, e, g1));
    let l = two.log->0;
    let (three, g2) = if l.written >= l.rotate_at {
        lemma_rotation_logged(two, e, g1);
        lemma_same_old(done_all(e, two.advanced().ops), done_all(e, two.ops), keys);
        lemma_joined_push_segment(g1.raws);
        (two.advanced(), g1.going_on())
    } else {
        (two, g1)
    };
    assert(two.rotated() == three);
    let mid = drained(s1).rotated();
    assert(three == (State { items, ..mid }));
    lemma_done_concat(e, mid.ops, remove_ops(gone));
    lemma_removals(done_all(e, three.ops), g2, three.log->0.ring, three.log->0.seq, gone);
    lemma_old_removed(done_all(e, three.ops), gone, keys);
    g2
}

/// Whether no file holds a shard of another object that has one of the hashes. (The files are
/// named by hash alone, so that removing one for an object removes it for every object.)
pub open spec fn not_shared(old: Held, object_id: u64, gone: Seq<Seq<u8>>) -> bool {
    forall|x: Slot| #[trigger] old.dom().contains(x) && gone.contains(x.1) ==> x.0.0 == object_id
}

/// A purge of an object keeps the history, once its record was written, unless a file with one
/// shard belongs to another object with an equal shard.
pub proof fn purge_keeps_the_history(
    s: State,
    object_id: u64,
    s1: State,
    t: State,
    r: Result<usize, Fault>,
    d: Dir,
    h: History,
) -> (g: History)
    requires
        faithful(s, d, h),
        object_purge_start(s, object_id, s1, Ok(())),
        object_purge_step(drained(s1), object_id, Ok(()), t, r),
        s.log->0.seq < u64::MAX,
        forall|i: int| 0 <= i < s.items.len() ==> (#[trigger] s.items[i]).hash.len() == 32,
        forall|x: Slot, i: int|
            #![trigger is_old(done_all(d, s.ops), deks_of(s.log->0.ring), x), s.items[i]]
            is_old(done_all(d, s.ops), deks_of(s.log->0.ring), x) && 0 <= i < s.items.len()
                && s.items[i].key.0 == object_id && s.items[i].hash == x.1 ==> x.0.0 == object_id,
    ensures
        faithful(t, done_all(d, s1.ops), g),
{
    reveal(agrees);
    reveal(reads_over);
    let body = crate::bytes::be64(object_id);
    let m = s.log->0.recorded(KIND_PURGE, body);
    let mid = drained(s1).rotated();
    let gone = choose|gone: Seq<Seq<u8>>|
        {
            &&& gone.len() == s.items.len() - t.items.len()
            &&& forall|x: Seq<u8>|
                gone.contains(x) <==> exists|i: int|
                    0 <= i < s.items.len() && (#[trigger] s.items[i]).key.0 == object_id
                        && s.items[i].hash == x
            &&& t == (State {
                items: without_object(s.items, object_id),
                ops: if mid.log is Some {
                    mid.ops + #[trigger] remove_ops(gone)
                } else {
                    mid.ops
                },
                ..mid
            })
        };
    let keys = deks_of(s.log->0.ring);
    let none = Seq::<Raw>::empty();
    let raw = Raw { kind: KIND_PURGE, body };
    let list = seq![raw];
    lemma_nothing_yet(s.items, keys);
    purge_is_logged(object_id, keys, none, s.items, s.items);
    assert(none.push(raw) =~= list);
    crate::wal_laws::purge_is_read_back(object_id, keys);
    lemma_one_effect(raw, keys, s.items, without_object(s.items, object_id));
    let rec = Rec::Purge { object_id };
    assert(meaning(list, keys) =~= Seq::<Rec>::empty().push(rec));
    lemma_effects_push(held(s.items), Seq::empty(), rec);
    log_of_push(none, raw);
    assert(log_of(none) =~= Seq::<u8>::empty());
    assert(m.pending =~= s.log->0.pending + log_of(list));
    assert forall|i: int| 0 <= i < gone.len() implies (#[trigger] gone[i]).len() == 32 by {
        assert(gone.contains(gone[i]));
    }
    let g = lemma_dropped(s, list, m, without_object(s.items, object_id), gone, d, h);
    let old = old_shards(done_all(d, s.ops), keys);
    assert(not_shared(old, object_id, gone)) by {
        assert forall|x: Slot| #[trigger] old.dom().contains(x) && gone.contains(x.1) implies x.0.0
            == object_id by {
            let i = choose|i: int|
                0 <= i < s.items.len() && (#[trigger] s.items[i]).key.0 == object_id && s.items[i].hash
                    == x.1;
            assert(is_old(done_all(d, s.ops), keys, x));
        }
    }
    assert(h.recs(keys) + meaning(list, keys) =~= h.recs(keys).push(rec));
    lemma_purge_agrees(s.items, old, h, g, keys, object_id, gone);
    g
}

/// After the purge of an object the files that are left still agree.
proof fn lemma_purge_agrees(
    items: Seq<Item>,
    old: Held,
    h: History,
    g: History,
    keys: Option<Seq<Dek>>,
    object_id: u64,
    gone: Seq<Seq<u8>>,
)
    requires
        held(items) == h.told(keys),
        h.n == 0 ==> effects(old, h.recs(keys)) == h.told(keys),
        h.n > 0 ==> part_of(old, h.start),
        part_of(old, h.told(keys)),
        g.n == h.n,
        g.start == h.start,
        g.recs(keys) == h.recs(keys).push(Rec::Purge { object_id }),
        not_shared(old, object_id, gone),
        forall|x: Seq<u8>|
            gone.contains(x) <==> exists|i: int|
                0 <= i < items.len() && (#[trigger] items[i]).key.0 == object_id && items[i].hash == x,
    ensures
        ({
            let left = less_hashes(old, gone);
            &&& h.n == 0 ==> effects(left, g.recs(keys)) == g.told(keys)
            &&& h.n > 0 ==> part_of(left, g.start)
            &&& part_of(left, g.told(keys))
        }),
{
    let left = less_hashes(old, gone);
    let rec = Rec::Purge { object_id };
    let recs = h.recs(keys);
    lemma_effects_push(left, recs, rec);
    lemma_effects_push(old, recs, rec);
    lemma_effects_push(h.start, recs, rec);
    assert forall|x: Slot| #[trigger] left.dom().contains(x) implies x.0.0 != object_id by {
        if x.0.0 == object_id {
            assert(old.dom().contains(x));
            assert(held(items).dom().contains(x));
            let i = crate::live::place(items, x.0, x.1);
            crate::live::lemma_place(items, x.0, x.1);
            assert(items[i].key.0 == object_id && items[i].hash == x.1);
        }
    }
    assert(less_object(left, object_id) =~= less_object(old, object_id)) by {
        assert forall|x: Slot| #[trigger] less_object(old, object_id).dom().contains(x) implies left.dom().contains(
        x) by {
            if gone.contains(x.1) {
                assert(old.dom().contains(x));
            }
        }
    }
    purged_object_leaves_no_trace(left, old, recs, object_id);
    assert forall|x: Slot| #[trigger] left.dom().contains(x) implies g.told(keys).dom().contains(x)
        && left[x] == g.told(keys)[x] by {
        assert(old.dom().contains(x));
        assert(h.told(keys).dom().contains(x));
    }
    if h.n > 0 {
        assert forall|x: Slot| #[trigger] left.dom().contains(x) implies g.start.dom().contains(x)
            && left[x] == g.start[x] by {
            assert(old.dom().contains(x));
        }
    }
}

/// The records that put some items.
pub open spec fn puts_of(items: Seq<Item>) -> Seq<Rec> {
    items.map_values(
        |i: Item|
            Rec::Put {
                object_id: i.key.0,
                channel: i.key.1,
                layer: i.key.2,
                hash: i.hash,
                shard: i.shard,
            },
    )
}

/// Putting items adds them to what is held.
proof fn lemma_puts_of(m: Held, items: Seq<Item>)
    requires
        no_twins(items),
    ensures
        effects(m, puts_of(items)) == m.union_prefer_right(held(items)),
    decreases items.len(),
{
    if items.len() == 0 {
        lemma_held_empty();
        assert(puts_of(items) =~= Seq::<Rec>::empty());
        assert(held(items) =~= Map::<Slot, Piece>::empty());
        assert(m =~= m.union_prefer_right(held(items)));
    } else {
        let t = items.drop_last();
        let it = items.last();
        assert(no_twins(t)) by {
            assert forall|i: int, j: int| 0 <= i < j < t.len() implies !crate::live::is_slot(
                #[trigger] t[i],
                (#[trigger] t[j]).key,
                t[j].hash,
            ) by {
                assert(t[i] == items[i] && t[j] == items[j]);
            }
        }
        lemma_puts_of(m, t);
        crate::live::lemma_place(t, it.key, it.hash);
        if crate::live::holds(t, it.key, it.hash) {
            let k = crate::live::place(t, it.key, it.hash);
            assert(crate::live::is_slot(items[k], items[items.len() - 1].key, items[items.len() - 1].hash));
        }
        assert(crate::live::stored(t, it) =~= items);
        lemma_held_stored(t, it);
        let rec = puts_of(items).last();
        assert(puts_of(items) =~= puts_of(t).push(rec));
        lemma_effects_push(m, puts_of(t), rec);
        assert(effects(m, puts_of(items)) =~= m.union_prefer_right(held(items)));
    }
}

/// Records in a row have their effects one after the other.
pub proof fn lemma_effects_concat(m: Held, a: Seq<Rec>, b: Seq<Rec>)
    ensures
        effects(m, a + b) == effects(effects(m, a), b),
    decreases b.len(),
{
    if b.len() == 0 {
        assert(a + b =~= a);
    } else {
        lemma_effects_concat(m, a, b.drop_last());
        assert((a + b).drop_last() =~= a + b.drop_last());
    }
}

/// Dropping every shard with the hashes of those that are due, and putting those back that are
/// younger, drops what is due.
proof fn lemma_due_effects(items: Seq<Item>, targets: Seq<Seq<u8>>, max: u64)
    requires
        no_twins(items),
    ensures
        ({
            let hs = doomed(items, targets, max);
            held(keep(items, not_due(targets, max))) == less_hashes(held(items), hs).union_prefer_right(
                held(keep(items, spared(hs, max))),
            )
        }),
{
    let hs = doomed(items, targets, max);
    let p = not_due(targets, max);
    let q = spared(hs, max);
    let a = held(keep(items, p));
    let b = less_hashes(held(items), hs).union_prefer_right(held(keep(items, q)));
    let z = keep(items, due(targets, max));
    lemma_keep(items, due(targets, max));
    assert forall|x: Slot| #[trigger] a.dom().contains(x) == b.dom().contains(x) && (a.dom().contains(
        x,
    ) ==> a[x] == b[x]) by {
        lemma_kept_slot(items, p, x.0, x.1);
        lemma_kept_slot(items, q, x.0, x.1);
        if held(items).dom().contains(x) {
            let it = items[crate::live::place(items, x.0, x.1)];
            crate::live::lemma_place(items, x.0, x.1);
            assert(items.contains(it));
            assert(it.hash == x.1);
            if hs.contains(x.1) {
                let i = choose|i: int| 0 <= i < hs.len() && hs[i] == x.1;
                assert(z.contains(z[i]));
                assert(targets.contains(z[i].hash));
                assert(z[i].hash == hs[i]);
            }
            if due(targets, max)(it) {
                assert(z.contains(it));
                let i = choose|i: int| 0 <= i < z.len() && z[i] == it;
                assert(hs[i] == x.1);
            }
        }
    }
    assert(a =~= b);
}

/// The records of a purge by hashes: they make sense, and have the effect of the purge.
pub proof fn lemma_purge_records(s: State, targets: Seq<Seq<u8>>, max: u64, s1: State, d: Dir, h: History) -> (list:
    Seq<Raw>)
    requires
        logged_on(s, d, h),
        s.wf(),
        hash_purge_start(s, targets, max, s1, Ok(())),
        doomed(s.items, targets, max).len() > 0,
        forall|i: int|
            0 <= i < s.items.len() ==> (#[trigger] s.items[i]).hash.len() == 32 && short_enough(
                s.items[i].shard,
            ),
        hashes_body(doomed(s.items, targets, max)).len() < u32::MAX,
        doomed(s.items, targets, max).len() <= u32::MAX,
    ensures
        ({
            let l = s.log->0;
            let keys = deks_of(l.ring);
            let hs = doomed(s.items, targets, max);
            let m = Log { pending: l.pending + log_of(list), written: s1.log->0.written, ..l };
            &&& s1 == s.with_log_synced(m)
            &&& sound(list, keys)
            &&& meaning(list, keys) == Seq::<Rec>::empty().push(Rec::PurgeHashes { hashes: hs })
                + puts_of(keep(s.items, spared(hs, max)))
            &&& held(keep(s.items, not_due(targets, max))) == effects(
                held(s.items),
                meaning(list, keys),
            )
            &&& forall|i: int| 0 <= i < hs.len() ==> (#[trigger] hs[i]).len() == 32
        }),
{
    let l = s.log->0;
    let keys = deks_of(l.ring);
    let hs = doomed(s.items, targets, max);
    let body = hashes_body(hs);
    let sv = keep(s.items, spared(hs, max));
    let puts = choose|list: Seq<Raw>|
        {
            &&& #[trigger] snapshot_of(l.ring, sv, list)
            &&& s1 == s.with_log_synced(l.recorded(KIND_PURGE_HASHES, body).recorded_all(list))
        };
    let raw = Raw { kind: KIND_PURGE_HASHES, body };
    let list = seq![raw] + puts;
    let m = l.recorded(KIND_PURGE_HASHES, body).recorded_all(puts);
    crate::wal::lemma_recorded_all(l.recorded(KIND_PURGE_HASHES, body), puts);
    assert(list.drop_first() =~= puts);
    assert(log_of(list) == frame(raw.kind, raw.body) + log_of(puts));
    assert(m.pending =~= l.pending + log_of(list));
    let z = keep(s.items, due(targets, max));
    lemma_keep(s.items, due(targets, max));
    assert forall|i: int| 0 <= i < hs.len() implies (#[trigger] hs[i]).len() == 32 by {
        assert(z.contains(z[i]));
        let j = choose|j: int| 0 <= j < s.items.len() && s.items[j] == z[i];
        assert(s.items[j].hash.len() == 32);
    }
    crate::wal_laws::purge_hashes_is_read_back(hs, keys);
    let rec = Rec::PurgeHashes { hashes: hs };
    lemma_keep(s.items, spared(hs, max));
    lemma_keep_no_twins(s.items, spared(hs, max));
    assert forall|i: int| 0 <= i < puts.len() implies {
        &&& (#[trigger] puts[i]).body.len() < u32::MAX
        &&& parse_body(puts[i].kind, puts[i].body, keys) == Ok::<Rec, WalError>(puts_of(sv)[i])
    } by {
        let it = sv[i];
        assert(sv.contains(it));
        let j = choose|j: int| 0 <= j < s.items.len() && s.items[j] == it;
        assert(s.items[j].hash.len() == 32 && short_enough(s.items[j].shard));
        lemma_put_record(l.ring, it.key, it.hash, it.shard, puts[i]);
    }
    assert(sound(list, keys)) by {
        assert forall|i: int| 0 <= i < list.len() implies {
            &&& (#[trigger] list[i]).body.len() < u32::MAX
            &&& parse_body(list[i].kind, list[i].body, keys) is Ok
        } by {
            if i > 0 {
                assert(list[i] == puts[i - 1]);
            }
        }
    }
    let one = Seq::<Rec>::empty().push(rec);
    assert(meaning(list, keys) =~= one + puts_of(sv)) by {
        assert forall|i: int| 0 <= i < list.len() implies #[trigger] meaning(list, keys)[i] == (one
            + puts_of(sv))[i] by {
            if i > 0 {
                assert(list[i] == puts[i - 1]);
            }
        }
    }
    lemma_effects_concat(held(s.items), one, puts_of(sv));
    lemma_effects_push(held(s.items), Seq::empty(), rec);
    lemma_puts_of(less_hashes(held(s.items), hs), sv);
    lemma_due_effects(s.items, targets, max);
    list
}

/// A purge by hashes keeps the history, once its records were written.
pub proof fn purge_by_hashes_keeps_the_history(
    s: State,
    targets: Seq<Seq<u8>>,
    max: u64,
    s1: State,
    t: State,
    r: Result<usize, Fault>,
    d: Dir,
    h: History,
) -> (g: History)
    requires
        faithful(s, d, h),
        s.wf(),
        hash_purge_start(s, targets, max, s1, Ok(())),
        hash_purge_step(drained(s1), targets, max, Ok(()), t, r),
        s.log->0.seq < u64::MAX,
        forall|i: int|
            0 <= i < s.items.len() ==> (#[trigger] s.items[i]).hash.len() == 32 && short_enough(
                s.items[i].shard,
            ),
        hashes_body(doomed(s.items, targets, max)).len() < u32::MAX,
        doomed(s.items, targets, max).len() <= u32::MAX,
    ensures
        faithful(t, done_all(d, s1.ops), g),
{
    let hs = doomed(s.items, targets, max);
    if hs.len() == 0 {
        assert(done_all(done_all(d, s.ops), Seq::<Op>::empty()) == done_all(d, s.ops));
        h
    } else {
        reveal(agrees);
        reveal(reads_over);
        let l = s.log->0;
        let keys = deks_of(l.ring);
        let sv = keep(s.items, spared(hs, max));
        let list = lemma_purge_records(s, targets, max, s1, d, h);
        let m = Log { pending: l.pending + log_of(list), written: s1.log->0.written, ..l };
        let items = keep(s.items, not_due(targets, max));
        let g = lemma_dropped(s, list, m, items, hs, d, h);
        let rec = Rec::PurgeHashes { hashes: hs };
        assert(g.recs(keys) =~= h.recs(keys).push(rec) + puts_of(sv));
        lemma_keep(s.items, spared(hs, max));
        lemma_keep_no_twins(s.items, spared(hs, max));
        lemma_purge_hashes_agrees(old_shards(done_all(d, s.ops), keys), h, g, keys, hs, sv);
        g
    }
}

/// After a purge by hashes the files that are left still agree.
proof fn lemma_purge_hashes_agrees(
    old: Held,
    h: History,
    g: History,
    keys: Option<Seq<Dek>>,
    hs: Seq<Seq<u8>>,
    sv: Seq<Item>,
)
    requires
        h.n == 0 ==> effects(old, h.recs(keys)) == h.told(keys),
        h.n > 0 ==> part_of(old, h.start),
        part_of(old, h.told(keys)),
        g.n == h.n,
        g.start == h.start,
        g.recs(keys) == h.recs(keys).push(Rec::PurgeHashes { hashes: hs }) + puts_of(sv),
        no_twins(sv),
        forall|i: Item| #[trigger] sv.contains(i) ==> hs.contains(i.hash),
    ensures
        ({
            let left = less_hashes(old, hs);
            &&& h.n == 0 ==> effects(left, g.recs(keys)) == g.told(keys)
            &&& h.n > 0 ==> part_of(left, g.start)
            &&& part_of(left, g.told(keys))
        }),
{
    let left = less_hashes(old, hs);
    let rec = Rec::PurgeHashes { hashes: hs };
    let recs = h.recs(keys);
    let upto = recs.push(rec);
    lemma_effects_push(left, recs, rec);
    lemma_effects_push(old, recs, rec);
    lemma_effects_push(h.start, recs, rec);
    assert(less_hashes(left, hs) =~= less_hashes(old, hs));
    purged_hashes_leave_no_trace(left, old, recs, hs);
    lemma_effects_concat(left, upto, puts_of(sv));
    lemma_effects_concat(h.start, upto, puts_of(sv));
    lemma_puts_of(effects(h.start, upto), sv);
    assert forall|x: Slot| #[trigger] left.dom().contains(x) implies g.told(keys).dom().contains(x)
        && left[x] == g.told(keys)[x] by {
        assert(old.dom().contains(x));
        assert(h.told(keys).dom().contains(x));
        if held(sv).dom().contains(x) {
            crate::live::lemma_place(sv, x.0, x.1);
            assert(sv.contains(sv[crate::live::place(sv, x.0, x.1)]));
        }
    }
    if h.n > 0 {
        assert forall|x: Slot| #[trigger] left.dom().contains(x) implies g.start.dom().contains(x)
            && left[x] == g.start[x] by {
            assert(old.dom().contains(x));
        }
    }
}

/// The directory once the first `k` operations of a queue were done, and of the next one, where it
/// is an append, the first `n` bytes.
pub open spec fn done_in_part(d: Dir, ops: Seq<Op>, k: nat, n: nat) -> Dir {
    if k >= ops.len() {
        done_all(d, ops)
    } else {
        let e = done_all(d, ops.take(k as int));
        match ops[k as int] {
            Op::Append { seq, bytes, fsync } => if n == 0 {
                e
            } else {
                e.insert(
                    segment_name(seq),
                    content(e, segment_name(seq)) + (if n < bytes.len() {
                        bytes.take(n as int)
                    } else {
                        bytes
                    }),
                )
            },
            _ => e,
        }
    }
}

/// What is left of a queue brings the directory to where the whole queue would have.
pub proof fn rest_of_the_queue_completes_it(d: Dir, ops: Seq<Op>, k: nat, n: nat)
    ensures
        done_all(done_in_part(d, ops, k, n), left_of(ops, k, n)) == done_all(d, ops),
{
    if k < ops.len() {
        let e = done_all(d, ops.take(k as int));
        let f = done_in_part(d, ops, k, n);
        let op = ops[k as int];
        let first = seq![cut(op, n)];
        lemma_done_concat(f, first, ops.skip(k as int + 1));
        lemma_done_push(f, Seq::empty(), cut(op, n));
        assert(Seq::<Op>::empty().push(cut(op, n)) =~= first);
        assert(done_all(f, first) == done(f, cut(op, n)));
        lemma_done_push(d, ops.take(k as int), op);
        assert(ops.take(k as int + 1) =~= ops.take(k as int).push(op));
        lemma_done_concat(d, ops.take(k as int + 1), ops.skip(k as int + 1));
        assert(ops.take(k as int + 1) + ops.skip(k as int + 1) =~= ops);
        match op {
            Op::Append { seq, bytes, fsync } => {
                let name = segment_name(seq);
                assert(content(f, name) + cut(op, n)->Append_bytes =~= content(e, name) + bytes);
                assert(done(f, cut(op, n)) =~= done(e, op));
            },
            _ => {
                assert(f == e);
            },
        }
    } else {
        assert(done_all(done_all(d, ops), Seq::<Op>::empty()) == done_all(d, ops));
    }
}

/// A queue that is carried out in part, or not at all, keeps the history: what was not done is
/// still asked for.
pub proof fn carrying_out_keeps_the_history(s: State, d: Dir, h: History, k: nat, n: nat)
    requires
        faithful(s, d, h),
    ensures
        faithful(
            State { ops: left_of(s.ops, k, n), ..s },
            done_in_part(d, s.ops, k, n),
            h,
        ),
{
    rest_of_the_queue_completes_it(d, s.ops, k, n);
}

/// The history of a store after a wipe.
pub open spec fn wiped_history(s: State) -> History {
    History {
        n: 0,
        base: Seq::empty(),
        snap: Seq::empty(),
        start: Map::empty(),
        first: 1,
        raws: seq![
            if s.append_fails() {
                Seq::empty()
            } else {
                seq![Raw { kind: KIND_WIPE, body: Seq::empty() }]
            },
        ],
    }
}

/// Where there are no files with one shard each, they agree with any history from nothing.
pub proof fn lemma_none_agrees(d: Dir, h: History, keys: Option<Seq<Dek>>)
    requires
        forall|name: Seq<char>| #[trigger] d.dom().contains(name) ==> !is_shard_name(name),
        h.n == 0 ==> h.start == Map::<Slot, Piece>::empty(),
    ensures
        agrees(d, h, keys),
{
    reveal(agrees);
    reveal(reads_over);
    assert(old_shards(d, keys) =~= Map::<Slot, Piece>::empty());
}

/// A wipe begins a new history.
pub proof fn wipe_begins_a_history(s: State, d: Dir)
    requires
        s.log is Some,
        ring_reads_itself(s.log->0.ring),
    ensures
        faithful(s.wiped(), d, wiped_history(s)),
{
    let l = s.log->0;
    let h = wiped_history(s);
    let keys = deks_of(l.ring);
    let t = s.wiped();
    let none = Seq::<u8>::empty();
    let raw = Raw { kind: KIND_WIPE, body: none };
    let pending = if s.append_fails() {
        seg_magic()
    } else {
        seg_magic() + frame(KIND_WIPE, none)
    };
    let op = t.ops.last();
    lemma_done_push(d, s.ops, Op::RemoveAll);
    lemma_done_push(d, s.ops.push(Op::RemoveAll), op);
    assert(t.ops =~= s.ops.push(Op::RemoveAll).push(op));
    let e = done_all(d, t.ops);
    assert(op == (Op::Append { seq: 1, bytes: pending, fsync: op->Append_fsync }));
    assert(e =~= Map::<Seq<char>, Seq<u8>>::empty().insert(segment_name(1), none + pending));
    segment_names_round_trip(1);
    lemma_segment_is_no_compact(1);
    lemma_segment_is_no_shard(segment_name(1));
    assert(tidy(e, 0, 1, 1));
    let v = h.raws.last();
    assert(log_of(Seq::<Raw>::empty()) =~= none);
    log_of_push(Seq::empty(), raw);
    assert(seq![raw] =~= Seq::<Raw>::empty().push(raw));
    assert(content(e, segment_name(1)) + none =~= seg_magic() + log_of(v));
    wipe_is_logged(keys, Seq::empty());
    assert(h.raws.drop_first() =~= Seq::<Seq<Raw>>::empty());
    assert(joined_records(Seq::<Seq<Raw>>::empty()) =~= Seq::<Raw>::empty());
    assert(joined_records(h.raws) =~= v);
    lemma_held_empty();
    crate::wal_laws::wipe_is_read_back(keys);
    if s.append_fails() {
        assert(h.recs(keys) =~= Seq::<Rec>::empty());
    } else {
        assert(h.recs(keys) =~= seq![Rec::Wipe]);
        assert(seq![Rec::Wipe].last() is Wipe);
    }
    lemma_none_agrees(e, h, keys);
}

/// Removing the garbage of a compaction removes segments that it stands for, and nothing newer.
proof fn lemma_garbage(e: Dir, names: Seq<String>, epoch: u64)
    ensures
        ({
            let f = done_all(e, garbage_ops(names, epoch));
            &&& forall|x: Seq<char>| #[trigger] f.dom().contains(x) ==> e.dom().contains(x) && f[x] == e[x]
            &&& forall|x: Seq<char>|
                #[trigger]
                e.dom().contains(x) && !is_garbage(x, epoch) ==> f.dom().contains(x)
        }),
    decreases names.len(),
{
    let f = done_all(e, garbage_ops(names, epoch));
    if names.len() == 0 {
        assert(f == e);
    } else {
        let before = done_all(e, garbage_ops(names.drop_last(), epoch));
        lemma_garbage(e, names.drop_last(), epoch);
        if is_garbage(names.last()@, epoch) {
            lemma_done_push(
                e,
                garbage_ops(names.drop_last(), epoch),
                Op::Remove { name: names.last()@ },
            );
            assert(f == before.remove(names.last()@));
        } else {
            assert(f == before);
        }
        assert forall|x: Seq<char>| #[trigger] f.dom().contains(x) implies e.dom().contains(x) && f[x]
            == e[x] by {
            assert(before.dom().contains(x));
        }
        assert forall|x: Seq<char>| #[trigger] e.dom().contains(x) && !is_garbage(x, epoch) implies f.dom().contains(
        x) by {
            assert(before.dom().contains(x));
        }
    }
}

/// The history of a store after a compaction.
pub open spec fn compacted_history(s: State, snap: Seq<Raw>) -> History {
    History {
        n: s.log->0.seq,
        base: s.items,
        snap,
        start: held(s.items),
        first: (s.log->0.seq + 1) as u64,
        raws: seq![Seq::empty()],
    }
}

/// A compaction keeps what the store holds, under a shorter history.
pub proof fn compaction_keeps_the_history(s: State, snap: Seq<Raw>, d: Dir, h: History)
    requires
        faithful(s, d, h),
        s.wf(),
        0 < s.log->0.seq < u64::MAX,
        snapshot_of(s.log->0.ring, s.items, snap),
        forall|i: int|
            0 <= i < s.items.len() ==> (#[trigger] s.items[i]).hash.len() == 32 && short_enough(
                s.items[i].shard,
            ),
    ensures
        faithful(s.compacted(seg_magic() + log_of(snap)), d, compacted_history(s, snap)),
{
    let l = s.log->0;
    let epoch = l.seq;
    let bytes = seg_magic() + log_of(snap);
    let on = State { sync_on_write: true, ..s };
    assert(faithful(on, d, h));
    sync_keeps_the_history(on, d, h);
    rotation_keeps_the_history(on.synced(), d, h);
    let moved = on.synced().advanced();
    let k = h.going_on();
    let e = done_all(d, moved.ops);
    let op = Op::WriteCompacted { epoch, bytes };
    lemma_done_push(d, moved.ops, op);
    let e1 = e.insert(compact_name(epoch), bytes);
    let t = s.compacted(bytes);
    assert(done_all(d, t.ops) == e1);
    let g = compacted_history(s, snap);
    let next = (epoch + 1) as u64;
    segment_names_round_trip(next);
    segment_names_round_trip(epoch);
    lemma_segment_is_no_compact(next);
    compact_names_round_trip(epoch);
    lemma_names_differ(epoch, next);
    assert(tidy(e, h.n, h.first as int, next as int));
    assert forall|name: Seq<char>| #[trigger] e1.dom().contains(name) implies (segment_number(
        name,
    ) matches Some(q) ==> q <= epoch || (next <= q <= next && name == segment_name(q as u64))) by {
        if name != compact_name(epoch) {
            assert(e.dom().contains(name));
        }
    }
    assert forall|name: Seq<char>| #[trigger] e1.dom().contains(name) implies (compact_number(
        name,
    ) matches Some(q) ==> q < epoch || (q == epoch && name == compact_name(epoch))) by {
        if name != compact_name(epoch) {
            assert(e.dom().contains(name));
        }
    }
    assert(tidy(e1, epoch, next as int, next as int));
    assert(has_base(e1, g, l.ring));
    assert(content(e, segment_name(next)) + moved.log->0.pending == seg_magic() + log_of(
        k.raws.last(),
    ));
    assert(e.dom().contains(segment_name(next))) by {
        crate::wal::lemma_seg_magic();
    }
    assert(compact_name(epoch) != segment_name(next));
    assert(content(e1, segment_name(next)) == content(e, segment_name(next)));
    assert(g.raws.last() =~= k.raws.last());
    assert(g.raws.drop_first() =~= Seq::<Seq<Raw>>::empty());
    assert(joined_records(Seq::<Seq<Raw>>::empty()) =~= Seq::<Raw>::empty());
    assert(joined_records(g.raws) =~= Seq::<Raw>::empty());
    assert(g.recs(deks_of(l.ring)) =~= Seq::<Rec>::empty());
    assert(same_old(e1, e)) by {
        lemma_segment_is_no_shard(compact_name(epoch));
    }
    lemma_joined_push_segment(h.raws);
    lemma_compacted_agrees(e1, e, k, g, deks_of(l.ring));
}

/// A compaction whose snapshot could not be written is given up, and nothing is lost: `k`
/// operations of the queue were done, and of the next one the first `n` bytes.
pub proof fn failed_compaction_keeps_the_history(
    s: State,
    bytes: Seq<u8>,
    d: Dir,
    h: History,
    k: nat,
    n: nat,
)
    requires
        faithful(s, d, h),
        s.log->0.seq < u64::MAX,
        k < s.compacted(bytes).ops.len(),
    ensures
        ({
            let c = s.compacted(bytes);
            faithful(
                (State { ops: left_of(c.ops, k, n), ..c }).without_snapshot(),
                done_in_part(d, c.ops, k, n),
                h.going_on(),
            )
        }),
{
    let on = State { sync_on_write: true, ..s };
    assert(faithful(on, d, h));
    sync_keeps_the_history(on, d, h);
    rotation_keeps_the_history(on.synced(), d, h);
    let moved = on.synced().advanced();
    let c = s.compacted(bytes);
    let v = moved.ops;
    let left = left_of(c.ops, k, n);
    assert(c.ops.drop_last() =~= v);
    assert(left.last() == c.ops.last()) by {
        if k < v.len() {
            assert(left.last() == c.ops.skip(k as int + 1).last());
        }
    }
    carrying_out_keeps_the_history(moved, d, h.going_on(), k, n);
    if k < v.len() {
        assert(c.ops.take(k as int) =~= v.take(k as int));
        assert(c.ops[k as int] == v[k as int]);
        assert(left.drop_last() =~= left_of(v, k, n));
    } else {
        assert(c.ops.take(k as int) =~= v);
        assert(left.drop_last() =~= left_of(v, k, n));
    }
}

/// Removing what the newest compacted segment stands for keeps the history.
pub proof fn garbage_removal_keeps_the_history(s: State, names: Seq<String>, d: Dir, h: History)
    requires
        faithful(s, d, h),
        s.ops.len() == 0,
        h.n > 0,
    ensures
        faithful(State { ops: garbage_ops(names, h.n), ..s }, d, h),
{
    let l = s.log->0;
    let junk = garbage_ops(names, h.n);
    let t = State { ops: junk, ..s };
    assert(done_all(d, s.ops) == d);
    lemma_garbage(d, names, h.n);
    let e = done_all(d, junk);
    compact_names_round_trip(h.n);
    lemma_not_garbage(h.n, h.n);
    assert forall|i: int| 0 <= i < h.raws.len() implies !is_garbage(
        #[trigger] segment_name((h.first + i) as u64),
        h.n,
    ) by {
        lemma_not_garbage(h.n, (h.first + i) as u64);
    }
    assert(tidy(e, h.n, h.first as int, l.seq as int));
    assert(d.dom().contains(compact_name(h.n)));
    assert(has_base(e, h, l.ring));
    assert(has_segments(e, h, h.raws.len() - 1, deks_of(l.ring))) by {
        assert forall|i: int| 0 <= i < h.raws.len() - 1 implies {
            &&& e.dom().contains(#[trigger] segment_name((h.first + i) as u64))
            &&& file_holds(e[segment_name((h.first + i) as u64)], h.raws[i], deks_of(l.ring))
        } by {
            assert(d.dom().contains(segment_name((h.first + i) as u64)));
        }
    }
    assert((h.first + (h.raws.len() - 1)) as u64 == l.seq);
    assert(!is_garbage(segment_name(l.seq), h.n));
    assert(content(e, segment_name(l.seq)) == content(d, segment_name(l.seq)));
    assert(same_old(e, d)) by {
        assert forall|name: Seq<char>| is_shard_name(name) implies #[trigger] e.dom().contains(name)
            == d.dom().contains(name) && (e.dom().contains(name) ==> e[name] == d[name]) by {
            if is_garbage(name, h.n) {
                lemma_garbage_is_no_shard(name, h.n);
            }
        }
    }
    lemma_agrees(e, d, h, h, deks_of(l.ring));
}

/// After the removal none of the files is left that the compacted segment stands for.
pub proof fn no_garbage_is_left(d: Dir, names: Seq<String>, epoch: u64, name: Seq<char>)
    requires
        forall|x: Seq<char>|
            #[trigger]
            d.dom().contains(x) ==> exists|i: int| 0 <= i < names.len() && (#[trigger] names[i])@ == x,
        is_garbage(name, epoch),
    ensures
        !done_all(d, garbage_ops(names, epoch)).dom().contains(name),
{
    lemma_garbage(d, names, epoch);
    if d.dom().contains(name) {
        let i = choose|i: int| 0 <= i < names.len() && (#[trigger] names[i])@ == name;
        lemma_swept(d, names, epoch, i);
    }
}

proof fn lemma_swept(d: Dir, names: Seq<String>, epoch: u64, i: int)
    requires
        0 <= i < names.len(),
        is_garbage(names[i]@, epoch),
    ensures
        !done_all(d, garbage_ops(names, epoch)).dom().contains(names[i]@),
    decreases names.len(),
{
    let t = names.drop_last();
    if is_garbage(names.last()@, epoch) {
        lemma_done_push(d, garbage_ops(t, epoch), Op::Remove { name: names.last()@ });
    }
    if i < t.len() {
        assert(t[i] == names[i]);
        lemma_swept(d, t, epoch, i);
    }
}

/// What files with one shard each still hold is in the compacted segment.
proof fn lemma_compacted_agrees(d: Dir, e: Dir, h: History, g: History, keys: Option<Seq<Dek>>)
    requires
        agrees(e, h, keys),
        same_old(d, e),
        g.n > 0,
        g.start == h.told(keys),
        g.recs(keys).len() == 0,
    ensures
        agrees(d, g, keys),
{
    reveal(agrees);
    reveal(reads_over);
    lemma_same_old(d, e, keys);
}

/// Newer segments and the compacted one are no garbage.
proof fn lemma_not_garbage(epoch: u64, next: u64)
    ensures
        next > epoch ==> !is_garbage(segment_name(next), epoch),
        !is_garbage(compact_name(epoch), epoch),
{
    segment_names_round_trip(next);
    lemma_segment_is_no_compact(next);
    compact_names_round_trip(epoch);
    reveal_strlit(".seg");
    reveal_strlit(".seg.tmp");
    let a = segment_name(next);
    let b = compact_name(epoch);
    assert(a.last() == 'g');
    assert(b.last() == 'g');
    if crate::text::ends(a, ".seg.tmp"@) {
        assert(a.skip(a.len() - 8)[7] == 'p');
        assert(a[a.len() - 1] == 'p');
    }
    if crate::text::ends(b, ".seg.tmp"@) {
        assert(b.skip(b.len() - 8)[7] == 'p');
        assert(b[b.len() - 1] == 'p');
    }
}

} // verus!
