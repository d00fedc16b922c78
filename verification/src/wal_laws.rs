//! What holds of every log: what is written is read back, a record that was cut
//! short is no record, and a closed segment is nothing but whole records.
use vstd::prelude::*;

use crate::bytes::{be32, be32_round_trip, be64, be64_round_trip, len32, u32_of};
use crate::keyring::{unseal_any, Dek};
use crate::wal::{
    digest, frame, hashes_body, joined, lemma_seg_magic, next_frame, parse_body, parse_sealed_plain,
    put_body, put_head, scan, sealed_body, sealed_plain, seg_magic, segment, KIND_PURGE,
    KIND_PURGE_HASHES, KIND_PUT_PLAIN, KIND_PUT_SEALED, KIND_WIPE, Next, Piece, Rec, Scan, WalError,
};

verus! {

broadcast use crate::bytes::group_be;

/// A record before it is framed: its kind and its body.
pub struct Raw {
    pub kind: u8,
    pub body: Seq<u8>,
}

/// The records of `list`, framed, in a row.
pub open spec fn log_of(list: Seq<Raw>) -> Seq<u8>
    decreases list.len(),
{
    if list.len() == 0 {
        Seq::empty()
    } else {
        frame(list[0].kind, list[0].body) + log_of(list.drop_first())
    }
}

/// Whether each of the records can be framed and makes sense.
pub open spec fn sound(list: Seq<Raw>, keys: Option<Seq<Dek>>) -> bool {
    forall|i: int|
        0 <= i < list.len() ==> {
            &&& (#[trigger] list[i]).body.len() < u32::MAX
            &&& parse_body(list[i].kind, list[i].body, keys) is Ok
        }
}

/// The records as they are read.
pub open spec fn meaning(list: Seq<Raw>, keys: Option<Seq<Dek>>) -> Seq<Rec> {
    list.map_values(|r: Raw| parse_body(r.kind, r.body, keys)->Ok_0)
}

/// A framed record is read as it was written, whatever follows it.
pub proof fn framed_record_is_found(kind: u8, body: Seq<u8>, rest: Seq<u8>)
    requires
        body.len() < u32::MAX,
    ensures
        next_frame(frame(kind, body) + rest) == (Next::Whole {
            kind,
            body,
            len: frame(kind, body).len() as int,
        }),
        frame(kind, body).len() == 13 + body.len(),
        (frame(kind, body) + rest).skip(frame(kind, body).len() as int) == rest,
{
    let f = frame(kind, body);
    let s = f + rest;
    let n = 1 + body.len() as int;
    assert(digest(kind, body).len() == 8);
    assert(f.len() == 13 + body.len());
    be32_round_trip(n as u32);
    assert(s.subrange(0, 4) =~= be32(len32(n as nat)));
    assert(s.subrange(4, 4 + n) =~= seq![kind] + body);
    assert(s.subrange(4 + n, 12 + n) =~= digest(kind, body));
    assert(s.subrange(5, 4 + n) =~= body);
    assert(s.skip(f.len() as int) =~= rest);
}

/// A record that was cut short is no record.
pub proof fn cut_record_is_torn(kind: u8, body: Seq<u8>, n: int)
    requires
        body.len() < u32::MAX,
        0 <= n < frame(kind, body).len(),
    ensures
        next_frame(frame(kind, body).take(n)) == Next::Torn,
{
    let f = frame(kind, body);
    let s = f.take(n);
    framed_record_is_found(kind, body, Seq::empty());
    if n >= 4 {
        be32_round_trip((1 + body.len()) as u32);
        assert(s.subrange(0, 4) =~= be32(len32(1 + body.len())));
    }
}

/// What was written is read back, in order, up to a tail that begins no whole
/// record.
pub proof fn log_is_read_back(list: Seq<Raw>, tail: Seq<u8>, keys: Option<Seq<Dek>>)
    requires
        sound(list, keys),
        next_frame(tail) == Next::Torn,
    ensures
        scan(log_of(list) + tail, keys) == Ok::<Scan, WalError>(
            Scan { records: meaning(list, keys), rest: tail },
        ),
    decreases list.len(),
{
    if list.len() == 0 {
        assert(log_of(list) + tail =~= tail);
        assert(meaning(list, keys) =~= Seq::<Rec>::empty());
    } else {
        let r = list[0];
        let more = list.drop_first();
        let rest = log_of(more) + tail;
        assert(log_of(list) + tail =~= frame(r.kind, r.body) + rest);
        framed_record_is_found(r.kind, r.body, rest);
        assert(sound(more, keys)) by {
            assert forall|i: int| 0 <= i < more.len() implies {
                &&& (#[trigger] more[i]).body.len() < u32::MAX
                &&& parse_body(more[i].kind, more[i].body, keys) is Ok
            } by {
                assert(more[i] == list[i + 1]);
            }
        }
        log_is_read_back(more, tail, keys);
        assert(seq![parse_body(r.kind, r.body, keys)->Ok_0] + meaning(more, keys) =~= meaning(
            list,
            keys,
        ));
    }
}

/// A segment whose last record was cut short by a crash gives the records before
/// it: no more, no fewer, and no error.
pub proof fn crash_loses_only_the_cut_record(
    list: Seq<Raw>,
    last: Raw,
    n: int,
    keys: Option<Seq<Dek>>,
)
    requires
        sound(list, keys),
        last.body.len() < u32::MAX,
        0 <= n < frame(last.kind, last.body).len(),
    ensures
        segment(seg_magic() + log_of(list) + frame(last.kind, last.body).take(n), keys) == Ok::<
            Scan,
            WalError,
        >(Scan { records: meaning(list, keys), rest: frame(last.kind, last.body).take(n) }),
{
    let tail = frame(last.kind, last.body).take(n);
    cut_record_is_torn(last.kind, last.body, n);
    log_is_read_back(list, tail, keys);
    lemma_seg_magic();
    let b = seg_magic() + log_of(list) + tail;
    assert(b.subrange(0, 8) =~= seg_magic());
    assert(b.skip(8) =~= log_of(list) + tail);
}

/// A segment that was written whole is read back whole.
pub proof fn whole_segment_is_read_back(list: Seq<Raw>, keys: Option<Seq<Dek>>)
    requires
        sound(list, keys),
    ensures
        segment(seg_magic() + log_of(list), keys) == Ok::<Scan, WalError>(
            Scan { records: meaning(list, keys), rest: Seq::empty() },
        ),
{
    log_is_read_back(list, Seq::empty(), keys);
    lemma_seg_magic();
    let b = seg_magic() + log_of(list);
    assert(b.subrange(0, 8) =~= seg_magic());
    assert(b.skip(8) =~= log_of(list) + Seq::<u8>::empty());
}

/// A log with one more record behind it.
pub proof fn log_of_push(list: Seq<Raw>, r: Raw)
    ensures
        log_of(list.push(r)) == log_of(list) + frame(r.kind, r.body),
    decreases list.len(),
{
    if list.len() == 0 {
        assert(list.push(r).drop_first() =~= Seq::<Raw>::empty());
        assert(log_of(list.push(r).drop_first()) =~= Seq::<u8>::empty());
        assert(log_of(list.push(r)) =~= log_of(list) + frame(r.kind, r.body));
    } else {
        assert(list.push(r).drop_first() =~= list.drop_first().push(r));
        log_of_push(list.drop_first(), r);
        assert(log_of(list.push(r)) =~= log_of(list) + frame(r.kind, r.body));
    }
}

/// What was left unread of a scan begins no whole record, and what was read is a
/// row of whole records.
pub proof fn scan_reads_whole_records(s: Seq<u8>, keys: Option<Seq<Dek>>) -> (list: Seq<Raw>)
    requires
        scan(s, keys) is Ok,
    ensures
        s == log_of(list) + scan(s, keys)->Ok_0.rest,
        sound(list, keys),
        meaning(list, keys) == scan(s, keys)->Ok_0.records,
        next_frame(scan(s, keys)->Ok_0.rest) == Next::Torn,
    decreases s.len(),
{
    match next_frame(s) {
        Next::Torn => {
            let list = Seq::<Raw>::empty();
            assert(log_of(list) + s =~= s);
            assert(meaning(list, keys) =~= Seq::<Rec>::empty());
            list
        },
        Next::Zero => Seq::empty(),
        Next::Whole { kind, body, len } => {
            let rest = s.skip(len);
            let more = scan_reads_whole_records(rest, keys);
            let list = seq![Raw { kind, body }] + more;
            let n = u32_of(s.subrange(0, 4)) as int;
            assert(list.drop_first() =~= more);
            assert(s.subrange(4, 4 + n) =~= seq![kind] + body);
            crate::bytes::u32_round_trip(s.subrange(0, 4));
            assert(s.subrange(4 + n, 12 + n) == digest(kind, body));
            assert(s =~= frame(kind, body) + rest);
            assert(s =~= log_of(list) + scan(s, keys)->Ok_0.rest);
            assert(meaning(list, keys) =~= scan(s, keys)->Ok_0.records) by {
                assert(meaning(list, keys) =~= seq![parse_body(kind, body, keys)->Ok_0] + meaning(
                    more,
                    keys,
                ));
            }
            assert(sound(list, keys)) by {
                assert forall|i: int| 0 <= i < list.len() implies {
                    &&& (#[trigger] list[i]).body.len() < u32::MAX
                    &&& parse_body(list[i].kind, list[i].body, keys) is Ok
                } by {
                    if i > 0 {
                        assert(list[i] == more[i - 1]);
                    }
                }
            }
            list
        },
    }
}

/// The record of a plain put is read as the shard that was put.
pub proof fn plain_put_is_read_back(
    object_id: u64,
    channel: u8,
    layer: u8,
    hash: Seq<u8>,
    shard: Piece,
    keys: Option<Seq<Dek>>,
)
    requires
        hash.len() == 32,
        shard.coeffs.len() <= u32::MAX,
        shard.payload.len() <= u32::MAX,
    ensures
        parse_body(
            KIND_PUT_PLAIN,
            put_body(put_head(object_id, channel, layer, hash), shard),
            keys,
        ) == Ok::<Rec, WalError>(Rec::Put { object_id, channel, layer, hash, shard }),
{
    reveal(parse_body);
    let head = put_head(object_id, channel, layer, hash);
    let b = put_body(head, shard);
    let c = shard.coeffs.len() as int;
    let p = shard.payload.len() as int;
    be64_round_trip(object_id);
    be32_round_trip(c as u32);
    be32_round_trip(p as u32);
    assert(head.len() == 42);
    assert(b.subrange(0, 8) =~= be64(object_id));
    assert(b.subrange(10, 42) =~= hash);
    assert(b.subrange(42, 46) =~= be32(c as u32));
    assert(b.subrange(46, 50) =~= be32(p as u32));
    assert(b.subrange(50, 50 + c) =~= shard.coeffs);
    assert(b.subrange(50 + c, 50 + c + p) =~= shard.payload);
}

/// The record of a sealed put is read as the shard that was put, with any ring
/// that opens its blob to what was sealed.
pub proof fn sealed_put_is_read_back(
    object_id: u64,
    channel: u8,
    layer: u8,
    hash: Seq<u8>,
    shard: Piece,
    blob: Seq<u8>,
    deks: Seq<Dek>,
)
    requires
        hash.len() == 32,
        shard.coeffs.len() <= u32::MAX,
        28 <= blob.len() <= u32::MAX,
        unseal_any(deks, put_head(object_id, channel, layer, hash), blob) == Some(sealed_plain(shard)),
    ensures
        parse_body(
            KIND_PUT_SEALED,
            sealed_body(put_head(object_id, channel, layer, hash), blob),
            Some(deks),
        ) == Ok::<Rec, WalError>(Rec::Put { object_id, channel, layer, hash, shard }),
{
    reveal(parse_body);
    let head = put_head(object_id, channel, layer, hash);
    let b = sealed_body(head, blob);
    let c = shard.coeffs.len() as int;
    let p = sealed_plain(shard);
    be64_round_trip(object_id);
    be32_round_trip(c as u32);
    be32_round_trip(blob.len() as u32);
    assert(head.len() == 42);
    assert(b.subrange(0, 42) =~= head);
    assert(b.subrange(42, 46) =~= be32(blob.len() as u32));
    assert(b.subrange(46, 46 + blob.len() as int) =~= blob);
    assert(head.subrange(0, 8) =~= be64(object_id));
    assert(head.subrange(10, 42) =~= hash);
    assert(p.subrange(0, 4) =~= be32(c as u32));
    assert(p.subrange(4, 4 + c) =~= shard.coeffs);
    assert(p.subrange(4 + c, p.len() as int) =~= shard.payload);
    assert(parse_sealed_plain(head, p) == Ok::<Rec, WalError>(
        Rec::Put { object_id, channel, layer, hash, shard },
    ));
}

/// The record of a purge is read as the object that was purged.
pub proof fn purge_is_read_back(object_id: u64, keys: Option<Seq<Dek>>)
    ensures
        parse_body(KIND_PURGE, be64(object_id), keys) == Ok::<Rec, WalError>(Rec::Purge { object_id }),
{
    reveal(parse_body);
    be64_round_trip(object_id);
}

/// The record of a wipe is read as a wipe.
pub proof fn wipe_is_read_back(keys: Option<Seq<Dek>>)
    ensures
        parse_body(KIND_WIPE, Seq::empty(), keys) == Ok::<Rec, WalError>(Rec::Wipe),
{
    reveal(parse_body);
}

proof fn lemma_joined(hashes: Seq<Seq<u8>>)
    requires
        forall|i: int| 0 <= i < hashes.len() ==> (#[trigger] hashes[i]).len() == 32,
    ensures
        joined(hashes).len() == hashes.len() * 32,
        forall|i: int|
            0 <= i < hashes.len() ==> joined(hashes).subrange(i * 32, i * 32 + 32) == #[trigger] hashes[i],
    decreases hashes.len(),
{
    if hashes.len() > 0 {
        let t = hashes.drop_last();
        assert(forall|i: int| 0 <= i < t.len() ==> (#[trigger] t[i]) == hashes[i]);
        lemma_joined(t);
        assert(hashes.last().len() == 32);
        assert forall|i: int| 0 <= i < hashes.len() implies joined(hashes).subrange(
            i * 32,
            i * 32 + 32,
        ) == #[trigger] hashes[i] by {
            if i < t.len() {
                assert(joined(t).subrange(i * 32, i * 32 + 32) == t[i]);
                assert(joined(hashes).subrange(i * 32, i * 32 + 32) =~= joined(t).subrange(
                    i * 32,
                    i * 32 + 32,
                ));
            } else {
                assert(joined(hashes).subrange(i * 32, i * 32 + 32) =~= hashes.last());
            }
        }
    }
}

/// The record of a purge by hashes is read as those hashes.
pub proof fn purge_hashes_is_read_back(hashes: Seq<Seq<u8>>, keys: Option<Seq<Dek>>)
    requires
        hashes.len() <= u32::MAX,
        forall|i: int| 0 <= i < hashes.len() ==> (#[trigger] hashes[i]).len() == 32,
    ensures
        parse_body(KIND_PURGE_HASHES, hashes_body(hashes), keys) == Ok::<Rec, WalError>(
            Rec::PurgeHashes { hashes },
        ),
{
    reveal(parse_body);
    let b = hashes_body(hashes);
    lemma_joined(hashes);
    be32_round_trip(hashes.len() as u32);
    assert(b.subrange(0, 4) =~= be32(hashes.len() as u32));
    let got = Seq::new(hashes.len(), |i: int| b.subrange(4 + i * 32, 36 + i * 32));
    assert forall|i: int| 0 <= i < hashes.len() implies got[i] == hashes[i] by {
        assert(joined(hashes).subrange(i * 32, i * 32 + 32) == hashes[i]);
        assert(b.subrange(4 + i * 32, 36 + i * 32) =~= joined(hashes).subrange(i * 32, i * 32 + 32));
    }
    assert(got =~= hashes);
}

} // verus!
