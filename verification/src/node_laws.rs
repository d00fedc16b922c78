//! What a node promises those who ask it, over all requests: what is acknowledged is safe, what is
//! handed back is what is held, and a purge takes what it names and nothing else.
use vstd::prelude::*;

use crate::chaos::{ErrorKind, Fault};
use crate::crypto::sha256_of;
use crate::live::{holds, is_slot, keep, lemma_keep, lemma_place, not_due, place, stored, Item};
use crate::node::{
    batch_run, handled, last_seq, purged, DiskError, Dropping, Request, Response, Step, Surroundings,
};
use crate::shard_file::{shard_digest, Key};
use crate::store::{
    hash_purge_step, object_purge_step, pieces, sum_bytes, under, unwritten, State,
};
use crate::wal::{hash_views, Piece, Shard, ShardHash};

verus! {

/// Whether two keys name the same object, channel and layer.
pub open spec fn same_place(a: Key, b: Key) -> bool {
    a.0 == b.0 && a.1 == b.1 && a.2 == b.2
}

/// What a put leaves alone besides the items.
proof fn lemma_put_numbers(s: State, key: Key, shard: Piece, now: u64, t: State, r: (bool, u64))
    requires
        s.put_step(key, shard, now, t, r),
        s.log is Some,
        s.next_seq < u64::MAX,
    ensures
        t.log is Some,
        r.1 == t.next_seq,
        t.next_seq == s.next_seq + if r.0 {
            1int
        } else {
            0
        },
        t.synced_seq == s.synced_seq,
{
}

/// The number that the log has reached after each put of a batch.
proof fn lemma_batch_numbers(
    before: State,
    key: Key,
    shards: Seq<Piece>,
    now: u64,
    states: Seq<State>,
    rs: Seq<(bool, u64)>,
    n: int,
)
    requires
        batch_run(before, key, shards, now, states, rs),
        before.log is Some,
        before.next_seq + shards.len() <= u64::MAX,
        0 <= n <= shards.len(),
    ensures
        states[n].log is Some,
        before.next_seq <= states[n].next_seq <= before.next_seq + n,
        forall|i: int| 0 <= i < n ==> (#[trigger] rs[i]).1 <= states[n].next_seq,
        n > 0 ==> rs[n - 1].1 == states[n].next_seq,
        n > 0 ==> last_seq(rs.take(n)) == states[n].next_seq,
    decreases n,
{
    if n > 0 {
        lemma_batch_numbers(before, key, shards, now, states, rs, n - 1);
        let s = states[n - 1];
        assert(s.put_step(key, shards[n - 1], now, states[n - 1 + 1], rs[n - 1]));
        lemma_put_numbers(s, key, shards[n - 1], now, states[n], rs[n - 1]);
        let t = rs.take(n);
        assert(t.drop_last() =~= rs.take(n - 1));
        assert(t.last() == rs[n - 1]);
        if n == 1 {
            assert(t.drop_last().len() == 0);
            assert(last_seq(t.drop_last()) == 0);
        }
        assert(last_seq(t.drop_last()) <= states[n].next_seq);
    }
}

/// A batch is acknowledged no earlier than every put of it is safe: the number that the answer waits
/// for is not below that of any put, and the last put has it.
pub proof fn batch_waits_for_every_put(
    before: State,
    key: Key,
    shards: Seq<Piece>,
    now: u64,
    states: Seq<State>,
    rs: Seq<(bool, u64)>,
)
    requires
        batch_run(before, key, shards, now, states, rs),
        before.log is Some,
        before.next_seq + shards.len() <= u64::MAX,
        shards.len() > 0,
    ensures
        forall|i: int| 0 <= i < rs.len() ==> (#[trigger] rs[i]).1 <= last_seq(rs),
        last_seq(rs) == rs.last().1,
        last_seq(rs) == states.last().next_seq,
{
    let n = shards.len() as int;
    lemma_batch_numbers(before, key, shards, now, states, rs, n);
    assert(rs.take(n) =~= rs);
}

/// The answer to a batch waits until the log has reached every shard of it: with a log, and at least
/// one shard, for as many puts as were ever logged.
pub proof fn acknowledged_batch_is_safe(
    before: State,
    object_id: u64,
    channel: u8,
    layer: u8,
    shards: Vec<Shard>,
    seed: Seq<u8>,
    env: Surroundings,
    after: State,
    step: Step,
)
    requires
        handled(
            before,
            Request::PutBatch { object_id, channel, layer, shards },
            seed,
            env,
            after,
            step,
        ),
        before.log is Some,
        before.next_seq + shards@.len() <= u64::MAX,
        shards@.len() > 0,
    ensures
        step matches Step::Answer { resp, wait_for } && resp is Ack && wait_for == after.next_seq,
{
    let key = (object_id, channel, layer);
    let wait_for = step->wait_for;
    let (states, rs) = choose|states: Seq<State>, rs: Seq<(bool, u64)>|
        {
            &&& #[trigger] batch_run(before, key, pieces(shards@), env.now, states, rs)
            &&& after == states.last()
            &&& wait_for == last_seq(rs)
        };
    batch_waits_for_every_put(before, key, pieces(shards@), env.now, states, rs);
}

/// What is held at the slot of each shard of a batch once the batch was put.
proof fn lemma_batch_holds(
    before: State,
    key: Key,
    shards: Seq<Piece>,
    now: u64,
    states: Seq<State>,
    rs: Seq<(bool, u64)>,
    n: int,
    k: int,
)
    requires
        batch_run(before, key, shards, now, states, rs),
        !before.append_fails(),
        0 <= k < n <= shards.len(),
    ensures
        !states[n].append_fails(),
        is_held(states[n].items, key, shard_digest(shards[k])),
    decreases n,
{
    let s = states[n - 1];
    if n > 1 {
        lemma_batch_faults(before, key, shards, now, states, rs, n - 1);
    }
    assert(s.put_step(key, shards[n - 1], now, states[n - 1 + 1], rs[n - 1]));
    put_shard_is_held(s, key, shards[n - 1], now, states[n], rs[n - 1]);
    lemma_batch_faults(before, key, shards, now, states, rs, n);
    if k < n - 1 {
        lemma_batch_holds(before, key, shards, now, states, rs, n - 1, k);
        put_keeps_what_was_held(
            s,
            key,
            shards[n - 1],
            now,
            states[n],
            rs[n - 1],
            key,
            shard_digest(shards[k]),
        );
    }
}

proof fn lemma_batch_faults(
    before: State,
    key: Key,
    shards: Seq<Piece>,
    now: u64,
    states: Seq<State>,
    rs: Seq<(bool, u64)>,
    n: int,
)
    requires
        batch_run(before, key, shards, now, states, rs),
        !before.append_fails(),
        0 <= n <= shards.len(),
    ensures
        !states[n].append_fails(),
    decreases n,
{
    if n > 0 {
        lemma_batch_faults(before, key, shards, now, states, rs, n - 1);
        assert(states[n - 1].put_step(key, shards[n - 1], now, states[n - 1 + 1], rs[n - 1]));
    }
}

/// After a batch every shard of it is held under its key, unless the log refuses.
pub proof fn every_shard_of_a_batch_is_held(
    before: State,
    object_id: u64,
    channel: u8,
    layer: u8,
    shards: Vec<Shard>,
    seed: Seq<u8>,
    env: Surroundings,
    after: State,
    step: Step,
    k: int,
)
    requires
        handled(
            before,
            Request::PutBatch { object_id, channel, layer, shards },
            seed,
            env,
            after,
            step,
        ),
        !before.append_fails(),
        0 <= k < shards@.len(),
    ensures
        is_held(after.items, (object_id, channel, layer), shard_digest(shards@[k]@)),
{
    let key = (object_id, channel, layer);
    let wait_for = step->wait_for;
    let (states, rs) = choose|states: Seq<State>, rs: Seq<(bool, u64)>|
        {
            &&& #[trigger] batch_run(before, key, pieces(shards@), env.now, states, rs)
            &&& after == states.last()
            &&& wait_for == last_seq(rs)
        };
    assert(pieces(shards@)[k] == shards@[k]@);
    lemma_batch_holds(
        before,
        key,
        pieces(shards@),
        env.now,
        states,
        rs,
        shards@.len() as int,
        k,
    );
}

/// Whether some item is the shard with this hash under this key.
pub open spec fn is_held(items: Seq<Item>, key: Key, hash: Seq<u8>) -> bool {
    exists|i: int|
        0 <= i < items.len() && same_place((#[trigger] items[i]).key, key) && items[i].hash == hash
}

/// What is looked up is found exactly where some item is it.
pub proof fn lookup_finds_what_is_there(items: Seq<Item>, key: Key, hash: Seq<u8>)
    ensures
        holds(items, key, hash) <==> is_held(items, key, hash),
        holds(items, key, hash) ==> 0 <= place(items, key, hash) < items.len() && same_place(
            items[place(items, key, hash)].key,
            key,
        ) && items[place(items, key, hash)].hash == hash,
{
    lemma_place(items, key, hash);
    if is_held(items, key, hash) {
        let i = choose|i: int|
            0 <= i < items.len() && same_place((#[trigger] items[i]).key, key) && items[i].hash == hash;
        assert(is_slot(items[i], key, hash));
        if !holds(items, key, hash) {
            assert(!is_slot(items[i], key, hash));
        }
    }
    if holds(items, key, hash) {
        assert(is_slot(items[place(items, key, hash)], key, hash));
    }
}

/// A shard that was put is held under its key, marked as written now, unless the log refuses it.
pub proof fn put_shard_is_held(s: State, key: Key, shard: Piece, now: u64, t: State, r: (bool, u64))
    requires
        s.put_step(key, shard, now, t, r),
        !s.append_fails(),
    ensures
        is_held(t.items, key, shard_digest(shard)),
        exists|i: int|
            {
                &&& 0 <= i < t.items.len()
                &&& same_place((#[trigger] t.items[i]).key, key)
                &&& t.items[i].hash == shard_digest(shard)
                &&& t.items[i].epoch == now
                &&& r.0 ==> t.items[i].shard == shard
            },
        r.0 <==> !is_held(s.items, key, shard_digest(shard)),
{
    let hash = shard_digest(shard);
    lookup_finds_what_is_there(s.items, key, hash);
    lemma_place(s.items, key, hash);
    let i = place(s.items, key, hash);
    assert(t.items[i].hash == hash && same_place(t.items[i].key, key));
}

/// A put takes nothing away, and alters nothing under another key or with another hash.
pub proof fn put_keeps_what_was_held(
    s: State,
    key: Key,
    shard: Piece,
    now: u64,
    t: State,
    r: (bool, u64),
    k: Key,
    h: Seq<u8>,
)
    requires
        s.put_step(key, shard, now, t, r),
    ensures
        is_held(s.items, k, h) ==> is_held(t.items, k, h),
        !(same_place(k, key) && h == shard_digest(shard)) ==> forall|x: Item|
            same_place(x.key, k) && x.hash == h ==> (s.items.contains(x) <==> #[trigger] t.items.contains(
                x,
            )),
{
    let hash = shard_digest(shard);
    lemma_place(s.items, key, hash);
    let p = place(s.items, key, hash);
    if is_held(s.items, k, h) {
        let i = choose|i: int|
            0 <= i < s.items.len() && same_place((#[trigger] s.items[i]).key, k) && s.items[i].hash == h;
        assert(same_place(t.items[i].key, k) && t.items[i].hash == h);
    }
    if !(same_place(k, key) && h == hash) {
        assert forall|x: Item| same_place(x.key, k) && x.hash == h implies (s.items.contains(x)
            <==> #[trigger] t.items.contains(x)) by {
            if s.items.contains(x) {
                let i = choose|i: int| 0 <= i < s.items.len() && s.items[i] == x;
                if i == p {
                    assert(is_slot(s.items[p], key, hash));
                }
                assert(t.items[i] == x);
            }
            if t.items.contains(x) {
                let i = choose|i: int| 0 <= i < t.items.len() && t.items[i] == x;
                if i < s.items.len() && i != p {
                    assert(s.items[i] == x);
                }
            }
        }
    }
}

/// The answer to a put waits for the log, where there is one, and the shard is then held.
pub proof fn acknowledged_put_is_safe(
    before: State,
    object_id: u64,
    channel: u8,
    layer: u8,
    shard: Shard,
    seed: Seq<u8>,
    env: Surroundings,
    after: State,
    step: Step,
)
    requires
        handled(before, Request::Put { object_id, channel, layer, shard }, seed, env, after, step),
        before.next_seq < u64::MAX,
    ensures
        step matches Step::Answer { resp, wait_for } && resp is Ack && (before.log is Some ==> wait_for
            == after.next_seq),
        !before.append_fails() ==> is_held(after.items, (object_id, channel, layer), shard_digest(shard@)),
{
    let key = (object_id, channel, layer);
    let wait_for = step->wait_for;
    let r = choose|r: (bool, u64)|
        #[trigger] before.put_step(key, shard@, env.now, after, r) && wait_for == r.1;
    if before.log is Some {
        lemma_put_numbers(before, key, shard@, env.now, after, r);
    }
    if !before.append_fails() {
        put_shard_is_held(before, key, shard@, env.now, after, r);
    }
}

/// A put that is stored makes the log one put longer, and is numbered by that.
pub proof fn stored_put_has_the_next_number(
    s: State,
    key: Key,
    shard: Piece,
    now: u64,
    t: State,
    n: u64,
)
    requires
        s.put_step(key, shard, now, t, (true, n)),
        s.log is Some,
        s.next_seq < u64::MAX,
    ensures
        n == s.next_seq + 1,
        t.next_seq == n,
        t.synced_seq == s.synced_seq,
        t.flushed_seq == s.flushed_seq,
        t.log->0.pending.len() > s.log->0.pending.len(),
{
    let l = s.log->0;
    let head = crate::wal::put_head(key.0, key.1, key.2, shard_digest(shard));
    let (kind, body) = choose|kind: u8, body: Seq<u8>|
        {
            &&& crate::wal::is_put_record(l.ring, head, shard, kind, body)
            &&& t.log->0 == #[trigger] l.recorded(kind, body)
        };
    assert(crate::wal::frame(kind, body).len() > 0);
}

/// Among the shards under a key are those of that object, channel and layer, and no other.
pub proof fn shards_under_a_key_are_its_own(items: Seq<Item>, k: Key, x: Item)
    ensures
        under(items, k).contains(x) <==> items.contains(x) && x.key.0 == k.0 && x.key.1 == k.1
            && x.key.2 == k.2,
{
    lemma_keep(items, |i: Item| i.key == k);
}

/// What stands behind other items stands behind them among the shards under its key too, and under
/// no other.
pub proof fn shards_under_a_key_keep_their_order(items: Seq<Item>, it: Item, k: Key)
    ensures
        under(Seq::empty(), k).len() == 0,
        under(items.push(it), k) == if it.key.0 == k.0 && it.key.1 == k.1 && it.key.2 == k.2 {
            under(items, k).push(it)
        } else {
            under(items, k)
        },
    decreases items.len(),
{
    let p = |i: Item| i.key == k;
    if items.len() == 0 {
        assert(items.push(it).drop_first() =~= items);
        assert(under(items, k) =~= Seq::<Item>::empty());
        assert(keep(items.push(it).drop_first(), p) =~= Seq::<Item>::empty());
        assert(under(items.push(it), k) =~= if it.key == k {
            seq![it]
        } else {
            Seq::empty()
        });
        assert(under(items, k).push(it) =~= seq![it]);
    } else {
        let t = items.drop_first();
        shards_under_a_key_keep_their_order(t, it, k);
        assert(items.push(it).drop_first() =~= t.push(it));
        assert((seq![items[0]] + under(t, k)).push(it) =~= seq![items[0]] + under(t, k).push(it));
    }
}

/// Putting an item where it was not held under another key changes nothing under this one.
pub proof fn put_under_another_key_changes_nothing_here(items: Seq<Item>, it: Item, k: Key)
    requires
        !same_place(it.key, k),
        !holds(items, it.key, it.hash),
    ensures
        under(stored(items, it), k) == under(items, k),
{
    shards_under_a_key_keep_their_order(items, it, k);
}

/// A node hands back exactly the shards that are held for that object, channel and layer, and
/// changes nothing by it.
pub proof fn get_hands_back_what_is_held(
    before: State,
    object_id: u64,
    channel: u8,
    layer: u8,
    seed: Seq<u8>,
    env: Surroundings,
    after: State,
    step: Step,
    x: Piece,
)
    requires
        handled(before, Request::Get { object_id, channel, layer }, seed, env, after, step),
    ensures
        after == before,
        step matches Step::Answer { resp: Response::Shards(v), wait_for } && wait_for == 0 && (
        pieces(v@).contains(x) <==> exists|i: int|
            {
                &&& 0 <= i < before.items.len()
                &&& (#[trigger] before.items[i]).key.0 == object_id
                &&& before.items[i].key.1 == channel
                &&& before.items[i].key.2 == layer
                &&& before.items[i].shard == x
            }),
{
    let k = (object_id, channel, layer);
    let v = step->resp->Shards_0;
    let u = under(before.items, k);
    assert(pieces(v@) == u.map_values(|i: Item| i.shard));
    if pieces(v@).contains(x) {
        let j = choose|j: int| 0 <= j < pieces(v@).len() && pieces(v@)[j] == x;
        assert(u.contains(u[j]));
        shards_under_a_key_are_its_own(before.items, k, u[j]);
        let i = choose|i: int| 0 <= i < before.items.len() && before.items[i] == u[j];
        assert(before.items[i].shard == x);
    }
    if exists|i: int|
        {
            &&& 0 <= i < before.items.len()
            &&& (#[trigger] before.items[i]).key.0 == object_id
            &&& before.items[i].key.1 == channel
            &&& before.items[i].key.2 == layer
            &&& before.items[i].shard == x
        } {
        let i = choose|i: int|
            {
                &&& 0 <= i < before.items.len()
                &&& (#[trigger] before.items[i]).key.0 == object_id
                &&& before.items[i].key.1 == channel
                &&& before.items[i].key.2 == layer
                &&& before.items[i].shard == x
            };
        let it = before.items[i];
        assert(before.items.contains(it));
        shards_under_a_key_are_its_own(before.items, k, it);
        let j = choose|j: int| 0 <= j < u.len() && u[j] == it;
        assert(pieces(v@)[j] == x);
    }
}

/// Every shard that is handed back is one of a row, whole: its coefficients and its payload.
pub proof fn shards_are_handed_back_whole(v: Seq<Shard>, i: int)
    requires
        0 <= i < v.len(),
    ensures
        pieces(v).len() == v.len(),
        pieces(v)[i].coeffs == v[i].coeffs@,
        pieces(v)[i].payload == v[i].payload@,
{
}

/// An audit gives the very shard with that hash under that key, and nothing where there is none.
pub proof fn audit_gives_the_shard_that_is_held(
    before: State,
    object_id: u64,
    channel: u8,
    layer: u8,
    shard_hash: ShardHash,
    seed: Seq<u8>,
    env: Surroundings,
    after: State,
    step: Step,
)
    requires
        handled(
            before,
            Request::Audit { object_id, channel, layer, shard_hash },
            seed,
            env,
            after,
            step,
        ),
    ensures
        after == before,
        step matches Step::Answer { resp: Response::AuditResp { shard }, wait_for } && wait_for == 0 && match shard {
            Some(s) => exists|i: int|
                {
                    &&& 0 <= i < before.items.len()
                    &&& (#[trigger] before.items[i]).key.0 == object_id
                    &&& before.items[i].key.1 == channel
                    &&& before.items[i].key.2 == layer
                    &&& before.items[i].hash == shard_hash@
                    &&& before.items[i].shard == s@
                },
            None => !is_held(before.items, (object_id, channel, layer), shard_hash@),
        },
{
    let k = (object_id, channel, layer);
    lookup_finds_what_is_there(before.items, k, shard_hash@);
    lemma_place(before.items, k, shard_hash@);
    let i = place(before.items, k, shard_hash@);
    if holds(before.items, k, shard_hash@) {
        assert(before.items[i].hash == shard_hash@);
    }
}

/// The requests that only look: they change nothing, wait for nothing, and tell how many shards
/// there are, which, and how late it is.
pub proof fn looking_changes_nothing(
    before: State,
    req: Request,
    seed: Seq<u8>,
    env: Surroundings,
    after: State,
    step: Step,
)
    requires
        handled(before, req, seed, env, after, step),
        !(req is Put),
        !(req is PutBatch),
        !(req is Purge),
        !(req is PurgeByHash),
        !(req is PurgeByHashUpTo),
    ensures
        after == before,
        step matches Step::Answer { resp, wait_for } && wait_for == 0,
        req is Ping ==> step->resp is Pong,
        req is Stat && before.items.len() <= u32::MAX ==> step->resp is StatResp
            && step->resp->total_shards == before.items.len(),
        req is CurrentEpoch ==> step->resp is Epoch && step->resp->epoch == env.now,
        req is ListHashes ==> step->resp is Hashes && step->resp->Hashes_0@.len() == before.items.len()
            && forall|i: int|
            0 <= i < before.items.len() ==> (#[trigger] step->resp->Hashes_0@[i])@
                == before.items[i].hash,
        req is Capacity && before.log is Some ==> step->resp is Capacity && step->resp->free_bytes
            == env.free_bytes && step->resp->total_bytes == env.total_bytes,
        req is Capacity && before.log is None ==> step->resp is Capacity && step->resp->free_bytes == 0
            && step->resp->total_bytes == 0,
        req is Capacity ==> step->resp->live_bytes == sum_bytes(before.items),
{
    if req is ListHashes {
        let v = step->resp->Hashes_0;
        assert(hash_views(v@) == before.items.map_values(|i: Item| i.hash));
        assert forall|i: int| 0 <= i < before.items.len() implies (#[trigger] v@[i])@
            == before.items[i].hash by {
            assert(hash_views(v@)[i] == v@[i]@);
        }
        assert(hash_views(v@).len() == v@.len());
    }
}

/// Each shard that is held counts with its coefficients and its payload.
pub proof fn every_shard_counts(items: Seq<Item>, it: Item)
    requires
        sum_bytes(items) + it.shard.coeffs.len() + it.shard.payload.len() <= u64::MAX,
    ensures
        sum_bytes(Seq::empty()) == 0,
        sum_bytes(items.push(it)) == sum_bytes(items) + it.shard.coeffs.len() + it.shard.payload.len(),
{
    assert(items.push(it).drop_last() =~= items);
}

/// A record is on disk only where the writing did not fail and nothing is left in the queue.
pub proof fn nothing_counts_as_written_too_early(s: State, written: Result<(), ErrorKind>)
    ensures
        unwritten(s, written) is None <==> written is Ok && s.ops.len() == 0,
        written matches Err(k) ==> unwritten(s, written) == Some(k),
{
}

/// A purge of an object takes all its shards and no other, and tells how many; where its record is
/// not on disk it takes none and tells why.
pub proof fn purge_takes_the_object_and_tells_how_much(
    s: State,
    object_id: u64,
    written: Result<(), ErrorKind>,
    t: State,
    r: Result<usize, Fault>,
    x: Item,
)
    requires
        object_purge_step(s, object_id, written, t, r),
        s.items.len() <= usize::MAX,
    ensures
        match r {
            Ok(n) => {
                &&& written is Ok && s.ops.len() == 0
                &&& n + t.items.len() == s.items.len()
                &&& t.items.contains(x) <==> s.items.contains(x) && x.key.0 != object_id
            },
            Err(_) => (written is Err || s.ops.len() > 0) && t == s,
        },
{
    lemma_keep(s.items, crate::live::not_of(object_id));
}

/// A purge by hashes takes exactly the shards that have one of the hashes and were not written
/// later, and tells how many; where its record is not on disk it takes none and tells why.
pub proof fn hash_purge_takes_what_is_due_and_tells_how_much(
    s: State,
    targets: Seq<Seq<u8>>,
    max: u64,
    written: Result<(), ErrorKind>,
    t: State,
    r: Result<usize, Fault>,
    x: Item,
)
    requires
        hash_purge_step(s, targets, max, written, t, r),
        s.items.len() <= usize::MAX,
    ensures
        match r {
            Ok(n) => {
                &&& n + t.items.len() == s.items.len()
                &&& t.items.contains(x) <==> s.items.contains(x) && !(targets.contains(x.hash)
                    && x.epoch <= max)
            },
            Err(_) => (written is Err || s.ops.len() > 0) && t == s,
        },
{
    let hs = crate::store::doomed(s.items, targets, max);
    lemma_keep(s.items, not_due(targets, max));
    let z = keep(s.items, crate::live::due(targets, max));
    lemma_keep(s.items, crate::live::due(targets, max));
    if hs.len() == 0 && s.items.contains(x) && targets.contains(x.hash) && x.epoch <= max {
        assert(z.contains(x));
        assert(hs.len() == z.len());
    }
}

/// A purge is acknowledged only once its record is on disk and its shards are gone; a purge that
/// failed is answered with an error and takes nothing.
pub proof fn purge_is_acknowledged_when_done(
    before: State,
    drop: Dropping,
    written: Result<(), DiskError>,
    after: State,
    resp: Response,
    x: Item,
)
    requires
        purged(before, drop, written, after, resp),
        before.items.len() <= usize::MAX,
    ensures
        resp is Ack || resp is Error,
        resp is Error ==> after == before && (written is Err || before.ops.len() > 0),
        resp is Ack ==> (after.items.contains(x) <==> before.items.contains(x) && !match drop {
            Dropping::Object { object_id } => x.key.0 == object_id,
            Dropping::Hashes { hashes } => hash_views(hashes@).contains(x.hash),
            Dropping::HashesUpTo { hashes, max_epoch } => hash_views(hashes@).contains(x.hash)
                && x.epoch <= max_epoch,
        }),
        drop is Object && resp is Ack ==> written is Ok && before.ops.len() == 0,
{
    let w = crate::node::outcome(written);
    match drop {
        Dropping::Object { object_id } => {
            let c = choose|c: Result<usize, Fault>|
                #[trigger] object_purge_step(before, object_id, w, after, c)
                    && crate::node::purge_answer(c, "purge failed: "@, written, resp);
            purge_takes_the_object_and_tells_how_much(before, object_id, w, after, c, x);
        },
        Dropping::Hashes { hashes } => {
            let c = choose|c: Result<usize, Fault>|
                #[trigger] hash_purge_step(before, hash_views(hashes@), u64::MAX, w, after, c)
                    && crate::node::purge_answer(c, "purge_by_hash failed: "@, written, resp);
            hash_purge_takes_what_is_due_and_tells_how_much(
                before,
                hash_views(hashes@),
                u64::MAX,
                w,
                after,
                c,
                x,
            );
        },
        Dropping::HashesUpTo { hashes, max_epoch } => {
            let c = choose|c: Result<usize, Fault>|
                #[trigger] hash_purge_step(before, hash_views(hashes@), max_epoch, w, after, c)
                    && crate::node::purge_answer(c, "purge_by_hash_up_to failed: "@, written, resp);
            hash_purge_takes_what_is_due_and_tells_how_much(
                before,
                hash_views(hashes@),
                max_epoch,
                w,
                after,
                c,
                x,
            );
        },
    }
}

/// A request to purge drops nothing by itself: it goes on to the writing of its record, for just
/// what was asked, or is refused at once with an error.
pub proof fn purge_request_waits_for_its_record(
    before: State,
    req: Request,
    seed: Seq<u8>,
    env: Surroundings,
    after: State,
    step: Step,
)
    requires
        handled(before, req, seed, env, after, step),
        req is Purge || req is PurgeByHash || req is PurgeByHashUpTo,
    ensures
        after.items == before.items,
        match step {
            Step::Write(d) => match req {
                Request::Purge { object_id } => d == (Dropping::Object { object_id }),
                Request::PurgeByHash { hashes } => d == (Dropping::Hashes { hashes }),
                Request::PurgeByHashUpTo { hashes, max_epoch } => d == (Dropping::HashesUpTo {
                    hashes,
                    max_epoch,
                }),
                _ => false,
            },
            Step::Answer { resp, wait_for } => resp is Error && wait_for == 0 && before.log is Some,
        },
{
}

/// Two shards have one hash exactly where SHA-256 takes their coefficients, with the payload behind
/// them, to one value.
pub proof fn shards_are_told_apart_by_all_their_bytes(a: Piece, b: Piece)
    ensures
        shard_digest(a) == shard_digest(b) <==> sha256_of(a.coeffs + a.payload)@ == sha256_of(
            b.coeffs + b.payload,
        )@,
        shard_digest(a).len() == 32,
{
}

/// The shards of one key are found by their hashes: where two items differ in hash, neither takes
/// the other's place.
pub proof fn shards_with_other_hashes_stay(items: Seq<Item>, it: Item, x: Item)
    requires
        items.contains(x),
        !same_place(x.key, it.key) || x.hash != it.hash,
    ensures
        stored(items, it).contains(x),
        stored(items, it).contains(it),
{
    lemma_place(items, it.key, it.hash);
    let i = choose|i: int| 0 <= i < items.len() && items[i] == x;
    let p = place(items, it.key, it.hash);
    if i == p {
        assert(is_slot(items[p], it.key, it.hash));
    }
    assert(stored(items, it)[i] == x);
    assert(stored(items, it)[p] == it);
}

/// A node answers a challenge with its signature over it, tells the timings as they were taken, and
/// takes no frame of a handshake for a request.
pub proof fn nodes_answer_for_themselves(
    before: State,
    req: Request,
    seed: Seq<u8>,
    env: Surroundings,
    after: State,
    step: Step,
)
    requires
        handled(before, req, seed, env, after, step),
    ensures
        req matches Request::AuthChallenge { nonce } ==> step is Answer && step->wait_for == 0 && step->resp is
            AuthChallengeOk && step->resp->signature == crate::identity::ed_sign(
            seed,
            vstd::utf8::encode_utf8("holofs-auth-v1"@) + nonce@,
        ),
        req is PutTimings ==> step == (Step::Answer {
            resp: Response::PutTimings {
                lock_wait_ns: env.timings.lock_wait_ns,
                put_appended_ns: env.timings.put_appended_ns,
                wal_wait_ns: env.timings.wal_wait_ns,
                count: env.timings.count,
            },
            wait_for: 0,
        }),
        req is Handshake || req is HandshakeComplete ==> step is Answer && step->resp is Error,
{
}

/// The hash of a shard is that of its coefficients and its payload, in this order.
pub proof fn hash_is_of_the_whole_shard(p: Piece)
    ensures
        shard_digest(p) == sha256_of(p.coeffs + p.payload)@,
{
}

} // verus!
