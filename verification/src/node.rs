//! What a storage node answers: its requests, and the handshake before them.
use vstd::prelude::*;
use vstd::string::StringExecFns;

use crate::bytes::{field32, len32};
use crate::chaos::{ErrorKind, Fault};

use crate::identity::{auth_domain, ed_sign, in_domain, NodeIdentity, Nonce, PubKey, Sig};
use crate::live::{holds, place, Item, WriteEpoch};
use crate::shard_file::Key;
use crate::store::{
    hash_purge_start, hash_purge_step, object_purge_start, object_purge_step, pieces, under, State,
    Store,
};
use crate::text::number;
use crate::wal::{hash_views, Piece, Shard, ShardHash};

verus! {

/// What a client asks of a node.
#[derive(Debug, Clone, PartialEq, Eq)]
pub enum Request {
    Ping,
    Put { object_id: u64, channel: u8, layer: u8, shard: Shard },
    Get { object_id: u64, channel: u8, layer: u8 },
    Purge { object_id: u64 },
    Stat,
    Audit { object_id: u64, channel: u8, layer: u8, shard_hash: ShardHash },
    AuthChallenge { nonce: Nonce },
    ListHashes,
    PurgeByHash { hashes: Vec<ShardHash> },
    PutBatch { object_id: u64, channel: u8, layer: u8, shards: Vec<Shard> },
    CurrentEpoch,
    PurgeByHashUpTo { hashes: Vec<ShardHash>, max_epoch: WriteEpoch },
    PutTimings,
    Handshake { client_pubkey: PubKey, client_nonce: Nonce },
    HandshakeComplete { client_signature: Sig },
    Capacity,
}

/// What a node answers.
#[derive(Debug, Clone, PartialEq, Eq)]
pub enum Response {
    Pong,
    Ack,
    Shards(Vec<Shard>),
    StatResp { total_shards: u32 },
    AuditResp { shard: Option<Shard> },
    AuthChallengeOk { signature: Sig },
    Hashes(Vec<ShardHash>),
    Epoch { epoch: WriteEpoch },
    PutTimings { lock_wait_ns: u64, put_appended_ns: u64, wal_wait_ns: u64, count: u64 },
    HandshakeChallenge { node_signature: Sig, server_nonce: Nonce },
    Capacity { free_bytes: u64, total_bytes: u64, live_bytes: u64 },
    Error(String),
}

/// How long the puts of a process have taken so far.
#[derive(Debug, Clone, Copy, PartialEq, Eq, Structural)]
pub struct Timings {
    pub lock_wait_ns: u64,
    pub put_appended_ns: u64,
    pub wal_wait_ns: u64,
    pub count: u64,
}

/// What a node knows from outside when it answers a request: the time, the room on
/// its disk, and the timings.
#[derive(Debug, Clone, Copy, PartialEq, Eq, Structural)]
pub struct Surroundings {
    pub now: WriteEpoch,
    pub free_bytes: u64,
    pub total_bytes: u64,
    pub timings: Timings,
}

/// The text of a refusal.
pub open spec fn fault_text(f: Fault) -> Seq<char> {
    match f {
        Fault::Append(_) => "chaos: injected WAL append fault"@,
        Fault::Sync(_) => "chaos: injected WAL sync fault"@,
        Fault::Disk(_) => "log could not be written"@,
    }
}

/// Whether `states` are what a store goes through when shards are put under one key,
/// one after the other, and `rs` what each put gives.
pub open spec fn batch_run(
    before: State,
    key: Key,
    shards: Seq<Piece>,
    now: u64,
    states: Seq<State>,
    rs: Seq<(bool, u64)>,
) -> bool {
    &&& states.len() == shards.len() + 1
    &&& rs.len() == shards.len()
    &&& states[0] == before
    &&& forall|i: int|
        0 <= i < shards.len() ==> (#[trigger] states[i]).put_step(
            key,
            shards[i],
            now,
            states[i + 1],
            rs[i],
        )
}

/// The greatest number among what puts gave; 0 for none.
pub open spec fn last_seq(rs: Seq<(bool, u64)>) -> u64
    decreases rs.len(),
{
    if rs.len() == 0 {
        0
    } else {
        let m = last_seq(rs.drop_last());
        if rs.last().1 > m {
            rs.last().1
        } else {
            m
        }
    }
}

/// What putting several shards under one key does, one after the other, and the number
/// that the log must have reached for all of them to be safe.
pub open spec fn batch_step(
    before: State,
    key: Key,
    shards: Seq<Piece>,
    now: u64,
    after: State,
    last: u64,
) -> bool {
    exists|states: Seq<State>, rs: Seq<(bool, u64)>|
        {
            &&& #[trigger] batch_run(before, key, shards, now, states, rs)
            &&& after == states.last()
            &&& last == last_seq(rs)
        }
}

/// What a request asks to be dropped.
#[derive(Debug, Clone, PartialEq, Eq)]
pub enum Dropping {
    Object { object_id: u64 },
    Hashes { hashes: Vec<ShardHash> },
    HashesUpTo { hashes: Vec<ShardHash>, max_epoch: WriteEpoch },
}

/// What a node does next for a request.
#[derive(Debug, Clone, PartialEq, Eq)]
pub enum Step {
    /// Sends the answer, once the log has reached this number.
    Answer { resp: Response, wait_for: u64 },
    /// Carries out what the store has queued, and hands what came of it to
    /// `handle_written`.
    Write(Dropping),
}

/// Why the disk could not be written, also in words.
#[derive(Debug, Clone, PartialEq, Eq)]
pub struct DiskError {
    pub kind: ErrorKind,
    pub text: String,
}

/// The answer that a step sends without waiting.
pub open spec fn at_once(step: Step, resp: Response) -> bool {
    step == (Step::Answer { resp, wait_for: 0 })
}

/// What is answered to a purge that failed.
pub open spec fn failed(what: Seq<char>, why: Seq<char>, resp: Response) -> bool {
    resp matches Response::Error(t) && t@ == what + why
}

/// Whether a purge whose first half gave `c` goes on with `next`: a refusal is answered at
/// once; else the record has to be written.
pub open spec fn purge_goes_on(c: Result<(), Fault>, what: Seq<char>, drop: Dropping, step: Step) -> bool {
    match c {
        Ok(()) => step == Step::Write(drop),
        Err(f) => step matches Step::Answer { resp, wait_for } && wait_for == 0 && failed(
            what,
            fault_text(f),
            resp,
        ),
    }
}

/// Whether a purge that gave `c` after the writing is answered with `resp`.
pub open spec fn purge_answer(
    c: Result<usize, Fault>,
    what: Seq<char>,
    written: Result<(), DiskError>,
    resp: Response,
) -> bool {
    match c {
        Ok(_) => resp is Ack,
        Err(f) => failed(
            what,
            match written {
                Err(e) => e.text@,
                Ok(()) => fault_text(f),
            },
            resp,
        ),
    }
}

/// What came of the writing, without the words.
pub open spec fn outcome(written: Result<(), DiskError>) -> Result<(), ErrorKind> {
    match written {
        Ok(()) => Ok(()),
        Err(e) => Err(e.kind),
    }
}

/// What a purge does once its record has been written or not, and how it is answered.
pub open spec fn purged(
    before: State,
    drop: Dropping,
    written: Result<(), DiskError>,
    after: State,
    resp: Response,
) -> bool {
    match drop {
        Dropping::Object { object_id } => exists|c: Result<usize, Fault>|
            #[trigger] object_purge_step(before, object_id, outcome(written), after, c)
                && purge_answer(c, "purge failed: "@, written, resp),
        Dropping::Hashes { hashes } => exists|c: Result<usize, Fault>|
            #[trigger] hash_purge_step(
                before,
                hash_views(hashes@),
                u64::MAX,
                outcome(written),
                after,
                c,
            ) && purge_answer(c, "purge_by_hash failed: "@, written, resp),
        Dropping::HashesUpTo { hashes, max_epoch } => exists|c: Result<usize, Fault>|
            #[trigger] hash_purge_step(
                before,
                hash_views(hashes@),
                max_epoch,
                outcome(written),
                after,
                c,
            ) && purge_answer(c, "purge_by_hash_up_to failed: "@, written, resp),
    }
}

/// What a request does, and what is to be done next.
pub open spec fn handled(
    before: State,
    req: Request,
    seed: Seq<u8>,
    env: Surroundings,
    after: State,
    step: Step,
) -> bool {
    match req {
        Request::Ping => at_once(step, Response::Pong) && after == before,
        Request::Put { object_id, channel, layer, shard } => {
            &&& step matches Step::Answer { resp, wait_for } && resp is Ack && exists|r: (bool, u64)|
                #[trigger] before.put_step(
                    (object_id, channel, layer),
                    shard@,
                    env.now,
                    after,
                    r,
                ) && wait_for == r.1
        },
        Request::Get { object_id, channel, layer } => {
            &&& after == before
            &&& step matches Step::Answer { resp: Response::Shards(v), wait_for } && wait_for == 0 && pieces(v@) == under(
                before.items,
                (object_id, channel, layer),
            ).map_values(|i: Item| i.shard)
        },
        Request::Purge { object_id } => {
            exists|c: Result<(), Fault>|
                #[trigger] object_purge_start(before, object_id, after, c) && purge_goes_on(
                    c,
                    "purge failed: "@,
                    Dropping::Object { object_id },
                    step,
                )
        },
        Request::Stat => {
            &&& after == before
            &&& step matches Step::Answer { resp: Response::StatResp { total_shards }, wait_for } && wait_for == 0 && total_shards == len32(
                before.items.len(),
            )
        },
        Request::Audit { object_id, channel, layer, shard_hash } => {
            let key = (object_id, channel, layer);
            &&& after == before
            &&& step matches Step::Answer { resp: Response::AuditResp { shard }, wait_for } && wait_for == 0 && match shard {
                Some(s) => holds(before.items, key, shard_hash@) && s@ == before.items[place(
                    before.items,
                    key,
                    shard_hash@,
                )].shard,
                None => !holds(before.items, key, shard_hash@),
            }
        },
        Request::AuthChallenge { nonce } => {
            &&& after == before
            &&& step matches Step::Answer { resp: Response::AuthChallengeOk { signature }, wait_for } && wait_for == 0 && signature == ed_sign(
                seed,
                in_domain(auth_domain(), nonce@),
            )
        },
        Request::ListHashes => {
            &&& after == before
            &&& step matches Step::Answer { resp: Response::Hashes(v), wait_for } && wait_for == 0 && hash_views(v@) == before.items.map_values(
                |i: Item| i.hash,
            )
        },
        Request::PurgeByHash { hashes } => {
            exists|c: Result<(), Fault>|
                #[trigger] hash_purge_start(before, hash_views(hashes@), u64::MAX, after, c)
                    && purge_goes_on(
                    c,
                    "purge_by_hash failed: "@,
                    Dropping::Hashes { hashes },
                    step,
                )
        },
        Request::PutBatch { object_id, channel, layer, shards } => {
            &&& step matches Step::Answer { resp, wait_for } && resp is Ack && batch_step(
                before,
                (object_id, channel, layer),
                pieces(shards@),
                env.now,
                after,
                wait_for,
            )
        },
        Request::CurrentEpoch => {
            &&& after == before
            &&& at_once(step, Response::Epoch { epoch: env.now })
        },
        Request::PurgeByHashUpTo { hashes, max_epoch } => {
            exists|c: Result<(), Fault>|
                #[trigger] hash_purge_start(before, hash_views(hashes@), max_epoch, after, c)
                    && purge_goes_on(
                    c,
                    "purge_by_hash_up_to failed: "@,
                    Dropping::HashesUpTo { hashes, max_epoch },
                    step,
                )
        },
        Request::PutTimings => {
            &&& after == before
            &&& at_once(step, Response::PutTimings {
                lock_wait_ns: env.timings.lock_wait_ns,
                put_appended_ns: env.timings.put_appended_ns,
                wal_wait_ns: env.timings.wal_wait_ns,
                count: env.timings.count,
            })
        },
        Request::Handshake { .. } | Request::HandshakeComplete { .. } => {
            &&& after == before
            &&& step matches Step::Answer { resp: Response::Error(t), wait_for } && wait_for == 0 && t@
                == "handshake frames must not reach handle_request; dispatched via handle_connection"@
        },
        Request::Capacity => {
            &&& after == before
            &&& at_once(step, Response::Capacity {
                free_bytes: if before.log is Some {
                    env.free_bytes
                } else {
                    0
                },
                total_bytes: if before.log is Some {
                    env.total_bytes
                } else {
                    0
                },
                live_bytes: before.live_bytes(),
            })
        },
    }
}

/// Whether the shards in a request can be stored: each is short enough to be sealed,
/// and the log can count them.
pub open spec fn storable(req: Request, next_seq: u64) -> bool {
    match req {
        Request::Put { shard, .. } => shard.fits() && next_seq < u64::MAX,
        Request::PutBatch { shards, .. } => {
            &&& next_seq + shards@.len() <= u64::MAX
            &&& forall|i: int| 0 <= i < shards@.len() ==> (#[trigger] shards@[i]).fits()
        },
        _ => true,
    }
}

/// Puts several shards under one key.
fn put_batch(store: &mut Store, key: Key, shards: Vec<Shard>, now: WriteEpoch) -> (r: u64)
    requires
        old(store).wf(),
        old(store)@.next_seq + shards@.len() <= u64::MAX,
        forall|i: int| 0 <= i < shards@.len() ==> (#[trigger] shards@[i]).fits(),
    ensures
        final(store).wf(),
        batch_step(old(store)@, key, pieces(shards@), now, final(store)@, r),
{
    let ghost before = store@;
    let ghost all = pieces(shards@);
    let mut last: u64 = 0;
    let mut i: usize = 0;
    let ghost mut states: Seq<State> = seq![store@];
    let ghost mut rs: Seq<(bool, u64)> = Seq::empty();
    while i < shards.len()
        invariant
            0 <= i <= shards@.len(),
            all == pieces(shards@),
            store.wf(),
            store@.next_seq <= before.next_seq + i,
            before.next_seq + shards@.len() <= u64::MAX,
            forall|j: int| 0 <= j < shards@.len() ==> (#[trigger] shards@[j]).fits(),
            batch_run(before, key, all.take(i as int), now, states, rs),
            store@ == states.last(),
            last == last_seq(rs),
        decreases shards@.len() - i,
    {
        let shard = shards[i].copy();
        assert(shards@[i as int].fits());
        let r = store.put_appended(key, shard, now);
        if r.1 > last {
            last = r.1;
        }
        proof {
            let s0 = states;
            let r0 = rs;
            states = states.push(store@);
            rs = rs.push(r);
            assert(rs.drop_last() =~= r0);
            let t = all.take(i + 1);
            assert(t[i as int] == shards@[i as int]@);
            assert forall|j: int| 0 <= j < t.len() implies (#[trigger] states[j]).put_step(
                key,
                t[j],
                now,
                states[j + 1],
                rs[j],
            ) by {
                assert(states[j] == s0[j]);
                if j < i {
                    assert(states[j + 1] == s0[j + 1]);
                    assert(t[j] == all.take(i as int)[j]);
                    assert(rs[j] == r0[j]);
                }
            }
        }
        i += 1;
    }
    assert(all.take(i as int) =~= all);
    last
}

/// The answer to a purge that failed.
fn refused(what: &str, why: &str) -> (r: Response)
    ensures
        failed(what@, why@, r),
{
    Response::Error(String::from_str(what).concat(why))
}

/// How a purge goes on after its first half.
fn go_on(c: Result<(), Fault>, what: &str, drop: Dropping) -> (r: Step)
    ensures
        purge_goes_on(c, what@, drop, r),
{
    match c {
        Ok(()) => Step::Write(drop),
        Err(f) => Step::Answer { resp: refused(what, f.message()), wait_for: 0 },
    }
}

/// The answer to a purge after the writing.
fn answer_purge(c: Result<usize, Fault>, what: &str, written: &Result<(), DiskError>) -> (r: Response)
    ensures
        purge_answer(c, what@, *written, r),
{
    match c {
        Ok(_) => Response::Ack,
        Err(f) => match written {
            Err(e) => refused(what, e.text.as_str()),
            Ok(()) => refused(what, f.message()),
        },
    }
}

/// Finishes a purge, given what came of the writing of its record, and answers it: a
/// record that is not on disk drops nothing and is answered with an error.
pub fn handle_written(drop: Dropping, store: &mut Store, written: Result<(), DiskError>) -> (r: Response)
    requires
        old(store).wf(),
    ensures
        final(store).wf(),
        purged(old(store)@, drop, written, final(store)@, r),
        r is Error ==> final(store)@ == old(store)@,
        written is Err && drop is Object ==> r is Error,
{
    let ghost before = store@;
    let how: Result<(), ErrorKind> = match &written {
        Ok(()) => Ok(()),
        Err(e) => Err(e.kind),
    };
    match drop {
        Dropping::Object { object_id } => {
            let c = store.purge(object_id, how);
            assert(object_purge_step(before, object_id, outcome(written), store@, c));
            answer_purge(c, "purge failed: ", &written)
        },
        Dropping::Hashes { hashes } => {
            let c = store.purge_by_hashes(hashes.as_slice(), how);
            assert(hash_purge_step(before, hash_views(hashes@), u64::MAX, outcome(written), store@, c));
            answer_purge(c, "purge_by_hash failed: ", &written)
        },
        Dropping::HashesUpTo { hashes, max_epoch } => {
            let c = store.purge_by_hashes_up_to(hashes.as_slice(), max_epoch, how);
            assert(hash_purge_step(before, hash_views(hashes@), max_epoch, outcome(written), store@, c));
            answer_purge(c, "purge_by_hash_up_to failed: ", &written)
        },
    }
}

/// An answer that waits for nothing.
fn now(resp: Response) -> (r: Step)
    ensures
        at_once(r, resp),
{
    Step::Answer { resp, wait_for: 0 }
}

/// Handles a request: gives the answer, with the number that the log must have reached
/// before it is sent; or, for a purge, says that its record is to be written first.
pub fn handle_request(
    req: Request,
    store: &mut Store,
    identity: &NodeIdentity,
    env: &Surroundings,
) -> (r: Step)
    requires
        old(store).wf(),
        storable(req, old(store)@.next_seq),
    ensures
        final(store).wf(),
        handled(old(store)@, req, identity@, *env, final(store)@, r),
{
    let ghost before = store@;
    match req {
        Request::Ping => now(Response::Pong),
        Request::Put { object_id, channel, layer, shard } => {
            let r = store.put_appended((object_id, channel, layer), shard, env.now);
            Step::Answer { resp: Response::Ack, wait_for: r.1 }
        },
        Request::Get { object_id, channel, layer } => {
            now(Response::Shards(store.get((object_id, channel, layer))))
        },
        Request::Purge { object_id } => {
            let c = store.purge_start(object_id);
            go_on(c, "purge failed: ", Dropping::Object { object_id })
        },
        Request::Stat => now(Response::StatResp { total_shards: field32(store.total()) }),
        Request::Audit { object_id, channel, layer, shard_hash } => {
            let shard = store.get_by_hash((object_id, channel, layer), &shard_hash);
            now(Response::AuditResp { shard })
        },
        Request::AuthChallenge { nonce } => {
            now(Response::AuthChallengeOk { signature: identity.sign_challenge(&nonce) })
        },
        Request::ListHashes => now(Response::Hashes(store.list_all_hashes())),
        Request::PurgeByHash { hashes } => {
            let c = store.purge_by_hashes_start(hashes.as_slice(), u64::MAX);
            assert(hash_purge_start(before, hash_views(hashes@), u64::MAX, store@, c));
            go_on(c, "purge_by_hash failed: ", Dropping::Hashes { hashes })
        },
        Request::PutBatch { object_id, channel, layer, shards } => {
            let last: u64 = put_batch(store, (object_id, channel, layer), shards, env.now);
            Step::Answer { resp: Response::Ack, wait_for: last }
        },
        Request::CurrentEpoch => now(Response::Epoch { epoch: env.now }),
        Request::PurgeByHashUpTo { hashes, max_epoch } => {
            let c = store.purge_by_hashes_start(hashes.as_slice(), max_epoch);
            assert(hash_purge_start(before, hash_views(hashes@), max_epoch, store@, c));
            go_on(c, "purge_by_hash_up_to failed: ", Dropping::HashesUpTo { hashes, max_epoch })
        },
        Request::PutTimings => now(
            Response::PutTimings {
                lock_wait_ns: env.timings.lock_wait_ns,
                put_appended_ns: env.timings.put_appended_ns,
                wal_wait_ns: env.timings.wal_wait_ns,
                count: env.timings.count,
            },
        ),
        Request::Handshake { .. } => now(
            Response::Error(
                String::from_str(
                    "handshake frames must not reach handle_request; dispatched via handle_connection",
                ),
            ),
        ),
        Request::HandshakeComplete { .. } => now(
            Response::Error(
                String::from_str(
                    "handshake frames must not reach handle_request; dispatched via handle_connection",
                ),
            ),
        ),
        Request::Capacity => {
            let live_bytes: u64 = store.live_bytes_estimate();
            let (free_bytes, total_bytes) = if store.is_persistent() {
                (env.free_bytes, env.total_bytes)
            } else {
                (0, 0)
            };
            now(Response::Capacity { free_bytes, total_bytes, live_bytes })
        },
    }
}

} // verus!
