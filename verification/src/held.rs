//! What a store holds, without the order in which it came: for each key and hash a shard, and what
//! each record of the log does to that.
use vstd::prelude::*;

use crate::live::{
    applied, applied_all, has_none_of, holds, is_slot, keep, lemma_keep, lemma_place,
    lemma_place_is, no_twins, not_of, place, stored, Item,
};
use crate::shard_file::Key;
use crate::store_laws::{bare, lemma_bare_place};
use crate::wal::{Piece, Rec};

verus! {

/// Where a shard is held: under which key, and with which hash.
pub type Slot = (Key, Seq<u8>);

/// What a store holds.
pub type Held = Map<Slot, Piece>;

/// What some items stand for.
pub open spec fn held(items: Seq<Item>) -> Held {
    Map::new(
        |s: Slot| holds(items, s.0, s.1),
        |s: Slot| items[place(items, s.0, s.1)].shard,
    )
}

/// The part of `m` that is not of an object.
pub open spec fn less_object(m: Held, object_id: u64) -> Held {
    Map::new(|s: Slot| m.dom().contains(s) && s.0.0 != object_id, |s: Slot| m[s])
}

/// The part of `m` that has none of the hashes.
pub open spec fn less_hashes(m: Held, hashes: Seq<Seq<u8>>) -> Held {
    Map::new(|s: Slot| m.dom().contains(s) && !hashes.contains(s.1), |s: Slot| m[s])
}

/// What is held after a record.
pub open spec fn effect(m: Held, rec: Rec) -> Held {
    match rec {
        Rec::Put { object_id, channel, layer, hash, shard } => m.insert(
            ((object_id, channel, layer), hash),
            shard,
        ),
        Rec::Purge { object_id } => less_object(m, object_id),
        Rec::PurgeHashes { hashes } => less_hashes(m, hashes),
        Rec::Wipe => Map::empty(),
    }
}

/// What is held after a row of records.
pub open spec fn effects(m: Held, recs: Seq<Rec>) -> Held
    decreases recs.len(),
{
    if recs.len() == 0 {
        m
    } else {
        effect(effects(m, recs.drop_last()), recs.last())
    }
}

/// Whether all that is in `a` is in `b`.
pub open spec fn part_of(a: Held, b: Held) -> bool {
    forall|s: Slot| #[trigger] a.dom().contains(s) ==> b.dom().contains(s) && a[s] == b[s]
}

/// Where an item stands once another was stored.
proof fn lemma_stored_place(items: Seq<Item>, it: Item, key: Key, hash: Seq<u8>)
    ensures
        ({
            let r = stored(items, it);
            if key == it.key && hash == it.hash {
                holds(r, key, hash) && r[place(r, key, hash)] == it
            } else {
                &&& holds(r, key, hash) == holds(items, key, hash)
                &&& holds(items, key, hash) ==> r[place(r, key, hash)] == items[place(items, key, hash)]
            }
        }),
{
    let r = stored(items, it);
    lemma_place(items, it.key, it.hash);
    lemma_place(items, key, hash);
    lemma_place(r, key, hash);
    let p = place(items, it.key, it.hash);
    let q = place(items, key, hash);
    if key == it.key && hash == it.hash {
        assert(r[p] == it);
        assert forall|j: int| 0 <= j < p implies !is_slot(#[trigger] r[j], key, hash) by {
            assert(!is_slot(items[j], key, hash));
        }
        lemma_place_is(r, key, hash, p);
    } else {
        assert forall|j: int| 0 <= j < q implies !is_slot(#[trigger] r[j], key, hash) by {
            if j != p {
                assert(!is_slot(items[j], key, hash));
            }
        }
        if q < items.len() {
            assert(is_slot(items[q], key, hash));
            assert(r[q] == items[q]);
            lemma_place_is(r, key, hash, q);
        } else {
            assert forall|j: int| 0 <= j < r.len() implies !is_slot(#[trigger] r[j], key, hash) by {
                if j < items.len() && j != p {
                    assert(!is_slot(items[j], key, hash));
                }
            }
            lemma_place_is(r, key, hash, r.len() as int);
        }
    }
}

/// What is held once an item was stored.
pub proof fn lemma_held_stored(items: Seq<Item>, it: Item)
    ensures
        held(stored(items, it)) == held(items).insert((it.key, it.hash), it.shard),
{
    let a = held(stored(items, it));
    let b = held(items).insert((it.key, it.hash), it.shard);
    assert forall|s: Slot| #[trigger] a.dom().contains(s) <==> b.dom().contains(s) by {
        lemma_stored_place(items, it, s.0, s.1);
    }
    assert forall|s: Slot| #[trigger] a.dom().contains(s) implies a[s] == b[s] by {
        lemma_stored_place(items, it, s.0, s.1);
    }
    assert(a =~= b);
}

/// Where an item stands among those that are kept, where the condition looks at key and hash only.
proof fn lemma_kept_place(items: Seq<Item>, p: spec_fn(Item) -> bool, key: Key, hash: Seq<u8>, ok: bool)
    requires
        forall|i: Item| is_slot(i, key, hash) ==> #[trigger] p(i) == ok,
    ensures
        holds(keep(items, p), key, hash) == (holds(items, key, hash) && ok),
        ok && holds(items, key, hash) ==> keep(items, p)[place(keep(items, p), key, hash)]
            == items[place(items, key, hash)],
    decreases items.len(),
{
    if items.len() > 0 {
        let t = items.drop_first();
        let r = keep(t, p);
        lemma_kept_place(t, p, key, hash, ok);
        lemma_place(t, key, hash);
        lemma_place(r, key, hash);
        if p(items[0]) {
            let k = seq![items[0]] + r;
            assert(k.drop_first() =~= r);
            assert(keep(items, p) == k);
            if !is_slot(items[0], key, hash) {
                assert(place(k, key, hash) == 1 + place(r, key, hash));
                assert(place(items, key, hash) == 1 + place(t, key, hash));
            }
        }
    }
}

/// Where nothing is held twice, an item is kept exactly where it satisfies the condition.
pub proof fn lemma_kept_slot(items: Seq<Item>, p: spec_fn(Item) -> bool, key: Key, hash: Seq<u8>)
    requires
        no_twins(items),
    ensures
        holds(keep(items, p), key, hash) == (holds(items, key, hash) && p(
            items[place(items, key, hash)],
        )),
        holds(keep(items, p), key, hash) ==> keep(items, p)[place(keep(items, p), key, hash)]
            == items[place(items, key, hash)],
{
    let k = keep(items, p);
    lemma_keep(items, p);
    lemma_place(items, key, hash);
    lemma_place(k, key, hash);
    if holds(k, key, hash) {
        let y = k[place(k, key, hash)];
        assert(k.contains(y));
        assert(items.contains(y));
        let i = choose|i: int| 0 <= i < items.len() && items[i] == y;
        let q = place(items, key, hash);
        if q < i {
            assert(!is_slot(items[q], items[i].key, items[i].hash));
        }
        assert(i == q);
    }
    if holds(items, key, hash) && p(items[place(items, key, hash)]) {
        let x = items[place(items, key, hash)];
        assert(items.contains(x));
        assert(k.contains(x));
        let j = choose|j: int| 0 <= j < k.len() && k[j] == x;
        assert(is_slot(k[j], key, hash));
        assert(place(k, key, hash) <= j);
    }
}

/// What is held once those of an object are gone.
pub proof fn lemma_held_without_object(items: Seq<Item>, object_id: u64)
    ensures
        held(keep(items, not_of(object_id))) == less_object(held(items), object_id),
{
    let p = not_of(object_id);
    let a = held(keep(items, p));
    let b = less_object(held(items), object_id);
    assert forall|s: Slot| #[trigger] a.dom().contains(s) <==> b.dom().contains(s) by {
        lemma_kept_place(items, p, s.0, s.1, s.0.0 != object_id);
    }
    assert forall|s: Slot| #[trigger] a.dom().contains(s) implies a[s] == b[s] by {
        lemma_kept_place(items, p, s.0, s.1, s.0.0 != object_id);
    }
    assert(a =~= b);
}

/// What is held once those with some hashes are gone.
pub proof fn lemma_held_without_hashes(items: Seq<Item>, hashes: Seq<Seq<u8>>)
    ensures
        held(keep(items, has_none_of(hashes))) == less_hashes(held(items), hashes),
{
    let p = has_none_of(hashes);
    let a = held(keep(items, p));
    let b = less_hashes(held(items), hashes);
    assert forall|s: Slot| #[trigger] a.dom().contains(s) <==> b.dom().contains(s) by {
        lemma_kept_place(items, p, s.0, s.1, !hashes.contains(s.1));
    }
    assert forall|s: Slot| #[trigger] a.dom().contains(s) implies a[s] == b[s] by {
        lemma_kept_place(items, p, s.0, s.1, !hashes.contains(s.1));
    }
    assert(a =~= b);
}

/// What a record does to the items, it does to what they stand for.
pub proof fn record_has_its_effect(items: Seq<Item>, rec: Rec, epoch: u64)
    ensures
        held(applied(items, rec, epoch)) == effect(held(items), rec),
{
    match rec {
        Rec::Put { object_id, channel, layer, hash, shard } => {
            lemma_held_stored(items, Item { key: (object_id, channel, layer), hash, shard, epoch });
        },
        Rec::Purge { object_id } => {
            lemma_held_without_object(items, object_id);
        },
        Rec::PurgeHashes { hashes } => {
            lemma_held_without_hashes(items, hashes);
        },
        Rec::Wipe => {
            lemma_held_empty();
        },
    }
}

/// Nothing is held where there are no items.
pub proof fn lemma_held_empty()
    ensures
        held(Seq::<Item>::empty()) == Map::<Slot, Piece>::empty(),
{
    assert(held(Seq::<Item>::empty()) =~= Map::<Slot, Piece>::empty());
}

proof fn lemma_effects_front(m: Held, recs: Seq<Rec>)
    requires
        recs.len() > 0,
    ensures
        effects(m, recs) == effects(effect(m, recs[0]), recs.drop_first()),
    decreases recs.len(),
{
    if recs.len() == 1 {
        assert(recs.drop_last() =~= Seq::<Rec>::empty());
        assert(recs.drop_first() =~= Seq::<Rec>::empty());
        assert(effects(m, recs.drop_last()) == m);
        assert(effects(effect(m, recs[0]), recs.drop_first()) == effect(m, recs[0]));
    } else {
        let t = recs.drop_last();
        lemma_effects_front(m, t);
        assert(t.drop_first() =~= recs.drop_first().drop_last());
        assert(recs.drop_first().last() == recs.last());
        assert(t[0] == recs[0]);
    }
}

/// What a row of records does to the items, it does to what they stand for.
pub proof fn records_have_their_effects(items: Seq<Item>, recs: Seq<Rec>, epoch: u64)
    ensures
        held(applied_all(items, recs, epoch)) == effects(held(items), recs),
    decreases recs.len(),
{
    if recs.len() > 0 {
        record_has_its_effect(items, recs[0], epoch);
        records_have_their_effects(applied(items, recs[0], epoch), recs.drop_first(), epoch);
        lemma_effects_front(held(items), recs);
    }
}

/// The times at which items were written are no matter for what is held.
pub proof fn lemma_held_bare(items: Seq<Item>)
    ensures
        held(bare(items)) == held(items),
{
    let a = held(bare(items));
    let b = held(items);
    assert forall|s: Slot| #[trigger] a.dom().contains(s) <==> b.dom().contains(s) by {
        lemma_bare_place(items, s.0, s.1);
    }
    assert forall|s: Slot| #[trigger] a.dom().contains(s) implies a[s] == b[s] by {
        lemma_bare_place(items, s.0, s.1);
        lemma_place(items, s.0, s.1);
    }
    assert(a =~= b);
}

/// One more record.
pub proof fn lemma_effects_push(m: Held, recs: Seq<Rec>, rec: Rec)
    ensures
        effects(m, recs.push(rec)) == effect(effects(m, recs), rec),
{
    assert(recs.push(rec).drop_last() =~= recs);
}

/// Two stores that differ in the shards of one object only are the same after any records and the
/// removal of that object.
pub proof fn purged_object_leaves_no_trace(a: Held, b: Held, recs: Seq<Rec>, object_id: u64)
    requires
        less_object(a, object_id) == less_object(b, object_id),
    ensures
        less_object(effects(a, recs), object_id) == less_object(effects(b, recs), object_id),
    decreases recs.len(),
{
    if recs.len() > 0 {
        let t = recs.drop_last();
        purged_object_leaves_no_trace(a, b, t, object_id);
        let x = effects(a, t);
        let y = effects(b, t);
        let rec = recs.last();
        let u = less_object(x, object_id);
        let v = less_object(y, object_id);
        assert forall|s: Slot| s.0.0 != object_id implies x.dom().contains(s) == #[trigger] y.dom().contains(
        s) && (x.dom().contains(s) ==> x[s] == y[s]) by {
            assert(u.dom().contains(s) == v.dom().contains(s));
            if x.dom().contains(s) {
                assert(u[s] == v[s]);
            }
        }
        assert(less_object(effect(x, rec), object_id) =~= less_object(effect(y, rec), object_id));
    }
}

/// Two stores that differ in the shards with some hashes only are the same after any records and
/// the removal of these.
pub proof fn purged_hashes_leave_no_trace(a: Held, b: Held, recs: Seq<Rec>, hashes: Seq<Seq<u8>>)
    requires
        less_hashes(a, hashes) == less_hashes(b, hashes),
    ensures
        less_hashes(effects(a, recs), hashes) == less_hashes(effects(b, recs), hashes),
    decreases recs.len(),
{
    if recs.len() > 0 {
        let t = recs.drop_last();
        purged_hashes_leave_no_trace(a, b, t, hashes);
        let x = effects(a, t);
        let y = effects(b, t);
        let rec = recs.last();
        let u = less_hashes(x, hashes);
        let v = less_hashes(y, hashes);
        assert forall|s: Slot| !hashes.contains(s.1) implies x.dom().contains(s) == #[trigger] y.dom().contains(
        s) && (x.dom().contains(s) ==> x[s] == y[s]) by {
            assert(u.dom().contains(s) == v.dom().contains(s));
            if x.dom().contains(s) {
                assert(u[s] == v[s]);
            }
        }
        assert(less_hashes(effect(x, rec), hashes) =~= less_hashes(effect(y, rec), hashes));
    }
}

/// Whether every record stores a shard.
pub open spec fn all_puts(recs: Seq<Rec>) -> bool {
    forall|i: int| 0 <= i < recs.len() ==> (#[trigger] recs[i]) is Put
}

/// Records that only store shards do so whatever is held already.
proof fn lemma_puts_add(m: Held, recs: Seq<Rec>)
    requires
        all_puts(recs),
    ensures
        effects(m, recs) == m.union_prefer_right(effects(Map::empty(), recs)),
    decreases recs.len(),
{
    let none = Map::<Slot, Piece>::empty();
    if recs.len() == 0 {
        assert(effects(none, recs) == none);
        assert(m =~= m.union_prefer_right(none));
    } else {
        let t = recs.drop_last();
        assert forall|i: int| 0 <= i < t.len() implies (#[trigger] t[i]) is Put by {
            assert(t[i] == recs[i]);
        }
        lemma_puts_add(m, t);
        assert(recs[recs.len() - 1] is Put);
        let e = effects(none, t);
        assert(effects(m, recs) == effect(effects(m, t), recs.last()));
        assert(effects(none, recs) == effect(e, recs.last()));
        assert(effect(m.union_prefer_right(e), recs.last()) =~= m.union_prefer_right(
            effect(e, recs.last()),
        ));
    }
}

/// Where all that is held already is among what the records store, they give the same as from
/// nothing.
pub proof fn lemma_puts_over_part(m: Held, recs: Seq<Rec>)
    requires
        all_puts(recs),
        part_of(m, effects(Map::empty(), recs)),
    ensures
        effects(m, recs) == effects(Map::empty(), recs),
{
    lemma_puts_add(m, recs);
    let e = effects(Map::empty(), recs);
    assert(m.union_prefer_right(e) =~= e);
}

} // verus!
