//! What a node holds: shards by object, channel, layer and hash, in the order in
//! which they first came, and what each record of the log does to them.
use vstd::prelude::*;

use crate::bytes::same32;
use crate::shard_file::Key;
use crate::wal::{hash_views, piece_fits, Piece, Rec, RecordKind, Shard, ShardHash};

verus! {

/// When something was written, in milliseconds since 1970.
pub type WriteEpoch = u64;

/// A shard that a node holds.
#[derive(Debug)]
pub struct Entry {
    pub key: Key,
    pub hash: ShardHash,
    pub shard: Shard,
    pub epoch: WriteEpoch,
}

/// A shard that a node holds, as a mathematical value.
pub struct Item {
    pub key: Key,
    pub hash: Seq<u8>,
    pub shard: Piece,
    pub epoch: u64,
}

impl View for Entry {
    type V = Item;

    open spec fn view(&self) -> Item {
        Item { key: self.key, hash: self.hash@, shard: self.shard@, epoch: self.epoch }
    }
}

/// The items that `v` stands for.
pub open spec fn item_views(v: Seq<Entry>) -> Seq<Item> {
    v.map_values(|e: Entry| e@)
}

/// Whether an item is the shard with this hash under this key.
pub open spec fn is_slot(i: Item, key: Key, hash: Seq<u8>) -> bool {
    i.key == key && i.hash == hash
}

/// The place of the shard with this hash under this key, or the number of items.
pub open spec fn place(items: Seq<Item>, key: Key, hash: Seq<u8>) -> int
    decreases items.len(),
{
    if items.len() == 0 || is_slot(items[0], key, hash) {
        0
    } else {
        1 + place(items.drop_first(), key, hash)
    }
}

/// Whether the shard with this hash is held under this key.
pub open spec fn holds(items: Seq<Item>, key: Key, hash: Seq<u8>) -> bool {
    place(items, key, hash) < items.len()
}

/// Whether no shard is held twice under one key.
pub open spec fn no_twins(items: Seq<Item>) -> bool {
    forall|i: int, j: int|
        0 <= i < j < items.len() ==> !is_slot(#[trigger] items[i], (#[trigger] items[j]).key, items[j].hash)
}

/// The items with `it` among them: in the place of the shard with that hash under
/// that key, or else behind all others.
pub open spec fn stored(items: Seq<Item>, it: Item) -> Seq<Item> {
    if holds(items, it.key, it.hash) {
        items.update(place(items, it.key, it.hash), it)
    } else {
        items.push(it)
    }
}

/// The items that satisfy `p`, in their order.
pub open spec fn keep(items: Seq<Item>, p: spec_fn(Item) -> bool) -> Seq<Item>
    decreases items.len(),
{
    if items.len() == 0 {
        items
    } else {
        let rest = keep(items.drop_first(), p);
        if p(items[0]) {
            seq![items[0]] + rest
        } else {
            rest
        }
    }
}

/// The condition that an item is not of the object.
pub open spec fn not_of(object_id: u64) -> spec_fn(Item) -> bool {
    |i: Item| i.key.0 != object_id
}

/// The condition that an item has none of the hashes.
pub open spec fn has_none_of(hashes: Seq<Seq<u8>>) -> spec_fn(Item) -> bool {
    |i: Item| !hashes.contains(i.hash)
}

/// The condition that an item has one of the hashes and is no younger than `max`.
pub open spec fn due(targets: Seq<Seq<u8>>, max: u64) -> spec_fn(Item) -> bool {
    |i: Item| targets.contains(i.hash) && i.epoch <= max
}

/// The condition that an item has none of the hashes, or is younger than `max`.
pub open spec fn not_due(targets: Seq<Seq<u8>>, max: u64) -> spec_fn(Item) -> bool {
    |i: Item| !(targets.contains(i.hash) && i.epoch <= max)
}

/// The items without those of an object.
pub open spec fn without_object(items: Seq<Item>, object_id: u64) -> Seq<Item> {
    keep(items, not_of(object_id))
}

/// The items without those that have one of the hashes.
pub open spec fn without_hashes(items: Seq<Item>, hashes: Seq<Seq<u8>>) -> Seq<Item> {
    keep(items, has_none_of(hashes))
}

/// The items after a record of the log.
pub open spec fn applied(items: Seq<Item>, rec: Rec, epoch: u64) -> Seq<Item> {
    match rec {
        Rec::Put { object_id, channel, layer, hash, shard } => stored(
            items,
            Item { key: (object_id, channel, layer), hash, shard, epoch },
        ),
        Rec::Purge { object_id } => without_object(items, object_id),
        Rec::PurgeHashes { hashes } => without_hashes(items, hashes),
        Rec::Wipe => Seq::empty(),
    }
}

/// The items after a row of records.
pub open spec fn applied_all(items: Seq<Item>, recs: Seq<Rec>, epoch: u64) -> Seq<Item>
    decreases recs.len(),
{
    if recs.len() == 0 {
        items
    } else {
        applied_all(applied(items, recs[0], epoch), recs.drop_first(), epoch)
    }
}

/// `place` is where the shard stands.
pub proof fn lemma_place(items: Seq<Item>, key: Key, hash: Seq<u8>)
    ensures
        0 <= place(items, key, hash) <= items.len(),
        forall|j: int| 0 <= j < place(items, key, hash) ==> !is_slot(#[trigger] items[j], key, hash),
        holds(items, key, hash) ==> is_slot(items[place(items, key, hash)], key, hash),
    decreases items.len(),
{
    if items.len() > 0 && !is_slot(items[0], key, hash) {
        let t = items.drop_first();
        lemma_place(t, key, hash);
        assert forall|j: int| 0 <= j < place(items, key, hash) implies !is_slot(
            #[trigger] items[j],
            key,
            hash,
        ) by {
            if j > 0 {
                assert(t[j - 1] == items[j]);
            }
        }
    }
}

/// Where the shard stands first is `place`.
pub proof fn lemma_place_is(items: Seq<Item>, key: Key, hash: Seq<u8>, i: int)
    requires
        0 <= i <= items.len(),
        forall|j: int| 0 <= j < i ==> !is_slot(#[trigger] items[j], key, hash),
        i < items.len() ==> is_slot(items[i], key, hash),
    ensures
        place(items, key, hash) == i,
{
    lemma_place(items, key, hash);
    let k = place(items, key, hash);
    if k < i {
        assert(!is_slot(items[k], key, hash));
    } else if i < k {
        assert(!is_slot(items[i], key, hash));
    }
}

/// What is kept was there and satisfies the condition; and what was there and
/// satisfies it is kept.
pub proof fn lemma_keep(items: Seq<Item>, p: spec_fn(Item) -> bool)
    ensures
        keep(items, p).len() <= items.len(),
        forall|x: Item| #[trigger] keep(items, p).contains(x) <==> (items.contains(x) && p(x)),
    decreases items.len(),
{
    if items.len() > 0 {
        let t = items.drop_first();
        lemma_keep(t, p);
        let k = keep(items, p);
        let r = keep(t, p);
        assert forall|x: Item| #[trigger] k.contains(x) <==> (items.contains(x) && p(x)) by {
            if items.contains(x) && p(x) {
                let i = choose|i: int| 0 <= i < items.len() && items[i] == x;
                if i == 0 {
                    assert(k[0] == x);
                } else {
                    assert(t[i - 1] == x);
                    assert(r.contains(x));
                    let j = choose|j: int| 0 <= j < r.len() && r[j] == x;
                    if p(items[0]) {
                        assert(k[j + 1] == x);
                    }
                }
            }
            if k.contains(x) {
                let j = choose|j: int| 0 <= j < k.len() && k[j] == x;
                if p(items[0]) && j == 0 {
                    assert(items[0] == x);
                } else {
                    if p(items[0]) {
                        assert(r[j - 1] == x);
                    }
                    assert(r.contains(x));
                    assert(t.contains(x));
                    let i = choose|i: int| 0 <= i < t.len() && t[i] == x;
                    assert(items[i + 1] == x);
                }
            }
        }
    }
}

/// Keeping only some items makes no twins.
pub proof fn lemma_keep_no_twins(items: Seq<Item>, p: spec_fn(Item) -> bool)
    requires
        no_twins(items),
    ensures
        no_twins(keep(items, p)),
    decreases items.len(),
{
    if items.len() > 0 {
        let t = items.drop_first();
        assert(no_twins(t)) by {
            assert forall|i: int, j: int| 0 <= i < j < t.len() implies !is_slot(
                #[trigger] t[i],
                (#[trigger] t[j]).key,
                t[j].hash,
            ) by {
                assert(t[i] == items[i + 1] && t[j] == items[j + 1]);
            }
        }
        lemma_keep_no_twins(t, p);
        if p(items[0]) {
            let k = keep(items, p);
            let r = keep(t, p);
            lemma_keep(t, p);
            assert forall|i: int, j: int| 0 <= i < j < k.len() implies !is_slot(
                #[trigger] k[i],
                (#[trigger] k[j]).key,
                k[j].hash,
            ) by {
                assert(k[j] == r[j - 1]);
                if i == 0 {
                    assert(r.contains(k[j]));
                    assert(t.contains(k[j]));
                    let m = choose|m: int| 0 <= m < t.len() && t[m] == k[j];
                    assert(items[m + 1] == k[j]);
                    assert(!is_slot(items[0], items[m + 1].key, items[m + 1].hash));
                } else {
                    assert(k[i] == r[i - 1]);
                }
            }
        }
    }
}

/// Storing makes no twins.
pub proof fn lemma_stored_no_twins(items: Seq<Item>, it: Item)
    requires
        no_twins(items),
    ensures
        no_twins(stored(items, it)),
{
    lemma_place(items, it.key, it.hash);
    let s = stored(items, it);
    let k = place(items, it.key, it.hash);
    assert forall|i: int, j: int| 0 <= i < j < s.len() implies !is_slot(
        #[trigger] s[i],
        (#[trigger] s[j]).key,
        s[j].hash,
    ) by {
        if holds(items, it.key, it.hash) {
            assert(!is_slot(items[i], items[j].key, items[j].hash));
        } else if j < items.len() {
            assert(!is_slot(items[i], items[j].key, items[j].hash));
        } else {
            assert(!is_slot(items[i], it.key, it.hash));
        }
    }
}

/// No record makes twins.
pub proof fn lemma_applied_no_twins(items: Seq<Item>, rec: Rec, epoch: u64)
    requires
        no_twins(items),
    ensures
        no_twins(applied(items, rec, epoch)),
{
    match rec {
        Rec::Put { object_id, channel, layer, hash, shard } => {
            lemma_stored_no_twins(
                items,
                Item { key: (object_id, channel, layer), hash, shard, epoch },
            );
        },
        Rec::Purge { object_id } => {
            lemma_keep_no_twins(items, not_of(object_id));
        },
        Rec::PurgeHashes { hashes } => {
            lemma_keep_no_twins(items, has_none_of(hashes));
        },
        Rec::Wipe => {},
    }
}

/// Whether every shard is short enough to be sealed in one piece.
pub open spec fn all_fit(items: Seq<Item>) -> bool {
    forall|i: int| 0 <= i < items.len() ==> piece_fits((#[trigger] items[i]).shard)
}

/// What is kept of shards that fit, fits.
pub proof fn lemma_keep_fits(items: Seq<Item>, p: spec_fn(Item) -> bool)
    requires
        all_fit(items),
    ensures
        all_fit(keep(items, p)),
{
    lemma_keep(items, p);
    let k = keep(items, p);
    assert forall|i: int| 0 <= i < k.len() implies piece_fits((#[trigger] k[i]).shard) by {
        assert(k.contains(k[i]));
        assert(items.contains(k[i]));
        let j = choose|j: int| 0 <= j < items.len() && items[j] == k[i];
        assert(piece_fits(items[j].shard));
    }
}

/// Storing a shard that fits leaves only shards that fit.
pub proof fn lemma_stored_fits(items: Seq<Item>, it: Item)
    requires
        all_fit(items),
        piece_fits(it.shard),
    ensures
        all_fit(stored(items, it)),
{
    lemma_place(items, it.key, it.hash);
    let s = stored(items, it);
    assert forall|i: int| 0 <= i < s.len() implies piece_fits((#[trigger] s[i]).shard) by {
        if i < items.len() {
            assert(piece_fits(items[i].shard));
        }
    }
}

/// Whether an entry is the shard with this hash under this key.
pub fn at_slot(e: &Entry, key: Key, hash: &ShardHash) -> (r: bool)
    ensures
        r == is_slot(e@, key, hash@),
{
    e.key.0 == key.0 && e.key.1 == key.1 && e.key.2 == key.2 && same32(&e.hash, hash)
}

/// The place of the shard with this hash under this key, or the number of entries.
pub fn find_slot(v: &Vec<Entry>, key: Key, hash: &ShardHash) -> (r: usize)
    ensures
        r == place(item_views(v@), key, hash@),
        r <= v@.len(),
{
    let mut i: usize = 0;
    while i < v.len() && !at_slot(&v[i], key, hash)
        invariant
            0 <= i <= v@.len(),
            forall|j: int| 0 <= j < i ==> !is_slot(#[trigger] item_views(v@)[j], key, hash@),
        decreases v@.len() - i,
    {
        assert(item_views(v@)[i as int] == v@[i as int]@);
        i += 1;
    }
    proof {
        if i < v@.len() {
            assert(item_views(v@)[i as int] == v@[i as int]@);
        }
        lemma_place_is(item_views(v@), key, hash@, i as int);
    }
    i
}

/// Puts an entry in its place.
pub fn store_entry(v: &mut Vec<Entry>, e: Entry)
    ensures
        item_views(final(v)@) == stored(item_views(old(v)@), e@),
{
    let i: usize = find_slot(v, e.key, &e.hash);
    let ghost before = item_views(v@);
    let ghost it = e@;
    if i < v.len() {
        v[i] = e;
        proof {
            assert(item_views(v@) =~= before.update(i as int, it));
        }
    } else {
        v.push(e);
        proof {
            assert(item_views(v@) =~= before.push(it));
        }
    }
}

/// Whether `hashes` holds `h`.
pub fn among(hashes: &[ShardHash], h: &ShardHash) -> (r: bool)
    ensures
        r == hash_views(hashes@).contains(h@),
{
    let mut i: usize = 0;
    while i < hashes.len()
        invariant
            0 <= i <= hashes@.len(),
            forall|j: int| 0 <= j < i ==> #[trigger] hash_views(hashes@)[j] != h@,
        decreases hashes@.len() - i,
    {
        assert(hash_views(hashes@)[i as int] == hashes@[i as int]@);
        if same32(&hashes[i], h) {
            return true;
        }
        i += 1;
    }
    false
}

/// Drops the shards of an object, and says which hashes they had.
pub fn drop_object(v: &mut Vec<Entry>, object_id: u64) -> (r: Vec<ShardHash>)
    ensures
        item_views(final(v)@) == without_object(item_views(old(v)@), object_id),
        r@.len() + final(v)@.len() == old(v)@.len(),
        forall|h: Seq<u8>|
            #[trigger] hash_views(r@).contains(h) <==> exists|i: int|
                0 <= i < old(v)@.len() && (#[trigger] old(v)@[i]).key.0 == object_id && old(v)@[i].hash@ == h,
{
    let ghost items = item_views(v@);
    let ghost all = v@;
    let ghost p = not_of(object_id);
    let mut gone: Vec<ShardHash> = Vec::new();
    let mut i: usize = v.len();
    assert(keep(items.skip(i as int), p) =~= items.skip(i as int));
    assert(items.take(i as int) + items.skip(i as int) =~= items);
    while i > 0
        invariant
            0 <= i <= items.len(),
            items == item_views(all),
            p == not_of(object_id),
            item_views(v@) == items.take(i as int) + keep(items.skip(i as int), p),
            i <= v@.len(),
            gone@.len() + v@.len() == items.len(),
            forall|h: Seq<u8>|
                #[trigger] hash_views(gone@).contains(h) <==> exists|j: int|
                    i <= j < all.len() && (#[trigger] all[j]).key.0 == object_id && all[j].hash@ == h,
        decreases i,
    {
        i -= 1;
        let ghost seen = hash_views(gone@);
        let ghost was = item_views(v@);
        proof {
            assert(items.skip(i as int).drop_first() =~= items.skip(i + 1));
            assert(was[i as int] == items[i as int]);
            assert(was[i as int] == v@[i as int]@);
            assert(items[i as int] == all[i as int]@);
        }
        if v[i].key.0 == object_id {
            let e = v.remove(i);
            let ghost before = gone@;
            gone.push(e.hash);
            proof {
                assert(!p(items.skip(i as int)[0]));
                assert(item_views(v@) =~= was.remove(i as int));
                assert(item_views(v@) =~= items.take(i as int) + keep(items.skip(i as int), p));
                assert(hash_views(gone@) =~= seen.push(e.hash@));
                assert forall|h: Seq<u8>|
                    #[trigger] hash_views(gone@).contains(h) <==> exists|j: int|
                        i <= j < all.len() && (#[trigger] all[j]).key.0 == object_id && all[j].hash@
                            == h by {
                    assert(seen.contains(h) <==> exists|j: int|
                        i + 1 <= j < all.len() && (#[trigger] all[j]).key.0 == object_id
                            && all[j].hash@ == h);
                    if hash_views(gone@).contains(h) {
                        let m = choose|m: int| 0 <= m < gone@.len() && hash_views(gone@)[m] == h;
                        if m < seen.len() {
                            assert(seen[m] == h);
                            assert(seen.contains(h));
                        } else {
                            assert(all[i as int].hash@ == h);
                        }
                    }
                    if exists|j: int|
                        i <= j < all.len() && (#[trigger] all[j]).key.0 == object_id && all[j].hash@
                            == h {
                        let j = choose|j: int|
                            i <= j < all.len() && (#[trigger] all[j]).key.0 == object_id
                                && all[j].hash@ == h;
                        if j == i {
                            assert(hash_views(gone@)[seen.len() as int] == h);
                        } else {
                            assert(seen.contains(h));
                            let m = choose|m: int| 0 <= m < seen.len() && seen[m] == h;
                            assert(hash_views(gone@)[m] == h);
                        }
                    }
                }
            }
        } else {
            proof {
                assert(item_views(v@) =~= items.take(i as int) + keep(items.skip(i as int), p));
                assert forall|h: Seq<u8>|
                    #[trigger] hash_views(gone@).contains(h) <==> exists|j: int|
                        i <= j < all.len() && (#[trigger] all[j]).key.0 == object_id && all[j].hash@
                            == h by {
                    if exists|j: int|
                        i <= j < all.len() && (#[trigger] all[j]).key.0 == object_id && all[j].hash@
                            == h {
                        let j = choose|j: int|
                            i <= j < all.len() && (#[trigger] all[j]).key.0 == object_id
                                && all[j].hash@ == h;
                        assert(i + 1 <= j);
                    }
                }
            }
        }
    }
    assert(items.skip(0) =~= items);
    assert(items.take(0) + keep(items.skip(0), p) =~= keep(items, p));
    gone
}

/// Drops the shards that have one of the hashes.
pub fn drop_hashes(v: &mut Vec<Entry>, hashes: &[ShardHash])
    ensures
        item_views(final(v)@) == without_hashes(item_views(old(v)@), hash_views(hashes@)),
{
    let ghost items = item_views(v@);
    let ghost hs = hash_views(hashes@);
    let ghost p = has_none_of(hs);
    let mut i: usize = v.len();
    assert(keep(items.skip(i as int), p) =~= items.skip(i as int));
    assert(items.take(i as int) + items.skip(i as int) =~= items);
    while i > 0
        invariant
            0 <= i <= items.len(),
            hs == hash_views(hashes@),
            p == has_none_of(hs),
            item_views(v@) == items.take(i as int) + keep(items.skip(i as int), p),
            i <= v@.len(),
        decreases i,
    {
        i -= 1;
        let ghost was = item_views(v@);
        proof {
            assert(items.skip(i as int).drop_first() =~= items.skip(i + 1));
            assert(was[i as int] == items[i as int]);
            assert(was[i as int] == v@[i as int]@);
        }
        if among(hashes, &v[i].hash) {
            let _e = v.remove(i);
            assert(!p(items.skip(i as int)[0]));
            assert(item_views(v@) =~= was.remove(i as int));
            assert(item_views(v@) =~= items.take(i as int) + keep(items.skip(i as int), p));
        } else {
            assert(item_views(v@) =~= items.take(i as int) + keep(items.skip(i as int), p));
        }
    }
    assert(items.skip(0) =~= items);
    assert(items.take(0) + keep(items.skip(0), p) =~= keep(items, p));
}

/// Drops the shards that have one of the hashes and are no younger than `max`.
pub fn drop_due(v: &mut Vec<Entry>, targets: &[ShardHash], max: WriteEpoch)
    ensures
        item_views(final(v)@) == keep(item_views(old(v)@), not_due(hash_views(targets@), max)),
        final(v)@.len() <= old(v)@.len(),
{
    let ghost items = item_views(v@);
    let ghost hs = hash_views(targets@);
    let ghost p = not_due(hs, max);
    let mut i: usize = v.len();
    assert(keep(items.skip(i as int), p) =~= items.skip(i as int));
    assert(items.take(i as int) + items.skip(i as int) =~= items);
    while i > 0
        invariant
            0 <= i <= items.len(),
            hs == hash_views(targets@),
            p == not_due(hs, max),
            item_views(v@) == items.take(i as int) + keep(items.skip(i as int), p),
            i <= v@.len() <= items.len(),
        decreases i,
    {
        i -= 1;
        let ghost was = item_views(v@);
        proof {
            assert(items.skip(i as int).drop_first() =~= items.skip(i + 1));
            assert(was[i as int] == items[i as int]);
            assert(was[i as int] == v@[i as int]@);
        }
        if v[i].epoch <= max && among(targets, &v[i].hash) {
            let _e = v.remove(i);
            assert(!p(items.skip(i as int)[0]));
            assert(item_views(v@) =~= was.remove(i as int));
            assert(item_views(v@) =~= items.take(i as int) + keep(items.skip(i as int), p));
        } else {
            assert(item_views(v@) =~= items.take(i as int) + keep(items.skip(i as int), p));
        }
    }
    assert(items.skip(0) =~= items);
    assert(items.take(0) + keep(items.skip(0), p) =~= keep(items, p));
}

/// Where nothing is due, everything is kept.
pub proof fn lemma_none_due(items: Seq<Item>, targets: Seq<Seq<u8>>, max: u64)
    requires
        keep(items, due(targets, max)).len() == 0,
    ensures
        keep(items, not_due(targets, max)) == items,
    decreases items.len(),
{
    if items.len() > 0 {
        lemma_none_due(items.drop_first(), targets, max);
        assert(seq![items[0]] + items.drop_first() =~= items);
    }
}

/// What a record of the log does.
pub fn apply_wal_record_to_shards(v: &mut Vec<Entry>, rec: RecordKind, epoch: WriteEpoch)
    ensures
        item_views(final(v)@) == applied(item_views(old(v)@), rec@, epoch),
{
    match rec {
        RecordKind::Put { object_id, channel, layer, hash, shard } => {
            store_entry(v, Entry { key: (object_id, channel, layer), hash, shard, epoch });
        },
        RecordKind::Purge { object_id } => {
            let _gone = drop_object(v, object_id);
        },
        RecordKind::PurgeHashes { hashes } => {
            drop_hashes(v, hashes.as_slice());
        },
        RecordKind::Wipe => {
            v.clear();
            assert(item_views(v@) =~= Seq::<Item>::empty());
        },
    }
}

} // verus!
