//! Opening a store: what a node finds in its directory.
use vstd::prelude::*;
use vstd::string::StringExecFns;

use crate::keyring::{Dek, Keyring, Ring};
use crate::live::{
    all_fit, apply_wal_record_to_shards, applied, applied_all, has_none_of, item_views,
    lemma_applied_no_twins, lemma_keep_fits, lemma_stored_fits, lemma_stored_no_twins, no_twins,
    store_entry, stored, Entry, Item, WriteEpoch,
};
use crate::shard_file::{
    has_shard_name, is_shard_name, parse_shard_file, read_shard_file, shard_digest,
};
use crate::store::{DiskOp, Op, State, Store};
use crate::text::{
    chars_of, dec, dec_padded, ends, number, pad_left, padded_round_trip, parse_number, starts,
    strip_prefix, strip_suffix,
};
use crate::wal::{
    by_number, by_number_is_sorted, closed_segment, numbered, piece_fits, read_closed_segment,
    read_segment, rec_fits, record_views, ring_keys, seg_magic, segment, segment_number,
    walk_wal_segments, Log, Numbered, Rec, RecordKind, WalError, WalWriter,
};

verus! {

broadcast use crate::bytes::group_be;

/// A file below the node's directory.
#[derive(Debug)]
pub struct DiskFile {
    pub name: String,
    pub bytes: Vec<u8>,
    /// When it was last written, in milliseconds since 1970.
    pub mtime_ms: u64,
}

/// The number in the name of a compacted segment's file.
pub open spec fn compact_number(name: Seq<char>) -> Option<nat> {
    if !ends(name, ".seg"@) {
        None
    } else {
        let stem = name.take(name.len() - 4);
        if !starts(stem, "wal-c"@) {
            None
        } else {
            number(stem.skip(5), u64::MAX as nat)
        }
    }
}

/// The name of a compacted segment's file.
pub open spec fn compact_name(epoch: u64) -> Seq<char> {
    "wal-c"@ + pad_left(dec(epoch as nat), 8, '0') + ".seg"@
}

/// The number in the name of a compacted segment's file.
pub fn parse_compact_name(name: &str) -> (r: Option<u64>)
    ensures
        match r {
            Some(n) => compact_number(name@) == Some(n as nat),
            None => compact_number(name@) is None,
        },
{
    proof {
        reveal_strlit(".seg");
        reveal_strlit("wal-c");
    }
    let v = chars_of(name);
    match strip_suffix(v.as_slice(), ".seg") {
        None => None,
        Some(stem) => match strip_prefix(stem, "wal-c") {
            None => None,
            Some(digits) => parse_number(digits, u64::MAX),
        },
    }
}

/// The name of a compacted segment's file.
pub fn compact_path(epoch: u64) -> (r: String)
    ensures
        r@ == compact_name(epoch),
{
    String::from_str("wal-c").concat(dec_padded(epoch, 8).as_str()).concat(".seg")
}

/// The number in a compacted segment's name is the one it was made from, and the
/// name is not taken for that of another segment.
pub proof fn compact_names_round_trip(epoch: u64)
    ensures
        compact_number(compact_name(epoch)) == Some(epoch as nat),
        segment_number(compact_name(epoch)) is None,
{
    reveal_strlit(".seg");
    reveal_strlit("wal-c");
    reveal_strlit("wal-");
    let d = pad_left(dec(epoch as nat), 8, '0');
    let n = compact_name(epoch);
    padded_round_trip(epoch as nat, 8, u64::MAX as nat);
    assert(n.skip(n.len() - 4) =~= ".seg"@);
    let stem = n.take(n.len() - 4);
    assert(stem =~= "wal-c"@ + d);
    assert(stem.take(5) =~= "wal-c"@);
    assert(stem.skip(5) =~= d);
    assert(stem.skip(4)[0] == 'c');
    assert(!crate::text::is_digit(crate::text::unsigned_part(stem.skip(4))[0]));
}

/// The names of some files.
pub open spec fn file_names(files: Seq<DiskFile>) -> Seq<String> {
    files.map_values(|f: DiskFile| f.name)
}

/// The greatest number of a compacted segment among some names; 0 for none.
pub open spec fn top_compact(names: Seq<String>) -> u64
    decreases names.len(),
{
    if names.len() == 0 {
        0
    } else {
        let t = top_compact(names.drop_last());
        match compact_number(names.last()@) {
            Some(n) => if n > t {
                n as u64
            } else {
                t
            },
            None => t,
        }
    }
}

/// Whether some name is that of a compacted segment.
pub open spec fn any_compact(names: Seq<String>) -> bool {
    exists|i: int| 0 <= i < names.len() && compact_number((#[trigger] names[i])@) is Some
}

/// The place of the first file that is the compacted segment numbered `n`.
pub open spec fn compact_place(files: Seq<DiskFile>, n: u64) -> int
    decreases files.len(),
{
    if files.len() == 0 || compact_number(files[0].name@) == Some(n as nat) {
        0
    } else {
        1 + compact_place(files.drop_first(), n)
    }
}

/// The place of the first file with this name.
pub open spec fn file_place(files: Seq<DiskFile>, name: Seq<char>) -> int
    decreases files.len(),
{
    if files.len() == 0 || files[0].name@ == name {
        0
    } else {
        1 + file_place(files.drop_first(), name)
    }
}

/// What the single-shard files hold: those that cannot be read are passed over.
pub open spec fn legacy_items(files: Seq<DiskFile>, keys: Option<Seq<Dek>>) -> Seq<Item>
    decreases files.len(),
{
    if files.len() == 0 {
        Seq::empty()
    } else {
        let before = legacy_items(files.drop_last(), keys);
        let f = files.last();
        if !is_shard_name(f.name@) {
            before
        } else {
            match parse_shard_file(f.bytes@, keys) {
                Ok((k, p)) => stored(
                    before,
                    Item { key: k, hash: shard_digest(p), shard: p, epoch: f.mtime_ms },
                ),
                Err(_) => before,
            }
        }
    }
}

/// The items after the compacted segment with the greatest number was read.
pub open spec fn after_compacted(items: Seq<Item>, files: Seq<DiskFile>, keys: Option<Seq<Dek>>) -> Result<
    Seq<Item>,
    WalError,
> {
    let n = top_compact(file_names(files));
    if n == 0 {
        Ok(items)
    } else {
        let f = files[compact_place(files, n)];
        match closed_segment(f.bytes@, keys) {
            Err(e) => Err(e),
            Ok(recs) => Ok(applied_all(items, recs, f.mtime_ms)),
        }
    }
}

/// The items after the segments in `list` that are numbered over `after` were read,
/// in that order.
pub open spec fn replayed(
    items: Seq<Item>,
    list: Seq<Numbered>,
    after: u64,
    files: Seq<DiskFile>,
    keys: Option<Seq<Dek>>,
) -> Result<Seq<Item>, WalError>
    decreases list.len(),
{
    if list.len() == 0 {
        Ok(items)
    } else if list[0].0 <= after {
        replayed(items, list.drop_first(), after, files, keys)
    } else {
        let f = files[file_place(files, list[0].1@)];
        match segment(f.bytes@, keys) {
            Err(e) => Err(e),
            Ok(t) => replayed(
                applied_all(items, t.records, f.mtime_ms),
                list.drop_first(),
                after,
                files,
                keys,
            ),
        }
    }
}

/// What a node finds in its directory: the single-shard files, on them the newest
/// compacted segment, and on that the segments with greater numbers, in order.
pub open spec fn recovered(
    legacy: Seq<DiskFile>,
    files: Seq<DiskFile>,
    keys: Option<Seq<Dek>>,
) -> Result<Seq<Item>, WalError> {
    match after_compacted(legacy_items(legacy, keys), files, keys) {
        Err(e) => Err(e),
        Ok(items) => replayed(
            items,
            by_number(numbered(file_names(files))),
            top_compact(file_names(files)),
            files,
            keys,
        ),
    }
}

/// The greatest number in `list`, or `after` where that is greater.
pub open spec fn top_number(list: Seq<Numbered>, after: u64) -> u64
    decreases list.len(),
{
    if list.len() == 0 {
        after
    } else {
        let t = top_number(list.drop_last(), after);
        if list.last().0 > t {
            list.last().0
        } else {
            t
        }
    }
}

/// The greatest number of a segment of either kind.
pub open spec fn top_segment(files: Seq<DiskFile>) -> u64 {
    top_number(by_number(numbered(file_names(files))), top_compact(file_names(files)))
}

proof fn lemma_top_compact(names: Seq<String>)
    ensures
        top_compact(names) > 0 ==> exists|i: int|
            0 <= i < names.len() && compact_number((#[trigger] names[i])@) == Some(
                top_compact(names) as nat,
            ),
    decreases names.len(),
{
    if names.len() > 0 {
        let t = names.drop_last();
        lemma_top_compact(t);
        if top_compact(names) > 0 {
            if top_compact(names) == top_compact(t) {
                let i = choose|i: int|
                    0 <= i < t.len() && compact_number((#[trigger] t[i])@) == Some(
                        top_compact(t) as nat,
                    );
                assert(names[i] == t[i]);
            } else {
                assert(names[names.len() - 1] == names.last());
            }
        }
    }
}

pub proof fn lemma_compact_place(files: Seq<DiskFile>, n: u64)
    ensures
        0 <= compact_place(files, n) <= files.len(),
        (exists|i: int| 0 <= i < files.len() && compact_number((#[trigger] files[i]).name@) == Some(n as nat))
            ==> compact_place(files, n) < files.len(),
        forall|j: int|
            0 <= j < compact_place(files, n) ==> compact_number((#[trigger] files[j]).name@) != Some(
                n as nat,
            ),
        compact_place(files, n) < files.len() ==> compact_number(
            files[compact_place(files, n)].name@,
        ) == Some(n as nat),
    decreases files.len(),
{
    if files.len() > 0 && compact_number(files[0].name@) != Some(n as nat) {
        let t = files.drop_first();
        lemma_compact_place(t, n);
        assert forall|j: int| 0 <= j < compact_place(files, n) implies compact_number(
            (#[trigger] files[j]).name@,
        ) != Some(n as nat) by {
            if j > 0 {
                assert(t[j - 1] == files[j]);
            }
        }
        if exists|i: int| 0 <= i < files.len() && compact_number((#[trigger] files[i]).name@) == Some(n as nat) {
            let i = choose|i: int| 0 <= i < files.len() && compact_number((#[trigger] files[i]).name@) == Some(n as nat);
            assert(t[i - 1] == files[i]);
        }
    }
}

pub proof fn lemma_file_place(files: Seq<DiskFile>, name: Seq<char>)
    ensures
        0 <= file_place(files, name) <= files.len(),
        forall|j: int| 0 <= j < file_place(files, name) ==> (#[trigger] files[j]).name@ != name,
        file_place(files, name) < files.len() ==> files[file_place(files, name)].name@ == name,
    decreases files.len(),
{
    if files.len() > 0 && files[0].name@ != name {
        let t = files.drop_first();
        lemma_file_place(t, name);
        assert forall|j: int| 0 <= j < file_place(files, name) implies (#[trigger] files[j]).name@
            != name by {
            if j > 0 {
                assert(t[j - 1] == files[j]);
            }
        }
    }
}

/// Every segment in order stands for one of the names.
proof fn lemma_numbered_from(names: Seq<String>)
    ensures
        forall|i: int|
            0 <= i < numbered(names).len() ==> exists|j: int|
                0 <= j < names.len() && #[trigger] names[j] == (#[trigger] numbered(names)[i]).1,
    decreases names.len(),
{
    if names.len() > 0 {
        let t = names.drop_last();
        lemma_numbered_from(t);
        let r = numbered(names);
        assert forall|i: int| 0 <= i < r.len() implies exists|j: int|
            0 <= j < names.len() && #[trigger] names[j] == (#[trigger] r[i]).1 by {
            if i < numbered(t).len() {
                assert(r[i] == numbered(t)[i]);
                let j = choose|j: int| 0 <= j < t.len() && #[trigger] t[j] == numbered(t)[i].1;
                assert(names[j] == r[i].1);
            } else {
                assert(names[names.len() - 1] == r[i].1);
            }
        }
    }
}

proof fn lemma_sorted_from(names: Seq<String>, x: Numbered)
    requires
        by_number(numbered(names)).contains(x),
    ensures
        exists|j: int| 0 <= j < names.len() && #[trigger] names[j] == x.1,
{
    broadcast use vstd::seq_lib::group_to_multiset_ensures;

    let s = numbered(names);
    let b = by_number(s);
    by_number_is_sorted(s);
    assert(b.to_multiset().count(x) > 0);
    assert(s.contains(x));
    let i = choose|i: int| 0 <= i < s.len() && s[i] == x;
    lemma_numbered_from(names);
    assert(numbered(names)[i] == x);
}

/// Records from a segment leave no twins and only shards that can be sealed.
proof fn lemma_applied_all(items: Seq<Item>, recs: Seq<Rec>, epoch: u64)
    requires
        no_twins(items),
        all_fit(items),
        forall|i: int| 0 <= i < recs.len() ==> rec_fits(#[trigger] recs[i]),
    ensures
        no_twins(applied_all(items, recs, epoch)),
        all_fit(applied_all(items, recs, epoch)),
    decreases recs.len(),
{
    if recs.len() > 0 {
        let r = recs[0];
        let more = recs.drop_first();
        assert(rec_fits(recs[0]));
        lemma_applied_no_twins(items, r, epoch);
        match r {
            Rec::Put { object_id, channel, layer, hash, shard } => {
                lemma_stored_fits(
                    items,
                    Item { key: (object_id, channel, layer), hash, shard, epoch },
                );
            },
            Rec::Purge { object_id } => {
                lemma_keep_fits(items, crate::live::not_of(object_id));
            },
            Rec::PurgeHashes { hashes } => {
                lemma_keep_fits(items, has_none_of(hashes));
            },
            Rec::Wipe => {},
        }
        assert forall|i: int| 0 <= i < more.len() implies rec_fits(#[trigger] more[i]) by {
            assert(more[i] == recs[i + 1]);
        }
        lemma_applied_all(applied(items, r, epoch), more, epoch);
    }
}

/// Applies the records of one segment.
fn apply_records(v: &mut Vec<Entry>, recs: Vec<RecordKind>, epoch: WriteEpoch)
    ensures
        item_views(final(v)@) == applied_all(item_views(old(v)@), record_views(recs@), epoch),
{
    let ghost all = record_views(recs@);
    let ghost start = item_views(v@);
    let mut rest: Vec<RecordKind> = Vec::new();
    let mut src: Vec<RecordKind> = recs;
    // The records are taken from the front: reversed once, then popped.
    while src.len() > 0
        invariant
            all == record_views(src@) + record_views(rest@).reverse(),
        decreases src@.len(),
    {
        let ghost s0 = src@;
        let ghost r0 = rest@;
        match src.pop() {
            Some(r) => {
                rest.push(r);
                proof {
                    assert(record_views(s0) =~= record_views(src@).push(r@));
                    assert(record_views(rest@) =~= record_views(r0).push(r@));
                    assert(all =~= record_views(src@) + record_views(rest@).reverse());
                }
            },
            None => {},
        }
    }
    assert(all =~= record_views(rest@).reverse());
    while rest.len() > 0
        invariant
            applied_all(start, all, epoch) == applied_all(
                item_views(v@),
                record_views(rest@).reverse(),
                epoch,
            ),
        decreases rest@.len(),
    {
        let ghost r0 = rest@;
        match rest.pop() {
            Some(r) => {
                proof {
                    assert(record_views(r0) =~= record_views(rest@).push(r@));
                    assert(record_views(r0).reverse()[0] == r@);
                    assert(record_views(r0).reverse().drop_first() =~= record_views(rest@).reverse());
                }
                apply_wal_record_to_shards(v, r, epoch);
            },
            None => {},
        }
    }
    assert(record_views(rest@).reverse() =~= Seq::<Rec>::empty());
}

/// What the single-shard files hold.
fn load_legacy(files: &Vec<DiskFile>, keys: Option<&Keyring>) -> (r: Vec<Entry>)
    ensures
        item_views(r@) == legacy_items(files@, ring_keys(keys)),
        no_twins(item_views(r@)),
        all_fit(item_views(r@)),
{
    let mut out: Vec<Entry> = Vec::new();
    let mut i: usize = 0;
    assert(item_views(out@) =~= Seq::<Item>::empty());
    while i < files.len()
        invariant
            0 <= i <= files@.len(),
            item_views(out@) == legacy_items(files@.take(i as int), ring_keys(keys)),
            no_twins(item_views(out@)),
            all_fit(item_views(out@)),
        decreases files@.len() - i,
    {
        let f = &files[i];
        let ghost t = files@.take(i + 1);
        assert(t.drop_last() =~= files@.take(i as int));
        assert(t.last() == *f);
        if has_shard_name(f.name.as_str()) {
            match read_shard_file(f.bytes.as_slice(), keys) {
                Ok((key, hash, shard)) => {
                    let e = Entry { key, hash, shard, epoch: f.mtime_ms };
                    proof {
                        lemma_file_fits(f.bytes@, ring_keys(keys));
                        lemma_stored_no_twins(item_views(out@), e@);
                        lemma_stored_fits(item_views(out@), e@);
                    }
                    store_entry(&mut out, e);
                },
                Err(_) => {},
            }
        }
        i += 1;
    }
    assert(files@.take(i as int) =~= files@);
    out
}

/// A shard from a file can be sealed: the header has 32 bits for each length.
proof fn lemma_file_fits(b: Seq<u8>, keys: Option<Seq<Dek>>)
    ensures
        parse_shard_file(b, keys) matches Ok((_, p)) ==> piece_fits(p),
{
}

/// The keys of a ring, where there is one.
pub open spec fn keys_of(keys: Option<Keyring>) -> Option<Seq<Dek>> {
    match keys {
        Some(k) => Some(k@.deks),
        None => None,
    }
}

/// The ring, where there is one.
pub open spec fn ring_in(keys: Option<Keyring>) -> Option<Ring> {
    match keys {
        Some(k) => Some(k@),
        None => None,
    }
}

/// Whether no file has the last number there is, so that the next one exists.
pub open spec fn room_for_next(files: Seq<DiskFile>) -> bool {
    forall|i: int|
        0 <= i < files.len() ==> segment_number((#[trigger] files[i]).name@) != Some(u64::MAX as nat)
            && compact_number(files[i].name@) != Some(u64::MAX as nat)
}

proof fn lemma_top_below(files: Seq<DiskFile>)
    requires
        room_for_next(files),
    ensures
        top_segment(files) < u64::MAX,
        top_compact(file_names(files)) < u64::MAX,
{
    let names = file_names(files);
    lemma_top_compact(names);
    if top_compact(names) > 0 {
        let i = choose|i: int|
            0 <= i < names.len() && compact_number((#[trigger] names[i])@) == Some(
                top_compact(names) as nat,
            );
        assert(files[i].name == names[i]);
    }
    let list = by_number(numbered(names));
    assert forall|i: int| 0 <= i < list.len() implies (#[trigger] list[i]).0 < u64::MAX by {
        lemma_sorted_number(names, list[i]);
        let j = choose|j: int|
            0 <= j < names.len() && segment_number((#[trigger] names[j])@) == Some(list[i].0 as nat);
        assert(files[j].name == names[j]);
    }
    lemma_top_number(list, top_compact(names));
}

proof fn lemma_top_number(list: Seq<Numbered>, after: u64)
    requires
        after < u64::MAX,
        forall|i: int| 0 <= i < list.len() ==> (#[trigger] list[i]).0 < u64::MAX,
    ensures
        top_number(list, after) < u64::MAX,
    decreases list.len(),
{
    if list.len() > 0 {
        assert(list[list.len() - 1].0 < u64::MAX);
        lemma_top_number(list.drop_last(), after);
    }
}

/// The number of a segment in order is the one in its name.
proof fn lemma_sorted_number(names: Seq<String>, x: Numbered)
    requires
        by_number(numbered(names)).contains(x),
    ensures
        exists|j: int|
            0 <= j < names.len() && segment_number((#[trigger] names[j])@) == Some(x.0 as nat),
{
    broadcast use vstd::seq_lib::group_to_multiset_ensures;

    let s = numbered(names);
    by_number_is_sorted(s);
    assert(by_number(s).to_multiset().count(x) > 0);
    assert(s.contains(x));
    lemma_numbered_number(names);
    let i = choose|i: int| 0 <= i < s.len() && s[i] == x;
    assert(numbered(names)[i] == x);
}

proof fn lemma_numbered_number(names: Seq<String>)
    ensures
        forall|i: int|
            0 <= i < numbered(names).len() ==> exists|j: int|
                0 <= j < names.len() && segment_number((#[trigger] names[j])@) == Some(
                    (#[trigger] numbered(names)[i]).0 as nat,
                ),
    decreases names.len(),
{
    if names.len() > 0 {
        let t = names.drop_last();
        lemma_numbered_number(t);
        let r = numbered(names);
        assert forall|i: int| 0 <= i < r.len() implies exists|j: int|
            0 <= j < names.len() && segment_number((#[trigger] names[j])@) == Some(
                (#[trigger] r[i]).0 as nat,
            ) by {
            if i < numbered(t).len() {
                assert(r[i] == numbered(t)[i]);
                let j = choose|j: int|
                    0 <= j < t.len() && segment_number((#[trigger] t[j])@) == Some(
                        numbered(t)[i].0 as nat,
                    );
                assert(names[j] == t[j]);
            } else {
                let k = names.len() - 1;
                assert(names[k] == names.last());
                assert(segment_number(names[k]@) is Some);
                lemma_number_bound(names[k]@);
            }
        }
    }
}

pub proof fn lemma_number_bound(name: Seq<char>)
    ensures
        segment_number(name) matches Some(n) ==> n <= u64::MAX,
        compact_number(name) matches Some(n) ==> n <= u64::MAX,
{
}

/// The names of some files.
fn names_of(files: &Vec<DiskFile>) -> (r: Vec<String>)
    ensures
        r@ == file_names(files@),
{
    let mut out: Vec<String> = Vec::new();
    let mut i: usize = 0;
    while i < files.len()
        invariant
            0 <= i <= files@.len(),
            out@ == file_names(files@.take(i as int)),
        decreases files@.len() - i,
    {
        out.push(files[i].name.clone());
        proof {
            assert(file_names(files@.take(i + 1)) =~= file_names(files@.take(i as int)).push(
                files@[i as int].name,
            ));
        }
        i += 1;
    }
    assert(files@.take(i as int) =~= files@);
    out
}

/// The greatest number of a compacted segment among some names; 0 for none.
pub fn highest_compact_epoch(names: &Vec<String>) -> (r: u64)
    ensures
        r == top_compact(names@),
{
    let mut t: u64 = 0;
    let mut i: usize = 0;
    while i < names.len()
        invariant
            0 <= i <= names@.len(),
            t == top_compact(names@.take(i as int)),
        decreases names@.len() - i,
    {
        let ghost u = names@.take(i + 1);
        assert(u.drop_last() =~= names@.take(i as int));
        assert(u.last() == names@[i as int]);
        match parse_compact_name(names[i].as_str()) {
            Some(n) => {
                if n > t {
                    t = n;
                }
            },
            None => {},
        }
        i += 1;
    }
    assert(names@.take(i as int) =~= names@);
    t
}

/// The place of the compacted segment numbered `n`.
fn find_compact(files: &Vec<DiskFile>, n: u64) -> (r: usize)
    requires
        exists|i: int| 0 <= i < files@.len() && compact_number((#[trigger] files@[i]).name@) == Some(n as nat),
    ensures
        r == compact_place(files@, n),
        r < files@.len(),
{
    proof {
        lemma_compact_place(files@, n);
    }
    let mut i: usize = 0;
    while i < files.len()
        invariant
            0 <= i <= files@.len(),
            0 <= compact_place(files@, n) < files@.len(),
            i <= compact_place(files@, n),
        decreases files@.len() - i,
    {
        proof {
            lemma_compact_place(files@, n);
        }
        match parse_compact_name(files[i].name.as_str()) {
            Some(m) => {
                if m == n {
                    return i;
                }
            },
            None => {},
        }
        i += 1;
    }
    i
}

/// The place of the file with this name.
fn find_file(files: &Vec<DiskFile>, name: &str) -> (r: usize)
    requires
        exists|i: int| 0 <= i < files@.len() && (#[trigger] files@[i]).name@ == name@,
    ensures
        r == file_place(files@, name@),
        r < files@.len(),
{
    proof {
        lemma_file_place(files@, name@);
    }
    let mut i: usize = 0;
    while i < files.len() && !crate::text::same_text(files[i].name.as_str(), name)
        invariant
            0 <= i <= files@.len(),
            i <= file_place(files@, name@),
            file_place(files@, name@) < files@.len(),
        decreases files@.len() - i,
    {
        proof {
            lemma_file_place(files@, name@);
        }
        i += 1;
    }
    i
}

impl Store {
    /// The store that a directory holds: its single-shard files, its newest compacted
    /// segment, and the segments after that. Writing goes on in a new segment.
    pub fn open(legacy: &Vec<DiskFile>, files: &Vec<DiskFile>, keys: Option<Keyring>) -> (r: Result<
        Store,
        WalError,
    >)
        requires
            room_for_next(files@),
            keys matches Some(k) ==> k.wf(),
        ensures
            match r {
                Err(e) => recovered(legacy@, files@, keys_of(keys)) == Err::<Seq<Item>, WalError>(e),
                Ok(s) => {
                    &&& s.wf()
                    &&& recovered(legacy@, files@, keys_of(keys)) == Ok::<Seq<Item>, WalError>(s@.items)
                    &&& s@ == opened_state(s@.items, top_segment(files@), ring_in(keys))
                },
            },
    {
        let names = names_of(files);
        let mut entries = load_legacy(legacy, keys.as_ref());
        let compact_epoch: u64 = highest_compact_epoch(&names);
        let ghost gk = keys_of(keys);
        proof {
            lemma_top_below(files@);
        }
        if compact_epoch > 0 {
            proof {
                lemma_top_compact(names@);
                let i = choose|i: int|
                    0 <= i < names@.len() && compact_number((#[trigger] names@[i])@) == Some(
                        compact_epoch as nat,
                    );
                assert(files@[i].name == names@[i]);
            }
            let i: usize = find_compact(files, compact_epoch);
            match read_closed_segment(files[i].bytes.as_slice(), keys.as_ref()) {
                Err(e) => {
                    return Err(e);
                },
                Ok(recs) => {
                    proof {
                        lemma_applied_all(
                            item_views(entries@),
                            record_views(recs@),
                            files@[i as int].mtime_ms,
                        );
                    }
                    apply_records(&mut entries, recs, files[i].mtime_ms);
                },
            }
        }
        let list = walk_wal_segments(&names);
        let ghost whole = recovered(legacy@, files@, gk);
        let mut highest: u64 = compact_epoch;
        let mut i: usize = 0;
        assert(list@.skip(0) =~= list@);
        while i < list.len()
            invariant
                0 <= i <= list@.len(),
                names@ == file_names(files@),
                list@ == by_number(numbered(names@)),
                gk == keys_of(keys),
                whole == replayed(
                    item_views(entries@),
                    list@.skip(i as int),
                    compact_epoch,
                    files@,
                    gk,
                ),
                highest == top_number(list@.take(i as int), compact_epoch),
                no_twins(item_views(entries@)),
                all_fit(item_views(entries@)),
                whole == recovered(legacy@, files@, gk),
            decreases list@.len() - i,
        {
            let ghost rest = list@.skip(i as int);
            proof {
                assert(rest.drop_first() =~= list@.skip(i + 1));
                assert(list@.take(i + 1).drop_last() =~= list@.take(i as int));
                assert(list@.take(i + 1).last() == list@[i as int]);
            }
            let seq: u64 = list[i].0;
            if seq > highest {
                highest = seq;
            }
            if seq > compact_epoch {
                proof {
                    assert(list@.contains(list@[i as int]));
                    lemma_sorted_from(names@, list@[i as int]);
                    let j = choose|j: int| 0 <= j < names@.len() && #[trigger] names@[j] == list@[i as int].1;
                    assert(files@[j].name == names@[j]);
                }
                let at: usize = find_file(files, list[i].1.as_str());
                match read_segment(files[at].bytes.as_slice(), keys.as_ref()) {
                    Err(e) => {
                        return Err(e);
                    },
                    Ok(recs) => {
                        proof {
                            lemma_applied_all(
                                item_views(entries@),
                                record_views(recs@),
                                files@[at as int].mtime_ms,
                            );
                        }
                        apply_records(&mut entries, recs, files[at].mtime_ms);
                    },
                }
            }
            i += 1;
        }
        proof {
            assert(list@.take(i as int) =~= list@);
            assert(list@.skip(i as int) =~= Seq::<Numbered>::empty());
        }
        let mut wal = WalWriter::open(highest, keys);
        let magic = crate::bytes::copy(wal.pending());
        let seq: u64 = wal.active_seq();
        let _r = wal.sync(false);
        let op = DiskOp::Append { seq, bytes: magic, fsync: false };
        Ok(Store::from_parts(entries, wal, op))
    }
}

/// A store that has just been opened: it holds `items`, and its log begins in the
/// segment behind `highest`.
pub open spec fn opened_state(items: Seq<Item>, highest: u64, ring: Option<Ring>) -> State {
    State {
        items,
        log: Some(
            Log {
                seq: (highest + 1) as u64,
                written: 8,
                pending: Seq::empty(),
                rotate_at: crate::wal::ROTATE_AT,
                ring,
                append_fault: None,
                sync_fault: None,
            },
        ),
        next_seq: 0,
        flushed_seq: 0,
        synced_seq: 0,
        sync_on_write: true,
        ops: seq![Op::Append { seq: (highest + 1) as u64, bytes: seg_magic(), fsync: false }],
    }
}

/// The ring with one key.
pub open spec fn single_ring(key: Seq<u8>) -> Ring {
    Ring { deks: seq![Dek { id: 1, created: 0, wrapped: Seq::empty(), key }], current: 1 }
}

impl Store {
    /// The store that a directory holds, for a node that has one key.
    pub fn open_with_key(legacy: &Vec<DiskFile>, files: &Vec<DiskFile>, key: [u8; 32]) -> (r: Result<
        Store,
        WalError,
    >)
        requires
            room_for_next(files@),
        ensures
            match r {
                Err(e) => recovered(legacy@, files@, Some(single_ring(key@).deks)) == Err::<
                    Seq<Item>,
                    WalError,
                >(e),
                Ok(s) => {
                    &&& s.wf()
                    &&& recovered(legacy@, files@, Some(single_ring(key@).deks)) == Ok::<
                        Seq<Item>,
                        WalError,
                    >(s@.items)
                    &&& s@ == opened_state(s@.items, top_segment(files@), Some(single_ring(key@)))
                },
            },
    {
        let ring = Keyring::in_memory_single(key);
        assert(ring@ == single_ring(key@));
        Store::open(legacy, files, Some(ring))
    }

    /// The store that a directory holds, for a node that has several keys.
    pub fn open_with_keyring(legacy: &Vec<DiskFile>, files: &Vec<DiskFile>, keyring: Keyring) -> (r: Result<
        Store,
        WalError,
    >)
        requires
            room_for_next(files@),
            keyring.wf(),
        ensures
            match r {
                Err(e) => recovered(legacy@, files@, Some(keyring@.deks)) == Err::<Seq<Item>, WalError>(
                    e,
                ),
                Ok(s) => {
                    &&& s.wf()
                    &&& recovered(legacy@, files@, Some(keyring@.deks)) == Ok::<Seq<Item>, WalError>(
                        s@.items,
                    )
                    &&& s@ == opened_state(s@.items, top_segment(files@), Some(keyring@))
                },
            },
    {
        Store::open(legacy, files, Some(keyring))
    }
}

} // verus!
