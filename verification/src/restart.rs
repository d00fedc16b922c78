//! What a restart finds: opening a directory gives back every shard that its history accounts for,
//! after an orderly end as well as after a crash.
use vstd::prelude::*;

use crate::chaos::Fault;
use crate::compaction::{garbage_ops, is_garbage, snapshot_of};
use crate::durability::{
    agrees, compacted_history, compaction_keeps_the_history, content, done, done_all, done_in_part, drained, faithful,
    garbage_removal_keeps_the_history, has_base, has_segments, is_old, keeps, lemma_agrees, lemma_append_active, lemma_append_old, lemma_done_push, lemma_effects_concat,
    lemma_joined_push_segment, lemma_names_differ, lemma_none_agrees, lemma_purge_records,
    lemma_records, lemma_same_old, lemma_segment_is_no_shard, lemma_sync_logged, logged_on,
    named_right, no_garbage_is_left, old_shards, purge_keeps_the_history, put_keeps_the_history, readable, reads_over,
    rest_of_the_queue_completes_it, rotation_keeps_the_history, sync_keeps_the_history, tidy, Dir,
    History,
};
use crate::held::{
    all_puts, effects, held, lemma_effects_push, lemma_held_bare, lemma_held_empty,
    lemma_held_stored, lemma_held_without_object, lemma_puts_over_part, less_object, part_of,
    records_have_their_effects, Slot,
};
use crate::keyring::{Dek, Ring};
use crate::live::{applied_all, keep, not_due, Item};
use crate::recovery::{
    compact_name, compact_names_round_trip, compact_number, compact_place, file_names, file_place,
    legacy_items, lemma_compact_place, lemma_file_place, opened_state, recovered, replayed,
    top_compact, top_number, top_segment, DiskFile,
};
use crate::shard_file::{is_shard_name, parse_shard_file, shard_digest, shard_file_name, Key};
use crate::store::{
    doomed, hash_purge_start, left_of, object_purge_start, object_purge_step, Op, State,
};
use crate::store_laws::{
    bare, deks_of, file_holds, joined_records, ring_reads_itself, rotated_log_survives_restart,
    segments_hold, short_enough, snapshot_restores_every_shard,
};
use crate::wal::{
    by_number, by_number_is_sorted, closed_segment, frame, hashes_body, next_frame, numbered,
    parse_body, rising, seg_magic, segment_name, segment_names_round_trip, segment_number,
    KIND_PURGE, Log, Next, Numbered, Piece, Rec, WalError,
};
use crate::wal_laws::{cut_record_is_torn, log_of, log_of_push, meaning, sound, Raw};

verus! {

/// Whether a name is that of a segment of either kind.
pub open spec fn is_log_name(name: Seq<char>) -> bool {
    segment_number(name) is Some || compact_number(name) is Some
}

/// Whether these are files of a directory, each once.
pub open spec fn lists_some(d: Dir, files: Seq<DiskFile>) -> bool {
    &&& forall|i: int|
        0 <= i < files.len() ==> d.dom().contains((#[trigger] files[i]).name@)
            && d[files[i].name@] == files[i].bytes@
    &&& forall|i: int, j: int|
        0 <= i < j < files.len() ==> (#[trigger] files[i]).name@ != (#[trigger] files[j]).name@
}

/// Whether `files` has all segments of a directory, and `legacy` all its files with one shard each.
pub open spec fn lists(d: Dir, files: Seq<DiskFile>, legacy: Seq<DiskFile>) -> bool {
    &&& lists_some(d, files)
    &&& lists_some(d, legacy)
    &&& forall|name: Seq<char>|
        #[trigger]
        d.dom().contains(name) && is_log_name(name) ==> exists|i: int|
            0 <= i < files.len() && (#[trigger] files[i]).name@ == name
    &&& forall|name: Seq<char>|
        #[trigger]
        d.dom().contains(name) && is_shard_name(name) ==> exists|i: int|
            0 <= i < legacy.len() && (#[trigger] legacy[i]).name@ == name
}

/// Whether no two names are the same.
spec fn all_differ(names: Seq<String>) -> bool {
    forall|i: int, j: int|
        0 <= i < j < names.len() ==> (#[trigger] names[i])@ != (#[trigger] names[j])@
}

/// Whether every segment of a directory is among the names.
#[verifier::opaque]
spec fn covers(names: Seq<String>, d: Dir) -> bool {
    forall|name: Seq<char>|
        #[trigger]
        d.dom().contains(name) && is_log_name(name) ==> exists|i: int|
            0 <= i < names.len() && (#[trigger] names[i])@ == name
}

/// Whether every name that has a number is among the segments.
#[verifier::opaque]
spec fn complete(b: Seq<Numbered>, names: Seq<String>) -> bool {
    forall|j: int|
        0 <= j < names.len() && segment_number((#[trigger] names[j])@) is Some ==> b.contains(
            (segment_number(names[j]@)->0 as u64, names[j]),
        )
}

/// Where a segment of the directory stands among the names.
proof fn lemma_index(names: Seq<String>, d: Dir, name: Seq<char>) -> (i: int)
    requires
        covers(names, d),
        d.dom().contains(name),
        is_log_name(name),
    ensures
        0 <= i < names.len(),
        names[i]@ == name,
{
    reveal(covers);
    choose|i: int| 0 <= i < names.len() && (#[trigger] names[i])@ == name
}

/// Whether a numbered segment stands for one of the names.
#[verifier::opaque]
spec fn stands_for(names: Seq<String>, x: Numbered) -> bool {
    exists|j: int|
        0 <= j < names.len() && #[trigger] names[j] == x.1 && segment_number(names[j]@) == Some(
            x.0 as nat,
        )
}

proof fn lemma_numbered(names: Seq<String>)
    requires
        all_differ(names),
    ensures
        forall|i: int| 0 <= i < numbered(names).len() ==> stands_for(names, #[trigger] numbered(names)[i]),
        complete(numbered(names), names),
        numbered(names).no_duplicates(),
    decreases names.len(),
{
    reveal(complete);
    reveal(stands_for);
    let r = numbered(names);
    if names.len() > 0 {
        let t = names.drop_last();
        let u = numbered(t);
        assert(all_differ(t));
        lemma_numbered(t);
        crate::recovery::lemma_number_bound(names.last()@);
        let k = names.len() - 1;
        assert(names[k] == names.last());
        assert forall|i: int| 0 <= i < r.len() implies stands_for(names, #[trigger] r[i]) by {
            if i < u.len() {
                assert(stands_for(t, u[i]));
                let j = choose|j: int|
                    0 <= j < t.len() && #[trigger] t[j] == u[i].1 && segment_number(t[j]@) == Some(
                        u[i].0 as nat,
                    );
                assert(names[j] == r[i].1);
            } else {
                assert(names[k] == r[i].1);
            }
        }
        assert forall|j: int|
            0 <= j < names.len() && segment_number((#[trigger] names[j])@) is Some implies r.contains(
            (segment_number(names[j]@)->0 as u64, names[j])) by {
            let x = (segment_number(names[j]@)->0 as u64, names[j]);
            if j < k {
                assert(t[j] == names[j]);
                assert(u.contains(x));
                let i = choose|i: int| 0 <= i < u.len() && u[i] == x;
                assert(r[i] == x);
            } else {
                assert(r.last() == x);
                assert(r[r.len() - 1] == x);
            }
        }
        assert forall|a: int, b: int| 0 <= a < r.len() && 0 <= b < r.len() && a != b implies r[a]
            != r[b] by {
            if a < u.len() && b < u.len() {
                assert(u[a] != u[b]);
            } else {
                let c = if a < u.len() {
                    a
                } else {
                    b
                };
                assert(stands_for(t, u[c]));
                let j = choose|j: int|
                    0 <= j < t.len() && #[trigger] t[j] == u[c].1 && segment_number(t[j]@) == Some(
                        u[c].0 as nat,
                    );
                assert(names[j]@ != names[k]@);
            }
        }
    }
}

/// The segments in order: each stands for a name, every name that has a number is there, and
/// none is there twice.
proof fn lemma_in_order(names: Seq<String>)
    requires
        all_differ(names),
    ensures
        ({
            let b = by_number(numbered(names));
            &&& rising(b)
            &&& forall|i: int| 0 <= i < b.len() ==> stands_for(names, #[trigger] b[i])
            &&& complete(b, names)
            &&& b.no_duplicates()
        }),
{
    broadcast use vstd::seq_lib::group_to_multiset_ensures;

    reveal(complete);
    let s = numbered(names);
    let b = by_number(s);
    lemma_numbered(names);
    by_number_is_sorted(s);
    s.lemma_multiset_has_no_duplicates();
    b.lemma_multiset_has_no_duplicates_conv();
    assert forall|i: int| 0 <= i < b.len() implies stands_for(names, #[trigger] b[i]) by {
        assert(b.contains(b[i]));
        assert(b.to_multiset().count(b[i]) > 0);
        assert(s.contains(b[i]));
        let k = choose|k: int| 0 <= k < s.len() && s[k] == b[i];
        assert(stands_for(names, s[k]));
    }
    assert forall|j: int|
        0 <= j < names.len() && segment_number((#[trigger] names[j])@) is Some implies b.contains(
        (segment_number(names[j]@)->0 as u64, names[j])) by {
        let x = (segment_number(names[j]@)->0 as u64, names[j]);
        assert(s.contains(x));
        assert(s.to_multiset().count(x) > 0);
    }
}

/// Segments that the compacted one stands for are passed over.
proof fn lemma_passed_over(
    items: Seq<Item>,
    list: Seq<Numbered>,
    k: int,
    after: u64,
    files: Seq<DiskFile>,
    keys: Option<Seq<Dek>>,
)
    requires
        0 <= k <= list.len(),
        forall|i: int| 0 <= i < k ==> (#[trigger] list[i]).0 <= after,
    ensures
        replayed(items, list, after, files, keys) == replayed(items, list.skip(k), after, files, keys),
    decreases k,
{
    if k == 0 {
        assert(list.skip(0) =~= list);
    } else {
        let t = list.drop_first();
        assert(list[0].0 <= after);
        assert forall|i: int| 0 <= i < k - 1 implies (#[trigger] t[i]).0 <= after by {
            assert(t[i] == list[i + 1]);
        }
        lemma_passed_over(items, t, k - 1, after, files, keys);
        assert(t.skip(k - 1) =~= list.skip(k));
    }
}

/// How many of a rising row are not over `after`.
proof fn lemma_split(list: Seq<Numbered>, after: u64) -> (k: int)
    requires
        rising(list),
    ensures
        0 <= k <= list.len(),
        forall|i: int| 0 <= i < k ==> (#[trigger] list[i]).0 <= after,
        forall|i: int| k <= i < list.len() ==> (#[trigger] list[i]).0 > after,
    decreases list.len(),
{
    if list.len() == 0 {
        0
    } else if list.last().0 <= after {
        assert forall|i: int| 0 <= i < list.len() implies (#[trigger] list[i]).0 <= after by {
            if i < list.len() - 1 {
                assert(list[i].0 <= list[list.len() - 1].0);
            }
        }
        list.len() as int
    } else {
        let t = list.drop_last();
        assert(rising(t));
        let k = lemma_split(t, after);
        assert forall|i: int| 0 <= i < k implies (#[trigger] list[i]).0 <= after by {
            assert(t[i] == list[i]);
        }
        assert forall|i: int| k <= i < list.len() implies (#[trigger] list[i]).0 > after by {
            if i < t.len() {
                assert(t[i] == list[i]);
            }
        }
        k
    }
}

/// Whether a number occurs.
spec fn has_number(v: Seq<Numbered>, x: int) -> bool {
    exists|i: int| 0 <= i < v.len() && (#[trigger] v[i]).0 == x
}

/// A row that rises strictly, keeps within bounds and leaves nothing out between them.
proof fn lemma_consecutive(v: Seq<Numbered>, first: int, m: int)
    requires
        forall|i: int, j: int| 0 <= i < j < v.len() ==> (#[trigger] v[i]).0 < (#[trigger] v[j]).0,
        forall|i: int| 0 <= i < v.len() ==> first <= (#[trigger] v[i]).0 < first + m,
        forall|x: int| first <= x < first + m ==> #[trigger] has_number(v, x),
        m >= 0,
    ensures
        v.len() == m,
        forall|i: int| 0 <= i < m ==> (#[trigger] v[i]).0 == first + i,
{
    lemma_consecutive_to(v, first, m, m);
    if v.len() > m {
        let x = v[m].0 as int;
        let i = x - first;
        assert(v[i].0 == first + i);
        assert(v[i].0 < v[m].0);
    }
}

proof fn lemma_consecutive_to(v: Seq<Numbered>, first: int, m: int, n: int)
    requires
        forall|i: int, j: int| 0 <= i < j < v.len() ==> (#[trigger] v[i]).0 < (#[trigger] v[j]).0,
        forall|i: int| 0 <= i < v.len() ==> first <= (#[trigger] v[i]).0 < first + m,
        forall|x: int| first <= x < first + m ==> #[trigger] has_number(v, x),
        0 <= n <= m,
    ensures
        v.len() >= n,
        forall|i: int| 0 <= i < n ==> (#[trigger] v[i]).0 == first + i,
    decreases n,
{
    if n > 0 {
        lemma_consecutive_to(v, first, m, n - 1);
        let x = first + n - 1;
        assert(has_number(v, x));
        let j = choose|i: int| 0 <= i < v.len() && (#[trigger] v[i]).0 == x;
        if j < n - 1 {
            assert(v[j].0 == first + j);
        }
        assert(j >= n - 1);
        if n - 1 > 0 {
            assert(v[n - 2].0 == first + n - 2);
            assert(v[n - 2].0 < v[n - 1].0);
        }
        if j > n - 1 {
            assert(v[n - 1].0 < v[j].0);
            assert(v[n - 1].0 >= first);
        }
    }
}

proof fn lemma_top_compact_is(names: Seq<String>, n: u64)
    requires
        forall|j: int|
            0 <= j < names.len() ==> (compact_number((#[trigger] names[j])@) matches Some(k) ==> k <= n),
    ensures
        top_compact(names) <= n,
        (exists|j: int| 0 <= j < names.len() && compact_number((#[trigger] names[j])@) == Some(n as nat))
            ==> top_compact(names) == n,
    decreases names.len(),
{
    if names.len() > 0 {
        let t = names.drop_last();
        let k = names.len() - 1;
        assert(names[k] == names.last());
        assert forall|j: int| 0 <= j < t.len() implies (compact_number((#[trigger] t[j])@) matches Some(
            k,
        ) ==> k <= n) by {
            assert(t[j] == names[j]);
        }
        lemma_top_compact_is(t, n);
        if exists|j: int| 0 <= j < names.len() && compact_number((#[trigger] names[j])@) == Some(n as nat) {
            let j = choose|j: int|
                0 <= j < names.len() && compact_number((#[trigger] names[j])@) == Some(n as nat);
            if j < k {
                assert(t[j] == names[j]);
            }
        }
    }
}

proof fn lemma_top_number_is(list: Seq<Numbered>, after: u64, top: u64)
    requires
        rising(list),
        after <= top,
        forall|i: int| 0 <= i < list.len() ==> (#[trigger] list[i]).0 <= top,
        top == after || has_number(list, top as int),
    ensures
        top_number(list, after) == top,
    decreases list.len(),
{
    if list.len() > 0 {
        let t = list.drop_last();
        let k = list.len() - 1;
        assert(list[k].0 <= top);
        assert(rising(t));
        assert forall|i: int| 0 <= i < t.len() implies (#[trigger] t[i]).0 <= top by {
            assert(t[i] == list[i]);
        }
        if list.last().0 == top {
            lemma_top_number_below(t, after, top);
        } else {
            if top != after {
                let i = choose|i: int| 0 <= i < list.len() && (#[trigger] list[i]).0 == top;
                assert(i < k);
                assert(t[i].0 == top);
                assert(list[i].0 <= list[k].0);
            }
            lemma_top_number_is(t, after, top);
        }
    }
}

proof fn lemma_top_number_below(list: Seq<Numbered>, after: u64, top: u64)
    requires
        after <= top,
        forall|i: int| 0 <= i < list.len() ==> (#[trigger] list[i]).0 <= top,
    ensures
        top_number(list, after) <= top,
    decreases list.len(),
{
    if list.len() > 0 {
        assert(list[list.len() - 1].0 <= top);
        lemma_top_number_below(list.drop_last(), after, top);
    }
}

/// The files of a directory have different names.
proof fn lemma_names(d: Dir, files: Seq<DiskFile>, legacy: Seq<DiskFile>)
    requires
        lists(d, files, legacy),
    ensures
        all_differ(file_names(files)),
        forall|i: int|
            0 <= i < files.len() ==> d.dom().contains((#[trigger] file_names(files)[i])@),
        covers(file_names(files), d),
{
    reveal(covers);
    let names = file_names(files);
    assert forall|i: int| 0 <= i < files.len() implies d.dom().contains((#[trigger] names[i])@) by {
        assert(names[i] == files[i].name);
    }
    assert forall|i: int, j: int| 0 <= i < j < names.len() implies (#[trigger] names[i])@ != (
    #[trigger] names[j])@ by {
        assert(files[i].name@ != files[j].name@);
    }
    assert forall|name: Seq<char>| #[trigger] d.dom().contains(name) && is_log_name(name) implies exists|
        i: int,
    | 0 <= i < names.len() && (#[trigger] names[i])@ == name by {
        let i = choose|i: int| 0 <= i < files.len() && (#[trigger] files[i]).name@ == name;
        assert(names[i]@ == name);
    }
}

/// The file with the name of a segment is found.
proof fn lemma_file_found(d: Dir, files: Seq<DiskFile>, legacy: Seq<DiskFile>, name: Seq<char>)
    requires
        lists(d, files, legacy),
        d.dom().contains(name),
        is_log_name(name),
    ensures
        0 <= file_place(files, name) < files.len(),
        files[file_place(files, name)].bytes@ == d[name],
{
    let i = choose|i: int| 0 <= i < files.len() && (#[trigger] files[i]).name@ == name;
    lemma_file_place(files, name);
    assert(files[file_place(files, name)].name@ == name);
}

/// Every segment with a number over `n` is one of the history, under its own name.
proof fn lemma_member(d: Dir, n: u64, first: int, last: int, names: Seq<String>, x: Numbered)
    requires
        tidy(d, n, first, last),
        forall|i: int| 0 <= i < names.len() ==> d.dom().contains((#[trigger] names[i])@),
        stands_for(names, x),
        x.0 > n,
    ensures
        first <= x.0 <= last,
        x.1@ == segment_name(x.0),
        d.dom().contains(x.1@),
{
    reveal(stands_for);
    let j = choose|j: int|
        0 <= j < names.len() && #[trigger] names[j] == x.1 && segment_number(names[j]@) == Some(
            x.0 as nat,
        );
    assert(d.dom().contains(names[j]@));
}

/// Two segments with one name are one.
proof fn lemma_same_segment(names: Seq<String>, x: Numbered, y: Numbered)
    requires
        all_differ(names),
        stands_for(names, x),
        stands_for(names, y),
        x.0 == y.0,
        x.1@ == y.1@,
    ensures
        x == y,
{
    reveal(stands_for);
    let p = choose|p: int|
        0 <= p < names.len() && #[trigger] names[p] == x.1 && segment_number(names[p]@) == Some(
            x.0 as nat,
        );
    let q = choose|q: int|
        0 <= q < names.len() && #[trigger] names[q] == y.1 && segment_number(names[q]@) == Some(
            y.0 as nat,
        );
    if p < q {
        assert(names[p]@ != names[q]@);
    }
    if q < p {
        assert(names[q]@ != names[p]@);
    }
}

/// A segment that is in the directory is found among those that are read.
proof fn lemma_found(d: Dir, names: Seq<String>, b: Seq<Numbered>, k: int, n: u64, x: u64)
    requires
        covers(names, d),
        complete(b, names),
        0 <= k <= b.len(),
        forall|i: int| 0 <= i < k ==> (#[trigger] b[i]).0 <= n,
        d.dom().contains(segment_name(x)),
        x > n,
    ensures
        has_number(b.skip(k), x as int),
{
    reveal(complete);
    segment_names_round_trip(x);
    let j = lemma_index(names, d, segment_name(x));
    let y = (segment_number(names[j]@)->0 as u64, names[j]);
    assert(b.contains(y));
    let q = choose|q: int| 0 <= q < b.len() && b[q] == y;
    assert(b[q].0 == x);
    if q < k {
        assert(b[q].0 <= n);
    }
    assert(b.skip(k)[q - k].0 == x);
}

/// Those that are read are the segments of the history, one after the other.
proof fn lemma_above(d: Dir, n: u64, first: int, m: int, names: Seq<String>, b: Seq<Numbered>, k: int)
    requires
        tidy(d, n, first, first + m - 1),
        m >= 0,
        n < first,
        first + m <= u64::MAX,
        forall|i: int| 0 <= i < m ==> d.dom().contains(#[trigger] segment_name((first + i) as u64)),
        all_differ(names),
        forall|i: int| 0 <= i < names.len() ==> d.dom().contains((#[trigger] names[i])@),
        covers(names, d),
        rising(b),
        b.no_duplicates(),
        forall|i: int| 0 <= i < b.len() ==> stands_for(names, #[trigger] b[i]),
        complete(b, names),
        0 <= k <= b.len(),
        forall|i: int| 0 <= i < k ==> (#[trigger] b[i]).0 <= n,
        forall|i: int| k <= i < b.len() ==> (#[trigger] b[i]).0 > n,
    ensures
        b.skip(k).len() == m,
        forall|i: int| 0 <= i < m ==> (#[trigger] b.skip(k)[i]).0 == first + i,
        forall|i: int| 0 <= i < m ==> (#[trigger] b.skip(k)[i]).1@ == segment_name((first + i) as u64),
{
    let v = b.skip(k);
    assert forall|i: int| 0 <= i < v.len() implies first <= (#[trigger] v[i]).0 < first + m
        && v[i].1@ == segment_name(v[i].0) by {
        assert(v[i] == b[k + i]);
        lemma_member(d, n, first, first + m - 1, names, b[k + i]);
    }
    assert forall|i: int, j: int| 0 <= i < j < v.len() implies (#[trigger] v[i]).0 < (
    #[trigger] v[j]).0 by {
        assert(v[i] == b[k + i] && v[j] == b[k + j]);
        assert(b[k + i].0 <= b[k + j].0);
        if v[i].0 == v[j].0 {
            lemma_same_segment(names, b[k + i], b[k + j]);
        }
    }
    assert forall|x: int| first <= x < first + m implies #[trigger] has_number(v, x) by {
        let i = x - first;
        assert(d.dom().contains(segment_name((first + i) as u64)));
        lemma_found(d, names, b, k, n, x as u64);
    }
    lemma_consecutive(v, first, m);
}

/// The segments of a history, in the order in which they are read.
proof fn lemma_read_in_order(
    d: Dir,
    h: History,
    ring: Option<Ring>,
    files: Seq<DiskFile>,
    legacy: Seq<DiskFile>,
) -> (k: int)
    requires
        readable(d, h, ring),
        lists(d, files, legacy),
    ensures
        ({
            let b = by_number(numbered(file_names(files)));
            &&& rising(b)
            &&& 0 <= k <= b.len()
            &&& forall|i: int| 0 <= i < k ==> (#[trigger] b[i]).0 <= h.n
            &&& b.skip(k).len() == h.raws.len()
            &&& forall|i: int| 0 <= i < h.raws.len() ==> (#[trigger] b.skip(k)[i]).0 == h.first + i
            &&& segments_hold(b.skip(k), h.n, files, h.raws, deks_of(ring))
        }),
{
    let names = file_names(files);
    let b = by_number(numbered(names));
    let m = h.raws.len() as int;
    let keys = deks_of(ring);
    lemma_names(d, files, legacy);
    lemma_in_order(names);
    let k = lemma_split(b, h.n);
    lemma_above(d, h.n, h.first as int, m, names, b, k);
    let v = b.skip(k);
    assert forall|i: int| 0 <= i < v.len() implies (#[trigger] v[i]).0 > h.n && file_holds(
        files[file_place(files, v[i].1@)].bytes@,
        h.raws[i],
        keys,
    ) by {
        let name = segment_name((h.first + i) as u64);
        assert(v[i].1@ == name);
        assert(d.dom().contains(name));
        segment_names_round_trip((h.first + i) as u64);
        lemma_file_found(d, files, legacy, name);
    }
    k
}

/// The slot that a file with one shard fills.
spec fn slot_of(b: Seq<u8>, keys: Option<Seq<Dek>>) -> Slot {
    let x = parse_shard_file(b, keys)->Ok_0;
    (x.0, shard_digest(x.1))
}

/// Whether one of the first `n` files fills a slot.
spec fn fills(legacy: Seq<DiskFile>, n: int, keys: Option<Seq<Dek>>, s: Slot) -> bool {
    exists|i: int|
        0 <= i < n && is_shard_name((#[trigger] legacy[i]).name@) && parse_shard_file(
            legacy[i].bytes@,
            keys,
        ) is Ok && slot_of(legacy[i].bytes@, keys) == s
}

/// What the first `n` files with one shard each hold is what the directory holds in them.
proof fn lemma_legacy_prefix(d: Dir, legacy: Seq<DiskFile>, n: int, keys: Option<Seq<Dek>>)
    requires
        lists_some(d, legacy),
        named_right(d, keys),
        0 <= n <= legacy.len(),
    ensures
        ({
            let m = held(legacy_items(legacy.take(n), keys));
            &&& forall|s: Slot| #[trigger] m.dom().contains(s) <==> fills(legacy, n, keys, s)
            &&& part_of(m, old_shards(d, keys))
        }),
    decreases n,
{
    let m = held(legacy_items(legacy.take(n), keys));
    if n == 0 {
        assert(legacy.take(0) =~= Seq::<DiskFile>::empty());
        lemma_held_empty();
    } else {
        lemma_legacy_prefix(d, legacy, n - 1, keys);
        let t = legacy.take(n - 1);
        let f = legacy[n - 1];
        assert(legacy.take(n).drop_last() =~= t);
        assert(legacy.take(n).last() == f);
        let before = legacy_items(t, keys);
        let u = held(before);
        if is_shard_name(f.name@) && parse_shard_file(f.bytes@, keys) is Ok {
            let x = parse_shard_file(f.bytes@, keys)->Ok_0;
            let slot = slot_of(f.bytes@, keys);
            lemma_held_stored(
                before,
                Item { key: x.0, hash: shard_digest(x.1), shard: x.1, epoch: f.mtime_ms },
            );
            assert(m == u.insert(slot, x.1));
            assert(d.dom().contains(f.name@));
            assert(f.name@ == shard_file_name(slot.1));
            assert(is_old(d, keys, slot));
            assert forall|s: Slot| #[trigger] m.dom().contains(s) <==> fills(legacy, n, keys, s) by {
                if u.dom().contains(s) {
                    let i = choose|i: int|
                        0 <= i < n - 1 && is_shard_name((#[trigger] legacy[i]).name@) && parse_shard_file(
                            legacy[i].bytes@,
                            keys,
                        ) is Ok && slot_of(legacy[i].bytes@, keys) == s;
                    assert(is_shard_name(legacy[i].name@));
                }
                if s == slot {
                    assert(is_shard_name(legacy[n - 1].name@));
                }
                if fills(legacy, n, keys, s) && s != slot {
                    let i = choose|i: int|
                        0 <= i < n && is_shard_name((#[trigger] legacy[i]).name@) && parse_shard_file(
                            legacy[i].bytes@,
                            keys,
                        ) is Ok && slot_of(legacy[i].bytes@, keys) == s;
                    assert(i < n - 1);
                    assert(fills(legacy, n - 1, keys, s));
                }
            }
            assert forall|s: Slot| #[trigger] m.dom().contains(s) implies old_shards(d, keys).dom().contains(
            s) && m[s] == old_shards(d, keys)[s] by {
                if s != slot {
                    assert(u.dom().contains(s));
                }
            }
        } else {
            assert forall|s: Slot| #[trigger] m.dom().contains(s) <==> fills(legacy, n, keys, s) by {
                assert(u.dom().contains(s) <==> fills(legacy, n - 1, keys, s));
                if fills(legacy, n - 1, keys, s) {
                    let i = choose|i: int|
                        0 <= i < n - 1 && is_shard_name((#[trigger] legacy[i]).name@) && parse_shard_file(
                            legacy[i].bytes@,
                            keys,
                        ) is Ok && slot_of(legacy[i].bytes@, keys) == s;
                    assert(is_shard_name(legacy[i].name@));
                }
                if fills(legacy, n, keys, s) {
                    let i = choose|i: int|
                        0 <= i < n && is_shard_name((#[trigger] legacy[i]).name@) && parse_shard_file(
                            legacy[i].bytes@,
                            keys,
                        ) is Ok && slot_of(legacy[i].bytes@, keys) == s;
                    assert(i < n - 1);
                }
            }
        }
    }
}

/// What is read from files with one shard each is what the directory holds in them.
proof fn lemma_legacy(d: Dir, files: Seq<DiskFile>, legacy: Seq<DiskFile>, keys: Option<Seq<Dek>>)
    requires
        lists(d, files, legacy),
        named_right(d, keys),
    ensures
        held(legacy_items(legacy, keys)) == old_shards(d, keys),
{
    let n = legacy.len() as int;
    lemma_legacy_prefix(d, legacy, n, keys);
    assert(legacy.take(n) =~= legacy);
    let m = held(legacy_items(legacy, keys));
    let old = old_shards(d, keys);
    assert forall|s: Slot| #[trigger] old.dom().contains(s) implies m.dom().contains(s) by {
        let name = shard_file_name(s.1);
        assert(d.dom().contains(name));
        let i = choose|i: int| 0 <= i < legacy.len() && (#[trigger] legacy[i]).name@ == name;
        assert(is_shard_name(legacy[i].name@));
        assert(legacy[i].bytes@ == d[name]);
        assert(slot_of(legacy[i].bytes@, keys) == s);
        assert(fills(legacy, n, keys, s));
    }
    assert(m =~= old);
}

/// The records of a compacted segment all store shards, and give what it was made from.
proof fn lemma_snapshot_puts(h: History, ring: Option<Ring>)
    requires
        snapshot_of(ring, h.base, h.snap),
        crate::live::no_twins(h.base),
        ring_reads_itself(ring),
        forall|i: int|
            0 <= i < h.base.len() ==> (#[trigger] h.base[i]).hash.len() == 32 && short_enough(
                h.base[i].shard,
            ),
    ensures
        closed_segment(seg_magic() + log_of(h.snap), deks_of(ring)) matches Ok(recs) && all_puts(recs)
            && effects(Map::empty(), recs) == held(h.base),
{
    let keys = deks_of(ring);
    let none = Seq::<Item>::empty();
    snapshot_restores_every_shard(h.base, h.snap, ring, 0);
    let recs = closed_segment(seg_magic() + log_of(h.snap), keys)->Ok_0;
    crate::store_laws::snapshot_only_stores(h.base, h.snap, ring);
    records_have_their_effects(none, recs, 0);
    lemma_held_empty();
    lemma_held_bare(applied_all(none, recs, 0));
    lemma_held_bare(h.base);
}

/// Opening a directory that holds a history gives exactly the shards that the history accounts
/// for.
pub proof fn restart_gives_back_the_history(
    d: Dir,
    h: History,
    ring: Option<Ring>,
    files: Seq<DiskFile>,
    legacy: Seq<DiskFile>,
)
    requires
        readable(d, h, ring),
        lists(d, files, legacy),
    ensures
        recovered(legacy, files, deks_of(ring)) matches Ok(v) && held(v) == h.told(deks_of(ring)),
        top_segment(files) == h.first + h.raws.len() - 1,
{
    reveal(agrees);
    reveal(reads_over);
    let names = file_names(files);
    let b = by_number(numbered(names));
    let keys = deks_of(ring);
    let k = lemma_read_in_order(d, h, ring, files, legacy);
    lemma_names(d, files, legacy);
    lemma_legacy(d, files, legacy, keys);
    compact_names_round_trip(h.n);
    assert forall|j: int| 0 <= j < names.len() implies (compact_number((#[trigger] names[j])@) matches Some(
        q,
    ) ==> q <= h.n) by {
        assert(d.dom().contains(names[j]@));
    }
    lemma_top_compact_is(names, h.n);
    let first = legacy_items(legacy, keys);
    let w = if h.n == 0 {
        first
    } else {
        assert(d.dom().contains(compact_name(h.n)));
        let j = lemma_index(names, d, compact_name(h.n));
        assert(compact_number(names[j]@) == Some(h.n as nat));
        assert(files[j].name == names[j]);
        lemma_compact_place(files, h.n);
        let f = files[compact_place(files, h.n)];
        assert(compact_number(f.name@) == Some(h.n as nat));
        assert(d.dom().contains(f.name@));
        assert(f.name@ == compact_name(h.n));
        assert(f.bytes@ == seg_magic() + log_of(h.snap));
        lemma_snapshot_puts(h, ring);
        let recs = closed_segment(f.bytes@, keys)->Ok_0;
        records_have_their_effects(first, recs, f.mtime_ms);
        lemma_puts_over_part(held(first), recs);
        applied_all(first, recs, f.mtime_ms)
    };
    assert(top_compact(names) == h.n);
    lemma_passed_over(w, b, k, h.n, files, keys);
    rotated_log_survives_restart(w, b.skip(k), h.n, files, h.raws, keys);
    let v = recovered(legacy, files, keys)->Ok_0;
    records_have_their_effects(bare(w), h.recs(keys), 0);
    lemma_held_bare(w);
    lemma_held_bare(v);
    lemma_top_of(b, k, h);
}

/// The last segment of a history has the greatest number.
proof fn lemma_top_of(b: Seq<Numbered>, k: int, h: History)
    requires
        rising(b),
        0 <= k <= b.len(),
        h.n < h.first,
        h.raws.len() == 0 ==> h.first == h.n + 1,
        h.first + h.raws.len() <= u64::MAX,
        forall|i: int| 0 <= i < k ==> (#[trigger] b[i]).0 <= h.n,
        b.skip(k).len() == h.raws.len(),
        forall|i: int| 0 <= i < h.raws.len() ==> (#[trigger] b.skip(k)[i]).0 == h.first + i,
    ensures
        top_number(b, h.n) == h.first + h.raws.len() - 1,
{
    let top = (h.first + h.raws.len() - 1) as u64;
    let v = b.skip(k);
    assert forall|i: int| 0 <= i < b.len() implies (#[trigger] b[i]).0 <= top by {
        if i >= k {
            assert(b[i] == v[i - k]);
        }
    }
    if h.raws.len() > 0 {
        let i = h.raws.len() - 1;
        assert(v[i].0 == top);
        assert(b[k + i].0 == top);
        assert(has_number(b, top as int));
    }
    lemma_top_number_is(b, h.n, top);
}

/// A store that is opened on a directory goes on with the history of the directory.
pub proof fn opened_store_goes_on(
    d: Dir,
    h: History,
    ring: Option<Ring>,
    files: Seq<DiskFile>,
    legacy: Seq<DiskFile>,
    items: Seq<Item>,
)
    requires
        keeps(d, h, ring),
        lists(d, files, legacy),
        recovered(legacy, files, deks_of(ring)) == Ok::<Seq<Item>, WalError>(items),
    ensures
        faithful(opened_state(items, top_segment(files), ring), d, h.going_on()),
{
    restart_gives_back_the_history(d, h, ring, files, legacy);
    lemma_opened(d, h, ring, items, top_segment(files));
}

proof fn lemma_opened(d: Dir, h: History, ring: Option<Ring>, items: Seq<Item>, top: u64)
    requires
        keeps(d, h, ring),
        held(items) == h.told(deks_of(ring)),
        top == h.first + h.raws.len() - 1,
    ensures
        faithful(opened_state(items, top, ring), d, h.going_on()),
{
    let s = opened_state(items, top, ring);
    let g = h.going_on();
    let seq = (top + 1) as u64;
    let op = Op::Append { seq, bytes: seg_magic(), fsync: false };
    let none = Seq::<Op>::empty();
    assert(s.ops =~= none.push(op));
    lemma_done_push(d, none, op);
    let keys = deks_of(ring);
    segment_names_round_trip(seq);
    assert(!d.dom().contains(segment_name(seq)));
    assert(tidy(d, g.n, g.first as int, seq as int));
    assert(has_segments(d, g, g.raws.len() - 1, keys)) by {
        assert forall|i: int| 0 <= i < g.raws.len() - 1 implies {
            &&& d.dom().contains(#[trigger] segment_name((g.first + i) as u64))
            &&& file_holds(d[segment_name((g.first + i) as u64)], g.raws[i], keys)
        } by {
            assert(g.raws[i] == h.raws[i]);
            assert(d.dom().contains(segment_name((h.first + i) as u64)));
        }
    }
    assert(has_base(d, g, ring));
    lemma_append_active(d, g, ring, seq, seg_magic());
    lemma_joined_push_segment(h.raws);
    let e = done_all(d, s.ops);
    let no = Seq::<u8>::empty();
    assert(log_of(Seq::<Raw>::empty()) =~= no);
    assert(content(e, segment_name(seq)) + no =~= seg_magic() + log_of(g.raws.last()));
    lemma_append_old(d, seq, content(d, segment_name(seq)) + seg_magic());
    lemma_agrees(e, d, h, g, keys);
}

/// The directory of a store that was closed in order: all that it asked for is done, and what was
/// pending is appended.
pub open spec fn closed_dir(s: State, d: Dir) -> Dir {
    let l = s.log->0;
    done(done_all(d, s.ops), Op::Append { seq: l.seq, bytes: l.pending, fsync: false })
}

/// The directory of a store that was closed in order holds the history.
proof fn lemma_closed_keeps(s: State, d: Dir, h: History)
    requires
        faithful(s, d, h),
        s.log->0.seq < u64::MAX,
    ensures
        keeps(closed_dir(s, d), h, s.log->0.ring),
{
    let l = s.log->0;
    let e = closed_dir(s, d);
    let f = done_all(d, s.ops);
    lemma_append_active(f, h, l.ring, l.seq, l.pending);
    lemma_append_old(f, l.seq, content(f, segment_name(l.seq)) + l.pending);
    lemma_agrees(e, f, h, h, deks_of(l.ring));
    let no = Seq::<u8>::empty();
    assert(next_frame(no) == Next::Torn);
    assert(e[segment_name(l.seq)] =~= seg_magic() + log_of(h.raws.last()) + no);
    assert(h.raws.drop_last().push(h.raws.last()) =~= h.raws);
    lemma_agrees_reads(e, h, deks_of(l.ring));
    lemma_last_segment(e, h, l.ring, l.seq, h.raws.last(), no);
}

/// Files with one shard each that agree with a history can be read over.
proof fn lemma_agrees_reads(d: Dir, h: History, keys: Option<Seq<Dek>>)
    requires
        agrees(d, h, keys),
    ensures
        reads_over(d, h, keys),
{
    reveal(agrees);
}

/// What a store holds when it is closed is exactly what it holds when it is opened again.
pub proof fn closed_store_survives_restart(
    s: State,
    d: Dir,
    h: History,
    files: Seq<DiskFile>,
    legacy: Seq<DiskFile>,
)
    requires
        faithful(s, d, h),
        s.log->0.seq < u64::MAX,
        lists(closed_dir(s, d), files, legacy),
    ensures
        recovered(legacy, files, deks_of(s.log->0.ring)) matches Ok(v) && held(v) == held(s.items),
{
    lemma_closed_keeps(s, d, h);
    restart_gives_back_the_history(closed_dir(s, d), h, s.log->0.ring, files, legacy);
}

/// Where all segments but the last are there, and the last one holds these records and a tail.
proof fn lemma_last_segment(e: Dir, h: History, ring: Option<Ring>, seq: u64, list: Seq<Raw>, tail: Seq<u8>)
    requires
        ring_reads_itself(ring),
        h.raws.len() > 0,
        h.n < h.first,
        h.first + h.raws.len() - 1 == seq,
        seq < u64::MAX,
        tidy(e, h.n, h.first as int, seq as int),
        has_base(e, h, ring),
        has_segments(e, h, h.raws.len() - 1, deks_of(ring)),
        e.dom().contains(segment_name(seq)),
        e[segment_name(seq)] == seg_magic() + log_of(list) + tail,
        next_frame(tail) == Next::Torn,
        sound(list, deks_of(ring)),
        sound(joined_records(h.raws.drop_last().push(list)), deks_of(ring)),
        reads_over(e, History { raws: h.raws.drop_last().push(list), ..h }, deks_of(ring)),
    ensures
        readable(e, History { raws: h.raws.drop_last().push(list), ..h }, ring),
{
    let g = History { raws: h.raws.drop_last().push(list), ..h };
    let keys = deks_of(ring);
    assert(file_holds(e[segment_name(seq)], list, keys));
    assert forall|i: int| 0 <= i < g.raws.len() implies {
        &&& e.dom().contains(#[trigger] segment_name((g.first + i) as u64))
        &&& file_holds(e[segment_name((g.first + i) as u64)], g.raws[i], keys)
    } by {
        if i < g.raws.len() - 1 {
            assert(g.raws[i] == h.raws[i]);
            assert(e.dom().contains(segment_name((h.first + i) as u64)));
        } else {
            assert((g.first + i) as u64 == seq);
        }
    }
}

/// A log that is cut at some byte: whole records, and a tail that begins no whole record.
pub proof fn lemma_cut(list: Seq<Raw>, n: int, keys: Option<Seq<Dek>>) -> (r: (int, Seq<u8>))
    requires
        sound(list, keys),
        0 <= n <= log_of(list).len(),
    ensures
        0 <= r.0 <= list.len(),
        log_of(list).take(n) == log_of(list.take(r.0)) + r.1,
        next_frame(r.1) == Next::Torn,
        sound(list.take(r.0), keys),
        log_of(list.take(r.0)).len() <= n,
        forall|q: int| 0 <= q <= list.len() && #[trigger] log_of(list.take(q)).len() <= n ==> q <= r.0,
    decreases list.len(),
{
    let none = Seq::<Raw>::empty();
    let no = Seq::<u8>::empty();
    assert(list.take(0) =~= none);
    assert(log_of(none) =~= no);
    if list.len() == 0 {
        assert(next_frame(no) == Next::Torn);
        assert(log_of(list).take(n) =~= no + no);
        (0, no)
    } else {
        let f = frame(list[0].kind, list[0].body);
        let more = list.drop_first();
        assert(list[0].body.len() < u32::MAX);
        crate::wal_laws::framed_record_is_found(list[0].kind, list[0].body, no);
        assert forall|q: int| 0 < q <= list.len() implies #[trigger] log_of(list.take(q)) == f + log_of(
            more.take(q - 1),
        ) by {
            assert(list.take(q).drop_first() =~= more.take(q - 1));
        }
        if n < f.len() {
            cut_record_is_torn(list[0].kind, list[0].body, n);
            assert(log_of(list).take(n) =~= no + f.take(n));
            assert(sound(list.take(0), keys));
            (0, f.take(n))
        } else {
            assert(sound(more, keys)) by {
                assert forall|i: int| 0 <= i < more.len() implies {
                    &&& (#[trigger] more[i]).body.len() < u32::MAX
                    &&& crate::wal::parse_body(more[i].kind, more[i].body, keys) is Ok
                } by {
                    assert(more[i] == list[i + 1]);
                }
            }
            let (j, tail) = lemma_cut(more, n - f.len(), keys);
            assert(log_of(list).take(n) =~= f + log_of(more).take(n - f.len()));
            assert(log_of(list.take(j + 1)) == f + log_of(more.take(j)));
            assert(f + (log_of(more.take(j)) + tail) =~= (f + log_of(more.take(j))) + tail);
            assert(sound(list.take(j + 1), keys)) by {
                let t = list.take(j + 1);
                assert forall|i: int| 0 <= i < t.len() implies {
                    &&& (#[trigger] t[i]).body.len() < u32::MAX
                    &&& crate::wal::parse_body(t[i].kind, t[i].body, keys) is Ok
                } by {
                    assert(t[i] == list[i]);
                }
            }
            assert forall|q: int| 0 <= q <= list.len() && #[trigger] log_of(list.take(q)).len() <= n implies q
                <= j + 1 by {
                if q > 0 {
                    assert(log_of(more.take(q - 1)).len() <= n - f.len());
                }
            }
            (j + 1, tail)
        }
    }
}

/// The directory of a store that was cut off: all that it asked for is done, but of the active
/// segment, with what was pending, only the first `n` bytes are on disk.
pub open spec fn cut_dir(s: State, d: Dir, n: int) -> Dir {
    let l = s.log->0;
    let e = done_all(d, s.ops);
    e.insert(segment_name(l.seq), (content(e, segment_name(l.seq)) + l.pending).take(n))
}

/// The history without the end of its last segment.
pub open spec fn cut_history(h: History, j: int) -> History {
    History { raws: h.raws.drop_last().push(h.raws.last().take(j)), ..h }
}

/// What is left of the active segment are whole records and a tail.
proof fn lemma_cut_content(whole: Seq<u8>, list: Seq<Raw>, n: int, keys: Option<Seq<Dek>>) -> (r: (
    int,
    Seq<u8>,
))
    requires
        sound(list, keys),
        8 <= n <= 8 + log_of(list).len(),
        whole == seg_magic() + log_of(list),
    ensures
        0 <= r.0 <= list.len(),
        whole.take(n) == seg_magic() + log_of(list.take(r.0)) + r.1,
        next_frame(r.1) == Next::Torn,
        sound(list.take(r.0), keys),
        forall|q: int|
            0 <= q <= list.len() && 8 + #[trigger] log_of(list.take(q)).len() <= n ==> q <= r.0,
{
    crate::wal::lemma_seg_magic();
    let (j, tail) = lemma_cut(list, n - 8, keys);
    assert(whole.take(n) =~= seg_magic() + log_of(list).take(n - 8));
    assert(seg_magic() + (log_of(list.take(j)) + tail) =~= seg_magic() + log_of(list.take(j)) + tail);
    (j, tail)
}

/// The records of a history without the end of its last segment make sense.
proof fn lemma_cut_sound(h: History, j: int, keys: Option<Seq<Dek>>)
    requires
        h.raws.len() > 0,
        0 <= j <= h.raws.last().len(),
        sound(joined_records(h.raws), keys),
    ensures
        sound(joined_records(cut_history(h, j).raws), keys),
{
    let list = h.raws.last();
    let short = joined_records(h.raws.drop_last().push(list.take(j)));
    assert(h.raws.drop_last().push(list) =~= h.raws);
    lemma_joined_prefix(h.raws.drop_last(), list, j);
    let all = joined_records(h.raws);
    assert forall|i: int| 0 <= i < short.len() implies {
        &&& (#[trigger] short[i]).body.len() < u32::MAX
        &&& parse_body(short[i].kind, short[i].body, keys) is Ok
    } by {
        assert(short[i] == all[i]);
    }
}

/// Cutting the last segment cuts the row of all records.
proof fn lemma_joined_prefix(raws: Seq<Seq<Raw>>, list: Seq<Raw>, j: int)
    requires
        0 <= j <= list.len(),
    ensures
        joined_records(raws.push(list.take(j))).len() <= joined_records(raws.push(list)).len(),
        forall|i: int|
            0 <= i < joined_records(raws.push(list.take(j))).len()
                ==> #[trigger] joined_records(raws.push(list.take(j)))[i] == joined_records(
                raws.push(list),
            )[i],
    decreases raws.len(),
{
    let a = raws.push(list.take(j));
    let b = raws.push(list);
    let none = Seq::<Seq<Raw>>::empty();
    if raws.len() == 0 {
        assert(a.drop_first() =~= none);
        assert(b.drop_first() =~= none);
        assert(joined_records(none) =~= Seq::<Raw>::empty());
        assert(joined_records(a) =~= list.take(j));
        assert(joined_records(b) =~= list);
    } else {
        let t = raws.drop_first();
        lemma_joined_prefix(t, list, j);
        assert(a.drop_first() =~= t.push(list.take(j)));
        assert(b.drop_first() =~= t.push(list));
        let x = joined_records(a);
        let y = joined_records(b);
        let u = joined_records(t.push(list.take(j)));
        let v = joined_records(t.push(list));
        assert(x == raws[0] + u);
        assert(y == raws[0] + v);
        assert forall|i: int| 0 <= i < x.len() implies #[trigger] x[i] == y[i] by {
            if i >= raws[0].len() {
                assert(u[i - raws[0].len()] == v[i - raws[0].len()]);
            }
        }
    }
}

/// The directory that a crash leaves holds the history without the end of its last segment.
proof fn lemma_cut_keeps(s: State, d: Dir, h: History, n: int) -> (j: int)
    requires
        logged_on(s, d, h),
        s.log->0.seq < u64::MAX,
        8 <= n <= 8 + log_of(h.raws.last()).len(),
        forall|name: Seq<char>| #[trigger] done_all(d, s.ops).dom().contains(name) ==> !is_shard_name(name),
        h.n == 0 ==> h.start == Map::<Slot, Piece>::empty(),
    ensures
        0 <= j <= h.raws.last().len(),
        keeps(cut_dir(s, d, n), cut_history(h, j), s.log->0.ring),
        forall|q: int|
            0 <= q <= h.raws.last().len() && 8 + #[trigger] log_of(h.raws.last().take(q)).len() <= n
                ==> q <= j,
{
    let l = s.log->0;
    let keys = deks_of(l.ring);
    let e = done_all(d, s.ops);
    let f = cut_dir(s, d, n);
    let list = h.raws.last();
    let whole = content(e, segment_name(l.seq)) + l.pending;
    let (j, tail) = lemma_cut_content(whole, list, n, keys);
    lemma_set_active(e, h, l.ring, l.seq, whole.take(n));
    assert(f.dom().contains(segment_name(l.seq)));
    assert(f[segment_name(l.seq)] == whole.take(n));
    lemma_cut_sound(h, j, keys);
    segment_names_round_trip(l.seq);
    lemma_segment_is_no_shard(segment_name(l.seq));
    assert forall|name: Seq<char>| #[trigger] f.dom().contains(name) implies !is_shard_name(name) by {
        if name != segment_name(l.seq) {
            assert(e.dom().contains(name));
        }
    }
    lemma_none_agrees(f, cut_history(h, j), keys);
    lemma_agrees_reads(f, cut_history(h, j), keys);
    lemma_last_segment(f, h, l.ring, l.seq, list.take(j), tail);
    j
}

/// A crash loses nothing but the end of the log: what is found again is what the history accounts
/// for without its last records, and every record that was on disk as a whole is among those
/// that are left. The directory has no files with one shard each: these are removed as soon as a
/// purge is logged, and are gone even where its record is lost.
pub proof fn crash_loses_only_the_end(
    s: State,
    d: Dir,
    h: History,
    n: int,
    files: Seq<DiskFile>,
    legacy: Seq<DiskFile>,
) -> (j: int)
    requires
        faithful(s, d, h),
        s.log->0.seq < u64::MAX,
        8 <= n <= 8 + log_of(h.raws.last()).len(),
        forall|name: Seq<char>| #[trigger] done_all(d, s.ops).dom().contains(name) ==> !is_shard_name(name),
        h.n == 0 ==> h.start == Map::<Slot, Piece>::empty(),
        lists(cut_dir(s, d, n), files, legacy),
    ensures
        0 <= j <= h.raws.last().len(),
        recovered(legacy, files, deks_of(s.log->0.ring)) matches Ok(v) && held(v) == cut_history(h, j).told(
            deks_of(s.log->0.ring),
        ),
        forall|q: int|
            0 <= q <= h.raws.last().len() && 8 + #[trigger] log_of(h.raws.last().take(q)).len() <= n
                ==> q <= j,
{
    let j = lemma_cut_keeps(s, d, h, n);
    restart_gives_back_the_history(
        cut_dir(s, d, n),
        cut_history(h, j),
        s.log->0.ring,
        files,
        legacy,
    );
    j
}

/// Giving the active segment another content disturbs nothing else.
proof fn lemma_set_active(e: Dir, h: History, ring: Option<Ring>, seq: u64, bytes: Seq<u8>)
    requires
        h.raws.len() > 0,
        h.first + h.raws.len() - 1 == seq,
        tidy(e, h.n, h.first as int, seq as int),
        has_base(e, h, ring),
        has_segments(e, h, h.raws.len() - 1, deks_of(ring)),
        h.n < h.first,
    ensures
        ({
            let f = e.insert(segment_name(seq), bytes);
            &&& tidy(f, h.n, h.first as int, seq as int)
            &&& has_base(f, h, ring)
            &&& has_segments(f, h, h.raws.len() - 1, deks_of(ring))
        }),
{
    lemma_append_active(e, h, ring, seq, Seq::empty());
    let f = e.insert(segment_name(seq), bytes);
    let k = e.insert(segment_name(seq), content(e, segment_name(seq)) + Seq::<u8>::empty());
    assert forall|name: Seq<char>| #[trigger] f.dom().contains(name) implies k.dom().contains(name) by {}
    segment_names_round_trip(seq);
    compact_names_round_trip(h.n);
    assert forall|i: int| 0 <= i < h.raws.len() - 1 implies {
        &&& f.dom().contains(#[trigger] segment_name((h.first + i) as u64))
        &&& file_holds(f[segment_name((h.first + i) as u64)], h.raws[i], deks_of(ring))
    } by {
        lemma_names_differ((h.first + i) as u64, seq);
        assert(e.dom().contains(segment_name((h.first + i) as u64)));
    }
}

/// Once the log is synced and the queue is carried out, not even a crash loses a shard: this is
/// what a node waits for before it acknowledges a put.
pub proof fn synced_store_survives_crash(
    s: State,
    d: Dir,
    h: History,
    files: Seq<DiskFile>,
    legacy: Seq<DiskFile>,
)
    requires
        faithful(s, d, h),
        s.log->0.seq < u64::MAX,
        lists(done_all(d, s.synced().ops), files, legacy),
    ensures
        recovered(legacy, files, deks_of(s.log->0.ring)) matches Ok(v) && held(v) == held(s.items),
{
    sync_keeps_the_history(s, d, h);
    let t = s.synced();
    let l = t.log->0;
    let e = done_all(d, t.ops);
    lemma_done_push(d, s.ops, t.ops.last());
    assert(t.ops =~= s.ops.push(t.ops.last()));
    assert(e.dom().contains(segment_name(l.seq)));
    assert(content(e, segment_name(l.seq)) + l.pending =~= e[segment_name(l.seq)]);
    assert(closed_dir(t, d) =~= e);
    closed_store_survives_restart(t, d, h, files, legacy);
}

/// A shard that was reported as stored is there after a restart, with all that was there before.
pub proof fn stored_shard_is_there_after_restart(
    s: State,
    key: Key,
    shard: Piece,
    now: u64,
    mid: State,
    m: u64,
    d: Dir,
    h: History,
    files: Seq<DiskFile>,
    legacy: Seq<DiskFile>,
)
    requires
        faithful(s, d, h),
        short_enough(shard),
        s.put_step(key, shard, now, mid, (true, m)),
        s.log->0.seq < u64::MAX - 1,
        lists(closed_dir(mid.synced().rotated(), d), files, legacy),
    ensures
        recovered(legacy, files, deks_of(s.log->0.ring)) matches Ok(v) && held(v) == held(s.items).insert(
            (key, shard_digest(shard)),
            shard,
        ),
{
    let g = put_keeps_the_history(s, key, shard, now, mid, (true, m), d, h);
    sync_keeps_the_history(mid, d, g);
    let t = mid.synced();
    let l = t.log->0;
    if l.written >= l.rotate_at {
        rotation_keeps_the_history(t, d, g);
        closed_store_survives_restart(t.advanced(), d, g.going_on(), files, legacy);
    } else {
        closed_store_survives_restart(t, d, g, files, legacy);
    }
    lemma_held_stored(s.items, Item { key, hash: shard_digest(shard), shard, epoch: now });
}

/// A put that was published survives a crash. The flush began in the state `s`, after the put; `e`
/// and `t` are the directory and the store when it ended, with any puts and any part of the queue
/// carried out in between. Nothing is published before the queue is empty, and then all that was
/// held when the flush began is in the directory.
pub proof fn published_put_survives_crash(
    before: State,
    key: Key,
    shard: Piece,
    now: u64,
    s: State,
    m: u64,
    t: State,
    d: Dir,
    e: Dir,
    h: History,
    files: Seq<DiskFile>,
    legacy: Seq<DiskFile>,
)
    requires
        faithful(before, d, h),
        short_enough(shard),
        before.put_step(key, shard, now, s, (true, m)),
        before.log->0.seq < u64::MAX,
        done_all(e, t.ops) == done_all(d, s.synced().ops),
        t.ops.len() == 0,
        lists(e, files, legacy),
    ensures
        s.sync_result() is Ok ==> s.synced().flushed_seq == m,
        recovered(legacy, files, deks_of(before.log->0.ring)) matches Ok(v) && held(v) == held(
            before.items,
        ).insert((key, shard_digest(shard)), shard),
{
    let g = put_keeps_the_history(before, key, shard, now, s, (true, m), d, h);
    assert(done_all(e, t.ops) == e);
    synced_store_survives_crash(s, d, g, files, legacy);
    lemma_held_stored(before.items, Item { key, hash: shard_digest(shard), shard, epoch: now });
}

/// Puts and the carrying out of a queue leave its end in sight: what is left of it brings the
/// directory to the same place.
pub proof fn flush_comes_to_its_end(
    s: State,
    d: Dir,
    key: Key,
    shard: Piece,
    now: u64,
    after: State,
    r: (bool, u64),
    k: nat,
    n: nat,
)
    ensures
        s.put_step(key, shard, now, after, r) ==> done_all(d, after.ops) == done_all(d, s.ops),
        done_all(done_in_part(d, s.ops, k, n), left_of(s.ops, k, n)) == done_all(d, s.ops),
{
    rest_of_the_queue_completes_it(d, s.ops, k, n);
}

/// Where records were logged and written, a crash does not undo what they do: whether or not files
/// with one shard each were removed since.
proof fn lemma_written_survives_crash(
    s: State,
    list: Seq<Raw>,
    m: Log,
    d: Dir,
    h: History,
    files: Seq<DiskFile>,
    legacy: Seq<DiskFile>,
)
    requires
        faithful(s, d, h),
        s.log->0.seq < u64::MAX,
        m == (Log { pending: s.log->0.pending + log_of(list), written: m.written, ..s.log->0 }),
        sound(list, deks_of(s.log->0.ring)),
        lists(done_all(d, s.with_log_synced(m).ops), files, legacy),
    ensures
        recovered(legacy, files, deks_of(s.log->0.ring)) matches Ok(v) && held(v) == effects(
            held(s.items),
            meaning(list, deks_of(s.log->0.ring)),
        ),
{
    reveal(agrees);
    reveal(reads_over);
    let ring = s.log->0.ring;
    let keys = deks_of(ring);
    let recs = meaning(list, keys);
    let items = applied_all(s.items, recs, 0);
    records_have_their_effects(s.items, recs, 0);
    let one = State { items, log: Some(m), ..s };
    let g = lemma_records(s, d, h, list, one);
    lemma_sync_logged(one, d, g);
    let e = done_all(d, s.with_log_synced(m).ops);
    assert(one.synced().ops == s.with_log_synced(m).ops);
    lemma_same_old(e, done_all(d, s.ops), keys);
    let old = old_shards(e, keys);
    lemma_effects_concat(old, h.recs(keys), recs);
    lemma_effects_concat(h.start, h.recs(keys), recs);
    assert(reads_over(e, g, keys));
    let l = one.synced().log->0;
    let no = Seq::<u8>::empty();
    assert(next_frame(no) == Next::Torn);
    lemma_done_push(d, s.ops, one.synced().ops.last());
    assert(one.synced().ops =~= s.ops.push(one.synced().ops.last()));
    assert(e.dom().contains(segment_name(l.seq)));
    assert(e[segment_name(l.seq)] =~= seg_magic() + log_of(g.raws.last()) + no);
    assert(g.raws.drop_last().push(g.raws.last()) =~= g.raws);
    lemma_last_segment(e, g, ring, l.seq, g.raws.last(), no);
    restart_gives_back_the_history(e, g, ring, files, legacy);
}

/// Once the record of a purge is written, a crash does not bring the object back, though files of
/// its shards may not have been removed yet; and nothing else is lost.
pub proof fn purge_survives_crash(
    s: State,
    object_id: u64,
    s1: State,
    d: Dir,
    h: History,
    files: Seq<DiskFile>,
    legacy: Seq<DiskFile>,
)
    requires
        faithful(s, d, h),
        object_purge_start(s, object_id, s1, Ok(())),
        s.log->0.seq < u64::MAX,
        lists(done_all(d, s1.ops), files, legacy),
    ensures
        recovered(legacy, files, deks_of(s.log->0.ring)) matches Ok(v) && held(v) == less_object(
            held(s.items),
            object_id,
        ),
{
    let keys = deks_of(s.log->0.ring);
    let none = Seq::<Raw>::empty();
    let raw = Raw { kind: KIND_PURGE, body: crate::bytes::be64(object_id) };
    let list = seq![raw];
    let m = s.log->0.recorded(raw.kind, raw.body);
    let rec = Rec::Purge { object_id };
    crate::wal_laws::purge_is_read_back(object_id, keys);
    crate::bytes::be64_round_trip(object_id);
    log_of_push(none, raw);
    assert(none.push(raw) =~= list);
    assert(log_of(none) =~= Seq::<u8>::empty());
    assert(m.pending =~= s.log->0.pending + log_of(list));
    assert(meaning(list, keys) =~= Seq::<Rec>::empty().push(rec));
    lemma_effects_push(held(s.items), Seq::empty(), rec);
    assert(sound(list, keys)) by {
        assert forall|i: int| 0 <= i < list.len() implies {
            &&& (#[trigger] list[i]).body.len() < u32::MAX
            &&& parse_body(list[i].kind, list[i].body, keys) is Ok
        } by {
            assert(list[i] == raw);
        }
    }
    lemma_written_survives_crash(s, list, m, d, h, files, legacy);
}

/// Once the records of a purge by hashes are written, a crash brings none of the shards back that
/// were due, and takes none of the others.
pub proof fn purge_by_hashes_survives_crash(
    s: State,
    targets: Seq<Seq<u8>>,
    max: u64,
    s1: State,
    d: Dir,
    h: History,
    files: Seq<DiskFile>,
    legacy: Seq<DiskFile>,
)
    requires
        faithful(s, d, h),
        s.wf(),
        hash_purge_start(s, targets, max, s1, Ok(())),
        doomed(s.items, targets, max).len() > 0,
        s.log->0.seq < u64::MAX,
        forall|i: int|
            0 <= i < s.items.len() ==> (#[trigger] s.items[i]).hash.len() == 32 && short_enough(
                s.items[i].shard,
            ),
        hashes_body(doomed(s.items, targets, max)).len() < u32::MAX,
        doomed(s.items, targets, max).len() <= u32::MAX,
        lists(done_all(d, s1.ops), files, legacy),
    ensures
        recovered(legacy, files, deks_of(s.log->0.ring)) matches Ok(v) && held(v) == held(
            keep(s.items, not_due(targets, max)),
        ),
{
    let list = lemma_purge_records(s, targets, max, s1, d, h);
    let l = s.log->0;
    let m = Log { pending: l.pending + log_of(list), written: s1.log->0.written, ..l };
    lemma_written_survives_crash(s, list, m, d, h, files, legacy);
}

/// An object that was purged stays gone after a restart, and nothing else is lost.
pub proof fn purged_object_stays_gone(
    s: State,
    object_id: u64,
    s1: State,
    t: State,
    r: Result<usize, Fault>,
    d: Dir,
    h: History,
    files: Seq<DiskFile>,
    legacy: Seq<DiskFile>,
)
    requires
        faithful(s, d, h),
        object_purge_start(s, object_id, s1, Ok(())),
        object_purge_step(drained(s1), object_id, Ok(()), t, r),
        s.log->0.seq < u64::MAX - 1,
        forall|i: int| 0 <= i < s.items.len() ==> (#[trigger] s.items[i]).hash.len() == 32,
        forall|x: Slot, i: int|
            #![trigger is_old(done_all(d, s.ops), deks_of(s.log->0.ring), x), s.items[i]]
            is_old(done_all(d, s.ops), deks_of(s.log->0.ring), x) && 0 <= i < s.items.len()
                && s.items[i].key.0 == object_id && s.items[i].hash == x.1 ==> x.0.0 == object_id,
        lists(closed_dir(t, done_all(d, s1.ops)), files, legacy),
    ensures
        recovered(legacy, files, deks_of(s.log->0.ring)) matches Ok(v) && held(v) == less_object(
            held(s.items),
            object_id,
        ),
{
    let g = purge_keeps_the_history(s, object_id, s1, t, r, d, h);
    closed_store_survives_restart(t, done_all(d, s1.ops), g, files, legacy);
    lemma_held_without_object(s.items, object_id);
}

/// A compaction that went through changes nothing but the files: the store holds what it held, no
/// segment is left that the compacted one stands for, nor any other compacted segment, and a
/// restart gives back exactly the shards that were held. `names` are the files that are there when
/// the compacted segment has been written; `c` is the store then, and `t` the store at the end.
pub proof fn compacted_store_is_found_again(
    s: State,
    snap: Seq<Raw>,
    d: Dir,
    h: History,
    names: Seq<String>,
    c: State,
    t: State,
    files: Seq<DiskFile>,
    legacy: Seq<DiskFile>,
)
    requires
        faithful(s, d, h),
        s.wf(),
        0 < s.log->0.seq < u64::MAX - 1,
        snapshot_of(s.log->0.ring, s.items, snap),
        forall|i: int|
            0 <= i < s.items.len() ==> (#[trigger] s.items[i]).hash.len() == 32 && short_enough(
                s.items[i].shard,
            ),
        c == s.compacted(seg_magic() + log_of(snap)),
        forall|i: int| 0 <= i < names.len() ==> done_all(d, c.ops).dom().contains((#[trigger] names[i])@),
        forall|x: Seq<char>|
            #[trigger]
            done_all(d, c.ops).dom().contains(x) ==> exists|i: int|
                0 <= i < names.len() && (#[trigger] names[i])@ == x,
        t == (State { ops: garbage_ops(names, top_compact(names)), ..drained(c) }),
        lists(closed_dir(t, done_all(d, c.ops)), files, legacy),
    ensures
        t.items == s.items,
        top_compact(names) == s.log->0.seq,
        forall|x: Seq<char>|
            #[trigger]
            done_all(done_all(d, c.ops), t.ops).dom().contains(x) ==> (segment_number(x) matches Some(
                k,
            ) ==> k > s.log->0.seq) && (compact_number(x) matches Some(k) ==> k == s.log->0.seq),
        recovered(legacy, files, deks_of(s.log->0.ring)) matches Ok(v) && held(v) == held(s.items),
{
    let n = s.log->0.seq;
    let g = compacted_history(s, snap);
    let e = done_all(d, c.ops);
    compaction_keeps_the_history(s, snap, d, h);
    let u = drained(c);
    assert(done_all(e, Seq::<Op>::empty()) == e);
    assert(faithful(u, e, g));
    compact_names_round_trip(n);
    assert forall|j: int| 0 <= j < names.len() implies (compact_number((#[trigger] names[j])@) matches Some(
        k,
    ) ==> k <= n) by {
        assert(e.dom().contains(names[j]@));
    }
    lemma_top_compact_is(names, n);
    assert(e.dom().contains(compact_name(n)));
    let j = choose|j: int| 0 <= j < names.len() && (#[trigger] names[j])@ == compact_name(n);
    assert(compact_number(names[j]@) == Some(n as nat));
    garbage_removal_keeps_the_history(u, names, e, g);
    let f = done_all(e, t.ops);
    assert(logged_on(t, e, g));
    assert forall|x: Seq<char>| #[trigger] f.dom().contains(x) implies (segment_number(x) matches Some(k)
        ==> k > n) && (compact_number(x) matches Some(k) ==> k == n) by {
        if is_garbage(x, n) {
            no_garbage_is_left(e, names, n, x);
        }
    }
    closed_store_survives_restart(t, e, g, files, legacy);
}

/// The history of a directory without a log: what its files with one shard each hold.
pub open spec fn first_history(d: Dir, keys: Option<Seq<Dek>>) -> History {
    History {
        n: 0,
        base: Seq::empty(),
        snap: Seq::empty(),
        start: old_shards(d, keys),
        first: 1,
        raws: Seq::empty(),
    }
}

/// A directory without a log holds the history that begins with its files, so that a node that
/// starts on an empty directory, or on one of an older node, is faithful.
pub proof fn directory_without_log_is_kept(d: Dir, ring: Option<Ring>)
    requires
        ring_reads_itself(ring),
        named_right(d, deks_of(ring)),
        forall|name: Seq<char>| #[trigger] d.dom().contains(name) ==> !is_log_name(name),
    ensures
        keeps(d, first_history(d, deks_of(ring)), ring),
{
    reveal(agrees);
    reveal(reads_over);
    let keys = deks_of(ring);
    let h = first_history(d, keys);
    assert(joined_records(h.raws) =~= Seq::<Raw>::empty());
    assert(h.recs(keys) =~= Seq::<Rec>::empty());
}

} // verus!
