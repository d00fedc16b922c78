//! Lists of catalog entries: one entry to a name, in the order of the names, and filtered
//! so that what is left can still be reached.
use vstd::prelude::*;

use crate::filter::{passes, CatalogEntry, CatalogFilter};
use crate::text::{
    chars_of, lex_lt, lex_lt_irreflexive, lex_lt_total, lex_lt_transitive, same_chars, take_chars,
    text_before,
};

verus! {

/// Whether the names rise.
pub open spec fn by_rising_name(s: Seq<CatalogEntry>) -> bool {
    forall|i: int, j: int|
        0 <= i < j < s.len() ==> lex_lt((#[trigger] s[i]).name@, (#[trigger] s[j]).name@)
}

/// The last entry with this name.
pub open spec fn last_named(s: Seq<CatalogEntry>, name: Seq<char>) -> Option<CatalogEntry>
    decreases s.len(),
{
    if s.len() == 0 {
        None
    } else if s.last().name@ == name {
        Some(s.last())
    } else {
        last_named(s.drop_last(), name)
    }
}

/// Whether `p` is the path of a directory in which `n` lies.
pub open spec fn is_ancestor(p: Seq<char>, n: Seq<char>) -> bool {
    0 < p.len() < n.len() && n[p.len() as int] == '/' && n.take(p.len() as int) == p
}

/// Whether `e` is the entry for its name and passes the filter.
pub open spec fn selected(s: Seq<CatalogEntry>, f: CatalogFilter, e: CatalogEntry) -> bool {
    last_named(s, e.name@) == Some(e) && passes(f, e)
}

/// Whether a name is that of an entry that passes, or of a directory in which one lies.
pub open spec fn is_kept(s: Seq<CatalogEntry>, f: CatalogFilter, name: Seq<char>) -> bool {
    exists|e: CatalogEntry|
        #[trigger] selected(s, f, e) && (name == e.name@ || is_ancestor(name, e.name@))
}

/// Puts an entry in its place, where it takes the place of one with the same name.
fn insert_entry(v: &mut Vec<CatalogEntry>, e: CatalogEntry)
    requires
        by_rising_name(old(v)@),
    ensures
        by_rising_name(final(v)@),
        forall|x: CatalogEntry|
            #[trigger] final(v)@.contains(x) <==> x == e || (old(v)@.contains(x) && x.name@ != e.name@),
{
    let ghost s = v@;
    let key = chars_of(e.name.as_str());
    let mut i: usize = v.len();
    while i > 0
        invariant
            v@ == s,
            s == old(v)@,
            by_rising_name(s),
            0 <= i <= s.len(),
            key@ == e.name@,
            forall|j: int| i <= j < s.len() ==> lex_lt(e.name@, (#[trigger] s[j]).name@),
        ensures
            i > 0 ==> lex_lt(s[i - 1].name@, e.name@),
        decreases i,
    {
        let k = chars_of(v[i - 1].name.as_str());
        if same_chars(k.as_slice(), key.as_slice()) {
            v[i - 1] = e;
            proof {
                let n = i - 1;
                let w = v@;
                assert(w =~= s.update(n, e));
                assert forall|a: int, b: int| 0 <= a < b < w.len() implies lex_lt(
                    (#[trigger] w[a]).name@,
                    (#[trigger] w[b]).name@,
                ) by {
                    assert(lex_lt(s[a].name@, s[b].name@));
                }
                assert forall|x: CatalogEntry|
                    #[trigger] w.contains(x) <==> x == e || (s.contains(x) && x.name@ != e.name@) by {
                    if w.contains(x) {
                        let a = choose|a: int| 0 <= a < w.len() && w[a] == x;
                        if a != n {
                            assert(s[a] == x);
                            lemma_distinct(s, a, n);
                        }
                    }
                    if s.contains(x) && x.name@ != e.name@ {
                        let a = choose|a: int| 0 <= a < s.len() && s[a] == x;
                        assert(w[a] == x);
                    }
                    assert(w[n] == e);
                }
            }
            return;
        }
        if text_before(k.as_slice(), key.as_slice()) {
            break;
        }
        proof {
            lex_lt_total(k@, key@);
        }
        i -= 1;
    }
    v.insert(i, e);
    proof {
        let w = v@;
        assert(w =~= s.insert(i as int, e));
        assert forall|a: int, b: int| 0 <= a < b < w.len() implies lex_lt(
            (#[trigger] w[a]).name@,
            (#[trigger] w[b]).name@,
        ) by {
            if b < i {
                assert(lex_lt(s[a].name@, s[b].name@));
            } else if b == i {
                assert(w[a] == s[a]);
                if a < i - 1 {
                    assert(lex_lt(s[a].name@, s[i - 1].name@));
                    lex_lt_transitive(s[a].name@, s[i - 1].name@, e.name@);
                }
            } else if a == i {
                assert(w[b] == s[b - 1]);
            } else if a < i {
                assert(w[b] == s[b - 1]);
                assert(lex_lt(s[a].name@, s[b - 1].name@));
            } else {
                assert(lex_lt(s[a - 1].name@, s[b - 1].name@));
            }
        }
        assert forall|x: CatalogEntry|
            #[trigger] w.contains(x) <==> x == e || (s.contains(x) && x.name@ != e.name@) by {
            if w.contains(x) {
                let a = choose|a: int| 0 <= a < w.len() && w[a] == x;
                if a < i {
                    assert(s[a] == x);
                    assert(lex_lt(w[a].name@, w[i as int].name@));
                    lex_lt_irreflexive(e.name@);
                } else if a > i {
                    assert(s[a - 1] == x);
                    lex_lt_irreflexive(e.name@);
                }
            }
            if s.contains(x) && x.name@ != e.name@ {
                let a = choose|a: int| 0 <= a < s.len() && s[a] == x;
                if a < i {
                    assert(w[a] == x);
                } else {
                    assert(w[a + 1] == x);
                }
            }
            assert(w[i as int] == e);
        }
    }
}

proof fn lemma_distinct(s: Seq<CatalogEntry>, a: int, b: int)
    requires
        by_rising_name(s),
        0 <= a < s.len(),
        0 <= b < s.len(),
        a != b,
    ensures
        s[a].name@ != s[b].name@,
{
    lex_lt_irreflexive(s[a].name@);
    if a < b {
        assert(lex_lt(s[a].name@, s[b].name@));
    } else {
        assert(lex_lt(s[b].name@, s[a].name@));
    }
}

/// One entry to a name, the last, in the order of the names.
pub fn sorted_by_name(entries: &Vec<CatalogEntry>) -> (r: Vec<CatalogEntry>)
    ensures
        by_rising_name(r@),
        forall|x: CatalogEntry|
            #[trigger] r@.contains(x) <==> last_named(entries@, x.name@) == Some(x),
{
    let mut out: Vec<CatalogEntry> = Vec::new();
    let mut i: usize = 0;
    while i < entries.len()
        invariant
            0 <= i <= entries@.len(),
            by_rising_name(out@),
            forall|x: CatalogEntry|
                #[trigger] out@.contains(x) <==> last_named(entries@.take(i as int), x.name@) == Some(x),
        decreases entries@.len() - i,
    {
        let ghost before = out@;
        let ghost t = entries@.take(i + 1);
        assert(t.drop_last() =~= entries@.take(i as int));
        assert(t.last() == entries@[i as int]);
        insert_entry(&mut out, entries[i].copy());
        proof {
            let e = entries@[i as int];
            assert forall|x: CatalogEntry|
                #[trigger] out@.contains(x) <==> last_named(t, x.name@) == Some(x) by {
                assert(out@.contains(x) <==> x == e || (before.contains(x) && x.name@ != e.name@));
            }
        }
        i += 1;
    }
    assert(entries@.take(i as int) =~= entries@);
    out
}

/// Whether `p` is the path of a directory in which `n` lies.
pub fn ancestor(p: &[char], n: &[char]) -> (r: bool)
    ensures
        r == is_ancestor(p@, n@),
{
    p.len() > 0 && p.len() < n.len() && n[p.len()] == '/' && same_chars(take_chars(n, p.len()), p)
}

/// The entries that pass the filter, and those of the directories in which they lie, one to
/// a name, in the order of the names.
pub fn apply_filter(entries: Vec<CatalogEntry>, filter: &CatalogFilter) -> (r: Vec<CatalogEntry>)
    ensures
        by_rising_name(r@),
        forall|x: CatalogEntry|
            #[trigger] r@.contains(x) <==> last_named(entries@, x.name@) == Some(x) && is_kept(
                entries@,
                *filter,
                x.name@,
            ),
{
    let all = sorted_by_name(&entries);
    let mut pass: Vec<bool> = Vec::new();
    let mut i: usize = 0;
    while i < all.len()
        invariant
            0 <= i <= all@.len(),
            pass@.len() == i,
            forall|j: int| 0 <= j < i ==> #[trigger] pass@[j] == passes(*filter, all@[j]),
        decreases all@.len() - i,
    {
        pass.push(filter.matches(&all[i]));
        i += 1;
    }
    let mut out: Vec<CatalogEntry> = Vec::new();
    let ghost mut from: Seq<int> = Seq::empty();
    let mut k: usize = 0;
    while k < all.len()
        invariant
            0 <= k <= all@.len(),
            by_rising_name(all@),
            pass@.len() == all@.len(),
            forall|j: int| 0 <= j < pass@.len() ==> #[trigger] pass@[j] == passes(*filter, all@[j]),
            forall|x: CatalogEntry|
                #[trigger] all@.contains(x) <==> last_named(entries@, x.name@) == Some(x),
            from.len() == out@.len(),
            forall|j: int| 0 <= j < from.len() ==> 0 <= #[trigger] from[j] < k && out@[j] == all@[from[j]],
            forall|i: int, j: int| 0 <= i < j < from.len() ==> #[trigger] from[i] < #[trigger] from[j],
            forall|j: int|
                0 <= j < k ==> (out@.contains(#[trigger] all@[j]) <==> is_kept(
                    entries@,
                    *filter,
                    all@[j].name@,
                )),
        decreases all@.len() - k,
    {
        let name = chars_of(all[k].name.as_str());
        let mut keep: bool = pass[k];
        let mut m: usize = 0;
        while m < all.len()
            invariant
                0 <= m <= all@.len(),
                0 <= k < all@.len(),
                name@ == all@[k as int].name@,
                pass@.len() == all@.len(),
                forall|j: int|
                    0 <= j < pass@.len() ==> #[trigger] pass@[j] == passes(*filter, all@[j]),
                keep <==> passes(*filter, all@[k as int]) || exists|j: int|
                    0 <= j < m && passes(*filter, #[trigger] all@[j]) && is_ancestor(
                        name@,
                        all@[j].name@,
                    ),
            decreases all@.len() - m,
        {
            if !keep && pass[m] {
                let other = chars_of(all[m].name.as_str());
                if ancestor(name.as_slice(), other.as_slice()) {
                    keep = true;
                }
            }
            m += 1;
        }
        proof {
            lemma_kept(all@, entries@, *filter, k as int);
        }
        let ghost before = out@;
        let ghost from0 = from;
        if keep {
            out.push(all[k].copy());
            proof {
                from = from.push(k as int);
            }
        }
        proof {
            let e = all@[k as int];
            assert forall|j: int| 0 <= j < k + 1 implies (out@.contains(#[trigger] all@[j]) <==> is_kept(
                entries@,
                *filter,
                all@[j].name@,
            )) by {
                if j < k {
                    lemma_distinct(all@, j, k as int);
                    if out@.contains(all@[j]) {
                        let a = choose|a: int| 0 <= a < out@.len() && out@[a] == all@[j];
                        if a == before.len() {
                            assert(all@[j] == e);
                        } else {
                            assert(before[a] == all@[j]);
                            assert(before.contains(all@[j]));
                        }
                    }
                    if before.contains(all@[j]) {
                        let a = choose|a: int| 0 <= a < before.len() && before[a] == all@[j];
                        assert(out@[a] == all@[j]);
                    }
                } else {
                    if keep {
                        assert(out@[before.len() as int] == e);
                    } else if before.contains(e) {
                        let a = choose|a: int| 0 <= a < before.len() && before[a] == e;
                        assert(before[a] == all@[from[a]]);
                        lemma_distinct(all@, from[a], k as int);
                    }
                }
            }
            assert forall|j: int| 0 <= j < from.len() implies 0 <= #[trigger] from[j] < k + 1 && out@[j]
                == all@[from[j]] by {
                if j < from0.len() {
                    assert(from[j] == from0[j]);
                    assert(out@[j] == before[j]);
                }
            }
            assert forall|i: int, j: int| 0 <= i < j < from.len() implies #[trigger] from[i]
                < #[trigger] from[j] by {
                assert(from[i] == from0[i]);
                if j < from0.len() {
                    assert(from[j] == from0[j]);
                }
            }
        }
        k += 1;
    }
    proof {
        let s = out@;
        assert forall|i: int, j: int| 0 <= i < j < s.len() implies lex_lt(
            (#[trigger] s[i]).name@,
            (#[trigger] s[j]).name@,
        ) by {
            assert(from[i] < from[j]);
            assert(lex_lt(all@[from[i]].name@, all@[from[j]].name@));
        }
        assert forall|x: CatalogEntry|
            #[trigger] s.contains(x) <==> last_named(entries@, x.name@) == Some(x) && is_kept(
                entries@,
                *filter,
                x.name@,
            ) by {
            if s.contains(x) {
                let a = choose|a: int| 0 <= a < s.len() && s[a] == x;
                let j = from[a];
                assert(all@[j] == x);
                assert(all@.contains(x));
                assert(s.contains(all@[j]));
            }
            if last_named(entries@, x.name@) == Some(x) && is_kept(entries@, *filter, x.name@) {
                assert(all@.contains(x));
                let j = choose|j: int| 0 <= j < all@.len() && all@[j] == x;
                assert(is_kept(entries@, *filter, all@[j].name@));
            }
        }
    }
    out
}

proof fn lemma_kept(all: Seq<CatalogEntry>, s: Seq<CatalogEntry>, f: CatalogFilter, k: int)
    requires
        0 <= k < all.len(),
        by_rising_name(all),
        forall|x: CatalogEntry| #[trigger] all.contains(x) <==> last_named(s, x.name@) == Some(x),
    ensures
        is_kept(s, f, all[k].name@) <==> (passes(f, all[k]) || exists|j: int|
            0 <= j < all.len() && passes(f, #[trigger] all[j]) && is_ancestor(
                all[k].name@,
                all[j].name@,
            )),
{
    let e = all[k];
    assert(all.contains(e));
    if is_kept(s, f, e.name@) {
        let x = choose|x: CatalogEntry|
            #[trigger] selected(s, f, x) && (e.name@ == x.name@ || is_ancestor(e.name@, x.name@));
        assert(all.contains(x));
        let j = choose|j: int| 0 <= j < all.len() && all[j] == x;
        if e.name@ == x.name@ {
            assert(x == e);
        } else {
            assert(passes(f, all[j]) && is_ancestor(all[k].name@, all[j].name@));
        }
    }
    if passes(f, e) {
        assert(selected(s, f, e));
    }
    if exists|j: int|
        0 <= j < all.len() && passes(f, #[trigger] all[j]) && is_ancestor(all[k].name@, all[j].name@) {
        let j = choose|j: int|
            0 <= j < all.len() && passes(f, #[trigger] all[j]) && is_ancestor(
                all[k].name@,
                all[j].name@,
            );
        assert(all.contains(all[j]));
        assert(selected(s, f, all[j]));
    }
}

/// Whatever passes the filter is left with every directory above it that the catalog has.
pub proof fn filtered_entries_can_be_reached(
    s: Seq<CatalogEntry>,
    f: CatalogFilter,
    e: CatalogEntry,
    dir: CatalogEntry,
)
    requires
        last_named(s, e.name@) == Some(e),
        is_kept(s, f, e.name@),
        last_named(s, dir.name@) == Some(dir),
        is_ancestor(dir.name@, e.name@),
    ensures
        is_kept(s, f, dir.name@),
{
    let x = choose|x: CatalogEntry|
        #[trigger] selected(s, f, x) && (e.name@ == x.name@ || is_ancestor(e.name@, x.name@));
    if e.name@ != x.name@ {
        let p = dir.name@;
        let n = e.name@;
        let m = x.name@;
        assert(n.take(p.len() as int) =~= m.take(p.len() as int)) by {
            assert(m.take(n.len() as int) == n);
        }
        assert(m[p.len() as int] == m.take(n.len() as int)[p.len() as int]);
    }
}

} // verus!
