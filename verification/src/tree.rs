//! The catalog as a tree of directories and objects.
use vstd::prelude::*;
use vstd::string::StringExecFns;

use crate::catalog::{is_ancestor, last_named};
use crate::filter::CatalogEntry;
use crate::text::{
    after_last, ahead_of_last, before_last, behind_last, chars_of, copy_chars, deep, is_text,
    lemma_rfind, lex_lt, lex_lt_total, lex_lt_transitive, rfind, same_chars, same_text, string_of,
    take_chars, text_before,
};

verus! {

/// By what the entries of a directory are ordered.
#[derive(Debug, Clone, Copy, PartialEq, Eq, Structural)]
pub enum TreeSort {
    Name,
    Size,
    Kind,
    Date,
}

/// A directory or an object.
#[derive(Debug)]
pub struct TreeNode {
    /// The whole path; empty for the root.
    pub path: String,
    /// The last segment of the path.
    pub basename: String,
    /// The entry of the catalog; none for the root, and for a directory that the catalog
    /// does not list.
    pub entry: Option<CatalogEntry>,
    /// What lies in the directory, in order.
    pub children: Vec<TreeNode>,
}

/// Whether a node is a directory.
pub open spec fn is_dir(n: TreeNode) -> bool {
    n.entry matches Some(e) ==> e.kind@ == "directory"@
}

/// How many shards a node has.
pub open spec fn node_size(n: TreeNode) -> u32 {
    match n.entry {
        Some(e) => e.n_shards,
        None => 0,
    }
}

/// The kind of a node.
pub open spec fn node_kind(n: TreeNode) -> Seq<char> {
    match n.entry {
        Some(e) => e.kind@,
        None => "directory"@,
    }
}

/// When a node was made; 0 where that is not known.
pub open spec fn node_date(n: TreeNode) -> u64 {
    match n.entry {
        Some(e) => e.created_at_unix,
        None => 0,
    }
}

/// Whether `a` comes before `b` in a directory: directories before objects; then by the
/// chosen key, large before small, young before old, and those without a date last; then by
/// name.
pub open spec fn comes_before(a: TreeNode, b: TreeNode, sort: TreeSort) -> bool {
    let by_name = lex_lt(a.basename@, b.basename@);
    if is_dir(a) != is_dir(b) {
        is_dir(a)
    } else {
        match sort {
            TreeSort::Name => by_name,
            TreeSort::Size => node_size(a) > node_size(b) || (node_size(a) == node_size(b) && by_name),
            TreeSort::Kind => lex_lt(node_kind(a), node_kind(b)) || (node_kind(a) == node_kind(b)
                && by_name),
            TreeSort::Date => node_date(a) > node_date(b) || (node_date(a) == node_date(b)
                && by_name),
        }
    }
}

/// Whether nodes stand in order.
pub open spec fn in_order(v: Seq<TreeNode>, sort: TreeSort) -> bool {
    forall|i: int, j: int|
        0 <= i < j < v.len() ==> comes_before(#[trigger] v[i], #[trigger] v[j], sort)
}

/// Whether a path is that of an entry, or of a directory in which one lies.
pub open spec fn is_path(s: Seq<CatalogEntry>, p: Seq<char>) -> bool {
    exists|i: int|
        0 <= i < s.len() && (p == (#[trigger] s[i]).name@ || is_ancestor(p, s[i].name@))
}

/// Whether every name is a path: not empty, and no slash at its start.
pub open spec fn proper_names(s: Seq<CatalogEntry>) -> bool {
    forall|i: int|
        0 <= i < s.len() ==> (#[trigger] s[i]).name@.len() > 0 && s[i].name@[0] != '/'
}

/// Whether a node, with all below it, is the tree of the entries at its path.
pub open spec fn is_node(n: TreeNode, s: Seq<CatalogEntry>, sort: TreeSort) -> bool
    decreases n,
{
    &&& n.basename@ == after_last(n.path@, '/')
    &&& n.entry == last_named(s, n.path@)
    &&& in_order(n.children@, sort)
    &&& forall|i: int|
        0 <= i < n.children@.len() ==> {
            &&& is_path(s, (#[trigger] n.children@[i]).path@)
            &&& before_last(n.children@[i].path@, '/') == n.path@
            &&& is_node(n.children@[i], s, sort)
        }
    &&& forall|p: Seq<char>|
        #[trigger] is_path(s, p) && before_last(p, '/') == n.path@ ==> has_child(n, p)
}

/// Whether a node has a child with this path.
pub open spec fn has_child(n: TreeNode, p: Seq<char>) -> bool {
    exists|i: int| 0 <= i < n.children@.len() && (#[trigger] n.children@[i]).path@ == p
}

proof fn lemma_before_transitive(a: TreeNode, b: TreeNode, c: TreeNode, sort: TreeSort)
    requires
        comes_before(a, b, sort),
        comes_before(b, c, sort),
    ensures
        comes_before(a, c, sort),
{
    if lex_lt(a.basename@, b.basename@) && lex_lt(b.basename@, c.basename@) {
        lex_lt_transitive(a.basename@, b.basename@, c.basename@);
    }
    if lex_lt(node_kind(a), node_kind(b)) && lex_lt(node_kind(b), node_kind(c)) {
        lex_lt_transitive(node_kind(a), node_kind(b), node_kind(c));
    }
}

proof fn lemma_before_total(a: TreeNode, b: TreeNode, sort: TreeSort)
    requires
        a.basename@ != b.basename@,
    ensures
        comes_before(a, b, sort) || comes_before(b, a, sort),
{
    lex_lt_total(a.basename@, b.basename@);
    lex_lt_total(node_kind(a), node_kind(b));
}

/// Whether a node is a directory.
pub fn node_is_dir(n: &TreeNode) -> (r: bool)
    ensures
        r == is_dir(*n),
{
    match &n.entry {
        Some(e) => same_text(e.kind.as_str(), "directory"),
        None => true,
    }
}

/// Whether `a` comes before `b` in a directory.
fn node_before(a: &TreeNode, b: &TreeNode, sort: TreeSort) -> (r: bool)
    ensures
        r == comes_before(*a, *b, sort),
{
    let da: bool = node_is_dir(a);
    let db: bool = node_is_dir(b);
    if da != db {
        return da;
    }
    let na = chars_of(a.basename.as_str());
    let nb = chars_of(b.basename.as_str());
    let by_name: bool = text_before(na.as_slice(), nb.as_slice());
    match sort {
        TreeSort::Name => by_name,
        TreeSort::Size => {
            let sa: u32 = match &a.entry {
                Some(e) => e.n_shards,
                None => 0,
            };
            let sb: u32 = match &b.entry {
                Some(e) => e.n_shards,
                None => 0,
            };
            sa > sb || (sa == sb && by_name)
        },
        TreeSort::Kind => {
            let ka = match &a.entry {
                Some(e) => chars_of(e.kind.as_str()),
                None => chars_of("directory"),
            };
            let kb = match &b.entry {
                Some(e) => chars_of(e.kind.as_str()),
                None => chars_of("directory"),
            };
            text_before(ka.as_slice(), kb.as_slice()) || (same_chars(ka.as_slice(), kb.as_slice())
                && by_name)
        },
        TreeSort::Date => {
            let ta: u64 = match &a.entry {
                Some(e) => e.created_at_unix,
                None => 0,
            };
            let tb: u64 = match &b.entry {
                Some(e) => e.created_at_unix,
                None => 0,
            };
            ta > tb || (ta == tb && by_name)
        },
    }
}

/// Puts a node in its place among its siblings.
fn insert_node(v: &mut Vec<TreeNode>, n: TreeNode, sort: TreeSort)
    requires
        in_order(old(v)@, sort),
        forall|i: int| 0 <= i < old(v)@.len() ==> (#[trigger] old(v)@[i]).basename@ != n.basename@,
    ensures
        in_order(final(v)@, sort),
        exists|k: int|
            0 <= k <= old(v)@.len() && final(v)@ == #[trigger] old(v)@.insert(k, n),
{
    let ghost s = v@;
    let mut i: usize = v.len();
    while i > 0 && node_before(&n, &v[i - 1], sort)
        invariant
            v@ == s,
            s == old(v)@,
            in_order(s, sort),
            0 <= i <= s.len(),
            forall|j: int| i <= j < s.len() ==> comes_before(n, #[trigger] s[j], sort),
        decreases i,
    {
        i -= 1;
    }
    proof {
        if i > 0 {
            lemma_before_total(s[i - 1], n, sort);
        }
        let w = s.insert(i as int, n);
        assert forall|a: int, b: int| 0 <= a < b < w.len() implies comes_before(
            #[trigger] w[a],
            #[trigger] w[b],
            sort,
        ) by {
            if b < i {
                assert(comes_before(s[a], s[b], sort));
            } else if b == i {
                if a < i - 1 {
                    assert(comes_before(s[a], s[i - 1], sort));
                    lemma_before_transitive(s[a], s[i - 1], n, sort);
                }
            } else if a == i {
                assert(w[b] == s[b - 1]);
            } else if a < i {
                assert(comes_before(s[a], s[b - 1], sort));
            } else {
                assert(comes_before(s[a - 1], s[b - 1], sort));
            }
        }
    }
    v.insert(i, n);
    assert(v@ =~= s.insert(i as int, n));
}

/// The last entry with this name.
fn entry_named(s: &Vec<CatalogEntry>, name: &[char]) -> (r: Option<CatalogEntry>)
    ensures
        r == last_named(s@, name@),
{
    let mut i: usize = s.len();
    assert(s@.take(i as int) =~= s@);
    while i > 0
        invariant
            0 <= i <= s@.len(),
            last_named(s@, name@) == last_named(s@.take(i as int), name@),
        decreases i,
    {
        i -= 1;
        let ghost t = s@.take(i + 1);
        assert(t.drop_last() =~= s@.take(i as int));
        assert(t.last() == s@[i as int]);
        if is_text(name, s[i].name.as_str()) {
            return Some(s[i].copy());
        }
    }
    None
}

/// Whether `p` is in `v`.
fn among_paths(v: &Vec<Vec<char>>, p: &[char]) -> (r: bool)
    ensures
        r == deep(v@).contains(p@),
{
    let mut i: usize = 0;
    while i < v.len()
        invariant
            0 <= i <= v@.len(),
            forall|j: int| 0 <= j < i ==> #[trigger] deep(v@)[j] != p@,
        decreases v@.len() - i,
    {
        assert(deep(v@)[i as int] == v@[i as int]@);
        if same_chars(v[i].as_slice(), p) {
            return true;
        }
        i += 1;
    }
    false
}

/// Adds a path where it is not there yet.
fn add_path(v: &mut Vec<Vec<char>>, p: &[char])
    requires
        deep(old(v)@).no_duplicates(),
    ensures
        deep(final(v)@).no_duplicates(),
        forall|x: Seq<char>|
            #[trigger] deep(final(v)@).contains(x) <==> deep(old(v)@).contains(x) || x == p@,
{
    if among_paths(v, p) {
        return;
    }
    let ghost before = deep(v@);
    v.push(copy_chars(p));
    proof {
        assert(deep(v@) =~= before.push(p@));
        assert forall|x: Seq<char>|
            #[trigger] deep(v@).contains(x) <==> before.contains(x) || x == p@ by {
            if before.contains(x) {
                let i = choose|i: int| 0 <= i < before.len() && before[i] == x;
                assert(deep(v@)[i] == x);
            }
            assert(deep(v@)[before.len() as int] == p@);
            if deep(v@).contains(x) && x != p@ {
                let i = choose|i: int| 0 <= i < deep(v@).len() && deep(v@)[i] == x;
                assert(before[i] == x);
            }
        }
    }
}

/// Every path of the catalog, once.
fn all_paths(entries: &Vec<CatalogEntry>) -> (r: Vec<Vec<char>>)
    requires
        proper_names(entries@),
    ensures
        deep(r@).no_duplicates(),
        forall|p: Seq<char>| #[trigger] deep(r@).contains(p) <==> is_path(entries@, p),
{
    let mut out: Vec<Vec<char>> = Vec::new();
    let mut i: usize = 0;
    assert(deep(out@) =~= Seq::<Seq<char>>::empty());
    while i < entries.len()
        invariant
            0 <= i <= entries@.len(),
            proper_names(entries@),
            deep(out@).no_duplicates(),
            forall|p: Seq<char>|
                #[trigger] deep(out@).contains(p) <==> is_path(entries@.take(i as int), p),
        decreases entries@.len() - i,
    {
        let name = chars_of(entries[i].name.as_str());
        let ghost n = name@;
        let ghost known = deep(out@);
        let mut k: usize = 0;
        while k < name.len()
            invariant
                0 <= k <= name@.len(),
                n == name@,
                n.len() > 0 && n[0] != '/',
                deep(out@).no_duplicates(),
                forall|p: Seq<char>|
                    #[trigger] deep(out@).contains(p) <==> known.contains(p) || (p.len() < k
                        && is_ancestor(p, n)),
            decreases name@.len() - k,
        {
            let ghost before = deep(out@);
            if name[k] == '/' {
                add_path(&mut out, take_chars(name.as_slice(), k));
            }
            proof {
                assert forall|p: Seq<char>|
                    #[trigger] deep(out@).contains(p) <==> known.contains(p) || (p.len() < k + 1
                        && is_ancestor(p, n)) by {
                    if name@[k as int] == '/' {
                        assert(deep(out@).contains(p) <==> before.contains(p) || p == n.take(k as int));
                        assert(is_ancestor(n.take(k as int), n)) by {
                            assert(n.take(k as int).len() == k);
                        }
                    } else {
                        assert(deep(out@).contains(p) <==> before.contains(p));
                    }
                    assert(before.contains(p) <==> known.contains(p) || (p.len() < k && is_ancestor(
                        p,
                        n,
                    )));
                    if p.len() == k && is_ancestor(p, n) {
                        assert(n[k as int] == '/');
                        assert(p == n.take(k as int));
                    }
                }
            }
            k += 1;
        }
        let ghost before = deep(out@);
        add_path(&mut out, name.as_slice());
        proof {
            let t = entries@.take(i as int);
            let u = entries@.take(i + 1);
            assert forall|p: Seq<char>| #[trigger] deep(out@).contains(p) <==> is_path(u, p) by {
                assert(deep(out@).contains(p) <==> before.contains(p) || p == n);
                assert(before.contains(p) <==> known.contains(p) || (p.len() < n.len() && is_ancestor(
                    p,
                    n,
                )));
                assert(known.contains(p) <==> is_path(t, p));
                if is_path(t, p) {
                    let j = choose|j: int|
                        0 <= j < t.len() && (p == (#[trigger] t[j]).name@ || is_ancestor(p, t[j].name@));
                    assert(u[j] == t[j]);
                }
                assert(u[i as int].name@ == n);
                if is_path(u, p) {
                    let j = choose|j: int|
                        0 <= j < u.len() && (p == (#[trigger] u[j]).name@ || is_ancestor(p, u[j].name@));
                    if j < i {
                        assert(t[j] == u[j]);
                    }
                }
            }
        }
        i += 1;
    }
    assert(entries@.take(i as int) =~= entries@);
    out
}

/// A path is its parent, a slash and its last segment; without a slash it is its last
/// segment.
proof fn lemma_parent(p: Seq<char>)
    ensures
        rfind(p, '/') >= 0 ==> p == before_last(p, '/') + seq!['/'] + after_last(p, '/'),
        rfind(p, '/') < 0 ==> p == after_last(p, '/') && before_last(p, '/').len() == 0,
        before_last(p, '/').len() <= p.len(),
        p.len() > 0 ==> before_last(p, '/').len() < p.len(),
{
    lemma_rfind(p, '/');
    let k = rfind(p, '/');
    if k >= 0 {
        assert(p =~= before_last(p, '/') + seq!['/'] + after_last(p, '/'));
    } else {
        assert(p.skip(0) =~= p);
    }
}

/// Two paths with the same parent and the same last segment are the same, where neither
/// begins with a slash.
proof fn lemma_siblings_differ(a: Seq<char>, b: Seq<char>)
    requires
        before_last(a, '/') == before_last(b, '/'),
        after_last(a, '/') == after_last(b, '/'),
        a.len() > 0 && a[0] != '/',
        b.len() > 0 && b[0] != '/',
    ensures
        a == b,
{
    lemma_parent(a);
    lemma_parent(b);
    lemma_rfind(a, '/');
    lemma_rfind(b, '/');
}

/// A path of proper names is not empty and does not begin with a slash.
proof fn lemma_proper_path(s: Seq<CatalogEntry>, p: Seq<char>)
    requires
        proper_names(s),
        is_path(s, p),
    ensures
        p.len() > 0 && p[0] != '/',
{
    let i = choose|i: int|
        0 <= i < s.len() && (p == (#[trigger] s[i]).name@ || is_ancestor(p, s[i].name@));
    let n = s[i].name@;
    if p != n {
        assert(n.take(p.len() as int)[0] == n[0]);
    }
}

/// How long the longest of some paths is.
spec fn longest(v: Seq<Seq<char>>) -> nat
    decreases v.len(),
{
    if v.len() == 0 {
        0
    } else {
        let m = longest(v.drop_last());
        if v.last().len() > m {
            v.last().len()
        } else {
            m
        }
    }
}

proof fn lemma_longest(v: Seq<Seq<char>>, i: int)
    requires
        0 <= i < v.len(),
    ensures
        v[i].len() <= longest(v),
    decreases v.len(),
{
    if i < v.len() - 1 {
        lemma_longest(v.drop_last(), i);
    }
}

/// The tree of the entries at a path.
#[verifier::spinoff_prover]
#[verifier::rlimit(60)]
fn build(
    path: &[char],
    paths: &Vec<Vec<char>>,
    entries: &Vec<CatalogEntry>,
    sort: TreeSort,
) -> (r: TreeNode)
    requires
        proper_names(entries@),
        deep(paths@).no_duplicates(),
        forall|p: Seq<char>| #[trigger] deep(paths@).contains(p) <==> is_path(entries@, p),
        path@.len() <= longest(deep(paths@)),
    ensures
        r.path@ == path@,
        is_node(r, entries@, sort),
    decreases longest(deep(paths@)) - path@.len(),
{
    let ghost all = deep(paths@);
    let entry = entry_named(entries, path);
    let mut children: Vec<TreeNode> = Vec::new();
    let mut i: usize = 0;
    while i < paths.len()
        invariant
            0 <= i <= paths@.len(),
            all == deep(paths@),
            proper_names(entries@),
            all.no_duplicates(),
            forall|p: Seq<char>| #[trigger] all.contains(p) <==> is_path(entries@, p),
            path@.len() <= longest(all),
            in_order(children@, sort),
            forall|j: int|
                0 <= j < children@.len() ==> {
                    &&& is_path(entries@, (#[trigger] children@[j]).path@)
                    &&& before_last(children@[j].path@, '/') == path@
                    &&& is_node(children@[j], entries@, sort)
                    &&& exists|m: int| 0 <= m < i && #[trigger] all[m] == children@[j].path@
                },
            forall|m: int|
                0 <= m < i && before_last(#[trigger] all[m], '/') == path@ ==> exists|j: int|
                    0 <= j < children@.len() && (#[trigger] children@[j]).path@ == all[m],
        decreases paths@.len() - i,
    {
        let p = paths[i].as_slice();
        let ghost pv = all[i as int];
        assert(pv == p@);
        proof {
            assert(all.contains(pv));
            lemma_proper_path(entries@, pv);
            lemma_parent(pv);
            lemma_longest(all, i as int);
        }
        if same_chars(ahead_of_last(p, '/'), path) {
            let node = build(p, paths, entries, sort);
            let ghost before = children@;
            proof {
                assert forall|j: int| 0 <= j < before.len() implies (#[trigger] before[j]).basename@
                    != node.basename@ by {
                    assert(is_node(before[j], entries@, sort));
                    let q = before[j].path@;
                    lemma_proper_path(entries@, q);
                    if before[j].basename@ == node.basename@ {
                        lemma_siblings_differ(q, pv);
                        let m = choose|m: int| 0 <= m < i && #[trigger] all[m] == q;
                        assert(all[m] == all[i as int]);
                    }
                }
            }
            insert_node(&mut children, node, sort);
            proof {
                let k = choose|k: int|
                    0 <= k <= before.len() && children@ == #[trigger] before.insert(k, node);
                assert forall|j: int| 0 <= j < children@.len() implies {
                    &&& is_path(entries@, (#[trigger] children@[j]).path@)
                    &&& before_last(children@[j].path@, '/') == path@
                    &&& is_node(children@[j], entries@, sort)
                    &&& exists|m: int| 0 <= m < i + 1 && #[trigger] all[m] == children@[j].path@
                } by {
                    if j == k {
                        assert(all[i as int] == children@[j].path@);
                    } else {
                        let o = if j < k {
                            j
                        } else {
                            j - 1
                        };
                        assert(children@[j] == before[o]);
                        let m = choose|m: int| 0 <= m < i && #[trigger] all[m] == before[o].path@;
                        assert(all[m] == children@[j].path@);
                    }
                }
                assert forall|m: int| 0 <= m < i + 1 && before_last(#[trigger] all[m], '/') == path@ implies exists|
                    j: int,
                |
                    0 <= j < children@.len() && (#[trigger] children@[j]).path@ == all[m] by {
                    if m == i {
                        assert(children@[k].path@ == all[m]);
                    } else {
                        let o = choose|o: int| 0 <= o < before.len() && (#[trigger] before[o]).path@ == all[m];
                        if o < k {
                            assert(children@[o].path@ == all[m]);
                        } else {
                            assert(children@[o + 1].path@ == all[m]);
                        }
                    }
                }
            }
        } else {
            proof {
                assert forall|j: int| 0 <= j < children@.len() implies {
                    &&& is_path(entries@, (#[trigger] children@[j]).path@)
                    &&& before_last(children@[j].path@, '/') == path@
                    &&& is_node(children@[j], entries@, sort)
                    &&& exists|m: int| 0 <= m < i + 1 && #[trigger] all[m] == children@[j].path@
                } by {
                    let m = choose|m: int| 0 <= m < i && #[trigger] all[m] == children@[j].path@;
                    assert(all[m] == children@[j].path@);
                }
            }
        }
        i += 1;
    }
    let r = TreeNode {
        path: string_of(path),
        basename: string_of(behind_last(path, '/')),
        entry,
        children,
    };
    proof {
        assert forall|p: Seq<char>|
            #[trigger] is_path(entries@, p) && before_last(p, '/') == r.path@ implies has_child(r, p) by {
            assert(all.contains(p));
            let m = choose|m: int| 0 <= m < all.len() && all[m] == p;
            let j = choose|j: int| 0 <= j < children@.len() && (#[trigger] children@[j]).path@ == all[m];
            assert(r.children@[j].path@ == p);
        }
    }
    r
}

/// The tree of the entries. Directories that the catalog does not list are put in; of
/// entries with the same name the last counts.
pub fn build_tree(entries: &Vec<CatalogEntry>, sort: TreeSort) -> (r: TreeNode)
    requires
        proper_names(entries@),
    ensures
        r.path@ == Seq::<char>::empty(),
        is_node(r, entries@, sort),
{
    let paths = all_paths(entries);
    let root: Vec<char> = Vec::new();
    build(root.as_slice(), &paths, entries, sort)
}

/// Whether `way` leads from child to child below a node.
pub open spec fn leads_down(n: TreeNode, way: Seq<int>) -> bool
    decreases way.len(),
{
    way.len() > 0 ==> 0 <= way[0] < n.children@.len() && leads_down(
        n.children@[way[0]],
        way.drop_first(),
    )
}

/// Where `way` leads.
pub open spec fn node_at(n: TreeNode, way: Seq<int>) -> TreeNode
    decreases way.len(),
{
    if way.len() == 0 {
        n
    } else {
        node_at(n.children@[way[0]], way.drop_first())
    }
}

proof fn lemma_one_step_more(n: TreeNode, way: Seq<int>, i: int, s: Seq<CatalogEntry>, sort: TreeSort)
    requires
        is_node(n, s, sort),
        leads_down(n, way),
        0 <= i < node_at(n, way).children@.len(),
    ensures
        is_node(node_at(n, way), s, sort),
        leads_down(n, way.push(i)),
        node_at(n, way.push(i)) == node_at(n, way).children@[i],
    decreases way.len(),
{
    let w = way.push(i);
    if way.len() == 0 {
        assert(w.drop_first() =~= Seq::<int>::empty());
        assert(leads_down(n.children@[i], w.drop_first()));
        assert(node_at(n.children@[i], w.drop_first()) == n.children@[i]);
    } else {
        assert(w.drop_first() =~= way.drop_first().push(i));
        assert(is_node(n.children@[way[0]], s, sort));
        lemma_one_step_more(n.children@[way[0]], way.drop_first(), i, s, sort);
    }
}

proof fn lemma_node_below(n: TreeNode, way: Seq<int>, s: Seq<CatalogEntry>, sort: TreeSort)
    requires
        is_node(n, s, sort),
        leads_down(n, way),
    ensures
        is_node(node_at(n, way), s, sort),
    decreases way.len(),
{
    if way.len() > 0 {
        assert(is_node(n.children@[way[0]], s, sort));
        lemma_node_below(n.children@[way[0]], way.drop_first(), s, sort);
    }
}

/// Every entry, and every directory in which one lies, can be reached from the root; and
/// what is there is the last entry with that name.
pub proof fn every_path_is_in_the_tree(
    root: TreeNode,
    s: Seq<CatalogEntry>,
    sort: TreeSort,
    p: Seq<char>,
) -> (way: Seq<int>)
    requires
        proper_names(s),
        root.path@.len() == 0,
        is_node(root, s, sort),
        is_path(s, p),
    ensures
        leads_down(root, way),
        node_at(root, way).path@ == p,
        node_at(root, way).entry == last_named(s, p),
    decreases p.len(),
{
    let q = before_last(p, '/');
    lemma_proper_path(s, p);
    lemma_parent(p);
    lemma_rfind(p, '/');
    let up: Seq<int> = if q.len() == 0 {
        assert(q =~= root.path@);
        Seq::empty()
    } else {
        let i = choose|i: int|
            0 <= i < s.len() && (p == (#[trigger] s[i]).name@ || is_ancestor(p, s[i].name@));
        let n = s[i].name@;
        assert(is_ancestor(q, n)) by {
            let k = rfind(p, '/');
            assert(q.len() == k);
            if p != n {
                assert(n.take(p.len() as int) == p);
                assert(n[k] == p[k]);
                assert(n.take(k) =~= p.take(k));
            }
        }
        every_path_is_in_the_tree(root, s, sort, q)
    };
    let d = node_at(root, up);
    lemma_node_below(root, up, s, sort);
    assert(has_child(d, p));
    let j = choose|j: int| 0 <= j < d.children@.len() && (#[trigger] d.children@[j]).path@ == p;
    lemma_one_step_more(root, up, j, s, sort);
    assert(is_node(d.children@[j], s, sort));
    up.push(j)
}

} // verus!
