//! What holds of every page: links lead to what they are about, names and numbers are shown as they
//! are, and what belongs first stands first.
use vstd::prelude::*;
use vstd::utf8::{encode_utf8, is_char_boundary};

use crate::catalog::{is_ancestor, last_named};
use crate::catalog_view::{
    card_dims, card_refs, first_given, icon_of, is_name_within, is_thumb, leaf_refs, opens_by_itself,
    page_ref, pairs, path_of, preview_key, primary_key, quoted_for_script, refs, trail_of, view_target,
    Link, Ref, Thumb,
};
use crate::filter::CatalogEntry;
use crate::form::joined_path;
use crate::health_view::{layers_to, loss_heading, signed};
use crate::text::{before_last, dec, ends, lex_lt, lex_lt_irreflexive, lex_lt_total, number, split, starts};
use crate::text_laws::{beginnings_and_ends, number_of_dec};
use crate::tree::{
    comes_before, has_child, in_order, is_dir, is_node, is_path, node_date, node_kind, node_size,
    proper_names, TreeNode, TreeSort,
};

verus! {

/// Whether one of the links leads to a page.
pub open spec fn leads_to(v: Seq<Ref>, href: Seq<char>) -> bool {
    exists|i: int| 0 <= i < v.len() && (#[trigger] v[i]).href == href
}

/// A link keeps where it leads and what it is called.
pub proof fn links_are_shown_as_they_are(v: Seq<Link>, l: Link, page: Seq<char>, enc: Seq<char>, label: Seq<
    char,
>)
    ensures
        refs(v).len() == v.len(),
        refs(v.push(l)) == refs(v).push(Ref { href: l.href@, label: l.label@ }),
        starts(page_ref(page, enc, label).href, page),
        ends(page_ref(page, enc, label).href, enc),
        page_ref(page, enc, label).href.len() == page.len() + enc.len(),
        page_ref(page, enc, label).label == label,
{
    assert(refs(v.push(l)) =~= refs(v).push(l@));
    beginnings_and_ends(page, enc, enc);
}

/// Every object in a tree has links to its shards, what is like it and its health; a picture and a
/// sound have a preview, a picture also what is made of pictures, and in the tree that loads level
/// by level each has its versions. The others have none of these.
pub proof fn objects_have_the_links_of_their_kind(kind: Seq<char>, enc: Seq<char>, lazy: bool)
    ensures
        ({
            let v = leaf_refs(kind, enc, lazy);
            let image = kind == "image"@;
            let preview = image || kind == "audio"@;
            &&& leads_to(v, "/inspect/"@ + enc)
            &&& leads_to(v, "/similar/"@ + enc)
            &&& leads_to(v, "/health/"@ + enc)
            &&& preview ==> v[0].href == "/preview/"@ + enc && v[0].label == "preview"@
            &&& image ==> leads_to(v, "/mix?a="@ + enc)
            &&& image && lazy ==> leads_to(v, "/holo/"@ + enc) && leads_to(v, "/spotlight?a="@ + enc)
            &&& lazy ==> v.last().href == "/versions/"@ + enc && v.last().label == "versions.link_label"@
            &&& v.len() == 3 + (if preview {
                1int
            } else {
                0
            }) + (if image {
                if lazy {
                    3int
                } else {
                    1
                }
            } else {
                0
            }) + (if lazy {
                1int
            } else {
                0
            })
        }),
{
    let v = leaf_refs(kind, enc, lazy);
    let image = kind == "image"@;
    let n: int = if image || kind == "audio"@ {
        1
    } else {
        0
    };
    assert(v[n].href == "/inspect/"@ + enc);
    assert(v[n + 1].href == "/similar/"@ + enc);
    assert(v[n + 2].href == "/health/"@ + enc);
    if image {
        assert(v[n + 3].href == "/mix?a="@ + enc);
        if lazy {
            assert(v[n + 4].href == "/holo/"@ + enc);
            assert(v[n + 5].href == "/spotlight?a="@ + enc);
        }
    }
}

/// A card leads to the object first and to its versions last, and between them to all that the
/// object has in a tree.
pub proof fn cards_have_the_links_of_objects(kind: Seq<char>, enc: Seq<char>, i: int)
    ensures
        ({
            let c = card_refs(kind, enc);
            let v = leaf_refs(kind, enc, true);
            &&& c.len() == v.len() + 1
            &&& c[0].href == "/"@ + enc
            &&& c[0].label == primary_key(kind)
            &&& 0 <= i < v.len() ==> c[i + 1].href == v[i].href
            &&& c.last() == v.last()
        }),
{
    let c = card_refs(kind, enc);
    let v = leaf_refs(kind, enc, true);
    assert(c.last() == v.last());
}

/// The pages of an object stand in the same order everywhere, each under its own words; a card has its
/// own words for the shards and for what it opens first.
pub proof fn pages_of_an_object_have_their_words(kind: Seq<char>, enc: Seq<char>, lazy: bool)
    ensures
        ({
            let v = leaf_refs(kind, enc, lazy);
            let c = card_refs(kind, enc);
            let image = kind == "image"@;
            let n: int = if image || kind == "audio"@ {
                1
            } else {
                0
            };
            &&& v[n] == page_ref("/inspect/"@, enc, "shards"@)
            &&& v[n + 1] == page_ref("/similar/"@, enc, "card.action.similar"@)
            &&& v[n + 2] == page_ref("/health/"@, enc, "card.action.health"@)
            &&& image ==> v[n + 3] == page_ref("/mix?a="@, enc, "mix.link_label"@)
            &&& image && lazy ==> v[n + 4] == page_ref("/holo/"@, enc, "holo.link_label"@)
            &&& image && lazy ==> v[n + 5] == page_ref("/spotlight?a="@, enc, "spotlight.link_label"@)
            &&& n == 1 ==> c[1] == page_ref("/preview/"@, enc, preview_key(kind))
            &&& c[n + 1] == page_ref("/inspect/"@, enc, "card.action.shards_link"@)
            &&& c[n + 2] == v[n + 1]
            &&& c[n + 3] == v[n + 2]
            &&& image && lazy ==> c[n + 4] == v[n + 3] && c[n + 5] == v[n + 4] && c[n + 6] == v[n + 5]
        }),
{
}

/// Each kind of object has its own signs and words.
pub proof fn kinds_have_their_signs(kind: Seq<char>, enc: Seq<char>, t: Thumb)
    requires
        is_thumb(kind, enc, t),
    ensures
        kind == "image"@ ==> icon_of(kind) == "🖼"@ && primary_key(kind) == "card.action.full"@ && t is Picture
            && t->Picture_0@ == "/preview/"@ + enc,
        kind == "audio"@ ==> icon_of(kind) == "🎵"@ && primary_key(kind) == "card.action.play"@ && preview_key(
            kind,
        ) == "card.action.bass"@ && t is Icon && t->Icon_0@ == "♪"@,
        kind == "text"@ ==> icon_of(kind) == "📝"@ && primary_key(kind) == "card.action.open"@ && t is Icon
            && t->Icon_0@ == "¶"@,
        kind == "directory"@ ==> t is Icon && t->Icon_0@ == "📁"@,
        kind == "opaque"@ ==> icon_of(kind) == "📦"@ && primary_key(kind) == "card.action.download"@ && t is Icon
            && t->Icon_0@ == "📦"@,
        kind != "audio"@ ==> preview_key(kind) == "card.action.preview"@,
        kind != "image"@ ==> t is Icon,
        kind != "image"@ && kind != "audio"@ && kind != "text"@ ==> icon_of(kind) == "📦"@ && primary_key(kind)
            == "card.action.download"@ && (kind != "directory"@ ==> t->Icon_0@ == "📦"@),
{
    reveal_strlit("image");
    reveal_strlit("audio");
    reveal_strlit("text");
    reveal_strlit("directory");
    reveal_strlit("opaque");
    assert("image"@[0] == 'i' && "audio"@[0] == 'a' && "text"@[0] == 't' && "directory"@[0] == 'd'
        && "opaque"@[0] == 'o');
}

/// A card shows how large a picture is and how a sound was taken; of anything else, its type.
pub proof fn cards_show_measurements(e: CatalogEntry)
    ensures
        e.kind@ == "image"@ ==> starts(card_dims(e), dec(e.width as nat)) && ends(card_dims(e), dec(
            e.height as nat,
        )) && card_dims(e).len() == dec(e.width as nat).len() + 1 + dec(e.height as nat).len(),
        e.kind@ == "audio"@ ==> starts(card_dims(e), dec(e.audio_sample_rate as nat) + " Hz · "@) && ends(
            card_dims(e),
            dec(e.channels as nat) + " ch"@,
        ),
        e.kind@ != "image"@ && e.kind@ != "audio"@ ==> card_dims(e) == e.content_type@,
{
    reveal_strlit("×");
    reveal_strlit("image");
    reveal_strlit("audio");
    assert("image"@[0] != "audio"@[0]);
    let w = dec(e.width as nat);
    let h = dec(e.height as nat);
    assert(w + "×"@ + h =~= w + ("×"@ + h));
    beginnings_and_ends(w, "×"@ + h, h);
    beginnings_and_ends(w + "×"@, h, h);
    let a = dec(e.audio_sample_rate as nat) + " Hz · "@;
    let b = dec(e.channels as nat) + " ch"@;
    assert(dec(e.audio_sample_rate as nat) + " Hz · "@ + dec(e.channels as nat) + " ch"@ =~= a + b);
    beginnings_and_ends(a, b, b);
}

/// One comes back to the directory that was shown; from the root to the root.
pub proof fn views_lead_to_their_directories(prefix: Seq<char>, enc: Seq<char>)
    ensures
        prefix.len() == 0 ==> view_target(prefix, enc) == "/"@,
        prefix.len() > 0 ==> starts(view_target(prefix, enc), "/?p="@) && ends(view_target(prefix, enc), enc)
            && view_target(prefix, enc).len() == 4 + enc.len(),
{
    reveal_strlit("/?p=");
    beginnings_and_ends("/?p="@, enc, enc);
}

/// In a question that a script asks, every apostrophe, and nothing else, gets a backslash before it,
/// so that none ends the question.
pub proof fn apostrophes_do_not_end_a_question(s: Seq<char>, c: char, i: int)
    ensures
        quoted_for_script(Seq::empty()).len() == 0,
        quoted_for_script(s.push(c)) == if c == '\'' {
            quoted_for_script(s).push('\\').push('\'')
        } else {
            quoted_for_script(s).push(c)
        },
        0 <= i < quoted_for_script(s).len() && quoted_for_script(s)[i] == '\'' ==> i > 0
            && quoted_for_script(s)[i - 1] == '\\',
    decreases s.len(),
{
    let t = s.push(c);
    assert(t.drop_last() =~= s);
    assert(t.last() == c);
    assert(quoted_for_script(t) =~= if c == '\'' {
        quoted_for_script(s).push('\\').push('\'')
    } else {
        quoted_for_script(s).push(c)
    });
    if s.len() > 0 {
        let u = s.drop_last();
        apostrophes_do_not_end_a_question(u, s.last(), i);
        assert(u.push(s.last()) =~= s);
    }
}

/// A directory is open where it is the one that was asked for or lies above it, and no other is.
pub proof fn only_the_way_to_the_target_is_open(path: Seq<char>, target: Seq<char>)
    requires
        path.len() > 0,
    ensures
        opens_by_itself(path, target) <==> target == path || is_ancestor(path, target),
{
    reveal_strlit("/");
    if target == path || is_ancestor(path, target) {
        crate::catalog_view::way_to_target_is_open(path, target);
    }
    if opens_by_itself(path, target) && target != path {
        let p = path + "/"@;
        assert(target.take(p.len() as int) == p);
        assert(target[path.len() as int] == target.take(p.len() as int)[path.len() as int]);
        assert(target.take(path.len() as int) =~= path) by {
            assert forall|i: int| 0 <= i < path.len() implies target[i] == path[i] by {
                assert(target.take(p.len() as int)[i] == p[i]);
            }
        }
    }
}

/// Of two parameters the first counts, where it is given.
pub proof fn first_parameter_counts(a: &str, b: &str)
    ensures
        first_given(Some(a), Some(b)) == a@,
        first_given(Some(a), None) == a@,
        first_given(None, Some(b)) == b@,
        first_given(None, None).len() == 0,
{
}

/// What lies in a directory is shown there under its own name.
pub proof fn names_are_shown_without_their_directory(parent: Seq<char>, name: Seq<char>, r: Seq<char>)
    requires
        is_name_within(joined_path(parent, name), parent, r),
    ensures
        r == name,
{
    if parent.len() > 0 {
        reveal_strlit("/");
        let head = parent + "/"@;
        let whole = joined_path(parent, name);
        assert(whole =~= head + name);
        lemma_utf8_cut(head, name);
        lemma_utf8_cut(parent, "/"@);
        vstd::utf8::is_ascii_chars_encode_utf8("/"@);
        let b = encode_utf8(whole);
        let cut = encode_utf8(parent).len() + 1;
        assert(encode_utf8("/"@).len() == 1);
        assert(encode_utf8(head).len() == cut);
        assert(b.subrange(cut as int, b.len() as int) =~= encode_utf8(name));
        vstd::utf8::encode_utf8_decode_utf8(r);
        vstd::utf8::encode_utf8_decode_utf8(name);
    }
}

/// Two texts in UTF-8, one behind the other.
proof fn lemma_utf8_cut(a: Seq<char>, b: Seq<char>)
    ensures
        encode_utf8(a + b) == encode_utf8(a) + encode_utf8(b),
        is_char_boundary(encode_utf8(a + b), encode_utf8(a).len() as int),
    decreases a.len(),
{
    let s = a + b;
    vstd::utf8::encode_utf8_valid_utf8(s);
    if a.len() == 0 {
        assert(s =~= b);
        assert(encode_utf8(a) + encode_utf8(b) =~= encode_utf8(b));
        vstd::utf8::is_char_boundary_start_end_of_seq(encode_utf8(s));
    } else {
        let t = a.drop_first();
        lemma_utf8_cut(t, b);
        assert(s.drop_first() =~= t + b);
        assert(s[0] == a[0]);
        let first = vstd::utf8::encode_scalar(a[0] as u32);
        assert(encode_utf8(s) =~= first + (encode_utf8(t) + encode_utf8(b)));
        assert(encode_utf8(a) + encode_utf8(b) =~= first + (encode_utf8(t) + encode_utf8(b)));
        vstd::utf8::encode_utf8_first_scalar(s);
        vstd::utf8::encode_utf8_first_scalar(a);
        assert(vstd::utf8::pop_first_scalar(encode_utf8(s)) =~= encode_utf8(t + b));
        assert(encode_utf8(a).len() - first.len() == encode_utf8(t).len());
    }
}

/// The breadcrumb has one step for each segment, with that segment's name, and each leads to the
/// directory that the steps up to it make; the last leads to the path itself.
pub proof fn breadcrumb_leads_to_the_path(segs: Seq<Seq<char>>, i: int)
    requires
        0 <= i < segs.len(),
    ensures
        trail_of(segs).len() == segs.len(),
        trail_of(segs)[i].0 == segs[i],
        trail_of(segs)[i].1 == path_of(segs.take(i + 1)),
    decreases segs.len(),
{
    let t = segs.drop_last();
    if t.len() > 0 {
        breadcrumb_leads_to_the_path(t, if i < t.len() {
            i
        } else {
            0
        });
    } else {
        assert(trail_of(t).len() == 0);
    }
    if i < t.len() {
        assert(t.take(i + 1) =~= segs.take(i + 1));
        assert(trail_of(segs)[i] == trail_of(t)[i]);
    } else {
        assert(segs.take(i + 1) =~= segs);
    }
}

/// The breadcrumb of a path ends with the path, and begins with its first segment alone.
pub proof fn breadcrumb_of_a_path(path: Seq<char>)
    requires
        path.len() > 0,
        path[0] != '/',
    ensures
        trail_of(split(path, '/')).len() == split(path, '/').len(),
        trail_of(split(path, '/')).last().1 == path,
        trail_of(split(path, '/'))[0] == (split(path, '/')[0], split(path, '/')[0]),
{
    let segs = split(path, '/');
    crate::text_laws::pieces_make_up_the_text(path, '/');
    crate::form_laws::segments_lead_back_to_the_path(path);
    let n = segs.len() as int;
    breadcrumb_leads_to_the_path(segs, n - 1);
    assert(segs.take(n) =~= segs);
    breadcrumb_leads_to_the_path(segs, 0);
    let one = segs.take(1);
    assert(one.drop_last() =~= Seq::<Seq<char>>::empty());
    assert(path_of(one.drop_last()) =~= Seq::<char>::empty());
    assert(one.last() == segs[0]);
}

/// Pairs are shown as they are.
pub proof fn pairs_are_shown_as_they_are(v: Seq<(String, String)>, i: int)
    ensures
        pairs(v).len() == v.len(),
        0 <= i < v.len() ==> pairs(v)[i].0 == v[i].0@ && pairs(v)[i].1 == v[i].1@,
{
}

/// What the catalog says of a node is what counts; a node that it does not list is a directory of no
/// size and no date.
pub proof fn nodes_are_what_the_catalog_says(n: TreeNode)
    ensures
        n.entry is None ==> is_dir(n) && node_size(n) == 0 && node_date(n) == 0 && node_kind(n)
            == "directory"@,
        n.entry matches Some(e) ==> node_size(n) == e.n_shards && node_date(n) == e.created_at_unix
            && node_kind(n) == e.kind@ && (is_dir(n) <==> e.kind@ == "directory"@),
{
}

/// Directories stand before objects, whatever the order; among like nodes larger and younger ones
/// stand first where that is asked for, and names decide among equals and where nothing else is
/// asked for.
pub proof fn what_belongs_first_stands_first(a: TreeNode, b: TreeNode, sort: TreeSort)
    ensures
        is_dir(a) && !is_dir(b) ==> comes_before(a, b, sort) && !comes_before(b, a, sort),
        is_dir(a) == is_dir(b) && sort == TreeSort::Name ==> comes_before(a, b, sort) == lex_lt(
            a.basename@,
            b.basename@,
        ),
        is_dir(a) == is_dir(b) && sort == TreeSort::Size && node_size(a) > node_size(b) ==> comes_before(
            a,
            b,
            sort,
        ) && !comes_before(b, a, sort),
        is_dir(a) == is_dir(b) && sort == TreeSort::Date && node_date(a) > node_date(b) ==> comes_before(
            a,
            b,
            sort,
        ) && !comes_before(b, a, sort),
        is_dir(a) == is_dir(b) && sort == TreeSort::Kind && lex_lt(node_kind(a), node_kind(b))
            ==> comes_before(a, b, sort) && !comes_before(b, a, sort),
        is_dir(a) == is_dir(b) && node_size(a) == node_size(b) && node_date(a) == node_date(b) && node_kind(a)
            == node_kind(b) ==> comes_before(a, b, sort) == lex_lt(a.basename@, b.basename@),
        !comes_before(a, a, sort),
{
    lex_lt_irreflexive(node_kind(a));
    lex_lt_irreflexive(a.basename@);
    if lex_lt(node_kind(a), node_kind(b)) {
        if lex_lt(node_kind(b), node_kind(a)) {
            crate::text::lex_lt_transitive(node_kind(a), node_kind(b), node_kind(a));
        }
    }
}

/// Of two nodes with different names one comes before the other.
pub proof fn nodes_can_be_put_in_order(a: TreeNode, b: TreeNode, sort: TreeSort)
    requires
        a.basename@ != b.basename@,
    ensures
        comes_before(a, b, sort) || comes_before(b, a, sort),
{
    lex_lt_total(a.basename@, b.basename@);
    lex_lt_total(node_kind(a), node_kind(b));
}

/// A node of a tree shows what the catalog last said of its path; its children lie right in it, each
/// once, in order, and everything that lies right in it is among them.
pub proof fn trees_show_the_catalog(n: TreeNode, s: Seq<CatalogEntry>, sort: TreeSort, i: int, j: int, p: Seq<
    char,
>)
    requires
        is_node(n, s, sort),
    ensures
        n.entry == last_named(s, n.path@),
        0 <= i < n.children@.len() ==> before_last(n.children@[i].path@, '/') == n.path@
            && n.children@[i].entry == last_named(s, n.children@[i].path@) && is_path(s, n.children@[i].path@),
        0 <= i < j < n.children@.len() ==> comes_before(n.children@[i], n.children@[j], sort),
        is_path(s, p) && before_last(p, '/') == n.path@ ==> exists|k: int|
            0 <= k < n.children@.len() && (#[trigger] n.children@[k]).path@ == p,
{
    reveal_with_fuel(is_node, 2);
    if 0 <= i < n.children@.len() {
        assert(is_node(n.children@[i], s, sort));
    }
    if is_path(s, p) && before_last(p, '/') == n.path@ {
        assert(has_child(n, p));
    }
}

/// The paths of a catalog are those of its entries and of the directories above them, and no other;
/// names that can be put into a tree are not empty and begin with no slash.
pub proof fn paths_are_names_and_directories(s: Seq<CatalogEntry>, i: int, p: Seq<char>)
    requires
        0 <= i < s.len(),
    ensures
        is_path(s, s[i].name@),
        is_ancestor(p, s[i].name@) ==> is_path(s, p),
        is_path(s, p) ==> exists|k: int|
            0 <= k < s.len() && ((#[trigger] s[k]).name@ == p || is_ancestor(p, s[k].name@)),
        proper_names(s) ==> s[i].name@.len() > 0 && s[i].name@[0] != '/',
{
}

/// Nodes in order stand by pairs in that order.
pub proof fn order_holds_for_every_pair(v: Seq<TreeNode>, sort: TreeSort)
    ensures
        in_order(v, sort) <==> forall|i: int, j: int|
            0 <= i < j < v.len() ==> #[trigger] comes_before(v[i], v[j], sort),
{
    if forall|i: int, j: int| 0 <= i < j < v.len() ==> #[trigger] comes_before(v[i], v[j], sort) {
        assert forall|i: int, j: int| 0 <= i < j < v.len() implies comes_before(
            #[trigger] v[i],
            #[trigger] v[j],
            sort,
        ) by {}
    }
}

/// The layers that can be read are told from the first to the last, and that these are all, where
/// they are.
pub proof fn layers_are_told_by_their_numbers(l: nat, nlayers: u8)
    requires
        l <= u64::MAX,
    ensures
        starts(layers_to(l), "L0-L"@),
        number(layers_to(l).skip(4), u64::MAX as nat) == Some(l),
        l + 1 == nlayers ==> loss_heading(l as int, nlayers) == layers_to(l) + " (full)"@,
        l + 1 != nlayers ==> loss_heading(l as int, nlayers) == layers_to(l),
{
    reveal_strlit("L0-L");
    beginnings_and_ends("L0-L"@, dec(l), dec(l));
    assert(layers_to(l).skip(4) =~= dec(l));
    number_of_dec(l, u64::MAX as nat);
}

/// A number with its sign is the sign and how far the number is from nothing.
pub proof fn signs_stand_before_numbers(n: int)
    requires
        -0x8000_0000 <= n <= 0x7fff_ffff,
    ensures
        signed(n).len() > 1,
        n >= 0 ==> signed(n)[0] == '+' && number(signed(n).skip(1), u64::MAX as nat) == Some(n as nat),
        n < 0 ==> signed(n)[0] == '-' && number(signed(n).skip(1), u64::MAX as nat) == Some((-n) as nat),
{
    reveal_strlit("+");
    reveal_strlit("-");
    let m: nat = if n < 0 {
        (-n) as nat
    } else {
        n as nat
    };
    number_of_dec(m, u64::MAX as nat);
    assert(signed(n).skip(1) =~= dec(m));
}

} // verus!
