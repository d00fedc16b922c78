//! What the catalog pages show: rows, cards, links and the breadcrumb, as plain values.
//!
//! Where a link needs a path as it stands in a URL, the caller hands it in.
use vstd::prelude::*;
use vstd::string::StringExecFns;
use vstd::utf8::{encode_utf8, is_char_boundary};

use crate::calendar::{format_unix_utc, shows_time};
use crate::filter::CatalogEntry;
use crate::text::{
    after_last, behind_last, chars_of, dec, dec_string, deep, same_text, split, split_on, starts,
    string_of, strip_prefix, texts,
};
use crate::tree::{TreeNode, TreeSort};

verus! {

/// The icon for a kind of object.
pub open spec fn icon_of(kind: Seq<char>) -> Seq<char> {
    if kind == "image"@ {
        "🖼"@
    } else if kind == "audio"@ {
        "🎵"@
    } else if kind == "text"@ {
        "📝"@
    } else {
        "📦"@
    }
}

/// The icon for a kind of object.
pub fn kind_icon(kind: &str) -> (r: &'static str)
    ensures
        r@ == icon_of(kind@),
{
    if same_text(kind, "image") {
        "🖼"
    } else if same_text(kind, "audio") {
        "🎵"
    } else if same_text(kind, "text") {
        "📝"
    } else {
        "📦"
    }
}

/// The last segment of a path.
pub fn basename_of(path: &str) -> (r: String)
    ensures
        r@ == after_last(path@, '/'),
{
    let v = chars_of(path);
    string_of(behind_last(v.as_slice(), '/'))
}

/// A link: where it leads, and the key of its label.
#[derive(Debug)]
pub struct Link {
    pub href: String,
    pub label: &'static str,
}

/// A link as a mathematical value.
pub struct Ref {
    pub href: Seq<char>,
    pub label: Seq<char>,
}

impl View for Link {
    type V = Ref;

    open spec fn view(&self) -> Ref {
        Ref { href: self.href@, label: self.label@ }
    }
}

/// The links that `v` stands for.
pub open spec fn refs(v: Seq<Link>) -> Seq<Ref> {
    v.map_values(|l: Link| l@)
}

/// A link to a page about a path.
pub open spec fn page_ref(page: Seq<char>, enc: Seq<char>, label: Seq<char>) -> Ref {
    Ref { href: page + enc, label }
}

/// Adds a link to a page about a path.
fn push_link(v: &mut Vec<Link>, page: &str, enc: &str, label: &'static str)
    ensures
        refs(final(v)@) == refs(old(v)@).push(page_ref(page@, enc@, label@)),
{
    let ghost before = refs(v@);
    v.push(Link { href: String::from_str(page).concat(enc), label });
    assert(refs(v@) =~= before.push(page_ref(page@, enc@, label@)));
}

/// The links of an image alone, in a tree.
pub open spec fn image_refs(enc: Seq<char>, lazy: bool) -> Seq<Ref> {
    let mix = seq![page_ref("/mix?a="@, enc, "mix.link_label"@)];
    if lazy {
        mix + seq![
            page_ref("/holo/"@, enc, "holo.link_label"@),
            page_ref("/spotlight?a="@, enc, "spotlight.link_label"@),
        ]
    } else {
        mix
    }
}

/// The links of an object in a tree: a preview where the kind has one, the pages that every
/// object has, those of an image, and, in the tree that loads level by level, the versions.
pub open spec fn leaf_refs(kind: Seq<char>, enc: Seq<char>, lazy: bool) -> Seq<Ref> {
    (if kind == "image"@ || kind == "audio"@ {
        seq![page_ref("/preview/"@, enc, "preview"@)]
    } else {
        Seq::empty()
    }) + seq![
        page_ref("/inspect/"@, enc, "shards"@),
        page_ref("/similar/"@, enc, "card.action.similar"@),
        page_ref("/health/"@, enc, "card.action.health"@),
    ] + (if kind == "image"@ {
        image_refs(enc, lazy)
    } else {
        Seq::empty()
    }) + (if lazy {
        seq![page_ref("/versions/"@, enc, "versions.link_label"@)]
    } else {
        Seq::empty()
    })
}

/// The links of an object in a tree.
pub fn leaf_links(kind: &str, enc: &str, lazy: bool) -> (r: Vec<Link>)
    ensures
        refs(r@) == leaf_refs(kind@, enc@, lazy),
{
    let mut out: Vec<Link> = Vec::new();
    assert(refs(out@) =~= Seq::<Ref>::empty());
    let image: bool = same_text(kind, "image");
    if image || same_text(kind, "audio") {
        push_link(&mut out, "/preview/", enc, "preview");
    }
    push_link(&mut out, "/inspect/", enc, "shards");
    push_link(&mut out, "/similar/", enc, "card.action.similar");
    push_link(&mut out, "/health/", enc, "card.action.health");
    if image {
        push_link(&mut out, "/mix?a=", enc, "mix.link_label");
        if lazy {
            push_link(&mut out, "/holo/", enc, "holo.link_label");
            push_link(&mut out, "/spotlight?a=", enc, "spotlight.link_label");
        }
    }
    if lazy {
        push_link(&mut out, "/versions/", enc, "versions.link_label");
    }
    assert(refs(out@) =~= leaf_refs(kind@, enc@, lazy));
    out
}

/// The key of the label of a card's first link.
pub fn primary_label(kind: &str) -> (r: &'static str)
    ensures
        r@ == primary_key(kind@),
{
    if same_text(kind, "image") {
        "card.action.full"
    } else if same_text(kind, "audio") {
        "card.action.play"
    } else if same_text(kind, "text") {
        "card.action.open"
    } else {
        "card.action.download"
    }
}

/// The key of the label of a card's first link.
pub open spec fn primary_key(kind: Seq<char>) -> Seq<char> {
    if kind == "image"@ {
        "card.action.full"@
    } else if kind == "audio"@ {
        "card.action.play"@
    } else if kind == "text"@ {
        "card.action.open"@
    } else {
        "card.action.download"@
    }
}

/// The key of the label of a card's preview.
pub fn preview_label(kind: &str) -> (r: &'static str)
    ensures
        r@ == preview_key(kind@),
{
    if same_text(kind, "audio") {
        "card.action.bass"
    } else {
        "card.action.preview"
    }
}

/// The key of the label of a card's preview.
pub open spec fn preview_key(kind: Seq<char>) -> Seq<char> {
    if kind == "audio"@ {
        "card.action.bass"@
    } else {
        "card.action.preview"@
    }
}

/// The view of a directory: the root, or the page of a path.
pub open spec fn view_target(prefix: Seq<char>, enc: Seq<char>) -> Seq<char> {
    if prefix.len() == 0 {
        "/"@
    } else {
        "/?p="@ + enc
    }
}

/// The link that takes the filter away and stays in the directory.
pub fn clear_filter_href(prefix: &str, enc: &str) -> (r: String)
    ensures
        r@ == view_target(prefix@, enc@),
{
    if prefix.is_empty() {
        String::from_str("/")
    } else {
        String::from_str("/?p=").concat(enc)
    }
}

/// Whether any part of a filter is set.
pub fn filter_active(q: &str, from: &str, to: &str) -> (r: bool)
    ensures
        r == (q@.len() > 0 || from@.len() > 0 || to@.len() > 0),
{
    !q.is_empty() || !from.is_empty() || !to.is_empty()
}

/// The class of the link for an order.
pub fn sort_link_class(key: TreeSort, sort: TreeSort) -> (r: &'static str)
    ensures
        r@ == if key == sort {
            "tree-sort-link active"@
        } else {
            "tree-sort-link"@
        },
{
    if key == sort {
        "tree-sort-link active"
    } else {
        "tree-sort-link"
    }
}

/// `s` with a backslash before every apostrophe.
pub open spec fn quoted_for_script(s: Seq<char>) -> Seq<char>
    decreases s.len(),
{
    if s.len() == 0 {
        s
    } else {
        quoted_for_script(s.drop_last()) + (if s.last() == '\'' {
            seq!['\\', '\'']
        } else {
            seq![s.last()]
        })
    }
}

/// The script that asks before something is deleted.
pub fn confirm_js(question: &str) -> (r: String)
    ensures
        r@ == "return confirm('"@ + quoted_for_script(question@) + "');"@,
{
    let v = chars_of(question);
    let mut out = String::from_str("return confirm('");
    let ghost head = out@;
    let mut i: usize = 0;
    assert(out@ =~= head + quoted_for_script(v@.take(0)));
    while i < v.len()
        invariant
            0 <= i <= v@.len(),
            v@ == question@,
            out@ == head + quoted_for_script(v@.take(i as int)),
        decreases v@.len() - i,
    {
        let ghost before = out@;
        if v[i] == '\'' {
            out.push('\\');
        }
        out.push(v[i]);
        proof {
            let t = v@.take(i + 1);
            assert(t.drop_last() =~= v@.take(i as int));
            assert(out@ =~= head + quoted_for_script(t));
        }
        i += 1;
    }
    assert(v@.take(i as int) =~= v@);
    out.append("');");
    out
}

/// An object in a tree.
#[derive(Debug)]
pub struct LeafRow {
    pub class: String,
    pub icon: &'static str,
    pub href: String,
    pub basename: String,
    pub date: String,
    pub links: Vec<Link>,
}

/// The row of an object in a tree.
pub fn leaf_row(entry: &CatalogEntry, enc: &str, lazy: bool) -> (r: LeafRow)
    ensures
        r.class@ == "tree-leaf kind-"@ + entry.kind@,
        r.href@ == "/"@ + enc@,
        r.basename@ == after_last(entry.name@, '/'),
        refs(r.links@) == leaf_refs(entry.kind@, enc@, lazy),
        r.icon@ == icon_of(entry.kind@),
        shows_time(entry.created_at_unix, r.date@),
{
    LeafRow {
        class: String::from_str("tree-leaf kind-").concat(entry.kind.as_str()),
        icon: kind_icon(entry.kind.as_str()),
        href: String::from_str("/").concat(enc),
        basename: basename_of(entry.name.as_str()),
        date: format_unix_utc(entry.created_at_unix),
        links: leaf_links(entry.kind.as_str(), enc, lazy),
    }
}

/// Whether a directory lies on the way to the path that is to be opened, or is it.
pub open spec fn opens_by_itself(path: Seq<char>, target: Seq<char>) -> bool {
    target.len() > 0 && (target == path || starts(target, path + "/"@))
}

/// A directory in the tree that loads level by level.
#[derive(Debug)]
pub struct DirRow {
    pub basename: String,
    pub href: String,
    /// When it was made.
    pub created: String,
    /// Whether it is open from the start.
    pub initial_open: bool,
    /// Whether the page scrolls to it.
    pub is_open_target: bool,
}

/// The first of two parameters of a query that is given; empty where none is.
pub open spec fn first_given(a: Option<&str>, b: Option<&str>) -> Seq<char> {
    match (a, b) {
        (Some(t), _) => t@,
        (None, Some(t)) => t@,
        (None, None) => Seq::empty(),
    }
}

/// The first of two texts that is there; empty where none is.
fn first_of(a: Option<&str>, b: Option<&str>) -> (r: String)
    ensures
        r@ == first_given(a, b),
{
    match (a, b) {
        (Some(t), _) => String::from_str(t),
        (None, Some(t)) => String::from_str(t),
        (None, None) => String::new(),
    }
}

/// The path that is to be opened in the tree: the parameter `open` of the query, or else `p`, as
/// older links have it.
pub fn open_target(open: Option<&str>, p: Option<&str>) -> (r: String)
    ensures
        r@ == first_given(open, p),
{
    first_of(open, p)
}

/// The directory that the tree begins with: the parameter `p` of the query, or else `open`, as
/// older links have it.
pub fn tree_root(p: Option<&str>, open: Option<&str>) -> (r: String)
    ensures
        r@ == first_given(p, open),
{
    first_of(p, open)
}

/// The row of a directory in the tree that loads level by level: those at the top are open,
/// and those on the way to the path that is to be opened.
pub fn lazy_dir_row(path: &str, created_at_unix: u64, enc: &str, open_target: &str, depth: usize) -> (r:
    DirRow)
    ensures
        r.basename@ == after_last(path@, '/'),
        r.href@ == "/?p="@ + enc@,
        shows_time(created_at_unix, r.created@),
        r.initial_open == (depth == 0 || opens_by_itself(path@, open_target@)),
        r.is_open_target == (open_target@.len() > 0 && open_target@ == path@),
{
    let given: bool = !open_target.is_empty();
    let same: bool = same_text(open_target, path);
    let inside = String::from_str(path).concat("/");
    let t = chars_of(open_target);
    let below: bool = strip_prefix(t.as_slice(), inside.as_str()).is_some();
    DirRow {
        basename: basename_of(path),
        href: String::from_str("/?p=").concat(enc),
        created: format_unix_utc(created_at_unix),
        initial_open: depth == 0 || (given && (same || below)),
        is_open_target: given && same,
    }
}

/// Every directory above the path that is to be opened is open, and it too.
pub proof fn way_to_target_is_open(path: Seq<char>, target: Seq<char>)
    requires
        target == path || crate::catalog::is_ancestor(path, target),
        path.len() > 0,
    ensures
        opens_by_itself(path, target),
{
    reveal_strlit("/");
    if target != path {
        let p = path + "/"@;
        assert(target.take(p.len() as int) =~= p) by {
            assert(target.take(path.len() as int) == path);
            assert forall|i: int| 0 <= i < p.len() implies target[i] == p[i] by {
                if i < path.len() {
                    assert(target.take(path.len() as int)[i] == path[i]);
                }
            }
        }
    }
}

/// A directory in the tree that is loaded at once.
#[derive(Debug)]
pub struct BranchRow {
    pub basename: String,
    pub href: String,
    pub open: bool,
    pub n_children: usize,
    pub created: String,
}

/// The row of a directory in the tree that is loaded at once: those at the top are open.
pub fn branch_row(node: &TreeNode, enc: &str, depth: usize) -> (r: BranchRow)
    ensures
        r.basename@ == node.basename@,
        r.href@ == "/?p="@ + enc@,
        r.open == (depth == 0),
        r.n_children == node.children@.len(),
        match node.entry {
            Some(e) => shows_time(e.created_at_unix, r.created@),
            None => r.created@ == "—"@,
        },
{
    let created = match &node.entry {
        Some(e) => format_unix_utc(e.created_at_unix),
        None => String::from_str("—"),
    };
    BranchRow {
        basename: node.basename.clone(),
        href: String::from_str("/?p=").concat(enc),
        open: depth == 0,
        n_children: node.children.len(),
        created,
    }
}

/// What a card shows of an object besides its name.
pub open spec fn card_dims(e: CatalogEntry) -> Seq<char> {
    if e.kind@ == "image"@ {
        dec(e.width as nat) + "×"@ + dec(e.height as nat)
    } else if e.kind@ == "audio"@ {
        dec(e.audio_sample_rate as nat) + " Hz · "@ + dec(e.channels as nat) + " ch"@
    } else {
        e.content_type@
    }
}

/// The links of a card, without its delete button.
pub open spec fn card_refs(kind: Seq<char>, enc: Seq<char>) -> Seq<Ref> {
    seq![page_ref("/"@, enc, primary_key(kind))] + (if kind == "image"@ || kind == "audio"@ {
        seq![page_ref("/preview/"@, enc, preview_key(kind))]
    } else {
        Seq::empty()
    }) + seq![
        page_ref("/inspect/"@, enc, "card.action.shards_link"@),
        page_ref("/similar/"@, enc, "card.action.similar"@),
        page_ref("/health/"@, enc, "card.action.health"@),
    ] + (if kind == "image"@ {
        image_refs(enc, true)
    } else {
        Seq::empty()
    }) + seq![page_ref("/versions/"@, enc, "versions.link_label"@)]
}

/// What a card shows an object as.
#[derive(Debug)]
pub enum Thumb {
    /// A small picture, which is there.
    Picture(String),
    /// A sign.
    Icon(&'static str),
}

/// Whether `t` is what a card shows an object of this kind as: a picture as itself in small, any
/// other as a sign.
pub open spec fn is_thumb(kind: Seq<char>, enc: Seq<char>, t: Thumb) -> bool {
    if kind == "image"@ {
        t matches Thumb::Picture(src) && src@ == "/preview/"@ + enc
    } else {
        t matches Thumb::Icon(i) && i@ == if kind == "audio"@ {
            "♪"@
        } else if kind == "text"@ {
            "¶"@
        } else if kind == "directory"@ {
            "📁"@
        } else {
            "📦"@
        }
    }
}

/// What a card shows an object as.
pub fn thumbnail(kind: &str, enc: &str) -> (r: Thumb)
    ensures
        is_thumb(kind@, enc@, r),
{
    if same_text(kind, "image") {
        Thumb::Picture(String::from_str("/preview/").concat(enc))
    } else if same_text(kind, "audio") {
        Thumb::Icon("♪")
    } else if same_text(kind, "text") {
        Thumb::Icon("¶")
    } else if same_text(kind, "directory") {
        Thumb::Icon("📁")
    } else {
        Thumb::Icon("📦")
    }
}

/// A card in the view of a directory.
#[derive(Debug)]
pub struct Card {
    pub class: String,
    pub thumb: Thumb,
    pub basename: String,
    pub is_directory: bool,
    pub dims: String,
    pub links: Vec<Link>,
    pub return_to: String,
}

/// The name of an entry without the directory that is shown: what stands behind the
/// directory's length and one byte more, or the whole name where the name cannot be cut
/// there.
pub open spec fn is_name_within(name: Seq<char>, parent: Seq<char>, r: Seq<char>) -> bool {
    let b = encode_utf8(name);
    let cut = encode_utf8(parent).len() + 1;
    if parent.len() == 0 || cut > b.len() || !is_char_boundary(b, cut as int) {
        r == name
    } else {
        encode_utf8(r) == b.subrange(cut as int, b.len() as int)
    }
}

/// The name of an entry without the directory that is shown.
pub fn name_within(name: &str, parent: &str) -> (r: String)
    ensures
        is_name_within(name@, parent@, r@),
{
    if parent.is_empty() {
        return String::from_str(name);
    }
    let nb: usize = name.as_bytes().len();
    let pb: usize = parent.as_bytes().len();
    if pb >= nb {
        return String::from_str(name);
    }
    let cut: usize = pb + 1;
    if !name.is_char_boundary(cut) {
        return String::from_str(name);
    }
    let (_, tail) = name.split_at(cut);
    String::from_str(tail)
}

/// The card of an entry in the view of a directory.
pub fn object_card(entry: &CatalogEntry, parent: &str, enc: &str, parent_enc: &str) -> (r: Card)
    ensures
        r.class@ == "card kind-"@ + entry.kind@,
        is_thumb(entry.kind@, enc@, r.thumb),
        is_name_within(entry.name@, parent@, r.basename@),
        r.is_directory == (entry.kind@ == "directory"@),
        r.return_to@ == view_target(parent@, parent_enc@),
        r.is_directory ==> refs(r.links@) == seq![page_ref("/?p="@, enc@, "folder.open"@)],
        !r.is_directory ==> refs(r.links@) == card_refs(entry.kind@, enc@),
        r.dims@ == if r.is_directory {
            Seq::empty()
        } else {
            card_dims(*entry)
        },
{
    let kind: &str = entry.kind.as_str();
    let is_directory: bool = same_text(kind, "directory");
    let mut links: Vec<Link> = Vec::new();
    assert(refs(links@) =~= Seq::<Ref>::empty());
    let mut dims = String::new();
    assert(dims@ =~= Seq::<char>::empty());
    if is_directory {
        push_link(&mut links, "/?p=", enc, "folder.open");
        assert(refs(links@) =~= seq![page_ref("/?p="@, enc@, "folder.open"@)]);
    } else {
        let image: bool = same_text(kind, "image");
        let audio: bool = same_text(kind, "audio");
        dims = if image {
            dec_string(entry.width as u64).concat("×").concat(
                dec_string(entry.height as u64).as_str(),
            )
        } else if audio {
            dec_string(entry.audio_sample_rate as u64).concat(" Hz · ").concat(
                dec_string(entry.channels as u64).as_str(),
            ).concat(" ch")
        } else {
            entry.content_type.clone()
        };
        push_link(&mut links, "/", enc, primary_label(kind));
        if image || audio {
            push_link(&mut links, "/preview/", enc, preview_label(kind));
        }
        push_link(&mut links, "/inspect/", enc, "card.action.shards_link");
        push_link(&mut links, "/similar/", enc, "card.action.similar");
        push_link(&mut links, "/health/", enc, "card.action.health");
        if image {
            push_link(&mut links, "/mix?a=", enc, "mix.link_label");
            push_link(&mut links, "/holo/", enc, "holo.link_label");
            push_link(&mut links, "/spotlight?a=", enc, "spotlight.link_label");
        }
        push_link(&mut links, "/versions/", enc, "versions.link_label");
        assert(refs(links@) =~= card_refs(entry.kind@, enc@));
    }
    Card {
        class: String::from_str("card kind-").concat(kind),
        thumb: thumbnail(kind, enc),
        basename: name_within(entry.name.as_str(), parent),
        is_directory,
        dims,
        links,
        return_to: clear_filter_href(parent, parent_enc),
    }
}

/// The segments of a path, each with the path up to it.
pub open spec fn trail_of(segs: Seq<Seq<char>>) -> Seq<(Seq<char>, Seq<char>)>
    decreases segs.len(),
{
    if segs.len() == 0 {
        Seq::empty()
    } else {
        let before = trail_of(segs.drop_last());
        let so_far = path_of(segs.drop_last());
        before.push((segs.last(), crate::form::joined_path(so_far, segs.last())))
    }
}

/// The path that segments make.
pub open spec fn path_of(segs: Seq<Seq<char>>) -> Seq<char>
    decreases segs.len(),
{
    if segs.len() == 0 {
        Seq::empty()
    } else {
        crate::form::joined_path(path_of(segs.drop_last()), segs.last())
    }
}

/// Pairs of texts.
pub open spec fn pairs(v: Seq<(String, String)>) -> Seq<(Seq<char>, Seq<char>)> {
    v.map_values(|p: (String, String)| (p.0@, p.1@))
}

/// The breadcrumb of a path: its segments, each with the path that it leads to; nothing at
/// the root.
pub fn breadcrumb(prefix: &str) -> (r: Vec<(String, String)>)
    ensures
        pairs(r@) == if prefix@.len() == 0 {
            Seq::empty()
        } else {
            trail_of(split(prefix@, '/'))
        },
{
    let mut out: Vec<(String, String)> = Vec::new();
    assert(pairs(out@) =~= Seq::empty());
    if prefix.is_empty() {
        return out;
    }
    let v = chars_of(prefix);
    let segs = split_on(v.as_slice(), '/');
    let ghost all = deep(segs@);
    let mut so_far = String::new();
    let mut i: usize = 0;
    assert(all.take(0) =~= Seq::empty());
    while i < segs.len()
        invariant
            0 <= i <= segs@.len(),
            all == deep(segs@),
            all == split(prefix@, '/'),
            pairs(out@) == trail_of(all.take(i as int)),
            so_far@ == path_of(all.take(i as int)),
        decreases segs@.len() - i,
    {
        let seg = string_of(segs[i].as_slice());
        let full = crate::form::join_path(so_far.as_str(), seg.as_str());
        let ghost before = pairs(out@);
        let ghost pair = (seg@, full@);
        so_far = full.clone();
        out.push((seg, full));
        proof {
            let t = all.take(i + 1);
            assert(t.drop_last() =~= all.take(i as int));
            assert(t.last() == segs@[i as int]@);
            assert(pairs(out@) =~= before.push(pair));
        }
        i += 1;
    }
    assert(all.take(i as int) =~= all);
    out
}

/// How a number of bytes is shown.
#[derive(Debug, Clone, Copy, PartialEq, Eq, Structural)]
pub enum ByteScale {
    Dash,
    Bytes,
    KiB,
    MiB,
    GiB,
}

/// The unit in which a number of bytes is shown.
pub fn byte_scale(n: u64) -> (r: ByteScale)
    ensures
        r == if n == 0 {
            ByteScale::Dash
        } else if n < 1024 {
            ByteScale::Bytes
        } else if n < 1024 * 1024 {
            ByteScale::KiB
        } else if n < 1024 * 1024 * 1024 {
            ByteScale::MiB
        } else {
            ByteScale::GiB
        },
{
    if n == 0 {
        ByteScale::Dash
    } else if n < 1024 {
        ByteScale::Bytes
    } else if n < 1_048_576 {
        ByteScale::KiB
    } else if n < 1_073_741_824 {
        ByteScale::MiB
    } else {
        ByteScale::GiB
    }
}

/// A number of shards in words; a dash for none.
pub fn format_shards(n_shards: u32) -> (r: String)
    ensures
        r@ == if n_shards == 0 {
            "—"@
        } else {
            dec(n_shards as nat) + " shards"@
        },
{
    if n_shards == 0 {
        String::from_str("—")
    } else {
        dec_string(n_shards as u64).concat(" shards")
    }
}

/// How many entries a page of a level has.
pub const LAZY_PAGE_SIZE: u32 = 200;

/// A level of the tree that loads page by page.
#[derive(Debug)]
pub struct Pager {
    pub entries: Vec<CatalogEntry>,
    pub has_more: bool,
    pub offset: u32,
    pub is_loading: bool,
}

/// A page of a level.
#[derive(Debug)]
pub struct Page {
    pub entries: Vec<CatalogEntry>,
    pub has_more: bool,
}

impl Pager {
    /// The next page begins behind the last entry that is there.
    pub open spec fn wf(&self) -> bool {
        self.offset == self.entries@.len()
    }

    /// A level with its first page.
    pub fn new(initial: Page) -> (r: Pager)
        requires
            initial.entries@.len() <= u32::MAX,
        ensures
            r.wf(),
            r.entries == initial.entries,
            r.has_more == initial.has_more,
            !r.is_loading,
    {
        let offset: u32 = initial.entries.len() as u32;
        Pager { entries: initial.entries, has_more: initial.has_more, offset, is_loading: false }
    }

    /// Begins to load the next page, where there is one and none is being loaded. Gives the
    /// place from which to load.
    pub fn load_more(&mut self) -> (r: Option<u32>)
        requires
            old(self).wf(),
        ensures
            final(self).wf(),
            if old(self).has_more && !old(self).is_loading {
                r == Some(old(self).offset) && *final(self) == (Pager {
                    is_loading: true,
                    ..*old(self)
                })
            } else {
                r is None && *final(self) == *old(self)
            },
    {
        if !self.has_more || self.is_loading {
            return None;
        }
        self.is_loading = true;
        Some(self.offset)
    }

    /// Takes the page that was loaded; where that failed, everything stays as it was and can
    /// be tried again.
    pub fn on_page(&mut self, page: Option<Page>)
        requires
            old(self).wf(),
            page matches Some(p) ==> old(self).entries@.len() + p.entries@.len() <= u32::MAX,
        ensures
            final(self).wf(),
            !final(self).is_loading,
            match page {
                Some(p) => final(self).entries@ == old(self).entries@ + p.entries@ && final(self).has_more == p.has_more,
                None => final(self).entries == old(self).entries && final(self).has_more == old(self).has_more,
            },
    {
        match page {
            Some(p) => {
                let mut more = p.entries;
                let n: u32 = more.len() as u32;
                self.entries.append(&mut more);
                self.offset = self.offset + n;
                self.has_more = p.has_more;
            },
            None => {},
        }
        self.is_loading = false;
    }
}

} // verus!
