//! What holds of every form and every path: a field gives what was put into it, a path leads where
//! its parts say, and nothing lands on a page of the frontend.
use vstd::prelude::*;
use vstd::utf8::{decode_utf8, encode_utf8, valid_utf8};

use crate::catalog_view::path_of;
use crate::form::{
    field_text, first_segment, form_field, joined_path, may_be_put, raw_field, return_target,
    text_in_a_url_is_read_back, unescape_field, url_text,
};
use crate::handlers::{
    all_listed_json, backslashed, field_number, field_or_empty, form_number, hit_json, hits_json,
    is_removal, is_version_plan, listed_json, nodes_gc_json, node_gc_json, open_target, or_null,
    quotes_escaped, FormPlan, ListedObject, NodeGc, SearchHit, VersionPlan,
};
use crate::http::Reply;
use crate::text::{
    after_last, before_last, dec, ends, find, from_utf8, lemma_find, lemma_find_is, number, split,
    starts, trim,
};
use crate::text_laws::{
    beginnings_and_ends, lacks, parts_around_the_last_separator, split_of_one_piece,
    split_of_piece_and_rest,
};

verus! {

/// A path that is put together from a directory and a name begins with the whole directory, ends
/// with the whole name, and has one slash between them; at the root it is the name.
pub proof fn joined_path_has_both_parts(parent: Seq<char>, name: Seq<char>)
    ensures
        parent.len() == 0 ==> joined_path(parent, name) == name,
        parent.len() > 0 ==> {
            let p = joined_path(parent, name);
            &&& p.len() == parent.len() + 1 + name.len()
            &&& starts(p, parent)
            &&& p[parent.len() as int] == '/'
            &&& ends(p, name)
        },
{
    reveal_strlit("/");
    if parent.len() > 0 {
        let p = joined_path(parent, name);
        assert(p.take(parent.len() as int) =~= parent);
        assert(p.skip(p.len() - name.len()) =~= name);
    }
}

/// What lies in a directory lies in that directory: the directory of the path is the one that was
/// given, and its last part is the name.
pub proof fn joined_path_leads_into_its_directory(parent: Seq<char>, name: Seq<char>)
    requires
        lacks(name, '/'),
    ensures
        before_last(joined_path(parent, name), '/') == parent,
        after_last(joined_path(parent, name), '/') == name,
{
    reveal_strlit("/");
    if parent.len() == 0 {
        crate::text_laws::last_separator_parts_a_text(name, '/');
        assert(before_last(name, '/') =~= parent);
    } else {
        assert(joined_path(parent, name) =~= parent + seq!['/'] + name);
        parts_around_the_last_separator(parent, '/', name);
    }
}

/// Two names in one directory, or one name in two directories, never give one path.
pub proof fn joined_paths_are_told_apart(a: Seq<char>, n: Seq<char>, b: Seq<char>, m: Seq<char>)
    requires
        lacks(n, '/'),
        lacks(m, '/'),
        joined_path(a, n) == joined_path(b, m),
    ensures
        a == b,
        n == m,
{
    joined_path_leads_into_its_directory(a, n);
    joined_path_leads_into_its_directory(b, m);
}

/// The path that is made of the segments of a path is that path, where it begins with none that is
/// empty.
pub proof fn segments_lead_back_to_the_path(path: Seq<char>)
    requires
        path.len() > 0,
        path[0] != '/',
    ensures
        path_of(split(path, '/')) == path,
{
    lemma_segments(Seq::empty(), path);
    let p = split(path, '/');
    assert(Seq::<Seq<char>>::empty() + p =~= p);
}

/// Segments behind others.
proof fn lemma_segments(done: Seq<Seq<char>>, rest: Seq<char>)
    requires
        done.len() > 0 ==> path_of(done).len() > 0,
        done.len() == 0 ==> rest.len() > 0 && rest[0] != '/',
    ensures
        path_of(done + split(rest, '/')) == if done.len() == 0 {
            rest
        } else {
            path_of(done) + seq!['/'] + rest
        },
    decreases rest.len(),
{
    reveal_strlit("/");
    lemma_find(rest, '/');
    let i = find(rest, '/');
    let none = Seq::<Seq<char>>::empty();
    assert(path_of(none) =~= Seq::<char>::empty());
    if i >= rest.len() {
        let all = done + seq![rest];
        assert(all.drop_last() =~= done);
        assert(all.last() == rest);
        if done.len() > 0 {
            assert(joined_path(path_of(done), rest) =~= path_of(done) + seq!['/'] + rest);
        } else {
            assert(done =~= none);
        }
    } else {
        let head = rest.take(i);
        let tail = rest.skip(i + 1);
        let more = done.push(head);
        assert(more.drop_last() =~= done);
        if done.len() > 0 {
            assert(path_of(more) =~= path_of(done) + seq!['/'] + head);
        } else {
            assert(done =~= none);
            assert(path_of(more) =~= head);
            assert(i > 0);
        }
        lemma_segments(more, tail);
        assert(done + split(rest, '/') =~= more + split(tail, '/'));
        assert(rest =~= head + seq!['/'] + tail);
        assert(path_of(more) + seq!['/'] + tail =~= if done.len() == 0 {
            rest
        } else {
            path_of(done) + seq!['/'] + rest
        });
    }
}

/// The first segment of a path is what stands before its first slash: all of it where there is none.
pub proof fn first_segment_ends_at_the_first_slash(path: Seq<char>)
    ensures
        lacks(first_segment(path), '/'),
        starts(path, first_segment(path)),
        first_segment(path).len() < path.len() ==> path[first_segment(path).len() as int] == '/',
{
    lemma_find(path, '/');
    let i = find(path, '/');
    assert(path.take(i).len() == i);
}

/// Whether a path can be put depends on its first segment alone: what lies below it follows it.
pub proof fn paths_follow_their_first_segment(top: Seq<char>, rest: Seq<char>)
    requires
        lacks(top, '/'),
        top.len() > 0,
    ensures
        may_be_put(top + seq!['/'] + rest) == may_be_put(top),
        first_segment(top + seq!['/'] + rest) == top,
        first_segment(top) == top,
{
    let p = top + seq!['/'] + rest;
    assert(p[top.len() as int] == '/');
    assert forall|j: int| 0 <= j < top.len() implies p[j] != '/' by {
        assert(p[j] == top[j]);
    }
    lemma_find_is(p, '/', top.len() as int);
    lemma_find(top, '/');
    assert(p.take(top.len() as int) =~= top);
    assert(top.take(top.len() as int) =~= top);
}

/// The pages of the frontend.
pub open spec fn pages() -> Seq<Seq<char>> {
    seq![
        "health"@,
        "escrow"@,
        "preview"@,
        "inspect"@,
        "similar"@,
        "diff"@,
        "admin"@,
        "api"@,
        "metrics"@,
        "pkg"@,
        "help"@,
        "inspect-zoom"@,
        "assets"@,
        "mix"@,
        "about"@,
        "search"@,
        "holo"@,
        "spotlight"@,
        "versions"@,
    ]
}

/// Nothing is put over a page of the frontend, nor without a name; anything else may be.
pub proof fn pages_are_not_put_over(name: Seq<char>)
    ensures
        may_be_put(name) <==> name.len() > 0 && !pages().contains(first_segment(name)),
{
    let s = first_segment(name);
    let p = pages();
    if pages().contains(s) {
        let i = choose|i: int| 0 <= i < p.len() && p[i] == s;
    } else {
        assert(p[0] != s && p[1] != s && p[2] != s && p[3] != s && p[4] != s && p[5] != s && p[6] != s);
        assert(p[7] != s && p[8] != s && p[9] != s && p[10] != s && p[11] != s && p[12] != s);
        assert(p[13] != s && p[14] != s && p[15] != s && p[16] != s && p[17] != s && p[18] != s);
    }
}

/// After a form one comes where one asked to; else to the view of the directory, or the root.
pub proof fn way_back_is_the_one_that_was_asked_for(return_to: Seq<char>, parent: Seq<char>)
    ensures
        return_to.len() > 0 ==> return_target(return_to, parent) == return_to,
        return_to.len() == 0 && parent.len() > 0 ==> starts(return_target(return_to, parent), "/?p="@)
            && ends(return_target(return_to, parent), parent) && return_target(return_to, parent).len()
            == 4 + parent.len(),
        return_to.len() == 0 && parent.len() == 0 ==> return_target(return_to, parent) == "/"@,
{
    reveal_strlit("/?p=");
    beginnings_and_ends("/?p="@, parent, parent);
}

/// The first field with a name has the value that stands behind its first equals sign.
pub proof fn first_field_is_found(k: Seq<char>, v: Seq<char>, rest: Seq<char>)
    requires
        lacks(k, '='),
        lacks(k, '&'),
        lacks(v, '&'),
    ensures
        form_field(k + seq!['='] + v, k) == Some(v),
        form_field(k + seq!['='] + v + seq!['&'] + rest, k) == Some(v),
{
    let p = k + seq!['='] + v;
    lemma_piece(k, v);
    split_of_one_piece(p, '&');
    split_of_piece_and_rest(p, '&', rest);
    let a = seq![p];
    let b = seq![p] + split(rest, '&');
    assert(a[0] == p);
    assert(b[0] == p);
}

/// A piece with a name and a value.
proof fn lemma_piece(k: Seq<char>, v: Seq<char>)
    requires
        lacks(k, '='),
        lacks(k, '&'),
        lacks(v, '&'),
    ensures
        ({
            let p = k + seq!['='] + v;
            &&& lacks(p, '&')
            &&& find(p, '=') == k.len()
            &&& p.take(k.len() as int) == k
            &&& p.skip(k.len() as int + 1) == v
        }),
{
    let p = k + seq!['='] + v;
    assert(p[k.len() as int] == '=');
    assert forall|j: int| 0 <= j < k.len() implies p[j] != '=' by {
        assert(p[j] == k[j]);
    }
    lemma_find_is(p, '=', k.len() as int);
    assert(p.take(k.len() as int) =~= k);
    assert(p.skip(k.len() as int + 1) =~= v);
    assert forall|i: int| 0 <= i < p.len() implies p[i] != '&' by {
        if i < k.len() {
            assert(p[i] == k[i]);
        } else if i > k.len() {
            assert(p[i] == v[i - k.len() - 1]);
        }
    }
}

/// A field with another name is passed over.
pub proof fn other_fields_are_passed_over(k: Seq<char>, v: Seq<char>, rest: Seq<char>, field: Seq<char>)
    requires
        lacks(k, '='),
        lacks(k, '&'),
        lacks(v, '&'),
        field != k,
    ensures
        form_field(k + seq!['='] + v, field) is None,
        form_field(k + seq!['='] + v + seq!['&'] + rest, field) == form_field(rest, field),
{
    let p = k + seq!['='] + v;
    lemma_piece(k, v);
    split_of_one_piece(p, '&');
    split_of_piece_and_rest(p, '&', rest);
    let a = seq![p];
    let b = seq![p] + split(rest, '&');
    assert(a.drop_first() =~= Seq::<Seq<char>>::empty());
    assert(raw_field(a.drop_first(), field) is None);
    assert(b.drop_first() =~= split(rest, '&'));
    assert(a[0] == p && b[0] == p);
}

/// A blank in a form may stand as a plus sign; a byte that stands for itself is itself.
pub proof fn plain_bytes_of_a_form_stay(b: Seq<u8>, x: u8)
    ensures
        unescape_field(seq![0x2bu8] + b) == seq![0x20u8] + unescape_field(b),
        x != 0x2b && x != 0x25 ==> unescape_field(seq![x] + b) == seq![x] + unescape_field(b),
        unescape_field(Seq::empty()).len() == 0,
{
    let p = seq![0x2bu8] + b;
    let q = seq![x] + b;
    assert(p.skip(1) =~= b);
    assert(q.skip(1) =~= b);
    assert(p[0] == 0x2b && q[0] == x);
}

/// What stands in a URL is made of letters, digits, `-_./~` and escapes alone, so that it ends no
/// field and begins no query.
pub proof fn text_in_a_url_is_harmless(b: Seq<u8>, i: int)
    requires
        0 <= i < url_text(b).len(),
    ensures
        ({
            let c = url_text(b)[i];
            ||| ('a' <= c && c <= 'z')
            ||| ('A' <= c && c <= 'Z')
            ||| ('0' <= c && c <= '9')
            ||| c == '-'
            ||| c == '_'
            ||| c == '.'
            ||| c == '/'
            ||| c == '~'
            ||| c == '%'
        }),
    decreases b.len(),
{
    let t = url_text(b);
    let head = t.len() - url_text(b.skip(1)).len();
    if i >= head {
        text_in_a_url_is_harmless(b.skip(1), i - head);
        assert(t[i] == url_text(b.skip(1))[i - head]);
    } else {
        assert(0 <= b[0] as int / 16 < 16);
        assert(0 <= b[0] as int % 16 < 16);
    }
}

/// What was put into a field for a URL is read from it as it was.
pub proof fn field_gives_what_was_put_into_it(k: Seq<char>, v: Seq<char>)
    requires
        lacks(k, '='),
        lacks(k, '&'),
    ensures
        form_field(k + seq!['='] + url_text(encode_utf8(v)), k) == Some(url_text(encode_utf8(v))),
        valid_utf8(unescape_field(encode_utf8(url_text(encode_utf8(v))))),
        decode_utf8(unescape_field(encode_utf8(url_text(encode_utf8(v))))) == v,
{
    let u = url_text(encode_utf8(v));
    assert forall|i: int| 0 <= i < u.len() implies u[i] != '&' by {
        text_in_a_url_is_harmless(encode_utf8(v), i);
    }
    first_field_is_found(k, u, Seq::empty());
    text_in_a_url_is_read_back(v);
}

/// A field that is not there is empty, and spells no number; one that is there is itself.
pub proof fn missing_fields_are_empty(body: Seq<char>, field: Seq<char>, max: nat)
    ensures
        match field_text(body, field) {
            Some(t) => field_or_empty(body, field) == t && field_number(body, field, max) == number(t, max),
            None => field_or_empty(body, field).len() == 0 && field_number(body, field, max) is None,
        },
        field_text(body, field) is Some <==> form_field(body, field) is Some,
{
}

/// A form that removes something names just what is removed, and nothing of the frontend; a form
/// that names nothing, or a page, removes nothing.
pub proof fn removal_is_of_what_was_named(body: Seq<u8>, r: Result<FormPlan, Reply>)
    requires
        is_removal(body, r),
    ensures
        match r {
            Ok(p) => {
                &&& from_utf8(body) is Some
                &&& field_text(from_utf8(body)->0, "path"@) == Some(p.path@)
                &&& may_be_put(p.path@)
                &&& field_or_empty(from_utf8(body)->0, "return_to"@).len() > 0 ==> p.target@
                    == field_or_empty(from_utf8(body)->0, "return_to"@)
                &&& field_or_empty(from_utf8(body)->0, "return_to"@).len() == 0 ==> p.target@
                    == return_target(Seq::empty(), before_last(p.path@, '/'))
            },
            Err(e) => {
                &&& e@.status == 400
                &&& from_utf8(body) matches Some(b) ==> match field_text(b, "path"@) {
                    Some(path) => !may_be_put(path),
                    None => true,
                }
            },
        },
{
    if r is Ok {
        let b = from_utf8(body)->0;
        if field_or_empty(b, "return_to"@).len() == 0 {
            assert(field_or_empty(b, "return_to"@) =~= Seq::<char>::empty());
        }
    }
}

/// A form about a version acts on just the object and the version that it names.
pub proof fn version_is_the_one_that_was_named(body: Seq<char>, r: Result<VersionPlan, Reply>)
    requires
        is_version_plan(body, r),
    ensures
        match r {
            Ok(p) => {
                &&& field_text(body, "name"@) == Some(p.name@)
                &&& field_text(body, "id"@) == Some(p.id@)
                &&& field_text(body, "return_to"@) matches Some(t) ==> p.return_to@ == t
                &&& field_text(body, "return_to"@) is None ==> p.return_to@ == "/versions/"@ + url_text(
                    encode_utf8(p.name@),
                )
            },
            Err(e) => e@.status == 400 && (field_text(body, "name"@) is None || field_text(
                body,
                "id"@,
            ) is None),
        },
{
}

/// An object that was saved is shown in its directory, or itself where it is in none.
pub proof fn saved_object_is_shown_where_it_is(dest: Seq<char>)
    ensures
        ({
            let shown = unescape_field(encode_utf8(open_target(dest).skip(7)));
            &&& starts(open_target(dest), "/?open="@)
            &&& valid_utf8(shown)
            &&& decode_utf8(shown) == if before_last(dest, '/').len() > 0 {
                before_last(dest, '/')
            } else {
                dest
            }
        }),
{
    reveal_strlit("/?open=");
    let p = if before_last(dest, '/').len() > 0 {
        before_last(dest, '/')
    } else {
        dest
    };
    text_in_a_url_is_read_back(p);
    beginnings_and_ends("/?open="@, url_text(encode_utf8(p)), p);
    assert(open_target(dest).skip(7) =~= url_text(encode_utf8(p)));
}

/// A number in a field may have white space around it, and nothing else.
pub proof fn numbers_of_forms_are_numbers(b: Seq<u8>)
    ensures
        form_number(b) matches Some(n) ==> from_utf8(b) is Some && number(
            trim(from_utf8(b)->0),
            usize::MAX as nat,
        ) == Some(n),
        from_utf8(b) is None ==> form_number(b) is None,
        from_utf8(b) matches Some(t) ==> number(trim(t), usize::MAX as nat) is None ==> form_number(b) is None,
{
}

/// Every quotation mark, and nothing else, gets a backslash before it; for a search also every
/// backslash.
pub proof fn marks_get_a_backslash(s: Seq<char>, c: char)
    ensures
        quotes_escaped(Seq::empty()).len() == 0,
        quotes_escaped(s.push(c)) == if c == '"' {
            quotes_escaped(s).push('\\').push('"')
        } else {
            quotes_escaped(s).push(c)
        },
        backslashed(Seq::empty()).len() == 0,
        backslashed(s.push(c)) == if c == '"' || c == '\\' {
            backslashed(s).push('\\').push(c)
        } else {
            backslashed(s).push(c)
        },
{
    let t = s.push(c);
    assert(t.drop_last() =~= s);
    assert(t.last() == c);
    assert(quotes_escaped(t) =~= if c == '"' {
        quotes_escaped(s).push('\\').push('"')
    } else {
        quotes_escaped(s).push(c)
    });
    assert(backslashed(t) =~= if c == '"' || c == '\\' {
        backslashed(s).push('\\').push(c)
    } else {
        backslashed(s).push(c)
    });
}

/// A list in JSON has one entry for each object, in their order, with commas between them.
pub proof fn listed_objects_are_all_listed(v: Seq<ListedObject>, o: ListedObject)
    ensures
        all_listed_json(Seq::empty()).len() == 0,
        all_listed_json(v.push(o)) == all_listed_json(v) + (if v.len() > 0 {
            ","@
        } else {
            Seq::empty()
        }) + listed_json(o),
        ends(all_listed_json(v.push(o)), "\",\"size\":"@ + dec(o.size as nat) + "}"@),
{
    assert(v.push(o).drop_last() =~= v);
    let tail = "\",\"size\":"@ + dec(o.size as nat) + "}"@;
    let head = all_listed_json(v) + (if v.len() > 0 {
        ","@
    } else {
        Seq::empty()
    }) + ("{\"name\":\""@ + crate::json::escaped(o.name@, false) + "\",\"kind\":\""@
        + crate::health_view::kind_name(o.kind));
    assert(all_listed_json(v.push(o)) =~= head + tail);
    beginnings_and_ends(head, tail, tail);
}

/// The results of a search are told in their order, with commas between them, and so is what a
/// sweep did on each node.
pub proof fn rows_in_json_are_all_told(v: Seq<SearchHit>, h: SearchHit, w: Seq<NodeGc>, n: NodeGc)
    ensures
        hits_json(Seq::empty()).len() == 0,
        hits_json(v.push(h)) == hits_json(v) + (if v.len() > 0 {
            ","@
        } else {
            Seq::empty()
        }) + hit_json(h),
        nodes_gc_json(Seq::empty()).len() == 0,
        nodes_gc_json(w.push(n)) == nodes_gc_json(w) + (if w.len() > 0 {
            ","@
        } else {
            Seq::empty()
        }) + node_gc_json(n),
{
    assert(v.push(h).drop_last() =~= v);
    assert(w.push(n).drop_last() =~= w);
}

/// A number that is not known is `null`, and no number is told as that.
pub proof fn unknown_numbers_are_null(n: Option<u64>)
    ensures
        n is None ==> or_null(n) == "null"@,
        n matches Some(x) ==> number(or_null(n), u64::MAX as nat) == Some(x as nat),
{
    if let Some(x) = n {
        crate::text_laws::number_of_dec(x as nat, u64::MAX as nat);
    }
}

/// Three bytes of a form that begin with a percent sign are the byte that the other two spell, in
/// either case; a percent sign where they spell none; and a percent sign with fewer than two bytes
/// behind it is itself.
pub proof fn escapes_of_a_form_are_resolved(x: u8, y: u8, z: u8, b: Seq<u8>)
    ensures
        0x30 <= x <= 0x39 && 0x30 <= y <= 0x39 ==> unescape_field(seq![0x25u8, x, y] + b) == seq![
            ((x - 0x30) * 16 + (y - 0x30)) as u8,
        ] + unescape_field(b),
        0x41 <= x <= 0x46 && 0x41 <= y <= 0x46 ==> unescape_field(seq![0x25u8, x, y] + b) == seq![
            ((x - 0x37) * 16 + (y - 0x37)) as u8,
        ] + unescape_field(b),
        0x61 <= x <= 0x66 && 0x61 <= y <= 0x66 ==> unescape_field(seq![0x25u8, x, y] + b) == seq![
            ((x - 0x57) * 16 + (y - 0x57)) as u8,
        ] + unescape_field(b),
        y < 0x30 || (0x39 < y && y < 0x41) || (0x46 < y && y < 0x61) || y > 0x66 ==> unescape_field(
            seq![0x25u8, x, y] + b,
        ) == seq![0x25u8] + unescape_field(b),
        unescape_field(seq![0x25u8]) == seq![0x25u8],
        z != 0x25 && z != 0x2b ==> unescape_field(seq![0x25u8, z]) == seq![0x25u8, z],
{
    let s = seq![0x25u8, x, y] + b;
    assert(s[0] == 0x25 && s[1] == x && s[2] == y);
    assert(s.skip(3) =~= b);
    let e = Seq::<u8>::empty();
    assert(unescape_field(e) =~= e);
    let one = seq![0x25u8];
    assert(one.skip(1) =~= e);
    assert(unescape_field(one) =~= one);
    let two = seq![0x25u8, z];
    assert(two.skip(1) =~= seq![z]);
    assert(seq![z].skip(1) =~= e);
    if z != 0x25 && z != 0x2b {
        assert(unescape_field(seq![z]) =~= seq![z]);
        assert(unescape_field(two) =~= two);
    }
}

/// In a URL letters, digits and `-_./~` stand for themselves, and every other byte as a percent sign
/// and two digits, the greater first, in upper case.
pub proof fn bytes_stand_in_a_url_as_they_must(x: u8, b: Seq<u8>)
    ensures
        url_text(Seq::empty()).len() == 0,
        (0x30 <= x <= 0x39) || (0x41 <= x <= 0x5a) || (0x61 <= x <= 0x7a) || x == 0x2d || x == 0x5f || x == 0x2e
            || x == 0x2f || x == 0x7e ==> url_text(seq![x] + b) == seq![x as char] + url_text(b),
        x == 0x20 ==> url_text(seq![x] + b) == seq!['%', '2', '0'] + url_text(b),
        x == 0x26 ==> url_text(seq![x] + b) == seq!['%', '2', '6'] + url_text(b),
        x == 0x2b ==> url_text(seq![x] + b) == seq!['%', '2', 'B'] + url_text(b),
        x == 0xff ==> url_text(seq![x] + b) == seq!['%', 'F', 'F'] + url_text(b),
        !((0x30 <= x <= 0x39) || (0x41 <= x <= 0x5a) || (0x61 <= x <= 0x7a) || x == 0x2d || x == 0x5f || x
            == 0x2e || x == 0x2f || x == 0x7e) ==> {
            let t = url_text(seq![x] + b);
            &&& t.len() == 3 + url_text(b).len()
            &&& t[0] == '%'
            &&& t[1] as u32 == if x < 160 {
                48 + x as int / 16
            } else {
                55 + x as int / 16
            }
            &&& t[2] as u32 == if x % 16 < 10 {
                48 + x as int % 16
            } else {
                55 + x as int % 16
            }
            &&& t.skip(3) == url_text(b)
        },
{
    let s = seq![x] + b;
    assert(s[0] == x);
    assert(s.skip(1) =~= b);
    let t = url_text(s);
    assert(0 <= x as int / 16 < 16 && 0 <= x as int % 16 < 16);
    if t.len() == 3 + url_text(b).len() {
        assert(t.skip(3) =~= url_text(b));
    }
}

/// A field that is named without a value has an empty one.
pub proof fn fields_without_a_value_are_empty(k: Seq<char>)
    requires
        lacks(k, '='),
        lacks(k, '&'),
    ensures
        form_field(k, k) matches Some(v) && v.len() == 0,
{
    split_of_one_piece(k, '&');
    let a = seq![k];
    assert(a[0] == k);
    lemma_find(k, '=');
    lemma_find_is(k, '=', k.len() as int);
    assert(k.take(k.len() as int) =~= k);
}

/// A form that removes something is refused with what is wrong: it is no text, names nothing, or names
/// a page.
pub proof fn refused_removals_are_told_why(body: Seq<u8>, r: Result<FormPlan, Reply>)
    requires
        is_removal(body, r),
        r is Err,
    ensures
        from_utf8(body) is None ==> r->Err_0@.body == crate::text::utf8("non-utf8 body"@),
        from_utf8(body) matches Some(b) ==> match field_text(b, "path"@) {
            None => r->Err_0@.body == crate::text::utf8("missing 'path'"@),
            Some(_) => r->Err_0@.body == crate::text::utf8("reserved or empty top segment"@),
        },
{
}

/// A form about a version is refused with the first thing that it does not name.
pub proof fn refused_versions_are_told_why(body: Seq<char>, r: Result<VersionPlan, Reply>)
    requires
        is_version_plan(body, r),
        r is Err,
    ensures
        field_text(body, "name"@) is None ==> r->Err_0@.body == crate::text::utf8("missing 'name'"@),
        field_text(body, "name"@) is Some ==> r->Err_0@.body == crate::text::utf8("missing 'id'"@),
{
}

} // verus!
