//! Form fields, paths and redirect targets.
use vstd::prelude::*;
use vstd::string::StringExecFns;
use vstd::utf8::{decode_utf8, encode_utf8, valid_utf8};

use crate::hex::{pair, pair_of};
use crate::text::{
    before_last, chars_of, deep, digit, find, find_char, is_text, skip_chars, split, split_on,
    string_of, take_chars, utf8_lossy, utf8_text_lossy,
};

verus! {

/// The first segments of paths that belong to the frontend itself.
pub open spec fn is_reserved_segment(s: Seq<char>) -> bool {
    ||| s == "health"@
    ||| s == "escrow"@
    ||| s == "preview"@
    ||| s == "inspect"@
    ||| s == "similar"@
    ||| s == "diff"@
    ||| s == "admin"@
    ||| s == "api"@
    ||| s == "metrics"@
    ||| s == "pkg"@
    ||| s == "help"@
    ||| s == "inspect-zoom"@
    ||| s == "assets"@
    ||| s == "mix"@
    ||| s == "about"@
    ||| s == "search"@
    ||| s == "holo"@
    ||| s == "spotlight"@
    ||| s == "versions"@
}

/// The first segment of a path.
pub open spec fn first_segment(path: Seq<char>) -> Seq<char> {
    path.take(find(path, '/'))
}

/// Whether a segment belongs to the frontend itself.
fn reserved_segment(s: &[char]) -> (r: bool)
    ensures
        r == is_reserved_segment(s@),
{
    is_text(s, "health") || is_text(s, "escrow") || is_text(s, "preview") || is_text(s, "inspect")
        || is_text(s, "similar") || is_text(s, "diff") || is_text(s, "admin") || is_text(s, "api")
        || is_text(s, "metrics") || is_text(s, "pkg") || is_text(s, "help") || is_text(
        s,
        "inspect-zoom",
    ) || is_text(s, "assets") || is_text(s, "mix") || is_text(s, "about") || is_text(s, "search")
        || is_text(s, "holo") || is_text(s, "spotlight") || is_text(s, "versions")
}

/// The first segment of a path.
pub fn top_segment(path: &str) -> (r: String)
    ensures
        r@ == first_segment(path@),
{
    let v = chars_of(path);
    let i: usize = find_char(v.as_slice(), '/');
    string_of(take_chars(v.as_slice(), i))
}

/// Whether a name is empty or shadows a route.
pub fn is_reserved_name(name: &str) -> (r: bool)
    ensures
        r == (name@.len() == 0 || is_reserved_segment(first_segment(name@))),
{
    let v = chars_of(name);
    if v.len() == 0 {
        return true;
    }
    let i: usize = find_char(v.as_slice(), '/');
    reserved_segment(take_chars(v.as_slice(), i))
}

/// Whether an object or a directory may have this name.
pub open spec fn may_be_put(name: Seq<char>) -> bool {
    name.len() > 0 && !is_reserved_segment(first_segment(name))
}

/// Whether an object or a directory may have this name.
pub fn is_valid_put_name(name: &str) -> (r: bool)
    ensures
        r == may_be_put(name@),
{
    !is_reserved_name(name)
}

/// The bytes of a form field with its escapes resolved: `+` is a space, `%` and two
/// bytes behind it are the byte that these spell, or a `%` where they spell none.
pub open spec fn unescape_field(b: Seq<u8>) -> Seq<u8>
    decreases b.len(),
{
    if b.len() == 0 {
        Seq::empty()
    } else if b[0] == 0x2b {
        seq![0x20u8] + unescape_field(b.skip(1))
    } else if b[0] == 0x25 && b.len() > 2 {
        seq![match pair(b[1], b[2]) {
            Some(x) => x,
            None => 0x25u8,
        }] + unescape_field(b.skip(3))
    } else {
        seq![b[0]] + unescape_field(b.skip(1))
    }
}

/// The bytes of a form field with its escapes resolved.
pub fn unescape_bytes(s: &str) -> (r: Vec<u8>)
    ensures
        r@ == unescape_field(encode_utf8(s@)),
{
    let b: &[u8] = s.as_bytes();
    let total: usize = b.len();
    let mut out: Vec<u8> = Vec::new();
    let mut i: usize = 0;
    proof {
        assert(b@.skip(0) =~= b@);
        assert(out@ + unescape_field(b@) =~= unescape_field(b@));
    }
    while i < b.len()
        invariant
            0 <= i <= total == b@.len(),
            unescape_field(b@) == out@ + unescape_field(b@.skip(i as int)),
        decreases b@.len() - i,
    {
        let ghost rest = b@.skip(i as int);
        let ghost before = out@;
        if b[i] == 0x2b {
            out.push(0x20);
            i += 1;
            assert(rest.skip(1) =~= b@.skip(i as int));
            assert(before + (seq![0x20u8] + unescape_field(rest.skip(1))) =~= out@ + unescape_field(
                b@.skip(i as int),
            ));
        } else if b[i] == 0x25 && total - i > 2 {
            let x: u8 = match pair_of(b[i + 1], b[i + 2]) {
                Some(x) => x,
                None => 0x25,
            };
            out.push(x);
            i += 3;
            assert(rest.skip(3) =~= b@.skip(i as int));
            assert(before + (seq![x] + unescape_field(rest.skip(3))) =~= out@ + unescape_field(
                b@.skip(i as int),
            ));
        } else {
            let x: u8 = b[i];
            out.push(x);
            i += 1;
            assert(rest.skip(1) =~= b@.skip(i as int));
            assert(before + (seq![x] + unescape_field(rest.skip(1))) =~= out@ + unescape_field(
                b@.skip(i as int),
            ));
        }
    }
    assert(b@.skip(i as int) =~= Seq::<u8>::empty());
    assert(out@ =~= unescape_field(b@));
    out
}

/// The text of a form field with its escapes resolved; bytes that are no UTF-8 then are
/// replaced.
pub fn url_decode_simple(s: &str) -> (r: String)
    ensures
        r@ == utf8_lossy(unescape_field(encode_utf8(s@))),
        valid_utf8(unescape_field(encode_utf8(s@))) ==> r@ == decode_utf8(
            unescape_field(encode_utf8(s@)),
        ),
{
    let b = unescape_bytes(s);
    utf8_text_lossy(b.as_slice())
}

/// Whether a byte stands for itself in a URL.
pub open spec fn is_url_byte(b: u8) -> bool {
    ||| 0x30 <= b <= 0x39
    ||| 0x41 <= b <= 0x5a
    ||| 0x61 <= b <= 0x7a
    ||| b == 0x2d
    ||| b == 0x5f
    ||| b == 0x2e
    ||| b == 0x2f
    ||| b == 0x7e
}

/// The character for a digit under sixteen, in upper case.
pub open spec fn upper_digit(d: int) -> char {
    if d < 10 {
        (('0' as u32) + d) as char
    } else {
        (('A' as u32) + d - 10) as char
    }
}

/// Bytes as they stand in a URL.
pub open spec fn url_text(b: Seq<u8>) -> Seq<char>
    decreases b.len(),
{
    if b.len() == 0 {
        Seq::empty()
    } else {
        (if is_url_byte(b[0]) {
            seq![b[0] as char]
        } else {
            seq!['%', upper_digit(b[0] as int / 16), upper_digit(b[0] as int % 16)]
        }) + url_text(b.skip(1))
    }
}

/// The character for a digit under sixteen, in upper case.
fn upper_digit_char(d: u8) -> (r: char)
    requires
        d < 16,
    ensures
        r == upper_digit(d as int),
{
    if d < 10 {
        (48 + d) as char
    } else {
        (55 + d) as char
    }
}

/// A text as it stands in a URL: letters, digits and `-_./~` as they are, any other byte
/// as `%` and two digits.
pub fn url_encode_simple(s: &str) -> (r: String)
    ensures
        r@ == url_text(encode_utf8(s@)),
{
    let b: &[u8] = s.as_bytes();
    let mut out = String::new();
    let mut i: usize = 0;
    proof {
        assert(b@.skip(0) =~= b@);
        assert(out@ + url_text(b@) =~= url_text(b@));
    }
    while i < b.len()
        invariant
            0 <= i <= b@.len(),
            url_text(b@) == out@ + url_text(b@.skip(i as int)),
        decreases b@.len() - i,
    {
        let x: u8 = b[i];
        let ghost rest = b@.skip(i as int);
        let ghost before = out@;
        if (0x30 <= x && x <= 0x39) || (0x41 <= x && x <= 0x5a) || (0x61 <= x && x <= 0x7a) || x == 0x2d
            || x == 0x5f || x == 0x2e || x == 0x2f || x == 0x7e {
            out.push(x as char);
            assert(out@ + url_text(rest.skip(1)) =~= before + (seq![x as char] + url_text(rest.skip(1))));
        } else {
            out.push('%');
            out.push(upper_digit_char(x / 16));
            out.push(upper_digit_char(x % 16));
            assert(out@ + url_text(rest.skip(1)) =~= before + (seq![
                '%',
                upper_digit(x as int / 16),
                upper_digit(x as int % 16),
            ] + url_text(rest.skip(1))));
        }
        i += 1;
        assert(rest.skip(1) =~= b@.skip(i as int));
    }
    assert(b@.skip(i as int) =~= Seq::<u8>::empty());
    assert(out@ =~= url_text(b@));
    out
}

/// The value of the first field with this name among `name=value` pieces; a piece
/// without `=` has an empty value.
pub open spec fn raw_field(pieces: Seq<Seq<char>>, field: Seq<char>) -> Option<Seq<char>>
    decreases pieces.len(),
{
    if pieces.len() == 0 {
        None
    } else {
        let p = pieces[0];
        let i = find(p, '=');
        if p.take(i) == field {
            Some(
                if i < p.len() {
                    p.skip(i + 1)
                } else {
                    Seq::empty()
                },
            )
        } else {
            raw_field(pieces.drop_first(), field)
        }
    }
}

/// The value of a field of a form, escapes and all.
pub open spec fn form_field(body: Seq<char>, field: Seq<char>) -> Option<Seq<char>> {
    raw_field(split(body, '&'), field)
}

/// The value of a field of a form, escapes and all.
pub fn raw_form_field(body: &str, field: &str) -> (r: Option<String>)
    ensures
        match r {
            Some(v) => form_field(body@, field@) == Some(v@),
            None => form_field(body@, field@) is None,
        },
{
    let v = chars_of(body);
    let pieces = split_on(v.as_slice(), '&');
    let ghost all = deep(pieces@);
    let mut i: usize = 0;
    assert(all.skip(0) =~= all);
    while i < pieces.len()
        invariant
            0 <= i <= pieces@.len(),
            all == deep(pieces@),
            all == split(body@, '&'),
            raw_field(all, field@) == raw_field(all.skip(i as int), field@),
        decreases pieces@.len() - i,
    {
        let p = pieces[i].as_slice();
        let ghost rest = all.skip(i as int);
        assert(rest[0] == p@);
        assert(rest.drop_first() =~= all.skip(i + 1));
        let k: usize = find_char(p, '=');
        if is_text(take_chars(p, k), field) {
            if k < p.len() {
                return Some(string_of(skip_chars(p, k + 1)));
            }
            let e = String::new();
            assert(e@ =~= Seq::<char>::empty());
            return Some(e);
        }
        i += 1;
    }
    None
}

/// The value of a field of a form, with its escapes resolved.
pub open spec fn field_text(body: Seq<char>, field: Seq<char>) -> Option<Seq<char>> {
    match form_field(body, field) {
        Some(v) => Some(utf8_lossy(unescape_field(encode_utf8(v)))),
        None => None,
    }
}

/// A text, where there is one.
pub open spec fn opt_text(s: Option<String>) -> Option<Seq<char>> {
    match s {
        Some(t) => Some(t@),
        None => None,
    }
}

/// The value of a field of a form, with its escapes resolved.
pub fn parse_urlencoded_field(body: &str, field: &str) -> (r: Option<String>)
    ensures
        opt_text(r) == field_text(body@, field@),
{
    match raw_form_field(body, field) {
        Some(v) => Some(url_decode_simple(v.as_str())),
        None => None,
    }
}

/// Where to go after a form: to `return_to` where it is given, else to the view of
/// `parent`, or to the root.
pub open spec fn return_target(return_to: Seq<char>, parent: Seq<char>) -> Seq<char> {
    if return_to.len() > 0 {
        return_to
    } else if parent.len() == 0 {
        "/"@
    } else {
        "/?p="@ + parent
    }
}

/// Where to go after a form.
pub fn pick_return_to(return_to: &str, parent: &str) -> (r: String)
    ensures
        r@ == return_target(return_to@, parent@),
{
    if !return_to.is_empty() {
        String::from_str(return_to)
    } else if parent.is_empty() {
        String::from_str("/")
    } else {
        String::from_str("/?p=").concat(parent)
    }
}

/// `parent` and `name` as one path.
pub open spec fn joined_path(parent: Seq<char>, name: Seq<char>) -> Seq<char> {
    if parent.len() == 0 {
        name
    } else {
        parent + "/"@ + name
    }
}

/// `parent` and `name` as one path.
pub fn join_path(parent: &str, name: &str) -> (r: String)
    ensures
        r@ == joined_path(parent@, name@),
{
    if parent.is_empty() {
        String::from_str(name)
    } else {
        String::from_str(parent).concat("/").concat(name)
    }
}

/// The path of what a path lies in; empty at the root.
pub fn parent_of(path: &str) -> (r: String)
    ensures
        r@ == before_last(path@, '/'),
{
    let v = chars_of(path);
    string_of(crate::text::ahead_of_last(v.as_slice(), '/'))
}

/// A text that was put into a URL is read there as it was.
pub proof fn text_in_a_url_is_read_back(s: Seq<char>)
    ensures
        ({
            let b = unescape_field(encode_utf8(url_text(encode_utf8(s))));
            valid_utf8(b) && decode_utf8(b) == s
        }),
{
    url_text_round_trip(encode_utf8(s));
    vstd::utf8::encode_utf8_valid_utf8(s);
    vstd::utf8::encode_utf8_decode_utf8(s);
}

/// Resolving the escapes of bytes as they stand in a URL gives the bytes back.
pub proof fn url_text_round_trip(b: Seq<u8>)
    ensures
        unescape_field(encode_utf8(url_text(b))) == b,
{
    lemma_url_text_ascii(b);
    vstd::utf8::is_ascii_chars_encode_utf8(url_text(b));
    lemma_unescape_url(b);
    let e = encode_utf8(url_text(b));
    assert(e =~= url_text(b).map_values(|c: char| c as u8));
}

proof fn lemma_url_text_ascii(b: Seq<u8>)
    ensures
        vstd::utf8::is_ascii_chars(url_text(b)),
    decreases b.len(),
{
    if b.len() > 0 {
        lemma_url_text_ascii(b.skip(1));
    }
}

proof fn lemma_unescape_url(b: Seq<u8>)
    ensures
        unescape_field(url_text(b).map_values(|c: char| c as u8)) == b,
    decreases b.len(),
{
    if b.len() == 0 {
        assert(url_text(b).map_values(|c: char| c as u8) =~= Seq::<u8>::empty());
        assert(b =~= Seq::<u8>::empty());
    } else {
        let rest = b.skip(1);
        lemma_unescape_url(rest);
        let t = url_text(b).map_values(|c: char| c as u8);
        let u = url_text(rest).map_values(|c: char| c as u8);
        if is_url_byte(b[0]) {
            assert(t =~= seq![b[0]] + u);
            assert(t.skip(1) =~= u);
        } else {
            let h = upper_digit(b[0] as int / 16) as u8;
            let l = upper_digit(b[0] as int % 16) as u8;
            assert(t =~= seq![0x25u8, h, l] + u);
            assert(t.skip(3) =~= u);
            assert(pair(h, l) == Some(b[0]));
        }
        assert(seq![b[0]] + rest =~= b);
    }
}

} // verus!
