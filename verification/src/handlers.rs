//! What the gateway makes of a request before it acts on it: the parameters that the request
//! carries, or the reply that refuses it.
use vstd::prelude::*;
use vstd::string::StringExecFns;
use vstd::utf8::encode_utf8;

use crate::form::{
    field_text, is_reserved_name, is_valid_put_name, join_path, joined_path, may_be_put, opt_text,
    parent_of, parse_urlencoded_field, pick_return_to, return_target, url_encode_simple, url_text,
};
use crate::health_view::{kind_label, kind_name, ObjectKind};
use crate::http::{
    bad_request, error_status, error_text, error_to_response, json_response, not_found,
    redirect_to, text_answer, text_reply, Answer, GatewayError, Reply,
};
use crate::json::{escaped, json_escape};
use crate::text::{
    before_last, behind_last, ahead_of_last, chars_of, dec, dec_string, deep, from_utf8, number,
    parse_number, rfind, rfind_char, same_text, split, split_on, string_of, text_from_utf8, trim,
    trim_end_str, trimmed, trimmed_end_str, utf8_lossy, utf8_text_lossy, after_last,
};

verus! {

/// The reply to a request that makes no sense.
pub open spec fn bad(msg: Seq<char>) -> Answer {
    text_answer(400, "text/plain"@, msg)
}

/// What a reading gave, with the reply as a mathematical value.
pub open spec fn refuses<T>(r: Result<T, Reply>, a: Answer) -> bool {
    r matches Err(p) && p@ == a
}

/// The text of a field; empty where it is not there.
pub open spec fn field_or_empty(body: Seq<char>, field: Seq<char>) -> Seq<char> {
    match field_text(body, field) {
        Some(t) => t,
        None => Seq::empty(),
    }
}

/// The text of a field; empty where it is not there.
fn optional_field(body: &str, field: &str) -> (r: String)
    ensures
        r@ == field_or_empty(body@, field@),
{
    match parse_urlencoded_field(body, field) {
        Some(t) => t,
        None => {
            let e = String::new();
            assert(e@ =~= Seq::<char>::empty());
            e
        },
    }
}

/// The number that a field gives.
pub open spec fn field_number(body: Seq<char>, field: Seq<char>, max: nat) -> Option<nat> {
    match field_text(body, field) {
        Some(t) => number(t, max),
        None => None,
    }
}

/// The number that a field gives.
fn numeric_field(body: &str, field: &str, max: u64) -> (r: Option<u64>)
    ensures
        match r {
            Some(n) => field_number(body@, field@, max as nat) == Some(n as nat) && n <= max,
            None => field_number(body@, field@, max as nat) is None,
        },
{
    match parse_urlencoded_field(body, field) {
        Some(t) => {
            let v = chars_of(t.as_str());
            parse_number(v.as_slice(), max)
        },
        None => None,
    }
}

/// The body of a form as text.
fn body_text(body: &[u8]) -> (r: Result<String, Reply>)
    ensures
        match from_utf8(body@) {
            Some(t) => r matches Ok(s) && s@ == t,
            None => refuses(r, bad("non-utf8 body"@)),
        },
{
    match text_from_utf8(crate::bytes::copy(body)) {
        Some(t) => Ok(t),
        None => Err(bad_request("non-utf8 body")),
    }
}

/// A path to work on, and where to go afterwards.
#[derive(Debug)]
pub struct FormPlan {
    pub path: String,
    pub target: String,
}

/// Whether a path may be made, moved or removed; else the reply.
pub fn check_path(name: &str) -> (r: Result<(), Reply>)
    ensures
        if may_be_put(name@) {
            r is Ok
        } else {
            refuses(r, bad("reserved or empty top segment"@))
        },
{
    if is_valid_put_name(name) {
        Ok(())
    } else {
        Err(bad_request("reserved or empty top segment"))
    }
}

/// The form that makes a directory: `parent` and `name` give the path.
pub fn mkdir_form(body: &[u8]) -> (r: Result<FormPlan, Reply>)
    ensures
        match from_utf8(body@) {
            None => refuses(r, bad("non-utf8 body"@)),
            Some(b) => match field_text(b, "name"@) {
                None => refuses(r, bad("missing 'name'"@)),
                Some(n) => {
                    let parent = field_or_empty(b, "parent"@);
                    let path = joined_path(parent, n);
                    if !may_be_put(path) {
                        refuses(r, bad("reserved or empty top segment"@))
                    } else {
                        r matches Ok(p) && p.path@ == path && p.target@ == return_target(
                            field_or_empty(b, "return_to"@),
                            parent,
                        )
                    }
                },
            },
        },
{
    let b = match body_text(body) {
        Ok(b) => b,
        Err(p) => {
            return Err(p);
        },
    };
    let parent = optional_field(b.as_str(), "parent");
    let name = match parse_urlencoded_field(b.as_str(), "name") {
        Some(n) => n,
        None => {
            return Err(bad_request("missing 'name'"));
        },
    };
    let return_to = optional_field(b.as_str(), "return_to");
    let path = join_path(parent.as_str(), name.as_str());
    match check_path(path.as_str()) {
        Err(p) => {
            return Err(p);
        },
        Ok(()) => {},
    }
    let target = pick_return_to(return_to.as_str(), parent.as_str());
    Ok(FormPlan { path, target })
}

/// Whether `r` is what comes of a form that removes something: `path` names it.
pub open spec fn is_removal(body: Seq<u8>, r: Result<FormPlan, Reply>) -> bool {
    match from_utf8(body) {
        None => refuses(r, bad("non-utf8 body"@)),
        Some(b) => match field_text(b, "path"@) {
            None => refuses(r, bad("missing 'path'"@)),
            Some(path) => if !may_be_put(path) {
                refuses(r, bad("reserved or empty top segment"@))
            } else {
                r matches Ok(p) && p.path@ == path && p.target@ == return_target(
                    field_or_empty(b, "return_to"@),
                    before_last(path, '/'),
                )
            },
        },
    }
}

/// The form that removes an object.
pub fn rm_form(body: &[u8]) -> (r: Result<FormPlan, Reply>)
    ensures
        is_removal(body@, r),
{
    let b = match body_text(body) {
        Ok(b) => b,
        Err(p) => {
            return Err(p);
        },
    };
    let path = match parse_urlencoded_field(b.as_str(), "path") {
        Some(n) => n,
        None => {
            return Err(bad_request("missing 'path'"));
        },
    };
    match check_path(path.as_str()) {
        Err(p) => {
            return Err(p);
        },
        Ok(()) => {},
    }
    let return_to = optional_field(b.as_str(), "return_to");
    let parent = parent_of(path.as_str());
    let target = pick_return_to(return_to.as_str(), parent.as_str());
    Ok(FormPlan { path, target })
}

/// The form that removes a directory.
pub fn rmdir_form(body: &[u8]) -> (r: Result<FormPlan, Reply>)
    ensures
        is_removal(body@, r),
{
    rm_form(body)
}

/// The reply to a form once the gateway has acted on it: on to the next page, or its error.
pub fn form_reply(target: &str, error: &Option<GatewayError>) -> (r: Reply)
    ensures
        r@ == match *error {
            None => (Answer {
                status: 303,
                headers: seq![
                    (
                        "location"@,
                        if target@.len() == 0 {
                            "/"@
                        } else {
                            target@
                        },
                    ),
                ],
                body: Seq::empty(),
            }),
            Some(e) => text_answer(error_status(e), "text/plain"@, error_text(e)),
        },
{
    match error {
        None => redirect_to(target),
        Some(e) => error_to_response(e),
    }
}

/// The form that moves an entry.
pub fn mv(body: &[u8]) -> (r: Result<(String, String), Reply>)
    ensures
        match from_utf8(body@) {
            None => refuses(r, bad("non-utf8 body"@)),
            Some(b) => match (field_text(b, "from"@), field_text(b, "to"@)) {
                (None, _) => refuses(r, bad("missing 'from'"@)),
                (Some(_), None) => refuses(r, bad("missing 'to'"@)),
                (Some(f), Some(t)) => if !may_be_put(f) || !may_be_put(t) {
                    refuses(r, bad("reserved or empty top segment"@))
                } else {
                    r matches Ok(p) && p.0@ == f && p.1@ == t
                },
            },
        },
{
    let b = match body_text(body) {
        Ok(b) => b,
        Err(p) => {
            return Err(p);
        },
    };
    let from = match parse_urlencoded_field(b.as_str(), "from") {
        Some(n) => n,
        None => {
            return Err(bad_request("missing 'from'"));
        },
    };
    let to = match parse_urlencoded_field(b.as_str(), "to") {
        Some(n) => n,
        None => {
            return Err(bad_request("missing 'to'"));
        },
    };
    if !is_valid_put_name(from.as_str()) || !is_valid_put_name(to.as_str()) {
        return Err(bad_request("reserved or empty top segment"));
    }
    Ok((from, to))
}

/// Two objects to be mixed, and at which layer.
#[derive(Debug)]
pub struct MixPlan {
    pub a: String,
    pub b: String,
    pub split: u8,
}

/// The preview of a mix: both objects must be named; the layer is 0 where it is not a number.
pub fn mix_preview(query: &str) -> (r: Result<MixPlan, Reply>)
    ensures
        ({
            let a = field_or_empty(query@, "a"@);
            let b = field_or_empty(query@, "b"@);
            if a.len() == 0 {
                refuses(r, bad("missing 'a'"@))
            } else if b.len() == 0 {
                refuses(r, bad("missing 'b'"@))
            } else {
                r matches Ok(p) && p.a@ == a && p.b@ == b && p.split == match field_number(
                    query@,
                    "split"@,
                    255,
                ) {
                    Some(n) => n,
                    None => 0,
                }
            }
        }),
{
    let a = optional_field(query, "a");
    let b = optional_field(query, "b");
    let split: u8 = match numeric_field(query, "split", 255) {
        Some(n) => n as u8,
        None => 0,
    };
    if a.as_str().is_empty() {
        return Err(bad_request("missing 'a'"));
    }
    if b.as_str().is_empty() {
        return Err(bad_request("missing 'b'"));
    }
    Ok(MixPlan { a, b, split })
}

/// A mix to be saved: what, under which name, and where to go afterwards.
#[derive(Debug)]
pub struct MixSavePlan {
    pub mix: MixPlan,
    pub dest: String,
    pub target: String,
}

/// The view of the catalog in which an object that was saved can be seen.
pub open spec fn open_target(dest: Seq<char>) -> Seq<char> {
    let parent = before_last(dest, '/');
    "/?open="@ + url_text(
        encode_utf8(
            if parent.len() == 0 {
                dest
            } else {
                parent
            },
        ),
    )
}

/// The form that saves a mix.
pub fn mix_save(body: &[u8]) -> (r: Result<MixSavePlan, Reply>)
    ensures
        match from_utf8(body@) {
            None => refuses(r, bad("non-utf8 body"@)),
            Some(t) => match (
                field_text(t, "a"@),
                field_text(t, "b"@),
                field_number(t, "split"@, 255),
                field_text(t, "dest"@),
            ) {
                (None, _, _, _) => refuses(r, bad("missing 'a'"@)),
                (Some(_), None, _, _) => refuses(r, bad("missing 'b'"@)),
                (Some(_), Some(_), None, _) => refuses(r, bad("missing or invalid 'split'"@)),
                (Some(_), Some(_), Some(_), None) => refuses(r, bad("missing 'dest'"@)),
                (Some(a), Some(b), Some(n), Some(d)) => if !may_be_put(d) {
                    refuses(r, bad("invalid 'dest' (reserved or empty top segment)"@))
                } else {
                    r matches Ok(p) && p.mix.a@ == a && p.mix.b@ == b && p.mix.split == n && p.dest@ == d
                        && p.target@ == open_target(d)
                },
            },
        },
{
    let t = match body_text(body) {
        Ok(b) => b,
        Err(p) => {
            return Err(p);
        },
    };
    let a = match parse_urlencoded_field(t.as_str(), "a") {
        Some(n) => n,
        None => {
            return Err(bad_request("missing 'a'"));
        },
    };
    let b = match parse_urlencoded_field(t.as_str(), "b") {
        Some(n) => n,
        None => {
            return Err(bad_request("missing 'b'"));
        },
    };
    let split: u8 = match numeric_field(t.as_str(), "split", 255) {
        Some(n) => n as u8,
        None => {
            return Err(bad_request("missing or invalid 'split'"));
        },
    };
    let dest = match parse_urlencoded_field(t.as_str(), "dest") {
        Some(n) => n,
        None => {
            return Err(bad_request("missing 'dest'"));
        },
    };
    if !is_valid_put_name(dest.as_str()) {
        return Err(bad_request("invalid 'dest' (reserved or empty top segment)"));
    }
    let parent = parent_of(dest.as_str());
    let target = if parent.as_str().is_empty() {
        String::from_str("/?open=").concat(url_encode_simple(dest.as_str()).as_str())
    } else {
        String::from_str("/?open=").concat(url_encode_simple(parent.as_str()).as_str())
    };
    Ok(MixSavePlan { mix: MixPlan { a, b, split }, dest, target })
}

/// A version of an object, and where to go afterwards.
#[derive(Debug)]
pub struct VersionPlan {
    pub name: String,
    pub id: String,
    pub return_to: String,
}

/// Whether `r` is what comes of a form about a version: `name` and `id` tell which.
pub open spec fn is_version_plan(body: Seq<char>, r: Result<VersionPlan, Reply>) -> bool {
    match (field_text(body, "name"@), field_text(body, "id"@)) {
        (None, _) => refuses(r, bad("missing 'name'"@)),
        (Some(_), None) => refuses(r, bad("missing 'id'"@)),
        (Some(n), Some(i)) => r matches Ok(p) && p.name@ == n && p.id@ == i && p.return_to@ == (
        match field_text(body, "return_to"@) {
            Some(t) => t,
            None => "/versions/"@ + url_text(encode_utf8(n)),
        }),
    }
}

/// The form that restores a version.
pub fn restore_version_form(body: &str) -> (r: Result<VersionPlan, Reply>)
    ensures
        is_version_plan(body@, r),
{
    let name = match parse_urlencoded_field(body, "name") {
        Some(n) => n,
        None => {
            return Err(bad_request("missing 'name'"));
        },
    };
    let id = match parse_urlencoded_field(body, "id") {
        Some(n) => n,
        None => {
            return Err(bad_request("missing 'id'"));
        },
    };
    let return_to = match parse_urlencoded_field(body, "return_to") {
        Some(t) => t,
        None => String::from_str("/versions/").concat(url_encode_simple(name.as_str()).as_str()),
    };
    Ok(VersionPlan { name, id, return_to })
}

/// The form that deletes a version.
pub fn delete_version_form(body: &str) -> (r: Result<VersionPlan, Reply>)
    ensures
        is_version_plan(body@, r),
{
    restore_version_form(body)
}

/// The form that switches a node off or on: field `i` is its number.
pub fn toggle_node(body: &[u8]) -> (r: Result<usize, Reply>)
    ensures
        match from_utf8(body@) {
            None => refuses(r, bad("non-utf8 body"@)),
            Some(b) => match field_number(b, "i"@, usize::MAX as nat) {
                Some(n) => r matches Ok(i) && i == n,
                None => refuses(r, bad("missing or bad field i"@)),
            },
        },
{
    let b = match body_text(body) {
        Ok(b) => b,
        Err(p) => {
            return Err(p);
        },
    };
    match numeric_field(b.as_str(), "i", usize::MAX as u64) {
        Some(n) => Ok(n as usize),
        None => Err(bad_request("missing or bad field i")),
    }
}

/// The form that adds a node: its address, and its zone, 0 where that is not a number.
pub fn admin_add_node(body: &[u8]) -> (r: Result<(String, u8), Reply>)
    ensures
        match from_utf8(body@) {
            None => refuses(r, bad("non-utf8 body"@)),
            Some(b) => {
                let addr = field_or_empty(b, "addr"@);
                if addr.len() == 0 {
                    refuses(r, bad("missing field addr"@))
                } else {
                    r matches Ok(p) && p.0@ == addr && p.1 == match number(
                        field_or_empty(b, "zone"@),
                        255,
                    ) {
                        Some(n) => n,
                        None => 0,
                    }
                }
            },
        },
{
    let b = match body_text(body) {
        Ok(b) => b,
        Err(p) => {
            return Err(p);
        },
    };
    let addr = optional_field(b.as_str(), "addr");
    let zone_text = optional_field(b.as_str(), "zone");
    if addr.as_str().is_empty() {
        return Err(bad_request("missing field addr"));
    }
    let z = chars_of(zone_text.as_str());
    let zone: u8 = match parse_number(z.as_slice(), 255) {
        Some(n) => n as u8,
        None => 0,
    };
    Ok((addr, zone))
}

/// `s` with a backslash before every quotation mark.
pub open spec fn quotes_escaped(s: Seq<char>) -> Seq<char>
    decreases s.len(),
{
    if s.len() == 0 {
        s
    } else {
        quotes_escaped(s.drop_last()) + (if s.last() == '"' {
            seq!['\\', '"']
        } else {
            seq![s.last()]
        })
    }
}

/// `s` with a backslash before every quotation mark.
pub fn escape_quotes(s: &str) -> (r: String)
    ensures
        r@ == quotes_escaped(s@),
{
    let v = chars_of(s);
    let mut out = String::new();
    let mut i: usize = 0;
    assert(v@.take(0) =~= Seq::<char>::empty());
    while i < v.len()
        invariant
            0 <= i <= v@.len(),
            v@ == s@,
            out@ == quotes_escaped(v@.take(i as int)),
        decreases v@.len() - i,
    {
        let ghost before = out@;
        if v[i] == '"' {
            out.push('\\');
        }
        out.push(v[i]);
        proof {
            let t = v@.take(i + 1);
            assert(t.drop_last() =~= v@.take(i as int));
            assert(out@ =~= quotes_escaped(t));
        }
        i += 1;
    }
    assert(v@.take(i as int) =~= v@);
    out
}

/// What the adding of a node did, in JSON.
pub fn add_node_json(addr: &str, zone: u8, rebalanced: u64, failed: u64) -> (r: String)
    ensures
        r@ == "{\"addr\":\""@ + quotes_escaped(addr@) + "\",\"zone\":"@ + dec(zone as nat)
            + ",\"objects_rebalanced\":"@ + dec(rebalanced as nat) + ",\"objects_failed\":"@ + dec(
            failed as nat,
        )
            + ",\"warning\":\"gateway ClusterInfo.node_addrs unchanged — restart the gateway with the new whitelist to bring the cluster topology into agreement\"}"@,
{
    String::from_str("{\"addr\":\"").concat(escape_quotes(addr).as_str()).concat(
        "\",\"zone\":",
    ).concat(dec_string(zone as u64).as_str()).concat(",\"objects_rebalanced\":").concat(
        dec_string(rebalanced).as_str(),
    ).concat(",\"objects_failed\":").concat(dec_string(failed).as_str()).concat(
        ",\"warning\":\"gateway ClusterInfo.node_addrs unchanged — restart the gateway with the new whitelist to bring the cluster topology into agreement\"}",
    )
}

/// Which shard of an object is meant by `channel_layer_index`, with or without `.png`.
pub fn get_shard_png(c_l_idx: &str) -> (r: Result<(u8, u8, u32), Reply>)
    ensures
        ({
            let p = split(trim_end_str(c_l_idx@, ".png"@), '_');
            if p.len() != 3 {
                refuses(r, bad("bad c_l_idx"@))
            } else {
                match (number(p[0], 255), number(p[1], 255), number(p[2], u32::MAX as nat)) {
                    (None, _, _) => refuses(r, bad("bad channel"@)),
                    (Some(_), None, _) => refuses(r, bad("bad layer"@)),
                    (Some(_), Some(_), None) => refuses(r, bad("bad idx"@)),
                    (Some(c), Some(l), Some(i)) => r matches Ok(t) && t.0 == c && t.1 == l && t.2 == i,
                }
            }
        }),
{
    proof {
        reveal_strlit(".png");
    }
    let v = chars_of(c_l_idx);
    let t = trimmed_end_str(v.as_slice(), ".png");
    let parts = split_on(t, '_');
    let ghost p = split(t@, '_');
    assert(deep(parts@).len() == parts@.len());
    if parts.len() != 3 {
        return Err(bad_request("bad c_l_idx"));
    }
    assert(p[0] == parts@[0]@ && p[1] == parts@[1]@ && p[2] == parts@[2]@);
    let c: u8 = match parse_number(parts[0].as_slice(), 255) {
        Some(n) => n as u8,
        None => {
            return Err(bad_request("bad channel"));
        },
    };
    let l: u8 = match parse_number(parts[1].as_slice(), 255) {
        Some(n) => n as u8,
        None => {
            return Err(bad_request("bad layer"));
        },
    };
    let idx: u32 = match parse_number(parts[2].as_slice(), u32::MAX as u64) {
        Some(n) => n as u32,
        None => {
            return Err(bad_request("bad idx"));
        },
    };
    Ok((c, l, idx))
}

/// Which share of which escrow is meant by `id_index`, with or without `.holoshare`.
pub fn escrow_download(path: &str) -> (r: Result<(String, usize), Reply>)
    ensures
        ({
            let stem = trim_end_str(path@, ".holoshare"@);
            if rfind(stem, '_') < 0 {
                refuses(r, bad("bad escrow download path"@))
            } else {
                match number(after_last(stem, '_'), usize::MAX as nat) {
                    None => refuses(r, bad("bad share index"@)),
                    Some(n) => r matches Ok(p) && p.0@ == before_last(stem, '_') && p.1 == n,
                }
            }
        }),
{
    proof {
        reveal_strlit(".holoshare");
    }
    let v = chars_of(path);
    let stem = trimmed_end_str(v.as_slice(), ".holoshare");
    if rfind_char(stem, '_').is_none() {
        return Err(bad_request("bad escrow download path"));
    }
    match parse_number(behind_last(stem, '_'), usize::MAX as u64) {
        Some(n) => Ok((string_of(ahead_of_last(stem, '_')), n as usize)),
        None => Err(bad_request("bad share index")),
    }
}

/// The reply where a share could not be had. Shares live in memory only, so that one that is
/// not there was lost when the gateway was restarted.
pub fn escrow_error_response(e: &GatewayError) -> (r: Reply)
    ensures
        r@ == if *e is NotFound {
            text_answer(
                410,
                "text/plain"@,
                "escrow gone (gateway restarted — split the file again)"@,
            )
        } else {
            text_answer(error_status(*e), "text/plain"@, error_text(*e))
        },
{
    match e {
        GatewayError::NotFound => text_reply(
            410,
            "text/plain",
            "escrow gone (gateway restarted — split the file again)",
        ),
        _ => error_to_response(e),
    }
}

/// The number that the bytes of a form field spell.
pub open spec fn form_number(b: Seq<u8>) -> Option<nat> {
    match from_utf8(b) {
        Some(t) => number(trim(t), usize::MAX as nat),
        None => None,
    }
}

/// The number that the bytes of a form field spell.
pub fn parse_form_usize(bytes: &[u8]) -> (r: Option<usize>)
    ensures
        match r {
            Some(n) => form_number(bytes@) == Some(n as nat),
            None => form_number(bytes@) is None,
        },
{
    match text_from_utf8(crate::bytes::copy(bytes)) {
        Some(t) => {
            let v = chars_of(t.as_str());
            match parse_number(trimmed(v.as_slice()), usize::MAX as u64) {
                Some(n) => Some(n as usize),
                None => None,
            }
        },
        None => None,
    }
}

/// The fields of the form that splits a file into shares, as far as they have come.
#[derive(Debug)]
pub struct EscrowForm {
    pub file: Option<Vec<u8>>,
    pub filename: String,
    pub k: usize,
    pub n: usize,
    pub lang: String,
}

impl EscrowForm {
    /// No field yet: three of five shares, in English.
    pub fn new() -> (r: EscrowForm)
        ensures
            r.file is None,
            r.filename@ == "secret.bin"@,
            r.k == 3,
            r.n == 5,
            r.lang@ == "en"@,
    {
        EscrowForm {
            file: None,
            filename: String::from_str("secret.bin"),
            k: 3,
            n: 5,
            lang: String::from_str("en"),
        }
    }

    /// Takes a field: the file with its name, how many shares there are to be and how many
    /// are needed, or the language, where there are pages in it. A field that makes no sense
    /// changes nothing.
    pub fn on_field(&mut self, name: &str, filename: Option<&str>, bytes: Vec<u8>)
        ensures
            if name@ == "file"@ {
                &&& final(self).file matches Some(f) && f@ == bytes@
                &&& final(self).filename@ == (match filename {
                    Some(f) => if f@.len() > 0 {
                        f@
                    } else {
                        old(self).filename@
                    },
                    None => old(self).filename@,
                })
                &&& final(self).k == old(self).k && final(self).n == old(self).n
                &&& final(self).lang == old(self).lang
            } else {
                &&& final(self).file == old(self).file
                &&& final(self).filename == old(self).filename
                &&& final(self).k == if name@ == "k"@ && form_number(bytes@) is Some {
                    form_number(bytes@)->0
                } else {
                    old(self).k as nat
                }
                &&& final(self).n == if name@ == "n"@ && form_number(bytes@) is Some {
                    form_number(bytes@)->0
                } else {
                    old(self).n as nat
                }
                &&& final(self).lang@ == (if name@ == "lang"@ && from_utf8(bytes@) is Some
                    && crate::help::is_locale(trim(from_utf8(bytes@)->0)) {
                    trim(from_utf8(bytes@)->0)
                } else {
                    old(self).lang@
                })
            },
    {
        proof {
            reveal_strlit("file");
            reveal_strlit("k");
            reveal_strlit("n");
            reveal_strlit("lang");
            assert("k"@[0] != "n"@[0]);
            assert("file"@[0] != "lang"@[0]);
        }
        if same_text(name, "file") {
            match filename {
                Some(f) => {
                    if !f.is_empty() {
                        self.filename = String::from_str(f);
                    }
                },
                None => {},
            }
            self.file = Some(bytes);
        } else if same_text(name, "k") {
            match parse_form_usize(bytes.as_slice()) {
                Some(v) => {
                    self.k = v;
                },
                None => {},
            }
        } else if same_text(name, "n") {
            match parse_form_usize(bytes.as_slice()) {
                Some(v) => {
                    self.n = v;
                },
                None => {},
            }
        } else if same_text(name, "lang") {
            match text_from_utf8(bytes) {
                Some(t) => {
                    let v = chars_of(t.as_str());
                    let l = string_of(trimmed(v.as_slice()));
                    if crate::help::is_supported_locale(l.as_str()) {
                        self.lang = l;
                    }
                },
                None => {},
            }
        }
    }

    /// The file to be split, or the reply where the form had none.
    pub fn finish(self) -> (r: Result<EscrowForm, Reply>)
        ensures
            if self.file is Some {
                r matches Ok(f) && f == self
            } else {
                refuses(r, bad("no file field"@))
            },
    {
        if self.file.is_none() {
            return Err(bad_request("no file field"));
        }
        Ok(self)
    }
}

/// Whether a field of the form that puts shares together is a share.
pub fn is_share_field(name: &str, bytes: &[u8]) -> (r: bool)
    ensures
        r == (name@ == "shares"@ && bytes@.len() > 0),
{
    same_text(name, "shares") && bytes.len() > 0
}

/// The fields of the form that uploads a file, as far as they have come.
#[derive(Debug)]
pub struct UploadForm {
    pub parent: String,
    pub name_override: Option<String>,
    pub file: Option<Vec<u8>>,
    pub original_filename: Option<String>,
    pub return_to: String,
}

/// A file to be stored, and where to go afterwards.
#[derive(Debug)]
pub struct UploadPlan {
    pub path: String,
    pub target: String,
    pub body: Vec<u8>,
}

/// A text without the white space around it.
fn trimmed_string(s: &str) -> (r: String)
    ensures
        r@ == trim(s@),
{
    let v = chars_of(s);
    string_of(trimmed(v.as_slice()))
}

impl UploadForm {
    /// No field yet.
    pub fn new() -> (r: UploadForm)
        ensures
            r.parent@ == Seq::<char>::empty(),
            r.name_override is None,
            r.file is None,
            r.original_filename is None,
            r.return_to@ == Seq::<char>::empty(),
    {
        UploadForm {
            parent: String::new(),
            name_override: None,
            file: None,
            original_filename: None,
            return_to: String::new(),
        }
    }

    /// Takes a field: the directory, another name for the file, the file, or where to go
    /// afterwards. Any other field changes nothing.
    pub fn on_field(&mut self, name: &str, filename: Option<&str>, bytes: Vec<u8>)
        ensures
            final(self).parent@ == if name@ == "parent"@ {
                utf8_lossy(bytes@)
            } else {
                old(self).parent@
            },
            opt_text(final(self).name_override) == if name@ == "name"@ && trim(utf8_lossy(bytes@)).len()
                > 0 {
                Some(trim(utf8_lossy(bytes@)))
            } else {
                opt_text(old(self).name_override)
            },
            if name@ == "file"@ {
                &&& final(self).file matches Some(f) && f@ == bytes@
                &&& opt_text(final(self).original_filename) == match filename {
                    Some(f) => if f@.len() > 0 {
                        Some(f@)
                    } else {
                        None
                    },
                    None => None,
                }
            } else {
                &&& final(self).file == old(self).file
                &&& final(self).original_filename == old(self).original_filename
            },
            final(self).return_to@ == if name@ == "return_to"@ {
                trim(utf8_lossy(bytes@))
            } else {
                old(self).return_to@
            },
    {
        proof {
            reveal_strlit("parent");
            reveal_strlit("name");
            reveal_strlit("file");
            reveal_strlit("return_to");
            assert("name"@[0] != "file"@[0]);
            assert("return_to"@.len() == 9 && "parent"@.len() == 6);
            assert("name"@.len() == 4 && "file"@.len() == 4);
        }
        if same_text(name, "parent") {
            self.parent = utf8_text_lossy(bytes.as_slice());
        } else if same_text(name, "name") {
            let t = utf8_text_lossy(bytes.as_slice());
            let s = trimmed_string(t.as_str());
            if !s.as_str().is_empty() {
                self.name_override = Some(s);
            }
        } else if same_text(name, "file") {
            self.original_filename = match filename {
                Some(f) => if f.is_empty() {
                    None
                } else {
                    Some(String::from_str(f))
                },
                None => None,
            };
            self.file = Some(bytes);
        } else if same_text(name, "return_to") {
            let t = utf8_text_lossy(bytes.as_slice());
            self.return_to = trimmed_string(t.as_str());
        }
    }

    /// The file to be stored, or the reply where the form had none, or an empty one, or gives
    /// a name that cannot be. The other name counts before the file's own.
    pub fn finish(self) -> (r: Result<UploadPlan, Reply>)
        ensures
            match self.file {
                None => refuses(r, bad("no file field"@)),
                Some(f) => if f@.len() == 0 {
                    refuses(r, bad("empty file"@))
                } else {
                    let leaf = match (opt_text(self.name_override), opt_text(self.original_filename)) {
                        (Some(n), _) => n,
                        (None, Some(n)) => n,
                        (None, None) => "uploaded.bin"@,
                    };
                    let path = joined_path(self.parent@, leaf);
                    if !may_be_put(path) {
                        refuses(r, bad("reserved or empty top segment"@))
                    } else {
                        r matches Ok(p) && p.path@ == path && p.body@ == f@ && p.target@
                            == return_target(self.return_to@, self.parent@)
                    }
                },
            },
    {
        let body = match self.file {
            Some(f) => f,
            None => {
                return Err(bad_request("no file field"));
            },
        };
        if body.len() == 0 {
            return Err(bad_request("empty file"));
        }
        let leaf = match self.name_override {
            Some(n) => n,
            None => match self.original_filename {
                Some(n) => n,
                None => String::from_str("uploaded.bin"),
            },
        };
        let path = join_path(self.parent.as_str(), leaf.as_str());
        match check_path(path.as_str()) {
            Err(p) => {
                return Err(p);
            },
            Ok(()) => {},
        }
        let target = pick_return_to(self.return_to.as_str(), self.parent.as_str());
        Ok(UploadPlan { path, target, body })
    }
}

/// The longest body of an upload: from the setting, or a gibibyte.
pub fn upload_max_size(env: &Option<String>) -> (r: u64)
    ensures
        r == crate::node_config::number_or(*env, 1_073_741_824),
{
    crate::node_config::env_number(env, 1_073_741_824)
}

/// The name of the file that takes an upload: no two of one process are the same.
pub fn upload_tmp_name(pid: u32, n: u64) -> (r: String)
    ensures
        r@ == "upload-"@ + dec(pid as nat) + "-"@ + dec(n as nat) + ".tmp"@,
{
    String::from_str("upload-").concat(dec_string(pid as u64).as_str()).concat("-").concat(
        dec_string(n).as_str(),
    ).concat(".tmp")
}

/// Whether there can be an object under a name; else the reply.
pub fn check_get_name(name: &str) -> (r: Result<(), Reply>)
    ensures
        if may_be_put(name@) {
            r is Ok
        } else {
            refuses(r, text_answer(404, "text/plain"@, "not found"@))
        },
{
    if is_reserved_name(name) {
        Err(not_found())
    } else {
        Ok(())
    }
}

/// A body that comes in pieces, and how much of it there may be.
#[derive(Debug, Clone, Copy, PartialEq, Eq, Structural)]
pub struct UploadMeter {
    pub written: u64,
    pub max: u64,
}

impl UploadMeter {
    /// No more than the limit has come.
    pub open spec fn wf(self) -> bool {
        self.written <= self.max
    }

    /// Nothing has come yet.
    pub fn new(max: u64) -> (r: UploadMeter)
        ensures
            r.wf(),
            r.written == 0,
            r.max == max,
    {
        UploadMeter { written: 0, max }
    }

    /// Takes a piece, or refuses it where the body would become too long.
    pub fn on_chunk(&mut self, n: u64) -> (r: Result<(), Reply>)
        requires
            old(self).wf(),
        ensures
            final(self).wf(),
            final(self).max == old(self).max,
            if old(self).written + n <= old(self).max {
                r is Ok && final(self).written == old(self).written + n
            } else {
                &&& *final(self) == *old(self)
                &&& refuses(
                    r,
                    text_answer(
                        413,
                        "text/plain; charset=utf-8"@,
                        "upload exceeds cap of "@ + dec(old(self).max as nat)
                            + " bytes (HOLOFS_UPLOAD_MAX_SIZE)"@,
                    ),
                )
            },
    {
        if n > self.max - self.written {
            let t = String::from_str("upload exceeds cap of ").concat(
                dec_string(self.max).as_str(),
            ).concat(" bytes (HOLOFS_UPLOAD_MAX_SIZE)");
            return Err(text_reply(413, "text/plain; charset=utf-8", t.as_str()));
        }
        self.written = self.written + n;
        Ok(())
    }
}

/// Whether an object may be put under a name; else the reply.
pub fn check_put_name(name: &str) -> (r: Result<(), Reply>)
    ensures
        if may_be_put(name@) {
            r is Ok
        } else {
            refuses(
                r,
                text_answer(
                    400,
                    "text/plain; charset=utf-8"@,
                    "name must be a single segment, not health-*"@,
                ),
            )
        },
{
    if is_valid_put_name(name) {
        Ok(())
    } else {
        Err(
            text_reply(
                400,
                "text/plain; charset=utf-8",
                "name must be a single segment, not health-*",
            ),
        )
    }
}

/// What an orphan sweep did on one node.
#[derive(Debug)]
pub struct NodeGc {
    pub node_idx: u64,
    pub node_addr: String,
    pub held: u64,
    pub orphaned: u64,
    pub ok: bool,
    pub error: Option<String>,
}

/// What an orphan sweep did.
#[derive(Debug)]
pub struct GcReport {
    pub live_hashes: u64,
    pub manifests_scanned: u64,
    pub held_total: u64,
    pub purged_total: u64,
    pub embeddings_kept: Option<u64>,
    pub embeddings_dropped: Option<u64>,
    pub duration_ms: u64,
    pub nodes: Vec<NodeGc>,
}

/// A number in JSON; `null` for none.
pub open spec fn or_null(n: Option<u64>) -> Seq<char> {
    match n {
        Some(x) => dec(x as nat),
        None => "null"@,
    }
}

fn number_or_null(n: Option<u64>) -> (r: String)
    ensures
        r@ == or_null(n),
{
    match n {
        Some(x) => dec_string(x),
        None => String::from_str("null"),
    }
}

/// What an orphan sweep did on one node, in JSON.
pub open spec fn node_gc_json(n: NodeGc) -> Seq<char> {
    "{\"idx\":"@ + dec(n.node_idx as nat) + ",\"addr\":\""@ + quotes_escaped(n.node_addr@)
        + "\",\"held\":"@ + dec(n.held as nat) + ",\"orphaned\":"@ + dec(n.orphaned as nat)
        + ",\"ok\":"@ + (if n.ok {
        "true"@
    } else {
        "false"@
    }) + (match n.error {
        Some(e) => ",\"error\":\""@ + escaped(e@, false) + "\""@,
        None => Seq::empty(),
    }) + "}"@
}

/// Several of them, with commas between them.
pub open spec fn nodes_gc_json(v: Seq<NodeGc>) -> Seq<char>
    decreases v.len(),
{
    if v.len() == 0 {
        Seq::empty()
    } else {
        nodes_gc_json(v.drop_last()) + (if v.len() > 1 {
            ","@
        } else {
            Seq::empty()
        }) + node_gc_json(v.last())
    }
}

fn node_gc_string(n: &NodeGc) -> (r: String)
    ensures
        r@ == node_gc_json(*n),
{
    let mut t = String::from_str("{\"idx\":").concat(dec_string(n.node_idx).as_str()).concat(
        ",\"addr\":\"",
    ).concat(escape_quotes(n.node_addr.as_str()).as_str()).concat("\",\"held\":").concat(
        dec_string(n.held).as_str(),
    ).concat(",\"orphaned\":").concat(dec_string(n.orphaned).as_str()).concat(",\"ok\":").concat(
        if n.ok {
            "true"
        } else {
            "false"
        },
    );
    match &n.error {
        Some(e) => {
            t.append(",\"error\":\"");
            t.append(json_escape(e.as_str()).as_str());
            t.append("\"");
        },
        None => {},
    }
    t.append("}");
    assert(t@ =~= node_gc_json(*n));
    t
}

/// What an orphan sweep did, in JSON.
pub fn gc_json(rep: &GcReport) -> (r: String)
    ensures
        r@ == "{\"live_hashes\":"@ + dec(rep.live_hashes as nat) + ",\"manifests_scanned\":"@ + dec(
            rep.manifests_scanned as nat,
        ) + ",\"held_total\":"@ + dec(rep.held_total as nat) + ",\"purged_total\":"@ + dec(
            rep.purged_total as nat,
        ) + ",\"embeddings_kept\":"@ + or_null(rep.embeddings_kept) + ",\"embeddings_dropped\":"@
            + or_null(rep.embeddings_dropped) + ",\"duration_ms\":"@ + dec(rep.duration_ms as nat)
            + ",\"nodes\":["@ + nodes_gc_json(rep.nodes@) + "]}"@,
{
    let mut t = String::from_str("{\"live_hashes\":").concat(
        dec_string(rep.live_hashes).as_str(),
    ).concat(",\"manifests_scanned\":").concat(dec_string(rep.manifests_scanned).as_str()).concat(
        ",\"held_total\":",
    ).concat(dec_string(rep.held_total).as_str()).concat(",\"purged_total\":").concat(
        dec_string(rep.purged_total).as_str(),
    ).concat(",\"embeddings_kept\":").concat(number_or_null(rep.embeddings_kept).as_str()).concat(
        ",\"embeddings_dropped\":",
    ).concat(number_or_null(rep.embeddings_dropped).as_str()).concat(",\"duration_ms\":").concat(
        dec_string(rep.duration_ms).as_str(),
    ).concat(",\"nodes\":[");
    let ghost head = t@;
    let mut i: usize = 0;
    assert(t@ =~= head + nodes_gc_json(rep.nodes@.take(0)));
    while i < rep.nodes.len()
        invariant
            0 <= i <= rep.nodes@.len(),
            t@ == head + nodes_gc_json(rep.nodes@.take(i as int)),
        decreases rep.nodes@.len() - i,
    {
        let ghost before = t@;
        if i > 0 {
            t.append(",");
        }
        t.append(node_gc_string(&rep.nodes[i]).as_str());
        proof {
            let u = rep.nodes@.take(i + 1);
            assert(u.drop_last() =~= rep.nodes@.take(i as int));
            assert(u.last() == rep.nodes@[i as int]);
            assert(t@ =~= head + nodes_gc_json(u));
        }
        i += 1;
    }
    assert(rep.nodes@.take(i as int) =~= rep.nodes@);
    t.append("]}");
    t
}

/// An object in the list of all objects.
#[derive(Debug)]
pub struct ListedObject {
    pub name: String,
    pub kind: ObjectKind,
    pub size: u64,
}

/// An object in the list of all objects, in JSON.
pub open spec fn listed_json(o: ListedObject) -> Seq<char> {
    "{\"name\":\""@ + escaped(o.name@, false) + "\",\"kind\":\""@ + kind_name(o.kind) + "\",\"size\":"@
        + dec(o.size as nat) + "}"@
}

/// Several of them, with commas between them.
pub open spec fn all_listed_json(v: Seq<ListedObject>) -> Seq<char>
    decreases v.len(),
{
    if v.len() == 0 {
        Seq::empty()
    } else {
        all_listed_json(v.drop_last()) + (if v.len() > 1 {
            ","@
        } else {
            Seq::empty()
        }) + listed_json(v.last())
    }
}

/// The list of all objects, in JSON.
pub fn catalog_names_json(v: &Vec<ListedObject>) -> (r: String)
    ensures
        r@ == "["@ + all_listed_json(v@) + "]"@,
{
    let mut t = String::from_str("[");
    let ghost head = t@;
    let mut i: usize = 0;
    assert(t@ =~= head + all_listed_json(v@.take(0)));
    while i < v.len()
        invariant
            0 <= i <= v@.len(),
            head == "["@,
            t@ == head + all_listed_json(v@.take(i as int)),
        decreases v@.len() - i,
    {
        let o = &v[i];
        if i > 0 {
            t.append(",");
        }
        let one = String::from_str("{\"name\":\"").concat(
            json_escape(o.name.as_str()).as_str(),
        ).concat("\",\"kind\":\"").concat(kind_label(o.kind)).concat("\",\"size\":").concat(
            dec_string(o.size).as_str(),
        ).concat("}");
        t.append(one.as_str());
        proof {
            let u = v@.take(i + 1);
            assert(u.drop_last() =~= v@.take(i as int));
            assert(u.last() == v@[i as int]);
            assert(one@ == listed_json(*o));
            assert(t@ =~= head + all_listed_json(u));
        }
        i += 1;
    }
    assert(v@.take(i as int) =~= v@);
    t.append("]");
    t
}

/// A search: what for, and how many results at most.
#[derive(Debug)]
pub struct SearchPlan {
    pub q: String,
    pub limit: u64,
    pub band: Option<String>,
}

/// The reply where the search by meaning is switched off.
pub open spec fn embed_off() -> Answer {
    text_answer(
        503,
        "text/plain; charset=utf-8"@,
        "embed feature disabled — start the server with --enable-embed"@,
    )
}

fn embed_off_reply() -> (r: Reply)
    ensures
        r@ == embed_off(),
{
    text_reply(
        503,
        "text/plain; charset=utf-8",
        "embed feature disabled — start the server with --enable-embed",
    )
}

/// What the request to embed all objects is answered: `outcome` is what the gateway made of
/// it, how many are new and how many were skipped, and is there only where that is switched on.
pub fn embed_all(outcome: &Option<Result<(u64, u64), GatewayError>>) -> (r: Reply)
    ensures
        r@ == match *outcome {
            None => embed_off(),
            Some(Ok((new, skipped))) => text_answer(
                200,
                "application/json"@,
                "{\"new\":"@ + dec(new as nat) + ",\"skipped\":"@ + dec(skipped as nat) + "}"@,
            ),
            Some(Err(e)) => text_answer(error_status(e), "text/plain"@, error_text(e)),
        },
{
    match outcome {
        None => embed_off_reply(),
        Some(Ok(p)) => {
            let t = String::from_str("{\"new\":").concat(dec_string(p.0).as_str()).concat(
                ",\"skipped\":",
            ).concat(dec_string(p.1).as_str()).concat("}");
            json_response(200, t.as_str())
        },
        Some(Err(e)) => error_to_response(e),
    }
}

/// The parameters of a search: at most 200 results, 50 where the number is not given.
pub fn semantic_search(query: Option<&str>, embed_enabled: bool) -> (r: Result<SearchPlan, Reply>)
    ensures
        ({
            let plain = "text/plain; charset=utf-8"@;
            match query {
                None => refuses(r, text_answer(400, plain, "missing 'q' query param"@)),
                Some(s) => match field_text(s@, "q"@) {
                    None => refuses(r, text_answer(400, plain, "missing 'q' query param"@)),
                    Some(q) => if trim(q).len() == 0 {
                        refuses(r, text_answer(400, plain, "'q' is empty"@))
                    } else if !embed_enabled {
                        refuses(r, embed_off())
                    } else {
                        &&& r matches Ok(p)
                        &&& r->Ok_0.q@ == q
                        &&& opt_text(r->Ok_0.band) == field_text(s@, "band"@)
                        &&& r->Ok_0.limit == match field_number(s@, "limit"@, usize::MAX as nat) {
                            Some(n) => if n > 200 {
                                200
                            } else {
                                n
                            },
                            None => 50,
                        }
                    },
                },
            }
        }),
{
    let s = match query {
        Some(s) => s,
        None => {
            return Err(text_reply(400, "text/plain; charset=utf-8", "missing 'q' query param"));
        },
    };
    let q = match parse_urlencoded_field(s, "q") {
        Some(q) => q,
        None => {
            return Err(text_reply(400, "text/plain; charset=utf-8", "missing 'q' query param"));
        },
    };
    let v = chars_of(q.as_str());
    if trimmed(v.as_slice()).len() == 0 {
        return Err(text_reply(400, "text/plain; charset=utf-8", "'q' is empty"));
    }
    let limit: u64 = match numeric_field(s, "limit", usize::MAX as u64) {
        Some(n) => if n > 200 {
            200
        } else {
            n
        },
        None => 50,
    };
    if !embed_enabled {
        return Err(embed_off_reply());
    }
    let band = parse_urlencoded_field(s, "band");
    Ok(SearchPlan { q, limit, band })
}

/// Which part of the layers a result comes from.
#[derive(Debug, Clone, Copy, PartialEq, Eq, Structural)]
pub enum SearchBand {
    Coarse,
    Mid,
    Full,
    Any,
}

/// A result of a search; the score as a text with six places.
#[derive(Debug)]
pub struct SearchHit {
    pub name: String,
    pub score: String,
    pub band: SearchBand,
}

/// The name of a band.
pub open spec fn band_name(b: SearchBand) -> Seq<char> {
    match b {
        SearchBand::Coarse => "coarse"@,
        SearchBand::Mid => "mid"@,
        SearchBand::Full => "full"@,
        SearchBand::Any => "any"@,
    }
}

fn band_label(b: SearchBand) -> (r: &'static str)
    ensures
        r@ == band_name(b),
{
    match b {
        SearchBand::Coarse => "coarse",
        SearchBand::Mid => "mid",
        SearchBand::Full => "full",
        SearchBand::Any => "any",
    }
}

/// `s` with a backslash before every backslash and every quotation mark.
pub open spec fn backslashed(s: Seq<char>) -> Seq<char>
    decreases s.len(),
{
    if s.len() == 0 {
        s
    } else {
        backslashed(s.drop_last()) + (if s.last() == '"' || s.last() == '\\' {
            seq!['\\', s.last()]
        } else {
            seq![s.last()]
        })
    }
}

fn escape_backslashes(s: &str) -> (r: String)
    ensures
        r@ == backslashed(s@),
{
    let v = chars_of(s);
    let mut out = String::new();
    let mut i: usize = 0;
    assert(v@.take(0) =~= Seq::<char>::empty());
    assert(out@ =~= backslashed(v@.take(0)));
    while i < v.len()
        invariant
            0 <= i <= v@.len(),
            v@ == s@,
            out@ == backslashed(v@.take(i as int)),
        decreases v@.len() - i,
    {
        if v[i] == '"' || v[i] == '\\' {
            out.push('\\');
        }
        out.push(v[i]);
        proof {
            let t = v@.take(i + 1);
            assert(t.drop_last() =~= v@.take(i as int));
            assert(out@ =~= backslashed(t));
        }
        i += 1;
    }
    assert(v@.take(i as int) =~= v@);
    out
}

/// A result of a search, in JSON.
pub open spec fn hit_json(h: SearchHit) -> Seq<char> {
    "{\"name\":\""@ + backslashed(h.name@) + "\",\"score\":"@ + h.score@ + ",\"band\":\""@
        + band_name(h.band) + "\"}"@
}

/// Several of them, with commas between them.
pub open spec fn hits_json(v: Seq<SearchHit>) -> Seq<char>
    decreases v.len(),
{
    if v.len() == 0 {
        Seq::empty()
    } else {
        hits_json(v.drop_last()) + (if v.len() > 1 {
            ","@
        } else {
            Seq::empty()
        }) + hit_json(v.last())
    }
}

/// The results of a search, in JSON, in the order in which they were found.
pub fn search_json(v: &Vec<SearchHit>) -> (r: String)
    ensures
        r@ == "{\"hits\":["@ + hits_json(v@) + "]}"@,
{
    let mut t = String::from_str("{\"hits\":[");
    let ghost head = t@;
    let mut i: usize = 0;
    assert(t@ =~= head + hits_json(v@.take(0)));
    while i < v.len()
        invariant
            0 <= i <= v@.len(),
            head == "{\"hits\":["@,
            t@ == head + hits_json(v@.take(i as int)),
        decreases v@.len() - i,
    {
        let h = &v[i];
        if i > 0 {
            t.append(",");
        }
        let one = String::from_str("{\"name\":\"").concat(
            escape_backslashes(h.name.as_str()).as_str(),
        ).concat("\",\"score\":").concat(h.score.as_str()).concat(",\"band\":\"").concat(
            band_label(h.band),
        ).concat("\"}");
        t.append(one.as_str());
        proof {
            let u = v@.take(i + 1);
            assert(u.drop_last() =~= v@.take(i as int));
            assert(u.last() == v@[i as int]);
            assert(one@ == hit_json(*h));
            assert(t@ =~= head + hits_json(u));
        }
        i += 1;
    }
    assert(v@.take(i as int) =~= v@);
    t.append("]}");
    t
}

} // verus!
