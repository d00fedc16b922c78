//! Replies to HTTP requests, as plain values.
use vstd::prelude::*;
use vstd::string::StringExecFns;

use crate::catalog_view::pairs;
use crate::health_view::{kind_label, kind_name, ObjectKind};
use crate::json::{escaped, json_escape};
use crate::text::{chars_of, dec, dec_string, pad_left, utf8, utf8_bytes};

verus! {

/// A reply: its status, its headers in order, and its body.
#[derive(Debug)]
pub struct Reply {
    pub status: u16,
    pub headers: Vec<(String, String)>,
    pub body: Vec<u8>,
}

/// A reply as a mathematical value.
pub struct Answer {
    pub status: u16,
    pub headers: Seq<(Seq<char>, Seq<char>)>,
    pub body: Seq<u8>,
}

impl View for Reply {
    type V = Answer;

    open spec fn view(&self) -> Answer {
        Answer { status: self.status, headers: pairs(self.headers@), body: self.body@ }
    }
}

/// A reply with a text.
pub open spec fn text_answer(status: u16, content_type: Seq<char>, text: Seq<char>) -> Answer {
    Answer { status, headers: seq![("content-type"@, content_type)], body: utf8(text) }
}

/// Adds a header.
pub fn push_header(v: &mut Vec<(String, String)>, name: &str, value: &str)
    ensures
        pairs(final(v)@) == pairs(old(v)@).push((name@, value@)),
{
    let ghost before = pairs(v@);
    v.push((String::from_str(name), String::from_str(value)));
    assert(pairs(v@) =~= before.push((name@, value@)));
}

/// A reply with a text.
pub fn text_reply(status: u16, content_type: &str, text: &str) -> (r: Reply)
    ensures
        r@ == text_answer(status, content_type@, text@),
{
    let mut headers: Vec<(String, String)> = Vec::new();
    assert(pairs(headers@) =~= Seq::empty());
    push_header(&mut headers, "content-type", content_type);
    assert(pairs(headers@) =~= seq![("content-type"@, content_type@)]);
    Reply { status, headers, body: crate::bytes::copy(utf8_bytes(text)) }
}

/// The request makes no sense.
pub fn bad_request(msg: &str) -> (r: Reply)
    ensures
        r@ == text_answer(400, "text/plain"@, msg@),
{
    text_reply(400, "text/plain", msg)
}

/// There is no such object.
pub fn not_found() -> (r: Reply)
    ensures
        r@ == text_answer(404, "text/plain"@, "not found"@),
{
    text_reply(404, "text/plain", "not found")
}

/// The object is being encoded; the client should ask again in five seconds.
pub fn encoding_in_progress(name: &str) -> (r: Reply)
    ensures
        r@ == (Answer {
            status: 503,
            headers: seq![("content-type"@, "text/plain"@), ("retry-after"@, "5"@)],
            body: utf8(name@ + ": object is still encoding; retry after 5 s\n"@),
        }),
{
    let text = String::from_str(name).concat(": object is still encoding; retry after 5 s\n");
    let mut r = text_reply(503, "text/plain", text.as_str());
    push_header(&mut r.headers, "retry-after", "5");
    assert(r@.headers =~= seq![("content-type"@, "text/plain"@), ("retry-after"@, "5"@)]);
    r
}

/// The object could not be encoded; the client may put it again.
pub fn encoding_failed(name: &str) -> (r: Reply)
    ensures
        r@ == text_answer(
            404,
            "text/plain"@,
            name@ + ": previous PUT failed to encode; PUT again to replace\n"@,
        ),
{
    let text = String::from_str(name).concat(
        ": previous PUT failed to encode; PUT again to replace\n",
    );
    text_reply(404, "text/plain", text.as_str())
}

/// A reply in JSON.
pub fn json_response(status: u16, body: &str) -> (r: Reply)
    ensures
        r@ == text_answer(status, "application/json"@, body@),
{
    text_reply(status, "application/json", body)
}

/// The client should go on to `target`, or to the root where it is empty.
pub fn redirect_to(target: &str) -> (r: Reply)
    ensures
        r@ == (Answer {
            status: 303,
            headers: seq![
                (
                    "location"@,
                    if target@.len() == 0 {
                        "/"@
                    } else {
                        target@
                    },
                ),
            ],
            body: Seq::empty(),
        }),
{
    let mut headers: Vec<(String, String)> = Vec::new();
    assert(pairs(headers@) =~= Seq::empty());
    if target.is_empty() {
        push_header(&mut headers, "location", "/");
    } else {
        push_header(&mut headers, "location", target);
    }
    let r = Reply { status: 303, headers, body: Vec::new() };
    assert(r@.body =~= Seq::<u8>::empty());
    assert(r@.headers =~= seq![
        (
            "location"@,
            if target@.len() == 0 {
                "/"@
            } else {
                target@
            },
        ),
    ]);
    r
}

/// Why the gateway could not do what was asked.
#[derive(Debug)]
pub enum GatewayError {
    NotFound,
    BadRequest(String),
    Decode(String),
    PreviewUnsupported,
    IsDirectory,
    AlreadyExists,
    NotADirectory,
    DirectoryNotEmpty,
    ClusterDegraded,
    Persist(String),
}

/// The status for an error of the gateway.
pub open spec fn error_status(e: GatewayError) -> u16 {
    match e {
        GatewayError::NotFound | GatewayError::PreviewUnsupported => 404,
        GatewayError::BadRequest(_) => 400,
        GatewayError::Decode(_) | GatewayError::ClusterDegraded => 503,
        GatewayError::IsDirectory | GatewayError::AlreadyExists | GatewayError::NotADirectory
        | GatewayError::DirectoryNotEmpty => 409,
        GatewayError::Persist(_) => 500,
    }
}

/// The text for an error of the gateway.
pub open spec fn error_text(e: GatewayError) -> Seq<char> {
    match e {
        GatewayError::NotFound => "not found"@,
        GatewayError::BadRequest(s) => s@,
        GatewayError::Decode(s) => s@,
        GatewayError::PreviewUnsupported => "preview not supported for this kind"@,
        GatewayError::IsDirectory => "is a directory"@,
        GatewayError::AlreadyExists => "already exists"@,
        GatewayError::NotADirectory => "not a directory"@,
        GatewayError::DirectoryNotEmpty => "directory not empty"@,
        GatewayError::ClusterDegraded => "cluster has no live nodes"@,
        GatewayError::Persist(s) => "catalog persist failed: "@ + s@,
    }
}

/// The reply to an error of the gateway.
pub fn error_to_response(e: &GatewayError) -> (r: Reply)
    ensures
        r@ == text_answer(error_status(*e), "text/plain"@, error_text(*e)),
{
    match e {
        GatewayError::NotFound => text_reply(404, "text/plain", "not found"),
        GatewayError::BadRequest(s) => text_reply(400, "text/plain", s.as_str()),
        GatewayError::Decode(s) => text_reply(503, "text/plain", s.as_str()),
        GatewayError::PreviewUnsupported => text_reply(
            404,
            "text/plain",
            "preview not supported for this kind",
        ),
        GatewayError::IsDirectory => text_reply(409, "text/plain", "is a directory"),
        GatewayError::AlreadyExists => text_reply(409, "text/plain", "already exists"),
        GatewayError::NotADirectory => text_reply(409, "text/plain", "not a directory"),
        GatewayError::DirectoryNotEmpty => text_reply(409, "text/plain", "directory not empty"),
        GatewayError::ClusterDegraded => text_reply(503, "text/plain", "cluster has no live nodes"),
        GatewayError::Persist(s) => {
            let t = String::from_str("catalog persist failed: ").concat(s.as_str());
            text_reply(500, "text/plain", t.as_str())
        },
    }
}

/// An object as it is served.
#[derive(Debug)]
pub struct DecodedObject {
    pub bytes: Vec<u8>,
    pub content_type: String,
    pub kind: ObjectKind,
    pub bytes_downloaded: u64,
    pub decode_ms: u64,
    pub max_layer: Option<u8>,
    pub sample_rate: Option<u32>,
    pub channels: Option<u8>,
    pub chunks_total: Option<u64>,
    pub chunks_missing: Option<u64>,
    pub filename_for_disposition: Option<String>,
}

/// A range of bytes, both ends included.
#[derive(Debug, Clone, Copy, PartialEq, Eq, Structural)]
pub struct ByteRange {
    pub start: u64,
    pub end_inclusive: u64,
}

/// What the `Range` header of a request asks for.
#[derive(Debug, Clone, Copy, PartialEq, Eq, Structural)]
pub enum RangeOutcome {
    NoRange,
    Range(ByteRange),
    Unsatisfiable,
    Multiple,
    Malformed,
}

/// `s` without quotation marks.
pub open spec fn unquoted(s: Seq<char>) -> Seq<char>
    decreases s.len(),
{
    if s.len() == 0 {
        s
    } else if s.last() == '"' {
        unquoted(s.drop_last())
    } else {
        unquoted(s.drop_last()).push(s.last())
    }
}

/// `s` without quotation marks.
pub fn without_quotes(s: &str) -> (r: String)
    ensures
        r@ == unquoted(s@),
{
    let v = chars_of(s);
    let mut out = String::new();
    let mut i: usize = 0;
    assert(v@.take(0) =~= Seq::<char>::empty());
    while i < v.len()
        invariant
            0 <= i <= v@.len(),
            v@ == s@,
            out@ == unquoted(v@.take(i as int)),
        decreases v@.len() - i,
    {
        assert(v@.take(i + 1).drop_last() =~= v@.take(i as int));
        if v[i] != '"' {
            out.push(v[i]);
        }
        i += 1;
    }
    assert(v@.take(i as int) =~= v@);
    out
}

/// The header that names the file for a download.
pub open spec fn attachment(filename: Seq<char>) -> Seq<char> {
    "attachment; filename=\""@ + unquoted(filename) + "\""@
}

/// A header that is there for a number.
pub open spec fn number_header(name: Seq<char>, n: Option<nat>) -> Seq<(Seq<char>, Seq<char>)> {
    match n {
        Some(x) => seq![(name, dec(x))],
        None => Seq::empty(),
    }
}

/// The headers about an object that a whole reply and a partial one share, up to the kind
/// and what follows it.
pub open spec fn object_headers(o: DecodedObject) -> Seq<(Seq<char>, Seq<char>)> {
    seq![
        ("x-holofs-kind"@, kind_name(o.kind)),
        ("x-holofs-bytes-downloaded"@, dec(o.bytes_downloaded as nat)),
        ("x-holofs-decode-ms"@, dec(o.decode_ms as nat)),
    ] + (match o.max_layer {
        Some(l) => seq![("x-holofs-layers"@, "0-"@ + dec(l as nat))],
        None => Seq::empty(),
    }) + number_header(
        "x-holofs-sample-rate"@,
        match o.sample_rate {
            Some(x) => Some(x as nat),
            None => None,
        },
    ) + number_header(
        "x-holofs-channels"@,
        match o.channels {
            Some(x) => Some(x as nat),
            None => None,
        },
    )
}

/// The headers at the end of a reply with an object: images may be kept for an hour, and a
/// download has a file name.
pub open spec fn closing_headers(o: DecodedObject) -> Seq<(Seq<char>, Seq<char>)> {
    (if o.kind == ObjectKind::Image {
        seq![("cache-control"@, "public, max-age=3600"@)]
    } else {
        Seq::empty()
    }) + (match o.filename_for_disposition {
        Some(f) => seq![("content-disposition"@, attachment(f@))],
        None => Seq::empty(),
    })
}

/// The headers about the chunks of an object.
pub open spec fn chunk_headers(o: DecodedObject) -> Seq<(Seq<char>, Seq<char>)> {
    number_header(
        "x-holofs-chunks-total"@,
        match o.chunks_total {
            Some(x) => Some(x as nat),
            None => None,
        },
    ) + number_header(
        "x-holofs-chunks-missing"@,
        match o.chunks_missing {
            Some(x) => Some(x as nat),
            None => None,
        },
    )
}

/// The reply with a whole object.
pub open spec fn whole_answer(o: DecodedObject) -> Answer {
    Answer {
        status: 200,
        headers: seq![
            ("content-type"@, o.content_type@),
            ("content-length"@, dec(o.bytes@.len())),
            ("accept-ranges"@, "bytes"@),
        ] + object_headers(o) + chunk_headers(o) + closing_headers(o),
        body: o.bytes@,
    }
}

/// The reply with part of an object.
pub open spec fn partial_answer(o: DecodedObject, r: ByteRange) -> Answer {
    Answer {
        status: 206,
        headers: seq![
            ("content-type"@, o.content_type@),
            ("content-length"@, dec((r.end_inclusive - r.start + 1) as nat)),
            ("accept-ranges"@, "bytes"@),
            (
                "content-range"@,
                "bytes "@ + dec(r.start as nat) + "-"@ + dec(r.end_inclusive as nat) + "/"@ + dec(
                    o.bytes@.len(),
                ),
            ),
        ] + object_headers(o) + closing_headers(o),
        body: o.bytes@.subrange(r.start as int, r.end_inclusive + 1),
    }
}

/// The reply to a range that an object of this length does not have.
pub open spec fn unsatisfiable_answer(total: u64) -> Answer {
    Answer {
        status: 416,
        headers: seq![
            ("content-type"@, "text/plain"@),
            ("accept-ranges"@, "bytes"@),
            ("content-range"@, "bytes */"@ + dec(total as nat)),
        ],
        body: utf8("range not satisfiable"@),
    }
}

/// Adds the headers about an object.
fn push_object_headers(v: &mut Vec<(String, String)>, o: &DecodedObject)
    ensures
        pairs(final(v)@) == pairs(old(v)@) + object_headers(*o),
{
    let ghost before = pairs(v@);
    push_header(v, "x-holofs-kind", kind_label(o.kind));
    push_header(v, "x-holofs-bytes-downloaded", dec_string(o.bytes_downloaded).as_str());
    push_header(v, "x-holofs-decode-ms", dec_string(o.decode_ms).as_str());
    match o.max_layer {
        Some(l) => {
            let t = String::from_str("0-").concat(dec_string(l as u64).as_str());
            push_header(v, "x-holofs-layers", t.as_str());
        },
        None => {},
    }
    match o.sample_rate {
        Some(x) => push_header(v, "x-holofs-sample-rate", dec_string(x as u64).as_str()),
        None => {},
    }
    match o.channels {
        Some(x) => push_header(v, "x-holofs-channels", dec_string(x as u64).as_str()),
        None => {},
    }
    assert(pairs(v@) =~= before + object_headers(*o));
}

/// Adds the headers at the end of a reply with an object.
fn push_closing_headers(v: &mut Vec<(String, String)>, o: &DecodedObject)
    ensures
        pairs(final(v)@) == pairs(old(v)@) + closing_headers(*o),
{
    let ghost before = pairs(v@);
    match o.kind {
        ObjectKind::Image => push_header(v, "cache-control", "public, max-age=3600"),
        _ => {},
    }
    match &o.filename_for_disposition {
        Some(f) => {
            let t = String::from_str("attachment; filename=\"").concat(
                without_quotes(f.as_str()).as_str(),
            ).concat("\"");
            push_header(v, "content-disposition", t.as_str());
        },
        None => {},
    }
    assert(pairs(v@) =~= before + closing_headers(*o));
}

/// The reply with a whole object.
pub fn decoded_to_response(o: DecodedObject) -> (r: Reply)
    ensures
        r@ == whole_answer(o),
{
    let mut h: Vec<(String, String)> = Vec::new();
    assert(pairs(h@) =~= Seq::empty());
    push_header(&mut h, "content-type", o.content_type.as_str());
    push_header(&mut h, "content-length", dec_string(o.bytes.len() as u64).as_str());
    push_header(&mut h, "accept-ranges", "bytes");
    push_object_headers(&mut h, &o);
    match o.chunks_total {
        Some(x) => push_header(&mut h, "x-holofs-chunks-total", dec_string(x).as_str()),
        None => {},
    }
    match o.chunks_missing {
        Some(x) => push_header(&mut h, "x-holofs-chunks-missing", dec_string(x).as_str()),
        None => {},
    }
    push_closing_headers(&mut h, &o);
    assert(pairs(h@) =~= whole_answer(o).headers);
    Reply { status: 200, headers: h, body: o.bytes }
}

/// The reply with part of an object.
pub fn partial_response(o: DecodedObject, range: ByteRange) -> (r: Reply)
    requires
        range.start <= range.end_inclusive < o.bytes@.len(),
    ensures
        r@ == partial_answer(o, range),
{
    let total: usize = o.bytes.len();
    let start: usize = range.start as usize;
    let end: usize = range.end_inclusive as usize;
    let body = crate::bytes::copy_range(o.bytes.as_slice(), start, end + 1);
    let mut h: Vec<(String, String)> = Vec::new();
    assert(pairs(h@) =~= Seq::empty());
    push_header(&mut h, "content-type", o.content_type.as_str());
    push_header(&mut h, "content-length", dec_string(body.len() as u64).as_str());
    push_header(&mut h, "accept-ranges", "bytes");
    let cr = String::from_str("bytes ").concat(dec_string(range.start).as_str()).concat("-").concat(
        dec_string(range.end_inclusive).as_str(),
    ).concat("/").concat(dec_string(total as u64).as_str());
    push_header(&mut h, "content-range", cr.as_str());
    push_object_headers(&mut h, &o);
    push_closing_headers(&mut h, &o);
    assert(pairs(h@) =~= partial_answer(o, range).headers);
    Reply { status: 206, headers: h, body }
}

/// The reply to a range that an object of this length does not have.
pub fn unsatisfiable_response(total: u64) -> (r: Reply)
    ensures
        r@ == unsatisfiable_answer(total),
{
    let mut r = text_reply(416, "text/plain", "range not satisfiable");
    push_header(&mut r.headers, "accept-ranges", "bytes");
    let t = String::from_str("bytes */").concat(dec_string(total).as_str());
    push_header(&mut r.headers, "content-range", t.as_str());
    assert(r@.headers =~= unsatisfiable_answer(total).headers);
    r
}

/// The reply with an object, or with the part of it that the request asks for. Several
/// ranges, or a header that makes no sense, ask for the whole.
pub fn serve_with_range(o: DecodedObject, outcome: RangeOutcome) -> (r: Reply)
    requires
        outcome matches RangeOutcome::Range(g) ==> g.start <= g.end_inclusive < o.bytes@.len(),
    ensures
        r@ == match outcome {
            RangeOutcome::NoRange | RangeOutcome::Multiple | RangeOutcome::Malformed => whole_answer(o),
            RangeOutcome::Range(g) => partial_answer(o, g),
            RangeOutcome::Unsatisfiable => unsatisfiable_answer(o.bytes@.len() as u64),
        },
{
    match outcome {
        RangeOutcome::NoRange => decoded_to_response(o),
        RangeOutcome::Multiple => decoded_to_response(o),
        RangeOutcome::Malformed => decoded_to_response(o),
        RangeOutcome::Range(g) => partial_response(o, g),
        RangeOutcome::Unsatisfiable => unsatisfiable_response(o.bytes.len() as u64),
    }
}

/// Replies with adjacent ranges of an object hold adjacent parts of it: put together they
/// are the range from the first to the last.
pub proof fn adjacent_ranges_join(o: DecodedObject, a: u64, b: u64, c: u64)
    requires
        a <= b < c < o.bytes@.len(),
    ensures
        partial_answer(o, ByteRange { start: a, end_inclusive: b }).body + partial_answer(
            o,
            ByteRange { start: (b + 1) as u64, end_inclusive: c },
        ).body == partial_answer(o, ByteRange { start: a, end_inclusive: c }).body,
{
    assert(partial_answer(o, ByteRange { start: a, end_inclusive: b }).body + partial_answer(
        o,
        ByteRange { start: (b + 1) as u64, end_inclusive: c },
    ).body =~= partial_answer(o, ByteRange { start: a, end_inclusive: c }).body);
}

/// A number in sixteen hexadecimal digits.
pub open spec fn hex16(n: u64) -> Seq<char> {
    crate::hex::hex(crate::bytes::be64(n))
}

/// A number in sixteen hexadecimal digits.
pub fn hex16_string(n: u64) -> (r: String)
    ensures
        r@ == hex16(n),
{
    let mut b: Vec<u8> = Vec::new();
    crate::bytes::push_be64(&mut b, n);
    assert(b@ =~= crate::bytes::be64(n));
    crate::hex::encode_hex_bytes(b.as_slice())
}

/// An object that was put.
#[derive(Debug)]
pub struct IngestResult {
    pub name: String,
    pub object_id: u64,
    pub data_cid_hex: String,
    pub width: u32,
    pub height: u32,
    pub total_shards: u64,
    pub put_ms: u64,
}

/// The reply to a put.
pub fn ingest_to_response(res: &IngestResult) -> (r: Reply)
    ensures
        r@ == text_answer(
            201,
            "application/json"@,
            "{\"name\":\""@ + escaped(res.name@, false) + "\",\"object_id\":\""@ + hex16(res.object_id)
                + "\",\"data_cid\":\""@ + res.data_cid_hex@ + "\",\"width\":"@ + dec(
                res.width as nat,
            ) + ",\"height\":"@ + dec(res.height as nat) + ",\"shards\":"@ + dec(
                res.total_shards as nat,
            ) + ",\"put_ms\":"@ + dec(res.put_ms as nat) + "}\n"@,
        ),
{
    let t = String::from_str("{\"name\":\"").concat(json_escape(res.name.as_str()).as_str()).concat(
        "\",\"object_id\":\"",
    ).concat(hex16_string(res.object_id).as_str()).concat("\",\"data_cid\":\"").concat(
        res.data_cid_hex.as_str(),
    ).concat("\",\"width\":").concat(dec_string(res.width as u64).as_str()).concat(
        ",\"height\":",
    ).concat(dec_string(res.height as u64).as_str()).concat(",\"shards\":").concat(
        dec_string(res.total_shards).as_str(),
    ).concat(",\"put_ms\":").concat(dec_string(res.put_ms).as_str()).concat("}\n");
    json_response(201, t.as_str())
}

/// The reply to an operation on one path: `verb` names what was done.
pub open spec fn path_answer(status: u16, verb: Seq<char>, path: Seq<char>, object_id: u64) -> Answer {
    text_answer(
        status,
        "application/json"@,
        "{\""@ + verb + "\":\""@ + escaped(path, false) + "\",\"object_id\":\""@ + hex16(object_id)
            + "\"}\n"@,
    )
}

/// The reply to an operation on one path.
fn path_reply(status: u16, verb: &str, path: &str, object_id: u64) -> (r: Reply)
    ensures
        r@ == path_answer(status, verb@, path@, object_id),
{
    let t = String::from_str("{\"").concat(verb).concat("\":\"").concat(
        json_escape(path).as_str(),
    ).concat("\",\"object_id\":\"").concat(hex16_string(object_id).as_str()).concat("\"}\n");
    json_response(status, t.as_str())
}

/// The reply to a delete.
pub fn remove_to_response(name: &str, object_id: u64) -> (r: Reply)
    ensures
        r@ == path_answer(200, "deleted"@, name@, object_id),
{
    path_reply(200, "deleted", name, object_id)
}

/// The reply to the making of a directory.
pub fn mkdir_to_response(path: &str, object_id: u64) -> (r: Reply)
    ensures
        r@ == path_answer(201, "created"@, path@, object_id),
{
    path_reply(201, "created", path, object_id)
}

/// The reply to the removal of a directory.
pub fn rmdir_to_response(path: &str, object_id: u64) -> (r: Reply)
    ensures
        r@ == path_answer(200, "removed"@, path@, object_id),
{
    path_reply(200, "removed", path, object_id)
}

/// The reply to a move.
pub fn rename_to_response(from: &str, to: &str, moved: u64) -> (r: Reply)
    ensures
        r@ == text_answer(
            200,
            "application/json"@,
            "{\"from\":\""@ + escaped(from@, false) + "\",\"to\":\""@ + escaped(to@, false)
                + "\",\"moved\":"@ + dec(moved as nat) + "}\n"@,
        ),
{
    let t = String::from_str("{\"from\":\"").concat(json_escape(from).as_str()).concat(
        "\",\"to\":\"",
    ).concat(json_escape(to).as_str()).concat("\",\"moved\":").concat(
        dec_string(moved).as_str(),
    ).concat("}\n");
    json_response(200, t.as_str())
}

/// The fingerprint of an object in JSON.
pub fn fingerprint_to_json(name: &str, fingerprint_hex: &str, kind: ObjectKind) -> (r: String)
    ensures
        r@ == "{\"name\":\""@ + escaped(name@, false) + "\",\"fingerprint\":\""@ + fingerprint_hex@
            + "\",\"kind\":\""@ + kind_name(kind) + "\"}\n"@,
{
    String::from_str("{\"name\":\"").concat(json_escape(name).as_str()).concat(
        "\",\"fingerprint\":\"",
    ).concat(fingerprint_hex).concat("\",\"kind\":\"").concat(kind_label(kind)).concat("\"}\n")
}

/// The reply with one share of an escrow: `idx` of `total_n`.
pub fn escrow_share_response(idx: u64, total_n: u64, bytes: Vec<u8>) -> (r: Reply)
    ensures
        r@ == (Answer {
            status: 200,
            headers: seq![
                ("content-type"@, "application/octet-stream"@),
                ("content-length"@, dec(bytes@.len())),
                (
                    "content-disposition"@,
                    "attachment; filename=\"share_"@ + pad_left(dec(idx as nat), 2, '0') + "_of_"@
                        + dec(total_n as nat) + ".holoshare\""@,
                ),
            ],
            body: bytes@,
        }),
{
    let mut h: Vec<(String, String)> = Vec::new();
    assert(pairs(h@) =~= Seq::empty());
    push_header(&mut h, "content-type", "application/octet-stream");
    push_header(&mut h, "content-length", dec_string(bytes.len() as u64).as_str());
    let t = String::from_str("attachment; filename=\"share_").concat(
        crate::text::dec_padded(idx, 2).as_str(),
    ).concat("_of_").concat(dec_string(total_n).as_str()).concat(".holoshare\"");
    push_header(&mut h, "content-disposition", t.as_str());
    let r = Reply { status: 200, headers: h, body: bytes };
    assert(r@.headers =~= seq![
        ("content-type"@, "application/octet-stream"@),
        ("content-length"@, dec(bytes@.len())),
        ("content-disposition"@, t@),
    ]);
    r
}

/// The reply with a file that was recovered from `shares_used` shares.
pub fn escrow_recover_response(data: Vec<u8>, content_type: &str, filename: &str, shares_used: u64) -> (r:
    Reply)
    ensures
        r@ == (Answer {
            status: 200,
            headers: seq![
                ("content-type"@, content_type@),
                ("content-length"@, dec(data@.len())),
                ("content-disposition"@, attachment(filename@)),
                ("x-holofs-escrow-shares-used"@, dec(shares_used as nat)),
            ],
            body: data@,
        }),
{
    let mut h: Vec<(String, String)> = Vec::new();
    assert(pairs(h@) =~= Seq::empty());
    push_header(&mut h, "content-type", content_type);
    push_header(&mut h, "content-length", dec_string(data.len() as u64).as_str());
    let t = String::from_str("attachment; filename=\"").concat(
        without_quotes(filename).as_str(),
    ).concat("\"");
    push_header(&mut h, "content-disposition", t.as_str());
    push_header(&mut h, "x-holofs-escrow-shares-used", dec_string(shares_used).as_str());
    let r = Reply { status: 200, headers: h, body: data };
    assert(r@.headers =~= seq![
        ("content-type"@, content_type@),
        ("content-length"@, dec(data@.len())),
        ("content-disposition"@, attachment(filename@)),
        ("x-holofs-escrow-shares-used"@, dec(shares_used as nat)),
    ]);
    r
}

} // verus!
