//! What holds of every reply: its status says what came of the request, its headers fit its body,
//! and a part of an object is that part of it.
use vstd::prelude::*;

use crate::bytes::be64;
use crate::catalog_view::pairs;
use crate::health_view::{kind_name, ObjectKind};
use crate::hex::hex;
use crate::http::{
    attachment, closing_headers, error_status, error_text, hex16, partial_answer, path_answer,
    text_answer, unquoted, unsatisfiable_answer, whole_answer, Answer, ByteRange, DecodedObject,
    GatewayError,
};
use crate::json::{escaped, escaped_text_round_trip, unescaped};
use crate::text::{dec, from_utf8, utf8, utf8_round_trip};
use crate::text_laws::lacks;

verus! {

/// Whether a reply has this header with this value.
pub open spec fn says(a: Answer, name: Seq<char>, value: Seq<char>) -> bool {
    exists|i: int| 0 <= i < a.headers.len() && #[trigger] a.headers[i] == (name, value)
}

/// Each byte of a partial reply is the byte of the object that stands so much further on as the
/// range begins, and there are as many as the range has.
pub proof fn part_of_an_object_is_that_part(o: DecodedObject, r: ByteRange, j: int)
    requires
        r.start <= r.end_inclusive < o.bytes@.len(),
        0 <= j <= r.end_inclusive - r.start,
    ensures
        partial_answer(o, r).status == 206,
        partial_answer(o, r).body.len() == r.end_inclusive - r.start + 1,
        partial_answer(o, r).body[j] == o.bytes@[r.start + j],
{
}

/// A whole reply has every byte of the object, and so has the partial reply with the range of all.
pub proof fn whole_object_is_all_of_it(o: DecodedObject, j: int)
    requires
        0 <= j < o.bytes@.len(),
        o.bytes@.len() <= u64::MAX,
    ensures
        whole_answer(o).status == 200,
        whole_answer(o).body.len() == o.bytes@.len(),
        whole_answer(o).body[j] == o.bytes@[j],
        partial_answer(o, ByteRange { start: 0, end_inclusive: (o.bytes@.len() - 1) as u64 }).body
            == whole_answer(o).body,
{
    assert(o.bytes@.subrange(0, o.bytes@.len() as int) =~= o.bytes@);
}

/// Every reply with an object tells how long its body is, what it is, and that parts can be had.
pub proof fn replies_with_objects_describe_themselves(o: DecodedObject, r: ByteRange)
    requires
        r.start <= r.end_inclusive < o.bytes@.len(),
    ensures
        says(whole_answer(o), "content-length"@, dec(whole_answer(o).body.len())),
        says(whole_answer(o), "content-type"@, o.content_type@),
        says(whole_answer(o), "accept-ranges"@, "bytes"@),
        says(whole_answer(o), "x-holofs-kind"@, kind_name(o.kind)),
        says(partial_answer(o, r), "content-length"@, dec(partial_answer(o, r).body.len())),
        says(partial_answer(o, r), "content-type"@, o.content_type@),
        says(partial_answer(o, r), "accept-ranges"@, "bytes"@),
        says(partial_answer(o, r), "x-holofs-kind"@, kind_name(o.kind)),
        says(
            partial_answer(o, r),
            "content-range"@,
            "bytes "@ + dec(r.start as nat) + "-"@ + dec(
                (r.start + partial_answer(o, r).body.len() - 1) as nat,
            ) + "/"@ + dec(whole_answer(o).body.len()),
        ),
{
    let w = whole_answer(o).headers;
    let p = partial_answer(o, r).headers;
    assert(w[0] == ("content-type"@, o.content_type@));
    assert(w[1].0 == "content-length"@);
    assert(w[2] == ("accept-ranges"@, "bytes"@));
    assert(w[3] == ("x-holofs-kind"@, kind_name(o.kind)));
    assert(p[0] == ("content-type"@, o.content_type@));
    assert(p[1].0 == "content-length"@);
    assert(p[2] == ("accept-ranges"@, "bytes"@));
    assert(p[3].0 == "content-range"@);
    assert(p[4] == ("x-holofs-kind"@, kind_name(o.kind)));
}

/// What was measured while an object was read is told as it was measured.
pub proof fn measurements_are_told(o: DecodedObject)
    ensures
        says(whole_answer(o), "x-holofs-bytes-downloaded"@, dec(o.bytes_downloaded as nat)),
        says(whole_answer(o), "x-holofs-decode-ms"@, dec(o.decode_ms as nat)),
        o.max_layer matches Some(l) ==> says(whole_answer(o), "x-holofs-layers"@, "0-"@ + dec(l as nat)),
        o.sample_rate matches Some(n) ==> says(whole_answer(o), "x-holofs-sample-rate"@, dec(n as nat)),
        o.channels matches Some(n) ==> says(whole_answer(o), "x-holofs-channels"@, dec(n as nat)),
        o.chunks_total matches Some(n) ==> says(whole_answer(o), "x-holofs-chunks-total"@, dec(n as nat)),
        o.chunks_missing matches Some(n) ==> says(
            whole_answer(o),
            "x-holofs-chunks-missing"@,
            dec(n as nat),
        ),
{
    let w = whole_answer(o).headers;
    let a = 6int;
    let b = a + if o.max_layer is Some {
        1int
    } else {
        0
    };
    let c = b + if o.sample_rate is Some {
        1int
    } else {
        0
    };
    let d = c + if o.channels is Some {
        1int
    } else {
        0
    };
    let e = d + if o.chunks_total is Some {
        1int
    } else {
        0
    };
    assert(w[4].0 == "x-holofs-bytes-downloaded"@);
    assert(w[5].0 == "x-holofs-decode-ms"@);
    assert(o.max_layer is Some ==> w[a].0 == "x-holofs-layers"@);
    assert(o.sample_rate is Some ==> w[b].0 == "x-holofs-sample-rate"@);
    assert(o.channels is Some ==> w[c].0 == "x-holofs-channels"@);
    assert(o.chunks_total is Some ==> w[d].0 == "x-holofs-chunks-total"@);
    assert(o.chunks_missing is Some ==> w[e].0 == "x-holofs-chunks-missing"@);
}

/// An object with a name for downloads is sent under that name, and one without is not; only images
/// may be kept.
pub proof fn downloads_have_their_names(o: DecodedObject)
    ensures
        o.filename_for_disposition matches Some(f) ==> says(
            whole_answer(o),
            "content-disposition"@,
            attachment(f@),
        ),
        o.kind == ObjectKind::Image ==> says(
            whole_answer(o),
            "cache-control"@,
            "public, max-age=3600"@,
        ),
        closing_headers(o).len() == (if o.kind == ObjectKind::Image {
            1int
        } else {
            0
        }) + (if o.filename_for_disposition is Some {
            1int
        } else {
            0
        }),
{
    let w = whole_answer(o).headers;
    let n = w.len() - closing_headers(o).len();
    if o.kind == ObjectKind::Image {
        assert(w[n] == ("cache-control"@, "public, max-age=3600"@));
    }
    if o.filename_for_disposition is Some {
        assert(w[w.len() - 1].0 == "content-disposition"@);
    }
}

/// A range that is not there is refused with the length that is, and with no byte of the object.
pub proof fn unsatisfiable_range_is_refused(total: u64)
    ensures
        unsatisfiable_answer(total).status == 416,
        says(unsatisfiable_answer(total), "content-range"@, "bytes */"@ + dec(total as nat)),
        from_utf8(unsatisfiable_answer(total).body) == Some("range not satisfiable"@),
{
    let h = unsatisfiable_answer(total).headers;
    assert(h[2].0 == "content-range"@);
    utf8_round_trip("range not satisfiable"@);
}

/// A text is sent as it is, with its status and its type and nothing else.
pub proof fn texts_are_sent_as_they_are(status: u16, content_type: Seq<char>, text: Seq<char>)
    ensures
        text_answer(status, content_type, text).status == status,
        from_utf8(text_answer(status, content_type, text).body) == Some(text),
        text_answer(status, content_type, text).headers == seq![("content-type"@, content_type)],
{
    utf8_round_trip(text);
}

/// What went wrong is told by the class of the status: the client's fault below 500, the cluster's
/// from there on; what is not there is 404, and what is in the way is 409.
pub proof fn errors_are_told_by_their_class(e: GatewayError)
    ensures
        error_status(e) >= 500 <==> e is Decode || e is ClusterDegraded || e is Persist,
        error_status(e) == 404 <==> e is NotFound || e is PreviewUnsupported,
        error_status(e) == 400 <==> e is BadRequest,
        error_status(e) == 409 <==> e is IsDirectory || e is AlreadyExists || e is NotADirectory
            || e is DirectoryNotEmpty,
        error_status(e) == 503 <==> e is Decode || e is ClusterDegraded,
        error_status(e) == 500 <==> e is Persist,
        400 <= error_status(e) < 600,
{
}

/// What the gateway says of an error reaches the client word for word.
pub proof fn errors_are_told_in_their_words(e: GatewayError)
    ensures
        e matches GatewayError::BadRequest(t) ==> error_text(e) == t@,
        e matches GatewayError::Decode(t) ==> error_text(e) == t@,
        e matches GatewayError::Persist(t) ==> crate::text::ends(error_text(e), t@),
        e is NotFound ==> error_text(e) == "not found"@,
        e is AlreadyExists ==> error_text(e) == "already exists"@,
        e is IsDirectory ==> error_text(e) == "is a directory"@,
        e is NotADirectory ==> error_text(e) == "not a directory"@,
        e is DirectoryNotEmpty ==> error_text(e) == "directory not empty"@,
{
    if let GatewayError::Persist(t) = e {
        crate::text_laws::beginnings_and_ends("catalog persist failed: "@, t@, t@);
    }
}

/// Taking the quotation marks out takes out nothing else.
pub proof fn only_quotation_marks_are_taken_out(a: Seq<char>, b: Seq<char>)
    ensures
        lacks(unquoted(a), '"'),
        lacks(a, '"') ==> unquoted(a) == a,
        unquoted(a + b) == unquoted(a) + unquoted(b),
        unquoted(a + seq!['"'] + b) == unquoted(a + b),
    decreases b.len(),
{
    lemma_unquoted(a);
    lemma_unquoted_join(a, b);
    lemma_unquoted_join(a + seq!['"'], b);
    lemma_unquoted_join(a, seq!['"']);
    let q = seq!['"'];
    assert(q.drop_last() =~= Seq::<char>::empty());
    assert(unquoted(q.drop_last()) == q.drop_last());
    assert(unquoted(q) =~= Seq::<char>::empty());
    assert(unquoted(a) + unquoted(q) =~= unquoted(a));
}

proof fn lemma_unquoted(a: Seq<char>)
    ensures
        lacks(unquoted(a), '"'),
        lacks(a, '"') ==> unquoted(a) == a,
    decreases a.len(),
{
    if a.len() > 0 {
        lemma_unquoted(a.drop_last());
        if lacks(a, '"') {
            assert(lacks(a.drop_last(), '"'));
            assert(a.drop_last().push(a.last()) =~= a);
        }
    }
}

proof fn lemma_unquoted_join(a: Seq<char>, b: Seq<char>)
    ensures
        unquoted(a + b) == unquoted(a) + unquoted(b),
    decreases b.len(),
{
    if b.len() == 0 {
        assert(a + b =~= a);
        assert(unquoted(b) =~= Seq::<char>::empty());
        assert(unquoted(a) + unquoted(b) =~= unquoted(a));
    } else {
        lemma_unquoted_join(a, b.drop_last());
        assert((a + b).drop_last() =~= a + b.drop_last());
        assert(unquoted(a + b) =~= unquoted(a) + unquoted(b));
    }
}

/// A file without quotation marks in its name is sent under that very name, between quotation
/// marks.
pub proof fn download_name_is_quoted(f: Seq<char>)
    requires
        lacks(f, '"'),
    ensures
        attachment(f) == "attachment; filename=\""@ + f + "\""@,
{
    lemma_unquoted(f);
}

/// The number of an object is told in sixteen digits, and no two numbers in the same.
pub proof fn object_numbers_are_told_apart(a: u64, b: u64)
    ensures
        hex16(a).len() == 16,
        hex16(a) == hex16(b) ==> a == b,
{
    crate::bytes::be64_round_trip(a);
    crate::bytes::be64_round_trip(b);
    crate::hex::hex_round_trip(be64(a));
    crate::hex::hex_round_trip(be64(b));
    let c = vstd::utf8::encode_utf8(hex(be64(a)));
    if hex16(a) == hex16(b) {
        assert(crate::hex::pair_bytes(c) == be64(a));
        assert(crate::hex::pair_bytes(c) == be64(b));
        assert(crate::bytes::u64_of(be64(a)) == crate::bytes::u64_of(be64(b)));
    }
}

/// A reply about a path names what was done, the very path, and the number of the object.
pub proof fn replies_about_paths_name_them(status: u16, verb: Seq<char>, path: Seq<char>, id: u64)
    ensures
        path_answer(status, verb, path, id).status == status,
        from_utf8(path_answer(status, verb, path, id).body) == Some(
            "{\""@ + verb + "\":\""@ + escaped(path, false) + "\",\"object_id\":\""@ + hex16(id)
                + "\"}\n"@,
        ),
        unescaped(escaped(path, false)) == Some(path),
{
    escaped_text_round_trip(path, false);
    utf8_round_trip(
        "{\""@ + verb + "\":\""@ + escaped(path, false) + "\",\"object_id\":\""@ + hex16(id) + "\"}\n"@,
    );
}

/// No two kinds have one name.
pub proof fn kinds_are_told_apart(a: ObjectKind, b: ObjectKind)
    ensures
        kind_name(a) == kind_name(b) ==> a == b,
        kind_name(ObjectKind::Image) == "image"@,
        kind_name(ObjectKind::Directory) == "directory"@,
{
    reveal_strlit("image");
    reveal_strlit("audio");
    reveal_strlit("text");
    reveal_strlit("opaque");
    reveal_strlit("directory");
    assert("image"@[0] == 'i' && "audio"@[0] == 'a');
    assert("text"@.len() == 4 && "opaque"@.len() == 6 && "directory"@.len() == 9);
}

/// The headers of a reply are its own, in their order.
pub proof fn headers_are_sent_as_they_are(v: Seq<(String, String)>, i: int)
    requires
        0 <= i < v.len(),
    ensures
        pairs(v).len() == v.len(),
        pairs(v)[i].0 == v[i].0@,
        pairs(v)[i].1 == v[i].1@,
{
}

} // verus!
