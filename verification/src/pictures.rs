//! Pictures that the gateway draws or hands on: a shard as a grey square, and a picture that
//! comes layer by layer.
use vstd::prelude::*;

use crate::bytes::append;
use crate::form::{is_reserved_name, may_be_put};
use crate::health_view::ObjectKind;
use crate::http::{
    error_to_response, not_found, push_header, text_answer, Answer,
    GatewayError, Reply,
};
use crate::catalog_view::pairs;
use crate::text::{dec, dec_string, utf8, utf8_bytes};
use vstd::string::StringExecFns;

verus! {

/// The PNG file that the encoder of the `png` crate writes for a picture with eight bits for
/// each of red, green and blue, at the encoder's own settings.
pub uninterp spec fn png_image(width: u32, height: u32, rgb: Seq<u8>) -> Seq<u8>;

/// Calls `png::Encoder`: the file for a picture of `width` times `height` points, given row by
/// row with three bytes for each point. Claims that the file depends on nothing else, and that
/// the encoder fails on no picture that has as many bytes as its size says.
#[verifier::external_body]
fn png_file(width: u32, height: u32, rgb: &[u8]) -> (r: Vec<u8>)
    requires
        width > 0,
        height > 0,
        rgb@.len() == 3 * width * height,
    ensures
        r@ == png_image(width, height, rgb@),
{
    let mut buf: Vec<u8> = Vec::new();
    let mut enc = png::Encoder::new(&mut buf, width, height);
    enc.set_color(png::ColorType::Rgb);
    enc.set_depth(png::BitDepth::Eight);
    let mut writer = enc.write_header().expect("png header");
    writer.write_image_data(rgb).expect("png write");
    drop(writer);
    buf
}

/// Whether `s` is the side of the smallest square, not empty, that has room for `n` points.
pub open spec fn is_side(s: nat, n: nat) -> bool {
    &&& s >= 1
    &&& s * s >= n
    &&& s > 1 ==> (s - 1) * (s - 1) < n
}

/// The side of the smallest square, not empty, that has room for `n` points.
pub open spec fn side_of(n: nat) -> nat {
    choose|s: nat| is_side(s, n)
}

/// There is one such side only.
proof fn lemma_one_side(s: nat, t: nat, n: nat)
    requires
        is_side(s, n),
        is_side(t, n),
    ensures
        s == t,
{
    if s < t {
        assert(s * s <= (t - 1) * (t - 1)) by (nonlinear_arith)
            requires
                s <= t - 1,
        ;
    }
    if t < s {
        assert(t * t <= (s - 1) * (s - 1)) by (nonlinear_arith)
            requires
                t <= s - 1,
        ;
    }
}

/// The side of the smallest square that has room for `n` points.
fn square_side(n: usize) -> (r: u64)
    ensures
        is_side(r as nat, n as nat),
        r == side_of(n as nat),
        r <= 0x1_0000_0000,
{
    let n: u64 = n as u64;
    let mut s: u64 = 1;
    while s < 0x1_0000_0000 && s * s < n
        invariant
            1 <= s <= 0x1_0000_0000,
            s > 1 ==> (s - 1) * (s - 1) < n,
            s < 0x1_0000_0000 ==> s * s <= 0xffff_ffff * 0xffff_ffff,
        ensures
            s == 0x1_0000_0000 || s * s >= n,
        decreases 0x1_0000_0000 - s,
    {
        s += 1;
        proof {
            if s < 0x1_0000_0000 {
                assert(s * s <= 0xffff_ffff * 0xffff_ffff) by (nonlinear_arith)
                    requires
                        0 <= s <= 0xffff_ffff,
                ;
            }
        }
    }
    proof {
        if s == 0x1_0000_0000 {
            assert(s * s == 0x1_0000_0000 * 0x1_0000_0000) by (nonlinear_arith)
                requires
                    s == 0x1_0000_0000,
            ;
        }
        assert(is_side(s as nat, n as nat));
        lemma_one_side(s as nat, side_of(n as nat), n as nat);
    }
    s
}

/// The points of the grey square: the bytes in their order, then black.
pub open spec fn grey_points(b: Seq<u8>, side: nat) -> Seq<u8> {
    Seq::new(
        3 * (side * side),
        |i: int|
            if i / 3 < b.len() {
                b[i / 3]
            } else {
                0u8
            },
    )
}

/// Whether the square for `n` points can be held in memory and in the format.
pub open spec fn can_be_drawn(n: nat) -> bool {
    side_of(n) <= u32::MAX && 3 * (side_of(n) * side_of(n)) <= usize::MAX
}

/// Up to a gibibyte there is always room.
pub proof fn small_shard_can_be_drawn(n: nat)
    requires
        n <= 0x4000_0000,
    ensures
        can_be_drawn(n),
{
    let s = smallest_side(n, 0x8000);
    lemma_one_side(s, side_of(n), n);
    assert(s * s <= 0x8000 * 0x8000) by (nonlinear_arith)
        requires
            0 <= s <= 0x8000,
    ;
}

/// The side, counted down from one that is long enough.
proof fn smallest_side(n: nat, top: nat) -> (s: nat)
    requires
        top >= 1,
        top * top >= n,
    ensures
        is_side(s, n),
        s <= top,
    decreases top,
{
    if top > 1 && (top - 1) * (top - 1) >= n {
        smallest_side(n, (top - 1) as nat)
    } else {
        top
    }
}

/// A shard as a picture: a square as small as it can be, one grey point for each byte, the
/// points that are left over black.
pub fn render_shard_as_png(bytes: &[u8]) -> (r: Vec<u8>)
    requires
        can_be_drawn(bytes@.len()),
    ensures
        r@ == png_image(
            side_of(bytes@.len()) as u32,
            side_of(bytes@.len()) as u32,
            grey_points(bytes@, side_of(bytes@.len())),
        ),
{
    let side: u64 = square_side(bytes.len());
    let ghost all = grey_points(bytes@, side as nat);
    assert(side * side <= usize::MAX) by (nonlinear_arith)
        requires
            3 * (side * side) <= usize::MAX,
            0 <= side * side,
    ;
    let total: usize = (side * side) as usize;
    let mut rgb: Vec<u8> = Vec::new();
    let mut i: usize = 0;
    assert(rgb@ =~= all.take(0));
    while i < total
        invariant
            0 <= i <= total,
            total == side * side,
            3 * total <= usize::MAX,
            all == grey_points(bytes@, side as nat),
            all.len() == 3 * total,
            rgb@ == all.take(3 * i),
        decreases total - i,
    {
        let g: u8 = if i < bytes.len() {
            bytes[i]
        } else {
            0
        };
        rgb.push(g);
        rgb.push(g);
        rgb.push(g);
        assert(rgb@ =~= all.take(3 * (i + 1))) by {
            assert(all[3 * i] == g && all[3 * i + 1] == g && all[3 * i + 2] == g);
        }
        i += 1;
    }
    assert(all.take(3 * i) =~= all);
    assert(3 * side * side == 3 * (side * side)) by (nonlinear_arith);
    png_file(side as u32, side as u32, rgb.as_slice())
}

/// A reply with a picture.
fn picture_reply(bytes: Vec<u8>) -> (r: Reply)
    ensures
        r@ == (Answer { status: 200, headers: seq![("content-type"@, "image/png"@)], body: bytes@ }),
{
    let mut h: Vec<(String, String)> = Vec::new();
    assert(pairs(h@) =~= Seq::empty());
    push_header(&mut h, "content-type", "image/png");
    let r = Reply { status: 200, headers: h, body: bytes };
    assert(r@.headers =~= seq![("content-type"@, "image/png"@)]);
    r
}

/// The reply with a shard as a picture; it may be kept for an hour.
pub fn shard_png_response(payload: &[u8]) -> (r: Reply)
    requires
        can_be_drawn(payload@.len()),
    ensures
        ({
            let side = side_of(payload@.len());
            let png = png_image(side as u32, side as u32, grey_points(payload@, side));
            r@ == (Answer {
                status: 200,
                headers: seq![
                    ("content-type"@, "image/png"@),
                    ("content-length"@, dec(png.len())),
                    ("cache-control"@, "public, max-age=3600"@),
                ],
                body: png,
            })
        }),
{
    let png = render_shard_as_png(payload);
    let n = dec_string(png.len() as u64);
    let mut r = picture_reply(png);
    push_header(&mut r.headers, "content-length", n.as_str());
    push_header(&mut r.headers, "cache-control", "public, max-age=3600");
    assert(r@.headers =~= seq![
        ("content-type"@, "image/png"@),
        ("content-length"@, n@),
        ("cache-control"@, "public, max-age=3600"@),
    ]);
    r
}

/// The reply with a mix of two pictures; it is not to be kept.
pub fn mix_response(bytes: Vec<u8>) -> (r: Reply)
    ensures
        r@ == (Answer {
            status: 200,
            headers: seq![("content-type"@, "image/png"@), ("cache-control"@, "no-store"@)],
            body: bytes@,
        }),
{
    let mut r = picture_reply(bytes);
    push_header(&mut r.headers, "cache-control", "no-store");
    assert(r@.headers =~= seq![("content-type"@, "image/png"@), ("cache-control"@, "no-store"@)]);
    r
}

/// A picture that is sharp in one place only.
#[derive(Debug)]
pub struct Spotlight {
    pub bytes: Vec<u8>,
    pub roi_px: (u32, u32, u32, u32),
    pub decode_ms: u64,
    pub bytes_downloaded: u64,
}

/// The reply with a picture that is sharp in one place only: where, how long it took and how
/// much had to be fetched stand in headers.
pub fn spotlight_response(s: Spotlight) -> (r: Reply)
    ensures
        r@ == (Answer {
            status: 200,
            headers: seq![
                ("content-type"@, "image/png"@),
                (
                    "x-holofs-roi-px"@,
                    dec(s.roi_px.0 as nat) + ","@ + dec(s.roi_px.1 as nat) + ","@ + dec(
                        s.roi_px.2 as nat,
                    ) + ","@ + dec(s.roi_px.3 as nat),
                ),
                ("x-holofs-decode-ms"@, dec(s.decode_ms as nat)),
                ("x-holofs-bytes-downloaded"@, dec(s.bytes_downloaded as nat)),
            ],
            body: s.bytes@,
        }),
{
    let roi = dec_string(s.roi_px.0 as u64).concat(",").concat(
        dec_string(s.roi_px.1 as u64).as_str(),
    ).concat(",").concat(dec_string(s.roi_px.2 as u64).as_str()).concat(",").concat(
        dec_string(s.roi_px.3 as u64).as_str(),
    );
    let mut r = picture_reply(s.bytes);
    push_header(&mut r.headers, "x-holofs-roi-px", roi.as_str());
    push_header(&mut r.headers, "x-holofs-decode-ms", dec_string(s.decode_ms).as_str());
    push_header(
        &mut r.headers,
        "x-holofs-bytes-downloaded",
        dec_string(s.bytes_downloaded).as_str(),
    );
    assert(r@.headers =~= seq![
        ("content-type"@, "image/png"@),
        ("x-holofs-roi-px"@, roi@),
        ("x-holofs-decode-ms"@, dec(s.decode_ms as nat)),
        ("x-holofs-bytes-downloaded"@, dec(s.bytes_downloaded as nat)),
    ]);
    r
}

/// The head of one frame of a picture that comes layer by layer.
pub open spec fn frame_head(len: nat, layer: nat) -> Seq<u8> {
    utf8("\r\n--hololayer-2026-06-25\r\nContent-Type: image/png\r\nContent-Length: "@) + utf8(dec(len))
        + utf8("\r\nX-Holofs-Layer: "@) + utf8(dec(layer)) + utf8("\r\n\r\n"@)
}

/// One frame: the picture with the layers up to `layer`.
pub open spec fn frame(png: Seq<u8>, layer: nat) -> Seq<u8> {
    frame_head(png.len(), layer) + png
}

/// What closes the stream.
pub open spec fn stream_tail() -> Seq<u8> {
    utf8("\r\n--hololayer-2026-06-25--\r\n"@)
}

/// One frame: the picture with the layers up to `layer`.
fn stream_frame(png: &[u8], layer: u8) -> (r: Vec<u8>)
    ensures
        r@ == frame(png@, layer as nat),
{
    let mut out: Vec<u8> = Vec::new();
    append(
        &mut out,
        utf8_bytes("\r\n--hololayer-2026-06-25\r\nContent-Type: image/png\r\nContent-Length: "),
    );
    append(&mut out, utf8_bytes(dec_string(png.len() as u64).as_str()));
    append(&mut out, utf8_bytes("\r\nX-Holofs-Layer: "));
    append(&mut out, utf8_bytes(dec_string(layer as u64).as_str()));
    append(&mut out, utf8_bytes("\r\n\r\n"));
    append(&mut out, png);
    assert(out@ =~= frame(png@, layer as nat));
    out
}

/// A picture that comes layer by layer.
#[derive(Debug, Clone, Copy, PartialEq, Eq, Structural)]
pub struct PreviewStream {
    pub nlayers: u8,
    pub next: u8,
    pub ended: bool,
}

impl PreviewStream {
    /// Whether the stream has come no further than its last layer.
    pub open spec fn wf(self) -> bool {
        self.next <= self.nlayers
    }

    /// Starts the stream of an object, if it is a picture with layers. `found` is what the
    /// catalog has under the name: the kind and the number of layers.
    pub fn start(name: &str, found: Option<(ObjectKind, u8)>) -> (r: Result<PreviewStream, Reply>)
        ensures
            match (may_be_put(name@), found) {
                (false, _) | (true, None) => r matches Err(p) && p@ == text_answer(
                    404,
                    "text/plain"@,
                    "not found"@,
                ),
                (true, Some((kind, nlayers))) => if kind != ObjectKind::Image {
                    r matches Err(p) && p@ == text_answer(
                        404,
                        "text/plain"@,
                        "preview not supported for this kind"@,
                    )
                } else if nlayers == 0 {
                    r matches Err(p) && p@ == text_answer(503, "text/plain"@, "no layers"@)
                } else {
                    r == Ok::<PreviewStream, Reply>(PreviewStream { nlayers, next: 0, ended: false })
                },
            },
            r matches Ok(s) ==> s.wf(),
    {
        if is_reserved_name(name) {
            return Err(not_found());
        }
        match found {
            None => Err(not_found()),
            Some((kind, nlayers)) => {
                if kind != ObjectKind::Image {
                    return Err(error_to_response(&GatewayError::PreviewUnsupported));
                }
                if nlayers == 0 {
                    return Err(
                        error_to_response(&GatewayError::Decode(String::from_str("no layers"))),
                    );
                }
                Ok(PreviewStream { nlayers, next: 0, ended: false })
            },
        }
    }

    /// Which layer is to be decoded next; none when the stream is to be closed.
    pub fn wanted(&self) -> (r: Option<u8>)
        ensures
            r == if self.next < self.nlayers && !self.ended {
                Some(self.next)
            } else {
                None
            },
    {
        if self.next < self.nlayers && !self.ended {
            Some(self.next)
        } else {
            None
        }
    }

    /// Takes the layer that was wanted. Where it could not be decoded there will be no further
    /// one, so that the last good frame stays.
    pub fn on_layer(&mut self, png: Option<&[u8]>) -> (r: Vec<u8>)
        requires
            old(self).wf(),
            old(self).next < old(self).nlayers,
            !old(self).ended,
        ensures
            final(self).wf(),
            final(self).nlayers == old(self).nlayers,
            match png {
                Some(p) => {
                    &&& r@ == frame(p@, old(self).next as nat)
                    &&& final(self).next == old(self).next + 1
                    &&& !final(self).ended
                },
                None => {
                    &&& r@.len() == 0
                    &&& final(self).next == old(self).next
                    &&& final(self).ended
                },
            },
    {
        match png {
            Some(p) => {
                let out = stream_frame(p, self.next);
                self.next = self.next + 1;
                out
            },
            None => {
                self.ended = true;
                Vec::new()
            },
        }
    }

    /// What closes the stream.
    pub fn tail() -> (r: Vec<u8>)
        ensures
            r@ == stream_tail(),
    {
        crate::bytes::copy(utf8_bytes("\r\n--hololayer-2026-06-25--\r\n"))
    }
}

} // verus!
