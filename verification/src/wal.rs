//! The append-only write-ahead log of a storage node.
//!
//! A segment is the eight bytes `HOLOFSW1` and a row of records. A record is
//!
//! ```text
//! [4 bytes]  length of kind and body, big-endian
//! [1 byte]   kind
//! [..]       body
//! [8 bytes]  the first eight bytes of SHA-256 over kind and body
//! ```
//!
//! A record that is cut short, or whose digest does not fit, is where the log of
//! a crashed node ends: what follows was never committed. A log whose records are
//! whole but make no sense is refused.
use vstd::prelude::*;
use vstd::slice::slice_subrange;
use vstd::string::StringExecFns;
use vstd::utf8::encode_utf8;

use crate::bytes::{
    append, be32, be64, copy32, copy_range, field32, has_at, len32, push_be32, push_be64,
    read_be32, read_be64, same_bytes, u32_of, u64_of,
};
use crate::chaos::{
    arm_wal_next_append_fails, arm_wal_next_sync_fails, carried, maybe_fail_wal_append,
    maybe_fail_wal_sync, ErrorKind, Fault, Faults,
};
use crate::crypto::{sha256, sha256_of, MAX_PLAINTEXT};
use crate::keyring::{unseal_any, Dek, Keyring, Ring};
use crate::text::{
    chars_of, dec, dec_padded, dec_string, ends, number, pad_left, padded_round_trip, parse_number,
    starts, strip_prefix, strip_suffix,
};

verus! {

broadcast use crate::bytes::group_be;

/// The hash that identifies a shard.
pub type ShardHash = [u8; 32];

/// A coded piece of an object: the coefficients of a linear combination, and the
/// combination.
#[derive(Debug, Clone, PartialEq, Eq)]
pub struct Shard {
    pub coeffs: Vec<u8>,
    pub payload: Vec<u8>,
}

/// A shard as a mathematical value.
pub struct Piece {
    pub coeffs: Seq<u8>,
    pub payload: Seq<u8>,
}

/// Whether a shard is short enough to be sealed in one piece.
pub open spec fn piece_fits(p: Piece) -> bool {
    4 + p.coeffs.len() + p.payload.len() <= MAX_PLAINTEXT
}

impl View for Shard {
    type V = Piece;

    open spec fn view(&self) -> Piece {
        Piece { coeffs: self.coeffs@, payload: self.payload@ }
    }
}

impl Shard {
    /// Whether the shard is short enough to be sealed in one piece.
    pub open spec fn fits(&self) -> bool {
        piece_fits(self@)
    }

    /// A copy of the shard.
    pub fn copy(&self) -> (r: Shard)
        ensures
            r@ == self@,
    {
        Shard {
            coeffs: crate::bytes::copy(self.coeffs.as_slice()),
            payload: crate::bytes::copy(self.payload.as_slice()),
        }
    }
}

/// One record of the log.
#[derive(Debug, Clone)]
pub enum RecordKind {
    /// A shard is stored.
    Put { object_id: u64, channel: u8, layer: u8, hash: ShardHash, shard: Shard },
    /// Every shard of an object is dropped.
    Purge { object_id: u64 },
    /// The shards with these hashes are dropped.
    PurgeHashes { hashes: Vec<ShardHash> },
    /// Every shard is dropped.
    Wipe,
}

/// A record as a mathematical value.
pub enum Rec {
    Put { object_id: u64, channel: u8, layer: u8, hash: Seq<u8>, shard: Piece },
    Purge { object_id: u64 },
    PurgeHashes { hashes: Seq<Seq<u8>> },
    Wipe,
}

/// The hashes in `v` as sequences.
pub open spec fn hash_views(v: Seq<ShardHash>) -> Seq<Seq<u8>> {
    v.map_values(|h: ShardHash| h@)
}

impl View for RecordKind {
    type V = Rec;

    open spec fn view(&self) -> Rec {
        match *self {
            RecordKind::Put { object_id, channel, layer, hash, shard } => Rec::Put {
                object_id,
                channel,
                layer,
                hash: hash@,
                shard: shard@,
            },
            RecordKind::Purge { object_id } => Rec::Purge { object_id },
            RecordKind::PurgeHashes { hashes } => Rec::PurgeHashes { hashes: hash_views(hashes@) },
            RecordKind::Wipe => Rec::Wipe,
        }
    }
}

/// Whether the shard in a record is short enough to be sealed in one piece.
pub open spec fn rec_fits(r: Rec) -> bool {
    r matches Rec::Put { shard, .. } ==> piece_fits(shard)
}

/// The records that `v` stands for.
pub open spec fn record_views(v: Seq<RecordKind>) -> Seq<Rec> {
    v.map_values(|r: RecordKind| r@)
}

/// Why a segment is refused.
#[derive(Debug, Clone, Copy, PartialEq, Eq, Structural)]
pub enum WalError {
    /// A segment begins with these eight bytes.
    WrongMagic(u64),
    ZeroLength,
    PutHeaderShort,
    PutLength,
    SealedWithoutKey,
    SealedHeaderShort,
    SealedLength,
    SealedBlobShort,
    SealedNotOpened { keys: usize },
    SealedPlainShort,
    PurgeLength,
    HashesShort,
    HashesLength { count: u32, body_len: u64 },
    WipeLength,
    UnknownKind(u8),
    /// A segment that was closed does not end with a whole record.
    Incomplete,
}

/// Bytes as a list of numbers.
pub open spec fn byte_list(b: Seq<u8>) -> Seq<char> {
    "["@ + comma_list(b) + "]"@
}

/// Bytes as numbers with commas between them.
pub open spec fn comma_list(b: Seq<u8>) -> Seq<char>
    decreases b.len(),
{
    if b.len() == 0 {
        Seq::empty()
    } else if b.len() == 1 {
        dec(b[0] as nat)
    } else {
        comma_list(b.drop_last()) + ", "@ + dec(b.last() as nat)
    }
}

/// The bytes of a number as a list of numbers.
fn list_bytes(m: u64) -> (r: String)
    ensures
        r@ == byte_list(be64(m)),
{
    let mut v: Vec<u8> = Vec::new();
    push_be64(&mut v, m);
    assert(v@ =~= be64(m));
    proof {
        crate::bytes::be64_round_trip(m);
    }
    let mut out = String::from_str("[");
    let ghost head = out@;
    let mut i: usize = 0;
    assert(out@ =~= head + comma_list(v@.take(0)));
    while i < v.len()
        invariant
            0 <= i <= v@.len(),
            out@ == head + comma_list(v@.take(i as int)),
        decreases v@.len() - i,
    {
        let ghost before = out@;
        if i > 0 {
            out.append(", ");
        }
        out.append(dec_string(v[i] as u64).as_str());
        proof {
            let t = v@.take(i + 1);
            assert(t.drop_last() =~= v@.take(i as int));
            assert(t.last() == v@[i as int]);
            assert(v@.take(0) =~= Seq::<u8>::empty());
            assert(out@ =~= head + comma_list(t));
        }
        i += 1;
    }
    assert(v@.take(i as int) =~= v@);
    out.append("]");
    assert(out@ =~= byte_list(be64(m)));
    out
}

impl WalError {
    /// The error in words, for the segment in a file.
    pub open spec fn text_in(self, path: Seq<char>) -> Seq<char> {
        match self {
            WalError::WrongMagic(m) => "wal segment "@ + crate::text::quoted_text(path)
                + " has wrong magic "@ + byte_list(be64(m)),
            _ => self.text(),
        }
    }

    /// The error in words, for the segment in a file.
    pub fn message_in(&self, path: &str) -> (r: String)
        ensures
            r@ == self.text_in(path@),
    {
        match self {
            WalError::WrongMagic(m) => String::from_str("wal segment ").concat(
                crate::text::quoted(path).as_str(),
            ).concat(" has wrong magic ").concat(list_bytes(*m).as_str()),
            _ => self.message(),
        }
    }

    /// The error in words.
    pub open spec fn text(self) -> Seq<char> {
        match self {
            WalError::WrongMagic(m) => "wal segment has wrong magic "@ + byte_list(be64(m)),
            WalError::ZeroLength => "wal record with zero-length body"@,
            WalError::PutHeaderShort => "wal put_plain header too short"@,
            WalError::PutLength => "wal put_plain body length mismatch"@,
            WalError::SealedWithoutKey => "wal sealed record but Store has no enc_key configured"@,
            WalError::SealedHeaderShort => "wal put_sealed header too short"@,
            WalError::SealedLength => "wal put_sealed body length mismatch"@,
            WalError::SealedBlobShort => "wal put_sealed sealed blob too short"@,
            WalError::SealedNotOpened { keys } =>
                "wal put_sealed decrypt failed: decrypt failed under all "@ + dec(keys as nat)
                    + " DEK(s) in keyring"@,
            WalError::SealedPlainShort =>
                "wal put_sealed plaintext too short for declared coeffs_len"@,
            WalError::PurgeLength => "wal purge body must be 8 bytes"@,
            WalError::HashesShort => "wal purge_hashes body too short"@,
            WalError::HashesLength { count, body_len } =>
                "wal purge_hashes length mismatch: count="@ + dec(count as nat) + " body_len="@ + dec(
                    body_len as nat,
                ) + " expected="@ + dec((4 + count * 32) as nat),
            WalError::WipeLength => "wal wipe body must be empty"@,
            WalError::UnknownKind(k) => "wal record has unknown kind byte "@ + dec(k as nat),
            WalError::Incomplete => "wal closed segment is incomplete"@,
        }
    }

    /// The error in words.
    pub fn message(&self) -> (r: String)
        ensures
            r@ == self.text(),
    {
        match self {
            WalError::WrongMagic(m) => String::from_str("wal segment has wrong magic ").concat(
                list_bytes(*m).as_str(),
            ),
            WalError::ZeroLength => String::from_str("wal record with zero-length body"),
            WalError::PutHeaderShort => String::from_str("wal put_plain header too short"),
            WalError::PutLength => String::from_str("wal put_plain body length mismatch"),
            WalError::SealedWithoutKey => String::from_str(
                "wal sealed record but Store has no enc_key configured",
            ),
            WalError::SealedHeaderShort => String::from_str("wal put_sealed header too short"),
            WalError::SealedLength => String::from_str("wal put_sealed body length mismatch"),
            WalError::SealedBlobShort => String::from_str("wal put_sealed sealed blob too short"),
            WalError::SealedNotOpened { keys } => String::from_str(
                "wal put_sealed decrypt failed: decrypt failed under all ",
            ).concat(dec_string(*keys as u64).as_str()).concat(" DEK(s) in keyring"),
            WalError::SealedPlainShort => String::from_str(
                "wal put_sealed plaintext too short for declared coeffs_len",
            ),
            WalError::PurgeLength => String::from_str("wal purge body must be 8 bytes"),
            WalError::HashesShort => String::from_str("wal purge_hashes body too short"),
            WalError::HashesLength { count, body_len } => String::from_str(
                "wal purge_hashes length mismatch: count=",
            ).concat(dec_string(*count as u64).as_str()).concat(" body_len=").concat(
                dec_string(*body_len).as_str(),
            ).concat(" expected=").concat(dec_string(4 + *count as u64 * 32).as_str()),
            WalError::WipeLength => String::from_str("wal wipe body must be empty"),
            WalError::UnknownKind(k) => String::from_str(
                "wal record has unknown kind byte ",
            ).concat(dec_string(*k as u64).as_str()),
            WalError::Incomplete => String::from_str("wal closed segment is incomplete"),
        }
    }
}

pub const KIND_PUT_PLAIN: u8 = 0;

pub const KIND_PUT_SEALED: u8 = 1;

pub const KIND_PURGE: u8 = 2;

pub const KIND_WIPE: u8 = 3;

pub const KIND_PURGE_HASHES: u8 = 4;

/// Bytes before the coefficients in the body of a plain put.
pub const PUT_PLAIN_HEADER_LEN: usize = 50;

/// Bytes that identify a shard at the start of a put; in a sealed put they are the
/// associated data.
pub const PUT_SEALED_AAD_LEN: usize = 42;

/// Bytes of the digest behind a record.
pub const DIGEST_LEN: usize = 8;

/// When a segment is this long, the writer goes on in a new one.
pub const ROTATE_AT: u64 = 67_108_864;

/// The first bytes of a segment.
pub open spec fn seg_magic() -> Seq<u8> {
    encode_utf8("HOLOFSW1"@)
}

/// There are eight of them.
pub proof fn lemma_seg_magic()
    ensures
        seg_magic().len() == 8,
{
    reveal_strlit("HOLOFSW1");
    vstd::utf8::is_ascii_chars_encode_utf8("HOLOFSW1"@);
}

/// What identifies a shard at the start of a put.
pub open spec fn put_head(object_id: u64, channel: u8, layer: u8, hash: Seq<u8>) -> Seq<u8> {
    be64(object_id) + seq![channel, layer] + hash
}

/// The body of a plain put.
pub open spec fn put_body(head: Seq<u8>, shard: Piece) -> Seq<u8> {
    head + be32(len32(shard.coeffs.len())) + be32(len32(shard.payload.len())) + shard.coeffs
        + shard.payload
}

/// What a sealed put seals.
pub open spec fn sealed_plain(shard: Piece) -> Seq<u8> {
    be32(len32(shard.coeffs.len())) + shard.coeffs + shard.payload
}

/// The body of a sealed put.
pub open spec fn sealed_body(head: Seq<u8>, blob: Seq<u8>) -> Seq<u8> {
    head + be32(len32(blob.len())) + blob
}

/// Hashes in a row.
pub open spec fn joined(hashes: Seq<Seq<u8>>) -> Seq<u8>
    decreases hashes.len(),
{
    if hashes.len() == 0 {
        Seq::empty()
    } else {
        joined(hashes.drop_last()) + hashes.last()
    }
}

/// The body of a purge by hashes.
pub open spec fn hashes_body(hashes: Seq<Seq<u8>>) -> Seq<u8> {
    be32(len32(hashes.len())) + joined(hashes)
}

/// A whole record.
pub open spec fn frame(kind: u8, body: Seq<u8>) -> Seq<u8> {
    be32(len32(1 + body.len())) + seq![kind] + body + digest(kind, body)
}

/// The digest behind a record.
pub open spec fn digest(kind: u8, body: Seq<u8>) -> Seq<u8> {
    sha256_of(seq![kind] + body)@.subrange(0, 8)
}

/// The shard in the opened part of a sealed put.
pub open spec fn parse_sealed_plain(head: Seq<u8>, p: Seq<u8>) -> Result<Rec, WalError> {
    if p.len() < 4 || p.len() - 4 < u32_of(p.subrange(0, 4)) {
        Err(WalError::SealedPlainShort)
    } else {
        let n = u32_of(p.subrange(0, 4)) as int;
        Ok(
            Rec::Put {
                object_id: u64_of(head.subrange(0, 8)),
                channel: head[8],
                layer: head[9],
                hash: head.subrange(10, 42),
                shard: Piece { coeffs: p.subrange(4, 4 + n), payload: p.subrange(4 + n, p.len() as int) },
            },
        )
    }
}

/// The record with this kind and body, read with these keys.
#[verifier::opaque]
pub open spec fn parse_body(kind: u8, b: Seq<u8>, keys: Option<Seq<Dek>>) -> Result<Rec, WalError> {
    if kind == KIND_PUT_PLAIN {
        if b.len() < 50 {
            Err(WalError::PutHeaderShort)
        } else {
            let c = u32_of(b.subrange(42, 46)) as int;
            let p = u32_of(b.subrange(46, 50)) as int;
            if b.len() < 50 + c + p {
                Err(WalError::PutLength)
            } else {
                Ok(
                    Rec::Put {
                        object_id: u64_of(b.subrange(0, 8)),
                        channel: b[8],
                        layer: b[9],
                        hash: b.subrange(10, 42),
                        shard: Piece {
                            coeffs: b.subrange(50, 50 + c),
                            payload: b.subrange(50 + c, 50 + c + p),
                        },
                    },
                )
            }
        }
    } else if kind == KIND_PUT_SEALED {
        match keys {
            None => Err(WalError::SealedWithoutKey),
            Some(deks) => if b.len() < 46 {
                Err(WalError::SealedHeaderShort)
            } else {
                let n = u32_of(b.subrange(42, 46)) as int;
                if b.len() < 46 + n {
                    Err(WalError::SealedLength)
                } else if n < 28 {
                    Err(WalError::SealedBlobShort)
                } else {
                    match unseal_any(deks, b.subrange(0, 42), b.subrange(46, 46 + n)) {
                        None => Err(WalError::SealedNotOpened { keys: deks.len() as usize }),
                        Some(p) => parse_sealed_plain(b.subrange(0, 42), p),
                    }
                }
            },
        }
    } else if kind == KIND_PURGE {
        if b.len() != 8 {
            Err(WalError::PurgeLength)
        } else {
            Ok(Rec::Purge { object_id: u64_of(b) })
        }
    } else if kind == KIND_PURGE_HASHES {
        if b.len() < 4 {
            Err(WalError::HashesShort)
        } else {
            let count = u32_of(b.subrange(0, 4));
            if b.len() != 4 + count * 32 {
                Err(WalError::HashesLength { count, body_len: b.len() as u64 })
            } else {
                Ok(
                    Rec::PurgeHashes {
                        hashes: Seq::new(count as nat, |i: int| b.subrange(4 + i * 32, 36 + i * 32)),
                    },
                )
            }
        }
    } else if kind == KIND_WIPE {
        if b.len() != 0 {
            Err(WalError::WipeLength)
        } else {
            Ok(Rec::Wipe)
        }
    } else {
        Err(WalError::UnknownKind(kind))
    }
}

/// What stands at the start of a row of records.
pub enum Next {
    /// No whole record: the log ends here.
    Torn,
    /// A record without so much as a kind.
    Zero,
    /// A whole record, so many bytes long.
    Whole { kind: u8, body: Seq<u8>, len: int },
}

/// What stands at the start of `s`.
pub open spec fn next_frame(s: Seq<u8>) -> Next {
    if s.len() < 4 {
        Next::Torn
    } else {
        let n = u32_of(s.subrange(0, 4)) as int;
        if n == 0 {
            Next::Zero
        } else if s.len() < 4 + n + 8 {
            Next::Torn
        } else if s.subrange(4 + n, 12 + n) != sha256_of(s.subrange(4, 4 + n))@.subrange(0, 8) {
            Next::Torn
        } else {
            Next::Whole { kind: s[4], body: s.subrange(5, 4 + n), len: 12 + n }
        }
    }
}

/// The records that were read, and what was left unread behind them.
pub struct Scan {
    pub records: Seq<Rec>,
    pub rest: Seq<u8>,
}

/// The records at the start of `s`.
pub open spec fn scan(s: Seq<u8>, keys: Option<Seq<Dek>>) -> Result<Scan, WalError>
    decreases s.len(),
{
    match next_frame(s) {
        Next::Torn => Ok(Scan { records: Seq::empty(), rest: s }),
        Next::Zero => Err(WalError::ZeroLength),
        Next::Whole { kind, body, len } => match parse_body(kind, body, keys) {
            Err(e) => Err(e),
            Ok(r) => if 0 < len <= s.len() {
                prepend(seq![r], scan(s.skip(len), keys))
            } else {
                Err(WalError::ZeroLength)
            },
        },
    }
}

/// A scan with some records before it.
pub open spec fn prepend(records: Seq<Rec>, s: Result<Scan, WalError>) -> Result<Scan, WalError> {
    match s {
        Err(e) => Err(e),
        Ok(t) => Ok(Scan { records: records + t.records, rest: t.rest }),
    }
}

/// The records of a segment.
pub open spec fn segment(b: Seq<u8>, keys: Option<Seq<Dek>>) -> Result<Scan, WalError> {
    if b.len() < 8 {
        Ok(Scan { records: Seq::empty(), rest: b })
    } else if b.subrange(0, 8) != seg_magic() {
        Err(WalError::WrongMagic(u64_of(b.subrange(0, 8))))
    } else {
        scan(b.skip(8), keys)
    }
}

/// The keys of a ring, where there is one.
pub open spec fn ring_keys(keys: Option<&Keyring>) -> Option<Seq<Dek>> {
    match keys {
        Some(k) => Some(k@.deks),
        None => None,
    }
}

/// What a reading gave, with the record as a mathematical value.
pub open spec fn read_as(r: Result<RecordKind, WalError>) -> Result<Rec, WalError> {
    match r {
        Ok(x) => Ok(x@),
        Err(e) => Err(e),
    }
}

/// The shard in the opened part of a sealed put.
fn read_sealed_plain(head: &[u8], p: &[u8]) -> (r: Result<RecordKind, WalError>)
    requires
        head@.len() == 42,
    ensures
        read_as(r) == parse_sealed_plain(head@, p@),
        p@.len() <= u32::MAX ==> (r matches Ok(x) ==> rec_fits(x@)),
{
    if p.len() < 4 {
        return Err(WalError::SealedPlainShort);
    }
    let n32: u32 = read_be32(p, 0);
    if ((p.len() - 4) as u64) < n32 as u64 {
        return Err(WalError::SealedPlainShort);
    }
    let n: usize = n32 as usize;
    Ok(
        RecordKind::Put {
            object_id: read_be64(head, 0),
            channel: head[8],
            layer: head[9],
            hash: copy32(head, 10),
            shard: Shard {
                coeffs: copy_range(p, 4, 4 + n),
                payload: copy_range(p, 4 + n, p.len()),
            },
        },
    )
}

/// The record of a plain put.
fn read_put_plain(b: &[u8], keys: Ghost<Option<Seq<Dek>>>) -> (r: Result<RecordKind, WalError>)
    ensures
        read_as(r) == parse_body(KIND_PUT_PLAIN, b@, keys@),
        b@.len() <= u32::MAX ==> (r matches Ok(x) ==> rec_fits(x@)),
{
    proof {
        reveal(parse_body);
    }
    if b.len() < PUT_PLAIN_HEADER_LEN {
        return Err(WalError::PutHeaderShort);
    }
    let c32: u32 = read_be32(b, 42);
    let p32: u32 = read_be32(b, 46);
    if (b.len() as u64) < 50 + c32 as u64 + p32 as u64 {
        return Err(WalError::PutLength);
    }
    let c: usize = c32 as usize;
    let p: usize = p32 as usize;
    Ok(
        RecordKind::Put {
            object_id: read_be64(b, 0),
            channel: b[8],
            layer: b[9],
            hash: copy32(b, 10),
            shard: Shard {
                coeffs: copy_range(b, 50, 50 + c),
                payload: copy_range(b, 50 + c, 50 + c + p),
            },
        },
    )
}

/// The record of a sealed put.
fn read_put_sealed(b: &[u8], keys: Option<&Keyring>) -> (r: Result<RecordKind, WalError>)
    ensures
        read_as(r) == parse_body(KIND_PUT_SEALED, b@, ring_keys(keys)),
        b@.len() <= u32::MAX ==> (r matches Ok(x) ==> rec_fits(x@)),
{
    proof {
        reveal(parse_body);
    }
    let ring = match keys {
        None => {
            return Err(WalError::SealedWithoutKey);
        },
        Some(k) => k,
    };
    if b.len() < PUT_SEALED_AAD_LEN + 4 {
        return Err(WalError::SealedHeaderShort);
    }
    let n32: u32 = read_be32(b, 42);
    if (b.len() as u64) < 46 + n32 as u64 {
        return Err(WalError::SealedLength);
    }
    if n32 < 28 {
        return Err(WalError::SealedBlobShort);
    }
    let n: usize = n32 as usize;
    let head = slice_subrange(b, 0, 42);
    let blob = slice_subrange(b, 46, 46 + n);
    match ring.decrypt_any(head, blob) {
        Err(e) => Err(WalError::SealedNotOpened { keys: e.keys }),
        Ok(p) => read_sealed_plain(head, p.as_slice()),
    }
}

/// The record of a purge by hashes.
fn read_purge_hashes(b: &[u8], keys: Ghost<Option<Seq<Dek>>>) -> (r: Result<RecordKind, WalError>)
    ensures
        read_as(r) == parse_body(KIND_PURGE_HASHES, b@, keys@),
        b@.len() <= u32::MAX ==> (r matches Ok(x) ==> rec_fits(x@)),
{
    proof {
        reveal(parse_body);
    }
    if b.len() < 4 {
        return Err(WalError::HashesShort);
    }
    let count: u32 = read_be32(b, 0);
    if b.len() as u64 != 4 + count as u64 * 32 {
        return Err(WalError::HashesLength { count, body_len: b.len() as u64 });
    }
    let total: usize = b.len();
    let mut hashes: Vec<ShardHash> = Vec::new();
    let mut at: usize = 4;
    let mut i: u32 = 0;
    while i < count
        invariant
            0 <= i <= count,
            total == b@.len() == 4 + count * 32,
            at == 4 + i * 32,
            hashes@.len() == i,
            forall|j: int|
                0 <= j < i ==> (#[trigger] hashes@[j])@ == b@.subrange(4 + j * 32, 36 + j * 32),
        decreases count - i,
    {
        hashes.push(copy32(b, at));
        at += 32;
        i += 1;
    }
    proof {
        let want = Seq::new(count as nat, |i: int| b@.subrange(4 + i * 32, 36 + i * 32));
        assert(hash_views(hashes@) =~= want);
    }
    Ok(RecordKind::PurgeHashes { hashes })
}

/// The record with this kind and body, read with these keys.
pub fn read_body(kind: u8, b: &[u8], keys: Option<&Keyring>) -> (r: Result<RecordKind, WalError>)
    ensures
        read_as(r) == parse_body(kind, b@, ring_keys(keys)),
        b@.len() <= u32::MAX ==> (r matches Ok(x) ==> rec_fits(x@)),
{
    proof {
        reveal(parse_body);
    }
    if kind == KIND_PUT_PLAIN {
        read_put_plain(b, Ghost(ring_keys(keys)))
    } else if kind == KIND_PUT_SEALED {
        read_put_sealed(b, keys)
    } else if kind == KIND_PURGE {
        if b.len() != 8 {
            Err(WalError::PurgeLength)
        } else {
            assert(b@.subrange(0, 8) =~= b@);
            Ok(RecordKind::Purge { object_id: read_be64(b, 0) })
        }
    } else if kind == KIND_PURGE_HASHES {
        read_purge_hashes(b, Ghost(ring_keys(keys)))
    } else if kind == KIND_WIPE {
        if b.len() != 0 {
            Err(WalError::WipeLength)
        } else {
            Ok(RecordKind::Wipe)
        }
    } else {
        Err(WalError::UnknownKind(kind))
    }
}

/// The records of a segment, and how many bytes of it they take.
fn read_records(b: &[u8], keys: Option<&Keyring>) -> (r: Result<(Vec<RecordKind>, usize), WalError>)
    requires
        b@.len() >= 8,
    ensures
        match r {
            Ok((v, n)) => n <= b@.len() && scan(b@.skip(8), ring_keys(keys)) == Ok::<Scan, WalError>(
                Scan { records: record_views(v@), rest: b@.skip(n as int) },
            ),
            Err(e) => scan(b@.skip(8), ring_keys(keys)) == Err::<Scan, WalError>(e),
        },
        r matches Ok((v, _)) ==> forall|i: int|
            0 <= i < v@.len() ==> rec_fits(#[trigger] record_views(v@)[i]),
{
    let mut out: Vec<RecordKind> = Vec::new();
    let mut pos: usize = 8;
    let ghost all = scan(b@.skip(8), ring_keys(keys));
    proof {
        if let Ok(t) = all {
            assert(record_views(out@) + t.records =~= t.records);
        }
    }
    loop
        invariant
            8 <= pos <= b@.len(),
            all == scan(b@.skip(8), ring_keys(keys)),
            all == prepend(record_views(out@), scan(b@.skip(pos as int), ring_keys(keys))),
            forall|i: int| 0 <= i < out@.len() ==> rec_fits(#[trigger] record_views(out@)[i]),
        decreases b@.len() - pos,
    {
        let ghost s = b@.skip(pos as int);
        let left: usize = b.len() - pos;
        if left < 4 {
            assert(record_views(out@) + Seq::<Rec>::empty() =~= record_views(out@));
            return Ok((out, pos));
        }
        let n32: u32 = read_be32(b, pos);
        assert(s.subrange(0, 4) =~= b@.subrange(pos as int, pos + 4));
        if n32 == 0 {
            return Err(WalError::ZeroLength);
        }
        if (left as u64) < 12 + n32 as u64 {
            assert(record_views(out@) + Seq::<Rec>::empty() =~= record_views(out@));
            return Ok((out, pos));
        }
        let n: usize = n32 as usize;
        let kind_and_body = slice_subrange(b, pos + 4, pos + 4 + n);
        let found = slice_subrange(b, pos + 4 + n, pos + 12 + n);
        let whole: [u8; 32] = sha256(kind_and_body);
        let want = slice_subrange(whole.as_slice(), 0, DIGEST_LEN);
        proof {
            assert(s.subrange(4, 4 + n) =~= kind_and_body@);
            assert(s.subrange(4 + n, 12 + n) =~= found@);
        }
        if !same_bytes(found, want) {
            assert(record_views(out@) + Seq::<Rec>::empty() =~= record_views(out@));
            return Ok((out, pos));
        }
        let body = slice_subrange(kind_and_body, 1, n);
        proof {
            assert(s.subrange(5, 4 + n) =~= body@);
            assert(s[4] == kind_and_body@[0]);
        }
        match read_body(kind_and_body[0], body, keys) {
            Err(e) => {
                return Err(e);
            },
            Ok(r) => {
                let ghost before = record_views(out@);
                out.push(r);
                pos = pos + 12 + n;
                proof {
                    assert(s.skip(12 + n) =~= b@.skip(pos as int));
                    assert(record_views(out@) =~= before + seq![r@]);
                    assert forall|i: int| 0 <= i < out@.len() implies rec_fits(
                        #[trigger] record_views(out@)[i],
                    ) by {
                        if i < before.len() {
                            assert(before[i] == record_views(out@)[i]);
                        }
                    }
                    if let Ok(t) = scan(b@.skip(pos as int), ring_keys(keys)) {
                        assert(before + (seq![r@] + t.records) =~= record_views(out@) + t.records);
                    }
                }
            },
        }
    }
}

/// The records of a segment, in the order in which they were written.
///
/// A segment shorter than its magic holds none. Where a record is cut short or
/// its digest does not fit, the reading ends without an error; the records behind
/// it were never committed.
pub fn read_segment(b: &[u8], keys: Option<&Keyring>) -> (r: Result<Vec<RecordKind>, WalError>)
    ensures
        match r {
            Ok(v) => segment(b@, ring_keys(keys)) matches Ok(t) && record_views(v@) == t.records,
            Err(e) => segment(b@, ring_keys(keys)) == Err::<Scan, WalError>(e),
        },
        r matches Ok(v) ==> forall|i: int|
            0 <= i < v@.len() ==> rec_fits(#[trigger] record_views(v@)[i]),
{
    if b.len() < 8 {
        let out: Vec<RecordKind> = Vec::new();
        assert(record_views(out@) =~= Seq::<Rec>::empty());
        return Ok(out);
    }
    proof {
        lemma_seg_magic();
    }
    if !has_at(b, 0, "HOLOFSW1".as_bytes()) {
        return Err(WalError::WrongMagic(read_be64(b, 0)));
    }
    match read_records(b, keys) {
        Ok((v, _)) => Ok(v),
        Err(e) => Err(e),
    }
}

/// The records of a segment that was closed.
pub open spec fn closed_segment(b: Seq<u8>, keys: Option<Seq<Dek>>) -> Result<Seq<Rec>, WalError> {
    match segment(b, keys) {
        Err(e) => Err(e),
        Ok(t) => if b.len() < 8 || t.rest.len() > 0 {
            Err(WalError::Incomplete)
        } else {
            Ok(t.records)
        },
    }
}

/// The records of a segment that was written in one go and closed: here a record
/// that is cut short or does not fit its digest is corruption.
pub fn read_closed_segment(b: &[u8], keys: Option<&Keyring>) -> (r: Result<Vec<RecordKind>, WalError>)
    ensures
        match r {
            Ok(v) => closed_segment(b@, ring_keys(keys)) == Ok::<Seq<Rec>, WalError>(record_views(v@)),
            Err(e) => closed_segment(b@, ring_keys(keys)) == Err::<Seq<Rec>, WalError>(e),
        },
        r matches Ok(v) ==> forall|i: int|
            0 <= i < v@.len() ==> rec_fits(#[trigger] record_views(v@)[i]),
{
    if b.len() < 8 {
        return Err(WalError::Incomplete);
    }
    proof {
        lemma_seg_magic();
    }
    if !has_at(b, 0, "HOLOFSW1".as_bytes()) {
        return Err(WalError::WrongMagic(read_be64(b, 0)));
    }
    match read_records(b, keys) {
        Ok((v, n)) => if n == b.len() {
            assert(b@.skip(n as int) =~= Seq::<u8>::empty());
            Ok(v)
        } else {
            Err(WalError::Incomplete)
        },
        Err(e) => Err(e),
    }
}

/// What a writer has done: the number of its segment, how long the segment is,
/// what of it has not been flushed yet, and the ring that it seals with.
pub struct Log {
    pub seq: u64,
    pub written: u64,
    pub pending: Seq<u8>,
    pub rotate_at: u64,
    pub ring: Option<Ring>,
    pub append_fault: Option<ErrorKind>,
    pub sync_fault: Option<ErrorKind>,
}

/// The writer of the active segment. Records are collected in `pending` until
/// the owner has put them on disk.
pub struct WalWriter {
    seq: u64,
    bytes_written: u64,
    pending: Vec<u8>,
    keys: Option<Keyring>,
    rotate_at: u64,
    faults: Faults,
}

impl View for WalWriter {
    type V = Log;

    closed spec fn view(&self) -> Log {
        Log {
            seq: self.seq,
            written: self.bytes_written,
            pending: self.pending@,
            rotate_at: self.rotate_at,
            ring: match self.keys {
                Some(k) => Some(k@),
                None => None,
            },
            append_fault: self.faults.append_fault(),
            sync_fault: self.faults.sync_fault(),
        }
    }
}

/// `a + b`, or the greatest number where that does not fit.
pub open spec fn sum_up_to_max(a: u64, b: int) -> u64 {
    if a + b > u64::MAX {
        u64::MAX
    } else {
        (a + b) as u64
    }
}

impl Log {
    /// The log after one more record.
    pub open spec fn recorded(self, kind: u8, body: Seq<u8>) -> Log {
        Log {
            written: sum_up_to_max(self.written, 13 + body.len() as int),
            pending: self.pending + frame(kind, body),
            ..self
        }
    }

    /// The log after several more records.
    pub open spec fn recorded_all(self, list: Seq<crate::wal_laws::Raw>) -> Log
        decreases list.len(),
    {
        if list.len() == 0 {
            self
        } else {
            self.recorded_all(list.drop_last()).recorded(list.last().kind, list.last().body)
        }
    }

    /// The log without the fault for the next append.
    pub open spec fn append_cleared(self) -> Log {
        Log { append_fault: None, ..self }
    }

    /// Whether the ring that it seals with has a current key.
    pub open spec fn wf(self) -> bool {
        self.ring matches Some(r) ==> r.wf()
    }

    /// Whether `after` is this log with the record of a put behind it.
    pub open spec fn put_recorded(self, head: Seq<u8>, shard: Piece, after: Log) -> bool {
        exists|kind: u8, body: Seq<u8>|
            {
                &&& is_put_record(self.ring, head, shard, kind, body)
                &&& after == #[trigger] self.recorded(kind, body)
            }
    }
}

/// Records go behind what is pending, and change nothing else but the length.
pub proof fn lemma_recorded_all(l: Log, list: Seq<crate::wal_laws::Raw>)
    ensures
        l.recorded_all(list) == (Log {
            pending: l.pending + crate::wal_laws::log_of(list),
            written: l.recorded_all(list).written,
            ..l
        }),
    decreases list.len(),
{
    if list.len() == 0 {
        assert(l.pending + crate::wal_laws::log_of(list) =~= l.pending);
    } else {
        let t = list.drop_last();
        lemma_recorded_all(l, t);
        crate::wal_laws::log_of_push(t, list.last());
        assert(t.push(list.last()) =~= list);
        assert(l.recorded_all(list).pending =~= l.pending + crate::wal_laws::log_of(list));
    }
}

/// Whether a record with this kind and body is that of a put: in the clear without
/// a ring, sealed under the current key with one.
pub open spec fn is_put_record(
    ring: Option<Ring>,
    head: Seq<u8>,
    shard: Piece,
    kind: u8,
    body: Seq<u8>,
) -> bool {
    match ring {
        None => kind == KIND_PUT_PLAIN && body == put_body(head, shard),
        Some(r) => kind == KIND_PUT_SEALED && exists|blob: Seq<u8>|
            {
                &&& r.seals(head, sealed_plain(shard), blob)
                &&& body == #[trigger] sealed_body(head, blob)
            },
    }
}

/// The ring that `keys` stands for, where there is one.
pub open spec fn ring_of(keys: Option<&Keyring>) -> Option<Ring> {
    match keys {
        Some(k) => Some(k@),
        None => None,
    }
}

/// The kind and body of the record of a put.
pub fn encode_put(
    keys: Option<&Keyring>,
    object_id: u64,
    channel: u8,
    layer: u8,
    hash: &ShardHash,
    shard: &Shard,
) -> (r: (u8, Vec<u8>))
    requires
        keys matches Some(k) ==> k.wf(),
        shard.fits(),
    ensures
        is_put_record(
            ring_of(keys),
            put_head(object_id, channel, layer, hash@),
            shard@,
            r.0,
            r.1@,
        ),
{
    let ghost head = put_head(object_id, channel, layer, hash@);
    let mut body: Vec<u8> = Vec::new();
    push_be64(&mut body, object_id);
    body.push(channel);
    body.push(layer);
    append(&mut body, hash.as_slice());
    assert(body@ =~= head);
    match keys {
        Some(ring) => {
            let mut plain: Vec<u8> = Vec::new();
            push_be32(&mut plain, field32(shard.coeffs.len()));
            append(&mut plain, shard.coeffs.as_slice());
            append(&mut plain, shard.payload.as_slice());
            assert(plain@ =~= sealed_plain(shard@));
            let blob = ring.encrypt_current(body.as_slice(), plain.as_slice());
            push_be32(&mut body, field32(blob.len()));
            append(&mut body, blob.as_slice());
            assert(body@ =~= sealed_body(head, blob@));
            (KIND_PUT_SEALED, body)
        },
        None => {
            push_be32(&mut body, field32(shard.coeffs.len()));
            push_be32(&mut body, field32(shard.payload.len()));
            append(&mut body, shard.coeffs.as_slice());
            append(&mut body, shard.payload.as_slice());
            assert(body@ =~= put_body(head, shard@));
            (KIND_PUT_PLAIN, body)
        },
    }
}

/// A whole record.
pub fn encode_frame(kind: u8, body: &[u8]) -> (r: Vec<u8>)
    ensures
        r@ == frame(kind, body@),
{
    let mut digest_input: Vec<u8> = Vec::new();
    digest_input.push(kind);
    append(&mut digest_input, body);
    let whole: [u8; 32] = sha256(digest_input.as_slice());
    let d = slice_subrange(whole.as_slice(), 0, DIGEST_LEN);
    let n: u32 = ((body.len() as u64 % 0x1_0000_0000 + 1) % 0x1_0000_0000) as u32;
    let mut out: Vec<u8> = Vec::new();
    push_be32(&mut out, n);
    out.push(kind);
    append(&mut out, body);
    append(&mut out, d);
    proof {
        assert(digest_input@ =~= seq![kind] + body@);
        assert(d@ =~= digest(kind, body@));
        assert(n == len32(1 + body@.len()));
        assert(out@ =~= frame(kind, body@));
    }
    out
}

/// What an append gives and does: the record is written, unless a fault is armed;
/// then it is cleared and nothing else changes.
pub open spec fn append_outcome(before: Log, after: Log, r: Result<(), Fault>, done: Log) -> bool {
    match before.append_fault {
        Some(k) => r == Err::<(), Fault>(Fault::Append(k)) && after == before.append_cleared(),
        None => r is Ok && after == done,
    }
}

impl WalWriter {
    /// Whether the ring that it seals with has a current key.
    pub open spec fn wf(&self) -> bool {
        self@.wf()
    }

    /// The writer of the segment behind the last one that was read.
    pub fn open(highest_replayed_seq: u64, keys: Option<Keyring>) -> (r: WalWriter)
        requires
            highest_replayed_seq < u64::MAX,
            keys matches Some(k) ==> k.wf(),
        ensures
            r.wf(),
            r@.seq == highest_replayed_seq + 1,
            r@.written == 8,
            r@.pending == seg_magic(),
            r@.ring == (match keys {
                Some(k) => Some(k@),
                None => None,
            }),
            r@.append_fault is None,
            r@.sync_fault is None,
            r@.rotate_at == ROTATE_AT,
    {
        let mut pending: Vec<u8> = Vec::new();
        append(&mut pending, "HOLOFSW1".as_bytes());
        assert(pending@ =~= seg_magic());
        WalWriter {
            seq: highest_replayed_seq + 1,
            bytes_written: 8,
            pending,
            keys,
            rotate_at: ROTATE_AT,
            faults: Faults::new(),
        }
    }

    /// Sets the length at which the writer should go on in a new segment.
    pub fn set_rotate_at(&mut self, n: u64)
        ensures
            final(self)@ == (Log { rotate_at: n, ..old(self)@ }),
    {
        self.rotate_at = n;
    }

    /// Makes the next append fail.
    pub fn arm_append_fault(&mut self, kind: ErrorKind)
        ensures
            final(self)@ == (Log { append_fault: Some(carried(kind)), ..old(self)@ }),
    {
        arm_wal_next_append_fails(&mut self.faults, kind);
    }

    /// Makes the next sync fail.
    pub fn arm_sync_fault(&mut self, kind: ErrorKind)
        ensures
            final(self)@ == (Log { sync_fault: Some(carried(kind)), ..old(self)@ }),
    {
        arm_wal_next_sync_fails(&mut self.faults, kind);
    }

    /// The number of the active segment.
    pub fn active_seq(&self) -> (r: u64)
        ensures
            r == self@.seq,
    {
        self.seq
    }

    /// How long the active segment is.
    pub fn bytes_written(&self) -> (r: u64)
        ensures
            r == self@.written,
    {
        self.bytes_written
    }

    /// What has not been flushed yet.
    pub fn pending(&self) -> (r: &[u8])
        ensures
            r@ == self@.pending,
    {
        self.pending.as_slice()
    }

    /// The ring that the writer seals with.
    pub fn keys(&self) -> (r: Option<&Keyring>)
        ensures
            ring_of(r) == self@.ring,
    {
        self.keys.as_ref()
    }

    /// Writes one record.
    fn write_record(&mut self, kind: u8, body: &[u8]) -> (r: Result<(), Fault>)
        ensures
            append_outcome(old(self)@, final(self)@, r, old(self)@.recorded(kind, body@)),
    {
        match maybe_fail_wal_append(&mut self.faults) {
            Some(f) => {
                return Err(f);
            },
            None => {},
        }
        let f = encode_frame(kind, body);
        append(&mut self.pending, f.as_slice());
        self.bytes_written = self.bytes_written.saturating_add(13).saturating_add(
            body.len() as u64,
        );
        Ok(())
    }

    /// Writes the record of a put: sealed where the writer has a ring, else in the
    /// clear.
    pub fn append_put(
        &mut self,
        object_id: u64,
        channel: u8,
        layer: u8,
        hash: &ShardHash,
        shard: &Shard,
    ) -> (r: Result<(), Fault>)
        requires
            old(self).wf(),
            shard.fits(),
        ensures
            final(self).wf(),
            match old(self)@.append_fault {
                Some(k) => r == Err::<(), Fault>(Fault::Append(k)) && final(self)@
                    == old(self)@.append_cleared(),
                None => r is Ok && old(self)@.put_recorded(
                    put_head(object_id, channel, layer, hash@),
                    shard@,
                    final(self)@,
                ),
            },
    {
        let (kind, body) = encode_put(self.keys.as_ref(), object_id, channel, layer, hash, shard);
        let ghost before = self@;
        let r = self.write_record(kind, body.as_slice());
        proof {
            if before.append_fault is None {
                assert(self@ == before.recorded(kind, body@));
            }
        }
        r
    }

    /// Writes the record that drops an object.
    pub fn append_purge(&mut self, object_id: u64) -> (r: Result<(), Fault>)
        ensures
            append_outcome(
                old(self)@,
                final(self)@,
                r,
                old(self)@.recorded(KIND_PURGE, be64(object_id)),
            ),
    {
        let mut body: Vec<u8> = Vec::new();
        push_be64(&mut body, object_id);
        assert(body@ =~= be64(object_id));
        self.write_record(KIND_PURGE, body.as_slice())
    }

    /// Writes the record that drops the shards with these hashes.
    pub fn append_purge_hashes(&mut self, hashes: &[ShardHash]) -> (r: Result<(), Fault>)
        ensures
            append_outcome(
                old(self)@,
                final(self)@,
                r,
                old(self)@.recorded(KIND_PURGE_HASHES, hashes_body(hash_views(hashes@))),
            ),
    {
        let mut body: Vec<u8> = Vec::new();
        push_be32(&mut body, field32(hashes.len()));
        let ghost all = hash_views(hashes@);
        let ghost start = body@;
        let mut i: usize = 0;
        assert(body@ =~= start + joined(all.take(0)));
        while i < hashes.len()
            invariant
                0 <= i <= hashes@.len(),
                all == hash_views(hashes@),
                body@ == start + joined(all.take(i as int)),
            decreases hashes@.len() - i,
        {
            append(&mut body, hashes[i].as_slice());
            proof {
                assert(all.take(i + 1).drop_last() =~= all.take(i as int));
                assert(all.take(i + 1).last() == hashes@[i as int]@);
                assert(body@ =~= start + joined(all.take(i + 1)));
            }
            i += 1;
        }
        assert(all.take(i as int) =~= all);
        assert(body@ =~= hashes_body(all));
        self.write_record(KIND_PURGE_HASHES, body.as_slice())
    }

    /// Writes the record that drops everything.
    pub fn append_wipe(&mut self) -> (r: Result<(), Fault>)
        ensures
            append_outcome(old(self)@, final(self)@, r, old(self)@.recorded(KIND_WIPE, Seq::empty())),
    {
        let body: Vec<u8> = Vec::new();
        assert(body@ =~= Seq::<u8>::empty());
        self.write_record(KIND_WIPE, body.as_slice())
    }

    /// Takes note that what was pending is in the segment's file, and, where the
    /// file is to be forced to disk, reports the fault that is armed for that.
    pub fn sync(&mut self, fsync: bool) -> (r: Result<(), Fault>)
        ensures
            r == (match (fsync, old(self)@.sync_fault) {
                (true, Some(k)) => Err::<(), Fault>(Fault::Sync(k)),
                _ => Ok(()),
            }),
            final(self)@ == (Log {
                pending: Seq::empty(),
                sync_fault: if fsync {
                    None
                } else {
                    old(self)@.sync_fault
                },
                ..old(self)@
            }),
    {
        self.pending = Vec::new();
        assert(self.pending@ =~= Seq::<u8>::empty());
        if fsync {
            match maybe_fail_wal_sync(&mut self.faults) {
                Some(f) => {
                    return Err(f);
                },
                None => {},
            }
        }
        Ok(())
    }

    /// Starts over with the first segment.
    pub fn restart(&mut self)
        ensures
            final(self)@ == (Log { seq: 1, written: 8, pending: seg_magic(), ..old(self)@ }),
    {
        let mut fresh: Vec<u8> = Vec::new();
        append(&mut fresh, "HOLOFSW1".as_bytes());
        assert(fresh@ =~= seg_magic());
        self.pending = fresh;
        self.seq = 1;
        self.bytes_written = 8;
    }

    /// Whether the segment is long enough to go on in a new one.
    pub fn is_full(&self) -> (r: bool)
        ensures
            r == (self@.written >= self@.rotate_at),
    {
        self.bytes_written >= self.rotate_at
    }

    /// Goes on in a new segment. What was pending belongs to the old one and is
    /// handed back.
    pub fn rotate(&mut self) -> (r: Vec<u8>)
        requires
            old(self)@.seq < u64::MAX,
        ensures
            r@ == old(self)@.pending,
            final(self)@ == (Log {
                seq: (old(self)@.seq + 1) as u64,
                written: 8,
                pending: seg_magic(),
                ..old(self)@
            }),
    {
        let mut fresh: Vec<u8> = Vec::new();
        append(&mut fresh, "HOLOFSW1".as_bytes());
        assert(fresh@ =~= seg_magic());
        core::mem::swap(&mut self.pending, &mut fresh);
        self.seq = self.seq + 1;
        self.bytes_written = 8;
        fresh
    }
}

/// The number in the name of a segment's file.
pub open spec fn segment_number(name: Seq<char>) -> Option<nat> {
    if !ends(name, ".seg"@) {
        None
    } else {
        let stem = name.take(name.len() - 4);
        if !starts(stem, "wal-"@) {
            None
        } else {
            number(stem.skip(4), u64::MAX as nat)
        }
    }
}

/// The name of a segment's file.
pub open spec fn segment_name(seq: u64) -> Seq<char> {
    "wal-"@ + pad_left(dec(seq as nat), 8, '0') + ".seg"@
}

/// The number in the name of a segment's file.
pub fn parse_segment_name(name: &str) -> (r: Option<u64>)
    ensures
        match r {
            Some(n) => segment_number(name@) == Some(n as nat),
            None => segment_number(name@) is None,
        },
{
    proof {
        reveal_strlit(".seg");
        reveal_strlit("wal-");
    }
    let v = chars_of(name);
    match strip_suffix(v.as_slice(), ".seg") {
        None => None,
        Some(stem) => match strip_prefix(stem, "wal-") {
            None => None,
            Some(digits) => parse_number(digits, u64::MAX),
        },
    }
}

/// The name of a segment's file.
pub fn segment_path(seq: u64) -> (r: String)
    ensures
        r@ == segment_name(seq),
{
    String::from_str("wal-").concat(dec_padded(seq, 8).as_str()).concat(".seg")
}

/// The number in a segment's name is the one it was made from.
pub proof fn segment_names_round_trip(seq: u64)
    ensures
        segment_number(segment_name(seq)) == Some(seq as nat),
{
    reveal_strlit(".seg");
    reveal_strlit("wal-");
    let d = pad_left(dec(seq as nat), 8, '0');
    let n = segment_name(seq);
    padded_round_trip(seq as nat, 8, u64::MAX as nat);
    assert(n.skip(n.len() - 4) =~= ".seg"@);
    let stem = n.take(n.len() - 4);
    assert(stem =~= "wal-"@ + d);
    assert(stem.take(4) =~= "wal-"@);
    assert(stem.skip(4) =~= d);
}

/// A segment's number and name.
pub type Numbered = (u64, String);

/// The segments among some file names, with their numbers.
pub open spec fn numbered(names: Seq<String>) -> Seq<Numbered>
    decreases names.len(),
{
    if names.len() == 0 {
        Seq::empty()
    } else {
        let rest = numbered(names.drop_last());
        match segment_number(names.last()@) {
            Some(n) => rest.push((n as u64, names.last())),
            None => rest,
        }
    }
}

/// `s` with `x` behind everything that has no greater number.
pub open spec fn inserted(s: Seq<Numbered>, x: Numbered) -> Seq<Numbered>
    decreases s.len(),
{
    if s.len() == 0 || s.last().0 <= x.0 {
        s.push(x)
    } else {
        inserted(s.drop_last(), x).push(s.last())
    }
}

/// `s` in the order of the numbers; equal numbers stay in their order.
pub open spec fn by_number(s: Seq<Numbered>) -> Seq<Numbered>
    decreases s.len(),
{
    if s.len() == 0 {
        s
    } else {
        inserted(by_number(s.drop_last()), s.last())
    }
}

/// Whether the numbers do not fall.
pub open spec fn rising(s: Seq<Numbered>) -> bool {
    forall|i: int, j: int| 0 <= i < j < s.len() ==> (#[trigger] s[i]).0 <= (#[trigger] s[j]).0
}

/// Whether no number is over `b`.
spec fn none_over(s: Seq<Numbered>, b: u64) -> bool {
    forall|i: int| 0 <= i < s.len() ==> (#[trigger] s[i]).0 <= b
}

proof fn lemma_inserted(s: Seq<Numbered>, x: Numbered)
    requires
        rising(s),
    ensures
        rising(inserted(s, x)),
        inserted(s, x).to_multiset() == s.to_multiset().insert(x),
        inserted(s, x).len() == s.len() + 1,
        forall|b: u64|
            x.0 <= b && #[trigger] none_over(s, b) ==> none_over(inserted(s, x), b),
    decreases s.len(),
{
    broadcast use vstd::seq_lib::group_to_multiset_ensures;

    let r = inserted(s, x);
    if s.len() == 0 || s.last().0 <= x.0 {
        assert forall|i: int, j: int| 0 <= i < j < r.len() implies (#[trigger] r[i]).0 <= (
        #[trigger] r[j]).0 by {
            if j == s.len() {
                assert(s[i].0 <= s.last().0);
            }
        }
    } else {
        let t = s.drop_last();
        lemma_inserted(t, x);
        assert(none_over(t, s.last().0));
        assert(r =~= inserted(t, x).push(s.last()));
        assert(t.push(s.last()) =~= s);
        assert(r.to_multiset() =~= s.to_multiset().insert(x));
        assert forall|b: u64| x.0 <= b && #[trigger] none_over(s, b) implies none_over(r, b) by {
            assert(none_over(t, b));
            assert(s[s.len() - 1].0 <= b);
        }
    }
}

/// Putting segments in order keeps them all and leaves the numbers rising.
pub proof fn by_number_is_sorted(s: Seq<Numbered>)
    ensures
        rising(by_number(s)),
        by_number(s).to_multiset() == s.to_multiset(),
    decreases s.len(),
{
    broadcast use vstd::seq_lib::group_to_multiset_ensures;

    if s.len() > 0 {
        by_number_is_sorted(s.drop_last());
        lemma_inserted(by_number(s.drop_last()), s.last());
        assert(s.drop_last().push(s.last()) =~= s);
    }
}

/// Puts `x` behind everything in `v` that has no greater number.
fn insert_numbered(v: &mut Vec<Numbered>, x: Numbered)
    ensures
        final(v)@ == inserted(old(v)@, x),
{
    let ghost s = v@;
    let mut i: usize = v.len();
    proof {
        assert(s.take(i as int) =~= s);
        assert(inserted(s.take(i as int), x) + s.skip(i as int) =~= inserted(s, x));
    }
    while i > 0 && v[i - 1].0 > x.0
        invariant
            v@ == s,
            0 <= i <= s.len(),
            inserted(s, x) == inserted(s.take(i as int), x) + s.skip(i as int),
        decreases i,
    {
        i -= 1;
        proof {
            assert(s.take(i + 1).drop_last() =~= s.take(i as int));
            assert(inserted(s.take(i as int), x).push(s[i as int]) + s.skip(i + 1) =~= inserted(
                s.take(i as int),
                x,
            ) + s.skip(i as int));
        }
    }
    v.insert(i, x);
    proof {
        assert(v@ =~= s.take(i as int).push(x) + s.skip(i as int));
    }
}

/// The segments among the files of a directory, in the order of their numbers.
pub fn walk_wal_segments(names: &Vec<String>) -> (r: Vec<Numbered>)
    ensures
        r@ == by_number(numbered(names@)),
        rising(r@),
{
    let mut out: Vec<Numbered> = Vec::new();
    let mut i: usize = 0;
    while i < names.len()
        invariant
            0 <= i <= names@.len(),
            out@ == by_number(numbered(names@.take(i as int))),
        decreases names@.len() - i,
    {
        let ghost t = names@.take(i + 1);
        assert(t.drop_last() =~= names@.take(i as int));
        let name: String = names[i].clone();
        match parse_segment_name(name.as_str()) {
            Some(n) => {
                proof {
                    let u = numbered(t);
                    assert(u.drop_last() =~= numbered(names@.take(i as int)));
                }
                insert_numbered(&mut out, (n, name));
            },
            None => {},
        }
        i += 1;
    }
    assert(names@.take(i as int) =~= names@);
    proof {
        by_number_is_sorted(numbered(names@));
    }
    out
}

} // verus!
