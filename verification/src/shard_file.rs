//! Single-shard files, as nodes wrote them before they had a log.
//!
//! A file is a header of 26 bytes and the coefficients and the payload behind it,
//! in the clear (`HOLOFSS1`) or sealed with the header as associated data
//! (`HOLOFSS2`).
use vstd::prelude::*;
use vstd::slice::slice_subrange;
use vstd::string::StringExecFns;
use vstd::utf8::encode_utf8;

use crate::bytes::{
    append, be32, be64, copy_range, field32, has_at, len32, push_be32, push_be64, read_be32,
    read_be64, u32_of, u64_of,
};
use crate::crypto::{sha256, sha256_of};
use crate::hex::{encode_hex_bytes, hex};
use crate::keyring::{unseal_any, Dek, Keyring, Ring};
use crate::text::{
    after_last, behind_last, chars_of, dec, dec_string, ends, skip_chars, string_of, strip_suffix,
    take_chars,
};
use crate::wal::{ring_keys, ring_of, ShardHash, Piece, Shard};

verus! {

broadcast use crate::bytes::group_be;

/// Object, channel and layer of a shard.
pub type Key = (u64, u8, u8);

/// What a shard is known by: the SHA-256 digest of its coefficients and its
/// payload.
pub open spec fn shard_digest(shard: Piece) -> Seq<u8> {
    sha256_of(shard.coeffs + shard.payload)@
}

/// What a shard is known by.
pub fn shard_hash(shard: &Shard) -> (r: ShardHash)
    ensures
        r@ == shard_digest(shard@),
{
    let mut b: Vec<u8> = Vec::new();
    append(&mut b, shard.coeffs.as_slice());
    append(&mut b, shard.payload.as_slice());
    assert(b@ =~= shard.coeffs@ + shard.payload@);
    sha256(b.as_slice())
}

/// Why a file is not taken for a shard.
#[derive(Debug, Clone, Copy, PartialEq, Eq, Structural)]
pub enum ShardFileError {
    /// The file ends too early.
    Truncated,
    /// The file is sealed and there are no keys.
    NoKeyring,
    /// None of so many keys opens the file.
    NotOpened { keys: usize },
    /// What was sealed is not as long as the header says.
    LengthMismatch { got: usize, coeffs: u32, payload: u32 },
    /// The file does not begin as a shard file does.
    UnknownMagic,
}

impl ShardFileError {
    /// The error in words.
    pub open spec fn text(self) -> Seq<char> {
        match self {
            ShardFileError::Truncated => "failed to fill whole buffer"@,
            ShardFileError::NoKeyring =>
                "shard file is sealed (HOLOFSS2) but no keyring configured"@,
            ShardFileError::NotOpened { keys } => "shard decrypt: decrypt failed under all "@ + dec(
                keys as nat,
            ) + " DEK(s) in keyring"@,
            ShardFileError::LengthMismatch { got, coeffs, payload } =>
                "decrypted shard length mismatch: got "@ + dec(got as nat) + ", header wants "@ + dec(
                    coeffs as nat,
                ) + "+"@ + dec(payload as nat),
            ShardFileError::UnknownMagic => "not a holofs shard file (unknown magic)"@,
        }
    }

    /// The error in words.
    pub fn message(&self) -> (r: String)
        ensures
            r@ == self.text(),
    {
        match self {
            ShardFileError::Truncated => String::from_str("failed to fill whole buffer"),
            ShardFileError::NoKeyring => String::from_str(
                "shard file is sealed (HOLOFSS2) but no keyring configured",
            ),
            ShardFileError::NotOpened { keys } => String::from_str(
                "shard decrypt: decrypt failed under all ",
            ).concat(dec_string(*keys as u64).as_str()).concat(" DEK(s) in keyring"),
            ShardFileError::LengthMismatch { got, coeffs, payload } => String::from_str(
                "decrypted shard length mismatch: got ",
            ).concat(dec_string(*got as u64).as_str()).concat(", header wants ").concat(
                dec_string(*coeffs as u64).as_str(),
            ).concat("+").concat(dec_string(*payload as u64).as_str()),
            ShardFileError::UnknownMagic => String::from_str(
                "not a holofs shard file (unknown magic)",
            ),
        }
    }
}

/// The first bytes of a shard file.
pub open spec fn shard_magic(sealed: bool) -> Seq<u8> {
    if sealed {
        encode_utf8("HOLOFSS2"@)
    } else {
        encode_utf8("HOLOFSS1"@)
    }
}

/// There are eight of them, and they differ.
pub proof fn lemma_shard_magic()
    ensures
        shard_magic(true).len() == 8,
        shard_magic(false).len() == 8,
        shard_magic(true) != shard_magic(false),
{
    reveal_strlit("HOLOFSS1");
    reveal_strlit("HOLOFSS2");
    vstd::utf8::is_ascii_chars_encode_utf8("HOLOFSS1"@);
    vstd::utf8::is_ascii_chars_encode_utf8("HOLOFSS2"@);
    assert(shard_magic(true)[7] == 0x32);
    assert(shard_magic(false)[7] == 0x31);
}

/// The header of a shard file.
pub open spec fn shard_header(sealed: bool, key: Key, shard: Piece) -> Seq<u8> {
    shard_magic(sealed) + be64(key.0) + seq![key.1, key.2] + be32(len32(shard.coeffs.len())) + be32(
        len32(shard.payload.len()),
    )
}

/// Whether `bytes` is the file of a shard: in the clear without a ring, sealed
/// under the current key with one.
pub open spec fn is_shard_file(ring: Option<Ring>, key: Key, shard: Piece, bytes: Seq<u8>) -> bool {
    match ring {
        None => bytes == shard_header(false, key, shard) + shard.coeffs + shard.payload,
        Some(r) => exists|blob: Seq<u8>|
            {
                &&& r.seals(shard_header(true, key, shard), shard.coeffs + shard.payload, blob)
                &&& bytes == shard_header(true, key, shard) + blob
            },
    }
}

/// The shard in a file.
pub open spec fn parse_shard_file(b: Seq<u8>, keys: Option<Seq<Dek>>) -> Result<
    (Key, Piece),
    ShardFileError,
> {
    if b.len() < 26 {
        Err(ShardFileError::Truncated)
    } else {
        let key: Key = (u64_of(b.subrange(8, 16)), b[16], b[17]);
        let c = u32_of(b.subrange(18, 22));
        let p = u32_of(b.subrange(22, 26));
        if b.subrange(0, 8) == shard_magic(false) {
            if b.len() < 26 + c + p {
                Err(ShardFileError::Truncated)
            } else {
                Ok(
                    (
                        key,
                        Piece {
                            coeffs: b.subrange(26, 26 + c),
                            payload: b.subrange(26 + c, 26 + c + p),
                        },
                    ),
                )
            }
        } else if b.subrange(0, 8) == shard_magic(true) {
            match keys {
                None => Err(ShardFileError::NoKeyring),
                Some(deks) => match unseal_any(deks, b.subrange(0, 26), b.skip(26)) {
                    None => Err(ShardFileError::NotOpened { keys: deks.len() as usize }),
                    Some(t) => if t.len() != c + p {
                        Err(
                            ShardFileError::LengthMismatch {
                                got: t.len() as usize,
                                coeffs: c,
                                payload: p,
                            },
                        )
                    } else {
                        Ok(
                            (
                                key,
                                Piece { coeffs: t.subrange(0, c as int), payload: t.skip(c as int) },
                            ),
                        )
                    },
                },
            }
        } else {
            Err(ShardFileError::UnknownMagic)
        }
    }
}

/// The file of a shard.
pub fn write_shard_file(key: Key, shard: &Shard, keyring: Option<&Keyring>) -> (r: Vec<u8>)
    requires
        keyring matches Some(k) ==> k.wf(),
        shard.fits(),
    ensures
        is_shard_file(ring_of(keyring), key, shard@, r@),
{
    proof {
        lemma_shard_magic();
    }
    let mut out: Vec<u8> = Vec::new();
    match keyring {
        Some(_) => append(&mut out, "HOLOFSS2".as_bytes()),
        None => append(&mut out, "HOLOFSS1".as_bytes()),
    }
    push_be64(&mut out, key.0);
    out.push(key.1);
    out.push(key.2);
    push_be32(&mut out, field32(shard.coeffs.len()));
    push_be32(&mut out, field32(shard.payload.len()));
    assert(out@ =~= shard_header(keyring is Some, key, shard@));
    match keyring {
        None => {
            append(&mut out, shard.coeffs.as_slice());
            append(&mut out, shard.payload.as_slice());
        },
        Some(ring) => {
            let mut plain: Vec<u8> = Vec::new();
            append(&mut plain, shard.coeffs.as_slice());
            append(&mut plain, shard.payload.as_slice());
            assert(plain@ =~= shard@.coeffs + shard@.payload);
            let blob = ring.encrypt_current(out.as_slice(), plain.as_slice());
            append(&mut out, blob.as_slice());
        },
    }
    out
}

/// The shard in a file, and what it is known by.
pub fn read_shard_file(b: &[u8], keyring: Option<&Keyring>) -> (r: Result<
    (Key, ShardHash, Shard),
    ShardFileError,
>)
    ensures
        match r {
            Ok((k, h, s)) => parse_shard_file(b@, ring_keys(keyring)) == Ok::<
                (Key, Piece),
                ShardFileError,
            >((k, s@)) && h@ == shard_digest(s@),
            Err(e) => parse_shard_file(b@, ring_keys(keyring)) == Err::<(Key, Piece), ShardFileError>(e),
        },
{
    proof {
        lemma_shard_magic();
    }
    if b.len() < 26 {
        return Err(ShardFileError::Truncated);
    }
    let key: Key = (read_be64(b, 8), b[16], b[17]);
    let c32: u32 = read_be32(b, 18);
    let p32: u32 = read_be32(b, 22);
    if has_at(b, 0, "HOLOFSS1".as_bytes()) {
        if (b.len() as u64) < 26 + c32 as u64 + p32 as u64 {
            return Err(ShardFileError::Truncated);
        }
        let c: usize = c32 as usize;
        let p: usize = p32 as usize;
        let shard = Shard {
            coeffs: copy_range(b, 26, 26 + c),
            payload: copy_range(b, 26 + c, 26 + c + p),
        };
        let h = shard_hash(&shard);
        return Ok((key, h, shard));
    }
    if !has_at(b, 0, "HOLOFSS2".as_bytes()) {
        return Err(ShardFileError::UnknownMagic);
    }
    let ring = match keyring {
        None => {
            return Err(ShardFileError::NoKeyring);
        },
        Some(k) => k,
    };
    let head = slice_subrange(b, 0, 26);
    let blob = slice_subrange(b, 26, b.len());
    assert(blob@ =~= b@.skip(26));
    match ring.decrypt_any(head, blob) {
        Err(e) => Err(ShardFileError::NotOpened { keys: e.keys }),
        Ok(t) => {
            if t.len() as u64 != c32 as u64 + p32 as u64 {
                return Err(
                    ShardFileError::LengthMismatch { got: t.len(), coeffs: c32, payload: p32 },
                );
            }
            let c: usize = c32 as usize;
            let shard = Shard {
                coeffs: copy_range(t.as_slice(), 0, c),
                payload: copy_range(t.as_slice(), c, t.len()),
            };
            assert(shard.payload@ =~= t@.skip(c as int));
            let h = shard_hash(&shard);
            Ok((key, h, shard))
        },
    }
}

/// A shard that was written to a file is read back from it, unless it is too long
/// for the header, or a newer key opens the file to something else.
pub proof fn shard_file_is_read_back(ring: Option<Ring>, key: Key, shard: Piece, bytes: Seq<u8>)
    requires
        is_shard_file(ring, key, shard, bytes),
        shard.coeffs.len() <= u32::MAX,
        shard.payload.len() <= u32::MAX,
        ring matches Some(r) ==> r.wf() && r.current_dek() == r.deks.last(),
    ensures
        parse_shard_file(
            bytes,
            match ring {
                Some(r) => Some(r.deks),
                None => None,
            },
        ) == Ok::<(Key, Piece), ShardFileError>((key, shard)),
{
    lemma_shard_magic();
    let h = shard_header(ring is Some, key, shard);
    let c = shard.coeffs.len() as int;
    let p = shard.payload.len() as int;
    let m = shard_magic(ring is Some);
    assert(m.len() == 8);
    assert(h.len() == 26);
    assert(bytes.len() >= 26);
    assert(bytes.subrange(0, 26) =~= h);
    assert(h.subrange(0, 8) =~= m);
    assert(h.subrange(8, 16) =~= be64(key.0));
    assert(h[16] == key.1 && h[17] == key.2);
    assert(h.subrange(18, 22) =~= be32(c as u32));
    assert(h.subrange(22, 26) =~= be32(p as u32));
    assert(bytes.subrange(0, 8) =~= h.subrange(0, 8));
    assert(bytes.subrange(8, 16) =~= h.subrange(8, 16));
    assert(bytes[16] == h[16] && bytes[17] == h[17]);
    assert(bytes.subrange(18, 22) =~= h.subrange(18, 22));
    assert(bytes.subrange(22, 26) =~= h.subrange(22, 26));
    match ring {
        None => {
            assert(bytes.subrange(26, 26 + c) =~= shard.coeffs);
            assert(bytes.subrange(26 + c, 26 + c + p) =~= shard.payload);
        },
        Some(r) => {
            let blob = choose|blob: Seq<u8>|
                {
                    &&& r.seals(h, shard.coeffs + shard.payload, blob)
                    &&& bytes == h + blob
                };
            crate::keyring::sealed_blob_opens(r, h, shard.coeffs + shard.payload, blob);
            assert(bytes.skip(26) =~= blob);
            let t = shard.coeffs + shard.payload;
            assert(t.subrange(0, c) =~= shard.coeffs);
            assert(t.skip(c) =~= shard.payload);
        },
    }
}

/// Where a shard's file stands below the node's directory: the hash in hexadecimal,
/// with the first two digits as the name of a directory.
pub open spec fn shard_file_name(hash: Seq<u8>) -> Seq<char> {
    hex(hash).take(2) + "/"@ + hex(hash).skip(2) + ".shard"@
}

/// Where a shard's file stands below the node's directory.
pub fn shard_path(h: &ShardHash) -> (r: String)
    ensures
        r@ == shard_file_name(h@),
{
    let s = encode_hex_bytes(h.as_slice());
    let v = chars_of(s.as_str());
    string_of(take_chars(v.as_slice(), 2)).concat("/").concat(
        string_of(skip_chars(v.as_slice(), 2)).as_str(),
    ).concat(".shard")
}

/// Whether a file name has the extension `shard`: it ends in `.shard`, and something
/// stands before that.
pub open spec fn is_shard_name(name: Seq<char>) -> bool {
    let base = after_last(name, '/');
    ends(base, ".shard"@) && base.len() > 6
}

/// Whether a file name has the extension `shard`.
pub fn has_shard_name(name: &str) -> (r: bool)
    ensures
        r == is_shard_name(name@),
{
    proof {
        reveal_strlit(".shard");
    }
    let v = chars_of(name);
    let base = behind_last(v.as_slice(), '/');
    match strip_suffix(base, ".shard") {
        Some(stem) => stem.len() > 0,
        None => false,
    }
}

} // verus!
