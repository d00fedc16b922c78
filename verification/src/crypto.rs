//! At-rest encryption of shards: AES-256-GCM under a key that is derived from
//! the node's identity, or under a ring of such keys (`crate::keyring`).
//!
//! A sealed blob is a 12-byte nonce, the ciphertext, and a 16-byte tag. The
//! associated data is authenticated with it and stored elsewhere.
use vstd::prelude::*;
use vstd::slice::slice_subrange;
use vstd::string::StringExecFns;
use vstd::utf8::encode_utf8;

use aes_gcm::aead::{Aead, KeyInit, Payload};
use aes_gcm::{Aes256Gcm, Key, Nonce};
use hkdf::Hkdf;
use rand_core::{OsRng, RngCore};
use sha2::{Digest, Sha256};

use crate::bytes::append;
use crate::hex::{decode_hex_key, unhex_is, HexError, pair_bytes};
use crate::text::{dec, dec_string};

verus! {

/// Bytes in a key.
pub const KEY_LEN: usize = 32;

/// Bytes in a nonce.
pub const NONCE_LEN: usize = 12;

/// Bytes in an authentication tag.
pub const TAG_LEN: usize = 16;

/// The longest plaintext that one call of the cipher takes: the counter has 32
/// bits, and two of its values are not for the plaintext.
pub const MAX_PLAINTEXT: u64 = 0xF_FFFF_FFE0;

/// The longest associated data that one call of the cipher takes.
pub const MAX_AAD: u64 = 0x10_0000_0000;

/// The SHA-256 digest of a sequence of bytes.
pub uninterp spec fn sha256_of(data: Seq<u8>) -> [u8; 32];

/// `sha2`'s `Sha256::digest`: 32 bytes that depend on the input alone.
#[verifier::external_body]
pub(crate) fn sha256(data: &[u8]) -> (r: [u8; 32])
    ensures
        r == sha256_of(data@),
{
    Sha256::digest(data).into()
}

/// The first 32 bytes of HKDF-SHA256 for a salt, key material and an info.
pub uninterp spec fn hkdf_sha256(salt: Seq<u8>, ikm: Seq<u8>, info: Seq<u8>) -> [u8; 32];

/// `hkdf`'s `Hkdf::<Sha256>::new` and `expand` to 32 bytes. An expansion fails
/// only over 255 times the digest's length, so this one does not.
#[verifier::external_body]
pub(crate) fn hkdf_expand(salt: &[u8], ikm: &[u8], info: &[u8]) -> (r: [u8; 32])
    ensures
        r == hkdf_sha256(salt@, ikm@, info@),
{
    let hk = Hkdf::<Sha256>::new(Some(salt), ikm);
    let mut okm = [0u8; 32];
    hk.expand(info, &mut okm).expect("32 bytes are within the limit of HKDF");
    okm
}

/// What AES-256-GCM makes of a plaintext: the ciphertext, and the tag behind it.
pub uninterp spec fn gcm_seal(key: Seq<u8>, nonce: Seq<u8>, aad: Seq<u8>, plain: Seq<u8>) -> Seq<u8>;

/// What AES-256-GCM makes of a ciphertext with its tag: the plaintext, or
/// nothing where the tag is not the one that key, nonce, associated data and
/// ciphertext give.
pub uninterp spec fn gcm_open(key: Seq<u8>, nonce: Seq<u8>, aad: Seq<u8>, sealed: Seq<u8>) -> Option<
    Seq<u8>,
>;

/// `aes-gcm`'s `Aes256Gcm::encrypt`. It fails only over the length limits, which
/// `requires` keeps; the result is the ciphertext, as long as the plaintext, and
/// the tag; and opening it under the same key, nonce and associated data gives
/// the plaintext back.
#[verifier::external_body]
pub(crate) fn aes_gcm_encrypt(key: &[u8; 32], nonce: &[u8; 12], aad: &[u8], plain: &[u8]) -> (r: Vec<u8>)
    requires
        plain@.len() <= MAX_PLAINTEXT,
        aad@.len() <= MAX_AAD,
    ensures
        r@ == gcm_seal(key@, nonce@, aad@, plain@),
        r@.len() == plain@.len() + 16,
        gcm_open(key@, nonce@, aad@, r@) == Some(plain@),
{
    Aes256Gcm::new(Key::<Aes256Gcm>::from_slice(key))
        .encrypt(Nonce::from_slice(nonce), Payload { msg: plain, aad })
        .expect("the lengths are within the limits of AES-GCM")
}

/// `aes-gcm`'s `Aes256Gcm::decrypt`: nothing where the tag does not fit or the
/// associated data is over its limit, else the plaintext, shorter by the tag.
#[verifier::external_body]
pub(crate) fn aes_gcm_decrypt(key: &[u8; 32], nonce: &[u8; 12], aad: &[u8], sealed: &[u8]) -> (r: Option<
    Vec<u8>,
>)
    requires
        sealed@.len() <= MAX_PLAINTEXT + 16,
    ensures
        (match r {
            Some(p) => Some(p@),
            None => None,
        }) == gcm_open(key@, nonce@, aad@, sealed@),
        r matches Some(p) ==> p@.len() + 16 == sealed@.len(),
{
    Aes256Gcm::new(Key::<Aes256Gcm>::from_slice(key))
        .decrypt(Nonce::from_slice(nonce), Payload { msg: sealed, aad })
        .ok()
}

/// `rand_core`'s `OsRng::fill_bytes` on 12 bytes: they come from the operating
/// system's generator, and nothing is promised of them.
#[verifier::external_body]
pub(crate) fn random12() -> (r: [u8; 12]) {
    let mut b = [0u8; 12];
    OsRng.fill_bytes(&mut b);
    b
}

/// `rand_core`'s `OsRng::fill_bytes` on 32 bytes: they come from the operating
/// system's generator, and nothing is promised of them.
#[verifier::external_body]
pub(crate) fn random32() -> (r: [u8; 32]) {
    let mut b = [0u8; 32];
    OsRng.fill_bytes(&mut b);
    b
}

/// Why a sealed blob was not opened.
#[derive(Debug, Clone, Copy, PartialEq, Eq, Structural)]
pub enum OpenError {
    /// The blob has this many bytes, too few for a nonce and a tag.
    Truncated(usize),
    /// The tag does not fit: another key, or altered bytes.
    Rejected,
}

impl OpenError {
    /// The error in words.
    pub open spec fn text(self) -> Seq<char> {
        match self {
            OpenError::Truncated(n) => "sealed shard truncated: "@ + dec(n as nat)
                + " bytes, need ≥ 28"@,
            OpenError::Rejected =>
                "AES-GCM decrypt failed (bad key / tampered file): aead::Error"@,
        }
    }

    /// The error in words.
    pub fn message(&self) -> (r: String)
        ensures
            r@ == self.text(),
    {
        match self {
            OpenError::Truncated(n) => String::from_str("sealed shard truncated: ").concat(
                dec_string(*n as u64).as_str(),
            ).concat(" bytes, need ≥ 28"),
            OpenError::Rejected => String::from_str(
                "AES-GCM decrypt failed (bad key / tampered file): aead::Error",
            ),
        }
    }
}

/// The plaintext of a sealed blob.
pub open spec fn unseal(key: Seq<u8>, aad: Seq<u8>, blob: Seq<u8>) -> Result<Seq<u8>, OpenError> {
    if blob.len() < 28 {
        Err(OpenError::Truncated(blob.len() as usize))
    } else if blob.len() > MAX_PLAINTEXT + 28 {
        Err(OpenError::Rejected)
    } else {
        match gcm_open(key, blob.subrange(0, 12), aad, blob.skip(12)) {
            Some(p) => Ok(p),
            None => Err(OpenError::Rejected),
        }
    }
}

/// What an opening gave, with the bytes as a sequence.
pub open spec fn opened(r: Result<Vec<u8>, OpenError>) -> Result<Seq<u8>, OpenError> {
    match r {
        Ok(v) => Ok(v@),
        Err(e) => Err(e),
    }
}

/// The key for the shards of the node with this identity.
pub fn derive_shard_key(identity_material: &[u8]) -> (r: [u8; 32])
    ensures
        r@ == shard_key(identity_material@),
{
    hkdf_expand("holofs-shard-salt-v1".as_bytes(), identity_material, "holofs-shard-key-v1".as_bytes())
}

/// The key for the shards of the node with this identity.
pub open spec fn shard_key(identity_material: Seq<u8>) -> Seq<u8> {
    hkdf_sha256(
        encode_utf8("holofs-shard-salt-v1"@),
        identity_material,
        encode_utf8("holofs-shard-key-v1"@),
    )@
}

/// `plain` sealed under a given nonce: the nonce, the ciphertext, the tag.
pub fn seal_with(key: &[u8; 32], nonce: &[u8; 12], aad: &[u8], plain: &[u8]) -> (r: Vec<u8>)
    requires
        plain@.len() <= MAX_PLAINTEXT,
        aad@.len() <= MAX_AAD,
    ensures
        r@ == nonce@ + gcm_seal(key@, nonce@, aad@, plain@),
        r@.len() == plain@.len() + 28,
        unseal(key@, aad@, r@) == Ok::<Seq<u8>, OpenError>(plain@),
{
    let ct = aes_gcm_encrypt(key, nonce, aad, plain);
    let mut out: Vec<u8> = Vec::new();
    append(&mut out, nonce.as_slice());
    append(&mut out, ct.as_slice());
    assert(out@ =~= nonce@ + ct@);
    assert(out@.subrange(0, 12) =~= nonce@);
    assert(out@.skip(12) =~= ct@);
    out
}

/// `plain` sealed under a fresh random nonce.
pub fn encrypt(key: &[u8; 32], aad: &[u8], plain: &[u8]) -> (r: Vec<u8>)
    requires
        plain@.len() <= MAX_PLAINTEXT,
        aad@.len() <= MAX_AAD,
    ensures
        r@.len() == plain@.len() + 28,
        r@.skip(12) == gcm_seal(key@, r@.take(12), aad@, plain@),
        unseal(key@, aad@, r@) == Ok::<Seq<u8>, OpenError>(plain@),
{
    let nonce = random12();
    let out = seal_with(key, &nonce, aad, plain);
    assert(out@.take(12) =~= nonce@);
    assert(out@.skip(12) =~= gcm_seal(key@, nonce@, aad@, plain@));
    out
}

/// The plaintext of a sealed blob.
pub fn decrypt(key: &[u8; 32], aad: &[u8], blob: &[u8]) -> (r: Result<Vec<u8>, OpenError>)
    ensures
        opened(r) == unseal(key@, aad@, blob@),
        r matches Ok(p) ==> p@.len() + 28 == blob@.len(),
{
    if blob.len() < NONCE_LEN + TAG_LEN {
        return Err(OpenError::Truncated(blob.len()));
    }
    if blob.len() as u64 > MAX_PLAINTEXT + 28 {
        return Err(OpenError::Rejected);
    }
    let mut nonce: [u8; 12] = [0u8; 12];
    let mut i: usize = 0;
    while i < 12
        invariant
            0 <= i <= 12,
            28 <= blob@.len(),
            forall|j: int| 0 <= j < i ==> nonce@[j] == blob@[j],
        decreases 12 - i,
    {
        nonce[i] = blob[i];
        i += 1;
    }
    assert(nonce@ =~= blob@.subrange(0, 12));
    let ct = slice_subrange(blob, 12, blob.len());
    assert(ct@ =~= blob@.skip(12));
    match aes_gcm_decrypt(key, &nonce, aad, ct) {
        Some(p) => Ok(p),
        None => Err(OpenError::Rejected),
    }
}

/// Where the key that wraps the data keys comes from.
#[derive(Debug, Clone)]
pub enum KekSource {
    /// Derived from the node's identity.
    IdentitySeed,
    /// 32 bytes in the file at this path.
    File(String),
    /// 64 hexadecimal digits.
    EnvHex(String),
}

/// Why no wrapping key could be had.
#[derive(Debug, Clone)]
pub enum KekError {
    /// The file at this path holds so many bytes, not 32.
    FileLength { path: String, got: usize },
    /// The digits are none, or too few or too many.
    Hex(HexError),
}

impl KekError {
    /// The error in words.
    pub open spec fn text(self) -> Seq<char> {
        match self {
            KekError::FileLength { path, got } => "KEK file "@ + path@ + " has "@ + dec(got as nat)
                + " bytes, expected 32"@,
            KekError::Hex(e) => "KEK env-hex: "@ + e.text(),
        }
    }

    /// The error in words.
    pub fn message(&self) -> (r: String)
        requires
            self matches KekError::Hex(HexError::WrongLength { expected, got }) ==> expected * 2
                <= usize::MAX,
        ensures
            r@ == self.text(),
    {
        match self {
            KekError::FileLength { path, got } => String::from_str("KEK file ").concat(
                path.as_str(),
            ).concat(" has ").concat(dec_string(*got as u64).as_str()).concat(
                " bytes, expected 32",
            ),
            KekError::Hex(e) => String::from_str("KEK env-hex: ").concat(e.message().as_str()),
        }
    }
}

impl KekSource {
    /// The wrapping key, given the node's identity seed and, for a key file, what
    /// the file holds.
    pub fn load(&self, identity_seed: &[u8], file: &[u8]) -> (r: Result<[u8; 32], KekError>)
        ensures
            match (self, r) {
                (KekSource::IdentitySeed, Ok(k)) => k@ == shard_key(identity_seed@),
                (KekSource::IdentitySeed, Err(_)) => false,
                (KekSource::File(_), Ok(k)) => k@ == file@,
                (KekSource::File(p), Err(KekError::FileLength { path, got })) => file@.len() != 32
                    && path@ == p@ && got == file@.len(),
                (KekSource::File(_), Err(KekError::Hex(_))) => false,
                (KekSource::EnvHex(h), Ok(k)) => unhex_is(encode_utf8(h@), Ok(k@)),
                (KekSource::EnvHex(_), Err(KekError::FileLength { .. })) => false,
                (
                    KekSource::EnvHex(h),
                    Err(KekError::Hex(HexError::WrongLength { expected, got })),
                ) => expected == 32 && got != 32 && got == pair_bytes(encode_utf8(h@)).len() && unhex_is(
                    encode_utf8(h@),
                    Ok(pair_bytes(encode_utf8(h@))),
                ),
                (KekSource::EnvHex(h), Err(KekError::Hex(e))) => unhex_is(encode_utf8(h@), Err(e)),
            },
    {
        match self {
            KekSource::IdentitySeed => Ok(derive_shard_key(identity_seed)),
            KekSource::File(path) => {
                if file.len() != KEY_LEN {
                    return Err(KekError::FileLength { path: path.clone(), got: file.len() });
                }
                let k: [u8; 32] = crate::bytes::copy32(file, 0);
                assert(k@ =~= file@);
                Ok(k)
            },
            KekSource::EnvHex(h) => match decode_hex_key(h.as_str()) {
                Ok(k) => Ok(k),
                Err(e) => Err(KekError::Hex(e)),
            },
        }
    }

    /// The name of the source.
    pub fn label(&self) -> (r: &'static str)
        ensures
            r@ == match self {
                KekSource::IdentitySeed => "identity"@,
                KekSource::File(_) => "file"@,
                KekSource::EnvHex(_) => "env"@,
            },
    {
        match self {
            KekSource::IdentitySeed => "identity",
            KekSource::File(_) => "file",
            KekSource::EnvHex(_) => "env",
        }
    }
}

} // verus!
