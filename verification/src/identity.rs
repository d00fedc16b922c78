//! A node's identity: an Ed25519 key pair.
//!
//! Whoever talks to a node sends it a nonce and checks the signature that comes
//! back against the public key it knows. What is signed begins with a domain, so
//! that a signature made for one purpose is none for another.
use vstd::prelude::*;
use vstd::utf8::encode_utf8;

use ed25519_dalek::{Signature, Signer, SigningKey, Verifier, VerifyingKey};
use rand_core::OsRng;

use crate::bytes::{append, copy32};
use crate::crypto::random32;

verus! {

/// Bytes in a public key.
pub const PUBKEY_LEN: usize = 32;

/// Bytes in a signature.
pub const SIG_LEN: usize = 64;

/// Bytes in a nonce.
pub const NONCE_LEN: usize = 32;

/// The domain of answers to a challenge.
pub const DOMAIN_AUTH: &'static str = "holofs-auth-v1";

/// The domain of signed whitelists.
pub const DOMAIN_WHITELIST: &'static str = "holofs-whitelist-v1";

/// A public key.
pub type PubKey = [u8; 32];

/// A signature.
pub type Sig = [u8; 64];

/// A nonce.
pub type Nonce = [u8; 32];

/// The Ed25519 public key for a secret seed.
pub uninterp spec fn ed_public(seed: Seq<u8>) -> [u8; 32];

/// The Ed25519 signature of a message under a secret seed.
pub uninterp spec fn ed_sign(seed: Seq<u8>, msg: Seq<u8>) -> [u8; 64];

/// Whether Ed25519 verification accepts a signature of a message under a public key.
pub uninterp spec fn ed_verify(pubkey: Seq<u8>, msg: Seq<u8>, sig: Seq<u8>) -> bool;

/// `ed25519-dalek`'s `SigningKey::generate` with the operating system's generator:
/// nothing is promised of the seed.
#[verifier::external_body]
pub(crate) fn ed25519_generate() -> (r: [u8; 32]) {
    SigningKey::generate(&mut OsRng).to_bytes()
}

/// `ed25519-dalek`'s `SigningKey::verifying_key`: the public key depends on the seed
/// alone.
#[verifier::external_body]
pub(crate) fn ed25519_public(seed: &[u8; 32]) -> (r: [u8; 32])
    ensures
        r == ed_public(seed@),
{
    SigningKey::from_bytes(seed).verifying_key().to_bytes()
}

/// `ed25519-dalek`'s `SigningKey::sign`: the signature depends on seed and message
/// alone, and verification under the public key of the seed accepts it.
#[verifier::external_body]
pub(crate) fn ed25519_sign(seed: &[u8; 32], msg: &[u8]) -> (r: [u8; 64])
    ensures
        r == ed_sign(seed@, msg@),
        ed_verify(ed_public(seed@)@, msg@, r@),
{
    SigningKey::from_bytes(seed).sign(msg).to_bytes()
}

/// `ed25519-dalek`'s `VerifyingKey::verify`, with `VerifyingKey::from_bytes` before
/// it: bytes that are no public key verify nothing.
#[verifier::external_body]
pub(crate) fn ed25519_verify(pubkey: &[u8; 32], msg: &[u8], sig: &[u8; 64]) -> (r: bool)
    ensures
        r == ed_verify(pubkey@, msg@, sig@),
{
    match VerifyingKey::from_bytes(pubkey) {
        Ok(vk) => vk.verify(msg, &Signature::from_bytes(sig)).is_ok(),
        Err(_) => false,
    }
}

/// What is signed: the domain, and the bytes behind it.
pub open spec fn in_domain(domain: Seq<u8>, blob: Seq<u8>) -> Seq<u8> {
    domain + blob
}

/// The bytes of the domain of answers to a challenge.
pub open spec fn auth_domain() -> Seq<u8> {
    encode_utf8("holofs-auth-v1"@)
}

/// The bytes of the domain of signed whitelists.
pub open spec fn whitelist_domain() -> Seq<u8> {
    encode_utf8("holofs-whitelist-v1"@)
}

/// A node's key pair, kept as its secret seed.
#[derive(Clone, Copy)]
pub struct NodeIdentity {
    seed: [u8; 32],
}

/// The file with the seed has a wrong length.
#[derive(Debug, Clone, Copy, PartialEq, Eq, Structural)]
pub struct BadIdentityFile {
    pub got: usize,
}

impl BadIdentityFile {
    /// The error in words.
    pub fn message(&self) -> (r: &'static str)
        ensures
            r@ == "identity file must be exactly 32 bytes"@,
    {
        "identity file must be exactly 32 bytes"
    }
}

impl View for NodeIdentity {
    type V = Seq<u8>;

    closed spec fn view(&self) -> Seq<u8> {
        self.seed@
    }
}

impl NodeIdentity {
    /// A fresh identity.
    pub fn generate() -> (r: NodeIdentity)
        ensures
            r@.len() == 32,
    {
        NodeIdentity { seed: ed25519_generate() }
    }

    /// The identity with this seed.
    pub fn from_bytes(seed: &[u8; 32]) -> (r: NodeIdentity)
        ensures
            r@ == seed@,
    {
        NodeIdentity { seed: *seed }
    }

    /// The identity in a file, or a fresh one where there is no file. The second part
    /// says whether it is fresh, and has to be written to the file.
    pub fn load_or_create(file: Option<&[u8]>) -> (r: Result<(NodeIdentity, bool), BadIdentityFile>)
        ensures
            match (file, r) {
                (Some(b), Ok((id, fresh))) => b@.len() == 32 && id@ == b@ && !fresh,
                (Some(b), Err(e)) => b@.len() != 32 && e.got == b@.len(),
                (None, Ok((id, fresh))) => id@.len() == 32 && fresh,
                (None, Err(_)) => false,
            },
    {
        match file {
            Some(b) => {
                if b.len() == 32 {
                    let seed: [u8; 32] = copy32(b, 0);
                    assert(seed@ =~= b@);
                    Ok((NodeIdentity { seed }, false))
                } else {
                    Err(BadIdentityFile { got: b.len() })
                }
            },
            None => Ok((NodeIdentity::generate(), true)),
        }
    }

    /// The secret seed.
    pub fn to_bytes(&self) -> (r: [u8; 32])
        ensures
            r@ == self@,
    {
        self.seed
    }

    /// The public key.
    pub fn pubkey(&self) -> (r: PubKey)
        ensures
            r == ed_public(self@),
    {
        ed25519_public(&self.seed)
    }

    /// The answer to a challenge. Whoever knows the public key accepts it.
    pub fn sign_challenge(&self, nonce: &Nonce) -> (r: Sig)
        ensures
            r == ed_sign(self@, in_domain(auth_domain(), nonce@)),
            ed_verify(ed_public(self@)@, in_domain(auth_domain(), nonce@), r@),
    {
        self.sign_blob(DOMAIN_AUTH.as_bytes(), nonce.as_slice())
    }

    /// The signature of some bytes in a domain. Whoever knows the public key accepts
    /// it.
    pub fn sign_blob(&self, domain: &[u8], blob: &[u8]) -> (r: Sig)
        ensures
            r == ed_sign(self@, in_domain(domain@, blob@)),
            ed_verify(ed_public(self@)@, in_domain(domain@, blob@), r@),
    {
        let mut msg: Vec<u8> = Vec::new();
        append(&mut msg, domain);
        append(&mut msg, blob);
        assert(msg@ =~= in_domain(domain@, blob@));
        ed25519_sign(&self.seed, msg.as_slice())
    }
}

/// Whether the answer to a challenge is accepted.
pub fn verify_challenge(pubkey: &PubKey, nonce: &Nonce, sig: &Sig) -> (r: bool)
    ensures
        r == ed_verify(pubkey@, in_domain(auth_domain(), nonce@), sig@),
{
    verify_blob(pubkey, DOMAIN_AUTH.as_bytes(), nonce.as_slice(), sig)
}

/// Whether a signature of some bytes in a domain is accepted.
pub fn verify_blob(pubkey: &PubKey, domain: &[u8], blob: &[u8], sig: &Sig) -> (r: bool)
    ensures
        r == ed_verify(pubkey@, in_domain(domain@, blob@), sig@),
{
    let mut msg: Vec<u8> = Vec::new();
    append(&mut msg, domain);
    append(&mut msg, blob);
    assert(msg@ =~= in_domain(domain@, blob@));
    ed25519_verify(pubkey, msg.as_slice(), sig)
}

/// A fresh nonce from the operating system's generator: nothing is promised of it.
pub fn fresh_nonce() -> (r: Nonce)
    ensures
        r@.len() == 32,
{
    random32()
}

/// What is signed in answer to a challenge is never what is signed as a whitelist,
/// whatever the nonce and the whitelist: the two domains part before either ends.
pub proof fn domains_never_meet(nonce: Seq<u8>, blob: Seq<u8>)
    ensures
        in_domain(auth_domain(), nonce) != in_domain(whitelist_domain(), blob),
{
    reveal_strlit("holofs-auth-v1");
    reveal_strlit("holofs-whitelist-v1");
    vstd::utf8::is_ascii_chars_encode_utf8("holofs-auth-v1"@);
    vstd::utf8::is_ascii_chars_encode_utf8("holofs-whitelist-v1"@);
    assert(in_domain(auth_domain(), nonce)[7] == 'a' as u8);
    assert(in_domain(whitelist_domain(), blob)[7] == 'w' as u8);
}

} // verus!
