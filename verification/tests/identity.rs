use holofs::hex::encode_hex_bytes;
use holofs::identity::{
    fresh_nonce, verify_blob, verify_challenge, NodeIdentity, Sig, DOMAIN_WHITELIST, NONCE_LEN,
    PUBKEY_LEN,
};
use holofs::whitelist::{Whitelist, WhitelistEntry, WhitelistError};

#[test]
fn challenge_roundtrip_passes() {
    let id = NodeIdentity::generate();
    let pk = id.pubkey();
    let nonce = fresh_nonce();
    let sig = id.sign_challenge(&nonce);
    assert!(verify_challenge(&pk, &nonce, &sig));
}

#[test]
fn challenge_with_wrong_nonce_fails() {
    let id = NodeIdentity::generate();
    let pk = id.pubkey();
    let n1 = fresh_nonce();
    let n2 = fresh_nonce();
    let sig = id.sign_challenge(&n1);
    assert!(!verify_challenge(&pk, &n2, &sig));
}

#[test]
fn challenge_with_wrong_pubkey_fails() {
    let id1 = NodeIdentity::generate();
    let id2 = NodeIdentity::generate();
    let nonce = fresh_nonce();
    let sig = id1.sign_challenge(&nonce);
    assert!(!verify_challenge(&id2.pubkey(), &nonce, &sig));
}

#[test]
fn domain_separation_blocks_cross_protocol_reuse() {
    let id = NodeIdentity::generate();
    let pk = id.pubkey();
    let bytes = [0xAA; NONCE_LEN];
    let auth_sig = id.sign_challenge(&bytes);
    assert!(!verify_blob(&pk, DOMAIN_WHITELIST.as_bytes(), &bytes, &auth_sig));
    let wl_sig: Sig = id.sign_blob(DOMAIN_WHITELIST.as_bytes(), &bytes);
    assert!(!verify_challenge(&pk, &bytes, &wl_sig));
}

#[test]
fn load_or_create_persists_keypair_across_calls() {
    let (id1, fresh) = NodeIdentity::load_or_create(None).unwrap();
    assert!(fresh);
    let (id2, fresh) = NodeIdentity::load_or_create(Some(&id1.to_bytes())).unwrap();
    assert!(!fresh);
    assert_eq!(id1.pubkey(), id2.pubkey());
}

#[test]
fn arbitrary_blob_roundtrip() {
    let id = NodeIdentity::generate();
    let blob = b"arbitrary content";
    let sig = id.sign_blob(b"test-domain", blob);
    assert!(verify_blob(&id.pubkey(), b"test-domain", blob, &sig));
    assert!(!verify_blob(&id.pubkey(), b"test-domain", b"other", &sig));
    assert!(!verify_blob(&id.pubkey(), b"wrong-domain", blob, &sig));
}

#[test]
fn public_key_follows_from_the_seed() {
    // The first test vector of RFC 8032.
    let seed = [
        0x9d, 0x61, 0xb1, 0x9d, 0xef, 0xfd, 0x5a, 0x60, 0xba, 0x84, 0x4a, 0xf4, 0x92, 0xec, 0x2c,
        0xc4, 0x44, 0x49, 0xc5, 0x69, 0x7b, 0x32, 0x69, 0x19, 0x70, 0x3b, 0xac, 0x03, 0x1c, 0xae,
        0x7f, 0x60,
    ];
    let id = NodeIdentity::from_bytes(&seed);
    assert_eq!(
        encode_hex_bytes(&id.pubkey()),
        "d75a980182b10ab7d54bfed3c964073a0ee172f3daa62325af021a68f707511a"
    );
    assert_eq!(id.to_bytes(), seed);
}

#[test]
fn identity_file_of_the_wrong_length_is_refused() {
    let e = match NodeIdentity::load_or_create(Some(&[0u8; 31])) {
        Ok(_) => panic!("accepted"),
        Err(e) => e,
    };
    assert_eq!(e.got, 31);
}

fn entry(addr: &str, seed: u8, zone: u8) -> WhitelistEntry {
    WhitelistEntry { addr: addr.into(), pubkey: [seed; PUBKEY_LEN], zone }
}

#[test]
fn whitelist_roundtrip() {
    let admin = NodeIdentity::generate();
    let wl = Whitelist::sign(
        vec![
            entry("127.0.0.1:5000", 1, 0),
            entry("127.0.0.1:5001", 2, 0),
            entry("127.0.0.1:5002", 3, 1),
        ],
        &admin,
    );
    let bytes = wl.encode();
    let back = Whitelist::decode(&bytes).unwrap();
    assert_eq!(back, wl);
    assert!(back.verify(Some(&admin.pubkey())));
}

#[test]
fn whitelist_signature_verifies() {
    let admin = NodeIdentity::generate();
    let wl = Whitelist::sign(vec![entry("a", 1, 0), entry("b", 2, 1)], &admin);
    assert!(wl.verify(None));
    assert!(wl.verify(Some(&admin.pubkey())));
}

#[test]
fn whitelist_rejects_wrong_admin() {
    let admin = NodeIdentity::generate();
    let attacker = NodeIdentity::generate();
    let wl = Whitelist::sign(vec![entry("a", 1, 0)], &admin);
    assert!(!wl.verify(Some(&attacker.pubkey())));
}

#[test]
fn whitelist_detects_tampering_with_entries() {
    let admin = NodeIdentity::generate();
    let mut wl = Whitelist::sign(vec![entry("a", 1, 0)], &admin);
    wl.entries[0].pubkey = [0xFF; PUBKEY_LEN];
    assert!(!wl.verify(None));
}

#[test]
fn whitelist_detects_admin_pubkey_substitution() {
    let admin = NodeIdentity::generate();
    let attacker = NodeIdentity::generate();
    let mut wl = Whitelist::sign(vec![entry("a", 1, 0)], &admin);
    wl.admin_pubkey = attacker.pubkey();
    assert!(!wl.verify(None));
}

#[test]
fn whitelist_lookup_by_addr_and_pubkey() {
    let admin = NodeIdentity::generate();
    let e1 = entry("127.0.0.1:5000", 7, 0);
    let e2 = entry("127.0.0.1:5001", 8, 1);
    let wl = Whitelist::sign(vec![e1.clone(), e2.clone()], &admin);
    assert_eq!(wl.lookup_by_addr("127.0.0.1:5000"), Some(&e1));
    assert_eq!(wl.lookup_by_pubkey(&[8; PUBKEY_LEN]), Some(&e2));
    assert_eq!(wl.lookup_by_addr("missing"), None);
}

#[test]
fn whitelist_bytes_that_are_not_one_are_refused() {
    let admin = NodeIdentity::generate();
    let wl = Whitelist::sign(vec![entry("a", 1, 0)], &admin);
    assert_eq!(wl.len(), 1);
    let bytes = wl.encode();
    assert_eq!(bytes.len(), 8 + 4 + 2 + 1 + 32 + 1 + 32 + 64);
    assert_eq!(Whitelist::decode(&bytes[..100]), Err(WhitelistError::Truncated));
    let mut other = bytes.clone();
    other[0] = b'X';
    assert_eq!(Whitelist::decode(&other), Err(WhitelistError::NotAWhitelist));
    let mut longer = bytes.clone();
    longer.push(0);
    assert_eq!(Whitelist::decode(&longer), Err(WhitelistError::TrailingBytes));
    let mut bad = bytes;
    bad[14] = 0xff;
    assert!(matches!(Whitelist::decode(&bad), Err(WhitelistError::Address(f)) if f.error_len == Some(1)));
}

#[test]
fn signature_is_that_of_the_standard() {
    // The first test vector of RFC 8032: the empty message.
    let seed = [
        0x9d, 0x61, 0xb1, 0x9d, 0xef, 0xfd, 0x5a, 0x60, 0xba, 0x84, 0x4a, 0xf4, 0x92, 0xec, 0x2c,
        0xc4, 0x44, 0x49, 0xc5, 0x69, 0x7b, 0x32, 0x69, 0x19, 0x70, 0x3b, 0xac, 0x03, 0x1c, 0xae,
        0x7f, 0x60,
    ];
    let sig = NodeIdentity::from_bytes(&seed).sign_blob(b"", b"");
    assert_eq!(
        encode_hex_bytes(&sig),
        "e5564300c360ac729086e2cc806e828a84877f1eb8e5d974d873e065224901555fb8821590a33bacc61e39701cf9b46bd25bf5f0595bbe24655141438e7a100b"
    );
}

#[test]
fn whitelist_that_was_cut_short_is_refused() {
    let admin = NodeIdentity::generate();
    let entries = vec![
        WhitelistEntry { addr: "a:1".into(), pubkey: [1; 32], zone: 4 },
        WhitelistEntry { addr: "b.example:2".into(), pubkey: [2; 32], zone: 5 },
    ];
    let bytes = Whitelist::sign(entries, &admin).encode();
    assert_eq!(Whitelist::decode(&bytes).unwrap().encode(), bytes);
    for n in 0..bytes.len() {
        assert!(Whitelist::decode(&bytes[..n]).is_err(), "{n} bytes");
    }
}
