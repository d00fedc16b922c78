use holofs::crypto::{
    decrypt, derive_shard_key, encrypt, seal_with, KekSource, OpenError, KEY_LEN, NONCE_LEN,
    TAG_LEN,
};
use holofs::hex::{decode_hex_bytes, decode_hex_key, encode_hex_bytes, HexError};
use holofs::keyring::{dek_aad, Keyring};
use holofs::text::NumberError;
use holofs::keyring_file::{parse, LayoutError};

#[test]
fn derive_is_deterministic() {
    let seed = [42u8; 32];
    let k1 = derive_shard_key(&seed);
    let k2 = derive_shard_key(&seed);
    assert_eq!(k1, k2);
    let seed2 = [43u8; 32];
    let k3 = derive_shard_key(&seed2);
    assert_ne!(k1, k3);
}

#[test]
fn encrypt_decrypt_roundtrip() {
    let key = derive_shard_key(&[0xAB; 32]);
    let aad = b"HOLOFSS2\x00\x00\x00\x00\x00\x00\x00\x2A\x01\x02\x00\x00\x00\x08\x00\x00\x00\x10";
    let plaintext = b"here is some shard payload bytes";
    let sealed = encrypt(&key, aad, plaintext);
    assert!(sealed.len() > plaintext.len(), "must include nonce + tag");
    let back = decrypt(&key, aad, &sealed).unwrap();
    assert_eq!(back, plaintext);
}

#[test]
fn decrypt_rejects_wrong_key() {
    let k1 = derive_shard_key(&[0xAB; 32]);
    let k2 = derive_shard_key(&[0xCD; 32]);
    let aad = b"aad";
    let sealed = encrypt(&k1, aad, b"payload");
    assert!(decrypt(&k2, aad, &sealed).is_err());
}

#[test]
fn decrypt_rejects_wrong_aad() {
    let key = derive_shard_key(&[0xAB; 32]);
    let sealed = encrypt(&key, b"header-a", b"payload");
    assert!(decrypt(&key, b"header-b", &sealed).is_err());
}

#[test]
fn decrypt_rejects_truncated_input() {
    let key = derive_shard_key(&[0xAB; 32]);
    let sealed = encrypt(&key, b"aad", b"payload");
    assert!(decrypt(&key, b"aad", &sealed[..sealed.len() - 5]).is_err());
}

#[test]
fn encrypt_uses_fresh_nonce_each_call() {
    let key = derive_shard_key(&[0xAB; 32]);
    let a = encrypt(&key, b"aad", b"payload");
    let b = encrypt(&key, b"aad", b"payload");
    assert_ne!(a, b);
}

#[test]
fn kek_source_identity_matches_legacy_derive() {
    let seed = [0xEEu8; 32];
    let src = KekSource::IdentitySeed;
    assert_eq!(src.load(&seed, &[]).unwrap(), derive_shard_key(&seed));
    assert_eq!(src.label(), "identity");
}

#[test]
fn kek_source_file_reads_32_bytes() {
    let src = KekSource::File("kek.bin".to_string());
    let k = src.load(&[], &[0x55u8; KEY_LEN]).unwrap();
    assert_eq!(k, [0x55u8; KEY_LEN]);
}

#[test]
fn kek_source_file_rejects_wrong_length() {
    let src = KekSource::File("kek.bin".to_string());
    let err = src.load(&[], &[0x00u8; 16]).unwrap_err();
    assert!(err.message().contains("bytes, expected 32"));
}

#[test]
fn kek_source_env_hex_roundtrips() {
    let hex_str = "ff".repeat(KEY_LEN);
    let src = KekSource::EnvHex(hex_str);
    let k = src.load(&[], &[]).unwrap();
    assert_eq!(k, [0xFFu8; KEY_LEN]);
}

#[test]
fn keyring_bootstraps_from_missing_file() {
    let kek = [0x11u8; KEY_LEN];
    let boot = derive_shard_key(&[0x99u8; 32]);
    let (ring, fresh) = Keyring::load_or_bootstrap(None, &kek, boot, 7).unwrap();
    assert_eq!(ring.len(), 1);
    assert_eq!(ring.current_id(), 1);
    assert!(fresh, "keyring should have been persisted");
    let file = ring.save();
    let (ring2, fresh2) =
        Keyring::load_or_bootstrap(Some(file.as_bytes()), &kek, [0; KEY_LEN], 8).unwrap();
    assert!(!fresh2);
    assert_eq!(ring2.current_id(), 1);
    assert_eq!(ring2.entries()[0].raw_dek, boot);
    assert_eq!(ring2.entries()[0].created_at_unix_ms, 7);
}

#[test]
fn keyring_encrypt_current_decrypts_via_decrypt_any() {
    let (ring, _) =
        Keyring::load_or_bootstrap(None, &[0x11u8; KEY_LEN], [0x22u8; KEY_LEN], 1).unwrap();
    let sealed = ring.encrypt_current(b"aad", b"payload bytes");
    let back = ring.decrypt_any(b"aad", &sealed).unwrap();
    assert_eq!(back, b"payload bytes");
}

#[test]
fn keyring_rotation_keeps_old_shards_readable() {
    let kek = [0x11u8; KEY_LEN];
    let (mut ring, _) = Keyring::load_or_bootstrap(None, &kek, [0x22u8; KEY_LEN], 1).unwrap();

    let old_sealed = ring.encrypt_current(b"aad", b"pre-rotate");
    let old_id = ring.current_id();

    ring.rotate(&kek, 2);
    assert_eq!(ring.len(), 2);
    assert_ne!(ring.current_id(), old_id, "rotate must bump current_id");

    let new_sealed = ring.encrypt_current(b"aad", b"post-rotate");
    assert_eq!(ring.decrypt_any(b"aad", &old_sealed).unwrap(), b"pre-rotate");
    assert_eq!(ring.decrypt_any(b"aad", &new_sealed).unwrap(), b"post-rotate");

    let file = ring.save();
    let (ring2, _) =
        Keyring::load_or_bootstrap(Some(file.as_bytes()), &kek, [0u8; KEY_LEN], 3).unwrap();
    assert_eq!(ring2.len(), 2);
    assert_eq!(ring2.decrypt_any(b"aad", &old_sealed).unwrap(), b"pre-rotate");
    assert_eq!(ring2.decrypt_any(b"aad", &new_sealed).unwrap(), b"post-rotate");
}

#[test]
fn keyring_load_with_wrong_kek_fails_at_unwrap() {
    let kek_good = [0x11u8; KEY_LEN];
    let kek_bad = [0x22u8; KEY_LEN];
    let (ring, _) = Keyring::load_or_bootstrap(None, &kek_good, [0x33u8; KEY_LEN], 1).unwrap();
    let file = ring.save();
    let err = match Keyring::load_or_bootstrap(Some(file.as_bytes()), &kek_bad, [0u8; KEY_LEN], 1) {
        Ok(_) => panic!("opened under the wrong key"),
        Err(e) => e,
    };
    assert!(err.message().contains("unwrap failed"), "got: {}", err.message());
}

#[test]
fn sealed_bytes_are_those_of_the_cipher() {
    // AES-256-GCM with an all-zero key and nonce: the empty text and one zero block.
    let sealed = seal_with(&[0u8; 32], &[0u8; 12], &[], &[]);
    assert_eq!(sealed.len(), NONCE_LEN + TAG_LEN);
    assert_eq!(encode_hex_bytes(&sealed[12..]), "530f8afbc74536b9a963b4f1c4cb738b");
    let sealed = seal_with(&[0u8; 32], &[0u8; 12], &[], &[0u8; 16]);
    assert_eq!(
        encode_hex_bytes(&sealed[12..]),
        "cea7403d4d606b6e074ec5d3baf39d18d0d1c8a799996bf0265b98b5d48ab919"
    );
}

#[test]
fn short_blob_is_told_apart_from_a_rejected_one() {
    assert_eq!(decrypt(&[1u8; 32], b"", &[0u8; 27]), Err(OpenError::Truncated(27)));
    assert_eq!(decrypt(&[1u8; 32], b"", &[0u8; 28]), Err(OpenError::Rejected));
}

#[test]
fn key_in_hexadecimal_must_be_whole() {
    let src = KekSource::EnvHex("ff".repeat(31));
    assert!(src.load(&[], &[]).is_err());
    let src = KekSource::EnvHex("zz".repeat(32));
    assert!(src.load(&[], &[]).is_err());
    assert_eq!(decode_hex_bytes("0aF"), Err(HexError::OddLength(3)));
    assert_eq!(decode_hex_bytes("0ag0"), Err(HexError::BadByte(2)));
    assert_eq!(decode_hex_bytes("0aFf"), Ok(vec![10, 255]));
    assert_eq!(decode_hex_bytes("+f"), Ok(vec![15]));
    assert_eq!(decode_hex_key("00"), Err(HexError::WrongLength { expected: 32, got: 1 }));
    assert_eq!(
        HexError::BadByte(2).message(),
        "bad hex byte at offset 2: invalid digit found in string"
    );
    assert_eq!(u8::from_str_radix("g0", 16).unwrap_err().to_string(), "invalid digit found in string");
    assert_eq!(encode_hex_bytes(&[0, 10, 255]), "000aff");
}

#[test]
fn no_key_opens_what_is_foreign() {
    let ring = Keyring::in_memory_single([7u8; 32]);
    let sealed = encrypt(&[8u8; 32], b"", b"x");
    assert_eq!(ring.decrypt_any(b"", &sealed).unwrap_err().keys, 1);
    assert!(!ring.is_empty());
    assert_eq!(ring.summary(5), (1, 1, 5));
    assert_ne!(dek_aad(1), dek_aad(2));
}

#[test]
fn ring_file_that_lacks_something_is_refused() {
    for bad in [&[0xff][..], b"ab\xe2\x82", b"abc\xc3("] {
        let e = std::str::from_utf8(bad).unwrap_err();
        assert_eq!(parse(bad).unwrap_err().message(), format!("not utf-8: {e}"));
    }
    for bad in ["", "x", "+", "-1", "4294967296", "99999999999x", "9x"] {
        let e = bad.parse::<u32>().unwrap_err();
        let text = format!("\"format_version\": {bad},\n");
        assert_eq!(parse(text.as_bytes()).unwrap_err().message(), format!("format_version: {e}"));
    }
    assert!(parse(b"{}").is_err());
    let ring = Keyring::in_memory_single([7u8; 32]);
    let text = ring.save();
    assert!(parse(text.as_bytes()).is_ok());
    assert_eq!(
        parse(text.replace("\"current_id\": 1", "\"current_id\": x").as_bytes()).unwrap_err(),
        LayoutError::CurrentId(NumberError::InvalidDigit)
    );
}

#[test]
fn shard_key_is_that_of_hkdf() {
    assert_eq!(
        encode_hex_bytes(&derive_shard_key(&[42u8; 32])),
        "3c63935d16e6877be47ec9c950b07a027f42d26270b03c3277d383732b4e7a2a"
    );
}

#[test]
fn bytes_survive_hexadecimal() {
    let all: Vec<u8> = (0..=255).collect();
    assert_eq!(decode_hex_bytes(&encode_hex_bytes(&all)), Ok(all));
}
