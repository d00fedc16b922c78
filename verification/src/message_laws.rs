//! What errors say: the words that callers and operators know them by, with the numbers and the names
//! that they are about.
use vstd::prelude::*;

use crate::bytes::be64;
use crate::crypto::{KekError, OpenError};
use crate::filter::DateError;
use crate::handshake::{ClientError, Refusal};
use crate::hex::HexError;
use crate::keyring::NoKeyOpens;
use crate::keyring_file::{KeyringError, LayoutError};
use crate::shard_file::ShardFileError;
use crate::text::{dec, quoted_text, NumberError, Utf8Fault};
use crate::tls::TlsBuildError;
use crate::wal::{byte_list, comma_list, WalError};
use crate::whitelist::WhitelistError;

verus! {

/// What is no number, no text and no date says why, and a date says which.
pub proof fn faulty_texts_say_why(s: Seq<char>, n: u8, at: usize)
    ensures
        NumberError::Empty.text() == "cannot parse integer from empty string"@,
        NumberError::InvalidDigit.text() == "invalid digit found in string"@,
        NumberError::TooLarge.text() == "number too large to fit in target type"@,
        (Utf8Fault { valid_up_to: at, error_len: Some(n) }).text() == "invalid utf-8 sequence of "@ + dec(
            n as nat,
        ) + " bytes from index "@ + dec(at as nat),
        (Utf8Fault { valid_up_to: at, error_len: None }).text()
            == "incomplete utf-8 byte sequence from index "@ + dec(at as nat),
        DateError::Shape.text(s) == "expected YYYY-MM-DD, got "@ + quoted_text(s),
        DateError::Year.text(s) == "bad year in "@ + quoted_text(s),
        DateError::Month.text(s) == "bad month in "@ + quoted_text(s),
        DateError::Day.text(s) == "bad day in "@ + quoted_text(s),
        DateError::Range.text(s) == "out-of-range date "@ + quoted_text(s),
{
}

/// What is no hexadecimal number says how long it is, or where the fault is.
pub proof fn faulty_hexadecimal_numbers_say_where(n: usize, got: usize)
    ensures
        HexError::OddLength(n).text() == "odd hex length "@ + dec(n as nat),
        HexError::BadByte(n).text() == "bad hex byte at offset "@ + dec(n as nat)
            + ": invalid digit found in string"@,
        (HexError::WrongLength { expected: n, got }).text() == "expected "@ + dec(n as nat) + " bytes ("@ + dec(
            (2 * n) as nat,
        ) + " hex chars), got "@ + dec(got as nat),
{
}

/// What cannot be opened says how short it is, or that the key does not fit.
pub proof fn what_does_not_open_says_why(n: usize, path: String, e: HexError)
    ensures
        OpenError::Truncated(n).text() == "sealed shard truncated: "@ + dec(n as nat) + " bytes, need ≥ 28"@,
        OpenError::Rejected.text() == "AES-GCM decrypt failed (bad key / tampered file): aead::Error"@,
        (KekError::FileLength { path, got: n }).text() == "KEK file "@ + path@ + " has "@ + dec(n as nat)
            + " bytes, expected 32"@,
        KekError::Hex(e).text() == "KEK env-hex: "@ + e.text(),
        (NoKeyOpens { keys: n }).text() == "decrypt failed under all "@ + dec(n as nat) + " DEK(s) in keyring"@,
{
}

/// A keyring that cannot be read says where, and of which key.
pub proof fn faulty_keyrings_say_where(
    f: Utf8Fault,
    n: NumberError,
    l: LayoutError,
    id: u32,
    bad: HexError,
    error: OpenError,
    got: usize,
)
    ensures
        LayoutError::NotUtf8(f).text() == "not utf-8: "@ + f.text(),
        LayoutError::FormatVersion(n).text() == "format_version: "@ + n.text(),
        LayoutError::CurrentId(n).text() == "current_id: "@ + n.text(),
        LayoutError::MissingKeys.text() == "missing keys field"@,
        LayoutError::NoOpen.text() == "keys: no ["@,
        LayoutError::NoClose.text() == "keys: no ]"@,
        LayoutError::KeyId(n).text() == "key.id: "@ + n.text(),
        LayoutError::KeyCreated(n).text() == "key.created: "@ + n.text(),
        KeyringError::Layout(l).text() == "keyring parse: "@ + l.text(),
        KeyringError::Version(id).text() == "keyring format_version "@ + dec(id as nat)
            + ": only 1 supported"@,
        (KeyringError::Hex { id, bad }).text() == "keyring key id="@ + dec(id as nat) + ": "@ + bad.text(),
        (KeyringError::Unwrap { id, error }).text() == "keyring key id="@ + dec(id as nat)
            + " unwrap failed (wrong KEK?): "@ + error.text(),
        (KeyringError::Length { id, got }).text() == "keyring key id="@ + dec(id as nat) + ": DEK is "@ + dec(
            got as nat,
        ) + " bytes, expected 32"@,
        (KeyringError::NoCurrent { id, entries: got }).text() == "keyring current_id="@ + dec(id as nat)
            + " not found among "@ + dec(got as nat) + " entries"@,
{
}

/// A client that is refused, and a node that is, are told why.
pub proof fn refused_handshakes_say_why(m: String)
    ensures
        Refusal::NotWhitelisted.text() == "handshake: client pubkey is not in ingress whitelist"@,
        Refusal::NotComplete.text() == "handshake: expected HandshakeComplete, got another frame"@,
        Refusal::BadClientSignature.text()
            == "handshake: client signature over server nonce failed verification"@,
        Refusal::UnexpectedComplete.text() == "unexpected HandshakeComplete frame"@,
        Refusal::HandshakeRequired.text()
            == "handshake required: node runs with client whitelist enforcement"@,
        ClientError::Rejected(m).text() == "node rejected handshake: "@ + m@,
        ClientError::NotAChallenge.text() == "expected HandshakeChallenge, got another frame"@,
        ClientError::BadNodeSignature.text() == "node signature over client nonce failed verification"@,
        ClientError::RejectedOnComplete(m).text() == "node rejected on complete: "@ + m@,
        ClientError::NotAnAck.text() == "expected Ack after HandshakeComplete, got another frame"@,
        TlsBuildError::Pem(m).text() == "pem parse: "@ + m@,
        TlsBuildError::Other(m).text() == "tls config: "@ + m@,
{
}

/// A list and a shard file that cannot be read say why.
pub proof fn faulty_files_say_why(f: Utf8Fault, n: usize, coeffs: u32, payload: u32)
    ensures
        WhitelistError::Truncated.text() == "whitelist truncated"@,
        WhitelistError::NotAWhitelist.text() == "not a holofs whitelist"@,
        WhitelistError::Address(f).text() == "addr: "@ + f.text(),
        WhitelistError::TrailingBytes.text() == "whitelist: extra or missing trailing bytes"@,
        ShardFileError::Truncated.text() == "failed to fill whole buffer"@,
        ShardFileError::NoKeyring.text() == "shard file is sealed (HOLOFSS2) but no keyring configured"@,
        (ShardFileError::NotOpened { keys: n }).text() == "shard decrypt: decrypt failed under all "@ + dec(
            n as nat,
        ) + " DEK(s) in keyring"@,
        (ShardFileError::LengthMismatch { got: n, coeffs, payload }).text()
            == "decrypted shard length mismatch: got "@ + dec(n as nat) + ", header wants "@ + dec(
            coeffs as nat,
        ) + "+"@ + dec(payload as nat),
        ShardFileError::UnknownMagic.text() == "not a holofs shard file (unknown magic)"@,
{
}

/// A segment that cannot be read says why, and a wrong name also in which file.
pub proof fn faulty_segments_say_why(m: u64, keys: usize, count: u32, kind: u8, path: Seq<char>, e: WalError)
    ensures
        WalError::WrongMagic(m).text() == "wal segment has wrong magic ["@ + comma_list(be64(m)) + "]"@,
        WalError::WrongMagic(m).text_in(path) == "wal segment "@ + quoted_text(path) + " has wrong magic ["@
            + comma_list(be64(m)) + "]"@,
        !(e is WrongMagic) ==> e.text_in(path) == e.text(),
        WalError::ZeroLength.text() == "wal record with zero-length body"@,
        WalError::PutHeaderShort.text() == "wal put_plain header too short"@,
        WalError::PutLength.text() == "wal put_plain body length mismatch"@,
        WalError::SealedWithoutKey.text() == "wal sealed record but Store has no enc_key configured"@,
        WalError::SealedHeaderShort.text() == "wal put_sealed header too short"@,
        WalError::SealedLength.text() == "wal put_sealed body length mismatch"@,
        WalError::SealedBlobShort.text() == "wal put_sealed sealed blob too short"@,
        (WalError::SealedNotOpened { keys }).text()
            == "wal put_sealed decrypt failed: decrypt failed under all "@ + dec(keys as nat)
            + " DEK(s) in keyring"@,
        WalError::SealedPlainShort.text() == "wal put_sealed plaintext too short for declared coeffs_len"@,
        WalError::PurgeLength.text() == "wal purge body must be 8 bytes"@,
        WalError::HashesShort.text() == "wal purge_hashes body too short"@,
        (WalError::HashesLength { count, body_len: m }).text() == "wal purge_hashes length mismatch: count="@
            + dec(count as nat) + " body_len="@ + dec(m as nat) + " expected="@ + dec((4 + 32 * count) as nat),
        WalError::WipeLength.text() == "wal wipe body must be empty"@,
        WalError::UnknownKind(kind).text() == "wal record has unknown kind byte "@ + dec(kind as nat),
        WalError::Incomplete.text() == "wal closed segment is incomplete"@,
{
    reveal_strlit("wal segment has wrong magic ");
    reveal_strlit("wal segment has wrong magic [");
    reveal_strlit(" has wrong magic ");
    reveal_strlit(" has wrong magic [");
    reveal_strlit("[");
    let l = comma_list(be64(m));
    assert(byte_list(be64(m)) == "["@ + l + "]"@);
    assert(WalError::WrongMagic(m).text() =~= "wal segment has wrong magic ["@ + l + "]"@);
    assert(WalError::WrongMagic(m).text_in(path) =~= "wal segment "@ + quoted_text(path)
        + " has wrong magic ["@ + l + "]"@);
}

} // verus!
