//! What the formats look like: where each number and each text stands, in which order its bytes
//! come, and what is refused.
use vstd::prelude::*;
use vstd::utf8::encode_utf8;

use crate::bytes::{be16, be32, be32_round_trip, be64, be64_round_trip, len16, len32, u32_of, u64_of};
use crate::hex::{hex, unhex, HexError};
use crate::json::escaped;
use crate::keyring::Dek;
use crate::shard_file::{
    is_shard_file, is_shard_name, parse_shard_file, shard_file_name, shard_header, shard_magic,
    Key, ShardFileError,
};
use crate::text::{after_last, digit, ends, utf8};
use crate::text_laws::{beginnings_and_ends, lacks, parts_around_the_last_separator};
use crate::wal::{
    comma_list, digest, frame, hashes_body, joined, next_frame, parse_body, put_body, put_head,
    sealed_body, sealed_plain, seg_magic, segment, sum_up_to_max, Next, Piece, Rec, Scan, WalError,
    KIND_PURGE, KIND_PURGE_HASHES, KIND_PUT_PLAIN, KIND_PUT_SEALED, KIND_WIPE, ROTATE_AT,
};
use crate::whitelist::{
    list_bytes, list_magic, member_bytes, members_bytes, parse_list, signed_blob, Member, SignedList,
    WhitelistError,
};

verus! {

/// Numbers are written with their greatest byte first.
pub proof fn greatest_byte_comes_first(a: u16, b: u32, c: u64)
    ensures
        be16(a).len() == 2 && a == be16(a)[0] * 0x100 + be16(a)[1],
        be32(b).len() == 4 && b == be32(b)[0] * 0x100_0000 + be32(b)[1] * 0x1_0000 + be32(b)[2] * 0x100
            + be32(b)[3],
        be64(c).len() == 8 && be64(c).take(4) == be32((c / 0x1_0000_0000) as u32) && be64(c).skip(4) == be32(
            (c % 0x1_0000_0000) as u32,
        ),
{
    reveal(be16);
    reveal(be32);
    reveal(be64);
    be64_round_trip(c);
    be32_round_trip((c / 0x1_0000_0000) as u32);
    be32_round_trip((c % 0x1_0000_0000) as u32);
    assert(be64(c).take(4) =~= be32((c / 0x1_0000_0000) as u32));
    assert(be64(c).skip(4) =~= be32((c % 0x1_0000_0000) as u32));
}

/// A length that fits its field stands there as it is.
pub proof fn lengths_stand_as_they_are(n: nat)
    ensures
        n <= u16::MAX ==> len16(n) == n,
        n <= u32::MAX ==> len32(n) == n,
{
}

/// Each byte is two digits, the greater first, in lower case.
pub proof fn bytes_are_two_digits(b: Seq<u8>, i: int)
    requires
        0 <= i < b.len(),
    ensures
        hex(b).len() == 2 * b.len(),
        hex(b)[2 * i] as u32 == if b[i] < 160 {
            48 + b[i] as int / 16
        } else {
            87 + b[i] as int / 16
        },
        hex(b)[2 * i + 1] as u32 == if b[i] % 16 < 10 {
            48 + b[i] as int % 16
        } else {
            87 + b[i] as int % 16
        },
{
    assert((2 * i) / 2 == i && (2 * i) % 2 == 0);
    assert((2 * i + 1) / 2 == i && (2 * i + 1) % 2 == 1);
    let h = b[i] as int / 16;
    let l = b[i] as int % 16;
    assert(hex(b)[2 * i] == digit(h));
    assert(hex(b)[2 * i + 1] == digit(l));
    assert(0 <= h < 16 && 0 <= l < 16);
}

/// Digits are read in either case; a text of an odd length, or with something else in it, is refused
/// with its length or the place of the first fault.
pub proof fn digits_are_read_in_either_case(a: u8, b: u8)
    ensures
        0x30 <= a <= 0x39 && 0x30 <= b <= 0x39 ==> unhex(seq![a, b]) == Ok::<Seq<u8>, HexError>(
            seq![((a - 0x30) * 16 + (b - 0x30)) as u8],
        ),
        0x61 <= a <= 0x66 && 0x61 <= b <= 0x66 ==> unhex(seq![a, b]) == Ok::<Seq<u8>, HexError>(
            seq![((a - 0x57) * 16 + (b - 0x57)) as u8],
        ),
        0x41 <= a <= 0x46 && 0x41 <= b <= 0x46 ==> unhex(seq![a, b]) == Ok::<Seq<u8>, HexError>(
            seq![((a - 0x37) * 16 + (b - 0x37)) as u8],
        ),
        unhex(seq![a]) == Err::<Seq<u8>, HexError>(HexError::OddLength(1)),
        b < 0x30 || (0x39 < b && b < 0x41) || (0x46 < b && b < 0x61) || b > 0x66 ==> unhex(seq![a, b])
            == Err::<Seq<u8>, HexError>(HexError::BadByte(0)),
        unhex(Seq::empty()) == Ok::<Seq<u8>, HexError>(Seq::empty()),
{
    reveal_with_fuel(crate::hex::first_bad, 2);
    let s = seq![a, b];
    assert(s[0] == a && s[1] == b);
    assert(s.len() as int / 2 == 1);
    if let Ok(v) = unhex(s) {
        assert(v =~= seq![crate::hex::pair(a, b)->0]);
    }
    let e = Seq::<u8>::empty();
    assert(crate::hex::pair_bytes(e) =~= e);
}

/// Every other character stands in JSON as itself; quotation marks, backslashes and what is not
/// printed stand as escapes.
pub proof fn characters_stand_in_json_as_they_must(c: char, s: Seq<char>, short: bool)
    ensures
        escaped(Seq::empty(), short).len() == 0,
        c as u32 >= 0x20 && c != '"' && c != '\\' ==> escaped(seq![c] + s, short) == seq![c] + escaped(s, short),
        escaped(seq!['"'] + s, short) == seq!['\\', '"'] + escaped(s, short),
        escaped(seq!['\\'] + s, short) == seq!['\\', '\\'] + escaped(s, short),
        escaped(seq!['\n'] + s, short) == seq!['\\', 'n'] + escaped(s, short),
        escaped(seq!['\r'] + s, short) == seq!['\\', 'r'] + escaped(s, short),
        escaped(seq!['\t'] + s, short) == seq!['\\', 't'] + escaped(s, short),
        c as u32 == 1 ==> escaped(seq![c] + s, short) == seq!['\\', 'u', '0', '0', '0', '1'] + escaped(s, short),
        c as u32 == 31 ==> escaped(seq![c] + s, short) == seq!['\\', 'u', '0', '0', '1', 'f'] + escaped(
            s,
            short,
        ),
        c as u32 == 8 ==> escaped(seq![c] + s, true) == seq!['\\', 'b'] + escaped(s, true) && escaped(
            seq![c] + s,
            false,
        ) == seq!['\\', 'u', '0', '0', '0', '8'] + escaped(s, false),
        c as u32 == 12 ==> escaped(seq![c] + s, true) == seq!['\\', 'f'] + escaped(s, true) && escaped(
            seq![c] + s,
            false,
        ) == seq!['\\', 'u', '0', '0', '0', 'c'] + escaped(s, false),
{
    lemma_json_front(c, s, short);
    lemma_json_front(c, s, true);
    lemma_json_front(c, s, false);
    lemma_json_front('"', s, short);
    lemma_json_front('\\', s, short);
    lemma_json_front('\n', s, short);
    lemma_json_front('\r', s, short);
    lemma_json_front('\t', s, short);
}

proof fn lemma_json_front(c: char, s: Seq<char>, short: bool)
    ensures
        escaped(seq![c] + s, short) == crate::json::escaped_char(c, short) + escaped(s, short),
{
    let t = seq![c] + s;
    assert(t[0] == c);
    assert(t.drop_first() =~= s);
}

/// A segment begins with its name, a shard file with another, and the two kinds of shard file with
/// names of their own.
pub proof fn files_begin_with_their_names()
    ensures
        seg_magic() == encode_utf8("HOLOFSW1"@),
        shard_magic(false) == encode_utf8("HOLOFSS1"@),
        shard_magic(true) == encode_utf8("HOLOFSS2"@),
        list_magic() == encode_utf8("HOLOFSW1"@),
        KIND_PUT_PLAIN == 0,
        KIND_PUT_SEALED == 1,
        KIND_PURGE == 2,
        KIND_WIPE == 3,
        KIND_PURGE_HASHES == 4,
        ROTATE_AT == 64 * 1024 * 1024,
{
}

/// A record has its length, its kind, its body and the beginning of the hash of both, in this order.
pub proof fn records_have_their_parts_in_order(kind: u8, body: Seq<u8>)
    requires
        body.len() < u32::MAX,
    ensures
        ({
            let f = frame(kind, body);
            &&& f.len() == 4 + 1 + body.len() + 8
            &&& u32_of(f.subrange(0, 4)) == 1 + body.len()
            &&& f[4] == kind
            &&& f.subrange(5, 5 + body.len() as int) == body
            &&& f.skip(5 + body.len() as int) == crate::crypto::sha256_of(seq![kind] + body)@.take(8)
        }),
{
    let f = frame(kind, body);
    crate::wal_laws::framed_record_is_found(kind, body, Seq::empty());
    be32_round_trip(len32(1 + body.len()));
    assert(f.subrange(0, 4) =~= be32(len32(1 + body.len())));
    assert(f.subrange(5, 5 + body.len() as int) =~= body);
    assert(f.skip(5 + body.len() as int) =~= digest(kind, body));
    assert(digest(kind, body) =~= crate::crypto::sha256_of(seq![kind] + body)@.take(8));
}

/// A put has the object, the channel, the layer and the hash before the lengths and the shard.
pub proof fn puts_have_their_parts_in_order(
    object_id: u64,
    channel: u8,
    layer: u8,
    hash: Seq<u8>,
    shard: Piece,
    blob: Seq<u8>,
)
    requires
        hash.len() == 32,
        shard.coeffs.len() <= u32::MAX,
        shard.payload.len() <= u32::MAX,
        blob.len() <= u32::MAX,
    ensures
        ({
            let h = put_head(object_id, channel, layer, hash);
            let b = put_body(h, shard);
            let n = shard.coeffs.len() as int;
            let s = sealed_body(h, blob);
            let p = sealed_plain(shard);
            &&& h.len() == 42
            &&& u64_of(h.subrange(0, 8)) == object_id
            &&& h[8] == channel
            &&& h[9] == layer
            &&& h.subrange(10, 42) == hash
            &&& b.len() == 50 + shard.coeffs.len() + shard.payload.len()
            &&& b.subrange(0, 42) == h
            &&& u32_of(b.subrange(42, 46)) == shard.coeffs.len()
            &&& u32_of(b.subrange(46, 50)) == shard.payload.len()
            &&& b.subrange(50, 50 + n) == shard.coeffs
            &&& b.skip(50 + n) == shard.payload
            &&& s.subrange(0, 42) == h
            &&& u32_of(s.subrange(42, 46)) == blob.len()
            &&& s.skip(46) == blob
            &&& u32_of(p.subrange(0, 4)) == shard.coeffs.len()
            &&& p.subrange(4, 4 + n) == shard.coeffs
            &&& p.skip(4 + n) == shard.payload
        }),
{
    let h = put_head(object_id, channel, layer, hash);
    let b = put_body(h, shard);
    let n = shard.coeffs.len() as int;
    let s = sealed_body(h, blob);
    let p = sealed_plain(shard);
    be64_round_trip(object_id);
    be32_round_trip(len32(shard.coeffs.len()));
    be32_round_trip(len32(shard.payload.len()));
    be32_round_trip(len32(blob.len()));
    assert(h.subrange(0, 8) =~= be64(object_id));
    assert(h.subrange(10, 42) =~= hash);
    assert(b.subrange(0, 42) =~= h);
    assert(b.subrange(42, 46) =~= be32(len32(shard.coeffs.len())));
    assert(b.subrange(46, 50) =~= be32(len32(shard.payload.len())));
    assert(b.subrange(50, 50 + n) =~= shard.coeffs);
    assert(b.skip(50 + n) =~= shard.payload);
    assert(s.subrange(0, 42) =~= h);
    assert(s.subrange(42, 46) =~= be32(len32(blob.len())));
    assert(s.skip(46) =~= blob);
    assert(p.subrange(0, 4) =~= be32(len32(shard.coeffs.len())));
    assert(p.subrange(4, 4 + n) =~= shard.coeffs);
    assert(p.skip(4 + n) =~= shard.payload);
}

/// The hashes of a purge stand one behind the other, behind their number.
pub proof fn hashes_stand_in_a_row(hashes: Seq<Seq<u8>>, h: Seq<u8>)
    ensures
        joined(Seq::empty()).len() == 0,
        joined(hashes.push(h)) == joined(hashes) + h,
        hashes_body(hashes) == be32(len32(hashes.len())) + joined(hashes),
{
    assert(hashes.push(h).drop_last() =~= hashes);
}

/// A record that says nothing of itself, that is too short for its kind, that is longer than its kind
/// allows, or that is of no kind, is refused with what is wrong.
pub proof fn faulty_records_are_refused(kind: u8, b: Seq<u8>, keys: Option<Seq<Dek>>)
    ensures
        kind > 4 ==> parse_body(kind, b, keys) == Err::<Rec, WalError>(WalError::UnknownKind(kind)),
        b.len() != 8 ==> parse_body(2, b, keys) == Err::<Rec, WalError>(WalError::PurgeLength),
        b.len() != 0 ==> parse_body(3, b, keys) == Err::<Rec, WalError>(WalError::WipeLength),
        b.len() < 4 ==> parse_body(4, b, keys) == Err::<Rec, WalError>(WalError::HashesShort),
        b.len() >= 4 && b.len() != 4 + 32 * u32_of(b.subrange(0, 4)) ==> parse_body(4, b, keys) == Err::<
            Rec,
            WalError,
        >(WalError::HashesLength { count: u32_of(b.subrange(0, 4)), body_len: b.len() as u64 }),
        b.len() < 50 ==> parse_body(0, b, keys) == Err::<Rec, WalError>(WalError::PutHeaderShort),
        b.len() >= 50 && b.len() < 50 + u32_of(b.subrange(42, 46)) + u32_of(b.subrange(46, 50))
            ==> parse_body(0, b, keys) == Err::<Rec, WalError>(WalError::PutLength),
        keys is None ==> parse_body(1, b, keys) == Err::<Rec, WalError>(WalError::SealedWithoutKey),
        keys is Some && b.len() < 46 ==> parse_body(1, b, keys) == Err::<Rec, WalError>(
            WalError::SealedHeaderShort,
        ),
        keys is Some && b.len() >= 46 && b.len() < 46 + u32_of(b.subrange(42, 46)) ==> parse_body(1, b, keys)
            == Err::<Rec, WalError>(WalError::SealedLength),
        keys is Some && b.len() >= 46 + u32_of(b.subrange(42, 46)) && b.len() >= 46 && u32_of(
            b.subrange(42, 46),
        ) < 28 ==> parse_body(1, b, keys) == Err::<Rec, WalError>(WalError::SealedBlobShort),
{
    reveal(parse_body);
}

/// A segment with another name is refused with that name, and a record without a length as well; a
/// segment that breaks off in its name holds nothing yet.
pub proof fn faulty_segments_are_refused(b: Seq<u8>, keys: Option<Seq<Dek>>)
    ensures
        b.len() >= 8 && b.take(8) != encode_utf8("HOLOFSW1"@) ==> segment(b, keys) == Err::<Scan, WalError>(
            WalError::WrongMagic(u64_of(b.take(8))),
        ),
        b.len() < 8 ==> segment(b, keys) == Ok::<Scan, WalError>(Scan { records: Seq::empty(), rest: b }),
        b.len() >= 4 && u32_of(b.take(4)) == 0 ==> next_frame(b) == Next::Zero,
        b.len() < 4 ==> next_frame(b) == Next::Torn,
        b.len() >= 4 && u32_of(b.take(4)) > 0 && b.len() < 12 + u32_of(b.take(4)) ==> next_frame(b)
            == Next::Torn,
{
    if b.len() >= 8 {
        assert(b.take(8) =~= b.subrange(0, 8));
    }
    if b.len() >= 4 {
        assert(b.take(4) =~= b.subrange(0, 4));
    }
}

/// A record whose hash does not fit counts as torn.
pub proof fn damaged_records_are_torn(b: Seq<u8>, n: int)
    requires
        b.len() >= 4,
        n == u32_of(b.take(4)),
        n > 0,
        b.len() >= 12 + n,
    ensures
        next_frame(b) == Next::Torn <==> b.subrange(4 + n, 12 + n) != crate::crypto::sha256_of(
            b.subrange(4, 4 + n),
        )@.take(8),
{
    assert(b.take(4) =~= b.subrange(0, 4));
    assert(crate::crypto::sha256_of(b.subrange(4, 4 + n))@.take(8) =~= crate::crypto::sha256_of(
        b.subrange(4, 4 + n),
    )@.subrange(0, 8));
}

/// Sums stop at the greatest number.
pub proof fn sums_stop_at_the_greatest_number(a: u64, b: int)
    requires
        b >= 0,
    ensures
        a + b <= u64::MAX ==> sum_up_to_max(a, b) == a + b,
        a + b > u64::MAX ==> sum_up_to_max(a, b) == u64::MAX,
{
}

/// A shard file has its name, its key and the two lengths before what it holds.
pub proof fn shard_files_have_their_parts_in_order(key: Key, shard: Piece, sealed: bool)
    requires
        shard.coeffs.len() <= u32::MAX,
        shard.payload.len() <= u32::MAX,
    ensures
        ({
            let h = shard_header(sealed, key, shard);
            &&& h.len() == 26
            &&& h.subrange(0, 8) == shard_magic(sealed)
            &&& u64_of(h.subrange(8, 16)) == key.0
            &&& h[16] == key.1
            &&& h[17] == key.2
            &&& u32_of(h.subrange(18, 22)) == shard.coeffs.len()
            &&& u32_of(h.subrange(22, 26)) == shard.payload.len()
            &&& is_shard_file(None, key, shard, shard_header(false, key, shard) + shard.coeffs + shard.payload)
        }),
{
    let h = shard_header(sealed, key, shard);
    crate::shard_file::lemma_shard_magic();
    be64_round_trip(key.0);
    be32_round_trip(len32(shard.coeffs.len()));
    be32_round_trip(len32(shard.payload.len()));
    assert(h.subrange(0, 8) =~= shard_magic(sealed));
    assert(h.subrange(8, 16) =~= be64(key.0));
    assert(h.subrange(18, 22) =~= be32(len32(shard.coeffs.len())));
    assert(h.subrange(22, 26) =~= be32(len32(shard.payload.len())));
}

/// A shard file that is too short, has no name that is known, or is sealed where there are no keys, is
/// refused with what is wrong.
pub proof fn faulty_shard_files_are_refused(b: Seq<u8>, keys: Option<Seq<Dek>>)
    ensures
        b.len() < 26 ==> parse_shard_file(b, keys) == Err::<(Key, Piece), ShardFileError>(
            ShardFileError::Truncated,
        ),
        b.len() >= 26 && b.take(8) != encode_utf8("HOLOFSS1"@) && b.take(8) != encode_utf8("HOLOFSS2"@)
            ==> parse_shard_file(b, keys) == Err::<(Key, Piece), ShardFileError>(
            ShardFileError::UnknownMagic,
        ),
        b.len() >= 26 && b.take(8) == encode_utf8("HOLOFSS2"@) && keys is None ==> parse_shard_file(b, keys)
            == Err::<(Key, Piece), ShardFileError>(ShardFileError::NoKeyring),
        b.len() >= 26 && b.take(8) == encode_utf8("HOLOFSS1"@) && b.len() < 26 + u32_of(b.subrange(18, 22))
            + u32_of(b.subrange(22, 26)) ==> parse_shard_file(b, keys) == Err::<(Key, Piece), ShardFileError>(
            ShardFileError::Truncated,
        ),
{
    crate::shard_file::lemma_shard_magic();
    if b.len() >= 26 {
        assert(b.take(8) =~= b.subrange(0, 8));
    }
}

/// The file of a shard is named by its hash, in a directory named by the beginning of the hash.
pub proof fn shard_files_are_named_by_their_hashes(hash: Seq<u8>)
    requires
        hash.len() == 32,
    ensures
        shard_file_name(hash).len() == 71,
        shard_file_name(hash).take(2) + shard_file_name(hash).subrange(3, 65) == hex(hash),
        shard_file_name(hash)[2] == '/',
        ends(shard_file_name(hash), ".shard"@),
        is_shard_name(shard_file_name(hash)),
{
    reveal_strlit("/");
    reveal_strlit(".shard");
    let h = hex(hash);
    let n = shard_file_name(hash);
    assert(n.take(2) + n.subrange(3, 65) =~= h);
    beginnings_and_ends(h.take(2) + "/"@ + h.skip(2), ".shard"@, h);
    let base = h.skip(2) + ".shard"@;
    assert(n =~= h.take(2) + seq!['/'] + base);
    assert forall|i: int| 0 <= i < base.len() implies base[i] != '/' by {
        if i < 62 {
            assert(base[i] == h[i + 2]);
            bytes_are_two_digits(hash, (i + 2) / 2);
            assert(2 * ((i + 2) / 2) == i + 2 || 2 * ((i + 2) / 2) + 1 == i + 2);
        }
    }
    parts_around_the_last_separator(h.take(2), '/', base);
    beginnings_and_ends(h.skip(2), ".shard"@, h);
}

/// A file is that of a shard where its own name ends so, and something stands before that.
pub proof fn shard_files_are_known_by_their_ending(dir: Seq<char>, stem: Seq<char>, name: Seq<char>)
    requires
        lacks(stem, '/'),
    ensures
        stem.len() > 0 ==> is_shard_name(dir + "/"@ + stem + ".shard"@),
        !is_shard_name(dir + "/.shard"@),
        !ends(name, ".shard"@) ==> !is_shard_name(name),
{
    reveal_strlit("/");
    reveal_strlit(".shard");
    reveal_strlit("/.shard");
    let base = stem + ".shard"@;
    assert(dir + "/"@ + stem + ".shard"@ =~= dir + seq!['/'] + base);
    assert forall|i: int| 0 <= i < base.len() implies base[i] != '/' by {
        if i < stem.len() {
            assert(base[i] == stem[i]);
        }
    }
    parts_around_the_last_separator(dir, '/', base);
    beginnings_and_ends(stem, ".shard"@, stem);
    assert(dir + "/.shard"@ =~= dir + seq!['/'] + ".shard"@);
    parts_around_the_last_separator(dir, '/', ".shard"@);
    crate::text_laws::last_separator_parts_a_text(name, '/');
    let leaf = after_last(name, '/');
    if is_shard_name(name) {
        if lacks(name, '/') {
            assert(leaf == name);
        } else {
            let front = crate::text::before_last(name, '/') + seq!['/'];
            assert(name =~= front + leaf);
            assert(name.skip(name.len() - 6) =~= leaf.skip(leaf.len() - 6));
        }
    }
}

/// A list has its name, the number of its members, the members, the administrator and the signature
/// in this order; what is signed is all of it but the name and the signature.
pub proof fn lists_have_their_parts_in_order(w: SignedList, m: Member, rest: Seq<Member>)
    ensures
        list_bytes(w) == encode_utf8("HOLOFSW1"@) + signed_blob(w.members, w.admin) + w.sig,
        signed_blob(w.members, w.admin) == be32(len32(w.members.len())) + members_bytes(w.members) + w.admin,
        members_bytes(Seq::empty()).len() == 0,
        members_bytes(seq![m] + rest) == member_bytes(m) + members_bytes(rest),
        member_bytes(m) == be16(len16(utf8(m.addr).len())) + utf8(m.addr) + m.pubkey + seq![m.zone],
{
    let v = seq![m] + rest;
    assert(v[0] == m);
    assert(v.drop_first() =~= rest);
}

/// A list that is too short or has another name is refused.
pub proof fn faulty_lists_are_refused(b: Seq<u8>)
    ensures
        b.len() < 108 ==> parse_list(b) == Err::<SignedList, WhitelistError>(WhitelistError::Truncated),
        b.len() >= 108 && b.take(8) != encode_utf8("HOLOFSW1"@) ==> parse_list(b) == Err::<
            SignedList,
            WhitelistError,
        >(WhitelistError::NotAWhitelist),
{
    if b.len() >= 8 {
        assert(b.take(8) =~= b.subrange(0, 8));
    }
}

/// Bytes in words are their numbers, with a comma and a blank between them.
pub proof fn bytes_in_words_are_their_numbers(b: Seq<u8>, x: u8)
    ensures
        comma_list(Seq::empty()).len() == 0,
        comma_list(seq![x]) == crate::text::dec(x as nat),
        b.len() > 0 ==> comma_list(b.push(x)) == comma_list(b) + ", "@ + crate::text::dec(x as nat),
{
    assert(b.push(x).drop_last() =~= b);
}

} // verus!
