//! What values stand for: a list for its entries, each in its place, and an option for what is in it.
use vstd::prelude::*;

use crate::config_file::{opt_u16, opt_u64, opt_usize, str_text};
use crate::crypto::{opened, OpenError};
use crate::form::opt_text;
use crate::handshake::enforced;
use crate::hex::{bytes_of, HexError};
use crate::http::Reply;
use crate::keyring::{entry_views, Dek, DekEntry, Keyring};
use crate::keyring_file::{row_views, KeyRow, KeyringKeyOnDisk, KeyringOnDisk};
use crate::live::{item_views, Entry, Item};
use crate::node_config::text_or_empty;
use crate::recovery::{file_names, keys_of, ring_in, DiskFile};
use crate::store::{op_views, pieces, DiskOp, Op};
use crate::text::{deep, texts};
use crate::tls::der_views;
use crate::wal::{
    hash_views, read_as, record_views, ring_keys, ring_of, Piece, Rec, RecordKind, Shard, ShardHash, WalError,
};
use crate::whitelist::{members, Member, Whitelist, WhitelistEntry};

verus! {

/// Texts stand for their characters, each in its place.
pub proof fn texts_stand_for_their_characters(v: Seq<Vec<char>>, w: Seq<String>, s: String, t: &str, i: int)
    ensures
        deep(v).len() == v.len(),
        0 <= i < v.len() ==> deep(v)[i] == v[i]@,
        texts(w).len() == w.len(),
        0 <= i < w.len() ==> texts(w)[i] == w[i]@,
        opt_text(Some(s)) == Some(s@),
        opt_text(None) is None,
        str_text(Some(t)) == Some(t@),
        str_text(None) is None,
        text_or_empty(Some(s)) == s@,
        text_or_empty(None).len() == 0,
{
}

/// Numbers stand for themselves, where there are any.
pub proof fn numbers_stand_for_themselves(a: u16, b: u64, c: usize)
    ensures
        opt_u16(Some(a)) == Some(a as nat) && opt_u16(None) is None,
        opt_u64(Some(b)) == Some(b as nat) && opt_u64(None) is None,
        opt_usize(Some(c)) == Some(c as nat) && opt_usize(None) is None,
{
}

/// Bytes that were read stand for themselves, and a failure for itself.
pub proof fn readings_stand_for_what_was_read(v: Vec<u8>, e: OpenError, h: HexError, r: RecordKind, w: WalError)
    ensures
        opened(Ok(v)) == Ok::<Seq<u8>, OpenError>(v@),
        opened(Err(e)) == Err::<Seq<u8>, OpenError>(e),
        bytes_of::<HexError>(Ok(v)) == Ok::<Seq<u8>, HexError>(v@),
        bytes_of::<HexError>(Err(h)) == Err::<Seq<u8>, HexError>(h),
        read_as(Ok(r)) == Ok::<Rec, WalError>(r@),
        read_as(Err(w)) == Err::<Rec, WalError>(w),
{
}

/// Where there is a ring, it is the one that counts, and so is a list where there is one.
pub proof fn rings_and_lists_count_where_there_are_any(k: &Keyring, l: &Keyring, w: &Whitelist)
    ensures
        ring_of(Some(k)) == Some(k@),
        ring_of(None) is None,
        ring_keys(Some(k)) == Some(k@.deks),
        ring_keys(None) is None,
        keys_of(Some(*l)) == Some(l@.deks),
        keys_of(None) is None,
        ring_in(Some(*l)) == Some(l@),
        ring_in(None) is None,
        enforced(Some(w)) == Some(w@),
        enforced(None) is None,
{
}

/// What is held stands with its key, its hash, its bytes and its time, each in its place.
pub proof fn entries_stand_for_what_is_held(v: Seq<Entry>, s: Seq<Shard>, h: Seq<ShardHash>, i: int)
    ensures
        item_views(v).len() == v.len(),
        0 <= i < v.len() ==> item_views(v)[i] == (Item {
            key: v[i].key,
            hash: v[i].hash@,
            shard: Piece { coeffs: v[i].shard.coeffs@, payload: v[i].shard.payload@ },
            epoch: v[i].epoch,
        }),
        pieces(s).len() == s.len(),
        0 <= i < s.len() ==> pieces(s)[i] == (Piece { coeffs: s[i].coeffs@, payload: s[i].payload@ }),
        hash_views(h).len() == h.len(),
        0 <= i < h.len() ==> hash_views(h)[i] == h[i]@,
{
}

/// Records and operations stand for what they say.
pub proof fn records_stand_for_what_they_say(v: Seq<RecordKind>, o: Seq<DiskOp>, i: int)
    ensures
        record_views(v).len() == v.len(),
        0 <= i < v.len() ==> record_views(v)[i] == match v[i] {
            RecordKind::Put { object_id, channel, layer, hash, shard } => Rec::Put {
                object_id,
                channel,
                layer,
                hash: hash@,
                shard: Piece { coeffs: shard.coeffs@, payload: shard.payload@ },
            },
            RecordKind::Purge { object_id } => Rec::Purge { object_id },
            RecordKind::PurgeHashes { hashes } => Rec::PurgeHashes { hashes: hash_views(hashes@) },
            RecordKind::Wipe => Rec::Wipe,
        },
        op_views(o).len() == o.len(),
        0 <= i < o.len() ==> op_views(o)[i] == match o[i] {
            DiskOp::Append { seq, bytes, fsync } => Op::Append { seq, bytes: bytes@, fsync },
            DiskOp::WriteCompacted { epoch, bytes } => Op::WriteCompacted { epoch, bytes: bytes@ },
            DiskOp::Remove { name } => Op::Remove { name: name@ },
            DiskOp::RemoveAll => Op::RemoveAll,
        },
{
}

/// Keys stand with their numbers, their times and their bytes, each in its place.
pub proof fn keys_stand_for_themselves(v: Seq<DekEntry>, w: Seq<KeyringKeyOnDisk>, f: KeyringOnDisk, i: int)
    ensures
        entry_views(v).len() == v.len(),
        0 <= i < v.len() ==> entry_views(v)[i] == (Dek {
            id: v[i].id,
            created: v[i].created_at_unix_ms,
            wrapped: v[i].wrapped_dek@,
            key: v[i].raw_dek@,
        }),
        row_views(w).len() == w.len(),
        0 <= i < w.len() ==> row_views(w)[i] == (KeyRow {
            id: w[i].id,
            created: w[i].created_at_unix_ms,
            wrapped_hex: w[i].wrapped_dek_hex@,
        }),
        f@.version == f.format_version,
        f@.current == f.current_id,
        f@.keys == row_views(f.keys@),
{
}

/// Members, certificates, files and replies stand for themselves, each in its place.
pub proof fn members_and_files_stand_for_themselves(
    v: Seq<WhitelistEntry>,
    c: Seq<Vec<u8>>,
    f: Seq<DiskFile>,
    r: Reply,
    i: int,
)
    ensures
        members(v).len() == v.len(),
        0 <= i < v.len() ==> members(v)[i] == (Member {
            addr: v[i].addr@,
            pubkey: v[i].pubkey@,
            zone: v[i].zone,
        }),
        der_views(c).len() == c.len(),
        0 <= i < c.len() ==> der_views(c)[i] == c[i]@,
        file_names(f).len() == f.len(),
        0 <= i < f.len() ==> file_names(f)[i] == f[i].name,
        r@.status == r.status,
        r@.body == r.body@,
        r@.headers.len() == r.headers@.len(),
        0 <= i < r.headers@.len() ==> r@.headers[i] == (r.headers@[i].0@, r.headers@[i].1@),
{
}

} // verus!
