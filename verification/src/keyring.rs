//! A ring of data keys, each wrapped under one key-wrapping key.
//!
//! New blobs are sealed under the current data key. A rotation adds a fresh key
//! and makes it the current one; the older keys stay, so that what was sealed
//! before can still be opened. Opening tries the newest key first.
use vstd::prelude::*;
use vstd::string::StringExecFns;
use vstd::utf8::encode_utf8;

use crate::bytes::{append, be32, push_be32};
use crate::crypto::{
    decrypt, encrypt, gcm_seal, random12, random32, seal_with, unseal, MAX_AAD, MAX_PLAINTEXT,
    OpenError,
};
use crate::text::{dec, dec_string};

verus! {

broadcast use crate::bytes::group_be;

/// One data key of a ring.
#[derive(Debug, Clone)]
pub struct DekEntry {
    /// The key's number, in the order in which the keys were made.
    pub id: u32,
    /// When the key was made, in milliseconds since 1970.
    pub created_at_unix_ms: u64,
    /// The key, sealed under the wrapping key.
    pub wrapped_dek: Vec<u8>,
    /// The key itself.
    pub raw_dek: [u8; 32],
}

/// A data key as a mathematical value.
pub struct Dek {
    pub id: u32,
    pub created: u64,
    pub wrapped: Seq<u8>,
    pub key: Seq<u8>,
}

impl View for DekEntry {
    type V = Dek;

    open spec fn view(&self) -> Dek {
        Dek {
            id: self.id,
            created: self.created_at_unix_ms,
            wrapped: self.wrapped_dek@,
            key: self.raw_dek@,
        }
    }
}

/// A ring as a mathematical value: its keys, oldest first, and the number of the
/// one in use.
pub struct Ring {
    pub deks: Seq<Dek>,
    pub current: u32,
}

/// A ring of data keys.
pub struct Keyring {
    entries: Vec<DekEntry>,
    current_id: u32,
}

impl View for Keyring {
    type V = Ring;

    closed spec fn view(&self) -> Ring {
        Ring { deks: entry_views(self.entries@), current: self.current_id }
    }
}

/// The keys that some entries stand for.
pub open spec fn entry_views(e: Seq<DekEntry>) -> Seq<Dek> {
    e.map_values(|x: DekEntry| x@)
}

/// The place of the first key numbered `id`, or the number of keys.
pub open spec fn place_of(deks: Seq<Dek>, id: u32) -> int
    decreases deks.len(),
{
    if deks.len() == 0 || deks[0].id == id {
        0
    } else {
        1 + place_of(deks.drop_first(), id)
    }
}

/// The greatest number of a key; 0 for no keys.
pub open spec fn max_id(deks: Seq<Dek>) -> u32
    decreases deks.len(),
{
    if deks.len() == 0 {
        0
    } else {
        let m = max_id(deks.drop_last());
        if m < deks.last().id {
            deks.last().id
        } else {
            m
        }
    }
}

/// When the oldest key was made; 0 for no keys.
pub open spec fn oldest(deks: Seq<Dek>) -> u64
    decreases deks.len(),
{
    if deks.len() == 0 {
        0
    } else if deks.len() == 1 {
        deks[0].created
    } else {
        let m = oldest(deks.drop_last());
        if deks.last().created < m {
            deks.last().created
        } else {
            m
        }
    }
}

/// The plaintext of a blob under the newest of the keys that opens it.
pub open spec fn unseal_any(deks: Seq<Dek>, aad: Seq<u8>, blob: Seq<u8>) -> Option<Seq<u8>>
    decreases deks.len(),
{
    if deks.len() == 0 {
        None
    } else {
        match unseal(deks.last().key, aad, blob) {
            Ok(p) => Some(p),
            Err(_) => unseal_any(deks.drop_last(), aad, blob),
        }
    }
}

/// What is authenticated along with the wrapped key numbered `id`.
pub open spec fn wrap_aad(id: u32) -> Seq<u8> {
    encode_utf8("holofs-dek-v1"@) + be32(id)
}

impl Ring {
    /// Whether some key is the current one.
    pub open spec fn wf(self) -> bool {
        exists|i: int| 0 <= i < self.deks.len() && #[trigger] self.deks[i].id == self.current
    }

    /// The key in use.
    pub open spec fn current_dek(self) -> Dek {
        self.deks[place_of(self.deks, self.current)]
    }

    /// Whether blob `blob` is `plain` sealed under the current key.
    pub open spec fn seals(self, aad: Seq<u8>, plain: Seq<u8>, blob: Seq<u8>) -> bool {
        &&& blob.len() == plain.len() + 28
        &&& blob.skip(12) == gcm_seal(self.current_dek().key, blob.take(12), aad, plain)
        &&& unseal(self.current_dek().key, aad, blob) == Ok::<Seq<u8>, OpenError>(plain)
    }
}

/// `place_of` is where a key with that number stands first.
pub proof fn lemma_place_of(deks: Seq<Dek>, id: u32)
    ensures
        0 <= place_of(deks, id) <= deks.len(),
        forall|j: int| 0 <= j < place_of(deks, id) ==> deks[j].id != id,
        place_of(deks, id) < deks.len() ==> deks[place_of(deks, id)].id == id,
    decreases deks.len(),
{
    if deks.len() > 0 && deks[0].id != id {
        let t = deks.drop_first();
        lemma_place_of(t, id);
        assert forall|j: int| 0 <= j < place_of(deks, id) implies deks[j].id != id by {
            if j > 0 {
                assert(t[j - 1] == deks[j]);
            }
        }
    }
}

/// The first place where a key with that number stands is `place_of`.
proof fn lemma_place_is(deks: Seq<Dek>, id: u32, i: int)
    requires
        0 <= i <= deks.len(),
        forall|j: int| 0 <= j < i ==> deks[j].id != id,
        i < deks.len() ==> deks[i].id == id,
    ensures
        place_of(deks, id) == i,
{
    lemma_place_of(deks, id);
    let k = place_of(deks, id);
    if k < i {
        assert(deks[k].id != id);
    } else if i < k {
        assert(deks[i].id != id);
    }
}

/// No key has a greater number than `max_id`.
pub proof fn lemma_max_id(deks: Seq<Dek>)
    ensures
        forall|i: int| 0 <= i < deks.len() ==> #[trigger] deks[i].id <= max_id(deks),
    decreases deks.len(),
{
    if deks.len() > 0 {
        let t = deks.drop_last();
        lemma_max_id(t);
        assert forall|i: int| 0 <= i < deks.len() implies #[trigger] deks[i].id <= max_id(deks) by {
            if i < t.len() {
                assert(t[i] == deks[i]);
            }
        }
    }
}

/// What is authenticated along with the wrapped key numbered `id`.
pub fn dek_aad(id: u32) -> (r: Vec<u8>)
    ensures
        r@ == wrap_aad(id),
        r@.len() == 17,
{
    let mut v: Vec<u8> = Vec::new();
    append(&mut v, "holofs-dek-v1".as_bytes());
    push_be32(&mut v, id);
    proof {
        lemma_wrap_aad_len(id);
        assert(v@ =~= wrap_aad(id));
    }
    v
}

proof fn lemma_wrap_aad_len(id: u32)
    ensures
        wrap_aad(id).len() == 17,
{
    reveal_strlit("holofs-dek-v1");
    vstd::utf8::is_ascii_chars_encode_utf8("holofs-dek-v1"@);
}

impl Keyring {
    /// Whether some key is the current one.
    pub open spec fn wf(&self) -> bool {
        self@.wf()
    }

    /// A ring of one key, numbered 1, that has not been wrapped.
    pub fn in_memory_single(key: [u8; 32]) -> (r: Self)
        ensures
            r.wf(),
            r@.current == 1,
            r@.deks == seq![Dek { id: 1, created: 0, wrapped: Seq::empty(), key: key@ }],
    {
        let mut entries: Vec<DekEntry> = Vec::new();
        entries.push(
            DekEntry { id: 1, created_at_unix_ms: 0, wrapped_dek: Vec::new(), raw_dek: key },
        );
        let r = Keyring { entries, current_id: 1 };
        proof {
            assert(r@.deks =~= seq![Dek { id: 1, created: 0, wrapped: Seq::empty(), key: key@ }]);
            assert(r@.deks[0].id == 1);
        }
        r
    }

    /// The ring of the given keys.
    pub(crate) fn from_parts(entries: Vec<DekEntry>, current_id: u32) -> (r: Self)
        ensures
            r@.deks == entry_views(entries@),
            r@.current == current_id,
    {
        Keyring { entries, current_id }
    }

    /// The keys, oldest first.
    pub fn entries(&self) -> (r: &Vec<DekEntry>)
        ensures
            entry_views(r@) == self@.deks,
    {
        &self.entries
    }

    /// How many keys the ring has.
    pub fn len(&self) -> (r: usize)
        ensures
            r == self@.deks.len(),
    {
        self.entries.len()
    }

    /// Whether the ring has no keys.
    pub fn is_empty(&self) -> (r: bool)
        ensures
            r == (self@.deks.len() == 0),
    {
        self.entries.is_empty()
    }

    /// The number of the key in use.
    pub fn current_id(&self) -> (r: u32)
        ensures
            r == self@.current,
    {
        self.current_id
    }

    /// The place of the key in use.
    fn current_place(&self) -> (r: usize)
        requires
            self.wf(),
        ensures
            r == place_of(self@.deks, self@.current),
            r < self@.deks.len(),
    {
        let mut i: usize = 0;
        while i < self.entries.len() && self.entries[i].id != self.current_id
            invariant
                0 <= i <= self.entries@.len(),
                forall|j: int| 0 <= j < i ==> self@.deks[j].id != self@.current,
            decreases self.entries@.len() - i,
        {
            assert(self@.deks[i as int] == self.entries@[i as int]@);
            i += 1;
        }
        proof {
            if i < self.entries@.len() {
                assert(self@.deks[i as int] == self.entries@[i as int]@);
            }
            lemma_place_is(self@.deks, self@.current, i as int);
            let k = choose|k: int| 0 <= k < self@.deks.len() && #[trigger] self@.deks[k].id
                == self@.current;
            assert(self@.deks[k].id == self@.current);
        }
        i
    }

    /// `plain` sealed under the current key and a fresh random nonce.
    pub fn encrypt_current(&self, aad: &[u8], plain: &[u8]) -> (r: Vec<u8>)
        requires
            self.wf(),
            plain@.len() <= MAX_PLAINTEXT,
            aad@.len() <= MAX_AAD,
        ensures
            self@.seals(aad@, plain@, r@),
    {
        let i: usize = self.current_place();
        assert(self@.deks[i as int] == self.entries@[i as int]@);
        encrypt(&self.entries[i].raw_dek, aad, plain)
    }

    /// The plaintext of a blob under the newest of the keys that opens it.
    pub fn decrypt_any(&self, aad: &[u8], blob: &[u8]) -> (r: Result<Vec<u8>, NoKeyOpens>)
        ensures
            match r {
                Ok(p) => unseal_any(self@.deks, aad@, blob@) == Some(p@) && p@.len() + 28 == blob@.len(),
                Err(e) => unseal_any(self@.deks, aad@, blob@) is None && e.keys == self@.deks.len(),
            },
    {
        let mut i: usize = self.entries.len();
        assert(self@.deks.take(i as int) =~= self@.deks);
        while i > 0
            invariant
                0 <= i <= self.entries@.len(),
                self@.deks.len() == self.entries@.len(),
                unseal_any(self@.deks, aad@, blob@) == unseal_any(self@.deks.take(i as int), aad@, blob@),
            decreases i,
        {
            i -= 1;
            let ghost t = self@.deks.take(i + 1);
            assert(t.last() == self.entries@[i as int]@);
            assert(t.drop_last() =~= self@.deks.take(i as int));
            match decrypt(&self.entries[i].raw_dek, aad, blob) {
                Ok(p) => {
                    return Ok(p);
                },
                Err(_) => {},
            }
        }
        Err(NoKeyOpens { keys: self.entries.len() })
    }

    /// The number that the next key will have.
    fn next_id(&self) -> (r: u32)
        requires
            max_id(self@.deks) < u32::MAX,
        ensures
            r == max_id(self@.deks) + 1,
    {
        let mut m: u32 = 0;
        let mut i: usize = 0;
        while i < self.entries.len()
            invariant
                0 <= i <= self.entries@.len(),
                self@.deks.len() == self.entries@.len(),
                m == max_id(self@.deks.take(i as int)),
            decreases self.entries@.len() - i,
        {
            let ghost t = self@.deks.take(i + 1);
            assert(t.last() == self.entries@[i as int]@);
            assert(t.drop_last() =~= self@.deks.take(i as int));
            if m < self.entries[i].id {
                m = self.entries[i].id;
            }
            i += 1;
        }
        assert(self@.deks.take(i as int) =~= self@.deks);
        m + 1
    }

    /// Adds the key `raw`, wrapped under `kek` with the given nonce, and makes it
    /// the current one.
    pub fn rotate_with(&mut self, kek: &[u8; 32], raw: [u8; 32], nonce: &[u8; 12], now_ms: u64) -> (r:
        u32)
        requires
            max_id(old(self)@.deks) < u32::MAX,
        ensures
            r == max_id(old(self)@.deks) + 1,
            final(self)@ == old(self)@.rotated(
                Dek {
                    id: r,
                    created: now_ms,
                    wrapped: nonce@ + gcm_seal(kek@, nonce@, wrap_aad(r), raw@),
                    key: raw@,
                },
            ),
            final(self).wf(),
            final(self)@.deks.last().wrapped.len() == 60,
            unseal(kek@, wrap_aad(r), final(self)@.deks.last().wrapped) == Ok::<Seq<u8>, OpenError>(raw@),
            wrapped_under(old(self)@, kek@) ==> wrapped_under(final(self)@, kek@),
    {
        let id: u32 = self.next_id();
        let aad = dek_aad(id);
        let wrapped = seal_with(kek, nonce, aad.as_slice(), raw.as_slice());
        let ghost before = self@;
        self.entries.push(
            DekEntry { id, created_at_unix_ms: now_ms, wrapped_dek: wrapped, raw_dek: raw },
        );
        self.current_id = id;
        proof {
            assert(self@.deks =~= before.deks.push(self.entries@.last()@));
            assert(self@.deks[before.deks.len() as int].id == id);
            if wrapped_under(before, kek@) {
                assert forall|i: int| 0 <= i < self@.deks.len() implies {
                    &&& (#[trigger] self@.deks[i]).key.len() == 32
                    &&& self@.deks[i].wrapped.len() == 60
                    &&& unseal(kek@, wrap_aad(self@.deks[i].id), self@.deks[i].wrapped) == Ok::<
                        Seq<u8>,
                        OpenError,
                    >(self@.deks[i].key)
                } by {
                    if i < before.deks.len() {
                        assert(self@.deks[i] == before.deks[i]);
                    }
                }
            }
        }
        id
    }

    /// Adds a fresh random key, wrapped under `kek`, and makes it the current one.
    pub fn rotate(&mut self, kek: &[u8; 32], now_ms: u64) -> (r: u32)
        requires
            max_id(old(self)@.deks) < u32::MAX,
        ensures
            r == max_id(old(self)@.deks) + 1,
            final(self)@ == old(self)@.rotated(final(self)@.deks.last()),
            final(self)@.deks.last().id == r,
            final(self)@.deks.last().created == now_ms,
            final(self)@.deks.last().key.len() == 32,
            final(self)@.deks.last().wrapped.len() == 60,
            wrapped_under(old(self)@, kek@) ==> wrapped_under(final(self)@, kek@),
            unseal(kek@, wrap_aad(r), final(self)@.deks.last().wrapped) == Ok::<Seq<u8>, OpenError>(
                final(self)@.deks.last().key,
            ),
            final(self).wf(),
    {
        let raw = random32();
        let nonce = random12();
        self.rotate_with(kek, raw, &nonce, now_ms)
    }

    /// The number of the current key, how many keys there are, and how many
    /// milliseconds ago the oldest was made.
    pub fn summary(&self, now_ms: u64) -> (r: (u32, usize, u64))
        ensures
            r.0 == self@.current,
            r.1 == self@.deks.len(),
            r.2 == if now_ms < oldest(self@.deks) {
                0
            } else {
                now_ms - oldest(self@.deks)
            },
    {
        let mut m: u64 = 0;
        let mut i: usize = 0;
        while i < self.entries.len()
            invariant
                0 <= i <= self.entries@.len(),
                self@.deks.len() == self.entries@.len(),
                m == oldest(self@.deks.take(i as int)),
            decreases self.entries@.len() - i,
        {
            let ghost t = self@.deks.take(i + 1);
            assert(t.last() == self.entries@[i as int]@);
            assert(t.drop_last() =~= self@.deks.take(i as int));
            if i == 0 || self.entries[i].created_at_unix_ms < m {
                m = self.entries[i].created_at_unix_ms;
            }
            i += 1;
        }
        assert(self@.deks.take(i as int) =~= self@.deks);
        (self.current_id, self.entries.len(), now_ms.saturating_sub(m))
    }
}

/// Whether every key of a ring is wrapped under `kek`: a nonce, the key and a tag.
pub open spec fn wrapped_under(r: Ring, kek: Seq<u8>) -> bool {
    forall|i: int|
        0 <= i < r.deks.len() ==> {
            &&& (#[trigger] r.deks[i]).key.len() == 32
            &&& r.deks[i].wrapped.len() == 60
            &&& unseal(kek, wrap_aad(r.deks[i].id), r.deks[i].wrapped) == Ok::<Seq<u8>, OpenError>(
                r.deks[i].key,
            )
        }
}

impl Ring {
    /// The ring with one more key, which is then the current one.
    pub open spec fn rotated(self, dek: Dek) -> Ring {
        Ring { deks: self.deks.push(dek), current: dek.id }
    }
}

/// None of so many keys opens a blob.
#[derive(Debug, Clone, Copy, PartialEq, Eq, Structural)]
pub struct NoKeyOpens {
    pub keys: usize,
}

impl NoKeyOpens {
    /// The error in words.
    pub open spec fn text(self) -> Seq<char> {
        "decrypt failed under all "@ + dec(self.keys as nat) + " DEK(s) in keyring"@
    }

    /// The error in words.
    pub fn message(&self) -> (r: String)
        ensures
            r@ == self.text(),
    {
        String::from_str("decrypt failed under all ").concat(
            dec_string(self.keys as u64).as_str(),
        ).concat(" DEK(s) in keyring")
    }
}

/// What the newest key opens, the ring opens: so a blob sealed under the current
/// key opens to its plaintext where the current key is the newest.
pub proof fn sealed_blob_opens(ring: Ring, aad: Seq<u8>, plain: Seq<u8>, blob: Seq<u8>)
    requires
        ring.wf(),
        ring.seals(aad, plain, blob),
        ring.current_dek() == ring.deks.last(),
    ensures
        unseal_any(ring.deks, aad, blob) == Some(plain),
{
}

/// A ring opens a blob exactly where one of its keys does.
pub proof fn ring_opens_what_a_key_of_it_opens(deks: Seq<Dek>, aad: Seq<u8>, blob: Seq<u8>)
    ensures
        unseal_any(deks, aad, blob) is Some <==> exists|i: int|
            0 <= i < deks.len() && unseal((#[trigger] deks[i]).key, aad, blob) is Ok,
    decreases deks.len(),
{
    if deks.len() > 0 {
        let t = deks.drop_last();
        ring_opens_what_a_key_of_it_opens(t, aad, blob);
        assert(deks[deks.len() - 1] == deks.last());
        if exists|i: int| 0 <= i < t.len() && unseal((#[trigger] t[i]).key, aad, blob) is Ok {
            let i = choose|i: int| 0 <= i < t.len() && unseal((#[trigger] t[i]).key, aad, blob) is Ok;
            assert(deks[i] == t[i]);
        }
        if exists|i: int| 0 <= i < deks.len() && unseal((#[trigger] deks[i]).key, aad, blob) is Ok {
            let i = choose|i: int|
                0 <= i < deks.len() && unseal((#[trigger] deks[i]).key, aad, blob) is Ok;
            if i < t.len() {
                assert(t[i] == deks[i]);
            }
        }
    }
}

/// A rotation keeps every blob readable that was readable before it, unless the
/// new key opens the blob as well (its tag would have to fit by chance).
pub proof fn rotation_keeps_old_blobs_readable(ring: Ring, dek: Dek, aad: Seq<u8>, blob: Seq<u8>)
    requires
        unseal(dek.key, aad, blob) is Err,
    ensures
        unseal_any(ring.rotated(dek).deks, aad, blob) == unseal_any(ring.deks, aad, blob),
{
    assert(ring.rotated(dek).deks.drop_last() =~= ring.deks);
}

/// After a rotation the new key is the current and the newest one, so that what is
/// sealed from then on opens to its plaintext.
pub proof fn rotated_ring_opens_what_it_seals(
    ring: Ring,
    dek: Dek,
    aad: Seq<u8>,
    plain: Seq<u8>,
    blob: Seq<u8>,
)
    requires
        dek.id > max_id(ring.deks),
        ring.rotated(dek).seals(aad, plain, blob),
    ensures
        ring.rotated(dek).wf(),
        ring.rotated(dek).current_dek() == dek,
        unseal_any(ring.rotated(dek).deks, aad, blob) == Some(plain),
{
    let r = ring.rotated(dek);
    lemma_max_id(ring.deks);
    assert forall|j: int| 0 <= j < ring.deks.len() implies r.deks[j].id != dek.id by {
        assert(r.deks[j] == ring.deks[j]);
    }
    assert(r.deks[ring.deks.len() as int].id == dek.id);
    lemma_place_is(r.deks, dek.id, ring.deks.len() as int);
}

/// What a wrapped key is bound to tells its number, so that no two numbers share it.
pub proof fn wrapped_keys_are_bound_to_their_numbers(a: u32, b: u32)
    requires
        wrap_aad(a) == wrap_aad(b),
    ensures
        a == b,
{
    let n = encode_utf8("holofs-dek-v1"@).len() as int;
    assert(wrap_aad(a).skip(n) =~= be32(a));
    assert(wrap_aad(b).skip(n) =~= be32(b));
    assert(crate::bytes::u32_of(be32(a)) == crate::bytes::u32_of(be32(b)));
}

} // verus!
