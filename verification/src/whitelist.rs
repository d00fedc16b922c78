//! The signed list of a cluster's members.
//!
//! ```text
//! magic        8 bytes  HOLOFSW1
//! count        4 bytes, big-endian
//! count times:
//!   addr_len   2 bytes, big-endian
//!   addr       addr_len bytes of UTF-8
//!   pubkey     32 bytes
//!   zone       1 byte
//! admin_pubkey 32 bytes
//! signature    64 bytes, over all from the count to the admin's key
//! ```
use vstd::prelude::*;
use vstd::string::StringExecFns;

use vstd::utf8::encode_utf8;

use crate::bytes::{
    append, be16, be32, copy32, copy64, copy_range, field16, field32, has_at, len16, len32,
    push_be16, push_be32, read_be16, read_be32, same32, u16_of, u32_of,
};
use crate::identity::{
    ed_public, ed_sign, ed_verify, in_domain, verify_blob, whitelist_domain, NodeIdentity, PubKey,
    Sig, DOMAIN_WHITELIST,
};
use crate::text::{
    from_utf8, same_text, text_or_fault, utf8, utf8_bytes, utf8_fault, utf8_round_trip, Utf8Fault,
};

verus! {

broadcast use crate::bytes::group_be;

/// A member of the cluster.
#[derive(Debug, Clone, PartialEq, Eq)]
pub struct WhitelistEntry {
    pub addr: String,
    pub pubkey: PubKey,
    pub zone: u8,
}

/// A member of the cluster, as a mathematical value.
pub struct Member {
    pub addr: Seq<char>,
    pub pubkey: Seq<u8>,
    pub zone: u8,
}

impl View for WhitelistEntry {
    type V = Member;

    open spec fn view(&self) -> Member {
        Member { addr: self.addr@, pubkey: self.pubkey@, zone: self.zone }
    }
}

/// The members that `v` stands for.
pub open spec fn members(v: Seq<WhitelistEntry>) -> Seq<Member> {
    v.map_values(|e: WhitelistEntry| e@)
}

/// A signed list of members.
#[derive(Debug, Clone, PartialEq, Eq)]
pub struct Whitelist {
    pub entries: Vec<WhitelistEntry>,
    pub admin_pubkey: PubKey,
    pub signature: Sig,
}

/// A signed list, as a mathematical value.
pub struct SignedList {
    pub members: Seq<Member>,
    pub admin: Seq<u8>,
    pub sig: Seq<u8>,
}

impl View for Whitelist {
    type V = SignedList;

    open spec fn view(&self) -> SignedList {
        SignedList {
            members: members(self.entries@),
            admin: self.admin_pubkey@,
            sig: self.signature@,
        }
    }
}

/// Why bytes are no whitelist.
#[derive(Debug, Clone, Copy, PartialEq, Eq, Structural)]
pub enum WhitelistError {
    Truncated,
    NotAWhitelist,
    Address(Utf8Fault),
    TrailingBytes,
}

impl WhitelistError {
    /// The error in words.
    pub open spec fn text(self) -> Seq<char> {
        match self {
            WhitelistError::Truncated => "whitelist truncated"@,
            WhitelistError::NotAWhitelist => "not a holofs whitelist"@,
            WhitelistError::Address(f) => "addr: "@ + f.text(),
            WhitelistError::TrailingBytes => "whitelist: extra or missing trailing bytes"@,
        }
    }

    /// The error in words.
    pub fn message(&self) -> (r: String)
        ensures
            r@ == self.text(),
    {
        match self {
            WhitelistError::Truncated => String::from_str("whitelist truncated"),
            WhitelistError::NotAWhitelist => String::from_str("not a holofs whitelist"),
            WhitelistError::Address(f) => String::from_str("addr: ").concat(f.message().as_str()),
            WhitelistError::TrailingBytes => String::from_str(
                "whitelist: extra or missing trailing bytes",
            ),
        }
    }
}

/// The first bytes of a whitelist.
pub open spec fn list_magic() -> Seq<u8> {
    encode_utf8("HOLOFSW1"@)
}

proof fn lemma_list_magic()
    ensures
        list_magic().len() == 8,
{
    reveal_strlit("HOLOFSW1");
    vstd::utf8::is_ascii_chars_encode_utf8("HOLOFSW1"@);
}

/// The bytes of one member.
pub open spec fn member_bytes(m: Member) -> Seq<u8> {
    be16(len16(utf8(m.addr).len())) + utf8(m.addr) + m.pubkey + seq![m.zone]
}

/// The bytes of members in a row.
pub open spec fn members_bytes(ms: Seq<Member>) -> Seq<u8>
    decreases ms.len(),
{
    if ms.len() == 0 {
        Seq::empty()
    } else {
        member_bytes(ms[0]) + members_bytes(ms.drop_first())
    }
}

/// What the admin signs.
pub open spec fn signed_blob(ms: Seq<Member>, admin: Seq<u8>) -> Seq<u8> {
    be32(len32(ms.len())) + members_bytes(ms) + admin
}

/// A whitelist in bytes.
pub open spec fn list_bytes(w: SignedList) -> Seq<u8> {
    list_magic() + signed_blob(w.members, w.admin) + w.sig
}

/// The members at the start of `b`, and what is left behind them.
pub open spec fn parse_members(b: Seq<u8>, n: nat) -> Result<(Seq<Member>, Seq<u8>), WhitelistError>
    decreases n,
{
    if n == 0 {
        Ok((Seq::empty(), b))
    } else if b.len() < 2 {
        Err(WhitelistError::Truncated)
    } else {
        let a = u16_of(b.subrange(0, 2)) as int;
        if b.len() < 2 + a + 33 {
            Err(WhitelistError::Truncated)
        } else if from_utf8(b.subrange(2, 2 + a)) is None {
            Err(WhitelistError::Address(utf8_fault(b.subrange(2, 2 + a))))
        } else {
            let m = Member {
                addr: from_utf8(b.subrange(2, 2 + a))->0,
                pubkey: b.subrange(2 + a, 34 + a),
                zone: b[34 + a],
            };
            match parse_members(b.skip(35 + a), (n - 1) as nat) {
                Err(e) => Err(e),
                Ok((ms, rest)) => Ok((seq![m] + ms, rest)),
            }
        }
    }
}

/// The whitelist that some bytes spell.
pub open spec fn parse_list(b: Seq<u8>) -> Result<SignedList, WhitelistError> {
    if b.len() < 108 {
        Err(WhitelistError::Truncated)
    } else if b.subrange(0, 8) != list_magic() {
        Err(WhitelistError::NotAWhitelist)
    } else {
        match parse_members(b.skip(12), u32_of(b.subrange(8, 12)) as nat) {
            Err(e) => Err(e),
            Ok((ms, rest)) => if rest.len() != 96 {
                Err(WhitelistError::TrailingBytes)
            } else {
                Ok(
                    SignedList {
                        members: ms,
                        admin: rest.subrange(0, 32),
                        sig: rest.subrange(32, 96),
                    },
                )
            },
        }
    }
}

/// Whether a whitelist's signature fits, and the admin is the expected one.
pub open spec fn accepted(w: SignedList, expected: Option<Seq<u8>>) -> bool {
    &&& (expected matches Some(e) ==> e == w.admin)
    &&& ed_verify(w.admin, in_domain(whitelist_domain(), signed_blob(w.members, w.admin)), w.sig)
}

/// What the admin signs.
fn encode_signed_blob(entries: &Vec<WhitelistEntry>, admin_pubkey: &PubKey) -> (r: Vec<u8>)
    ensures
        r@ == signed_blob(members(entries@), admin_pubkey@),
{
    let ghost ms = members(entries@);
    let mut b: Vec<u8> = Vec::new();
    push_be32(&mut b, field32(entries.len()));
    let ghost start = b@;
    let mut i: usize = 0;
    proof {
        assert(ms.skip(0) =~= ms);
        assert(start =~= be32(len32(ms.len())));
        assert(signed_blob(ms, admin_pubkey@) =~= b@ + members_bytes(ms.skip(0)) + admin_pubkey@);
    }
    while i < entries.len()
        invariant
            0 <= i <= entries@.len(),
            ms == members(entries@),
            signed_blob(ms, admin_pubkey@) == b@ + members_bytes(ms.skip(i as int)) + admin_pubkey@,
        decreases entries@.len() - i,
    {
        let e = &entries[i];
        let ghost before = b@;
        let ab: &[u8] = utf8_bytes(e.addr.as_str());
        push_be16(&mut b, field16(ab.len()));
        append(&mut b, ab);
        append(&mut b, e.pubkey.as_slice());
        b.push(e.zone);
        proof {
            let s = ms.skip(i as int);
            assert(s[0] == e@);
            assert(s.drop_first() =~= ms.skip(i + 1));
            assert(b@ =~= before + member_bytes(e@));
            assert(b@ + members_bytes(ms.skip(i + 1)) + admin_pubkey@ =~= before + (member_bytes(e@)
                + members_bytes(ms.skip(i + 1))) + admin_pubkey@);
        }
        i += 1;
    }
    append(&mut b, admin_pubkey.as_slice());
    proof {
        assert(ms.skip(i as int) =~= Seq::<Member>::empty());
        assert(b@ =~= signed_blob(ms, admin_pubkey@));
    }
    b
}

/// The members at `pos`, and where they end.
fn decode_members(b: &[u8], pos: usize, n: u32) -> (r: Result<
    (Vec<WhitelistEntry>, usize),
    WhitelistError,
>)
    requires
        pos <= b@.len(),
    ensures
        match r {
            Ok((v, end)) => end <= b@.len() && parse_members(b@.skip(pos as int), n as nat) == Ok::<
                (Seq<Member>, Seq<u8>),
                WhitelistError,
            >((members(v@), b@.skip(end as int))),
            Err(e) => parse_members(b@.skip(pos as int), n as nat) == Err::<
                (Seq<Member>, Seq<u8>),
                WhitelistError,
            >(e),
        },
{
    let ghost all = parse_members(b@.skip(pos as int), n as nat);
    let mut out: Vec<WhitelistEntry> = Vec::new();
    let mut at: usize = pos;
    let mut left: u32 = n;
    proof {
        if let Ok((ms, rest)) = all {
            assert(members(out@) + ms =~= ms);
        }
    }
    while left > 0
        invariant
            at <= b@.len(),
            all == parse_members(b@.skip(pos as int), n as nat),
            all == after_members(members(out@), parse_members(b@.skip(at as int), left as nat)),
        decreases left,
    {
        let ghost s = b@.skip(at as int);
        if b.len() - at < 2 {
            return Err(WhitelistError::Truncated);
        }
        let a: usize = read_be16(b, at) as usize;
        assert(s.subrange(0, 2) =~= b@.subrange(at as int, at + 2));
        if b.len() - at < 35 + a {
            return Err(WhitelistError::Truncated);
        }
        let raw = copy_range(b, at + 2, at + 2 + a);
        assert(s.subrange(2, 2 + a) =~= raw@);
        let addr: String = match text_or_fault(raw) {
            Ok(t) => t,
            Err(f) => {
                return Err(WhitelistError::Address(f));
            },
        };
        let pubkey: [u8; 32] = copy32(b, at + 2 + a);
        let zone: u8 = b[at + 34 + a];
        let ghost before = members(out@);
        let e = WhitelistEntry { addr, pubkey, zone };
        let ghost m = e@;
        out.push(e);
        at = at + 35 + a;
        proof {
            assert(s.subrange(2 + a, 34 + a) =~= pubkey@);
            assert(s.skip(35 + a) =~= b@.skip(at as int));
            assert(members(out@) =~= before + seq![m]);
            if let Ok((ms, rest)) = parse_members(b@.skip(at as int), (left - 1) as nat) {
                assert(before + (seq![m] + ms) =~= members(out@) + ms);
            }
        }
        left -= 1;
    }
    assert(members(out@) + Seq::<Member>::empty() =~= members(out@));
    Ok((out, at))
}

/// A parse with some members before it.
spec fn after_members(
    before: Seq<Member>,
    r: Result<(Seq<Member>, Seq<u8>), WhitelistError>,
) -> Result<(Seq<Member>, Seq<u8>), WhitelistError> {
    match r {
        Err(e) => Err(e),
        Ok((ms, rest)) => Ok((before + ms, rest)),
    }
}

impl Whitelist {
    /// The list of these members, signed by the admin; it is accepted with the admin's
    /// key expected or none.
    pub fn sign(entries: Vec<WhitelistEntry>, admin: &NodeIdentity) -> (r: Whitelist)
        ensures
            r.entries == entries,
            r.admin_pubkey == ed_public(admin@),
            r.signature == ed_sign(
                admin@,
                in_domain(whitelist_domain(), signed_blob(members(entries@), r.admin_pubkey@)),
            ),
            accepted(r@, None),
            accepted(r@, Some(ed_public(admin@)@)),
    {
        let admin_pubkey = admin.pubkey();
        let blob = encode_signed_blob(&entries, &admin_pubkey);
        let signature = admin.sign_blob(DOMAIN_WHITELIST.as_bytes(), blob.as_slice());
        Whitelist { entries, admin_pubkey, signature }
    }

    /// Whether the signature fits and the admin is the expected one.
    pub fn verify(&self, expected_admin: Option<&PubKey>) -> (r: bool)
        ensures
            r == accepted(
                self@,
                match expected_admin {
                    Some(e) => Some(e@),
                    None => None,
                },
            ),
    {
        match expected_admin {
            Some(e) => {
                if !same32(&self.admin_pubkey, e) {
                    return false;
                }
            },
            None => {},
        }
        let blob = encode_signed_blob(&self.entries, &self.admin_pubkey);
        verify_blob(&self.admin_pubkey, DOMAIN_WHITELIST.as_bytes(), blob.as_slice(), &self.signature)
    }

    /// The first member with this address.
    pub fn lookup_by_addr(&self, addr: &str) -> (r: Option<&WhitelistEntry>)
        ensures
            match r {
                Some(e) => exists|i: int|
                    {
                        &&& 0 <= i < self.entries@.len()
                        &&& #[trigger] self.entries@[i] == *e
                        &&& e.addr@ == addr@
                        &&& forall|j: int| 0 <= j < i ==> (#[trigger] self.entries@[j]).addr@ != addr@
                    },
                None => forall|i: int|
                    0 <= i < self.entries@.len() ==> (#[trigger] self.entries@[i]).addr@ != addr@,
            },
    {
        let mut i: usize = 0;
        while i < self.entries.len()
            invariant
                0 <= i <= self.entries@.len(),
                forall|j: int| 0 <= j < i ==> (#[trigger] self.entries@[j]).addr@ != addr@,
            decreases self.entries@.len() - i,
        {
            if same_text(self.entries[i].addr.as_str(), addr) {
                let e: &WhitelistEntry = &self.entries[i];
                assert(self.entries@[i as int] == *e);
                return Some(e);
            }
            i += 1;
        }
        None
    }

    /// The first member with this public key.
    pub fn lookup_by_pubkey(&self, pk: &PubKey) -> (r: Option<&WhitelistEntry>)
        ensures
            match r {
                Some(e) => exists|i: int|
                    {
                        &&& 0 <= i < self.entries@.len()
                        &&& #[trigger] self.entries@[i] == *e
                        &&& e.pubkey@ == pk@
                        &&& forall|j: int| 0 <= j < i ==> (#[trigger] self.entries@[j]).pubkey@ != pk@
                    },
                None => forall|i: int|
                    0 <= i < self.entries@.len() ==> (#[trigger] self.entries@[i]).pubkey@ != pk@,
            },
            r is Some <==> lists(self@, pk@),
    {
        let mut i: usize = 0;
        while i < self.entries.len()
            invariant
                0 <= i <= self.entries@.len(),
                forall|j: int| 0 <= j < i ==> (#[trigger] self.entries@[j]).pubkey@ != pk@,
            decreases self.entries@.len() - i,
        {
            if same32(&self.entries[i].pubkey, pk) {
                let e: &WhitelistEntry = &self.entries[i];
                assert(self.entries@[i as int] == *e);
                assert(self@.members[i as int] == e@);
                return Some(e);
            }
            i += 1;
        }
        None
    }

    /// How many members the list has.
    pub fn len(&self) -> (r: usize)
        ensures
            r == self@.members.len(),
    {
        self.entries.len()
    }

    /// Whether the list has no members.
    pub fn is_empty(&self) -> (r: bool)
        ensures
            r == (self@.members.len() == 0),
    {
        self.entries.is_empty()
    }

    /// The whitelist in bytes.
    pub fn encode(&self) -> (r: Vec<u8>)
        ensures
            r@ == list_bytes(self@),
    {
        let mut b: Vec<u8> = Vec::new();
        append(&mut b, "HOLOFSW1".as_bytes());
        let blob = encode_signed_blob(&self.entries, &self.admin_pubkey);
        append(&mut b, blob.as_slice());
        append(&mut b, self.signature.as_slice());
        assert(b@ =~= list_bytes(self@));
        b
    }

    /// The whitelist that some bytes spell.
    pub fn decode(buf: &[u8]) -> (r: Result<Whitelist, WhitelistError>)
        ensures
            match r {
                Ok(w) => parse_list(buf@) == Ok::<SignedList, WhitelistError>(w@),
                Err(e) => parse_list(buf@) == Err::<SignedList, WhitelistError>(e),
            },
    {
        if buf.len() < 108 {
            return Err(WhitelistError::Truncated);
        }
        proof {
            lemma_list_magic();
        }
        if !has_at(buf, 0, "HOLOFSW1".as_bytes()) {
            return Err(WhitelistError::NotAWhitelist);
        }
        let n: u32 = read_be32(buf, 8);
        let (entries, pos) = match decode_members(buf, 12, n) {
            Ok(p) => p,
            Err(e) => {
                return Err(e);
            },
        };
        if buf.len() - pos != 96 {
            return Err(WhitelistError::TrailingBytes);
        }
        let admin_pubkey: [u8; 32] = copy32(buf, pos);
        let signature: [u8; 64] = copy64(buf, pos + 32);
        proof {
            let rest = buf@.skip(pos as int);
            assert(rest.subrange(0, 32) =~= admin_pubkey@);
            assert(rest.subrange(32, 96) =~= signature@);
        }
        Ok(Whitelist { entries, admin_pubkey, signature })
    }
}

/// Whether some member has this public key.
pub open spec fn lists(w: SignedList, pk: Seq<u8>) -> bool {
    exists|i: int| 0 <= i < w.members.len() && (#[trigger] w.members[i]).pubkey == pk
}

/// Whether a list can be written down: the count and the lengths of the addresses
/// fit their fields, and the keys have their lengths.
pub open spec fn encodable(w: SignedList) -> bool {
    &&& w.members.len() <= u32::MAX
    &&& w.admin.len() == 32
    &&& w.sig.len() == 64
    &&& forall|i: int|
        0 <= i < w.members.len() ==> utf8((#[trigger] w.members[i]).addr).len() <= u16::MAX
            && w.members[i].pubkey.len() == 32
}

proof fn lemma_members_round_trip(ms: Seq<Member>, rest: Seq<u8>)
    requires
        forall|i: int|
            0 <= i < ms.len() ==> utf8((#[trigger] ms[i]).addr).len() <= u16::MAX
                && ms[i].pubkey.len() == 32,
    ensures
        parse_members(members_bytes(ms) + rest, ms.len()) == Ok::<
            (Seq<Member>, Seq<u8>),
            WhitelistError,
        >((ms, rest)),
    decreases ms.len(),
{
    if ms.len() == 0 {
        assert(members_bytes(ms) + rest =~= rest);
        assert(ms =~= Seq::<Member>::empty());
    } else {
        let m = ms[0];
        let more = ms.drop_first();
        assert forall|i: int| 0 <= i < more.len() implies utf8((#[trigger] more[i]).addr).len()
            <= u16::MAX && more[i].pubkey.len() == 32 by {
            assert(more[i] == ms[i + 1]);
        }
        lemma_members_round_trip(more, rest);
        let tail = members_bytes(more) + rest;
        let b = members_bytes(ms) + rest;
        let e = utf8(m.addr);
        let a = e.len() as int;
        assert(b =~= member_bytes(m) + tail);
        assert(member_bytes(m).len() == 35 + a);
        assert(b.subrange(0, 2) =~= be16(len16(e.len())));
        assert(b.subrange(2, 2 + a) =~= e);
        assert(b.subrange(2 + a, 34 + a) =~= m.pubkey);
        assert(b[34 + a] == m.zone);
        assert(b.skip(35 + a) =~= tail);
        utf8_round_trip(m.addr);
        assert(seq![m] + more =~= ms);
    }
}

/// Decoding gives back the whitelist that was encoded.
pub proof fn whitelist_round_trip(w: SignedList)
    requires
        encodable(w),
    ensures
        parse_list(list_bytes(w)) == Ok::<SignedList, WhitelistError>(w),
{
    lemma_list_magic();
    let b = list_bytes(w);
    let rest = w.admin + w.sig;
    lemma_members_round_trip(w.members, rest);
    assert(b.subrange(0, 8) =~= list_magic());
    assert(b.subrange(8, 12) =~= be32(len32(w.members.len())));
    assert(b.skip(12) =~= members_bytes(w.members) + rest);
    assert(rest.subrange(0, 32) =~= w.admin);
    assert(rest.subrange(32, 96) =~= w.sig);
    assert(b.len() >= 108);
}

/// Members that were read are written as they stood, and their fields fit.
proof fn lemma_members_canonical(b: Seq<u8>, n: nat)
    requires
        parse_members(b, n) is Ok,
    ensures
        ({
            let (ms, rest) = parse_members(b, n)->Ok_0;
            &&& ms.len() == n
            &&& b == members_bytes(ms) + rest
            &&& forall|i: int|
                0 <= i < ms.len() ==> utf8((#[trigger] ms[i]).addr).len() <= u16::MAX
                    && ms[i].pubkey.len() == 32
        }),
    decreases n,
{
    if n == 0 {
        assert(b =~= Seq::<u8>::empty() + b);
    } else {
        let a = u16_of(b.subrange(0, 2)) as int;
        lemma_members_canonical(b.skip(35 + a), (n - 1) as nat);
        let (more, rest) = parse_members(b.skip(35 + a), (n - 1) as nat)->Ok_0;
        let m = Member {
            addr: from_utf8(b.subrange(2, 2 + a))->0,
            pubkey: b.subrange(2 + a, 34 + a),
            zone: b[34 + a],
        };
        let ms = seq![m] + more;
        crate::text::from_utf8_is_exact(b.subrange(2, 2 + a));
        assert(utf8(m.addr) == b.subrange(2, 2 + a));
        crate::bytes::u16_round_trip(b.subrange(0, 2));
        assert(be16(len16(utf8(m.addr).len())) == b.subrange(0, 2));
        assert(ms[0] == m);
        assert(ms.drop_first() =~= more);
        assert(member_bytes(m) =~= b.take(35 + a));
        assert(members_bytes(ms) == member_bytes(m) + members_bytes(more));
        assert(b =~= b.take(35 + a) + b.skip(35 + a));
        assert(members_bytes(ms) + rest =~= member_bytes(m) + (members_bytes(more) + rest));
        assert forall|i: int| 0 <= i < ms.len() implies utf8((#[trigger] ms[i]).addr).len()
            <= u16::MAX && ms[i].pubkey.len() == 32 by {
            if i > 0 {
                assert(ms[i] == more[i - 1]);
            }
        }
    }
}

/// Only the bytes that a list is written as are read as that list.
pub proof fn only_canonical_bytes_are_read(b: Seq<u8>)
    requires
        parse_list(b) is Ok,
    ensures
        encodable(parse_list(b)->Ok_0),
        list_bytes(parse_list(b)->Ok_0) == b,
{
    lemma_list_magic();
    let w = parse_list(b)->Ok_0;
    let n = u32_of(b.subrange(8, 12));
    lemma_members_canonical(b.skip(12), n as nat);
    let (ms, rest) = parse_members(b.skip(12), n as nat)->Ok_0;
    crate::bytes::u32_round_trip(b.subrange(8, 12));
    assert(be32(len32(ms.len())) == b.subrange(8, 12));
    assert(w.admin + w.sig =~= rest);
    assert(b =~= b.subrange(0, 8) + b.subrange(8, 12) + b.skip(12));
    assert(list_bytes(w) =~= list_magic() + be32(len32(ms.len())) + (members_bytes(ms) + (w.admin
        + w.sig)));
}

/// What stands behind members that can be read is no matter for them.
proof fn lemma_members_and_more(b: Seq<u8>, n: nat, more: Seq<u8>)
    requires
        parse_members(b, n) is Ok,
    ensures
        parse_members(b + more, n) is Ok,
        parse_members(b + more, n)->Ok_0.1.len() == parse_members(b, n)->Ok_0.1.len() + more.len(),
    decreases n,
{
    if n > 0 {
        let c = b + more;
        let a = u16_of(b.subrange(0, 2)) as int;
        assert(c.subrange(0, 2) =~= b.subrange(0, 2));
        assert(c.subrange(2, 2 + a) =~= b.subrange(2, 2 + a));
        lemma_members_and_more(b.skip(35 + a), (n - 1) as nat, more);
        assert(c.skip(35 + a) =~= b.skip(35 + a) + more);
    }
}

/// A list that was cut short is no list.
pub proof fn cut_list_is_refused(b: Seq<u8>, n: int)
    requires
        parse_list(b) is Ok,
        0 <= n < b.len(),
    ensures
        parse_list(b.take(n)) is Err,
{
    let c = b.take(n);
    if parse_list(c) is Ok {
        let k = u32_of(c.subrange(8, 12)) as nat;
        assert(b.subrange(8, 12) =~= c.subrange(8, 12));
        lemma_members_and_more(c.skip(12), k, b.skip(n));
        assert(c.skip(12) + b.skip(n) =~= b.skip(12));
    }
}

/// What the admin signs covers the admin's key and every member: two lists that can
/// be written down and differ in either are signed as different bytes.
pub proof fn signed_bytes_tell_lists_apart(a: SignedList, b: SignedList)
    requires
        encodable(a),
        encodable(b),
        signed_blob(a.members, a.admin) == signed_blob(b.members, b.admin),
    ensures
        a.members == b.members,
        a.admin == b.admin,
{
    let c = SignedList { sig: a.sig, ..b };
    whitelist_round_trip(a);
    whitelist_round_trip(c);
    assert(list_bytes(a) == list_bytes(c));
}

} // verus!
