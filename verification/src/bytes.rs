//! Big-endian integers and byte slices: the vocabulary of every on-disk format
//! in this crate.
use vstd::prelude::*;
use vstd::slice::{slice_subrange, slice_to_vec};

verus! {

/// The two bytes of `x`, most significant first.
#[verifier::opaque]
pub open spec fn be16(x: u16) -> Seq<u8> {
    seq![(x / 0x100) as u8, (x % 0x100) as u8]
}

/// The four bytes of `x`, most significant first.
#[verifier::opaque]
pub open spec fn be32(x: u32) -> Seq<u8> {
    seq![
        (x / 0x100_0000) as u8,
        ((x / 0x1_0000) % 0x100) as u8,
        ((x / 0x100) % 0x100) as u8,
        (x % 0x100) as u8,
    ]
}

/// The eight bytes of `x`, most significant first.
#[verifier::opaque]
pub open spec fn be64(x: u64) -> Seq<u8> {
    be32((x / 0x1_0000_0000) as u32) + be32((x % 0x1_0000_0000) as u32)
}

/// The number that two bytes spell, most significant first.
#[verifier::opaque]
pub open spec fn u16_of(s: Seq<u8>) -> u16 {
    (s[0] as u16 * 0x100 + s[1] as u16) as u16
}

/// The number that four bytes spell, most significant first.
#[verifier::opaque]
pub open spec fn u32_of(s: Seq<u8>) -> u32 {
    (s[0] as u32 * 0x100_0000 + s[1] as u32 * 0x1_0000 + s[2] as u32 * 0x100 + s[3] as u32) as u32
}

/// The number that eight bytes spell, most significant first.
#[verifier::opaque]
pub open spec fn u64_of(s: Seq<u8>) -> u64 {
    (u32_of(s.subrange(0, 4)) as u64 * 0x1_0000_0000 + u32_of(s.subrange(4, 8)) as u64) as u64
}

/// A length as a 32-bit field holds it.
pub open spec fn len32(n: nat) -> u32 {
    (n % 0x1_0000_0000) as u32
}

/// A length as a 16-bit field holds it.
pub open spec fn len16(n: nat) -> u16 {
    (n % 0x1_0000) as u16
}

/// Reading back two bytes gives the number they were written for.
pub broadcast proof fn be16_round_trip(x: u16)
    ensures
        u16_of(#[trigger] be16(x)) == x,
        be16(x).len() == 2,
{
    reveal(be16);
    reveal(u16_of);
}

/// Reading back four bytes gives the number they were written for.
pub broadcast proof fn be32_round_trip(x: u32)
    ensures
        u32_of(#[trigger] be32(x)) == x,
        be32(x).len() == 4,
{
    reveal(be32);
    reveal(u32_of);
}

/// Reading back eight bytes gives the number they were written for.
pub broadcast proof fn be64_round_trip(x: u64)
    ensures
        u64_of(#[trigger] be64(x)) == x,
        be64(x).len() == 8,
{
    reveal(be64);
    reveal(u64_of);
    let hi = (x / 0x1_0000_0000) as u32;
    let lo = (x % 0x1_0000_0000) as u32;
    be32_round_trip(hi);
    be32_round_trip(lo);
    assert(be64(x).subrange(0, 4) =~= be32(hi));
    assert(be64(x).subrange(4, 8) =~= be32(lo));
}

/// Writing the number that two bytes spell gives the bytes back.
pub proof fn u16_round_trip(s: Seq<u8>)
    requires
        s.len() == 2,
    ensures
        be16(u16_of(s)) == s,
{
    reveal(be16);
    reveal(u16_of);
    assert(be16(u16_of(s)) =~= s);
}

/// Writing the number that four bytes spell gives the bytes back.
pub proof fn u32_round_trip(s: Seq<u8>)
    requires
        s.len() == 4,
    ensures
        be32(u32_of(s)) == s,
{
    reveal(be32);
    reveal(u32_of);
    let a = s[0] as int;
    let b = s[1] as int;
    let c = s[2] as int;
    let d = s[3] as int;
    let x = u32_of(s) as int;
    assert(x == a * 0x100_0000 + b * 0x1_0000 + c * 0x100 + d);
    assert(x / 0x100_0000 == a);
    assert(x / 0x1_0000 == a * 0x100 + b);
    assert(x / 0x100 == a * 0x1_0000 + b * 0x100 + c);
    assert((a * 0x100 + b) % 0x100 == b);
    assert((a * 0x1_0000 + b * 0x100 + c) % 0x100 == c);
    assert(x % 0x100 == d);
    let r = be32(u32_of(s));
    assert(r.len() == 4);
    assert(r[0] == s[0] && r[1] == s[1] && r[2] == s[2] && r[3] == s[3]);
    assert(r =~= s);
}

pub broadcast group group_be {
    be16_round_trip,
    be32_round_trip,
    be64_round_trip,
}

/// `s` written after what `out` holds.
pub fn append(out: &mut Vec<u8>, s: &[u8])
    ensures
        final(out)@ == old(out)@ + s@,
{
    out.extend_from_slice(s);
    proof {
        assert(out@ =~= old(out)@ + s@);
    }
}

/// The bytes of `buf` from `from` up to `to`.
pub fn copy_range(buf: &[u8], from: usize, to: usize) -> (r: Vec<u8>)
    requires
        from <= to <= buf@.len(),
    ensures
        r@ == buf@.subrange(from as int, to as int),
{
    slice_to_vec(slice_subrange(buf, from, to))
}

/// A copy of `buf`.
pub fn copy(buf: &[u8]) -> (r: Vec<u8>)
    ensures
        r@ == buf@,
{
    slice_to_vec(buf)
}

/// The 32 bytes of `buf` from `from` on.
pub fn copy32(buf: &[u8], from: usize) -> (r: [u8; 32])
    requires
        from + 32 <= buf@.len(),
    ensures
        r@ == buf@.subrange(from as int, from + 32),
{
    let n: usize = buf.len();
    let mut r: [u8; 32] = [0u8; 32];
    let mut i: usize = 0;
    while i < 32
        invariant
            0 <= i <= 32,
            from + 32 <= n == buf@.len(),
            forall|j: int| 0 <= j < i ==> r@[j] == buf@[from + j],
        decreases 32 - i,
    {
        r[i] = buf[from + i];
        i += 1;
    }
    assert(r@ =~= buf@.subrange(from as int, from + 32));
    r
}

/// The 64 bytes of `buf` from `from` on.
pub fn copy64(buf: &[u8], from: usize) -> (r: [u8; 64])
    requires
        from + 64 <= buf@.len(),
    ensures
        r@ == buf@.subrange(from as int, from + 64),
{
    let n: usize = buf.len();
    let mut r: [u8; 64] = [0u8; 64];
    let mut i: usize = 0;
    while i < 64
        invariant
            0 <= i <= 64,
            from + 64 <= n == buf@.len(),
            forall|j: int| 0 <= j < i ==> r@[j] == buf@[from + j],
        decreases 64 - i,
    {
        r[i] = buf[from + i];
        i += 1;
    }
    assert(r@ =~= buf@.subrange(from as int, from + 64));
    r
}

/// Whether two byte slices hold the same bytes.
pub fn same_bytes(a: &[u8], b: &[u8]) -> (r: bool)
    ensures
        r == (a@ == b@),
{
    if a.len() != b.len() {
        return false;
    }
    let mut i: usize = 0;
    while i < a.len()
        invariant
            0 <= i <= a@.len(),
            a@.len() == b@.len(),
            forall|j: int| 0 <= j < i ==> a@[j] == b@[j],
        decreases a@.len() - i,
    {
        if a[i] != b[i] {
            return false;
        }
        i += 1;
    }
    assert(a@ =~= b@);
    true
}

/// Whether two 32-byte values are equal.
pub fn same32(a: &[u8; 32], b: &[u8; 32]) -> (r: bool)
    ensures
        r == (a@ == b@),
        r == (a == b),
{
    let mut i: usize = 0;
    while i < 32
        invariant
            0 <= i <= 32,
            forall|j: int| 0 <= j < i ==> a@[j] == b@[j],
        decreases 32 - i,
    {
        if a[i] != b[i] {
            return false;
        }
        i += 1;
    }
    assert(a@ =~= b@);
    assert(*a =~= *b);
    true
}

/// Whether `buf` holds `pat` at `from`.
pub fn has_at(buf: &[u8], from: usize, pat: &[u8]) -> (r: bool)
    requires
        from <= buf@.len(),
    ensures
        r == (from + pat@.len() <= buf@.len() && buf@.subrange(from as int, from + pat@.len()) == pat@),
{
    if buf.len() - from < pat.len() {
        return false;
    }
    same_bytes(slice_subrange(buf, from, from + pat.len()), pat)
}

/// `x` written after what `out` holds, most significant byte first.
pub fn push_be16(out: &mut Vec<u8>, x: u16)
    ensures
        final(out)@ == old(out)@ + be16(x),
{
    proof {
        reveal(be16);
    }
    out.push((x / 0x100) as u8);
    out.push((x % 0x100) as u8);
    assert(out@ =~= old(out)@ + be16(x));
}

/// `x` written after what `out` holds, most significant byte first.
pub fn push_be32(out: &mut Vec<u8>, x: u32)
    ensures
        final(out)@ == old(out)@ + be32(x),
{
    proof {
        reveal(be32);
    }
    out.push((x / 0x100_0000) as u8);
    out.push(((x / 0x1_0000) % 0x100) as u8);
    out.push(((x / 0x100) % 0x100) as u8);
    out.push((x % 0x100) as u8);
    assert(out@ =~= old(out)@ + be32(x));
}

/// `x` written after what `out` holds, most significant byte first.
pub fn push_be64(out: &mut Vec<u8>, x: u64)
    ensures
        final(out)@ == old(out)@ + be64(x),
{
    proof {
        reveal(be64);
        be32_round_trip((x / 0x1_0000_0000) as u32);
        be32_round_trip((x % 0x1_0000_0000) as u32);
    }
    push_be32(out, (x / 0x1_0000_0000) as u32);
    push_be32(out, (x % 0x1_0000_0000) as u32);
    assert(out@ =~= old(out)@ + be64(x));
}

/// The 16-bit number at `pos`.
pub fn read_be16(buf: &[u8], pos: usize) -> (r: u16)
    requires
        pos + 2 <= buf@.len(),
    ensures
        r == u16_of(buf@.subrange(pos as int, pos + 2)),
{
    proof {
        reveal(u16_of);
    }
    buf[pos] as u16 * 0x100 + buf[pos + 1] as u16
}

/// The 32-bit number at `pos`.
pub fn read_be32(buf: &[u8], pos: usize) -> (r: u32)
    requires
        pos + 4 <= buf@.len(),
    ensures
        r == u32_of(buf@.subrange(pos as int, pos + 4)),
{
    proof {
        reveal(u32_of);
    }
    buf[pos] as u32 * 0x100_0000 + buf[pos + 1] as u32 * 0x1_0000 + buf[pos + 2] as u32 * 0x100
        + buf[pos + 3] as u32
}

/// The 64-bit number at `pos`.
pub fn read_be64(buf: &[u8], pos: usize) -> (r: u64)
    requires
        pos + 8 <= buf@.len(),
    ensures
        r == u64_of(buf@.subrange(pos as int, pos + 8)),
{
    proof {
        reveal(u64_of);
    }
    let s = Ghost(buf@.subrange(pos as int, pos + 8));
    assert(s@.subrange(0, 4) =~= buf@.subrange(pos as int, pos + 4));
    assert(s@.subrange(4, 8) =~= buf@.subrange(pos + 4, pos + 8));
    let n: usize = buf.len();
    assert(pos + 8 <= n);
    let hi: u32 = read_be32(buf, pos);
    let lo: u32 = read_be32(buf, pos + 4);
    hi as u64 * 0x1_0000_0000 + lo as u64
}

/// A length as a 32-bit field holds it: what is over 32 bits is cut off.
pub fn field32(n: usize) -> (r: u32)
    ensures
        r == len32(n as nat),
{
    (n as u64 % 0x1_0000_0000) as u32
}

/// A length as a 16-bit field holds it: what is over 16 bits is cut off.
pub fn field16(n: usize) -> (r: u16)
    ensures
        r == len16(n as nat),
{
    (n % 0x1_0000) as u16
}

} // verus!
