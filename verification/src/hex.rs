//! Bytes as pairs of hexadecimal digits.
use vstd::prelude::*;
use vstd::string::StringExecFns;
use vstd::utf8::{encode_utf8, is_ascii_chars, is_ascii_chars_encode_utf8};

use crate::text::{dec, dec_string, digit, digit_char};

verus! {

/// Why a text is not a row of hexadecimal pairs.
#[derive(Debug, Clone, Copy, PartialEq, Eq, Structural)]
pub enum HexError {
    /// The text has an odd number of bytes.
    OddLength(usize),
    /// The two bytes from this offset on are no hexadecimal number.
    BadByte(usize),
    /// The text spells this many bytes, not the number that was wanted.
    WrongLength { expected: usize, got: usize },
}

impl HexError {
    /// The error in words.
    pub open spec fn text(self) -> Seq<char> {
        match self {
            HexError::OddLength(n) => "odd hex length "@ + dec(n as nat),
            HexError::BadByte(i) => "bad hex byte at offset "@ + dec(i as nat)
                + ": invalid digit found in string"@,
            HexError::WrongLength { expected, got } => "expected "@ + dec(expected as nat) + " bytes ("@
                + dec((expected * 2) as nat) + " hex chars), got "@ + dec(got as nat),
        }
    }

    /// The error in words.
    pub fn message(&self) -> (r: String)
        requires
            self matches HexError::WrongLength { expected, got } ==> expected * 2 <= usize::MAX,
        ensures
            r@ == self.text(),
    {
        match self {
            HexError::OddLength(n) => String::from_str("odd hex length ").concat(
                dec_string(*n as u64).as_str(),
            ),
            HexError::BadByte(i) => String::from_str("bad hex byte at offset ").concat(
                dec_string(*i as u64).as_str(),
            ).concat(": invalid digit found in string"),
            HexError::WrongLength { expected, got } => String::from_str("expected ").concat(
                dec_string(*expected as u64).as_str(),
            ).concat(" bytes (").concat(dec_string((*expected * 2) as u64).as_str()).concat(
                " hex chars), got ",
            ).concat(dec_string(*got as u64).as_str()),
        }
    }
}

/// Two hexadecimal digits for each byte, the high one first, in lower case.
pub open spec fn hex(b: Seq<u8>) -> Seq<char> {
    Seq::new(
        b.len() * 2,
        |i: int| if i % 2 == 0 {
            digit(b[i / 2] as int / 16)
        } else {
            digit(b[i / 2] as int % 16)
        },
    )
}

/// The value of a hexadecimal digit in either case.
pub open spec fn nibble(c: u8) -> Option<u8> {
    if 0x30 <= c <= 0x39 {
        Some((c - 0x30) as u8)
    } else if 0x61 <= c <= 0x66 {
        Some((c - 0x57) as u8)
    } else if 0x41 <= c <= 0x46 {
        Some((c - 0x37) as u8)
    } else {
        None
    }
}

/// The number that two bytes of text spell: two digits, or a `+` and a digit.
pub open spec fn pair(a: u8, b: u8) -> Option<u8> {
    match (nibble(a), nibble(b)) {
        (Some(x), Some(y)) => Some((x * 16 + y) as u8),
        (None, Some(y)) => if a == 0x2b {
            Some(y)
        } else {
            None
        },
        _ => None,
    }
}

/// Whether every pair of `s` before the pair at `n` spells a byte.
pub open spec fn pairs_before(s: Seq<u8>, n: int) -> bool {
    forall|j: int| 0 <= j < n ==> (#[trigger] pair(s[2 * j], s[2 * j + 1])) is Some
}

/// The bytes that the pairs of `s` spell.
pub open spec fn pair_bytes(s: Seq<u8>) -> Seq<u8> {
    Seq::new((s.len() / 2) as nat, |j: int| pair(s[2 * j], s[2 * j + 1])->0)
}

/// What a row of bytes of text spells in hexadecimal.
pub open spec fn unhex_is(s: Seq<u8>, r: Result<Seq<u8>, HexError>) -> bool {
    match r {
        Ok(b) => s.len() % 2 == 0 && pairs_before(s, s.len() as int / 2) && b == pair_bytes(s),
        Err(HexError::OddLength(n)) => s.len() % 2 == 1 && n == s.len(),
        Err(HexError::BadByte(i)) => s.len() % 2 == 0 && i % 2 == 0 && i + 1 < s.len()
            && pairs_before(s, i as int / 2) && pair(s[i as int], s[i + 1]) is None,
        Err(HexError::WrongLength { .. }) => false,
    }
}

/// The number of the first pair from `j` on that spells no byte; the number of pairs
/// where each spells one.
pub open spec fn first_bad(s: Seq<u8>, j: int) -> int
    decreases s.len() / 2 - j,
{
    if j < 0 || j >= s.len() as int / 2 || pair(s[2 * j], s[2 * j + 1]) is None {
        j
    } else {
        first_bad(s, j + 1)
    }
}

/// What a row of bytes of text spells in hexadecimal.
pub open spec fn unhex(s: Seq<u8>) -> Result<Seq<u8>, HexError> {
    if s.len() % 2 == 1 {
        Err(HexError::OddLength(s.len() as usize))
    } else if first_bad(s, 0) < s.len() as int / 2 {
        Err(HexError::BadByte((2 * first_bad(s, 0)) as usize))
    } else {
        Ok(pair_bytes(s))
    }
}

proof fn lemma_first_bad(s: Seq<u8>, j: int)
    requires
        0 <= j <= s.len() as int / 2,
        pairs_before(s, j),
    ensures
        j <= first_bad(s, j) <= s.len() as int / 2,
        pairs_before(s, first_bad(s, j)),
        first_bad(s, j) < s.len() as int / 2 ==> pair(
            s[2 * first_bad(s, j)],
            s[2 * first_bad(s, j) + 1],
        ) is None,
    decreases s.len() / 2 - j,
{
    if j < s.len() as int / 2 && pair(s[2 * j], s[2 * j + 1]) is Some {
        lemma_first_bad(s, j + 1);
    }
}

/// The two ways to say what a text spells agree.
pub proof fn unhex_agrees(s: Seq<u8>, r: Result<Seq<u8>, HexError>)
    requires
        s.len() <= usize::MAX,
    ensures
        unhex_is(s, r) <==> r == unhex(s),
{
    lemma_first_bad(s, 0);
    assert(unhex_is(s, unhex(s)));
    if unhex_is(s, r) {
        unhex_unique(s, r, unhex(s));
    }
}

/// What a decoding gave, with the bytes as a sequence.
pub open spec fn bytes_of<E>(r: Result<Vec<u8>, E>) -> Result<Seq<u8>, E> {
    match r {
        Ok(v) => Ok(v@),
        Err(e) => Err(e),
    }
}

/// The value of a hexadecimal digit in either case.
pub fn nibble_of(c: u8) -> (r: Option<u8>)
    ensures
        r == nibble(c),
        r matches Some(x) ==> x < 16,
{
    if 0x30 <= c && c <= 0x39 {
        Some(c - 0x30)
    } else if 0x61 <= c && c <= 0x66 {
        Some(c - 0x57)
    } else if 0x41 <= c && c <= 0x46 {
        Some(c - 0x37)
    } else {
        None
    }
}

/// The number that two bytes of text spell.
pub fn pair_of(a: u8, b: u8) -> (r: Option<u8>)
    ensures
        r == pair(a, b),
{
    match (nibble_of(a), nibble_of(b)) {
        (Some(x), Some(y)) => Some(x * 16 + y),
        (None, Some(y)) => if a == 0x2b {
            Some(y)
        } else {
            None
        },
        _ => None,
    }
}

/// Two hexadecimal digits for each byte, in lower case.
pub fn encode_hex_bytes(b: &[u8]) -> (r: String)
    ensures
        r@ == hex(b@),
{
    let mut out = String::new();
    let mut i: usize = 0;
    while i < b.len()
        invariant
            0 <= i <= b@.len(),
            out@.len() == 2 * i,
            forall|j: int| 0 <= j < out@.len() ==> out@[j] == #[trigger] hex(b@)[j],
        decreases b@.len() - i,
    {
        out.push(digit_char(b[i] / 16));
        out.push(digit_char(b[i] % 16));
        proof {
            assert((2 * i) / 2 == i && (2 * i) % 2 == 0);
            assert((2 * i + 1) / 2 == i && (2 * i + 1) % 2 == 1);
        }
        i += 1;
    }
    assert(out@ =~= hex(b@));
    out
}

/// The bytes that a text spells in hexadecimal.
///
/// An odd length is refused first; then the first pair that is no hexadecimal
/// number.
pub fn decode_hex_bytes(s: &str) -> (r: Result<Vec<u8>, HexError>)
    ensures
        unhex_is(encode_utf8(s@), bytes_of(r)),
        bytes_of(r) == unhex(encode_utf8(s@)),
{
    let r = decode_pairs(s);
    proof {
        assert(encode_utf8(s@).len() <= usize::MAX);
        unhex_agrees(encode_utf8(s@), bytes_of(r));
    }
    r
}

/// The bytes that a text spells in hexadecimal.
fn decode_pairs(s: &str) -> (r: Result<Vec<u8>, HexError>)
    ensures
        unhex_is(encode_utf8(s@), bytes_of(r)),
        encode_utf8(s@).len() <= usize::MAX,
{
    let b: &[u8] = s.as_bytes();
    let total: usize = b.len();
    if b.len() % 2 != 0 {
        return Err(HexError::OddLength(b.len()));
    }
    let mut out: Vec<u8> = Vec::new();
    let mut i: usize = 0;
    while i < b.len()
        invariant
            b@ == encode_utf8(s@),
            0 <= i <= b@.len(),
            b@.len() % 2 == 0,
            i % 2 == 0,
            out@.len() == i / 2,
            pairs_before(b@, i as int / 2),
            forall|j: int| 0 <= j < out@.len() ==> out@[j] == (#[trigger] pair(b@[2 * j], b@[2 * j + 1]))->0,
        decreases b@.len() - i,
    {
        match pair_of(b[i], b[i + 1]) {
            None => {
                return Err(HexError::BadByte(i));
            },
            Some(x) => {
                out.push(x);
            },
        }
        i += 2;
    }
    assert(out@ =~= pair_bytes(b@));
    Ok(out)
}

/// The 32 bytes that a text of 64 hexadecimal digits spells.
pub fn decode_hex_key(s: &str) -> (r: Result<[u8; 32], HexError>)
    ensures
        match r {
            Ok(k) => unhex_is(encode_utf8(s@), Ok(k@)),
            Err(HexError::WrongLength { expected, got }) => expected == 32 && got != 32 && unhex_is(
                encode_utf8(s@),
                Ok(pair_bytes(encode_utf8(s@))),
            ) && got == pair_bytes(encode_utf8(s@)).len(),
            Err(e) => unhex_is(encode_utf8(s@), Err(e)),
        },
{
    let v = match decode_hex_bytes(s) {
        Ok(v) => v,
        Err(e) => {
            return Err(e);
        },
    };
    if v.len() != 32 {
        return Err(HexError::WrongLength { expected: 32, got: v.len() });
    }
    let k: [u8; 32] = crate::bytes::copy32(v.as_slice(), 0);
    assert(k@ =~= v@);
    Ok(k)
}

/// Decoding gives back what encoding wrote.
pub proof fn hex_round_trip(b: Seq<u8>)
    ensures
        unhex_is(encode_utf8(hex(b)), Ok(b)),
{
    let h = hex(b);
    assert(is_ascii_chars(h));
    is_ascii_chars_encode_utf8(h);
    let s = encode_utf8(h);
    assert(s.len() == b.len() * 2);
    assert forall|j: int| 0 <= j < b.len() implies (#[trigger] pair(s[2 * j], s[2 * j + 1])) == Some(
        b[j],
    ) by {
        assert((2 * j) / 2 == j && (2 * j) % 2 == 0);
        assert((2 * j + 1) / 2 == j && (2 * j + 1) % 2 == 1);
        assert(h[2 * j] == digit(b[j] as int / 16));
        assert(h[2 * j + 1] == digit(b[j] as int % 16));
        assert(s[2 * j] == h[2 * j] as u8);
        assert(s[2 * j + 1] == h[2 * j + 1] as u8);
    }
    assert(pair_bytes(s) =~= b);
}

/// A text decodes to one thing only.
pub proof fn unhex_unique(s: Seq<u8>, a: Result<Seq<u8>, HexError>, b: Result<Seq<u8>, HexError>)
    requires
        unhex_is(s, a),
        unhex_is(s, b),
        s.len() <= usize::MAX,
    ensures
        a == b,
{
    match (a, b) {
        (Err(HexError::BadByte(i)), Ok(_)) => {
            let j = i as int / 2;
            assert(pair(s[2 * j], s[2 * j + 1]) is Some);
        },
        (Ok(_), Err(HexError::BadByte(i))) => {
            let j = i as int / 2;
            assert(pair(s[2 * j], s[2 * j + 1]) is Some);
        },
        (Err(HexError::BadByte(i)), Err(HexError::BadByte(k))) => {
            let j = i as int / 2;
            let l = k as int / 2;
            if j < l {
                assert(pair(s[2 * j], s[2 * j + 1]) is Some);
            } else if l < j {
                assert(pair(s[2 * l], s[2 * l + 1]) is Some);
            }
        },
        _ => {},
    }
}

} // verus!
