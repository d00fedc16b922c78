//! Text as sequences of characters: numbers in decimal and hexadecimal,
//! searching, splitting, trimming.
use vstd::prelude::*;
use vstd::slice::slice_subrange;
use vstd::string::StringExecFns;
use vstd::utf8::{decode_utf8, valid_utf8};

verus! {

/// `std`'s `String::push`: the character goes to the end.
pub assume_specification[ String::push ](s: &mut String, c: char)
    ensures
        final(s)@ == old(s)@.push(c),
;

/// Where bytes stop being UTF-8: how many are valid before that, and how many are invalid then; none
/// where they only break off.
#[derive(Debug, Clone, Copy, PartialEq, Eq, Structural)]
pub struct Utf8Fault {
    pub valid_up_to: usize,
    pub error_len: Option<u8>,
}

impl Utf8Fault {
    /// The fault in words.
    pub open spec fn text(self) -> Seq<char> {
        match self.error_len {
            Some(n) => "invalid utf-8 sequence of "@ + dec(n as nat) + " bytes from index "@ + dec(
                self.valid_up_to as nat,
            ),
            None => "incomplete utf-8 byte sequence from index "@ + dec(self.valid_up_to as nat),
        }
    }

    /// The fault in words.
    pub fn message(&self) -> (r: String)
        ensures
            r@ == self.text(),
    {
        let at = dec_string(self.valid_up_to as u64);
        match self.error_len {
            Some(n) => String::from_str("invalid utf-8 sequence of ").concat(
                dec_string(n as u64).as_str(),
            ).concat(" bytes from index ").concat(at.as_str()),
            None => String::from_str("incomplete utf-8 byte sequence from index ").concat(
                at.as_str(),
            ),
        }
    }
}

/// What `String::from_utf8` says of bytes that are no UTF-8.
pub uninterp spec fn utf8_fault(bytes: Seq<u8>) -> Utf8Fault;

/// `std`'s `String::from_utf8`: bytes that are valid UTF-8 become the text they
/// encode, other bytes are refused, with what is wrong with them.
#[verifier::external_body]
pub(crate) fn utf8_text(bytes: Vec<u8>) -> (r: Result<String, Utf8Fault>)
    ensures
        r is Ok <==> valid_utf8(bytes@),
        r matches Ok(s) ==> s@ == decode_utf8(bytes@),
        r matches Err(f) ==> f == utf8_fault(bytes@),
{
    String::from_utf8(bytes).map_err(|e| {
        let e = e.utf8_error();
        Utf8Fault { valid_up_to: e.valid_up_to(), error_len: e.error_len().map(|n| n as u8) }
    })
}

/// What `String::from_utf8_lossy` makes of a sequence of bytes.
pub uninterp spec fn utf8_lossy(bytes: Seq<u8>) -> Seq<char>;

/// `std`'s `String::from_utf8_lossy`: valid UTF-8 becomes the text it encodes;
/// in other input the invalid parts are replaced.
#[verifier::external_body]
pub(crate) fn utf8_text_lossy(bytes: &[u8]) -> (r: String)
    ensures
        r@ == utf8_lossy(bytes@),
        valid_utf8(bytes@) ==> r@ == decode_utf8(bytes@),
{
    String::from_utf8_lossy(bytes).into_owned()
}

/// The text of a string as a Rust literal, quotation marks and escapes included.
pub uninterp spec fn quoted_text(s: Seq<char>) -> Seq<char>;

/// `std`'s `{:?}` of a string.
#[verifier::external_body]
pub(crate) fn quoted(s: &str) -> (r: String)
    ensures
        r@ == quoted_text(s@),
{
    format!("{s:?}")
}

/// A text in UTF-8.
#[verifier::opaque]
pub open spec fn utf8(s: Seq<char>) -> Seq<u8> {
    vstd::utf8::encode_utf8(s)
}

/// The text that bytes spell in UTF-8; nothing where they are no UTF-8.
#[verifier::opaque]
pub open spec fn from_utf8(b: Seq<u8>) -> Option<Seq<char>> {
    if valid_utf8(b) {
        Some(decode_utf8(b))
    } else {
        None
    }
}

/// Reading a text in UTF-8 gives the text back.
pub proof fn utf8_round_trip(s: Seq<char>)
    ensures
        from_utf8(utf8(s)) == Some(s),
{
    reveal(utf8);
    reveal(from_utf8);
    vstd::utf8::encode_utf8_valid_utf8(s);
    vstd::utf8::encode_utf8_decode_utf8(s);
}

/// Bytes that are read as UTF-8 are the UTF-8 of what was read.
pub proof fn from_utf8_is_exact(b: Seq<u8>)
    requires
        from_utf8(b) is Some,
    ensures
        utf8(from_utf8(b)->0) == b,
{
    reveal(utf8);
    reveal(from_utf8);
    vstd::utf8::decode_utf8_encode_utf8(b);
}

/// The bytes of a text in UTF-8.
pub fn utf8_bytes(s: &str) -> (r: &[u8])
    ensures
        r@ == utf8(s@),
{
    proof {
        reveal(utf8);
    }
    s.as_bytes()
}

/// The text that bytes spell in UTF-8.
pub fn text_from_utf8(b: Vec<u8>) -> (r: Option<String>)
    ensures
        match r {
            Some(s) => from_utf8(b@) == Some(s@),
            None => from_utf8(b@) is None,
        },
{
    match text_or_fault(b) {
        Ok(s) => Some(s),
        Err(_) => None,
    }
}

/// The text that bytes spell in UTF-8, or what is wrong with them.
pub fn text_or_fault(b: Vec<u8>) -> (r: Result<String, Utf8Fault>)
    ensures
        match r {
            Ok(s) => from_utf8(b@) == Some(s@),
            Err(f) => from_utf8(b@) is None && f == utf8_fault(b@),
        },
{
    proof {
        reveal(from_utf8);
    }
    utf8_text(b)
}

/// The characters of a text.
pub fn chars_of(s: &str) -> (r: Vec<char>)
    ensures
        r@ == s@,
{
    let mut out: Vec<char> = Vec::new();
    for c in it: s.chars()
        invariant
            it.seq() == s@,
            out@.len() == it.index(),
            forall|j: int| 0 <= j < out@.len() ==> out@[j] == s@[j],
    {
        out.push(c);
    }
    assert(out@ =~= s@);
    out
}

/// The text of some characters.
pub fn string_of(v: &[char]) -> (r: String)
    ensures
        r@ == v@,
{
    let mut out = String::new();
    let mut i: usize = 0;
    while i < v.len()
        invariant
            0 <= i <= v@.len(),
            out@ == v@.take(i as int),
        decreases v@.len() - i,
    {
        out.push(v[i]);
        i += 1;
        assert(v@.take(i as int) =~= v@.take(i - 1).push(v@[i - 1]));
    }
    assert(v@.take(i as int) =~= v@);
    out
}

/// The character for a digit under sixteen, in lower case.
pub open spec fn digit(d: int) -> char {
    if d < 10 {
        (('0' as u32) + d) as char
    } else {
        (('a' as u32) + d - 10) as char
    }
}

/// A number in decimal, without leading zeros.
pub open spec fn dec(n: nat) -> Seq<char>
    decreases n,
{
    if n < 10 {
        seq![digit(n as int)]
    } else {
        dec(n / 10).push(digit((n % 10) as int))
    }
}

/// `s` with copies of `c` before it, up to `width` characters in all.
pub open spec fn pad_left(s: Seq<char>, width: nat, c: char) -> Seq<char> {
    if s.len() >= width {
        s
    } else {
        Seq::new((width - s.len()) as nat, |i: int| c) + s
    }
}

/// The character for a digit under sixteen, in lower case.
pub fn digit_char(d: u8) -> (r: char)
    requires
        d < 16,
    ensures
        r == digit(d as int),
{
    if d < 10 {
        (48 + d) as char
    } else {
        (87 + d) as char
    }
}

/// `n` in decimal, as characters.
pub fn dec_chars(n: u64) -> (r: Vec<char>)
    ensures
        r@ == dec(n as nat),
    decreases n,
{
    if n < 10 {
        let mut v: Vec<char> = Vec::new();
        v.push(digit_char(n as u8));
        assert(v@ =~= dec(n as nat));
        v
    } else {
        let mut v = dec_chars(n / 10);
        v.push(digit_char((n % 10) as u8));
        v
    }
}

/// `n` in decimal.
pub fn dec_string(n: u64) -> (r: String)
    ensures
        r@ == dec(n as nat),
{
    let v = dec_chars(n);
    string_of(v.as_slice())
}

/// `n` in decimal, with zeros before it up to `width` characters.
pub fn dec_padded(n: u64, width: usize) -> (r: String)
    ensures
        r@ == pad_left(dec(n as nat), width as nat, '0'),
{
    let v = dec_chars(n);
    let mut out = String::new();
    let mut k: usize = v.len();
    while k < width
        invariant
            v@.len() <= k,
            k == v@.len() || k <= width,
            out@.len() == k - v@.len(),
            forall|j: int| 0 <= j < out@.len() ==> out@[j] == '0',
        decreases width - k,
    {
        out.push('0');
        k += 1;
    }
    let tail = string_of(v.as_slice());
    out.append(tail.as_str());
    assert(out@ =~= pad_left(dec(n as nat), width as nat, '0'));
    out
}

/// The place of the first `c` in `s`, or the length of `s` where there is none.
pub open spec fn find(s: Seq<char>, c: char) -> int
    decreases s.len(),
{
    if s.len() == 0 || s[0] == c {
        0
    } else {
        1 + find(s.drop_first(), c)
    }
}

/// The place of the last `c` in `s`, or -1 where there is none.
pub open spec fn rfind(s: Seq<char>, c: char) -> int
    decreases s.len(),
{
    if s.len() == 0 {
        -1
    } else if s.last() == c {
        s.len() - 1
    } else {
        rfind(s.drop_last(), c)
    }
}

/// The pieces of `s` between the places where `c` stands.
pub open spec fn split(s: Seq<char>, c: char) -> Seq<Seq<char>>
    decreases s.len(),
{
    let i = find(s, c);
    if i < 0 || i >= s.len() {
        seq![s]
    } else {
        seq![s.take(i)] + split(s.skip(i + 1), c)
    }
}

/// What stands behind the last `c` in `s`: all of `s` where there is none.
pub open spec fn after_last(s: Seq<char>, c: char) -> Seq<char> {
    s.skip(rfind(s, c) + 1)
}

/// What stands before the last `c` in `s`: nothing where there is none.
pub open spec fn before_last(s: Seq<char>, c: char) -> Seq<char> {
    if rfind(s, c) < 0 {
        Seq::empty()
    } else {
        s.take(rfind(s, c))
    }
}

/// Whether `s` begins with `p`.
pub open spec fn starts(s: Seq<char>, p: Seq<char>) -> bool {
    p.len() <= s.len() && s.take(p.len() as int) == p
}

/// Whether `s` ends with `p`.
pub open spec fn ends(s: Seq<char>, p: Seq<char>) -> bool {
    p.len() <= s.len() && s.skip(s.len() - p.len()) == p
}

/// White space as Unicode lists it.
pub open spec fn is_space(c: char) -> bool {
    ||| 9 <= c as u32 <= 13
    ||| c as u32 == 0x20
    ||| c as u32 == 0x85
    ||| c as u32 == 0xa0
    ||| c as u32 == 0x1680
    ||| 0x2000 <= c as u32 <= 0x200a
    ||| c as u32 == 0x2028
    ||| c as u32 == 0x2029
    ||| c as u32 == 0x202f
    ||| c as u32 == 0x205f
    ||| c as u32 == 0x3000
}

/// `s` without the white space at its start.
pub open spec fn trim_start(s: Seq<char>) -> Seq<char>
    decreases s.len(),
{
    if s.len() > 0 && is_space(s[0]) {
        trim_start(s.drop_first())
    } else {
        s
    }
}

/// `s` without the white space at its end.
pub open spec fn trim_end(s: Seq<char>) -> Seq<char>
    decreases s.len(),
{
    if s.len() > 0 && is_space(s.last()) {
        trim_end(s.drop_last())
    } else {
        s
    }
}

/// `s` without the white space at both ends.
pub open spec fn trim(s: Seq<char>) -> Seq<char> {
    trim_end(trim_start(s))
}

/// `s` without the copies of `c` at its end.
pub open spec fn trim_end_of(s: Seq<char>, c: char) -> Seq<char>
    decreases s.len(),
{
    if s.len() > 0 && s.last() == c {
        trim_end_of(s.drop_last(), c)
    } else {
        s
    }
}

/// `s` without the copies of `c` at its start.
pub open spec fn trim_start_of(s: Seq<char>, c: char) -> Seq<char>
    decreases s.len(),
{
    if s.len() > 0 && s[0] == c {
        trim_start_of(s.drop_first(), c)
    } else {
        s
    }
}

/// The place where `p` begins for the first time in `s`, or -1 where it does not.
pub open spec fn find_str(s: Seq<char>, p: Seq<char>) -> int
    decreases s.len(),
{
    if starts(s, p) {
        0
    } else if s.len() == 0 {
        -1
    } else {
        let r = find_str(s.drop_first(), p);
        if r < 0 {
            -1
        } else {
            r + 1
        }
    }
}

/// `s` without the copies of `p` at its end.
pub open spec fn trim_end_str(s: Seq<char>, p: Seq<char>) -> Seq<char>
    decreases s.len(),
{
    if p.len() > 0 && ends(s, p) {
        trim_end_str(s.take(s.len() - p.len()), p)
    } else {
        s
    }
}

/// `s` without the copies of `p` at its start.
pub open spec fn trim_start_str(s: Seq<char>, p: Seq<char>) -> Seq<char>
    decreases s.len(),
{
    if p.len() > 0 && starts(s, p) {
        trim_start_str(s.skip(p.len() as int), p)
    } else {
        s
    }
}

/// The lower-case form of an ASCII letter; any other character as it is.
pub open spec fn lower(c: char) -> char {
    if 'A' <= c && c <= 'Z' {
        ((c as u32) + 32) as char
    } else {
        c
    }
}

/// `s` with its ASCII letters in lower case.
pub open spec fn lowered(s: Seq<char>) -> Seq<char> {
    s.map_values(|c: char| lower(c))
}

/// The lines of `s`: what stands between line feeds, without a carriage return
/// before the line feed; a line feed at the very end begins no line.
pub open spec fn lines(s: Seq<char>) -> Seq<Seq<char>>
    decreases s.len(),
{
    if s.len() == 0 {
        Seq::empty()
    } else {
        let i = find(s, '\n');
        if i < 0 || i >= s.len() {
            seq![s]
        } else {
            let l = s.take(i);
            let l = if l.len() > 0 && l.last() == '\r' {
                l.drop_last()
            } else {
                l
            };
            seq![l] + lines(s.skip(i + 1))
        }
    }
}

/// Whether `c` is a decimal digit.
pub open spec fn is_digit(c: char) -> bool {
    '0' <= c && c <= '9'
}

/// The number that decimal digits spell.
pub open spec fn digits_value(s: Seq<char>) -> nat
    decreases s.len(),
{
    if s.len() == 0 {
        0
    } else {
        digits_value(s.drop_last()) * 10 + (s.last() as u32 - '0' as u32) as nat
    }
}

/// Whether every character is a decimal digit.
pub open spec fn all_digits(s: Seq<char>) -> bool {
    forall|i: int| 0 <= i < s.len() ==> is_digit(#[trigger] s[i])
}

/// `s` without one `+` at its start.
pub open spec fn unsigned_part(s: Seq<char>) -> Seq<char> {
    if s.len() > 0 && s[0] == '+' {
        s.drop_first()
    } else {
        s
    }
}

/// The number up to `max` that `s` spells in decimal: one or more digits, with
/// or without a `+` before them.
pub open spec fn number(s: Seq<char>, max: nat) -> Option<nat> {
    let d = unsigned_part(s);
    if d.len() > 0 && all_digits(d) && digits_value(d) <= max {
        Some(digits_value(d))
    } else {
        None
    }
}

/// Why a text spells no number.
#[derive(Debug, Clone, Copy, PartialEq, Eq, Structural)]
pub enum NumberError {
    Empty,
    InvalidDigit,
    TooLarge,
}

impl NumberError {
    /// The error in words.
    pub open spec fn text(self) -> Seq<char> {
        match self {
            NumberError::Empty => "cannot parse integer from empty string"@,
            NumberError::InvalidDigit => "invalid digit found in string"@,
            NumberError::TooLarge => "number too large to fit in target type"@,
        }
    }

    /// The error in words.
    pub fn message(&self) -> (r: &'static str)
        ensures
            r@ == self.text(),
    {
        match self {
            NumberError::Empty => "cannot parse integer from empty string",
            NumberError::InvalidDigit => "invalid digit found in string",
            NumberError::TooLarge => "number too large to fit in target type",
        }
    }
}

/// How many digits stand at the start of `s`.
pub open spec fn leading_digits(s: Seq<char>) -> int
    decreases s.len(),
{
    if s.len() == 0 || !is_digit(s[0]) {
        0
    } else {
        1 + leading_digits(s.drop_first())
    }
}

/// Why `s` spells no number up to `max`, where it does not: it is empty, the digits that it begins
/// with are too many already, or something else stands behind them.
pub open spec fn number_error(s: Seq<char>, max: nat) -> NumberError {
    let d = unsigned_part(s);
    if s.len() == 0 {
        NumberError::Empty
    } else if digits_value(d.take(leading_digits(d))) > max {
        NumberError::TooLarge
    } else {
        NumberError::InvalidDigit
    }
}

proof fn lemma_leading_digits(s: Seq<char>, i: int)
    requires
        0 <= i <= s.len(),
        forall|j: int| 0 <= j < i ==> is_digit(#[trigger] s[j]),
    ensures
        i <= leading_digits(s) <= s.len(),
        i < s.len() && !is_digit(s[i]) ==> leading_digits(s) == i,
    decreases s.len(),
{
    if s.len() > 0 && is_digit(s[0]) {
        let t = s.drop_first();
        let k = if i > 0 {
            i - 1
        } else {
            0
        };
        assert forall|j: int| 0 <= j < k implies is_digit(#[trigger] t[j]) by {
            assert(t[j] == s[j + 1]);
        }
        lemma_leading_digits(t, k);
    }
}

/// Why `s` spells no number up to `max`, where it does not.
pub fn why_no_number(s: &[char], max: u64) -> (r: NumberError)
    ensures
        r == number_error(s@, max as nat),
{
    if s.len() == 0 {
        return NumberError::Empty;
    }
    let d: &[char] = if s[0] == '+' {
        let t = skip_chars(s, 1);
        assert(t@ =~= s@.drop_first());
        t
    } else {
        s
    };
    let mut n: u64 = 0;
    let mut i: usize = 0;
    while i < d.len() && d[i] >= '0' && d[i] <= '9'
        invariant
            s@.len() > 0,
            d@ == unsigned_part(s@),
            0 <= i <= d@.len(),
            n <= max,
            n == digits_value(d@.take(i as int)),
            forall|j: int| 0 <= j < i ==> is_digit(#[trigger] d@[j]),
        decreases d@.len() - i,
    {
        let x: u64 = (d[i] as u32 - '0' as u32) as u64;
        proof {
            assert(d@.take(i + 1).drop_last() =~= d@.take(i as int));
            lemma_leading_digits(d@, i + 1);
            let k = leading_digits(d@);
            lemma_digits_grow(d@.take(k), i + 1);
            assert(d@.take(k).take(i + 1) =~= d@.take(i + 1));
        }
        if n > (max / 10) || (max - n * 10) < x {
            assert(digits_value(d@.take(i + 1)) == n * 10 + x);
            return NumberError::TooLarge;
        }
        n = n * 10 + x;
        i += 1;
    }
    proof {
        lemma_leading_digits(d@, i as int);
    }
    NumberError::InvalidDigit
}

/// What the vectors in `v` hold.
pub open spec fn deep(v: Seq<Vec<char>>) -> Seq<Seq<char>> {
    v.map_values(|x: Vec<char>| x@)
}

/// What the strings in `v` hold.
pub open spec fn texts(v: Seq<String>) -> Seq<Seq<char>> {
    v.map_values(|x: String| x@)
}

/// `find` is where `c` stands for the first time.
pub proof fn lemma_find(s: Seq<char>, c: char)
    ensures
        0 <= find(s, c) <= s.len(),
        forall|j: int| 0 <= j < find(s, c) ==> s[j] != c,
        find(s, c) < s.len() ==> s[find(s, c)] == c,
    decreases s.len(),
{
    if s.len() > 0 && s[0] != c {
        let t = s.drop_first();
        lemma_find(t, c);
        assert forall|j: int| 0 <= j < find(s, c) implies s[j] != c by {
            if j > 0 {
                assert(t[j - 1] == s[j]);
            }
        }
    }
}

/// The first place where `c` stands is `find`.
pub proof fn lemma_find_is(s: Seq<char>, c: char, i: int)
    requires
        0 <= i <= s.len(),
        forall|j: int| 0 <= j < i ==> s[j] != c,
        i < s.len() ==> s[i] == c,
    ensures
        find(s, c) == i,
{
    lemma_find(s, c);
    let k = find(s, c);
    if k < i {
        assert(s[k] != c);
    } else if i < k {
        assert(s[i] != c);
    }
}

/// `rfind` is where `c` stands for the last time.
pub proof fn lemma_rfind(s: Seq<char>, c: char)
    ensures
        -1 <= rfind(s, c) < s.len(),
        forall|j: int| rfind(s, c) < j < s.len() ==> s[j] != c,
        rfind(s, c) >= 0 ==> s[rfind(s, c)] == c,
    decreases s.len(),
{
    if s.len() > 0 && s.last() != c {
        let t = s.drop_last();
        lemma_rfind(t, c);
        assert forall|j: int| rfind(s, c) < j < s.len() implies s[j] != c by {
            if j < t.len() {
                assert(t[j] == s[j]);
            }
        }
    }
}

/// The last place where `c` stands is `rfind`.
pub proof fn lemma_rfind_is(s: Seq<char>, c: char, i: int)
    requires
        -1 <= i < s.len(),
        forall|j: int| i < j < s.len() ==> s[j] != c,
        i >= 0 ==> s[i] == c,
    ensures
        rfind(s, c) == i,
{
    lemma_rfind(s, c);
    let k = rfind(s, c);
    if k > i {
        assert(s[k] != c);
    } else if i > k {
        assert(s[i] != c);
    }
}

/// The place of the first `c` in `s`, or the length of `s`.
pub fn find_char(s: &[char], c: char) -> (r: usize)
    ensures
        r == find(s@, c),
        0 <= r <= s@.len(),
{
    let mut i: usize = 0;
    while i < s.len()
        invariant
            0 <= i <= s@.len(),
            forall|j: int| 0 <= j < i ==> s@[j] != c,
        decreases s@.len() - i,
    {
        if s[i] == c {
            proof {
                lemma_find_is(s@, c, i as int);
            }
            return i;
        }
        i += 1;
    }
    proof {
        lemma_find_is(s@, c, i as int);
    }
    i
}

/// The place of the last `c` in `s`.
pub fn rfind_char(s: &[char], c: char) -> (r: Option<usize>)
    ensures
        match r {
            Some(i) => i == rfind(s@, c) && i < s@.len() && i < usize::MAX,
            None => rfind(s@, c) == -1,
        },
{
    let mut i: usize = s.len();
    while i > 0
        invariant
            0 <= i <= s@.len(),
            forall|j: int| i <= j < s@.len() ==> s@[j] != c,
        decreases i,
    {
        i -= 1;
        if s[i] == c {
            proof {
                lemma_rfind_is(s@, c, i as int);
            }
            return Some(i);
        }
    }
    proof {
        lemma_rfind_is(s@, c, -1);
    }
    None
}

/// A copy of some characters.
pub fn copy_chars(s: &[char]) -> (r: Vec<char>)
    ensures
        r@ == s@,
{
    let mut out: Vec<char> = Vec::new();
    let mut i: usize = 0;
    while i < s.len()
        invariant
            0 <= i <= s@.len(),
            out@ == s@.take(i as int),
        decreases s@.len() - i,
    {
        out.push(s[i]);
        i += 1;
        assert(s@.take(i as int) =~= s@.take(i - 1).push(s@[i - 1]));
    }
    assert(s@.take(i as int) =~= s@);
    out
}

/// The first `n` characters.
pub fn take_chars(s: &[char], n: usize) -> (r: &[char])
    requires
        n <= s@.len(),
    ensures
        r@ == s@.take(n as int),
{
    let r = slice_subrange(s, 0, n);
    assert(r@ =~= s@.take(n as int));
    r
}

/// All but the first `n` characters.
pub fn skip_chars(s: &[char], n: usize) -> (r: &[char])
    requires
        n <= s@.len(),
    ensures
        r@ == s@.skip(n as int),
{
    let r = slice_subrange(s, n, s.len());
    assert(r@ =~= s@.skip(n as int));
    r
}

/// The pieces of `s` between the places where `c` stands.
pub fn split_on(s: &[char], c: char) -> (r: Vec<Vec<char>>)
    ensures
        deep(r@) == split(s@, c),
{
    let mut out: Vec<Vec<char>> = Vec::new();
    let mut rest: &[char] = s;
    proof {
        assert(deep(out@) + split(rest@, c) =~= split(s@, c));
    }
    loop
        invariant
            deep(out@) + split(rest@, c) == split(s@, c),
        decreases rest@.len(),
    {
        let i: usize = find_char(rest, c);
        if i >= rest.len() {
            let ghost before = out@;
            out.push(copy_chars(rest));
            proof {
                assert(deep(out@) =~= deep(before) + seq![rest@]);
            }
            return out;
        }
        let ghost before = out@;
        let ghost was = rest@;
        out.push(copy_chars(take_chars(rest, i)));
        rest = skip_chars(rest, i + 1);
        proof {
            assert(deep(out@) =~= deep(before) + seq![was.take(i as int)]);
            assert(deep(out@) + split(rest@, c) =~= deep(before) + (seq![was.take(i as int)] + split(
                was.skip(i + 1),
                c,
            )));
        }
    }
}

/// What stands behind the last `c`: all of `s` where there is none.
pub fn behind_last(s: &[char], c: char) -> (r: &[char])
    ensures
        r@ == after_last(s@, c),
{
    match rfind_char(s, c) {
        Some(i) => skip_chars(s, i + 1),
        None => {
            assert(s@.skip(0) =~= s@);
            s
        },
    }
}

/// What stands before the last `c`: nothing where there is none.
pub fn ahead_of_last(s: &[char], c: char) -> (r: &[char])
    ensures
        r@ == before_last(s@, c),
{
    match rfind_char(s, c) {
        Some(i) => take_chars(s, i),
        None => {
            let r = take_chars(s, 0);
            assert(r@ =~= Seq::<char>::empty());
            r
        },
    }
}

/// Whether two runs of characters are the same.
pub fn same_chars(a: &[char], b: &[char]) -> (r: bool)
    ensures
        r == (a@ == b@),
{
    if a.len() != b.len() {
        return false;
    }
    let mut i: usize = 0;
    while i < a.len()
        invariant
            0 <= i <= a@.len(),
            a@.len() == b@.len(),
            forall|j: int| 0 <= j < i ==> a@[j] == b@[j],
        decreases a@.len() - i,
    {
        if a[i] != b[i] {
            return false;
        }
        i += 1;
    }
    assert(a@ =~= b@);
    true
}

/// Whether `s` is the text `t`.
pub fn is_text(s: &[char], t: &str) -> (r: bool)
    ensures
        r == (s@ == t@),
{
    let v = chars_of(t);
    same_chars(s, v.as_slice())
}

/// Whether two texts are the same.
pub fn same_text(a: &str, b: &str) -> (r: bool)
    ensures
        r == (a@ == b@),
{
    let v = chars_of(a);
    is_text(v.as_slice(), b)
}

/// What is left of `s` behind `p` where `s` begins with it.
pub fn strip_prefix<'a>(s: &'a [char], p: &str) -> (r: Option<&'a [char]>)
    ensures
        r is Some <==> starts(s@, p@),
        r matches Some(t) ==> t@ == s@.skip(p@.len() as int),
{
    let v = chars_of(p);
    if s.len() < v.len() {
        return None;
    }
    if same_chars(take_chars(s, v.len()), v.as_slice()) {
        Some(skip_chars(s, v.len()))
    } else {
        None
    }
}

/// What is left of `s` before `p` where `s` ends with it.
pub fn strip_suffix<'a>(s: &'a [char], p: &str) -> (r: Option<&'a [char]>)
    ensures
        r is Some <==> ends(s@, p@),
        r matches Some(t) ==> t@ == s@.take(s@.len() - p@.len()),
{
    let v = chars_of(p);
    if s.len() < v.len() {
        return None;
    }
    let k: usize = s.len() - v.len();
    if same_chars(skip_chars(s, k), v.as_slice()) {
        Some(take_chars(s, k))
    } else {
        None
    }
}

/// White space as Unicode lists it.
pub fn space_char(c: char) -> (r: bool)
    ensures
        r == is_space(c),
{
    let u: u32 = c as u32;
    (9 <= u && u <= 13) || u == 0x20 || u == 0x85 || u == 0xa0 || u == 0x1680 || (0x2000 <= u && u
        <= 0x200a) || u == 0x2028 || u == 0x2029 || u == 0x202f || u == 0x205f || u == 0x3000
}

/// `s` without the white space at its start.
pub fn trimmed_start(s: &[char]) -> (r: &[char])
    ensures
        r@ == trim_start(s@),
{
    let mut rest: &[char] = s;
    while rest.len() > 0 && space_char(rest[0])
        invariant
            trim_start(rest@) == trim_start(s@),
        decreases rest@.len(),
    {
        let ghost was = rest@;
        rest = skip_chars(rest, 1);
        assert(rest@ =~= was.drop_first());
    }
    rest
}

/// `s` without the white space at both ends.
pub fn trimmed(s: &[char]) -> (r: &[char])
    ensures
        r@ == trim(s@),
{
    let mut rest: &[char] = trimmed_start(s);
    while rest.len() > 0 && space_char(rest[rest.len() - 1])
        invariant
            trim_end(rest@) == trim(s@),
        decreases rest@.len(),
    {
        let ghost was = rest@;
        rest = take_chars(rest, rest.len() - 1);
        assert(rest@ =~= was.drop_last());
    }
    rest
}

/// `s` without the copies of `c` at its end.
pub fn trimmed_end_of(s: &[char], c: char) -> (r: &[char])
    ensures
        r@ == trim_end_of(s@, c),
{
    let mut rest: &[char] = s;
    while rest.len() > 0 && rest[rest.len() - 1] == c
        invariant
            trim_end_of(rest@, c) == trim_end_of(s@, c),
        decreases rest@.len(),
    {
        let ghost was = rest@;
        rest = take_chars(rest, rest.len() - 1);
        assert(rest@ =~= was.drop_last());
    }
    rest
}

/// `s` without the copies of `c` at its start.
pub fn trimmed_start_of(s: &[char], c: char) -> (r: &[char])
    ensures
        r@ == trim_start_of(s@, c),
{
    let mut rest: &[char] = s;
    while rest.len() > 0 && rest[0] == c
        invariant
            trim_start_of(rest@, c) == trim_start_of(s@, c),
        decreases rest@.len(),
    {
        let ghost was = rest@;
        rest = skip_chars(rest, 1);
        assert(rest@ =~= was.drop_first());
    }
    rest
}

/// The place where `p` begins for the first time in `s`.
pub fn find_text(s: &[char], p: &str) -> (r: Option<usize>)
    ensures
        match r {
            Some(i) => i == find_str(s@, p@) && i + p@.len() <= s@.len(),
            None => find_str(s@, p@) == -1,
        },
{
    let total: usize = s.len();
    let mut rest: &[char] = s;
    let mut i: usize = 0;
    loop
        invariant
            rest@ == s@.skip(i as int),
            0 <= i <= total == s@.len(),
            find_str(s@, p@) == if find_str(rest@, p@) < 0 {
                -1
            } else {
                find_str(rest@, p@) + i
            },
        decreases rest@.len(),
    {
        if strip_prefix(rest, p).is_some() {
            return Some(i);
        }
        if rest.len() == 0 {
            return None;
        }
        let ghost was = rest@;
        rest = skip_chars(rest, 1);
        assert(rest@ =~= was.drop_first());
        assert(rest@ =~= s@.skip(i + 1));
        i += 1;
    }
}

/// `s` without the copies of `p` at its end.
pub fn trimmed_end_str<'a>(s: &'a [char], p: &str) -> (r: &'a [char])
    requires
        p@.len() > 0,
    ensures
        r@ == trim_end_str(s@, p@),
{
    let mut rest: &'a [char] = s;
    loop
        invariant
            p@.len() > 0,
            trim_end_str(rest@, p@) == trim_end_str(s@, p@),
        decreases rest@.len(),
    {
        match strip_suffix(rest, p) {
            Some(t) => {
                rest = t;
            },
            None => {
                return rest;
            },
        }
    }
}

/// `s` without the copies of `p` at its start.
pub fn trimmed_start_str<'a>(s: &'a [char], p: &str) -> (r: &'a [char])
    requires
        p@.len() > 0,
    ensures
        r@ == trim_start_str(s@, p@),
{
    let mut rest: &'a [char] = s;
    loop
        invariant
            p@.len() > 0,
            trim_start_str(rest@, p@) == trim_start_str(s@, p@),
        decreases rest@.len(),
    {
        match strip_prefix(rest, p) {
            Some(t) => {
                rest = t;
            },
            None => {
                return rest;
            },
        }
    }
}

/// The lower-case form of an ASCII letter.
pub fn lower_char(c: char) -> (r: char)
    ensures
        r == lower(c),
{
    if 'A' <= c && c <= 'Z' {
        ((c as u8) + 32) as char
    } else {
        c
    }
}

/// `s` with its ASCII letters in lower case.
pub fn lowered_chars(s: &[char]) -> (r: Vec<char>)
    ensures
        r@ == lowered(s@),
{
    let mut out: Vec<char> = Vec::new();
    let mut i: usize = 0;
    while i < s.len()
        invariant
            0 <= i <= s@.len(),
            out@.len() == i,
            forall|j: int| 0 <= j < i ==> out@[j] == lower(s@[j]),
        decreases s@.len() - i,
    {
        out.push(lower_char(s[i]));
        i += 1;
    }
    assert(out@ =~= lowered(s@));
    out
}

/// The lines of `s`.
pub fn line_chars(s: &[char]) -> (r: Vec<Vec<char>>)
    ensures
        deep(r@) == lines(s@),
{
    let mut out: Vec<Vec<char>> = Vec::new();
    let mut rest: &[char] = s;
    proof {
        assert(deep(out@) + lines(rest@) =~= lines(s@));
    }
    while rest.len() > 0
        invariant
            deep(out@) + lines(rest@) == lines(s@),
        decreases rest@.len(),
    {
        let i: usize = find_char(rest, '\n');
        let ghost before = out@;
        let ghost was = rest@;
        if i >= rest.len() {
            out.push(copy_chars(rest));
            proof {
                assert(deep(out@) =~= deep(before) + seq![was]);
            }
            return out;
        }
        let l = take_chars(rest, i);
        let ghost whole = l@;
        let l = if l.len() > 0 && l[l.len() - 1] == '\r' {
            take_chars(l, l.len() - 1)
        } else {
            l
        };
        proof {
            if whole.len() > 0 && whole.last() == '\r' {
                assert(l@ =~= whole.drop_last());
            }
        }
        out.push(copy_chars(l));
        rest = skip_chars(rest, i + 1);
        proof {
            assert(deep(out@) =~= deep(before) + seq![l@]);
            assert(deep(out@) + lines(rest@) =~= deep(before) + (seq![l@] + lines(was.skip(i + 1))));
        }
    }
    assert(deep(out@) + lines(rest@) =~= deep(out@));
    out
}

/// The value of digits only grows as more of them are read.
pub proof fn lemma_digits_grow(s: Seq<char>, i: int)
    requires
        0 <= i <= s.len(),
    ensures
        digits_value(s.take(i)) <= digits_value(s),
    decreases s.len() - i,
{
    if i < s.len() {
        lemma_digits_grow(s, i + 1);
        assert(s.take(i + 1).drop_last() =~= s.take(i));
    } else {
        assert(s.take(i) =~= s);
    }
}

/// Reading a number in decimal gives the number back.
pub proof fn dec_round_trip(n: nat)
    ensures
        dec(n).len() > 0,
        all_digits(dec(n)),
        digits_value(dec(n)) == n,
    decreases n,
{
    if n < 10 {
        assert(dec(n).drop_last() =~= Seq::<char>::empty());
        assert(digits_value(dec(n).drop_last()) == 0);
        assert(dec(n).last() as u32 - '0' as u32 == n);
    } else {
        dec_round_trip(n / 10);
        assert(dec(n).last() as u32 - '0' as u32 == n % 10);
        assert(dec(n).drop_last() =~= dec(n / 10));
        assert forall|i: int| 0 <= i < dec(n).len() implies is_digit(#[trigger] dec(n)[i]) by {
            if i < dec(n / 10).len() {
                assert(dec(n)[i] == dec(n / 10)[i]);
            }
        }
    }
}

/// Zeros before a number do not change it.
pub proof fn lemma_zeros(z: Seq<char>, s: Seq<char>)
    requires
        forall|i: int| 0 <= i < z.len() ==> z[i] == '0',
    ensures
        digits_value(z + s) == digits_value(s),
    decreases s.len(), z.len(),
{
    if s.len() > 0 {
        assert((z + s).drop_last() =~= z + s.drop_last());
        lemma_zeros(z, s.drop_last());
    } else if z.len() > 0 {
        assert(z + s =~= z);
        assert(z.drop_last() + s =~= z.drop_last());
        lemma_zeros(z.drop_last(), s);
    } else {
        assert(z + s =~= s);
    }
}

/// Reading a number that was written with zeros before it gives the number back.
pub proof fn padded_round_trip(n: nat, width: nat, max: nat)
    requires
        n <= max,
    ensures
        number(pad_left(dec(n), width, '0'), max) == Some(n),
{
    dec_round_trip(n);
    let p = pad_left(dec(n), width, '0');
    let z = Seq::new((p.len() - dec(n).len()) as nat, |i: int| '0');
    assert(p =~= z + dec(n));
    lemma_zeros(z, dec(n));
    assert forall|i: int| 0 <= i < p.len() implies is_digit(#[trigger] p[i]) by {
        if i >= z.len() {
            assert(p[i] == dec(n)[i - z.len()]);
        }
    }
    assert(is_digit(p[0]));
    assert(unsigned_part(p) == p);
}

/// Whether `a` comes before `b` in the order of their first different characters.
pub open spec fn lex_lt(a: Seq<char>, b: Seq<char>) -> bool
    decreases a.len(),
{
    if b.len() == 0 {
        false
    } else if a.len() == 0 {
        true
    } else {
        a[0] < b[0] || (a[0] == b[0] && lex_lt(a.drop_first(), b.drop_first()))
    }
}

/// No text comes before itself.
pub proof fn lex_lt_irreflexive(a: Seq<char>)
    ensures
        !lex_lt(a, a),
    decreases a.len(),
{
    if a.len() > 0 {
        lex_lt_irreflexive(a.drop_first());
    }
}

/// The order of texts is transitive.
pub proof fn lex_lt_transitive(a: Seq<char>, b: Seq<char>, c: Seq<char>)
    requires
        lex_lt(a, b),
        lex_lt(b, c),
    ensures
        lex_lt(a, c),
    decreases a.len(),
{
    if a.len() > 0 && b.len() > 0 && c.len() > 0 && a[0] == b[0] && b[0] == c[0] {
        lex_lt_transitive(a.drop_first(), b.drop_first(), c.drop_first());
    }
}

/// Of two different texts one comes before the other.
pub proof fn lex_lt_total(a: Seq<char>, b: Seq<char>)
    ensures
        a == b || lex_lt(a, b) || lex_lt(b, a),
    decreases a.len(),
{
    if a.len() > 0 && b.len() > 0 && a[0] == b[0] {
        lex_lt_total(a.drop_first(), b.drop_first());
        if a.drop_first() == b.drop_first() {
            assert(a =~= seq![a[0]] + a.drop_first());
            assert(b =~= seq![b[0]] + b.drop_first());
        }
    } else if a.len() == 0 && b.len() == 0 {
        assert(a =~= b);
    }
}

/// Whether `a` comes before `b`.
pub fn text_before(a: &[char], b: &[char]) -> (r: bool)
    ensures
        r == lex_lt(a@, b@),
{
    let mut i: usize = 0;
    assert(a@.skip(0) =~= a@);
    assert(b@.skip(0) =~= b@);
    loop
        invariant
            0 <= i <= a@.len(),
            i <= b@.len(),
            lex_lt(a@, b@) == lex_lt(a@.skip(i as int), b@.skip(i as int)),
        decreases a@.len() - i,
    {
        if i >= b.len() {
            return false;
        }
        if i >= a.len() {
            return true;
        }
        if a[i] < b[i] {
            return true;
        }
        if a[i] != b[i] {
            return false;
        }
        proof {
            assert(a@.skip(i as int).drop_first() =~= a@.skip(i + 1));
            assert(b@.skip(i as int).drop_first() =~= b@.skip(i + 1));
        }
        i += 1;
    }
}

/// The number up to `max` that `s` spells in decimal.
pub fn parse_number(s: &[char], max: u64) -> (r: Option<u64>)
    ensures
        match r {
            Some(n) => number(s@, max as nat) == Some(n as nat) && n <= max,
            None => number(s@, max as nat) is None,
        },
{
    let d: &[char] = if s.len() > 0 && s[0] == '+' {
        let t = skip_chars(s, 1);
        assert(t@ =~= s@.drop_first());
        t
    } else {
        s
    };
    if d.len() == 0 {
        return None;
    }
    let mut n: u64 = 0;
    let mut i: usize = 0;
    while i < d.len()
        invariant
            d@ == unsigned_part(s@),
            0 <= i <= d@.len(),
            n <= max,
            n == digits_value(d@.take(i as int)),
            forall|j: int| 0 <= j < i ==> is_digit(#[trigger] d@[j]),
        decreases d@.len() - i,
    {
        let c: char = d[i];
        if c < '0' || c > '9' {
            assert(!is_digit(d@[i as int]));
            return None;
        }
        let x: u64 = (c as u32 - '0' as u32) as u64;
        proof {
            assert(d@.take(i + 1).drop_last() =~= d@.take(i as int));
            lemma_digits_grow(d@, i + 1);
        }
        if n > (max / 10) || (max - n * 10) < x {
            assert(digits_value(d@.take(i + 1)) == n * 10 + x);
            return None;
        }
        n = n * 10 + x;
        i += 1;
    }
    assert(d@.take(i as int) =~= d@);
    Some(n)
}

} // verus!
