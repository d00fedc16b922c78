//! How the text functions treat texts that were put together from pieces.
use vstd::prelude::*;

use crate::text::{
    after_last, all_digits, before_last, dec, dec_round_trip, digit, digits_value, ends, find, find_str,
    is_digit, is_space, leading_digits, lemma_find, lemma_find_is, lemma_rfind, lemma_rfind_is, lex_lt,
    lines, lowered, number, number_error, pad_left, rfind, split, starts, trim, trim_end, trim_end_of,
    trim_end_str, trim_start, trim_start_of, trim_start_str, unsigned_part, NumberError,
};

verus! {

/// Whether `c` does not occur in `s`.
pub open spec fn lacks(s: Seq<char>, c: char) -> bool {
    forall|i: int| 0 <= i < s.len() ==> s[i] != c
}

/// Whether every character is white space.
pub open spec fn blank(s: Seq<char>) -> bool {
    forall|i: int| 0 <= i < s.len() ==> is_space(#[trigger] s[i])
}

/// A first line, and the lines behind it.
pub proof fn lines_of_line_and_rest(a: Seq<char>, b: Seq<char>)
    requires
        lacks(a, '\n'),
        a.len() == 0 || a.last() != '\r',
    ensures
        lines(a + seq!['\n'] + b) == seq![a] + lines(b),
{
    let s = a + seq!['\n'] + b;
    assert(s[a.len() as int] == '\n');
    assert forall|j: int| 0 <= j < a.len() implies s[j] != '\n' by {
        assert(s[j] == a[j]);
    }
    lemma_find_is(s, '\n', a.len() as int);
    assert(s.take(a.len() as int) =~= a);
    assert(s.skip(a.len() as int + 1) =~= b);
}

/// A first piece, and the pieces behind it.
pub proof fn split_of_piece_and_rest(a: Seq<char>, c: char, b: Seq<char>)
    requires
        lacks(a, c),
    ensures
        split(a + seq![c] + b, c) == seq![a] + split(b, c),
{
    let s = a + seq![c] + b;
    assert(s[a.len() as int] == c);
    assert forall|j: int| 0 <= j < a.len() implies s[j] != c by {
        assert(s[j] == a[j]);
    }
    lemma_find_is(s, c, a.len() as int);
    assert(s.take(a.len() as int) =~= a);
    assert(s.skip(a.len() as int + 1) =~= b);
}

/// A text without the separator is one piece.
pub proof fn split_of_one_piece(a: Seq<char>, c: char)
    requires
        lacks(a, c),
    ensures
        split(a, c) == seq![a],
{
    lemma_find_is(a, c, a.len() as int);
}

/// Trimming takes the white space before and behind away.
pub proof fn trim_of_padded(p: Seq<char>, m: Seq<char>, q: Seq<char>)
    requires
        blank(p),
        blank(q),
        m.len() > 0,
        !is_space(m[0]),
        !is_space(m.last()),
    ensures
        trim(p + m + q) == m,
    decreases p.len() + q.len(),
{
    if p.len() > 0 {
        let s = p + m + q;
        assert(is_space(p[0]));
        assert(s[0] == p[0]);
        let t = p.drop_first();
        assert(s.drop_first() =~= t + m + q);
        assert forall|i: int| 0 <= i < t.len() implies is_space(#[trigger] t[i]) by {
            assert(t[i] == p[i + 1]);
        }
        trim_of_padded(t, m, q);
    } else {
        let s = p + m + q;
        assert(s =~= m + q);
        assert(trim_start(s) == s);
        trim_end_of_padded(m, q);
    }
}

proof fn trim_end_of_padded(m: Seq<char>, q: Seq<char>)
    requires
        blank(q),
        m.len() > 0,
        !is_space(m.last()),
    ensures
        trim_end(m + q) == m,
    decreases q.len(),
{
    let s = m + q;
    if q.len() > 0 {
        assert(is_space(q[q.len() - 1]));
        assert(s.last() == q[q.len() - 1]);
        let t = q.drop_last();
        assert(s.drop_last() =~= m + t);
        assert forall|i: int| 0 <= i < t.len() implies is_space(#[trigger] t[i]) by {
            assert(t[i] == q[i]);
        }
        trim_end_of_padded(m, t);
    } else {
        assert(s =~= m);
    }
}

/// One trailing character is taken away, and no more where the text before it does not
/// end with it.
pub proof fn trim_end_of_one(m: Seq<char>, c: char)
    requires
        m.len() == 0 || m.last() != c,
    ensures
        trim_end_of(m.push(c), c) == m,
        trim_end_of(m, c) == m,
{
    assert(trim_end_of(m, c) == m);
    assert(m.push(c).last() == c);
    assert(m.push(c).drop_last() =~= m);
    assert(trim_end_of(m.push(c), c) == trim_end_of(m, c));
}

/// A number that was written in decimal is read as itself.
pub proof fn number_of_dec(n: nat, max: nat)
    requires
        n <= max,
    ensures
        number(dec(n), max) == Some(n),
        !is_space(dec(n)[0]),
        !is_space(dec(n).last()),
        dec(n).len() > 0,
        forall|i: int| 0 <= i < dec(n).len() ==> is_digit(#[trigger] dec(n)[i]),
{
    dec_round_trip(n);
    assert(is_digit(dec(n)[0]));
    assert(is_digit(dec(n)[dec(n).len() - 1]));
    assert(unsigned_part(dec(n)) == dec(n));
}

/// A text is found where it begins, where it does not begin before.
pub proof fn find_str_behind(h: Seq<char>, k: Seq<char>, p: Seq<char>)
    requires
        starts(k, p),
        forall|j: int| 0 <= j < h.len() ==> !starts(#[trigger] (h + k).skip(j), p),
    ensures
        find_str(h + k, p) == h.len(),
    decreases h.len(),
{
    let s = h + k;
    if h.len() == 0 {
        assert(s =~= k);
    } else {
        assert(s.skip(0) =~= s);
        assert(!starts(s.skip(0), p));
        let t = h.drop_first();
        assert(s.drop_first() =~= t + k);
        assert forall|j: int| 0 <= j < t.len() implies !starts(#[trigger] (t + k).skip(j), p) by {
            assert((t + k).skip(j) =~= s.skip(j + 1));
        }
        find_str_behind(t, k, p);
    }
}

/// A text is what stands before the last `c`, that `c`, and what stands behind it; without a `c` it
/// is all behind.
pub proof fn last_separator_parts_a_text(s: Seq<char>, c: char)
    ensures
        lacks(after_last(s, c), c),
        if lacks(s, c) {
            before_last(s, c).len() == 0 && after_last(s, c) == s
        } else {
            s == before_last(s, c) + seq![c] + after_last(s, c)
        },
{
    lemma_rfind(s, c);
    let r = rfind(s, c);
    if lacks(s, c) {
        assert(r == -1);
        assert(s.skip(0) =~= s);
    } else {
        let i = choose|i: int| 0 <= i < s.len() && s[i] == c;
        assert(r >= 0);
        assert(s =~= s.take(r) + seq![c] + s.skip(r + 1));
    }
}

/// Where nothing behind a `c` is a `c`, that `c` is the last one.
pub proof fn parts_around_the_last_separator(a: Seq<char>, c: char, b: Seq<char>)
    requires
        lacks(b, c),
    ensures
        before_last(a + seq![c] + b, c) == a,
        after_last(a + seq![c] + b, c) == b,
{
    let s = a + seq![c] + b;
    assert(s[a.len() as int] == c);
    assert forall|j: int| a.len() < j < s.len() implies s[j] != c by {
        assert(s[j] == b[j - a.len() - 1]);
    }
    lemma_rfind_is(s, c, a.len() as int);
    assert(s.take(a.len() as int) =~= a);
    assert(s.skip(a.len() as int + 1) =~= b);
}

/// Pieces with `c` between them.
pub open spec fn with_between(pieces: Seq<Seq<char>>, c: char) -> Seq<char>
    decreases pieces.len(),
{
    if pieces.len() == 0 {
        Seq::empty()
    } else if pieces.len() == 1 {
        pieces[0]
    } else {
        pieces[0] + seq![c] + with_between(pieces.drop_first(), c)
    }
}

/// The pieces of a text, put together again, are the text; there is at least one, and none has the
/// separator in it.
pub proof fn pieces_make_up_the_text(s: Seq<char>, c: char)
    ensures
        split(s, c).len() > 0,
        with_between(split(s, c), c) == s,
        forall|i: int| 0 <= i < split(s, c).len() ==> lacks(#[trigger] split(s, c)[i], c),
    decreases s.len(),
{
    lemma_find(s, c);
    let i = find(s, c);
    if i >= s.len() {
        assert(split(s, c) == seq![s]);
    } else {
        let rest = s.skip(i + 1);
        pieces_make_up_the_text(rest, c);
        let p = split(s, c);
        assert(p.drop_first() =~= split(rest, c));
        assert(p[0] == s.take(i));
        assert(s =~= s.take(i) + seq![c] + rest);
        assert forall|k: int| 0 <= k < p.len() implies lacks(#[trigger] p[k], c) by {
            if k > 0 {
                assert(p[k] == split(rest, c)[k - 1]);
            }
        }
    }
}

/// What is cut off at the start is white space, and what is left begins with none.
pub proof fn trimmed_start_is_white_space(s: Seq<char>) -> (a: Seq<char>)
    ensures
        blank(a),
        s == a + trim_start(s),
        trim_start(s).len() > 0 ==> !is_space(trim_start(s)[0]),
    decreases s.len(),
{
    if s.len() > 0 && is_space(s[0]) {
        let a = trimmed_start_is_white_space(s.drop_first());
        let b = seq![s[0]] + a;
        let t = trim_start(s.drop_first());
        assert(trim_start(s) == t);
        assert(s =~= seq![s[0]] + s.drop_first());
        assert(seq![s[0]] + (a + t) =~= b + t);
        assert forall|i: int| 0 <= i < b.len() implies is_space(#[trigger] b[i]) by {
            if i > 0 {
                assert(b[i] == a[i - 1]);
            }
        }
        b
    } else {
        assert(s =~= Seq::<char>::empty() + s);
        Seq::empty()
    }
}

/// What is cut off at the end is white space, and what is left ends with none.
pub proof fn trimmed_end_is_white_space(s: Seq<char>) -> (b: Seq<char>)
    ensures
        blank(b),
        s == trim_end(s) + b,
        trim_end(s).len() > 0 ==> !is_space(trim_end(s).last()),
    decreases s.len(),
{
    if s.len() > 0 && is_space(s.last()) {
        let a = trimmed_end_is_white_space(s.drop_last());
        let b = a.push(s.last());
        let t = trim_end(s.drop_last());
        assert(trim_end(s) == t);
        assert(s =~= s.drop_last().push(s.last()));
        assert((t + a).push(s.last()) =~= t + b);
        assert forall|i: int| 0 <= i < b.len() implies is_space(#[trigger] b[i]) by {
            if i < a.len() {
                assert(b[i] == a[i]);
            }
        }
        b
    } else {
        assert(s =~= s + Seq::<char>::empty());
        Seq::empty()
    }
}

/// Trimming cuts off white space at both ends, all of it, and nothing else.
pub proof fn trimming_cuts_off_white_space_only(s: Seq<char>) -> (r: (Seq<char>, Seq<char>))
    ensures
        blank(r.0),
        blank(r.1),
        s == r.0 + trim(s) + r.1,
        trim(s).len() > 0 ==> !is_space(trim(s)[0]) && !is_space(trim(s).last()),
{
    let a = trimmed_start_is_white_space(s);
    let b = trimmed_end_is_white_space(trim_start(s));
    assert(s =~= a + trim(s) + b);
    assert(trim(s).len() > 0 ==> trim(s)[0] == trim_start(s)[0]);
    (a, b)
}

/// Blanks, tabs and the ends of lines are white space; what is printed in ASCII is not.
pub proof fn white_space_is_what_is_not_seen(c: char)
    ensures
        c == ' ' || c == '\t' || c == '\n' || c == '\r' ==> is_space(c),
        0x21 <= c as u32 <= 0x7e ==> !is_space(c),
{
}

/// Cutting a character off the end, wherever it stands there, leaves a text that ends otherwise.
pub proof fn trimmed_end_of_one_character(s: Seq<char>, c: char)
    ensures
        trim_end_of(s, c).len() <= s.len(),
        trim_end_of(s, c) == s.take(trim_end_of(s, c).len() as int),
        trim_end_of(s, c).len() > 0 ==> trim_end_of(s, c).last() != c,
        forall|i: int| trim_end_of(s, c).len() <= i < s.len() ==> s[i] == c,
    decreases s.len(),
{
    if s.len() > 0 && s.last() == c {
        let t = s.drop_last();
        trimmed_end_of_one_character(t, c);
        let k = trim_end_of(t, c).len() as int;
        assert(t.take(k) =~= s.take(k));
        assert forall|i: int| k <= i < s.len() implies s[i] == c by {
            if i < t.len() {
                assert(t[i] == s[i]);
            }
        }
    } else {
        assert(s.take(s.len() as int) =~= s);
    }
}

/// A text begins and ends with what it is put together from, and with no other text of that length.
pub proof fn beginnings_and_ends(a: Seq<char>, b: Seq<char>, x: Seq<char>)
    ensures
        starts(a + b, a),
        ends(a + b, b),
        x.len() == a.len() && starts(a + b, x) ==> x == a,
        x.len() == b.len() && ends(a + b, x) ==> x == b,
        starts(a + b, x) ==> x.len() <= a.len() + b.len(),
{
    let s = a + b;
    assert(s.take(a.len() as int) =~= a);
    assert(s.skip(s.len() - b.len()) =~= b);
}

/// A number is read from digits alone, with at most one `+` before them, and is what the digits
/// spell: each digit more counts ten times what stood before it.
pub proof fn numbers_are_read_from_digits(s: Seq<char>, max: nat, d: int)
    requires
        0 <= d < 10,
    ensures
        number(s, max) is Some ==> s.len() > 0 && (forall|i: int|
            0 < i < s.len() ==> '0' <= s[i] && s[i] <= '9') && (s[0] == '+' || ('0' <= s[0] && s[0]
            <= '9')),
        number(s, max) matches Some(n) ==> n <= max,
        number(s, max) matches Some(n) ==> n * 10 + d <= max ==> number(s.push(digit(d)), max) == Some(
            (n * 10 + d) as nat,
        ),
        number(s, max) matches Some(n) ==> n * 10 + d > max ==> number(s.push(digit(d)), max) is None,
        d <= max ==> number(seq![digit(d)], max) == Some(d as nat),
        digit(d) as u32 == 48 + d,
{
    let u = unsigned_part(s);
    let t = s.push(digit(d));
    if number(s, max) is Some {
        assert forall|i: int| 0 < i < s.len() implies '0' <= s[i] && s[i] <= '9' by {
            if s[0] == '+' {
                assert(s[i] == u[i - 1]);
                assert(is_digit(u[i - 1]));
            } else {
                assert(is_digit(u[i]));
            }
        }
        if s[0] != '+' {
            assert(is_digit(u[0]));
        }
        assert(unsigned_part(t) =~= u.push(digit(d)));
        assert(u.push(digit(d)).drop_last() =~= u);
        assert forall|i: int| 0 <= i < u.push(digit(d)).len() implies is_digit(
            #[trigger] u.push(digit(d))[i],
        ) by {
            if i < u.len() {
                assert(is_digit(u[i]));
            }
        }
    }
    let one = seq![digit(d)];
    assert(unsigned_part(one) =~= one);
    assert(one.drop_last() =~= Seq::<char>::empty());
    assert(digits_value(one.drop_last()) == 0);
    assert(digits_value(one) == d);
}

/// Only the letters from A to Z have another form in lower case: 32 places further on.
pub proof fn lower_case_of_a_text(s: Seq<char>, i: int)
    requires
        0 <= i < s.len(),
    ensures
        lowered(s).len() == s.len(),
        'A' <= s[i] && s[i] <= 'Z' ==> lowered(s)[i] as u32 == s[i] as u32 + 32,
        !('A' <= s[i] && s[i] <= 'Z') ==> lowered(s)[i] == s[i],
{
}

/// A first line that ends with a carriage return and a line feed, and the lines behind it.
pub proof fn lines_of_crlf_and_rest(a: Seq<char>, b: Seq<char>)
    requires
        lacks(a, '\n'),
    ensures
        lines(a + seq!['\r', '\n'] + b) == seq![a] + lines(b),
{
    let s = a + seq!['\r', '\n'] + b;
    let n = a.len() as int + 1;
    assert(s[n] == '\n');
    assert forall|j: int| 0 <= j < n implies s[j] != '\n' by {
        if j < a.len() {
            assert(s[j] == a[j]);
        }
    }
    lemma_find_is(s, '\n', n);
    assert(s.take(n).drop_last() =~= a);
    assert(s.take(n).last() == '\r');
    assert(s.skip(n + 1) =~= b);
}

/// A last line without a line feed is a line of its own; nothing is no line.
pub proof fn last_line_counts(a: Seq<char>)
    requires
        lacks(a, '\n'),
    ensures
        lines(a) == if a.len() == 0 {
            Seq::<Seq<char>>::empty()
        } else {
            seq![a]
        },
{
    lemma_find(a, '\n');
}

/// An ending is cut off as often as it stands there, and only then.
pub proof fn endings_are_cut_off(s: Seq<char>, p: Seq<char>)
    requires
        p.len() > 0,
    ensures
        trim_end_str(s + p, p) == trim_end_str(s, p),
        !ends(s, p) ==> trim_end_str(s, p) == s,
        trim_start_str(p + s, p) == trim_start_str(s, p),
        !starts(s, p) ==> trim_start_str(s, p) == s,
{
    beginnings_and_ends(s, p, p);
    beginnings_and_ends(p, s, p);
    assert((s + p).take((s + p).len() - p.len()) =~= s);
    assert((p + s).skip(p.len() as int) =~= s);
}

/// A number that is padded has at least the width, ends with its digits, and has only the filling
/// before them.
pub proof fn padding_stands_before(s: Seq<char>, width: nat, c: char)
    ensures
        pad_left(s, width, c).len() == if s.len() >= width {
            s.len()
        } else {
            width
        },
        ends(pad_left(s, width, c), s),
        forall|i: int|
            0 <= i < pad_left(s, width, c).len() - s.len() ==> #[trigger] pad_left(s, width, c)[i] == c,
{
    let p = pad_left(s, width, c);
    assert(p.skip(p.len() - s.len()) =~= s);
}

/// Why a text is no number: it is empty, the digits that it begins with, behind a `+` or not, are
/// too much already, or something else stands behind digits that are not.
pub proof fn faults_of_numbers_are_told_apart(a: Seq<char>, c: char, b: Seq<char>, max: nat)
    requires
        all_digits(a),
        !is_digit(c),
    ensures
        number_error(Seq::empty(), max) == NumberError::Empty,
        a.len() > 0 && digits_value(a) > max ==> number_error(a, max) == NumberError::TooLarge
            && number_error(a + seq![c] + b, max) == NumberError::TooLarge && number_error(
            seq!['+'] + a,
            max,
        ) == NumberError::TooLarge,
        a.len() > 0 && digits_value(a) <= max ==> number_error(a + seq![c] + b, max)
            == NumberError::InvalidDigit,
        c != '+' ==> number_error(seq![c] + b, max) == NumberError::InvalidDigit,
{
    let s = a + seq![c] + b;
    let none = Seq::<char>::empty();
    assert(digits_value(none) == 0);
    lemma_leading(a, none);
    assert(a + none =~= a);
    assert(a.take(a.len() as int) =~= a);
    lemma_leading(a, seq![c] + b);
    assert(a + (seq![c] + b) =~= s);
    assert(s.take(a.len() as int) =~= a);
    if a.len() > 0 {
        assert(is_digit(a[0]));
        assert(s[0] == a[0]);
        assert((seq!['+'] + a).drop_first() =~= a);
    }
    let t = seq![c] + b;
    assert(leading_digits(t) == 0);
    assert(t.take(0) =~= none);
}

proof fn lemma_leading(a: Seq<char>, b: Seq<char>)
    requires
        all_digits(a),
        b.len() == 0 || !is_digit(b[0]),
    ensures
        leading_digits(a + b) == a.len(),
    decreases a.len(),
{
    if a.len() > 0 {
        assert(is_digit(a[0]));
        let t = a.drop_first();
        assert forall|i: int| 0 <= i < t.len() implies is_digit(#[trigger] t[i]) by {
            assert(t[i] == a[i + 1]);
        }
        lemma_leading(t, b);
        assert((a + b).drop_first() =~= t + b);
    } else {
        assert(a + b =~= b);
    }
}

/// A text is found where it stands for the first time, and not where it stands nowhere.
pub proof fn first_occurrence_is_found(s: Seq<char>, p: Seq<char>)
    ensures
        -1 <= find_str(s, p) <= s.len(),
        find_str(s, p) >= 0 ==> starts(s.skip(find_str(s, p)), p),
        forall|j: int|
            0 <= j <= s.len() && (find_str(s, p) < 0 || j < find_str(s, p)) ==> !starts(
                #[trigger] s.skip(j),
                p,
            ),
    decreases s.len(),
{
    assert(s.skip(0) =~= s);
    if !starts(s, p) && s.len() > 0 {
        let t = s.drop_first();
        first_occurrence_is_found(t, p);
        let r = find_str(t, p);
        if r >= 0 {
            assert(s.skip(r + 1) =~= t.skip(r));
        }
        assert forall|j: int|
            0 <= j <= s.len() && (find_str(s, p) < 0 || j < find_str(s, p)) implies !starts(
            #[trigger] s.skip(j),
            p,
        ) by {
            if j > 0 {
                assert(s.skip(j) =~= t.skip(j - 1));
            }
        }
    }
}

/// Cutting a character off the start, wherever it stands there, leaves a text that begins otherwise.
pub proof fn trimmed_start_of_one_character(s: Seq<char>, c: char)
    ensures
        trim_start_of(s, c).len() <= s.len(),
        trim_start_of(s, c) == s.skip(s.len() - trim_start_of(s, c).len()),
        trim_start_of(s, c).len() > 0 ==> trim_start_of(s, c)[0] != c,
        forall|i: int| 0 <= i < s.len() - trim_start_of(s, c).len() ==> s[i] == c,
    decreases s.len(),
{
    if s.len() > 0 && s[0] == c {
        let t = s.drop_first();
        trimmed_start_of_one_character(t, c);
        let k = t.len() - trim_start_of(t, c).len();
        assert(t.skip(k) =~= s.skip(k + 1));
        assert forall|i: int| 0 <= i < k + 1 implies s[i] == c by {
            if i > 0 {
                assert(t[i - 1] == s[i]);
            }
        }
    } else {
        assert(s.skip(0) =~= s);
    }
}

/// A text comes before another where it is a beginning of it, or has the lesser character where
/// the two first differ, and then alone.
pub proof fn texts_are_ordered_like_words(p: Seq<char>, a: char, x: Seq<char>, b: char, y: Seq<char>)
    ensures
        a != b ==> lex_lt(p + seq![a] + x, p + seq![b] + y) == (a < b),
        lex_lt(p, p + seq![a] + x),
        !lex_lt(p + seq![a] + x, p),
    decreases p.len(),
{
    let s = p + seq![a] + x;
    let t = p + seq![b] + y;
    if p.len() > 0 {
        let q = p.drop_first();
        texts_are_ordered_like_words(q, a, x, b, y);
        assert(s.drop_first() =~= q + seq![a] + x);
        assert(t.drop_first() =~= q + seq![b] + y);
        assert(s.skip(1) =~= q + seq![a] + x);
        assert(t.skip(1) =~= q + seq![b] + y);
        assert(p.skip(1) =~= q);
    }
}

} // verus!
