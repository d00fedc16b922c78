//! Text inside JSON strings.
use vstd::prelude::*;
use vstd::string::StringExecFns;

use crate::text::{chars_of, digit, digit_char};

verus! {

/// A character as it stands inside a JSON string. `short` says whether backspace and form
/// feed have their two-character forms.
pub open spec fn escaped_char(c: char, short: bool) -> Seq<char> {
    if c == '"' {
        seq!['\\', '"']
    } else if c == '\\' {
        seq!['\\', '\\']
    } else if c == '\n' {
        seq!['\\', 'n']
    } else if c == '\r' {
        seq!['\\', 'r']
    } else if c == '\t' {
        seq!['\\', 't']
    } else if short && c as u32 == 8 {
        seq!['\\', 'b']
    } else if short && c as u32 == 12 {
        seq!['\\', 'f']
    } else if (c as u32) < 0x20 {
        seq!['\\', 'u', '0', '0', digit(c as u32 as int / 16), digit(c as u32 as int % 16)]
    } else {
        seq![c]
    }
}

/// A text as it stands inside a JSON string.
pub open spec fn escaped(s: Seq<char>, short: bool) -> Seq<char>
    decreases s.len(),
{
    if s.len() == 0 {
        Seq::empty()
    } else {
        escaped_char(s[0], short) + escaped(s.drop_first(), short)
    }
}

/// Writes a character as it stands inside a JSON string.
fn push_escaped(out: &mut String, c: char, short: bool)
    ensures
        final(out)@ == old(out)@ + escaped_char(c, short),
{
    let ghost before = out@;
    if c == '"' {
        out.push('\\');
        out.push('"');
    } else if c == '\\' {
        out.push('\\');
        out.push('\\');
    } else if c == '\n' {
        out.push('\\');
        out.push('n');
    } else if c == '\r' {
        out.push('\\');
        out.push('r');
    } else if c == '\t' {
        out.push('\\');
        out.push('t');
    } else if short && c as u32 == 8 {
        out.push('\\');
        out.push('b');
    } else if short && c as u32 == 12 {
        out.push('\\');
        out.push('f');
    } else if (c as u32) < 0x20 {
        let u: u8 = c as u32 as u8;
        out.push('\\');
        out.push('u');
        out.push('0');
        out.push('0');
        out.push(digit_char(u / 16));
        out.push(digit_char(u % 16));
    } else {
        out.push(c);
    }
    assert(out@ =~= before + escaped_char(c, short));
}

/// Writes a text as it stands inside a JSON string.
pub fn escape_into(s: &str, buf: &mut String, short: bool)
    ensures
        final(buf)@ == old(buf)@ + escaped(s@, short),
{
    let v = chars_of(s);
    let ghost start = buf@;
    let mut i: usize = 0;
    proof {
        assert(v@.skip(0) =~= v@);
        assert(buf@ + escaped(v@.skip(0), short) =~= start + escaped(v@, short));
    }
    while i < v.len()
        invariant
            0 <= i <= v@.len(),
            v@ == s@,
            buf@ + escaped(v@.skip(i as int), short) == start + escaped(v@, short),
        decreases v@.len() - i,
    {
        let ghost rest = v@.skip(i as int);
        let ghost before = buf@;
        push_escaped(buf, v[i], short);
        proof {
            assert(rest.drop_first() =~= v@.skip(i + 1));
            assert(buf@ + escaped(v@.skip(i + 1), short) =~= before + (escaped_char(rest[0], short)
                + escaped(rest.drop_first(), short)));
        }
        i += 1;
    }
    assert(v@.skip(i as int) =~= Seq::<char>::empty());
    assert(buf@ =~= start + escaped(s@, short));
}

/// A text as it stands inside a JSON string, every control character without a short form
/// but line feed, carriage return and tab written by its number.
pub fn json_escape(s: &str) -> (r: String)
    ensures
        r@ == escaped(s@, false),
{
    let mut out = String::new();
    escape_into(s, &mut out, false);
    assert(out@ =~= escaped(s@, false));
    out
}

/// Writes a text as it stands inside a JSON string, with all short forms.
pub fn json_escape_into(s: &str, buf: &mut String)
    ensures
        final(buf)@ == old(buf)@ + escaped(s@, true),
{
    escape_into(s, buf, true);
}

/// The value of a hexadecimal digit in lower case.
pub open spec fn digit_value(c: char) -> Option<int> {
    if '0' <= c && c <= '9' {
        Some(c as u32 - '0' as u32)
    } else if 'a' <= c && c <= 'f' {
        Some(c as u32 - 'a' as u32 + 10)
    } else {
        None
    }
}

/// The character that an escape of four digits stands for, where it is under 256.
pub open spec fn numbered_char(t: Seq<char>) -> Option<char> {
    match (digit_value(t[2]), digit_value(t[3]), digit_value(t[4]), digit_value(t[5])) {
        (Some(a), Some(b), Some(x), Some(y)) => if a == 0 && b == 0 {
            Some((x * 16 + y) as u32 as char)
        } else {
            None
        },
        _ => None,
    }
}

/// The text that stands inside a JSON string; nothing where the string would end too
/// early, holds a bare control character, or has an escape that is not known here.
pub open spec fn unescaped(t: Seq<char>) -> Option<Seq<char>>
    decreases t.len(),
{
    if t.len() == 0 {
        Some(Seq::empty())
    } else if t[0] == '\\' {
        if t.len() < 2 {
            None
        } else if t[1] == 'u' {
            if t.len() < 6 {
                None
            } else {
                after_char(numbered_char(t), unescaped(t.skip(6)))
            }
        } else {
            after_char(
                if t[1] == '"' || t[1] == '\\' {
                    Some(t[1])
                } else if t[1] == 'n' {
                    Some('\n')
                } else if t[1] == 'r' {
                    Some('\r')
                } else if t[1] == 't' {
                    Some('\t')
                } else if t[1] == 'b' {
                    Some(8u32 as char)
                } else if t[1] == 'f' {
                    Some(12u32 as char)
                } else {
                    None
                },
                unescaped(t.skip(2)),
            )
        }
    } else if t[0] == '"' || (t[0] as u32) < 0x20 {
        None
    } else {
        after_char(Some(t[0]), unescaped(t.skip(1)))
    }
}

/// A character and the text behind it.
pub open spec fn after_char(c: Option<char>, rest: Option<Seq<char>>) -> Option<Seq<char>> {
    match (c, rest) {
        (Some(c), Some(r)) => Some(seq![c] + r),
        _ => None,
    }
}

/// An escaped text can stand inside a JSON string, and means the text that it was made
/// from.
pub proof fn escaped_text_round_trip(s: Seq<char>, short: bool)
    ensures
        unescaped(escaped(s, short)) == Some(s),
    decreases s.len(),
{
    let t = escaped(s, short);
    if s.len() == 0 {
        assert(s =~= Seq::<char>::empty());
    } else {
        let c = s[0];
        let rest = s.drop_first();
        let e = escaped_char(c, short);
        escaped_text_round_trip(rest, short);
        let u = escaped(rest, short);
        assert(t =~= e + u);
        assert(t.skip(e.len() as int) =~= u);
        assert(seq![c] + rest =~= s);
        assert(t[0] == e[0]);
        vstd::utf8::char_u32_cast(c, c as u32);
        if e.len() >= 2 {
            assert(t[1] == e[1]);
        }
        if e.len() == 6 {
            let n = c as u32 as int;
            assert(t[2] == e[2] && t[3] == e[3] && t[4] == e[4] && t[5] == e[5]);
            assert(digit_value(digit(n / 16)) == Some(n / 16));
            assert(digit_value(digit(n % 16)) == Some(n % 16));
            assert(n / 16 * 16 + n % 16 == n);
            assert(numbered_char(t) == Some(c));
        }
    }
}

/// An escaped text has no bare line feed, so that it stays on its line.
pub proof fn escaped_text_has_no_line_feed(s: Seq<char>, short: bool)
    ensures
        crate::text_laws::lacks(escaped(s, short), '\n'),
    decreases s.len(),
{
    if s.len() > 0 {
        escaped_text_has_no_line_feed(s.drop_first(), short);
    }
}

} // verus!
