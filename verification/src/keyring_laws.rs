//! A ring that was saved is the ring that is loaded.
use vstd::prelude::*;
use vstd::utf8::encode_utf8;

use crate::crypto::{unseal, OpenError};
use crate::hex::{hex, hex_round_trip, unhex_agrees};
use crate::keyring::{wrap_aad, wrapped_under, Dek, Ring};
use crate::keyring_file::{
    blank_row, file_of, head_fields, key_fields, key_objects, load_ring, parse_ring_text, ring_text,
    row_text, rows_text, unwrap_rows, KeyRow, KeyringError, LayoutError, RingFile,
};
use crate::text::{
    dec, is_digit, lemma_find_is, lemma_rfind_is, lines, split, starts, trim, trim_end_of,
    trim_start_of, utf8, utf8_round_trip,
};
use crate::text_laws::{
    blank, find_str_behind, lacks, lines_of_line_and_rest, number_of_dec, split_of_one_piece,
    split_of_piece_and_rest, trim_end_of_one, trim_of_padded,
};

verus! {

/// Whether a character is one that hexadecimal and decimal numbers are written with.
pub open spec fn is_hex_char(c: char) -> bool {
    is_digit(c) || ('a' <= c && c <= 'f') || ('A' <= c && c <= 'F')
}

/// Whether a text is written with such characters alone.
pub open spec fn is_hex_text(s: Seq<char>) -> bool {
    forall|i: int| 0 <= i < s.len() ==> is_hex_char(#[trigger] s[i])
}

proof fn lemma_dec_is_hex(n: nat)
    ensures
        is_hex_text(dec(n)),
        dec(n).len() > 0,
{
    number_of_dec(n, n);
}

proof fn lemma_hex_is_hex(b: Seq<u8>)
    ensures
        is_hex_text(hex(b)),
{
}

/// A line that does not begin with a quotation mark sets nothing.
proof fn lemma_head_skips(l: Seq<char>, rest: Seq<Seq<char>>, v: u32, c: u32, m: Seq<char>)
    requires
        trim_end_of(trim(l), ',') == m,
        m.len() > 0,
        m[0] != '"',
    ensures
        head_fields(seq![l] + rest, v, c) == head_fields(rest, v, c),
{
    reveal_strlit("\"format_version\":");
    reveal_strlit("\"current_id\":");
    let ls = seq![l] + rest;
    assert(ls.drop_first() =~= rest);
    let p = "\"format_version\":"@;
    let q = "\"current_id\":"@;
    if starts(m, p) {
        assert(m.take(p.len() as int)[0] == p[0]);
    }
    if starts(m, q) {
        assert(m.take(q.len() as int)[0] == q[0]);
    }
}

/// The text of a key without the braces.
spec fn row_body(k: KeyRow) -> Seq<char> {
    "\"id\": "@ + dec(k.id as nat) + ", \"created_at_unix_ms\": "@ + dec(k.created as nat)
        + ", \"wrapped_dek_hex\": \""@ + k.wrapped_hex + "\""@
}

proof fn lemma_row_text(k: KeyRow)
    ensures
        row_text(k) == "    {"@ + row_body(k) + "}"@,
{
    assert(row_text(k) =~= "    {"@ + row_body(k) + "}"@);
}

/// The body of a key has no braces and no line feeds.
proof fn lemma_row_body(k: KeyRow)
    requires
        is_hex_text(k.wrapped_hex),
    ensures
        lacks(row_body(k), '{'),
        lacks(row_body(k), '}'),
        lacks(row_body(k), '\n'),
{
    reveal_strlit("\"id\": ");
    reveal_strlit(", \"created_at_unix_ms\": ");
    reveal_strlit(", \"wrapped_dek_hex\": \"");
    reveal_strlit("\"");
    lemma_dec_is_hex(k.id as nat);
    lemma_dec_is_hex(k.created as nat);
    let a = "\"id\": "@;
    let b = ", \"created_at_unix_ms\": "@;
    let c = ", \"wrapped_dek_hex\": \""@;
    let d = "\""@;
    let d1 = dec(k.id as nat);
    let d2 = dec(k.created as nat);
    lemma_plain_literal(a);
    lemma_plain_literal(b);
    lemma_plain_literal(c);
    lemma_plain_literal(d);
    assert(lacks(d1, '{') && lacks(d1, '}') && lacks(d1, '\n')) by {
        assert(forall|i: int| 0 <= i < d1.len() ==> is_hex_char(#[trigger] d1[i]));
    }
    assert(lacks(d2, '{') && lacks(d2, '}') && lacks(d2, '\n')) by {
        assert(forall|i: int| 0 <= i < d2.len() ==> is_hex_char(#[trigger] d2[i]));
    }
    let h = k.wrapped_hex;
    assert(lacks(h, '{') && lacks(h, '}') && lacks(h, '\n')) by {
        assert(forall|i: int| 0 <= i < h.len() ==> is_hex_char(#[trigger] h[i]));
    }
}

proof fn lemma_plain_literal(s: Seq<char>)
    requires
        s == "\"id\": "@ || s == ", \"created_at_unix_ms\": "@ || s == ", \"wrapped_dek_hex\": \""@
            || s == "\""@,
    ensures
        lacks(s, '{'),
        lacks(s, '}'),
        lacks(s, '\n'),
{
    reveal_strlit("\"id\": ");
    reveal_strlit(", \"created_at_unix_ms\": ");
    reveal_strlit(", \"wrapped_dek_hex\": \"");
    reveal_strlit("\"");
}

/// The three fields of a key.
spec fn field_id(k: KeyRow) -> Seq<char> {
    "\"id\": "@ + dec(k.id as nat)
}

spec fn field_created(k: KeyRow) -> Seq<char> {
    " \"created_at_unix_ms\": "@ + dec(k.created as nat)
}

spec fn field_hex(k: KeyRow) -> Seq<char> {
    " \"wrapped_dek_hex\": \""@ + k.wrapped_hex + "\""@
}

/// The body of a key splits into its three fields.
proof fn lemma_row_fields(k: KeyRow)
    requires
        is_hex_text(k.wrapped_hex),
    ensures
        split(row_body(k), ',') == seq![field_id(k), field_created(k), field_hex(k)],
{
    reveal_strlit("\"id\": ");
    reveal_strlit(", \"created_at_unix_ms\": ");
    reveal_strlit(" \"created_at_unix_ms\": ");
    reveal_strlit(", \"wrapped_dek_hex\": \"");
    reveal_strlit(" \"wrapped_dek_hex\": \"");
    reveal_strlit("\"");
    lemma_dec_is_hex(k.id as nat);
    lemma_dec_is_hex(k.created as nat);
    let d1 = dec(k.id as nat);
    let d2 = dec(k.created as nat);
    let h = k.wrapped_hex;
    assert(forall|i: int| 0 <= i < d1.len() ==> is_hex_char(#[trigger] d1[i]));
    assert(forall|i: int| 0 <= i < d2.len() ==> is_hex_char(#[trigger] d2[i]));
    assert(forall|i: int| 0 <= i < h.len() ==> is_hex_char(#[trigger] h[i]));
    assert(", \"created_at_unix_ms\": "@ =~= seq![','] + " \"created_at_unix_ms\": "@);
    assert(", \"wrapped_dek_hex\": \""@ =~= seq![','] + " \"wrapped_dek_hex\": \""@);
    assert(lacks("\"id\": "@, ','));
    assert(lacks(" \"created_at_unix_ms\": "@, ','));
    assert(lacks(" \"wrapped_dek_hex\": \""@, ','));
    assert(lacks("\""@, ','));
    assert(lacks(field_id(k), ','));
    assert(lacks(field_created(k), ','));
    assert(lacks(field_hex(k), ','));
    let rest = field_created(k) + seq![','] + field_hex(k);
    assert(row_body(k) =~= field_id(k) + seq![','] + rest);
    split_of_piece_and_rest(field_id(k), ',', rest);
    split_of_piece_and_rest(field_created(k), ',', field_hex(k));
    split_of_one_piece(field_hex(k), ',');
    assert(seq![field_id(k)] + (seq![field_created(k)] + seq![field_hex(k)]) =~= seq![
        field_id(k),
        field_created(k),
        field_hex(k),
    ]);
}

proof fn lemma_field_id(k: KeyRow, rest: Seq<Seq<char>>, row: KeyRow)
    ensures
        key_fields(seq![field_id(k)] + rest, row) == key_fields(rest, KeyRow { id: k.id, ..row }),
{
    reveal_strlit("\"id\": ");
    reveal_strlit("\"id\":");
    reveal_strlit(" ");
    let d = dec(k.id as nat);
    number_of_dec(k.id as nat, u32::MAX as nat);
    let f = field_id(k);
    let fs = seq![f] + rest;
    assert(fs.drop_first() =~= rest);
    assert(f.last() == d.last());
    trim_of_padded(Seq::empty(), f, Seq::empty());
    assert(Seq::<char>::empty() + f + Seq::<char>::empty() =~= f);
    let p = "\"id\":"@;
    assert(f.take(p.len() as int) =~= p);
    assert(f.skip(p.len() as int) =~= seq![' '] + d);
    trim_of_padded(seq![' '], d, Seq::empty());
    assert(seq![' '] + d + Seq::<char>::empty() =~= seq![' '] + d);
}

proof fn lemma_field_created(k: KeyRow, rest: Seq<Seq<char>>, row: KeyRow)
    ensures
        key_fields(seq![field_created(k)] + rest, row) == key_fields(
            rest,
            KeyRow { created: k.created, ..row },
        ),
{
    reveal_strlit(" \"created_at_unix_ms\": ");
    reveal_strlit("\"created_at_unix_ms\":");
    reveal_strlit("\"created_at_unix_ms\": ");
    reveal_strlit("\"id\":");
    let d = dec(k.created as nat);
    number_of_dec(k.created as nat, u64::MAX as nat);
    let f = field_created(k);
    let fs = seq![f] + rest;
    assert(fs.drop_first() =~= rest);
    let t = "\"created_at_unix_ms\": "@ + d;
    assert(f =~= seq![' '] + t + Seq::<char>::empty());
    assert(t.last() == d.last());
    trim_of_padded(seq![' '], t, Seq::empty());
    let q = "\"id\":"@;
    assert(t.take(q.len() as int)[1] != q[1]);
    let p = "\"created_at_unix_ms\":"@;
    assert(t.take(p.len() as int) =~= p);
    assert(t.skip(p.len() as int) =~= seq![' '] + d);
    trim_of_padded(seq![' '], d, Seq::empty());
    assert(seq![' '] + d + Seq::<char>::empty() =~= seq![' '] + d);
}

proof fn lemma_field_hex(k: KeyRow, rest: Seq<Seq<char>>, row: KeyRow)
    requires
        is_hex_text(k.wrapped_hex),
    ensures
        key_fields(seq![field_hex(k)] + rest, row) == key_fields(
            rest,
            KeyRow { wrapped_hex: k.wrapped_hex, ..row },
        ),
{
    reveal_strlit(" \"wrapped_dek_hex\": \"");
    reveal_strlit("\"wrapped_dek_hex\": ");
    reveal_strlit("\"wrapped_dek_hex\":");
    reveal_strlit("\"created_at_unix_ms\":");
    reveal_strlit("\"id\":");
    reveal_strlit("\"");
    let h = k.wrapped_hex;
    let f = field_hex(k);
    let fs = seq![f] + rest;
    assert(fs.drop_first() =~= rest);
    let v = seq!['"'] + h + seq!['"'];
    let t = "\"wrapped_dek_hex\": "@ + v;
    assert(f =~= seq![' '] + t + Seq::<char>::empty());
    assert(t.last() == '"');
    trim_of_padded(seq![' '], t, Seq::empty());
    let q = "\"id\":"@;
    assert(t.take(q.len() as int)[1] != q[1]);
    let c = "\"created_at_unix_ms\":"@;
    assert(t.take(c.len() as int)[1] != c[1]);
    let p = "\"wrapped_dek_hex\":"@;
    assert(t.take(p.len() as int) =~= p);
    assert(t.skip(p.len() as int) =~= seq![' '] + v);
    trim_of_padded(seq![' '], v, Seq::empty());
    assert(seq![' '] + v + Seq::<char>::empty() =~= seq![' '] + v);
    // The quotation marks go.
    let u = h.push('"');
    assert(v.drop_first() =~= u);
    assert(v[0] == '"');
    assert(trim_start_of(v, '"') == trim_start_of(u, '"'));
    if h.len() > 0 {
        assert(is_hex_char(h[0]));
        assert(is_hex_char(h[h.len() - 1]));
        assert(u[0] == h[0]);
        assert(trim_start_of(u, '"') == u);
        trim_end_of_one(h, '"');
    } else {
        assert(u.drop_first() =~= h);
        assert(trim_start_of(h, '"') == h);
        assert(trim_start_of(u, '"') == h);
        trim_end_of_one(h, '"');
    }
}

/// The fields of a key give the key.
proof fn lemma_row_is_read(k: KeyRow)
    requires
        is_hex_text(k.wrapped_hex),
    ensures
        key_fields(split(row_body(k), ','), blank_row()) == Ok::<KeyRow, LayoutError>(k),
{
    lemma_row_fields(k);
    let none = Seq::<Seq<char>>::empty();
    let f1 = seq![field_created(k)] + (seq![field_hex(k)] + none);
    let r0 = blank_row();
    let r1 = KeyRow { id: k.id, ..r0 };
    let r2 = KeyRow { created: k.created, ..r1 };
    assert(seq![field_id(k), field_created(k), field_hex(k)] =~= seq![field_id(k)] + f1);
    lemma_field_id(k, f1, r0);
    lemma_field_created(k, seq![field_hex(k)] + none, r1);
    lemma_field_hex(k, none, r2);
}

/// The rows between the brackets are read as the keys.
#[verifier::spinoff_prover]
#[verifier::rlimit(60)]
proof fn lemma_rows_are_read(p: Seq<char>, keys: Seq<KeyRow>, q: Seq<char>)
    requires
        lacks(p, '{'),
        lacks(p, '}'),
        lacks(q, '}'),
        forall|i: int| 0 <= i < keys.len() ==> is_hex_text((#[trigger] keys[i]).wrapped_hex),
    ensures
        key_objects(p + rows_text(keys) + q) == Ok::<Seq<KeyRow>, LayoutError>(keys),
    decreases keys.len(),
{
    let s = p + rows_text(keys) + q;
    if keys.len() == 0 {
        assert(lacks(s, '}'));
        lemma_find_is(s, '}', s.len() as int);
        assert(keys =~= Seq::<KeyRow>::empty());
    } else {
        reveal_strlit("    {");
        reveal_strlit("}");
        reveal_strlit(",\n");
        reveal_strlit("\n");
        let k = keys[0];
        let more = keys.drop_first();
        let b = row_body(k);
        assert(is_hex_text(keys[0].wrapped_hex));
        lemma_row_text(k);
        lemma_row_body(k);
        let sep = if keys.len() > 1 {
            ",\n"@
        } else {
            "\n"@
        };
        let open = "    {"@;
        let chunk = p + open + b;
        let tail = sep + rows_text(more) + q;
        assert(s =~= chunk + seq!['}'] + tail);
        let n = chunk.len() as int;
        assert(lacks(open, '}'));
        assert(lacks(chunk, '}'));
        assert(s[n] == '}');
        assert forall|j: int| 0 <= j < n implies s[j] != '}' by {
            assert(s[j] == chunk[j]);
        }
        lemma_find_is(s, '}', n);
        assert(s.take(n) =~= chunk);
        assert(s.skip(n + 1) =~= tail);
        let o = p.len() as int + 4;
        assert(chunk[o] == '{');
        assert forall|j: int| 0 <= j < o implies chunk[j] != '{' by {
            if j < p.len() {
                assert(chunk[j] == p[j]);
            }
        }
        lemma_find_is(chunk, '{', o);
        assert(chunk.skip(o + 1) =~= b);
        lemma_row_is_read(k);
        assert forall|i: int| 0 <= i < more.len() implies is_hex_text(
            (#[trigger] more[i]).wrapped_hex,
        ) by {
            assert(more[i] == keys[i + 1]);
        }
        assert(lacks(sep, '{') && lacks(sep, '}'));
        lemma_rows_are_read(sep, more, q);
        assert(seq![k] + more =~= keys);
    }
}

/// The lines of rows set nothing in the head.
proof fn lemma_rows_set_nothing(keys: Seq<KeyRow>, tail: Seq<char>, v: u32, c: u32)
    requires
        forall|i: int| 0 <= i < keys.len() ==> is_hex_text((#[trigger] keys[i]).wrapped_hex),
    ensures
        head_fields(lines(rows_text(keys) + tail), v, c) == head_fields(lines(tail), v, c),
    decreases keys.len(),
{
    if keys.len() == 0 {
        assert(rows_text(keys) + tail =~= tail);
    } else {
        reveal_strlit("    {");
        reveal_strlit("}");
        reveal_strlit(",\n");
        reveal_strlit("\n");
        let k = keys[0];
        let more = keys.drop_first();
        let b = row_body(k);
        assert(is_hex_text(keys[0].wrapped_hex));
        lemma_row_text(k);
        lemma_row_body(k);
        let inner = seq!['{'] + b + seq!['}'];
        let comma = keys.len() > 1;
        let m = if comma {
            inner.push(',')
        } else {
            inner
        };
        let pad = seq![' ', ' ', ' ', ' '];
        let line = pad + m;
        let rest = rows_text(more) + tail;
        assert("    {"@ =~= pad + seq!['{']);
        assert("}"@ =~= seq!['}']);
        assert(rows_text(keys) + tail =~= line + seq!['\n'] + rest);
        assert(lacks(line, '\n'));
        assert(line.last() == m.last());
        lines_of_line_and_rest(line, rest);
        assert(blank(pad));
        assert(m[0] == '{');
        assert(inner.last() == '}');
        trim_of_padded(pad, m, Seq::empty());
        assert(pad + m + Seq::<char>::empty() =~= line);
        trim_end_of_one(inner, ',');
        lemma_head_skips(line, lines(rest), v, c, inner);
        assert forall|i: int| 0 <= i < more.len() implies is_hex_text(
            (#[trigger] more[i]).wrapped_hex,
        ) by {
            assert(more[i] == keys[i + 1]);
        }
        lemma_rows_set_nothing(more, tail, v, c);
    }
}

/// The line of the version sets it.
proof fn lemma_version_line(n: u32, rest: Seq<char>, v: u32, c: u32)
    ensures
        head_fields(
            lines("  \"format_version\": "@ + dec(n as nat) + ",\n"@ + rest),
            v,
            c,
        ) == head_fields(lines(rest), n, c),
{
    reveal_strlit("  \"format_version\": ");
    reveal_strlit("\"format_version\": ");
    reveal_strlit("\"format_version\":");
    reveal_strlit(",\n");
    let d = dec(n as nat);
    number_of_dec(n as nat, u32::MAX as nat);
    assert(forall|i: int| 0 <= i < d.len() ==> is_digit(#[trigger] d[i]));
    let pad = seq![' ', ' '];
    let t = "\"format_version\": "@ + d;
    let m = t.push(',');
    let line = pad + m;
    assert(lacks(line, '\n')) by {
        assert forall|i: int| 0 <= i < line.len() implies line[i] != '\n' by {
            let a = 2 + "\"format_version\": "@.len() as int;
            if a <= i < a + d.len() {
                assert(line[i] == d[i - a]);
            }
        }
    }
    assert("  \"format_version\": "@ + d + ",\n"@ + rest =~= line + seq!['\n'] + rest);
    lines_of_line_and_rest(line, rest);
    trim_of_padded(pad, m, Seq::empty());
    assert(pad + m + Seq::<char>::empty() =~= line);
    assert(t.last() == d.last());
    assert(is_digit(d[d.len() - 1]));
    trim_end_of_one(t, ',');
    let ls = seq![line] + lines(rest);
    assert(ls.drop_first() =~= lines(rest));
    let p = "\"format_version\":"@;
    assert(t.take(p.len() as int) =~= p);
    assert(t.skip(p.len() as int) =~= seq![' '] + d);
    trim_of_padded(seq![' '], d, Seq::empty());
    assert(seq![' '] + d + Seq::<char>::empty() =~= seq![' '] + d);
}

/// The line of the current key sets it.
proof fn lemma_current_line(n: u32, rest: Seq<char>, v: u32, c: u32)
    ensures
        head_fields(
            lines("  \"current_id\": "@ + dec(n as nat) + ",\n"@ + rest),
            v,
            c,
        ) == head_fields(lines(rest), v, n),
{
    reveal_strlit("  \"current_id\": ");
    reveal_strlit("\"current_id\": ");
    reveal_strlit("\"current_id\":");
    reveal_strlit("\"format_version\":");
    reveal_strlit(",\n");
    let d = dec(n as nat);
    number_of_dec(n as nat, u32::MAX as nat);
    assert(forall|i: int| 0 <= i < d.len() ==> is_digit(#[trigger] d[i]));
    let pad = seq![' ', ' '];
    let t = "\"current_id\": "@ + d;
    let m = t.push(',');
    let line = pad + m;
    assert(lacks(line, '\n')) by {
        assert forall|i: int| 0 <= i < line.len() implies line[i] != '\n' by {
            let a = 2 + "\"current_id\": "@.len() as int;
            if a <= i < a + d.len() {
                assert(line[i] == d[i - a]);
            }
        }
    }
    assert("  \"current_id\": "@ + d + ",\n"@ + rest =~= line + seq!['\n'] + rest);
    lines_of_line_and_rest(line, rest);
    trim_of_padded(pad, m, Seq::empty());
    assert(pad + m + Seq::<char>::empty() =~= line);
    assert(t.last() == d.last());
    assert(is_digit(d[d.len() - 1]));
    trim_end_of_one(t, ',');
    let ls = seq![line] + lines(rest);
    assert(ls.drop_first() =~= lines(rest));
    let q = "\"format_version\":"@;
    if starts(t, q) {
        assert(t.take(q.len() as int)[1] == q[1]);
    }
    let p = "\"current_id\":"@;
    assert(t.take(p.len() as int) =~= p);
    assert(t.skip(p.len() as int) =~= seq![' '] + d);
    trim_of_padded(seq![' '], d, Seq::empty());
    assert(seq![' '] + d + Seq::<char>::empty() =~= seq![' '] + d);
}

/// The end of the file.
spec fn file_end() -> Seq<char> {
    "  ]\n"@ + "}\n"@
}

/// The last lines set nothing.
proof fn lemma_end_sets_nothing(v: u32, c: u32)
    ensures
        head_fields(lines(file_end()), v, c) == Ok::<(u32, u32), LayoutError>((v, c)),
{
    reveal_strlit("  ]\n");
    reveal_strlit("}\n");
    let pad = seq![' ', ' '];
    let m = seq![']'];
    let last = seq!['}'];
    let none = Seq::<char>::empty();
    assert(file_end() =~= (pad + m) + seq!['\n'] + "}\n"@);
    lines_of_line_and_rest(pad + m, "}\n"@);
    trim_of_padded(pad, m, none);
    assert(pad + m + none =~= pad + m);
    trim_end_of_one(m, ',');
    lemma_head_skips(pad + m, lines("}\n"@), v, c, m);
    assert("}\n"@ =~= last + seq!['\n'] + none);
    lines_of_line_and_rest(last, none);
    trim_of_padded(none, last, none);
    assert(none + last + none =~= last);
    trim_end_of_one(last, ',');
    lemma_head_skips(last, lines(none), v, c, last);
    assert(lines(none) =~= Seq::<Seq<char>>::empty());
}

/// What follows the head.
spec fn file_keys(keys: Seq<KeyRow>) -> Seq<char> {
    "\"keys\": [\n"@ + rows_text(keys) + file_end()
}

/// The line that begins the keys sets nothing.
proof fn lemma_keys_line(keys: Seq<KeyRow>, v: u32, c: u32)
    requires
        forall|i: int| 0 <= i < keys.len() ==> is_hex_text((#[trigger] keys[i]).wrapped_hex),
    ensures
        head_fields(lines(seq![' ', ' '] + file_keys(keys)), v, c) == Ok::<(u32, u32), LayoutError>(
            (v, c),
        ),
{
    reveal_strlit("\"keys\": [\n");
    reveal_strlit("\"keys\": [");
    reveal_strlit("\"format_version\":");
    reveal_strlit("\"current_id\":");
    let pad = seq![' ', ' '];
    let m = "\"keys\": ["@;
    let line = pad + m;
    let rest = rows_text(keys) + file_end();
    assert(pad + file_keys(keys) =~= line + seq!['\n'] + rest);
    assert(lacks(m, '\n'));
    assert(lacks(line, '\n'));
    lines_of_line_and_rest(line, rest);
    trim_of_padded(pad, m, Seq::empty());
    assert(pad + m + Seq::<char>::empty() =~= line);
    trim_end_of_one(m, ',');
    let ls = seq![line] + lines(rest);
    assert(ls.drop_first() =~= lines(rest));
    let p = "\"format_version\":"@;
    let q = "\"current_id\":"@;
    if starts(m, p) {
        assert(m.take(p.len() as int)[1] == p[1]);
    }
    if starts(m, q) {
        assert(m.take(q.len() as int)[1] == q[1]);
    }
    lemma_rows_set_nothing(keys, file_end(), v, c);
    lemma_end_sets_nothing(v, c);
}

/// The head of the file.
spec fn file_head(f: RingFile) -> Seq<char> {
    "{\n"@ + "  \"format_version\": "@ + dec(f.version as nat) + ",\n"@ + "  \"current_id\": "@ + dec(
        f.current as nat,
    ) + ",\n"@ + seq![' ', ' ']
}

proof fn lemma_head_and_keys(f: RingFile)
    ensures
        ring_text(f) == file_head(f) + file_keys(f.keys),
{
    reveal_strlit("\"keys\": [\n");
    reveal_strlit("  \"keys\": [\n");
    assert("  \"keys\": [\n"@ =~= seq![' ', ' '] + "\"keys\": [\n"@);
    assert(ring_text(f) =~= file_head(f) + file_keys(f.keys));
}

/// The head of the file gives the version and the current key.
proof fn lemma_head_is_read(f: RingFile)
    requires
        forall|i: int| 0 <= i < f.keys.len() ==> is_hex_text((#[trigger] f.keys[i]).wrapped_hex),
    ensures
        head_fields(lines(ring_text(f)), 0, 0) == Ok::<(u32, u32), LayoutError>(
            (f.version, f.current),
        ),
{
    reveal_strlit("{\n");
    lemma_head_and_keys(f);
    let first = seq!['{'];
    let none = Seq::<char>::empty();
    let r3 = seq![' ', ' '] + file_keys(f.keys);
    let r2 = "  \"current_id\": "@ + dec(f.current as nat) + ",\n"@ + r3;
    let r1 = "  \"format_version\": "@ + dec(f.version as nat) + ",\n"@ + r2;
    assert(ring_text(f) =~= first + seq!['\n'] + r1);
    lines_of_line_and_rest(first, r1);
    trim_of_padded(none, first, none);
    assert(none + first + none =~= first);
    trim_end_of_one(first, ',');
    lemma_head_skips(first, lines(r1), 0, 0, first);
    lemma_version_line(f.version, r2, 0, 0);
    lemma_current_line(f.current, r3, f.version, 0);
    lemma_keys_line(f.keys, f.version, f.current);
}

/// Whether no quotation mark has a `k` behind it, and none stands at the end.
spec fn no_quoted_k(s: Seq<char>) -> bool {
    forall|j: int| 0 <= j < s.len() && #[trigger] s[j] == '"' ==> j + 1 < s.len() && s[j + 1] != 'k'
}

proof fn lemma_no_quoted_k_join(a: Seq<char>, b: Seq<char>)
    requires
        no_quoted_k(a),
        no_quoted_k(b),
    ensures
        no_quoted_k(a + b),
{
    let s = a + b;
    assert forall|j: int| 0 <= j < s.len() && #[trigger] s[j] == '"' implies j + 1 < s.len() && s[j + 1]
        != 'k' by {
        if j < a.len() {
            assert(a[j] == '"');
            assert(s[j + 1] == a[j + 1]);
        } else {
            assert(b[j - a.len()] == '"');
            assert(s[j + 1] == b[j - a.len() + 1]);
        }
    }
}

proof fn lemma_head_no_quoted_k(f: RingFile)
    ensures
        no_quoted_k(file_head(f)),
{
    reveal_strlit("{\n");
    reveal_strlit("  \"format_version\": ");
    reveal_strlit("  \"current_id\": ");
    reveal_strlit(",\n");
    let d1 = dec(f.version as nat);
    let d2 = dec(f.current as nat);
    lemma_dec_is_hex(f.version as nat);
    lemma_dec_is_hex(f.current as nat);
    assert(no_quoted_k(d1)) by {
        assert(forall|i: int| 0 <= i < d1.len() ==> is_hex_char(#[trigger] d1[i]));
    }
    assert(no_quoted_k(d2)) by {
        assert(forall|i: int| 0 <= i < d2.len() ==> is_hex_char(#[trigger] d2[i]));
    }
    let a = "{\n"@;
    let b = "  \"format_version\": "@;
    let c = ",\n"@;
    let d = "  \"current_id\": "@;
    let e = seq![' ', ' '];
    assert(no_quoted_k(a));
    assert(no_quoted_k(b));
    assert(no_quoted_k(c));
    assert(no_quoted_k(d));
    assert(no_quoted_k(e));
    lemma_no_quoted_k_join(a, b);
    lemma_no_quoted_k_join(a + b, d1);
    lemma_no_quoted_k_join(a + b + d1, c);
    lemma_no_quoted_k_join(a + b + d1 + c, d);
    lemma_no_quoted_k_join(a + b + d1 + c + d, d2);
    lemma_no_quoted_k_join(a + b + d1 + c + d + d2, c);
    lemma_no_quoted_k_join(a + b + d1 + c + d + d2 + c, e);
}

/// A ring's text says of the ring what it was written from, in whichever case its digits are.
pub proof fn ring_text_round_trip(f: RingFile)
    requires
        forall|i: int| 0 <= i < f.keys.len() ==> is_hex_text((#[trigger] f.keys[i]).wrapped_hex),
    ensures
        parse_ring_text(ring_text(f)) == Ok::<RingFile, LayoutError>(f),
{
    lemma_head_is_read(f);
    lemma_head_and_keys(f);
    lemma_head_no_quoted_k(f);
    reveal_strlit("\"keys\":");
    reveal_strlit("\"keys\": [\n");
    reveal_strlit("  ]\n");
    reveal_strlit("}\n");
    let h = file_head(f);
    let k = file_keys(f.keys);
    let s = ring_text(f);
    let p = "\"keys\":"@;
    assert(k.take(p.len() as int) =~= p);
    assert forall|j: int| 0 <= j < h.len() implies !starts(#[trigger] (h + k).skip(j), p) by {
        let t = (h + k).skip(j);
        if starts(t, p) {
            assert(t.take(p.len() as int)[0] == t[0]);
            assert(t.take(p.len() as int)[1] == t[1]);
            assert(t[0] == h[j]);
            assert(h[j] == '"');
            assert(t[1] == h[j + 1]);
        }
    }
    find_str_behind(h, k, p);
    assert(s.skip(h.len() as int) =~= k);
    assert(k[8] == '[');
    assert forall|j: int| 0 <= j < 8 implies k[j] != '[' by {
        assert(k[j] == "\"keys\": [\n"@[j]);
    }
    lemma_find_is(k, '[', 8);
    let e = k.len() - 4;
    assert(k[e] == ']');
    assert forall|j: int| e < j < k.len() implies k[j] != ']' by {
        assert(k[j] == file_end()[j - (k.len() - 6)]);
    }
    lemma_rfind_is(k, ']', e);
    let a = seq!['\n'];
    let q = seq![' ', ' '];
    assert(k.subrange(9, e) =~= a + rows_text(f.keys) + q);
    lemma_rows_are_read(a, f.keys, q);
}

proof fn lemma_rows_unwrap(deks: Seq<Dek>, rows: Seq<KeyRow>, kek: Seq<u8>)
    requires
        rows.len() == deks.len(),
        forall|i: int|
            0 <= i < deks.len() ==> (#[trigger] rows[i]) == (KeyRow {
                id: deks[i].id,
                created: deks[i].created,
                wrapped_hex: hex(deks[i].wrapped),
            }),
        forall|i: int|
            0 <= i < deks.len() ==> {
                &&& (#[trigger] deks[i]).key.len() == 32
                &&& deks[i].wrapped.len() == 60
                &&& unseal(kek, wrap_aad(deks[i].id), deks[i].wrapped) == Ok::<Seq<u8>, OpenError>(
                    deks[i].key,
                )
            },
    ensures
        unwrap_rows(rows, kek) == Ok::<Seq<Dek>, KeyringError>(deks),
    decreases deks.len(),
{
    if deks.len() == 0 {
        assert(deks =~= Seq::<Dek>::empty());
    } else {
        let d = deks.last();
        let n = deks.len() - 1;
        let t = deks.drop_last();
        let u = rows.drop_last();
        assert forall|i: int| 0 <= i < t.len() implies (#[trigger] u[i]) == (KeyRow {
            id: t[i].id,
            created: t[i].created,
            wrapped_hex: hex(t[i].wrapped),
        }) by {
            assert(u[i] == rows[i]);
        }
        assert forall|i: int| 0 <= i < t.len() implies {
            &&& (#[trigger] t[i]).key.len() == 32
            &&& t[i].wrapped.len() == 60
            &&& unseal(kek, wrap_aad(t[i].id), t[i].wrapped) == Ok::<Seq<u8>, OpenError>(t[i].key)
        } by {
            assert(t[i] == deks[i]);
        }
        lemma_rows_unwrap(t, u, kek);
        assert(rows[n] == rows.last());
        assert(deks[n].key.len() == 32);
        hex_round_trip(d.wrapped);
        lemma_hex_len(d.wrapped);
        unhex_agrees(encode_utf8(hex(d.wrapped)), Ok(d.wrapped));
        assert(t.push(d) =~= deks);
    }
}

proof fn lemma_hex_len(b: Seq<u8>)
    ensures
        encode_utf8(hex(b)).len() == b.len() * 2,
{
    let h = hex(b);
    assert(vstd::utf8::is_ascii_chars(h));
    vstd::utf8::is_ascii_chars_encode_utf8(h);
}

/// Loading a ring that was saved gives the ring back, under the key that it is wrapped
/// with.
pub proof fn saved_ring_is_loaded(r: Ring, kek: Seq<u8>)
    requires
        r.wf(),
        wrapped_under(r, kek),
    ensures
        load_ring(utf8(ring_text(file_of(r))), kek) == Ok::<Ring, KeyringError>(r),
{
    let f = file_of(r);
    assert forall|i: int| 0 <= i < f.keys.len() implies is_hex_text(
        (#[trigger] f.keys[i]).wrapped_hex,
    ) by {
        lemma_hex_is_hex(r.deks[i].wrapped);
    }
    ring_text_round_trip(f);
    utf8_round_trip(ring_text(f));
    lemma_rows_unwrap(r.deks, f.keys, kek);
}

} // verus!
