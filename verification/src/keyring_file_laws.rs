//! What the file of a keyring says, line by line, and why one is refused.
use vstd::prelude::*;
use vstd::utf8::encode_utf8;

use crate::crypto::unseal;
use crate::hex::{unhex, HexError};
use crate::keyring::{wrap_aad, Dek, Ring};
use crate::keyring_file::{
    blank_row, file_of, head_fields, key_fields, key_objects, load_ring, parse_ring_file, parse_ring_text,
    ring_from_file, ring_text, row_text, rows_text, unwrap_row, unwrap_rows, KeyRow, KeyringError,
    LayoutError, RingFile,
};
use crate::text::{
    dec, find_str, from_utf8, lines, number, number_error, starts, trim, trim_end_of, trim_start_of,
};
use crate::text_laws::{beginnings_and_ends, lacks};

verus! {

/// The file says its version, its current key and its keys, in this order, each on lines of its own.
pub proof fn file_says_its_parts_in_order(f: RingFile)
    ensures
        ({
            let head = "{\n  \"format_version\": "@ + dec(f.version as nat) + ",\n  \"current_id\": "@ + dec(
                f.current as nat,
            ) + ",\n  \"keys\": [\n"@;
            &&& starts(ring_text(f), head)
            &&& ring_text(f) == head + rows_text(f.keys) + "  ]\n}\n"@
        }),
{
    reveal_strlit("{\n");
    reveal_strlit("  \"format_version\": ");
    reveal_strlit("{\n  \"format_version\": ");
    reveal_strlit(",\n");
    reveal_strlit("  \"current_id\": ");
    reveal_strlit(",\n  \"current_id\": ");
    reveal_strlit("  \"keys\": [\n");
    reveal_strlit(",\n  \"keys\": [\n");
    reveal_strlit("  ]\n");
    reveal_strlit("}\n");
    reveal_strlit("  ]\n}\n");
    let head = "{\n  \"format_version\": "@ + dec(f.version as nat) + ",\n  \"current_id\": "@ + dec(
        f.current as nat,
    ) + ",\n  \"keys\": [\n"@;
    assert(ring_text(f) =~= head + rows_text(f.keys) + "  ]\n}\n"@);
    assert(head + rows_text(f.keys) + "  ]\n}\n"@ =~= head + (rows_text(f.keys) + "  ]\n}\n"@));
    beginnings_and_ends(head, rows_text(f.keys) + "  ]\n}\n"@, head);
}

/// Each key is one line with its number, its time and what wraps it; a comma stands between two.
pub proof fn keys_are_lines(k: KeyRow, rest: Seq<KeyRow>)
    ensures
        row_text(k) == "    {\"id\": "@ + dec(k.id as nat) + ", \"created_at_unix_ms\": "@ + dec(
            k.created as nat,
        ) + ", \"wrapped_dek_hex\": \""@ + k.wrapped_hex + "\"}"@,
        rows_text(Seq::empty()).len() == 0,
        rows_text(seq![k]) == row_text(k) + "\n"@,
        rest.len() > 0 ==> rows_text(seq![k] + rest) == row_text(k) + ",\n"@ + rows_text(rest),
{
    reveal_strlit("    {");
    reveal_strlit("\"id\": ");
    reveal_strlit("    {\"id\": ");
    reveal_strlit("\"");
    reveal_strlit("}");
    reveal_strlit("\"}");
    assert(row_text(k) =~= "    {\"id\": "@ + dec(k.id as nat) + ", \"created_at_unix_ms\": "@ + dec(
        k.created as nat,
    ) + ", \"wrapped_dek_hex\": \""@ + k.wrapped_hex + "\"}"@);
    let one = seq![k];
    assert(one[0] == k);
    assert(one.drop_first() =~= Seq::<KeyRow>::empty());
    assert(rows_text(one.drop_first()) =~= Seq::<char>::empty());
    assert(rows_text(one) =~= row_text(k) + "\n"@);
    let all = seq![k] + rest;
    assert(all[0] == k);
    assert(all.drop_first() =~= rest);
}

/// A line that begins with the name of the version or of the current key sets it, the last one counts,
/// and one whose number cannot be read is refused with what is wrong; other lines say nothing.
pub proof fn lines_of_the_head_set_their_values(line: Seq<char>, rest: Seq<Seq<char>>, version: u32, current: u32)
    ensures
        ({
            let t = trim_end_of(trim(line), ',');
            let all = seq![line] + rest;
            &&& starts(t, "\"format_version\":"@) ==> match number(trim(t.skip(17)), u32::MAX as nat) {
                Some(n) => head_fields(all, version, current) == head_fields(rest, n as u32, current),
                None => head_fields(all, version, current) == Err::<(u32, u32), LayoutError>(
                    LayoutError::FormatVersion(number_error(trim(t.skip(17)), u32::MAX as nat)),
                ),
            }
            &&& starts(t, "\"current_id\":"@) ==> match number(trim(t.skip(13)), u32::MAX as nat) {
                Some(n) => head_fields(all, version, current) == head_fields(rest, version, n as u32),
                None => head_fields(all, version, current) == Err::<(u32, u32), LayoutError>(
                    LayoutError::CurrentId(number_error(trim(t.skip(13)), u32::MAX as nat)),
                ),
            }
            &&& !starts(t, "\"format_version\":"@) && !starts(t, "\"current_id\":"@) ==> head_fields(
                all,
                version,
                current,
            ) == head_fields(rest, version, current)
            &&& head_fields(Seq::empty(), version, current) == Ok::<(u32, u32), LayoutError>((version, current))
        }),
{
    reveal_strlit("\"format_version\":");
    reveal_strlit("\"current_id\":");
    let t = trim_end_of(trim(line), ',');
    let all = seq![line] + rest;
    assert(all[0] == line);
    assert(all.drop_first() =~= rest);
    if starts(t, "\"current_id\":"@) && starts(t, "\"format_version\":"@) {
        assert(t.take(13)[1] == 'c');
        assert(t.take(17)[1] == 'f');
    }
}

/// A field that begins with its name sets its value, and one whose number cannot be read is refused
/// with what is wrong; other fields say nothing.
pub proof fn fields_of_a_key_set_their_values(field: Seq<char>, rest: Seq<Seq<char>>, row: KeyRow)
    ensures
        ({
            let t = trim(field);
            let all = seq![field] + rest;
            &&& starts(t, "\"id\":"@) ==> match number(trim(t.skip(5)), u32::MAX as nat) {
                Some(n) => key_fields(all, row) == key_fields(rest, KeyRow { id: n as u32, ..row }),
                None => key_fields(all, row) == Err::<KeyRow, LayoutError>(
                    LayoutError::KeyId(number_error(trim(t.skip(5)), u32::MAX as nat)),
                ),
            }
            &&& starts(t, "\"created_at_unix_ms\":"@) ==> match number(trim(t.skip(21)), u64::MAX as nat) {
                Some(n) => key_fields(all, row) == key_fields(rest, KeyRow { created: n as u64, ..row }),
                None => key_fields(all, row) == Err::<KeyRow, LayoutError>(
                    LayoutError::KeyCreated(number_error(trim(t.skip(21)), u64::MAX as nat)),
                ),
            }
            &&& starts(t, "\"wrapped_dek_hex\":"@) ==> key_fields(all, row) == key_fields(
                rest,
                KeyRow { wrapped_hex: trim_end_of(trim_start_of(trim(t.skip(18)), '"'), '"'), ..row },
            )
            &&& !starts(t, "\"id\":"@) && !starts(t, "\"created_at_unix_ms\":"@) && !starts(
                t,
                "\"wrapped_dek_hex\":"@,
            ) ==> key_fields(all, row) == key_fields(rest, row)
            &&& key_fields(Seq::empty(), row) == Ok::<KeyRow, LayoutError>(row)
            &&& blank_row().id == 0 && blank_row().created == 0 && blank_row().wrapped_hex.len() == 0
        }),
{
    reveal_strlit("\"id\":");
    reveal_strlit("\"created_at_unix_ms\":");
    reveal_strlit("\"wrapped_dek_hex\":");
    let t = trim(field);
    let all = seq![field] + rest;
    assert(all[0] == field);
    assert(all.drop_first() =~= rest);
    if starts(t, "\"id\":"@) {
        assert(t.take(5)[1] == 'i');
        assert(t[1] == 'i');
    }
    if starts(t, "\"created_at_unix_ms\":"@) {
        assert(t.take(21)[1] == 'c');
        assert(t[1] == 'c');
    }
    if starts(t, "\"wrapped_dek_hex\":"@) {
        assert(t.take(18)[1] == 'w');
        assert(t[1] == 'w');
    }
}

/// A text without keys is refused, and so are bytes that are no text; a text without a closing brace
/// holds no key.
pub proof fn files_without_keys_are_refused(s: Seq<char>, b: Seq<u8>)
    ensures
        head_fields(lines(s), 0, 0) is Ok && find_str(s, "\"keys\":"@) < 0 ==> parse_ring_text(s) == Err::<
            RingFile,
            LayoutError,
        >(LayoutError::MissingKeys),
        head_fields(lines(s), 0, 0) matches Err(e) ==> parse_ring_text(s) == Err::<RingFile, LayoutError>(e),
        from_utf8(b) is None ==> parse_ring_file(b) is Err && parse_ring_file(b)->Err_0 is NotUtf8,
        from_utf8(b) matches Some(t) ==> parse_ring_file(b) == parse_ring_text(t),
        lacks(s, '}') ==> key_objects(s) == Ok::<Seq<KeyRow>, LayoutError>(Seq::empty()),
{
    if lacks(s, '}') {
        crate::text::lemma_find(s, '}');
    }
}

/// A key is what opens under the wrapping key and the key's own number; a text that is no hexadecimal
/// number, does not open, or is of another length, is refused with the number of the key.
pub proof fn keys_are_unwrapped_under_their_numbers(k: KeyRow, kek: Seq<u8>, wrapped: Seq<u8>)
    requires
        unhex(encode_utf8(k.wrapped_hex)) == Ok::<Seq<u8>, HexError>(wrapped),
    ensures
        unseal(kek, wrap_aad(k.id), wrapped) matches Ok(key) && key.len() == 32 ==> unwrap_row(k, kek) == Ok::<
            Dek,
            KeyringError,
        >(Dek { id: k.id, created: k.created, wrapped, key: unseal(kek, wrap_aad(k.id), wrapped)->Ok_0 }),
        unseal(kek, wrap_aad(k.id), wrapped) matches Ok(key) && key.len() != 32 ==> unwrap_row(k, kek) == Err::<
            Dek,
            KeyringError,
        >(
            KeyringError::Length {
                id: k.id,
                got: unseal(kek, wrap_aad(k.id), wrapped)->Ok_0.len() as usize,
            },
        ),
        unseal(kek, wrap_aad(k.id), wrapped) matches Err(error) ==> unwrap_row(k, kek) == Err::<
            Dek,
            KeyringError,
        >(KeyringError::Unwrap { id: k.id, error }),
{
}

/// A key whose text is no hexadecimal number is refused so.
pub proof fn keys_that_are_not_hexadecimal_are_refused(k: KeyRow, kek: Seq<u8>)
    ensures
        unhex(encode_utf8(k.wrapped_hex)) matches Err(bad) ==> unwrap_row(k, kek) == Err::<Dek, KeyringError>(
            KeyringError::Hex { id: k.id, bad },
        ),
{
}

/// The keys are unwrapped in their order, and the first that cannot be is told.
pub proof fn first_key_that_fails_is_told(rows: Seq<KeyRow>, k: KeyRow, kek: Seq<u8>)
    ensures
        unwrap_rows(Seq::empty(), kek) == Ok::<Seq<Dek>, KeyringError>(Seq::empty()),
        unwrap_rows(rows, kek) matches Err(e) ==> unwrap_rows(rows.push(k), kek) == Err::<Seq<Dek>, KeyringError>(
            e,
        ),
        unwrap_rows(rows, kek) matches Ok(deks) ==> match unwrap_row(k, kek) {
            Ok(d) => unwrap_rows(rows.push(k), kek) == Ok::<Seq<Dek>, KeyringError>(deks.push(d)),
            Err(e) => unwrap_rows(rows.push(k), kek) == Err::<Seq<Dek>, KeyringError>(e),
        },
{
    assert(rows.push(k).drop_last() =~= rows);
    assert(rows.push(k).last() == k);
}

/// A file gives a ring where its version is known, its keys can be unwrapped and its current key is
/// one of them, and then alone.
pub proof fn files_give_rings_when_they_are_sound(f: RingFile, kek: Seq<u8>)
    ensures
        f.version != 1 ==> ring_from_file(f, kek) == Err::<Ring, KeyringError>(KeyringError::Version(f.version)),
        f.version == 1 ==> (unwrap_rows(f.keys, kek) matches Err(e) ==> ring_from_file(f, kek) == Err::<
            Ring,
            KeyringError,
        >(e)),
        f.version == 1 ==> (unwrap_rows(f.keys, kek) matches Ok(deks) ==> {
            let known = exists|i: int| 0 <= i < deks.len() && (#[trigger] deks[i]).id == f.current;
            &&& known ==> ring_from_file(f, kek) == Ok::<Ring, KeyringError>(Ring { deks, current: f.current })
            &&& !known ==> ring_from_file(f, kek) == Err::<Ring, KeyringError>(
                KeyringError::NoCurrent { id: f.current, entries: deks.len() as usize },
            )
        }),
{
    if f.version == 1 {
        if let Ok(deks) = unwrap_rows(f.keys, kek) {
            let ring = Ring { deks, current: f.current };
            if exists|i: int| 0 <= i < deks.len() && (#[trigger] deks[i]).id == f.current {
                let i = choose|i: int| 0 <= i < deks.len() && (#[trigger] deks[i]).id == f.current;
                assert(ring.deks[i].id == ring.current);
                assert(ring.wf());
            }
        }
    }
}

/// A file that cannot be read gives no ring, and says why; the file for a ring has all its keys, in
/// their order, and its current one.
pub proof fn files_of_rings_have_all_their_keys(r: Ring, b: Seq<u8>, kek: Seq<u8>, i: int)
    ensures
        parse_ring_file(b) matches Err(e) ==> load_ring(b, kek) == Err::<Ring, KeyringError>(
            KeyringError::Layout(e),
        ),
        parse_ring_file(b) matches Ok(f) ==> load_ring(b, kek) == ring_from_file(f, kek),
        file_of(r).version == 1,
        file_of(r).current == r.current,
        file_of(r).keys.len() == r.deks.len(),
        0 <= i < r.deks.len() ==> file_of(r).keys[i] == (KeyRow {
            id: r.deks[i].id,
            created: r.deks[i].created,
            wrapped_hex: crate::hex::hex(r.deks[i].wrapped),
        }),
{
}

} // verus!
