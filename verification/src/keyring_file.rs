//! The file in which a node keeps its ring: the data keys, wrapped, in a small
//! fixed JSON layout.
use vstd::prelude::*;
use vstd::string::StringExecFns;
use vstd::utf8::encode_utf8;

use crate::bytes::copy32;
use crate::crypto::{
    decrypt, gcm_seal, random12, seal_with, unseal, OpenError,
};
use crate::hex::{
    decode_hex_bytes, encode_hex_bytes, hex, unhex, HexError,
};
use crate::keyring::{
    dek_aad, entry_views, wrap_aad, wrapped_under, Dek, DekEntry, Keyring, Ring,
};
use crate::text::{
    chars_of, dec, dec_string, deep, find, find_char, find_str, find_text, from_utf8, line_chars,
    lines, number, number_error, parse_number, rfind, rfind_char, skip_chars, split, split_on,
    starts, string_of, strip_prefix, take_chars, text_or_fault, trim, trim_end_of, trim_start_of,
    trimmed, trimmed_end_of, trimmed_start_of, utf8_fault, why_no_number, NumberError, Utf8Fault,
};

verus! {

broadcast use crate::bytes::group_be;

/// A wrapped key as the file has it.
#[derive(Debug)]
pub struct KeyringKeyOnDisk {
    pub id: u32,
    pub created_at_unix_ms: u64,
    pub wrapped_dek_hex: String,
}

/// What the file holds.
#[derive(Debug)]
pub struct KeyringOnDisk {
    pub format_version: u32,
    pub current_id: u32,
    pub keys: Vec<KeyringKeyOnDisk>,
}

/// A wrapped key as the file has it, as a mathematical value.
pub struct KeyRow {
    pub id: u32,
    pub created: u64,
    pub wrapped_hex: Seq<char>,
}

/// What the file holds, as a mathematical value.
pub struct RingFile {
    pub version: u32,
    pub current: u32,
    pub keys: Seq<KeyRow>,
}

impl View for KeyringKeyOnDisk {
    type V = KeyRow;

    open spec fn view(&self) -> KeyRow {
        KeyRow {
            id: self.id,
            created: self.created_at_unix_ms,
            wrapped_hex: self.wrapped_dek_hex@,
        }
    }
}

/// The rows that `v` stands for.
pub open spec fn row_views(v: Seq<KeyringKeyOnDisk>) -> Seq<KeyRow> {
    v.map_values(|k: KeyringKeyOnDisk| k@)
}

impl View for KeyringOnDisk {
    type V = RingFile;

    open spec fn view(&self) -> RingFile {
        RingFile {
            version: self.format_version,
            current: self.current_id,
            keys: row_views(self.keys@),
        }
    }
}

/// What is wrong with the file's text.
#[derive(Debug, Clone, Copy, PartialEq, Eq, Structural)]
pub enum LayoutError {
    NotUtf8(Utf8Fault),
    FormatVersion(NumberError),
    CurrentId(NumberError),
    MissingKeys,
    NoOpen,
    NoClose,
    KeyId(NumberError),
    KeyCreated(NumberError),
}

impl LayoutError {
    /// The error in words.
    pub open spec fn text(self) -> Seq<char> {
        match self {
            LayoutError::NotUtf8(f) => "not utf-8: "@ + f.text(),
            LayoutError::FormatVersion(e) => "format_version: "@ + e.text(),
            LayoutError::CurrentId(e) => "current_id: "@ + e.text(),
            LayoutError::MissingKeys => "missing keys field"@,
            LayoutError::NoOpen => "keys: no ["@,
            LayoutError::NoClose => "keys: no ]"@,
            LayoutError::KeyId(e) => "key.id: "@ + e.text(),
            LayoutError::KeyCreated(e) => "key.created: "@ + e.text(),
        }
    }

    /// The error in words.
    pub fn message(&self) -> (r: String)
        ensures
            r@ == self.text(),
    {
        match self {
            LayoutError::NotUtf8(f) => String::from_str("not utf-8: ").concat(f.message().as_str()),
            LayoutError::FormatVersion(e) => String::from_str("format_version: ").concat(e.message()),
            LayoutError::CurrentId(e) => String::from_str("current_id: ").concat(e.message()),
            LayoutError::MissingKeys => String::from_str("missing keys field"),
            LayoutError::NoOpen => String::from_str("keys: no ["),
            LayoutError::NoClose => String::from_str("keys: no ]"),
            LayoutError::KeyId(e) => String::from_str("key.id: ").concat(e.message()),
            LayoutError::KeyCreated(e) => String::from_str("key.created: ").concat(e.message()),
        }
    }
}

/// The version and the current key that the lines of the file give: a line that begins
/// with the name of one of them sets it, and the last such line counts.
pub open spec fn head_fields(ls: Seq<Seq<char>>, version: u32, current: u32) -> Result<
    (u32, u32),
    LayoutError,
>
    decreases ls.len(),
{
    if ls.len() == 0 {
        Ok((version, current))
    } else {
        let t = trim_end_of(trim(ls[0]), ',');
        let rest = ls.drop_first();
        if starts(t, "\"format_version\":"@) {
            let v = trim(t.skip("\"format_version\":"@.len() as int));
            match number(v, u32::MAX as nat) {
                Some(n) => head_fields(rest, n as u32, current),
                None => Err(LayoutError::FormatVersion(number_error(v, u32::MAX as nat))),
            }
        } else if starts(t, "\"current_id\":"@) {
            let v = trim(t.skip("\"current_id\":"@.len() as int));
            match number(v, u32::MAX as nat) {
                Some(n) => head_fields(rest, version, n as u32),
                None => Err(LayoutError::CurrentId(number_error(v, u32::MAX as nat))),
            }
        } else {
            head_fields(rest, version, current)
        }
    }
}

/// The row that the fields of a key give, over what is already known of it.
pub open spec fn key_fields(fs: Seq<Seq<char>>, row: KeyRow) -> Result<KeyRow, LayoutError>
    decreases fs.len(),
{
    if fs.len() == 0 {
        Ok(row)
    } else {
        let t = trim(fs[0]);
        let rest = fs.drop_first();
        if starts(t, "\"id\":"@) {
            let v = trim(t.skip("\"id\":"@.len() as int));
            match number(v, u32::MAX as nat) {
                Some(n) => key_fields(rest, KeyRow { id: n as u32, ..row }),
                None => Err(LayoutError::KeyId(number_error(v, u32::MAX as nat))),
            }
        } else if starts(t, "\"created_at_unix_ms\":"@) {
            let v = trim(t.skip("\"created_at_unix_ms\":"@.len() as int));
            match number(v, u64::MAX as nat) {
                Some(n) => key_fields(rest, KeyRow { created: n as u64, ..row }),
                None => Err(LayoutError::KeyCreated(number_error(v, u64::MAX as nat))),
            }
        } else if starts(t, "\"wrapped_dek_hex\":"@) {
            let v = trim(t.skip("\"wrapped_dek_hex\":"@.len() as int));
            key_fields(rest, KeyRow { wrapped_hex: trim_end_of(trim_start_of(v, '"'), '"'), ..row })
        } else {
            key_fields(rest, row)
        }
    }
}

/// A row of which nothing is known.
pub open spec fn blank_row() -> KeyRow {
    KeyRow { id: 0, created: 0, wrapped_hex: Seq::empty() }
}

/// The keys in the text between the brackets: each closing brace ends one, which begins
/// behind the first opening brace before it.
pub open spec fn key_objects(s: Seq<char>) -> Result<Seq<KeyRow>, LayoutError>
    decreases s.len(),
{
    let i = find(s, '}');
    if i < 0 || i >= s.len() {
        Ok(Seq::empty())
    } else {
        let chunk = s.take(i);
        let open = find(chunk, '{');
        if open >= chunk.len() {
            key_objects(s.skip(i + 1))
        } else {
            match key_fields(split(chunk.skip(open + 1), ','), blank_row()) {
                Err(e) => Err(e),
                Ok(row) => match key_objects(s.skip(i + 1)) {
                    Err(e) => Err(e),
                    Ok(rows) => Ok(seq![row] + rows),
                },
            }
        }
    }
}

/// What a text says of a ring.
pub open spec fn parse_ring_text(s: Seq<char>) -> Result<RingFile, LayoutError> {
    match head_fields(lines(s), 0, 0) {
        Err(e) => Err(e),
        Ok((version, current)) => {
            let k = find_str(s, "\"keys\":"@);
            if k < 0 {
                Err(LayoutError::MissingKeys)
            } else {
                let after = s.skip(k);
                let a = find(after, '[');
                let b = rfind(after, ']');
                if a >= after.len() {
                    Err(LayoutError::NoOpen)
                } else if b <= a {
                    Err(LayoutError::NoClose)
                } else {
                    match key_objects(after.subrange(a + 1, b)) {
                        Err(e) => Err(e),
                        Ok(keys) => Ok(RingFile { version, current, keys }),
                    }
                }
            }
        },
    }
}

/// What the bytes of a file say of a ring.
pub open spec fn parse_ring_file(b: Seq<u8>) -> Result<RingFile, LayoutError> {
    match from_utf8(b) {
        None => Err(LayoutError::NotUtf8(utf8_fault(b))),
        Some(s) => parse_ring_text(s),
    }
}

/// A key in the file's layout.
pub open spec fn row_text(k: KeyRow) -> Seq<char> {
    "    {"@ + "\"id\": "@ + dec(k.id as nat) + ", \"created_at_unix_ms\": "@ + dec(k.created as nat)
        + ", \"wrapped_dek_hex\": \""@ + k.wrapped_hex + "\""@ + "}"@
}

/// Keys in the file's layout, one to a line, with commas between them.
pub open spec fn rows_text(keys: Seq<KeyRow>) -> Seq<char>
    decreases keys.len(),
{
    if keys.len() == 0 {
        Seq::empty()
    } else {
        row_text(keys[0]) + (if keys.len() > 1 {
            ",\n"@
        } else {
            "\n"@
        }) + rows_text(keys.drop_first())
    }
}

/// A ring in the file's layout.
pub open spec fn ring_text(f: RingFile) -> Seq<char> {
    "{\n"@ + "  \"format_version\": "@ + dec(f.version as nat) + ",\n"@ + "  \"current_id\": "@ + dec(
        f.current as nat,
    ) + ",\n"@ + "  \"keys\": [\n"@ + rows_text(f.keys) + "  ]\n"@ + "}\n"@
}

/// The version and the current key that the lines of the file give.
fn read_head(ls: &Vec<Vec<char>>) -> (r: Result<(u32, u32), LayoutError>)
    ensures
        r == head_fields(deep(ls@), 0, 0),
{
    let ghost all = deep(ls@);
    let mut version: u32 = 0;
    let mut current: u32 = 0;
    let mut i: usize = 0;
    assert(all.skip(0) =~= all);
    while i < ls.len()
        invariant
            0 <= i <= ls@.len(),
            all == deep(ls@),
            head_fields(all, 0, 0) == head_fields(all.skip(i as int), version, current),
        decreases ls@.len() - i,
    {
        let ghost rest = all.skip(i as int);
        assert(rest.drop_first() =~= all.skip(i + 1));
        assert(rest[0] == ls@[i as int]@);
        let t = trimmed_end_of(trimmed(ls[i].as_slice()), ',');
        match strip_prefix(t, "\"format_version\":") {
            Some(v) => match parse_number(trimmed(v), u32::MAX as u64) {
                Some(n) => {
                    version = n as u32;
                },
                None => {
                    return Err(
                        LayoutError::FormatVersion(why_no_number(trimmed(v), u32::MAX as u64)),
                    );
                },
            },
            None => match strip_prefix(t, "\"current_id\":") {
                Some(v) => match parse_number(trimmed(v), u32::MAX as u64) {
                    Some(n) => {
                        current = n as u32;
                    },
                    None => {
                        return Err(
                            LayoutError::CurrentId(why_no_number(trimmed(v), u32::MAX as u64)),
                        );
                    },
                },
                None => {},
            },
        }
        i += 1;
    }
    assert(all.skip(i as int) =~= Seq::<Seq<char>>::empty());
    Ok((version, current))
}

/// The row that a key's text gives; nothing where the text has no opening brace.
fn parse_key_object(chunk: &[char]) -> (r: Result<Option<KeyringKeyOnDisk>, LayoutError>)
    ensures
        if find(chunk@, '{') >= chunk@.len() {
            r matches Ok(None)
        } else {
            match key_fields(split(chunk@.skip(find(chunk@, '{') + 1), ','), blank_row()) {
                Ok(row) => r matches Ok(Some(k)) && k@ == row,
                Err(e) => r matches Err(f) && f == e,
            }
        },
{
    let open: usize = find_char(chunk, '{');
    if open >= chunk.len() {
        return Ok(None);
    }
    let fields = split_on(skip_chars(chunk, open + 1), ',');
    let ghost all = deep(fields@);
    let mut id: u32 = 0;
    let mut created: u64 = 0;
    let mut hex_text: String = String::new();
    let mut i: usize = 0;
    assert(all.skip(0) =~= all);
    while i < fields.len()
        invariant
            0 <= i <= fields@.len(),
            open < chunk@.len(),
            open == find(chunk@, '{'),
            all == deep(fields@),
            all == split(chunk@.skip(open + 1), ','),
            key_fields(all, blank_row()) == key_fields(
                all.skip(i as int),
                KeyRow { id, created, wrapped_hex: hex_text@ },
            ),
        decreases fields@.len() - i,
    {
        let ghost rest = all.skip(i as int);
        assert(rest.drop_first() =~= all.skip(i + 1));
        assert(rest[0] == fields@[i as int]@);
        let t = trimmed(fields[i].as_slice());
        match strip_prefix(t, "\"id\":") {
            Some(v) => match parse_number(trimmed(v), u32::MAX as u64) {
                Some(n) => {
                    id = n as u32;
                },
                None => {
                    return Err(LayoutError::KeyId(why_no_number(trimmed(v), u32::MAX as u64)));
                },
            },
            None => match strip_prefix(t, "\"created_at_unix_ms\":") {
                Some(v) => match parse_number(trimmed(v), u64::MAX) {
                    Some(n) => {
                        created = n;
                    },
                    None => {
                        return Err(LayoutError::KeyCreated(why_no_number(trimmed(v), u64::MAX)));
                    },
                },
                None => match strip_prefix(t, "\"wrapped_dek_hex\":") {
                    Some(v) => {
                        hex_text = string_of(
                            trimmed_end_of(trimmed_start_of(trimmed(v), '"'), '"'),
                        );
                    },
                    None => {},
                },
            },
        }
        i += 1;
    }
    assert(all.skip(i as int) =~= Seq::<Seq<char>>::empty());
    Ok(Some(KeyringKeyOnDisk { id, created_at_unix_ms: created, wrapped_dek_hex: hex_text }))
}

/// The keys in the text between the brackets.
fn read_keys(s: &[char]) -> (r: Result<Vec<KeyringKeyOnDisk>, LayoutError>)
    ensures
        match r {
            Ok(v) => key_objects(s@) == Ok::<Seq<KeyRow>, LayoutError>(row_views(v@)),
            Err(e) => key_objects(s@) == Err::<Seq<KeyRow>, LayoutError>(e),
        },
{
    let mut out: Vec<KeyringKeyOnDisk> = Vec::new();
    let mut rest: &[char] = s;
    proof {
        if let Ok(t) = key_objects(s@) {
            assert(row_views(out@) + t =~= t);
        }
    }
    loop
        invariant
            key_objects(s@) == after_rows(row_views(out@), key_objects(rest@)),
        decreases rest@.len(),
    {
        let i: usize = find_char(rest, '}');
        if i >= rest.len() {
            assert(row_views(out@) + Seq::<KeyRow>::empty() =~= row_views(out@));
            return Ok(out);
        }
        let ghost was = rest@;
        let chunk = take_chars(rest, i);
        proof {
            crate::text::lemma_find(chunk@, '{');
        }
        match parse_key_object(chunk) {
            Err(e) => {
                return Err(e);
            },
            Ok(None) => {
                rest = skip_chars(rest, i + 1);
            },
            Ok(Some(k)) => {
                let ghost before = row_views(out@);
                let ghost row = k@;
                out.push(k);
                rest = skip_chars(rest, i + 1);
                proof {
                    assert(row_views(out@) =~= before + seq![row]);
                    if let Ok(t) = key_objects(rest@) {
                        assert(before + (seq![row] + t) =~= row_views(out@) + t);
                    }
                }
            },
        }
    }
}

/// Keys with some rows before them.
spec fn after_rows(before: Seq<KeyRow>, r: Result<Seq<KeyRow>, LayoutError>) -> Result<
    Seq<KeyRow>,
    LayoutError,
> {
    match r {
        Err(e) => Err(e),
        Ok(t) => Ok(before + t),
    }
}

/// What the bytes of a file say of a ring.
pub fn parse(bytes: &[u8]) -> (r: Result<KeyringOnDisk, LayoutError>)
    ensures
        match r {
            Ok(f) => parse_ring_file(bytes@) == Ok::<RingFile, LayoutError>(f@),
            Err(e) => parse_ring_file(bytes@) == Err::<RingFile, LayoutError>(e),
        },
{
    let text = match text_or_fault(crate::bytes::copy(bytes)) {
        Ok(t) => t,
        Err(f) => {
            return Err(LayoutError::NotUtf8(f));
        },
    };
    let v = chars_of(text.as_str());
    let s = v.as_slice();
    let (format_version, current_id) = match read_head(&line_chars(s)) {
        Ok(p) => p,
        Err(e) => {
            return Err(e);
        },
    };
    let k: usize = match find_text(s, "\"keys\":") {
        Some(k) => k,
        None => {
            return Err(LayoutError::MissingKeys);
        },
    };
    let after = skip_chars(s, k);
    let a: usize = find_char(after, '[');
    if a >= after.len() {
        return Err(LayoutError::NoOpen);
    }
    let b: usize = match rfind_char(after, ']') {
        Some(b) => b,
        None => {
            return Err(LayoutError::NoClose);
        },
    };
    if b <= a {
        return Err(LayoutError::NoClose);
    }
    let inside = vstd::slice::slice_subrange(after, a + 1, b);
    match read_keys(inside) {
        Ok(keys) => Ok(KeyringOnDisk { format_version, current_id, keys }),
        Err(e) => Err(e),
    }
}

/// A key in the file's layout.
fn row_string(k: &KeyringKeyOnDisk) -> (r: String)
    ensures
        r@ == row_text(k@),
{
    String::from_str("    {").concat("\"id\": ").concat(dec_string(k.id as u64).as_str()).concat(
        ", \"created_at_unix_ms\": ",
    ).concat(dec_string(k.created_at_unix_ms).as_str()).concat(
        ", \"wrapped_dek_hex\": \"",
    ).concat(k.wrapped_dek_hex.as_str()).concat("\"").concat("}")
}

/// A ring in the file's layout.
pub fn to_string(disk: &KeyringOnDisk) -> (r: String)
    ensures
        r@ == ring_text(disk@),
{
    let ghost rows = row_views(disk.keys@);
    let mut out = String::from_str("{\n").concat("  \"format_version\": ").concat(
        dec_string(disk.format_version as u64).as_str(),
    ).concat(",\n").concat("  \"current_id\": ").concat(
        dec_string(disk.current_id as u64).as_str(),
    ).concat(",\n").concat("  \"keys\": [\n");
    let ghost head = out@;
    let mut i: usize = 0;
    assert(rows.skip(0) =~= rows);
    while i < disk.keys.len()
        invariant
            0 <= i <= disk.keys@.len(),
            rows == row_views(disk.keys@),
            out@ + rows_text(rows.skip(i as int)) =~= head + rows_text(rows),
        decreases disk.keys@.len() - i,
    {
        let ghost rest = rows.skip(i as int);
        let ghost before = out@;
        assert(rest.drop_first() =~= rows.skip(i + 1));
        assert(rest[0] == disk.keys@[i as int]@);
        out.append(row_string(&disk.keys[i]).as_str());
        if i + 1 < disk.keys.len() {
            out.append(",\n");
        } else {
            out.append("\n");
        }
        i += 1;
    }
    assert(rows.skip(i as int) =~= Seq::<KeyRow>::empty());
    assert(out@ =~= head + rows_text(rows));
    out.append("  ]\n");
    out.append("}\n");
    assert(out@ =~= ring_text(disk@));
    out
}

/// Why a file gives no ring.
#[derive(Debug, Clone, Copy, PartialEq, Eq, Structural)]
pub enum KeyringError {
    Layout(LayoutError),
    Version(u32),
    Hex { id: u32, bad: HexError },
    Unwrap { id: u32, error: OpenError },
    Length { id: u32, got: usize },
    NoCurrent { id: u32, entries: usize },
}

impl KeyringError {
    /// The error in words.
    pub open spec fn text(self) -> Seq<char> {
        match self {
            KeyringError::Layout(e) => "keyring parse: "@ + e.text(),
            KeyringError::Version(v) => "keyring format_version "@ + dec(v as nat)
                + ": only 1 supported"@,
            KeyringError::Hex { id, bad } => "keyring key id="@ + dec(id as nat) + ": "@ + bad.text(),
            KeyringError::Unwrap { id, error } => "keyring key id="@ + dec(id as nat)
                + " unwrap failed (wrong KEK?): "@ + error.text(),
            KeyringError::Length { id, got } => "keyring key id="@ + dec(id as nat) + ": DEK is "@
                + dec(got as nat) + " bytes, expected 32"@,
            KeyringError::NoCurrent { id, entries } => "keyring current_id="@ + dec(id as nat)
                + " not found among "@ + dec(entries as nat) + " entries"@,
        }
    }

    /// The error in words.
    pub fn message(&self) -> (r: String)
        requires
            self matches KeyringError::Hex { bad: HexError::WrongLength { expected, got }, .. }
                ==> expected * 2 <= usize::MAX,
        ensures
            r@ == self.text(),
    {
        match self {
            KeyringError::Layout(e) => String::from_str("keyring parse: ").concat(e.message().as_str()),
            KeyringError::Version(v) => String::from_str("keyring format_version ").concat(
                dec_string(*v as u64).as_str(),
            ).concat(": only 1 supported"),
            KeyringError::Hex { id, bad } => String::from_str("keyring key id=").concat(
                dec_string(*id as u64).as_str(),
            ).concat(": ").concat(bad.message().as_str()),
            KeyringError::Unwrap { id, error } => String::from_str("keyring key id=").concat(
                dec_string(*id as u64).as_str(),
            ).concat(" unwrap failed (wrong KEK?): ").concat(error.message().as_str()),
            KeyringError::Length { id, got } => String::from_str("keyring key id=").concat(
                dec_string(*id as u64).as_str(),
            ).concat(": DEK is ").concat(dec_string(*got as u64).as_str()).concat(
                " bytes, expected 32",
            ),
            KeyringError::NoCurrent { id, entries } => String::from_str(
                "keyring current_id=",
            ).concat(dec_string(*id as u64).as_str()).concat(" not found among ").concat(
                dec_string(*entries as u64).as_str(),
            ).concat(" entries"),
        }
    }
}

/// A key of the file, unwrapped.
pub open spec fn unwrap_row(k: KeyRow, kek: Seq<u8>) -> Result<Dek, KeyringError> {
    match unhex(encode_utf8(k.wrapped_hex)) {
        Err(bad) => Err(KeyringError::Hex { id: k.id, bad }),
        Ok(wrapped) => match unseal(kek, wrap_aad(k.id), wrapped) {
            Err(error) => Err(KeyringError::Unwrap { id: k.id, error }),
            Ok(key) => if key.len() != 32 {
                Err(KeyringError::Length { id: k.id, got: key.len() as usize })
            } else {
                Ok(Dek { id: k.id, created: k.created, wrapped, key })
            },
        },
    }
}

/// The keys of the file, unwrapped; the first that cannot be is the error.
pub open spec fn unwrap_rows(rows: Seq<KeyRow>, kek: Seq<u8>) -> Result<Seq<Dek>, KeyringError>
    decreases rows.len(),
{
    if rows.len() == 0 {
        Ok(Seq::empty())
    } else {
        match unwrap_rows(rows.drop_last(), kek) {
            Err(e) => Err(e),
            Ok(deks) => match unwrap_row(rows.last(), kek) {
                Err(e) => Err(e),
                Ok(d) => Ok(deks.push(d)),
            },
        }
    }
}

/// The ring that a file gives under a wrapping key.
pub open spec fn ring_from_file(f: RingFile, kek: Seq<u8>) -> Result<Ring, KeyringError> {
    if f.version != 1 {
        Err(KeyringError::Version(f.version))
    } else {
        match unwrap_rows(f.keys, kek) {
            Err(e) => Err(e),
            Ok(deks) => {
                let ring = Ring { deks, current: f.current };
                if ring.wf() {
                    Ok(ring)
                } else {
                    Err(KeyringError::NoCurrent { id: f.current, entries: deks.len() as usize })
                }
            },
        }
    }
}

/// The ring that the bytes of a file give under a wrapping key.
pub open spec fn load_ring(b: Seq<u8>, kek: Seq<u8>) -> Result<Ring, KeyringError> {
    match parse_ring_file(b) {
        Err(e) => Err(KeyringError::Layout(e)),
        Ok(f) => ring_from_file(f, kek),
    }
}

/// The file for a ring.
pub open spec fn file_of(r: Ring) -> RingFile {
    RingFile {
        version: 1,
        current: r.current,
        keys: r.deks.map_values(
            |d: Dek| KeyRow { id: d.id, created: d.created, wrapped_hex: hex(d.wrapped) },
        ),
    }
}

/// A key of the file, unwrapped.
fn load_row(k: &KeyringKeyOnDisk, kek: &[u8; 32]) -> (r: Result<DekEntry, KeyringError>)
    ensures
        match r {
            Ok(e) => unwrap_row(k@, kek@) == Ok::<Dek, KeyringError>(e@),
            Err(e) => unwrap_row(k@, kek@) == Err::<Dek, KeyringError>(e),
        },
        r matches Err(KeyringError::Hex { bad, .. }) ==> !(bad is WrongLength),
        r matches Ok(e) ==> e@.wrapped.len() == 60,
{
    let wrapped = match decode_hex_bytes(k.wrapped_dek_hex.as_str()) {
        Ok(w) => w,
        Err(bad) => {
            return Err(KeyringError::Hex { id: k.id, bad });
        },
    };
    let aad = dek_aad(k.id);
    let raw = match decrypt(kek, aad.as_slice(), wrapped.as_slice()) {
        Ok(p) => p,
        Err(error) => {
            return Err(KeyringError::Unwrap { id: k.id, error });
        },
    };
    if raw.len() != 32 {
        return Err(KeyringError::Length { id: k.id, got: raw.len() });
    }
    let dek: [u8; 32] = copy32(raw.as_slice(), 0);
    assert(dek@ =~= raw@);
    Ok(
        DekEntry {
            id: k.id,
            created_at_unix_ms: k.created_at_unix_ms,
            wrapped_dek: wrapped,
            raw_dek: dek,
        },
    )
}

impl Keyring {
    /// The ring that a file gives under a wrapping key.
    pub fn load(bytes: &[u8], kek: &[u8; 32]) -> (r: Result<Keyring, KeyringError>)
        ensures
            match r {
                Ok(k) => load_ring(bytes@, kek@) == Ok::<Ring, KeyringError>(k@) && k.wf()
                    && wrapped_under(k@, kek@),
                Err(e) => load_ring(bytes@, kek@) == Err::<Ring, KeyringError>(e),
            },
            r matches Err(KeyringError::Hex { bad, .. }) ==> !(bad is WrongLength),
    {
        let f = match parse(bytes) {
            Ok(f) => f,
            Err(e) => {
                return Err(KeyringError::Layout(e));
            },
        };
        if f.format_version != 1 {
            return Err(KeyringError::Version(f.format_version));
        }
        let ghost rows = row_views(f.keys@);
        let mut entries: Vec<DekEntry> = Vec::new();
        let mut found: bool = false;
        let mut i: usize = 0;
        assert(entry_views(entries@) =~= Seq::<Dek>::empty());
        while i < f.keys.len()
            invariant
                0 <= i <= f.keys@.len(),
                rows == row_views(f.keys@),
                parse_ring_file(bytes@) == Ok::<RingFile, LayoutError>(f@),
                f.format_version == 1,
                unwrap_rows(rows.take(i as int), kek@) == Ok::<Seq<Dek>, KeyringError>(
                    entry_views(entries@),
                ),
                found == (Ring { deks: entry_views(entries@), current: f.current_id }).wf(),
                wrapped_under(
                    Ring { deks: entry_views(entries@), current: f.current_id },
                    kek@,
                ),
            decreases f.keys@.len() - i,
        {
            let ghost t = rows.take(i + 1);
            assert(t.drop_last() =~= rows.take(i as int));
            assert(t.last() == f.keys@[i as int]@);
            let ghost before = entry_views(entries@);
            match load_row(&f.keys[i], kek) {
                Err(e) => {
                    proof {
                        lemma_unwrap_stops(rows, kek@, i as int);
                    }
                    return Err(e);
                },
                Ok(e) => {
                    let ghost d = e@;
                    if e.id == f.current_id {
                        found = true;
                    }
                    entries.push(e);
                    proof {
                        assert(entry_views(entries@) =~= before.push(d));
                        let now = Ring { deks: before.push(d), current: f.current_id };
                        let was = Ring { deks: before, current: f.current_id };
                        if was.wf() {
                            let j = choose|j: int|
                                0 <= j < was.deks.len() && #[trigger] was.deks[j].id == was.current;
                            assert(now.deks[j].id == f.current_id);
                        }
                        assert(wrapped_under(now, kek@)) by {
                            assert forall|j: int| 0 <= j < now.deks.len() implies {
                                &&& (#[trigger] now.deks[j]).key.len() == 32
                                &&& now.deks[j].wrapped.len() == 60
                                &&& unseal(kek@, wrap_aad(now.deks[j].id), now.deks[j].wrapped)
                                    == Ok::<Seq<u8>, OpenError>(now.deks[j].key)
                            } by {
                                if j < before.len() {
                                    assert(now.deks[j] == was.deks[j]);
                                }
                            }
                        }
                        if d.id == f.current_id {
                            assert(now.deks[before.len() as int].id == f.current_id);
                        }
                        if now.wf() && d.id != f.current_id {
                            let j = choose|j: int|
                                0 <= j < now.deks.len() && #[trigger] now.deks[j].id == now.current;
                            assert(was.deks[j].id == was.current);
                        }
                    }
                },
            }
            i += 1;
        }
        assert(rows.take(i as int) =~= rows);
        if !found {
            return Err(KeyringError::NoCurrent { id: f.current_id, entries: entries.len() });
        }
        let k = Keyring::from_parts(entries, f.current_id);
        Ok(k)
    }

    /// A ring of one key, numbered 1, wrapped under `kek` with the given nonce.
    pub fn bootstrap_with(kek: &[u8; 32], dek: [u8; 32], nonce: &[u8; 12], now_ms: u64) -> (r: Keyring)
        ensures
            r.wf(),
            r@ == (Ring {
                deks: seq![
                    Dek {
                        id: 1,
                        created: now_ms,
                        wrapped: nonce@ + gcm_seal(kek@, nonce@, wrap_aad(1), dek@),
                        key: dek@,
                    },
                ],
                current: 1,
            }),
            wrapped_under(r@, kek@),
    {
        let aad = dek_aad(1);
        let wrapped = seal_with(kek, nonce, aad.as_slice(), dek.as_slice());
        let mut entries: Vec<DekEntry> = Vec::new();
        let e = DekEntry { id: 1, created_at_unix_ms: now_ms, wrapped_dek: wrapped, raw_dek: dek };
        let ghost d = e@;
        entries.push(e);
        assert(entry_views(entries@) =~= seq![d]);
        let r = Keyring::from_parts(entries, 1);
        assert(r@.deks[0].id == 1);
        r
    }

    /// The ring in a file, or, where there is none, a ring of one key that is wrapped
    /// with a fresh nonce. The second part says whether the ring is new and has to be
    /// saved.
    pub fn load_or_bootstrap(
        file: Option<&[u8]>,
        kek: &[u8; 32],
        bootstrap_dek: [u8; 32],
        now_ms: u64,
    ) -> (r: Result<(Keyring, bool), KeyringError>)
        ensures
            match (file, r) {
                (Some(b), Ok((k, fresh))) => {
                    &&& !fresh && k.wf()
                    &&& load_ring(b@, kek@) == Ok::<Ring, KeyringError>(k@)
                    &&& wrapped_under(k@, kek@)
                },
                (Some(b), Err(e)) => load_ring(b@, kek@) == Err::<Ring, KeyringError>(e),
                (None, Ok((k, fresh))) => {
                    &&& fresh && k.wf()
                    &&& k@.current == 1
                    &&& k@.deks.len() == 1
                    &&& k@.deks[0].id == 1
                    &&& k@.deks[0].created == now_ms
                    &&& k@.deks[0].key == bootstrap_dek@
                    &&& wrapped_under(k@, kek@)
                },
                (None, Err(_)) => false,
            },
    {
        match file {
            Some(b) => match Keyring::load(b, kek) {
                Ok(k) => Ok((k, false)),
                Err(e) => Err(e),
            },
            None => {
                let nonce = random12();
                Ok((Keyring::bootstrap_with(kek, bootstrap_dek, &nonce, now_ms), true))
            },
        }
    }

    /// The text of the file for the ring.
    pub fn save(&self) -> (r: String)
        ensures
            r@ == ring_text(file_of(self@)),
    {
        let mut keys: Vec<KeyringKeyOnDisk> = Vec::new();
        let entries = self.entries();
        let mut i: usize = 0;
        while i < entries.len()
            invariant
                0 <= i <= entries@.len(),
                entry_views(entries@) == self@.deks,
                keys@.len() == i,
                forall|j: int| 0 <= j < i ==> (#[trigger] keys@[j])@ == file_of(self@).keys[j],
            decreases entries@.len() - i,
        {
            assert(self@.deks[i as int] == entries@[i as int]@);
            keys.push(
                KeyringKeyOnDisk {
                    id: entries[i].id,
                    created_at_unix_ms: entries[i].created_at_unix_ms,
                    wrapped_dek_hex: encode_hex_bytes(entries[i].wrapped_dek.as_slice()),
                },
            );
            i += 1;
        }
        assert(row_views(keys@) =~= file_of(self@).keys);
        to_string(&KeyringOnDisk { format_version: 1, current_id: self.current_id(), keys })
    }
}

/// The first key that cannot be unwrapped is the error, whatever follows.
proof fn lemma_unwrap_stops(rows: Seq<KeyRow>, kek: Seq<u8>, i: int)
    requires
        0 <= i < rows.len(),
        unwrap_rows(rows.take(i), kek) is Ok,
        unwrap_row(rows[i], kek) is Err,
    ensures
        unwrap_rows(rows, kek) == Err::<Seq<Dek>, KeyringError>(unwrap_row(rows[i], kek)->Err_0),
    decreases rows.len(),
{
    if rows.len() == i + 1 {
        assert(rows.drop_last() =~= rows.take(i));
    } else {
        let t = rows.drop_last();
        assert(t.take(i) =~= rows.take(i));
        lemma_unwrap_stops(t, kek, i);
    }
}

} // verus!
