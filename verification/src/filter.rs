//! The catalog filter: names by a glob, dates by a range.
use vstd::prelude::*;
use vstd::string::StringExecFns;

use regex::RegexBuilder;

use crate::calendar::{days_to, ymd_to_unix};
use crate::text::{
    after_last, behind_last, chars_of, deep, number, parse_number, quoted, quoted_text, split,
    split_on, string_of, trim, trimmed,
};

verus! {

/// An entry of the catalog, as lists and pages show it.
#[derive(Debug, Clone, PartialEq, Eq)]
pub struct CatalogEntry {
    /// The whole path.
    pub name: String,
    /// `image`, `audio`, `text`, `opaque` or `directory`.
    pub kind: String,
    pub content_type: String,
    pub width: u32,
    pub height: u32,
    /// How many shards are planned over all channels and layers.
    pub n_shards: u32,
    /// About how many bytes they take in the cluster.
    pub bytes_stored: u64,
    /// The first digits of the content's id.
    pub cid_short: String,
    pub audio_sample_rate: u32,
    pub channels: u8,
    /// When the entry was made, in seconds since 1970; 0 where that is not known.
    pub created_at_unix: u64,
}

impl CatalogEntry {
    /// A copy of the entry.
    pub fn copy(&self) -> (r: CatalogEntry)
        ensures
            r == *self,
    {
        CatalogEntry {
            name: self.name.clone(),
            kind: self.kind.clone(),
            content_type: self.content_type.clone(),
            width: self.width,
            height: self.height,
            n_shards: self.n_shards,
            bytes_stored: self.bytes_stored,
            cid_short: self.cid_short.clone(),
            audio_sample_rate: self.audio_sample_rate,
            channels: self.channels,
            created_at_unix: self.created_at_unix,
        }
    }
}

/// What building a case-insensitive regular expression from a pattern fails with, in
/// words; nothing where it does not fail.
pub uninterp spec fn regex_error(pattern: Seq<char>) -> Option<Seq<char>>;

/// `regex`' `RegexBuilder::build`, case-insensitive: whether a pattern can be compiled, and
/// what the error says, depends on the pattern alone.
#[verifier::external_body]
pub(crate) fn check_regex(pattern: &str) -> (r: Option<String>)
    ensures
        match r {
            Some(e) => regex_error(pattern@) == Some(e@),
            None => regex_error(pattern@) is None,
        },
{
    match RegexBuilder::new(pattern).case_insensitive(true).build() {
        Ok(_) => None,
        Err(e) => Some(e.to_string()),
    }
}

/// Whether a case-insensitive regular expression matches a text.
pub uninterp spec fn regex_match(pattern: Seq<char>, text: Seq<char>) -> bool;

/// `regex`' `Regex::is_match`, case-insensitive: whether a pattern matches a text depends on
/// the two alone. A pattern that cannot be compiled matches nothing.
#[verifier::external_body]
pub(crate) fn regex_is_match(pattern: &str, text: &str) -> (r: bool)
    ensures
        r == regex_match(pattern@, text@),
{
    match RegexBuilder::new(pattern).case_insensitive(true).build() {
        Ok(re) => re.is_match(text),
        Err(_) => false,
    }
}

/// Whether a character has a meaning of its own in a regular expression.
pub open spec fn is_meta(c: char) -> bool {
    ||| c == '.'
    ||| c == '+'
    ||| c == '?'
    ||| c == '('
    ||| c == ')'
    ||| c == '['
    ||| c == ']'
    ||| c == '{'
    ||| c == '}'
    ||| c == '|'
    ||| c == '\\'
    ||| c == '^'
    ||| c == '$'
}

/// A character of a glob as a regular expression.
pub open spec fn glob_char(c: char) -> Seq<char> {
    if c == '*' {
        seq!['.', '*']
    } else if is_meta(c) {
        seq!['\\', c]
    } else {
        seq![c]
    }
}

/// The characters of a glob as a regular expression.
pub open spec fn glob_body(s: Seq<char>) -> Seq<char>
    decreases s.len(),
{
    if s.len() == 0 {
        Seq::empty()
    } else {
        glob_body(s.drop_last()) + glob_char(s.last())
    }
}

/// A glob as a regular expression for the whole text: `*` is any sequence, every other
/// character is itself.
pub open spec fn glob_pattern(s: Seq<char>) -> Seq<char> {
    seq!['^'] + glob_body(s) + seq!['$']
}

/// A glob as a regular expression.
pub fn compile_glob(pat: &str) -> (r: String)
    ensures
        r@ == glob_pattern(pat@),
{
    let v = chars_of(pat);
    let mut out = String::new();
    out.push('^');
    let mut i: usize = 0;
    assert(out@ =~= seq!['^'] + glob_body(v@.take(0)));
    while i < v.len()
        invariant
            0 <= i <= v@.len(),
            v@ == pat@,
            out@ == seq!['^'] + glob_body(v@.take(i as int)),
        decreases v@.len() - i,
    {
        let c: char = v[i];
        let ghost before = out@;
        if c == '*' {
            out.push('.');
            out.push('*');
        } else if c == '.' || c == '+' || c == '?' || c == '(' || c == ')' || c == '[' || c == ']' || c
            == '{' || c == '}' || c == '|' || c == '\\' || c == '^' || c == '$' {
            out.push('\\');
            out.push(c);
        } else {
            out.push(c);
        }
        proof {
            let t = v@.take(i + 1);
            assert(t.drop_last() =~= v@.take(i as int));
            assert(t.last() == c);
            assert(out@ =~= before + glob_char(c));
            assert(out@ =~= seq!['^'] + glob_body(t));
        }
        i += 1;
    }
    assert(v@.take(i as int) =~= v@);
    out.push('$');
    assert(out@ =~= glob_pattern(pat@));
    out
}

/// Whether a glob matches a whole text.
pub fn glob_matches(pat: &str, text: &str) -> (r: bool)
    ensures
        r == regex_match(glob_pattern(pat@), text@),
{
    let p = compile_glob(pat);
    regex_is_match(p.as_str(), text)
}

/// What is wrong with a date.
#[derive(Debug, Clone, Copy, PartialEq, Eq, Structural)]
pub enum DateError {
    Shape,
    Year,
    Month,
    Day,
    Range,
}

impl DateError {
    /// The error in words, about the date `s`.
    pub open spec fn text(self, s: Seq<char>) -> Seq<char> {
        match self {
            DateError::Shape => "expected YYYY-MM-DD, got "@ + quoted_text(s),
            DateError::Year => "bad year in "@ + quoted_text(s),
            DateError::Month => "bad month in "@ + quoted_text(s),
            DateError::Day => "bad day in "@ + quoted_text(s),
            DateError::Range => "out-of-range date "@ + quoted_text(s),
        }
    }

    /// The error in words, about the date `s`.
    pub fn message(&self, s: &str) -> (r: String)
        ensures
            r@ == self.text(s@),
    {
        let q = quoted(s);
        match self {
            DateError::Shape => String::from_str("expected YYYY-MM-DD, got ").concat(q.as_str()),
            DateError::Year => String::from_str("bad year in ").concat(q.as_str()),
            DateError::Month => String::from_str("bad month in ").concat(q.as_str()),
            DateError::Day => String::from_str("bad day in ").concat(q.as_str()),
            DateError::Range => String::from_str("out-of-range date ").concat(q.as_str()),
        }
    }
}

/// The start of a day in seconds since 1970, or of the next where `end`; 0 for an empty
/// text. The months have up to 31 days, the years go from 1970 to 2999.
pub open spec fn date_unix(s: Seq<char>, end: bool) -> Result<u64, DateError> {
    let t = trim(s);
    if t.len() == 0 {
        Ok(0)
    } else {
        let p = split(t, '-');
        if p.len() != 3 {
            Err(DateError::Shape)
        } else {
            match (
                number(p[0], i64::MAX as nat),
                number(p[1], u32::MAX as nat),
                number(p[2], u32::MAX as nat),
            ) {
                (None, _, _) => Err(DateError::Year),
                (Some(_), None, _) => Err(DateError::Month),
                (Some(_), Some(_), None) => Err(DateError::Day),
                (Some(y), Some(m), Some(d)) => if !(1 <= m <= 12) || !(1 <= d <= 31) || !(1970 <= y
                    <= 2999) {
                    Err(DateError::Range)
                } else {
                    Ok(
                        (days_to(y as int, m as int, d as int) * 86_400 + if end {
                            86_400int
                        } else {
                            0
                        }) as u64,
                    )
                },
            }
        }
    }
}

/// The start of a day in seconds since 1970, or of the next where `inclusive_end`.
pub fn parse_date_to_unix(s: &str, inclusive_end: bool) -> (r: Result<u64, DateError>)
    ensures
        r == date_unix(s@, inclusive_end),
{
    let v = chars_of(s);
    let t = trimmed(v.as_slice());
    if t.len() == 0 {
        return Ok(0);
    }
    let parts = split_on(t, '-');
    let ghost p = split(t@, '-');
    assert(deep(parts@).len() == parts@.len());
    if parts.len() != 3 {
        return Err(DateError::Shape);
    }
    assert(p[0] == parts@[0]@ && p[1] == parts@[1]@ && p[2] == parts@[2]@);
    let y: u64 = match parse_number(parts[0].as_slice(), 0x7fff_ffff_ffff_ffff) {
        Some(y) => y,
        None => {
            return Err(DateError::Year);
        },
    };
    let m: u64 = match parse_number(parts[1].as_slice(), 0xffff_ffff) {
        Some(m) => m,
        None => {
            return Err(DateError::Month);
        },
    };
    let d: u64 = match parse_number(parts[2].as_slice(), 0xffff_ffff) {
        Some(d) => d,
        None => {
            return Err(DateError::Day);
        },
    };
    if m < 1 || m > 12 || d < 1 || d > 31 || y < 1970 || y > 2999 {
        return Err(DateError::Range);
    }
    let secs: u64 = ymd_to_unix(y as i64, m as u32, d as u32);
    if inclusive_end {
        Ok(secs + 86_400)
    } else {
        Ok(secs)
    }
}

/// A filter: a regular expression for the name, and the two ends of a range of dates; 0
/// where there is none.
#[derive(Debug, Clone)]
pub struct CatalogFilter {
    pub name_re: Option<String>,
    pub from_unix: u64,
    pub to_unix_exclusive: u64,
}

/// Whether the date of an entry passes: an entry without a date always does.
pub open spec fn date_passes(f: CatalogFilter, created: u64) -> bool {
    created == 0 || ((f.from_unix == 0 || created >= f.from_unix) && (f.to_unix_exclusive == 0
        || created < f.to_unix_exclusive))
}

/// Whether the name of an entry passes: the last segment of the path is what counts.
pub open spec fn name_passes(f: CatalogFilter, name: Seq<char>) -> bool {
    f.name_re matches Some(re) ==> regex_match(re@, after_last(name, '/'))
}

/// Whether an entry passes.
pub open spec fn passes(f: CatalogFilter, e: CatalogEntry) -> bool {
    name_passes(f, e.name@) && date_passes(f, e.created_at_unix)
}

impl CatalogFilter {
    /// The filter for a glob and two dates, or what is wrong with them in words.
    pub fn parse(name_glob: &str, from: &str, to: &str) -> (r: Result<CatalogFilter, String>)
        ensures
            ({
                let glob = trim(name_glob@);
                let pattern = glob_pattern(glob);
                if glob.len() > 0 && regex_error(pattern) is Some {
                    r matches Err(t) && t@ == "bad name filter: "@ + regex_error(pattern)->0
                } else {
                    match (date_unix(from@, false), date_unix(to@, true)) {
                        (Err(e), _) => r matches Err(t) && t@ == "bad `from` date: "@ + e.text(
                            trim(from@),
                        ),
                        (Ok(_), Err(e)) => r matches Err(t) && t@ == "bad `to` date: "@ + e.text(
                            trim(to@),
                        ),
                        (Ok(a), Ok(b)) => {
                            &&& r matches Ok(f)
                            &&& r->Ok_0.from_unix == a
                            &&& r->Ok_0.to_unix_exclusive == b
                            &&& if glob.len() == 0 {
                                r->Ok_0.name_re is None
                            } else {
                                r->Ok_0.name_re matches Some(p) && p@ == pattern
                            }
                        },
                    }
                }
            }),
    {
        let g = chars_of(name_glob);
        let glob = trimmed(g.as_slice());
        let name_re: Option<String> = if glob.len() == 0 {
            None
        } else {
            let text = string_of(glob);
            let p = compile_glob(text.as_str());
            match check_regex(p.as_str()) {
                Some(e) => {
                    return Err(String::from_str("bad name filter: ").concat(e.as_str()));
                },
                None => {},
            }
            Some(p)
        };
        let from_unix: u64 = match parse_date_to_unix(from, false) {
            Ok(t) => t,
            Err(e) => {
                let c = chars_of(from);
                let s = string_of(trimmed(c.as_slice()));
                return Err(String::from_str("bad `from` date: ").concat(e.message(s.as_str()).as_str()));
            },
        };
        let to_unix_exclusive: u64 = match parse_date_to_unix(to, true) {
            Ok(t) => t,
            Err(e) => {
                let c = chars_of(to);
                let s = string_of(trimmed(c.as_slice()));
                return Err(String::from_str("bad `to` date: ").concat(e.message(s.as_str()).as_str()));
            },
        };
        Ok(CatalogFilter { name_re, from_unix, to_unix_exclusive })
    }

    /// Whether the filter lets everything pass.
    pub fn is_empty(&self) -> (r: bool)
        ensures
            r == (self.name_re is None && self.from_unix == 0 && self.to_unix_exclusive == 0),
    {
        self.name_re.is_none() && self.from_unix == 0 && self.to_unix_exclusive == 0
    }

    /// Whether an entry passes.
    pub fn matches(&self, entry: &CatalogEntry) -> (r: bool)
        ensures
            r == passes(*self, *entry),
    {
        let name_ok: bool = match &self.name_re {
            Some(re) => {
                let v = chars_of(entry.name.as_str());
                let leaf = string_of(behind_last(v.as_slice(), '/'));
                regex_is_match(re.as_str(), leaf.as_str())
            },
            None => true,
        };
        self.matches_with(entry, name_ok)
    }

    /// Whether an entry passes, given whether its name does.
    pub fn matches_with(&self, entry: &CatalogEntry, name_ok: bool) -> (r: bool)
        ensures
            r == (name_ok && date_passes(*self, entry.created_at_unix)),
    {
        if !name_ok {
            return false;
        }
        let has_ts: bool = entry.created_at_unix != 0;
        if self.from_unix != 0 && has_ts && entry.created_at_unix < self.from_unix {
            return false;
        }
        if self.to_unix_exclusive != 0 && has_ts && entry.created_at_unix >= self.to_unix_exclusive {
            return false;
        }
        true
    }
}

/// An empty filter lets every entry pass.
pub proof fn empty_filter_passes_everything(f: CatalogFilter, e: CatalogEntry)
    requires
        f.name_re is None,
        f.from_unix == 0,
        f.to_unix_exclusive == 0,
    ensures
        passes(f, e),
{
}

/// Where the two ends of a range are given as the same day, entries of that day pass, and
/// no other that has a date.
pub proof fn one_day_range_holds_that_day(s: Seq<char>, created: u64)
    requires
        date_unix(s, false) matches Ok(a) && a > 0,
        created > 0,
    ensures
        ({
            let f = CatalogFilter {
                name_re: None,
                from_unix: date_unix(s, false)->Ok_0,
                to_unix_exclusive: date_unix(s, true)->Ok_0,
            };
            date_passes(f, created) <==> created as int / 86_400 == date_unix(s, false)->Ok_0 as int
                / 86_400
        }),
{
    let t = trim(s);
    let p = split(t, '-');
    let y = number(p[0], i64::MAX as nat)->0;
    let m = number(p[1], u32::MAX as nat)->0;
    let d = number(p[2], u32::MAX as nat)->0;
    crate::calendar::lemma_days_bounded(y as int, m as int, d as int);
}

} // verus!
