//! The help pages: which there are, and how their text becomes HTML.
use vstd::prelude::*;
use vstd::string::StringExecFns;

use pulldown_cmark::{html, CodeBlockKind, CowStr, Event, Options, Parser, Tag, TagEnd};

use crate::text::{
    after_last, behind_last, chars_of, deep, ends, find, find_char, line_chars, lines, lowered,
    lowered_chars, same_text, skip_chars, starts, string_of, strip_prefix, strip_suffix, take_chars,
    trim, trim_start, trim_start_str, trimmed, trimmed_start, trimmed_start_str,
};
use crate::text_laws::lacks;

verus! {

/// The languages of the help pages: code and name, in the order of the menu.
pub fn supported_locales() -> (r: Vec<(&'static str, &'static str)>)
    ensures
        r@.len() == 5,
        r@[0].0@ == "en"@ && r@[0].1@ == "English"@,
        r@[1].0@ == "ru"@ && r@[1].1@ == "Русский"@,
        r@[2].0@ == "de"@ && r@[2].1@ == "Deutsch"@,
        r@[3].0@ == "fr"@ && r@[3].1@ == "Français"@,
        r@[4].0@ == "es"@ && r@[4].1@ == "Español"@,
{
    let mut v: Vec<(&'static str, &'static str)> = Vec::new();
    v.push(("en", "English"));
    v.push(("ru", "Русский"));
    v.push(("de", "Deutsch"));
    v.push(("fr", "Français"));
    v.push(("es", "Español"));
    v
}

/// Whether there are help pages in a language.
pub open spec fn is_locale(l: Seq<char>) -> bool {
    l == "en"@ || l == "ru"@ || l == "de"@ || l == "fr"@ || l == "es"@
}

/// Whether there are help pages in a language.
pub fn is_supported_locale(l: &str) -> (r: bool)
    ensures
        r == is_locale(l@),
{
    same_text(l, "en") || same_text(l, "ru") || same_text(l, "de") || same_text(l, "fr") || same_text(
        l,
        "es",
    )
}

/// The language of a page: the one that was asked for where there are help pages in it,
/// else English.
pub fn page_locale(asked: Option<&str>) -> (r: String)
    ensures
        r@ == match asked {
            Some(l) => if is_locale(l@) {
                l@
            } else {
                "en"@
            },
            None => "en"@,
        },
{
    match asked {
        Some(l) => if is_supported_locale(l) {
            String::from_str(l)
        } else {
            String::from_str("en")
        },
        None => String::from_str("en"),
    }
}

/// The link to a help page in a language.
pub fn help_href(slug_enc: &str, locale: &str) -> (r: String)
    ensures
        r@ == "/help/"@ + slug_enc@ + "?lang="@ + locale@,
{
    String::from_str("/help/").concat(slug_enc).concat("?lang=").concat(locale)
}

/// The class of a page's link in the sidebar.
pub fn sidebar_class(slug: &str, active: &str) -> (r: &'static str)
    ensures
        r@ == if slug@ == active@ {
            "active"@
        } else {
            ""@
        },
{
    if same_text(slug, active) {
        "active"
    } else {
        ""
    }
}

/// A page in the sidebar.
#[derive(Debug, Clone, PartialEq, Eq)]
pub struct DocItem {
    pub slug: String,
    pub title: String,
}

/// A page as it is shown.
#[derive(Debug, Clone, PartialEq, Eq)]
pub struct RenderedDoc {
    pub slug: String,
    pub title: String,
    pub html: String,
    /// The language that it is in.
    pub locale: String,
}

/// The help pages: name and title.
pub fn doc_slugs() -> (r: Vec<(&'static str, &'static str)>)
    ensures
        r@.len() == 7,
        forall|i: int| 0 <= i < 7 ==> (#[trigger] r@[i]).0@ == slug_at(i) && r@[i].1@ == title_at(i),
{
    let mut v: Vec<(&'static str, &'static str)> = Vec::new();
    v.push(("README", "Documentation index"));
    v.push(("architecture", "Architecture"));
    v.push(("api", "API reference"));
    v.push(("operations", "Operations guide"));
    v.push(("theory", "Theory"));
    v.push(("threat-model", "Threat model"));
    v.push(("test-scenarios", "Test scenarios"));
    v
}

/// The name of a help page.
pub open spec fn slug_at(i: int) -> Seq<char> {
    if i == 0 {
        "README"@
    } else if i == 1 {
        "architecture"@
    } else if i == 2 {
        "api"@
    } else if i == 3 {
        "operations"@
    } else if i == 4 {
        "theory"@
    } else if i == 5 {
        "threat-model"@
    } else {
        "test-scenarios"@
    }
}

/// The title of a help page where its text gives none.
pub open spec fn title_at(i: int) -> Seq<char> {
    if i == 0 {
        "Documentation index"@
    } else if i == 1 {
        "Architecture"@
    } else if i == 2 {
        "API reference"@
    } else if i == 3 {
        "Operations guide"@
    } else if i == 4 {
        "Theory"@
    } else if i == 5 {
        "Threat model"@
    } else {
        "Test scenarios"@
    }
}

/// Whether there is a help page with this name.
pub open spec fn is_slug(s: Seq<char>) -> bool {
    exists|i: int| 0 <= i < 7 && s == #[trigger] slug_at(i)
}

/// Whether there is a help page with this name.
pub fn is_known_slug(s: &str) -> (r: bool)
    ensures
        r == is_slug(s@),
{
    let all = doc_slugs();
    let mut i: usize = 0;
    while i < all.len()
        invariant
            0 <= i <= all@.len(),
            all@.len() == 7,
            forall|j: int| 0 <= j < 7 ==> (#[trigger] all@[j]).0@ == slug_at(j),
            forall|j: int| 0 <= j < i ==> s@ != #[trigger] slug_at(j),
        decreases all@.len() - i,
    {
        assert(all@[i as int].0@ == slug_at(i as int));
        if same_text(s, all[i].0) {
            return true;
        }
        i += 1;
    }
    false
}

/// Why a help page is not served.
#[derive(Debug, Clone, Copy, PartialEq, Eq, Structural)]
pub enum DocError {
    UnsupportedLocale,
    UnknownSlug,
}

impl DocError {
    /// The error in words.
    pub fn message(&self) -> (r: &'static str)
        ensures
            r@ == match self {
                DocError::UnsupportedLocale => "unsupported locale"@,
                DocError::UnknownSlug => "unknown doc slug"@,
            },
    {
        match self {
            DocError::UnsupportedLocale => "unsupported locale",
            DocError::UnknownSlug => "unknown doc slug",
        }
    }
}

/// Whether a help page can be asked for; only known languages and names reach the disk.
pub fn check_doc(locale: &str, slug: &str) -> (r: Result<(), DocError>)
    ensures
        r == if !is_locale(locale@) {
            Err::<(), DocError>(DocError::UnsupportedLocale)
        } else if !is_slug(slug@) {
            Err(DocError::UnknownSlug)
        } else {
            Ok(())
        },
{
    if !is_supported_locale(locale) {
        Err(DocError::UnsupportedLocale)
    } else if !is_known_slug(slug) {
        Err(DocError::UnknownSlug)
    } else {
        Ok(())
    }
}

/// The files in which a help page may be, best first, each with the language that it is in.
pub fn doc_candidates(locale: &str, slug: &str) -> (r: Vec<(String, String)>)
    ensures
        r@.len() == 3,
        r@[0].0@ == locale@ && r@[0].1@ == "docs/"@ + locale@ + "/"@ + slug@ + ".md"@,
        r@[1].0@ == "en"@ && r@[1].1@ == "docs/"@ + slug@ + ".md"@,
        r@[2].0@ == "en"@ && r@[2].1@ == "docs/en/"@ + slug@ + ".md"@,
{
    let mut v: Vec<(String, String)> = Vec::new();
    v.push(
        (
            String::from_str(locale),
            String::from_str("docs/").concat(locale).concat("/").concat(slug).concat(".md"),
        ),
    );
    v.push((String::from_str("en"), String::from_str("docs/").concat(slug).concat(".md")));
    v.push((String::from_str("en"), String::from_str("docs/en/").concat(slug).concat(".md")));
    v
}

/// The help page among the files in which it may be, with the language that it is in: `files`
/// holds what each of them has, best first, none where it cannot be read.
pub fn read_doc(locale: &str, slug: &str, files: &Vec<Option<String>>) -> (r: Result<
    (String, String),
    String,
>)
    requires
        files@.len() == 3,
    ensures
        match (files@[0], files@[1], files@[2]) {
            (Some(t), _, _) => r matches Ok(p) && p.0@ == locale@ && p.1@ == t@,
            (None, Some(t), _) => r matches Ok(p) && p.0@ == "en"@ && p.1@ == t@,
            (None, None, Some(t)) => r matches Ok(p) && p.0@ == "en"@ && p.1@ == t@,
            (None, None, None) => r matches Err(e) && e@ == "doc not found: "@ + locale@ + "/"@ + slug@,
        },
{
    match (&files[0], &files[1], &files[2]) {
        (Some(t), _, _) => Ok((String::from_str(locale), String::from_str(t.as_str()))),
        (None, Some(t), _) => Ok((String::from_str("en"), String::from_str(t.as_str()))),
        (None, None, Some(t)) => Ok((String::from_str("en"), String::from_str(t.as_str()))),
        (None, None, None) => Err(
            String::from_str("doc not found: ").concat(locale).concat("/").concat(slug),
        ),
    }
}

/// The title that a help page gives itself, if it can be read and has one.
pub fn read_h1(locale: &str, slug: &str, files: &Vec<Option<String>>) -> (r: Option<String>)
    requires
        files@.len() == 3,
    ensures
        crate::form::opt_text(r) == match (files@[0], files@[1], files@[2]) {
            (Some(t), _, _) => title_in(lines(t@)),
            (None, Some(t), _) => title_in(lines(t@)),
            (None, None, Some(t)) => title_in(lines(t@)),
            (None, None, None) => None,
        },
{
    match read_doc(locale, slug, files) {
        Ok(p) => extract_h1(p.1.as_str()),
        Err(_) => None,
    }
}

/// The first heading among some lines.
pub open spec fn first_heading(ls: Seq<Seq<char>>) -> Option<Seq<char>>
    decreases ls.len(),
{
    if ls.len() == 0 {
        None
    } else {
        let l = trim_start(ls[0]);
        if starts(l, "# "@) {
            Some(trim(l.skip(2)))
        } else {
            first_heading(ls.drop_first())
        }
    }
}

/// Whether a line underlines a title: it has `=` only.
pub open spec fn is_underline(l: Seq<char>) -> bool {
    &&& trim(l).len() > 0
    &&& forall|i: int| 0 <= i < trim(l).len() ==> #[trigger] trim(l)[i] == '='
}

/// The first title among some lines that is underlined.
pub open spec fn first_underlined(ls: Seq<Seq<char>>) -> Option<Seq<char>>
    decreases ls.len(),
{
    if ls.len() < 2 {
        None
    } else if trim(ls[0]).len() > 0 && is_underline(ls[1]) {
        Some(trim(ls[0]))
    } else {
        first_underlined(ls.drop_first())
    }
}

/// The title that some lines give: the first heading, or else the first text that is underlined.
pub open spec fn title_in(ls: Seq<Seq<char>>) -> Option<Seq<char>> {
    match first_heading(ls) {
        Some(t) => Some(t),
        None => first_underlined(ls),
    }
}

/// Whether a line underlines a title.
fn underlines(l: &[char]) -> (r: bool)
    ensures
        r == is_underline(l@),
{
    let t = trimmed(l);
    if t.len() == 0 {
        return false;
    }
    let mut i: usize = 0;
    while i < t.len()
        invariant
            0 <= i <= t@.len(),
            t@ == trim(l@),
            forall|j: int| 0 <= j < i ==> #[trigger] t@[j] == '=',
        decreases t@.len() - i,
    {
        if t[i] != '=' {
            assert(trim(l@)[i as int] != '=');
            return false;
        }
        i += 1;
    }
    true
}

/// The title of a document: the text of the first line that begins with `# `, or else of the
/// first one with a line of `=` below it.
pub fn extract_h1(md: &str) -> (r: Option<String>)
    ensures
        crate::form::opt_text(r) == title_in(lines(md@)),
{
    proof {
        reveal_strlit("# ");
    }
    let v = chars_of(md);
    let ls = line_chars(v.as_slice());
    let ghost all = deep(ls@);
    let mut i: usize = 0;
    assert(all.skip(0) =~= all);
    while i < ls.len()
        invariant
            0 <= i <= ls@.len(),
            all == deep(ls@),
            all == lines(md@),
            "# "@.len() == 2,
            first_heading(all) == first_heading(all.skip(i as int)),
        decreases ls@.len() - i,
    {
        let ghost rest = all.skip(i as int);
        assert(rest[0] == ls@[i as int]@);
        assert(rest.drop_first() =~= all.skip(i + 1));
        let l = trimmed_start(ls[i].as_slice());
        match strip_prefix(l, "# ") {
            Some(t) => {
                return Some(string_of(trimmed(t)));
            },
            None => {},
        }
        i += 1;
    }
    assert(first_heading(all) is None);
    let mut k: usize = 0;
    while k < ls.len()
        invariant
            0 <= k <= ls@.len(),
            all == deep(ls@),
            all == lines(md@),
            first_heading(all) is None,
            first_underlined(all) == first_underlined(all.skip(k as int)),
        decreases ls@.len() - k,
    {
        let ghost rest = all.skip(k as int);
        assert(rest[0] == ls@[k as int]@);
        assert(rest.drop_first() =~= all.skip(k + 1));
        if k + 1 < ls.len() {
            assert(rest[1] == ls@[k + 1]@);
            let t = trimmed(ls[k].as_slice());
            if t.len() > 0 && underlines(ls[k + 1].as_slice()) {
                return Some(string_of(t));
            }
        }
        k += 1;
    }
    None
}

/// The list of help pages, with the titles that their texts give.
pub fn list_docs(locale: &str, h1: &Vec<Option<String>>) -> (r: Result<Vec<DocItem>, DocError>)
    requires
        h1@.len() == 7,
    ensures
        if !is_locale(locale@) {
            r matches Err(e) && e == DocError::UnsupportedLocale
        } else {
            r matches Ok(v) && v@.len() == 7 && forall|i: int|
                0 <= i < 7 ==> (#[trigger] v@[i]).slug@ == slug_at(i) && v@[i].title@ == match h1@[i] {
                    Some(t) => t@,
                    None => title_at(i),
                }
        },
{
    if !is_supported_locale(locale) {
        return Err(DocError::UnsupportedLocale);
    }
    let all = doc_slugs();
    let mut out: Vec<DocItem> = Vec::new();
    let mut i: usize = 0;
    while i < 7
        invariant
            0 <= i <= 7,
            h1@.len() == 7,
            all@.len() == 7,
            forall|j: int|
                0 <= j < 7 ==> (#[trigger] all@[j]).0@ == slug_at(j) && all@[j].1@ == title_at(j),
            out@.len() == i,
            forall|j: int|
                0 <= j < i ==> (#[trigger] out@[j]).slug@ == slug_at(j) && out@[j].title@ == match h1@[j] {
                    Some(t) => t@,
                    None => title_at(j),
                },
        decreases 7 - i,
    {
        assert(all@[i as int].0@ == slug_at(i as int));
        let title = match &h1[i] {
            Some(t) => t.clone(),
            None => String::from_str(all[i].1),
        };
        out.push(DocItem { slug: String::from_str(all[i].0), title });
        i += 1;
    }
    Ok(out)
}

/// A character as it stands in HTML.
pub open spec fn html_char(c: char) -> Seq<char> {
    if c == '&' {
        "&amp;"@
    } else if c == '<' {
        "&lt;"@
    } else if c == '>' {
        "&gt;"@
    } else if c == '"' {
        "&quot;"@
    } else if c == '\'' {
        "&#39;"@
    } else {
        seq![c]
    }
}

/// A text as it stands in HTML.
pub open spec fn html_text(s: Seq<char>) -> Seq<char>
    decreases s.len(),
{
    if s.len() == 0 {
        s
    } else {
        html_text(s.drop_last()) + html_char(s.last())
    }
}

/// A text as it stands in HTML.
pub fn html_escape(s: &str) -> (r: String)
    ensures
        r@ == html_text(s@),
{
    let v = chars_of(s);
    let mut out = String::new();
    let mut i: usize = 0;
    assert(v@.take(0) =~= Seq::<char>::empty());
    while i < v.len()
        invariant
            0 <= i <= v@.len(),
            v@ == s@,
            out@ == html_text(v@.take(i as int)),
        decreases v@.len() - i,
    {
        let c: char = v[i];
        let ghost before = out@;
        if c == '&' {
            out.append("&amp;");
        } else if c == '<' {
            out.append("&lt;");
        } else if c == '>' {
            out.append("&gt;");
        } else if c == '"' {
            out.append("&quot;");
        } else if c == '\'' {
            out.append("&#39;");
        } else {
            out.push(c);
        }
        proof {
            let t = v@.take(i + 1);
            assert(t.drop_last() =~= v@.take(i as int));
            assert(t.last() == c);
            assert(out@ =~= before + html_char(c));
        }
        i += 1;
    }
    assert(v@.take(i as int) =~= v@);
    out
}

/// A text as it stands in HTML opens no tag, closes none and ends no attribute.
pub proof fn html_text_has_no_markup(s: Seq<char>)
    ensures
        lacks(html_text(s), '<'),
        lacks(html_text(s), '>'),
        lacks(html_text(s), '"'),
        lacks(html_text(s), '\''),
    decreases s.len(),
{
    reveal_strlit("&amp;");
    reveal_strlit("&lt;");
    reveal_strlit("&gt;");
    reveal_strlit("&quot;");
    reveal_strlit("&#39;");
    if s.len() > 0 {
        html_text_has_no_markup(s.drop_last());
    }
}

/// A text that stands in HTML, as it is shown.
pub open spec fn shown(t: Seq<char>) -> Seq<char>
    decreases t.len(),
{
    if t.len() == 0 {
        t
    } else if t.len() >= 5 && starts(t, "&amp;"@) {
        seq!['&'] + shown(t.skip(5))
    } else if t.len() >= 4 && starts(t, "&lt;"@) {
        seq!['<'] + shown(t.skip(4))
    } else if t.len() >= 4 && starts(t, "&gt;"@) {
        seq!['>'] + shown(t.skip(4))
    } else if t.len() >= 6 && starts(t, "&quot;"@) {
        seq!['"'] + shown(t.skip(6))
    } else if t.len() >= 5 && starts(t, "&#39;"@) {
        seq!['\''] + shown(t.skip(5))
    } else {
        seq![t[0]] + shown(t.skip(1))
    }
}

proof fn lemma_html_front(s: Seq<char>)
    requires
        s.len() > 0,
    ensures
        html_text(s) == html_char(s[0]) + html_text(s.drop_first()),
    decreases s.len(),
{
    let t = s.drop_last();
    if t.len() == 0 {
        assert(s.drop_first() =~= Seq::<char>::empty());
        assert(html_text(t) =~= Seq::<char>::empty());
        assert(html_text(s) =~= html_char(s[0]) + html_text(s.drop_first()));
    } else {
        lemma_html_front(t);
        assert(t.drop_first() =~= s.drop_first().drop_last());
        assert(s.drop_first().last() == s.last());
        assert(html_text(s) =~= html_char(s[0]) + html_text(s.drop_first()));
    }
}

/// A text that stands in HTML is shown as it was.
pub proof fn html_text_is_shown_as_it_was(s: Seq<char>)
    ensures
        shown(html_text(s)) == s,
    decreases s.len(),
{
    reveal_strlit("&amp;");
    reveal_strlit("&lt;");
    reveal_strlit("&gt;");
    reveal_strlit("&quot;");
    reveal_strlit("&#39;");
    if s.len() > 0 {
        let rest = s.drop_first();
        let c = s[0];
        let h = html_char(c);
        let t = html_text(s);
        lemma_html_front(s);
        html_text_is_shown_as_it_was(rest);
        assert(t.skip(h.len() as int) =~= html_text(rest));
        assert(t.take(h.len() as int) =~= h);
        assert(t[0] == h[0]);
        if c == '&' || c == '<' || c == '>' || c == '"' || c == '\'' {
            assert(t[1] == h[1]);
            assert("&amp;"@[1] == 'a');
            assert("&lt;"@[1] == 'l');
            assert("&gt;"@[1] == 'g');
            assert("&quot;"@[1] == 'q');
            assert("&#39;"@[1] == '#');
            assert(starts(t, "&amp;"@) ==> t.take(5)[1] == 'a');
            assert(starts(t, "&lt;"@) ==> t.take(4)[1] == 'l');
            assert(starts(t, "&gt;"@) ==> t.take(4)[1] == 'g');
            assert(starts(t, "&quot;"@) ==> t.take(6)[1] == 'q');
            assert(starts(t, "&#39;"@) ==> t.take(5)[1] == '#');
        } else {
            assert(starts(t, "&amp;"@) ==> t.take(5)[0] == '&');
            assert(starts(t, "&lt;"@) ==> t.take(4)[0] == '&');
            assert(starts(t, "&gt;"@) ==> t.take(4)[0] == '&');
            assert(starts(t, "&quot;"@) ==> t.take(6)[0] == '&');
            assert(starts(t, "&#39;"@) ==> t.take(5)[0] == '&');
        }
        assert(shown(t) =~= seq![c] + rest);
        assert(seq![c] + rest =~= s);
    }
}

/// Whether a link leads out of the help pages: it names a protocol or a host.
pub open spec fn is_external(dest: Seq<char>) -> bool {
    let l = lowered(dest);
    starts(l, "http://"@) || starts(l, "https://"@) || starts(l, "mailto:"@) || starts(l, "//"@)
}

/// Where a link of a document leads: a link to another document, whatever its directory, to
/// that help page, with the part behind `#`; any other where it led.
pub open spec fn help_target(dest: Seq<char>) -> Seq<char> {
    if is_external(dest) {
        dest
    } else {
        let h = find(dest, '#');
        let leaf = after_last(trim_start_str(trim_start_str(dest.take(h), "./"@), "../"@), '/');
        if ends(leaf, ".md"@) {
            "/help/"@ + leaf.take(leaf.len() - 3) + (if h < dest.len() {
                "#"@ + dest.skip(h + 1)
            } else {
                Seq::empty()
            })
        } else {
            dest
        }
    }
}

/// Where a link of a document leads.
pub fn rewrite_md_link(dest: &str) -> (r: String)
    ensures
        r@ == help_target(dest@),
{
    proof {
        reveal_strlit("./");
        reveal_strlit("../");
        reveal_strlit(".md");
    }
    let v = chars_of(dest);
    let low = lowered_chars(v.as_slice());
    let l = low.as_slice();
    if strip_prefix(l, "http://").is_some() || strip_prefix(l, "https://").is_some() || strip_prefix(
        l,
        "mailto:",
    ).is_some() || strip_prefix(l, "//").is_some() {
        return String::from_str(dest);
    }
    let h: usize = find_char(v.as_slice(), '#');
    let path = take_chars(v.as_slice(), h);
    let stripped = trimmed_start_str(trimmed_start_str(path, "./"), "../");
    let leaf = behind_last(stripped, '/');
    match strip_suffix(leaf, ".md") {
        Some(slug) => {
            let mut out = String::from_str("/help/").concat(string_of(slug).as_str());
            if h < v.len() {
                out.append("#");
                out.append(string_of(skip_chars(v.as_slice(), h + 1)).as_str());
            }
            assert(out@ =~= help_target(dest@));
            out
        },
        None => String::from_str(dest),
    }
}

/// What of Markdown is understood beyond its core: tables, footnotes, strikethrough, task
/// lists, mathematics and alerts, as the parser's flags.
pub const MARKDOWN_FLAGS: u32 = 2 + 4 + 8 + 16 + 1024 + 2048;

/// A piece of a document, as far as its rendering depends on it.
#[derive(Debug)]
pub enum Token {
    /// A fenced code block in this language begins.
    FencedStart(String),
    /// A code block ends.
    CodeEnd,
    Text(String),
    InlineMath(String),
    DisplayMath(String),
    /// A link to this begins.
    LinkStart(String),
    Other,
}

/// A piece of a document, as a mathematical value.
pub enum Tok {
    FencedStart(Seq<char>),
    CodeEnd,
    Text(Seq<char>),
    InlineMath(Seq<char>),
    DisplayMath(Seq<char>),
    LinkStart(Seq<char>),
    Other,
}

impl View for Token {
    type V = Tok;

    open spec fn view(&self) -> Tok {
        match *self {
            Token::FencedStart(s) => Tok::FencedStart(s@),
            Token::CodeEnd => Tok::CodeEnd,
            Token::Text(s) => Tok::Text(s@),
            Token::InlineMath(s) => Tok::InlineMath(s@),
            Token::DisplayMath(s) => Tok::DisplayMath(s@),
            Token::LinkStart(s) => Tok::LinkStart(s@),
            Token::Other => Tok::Other,
        }
    }
}

/// The pieces that `v` stands for.
pub open spec fn tok_views(v: Seq<Token>) -> Seq<Tok> {
    v.map_values(|t: Token| t@)
}

/// What is rendered in the place of a piece.
#[derive(Debug)]
pub enum Piece {
    /// The piece with this number, as it is.
    Keep(usize),
    /// This HTML.
    Html(String),
    /// The link that begins with the piece with this number, but to this.
    Link(usize, String),
}

/// What is rendered in the place of a piece, as a mathematical value.
pub enum Out {
    Keep(int),
    Html(Seq<char>),
    Link(int, Seq<char>),
}

impl View for Piece {
    type V = Out;

    open spec fn view(&self) -> Out {
        match *self {
            Piece::Keep(i) => Out::Keep(i as int),
            Piece::Html(s) => Out::Html(s@),
            Piece::Link(i, s) => Out::Link(i as int, s@),
        }
    }
}

/// What `v` stands for.
pub open spec fn out_views(v: Seq<Piece>) -> Seq<Out> {
    v.map_values(|p: Piece| p@)
}

/// The pieces into which a Markdown text is parsed.
pub uninterp spec fn md_tokens(md: Seq<char>, flags: u32) -> Seq<Tok>;

/// `pulldown-cmark`'s `Parser`: the events of a text, in order, depend on the text and the
/// flags alone.
#[verifier::external_body]
pub(crate) fn markdown_tokens(md: &str, flags: u32) -> (r: Vec<Token>)
    ensures
        tok_views(r@) == md_tokens(md@, flags),
{
    Parser::new_ext(md, Options::from_bits_truncate(flags))
        .map(|e| match e {
            Event::Start(Tag::CodeBlock(CodeBlockKind::Fenced(l))) => Token::FencedStart(l.to_string()),
            Event::End(TagEnd::CodeBlock) => Token::CodeEnd,
            Event::Text(t) => Token::Text(t.to_string()),
            Event::InlineMath(t) => Token::InlineMath(t.to_string()),
            Event::DisplayMath(t) => Token::DisplayMath(t.to_string()),
            Event::Start(Tag::Link { dest_url, .. }) => Token::LinkStart(dest_url.to_string()),
            _ => Token::Other,
        })
        .collect()
}

/// The HTML of a Markdown text with some of its pieces replaced.
pub uninterp spec fn md_html(md: Seq<char>, flags: u32, outs: Seq<Out>) -> Seq<char>;

/// `pulldown-cmark`'s `html::push_html`, on the events of a text with some of them replaced:
/// the HTML depends on the text, the flags and the replacements alone.
#[verifier::external_body]
pub(crate) fn markdown_html(md: &str, flags: u32, outs: &Vec<Piece>) -> (r: String)
    requires
        within(out_views(outs@), md_tokens(md@, flags).len()),
    ensures
        r@ == md_html(md@, flags, out_views(outs@)),
{
    let ev: Vec<Event> = Parser::new_ext(md, Options::from_bits_truncate(flags)).collect();
    let mut out = String::new();
    html::push_html(&mut out, outs.iter().map(|p| match p {
        Piece::Keep(i) => ev[*i].clone(),
        Piece::Html(s) => Event::Html(CowStr::from(s.clone())),
        Piece::Link(i, d) => match ev[*i].clone() {
            Event::Start(Tag::Link { link_type, title, id, .. }) =>
                Event::Start(Tag::Link { link_type, dest_url: CowStr::from(d.clone()), title, id }),
            other => other,
        },
    }));
    out
}

/// Whether every piece that is kept is one of `n`.
pub open spec fn within(outs: Seq<Out>, n: nat) -> bool {
    forall|i: int|
        0 <= i < outs.len() ==> match #[trigger] outs[i] {
            Out::Keep(k) => 0 <= k < n,
            Out::Link(k, _) => 0 <= k < n,
            Out::Html(_) => true,
        }
}

/// A diagram as it stands in HTML.
pub open spec fn diagram_html(src: Seq<char>) -> Seq<char> {
    "<div class=\"mermaid\">"@ + html_text(src) + "</div>"@
}

/// Mathematics in a line as it stands in HTML.
pub open spec fn inline_math_html(expr: Seq<char>) -> Seq<char> {
    "<span class=\"math math-inline\">\\("@ + html_text(expr) + "\\)</span>"@
}

/// Mathematics on its own as it stands in HTML.
pub open spec fn display_math_html(expr: Seq<char>) -> Seq<char> {
    "<div class=\"math math-display\">\\["@ + html_text(expr) + "\\]</div>"@
}

/// Where the rendering of a document stands: what is rendered so far, and the source of the
/// diagram that is being read.
pub struct Rendering {
    pub outs: Seq<Out>,
    pub diagram: Option<Seq<char>>,
}

/// The rendering after one more piece, the one with number `i`: a fenced block in the
/// language `mermaid` becomes a diagram, mathematics gets its delimiters, links between
/// documents lead to help pages, and anything else is kept.
pub open spec fn rendered_step(r: Rendering, i: int, t: Tok) -> Rendering {
    match (t, r.diagram) {
        (Tok::FencedStart(lang), _) => if lang == "mermaid"@ {
            Rendering { diagram: Some(Seq::empty()), ..r }
        } else {
            Rendering { outs: r.outs.push(Out::Keep(i)), ..r }
        },
        (Tok::CodeEnd, Some(src)) => Rendering {
            outs: r.outs.push(Out::Html(diagram_html(src))),
            diagram: None,
        },
        (Tok::Text(s), Some(src)) => Rendering { diagram: Some(src + s), ..r },
        (Tok::InlineMath(s), _) => Rendering {
            outs: r.outs.push(Out::Html(inline_math_html(s))),
            ..r
        },
        (Tok::DisplayMath(s), _) => Rendering {
            outs: r.outs.push(Out::Html(display_math_html(s))),
            ..r
        },
        (Tok::LinkStart(d), _) => Rendering {
            outs: r.outs.push(Out::Link(i, help_target(d))),
            ..r
        },
        _ => Rendering { outs: r.outs.push(Out::Keep(i)), ..r },
    }
}

/// The rendering of the first `n` pieces.
pub open spec fn rendered(toks: Seq<Tok>, n: int) -> Rendering
    decreases n,
{
    if n <= 0 {
        Rendering { outs: Seq::empty(), diagram: None }
    } else {
        rendered_step(rendered(toks, n - 1), n - 1, toks[n - 1])
    }
}

/// Adds a piece to a rendering.
fn push_piece(v: &mut Vec<Piece>, p: Piece)
    ensures
        out_views(final(v)@) == out_views(old(v)@).push(p@),
{
    let ghost before = out_views(v@);
    let ghost o = p@;
    v.push(p);
    assert(out_views(v@) =~= before.push(o));
}

/// What is rendered for the pieces of a document.
pub fn transform(toks: &Vec<Token>) -> (r: Vec<Piece>)
    ensures
        out_views(r@) == rendered(tok_views(toks@), toks@.len() as int).outs,
        within(out_views(r@), toks@.len()),
{
    let ghost all = tok_views(toks@);
    let mut outs: Vec<Piece> = Vec::new();
    let mut in_mermaid: bool = false;
    let mut src = String::new();
    let mut i: usize = 0;
    assert(out_views(outs@) =~= Seq::<Out>::empty());
    while i < toks.len()
        invariant
            0 <= i <= toks@.len(),
            all == tok_views(toks@),
            out_views(outs@) == rendered(all, i as int).outs,
            rendered(all, i as int).diagram == (if in_mermaid {
                Some(src@)
            } else {
                None
            }),
            within(out_views(outs@), toks@.len()),
        decreases toks@.len() - i,
    {
        assert(all[i as int] == toks@[i as int]@);
        let ghost before = out_views(outs@);
        match &toks[i] {
            Token::FencedStart(lang) => {
                if same_text(lang.as_str(), "mermaid") {
                    in_mermaid = true;
                    src = String::new();
                    assert(src@ =~= Seq::<char>::empty());
                } else {
                    push_piece(&mut outs, Piece::Keep(i));
                }
            },
            Token::CodeEnd => {
                if in_mermaid {
                    in_mermaid = false;
                    let h = String::from_str("<div class=\"mermaid\">").concat(
                        html_escape(src.as_str()).as_str(),
                    ).concat("</div>");
                    push_piece(&mut outs, Piece::Html(h));
                } else {
                    push_piece(&mut outs, Piece::Keep(i));
                }
            },
            Token::Text(s) => {
                if in_mermaid {
                    src.append(s.as_str());
                } else {
                    push_piece(&mut outs, Piece::Keep(i));
                }
            },
            Token::InlineMath(s) => {
                let h = String::from_str("<span class=\"math math-inline\">\\(").concat(
                    html_escape(s.as_str()).as_str(),
                ).concat("\\)</span>");
                push_piece(&mut outs, Piece::Html(h));
            },
            Token::DisplayMath(s) => {
                let h = String::from_str("<div class=\"math math-display\">\\[").concat(
                    html_escape(s.as_str()).as_str(),
                ).concat("\\]</div>");
                push_piece(&mut outs, Piece::Html(h));
            },
            Token::LinkStart(d) => {
                let to = rewrite_md_link(d.as_str());
                push_piece(&mut outs, Piece::Link(i, to));
            },
            Token::Other => {
                push_piece(&mut outs, Piece::Keep(i));
            },
        }
        proof {
            let now = out_views(outs@);
            assert(rendered(all, i + 1) == rendered_step(
                rendered(all, i as int),
                i as int,
                all[i as int],
            ));
            assert(now == rendered(all, i + 1).outs);
            assert forall|j: int| 0 <= j < now.len() implies match #[trigger] now[j] {
                Out::Keep(k) => 0 <= k < toks@.len(),
                Out::Link(k, _) => 0 <= k < toks@.len(),
                Out::Html(_) => true,
            } by {
                if j < before.len() {
                    assert(now[j] == before[j]);
                }
            }
        }
        i += 1;
    }
    outs
}

/// A Markdown text as HTML.
pub fn render_markdown(md: &str) -> (r: String)
    ensures
        ({
            let toks = md_tokens(md@, MARKDOWN_FLAGS);
            r@ == md_html(md@, MARKDOWN_FLAGS, rendered(toks, toks.len() as int).outs)
        }),
{
    let toks = markdown_tokens(md, MARKDOWN_FLAGS);
    let outs = transform(&toks);
    assert(tok_views(toks@).len() == toks@.len());
    markdown_html(md, MARKDOWN_FLAGS, &outs)
}

/// A help page as it is shown, from its text: its title is its first heading, or its name.
pub fn get_doc(slug: String, locale: String, md: &str) -> (r: RenderedDoc)
    ensures
        r.slug == slug,
        r.locale == locale,
        r.title@ == match title_in(lines(md@)) {
            Some(t) => t,
            None => slug@,
        },
        ({
            let toks = md_tokens(md@, MARKDOWN_FLAGS);
            r.html@ == md_html(md@, MARKDOWN_FLAGS, rendered(toks, toks.len() as int).outs)
        }),
{
    let title = match extract_h1(md) {
        Some(t) => t,
        None => slug.clone(),
    };
    let html = render_markdown(md);
    RenderedDoc { slug, title, html, locale }
}

} // verus!
