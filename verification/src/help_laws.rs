//! What holds of the help pages: which there are, what they are called, where their links lead, and
//! what becomes of their diagrams and formulas.
use vstd::prelude::*;

use crate::help::{
    diagram_html, display_math_html, first_heading, first_underlined, help_target, html_char, html_text,
    inline_math_html, is_external, is_locale, is_slug, is_underline, out_views, rendered, rendered_step,
    slug_at, title_at, title_in, tok_views, Out, Piece, Tok, Token,
};
use crate::text::{after_last, ends, lemma_find_is, lowered, starts, trim, trim_start, trim_start_str};
use crate::text_laws::{beginnings_and_ends, lacks, parts_around_the_last_separator};

verus! {

/// There are help pages in five languages and no other.
pub proof fn pages_are_in_five_languages(l: Seq<char>)
    ensures
        is_locale("en"@) && is_locale("ru"@) && is_locale("de"@) && is_locale("fr"@) && is_locale("es"@),
        is_locale(l) ==> seq!["en"@, "ru"@, "de"@, "fr"@, "es"@].contains(l),
{
    let v = seq!["en"@, "ru"@, "de"@, "fr"@, "es"@];
    assert(v[0] == "en"@ && v[1] == "ru"@ && v[2] == "de"@ && v[3] == "fr"@ && v[4] == "es"@);
}

/// There are seven help pages, each with its name and its title, and no other name is one of them.
pub proof fn pages_have_names_and_titles(s: Seq<char>)
    ensures
        slug_at(0) == "README"@ && title_at(0) == "Documentation index"@,
        slug_at(1) == "architecture"@ && title_at(1) == "Architecture"@,
        slug_at(2) == "api"@ && title_at(2) == "API reference"@,
        slug_at(3) == "operations"@ && title_at(3) == "Operations guide"@,
        slug_at(4) == "theory"@ && title_at(4) == "Theory"@,
        slug_at(5) == "threat-model"@ && title_at(5) == "Threat model"@,
        slug_at(6) == "test-scenarios"@ && title_at(6) == "Test scenarios"@,
        is_slug(s) <==> seq![
            "README"@,
            "architecture"@,
            "api"@,
            "operations"@,
            "theory"@,
            "threat-model"@,
            "test-scenarios"@,
        ].contains(s),
{
    let v = seq![
        "README"@,
        "architecture"@,
        "api"@,
        "operations"@,
        "theory"@,
        "threat-model"@,
        "test-scenarios"@,
    ];
    assert forall|i: int| 0 <= i < 7 implies v[i] == #[trigger] slug_at(i) by {}
    if is_slug(s) {
        let i = choose|i: int| 0 <= i < 7 && s == #[trigger] slug_at(i);
        assert(v[i] == s);
    }
    if v.contains(s) {
        let i = choose|i: int| 0 <= i < v.len() && v[i] == s;
        assert(s == slug_at(i));
    }
}

/// The title is what stands behind the first `# ` that begins a line, whatever lines stand before and
/// behind it.
pub proof fn first_heading_is_the_title(before: Seq<Seq<char>>, line: Seq<char>, behind: Seq<Seq<char>>)
    requires
        forall|i: int| 0 <= i < before.len() ==> !starts(trim_start(#[trigger] before[i]), "# "@),
        starts(trim_start(line), "# "@),
    ensures
        title_in(before + seq![line] + behind) == Some(trim(trim_start(line).skip(2))),
{
    lemma_first_heading(before, line, behind);
}

proof fn lemma_first_heading(before: Seq<Seq<char>>, line: Seq<char>, behind: Seq<Seq<char>>)
    requires
        forall|i: int| 0 <= i < before.len() ==> !starts(trim_start(#[trigger] before[i]), "# "@),
        starts(trim_start(line), "# "@),
    ensures
        first_heading(before + seq![line] + behind) == Some(trim(trim_start(line).skip(2))),
    decreases before.len(),
{
    let all = before + seq![line] + behind;
    if before.len() == 0 {
        assert(all[0] == line);
    } else {
        assert(!starts(trim_start(before[0]), "# "@));
        let t = before.drop_first();
        assert forall|i: int| 0 <= i < t.len() implies !starts(trim_start(#[trigger] t[i]), "# "@) by {
            assert(t[i] == before[i + 1]);
        }
        lemma_first_heading(t, line, behind);
        assert(all[0] == before[0]);
        assert(all.drop_first() =~= t + seq![line] + behind);
    }
}

/// Where no line is a heading, the title is the first text with a line of equals signs below it; where
/// there is none of these either, there is no title.
pub proof fn underlined_text_is_the_title(ls: Seq<Seq<char>>, k: int)
    requires
        forall|i: int| 0 <= i < ls.len() ==> !starts(trim_start(#[trigger] ls[i]), "# "@),
    ensures
        0 <= k < ls.len() - 1 && trim(ls[k]).len() > 0 && is_underline(ls[k + 1]) && (forall|i: int|
            0 <= i < k ==> trim(#[trigger] ls[i]).len() == 0 || !is_underline(ls[i + 1])) ==> title_in(ls)
            == Some(trim(ls[k])),
        (forall|i: int|
            0 <= i < ls.len() - 1 ==> trim(#[trigger] ls[i]).len() == 0 || !is_underline(ls[i + 1]))
            ==> title_in(ls) is None,
{
    lemma_no_heading(ls);
    if 0 <= k < ls.len() - 1 && trim(ls[k]).len() > 0 && is_underline(ls[k + 1]) && (forall|i: int|
        0 <= i < k ==> trim(#[trigger] ls[i]).len() == 0 || !is_underline(ls[i + 1])) {
        lemma_underlined(ls, k);
    }
    if forall|i: int| 0 <= i < ls.len() - 1 ==> trim(#[trigger] ls[i]).len() == 0 || !is_underline(ls[i + 1]) {
        lemma_not_underlined(ls);
    }
}

proof fn lemma_no_heading(ls: Seq<Seq<char>>)
    requires
        forall|i: int| 0 <= i < ls.len() ==> !starts(trim_start(#[trigger] ls[i]), "# "@),
    ensures
        first_heading(ls) is None,
    decreases ls.len(),
{
    if ls.len() > 0 {
        let t = ls.drop_first();
        assert(!starts(trim_start(ls[0]), "# "@));
        assert forall|i: int| 0 <= i < t.len() implies !starts(trim_start(#[trigger] t[i]), "# "@) by {
            assert(t[i] == ls[i + 1]);
        }
        lemma_no_heading(t);
    }
}

proof fn lemma_underlined(ls: Seq<Seq<char>>, k: int)
    requires
        0 <= k < ls.len() - 1,
        trim(ls[k]).len() > 0,
        is_underline(ls[k + 1]),
        forall|i: int| 0 <= i < k ==> trim(#[trigger] ls[i]).len() == 0 || !is_underline(ls[i + 1]),
    ensures
        first_underlined(ls) == Some(trim(ls[k])),
    decreases ls.len(),
{
    if k > 0 {
        let t = ls.drop_first();
        assert(trim(ls[0]).len() == 0 || !is_underline(ls[1]));
        assert(t[k - 1] == ls[k] && t[k] == ls[k + 1]);
        assert forall|i: int| 0 <= i < k - 1 implies trim(#[trigger] t[i]).len() == 0 || !is_underline(t[i + 1]) by {
            assert(t[i] == ls[i + 1] && t[i + 1] == ls[i + 2]);
        }
        lemma_underlined(t, k - 1);
    }
}

proof fn lemma_not_underlined(ls: Seq<Seq<char>>)
    requires
        forall|i: int| 0 <= i < ls.len() - 1 ==> trim(#[trigger] ls[i]).len() == 0 || !is_underline(ls[i + 1]),
    ensures
        first_underlined(ls) is None,
    decreases ls.len(),
{
    if ls.len() >= 2 {
        let t = ls.drop_first();
        assert(trim(ls[0]).len() == 0 || !is_underline(ls[1]));
        assert forall|i: int| 0 <= i < t.len() - 1 implies trim(#[trigger] t[i]).len() == 0 || !is_underline(
            t[i + 1],
        ) by {
            assert(t[i] == ls[i + 1] && t[i + 1] == ls[i + 2]);
        }
        lemma_not_underlined(t);
    }
}

/// A line underlines where it has equals signs, at least one, and beside them white space around them
/// alone.
pub proof fn underlines_are_equals_signs(l: Seq<char>, i: int)
    ensures
        is_underline(l) ==> trim(l).len() > 0,
        is_underline(l) && 0 <= i < trim(l).len() ==> trim(l)[i] == '=',
        trim(l).len() > 0 && (forall|j: int| 0 <= j < trim(l).len() ==> trim(l)[j] == '=') ==> is_underline(l),
{
}

/// A link that names a protocol of the net, in any case, or a host leads out and is left alone; one
/// that does neither does not lead out.
pub proof fn links_lead_out_by_their_beginning(p: Seq<char>, rest: Seq<char>, dest: Seq<char>)
    ensures
        lowered(p) == "http://"@ || lowered(p) == "https://"@ || lowered(p) == "mailto:"@ || p == "//"@
            ==> is_external(p + rest) && help_target(p + rest) == p + rest,
        lacks(dest, ':') && !starts(dest, "//"@) ==> !is_external(dest),
{
    reveal_strlit("http://");
    reveal_strlit("https://");
    reveal_strlit("mailto:");
    reveal_strlit("//");
    assert(lowered(p + rest) =~= lowered(p) + lowered(rest));
    beginnings_and_ends(lowered(p), lowered(rest), p);
    if p == "//"@ {
        assert(lowered(p) =~= p);
    }
    if lacks(dest, ':') && !starts(dest, "//"@) {
        let l = lowered(dest);
        assert forall|i: int| 0 <= i < l.len() implies l[i] != ':' by {
            crate::text_laws::lower_case_of_a_text(dest, i);
        }
        if starts(l, "http://"@) {
            assert(l.take(7)[4] == ':');
        }
        if starts(l, "https://"@) {
            assert(l.take(8)[5] == ':');
        }
        if starts(l, "mailto:"@) {
            assert(l.take(7)[6] == ':');
        }
        if starts(l, "//"@) {
            assert(l.take(2)[0] == '/' && l.take(2)[1] == '/');
            crate::text_laws::lower_case_of_a_text(dest, 0);
            crate::text_laws::lower_case_of_a_text(dest, 1);
            assert(dest.take(2) =~= "//"@);
        }
    }
}

/// What stands behind the last slash does not depend on what is cut off before.
proof fn lemma_leaf(s: Seq<char>, p: Seq<char>)
    requires
        p.len() > 0,
        p.last() == '/',
    ensures
        after_last(trim_start_str(s, p), '/') == after_last(s, '/'),
    decreases s.len(),
{
    if p.len() > 0 && starts(s, p) {
        let t = s.skip(p.len() as int);
        lemma_leaf(t, p);
        assert(s =~= p + t);
        crate::text_laws::last_separator_parts_a_text(t, '/');
        if lacks(t, '/') {
            assert(s =~= p.drop_last() + seq!['/'] + t);
            parts_around_the_last_separator(p.drop_last(), '/', t);
        } else {
            let a = crate::text::before_last(t, '/');
            let b = after_last(t, '/');
            assert(s =~= (p + a) + seq!['/'] + b);
            parts_around_the_last_separator(p + a, '/', b);
        }
    }
}

/// A link to another document leads to its help page, whatever directory it names, and keeps the part
/// behind the number sign; a link to anything else stays as it is.
pub proof fn links_to_documents_lead_to_help_pages(
    dir: Seq<char>,
    name: Seq<char>,
    part: Seq<char>,
    dest: Seq<char>,
)
    requires
        dir.len() == 0 || dir.last() == '/',
        lacks(dir, '#'),
        lacks(name, '#'),
        lacks(name, '/'),
    ensures
        !is_external(dir + name + ".md"@) ==> help_target(dir + name + ".md"@) == "/help/"@ + name,
        !is_external(dir + name + ".md"@ + "#"@ + part) ==> help_target(dir + name + ".md"@ + "#"@ + part)
            == "/help/"@ + name + "#"@ + part,
        lacks(dest, '#') && !ends(after_last(dest, '/'), ".md"@) ==> help_target(dest) == dest,
{
    reveal_strlit(".md");
    reveal_strlit("#");
    reveal_strlit("./");
    reveal_strlit("../");
    let leaf = name + ".md"@;
    let path = dir + name + ".md"@;
    assert(path =~= dir + leaf);
    assert(lacks(leaf, '/')) by {
        assert forall|i: int| 0 <= i < leaf.len() implies leaf[i] != '/' by {
            if i < name.len() {
                assert(leaf[i] == name[i]);
            }
        }
    }
    assert(lacks(path, '#')) by {
        assert forall|i: int| 0 <= i < path.len() implies path[i] != '#' by {
            if i < dir.len() {
                assert(path[i] == dir[i]);
            } else if i < dir.len() + name.len() {
                assert(path[i] == name[i - dir.len()]);
            }
        }
    }
    if dir.len() == 0 {
        assert(path =~= leaf);
        crate::text_laws::last_separator_parts_a_text(leaf, '/');
    } else {
        assert(path =~= dir.drop_last() + seq!['/'] + leaf);
        parts_around_the_last_separator(dir.drop_last(), '/', leaf);
    }
    assert(after_last(path, '/') == leaf);
    beginnings_and_ends(name, ".md"@, name);
    assert(leaf.take(leaf.len() - 3) =~= name);
    lemma_leaf(path, "./"@);
    lemma_leaf(trim_start_str(path, "./"@), "../"@);
    lemma_find_is(path, '#', path.len() as int);
    assert(path.take(path.len() as int) =~= path);
    assert("/help/"@ + name + Seq::<char>::empty() =~= "/help/"@ + name);
    let d = path + "#"@ + part;
    assert(d[path.len() as int] == '#');
    assert forall|j: int| 0 <= j < path.len() implies d[j] != '#' by {
        assert(d[j] == path[j]);
    }
    lemma_find_is(d, '#', path.len() as int);
    assert(d.take(path.len() as int) =~= path);
    assert(d.skip(path.len() as int + 1) =~= part);
    assert("/help/"@ + name + ("#"@ + part) =~= "/help/"@ + name + "#"@ + part);
    if lacks(dest, '#') && !ends(after_last(dest, '/'), ".md"@) {
        lemma_find_is(dest, '#', dest.len() as int);
        assert(dest.take(dest.len() as int) =~= dest);
        lemma_leaf(dest, "./"@);
        lemma_leaf(trim_start_str(dest, "./"@), "../"@);
    }
}

/// Each character of a text stands in HTML in its place: the five that mean something there by name,
/// any other as itself.
pub proof fn characters_stand_in_html_in_their_places(s: Seq<char>, c: char)
    ensures
        html_text(Seq::empty()).len() == 0,
        html_text(s.push(c)) == html_text(s) + html_char(c),
        html_char('&') == "&amp;"@,
        html_char('<') == "&lt;"@,
        html_char('>') == "&gt;"@,
        html_char('"') == "&quot;"@,
        html_char('\'') == "&#39;"@,
        c != '&' && c != '<' && c != '>' && c != '"' && c != '\'' ==> html_char(c) == seq![c],
{
    assert(s.push(c).drop_last() =~= s);
    assert(s.push(c).last() == c);
}

/// Diagrams and formulas are set between their own marks, with their text as it stands in HTML.
pub proof fn diagrams_and_formulas_have_their_marks(s: Seq<char>)
    ensures
        starts(diagram_html(s), "<div class=\"mermaid\">"@),
        ends(diagram_html(s), html_text(s) + "</div>"@),
        starts(inline_math_html(s), "<span class=\"math math-inline\">\\("@),
        ends(inline_math_html(s), html_text(s) + "\\)</span>"@),
        starts(display_math_html(s), "<div class=\"math math-display\">\\["@),
        ends(display_math_html(s), html_text(s) + "\\]</div>"@),
        diagram_html(s).len() == "<div class=\"mermaid\">"@.len() + html_text(s).len() + "</div>"@.len(),
        inline_math_html(s).len() == "<span class=\"math math-inline\">\\("@.len() + html_text(s).len()
            + "\\)</span>"@.len(),
        display_math_html(s).len() == "<div class=\"math math-display\">\\["@.len() + html_text(s).len()
            + "\\]</div>"@.len(),
{
    let a = "<div class=\"mermaid\">"@;
    let x = html_text(s) + "</div>"@;
    assert(diagram_html(s) =~= a + x);
    beginnings_and_ends(a, x, x);
    let b = "<span class=\"math math-inline\">\\("@;
    let y = html_text(s) + "\\)</span>"@;
    assert(inline_math_html(s) =~= b + y);
    beginnings_and_ends(b, y, y);
    let c = "<div class=\"math math-display\">\\["@;
    let z = html_text(s) + "\\]</div>"@;
    assert(display_math_html(s) =~= c + z);
    beginnings_and_ends(c, z, z);
}

/// A document without diagrams is rendered piece by piece: formulas between their marks, links to
/// where they lead, and everything else as it is.
pub proof fn pieces_are_rendered_in_their_places(toks: Seq<Tok>, n: int, i: int)
    requires
        0 <= n <= toks.len(),
        forall|j: int| 0 <= j < n ==> #[trigger] toks[j] != Tok::FencedStart("mermaid"@),
    ensures
        rendered(toks, n).outs.len() == n,
        rendered(toks, n).diagram is None,
        0 <= i < n ==> rendered(toks, n).outs[i] == match toks[i] {
            Tok::InlineMath(s) => Out::Html(inline_math_html(s)),
            Tok::DisplayMath(s) => Out::Html(display_math_html(s)),
            Tok::LinkStart(d) => Out::Link(i, help_target(d)),
            _ => Out::Keep(i),
        },
    decreases n,
{
    if n > 0 {
        pieces_are_rendered_in_their_places(toks, n - 1, i);
        assert(toks[n - 1] != Tok::FencedStart("mermaid"@));
        assert(rendered(toks, n) == rendered_step(rendered(toks, n - 1), n - 1, toks[n - 1]));
    }
}

/// The text of some pieces, from the one with number `a` on.
pub open spec fn text_of_pieces(toks: Seq<Tok>, a: int, n: nat) -> Seq<char>
    decreases n,
{
    if n == 0 {
        Seq::empty()
    } else {
        text_of_pieces(toks, a, (n - 1) as nat) + toks[a + n - 1]->Text_0
    }
}

/// A fenced block in the language of diagrams becomes one diagram with all of its text; nothing else
/// of the block is rendered, and what stood before it stays.
pub proof fn blocks_of_diagrams_become_diagrams(toks: Seq<Tok>, a: int, n: nat)
    requires
        0 <= a,
        a + n + 1 < toks.len(),
        rendered(toks, a).diagram is None,
        toks[a] == Tok::FencedStart("mermaid"@),
        forall|j: int| a < j <= a + n ==> #[trigger] toks[j] is Text,
        toks[a + n + 1] is CodeEnd,
    ensures
        rendered(toks, a + n + 2).outs == rendered(toks, a).outs.push(
            Out::Html(diagram_html(text_of_pieces(toks, a + 1, n))),
        ),
        rendered(toks, a + n + 2).diagram is None,
{
    lemma_diagram(toks, a, n);
    assert(rendered(toks, a + n + 2) == rendered_step(
        rendered(toks, a + n + 1),
        a + n + 1,
        toks[a + n + 1],
    ));
}

proof fn lemma_diagram(toks: Seq<Tok>, a: int, n: nat)
    requires
        0 <= a,
        a + n < toks.len(),
        rendered(toks, a).diagram is None,
        toks[a] == Tok::FencedStart("mermaid"@),
        forall|j: int| a < j <= a + n ==> #[trigger] toks[j] is Text,
    ensures
        rendered(toks, a + n + 1).outs == rendered(toks, a).outs,
        rendered(toks, a + n + 1).diagram == Some(text_of_pieces(toks, a + 1, n)),
    decreases n,
{
    assert(rendered(toks, a + n + 1) == rendered_step(rendered(toks, a + n), a + n, toks[a + n]));
    if n > 0 {
        lemma_diagram(toks, a, (n - 1) as nat);
        assert(toks[a + n] is Text);
    }
}

/// Pieces stand for what they are.
pub proof fn pieces_stand_for_what_they_are(v: Seq<Token>, w: Seq<Piece>, i: int)
    ensures
        tok_views(v).len() == v.len(),
        out_views(w).len() == w.len(),
        0 <= i < v.len() ==> tok_views(v)[i] == match v[i] {
            Token::FencedStart(s) => Tok::FencedStart(s@),
            Token::CodeEnd => Tok::CodeEnd,
            Token::Text(s) => Tok::Text(s@),
            Token::InlineMath(s) => Tok::InlineMath(s@),
            Token::DisplayMath(s) => Tok::DisplayMath(s@),
            Token::LinkStart(s) => Tok::LinkStart(s@),
            Token::Other => Tok::Other,
        },
        0 <= i < w.len() ==> out_views(w)[i] == match w[i] {
            Piece::Keep(k) => Out::Keep(k as int),
            Piece::Html(s) => Out::Html(s@),
            Piece::Link(k, s) => Out::Link(k as int, s@),
        },
{
}

} // verus!
