use holofs::help::{
    check_doc, doc_candidates, extract_h1, get_doc, html_escape, list_docs, read_doc, read_h1,
    render_markdown, rewrite_md_link, transform, DocError, Piece, Token,
};

#[test]
fn renders_plain_markdown() {
    let html = render_markdown("# title\n\nhello **world**\n");
    assert!(html.contains("<h1>title</h1>"));
    assert!(html.contains("<strong>world</strong>"));
}

#[test]
fn mermaid_block_becomes_mermaid_div() {
    let md = "```mermaid\nflowchart LR\n  A --> B\n```\n";
    let html = render_markdown(md);
    assert!(html.contains(r#"<div class="mermaid">"#));
    assert!(html.contains("--&gt;"));
    assert!(!html.contains("language-mermaid"));
}

#[test]
fn inline_math_uses_katex_paren_delimiters() {
    let html = render_markdown("see $x^2 + y^2$\n");
    assert!(html.contains(r#"<span class="math math-inline">\(x^2 + y^2\)</span>"#));
}

#[test]
fn display_math_uses_katex_bracket_delimiters() {
    let html = render_markdown("$$\nE = mc^2\n$$\n");
    assert!(html.contains(r#"<div class="math math-display">\["#));
    assert!(html.contains(r"E = mc^2"));
    assert!(html.contains(r"\]"));
}

#[test]
fn extract_h1_handles_atx() {
    assert_eq!(extract_h1("# Title\n\nbody"), Some("Title".to_string()));
    assert_eq!(extract_h1("no heading"), None);
}

#[test]
fn underlined_title_is_the_fallback() {
    assert_eq!(extract_h1("Title\n=====\n\nbody\n"), Some("Title".to_string()));
    assert_eq!(extract_h1("intro\n\n Title \n===\n"), Some("Title".to_string()));
    assert_eq!(extract_h1("Title\n===\n# Other\n"), Some("Other".to_string()));
    assert_eq!(extract_h1("Title\n==x\n"), None);
    assert_eq!(extract_h1("\n===\n"), None);
}

#[test]
fn rewrite_md_link_relative_sibling() {
    assert_eq!(rewrite_md_link("./theory.md"), "/help/theory");
    assert_eq!(rewrite_md_link("../api.md"), "/help/api");
    assert_eq!(rewrite_md_link("operations.md"), "/help/operations");
    assert_eq!(
        rewrite_md_link("./test-scenarios.md#1-bring-up-the-cluster"),
        "/help/test-scenarios#1-bring-up-the-cluster"
    );
}

#[test]
fn rewrite_md_link_external_pass_through() {
    assert_eq!(rewrite_md_link("https://example.com/file.md"), "https://example.com/file.md");
    assert_eq!(rewrite_md_link("mailto:hi@example.com"), "mailto:hi@example.com");
    assert_eq!(rewrite_md_link("./image.png"), "./image.png");
}

#[test]
fn md_link_in_doc_gets_rewritten() {
    let html = render_markdown("see [theory](./theory.md) for math");
    assert!(html.contains(r#"href="/help/theory""#));
    assert!(!html.contains("./theory.md"));
}

#[test]
fn other_code_blocks_stay_code() {
    let html = render_markdown("```rust\nfn a() {}\n```\n");
    assert!(html.contains("language-rust"));
    assert!(html.contains("fn a() {}"));
}

#[test]
fn markup_in_texts_is_escaped() {
    assert_eq!(html_escape("a<b>&\"c"), "a&lt;b&gt;&amp;&quot;c");
    let out = transform(&vec![Token::Other, Token::InlineMath("a<b".into())]);
    assert!(matches!(out[0], Piece::Keep(0)));
    match &out[1] {
        Piece::Html(h) => assert!(h.contains("a&lt;b")),
        _ => panic!("formula expected"),
    }
}

#[test]
fn best_file_of_a_page_is_taken() {
    let c = doc_candidates("de", "theory");
    assert_eq!(c[0].1, "docs/de/theory.md");
    assert_eq!(c[1].1, "docs/theory.md");
    assert_eq!(c[2].1, "docs/en/theory.md");
    let files = vec![None, Some("# T\nx".to_string()), Some("# U".to_string())];
    assert_eq!(read_doc("de", "theory", &files), Ok(("en".to_string(), "# T\nx".to_string())));
    assert_eq!(read_h1("de", "theory", &files).as_deref(), Some("T"));
    let none = vec![None, None, None];
    assert_eq!(read_doc("de", "x", &none), Err("doc not found: de/x".to_string()));
    assert_eq!(read_h1("de", "x", &none), None);
}

#[test]
fn unknown_languages_and_pages_are_refused() {
    assert_eq!(check_doc("xx", "theory"), Err(DocError::UnsupportedLocale));
    assert_eq!(check_doc("en", "no-such-page"), Err(DocError::UnknownSlug));
    assert_eq!(check_doc("en", "theory"), Ok(()));
    let titles = vec![None, None, None, None, None, None, Some("Seven".to_string())];
    let items = list_docs("en", &titles).ok().unwrap();
    assert_eq!(items.len(), 7);
    assert_eq!(items[6].title, "Seven");
    let d = get_doc("theory".into(), "en".into(), "no title");
    assert_eq!(d.title, "theory");
}
