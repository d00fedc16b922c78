use holofs::catalog_view::{
    branch_row, breadcrumb, clear_filter_href, confirm_js, filter_active, leaf_links, leaf_row,
    name_within, object_card, open_target, preview_label, primary_label, sort_link_class,
    thumbnail, tree_root, Thumb,
};
use holofs::filter::CatalogEntry;
use holofs::health_view::{
    cid_texts, diff_cell, find_layer, kind_label, layer_cell, layer_label, loss_headings,
    node_status, resolution_label, saved_label, zone_label, DiffCellView, HealthSnapshot, LayerRow,
    LiveStats, ObjectKind, SseEvent,
};
use holofs::help::{help_href, page_locale, sidebar_class, supported_locales};
use holofs::http::{mkdir_to_response, remove_to_response, rmdir_to_response};
use holofs::tree::{build_tree, TreeSort};

fn entry(name: &str, kind: &str) -> CatalogEntry {
    CatalogEntry {
        name: name.into(),
        kind: kind.into(),
        content_type: "text/plain".into(),
        width: 640,
        height: 480,
        n_shards: 1,
        bytes_stored: 2,
        cid_short: "ab".into(),
        audio_sample_rate: 44100,
        channels: 2,
        created_at_unix: 0,
    }
}

fn hrefs(links: &[holofs::catalog_view::Link]) -> Vec<&str> {
    links.iter().map(|l| l.href.as_str()).collect()
}

#[test]
fn links_of_an_entry() {
    let l = leaf_links("image", "p.png", false);
    assert_eq!(
        hrefs(&l),
        vec!["/preview/p.png", "/inspect/p.png", "/similar/p.png", "/health/p.png", "/mix?a=p.png"]
    );
    assert_eq!(l[0].label, "preview");
    let l = leaf_links("text", "n", true);
    assert_eq!(hrefs(&l), vec!["/inspect/n", "/similar/n", "/health/n", "/versions/n"]);
    let row = leaf_row(&entry("d/n", "audio"), "d%2Fn", true);
    assert_eq!((row.class.as_str(), row.href.as_str(), row.icon), ("tree-leaf kind-audio", "/d%2Fn", "🎵"));
    assert_eq!(row.date, "—");
}

#[test]
fn cards() {
    let c = object_card(&entry("a/p.png", "image"), "a", "a%2Fp.png", "a");
    assert_eq!((c.basename.as_str(), c.dims.as_str()), ("p.png", "640×480"));
    assert_eq!(c.return_to, "/?p=a");
    assert_eq!(c.links[0].href, "/a%2Fp.png");
    assert_eq!(c.links[0].label, "card.action.full");
    assert_eq!(hrefs(&c.links).last(), Some(&"/versions/a%2Fp.png"));
    let c = object_card(&entry("s.wav", "audio"), "", "s.wav", "");
    assert_eq!((c.dims.as_str(), c.return_to.as_str()), ("44100 Hz · 2 ch", "/"));
    assert_eq!(c.links[1].label, "card.action.bass");
    let c = object_card(&entry("d", "directory"), "", "d", "");
    assert_eq!((c.is_directory, c.dims.as_str()), (true, ""));
    assert_eq!(hrefs(&c.links), vec!["/?p=d"]);
    assert_eq!(primary_label("opaque"), "card.action.download");
    assert_eq!(preview_label("image"), "card.action.preview");
    // A name that is shorter than its directory's stays whole.
    assert_eq!(name_within("ab", "abc"), "ab");
}

#[test]
fn rows_of_the_tree() {
    let t = build_tree(&vec![entry("a/b", "text"), entry("a/c", "text")], TreeSort::Name);
    let r = branch_row(&t.children[0], "a", 0);
    assert_eq!((r.basename.as_str(), r.href.as_str(), r.open, r.n_children), ("a", "/?p=a", true, 2));
    assert_eq!(r.created, "—");
    assert!(!branch_row(&t.children[0], "a", 1).open);
    assert_eq!(sort_link_class(TreeSort::Size, TreeSort::Size), "tree-sort-link active");
    assert_eq!(sort_link_class(TreeSort::Size, TreeSort::Kind), "tree-sort-link");
    assert!(filter_active("", "2026-01-01", "") && !filter_active("", "", ""));
    assert_eq!(clear_filter_href("", ""), "/");
    assert_eq!(clear_filter_href("a b", "a%20b"), "/?p=a%20b");
    assert_eq!(confirm_js("don't"), "return confirm('don\\'t');");
    assert_eq!(
        breadcrumb("a/b"),
        vec![("a".to_string(), "a".to_string()), ("b".to_string(), "a/b".to_string())]
    );
    assert!(breadcrumb("").is_empty());
}

#[test]
fn labels_of_health() {
    assert_eq!(node_status(true), ("bad", "health.status.disabled", "health.action.revive"));
    assert_eq!(node_status(false), ("ok", "health.status.live", "health.action.kill"));
    assert_eq!(resolution_label(None, 3), ("DEAD".to_string(), "v bad"));
    assert_eq!(resolution_label(Some(2), 3), ("full (L0-L2)".to_string(), "v ok"));
    assert_eq!(resolution_label(Some(1), 3), ("L0-L1".to_string(), "v ok"));
    assert_eq!(zone_label(Some(1)), ("L0-L1".to_string(), "ok"));
    assert_eq!(layer_label(0, 3), "L0 · LL (coarse)");
    assert_eq!(layer_label(1, 3), "L1");
    assert_eq!(layer_label(2, 3), "L2 · HH (fine)");
    assert_eq!(loss_headings(2), vec!["dead", "L0-L0", "L0-L1 (full)"]);
    let row = LayerRow {
        channel: 1,
        layer: 2,
        n_shards: 10,
        n_alive: 5,
        n_hosting_nodes: 4,
        k: 6,
        margin: -1,
    };
    assert_eq!(layer_cell(&row, 6), ("5/6  (-1)".to_string(), "bad"));
    let rows = vec![row];
    assert!(find_layer(&rows, 1, 2).is_some() && find_layer(&rows, 2, 1).is_none());
    assert_eq!(diff_cell(&DiffCellView { idx: 7, is_common: false }), ("diff-cell diff", "chunk #7".to_string()));
    assert_eq!(saved_label(5000), "~4 KB");
    assert_eq!(cid_texts(&[0xab; 32]).0, "abababababab");
    assert_eq!(kind_label(ObjectKind::Directory), "directory");
}

#[test]
fn labels_of_live_numbers() {
    let mut l = LiveStats::new(HealthSnapshot { n_live: 3, n_total: 4, objects: 1, ts_ms: 0 });
    assert_eq!((l.live_label().as_str(), l.disabled_label().as_str(), l.live_class()), ("3/4", "1", "v partial"));
    assert_eq!((l.sse_class(), l.sse_aria()), ("v mono mut", "connecting"));
    l.on_event(SseEvent::Open);
    assert_eq!((l.sse_class(), l.sse_aria()), ("v mono ok", "live"));
    l.on_event(SseEvent::Error);
    assert_eq!((l.sse_class(), l.sse_aria()), ("v mono bad", "disconnected"));
}

#[test]
fn languages_of_the_help() {
    let codes: Vec<&str> = supported_locales().iter().map(|l| l.0).collect();
    assert_eq!(codes, vec!["en", "ru", "de", "fr", "es"]);
    assert_eq!(page_locale(Some("de")), "de");
    assert_eq!(page_locale(Some("xx")), "en");
    assert_eq!(page_locale(None), "en");
    assert_eq!(help_href("theory", "ru"), "/help/theory?lang=ru");
    assert_eq!(sidebar_class("api", "api"), "active");
    assert_eq!(sidebar_class("api", "theory"), "");
}

#[test]
fn replies_about_paths() {
    let text = |b: Vec<u8>| String::from_utf8(b).unwrap();
    let r = mkdir_to_response("a\"b", 1);
    assert_eq!(r.status, 201);
    assert_eq!(text(r.body), "{\"created\":\"a\\\"b\",\"object_id\":\"0000000000000001\"}\n");
    let r = rmdir_to_response("d", 2);
    assert_eq!((r.status, text(r.body).contains("\"removed\":\"d\"")), (200, true));
    let r = remove_to_response("o", 3);
    assert_eq!((r.status, text(r.body).contains("\"deleted\":\"o\"")), (200, true));
}

#[test]
fn cards_show_what_kind_an_object_is_of() {
    assert!(matches!(thumbnail("image", "a.png"), Thumb::Picture(p) if p == "/preview/a.png"));
    for (kind, icon) in [("audio", "♪"), ("text", "¶"), ("directory", "📁"), ("blob", "📦")] {
        assert!(matches!(thumbnail(kind, "x"), Thumb::Icon(i) if i == icon));
    }
    assert_eq!(open_target(Some("a"), Some("b")), "a");
    assert_eq!(open_target(None, Some("b")), "b");
    assert_eq!(tree_root(Some("a"), Some("b")), "a");
    assert_eq!(tree_root(None, None), "");
}
