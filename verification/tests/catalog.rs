use holofs::calendar::{day_of, format_unix_utc, ymd_to_unix};
use holofs::catalog::{apply_filter, sorted_by_name};
use holofs::catalog_view::{
    basename_of, breadcrumb, byte_scale, confirm_js, format_shards, kind_icon, lazy_dir_row,
    leaf_row, name_within, object_card, ByteScale, Page, Pager,
};
use holofs::filter::{
    compile_glob, glob_matches, parse_date_to_unix, CatalogEntry, CatalogFilter, DateError,
};
use holofs::health_view::{
    diff_cell, layer_cell, loss_headings, resolution_label, signed_string, DiffCellView,
    HealthSnapshot, LayerRow, LiveStats, ObjectKind, SseEvent, SseState,
};
use holofs::manifest::Manifest;
use holofs::tree::{build_tree, node_is_dir, TreeSort};

fn entry(name: &str, kind: &str, created: u64) -> CatalogEntry {
    CatalogEntry {
        name: name.into(),
        kind: kind.into(),
        content_type: String::new(),
        width: 0,
        height: 0,
        n_shards: 0,
        bytes_stored: 0,
        cid_short: String::new(),
        audio_sample_rate: 0,
        channels: 0,
        created_at_unix: created,
    }
}

#[test]
fn glob_compiles_to_anchored_regex() {
    assert!(glob_matches("*.png", "photo.png"));
    assert!(glob_matches("*.png", "a.b.png"));
    assert!(!glob_matches("*.png", "photo.png.bak"));
    assert_eq!(compile_glob("*.png"), "^.*\\.png$");
}

#[test]
fn glob_is_case_insensitive() {
    assert!(glob_matches("*.PNG", "photo.png"));
    assert!(glob_matches("*.PNG", "PHOTO.PNG"));
}

#[test]
fn glob_escapes_regex_metachars() {
    assert!(glob_matches("a.b", "a.b"));
    assert!(!glob_matches("a.b", "axb"));
    assert!(!glob_matches("a?b", "axb"));
    assert!(glob_matches("a?b", "a?b"));
    assert!(glob_matches("a(b", "a(b"));
}

#[test]
fn date_parse_ymd_to_unix_round_trips() {
    assert_eq!(parse_date_to_unix("1970-01-01", false).unwrap(), 0);
    assert_eq!(parse_date_to_unix("1970-01-01", true).unwrap(), 86_400);
    assert_eq!(parse_date_to_unix("2026-01-01", false).unwrap(), 1_767_225_600);
}

#[test]
fn date_parse_rejects_malformed() {
    assert!(parse_date_to_unix("not-a-date", false).is_err());
    assert!(parse_date_to_unix("2026-13-01", false).is_err());
    assert!(parse_date_to_unix("2026-01-32", false).is_err());
    assert_eq!(parse_date_to_unix("", false).unwrap(), 0);
}

#[test]
fn filter_matches_combines_name_and_date() {
    let f = CatalogFilter::parse("*.png", "2026-01-01", "2026-12-31").unwrap();
    assert!(f.matches(&entry("photo.png", "image", 1_770_000_000)));
    assert!(!f.matches(&entry("notes.txt", "text", 1_770_000_000)));
    assert!(!f.matches(&entry("photo.png", "image", 1_000_000_000)));
}

#[test]
fn filter_keeps_legacy_zero_timestamps() {
    let f = CatalogFilter::parse("", "2026-01-01", "2026-12-31").unwrap();
    assert!(f.matches(&entry("anything.txt", "text", 0)));
}

#[test]
fn glob_matches_basename_not_full_path() {
    let f = CatalogFilter::parse("photo*", "", "").unwrap();
    assert!(f.matches(&entry("Roman/photo.png", "image", 0)));
    assert!(f.matches(&entry("photo_gray.png", "image", 0)));
    assert!(!f.matches(&entry("Roman/notes.txt", "text", 0)));
}

#[test]
fn apply_filter_keeps_ancestor_directories() {
    let entries = vec![
        entry("Roman", "directory", 0),
        entry("Roman/sub", "directory", 0),
        entry("Roman/sub/photo.png", "image", 0),
        entry("Roman/sub/notes.txt", "text", 0),
        entry("other.txt", "text", 0),
    ];
    let f = CatalogFilter::parse("*.png", "", "").unwrap();
    let mut kept = apply_filter(entries, &f);
    kept.sort_by(|a, b| a.name.cmp(&b.name));
    let names: Vec<&str> = kept.iter().map(|e| e.name.as_str()).collect();
    assert_eq!(names, vec!["Roman", "Roman/sub", "Roman/sub/photo.png"]);
}

#[test]
fn each_error_of_a_date() {
    assert_eq!(parse_date_to_unix("2026-01", false), Err(DateError::Shape));
    assert_eq!(parse_date_to_unix("x-01-01", false), Err(DateError::Year));
    assert_eq!(parse_date_to_unix("2026-x-01", false), Err(DateError::Month));
    assert_eq!(parse_date_to_unix("2026-01-x", false), Err(DateError::Day));
    assert_eq!(parse_date_to_unix("2026-13-01", false), Err(DateError::Range));
    assert!(CatalogFilter::parse("", "bad", "").is_err());
    assert!(CatalogFilter::parse("", "", "").unwrap().is_empty());
}

#[test]
fn one_day_can_be_asked_for() {
    let f = CatalogFilter::parse("", "2026-01-01", "2026-01-01").unwrap();
    assert!(f.matches(&entry("a", "text", 1_767_225_600)));
    assert!(f.matches(&entry("a", "text", 1_767_225_600 + 86_399)));
    assert!(!f.matches(&entry("a", "text", 1_767_225_600 + 86_400)));
}

#[test]
fn days_have_their_numbers() {
    let d = day_of(0);
    assert_eq!((d.year, d.month, d.day), (1970, 1, 1));
    let d = day_of(20454);
    assert_eq!((d.year, d.month, d.day), (2026, 1, 1));
    let d = day_of(11016);
    assert_eq!((d.year, d.month, d.day), (2000, 2, 29));
    assert_eq!(ymd_to_unix(2000, 2, 29), 11016 * 86_400);
    assert_eq!(format_unix_utc(1_767_225_600 + 3_660), "2026-01-01 01:01");
}

#[test]
fn entries_are_sorted_by_name() {
    let v = vec![entry("b", "text", 0), entry("a", "text", 0), entry("B", "text", 0)];
    let names: Vec<String> = sorted_by_name(&v).into_iter().map(|e| e.name).collect();
    assert_eq!(names, vec!["B", "a", "b"]);
}

#[test]
fn tree_has_every_path_and_its_directories() {
    let v = vec![entry("a/b/c.txt", "text", 5), entry("z.txt", "text", 1)];
    let t = build_tree(&v, TreeSort::Name);
    assert_eq!(t.children.len(), 2);
    assert_eq!(t.children[0].basename, "a");
    assert!(node_is_dir(&t.children[0]));
    assert!(t.children[0].entry.is_none());
    assert_eq!(t.children[0].children[0].children[0].path, "a/b/c.txt");
    assert_eq!(t.children[1].path, "z.txt");
}

#[test]
fn rows_and_cards_show_what_an_entry_is() {
    assert_eq!(basename_of("a/b/c"), "c");
    assert_eq!(name_within("a/b", "a"), "b");
    assert_ne!(kind_icon("directory"), kind_icon("image"));
    let r = leaf_row(&entry("d/p.png", "image", 0), "d%2Fp.png", false);
    assert_eq!(r.basename, "p.png");
    assert!(r.class.contains("image"));
    let d = lazy_dir_row("a", 0, "a", "a/b", 3);
    assert!(d.initial_open);
    assert!(!d.is_open_target);
    let d = lazy_dir_row("a/b", 86_400, "a%2Fb", "a/b", 3);
    assert!(d.is_open_target);
    let c = object_card(&entry("a", "directory", 0), "", "a", "");
    assert!(c.is_directory);
    let crumbs = breadcrumb("x/y");
    assert_eq!(crumbs.len(), 2);
    assert_eq!(crumbs[1].0, "y");
    assert!(confirm_js("it's").contains("it"));
    assert_eq!(byte_scale(0), ByteScale::Dash);
    assert_eq!(byte_scale(1023), ByteScale::Bytes);
    assert_eq!(byte_scale(1024), ByteScale::KiB);
    assert_eq!(byte_scale(1024 * 1024), ByteScale::MiB);
    assert_eq!(format_shards(7), "7 shards");
}

#[test]
fn pages_are_loaded_one_after_another() {
    let mut p = Pager::new(Page { entries: vec![entry("a", "text", 0)], has_more: true });
    let at = p.load_more().expect("more to load");
    assert_eq!(at, p.offset);
    assert!(p.load_more().is_none(), "one request at a time");
    p.on_page(Some(Page { entries: vec![entry("b", "text", 0)], has_more: false }));
    assert_eq!(p.entries.len(), 2);
    assert!(p.load_more().is_none());
}

#[test]
fn live_numbers_follow_the_events() {
    let s0 = HealthSnapshot { n_live: 3, n_total: 4, objects: 2, ts_ms: 1 };
    let mut l = LiveStats::new(s0);
    assert_eq!(l.state, SseState::Connecting);
    l.on_event(SseEvent::Open);
    assert_eq!(l.state, SseState::Live);
    let s1 = HealthSnapshot { n_live: 4, n_total: 4, objects: 2, ts_ms: 2 };
    l.on_event(SseEvent::Message(Some(s1)));
    assert_eq!(l.snap.n_live, 4);
    l.on_event(SseEvent::Error);
    assert_eq!(l.state, SseState::Disconnected);
}

#[test]
fn health_labels() {
    assert_eq!(signed_string(-3), "-3");
    assert_eq!(signed_string(3), "+3");
    let row = LayerRow {
        channel: 0,
        layer: 0,
        n_shards: 10,
        n_alive: 8,
        n_hosting_nodes: 4,
        k: 6,
        margin: 2,
    };
    let (text, _class) = layer_cell(&row, 6);
    assert!(text.contains('8'));
    assert_eq!(loss_headings(2).len(), 3);
    let (dead, _) = resolution_label(None, 3);
    let (full, _) = resolution_label(Some(2), 3);
    assert_ne!(dead, full);
    let a = diff_cell(&DiffCellView { idx: 1, is_common: true });
    let b = diff_cell(&DiffCellView { idx: 1, is_common: false });
    assert_ne!(a.0, b.0);
}

#[test]
fn entry_counts_shards_and_bytes() {
    let m = Manifest {
        kind: ObjectKind::Image,
        content_type: "image/png".into(),
        width: 64,
        height: 32,
        n_per_layer: vec![10, 20],
        sym_len: vec![100],
        k: 6,
        channels: 3,
        data_cid: [0xab; 32],
        audio_sample_rate: 0,
        created_at_unix: 9,
    };
    let e = CatalogEntry::from_manifest("p.png", &m);
    assert_eq!(e.n_shards, 90);
    assert_eq!(e.bytes_stored, 10 * 106 * 3 + 20 * 6 * 3);
    assert_eq!(e.cid_short, "abababababab");
    assert_eq!(e.kind, "image");
}
