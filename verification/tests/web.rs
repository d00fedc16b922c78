use holofs::bootstrap::{
    audit_tag, background_interval, bind_failure, distributed_nodes, embedded_nodes, node_key,
    plan_background, plan_boot, recover_states, renames_legacy_catalog, versions_kept, AuditOutcome,
    BackgroundDefaults, BackgroundSettings, BootstrapConfig, Found, ManifestState, Nodes, SeedSource, StorageSettings,
};
use holofs::cli::{parse_pubkey_hex, Cli, LogFormat};
use holofs::form::{
    is_valid_put_name, join_path, parse_urlencoded_field, pick_return_to, top_segment,
    url_decode_simple, url_encode_simple,
};
use holofs::handlers::{
    add_node_json, admin_add_node, catalog_names_json, check_get_name, check_put_name,
    delete_version_form, embed_all, escrow_download, escrow_error_response, form_reply, gc_json,
    get_shard_png, is_share_field, mix_preview, mix_save, mkdir_form, mv, parse_form_usize,
    restore_version_form, rm_form, rmdir_form, search_json, semantic_search, toggle_node,
    upload_max_size, upload_tmp_name, EscrowForm, GcReport, ListedObject, NodeGc, SearchBand,
    SearchHit, UploadForm, UploadMeter,
};
use holofs::health_view::ObjectKind;
use holofs::http::{
    decoded_to_response, encoding_failed, encoding_in_progress, error_to_response,
    escrow_recover_response, escrow_share_response, fingerprint_to_json, ingest_to_response,
    rename_to_response, serve_with_range, ByteRange, DecodedObject, GatewayError, IngestResult,
    RangeOutcome, Reply,
};
use holofs::identity::NodeIdentity;
use holofs::metrics::{metrics, stats_to_json, ApiStats, Counters, KindCounts, NodeFlags};
use holofs::pictures::{
    mix_response, render_shard_as_png, shard_png_response, spotlight_response, PreviewStream,
    Spotlight,
};
use holofs::whitelist::{Whitelist, WhitelistEntry};

fn text(r: &Reply) -> String {
    String::from_utf8(r.body.clone()).unwrap()
}

fn header<'a>(r: &'a Reply, name: &str) -> Option<&'a str> {
    r.headers.iter().find(|h| h.0 == name).map(|h| h.1.as_str())
}

fn refusal<T>(r: Result<T, Reply>) -> (u16, String) {
    match r {
        Ok(_) => panic!("not refused"),
        Err(p) => (p.status, text(&p)),
    }
}

#[test]
fn urls_survive_their_escapes() {
    assert_eq!(url_encode_simple("a b/ü"), "a%20b/%C3%BC");
    assert_eq!(url_decode_simple("a+b%2Fc"), "a b/c");
    assert_eq!(url_decode_simple(&url_encode_simple("x&y=z%")), "x&y=z%");
    assert_eq!(parse_urlencoded_field("a=1&b=x+y", "b").as_deref(), Some("x y"));
    assert_eq!(parse_urlencoded_field("a=1", "b"), None);
    assert_eq!(top_segment("a/b"), "a");
    assert_eq!(join_path("", "n"), "n");
    assert_eq!(join_path("p", "n"), "p/n");
    assert!(!is_valid_put_name("health/x"));
    assert!(!is_valid_put_name(""));
    assert!(is_valid_put_name("healthy"));
    assert_eq!(pick_return_to("/x", "p"), "/x");
}

#[test]
fn forms_of_directories() {
    let p = mkdir_form(b"parent=a&name=b&return_to=%2Fz").unwrap();
    assert_eq!((p.path.as_str(), p.target.as_str()), ("a/b", "/z"));
    assert_eq!(refusal(mkdir_form(&[0xff])), (400, "non-utf8 body".into()));
    assert_eq!(refusal(mkdir_form(b"parent=a")), (400, "missing 'name'".into()));
    assert_eq!(
        refusal(mkdir_form(b"parent=api&name=b")),
        (400, "reserved or empty top segment".into())
    );
    let p = rm_form(b"path=a/b/c").unwrap();
    assert_eq!(p.path, "a/b/c");
    assert_eq!(p.target, rmdir_form(b"path=a/b/c").unwrap().target);
    assert_eq!(refusal(rm_form(b"x=1")), (400, "missing 'path'".into()));
    assert_eq!(mv(b"from=a&to=b").unwrap(), ("a".to_string(), "b".to_string()));
    assert_eq!(refusal(mv(b"to=b")), (400, "missing 'from'".into()));
    assert_eq!(refusal(mv(b"from=b")), (400, "missing 'to'".into()));
    let r = form_reply("/x", &None);
    assert_eq!((r.status, header(&r, "location")), (303, Some("/x")));
    let r = form_reply("/x", &Some(GatewayError::DirectoryNotEmpty));
    assert_eq!((r.status, text(&r).as_str()), (409, "directory not empty"));
}

#[test]
fn forms_of_mixes_and_versions() {
    let p = mix_preview("a=x&b=y&split=3").unwrap();
    assert_eq!((p.a.as_str(), p.b.as_str(), p.split), ("x", "y", 3));
    assert_eq!(mix_preview("a=x&b=y&split=300").unwrap().split, 0);
    assert_eq!(refusal(mix_preview("b=y")), (400, "missing 'a'".into()));
    let p = mix_save(b"a=x&b=y&split=1&dest=d/e f").unwrap();
    assert_eq!((p.dest.as_str(), p.target.as_str()), ("d/e f", "/?open=d"));
    assert_eq!(mix_save(b"a=x&b=y&split=1&dest=e").unwrap().target, "/?open=e");
    assert_eq!(refusal(mix_save(b"a=x&b=y&dest=e")), (400, "missing or invalid 'split'".into()));
    assert_eq!(
        refusal(mix_save(b"a=x&b=y&split=1&dest=api")),
        (400, "invalid 'dest' (reserved or empty top segment)".into())
    );
    let v = restore_version_form("name=a%20b&id=7").unwrap();
    assert_eq!(v.return_to, "/versions/a%20b");
    assert_eq!(delete_version_form("name=a&id=7&return_to=/q").unwrap().return_to, "/q");
    assert_eq!(refusal(restore_version_form("name=a")), (400, "missing 'id'".into()));
}

#[test]
fn forms_of_nodes() {
    assert_eq!(toggle_node(b"i=12").unwrap(), 12);
    assert_eq!(refusal(toggle_node(b"i=x")), (400, "missing or bad field i".into()));
    assert_eq!(admin_add_node(b"addr=h%3A1&zone=2").unwrap(), ("h:1".to_string(), 2));
    assert_eq!(admin_add_node(b"addr=h&zone=900").unwrap().1, 0);
    assert_eq!(refusal(admin_add_node(b"zone=2")), (400, "missing field addr".into()));
    let j = add_node_json("a\"b", 1, 2, 3);
    let v: serde_json::Value = serde_json::from_str(&j).unwrap();
    assert_eq!(v["addr"], "a\"b");
    assert_eq!(v["objects_failed"], 3);
}

#[test]
fn shards_and_shares_are_named_by_path() {
    assert_eq!(get_shard_png("1_2_345.png").unwrap(), (1, 2, 345));
    assert_eq!(get_shard_png("1_2_345").unwrap(), (1, 2, 345));
    assert_eq!(refusal(get_shard_png("1_2")), (400, "bad c_l_idx".into()));
    assert_eq!(refusal(get_shard_png("x_2_3")), (400, "bad channel".into()));
    assert_eq!(refusal(get_shard_png("1_999_3")), (400, "bad layer".into()));
    assert_eq!(refusal(get_shard_png("1_2_y")), (400, "bad idx".into()));
    assert_eq!(escrow_download("ab_cd_3.holoshare").unwrap(), ("ab_cd".to_string(), 3));
    assert_eq!(refusal(escrow_download("abc")), (400, "bad escrow download path".into()));
    assert_eq!(refusal(escrow_download("abc_x")), (400, "bad share index".into()));
    assert_eq!(escrow_error_response(&GatewayError::NotFound).status, 410);
    assert_eq!(escrow_error_response(&GatewayError::ClusterDegraded).status, 503);
}

#[test]
fn fields_of_an_escrow() {
    let mut f = EscrowForm::new();
    f.on_field("k", None, b" 2 ".to_vec());
    f.on_field("n", None, b"four".to_vec());
    f.on_field("lang", None, b"xx".to_vec());
    assert_eq!((f.k, f.n, f.lang.as_str()), (2, 5, "en"));
    assert_eq!(refusal(EscrowForm::new().finish()), (400, "no file field".into()));
    f.on_field("file", Some("s.txt"), b"data".to_vec());
    let f = f.finish().unwrap();
    assert_eq!((f.filename.as_str(), f.file.unwrap()), ("s.txt", b"data".to_vec()));
    assert_eq!(parse_form_usize(b" 17\n"), Some(17));
    assert_eq!(parse_form_usize(&[0xff]), None);
    assert!(is_share_field("shares", b"x"));
    assert!(!is_share_field("shares", b""));
    let r = escrow_share_response(3, 5, vec![1, 2]);
    assert_eq!(
        header(&r, "content-disposition"),
        Some("attachment; filename=\"share_03_of_5.holoshare\"")
    );
    let r = escrow_recover_response(vec![1], "text/plain", "a\"b", 3);
    assert_eq!(header(&r, "content-disposition"), Some("attachment; filename=\"ab\""));
}

#[test]
fn fields_of_an_upload() {
    let mut f = UploadForm::new();
    f.on_field("parent", None, b"p".to_vec());
    f.on_field("name", None, b"  ".to_vec());
    f.on_field("file", Some("f.bin"), vec![1]);
    let p = f.finish().unwrap();
    assert_eq!((p.path.as_str(), p.body), ("p/f.bin", vec![1]));
    let mut f = UploadForm::new();
    f.on_field("file", None, vec![1]);
    f.on_field("return_to", None, b" /r ".to_vec());
    let p = f.finish().unwrap();
    assert_eq!((p.path.as_str(), p.target.as_str()), ("uploaded.bin", "/r"));
    let mut f = UploadForm::new();
    assert_eq!(refusal(UploadForm::new().finish()), (400, "no file field".into()));
    f.on_field("file", None, Vec::new());
    assert_eq!(refusal(f.finish()), (400, "empty file".into()));
    // A name that is not UTF-8 is taken with replacement characters.
    let mut f = UploadForm::new();
    f.on_field("name", None, vec![b'a', 0xff]);
    assert_eq!(f.name_override.as_deref(), Some("a\u{fffd}"));
}

#[test]
fn upload_stops_at_its_limit() {
    let mut m = UploadMeter::new(10);
    assert!(m.on_chunk(10).is_ok());
    let (status, body) = refusal(m.on_chunk(1));
    assert_eq!(status, 413);
    assert_eq!(body, "upload exceeds cap of 10 bytes (HOLOFS_UPLOAD_MAX_SIZE)");
    assert_eq!(m.written, 10);
    assert!(m.on_chunk(u64::MAX).is_err());
    assert_eq!(upload_max_size(&None), 1024 * 1024 * 1024);
    assert_eq!(upload_max_size(&Some("5".into())), 5);
    assert_eq!(upload_max_size(&Some("x".into())), 1024 * 1024 * 1024);
    assert_eq!(upload_tmp_name(7, 3), "upload-7-3.tmp");
    assert!(check_put_name("a").is_ok());
    assert_eq!(
        refusal(check_put_name("health")),
        (400, "name must be a single segment, not health-*".into())
    );
    assert_eq!(refusal(check_get_name("pkg/x")), (404, "not found".into()));
}

#[test]
fn search_is_asked_and_answered() {
    let p = semantic_search(Some("q=cat&limit=900&band=mid"), true).unwrap();
    assert_eq!((p.q.as_str(), p.limit, p.band.as_deref()), ("cat", 200, Some("mid")));
    assert_eq!(semantic_search(Some("q=cat"), true).unwrap().limit, 50);
    assert_eq!(refusal(semantic_search(None, true)).0, 400);
    assert_eq!(refusal(semantic_search(Some("q=++"), true)), (400, "'q' is empty".into()));
    assert_eq!(refusal(semantic_search(Some("q=x"), false)).0, 503);
    let hits = vec![
        SearchHit { name: "a\"\\b".into(), score: "0.500000".into(), band: SearchBand::Coarse },
        SearchHit { name: "c".into(), score: "0.250000".into(), band: SearchBand::Any },
    ];
    let v: serde_json::Value = serde_json::from_str(&search_json(&hits)).unwrap();
    assert_eq!(v["hits"][0]["name"], "a\"\\b");
    assert_eq!(v["hits"][1]["band"], "any");
    assert_eq!(embed_all(&None).status, 503);
    assert_eq!(text(&embed_all(&Some(Ok((3, 4))))), "{\"new\":3,\"skipped\":4}");
}

#[test]
fn sweep_and_list_in_json() {
    let rep = GcReport {
        live_hashes: 1,
        manifests_scanned: 2,
        held_total: 3,
        purged_total: 4,
        embeddings_kept: None,
        embeddings_dropped: Some(6),
        duration_ms: 7,
        nodes: vec![
            NodeGc {
                node_idx: 0,
                node_addr: "h:1".into(),
                held: 1,
                orphaned: 0,
                ok: true,
                error: None,
            },
            NodeGc {
                node_idx: 1,
                node_addr: "h:2".into(),
                held: 2,
                orphaned: 1,
                ok: false,
                error: Some("bad \"x\"".into()),
            },
        ],
    };
    let v: serde_json::Value = serde_json::from_str(&gc_json(&rep)).unwrap();
    assert_eq!(v["embeddings_kept"], serde_json::Value::Null);
    assert_eq!(v["embeddings_dropped"], 6);
    assert_eq!(v["nodes"][1]["error"], "bad \"x\"");
    let list = vec![
        ListedObject { name: "a".into(), kind: ObjectKind::Image, size: 5 },
        ListedObject { name: "b\n".into(), kind: ObjectKind::Text, size: 6 },
    ];
    assert_eq!(
        catalog_names_json(&list),
        "[{\"name\":\"a\",\"kind\":\"image\",\"size\":5},{\"name\":\"b\\n\",\"kind\":\"text\",\"size\":6}]"
    );
}

fn object(bytes: &[u8]) -> DecodedObject {
    DecodedObject {
        bytes: bytes.to_vec(),
        content_type: "text/plain".into(),
        kind: ObjectKind::Text,
        bytes_downloaded: 9,
        decode_ms: 3,
        max_layer: None,
        sample_rate: None,
        channels: None,
        chunks_total: None,
        chunks_missing: None,
        filename_for_disposition: None,
    }
}

#[test]
fn objects_are_served_whole_or_in_part() {
    let r = decoded_to_response(object(b"hello"));
    assert_eq!((r.status, text(&r).as_str()), (200, "hello"));
    let r = serve_with_range(object(b"hello"), RangeOutcome::Range(ByteRange { start: 1, end_inclusive: 3 }));
    assert_eq!((r.status, text(&r).as_str()), (206, "ell"));
    assert_eq!(header(&r, "content-range"), Some("bytes 1-3/5"));
    let r = serve_with_range(object(b"hello"), RangeOutcome::Unsatisfiable);
    assert_eq!(r.status, 416);
    assert_eq!(header(&r, "content-range"), Some("bytes */5"));
    assert_eq!(serve_with_range(object(b"hello"), RangeOutcome::NoRange).status, 200);
    assert_eq!(serve_with_range(object(b"hello"), RangeOutcome::Multiple).status, 200);
    assert_eq!(encoding_in_progress("x").status, 503);
    assert_eq!(encoding_failed("x").status, 404);
    assert_eq!(error_to_response(&GatewayError::Persist("p".into())).status, 500);
    assert!(fingerprint_to_json("n", "ff", ObjectKind::Audio).contains("\"audio\""));
    assert!(text(&rename_to_response("a", "b", 2)).contains("\"b\""));
    let r = ingest_to_response(&IngestResult {
        name: "n".into(),
        object_id: 255,
        data_cid_hex: "ab".into(),
        width: 1,
        height: 2,
        total_shards: 3,
        put_ms: 4,
    });
    assert!(text(&r).contains("00000000000000ff"), "{}", text(&r));
}

#[test]
fn shard_is_drawn_as_a_square() {
    let png = render_shard_as_png(&[9, 8, 7, 6, 5]);
    assert_eq!(&png[..8], &[137, 80, 78, 71, 13, 10, 26, 10]);
    let dec = png::Decoder::new(&png[..]);
    let mut reader = dec.read_info().unwrap();
    let mut buf = vec![0; reader.output_buffer_size()];
    let info = reader.next_frame(&mut buf).unwrap();
    assert_eq!((info.width, info.height), (3, 3));
    assert_eq!(&buf[..6], &[9, 9, 9, 8, 8, 8]);
    assert_eq!(&buf[15..18], &[0, 0, 0]);
    let empty = render_shard_as_png(&[]);
    let reader = png::Decoder::new(&empty[..]).read_info().unwrap();
    assert_eq!((reader.info().width, reader.info().height), (1, 1));
    let r = shard_png_response(&[1, 2, 3, 4]);
    assert_eq!(header(&r, "content-length"), Some(format!("{}", r.body.len()).as_str()));
    assert_eq!(header(&mix_response(vec![1]), "cache-control"), Some("no-store"));
    let s = spotlight_response(Spotlight {
        bytes: vec![1],
        roi_px: (1, 2, 3, 4),
        decode_ms: 5,
        bytes_downloaded: 6,
    });
    assert_eq!(header(&s, "x-holofs-roi-px"), Some("1,2,3,4"));
}

#[test]
fn picture_comes_layer_by_layer() {
    let mut s = PreviewStream::start("p.png", Some((ObjectKind::Image, 3))).unwrap();
    assert_eq!(s.wanted(), Some(0));
    assert_eq!(
        s.on_layer(Some(b"PNG")),
        b"\r\n--hololayer-2026-06-25\r\nContent-Type: image/png\r\nContent-Length: 3\r\nX-Holofs-Layer: 0\r\n\r\nPNG"
    );
    assert_eq!(s.wanted(), Some(1));
    assert!(s.on_layer(None).is_empty());
    assert_eq!(s.wanted(), None);
    assert_eq!(PreviewStream::tail(), b"\r\n--hololayer-2026-06-25--\r\n");
    assert_eq!(refusal(PreviewStream::start("a", None)), (404, "not found".into()));
    assert_eq!(refusal(PreviewStream::start("a", Some((ObjectKind::Text, 1)))).0, 404);
    assert_eq!(refusal(PreviewStream::start("a", Some((ObjectKind::Image, 0)))), (503, "no layers".into()));
}

fn stats() -> ApiStats {
    ApiStats {
        nodes_total: 40,
        nodes_live: 39,
        objects_total: 5,
        objects_by_kind: KindCounts { image: 1, audio: 1, text: 1, opaque: 1, directory: 1 },
        shards_total: 100,
        shards_unique: 90,
        dedup_savings_pct: "10.00".into(),
        bytes_total: 12345,
        auto_repairs_total: 1,
        auto_repair_failures_total: 0,
        scrub_runs_total: 2,
        scrub_repairs_total: 3,
    }
}

#[test]
fn counters_in_text_and_in_json() {
    let c = Counters {
        catalog_persist_failures_total: 1,
        timeout_short_total: 2,
        timeout_medium_total: 3,
        timeout_long_total: 4,
        medium_rejected_total: 5,
        long_rejected_total: 6,
        medium_permits_available: 7,
        long_permits_available: 8,
        task_restarts_monitor: 9,
        task_restarts_auditor: 10,
        task_restarts_scrub: 11,
        objects_encoding: 12,
        encode_completed_total: 13,
        encode_failed_total: 14,
        put_cpu_ns_sum: 15,
        put_fanout_ns_sum: 16,
        put_count: 17,
        rate_limit_rejected_total: 18,
        admin_auth_missing_total: 19,
        admin_auth_bad_total: 20,
        admin_auth_disabled_total: 21,
    };
    let f = NodeFlags { kills: vec![false, true], addrs: vec!["h:1".into()], zones: vec![3] };
    let t = metrics(&stats(), &c, &f);
    assert!(t.starts_with(
        "# HELP holofs_nodes_total Total nodes in the cluster topology.\n# TYPE holofs_nodes_total gauge\nholofs_nodes_total 40\n"
    ));
    assert!(t.contains("\nholofs_objects_total{kind=\"directory\"} 1\n"));
    assert!(t.contains("\nholofs_dedup_savings_pct 10.00\n"));
    assert!(t.contains("\nholofs_admin_auth_failures_total{outcome=\"disabled\"} 21\n"));
    assert!(t.ends_with(
        "holofs_node_admin_killed{node=\"n0\",addr=\"h:1\",zone=\"3\"} 0\nholofs_node_admin_killed{node=\"n1\",addr=\"?\",zone=\"0\"} 1\n"
    ));
    let v: serde_json::Value = serde_json::from_str(&stats_to_json(&stats())).unwrap();
    assert_eq!(v["objects_by_kind"]["audio"], 1);
    assert_eq!(v["scrub_repairs_total"], 3);
}

fn settings() -> StorageSettings {
    StorageSettings {
        storage_dir: "/d".into(),
        catalog: None,
        whitelist: None,
        admin_pubkey: None,
        seed_photo: None,
        no_seed: false,
        enable_embed: false,
        enable_versions: true,
    }
}

#[test]
fn cluster_of_own_nodes() {
    let c = BootstrapConfig::from_env(settings());
    assert_eq!(c.catalog_path(), "/d/catalog.bin");
    assert_eq!(c.identity_path(None), "/d/gateway_identity.key");
    assert_eq!(c.identity_path(Some("/k")), "/k");
    assert!(c.should_seed(true) && !c.should_seed(false));
    assert!(matches!(c.seed_source(true), SeedSource::Sample));
    assert_eq!(c.seed_source(false).label(), "synthetic mandala");
    let found = Found { list: Vec::new(), n_nodes: 40, base_port: 9000 };
    let plan = plan_boot(&c, &found).unwrap();
    let zones = plan.nodes.zones();
    assert_eq!((zones.len(), zones[0], zones[9], zones[10], zones[39]), (40, 0, 0, 1, 3));
    match plan.nodes {
        Nodes::Embedded(v) => {
            assert_eq!((v[7].dir.as_str(), v[7].port), ("node_07", 9007));
        }
        _ => panic!("own nodes expected"),
    }
    assert_eq!(embedded_nodes(6, 65530).len(), 6);
    assert!(bind_failure(9001, 1, "in use").starts_with(
        "failed to bind port 9001 for node_01: in use\nhint: another holofs binary"
    ));
}

#[test]
fn cluster_of_listed_nodes() {
    let admin = NodeIdentity::generate();
    let other = NodeIdentity::generate();
    let wl = Whitelist::sign(
        vec![
            WhitelistEntry { addr: "a:1".into(), pubkey: [1; 32], zone: 4 },
            WhitelistEntry { addr: "b:1".into(), pubkey: [2; 32], zone: 5 },
            WhitelistEntry { addr: "a:1".into(), pubkey: [3; 32], zone: 6 },
        ],
        &admin,
    );
    let bytes = wl.encode();
    let mut s = settings();
    s.whitelist = Some("wl".into());
    s.admin_pubkey = Some(holofs::hex::encode_hex_bytes(&admin.pubkey()));
    let c = BootstrapConfig::from_env(s);
    assert_eq!(c.admin_pubkey, Some(admin.pubkey()));
    assert!(!c.should_seed(true));
    let found = Found { list: bytes.clone(), n_nodes: 0, base_port: 0 };
    assert_eq!(plan_boot(&c, &found).unwrap().nodes.zones(), vec![4, 5, 6]);
    assert_eq!(
        distributed_nodes(&bytes, Some(&other.pubkey())).unwrap_err(),
        "BAD whitelist signature"
    );
    assert_eq!(distributed_nodes(&[], None).unwrap_err(), "whitelist truncated");
    assert_eq!(distributed_nodes(&bytes, None).unwrap_err(), "BAD whitelist signature");
    let mut c = c;
    c.admin_pubkey = None;
    assert_eq!(plan_boot(&c, &found).unwrap_err(), "BAD whitelist signature");
    assert_eq!(node_key(&wl, "a:1"), Some([3; 32]));
    assert_eq!(node_key(&wl, "c:1"), None);
    for (path, dir) in [
        ("/data/cat/catalog.bin", "/data/cat"),
        ("/catalog.bin", "/"),
        ("catalog.bin", ""),
        ("a//b/", "a"),
        ("/", c.storage.as_str()),
    ] {
        let d = BootstrapConfig { catalog: Some(path.into()), ..c.clone() };
        assert_eq!(d.catalog_dir(), dir, "{path}");
    }
}

#[test]
fn restart_gives_up_what_was_being_encoded() {
    let mut v = vec![
        ManifestState::Ready,
        ManifestState::Encoding,
        ManifestState::Failed,
        ManifestState::Encoding,
    ];
    assert_eq!(recover_states(&mut v), vec![1, 3]);
    assert_eq!(v[1], ManifestState::Failed);
    assert!(recover_states(&mut v).is_empty());
    assert!(renames_legacy_catalog(true, false) && !renames_legacy_catalog(true, true));
    assert_eq!(background_interval(0), None);
    assert_eq!(versions_kept(Some(5)), Some(5));
    assert_eq!(audit_tag(AuditOutcome::HashMismatch), Some("MISMATCH"));
    assert_eq!(audit_tag(AuditOutcome::Pass), None);
}

#[test]
fn command_line_gives_the_configuration() {
    let cli = Cli {
        addr: "127.0.0.1:8787".into(),
        storage: "/d".into(),
        catalog: None,
        whitelist: None,
        admin_pubkey: None,
        seed_photo: None,
        no_seed: true,
        metrics_listen: None,
        log: "info".into(),
        log_format: LogFormat::Json,
        tls: false,
        mtls: true,
        tls_cert: None,
        tls_key: None,
        tls_ca_cert: None,
    };
    let c = cli.bootstrap_config();
    assert!(c.tls.enabled && c.tls.mtls && c.no_seed);
    assert_eq!(parse_pubkey_hex("00").unwrap_err(), "admin pubkey must be 64 hex chars");
    let bad = format!("00zz{}", "00".repeat(30));
    assert_eq!(
        parse_pubkey_hex(&bad).unwrap_err(),
        "bad hex at byte 1: invalid digit found in string"
    );
    assert_eq!(parse_pubkey_hex(&"0f".repeat(32)), Ok([15; 32]));
}

#[test]
fn adjacent_parts_make_the_whole() {
    let part = |a: u64, b: u64| {
        let range = ByteRange { start: a, end_inclusive: b };
        serve_with_range(object(b"0123456789"), RangeOutcome::Range(range)).body
    };
    let mut joined = part(0, 3);
    joined.extend(part(4, 9));
    assert_eq!(joined, part(0, 9));
}

#[test]
fn interval_of_zero_switches_off() {
    let d = BackgroundDefaults { capacity_poll_secs: 60, rebalance_secs: 300, retention_secs: 3600 };
    let mut s = BackgroundSettings {
        monitor_secs: 5,
        audit_secs: 30,
        reputation_persist_secs: 30,
        scrub_secs: 600,
        capacity_poll: None,
        rebalance: Some("x".into()),
        retention: Some("0".into()),
        rebalance_wanted: true,
    };
    let p = plan_background(&s, &d);
    assert_eq!((p.scrub, p.capacity_poll, p.rebalance, p.retention), (Some(600), 60, Some(300), None));
    s.scrub_secs = 0;
    s.rebalance_wanted = false;
    let p = plan_background(&s, &d);
    assert_eq!((p.scrub, p.rebalance), (None, None));
    let mut c = BootstrapConfig::from_env(settings());
    assert_eq!(c.reputation_path(), "/d/reputation.bin");
    assert_eq!(c.embed_path(), None);
    assert_eq!(c.versions_root().as_deref(), Some("/d"));
    c.enable_embed = true;
    assert_eq!(c.embed_path().as_deref(), Some("/d/embeddings.bin"));
}
