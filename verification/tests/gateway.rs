use holofs::access::{ct_eq, with_permit, AdminAuth};
use holofs::audit::{log_event, resolve_audit_log_path, AuditEvent, AuditLogger};
use holofs::config_file::{
    detect_config_path, resolve_secret, AdminSection, ClusterSection, ConfigFile, FeaturesSection,
    McpSection, ReliabilitySection, ServerSection, TlsSection,
};
use holofs::json::json_escape;

fn cfg(expected: Option<&str>, unauth: bool) -> AdminAuth {
    AdminAuth {
        expected: expected.map(|t| format!("Bearer {t}")),
        unauthenticated_allowed: unauth,
        missing_counter: 0,
        bad_counter: 0,
        disabled_counter: 0,
    }
}

#[test]
fn token_set_correct_bearer_passes() {
    let mut c = cfg(Some("secret"), false);
    assert!(c.require_admin_token("Bearer secret").is_none());
}

#[test]
fn token_set_missing_header_401() {
    let mut c = cfg(Some("secret"), false);
    let r = c.require_admin_token("").expect("refused");
    assert_eq!(r.status, 401);
    assert_eq!(c.missing_counter, 1);
}

#[test]
fn token_set_wrong_bearer_401() {
    let mut c = cfg(Some("secret"), false);
    let r = c.require_admin_token("Bearer nope").expect("refused");
    assert_eq!(r.status, 401);
    assert_eq!(c.bad_counter, 1);
}

#[test]
fn no_token_no_override_403() {
    let mut c = cfg(None, false);
    let r = c.require_admin_token("").expect("refused");
    assert_eq!(r.status, 403);
    let body = String::from_utf8(r.body).unwrap();
    assert!(body.contains("disabled"), "body was {body:?}");
    assert_eq!(c.disabled_counter, 1);
}

#[test]
fn no_token_dev_override_allows() {
    let mut c = cfg(None, true);
    assert!(c.require_admin_token("").is_none());
}

#[test]
fn permit_available_returns_200() {
    let mut rej = 0u64;
    assert!(with_permit(true, 3, &mut rej).is_none());
    assert_eq!(rej, 0, "no rejection counter bump");
}

#[test]
fn no_permit_returns_503_and_increments_counter() {
    let mut rej = 0u64;
    let r = with_permit(false, 0, &mut rej).expect("refused");
    assert_eq!(r.status, 503);
    assert_eq!(rej, 1, "rejection counter should have incremented once");
}

#[test]
fn comparison_looks_at_every_byte() {
    assert!(ct_eq(b"abc", b"abc"));
    assert!(!ct_eq(b"abc", b"abd"));
    assert!(!ct_eq(b"abc", b"ab"));
}

#[test]
fn audit_event_to_jsonl_shape() {
    let ev = AuditEvent {
        ts_unix_ms: 1_720_000_000_000,
        actor: "admin_token".into(),
        verb: "drain_node",
        target: "idx=10".into(),
        result: "ok",
        details_json: Some(r#"{"drained":42,"failed":0}"#.into()),
    };
    let line = ev.to_jsonl();
    assert!(line.ends_with('\n'));
    assert!(line.contains(r#""ts_unix_ms":1720000000000"#));
    assert!(line.contains(r#""verb":"drain_node""#));
    assert!(line.contains(r#""target":"idx=10""#));
    assert!(line.contains(r#""result":"ok""#));
    assert!(line.contains(r#""details":{"drained":42,"failed":0}"#));
    let parsed: serde_json::Value = serde_json::from_str(line.trim()).unwrap();
    assert_eq!(parsed["verb"], "drain_node");
    assert_eq!(parsed["details"]["drained"], 42);
}

#[test]
fn audit_event_escapes_quotes_and_backslashes_in_target() {
    let ev = AuditEvent::now(1, "test", r#"path="a\b\c""#.to_string(), "ok");
    let line = ev.to_jsonl();
    let parsed: serde_json::Value = serde_json::from_str(line.trim()).unwrap();
    assert_eq!(parsed["target"], r#"path="a\b\c""#);
}

#[test]
fn resolve_defaults_to_storage_audit_log_when_env_absent() {
    let p = resolve_audit_log_path("/data", None);
    assert_eq!(p, Some("/data/audit.log".to_string()));
}

#[test]
fn resolve_returns_none_when_env_is_off() {
    assert_eq!(resolve_audit_log_path("/data", Some("off")), None);
    assert_eq!(resolve_audit_log_path("/data", Some("OFF")), None);
    assert_eq!(resolve_audit_log_path("/data", Some("Off")), None);
}

#[test]
fn resolve_takes_env_path_verbatim() {
    let p = resolve_audit_log_path("/data", Some("/data/elsewhere.log"));
    assert_eq!(p, Some("/data/elsewhere.log".to_string()));
}

#[test]
fn logger_disabled_when_path_is_none() {
    let mut log = AuditLogger::open_at(None, true);
    assert!(!log.is_enabled());
    assert!(log.path().is_none());
    log.log(&AuditEvent::now(1, "noop", String::new(), "ok"));
    assert_eq!(log.take_pending(), "");
}

#[test]
fn logger_persists_lines_and_flushes_per_event() {
    let mut log = AuditLogger::open_at(Some("audit.log".into()), true);
    assert!(log.is_enabled());
    for i in 0..3 {
        log.log(&AuditEvent::now(1, "test", format!("i={i}"), "ok"));
    }
    let raw = log.take_pending();
    let lines: Vec<&str> = raw.lines().collect();
    assert_eq!(lines.len(), 3, "expected 3 lines, got {raw:?}");
    for (i, line) in lines.iter().enumerate() {
        let parsed: serde_json::Value = serde_json::from_str(line).unwrap();
        assert_eq!(parsed["target"], format!("i={i}"));
    }
    assert_eq!(log.take_pending(), "");
}

#[test]
fn logger_open_survives_missing_parent_by_disabling() {
    let log = AuditLogger::open_at(Some("/no/such/dir/audit.log".into()), false);
    assert!(!log.is_enabled());
}

#[test]
fn process_without_a_log_keeps_no_events() {
    let ev = AuditEvent::now(1, "v", "t".into(), "ok").with_details("{}".into());
    let mut none: Option<AuditLogger> = None;
    log_event(&mut none, &ev);
    assert!(none.is_none());
    let mut some = Some(AuditLogger::open_at(Some("a".into()), true));
    log_event(&mut some, &ev);
    assert_eq!(
        some.unwrap().take_pending(),
        "{\"ts_unix_ms\":1,\"actor\":\"admin_token\",\"verb\":\"v\",\"target\":\"t\",\
         \"result\":\"ok\",\"details\":{}}\n"
    );
}

#[test]
fn escaped_text_is_read_back_by_a_parser() {
    let s = "a\"b\\c\nd\te\u{1}f\u{8}é";
    let quoted = format!("\"{}\"", json_escape(s));
    let v: serde_json::Value = serde_json::from_str(&quoted).unwrap();
    assert_eq!(v, s);
    assert_eq!(json_escape("\u{1}"), "\\u0001");
}

#[test]
fn resolve_secret_prefers_inline_over_file() {
    let out = resolve_secret(&Some("inline-token".into()), None);
    assert_eq!(out.as_deref(), Some("inline-token"));
    let out = resolve_secret(&Some("inline-token".into()), Some("other"));
    assert_eq!(out.as_deref(), Some("inline-token"));
}

#[test]
fn resolve_secret_reads_token_file_first_nonempty_line() {
    let out = resolve_secret(&None, Some("\n\n  the-token  \nother-stuff\n"));
    assert_eq!(out.as_deref(), Some("the-token"));
}

fn empty_config() -> ConfigFile {
    ConfigFile {
        server: ServerSection {
            addr: None,
            storage: None,
            catalog: None,
            log: None,
            log_format: None,
            metrics_listen: None,
        },
        tls: TlsSection { enabled: None, mtls: None, cert: None, key: None, ca_cert: None },
        cluster: ClusterSection {
            whitelist: None,
            admin_pubkey: None,
            embed_base_port: None,
            seed_photo: None,
            no_seed: None,
        },
        features: FeaturesSection { embed: None, versions: None },
        reliability: ReliabilitySection {
            medium_concurrency: None,
            long_concurrency: None,
            scrub_interval_secs: None,
            reputation_persist_interval_secs: None,
            monitor_interval_secs: None,
            audit_interval_secs: None,
            rpc_timeout_ms: None,
            versions_keep_last: None,
            upload_max_size: None,
        },
        admin: AdminSection { token: None, token_file: None, unauthenticated: None },
        mcp: McpSection { token: None, token_file: None },
    }
}

#[test]
fn file_fills_only_what_the_environment_lacks() {
    let mut c = empty_config();
    assert!(c.apply_to_env(None, None, &Vec::new()).is_empty());
    c.server.storage = Some("/data".into());
    c.reliability.scrub_interval_secs = Some(300);
    c.tls.enabled = Some(true);
    let vars = c.apply_to_env(Some("tok\n"), None, &Vec::new());
    let has = |k: &str, v: &str| vars.iter().any(|p| p.0 == k && p.1 == v);
    assert!(has("HOLOFS_STORAGE_DIR", "/data"));
    assert!(has("HOLOFS_SCRUB_INTERVAL", "300"));
    assert!(has("HOLOFS_ADMIN_TOKEN", "tok"));
    let fewer = c.apply_to_env(None, None, &vec!["HOLOFS_STORAGE_DIR".to_string()]);
    assert!(!fewer.iter().any(|p| p.0 == "HOLOFS_STORAGE_DIR"));
}

#[test]
fn configuration_file_is_named_on_the_command_line_or_in_the_environment() {
    let args = |v: &[&str]| v.iter().map(|s| s.to_string()).collect::<Vec<String>>();
    assert_eq!(
        detect_config_path(None, &args(&["web", "--config", "a.toml"])).as_deref(),
        Some("a.toml")
    );
    assert_eq!(
        detect_config_path(None, &args(&["web", "--config=b.toml"])).as_deref(),
        Some("b.toml")
    );
    assert_eq!(detect_config_path(Some("c.toml"), &args(&["web"])).as_deref(), Some("c.toml"));
    assert_eq!(detect_config_path(None, &args(&["web"])), None);
}

#[test]
fn settings_of_the_administration() {
    let a = AdminAuth::from_env(Some("t"), None);
    assert_eq!(a.expected.as_deref(), Some("Bearer t"));
    let a = AdminAuth::from_env(None, Some("1"));
    assert!(a.expected.is_none() && a.unauthenticated_allowed);
    let a = AdminAuth::from_env(None, None);
    assert!(!a.unauthenticated_allowed);
}

#[test]
fn event_stays_on_one_line() {
    let ev = AuditEvent::now(1, "v", "a\nb\r\nc".into(), "ok");
    let line = ev.to_jsonl();
    assert_eq!(line.matches('\n').count(), 1);
    assert!(line.ends_with('\n'));
}
