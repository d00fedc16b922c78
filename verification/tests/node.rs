use holofs::handshake::{client_answer, client_done, client_hello, Action, Session};
use holofs::identity::{fresh_nonce, verify_challenge, NodeIdentity, PubKey};
use holofs::chaos::ErrorKind;
use holofs::node::{
    handle_request, handle_written, DiskError, Dropping, Request, Response, Step, Surroundings,
    Timings,
};
use holofs::node_config::{NodeConfig, NodeEnv};
use holofs::recovery::DiskFile;
use holofs::shard_file::shard_hash;
use holofs::store::{DiskOp, Store};
use holofs::wal::{segment_path, Shard};
use holofs::whitelist::{Whitelist, WhitelistEntry};

fn make_shard(seed: u8) -> Shard {
    Shard {
        coeffs: vec![seed, seed.wrapping_add(1), seed.wrapping_add(2)],
        payload: vec![0xAA, 0xBB, seed, seed.wrapping_add(7)],
    }
}

fn surroundings() -> Surroundings {
    Surroundings {
        now: 1000,
        free_bytes: 0,
        total_bytes: 0,
        timings: Timings { lock_wait_ns: 1, put_appended_ns: 2, wal_wait_ns: 3, count: 4 },
    }
}

/// A node with a store, and a connection to it.
struct Node {
    store: Store,
    identity: NodeIdentity,
    whitelist: Option<Whitelist>,
    session: Session,
    open: bool,
}

impl Node {
    fn new(store: Store, whitelist: Option<Whitelist>) -> Node {
        Node {
            store,
            identity: NodeIdentity::generate(),
            whitelist,
            session: Session::new(),
            open: true,
        }
    }

    fn rpc(&mut self, req: Request) -> Response {
        assert!(self.open);
        match self.session.on_frame(req, &self.identity, self.whitelist.as_ref(), fresh_nonce()) {
            Action::Reply(r) => r,
            Action::Close(r) => {
                self.open = false;
                r
            }
            Action::Serve(req) => {
                match handle_request(req, &mut self.store, &self.identity, &surroundings()) {
                    Step::Answer { resp, .. } => resp,
                    Step::Write(drop) => handle_written(drop, &mut self.store, Ok(())),
                }
            }
        }
    }

    /// The whole handshake, from the client's side.
    fn handshake(&mut self, client: &NodeIdentity, expected: &PubKey) -> Result<(), String> {
        let nonce = fresh_nonce();
        let first = self.rpc(client_hello(client, nonce));
        let second = client_answer(client, expected, &nonce, first).map_err(|e| e.message())?;
        let last = self.rpc(second);
        client_done(last).map_err(|e| e.message())
    }
}

fn put(object_id: u64, channel: u8, layer: u8, shard: Shard) -> Request {
    Request::Put { object_id, channel, layer, shard }
}

#[test]
fn ping_pong() {
    let mut n = Node::new(Store::new(), None);
    assert_eq!(n.rpc(Request::Ping), Response::Pong);
}

#[test]
fn put_then_get_returns_shards() {
    let mut n = Node::new(Store::new(), None);
    let sh1 = make_shard(1);
    let sh2 = make_shard(2);
    n.rpc(put(7, 0, 1, sh1.clone()));
    n.rpc(put(7, 0, 1, sh2.clone()));
    match n.rpc(Request::Get { object_id: 7, channel: 0, layer: 1 }) {
        Response::Shards(v) => {
            assert_eq!(v.len(), 2);
            assert!(v.contains(&sh1) && v.contains(&sh2));
        }
        other => panic!("expected Shards, got {other:?}"),
    }
}

#[test]
fn put_dedupes_identical_shards() {
    let mut n = Node::new(Store::new(), None);
    let sh = make_shard(42);
    for _ in 0..5 {
        n.rpc(put(1, 0, 0, sh.clone()));
    }
    assert_eq!(n.rpc(Request::Stat), Response::StatResp { total_shards: 1 });
}

#[test]
fn purge_removes_only_target_object() {
    let mut n = Node::new(Store::new(), None);
    for obj in [10u64, 20] {
        n.rpc(put(obj, 0, 0, make_shard(obj as u8)));
    }
    n.rpc(Request::Purge { object_id: 10 });
    assert_eq!(n.rpc(Request::Stat), Response::StatResp { total_shards: 1 });
    match n.rpc(Request::Get { object_id: 20, channel: 0, layer: 0 }) {
        Response::Shards(s) => assert_eq!(s.len(), 1),
        o => panic!("{o:?}"),
    }
}

#[test]
fn persistent_spawn_node_survives_restart() {
    let mut n = Node::new(Store::open(&Vec::new(), &Vec::new(), None).unwrap(), None);
    let sh1 = make_shard(5);
    let sh2 = make_shard(9);
    n.rpc(put(100, 1, 2, sh1.clone()));
    n.rpc(put(100, 1, 2, sh2.clone()));
    n.store.flush_start().unwrap();
    let mut files: Vec<DiskFile> = Vec::new();
    for op in n.store.ops() {
        if let DiskOp::Append { seq, bytes, .. } = op {
            let name = segment_path(*seq);
            match files.iter_mut().find(|f| f.name == name) {
                Some(f) => f.bytes.extend_from_slice(bytes),
                None => files.push(DiskFile { name, bytes: bytes.clone(), mtime_ms: 1 }),
            }
        }
    }
    let mut n = Node::new(Store::open(&Vec::new(), &files, None).unwrap(), None);
    assert_eq!(n.rpc(Request::Stat), Response::StatResp { total_shards: 2 });
    match n.rpc(Request::Get { object_id: 100, channel: 1, layer: 2 }) {
        Response::Shards(v) => assert!(v.contains(&sh1) && v.contains(&sh2)),
        other => panic!("expected Shards, got {other:?}"),
    }
}

#[test]
fn stat_counts_total() {
    let mut n = Node::new(Store::new(), None);
    for i in 0..7 {
        n.rpc(put(1, 0, 0, make_shard(i)));
    }
    assert_eq!(n.rpc(Request::Stat), Response::StatResp { total_shards: 7 });
}

fn client_whitelist(admin: &NodeIdentity, authorised_clients: &[PubKey]) -> Whitelist {
    let entries: Vec<WhitelistEntry> = authorised_clients
        .iter()
        .map(|pk| WhitelistEntry { addr: String::new(), pubkey: *pk, zone: 0 })
        .collect();
    Whitelist::sign(entries, admin)
}

#[test]
fn permissive_mode_accepts_peers_without_handshake() {
    let mut n = Node::new(Store::new(), None);
    assert_eq!(n.rpc(Request::Ping), Response::Pong);
}

#[test]
fn strict_mode_rejects_first_non_handshake_frame() {
    let admin = NodeIdentity::generate();
    let authorised = NodeIdentity::generate();
    let wl = client_whitelist(&admin, &[authorised.pubkey()]);
    let mut n = Node::new(Store::new(), Some(wl));
    match n.rpc(Request::Ping) {
        Response::Error(msg) => assert!(msg.contains("handshake required"), "got: {msg}"),
        other => panic!("expected Error, got {other:?}"),
    }
    assert!(!n.open, "connection must be closed after strict rejection");
}

#[test]
fn handshake_from_authorised_client_unlocks_rpc() {
    let admin = NodeIdentity::generate();
    let client_id = NodeIdentity::generate();
    let wl = client_whitelist(&admin, &[client_id.pubkey()]);
    let mut n = Node::new(Store::new(), Some(wl));
    let node_pubkey = n.identity.pubkey();
    n.handshake(&client_id, &node_pubkey)
        .expect("handshake should succeed for authorised client");
    assert_eq!(n.rpc(Request::Ping), Response::Pong);
    n.rpc(put(42, 0, 0, make_shard(1)));
    assert_eq!(n.store.get((42, 0, 0)).len(), 1);
}

#[test]
fn handshake_from_unauthorised_client_rejected() {
    let admin = NodeIdentity::generate();
    let authorised = NodeIdentity::generate();
    let intruder = NodeIdentity::generate();
    let wl = client_whitelist(&admin, &[authorised.pubkey()]);
    let mut n = Node::new(Store::new(), Some(wl));
    let node_pubkey = n.identity.pubkey();
    let err = n.handshake(&intruder, &node_pubkey).expect_err("intruder must be rejected");
    assert!(
        err.contains("not in ingress whitelist") || err.contains("rejected"),
        "unexpected error: {err}"
    );
}

#[test]
fn handshake_client_detects_node_signature_forgery() {
    let admin = NodeIdentity::generate();
    let client_id = NodeIdentity::generate();
    let wl = client_whitelist(&admin, &[client_id.pubkey()]);
    let mut n = Node::new(Store::new(), Some(wl));
    let wrong_pubkey = NodeIdentity::generate().pubkey();
    let err = n
        .handshake(&client_id, &wrong_pubkey)
        .expect_err("client must detect the signature mismatch");
    assert!(err.contains("verification"), "unexpected error: {err}");
}

#[test]
fn handshake_complete_without_handshake_is_rejected() {
    let admin = NodeIdentity::generate();
    let ok_client = NodeIdentity::generate();
    let wl = client_whitelist(&admin, &[ok_client.pubkey()]);
    let mut n = Node::new(Store::new(), Some(wl));
    match n.rpc(Request::HandshakeComplete { client_signature: [0u8; 64] }) {
        Response::Error(msg) => assert!(msg.contains("unexpected"), "got: {msg}"),
        other => panic!("expected Error, got {other:?}"),
    }
}

#[test]
fn capacity_on_in_memory_node_returns_unknown_sentinel() {
    let mut n = Node::new(Store::new(), None);
    assert_eq!(
        n.rpc(Request::Capacity),
        Response::Capacity { free_bytes: 0, total_bytes: 0, live_bytes: 0 },
        "in-memory node must report the (0, 0, 0) unknown-capacity sentinel"
    );
}

#[test]
fn capacity_on_persistent_node_reports_real_disk_and_live_bytes() {
    let mut store = Store::open(&Vec::new(), &Vec::new(), None).unwrap();
    let id = NodeIdentity::generate();
    let env = Surroundings { free_bytes: 10, total_bytes: 20, ..surroundings() };
    assert_eq!(
        handle_request(Request::Capacity, &mut store, &id, &env),
        Step::Answer {
            resp: Response::Capacity { free_bytes: 10, total_bytes: 20, live_bytes: 0 },
            wait_for: 0
        }
    );
    let sh = make_shard(11);
    let expected_growth = (sh.coeffs.len() + sh.payload.len()) as u64;
    handle_request(put(42, 0, 0, sh), &mut store, &id, &env);
    match handle_request(Request::Capacity, &mut store, &id, &env) {
        Step::Answer { resp: Response::Capacity { live_bytes, .. }, .. } => assert!(
            live_bytes >= expected_growth,
            "live_bytes ({live_bytes}) should have grown by at least {expected_growth} after the Put"
        ),
        other => panic!("expected Capacity, got {other:?}"),
    }
}

#[test]
fn other_requests_are_answered() {
    let mut n = Node::new(Store::new(), None);
    let a = make_shard(1);
    let b = make_shard(2);
    assert_eq!(
        n.rpc(Request::PutBatch {
            object_id: 1,
            channel: 0,
            layer: 0,
            shards: vec![a.clone(), b.clone()]
        }),
        Response::Ack
    );
    assert_eq!(
        n.rpc(Request::Audit { object_id: 1, channel: 0, layer: 0, shard_hash: shard_hash(&b) }),
        Response::AuditResp { shard: Some(b.clone()) }
    );
    assert_eq!(
        n.rpc(Request::Audit { object_id: 2, channel: 0, layer: 0, shard_hash: shard_hash(&b) }),
        Response::AuditResp { shard: None }
    );
    assert_eq!(
        n.rpc(Request::ListHashes),
        Response::Hashes(vec![shard_hash(&a), shard_hash(&b)])
    );
    assert_eq!(n.rpc(Request::CurrentEpoch), Response::Epoch { epoch: 1000 });
    assert_eq!(
        n.rpc(Request::PutTimings),
        Response::PutTimings { lock_wait_ns: 1, put_appended_ns: 2, wal_wait_ns: 3, count: 4 }
    );
    n.rpc(Request::PurgeByHashUpTo { hashes: vec![shard_hash(&a)], max_epoch: 999 });
    assert_eq!(n.store.total(), 2);
    n.rpc(Request::PurgeByHashUpTo { hashes: vec![shard_hash(&a)], max_epoch: 1000 });
    assert_eq!(n.store.total(), 1);
    n.rpc(Request::PurgeByHash { hashes: vec![shard_hash(&b)] });
    assert_eq!(n.store.total(), 0);
    let nonce = fresh_nonce();
    match n.rpc(Request::AuthChallenge { nonce }) {
        Response::AuthChallengeOk { signature } => {
            assert!(verify_challenge(&n.identity.pubkey(), &nonce, &signature))
        }
        other => panic!("{other:?}"),
    }
}

#[test]
fn purge_that_is_not_written_is_answered_with_an_error() {
    let mut store = Store::open(&Vec::new(), &Vec::new(), None).unwrap();
    let id = NodeIdentity::generate();
    let env = surroundings();
    store.put((1, 0, 0), make_shard(1), 1);
    store.carried_out(store.ops().len(), 0);
    let step = handle_request(Request::Purge { object_id: 1 }, &mut store, &id, &env);
    assert_eq!(step, Step::Write(Dropping::Object { object_id: 1 }));
    assert_eq!(store.total(), 1, "nothing goes before the record is on disk");
    let failed =
        DiskError { kind: ErrorKind::StorageFull, text: "No space left on device".to_string() };
    assert_eq!(
        handle_written(Dropping::Object { object_id: 1 }, &mut store, Err(failed)),
        Response::Error("purge failed: No space left on device".to_string())
    );
    assert_eq!(store.total(), 1);
    store.carried_out(store.ops().len(), 0);
    assert_eq!(
        handle_written(Dropping::Object { object_id: 1 }, &mut store, Ok(())),
        Response::Ack
    );
    assert_eq!(store.total(), 0);
    store.arm_append_fault(ErrorKind::StorageFull);
    assert_eq!(
        handle_request(Request::Purge { object_id: 2 }, &mut store, &id, &env),
        Step::Answer {
            resp: Response::Error("purge failed: chaos: injected WAL append fault".to_string()),
            wait_for: 0
        }
    );
}

#[test]
fn settings_of_a_node_have_defaults() {
    let mut env = NodeEnv {
        at_rest_enc: None,
        node_fsync: None,
        flush_interval_ms: None,
        wal_compact_interval_secs: None,
        wal_compact_min_bytes: None,
        kek_source: None,
        kek_path: None,
        kek_hex: None,
        keyring_path: None,
    };
    let c = NodeConfig::from_env(&env);
    assert!(!c.at_rest_encryption && c.fsync_on_write);
    assert_eq!(c.flush_interval_ms, 5);
    assert_eq!(c.wal_compact_interval_secs, 300);
    assert_eq!(c.wal_compact_min_bytes, 4 * 1024 * 1024);
    assert_eq!(c.kek_source.label(), "identity");
    env.at_rest_enc = Some("true".into());
    env.node_fsync = Some("no".into());
    env.flush_interval_ms = Some("0".into());
    env.kek_source = Some("file".into());
    env.kek_path = Some("/k".into());
    let c = NodeConfig::from_env(&env);
    assert!(c.at_rest_encryption && !c.fsync_on_write);
    assert_eq!(c.flush_interval_ms, 1);
    assert_eq!(c.kek_source.label(), "file");
}
