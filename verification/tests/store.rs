use holofs::chaos::{ErrorKind, Fault};
use holofs::compaction::{
    compaction_due, compaction_tick, wal_disk_bytes, CompactionReport, Trigger,
};
use holofs::crypto::derive_shard_key;
use holofs::keyring::Keyring;
use holofs::recovery::{compact_path, parse_compact_name, DiskFile};
use holofs::shard_file::{has_shard_name, shard_hash, shard_path, write_shard_file};
use holofs::store::{DiskOp, Store};
use holofs::wal::{segment_path, walk_wal_segments, Shard, WalError};

/// A directory that is kept in memory.
struct Disk {
    legacy: Vec<DiskFile>,
    files: Vec<DiskFile>,
}

impl Disk {
    fn new() -> Disk {
        Disk { legacy: Vec::new(), files: Vec::new() }
    }

    fn append(&mut self, name: String, bytes: &[u8]) {
        match self.files.iter_mut().find(|f| f.name == name) {
            Some(f) => f.bytes.extend_from_slice(bytes),
            None => self.files.push(DiskFile { name, bytes: bytes.to_vec(), mtime_ms: 1 }),
        }
    }

    /// Does what the store asks for.
    fn carry_out(&mut self, s: &mut Store) {
        for op in s.ops() {
            match op {
                DiskOp::Append { seq, bytes, .. } => self.append(segment_path(*seq), bytes),
                DiskOp::WriteCompacted { epoch, bytes } => self.append(compact_path(*epoch), bytes),
                DiskOp::Remove { name } => {
                    self.files.retain(|f| f.name != *name);
                    self.legacy.retain(|f| f.name != *name);
                }
                DiskOp::RemoveAll => {
                    self.files.clear();
                    self.legacy.clear();
                }
            }
        }
        s.carried_out(s.ops().len(), 0);
    }

    fn purge(&mut self, s: &mut Store, object_id: u64) -> Result<usize, Fault> {
        s.purge_start(object_id)?;
        self.carry_out(s);
        s.purge(object_id, Ok(()))
    }

    fn compact(&mut self, s: &mut Store) -> Option<CompactionReport> {
        s.compact_start(&self.names()).unwrap()?;
        self.carry_out(s);
        let report = s.compact(&self.names(), Ok(())).unwrap();
        self.carry_out(s);
        report
    }

    /// The process ends in order: what was still in memory is written.
    fn close(&mut self, mut s: Store) {
        self.carry_out(&mut s);
        let tail = s.wal().map(|w| (w.active_seq(), w.pending().to_vec()));
        if let Some((seq, bytes)) = tail {
            self.append(segment_path(seq), &bytes);
        }
    }

    fn names(&self) -> Vec<String> {
        self.files.iter().map(|f| f.name.clone()).collect()
    }

    fn open(&self) -> Result<Store, WalError> {
        Store::open(&self.legacy, &self.files, None)
    }
}

fn make_shard(seed: u8) -> Shard {
    Shard {
        coeffs: vec![seed, seed.wrapping_add(1), seed.wrapping_add(2)],
        payload: vec![0xAA, 0xBB, seed, seed.wrapping_add(7)],
    }
}

fn tiny_shard(byte: u8) -> Shard {
    Shard { coeffs: vec![byte, byte, byte], payload: vec![byte; 32] }
}

#[test]
fn persistent_store_roundtrip_through_restart() {
    let mut disk = Disk::new();
    let mut s1 = disk.open().unwrap();
    let sh1 = make_shard(1);
    let sh2 = make_shard(2);
    assert!(s1.put((42, 0, 1), sh1.clone(), 1));
    assert!(s1.put((42, 0, 1), sh2.clone(), 1));
    assert_eq!(s1.total(), 2);
    disk.close(s1);

    let s2 = disk.open().unwrap();
    assert_eq!(s2.total(), 2);
    let got = s2.get((42, 0, 1));
    assert!(got.contains(&sh1) && got.contains(&sh2));
}

#[test]
fn encrypted_store_roundtrip_and_disk_ciphertext() {
    let mut disk = Disk::new();
    let key = derive_shard_key(&[0xEE; 32]);
    let mut s1 = Store::open_with_key(&disk.legacy, &disk.files, key).unwrap();
    let sh = make_shard(0xAA);
    assert!(s1.put((100, 1, 2), sh.clone(), 1));
    disk.close(s1);

    let segments = walk_wal_segments(&disk.names());
    assert_eq!(segments.len(), 1);
    let raw = &disk.files[0].bytes;
    assert_eq!(&raw[..8], b"HOLOFSW1");
    assert!(
        !raw.windows(sh.payload.len()).any(|w| w == sh.payload.as_slice()),
        "encrypted WAL segment contains plaintext payload — GCM broken?"
    );

    let s2 = Store::open_with_key(&disk.legacy, &disk.files, key).unwrap();
    assert_eq!(s2.total(), 1);
    assert_eq!(s2.get((100, 1, 2)), vec![sh.clone()]);

    assert!(disk.open().is_err());

    let wrong_key = derive_shard_key(&[0xDD; 32]);
    assert!(Store::open_with_key(&disk.legacy, &disk.files, wrong_key).is_err());
    let ring = Keyring::in_memory_single(key);
    assert!(Store::open_with_keyring(&disk.legacy, &disk.files, ring).is_ok());
}

#[test]
fn mixed_format_directory_reads_both_v1_and_v2() {
    let mut disk = Disk::new();
    let sh_legacy = make_shard(1);
    let h_legacy = shard_hash(&sh_legacy);
    let name = shard_path(&h_legacy);
    assert!(has_shard_name(&name));
    disk.legacy.push(DiskFile {
        name,
        bytes: write_shard_file((1, 0, 0), &sh_legacy, None),
        mtime_ms: 77,
    });
    {
        let mut s1 = disk.open().unwrap();
        s1.put((2, 0, 0), make_shard(2), 1);
        disk.close(s1);
    }
    let s2 = disk.open().unwrap();
    assert_eq!(s2.total(), 2);
    assert_eq!(s2.get((1, 0, 0)), vec![make_shard(1)]);
    assert_eq!(s2.get((2, 0, 0)), vec![make_shard(2)]);
    assert_eq!(s2.epoch_of((1, 0, 0), &h_legacy), Some(77));
}

#[test]
fn persistent_store_dedupes_on_disk() {
    let mut disk = Disk::new();
    let mut s = disk.open().unwrap();
    let sh = make_shard(7);
    for _ in 0..5 {
        s.put((1, 0, 0), sh.clone(), 1);
    }
    assert_eq!(s.total(), 1);
    disk.close(s);
    let s2 = disk.open().unwrap();
    assert_eq!(s2.total(), 1);
    let segments = walk_wal_segments(&disk.names());
    assert!(!segments.is_empty(), "WAL segment file must exist");
}

#[test]
fn persistent_purge_removes_files() {
    let mut disk = Disk::new();
    let mut s = disk.open().unwrap();
    s.put((10, 0, 0), make_shard(1), 1);
    s.put((20, 0, 0), make_shard(2), 1);
    assert_eq!(s.total(), 2);
    assert_eq!(disk.purge(&mut s, 10), Ok(1));
    assert_eq!(s.total(), 1);
    disk.close(s);
    let s2 = disk.open().unwrap();
    assert_eq!(s2.total(), 1);
    assert!(s2.get((10, 0, 0)).is_empty());
    assert_eq!(s2.get((20, 0, 0)).len(), 1);
}

#[test]
fn purge_up_to_skips_shards_written_after_snapshot() {
    let mut s = Store::new();
    let sh_old = make_shard(1);
    let h_old = shard_hash(&sh_old);
    s.put((1, 0, 0), sh_old, 5000);
    let snapshot = s.epoch_of((1, 0, 0), &h_old).unwrap();
    let sh_new = make_shard(2);
    let h_new = shard_hash(&sh_new);
    s.put((1, 0, 0), sh_new, snapshot + 1000);
    s.purge_by_hashes_start(&[h_old, h_new], snapshot).unwrap();
    let removed = s.purge_by_hashes_up_to(&[h_old, h_new], snapshot, Ok(())).unwrap();
    assert_eq!(removed, 1, "only old shard should be purged");
    assert!(s.get_by_hash((1, 0, 0), &h_new).is_some());
    assert!(s.get_by_hash((1, 0, 0), &h_old).is_none());
}

#[test]
fn re_put_bumps_epoch() {
    let mut s = Store::new();
    let sh = make_shard(1);
    let h = shard_hash(&sh);
    assert!(s.put((0, 0, 0), sh.clone(), 4000));
    let pinned = s.epoch_of((0, 0, 0), &h).unwrap();
    assert!(!s.put((0, 0, 0), sh, 5000));
    let e2 = s.epoch_of((0, 0, 0), &h).unwrap();
    assert!(e2 > pinned, "re-PUT should bump epoch: {pinned} -> {e2}");
    assert_eq!(e2, 5000);
}

#[test]
fn persistent_wipe_clears_files() {
    let mut disk = Disk::new();
    let legacy = make_shard(99);
    disk.legacy.push(DiskFile {
        name: shard_path(&shard_hash(&legacy)),
        bytes: write_shard_file((9, 0, 0), &legacy, None),
        mtime_ms: 1,
    });
    let mut s = disk.open().unwrap();
    for i in 0..4 {
        s.put((1, 0, 0), make_shard(i), 1);
    }
    assert!(s.total() >= 1);
    s.wipe();
    assert_eq!(s.total(), 0);
    s.wipe_finish(Ok(()));
    assert!(s.is_persistent());
    disk.close(s);
    let s2 = disk.open().unwrap();
    assert_eq!(s2.total(), 0);
    assert_eq!(disk.legacy.len(), 0);
}

#[test]
fn compact_produces_compacted_segment_and_gcs_regulars() {
    let mut disk = Disk::new();
    let mut store = disk.open().unwrap();
    store.put_appended((1, 0, 0), make_shard(1), 1);
    store.put_appended((2, 0, 0), make_shard(2), 1);
    store.put_appended((3, 0, 0), make_shard(3), 1);
    disk.purge(&mut store, 2).unwrap();
    assert_eq!(store.total(), 2);

    let report = disk.compact(&mut store).expect("should have compacted");
    assert!(report.records >= 2, "at least the 2 live shards; got {}", report.records);
    assert!(report.compact_path.starts_with("wal-c"));

    let compacts: Vec<u64> = disk.names().iter().filter_map(|n| parse_compact_name(n)).collect();
    assert_eq!(compacts, vec![report.epoch]);
    for (seq, _) in &walk_wal_segments(&disk.names()) {
        assert!(*seq > report.epoch, "regular seg {seq} should have been gc'd");
    }

    disk.close(store);
    let store2 = disk.open().unwrap();
    assert_eq!(store2.total(), 2);
    assert!(!store2.get((1, 0, 0)).is_empty());
    assert!(store2.get((2, 0, 0)).is_empty(), "purged obj must stay purged");
    assert!(!store2.get((3, 0, 0)).is_empty());
}

#[test]
fn compact_then_more_writes_replay_correctly() {
    let mut disk = Disk::new();
    let mut store = disk.open().unwrap();
    store.put_appended((10, 0, 0), make_shard(10), 1);
    store.put_appended((20, 0, 0), make_shard(20), 1);
    let report = disk.compact(&mut store).expect("should compact");
    let epoch = report.epoch;
    store.put_appended((30, 0, 0), make_shard(30), 1);
    disk.purge(&mut store, 10).unwrap();

    disk.close(store);
    let store2 = disk.open().unwrap();
    assert!(store2.get((10, 0, 0)).is_empty());
    assert!(!store2.get((20, 0, 0)).is_empty());
    assert!(!store2.get((30, 0, 0)).is_empty());
    for (seq, _) in walk_wal_segments(&disk.names()) {
        assert!(seq > epoch, "expected seq > {epoch}, saw {seq}");
    }
}

#[test]
fn crash_after_compact_before_gc_still_replays_once() {
    let mut disk = Disk::new();
    let mut store = disk.open().unwrap();
    store.put_appended((1, 0, 0), make_shard(1), 1);
    store.put_appended((2, 0, 0), make_shard(2), 1);
    store.compact_start(&disk.names()).unwrap().expect("should compact");
    // The process ends after the compacted segment is written, before anything is removed.
    disk.carry_out(&mut store);
    assert_eq!(disk.names().iter().filter(|n| parse_compact_name(n).is_some()).count(), 1);
    assert!(walk_wal_segments(&disk.names()).len() >= 1);

    let store2 = disk.open().unwrap();
    assert_eq!(store2.total(), 2);
    assert_eq!(store2.get((1, 0, 0)).len(), 1);
    assert_eq!(store2.get((2, 0, 0)).len(), 1);
}

#[test]
fn compact_no_op_on_fresh_store() {
    let mut disk = Disk::new();
    let mut store = disk.open().unwrap();
    let report = disk.compact(&mut store);
    assert!(report.is_none(), "should skip: got {report:?}");
}

#[test]
fn compact_no_op_on_in_memory_store() {
    let mut store = Store::new();
    assert!(store.compact_start(&Vec::new()).unwrap().is_none());
    assert!(store.compact(&Vec::new(), Ok(())).unwrap().is_none());
}

#[test]
fn disk_full_on_wal_append_refuses_put_cleanly() {
    let disk = Disk::new();
    let mut store = disk.open().unwrap();
    let ok = store.put((1, 0, 0), tiny_shard(0xAA), 1);
    assert!(ok, "baseline put should succeed");
    assert_eq!(store.get((1, 0, 0)).len(), 1);

    store.arm_append_fault(ErrorKind::StorageFull);
    let ok = store.put((1, 0, 0), tiny_shard(0xBB), 1);
    assert!(!ok, "disk-full injection must refuse the put");
    assert_eq!(
        store.get((1, 0, 0)).len(),
        1,
        "RAM index must not gain a shard when WAL append refused it"
    );

    let ok = store.put((1, 0, 0), tiny_shard(0xCC), 1);
    assert!(ok, "post-fault put should recover");
    assert_eq!(store.get((1, 0, 0)).len(), 2);
}

#[test]
fn disk_full_on_wal_append_leaves_no_corruption_on_disk() {
    let mut disk = Disk::new();
    {
        let mut store = disk.open().unwrap();
        assert!(store.put((10, 0, 0), tiny_shard(0xAA), 1));
        store.arm_append_fault(ErrorKind::StorageFull);
        assert!(!store.put((11, 0, 0), tiny_shard(0xBB), 1));
        assert!(store.put((12, 0, 0), tiny_shard(0xCC), 1));
        disk.close(store);
    }
    let reopened = disk.open().unwrap();
    assert_eq!(reopened.get((10, 0, 0)).len(), 1);
    assert_eq!(
        reopened.get((11, 0, 0)).len(),
        0,
        "the failed append must not survive across boot"
    );
    assert_eq!(reopened.get((12, 0, 0)).len(), 1);
}

#[test]
fn wal_bitflip_in_closed_segment_fails_store_open() {
    let mut disk = Disk::new();
    {
        let mut store = disk.open().unwrap();
        for i in 0..8u64 {
            assert!(store.put((i, 0, 0), tiny_shard(i as u8), 1));
        }
        disk.carry_out(&mut store);
        disk.compact(&mut store);
        disk.close(store);
    }
    let seg = disk
        .files
        .iter_mut()
        .find(|f| f.name.starts_with("wal-c"))
        .expect("compact() should have written a wal-c*.seg segment");
    let flip_at = 40;
    assert!(
        flip_at + 20 < seg.bytes.len(),
        "test needs a segment large enough for a byte flip well before the footer"
    );
    seg.bytes[flip_at] ^= 0x01;
    assert!(
        matches!(disk.open(), Err(WalError::Incomplete)),
        "Store::open on a bit-flipped compacted segment should surface InvalidData, \
         not silently drop the tail"
    );
}

#[test]
fn purge_by_hashes_survives_a_restart() {
    let mut disk = Disk::new();
    let mut s = disk.open().unwrap();
    s.put((1, 0, 0), make_shard(1), 1);
    s.put((1, 0, 0), make_shard(2), 1);
    s.put((2, 0, 0), make_shard(1), 1);
    let h = shard_hash(&make_shard(1));
    s.purge_by_hashes_start(&[h], u64::MAX).unwrap();
    disk.carry_out(&mut s);
    assert_eq!(s.purge_by_hashes(&[h], Ok(())), Ok(2));
    assert_eq!(s.list_all_hashes(), vec![shard_hash(&make_shard(2))]);
    disk.close(s);
    assert_eq!(disk.open().unwrap().total(), 1);
}

#[test]
fn live_bytes_are_those_of_the_shards() {
    let mut s = Store::new();
    assert_eq!(s.live_bytes_estimate(), 0);
    assert!(!s.is_persistent());
    s.put((1, 0, 0), make_shard(1), 1);
    assert!(s.live_bytes_estimate() >= 7);
    s.inject_corrupt((1, 0, 0), make_shard(9), 3);
    assert_eq!(s.total(), 2);
}

#[test]
fn group_commit_publishes_what_was_appended() {
    let mut disk = Disk::new();
    let mut s = disk.open().unwrap();
    let (stored, seq) = s.put_appended((1, 0, 0), make_shard(1), 1);
    assert!(stored);
    assert!(!s.is_published(seq));
    assert_eq!(s.flush_start(), Ok(Some(seq)));
    assert_eq!(s.flush_and_publish(Ok(())), 0, "the queue was not carried out");
    disk.carry_out(&mut s);
    assert_eq!(s.flush_and_publish(Ok(())), seq);
    assert!(s.is_published(seq));
    assert_eq!(s.flush_start(), Ok(None));
    let (_, seq2) = s.put_appended((1, 0, 0), make_shard(2), 1);
    s.arm_sync_fault(ErrorKind::Other);
    assert_eq!(s.flush_start(), Err(Fault::Sync(ErrorKind::Other)));
    disk.carry_out(&mut s);
    s.flush_and_publish(Ok(()));
    assert!(!s.is_published(seq2), "a sync that failed publishes nothing");
    assert_eq!(s.flush_start(), Ok(Some(seq2)));
    disk.carry_out(&mut s);
    s.flush_and_publish(Ok(()));
    assert!(s.is_published(seq2));
}

#[test]
fn failed_flush_publishes_nothing_and_loses_nothing() {
    let mut disk = Disk::new();
    let mut s = disk.open().unwrap();
    disk.carry_out(&mut s);
    let (_, seq) = s.put_appended((1, 0, 0), make_shard(1), 1);
    assert_eq!(s.flush_start(), Ok(Some(seq)));
    // Five bytes of the append were written, and then the disk was full.
    let first = match &s.ops()[0] {
        DiskOp::Append { bytes, .. } => bytes[..5].to_vec(),
        other => panic!("{other:?}"),
    };
    disk.append(segment_path(1), &first);
    s.carried_out(0, 5);
    s.flush_and_publish(Err(ErrorKind::StorageFull));
    assert!(!s.is_published(seq));
    // A crash now loses the shard, which nobody was told is safe.
    assert_eq!(disk.open().unwrap().total(), 0);
    let (_, seq2) = s.put_appended((2, 0, 0), make_shard(2), 1);
    assert_eq!(s.flush_start(), Ok(Some(seq2)));
    disk.carry_out(&mut s);
    assert_eq!(s.flush_and_publish(Ok(())), seq2);
    assert_eq!(disk.open().unwrap().total(), 2);
}

#[test]
fn purge_that_is_not_written_drops_nothing() {
    let mut disk = Disk::new();
    let mut s = disk.open().unwrap();
    s.put((1, 0, 0), make_shard(1), 1);
    let h = shard_hash(&make_shard(1));
    disk.carry_out(&mut s);
    s.purge_start(1).unwrap();
    assert_eq!(
        s.purge(1, Err(ErrorKind::StorageFull)),
        Err(Fault::Disk(ErrorKind::StorageFull))
    );
    assert_eq!(s.purge(1, Ok(())), Err(Fault::Disk(ErrorKind::Other)), "still queued");
    assert_eq!(s.total(), 1);
    s.purge_by_hashes_start(&[h], 5).unwrap();
    assert_eq!(
        s.purge_by_hashes_up_to(&[h], 5, Err(ErrorKind::TimedOut)),
        Err(Fault::Disk(ErrorKind::TimedOut))
    );
    assert_eq!(s.total(), 1);
    s.arm_append_fault(ErrorKind::StorageFull);
    assert_eq!(s.purge_start(1), Err(Fault::Append(ErrorKind::StorageFull)));
    disk.carry_out(&mut s);
    assert_eq!(s.purge(1, Ok(())), Ok(1));
    disk.close(s);
    assert_eq!(disk.open().unwrap().total(), 0);
}

#[test]
fn purge_up_to_judges_each_shard_on_its_own() {
    let mut disk = Disk::new();
    let mut s = disk.open().unwrap();
    let h = shard_hash(&make_shard(1));
    s.put((1, 0, 0), make_shard(1), 100);
    s.put((2, 0, 0), make_shard(1), 200);
    s.put((3, 0, 0), make_shard(3), 100);
    s.purge_by_hashes_start(&[h], 150).unwrap();
    disk.carry_out(&mut s);
    assert_eq!(s.purge_by_hashes_up_to(&[h], 150, Ok(())), Ok(1));
    assert!(s.get((1, 0, 0)).is_empty());
    assert_eq!(s.epoch_of((2, 0, 0), &h), Some(200));
    disk.close(s);
    let s = disk.open().unwrap();
    assert_eq!(s.total(), 2);
    assert!(s.get((1, 0, 0)).is_empty());
    assert_eq!(s.get((2, 0, 0)), vec![make_shard(1)]);
    assert_eq!(s.get((3, 0, 0)), vec![make_shard(3)]);
}

#[test]
fn compaction_that_fails_is_given_up() {
    let mut disk = Disk::new();
    let mut s = disk.open().unwrap();
    s.put((1, 0, 0), make_shard(1), 1);
    disk.carry_out(&mut s);
    assert_eq!(s.compact_start(&disk.names()), Ok(Some(1)));
    let n = s.ops().len();
    assert_eq!(
        s.compact(&disk.names(), Err(ErrorKind::StorageFull)).unwrap_err(),
        Fault::Disk(ErrorKind::StorageFull)
    );
    assert_eq!(s.ops().len(), n - 1);
    s.put((2, 0, 0), make_shard(2), 1);
    disk.close(s);
    assert!(disk.names().iter().all(|n| parse_compact_name(n).is_none()));
    assert_eq!(disk.open().unwrap().total(), 2);
}

#[test]
fn wipe_without_a_new_log_goes_on_in_memory() {
    let disk = Disk::new();
    let mut s = disk.open().unwrap();
    s.put((1, 0, 0), make_shard(1), 1);
    s.wipe();
    s.wipe_finish(Err(ErrorKind::PermissionDenied));
    assert!(!s.is_persistent());
    assert_eq!(s.total(), 0);
    assert!(s.ops().is_empty());
}

#[test]
fn compaction_is_due_by_time_or_by_waste() {
    assert_eq!(compaction_due(10, 20, 1000, 1, true), None);
    assert_eq!(compaction_due(30, 20, 1000, 1000, false), Some(Trigger::Interval));
    assert_eq!(compaction_due(30, 20, 10, 1000, true), Some(Trigger::Ratio));
    assert_eq!(compaction_due(30, 20, 10, 1000, false), None);
    assert_eq!(compaction_tick(0), None);
    let files = vec![
        ("wal-00000001.seg".to_string(), 5u64),
        ("wal-c00000001.seg".to_string(), 7),
        ("identity.key".to_string(), 32),
    ];
    assert_eq!(wal_disk_bytes(&files), 12);
}

#[test]
fn names_of_compacted_segments() {
    assert_eq!(compact_path(12), "wal-c00000012.seg");
    assert_eq!(parse_compact_name("wal-c00000012.seg"), Some(12));
    assert_eq!(parse_compact_name("wal-00000012.seg"), None);
}

#[test]
fn crash_at_any_byte_loses_only_the_end() {
    let mut disk = Disk::new();
    let mut s = disk.open().unwrap();
    for i in 0..4u8 {
        assert!(s.put((u64::from(i), 0, 0), make_shard(i), 1));
    }
    disk.close(s);
    let whole = disk.files[0].bytes.clone();
    let mut before = 0;
    for n in 8..=whole.len() {
        disk.files[0].bytes = whole[..n].to_vec();
        let found = disk.open().unwrap().total();
        assert!(found == before || found == before + 1);
        before = found;
    }
    assert_eq!(before, 4);
}

#[test]
fn rotated_log_is_read_in_order() {
    let mut disk = Disk::new();
    for round in 0..3u8 {
        let mut s = disk.open().unwrap();
        s.put((1, 0, 0), make_shard(round), 1);
        if round == 1 {
            disk.purge(&mut s, 1).unwrap();
        }
        disk.close(s);
    }
    assert_eq!(walk_wal_segments(&disk.names()).len(), 3);
    let s = disk.open().unwrap();
    assert_eq!(s.get((1, 0, 0)), vec![make_shard(2)]);
}

#[test]
fn old_files_go_with_their_object() {
    let mut disk = Disk::new();
    for seed in [1u8, 2] {
        let sh = make_shard(seed);
        disk.legacy.push(DiskFile {
            name: shard_path(&shard_hash(&sh)),
            bytes: write_shard_file((u64::from(seed), 0, 0), &sh, None),
            mtime_ms: 1,
        });
    }
    let mut s = disk.open().unwrap();
    s.put((3, 0, 0), make_shard(3), 1);
    assert_eq!(s.total(), 3);
    assert_eq!(disk.purge(&mut s, 1), Ok(1));
    disk.carry_out(&mut s);
    assert_eq!(disk.legacy.len(), 1);
    disk.compact(&mut s).expect("should compact");
    s.put((4, 0, 0), make_shard(4), 1);
    disk.close(s);
    let s = disk.open().unwrap();
    assert_eq!(s.total(), 3);
    assert!(s.get((1, 0, 0)).is_empty());
    for seed in [2u8, 3, 4] {
        assert_eq!(s.get((u64::from(seed), 0, 0)), vec![make_shard(seed)]);
    }
}
