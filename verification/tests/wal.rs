use holofs::chaos::ErrorKind;
use holofs::crypto::derive_shard_key;
use holofs::keyring::Keyring;
use holofs::shard_file::{
    read_shard_file, shard_hash, shard_path, write_shard_file, ShardFileError,
};
use holofs::wal::{
    encode_frame, parse_segment_name, read_body, read_closed_segment, read_segment, segment_path,
    walk_wal_segments, RecordKind, Shard, WalError, WalWriter,
};

fn tiny_shard(byte: u8) -> Shard {
    Shard { coeffs: vec![byte, byte, byte], payload: vec![byte; 16] }
}

#[test]
fn roundtrip_put_purge_wipe_plaintext() {
    let mut w = WalWriter::open(0, None);
    let hash1 = [1u8; 32];
    let hash2 = [2u8; 32];
    w.append_put(10, 0, 0, &hash1, &tiny_shard(0xAA)).unwrap();
    w.append_put(11, 1, 2, &hash2, &tiny_shard(0xBB)).unwrap();
    w.append_purge(10).unwrap();
    w.append_wipe().unwrap();
    assert_eq!(w.active_seq(), 1);
    let records = read_segment(w.pending(), None).unwrap();
    assert_eq!(records.len(), 4);
    match &records[0] {
        RecordKind::Put { object_id, channel, layer, hash, shard } => {
            assert_eq!(*object_id, 10);
            assert_eq!(*channel, 0);
            assert_eq!(*layer, 0);
            assert_eq!(*hash, hash1);
            assert_eq!(shard.coeffs, vec![0xAA; 3]);
            assert_eq!(shard.payload, vec![0xAA; 16]);
        }
        _ => panic!("expected Put record"),
    }
    assert!(matches!(records[2], RecordKind::Purge { object_id: 10 }));
    assert!(matches!(records[3], RecordKind::Wipe));
}

#[test]
fn roundtrip_put_sealed() {
    let key = derive_shard_key(&[0xEE; 32]);
    let ring = Keyring::in_memory_single(key);
    let mut w = WalWriter::open(0, Some(Keyring::in_memory_single(key)));
    let hash = [7u8; 32];
    w.append_put(42, 1, 2, &hash, &tiny_shard(0x77)).unwrap();
    let records = read_segment(w.pending(), Some(&ring)).unwrap();
    assert_eq!(records.len(), 1);
    match &records[0] {
        RecordKind::Put { object_id, channel, layer, hash: got_hash, shard } => {
            assert_eq!(*object_id, 42);
            assert_eq!(*channel, 1);
            assert_eq!(*layer, 2);
            assert_eq!(*got_hash, hash);
            assert_eq!(shard.coeffs, vec![0x77; 3]);
            assert_eq!(shard.payload, vec![0x77; 16]);
        }
        _ => panic!("expected Put record"),
    }
    assert_eq!(read_segment(w.pending(), None).err(), Some(WalError::SealedWithoutKey));
}

#[test]
fn truncated_tail_stops_replay_cleanly() {
    let mut w = WalWriter::open(0, None);
    w.append_put(1, 0, 0, &[9u8; 32], &tiny_shard(1)).unwrap();
    let mut bytes = w.pending().to_vec();
    bytes.extend_from_slice(&[0, 0, 0, 5, 42, 1, 2, 3]);
    let records = read_segment(&bytes, None).unwrap();
    assert_eq!(records.len(), 1);
    assert!(read_closed_segment(&bytes, None).is_err());
}

#[test]
fn walk_wal_segments_returns_sorted() {
    let mut names = Vec::new();
    for seq in [3u64, 1, 2] {
        let w = WalWriter::open(seq - 1, None);
        names.push(segment_path(w.active_seq()));
    }
    let list = walk_wal_segments(&names);
    let seqs: Vec<u64> = list.iter().map(|(s, _)| *s).collect();
    assert_eq!(seqs, vec![1, 2, 3]);
}

#[test]
fn segment_begins_with_its_magic() {
    let w = WalWriter::open(0, None);
    assert_eq!(w.pending(), b"HOLOFSW1");
    assert_eq!(w.bytes_written(), 8);
    assert_eq!(segment_path(7), "wal-00000007.seg");
    assert_eq!(parse_segment_name("wal-00000007.seg"), Some(7));
    assert_eq!(parse_segment_name("wal-c00000007.seg"), None);
    let e = read_segment(b"HOLOFSXX", None).err().unwrap();
    assert_eq!(e, WalError::WrongMagic(u64::from_be_bytes(*b"HOLOFSXX")));
    assert_eq!(
        e.message_in("d/wal-00000001.seg"),
        format!("wal segment {:?} has wrong magic {:?}", "d/wal-00000001.seg", b"HOLOFSXX")
    );
    assert_eq!(e.message(), "wal segment has wrong magic [72, 79, 76, 79, 70, 83, 88, 88]");
}

#[test]
fn every_way_of_cutting_the_last_record_leaves_the_others() {
    let mut w = WalWriter::open(0, None);
    w.append_put(1, 0, 0, &[9u8; 32], &tiny_shard(1)).unwrap();
    let first = w.pending().len();
    w.append_purge(5).unwrap();
    let all = w.pending().to_vec();
    assert_eq!(read_segment(&all, None).unwrap().len(), 2);
    for n in first..all.len() {
        assert_eq!(read_segment(&all[..n], None).unwrap().len(), 1);
    }
}

#[test]
fn hashes_of_a_purge_are_read_back() {
    let mut w = WalWriter::open(0, None);
    w.append_purge_hashes(&[[1u8; 32], [2u8; 32]]).unwrap();
    match &read_segment(w.pending(), None).unwrap()[0] {
        RecordKind::PurgeHashes { hashes } => assert_eq!(hashes, &vec![[1u8; 32], [2u8; 32]]),
        _ => panic!("expected PurgeHashes"),
    }
}

#[test]
fn bodies_that_make_no_sense_are_refused() {
    assert_eq!(read_body(0, &[0; 10], None).err(), Some(WalError::PutHeaderShort));
    assert_eq!(read_body(2, &[0; 7], None).err(), Some(WalError::PurgeLength));
    assert_eq!(read_body(3, &[0; 1], None).err(), Some(WalError::WipeLength));
    assert_eq!(read_body(9, &[], None).err(), Some(WalError::UnknownKind(9)));
    assert!(read_body(4, &[0, 0], None).is_err());
    let mut seg = b"HOLOFSW1".to_vec();
    seg.extend_from_slice(&encode_frame(3, &[]));
    assert_eq!(read_segment(&seg, None).unwrap().len(), 1);
    seg.extend_from_slice(&encode_frame(9, &[]));
    assert_eq!(read_segment(&seg, None).err(), Some(WalError::UnknownKind(9)));
}

#[test]
fn injected_faults_leave_the_log_alone() {
    let mut w = WalWriter::open(0, None);
    w.arm_append_fault(ErrorKind::StorageFull);
    assert!(w.append_wipe().is_err());
    assert_eq!(w.pending().len(), 8);
    assert!(w.append_wipe().is_ok());
    w.arm_sync_fault(ErrorKind::BrokenPipe);
    assert_eq!(w.sync(true).unwrap_err().kind(), ErrorKind::BrokenPipe);
}

#[test]
fn full_segment_is_followed_by_the_next() {
    let mut w = WalWriter::open(0, None);
    w.set_rotate_at(20);
    assert!(!w.is_full());
    w.append_purge(1).unwrap();
    assert!(w.is_full());
    let old = w.rotate();
    assert_eq!(read_segment(&old, None).unwrap().len(), 1);
    assert_eq!(w.active_seq(), 2);
    assert_eq!(w.pending(), b"HOLOFSW1");
}

#[test]
fn shard_files_are_read_back() {
    let s = tiny_shard(5);
    let plain = write_shard_file((3, 1, 2), &s, None);
    assert_eq!(&plain[..8], b"HOLOFSS1");
    let (k, h, back) = read_shard_file(&plain, None).unwrap();
    assert_eq!((k, h, back), ((3, 1, 2), shard_hash(&s), tiny_shard(5)));
    let ring = Keyring::in_memory_single([4u8; 32]);
    let sealed = write_shard_file((3, 1, 2), &s, Some(&ring));
    assert_eq!(&sealed[..8], b"HOLOFSS2");
    assert_eq!(read_shard_file(&sealed, Some(&ring)).unwrap().2, tiny_shard(5));
    assert_eq!(read_shard_file(&sealed, None).err(), Some(ShardFileError::NoKeyring));
    assert!(read_shard_file(&plain[..20], None).is_err());
}

#[test]
fn shard_hash_covers_coefficients_and_payload() {
    // SHA-256 of "abc".
    let s = Shard { coeffs: b"a".to_vec(), payload: b"bc".to_vec() };
    let hex = "ba7816bf8f01cfea414140de5dae2223b00361a396177a9cb410ff61f20015ad";
    assert_eq!(holofs::hex::encode_hex_bytes(&shard_hash(&s)), hex);
    assert_eq!(shard_path(&shard_hash(&s)), format!("{}/{}.shard", &hex[..2], &hex[2..]));
}

#[test]
fn altered_bytes_are_found() {
    let mut w = WalWriter::open(0, None);
    w.append_put(1, 0, 0, &[9u8; 32], &tiny_shard(1)).unwrap();
    let first = w.pending().len();
    w.append_purge_hashes(&[[7u8; 32]]).unwrap();
    w.append_purge(3).unwrap();
    let whole = w.pending().to_vec();
    assert_eq!(read_segment(&whole, None).unwrap().len(), 3);
    for at in 0..8 {
        let mut b = whole.clone();
        b[at] ^= 1;
        assert!(matches!(read_segment(&b, None), Err(WalError::WrongMagic(_))));
    }
    // The second record, behind its length: the log ends before it.
    for at in first + 4..first + 4 + 37 + 8 {
        let mut b = whole.clone();
        b[at] ^= 1;
        assert_eq!(read_segment(&b, None).unwrap().len(), 1, "byte {at}");
        assert_eq!(read_closed_segment(&b, None).err(), Some(WalError::Incomplete));
    }
    for n in 0..=whole.len() {
        let found = read_segment(&whole[..n], None).unwrap().len();
        assert!(found <= 3 && (found == 0 || n >= first));
    }
    let mut strange = whole;
    strange.extend_from_slice(&encode_frame(99, b"x"));
    assert_eq!(read_segment(&strange, None).err(), Some(WalError::UnknownKind(99)));
}
