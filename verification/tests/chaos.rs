use holofs::chaos::{
    arm_wal_next_append_fails, arm_wal_next_sync_fails, decode_kind, disarm_all, encode_kind,
    maybe_fail_wal_append, maybe_fail_wal_sync, ErrorKind, Faults,
};

#[test]
fn append_fault_fires_once_then_clears() {
    let mut f = Faults::new();
    disarm_all(&mut f);
    assert!(maybe_fail_wal_append(&mut f).is_none(), "starts disarmed");
    arm_wal_next_append_fails(&mut f, ErrorKind::StorageFull);
    let e = maybe_fail_wal_append(&mut f).expect("armed → Some");
    assert_eq!(e.kind(), ErrorKind::StorageFull);
    assert!(maybe_fail_wal_append(&mut f).is_none(), "single arm should be one-shot");
}

#[test]
fn sync_fault_is_independent_of_append_fault() {
    let mut f = Faults::new();
    disarm_all(&mut f);
    arm_wal_next_sync_fails(&mut f, ErrorKind::BrokenPipe);
    assert!(
        maybe_fail_wal_append(&mut f).is_none(),
        "append fault register untouched by sync arm"
    );
    let e = maybe_fail_wal_sync(&mut f).expect("sync armed → Some");
    assert_eq!(e.kind(), ErrorKind::BrokenPipe);
}

#[test]
fn disarm_all_clears_both() {
    let mut f = Faults::new();
    arm_wal_next_append_fails(&mut f, ErrorKind::StorageFull);
    arm_wal_next_sync_fails(&mut f, ErrorKind::StorageFull);
    disarm_all(&mut f);
    assert!(maybe_fail_wal_append(&mut f).is_none());
    assert!(maybe_fail_wal_sync(&mut f).is_none());
}

#[test]
fn kinds_survive_their_codes() {
    for k in [
        ErrorKind::StorageFull,
        ErrorKind::OutOfMemory,
        ErrorKind::WriteZero,
        ErrorKind::PermissionDenied,
        ErrorKind::BrokenPipe,
        ErrorKind::Other,
    ] {
        assert_eq!(decode_kind(encode_kind(k)), k);
    }
}
