//! Fault injection for the write-ahead log.
//!
//! Two one-shot registers, one for the next append and one for the next sync. A
//! hook that finds its register armed clears it and reports the fault, so that
//! the call after it succeeds again.
use vstd::prelude::*;

verus! {

/// The kinds of failure that a disk or a log can report.
#[derive(Debug, Clone, Copy, PartialEq, Eq, Structural)]
pub enum ErrorKind {
    StorageFull,
    OutOfMemory,
    WriteZero,
    PermissionDenied,
    BrokenPipe,
    NotFound,
    InvalidData,
    UnexpectedEof,
    TimedOut,
    Other,
}

/// A failure that a hook or the disk reports.
#[derive(Debug, Clone, Copy, PartialEq, Eq, Structural)]
pub enum Fault {
    /// An append to the log was refused.
    Append(ErrorKind),
    /// A sync of the log was refused.
    Sync(ErrorKind),
    /// The disk failed.
    Disk(ErrorKind),
}

impl Fault {
    /// The kind of failure.
    pub open spec fn spec_kind(self) -> ErrorKind {
        match self {
            Fault::Append(k) => k,
            Fault::Sync(k) => k,
            Fault::Disk(k) => k,
        }
    }

    /// The kind of failure.
    pub fn kind(&self) -> (r: ErrorKind)
        ensures
            r == self.spec_kind(),
    {
        match self {
            Fault::Append(k) => *k,
            Fault::Sync(k) => *k,
            Fault::Disk(k) => *k,
        }
    }

    /// The failure in words.
    pub fn message(&self) -> (r: &'static str)
        ensures
            r@ == match self {
                Fault::Append(_) => "chaos: injected WAL append fault"@,
                Fault::Sync(_) => "chaos: injected WAL sync fault"@,
                Fault::Disk(_) => "log could not be written"@,
            },
    {
        match self {
            Fault::Append(_) => "chaos: injected WAL append fault",
            Fault::Sync(_) => "chaos: injected WAL sync fault",
            Fault::Disk(_) => "log could not be written",
        }
    }
}

/// A register that holds no fault.
pub const NO_FAULT: i32 = 0;

/// The two registers.
#[derive(Debug, Clone, Copy, PartialEq, Eq, Structural)]
pub struct Faults {
    append: i32,
    sync: i32,
}

/// The kind that a register can carry: the kinds it has no code for become `Other`.
pub open spec fn carried(kind: ErrorKind) -> ErrorKind {
    match kind {
        ErrorKind::StorageFull | ErrorKind::OutOfMemory | ErrorKind::WriteZero
        | ErrorKind::PermissionDenied | ErrorKind::BrokenPipe => kind,
        _ => ErrorKind::Other,
    }
}

/// The code for a kind of failure; never `NO_FAULT`.
pub fn encode_kind(kind: ErrorKind) -> (r: i32)
    ensures
        r == kind_code(kind),
{
    match kind {
        ErrorKind::StorageFull => 1,
        ErrorKind::OutOfMemory => 2,
        ErrorKind::WriteZero => 3,
        ErrorKind::PermissionDenied => 4,
        ErrorKind::BrokenPipe => 5,
        _ => 6,
    }
}

/// The code for a kind of failure.
pub open spec fn kind_code(kind: ErrorKind) -> i32 {
    match kind {
        ErrorKind::StorageFull => 1,
        ErrorKind::OutOfMemory => 2,
        ErrorKind::WriteZero => 3,
        ErrorKind::PermissionDenied => 4,
        ErrorKind::BrokenPipe => 5,
        _ => 6,
    }
}

/// The kind of failure for a code.
pub open spec fn code_kind(raw: i32) -> ErrorKind {
    match raw {
        1 => ErrorKind::StorageFull,
        2 => ErrorKind::OutOfMemory,
        3 => ErrorKind::WriteZero,
        4 => ErrorKind::PermissionDenied,
        5 => ErrorKind::BrokenPipe,
        _ => ErrorKind::Other,
    }
}

/// The kind of failure for a code.
pub fn decode_kind(raw: i32) -> (r: ErrorKind)
    ensures
        r == code_kind(raw),
{
    match raw {
        1 => ErrorKind::StorageFull,
        2 => ErrorKind::OutOfMemory,
        3 => ErrorKind::WriteZero,
        4 => ErrorKind::PermissionDenied,
        5 => ErrorKind::BrokenPipe,
        _ => ErrorKind::Other,
    }
}

/// Decoding a code gives the kind that the register could carry, and no code is
/// taken for an empty register.
pub proof fn kind_codes_round_trip(kind: ErrorKind)
    ensures
        code_kind(kind_code(kind)) == carried(kind),
        kind_code(kind) != NO_FAULT,
{
}

impl Faults {
    /// The fault that the next append reports.
    pub closed spec fn append_fault(self) -> Option<ErrorKind> {
        if self.append == NO_FAULT {
            None
        } else {
            Some(code_kind(self.append))
        }
    }

    /// The fault that the next sync reports.
    pub closed spec fn sync_fault(self) -> Option<ErrorKind> {
        if self.sync == NO_FAULT {
            None
        } else {
            Some(code_kind(self.sync))
        }
    }

    /// Both registers empty.
    pub fn new() -> (r: Faults)
        ensures
            r.append_fault() is None,
            r.sync_fault() is None,
    {
        Faults { append: NO_FAULT, sync: NO_FAULT }
    }
}

/// Makes the next append fail.
pub fn arm_wal_next_append_fails(f: &mut Faults, kind: ErrorKind)
    ensures
        final(f).append_fault() == Some(carried(kind)),
        final(f).sync_fault() == old(f).sync_fault(),
{
    f.append = encode_kind(kind);
}

/// Makes the next sync fail.
pub fn arm_wal_next_sync_fails(f: &mut Faults, kind: ErrorKind)
    ensures
        final(f).sync_fault() == Some(carried(kind)),
        final(f).append_fault() == old(f).append_fault(),
{
    f.sync = encode_kind(kind);
}

/// Clears both registers.
pub fn disarm_all(f: &mut Faults)
    ensures
        final(f).append_fault() is None,
        final(f).sync_fault() is None,
{
    f.append = NO_FAULT;
    f.sync = NO_FAULT;
}

/// The fault for this append, which is then cleared.
pub fn maybe_fail_wal_append(f: &mut Faults) -> (r: Option<Fault>)
    ensures
        r == (match old(f).append_fault() {
            Some(k) => Some(Fault::Append(k)),
            None => None,
        }),
        final(f).append_fault() is None,
        final(f).sync_fault() == old(f).sync_fault(),
{
    let raw: i32 = f.append;
    f.append = NO_FAULT;
    if raw == NO_FAULT {
        None
    } else {
        Some(Fault::Append(decode_kind(raw)))
    }
}

/// The fault for this sync, which is then cleared.
pub fn maybe_fail_wal_sync(f: &mut Faults) -> (r: Option<Fault>)
    ensures
        r == (match old(f).sync_fault() {
            Some(k) => Some(Fault::Sync(k)),
            None => None,
        }),
        final(f).sync_fault() is None,
        final(f).append_fault() == old(f).append_fault(),
{
    let raw: i32 = f.sync;
    f.sync = NO_FAULT;
    if raw == NO_FAULT {
        None
    } else {
        Some(Fault::Sync(decode_kind(raw)))
    }
}

} // verus!
