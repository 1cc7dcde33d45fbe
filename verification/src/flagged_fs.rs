//! Mount flags enforced on the operations of a file system.
use vstd::prelude::*;
use crate::error::FsError;
use crate::mount_state::MountState;
use crate::vfs::PollStatus;

verus! {

/// What may be done under a mount: everything, or nothing that writes.
pub open spec fn write_check(state: MountState) -> Result<(), FsError> {
    if state.read_only {
        Err(FsError::ReadOnly)
    } else {
        Ok(())
    }
}

/// Every operation that changes something asks this first.
pub fn check_write(state: &MountState) -> (r: Result<(), FsError>)
    ensures
        r == write_check(*state),
{
    if state.is_read_only() {
        return Err(FsError::ReadOnly);
    }
    Ok(())
}

/// The readiness of a file under a mount: on a read-only one it is never writable.
pub open spec fn flagged_status(state: MountState, s: PollStatus) -> PollStatus {
    PollStatus { write: s.write && !state.read_only, ..s }
}

pub fn poll(state: &MountState, inner: Result<PollStatus, FsError>) -> (r: Result<
    PollStatus,
    FsError,
>)
    ensures
        r == match inner {
            Ok(s) => Ok::<PollStatus, FsError>(flagged_status(*state, s)),
            Err(e) => Err(e),
        },
{
    match inner {
        Ok(s) => {
            let mut status = s;
            if state.is_read_only() {
                status.write = false;
            }
            Ok(status)
        },
        Err(e) => Err(e),
    }
}

/// An operation on a file under a mount.
#[derive(Clone, Copy, PartialEq, Eq, Structural, Debug)]
pub enum Operation {
    ReadAt,
    Metadata,
    SyncAll,
    SyncData,
    GetEntry,
    GetEntryWithMetadata,
    IoControl,
    Mmap,
    Fs,
    Poll,
    AsyncPoll,
    Find,
    WriteAt,
    SetMetadata,
    Resize,
    Create,
    Create2,
    Link,
    Unlink,
    Move,
}

/// Whether an operation changes something.
pub open spec fn changes(op: Operation) -> bool {
    match op {
        Operation::WriteAt
        | Operation::SetMetadata
        | Operation::Resize
        | Operation::Create
        | Operation::Create2
        | Operation::Link
        | Operation::Unlink
        | Operation::Move => true,
        _ => false,
    }
}

/// Whether an operation is passed on to the file system: all are but those that would change
/// something under a read-only mount.
pub fn gate(state: &MountState, op: Operation) -> (r: Result<(), FsError>)
    ensures
        r == gated(*state, op),
{
    match op {
        Operation::WriteAt
        | Operation::SetMetadata
        | Operation::Resize
        | Operation::Create
        | Operation::Create2
        | Operation::Link
        | Operation::Unlink
        | Operation::Move => check_write(state),
        _ => Ok(()),
    }
}

/// Whether an operation hands out a file, which is then under the mount too.
pub open spec fn gives_file(op: Operation) -> bool {
    op == Operation::Find || op == Operation::Create || op == Operation::Create2
}

/// Whether the mount's flags pass on to what an operation gives.
pub fn wrap(op: Operation) -> (r: bool)
    ensures
        r == gives_file(op),
{
    match op {
        Operation::Find | Operation::Create | Operation::Create2 => true,
        _ => false,
    }
}

/// A mount made read-only refuses every write and shows no file as writable, until it is made
/// writable again.
pub proof fn law_read_only_refuses(state: MountState, s: PollStatus)
    ensures
        state.read_only ==> write_check(state) == Err::<(), FsError>(FsError::ReadOnly)
            && !flagged_status(state, s).write,
        !state.read_only ==> write_check(state) is Ok && flagged_status(state, s) == s,
{
}

/// Whether an operation may go ahead on a mount.
pub open spec fn gated(state: MountState, op: Operation) -> Result<(), FsError> {
    if changes(op) {
        write_check(state)
    } else {
        Ok(())
    }
}

/// A mount that can be written refuses nothing. One that is read-only refuses exactly what would change
/// a file or a directory, as read-only.
pub proof fn law_read_only_mount(state: MountState, op: Operation)
    ensures
        !state.read_only ==> gated(state, op) is Ok,
        state.read_only ==> (gated(state, op) is Err <==> op is WriteAt || op is SetMetadata
            || op is Resize || op is Create || op is Create2 || op is Link || op is Unlink
            || op is Move),
        gated(state, op) matches Err(e) ==> e == FsError::ReadOnly,
{
}

/// What a file reports passes through but for writing, which a read-only mount takes away.
pub proof fn law_readiness_passed_on(state: MountState, s: PollStatus)
    ensures
        flagged_status(state, s).read == s.read,
        flagged_status(state, s).error == s.error,
        flagged_status(state, s).write <==> s.write && !state.read_only,
{
}

/// The files that a mount hands out, found or made, are under its flags too.
pub proof fn law_files_under_flags(op: Operation)
    ensures
        gives_file(op) <==> op is Find || op is Create || op is Create2,
{
}

} // verus!
