//! Descriptors of processes.
use vstd::prelude::*;
use crate::error::LxError;
use crate::flags::{
    asks, has_flag, with_flag, OpenFlags, PollEvents, O_CLOEXEC, O_NON_BLOCK, POLL_IN,
};
use crate::vfs::PollStatus;

verus! {

/// A descriptor of a thread; not supported.
pub const PIDFD_THREAD: u32 = 2;

/// A descriptor of a process.
#[derive(Clone, Copy, PartialEq, Eq, Structural, Debug)]
pub struct PidFd {
    pub process: u64,
    pub open_flags: OpenFlags,
    /// Whether waiters were told that the process ended.
    pub readable: bool,
}

/// What a poll that may wait does.
#[derive(Clone, Copy, PartialEq, Eq, Structural, Debug)]
pub enum ExitWait {
    Ready(PollStatus),
    /// Wait for the process to end.
    Wait,
}

/// The readiness of a descriptor of a process.
pub open spec fn exit_status(exited: bool, events: u16) -> PollStatus {
    PollStatus { read: exited && asks(events, POLL_IN), write: false, error: false }
}

/// What a wait for the end of a process does.
pub open spec fn waits(exited: bool, bits: usize, events: u16) -> ExitWait {
    if exited {
        ExitWait::Ready(exit_status(true, events))
    } else if has_flag(bits, O_NON_BLOCK) {
        ExitWait::Ready(PollStatus { read: false, write: false, error: false })
    } else {
        ExitWait::Wait
    }
}

impl PidFd {
    pub fn new(process: u64, open_flags: OpenFlags, exited: bool) -> (p: Self)
        ensures
            p == (PidFd { process, open_flags, readable: exited }),
    {
        PidFd { process, open_flags, readable: exited }
    }

    pub fn target(&self) -> (p: u64)
        ensures
            p == self.process,
    {
        self.process
    }

    /// Changes blocking and closing on exec; the rest of the flags stays.
    pub fn set_flags(&mut self, f: OpenFlags)
        ensures
            *final(self) == (PidFd {
                open_flags: OpenFlags {
                    bits: with_flag(
                        with_flag(
                            old(self).open_flags.bits,
                            O_NON_BLOCK,
                            has_flag(f.bits, O_NON_BLOCK),
                        ),
                        O_CLOEXEC,
                        has_flag(f.bits, O_CLOEXEC),
                    ),
                },
                ..*old(self)
            }),
    {
        self.open_flags.set(O_NON_BLOCK, f.contains(O_NON_BLOCK));
        self.open_flags.set(O_CLOEXEC, f.contains(O_CLOEXEC));
    }

    pub fn read(&self) -> (r: Result<usize, LxError>)
        ensures
            r == Err::<usize, LxError>(LxError::EINVAL),
    {
        Err(LxError::EINVAL)
    }

    pub fn write(&self) -> (r: Result<usize, LxError>)
        ensures
            r == Err::<usize, LxError>(LxError::EINVAL),
    {
        Err(LxError::EINVAL)
    }

    /// Readable, for one who asks, once the process ended.
    pub fn poll(&self, events: PollEvents, exited: bool) -> (s: PollStatus)
        ensures
            s == exit_status(exited, events.bits),
    {
        PollStatus { read: exited && events.contains(POLL_IN), write: false, error: false }
    }

    /// What a poll that may wait does first.
    pub fn async_poll(&self, events: PollEvents, exited: bool) -> (w: ExitWait)
        ensures
            w == waits(exited, self.open_flags.bits, events.bits),
    {
        if exited {
            return ExitWait::Ready(self.poll(events, true));
        }
        if self.open_flags.non_block() {
            return ExitWait::Ready(PollStatus { read: false, write: false, error: false });
        }
        ExitWait::Wait
    }

    /// Tells waiters that the process ended.
    pub fn process_ended(&mut self)
        ensures
            *final(self) == (PidFd { readable: true, ..*old(self) }),
    {
        self.readable = true;
    }
}

/// The descriptor is readable exactly where the process has ended and that is asked for.
pub proof fn law_ended_is_readable(exited: bool, events: u16)
    ensures
        exit_status(exited, events).read <==> exited && events & 1 != 0,
        !exit_status(exited, events).write,
        !exit_status(exited, events).error,
{
    assert(events & 1 == 1 <==> events & 1 != 0) by (bit_vector);
}

/// A wait blocks only for a process that still runs, and only on a descriptor that may block. Once
/// the process has ended the wait is over for good, and tells so where that was asked for; it never
/// tells of an end that has not come.
pub proof fn law_wait_for_end(exited: bool, bits: usize, events: u16)
    ensures
        waits(exited, bits, events) is Wait <==> !exited && bits & 0x800 != 0x800,
        waits(exited, bits, events) matches ExitWait::Ready(p) ==> {
            &&& p.read <==> exited && events & 1 != 0
            &&& !p.write && !p.error
        },
{
    law_ended_is_readable(exited, events);
}

} // verus!
