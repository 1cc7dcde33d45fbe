//! Flags of open files and of polls.
use vstd::prelude::*;
use crate::vfs::PollStatus;

verus! {

/// Flags of an open file.
#[derive(Clone, Copy, PartialEq, Eq, Structural, Debug)]
pub struct OpenFlags {
    pub bits: usize,
}

pub const O_RDONLY: usize = 0;

pub const O_WRONLY: usize = 1;

pub const O_RDWR: usize = 2;

pub const O_CREATE: usize = 0x40;

pub const O_EXCLUSIVE: usize = 0x80;

pub const O_TRUNCATE: usize = 0x200;

pub const O_APPEND: usize = 0x400;

pub const O_NON_BLOCK: usize = 0x800;

pub const O_CLOEXEC: usize = 0x8_0000;

/// Whether every bit of a flag is set.
pub open spec fn has_flag(bits: usize, flag: usize) -> bool {
    bits & flag == flag
}

/// Bits with a flag set or cleared.
pub open spec fn with_flag(bits: usize, flag: usize, on: bool) -> usize {
    if on {
        bits | flag
    } else {
        bits & !flag
    }
}

/// Whether the access mode lets a file be read.
pub open spec fn mode_reads(bits: usize) -> bool {
    bits & 3 == O_RDONLY || bits & 3 == O_RDWR
}

/// Whether the access mode lets a file be written.
pub open spec fn mode_writes(bits: usize) -> bool {
    bits & 3 == O_WRONLY || bits & 3 == O_RDWR
}

impl OpenFlags {
    pub fn contains(self, flag: usize) -> (r: bool)
        ensures
            r == has_flag(self.bits, flag),
    {
        self.bits & flag == flag
    }

    /// Sets or clears a flag.
    pub fn set(&mut self, flag: usize, on: bool)
        ensures
            final(self).bits == with_flag(old(self).bits, flag, on),
    {
        if on {
            self.bits = self.bits | flag;
        } else {
            self.bits = self.bits & !flag;
        }
    }

    pub fn readable(self) -> (r: bool)
        ensures
            r == mode_reads(self.bits),
    {
        let b: usize = self.bits & 3;
        b == O_RDONLY || b == O_RDWR
    }

    pub fn writable(self) -> (r: bool)
        ensures
            r == mode_writes(self.bits),
    {
        let b: usize = self.bits & 3;
        b == O_WRONLY || b == O_RDWR
    }

    pub fn is_append(self) -> (r: bool)
        ensures
            r == has_flag(self.bits, O_APPEND),
    {
        self.contains(O_APPEND)
    }

    pub fn non_block(self) -> (r: bool)
        ensures
            r == has_flag(self.bits, O_NON_BLOCK),
    {
        self.contains(O_NON_BLOCK)
    }

    pub fn close_on_exec(self) -> (r: bool)
        ensures
            r == has_flag(self.bits, O_CLOEXEC),
    {
        self.contains(O_CLOEXEC)
    }
}

/// Every access mode but the invalid one lets a file be read or written, and only read-write both.
pub proof fn law_access_modes(bits: usize)
    ensures
        mode_reads(bits) && mode_writes(bits) <==> bits & 3 == O_RDWR,
        !mode_reads(bits) && !mode_writes(bits) <==> bits & 3 == 3,
{
    assert(bits & 3 == 0 || bits & 3 == 1 || bits & 3 == 2 || bits & 3 == 3) by (bit_vector);
}

/// A flag that was set or cleared reads as such, and no other flag changes.
pub proof fn law_set_flag(bits: usize, flag: usize, other: usize, on: bool)
    requires
        flag != 0,
        flag & other == 0,
    ensures
        has_flag(with_flag(bits, flag, on), flag) == on,
        has_flag(with_flag(bits, flag, on), other) == has_flag(bits, other),
{
    assert((bits | flag) & flag == flag) by (bit_vector);
    assert(flag != 0 ==> (bits & !flag) & flag != flag) by (bit_vector);
    assert(flag & other == 0 ==> (bits | flag) & other == bits & other) by (bit_vector);
    assert(flag & other == 0 ==> (bits & !flag) & other == bits & other) by (bit_vector);
}

/// Events of a poll.
#[derive(Clone, Copy, PartialEq, Eq, Structural, Debug)]
pub struct PollEvents {
    pub bits: u16,
}

pub const POLL_IN: u16 = 0x0001;

pub const POLL_OUT: u16 = 0x0004;

pub const POLL_ERR: u16 = 0x0008;

pub const POLL_HUP: u16 = 0x0010;

pub const POLL_INVAL: u16 = 0x0020;

/// All events that are known.
pub const POLL_ALL: u16 = 0x003d;

/// Whether an event is asked for.
pub open spec fn asks(bits: u16, event: u16) -> bool {
    bits & event == event
}

impl PollEvents {
    /// The known events of a mask.
    pub fn from_bits_truncate(bits: u16) -> (e: PollEvents)
        ensures
            e.bits == bits & POLL_ALL,
    {
        PollEvents { bits: bits & POLL_ALL }
    }

    pub fn contains(self, event: u16) -> (r: bool)
        ensures
            r == asks(self.bits, event),
    {
        self.bits & event == event
    }

    pub fn intersects(self, events: u16) -> (r: bool)
        ensures
            r == (self.bits & events != 0),
    {
        self.bits & events != 0
    }
}

/// What a readiness subscription listens for.
#[derive(Clone, Copy, PartialEq, Eq, Structural, Debug)]
pub struct BusMask {
    pub readable: bool,
    pub writable: bool,
    pub error: bool,
    pub closed: bool,
}

/// What a poll interest listens for: what it asks for, and errors and hang-ups always; a poll for
/// neither direction listens for both.
pub open spec fn bus_mask(bits: u16) -> BusMask {
    let both = bits & (POLL_IN | POLL_OUT) == 0;
    BusMask {
        readable: asks(bits, POLL_IN) || both,
        writable: asks(bits, POLL_OUT) || both,
        error: true,
        closed: true,
    }
}

/// What a poll interest listens for.
pub fn poll_events_to_bus_mask(events: PollEvents) -> (m: BusMask)
    ensures
        m == bus_mask(events.bits),
{
    let mut m = BusMask { readable: false, writable: false, error: true, closed: true };
    if events.contains(POLL_IN) {
        m.readable = true;
    }
    if events.contains(POLL_OUT) {
        m.writable = true;
    }
    if !events.intersects(POLL_IN | POLL_OUT) {
        m.readable = true;
        m.writable = true;
    }
    m
}

/// A hang-up wakes every poller, whatever it asked for, and no poller listens for nothing else.
pub proof fn law_hangup_always_wakes(bits: u16)
    ensures
        bus_mask(bits).error,
        bus_mask(bits).closed,
        bus_mask(bits).readable || bus_mask(bits).writable,
{
    assert(bits & 1 == 1 || bits & 4 == 4 || bits & (1u16 | 4u16) == 0) by (bit_vector);
}

/// Whether a status answers a poll: what was asked for is ready, or nothing was asked for.
pub open spec fn answers(bits: u16, s: PollStatus) -> bool {
    ||| asks(bits, POLL_IN) && s.read
    ||| asks(bits, POLL_OUT) && s.write
    ||| !asks(bits, POLL_IN) && !asks(bits, POLL_OUT)
}

/// Whether a poll need not wait.
pub fn poll_answered(events: PollEvents, s: PollStatus) -> (r: bool)
    ensures
        r == answers(events.bits, s),
{
    let want_read: bool = events.contains(POLL_IN);
    let want_write: bool = events.contains(POLL_OUT);
    (want_read && s.read) || (want_write && s.write) || (!want_read && !want_write)
}

/// The access modes by their numbers: 0 reads, 1 writes, 2 does both.
pub proof fn law_modes_by_number(bits: usize)
    ensures
        mode_reads(bits) <==> bits & 3 == 0 || bits & 3 == 2,
        mode_writes(bits) <==> bits & 3 == 1 || bits & 3 == 2,
{
}

/// What a subscription listens for: what is asked for, both directions where neither is, and errors
/// and hangups always.
pub proof fn law_subscription(bits: u16)
    ensures
        bus_mask(bits).readable <==> bits & 1 != 0 || bits & 5 == 0,
        bus_mask(bits).writable <==> bits & 4 != 0 || bits & 5 == 0,
{
    assert(bits & 1 == 1 <==> bits & 1 != 0) by (bit_vector);
    assert(bits & 4 == 4 <==> bits & 4 != 0) by (bit_vector);
    assert(bits & (1u16 | 4u16) == bits & 5) by (bit_vector);
}

/// A poll is answered exactly where something that is asked for is ready, or nothing is asked for.
pub proof fn law_poll_answered(bits: u16, s: PollStatus)
    ensures
        answers(bits, s) <==> (bits & 1 != 0 && s.read) || (bits & 4 != 0 && s.write) || (bits & 1 == 0
            && bits & 4 == 0),
{
    assert(bits & 1 == 1 <==> bits & 1 != 0) by (bit_vector);
    assert(bits & 4 == 4 <==> bits & 4 != 0) by (bit_vector);
}

} // verus!
