//! Event counters.
use vstd::prelude::*;
use crate::bytes::{copy_into, get_u64, le64, push_u64, splice, u64_at};
use crate::error::LxError;
use crate::flags::{answers, has_flag, poll_answered, OpenFlags, PollEvents, O_NON_BLOCK};
use crate::vfs::PollStatus;

verus! {

/// A read takes one from the counter, not all of it.
pub const EFD_SEMAPHORE: usize = 1;

/// An event counter.
#[derive(Clone, Copy, PartialEq, Eq, Structural, Debug)]
pub struct EventFd {
    pub counter: u64,
    /// Whether readers are told of a count.
    pub readable: bool,
    pub flags: OpenFlags,
}

/// What a read of a counter means for the reader.
#[derive(Clone, Copy, PartialEq, Eq, Structural, Debug)]
pub enum CountStep {
    Done(usize),
    /// Wait until there is a count, then read again.
    Wait,
    Failed(LxError),
}

/// What a read takes from a count.
pub open spec fn takes(e: EventFd) -> u64 {
    if e.flags.bits & EFD_SEMAPHORE != 0 {
        1
    } else {
        e.counter
    }
}

/// A counter after a read.
pub open spec fn after_take(e: EventFd) -> EventFd {
    let left = (e.counter - takes(e)) as u64;
    EventFd {
        counter: left,
        readable: if left == 0 {
            false
        } else {
            e.readable
        },
        ..e
    }
}

/// What a read of a counter answers.
pub open spec fn take_step(e: EventFd, room: nat) -> CountStep {
    if room < 8 {
        CountStep::Failed(LxError::EINVAL)
    } else if e.counter > 0 {
        CountStep::Done(8)
    } else if has_flag(e.flags.bits, O_NON_BLOCK) {
        CountStep::Failed(LxError::EAGAIN)
    } else {
        CountStep::Wait
    }
}

/// What a write to a counter answers.
pub open spec fn add_result(e: EventFd, bytes: Seq<u8>) -> Result<usize, LxError> {
    if bytes.len() < 8 {
        Err(LxError::EINVAL)
    } else if u64_at(bytes, 0) == u64::MAX {
        Err(LxError::EINVAL)
    } else if e.counter + u64_at(bytes, 0) < u64::MAX {
        Ok(8)
    } else {
        Err(LxError::EAGAIN)
    }
}

/// The counter after bytes were written to it.
pub open spec fn after_add(e: EventFd, bytes: Seq<u8>) -> EventFd {
    if add_result(e, bytes) is Ok {
        EventFd { counter: (e.counter + u64_at(bytes, 0)) as u64, readable: true, ..e }
    } else {
        e
    }
}

impl EventFd {
    pub fn new(initval: u32, flags: OpenFlags) -> (e: Self)
        ensures
            e == (EventFd { counter: initval as u64, readable: false, flags }),
    {
        EventFd { counter: initval as u64, readable: false, flags }
    }

    /// Takes the count, or one of it, and writes what was taken into the buffer.
    pub fn read(&mut self, buf: &mut [u8]) -> (s: CountStep)
        ensures
            s == take_step(*old(self), old(buf)@.len()),
            s is Done ==> *final(self) == after_take(*old(self)) && final(buf)@ == splice(
                old(buf)@,
                0,
                le64(takes(*old(self))),
            ),
            !(s is Done) ==> *final(self) == *old(self) && final(buf)@ == old(buf)@,
    {
        if buf.len() < 8 {
            return CountStep::Failed(LxError::EINVAL);
        }
        if self.counter > 0 {
            let taken: u64 = if self.flags.bits & EFD_SEMAPHORE != 0 {
                1
            } else {
                self.counter
            };
            self.counter = self.counter - taken;
            let mut bytes: Vec<u8> = Vec::new();
            push_u64(&mut bytes, taken);
            assert(bytes@ =~= le64(taken));
            copy_into(buf, 0, bytes.as_slice());
            if self.counter == 0 {
                self.readable = false;
            }
            return CountStep::Done(8);
        }
        if self.flags.contains(O_NON_BLOCK) {
            return CountStep::Failed(LxError::EAGAIN);
        }
        CountStep::Wait
    }

    /// Adds to the count. A sum that the counter cannot hold is refused.
    pub fn write(&mut self, buf: &[u8]) -> (r: Result<usize, LxError>)
        ensures
            r == add_result(*old(self), buf@),
            *final(self) == after_add(*old(self), buf@),
    {
        if buf.len() < 8 {
            return Err(LxError::EINVAL);
        }
        let val: u64 = get_u64(buf, 0);
        if val == u64::MAX {
            return Err(LxError::EINVAL);
        }
        if u64::MAX - self.counter > val {
            self.counter = self.counter + val;
            self.readable = true;
            Ok(8)
        } else {
            Err(LxError::EAGAIN)
        }
    }

    pub fn poll(&self) -> (s: PollStatus)
        ensures
            s == count_status(*self),
    {
        PollStatus {
            read: self.counter > 0,
            write: self.counter < 0xffff_ffff_ffff_fffe,
            error: false,
        }
    }

    /// Whether a poll for some events need not wait.
    pub fn ready(&self, events: PollEvents) -> (r: bool)
        ensures
            r == answers(events.bits, count_status(*self)),
    {
        poll_answered(events, self.poll())
    }
}

/// The readiness of a counter.
pub open spec fn count_status(e: EventFd) -> PollStatus {
    PollStatus { read: e.counter > 0, write: e.counter < u64::MAX - 1, error: false }
}

/// What is added is taken again: a counter that is not a semaphore gives back the whole sum and is
/// empty then.
pub proof fn law_sum_taken(e: EventFd, bytes: Seq<u8>)
    requires
        add_result(e, bytes) is Ok,
        e.counter + u64_at(bytes, 0) > 0,
        e.flags.bits & EFD_SEMAPHORE == 0,
    ensures
        ({
            let w = EventFd {
                counter: (e.counter + u64_at(bytes, 0)) as u64,
                readable: true,
                ..e
            };
            &&& takes(w) == e.counter + u64_at(bytes, 0)
            &&& after_take(w).counter == 0
            &&& !after_take(w).readable
        }),
{
}

/// A semaphore of count `n` can be taken once more than one of count `n - 1`.
pub proof fn law_semaphore_takes_one(e: EventFd)
    requires
        e.counter > 0,
        e.flags.bits & EFD_SEMAPHORE != 0,
    ensures
        takes(e) == 1,
        after_take(e).counter == e.counter - 1,
{
}

/// The counter never reaches its largest value.
pub proof fn law_count_below_max(e: EventFd, bytes: Seq<u8>)
    requires
        add_result(e, bytes) is Ok,
    ensures
        e.counter + u64_at(bytes, 0) < u64::MAX,
{
}

/// A read asks for room for the count, takes it where there is one, and otherwise waits, or does not
/// where waiting is switched off.
pub proof fn law_take_outcomes(e: EventFd, room: nat)
    ensures
        take_step(e, room) == CountStep::Failed(LxError::EINVAL) <==> room < 8,
        take_step(e, room) is Done <==> room >= 8 && e.counter > 0,
        take_step(e, room) matches CountStep::Done(n) ==> n == 8,
        take_step(e, room) is Wait <==> room >= 8 && e.counter == 0 && e.flags.bits & 0x800 == 0,
        take_step(e, room) == CountStep::Failed(LxError::EAGAIN) <==> room >= 8 && e.counter == 0
            && e.flags.bits & 0x800 != 0,
{
    let b = e.flags.bits;
    assert(b & 0x800 == 0x800 <==> b & 0x800 != 0) by (bit_vector);
}

/// What is taken and what is left make up what there was: all of it, or one where the counter is a
/// semaphore. Nothing else changes, and an empty counter is not told of.
pub proof fn law_count_conserved(e: EventFd)
    requires
        e.counter > 0,
    ensures
        takes(e) + after_take(e).counter == e.counter,
        takes(e) > 0,
        e.flags.bits & 1 == 0 ==> after_take(e).counter == 0,
        e.flags.bits & 1 != 0 ==> after_take(e).counter == e.counter - 1,
        after_take(e).flags == e.flags,
        after_take(e).readable <==> e.readable && after_take(e).counter > 0,
{
}

/// A write adds its number exactly where there is one, it is not the greatest, and the sum stays below
/// the greatest; otherwise it changes nothing, and waits only where the sum is too large.
pub proof fn law_add_outcomes(e: EventFd, bytes: Seq<u8>)
    ensures
        ({
            let v = u64_at(bytes, 0);
            let r = add_result(e, bytes);
            &&& r is Ok <==> bytes.len() >= 8 && v < u64::MAX && e.counter + v < u64::MAX
            &&& r matches Ok(n) ==> n == 8
            &&& r == Err::<usize, LxError>(LxError::EINVAL) <==> bytes.len() < 8 || v == u64::MAX
            &&& r == Err::<usize, LxError>(LxError::EAGAIN) <==> bytes.len() >= 8 && v < u64::MAX
                && e.counter + v >= u64::MAX
            &&& r is Ok ==> after_add(e, bytes).counter == e.counter + v && after_add(e, bytes).readable
            &&& r is Err ==> after_add(e, bytes) == e
            &&& after_add(e, bytes).flags == e.flags
        }),
{
}

/// The descriptor is readable exactly where there is a count, and writable exactly where one more can
/// be added.
pub proof fn law_count_readiness(e: EventFd)
    ensures
        count_status(e).read <==> e.counter > 0,
        count_status(e).write <==> e.counter + 1 < u64::MAX,
        !count_status(e).error,
{
}

} // verus!
