//! Signals read from a descriptor.
use vstd::prelude::*;
use crate::bytes::{le32, push_u32};
use crate::error::LxError;
use crate::flags::{has_flag, OpenFlags, O_NON_BLOCK};
use crate::vfs::PollStatus;

verus! {

/// Bytes of one record.
pub const SIGINFO_SIZE: usize = 128;

/// A descriptor that accepts some signals.
#[derive(Clone, Copy, PartialEq, Eq, Structural, Debug)]
pub struct SignalFd {
    pub mask: u64,
    pub flags: OpenFlags,
}

/// Whether signal `n` is in a set; signals count from one.
pub open spec fn in_set(set: u64, n: int) -> bool {
    1 <= n <= 64 && (set >> ((n - 1) as u64)) & 1 == 1
}

/// The lowest signal of a set from `n` on; 0 where there is none.
pub open spec fn lowest(set: u64, n: int) -> int
    decreases 65 - n,
{
    if n < 1 || n > 64 {
        0
    } else if in_set(set, n) {
        n
    } else {
        lowest(set, n + 1)
    }
}

/// A set without a signal.
pub open spec fn without(set: u64, n: int) -> u64 {
    set & !(1u64 << ((n - 1) as u64))
}

/// What a read gives.
pub enum SignalRead {
    /// A record, and what is left of the pending signals.
    Record(Vec<u8>, u64),
    /// Wait for a signal, then read again.
    Wait,
    Failed(LxError),
}

/// A record of a signal: its number, and zeroes.
pub open spec fn record_of(sig: u32) -> Seq<u8> {
    le32(sig) + Seq::new(124, |i: int| 0u8)
}

/// The signal that a read takes, of those pending that are accepted, and what is left pending.
pub open spec fn consumed(pending: u64, mask: u64) -> Option<(u32, u64)> {
    let n = lowest(pending & mask, 1);
    if n > 0 {
        Some((n as u32, without(pending, n)))
    } else {
        None
    }
}

/// What reading a descriptor gives, with `room` bytes to read into.
pub open spec fn reads(mask: u64, bits: usize, pending: u64, room: usize, r: SignalRead) -> bool {
    let n = lowest(pending & mask, 1);
    if room < SIGINFO_SIZE {
        r == SignalRead::Failed(LxError::EINVAL)
    } else if n > 0 {
        r matches SignalRead::Record(v, left) && v@ == record_of(n as u32) && v@.len()
            == SIGINFO_SIZE && left == without(pending, n)
    } else if has_flag(bits, O_NON_BLOCK) {
        r == SignalRead::Failed(LxError::EAGAIN)
    } else {
        r == SignalRead::Wait
    }
}

fn find_first_signal(set: u64) -> (n: u64)
    ensures
        n == lowest(set, 1),
        n <= 64,
        n > 0 ==> in_set(set, n as int),
{
    let mut n: u64 = 1;
    while n <= 64
        invariant
            1 <= n <= 65,
            lowest(set, 1) == lowest(set, n as int),
        decreases 65 - n,
    {
        if (set >> (n - 1)) & 1 == 1 {
            return n;
        }
        n = n + 1;
    }
    0
}

impl SignalFd {
    pub fn new(mask: u64, flags: OpenFlags) -> (s: Self)
        ensures
            s.mask == mask,
            s.flags == flags,
    {
        SignalFd { mask, flags }
    }

    pub fn set_mask(&mut self, mask: u64)
        ensures
            *final(self) == (SignalFd { mask, ..*old(self) }),
    {
        self.mask = mask;
    }

    /// The pending signals that the descriptor accepts.
    pub fn pending_matched(&self, pending: u64) -> (set: u64)
        ensures
            set == pending & self.mask,
    {
        pending & self.mask
    }

    /// Takes the lowest pending signal that the descriptor accepts.
    pub fn consume_one(&self, pending: u64) -> (r: Option<(u32, u64)>)
        ensures
            r == consumed(pending, self.mask),
    {
        let n: u64 = find_first_signal(pending & self.mask);
        if n == 0 {
            return None;
        }
        let left: u64 = pending & !(1u64 << (n - 1));
        Some((n as u32, left))
    }

    /// Reads the record of a signal into a buffer of `room` bytes.
    pub fn read(&self, pending: u64, room: usize) -> (r: SignalRead)
        ensures
            reads(self.mask, self.flags.bits, pending, room, r),
    {
        if room < SIGINFO_SIZE {
            return SignalRead::Failed(LxError::EINVAL);
        }
        match self.consume_one(pending) {
            Some((sig, left)) => {
                let mut v: Vec<u8> = Vec::new();
                push_u32(&mut v, sig);
                v.resize(SIGINFO_SIZE, 0);
                assert(v@ =~= record_of(sig));
                SignalRead::Record(v, left)
            },
            None => {
                if self.flags.contains(O_NON_BLOCK) {
                    SignalRead::Failed(LxError::EAGAIN)
                } else {
                    SignalRead::Wait
                }
            },
        }
    }

    pub fn write(&self) -> (r: Result<usize, LxError>)
        ensures
            r == Err::<usize, LxError>(LxError::EINVAL),
    {
        Err(LxError::EINVAL)
    }

    /// Readable where an accepted signal is pending.
    pub fn poll(&self, pending: u64) -> (s: PollStatus)
        ensures
            s == (PollStatus { read: pending & self.mask != 0, write: false, error: false }),
    {
        PollStatus { read: pending & self.mask != 0, write: false, error: false }
    }
}

proof fn lemma_lowest(set: u64, n: int)
    requires
        1 <= n <= 65,
    ensures
        lowest(set, n) >= 0,
        lowest(set, n) > 0 ==> in_set(set, lowest(set, n)) && n <= lowest(set, n) <= 64,
        lowest(set, n) == 0 ==> forall|k: int| n <= k <= 64 ==> !#[trigger] in_set(set, k),
        forall|k: int| n <= k < lowest(set, n) ==> !#[trigger] in_set(set, k),
    decreases 65 - n,
{
    if n <= 64 && !in_set(set, n) {
        lemma_lowest(set, n + 1);
    }
}

/// A signal that was read is accepted, was pending, is no longer, and every other pending signal
/// still is.
pub proof fn law_consumes_exactly_one(pending: u64, mask: u64, other: int)
    requires
        lowest(pending & mask, 1) > 0,
        1 <= other <= 64,
    ensures
        ({
            let n = lowest(pending & mask, 1);
            &&& in_set(mask, n)
            &&& in_set(pending, n)
            &&& in_set(without(pending, n), other) == (in_set(pending, other) && other != n)
        }),
{
    lemma_lowest(pending & mask, 1);
    let n = (lowest(pending & mask, 1) - 1) as u64;
    let o = (other - 1) as u64;
    assert(n < 64 && ((pending & mask) >> n) & 1 == 1 ==> (pending >> n) & 1 == 1 && (mask >> n) & 1
        == 1) by (bit_vector);
    assert(n < 64 && o < 64 ==> ((((pending & !(1u64 << n)) >> o) & 1 == 1) == ((pending >> o) & 1
        == 1 && o != n))) by (bit_vector);
}

/// A descriptor is readable exactly where a read would find a signal.
pub proof fn law_readable_means_signal(pending: u64, mask: u64)
    ensures
        pending & mask != 0 <==> lowest(pending & mask, 1) > 0,
{
    let set = pending & mask;
    lemma_lowest(set, 1);
    if set == 0 {
        if lowest(set, 1) > 0 {
            let k = (lowest(set, 1) - 1) as u64;
            assert(set == 0 && k < 64 ==> (set >> k) & 1 == 0) by (bit_vector);
        }
    } else if lowest(set, 1) == 0 {
        lemma_all_clear(set, 0);
        assert(set >> 0u64 == set) by (bit_vector);
    }
}

proof fn lemma_all_clear(set: u64, k: u64)
    requires
        k < 64,
        forall|n: int| 1 <= n <= 64 ==> !#[trigger] in_set(set, n),
    ensures
        set >> k == 0,
    decreases 64 - k,
{
    assert(!in_set(set, k + 1));
    assert(((k + 1) - 1) as u64 == k);
    if k < 63 {
        let next = (k + 1) as u64;
        lemma_all_clear(set, next);
        assert(k < 63 && next == k + 1 && set >> next == 0 && (set >> k) & 1 != 1 ==> set >> k
            == 0) by (bit_vector);
    } else {
        assert(k == 63 && (set >> k) & 1 != 1 ==> set >> k == 0) by (bit_vector);
    }
}

/// Of the accepted signals that are pending the one with the least number is taken, and only its bit
/// goes; where none is, none is taken.
pub proof fn law_least_signal_taken(pending: u64, mask: u64)
    ensures
        consumed(pending, mask) is None <==> pending & mask == 0,
        consumed(pending, mask) matches Some((n, left)) ==> {
            &&& 1 <= n <= 64
            &&& (pending >> ((n - 1) as u64)) & 1 == 1
            &&& (mask >> ((n - 1) as u64)) & 1 == 1
            &&& forall|k: u64|
                k < n - 1 ==> #[trigger] ((pending & mask) >> k) & 1 == 0
            &&& left == pending & !(1u64 << ((n - 1) as u64))
        },
{
    let set = pending & mask;
    law_readable_means_signal(pending, mask);
    lemma_lowest(set, 1);
    lemma_least(set, 1);
    let n = lowest(set, 1);
    if n > 0 {
        let k = (n - 1) as u64;
        assert(((pending & mask) >> k) & 1 == 1 ==> (pending >> k) & 1 == 1 && (mask >> k) & 1 == 1)
            by (bit_vector);
        assert forall|j: u64| j < n - 1 implies #[trigger] ((pending & mask) >> j) & 1 == 0 by {
            assert(!in_set(set, j + 1));
            assert((set >> j) & 1 == 0 || (set >> j) & 1 == 1) by (bit_vector);
        }
    }
}

proof fn lemma_least(set: u64, n: int)
    requires
        1 <= n <= 65,
    ensures
        lowest(set, n) == 0 || (n <= lowest(set, n) <= 64 && in_set(set, lowest(set, n))),
        lowest(set, n) > 0 ==> forall|k: int| n <= k < lowest(set, n) ==> !#[trigger] in_set(set, k),
    decreases 65 - n,
{
    if n <= 64 && !in_set(set, n) {
        lemma_least(set, n + 1);
    }
}

/// A record is as long as records are, begins with the number of the signal, and is zero behind it.
pub proof fn law_record_layout(sig: u32)
    ensures
        record_of(sig).len() == 128,
        record_of(sig).take(4) == le32(sig),
        forall|i: int| 4 <= i < 128 ==> #[trigger] record_of(sig)[i] == 0,
{
    assert(record_of(sig).take(4) =~= le32(sig));
}

/// A read with room for a record takes a pending signal of the mask and leaves every other signal
/// pending. It waits, or reports that it would, only where no such signal is pending; a short
/// buffer is refused and takes nothing.
pub proof fn law_read_takes_pending(mask: u64, bits: usize, pending: u64, room: usize, r: SignalRead)
    requires
        reads(mask, bits, pending, room, r),
    ensures
        room < 128 <==> r == SignalRead::Failed(LxError::EINVAL),
        r is Record <==> room >= 128 && pending & mask != 0,
        r == SignalRead::Failed(LxError::EAGAIN) <==> room >= 128 && pending & mask == 0 && bits
            & 0x800 == 0x800,
        r is Wait <==> room >= 128 && pending & mask == 0 && bits & 0x800 != 0x800,
        r matches SignalRead::Record(v, left) ==> {
            &&& v@.len() == 128
            &&& exists|n: u32|
                1 <= n <= 64 && v@.take(4) == #[trigger] le32(n) && (pending >> ((n - 1) as u64)) & 1
                    == 1 && (mask >> ((n - 1) as u64)) & 1 == 1 && left == pending & !(1u64 << ((n
                    - 1) as u64))
            &&& forall|i: int| 4 <= i < 128 ==> #[trigger] v@[i] == 0
        },
{
    law_least_signal_taken(pending, mask);
    if let Some((n, left)) = consumed(pending, mask) {
        law_record_layout(n);
    }
}

} // verus!
