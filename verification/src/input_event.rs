//! The event character device of an input device.
use vstd::prelude::*;
use std::collections::VecDeque;
use crate::bytes::{copy_into, le16, le32, le64, push_u16, push_u32, push_u64, splice};
use crate::error::FsError;
use crate::vfs::{node_metadata, FileType, Metadata, PollStatus};

verus! {

/// How many events are kept for a reader.
pub const BUF_CAPACITY: usize = 64;

/// The major number of input nodes.
pub const INPUT_MAJOR: usize = 0xd;

/// The minor number of the first event device.
pub const EVENT_DEV_MINOR_BASE: usize = 0x40;

/// The size of an event as a reader gets it.
pub const EVENT_SIZE: usize = 24;

/// An event as a driver reports it.
#[derive(Clone, Copy, PartialEq, Eq, Structural, Debug)]
pub struct InputEvent {
    pub event_type: u16,
    pub code: u16,
    pub value: i32,
}

/// An event with the time at which it was reported.
#[derive(Clone, Copy, PartialEq, Eq, Structural, Debug)]
pub struct TimedInputEvent {
    pub sec: u64,
    pub usec: u64,
    pub event_type: u16,
    pub code: u16,
    pub value: i32,
}

/// An event at a time.
pub open spec fn timed(e: InputEvent, sec: u64, usec: u64) -> TimedInputEvent {
    TimedInputEvent { sec, usec, event_type: e.event_type, code: e.code, value: e.value }
}

/// An event as a reader gets it.
pub open spec fn event_bytes(e: TimedInputEvent) -> Seq<u8> {
    le64(e.sec) + le64(e.usec) + le16(e.event_type) + le16(e.code) + le32(e.value as u32)
}

/// Events one after the other as a reader gets them.
pub open spec fn events_bytes(s: Seq<TimedInputEvent>) -> Seq<u8>
    decreases s.len(),
{
    if s.len() == 0 {
        Seq::empty()
    } else {
        events_bytes(s.drop_last()) + event_bytes(s.last())
    }
}

pub proof fn lemma_events_len(s: Seq<TimedInputEvent>)
    ensures
        events_bytes(s).len() == 24 * s.len(),
    decreases s.len(),
{
    if s.len() > 0 {
        lemma_events_len(s.drop_last());
    }
}

impl TimedInputEvent {
    pub fn from(e: &InputEvent, sec: u64, usec: u64) -> (t: Self)
        ensures
            t == timed(*e, sec, usec),
    {
        TimedInputEvent { sec, usec, event_type: e.event_type, code: e.code, value: e.value }
    }

    pub fn as_buf(&self) -> (v: Vec<u8>)
        ensures
            v@ == event_bytes(*self),
            v@.len() == EVENT_SIZE,
    {
        let mut v: Vec<u8> = Vec::new();
        push_u64(&mut v, self.sec);
        push_u64(&mut v, self.usec);
        push_u16(&mut v, self.event_type);
        push_u16(&mut v, self.code);
        #[verifier::truncate]
        let value: u32 = self.value as u32;
        push_u32(&mut v, value);
        assert(v@ =~= event_bytes(*self));
        v
    }
}

/// Kinds of capability that a driver knows.
#[derive(Clone, Copy, PartialEq, Eq, Structural, Debug)]
pub enum CapabilityType {
    Event,
    Key,
    RelAxis,
    AbsAxis,
    Misc,
    Switch,
    Led,
    Sound,
    FeedBack,
}

/// The capability that belongs to a type of event; type zero stands for the types themselves.
pub open spec fn capability_of(ev: u32) -> Option<CapabilityType> {
    match ev {
        0x00u32 => Some(CapabilityType::Event),
        0x01u32 => Some(CapabilityType::Key),
        0x02u32 => Some(CapabilityType::RelAxis),
        0x03u32 => Some(CapabilityType::AbsAxis),
        0x04u32 => Some(CapabilityType::Misc),
        0x05u32 => Some(CapabilityType::Switch),
        0x11u32 => Some(CapabilityType::Led),
        0x12u32 => Some(CapabilityType::Sound),
        0x15u32 => Some(CapabilityType::FeedBack),
        _ => None,
    }
}

/// What a request hands to user memory, and what it returns.
pub struct EvReply {
    pub bytes: Vec<u8>,
    pub ret: usize,
}

/// The number of a request.
pub open spec fn nr_of(cmd: u32) -> u32 {
    cmd & 0xff
}

/// How much room the caller has, of which no more than 256 bytes are used.
pub open spec fn size_of_request(cmd: u32) -> int {
    if ((cmd >> 16) & 0x3fff) < 256 {
        ((cmd >> 16) & 0x3fff) as int
    } else {
        256
    }
}

/// The smaller of two numbers.
pub open spec fn least(a: int, b: int) -> int {
    if a < b {
        a
    } else {
        b
    }
}

/// That many zeroes.
pub open spec fn zeroes(n: int) -> Seq<u8> {
    Seq::new(n as nat, |i: int| 0u8)
}

/// A name as far as there is room for it and a closing zero.
pub open spec fn name_bytes(name: Seq<u8>, room: int) -> Seq<u8> {
    let n = least(name.len() as int + 1, room);
    if n == 0 {
        Seq::empty()
    } else {
        name.take(n - 1).push(0u8)
    }
}

/// What a request answers: the bytes for user memory and the value returned. `bits` is the bitmap
/// that the driver has for the capability that the request asks for.
pub open spec fn answer(cmd: u32, data: usize, name: Seq<u8>, bits: Seq<u8>) -> Result<
    (Seq<u8>, usize),
    FsError,
> {
    let size = size_of_request(cmd);
    let nr = nr_of(cmd);
    if (cmd >> 8) & 0xff != 0x45 {
        Err(FsError::NotSupported)
    } else if nr == 0xa0 || nr == 0x90 || nr == 0x91 {
        Ok((Seq::empty(), 0))
    } else if data == 0 {
        Err(FsError::InvalidParam)
    } else if nr == 0x01 {
        Ok((le32(0x01_0001), 4))
    } else if nr == 0x02 {
        Ok((le16(6) + zeroes(6), 8))
    } else if nr == 0x03 {
        Ok((le32(250) + le32(33), 8))
    } else if nr == 0x06 {
        Ok((name_bytes(name, size), name_bytes(name, size).len() as usize))
    } else if nr == 0x07 || nr == 0x08 {
        Ok((zeroes(1), 1))
    } else if nr == 0x09 || nr == 0x18 || nr == 0x19 || nr == 0x1a || nr == 0x1b {
        Ok((zeroes(size), size as usize))
    } else if 0x20 <= nr <= 0x3f {
        let n = least(size, bits.len() as int);
        if capability_of((nr - 0x20) as u32) is Some {
            Ok((bits.take(n), n as usize))
        } else {
            Ok((zeroes(n), n as usize))
        }
    } else if 0x40 <= nr <= 0x7f {
        Ok((zeroes(least(size, 24)), 0))
    } else {
        Err(FsError::NotSupported)
    }
}

fn zero_bytes(n: usize) -> (v: Vec<u8>)
    ensures
        v@ == zeroes(n as int),
{
    let mut v: Vec<u8> = Vec::new();
    let mut i: usize = 0;
    while i < n
        invariant
            i <= n,
            v@ == zeroes(i as int),
        decreases n - i,
    {
        v.push(0);
        i = i + 1;
        assert(v@ =~= zeroes(i as int));
    }
    v
}

fn min(a: usize, b: usize) -> (r: usize)
    ensures
        r == least(a as int, b as int),
{
    if a < b {
        a
    } else {
        b
    }
}

/// What a wait for events does next.
#[derive(Clone, Copy, PartialEq, Eq, Structural, Debug)]
pub enum EventStep {
    /// There is something to read; a subscription that is left is to be given up.
    Ready(Option<u64>),
    /// Subscribe, then look again.
    Subscribe,
    /// Sleep until the subscription fires.
    Parked,
}

/// A wait for events.
#[derive(Clone, Copy, PartialEq, Eq, Structural, Debug)]
pub struct EventFuture {
    pub sub_id: Option<u64>,
}

impl EventFuture {
    /// Looks once whether there is something to read.
    pub fn poll(&mut self, readable: bool) -> (s: EventStep)
        ensures
            s == wait_goes(readable, old(self).sub_id).0,
            final(self).sub_id == wait_goes(readable, old(self).sub_id).1,
    {
        if readable {
            let left = self.sub_id;
            self.sub_id = None;
            return EventStep::Ready(left);
        }
        match self.sub_id {
            None => EventStep::Subscribe,
            Some(_) => EventStep::Parked,
        }
    }

    /// Remembers a subscription.
    pub fn subscribed(&mut self, id: Option<u64>)
        ensures
            final(self).sub_id == id,
    {
        self.sub_id = id;
    }

    /// Ends the wait: a subscription that is left is to be given up.
    pub fn cancel(&mut self) -> (id: Option<u64>)
        ensures
            id == old(self).sub_id,
            final(self).sub_id is None,
    {
        let id = self.sub_id;
        self.sub_id = None;
        id
    }
}

/// An event device: the events that no reader has taken yet, the oldest first.
pub struct EventDev {
    pub id: usize,
    pub inode_id: usize,
    pub buf: VecDeque<TimedInputEvent>,
}

/// The events kept after one more: the oldest give way.
pub open spec fn kept(s: Seq<TimedInputEvent>, e: TimedInputEvent) -> Seq<TimedInputEvent> {
    if s.len() >= BUF_CAPACITY {
        s.skip(s.len() - BUF_CAPACITY + 1).push(e)
    } else {
        s.push(e)
    }
}

/// How many events fit a reader's buffer.
pub open spec fn read_count(s: Seq<TimedInputEvent>, len: int) -> int {
    least(len / 24, s.len() as int)
}

/// What a wait does that holds a subscription or none, and what it holds afterwards.
pub open spec fn wait_goes(readable: bool, sub_id: Option<u64>) -> (EventStep, Option<u64>) {
    if readable {
        (EventStep::Ready(sub_id), None)
    } else if sub_id is None {
        (EventStep::Subscribe, sub_id)
    } else {
        (EventStep::Parked, sub_id)
    }
}

/// A read of waiting events into `bytes` answers `r`, and leaves the events and the bytes so.
pub open spec fn events_read(
    s: Seq<TimedInputEvent>,
    bytes: Seq<u8>,
    r: Result<usize, FsError>,
    s2: Seq<TimedInputEvent>,
    bytes2: Seq<u8>,
) -> bool {
    if bytes.len() < 24 {
        r == Err::<usize, FsError>(FsError::InvalidParam) && s2 == s && bytes2 == bytes
    } else if s.len() == 0 {
        r == Err::<usize, FsError>(FsError::Again) && s2 == s && bytes2 == bytes
    } else {
        let n = read_count(s, bytes.len() as int);
        &&& r == Ok::<usize, FsError>((24 * n) as usize)
        &&& s2 == s.skip(n)
        &&& bytes2 == splice(bytes, 0, events_bytes(s.take(n)))
    }
}

impl EventDev {
    pub fn new(id: usize, inode_id: usize) -> (d: Self)
        ensures
            d.id == id,
            d.inode_id == inode_id,
            d.buf@ == Seq::<TimedInputEvent>::empty(),
    {
        EventDev { id, inode_id, buf: VecDeque::with_capacity(BUF_CAPACITY) }
    }

    /// Keeps an event.
    pub fn handle_input_event(&mut self, e: &InputEvent, sec: u64, usec: u64)
        ensures
            final(self).buf@ == kept(old(self).buf@, timed(*e, sec, usec)),
            final(self).id == old(self).id,
            final(self).inode_id == old(self).inode_id,
    {
        let ghost before = self.buf@;
        let ghost mut gone: int = 0;
        assert(before.skip(0) =~= before);
        while self.buf.len() >= BUF_CAPACITY
            invariant
                self.id == old(self).id,
                self.inode_id == old(self).inode_id,
                0 <= gone <= before.len(),
                self.buf@ == before.skip(gone),
                gone > 0 ==> before.len() - gone >= BUF_CAPACITY - 1,
            decreases self.buf@.len(),
        {
            let _ = self.buf.pop_front();
            proof {
                gone = gone + 1;
                assert(self.buf@ =~= before.skip(gone));
            }
        }
        self.buf.push_back(TimedInputEvent::from(e, sec, usec));
        assert(self.buf@ =~= kept(before, timed(*e, sec, usec)));
    }

    /// Hands out the oldest events, as many as fit.
    pub fn read_at(&mut self, buf: &mut [u8]) -> (r: Result<usize, FsError>)
        ensures
            final(self).id == old(self).id,
            final(self).inode_id == old(self).inode_id,
            events_read(old(self).buf@, old(buf)@, r, final(self).buf@, final(buf)@),
    {
        let len: usize = buf.len();
        if len < EVENT_SIZE {
            return Err(FsError::InvalidParam);
        }
        if self.buf.len() == 0 {
            return Err(FsError::Again);
        }
        let ghost before = self.buf@;
        let ghost bytes = buf@;
        let ghost mut n: int = 0;
        let mut read: usize = 0;
        proof {
            assert(before.skip(0) =~= before);
            assert(bytes =~= splice(bytes, 0, events_bytes(before.take(0))));
        }
        while EVENT_SIZE <= len - read && self.buf.len() > 0
            invariant
                self.id == old(self).id,
                self.inode_id == old(self).inode_id,
                before == old(self).buf@,
                bytes == old(buf)@,
                len == bytes.len(),
                buf@.len() == len,
                read <= len,
                0 <= n <= before.len(),
                read == 24 * n,
                self.buf@ == before.skip(n),
                buf@ == splice(bytes, 0, events_bytes(before.take(n))),
            decreases self.buf@.len(),
        {
            let ghost held = buf@;
            assert(self.buf@[0] == before[n]);
            let e = self.buf[0];
            let _ = self.buf.pop_front();
            let b: Vec<u8> = e.as_buf();
            copy_into(buf, read, b.as_slice());
            read = read + EVENT_SIZE;
            proof {
                lemma_events_len(before.take(n));
                lemma_events_len(before.take(n + 1));
                assert(before.take(n + 1).drop_last() =~= before.take(n));
                assert(before.take(n + 1).last() == before[n]);
                assert(buf@ =~= splice(bytes, 0, events_bytes(before.take(n + 1))));
                n = n + 1;
                assert(self.buf@ =~= before.skip(n));
            }
        }
        proof {
            assert(n == read_count(before, len as int));
        }
        Ok(read)
    }

    pub fn write_at(&self, buf: &[u8]) -> (r: Result<usize, FsError>)
        ensures
            r == Err::<usize, FsError>(FsError::NotSupported),
    {
        Err(FsError::NotSupported)
    }

    fn can_read(&self) -> (r: bool)
        ensures
            r == (self.buf@.len() > 0),
    {
        self.buf.len() > 0
    }

    pub fn poll(&self) -> (s: PollStatus)
        ensures
            s == (PollStatus { read: self.buf@.len() > 0, write: false, error: false }),
    {
        PollStatus { read: self.can_read(), write: false, error: false }
    }

    /// The capability that belongs to a type of event.
    pub fn capability_for_ev(ev: u32) -> (c: Option<CapabilityType>)
        ensures
            c == capability_of(ev),
    {
        match ev {
            0x00 => Some(CapabilityType::Event),
            0x01 => Some(CapabilityType::Key),
            0x02 => Some(CapabilityType::RelAxis),
            0x03 => Some(CapabilityType::AbsAxis),
            0x04 => Some(CapabilityType::Misc),
            0x05 => Some(CapabilityType::Switch),
            0x11 => Some(CapabilityType::Led),
            0x12 => Some(CapabilityType::Sound),
            0x15 => Some(CapabilityType::FeedBack),
            _ => None,
        }
    }

    /// Which capability a request asks for, if it asks for one.
    pub fn capability_asked(cmd: u32) -> (c: Option<CapabilityType>)
        ensures
            c == (if 0x20 <= nr_of(cmd) <= 0x3f {
                capability_of((nr_of(cmd) - 0x20) as u32)
            } else {
                None
            }),
    {
        let nr: u32 = cmd & 0xff;
        if 0x20 <= nr && nr <= 0x3f {
            Self::capability_for_ev(nr - 0x20)
        } else {
            None
        }
    }

    /// Answers a request of the input group.
    pub fn io_control(&self, cmd: u32, data: usize, name: &[u8], bits: &[u8]) -> (r: Result<
        EvReply,
        FsError,
    >)
        requires
            name@.len() < usize::MAX,
        ensures
            match r {
                Ok(reply) => answer(cmd, data, name@, bits@) == Ok::<(Seq<u8>, usize), FsError>(
                    (reply.bytes@, reply.ret),
                ),
                Err(e) => answer(cmd, data, name@, bits@) == Err::<(Seq<u8>, usize), FsError>(e),
            },
    {
        let room: usize = ((cmd >> 16) & 0x3fff) as usize;
        let size: usize = min(room, 256);
        let nr: u32 = cmd & 0xff;
        proof {
            if room >= 256 {
                assert(size == 256);
            }
            assert(size == size_of_request(cmd));
        }
        if (cmd >> 8) & 0xff != 0x45 {
            return Err(FsError::NotSupported);
        }
        if nr == 0xa0 || nr == 0x90 || nr == 0x91 {
            let bytes: Vec<u8> = Vec::new();
            assert(bytes@ =~= Seq::empty());
            return Ok(EvReply { bytes, ret: 0 });
        }
        if data == 0 {
            return Err(FsError::InvalidParam);
        }
        let mut bytes: Vec<u8> = Vec::new();
        if nr == 0x01 {
            push_u32(&mut bytes, 0x01_0001);
            assert(bytes@ =~= le32(0x01_0001));
            Ok(EvReply { bytes, ret: 4 })
        } else if nr == 0x02 {
            push_u16(&mut bytes, 6);
            push_u16(&mut bytes, 0);
            push_u16(&mut bytes, 0);
            push_u16(&mut bytes, 0);
            assert(bytes@ =~= le16(6) + zeroes(6));
            Ok(EvReply { bytes, ret: 8 })
        } else if nr == 0x03 {
            push_u32(&mut bytes, 250);
            push_u32(&mut bytes, 33);
            assert(bytes@ =~= le32(250) + le32(33));
            Ok(EvReply { bytes, ret: 8 })
        } else if nr == 0x06 {
            let n: usize = min(name.len() + 1, size);
            if n == 0 {
                assert(bytes@ =~= name_bytes(name@, size as int));
                return Ok(EvReply { bytes, ret: 0 });
            }
            bytes.extend_from_slice(&name[0..n - 1]);
            bytes.push(0);
            assert(bytes@ =~= name_bytes(name@, size as int));
            Ok(EvReply { bytes, ret: n })
        } else if nr == 0x07 || nr == 0x08 {
            Ok(EvReply { bytes: zero_bytes(1), ret: 1 })
        } else if nr == 0x09 || nr == 0x18 || nr == 0x19 || nr == 0x1a || nr == 0x1b {
            Ok(EvReply { bytes: zero_bytes(size), ret: size })
        } else if 0x20 <= nr && nr <= 0x3f {
            let n: usize = min(size, bits.len());
            match Self::capability_for_ev(nr - 0x20) {
                Some(_) => {
                    bytes.extend_from_slice(&bits[0..n]);
                    assert(bytes@ =~= bits@.take(n as int));
                    Ok(EvReply { bytes, ret: n })
                },
                None => Ok(EvReply { bytes: zero_bytes(n), ret: n }),
            }
        } else if 0x40 <= nr && nr <= 0x7f {
            Ok(EvReply { bytes: zero_bytes(min(size, 24)), ret: 0 })
        } else {
            Err(FsError::NotSupported)
        }
    }

    /// What a request returns, once it is known whether its bytes could be handed over.
    pub fn finish(reply: &EvReply, copied: bool) -> (r: Result<usize, FsError>)
        ensures
            r == (if copied {
                Ok(reply.ret)
            } else {
                Err::<usize, FsError>(FsError::InvalidParam)
            }),
    {
        if copied {
            Ok(reply.ret)
        } else {
            Err(FsError::InvalidParam)
        }
    }

    /// The minor number of the node.
    pub fn minor(&self) -> (n: usize)
        requires
            self.id <= usize::MAX - EVENT_DEV_MINOR_BASE,
        ensures
            n == 0x40 + self.id,
    {
        EVENT_DEV_MINOR_BASE + self.id
    }

    /// Metadata of the node, whose number is made of its major and minor number.
    pub fn metadata<F: Fn(usize, usize) -> usize>(&self, make_rdev: F) -> (m: Metadata)
        requires
            self.id <= usize::MAX - EVENT_DEV_MINOR_BASE,
            make_rdev.requires((INPUT_MAJOR, (EVENT_DEV_MINOR_BASE + self.id) as usize)),
        ensures
            make_rdev.ensures((INPUT_MAJOR, (EVENT_DEV_MINOR_BASE + self.id) as usize), m.rdev),
            m == crate::vfs::bare_node(1, self.inode_id, FileType::CharDevice, 0o660, m.rdev),
    {
        node_metadata(1, self.inode_id, FileType::CharDevice, 0o660, make_rdev(INPUT_MAJOR, self.minor()))
    }
}

/// No more events are kept than there is room for, and the newest is always among them.
pub proof fn law_events_bounded(s: Seq<TimedInputEvent>, e: TimedInputEvent)
    ensures
        kept(s, e).len() <= BUF_CAPACITY,
        kept(s, e).last() == e,
{
}

/// What a reader gets and what stays are together what there was, in order.
pub proof fn law_events_in_order(s: Seq<TimedInputEvent>, len: int)
    requires
        0 <= len,
    ensures
        s.take(read_count(s, len)) + s.skip(read_count(s, len)) == s,
{
    assert(s.take(read_count(s, len)) + s.skip(read_count(s, len)) =~= s);
}

/// A request answers no more bytes than the caller has room for, but for those of a fixed size.
pub proof fn law_answer_fits(cmd: u32, data: usize, name: Seq<u8>, bits: Seq<u8>)
    requires
        nr_of(cmd) == 0x06 || nr_of(cmd) == 0x09 || 0x18 <= nr_of(cmd) <= 0x7f,
    ensures
        answer(cmd, data, name, bits) matches Ok(p) ==> p.0.len() <= size_of_request(cmd),
{
}

/// An event is stored with its time first, then its kind, its code and its value.
pub proof fn law_event_layout(e: TimedInputEvent)
    ensures
        event_bytes(e).len() == 24,
        crate::bytes::u64_at(event_bytes(e), 0) == e.sec,
        crate::bytes::u64_at(event_bytes(e), 8) == e.usec,
        crate::bytes::u16_at(event_bytes(e), 16) == e.event_type,
        crate::bytes::u16_at(event_bytes(e), 18) == e.code,
        crate::bytes::u32_at(event_bytes(e), 20) == e.value as u32,
{
    crate::bytes::law_le64_roundtrip(e.sec);
    crate::bytes::law_le64_roundtrip(e.usec);
    crate::bytes::law_le16_roundtrip(e.event_type);
    crate::bytes::law_le16_roundtrip(e.code);
    crate::bytes::law_le32_roundtrip(e.value as u32);
    let b = event_bytes(e);
    let s = le64(e.sec);
    let u = le64(e.usec);
    let t = le16(e.event_type);
    let c = le16(e.code);
    let v = le32(e.value as u32);
    assert(b[0] == s[0] && b[1] == s[1] && b[2] == s[2] && b[3] == s[3] && b[4] == s[4] && b[5] == s[5]
        && b[6] == s[6] && b[7] == s[7]);
    assert(b[8] == u[0] && b[9] == u[1] && b[10] == u[2] && b[11] == u[3] && b[12] == u[4] && b[13] == u[5]
        && b[14] == u[6] && b[15] == u[7]);
    assert(b[16] == t[0] && b[17] == t[1] && b[18] == c[0] && b[19] == c[1]);
    assert(b[20] == v[0] && b[21] == v[1] && b[22] == v[2] && b[23] == v[3]);
}

/// An event that comes is stamped and kept last; of sixty-four the oldest makes room.
pub proof fn law_newest_kept(s: Seq<TimedInputEvent>, e: InputEvent, sec: u64, usec: u64)
    ensures
        s.len() < 64 ==> kept(s, timed(e, sec, usec)).drop_last() == s,
        s.len() == 64 ==> kept(s, timed(e, sec, usec)).drop_last() == s.skip(1),
        kept(s, timed(e, sec, usec)).last().event_type == e.event_type,
        kept(s, timed(e, sec, usec)).last().code == e.code,
        kept(s, timed(e, sec, usec)).last().value == e.value,
        kept(s, timed(e, sec, usec)).last().sec == sec,
        kept(s, timed(e, sec, usec)).last().usec == usec,
{
    let t = timed(e, sec, usec);
    assert(s.push(t).drop_last() =~= s);
    if s.len() == 64 {
        assert(kept(s, t).drop_last() =~= s.skip(1));
    }
}

/// A read gives whole events, as many as there are and fit, one after the other.
pub proof fn law_whole_events_read(s: Seq<TimedInputEvent>, e: TimedInputEvent, len: int)
    requires
        0 <= len,
    ensures
        24 * read_count(s, len) <= len,
        read_count(s, len) <= s.len(),
        read_count(s, len) == s.len() || 24 * (read_count(s, len) + 1) > len,
        events_bytes(s.push(e)) == events_bytes(s) + event_bytes(e),
        events_bytes(Seq::empty()).len() == 0,
{
    assert(s.push(e).drop_last() =~= s);
}

/// A name is given with its end mark, cut to the room; none where there is no room.
pub proof fn law_name_given(name: Seq<u8>, room: int)
    requires
        0 <= room,
    ensures
        name_bytes(name, room).len() <= room,
        room > name.len() ==> name_bytes(name, room) == name.push(0u8),
        0 < room <= name.len() ==> name_bytes(name, room) == name.take(room - 1).push(0u8),
        room == 0 ==> name_bytes(name, room).len() == 0,
{
    if room > name.len() {
        assert(name.take(name.len() as int) =~= name);
    }
}

/// What is told of a device: its version, its kind of bus, how its keys repeat, its name, that nothing is
/// pressed or lit, and what it can do, as much as there is room for; a command of another letter, or one
/// that it does not know, is not supported.
pub proof fn law_device_told(cmd: u32, data: usize, name: Seq<u8>, bits: Seq<u8>)
    requires
        data != 0,
    ensures
        (cmd >> 8) & 0xff != 0x45 ==> answer(cmd, data, name, bits) == Err::<(Seq<u8>, usize), FsError>(
            FsError::NotSupported,
        ),
        (cmd >> 8) & 0xff == 0x45 ==> {
            let nr = cmd & 0xff;
            let r = answer(cmd, data, name, bits);
            &&& nr == 1 ==> r == Ok::<(Seq<u8>, usize), FsError>((le32(0x1_0001), 4))
            &&& nr == 3 ==> r == Ok::<(Seq<u8>, usize), FsError>((le32(250) + le32(33), 8))
            &&& nr == 6 ==> (r matches Ok(p) && p.0 == name_bytes(name, size_of_request(cmd)) && p.1
                == p.0.len())
            &&& nr == 9 || 0x18 <= nr <= 0x1b ==> (r matches Ok(p) && p.0.len() == size_of_request(cmd)
                && p.1 == size_of_request(cmd) && forall|i: int| 0 <= i < p.0.len() ==> #[trigger] p.0[i]
                == 0)
            &&& nr == 0x20 || nr == 0x21 || nr == 0x22 || nr == 0x23 || nr == 0x24 || nr == 0x25 || nr
                == 0x31 || nr == 0x32 || nr == 0x35 ==> (r matches Ok(p) && p.1 == p.0.len() && p.0
                == bits.take(p.0.len() as int) && (p.0.len() == bits.len() || p.0.len() == size_of_request(
                cmd,
            )) && p.0.len() <= bits.len() && p.0.len() <= size_of_request(cmd))
            &&& nr == 0x26 || nr == 0x30 || nr == 0x33 || nr == 0x3f ==> (r matches Ok(p) && forall|i: int|
                0 <= i < p.0.len() ==> #[trigger] p.0[i] == 0)
            &&& 0x80 <= nr < 0x90 || nr > 0xa0 ==> r is Err
        },
{
}

/// A command without a place for its answer is refused, but for those that answer nothing.
pub proof fn law_answer_needs_place(cmd: u32, name: Seq<u8>, bits: Seq<u8>)
    requires
        (cmd >> 8) & 0xff == 0x45,
    ensures
        answer(cmd, 0, name, bits) is Ok <==> cmd & 0xff == 0xa0 || cmd & 0xff == 0x90 || cmd & 0xff == 0x91,
        answer(cmd, 0, name, bits) matches Err(e) ==> e == FsError::InvalidParam,
        answer(cmd, 0, name, bits) matches Ok(p) ==> p.0.len() == 0 && p.1 == 0,
{
}

/// The room of a command is what it says, up to 256 bytes.
pub proof fn law_room_of_commands(cmd: u32)
    ensures
        (cmd >> 16) & 0x3fff <= 256 ==> size_of_request(cmd) == (cmd >> 16) & 0x3fff,
        (cmd >> 16) & 0x3fff > 256 ==> size_of_request(cmd) == 256,
{
}

/// Which kinds of events there are.
pub proof fn law_event_kinds(ev: u32)
    ensures
        capability_of(ev) is Some <==> ev <= 5 || ev == 0x11 || ev == 0x12 || ev == 0x15,
        capability_of(ev) == Some(CapabilityType::Key) <==> ev == 1,
        capability_of(ev) == Some(CapabilityType::RelAxis) <==> ev == 2,
        capability_of(ev) == Some(CapabilityType::AbsAxis) <==> ev == 3,
        capability_of(ev) == Some(CapabilityType::Led) <==> ev == 0x11,
{
}

/// A read hands out whole events, the oldest first, as many as fit: the buffer begins with them, and
/// what is left follows them. A buffer too short for one event is refused, and with no event waiting
/// the reader is told to try again; neither takes an event.
pub proof fn law_read_hands_out(
    s: Seq<TimedInputEvent>,
    bytes: Seq<u8>,
    r: Result<usize, FsError>,
    s2: Seq<TimedInputEvent>,
    bytes2: Seq<u8>,
)
    requires
        events_read(s, bytes, r, s2, bytes2),
        bytes.len() <= usize::MAX,
    ensures
        r == Err::<usize, FsError>(FsError::InvalidParam) <==> bytes.len() < 24,
        r == Err::<usize, FsError>(FsError::Again) <==> bytes.len() >= 24 && s.len() == 0,
        r is Err ==> s2 == s && bytes2 == bytes,
        r matches Ok(n) ==> {
            &&& n == 24 * (s.len() - s2.len())
            &&& 24 <= n <= bytes.len()
            &&& s2 == s.skip(s.len() - s2.len())
            &&& bytes2.take(n as int) == events_bytes(s.take(s.len() - s2.len()))
            &&& s2.len() == 0 || bytes.len() - n < 24
        },
{
    if r is Ok {
        let k = read_count(s, bytes.len() as int);
        lemma_events_len(s.take(k));
        assert(bytes2.take(24 * k) =~= events_bytes(s.take(k)));
    }
}

/// A wait is over exactly where there is something to read, and hands the subscription that it had
/// back to be given up. Until then it subscribes once, keeps the subscription and sleeps.
pub proof fn law_event_wait(readable: bool, sub_id: Option<u64>)
    ensures
        wait_goes(readable, sub_id).0 is Ready <==> readable,
        wait_goes(readable, sub_id).0 is Subscribe <==> !readable && sub_id is None,
        wait_goes(readable, sub_id).0 matches EventStep::Ready(given_up) ==> given_up == sub_id
            && wait_goes(readable, sub_id).1 is None,
        !readable ==> wait_goes(readable, sub_id).1 == sub_id,
{
}

/// What is not kept of a device is told as zeroes: two texts that are one empty byte, the identity
/// behind its bus, and the ranges of axes, which fill their room and count for nothing. Every other
/// answer counts the bytes that it has.
pub proof fn law_blank_answers(cmd: u32, data: usize, name: Seq<u8>, bits: Seq<u8>, i: int)
    requires
        data != 0,
        (cmd >> 8) & 0xff == 0x45,
    ensures
        cmd & 0xff == 2 ==> (answer(cmd, data, name, bits) matches Ok(p) && p.1 == 8 && p.0.len() == 8
            && p.0.take(2) == le16(6) && (2 <= i < 8 ==> p.0[i] == 0)),
        cmd & 0xff == 7 || cmd & 0xff == 8 ==> answer(cmd, data, name, bits) == Ok::<
            (Seq<u8>, usize),
            FsError,
        >((seq![0u8], 1)),
        0x40 <= cmd & 0xff <= 0x7f ==> (answer(cmd, data, name, bits) matches Ok(p) && p.1 == 0
            && p.0.len() <= 24 && p.0.len() <= size_of_request(cmd) && (p.0.len() == 24 || p.0.len()
            == size_of_request(cmd)) && (0 <= i < p.0.len() ==> p.0[i] == 0)),
        answer(cmd, data, name, bits) matches Ok(p) ==> (cmd & 0xff < 0x40 && p.0.len() <= usize::MAX
            ==> p.1 == p.0.len()),
{
    if cmd & 0xff == 2 {
        assert((le16(6) + zeroes(6)).take(2) =~= le16(6));
    }
    assert(zeroes(1) =~= seq![0u8]);
}

} // verus!
