//! Pipes.
use vstd::prelude::*;
use std::collections::VecDeque;
use crate::error::FsError;
use crate::flags::{bus_mask, poll_events_to_bus_mask, BusMask, PollEvents};
use crate::vfs::PollStatus;

verus! {

/// Which end of a pipe.
#[derive(Clone, Copy, PartialEq, Eq, Structural, Debug)]
pub enum PipeEnd {
    Read,
    Write,
}

/// The capacity that a new pipe reports.
pub const PIPE_DEFAULT_CAPACITY: usize = 65536;

/// What both ends of a pipe share.
pub struct PipeData {
    pub buf: VecDeque<u8>,
    /// How many read ends are open.
    pub read_cnt: i32,
    /// How many write ends are open.
    pub write_cnt: i32,
    /// A nominal capacity; the queue itself has no bound.
    pub capacity: usize,
    /// Whether readers are told of data.
    pub readable: bool,
    /// Whether an end is told that the other is gone.
    pub closed: bool,
}

/// What both ends of a pipe share, mathematically.
#[verifier::ext_equal]
pub struct PipeModel {
    pub buf: Seq<u8>,
    pub read_cnt: i32,
    pub write_cnt: i32,
    pub capacity: usize,
    pub readable: bool,
    pub closed: bool,
}

impl View for PipeData {
    type V = PipeModel;

    open spec fn view(&self) -> PipeModel {
        PipeModel {
            buf: self.buf@,
            read_cnt: self.read_cnt,
            write_cnt: self.write_cnt,
            capacity: self.capacity,
            readable: self.readable,
            closed: self.closed,
        }
    }
}

/// Whether an end is ready: the read end with data or without a writer, the write end with a
/// reader.
pub open spec fn end_ready(m: PipeModel, end: PipeEnd) -> bool {
    match end {
        PipeEnd::Read => m.buf.len() > 0 || m.write_cnt == 0,
        PipeEnd::Write => m.read_cnt > 0,
    }
}

/// The readiness of an end.
pub open spec fn end_status(m: PipeModel, end: PipeEnd) -> PollStatus {
    PollStatus {
        read: end == PipeEnd::Read && end_ready(m, PipeEnd::Read),
        write: end == PipeEnd::Write && end_ready(m, PipeEnd::Write),
        error: false,
    }
}

/// What holds of every pipe: open ends are counted, a side that is gone was announced, one that is
/// there was not, and data was announced.
pub open spec fn pipe_inv(m: PipeModel) -> bool {
    &&& m.read_cnt >= 0
    &&& m.write_cnt >= 0
    &&& m.closed <==> m.read_cnt == 0 || m.write_cnt == 0
    &&& m.buf.len() > 0 ==> m.readable
}

/// The number of open ends of a side.
pub open spec fn ends_open(m: PipeModel, end: PipeEnd) -> i32 {
    match end {
        PipeEnd::Read => m.read_cnt,
        PipeEnd::Write => m.write_cnt,
    }
}

/// One end of a pipe.
#[derive(Clone, Copy, PartialEq, Eq, Structural, Debug)]
pub struct Pipe {
    pub direction: PipeEnd,
}

/// The fewer of two.
pub open spec fn fewer(a: nat, b: nat) -> nat {
    if a <= b {
        a
    } else {
        b
    }
}

/// What looking at `len` bytes of a pipe gives at one of its ends.
pub open spec fn peeked(m: PipeModel, end: PipeEnd, len: usize, r: Option<(Vec<u8>, bool)>) -> bool {
    match r {
        Some((v, open)) => {
            &&& end == PipeEnd::Read
            &&& v@ == m.buf.take(fewer(m.buf.len(), len as nat) as int)
            &&& open == (m.write_cnt > 0)
        },
        None => end != PipeEnd::Read,
    }
}

/// What a wait on a pipe does next.
#[derive(Clone, Copy, PartialEq, Eq, Structural, Debug)]
pub enum PipeStep {
    /// Ready; a subscription that is left is to be given up.
    Ready(PollStatus, Option<u64>),
    /// Not ready: subscribe, and remember the subscription.
    Subscribe,
    /// Not ready, and subscribed already.
    Parked,
}

/// A wait for an end of a pipe to become ready.
#[derive(Clone, Copy, PartialEq, Eq, Structural, Debug)]
pub struct PipeFuture {
    pub direction: PipeEnd,
    pub sub_id: Option<u64>,
}

/// What a wait on a pipe does next, and how it stands then.
pub open spec fn wait_step(f: PipeFuture, m: PipeModel) -> (PipeStep, PipeFuture) {
    if end_ready(m, f.direction) {
        (
            PipeStep::Ready(end_status(m, f.direction), f.sub_id),
            PipeFuture { sub_id: None, ..f },
        )
    } else if f.sub_id is None {
        (PipeStep::Subscribe, f)
    } else {
        (PipeStep::Parked, f)
    }
}

impl PipeFuture {
    /// Looks at the pipe once.
    pub fn poll(&mut self, data: &PipeData) -> (s: PipeStep)
        ensures
            (s, *final(self)) == wait_step(*old(self), data@),
    {
        let pipe = Pipe { direction: self.direction };
        let ready: bool = match self.direction {
            PipeEnd::Read => data.buf.len() > 0 || data.write_cnt == 0,
            PipeEnd::Write => data.read_cnt > 0,
        };
        if ready {
            let left = self.sub_id;
            self.sub_id = None;
            return PipeStep::Ready(pipe.poll(data), left);
        }
        match self.sub_id {
            None => PipeStep::Subscribe,
            Some(_) => PipeStep::Parked,
        }
    }

    /// Remembers a subscription.
    pub fn subscribed(&mut self, id: Option<u64>)
        ensures
            *final(self) == (PipeFuture { sub_id: id, ..*old(self) }),
    {
        self.sub_id = id;
    }

    /// Ends the wait: a subscription that is left is to be given up.
    pub fn cancel(&mut self) -> (id: Option<u64>)
        ensures
            id == old(self).sub_id,
            *final(self) == (PipeFuture { sub_id: None, ..*old(self) }),
    {
        let id = self.sub_id;
        self.sub_id = None;
        id
    }
}

impl Pipe {
    /// A pipe with one end of each kind: what they share, the read end and the write end.
    pub fn create_pair() -> (r: (PipeData, Pipe, Pipe))
        ensures
            r.0@ == (PipeModel {
                buf: Seq::empty(),
                read_cnt: 1,
                write_cnt: 1,
                capacity: PIPE_DEFAULT_CAPACITY,
                readable: false,
                closed: false,
            }),
            r.1.direction == PipeEnd::Read,
            r.2.direction == PipeEnd::Write,
            pipe_inv(r.0@),
    {
        let data = PipeData {
            buf: VecDeque::new(),
            read_cnt: 1,
            write_cnt: 1,
            capacity: PIPE_DEFAULT_CAPACITY,
            readable: false,
            closed: false,
        };
        assert(data.buf@ =~= Seq::empty());
        (data, Pipe { direction: PipeEnd::Read }, Pipe { direction: PipeEnd::Write })
    }

    /// Opens an end once more.
    pub fn duplicate(&self, data: &mut PipeData) -> (p: Pipe)
        requires
            0 < ends_open(old(data)@, self.direction) < i32::MAX,
            pipe_inv(old(data)@),
        ensures
            p == *self,
            final(data)@ == (match self.direction {
                PipeEnd::Read => PipeModel {
                    read_cnt: (old(data)@.read_cnt + 1) as i32,
                    ..old(data)@
                },
                PipeEnd::Write => PipeModel {
                    write_cnt: (old(data)@.write_cnt + 1) as i32,
                    ..old(data)@
                },
            }),
            pipe_inv(final(data)@),
    {
        match self.direction {
            PipeEnd::Read => {
                data.read_cnt = data.read_cnt + 1;
            },
            PipeEnd::Write => {
                data.write_cnt = data.write_cnt + 1;
            },
        }
        Pipe { direction: self.direction }
    }

    /// Closes an end. Only when a whole side is gone is the other told.
    pub fn close(&self, data: &mut PipeData)
        requires
            0 < ends_open(old(data)@, self.direction),
            pipe_inv(old(data)@),
        ensures
            final(data)@ == after_close(old(data)@, self.direction),
            pipe_inv(final(data)@),
    {
        match self.direction {
            PipeEnd::Read => {
                data.read_cnt = data.read_cnt - 1;
            },
            PipeEnd::Write => {
                data.write_cnt = data.write_cnt - 1;
            },
        }
        if data.read_cnt == 0 || data.write_cnt == 0 {
            data.closed = true;
        }
    }

    pub fn is_read_end(&self) -> (r: bool)
        ensures
            r == (self.direction == PipeEnd::Read),
    {
        self.direction == PipeEnd::Read
    }

    /// What a readiness subscription on the pipe listens for.
    pub fn subscribe_readiness(&self, events: PollEvents) -> (m: BusMask)
        ensures
            m == bus_mask(events.bits),
    {
        poll_events_to_bus_mask(events)
    }

    pub fn capacity(&self, data: &PipeData) -> (n: usize)
        ensures
            n == data@.capacity,
    {
        data.capacity
    }

    pub fn set_capacity(&self, data: &mut PipeData, cap: usize)
        ensures
            final(data)@ == (PipeModel { capacity: cap, ..old(data)@ }),
    {
        data.capacity = cap;
    }

    /// Copies bytes without taking them, and says whether a writer is left. Nothing on the write
    /// end.
    pub fn peek_data(&self, data: &PipeData, len: usize) -> (r: Option<(Vec<u8>, bool)>)
        ensures
            peeked(data@, self.direction, len, r),
    {
        if self.direction != PipeEnd::Read {
            return None;
        }
        let n: usize = if data.buf.len() < len {
            data.buf.len()
        } else {
            len
        };
        let mut v: Vec<u8> = Vec::new();
        for i in 0..n
            invariant
                n <= data.buf@.len(),
                v@ == data.buf@.take(i as int),
        {
            v.push(data.buf[i]);
            assert(v@ =~= data.buf@.take(i + 1));
        }
        Some((v, data.write_cnt > 0))
    }

    pub fn can_read(&self, data: &PipeData) -> (r: bool)
        ensures
            r == end_status(data@, self.direction).read,
    {
        match self.direction {
            PipeEnd::Read => data.buf.len() > 0 || data.write_cnt == 0,
            PipeEnd::Write => false,
        }
    }

    pub fn can_write(&self, data: &PipeData) -> (r: bool)
        ensures
            r == end_status(data@, self.direction).write,
    {
        match self.direction {
            PipeEnd::Read => false,
            PipeEnd::Write => data.read_cnt > 0,
        }
    }

    /// Takes bytes from the pipe. Without any the reader waits, or sees the end once no writer is
    /// left. The write end gives nothing.
    pub fn read_at(&self, data: &mut PipeData, buf: &mut [u8]) -> (r: Result<usize, FsError>)
        requires
            pipe_inv(old(data)@),
        ensures
            pipe_inv(final(data)@),
            final(buf)@.len() == old(buf)@.len(),
            match r {
                Ok(n) => {
                    &&& !must_wait(old(data)@, self.direction, old(buf)@.len())
                    &&& n == taken(old(data)@, self.direction, old(buf)@.len())
                    &&& final(buf)@ == old(data)@.buf.take(n as int) + old(buf)@.skip(n as int)
                    &&& final(data)@ == after_read(old(data)@, self.direction, old(buf)@.len())
                },
                Err(e) => {
                    &&& e == FsError::Again
                    &&& must_wait(old(data)@, self.direction, old(buf)@.len())
                    &&& final(data)@ == old(data)@
                    &&& final(buf)@ == old(buf)@
                },
            },
    {
        assert(buf@ =~= data@.buf.take(0) + buf@.skip(0));
        if buf.len() == 0 {
            return Ok(0);
        }
        match self.direction {
            PipeEnd::Write => Ok(0),
            PipeEnd::Read => {
                if data.buf.len() == 0 && data.write_cnt > 0 {
                    return Err(FsError::Again);
                }
                let len: usize = if buf.len() < data.buf.len() {
                    buf.len()
                } else {
                    data.buf.len()
                };
                let mut n: usize = 0;
                assert(data@.buf.skip(0) =~= data@.buf);
                while n < len
                    invariant
                        n <= len,
                        len <= old(data)@.buf.len(),
                        len <= old(buf)@.len(),
                        buf@.len() == old(buf)@.len(),
                        data@ == (PipeModel { buf: old(data)@.buf.skip(n as int), ..old(data)@ }),
                        buf@ == old(data)@.buf.take(n as int) + old(buf)@.skip(n as int),
                    decreases len - n,
                {
                    match data.buf.pop_front() {
                        Some(b) => {
                            buf[n] = b;
                            n = n + 1;
                            assert(data@.buf =~= old(data)@.buf.skip(n as int));
                            assert(buf@ =~= old(data)@.buf.take(n as int) + old(buf)@.skip(
                                n as int,
                            ));
                        },
                        None => {},
                    }
                }
                if data.buf.len() == 0 {
                    data.readable = false;
                }
                Ok(len)
            },
        }
    }

    /// Adds bytes to the pipe and tells readers. The read end takes nothing.
    pub fn write_at(&self, data: &mut PipeData, buf: &[u8]) -> (n: usize)
        requires
            pipe_inv(old(data)@),
        ensures
            pipe_inv(final(data)@),
            n == (if self.direction == PipeEnd::Write {
                buf@.len()
            } else {
                0
            }),
            final(data)@ == after_write(old(data)@, self.direction, buf@),
    {
        match self.direction {
            PipeEnd::Read => 0,
            PipeEnd::Write => {
                assert(data@.buf =~= old(data)@.buf + buf@.take(0));
                for i in 0..buf.len()
                    invariant
                        data@ == (PipeModel {
                            buf: old(data)@.buf + buf@.take(i as int),
                            ..old(data)@
                        }),
                {
                    data.buf.push_back(buf[i]);
                    assert(data@.buf =~= old(data)@.buf + buf@.take(i + 1));
                }
                assert(buf@.take(buf@.len() as int) =~= buf@);
                data.readable = true;
                buf.len()
            },
        }
    }

    pub fn poll(&self, data: &PipeData) -> (s: PollStatus)
        ensures
            s == end_status(data@, self.direction),
    {
        PollStatus { read: self.can_read(data), write: self.can_write(data), error: false }
    }

    /// A wait for the end to become ready.
    pub fn async_poll(&self) -> (f: PipeFuture)
        ensures
            f == (PipeFuture { direction: self.direction, sub_id: None }),
    {
        PipeFuture { direction: self.direction, sub_id: None }
    }
}

/// The pipe after bytes were written into an end.
pub open spec fn after_write(m: PipeModel, end: PipeEnd, bytes: Seq<u8>) -> PipeModel {
    match end {
        PipeEnd::Write => PipeModel { buf: m.buf + bytes, readable: true, ..m },
        PipeEnd::Read => m,
    }
}

/// The pipe after an end was closed.
pub open spec fn after_close(m: PipeModel, end: PipeEnd) -> PipeModel {
    let r = if end == PipeEnd::Read {
        (m.read_cnt - 1) as i32
    } else {
        m.read_cnt
    };
    let w = if end == PipeEnd::Write {
        (m.write_cnt - 1) as i32
    } else {
        m.write_cnt
    };
    PipeModel { read_cnt: r, write_cnt: w, closed: m.closed || r == 0 || w == 0, ..m }
}


/// Whether a read has to wait.
pub open spec fn must_wait(m: PipeModel, end: PipeEnd, room: nat) -> bool {
    room > 0 && end == PipeEnd::Read && m.buf.len() == 0 && m.write_cnt > 0
}

/// How many bytes a read takes.
pub open spec fn taken(m: PipeModel, end: PipeEnd, room: nat) -> nat {
    if end == PipeEnd::Read {
        fewer(m.buf.len(), room)
    } else {
        0
    }
}

/// The pipe after a read that did not have to wait.
pub open spec fn after_read(m: PipeModel, end: PipeEnd, room: nat) -> PipeModel {
    if room == 0 || end == PipeEnd::Write {
        m
    } else {
        let rest = m.buf.skip(taken(m, end, room) as int);
        PipeModel {
            buf: rest,
            readable: if rest.len() == 0 {
                false
            } else {
                m.readable
            },
            ..m
        }
    }
}

/// What was written is read, in the order in which it was written: a write followed by a read
/// into a large enough buffer gives what was there and then what was written.
pub proof fn law_first_in_first_out(m: PipeModel, bytes: Seq<u8>, room: nat)
    requires
        room >= m.buf.len() + bytes.len(),
        m.buf.len() + bytes.len() > 0,
    ensures
        ({
            let w = PipeModel { buf: m.buf + bytes, readable: true, ..m };
            &&& !must_wait(w, PipeEnd::Read, room)
            &&& w.buf.take(taken(w, PipeEnd::Read, room) as int) == m.buf + bytes
            &&& after_read(w, PipeEnd::Read, room).buf.len() == 0
        }),
{
    let w = PipeModel { buf: m.buf + bytes, readable: true, ..m };
    assert(w.buf.take(w.buf.len() as int) =~= w.buf);
}

/// A pipe that announced the end of a side is ready on the other: no wait can go on for ever.
pub proof fn law_closed_means_ready(m: PipeModel)
    requires
        pipe_inv(m),
        m.closed,
        m.read_cnt > 0,
    ensures
        end_ready(m, PipeEnd::Read),
        forall|room: nat| #[trigger] must_wait(m, PipeEnd::Read, room) == false,
{
}

/// A wait that subscribed either is found ready and gives its subscription up, or still holds it
/// to give up when it ends; and it never subscribes a second time.
pub proof fn law_no_subscription_lost(f: PipeFuture, m: PipeModel, id: u64)
    requires
        f.sub_id == Some(id),
    ensures
        match wait_step(f, m).0 {
            PipeStep::Ready(_, left) => left == Some(id) && wait_step(f, m).1.sub_id is None,
            PipeStep::Parked => wait_step(f, m).1.sub_id == Some(id),
            PipeStep::Subscribe => false,
        },
{
}

/// Which end is ready for what: the reading end to be read where there are bytes or no writer is left,
/// the writing end to be written where there is a reader; neither for anything else.
pub proof fn law_pipe_readiness(m: PipeModel)
    ensures
        end_status(m, PipeEnd::Read).read <==> m.buf.len() > 0 || m.write_cnt == 0,
        !end_status(m, PipeEnd::Read).write,
        end_status(m, PipeEnd::Write).write <==> m.read_cnt > 0,
        !end_status(m, PipeEnd::Write).read,
        forall|e: PipeEnd| !(#[trigger] end_status(m, e)).error,
{
}

/// A read waits exactly where there is room for bytes, there are none, and some may still come.
pub proof fn law_read_waits(m: PipeModel, room: nat)
    ensures
        must_wait(m, PipeEnd::Read, room) <==> room > 0 && m.buf.len() == 0 && m.write_cnt > 0,
        !must_wait(m, PipeEnd::Write, room),
        m.write_cnt == 0 ==> !must_wait(m, PipeEnd::Read, room),
{
}

/// A read takes the front of what is queued, as much as it has room for, and leaves the rest in order;
/// two reads take what one with the room of both takes. The ends stay open, and the reader is told of
/// data as long as some is left.
pub proof fn law_reads_take_the_front(m: PipeModel, a: nat, b: nat)
    ensures
        ({
            let n = taken(m, PipeEnd::Read, a);
            let after = after_read(m, PipeEnd::Read, a);
            &&& n <= m.buf.len() && n <= a && (n == m.buf.len() || n == a)
            &&& m.buf.take(n as int) + after.buf == m.buf
            &&& n + taken(after, PipeEnd::Read, b) == taken(m, PipeEnd::Read, a + b)
            &&& after_read(after, PipeEnd::Read, b).buf == after_read(m, PipeEnd::Read, a + b).buf
            &&& after.read_cnt == m.read_cnt && after.write_cnt == m.write_cnt && after.closed
                == m.closed && after.capacity == m.capacity
            &&& a > 0 && after.buf.len() == 0 ==> !after.readable
            &&& after.buf.len() > 0 ==> after.readable == m.readable
            &&& taken(m, PipeEnd::Write, a) == 0 && after_read(m, PipeEnd::Write, a) == m
        }),
{
    let n = taken(m, PipeEnd::Read, a);
    let after = after_read(m, PipeEnd::Read, a);
    assert(m.buf.take(n as int) + m.buf.skip(n as int) =~= m.buf);
    assert(m.buf.skip(0) =~= m.buf);
    assert(after_read(after, PipeEnd::Read, b).buf =~= after_read(m, PipeEnd::Read, a + b).buf);
}

/// A write into the writing end queues its bytes behind those there and tells the reader; one into the
/// reading end does nothing. Two writes queue what one of both queues.
pub proof fn law_writes_go_behind(m: PipeModel, a: Seq<u8>, b: Seq<u8>)
    ensures
        ({
            let w = after_write(m, PipeEnd::Write, a);
            &&& w.buf.len() == m.buf.len() + a.len()
            &&& w.buf.take(m.buf.len() as int) == m.buf
            &&& w.buf.skip(m.buf.len() as int) == a
            &&& w.readable
            &&& w.read_cnt == m.read_cnt && w.write_cnt == m.write_cnt && w.closed == m.closed
                && w.capacity == m.capacity
            &&& after_write(w, PipeEnd::Write, b).buf == after_write(m, PipeEnd::Write, a + b).buf
            &&& after_write(m, PipeEnd::Read, a) == m
        }),
{
    let w = after_write(m, PipeEnd::Write, a);
    assert(w.buf.take(m.buf.len() as int) =~= m.buf);
    assert(w.buf.skip(m.buf.len() as int) =~= a);
    assert(m.buf + a + b =~= m.buf + (a + b));
}

/// Closing an end leaves what is queued; it counts the end down and not the other, and tells the other
/// side once the last of its kind is closed.
pub proof fn law_closing_an_end(m: PipeModel)
    requires
        m.read_cnt > 0,
        m.write_cnt > 0,
    ensures
        after_close(m, PipeEnd::Read).buf == m.buf,
        after_close(m, PipeEnd::Write).buf == m.buf,
        after_close(m, PipeEnd::Read).read_cnt == m.read_cnt - 1,
        after_close(m, PipeEnd::Read).write_cnt == m.write_cnt,
        after_close(m, PipeEnd::Write).write_cnt == m.write_cnt - 1,
        after_close(m, PipeEnd::Write).read_cnt == m.read_cnt,
        after_close(m, PipeEnd::Read).closed <==> m.closed || m.read_cnt == 1,
        after_close(m, PipeEnd::Write).closed <==> m.closed || m.write_cnt == 1,
        m.write_cnt == 1 ==> end_status(after_close(m, PipeEnd::Write), PipeEnd::Read).read,
        m.read_cnt == 1 ==> !end_status(after_close(m, PipeEnd::Read), PipeEnd::Write).write,
{
}

/// A wait ends exactly where its end is ready, with the end's status; otherwise it subscribes once.
pub proof fn law_wait_ends_when_ready(f: PipeFuture, m: PipeModel)
    ensures
        wait_step(f, m).0 matches PipeStep::Ready(s, _) ==> s == end_status(m, f.direction) && (s.read
            || s.write),
        wait_step(f, m).0 is Ready <==> end_status(m, f.direction).read || end_status(
            m,
            f.direction,
        ).write,
        wait_step(f, m).0 is Subscribe ==> f.sub_id is None,
        wait_step(f, m).0 is Parked ==> f.sub_id is Some,
        wait_step(f, m).1.direction == f.direction,
{
}

/// Only the read end can be looked at. A look shows the bytes that a read would take next, all of
/// them where they are no more than asked for, and tells whether a writer is left.
pub proof fn law_look_shows_front(m: PipeModel, end: PipeEnd, len: usize, r: Option<(Vec<u8>, bool)>)
    requires
        peeked(m, end, len, r),
    ensures
        r is Some <==> end == PipeEnd::Read,
        r matches Some((v, open)) ==> {
            &&& v@.len() <= len
            &&& v@.is_prefix_of(m.buf)
            &&& v@.len() == len || v@ == m.buf
            &&& open <==> m.write_cnt >= 1
        },
{
    if let Some((v, open)) = r {
        if m.buf.len() <= len {
            assert(v@ =~= m.buf);
        }
    }
}

/// Closing an end leaves one open end of that kind less, and as many of the other kind.
pub proof fn law_ends_counted(m: PipeModel, end: PipeEnd)
    requires
        0 < ends_open(m, end),
    ensures
        ends_open(after_close(m, end), end) == ends_open(m, end) - 1,
        end == PipeEnd::Read ==> after_close(m, end).write_cnt == m.write_cnt && after_close(
            m,
            end,
        ).read_cnt == m.read_cnt - 1,
        end == PipeEnd::Write ==> after_close(m, end).read_cnt == m.read_cnt && after_close(
            m,
            end,
        ).write_cnt == m.write_cnt - 1,
        after_close(m, end).buf == m.buf,
{
}

} // verus!
