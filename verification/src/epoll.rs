//! Event polling on many descriptors.
use vstd::prelude::*;
use std::collections::BTreeMap;
use vstd::std_specs::iter::IteratorSpec;
use crate::bytes::{le32, le64, push_u32, push_u64};
use crate::error::LxError;
use crate::flags::{asks, OpenFlags, PollEvents, POLL_ALL, POLL_IN, POLL_OUT};
use crate::path::FileDesc;
use crate::vfs::PollStatus;

verus! {

broadcast use {vstd::std_specs::btree::group_btree_axioms, vstd::laws_cmp::group_laws_cmp};

/// An event: what is asked for or ready, and what the caller knows it by.
#[derive(Clone, Copy, PartialEq, Eq, Structural, Debug)]
pub struct EpollEvent {
    pub events: u32,
    pub data: u64,
}

impl EpollEvent {
    /// The event as the caller's memory holds it: twelve bytes, without padding.
    pub fn encode(&self) -> (v: Vec<u8>)
        ensures
            v@ == le32(self.events) + le64(self.data),
            v@.len() == 12,
    {
        let mut v: Vec<u8> = Vec::new();
        push_u32(&mut v, self.events);
        push_u64(&mut v, self.data);
        assert(v@ =~= le32(self.events) + le64(self.data));
        v
    }
}

/// A watched file: what is asked for, and the file itself, which stays watched when its
/// descriptor is closed.
#[derive(Clone, Copy, PartialEq, Eq, Structural, Debug)]
pub struct Watch {
    pub event: EpollEvent,
    pub file: u64,
}

/// The watched files, by descriptor.
pub struct Epoll {
    pub interest_list: BTreeMap<i32, Watch>,
    pub flags: OpenFlags,
}

pub const EPOLL_CTL_ADD: i32 = 1;

pub const EPOLL_CTL_DEL: i32 = 2;

pub const EPOLL_CTL_MOD: i32 = 3;

/// What a change of the watched files answers.
pub open spec fn ctl_result(
    m: Map<i32, Watch>,
    op: i32,
    fd: i32,
    file: Option<u64>,
) -> Result<usize, LxError> {
    if op == EPOLL_CTL_ADD {
        if m.contains_key(fd) {
            Err(LxError::EEXIST)
        } else if file is None {
            Err(LxError::EBADF)
        } else {
            Ok(0)
        }
    } else if op == EPOLL_CTL_DEL {
        if m.contains_key(fd) {
            Ok(0)
        } else {
            Err(LxError::ENOENT)
        }
    } else if op == EPOLL_CTL_MOD {
        if file is None {
            Err(LxError::EBADF)
        } else if !m.contains_key(fd) {
            Err(LxError::ENOENT)
        } else {
            Ok(0)
        }
    } else {
        Err(LxError::EINVAL)
    }
}

/// The watched files after a change.
pub open spec fn ctl_after(
    m: Map<i32, Watch>,
    op: i32,
    fd: i32,
    event: EpollEvent,
    file: Option<u64>,
) -> Map<i32, Watch> {
    if ctl_result(m, op, fd, file) is Err {
        m
    } else if op == EPOLL_CTL_DEL {
        m.remove(fd)
    } else {
        m.insert(fd, Watch { event, file: file->0 })
    }
}

/// What a file reports of what is asked for; errors always.
pub open spec fn ready_events(events: u32, s: PollStatus) -> u32 {
    let interest = (events as u16) & POLL_ALL;
    let a = if s.read && asks(interest, POLL_IN) {
        1u32
    } else {
        0u32
    };
    let b = if s.write && asks(interest, POLL_OUT) {
        a | 4u32
    } else {
        a
    };
    if s.error {
        b | 8u32
    } else {
        b
    }
}

/// What a file is asked for.
pub open spec fn interest_of(events: u32) -> u16 {
    (events as u16) & POLL_ALL
}

/// What is asked of a watched file.
pub fn interest(event: EpollEvent) -> (e: PollEvents)
    ensures
        e.bits == interest_of(event.events),
{
    #[verifier::truncate]
    let low: u16 = event.events as u16;
    PollEvents::from_bits_truncate(low)
}

fn ready_of(event: EpollEvent, s: PollStatus) -> (bits: u32)
    ensures
        bits == ready_events(event.events, s),
{
    let e = interest(event);
    let mut bits: u32 = 0;
    if s.read && e.contains(POLL_IN) {
        bits = 1;
    }
    if s.write && e.contains(POLL_OUT) {
        bits = bits | 4;
    }
    if s.error {
        bits = bits | 8;
    }
    bits
}

/// What asking a watched file gave.
#[derive(Clone, Copy, PartialEq, Eq, Structural, Debug)]
pub enum Answer {
    Status(PollStatus),
    /// Not ready; it will wake the caller.
    Pending,
    Failed(LxError),
}

/// The event of a file that is ready.
pub open spec fn event_of(a: (EpollEvent, Answer)) -> Option<EpollEvent> {
    match a.1 {
        Answer::Status(s) => if ready_events(a.0.events, s) != 0 {
            Some(EpollEvent { events: ready_events(a.0.events, s), data: a.0.data })
        } else {
            None
        },
        _ => None,
    }
}

/// The events of the first files that are ready.
pub open spec fn events_of(asked: Seq<(EpollEvent, Answer)>) -> Seq<EpollEvent>
    decreases asked.len(),
{
    if asked.len() == 0 {
        Seq::empty()
    } else {
        match event_of(asked.last()) {
            Some(e) => events_of(asked.drop_last()).push(e),
            None => events_of(asked.drop_last()),
        }
    }
}

/// How many files are looked at: up to the one that fills the caller's buffer, or that fails.
pub open spec fn looked_at(asked: Seq<(EpollEvent, Answer)>, max: nat, n: int) -> int
    decreases asked.len() - n,
{
    if n < 0 || n >= asked.len() {
        asked.len() as int
    } else if asked[n].1 is Failed {
        n + 1
    } else if event_of(asked[n]) is Some && events_of(asked.take(n + 1)).len() >= max {
        n + 1
    } else {
        looked_at(asked, max, n + 1)
    }
}

/// What one look at the watched files gives.
pub open spec fn scan_result(asked: Seq<(EpollEvent, Answer)>, max: nat) -> Result<
    Seq<EpollEvent>,
    LxError,
> {
    let seen = asked.take(looked_at(asked, max, 0));
    if seen.len() > 0 && seen.last().1 is Failed {
        Err(seen.last().1->Failed_0)
    } else {
        Ok(events_of(seen))
    }
}

proof fn lemma_looked(asked: Seq<(EpollEvent, Answer)>, max: nat, n: int)
    requires
        0 <= n <= asked.len(),
    ensures
        n <= looked_at(asked, max, n) <= asked.len(),
    decreases asked.len() - n,
{
    if n < asked.len() && !(asked[n].1 is Failed) && !(event_of(asked[n]) is Some && events_of(
        asked.take(n + 1),
    ).len() >= max) {
        lemma_looked(asked, max, n + 1);
    }
}

/// What a wait does after a look at the watched files.
#[derive(Clone, Copy, PartialEq, Eq, Structural, Debug)]
pub enum WaitStep {
    /// Hand the events over.
    Deliver,
    /// The time is up: hand nothing over.
    TimedOut,
    /// Wait, then look again.
    Again,
}

/// Whether `v` lists the watched files, each once, in ascending order of descriptor.
pub open spec fn listed(m: Map<i32, Watch>, v: Seq<(i32, Watch)>) -> bool {
    &&& forall|i: int, j: int| 0 <= i < j < v.len() ==> (#[trigger] v[i]).0 < (#[trigger] v[j]).0
    &&& forall|i: int|
        0 <= i < v.len() ==> m.contains_key((#[trigger] v[i]).0) && m[v[i].0] == v[i].1
    &&& forall|fd: i32| #[trigger] m.contains_key(fd) ==> v.contains((fd, m[fd]))
}

/// What is asked of the listed files, each with its answer.
pub open spec fn paired<T>(v: Seq<(i32, Watch)>, answers: Seq<T>) -> Seq<(EpollEvent, T)> {
    Seq::new(v.len(), |i: int| (v[i].1.event, answers[i]))
}

/// There is one list of the watched files.
pub proof fn law_one_list(m: Map<i32, Watch>, a: Seq<(i32, Watch)>, b: Seq<(i32, Watch)>)
    requires
        listed(m, a),
        listed(m, b),
    ensures
        a == b,
    decreases a.len(),
{
    if a.len() > 0 {
        let n = a.len() - 1;
        assert(m.contains_key(a[n].0));
        assert(b.contains((a[n].0, m[a[n].0])));
        let k = b.len() - 1;
        assert(m.contains_key(b[k].0));
        assert(a.contains((b[k].0, m[b[k].0])));
        let x = a.last();
        let y = b.last();
        let i = choose|i: int| 0 <= i < b.len() && b[i] == (x.0, m[x.0]);
        let j = choose|j: int| 0 <= j < a.len() && a[j] == (y.0, m[y.0]);
        assert(x.0 == y.0) by {
            if i < k {
                assert(b[i].0 < b[k].0);
            }
            if j < n {
                assert(a[j].0 < a[n].0);
            }
        }
        let left = m.remove(x.0);
        lemma_listed_front(m, a);
        lemma_listed_front(m, b);
        law_one_list(left, a.drop_last(), b.drop_last());
        assert(a =~= a.drop_last().push(x));
        assert(b =~= b.drop_last().push(y));
    } else {
        if b.len() > 0 {
            assert(m.contains_key(b[0].0));
        }
        assert(a =~= b);
    }
}

proof fn lemma_listed_front(m: Map<i32, Watch>, v: Seq<(i32, Watch)>)
    requires
        listed(m, v),
        v.len() > 0,
    ensures
        listed(m.remove(v.last().0), v.drop_last()),
{
    let x = v.last();
    let left = m.remove(x.0);
    let front = v.drop_last();
    assert(m.contains_key(v[v.len() - 1].0));
    assert forall|i: int| 0 <= i < front.len() implies left.contains_key((#[trigger] front[i]).0)
        && left[front[i].0] == front[i].1 by {
        assert(front[i] == v[i]);
        assert(v[i].0 < v[v.len() - 1].0);
    }
    assert forall|fd: i32| #[trigger] left.contains_key(fd) implies front.contains(
        (fd, left[fd]),
    ) by {
        assert(v.contains((fd, m[fd])));
        let k = choose|k: int| 0 <= k < v.len() && v[k] == (fd, m[fd]);
        assert(k < v.len() - 1);
        assert(front[k] == (fd, left[fd]));
    }
}

impl Epoll {
    pub fn new(flags: OpenFlags) -> (e: Self)
        ensures
            e.interest_list@ == Map::<i32, Watch>::empty(),
            e.flags == flags,
    {
        Epoll { interest_list: BTreeMap::new(), flags }
    }

    pub fn flags(&self) -> (f: OpenFlags)
        ensures
            f == self.flags,
    {
        self.flags
    }

    /// The flags stay what they were.
    pub fn set_flags(&mut self, _f: OpenFlags) -> (r: Result<(), LxError>)
        ensures
            r is Ok,
            *final(self) == *old(self),
    {
        Ok(())
    }

    /// Nothing is read from a descriptor that only waits.
    pub fn read(&self) -> (r: Result<usize, LxError>)
        ensures
            r == Err::<usize, LxError>(LxError::ENOSYS),
    {
        Err(LxError::ENOSYS)
    }

    /// Nothing is written to a descriptor that only waits.
    pub fn write(&self) -> (r: Result<usize, LxError>)
        ensures
            r == Err::<usize, LxError>(LxError::ENOSYS),
    {
        Err(LxError::ENOSYS)
    }

    /// Another descriptor that watches the same files from now on by itself.
    pub fn dup(&self) -> (e: Epoll)
        ensures
            e.interest_list@ == self.interest_list@,
            e.flags == self.flags,
    {
        Epoll { interest_list: self.interest_list.clone(), flags: self.flags }
    }

    /// The watched files, in ascending order of descriptor.
    pub fn entries(&self) -> (v: Vec<(i32, Watch)>)
        ensures
            listed(self.interest_list@, v@),
            v@.len() == self.interest_list@.len(),
    {
        let mut v: Vec<(i32, Watch)> = Vec::new();
        let it0 = self.interest_list.iter();
        let ghost all = it0.remaining();
        let ghost keys = all.map_values(|kv: (&i32, &Watch)| *kv.0);
        assert forall|i: int, j: int| 0 <= i < j < all.len() implies *(#[trigger] all[i]).0 < *(
        #[trigger] all[j]).0 by {
            assert(vstd::std_specs::btree::increasing_seq(keys));
            assert(keys[i] == *all[i].0 && keys[j] == *all[j].0);
            assert(vstd::std_specs::cmp::OrdSpec::cmp_spec(&keys[i], &keys[j]) is Less);
        }
        for kv in it: it0
            invariant
                it.seq() == all,
                v@.len() == it.index(),
                forall|i: int|
                    0 <= i < v@.len() ==> #[trigger] v@[i] == (*all[i].0, *all[i].1),
        {
            v.push((*kv.0, *kv.1));
        }
        proof {
            let m = self.interest_list@;
            assert forall|fd: i32| #[trigger] m.contains_key(fd) implies v@.contains(
                (fd, m[fd]),
            ) by {
                assert(all.contains((&fd, &m[fd])));
                let k = choose|k: int| 0 <= k < all.len() && all[k] == (&fd, &m[fd]);
                assert(v@[k] == (fd, m[fd]));
            }
            assert forall|i: int| 0 <= i < v@.len() implies m.contains_key((#[trigger] v@[i]).0)
                && m[v@[i].0] == v@[i].1 by {
                assert(m.contains_key(*all[i].0));
            }
        }
        v
    }

    /// What is asked of the watched files, with the answer that each gave, in ascending order of
    /// descriptor: what one look at them goes through.
    pub fn asked(&self, answers: &[Answer]) -> (r: Vec<(EpollEvent, Answer)>)
        requires
            answers@.len() == self.interest_list@.len(),
        ensures
            forall|v: Seq<(i32, Watch)>|
                #[trigger] listed(self.interest_list@, v) ==> r@ == paired(v, answers@),
    {
        let entries = self.entries();
        let mut r: Vec<(EpollEvent, Answer)> = Vec::new();
        for i in 0..entries.len()
            invariant
                r@.len() == i,
                entries@.len() == answers@.len(),
                forall|k: int|
                    0 <= k < i ==> #[trigger] r@[k] == (entries@[k].1.event, answers@[k]),
        {
            r.push((entries[i].1.event, answers[i]));
        }
        proof {
            assert(r@ =~= paired(entries@, answers@));
            assert forall|v: Seq<(i32, Watch)>| #[trigger] listed(self.interest_list@, v)
                implies r@ == paired(v, answers@) by {
                law_one_list(self.interest_list@, entries@, v);
            }
        }
        r
    }

    /// The status of the descriptor itself, by those of the watched files in ascending order of
    /// descriptor: readable where any of them is ready, never writable.
    pub fn poll(&self, statuses: &[Result<PollStatus, LxError>]) -> (s: PollStatus)
        requires
            statuses@.len() == self.interest_list@.len(),
        ensures
            forall|v: Seq<(i32, Watch)>|
                #[trigger] listed(self.interest_list@, v) ==> s == (PollStatus {
                    read: some_ready(paired(v, statuses@)),
                    write: false,
                    error: false,
                }),
    {
        let entries = self.entries();
        let mut r: Vec<(EpollEvent, Result<PollStatus, LxError>)> = Vec::new();
        for i in 0..entries.len()
            invariant
                r@.len() == i,
                entries@.len() == statuses@.len(),
                forall|k: int|
                    0 <= k < i ==> #[trigger] r@[k] == (entries@[k].1.event, statuses@[k]),
        {
            r.push((entries[i].1.event, statuses[i]));
        }
        let ready: bool = any_ready(r.as_slice());
        proof {
            assert(r@ =~= paired(entries@, statuses@));
            assert forall|v: Seq<(i32, Watch)>| #[trigger] listed(self.interest_list@, v)
                implies paired(v, statuses@) == r@ by {
                law_one_list(self.interest_list@, entries@, v);
            }
        }
        poll_status(ready)
    }

    /// Adds, changes or removes a watched file.
    pub fn ctl(&mut self, op: i32, fd: FileDesc, event: EpollEvent, file: Option<u64>) -> (r: Result<
        usize,
        LxError,
    >)
        ensures
            r == ctl_result(old(self).interest_list@, op, fd.0, file),
            final(self).interest_list@ == ctl_after(
                old(self).interest_list@,
                op,
                fd.0,
                event,
                file,
            ),
    {
        if op == EPOLL_CTL_ADD {
            if self.interest_list.contains_key(&fd.0) {
                return Err(LxError::EEXIST);
            }
            match file {
                None => Err(LxError::EBADF),
                Some(f) => {
                    let _ = self.interest_list.insert(fd.0, Watch { event, file: f });
                    Ok(0)
                },
            }
        } else if op == EPOLL_CTL_DEL {
            if self.interest_list.contains_key(&fd.0) {
                let _ = self.interest_list.remove(&fd.0);
                Ok(0)
            } else {
                Err(LxError::ENOENT)
            }
        } else if op == EPOLL_CTL_MOD {
            match file {
                None => Err(LxError::EBADF),
                Some(f) => {
                    if !self.interest_list.contains_key(&fd.0) {
                        return Err(LxError::ENOENT);
                    }
                    let _ = self.interest_list.insert(fd.0, Watch { event, file: f });
                    Ok(0)
                },
            }
        } else {
            Err(LxError::EINVAL)
        }
    }
}

/// Whether any file is ready for what is asked of it; a file that fails is not.
pub open spec fn some_ready(asked: Seq<(EpollEvent, Result<PollStatus, LxError>)>) -> bool {
    exists|i: int|
        0 <= i < asked.len() && (#[trigger] asked[i]).1 is Ok && ready_events(
            asked[i].0.events,
            asked[i].1->Ok_0,
        ) != 0
}

pub fn any_ready(asked: &[(EpollEvent, Result<PollStatus, LxError>)]) -> (r: bool)
    ensures
        r == some_ready(asked@),
{
    for i in 0..asked.len()
        invariant
            forall|k: int|
                0 <= k < i ==> !((#[trigger] asked@[k]).1 is Ok && ready_events(
                    asked@[k].0.events,
                    asked@[k].1->Ok_0,
                ) != 0),
    {
        match asked[i].1 {
            Ok(s) => {
                if ready_of(asked[i].0, s) != 0 {
                    assert(asked@[i as int].1 is Ok);
                    return true;
                }
            },
            Err(_) => {},
        }
    }
    false
}

/// An epoll descriptor is readable where any watched file is ready, and never writable.
pub fn poll_status(ready: bool) -> (s: PollStatus)
    ensures
        s == (PollStatus { read: ready, write: false, error: false }),
{
    PollStatus { read: ready, write: false, error: false }
}

/// One look at the watched files, in order: the events of those that are ready, until the caller's
/// buffer is full. A file that fails ends it with its error.
pub fn scan(asked: &[(EpollEvent, Answer)], maxevents: usize) -> (r: Result<Vec<EpollEvent>, LxError>)
    ensures
        match r {
            Ok(v) => scan_result(asked@, maxevents as nat) == Ok::<Seq<EpollEvent>, LxError>(v@),
            Err(e) => scan_result(asked@, maxevents as nat) == Err::<Seq<EpollEvent>, LxError>(e),
        },
{
    let mut v: Vec<EpollEvent> = Vec::new();
    let ghost max = maxevents as nat;
    let mut i: usize = 0;
    assert(asked@.take(0) =~= Seq::empty());
    while i < asked.len()
        invariant
            i <= asked@.len(),
            max == maxevents,
            v@ == events_of(asked@.take(i as int)),
            looked_at(asked@, max, 0) == looked_at(asked@, max, i as int),
            i > 0 ==> !(asked@[i - 1].1 is Failed),
        decreases asked@.len() - i,
    {
        let ghost next = asked@.take(i + 1);
        assert(next.drop_last() =~= asked@.take(i as int));
        assert(next.last() == asked@[i as int]);
        match asked[i].1 {
            Answer::Failed(e) => {
                return Err(e);
            },
            Answer::Pending => {},
            Answer::Status(s) => {
                let bits: u32 = ready_of(asked[i].0, s);
                if bits != 0 {
                    v.push(EpollEvent { events: bits, data: asked[i].0.data });
                    if v.len() >= maxevents {
                        return Ok(v);
                    }
                }
            },
        }
        i = i + 1;
    }
    assert(asked@.take(asked@.len() as int) =~= asked@);
    Ok(v)
}

/// How a wait goes on after `elapsed_ns`, with `found` events to report.
pub open spec fn wait_goes(found: usize, timeout_msecs: i64, elapsed_ns: u64) -> WaitStep {
    if found > 0 {
        WaitStep::Deliver
    } else if timeout_msecs >= 0 && elapsed_ns >= timeout_msecs * 1_000_000 {
        WaitStep::TimedOut
    } else {
        WaitStep::Again
    }
}

/// Decides how a wait goes on. A negative time means no end; `elapsed_ns` is how long the wait
/// has lasted.
pub fn wait_step(found: usize, timeout_msecs: i64, elapsed_ns: u64) -> (s: WaitStep)
    ensures
        s == wait_goes(found, timeout_msecs, elapsed_ns),
{
    if found > 0 {
        return WaitStep::Deliver;
    }
    if timeout_msecs >= 0 {
        let limit: u128 = timeout_msecs as u128 * 1_000_000;
        if elapsed_ns as u128 >= limit {
            return WaitStep::TimedOut;
        }
    }
    WaitStep::Again
}

proof fn lemma_not_over(asked: Seq<(EpollEvent, Answer)>, max: nat, n: int)
    requires
        0 <= n <= asked.len(),
        max > 0,
        events_of(asked.take(n)).len() < max || n == 0,
    ensures
        events_of(asked.take(looked_at(asked, max, n))).len() <= max,
    decreases asked.len() - n,
{
    assert(asked.take(0) =~= Seq::empty());
    if n < asked.len() {
        assert(asked.take(n + 1).drop_last() =~= asked.take(n));
        if !(asked[n].1 is Failed) && !(event_of(asked[n]) is Some && events_of(
            asked.take(n + 1),
        ).len() >= max) {
            lemma_not_over(asked, max, n + 1);
        }
    }
}

/// A wait never hands over more events than the caller has room for.
pub proof fn law_never_more_than_asked(asked: Seq<(EpollEvent, Answer)>, max: nat)
    requires
        max > 0,
    ensures
        scan_result(asked, max) matches Ok(v) ==> v.len() <= max,
{
    lemma_looked(asked, max, 0);
    lemma_not_over(asked, max, 0);
}

/// A descriptor that was removed is not watched, and one that was added is, until it is removed.
pub proof fn law_add_then_remove(m: Map<i32, Watch>, fd: i32, event: EpollEvent, file: u64)
    requires
        !m.contains_key(fd),
    ensures
        ctl_result(m, EPOLL_CTL_ADD, fd, Some(file)) is Ok,
        ctl_after(m, EPOLL_CTL_ADD, fd, event, Some(file)).contains_key(fd),
        ctl_after(
            ctl_after(m, EPOLL_CTL_ADD, fd, event, Some(file)),
            EPOLL_CTL_DEL,
            fd,
            event,
            None,
        ) == m,
{
    assert(ctl_after(
        ctl_after(m, EPOLL_CTL_ADD, fd, event, Some(file)),
        EPOLL_CTL_DEL,
        fd,
        event,
        None,
    ) =~= m);
}

/// The bits that are reported: readable exactly where the file can be read and that is asked for,
/// writable exactly where it can be written and that is asked for, an error exactly where there is one,
/// asked for or not. None of them depends on the others, and there is no other bit.
pub proof fn law_reported_bits(events: u32, s: PollStatus)
    ensures
        ready_events(events, s) & 1 != 0 <==> s.read && events & 1 != 0,
        ready_events(events, s) & 4 != 0 <==> s.write && events & 4 != 0,
        ready_events(events, s) & 8 != 0 <==> s.error,
        ready_events(events, s) & !13u32 == 0,
        ready_events(events, s) == 0 <==> !(s.read && events & 1 != 0) && !(s.write && events & 4
            != 0) && !s.error,
{
    let interest = (events as u16) & POLL_ALL;
    assert(((events as u16) & 0x3du16) & 1u16 == 1u16 <==> events & 1 != 0) by (bit_vector);
    assert(((events as u16) & 0x3du16) & 4u16 == 4u16 <==> events & 4 != 0) by (bit_vector);
    assert(forall|a: u32|
        (a == 0 || a == 1) ==> (a | 4u32) & 1 == a & 1 && #[trigger] (a | 4u32) != 0 && (a | 4u32) & 4
            == 4 && (a | 4u32) & 8 == 0 && (a | 4u32) & !13u32 == 0 && (a | 4u32) <= 5) by (bit_vector);
    assert(forall|b: u32|
        b <= 5 && b & !5u32 == 0 ==> #[trigger] (b | 8u32) & 1 == b & 1 && (b | 8u32) & 4 == b & 4 && (b
            | 8u32) & 8 == 8 && (b | 8u32) & !13u32 == 0 && (b | 8u32) != 0) by (bit_vector);
    assert(0u32 & 1 == 0 && 0u32 & 4 == 0 && 0u32 & 8 == 0 && 0u32 & !13u32 == 0 && 0u32 & !5u32 == 0
        && 1u32 & 1 == 1 && 1u32 & 4 == 0 && 1u32 & 8 == 0 && 1u32 & !13u32 == 0 && 1u32 & !5u32 == 0
        && (1u32 | 4u32) & !5u32 == 0 && (0u32 | 4u32) & !5u32 == 0) by (bit_vector);
}

proof fn lemma_ready_is_event(a: (EpollEvent, Answer), s: PollStatus)
    requires
        a.1 == Answer::Status(s),
        (s.read && a.0.events & 1 != 0) || (s.write && a.0.events & 4 != 0) || s.error,
    ensures
        event_of(a) matches Some(e) && e.data == a.0.data && e.events == ready_events(a.0.events, s),
{
    law_reported_bits(a.0.events, s);
}

proof fn lemma_events_contain(asked: Seq<(EpollEvent, Answer)>, i: int)
    requires
        0 <= i < asked.len(),
        event_of(asked[i]) is Some,
    ensures
        events_of(asked).contains(event_of(asked[i])->0),
    decreases asked.len(),
{
    let front = asked.drop_last();
    if i < front.len() {
        lemma_events_contain(front, i);
        let v = events_of(front);
        let k = choose|k: int| 0 <= k < v.len() && v[k] == event_of(asked[i])->0;
        assert(events_of(asked)[k] == v[k]);
    } else {
        let v = events_of(asked);
        assert(v[v.len() - 1] == event_of(asked[i])->0);
    }
}

proof fn lemma_events_from(asked: Seq<(EpollEvent, Answer)>, k: int)
    requires
        0 <= k < events_of(asked).len(),
    ensures
        exists|i: int|
            0 <= i < asked.len() && event_of(#[trigger] asked[i]) == Some(events_of(asked)[k]),
    decreases asked.len(),
{
    let front = asked.drop_last();
    if k < events_of(front).len() {
        lemma_events_from(front, k);
        let i = choose|i: int|
            0 <= i < front.len() && event_of(#[trigger] front[i]) == Some(events_of(front)[k]);
        assert(asked[i] == front[i]);
    } else {
        assert(event_of(asked[asked.len() - 1]) == Some(events_of(asked)[k]));
    }
}

proof fn lemma_looked_all(asked: Seq<(EpollEvent, Answer)>, max: nat, n: int)
    requires
        0 <= n <= asked.len(),
    ensures
        ({
            let end = looked_at(asked, max, n);
            &&& end < asked.len() ==> end > n && (asked[end - 1].1 is Failed || events_of(
                asked.take(end),
            ).len() >= max)
            &&& forall|i: int| n <= i < end - 1 ==> !((#[trigger] asked[i]).1 is Failed)
        }),
    decreases asked.len() - n,
{
    lemma_looked(asked, max, n);
    if n < asked.len() && !(asked[n].1 is Failed) && !(event_of(asked[n]) is Some && events_of(
        asked.take(n + 1),
    ).len() >= max) {
        lemma_looked_all(asked, max, n + 1);
        lemma_looked(asked, max, n + 1);
    }
}

/// A look with room left over delivers every watched file that can do what is asked of it, or has an
/// error, under the word that it was watched with; and delivers nothing else.
pub proof fn law_ready_files_delivered(
    asked: Seq<(EpollEvent, Answer)>,
    max: nat,
    i: int,
    s: PollStatus,
)
    requires
        0 <= i < asked.len(),
        asked[i].1 == Answer::Status(s),
        (s.read && asked[i].0.events & 1 != 0) || (s.write && asked[i].0.events & 4 != 0) || s.error,
        scan_result(asked, max) matches Ok(v) && v.len() < max,
    ensures
        scan_result(asked, max)->Ok_0.contains(
            EpollEvent { events: ready_events(asked[i].0.events, s), data: asked[i].0.data },
        ),
{
    lemma_looked(asked, max, 0);
    lemma_looked_all(asked, max, 0);
    let end = looked_at(asked, max, 0);
    assert(asked.take(end).last() == asked[end - 1]);
    assert(end == asked.len());
    assert(asked.take(end) =~= asked);
    lemma_ready_is_event(asked[i], s);
    lemma_events_contain(asked, i);
}

/// Whatever is delivered is a watched file that is ready: the word is the one that it was watched
/// with, and the bits are those of what it can do and was asked for.
pub proof fn law_delivered_files_ready(asked: Seq<(EpollEvent, Answer)>, max: nat, k: int)
    requires
        scan_result(asked, max) matches Ok(v) && 0 <= k < v.len(),
    ensures
        exists|i: int|
            0 <= i < asked.len() && ((#[trigger] asked[i]).1 matches Answer::Status(s) && {
                let e = scan_result(asked, max)->Ok_0[k];
                &&& e.data == asked[i].0.data
                &&& e.events & 1 != 0 <==> s.read && asked[i].0.events & 1 != 0
                &&& e.events & 4 != 0 <==> s.write && asked[i].0.events & 4 != 0
                &&& e.events & 8 != 0 <==> s.error
                &&& e.events != 0
            }),
{
    lemma_looked(asked, max, 0);
    let seen = asked.take(looked_at(asked, max, 0));
    lemma_events_from(seen, k);
    let i = choose|i: int|
        0 <= i < seen.len() && event_of(#[trigger] seen[i]) == Some(events_of(seen)[k]);
    assert(asked[i] == seen[i]);
    if let Answer::Status(s) = asked[i].1 {
        law_reported_bits(asked[i].0.events, s);
    }
}

/// A file that fails fails the look, with its error, unless enough was ready before it; without one
/// the look succeeds.
pub proof fn law_failure_reported(asked: Seq<(EpollEvent, Answer)>, max: nat, i: int)
    requires
        0 <= i < asked.len(),
        asked[i].1 is Failed,
        forall|k: int| 0 <= k < i ==> !((#[trigger] asked[k]).1 is Failed),
    ensures
        scan_result(asked, max) matches Err(e) ==> e == asked[i].1->Failed_0,
        scan_result(asked, max) matches Ok(v) ==> v.len() >= max,
{
    lemma_looked(asked, max, 0);
    lemma_looked_all(asked, max, 0);
    let end = looked_at(asked, max, 0);
    let seen = asked.take(end);
    if end > 0 {
        assert(seen.last() == asked[end - 1]);
    }
    if end == asked.len() {
        if i < end - 1 {
            assert(!(asked[i].1 is Failed));
        }
    }
    if end - 1 > i {
        assert(!(asked[i].1 is Failed));
    }
}

/// Without a file that fails, the look does not fail.
pub proof fn law_no_failure_no_error(asked: Seq<(EpollEvent, Answer)>, max: nat)
    requires
        forall|k: int| 0 <= k < asked.len() ==> !((#[trigger] asked[k]).1 is Failed),
    ensures
        scan_result(asked, max) is Ok,
{
    lemma_looked(asked, max, 0);
    let end = looked_at(asked, max, 0);
    if end > 0 {
        assert(asked.take(end).last() == asked[end - 1]);
    }
}

/// The descriptor itself is ready exactly where some watched file can do what is asked of it, or has
/// an error.
pub proof fn law_nested_readiness(asked: Seq<(EpollEvent, Result<PollStatus, LxError>)>)
    ensures
        some_ready(asked) <==> exists|i: int|
            0 <= i < asked.len() && ((#[trigger] asked[i]).1 matches Ok(s) && ((s.read
                && asked[i].0.events & 1 != 0) || (s.write && asked[i].0.events & 4 != 0)
                || s.error)),
{
    assert forall|i: int| 0 <= i < asked.len() && (#[trigger] asked[i]).1 is Ok implies (
    ready_events(asked[i].0.events, asked[i].1->Ok_0) != 0 <==> ((asked[i].1->Ok_0.read
        && asked[i].0.events & 1 != 0) || (asked[i].1->Ok_0.write && asked[i].0.events & 4 != 0)
        || asked[i].1->Ok_0.error)) by {
        law_reported_bits(asked[i].0.events, asked[i].1->Ok_0);
    }
}

/// What a change of the watched files does: adding a new one watches it, changing one that is there
/// replaces what it is watched for, removing one ends it, any other change is refused and leaves them
/// alone; no other descriptor is touched.
pub proof fn law_changes_of_watches(
    m: Map<i32, Watch>,
    op: i32,
    fd: i32,
    event: EpollEvent,
    file: Option<u64>,
    other: i32,
)
    requires
        other != fd,
    ensures
        ({
            let after = ctl_after(m, op, fd, event, file);
            let r = ctl_result(m, op, fd, file);
            &&& after.contains_key(other) == m.contains_key(other)
            &&& m.contains_key(other) ==> after[other] == m[other]
            &&& r is Err ==> after == m
            &&& r is Ok <==> (op == 1 && !m.contains_key(fd) && file is Some) || (op == 2
                && m.contains_key(fd)) || (op == 3 && m.contains_key(fd) && file is Some)
            &&& r is Ok && op == 2 ==> !after.contains_key(fd)
            &&& r is Ok && op != 2 ==> after.contains_key(fd) && after[fd] == (Watch {
                event,
                file: file->0,
            })
            &&& op == 1 && m.contains_key(fd) ==> r == Err::<usize, LxError>(LxError::EEXIST)
            &&& op == 2 && r is Err ==> r == Err::<usize, LxError>(LxError::ENOENT)
            &&& op == 3 && file is Some && r is Err ==> r == Err::<usize, LxError>(LxError::ENOENT)
            &&& (op == 3 || op == 1) && file is None && !m.contains_key(fd) ==> r == Err::<
                usize,
                LxError,
            >(LxError::EBADF)
            &&& op < 1 || op > 3 ==> r == Err::<usize, LxError>(LxError::EINVAL)
        }),
{
}

/// A wait ends at once where anything was found. With nothing found it ends by its time exactly once
/// that many milliseconds have passed, a time of zero at the first look; a negative time never ends
/// it. Once it is over it stays over.
pub proof fn law_wait_ends(found: usize, timeout_msecs: i64, elapsed_ns: u64, later_ns: u64)
    ensures
        wait_goes(found, timeout_msecs, elapsed_ns) is Deliver <==> found != 0,
        timeout_msecs < 0 ==> !(wait_goes(found, timeout_msecs, elapsed_ns) is TimedOut),
        timeout_msecs == 0 ==> !(wait_goes(found, timeout_msecs, elapsed_ns) is Again),
        timeout_msecs >= 0 && found == 0 ==> (wait_goes(found, timeout_msecs, elapsed_ns) is TimedOut
            <==> elapsed_ns / 1_000_000 >= timeout_msecs),
        later_ns >= elapsed_ns && wait_goes(0, timeout_msecs, elapsed_ns) is TimedOut ==> wait_goes(
            0,
            timeout_msecs,
            later_ns,
        ) is TimedOut,
{
}

/// A watch is interested in what it was set up for, as far as there is such a thing to be ready for:
/// each of these bits is kept and no other is.
pub proof fn law_interest_kept(events: u32)
    ensures
        interest_of(events) & 0x1 != 0 <==> events & 0x1 != 0,
        interest_of(events) & 0x4 != 0 <==> events & 0x4 != 0,
        interest_of(events) & 0x8 != 0 <==> events & 0x8 != 0,
        interest_of(events) & 0x10 != 0 <==> events & 0x10 != 0,
        interest_of(events) & 0x20 != 0 <==> events & 0x20 != 0,
        interest_of(events) & !0x3d == 0,
{
    let e = events as u16;
    assert(((e & 0x3d) & 0x1 != 0 <==> events & 0x1 != 0) && ((e & 0x3d) & 0x4 != 0 <==> events & 0x4
        != 0) && ((e & 0x3d) & 0x8 != 0 <==> events & 0x8 != 0) && ((e & 0x3d) & 0x10 != 0 <==> events
        & 0x10 != 0) && ((e & 0x3d) & 0x20 != 0 <==> events & 0x20 != 0) && (e & 0x3d) & !0x3du16
        == 0) by (bit_vector)
        requires
            e == events as u16,
    ;
}

} // verus!
