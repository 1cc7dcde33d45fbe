use linux_object::epoll::{
    any_ready, interest, poll_status, scan, wait_step, Answer, Epoll, EpollEvent, WaitStep,
    EPOLL_CTL_ADD, EPOLL_CTL_DEL, EPOLL_CTL_MOD,
};
use linux_object::error::{FsError, LxError};
use linux_object::flags::{OpenFlags, PollEvents, POLL_IN};
use linux_object::path::FileDesc;
use linux_object::pipe::{Pipe, PipeData, PipeFuture, PipeStep, PIPE_DEFAULT_CAPACITY};
use linux_object::vfs::PollStatus;

fn status(read: bool, write: bool) -> PollStatus {
    PollStatus { read, write, error: false }
}

#[test]
fn epoll_event_matches_linux_uapi() {
    let e = EpollEvent { events: 0x0102_0304, data: 0x1112_1314_1516_1718 };
    let b = e.encode();
    assert_eq!(b.len(), 12);
    assert_eq!(b, vec![4, 3, 2, 1, 0x18, 0x17, 0x16, 0x15, 0x14, 0x13, 0x12, 0x11]);
}

/// Counts the subscriptions that are alive.
struct Bus {
    next: u64,
    alive: Vec<u64>,
}

impl Bus {
    fn new() -> Self {
        Bus { next: 1, alive: Vec::new() }
    }

    fn subscribe(&mut self) -> Option<u64> {
        let id = self.next;
        self.next += 1;
        self.alive.push(id);
        Some(id)
    }

    fn unsubscribe(&mut self, id: u64) {
        self.alive.retain(|x| *x != id);
    }

    fn get_callback_len(&self) -> usize {
        self.alive.len()
    }
}

/// Polls a wait until it is ready or parked; says whether it is parked.
fn poll_once(fut: &mut PipeFuture, data: &PipeData, bus: &mut Bus) -> bool {
    loop {
        match fut.poll(data) {
            PipeStep::Ready(_, left) => {
                if let Some(id) = left {
                    bus.unsubscribe(id);
                }
                return false;
            }
            PipeStep::Subscribe => {
                let id = bus.subscribe();
                fut.subscribed(id);
            }
            PipeStep::Parked => return true,
        }
    }
}

fn drop_wait(mut fut: PipeFuture, bus: &mut Bus) {
    if let Some(id) = fut.cancel() {
        bus.unsubscribe(id);
    }
}

#[test]
fn async_poll_drop_unsubscribes() {
    let (data, r, _w) = Pipe::create_pair();
    assert!(!r.can_read(&data));

    let mut bus = Bus::new();
    let mut fut = r.async_poll();
    assert!(poll_once(&mut fut, &data, &mut bus));
    let n = bus.get_callback_len();
    assert!(n >= 1, "Pending poll must park a waker");

    drop_wait(fut, &mut bus);
    assert_eq!(
        bus.get_callback_len(),
        n - 1,
        "Drop must unsubscribe the parked pipe waker"
    );
    assert!(!r.can_read(&data));
}

#[test]
fn async_poll_drop_soak_does_not_fill_bus() {
    let (data, r, _w) = Pipe::create_pair();
    let mut bus = Bus::new();

    for _ in 0..20_000 {
        let mut fut = r.async_poll();
        assert!(poll_once(&mut fut, &data, &mut bus));
        drop_wait(fut, &mut bus);
        assert_eq!(
            bus.get_callback_len(),
            0,
            "each Drop must clear the parked pipe waker"
        );
    }
}

#[test]
fn a_wait_that_is_ready_gives_its_subscription_up() {
    let (mut data, r, w) = Pipe::create_pair();
    let mut bus = Bus::new();
    let mut fut = r.async_poll();
    assert!(poll_once(&mut fut, &data, &mut bus));
    assert_eq!(w.write_at(&mut data, b"x"), 1);
    assert!(!poll_once(&mut fut, &data, &mut bus));
    assert_eq!(bus.get_callback_len(), 0);
    assert_eq!(fut.cancel(), None);
}

#[test]
fn a_pipe_keeps_the_order_of_bytes() {
    let (mut data, r, w) = Pipe::create_pair();
    assert_eq!(r.capacity(&data), PIPE_DEFAULT_CAPACITY);
    let mut buf = [0u8; 4];
    assert_eq!(r.read_at(&mut data, &mut buf), Err(FsError::Again));
    assert_eq!(w.write_at(&mut data, b"hello"), 5);
    assert_eq!(r.peek_data(&data, 3), Some((b"hel".to_vec(), true)));
    assert_eq!(r.read_at(&mut data, &mut buf), Ok(4));
    assert_eq!(&buf, b"hell");
    assert_eq!(r.read_at(&mut data, &mut buf), Ok(1));
    assert_eq!(buf[0], b'o');
    assert!(r.is_read_end() && !w.is_read_end());
}

#[test]
fn a_pipe_without_writers_is_at_its_end() {
    let (mut data, r, w) = Pipe::create_pair();
    let second = w.duplicate(&mut data);
    w.close(&mut data);
    let mut buf = [0u8; 4];
    assert_eq!(r.read_at(&mut data, &mut buf), Err(FsError::Again));
    second.close(&mut data);
    assert_eq!(r.read_at(&mut data, &mut buf), Ok(0));
    assert!(r.poll(&data).read);
}

#[test]
fn a_watch_is_added_once_and_removed_once() {
    let mut ep = Epoll::new(OpenFlags { bits: 0 });
    let ev = EpollEvent { events: 1, data: 9 };
    let fd = FileDesc(3);
    assert_eq!(ep.ctl(EPOLL_CTL_MOD, fd, ev, Some(1)), Err(LxError::ENOENT));
    assert_eq!(ep.ctl(EPOLL_CTL_ADD, fd, ev, Some(1)), Ok(0));
    assert_eq!(ep.ctl(EPOLL_CTL_ADD, fd, ev, Some(1)), Err(LxError::EEXIST));
    assert_eq!(ep.ctl(EPOLL_CTL_MOD, fd, ev, Some(1)), Ok(0));
    assert_eq!(ep.ctl(EPOLL_CTL_DEL, fd, ev, None), Ok(0));
    assert_eq!(ep.ctl(EPOLL_CTL_DEL, fd, ev, None), Err(LxError::ENOENT));
    assert_eq!(ep.ctl(77, fd, ev, Some(1)), Err(LxError::EINVAL));
}

#[test]
fn what_was_added_is_what_is_looked_at() {
    let mut ep = Epoll::new(OpenFlags { bits: 0x800 });
    let ev = |n: u64| EpollEvent { events: 1, data: n };
    assert_eq!(ep.ctl(EPOLL_CTL_ADD, FileDesc(9), ev(90), Some(5)), Ok(0));
    assert_eq!(ep.ctl(EPOLL_CTL_ADD, FileDesc(2), ev(20), Some(6)), Ok(0));
    assert_eq!(ep.ctl(EPOLL_CTL_ADD, FileDesc(4), ev(40), Some(7)), Ok(0));
    assert_eq!(ep.ctl(EPOLL_CTL_MOD, FileDesc(9), ev(91), Some(5)), Ok(0));
    let seen: Vec<(i32, u64, u64)> =
        ep.entries().iter().map(|(fd, w)| (*fd, w.event.data, w.file)).collect();
    assert_eq!(seen, vec![(2, 20, 6), (4, 40, 7), (9, 91, 5)]);
    let answers = [
        Answer::Status(status(true, false)),
        Answer::Pending,
        Answer::Status(status(true, true)),
    ];
    let got = scan(&ep.asked(&answers), 8).unwrap();
    assert_eq!(got.iter().map(|e| e.data).collect::<Vec<u64>>(), vec![20, 91]);
    let other = ep.dup();
    assert_eq!(ep.ctl(EPOLL_CTL_DEL, FileDesc(9), ev(0), None), Ok(0));
    assert_eq!(ep.entries().len(), 2);
    assert_eq!(other.entries().len(), 3);
    let idle = Ok(status(false, true));
    assert!(!ep.poll(&[idle, Err(LxError::EBADF)]).read);
    assert!(other.poll(&[idle, idle, Ok(status(true, false))]).read);
    assert_eq!(ep.flags(), OpenFlags { bits: 0x800 });
    assert_eq!(ep.set_flags(OpenFlags { bits: 0 }), Ok(()));
    assert_eq!(ep.flags(), OpenFlags { bits: 0x800 });
    assert_eq!((ep.read(), ep.write()), (Err(LxError::ENOSYS), Err(LxError::ENOSYS)));
}

#[test]
fn a_scan_delivers_no_more_than_asked_for() {
    let ev = |n: u64| EpollEvent { events: 1, data: n };
    let asked = [
        (ev(1), Answer::Status(status(true, false))),
        (ev(2), Answer::Pending),
        (ev(3), Answer::Status(status(false, true))),
        (ev(4), Answer::Status(status(true, true))),
        (ev(5), Answer::Status(status(true, true))),
    ];
    let got = scan(&asked, 2).unwrap();
    let data: Vec<u64> = got.iter().map(|e| e.data).collect();
    assert_eq!(data, vec![1, 4]);
    assert!(got.iter().all(|e| e.events == 1));
}

#[test]
fn a_wait_ends_with_events_or_with_its_time() {
    assert_eq!(wait_step(1, -1, 0), WaitStep::Deliver);
    assert_eq!(wait_step(0, -1, u64::MAX), WaitStep::Again);
    assert_eq!(wait_step(0, 0, 0), WaitStep::TimedOut);
    assert_eq!(wait_step(0, 5, 4_999_999), WaitStep::Again);
    assert_eq!(wait_step(0, 5, 5_000_000), WaitStep::TimedOut);
}

#[test]
fn a_set_is_readable_while_a_watch_is_ready() {
    let ev = EpollEvent { events: 1, data: 0 };
    assert!(!any_ready(&[(ev, Ok(status(false, true)))]));
    assert!(any_ready(&[(ev, Ok(status(true, false)))]));
    assert_eq!(poll_status(true).read, true);
    assert_eq!(interest(ev), PollEvents { bits: 1 });
}

#[test]
fn a_pipe_has_a_size_that_can_change() {
    let (mut data, r, _w) = Pipe::create_pair();
    r.set_capacity(&mut data, 10);
    assert_eq!(r.capacity(&data), 10);
    let m = r.subscribe_readiness(PollEvents { bits: POLL_IN });
    assert!(m.readable && !m.writable && m.closed);
}
