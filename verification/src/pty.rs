//! Pseudo-terminals: a pair of byte queues with a line discipline between them.
use vstd::prelude::*;
use std::collections::{BTreeMap, VecDeque};
use crate::error::FsError;
use crate::ioctl::{
    Termios, TCFLSH, TCGETS, TCSETS, TCSETSF, TCSETSW, TIOCGPGRP, TIOCGPTN, TIOCGWINSZ, TIOCNOTTY,
    TIOCSCTTY, TIOCSPGRP, TIOCSPTLCK, TIOCSWINSZ,
};
use crate::text::{chars_of, parse_u32, parsed};
use crate::vfs::{bare_node, node_metadata, FileType, Metadata, PollStatus};

verus! {

broadcast use {vstd::std_specs::btree::group_btree_axioms, vstd::laws_cmp::group_laws_cmp};

pub const INLCR: u32 = 0x0040;

pub const IGNCR: u32 = 0x0080;

pub const ICRNL: u32 = 0x0100;

pub const OPOST: u32 = 0x0001;

pub const ONLCR: u32 = 0x0004;

pub const ISIG: u32 = 0x0001;

pub const ICANON: u32 = 0x0002;

pub const ECHO: u32 = 0x0008;

pub const ECHOE: u32 = 0x0010;

pub const VINTR: usize = 0;

pub const VQUIT: usize = 1;

pub const VERASE: usize = 2;

pub const VEOF: usize = 4;

/// Bytes each direction holds.
pub const PTY_BUF_CAP: usize = 16384;

/// Window size of a terminal.
#[derive(Clone, Copy, PartialEq, Eq, Structural, Debug)]
pub struct ConsoleWinSize {
    pub ws_row: u16,
    pub ws_col: u16,
    pub ws_xpixel: u16,
    pub ws_ypixel: u16,
}

/// Signals that the line discipline sends.
#[derive(Clone, Copy, PartialEq, Eq, Structural, Debug)]
pub enum TtySignal {
    Interrupt,
    Quit,
}

/// State of one pair.
pub struct PtyInner {
    /// Output of the program, read by the terminal.
    pub output: VecDeque<u8>,
    /// Input of the program, after the line discipline.
    pub input: VecDeque<u8>,
    /// The line being edited.
    pub canon: VecDeque<u8>,
    pub termios: Termios,
    pub winsize: ConsoleWinSize,
    /// Foreground process group.
    pub fg_pgrp: i32,
    pub locked: i32,
    pub num: u32,
    pub master_open: bool,
}

/// State of one pair, mathematically.
#[verifier::ext_equal]
pub struct PtyModel {
    pub output: Seq<u8>,
    pub input: Seq<u8>,
    pub canon: Seq<u8>,
    pub termios: Termios,
    pub winsize: ConsoleWinSize,
    pub fg_pgrp: i32,
    pub locked: i32,
    pub num: u32,
    pub master_open: bool,
}

impl View for PtyInner {
    type V = PtyModel;

    open spec fn view(&self) -> PtyModel {
        PtyModel {
            output: self.output@,
            input: self.input@,
            canon: self.canon@,
            termios: self.termios,
            winsize: self.winsize,
            fg_pgrp: self.fg_pgrp,
            locked: self.locked,
            num: self.num,
            master_open: self.master_open,
        }
    }
}

/// A queue with a byte added, where there is room.
pub open spec fn capped(q: Seq<u8>, b: u8) -> Seq<u8> {
    if q.len() < PTY_BUF_CAP {
        q.push(b)
    } else {
        q
    }
}

/// A queue with bytes added, as far as there is room.
pub open spec fn capped_all(q: Seq<u8>, bytes: Seq<u8>) -> Seq<u8>
    decreases bytes.len(),
{
    if bytes.len() == 0 {
        q
    } else {
        capped(capped_all(q, bytes.drop_last()), bytes.last())
    }
}

/// A byte as the terminal shows it: control characters as `^X`.
pub open spec fn rendered(b: u8) -> Seq<u8> {
    if (b < 0x20 && b != 10 && b != 9) || b == 0x7f {
        seq![94u8, if b == 0x7f { 63u8 } else { (64 + b) as u8 }]
    } else {
        seq![b]
    }
}

/// An input byte after carriage-return and newline translation; `None` where it is dropped.
pub open spec fn translated(iflag: u32, b: u8) -> Option<u8> {
    if b == 13 {
        if iflag & IGNCR != 0 {
            None
        } else if iflag & ICRNL != 0 {
            Some(10)
        } else {
            Some(13)
        }
    } else if b == 10 && iflag & INLCR != 0 {
        Some(13)
    } else {
        Some(b)
    }
}

/// The signal that a translated byte asks for.
pub open spec fn signal_char(t: Termios, b: u8) -> Option<TtySignal> {
    if t.c_lflag & ISIG != 0 && b == t.c_cc@[0] {
        Some(TtySignal::Interrupt)
    } else if t.c_lflag & ISIG != 0 && b == t.c_cc@[1] {
        Some(TtySignal::Quit)
    } else {
        None
    }
}

/// The state after the edited line was handed to the program.
pub open spec fn committed(m: PtyModel) -> PtyModel {
    PtyModel { input: capped_all(m.input, m.canon), canon: Seq::empty(), ..m }
}

/// The state after a byte that is neither dropped nor a signal.
pub open spec fn accepted(m: PtyModel, b: u8) -> PtyModel {
    let l = m.termios.c_lflag;
    let cc = m.termios.c_cc@;
    if l & ICANON != 0 {
        if b == cc[2] {
            if m.canon.len() == 0 {
                m
            } else {
                PtyModel {
                    canon: m.canon.drop_last(),
                    output: if l & (ECHO | ECHOE) != 0 {
                        capped_all(m.output, seq![8u8, 32u8, 8u8])
                    } else {
                        m.output
                    },
                    ..m
                }
            }
        } else if b == cc[4] {
            committed(m)
        } else {
            let e = PtyModel {
                output: if l & ECHO != 0 { capped_all(m.output, rendered(b)) } else { m.output },
                canon: m.canon.push(b),
                ..m
            };
            if b == 10 {
                committed(e)
            } else {
                e
            }
        }
    } else {
        PtyModel {
            output: if l & ECHO != 0 { capped_all(m.output, rendered(b)) } else { m.output },
            input: capped(m.input, b),
            ..m
        }
    }
}

/// The state after a byte was typed.
pub open spec fn typed(m: PtyModel, b: u8) -> PtyModel {
    match translated(m.termios.c_iflag, b) {
        None => m,
        Some(c) => if signal_char(m.termios, c) is Some {
            PtyModel {
                output: if m.termios.c_lflag & ECHO != 0 {
                    capped_all(m.output, rendered(c))
                } else {
                    m.output
                },
                ..m
            }
        } else {
            accepted(m, c)
        },
    }
}

/// The signal that a typed byte sends: only with a foreground group to send it to.
pub open spec fn typed_signal(m: PtyModel, b: u8) -> Option<(i32, TtySignal)> {
    match translated(m.termios.c_iflag, b) {
        None => None,
        Some(c) => match signal_char(m.termios, c) {
            Some(s) => if m.fg_pgrp > 0 {
                Some((m.fg_pgrp, s))
            } else {
                None
            },
            None => None,
        },
    }
}

/// A fresh pair: 80 by 24, locked, with a cooked terminal.
pub open spec fn fresh(m: PtyModel, num: u32) -> bool {
    &&& m.output.len() == 0
    &&& m.input.len() == 0
    &&& m.canon.len() == 0
    &&& m.termios.c_iflag == 0x2500
    &&& m.termios.c_oflag == 0x0005
    &&& m.termios.c_cflag == 0x04bf
    &&& m.termios.c_lflag == 0x803b
    &&& m.termios.c_line == 0
    &&& m.termios.c_cc@ == crate::ioctl::default_cc()
    &&& m.winsize == (ConsoleWinSize { ws_row: 24, ws_col: 80, ws_xpixel: 0, ws_ypixel: 0 })
    &&& m.fg_pgrp == 0
    &&& m.locked == 1
    &&& m.num == num
    &&& m.master_open
}

impl PtyInner {
    pub fn new(num: u32) -> (p: Self)
        ensures
            fresh(p@, num),
    {
        PtyInner {
            output: VecDeque::new(),
            input: VecDeque::new(),
            canon: VecDeque::new(),
            termios: Termios::default_tty(),
            winsize: ConsoleWinSize { ws_row: 24, ws_col: 80, ws_xpixel: 0, ws_ypixel: 0 },
            fg_pgrp: 0,
            locked: 1,
            num,
            master_open: true,
        }
    }

    fn push_output(&mut self, b: u8)
        ensures
            final(self)@ == (PtyModel { output: capped(old(self)@.output, b), ..old(self)@ }),
    {
        if self.output.len() < PTY_BUF_CAP {
            self.output.push_back(b);
        }
    }

    /// Echoes a byte to the terminal.
    fn echo_ctrl(&mut self, b: u8)
        ensures
            final(self)@ == (PtyModel {
                output: capped_all(old(self)@.output, rendered(b)),
                ..old(self)@
            }),
    {
        proof {
            reveal_with_fuel(capped_all, 3);
            assert(rendered(b).drop_last() =~= rendered(b).subrange(0, rendered(b).len() - 1));
        }
        if (b < 0x20 && b != 10 && b != 9) || b == 0x7f {
            let second: u8 = if b == 0x7f { 63 } else { 64 + b };
            self.push_output(94);
            self.push_output(second);
            assert(rendered(b).drop_last() =~= seq![94u8]);
            assert(seq![94u8].drop_last() =~= Seq::empty());
        } else {
            self.push_output(b);
            assert(rendered(b).drop_last() =~= Seq::empty());
        }
    }

    /// Hands the edited line to the program.
    fn commit_canon(&mut self)
        ensures
            final(self)@ == committed(old(self)@),
    {
        let ghost line = self.canon@;
        let ghost mut k: int = 0;
        assert(line.subrange(0, 0) =~= Seq::empty());
        while self.canon.len() > 0
            invariant
                0 <= k <= line.len(),
                self.canon@ == line.subrange(k, line.len() as int),
                line == old(self)@.canon,
                self@ == (PtyModel {
                    input: capped_all(old(self)@.input, line.subrange(0, k)),
                    canon: self.canon@,
                    ..old(self)@
                }),
            decreases self.canon@.len(),
        {
            let ghost before = self.canon@;
            match self.canon.pop_front() {
                Some(b) => {
                    proof {
                        assert(line.subrange(0, k + 1).drop_last() =~= line.subrange(0, k));
                        assert(self.canon@ =~= line.subrange(k + 1, line.len() as int));
                        k = k + 1;
                    }
                    if self.input.len() < PTY_BUF_CAP {
                        self.input.push_back(b);
                    }
                },
                None => {},
            }
        }
        assert(line.subrange(0, k) =~= line);
        assert(self.canon@ =~= Seq::empty());
    }

    /// Takes a typed byte through the input line discipline. Gives the signal to send, where the
    /// byte sends one.
    pub fn master_input_byte(&mut self, typed_byte: u8) -> (sig: Option<(i32, TtySignal)>)
        ensures
            final(self)@ == typed(old(self)@, typed_byte),
            sig == typed_signal(old(self)@, typed_byte),
    {
        let iflag: u32 = self.termios.c_iflag;
        let lflag: u32 = self.termios.c_lflag;
        let mut b: u8 = typed_byte;
        if b == 13 {
            if iflag & IGNCR != 0 {
                return None;
            }
            if iflag & ICRNL != 0 {
                b = 10;
            }
        } else if b == 10 && iflag & INLCR != 0 {
            b = 13;
        }
        let intr: u8 = self.termios.c_cc[VINTR];
        let quit: u8 = self.termios.c_cc[VQUIT];
        if lflag & ISIG != 0 && (b == intr || b == quit) {
            let sig = if b == intr { TtySignal::Interrupt } else { TtySignal::Quit };
            if lflag & ECHO != 0 {
                self.echo_ctrl(b);
            }
            if self.fg_pgrp > 0 {
                return Some((self.fg_pgrp, sig));
            }
            return None;
        }
        if lflag & ICANON != 0 {
            if b == self.termios.c_cc[VERASE] {
                if self.canon.len() > 0 {
                    let _ = self.canon.pop_back();
                    assert(self.canon@ =~= old(self)@.canon.drop_last());
                    if lflag & (ECHO | ECHOE) != 0 {
                        proof {
                            reveal_with_fuel(capped_all, 4);
                            let s = seq![8u8, 32u8, 8u8];
                            assert(s.drop_last() =~= seq![8u8, 32u8]);
                            assert(seq![8u8, 32u8].drop_last() =~= seq![8u8]);
                            assert(seq![8u8].drop_last() =~= Seq::empty());
                        }
                        self.push_output(8);
                        self.push_output(32);
                        self.push_output(8);
                    }
                }
                return None;
            }
            if b == self.termios.c_cc[VEOF] {
                self.commit_canon();
                return None;
            }
            if lflag & ECHO != 0 {
                self.echo_ctrl(b);
            }
            self.canon.push_back(b);
            if b == 10 {
                self.commit_canon();
            }
        } else {
            if lflag & ECHO != 0 {
                self.echo_ctrl(b);
            }
            if self.input.len() < PTY_BUF_CAP {
                self.input.push_back(b);
            }
        }
        None
    }
}

/// Output bytes after newline translation.
pub open spec fn posted(oflag: u32, bytes: Seq<u8>) -> Seq<u8>
    decreases bytes.len(),
{
    if bytes.len() == 0 {
        Seq::empty()
    } else {
        let head = posted(oflag, bytes.drop_last());
        if oflag & OPOST != 0 && oflag & ONLCR != 0 && bytes.last() == 10 {
            head.push(13u8).push(10u8)
        } else {
            head.push(bytes.last())
        }
    }
}

/// The state after some bytes were typed.
pub open spec fn typed_all(m: PtyModel, bytes: Seq<u8>) -> PtyModel
    decreases bytes.len(),
{
    if bytes.len() == 0 {
        m
    } else {
        typed(typed_all(m, bytes.drop_last()), bytes.last())
    }
}

/// The signals that typed bytes send, in order.
pub open spec fn signals_all(m: PtyModel, bytes: Seq<u8>) -> Seq<(i32, TtySignal)>
    decreases bytes.len(),
{
    if bytes.len() == 0 {
        Seq::empty()
    } else {
        let before = typed_all(m, bytes.drop_last());
        match typed_signal(before, bytes.last()) {
            Some(s) => signals_all(m, bytes.drop_last()).push(s),
            None => signals_all(m, bytes.drop_last()),
        }
    }
}

proof fn lemma_capped_push(q: Seq<u8>, bytes: Seq<u8>, b: u8)
    ensures
        capped_all(q, bytes.push(b)) == capped(capped_all(q, bytes), b),
{
    assert(bytes.push(b).drop_last() =~= bytes);
}

/// What a read takes from a queue.
pub open spec fn taken(q: Seq<u8>, room: nat) -> nat {
    if q.len() <= room {
        q.len()
    } else {
        room
    }
}

/// Moves bytes from the front of a queue into a buffer.
fn drain_into(q: &mut VecDeque<u8>, buf: &mut [u8]) -> (n: usize)
    ensures
        n == taken(old(q)@, old(buf)@.len()),
        final(q)@ == old(q)@.skip(n as int),
        final(buf)@ == old(q)@.take(n as int) + old(buf)@.skip(n as int),
{
    let mut n: usize = 0;
    let ghost len = buf@.len();
    assert(q@ =~= q@.skip(0));
    assert(buf@ =~= old(q)@.take(0) + old(buf)@.skip(0));
    while n < buf.len() && q.len() > 0
        invariant
            n <= old(q)@.len(),
            n <= len,
            len == old(buf)@.len(),
            buf@.len() == len,
            q@ == old(q)@.skip(n as int),
            buf@ == old(q)@.take(n as int) + old(buf)@.skip(n as int),
        decreases len - n,
    {
        match q.pop_front() {
            Some(b) => {
                buf[n] = b;
                n = n + 1;
                assert(q@ =~= old(q)@.skip(n as int));
                assert(buf@ =~= old(q)@.take(n as int) + old(buf)@.skip(n as int));
            },
            None => {},
        }
    }
    n
}

impl PtyInner {
    /// Program output towards the terminal, newlines translated where the terminal asks for it.
    fn slave_output(&mut self, buf: &[u8])
        ensures
            final(self)@ == (PtyModel {
                output: capped_all(old(self)@.output, posted(old(self)@.termios.c_oflag, buf@)),
                ..old(self)@
            }),
    {
        let opost: bool = self.termios.c_oflag & OPOST != 0;
        let onlcr: bool = self.termios.c_oflag & ONLCR != 0;
        let ghost oflag = self.termios.c_oflag;
        assert(buf@.take(0) =~= Seq::empty());
        for i in 0..buf.len()
            invariant
                opost == (oflag & OPOST != 0),
                onlcr == (oflag & ONLCR != 0),
                oflag == old(self)@.termios.c_oflag,
                self@ == (PtyModel {
                    output: capped_all(old(self)@.output, posted(oflag, buf@.take(i as int))),
                    ..old(self)@
                }),
        {
            let b: u8 = buf[i];
            proof {
                assert(buf@.take(i as int + 1).drop_last() =~= buf@.take(i as int));
                let head = posted(oflag, buf@.take(i as int));
                lemma_capped_push(old(self)@.output, head, b);
                lemma_capped_push(old(self)@.output, head, 13);
                lemma_capped_push(old(self)@.output, head.push(13u8), 10);
            }
            if opost && onlcr && b == 10 {
                self.push_output(13);
            }
            self.push_output(b);
        }
        assert(buf@.take(buf@.len() as int) =~= buf@);
    }

    /// Whether a reader of this end need not wait.
    pub fn read_ready(&self, master: bool) -> (r: bool)
        ensures
            r == ready(self@, master),
    {
        if master {
            self.output.len() != 0
        } else {
            self.input.len() != 0 || !self.master_open
        }
    }
}

/// Whether a reader of an end need not wait: there are bytes, or the master is gone.
pub open spec fn ready(m: PtyModel, master: bool) -> bool {
    if master {
        m.output.len() > 0
    } else {
        m.input.len() > 0 || !m.master_open
    }
}

/// What a wait for bytes of a terminal does next.
#[derive(Clone, Copy, PartialEq, Eq, Structural, Debug)]
pub enum PtyWaitStep {
    Ready(PollStatus),
    /// Register to be woken.
    Register,
    /// Stay registered.
    Retain,
}

/// A wait for bytes of a terminal.
#[derive(Clone, Copy, PartialEq, Eq, Structural, Debug)]
pub struct PtyReadFuture {
    pub master: bool,
    pub armed: bool,
}

impl PtyReadFuture {
    /// Looks once whether a reader need not wait.
    pub fn poll(&mut self, g: &PtyInner) -> (s: PtyWaitStep)
        ensures
            s == wait_next(g@, *old(self)).0,
            *final(self) == wait_next(g@, *old(self)).1,
    {
        if g.read_ready(self.master) {
            return PtyWaitStep::Ready(PollStatus { read: true, write: true, error: false });
        }
        if self.armed {
            PtyWaitStep::Retain
        } else {
            self.armed = true;
            PtyWaitStep::Register
        }
    }
}

/// What a wait for bytes does, and the wait afterwards.
pub open spec fn wait_next(m: PtyModel, f: PtyReadFuture) -> (PtyWaitStep, PtyReadFuture) {
    (
        if ready(m, f.master) {
            PtyWaitStep::Ready(PollStatus { read: true, write: true, error: false })
        } else if f.armed {
            PtyWaitStep::Retain
        } else {
            PtyWaitStep::Register
        },
        PtyReadFuture { armed: f.armed || !ready(m, f.master), ..f },
    )
}

/// A read of program output into `buf` answers `r`, and leaves the terminal and the buffer so.
pub open spec fn master_read(
    m: PtyModel,
    buf: Seq<u8>,
    r: Result<usize, FsError>,
    m2: PtyModel,
    buf2: Seq<u8>,
) -> bool {
    match r {
        Ok(n) => {
            &&& m.output.len() > 0
            &&& n == taken(m.output, buf.len())
            &&& m2 == (PtyModel { output: m.output.skip(n as int), ..m })
            &&& buf2 == m.output.take(n as int) + buf.skip(n as int)
        },
        Err(e) => {
            &&& e == FsError::Again
            &&& m.output.len() == 0
            &&& m2 == m
            &&& buf2 == buf
        },
    }
}

/// A read of typed bytes into `buf` answers `r`, and leaves the terminal and the buffer so.
pub open spec fn slave_read(
    m: PtyModel,
    buf: Seq<u8>,
    r: Result<usize, FsError>,
    m2: PtyModel,
    buf2: Seq<u8>,
) -> bool {
    match r {
        Ok(n) => {
            &&& m.input.len() > 0 || !m.master_open
            &&& n == taken(m.input, buf.len())
            &&& m2 == (PtyModel { input: m.input.skip(n as int), ..m })
            &&& buf2 == m.input.take(n as int) + buf.skip(n as int)
        },
        Err(e) => {
            &&& e == FsError::Again
            &&& m.input.len() == 0
            &&& m.master_open
            &&& m2 == m
            &&& buf2 == buf
        },
    }
}

/// The terminal's end.
pub struct PtyMaster {
    pub inode_id: usize,
}

impl PtyMaster {
    /// Reads program output. An idle program makes the reader wait: the master never sees an end
    /// of file.
    pub fn read_at(&self, g: &mut PtyInner, buf: &mut [u8]) -> (r: Result<usize, FsError>)
        ensures
            master_read(old(g)@, old(buf)@, r, final(g)@, final(buf)@),
    {
        if g.output.len() == 0 {
            return Err(FsError::Again);
        }
        let n: usize = drain_into(&mut g.output, buf);
        Ok(n)
    }

    /// Types bytes into the terminal. Gives the signals to send.
    pub fn write_at(&self, g: &mut PtyInner, buf: &[u8]) -> (r: (usize, Vec<(i32, TtySignal)>))
        ensures
            r.0 == buf@.len(),
            r.1@ == signals_all(old(g)@, buf@),
            final(g)@ == typed_all(old(g)@, buf@),
    {
        let mut signals: Vec<(i32, TtySignal)> = Vec::new();
        assert(buf@.take(0) =~= Seq::empty());
        for i in 0..buf.len()
            invariant
                g@ == typed_all(old(g)@, buf@.take(i as int)),
                signals@ == signals_all(old(g)@, buf@.take(i as int)),
        {
            assert(buf@.take(i as int + 1).drop_last() =~= buf@.take(i as int));
            match g.master_input_byte(buf[i]) {
                Some(s) => {
                    signals.push(s);
                },
                None => {},
            }
        }
        assert(buf@.take(buf@.len() as int) =~= buf@);
        (buf.len(), signals)
    }

    /// Starts waiting for bytes.
    pub fn async_poll(&self) -> (f: PtyReadFuture)
        ensures
            f == (PtyReadFuture { master: true, armed: false }),
    {
        PtyReadFuture { master: true, armed: false }
    }

    pub fn poll(&self, g: &PtyInner) -> (p: PollStatus)
        ensures
            p == (PollStatus { read: ready(g@, true), write: true, error: false }),
    {
        PollStatus { read: g.read_ready(true), write: true, error: false }
    }

    pub fn io_control(
        &self,
        g: &mut PtyInner,
        cmd: u32,
        arg: Option<PtyArg>,
        caller_pgid: i32,
    ) -> (r: Result<PtyReply, FsError>)
        ensures
            r == control_reply(old(g)@, true, cmd as int, arg, caller_pgid),
            final(g)@ == control_state(old(g)@, true, cmd as int, arg),
    {
        pty_ioctl(g, true, cmd, arg, caller_pgid)
    }

    pub fn metadata(&self) -> (m: Metadata)
        ensures
            m == bare_node(0, self.inode_id, FileType::CharDevice, 0o600, 0),
    {
        node_metadata(0, self.inode_id, FileType::CharDevice, 0o600, 0)
    }
}

/// The program's end.
pub struct PtySlave {
    pub inode_id: usize,
}

impl PtySlave {
    /// Reads what was typed. With nothing typed the reader waits, or sees the end of file once the
    /// master is gone.
    pub fn read_at(&self, g: &mut PtyInner, buf: &mut [u8]) -> (r: Result<usize, FsError>)
        ensures
            slave_read(old(g)@, old(buf)@, r, final(g)@, final(buf)@),
    {
        if g.input.len() == 0 {
            if !g.master_open {
                assert(g@.input.skip(0) =~= g@.input);
                assert(buf@ =~= g@.input.take(0) + buf@.skip(0));
                return Ok(0);
            }
            return Err(FsError::Again);
        }
        let n: usize = drain_into(&mut g.input, buf);
        Ok(n)
    }

    /// Writes program output.
    pub fn write_at(&self, g: &mut PtyInner, buf: &[u8]) -> (n: usize)
        ensures
            n == buf@.len(),
            final(g)@ == (PtyModel {
                output: capped_all(old(g)@.output, posted(old(g)@.termios.c_oflag, buf@)),
                ..old(g)@
            }),
    {
        g.slave_output(buf);
        buf.len()
    }

    /// Starts waiting for bytes.
    pub fn async_poll(&self) -> (f: PtyReadFuture)
        ensures
            f == (PtyReadFuture { master: false, armed: false }),
    {
        PtyReadFuture { master: false, armed: false }
    }

    pub fn poll(&self, g: &PtyInner) -> (p: PollStatus)
        ensures
            p == (PollStatus { read: ready(g@, false), write: true, error: false }),
    {
        PollStatus { read: g.read_ready(false), write: true, error: false }
    }

    pub fn io_control(
        &self,
        g: &mut PtyInner,
        cmd: u32,
        arg: Option<PtyArg>,
        caller_pgid: i32,
    ) -> (r: Result<PtyReply, FsError>)
        ensures
            r == control_reply(old(g)@, false, cmd as int, arg, caller_pgid),
            final(g)@ == control_state(old(g)@, false, cmd as int, arg),
    {
        pty_ioctl(g, false, cmd, arg, caller_pgid)
    }

    pub fn metadata(&self) -> (m: Metadata)
        ensures
            m == bare_node(0, self.inode_id, FileType::CharDevice, 0o620, 0),
    {
        node_metadata(0, self.inode_id, FileType::CharDevice, 0o620, 0)
    }
}

/// What the caller's argument holds, read as each of the records a control may take.
#[derive(Clone, Copy)]
pub struct PtyArg {
    pub termios: Termios,
    pub winsize: ConsoleWinSize,
    pub value: i32,
}

/// What a control hands back.
#[derive(Clone, Copy)]
pub enum PtyReply {
    Done,
    Attributes(Termios),
    Size(ConsoleWinSize),
    Group(i32),
    Number(u32),
}

/// The group that a terminal reports: its own, else the caller's, and never none.
pub open spec fn reported_group(fg_pgrp: i32, caller_pgid: i32) -> i32 {
    if fg_pgrp != 0 {
        fg_pgrp
    } else if caller_pgid != 0 {
        caller_pgid
    } else {
        1
    }
}

/// What a control answers; `arg` is missing where the caller passed a null pointer.
pub open spec fn control_reply(
    m: PtyModel,
    master: bool,
    cmd: int,
    arg: Option<PtyArg>,
    caller_pgid: i32,
) -> Result<PtyReply, FsError> {
    if cmd == TCGETS || cmd == TIOCGWINSZ || cmd == TIOCGPGRP {
        if arg is None {
            Err(FsError::InvalidParam)
        } else if cmd == TCGETS {
            Ok(PtyReply::Attributes(m.termios))
        } else if cmd == TIOCGWINSZ {
            Ok(PtyReply::Size(m.winsize))
        } else {
            Ok(PtyReply::Group(reported_group(m.fg_pgrp, caller_pgid)))
        }
    } else if cmd == TCSETS || cmd == TCSETSW || cmd == TCSETSF || cmd == TIOCSWINSZ {
        if arg is None {
            Err(FsError::InvalidParam)
        } else {
            Ok(PtyReply::Done)
        }
    } else if cmd == TIOCGPTN || cmd == TIOCSPTLCK {
        if !master || arg is None {
            Err(FsError::InvalidParam)
        } else if cmd == TIOCGPTN {
            Ok(PtyReply::Number(m.num))
        } else {
            Ok(PtyReply::Done)
        }
    } else if cmd == TIOCSPGRP || cmd == TIOCSCTTY || cmd == TIOCNOTTY || cmd == TCFLSH {
        Ok(PtyReply::Done)
    } else {
        Err(FsError::NotSupported)
    }
}

/// The state after a control.
pub open spec fn control_state(m: PtyModel, master: bool, cmd: int, arg: Option<PtyArg>) -> PtyModel {
    match arg {
        None => m,
        Some(a) => if cmd == TCSETS || cmd == TCSETSW || cmd == TCSETSF {
            PtyModel { termios: a.termios, ..m }
        } else if cmd == TIOCSWINSZ {
            PtyModel { winsize: a.winsize, ..m }
        } else if cmd == TIOCSPGRP {
            PtyModel { fg_pgrp: a.value, ..m }
        } else if cmd == TIOCSPTLCK && master {
            PtyModel { locked: a.value, ..m }
        } else {
            m
        },
    }
}

/// Controls of either end. `caller_pgid` is the process group of the caller, 0 where unknown.
pub fn pty_ioctl(
    g: &mut PtyInner,
    master: bool,
    cmd: u32,
    arg: Option<PtyArg>,
    caller_pgid: i32,
) -> (r: Result<PtyReply, FsError>)
    ensures
        r == control_reply(old(g)@, master, cmd as int, arg, caller_pgid),
        final(g)@ == control_state(old(g)@, master, cmd as int, arg),
{
    let c: usize = cmd as usize;
    if c == TCGETS {
        return match arg {
            Some(_) => Ok(PtyReply::Attributes(g.termios)),
            None => Err(FsError::InvalidParam),
        };
    }
    if c == TCSETS || c == TCSETSW || c == TCSETSF {
        return match arg {
            Some(a) => {
                g.termios = a.termios;
                Ok(PtyReply::Done)
            },
            None => Err(FsError::InvalidParam),
        };
    }
    if c == TIOCGWINSZ {
        return match arg {
            Some(_) => Ok(PtyReply::Size(g.winsize)),
            None => Err(FsError::InvalidParam),
        };
    }
    if c == TIOCSWINSZ {
        return match arg {
            Some(a) => {
                g.winsize = a.winsize;
                Ok(PtyReply::Done)
            },
            None => Err(FsError::InvalidParam),
        };
    }
    if c == TIOCSPGRP {
        match arg {
            Some(a) => {
                g.fg_pgrp = a.value;
            },
            None => {},
        }
        return Ok(PtyReply::Done);
    }
    if c == TIOCGPGRP {
        if arg.is_none() {
            return Err(FsError::InvalidParam);
        }
        let mut pgid: i32 = g.fg_pgrp;
        if pgid == 0 {
            pgid = caller_pgid;
            if pgid == 0 {
                pgid = 1;
            }
        }
        return Ok(PtyReply::Group(pgid));
    }
    if c == TIOCGPTN {
        if !master || arg.is_none() {
            return Err(FsError::InvalidParam);
        }
        return Ok(PtyReply::Number(g.num));
    }
    if c == TIOCSPTLCK {
        if !master {
            return Err(FsError::InvalidParam);
        }
        return match arg {
            Some(a) => {
                g.locked = a.value;
                Ok(PtyReply::Done)
            },
            None => Err(FsError::InvalidParam),
        };
    }
    if c == TIOCSCTTY || c == TIOCNOTTY || c == TCFLSH {
        return Ok(PtyReply::Done);
    }
    Err(FsError::NotSupported)
}

/// The live pairs: the inode of the slave, by the pair's number.
pub struct PtyTable {
    pub live: BTreeMap<u32, usize>,
    pub next: u32,
}

impl PtyTable {
    pub fn new() -> (t: Self)
        ensures
            t.live@ == Map::<u32, usize>::empty(),
            t.next == 0,
    {
        PtyTable { live: BTreeMap::new(), next: 0 }
    }

    /// Forgets a pair whose master was closed.
    pub fn close_master(&mut self, g: &mut PtyInner)
        ensures
            final(self).live@ == old(self).live@.remove(old(g)@.num),
            final(self).next == old(self).next,
            final(g)@ == (PtyModel { master_open: false, ..old(g)@ }),
    {
        g.master_open = false;
        let _ = self.live.remove(&g.num);
    }
}

/// The directory of slaves.
pub struct PtsDir {
    pub inode_id: usize,
}

/// The pair that a name in the directory of slaves stands for.
pub open spec fn named_slave(live: Map<u32, usize>, name: Seq<char>) -> Option<usize> {
    match parsed(name, u32::MAX as int) {
        Some(n) => if live.dom().contains(n as u32) {
            Some(live[n as u32])
        } else {
            None
        },
        None => None,
    }
}

impl PtsDir {
    pub fn new(inode_id: usize) -> (d: Self)
        ensures
            d.inode_id == inode_id,
    {
        PtsDir { inode_id }
    }

    pub fn read_at(&self) -> (r: Result<usize, FsError>)
        ensures
            r == Err::<usize, FsError>(FsError::IsDir),
    {
        Err(FsError::IsDir)
    }

    pub fn write_at(&self) -> (r: Result<usize, FsError>)
        ensures
            r == Err::<usize, FsError>(FsError::IsDir),
    {
        Err(FsError::IsDir)
    }

    pub fn poll(&self) -> (p: PollStatus)
        ensures
            p == (PollStatus { read: true, write: false, error: false }),
    {
        PollStatus { read: true, write: false, error: false }
    }

    /// The slave of a pair, by its number.
    pub fn find(&self, table: &PtyTable, name: &str) -> (r: Result<usize, FsError>)
        ensures
            r == match named_slave(table.live@, name@) {
                Some(i) => Ok::<usize, FsError>(i),
                None => Err(FsError::EntryNotFound),
            },
    {
        let cs = chars_of(name);
        match parse_u32(cs.as_slice()) {
            None => Err(FsError::EntryNotFound),
            Some(n) => match table.live.get(&n) {
                Some(i) => Ok(*i),
                None => Err(FsError::EntryNotFound),
            },
        }
    }

    pub fn metadata(&self) -> (m: Metadata)
        ensures
            m == bare_node(0, self.inode_id, FileType::Dir, 0o755, 0),
    {
        node_metadata(0, self.inode_id, FileType::Dir, 0o755, 0)
    }
}

/// The node whose opening makes a new pair.
pub struct PtmxINode {
    pub inode_id: usize,
}

impl PtmxINode {
    pub fn new(inode_id: usize) -> (d: Self)
        ensures
            d.inode_id == inode_id,
    {
        PtmxINode { inode_id }
    }

    /// Makes a new pair and publishes its slave under the next number.
    pub fn open_master(&self, table: &mut PtyTable, slave_inode: usize) -> (g: PtyInner)
        ensures
            fresh(g@, old(table).next),
            final(table).live@ == old(table).live@.insert(old(table).next, slave_inode),
            final(table).next == (if old(table).next == u32::MAX { 0 } else { old(table).next + 1 }),
    {
        let num: u32 = table.next;
        table.next = num.wrapping_add(1);
        let _ = table.live.insert(num, slave_inode);
        PtyInner::new(num)
    }

    pub fn read_at(&self) -> (r: Result<usize, FsError>)
        ensures
            r == Err::<usize, FsError>(FsError::NotSupported),
    {
        Err(FsError::NotSupported)
    }

    pub fn write_at(&self) -> (r: Result<usize, FsError>)
        ensures
            r == Err::<usize, FsError>(FsError::NotSupported),
    {
        Err(FsError::NotSupported)
    }

    pub fn poll(&self) -> (p: PollStatus)
        ensures
            p == (PollStatus { read: false, write: true, error: false }),
    {
        PollStatus { read: false, write: true, error: false }
    }

    pub fn metadata(&self) -> (m: Metadata)
        ensures
            m == bare_node(0, self.inode_id, FileType::CharDevice, 0o666, 0),
    {
        node_metadata(0, self.inode_id, FileType::CharDevice, 0o666, 0)
    }
}

/// Neither direction holds more than its capacity.
pub open spec fn bounded(m: PtyModel) -> bool {
    m.output.len() <= PTY_BUF_CAP && m.input.len() <= PTY_BUF_CAP
}

proof fn lemma_capped_bounded(q: Seq<u8>, bytes: Seq<u8>)
    requires
        q.len() <= PTY_BUF_CAP,
    ensures
        capped_all(q, bytes).len() <= PTY_BUF_CAP,
    decreases bytes.len(),
{
    if bytes.len() > 0 {
        lemma_capped_bounded(q, bytes.drop_last());
    }
}

proof fn lemma_capped_room(q: Seq<u8>, bytes: Seq<u8>)
    requires
        q.len() + bytes.len() <= PTY_BUF_CAP,
    ensures
        capped_all(q, bytes) == q + bytes,
    decreases bytes.len(),
{
    if bytes.len() > 0 {
        lemma_capped_room(q, bytes.drop_last());
        assert(q + bytes =~= (q + bytes.drop_last()).push(bytes.last()));
    } else {
        assert(q + bytes =~= q);
    }
}

proof fn lemma_typed_bounded(m: PtyModel, b: u8)
    requires
        bounded(m),
    ensures
        bounded(typed(m, b)),
{
    match translated(m.termios.c_iflag, b) {
        None => {},
        Some(c) => {
            lemma_capped_bounded(m.output, rendered(c));
            lemma_capped_bounded(m.output, seq![8u8, 32u8, 8u8]);
            lemma_capped_bounded(m.input, m.canon);
            lemma_capped_bounded(m.input, m.canon.push(c));
        },
    }
}

/// However much is typed or written, neither direction ever holds more than its capacity.
pub proof fn law_queues_bounded(m: PtyModel, typed_bytes: Seq<u8>, written: Seq<u8>)
    requires
        bounded(m),
    ensures
        bounded(typed_all(m, typed_bytes)),
        bounded(
            PtyModel {
                output: capped_all(m.output, posted(m.termios.c_oflag, written)),
                ..m
            },
        ),
    decreases typed_bytes.len(),
{
    lemma_capped_bounded(m.output, posted(m.termios.c_oflag, written));
    if typed_bytes.len() > 0 {
        law_queues_bounded(m, typed_bytes.drop_last(), written);
        lemma_typed_bounded(typed_all(m, typed_bytes.drop_last()), typed_bytes.last());
    }
}

/// A terminal with line editing, signals and every translation of input off.
pub open spec fn raw(t: Termios) -> bool {
    &&& t.c_lflag & ICANON == 0
    &&& t.c_lflag & ISIG == 0
    &&& t.c_iflag & IGNCR == 0
    &&& t.c_iflag & ICRNL == 0
    &&& t.c_iflag & INLCR == 0
}

/// In raw mode what is typed is what the program reads, byte for byte, as far as there is room,
/// and no signal is sent.
pub proof fn law_raw_input_verbatim(m: PtyModel, bytes: Seq<u8>)
    requires
        raw(m.termios),
    ensures
        typed_all(m, bytes).input == capped_all(m.input, bytes),
        typed_all(m, bytes).canon == m.canon,
        typed_all(m, bytes).termios == m.termios,
        signals_all(m, bytes) == Seq::<(i32, TtySignal)>::empty(),
    decreases bytes.len(),
{
    if bytes.len() > 0 {
        law_raw_input_verbatim(m, bytes.drop_last());
    }
}

/// With room for it, a write in raw mode followed by a read gives the same bytes back.
pub proof fn law_raw_roundtrip(m: PtyModel, bytes: Seq<u8>)
    requires
        raw(m.termios),
        m.input.len() == 0,
        bytes.len() <= PTY_BUF_CAP,
    ensures
        typed_all(m, bytes).input == bytes,
{
    law_raw_input_verbatim(m, bytes);
    lemma_capped_room(m.input, bytes);
    assert(m.input + bytes =~= bytes);
}

/// A byte that line editing takes as part of a line.
pub open spec fn line_byte(t: Termios, b: u8) -> bool {
    &&& translated(t.c_iflag, b) matches Some(c) && c != 10 && c != t.c_cc@[2] && c != t.c_cc@[4]
        && signal_char(t, c) is None
}

/// With line editing on, a line stays hidden from the program until it is ended, and ending it
/// with a newline hands over the whole of it.
pub proof fn law_line_hidden_until_newline(m: PtyModel, bytes: Seq<u8>)
    requires
        m.termios.c_lflag & ICANON != 0,
        forall|i: int|
            0 <= i < bytes.len() ==> #[trigger] line_byte(m.termios, bytes[i]) && translated(
                m.termios.c_iflag,
                bytes[i],
            ) == Some(bytes[i]),
    ensures
        typed_all(m, bytes).input == m.input,
        typed_all(m, bytes).canon == m.canon + bytes,
        typed_all(m, bytes).termios == m.termios,
        translated(m.termios.c_iflag, 10) == Some(10u8) && signal_char(m.termios, 10) is None
            && m.termios.c_cc@[2] != 10 && m.termios.c_cc@[4] != 10 ==> typed_all(
            m,
            bytes.push(10),
        ).input == capped_all(m.input, (m.canon + bytes).push(10)),
    decreases bytes.len(),
{
    assert(bytes.push(10).drop_last() =~= bytes);
    if bytes.len() > 0 {
        let head = bytes.drop_last();
        assert forall|i: int| 0 <= i < head.len() implies #[trigger] line_byte(m.termios, head[i])
            && translated(m.termios.c_iflag, head[i]) == Some(head[i]) by {
            assert(line_byte(m.termios, bytes[i]));
        }
        law_line_hidden_until_newline(m, head);
        assert(line_byte(m.termios, bytes[bytes.len() - 1]));
        assert(m.canon + bytes =~= (m.canon + head).push(bytes.last()));
    } else {
        assert(m.canon + bytes =~= m.canon);
    }
    assert(typed_all(m, bytes.push(10)) == typed(typed_all(m, bytes), 10));
}

/// Erasing takes back the last byte of the edited line, whatever came before it.
pub proof fn law_erase_undoes(m: PtyModel, b: u8)
    requires
        m.termios.c_lflag & ICANON != 0,
        line_byte(m.termios, b),
        translated(m.termios.c_iflag, m.termios.c_cc@[2]) == Some(m.termios.c_cc@[2]),
        signal_char(m.termios, m.termios.c_cc@[2]) is None,
    ensures
        typed(typed(m, b), m.termios.c_cc@[2]).canon == m.canon,
        typed(typed(m, b), m.termios.c_cc@[2]).input == m.input,
{
    let c = translated(m.termios.c_iflag, b)->0;
    assert(m.canon.push(c).drop_last() =~= m.canon);
}

/// What is set through either end is what either end reports.
pub proof fn law_settings_shared(m: PtyModel, set_by: bool, got_by: bool, a: PtyArg, caller: i32)
    ensures
        control_reply(
            control_state(m, set_by, TCSETS as int, Some(a)),
            got_by,
            TCGETS as int,
            Some(a),
            caller,
        ) == Ok::<PtyReply, FsError>(PtyReply::Attributes(a.termios)),
        control_reply(
            control_state(m, set_by, TIOCSWINSZ as int, Some(a)),
            got_by,
            TIOCGWINSZ as int,
            Some(a),
            caller,
        ) == Ok::<PtyReply, FsError>(PtyReply::Size(a.winsize)),
        a.value != 0 ==> control_reply(
            control_state(m, set_by, TIOCSPGRP as int, Some(a)),
            got_by,
            TIOCGPGRP as int,
            Some(a),
            caller,
        ) == Ok::<PtyReply, FsError>(PtyReply::Group(a.value)),
{
}

/// A terminal never reports that it has no foreground group.
pub proof fn law_group_never_zero(fg_pgrp: i32, caller_pgid: i32)
    ensures
        reported_group(fg_pgrp, caller_pgid) != 0,
{
}

proof fn lemma_posted_push(oflag: u32, bytes: Seq<u8>, b: u8)
    ensures
        posted(oflag, bytes.push(b)) == if oflag & OPOST != 0 && oflag & ONLCR != 0 && b == 10 {
            posted(oflag, bytes).push(13u8).push(10u8)
        } else {
            posted(oflag, bytes).push(b)
        },
{
    assert(bytes.push(b).drop_last() =~= bytes);
}

/// Without output processing, or without newline translation, what a program writes reaches the
/// terminal byte for byte.
pub proof fn law_unprocessed_output_verbatim(oflag: u32, bytes: Seq<u8>)
    requires
        oflag & 1 == 0 || oflag & 4 == 0,
    ensures
        posted(oflag, bytes) == bytes,
    decreases bytes.len(),
{
    if bytes.len() > 0 {
        law_unprocessed_output_verbatim(oflag, bytes.drop_last());
        lemma_posted_push(oflag, bytes.drop_last(), bytes.last());
        assert(bytes =~= bytes.drop_last().push(bytes.last()));
    }
}

/// With both, every newline reaches the terminal as a return and a newline, and every other byte as
/// it is; what one write gives is what its parts give one after the other.
pub proof fn law_newlines_get_returns(oflag: u32, a: Seq<u8>, b: u8)
    requires
        oflag & 1 != 0,
        oflag & 4 != 0,
    ensures
        posted(oflag, Seq::<u8>::empty()) == Seq::<u8>::empty(),
        b == 10 ==> posted(oflag, a.push(b)) == posted(oflag, a) + seq![13u8, 10u8],
        b != 10 ==> posted(oflag, a.push(b)) == posted(oflag, a) + seq![b],
{
    lemma_posted_push(oflag, a, b);
    assert(posted(oflag, a).push(13u8).push(10u8) =~= posted(oflag, a) + seq![13u8, 10u8]);
    assert(posted(oflag, a).push(b) =~= posted(oflag, a) + seq![b]);
}

/// What reaches a queue is a front part of what was sent to it: all of it with room for it, and as
/// much as there is room for otherwise. What was queued before stays in front.
pub proof fn law_queue_takes_what_fits(q: Seq<u8>, bytes: Seq<u8>)
    requires
        q.len() <= 16384,
    ensures
        q.len() + bytes.len() <= 16384 ==> capped_all(q, bytes) == q + bytes,
        q.len() + bytes.len() > 16384 ==> capped_all(q, bytes) == q + bytes.take(16384 - q.len()),
    decreases bytes.len(),
{
    if q.len() + bytes.len() <= 16384 {
        lemma_capped_room(q, bytes);
    } else {
        let front = bytes.drop_last();
        law_queue_takes_what_fits(q, front);
        assert(front.take(16384 - q.len()) =~= bytes.take(16384 - q.len()));
        if q.len() + front.len() <= 16384 {
            assert(front =~= bytes.take(16384 - q.len()));
        }
    }
}

/// How returns and newlines are translated as they are typed: a return is dropped, becomes a newline
/// or stays, in this order of settings; a newline becomes a return or stays; no other byte changes.
pub proof fn law_typed_returns(iflag: u32, b: u8)
    ensures
        b != 13 && b != 10 ==> translated(iflag, b) == Some(b),
        translated(iflag, b) is None <==> b == 13 && iflag & 0x80 != 0,
        iflag & 0x80 == 0 && iflag & 0x100 != 0 ==> translated(iflag, 13) == Some(10u8),
        iflag & 0x80 == 0 && iflag & 0x100 == 0 ==> translated(iflag, 13) == Some(13u8),
        iflag & 0x40 != 0 ==> translated(iflag, 10) == Some(13u8),
        iflag & 0x40 == 0 ==> translated(iflag, 10) == Some(10u8),
{
}

/// A signal is sent exactly where signals are on, the byte, as translated, is one of the two keys, and
/// there is a group to send it to; such a byte is neither part of a line nor input.
pub proof fn law_signal_keys(m: PtyModel, b: u8)
    requires
        translated(m.termios.c_iflag, b) == Some(b),
    ensures
        typed_signal(m, b) is Some <==> m.termios.c_lflag & 1 != 0 && (b == m.termios.c_cc@[0] || b
            == m.termios.c_cc@[1]) && m.fg_pgrp > 0,
        typed_signal(m, b) matches Some((g, s)) ==> g == m.fg_pgrp && (b == m.termios.c_cc@[0] <==> s
            == TtySignal::Interrupt),
        m.termios.c_lflag & 1 != 0 && (b == m.termios.c_cc@[0] || b == m.termios.c_cc@[1]) ==> typed(
            m,
            b,
        ).input == m.input && typed(m, b).canon == m.canon,
{
}

/// A typed byte is echoed exactly where echo is on, as the terminal shows it, and never taken away from
/// what is queued for the terminal; the settings stay as they are.
pub proof fn law_echo(m: PtyModel, b: u8)
    requires
        translated(m.termios.c_iflag, b) == Some(b),
    ensures
        typed(m, b).termios == m.termios,
        typed(m, b).winsize == m.winsize,
        typed(m, b).fg_pgrp == m.fg_pgrp,
        typed(m, b).master_open == m.master_open,
        typed(m, b).num == m.num,
        m.termios.c_lflag & 8 == 0 && m.termios.c_lflag & (8u32 | 16u32) == 0 ==> typed(m, b).output
            == m.output,
        m.termios.c_lflag & 8 != 0 && (m.termios.c_lflag & 2 == 0 || (b != m.termios.c_cc@[2] && b
            != m.termios.c_cc@[4])) ==> typed(m, b).output == capped_all(m.output, rendered(b)),
        m.termios.c_lflag & 8 != 0 && m.termios.c_lflag & 1 != 0 && (b == m.termios.c_cc@[0] || b
            == m.termios.c_cc@[1]) ==> typed(m, b).output == capped_all(m.output, rendered(b)),
{
}

/// How the terminal shows a byte: control bytes as a caret and a letter, everything else as it is.
pub proof fn law_shown_bytes(b: u8)
    ensures
        b == 10 || b == 9 || 32 <= b < 127 || b >= 128 ==> rendered(b) == seq![b],
        b < 32 && b != 10 && b != 9 ==> rendered(b).len() == 2 && rendered(b)[0] == 94 && rendered(
            b,
        )[1] == b + 64,
        b == 127 ==> rendered(b) == seq![94u8, 63u8],
{
}

/// With line editing, the erase key takes a byte off the line and off the screen, and off nothing else;
/// on an empty line it does nothing. The end-of-file key hands over the line as it stands.
pub proof fn law_editing_keys(m: PtyModel, b: u8)
    requires
        m.termios.c_lflag & 2 != 0,
        translated(m.termios.c_iflag, b) == Some(b),
        m.termios.c_lflag & 1 == 0 || (b != m.termios.c_cc@[0] && b != m.termios.c_cc@[1]),
    ensures
        b == m.termios.c_cc@[2] && m.canon.len() == 0 ==> typed(m, b) == m,
        b == m.termios.c_cc@[2] && m.canon.len() > 0 ==> typed(m, b).canon == m.canon.drop_last()
            && typed(m, b).input == m.input,
        b == m.termios.c_cc@[2] && m.canon.len() > 0 && m.termios.c_lflag & (8u32 | 16u32) != 0
            ==> typed(m, b).output == capped_all(m.output, seq![8u8, 32u8, 8u8]),
        b != m.termios.c_cc@[2] && b == m.termios.c_cc@[4] ==> typed(m, b).input == capped_all(
            m.input,
            m.canon,
        ) && typed(m, b).canon.len() == 0 && typed(m, b).output == m.output,
        b != m.termios.c_cc@[2] && b != m.termios.c_cc@[4] && b != 10 ==> typed(m, b).canon
            == m.canon.push(b) && typed(m, b).input == m.input,
        b != m.termios.c_cc@[2] && b != m.termios.c_cc@[4] && b == 10 ==> typed(m, b).input
            == capped_all(m.input, m.canon.push(b)) && typed(m, b).canon.len() == 0,
{
}

/// A read takes from the front of what is queued as much as it has room for.
pub proof fn law_read_takes(q: Seq<u8>, room: nat)
    ensures
        taken(q, room) <= q.len(),
        taken(q, room) <= room,
        taken(q, room) == q.len() || taken(q, room) == room,
{
}

/// The program's end need not wait exactly where something was typed or the terminal is gone; the
/// terminal's end exactly where something was written.
pub proof fn law_who_waits(m: PtyModel)
    ensures
        ready(m, true) <==> m.output.len() != 0,
        ready(m, false) <==> m.input.len() != 0 || !m.master_open,
{
}

/// Controls touch one setting each and nothing that is queued; those that fail, and those that only
/// ask, touch nothing.
pub proof fn law_controls_touch_one_setting(m: PtyModel, master: bool, cmd: int, a: PtyArg, caller: i32)
    ensures
        ({
            let s = control_state(m, master, cmd, Some(a));
            &&& s.output == m.output && s.input == m.input && s.canon == m.canon
            &&& s.num == m.num && s.master_open == m.master_open
            &&& cmd == 0x5402 || cmd == 0x5403 || cmd == 0x5404 ==> s.termios == a.termios
            &&& !(cmd == 0x5402 || cmd == 0x5403 || cmd == 0x5404) ==> s.termios == m.termios
            &&& cmd == 0x5414 ==> s.winsize == a.winsize
            &&& cmd != 0x5414 ==> s.winsize == m.winsize
            &&& cmd == 0x5410 ==> s.fg_pgrp == a.value
            &&& cmd != 0x5410 ==> s.fg_pgrp == m.fg_pgrp
            &&& cmd == 0x4004_5431 && master ==> s.locked == a.value
            &&& cmd != 0x4004_5431 || !master ==> s.locked == m.locked
            &&& control_state(m, master, cmd, None) == m
            &&& control_reply(m, master, cmd, Some(a), caller) is Err ==> s == m
        }),
{
}

/// What the number of a pair is asked of: the terminal's end answers, the program's end refuses.
pub proof fn law_pair_number(m: PtyModel, a: PtyArg, caller: i32)
    ensures
        control_reply(m, true, 0x8004_5430, Some(a), caller) == Ok::<PtyReply, FsError>(
            PtyReply::Number(m.num),
        ),
        control_reply(m, false, 0x8004_5430, Some(a), caller) == Err::<PtyReply, FsError>(
            FsError::InvalidParam,
        ),
        control_reply(m, false, 0x4004_5431, Some(a), caller) == Err::<PtyReply, FsError>(
            FsError::InvalidParam,
        ),
        m.fg_pgrp != 0 ==> reported_group(m.fg_pgrp, caller) == m.fg_pgrp,
        m.fg_pgrp == 0 && caller != 0 ==> reported_group(m.fg_pgrp, caller) == caller,
{
}

/// Reading program output moves the oldest bytes into the buffer: what was read followed by what is
/// left is what was there. A buffer is left short only by running out of bytes. Nothing else of the
/// terminal changes, and with no output the reader is told to try again.
pub proof fn law_master_reads_oldest(
    m: PtyModel,
    buf: Seq<u8>,
    r: Result<usize, FsError>,
    m2: PtyModel,
    buf2: Seq<u8>,
)
    requires
        master_read(m, buf, r, m2, buf2),
    ensures
        r is Err <==> m.output.len() == 0,
        r is Err ==> r == Err::<usize, FsError>(FsError::Again) && m2 == m && buf2 == buf,
        r matches Ok(n) ==> n <= buf.len() && buf2.take(n as int) + m2.output == m.output,
        r matches Ok(n) ==> n == buf.len() || m2.output.len() == 0,
        buf2.len() == buf.len(),
        r matches Ok(n) ==> buf2.skip(n as int) == buf.skip(n as int),
        m2.input == m.input && m2.canon == m.canon && m2.termios == m.termios && m2.master_open
            == m.master_open && m2.fg_pgrp == m.fg_pgrp && m2.locked == m.locked && m2.num == m.num
            && m2.winsize == m.winsize,
{
    if let Ok(n) = r {
        assert(buf2.take(n as int) =~= m.output.take(n as int));
        assert(buf2.take(n as int) + m2.output =~= m.output);
        assert(buf2.skip(n as int) =~= buf.skip(n as int));
    }
}

/// Reading typed bytes moves the oldest of them into the buffer: what was read followed by what is
/// left is what was there. With nothing typed the reader is told to try again while the master is
/// there, and sees an end of file once it is gone. Nothing else of the terminal changes.
pub proof fn law_slave_reads_oldest(
    m: PtyModel,
    buf: Seq<u8>,
    r: Result<usize, FsError>,
    m2: PtyModel,
    buf2: Seq<u8>,
)
    requires
        slave_read(m, buf, r, m2, buf2),
    ensures
        r is Err <==> m.input.len() == 0 && m.master_open,
        r is Err ==> r == Err::<usize, FsError>(FsError::Again) && m2 == m && buf2 == buf,
        m.input.len() == 0 && !m.master_open ==> r == Ok::<usize, FsError>(0) && buf2 == buf,
        r matches Ok(n) ==> n <= buf.len() && buf2.take(n as int) + m2.input == m.input,
        r matches Ok(n) ==> n == buf.len() || m2.input.len() == 0,
        buf2.len() == buf.len(),
        r matches Ok(n) ==> buf2.skip(n as int) == buf.skip(n as int),
        m2.output == m.output && m2.canon == m.canon && m2.termios == m.termios && m2.master_open
            == m.master_open && m2.fg_pgrp == m.fg_pgrp && m2.locked == m.locked && m2.num == m.num
            && m2.winsize == m.winsize,
{
    if let Ok(n) = r {
        assert(buf2.take(n as int) =~= m.input.take(n as int));
        assert(buf2.take(n as int) + m2.input =~= m.input);
        assert(buf2.skip(n as int) =~= buf.skip(n as int));
        if m.input.len() == 0 {
            assert(buf2 =~= buf);
        }
    }
}

/// A wait is over exactly where a read would not be told to try again. Until then it registers once,
/// and stays registered.
pub proof fn law_wait_matches_read(
    m: PtyModel,
    f: PtyReadFuture,
    buf: Seq<u8>,
    r: Result<usize, FsError>,
    m2: PtyModel,
    buf2: Seq<u8>,
)
    requires
        if f.master {
            master_read(m, buf, r, m2, buf2)
        } else {
            slave_read(m, buf, r, m2, buf2)
        },
    ensures
        wait_next(m, f).0 is Ready <==> r is Ok,
        wait_next(m, f).0 is Register ==> !f.armed && wait_next(m, f).1.armed,
        r is Err ==> wait_next(m, wait_next(m, f).1).0 is Retain,
        r is Ok ==> wait_next(m, f).1 == f,
        wait_next(m, f).1.master == f.master,
        wait_next(m, f).0 matches PtyWaitStep::Ready(p) ==> p.read && p.write && !p.error,
{
}

/// A terminal begins with nothing typed and nothing shown, locked and without a foreground group, and
/// cooked: it turns carriage returns into newlines, newlines into both on the way out, edits lines,
/// echoes, and sends signals. Interrupting is done by control-C, and lines end by control-D.
pub proof fn law_fresh_terminal(m: PtyModel, num: u32)
    requires
        fresh(m, num),
    ensures
        m.output.len() == 0 && m.input.len() == 0 && m.canon.len() == 0,
        m.master_open && m.locked == 1 && m.fg_pgrp == 0 && m.num == num,
        m.winsize.ws_row == 24 && m.winsize.ws_col == 80,
        m.termios.c_iflag & 0x100 != 0,
        m.termios.c_oflag & 0x1 != 0 && m.termios.c_oflag & 0x4 != 0,
        m.termios.c_lflag & 0x1 != 0 && m.termios.c_lflag & 0x2 != 0 && m.termios.c_lflag & 0x8 != 0,
        m.termios.c_cc@[0] == 3 && m.termios.c_cc@[1] == 28 && m.termios.c_cc@[2] == 127
            && m.termios.c_cc@[3] == 21 && m.termios.c_cc@[4] == 4 && m.termios.c_cc@[10] == 26,
        !ready(m, true) && !ready(m, false),
{
    assert(0x2500u32 & 0x100 != 0 && 0x5u32 & 0x1 != 0 && 0x5u32 & 0x4 != 0 && 0x803bu32 & 0x1 != 0
        && 0x803bu32 & 0x2 != 0 && 0x803bu32 & 0x8 != 0) by (bit_vector);
}

/// A slave is found by its number in digits, and only while it is alive.
pub proof fn law_slave_by_number(live: Map<u32, usize>, n: u32, name: Seq<char>)
    ensures
        live.contains_key(n) ==> named_slave(live, crate::text::decimal_text(n as nat)) == Some(live[n]),
        !live.contains_key(n) ==> named_slave(live, crate::text::decimal_text(n as nat)) is None,
        named_slave(live, name) matches Some(i) ==> exists|k: u32| #[trigger]
            live.contains_key(k) && live[k] == i,
        name.len() == 0 ==> named_slave(live, name) is None,
{
    crate::text::law_number_roundtrip(n as nat, u32::MAX as int);
}

} // verus!
