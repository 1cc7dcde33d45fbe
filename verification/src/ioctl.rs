//! Terminal control numbers and the records they exchange.
use vstd::prelude::*;

verus! {

pub const TCGETS: usize = 0x5401;

pub const TCSETS: usize = 0x5402;

pub const TCSETSW: usize = 0x5403;

pub const TCSETSF: usize = 0x5404;

/// The kernel's `struct termios`: 36 bytes, with the line speed in `c_cflag`.
#[derive(Clone, Copy)]
pub struct Termios {
    pub c_iflag: u32,
    pub c_oflag: u32,
    pub c_cflag: u32,
    pub c_lflag: u32,
    pub c_line: u8,
    pub c_cc: [u8; 19],
}

/// The control characters of a cooked terminal, from `VINTR` to `VEOL2`.
pub open spec fn default_cc() -> Seq<u8> {
    seq![
        3, 28, 127, 21, 4, 0, 1, 0, 17, 19, 26, 0, 18, 15, 23, 22, 0, 0, 0,
    ]
}

impl Termios {
    /// A cooked terminal: signals, line editing and echo on, carriage returns mapped to newlines
    /// on input and newlines to both on output.
    pub fn default_tty() -> (t: Self)
        ensures
            t.c_iflag == 0x2500,
            t.c_oflag == 0x0005,
            t.c_cflag == 0x04bf,
            t.c_lflag == 0x803b,
            t.c_line == 0,
            t.c_cc@ == default_cc(),
    {
        let c_cc: [u8; 19] = [
            3,
            28,
            127,
            21,
            4,
            0,
            1,
            0,
            17,
            19,
            26,
            0,
            18,
            15,
            23,
            22,
            0,
            0,
            0,
        ];
        assert(c_cc@ =~= default_cc());
        Termios {
            c_iflag: 0x2500,
            c_oflag: 0x0005,
            c_cflag: 0x04bf,
            c_lflag: 0x803b,
            c_line: 0,
            c_cc,
        }
    }
}

pub const TIOCGPGRP: usize = 0x540F;

pub const TIOCSPGRP: usize = 0x5410;

pub const TIOCGWINSZ: usize = 0x5413;

pub const TIOCSWINSZ: usize = 0x5414;

/// Console multiplexor; the subcommand is the first byte of the argument.
pub const TIOCLINUX: usize = 0x541c;

/// Subcommand: read the keyboard's shift state.
pub const TIOCL_GETSHIFTSTATE: u8 = 6;

pub const FIONCLEX: usize = 0x5450;

pub const FIOCLEX: usize = 0x5451;

pub const FIONBIO: usize = 0x5421;

/// Bytes available to read.
pub const FIONREAD: usize = 0x541B;

/// Bytes waiting in the input queue.
pub const TIOCINQ: usize = FIONREAD;

/// Bytes still queued for output.
pub const TIOCOUTQ: usize = 0x5411;

/// Session of the terminal.
pub const TIOCGSID: usize = 0x5429;

/// Serial line counters.
pub const TIOCGICOUNT: usize = 0x545D;

/// Serial line event counters.
#[derive(Clone, Copy)]
pub struct SerialIcounter {
    pub cts: i32,
    pub dsr: i32,
    pub rng: i32,
    pub dcd: i32,
    pub rx: i32,
    pub tx: i32,
    pub frame: i32,
    pub overrun: i32,
    pub parity: i32,
    pub brk: i32,
    pub buf_overrun: i32,
    pub reserved: [i32; 9],
}

impl Default for SerialIcounter {
    /// A virtual terminal has no line: nothing was ever counted.
    fn default() -> (c: Self)
        ensures
            c.cts == 0,
            c.dsr == 0,
            c.rng == 0,
            c.dcd == 0,
            c.rx == 0,
            c.tx == 0,
            c.frame == 0,
            c.overrun == 0,
            c.parity == 0,
            c.brk == 0,
            c.buf_overrun == 0,
            forall|k: int| 0 <= k < 9 ==> #[trigger] c.reserved@[k] == 0,
    {
        SerialIcounter {
            cts: 0,
            dsr: 0,
            rng: 0,
            dcd: 0,
            rx: 0,
            tx: 0,
            frame: 0,
            overrun: 0,
            parity: 0,
            brk: 0,
            buf_overrun: 0,
            reserved: [0;9],
        }
    }
}

pub const TIOCMGET: usize = 0x5415;

pub const TIOCMSET: usize = 0x5418;

pub const TIOCMBIS: usize = 0x5416;

pub const TIOCMBIC: usize = 0x5417;

pub const TIOCM_DTR: i32 = 0x002;

pub const TIOCM_RTS: i32 = 0x004;

pub const TIOCM_CTS: i32 = 0x020;

pub const TIOCM_CAR: i32 = 0x040;

pub const TIOCM_DSR: i32 = 0x100;

pub const KDGETMODE: usize = 0x4B3B;

pub const KDSETMODE: usize = 0x4B3A;

/// The kernel draws the console.
pub const KD_TEXT: usize = 0x00;

/// User space owns the framebuffer.
pub const KD_GRAPHICS: usize = 0x01;

pub const KDGKBTYPE: usize = 0x4B33;

/// 101-key keyboard.
pub const KB_101: u8 = 0x02;

pub const KDGKBMODE: usize = 0x4B44;

pub const KDSKBMODE: usize = 0x4B45;

pub const K_RAW: i32 = 0x00;

pub const K_XLATE: i32 = 0x01;

pub const K_MEDIUMRAW: i32 = 0x02;

pub const K_UNICODE: i32 = 0x03;

pub const K_OFF: i32 = 0x04;

pub const VT_OPENQRY: usize = 0x5600;

pub const VT_GETMODE: usize = 0x5601;

pub const VT_SETMODE: usize = 0x5602;

pub const VT_GETSTATE: usize = 0x5603;

pub const VT_RELDISP: usize = 0x5605;

pub const VT_ACTIVATE: usize = 0x5606;

pub const VT_WAITACTIVE: usize = 0x5607;

pub const VT_DISALLOCATE: usize = 0x5608;

/// The kernel switches terminals by itself.
pub const VT_AUTO: u8 = 0x00;

/// A process handles terminal switches.
pub const VT_PROCESS: u8 = 0x01;

/// How terminal switches are signalled.
#[derive(Clone, Copy, PartialEq, Eq, Structural, Debug)]
pub struct VtMode {
    pub mode: u8,
    pub waitv: u8,
    pub relsig: i16,
    pub acqsig: i16,
    pub frsig: i16,
}

impl VtMode {
    /// Automatic switching, without signals.
    pub fn auto() -> (m: Self)
        ensures
            m == (VtMode { mode: VT_AUTO, waitv: 0, relsig: 0, acqsig: 0, frsig: 0 }),
    {
        VtMode { mode: VT_AUTO, waitv: 0, relsig: 0, acqsig: 0, frsig: 0 }
    }
}

/// State of the virtual terminals.
#[derive(Clone, Copy, PartialEq, Eq, Structural, Debug)]
pub struct VtStat {
    pub v_active: u16,
    pub v_signal: u16,
    pub v_state: u16,
}

pub const TCFLSH: usize = 0x540B;

pub const TIOCSCTTY: usize = 0x540E;

pub const TIOCNOTTY: usize = 0x5422;

/// Number of a pseudo-terminal.
pub const TIOCGPTN: usize = 0x8004_5430;

/// Lock of a pseudo-terminal.
pub const TIOCSPTLCK: usize = 0x4004_5431;

pub const TIOCGPTPEER: usize = 0x5441;

pub const KDGETLED: usize = 0x4B11;

pub const KDSETLED: usize = 0x4B32;

pub const KDGKBENT: usize = 0x4B46;

pub const KDMKTONE: usize = 0x4B30;

pub const KT_LATIN: u16 = 0;

pub const KT_FN: u16 = 1;

pub const KT_SPEC: u16 = 2;

/// One cell of the keymap.
#[derive(Clone, Copy, PartialEq, Eq, Structural, Debug)]
pub struct KbEntry {
    pub kb_table: u8,
    pub kb_index: u8,
    pub kb_value: u16,
}

} // verus!
