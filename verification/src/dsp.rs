//! The simple playback node: interleaved 16-bit samples written as bytes, a handful of controls.
use vstd::prelude::*;
use crate::error::FsError;
use crate::vfs::{is_time_up, node_metadata, time_up, FileType, Metadata, PollStatus};

verus! {

/// The major number of the older sound nodes.
pub const DSP_MAJOR: usize = 14;

pub const SNDCTL_DSP_RESET: u32 = 0x0000_5000;

pub const SNDCTL_DSP_SYNC: u32 = 0x0000_5001;

pub const SNDCTL_DSP_SPEED: u32 = 0xc004_5002;

pub const SNDCTL_DSP_STEREO: u32 = 0xc004_5003;

pub const SNDCTL_DSP_GETBLKSIZE: u32 = 0xc004_5004;

pub const SNDCTL_DSP_SETFMT: u32 = 0xc004_5005;

pub const SNDCTL_DSP_CHANNELS: u32 = 0xc004_5006;

pub const SNDCTL_DSP_POST: u32 = 0x0000_5008;

pub const SNDCTL_DSP_SETFRAGMENT: u32 = 0xc004_500a;

pub const SNDCTL_DSP_GETFMTS: u32 = 0x8004_500b;

pub const SNDCTL_DSP_GETOSPACE: u32 = 0x8010_500c;

/// Signed 16-bit little-endian, the only format.
pub const AFMT_S16_LE: i32 = 0x10;

/// Nominal fragment size; it only shapes how clients buffer.
pub const FRAG_SIZE: usize = 4096;

/// What is known of the hardware when a request comes in.
#[derive(Clone, Copy)]
pub struct DspView {
    pub rate: u32,
    pub channels: u16,
    pub free: usize,
    pub total: usize,
    pub queued: usize,
}

/// Room of the playback buffer.
#[derive(Clone, Copy, PartialEq, Eq, Structural, Debug)]
pub struct AudioBufInfo {
    pub fragments: i32,
    pub fragstotal: i32,
    pub fragsize: i32,
    pub bytes: i32,
}

/// What a control hands back, and what is left to do for it.
#[derive(Clone, Copy, PartialEq, Eq, Structural, Debug)]
pub enum DspReply {
    Done,
    /// The value written back to the caller.
    Value(i32),
    Space(AudioBufInfo),
    /// The hardware's queue is to be dropped.
    ResetHardware,
    /// The queue is to be played out, for so many seconds at most.
    PlayOut(u64),
    /// The hardware is to be asked for this rate, with two channels.
    AskRate(u32),
}

/// Bytes that the hardware plays in a second, never none.
pub open spec fn byte_rate(v: DspView) -> int {
    let bps = v.rate * v.channels * 2;
    if bps == 0 {
        1
    } else {
        bps
    }
}

/// Seconds in which so many bytes play out, rounded up, and one more.
pub open spec fn seconds_for(v: DspView, bytes: int) -> int {
    (bytes + byte_rate(v) - 1) / byte_rate(v) + 1
}

pub fn drain_secs(v: DspView, bytes: usize) -> (secs: u64)
    requires
        bytes < 0xffff_ffff_ffff_0000,
    ensures
        secs == seconds_for(v, bytes as int),
{
    assert(v.rate * v.channels <= 0xffff_ffff * 0xffff) by (nonlinear_arith)
        requires
            v.rate <= 0xffff_ffff,
            v.channels <= 0xffff,
    ;
    assert(v.rate as u64 * v.channels as u64 >= 0) by (nonlinear_arith);
    let product: u64 = v.rate as u64 * v.channels as u64 * 2;
    let bps: u64 = if product == 0 {
        1
    } else {
        product
    };
    let whole: u64 = bytes as u64 / bps;
    proof {
        let b = bytes as int;
        let d = bps as int;
        vstd::arithmetic::div_mod::lemma_fundamental_div_mod(b, d);
        let q = b / d;
        let r = b % d;
        assert(0 <= q <= b) by (nonlinear_arith)
            requires
                b == d * q + r,
                d >= 1,
                0 <= r,
                b >= 0,
                q == b / d,
        ;
        if r == 0 {
            assert((b + d - 1) / d == q) by (nonlinear_arith)
                requires
                    b == d * q,
                    d >= 1,
            ;
        } else {
            assert((b + d - 1) / d == q + 1) by (nonlinear_arith)
                requires
                    b == d * q + r,
                    0 < r < d,
            ;
        }
    }
    if bytes as u64 % bps == 0 {
        whole + 1
    } else {
        whole + 2
    }
}

/// The playback node.
pub struct DspDev {
    pub index: usize,
}

/// What a control answers.
pub open spec fn dsp_answer(cmd: u32, value: i32, v: DspView) -> Result<DspReply, FsError> {
    if cmd == SNDCTL_DSP_RESET {
        Ok(DspReply::ResetHardware)
    } else if cmd == SNDCTL_DSP_SYNC || cmd == SNDCTL_DSP_POST {
        Ok(DspReply::PlayOut(seconds_for(v, v.queued as int) as u64))
    } else if cmd == SNDCTL_DSP_SPEED {
        Ok(
            DspReply::AskRate(
                if value < 0 {
                    0u32
                } else {
                    value as u32
                },
            ),
        )
    } else if cmd == SNDCTL_DSP_SETFMT || cmd == SNDCTL_DSP_GETFMTS {
        Ok(DspReply::Value(AFMT_S16_LE))
    } else if cmd == SNDCTL_DSP_CHANNELS {
        Ok(DspReply::Value(v.channels as i32))
    } else if cmd == SNDCTL_DSP_STEREO {
        Ok(DspReply::Value(1))
    } else if cmd == SNDCTL_DSP_GETBLKSIZE {
        Ok(DspReply::Value(4096))
    } else if cmd == SNDCTL_DSP_SETFRAGMENT {
        Ok(DspReply::Done)
    } else if cmd == SNDCTL_DSP_GETOSPACE {
        Ok(
            DspReply::Space(
                AudioBufInfo {
                    fragments: (v.free / FRAG_SIZE) as i32,
                    fragstotal: (v.total / FRAG_SIZE) as i32,
                    fragsize: 4096,
                    bytes: v.free as i32,
                },
            ),
        )
    } else {
        Err(FsError::NotSupported)
    }
}

/// What a write does next.
#[derive(Clone, Copy, PartialEq, Eq, Structural, Debug)]
pub enum WriteStep {
    /// Offer the rest from here; the deadline starts anew.
    More(usize),
    /// The ring is full: try again.
    Wait,
    Finished(usize),
    Failed(FsError),
}

/// What a write of `total` bytes, of which `done` are taken, does after the hardware took
/// `taken` more or failed.
pub open spec fn write_next(
    total: usize,
    done: usize,
    taken: Option<usize>,
    expired: bool,
) -> WriteStep {
    match taken {
        None => WriteStep::Failed(FsError::DeviceError),
        Some(n) => if n > 0 {
            if done + n < total {
                WriteStep::More((done + n) as usize)
            } else {
                WriteStep::Finished((done + n) as usize)
            }
        } else if !expired {
            WriteStep::Wait
        } else if done > 0 {
            WriteStep::Finished(done)
        } else {
            WriteStep::Failed(FsError::DeviceError)
        },
    }
}

impl DspDev {
    pub fn new(index: usize) -> (d: Self)
        ensures
            d.index == index,
    {
        DspDev { index }
    }

    pub fn read_at(&self) -> (r: Result<usize, FsError>)
        ensures
            r == Err::<usize, FsError>(FsError::NotSupported),
    {
        Err(FsError::NotSupported)
    }

    /// Decides how a write goes on. A ring of which nothing was taken for `idle_ns` nanoseconds, as
    /// long as all of it takes to play out, ends it: with what was written, or with an error if that
    /// was nothing.
    pub fn write_step(
        &self,
        v: DspView,
        total: usize,
        done: usize,
        taken: Option<usize>,
        idle_ns: u64,
    ) -> (s: WriteStep)
        requires
            done <= total,
            taken matches Some(n) ==> n <= total - done,
            v.total < 0xffff_ffff_ffff_0000,
        ensures
            s == write_next(
                total,
                done,
                taken,
                time_up(idle_ns, seconds_for(v, v.total as int) as u64),
            ),
    {
        match taken {
            None => WriteStep::Failed(FsError::DeviceError),
            Some(n) => {
                if n > 0 {
                    if done + n < total {
                        WriteStep::More(done + n)
                    } else {
                        WriteStep::Finished(done + n)
                    }
                } else if !is_time_up(idle_ns, drain_secs(v, v.total)) {
                    WriteStep::Wait
                } else if done > 0 {
                    WriteStep::Finished(done)
                } else {
                    WriteStep::Failed(FsError::DeviceError)
                }
            },
        }
    }

    /// Whether playing out is over after so many nanoseconds: nothing is queued any more, or the
    /// `secs` seconds that it may take have passed.
    pub fn played_out(&self, queued: usize, secs: u64, elapsed_ns: u64) -> (over: bool)
        ensures
            over == (queued == 0 || time_up(elapsed_ns, secs)),
    {
        queued == 0 || is_time_up(elapsed_ns, secs)
    }

    pub fn poll(&self, v: DspView) -> (p: PollStatus)
        ensures
            p == (PollStatus { read: false, write: v.free > 0, error: false }),
    {
        PollStatus { read: false, write: v.free > 0, error: false }
    }

    /// Carries out a control, as far as it needs no answer of the hardware. `value` is what the
    /// caller's argument holds.
    pub fn io_control(&self, cmd: u32, value: i32, v: DspView) -> (r: Result<DspReply, FsError>)
        requires
            v.queued < 0xffff_ffff_ffff_0000,
        ensures
            r == dsp_answer(cmd, value, v),
    {
        if cmd == SNDCTL_DSP_RESET {
            Ok(DspReply::ResetHardware)
        } else if cmd == SNDCTL_DSP_SYNC || cmd == SNDCTL_DSP_POST {
            Ok(DspReply::PlayOut(drain_secs(v, v.queued)))
        } else if cmd == SNDCTL_DSP_SPEED {
            let rate: u32 = if value < 0 {
                0
            } else {
                value as u32
            };
            Ok(DspReply::AskRate(rate))
        } else if cmd == SNDCTL_DSP_SETFMT || cmd == SNDCTL_DSP_GETFMTS {
            Ok(DspReply::Value(AFMT_S16_LE))
        } else if cmd == SNDCTL_DSP_CHANNELS {
            Ok(DspReply::Value(v.channels as i32))
        } else if cmd == SNDCTL_DSP_STEREO {
            Ok(DspReply::Value(1))
        } else if cmd == SNDCTL_DSP_GETBLKSIZE {
            Ok(DspReply::Value(4096))
        } else if cmd == SNDCTL_DSP_SETFRAGMENT {
            Ok(DspReply::Done)
        } else if cmd == SNDCTL_DSP_GETOSPACE {
            #[verifier::truncate]
            let fragments: i32 = (v.free / FRAG_SIZE) as i32;
            #[verifier::truncate]
            let fragstotal: i32 = (v.total / FRAG_SIZE) as i32;
            #[verifier::truncate]
            let bytes: i32 = v.free as i32;
            Ok(DspReply::Space(AudioBufInfo { fragments, fragstotal, fragsize: 4096, bytes }))
        } else {
            Err(FsError::NotSupported)
        }
    }

    /// What dropping the queue answers.
    pub fn after_reset(&self, ok: bool) -> (r: Result<(), FsError>)
        ensures
            r == (if ok {
                Ok::<(), FsError>(())
            } else {
                Err(FsError::DeviceError)
            }),
    {
        if ok {
            Ok(())
        } else {
            Err(FsError::DeviceError)
        }
    }

    /// What asking for a rate answers: the rate that the hardware settled on.
    pub fn after_rate(&self, actual: Option<u32>) -> (r: Result<i32, FsError>)
        ensures
            r == match actual {
                Some(a) => Ok::<i32, FsError>(a as i32),
                None => Err(FsError::DeviceError),
            },
    {
        match actual {
            Some(a) => {
                #[verifier::truncate]
                let rate: i32 = a as i32;
                Ok(rate)
            },
            None => Err(FsError::DeviceError),
        }
    }

    /// The minor number of the node.
    pub fn minor(&self) -> (n: usize)
        requires
            self.index <= 0x100_0000,
        ensures
            n == 3 + self.index * 16,
    {
        3 + self.index * 16
    }

    /// Metadata of the node, whose number is made of its major and minor number.
    pub fn metadata<F: Fn(usize, usize) -> usize>(&self, inode: usize, make_rdev: F) -> (m: Metadata)
        requires
            self.index <= 0x100_0000,
            make_rdev.requires((DSP_MAJOR, (3 + self.index * 16) as usize)),
        ensures
            make_rdev.ensures((DSP_MAJOR, (3 + self.index * 16) as usize), m.rdev),
            m == crate::vfs::bare_node(1, inode, FileType::CharDevice, 0o666, m.rdev),
    {
        node_metadata(1, inode, FileType::CharDevice, 0o666, make_rdev(DSP_MAJOR, self.minor()))
    }
}

/// A wait of that many seconds plays everything out: the hardware's rate times it covers the bytes.
pub proof fn law_drain_covers(v: DspView, bytes: int)
    requires
        0 <= bytes,
    ensures
        byte_rate(v) * (seconds_for(v, bytes) - 1) >= bytes,
{
    let d = byte_rate(v);
    assert(v.rate * v.channels >= 0) by (nonlinear_arith);
    assert(d >= 1);
    let q = (bytes + d - 1) / d;
    vstd::arithmetic::div_mod::lemma_fundamental_div_mod(bytes + d - 1, d);
    let r = (bytes + d - 1) % d;
    assert(d * q >= bytes) by (nonlinear_arith)
        requires
            bytes + d - 1 == d * q + r,
            r < d,
    ;
}

/// A second of sound is two bytes for each channel of each frame.
pub proof fn law_byte_rate(v: DspView)
    ensures
        v.rate > 0 && v.channels > 0 ==> byte_rate(v) == v.rate * v.channels * 2,
        v.rate == 0 || v.channels == 0 ==> byte_rate(v) == 1,
        byte_rate(v) >= 1,
{
    let n = v.rate * v.channels;
    assert(v.rate > 0 && v.channels > 0 ==> n > 0) by (nonlinear_arith)
        requires
            n == v.rate * v.channels,
    ;
    assert(v.rate == 0 || v.channels == 0 ==> n == 0) by (nonlinear_arith)
        requires
            n == v.rate * v.channels,
    ;
}

/// The time for a queue is its own, rounded up to seconds, and one second more.
pub proof fn law_seconds_for(v: DspView, bytes: int)
    requires
        0 <= bytes,
    ensures
        byte_rate(v) * (seconds_for(v, bytes) - 1) >= bytes,
        byte_rate(v) * (seconds_for(v, bytes) - 2) < bytes,
        bytes == 0 ==> seconds_for(v, bytes) == 1,
{
    law_byte_rate(v);
    let b = byte_rate(v);
    let n = bytes + b - 1;
    let q = n / b;
    vstd::arithmetic::div_mod::lemma_fundamental_div_mod(n, b);
    vstd::arithmetic::div_mod::lemma_mod_bound(n, b);
    assert(b * (q - 1) == b * q - b) by (nonlinear_arith);
    if bytes == 0 {
        vstd::arithmetic::div_mod::lemma_basic_div(n, b);
    }
}

/// A write goes on while the ring takes bytes; it waits for a full ring until its time is up, then ends
/// with what was taken, and fails where that is nothing or the hardware fails.
pub proof fn law_write_steps(total: usize, done: usize, n: usize, expired: bool)
    requires
        done <= total,
        n <= total - done,
    ensures
        n > 0 && done + n < total ==> (write_next(total, done, Some(n), expired) matches WriteStep::More(d)
            && d == done + n),
        n > 0 && done + n == total ==> (write_next(total, done, Some(n), expired) matches WriteStep::Finished(
            d,
        ) && d == total),
        n == 0 && !expired ==> write_next(total, done, Some(n), expired) is Wait,
        n == 0 && expired && done > 0 ==> (write_next(
            total,
            done,
            Some(n),
            expired,
        ) matches WriteStep::Finished(d) && d == done),
        n == 0 && expired && done == 0 ==> write_next(total, done, Some(n), expired) == WriteStep::Failed(
            FsError::DeviceError,
        ),
        write_next(total, done, None, expired) == WriteStep::Failed(FsError::DeviceError),
{
}

/// What the device answers: it plays 16 bits on the channels that it has, asks the hardware for the rate
/// that was asked for, tells its room in fragments of 4096 bytes, and knows no other command.
pub proof fn law_device_answers(cmd: u32, value: i32, v: DspView)
    requires
        v.free <= i32::MAX,
        v.total <= i32::MAX,
    ensures
        cmd == 0xc004_5005 || cmd == 0x8004_500b ==> dsp_answer(cmd, value, v) == Ok::<DspReply, FsError>(
            DspReply::Value(16),
        ),
        cmd == 0xc004_5006 ==> (dsp_answer(cmd, value, v) matches Ok(DspReply::Value(n)) && n == v.channels),
        cmd == 0xc004_5002 ==> (dsp_answer(cmd, value, v) matches Ok(DspReply::AskRate(n)) && n == (if value
            < 0 {
            0
        } else {
            value as int
        })),
        cmd == 0x8010_500c ==> (dsp_answer(cmd, value, v) matches Ok(DspReply::Space(s)) && s.bytes == v.free
            && s.fragsize == 4096 && 4096 * s.fragments <= v.free < 4096 * (s.fragments + 1) && 4096
            * s.fragstotal <= v.total < 4096 * (s.fragstotal + 1)),
        cmd == 0x5000 ==> dsp_answer(cmd, value, v) == Ok::<DspReply, FsError>(DspReply::ResetHardware),
        cmd == 0x5001 || cmd == 0x5008 ==> (dsp_answer(cmd, value, v) matches Ok(DspReply::PlayOut(s)) && s
            == seconds_for(v, v.queued as int) as u64),
        dsp_answer(cmd, value, v) is Err ==> dsp_answer(cmd, value, v) == Err::<DspReply, FsError>(
            FsError::NotSupported,
        ),
{
}

} // verus!
