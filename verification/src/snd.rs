//! The sound card's playback and control nodes.
//!
//! The hardware plays 16-bit stereo frames at one of a few rates out of a ring. A client's wishes
//! are refined to what the ring does; data is written in whole frames and the positions wrap at a
//! boundary both sides agree on.
use vstd::prelude::*;
use vstd::string::*;
use vstd::arithmetic::div_mod::{lemma_mod_add_multiples_vanish, lemma_small_mod, lemma_sub_mod_noop};
use crate::drm_props::{decimal, push_decimal};
use crate::error::FsError;
use crate::vfs::{is_time_up, node_metadata, time_up, FileType, Metadata, PollStatus};

verus! {

/// The major number of sound nodes.
pub const SND_MAJOR: usize = 116;

pub const SNDRV_PCM_VERSION: i32 = 0x0002_000e;

pub const SNDRV_CTL_VERSION: i32 = 0x0002_0007;

pub const STATE_OPEN: i32 = 0;

pub const STATE_SETUP: i32 = 1;

pub const STATE_PREPARED: i32 = 2;

pub const STATE_RUNNING: i32 = 3;

pub const SYNC_PTR_APPL: u32 = 2;

pub const SYNC_PTR_AVAIL_MIN: u32 = 4;

pub const INTERVAL_OPENMIN: u32 = 1;

pub const INTERVAL_OPENMAX: u32 = 2;

pub const INTERVAL_INTEGER: u32 = 4;

pub const INTERVAL_EMPTY: u32 = 8;

/// Interleaved access, the only one offered.
pub const ACCESS_MASK: u32 = 8;

/// Signed 16-bit little-endian samples, the only format offered.
pub const FORMAT_MASK: u32 = 4;

pub const SUBFORMAT_MASK: u32 = 1;

/// Interleaved, in blocks.
pub const HW_INFO: u32 = 0x0001_0100;

pub const HW_CMASK: u32 = 0x000f_ff07;

/// Bytes of a stereo frame of 16-bit samples.
pub const BYTES_PER_FRAME: u64 = 4;

/// Positions wrap somewhere at or above this.
pub const MIN_BOUNDARY: u64 = 0x4000_0000_0000_0000;

/// More frames than any ring has.
pub const MAX_RING: u64 = 0x4000_0000;

#[derive(Clone, Copy, PartialEq, Eq, Structural, Debug)]
pub struct SndInterval {
    pub min: u32,
    pub max: u32,
    pub flags: u32,
}

#[derive(Clone, Copy)]
pub struct SndMask {
    pub bits: [u32; 8],
}

/// A hardware configuration: what is allowed of each parameter.
#[derive(Clone, Copy)]
pub struct SndPcmHwParams {
    pub access: SndMask,
    pub format: SndMask,
    pub subformat: SndMask,
    pub sample_bits: SndInterval,
    pub frame_bits: SndInterval,
    pub channels: SndInterval,
    pub rate: SndInterval,
    pub period_time: SndInterval,
    pub period_size: SndInterval,
    pub period_bytes: SndInterval,
    pub periods: SndInterval,
    pub buffer_time: SndInterval,
    pub buffer_size: SndInterval,
    pub buffer_bytes: SndInterval,
    pub tick_time: SndInterval,
    pub cmask: u32,
    pub info: u32,
    pub msbits: u32,
    pub rate_num: u32,
    pub rate_den: u32,
    pub fifo_size: u64,
}

/// The rates that the hardware has, in order.
pub open spec fn rates() -> Seq<u32> {
    seq![8000, 11025, 16000, 22050, 32000, 44100, 48000, 88200, 96000, 176400, 192000]
}

fn rate_table() -> (v: [u32; 11])
    ensures
        v@ == rates(),
{
    let v: [u32; 11] = [
        8000,
        11025,
        16000,
        22050,
        32000,
        44100,
        48000,
        88200,
        96000,
        176400,
        192000,
    ];
    assert(v@ =~= rates());
    v
}

/// The lowest rate that is at least `x`, from index `i` on.
pub open spec fn rate_up(x: u32, i: int) -> Option<u32>
    decreases 11 - i,
{
    if i < 0 || i >= 11 {
        None
    } else if rates()[i] >= x {
        Some(rates()[i])
    } else {
        rate_up(x, i + 1)
    }
}

/// The highest rate that is at most `x`, among the first `i`.
pub open spec fn rate_down(x: u32, i: int) -> Option<u32>
    decreases i,
{
    if i <= 0 || i > 11 {
        None
    } else if rates()[i - 1] <= x {
        Some(rates()[i - 1])
    } else {
        rate_down(x, i - 1)
    }
}

fn find_rate_up(x: u32) -> (r: Option<u32>)
    ensures
        r == rate_up(x, 0),
{
    let t = rate_table();
    let mut i: usize = 0;
    while i < 11
        invariant
            i <= 11,
            t@ == rates(),
            rate_up(x, 0) == rate_up(x, i as int),
        decreases 11 - i,
    {
        if t[i] >= x {
            return Some(t[i]);
        }
        i = i + 1;
    }
    None
}

fn find_rate_down(x: u32) -> (r: Option<u32>)
    ensures
        r == rate_down(x, 11),
{
    let t = rate_table();
    let mut i: usize = 11;
    while i > 0
        invariant
            i <= 11,
            t@ == rates(),
            rate_down(x, 11) == rate_down(x, i as int),
        decreases i,
    {
        if t[i - 1] <= x {
            return Some(t[i - 1]);
        }
        i = i - 1;
    }
    None
}

/// An interval cut down to `lo..=hi`.
pub open spec fn clamped(iv: SndInterval, lo: u32, hi: u32, integer: bool) -> SndInterval {
    let min = if iv.min < lo {
        lo
    } else {
        iv.min
    };
    let max = if iv.max > hi {
        hi
    } else {
        iv.max
    };
    let f1 = if iv.min < lo {
        iv.flags & !INTERVAL_OPENMIN
    } else {
        iv.flags
    };
    let f2 = if iv.max > hi {
        f1 & !INTERVAL_OPENMAX
    } else {
        f1
    };
    let f3 = if integer {
        f2 | INTERVAL_INTEGER
    } else {
        f2
    };
    SndInterval {
        min,
        max,
        flags: if min > max {
            f3 | INTERVAL_EMPTY
        } else {
            f3
        },
    }
}

/// Whether an interval has any value.
pub open spec fn holds_some(iv: SndInterval) -> bool {
    iv.min <= iv.max
}

pub fn clamp_interval(iv: &mut SndInterval, lo: u32, hi: u32, integer: bool) -> (ok: bool)
    ensures
        *final(iv) == clamped(*old(iv), lo, hi, integer),
        ok == holds_some(*final(iv)),
{
    if iv.min < lo {
        iv.min = lo;
        iv.flags = iv.flags & !INTERVAL_OPENMIN;
    }
    if iv.max > hi {
        iv.max = hi;
        iv.flags = iv.flags & !INTERVAL_OPENMAX;
    }
    if integer {
        iv.flags = iv.flags | INTERVAL_INTEGER;
    }
    if iv.min > iv.max {
        iv.flags = iv.flags | INTERVAL_EMPTY;
        return false;
    }
    true
}

pub fn set_interval(iv: &mut SndInterval, v: u32) -> (ok: bool)
    ensures
        *final(iv) == clamped(*old(iv), v, v, true),
        ok == holds_some(*final(iv)),
{
    clamp_interval(iv, v, v, true)
}

/// A mask cut down to one word; the words past the second are cleared.
pub open spec fn masked(m: SndMask, word: u32, second: u32) -> Seq<u32> {
    seq![m.bits@[0] & word, second, 0u32, 0u32, 0u32, 0u32, 0u32, 0u32]
}

fn cut_mask(m: &mut SndMask, word: u32, second: u32) -> (ok: bool)
    ensures
        final(m).bits@ == masked(*old(m), word, second),
        ok == (final(m).bits@[0] != 0),
{
    let first: u32 = m.bits[0] & word;
    let bits: [u32; 8] = [first, second, 0, 0, 0, 0, 0, 0];
    assert(bits@ =~= masked(*m, word, second));
    *m = SndMask { bits };
    first != 0
}

/// The rate interval snapped to the rates that the hardware has.
pub open spec fn snapped(iv: SndInterval) -> SndInterval {
    match (rate_up(iv.min, 0), rate_down(iv.max, 11)) {
        (Some(lo), Some(hi)) => if lo <= hi {
            clamped(iv, lo, hi, true)
        } else {
            SndInterval { flags: iv.flags | INTERVAL_EMPTY, ..iv }
        },
        _ => SndInterval { flags: iv.flags | INTERVAL_EMPTY, ..iv },
    }
}

/// Whether the hardware has a rate in the interval.
pub open spec fn rate_possible(iv: SndInterval) -> bool {
    match (rate_up(iv.min, 0), rate_down(iv.max, 11)) {
        (Some(lo), Some(hi)) => lo <= hi,
        _ => false,
    }
}

/// A rate as a divisor.
pub open spec fn at_least_one(n: u32) -> u32 {
    if n == 0 {
        1
    } else {
        n
    }
}

/// How long `frames` take at most, in microseconds, one more for rounding.
pub open spec fn longest_us(frames: int, rate_min: u32) -> u32 {
    (frames * 1_000_000 / (at_least_one(rate_min) as int) + 1) as u32
}

/// How long `frames` take at least, in microseconds.
pub open spec fn shortest_us(frames: int, rate_max: u32) -> u32 {
    at_least_one((frames * 1_000_000 / (at_least_one(rate_max) as int)) as u32)
}

/// What refining leaves of a request, for a ring of `ring` frames.
pub open spec fn refined(p: SndPcmHwParams, q: SndPcmHwParams, ring: u32) -> bool {
    &&& q.access.bits@ == masked(p.access, ACCESS_MASK, p.access.bits@[1])
    &&& q.format.bits@ == masked(p.format, FORMAT_MASK, 0)
    &&& q.subformat.bits@ == masked(p.subformat, SUBFORMAT_MASK, p.subformat.bits@[1])
    &&& q.sample_bits == clamped(p.sample_bits, 16, 16, true)
    &&& q.frame_bits == clamped(p.frame_bits, 32, 32, true)
    &&& q.channels == clamped(p.channels, 2, 2, true)
    &&& q.rate == snapped(p.rate)
    &&& q.period_size == clamped(p.period_size, 64, 8192, true)
    &&& q.period_bytes == clamped(p.period_bytes, 256, 32768, true)
    &&& q.periods == clamped(p.periods, 2, 512, true)
    &&& q.buffer_size == clamped(p.buffer_size, 128, ring, true)
    &&& q.buffer_bytes == clamped(p.buffer_bytes, 512, (ring * 4) as u32, true)
    &&& q.period_time == clamped(
        p.period_time,
        shortest_us(64, q.rate.max),
        longest_us(8192, q.rate.min),
        false,
    )
    &&& q.buffer_time == clamped(
        p.buffer_time,
        shortest_us(128, q.rate.max),
        longest_us(ring as int, q.rate.min),
        false,
    )
    &&& q.tick_time == clamped(p.tick_time, 0, 1_000_000, false)
    &&& q.info == HW_INFO
    &&& q.msbits == 16
    &&& q.rate_den == 1
    &&& q.rate_num == 0
    &&& q.fifo_size == 0
    &&& q.cmask == HW_CMASK
}

/// Whether a refined request can be met: no parameter is left without a value.
pub open spec fn possible(p: SndPcmHwParams, q: SndPcmHwParams) -> bool {
    &&& q.access.bits@[0] != 0
    &&& q.format.bits@[0] != 0
    &&& q.subformat.bits@[0] != 0
    &&& holds_some(q.sample_bits)
    &&& holds_some(q.frame_bits)
    &&& holds_some(q.channels)
    &&& rate_possible(p.rate)
    &&& holds_some(q.rate)
    &&& holds_some(q.period_size)
    &&& holds_some(q.period_bytes)
    &&& holds_some(q.periods)
    &&& holds_some(q.buffer_size)
    &&& holds_some(q.buffer_bytes)
    &&& holds_some(q.period_time)
    &&& holds_some(q.buffer_time)
    &&& holds_some(q.tick_time)
}

fn snap_rate(r: &mut SndInterval) -> (ok: bool)
    ensures
        *final(r) == snapped(*old(r)),
        ok == (rate_possible(*old(r)) && holds_some(*final(r))),
{
    let lo = find_rate_up(r.min);
    let hi = find_rate_down(r.max);
    match (lo, hi) {
        (Some(lo), Some(hi)) => {
            if lo <= hi {
                return clamp_interval(r, lo, hi, true);
            }
        },
        _ => {},
    }
    r.flags = r.flags | INTERVAL_EMPTY;
    false
}

fn shortest(frames: u64, rate_max: u32) -> (us: u32)
    requires
        frames < MAX_RING,
    ensures
        us == shortest_us(frames as int, rate_max),
{
    let rate: u64 = if rate_max == 0 {
        1
    } else {
        rate_max as u64
    };
    #[verifier::truncate]
    let us: u32 = (frames * 1_000_000 / rate) as u32;
    if us == 0 {
        1
    } else {
        us
    }
}

fn longest(frames: u64, rate_min: u32) -> (us: u32)
    requires
        frames < MAX_RING,
    ensures
        us == longest_us(frames as int, rate_min),
{
    let rate: u64 = if rate_min == 0 {
        1
    } else {
        rate_min as u64
    };
    assert(frames * 1_000_000 / rate as int <= frames * 1_000_000) by (nonlinear_arith)
        requires
            rate >= 1,
    ;
    #[verifier::truncate]
    let us: u32 = (frames * 1_000_000 / rate + 1) as u32;
    us
}

/// Cuts a request down to what the hardware does. False where a parameter has no value left.
pub fn refine(p: &mut SndPcmHwParams, ring: u32) -> (ok: bool)
    requires
        ring < MAX_RING,
    ensures
        refined(*old(p), *final(p), ring),
        ok == possible(*old(p), *final(p)),
{
    let a1: u32 = p.access.bits[1];
    let s1: u32 = p.subformat.bits[1];
    let mut ok: bool = cut_mask(&mut p.access, ACCESS_MASK, a1);
    ok = cut_mask(&mut p.format, FORMAT_MASK, 0) && ok;
    ok = cut_mask(&mut p.subformat, SUBFORMAT_MASK, s1) && ok;
    ok = set_interval(&mut p.sample_bits, 16) && ok;
    ok = set_interval(&mut p.frame_bits, 32) && ok;
    ok = set_interval(&mut p.channels, 2) && ok;
    ok = snap_rate(&mut p.rate) && ok;
    ok = clamp_interval(&mut p.period_size, 64, 8192, true) && ok;
    ok = clamp_interval(&mut p.period_bytes, 256, 32768, true) && ok;
    ok = clamp_interval(&mut p.periods, 2, 512, true) && ok;
    ok = clamp_interval(&mut p.buffer_size, 128, ring, true) && ok;
    ok = clamp_interval(&mut p.buffer_bytes, 512, ring * 4, true) && ok;
    let rate_min: u32 = p.rate.min;
    let rate_max: u32 = p.rate.max;
    ok = clamp_interval(
        &mut p.period_time,
        shortest(64, rate_max),
        longest(8192, rate_min),
        false,
    ) && ok;
    ok = clamp_interval(
        &mut p.buffer_time,
        shortest(128, rate_max),
        longest(ring as u64, rate_min),
        false,
    ) && ok;
    ok = clamp_interval(&mut p.tick_time, 0, 1_000_000, false) && ok;
    p.info = HW_INFO;
    p.msbits = 16;
    p.rate_den = 1;
    p.rate_num = 0;
    p.fifo_size = 0;
    p.cmask = HW_CMASK;
    ok
}

/// The values to play with.
#[derive(Clone, Copy, PartialEq, Eq, Structural, Debug)]
pub struct Plan {
    pub rate: u32,
    pub period: u64,
    pub buffer: u64,
}

/// The frames to buffer: the least allowed, or something comfortable where the client leaves the
/// choice wide open.
pub open spec fn chosen_buffer(q: SndPcmHwParams) -> int {
    let least = q.buffer_size.min as int;
    let most = q.buffer_size.max as int;
    let period = q.period_size.min as int;
    if most > least * 4 {
        if period * 8 < least {
            least
        } else if period * 8 > most {
            most
        } else {
            period * 8
        }
    } else {
        least
    }
}

/// The values chosen inside a request that can be met.
pub open spec fn planned(q: SndPcmHwParams) -> Plan {
    Plan {
        rate: q.rate.min,
        period: q.period_size.min as u64,
        buffer: chosen_buffer(q) as u64,
    }
}

proof fn lemma_rate_up(x: u32, i: int)
    requires
        0 <= i <= 11,
    ensures
        rate_up(x, i) matches Some(r) ==> r >= x && r >= 8000 && rate_up(r, i) == Some(r),
    decreases 11 - i,
{
    if i < 11 && rates()[i] < x {
        lemma_rate_up(x, i + 1);
        assert(rates()[i] < x);
    }
}

proof fn lemma_rate_down(x: u32, i: int)
    requires
        0 <= i <= 11,
    ensures
        rate_down(x, i) matches Some(r) ==> r <= x,
    decreases i,
{
    if i > 0 && rates()[i - 1] > x {
        lemma_rate_down(x, i - 1);
    }
}

/// Refines a request and chooses the values to play with.
pub fn plan(p: &mut SndPcmHwParams, ring: u32) -> (r: Result<Plan, FsError>)
    requires
        ring < MAX_RING,
    ensures
        refined(*old(p), *final(p), ring),
        r == (if possible(*old(p), *final(p)) {
            Ok::<Plan, FsError>(planned(*final(p)))
        } else {
            Err(FsError::InvalidParam)
        }),
{
    if !refine(p, ring) {
        return Err(FsError::InvalidParam);
    }
    proof {
        lemma_rate_up(old(p).rate.min, 0);
        lemma_rate_down(old(p).rate.max, 11);
    }
    let rate: u32 = match find_rate_up(p.rate.min) {
        Some(r) => r,
        None => {
            return Err(FsError::InvalidParam);
        },
    };
    let period: u64 = p.period_size.min as u64;
    let least: u64 = p.buffer_size.min as u64;
    let most: u64 = p.buffer_size.max as u64;
    let mut buffer: u64 = least;
    if most > least * 4 {
        buffer = period * 8;
        if buffer < least {
            buffer = least;
        }
        if buffer > most {
            buffer = most;
        }
    }
    Ok(Plan { rate, period, buffer })
}

/// State of the playback stream.
#[derive(Clone, Copy, PartialEq, Eq, Structural, Debug)]
pub struct PcmState {
    pub state: i32,
    pub rate: u32,
    pub buffer_size: u64,
    pub period_size: u64,
    pub boundary: u64,
    pub appl_ptr: u64,
    pub avail_min: u64,
}

/// The positions wrap somewhere, and the buffer fits a ring.
pub open spec fn sound(st: PcmState) -> bool {
    st.boundary > 0 && st.buffer_size < MAX_RING
}

/// `boundary` is `buffer` doubled some number of times.
pub open spec fn doubled(buffer: int, boundary: int) -> bool
    decreases boundary,
{
    boundary == buffer || (boundary > 0 && boundary % 2 == 0 && doubled(buffer, boundary / 2))
}

/// The playback stream after a configuration was installed.
pub open spec fn installed(st: PcmState, plan: Plan, actual_rate: u32, boundary: u64) -> PcmState {
    PcmState {
        state: STATE_SETUP,
        rate: actual_rate,
        buffer_size: plan.buffer,
        period_size: plan.period,
        boundary,
        appl_ptr: 0,
        ..st
    }
}

/// Where positions wrap: the buffer doubled until it is no longer small.
pub open spec fn wraps_at(buffer: u64, boundary: u64) -> bool {
    &&& doubled(buffer as int, boundary as int)
    &&& boundary >= MIN_BOUNDARY
    &&& boundary == buffer || boundary / 2 < MIN_BOUNDARY
}

fn boundary_of(buffer: u64) -> (b: u64)
    requires
        0 < buffer,
    ensures
        wraps_at(buffer, b),
{
    let mut b: u64 = buffer;
    while b < MIN_BOUNDARY
        invariant
            0 < b,
            doubled(buffer as int, b as int),
            b == buffer || b / 2 < MIN_BOUNDARY,
        decreases u64::MAX - b,
    {
        assert((b * 2) % 2 == 0 && (b * 2) / 2 == b);
        b = b * 2;
    }
    b
}

/// A configuration reported back with the values it was installed with.
pub open spec fn reported(p: SndPcmHwParams, q: SndPcmHwParams, plan: Plan, actual_rate: u32) -> bool {
    let period = plan.period as u32;
    let buffer = plan.buffer as u32;
    let pt = (plan.period * 1_000_000 / (actual_rate as int)) as u32;
    let bt = (plan.buffer * 1_000_000 / (actual_rate as int)) as u32;
    let periods = if plan.buffer / plan.period == 0 {
        1u32
    } else {
        (plan.buffer / plan.period) as u32
    };
    q == (SndPcmHwParams {
        rate: clamped(p.rate, actual_rate, actual_rate, true),
        period_size: clamped(p.period_size, period, period, true),
        period_bytes: clamped(p.period_bytes, (period * 4) as u32, (period * 4) as u32, true),
        buffer_size: clamped(p.buffer_size, buffer, buffer, true),
        buffer_bytes: clamped(p.buffer_bytes, (buffer * 4) as u32, (buffer * 4) as u32, true),
        periods: clamped(p.periods, periods, periods, true),
        period_time: clamped(p.period_time, pt, one_more(pt), false),
        buffer_time: clamped(p.buffer_time, bt, one_more(bt), false),
        rate_num: actual_rate,
        rate_den: 1,
        ..p
    })
}

/// One more, wrapping around.
pub open spec fn one_more(n: u32) -> u32 {
    if n == u32::MAX {
        0
    } else {
        (n + 1) as u32
    }
}

fn span_us(frames: u64, rate: u32) -> (us: u32)
    requires
        frames < MAX_RING,
        rate > 0,
    ensures
        us == (frames * 1_000_000 / (rate as int)) as u32,
{
    #[verifier::truncate]
    let us: u32 = (frames * 1_000_000 / rate as u64) as u32;
    us
}

/// Installs the planned values, with the rate that the hardware settled on; `actual` is missing
/// where the hardware refused. The request is narrowed to the values in effect.
pub fn install(
    st: &mut PcmState,
    p: &mut SndPcmHwParams,
    plan: Plan,
    actual: Option<u32>,
) -> (r: Result<(), FsError>)
    requires
        0 < plan.buffer < MAX_RING,
        0 < plan.period <= 8192,
        actual matches Some(a) ==> a > 0,
    ensures
        match actual {
            None => r == Err::<(), FsError>(FsError::DeviceError) && *final(st) == *old(st)
                && *final(p) == *old(p),
            Some(a) => {
                &&& r == Ok::<(), FsError>(())
                &&& wraps_at(plan.buffer, final(st).boundary)
                &&& *final(st) == installed(*old(st), plan, a, final(st).boundary)
                &&& reported(*old(p), *final(p), plan, a)
                &&& sound(*final(st))
            },
        },
{
    let rate: u32 = match actual {
        Some(a) => a,
        None => {
            return Err(FsError::DeviceError);
        },
    };
    st.rate = rate;
    st.period_size = plan.period;
    st.buffer_size = plan.buffer;
    st.appl_ptr = 0;
    st.boundary = boundary_of(plan.buffer);
    st.state = STATE_SETUP;
    let period: u32 = plan.period as u32;
    let buffer: u32 = plan.buffer as u32;
    assert(plan.buffer / plan.period <= plan.buffer) by (nonlinear_arith)
        requires
            plan.period > 0,
    ;
    let ratio: u64 = plan.buffer / plan.period;
    let periods: u32 = if ratio == 0 {
        1
    } else {
        ratio as u32
    };
    let pt: u32 = span_us(plan.period, rate);
    let bt: u32 = span_us(plan.buffer, rate);
    let _ = set_interval(&mut p.rate, rate);
    let _ = set_interval(&mut p.period_size, period);
    let _ = set_interval(&mut p.period_bytes, period * 4);
    let _ = set_interval(&mut p.buffer_size, buffer);
    let _ = set_interval(&mut p.buffer_bytes, buffer * 4);
    let _ = set_interval(&mut p.periods, periods);
    let _ = clamp_interval(&mut p.period_time, pt, pt.wrapping_add(1), false);
    let _ = clamp_interval(&mut p.buffer_time, bt, bt.wrapping_add(1), false);
    p.rate_num = rate;
    p.rate_den = 1;
    Ok(())
}

/// Frames that the hardware has yet to play.
pub open spec fn frames_of(bytes: u64) -> u64 {
    bytes / 4
}

/// Frames that the client may write.
pub open spec fn room(st: PcmState, queued: u64) -> u64 {
    if st.buffer_size >= frames_of(queued) {
        (st.buffer_size - frames_of(queued)) as u64
    } else {
        0
    }
}

/// Where the hardware plays: the client's position less what is queued.
pub open spec fn play_position(st: PcmState, queued: u64) -> int {
    (st.appl_ptr - frames_of(queued)) % (st.boundary as int)
}

/// A position advanced by some frames.
pub open spec fn advanced(st: PcmState, frames: int) -> int {
    (st.appl_ptr + frames) % (st.boundary as int)
}

pub fn avail(st: &PcmState, queued_bytes: u64) -> (n: u64)
    ensures
        n == room(*st, queued_bytes),
{
    st.buffer_size.saturating_sub(queued_bytes / BYTES_PER_FRAME)
}

pub fn hw_ptr(st: &PcmState, queued_bytes: u64) -> (n: u64)
    requires
        sound(*st),
    ensures
        n == play_position(*st, queued_bytes),
{
    let queued: u64 = queued_bytes / BYTES_PER_FRAME;
    let b: u64 = st.boundary;
    let a: u64 = st.appl_ptr % b;
    let q: u64 = queued % b;
    proof {
        lemma_sub_mod_noop(st.appl_ptr as int, queued as int, b as int);
        lemma_mod_add_multiples_vanish(a - q, b as int);
    }
    if a >= q {
        proof {
            lemma_small_mod((a - q) as nat, b as nat);
        }
        a - q
    } else {
        proof {
            lemma_small_mod((b + (a - q)) as nat, b as nat);
        }
        b - (q - a)
    }
}

/// How the stream stands.
#[derive(Clone, Copy, PartialEq, Eq, Structural, Debug)]
pub struct SndPcmStatus {
    pub state: i32,
    pub appl_ptr: u64,
    pub hw_ptr: u64,
    pub delay: i64,
    pub avail: u64,
    pub avail_max: u64,
    pub sec: i64,
    pub nsec: i64,
}

/// How the stream stands at a moment.
pub open spec fn standing(st: PcmState, queued: u64, sec: i64, nsec: i64) -> SndPcmStatus {
    SndPcmStatus {
        state: st.state,
        appl_ptr: st.appl_ptr,
        hw_ptr: play_position(st, queued) as u64,
        delay: frames_of(queued) as i64,
        avail: room(st, queued),
        avail_max: st.buffer_size,
        sec,
        nsec,
    }
}

pub fn fill_status(st: &PcmState, queued_bytes: u64, sec: i64, nsec: i64) -> (s: SndPcmStatus)
    requires
        sound(*st),
    ensures
        s == standing(*st, queued_bytes, sec, nsec),
{
    SndPcmStatus {
        state: st.state,
        appl_ptr: st.appl_ptr,
        hw_ptr: hw_ptr(st, queued_bytes),
        delay: (queued_bytes / BYTES_PER_FRAME) as i64,
        avail: avail(st, queued_bytes),
        avail_max: st.buffer_size,
        sec,
        nsec,
    }
}

/// How many seconds draining may take: what is queued at full rate, and two more, at most ten.
pub fn drain_deadline(queued_bytes: u64) -> (secs: u64)
    ensures
        secs == drain_secs(queued_bytes),
{
    let secs: u64 = queued_bytes / 192_000 + 2;
    if secs < 10 {
        secs
    } else {
        10
    }
}

/// Bytes to hand to the hardware next: what is left of the request, within the negotiated buffer,
/// and nothing under a frame.
pub open spec fn next_chunk(st: PcmState, queued: u64, left: u64) -> u64 {
    let space = (room(st, queued) * 4) as u64;
    let chunk = if space < left {
        space
    } else {
        left
    };
    if chunk < 4 {
        0
    } else {
        chunk
    }
}

pub fn write_chunk(st: &PcmState, queued_bytes: u64, total: u64, done: u64) -> (n: u64)
    requires
        sound(*st),
        done <= total,
    ensures
        n == next_chunk(*st, queued_bytes, (total - done) as u64),
        n <= total - done,
{
    let space: u64 = avail(st, queued_bytes) * BYTES_PER_FRAME;
    let left: u64 = total - done;
    let chunk: u64 = if space < left {
        space
    } else {
        left
    };
    if chunk < BYTES_PER_FRAME {
        0
    } else {
        chunk
    }
}

/// The stream after the hardware took some bytes.
pub open spec fn written(st: PcmState, bytes: u64) -> PcmState {
    PcmState { appl_ptr: advanced(st, frames_of(bytes) as int) as u64, state: STATE_RUNNING, ..st }
}

pub fn write_progress(st: &mut PcmState, bytes: u64)
    requires
        sound(*old(st)),
    ensures
        *final(st) == written(*old(st), bytes),
        sound(*final(st)),
{
    let next: u128 = (st.appl_ptr as u128 + (bytes / BYTES_PER_FRAME) as u128) % (
    st.boundary as u128);
    st.appl_ptr = next as u64;
    st.state = STATE_RUNNING;
}

/// How many seconds a transfer of which the hardware takes nothing goes on.
pub const STALL_SECS: u64 = 4;

/// How a transfer goes on.
#[derive(Clone, Copy, PartialEq, Eq, Structural, Debug)]
pub enum TransferStep {
    /// So many bytes are written, and more are to follow.
    More(u64),
    /// The hardware is to be given time.
    Wait,
    /// The transfer is over after so many frames.
    Finished(i64),
    Failed(FsError),
}

/// How a transfer goes on after the hardware took some bytes, or failed.
pub open spec fn transfer_next(total: u64, done: u64, taken: Option<u64>, expired: bool) -> TransferStep {
    match taken {
        None => TransferStep::Failed(FsError::DeviceError),
        Some(n) => if n > 0 && done + n < total {
            TransferStep::More((done + n) as u64)
        } else if n > 0 || expired {
            TransferStep::Finished(((done + n) / 4) as i64)
        } else {
            TransferStep::Wait
        },
    }
}

/// The state of a stream after the hardware took some bytes, or failed to.
pub open spec fn moved_on(st: PcmState, taken: Option<u64>) -> PcmState {
    match taken {
        Some(n) => if n > 0 {
            written(st, n)
        } else {
            st
        },
        None => st,
    }
}

/// A transfer reports no more frames than were asked for, and all of them unless it was given up.
pub proof fn law_transfer_complete(frames: u64, done: u64, taken: u64, expired: bool)
    requires
        frames * 4 <= u64::MAX,
        done < frames * 4,
        taken <= frames * 4 - done,
    ensures
        transfer_next((frames * 4) as u64, done, Some(taken), expired) matches TransferStep::Finished(
            n,
        ) ==> 0 <= n <= frames && (taken > 0 || !expired ==> n == frames),
{
}

/// What is known of the hardware when a control comes in.
#[derive(Clone, Copy)]
pub struct PcmView {
    pub ring_bytes: u64,
    pub queued_bytes: u64,
    pub sec: i64,
    pub nsec: i64,
}

/// A ring is of moderate size.
pub open spec fn plausible(v: PcmView) -> bool {
    v.ring_bytes / 4 < MAX_RING
}

/// The positions that client and kernel exchange.
#[derive(Clone, Copy, PartialEq, Eq, Structural, Debug)]
pub struct SyncPtr {
    pub flags: u32,
    pub appl_ptr: u64,
    pub avail_min: u64,
}

/// The kernel's side of an exchange.
#[derive(Clone, Copy, PartialEq, Eq, Structural, Debug)]
pub struct SyncStatus {
    pub appl_ptr: u64,
    pub avail_min: u64,
    pub state: i32,
    pub hw_ptr: u64,
    pub suspended_state: i32,
    pub sec: i64,
    pub nsec: i64,
}

/// The stream after an exchange of positions.
pub open spec fn synced(st: PcmState, s: SyncPtr) -> PcmState {
    PcmState {
        appl_ptr: if s.flags & SYNC_PTR_APPL != 0 {
            s.appl_ptr % st.boundary
        } else {
            st.appl_ptr
        },
        avail_min: if s.flags & SYNC_PTR_AVAIL_MIN != 0 && s.avail_min > 0 {
            s.avail_min
        } else {
            st.avail_min
        },
        ..st
    }
}

/// What an exchange hands back: a side that the client set is its own.
pub open spec fn sync_reply(st: PcmState, s: SyncPtr, v: PcmView) -> SyncStatus {
    let after = synced(st, s);
    SyncStatus {
        appl_ptr: if s.flags & SYNC_PTR_APPL != 0 {
            s.appl_ptr
        } else {
            st.appl_ptr
        },
        avail_min: if s.flags & SYNC_PTR_AVAIL_MIN != 0 {
            s.avail_min
        } else {
            st.avail_min
        },
        state: st.state,
        hw_ptr: play_position(after, v.queued_bytes) as u64,
        suspended_state: st.state,
        sec: v.sec,
        nsec: v.nsec,
    }
}

pub fn sync_ptr(st: &mut PcmState, s: SyncPtr, v: PcmView) -> (r: SyncStatus)
    requires
        sound(*old(st)),
    ensures
        *final(st) == synced(*old(st), s),
        r == sync_reply(*old(st), s, v),
        sound(*final(st)),
{
    let mut appl: u64 = s.appl_ptr;
    if s.flags & SYNC_PTR_APPL != 0 {
        st.appl_ptr = s.appl_ptr % st.boundary;
    } else {
        appl = st.appl_ptr;
    }
    let mut least: u64 = s.avail_min;
    if s.flags & SYNC_PTR_AVAIL_MIN != 0 {
        if s.avail_min > 0 {
            st.avail_min = s.avail_min;
        }
    } else {
        least = st.avail_min;
    }
    SyncStatus {
        appl_ptr: appl,
        avail_min: least,
        state: st.state,
        hw_ptr: hw_ptr(st, v.queued_bytes),
        suspended_state: st.state,
        sec: v.sec,
        nsec: v.nsec,
    }
}

/// A control of the playback node with what it carries.
#[derive(Clone, Copy)]
pub enum PcmRequest {
    Version,
    Info,
    Accepted,
    Refine(SndPcmHwParams),
    Configure(SndPcmHwParams),
    Free,
    Software { avail_min: u64, boundary: u64 },
    Status,
    Delay,
    Sync(SyncPtr),
    Prepare,
    Reset,
    Start,
    Drop,
    Drain,
    Write { frames: u64 },
}

/// A control of the playback node by its number.
#[derive(Clone, Copy, PartialEq, Eq, Structural, Debug)]
pub enum PcmCall {
    Version,
    Info,
    Accepted,
    Refine,
    Configure,
    Free,
    Software,
    Status,
    Delay,
    Sync,
    Prepare,
    Reset,
    Start,
    Drop,
    Drain,
    Write,
}

/// What a control number asks for. Only the type and number bytes count, not the size.
pub open spec fn pcm_call(cmd: u32) -> Option<PcmCall> {
    let nr = cmd % 256;
    if (cmd / 256) % 256 != 0x41 {
        None
    } else if nr == 0x00 {
        Some(PcmCall::Version)
    } else if nr == 0x01 {
        Some(PcmCall::Info)
    } else if nr == 0x02 || nr == 0x03 || nr == 0x04 || nr == 0x22 || nr == 0x47 || nr == 0x48 {
        Some(PcmCall::Accepted)
    } else if nr == 0x10 {
        Some(PcmCall::Refine)
    } else if nr == 0x11 {
        Some(PcmCall::Configure)
    } else if nr == 0x12 {
        Some(PcmCall::Free)
    } else if nr == 0x13 {
        Some(PcmCall::Software)
    } else if nr == 0x20 || nr == 0x24 {
        Some(PcmCall::Status)
    } else if nr == 0x21 {
        Some(PcmCall::Delay)
    } else if nr == 0x23 {
        Some(PcmCall::Sync)
    } else if nr == 0x40 {
        Some(PcmCall::Prepare)
    } else if nr == 0x41 {
        Some(PcmCall::Reset)
    } else if nr == 0x42 {
        Some(PcmCall::Start)
    } else if nr == 0x43 {
        Some(PcmCall::Drop)
    } else if nr == 0x44 {
        Some(PcmCall::Drain)
    } else if nr == 0x50 {
        Some(PcmCall::Write)
    } else {
        None
    }
}

/// Recognises a control of the playback node.
pub fn classify_pcm(cmd: u32) -> (r: Result<PcmCall, FsError>)
    ensures
        r == match pcm_call(cmd) {
            Some(c) => Ok::<PcmCall, FsError>(c),
            None => Err(FsError::NotSupported),
        },
{
    let nr: u32 = cmd % 256;
    if (cmd / 256) % 256 != 0x41 {
        return Err(FsError::NotSupported);
    }
    match nr {
        0x00 => Ok(PcmCall::Version),
        0x01 => Ok(PcmCall::Info),
        0x02 | 0x03 | 0x04 | 0x22 | 0x47 | 0x48 => Ok(PcmCall::Accepted),
        0x10 => Ok(PcmCall::Refine),
        0x11 => Ok(PcmCall::Configure),
        0x12 => Ok(PcmCall::Free),
        0x13 => Ok(PcmCall::Software),
        0x20 | 0x24 => Ok(PcmCall::Status),
        0x21 => Ok(PcmCall::Delay),
        0x23 => Ok(PcmCall::Sync),
        0x40 => Ok(PcmCall::Prepare),
        0x41 => Ok(PcmCall::Reset),
        0x42 => Ok(PcmCall::Start),
        0x43 => Ok(PcmCall::Drop),
        0x44 => Ok(PcmCall::Drain),
        0x50 => Ok(PcmCall::Write),
        _ => Err(FsError::NotSupported),
    }
}

/// What the argument of a control points to.
pub enum PcmArg {
    Nothing,
    Params(SndPcmHwParams),
    Software { avail_min: u64, boundary: u64 },
    Sync(SyncPtr),
    Frames(u64),
}

/// What a control with an argument asks for; nothing where the argument is another control's.
pub open spec fn request_of(call: PcmCall, arg: PcmArg) -> Option<PcmRequest> {
    match call {
        PcmCall::Version => Some(PcmRequest::Version),
        PcmCall::Info => Some(PcmRequest::Info),
        PcmCall::Accepted => Some(PcmRequest::Accepted),
        PcmCall::Free => Some(PcmRequest::Free),
        PcmCall::Status => Some(PcmRequest::Status),
        PcmCall::Delay => Some(PcmRequest::Delay),
        PcmCall::Prepare => Some(PcmRequest::Prepare),
        PcmCall::Reset => Some(PcmRequest::Reset),
        PcmCall::Start => Some(PcmRequest::Start),
        PcmCall::Drop => Some(PcmRequest::Drop),
        PcmCall::Drain => Some(PcmRequest::Drain),
        PcmCall::Refine => match arg {
            PcmArg::Params(p) => Some(PcmRequest::Refine(p)),
            _ => None,
        },
        PcmCall::Configure => match arg {
            PcmArg::Params(p) => Some(PcmRequest::Configure(p)),
            _ => None,
        },
        PcmCall::Software => match arg {
            PcmArg::Software { avail_min, boundary } => Some(
                PcmRequest::Software { avail_min, boundary },
            ),
            _ => None,
        },
        PcmCall::Sync => match arg {
            PcmArg::Sync(s) => Some(PcmRequest::Sync(s)),
            _ => None,
        },
        PcmCall::Write => match arg {
            PcmArg::Frames(frames) => Some(PcmRequest::Write { frames }),
            _ => None,
        },
    }
}

fn make_request(call: PcmCall, arg: PcmArg) -> (r: Option<PcmRequest>)
    ensures
        r == request_of(call, arg),
{
    match call {
        PcmCall::Version => Some(PcmRequest::Version),
        PcmCall::Info => Some(PcmRequest::Info),
        PcmCall::Accepted => Some(PcmRequest::Accepted),
        PcmCall::Free => Some(PcmRequest::Free),
        PcmCall::Status => Some(PcmRequest::Status),
        PcmCall::Delay => Some(PcmRequest::Delay),
        PcmCall::Prepare => Some(PcmRequest::Prepare),
        PcmCall::Reset => Some(PcmRequest::Reset),
        PcmCall::Start => Some(PcmRequest::Start),
        PcmCall::Drop => Some(PcmRequest::Drop),
        PcmCall::Drain => Some(PcmRequest::Drain),
        PcmCall::Refine => match arg {
            PcmArg::Params(p) => Some(PcmRequest::Refine(p)),
            _ => None,
        },
        PcmCall::Configure => match arg {
            PcmArg::Params(p) => Some(PcmRequest::Configure(p)),
            _ => None,
        },
        PcmCall::Software => match arg {
            PcmArg::Software { avail_min, boundary } => Some(
                PcmRequest::Software { avail_min, boundary },
            ),
            _ => None,
        },
        PcmCall::Sync => match arg {
            PcmArg::Sync(s) => Some(PcmRequest::Sync(s)),
            _ => None,
        },
        PcmCall::Write => match arg {
            PcmArg::Frames(frames) => Some(PcmRequest::Write { frames }),
            _ => None,
        },
    }
}

/// A fixed field of a string: cut to the field, with at least one zero behind it.
pub open spec fn cstr(s: Seq<u8>, width: nat) -> Seq<u8> {
    Seq::new(
        width,
        |i: int|
            if i < s.len() && i + 1 < width {
                s[i]
            } else {
                0u8
            },
    )
}

/// Fills a fixed field of a string.
pub fn fill_cstr(s: &[u8], width: usize) -> (v: Vec<u8>)
    requires
        width > 0,
    ensures
        v@ == cstr(s@, width as nat),
{
    let mut v: Vec<u8> = Vec::new();
    for i in 0..width
        invariant
            v@.len() == i,
            forall|k: int| 0 <= k < i ==> v@[k] == #[trigger] cstr(s@, width as nat)[k],
    {
        if i < s.len() && i < width - 1 {
            v.push(s[i]);
        } else {
            v.push(0);
        }
    }
    assert(v@ =~= cstr(s@, width as nat));
    v
}

/// What a playback device is.
pub struct SndPcmInfo {
    pub device: u32,
    pub subdevice: u32,
    pub stream: i32,
    pub card: i32,
    pub id: Vec<u8>,
    pub name: Vec<u8>,
    pub subname: Vec<u8>,
    pub subdevices_count: u32,
    pub subdevices_avail: u32,
}

/// The description of the playback device of a card.
pub open spec fn describes(i: SndPcmInfo, card: usize, subdevice: u32, name: Seq<char>) -> bool {
    &&& i.device == 0
    &&& i.subdevice == subdevice
    &&& i.stream == 0
    &&& i.card == card as i32
    &&& i.id@ == cstr("Eclipse HDA".spec_bytes(), 64)
    &&& i.name@ == cstr(vstd::utf8::encode_utf8(name), 80)
    &&& i.subname@ == cstr("subdevice #0".spec_bytes(), 32)
    &&& i.subdevices_count == 1
    &&& i.subdevices_avail == 1
}

pub fn pcm_info(card: usize, subdevice: u32, name: &str) -> (i: SndPcmInfo)
    ensures
        describes(i, card, subdevice, name@),
{
    #[verifier::truncate]
    let number: i32 = card as i32;
    SndPcmInfo {
        device: 0,
        subdevice,
        stream: 0,
        card: number,
        id: fill_cstr("Eclipse HDA".as_bytes(), 64),
        name: fill_cstr(name.as_bytes(), 80),
        subname: fill_cstr("subdevice #0".as_bytes(), 32),
        subdevices_count: 1,
        subdevices_avail: 1,
    }
}

/// What a control hands back, and what is left to do for it.
pub enum PcmReply {
    Done,
    Version(i32),
    Info(SndPcmInfo),
    /// The request as it was refined.
    Refined(SndPcmHwParams),
    /// The hardware is to be asked for the planned rate, with two channels.
    Ask(SndPcmHwParams, Plan),
    Status(SndPcmStatus),
    Delay(i64),
    Sync(SyncStatus),
    /// The hardware's queue is to be dropped.
    ResetHardware,
    /// The queue is to be played out, for so many seconds at most.
    PlayOut(u64),
    /// So many bytes are to be written, chunk by chunk.
    Transfer(u64),
}

/// The stream after a control.
pub open spec fn pcm_after(st: PcmState, req: PcmRequest) -> PcmState {
    match req {
        PcmRequest::Free => PcmState { state: STATE_OPEN, ..st },
        PcmRequest::Software { avail_min, boundary } => PcmState {
            avail_min: if avail_min > 0 {
                avail_min
            } else {
                st.avail_min
            },
            boundary: if boundary > 0 {
                boundary
            } else {
                st.boundary
            },
            ..st
        },
        PcmRequest::Sync(s) => synced(st, s),
        PcmRequest::Prepare => PcmState { appl_ptr: 0, state: STATE_PREPARED, ..st },
        PcmRequest::Reset => PcmState { appl_ptr: 0, ..st },
        PcmRequest::Start => PcmState { state: STATE_RUNNING, ..st },
        PcmRequest::Drop => PcmState { state: STATE_SETUP, ..st },
        _ => st,
    }
}

/// What a control answers.
pub open spec fn pcm_answers(
    st: PcmState,
    req: PcmRequest,
    v: PcmView,
    card: usize,
    name: Seq<char>,
    reply: PcmReply,
    result: Result<(), FsError>,
) -> bool {
    let ring = (v.ring_bytes / 4) as u32;
    match req {
        PcmRequest::Version => reply == PcmReply::Version(SNDRV_PCM_VERSION) && result is Ok,
        PcmRequest::Info => reply matches PcmReply::Info(i) && describes(i, card, 0, name)
            && result is Ok,
        PcmRequest::Refine(p) => reply matches PcmReply::Refined(q) && refined(p, q, ring) && result
            == (if possible(p, q) {
            Ok::<(), FsError>(())
        } else {
            Err(FsError::InvalidParam)
        }),
        PcmRequest::Configure(p) => match reply {
            PcmReply::Ask(q, plan) => refined(p, q, ring) && possible(p, q) && plan == planned(q)
                && result is Ok,
            PcmReply::Refined(q) => refined(p, q, ring) && !possible(p, q) && result == Err::<
                (),
                FsError,
            >(FsError::InvalidParam),
            _ => false,
        },
        PcmRequest::Status => reply == PcmReply::Status(standing(st, v.queued_bytes, v.sec, v.nsec))
            && result is Ok,
        PcmRequest::Delay => reply == PcmReply::Delay(frames_of(v.queued_bytes) as i64) && result
            is Ok,
        PcmRequest::Sync(s) => reply == PcmReply::Sync(sync_reply(st, s, v)) && result is Ok,
        PcmRequest::Free | PcmRequest::Prepare | PcmRequest::Reset | PcmRequest::Drop => reply
            == PcmReply::ResetHardware && result is Ok,
        PcmRequest::Drain => reply == PcmReply::PlayOut(drain_secs(v.queued_bytes)) && result is Ok,
        PcmRequest::Write { frames } => if st.state == STATE_PREPARED || st.state == STATE_RUNNING {
            reply == PcmReply::Transfer(bytes_of_frames(frames)) && result is Ok
        } else {
            reply == PcmReply::Done && result == Err::<(), FsError>(FsError::InvalidParam)
        },
        PcmRequest::Accepted | PcmRequest::Start | PcmRequest::Software { .. } => reply
            == PcmReply::Done && result is Ok,
    }
}

/// The bytes of some frames, in 64 bits.
pub open spec fn bytes_of_frames(frames: u64) -> u64 {
    ((frames * 4) % 0x1_0000_0000_0000_0000) as u64
}

/// The playback node of a card.
pub struct PcmDev {
    pub card: usize,
    pub st: PcmState,
}

impl PcmDev {
    pub fn new(card: usize) -> (d: Self)
        ensures
            d.card == card,
            d.st == (PcmState {
                state: STATE_OPEN,
                rate: 48000,
                buffer_size: 16384,
                period_size: 1024,
                boundary: MIN_BOUNDARY,
                appl_ptr: 0,
                avail_min: 1024,
            }),
            sound(d.st),
    {
        PcmDev {
            card,
            st: PcmState {
                state: STATE_OPEN,
                rate: 48000,
                buffer_size: 16384,
                period_size: 1024,
                boundary: MIN_BOUNDARY,
                appl_ptr: 0,
                avail_min: 1024,
            },
        }
    }

    pub fn read_at(&self) -> (r: Result<usize, FsError>)
        ensures
            r == Err::<usize, FsError>(FsError::NotSupported),
    {
        Err(FsError::NotSupported)
    }

    pub fn write_at(&self) -> (r: Result<usize, FsError>)
        ensures
            r == Err::<usize, FsError>(FsError::NotSupported),
    {
        Err(FsError::NotSupported)
    }

    /// Writable once the client's threshold of room is reached.
    pub fn poll(&self, queued_bytes: u64) -> (p: PollStatus)
        ensures
            p == (PollStatus {
                read: false,
                write: room(self.st, queued_bytes) >= self.st.avail_min,
                error: false,
            }),
    {
        PollStatus {
            read: false,
            write: avail(&self.st, queued_bytes) >= self.st.avail_min,
            error: false,
        }
    }

    /// Carries out the control with a number and its argument, as far as it needs no answer of the
    /// hardware. An unknown number changes nothing.
    pub fn io_control(&mut self, cmd: u32, arg: PcmArg, v: PcmView, name: &str) -> (r: (
        PcmReply,
        Result<(), FsError>,
    ))
        requires
            sound(old(self).st),
            plausible(v),
            pcm_call(cmd) matches Some(call) ==> request_of(call, arg) is Some,
        ensures
            final(self).card == old(self).card,
            sound(final(self).st),
            match pcm_call(cmd) {
                None => r.1 == Err::<(), FsError>(FsError::NotSupported) && r.0 is Done && final(
                    self).st == old(self).st,
                Some(call) => {
                    let req = request_of(call, arg)->0;
                    &&& final(self).st == pcm_after(old(self).st, req)
                    &&& pcm_answers(old(self).st, req, v, old(self).card, name@, r.0, r.1)
                },
            },
    {
        match classify_pcm(cmd) {
            Err(e) => (PcmReply::Done, Err(e)),
            Ok(call) => match make_request(call, arg) {
                Some(req) => self.carry_out(req, v, name),
                None => (PcmReply::Done, Err(FsError::InvalidParam)),
            },
        }
    }

    /// Carries out a control, as far as it needs no answer of the hardware.
    pub fn carry_out(&mut self, req: PcmRequest, v: PcmView, name: &str) -> (r: (
        PcmReply,
        Result<(), FsError>,
    ))
        requires
            sound(old(self).st),
            plausible(v),
        ensures
            final(self).card == old(self).card,
            final(self).st == pcm_after(old(self).st, req),
            sound(final(self).st),
            pcm_answers(old(self).st, req, v, old(self).card, name@, r.0, r.1),
    {
        let ring: u32 = (v.ring_bytes / BYTES_PER_FRAME) as u32;
        match req {
            PcmRequest::Version => (PcmReply::Version(SNDRV_PCM_VERSION), Ok(())),
            PcmRequest::Info => (PcmReply::Info(pcm_info(self.card, 0, name)), Ok(())),
            PcmRequest::Accepted => (PcmReply::Done, Ok(())),
            PcmRequest::Refine(p) => {
                let mut q = p;
                if refine(&mut q, ring) {
                    (PcmReply::Refined(q), Ok(()))
                } else {
                    (PcmReply::Refined(q), Err(FsError::InvalidParam))
                }
            },
            PcmRequest::Configure(p) => {
                let mut q = p;
                match plan(&mut q, ring) {
                    Ok(plan) => (PcmReply::Ask(q, plan), Ok(())),
                    Err(e) => (PcmReply::Refined(q), Err(e)),
                }
            },
            PcmRequest::Free => {
                self.st.state = STATE_OPEN;
                (PcmReply::ResetHardware, Ok(()))
            },
            PcmRequest::Software { avail_min, boundary } => {
                if avail_min > 0 {
                    self.st.avail_min = avail_min;
                }
                if boundary > 0 {
                    self.st.boundary = boundary;
                }
                (PcmReply::Done, Ok(()))
            },
            PcmRequest::Status => (
                PcmReply::Status(fill_status(&self.st, v.queued_bytes, v.sec, v.nsec)),
                Ok(()),
            ),
            PcmRequest::Delay => (
                PcmReply::Delay((v.queued_bytes / BYTES_PER_FRAME) as i64),
                Ok(()),
            ),
            PcmRequest::Sync(s) => {
                let r = sync_ptr(&mut self.st, s, v);
                (PcmReply::Sync(r), Ok(()))
            },
            PcmRequest::Prepare => {
                self.st.appl_ptr = 0;
                self.st.state = STATE_PREPARED;
                (PcmReply::ResetHardware, Ok(()))
            },
            PcmRequest::Reset => {
                self.st.appl_ptr = 0;
                (PcmReply::ResetHardware, Ok(()))
            },
            PcmRequest::Start => {
                self.st.state = STATE_RUNNING;
                (PcmReply::Done, Ok(()))
            },
            PcmRequest::Drop => {
                self.st.state = STATE_SETUP;
                (PcmReply::ResetHardware, Ok(()))
            },
            PcmRequest::Drain => (PcmReply::PlayOut(drain_deadline(v.queued_bytes)), Ok(())),
            PcmRequest::Write { frames } => {
                if self.st.state != STATE_PREPARED && self.st.state != STATE_RUNNING {
                    return (PcmReply::Done, Err(FsError::InvalidParam));
                }
                (PcmReply::Transfer(frames.wrapping_mul(BYTES_PER_FRAME)), Ok(()))
            },
        }
    }

    /// Decides how a transfer of `total` bytes goes on, `done` of them written before. The
    /// hardware was offered the next chunk and took `taken` bytes of it (none where there was no
    /// room), or failed. Nothing was taken for `idle_ns` nanoseconds before; a transfer that stalls
    /// for too long is given up, and what was written until then counts.
    pub fn writei(&mut self, total: u64, done: u64, taken: Option<u64>, idle_ns: u64) -> (s:
        TransferStep)
        requires
            sound(old(self).st),
            done < total,
            taken matches Some(n) ==> n <= total - done,
        ensures
            s == transfer_next(total, done, taken, time_up(idle_ns, STALL_SECS)),
            final(self).card == old(self).card,
            final(self).st == moved_on(old(self).st, taken),
            sound(final(self).st),
    {
        match taken {
            None => TransferStep::Failed(FsError::DeviceError),
            Some(n) => {
                if n > 0 {
                    write_progress(&mut self.st, n);
                    if done + n < total {
                        TransferStep::More(done + n)
                    } else {
                        TransferStep::Finished(((done + n) / BYTES_PER_FRAME) as i64)
                    }
                } else if is_time_up(idle_ns, STALL_SECS) {
                    TransferStep::Finished((done / BYTES_PER_FRAME) as i64)
                } else {
                    TransferStep::Wait
                }
            },
        }
    }

    /// Whether playing out is over after so many nanoseconds: nothing is queued any more, or the
    /// `secs` seconds that it may take have passed. The stream is stopped then.
    pub fn drain(&mut self, queued_bytes: u64, secs: u64, elapsed_ns: u64) -> (over: bool)
        requires
            sound(old(self).st),
        ensures
            over == (queued_bytes == 0 || time_up(elapsed_ns, secs)),
            final(self).card == old(self).card,
            final(self).st == (if over {
                PcmState { state: STATE_SETUP, ..old(self).st }
            } else {
                old(self).st
            }),
            sound(final(self).st),
    {
        if queued_bytes > 0 && !is_time_up(elapsed_ns, secs) {
            return false;
        }
        self.st.state = STATE_SETUP;
        true
    }

    /// The minor number of the node.
    pub fn minor(&self) -> (n: usize)
        requires
            self.card <= 0x100_0000,
        ensures
            n == self.card * 32 + 16,
    {
        self.card * 32 + 16
    }

    /// Metadata of the node, whose number is made of its major and minor number.
    pub fn metadata<F: Fn(usize, usize) -> usize>(&self, inode: usize, make_rdev: F) -> (m: Metadata)
        requires
            self.card <= 0x100_0000,
            make_rdev.requires((SND_MAJOR, (self.card * 32 + 16) as usize)),
        ensures
            make_rdev.ensures((SND_MAJOR, (self.card * 32 + 16) as usize), m.rdev),
            m == crate::vfs::bare_node(1, inode, FileType::CharDevice, 0o666, m.rdev),
    {
        node_metadata(1, inode, FileType::CharDevice, 0o666, make_rdev(SND_MAJOR, self.minor()))
    }
}

/// A control of the control node by its number.
#[derive(Clone, Copy, PartialEq, Eq, Structural, Debug)]
pub enum CtlCall {
    Version,
    CardInfo,
    Elements,
    Element,
    NextDevice,
    PcmInfo,
    Prefer,
}

/// What a control number asks of the control node.
pub open spec fn ctl_call(cmd: u32) -> Option<CtlCall> {
    let nr = cmd % 256;
    if (cmd / 256) % 256 != 0x55 {
        None
    } else if nr == 0x00 {
        Some(CtlCall::Version)
    } else if nr == 0x01 {
        Some(CtlCall::CardInfo)
    } else if nr == 0x10 {
        Some(CtlCall::Elements)
    } else if nr == 0x11 || nr == 0x12 || nr == 0x13 {
        Some(CtlCall::Element)
    } else if nr == 0x30 {
        Some(CtlCall::NextDevice)
    } else if nr == 0x31 {
        Some(CtlCall::PcmInfo)
    } else if nr == 0x32 {
        Some(CtlCall::Prefer)
    } else {
        None
    }
}

/// What a card is.
pub struct SndCtlCardInfo {
    pub card: i32,
    pub id: Vec<u8>,
    pub driver: Vec<u8>,
    pub name: Vec<u8>,
    pub longname: Vec<u8>,
    pub mixername: Vec<u8>,
    pub components: Vec<u8>,
}

/// The description of a card.
pub open spec fn describes_card(i: SndCtlCardInfo, card: usize, name: Seq<char>) -> bool {
    &&& i.card == card as i32
    &&& i.id@ == cstr("EclipseHDA".spec_bytes() + decimal(card as u64), 16)
    &&& i.driver@ == cstr("eclipse-hda".spec_bytes(), 16)
    &&& i.name@ == cstr(vstd::utf8::encode_utf8(name), 32)
    &&& i.longname@ == cstr(vstd::utf8::encode_utf8(name), 80)
    &&& i.mixername@ == cstr("Eclipse HDA (no mixer)".spec_bytes(), 80)
    &&& i.components@ == cstr(Seq::empty(), 128)
}

/// What a control of the control node hands back.
pub enum CtlReply {
    Done,
    Version(i32),
    CardInfo(SndCtlCardInfo),
    /// Elements used and elements there are.
    Elements(u32, u32),
    NextDevice(i32),
    PcmInfo(SndPcmInfo),
}

/// The caller's argument, read as each of the records a control may take.
#[derive(Clone, Copy)]
pub struct CtlArg {
    pub number: i32,
    pub device: u32,
    pub subdevice: u32,
    pub stream: i32,
}

/// The control node of a card.
pub struct CtlDev {
    pub card: usize,
}

impl CtlDev {
    pub fn new(card: usize) -> (d: Self)
        ensures
            d.card == card,
    {
        CtlDev { card }
    }

    pub fn read_at(&self) -> (r: Result<usize, FsError>)
        ensures
            r == Err::<usize, FsError>(FsError::NotSupported),
    {
        Err(FsError::NotSupported)
    }

    pub fn write_at(&self) -> (r: Result<usize, FsError>)
        ensures
            r == Err::<usize, FsError>(FsError::NotSupported),
    {
        Err(FsError::NotSupported)
    }

    pub fn poll(&self) -> (p: PollStatus)
        ensures
            p == (PollStatus { read: false, write: false, error: false }),
    {
        PollStatus { read: false, write: false, error: false }
    }

    fn card_info(&self, name: &str) -> (i: SndCtlCardInfo)
        ensures
            describes_card(i, self.card, name@),
    {
        #[verifier::truncate]
        let number: i32 = self.card as i32;
        let mut id: Vec<u8> = Vec::new();
        id.extend_from_slice("EclipseHDA".as_bytes());
        push_decimal(&mut id, self.card as u64);
        assert(id@ =~= "EclipseHDA".spec_bytes() + decimal(self.card as u64));
        let none: Vec<u8> = Vec::new();
        assert(none@ =~= Seq::empty());
        SndCtlCardInfo {
            card: number,
            id: fill_cstr(id.as_slice(), 16),
            driver: fill_cstr("eclipse-hda".as_bytes(), 16),
            name: fill_cstr(name.as_bytes(), 32),
            longname: fill_cstr(name.as_bytes(), 80),
            mixername: fill_cstr("Eclipse HDA (no mixer)".as_bytes(), 80),
            components: fill_cstr(none.as_slice(), 128),
        }
    }

    /// Carries out a control. There is one playback device, number 0, and no mixer element.
    pub fn io_control(&self, cmd: u32, arg: CtlArg, name: &str) -> (r: Result<CtlReply, FsError>)
        ensures
            match ctl_call(cmd) {
                None => r == Err::<CtlReply, FsError>(FsError::NotSupported),
                Some(CtlCall::Version) => r == Ok::<CtlReply, FsError>(
                    CtlReply::Version(SNDRV_CTL_VERSION),
                ),
                Some(CtlCall::CardInfo) => r matches Ok(CtlReply::CardInfo(i)) && describes_card(
                    i,
                    self.card,
                    name@,
                ),
                Some(CtlCall::Elements) => r == Ok::<CtlReply, FsError>(CtlReply::Elements(0, 0)),
                Some(CtlCall::Element) => r == Err::<CtlReply, FsError>(FsError::EntryNotFound),
                Some(CtlCall::NextDevice) => r == Ok::<CtlReply, FsError>(
                    CtlReply::NextDevice(
                        if arg.number < 0 {
                            0i32
                        } else {
                            -1i32
                        },
                    ),
                ),
                Some(CtlCall::PcmInfo) => if arg.device != 0 || arg.stream != 0 {
                    r == Err::<CtlReply, FsError>(FsError::EntryNotFound)
                } else {
                    r matches Ok(CtlReply::PcmInfo(i)) && describes(
                        i,
                        self.card,
                        arg.subdevice,
                        name@,
                    )
                },
                Some(CtlCall::Prefer) => r == Ok::<CtlReply, FsError>(CtlReply::Done),
            },
    {
        let nr: u32 = cmd % 256;
        if (cmd / 256) % 256 != 0x55 {
            return Err(FsError::NotSupported);
        }
        match nr {
            0x00 => Ok(CtlReply::Version(SNDRV_CTL_VERSION)),
            0x01 => Ok(CtlReply::CardInfo(self.card_info(name))),
            0x10 => Ok(CtlReply::Elements(0, 0)),
            0x11 | 0x12 | 0x13 => Err(FsError::EntryNotFound),
            0x30 => {
                let next: i32 = if arg.number < 0 {
                    0
                } else {
                    -1
                };
                Ok(CtlReply::NextDevice(next))
            },
            0x31 => {
                if arg.device != 0 || arg.stream != 0 {
                    return Err(FsError::EntryNotFound);
                }
                Ok(CtlReply::PcmInfo(pcm_info(self.card, arg.subdevice, name)))
            },
            0x32 => Ok(CtlReply::Done),
            _ => Err(FsError::NotSupported),
        }
    }

    /// The minor number of the node.
    pub fn minor(&self) -> (n: usize)
        requires
            self.card <= 0x100_0000,
        ensures
            n == self.card * 32,
    {
        self.card * 32
    }

    /// Metadata of the node, whose number is made of its major and minor number.
    pub fn metadata<F: Fn(usize, usize) -> usize>(&self, inode: usize, make_rdev: F) -> (m: Metadata)
        requires
            self.card <= 0x100_0000,
            make_rdev.requires((SND_MAJOR, (self.card * 32) as usize)),
        ensures
            make_rdev.ensures((SND_MAJOR, (self.card * 32) as usize), m.rdev),
            m == crate::vfs::bare_node(1, inode, FileType::CharDevice, 0o666, m.rdev),
    {
        node_metadata(1, inode, FileType::CharDevice, 0o666, make_rdev(SND_MAJOR, self.minor()))
    }
}

/// A request that can be met stays inside what the hardware does: the rates it has, 16-bit stereo,
/// and a buffer within the ring.
pub proof fn law_refined_within_hardware(p: SndPcmHwParams, q: SndPcmHwParams, ring: u32)
    requires
        ring < MAX_RING,
        refined(p, q, ring),
        possible(p, q),
    ensures
        q.sample_bits.min == 16 && q.sample_bits.max == 16,
        q.frame_bits.min == 32 && q.frame_bits.max == 32,
        q.channels.min == 2 && q.channels.max == 2,
        rates().contains(q.rate.min) && rates().contains(q.rate.max),
        64 <= q.period_size.min && q.period_size.max <= 8192,
        128 <= q.buffer_size.min && q.buffer_size.max <= ring,
{
    lemma_rate_member(p.rate.min, 0);
    lemma_rate_member_down(p.rate.max, 11);
    lemma_rate_up(p.rate.min, 0);
    lemma_rate_down(p.rate.max, 11);
}

proof fn lemma_rate_member(x: u32, i: int)
    requires
        0 <= i <= 11,
    ensures
        rate_up(x, i) matches Some(r) ==> rates().contains(r),
    decreases 11 - i,
{
    if i < 11 {
        assert(rates()[i] == rates()[i]);
        lemma_rate_member(x, i + 1);
        assert(rates().contains(rates()[i]));
    }
}

proof fn lemma_rate_member_down(x: u32, i: int)
    requires
        0 <= i <= 11,
    ensures
        rate_down(x, i) matches Some(r) ==> rates().contains(r),
    decreases i,
{
    if i > 0 {
        lemma_rate_member_down(x, i - 1);
        assert(rates().contains(rates()[i - 1]));
    }
}

/// Refining only narrows: no interval of a request that can be met gains a value.
pub proof fn law_refine_narrows(p: SndPcmHwParams, q: SndPcmHwParams, ring: u32)
    requires
        ring < MAX_RING,
        refined(p, q, ring),
        possible(p, q),
    ensures
        p.rate.min <= q.rate.min && q.rate.max <= p.rate.max,
        p.period_size.min <= q.period_size.min && q.period_size.max <= p.period_size.max,
        p.buffer_size.min <= q.buffer_size.min && q.buffer_size.max <= p.buffer_size.max,
        p.periods.min <= q.periods.min && q.periods.max <= p.periods.max,
        p.period_time.min <= q.period_time.min && q.period_time.max <= p.period_time.max,
        p.buffer_time.min <= q.buffer_time.min && q.buffer_time.max <= p.buffer_time.max,
{
    lemma_rate_up(p.rate.min, 0);
    lemma_rate_down(p.rate.max, 11);
}

/// Refining keeps every rate that the client allows and the hardware has.
pub proof fn law_refine_keeps_rates(p: SndInterval, r: u32)
    requires
        rates().contains(r),
        p.min <= r <= p.max,
    ensures
        rate_possible(p),
        snapped(p).min <= r <= snapped(p).max,
{
    let k = choose|k: int| 0 <= k < 11 && rates()[k] == r;
    lemma_rate_up_least(p.min, 0, k);
    lemma_rate_down_most(p.max, 11, k);
    lemma_rate_up(p.min, 0);
    lemma_rate_down(p.max, 11);
}

proof fn lemma_rate_up_least(x: u32, i: int, k: int)
    requires
        0 <= i <= k < 11,
        x <= rates()[k],
    ensures
        rate_up(x, i) matches Some(r) && r <= rates()[k],
    decreases 11 - i,
{
    if i < k {
        lemma_rate_up_least(x, i + 1, k);
    }
}

proof fn lemma_rate_down_most(x: u32, i: int, k: int)
    requires
        0 <= k < i <= 11,
        rates()[k] <= x,
    ensures
        rate_down(x, i) matches Some(r) && r >= rates()[k],
    decreases i,
{
    if k < i - 1 {
        lemma_rate_down_most(x, i - 1, k);
    }
}

/// The values chosen for a request lie inside it, and the buffer fits the ring: what is reported
/// back of the period and of the buffer is exactly the chosen value.
pub proof fn law_plan_exact(
    p: SndPcmHwParams,
    q: SndPcmHwParams,
    ring: u32,
    actual: u32,
    end: SndPcmHwParams,
)
    requires
        ring < MAX_RING,
        refined(p, q, ring),
        possible(p, q),
        actual > 0,
        reported(q, end, planned(q), actual),
    ensures
        0 < planned(q).buffer <= ring,
        64 <= planned(q).period <= 8192,
        end.period_size.min == planned(q).period && end.period_size.max == planned(q).period,
        end.buffer_size.min == planned(q).buffer && end.buffer_size.max == planned(q).buffer,
        actual == planned(q).rate ==> end.rate.min == actual && end.rate.max == actual,
{
    lemma_rate_up(p.rate.min, 0);
    lemma_rate_down(p.rate.max, 11);
}

/// Positions wrap at a whole number of buffers.
pub proof fn law_boundary_whole_buffers(buffer: u64, boundary: u64)
    requires
        0 < buffer,
        wraps_at(buffer, boundary),
    ensures
        boundary as int % buffer as int == 0,
{
    lemma_doubled(buffer as int, boundary as int);
}

proof fn lemma_doubled(buffer: int, boundary: int)
    requires
        0 < buffer,
        0 < boundary,
        doubled(buffer, boundary),
    ensures
        boundary % buffer == 0,
    decreases boundary,
{
    if boundary == buffer {
        assert(buffer % buffer == 0) by (nonlinear_arith)
            requires
                0 < buffer,
        ;
    } else {
        let half = boundary / 2;
        assert(half > 0) by {
            assert(boundary == 2 * half);
        }
        lemma_doubled(buffer, half);
        let k = half / buffer;
        vstd::arithmetic::div_mod::lemma_fundamental_div_mod(half, buffer);
        assert(boundary == (2 * k) * buffer) by (nonlinear_arith)
            requires
                half == buffer * k + 0,
                boundary == 2 * half,
        ;
        vstd::arithmetic::div_mod::lemma_mod_multiples_basic(2 * k, buffer);
    }
}

/// While the queue holds no more than what was written since the last wrap, the hardware's
/// position is behind the client's by exactly the queue.
pub proof fn law_positions_agree(st: PcmState, queued: u64)
    requires
        sound(st),
        st.appl_ptr < st.boundary,
        frames_of(queued) <= st.appl_ptr,
    ensures
        play_position(st, queued) + frames_of(queued) == st.appl_ptr,
{
    lemma_small_mod((st.appl_ptr - frames_of(queued)) as nat, st.boundary as nat);
}

/// A chunk handed to the hardware never takes the queue past the negotiated buffer.
pub proof fn law_buffer_respected(st: PcmState, queued: u64, left: u64)
    requires
        sound(st),
    ensures
        next_chunk(st, queued, left) <= left,
        next_chunk(st, queued, left) > 0 ==> frames_of(queued) * 4 + next_chunk(st, queued, left)
            <= st.buffer_size * 4,
{
}

/// How long playing out a queue may take: its time at full rate and two seconds, ten at most.
pub open spec fn drain_secs(queued_bytes: u64) -> u64 {
    if queued_bytes / 192_000 + 2 < 10 {
        (queued_bytes / 192_000 + 2) as u64
    } else {
        10
    }
}

/// Playing out a queue may take two seconds more than it lasts, and never over ten.
pub proof fn law_play_out_time(queued_bytes: u64)
    ensures
        2 <= drain_secs(queued_bytes) <= 10,
        drain_secs(queued_bytes) < 10 ==> 192_000 * (drain_secs(queued_bytes) - 2) <= queued_bytes < 192_000
            * (drain_secs(queued_bytes) - 1),
        queued_bytes >= 8 * 192_000 ==> drain_secs(queued_bytes) == 10,
{
}

/// A range that is cut holds exactly what it held of the limits.
pub proof fn law_range_cut(iv: SndInterval, lo: u32, hi: u32, integer: bool, x: u32)
    ensures
        ({
            let c = clamped(iv, lo, hi, integer);
            c.min <= x <= c.max <==> iv.min <= x <= iv.max && lo <= x <= hi
        }),
{
}

/// The marks of a range that is cut: an end that moved is no longer open, one that did not stays as it
/// was; whole numbers are marked where they are asked for, and a range with nothing in it as empty.
pub proof fn law_range_marks(iv: SndInterval, lo: u32, hi: u32, integer: bool)
    ensures
        ({
            let c = clamped(iv, lo, hi, integer);
            &&& c.flags & 1 != 0 <==> iv.flags & 1 != 0 && iv.min >= lo
            &&& c.flags & 2 != 0 <==> iv.flags & 2 != 0 && iv.max <= hi
            &&& c.flags & 4 != 0 <==> iv.flags & 4 != 0 || integer
            &&& c.flags & 8 != 0 <==> iv.flags & 8 != 0 || c.min > c.max
        }),
{
    let f0 = iv.flags;
    let a = iv.min < lo;
    let b = iv.max > hi;
    let e = clamped(iv, lo, hi, integer).min > clamped(iv, lo, hi, integer).max;
    let f1 = if a {
        f0 & !1u32
    } else {
        f0
    };
    let f2 = if b {
        f1 & !2u32
    } else {
        f1
    };
    let f3 = if integer {
        f2 | 4u32
    } else {
        f2
    };
    let f4 = if e {
        f3 | 8u32
    } else {
        f3
    };
    assert((f4 & 1 != 0 <==> f0 & 1 != 0 && !a) && (f4 & 2 != 0 <==> f0 & 2 != 0 && !b) && (f4 & 4 != 0
        <==> f0 & 4 != 0 || integer) && (f4 & 8 != 0 <==> f0 & 8 != 0 || e)) by (bit_vector)
        requires
            f1 == (if a {
                f0 & !1u32
            } else {
                f0
            }),
            f2 == (if b {
                f1 & !2u32
            } else {
                f1
            }),
            f3 == (if integer {
                f2 | 4u32
            } else {
                f2
            }),
            f4 == (if e {
                f3 | 8u32
            } else {
                f3
            }),
    ;
}

/// The rates offered are the least and the most that fit the range, and the range is empty where none
/// does.
pub proof fn law_rates_snapped(iv: SndInterval, x: u32)
    ensures
        rate_possible(iv) ==> (snapped(iv).min <= x <= snapped(iv).max ==> iv.min <= x <= iv.max),
        !rate_possible(iv) ==> snapped(iv).min == iv.min && snapped(iv).max == iv.max,
        rate_possible(iv) ==> snapped(iv).min <= snapped(iv).max || iv.min > iv.max,
{
    lemma_rate_up(iv.min, 0);
    lemma_rate_down(iv.max, 11);
}

/// What the hardware takes: 16 bits, two channels, written by calls, in periods of 64 to 8192 frames, 2
/// to 512 of them; the bytes are four for each frame.
pub proof fn law_hardware_limits(p: SndPcmHwParams, q: SndPcmHwParams, ring: u32, x: u32)
    requires
        ring < MAX_RING,
        refined(p, q, ring),
    ensures
        q.access.bits@[0] == p.access.bits@[0] & 8,
        q.format.bits@[0] == p.format.bits@[0] & 4,
        q.subformat.bits@[0] == p.subformat.bits@[0] & 1,
        q.period_size.min <= x <= q.period_size.max <==> p.period_size.min <= x <= p.period_size.max && 64
            <= x <= 8192,
        q.period_bytes.min <= x <= q.period_bytes.max <==> p.period_bytes.min <= x <= p.period_bytes.max
            && 4 * 64 <= x <= 4 * 8192,
        q.periods.min <= x <= q.periods.max <==> p.periods.min <= x <= p.periods.max && 2 <= x <= 512,
        q.buffer_size.min <= x <= q.buffer_size.max <==> p.buffer_size.min <= x <= p.buffer_size.max && 128
            <= x <= ring,
        q.buffer_bytes.min <= x <= q.buffer_bytes.max <==> p.buffer_bytes.min <= x <= p.buffer_bytes.max
            && 4 * 128 <= x <= 4 * ring,
        q.channels.min <= x <= q.channels.max <==> p.channels.min <= x <= p.channels.max && x == 2,
        q.sample_bits.min <= x <= q.sample_bits.max <==> p.sample_bits.min <= x <= p.sample_bits.max && x
            == 16,
        q.frame_bits.min <= x <= q.frame_bits.max <==> p.frame_bits.min <= x <= p.frame_bits.max && x == 32,
        q.msbits == 16 && q.rate_den == 1 && q.fifo_size == 0,
{
}

/// A wish can be met where something is left of every part of it.
pub proof fn law_wish_can_be_met(p: SndPcmHwParams, q: SndPcmHwParams)
    ensures
        possible(p, q) ==> q.periods.min <= q.periods.max && q.buffer_size.min <= q.buffer_size.max
            && q.period_size.min <= q.period_size.max && q.rate.min <= q.rate.max && q.channels.min
            <= q.channels.max && q.format.bits@[0] != 0 && q.access.bits@[0] != 0,
        q.periods.min > q.periods.max || q.buffer_size.min > q.buffer_size.max || q.period_size.min
            > q.period_size.max || q.channels.min > q.channels.max || q.format.bits@[0] == 0
            || q.access.bits@[0] == 0 || q.subformat.bits@[0] == 0 || q.period_time.min > q.period_time.max
            || q.buffer_time.min > q.buffer_time.max ==> !possible(p, q),
{
}

/// The buffer that is chosen lies in the range: eight periods, as far as the range allows, where it is
/// wide, and the least otherwise.
pub proof fn law_buffer_chosen(q: SndPcmHwParams)
    requires
        q.buffer_size.min <= q.buffer_size.max,
    ensures
        q.buffer_size.min <= chosen_buffer(q) <= q.buffer_size.max,
        q.buffer_size.max <= 4 * q.buffer_size.min ==> chosen_buffer(q) == q.buffer_size.min,
        q.buffer_size.max > 4 * q.buffer_size.min && q.buffer_size.min <= 8 * q.period_size.min
            <= q.buffer_size.max ==> chosen_buffer(q) == 8 * q.period_size.min,
        q.buffer_size.max > 4 * q.buffer_size.min && 8 * q.period_size.min < q.buffer_size.min
            ==> chosen_buffer(q) == q.buffer_size.min,
        q.buffer_size.max > 4 * q.buffer_size.min && 8 * q.period_size.min > q.buffer_size.max
            ==> chosen_buffer(q) == q.buffer_size.max,
        planned(q).rate == q.rate.min && planned(q).period == q.period_size.min && planned(q).buffer
            == chosen_buffer(q),
{
}

/// A stream that is set up starts at 0, at the hardware's rate, with the planned sizes.
pub proof fn law_set_up(st: PcmState, plan: Plan, actual_rate: u32, boundary: u64)
    ensures
        ({
            let n = installed(st, plan, actual_rate, boundary);
            &&& n.state == 1 && n.appl_ptr == 0 && n.rate == actual_rate
            &&& n.buffer_size == plan.buffer && n.period_size == plan.period && n.boundary == boundary
            &&& n.avail_min == st.avail_min
        }),
{
}

/// The times told of a set-up are those of its period and buffer at its rate.
pub proof fn law_times_told(frames: u64, rate: u32)
    requires
        0 < rate,
        frames < MAX_RING,
        frames * 1_000_000 <= u32::MAX * rate,
    ensures
        ({
            let us = (frames * 1_000_000 / (rate as int)) as u32;
            us * rate <= frames * 1_000_000 < (us + 1) * rate
        }),
{
    let n = frames * 1_000_000;
    let r = rate as int;
    let us = n / r;
    vstd::arithmetic::div_mod::lemma_fundamental_div_mod(n, r);
    vstd::arithmetic::div_mod::lemma_mod_bound(n, r);
    assert(r * us == us * r) by (nonlinear_arith);
    assert((us + 1) * r == us * r + r) by (nonlinear_arith);
    assert(0 <= us <= u32::MAX) by (nonlinear_arith)
        requires
            us * r <= n,
            n < us * r + r,
            n <= u32::MAX * r,
            0 < r,
            0 <= n,
    ;
}

/// There is room for what is not queued, and none where the queue is over the buffer.
pub proof fn law_room(st: PcmState, queued: u64)
    ensures
        queued / 4 <= st.buffer_size ==> room(st, queued) + queued / 4 == st.buffer_size,
        queued / 4 > st.buffer_size ==> room(st, queued) == 0,
{
}

/// A status tells the stream as it stands: what is queued is the delay, and what is not is room.
pub proof fn law_status_told(st: PcmState, queued: u64, sec: i64, nsec: i64)
    requires
        queued / 4 <= i64::MAX,
    ensures
        standing(st, queued, sec, nsec).state == st.state,
        standing(st, queued, sec, nsec).appl_ptr == st.appl_ptr,
        standing(st, queued, sec, nsec).delay == queued / 4,
        standing(st, queued, sec, nsec).avail == room(st, queued),
        standing(st, queued, sec, nsec).avail_max == st.buffer_size,
        standing(st, queued, sec, nsec).sec == sec && standing(st, queued, sec, nsec).nsec == nsec,
{
}

/// What is written next is all that is left, as far as there is room; less than a frame is not written.
pub proof fn law_next_chunk(st: PcmState, queued: u64, left: u64)
    requires
        sound(st),
    ensures
        ({
            let n = next_chunk(st, queued, left);
            let space = 4 * room(st, queued);
            &&& left <= space && left >= 4 ==> n == left
            &&& space < left && space >= 4 ==> n == space
            &&& left < 4 || space < 4 ==> n == 0
        }),
{
}

/// Writing moves the stream on by its whole frames and runs it.
pub proof fn law_written_on(st: PcmState, bytes: u64)
    requires
        sound(st),
        st.appl_ptr + bytes / 4 < st.boundary,
    ensures
        written(st, bytes).appl_ptr == st.appl_ptr + bytes / 4,
        written(st, bytes).state == 3,
        written(st, bytes).boundary == st.boundary && written(st, bytes).buffer_size == st.buffer_size
            && written(st, bytes).avail_min == st.avail_min,
{
    let n = st.appl_ptr + bytes / 4;
    vstd::arithmetic::div_mod::lemma_small_mod(n as nat, st.boundary as nat);
}

/// A transfer goes on while there is progress and something left; it ends with all, or with what was
/// done when the hardware stalls, and fails with the hardware.
pub proof fn law_transfer_steps(total: u64, done: u64, n: u64, expired: bool)
    requires
        done < total,
        n <= total - done,
        total / 4 <= i64::MAX,
    ensures
        n > 0 && done + n < total ==> (transfer_next(total, done, Some(n), expired) matches TransferStep::More(
            d,
        ) && d == done + n),
        n > 0 && done + n == total ==> (transfer_next(
            total,
            done,
            Some(n),
            expired,
        ) matches TransferStep::Finished(f) && f == total / 4),
        n == 0 && !expired ==> transfer_next(total, done, Some(n), expired) is Wait,
        n == 0 && expired ==> (transfer_next(total, done, Some(n), expired) matches TransferStep::Finished(f)
            && f == done / 4),
        transfer_next(total, done, None, expired) == TransferStep::Failed(FsError::DeviceError),
{
}

/// A client that syncs its pointers sets those that it says it sets, and is told the others.
pub proof fn law_pointers_synced(st: PcmState, s: SyncPtr, v: PcmView)
    requires
        sound(st),
        s.appl_ptr < st.boundary,
    ensures
        s.flags & 2 != 0 ==> synced(st, s).appl_ptr == s.appl_ptr,
        s.flags & 2 == 0 ==> synced(st, s).appl_ptr == st.appl_ptr && sync_reply(st, s, v).appl_ptr
            == st.appl_ptr,
        s.flags & 4 != 0 && s.avail_min > 0 ==> synced(st, s).avail_min == s.avail_min,
        s.flags & 4 == 0 || s.avail_min == 0 ==> synced(st, s).avail_min == st.avail_min,
        s.flags & 4 == 0 ==> sync_reply(st, s, v).avail_min == st.avail_min,
        synced(st, s).state == st.state && synced(st, s).boundary == st.boundary && synced(st, s).buffer_size
            == st.buffer_size,
        sync_reply(st, s, v).state == st.state,
        sync_reply(st, s, v).hw_ptr == play_position(synced(st, s), v.queued_bytes) as u64,
        sync_reply(st, s, v).sec == v.sec && sync_reply(st, s, v).nsec == v.nsec,
{
    vstd::arithmetic::div_mod::lemma_small_mod(s.appl_ptr as nat, st.boundary as nat);
}

/// What each request does to a stream: preparing and resetting start it over, starting runs it, dropping
/// stops it, freeing takes its set-up away; sizes and rate only a set-up changes.
pub proof fn law_requests_to_streams(st: PcmState, req: PcmRequest)
    ensures
        ({
            let n = pcm_after(st, req);
            &&& n.rate == st.rate && n.buffer_size == st.buffer_size && n.period_size == st.period_size
            &&& req is Prepare ==> n.state == 2 && n.appl_ptr == 0
            &&& req is Reset ==> n.appl_ptr == 0 && n.state == st.state
            &&& req is Start ==> n.state == 3 && n.appl_ptr == st.appl_ptr
            &&& req is Drop ==> n.state == 1 && n.appl_ptr == st.appl_ptr
            &&& req is Free ==> n.state == 0
            &&& !(req is Prepare || req is Start || req is Drop || req is Free) ==> n.state == st.state
            &&& !(req is Prepare || req is Reset || req is Sync) ==> n.appl_ptr == st.appl_ptr
            &&& !(req is Software || req is Sync) ==> n.avail_min == st.avail_min
            &&& !(req is Software) ==> n.boundary == st.boundary
            &&& req matches PcmRequest::Software { avail_min, boundary } ==> {
                &&& n.avail_min == (if avail_min > 0 {
                    avail_min
                } else {
                    st.avail_min
                })
                &&& n.boundary == (if boundary > 0 {
                    boundary
                } else {
                    st.boundary
                })
            }
        }),
{
}

/// A stream is written to once it is prepared or runs, four bytes for each frame; before that a write is
/// refused.
pub proof fn law_write_needs_preparing(
    st: PcmState,
    frames: u64,
    v: PcmView,
    card: usize,
    name: Seq<char>,
    reply: PcmReply,
    result: Result<(), FsError>,
)
    requires
        pcm_answers(st, PcmRequest::Write { frames }, v, card, name, reply, result),
        frames * 4 <= u64::MAX,
    ensures
        result is Ok <==> st.state == 2 || st.state == 3,
        result is Ok ==> (reply matches PcmReply::Transfer(n) && n == 4 * frames),
        result matches Err(e) ==> e == FsError::InvalidParam,
{
}

/// The commands of streams and of cards are told apart by their letter, then by their number.
pub proof fn law_commands_by_letter(cmd: u32)
    ensures
        pcm_call(cmd) is Some ==> cmd / 256 % 256 == 0x41,
        ctl_call(cmd) is Some ==> cmd / 256 % 256 == 0x55,
        cmd / 256 % 256 == 0x41 && cmd % 256 == 0x10 ==> pcm_call(cmd) == Some(PcmCall::Refine),
        cmd / 256 % 256 == 0x41 && cmd % 256 == 0x11 ==> pcm_call(cmd) == Some(PcmCall::Configure),
        cmd / 256 % 256 == 0x41 && cmd % 256 == 0x23 ==> pcm_call(cmd) == Some(PcmCall::Sync),
        cmd / 256 % 256 == 0x41 && cmd % 256 == 0x40 ==> pcm_call(cmd) == Some(PcmCall::Prepare),
        cmd / 256 % 256 == 0x41 && cmd % 256 == 0x42 ==> pcm_call(cmd) == Some(PcmCall::Start),
        cmd / 256 % 256 == 0x41 && cmd % 256 == 0x50 ==> pcm_call(cmd) == Some(PcmCall::Write),
        cmd / 256 % 256 == 0x41 && (cmd % 256 == 0x20 || cmd % 256 == 0x24) ==> pcm_call(cmd) == Some(
            PcmCall::Status,
        ),
        cmd / 256 % 256 == 0x41 && cmd % 256 > 0x50 ==> pcm_call(cmd) is None,
        cmd / 256 % 256 == 0x55 && cmd % 256 > 0x32 ==> ctl_call(cmd) is None,
{
}

/// A name is put into its field from the start, cut so that the field still ends in 0.
pub proof fn law_name_in_field(s: Seq<u8>, width: nat, i: int)
    requires
        0 < width,
        0 <= i < width,
    ensures
        cstr(s, width).len() == width,
        cstr(s, width)[width - 1] == 0,
        i < s.len() && i < width - 1 ==> cstr(s, width)[i] == s[i],
        i >= s.len() ==> cstr(s, width)[i] == 0,
{
}

/// A stream moves on by what the hardware took: by nothing where it took nothing or failed, else by
/// as many frames as it took, and then it runs.
pub proof fn law_moves_by_what_was_taken(st: PcmState, taken: Option<u64>)
    requires
        sound(st),
        taken matches Some(n) ==> st.appl_ptr + n / 4 < st.boundary,
    ensures
        taken is None || taken == Some(0u64) ==> moved_on(st, taken) == st,
        taken matches Some(n) ==> moved_on(st, taken).appl_ptr == st.appl_ptr + n / 4,
        taken matches Some(n) ==> (n > 0 ==> moved_on(st, taken).state == 3),
        moved_on(st, taken).boundary == st.boundary && moved_on(st, taken).buffer_size
            == st.buffer_size && moved_on(st, taken).avail_min == st.avail_min,
{
    if let Some(n) = taken {
        law_written_on(st, n);
    }
}

/// The delay of a stream is the frames that wait in the hardware; the status is asked of the same
/// queue.
pub proof fn law_delay_is_queue(
    st: PcmState,
    v: PcmView,
    card: usize,
    name: Seq<char>,
    reply: PcmReply,
    result: Result<(), FsError>,
)
    requires
        pcm_answers(st, PcmRequest::Delay, v, card, name, reply, result),
        v.queued_bytes / 4 <= i64::MAX,
    ensures
        result is Ok,
        reply matches PcmReply::Delay(n) && n * 4 <= v.queued_bytes < n * 4 + 4,
{
}

/// A call that needs an argument of some form is a request only with that form, and carries it
/// unchanged; a call that needs none is the same request whatever came with it.
pub proof fn law_requests_carry_arguments(call: PcmCall, a: PcmArg, b: PcmArg)
    ensures
        request_of(call, a) is None ==> call is Refine || call is Configure || call is Software
            || call is Sync || call is Write,
        !(call is Refine || call is Configure || call is Software || call is Sync || call is Write)
            ==> request_of(call, a) == request_of(call, b) && request_of(call, a) is Some,
        a matches PcmArg::Params(p) ==> request_of(PcmCall::Refine, a) == Some(PcmRequest::Refine(p))
            && request_of(PcmCall::Configure, a) == Some(PcmRequest::Configure(p)),
        request_of(PcmCall::Refine, a) is Some ==> a is Params,
        request_of(PcmCall::Configure, a) is Some ==> a is Params,
        a matches PcmArg::Sync(s) ==> request_of(PcmCall::Sync, a) == Some(PcmRequest::Sync(s)),
        request_of(PcmCall::Sync, a) is Some ==> a is Sync,
        a matches PcmArg::Frames(n) ==> request_of(PcmCall::Write, a) == Some(
            PcmRequest::Write { frames: n },
        ),
        request_of(PcmCall::Write, a) is Some ==> a is Frames,
        a matches PcmArg::Software { avail_min, boundary } ==> request_of(PcmCall::Software, a)
            == Some(PcmRequest::Software { avail_min, boundary }),
        request_of(PcmCall::Software, a) is Some ==> a is Software,
        request_of(PcmCall::Drop, a) == Some(PcmRequest::Drop) && request_of(PcmCall::Drain, a) == Some(
            PcmRequest::Drain,
        ) && request_of(PcmCall::Start, a) == Some(PcmRequest::Start) && request_of(
            PcmCall::Prepare,
            a,
        ) == Some(PcmRequest::Prepare) && request_of(PcmCall::Reset, a) == Some(PcmRequest::Reset),
{
}

/// A card is described by its number, by a name of its own that holds the number and by the name of
/// the hardware; every text ends within its field.
pub proof fn law_card_described(i: SndCtlCardInfo, card: usize, name: Seq<char>, k: int)
    requires
        describes_card(i, card, name),
    ensures
        card <= i32::MAX ==> i.card == card,
        i.id@.len() == 16 && i.driver@.len() == 16 && i.name@.len() == 32 && i.longname@.len() == 80
            && i.mixername@.len() == 80 && i.components@.len() == 128,
        i.id@[15] == 0 && i.driver@[15] == 0 && i.name@[31] == 0 && i.longname@[79] == 0
            && i.mixername@[79] == 0,
        0 <= k < 128 ==> i.components@[k] == 0,
        0 <= k < 31 ==> i.name@[k] == i.longname@[k],
{
}

/// Controls that ask are answered with what was asked for, and always succeed: the version, the
/// status, the place and the way to play out what waits. Those that stop a stream drop what waits.
pub proof fn law_controls_answered(
    st: PcmState,
    req: PcmRequest,
    v: PcmView,
    card: usize,
    name: Seq<char>,
    reply: PcmReply,
    result: Result<(), FsError>,
)
    requires
        pcm_answers(st, req, v, card, name, reply, result),
    ensures
        req is Version ==> reply == PcmReply::Version(0x0002_000e) && result is Ok,
        req is Info ==> reply is Info && result is Ok,
        req is Status ==> reply == PcmReply::Status(standing(st, v.queued_bytes, v.sec, v.nsec))
            && result is Ok,
        req matches PcmRequest::Sync(s) ==> reply == PcmReply::Sync(sync_reply(st, s, v)) && result
            is Ok,
        req is Drain ==> reply == PcmReply::PlayOut(drain_secs(v.queued_bytes)) && result is Ok,
        reply is ResetHardware <==> req is Free || req is Prepare || req is Reset || req is Drop,
        req is Free || req is Prepare || req is Reset || req is Drop ==> result is Ok,
        req is Accepted || req is Start || req is Software ==> reply is Done && result is Ok,
        reply is Transfer ==> req is Write,
        reply is Ask ==> req is Configure && result is Ok,
        req is Refine ==> reply is Refined,
        result matches Err(e) ==> e == FsError::InvalidParam && (req is Refine || req is Configure
            || req is Write),
{
}

} // verus!
