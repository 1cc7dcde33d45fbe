//! Sampling events: a ring of records that a profiler maps and reads.
//!
//! The ring is a control page followed by data. The library decides what is written where; the
//! memory itself is shared with the profiler, which moves the tail in the control page.
use vstd::prelude::*;
use crate::bytes::{get_u32, get_u64, le16, le32, le64, push_u16, push_u32, push_u64, u32_at, u64_at};
use crate::error::LxError;
use crate::flags::OpenFlags;
use crate::vfs::PollStatus;

verus! {

pub const PAGE_SIZE: usize = 4096;

pub const ATTR_FLAG_DISABLED: u64 = 0x1;

pub const ATTR_FLAG_FREQ: u64 = 0x400;

pub const PERF_SAMPLE_IP: u64 = 0x1;

pub const PERF_SAMPLE_TID: u64 = 0x2;

pub const PERF_SAMPLE_TIME: u64 = 0x4;

pub const PERF_SAMPLE_ADDR: u64 = 0x8;

pub const PERF_SAMPLE_READ: u64 = 0x10;

pub const PERF_SAMPLE_CALLCHAIN: u64 = 0x20;

pub const PERF_SAMPLE_ID: u64 = 0x40;

pub const PERF_SAMPLE_CPU: u64 = 0x80;

pub const PERF_SAMPLE_PERIOD: u64 = 0x100;

pub const PERF_SAMPLE_STREAM_ID: u64 = 0x200;

pub const PERF_SAMPLE_RAW: u64 = 0x400;

pub const PERF_SAMPLE_BRANCH_STACK: u64 = 0x800;

pub const PERF_SAMPLE_REGS_USER: u64 = 0x1000;

pub const PERF_SAMPLE_STACK_USER: u64 = 0x2000;

pub const PERF_SAMPLE_WEIGHT: u64 = 0x4000;

pub const PERF_SAMPLE_DATA_SRC: u64 = 0x8000;

pub const PERF_SAMPLE_IDENTIFIER: u64 = 0x1_0000;

pub const PERF_SAMPLE_TRANSACTION: u64 = 0x2_0000;

pub const PERF_SAMPLE_REGS_INTR: u64 = 0x4_0000;

pub const PERF_SAMPLE_PHYS_ADDR: u64 = 0x8_0000;

pub const PERF_FORMAT_TOTAL_TIME_ENABLED: u64 = 0x1;

pub const PERF_FORMAT_TOTAL_TIME_RUNNING: u64 = 0x2;

pub const PERF_FORMAT_ID: u64 = 0x4;

pub const PERF_RECORD_SAMPLE: u32 = 9;

pub const PERF_RECORD_MISC_USER: u16 = 2;

pub const PERF_EVENT_IOC_ENABLE: usize = 0x2400;

pub const PERF_EVENT_IOC_DISABLE: usize = 0x2401;

pub const PERF_EVENT_IOC_REFRESH: usize = 0x2402;

pub const PERF_EVENT_IOC_RESET: usize = 0x2403;

pub const PERF_EVENT_IOC_PERIOD: usize = 0x4008_2404;

pub const PERF_EVENT_IOC_SET_OUTPUT: usize = 0x2405;

pub const PERF_EVENT_IOC_SET_FILTER: usize = 0x4008_2406;

pub const PERF_EVENT_IOC_ID: usize = 0x8008_2407;

pub const PC_VERSION: usize = 0;

pub const PC_DATA_HEAD: usize = 1024;

pub const PC_DATA_TAIL: usize = 1032;

pub const PC_DATA_OFFSET: usize = 1040;

pub const PC_DATA_SIZE: usize = 1048;

/// A sampling event. `ring` is the size of its data, once it was mapped.
#[derive(Clone, Copy, PartialEq, Eq, Structural, Debug)]
pub struct PerfInner {
    pub type_: u32,
    pub config: u64,
    pub sample_type: u64,
    pub read_format: u64,
    pub period: u64,
    pub id: u64,
    pub enabled: bool,
    pub data_head: u64,
    pub count: u64,
    pub lost: u64,
    pub ring: Option<usize>,
}

/// A number of an attribute; what lies beyond the attribute's end counts as zero.
pub open spec fn attr_u32(attr: Seq<u8>, off: int) -> u32 {
    if off + 4 <= attr.len() {
        u32_at(attr, off)
    } else {
        0
    }
}

/// A number of an attribute; what lies beyond the attribute's end counts as zero.
pub open spec fn attr_u64(attr: Seq<u8>, off: int) -> u64 {
    if off + 8 <= attr.len() {
        u64_at(attr, off)
    } else {
        0
    }
}

/// At least one.
pub open spec fn positive(x: u64) -> u64 {
    if x == 0 {
        1
    } else {
        x
    }
}

/// The event that an attribute describes. A frequency is sampled like a period of one.
pub open spec fn described(attr: Seq<u8>, id: u64) -> PerfInner {
    PerfInner {
        type_: attr_u32(attr, 0),
        config: attr_u64(attr, 8),
        sample_type: attr_u64(attr, 24),
        read_format: attr_u64(attr, 32),
        period: if attr_u64(attr, 40) & ATTR_FLAG_FREQ != 0 {
            1
        } else {
            positive(attr_u64(attr, 16))
        },
        id,
        enabled: attr_u64(attr, 40) & ATTR_FLAG_DISABLED == 0,
        data_head: 0,
        count: 0,
        lost: 0,
        ring: None,
    }
}

fn rd_u32(attr: &[u8], off: usize) -> (x: u32)
    requires
        off <= 64,
    ensures
        x == attr_u32(attr@, off as int),
{
    if off + 4 <= attr.len() {
        get_u32(attr, off)
    } else {
        0
    }
}

fn rd_u64(attr: &[u8], off: usize) -> (x: u64)
    requires
        off <= 64,
    ensures
        x == attr_u64(attr@, off as int),
{
    if off + 8 <= attr.len() {
        get_u64(attr, off)
    } else {
        0
    }
}

/// Bytes that stand in a record only if they were asked for.
#[verifier::opaque]
pub open spec fn asked(wanted: bool, s: Seq<u8>) -> Seq<u8> {
    if wanted {
        s
    } else {
        Seq::empty()
    }
}

/// Where and when a sample was taken.
#[derive(Clone, Copy, PartialEq, Eq, Structural, Debug)]
pub struct Sample {
    pub pid: i32,
    pub tid: i32,
    pub cpu: u32,
    pub ip: u64,
    pub time_ns: u64,
}

/// Bytes followed by what a record holds of the event's count.
pub open spec fn with_read(v: Seq<u8>, e: PerfInner, s: Sample) -> Seq<u8> {
    v + le64(e.count) + asked(e.read_format & PERF_FORMAT_TOTAL_TIME_ENABLED != 0, le64(s.time_ns))
        + asked(e.read_format & PERF_FORMAT_TOTAL_TIME_RUNNING != 0, le64(s.time_ns)) + asked(
        e.read_format & PERF_FORMAT_ID != 0,
        le64(e.id),
    )
}

/// Bytes followed by the first fields of a record.
pub open spec fn with_head(v: Seq<u8>, e: PerfInner, s: Sample) -> Seq<u8> {
    let st = e.sample_type;
    v + asked(st & PERF_SAMPLE_IDENTIFIER != 0, le64(e.id)) + asked(
        st & PERF_SAMPLE_IP != 0,
        le64(s.ip),
    ) + asked(st & PERF_SAMPLE_TID != 0, le32(s.pid as u32) + le32(s.tid as u32)) + asked(
        st & PERF_SAMPLE_TIME != 0,
        le64(s.time_ns),
    ) + asked(st & PERF_SAMPLE_ADDR != 0, le64(0))
}

/// Bytes followed by the fields of a record that name the event and the processor.
pub open spec fn with_event(v: Seq<u8>, e: PerfInner, s: Sample) -> Seq<u8> {
    let st = e.sample_type;
    let named = v + asked(st & PERF_SAMPLE_ID != 0, le64(e.id)) + asked(
        st & PERF_SAMPLE_STREAM_ID != 0,
        le64(e.id),
    ) + asked(st & PERF_SAMPLE_CPU != 0, le32(s.cpu) + le32(0)) + asked(
        st & PERF_SAMPLE_PERIOD != 0,
        le64(e.period),
    );
    if st & PERF_SAMPLE_READ != 0 {
        with_read(named, e, s)
    } else {
        named
    }
}

/// Bytes followed by the fields of a record that are never filled.
pub open spec fn with_empty(v: Seq<u8>, st: u64) -> Seq<u8> {
    v + asked(st & PERF_SAMPLE_CALLCHAIN != 0, le64(0)) + asked(
        st & PERF_SAMPLE_RAW != 0,
        le64(0),
    ) + asked(st & PERF_SAMPLE_BRANCH_STACK != 0, le64(0)) + asked(
        st & PERF_SAMPLE_REGS_USER != 0,
        le64(0),
    ) + asked(st & PERF_SAMPLE_STACK_USER != 0, le64(0)) + asked(
        st & PERF_SAMPLE_WEIGHT != 0,
        le64(0),
    ) + asked(st & PERF_SAMPLE_DATA_SRC != 0, le64(0)) + asked(
        st & PERF_SAMPLE_TRANSACTION != 0,
        le64(0),
    ) + asked(st & PERF_SAMPLE_REGS_INTR != 0, le64(0)) + asked(
        st & PERF_SAMPLE_PHYS_ADDR != 0,
        le64(0),
    )
}

/// A record without its header: exactly the fields that were asked for, in their order.
#[verifier::opaque]
pub open spec fn body_of(e: PerfInner, s: Sample) -> Seq<u8> {
    with_empty(with_event(with_head(Seq::empty(), e, s), e, s), e.sample_type)
}

/// A record with its header.
pub open spec fn framed(body: Seq<u8>) -> Seq<u8> {
    le32(PERF_RECORD_SAMPLE) + le16(PERF_RECORD_MISC_USER) + le16((8 + body.len()) as u16) + body
}

/// The record of a sample.
pub open spec fn record_of(e: PerfInner, s: Sample) -> Seq<u8> {
    framed(body_of(e, s))
}

fn push_if(v: &mut Vec<u8>, wanted: bool, x: u64)
    ensures
        final(v)@ == old(v)@ + asked(wanted, le64(x)),
{
    let ghost before = v@;
    proof {
        reveal(asked);
    }
    if wanted {
        push_u64(v, x);
    }
    assert(v@ =~= before + asked(wanted, le64(x)));
}

fn push_pair_if(v: &mut Vec<u8>, wanted: bool, a: u32, b: u32)
    ensures
        final(v)@ == old(v)@ + asked(wanted, le32(a) + le32(b)),
{
    let ghost before = v@;
    proof {
        reveal(asked);
    }
    if wanted {
        push_u32(v, a);
        push_u32(v, b);
    }
    assert(v@ =~= before + asked(wanted, le32(a) + le32(b)));
}

fn push_read(v: &mut Vec<u8>, e: &PerfInner, s: &Sample)
    ensures
        final(v)@ == with_read(old(v)@, *e, *s),
{
    push_u64(v, e.count);
    push_if(v, e.read_format & PERF_FORMAT_TOTAL_TIME_ENABLED != 0, s.time_ns);
    push_if(v, e.read_format & PERF_FORMAT_TOTAL_TIME_RUNNING != 0, s.time_ns);
    push_if(v, e.read_format & PERF_FORMAT_ID != 0, e.id);
}

fn push_head(v: &mut Vec<u8>, e: &PerfInner, s: &Sample)
    ensures
        final(v)@ == with_head(old(v)@, *e, *s),
{
    let st: u64 = e.sample_type;
    #[verifier::truncate]
    let pid: u32 = s.pid as u32;
    #[verifier::truncate]
    let tid: u32 = s.tid as u32;
    push_if(v, st & PERF_SAMPLE_IDENTIFIER != 0, e.id);
    push_if(v, st & PERF_SAMPLE_IP != 0, s.ip);
    push_pair_if(v, st & PERF_SAMPLE_TID != 0, pid, tid);
    push_if(v, st & PERF_SAMPLE_TIME != 0, s.time_ns);
    push_if(v, st & PERF_SAMPLE_ADDR != 0, 0);
}

fn push_event(v: &mut Vec<u8>, e: &PerfInner, s: &Sample)
    ensures
        final(v)@ == with_event(old(v)@, *e, *s),
{
    let st: u64 = e.sample_type;
    push_if(v, st & PERF_SAMPLE_ID != 0, e.id);
    push_if(v, st & PERF_SAMPLE_STREAM_ID != 0, e.id);
    push_pair_if(v, st & PERF_SAMPLE_CPU != 0, s.cpu, 0);
    push_if(v, st & PERF_SAMPLE_PERIOD != 0, e.period);
    if st & PERF_SAMPLE_READ != 0 {
        push_read(v, e, s);
    }
}

fn push_empty(v: &mut Vec<u8>, st: u64)
    ensures
        final(v)@ == with_empty(old(v)@, st),
{
    push_if(v, st & PERF_SAMPLE_CALLCHAIN != 0, 0);
    push_if(v, st & PERF_SAMPLE_RAW != 0, 0);
    push_if(v, st & PERF_SAMPLE_BRANCH_STACK != 0, 0);
    push_if(v, st & PERF_SAMPLE_REGS_USER != 0, 0);
    push_if(v, st & PERF_SAMPLE_STACK_USER != 0, 0);
    push_if(v, st & PERF_SAMPLE_WEIGHT != 0, 0);
    push_if(v, st & PERF_SAMPLE_DATA_SRC != 0, 0);
    push_if(v, st & PERF_SAMPLE_TRANSACTION != 0, 0);
    push_if(v, st & PERF_SAMPLE_REGS_INTR != 0, 0);
    push_if(v, st & PERF_SAMPLE_PHYS_ADDR != 0, 0);
}

/// Builds a record without its header.
fn encode_body(e: &PerfInner, s: &Sample) -> (v: Vec<u8>)
    ensures
        v@ == body_of(*e, *s),
{
    let mut v: Vec<u8> = Vec::new();
    assert(v@ =~= Seq::empty());
    push_head(&mut v, e, s);
    push_event(&mut v, e, s);
    push_empty(&mut v, e.sample_type);
    proof {
        reveal(body_of);
    }
    v
}

/// Puts the header before a record.
fn encode_record(body: &[u8]) -> (v: Vec<u8>)
    requires
        body@.len() <= 192,
    ensures
        v@ == framed(body@),
{
    let total: usize = 8 + body.len();
    let mut v: Vec<u8> = Vec::new();
    push_u32(&mut v, PERF_RECORD_SAMPLE);
    push_u16(&mut v, PERF_RECORD_MISC_USER);
    push_u16(&mut v, total as u16);
    v.extend_from_slice(body);
    assert(v@ =~= framed(body@));
    v
}

/// A multiple of eight bytes, and no more than a bound.
spec fn eights(n: int, most: int) -> bool {
    0 <= n <= most && n % 8 == 0
}

proof fn lemma_asked(v: Seq<u8>, most: int, wanted: bool, x: Seq<u8>)
    requires
        eights(v.len() as int, most),
        x.len() == 8,
    ensures
        eights((v + asked(wanted, x)).len() as int, most + 8),
{
    reveal(asked);
}

proof fn lemma_head_len(v: Seq<u8>, most: int, e: PerfInner, s: Sample)
    requires
        eights(v.len() as int, most),
    ensures
        eights(with_head(v, e, s).len() as int, most + 40),
{
    let st = e.sample_type;
    let a = asked(st & PERF_SAMPLE_IDENTIFIER != 0, le64(e.id));
    let b = asked(st & PERF_SAMPLE_IP != 0, le64(s.ip));
    let c = asked(st & PERF_SAMPLE_TID != 0, le32(s.pid as u32) + le32(s.tid as u32));
    let d = asked(st & PERF_SAMPLE_TIME != 0, le64(s.time_ns));
    lemma_asked(v, most, st & PERF_SAMPLE_IDENTIFIER != 0, le64(e.id));
    lemma_asked(v + a, most + 8, st & PERF_SAMPLE_IP != 0, le64(s.ip));
    lemma_asked(
        v + a + b,
        most + 16,
        st & PERF_SAMPLE_TID != 0,
        le32(s.pid as u32) + le32(s.tid as u32),
    );
    lemma_asked(v + a + b + c, most + 24, st & PERF_SAMPLE_TIME != 0, le64(s.time_ns));
    lemma_asked(v + a + b + c + d, most + 32, st & PERF_SAMPLE_ADDR != 0, le64(0));
}

proof fn lemma_read_len(v: Seq<u8>, most: int, e: PerfInner, s: Sample)
    requires
        eights(v.len() as int, most),
    ensures
        eights(with_read(v, e, s).len() as int, most + 32),
{
    let f = e.read_format;
    let a = le64(e.count);
    let b = asked(f & PERF_FORMAT_TOTAL_TIME_ENABLED != 0, le64(s.time_ns));
    let c = asked(f & PERF_FORMAT_TOTAL_TIME_RUNNING != 0, le64(s.time_ns));
    lemma_asked(v + a, most + 8, f & PERF_FORMAT_TOTAL_TIME_ENABLED != 0, le64(s.time_ns));
    lemma_asked(v + a + b, most + 16, f & PERF_FORMAT_TOTAL_TIME_RUNNING != 0, le64(s.time_ns));
    lemma_asked(v + a + b + c, most + 24, f & PERF_FORMAT_ID != 0, le64(e.id));
}

proof fn lemma_event_len(v: Seq<u8>, most: int, e: PerfInner, s: Sample)
    requires
        eights(v.len() as int, most),
    ensures
        eights(with_event(v, e, s).len() as int, most + 64),
{
    let st = e.sample_type;
    let a = asked(st & PERF_SAMPLE_ID != 0, le64(e.id));
    let b = asked(st & PERF_SAMPLE_STREAM_ID != 0, le64(e.id));
    let c = asked(st & PERF_SAMPLE_CPU != 0, le32(s.cpu) + le32(0));
    let d = asked(st & PERF_SAMPLE_PERIOD != 0, le64(e.period));
    lemma_asked(v, most, st & PERF_SAMPLE_ID != 0, le64(e.id));
    lemma_asked(v + a, most + 8, st & PERF_SAMPLE_STREAM_ID != 0, le64(e.id));
    lemma_asked(v + a + b, most + 16, st & PERF_SAMPLE_CPU != 0, le32(s.cpu) + le32(0));
    lemma_asked(v + a + b + c, most + 24, st & PERF_SAMPLE_PERIOD != 0, le64(e.period));
    lemma_read_len(v + a + b + c + d, most + 32, e, s);
}

proof fn lemma_empty_len(v: Seq<u8>, most: int, st: u64)
    requires
        eights(v.len() as int, most),
    ensures
        eights(with_empty(v, st).len() as int, most + 80),
{
    let v1 = v + asked(st & PERF_SAMPLE_CALLCHAIN != 0, le64(0));
    let v2 = v1 + asked(st & PERF_SAMPLE_RAW != 0, le64(0));
    let v3 = v2 + asked(st & PERF_SAMPLE_BRANCH_STACK != 0, le64(0));
    let v4 = v3 + asked(st & PERF_SAMPLE_REGS_USER != 0, le64(0));
    let v5 = v4 + asked(st & PERF_SAMPLE_STACK_USER != 0, le64(0));
    let v6 = v5 + asked(st & PERF_SAMPLE_WEIGHT != 0, le64(0));
    let v7 = v6 + asked(st & PERF_SAMPLE_DATA_SRC != 0, le64(0));
    let v8 = v7 + asked(st & PERF_SAMPLE_TRANSACTION != 0, le64(0));
    let v9 = v8 + asked(st & PERF_SAMPLE_REGS_INTR != 0, le64(0));
    lemma_asked(v, most, st & PERF_SAMPLE_CALLCHAIN != 0, le64(0));
    lemma_asked(v1, most + 8, st & PERF_SAMPLE_RAW != 0, le64(0));
    lemma_asked(v2, most + 16, st & PERF_SAMPLE_BRANCH_STACK != 0, le64(0));
    lemma_asked(v3, most + 24, st & PERF_SAMPLE_REGS_USER != 0, le64(0));
    lemma_asked(v4, most + 32, st & PERF_SAMPLE_STACK_USER != 0, le64(0));
    lemma_asked(v5, most + 40, st & PERF_SAMPLE_WEIGHT != 0, le64(0));
    lemma_asked(v6, most + 48, st & PERF_SAMPLE_DATA_SRC != 0, le64(0));
    lemma_asked(v7, most + 56, st & PERF_SAMPLE_TRANSACTION != 0, le64(0));
    lemma_asked(v8, most + 64, st & PERF_SAMPLE_REGS_INTR != 0, le64(0));
    lemma_asked(v9, most + 72, st & PERF_SAMPLE_PHYS_ADDR != 0, le64(0));
}

proof fn lemma_body_len(e: PerfInner, s: Sample)
    ensures
        eights(body_of(e, s).len() as int, 184),
{
    reveal(body_of);
    let none = Seq::<u8>::empty();
    lemma_head_len(none, 0, e, s);
    lemma_event_len(with_head(none, e, s), 40, e, s);
    lemma_empty_len(with_event(with_head(none, e, s), e, s), 104, e.sample_type);
}

/// Bytes for a place in the ring's memory.
pub struct RingWrite {
    pub at: usize,
    pub data: Vec<u8>,
}

/// Writes, mathematically.
pub open spec fn writes_of(v: Seq<RingWrite>) -> Seq<(int, Seq<u8>)> {
    Seq::new(v.len(), |i: int| (v[i].at as int, v[i].data@))
}

/// Whether a ring of `size` bytes has room for a record while the reader stands at `tail`.
pub open spec fn has_room(size: int, head: u64, tail: u64, len: int) -> bool {
    0 < len <= size && (head - tail) % 0x1_0000_0000_0000_0000 + len <= size
}

/// The writes that put a record into a ring and then move its head.
pub open spec fn ring_writes(size: int, head: u64, record: Seq<u8>) -> Seq<(int, Seq<u8>)> {
    let pos = head as int % size;
    let moved = (1024int, le64(((head + record.len()) % 0x1_0000_0000_0000_0000) as u64));
    if pos + record.len() <= size {
        seq![(4096 + pos, record), moved]
    } else {
        seq![(4096 + pos, record.take(size - pos)), (4096int, record.skip(size - pos)), moved]
    }
}

/// An event after a record came in while the reader stood at `tail`.
pub open spec fn after_record(e: PerfInner, tail: u64, record: Seq<u8>) -> PerfInner {
    match e.ring {
        None => e,
        Some(size) => if record.len() == 0 || record.len() > size {
            e
        } else if has_room(size as int, e.data_head, tail, record.len() as int) {
            PerfInner {
                data_head: ((e.data_head + record.len()) % 0x1_0000_0000_0000_0000) as u64,
                ..e
            }
        } else {
            PerfInner { lost: ((e.lost + 1) % 0x1_0000_0000_0000_0000) as u64, ..e }
        },
    }
}

/// The writes for a record: none where there is no ring or no room.
pub open spec fn record_writes(e: PerfInner, tail: u64, record: Seq<u8>) -> Seq<(int, Seq<u8>)> {
    match e.ring {
        None => Seq::empty(),
        Some(size) => if has_room(size as int, e.data_head, tail, record.len() as int) {
            ring_writes(size as int, e.data_head, record)
        } else {
            Seq::empty()
        },
    }
}

/// An event with one more period counted.
pub open spec fn counted(e: PerfInner) -> PerfInner {
    PerfInner { count: ((e.count + e.period) % 0x1_0000_0000_0000_0000) as u64, ..e }
}

/// An event after a sample.
pub open spec fn after_sample(e: PerfInner, tail: u64, s: Sample) -> PerfInner {
    if !e.enabled || e.ring is None {
        e
    } else {
        after_record(counted(e), tail, record_of(counted(e), s))
    }
}

/// The writes for a sample.
pub open spec fn sample_writes(e: PerfInner, tail: u64, s: Sample) -> Seq<(int, Seq<u8>)> {
    if !e.enabled || e.ring is None {
        Seq::empty()
    } else {
        record_writes(counted(e), tail, record_of(counted(e), s))
    }
}

fn bytes_of(s: &[u8]) -> (v: Vec<u8>)
    ensures
        v@ == s@,
{
    let mut v: Vec<u8> = Vec::new();
    v.extend_from_slice(s);
    assert(v@ =~= s@);
    v
}

impl PerfInner {
    /// Builds an event from the bytes of an attribute.
    pub fn new(attr: &[u8], id: u64) -> (e: Self)
        ensures
            e == described(attr@, id),
    {
        let attr_flags: u64 = rd_u64(attr, 40);
        let sample_period: u64 = rd_u64(attr, 16);
        let period: u64 = if attr_flags & ATTR_FLAG_FREQ != 0 {
            1
        } else if sample_period == 0 {
            1
        } else {
            sample_period
        };
        PerfInner {
            type_: rd_u32(attr, 0),
            config: rd_u64(attr, 8),
            sample_type: rd_u64(attr, 24),
            read_format: rd_u64(attr, 32),
            period,
            id,
            enabled: attr_flags & ATTR_FLAG_DISABLED == 0,
            data_head: 0,
            count: 0,
            lost: 0,
            ring: None,
        }
    }

    /// Puts a record into the ring, unless the reader has left no room for it.
    pub fn ring_write(&mut self, data_tail: u64, record: &[u8]) -> (w: Vec<RingWrite>)
        requires
            old(self).ring matches Some(size) ==> size <= usize::MAX - PAGE_SIZE,
        ensures
            *final(self) == after_record(*old(self), data_tail, record@),
            writes_of(w@) == record_writes(*old(self), data_tail, record@),
    {
        let mut w: Vec<RingWrite> = Vec::new();
        assert(writes_of(w@) =~= Seq::empty());
        match self.ring {
            None => {},
            Some(data_size) => {
                let n: usize = record.len();
                if n == 0 || n > data_size {
                    return w;
                }
                let head: u64 = self.data_head;
                let used: u64 = head.wrapping_sub(data_tail);
                if used > data_size as u64 - n as u64 {
                    self.lost = self.lost.wrapping_add(1);
                    return w;
                }
                let pos: usize = (head % data_size as u64) as usize;
                let new_head: u64 = head.wrapping_add(n as u64);
                let mut published: Vec<u8> = Vec::new();
                push_u64(&mut published, new_head);
                assert(published@ =~= le64(new_head));
                if n <= data_size - pos {
                    w.push(RingWrite { at: PAGE_SIZE + pos, data: bytes_of(record) });
                } else {
                    let first: usize = data_size - pos;
                    w.push(RingWrite { at: PAGE_SIZE + pos, data: bytes_of(&record[0..first]) });
                    w.push(RingWrite { at: PAGE_SIZE, data: bytes_of(&record[first..n]) });
                }
                w.push(RingWrite { at: PC_DATA_HEAD, data: published });
                self.data_head = new_head;
                assert(writes_of(w@) =~= ring_writes(data_size as int, head, record@));
            },
        }
        w
    }

    /// Takes a sample: counts it, and puts a record of it into the ring.
    pub fn record_sample(&mut self, data_tail: u64, s: &Sample) -> (w: Vec<RingWrite>)
        requires
            old(self).ring matches Some(size) ==> size <= usize::MAX - PAGE_SIZE,
        ensures
            *final(self) == after_sample(*old(self), data_tail, *s),
            writes_of(w@) == sample_writes(*old(self), data_tail, *s),
    {
        if !self.enabled || self.ring.is_none() {
            let w: Vec<RingWrite> = Vec::new();
            assert(writes_of(w@) =~= Seq::empty());
            return w;
        }
        self.count = self.count.wrapping_add(self.period);
        let body: Vec<u8> = encode_body(self, s);
        proof {
            lemma_body_len(counted(*old(self)), *s);
        }
        let record: Vec<u8> = encode_record(body.as_slice());
        self.ring_write(data_tail, record.as_slice())
    }

    /// Whether the reader has something to read.
    pub fn has_data(&self, data_tail: u64) -> (r: bool)
        ensures
            r == (self.ring is Some && self.data_head != data_tail),
    {
        self.ring.is_some() && self.data_head != data_tail
    }

    pub fn poll(&self, data_tail: u64) -> (s: PollStatus)
        ensures
            s == (PollStatus {
                read: self.ring is Some && self.data_head != data_tail,
                write: false,
                error: false,
            }),
    {
        PollStatus { read: self.has_data(data_tail), write: false, error: false }
    }

    /// What reading the event gives: its count, and what the format asks for besides.
    pub fn read(&self, room: usize) -> (v: Vec<u8>)
        ensures
            v@ == (if room < count_bytes(*self).len() {
                count_bytes(*self).take(room as int)
            } else {
                count_bytes(*self)
            }),
    {
        let mut v: Vec<u8> = Vec::new();
        push_u64(&mut v, self.count);
        assert(v@ =~= le64(self.count));
        push_if(&mut v, self.read_format & PERF_FORMAT_TOTAL_TIME_ENABLED != 0, 0);
        push_if(&mut v, self.read_format & PERF_FORMAT_TOTAL_TIME_RUNNING != 0, 0);
        push_if(&mut v, self.read_format & PERF_FORMAT_ID != 0, self.id);
        v.truncate(room);
        v
    }

    pub fn write(&self) -> (r: Result<usize, LxError>)
        ensures
            r == Err::<usize, LxError>(LxError::EINVAL),
    {
        Err(LxError::EINVAL)
    }

    /// Controls the event. `value` is what was read from user memory at `arg1`, where that was
    /// possible. What is to be written there comes back.
    pub fn ioctl(&mut self, request: usize, arg1: usize, value: Option<u64>) -> (r: Result<
        Option<u64>,
        LxError,
    >)
        ensures
            r == ioctl_answer(*old(self), request, arg1),
            *final(self) == after_ioctl(*old(self), request, arg1, value),
    {
        if request == PERF_EVENT_IOC_ENABLE || request == PERF_EVENT_IOC_REFRESH {
            self.enabled = true;
            Ok(None)
        } else if request == PERF_EVENT_IOC_DISABLE {
            self.enabled = false;
            Ok(None)
        } else if request == PERF_EVENT_IOC_RESET {
            self.count = 0;
            Ok(None)
        } else if request == PERF_EVENT_IOC_PERIOD {
            if arg1 != 0 {
                match value {
                    Some(p) => {
                        self.period = if p == 0 {
                            1
                        } else {
                            p
                        };
                    },
                    None => {},
                }
            }
            Ok(None)
        } else if request == PERF_EVENT_IOC_ID {
            if arg1 != 0 {
                Ok(Some(self.id))
            } else {
                Ok(None)
            }
        } else if request == PERF_EVENT_IOC_SET_OUTPUT || request == PERF_EVENT_IOC_SET_FILTER {
            Ok(None)
        } else {
            Err(LxError::ENOTTY)
        }
    }

    /// Maps the ring: a control page and the data after it. The first mapping fixes the size.
    pub fn get_vmo(&mut self, offset: usize, len: usize) -> (r: Result<RingMap, LxError>)
        requires
            len <= usize::MAX - PAGE_SIZE,
        ensures
            ring_mapped(*old(self), offset, len, r, *final(self)),
    {
        if offset != 0 || len < 2 * PAGE_SIZE {
            return Err(LxError::EINVAL);
        }
        if self.ring.is_some() {
            return Ok(RingMap::Existing);
        }
        let pages: usize = (len + (PAGE_SIZE - 1)) / PAGE_SIZE;
        let data_size: usize = (pages - 1) * PAGE_SIZE;
        let mut writes: Vec<RingWrite> = Vec::new();
        let mut version: Vec<u8> = Vec::new();
        push_u32(&mut version, 0);
        assert(version@ =~= le32(0));
        writes.push(RingWrite { at: PC_VERSION, data: version });
        writes.push(RingWrite { at: PC_DATA_HEAD, data: number(0) });
        writes.push(RingWrite { at: PC_DATA_TAIL, data: number(0) });
        writes.push(RingWrite { at: PC_DATA_OFFSET, data: number(4096) });
        writes.push(RingWrite { at: PC_DATA_SIZE, data: number(data_size as u64) });
        assert(writes_of(writes@) =~= control_page(data_size as int));
        self.ring = Some(data_size);
        Ok(RingMap::Fresh { pages, writes })
    }
}

fn number(x: u64) -> (v: Vec<u8>)
    ensures
        v@ == le64(x),
{
    let mut v: Vec<u8> = Vec::new();
    push_u64(&mut v, x);
    assert(v@ =~= le64(x));
    v
}

/// How a ring is mapped.
pub enum RingMap {
    /// It was mapped before.
    Existing,
    /// So many pages are to be made, and these bytes written to them.
    Fresh { pages: usize, writes: Vec<RingWrite> },
}

/// Pages that a length takes.
pub open spec fn page_count(len: int) -> int {
    (len + 4095) / 4096
}

/// Mapping the ring of an event answers `r`, and leaves the event so.
pub open spec fn ring_mapped(
    e: PerfInner,
    offset: usize,
    len: usize,
    r: Result<RingMap, LxError>,
    e2: PerfInner,
) -> bool {
    if offset != 0 || len < 8192 {
        r matches Err(x) && x == LxError::EINVAL && e2 == e
    } else if e.ring is Some {
        r matches Ok(m) && m is Existing && e2 == e
    } else {
        &&& r matches Ok(RingMap::Fresh { pages, writes })
        &&& pages == page_count(len as int)
        &&& writes_of(writes@) == control_page((page_count(len as int) - 1) * 4096)
        &&& e2 == (PerfInner {
            ring: Some(((page_count(len as int) - 1) * 4096) as usize),
            ..e
        })
    }
}

/// What the control page of a fresh ring holds.
pub open spec fn control_page(data_size: int) -> Seq<(int, Seq<u8>)> {
    seq![
        (0int, le32(0)),
        (1024int, le64(0)),
        (1032int, le64(0)),
        (1040int, le64(4096)),
        (1048int, le64(data_size as u64)),
    ]
}

/// What reading an event gives.
pub open spec fn count_bytes(e: PerfInner) -> Seq<u8> {
    le64(e.count) + asked(e.read_format & PERF_FORMAT_TOTAL_TIME_ENABLED != 0, le64(0)) + asked(
        e.read_format & PERF_FORMAT_TOTAL_TIME_RUNNING != 0,
        le64(0),
    ) + asked(e.read_format & PERF_FORMAT_ID != 0, le64(e.id))
}

/// What a control request answers.
pub open spec fn ioctl_answer(e: PerfInner, request: usize, arg1: usize) -> Result<
    Option<u64>,
    LxError,
> {
    if request == PERF_EVENT_IOC_ID {
        if arg1 != 0 {
            Ok(Some(e.id))
        } else {
            Ok(None)
        }
    } else if request == PERF_EVENT_IOC_ENABLE || request == PERF_EVENT_IOC_REFRESH || request
        == PERF_EVENT_IOC_DISABLE || request == PERF_EVENT_IOC_RESET || request
        == PERF_EVENT_IOC_PERIOD || request == PERF_EVENT_IOC_SET_OUTPUT || request
        == PERF_EVENT_IOC_SET_FILTER {
        Ok(None)
    } else {
        Err(LxError::ENOTTY)
    }
}

/// Whether a control request switches an event on.
pub open spec fn switches_on(request: usize) -> bool {
    request == PERF_EVENT_IOC_ENABLE || request == PERF_EVENT_IOC_REFRESH
}

/// An event after a control request.
pub open spec fn after_ioctl(
    e: PerfInner,
    request: usize,
    arg1: usize,
    value: Option<u64>,
) -> PerfInner {
    if switches_on(request) {
        PerfInner { enabled: true, ..e }
    } else if request == PERF_EVENT_IOC_DISABLE {
        PerfInner { enabled: false, ..e }
    } else if request == PERF_EVENT_IOC_RESET {
        PerfInner { count: 0, ..e }
    } else if request == PERF_EVENT_IOC_PERIOD && arg1 != 0 && value is Some {
        PerfInner { period: positive(value->0), ..e }
    } else {
        e
    }
}

/// An event with what it is bound to: a processor and a process, or any where negative.
#[derive(Clone, Copy, Debug)]
pub struct PerfEvent {
    pub cpu: i32,
    pub pid: i32,
    pub flags: OpenFlags,
    pub inner: PerfInner,
}

/// Whether an event is bound to where a sample was taken.
pub open spec fn bound_to(e: PerfEvent, s: Sample) -> bool {
    (e.cpu < 0 || e.cpu == s.cpu) && (e.pid < 0 || e.pid == s.pid)
}

/// All live events. `any_enabled` says whether it is worth looking at them.
pub struct PerfEvents {
    pub next_id: u64,
    pub events: Vec<PerfEvent>,
    pub any_enabled: bool,
}

/// Whether one of the events is switched on.
pub open spec fn some_enabled(s: Seq<PerfEvent>) -> bool {
    exists|i: int| 0 <= i < s.len() && (#[trigger] s[i]).inner.enabled
}

/// Events that are switched on are looked at.
pub open spec fn noticed(any: bool, s: Seq<PerfEvent>) -> bool {
    some_enabled(s) ==> any
}

/// An event after a sample was taken somewhere.
pub open spec fn sampled(e: PerfEvent, tail: u64, s: Sample) -> PerfEvent {
    if bound_to(e, s) {
        PerfEvent { inner: after_sample(e.inner, tail, s), ..e }
    } else {
        e
    }
}

/// The writes for a sample that was taken somewhere.
pub open spec fn sampled_writes(e: PerfEvent, tail: u64, s: Sample) -> Seq<(int, Seq<u8>)> {
    if bound_to(e, s) {
        sample_writes(e.inner, tail, s)
    } else {
        Seq::empty()
    }
}

/// Every mapped ring fits the address space.
pub open spec fn rings_fit(s: Seq<PerfEvent>) -> bool {
    forall|i: int|
        0 <= i < s.len() ==> ((#[trigger] s[i]).inner.ring matches Some(size) ==> size
            <= usize::MAX - PAGE_SIZE)
}

impl PerfEvents {
    pub fn new() -> (p: Self)
        ensures
            p.next_id == 1,
            p.events@ == Seq::<PerfEvent>::empty(),
            !p.any_enabled,
    {
        PerfEvents { next_id: 1, events: Vec::new(), any_enabled: false }
    }

    /// Opens an event from the bytes of an attribute.
    pub fn open(&mut self, attr: &[u8], pid: i32, cpu: i32, flags: OpenFlags) -> (id: u64)
        requires
            old(self).next_id < u64::MAX,
        ensures
            id == old(self).next_id,
            final(self).next_id == old(self).next_id + 1,
            final(self).events@ == old(self).events@.push(
                (PerfEvent { cpu, pid, flags, inner: described(attr@, id) }),
            ),
            final(self).any_enabled == (old(self).any_enabled || described(attr@, id).enabled),
            noticed(old(self).any_enabled, old(self).events@) ==> noticed(
                final(self).any_enabled,
                final(self).events@,
            ),
    {
        let id: u64 = self.next_id;
        self.next_id = self.next_id + 1;
        let inner = PerfInner::new(attr, id);
        if inner.enabled {
            self.any_enabled = true;
        }
        self.events.push(PerfEvent { cpu, pid, flags, inner });
        id
    }

    /// Controls one of the events.
    pub fn ioctl(&mut self, k: usize, request: usize, arg1: usize, value: Option<u64>) -> (r:
        Result<Option<u64>, LxError>)
        requires
            k < old(self).events@.len(),
        ensures
            r == ioctl_answer(old(self).events@[k as int].inner, request, arg1),
            final(self).next_id == old(self).next_id,
            final(self).any_enabled == (old(self).any_enabled || switches_on(request)),
            noticed(old(self).any_enabled, old(self).events@) ==> noticed(
                final(self).any_enabled,
                final(self).events@,
            ),
            final(self).events@ == old(self).events@.update(
                k as int,
                (PerfEvent {
                    inner: after_ioctl(
                        old(self).events@[k as int].inner,
                        request,
                        arg1,
                        value,
                    ),
                    ..old(self).events@[k as int]
                }),
            ),
    {
        let mut e = self.events[k];
        let r = e.inner.ioctl(request, arg1, value);
        self.events.set(k, e);
        if request == PERF_EVENT_IOC_ENABLE || request == PERF_EVENT_IOC_REFRESH {
            self.any_enabled = true;
        }
        r
    }

    /// Takes a sample on every event that is switched on and bound to where it was taken. `tails`
    /// holds where the reader of each event's ring stands.
    pub fn sample_user(&mut self, s: &Sample, tails: &[u64]) -> (w: Vec<Vec<RingWrite>>)
        requires
            tails@.len() == old(self).events@.len(),
            rings_fit(old(self).events@),
        ensures
            final(self).next_id == old(self).next_id,
            w@.len() == old(self).events@.len(),
            final(self).events@.len() == old(self).events@.len(),
            final(self).any_enabled == (old(self).any_enabled && some_enabled(
                old(self).events@,
            )),
            noticed(old(self).any_enabled, old(self).events@) ==> noticed(
                final(self).any_enabled,
                final(self).events@,
            ),
            forall|i: int|
                0 <= i < w@.len() ==> #[trigger] final(self).events@[i] == (if old(
                    self).any_enabled {
                    sampled(old(self).events@[i], tails@[i], *s)
                } else {
                    old(self).events@[i]
                }),
            forall|i: int|
                0 <= i < w@.len() ==> writes_of(#[trigger] w@[i]@) == (if old(self).any_enabled {
                    sampled_writes(old(self).events@[i], tails@[i], *s)
                } else {
                    Seq::empty()
                }),
    {
        let ghost before = self.events@;
        let mut w: Vec<Vec<RingWrite>> = Vec::new();
        let any_before: bool = self.any_enabled;
        let mut any: bool = false;
        let mut i: usize = 0;
        while i < self.events.len()
            invariant
                i <= before.len(),
                self.events@.len() == before.len(),
                before == old(self).events@,
                tails@.len() == before.len(),
                rings_fit(before),
                self.next_id == old(self).next_id,
                self.any_enabled == any_before,
                w@.len() == i,
                any == exists|j: int| 0 <= j < i && (#[trigger] before[j]).inner.enabled,
                forall|j: int|
                    0 <= j < i ==> #[trigger] self.events@[j] == (if any_before {
                        sampled(before[j], tails@[j], *s)
                    } else {
                        before[j]
                    }),
                forall|j: int| i <= j < before.len() ==> #[trigger] self.events@[j] == before[j],
                forall|j: int|
                    0 <= j < i ==> writes_of(#[trigger] w@[j]@) == (if any_before {
                        sampled_writes(before[j], tails@[j], *s)
                    } else {
                        Seq::empty()
                    }),
            decreases before.len() - i,
        {
            let mut e = self.events[i];
            assert(e == before[i as int]);
            any = any || e.inner.enabled;
            let matches: bool = (e.cpu < 0 || e.cpu as u32 == s.cpu) && (e.pid < 0 || e.pid
                == s.pid);
            if any_before && matches && e.inner.enabled {
                let got: Vec<RingWrite> = e.inner.record_sample(tails[i], s);
                self.events.set(i, e);
                w.push(got);
            } else {
                let none: Vec<RingWrite> = Vec::new();
                assert(writes_of(none@) =~= Seq::empty());
                w.push(none);
            }
            i = i + 1;
        }
        self.any_enabled = any_before && any;
        w
    }
}

/// Memory after writes, the earlier ones first.
pub open spec fn applied(mem: Seq<u8>, w: Seq<(int, Seq<u8>)>) -> Seq<u8>
    decreases w.len(),
{
    if w.len() == 0 {
        mem
    } else {
        crate::bytes::splice(applied(mem, w.drop_last()), w.last().0, w.last().1)
    }
}

/// The byte of a ring at a place counted from the beginning of time.
pub open spec fn ring_byte(mem: Seq<u8>, size: int, at: int) -> u8 {
    mem[4096 + at % size]
}

proof fn lemma_around(size: int, a: int, b: int)
    requires
        size > 0,
        a < b < a + size,
    ensures
        a % size != b % size,
{
    vstd::arithmetic::div_mod::lemma_fundamental_div_mod(a, size);
    vstd::arithmetic::div_mod::lemma_fundamental_div_mod(b, size);
    if a % size == b % size {
        let q = b / size - a / size;
        assert(b - a == size * q) by (nonlinear_arith)
            requires
                a == size * (a / size) + a % size,
                b == size * (b / size) + b % size,
                a % size == b % size,
                q == b / size - a / size,
        ;
        assert(q <= 0 || q >= 1);
        assert(q <= 0 ==> size * q <= 0) by (nonlinear_arith)
            requires
                size > 0,
        ;
        assert(q >= 1 ==> size * q >= size) by (nonlinear_arith)
            requires
                size > 0,
        ;
    }
}

proof fn lemma_step(size: int, h: int, k: int)
    requires
        size > 0,
        0 <= h,
        0 <= k < size,
    ensures
        (h + k) % size == (if h % size + k < size {
            h % size + k
        } else {
            h % size + k - size
        }),
{
    vstd::arithmetic::div_mod::lemma_fundamental_div_mod(h, size);
    let p = h % size;
    let q = h / size;
    assert(size * q == q * size) by (nonlinear_arith);
    if p + k < size {
        vstd::arithmetic::div_mod::lemma_fundamental_div_mod_converse(h + k, size, q, p + k);
    } else {
        assert((q + 1) * size == q * size + size) by (nonlinear_arith);
        vstd::arithmetic::div_mod::lemma_fundamental_div_mod_converse(
            h + k,
            size,
            q + 1,
            p + k - size,
        );
    }
}

/// The writes for a record put it behind what the reader has not read yet, which stays as it was.
pub proof fn law_ring_appends(
    mem: Seq<u8>,
    size: int,
    head: u64,
    tail: u64,
    record: Seq<u8>,
    at: int,
)
    requires
        size > 0,
        mem.len() == 4096 + size,
        tail <= head,
        has_room(size, head, tail, record.len() as int),
        tail <= at < head + record.len(),
    ensures
        ring_byte(applied(mem, ring_writes(size, head, record)), size, at) == (if at < head {
            ring_byte(mem, size, at)
        } else {
            record[at - head]
        }),
{
    let w = ring_writes(size, head, record);
    let pos = head as int % size;
    let n = record.len() as int;
    reveal_with_fuel(applied, 4);
    vstd::arithmetic::div_mod::lemma_small_mod(
        (head - tail) as nat,
        0x1_0000_0000_0000_0000nat,
    );
    assert(head - tail + n <= size);
    vstd::arithmetic::div_mod::lemma_mod_bound(at, size);
    vstd::arithmetic::div_mod::lemma_mod_bound(head as int, size);
    if at >= head {
        lemma_step(size, head as int, at - head);
    } else {
        assert forall|k: int| 0 <= k < n implies #[trigger] ((head + k) % size) != at % size by {
            lemma_around(size, at, head + k);
        }
        if pos + n <= size {
            assert(!(pos <= at % size < pos + n)) by {
                if pos <= at % size < pos + n {
                    let k = at % size - pos;
                    lemma_step(size, head as int, k);
                    assert(((head + k) % size) == at % size);
                }
            }
        } else {
            assert(!(pos <= at % size < size)) by {
                if pos <= at % size < size {
                    let k = at % size - pos;
                    lemma_step(size, head as int, k);
                    assert(((head + k) % size) == at % size);
                }
            }
            assert(!(0 <= at % size < n - (size - pos))) by {
                if 0 <= at % size < n - (size - pos) {
                    let k = at % size + size - pos;
                    lemma_step(size, head as int, k);
                    assert(((head + k) % size) == at % size);
                }
            }
        }
    }
    if pos + n <= size {
        assert(w.drop_last() =~= seq![(4096 + pos, record)]);
        assert(w.drop_last().drop_last() =~= Seq::empty());
    } else {
        assert(w.drop_last() =~= seq![
            (4096 + pos, record.take(size - pos)),
            (4096int, record.skip(size - pos)),
        ]);
        assert(w.drop_last().drop_last() =~= seq![(4096 + pos, record.take(size - pos))]);
        assert(w.drop_last().drop_last().drop_last() =~= Seq::empty());
    }
}

/// The length that a record's header states is the record's, and a multiple of eight.
pub proof fn law_record_length(e: PerfInner, s: Sample)
    ensures
        u16_len(record_of(e, s)) == record_of(e, s).len(),
        record_of(e, s).len() % 8 == 0,
{
    lemma_body_len(e, s);
    lemma_frame(body_of(e, s));
}

proof fn lemma_frame(body: Seq<u8>)
    requires
        body.len() <= 192,
    ensures
        framed(body).len() == 8 + body.len(),
        u16_len(framed(body)) == framed(body).len(),
{
    let n = (8 + body.len()) as u16;
    crate::bytes::law_le16_roundtrip(n);
    assert(framed(body)[6] == le16(n)[0]);
    assert(framed(body)[7] == le16(n)[1]);
}

/// The length that a record's header states.
pub open spec fn u16_len(record: Seq<u8>) -> int {
    crate::bytes::u16_at(record, 6) as int
}

/// An event that is switched off takes no samples.
pub proof fn law_disabled_takes_none(e: PerfInner, tail: u64, s: Sample)
    requires
        !e.enabled,
    ensures
        after_sample(e, tail, s) == e,
        sample_writes(e, tail, s) == Seq::<(int, Seq<u8>)>::empty(),
{
}

/// What an event is, by its description: a word that is not there reads as 0. It counts by its period,
/// which is 1 where a frequency was given or none, and is on unless it is to start off.
pub proof fn law_event_described(attr: Seq<u8>, id: u64)
    ensures
        attr.len() >= 48 ==> {
            let e = described(attr, id);
            &&& e.type_ == u32_at(attr, 0)
            &&& e.config == u64_at(attr, 8)
            &&& e.sample_type == u64_at(attr, 24)
            &&& e.read_format == u64_at(attr, 32)
            &&& u64_at(attr, 40) & 0x400 != 0 || u64_at(attr, 16) == 0 ==> e.period == 1
            &&& u64_at(attr, 40) & 0x400 == 0 && u64_at(attr, 16) > 0 ==> e.period == u64_at(attr, 16)
            &&& e.enabled <==> u64_at(attr, 40) & 1 == 0
        },
        described(attr, id).id == id && described(attr, id).count == 0 && described(attr, id).lost == 0
            && described(attr, id).data_head == 0 && described(attr, id).ring is None,
        attr.len() < 32 ==> described(attr, id).sample_type == 0 && described(attr, id).read_format == 0,
        described(attr, id).period >= 1,
{
}

/// A sample counts one period where the event is on and has a ring, and changes nothing else of it but
/// where the next goes, or how many were lost.
pub proof fn law_sample_counted(e: PerfInner, tail: u64, s: Sample)
    ensures
        e.enabled && e.ring is Some && e.count + e.period <= u64::MAX ==> after_sample(e, tail, s).count
            == e.count + e.period,
        !e.enabled || e.ring is None ==> after_sample(e, tail, s) == e && sample_writes(e, tail, s).len() == 0,
        after_sample(e, tail, s).enabled == e.enabled && after_sample(e, tail, s).period == e.period
            && after_sample(e, tail, s).ring == e.ring && after_sample(e, tail, s).id == e.id,
{
}

/// A record goes into the ring where it fits between what was written and what was read; the head moves
/// past it. One that does not fit is lost, and counted as such.
pub proof fn law_record_kept_or_lost(e: PerfInner, tail: u64, record: Seq<u8>, size: usize)
    requires
        e.ring == Some(size),
        0 < record.len() <= size,
        tail <= e.data_head,
        e.data_head + record.len() <= u64::MAX,
        e.lost < u64::MAX,
    ensures
        e.data_head - tail + record.len() <= size ==> after_record(e, tail, record).data_head == e.data_head
            + record.len() && after_record(e, tail, record).lost == e.lost,
        e.data_head - tail + record.len() > size ==> after_record(e, tail, record).lost == e.lost + 1
            && after_record(e, tail, record).data_head == e.data_head && record_writes(
            e,
            tail,
            record,
        ).len() == 0,
        e.data_head - tail + record.len() <= size ==> record_writes(e, tail, record).last() == (
            1024int,
            le64((e.data_head + record.len()) as u64),
        ),
{
    vstd::arithmetic::div_mod::lemma_small_mod(
        (e.data_head - tail) as nat,
        0x1_0000_0000_0000_0000nat,
    );
}

/// A record says what it is, and that it comes from user code.
pub proof fn law_record_head(e: PerfInner, s: Sample)
    ensures
        u32_at(record_of(e, s), 0) == 9,
        crate::bytes::u16_at(record_of(e, s), 4) == 2,
        record_of(e, s).len() == 8 + body_of(e, s).len(),
        record_of(e, s).skip(8) == body_of(e, s),
{
    let body = body_of(e, s);
    let r = framed(body);
    crate::bytes::law_le32_roundtrip(9);
    crate::bytes::law_le16_roundtrip(2);
    let a = le32(9);
    let b = le16(2);
    assert(r[0] == a[0] && r[1] == a[1] && r[2] == a[2] && r[3] == a[3]);
    assert(r[4] == b[0] && r[5] == b[1]);
    assert(r.skip(8) =~= body);
}

/// The first part of a record: the number of the event, where the code was, whose it was, when, and no
/// address, each where it was asked for.
pub proof fn law_record_begins(v: Seq<u8>, e: PerfInner, s: Sample)
    ensures
        with_head(v, e, s) == v + (if e.sample_type & 0x1_0000 != 0 {
            le64(e.id)
        } else {
            Seq::empty()
        }) + (if e.sample_type & 1 != 0 {
            le64(s.ip)
        } else {
            Seq::empty()
        }) + (if e.sample_type & 2 != 0 {
            le32(s.pid as u32) + le32(s.tid as u32)
        } else {
            Seq::empty()
        }) + (if e.sample_type & 4 != 0 {
            le64(s.time_ns)
        } else {
            Seq::empty()
        }) + (if e.sample_type & 8 != 0 {
            le64(0)
        } else {
            Seq::empty()
        }),
{
    reveal(asked);
}

/// The second part: the numbers of the event, the processor, the period, and what the event counted.
pub proof fn law_record_goes_on(v: Seq<u8>, e: PerfInner, s: Sample)
    ensures
        ({
            let named = v + (if e.sample_type & 0x40 != 0 {
                le64(e.id)
            } else {
                Seq::empty()
            }) + (if e.sample_type & 0x200 != 0 {
                le64(e.id)
            } else {
                Seq::empty()
            }) + (if e.sample_type & 0x80 != 0 {
                le32(s.cpu) + le32(0)
            } else {
                Seq::empty()
            }) + (if e.sample_type & 0x100 != 0 {
                le64(e.period)
            } else {
                Seq::empty()
            });
            &&& e.sample_type & 0x10 == 0 ==> with_event(v, e, s) == named
            &&& e.sample_type & 0x10 != 0 ==> with_event(v, e, s) == named + le64(e.count) + (
            if e.read_format & 1 != 0 {
                le64(s.time_ns)
            } else {
                Seq::empty()
            }) + (if e.read_format & 2 != 0 {
                le64(s.time_ns)
            } else {
                Seq::empty()
            }) + (if e.read_format & 4 != 0 {
                le64(e.id)
            } else {
                Seq::empty()
            })
        }),
{
    reveal(asked);
}

/// The last part: a field of eight bytes for each of the other kinds that was asked for.
#[verifier::spinoff_prover]
pub proof fn law_record_ends(v: Seq<u8>, st: u64)
    ensures
        with_empty(v, st).len() == v.len() + field_len(st & 0x20 != 0) + field_len(st & 0x400 != 0) + field_len(st & 0x800 != 0) + field_len(st & 0x1000 != 0) + field_len(st & 0x2000 != 0) + field_len(st & 0x4000 != 0) + field_len(st & 0x8000 != 0) + field_len(st & 0x2_0000 != 0) + field_len(st & 0x4_0000 != 0) + field_len(st & 0x8_0000 != 0),
        field_len(true) == 8 && field_len(false) == 0,
{
    let a0 = v + asked(st & PERF_SAMPLE_CALLCHAIN != 0, le64(0));
    lemma_empty_field(v, st & PERF_SAMPLE_CALLCHAIN != 0);
    let a1 = a0 + asked(st & PERF_SAMPLE_RAW != 0, le64(0));
    lemma_empty_field(a0, st & PERF_SAMPLE_RAW != 0);
    let a2 = a1 + asked(st & PERF_SAMPLE_BRANCH_STACK != 0, le64(0));
    lemma_empty_field(a1, st & PERF_SAMPLE_BRANCH_STACK != 0);
    let a3 = a2 + asked(st & PERF_SAMPLE_REGS_USER != 0, le64(0));
    lemma_empty_field(a2, st & PERF_SAMPLE_REGS_USER != 0);
    let a4 = a3 + asked(st & PERF_SAMPLE_STACK_USER != 0, le64(0));
    lemma_empty_field(a3, st & PERF_SAMPLE_STACK_USER != 0);
    let a5 = a4 + asked(st & PERF_SAMPLE_WEIGHT != 0, le64(0));
    lemma_empty_field(a4, st & PERF_SAMPLE_WEIGHT != 0);
    let a6 = a5 + asked(st & PERF_SAMPLE_DATA_SRC != 0, le64(0));
    lemma_empty_field(a5, st & PERF_SAMPLE_DATA_SRC != 0);
    let a7 = a6 + asked(st & PERF_SAMPLE_TRANSACTION != 0, le64(0));
    lemma_empty_field(a6, st & PERF_SAMPLE_TRANSACTION != 0);
    let a8 = a7 + asked(st & PERF_SAMPLE_REGS_INTR != 0, le64(0));
    lemma_empty_field(a7, st & PERF_SAMPLE_REGS_INTR != 0);
    let a9 = a8 + asked(st & PERF_SAMPLE_PHYS_ADDR != 0, le64(0));
    lemma_empty_field(a8, st & PERF_SAMPLE_PHYS_ADDR != 0);
    assert(with_empty(v, st) == a9);
}

/// The length of a field that is there only where it was asked for.
pub open spec fn field_len(wanted: bool) -> int {
    if wanted {
        8
    } else {
        0
    }
}

proof fn lemma_empty_field(v: Seq<u8>, wanted: bool)
    ensures
        (v + asked(wanted, le64(0))).len() == v.len() + field_len(wanted),
{
    reveal(asked);
}

/// The parts of a record come in this order.
pub proof fn law_record_order(e: PerfInner, s: Sample)
    ensures
        body_of(e, s) == with_empty(
            with_event(with_head(Seq::empty(), e, s), e, s),
            e.sample_type,
        ),
{
    reveal(body_of);
}

/// What is read of an event: its count, no times, and its number where that was asked for.
pub proof fn law_count_read(e: PerfInner)
    ensures
        u64_at(count_bytes(e), 0) == e.count,
        count_bytes(e).len() == 8 + (if e.read_format & 1 != 0 {
            8int
        } else {
            0
        }) + (if e.read_format & 2 != 0 {
            8int
        } else {
            0
        }) + (if e.read_format & 4 != 0 {
            8int
        } else {
            0
        }),
        e.read_format & 4 != 0 ==> count_bytes(e).skip(count_bytes(e).len() - 8) == le64(e.id),
{
    reveal(asked);
    crate::bytes::law_le64_roundtrip(e.count);
    let c = count_bytes(e);
    let n = le64(e.count);
    assert(c[0] == n[0] && c[1] == n[1] && c[2] == n[2] && c[3] == n[3] && c[4] == n[4] && c[5] == n[5]
        && c[6] == n[6] && c[7] == n[7]);
    if e.read_format & 4 != 0 {
        assert(c.skip(c.len() - 8) =~= le64(e.id));
    }
}

/// What requests do to an event: they turn it on or off, start its count over, or give it a period,
/// which is never 0; each changes that alone.
pub proof fn law_event_requests(e: PerfInner, request: usize, arg1: usize, value: Option<u64>)
    ensures
        ({
            let n = after_ioctl(e, request, arg1, value);
            &&& request == 0x2400 || request == 0x2402 ==> n.enabled
            &&& request == 0x2401 ==> !n.enabled
            &&& request != 0x2400 && request != 0x2401 && request != 0x2402 ==> n.enabled == e.enabled
            &&& request == 0x2403 ==> n.count == 0
            &&& request != 0x2403 ==> n.count == e.count
            &&& request == 0x4008_2404 && arg1 != 0 ==> (value matches Some(x) ==> n.period == (if x == 0 {
                1
            } else {
                x
            }))
            &&& request != 0x4008_2404 || arg1 == 0 || value is None ==> n.period == e.period
            &&& n.ring == e.ring && n.data_head == e.data_head && n.lost == e.lost && n.sample_type
                == e.sample_type && n.id == e.id
        }),
        switches_on(request) <==> request == 0x2400 || request == 0x2402,
{
}

/// What requests answer: the event's number where there is a place for it, nothing where there is
/// nothing to tell, and that they are not known.
pub proof fn law_event_answers(e: PerfInner, request: usize, arg1: usize)
    ensures
        request == 0x8008_2407 && arg1 != 0 ==> ioctl_answer(e, request, arg1) == Ok::<Option<u64>, LxError>(
            Some(e.id),
        ),
        request == 0x8008_2407 && arg1 == 0 ==> ioctl_answer(e, request, arg1) == Ok::<Option<u64>, LxError>(
            None,
        ),
        0x2400 <= request <= 0x2403 || request == 0x2405 || request == 0x4008_2404 || request == 0x4008_2406
            ==> ioctl_answer(e, request, arg1) == Ok::<Option<u64>, LxError>(None),
        !(0x2400 <= request <= 0x2403 || request == 0x2405 || request == 0x4008_2404 || request
            == 0x4008_2406 || request == 0x8008_2407) ==> ioctl_answer(e, request, arg1) == Err::<
            Option<u64>,
            LxError,
        >(LxError::ENOTTY),
{
}

/// An event takes the samples of its processor and its process, or of any where it is bound to none; the
/// others leave it as it is.
pub proof fn law_samples_of_bound_events(e: PerfEvent, tail: u64, s: Sample)
    ensures
        (e.cpu < 0 || e.cpu == s.cpu) && (e.pid < 0 || e.pid == s.pid) ==> sampled(e, tail, s).inner
            == after_sample(e.inner, tail, s) && sampled_writes(e, tail, s) == sample_writes(
            e.inner,
            tail,
            s,
        ),
        (e.cpu >= 0 && e.cpu != s.cpu) || (e.pid >= 0 && e.pid != s.pid) ==> sampled(e, tail, s) == e
            && sampled_writes(e, tail, s).len() == 0,
        sampled(e, tail, s).cpu == e.cpu && sampled(e, tail, s).pid == e.pid,
{
}

/// A ring has one page of control and the rest for data; the control page says where the data starts and
/// how long it is.
pub proof fn law_ring_pages(len: int)
    requires
        8192 <= len,
    ensures
        4096 * page_count(len) >= len,
        4096 * page_count(len) < len + 4096,
        page_count(len) >= 2,
        control_page(4096 * (page_count(len) - 1))[3] == (1040int, le64(4096)),
        4096 * (page_count(len) - 1) <= u64::MAX ==> control_page(4096 * (page_count(len) - 1))[4] == (
            1048int,
            le64((4096 * (page_count(len) - 1)) as u64),
        ),
        control_page(4096 * (page_count(len) - 1))[1] == (1024int, le64(0)),
        control_page(4096 * (page_count(len) - 1))[2] == (1032int, le64(0)),
{
}

/// A ring is mapped from its beginning and has a control page and data pages: anything less is
/// refused. The first mapping makes the ring, of whole pages that hold all that was asked for, and
/// every later one gives the same ring back.
pub proof fn law_ring_made_once(
    e: PerfInner,
    offset: usize,
    len: usize,
    r: Result<RingMap, LxError>,
    e2: PerfInner,
)
    requires
        ring_mapped(e, offset, len, r, e2),
        len <= usize::MAX - 4096,
    ensures
        r is Err <==> offset != 0 || len < 2 * 4096,
        r matches Err(x) ==> x == LxError::EINVAL && e2 == e,
        r is Ok && e.ring is Some ==> r->Ok_0 is Existing && e2 == e,
        r is Ok ==> e2.ring is Some,
        r is Ok && e.ring is None ==> {
            &&& r->Ok_0 matches RingMap::Fresh { pages, writes } && 4096 * (pages - 1) < len <= 4096
                * pages && e2.ring == Some((4096 * (pages - 1)) as usize)
            &&& e2 == (PerfInner { ring: e2.ring, ..e })
        },
        forall|l2: usize, r2: Result<RingMap, LxError>, e3: PerfInner|
            r is Ok && l2 >= 8192 && #[trigger] ring_mapped(e2, 0, l2, r2, e3) ==> r2 is Ok
                && r2->Ok_0 is Existing && e3 == e2,
{
}

} // verus!
