//! Recorder of the files that one process opens while it starts.
//!
//! The first open by a process of the wanted name arms the recorder; from then on that process,
//! and no other, is recorded: its opens, and its calls that took long.
use vstd::prelude::*;
use crate::text::{
    decimal_text, push_number, push_str, string_of,
};

verus! {

/// A recorded event, so many microseconds after the recorder was armed.
pub enum Rec {
    /// A file was opened: a descriptor, or a negated error.
    Open { dt_us: u64, result: i32, path: String },
    /// A call took long.
    Slow { dt_us: u64, num: u32, dur_us: u64 },
}

/// A recorded event, mathematically.
#[verifier::ext_equal]
pub enum Event {
    Open { dt_us: u64, result: i32, path: Seq<char> },
    Slow { dt_us: u64, num: u32, dur_us: u64 },
}

impl View for Rec {
    type V = Event;

    open spec fn view(&self) -> Event {
        match self {
            Rec::Open { dt_us, result, path } => Event::Open {
                dt_us: *dt_us,
                result: *result,
                path: path@,
            },
            Rec::Slow { dt_us, num, dur_us } => Event::Slow {
                dt_us: *dt_us,
                num: *num,
                dur_us: *dur_us,
            },
        }
    }
}

/// When an event was.
pub open spec fn event_time(e: Event) -> u64 {
    match e {
        Event::Open { dt_us, .. } => dt_us,
        Event::Slow { dt_us, .. } => dt_us,
    }
}

impl Rec {
    pub fn dt_us(&self) -> (t: u64)
        ensures
            t == event_time(self@),
    {
        match self {
            Rec::Open { dt_us, result: _, path: _ } => *dt_us,
            Rec::Slow { dt_us, num: _, dur_us: _ } => *dt_us,
        }
    }
}

/// A call that takes this long is recorded, in microseconds.
pub const SLOW_SYSCALL_US: u64 = 300_000;

/// How many events are kept.
pub const MAX_RECS: usize = 8192;

/// The recorder.
pub struct BootTrace {
    pub target: Option<String>,
    /// The process that is recorded; 0 until there is one.
    pub armed_pid: u64,
    /// When it was found, in nanoseconds.
    pub t0_ns: u64,
    pub recs: Vec<Rec>,
    /// How many events found no room.
    pub dropped: u64,
}

/// The recorder, mathematically.
#[verifier::ext_equal]
pub struct Trace {
    pub target: Option<Seq<char>>,
    pub armed_pid: u64,
    pub t0_ns: u64,
    pub events: Seq<Event>,
    pub dropped: u64,
}

/// Events by their contents.
pub open spec fn events_of(v: Seq<Rec>) -> Seq<Event> {
    Seq::new(v.len(), |i: int| v[i]@)
}

impl View for BootTrace {
    type V = Trace;

    open spec fn view(&self) -> Trace {
        Trace {
            target: match self.target {
                Some(t) => Some(t@),
                None => None,
            },
            armed_pid: self.armed_pid,
            t0_ns: self.t0_ns,
            events: events_of(self.recs@),
            dropped: self.dropped,
        }
    }
}

/// The trace with one more event, where there is room.
pub open spec fn with_event(t: Trace, e: Event) -> Trace {
    if t.events.len() >= MAX_RECS {
        Trace {
            dropped: if t.dropped == u64::MAX {
                0
            } else {
                (t.dropped + 1) as u64
            },
            ..t
        }
    } else {
        Trace { events: t.events.push(e), ..t }
    }
}

/// Microseconds since the recorder was armed.
pub open spec fn since(t: Trace, now_ns: u64) -> u64 {
    if now_ns >= t.t0_ns {
        ((now_ns - t.t0_ns) / 1000) as u64
    } else {
        0
    }
}

/// The trace armed for a process.
pub open spec fn armed(t: Trace, pid: u64, now_ns: u64) -> Trace {
    Trace { armed_pid: pid, t0_ns: now_ns, ..t }
}

/// The trace after a file was opened.
pub open spec fn after_open(
    t: Trace,
    pid: u64,
    comm: Seq<char>,
    path: Seq<char>,
    result: i32,
    now_ns: u64,
) -> Trace {
    if t.target is None {
        t
    } else if t.armed_pid == 0 {
        if comm == t.target->0 {
            let a = armed(t, pid, now_ns);
            with_event(a, Event::Open { dt_us: since(a, now_ns), result, path })
        } else {
            t
        }
    } else if t.armed_pid == pid {
        with_event(t, Event::Open { dt_us: since(t, now_ns), result, path })
    } else {
        t
    }
}

/// The trace after a call.
pub open spec fn after_call(t: Trace, pid: u64, num: u32, dur_ns: u64, now_ns: u64) -> Trace {
    if t.target is None || dur_ns / 1000 < SLOW_SYSCALL_US || t.armed_pid == 0 || t.armed_pid != pid {
        t
    } else {
        with_event(
            t,
            Event::Slow { dt_us: since(t, now_ns), num, dur_us: (dur_ns / 1000) as u64 },
        )
    }
}

/// Files that were opened, each once, in the order in which they were first.
pub open spec fn opened(events: Seq<Event>) -> Seq<Seq<char>>
    decreases events.len(),
{
    if events.len() == 0 {
        Seq::empty()
    } else {
        let head = opened(events.drop_last());
        match events.last() {
            Event::Open { result, path, .. } => if result >= 0 && !head.contains(path) {
                head.push(path)
            } else {
                head
            },
            _ => head,
        }
    }
}

/// Names by their characters.
pub open spec fn texts_of(v: Seq<String>) -> Seq<Seq<char>> {
    Seq::new(v.len(), |i: int| v[i]@)
}

fn listed(v: &Vec<String>, s: &String) -> (r: bool)
    ensures
        r == texts_of(v@).contains(s@),
{
    for i in 0..v.len()
        invariant
            forall|k: int| 0 <= k < i ==> (#[trigger] v@[k])@ != s@,
    {
        if v[i] == *s {
            assert(texts_of(v@)[i as int] == s@);
            return true;
        }
    }
    proof {
        if texts_of(v@).contains(s@) {
            let k = choose|k: int| 0 <= k < texts_of(v@).len() && texts_of(v@)[k] == s@;
            assert(v@[k]@ == s@);
        }
    }
    false
}

impl BootTrace {
    pub fn new() -> (t: Self)
        ensures
            t@ == (Trace {
                target: None,
                armed_pid: 0,
                t0_ns: 0,
                events: Seq::empty(),
                dropped: 0,
            }),
    {
        let t = BootTrace { target: None, armed_pid: 0, t0_ns: 0, recs: Vec::new(), dropped: 0 };
        assert(events_of(t.recs@) =~= Seq::empty());
        t
    }

    fn elapsed_us(&self, now_ns: u64) -> (us: u64)
        ensures
            us == since(self@, now_ns),
    {
        now_ns.saturating_sub(self.t0_ns) / 1000
    }

    fn push(&mut self, rec: Rec)
        ensures
            final(self)@ == with_event(old(self)@, rec@),
    {
        if self.recs.len() >= MAX_RECS {
            self.dropped = self.dropped.wrapping_add(1);
            return;
        }
        let ghost e = rec@;
        self.recs.push(rec);
        assert(events_of(self.recs@) =~= old(self)@.events.push(e));
    }
}

/// Sets the name of the process to record; only the first call counts.
pub fn set_target(t: &mut BootTrace, target: &str)
    ensures
        final(t)@ == aimed(old(t)@, target@),
{
    if t.target.is_none() {
        t.target = Some(target.to_owned());
    }
}

/// Whether anything is recorded at all.
pub fn enabled(t: &BootTrace) -> (r: bool)
    ensures
        r == (t@.target is Some),
{
    t.target.is_some()
}

/// Whether the name of a process that opens a file matters: only while one is looked for.
pub open spec fn looks_for_name(t: Trace) -> bool {
    t.target is Some && t.armed_pid == 0
}

/// Where the name is not needed, what is recorded does not depend on it.
pub proof fn law_name_unneeded(
    t: Trace,
    pid: u64,
    comm: Seq<char>,
    other: Seq<char>,
    path: Seq<char>,
    result: i32,
    now_ns: u64,
)
    requires
        !looks_for_name(t),
    ensures
        after_open(t, pid, comm, path, result, now_ns) == after_open(
            t,
            pid,
            other,
            path,
            result,
            now_ns,
        ),
{
}

/// Records that a file was opened. `comm` finds out the name of the process, and is only asked while
/// one is looked for; `result` is a descriptor or a negated error.
pub fn record_open<F: FnOnce() -> String>(
    t: &mut BootTrace,
    pid: u64,
    comm: F,
    path: &str,
    result: i32,
    now_ns: u64,
)
    requires
        looks_for_name(old(t)@) ==> comm.requires(()),
    ensures
        looks_for_name(old(t)@) ==> exists|name: String| #[trigger]
            comm.ensures((), name) && final(t)@ == after_open(
                old(t)@,
                pid,
                name@,
                path@,
                result,
                now_ns,
            ),
        !looks_for_name(old(t)@) ==> forall|name: Seq<char>|
            final(t)@ == #[trigger] after_open(old(t)@, pid, name, path@, result, now_ns),
{
    if t.target.is_none() {
        return;
    }
    if t.armed_pid == 0 {
        let name: String = comm();
        assert(comm.ensures((), name));
        let matches: bool = match &t.target {
            None => false,
            Some(target) => name == *target,
        };
        if !matches {
            return;
        }
        t.armed_pid = pid;
        t.t0_ns = now_ns;
    } else if t.armed_pid != pid {
        return;
    }
    let dt_us: u64 = t.elapsed_us(now_ns);
    t.push(Rec::Open { dt_us, result, path: path.to_owned() });
}

/// Records a call that took long.
pub fn record_syscall(t: &mut BootTrace, pid: u64, num: u32, dur_ns: u64, now_ns: u64)
    ensures
        final(t)@ == after_call(old(t)@, pid, num, dur_ns, now_ns),
{
    if !enabled(t) || dur_ns / 1000 < SLOW_SYSCALL_US {
        return;
    }
    if t.armed_pid == 0 || t.armed_pid != pid {
        return;
    }
    let dt_us: u64 = t.elapsed_us(now_ns);
    t.push(Rec::Slow { dt_us, num, dur_us: dur_ns / 1000 });
}

/// The files that were opened, each once, in the order in which they were first.
pub fn preload_list(t: &BootTrace) -> (v: Vec<String>)
    ensures
        texts_of(v@) == opened(t@.events),
{
    let ghost e = t@.events;
    let mut v: Vec<String> = Vec::new();
    assert(e.take(0) =~= Seq::empty());
    assert(texts_of(v@) =~= Seq::empty());
    for i in 0..t.recs.len()
        invariant
            e == events_of(t.recs@),
            texts_of(v@) == opened(e.take(i as int)),
    {
        assert(e.take(i + 1).drop_last() =~= e.take(i as int));
        assert(e[i as int] == t.recs@[i as int]@);
        match &t.recs[i] {
            Rec::Open { dt_us: _, result, path } => {
                if *result >= 0 && !listed(&v, path) {
                    let p: String = path.clone();
                    assert(texts_of(v@.push(p)) =~= texts_of(v@).push(p@));
                    v.push(p);
                }
            },
            Rec::Slow { dt_us: _, num: _, dur_us: _ } => {},
        }
    }
    assert(e.take(e.len() as int) =~= e);
    v
}

/// The times of an event for the report: when it was, how long after the one before, and how
/// long it took.
#[derive(Clone, Copy, PartialEq, Eq, Structural, Debug)]
pub struct RowTimes {
    pub dt_us: u64,
    pub gap_us: u64,
    pub dur_us: u64,
}

/// The times of event `i`.
pub open spec fn times_of(e: Seq<Event>, i: int) -> RowTimes {
    let prev = if i > 0 {
        event_time(e[i - 1])
    } else {
        0u64
    };
    RowTimes {
        dt_us: event_time(e[i]),
        gap_us: if event_time(e[i]) >= prev {
            (event_time(e[i]) - prev) as u64
        } else {
            0
        },
        dur_us: match e[i] {
            Event::Slow { dur_us, .. } => dur_us,
            _ => 0,
        },
    }
}

/// The times of every event.
pub fn row_times(t: &BootTrace) -> (v: Vec<RowTimes>)
    ensures
        v@.len() == t@.events.len(),
        forall|i: int| 0 <= i < v@.len() ==> #[trigger] v@[i] == times_of(t@.events, i),
{
    let ghost e = t@.events;
    let mut v: Vec<RowTimes> = Vec::new();
    let mut prev: u64 = 0;
    for i in 0..t.recs.len()
        invariant
            e == events_of(t.recs@),
            v@.len() == i,
            prev == (if i > 0 {
                event_time(e[i - 1])
            } else {
                0u64
            }),
            forall|k: int| 0 <= k < i ==> #[trigger] v@[k] == times_of(e, k),
    {
        assert(e[i as int] == t.recs@[i as int]@);
        let now: u64 = t.recs[i].dt_us();
        let dur: u64 = match &t.recs[i] {
            Rec::Slow { dt_us: _, num: _, dur_us } => *dur_us,
            Rec::Open { dt_us: _, result: _, path: _ } => 0,
        };
        v.push(RowTimes { dt_us: now, gap_us: now.saturating_sub(prev), dur_us: dur });
        prev = now;
    }
    v
}

/// The printed numbers of an event: its time and gap in milliseconds, and, for a call, its name
/// and how long it took.
pub struct RowText {
    pub time: String,
    pub gap: String,
    pub name: String,
    pub dur: String,
}

/// How many opens succeeded, how many failed, and how many calls took long.
pub open spec fn tally(e: Seq<Event>) -> (nat, nat, nat)
    decreases e.len(),
{
    if e.len() == 0 {
        (0, 0, 0)
    } else {
        let (ok, miss, slow) = tally(e.drop_last());
        match e.last() {
            Event::Open { result, .. } => if result >= 0 {
                (ok + 1, miss, slow)
            } else {
                (ok, miss + 1, slow)
            },
            Event::Slow { .. } => (ok, miss, slow + 1),
        }
    }
}

/// A number below a thousand in three digits.
pub open spec fn three_digits(n: nat) -> Seq<char> {
    seq![
        ((48 + n / 100 % 10) as char),
        ((48 + n / 10 % 10) as char),
        ((48 + n % 10) as char),
    ]
}

/// A number followed by spaces up to three characters.
pub open spec fn left_in_three(n: nat) -> Seq<char> {
    decimal_text(n) + (if n < 10 {
        "  "@
    } else if n < 100 {
        " "@
    } else {
        Seq::empty()
    })
}

/// The times of a line, and the mark of a long gap.
pub open spec fn row_head(t: RowTimes, x: RowText) -> Seq<char> {
    "  "@ + x.time@ + " "@ + x.gap@ + " "@ + (if t.gap_us > 2000 {
        "*"@
    } else {
        " "@
    }) + " "@
}

/// How an open ended.
pub open spec fn open_mark(result: i32) -> Seq<char> {
    if result >= 0 {
        "ok  "@
    } else {
        "e"@ + left_in_three((-(result as int)) as nat)
    }
}

/// What a line tells of: a file and how its opening ended, or a call and how long it took.
pub open spec fn row_body(e: Event, x: RowText) -> Seq<char> {
    match e {
        Event::Open { result, path, .. } => open_mark(result) + " "@ + path,
        Event::Slow { .. } => "SLOW "@ + x.name@ + " took "@ + x.dur@ + "ms"@,
    }
}

/// One line of the report.
pub open spec fn row_line(e: Event, t: RowTimes, x: RowText) -> Seq<char> {
    row_head(t, x) + row_body(e, x) + "\n"@
}

/// The first `n` lines of the report.
pub open spec fn row_lines(e: Seq<Event>, x: Seq<RowText>, n: int) -> Seq<char>
    decreases n,
{
    if n <= 0 {
        Seq::empty()
    } else {
        row_lines(e, x, n - 1) + row_line(e[n - 1], times_of(e, n - 1), x[n - 1])
    }
}

/// Paths, one on a line.
pub open spec fn path_lines(p: Seq<Seq<char>>) -> Seq<char>
    decreases p.len(),
{
    if p.len() == 0 {
        Seq::empty()
    } else {
        path_lines(p.drop_last()) + p.last() + "\n"@
    }
}

/// The report of a recorder that is off.
pub open spec fn off_text() -> Seq<char> {
    "boot-trace: disabled.\nEnable by adding BOOTTRACE=<comm> to the kernel command line (e.g. BOOTTRACE=labwc), reboot, then read /proc/bootprofile after the desktop is up.\n"@
}

/// The report of a recorder that found no process yet.
pub open spec fn hunting_text(target: Seq<char>) -> Seq<char> {
    "eclipse boot-trace — target '"@ + target
        + "': ARMED, no matching process has opened a file yet.\n"@
}

/// The first line of the report.
pub open spec fn title_line(t: Trace) -> Seq<char> {
    "eclipse boot-trace — target '"@ + t.target->0 + "', pid "@ + decimal_text(
        t.armed_pid as nat,
    ) + "\n"@
}

/// When the recording began and how long it went.
pub open spec fn span_text(ms: nat, window: Seq<char>) -> Seq<char> {
    "armed at "@ + decimal_text(ms / 1000) + "."@ + three_digits(ms % 1000) + "s uptime; window "@
        + window + "ms; "@
}

/// How many files were opened, and how many of the opens succeeded and failed.
pub open spec fn opens_text(ok: nat, miss: nat) -> Seq<char> {
    decimal_text(ok + miss) + " opens ("@ + decimal_text(ok) + " ok, "@ + decimal_text(miss)
        + " miss)"@
}

/// How many calls took long, and how many events found no room.
pub open spec fn rest_text(slow: nat, dropped: nat) -> Seq<char> {
    ", "@ + decimal_text(slow) + " slow syscalls (>300ms)"@ + (if dropped > 0 {
        "; "@ + decimal_text(dropped) + " DROPPED (log full at 8192)"@
    } else {
        Seq::empty()
    }) + "\n"@
}

/// The second line of the report.
pub open spec fn summary_line(t: Trace, window: Seq<char>) -> Seq<char> {
    let (ok, miss, slow) = tally(t.events);
    span_text((t.t0_ns / 1_000_000) as nat, window) + opens_text(ok, miss) + rest_text(
        slow,
        t.dropped as nat,
    )
}

/// The lines that explain the table.
pub open spec fn legend_text() -> Seq<char> {
    "a '*' marks a gap > 2ms since the previous event; SLOW lines are single syscalls that themselves took >300ms (the blocking waits inside the gaps with no file activity — first render, icon-theme init, GPU waits):\n\n   time(ms)   d(ms)  res  path / syscall\n"@
}

/// The list of files at the end of the report.
pub open spec fn preload_text(p: Seq<Seq<char>>) -> Seq<char> {
    "\n--- preload list (ok opens, deduped, in access order): "@ + decimal_text(p.len())
        + " files ---\n"@ + path_lines(p)
}

/// The report.
pub open spec fn report(t: Trace, rows: Seq<RowText>, window: Seq<char>) -> Seq<char> {
    if t.target is None {
        off_text()
    } else if t.armed_pid == 0 {
        hunting_text(t.target->0)
    } else {
        title_line(t) + summary_line(t, window) + legend_text() + row_lines(
            t.events,
            rows,
            t.events.len() as int,
        ) + preload_text(opened(t.events))
    }
}

fn push_three_digits(v: &mut Vec<char>, n: u64)
    requires
        n < 1000,
    ensures
        final(v)@ == old(v)@ + three_digits(n as nat),
{
    let a: u8 = 48 + (n / 100 % 10) as u8;
    let b: u8 = 48 + (n / 10 % 10) as u8;
    let c: u8 = 48 + (n % 10) as u8;
    v.push(a as char);
    v.push(b as char);
    v.push(c as char);
    assert(v@ =~= old(v)@ + three_digits(n as nat));
}

fn push_left_in_three(v: &mut Vec<char>, n: u64)
    ensures
        final(v)@ == old(v)@ + left_in_three(n as nat),
{
    push_number(v, n);
    if n < 10 {
        push_str(v, "  ");
    } else if n < 100 {
        push_str(v, " ");
    }
    assert(v@ =~= old(v)@ + left_in_three(n as nat));
}

fn push_row_head(v: &mut Vec<char>, gap_us: u64, x: &RowText, Ghost(t): Ghost<RowTimes>)
    requires
        gap_us == t.gap_us,
    ensures
        final(v)@ == old(v)@ + row_head(t, *x),
{
    push_str(v, "  ");
    push_str(v, x.time.as_str());
    push_str(v, " ");
    push_str(v, x.gap.as_str());
    push_str(v, " ");
    if gap_us > 2000 {
        push_str(v, "*");
    } else {
        push_str(v, " ");
    }
    push_str(v, " ");
    assert(v@ =~= old(v)@ + row_head(t, *x));
}

fn push_open_mark(v: &mut Vec<char>, result: i32)
    requires
        result > i32::MIN,
    ensures
        final(v)@ == old(v)@ + open_mark(result),
{
    if result >= 0 {
        push_str(v, "ok  ");
    } else {
        push_str(v, "e");
        push_left_in_three(v, (-result) as u64);
    }
    assert(v@ =~= old(v)@ + open_mark(result));
}

fn push_slow(v: &mut Vec<char>, x: &RowText)
    ensures
        final(v)@ == old(v)@ + ("SLOW "@ + x.name@ + " took "@ + x.dur@ + "ms"@),
{
    push_str(v, "SLOW ");
    push_str(v, x.name.as_str());
    push_str(v, " took ");
    push_str(v, x.dur.as_str());
    push_str(v, "ms");
    assert(v@ =~= old(v)@ + ("SLOW "@ + x.name@ + " took "@ + x.dur@ + "ms"@));
}

fn push_row_body(v: &mut Vec<char>, r: &Rec, x: &RowText)
    requires
        r@ matches Event::Open { result, .. } ==> result > i32::MIN,
    ensures
        final(v)@ == old(v)@ + row_body(r@, *x),
{
    match r {
        Rec::Open { dt_us: _, result, path } => {
            push_open_mark(v, *result);
            push_str(v, " ");
            push_str(v, path.as_str());
            assert(v@ =~= old(v)@ + (open_mark(*result) + " "@ + path@));
        },
        Rec::Slow { dt_us: _, num: _, dur_us: _ } => {
            push_slow(v, x);
        },
    }
}

fn push_row(v: &mut Vec<char>, r: &Rec, gap_us: u64, x: &RowText, Ghost(t): Ghost<RowTimes>)
    requires
        gap_us == t.gap_us,
        r@ matches Event::Open { result, .. } ==> result > i32::MIN,
    ensures
        final(v)@ == old(v)@ + row_line(r@, t, *x),
{
    push_row_head(v, gap_us, x, Ghost(t));
    push_row_body(v, r, x);
    push_str(v, "\n");
    assert(v@ =~= old(v)@ + row_line(r@, t, *x));
}

fn count_events(t: &BootTrace) -> (r: (u64, u64, u64))
    ensures
        (r.0 as nat, r.1 as nat, r.2 as nat) == tally(t@.events),
        r.0 + r.1 + r.2 == t@.events.len(),
{
    let ghost e = t@.events;
    let mut ok: u64 = 0;
    let mut miss: u64 = 0;
    let mut slow: u64 = 0;
    assert(e.take(0) =~= Seq::empty());
    for i in 0..t.recs.len()
        invariant
            e == events_of(t.recs@),
            (ok as nat, miss as nat, slow as nat) == tally(e.take(i as int)),
            ok + miss + slow == i,
    {
        assert(e.take(i + 1).drop_last() =~= e.take(i as int));
        assert(e[i as int] == t.recs@[i as int]@);
        match &t.recs[i] {
            Rec::Open { dt_us: _, result, path: _ } => {
                if *result >= 0 {
                    ok = ok + 1;
                } else {
                    miss = miss + 1;
                }
            },
            Rec::Slow { dt_us: _, num: _, dur_us: _ } => {
                slow = slow + 1;
            },
        }
    }
    assert(e.take(e.len() as int) =~= e);
    (ok, miss, slow)
}

fn push_span(v: &mut Vec<char>, ms: u64, window: &str)
    ensures
        final(v)@ == old(v)@ + span_text(ms as nat, window@),
{
    push_str(v, "armed at ");
    push_number(v, ms / 1000);
    push_str(v, ".");
    push_three_digits(v, ms % 1000);
    push_str(v, "s uptime; window ");
    push_str(v, window);
    push_str(v, "ms; ");
    assert(v@ =~= old(v)@ + span_text(ms as nat, window@));
}

fn push_opens(v: &mut Vec<char>, ok: u64, miss: u64)
    requires
        ok + miss <= u64::MAX,
    ensures
        final(v)@ == old(v)@ + opens_text(ok as nat, miss as nat),
{
    push_number(v, ok + miss);
    push_str(v, " opens (");
    push_number(v, ok);
    push_str(v, " ok, ");
    push_number(v, miss);
    push_str(v, " miss)");
    assert(v@ =~= old(v)@ + opens_text(ok as nat, miss as nat));
}

fn push_rest(v: &mut Vec<char>, slow: u64, dropped: u64)
    ensures
        final(v)@ == old(v)@ + rest_text(slow as nat, dropped as nat),
{
    push_str(v, ", ");
    push_number(v, slow);
    push_str(v, " slow syscalls (>300ms)");
    if dropped > 0 {
        push_str(v, "; ");
        push_number(v, dropped);
        push_str(v, " DROPPED (log full at 8192)");
    }
    push_str(v, "\n");
    assert(v@ =~= old(v)@ + rest_text(slow as nat, dropped as nat));
}

fn push_summary(v: &mut Vec<char>, t: &BootTrace, window: &str)
    ensures
        final(v)@ == old(v)@ + summary_line(t@, window@),
{
    let n: usize = t.recs.len();
    let (ok, miss, slow) = count_events(t);
    assert(ok + miss <= n);
    push_span(v, t.t0_ns / 1_000_000, window);
    push_opens(v, ok, miss);
    push_rest(v, slow, t.dropped);
    assert(v@ =~= old(v)@ + summary_line(t@, window@));
}

fn push_preload(v: &mut Vec<char>, t: &BootTrace)
    ensures
        final(v)@ == old(v)@ + preload_text(opened(t@.events)),
{
    let list = preload_list(t);
    let ghost p = opened(t@.events);
    push_str(v, "\n--- preload list (ok opens, deduped, in access order): ");
    push_number(v, list.len() as u64);
    push_str(v, " files ---\n");
    let ghost head = v@;
    assert(texts_of(list@).len() == list@.len());
    assert(p.take(0) =~= Seq::empty());
    assert(v@ =~= head + path_lines(p.take(0)));
    for i in 0..list.len()
        invariant
            p == texts_of(list@),
            v@ == head + path_lines(p.take(i as int)),
    {
        assert(p.take(i + 1).drop_last() =~= p.take(i as int));
        assert(p[i as int] == list@[i as int]@);
        push_str(v, list[i].as_str());
        push_str(v, "\n");
        assert(v@ =~= head + path_lines(p.take(i + 1)));
    }
    assert(p.take(p.len() as int) =~= p);
    assert(v@ =~= old(v)@ + preload_text(p));
}

/// Every failed open carries an error that can be negated.
pub open spec fn errors_sane(e: Seq<Event>) -> bool {
    forall|i: int|
        0 <= i < e.len() ==> ((#[trigger] e[i]) matches Event::Open { result, .. } ==> result
            > i32::MIN)
}

/// The report. `rows` and `window` are the printed times: those of the events, and that of the
/// last one.
pub fn render(t: &BootTrace, rows: &[RowText], window: &str) -> (s: String)
    requires
        rows@.len() == t@.events.len(),
        errors_sane(t@.events),
    ensures
        s@ == report(t@, rows@, window@),
{
    let mut v: Vec<char> = Vec::new();
    let target: String = match &t.target {
        None => {
            push_str(
                &mut v,
                "boot-trace: disabled.\nEnable by adding BOOTTRACE=<comm> to the kernel command line (e.g. BOOTTRACE=labwc), reboot, then read /proc/bootprofile after the desktop is up.\n",
            );
            assert(v@ =~= off_text());
            return string_of(v.as_slice());
        },
        Some(x) => x.clone(),
    };
    push_str(&mut v, "eclipse boot-trace — target '");
    push_str(&mut v, target.as_str());
    if t.armed_pid == 0 {
        push_str(&mut v, "': ARMED, no matching process has opened a file yet.\n");
        assert(v@ =~= hunting_text(target@));
        return string_of(v.as_slice());
    }
    push_str(&mut v, "', pid ");
    push_number(&mut v, t.armed_pid);
    push_str(&mut v, "\n");
    assert(v@ =~= title_line(t@));
    push_summary(&mut v, t, window);
    push_str(
        &mut v,
        "a '*' marks a gap > 2ms since the previous event; SLOW lines are single syscalls that themselves took >300ms (the blocking waits inside the gaps with no file activity — first render, icon-theme init, GPU waits):\n\n   time(ms)   d(ms)  res  path / syscall\n",
    );
    let ghost head = v@;
    assert(head == title_line(t@) + summary_line(t@, window@) + legend_text());
    let times = row_times(t);
    let ghost e = t@.events;
    assert(v@ =~= head + row_lines(e, rows@, 0));
    for i in 0..t.recs.len()
        invariant
            e == events_of(t.recs@),
            rows@.len() == e.len(),
            times@.len() == e.len(),
            errors_sane(e),
            forall|k: int| 0 <= k < times@.len() ==> #[trigger] times@[k] == times_of(e, k),
            v@ == head + row_lines(e, rows@, i as int),
    {
        assert(e[i as int] == t.recs@[i as int]@);
        push_row(
            &mut v,
            &t.recs[i],
            times[i].gap_us,
            &rows[i],
            Ghost(times_of(e, i as int)),
        );
        assert(v@ =~= head + row_lines(e, rows@, i + 1));
    }
    push_preload(&mut v, t);
    string_of(v.as_slice())
}

proof fn lemma_tally(e: Seq<Event>)
    ensures
        ({
            let (ok, miss, slow) = tally(e);
            ok + miss + slow == e.len()
        }),
    decreases e.len(),
{
    if e.len() > 0 {
        lemma_tally(e.drop_last());
    }
}

/// The report tells everything that was recorded: it counts the opens that succeeded and failed,
/// every event being one of these or a call that took long; it has one line for each event, in order;
/// and it ends with how many files were opened, and each of them on a line of its own, in the order in
/// which they were first.
pub proof fn law_report_complete(t: Trace, rows: Seq<RowText>, window: Seq<char>, i: int, j: int)
    requires
        t.target is Some,
        t.armed_pid != 0,
        0 <= i < t.events.len(),
        0 <= j < opened(t.events).len(),
    ensures
        ({
            let (ok, miss, slow) = tally(t.events);
            let files = opened(t.events);
            let n = t.events.len() as int;
            &&& ok + miss + slow == n
            &&& report(t, rows, window) == (title_line(t) + span_text(
                (t.t0_ns / 1_000_000) as nat,
                window,
            )) + opens_text(ok, miss) + (rest_text(slow, t.dropped as nat) + legend_text())
                + row_lines(t.events, rows, n) + ("\n--- preload list (ok opens, deduped, in access order): "@
                + decimal_text(files.len()) + " files ---\n"@) + path_lines(files)
            &&& row_lines(t.events, rows, i + 1) == row_lines(t.events, rows, i) + row_line(
                t.events[i],
                times_of(t.events, i),
                rows[i],
            )
            &&& path_lines(files.take(j + 1)) == path_lines(files.take(j)) + files[j] + "\n"@
        }),
{
    lemma_tally(t.events);
    let files = opened(t.events);
    let (ok, miss, slow) = tally(t.events);
    assert(files.take(j + 1).drop_last() =~= files.take(j));
    assert(summary_line(t, window) == span_text((t.t0_ns / 1_000_000) as nat, window) + opens_text(
        ok,
        miss,
    ) + rest_text(slow, t.dropped as nat));
    lemma_regroup(
        title_line(t),
        span_text((t.t0_ns / 1_000_000) as nat, window),
        opens_text(ok, miss),
        rest_text(slow, t.dropped as nat),
        legend_text(),
        row_lines(t.events, rows, t.events.len() as int),
        "\n--- preload list (ok opens, deduped, in access order): "@ + decimal_text(files.len())
            + " files ---\n"@,
        path_lines(files),
    );
}

proof fn lemma_regroup(
    a: Seq<char>,
    b: Seq<char>,
    c: Seq<char>,
    d: Seq<char>,
    e: Seq<char>,
    f: Seq<char>,
    g: Seq<char>,
    h: Seq<char>,
)
    ensures
        a + (b + c + d) + e + f + (g + h) == (a + b) + c + (d + e) + f + g + h,
{
    assert(a + (b + c + d) + e + f + (g + h) =~= (a + b) + c + (d + e) + f + g + h);
}

/// The list of files has no file twice, and exactly those that some open succeeded on.
pub proof fn law_preload_exact(e: Seq<Event>, path: Seq<char>)
    ensures
        opened(e).no_duplicates(),
        opened(e).contains(path) <==> exists|i: int|
            0 <= i < e.len() && opens_ok(#[trigger] e[i], path),
    decreases e.len(),
{
    if e.len() > 0 {
        let head = e.drop_last();
        law_preload_exact(head, path);
        let h = opened(head);
        match e.last() {
            Event::Open { result, path: p, .. } => {
                if result >= 0 && !h.contains(p) {
                    let all = h.push(p);
                    assert(all.no_duplicates()) by {
                        assert forall|a: int, b: int|
                            0 <= a < all.len() && 0 <= b < all.len() && a != b implies all[a]
                            != all[b] by {
                            if a == h.len() {
                                assert(h.contains(h[b]));
                            } else if b == h.len() {
                                assert(h.contains(h[a]));
                            }
                        }
                    }
                    assert(all[h.len() as int] == p);
                    if h.contains(path) {
                        let k = choose|k: int| 0 <= k < h.len() && h[k] == path;
                        assert(all[k] == path);
                    }
                    if all.contains(path) && path != p {
                        let k = choose|k: int| 0 <= k < all.len() && all[k] == path;
                        assert(h[k] == path);
                    }
                }
            },
            _ => {},
        }
        if exists|i: int| 0 <= i < e.len() && opens_ok(#[trigger] e[i], path) {
            let i = choose|i: int| 0 <= i < e.len() && opens_ok(#[trigger] e[i], path);
            if i < head.len() {
                assert(opens_ok(head[i], path));
            }
        }
        if exists|i: int| 0 <= i < head.len() && opens_ok(#[trigger] head[i], path) {
            let i = choose|i: int| 0 <= i < head.len() && opens_ok(#[trigger] head[i], path);
            assert(opens_ok(e[i], path));
        }
        if opened(e).contains(path) && !h.contains(path) {
            assert(opens_ok(e[e.len() - 1], path));
        }
    }
}

/// Whether an event is a successful open of a file.
pub open spec fn opens_ok(e: Event, path: Seq<char>) -> bool {
    e matches Event::Open { result, path: p, .. } && result >= 0 && p == path
}

/// Once a process is armed, no other process leaves a trace.
pub proof fn law_single_process(
    t: Trace,
    pid: u64,
    comm: Seq<char>,
    path: Seq<char>,
    result: i32,
    num: u32,
    dur_ns: u64,
    now_ns: u64,
)
    requires
        t.armed_pid != 0,
        t.armed_pid != pid,
    ensures
        after_open(t, pid, comm, path, result, now_ns) == t,
        after_call(t, pid, num, dur_ns, now_ns) == t,
{
}

/// A recorder without a target records nothing.
pub proof fn law_disabled_records_nothing(
    t: Trace,
    pid: u64,
    comm: Seq<char>,
    path: Seq<char>,
    result: i32,
    num: u32,
    dur_ns: u64,
    now_ns: u64,
)
    requires
        t.target is None,
    ensures
        after_open(t, pid, comm, path, result, now_ns) == t,
        after_call(t, pid, num, dur_ns, now_ns) == t,
{
}

/// The log never grows past its bound, and what does not fit is counted.
pub proof fn law_log_bounded(t: Trace, e: Event)
    requires
        t.events.len() <= MAX_RECS,
        t.dropped < u64::MAX,
    ensures
        with_event(t, e).events.len() <= MAX_RECS,
        with_event(t, e).events.len() + with_event(t, e).dropped == t.events.len() + t.dropped + 1,
{
}

/// A trace with a target, where it had none.
pub open spec fn aimed(t: Trace, target: Seq<char>) -> Trace {
    if t.target is None {
        Trace { target: Some(target), ..t }
    } else {
        t
    }
}

/// The target that is set first stays, and setting it records nothing.
pub proof fn law_first_target_stays(t: Trace, target: Seq<char>, other: Seq<char>)
    ensures
        t.target is None ==> aimed(t, target).target == Some(target),
        aimed(aimed(t, target), other) == aimed(t, target),
        aimed(t, target).events == t.events,
        aimed(t, target).armed_pid == t.armed_pid,
{
}

/// The first process of the target's name to open a file is the one recorded, from that moment on; one
/// of another name starts nothing, nor does any without a target.
pub proof fn law_recording_starts(
    t: Trace,
    pid: u64,
    comm: Seq<char>,
    path: Seq<char>,
    result: i32,
    now_ns: u64,
)
    requires
        t.armed_pid == 0,
        t.events.len() == 0,
    ensures
        t.target != Some(comm) ==> after_open(t, pid, comm, path, result, now_ns) == t,
        t.target == Some(comm) ==> {
            let a = after_open(t, pid, comm, path, result, now_ns);
            &&& a.armed_pid == pid
            &&& a.t0_ns == now_ns
            &&& a.events == seq![Event::Open { dt_us: 0, result, path }]
            &&& a.target == t.target && a.dropped == t.dropped
        },
{
    assert(t.events =~= Seq::empty());
    if t.target == Some(comm) {
        assert(after_open(t, pid, comm, path, result, now_ns).events =~= seq![
            Event::Open { dt_us: 0, result, path },
        ]);
    }
}

/// Once a process is recorded, what it opens is listed with the microseconds since it started, and what
/// any other opens is not.
pub proof fn law_opens_of_one_process(
    t: Trace,
    pid: u64,
    comm: Seq<char>,
    path: Seq<char>,
    result: i32,
    now_ns: u64,
)
    requires
        t.target is Some,
        t.armed_pid != 0,
        t.events.len() < 8192,
        t.t0_ns <= now_ns,
    ensures
        pid != t.armed_pid ==> after_open(t, pid, comm, path, result, now_ns) == t,
        pid == t.armed_pid ==> after_open(t, pid, comm, path, result, now_ns).events == t.events.push(
            Event::Open { dt_us: ((now_ns - t.t0_ns) / 1000) as u64, result, path },
        ),
        after_open(t, pid, comm, path, result, now_ns).armed_pid == t.armed_pid,
        after_open(t, pid, comm, path, result, now_ns).t0_ns == t.t0_ns,
{
}

/// A call of the recorded process is listed where it took 300 milliseconds or more, and no other is.
pub proof fn law_slow_calls_listed(t: Trace, pid: u64, num: u32, dur_ns: u64, now_ns: u64)
    requires
        t.target is Some,
        t.events.len() < 8192,
        t.t0_ns <= now_ns,
    ensures
        t.armed_pid != 0 && pid == t.armed_pid && dur_ns >= 300_000_000 ==> after_call(
            t,
            pid,
            num,
            dur_ns,
            now_ns,
        ).events == t.events.push(
            Event::Slow {
                dt_us: ((now_ns - t.t0_ns) / 1000) as u64,
                num,
                dur_us: (dur_ns / 1000) as u64,
            },
        ),
        t.armed_pid == 0 || pid != t.armed_pid || dur_ns < 300_000_000 ==> after_call(
            t,
            pid,
            num,
            dur_ns,
            now_ns,
        ) == t,
{
}

/// The log holds 8192 events; what comes after is counted and not kept.
pub proof fn law_events_past_the_bound(t: Trace, e: Event)
    ensures
        t.events.len() < 8192 ==> with_event(t, e).events == t.events.push(e) && with_event(t, e).dropped
            == t.dropped,
        t.events.len() >= 8192 ==> with_event(t, e).events == t.events,
        t.events.len() >= 8192 && t.dropped < u64::MAX ==> with_event(t, e).dropped == t.dropped + 1,
{
}

/// The files to load ahead: each that was opened, once, in the order of its first opening; one that
/// could not be opened is not among them.
pub proof fn law_preload_once(events: Seq<Event>, e: Event)
    ensures
        e is Slow ==> opened(events.push(e)) == opened(events),
        e matches Event::Open { result, path, .. } ==> (result < 0 || opened(events).contains(path)
            ==> opened(events.push(e)) == opened(events)),
        e matches Event::Open { result, path, .. } ==> (result >= 0 && !opened(events).contains(path)
            ==> opened(events.push(e)) == opened(events).push(path)),
        opened(Seq::empty()).len() == 0,
{
    assert(events.push(e).drop_last() =~= events);
}

/// Opens are counted as found or missed, and slow calls apart.
pub proof fn law_events_counted(events: Seq<Event>, e: Event)
    ensures
        e is Slow ==> tally(events.push(e)) == (tally(events).0, tally(events).1, tally(events).2 + 1),
        e matches Event::Open { result, .. } ==> (result >= 0 ==> tally(events.push(e)) == (
            tally(events).0 + 1,
            tally(events).1,
            tally(events).2,
        )),
        e matches Event::Open { result, .. } ==> (result < 0 ==> tally(events.push(e)) == (
            tally(events).0,
            tally(events).1 + 1,
            tally(events).2,
        )),
        tally(Seq::empty()) == (0nat, 0nat, 0nat),
{
    assert(events.push(e).drop_last() =~= events);
}

/// The gap before an event is the time since the one before it, or since the start.
pub proof fn law_gaps(e: Seq<Event>, i: int)
    requires
        0 <= i < e.len(),
    ensures
        times_of(e, i).dt_us == event_time(e[i]),
        i == 0 ==> times_of(e, i).gap_us == event_time(e[i]),
        i > 0 && event_time(e[i]) >= event_time(e[i - 1]) ==> event_time(e[i - 1]) + times_of(e, i).gap_us
            == event_time(e[i]),
        i > 0 && event_time(e[i]) < event_time(e[i - 1]) ==> times_of(e, i).gap_us == 0,
        e[i] matches Event::Slow { dur_us, .. } ==> times_of(e, i).dur_us == dur_us,
        e[i] is Open ==> times_of(e, i).dur_us == 0,
{
}

/// A row is starred where its gap is over two milliseconds.
pub proof fn law_long_gaps_starred(t: RowTimes, x: RowText)
    ensures
        row_head(t, x)[row_head(t, x).len() - 2] == (if t.gap_us > 2000 {
            '*'
        } else {
            ' '
        }),
{
    reveal_strlit("*");
    reveal_strlit(" ");
    reveal_strlit("  ");
}

/// Three digits are those of the number, the highest first.
pub proof fn law_three_digits(n: nat)
    requires
        n < 1000,
    ensures
        three_digits(n).len() == 3,
        100 * (three_digits(n)[0] as int - 48) + 10 * (three_digits(n)[1] as int - 48) + (three_digits(
            n,
        )[2] as int - 48) == n,
        forall|i: int| 0 <= i < 3 ==> '0' <= #[trigger] three_digits(n)[i] <= '9',
{
}

/// An error is shown by its number, in three places.
pub proof fn law_error_shown(result: i32)
    requires
        result > i32::MIN,
    ensures
        result >= 0 ==> open_mark(result) == "ok  "@,
        result < 0 ==> open_mark(result).len() >= 4 && open_mark(result)[0] == 'e',
        result < 0 && result > -1000 ==> open_mark(result).len() == 4,
{
    reveal_strlit("e");
    reveal_strlit(" ");
    reveal_strlit("  ");
    if result < 0 {
        let n = (-(result as int)) as nat;
        reveal_with_fuel(decimal_text, 4);
        assert(n > 0);
        if n >= 100 {
            assert(decimal_text(n).len() >= 3) by {
                assert(n / 10 >= 10);
                assert(n / 10 / 10 >= 1);
            }
        }
        if n < 10 {
            assert(decimal_text(n).len() == 1);
        } else if n < 100 {
            assert(decimal_text(n).len() == 2);
        }
    }
}

/// The name of a process is looked at while there is a target and no process was chosen yet, and only
/// then.
pub proof fn law_name_looked_at(t: Trace)
    ensures
        t.target is None ==> !looks_for_name(t),
        t.armed_pid != 0 ==> !looks_for_name(t),
        t.target is Some && t.armed_pid == 0 ==> looks_for_name(t),
{
}

} // verus!
