//! POSIX advisory record locks: `fcntl(2)` with `F_GETLK`, `F_SETLK` and `F_SETLKW`.
//!
//! The table is keyed by a file's `(dev, inode)` identity and holds byte ranges per owning
//! process. A lock disappears when its owner dies: every visit of a file's locks drops those
//! whose owner is no longer among the live processes.
use vstd::prelude::*;

verus! {

/// Shared (read) lock.
pub const F_RDLCK: i16 = 0;

/// Exclusive (write) lock.
pub const F_WRLCK: i16 = 1;

/// Unlock.
pub const F_UNLCK: i16 = 2;

/// A file's identity in the lock table: `(st_dev, st_ino)`.
pub type FileKey = (usize, usize);

/// One held lock on the bytes `[start, end)`; an `end` of `u64::MAX` means "to the end of the
/// file and beyond".
#[derive(Clone, Copy, PartialEq, Eq, Structural, Debug)]
pub struct Held {
    pub exclusive: bool,
    pub start: u64,
    pub end: u64,
    pub owner: u64,
}

/// A lock request or probe on absolute bytes.
#[derive(Clone, Copy, PartialEq, Eq, Structural, Debug)]
pub struct LockRequest {
    pub exclusive: bool,
    pub start: u64,
    pub end: u64,
    pub owner: u64,
}

/// What `F_GETLK` reports about a conflicting lock.
#[derive(Clone, Copy, PartialEq, Eq, Structural, Debug)]
pub struct ConflictInfo {
    /// `F_RDLCK` or `F_WRLCK`.
    pub type_: i16,
    pub start: u64,
    /// `l_len` encoding: 0 for unbounded, else the byte count.
    pub len: u64,
    pub pid: u64,
}

/// The locks of all files.
#[verifier::external_body]
pub struct LockTable {
    map: hashbrown::HashMap<FileKey, Vec<Held>>,
}

/// What a lock table holds: the locks of each file, in the order in which they were taken.
pub uninterp spec fn locks_of(t: LockTable) -> Map<FileKey, Seq<Held>>;

impl LockTable {
    /// `hashbrown::HashMap::new`: a table without entries.
    #[verifier::external_body]
    fn empty() -> (t: LockTable)
        ensures
            locks_of(t).dom() == Set::<FileKey>::empty(),
    {
        LockTable { map: hashbrown::HashMap::new() }
    }

    /// A table without locks.
    pub fn new() -> (t: LockTable)
        ensures
            locks_of(t).dom() == Set::<FileKey>::empty(),
    {
        Self::empty()
    }

    /// `hashbrown::HashMap::get_mut`: the locks of a file that has an entry, to be changed in
    /// place; nothing where it has none.
    #[verifier::external_body]
    fn get_mut(&mut self, key: FileKey) -> (r: Option<&mut Vec<Held>>)
        ensures
            r is Some == locks_of(*old(self)).contains_key(key),
            r matches Some(v) ==> v@ == locks_of(*old(self))[key] && locks_of(*final(self))
                == locks_of(*old(self)).insert(key, final(v)@),
            r is None ==> locks_of(*final(self)) == locks_of(*old(self)),
    {
        self.map.get_mut(&key)
    }

    /// `hashbrown::HashMap::entry` with `or_default`: the locks of a file, to be changed in
    /// place; an empty entry is made for a file that has none.
    #[verifier::external_body]
    fn entry_or_default(&mut self, key: FileKey) -> (v: &mut Vec<Held>)
        ensures
            v@ == if locks_of(*old(self)).contains_key(key) {
                locks_of(*old(self))[key]
            } else {
                Seq::empty()
            },
            locks_of(*final(self)) == locks_of(*old(self)).insert(key, final(v)@),
    {
        self.map.entry(key).or_default()
    }

    /// `hashbrown::HashMap::remove`: drops a file's entry.
    #[verifier::external_body]
    fn remove(&mut self, key: FileKey)
        ensures
            locks_of(*final(self)) == locks_of(*old(self)).remove(key),
    {
        self.map.remove(&key);
    }
}

/// Whether two byte ranges share a byte.
pub open spec fn overlapping(a_start: u64, a_end: u64, b_start: u64, b_end: u64) -> bool {
    a_start < b_end && b_start < a_end
}

pub fn ranges_overlap(a_start: u64, a_end: u64, b_start: u64, b_end: u64) -> (b: bool)
    ensures
        b == overlapping(a_start, a_end, b_start, b_end),
{
    a_start < b_end && b_start < a_end
}

/// Locks of different owners conflict where their ranges overlap and one of them is exclusive.
pub open spec fn conflicting(held: Held, req: LockRequest) -> bool {
    &&& held.owner != req.owner
    &&& held.exclusive || req.exclusive
    &&& overlapping(held.start, held.end, req.start, req.end)
}

pub fn conflicts(held: &Held, req: &LockRequest) -> (b: bool)
    ensures
        b == conflicting(*held, *req),
{
    held.owner != req.owner && (held.exclusive || req.exclusive) && ranges_overlap(
        held.start,
        held.end,
        req.start,
        req.end,
    )
}

/// What is left of a lock when `[start, end)` is cut out of it.
pub open spec fn pieces(held: Held, start: u64, end: u64) -> Seq<Held> {
    if !overlapping(held.start, held.end, start, end) {
        seq![held]
    } else {
        let low = Held { end: start, ..held };
        let high = Held { start: end, ..held };
        if held.start < start && held.end > end {
            seq![low, high]
        } else if held.start < start {
            seq![low]
        } else if held.end > end {
            seq![high]
        } else {
            Seq::empty()
        }
    }
}

/// Removes `[start, end)` from a held range: the surviving pieces, in order.
pub fn subtract(held: &Held, start: u64, end: u64) -> (out: Vec<Held>)
    ensures
        out@ == pieces(*held, start, end),
{
    let mut out: Vec<Held> = Vec::new();
    if !ranges_overlap(held.start, held.end, start, end) {
        out.push(*held);
        assert(out@ =~= pieces(*held, start, end));
        return out;
    }
    if held.start < start {
        out.push(Held { exclusive: held.exclusive, start: held.start, end: start, owner: held.owner });
    }
    if held.end > end {
        out.push(Held { exclusive: held.exclusive, start: end, end: held.end, owner: held.owner });
    }
    assert(out@ =~= pieces(*held, start, end));
    out
}

/// The locks whose owner is alive.
pub open spec fn surviving(locks: Seq<Held>, alive: Seq<u64>) -> Seq<Held>
    decreases locks.len(),
{
    if locks.len() == 0 {
        Seq::empty()
    } else {
        let rest = surviving(locks.drop_last(), alive);
        if alive.contains(locks.last().owner) {
            rest.push(locks.last())
        } else {
            rest
        }
    }
}

fn owner_alive(owner: u64, alive: &[u64]) -> (b: bool)
    ensures
        b == alive@.contains(owner),
{
    let mut i: usize = 0;
    while i < alive.len()
        invariant
            i <= alive@.len(),
            forall|k: int| 0 <= k < i ==> #[trigger] alive@[k] != owner,
        decreases alive@.len() - i,
    {
        if alive[i] == owner {
            assert(alive@[i as int] == owner);
            return true;
        }
        i = i + 1;
    }
    false
}

/// Drops every lock whose owner is not among the live processes.
pub fn prune_dead(locks: &mut Vec<Held>, alive: &[u64])
    ensures
        final(locks)@ == surviving(old(locks)@, alive@),
{
    let mut kept: Vec<Held> = Vec::new();
    let mut i: usize = 0;
    let ghost all = locks@;
    while i < locks.len()
        invariant
            i <= locks@.len(),
            locks@ == all,
            kept@ == surviving(all.subrange(0, i as int), alive@),
        decreases locks@.len() - i,
    {
        let h = locks[i];
        assert(all.subrange(0, i + 1).drop_last() =~= all.subrange(0, i as int));
        if owner_alive(h.owner, alive) {
            kept.push(h);
        }
        i = i + 1;
    }
    assert(all.subrange(0, i as int) =~= all);
    *locks = kept;
}

/// The index of the first lock that conflicts with a request.
pub open spec fn first_conflict(locks: Seq<Held>, req: LockRequest, i: int) -> bool {
    &&& 0 <= i < locks.len()
    &&& conflicting(locks[i], req)
    &&& forall|k: int| 0 <= k < i ==> !conflicting(#[trigger] locks[k], req)
}

/// Whether no lock stands in the way of a request.
pub open spec fn unobstructed(locks: Seq<Held>, req: LockRequest) -> bool {
    forall|k: int| 0 <= k < locks.len() ==> !conflicting(#[trigger] locks[k], req)
}

/// What is reported about a lock.
pub open spec fn report(held: Held) -> ConflictInfo {
    ConflictInfo {
        type_: if held.exclusive { F_WRLCK } else { F_RDLCK },
        start: held.start,
        len: if held.end == u64::MAX { 0 } else { held.end.wrapping_sub(held.start) },
        pid: held.owner,
    }
}

fn find_conflict(locks: &Vec<Held>, req: &LockRequest) -> (r: Option<usize>)
    ensures
        r matches Some(i) ==> first_conflict(locks@, *req, i as int),
        r is None <==> unobstructed(locks@, *req),
{
    let mut i: usize = 0;
    while i < locks.len()
        invariant
            i <= locks@.len(),
            forall|k: int| 0 <= k < i ==> !conflicting(#[trigger] locks@[k], *req),
        decreases locks@.len() - i,
    {
        if conflicts(&locks[i], req) {
            return Some(i);
        }
        i = i + 1;
    }
    None
}

/// The live locks of a file.
pub open spec fn live_locks(t: LockTable, key: FileKey, alive: Seq<u64>) -> Seq<Held> {
    if locks_of(t).contains_key(key) {
        surviving(locks_of(t)[key], alive)
    } else {
        Seq::empty()
    }
}

/// `F_GETLK`: describes the first lock in the way of `req`, or nothing where the request would
/// succeed. `alive` lists the live processes.
pub fn getlk(table: &mut LockTable, key: FileKey, req: &LockRequest, alive: &[u64]) -> (r: Option<
    ConflictInfo,
>)
    ensures
        r is None <==> unobstructed(live_locks(*old(table), key, alive@), *req),
        r matches Some(c) ==> exists|i: int| #[trigger]
            first_conflict(live_locks(*old(table), key, alive@), *req, i) && c == report(
                live_locks(*old(table), key, alive@)[i],
            ),
        locks_of(*final(table)) == if locks_of(*old(table)).contains_key(key) {
            locks_of(*old(table)).insert(key, live_locks(*old(table), key, alive@))
        } else {
            locks_of(*old(table))
        },
{
    match table.get_mut(key) {
        None => None,
        Some(locks) => {
            prune_dead(locks, alive);
            match find_conflict(locks, req) {
                None => None,
                Some(i) => {
                    let held = locks[i];
                    let len: u64 = if held.end == u64::MAX {
                        0
                    } else {
                        held.end.wrapping_sub(held.start)
                    };
                    Some(
                        ConflictInfo {
                            type_: if held.exclusive { F_WRLCK } else { F_RDLCK },
                            start: held.start,
                            len,
                            pid: held.owner,
                        },
                    )
                },
            }
        },
    }
}

/// A file's locks with `[req.start, req.end)` cut out of those of the request's owner.
pub open spec fn carved(locks: Seq<Held>, req: LockRequest) -> Seq<Held>
    decreases locks.len(),
{
    if locks.len() == 0 {
        Seq::empty()
    } else {
        let last = locks.last();
        carved(locks.drop_last(), req) + if last.owner == req.owner {
            pieces(last, req.start, req.end)
        } else {
            seq![last]
        }
    }
}

/// The lock that a granted request becomes.
pub open spec fn granted(req: LockRequest) -> Held {
    Held { exclusive: req.exclusive, start: req.start, end: req.end, owner: req.owner }
}

/// A file's locks after a granted request or an unlock.
pub open spec fn next_locks(locks: Seq<Held>, req: LockRequest, unlock: bool) -> Seq<Held> {
    if unlock {
        carved(locks, req)
    } else {
        carved(locks, req).push(granted(req))
    }
}

/// `F_SETLK`, one attempt: acquires, converts or releases the request's range. `false` on a
/// conflict. An acquisition first carves the owner's locks out of the range, an unlock only
/// carves.
pub fn setlk(
    table: &mut LockTable,
    key: FileKey,
    req: &LockRequest,
    unlock: bool,
    alive: &[u64],
) -> (ok: bool)
    ensures
        ok == (unlock || unobstructed(live_locks(*old(table), key, alive@), *req)),
        ({
            let live = live_locks(*old(table), key, alive@);
            let next = next_locks(live, *req, unlock);
            locks_of(*final(table)) == locks_set(locks_of(*old(table)), key, live, next, ok)
        }),
{
    let ghost live = live_locks(*table, key, alive@);
    let ghost before = locks_of(*table);
    let locks = table.entry_or_default(key);
    prune_dead(locks, alive);
    assert(locks@ =~= live);
    if !unlock && find_conflict(locks, req).is_some() {
        return false;
    }
    let mut next: Vec<Held> = Vec::new();
    let mut i: usize = 0;
    while i < locks.len()
        invariant
            i <= locks@.len(),
            locks@ == live,
            next@ == carved(live.subrange(0, i as int), *req),
        decreases locks@.len() - i,
    {
        let held = locks[i];
        assert(live.subrange(0, i + 1).drop_last() =~= live.subrange(0, i as int));
        if held.owner == req.owner {
            let mut parts = subtract(&held, req.start, req.end);
            next.append(&mut parts);
        } else {
            next.push(held);
            assert(next@ =~= carved(live.subrange(0, i as int), *req) + seq![held]);
        }
        i = i + 1;
    }
    assert(live.subrange(0, i as int) =~= live);
    if !unlock {
        next.push(
            Held { exclusive: req.exclusive, start: req.start, end: req.end, owner: req.owner },
        );
    }
    assert(next@ == next_locks(live, *req, unlock));
    if next.len() == 0 {
        table.remove(key);
        assert(locks_of(*table) =~= before.remove(key));
    } else {
        *locks = next;
        assert(locks_of(*table) =~= before.insert(key, next_locks(live, *req, unlock)));
    }
    true
}

/// `owner` holds a lock of the given kind on byte `b`.
pub open spec fn locked(locks: Seq<Held>, owner: u64, b: u64, exclusive: bool) -> bool {
    exists|i: int|
        0 <= i < locks.len() && (#[trigger] locks[i]).owner == owner && locks[i].exclusive
            == exclusive && locks[i].start <= b < locks[i].end
}

/// Two locks can be held at the same time.
pub open spec fn compatible(a: Held, b: Held) -> bool {
    a.owner == b.owner || (!a.exclusive && !b.exclusive) || !overlapping(
        a.start,
        a.end,
        b.start,
        b.end,
    )
}

/// No two locks of different owners conflict.
pub open spec fn no_conflicts(locks: Seq<Held>) -> bool {
    forall|i: int, j: int|
        0 <= i < locks.len() && 0 <= j < locks.len() ==> compatible(
            #[trigger] locks[i],
            #[trigger] locks[j],
        )
}

/// Cutting a range out of a lock leaves exactly the bytes outside the range, under the same
/// owner and kind.
pub proof fn law_subtract_exact(held: Held, start: u64, end: u64, b: u64, exclusive: bool)
    requires
        start <= end,
    ensures
        locked(pieces(held, start, end), held.owner, b, exclusive) <==> held.start <= b < held.end
            && held.exclusive == exclusive && !(start <= b < end),
        forall|i: int|
            0 <= i < pieces(held, start, end).len() ==> (#[trigger] pieces(held, start, end)[i]).owner
                == held.owner && pieces(held, start, end)[i].exclusive == held.exclusive
                && held.start <= pieces(held, start, end)[i].start && pieces(
                held,
                start,
                end,
            )[i].end <= held.end,
{
    let p = pieces(held, start, end);
    if held.start <= b < held.end && !(start <= b < end) && held.exclusive == exclusive {
        if !overlapping(held.start, held.end, start, end) || b < start {
            assert(p[0].start <= b < p[0].end);
        } else {
            assert(p[p.len() - 1].start <= b < p[p.len() - 1].end);
        }
    }
}

proof fn lemma_locked_concat(x: Seq<Held>, y: Seq<Held>, owner: u64, b: u64, exclusive: bool)
    ensures
        locked(x + y, owner, b, exclusive) <==> locked(x, owner, b, exclusive) || locked(
            y,
            owner,
            b,
            exclusive,
        ),
{
    let z = x + y;
    if locked(x, owner, b, exclusive) {
        let i = choose|i: int|
            0 <= i < x.len() && (#[trigger] x[i]).owner == owner && x[i].exclusive == exclusive
                && x[i].start <= b < x[i].end;
        assert(z[i] == x[i]);
    }
    if locked(y, owner, b, exclusive) {
        let i = choose|i: int|
            0 <= i < y.len() && (#[trigger] y[i]).owner == owner && y[i].exclusive == exclusive
                && y[i].start <= b < y[i].end;
        assert(z[x.len() + i] == y[i]);
    }
    if locked(z, owner, b, exclusive) {
        let i = choose|i: int|
            0 <= i < z.len() && (#[trigger] z[i]).owner == owner && z[i].exclusive == exclusive
                && z[i].start <= b < z[i].end;
        if i < x.len() {
            assert(x[i] == z[i]);
        } else {
            assert(y[i - x.len()] == z[i]);
        }
    }
}

proof fn lemma_carved_locked(
    locks: Seq<Held>,
    req: LockRequest,
    owner: u64,
    b: u64,
    exclusive: bool,
)
    requires
        req.start <= req.end,
    ensures
        locked(carved(locks, req), owner, b, exclusive) <==> locked(locks, owner, b, exclusive) && !(
        owner == req.owner && req.start <= b < req.end),
    decreases locks.len(),
{
    if locks.len() > 0 {
        let last = locks.last();
        let tail = if last.owner == req.owner {
            pieces(last, req.start, req.end)
        } else {
            seq![last]
        };
        lemma_carved_locked(locks.drop_last(), req, owner, b, exclusive);
        lemma_locked_concat(carved(locks.drop_last(), req), tail, owner, b, exclusive);
        lemma_locked_concat(locks.drop_last(), seq![last], owner, b, exclusive);
        assert(locks.drop_last() + seq![last] =~= locks);
        law_subtract_exact(last, req.start, req.end, b, exclusive);
        if last.owner == owner && last.exclusive == exclusive && last.start <= b < last.end {
            assert(seq![last][0] == last);
            assert(locked(seq![last], owner, b, exclusive));
        }
        if last.owner == req.owner && owner != req.owner {
            assert(!locked(tail, owner, b, exclusive));
        }
    }
}

/// What a granted request or an unlock does, byte by byte: inside the range the owner holds
/// exactly the requested lock (nothing after an unlock); outside it, and for every other owner,
/// nothing changes.
pub proof fn law_setlk_bytes(
    locks: Seq<Held>,
    req: LockRequest,
    unlock: bool,
    owner: u64,
    b: u64,
    exclusive: bool,
)
    requires
        req.start <= req.end,
    ensures
        locked(next_locks(locks, req, unlock), owner, b, exclusive) <==> if owner == req.owner
            && req.start <= b < req.end {
            !unlock && exclusive == req.exclusive
        } else {
            locked(locks, owner, b, exclusive)
        },
{
    lemma_carved_locked(locks, req, owner, b, exclusive);
    let c = carved(locks, req);
    if !unlock {
        let g = granted(req);
        lemma_locked_concat(c, seq![g], owner, b, exclusive);
        assert(c.push(g) =~= c + seq![g]);
        if owner == req.owner && req.start <= b < req.end && exclusive == req.exclusive {
            assert(seq![g][0] == g);
            assert(locked(seq![g], owner, b, exclusive));
        }
    }
}

/// `h` is a part of one of the locks.
spec fn part_of(h: Held, locks: Seq<Held>, i: int) -> bool {
    0 <= i < locks.len() && locks[i].owner == h.owner && locks[i].exclusive == h.exclusive
        && locks[i].start <= h.start && h.end <= locks[i].end
}

proof fn lemma_carved_parts(locks: Seq<Held>, req: LockRequest, k: int)
    requires
        req.start <= req.end,
        0 <= k < carved(locks, req).len(),
    ensures
        exists|i: int| #[trigger] part_of(carved(locks, req)[k], locks, i),
    decreases locks.len(),
{
    let last = locks.last();
    let front = carved(locks.drop_last(), req);
    let h = carved(locks, req)[k];
    if k < front.len() {
        lemma_carved_parts(locks.drop_last(), req, k);
        let i = choose|i: int| #[trigger] part_of(front[k], locks.drop_last(), i);
        assert(part_of(h, locks, i));
    } else {
        law_subtract_exact(last, req.start, req.end, 0, true);
        assert(part_of(h, locks, locks.len() - 1));
    }
}

/// Granting an unobstructed request, or releasing a range, never creates a conflict between two
/// owners.
pub proof fn law_setlk_keeps_no_conflicts(locks: Seq<Held>, req: LockRequest, unlock: bool)
    requires
        req.start <= req.end,
        no_conflicts(locks),
        unlock || unobstructed(locks, req),
    ensures
        no_conflicts(next_locks(locks, req, unlock)),
{
    let c = carved(locks, req);
    let n = next_locks(locks, req, unlock);
    assert forall|x: int, y: int| 0 <= x < n.len() && 0 <= y < n.len() implies compatible(
        #[trigger] n[x],
        #[trigger] n[y],
    ) by {
        if x < c.len() {
            lemma_carved_parts(locks, req, x);
        }
        if y < c.len() {
            lemma_carved_parts(locks, req, y);
        }
        let i = choose|i: int| #[trigger] part_of(c[x], locks, i);
        let j = choose|j: int| #[trigger] part_of(c[y], locks, j);
        if x < c.len() && y < c.len() {
            assert(compatible(locks[i], locks[j]));
        } else if x < c.len() {
            assert(!conflicting(locks[i], req));
        } else if y < c.len() {
            assert(!conflicting(locks[j], req));
        }
    }
}

proof fn lemma_surviving_parts(locks: Seq<Held>, alive: Seq<u64>, k: int)
    requires
        0 <= k < surviving(locks, alive).len(),
    ensures
        exists|i: int| 0 <= i < locks.len() && #[trigger] locks[i] == surviving(locks, alive)[k],
        alive.contains(surviving(locks, alive)[k].owner),
    decreases locks.len(),
{
    let rest = surviving(locks.drop_last(), alive);
    if k < rest.len() {
        lemma_surviving_parts(locks.drop_last(), alive, k);
        let i = choose|i: int| 0 <= i < locks.drop_last().len() && #[trigger] locks.drop_last()[i]
            == rest[k];
        assert(locks[i] == rest[k]);
    } else {
        assert(locks[locks.len() - 1] == locks.last());
    }
}

/// Dropping the locks of dead owners keeps the table free of conflicts and leaves only locks of
/// live owners.
pub proof fn law_prune_keeps_no_conflicts(locks: Seq<Held>, alive: Seq<u64>)
    requires
        no_conflicts(locks),
    ensures
        no_conflicts(surviving(locks, alive)),
        forall|k: int|
            0 <= k < surviving(locks, alive).len() ==> alive.contains(
                (#[trigger] surviving(locks, alive)[k]).owner,
            ),
{
    let s = surviving(locks, alive);
    assert forall|x: int, y: int| 0 <= x < s.len() && 0 <= y < s.len() implies compatible(
        #[trigger] s[x],
        #[trigger] s[y],
    ) by {
        lemma_surviving_parts(locks, alive, x);
        lemma_surviving_parts(locks, alive, y);
    }
    assert forall|k: int| 0 <= k < s.len() implies alive.contains((#[trigger] s[k]).owner) by {
        lemma_surviving_parts(locks, alive, k);
    }
}

/// The locks of all files after a request on one: none of the file is listed where none is left.
pub open spec fn locks_set(
    m: Map<FileKey, Seq<Held>>,
    key: FileKey,
    live: Seq<Held>,
    next: Seq<Held>,
    ok: bool,
) -> Map<FileKey, Seq<Held>> {
    if !ok {
        m.insert(key, live)
    } else if next.len() == 0 {
        m.remove(key)
    } else {
        m.insert(key, next)
    }
}

/// A request on a file leaves the locks of every other file as they are. One that is refused leaves the
/// file's own as they are, and one that is granted leaves exactly those that it comes to.
pub proof fn law_other_files_untouched(
    m: Map<FileKey, Seq<Held>>,
    key: FileKey,
    live: Seq<Held>,
    next: Seq<Held>,
    ok: bool,
    other: FileKey,
)
    ensures
        other != key ==> locks_set(m, key, live, next, ok).contains_key(other) == m.contains_key(other),
        other != key && m.contains_key(other) ==> locks_set(m, key, live, next, ok)[other] == m[other],
        !ok ==> locks_set(m, key, live, next, ok).contains_key(key) && locks_set(
            m,
            key,
            live,
            next,
            ok,
        )[key] == live,
        ok ==> (locks_set(m, key, live, next, ok).contains_key(key) <==> next.len() > 0),
        ok && next.len() > 0 ==> locks_set(m, key, live, next, ok)[key] == next,
{
}

/// A held lock stands in the way of a request exactly where another owns it, one of the two is
/// exclusive, and some byte is in both: any byte that is, and at the least the first byte of the one
/// that starts later.
pub proof fn law_conflict_over_a_byte(held: Held, req: LockRequest, b: u64)
    requires
        held.start < held.end,
        req.start < req.end,
    ensures
        held.owner != req.owner && (held.exclusive || req.exclusive) && held.start <= b < held.end
            && req.start <= b < req.end ==> conflicting(held, req),
        conflicting(held, req) ==> held.owner != req.owner && (held.exclusive || req.exclusive) && {
            let first = if held.start < req.start {
                req.start
            } else {
                held.start
            };
            first < held.end && first < req.end
        },
{
}

/// What is told of a lock in the way: its kind, where it starts, who owns it, and how long it is, with 0
/// for one that has no end.
pub proof fn law_conflict_told(held: Held)
    requires
        held.start <= held.end,
    ensures
        report(held).type_ == (if held.exclusive {
            1int
        } else {
            0
        }),
        report(held).start == held.start,
        report(held).pid == held.owner,
        held.end == u64::MAX ==> report(held).len == 0,
        held.end < u64::MAX ==> report(held).start + report(held).len == held.end,
{
}

/// The locks of owners that are gone go, one by one, and the others stay in their order.
pub proof fn law_dead_owners_dropped(locks: Seq<Held>, held: Held, alive: Seq<u64>)
    ensures
        alive.contains(held.owner) ==> surviving(locks.push(held), alive) == surviving(
            locks,
            alive,
        ).push(held),
        !alive.contains(held.owner) ==> surviving(locks.push(held), alive) == surviving(locks, alive),
        surviving(Seq::empty(), alive).len() == 0,
{
    assert(locks.push(held).drop_last() =~= locks);
}

/// The locks that count on a file are those of owners that are alive, in the order in which they were
/// taken; a file without locks has none. The conflict that is told is the oldest one, and there is
/// one exactly where the request is obstructed.
pub proof fn law_oldest_conflict(
    t: LockTable,
    key: FileKey,
    alive: Seq<u64>,
    req: LockRequest,
    i: int,
    j: int,
)
    ensures
        !locks_of(t).contains_key(key) ==> live_locks(t, key, alive).len() == 0,
        locks_of(t).contains_key(key) ==> live_locks(t, key, alive) == surviving(
            locks_of(t)[key],
            alive,
        ),
        first_conflict(live_locks(t, key, alive), req, i) && first_conflict(
            live_locks(t, key, alive),
            req,
            j,
        ) ==> i == j,
        first_conflict(live_locks(t, key, alive), req, i) ==> !unobstructed(
            live_locks(t, key, alive),
            req,
        ),
        first_conflict(live_locks(t, key, alive), req, i) && 0 <= j < live_locks(t, key, alive).len()
            && conflicting(live_locks(t, key, alive)[j], req) ==> i <= j,
{
    let l = live_locks(t, key, alive);
    if first_conflict(l, req, i) && first_conflict(l, req, j) {
        if i < j {
            assert(!conflicting(l[i], req));
        }
        if j < i {
            assert(!conflicting(l[j], req));
        }
    }
}

} // verus!
