//! A disk simulated in memory: requests are carried out at once and finish some time later.
use vstd::prelude::*;
use crate::bytes::{copy_into, splice};

verus! {

/// Bytes per block, and the mark of a finished request.
pub const BLKSIZE: usize = 512;

#[derive(Clone, Copy, PartialEq, Eq, Structural, Debug)]
pub enum OpCode {
    Read,
    Write,
    Flush,
}

/// Where a request starts.
#[derive(Clone, Copy, PartialEq, Eq, Structural, Debug)]
pub enum EntryType {
    Block(usize),
    Offset(usize),
}

/// A request.
#[derive(Clone, Copy, PartialEq, Eq, Structural, Debug)]
pub struct Entry {
    pub start: EntryType,
    pub op: OpCode,
    pub buf_size: usize,
    /// Who waits for it.
    pub cpuid: usize,
    /// Which mark it sets when it finishes.
    pub finish: usize,
}

impl Entry {
    pub fn new() -> (e: Self)
        ensures
            e == (Entry {
                start: EntryType::Block(0),
                op: OpCode::Read,
                buf_size: 0,
                cpuid: 0,
                finish: 0,
            }),
    {
        Entry { start: EntryType::Block(0), op: OpCode::Read, buf_size: 0, cpuid: 0, finish: 0 }
    }
}

/// The first byte of a request.
pub open spec fn first_byte(start: EntryType) -> int {
    match start {
        EntryType::Block(b) => b * 512,
        EntryType::Offset(o) => o as int,
    }
}

/// Whether a disk can carry a request out: it lies on the disk, and one for a block is a block
/// long.
pub open spec fn on_disk(size: int, start: EntryType, len: int) -> bool {
    &&& first_byte(start) + len <= size
    &&& start is Block ==> len == 512
}

/// The simulated disk's contents.
pub struct DiskMem {
    pub data: Vec<u8>,
}

impl DiskMem {
    pub fn read_at(&self, offset: usize, buf: &mut [u8])
        requires
            offset + old(buf)@.len() <= self.data@.len(),
        ensures
            final(buf)@ == self.data@.subrange(offset as int, offset + old(buf)@.len()),
    {
        let n: usize = buf.len();
        let size: usize = self.data.len();
        assert(offset + n <= size);
        copy_into(buf, 0, &self.data.as_slice()[offset..offset + n]);
        assert(buf@ =~= self.data@.subrange(offset as int, offset + n));
    }

    pub fn write_at(&mut self, offset: usize, buf: &[u8])
        requires
            offset + buf@.len() <= old(self).data@.len(),
        ensures
            final(self).data@ == splice(old(self).data@, offset as int, buf@),
    {
        copy_into(self.data.as_mut_slice(), offset, buf);
    }

    pub fn read_block(&self, block_id: usize, buf: &mut [u8])
        requires
            old(buf)@.len() == 512,
            block_id * 512 + 512 <= self.data@.len(),
        ensures
            final(buf)@ == self.data@.subrange(block_id * 512, block_id * 512 + 512),
    {
        let size: usize = self.data.len();
        assert(block_id * 512 + 512 <= size);
        self.read_at(block_id * BLKSIZE, buf);
    }

    pub fn write_block(&mut self, block_id: usize, buf: &[u8])
        requires
            buf@.len() == 512,
            block_id * 512 + 512 <= old(self).data@.len(),
        ensures
            final(self).data@ == splice(old(self).data@, block_id * 512, buf@),
    {
        let size: usize = self.data.len();
        assert(block_id * 512 + 512 <= size);
        self.write_at(block_id * BLKSIZE, buf);
    }

    /// Carries a request out; a flush needs nothing.
    pub fn handle_entry(&mut self, entry: &Entry, buf: &mut [u8])
        requires
            entry.op != OpCode::Flush ==> on_disk(
                old(self).data@.len() as int,
                entry.start,
                old(buf)@.len() as int,
            ),
        ensures
            match entry.op {
                OpCode::Read => final(self).data@ == old(self).data@ && final(buf)@ == old(
                    self).data@.subrange(
                    first_byte(entry.start),
                    first_byte(entry.start) + old(buf)@.len(),
                ),
                OpCode::Write => final(buf)@ == old(buf)@ && final(self).data@ == splice(
                    old(self).data@,
                    first_byte(entry.start),
                    old(buf)@,
                ),
                OpCode::Flush => final(buf)@ == old(buf)@ && final(self).data@ == old(self).data@,
            },
    {
        match entry.op {
            OpCode::Read => match entry.start {
                EntryType::Block(b) => self.read_block(b, buf),
                EntryType::Offset(o) => self.read_at(o, buf),
            },
            OpCode::Write => match entry.start {
                EntryType::Block(b) => self.write_block(b, buf),
                EntryType::Offset(o) => self.write_at(o, buf),
            },
            OpCode::Flush => {},
        }
    }
}

/// How many requests finish before a time.
pub open spec fn rank(s: Seq<(u128, Entry)>, key: u128) -> int
    decreases s.len(),
{
    if s.len() == 0 || s[0].0 >= key {
        0
    } else {
        1 + rank(s.skip(1), key)
    }
}

/// Requests in the order in which they finish, with one more. Of two that finish at the same
/// time the later one stays.
pub open spec fn scheduled(s: Seq<(u128, Entry)>, key: u128, e: Entry) -> Seq<(u128, Entry)> {
    let k = rank(s, key);
    if k < s.len() && s[k].0 == key {
        s.update(k, (key, e))
    } else {
        s.insert(k, (key, e))
    }
}

/// How many requests have finished by a time.
pub open spec fn due(s: Seq<(u128, Entry)>, now: u128) -> int
    decreases s.len(),
{
    if s.len() == 0 || s[0].0 > now {
        0
    } else {
        1 + due(s.skip(1), now)
    }
}

/// Requests finish one after the other.
pub open spec fn ordered(s: Seq<(u128, Entry)>) -> bool {
    forall|i: int, j: int| 0 <= i < j < s.len() ==> #[trigger] s[i].0 < #[trigger] s[j].0
}

proof fn lemma_rank(s: Seq<(u128, Entry)>, key: u128, k: int)
    requires
        ordered(s),
        0 <= k <= s.len(),
        forall|i: int| 0 <= i < k ==> #[trigger] s[i].0 < key,
        k < s.len() ==> s[k].0 >= key,
    ensures
        rank(s, key) == k,
    decreases s.len(),
{
    if k > 0 {
        let t = s.skip(1);
        assert forall|i: int| 0 <= i < k - 1 implies #[trigger] t[i].0 < key by {
            assert(t[i] == s[i + 1]);
        }
        lemma_rank(t, key, k - 1);
    }
}

proof fn lemma_due(s: Seq<(u128, Entry)>, now: u128, k: int)
    requires
        0 <= k <= s.len(),
        forall|i: int| 0 <= i < k ==> #[trigger] s[i].0 <= now,
        k < s.len() ==> s[k].0 > now,
    ensures
        due(s, now) == k,
    decreases s.len(),
{
    if k > 0 {
        let t = s.skip(1);
        assert forall|i: int| 0 <= i < k - 1 implies #[trigger] t[i].0 <= now by {
            assert(t[i] == s[i + 1]);
        }
        lemma_due(t, now, k - 1);
    }
}

/// The simulation: the disk, and the requests that have not finished yet, in the order in which
/// they will.
pub struct Mocking {
    pub data: DiskMem,
    pub map: Vec<(u128, Entry)>,
}

impl Mocking {
    pub fn new(data: Vec<u8>) -> (m: Self)
        ensures
            m.data.data@ == data@,
            m.map@ == Seq::<(u128, Entry)>::empty(),
            ordered(m.map@),
    {
        Mocking { data: DiskMem { data }, map: Vec::new() }
    }

    /// When a request that was carried out between two times finishes: it takes eleven times as
    /// long as that.
    pub fn finish_time(stime: u128, etime: u128) -> (t: u128)
        requires
            stime <= etime,
            etime + 10 * (etime - stime) <= u128::MAX,
        ensures
            t == etime + 10 * (etime - stime),
    {
        etime + 10 * (etime - stime)
    }

    /// Notes when a request that was carried out will finish.
    pub fn submitted(&mut self, entry: Entry, stime: u128, etime: u128)
        requires
            ordered(old(self).map@),
            stime <= etime,
            etime + 10 * (etime - stime) <= u128::MAX,
        ensures
            final(self).data == old(self).data,
            final(self).map@ == scheduled(
                old(self).map@,
                (etime + 10 * (etime - stime)) as u128,
                entry,
            ),
            ordered(final(self).map@),
    {
        let key: u128 = Self::finish_time(stime, etime);
        let ghost before = self.map@;
        let mut k: usize = 0;
        while k < self.map.len() && self.map[k].0 < key
            invariant
                k <= self.map@.len(),
                self.map@ == before,
                self.data == old(self).data,
                forall|i: int| 0 <= i < k ==> #[trigger] before[i].0 < key,
            decreases self.map@.len() - k,
        {
            k = k + 1;
        }
        proof {
            lemma_rank(before, key, k as int);
        }
        if k < self.map.len() && self.map[k].0 == key {
            self.map.set(k, (key, entry));
        } else {
            self.map.insert(k, (key, entry));
        }
    }

    /// Takes out what has finished by a time, in the order in which it finished.
    pub fn handle_finished(&mut self, now: u128) -> (v: Vec<Entry>)
        requires
            ordered(old(self).map@),
        ensures
            final(self).data == old(self).data,
            final(self).map@ == old(self).map@.skip(due(old(self).map@, now)),
            v@ == Seq::new(
                due(old(self).map@, now) as nat,
                |i: int| old(self).map@[i].1,
            ),
            ordered(final(self).map@),
    {
        let ghost before = self.map@;
        let mut v: Vec<Entry> = Vec::new();
        while self.map.len() > 0 && self.map[0].0 <= now
            invariant
                ordered(before),
                before == old(self).map@,
                self.data == old(self).data,
                v@.len() + self.map@.len() == before.len(),
                self.map@ == before.skip(v@.len() as int),
                forall|i: int| 0 <= i < v@.len() ==> #[trigger] v@[i] == before[i].1,
                forall|i: int| 0 <= i < v@.len() ==> #[trigger] before[i].0 <= now,
            decreases self.map@.len(),
        {
            let ghost k = v@.len() as int;
            assert(self.map@[0] == before[k]);
            let e = self.map.remove(0);
            v.push(e.1);
            assert(self.map@ =~= before.skip(k + 1));
        }
        proof {
            let k = v@.len() as int;
            if k < before.len() {
                assert(self.map@[0] == before[k]);
            }
            lemma_due(before, now, k);
            assert(v@ =~= Seq::new(k as nat, |i: int| before[i].1));
        }
        v
    }
}

/// Starts simulating a disk with given contents.
pub fn mocking_block(initrd: Vec<u8>) -> (m: Mocking)
    ensures
        m.data.data@ == initrd@,
        m.map@ == Seq::<(u128, Entry)>::empty(),
        ordered(m.map@),
{
    Mocking::new(initrd)
}

/// The side that hands requests in.
pub struct MockBlock {}

/// The side that hands requests in: there is none before the disk runs.
pub fn mock_block(ready: bool) -> (b: Option<MockBlock>)
    ensures
        b is Some <==> ready,
{
    if ready {
        Some(MockBlock {  })
    } else {
        None
    }
}

impl MockBlock {
    /// A request as it is handed in.
    pub fn submit_entry(
        &self,
        start: EntryType,
        op: OpCode,
        buf_size: usize,
        cpuid: usize,
        finish: usize,
    ) -> (e: Entry)
        ensures
            e == (Entry { start, op, buf_size, cpuid, finish }),
    {
        let mut entry = Entry::new();
        entry.start = start;
        entry.op = op;
        entry.buf_size = buf_size;
        entry.cpuid = cpuid;
        entry.finish = finish;
        entry
    }

    /// What a request of so many bytes answers once its mark is set; nothing before.
    pub fn answer(&self, mark: usize, len: usize) -> (r: Option<usize>)
        requires
            mark == 0 || mark == BLKSIZE,
        ensures
            r == (if mark == 0 {
                None
            } else {
                Some(len)
            }),
    {
        if mark == 0 {
            None
        } else {
            Some(len)
        }
    }
}

/// What was written is read back.
pub proof fn law_read_after_write(data: Seq<u8>, start: EntryType, buf: Seq<u8>)
    requires
        on_disk(data.len() as int, start, buf.len() as int),
    ensures
        splice(data, first_byte(start), buf).subrange(
            first_byte(start),
            first_byte(start) + buf.len(),
        ) == buf,
{
    assert(splice(data, first_byte(start), buf).subrange(
        first_byte(start),
        first_byte(start) + buf.len(),
    ) =~= buf);
}

proof fn lemma_due_bounds(s: Seq<(u128, Entry)>, now: u128)
    requires
        ordered(s),
    ensures
        0 <= due(s, now) <= s.len(),
        forall|i: int| 0 <= i < s.len() ==> (#[trigger] s[i].0 <= now <==> i < due(s, now)),
    decreases s.len(),
{
    if s.len() > 0 {
        if s[0].0 <= now {
            let t = s.skip(1);
            lemma_due_bounds(t, now);
            assert forall|i: int| 0 <= i < s.len() implies (#[trigger] s[i].0 <= now <==> i < due(
                s,
                now,
            )) by {
                if i > 0 {
                    assert(t[i - 1] == s[i]);
                }
            }
        } else {
            assert forall|i: int| 0 <= i < s.len() implies (#[trigger] s[i].0 <= now <==> i < due(
                s,
                now,
            )) by {
                if i > 0 {
                    assert(s[0].0 < s[i].0);
                }
            }
        }
    }
}

/// Exactly the requests whose time has come are taken out.
pub proof fn law_finished_exactly_when_due(s: Seq<(u128, Entry)>, now: u128, i: int)
    requires
        ordered(s),
        0 <= i < s.len(),
    ensures
        s[i].0 <= now <==> i < due(s, now),
{
    lemma_due_bounds(s, now);
}

/// A request starts at its block or at its byte, and a request for a block is for the whole block.
pub proof fn law_requests_on_disk(size: int, b: usize, o: usize, len: int)
    ensures
        first_byte(EntryType::Block(b)) == 512 * b,
        first_byte(EntryType::Offset(o)) == o,
        on_disk(size, EntryType::Block(b), len) <==> len == 512 && 512 * b + 512 <= size,
        on_disk(size, EntryType::Offset(o), len) <==> o + len <= size,
{
}

/// A request is put where its time belongs, in place of one of the same time; no other is lost or moved.
pub proof fn law_scheduled_by_time(s: Seq<(u128, Entry)>, key: u128, e: Entry, i: int)
    requires
        ordered(s),
        0 <= i < s.len(),
    ensures
        scheduled(s, key, e).contains((key, e)),
        s[i].0 != key ==> scheduled(s, key, e).contains(s[i]),
        s[i].0 == key ==> scheduled(s, key, e).len() == s.len(),
        (forall|j: int| 0 <= j < s.len() ==> (#[trigger] s[j]).0 != key) ==> scheduled(s, key, e).len()
            == s.len() + 1,
{
    lemma_rank_bounds(s, key);
    let k = rank(s, key);
    let t = scheduled(s, key, e);
    if k < s.len() && s[k].0 == key {
        assert(t[k] == (key, e));
        if i != k {
            assert(t[i] == s[i]);
        }
    } else {
        assert(t[k] == (key, e));
        if i < k {
            assert(t[i] == s[i]);
        } else {
            assert(t[i + 1] == s[i]);
        }
    }
}

proof fn lemma_rank_bounds(s: Seq<(u128, Entry)>, key: u128)
    requires
        ordered(s),
    ensures
        0 <= rank(s, key) <= s.len(),
        forall|j: int| 0 <= j < rank(s, key) ==> (#[trigger] s[j]).0 < key,
        forall|j: int| rank(s, key) <= j < s.len() ==> (#[trigger] s[j]).0 >= key,
    decreases s.len(),
{
    if s.len() > 0 && s[0].0 < key {
        let r = s.skip(1);
        assert forall|i: int, j: int| 0 <= i < j < r.len() implies #[trigger] r[i].0 < #[trigger] r[j].0 by {
            assert(r[i] == s[i + 1] && r[j] == s[j + 1]);
        }
        lemma_rank_bounds(r, key);
        assert forall|j: int| 0 <= j < rank(s, key) implies (#[trigger] s[j]).0 < key by {
            if j > 0 {
                assert(r[j - 1] == s[j]);
            }
        }
        assert forall|j: int| rank(s, key) <= j < s.len() implies (#[trigger] s[j]).0 >= key by {
            assert(r[j - 1] == s[j]);
        }
    } else if s.len() > 0 {
        assert forall|j: int| 0 <= j < s.len() implies (#[trigger] s[j]).0 >= key by {
            if j > 0 {
                assert(s[0].0 < s[j].0);
            }
        }
    }
}

} // verus!
