//! Anonymous files in memory.
use vstd::prelude::*;
use crate::flags::{OpenFlags, O_CLOEXEC, O_RDWR};
use crate::text::{decimal_text, push_number, push_str, string_of};

verus! {

/// Close the descriptor on exec.
pub const MFD_CLOEXEC: usize = 1;

/// What is known of one anonymous file.
#[derive(Clone, Copy, PartialEq, Eq, Structural, Debug)]
pub struct MemfdRef {
    pub seq: usize,
    /// References to the file; none once it is gone.
    pub strong: usize,
    /// Its size, where that can be had.
    pub size: Option<usize>,
}

/// The anonymous files ever made.
pub struct MemfdRegistry {
    pub created: usize,
    pub files: Vec<MemfdRef>,
}

/// The files that are not gone.
pub open spec fn live(s: Seq<MemfdRef>) -> Seq<MemfdRef>
    decreases s.len(),
{
    if s.len() == 0 {
        s
    } else if s.last().strong > 0 {
        live(s.drop_last()).push(s.last())
    } else {
        live(s.drop_last())
    }
}

/// The bytes of some files, as far as they are known.
pub open spec fn bytes_of(s: Seq<MemfdRef>) -> int
    decreases s.len(),
{
    if s.len() == 0 {
        0
    } else {
        bytes_of(s.drop_last()) + (match s.last().size {
            Some(n) => n as int,
            None => 0,
        })
    }
}

proof fn lemma_bytes(s: Seq<MemfdRef>, n: int)
    requires
        0 <= n <= s.len(),
    ensures
        0 <= bytes_of(s.take(n)) <= bytes_of(s),
    decreases s.len(),
{
    if n == s.len() {
        assert(s.take(n) =~= s);
        if n > 0 {
            lemma_bytes(s.drop_last(), n - 1);
            assert(s.drop_last().take(n - 1) =~= s.drop_last());
        }
    } else {
        lemma_bytes(s.drop_last(), n);
        assert(s.drop_last().take(n) =~= s.take(n));
    }
}

/// The figures of a count, and the files that are kept then: how many were ever made, how many are
/// alive, and their bytes. Where the registry is in use only the first is known.
pub open spec fn counted(
    files: Seq<MemfdRef>,
    created: usize,
    free: bool,
) -> ((usize, usize, usize), Seq<MemfdRef>) {
    if free {
        (
            (created, live(files).len() as usize, bytes_of(live(files)) as usize),
            live(files),
        )
    } else {
        ((created, 0, 0), files)
    }
}

/// How many files were made, how many there are, and the bytes they hold. Files that are gone are
/// dropped from the registry; `free` says whether it could be looked at.
pub fn memfd_stats(r: &mut MemfdRegistry, free: bool) -> (s: (usize, usize, usize))
    requires
        bytes_of(live(old(r).files@)) <= usize::MAX,
    ensures
        final(r).created == old(r).created,
        final(r).files@ == counted(old(r).files@, old(r).created, free).1,
        s == counted(old(r).files@, old(r).created, free).0,
{
    if !free {
        return (r.created, 0, 0);
    }
    let mut stay: Vec<MemfdRef> = Vec::new();
    let ghost all = r.files@;
    assert(all.take(0) =~= Seq::empty());
    for i in 0..r.files.len()
        invariant
            r.files@ == all,
            stay@ == live(all.take(i as int)),
    {
        assert(all.take(i + 1).drop_last() =~= all.take(i as int));
        if r.files[i].strong > 0 {
            stay.push(r.files[i]);
        }
    }
    assert(all.take(all.len() as int) =~= all);
    let mut bytes: usize = 0;
    let ghost l = stay@;
    assert(l.take(0) =~= Seq::empty());
    for i in 0..stay.len()
        invariant
            stay@ == l,
            bytes_of(l) <= usize::MAX,
            bytes == bytes_of(l.take(i as int)),
    {
        proof {
            assert(l.take(i + 1).drop_last() =~= l.take(i as int));
            lemma_bytes(l, i + 1);
        }
        match stay[i].size {
            Some(n) => {
                bytes = bytes + n;
            },
            None => {},
        }
    }
    assert(l.take(l.len() as int) =~= l);
    let count: usize = stay.len();
    r.files = stay;
    (r.created, count, bytes)
}

/// One line of the dump.
#[derive(Clone, Copy, PartialEq, Eq, Structural, Debug)]
pub struct MemfdLine {
    pub seq: usize,
    pub size: usize,
    pub strong: usize,
}

/// The line of a file: none for one that is gone. The reference that the look itself takes does
/// not count.
pub open spec fn line_of(f: MemfdRef) -> Option<MemfdLine> {
    if f.strong == 0 {
        None
    } else {
        Some(
            MemfdLine {
                seq: f.seq,
                size: match f.size {
                    Some(n) => n,
                    None => 0,
                },
                strong: f.strong,
            },
        )
    }
}

/// The lines of the last `n` files, newest first.
pub open spec fn newest_lines(s: Seq<MemfdRef>, n: int) -> Seq<MemfdLine>
    decreases n,
{
    if n <= 0 {
        Seq::empty()
    } else {
        let head = newest_lines(s, n - 1);
        match line_of(s[s.len() - n]) {
            Some(l) => head.push(l),
            None => head,
        }
    }
}

/// What a dump looks at: at most `max` of the files.
pub open spec fn dump_count(len: int, max: int) -> int {
    if len < max {
        len
    } else {
        max
    }
}

/// How many files were made and are live, and a line for each of the newest that are. Nothing
/// where the registry could not be looked at.
pub fn memfd_dump_live(r: &MemfdRegistry, free: bool, max: usize) -> (d: Option<
    (usize, usize, Vec<MemfdLine>),
>)
    ensures
        match d {
            Some((created, count, lines)) => {
                &&& free
                &&& created == r.created
                &&& count == live(r.files@).len()
                &&& lines@ == newest_lines(
                    r.files@,
                    dump_count(r.files@.len() as int, max as int),
                )
            },
            None => !free,
        },
{
    if !free {
        return None;
    }
    let ghost all = r.files@;
    let mut count: usize = 0;
    assert(all.take(0) =~= Seq::empty());
    for i in 0..r.files.len()
        invariant
            r.files@ == all,
            count == live(all.take(i as int)).len(),
            count <= i,
    {
        assert(all.take(i + 1).drop_last() =~= all.take(i as int));
        if r.files[i].strong > 0 {
            count = count + 1;
        }
    }
    assert(all.take(all.len() as int) =~= all);
    let len: usize = r.files.len();
    let n: usize = if len < max {
        len
    } else {
        max
    };
    let mut lines: Vec<MemfdLine> = Vec::new();
    for k in 0..n
        invariant
            r.files@ == all,
            len == all.len(),
            n <= len,
            lines@ == newest_lines(all, k as int),
    {
        let f: MemfdRef = r.files[len - (k + 1)];
        if f.strong > 0 {
            let size: usize = match f.size {
                Some(s) => s,
                None => 0,
            };
            lines.push(MemfdLine { seq: f.seq, size, strong: f.strong });
        }
    }
    Some((r.created, count, lines))
}

/// What making an anonymous file needs: the hidden name of its backing, its flags, and the path
/// that it shows.
pub struct NewMemfd {
    pub seq: usize,
    pub backing: String,
    pub flags: OpenFlags,
    pub path: String,
}

/// Takes a file that was made into the registry, under the number it was planned with. Only `held`
/// references hold on to it, so it is gone once they are; `size` is what its metadata says.
pub fn register_memfd(r: &mut MemfdRegistry, seq: usize, held: usize, size: Option<usize>)
    ensures
        final(r).created == old(r).created,
        final(r).files@ == old(r).files@.push(MemfdRef { seq, strong: held, size }),
{
    r.files.push(MemfdRef { seq, strong: held, size });
}

/// A file that was made and is held is counted from then on, and one more of them is live.
pub proof fn law_registered_memfd_counts(files: Seq<MemfdRef>, f: MemfdRef)
    requires
        f.strong > 0,
    ensures
        live(files.push(f)) == live(files).push(f),
        newest_lines(files.push(f), 1) == seq![line_of(f)->0],
{
    assert(files.push(f).drop_last() =~= files);
    reveal_with_fuel(newest_lines, 2);
    assert(newest_lines(files.push(f), 1) =~= seq![line_of(f)->0]);
}

/// The open flags of a file that was asked for with `flags`.
pub open spec fn open_bits(flags: usize) -> usize {
    if flags & MFD_CLOEXEC != 0 {
        O_RDWR | O_CLOEXEC
    } else {
        O_RDWR
    }
}

/// The number that is given out behind `n`.
pub open spec fn number_after(n: usize) -> usize {
    if n == usize::MAX {
        0
    } else {
        (n + 1) as usize
    }
}

/// Plans the making of an anonymous file.
pub fn new_memfd(r: &mut MemfdRegistry, name: &str, flags: usize) -> (m: NewMemfd)
    ensures
        m.seq == old(r).created,
        m.backing@ == ".memfd."@ + decimal_text(old(r).created as nat) + "."@ + name@,
        m.path@ == "/memfd:"@ + name@,
        m.flags.bits == open_bits(flags),
        final(r).files@ == old(r).files@,
        final(r).created == number_after(old(r).created),
{
    let seq: usize = r.created;
    r.created = seq.wrapping_add(1);
    let mut b: Vec<char> = Vec::new();
    push_str(&mut b, ".memfd.");
    push_number(&mut b, seq as u64);
    push_str(&mut b, ".");
    push_str(&mut b, name);
    assert(b@ =~= ".memfd."@ + decimal_text(seq as nat) + "."@ + name@);
    let mut p: Vec<char> = Vec::new();
    push_str(&mut p, "/memfd:");
    push_str(&mut p, name);
    assert(p@ =~= "/memfd:"@ + name@);
    let mut open = OpenFlags { bits: O_RDWR };
    if flags & MFD_CLOEXEC != 0 {
        open.set(O_CLOEXEC, true);
    }
    NewMemfd { seq, backing: string_of(b.as_slice()), flags: open, path: string_of(p.as_slice()) }
}

/// A memory file counts while something refers to it, with its size where that can be had.
pub proof fn law_memfds_counted(files: Seq<MemfdRef>, f: MemfdRef)
    ensures
        f.strong == 0 ==> live(files.push(f)) == live(files),
        f.strong > 0 ==> live(files.push(f)) == live(files).push(f),
        f.size matches Some(n) ==> bytes_of(files.push(f)) == bytes_of(files) + n,
        f.size is None ==> bytes_of(files.push(f)) == bytes_of(files),
        live(Seq::empty()).len() == 0,
        bytes_of(Seq::empty()) == 0,
{
    assert(files.push(f).drop_last() =~= files);
}

/// The newest files come first, each that is still there with its number, size and references.
pub proof fn law_newest_listed_first(files: Seq<MemfdRef>, f: MemfdRef, n: int)
    requires
        0 <= n <= files.len(),
    ensures
        f.strong == 0 ==> newest_lines(files.push(f), n + 1) == newest_lines(files, n),
        f.strong > 0 ==> newest_lines(files.push(f), n + 1) == seq![
            MemfdLine {
                seq: f.seq,
                size: if f.size is Some {
                    f.size->0
                } else {
                    0
                },
                strong: f.strong,
            },
        ] + newest_lines(files, n),
    decreases n,
{
    let s = files.push(f);
    if n == 0 {
        reveal_with_fuel(newest_lines, 2);
        assert(s[s.len() - 1] == f);
    } else {
        law_newest_listed_first(files, f, n - 1);
        assert(s[s.len() - (n + 1)] == files[files.len() - n]);
    }
    if f.strong > 0 {
        assert(newest_lines(s, n + 1) =~= seq![line_of(f)->0] + newest_lines(files, n));
    }
}

/// No more lines than asked for, nor than there are files.
pub proof fn law_dump_bounded(len: int, max: int)
    ensures
        dump_count(len, max) <= len,
        dump_count(len, max) <= max,
        dump_count(len, max) == len || dump_count(len, max) == max,
{
}

/// An anonymous file is read and written, and is closed on an exec exactly where that was asked for.
/// No other flag that was asked for shows. Two files made one behind the other differ in number.
pub proof fn law_new_file(flags: usize, other: usize, n: usize)
    ensures
        open_bits(flags) & 3 == 2,
        open_bits(flags) & 0x8_0000 != 0 <==> flags & 1 == 1,
        flags & 1 == other & 1 ==> open_bits(flags) == open_bits(other),
        number_after(n) != n,
        n < usize::MAX ==> number_after(n) > n && number_after(n) - n == 1,
        n == usize::MAX ==> number_after(n) == 0,
{
    assert(flags & 1 == 1 || flags & 1 == 0) by (bit_vector);
    assert((2usize | 0x8_0000) & 3 == 2 && 2usize & 3 == 2 && (2usize | 0x8_0000) & 0x8_0000 != 0
        && 2usize & 0x8_0000 == 0) by (bit_vector);
}

/// A count tells how many files were ever made, and of those alive the number and the bytes; files
/// that are gone are dropped by it and those alive are kept. A registry in use is left alone.
pub proof fn law_files_counted(files: Seq<MemfdRef>, f: MemfdRef, created: usize)
    requires
        files.len() < usize::MAX,
        0 <= bytes_of(live(files)),
        f.size matches Some(n) ==> bytes_of(live(files)) + n <= usize::MAX,
        f.size is None ==> bytes_of(live(files)) <= usize::MAX,
    ensures
        (counted(files, created, false)) == ((created, 0usize, 0usize), files),
        (counted(files, created, true).0).0 == created,
        f.strong == 0 ==> counted(files.push(f), created, true) == counted(files, created, true),
        f.strong > 0 ==> {
            let (a, kept_a) = counted(files, created, true);
            let (b, kept_b) = counted(files.push(f), created, true);
            &&& b.1 == a.1 + 1
            &&& f.size matches Some(n) ==> b.2 == a.2 + n
            &&& f.size is None ==> b.2 == a.2
            &&& kept_b == kept_a.push(f)
        },
        counted(counted(files, created, true).1, created, true) == counted(files, created, true),
{
    assert(files.push(f).drop_last() =~= files);
    lemma_live_len(files);
    lemma_live_again(files);
    if f.strong > 0 {
        assert(live(files).push(f).drop_last() =~= live(files));
    }
}

proof fn lemma_live_len(s: Seq<MemfdRef>)
    ensures
        live(s).len() <= s.len(),
    decreases s.len(),
{
    if s.len() > 0 {
        lemma_live_len(s.drop_last());
    }
}

proof fn lemma_live_again(s: Seq<MemfdRef>)
    ensures
        live(live(s)) == live(s),
    decreases s.len(),
{
    if s.len() > 0 {
        lemma_live_again(s.drop_last());
        if s.last().strong > 0 {
            assert(live(s).drop_last() =~= live(s.drop_last()));
        }
    }
}

} // verus!
