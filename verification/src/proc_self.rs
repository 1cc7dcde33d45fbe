//! The directory of a process's own descriptors.
use vstd::prelude::*;
use crate::error::FsError;
use crate::text::{
    chars_of, decimal_text, law_signed_roundtrip, lemma_signed_range, parse_i32, parsed_signed, push_number,
    string_of, text_is,
};
use crate::vfs::{epoch, FileType, Metadata, PollStatus, Timespec};

verus! {

/// The directory of a process's descriptors.
#[derive(Clone, Copy, PartialEq, Eq, Structural, Debug)]
pub struct ProcSelfFdDir {
    pub process: u32,
}

/// What a name in the directory leads to.
#[derive(Clone, Copy, PartialEq, Eq, Structural, Debug)]
pub enum FdName {
    /// A directory.
    Directory,
    /// A link to the path of an open file.
    Link(i32),
}

/// What a name leads to, given the descriptors that are open.
pub open spec fn fd_name(name: Seq<char>, open: Seq<i32>) -> Result<FdName, FsError> {
    if name == "."@ || name == ".."@ {
        Ok(FdName::Directory)
    } else {
        match parsed_signed(name) {
            Some(n) => if open.contains(n as i32) {
                Ok(FdName::Link(n as i32))
            } else {
                Err(FsError::EntryNotFound)
            },
            None => Err(FsError::EntryNotFound),
        }
    }
}

/// A number as it is listed, with its sign.
pub open spec fn signed_text(n: i32) -> Seq<char> {
    if n < 0 {
        seq!['-'] + decimal_text((-(n as int)) as nat)
    } else {
        decimal_text(n as nat)
    }
}

impl ProcSelfFdDir {
    pub fn read_at(&self) -> (r: Result<usize, FsError>)
        ensures
            r == Ok::<usize, FsError>(0),
    {
        Ok(0)
    }

    pub fn write_at(&self) -> (r: Result<usize, FsError>)
        ensures
            r == Err::<usize, FsError>(FsError::NotSupported),
    {
        Err(FsError::NotSupported)
    }

    pub fn poll(&self) -> (s: PollStatus)
        ensures
            s == (PollStatus { read: true, write: false, error: false }),
    {
        PollStatus { read: true, write: false, error: false }
    }

    pub fn metadata(&self) -> (m: Metadata)
        requires
            self.process + 40 <= usize::MAX,
        ensures
            m == (Metadata {
                dev: 0,
                inode: (40 + self.process) as usize,
                size: 0,
                blk_size: 0,
                blocks: 0,
                atime: epoch(),
                mtime: epoch(),
                ctime: epoch(),
                type_: FileType::Dir,
                mode: 0o555,
                nlinks: 2,
                uid: 0,
                gid: 0,
                rdev: 0,
            }),
    {
        let zero = Timespec { sec: 0, nsec: 0 };
        Metadata {
            dev: 0,
            inode: 40 + self.process as usize,
            size: 0,
            blk_size: 0,
            blocks: 0,
            atime: zero,
            mtime: zero,
            ctime: zero,
            type_: FileType::Dir,
            mode: 0o555,
            nlinks: 2,
            uid: 0,
            gid: 0,
            rdev: 0,
        }
    }

    /// What a name leads to; `open` holds the open descriptors.
    pub fn find(&self, name: &str, open: &[i32]) -> (r: Result<FdName, FsError>)
        ensures
            r == fd_name(name@, open@),
    {
        let cs = chars_of(name);
        if text_is(cs.as_slice(), ".") || text_is(cs.as_slice(), "..") {
            return Ok(FdName::Directory);
        }
        match parse_i32(cs.as_slice()) {
            None => Err(FsError::EntryNotFound),
            Some(n) => {
                for i in 0..open.len()
                    invariant
                        parsed_signed(name@) == Some(n as int),
                        name@ != "."@,
                        name@ != ".."@,
                        forall|k: int| 0 <= k < i ==> #[trigger] open@[k] != n,
                {
                    if open[i] == n {
                        assert(open@[i as int] == n);
                        return Ok(FdName::Link(n));
                    }
                }
                Err(FsError::EntryNotFound)
            },
        }
    }

    /// The name of an entry: the open descriptors in order.
    pub fn get_entry(&self, id: usize, open: &[i32]) -> (r: Result<String, FsError>)
        ensures
            entry_named(id, open@, r),
    {
        proof {
            lemma_in_order(open@);
        }
        if id >= open.len() {
            return Err(FsError::EntryNotFound);
        }
        let sorted: Vec<i32> = sort(open);
        let n: i32 = sorted[id];
        let mut v: Vec<char> = Vec::new();
        if n < 0 {
            v.push('-');
            push_number(&mut v, (-(n as i64)) as u64);
        } else {
            push_number(&mut v, n as u64);
        }
        assert(v@ =~= signed_text(n));
        Ok(string_of(v.as_slice()))
    }
}

/// How many numbers at the front of a sequence are below another.
pub open spec fn lead_below(s: Seq<i32>, x: i32) -> int
    decreases s.len(),
{
    if s.len() == 0 || s[0] >= x {
        0
    } else {
        1 + lead_below(s.skip(1), x)
    }
}

/// The name of an entry by its position.
pub open spec fn entry_named(id: usize, open: Seq<i32>, r: Result<String, FsError>) -> bool {
    match r {
        Ok(s) => id < open.len() && s@ == signed_text(in_order(open)[id as int]),
        Err(e) => id >= open.len() && e == FsError::EntryNotFound,
    }
}

/// Numbers from the smallest up.
pub open spec fn in_order(s: Seq<i32>) -> Seq<i32>
    decreases s.len(),
{
    if s.len() == 0 {
        Seq::empty()
    } else {
        let rest = in_order(s.drop_last());
        rest.insert(lead_below(rest, s.last()), s.last())
    }
}

proof fn lemma_lead(s: Seq<i32>, x: i32, k: int)
    requires
        0 <= k <= s.len(),
        forall|i: int| 0 <= i < k ==> #[trigger] s[i] < x,
        k < s.len() ==> s[k] >= x,
    ensures
        lead_below(s, x) == k,
    decreases s.len(),
{
    if k > 0 {
        let t = s.skip(1);
        assert forall|i: int| 0 <= i < k - 1 implies #[trigger] t[i] < x by {
            assert(t[i] == s[i + 1]);
        }
        lemma_lead(t, x, k - 1);
    }
}

proof fn lemma_lead_bounds(s: Seq<i32>, x: i32)
    ensures
        0 <= lead_below(s, x) <= s.len(),
        forall|i: int| 0 <= i < lead_below(s, x) ==> #[trigger] s[i] < x,
        lead_below(s, x) < s.len() ==> s[lead_below(s, x)] >= x,
    decreases s.len(),
{
    if s.len() > 0 && s[0] < x {
        let t = s.skip(1);
        lemma_lead_bounds(t, x);
        assert forall|i: int| 0 <= i < lead_below(s, x) implies #[trigger] s[i] < x by {
            if i > 0 {
                assert(t[i - 1] == s[i]);
            }
        }
    }
}

proof fn lemma_in_order(s: Seq<i32>)
    ensures
        in_order(s).len() == s.len(),
        forall|i: int, j: int|
            0 <= i < j < s.len() ==> #[trigger] in_order(s)[i] <= #[trigger] in_order(s)[j],
        in_order(s).to_multiset() == s.to_multiset(),
    decreases s.len(),
{
    broadcast use vstd::seq_lib::group_to_multiset_ensures;

    if s.len() == 0 {
        assert(in_order(s) =~= s);
    } else {
        let rest = in_order(s.drop_last());
        let k = lead_below(rest, s.last());
        lemma_in_order(s.drop_last());
        lemma_lead_bounds(rest, s.last());
        assert(s =~= s.drop_last().push(s.last()));
    }
}

/// Every open descriptor is listed, as often as it is open, and they are listed in order.
pub proof fn law_listing_sorted(open: Seq<i32>)
    ensures
        in_order(open).to_multiset() == open.to_multiset(),
        forall|i: int, j: int|
            0 <= i < j < open.len() ==> #[trigger] in_order(open)[i] <= #[trigger] in_order(open)[j],
{
    lemma_in_order(open);
}

fn sort(s: &[i32]) -> (v: Vec<i32>)
    ensures
        v@ == in_order(s@),
{
    let mut v: Vec<i32> = Vec::new();
    let mut i: usize = 0;
    assert(s@.take(0) =~= Seq::empty());
    while i < s.len()
        invariant
            i <= s@.len(),
            v@ == in_order(s@.take(i as int)),
        decreases s@.len() - i,
    {
        assert(s@.take(i + 1).drop_last() =~= s@.take(i as int));
        let x: i32 = s[i];
        let mut k: usize = 0;
        while k < v.len() && v[k] < x
            invariant
                k <= v@.len(),
                forall|j: int| 0 <= j < k ==> #[trigger] v@[j] < x,
            decreases v@.len() - k,
        {
            k = k + 1;
        }
        proof {
            lemma_lead(v@, x, k as int);
        }
        v.insert(k, x);
        i = i + 1;
    }
    assert(s@.take(i as int) =~= s@);
    v
}

/// Every open descriptor is found under the name that it is listed by, and a number that is not open is
/// not found.
pub proof fn law_listed_names_found(open: Seq<i32>, n: i32)
    requires
        n >= 0,
    ensures
        open.contains(n) ==> fd_name(signed_text(n), open) == Ok::<FdName, FsError>(FdName::Link(n)),
        !open.contains(n) ==> fd_name(signed_text(n), open) == Err::<FdName, FsError>(
            FsError::EntryNotFound,
        ),
{
    law_signed_roundtrip(n as nat);
    let t = decimal_text(n as nat);
    reveal_strlit(".");
    reveal_strlit("..");
    lemma_no_dot(n as nat);
    assert(t[0] != '.');
    assert("."@[0] == '.');
    assert(".."@[0] == '.');
}

proof fn lemma_no_dot(n: nat)
    ensures
        decimal_text(n).len() > 0,
        decimal_text(n)[0] != '.',
    decreases n,
{
    if n >= 10 {
        lemma_no_dot(n / 10);
    }
}

/// The directory itself and the one above it are directories, and only they.
pub proof fn law_directory_names(name: Seq<char>, open: Seq<i32>)
    ensures
        fd_name(name, open) == Ok::<FdName, FsError>(FdName::Directory) <==> name == "."@ || name == ".."@,
        fd_name(name, open) matches Ok(FdName::Link(fd)) ==> open.contains(fd) && parsed_signed(name)
            == Some(fd as int),
        fd_name(name, open) matches Err(e) ==> e == FsError::EntryNotFound,
{
    lemma_signed_range(name);
}

/// There is one entry for each open descriptor, named by its number; past the last there is none.
/// Entries come in the order of their numbers.
pub proof fn law_entries_are_open(
    i: usize,
    j: usize,
    open: Seq<i32>,
    a: Result<String, FsError>,
    b: Result<String, FsError>,
)
    requires
        i < j,
        entry_named(i, open, a),
        entry_named(j, open, b),
    ensures
        a is Ok <==> i < open.len(),
        a matches Err(e) ==> e == FsError::EntryNotFound,
        b is Ok ==> exists|m: i32, n: i32|
            m <= n && open.contains(m) && open.contains(n) && a->Ok_0@ == #[trigger] signed_text(m)
                && b->Ok_0@ == #[trigger] signed_text(n),
{
    law_listing_sorted(open);
    lemma_in_order(open);
    if b is Ok {
        broadcast use vstd::seq_lib::group_to_multiset_ensures;

        let s = in_order(open);
        assert(s.len() == open.len());
        let m = s[i as int];
        let n = s[j as int];
        assert(s.contains(m) && s.contains(n));
        assert(s.to_multiset().count(m) > 0 && s.to_multiset().count(n) > 0);
        assert(open.contains(m) && open.contains(n));
    }
}

} // verus!
