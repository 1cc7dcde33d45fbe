//! Watches on paths. No change is ever reported: watches are handed out and kept.
use vstd::prelude::*;
use vstd::std_specs::iter::IteratorSpec;
use std::collections::BTreeMap;
use crate::error::LxError;
use crate::flags::{has_flag, OpenFlags, O_NON_BLOCK};
use crate::vfs::PollStatus;

verus! {

broadcast use {vstd::std_specs::btree::group_btree_axioms, vstd::laws_cmp::group_laws_cmp};

/// The watches of an instance: path and mask of each, by descriptor.
pub struct Inotify {
    pub next_wd: i32,
    pub watches: BTreeMap<i32, (String, u32)>,
    pub flags: OpenFlags,
}

/// A watch, mathematically.
#[verifier::ext_equal]
pub struct Watched {
    pub path: Seq<char>,
    pub mask: u32,
}

/// Watches by their contents.
pub open spec fn watched(m: Map<i32, (String, u32)>) -> Map<i32, Watched> {
    m.map_values(|w: (String, u32)| Watched { path: w.0@, mask: w.1 })
}

/// Whether a descriptor is that of a watch on a path.
pub open spec fn watches_path(s: Map<i32, Watched>, wd: i32, path: Seq<char>) -> bool {
    s.contains_key(wd) && s[wd].path == path
}

/// Descriptors are handed out from one upwards, each once, and no path is watched twice.
pub open spec fn watches_ok(n: Inotify) -> bool {
    let s = watched(n.watches@);
    &&& n.next_wd >= 1
    &&& forall|wd: i32| #[trigger] s.contains_key(wd) ==> 1 <= wd < n.next_wd
    &&& forall|a: i32, b: i32|
        #[trigger] s.contains_key(a) && #[trigger] s.contains_key(b) && s[a].path == s[b].path ==> a
            == b
}

/// What a read answers: there is never anything to read.
#[derive(Clone, Copy, PartialEq, Eq, Structural, Debug)]
pub enum QuietRead {
    /// Nothing now.
    Again,
    /// Wait for what never comes.
    Park,
}

impl Inotify {
    pub fn new(flags: OpenFlags) -> (n: Self)
        ensures
            n.next_wd == 1,
            n.flags == flags,
            watched(n.watches@) == Map::<i32, Watched>::empty(),
            watches_ok(n),
    {
        let n = Inotify { next_wd: 1, watches: BTreeMap::new(), flags };
        assert(watched(n.watches@) =~= Map::<i32, Watched>::empty());
        n
    }

    /// The descriptor of the watch on a path.
    fn find(&self, path: &str) -> (r: Option<i32>)
        ensures
            match r {
                Some(wd) => watches_path(watched(self.watches@), wd, path@),
                None => forall|wd: i32| !#[trigger] watches_path(watched(self.watches@), wd, path@),
            },
    {
        let want: String = path.to_owned();
        let ghost s = watched(self.watches@);
        let ghost all = self.watches.keys().remaining();
        for wd in it: self.watches.keys()
            invariant
                want@ == path@,
                s == watched(self.watches@),
                it.seq() == all,
                it.seq().unref().to_set() == self.watches@.dom(),
                forall|i: int|
                    0 <= i < it.index() ==> !watches_path(s, *#[trigger] it.seq()[i], path@),
        {
            proof {
                assert(it.seq().unref()[it.index()] == *it.seq()[it.index()]);
                assert(it.seq().unref().to_set().contains(*wd));
            }
            match self.watches.get(wd) {
                Some(w) => {
                    if w.0 == want {
                        assert(watches_path(s, *wd, path@));
                        return Some(*wd);
                    }
                },
                None => {},
            }
        }
        proof {
            assert forall|wd: i32| !#[trigger] watches_path(s, wd, path@) by {
                if s.contains_key(wd) {
                    assert(all.unref().to_set().contains(wd));
                    let i = choose|i: int| 0 <= i < all.unref().len() && all.unref()[i] == wd;
                    assert(*all[i] == wd);
                }
            }
        }
        None
    }

    /// Watches a path. A path that is watched keeps its descriptor and gets the new mask.
    pub fn add_watch(&mut self, path: &str, mask: u32) -> (wd: usize)
        requires
            watches_ok(*old(self)),
            old(self).next_wd < i32::MAX,
        ensures
            watches_ok(*final(self)),
            final(self).flags == old(self).flags,
            ({
                let s = watched(old(self).watches@);
                let known = exists|w: i32| #[trigger] watches_path(s, w, path@);
                &&& known ==> watches_path(s, wd as i32, path@) && final(self).next_wd == old(
                    self).next_wd
                &&& !known ==> wd == old(self).next_wd && final(self).next_wd == old(self).next_wd
                    + 1
                &&& 1 <= wd <= i32::MAX
                &&& watched(final(self).watches@) == with_watch(s, wd as i32, path@, mask)
            }),
    {
        let ghost s = watched(self.watches@);
        let found = self.find(path);
        let wd: i32 = match found {
            Some(wd) => wd,
            None => {
                let wd: i32 = self.next_wd;
                self.next_wd = wd + 1;
                wd
            },
        };
        assert(found is Some ==> watches_path(s, wd, path@));
        self.watches.insert(wd, (path.to_owned(), mask));
        proof {
            let t = watched(self.watches@);
            assert(t =~= s.insert(wd, Watched { path: path@, mask }));
            assert forall|a: i32, b: i32|
                #[trigger] t.contains_key(a) && #[trigger] t.contains_key(b) && t[a].path
                    == t[b].path implies a == b by {
                if a != wd && b != wd {
                    assert(s.contains_key(a) && s.contains_key(b));
                } else if a != b {
                    let other = if a == wd { b } else { a };
                    assert(s.contains_key(other));
                    assert(watches_path(s, other, path@));
                }
            }
            assert forall|k: i32| #[trigger] t.contains_key(k) implies 1 <= k < self.next_wd by {
                assert(k == wd || s.contains_key(k));
            }
        }
        wd as usize
    }

    /// Ends a watch.
    pub fn rm_watch(&mut self, wd: i32) -> (r: Result<usize, LxError>)
        requires
            watches_ok(*old(self)),
        ensures
            watches_ok(*final(self)),
            final(self).flags == old(self).flags,
            final(self).next_wd == old(self).next_wd,
            r == (if watched(old(self).watches@).contains_key(wd) {
                Ok::<usize, LxError>(0)
            } else {
                Err(LxError::EINVAL)
            }),
            watched(final(self).watches@) == watched(old(self).watches@).remove(wd),
    {
        let ghost s = watched(self.watches@);
        let gone = self.watches.remove(&wd);
        proof {
            let t = watched(self.watches@);
            assert(t =~= s.remove(wd));
            assert forall|k: i32| #[trigger] t.contains_key(k) implies 1 <= k < self.next_wd by {
                assert(s.contains_key(k));
            }
            assert forall|a: i32, b: i32|
                #[trigger] t.contains_key(a) && #[trigger] t.contains_key(b) && t[a].path
                    == t[b].path implies a == b by {
                assert(s.contains_key(a) && s.contains_key(b));
            }
        }
        if gone.is_some() {
            Ok(0)
        } else {
            Err(LxError::EINVAL)
        }
    }

    /// What a read answers.
    pub fn read(&self) -> (r: QuietRead)
        ensures
            r == (if has_flag(self.flags.bits, O_NON_BLOCK) {
                QuietRead::Again
            } else {
                QuietRead::Park
            }),
    {
        if self.flags.contains(O_NON_BLOCK) {
            QuietRead::Again
        } else {
            QuietRead::Park
        }
    }

    pub fn write(&self) -> (r: Result<usize, LxError>)
        ensures
            r == Err::<usize, LxError>(LxError::EINVAL),
    {
        Err(LxError::EINVAL)
    }

    pub fn poll(&self) -> (s: PollStatus)
        ensures
            s == (PollStatus { read: false, write: false, error: false }),
    {
        PollStatus { read: false, write: false, error: false }
    }
}

/// A path that is watched again keeps its descriptor: a second watch on it finds the first.
pub proof fn law_same_path_same_wd(s: Map<i32, Watched>, path: Seq<char>, wd: i32, mask: u32)
    requires
        watches_path(s, wd, path),
    ensures
        watches_path(s.insert(wd, Watched { path, mask }), wd, path),
        s.insert(wd, Watched { path, mask }).dom() == s.dom(),
{
    assert(s.insert(wd, Watched { path, mask }).dom() =~= s.dom());
}

/// A descriptor that was ended is no watch's any more, and every other watch is as it was.
pub proof fn law_ended_watch_gone(s: Map<i32, Watched>, wd: i32, other: i32)
    ensures
        !s.remove(wd).contains_key(wd),
        other != wd ==> s.remove(wd).contains_key(other) == s.contains_key(other)
            && (s.contains_key(other) ==> s.remove(wd)[other] == s[other]),
{
}

/// The watches with one more, or with the mask of one replaced.
pub open spec fn with_watch(s: Map<i32, Watched>, wd: i32, path: Seq<char>, mask: u32) -> Map<
    i32,
    Watched,
> {
    s.insert(wd, Watched { path, mask })
}

/// A watch that is added has the path and the mask that were given, whatever mask the path had before;
/// every other watch stays as it is, and none is lost.
pub proof fn law_watch_as_asked(s: Map<i32, Watched>, wd: i32, path: Seq<char>, mask: u32, other: i32)
    ensures
        with_watch(s, wd, path, mask).contains_key(wd),
        with_watch(s, wd, path, mask)[wd].path == path,
        with_watch(s, wd, path, mask)[wd].mask == mask,
        other != wd ==> with_watch(s, wd, path, mask).contains_key(other) == s.contains_key(other),
        other != wd && s.contains_key(other) ==> with_watch(s, wd, path, mask)[other] == s[other],
{
}

} // verus!
