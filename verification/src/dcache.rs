//! The cache of resolved paths.
//!
//! Every change of the file namespace starts a new epoch; what was remembered in an older one is
//! forgotten before the next use.
use vstd::prelude::*;

verus! {

/// How many paths are remembered at most.
pub const MAX_ENTRIES: usize = 4096;

/// Inodes by path.
#[verifier::external_body]
pub struct PathMap {
    map: hashbrown::HashMap<String, u64>,
}

/// What a map of paths holds.
pub uninterp spec fn paths_of(m: PathMap) -> Map<Seq<char>, u64>;

impl PathMap {
    /// `hashbrown::HashMap::new`: a map without entries.
    #[verifier::external_body]
    fn empty() -> (m: PathMap)
        ensures
            paths_of(m).dom() == Set::<Seq<char>>::empty(),
    {
        PathMap { map: hashbrown::HashMap::new() }
    }

    /// `hashbrown::HashMap::clear`: drops every entry.
    #[verifier::external_body]
    fn clear(&mut self)
        ensures
            paths_of(*final(self)).dom() == Set::<Seq<char>>::empty(),
    {
        self.map.clear();
    }

    /// `hashbrown::HashMap::get`: the inode of a path, where there is an entry for it.
    #[verifier::external_body]
    fn get(&self, path: &str) -> (r: Option<u64>)
        ensures
            r == if paths_of(*self).contains_key(path@) {
                Some(paths_of(*self)[path@])
            } else {
                None
            },
    {
        self.map.get(path).copied()
    }

    /// `hashbrown::HashMap::len`: how many entries there are.
    #[verifier::external_body]
    fn len(&self) -> (n: usize)
        ensures
            n == paths_of(*self).dom().len(),
    {
        self.map.len()
    }

    /// `hashbrown::HashMap::insert`: sets the entry of a path.
    #[verifier::external_body]
    fn insert(&mut self, path: String, inode: u64)
        ensures
            paths_of(*final(self)) == paths_of(*old(self)).insert(path@, inode),
    {
        self.map.insert(path, inode);
    }
}

/// The cache: the current epoch, and paths that belong to some epoch.
pub struct Dcache {
    epoch: u64,
    filled: u64,
    map: PathMap,
}

/// The cache, mathematically.
#[verifier::ext_equal]
pub struct DcacheModel {
    pub epoch: u64,
    pub filled: u64,
    pub paths: Map<Seq<char>, u64>,
}

impl View for Dcache {
    type V = DcacheModel;

    closed spec fn view(&self) -> DcacheModel {
        DcacheModel { epoch: self.epoch, filled: self.filled, paths: paths_of(self.map) }
    }
}

/// What is remembered of the current epoch.
pub open spec fn valid_paths(m: DcacheModel) -> Map<Seq<char>, u64> {
    if m.filled == m.epoch {
        m.paths
    } else {
        Map::empty()
    }
}

/// The cache never holds more than its bound.
pub open spec fn within_bound(m: DcacheModel) -> bool {
    m.paths.dom().finite() && m.paths.dom().len() <= MAX_ENTRIES
}

/// The inode remembered for a path.
pub open spec fn remembered(m: DcacheModel, path: Seq<char>) -> Option<u64> {
    if valid_paths(m).contains_key(path) {
        Some(valid_paths(m)[path])
    } else {
        None
    }
}

/// The cache after it was brought to the current epoch.
pub open spec fn brought_up(m: DcacheModel) -> DcacheModel {
    DcacheModel { filled: m.epoch, paths: valid_paths(m), ..m }
}

/// The cache after a path was remembered; a full cache is emptied first.
pub open spec fn with_path(m: DcacheModel, path: Seq<char>, inode: u64) -> DcacheModel {
    let base = if valid_paths(m).dom().len() >= MAX_ENTRIES {
        Map::empty()
    } else {
        valid_paths(m)
    };
    DcacheModel { filled: m.epoch, paths: base.insert(path, inode), ..m }
}

impl Dcache {
    pub fn new() -> (c: Self)
        ensures
            c@.epoch == 0,
            c@.filled == 0,
            c@.paths == Map::<Seq<char>, u64>::empty(),
            within_bound(c@),
    {
        let c = Dcache { epoch: 0, filled: 0, map: PathMap::empty() };
        assert(c@.paths =~= Map::<Seq<char>, u64>::empty());
        c
    }

    fn bring_up(&mut self)
        ensures
            final(self)@ == brought_up(old(self)@),
    {
        if self.filled != self.epoch {
            self.map.clear();
            self.filled = self.epoch;
        }
        assert(self@.paths =~= valid_paths(old(self)@));
    }
}

/// The epoch after an epoch.
pub open spec fn next_epoch(e: u64) -> u64 {
    if e == u64::MAX {
        0
    } else {
        (e + 1) as u64
    }
}

/// Forgets every path: the namespace changed.
pub fn invalidate(c: &mut Dcache)
    ensures
        final(c)@ == (DcacheModel { epoch: next_epoch(old(c)@.epoch), ..old(c)@ }),
{
    c.epoch = c.epoch.wrapping_add(1);
}

/// The inode remembered for a path.
pub fn get(c: &mut Dcache, path: &str) -> (r: Option<u64>)
    ensures
        r == remembered(old(c)@, path@),
        final(c)@ == brought_up(old(c)@),
{
    c.bring_up();
    c.map.get(path)
}

/// Remembers the inode of a path.
pub fn put(c: &mut Dcache, path: &str, inode: u64)
    ensures
        final(c)@ == with_path(old(c)@, path@, inode),
{
    c.bring_up();
    if c.map.len() >= MAX_ENTRIES {
        c.map.clear();
        assert(paths_of(c.map) =~= Map::<Seq<char>, u64>::empty());
    }
    c.map.insert(path.to_owned(), inode);
}

/// What is remembered is found again, and other paths are as they were unless the cache was full.
pub proof fn law_put_then_get(m: DcacheModel, path: Seq<char>, inode: u64, other: Seq<char>)
    ensures
        remembered(with_path(m, path, inode), path) == Some(inode),
        other != path && valid_paths(m).dom().len() < MAX_ENTRIES ==> remembered(
            with_path(m, path, inode),
            other,
        ) == remembered(m, other),
{
}

/// No path outlives a change of the namespace.
pub proof fn law_invalidate_forgets_all(m: DcacheModel, path: Seq<char>)
    requires
        m.filled == m.epoch,
    ensures
        remembered(DcacheModel { epoch: next_epoch(m.epoch), ..m }, path) is None,
{
}

/// The cache stays within its bound.
pub proof fn law_bound_kept(m: DcacheModel, path: Seq<char>, inode: u64)
    requires
        within_bound(m),
    ensures
        within_bound(brought_up(m)),
        within_bound(with_path(m, path, inode)),
{
    broadcast use vstd::set::group_set_axioms;

    let v = valid_paths(m);
    assert(v.dom().finite());
    let base = if v.dom().len() >= MAX_ENTRIES {
        Map::<Seq<char>, u64>::empty()
    } else {
        v
    };
    assert(base.insert(path, inode).dom() =~= base.dom().insert(path));
}

/// A path is remembered as it was put since the last change of the tree, and nothing put before that
/// change is.
pub proof fn law_remembered_since_change(m: DcacheModel, path: Seq<char>)
    ensures
        m.filled != m.epoch ==> remembered(m, path) is None,
        m.filled == m.epoch && m.paths.contains_key(path) ==> remembered(m, path) == Some(
            m.paths[path],
        ),
        m.filled == m.epoch && !m.paths.contains_key(path) ==> remembered(m, path) is None,
{
}

/// To look changes nothing of what is remembered, nor does it say that the tree changed.
pub proof fn law_looking_keeps(m: DcacheModel, path: Seq<char>)
    ensures
        remembered(brought_up(m), path) == remembered(m, path),
        brought_up(m).epoch == m.epoch,
{
}

/// What is put into a full cache is all that is remembered then.
pub proof fn law_full_cache_starts_over(m: DcacheModel, path: Seq<char>, inode: u64, other: Seq<char>)
    requires
        m.filled == m.epoch,
        m.paths.dom().len() >= 4096,
        other != path,
    ensures
        remembered(with_path(m, path, inode), other) is None,
        remembered(with_path(m, path, inode), path) == Some(inode),
        with_path(m, path, inode).epoch == m.epoch,
{
}

/// Each change of the tree is told from the one before.
pub proof fn law_changes_told_apart(e: u64)
    ensures
        next_epoch(e) != e,
        e < u64::MAX ==> next_epoch(e) == e + 1,
{
}

} // verus!
