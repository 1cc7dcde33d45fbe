//! Plain file-system values shared by the device and file modules.
use vstd::prelude::*;

verus! {

#[derive(Clone, Copy, PartialEq, Eq, Structural, Debug)]
pub enum FileType {
    File,
    Dir,
    SymLink,
    CharDevice,
    BlockDevice,
    Socket,
    NamedPipe,
}

/// Readiness of a file.
#[derive(Clone, Copy, PartialEq, Eq, Structural, Debug)]
pub struct PollStatus {
    pub read: bool,
    pub write: bool,
    pub error: bool,
}

#[derive(Clone, Copy, PartialEq, Eq, Structural, Debug)]
pub struct Timespec {
    pub sec: i64,
    pub nsec: i32,
}

#[derive(Clone, Copy, PartialEq, Eq, Structural, Debug)]
pub struct Metadata {
    pub dev: usize,
    pub inode: usize,
    pub size: usize,
    pub blk_size: usize,
    pub blocks: usize,
    pub atime: Timespec,
    pub mtime: Timespec,
    pub ctime: Timespec,
    pub type_: FileType,
    pub mode: u16,
    pub nlinks: usize,
    pub uid: usize,
    pub gid: usize,
    pub rdev: usize,
}

/// What a file system says of its size.
#[derive(Clone, Copy, PartialEq, Eq, Structural, Debug)]
pub struct FsInfo {
    pub bsize: usize,
    pub frsize: usize,
    pub blocks: usize,
    pub bfree: usize,
    pub bavail: usize,
    pub files: usize,
    pub ffree: usize,
    pub namemax: usize,
}

/// The start of the epoch.
pub open spec fn epoch() -> Timespec {
    Timespec { sec: 0, nsec: 0 }
}

/// Metadata of a node without contents, owner or times.
pub open spec fn bare_node(dev: usize, inode: usize, type_: FileType, mode: u16, rdev: usize) -> Metadata {
    Metadata {
        dev,
        inode,
        size: 0,
        blk_size: 0,
        blocks: 0,
        atime: epoch(),
        mtime: epoch(),
        ctime: epoch(),
        type_,
        mode,
        nlinks: 1,
        uid: 0,
        gid: 0,
        rdev,
    }
}

pub fn node_metadata(dev: usize, inode: usize, type_: FileType, mode: u16, rdev: usize) -> (m: Metadata)
    ensures
        m == bare_node(dev, inode, type_, mode, rdev),
{
    Metadata {
        dev,
        inode,
        size: 0,
        blk_size: 0,
        blocks: 0,
        atime: Timespec { sec: 0, nsec: 0 },
        mtime: Timespec { sec: 0, nsec: 0 },
        ctime: Timespec { sec: 0, nsec: 0 },
        type_,
        mode,
        nlinks: 1,
        uid: 0,
        gid: 0,
        rdev,
    }
}

/// Whether a wait of so many seconds is over after so many nanoseconds.
pub open spec fn time_up(elapsed_ns: u64, secs: u64) -> bool {
    elapsed_ns >= secs * 1_000_000_000
}

pub fn is_time_up(elapsed_ns: u64, secs: u64) -> (up: bool)
    ensures
        up == time_up(elapsed_ns, secs),
{
    elapsed_ns as u128 >= secs as u128 * 1_000_000_000
}

/// The time is up once as many whole seconds have gone by.
pub proof fn law_whole_seconds(elapsed_ns: u64, secs: u64)
    ensures
        time_up(elapsed_ns, secs) <==> elapsed_ns / 1_000_000_000 >= secs,
{
}

/// A bare node is what it is said to be: empty, owned by root, with one name and no times.
pub proof fn law_bare_nodes(dev: usize, inode: usize, type_: FileType, mode: u16, rdev: usize)
    ensures
        ({
            let m = bare_node(dev, inode, type_, mode, rdev);
            &&& m.dev == dev && m.inode == inode && m.type_ == type_ && m.mode == mode && m.rdev == rdev
            &&& m.size == 0 && m.blk_size == 0 && m.blocks == 0
            &&& m.nlinks == 1 && m.uid == 0 && m.gid == 0
            &&& m.atime.sec == 0 && m.atime.nsec == 0
            &&& m.mtime == m.atime && m.ctime == m.atime
        }),
{
}

} // verus!
