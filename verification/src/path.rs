//! Paths: how a path splits, and where a lookup goes.
use vstd::prelude::*;
use crate::dcache;
use crate::dcache::{brought_up, remembered, Dcache, DcacheModel};
use crate::error::LxError;
use crate::text::{
    begins, chars_of, last_at, last_index, parse_i32, parsed_signed, starts_with,
    string_of, strip_prefix, text_is, trim_end_matches, without_tail,
};

verus! {

/// A file descriptor.
#[derive(Clone, Copy, PartialEq, Eq, Structural, Debug, PartialOrd, Ord, Hash)]
pub struct FileDesc(pub i32);

/// The number that stands for the working directory.
pub const AT_FDCWD: i32 = -100;

impl FileDesc {
    /// Paths are relative to the working directory.
    pub fn cwd() -> (f: FileDesc)
        ensures
            f.0 == AT_FDCWD,
    {
        FileDesc(AT_FDCWD)
    }

    /// The descriptor that a decimal name stands for.
    pub fn from_name(name: &str) -> (r: Result<FileDesc, LxError>)
        ensures
            r == named_desc(name@),
    {
        let cs = chars_of(name);
        match parse_i32(cs.as_slice()) {
            Some(x) => Ok(FileDesc(x)),
            None => Err(LxError::EINVAL),
        }
    }
}

/// The descriptor that a decimal name stands for.
pub open spec fn named_desc(name: Seq<char>) -> Result<FileDesc, LxError> {
    match parsed_signed(name) {
        Some(x) => Ok(FileDesc(x as i32)),
        None => Err(LxError::EINVAL),
    }
}

impl From<usize> for FileDesc {
    fn from(x: usize) -> (f: FileDesc) {
        #[verifier::truncate]
        let n: i32 = x as i32;
        FileDesc(n)
    }
}

impl vstd::std_specs::convert::FromSpecImpl<usize> for FileDesc {
    open spec fn obeys_from_spec() -> bool {
        true
    }

    open spec fn from_spec(x: usize) -> FileDesc {
        FileDesc(x as i32)
    }
}

impl From<i32> for FileDesc {
    fn from(x: i32) -> (f: FileDesc) {
        FileDesc(x)
    }
}

impl vstd::std_specs::convert::FromSpecImpl<i32> for FileDesc {
    open spec fn obeys_from_spec() -> bool {
        true
    }

    open spec fn from_spec(x: i32) -> FileDesc {
        FileDesc(x)
    }
}

impl From<FileDesc> for usize {
    fn from(f: FileDesc) -> (n: usize) {
        #[verifier::truncate]
        let n: usize = f.0 as usize;
        n
    }
}

impl vstd::std_specs::convert::FromSpecImpl<FileDesc> for usize {
    open spec fn obeys_from_spec() -> bool {
        true
    }

    open spec fn from_spec(f: FileDesc) -> usize {
        f.0 as usize
    }
}

impl From<FileDesc> for i32 {
    fn from(f: FileDesc) -> (n: i32) {
        f.0
    }
}

impl vstd::std_specs::convert::FromSpecImpl<FileDesc> for i32 {
    open spec fn obeys_from_spec() -> bool {
        true
    }

    open spec fn from_spec(f: FileDesc) -> i32 {
        f.0
    }
}

/// The directory part of a path and its last component. Slashes at the end do not count; a path
/// without any other is in the current directory.
pub open spec fn split_parts(path: Seq<char>) -> (Seq<char>, Seq<char>) {
    let p = without_tail(path, '/');
    let i = last_at(p, '/', p.len() as int);
    if i < 0 {
        ("."@, p)
    } else if i == 0 {
        ("/"@, p.skip(1))
    } else {
        (p.take(i), p.skip(i + 1))
    }
}

/// Splits a path into its directory part and its last component.
pub fn split_path(path: &str) -> (r: (String, String))
    ensures
        (r.0@, r.1@) == split_parts(path@),
{
    let p = trim_end_matches(chars_of(path).as_slice(), '/');
    let n: usize = p.len();
    match last_index(p.as_slice(), '/') {
        None => ((".").to_owned(), string_of(p.as_slice())),
        Some(i) => {
            let name: &[char] = &p.as_slice()[i + 1..n];
            assert(name@ =~= p@.skip(i + 1));
            if i == 0 {
                (("/").to_owned(), string_of(name))
            } else {
                let dir: &[char] = &p.as_slice()[0..i];
                assert(dir@ =~= p@.take(i as int));
                (string_of(dir), string_of(name))
            }
        },
    }
}

/// How many symbolic links one lookup follows.
pub const FOLLOW_MAX_DEPTH: usize = 40;

/// A place that a virtual file system serves.
pub enum VirtualPath {
    /// Under `/proc`, with the whole path.
    Proc(String),
    /// Under `/sys`, with the whole path.
    Sys(String),
    /// `/dev` itself.
    DevRoot,
    /// Under `/dev`, with the path below it.
    Dev(String),
}

/// A place that a virtual file system serves, mathematically.
#[verifier::ext_equal]
pub enum VirtualPlace {
    Proc(Seq<char>),
    Sys(Seq<char>),
    DevRoot,
    Dev(Seq<char>),
}

impl View for VirtualPath {
    type V = VirtualPlace;

    open spec fn view(&self) -> VirtualPlace {
        match self {
            VirtualPath::Proc(p) => VirtualPlace::Proc(p@),
            VirtualPath::Sys(p) => VirtualPlace::Sys(p@),
            VirtualPath::DevRoot => VirtualPlace::DevRoot,
            VirtualPath::Dev(p) => VirtualPlace::Dev(p@),
        }
    }
}

/// Which virtual file system serves a path; `/dev` only once there is one.
pub open spec fn virtual_place(path: Seq<char>, has_dev: bool) -> Option<VirtualPlace> {
    let p = without_tail(path, '/');
    if p == "/proc"@ || begins(p, "/proc/"@) {
        Some(VirtualPlace::Proc(p))
    } else if p == "/sys"@ || begins(p, "/sys/"@) {
        Some(VirtualPlace::Sys(p))
    } else if !has_dev {
        None
    } else if p == "/dev"@ {
        Some(VirtualPlace::DevRoot)
    } else if begins(p, "/dev/"@) {
        Some(VirtualPlace::Dev(p.skip("/dev/"@.len() as int)))
    } else {
        None
    }
}

/// Which virtual file system serves a path.
pub fn lookup_virtual_fs(path: &str, has_dev: bool) -> (r: Option<VirtualPath>)
    ensures
        match r {
            Some(v) => virtual_place(path@, has_dev) == Some(v@),
            None => virtual_place(path@, has_dev) is None,
        },
{
    let p = trim_end_matches(chars_of(path).as_slice(), '/');
    if text_is(p.as_slice(), "/proc") || starts_with(p.as_slice(), "/proc/") {
        return Some(VirtualPath::Proc(string_of(p.as_slice())));
    }
    if text_is(p.as_slice(), "/sys") || starts_with(p.as_slice(), "/sys/") {
        return Some(VirtualPath::Sys(string_of(p.as_slice())));
    }
    if !has_dev {
        return None;
    }
    if text_is(p.as_slice(), "/dev") {
        return Some(VirtualPath::DevRoot);
    }
    match strip_prefix(p.as_slice(), "/dev/") {
        Some(rest) => Some(VirtualPath::Dev(string_of(rest.as_slice()))),
        None => None,
    }
}

/// Where a lookup goes.
pub enum Lookup {
    /// A symbolic link to the executable.
    ExeLink,
    /// The directory of the caller's descriptors.
    FdDir,
    /// The file behind a descriptor.
    FdFile(FileDesc),
    /// A symbolic link to the path of the file behind a descriptor.
    FdLink(FileDesc),
    /// A virtual file system, following so many links.
    Virtual(VirtualPath, usize),
    /// The inode remembered for the path.
    Cached(u64),
    /// From the root, following so many links; the result is to be remembered where a lookup
    /// that follows links found it.
    Root(String, usize),
    /// From the working directory.
    Cwd(String, usize),
    /// From the directory of a descriptor.
    At(FileDesc, String, usize),
}

/// Where a lookup goes, mathematically.
#[verifier::ext_equal]
pub enum Route {
    ExeLink,
    FdDir,
    FdFile(FileDesc),
    FdLink(FileDesc),
    Virtual(VirtualPlace, usize),
    Cached(u64),
    Root(Seq<char>, usize),
    Cwd(Seq<char>, usize),
    At(FileDesc, Seq<char>, usize),
}

impl View for Lookup {
    type V = Route;

    open spec fn view(&self) -> Route {
        match self {
            Lookup::ExeLink => Route::ExeLink,
            Lookup::FdDir => Route::FdDir,
            Lookup::FdFile(f) => Route::FdFile(*f),
            Lookup::FdLink(f) => Route::FdLink(*f),
            Lookup::Virtual(v, n) => Route::Virtual(v@, *n),
            Lookup::Cached(i) => Route::Cached(*i),
            Lookup::Root(p, n) => Route::Root(p@, *n),
            Lookup::Cwd(p, n) => Route::Cwd(p@, *n),
            Lookup::At(f, p, n) => Route::At(*f, p@, *n),
        }
    }
}

/// How many links a lookup follows.
pub open spec fn follow_depth(follow: bool) -> usize {
    if follow {
        FOLLOW_MAX_DEPTH
    } else {
        0
    }
}

/// The link to the caller's own executable.
pub open spec fn is_exe_link(path: Seq<char>) -> bool {
    path == "/proc/self/exe"@
}

/// Where a lookup of anything but the link to the executable goes.
pub open spec fn plain_route(
    dirfd: FileDesc,
    path: Seq<char>,
    follow: bool,
    has_dev: bool,
    cache: DcacheModel,
) -> Result<Route, LxError> {
    let depth = follow_depth(follow);
    if path == "/proc/self/fd"@ || path == "/proc/self/fd/"@ {
        Ok(Route::FdDir)
    } else if split_parts(path).0 == "/proc/self/fd"@ {
        match named_desc(split_parts(path).1) {
            Ok(fd) => if follow {
                Ok(Route::FdFile(fd))
            } else {
                Ok(Route::FdLink(fd))
            },
            Err(e) => Err(e),
        }
    } else if path.len() > 0 && path[0] == '/' {
        match virtual_place(path, has_dev) {
            Some(v) => Ok(Route::Virtual(v, depth)),
            None => match remembered(cache, path) {
                Some(inode) => if follow {
                    Ok(Route::Cached(inode))
                } else {
                    Ok(Route::Root(path, depth))
                },
                None => Ok(Route::Root(path, depth)),
            },
        }
    } else if dirfd.0 == AT_FDCWD {
        Ok(Route::Cwd(path, depth))
    } else {
        Ok(Route::At(dirfd, path, depth))
    }
}

/// Where a lookup goes. The link to the executable is followed to it once; an executable that is
/// itself that link, or none, is a loop.
pub open spec fn route(
    dirfd: FileDesc,
    path: Seq<char>,
    follow: bool,
    exe: Seq<char>,
    has_dev: bool,
    cache: DcacheModel,
) -> Result<Route, LxError> {
    if is_exe_link(path) {
        if !follow {
            Ok(Route::ExeLink)
        } else if exe.len() == 0 || is_exe_link(exe) {
            Err(LxError::ELOOP)
        } else {
            plain_route(FileDesc(AT_FDCWD), exe, true, has_dev, cache)
        }
    } else {
        plain_route(dirfd, path, follow, has_dev, cache)
    }
}

/// Whether a lookup consults the path cache.
pub open spec fn consults(path: Seq<char>, follow: bool, has_dev: bool) -> bool {
    &&& follow
    &&& path != "/proc/self/fd"@ && path != "/proc/self/fd/"@
    &&& split_parts(path).0 != "/proc/self/fd"@
    &&& path.len() > 0 && path[0] == '/'
    &&& virtual_place(path, has_dev) is None
}

/// The path cache after a lookup looked into it, or did not.
pub open spec fn cache_after(
    path: Seq<char>,
    follow: bool,
    exe: Seq<char>,
    has_dev: bool,
    cache: DcacheModel,
) -> DcacheModel {
    let p = if is_exe_link(path) {
        exe
    } else {
        path
    };
    if is_exe_link(path) && (!follow || exe.len() == 0 || is_exe_link(exe)) {
        cache
    } else if consults(p, follow, has_dev) {
        brought_up(cache)
    } else {
        cache
    }
}

fn plain_lookup(
    dirfd: FileDesc,
    path: &str,
    follow: bool,
    has_dev: bool,
    cache: &mut Dcache,
) -> (r: Result<Lookup, LxError>)
    ensures
        match r {
            Ok(l) => plain_route(dirfd, path@, follow, has_dev, old(cache)@) == Ok::<
                Route,
                LxError,
            >(l@),
            Err(e) => plain_route(dirfd, path@, follow, has_dev, old(cache)@) == Err::<
                Route,
                LxError,
            >(e),
        },
        final(cache)@ == (if consults(path@, follow, has_dev) {
            brought_up(old(cache)@)
        } else {
            old(cache)@
        }),
{
    let cs = chars_of(path);
    if text_is(cs.as_slice(), "/proc/self/fd") || text_is(cs.as_slice(), "/proc/self/fd/") {
        return Ok(Lookup::FdDir);
    }
    let (dir, name) = split_path(path);
    if text_is(chars_of(dir.as_str()).as_slice(), "/proc/self/fd") {
        return match FileDesc::from_name(name.as_str()) {
            Ok(fd) => {
                if follow {
                    Ok(Lookup::FdFile(fd))
                } else {
                    Ok(Lookup::FdLink(fd))
                }
            },
            Err(e) => Err(e),
        };
    }
    let depth: usize = if follow {
        FOLLOW_MAX_DEPTH
    } else {
        0
    };
    if cs.len() > 0 && cs[0] == '/' {
        match lookup_virtual_fs(path, has_dev) {
            Some(v) => {
                return Ok(Lookup::Virtual(v, depth));
            },
            None => {},
        }
        if follow {
            match dcache_get(cache, path) {
                Some(inode) => {
                    return Ok(Lookup::Cached(inode));
                },
                None => {},
            }
        }
        return Ok(Lookup::Root(path.to_owned(), depth));
    }
    if dirfd.0 == AT_FDCWD {
        Ok(Lookup::Cwd(path.to_owned(), depth))
    } else {
        Ok(Lookup::At(dirfd, path.to_owned(), depth))
    }
}

/// Decides where a lookup goes: `exe` is the path of the caller's executable, `has_dev` says
/// whether there is a device file system yet.
pub fn lookup_inode_at(
    dirfd: FileDesc,
    path: &str,
    follow: bool,
    exe: &str,
    has_dev: bool,
    cache: &mut Dcache,
) -> (r: Result<Lookup, LxError>)
    ensures
        match r {
            Ok(l) => route(dirfd, path@, follow, exe@, has_dev, old(cache)@) == Ok::<
                Route,
                LxError,
            >(l@),
            Err(e) => route(dirfd, path@, follow, exe@, has_dev, old(cache)@) == Err::<
                Route,
                LxError,
            >(e),
        },
        final(cache)@ == cache_after(path@, follow, exe@, has_dev, old(cache)@),
{
    let cs = chars_of(path);
    if text_is(cs.as_slice(), "/proc/self/exe") {
        if !follow {
            return Ok(Lookup::ExeLink);
        }
        let e = chars_of(exe);
        if e.len() == 0 || text_is(e.as_slice(), "/proc/self/exe") {
            return Err(LxError::ELOOP);
        }
        return plain_lookup(FileDesc::cwd(), exe, true, has_dev, cache);
    }
    plain_lookup(dirfd, path, follow, has_dev, cache)
}

/// Where a lookup from the working directory that follows links goes.
pub fn lookup_inode(path: &str, exe: &str, has_dev: bool, cache: &mut Dcache) -> (r: Result<
    Lookup,
    LxError,
>)
    ensures
        match r {
            Ok(l) => route(FileDesc(AT_FDCWD), path@, true, exe@, has_dev, old(cache)@) == Ok::<
                Route,
                LxError,
            >(l@),
            Err(e) => route(FileDesc(AT_FDCWD), path@, true, exe@, has_dev, old(cache)@) == Err::<
                Route,
                LxError,
            >(e),
        },
        final(cache)@ == cache_after(path@, true, exe@, has_dev, old(cache)@),
{
    lookup_inode_at(FileDesc::cwd(), path, true, exe, has_dev, cache)
}

/// Forgets every remembered path: something was created, removed, renamed or mounted.
pub fn dcache_invalidate(c: &mut Dcache)
    ensures
        final(c)@ == (DcacheModel { epoch: crate::dcache::next_epoch(old(c)@.epoch), ..old(c)@ }),
{
    dcache::invalidate(c);
}

/// The inode remembered for a path.
pub fn dcache_get(c: &mut Dcache, path: &str) -> (r: Option<u64>)
    ensures
        r == remembered(old(c)@, path@),
        final(c)@ == brought_up(old(c)@),
{
    dcache::get(c, path)
}

/// Remembers what a lookup that followed links found for a path.
pub fn dcache_put(c: &mut Dcache, path: &str, inode: u64)
    ensures
        final(c)@ == crate::dcache::with_path(old(c)@, path@, inode),
{
    dcache::put(c, path, inode);
}

/// The two parts of an absolute path below the root put together give the path back, but for
/// slashes at its end.
pub proof fn law_split_rejoins(path: Seq<char>)
    requires
        last_at(without_tail(path, '/'), '/', without_tail(path, '/').len() as int) > 0,
    ensures
        split_parts(path).0.push('/') + split_parts(path).1 == without_tail(path, '/'),
{
    let p = without_tail(path, '/');
    let i = last_at(p, '/', p.len() as int);
    crate::text::lemma_last_at(p, '/', p.len() as int);
    assert(p.take(i).push('/') + p.skip(i + 1) =~= p);
}

/// The last component of a path has no slash in it.
pub proof fn law_name_has_no_slash(path: Seq<char>, k: int)
    requires
        0 <= k < split_parts(path).1.len(),
    ensures
        split_parts(path).1[k] != '/',
{
    let p = without_tail(path, '/');
    let i = last_at(p, '/', p.len() as int);
    crate::text::lemma_last_at(p, '/', p.len() as int);
    if i < 0 {
        assert(p[k] != '/');
    } else {
        assert(p[i + 1 + k] != '/');
    }
}

/// Following the link to the executable never leads back to it, whatever the executable is.
pub proof fn law_exe_link_terminates(
    dirfd: FileDesc,
    exe: Seq<char>,
    has_dev: bool,
    cache: DcacheModel,
)
    ensures
        route(dirfd, "/proc/self/exe"@, true, exe, has_dev, cache) != Ok::<Route, LxError>(
            Route::ExeLink,
        ),
        is_exe_link(exe) || exe.len() == 0 ==> route(
            dirfd,
            "/proc/self/exe"@,
            true,
            exe,
            has_dev,
            cache,
        ) == Err::<Route, LxError>(LxError::ELOOP),
{
}

/// An absolute path leads to the same place from every directory.
pub proof fn law_absolute_ignores_dirfd(
    a: FileDesc,
    b: FileDesc,
    path: Seq<char>,
    follow: bool,
    exe: Seq<char>,
    has_dev: bool,
    cache: DcacheModel,
)
    requires
        path.len() > 0,
        path[0] == '/',
    ensures
        route(a, path, follow, exe, has_dev, cache) == route(b, path, follow, exe, has_dev, cache),
{
}

/// Whatever place a lookup starts from, it follows as many links as may be followed where it follows
/// links at all, and none where it does not.
pub proof fn law_links_followed(
    dirfd: FileDesc,
    path: Seq<char>,
    follow: bool,
    exe: Seq<char>,
    has_dev: bool,
    cache: DcacheModel,
)
    ensures
        ({
            let n: usize = if follow { 40 } else { 0 };
            match route(dirfd, path, follow, exe, has_dev, cache) {
                Ok(Route::Virtual(_, k)) => k == n,
                Ok(Route::Root(_, k)) => k == n,
                Ok(Route::Cwd(_, k)) => k == n,
                Ok(Route::At(_, _, k)) => k == n,
                Ok(Route::Cached(_)) => follow,
                Ok(Route::FdFile(_)) => follow,
                Ok(Route::FdLink(_)) => !follow,
                Ok(Route::ExeLink) => !follow,
                _ => true,
            }
        }),
{
}

/// A relative path is looked up, as it is, from the directory of the descriptor, which is the working
/// directory where it stands for it; an absolute one never is.
pub proof fn law_relative_from_directory(
    dirfd: FileDesc,
    path: Seq<char>,
    follow: bool,
    exe: Seq<char>,
    has_dev: bool,
    cache: DcacheModel,
)
    requires
        path.len() == 0 || path[0] != '/',
        split_parts(path).0 != "/proc/self/fd"@,
    ensures
        route(dirfd, path, follow, exe, has_dev, cache) is Ok,
        dirfd.0 == -100 ==> (route(dirfd, path, follow, exe, has_dev, cache)->Ok_0 matches Route::Cwd(
            p,
            _,
        ) && p == path),
        dirfd.0 != -100 ==> (route(dirfd, path, follow, exe, has_dev, cache)->Ok_0 matches Route::At(
            d,
            p,
            _,
        ) && d == dirfd && p == path),
{
    reveal_strlit("/proc/self/exe");
    reveal_strlit("/proc/self/fd");
    reveal_strlit("/proc/self/fd/");
}

/// An absolute path outside the virtual file systems is looked up from the root, as it is, or is the
/// inode that is remembered for it, which is taken only where links are followed.
pub proof fn law_absolute_from_root(
    dirfd: FileDesc,
    path: Seq<char>,
    follow: bool,
    exe: Seq<char>,
    has_dev: bool,
    cache: DcacheModel,
)
    requires
        path.len() > 0,
        path[0] == '/',
        !is_exe_link(path),
        path != "/proc/self/fd"@,
        path != "/proc/self/fd/"@,
        split_parts(path).0 != "/proc/self/fd"@,
        virtual_place(path, has_dev) is None,
    ensures
        match route(dirfd, path, follow, exe, has_dev, cache) {
            Ok(Route::Root(p, _)) => p == path && (follow ==> remembered(cache, path) is None),
            Ok(Route::Cached(i)) => follow && remembered(cache, path) == Some(i),
            _ => false,
        },
{
}

/// The virtual file systems serve their own trees and nothing that only begins alike: a path is served
/// exactly where it is the root of a tree or goes on below it, and without its slashes at the end.
pub proof fn law_virtual_trees(path: Seq<char>, has_dev: bool)
    ensures
        ({
            let p = without_tail(path, '/');
            let under = |t: Seq<char>|
                p.len() >= t.len() && p.take(t.len() as int) == t && (p.len() == t.len() || p[t.len() as int]
                    == '/');
            &&& virtual_place(path, has_dev) is Some <==> under("/proc"@) || under("/sys"@) || (has_dev
                && under("/dev"@))
            &&& virtual_place(path, has_dev) matches Some(VirtualPlace::Proc(q)) ==> q == p && under(
                "/proc"@,
            )
            &&& virtual_place(path, has_dev) matches Some(VirtualPlace::Sys(q)) ==> q == p && under(
                "/sys"@,
            )
            &&& virtual_place(path, has_dev) matches Some(VirtualPlace::Dev(q)) ==> has_dev && p
                == "/dev/"@ + q
            &&& virtual_place(path, has_dev) matches Some(VirtualPlace::DevRoot) ==> has_dev && p
                == "/dev"@
        }),
{
    let p = without_tail(path, '/');
    reveal_strlit("/proc");
    reveal_strlit("/proc/");
    reveal_strlit("/sys");
    reveal_strlit("/sys/");
    reveal_strlit("/dev");
    reveal_strlit("/dev/");
    assert("/proc/"@ =~= "/proc"@.push('/'));
    assert("/sys/"@ =~= "/sys"@.push('/'));
    assert("/dev/"@ =~= "/dev"@.push('/'));
    lemma_under(p, "/proc"@, "/proc/"@);
    lemma_under(p, "/sys"@, "/sys/"@);
    lemma_under(p, "/dev"@, "/dev/"@);
    assert("/proc"@[1] != "/sys"@[1] && "/proc"@[1] != "/dev"@[1] && "/sys"@[1] != "/dev"@[1]);
    if begins(p, "/dev/"@) {
        assert(p =~= "/dev/"@ + p.skip("/dev/"@.len() as int));
    }
}

proof fn lemma_under(p: Seq<char>, t: Seq<char>, below: Seq<char>)
    requires
        below == t.push('/'),
    ensures
        (p == t || begins(p, below)) <==> p.len() >= t.len() && p.take(t.len() as int) == t && (p.len()
            == t.len() || p[t.len() as int] == '/'),
{
    if begins(p, below) {
        assert(p.take(t.len() as int) =~= t);
        assert(p[t.len() as int] == below[t.len() as int]);
    }
    if p.len() >= t.len() && p.take(t.len() as int) == t {
        if p.len() == t.len() {
            assert(p =~= t);
        } else if p[t.len() as int] == '/' {
            assert(p.take(below.len() as int) =~= below);
        }
    }
    if p == t {
        assert(p.take(t.len() as int) =~= t);
    }
}

/// The caller's own descriptors by name: following gives the file behind one, not following the link
/// to it; a name that is no number is refused.
pub proof fn law_own_descriptors(
    dirfd: FileDesc,
    path: Seq<char>,
    follow: bool,
    exe: Seq<char>,
    has_dev: bool,
    cache: DcacheModel,
)
    requires
        !is_exe_link(path),
        path != "/proc/self/fd"@,
        path != "/proc/self/fd/"@,
        split_parts(path).0 == "/proc/self/fd"@,
    ensures
        match route(dirfd, path, follow, exe, has_dev, cache) {
            Ok(Route::FdFile(d)) => follow && parsed_signed(split_parts(path).1) == Some(d.0 as int),
            Ok(Route::FdLink(d)) => !follow && parsed_signed(split_parts(path).1) == Some(d.0 as int),
            Err(e) => e == LxError::EINVAL && parsed_signed(split_parts(path).1) is None,
            _ => false,
        },
{
    crate::text::lemma_signed_range(split_parts(path).1);
}

/// A lookup that does not look into the path cache goes the same way whatever the cache holds. It
/// looks there only for the links of a path from the root, and never for a path of a virtual file
/// system.
pub proof fn law_cache_not_asked(
    dirfd: FileDesc,
    path: Seq<char>,
    follow: bool,
    has_dev: bool,
    a: DcacheModel,
    b: DcacheModel,
)
    ensures
        !consults(path, follow, has_dev) ==> plain_route(dirfd, path, follow, has_dev, a)
            == plain_route(dirfd, path, follow, has_dev, b),
        !follow ==> !consults(path, follow, has_dev),
        path.len() == 0 || path[0] != '/' ==> !consults(path, follow, has_dev),
        virtual_place(path, has_dev) is Some ==> !consults(path, follow, has_dev),
        follow && path.len() > 0 && path[0] == '/' && virtual_place(path, has_dev) is None
            && split_parts(path).0 != "/proc/self/fd"@ && path != "/proc/self/fd"@ && path
            != "/proc/self/fd/"@ ==> consults(path, follow, has_dev),
{
}

/// The path cache changes in a lookup only by dropping what has become stale, and stays as it is
/// where links are not followed. A lookup of the running program's link does to it what a lookup of
/// the program does.
pub proof fn law_cache_brought_up(
    path: Seq<char>,
    follow: bool,
    exe: Seq<char>,
    has_dev: bool,
    cache: DcacheModel,
)
    ensures
        cache_after(path, follow, exe, has_dev, cache) == cache || cache_after(
            path,
            follow,
            exe,
            has_dev,
            cache,
        ) == brought_up(cache),
        !follow ==> cache_after(path, follow, exe, has_dev, cache) == cache,
        path != "/proc/self/exe"@ && !consults(path, follow, has_dev) ==> cache_after(
            path,
            follow,
            exe,
            has_dev,
            cache,
        ) == cache,
        path != "/proc/self/exe"@ && consults(path, follow, has_dev) ==> cache_after(
            path,
            follow,
            exe,
            has_dev,
            cache,
        ) == brought_up(cache),
        path == "/proc/self/exe"@ && exe.len() > 0 && exe != "/proc/self/exe"@ ==> cache_after(
            path,
            follow,
            exe,
            has_dev,
            cache,
        ) == cache_after(exe, follow, exe, has_dev, cache),
        path == "/proc/self/exe"@ && exe.len() == 0 ==> cache_after(path, follow, exe, has_dev, cache)
            == cache,
{
}

} // verus!
