use linux_object::dcache::{get, invalidate, put, Dcache, MAX_ENTRIES};
use linux_object::error::{FsError, LxError};
use linux_object::fcntl::FileFlags;
use linux_object::fd_desc::{drm_fd_desc, FdKind};
use linux_object::hunter_config::{bounded_size, load_list};
use linux_object::path::{
    dcache_get, dcache_invalidate, dcache_put, lookup_inode, lookup_inode_at, lookup_virtual_fs,
    split_path, FileDesc, Lookup, VirtualPath, AT_FDCWD, FOLLOW_MAX_DEPTH,
};
use linux_object::proc_self::{FdName, ProcSelfFdDir};
use linux_object::text::{
    after_last, chars_of, last_index, parse_i32, parse_u32, push_number, push_str, same_ignoring_case,
    split_all, split_once, split_words, starts_with, string_of, strip_prefix, text_is, trim,
    trim_end_matches, trim_start_matches, Sep,
};

fn c(s: &str) -> Vec<char> {
    chars_of(s)
}

fn t(v: &[char]) -> String {
    string_of(v)
}

#[test]
fn texts_are_taken_apart() {
    assert_eq!(t(&trim(&c(" \ta b\n"))), "a b");
    let all: Vec<String> = split_all(&c("a,,b"), Sep::Is(',')).iter().map(|v| t(v)).collect();
    assert_eq!(all, vec!["a", "", "b"]);
    let words: Vec<String> = split_words(&c("  a \t b "), Sep::White).iter().map(|v| t(v)).collect();
    assert_eq!(words, vec!["a", "b"]);
    let (k, v) = split_once(&c("k=v=w"), '=').unwrap();
    assert_eq!((t(&k), t(&v)), ("k".to_string(), "v=w".to_string()));
    assert!(split_once(&c("kv"), '=').is_none());
    assert_eq!(t(&trim_start_matches(&c("//a/"), '/')), "a/");
    assert_eq!(t(&trim_end_matches(&c("//a//"), '/')), "//a");
    assert_eq!(t(&strip_prefix(&c("/dev/x"), "/dev/").unwrap()), "x");
    assert!(strip_prefix(&c("/de"), "/dev/").is_none());
    assert_eq!(last_index(&c("a/b/c"), '/'), Some(3));
    assert_eq!(t(&after_last(&c("a/b/c"), '/')), "c");
    assert_eq!(t(&after_last(&c("abc"), '/')), "abc");
    assert!(starts_with(&c("abc"), "ab") && !starts_with(&c("a"), "ab"));
    assert!(text_is(&c("abc"), "abc") && !text_is(&c("abc"), "abd"));
    assert!(same_ignoring_case(&c("BootX64.EFI"), "bootx64.efi"));
}

#[test]
fn numbers_are_read_and_written() {
    assert_eq!(parse_u32(&c("4294967295")), Some(u32::MAX));
    assert_eq!(parse_u32(&c("4294967296")), None);
    assert_eq!(parse_u32(&c("")), None);
    assert_eq!(parse_u32(&c("1x")), None);
    assert_eq!(parse_i32(&c("-2147483648")), Some(i32::MIN));
    assert_eq!(parse_i32(&c("+7")), Some(7));
    assert_eq!(parse_i32(&c("-")), None);
    let mut v = c("n=");
    push_number(&mut v, 1020);
    push_str(&mut v, ";");
    assert_eq!(t(&v), "n=1020;");
}

#[test]
fn a_path_is_split_at_its_last_slash() {
    let s = |p: &str| {
        let (a, b) = split_path(p);
        (a, b)
    };
    assert_eq!(s("/usr/bin/ls"), ("/usr/bin".to_string(), "ls".to_string()));
    assert_eq!(s("/usr/bin/"), ("/usr".to_string(), "bin".to_string()));
    assert_eq!(s("/ls"), ("/".to_string(), "ls".to_string()));
    assert_eq!(s("ls"), (".".to_string(), "ls".to_string()));
}

#[test]
fn descriptors_convert() {
    assert_eq!(FileDesc::cwd(), FileDesc(AT_FDCWD));
    assert_eq!(FileDesc::from(7usize), FileDesc(7));
    assert_eq!(i32::from(FileDesc(9)), 9);
    assert_eq!(usize::from(FileDesc(9)), 9);
    assert_eq!(FileDesc::from_name("12"), Ok(FileDesc(12)));
    assert_eq!(FileDesc::from_name("x"), Err(LxError::EINVAL));
}

#[test]
fn virtual_paths_are_recognised() {
    assert!(matches!(lookup_virtual_fs("/proc/1/stat", false), Some(VirtualPath::Proc(p)) if p == "/proc/1/stat"));
    assert!(matches!(lookup_virtual_fs("/sys/", false), Some(VirtualPath::Sys(p)) if p == "/sys"));
    assert!(matches!(lookup_virtual_fs("/dev", true), Some(VirtualPath::DevRoot)));
    assert!(matches!(lookup_virtual_fs("/dev/null", true), Some(VirtualPath::Dev(p)) if p == "null"));
    assert!(lookup_virtual_fs("/dev/null", false).is_none());
    assert!(lookup_virtual_fs("/process", true).is_none());
}

#[test]
fn a_lookup_goes_where_the_path_says() {
    let mut cache = Dcache::new();
    let at = FileDesc(5);
    let go = |path: &str, follow: bool, cache: &mut Dcache| {
        lookup_inode_at(at, path, follow, "/bin/sh", true, cache).unwrap()
    };
    assert!(matches!(go("/proc/self/exe", false, &mut cache), Lookup::ExeLink));
    assert!(matches!(go("/proc/self/exe", true, &mut cache), Lookup::Root(p, n) if p == "/bin/sh" && n == FOLLOW_MAX_DEPTH));
    assert!(matches!(go("/proc/self/fd/", true, &mut cache), Lookup::FdDir));
    assert!(matches!(go("/proc/self/fd/3", true, &mut cache), Lookup::FdFile(FileDesc(3))));
    assert!(matches!(go("/proc/self/fd/3", false, &mut cache), Lookup::FdLink(FileDesc(3))));
    assert!(matches!(go("/dev/tty", false, &mut cache), Lookup::Virtual(_, 0)));
    assert!(matches!(go("a/b", true, &mut cache), Lookup::At(FileDesc(5), p, _) if p == "a/b"));
    assert!(matches!(
        lookup_inode("a/b", "/bin/sh", true, &mut cache),
        Ok(Lookup::Cwd(p, _)) if p == "a/b"
    ));
    assert!(matches!(
        lookup_inode("/proc/self/exe", "/proc/self/exe", true, &mut cache),
        Err(LxError::ELOOP)
    ));
    assert!(matches!(
        lookup_inode("/proc/self/fd/x", "", true, &mut cache),
        Err(LxError::EINVAL)
    ));
}

#[test]
fn a_remembered_path_is_found_until_something_changes() {
    let mut cache = Dcache::new();
    assert_eq!(dcache_get(&mut cache, "/a"), None);
    dcache_put(&mut cache, "/a", 11);
    dcache_put(&mut cache, "/b", 12);
    assert_eq!(dcache_get(&mut cache, "/a"), Some(11));
    assert_eq!(dcache_get(&mut cache, "/b"), Some(12));
    assert!(matches!(lookup_inode("/a", "", true, &mut cache), Ok(Lookup::Cached(11))));
    assert!(matches!(
        lookup_inode_at(FileDesc::cwd(), "/a", false, "", true, &mut cache),
        Ok(Lookup::Root(_, 0))
    ));
    dcache_invalidate(&mut cache);
    assert_eq!(dcache_get(&mut cache, "/a"), None);
}

#[test]
fn the_path_cache_stays_small() {
    let mut cache = Dcache::new();
    for i in 0..MAX_ENTRIES {
        put(&mut cache, &format!("/f{i}"), i as u64);
    }
    assert_eq!(get(&mut cache, "/f0"), Some(0));
    put(&mut cache, "/one/more", 7);
    assert_eq!(get(&mut cache, "/one/more"), Some(7));
    assert_eq!(get(&mut cache, "/f0"), None);
    invalidate(&mut cache);
    assert_eq!(get(&mut cache, "/one/more"), None);
}

#[test]
fn own_descriptors_are_listed() {
    let d = ProcSelfFdDir { process: 1 };
    let open = [9, 0, 2];
    assert_eq!(d.get_entry(0, &open).unwrap(), "0");
    assert_eq!(d.get_entry(1, &open).unwrap(), "2");
    assert_eq!(d.get_entry(2, &open).unwrap(), "9");
    assert_eq!(d.get_entry(3, &open), Err(FsError::EntryNotFound));
    assert!(matches!(d.find("2", &open), Ok(FdName::Link(2))));
    assert!(matches!(d.find(".", &open), Ok(FdName::Directory)));
    assert!(matches!(d.find("1", &open), Err(FsError::EntryNotFound)));
}

#[test]
fn policies_are_read_line_by_line() {
    assert!(load_list(b"/bin/a\xff\n", true).is_empty());
    let v = load_list(b"# head\n/bin/\n\n /usr/bin/x \n", true);
    assert_eq!(v.len(), 2);
    assert!(v[0].is_prefix && v[0].blacklist);
    assert_eq!(v[0].path, "/bin/");
    assert!(!v[1].is_prefix);
    assert_eq!(v[1].path, "/usr/bin/x");
    assert_eq!(bounded_size(10), 10);
    assert!(bounded_size(usize::MAX) < usize::MAX);
}

#[test]
fn graphics_files_are_described() {
    assert_eq!(drm_fd_desc(&FdKind::DmaBuf).as_deref(), Some("dmabuf"));
    assert_eq!(drm_fd_desc(&FdKind::Syncobj(42)).as_deref(), Some("syncobj(handle=42)"));
    let card = FdKind::File("/dev/dri/card0".to_string());
    assert_eq!(drm_fd_desc(&card).as_deref(), Some("/dev/dri/card0"));
    assert_eq!(drm_fd_desc(&FdKind::File("/dev/null".to_string())), None);
    assert_eq!(drm_fd_desc(&FdKind::Other), None);
}

#[test]
fn unknown_flags_are_dropped() {
    let f = FileFlags::from_bits_truncate(usize::MAX);
    assert!(f.bits != usize::MAX);
    assert!(f.contains(f.bits));
}
