//! The table of file systems to mount after the boot.
use vstd::prelude::*;
use crate::boot_root::{efi_dev_from_root_cmdline, efi_of};
use crate::mount_state::{
    build_options_string, options_text, MountState, MS_NODEV, MS_NOEXEC, MS_NOSUID, MS_RDONLY,
};
use crate::mount_table::{Mount, MountTable};
use crate::text::{
    begins, chars_of, copy_text, file_lines, lines_of, split_all, split_at_all, split_words, starts_with, string_of,
    text_is, texts, trim, trim_start_matches, trimmed, without_head, words, Sep,
};

verus! {

/// The fields of a line: none for a blank line, a comment, or one with fewer than three.
pub open spec fn fields(line: Seq<char>) -> Option<Seq<Seq<char>>> {
    let t = trimmed(line);
    if t.len() == 0 || t[0] == '#' || words(t, Sep::White).len() < 3 {
        None
    } else {
        Some(words(t, Sep::White))
    }
}

fn line_fields(line: &[char]) -> (r: Option<Vec<Vec<char>>>)
    ensures
        match r {
            Some(v) => fields(line@) == Some(texts(v@)) && v@.len() >= 3,
            None => fields(line@) is None,
        },
{
    let t = trim(line);
    if t.len() == 0 || t[0] == '#' {
        return None;
    }
    let parts = split_words(t.as_slice(), Sep::White);
    assert(texts(parts@).len() == parts@.len());
    if parts.len() < 3 {
        return None;
    }
    Some(parts)
}

/// A mount that the table asks for, mathematically.
#[verifier::ext_equal]
pub struct Wanted {
    /// The path of the device, without slashes at its start.
    pub lookup: Seq<char>,
    /// The source to list.
    pub source: Seq<char>,
    pub target: Seq<char>,
    pub fstype: Seq<char>,
    pub options: Seq<char>,
    pub flags: usize,
}

/// A mount that the table asks for.
pub struct FstabMount {
    pub lookup: String,
    pub source: String,
    pub target: String,
    pub fstype: String,
    pub options: String,
    pub flags: usize,
}

impl View for FstabMount {
    type V = Wanted;

    open spec fn view(&self) -> Wanted {
        Wanted {
            lookup: self.lookup@,
            source: self.source@,
            target: self.target@,
            fstype: self.fstype@,
            options: self.options@,
            flags: self.flags,
        }
    }
}

/// The flags after one more option.
pub open spec fn flag_step(flags: usize, option: Seq<char>) -> usize {
    let o = trimmed(option);
    if o == "ro"@ {
        flags | MS_RDONLY
    } else if o == "rw"@ {
        flags & !MS_RDONLY
    } else if o == "nosuid"@ {
        flags | MS_NOSUID
    } else if o == "nodev"@ {
        flags | MS_NODEV
    } else if o == "noexec"@ {
        flags | MS_NOEXEC
    } else {
        flags
    }
}

/// The flags that options set, one after the other.
pub open spec fn flags_of(options: Seq<Seq<char>>) -> usize
    decreases options.len(),
{
    if options.len() == 0 {
        0
    } else {
        flag_step(flags_of(options.drop_last()), options.last())
    }
}

/// The flags of a comma-separated list of options.
pub fn option_flags(options: &[char]) -> (flags: usize)
    ensures
        flags == flags_of(split_at_all(options@, Sep::Is(','))),
{
    let parts = split_all(options, Sep::Is(','));
    let ghost t = texts(parts@);
    let mut flags: usize = 0;
    assert(t.take(0) =~= Seq::empty());
    for i in 0..parts.len()
        invariant
            t == texts(parts@),
            flags == flags_of(t.take(i as int)),
    {
        assert(t.take(i + 1).drop_last() =~= t.take(i as int));
        assert(t[i as int] == parts@[i as int]@);
        let o = trim(parts[i].as_slice());
        if text_is(o.as_slice(), "ro") {
            flags = flags | MS_RDONLY;
        } else if text_is(o.as_slice(), "rw") {
            flags = flags & !MS_RDONLY;
        } else if text_is(o.as_slice(), "nosuid") {
            flags = flags | MS_NOSUID;
        } else if text_is(o.as_slice(), "nodev") {
            flags = flags | MS_NODEV;
        } else if text_is(o.as_slice(), "noexec") {
            flags = flags | MS_NOEXEC;
        }
    }
    assert(t.take(t.len() as int) =~= t);
    flags
}

/// The device to look up and the source to list. A placeholder is no device; one for the EFI
/// partition stands for the one that goes with the root of the command line.
pub open spec fn effective(source: Seq<char>, target: Seq<char>, cmdline: Seq<char>) -> Option<
    (Seq<char>, Seq<char>),
> {
    let rel = without_head(source, '/');
    if begins(rel, "__ECLIPSE_EFI"@) && target == "/boot/efi"@ {
        match efi_of(cmdline) {
            Some(dev) => Some((without_head(dev, '/'), dev)),
            None => None,
        }
    } else if begins(rel, "__ECLIPSE_"@) {
        None
    } else {
        Some((without_head(rel, '/'), source))
    }
}

/// The mount that a line asks for: none for the root, for swap, and for an unresolved placeholder.
pub open spec fn wanted(line: Seq<char>, cmdline: Seq<char>) -> Option<Wanted> {
    match fields(line) {
        None => None,
        Some(f) => {
            let options = if f.len() > 3 {
                f[3]
            } else {
                "defaults"@
            };
            if f[1] == "/"@ || f[1] == "none"@ || f[2] == "swap"@ {
                None
            } else {
                match effective(f[0], f[1], cmdline) {
                    None => None,
                    Some((lookup, source)) => Some(
                        Wanted {
                            lookup,
                            source,
                            target: f[1],
                            fstype: f[2],
                            options,
                            flags: flags_of(split_at_all(options, Sep::Is(','))),
                        },
                    ),
                }
            }
        },
    }
}

fn effective_source(source: &[char], target: &[char], cmdline: &str) -> (r: Option<
    (Vec<char>, Vec<char>),
>)
    ensures
        match r {
            Some((l, s)) => effective(source@, target@, cmdline@) == Some((l@, s@)),
            None => effective(source@, target@, cmdline@) is None,
        },
{
    let rel = trim_start_matches(source, '/');
    if starts_with(rel.as_slice(), "__ECLIPSE_EFI") && text_is(target, "/boot/efi") {
        match efi_dev_from_root_cmdline(cmdline) {
            Some(dev) => {
                let d = chars_of(dev.as_str());
                Some((trim_start_matches(d.as_slice(), '/'), d))
            },
            None => None,
        }
    } else if starts_with(rel.as_slice(), "__ECLIPSE_") {
        None
    } else {
        Some((trim_start_matches(rel.as_slice(), '/'), copy_text(source)))
    }
}

fn line_mount(line: &[char], cmdline: &str) -> (r: Option<FstabMount>)
    ensures
        match r {
            Some(m) => wanted(line@, cmdline@) == Some(m@),
            None => wanted(line@, cmdline@) is None,
        },
{
    let f = match line_fields(line) {
        Some(f) => f,
        None => {
            return None;
        },
    };
    let ghost t = texts(f@);
    assert(t[0] == f@[0]@ && t[1] == f@[1]@ && t[2] == f@[2]@);
    if text_is(f[1].as_slice(), "/") || text_is(f[1].as_slice(), "none") || text_is(
        f[2].as_slice(),
        "swap",
    ) {
        return None;
    }
    let options: Vec<char> = if f.len() > 3 {
        assert(t[3] == f@[3]@);
        copy_text(f[3].as_slice())
    } else {
        chars_of("defaults")
    };
    match effective_source(f[0].as_slice(), f[1].as_slice(), cmdline) {
        None => None,
        Some((lookup, source)) => {
            let flags: usize = option_flags(options.as_slice());
            Some(
                FstabMount {
                    lookup: string_of(lookup.as_slice()),
                    source: string_of(source.as_slice()),
                    target: string_of(f[1].as_slice()),
                    fstype: string_of(f[2].as_slice()),
                    options: string_of(options.as_slice()),
                    flags,
                },
            )
        },
    }
}

/// The mounts that lines ask for, in order.
pub open spec fn wanted_all(lines: Seq<Seq<char>>, cmdline: Seq<char>) -> Seq<Wanted>
    decreases lines.len(),
{
    if lines.len() == 0 {
        Seq::empty()
    } else {
        match wanted(lines.last(), cmdline) {
            Some(w) => wanted_all(lines.drop_last(), cmdline).push(w),
            None => wanted_all(lines.drop_last(), cmdline),
        }
    }
}

/// Mounts by their contents.
pub open spec fn wants(v: Seq<FstabMount>) -> Seq<Wanted> {
    Seq::new(v.len(), |i: int| v[i]@)
}

/// The mounts that the table asks for, in order. Each is to be looked up, opened and mounted; one
/// that fails is passed over.
pub fn mount_fstab(content: &[u8], cmdline: &str) -> (v: Vec<FstabMount>)
    ensures
        wants(v@) == wanted_all(file_lines(content@), cmdline@),
{
    let lines = lines_of(content);
    let ghost t = texts(lines@);
    let mut v: Vec<FstabMount> = Vec::new();
    assert(t.take(0) =~= Seq::empty());
    assert(wants(v@) =~= Seq::empty());
    for i in 0..lines.len()
        invariant
            t == texts(lines@),
            wants(v@) == wanted_all(t.take(i as int), cmdline@),
    {
        assert(t.take(i + 1).drop_last() =~= t.take(i as int));
        assert(t[i as int] == lines@[i as int]@);
        match line_mount(lines[i].as_slice(), cmdline) {
            Some(m) => {
                assert(wants(v@.push(m)) =~= wants(v@).push(m@));
                v.push(m);
            },
            None => {},
        }
    }
    assert(t.take(t.len() as int) =~= t);
    v
}

/// The mounts to make once the first process runs: those of the table, where there is one.
pub fn mount_fstab_deferred(content: Option<&[u8]>, cmdline: &str) -> (v: Vec<FstabMount>)
    ensures
        match content {
            Some(c) => wants(v@) == wanted_all(file_lines(c@), cmdline@),
            None => v@.len() == 0,
        },
{
    match content {
        Some(c) => mount_fstab(c, cmdline),
        None => Vec::new(),
    }
}

/// Lists a mount of the table that came about, under the name of its file system's driver.
pub fn record_fstab_mount(
    table: &mut MountTable,
    m: &FstabMount,
    fstype: &str,
    state: MountState,
)
    ensures
        final(table)@ == old(table)@.push(
            Mount {
                source: m@.source,
                target: m@.target,
                fstype: fstype@,
                options: options_text(m@.flags, m@.options),
                read_only: state.read_only,
            },
        ),
{
    let opts = build_options_string(m.flags, m.options.as_str());
    table.register_mount(
        m.source.as_str(),
        m.target.as_str(),
        fstype,
        opts.as_str(),
        state,
    );
}

/// The source and type of the first line from `i` on that is for the root.
pub open spec fn root_line(lines: Seq<Seq<char>>, i: int) -> Option<(Seq<char>, Seq<char>)>
    decreases lines.len() - i,
{
    if i < 0 || i >= lines.len() {
        None
    } else {
        match fields(lines[i]) {
            Some(f) => if f[1] == "/"@ {
                Some((f[0], f[2]))
            } else {
                root_line(lines, i + 1)
            },
            None => root_line(lines, i + 1),
        }
    }
}

/// The source and type that the table names for the root.
pub fn fstab_root(content: &[u8]) -> (r: Option<(String, String)>)
    ensures
        match r {
            Some((s, f)) => root_line(file_lines(content@), 0) == Some((s@, f@)),
            None => root_line(file_lines(content@), 0) is None,
        },
{
    let lines = lines_of(content);
    let ghost t = texts(lines@);
    let mut i: usize = 0;
    while i < lines.len()
        invariant
            i <= lines@.len(),
            t == texts(lines@),
            t == file_lines(content@),
            root_line(t, 0) == root_line(t, i as int),
        decreases lines@.len() - i,
    {
        assert(t[i as int] == lines@[i as int]@);
        match line_fields(lines[i].as_slice()) {
            Some(f) => {
                let ghost w = texts(f@);
                assert(w[0] == f@[0]@ && w[1] == f@[1]@ && w[2] == f@[2]@);
                if text_is(f[1].as_slice(), "/") {
                    return Some((string_of(f[0].as_slice()), string_of(f[2].as_slice())));
                }
            },
            None => {},
        }
        i = i + 1;
    }
    None
}

/// The table never mounts anything over the root.
pub proof fn law_root_never_remounted(lines: Seq<Seq<char>>, cmdline: Seq<char>, i: int)
    requires
        0 <= i < wanted_all(lines, cmdline).len(),
    ensures
        wanted_all(lines, cmdline)[i].target != "/"@,
        wanted_all(lines, cmdline)[i].fstype != "swap"@,
    decreases lines.len(),
{
    if i < wanted_all(lines.drop_last(), cmdline).len() {
        law_root_never_remounted(lines.drop_last(), cmdline, i);
    }
}

/// No placeholder that is left in the table is ever looked up as a device.
pub proof fn law_placeholders_skipped(source: Seq<char>, target: Seq<char>, cmdline: Seq<char>)
    requires
        begins(without_head(source, '/'), "__ECLIPSE_"@),
        target != "/boot/efi"@,
    ensures
        effective(source, target, cmdline) is None,
{
}

/// Where the last option that speaks of writing says so, the mount is asked for read-only or not
/// accordingly.
pub proof fn law_last_rw_wins(options: Seq<Seq<char>>, last: Seq<char>)
    requires
        trimmed(last) == "ro"@ || trimmed(last) == "rw"@,
    ensures
        trimmed(last) == "ro"@ ==> flags_of(options.push(last)) & MS_RDONLY != 0,
        trimmed(last) == "rw"@ ==> flags_of(options.push(last)) & MS_RDONLY == 0,
{
    reveal_strlit("ro");
    reveal_strlit("rw");
    assert(options.push(last).drop_last() =~= options);
    let f = flags_of(options);
    assert((f | 1) & 1 != 0) by (bit_vector);
    assert((f & !1usize) & 1 == 0) by (bit_vector);
    assert("ro"@[1] == 'o' && "rw"@[1] == 'w');
}

/// Each option sets or clears its own flag, what is not known changes none, and a later one has the last
/// word.
pub proof fn law_option_bits(options: Seq<Seq<char>>, last: Seq<char>)
    ensures
        trimmed(last) == "ro"@ ==> flags_of(options.push(last)) == flags_of(options) | 1,
        trimmed(last) == "rw"@ ==> flags_of(options.push(last)) == flags_of(options) & !1usize,
        trimmed(last) == "nosuid"@ ==> flags_of(options.push(last)) == flags_of(options) | 2,
        trimmed(last) == "nodev"@ ==> flags_of(options.push(last)) == flags_of(options) | 4,
        trimmed(last) == "noexec"@ ==> flags_of(options.push(last)) == flags_of(options) | 8,
        trimmed(last) != "ro"@ && trimmed(last) != "rw"@ && trimmed(last) != "nosuid"@ && trimmed(last)
            != "nodev"@ && trimmed(last) != "noexec"@ ==> flags_of(options.push(last)) == flags_of(
            options,
        ),
        flags_of(Seq::empty()) == 0,
{
    reveal_strlit("ro");
    reveal_strlit("rw");
    reveal_strlit("nosuid");
    reveal_strlit("nodev");
    reveal_strlit("noexec");
    assert("ro"@[1] != "rw"@[1]);
    assert("ro"@.len() == 2 && "rw"@.len() == 2);
    assert("nosuid"@.len() == 6 && "nodev"@.len() == 5 && "noexec"@.len() == 6);
    assert("nosuid"@[2] != "noexec"@[2]);
    assert(options.push(last).drop_last() =~= options);
}

/// A line counts where it is no comment and has the three words that a mount needs.
pub proof fn law_lines_that_count(line: Seq<char>)
    ensures
        fields(line) is Some <==> trimmed(line).len() > 0 && trimmed(line)[0] != '#' && words(
            trimmed(line),
            Sep::White,
        ).len() >= 3,
        fields(line) matches Some(f) ==> f == words(trimmed(line), Sep::White),
{
}

/// What a line mounts: its second word is where, its third which kind, its fourth how, or the defaults
/// without one, with the flags of that.
pub proof fn law_line_mounted(line: Seq<char>, cmdline: Seq<char>)
    ensures
        wanted(line, cmdline) matches Some(w) ==> {
            let f = words(trimmed(line), Sep::White);
            &&& f.len() >= 3
            &&& w.target == f[1]
            &&& w.fstype == f[2]
            &&& f.len() > 3 ==> w.options == f[3]
            &&& f.len() == 3 ==> w.options == "defaults"@
            &&& w.flags == flags_of(split_at_all(w.options, Sep::Is(',')))
            &&& f[1] != "/"@ && f[1] != "none"@ && f[2] != "swap"@
            &&& !begins(without_head(f[0], '/'), "__ECLIPSE_"@) ==> w.source == f[0] && w.lookup
                == without_head(without_head(f[0], '/'), '/')
        },
        fields(line) matches Some(f) ==> (f[1] != "/"@ && f[1] != "none"@ && f[2] != "swap"@ && !begins(
            without_head(f[0], '/'),
            "__ECLIPSE_"@,
        ) ==> wanted(line, cmdline) is Some),
        fields(line) is None ==> wanted(line, cmdline) is None,
{
    reveal_strlit("__ECLIPSE_");
    reveal_strlit("__ECLIPSE_EFI");
    if fields(line) is Some {
        let rel = without_head(fields(line)->0[0], '/');
        if begins(rel, "__ECLIPSE_EFI"@) {
            assert("__ECLIPSE_EFI"@.take(10) =~= "__ECLIPSE_"@);
            assert(rel.take(10) =~= rel.take(13).take(10));
        }
    }
}

/// The EFI partition's line mounts the partition that goes with the root, where there is one.
pub proof fn law_efi_line(source: Seq<char>, cmdline: Seq<char>)
    requires
        begins(without_head(source, '/'), "__ECLIPSE_EFI"@),
    ensures
        efi_of(cmdline) matches Some(dev) ==> (effective(source, "/boot/efi"@, cmdline) matches Some(e)
            && e.1 == dev && e.0 == without_head(dev, '/')),
        efi_of(cmdline) is None ==> effective(source, "/boot/efi"@, cmdline) is None,
{
}

/// The mounts of a table are those of its lines, in order.
pub proof fn law_lines_in_order(lines: Seq<Seq<char>>, line: Seq<char>, cmdline: Seq<char>)
    ensures
        wanted(line, cmdline) matches Some(w) ==> wanted_all(lines.push(line), cmdline) == wanted_all(
            lines,
            cmdline,
        ).push(w),
        wanted(line, cmdline) is None ==> wanted_all(lines.push(line), cmdline) == wanted_all(
            lines,
            cmdline,
        ),
        wanted_all(Seq::empty(), cmdline).len() == 0,
{
    assert(lines.push(line).drop_last() =~= lines);
}

/// The root is what the first line that mounts it says, with its kind.
pub proof fn law_root_of_first_line(lines: Seq<Seq<char>>, i: int, k: int)
    requires
        0 <= i <= k < lines.len(),
        fields(lines[k]) matches Some(f) && f[1] == "/"@,
        forall|j: int| i <= j < k ==> (fields(#[trigger] lines[j]) matches Some(g) ==> g[1] != "/"@),
    ensures
        root_line(lines, i) matches Some(r) && r.0 == fields(lines[k])->0[0] && r.1 == fields(
            lines[k],
        )->0[2],
    decreases k - i,
{
    if i < k {
        law_root_of_first_line(lines, i + 1, k);
    }
}

} // verus!
