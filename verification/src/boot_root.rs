//! Decisions of the boot: names of block devices, the choice of the root file system, and the
//! mounts made before the first process starts.
use vstd::prelude::*;
use crate::mount_table::{boot_mount_state, Mount, MountTable};
use crate::text::{
    after_last, begins, chars_of, copy_text, cut_once, decimal_text, last_piece, law_cut_at_first, lowered, push_number,
    push_str, push_text, same_ignoring_case, split_all, split_at_all, split_once,
    starts_with, string_of, text_is, texts, trim, trimmed, Sep,
};

verus! {

/// The key and the value of an option, trimmed; no value reads as an empty one.
pub open spec fn key_value(option: Seq<char>) -> (Seq<char>, Seq<char>) {
    match cut_once(trimmed(option), '=') {
        Some((k, v)) => (trimmed(k), trimmed(v)),
        None => (trimmed(trimmed(option)), trimmed(Seq::empty())),
    }
}

/// The device that one option names as the root: a real one, not a placeholder.
pub open spec fn root_option(option: Seq<char>) -> Option<Seq<char>> {
    let (key, val) = key_value(option);
    if lowered(key) == lowered("ROOT"@) && val.len() > 0 && !begins(val, "__ECLIPSE_"@) && val
        != "/dev/__ECLIPSE_CMDROOTDEV"@ {
        Some(val)
    } else {
        None
    }
}

/// The first option from `i` on that names the root.
pub open spec fn first_root(options: Seq<Seq<char>>, i: int) -> Option<Seq<char>>
    decreases options.len() - i,
{
    if i < 0 || i >= options.len() {
        None
    } else if root_option(options[i]) is Some {
        root_option(options[i])
    } else {
        first_root(options, i + 1)
    }
}

/// The root that a command line of colon-separated options names.
pub open spec fn cmdline_root(cmdline: Seq<char>) -> Option<Seq<char>> {
    first_root(split_at_all(cmdline, Sep::Is(':')), 0)
}

fn option_root(option: &[char]) -> (r: Option<Vec<char>>)
    ensures
        match r {
            Some(v) => root_option(option@) == Some(v@),
            None => root_option(option@) is None,
        },
{
    let o = trim(option);
    let (key, val): (Vec<char>, Vec<char>) = match split_once(o.as_slice(), '=') {
        Some((k, v)) => (trim(k.as_slice()), trim(v.as_slice())),
        None => {
            let none: Vec<char> = Vec::new();
            assert(none@ =~= Seq::empty());
            (trim(o.as_slice()), trim(none.as_slice()))
        },
    };
    if same_ignoring_case(key.as_slice(), "ROOT") && val.len() > 0 && !starts_with(
        val.as_slice(),
        "__ECLIPSE_",
    ) && !text_is(val.as_slice(), "/dev/__ECLIPSE_CMDROOTDEV") {
        Some(val)
    } else {
        None
    }
}

/// The device that the kernel command line names as the root.
pub fn parse_root_cmdline(cmdline: &str) -> (r: Option<String>)
    ensures
        match r {
            Some(v) => cmdline_root(cmdline@) == Some(v@),
            None => cmdline_root(cmdline@) is None,
        },
{
    let cs = chars_of(cmdline);
    let opts = split_all(cs.as_slice(), Sep::Is(':'));
    let ghost t = texts(opts@);
    let mut i: usize = 0;
    while i < opts.len()
        invariant
            i <= opts@.len(),
            t == texts(opts@),
            t == split_at_all(cmdline@, Sep::Is(':')),
            first_root(t, 0) == first_root(t, i as int),
        decreases opts@.len() - i,
    {
        assert(t[i as int] == opts@[i as int]@);
        match option_root(opts[i].as_slice()) {
            Some(v) => {
                return Some(string_of(v.as_slice()));
            },
            None => {},
        }
        i = i + 1;
    }
    None
}

/// Whether an option asks to keep the boot medium as the root.
pub open spec fn keeps_boot(option: Seq<char>) -> bool {
    lowered(trimmed(option)) == lowered("ROOTKEEP=1"@)
}

/// Whether one of the options of a command line asks to stay on the boot medium.
pub open spec fn stays(cmdline: Seq<char>) -> bool {
    exists|i: int|
        0 <= i < split_at_all(cmdline, Sep::Is(':')).len() && keeps_boot(
            #[trigger] split_at_all(cmdline, Sep::Is(':'))[i],
        )
}

/// Whether the command line asks to keep the boot medium as the root.
pub fn keep_boot_medium(cmdline: &str) -> (r: bool)
    ensures
        r == stays(cmdline@),
{
    let cs = chars_of(cmdline);
    let opts = split_all(cs.as_slice(), Sep::Is(':'));
    let ghost t = split_at_all(cmdline@, Sep::Is(':'));
    for i in 0..opts.len()
        invariant
            t == texts(opts@),
            t == split_at_all(cmdline@, Sep::Is(':')),
            forall|j: int| 0 <= j < i ==> !keeps_boot(#[trigger] t[j]),
    {
        let o = trim(opts[i].as_slice());
        assert(t[i as int] == opts@[i as int]@);
        if same_ignoring_case(o.as_slice(), "ROOTKEEP=1") {
            assert(keeps_boot(t[i as int]));
            return true;
        }
    }
    false
}

/// An ASCII digit.
pub open spec fn digit(c: char) -> bool {
    '0' <= c && c <= '9'
}

/// A text without digits at its end.
pub open spec fn without_digits(s: Seq<char>) -> Seq<char>
    decreases s.len(),
{
    if s.len() > 0 && digit(s.last()) {
        without_digits(s.drop_last())
    } else {
        s
    }
}

fn trim_end_digits(a: &[char]) -> (v: Vec<char>)
    ensures
        v@ == without_digits(a@),
{
    let mut j: usize = a.len();
    assert(a@.take(j as int) =~= a@);
    while j > 0 && '0' <= a[j - 1] && a[j - 1] <= '9'
        invariant
            j <= a@.len(),
            without_digits(a@) == without_digits(a@.take(j as int)),
        decreases j,
    {
        assert(a@.take(j as int).drop_last() =~= a@.take(j - 1));
        j = j - 1;
    }
    let head: &[char] = &a[0..j];
    assert(head@ =~= a@.take(j as int));
    copy_text(head)
}

/// The first partition of the disk that a partition belongs to; none for a name that ends in no
/// digit.
pub open spec fn first_partition(dev: Seq<char>) -> Option<Seq<char>> {
    let stem = without_digits(dev);
    if stem.len() == dev.len() {
        None
    } else if stem.len() > 0 && stem.last() == 'p' {
        Some(stem.drop_last() + "p1"@)
    } else {
        Some(stem + "1"@)
    }
}

/// The EFI partition that goes with the root of the command line.
pub open spec fn efi_of(cmdline: Seq<char>) -> Option<Seq<char>> {
    match cmdline_root(cmdline) {
        Some(dev) => first_partition(dev),
        None => None,
    }
}

/// The EFI partition that goes with the root of the command line: partition 1 of the same disk.
pub fn efi_dev_from_root_cmdline(cmdline: &str) -> (r: Option<String>)
    ensures
        match r {
            Some(v) => efi_of(cmdline@) == Some(v@),
            None => efi_of(cmdline@) is None,
        },
{
    let dev = match parse_root_cmdline(cmdline) {
        Some(d) => chars_of(d.as_str()),
        None => {
            return None;
        },
    };
    let stem = trim_end_digits(dev.as_slice());
    if stem.len() == dev.len() {
        return None;
    }
    let n: usize = stem.len();
    let mut out: Vec<char> = Vec::new();
    if n > 0 && stem[n - 1] == 'p' {
        let head: &[char] = &stem.as_slice()[0..n - 1];
        assert(head@ =~= stem@.drop_last());
        push_text(&mut out, head);
        push_str(&mut out, "p1");
        assert(out@ =~= stem@.drop_last() + "p1"@);
    } else {
        push_text(&mut out, stem.as_slice());
        push_str(&mut out, "1");
        assert(out@ =~= stem@ + "1"@);
    }
    Some(string_of(out.as_slice()))
}

/// Whether a name ends in a digit.
pub open spec fn numbered(name: Seq<char>) -> bool {
    name.len() > 0 && digit(name.last())
}

/// Whether a name is a partition's and not a whole disk's: it ends in a number, and on a disk whose
/// own name ends in one, its namespace's, that number stands behind a `p` of its own.
pub open spec fn partition_name_like(name: Seq<char>) -> bool {
    let stem = without_digits(name);
    &&& numbered(name)
    &&& begins(name, "nvme"@) ==> stem.len() > 0 && stem.last() == 'p' && numbered(
        stem.drop_last(),
    )
}

pub fn is_partition_candidate(name: &str) -> (r: bool)
    ensures
        r == partition_name_like(name@),
{
    let cs = chars_of(name);
    let n: usize = cs.len();
    if n == 0 || cs[n - 1] < '0' || cs[n - 1] > '9' {
        return false;
    }
    if !starts_with(cs.as_slice(), "nvme") {
        return true;
    }
    let stem = trim_end_digits(cs.as_slice());
    let k: usize = stem.len();
    k > 1 && stem[k - 1] == 'p' && '0' <= stem[k - 2] && stem[k - 2] <= '9'
}

/// Names by their characters.
pub open spec fn names_of(v: Seq<String>) -> Seq<Seq<char>> {
    Seq::new(v.len(), |i: int| v[i]@)
}

/// Whether any name is a partition's.
pub open spec fn any_partition(names: Seq<Seq<char>>) -> bool {
    exists|i: int| 0 <= i < names.len() && partition_name_like(#[trigger] names[i])
}

/// The first `n` names that may hold the root, by index: partitions where there are any.
pub open spec fn eligible(names: Seq<Seq<char>>, n: int) -> Seq<usize>
    decreases n,
{
    if n <= 0 {
        Seq::empty()
    } else if !any_partition(names) || partition_name_like(names[n - 1]) {
        eligible(names, n - 1).push((n - 1) as usize)
    } else {
        eligible(names, n - 1)
    }
}

/// The devices to look for a root on, by index, in order.
pub fn root_mount_candidates(names: &[String]) -> (v: Vec<usize>)
    ensures
        v@ == eligible(names_of(names@), names@.len() as int),
{
    let ghost t = names_of(names@);
    let mut prefer: bool = false;
    for i in 0..names.len()
        invariant
            t == names_of(names@),
            prefer == exists|j: int| 0 <= j < i && partition_name_like(#[trigger] t[j]),
    {
        assert(t[i as int] == names@[i as int]@);
        if is_partition_candidate(names[i].as_str()) {
            prefer = true;
            assert(partition_name_like(t[i as int]));
        }
    }
    let mut v: Vec<usize> = Vec::new();
    assert(v@ =~= eligible(t, 0));
    for i in 0..names.len()
        invariant
            t == names_of(names@),
            prefer == any_partition(t),
            v@ == eligible(t, i as int),
    {
        assert(t[i as int] == names@[i as int]@);
        if !prefer || is_partition_candidate(names[i].as_str()) {
            v.push(i);
        }
    }
    v
}

/// The first name from `i` on that is a given one; the length where there is none.
pub open spec fn name_pos(names: Seq<Seq<char>>, want: Seq<char>, i: int) -> int
    decreases names.len() - i,
{
    if i < 0 || i >= names.len() {
        names.len() as int
    } else if names[i] == want {
        i
    } else {
        name_pos(names, want, i + 1)
    }
}

/// The device that a path names, by its last component.
pub open spec fn candidate(names: Seq<Seq<char>>, dev: Seq<char>) -> Option<usize> {
    let i = name_pos(names, last_piece(trimmed(dev), '/'), 0);
    if i < names.len() {
        Some(i as usize)
    } else {
        None
    }
}

pub fn lookup_candidate(names: &[String], dev: &str) -> (r: Option<usize>)
    ensures
        r == candidate(names_of(names@), dev@),
{
    let d = trim(chars_of(dev).as_slice());
    let want = string_of(after_last(d.as_slice(), '/').as_slice());
    let ghost t = names_of(names@);
    let mut i: usize = 0;
    while i < names.len()
        invariant
            i <= names@.len(),
            t == names_of(names@),
            want@ == last_piece(trimmed(dev@), '/'),
            name_pos(t, want@, 0) == name_pos(t, want@, i as int),
        decreases names@.len() - i,
    {
        assert(t[i as int] == names@[i as int]@);
        if names[i] == want {
            return Some(i);
        }
        i = i + 1;
    }
    None
}

/// A device to try as the root, and the source to list it under.
pub struct Attempt {
    pub index: usize,
    pub source: String,
}

/// A device to try as the root, mathematically.
#[verifier::ext_equal]
pub struct Trial {
    pub index: usize,
    pub source: Seq<char>,
}

/// Attempts by their contents.
pub open spec fn trials(v: Seq<Attempt>) -> Seq<Trial> {
    Seq::new(v.len(), |i: int| Trial { index: v[i].index, source: v[i].source@ })
}

/// The trial that a named source leads to.
pub open spec fn named_trial(names: Seq<Seq<char>>, source: Option<Seq<char>>) -> Seq<Trial> {
    match source {
        Some(s) => match candidate(names, s) {
            Some(i) => seq![Trial { index: i, source: s }],
            None => Seq::empty(),
        },
        None => Seq::empty(),
    }
}

/// The trials of the devices found, in order.
pub open spec fn found_trials(names: Seq<Seq<char>>, picks: Seq<usize>) -> Seq<Trial> {
    Seq::new(
        picks.len(),
        |k: int| Trial { index: picks[k], source: "/dev/"@ + names[picks[k] as int] },
    )
}

/// The devices to try as the root, in order: the one of the command line, the one of the boot
/// medium's table of mounts, then what the disks offer.
pub open spec fn root_trials(
    cmdline: Seq<char>,
    fstab: Option<Seq<char>>,
    names: Seq<Seq<char>>,
) -> Seq<Trial> {
    named_trial(names, cmdline_root(cmdline)) + named_trial(names, fstab) + found_trials(
        names,
        eligible(names, names.len() as int),
    )
}

proof fn lemma_trials_push(v: Seq<Attempt>, a: Attempt)
    ensures
        trials(v.push(a)) == trials(v).push(Trial { index: a.index, source: a.source@ }),
{
    assert(trials(v.push(a)) =~= trials(v).push(Trial { index: a.index, source: a.source@ }));
}

proof fn lemma_eligible_range(names: Seq<Seq<char>>, n: int)
    requires
        0 <= n <= names.len(),
        names.len() <= usize::MAX,
    ensures
        forall|k: int|
            0 <= k < eligible(names, n).len() ==> (#[trigger] eligible(names, n)[k]) < n,
    decreases n,
{
    if n > 0 {
        lemma_eligible_range(names, n - 1);
        let head = eligible(names, n - 1);
        assert forall|k: int| 0 <= k < eligible(names, n).len() implies (#[trigger] eligible(
            names,
            n,
        )[k]) < names.len() by {
            if k < head.len() {
                assert(head[k] < names.len());
                assert(eligible(names, n)[k] == head[k]);
            }
        }
    }
}

fn push_named(v: &mut Vec<Attempt>, names: &[String], source: &str)
    ensures
        trials(final(v)@) == trials(old(v)@) + named_trial(names_of(names@), Some(source@)),
{
    match lookup_candidate(names, source) {
        Some(index) => {
            let a = Attempt { index, source: source.to_owned() };
            proof {
                lemma_trials_push(v@, a);
            }
            v.push(a);
            assert(trials(v@) =~= trials(old(v)@) + named_trial(names_of(names@), Some(source@)));
        },
        None => {
            assert(trials(v@) =~= trials(old(v)@) + named_trial(names_of(names@), Some(source@)));
        },
    }
}

/// The devices to try as the root, in order; the first that holds a mountable file system is the
/// root, and without one the boot medium stays. `fstab_source` is what the boot medium's table of
/// mounts names as the root, where that is of a type that can be one.
pub fn determine_real_root(cmdline: &str, fstab_source: Option<&str>, names: &[String]) -> (v: Vec<
    Attempt,
>)
    ensures
        trials(v@) == root_trials(
            cmdline@,
            match fstab_source {
                Some(s) => Some(s@),
                None => None,
            },
            names_of(names@),
        ),
{
    let mut v: Vec<Attempt> = Vec::new();
    let ghost t = names_of(names@);
    let ghost fstab: Option<Seq<char>> = match fstab_source {
        Some(s) => Some(s@),
        None => None,
    };
    let ghost first = named_trial(t, cmdline_root(cmdline@));
    assert(trials(v@) =~= Seq::empty());
    match parse_root_cmdline(cmdline) {
        Some(dev) => {
            push_named(&mut v, names, dev.as_str());
        },
        None => {},
    }
    assert(trials(v@) =~= first);
    match fstab_source {
        Some(s) => {
            push_named(&mut v, names, s);
        },
        None => {},
    }
    let ghost head = first + named_trial(t, fstab);
    assert(trials(v@) =~= head);
    let picks = root_mount_candidates(names);
    proof {
        assert(names.len() <= usize::MAX);
        lemma_eligible_range(t, t.len() as int);
    }
    let ghost all = found_trials(t, picks@);
    assert(trials(v@) =~= head + all.take(0));
    for k in 0..picks.len()
        invariant
            t == names_of(names@),
            forall|j: int| 0 <= j < picks@.len() ==> (#[trigger] picks@[j]) < names@.len(),
            all == found_trials(t, picks@),
            trials(v@) == head + all.take(k as int),
    {
        let index: usize = picks[k];
        let mut source: Vec<char> = Vec::new();
        push_str(&mut source, "/dev/");
        push_str(&mut source, names[index].as_str());
        assert(source@ =~= "/dev/"@ + t[index as int]);
        let a = Attempt { index, source: string_of(source.as_slice()) };
        proof {
            lemma_trials_push(v@, a);
            assert(all.take(k + 1) =~= all.take(k as int).push(all[k as int]));
            assert(head + all.take(k + 1) =~= (head + all.take(k as int)).push(all[k as int]));
        }
        v.push(a);
    }
    assert(all.take(all.len() as int) =~= all);
    v
}

/// A root that the command line names and that exists is tried before anything else.
pub proof fn law_cmdline_root_first(
    cmdline: Seq<char>,
    fstab: Option<Seq<char>>,
    names: Seq<Seq<char>>,
    dev: Seq<char>,
    index: usize,
)
    requires
        cmdline_root(cmdline) == Some(dev),
        candidate(names, dev) == Some(index),
    ensures
        root_trials(cmdline, fstab, names).len() > 0,
        root_trials(cmdline, fstab, names)[0] == (Trial { index, source: dev }),
{
}

/// A root that the command line names and that does not exist is passed over.
pub proof fn law_unresolved_root_ignored(
    cmdline: Seq<char>,
    fstab: Option<Seq<char>>,
    names: Seq<Seq<char>>,
    dev: Seq<char>,
)
    requires
        cmdline_root(cmdline) == Some(dev),
        candidate(names, dev) is None,
    ensures
        root_trials(cmdline, fstab, names) == named_trial(names, fstab) + found_trials(
            names,
            eligible(names, names.len() as int),
        ),
{
    assert(root_trials(cmdline, fstab, names) =~= named_trial(names, fstab) + found_trials(
        names,
        eligible(names, names.len() as int),
    ));
}

/// How a driver's disks are named.
#[derive(Clone, Copy, PartialEq, Eq, Structural, Debug)]
pub enum DiskKind {
    Nvme,
    Virtio,
    Other,
}

/// The kind of a disk, by its driver's name.
pub open spec fn disk_kind(driver: Seq<char>) -> DiskKind {
    if begins(driver, "nvme"@) {
        DiskKind::Nvme
    } else if begins(driver, "virtio"@) {
        DiskKind::Virtio
    } else {
        DiskKind::Other
    }
}

/// How many of the first `n` disks are of a kind.
pub open spec fn kind_count(drivers: Seq<Seq<char>>, kind: DiskKind, n: int) -> nat
    decreases n,
{
    if n <= 0 {
        0
    } else if disk_kind(drivers[n - 1]) == kind {
        kind_count(drivers, kind, n - 1) + 1
    } else {
        kind_count(drivers, kind, n - 1)
    }
}

/// The letter of a disk.
pub open spec fn disk_letter(n: nat) -> char {
    (97 + n % 26) as char
}

/// The node of disk `i`, numbered or lettered among the disks of its kind.
pub open spec fn disk_node(drivers: Seq<Seq<char>>, i: int) -> Seq<char> {
    let kind = disk_kind(drivers[i]);
    let n = kind_count(drivers, kind, i);
    match kind {
        DiskKind::Nvme => "nvme"@ + decimal_text(n) + "n1"@,
        DiskKind::Virtio => "vd"@.push(disk_letter(n)),
        DiskKind::Other => "sd"@.push(disk_letter(n)),
    }
}

fn kind_of(driver: &str) -> (k: DiskKind)
    ensures
        k == disk_kind(driver@),
{
    let cs = chars_of(driver);
    if starts_with(cs.as_slice(), "nvme") {
        DiskKind::Nvme
    } else if starts_with(cs.as_slice(), "virtio") {
        DiskKind::Virtio
    } else {
        DiskKind::Other
    }
}

/// The name of the node of a disk.
pub fn disk_name(drivers: &[String], i: usize) -> (s: String)
    requires
        i < drivers@.len(),
    ensures
        s@ == disk_node(names_of(drivers@), i as int),
{
    let ghost t = names_of(drivers@);
    assert(t[i as int] == drivers@[i as int]@);
    let kind: DiskKind = kind_of(drivers[i].as_str());
    let mut n: u64 = 0;
    for j in 0..i
        invariant
            i < drivers@.len(),
            t == names_of(drivers@),
            n == kind_count(t, kind, j as int),
            n <= j,
    {
        assert(t[j as int] == drivers@[j as int]@);
        if kind_of(drivers[j].as_str()) == kind {
            n = n + 1;
        }
    }
    let mut v: Vec<char> = Vec::new();
    match kind {
        DiskKind::Nvme => {
            push_str(&mut v, "nvme");
            push_number(&mut v, n);
            push_str(&mut v, "n1");
            assert(v@ =~= disk_node(t, i as int));
        },
        DiskKind::Virtio => {
            push_str(&mut v, "vd");
            let letter: u8 = 97 + (n % 26) as u8;
            v.push(letter as char);
            assert(v@ =~= disk_node(t, i as int));
        },
        DiskKind::Other => {
            push_str(&mut v, "sd");
            let letter: u8 = 97 + (n % 26) as u8;
            v.push(letter as char);
            assert(v@ =~= disk_node(t, i as int));
        },
    }
    string_of(v.as_slice())
}

/// The node of a partition of a disk.
pub open spec fn partition_node(disk: Seq<char>, num: nat) -> Seq<char> {
    if begins(disk, "nvme"@) {
        disk + "p"@ + decimal_text(num)
    } else {
        disk + decimal_text(num)
    }
}

pub fn partition_name(disk: &str, num: usize) -> (s: String)
    ensures
        s@ == partition_node(disk@, num as nat),
{
    let cs = chars_of(disk);
    let mut v: Vec<char> = Vec::new();
    push_text(&mut v, cs.as_slice());
    if starts_with(cs.as_slice(), "nvme") {
        push_str(&mut v, "p");
    }
    push_number(&mut v, num as u64);
    assert(v@ =~= partition_node(disk@, num as nat));
    string_of(v.as_slice())
}

/// A number is written in digits only, and in at least one.
proof fn lemma_decimal_digits(n: nat)
    ensures
        decimal_text(n).len() > 0,
        forall|k: int| 0 <= k < decimal_text(n).len() ==> digit(#[trigger] decimal_text(n)[k]),
    decreases n,
{
    if n >= 10 {
        lemma_decimal_digits(n / 10);
    }
}

/// Digits at the end of a text go with the rest of them.
proof fn lemma_stem_ignores_digits(a: Seq<char>, d: Seq<char>)
    requires
        forall|k: int| 0 <= k < d.len() ==> digit(#[trigger] d[k]),
    ensures
        without_digits(a + d) == without_digits(a),
    decreases d.len(),
{
    if d.len() == 0 {
        assert(a + d =~= a);
    } else {
        assert((a + d).last() == d.last());
        assert(digit(d[d.len() - 1]));
        assert((a + d).drop_last() =~= a + d.drop_last());
        assert forall|k: int| 0 <= k < d.drop_last().len() implies digit(
            #[trigger] d.drop_last()[k],
        ) by {
            assert(digit(d[k]));
        }
        lemma_stem_ignores_digits(a, d.drop_last());
    }
}

/// No whole disk is taken for a partition, and every partition of one is known for what it is,
/// whatever the kind of the disk.
pub proof fn law_disks_told_from_partitions(drivers: Seq<Seq<char>>, i: int, num: nat)
    ensures
        !partition_name_like(disk_node(drivers, i)),
        partition_name_like(partition_node(disk_node(drivers, i), num)),
{
    reveal_strlit("nvme");
    reveal_strlit("n1");
    reveal_strlit("p");
    reveal_strlit("vd");
    reveal_strlit("sd");
    let disk = disk_node(drivers, i);
    let kind = disk_kind(drivers[i]);
    let n = kind_count(drivers, kind, i);
    let node = partition_node(disk, num);
    lemma_decimal_digits(n);
    lemma_decimal_digits(num);
    assert(node.last() == decimal_text(num).last());
    assert(digit(decimal_text(num)[decimal_text(num).len() - 1]));
    match kind {
        DiskKind::Nvme => {
            assert(disk.take(4) =~= "nvme"@);
            let head = "nvme"@ + decimal_text(n);
            assert(disk =~= head + "n1"@);
            assert(disk.drop_last() =~= head.push('n'));
            assert(without_digits(disk) == without_digits(head.push('n')));
            assert(without_digits(head.push('n')) == head.push('n'));
            assert(without_digits(disk).last() == 'n');
            lemma_stem_ignores_digits(disk + "p"@, decimal_text(num));
            assert((disk + "p"@).last() == 'p');
            assert(without_digits(disk + "p"@) == disk + "p"@);
            assert((disk + "p"@).drop_last() =~= disk);
            assert(disk.last() == '1');
        },
        DiskKind::Virtio => {
            assert(disk[0] == 'v');
            assert(node[0] == 'v');
            assert(node.len() >= 4 ==> node.take(4)[0] == 'v');
            assert(disk.last() == disk_letter(n));
        },
        DiskKind::Other => {
            assert(disk[0] == 's');
            assert(node[0] == 's');
            assert(node.len() >= 4 ==> node.take(4)[0] == 's');
            assert(disk.last() == disk_letter(n));
        },
    }
}

/// A node to make for a partition.
pub struct PartitionNode {
    pub name: String,
    pub index: usize,
    pub start_block: usize,
    pub block_count: usize,
}

/// Whether the nodes stand for the partitions of a disk, numbered from one.
pub open spec fn nodes_for(
    nodes: Seq<PartitionNode>,
    disk: Seq<char>,
    parts: Seq<(usize, usize)>,
    base: int,
) -> bool {
    &&& nodes.len() == parts.len()
    &&& forall|k: int|
        0 <= k < parts.len() ==> {
            &&& (#[trigger] nodes[k]).name@ == partition_node(disk, (k + 1) as nat)
            &&& nodes[k].index == base + k + 1
            &&& nodes[k].start_block == parts[k].0
            &&& nodes[k].block_count == parts[k].1
        }
}

/// The nodes to make for the partitions of a disk.
pub fn partition_nodes(disk: &str, parts: &[(usize, usize)], base_index: usize) -> (v: Vec<
    PartitionNode,
>)
    requires
        base_index + parts@.len() < usize::MAX,
    ensures
        nodes_for(v@, disk@, parts@, base_index as int),
{
    let mut v: Vec<PartitionNode> = Vec::new();
    for k in 0..parts.len()
        invariant
            base_index + parts@.len() < usize::MAX,
            v@.len() == k,
            forall|j: int|
                0 <= j < k ==> {
                    &&& (#[trigger] v@[j]).name@ == partition_node(disk@, (j + 1) as nat)
                    &&& v@[j].index == base_index + j + 1
                    &&& v@[j].start_block == parts@[j].0
                    &&& v@[j].block_count == parts@[j].1
                },
    {
        let (start_block, block_count) = parts[k];
        let num: usize = k + 1;
        v.push(
            PartitionNode {
                name: partition_name(disk, num),
                index: base_index + num,
                start_block,
                block_count,
            },
        );
    }
    v
}

/// What a rescan of a disk's partitions does: old nodes to remove, new ones to make.
pub struct Rescan {
    pub remove: Vec<String>,
    pub add: Vec<PartitionNode>,
}

/// Plans a rescan: the nodes of up to fifteen partitions go, and those of what was found come.
pub fn rescan_partitions(disk: &str, parts: &[(usize, usize)], base_index: usize) -> (r: Rescan)
    requires
        base_index + parts@.len() < usize::MAX,
    ensures
        r.remove@.len() == 15,
        forall|k: int|
            0 <= k < 15 ==> (#[trigger] r.remove@[k])@ == partition_node(disk@, (k + 1) as nat),
        nodes_for(r.add@, disk@, parts@, base_index as int),
{
    let mut remove: Vec<String> = Vec::new();
    for k in 0..15usize
        invariant
            remove@.len() == k,
            forall|j: int|
                0 <= j < k ==> (#[trigger] remove@[j])@ == partition_node(disk@, (j + 1) as nat),
    {
        remove.push(partition_name(disk, k + 1));
    }
    Rescan { remove, add: partition_nodes(disk, parts, base_index) }
}

/// The record that marks an input device as initialised and seated.
pub open spec fn udev_text(keyboard: bool, mouse: bool) -> Seq<char> {
    "I:1\nE:ID_INPUT=1\n"@ + (if keyboard {
        "E:ID_INPUT_KEYBOARD=1\n"@
    } else {
        Seq::empty()
    }) + (if mouse {
        "E:ID_INPUT_MOUSE=1\n"@
    } else {
        Seq::empty()
    }) + "G:seat\nQ:seat\nV:1\n"@
}

/// What an input device can report, as far as its class depends on it.
#[derive(Clone, Copy, PartialEq, Eq, Structural, Debug)]
pub struct InputTraits {
    pub key_esc: bool,
    pub rel_x: bool,
    pub rel_y: bool,
    pub btn_left: bool,
}

/// The record of an input device: a keyboard has an escape key, a mouse two axes and a left
/// button.
pub fn udev_record(t: InputTraits) -> (s: String)
    ensures
        s@ == udev_text(t.key_esc, is_mouse(t)),
{
    let keyboard: bool = t.key_esc;
    let mouse: bool = t.rel_x && t.rel_y && t.btn_left;
    let mut v: Vec<char> = Vec::new();
    push_str(&mut v, "I:1\nE:ID_INPUT=1\n");
    if keyboard {
        push_str(&mut v, "E:ID_INPUT_KEYBOARD=1\n");
    }
    if mouse {
        push_str(&mut v, "E:ID_INPUT_MOUSE=1\n");
    }
    push_str(&mut v, "G:seat\nQ:seat\nV:1\n");
    assert(v@ =~= udev_text(keyboard, mouse));
    string_of(v.as_slice())
}

/// The name of the record of event device `id`.
pub fn udev_record_name(id: u32) -> (s: String)
    ensures
        s@ == "c13:"@ + decimal_text((64 + id) as nat),
{
    let mut v: Vec<char> = Vec::new();
    push_str(&mut v, "c13:");
    push_number(&mut v, 64 + id as u64);
    assert(v@ =~= "c13:"@ + decimal_text((64 + id) as nat));
    string_of(v.as_slice())
}

/// Which of the boot's mounts came about.
#[derive(Clone, Copy, PartialEq, Eq, Structural, Debug)]
pub struct BootMounts {
    pub dev: bool,
    pub tmp: bool,
    pub run: bool,
    pub apk: bool,
    pub proc_: bool,
    pub sys: bool,
}

/// A writable mount.
pub open spec fn writable(
    source: Seq<char>,
    target: Seq<char>,
    fstype: Seq<char>,
    options: Seq<char>,
) -> Mount {
    Mount { source, target, fstype, options, read_only: false }
}

/// Mounts that came about.
pub open spec fn made(flag: bool, m: Seq<Mount>) -> Seq<Mount> {
    if flag {
        m
    } else {
        Seq::empty()
    }
}

/// A temporary file system, as it is listed.
pub open spec fn scratch(target: Seq<char>) -> Mount {
    writable("tmpfs"@, target, "tmpfs"@, "rw,nosuid,nodev"@)
}

/// The mounts after the boot, in order. A cache for packages is mounted only where the root is
/// not an installed one.
pub open spec fn boot_mounts(source: Seq<char>, fstype: Seq<char>, ok: BootMounts) -> Seq<Mount> {
    seq![writable(source, "/"@, fstype, "rw"@)] + made(
        ok.dev,
        seq![writable("devfs"@, "/dev"@, "devtmpfs"@, "rw,nosuid"@), scratch("/dev/shm"@)],
    ) + made(ok.tmp, seq![scratch("/tmp"@)]) + made(ok.run, seq![scratch("/run"@)]) + made(
        fstype != "btrfs"@ && ok.apk,
        seq![scratch("/var/cache/apk"@)],
    ) + made(
        ok.proc_,
        seq![writable("proc"@, "/proc"@, "proc"@, "rw,nosuid,nodev,noexec,relatime"@)],
    ) + made(
        ok.sys,
        seq![writable("sysfs"@, "/sys"@, "sysfs"@, "rw,nosuid,nodev,noexec,relatime"@)],
    )
}

/// Whether package caches and the run directory under `/var` are set up: not on an installed root.
pub fn sets_up_var(root_fstype: &str) -> (r: bool)
    ensures
        r == (root_fstype@ != "btrfs"@),
{
    let cs = chars_of(root_fstype);
    !text_is(cs.as_slice(), "btrfs")
}

fn record_if(
    table: &mut MountTable,
    flag: bool,
    source: &str,
    target: &str,
    fstype: &str,
    options: &str,
)
    ensures
        final(table)@ == old(table)@ + made(
            flag,
            seq![writable(source@, target@, fstype@, options@)],
        ),
{
    if flag {
        table.register_mount(source, target, fstype, options, boot_mount_state());
    }
    assert(table@ =~= old(table)@ + made(
        flag,
        seq![writable(source@, target@, fstype@, options@)],
    ));
}

/// Lists the mounts that the boot made.
pub fn record_boot_mounts(
    table: &mut MountTable,
    root_source: &str,
    root_fstype: &str,
    ok: BootMounts,
)
    ensures
        final(table)@ == boot_mounts(root_source@, root_fstype@, ok),
{
    table.reset_mount_table();
    record_if(table, true, root_source, "/", root_fstype, "rw");
    let ghost root = table@;
    assert(root =~= seq![writable(root_source@, "/"@, root_fstype@, "rw"@)]);
    record_if(table, ok.dev, "devfs", "/dev", "devtmpfs", "rw,nosuid");
    record_if(table, ok.dev, "tmpfs", "/dev/shm", "tmpfs", "rw,nosuid,nodev");
    assert(table@ =~= root + made(
        ok.dev,
        seq![writable("devfs"@, "/dev"@, "devtmpfs"@, "rw,nosuid"@), scratch("/dev/shm"@)],
    ));
    record_if(table, ok.tmp, "tmpfs", "/tmp", "tmpfs", "rw,nosuid,nodev");
    record_if(table, ok.run, "tmpfs", "/run", "tmpfs", "rw,nosuid,nodev");
    let apk: bool = sets_up_var(root_fstype) && ok.apk;
    record_if(table, apk, "tmpfs", "/var/cache/apk", "tmpfs", "rw,nosuid,nodev");
    record_if(table, ok.proc_, "proc", "/proc", "proc", "rw,nosuid,nodev,noexec,relatime");
    record_if(table, ok.sys, "sysfs", "/sys", "sysfs", "rw,nosuid,nodev,noexec,relatime");
}

/// The root is mounted, first, and writable, whatever else fails.
pub proof fn law_root_always_mounted(source: Seq<char>, fstype: Seq<char>, ok: BootMounts)
    ensures
        boot_mounts(source, fstype, ok).len() > 0,
        boot_mounts(source, fstype, ok)[0] == writable(source, "/"@, fstype, "rw"@),
{
}

/// Whether an input device is a mouse by what it can do.
pub open spec fn is_mouse(t: InputTraits) -> bool {
    t.rel_x && t.rel_y && t.btn_left
}

/// A mouse moves both ways and has a left button: without any one of these it is none.
pub proof fn law_mouse_by_traits(t: InputTraits)
    ensures
        is_mouse(t) ==> t.rel_x && t.rel_y && t.btn_left,
        !is_mouse(t) ==> !t.rel_x || !t.rel_y || !t.btn_left,
{
}

/// An option names the root by its value, where its key is `root` in either case; no value, or one that
/// an installer left to be filled in, names none.
pub proof fn law_root_named(option: Seq<char>)
    ensures
        root_option(option) is Some <==> lowered(key_value(option).0) == seq!['r', 'o', 'o', 't']
            && key_value(option).1.len() > 0 && !begins(key_value(option).1, "__ECLIPSE_"@)
            && key_value(option).1 != "/dev/__ECLIPSE_CMDROOTDEV"@,
        root_option(option) matches Some(v) ==> v == key_value(option).1,
{
    reveal_strlit("ROOT");
    assert(lowered("ROOT"@) =~= seq!['r', 'o', 'o', 't']);
}

/// The key and the value of an option are the parts around its first `=`, without blanks.
pub proof fn law_key_and_value(key: Seq<char>, value: Seq<char>)
    requires
        trimmed(key.push('=') + value) == key.push('=') + value,
        forall|i: int| 0 <= i < key.len() ==> #[trigger] key[i] != '=',
    ensures
        key_value(key.push('=') + value) == (trimmed(key), trimmed(value)),
{
    let data = key.push('=') + value;
    law_cut_at_first(data, '=');
    assert(data[key.len() as int] == '=');
    match cut_once(data, '=') {
        Some((k, v)) => {
            let whole = k.push('=') + v;
            assert(whole[k.len() as int] == '=');
            if k.len() < key.len() {
                assert(data[k.len() as int] == key[k.len() as int]);
            }
            if k.len() > key.len() {
                assert(whole[key.len() as int] == k[key.len() as int]);
            }
            assert(k =~= whole.take(k.len() as int));
            assert(key =~= data.take(key.len() as int));
            assert(v =~= whole.skip(k.len() as int + 1));
            assert(value =~= data.skip(key.len() as int + 1));
        },
        None => {},
    }
}

/// The first option that names the root decides.
pub proof fn law_first_root_decides(options: Seq<Seq<char>>, i: int, k: int)
    requires
        0 <= i <= k < options.len(),
        root_option(options[k]) is Some,
        forall|j: int| i <= j < k ==> root_option(#[trigger] options[j]) is None,
    ensures
        first_root(options, i) == root_option(options[k]),
    decreases k - i,
{
    if i < k {
        law_first_root_decides(options, i + 1, k);
    }
}

/// Without an option that names the root there is none.
pub proof fn law_no_root_named(options: Seq<Seq<char>>, i: int)
    requires
        0 <= i <= options.len(),
        forall|j: int| i <= j < options.len() ==> root_option(#[trigger] options[j]) is None,
    ensures
        first_root(options, i) is None,
    decreases options.len() - i,
{
    if i < options.len() {
        law_no_root_named(options, i + 1);
    }
}

/// The first partition of the disk of a partition: its name with 1 for its number; the name of a disk
/// that ends in no number has none.
pub proof fn law_first_partition(stem: Seq<char>, d: Seq<char>)
    requires
        stem.len() == 0 || !('0' <= stem.last() <= '9'),
        forall|i: int| 0 <= i < d.len() ==> '0' <= #[trigger] d[i] <= '9',
    ensures
        d.len() > 0 ==> first_partition(stem + d) == Some(stem.push('1')),
        d.len() == 0 ==> first_partition(stem + d) is None,
{
    lemma_digits_off(stem, d);
    reveal_strlit("p1");
    reveal_strlit("1");
    assert("p1"@ =~= seq!['p', '1']);
    assert("1"@ =~= seq!['1']);
    assert(stem + "1"@ =~= stem.push('1'));
    if stem.len() > 0 && stem.last() == 'p' {
        assert(stem.drop_last() + "p1"@ =~= stem.push('1'));
    }
}

proof fn lemma_digits_off(stem: Seq<char>, d: Seq<char>)
    requires
        stem.len() == 0 || !('0' <= stem.last() <= '9'),
        forall|i: int| 0 <= i < d.len() ==> '0' <= #[trigger] d[i] <= '9',
    ensures
        without_digits(stem + d) == stem,
    decreases d.len(),
{
    if d.len() == 0 {
        assert(stem + d =~= stem);
    } else {
        assert((stem + d).drop_last() =~= stem + d.drop_last());
        assert((stem + d).last() == d[d.len() - 1]);
        assert forall|i: int| 0 <= i < d.drop_last().len() implies '0' <= #[trigger] d.drop_last()[i]
            <= '9' by {
            assert(d.drop_last()[i] == d[i]);
        }
        lemma_digits_off(stem, d.drop_last());
    }
}

/// Which names look like a partition: those that end in a number, and of the disks that end in one
/// themselves those with a `p` and a second number behind it.
pub proof fn law_partition_names(stem: Seq<char>, d: Seq<char>)
    requires
        stem.len() == 0 || !('0' <= stem.last() <= '9'),
        forall|i: int| 0 <= i < d.len() ==> '0' <= #[trigger] d[i] <= '9',
    ensures
        d.len() == 0 ==> !partition_name_like(stem + d),
        d.len() > 0 && !begins(stem + d, "nvme"@) ==> partition_name_like(stem + d),
        d.len() > 0 && begins(stem + d, "nvme"@) ==> (partition_name_like(stem + d) <==> stem.len() > 1
            && stem.last() == 'p' && '0' <= stem[stem.len() - 2] <= '9'),
{
    lemma_digits_off(stem, d);
    if d.len() == 0 {
        assert(stem + d =~= stem);
    } else {
        assert((stem + d).last() == d[d.len() - 1]);
    }
}

/// What is tried as the root of itself: the partitions, or every device where none is a partition, each
/// once and in order.
pub proof fn law_candidates_exact(names: Seq<Seq<char>>, n: int, i: usize)
    requires
        0 <= n <= names.len(),
        names.len() <= usize::MAX,
    ensures
        eligible(names, n).contains(i) <==> i < n && (partition_name_like(names[i as int]) || forall|
            k: int,
        |
            0 <= k < names.len() ==> !partition_name_like(#[trigger] names[k])),
        forall|a: int, b: int|
            0 <= a < b < eligible(names, n).len() ==> #[trigger] eligible(names, n)[a]
                < #[trigger] eligible(names, n)[b],
    decreases n,
{
    if n > 0 {
        law_candidates_exact(names, n - 1, i);
        lemma_eligible_range(names, n - 1);
        let rest = eligible(names, n - 1);
        let all = eligible(names, n);
        if all.len() > rest.len() {
            assert(all == rest.push((n - 1) as usize));
            assert(all[rest.len() as int] == (n - 1) as usize);
            assert forall|a: int, b: int| 0 <= a < b < all.len() implies #[trigger] all[a]
                < #[trigger] all[b] by {
                assert(all[a] == rest[a]);
                if b < rest.len() {
                    assert(all[b] == rest[b]);
                }
            }
            if rest.contains(i) {
                let k = choose|k: int| 0 <= k < rest.len() && rest[k] == i;
                assert(all[k] == i);
            }
            if all.contains(i) && i != (n - 1) as usize {
                let k = choose|k: int| 0 <= k < all.len() && all[k] == i;
                assert(rest[k] == i);
            }
        }
    }
}

/// A device is looked up by the last part of its path, and found as the first of that name.
pub proof fn law_candidate_by_name(names: Seq<Seq<char>>, dev: Seq<char>, k: int)
    requires
        0 <= k < names.len() <= usize::MAX,
    ensures
        names[k] == last_piece(trimmed(dev), '/') ==> (candidate(names, dev) matches Some(i) && i <= k),
        candidate(names, dev) matches Some(i) ==> i < names.len() && names[i as int] == last_piece(
            trimmed(dev),
            '/',
        ),
{
    lemma_name_pos(names, last_piece(trimmed(dev), '/'), 0, k);
}

proof fn lemma_name_pos(names: Seq<Seq<char>>, want: Seq<char>, i: int, k: int)
    requires
        0 <= i <= names.len(),
        0 <= k < names.len(),
    ensures
        i <= name_pos(names, want, i) <= names.len(),
        i <= k && names[k] == want ==> name_pos(names, want, i) <= k,
        name_pos(names, want, i) < names.len() ==> names[name_pos(names, want, i)] == want,
    decreases names.len() - i,
{
    if i < names.len() && names[i] != want {
        lemma_name_pos(names, want, i + 1, k);
    }
}

/// What the table of file systems names is tried next, then what was found, each under `/dev`.
pub proof fn law_found_tried_last(fstab: Seq<char>, names: Seq<Seq<char>>, cmdline: Seq<char>, k: int)
    requires
        cmdline_root(cmdline) is None,
        0 <= k < eligible(names, names.len() as int).len(),
    ensures
        candidate(names, fstab) matches Some(i) ==> {
            let t = root_trials(cmdline, Some(fstab), names);
            &&& t[0].index == i && t[0].source == fstab
            &&& t[k + 1].index == eligible(names, names.len() as int)[k]
            &&& t[k + 1].source == "/dev/"@ + names[t[k + 1].index as int]
            &&& t.len() == 1 + eligible(names, names.len() as int).len()
        },
        root_trials(cmdline, None, names)[k].index == eligible(names, names.len() as int)[k],
        root_trials(cmdline, None, names)[k].source == "/dev/"@ + names[eligible(
            names,
            names.len() as int,
        )[k] as int],
        root_trials(cmdline, None, names).len() == eligible(names, names.len() as int).len(),
{
}

/// Disks are named by their kind and by how many of that kind come before.
pub proof fn law_disks_named(drivers: Seq<Seq<char>>, i: int)
    requires
        0 <= i < drivers.len(),
    ensures
        begins(drivers[i], "nvme"@) ==> disk_node(drivers, i) == "nvme"@ + decimal_text(
            kind_count(drivers, DiskKind::Nvme, i),
        ) + "n1"@,
        !begins(drivers[i], "nvme"@) && begins(drivers[i], "virtio"@) ==> disk_node(drivers, i)
            == "vd"@.push((97 + kind_count(drivers, DiskKind::Virtio, i) % 26) as char),
        !begins(drivers[i], "nvme"@) && !begins(drivers[i], "virtio"@) ==> disk_node(drivers, i)
            == "sd"@.push((97 + kind_count(drivers, DiskKind::Other, i) % 26) as char),
        kind_count(drivers, DiskKind::Nvme, i + 1) == kind_count(drivers, DiskKind::Nvme, i) + (if begins(
            drivers[i],
            "nvme"@,
        ) {
            1nat
        } else {
            0
        }),
        kind_count(drivers, DiskKind::Virtio, i + 1) + kind_count(drivers, DiskKind::Nvme, i + 1)
            + kind_count(drivers, DiskKind::Other, i + 1) == kind_count(drivers, DiskKind::Virtio, i)
            + kind_count(drivers, DiskKind::Nvme, i) + kind_count(drivers, DiskKind::Other, i) + 1,
        kind_count(drivers, DiskKind::Nvme, 0) == 0,
{
}

/// A partition is named by its disk and its number, with a `p` between where the disk ends in a number.
pub proof fn law_partitions_named(disk: Seq<char>, num: nat)
    ensures
        begins(disk, "nvme"@) ==> partition_node(disk, num) == disk.push('p') + decimal_text(num),
        !begins(disk, "nvme"@) ==> partition_node(disk, num) == disk + decimal_text(num),
{
    reveal_strlit("p");
    assert("p"@ =~= seq!['p']);
    assert(disk + "p"@ =~= disk.push('p'));
}

/// The partitions of a disk get the numbers after its own.
pub proof fn law_partitions_numbered(
    nodes: Seq<PartitionNode>,
    disk: Seq<char>,
    parts: Seq<(usize, usize)>,
    base: int,
    k: int,
)
    requires
        nodes_for(nodes, disk, parts, base),
        0 <= k < parts.len(),
    ensures
        nodes.len() == parts.len(),
        nodes[k].index == base + k + 1,
        nodes[k].name@ == partition_node(disk, (k + 1) as nat),
        nodes[k].start_block == parts[k].0,
        nodes[k].block_count == parts[k].1,
{
}

/// As many file systems are mounted at the boot as could be made; the cache of packages only on a root
/// that does not keep it itself.
pub proof fn law_boot_mounts_counted(source: Seq<char>, fstype: Seq<char>, ok: BootMounts)
    ensures
        boot_mounts(source, fstype, ok).len() == 1 + (if ok.dev {
            2nat
        } else {
            0
        }) + (if ok.tmp {
            1nat
        } else {
            0
        }) + (if ok.run {
            1nat
        } else {
            0
        }) + (if ok.apk && fstype != "btrfs"@ {
            1nat
        } else {
            0
        }) + (if ok.proc_ {
            1nat
        } else {
            0
        }) + (if ok.sys {
            1nat
        } else {
            0
        }),
        forall|i: int|
            0 <= i < boot_mounts(source, fstype, ok).len() ==> !(#[trigger] boot_mounts(
                source,
                fstype,
                ok,
            )[i]).read_only,
{
}

/// Each option of a command line asks for itself alone whether to stay on the boot medium; an option
/// does so that is `ROOTKEEP=1` but for case and blanks around it, and no other.
pub proof fn law_stays_by_option(a: Seq<char>, b: Seq<char>)
    ensures
        stays(a.push(':') + b) <==> stays(a) || stays(b),
        (forall|i: int| 0 <= i < b.len() ==> #[trigger] b[i] != ':') ==> (stays(b) <==> lowered(
            trimmed(b),
        ) == seq!['r', 'o', 'o', 't', 'k', 'e', 'e', 'p', '=', '1']),
{
    crate::text::law_pieces_of_both(a, b, ':');
    let s = split_at_all(a.push(':') + b, Sep::Is(':'));
    let sa = split_at_all(a, Sep::Is(':'));
    let sb = split_at_all(b, Sep::Is(':'));
    if stays(a) {
        let i = choose|i: int| 0 <= i < sa.len() && keeps_boot(#[trigger] sa[i]);
        assert(keeps_boot(s[i]));
    }
    if stays(b) {
        let i = choose|i: int| 0 <= i < sb.len() && keeps_boot(#[trigger] sb[i]);
        assert(s[sa.len() + i] == sb[i]);
        assert(keeps_boot(s[sa.len() + i]));
    }
    if stays(a.push(':') + b) {
        let i = choose|i: int| 0 <= i < s.len() && keeps_boot(#[trigger] s[i]);
        if i < sa.len() {
            assert(keeps_boot(sa[i]));
        } else {
            assert(keeps_boot(sb[i - sa.len()]));
        }
    }
    reveal_strlit("ROOTKEEP=1");
    let word = seq!['r', 'o', 'o', 't', 'k', 'e', 'e', 'p', '=', '1'];
    assert(lowered("ROOTKEEP=1"@) =~= word);
    if forall|i: int| 0 <= i < b.len() ==> #[trigger] b[i] != ':' {
        assert(sb[0] == b);
        if keeps_boot(b) {
            assert(stays(b));
        }
    }
}

/// The record of an input device marks it as a keyboard, a mouse, both or neither, each mark being
/// there exactly where it applies and adding nothing else. All records begin and end alike.
pub proof fn law_device_record(keyboard: bool, mouse: bool)
    ensures
        udev_text(true, mouse).len() == udev_text(false, mouse).len() + "E:ID_INPUT_KEYBOARD=1\n"@.len(),
        udev_text(keyboard, true).len() == udev_text(keyboard, false).len()
            + "E:ID_INPUT_MOUSE=1\n"@.len(),
        "I:1\nE:ID_INPUT=1\n"@.is_prefix_of(udev_text(keyboard, mouse)),
        udev_text(keyboard, mouse).skip(
            udev_text(keyboard, mouse).len() - "G:seat\nQ:seat\nV:1\n"@.len(),
        ) == "G:seat\nQ:seat\nV:1\n"@,
        udev_text(true, mouse) == "I:1\nE:ID_INPUT=1\nE:ID_INPUT_KEYBOARD=1\n"@ + udev_text(
            false,
            mouse,
        ).skip("I:1\nE:ID_INPUT=1\n"@.len() as int),
        udev_text(false, true) == "I:1\nE:ID_INPUT=1\nE:ID_INPUT_MOUSE=1\nG:seat\nQ:seat\nV:1\n"@,
{
    reveal_strlit("I:1\nE:ID_INPUT=1\n");
    reveal_strlit("E:ID_INPUT_KEYBOARD=1\n");
    reveal_strlit("E:ID_INPUT_MOUSE=1\n");
    reveal_strlit("G:seat\nQ:seat\nV:1\n");
    reveal_strlit("I:1\nE:ID_INPUT=1\nE:ID_INPUT_KEYBOARD=1\n");
    reveal_strlit("I:1\nE:ID_INPUT=1\nE:ID_INPUT_MOUSE=1\nG:seat\nQ:seat\nV:1\n");
    assert(udev_text(keyboard, mouse).skip(
        udev_text(keyboard, mouse).len() - "G:seat\nQ:seat\nV:1\n"@.len(),
    ) =~= "G:seat\nQ:seat\nV:1\n"@);
    assert("I:1\nE:ID_INPUT=1\nE:ID_INPUT_KEYBOARD=1\n"@ =~= "I:1\nE:ID_INPUT=1\n"@
        + "E:ID_INPUT_KEYBOARD=1\n"@);
    assert(udev_text(true, mouse) =~= "I:1\nE:ID_INPUT=1\nE:ID_INPUT_KEYBOARD=1\n"@ + udev_text(
        false,
        mouse,
    ).skip("I:1\nE:ID_INPUT=1\n"@.len() as int));
    assert(udev_text(false, true)
        =~= "I:1\nE:ID_INPUT=1\nE:ID_INPUT_MOUSE=1\nG:seat\nQ:seat\nV:1\n"@);
}

} // verus!
