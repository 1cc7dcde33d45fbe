//! Options of a mount.
use vstd::prelude::*;
use crate::text::{
    chars_of, cut_once, lowered, push_str, same_ignoring_case, same_text, split_all, split_at_all,
    law_cut_at_first, law_pieces_of_both, split_once, string_of, text_is, texts, trim, trimmed, Sep,
};

verus! {

pub const MS_RDONLY: usize = 1;

pub const MS_NOSUID: usize = 2;

pub const MS_NODEV: usize = 4;

pub const MS_NOEXEC: usize = 8;

pub const MS_REMOUNT: usize = 32;

pub const MS_BIND: usize = 4096;

pub const MS_MOVE: usize = 8192;

pub const MS_REC: usize = 16384;

pub const MNT_FORCE: usize = 1;

pub const MNT_DETACH: usize = 2;

/// Options that the write paths of a mounted file system look at.
#[derive(Clone, Copy, PartialEq, Eq, Structural, Debug)]
pub struct MountState {
    pub read_only: bool,
}

impl MountState {
    pub fn new(read_only: bool) -> (s: Self)
        ensures
            s.read_only == read_only,
    {
        MountState { read_only }
    }

    pub fn is_read_only(&self) -> (r: bool)
        ensures
            r == self.read_only,
    {
        self.read_only
    }

    pub fn set_read_only(&mut self, read_only: bool)
        ensures
            final(self).read_only == read_only,
    {
        self.read_only = read_only;
    }
}

/// Whether one option turns a key on: the key alone, or the key set to `1` or `true`.
pub open spec fn turns_on(option: Seq<char>, key: Seq<char>) -> bool {
    let o = trimmed(option);
    ||| o == key
    ||| (cut_once(o, '=') matches Some((k, v)) && trimmed(k) == key && (trimmed(v) == "1"@
        || lowered(trimmed(v)) == lowered("true"@)))
}

/// Whether a list of options turns a key on.
pub open spec fn option_on(data: Seq<char>, key: Seq<char>) -> bool {
    exists|i: int|
        0 <= i < split_at_all(data, Sep::Is(',')).len() && turns_on(
            #[trigger] split_at_all(data, Sep::Is(','))[i],
            key,
        )
}

fn option_turns_on(option: &[char], key: &[char]) -> (r: bool)
    ensures
        r == turns_on(option@, key@),
{
    let o = trim(option);
    if same_text(o.as_slice(), key) {
        return true;
    }
    match split_once(o.as_slice(), '=') {
        Some((k, v)) => {
            let kt = trim(k.as_slice());
            let vt = trim(v.as_slice());
            same_text(kt.as_slice(), key) && (text_is(vt.as_slice(), "1") || same_ignoring_case(
                vt.as_slice(),
                "true",
            ))
        },
        None => false,
    }
}

/// Whether a comma-separated list of options turns a key on.
pub fn parse_option_flag(data: &str, key: &str) -> (r: bool)
    ensures
        r == option_on(data@, key@),
{
    let d = chars_of(data);
    let k = chars_of(key);
    let parts = split_all(d.as_slice(), Sep::Is(','));
    let ghost t = split_at_all(data@, Sep::Is(','));
    assert(texts(parts@) == t);
    for i in 0..parts.len()
        invariant
            t == texts(parts@),
            k@ == key@,
            t == split_at_all(data@, Sep::Is(',')),
            forall|j: int| 0 <= j < i ==> !turns_on(#[trigger] t[j], key@),
    {
        if option_turns_on(parts[i].as_slice(), k.as_slice()) {
            assert(turns_on(t[i as int], key@));
            return true;
        }
        assert(t[i as int] == parts@[i as int]@);
    }
    false
}

/// Whether a mount is read-only: by its flags or by its options.
pub open spec fn read_only_mount(flags: usize, data: Seq<char>) -> bool {
    flags & MS_RDONLY != 0 || option_on(data, "ro"@)
}

pub fn flags_read_only(flags: usize, data: &str) -> (r: bool)
    ensures
        r == read_only_mount(flags, data@),
{
    if flags & MS_RDONLY != 0 {
        return true;
    }
    parse_option_flag(data, "ro")
}

/// A text where a flag is set.
pub open spec fn when(flag: bool, s: Seq<char>) -> Seq<char> {
    if flag {
        s
    } else {
        Seq::empty()
    }
}

/// The options of a mount as they are listed.
pub open spec fn options_text(flags: usize, data: Seq<char>) -> Seq<char> {
    (if read_only_mount(flags, data) {
        "ro"@
    } else {
        "rw"@
    }) + when(flags & MS_NOSUID != 0, ",nosuid"@) + when(flags & MS_NODEV != 0, ",nodev"@) + when(
        flags & MS_NOEXEC != 0,
        ",noexec"@,
    ) + when(flags & MS_BIND != 0, ",bind"@) + when(data.len() > 0, ","@ + data)
}

pub fn build_options_string(flags: usize, data: &str) -> (s: String)
    ensures
        s@ == options_text(flags, data@),
{
    let mut v: Vec<char> = Vec::new();
    let ro: bool = flags_read_only(flags, data);
    push_str(
        &mut v,
        if ro {
            "ro"
        } else {
            "rw"
        },
    );
    if flags & MS_NOSUID != 0 {
        push_str(&mut v, ",nosuid");
    }
    if flags & MS_NODEV != 0 {
        push_str(&mut v, ",nodev");
    }
    if flags & MS_NOEXEC != 0 {
        push_str(&mut v, ",noexec");
    }
    if flags & MS_BIND != 0 {
        push_str(&mut v, ",bind");
    }
    let d = chars_of(data);
    if d.len() > 0 {
        push_str(&mut v, ",");
        push_str(&mut v, data);
    }
    assert(v@ =~= options_text(flags, data@));
    string_of(v.as_slice())
}

/// Options are told apart by commas: one is on in a list exactly where it is on in some part of it.
pub proof fn law_option_in_list(a: Seq<char>, b: Seq<char>, key: Seq<char>)
    ensures
        option_on(a.push(',') + b, key) <==> option_on(a, key) || option_on(b, key),
{
    law_pieces_of_both(a, b, ',');
    let p = split_at_all(a, Sep::Is(','));
    let q = split_at_all(b, Sep::Is(','));
    let r = split_at_all(a.push(',') + b, Sep::Is(','));
    if option_on(a, key) {
        let i = choose|i: int| 0 <= i < p.len() && turns_on(#[trigger] p[i], key);
        assert(r[i] == p[i]);
    }
    if option_on(b, key) {
        let i = choose|i: int| 0 <= i < q.len() && turns_on(#[trigger] q[i], key);
        assert(r[p.len() + i] == q[i]);
    }
    if option_on(a.push(',') + b, key) {
        let i = choose|i: int| 0 <= i < r.len() && turns_on(#[trigger] r[i], key);
        if i < p.len() {
            assert(turns_on(p[i], key));
        } else {
            assert(turns_on(q[i - p.len()], key));
        }
    }
}

/// An option that stands alone is on by its name, with blanks around it or without.
pub proof fn law_option_by_name(data: Seq<char>, key: Seq<char>)
    requires
        forall|i: int| 0 <= i < data.len() ==> #[trigger] data[i] != ',',
    ensures
        trimmed(data) == key ==> option_on(data, key),
        (forall|i: int| 0 <= i < trimmed(data).len() ==> #[trigger] trimmed(data)[i] != '=') ==> (
        option_on(data, key) <==> trimmed(data) == key),
{
    law_pieces_of_both(Seq::empty(), data, ',');
    let p = split_at_all(data, Sep::Is(','));
    assert(p[0] == data);
    if trimmed(data) == key {
        assert(turns_on(p[0], key));
    }
    law_cut_at_first(trimmed(data), '=');
    match cut_once(trimmed(data), '=') {
        Some((a, b)) => {
            assert((a.push('=') + b)[a.len() as int] == '=');
        },
        None => {},
    }
    assert(option_on(data, key) <==> turns_on(p[0], key));
}

/// An option with a value is on exactly where the value is `1`, or `true` in either case.
pub proof fn law_option_by_value(key: Seq<char>, value: Seq<char>)
    requires
        trimmed(key.push('=') + value) == key.push('=') + value,
        trimmed(key) == key,
        trimmed(value) == value,
        forall|i: int| 0 <= i < key.len() ==> #[trigger] key[i] != '=',
        forall|i: int| 0 <= i < key.len() ==> #[trigger] key[i] != ',',
        forall|i: int| 0 <= i < value.len() ==> #[trigger] value[i] != ',',
    ensures
        option_on(key.push('=') + value, key) <==> value == seq!['1'] || lowered(value) == seq![
            't',
            'r',
            'u',
            'e',
        ],
{
    let data = key.push('=') + value;
    law_pieces_of_both(Seq::empty(), data, ',');
    let p = split_at_all(data, Sep::Is(','));
    assert(p[0] == data);
    law_cut_at_first(data, '=');
    assert(data[key.len() as int] == '=');
    reveal_strlit("1");
    reveal_strlit("true");
    assert("1"@ =~= seq!['1']);
    assert(lowered("true"@) =~= seq!['t', 'r', 'u', 'e']);
    assert(data.len() == key.len() + 1 + value.len());
    match cut_once(data, '=') {
        Some((k, v)) => {
            let whole = k.push('=') + v;
            assert(whole[k.len() as int] == '=');
            if k.len() < key.len() {
                assert(data[k.len() as int] == key[k.len() as int]);
            }
            if k.len() > key.len() {
                assert(whole[key.len() as int] == k[key.len() as int]);
            }
            assert(k =~= whole.take(k.len() as int));
            assert(key =~= data.take(key.len() as int));
            assert(v =~= whole.skip(k.len() as int + 1));
            assert(value =~= data.skip(key.len() as int + 1));
        },
        None => {},
    }
    assert(option_on(data, key) <==> turns_on(p[0], key));
}

/// A mount is read-only by its flags or by its options, and only by these.
pub proof fn law_read_only_asked(flags: usize, data: Seq<char>)
    ensures
        read_only_mount(flags, data) <==> flags & 1 != 0 || option_on(data, "ro"@),
{
}

/// What is listed of a mount's options: whether it can be written, then each flag that it has, in one
/// order, then its own options.
pub proof fn law_options_listed(flags: usize, data: Seq<char>)
    ensures
        options_text(flags, data) == (if flags & 1 != 0 || option_on(data, "ro"@) {
            "ro"@
        } else {
            "rw"@
        }) + (if flags & 2 != 0 {
            ",nosuid"@
        } else {
            Seq::empty()
        }) + (if flags & 4 != 0 {
            ",nodev"@
        } else {
            Seq::empty()
        }) + (if flags & 8 != 0 {
            ",noexec"@
        } else {
            Seq::empty()
        }) + (if flags & 0x1000 != 0 {
            ",bind"@
        } else {
            Seq::empty()
        }) + (if data.len() > 0 {
            ","@ + data
        } else {
            Seq::empty()
        }),
{
}

} // verus!
