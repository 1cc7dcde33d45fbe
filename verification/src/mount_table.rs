//! The table of mounts.
use vstd::prelude::*;
use crate::error::LxError;
use crate::mount_state::{
    build_options_string, flags_read_only, option_on, options_text, read_only_mount, MountState,
};
use crate::text::{
    chars_of, push_str, string_of, text_is, trim, trim_end_matches, trimmed, without_tail,
};

verus! {

/// One mount.
pub struct MountEntry {
    pub source: String,
    pub target: String,
    pub fstype: String,
    pub options: String,
    pub state: MountState,
}

/// One mount, mathematically.
#[verifier::ext_equal]
pub struct Mount {
    pub source: Seq<char>,
    pub target: Seq<char>,
    pub fstype: Seq<char>,
    pub options: Seq<char>,
    pub read_only: bool,
}

impl View for MountEntry {
    type V = Mount;

    open spec fn view(&self) -> Mount {
        Mount {
            source: self.source@,
            target: self.target@,
            fstype: self.fstype@,
            options: self.options@,
            read_only: self.state.read_only,
        }
    }
}

/// The mounts, in the order in which they were made.
pub struct MountTable {
    pub mounts: Vec<MountEntry>,
}

impl View for MountTable {
    type V = Seq<Mount>;

    open spec fn view(&self) -> Seq<Mount> {
        Seq::new(self.mounts@.len(), |i: int| self.mounts@[i]@)
    }
}

/// The first mount on a target from `i` on; the length where there is none.
pub open spec fn mount_pos(t: Seq<Mount>, target: Seq<char>, i: int) -> int
    decreases t.len() - i,
{
    if i < 0 || i >= t.len() {
        t.len() as int
    } else if t[i].target == target {
        i
    } else {
        mount_pos(t, target, i + 1)
    }
}

/// A target without white space around it and without slashes at its end.
pub open spec fn normalized(path: Seq<char>) -> Seq<char> {
    let p = trimmed(path);
    if p.len() == 0 || p == "/"@ {
        "/"@
    } else {
        without_tail(p, '/')
    }
}

pub fn normalize_mount_target(path: &str) -> (s: String)
    ensures
        s@ == normalized(path@),
{
    let p = trim(chars_of(path).as_slice());
    if p.len() == 0 || text_is(p.as_slice(), "/") {
        string_of(chars_of("/").as_slice())
    } else {
        string_of(trim_end_matches(p.as_slice(), '/').as_slice())
    }
}

/// The mounts that are not on a target.
pub open spec fn elsewhere(t: Seq<Mount>, target: Seq<char>) -> Seq<Mount>
    decreases t.len(),
{
    if t.len() == 0 {
        t
    } else if t.last().target == target {
        elsewhere(t.drop_last(), target)
    } else {
        elsewhere(t.drop_last(), target).push(t.last())
    }
}

/// One line of the listing of mounts.
pub open spec fn mount_line(m: Mount) -> Seq<char> {
    m.source + " "@ + m.target + " "@ + m.fstype + " "@ + m.options + " 0 0\n"@
}

/// The listing of mounts.
pub open spec fn listing(t: Seq<Mount>) -> Seq<char>
    decreases t.len(),
{
    if t.len() == 0 {
        Seq::empty()
    } else {
        listing(t.drop_last()) + mount_line(t.last())
    }
}

/// The state of a mount that the boot makes: writable.
pub fn boot_mount_state() -> (s: MountState)
    ensures
        !s.read_only,
{
    MountState::new(false)
}

impl MountTable {
    pub fn new() -> (t: Self)
        ensures
            t@ == Seq::<Mount>::empty(),
    {
        let t = MountTable { mounts: Vec::new() };
        assert(t@ =~= Seq::<Mount>::empty());
        t
    }

    pub fn reset_mount_table(&mut self)
        ensures
            final(self)@ == Seq::<Mount>::empty(),
    {
        self.mounts.clear();
        assert(self@ =~= Seq::<Mount>::empty());
    }

    pub fn register_mount(
        &mut self,
        source: &str,
        target: &str,
        fstype: &str,
        options: &str,
        state: MountState,
    )
        ensures
            final(self)@ == old(self)@.push(
                Mount {
                    source: source@,
                    target: target@,
                    fstype: fstype@,
                    options: options@,
                    read_only: state.read_only,
                },
            ),
    {
        self.mounts.push(
            MountEntry {
                source: source.to_owned(),
                target: target.to_owned(),
                fstype: fstype.to_owned(),
                options: options.to_owned(),
                state,
            },
        );
        assert(self@ =~= old(self)@.push(
            Mount {
                source: source@,
                target: target@,
                fstype: fstype@,
                options: options@,
                read_only: state.read_only,
            },
        ));
    }

    /// Forgets every mount on a target.
    pub fn unregister_mount(&mut self, target: &str)
        ensures
            final(self)@ == elsewhere(old(self)@, target@),
    {
        let want: String = target.to_owned();
        let mut i: usize = self.mounts.len();
        let ghost all = self@;
        let ghost mut kept: Seq<Mount> = Seq::empty();
        assert(all.take(i as int) =~= all);
        assert(all =~= all + kept);
        assert(elsewhere(all, target@) + kept =~= elsewhere(all, target@));
        while i > 0
            invariant
                i <= self.mounts@.len(),
                i <= all.len(),
                want@ == target@,
                all == old(self)@,
                self@ == all.take(i as int) + kept,
                elsewhere(all.take(i as int), target@) + kept == elsewhere(all, target@),
            decreases i,
        {
            i = i - 1;
            let ghost before = self@;
            assert(all.take(i + 1).drop_last() =~= all.take(i as int));
            assert(before[i as int] == all[i as int]);
            assert(before[i as int] == self.mounts@[i as int]@);
            if self.mounts[i].target == want {
                let ghost held = self.mounts@;
                let _ = self.mounts.remove(i);
                assert(self@ =~= before.remove(i as int)) by {
                    assert(self.mounts@ == held.remove(i as int));
                }
                assert(before.remove(i as int) =~= all.take(i as int) + kept);
                assert(self@ =~= all.take(i as int) + kept);
            } else {
                proof {
                    let more = seq![all[i as int]] + kept;
                    assert(all.take(i + 1) + kept =~= all.take(i as int) + more);
                    assert(elsewhere(all.take(i as int), target@).push(all[i as int]) + kept
                        =~= elsewhere(all.take(i as int), target@) + more);
                    kept = more;
                }
            }
        }
        assert(all.take(0) =~= Seq::empty());
        assert(self@ =~= kept);
        assert(elsewhere(all.take(0), target@) + kept =~= kept);
    }

    fn position(&self, target: &String) -> (r: Option<usize>)
        ensures
            match r {
                Some(i) => i == mount_pos(self@, target@, 0) && i < self@.len(),
                None => mount_pos(self@, target@, 0) == self@.len(),
            },
    {
        let mut i: usize = 0;
        while i < self.mounts.len()
            invariant
                i <= self.mounts@.len(),
                mount_pos(self@, target@, 0) == mount_pos(self@, target@, i as int),
            decreases self.mounts@.len() - i,
        {
            assert(self@[i as int] == self.mounts@[i as int]@);
            if self.mounts[i].target == *target {
                return Some(i);
            }
            i = i + 1;
        }
        None
    }

    /// Gives the mount on a target new options.
    pub fn remount_flags(&mut self, target: &str, flags: usize, data: &str) -> (r: Result<
        (),
        LxError,
    >)
        ensures
            ({
                let i = mount_pos(old(self)@, normalized(target@), 0);
                if i < old(self)@.len() {
                    &&& r == Ok::<(), LxError>(())
                    &&& final(self)@ == old(self)@.update(
                        i,
                        remounted(old(self)@[i], flags, data@),
                    )
                } else {
                    r == Err::<(), LxError>(LxError::EINVAL) && final(self)@ == old(self)@
                }
            }),
    {
        let want = normalize_mount_target(target);
        match self.position(&want) {
            None => Err(LxError::EINVAL),
            Some(i) => {
                let ro: bool = flags_read_only(flags, data);
                let opts = build_options_string(flags, data);
                self.mounts[i].state.set_read_only(ro);
                self.mounts[i].options = opts;
                assert(self@ =~= old(self)@.update(
                    i as int,
                    Mount {
                        options: options_text(flags, data@),
                        read_only: read_only_mount(flags, data@),
                        ..old(self)@[i as int]
                    },
                ));
                Ok(())
            },
        }
    }

    /// Moves the mount on a target to another.
    pub fn move_mount_entry(&mut self, old_target: &str, new_target: &str) -> (r: Result<
        (),
        LxError,
    >)
        ensures
            ({
                let i = mount_pos(old(self)@, normalized(old_target@), 0);
                if i < old(self)@.len() {
                    &&& r == Ok::<(), LxError>(())
                    &&& final(self)@ == old(self)@.update(
                        i,
                        moved_to(old(self)@[i], new_target@),
                    )
                } else {
                    r == Err::<(), LxError>(LxError::EINVAL) && final(self)@ == old(self)@
                }
            }),
    {
        let from = normalize_mount_target(old_target);
        let to = normalize_mount_target(new_target);
        match self.position(&from) {
            None => Err(LxError::EINVAL),
            Some(i) => {
                self.mounts[i].target = to;
                assert(self@ =~= old(self)@.update(
                    i as int,
                    Mount { target: normalized(new_target@), ..old(self)@[i as int] },
                ));
                Ok(())
            },
        }
    }

    /// The mounts as `/proc/mounts` lists them, one line each.
    pub fn proc_mounts_content(&self) -> (s: String)
        ensures
            s@ == listing(self@),
    {
        let mut v: Vec<char> = Vec::new();
        assert(self@.take(0) =~= Seq::empty());
        assert(v@ =~= listing(self@.take(0)));
        for i in 0..self.mounts.len()
            invariant
                v@ == listing(self@.take(i as int)),
        {
            let m = &self.mounts[i];
            let ghost before = v@;
            assert(self@.take(i + 1).drop_last() =~= self@.take(i as int));
            push_str(&mut v, m.source.as_str());
            push_str(&mut v, " ");
            push_str(&mut v, m.target.as_str());
            push_str(&mut v, " ");
            push_str(&mut v, m.fstype.as_str());
            push_str(&mut v, " ");
            push_str(&mut v, m.options.as_str());
            push_str(&mut v, " 0 0\n");
            assert(self@[i as int] == m@);
            assert(v@ =~= before + mount_line(m@));
        }
        assert(self@.take(self@.len() as int) =~= self@);
        string_of(v.as_slice())
    }
}

/// After a target is forgotten nothing is mounted there, and every other mount stays, in order.
pub proof fn law_unregister_exact(t: Seq<Mount>, target: Seq<char>, m: Mount)
    ensures
        elsewhere(t, target).contains(m) <==> t.contains(m) && m.target != target,
    decreases t.len(),
{
    if t.len() > 0 {
        law_unregister_exact(t.drop_last(), target, m);
        let head = elsewhere(t.drop_last(), target);
        assert(t =~= t.drop_last().push(t.last()));
        if t.contains(m) {
            let i = choose|i: int| 0 <= i < t.len() && t[i] == m;
            if i < t.len() - 1 {
                assert(t.drop_last()[i] == m);
            }
        }
        if t.drop_last().contains(m) {
            let i = choose|i: int| 0 <= i < t.drop_last().len() && t.drop_last()[i] == m;
            assert(t[i] == m);
        }
        if t.last().target != target {
            let all = head.push(t.last());
            assert(all.last() == t.last());
            if all.contains(m) {
                let i = choose|i: int| 0 <= i < all.len() && all[i] == m;
                if i < head.len() {
                    assert(head[i] == m);
                }
            }
            if head.contains(m) {
                let i = choose|i: int| 0 <= i < head.len() && head[i] == m;
                assert(all[i] == m);
            }
        }
    }
}

/// A normalised target has no slash at its end, but for the root itself.
pub proof fn law_normalized_no_slash(path: Seq<char>)
    ensures
        normalized(path) == "/"@ || normalized(path).len() == 0 || normalized(path).last() != '/',
{
    lemma_without_tail(trimmed(path), '/');
}

proof fn lemma_without_tail(s: Seq<char>, c: char)
    ensures
        without_tail(s, c).len() == 0 || without_tail(s, c).last() != c,
    decreases s.len(),
{
    if s.len() > 0 && s.last() == c {
        lemma_without_tail(s.drop_last(), c);
    }
}

/// A mount with new flags and options.
pub open spec fn remounted(m: Mount, flags: usize, data: Seq<char>) -> Mount {
    Mount {
        options: options_text(flags, data),
        read_only: read_only_mount(flags, data),
        ..m
    }
}

/// A mount on another target.
pub open spec fn moved_to(m: Mount, target: Seq<char>) -> Mount {
    Mount { target: normalized(target), ..m }
}

/// A remount leaves what is mounted and where as they are, and is read-only where its flags or its
/// options ask for that; what it lists as its options says the same.
pub proof fn law_remount_keeps_place(m: Mount, flags: usize, data: Seq<char>)
    ensures
        remounted(m, flags, data).source == m.source,
        remounted(m, flags, data).target == m.target,
        remounted(m, flags, data).fstype == m.fstype,
        remounted(m, flags, data).read_only <==> flags & 1 != 0 || option_on(data, "ro"@),
        remounted(m, flags, data).read_only ==> remounted(m, flags, data).options.take(2) == "ro"@,
        !remounted(m, flags, data).read_only ==> remounted(m, flags, data).options.take(2) == "rw"@,
{
    reveal_strlit("ro");
    reveal_strlit("rw");
    let o = options_text(flags, data);
    assert(o.len() >= 2);
    assert(o.take(2) =~= (if read_only_mount(flags, data) {
        "ro"@
    } else {
        "rw"@
    }));
}

/// A move changes the target of a mount and nothing else.
pub proof fn law_move_keeps_mount(m: Mount, target: Seq<char>)
    ensures
        moved_to(m, target).source == m.source,
        moved_to(m, target).fstype == m.fstype,
        moved_to(m, target).options == m.options,
        moved_to(m, target).read_only == m.read_only,
        moved_to(m, target).target == normalized(target),
{
}

/// A target is looked up as its first mount, and found wherever it has one.
pub proof fn law_first_mount_found(t: Seq<Mount>, target: Seq<char>, k: int)
    requires
        0 <= k < t.len(),
    ensures
        t[k].target == target ==> mount_pos(t, target, 0) <= k,
        mount_pos(t, target, 0) < t.len() ==> mount_pos(t, target, 0) >= 0 && t[mount_pos(
            t,
            target,
            0,
        )].target == target,
{
    lemma_pos(t, target, 0, k);
}

proof fn lemma_pos(t: Seq<Mount>, target: Seq<char>, i: int, k: int)
    requires
        0 <= i <= t.len(),
        0 <= k < t.len(),
    ensures
        i <= mount_pos(t, target, i) <= t.len(),
        i <= k && t[k].target == target ==> mount_pos(t, target, i) <= k,
        mount_pos(t, target, i) < t.len() ==> t[mount_pos(t, target, i)].target == target,
    decreases t.len() - i,
{
    if i < t.len() && t[i].target != target {
        lemma_pos(t, target, i + 1, k);
    }
}

/// A target is its path without blanks around it and slashes at its end; the root, and no path at all,
/// is `/`.
pub proof fn law_targets_normalized(path: Seq<char>)
    ensures
        trimmed(path).len() == 0 ==> normalized(path) == "/"@,
        trimmed(path) == "/"@ ==> normalized(path) == "/"@,
        trimmed(path).len() > 0 && trimmed(path).last() != '/' ==> normalized(path) == trimmed(path),
        normalized(path) != "/"@ ==> normalized(path).len() <= trimmed(path).len() && normalized(path)
            == trimmed(path).take(normalized(path).len() as int),
{
    reveal_strlit("/");
    let p = trimmed(path);
    lemma_tail_prefix(p, '/');
}

proof fn lemma_tail_prefix(s: Seq<char>, c: char)
    ensures
        without_tail(s, c).len() <= s.len(),
        without_tail(s, c) == s.take(without_tail(s, c).len() as int),
    decreases s.len(),
{
    if s.len() > 0 && s.last() == c {
        lemma_tail_prefix(s.drop_last(), c);
        assert(without_tail(s, c) =~= s.take(without_tail(s, c).len() as int));
    } else {
        assert(s.take(s.len() as int) =~= s);
    }
}

/// A mount is listed behind those before it, on a line of its own: what, where, which kind and how.
pub proof fn law_mounts_listed(t: Seq<Mount>, m: Mount)
    ensures
        listing(t.push(m)) == listing(t) + m.source + seq![' '] + m.target + seq![' '] + m.fstype + seq![
            ' ',
        ] + m.options + seq![' ', '0', ' ', '0', '\n'],
        listing(Seq::empty()).len() == 0,
{
    reveal_strlit(" ");
    reveal_strlit(" 0 0\n");
    assert(" "@ =~= seq![' ']);
    assert(" 0 0\n"@ =~= seq![' ', '0', ' ', '0', '\n']);
    assert(t.push(m).drop_last() =~= t);
    assert(listing(t.push(m)) =~= listing(t) + m.source + seq![' '] + m.target + seq![' '] + m.fstype
        + seq![' '] + m.options + seq![' ', '0', ' ', '0', '\n']);
}

/// To unmount a target takes its mounts off the list and leaves the others in their order.
pub proof fn law_unmount_keeps_order(t: Seq<Mount>, m: Mount, target: Seq<char>)
    ensures
        m.target == target ==> elsewhere(t.push(m), target) == elsewhere(t, target),
        m.target != target ==> elsewhere(t.push(m), target) == elsewhere(t, target).push(m),
{
    assert(t.push(m).drop_last() =~= t);
}

} // verus!
