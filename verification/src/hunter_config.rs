//! Lists of programs that always or never may run.
use vstd::prelude::*;
use crate::text::{file_lines, lines_of, string_of, texts, trim, trimmed};

verus! {

/// Largest list that is read, in bytes.
pub const MAX_CONFIG_BYTES: usize = 1048576;

/// An entry of a list.
pub struct PolicyEntry {
    pub path: String,
    /// Whether the entry stands for everything below a directory.
    pub is_prefix: bool,
    pub blacklist: bool,
}

/// An entry of a list, mathematically.
#[verifier::ext_equal]
pub struct PolicyRule {
    pub path: Seq<char>,
    pub is_prefix: bool,
    pub blacklist: bool,
}

/// The rule that a line writes: none for a blank line or a comment. A slash at the end makes it
/// one for a directory.
pub open spec fn rule_of(line: Seq<char>, blacklist: bool) -> Option<PolicyRule> {
    let t = trimmed(line);
    if t.len() == 0 || t[0] == '#' {
        None
    } else {
        Some(PolicyRule { path: t, is_prefix: t.last() == '/', blacklist })
    }
}

/// The rules of lines, in order.
pub open spec fn rules_of(lines: Seq<Seq<char>>, blacklist: bool) -> Seq<PolicyRule>
    decreases lines.len(),
{
    if lines.len() == 0 {
        Seq::empty()
    } else {
        match rule_of(lines.last(), blacklist) {
            Some(r) => rules_of(lines.drop_last(), blacklist).push(r),
            None => rules_of(lines.drop_last(), blacklist),
        }
    }
}

/// Entries by their contents.
pub open spec fn entries_of(v: Seq<PolicyEntry>) -> Seq<PolicyRule> {
    Seq::new(
        v.len(),
        |i: int|
            PolicyRule { path: v[i].path@, is_prefix: v[i].is_prefix, blacklist: v[i].blacklist },
    )
}

/// How much of a list is read.
pub fn bounded_size(size: usize) -> (n: usize)
    ensures
        n == (if size < MAX_CONFIG_BYTES {
            size
        } else {
            MAX_CONFIG_BYTES
        }),
        n <= size,
        n <= 0x10_0000,
        n == size || n == 0x10_0000,
{
    if size < MAX_CONFIG_BYTES {
        size
    } else {
        MAX_CONFIG_BYTES
    }
}

/// The entries of a list file: none where it is not text.
pub fn load_list(content: &[u8], blacklist: bool) -> (v: Vec<PolicyEntry>)
    ensures
        entries_of(v@) == rules_of(file_lines(content@), blacklist),
{
    let lines = lines_of(content);
    let ghost t = texts(lines@);
    let mut v: Vec<PolicyEntry> = Vec::new();
    assert(t.take(0) =~= Seq::empty());
    assert(entries_of(v@) =~= Seq::empty());
    for i in 0..lines.len()
        invariant
            t == texts(lines@),
            entries_of(v@) == rules_of(t.take(i as int), blacklist),
    {
        assert(t.take(i + 1).drop_last() =~= t.take(i as int));
        assert(t[i as int] == lines@[i as int]@);
        let line = trim(lines[i].as_slice());
        let n: usize = line.len();
        if n > 0 && line[0] != '#' {
            let is_prefix: bool = line[n - 1] == '/';
            let e = PolicyEntry { path: string_of(line.as_slice()), is_prefix, blacklist };
            assert(entries_of(v@.push(e)) =~= entries_of(v@).push(
                PolicyRule { path: e.path@, is_prefix, blacklist },
            ));
            v.push(e);
        }
    }
    assert(t.take(t.len() as int) =~= t);
    v
}

/// No comment and no blank line becomes an entry.
pub proof fn law_comments_ignored(lines: Seq<Seq<char>>, blacklist: bool, i: int)
    requires
        0 <= i < rules_of(lines, blacklist).len(),
    ensures
        rules_of(lines, blacklist)[i].path.len() > 0,
        rules_of(lines, blacklist)[i].path[0] != '#',
        rules_of(lines, blacklist)[i].blacklist == blacklist,
    decreases lines.len(),
{
    if i < rules_of(lines.drop_last(), blacklist).len() {
        law_comments_ignored(lines.drop_last(), blacklist, i);
    }
}

/// A line is a rule on the path that it names; one that ends in a slash stands for all below it. A blank
/// line and a comment are none.
pub proof fn law_rules_of_lines(lines: Seq<Seq<char>>, line: Seq<char>, blacklist: bool)
    ensures
        trimmed(line).len() == 0 || trimmed(line)[0] == '#' ==> rules_of(lines.push(line), blacklist)
            == rules_of(lines, blacklist),
        trimmed(line).len() > 0 && trimmed(line)[0] != '#' ==> {
            let r = rules_of(lines.push(line), blacklist);
            &&& r.len() == rules_of(lines, blacklist).len() + 1
            &&& r.drop_last() == rules_of(lines, blacklist)
            &&& r.last().path == trimmed(line)
            &&& r.last().is_prefix <==> trimmed(line).last() == '/'
            &&& r.last().blacklist == blacklist
        },
        rules_of(Seq::empty(), blacklist).len() == 0,
{
    assert(lines.push(line).drop_last() =~= lines);
    match rule_of(line, blacklist) {
        Some(r) => {
            assert(rules_of(lines, blacklist).push(r).drop_last() =~= rules_of(lines, blacklist));
        },
        None => {},
    }
}

} // verus!
