//! Text as sequences of characters: splitting, trimming, comparing and numbers.
use vstd::prelude::*;
use vstd::string::*;
use vstd::utf8::{decode_utf8, valid_utf8};

verus! {

/// `String::push`: appends one character to the end of a string.
pub assume_specification[ String::push ](s: &mut String, c: char)
    ensures
        final(s)@ == old(s)@.push(c),
;

/// `core::str::from_utf8`: the text that bytes encode in UTF-8, and nothing where they are not
/// UTF-8.
#[verifier::external_body]
fn from_utf8(bytes: &[u8]) -> (r: Option<&str>)
    ensures
        r is Some <==> valid_utf8(bytes@),
        r matches Some(s) ==> s@ == decode_utf8(bytes@),
{
    match core::str::from_utf8(bytes) {
        Ok(s) => Some(s),
        Err(_) => None,
    }
}

/// The lines of a text file: none where its bytes are not UTF-8.
pub open spec fn file_lines(bytes: Seq<u8>) -> Seq<Seq<char>> {
    if valid_utf8(bytes) {
        split_at_all(decode_utf8(bytes), Sep::Is('\n'))
    } else {
        Seq::empty()
    }
}

pub fn lines_of(bytes: &[u8]) -> (lines: Vec<Vec<char>>)
    ensures
        texts(lines@) == file_lines(bytes@),
{
    match from_utf8(bytes) {
        Some(s) => {
            let cs = chars_of(s);
            split_all(cs.as_slice(), Sep::Is('\n'))
        },
        None => {
            let lines: Vec<Vec<char>> = Vec::new();
            assert(texts(lines@) =~= Seq::empty());
            lines
        },
    }
}

/// The characters of a string.
pub fn chars_of(s: &str) -> (v: Vec<char>)
    ensures
        v@ == s@,
{
    let mut v: Vec<char> = Vec::new();
    for c in it: s.chars()
        invariant
            it.seq() == s@,
            v@ == it.seq().take(it.index() as int),
    {
        v.push(c);
        assert(v@ =~= it.seq().take(it.index() as int + 1));
    }
    assert(v@ =~= s@);
    v
}

/// The string of some characters.
pub fn string_of(cs: &[char]) -> (s: String)
    ensures
        s@ == cs@,
{
    let mut s = String::new();
    for i in 0..cs.len()
        invariant
            s@ == cs@.take(i as int),
    {
        s.push(cs[i]);
        assert(s@ =~= cs@.take(i as int + 1));
    }
    assert(s@ =~= cs@);
    s
}

/// Whether two texts are the same.
pub fn same_text(a: &[char], b: &[char]) -> (r: bool)
    ensures
        r == (a@ == b@),
{
    if a.len() != b.len() {
        return false;
    }
    for i in 0..a.len()
        invariant
            a@.len() == b@.len(),
            a@.take(i as int) == b@.take(i as int),
    {
        if a[i] != b[i] {
            assert(a@[i as int] != b@[i as int]);
            return false;
        }
        assert(a@.take(i as int + 1) =~= b@.take(i as int + 1)) by {
            assert(a@.take(i as int + 1) =~= a@.take(i as int).push(a@[i as int]));
            assert(b@.take(i as int + 1) =~= b@.take(i as int).push(b@[i as int]));
        }
    }
    assert(a@ =~= a@.take(a@.len() as int));
    assert(b@ =~= b@.take(a@.len() as int));
    true
}

/// Whether a text is a given string.
pub fn text_is(a: &[char], b: &str) -> (r: bool)
    ensures
        r == (a@ == b@),
{
    let w = chars_of(b);
    same_text(a, w.as_slice())
}

/// Whether a text starts with another.
pub open spec fn begins(a: Seq<char>, p: Seq<char>) -> bool {
    p.len() <= a.len() && a.take(p.len() as int) == p
}

pub fn starts_with(a: &[char], p: &str) -> (r: bool)
    ensures
        r == begins(a@, p@),
{
    let w = chars_of(p);
    if w.len() > a.len() {
        return false;
    }
    let head: &[char] = &a[0..w.len()];
    assert(head@ =~= a@.take(w@.len() as int));
    same_text(head, w.as_slice())
}

/// What follows a prefix, where the text has it.
pub open spec fn after(a: Seq<char>, p: Seq<char>) -> Option<Seq<char>> {
    if begins(a, p) {
        Some(a.skip(p.len() as int))
    } else {
        None
    }
}

pub fn strip_prefix(a: &[char], p: &str) -> (r: Option<Vec<char>>)
    ensures
        match r {
            Some(v) => after(a@, p@) == Some(v@),
            None => after(a@, p@) is None,
        },
{
    if starts_with(a, p) {
        let w = chars_of(p);
        let rest: &[char] = &a[w.len()..a.len()];
        assert(rest@ =~= a@.skip(p@.len() as int));
        Some(copy_text(rest))
    } else {
        None
    }
}

/// A copy of a text.
pub fn copy_text(a: &[char]) -> (v: Vec<char>)
    ensures
        v@ == a@,
{
    let mut v: Vec<char> = Vec::new();
    for i in 0..a.len()
        invariant
            v@ == a@.take(i as int),
    {
        v.push(a[i]);
        assert(v@ =~= a@.take(i as int + 1));
    }
    assert(v@ =~= a@);
    v
}

/// Appends a text.
pub fn push_text(v: &mut Vec<char>, a: &[char])
    ensures
        final(v)@ == old(v)@ + a@,
{
    for i in 0..a.len()
        invariant
            v@ == old(v)@ + a@.take(i as int),
    {
        v.push(a[i]);
        assert(v@ =~= old(v)@ + a@.take(i as int + 1));
    }
    assert(a@.take(a@.len() as int) =~= a@);
}

/// Appends a string.
pub fn push_str(v: &mut Vec<char>, s: &str)
    ensures
        final(v)@ == old(v)@ + s@,
{
    let w = chars_of(s);
    push_text(v, w.as_slice());
}

/// White space, as Unicode has it.
pub open spec fn white(c: char) -> bool {
    let n = c as int;
    ||| 9 <= n <= 13
    ||| n == 32
    ||| n == 0x85
    ||| n == 0xa0
    ||| n == 0x1680
    ||| 0x2000 <= n <= 0x200a
    ||| n == 0x2028
    ||| n == 0x2029
    ||| n == 0x202f
    ||| n == 0x205f
    ||| n == 0x3000
}

pub fn is_white(c: char) -> (r: bool)
    ensures
        r == white(c),
{
    let n: u32 = c as u32;
    (9 <= n && n <= 13) || n == 32 || n == 0x85 || n == 0xa0 || n == 0x1680 || (0x2000 <= n && n
        <= 0x200a) || n == 0x2028 || n == 0x2029 || n == 0x202f || n == 0x205f || n == 0x3000
}

/// A text without white space at its start.
pub open spec fn trimmed_start(s: Seq<char>) -> Seq<char>
    decreases s.len(),
{
    if s.len() > 0 && white(s[0]) {
        trimmed_start(s.skip(1))
    } else {
        s
    }
}

/// A text without white space at its end.
pub open spec fn trimmed_end(s: Seq<char>) -> Seq<char>
    decreases s.len(),
{
    if s.len() > 0 && white(s.last()) {
        trimmed_end(s.drop_last())
    } else {
        s
    }
}

/// A text without white space at either end.
pub open spec fn trimmed(s: Seq<char>) -> Seq<char> {
    trimmed_end(trimmed_start(s))
}

pub fn trim(a: &[char]) -> (v: Vec<char>)
    ensures
        v@ == trimmed(a@),
{
    let n: usize = a.len();
    let mut i: usize = 0;
    assert(a@.skip(0) =~= a@);
    while i < n && is_white(a[i])
        invariant
            i <= n,
            n == a@.len(),
            trimmed_start(a@) == trimmed_start(a@.skip(i as int)),
        decreases n - i,
    {
        assert(a@.skip(i as int).skip(1) =~= a@.skip(i as int + 1));
        i = i + 1;
    }
    let ghost s = a@.skip(i as int);
    let mut j: usize = n;
    assert(a@.subrange(i as int, j as int) =~= s);
    while j > i && is_white(a[j - 1])
        invariant
            i <= j <= n,
            n == a@.len(),
            trimmed_end(s) == trimmed_end(a@.subrange(i as int, j as int)),
        decreases j,
    {
        assert(a@.subrange(i as int, j as int).drop_last() =~= a@.subrange(i as int, j - 1));
        j = j - 1;
    }
    let mid: &[char] = &a[i..j];
    copy_text(mid)
}

/// What separates the pieces of a text.
#[derive(Clone, Copy)]
pub enum Sep {
    Is(char),
    White,
}

/// Whether a character separates.
pub open spec fn separates(sep: Sep, c: char) -> bool {
    match sep {
        Sep::Is(x) => c == x,
        Sep::White => white(c),
    }
}

/// The pieces between the separators, empty ones too.
pub open spec fn split_at_all(s: Seq<char>, sep: Sep) -> Seq<Seq<char>>
    decreases s.len(),
{
    if s.len() == 0 {
        seq![Seq::empty()]
    } else {
        let r = split_at_all(s.drop_last(), sep);
        if separates(sep, s.last()) {
            r.push(Seq::empty())
        } else {
            r.drop_last().push(r.last().push(s.last()))
        }
    }
}

/// The pieces that are not empty.
pub open spec fn nonempty(p: Seq<Seq<char>>) -> Seq<Seq<char>>
    decreases p.len(),
{
    if p.len() == 0 {
        p
    } else if p.last().len() == 0 {
        nonempty(p.drop_last())
    } else {
        nonempty(p.drop_last()).push(p.last())
    }
}

/// The pieces between the separators that are not empty.
pub open spec fn words(s: Seq<char>, sep: Sep) -> Seq<Seq<char>> {
    nonempty(split_at_all(s, sep))
}

/// Texts by their characters.
pub open spec fn texts(v: Seq<Vec<char>>) -> Seq<Seq<char>> {
    Seq::new(v.len(), |i: int| v[i]@)
}

proof fn lemma_texts_push(v: Seq<Vec<char>>, w: Vec<char>)
    ensures
        texts(v.push(w)) == texts(v).push(w@),
{
    assert(texts(v.push(w)) =~= texts(v).push(w@));
}

fn separator(sep: Sep, c: char) -> (r: bool)
    ensures
        r == separates(sep, c),
{
    match sep {
        Sep::Is(x) => c == x,
        Sep::White => is_white(c),
    }
}

/// Splits a text at its separators.
pub fn split_all(a: &[char], sep: Sep) -> (v: Vec<Vec<char>>)
    ensures
        texts(v@) == split_at_all(a@, sep),
        v@.len() > 0,
{
    let mut v: Vec<Vec<char>> = Vec::new();
    let mut cur: Vec<char> = Vec::new();
    assert(a@.take(0) =~= Seq::empty());
    assert(texts(v@).push(cur@) =~= seq![Seq::<char>::empty()]);
    for i in 0..a.len()
        invariant
            texts(v@).push(cur@) == split_at_all(a@.take(i as int), sep),
    {
        assert(a@.take(i as int + 1).drop_last() =~= a@.take(i as int));
        let c: char = a[i];
        if separator(sep, c) {
            proof {
                lemma_texts_push(v@, cur);
            }
            v.push(cur);
            cur = Vec::new();
        } else {
            assert(texts(v@).push(cur@).drop_last() =~= texts(v@));
            cur.push(c);
        }
    }
    assert(a@.take(a@.len() as int) =~= a@);
    proof {
        lemma_texts_push(v@, cur);
    }
    v.push(cur);
    v
}

/// The pieces of a text that are not empty.
pub fn split_words(a: &[char], sep: Sep) -> (v: Vec<Vec<char>>)
    ensures
        texts(v@) == words(a@, sep),
{
    let p = split_all(a, sep);
    let mut v: Vec<Vec<char>> = Vec::new();
    let ghost t = texts(p@);
    assert(t.take(0) =~= Seq::empty());
    assert(texts(v@) =~= nonempty(t.take(0)));
    for i in 0..p.len()
        invariant
            t == texts(p@),
            texts(v@) == nonempty(t.take(i as int)),
    {
        assert(t.take(i as int + 1).drop_last() =~= t.take(i as int));
        if p[i].len() > 0 {
            let w = copy_text(p[i].as_slice());
            proof {
                lemma_texts_push(v@, w);
            }
            v.push(w);
        }
    }
    assert(t.take(t.len() as int) =~= t);
    v
}

/// The number that decimal digits write.
pub open spec fn digits_value(s: Seq<char>) -> Option<int>
    decreases s.len(),
{
    if s.len() == 0 {
        Some(0)
    } else {
        match digits_value(s.drop_last()) {
            Some(n) => if '0' <= s.last() && s.last() <= '9' {
                Some(n * 10 + (s.last() as int - 48))
            } else {
                None
            },
            None => None,
        }
    }
}

/// The number that a text writes: digits behind an optional plus sign, up to `max`.
pub open spec fn parsed(s: Seq<char>, max: int) -> Option<int> {
    let body = if s.len() > 0 && s[0] == '+' {
        s.skip(1)
    } else {
        s
    };
    if body.len() == 0 {
        None
    } else {
        match digits_value(body) {
            Some(n) => if n <= max {
                Some(n)
            } else {
                None
            },
            None => None,
        }
    }
}

fn digits(a: &[char], from: usize, max: u64) -> (r: Option<u64>)
    requires
        from <= a@.len(),
    ensures
        match r {
            Some(n) => digits_value(a@.skip(from as int)) == Some(n as int) && n <= max,
            None => match digits_value(a@.skip(from as int)) {
                Some(n) => n > max,
                None => true,
            },
        },
{
    let ghost body = a@.skip(from as int);
    let mut i: usize = from;
    let mut value: u64 = 0;
    let mut over: bool = false;
    let mut bad: bool = false;
    assert(body.take(0) =~= Seq::empty());
    while i < a.len()
        invariant
            from <= i <= a@.len(),
            body == a@.skip(from as int),
            match digits_value(body.take(i - from)) {
                Some(n) => !bad && n >= 0 && (over ==> n > max) && (!over ==> n == value && value
                    <= max),
                None => bad,
            },
        decreases a@.len() - i,
    {
        assert(body.take(i - from + 1).drop_last() =~= body.take(i - from));
        assert(body.take(i - from + 1).last() == a@[i as int]);
        let c: char = a[i];
        if bad || !('0' <= c && c <= '9') {
            bad = true;
        } else if !over {
            let d: u64 = c as u32 as u64 - 48;
            if value > max / 10 || value * 10 > max - (if d > max { max } else { d }) || d
                > max {
                over = true;
            } else {
                value = value * 10 + d;
            }
        }
        i = i + 1;
    }
    assert(body.take(body.len() as int) =~= body);
    if bad || over {
        None
    } else {
        Some(value)
    }
}

/// Reads an unsigned number of 32 bits.
pub fn parse_u32(a: &[char]) -> (r: Option<u32>)
    ensures
        match r {
            Some(n) => parsed(a@, u32::MAX as int) == Some(n as int),
            None => parsed(a@, u32::MAX as int) is None,
        },
{
    let from: usize = if a.len() > 0 && a[0] == '+' {
        1
    } else {
        0
    };
    assert(a@.skip(0) =~= a@);
    if from == a.len() {
        return None;
    }
    match digits(a, from, 0xffff_ffff) {
        Some(n) => Some(n as u32),
        None => None,
    }
}

/// The number that a text writes, signed, of 32 bits.
pub open spec fn parsed_signed(s: Seq<char>) -> Option<int> {
    if s.len() > 0 && s[0] == '-' {
        if s.len() == 1 {
            None
        } else {
            match digits_value(s.skip(1)) {
                Some(n) => if n <= 0x8000_0000 {
                    Some(-n)
                } else {
                    None
                },
                None => None,
            }
        }
    } else {
        parsed(s, i32::MAX as int)
    }
}

/// Reads a signed number of 32 bits.
pub fn parse_i32(a: &[char]) -> (r: Option<i32>)
    ensures
        match r {
            Some(n) => parsed_signed(a@) == Some(n as int),
            None => parsed_signed(a@) is None,
        },
{
    if a.len() > 0 && a[0] == '-' {
        if a.len() == 1 {
            return None;
        }
        return match digits(a, 1, 0x8000_0000) {
            Some(n) => Some((-(n as i64)) as i32),
            None => None,
        };
    }
    let from: usize = if a.len() > 0 && a[0] == '+' {
        1
    } else {
        0
    };
    assert(a@.skip(0) =~= a@);
    if from == a.len() {
        return None;
    }
    match digits(a, from, 0x7fff_ffff) {
        Some(n) => Some(n as i32),
        None => None,
    }
}

/// The decimal digits of a number.
pub open spec fn decimal_text(n: nat) -> Seq<char>
    decreases n,
{
    if n < 10 {
        seq![((48 + n) as char)]
    } else {
        decimal_text(n / 10).push((48 + n % 10) as char)
    }
}

/// Appends a number in decimal.
pub fn push_number(v: &mut Vec<char>, n: u64)
    ensures
        final(v)@ == old(v)@ + decimal_text(n as nat),
    decreases n,
{
    if n >= 10 {
        push_number(v, n / 10);
    }
    let d: u8 = 48 + (n % 10) as u8;
    v.push(d as char);
    assert(v@ =~= old(v)@ + decimal_text(n as nat));
}

/// A text without a character at its end, however often it stands there.
pub open spec fn without_tail(s: Seq<char>, c: char) -> Seq<char>
    decreases s.len(),
{
    if s.len() > 0 && s.last() == c {
        without_tail(s.drop_last(), c)
    } else {
        s
    }
}

pub fn trim_end_matches(a: &[char], c: char) -> (v: Vec<char>)
    ensures
        v@ == without_tail(a@, c),
{
    let mut j: usize = a.len();
    assert(a@.take(j as int) =~= a@);
    while j > 0 && a[j - 1] == c
        invariant
            j <= a@.len(),
            without_tail(a@, c) == without_tail(a@.take(j as int), c),
        decreases j,
    {
        assert(a@.take(j as int).drop_last() =~= a@.take(j - 1));
        j = j - 1;
    }
    let head: &[char] = &a[0..j];
    assert(head@ =~= a@.take(j as int));
    copy_text(head)
}

/// A text without a character at its start, however often it stands there.
pub open spec fn without_head(s: Seq<char>, c: char) -> Seq<char>
    decreases s.len(),
{
    if s.len() > 0 && s[0] == c {
        without_head(s.skip(1), c)
    } else {
        s
    }
}

pub fn trim_start_matches(a: &[char], c: char) -> (v: Vec<char>)
    ensures
        v@ == without_head(a@, c),
{
    let mut i: usize = 0;
    assert(a@.skip(0) =~= a@);
    while i < a.len() && a[i] == c
        invariant
            i <= a@.len(),
            without_head(a@, c) == without_head(a@.skip(i as int), c),
        decreases a@.len() - i,
    {
        assert(a@.skip(i as int).skip(1) =~= a@.skip(i + 1));
        i = i + 1;
    }
    let tail: &[char] = &a[i..a.len()];
    assert(tail@ =~= a@.skip(i as int));
    copy_text(tail)
}

/// Where a character first stands from `i` on; the length where it does not.
pub open spec fn first_at(s: Seq<char>, c: char, i: int) -> int
    decreases s.len() - i,
{
    if i < 0 || i >= s.len() {
        s.len() as int
    } else if s[i] == c {
        i
    } else {
        first_at(s, c, i + 1)
    }
}

/// The parts before and after the first of a character.
pub open spec fn cut_once(s: Seq<char>, c: char) -> Option<(Seq<char>, Seq<char>)> {
    let i = first_at(s, c, 0);
    if i < s.len() {
        Some((s.take(i), s.skip(i + 1)))
    } else {
        None
    }
}

proof fn lemma_first_at(s: Seq<char>, c: char, i: int)
    requires
        0 <= i <= s.len(),
    ensures
        i <= first_at(s, c, i) <= s.len(),
    decreases s.len() - i,
{
    if i < s.len() && s[i] != c {
        lemma_first_at(s, c, i + 1);
    }
}

pub fn split_once(a: &[char], c: char) -> (r: Option<(Vec<char>, Vec<char>)>)
    ensures
        match r {
            Some((x, y)) => cut_once(a@, c) == Some((x@, y@)),
            None => cut_once(a@, c) is None,
        },
{
    let mut i: usize = 0;
    while i < a.len() && a[i] != c
        invariant
            i <= a@.len(),
            first_at(a@, c, 0) == first_at(a@, c, i as int),
        decreases a@.len() - i,
    {
        i = i + 1;
    }
    if i < a.len() {
        let x: &[char] = &a[0..i];
        let y: &[char] = &a[i + 1..a.len()];
        assert(x@ =~= a@.take(i as int));
        assert(y@ =~= a@.skip(i + 1));
        Some((copy_text(x), copy_text(y)))
    } else {
        None
    }
}

/// Where a character last stands among the first `n`; -1 where it does not.
pub open spec fn last_at(s: Seq<char>, c: char, n: int) -> int
    decreases n,
{
    if n <= 0 || n > s.len() {
        -1
    } else if s[n - 1] == c {
        n - 1
    } else {
        last_at(s, c, n - 1)
    }
}

pub proof fn lemma_last_at(s: Seq<char>, c: char, n: int)
    requires
        0 <= n <= s.len(),
    ensures
        -1 <= last_at(s, c, n) < n || (n == 0 && last_at(s, c, n) == -1),
        last_at(s, c, n) >= 0 ==> s[last_at(s, c, n)] == c,
        forall|j: int| last_at(s, c, n) < j < n ==> #[trigger] s[j] != c,
    decreases n,
{
    if n > 0 && s[n - 1] != c {
        lemma_last_at(s, c, n - 1);
    }
}

/// Where a character last stands in a text.
pub fn last_index(a: &[char], c: char) -> (r: Option<usize>)
    ensures
        match r {
            Some(i) => last_at(a@, c, a@.len() as int) == i && i < a@.len(),
            None => last_at(a@, c, a@.len() as int) == -1,
        },
{
    let mut j: usize = a.len();
    while j > 0
        invariant
            j <= a@.len(),
            last_at(a@, c, a@.len() as int) == last_at(a@, c, j as int),
        decreases j,
    {
        if a[j - 1] == c {
            return Some(j - 1);
        }
        j = j - 1;
    }
    None
}

/// What stands behind the last of a character; the whole text where it has none.
pub open spec fn last_piece(s: Seq<char>, c: char) -> Seq<char> {
    s.skip(last_at(s, c, s.len() as int) + 1)
}

pub fn after_last(a: &[char], c: char) -> (v: Vec<char>)
    ensures
        v@ == last_piece(a@, c),
{
    let n: usize = a.len();
    let from: usize = match last_index(a, c) {
        Some(i) => i + 1,
        None => 0,
    };
    let tail: &[char] = &a[from..n];
    assert(tail@ =~= last_piece(a@, c));
    copy_text(tail)
}

/// A letter in lower case, as ASCII has it.
pub open spec fn lower(c: char) -> char {
    if 'A' <= c && c <= 'Z' {
        (c as int + 32) as char
    } else {
        c
    }
}

/// A text in lower case.
pub open spec fn lowered(s: Seq<char>) -> Seq<char> {
    s.map_values(|c: char| lower(c))
}

fn to_lower(c: char) -> (r: char)
    ensures
        r == lower(c),
{
    if 'A' <= c && c <= 'Z' {
        let n: u8 = c as u8;
        (n + 32) as char
    } else {
        c
    }
}

/// Whether two texts differ in nothing but the case of ASCII letters.
pub fn same_ignoring_case(a: &[char], b: &str) -> (r: bool)
    ensures
        r == (lowered(a@) == lowered(b@)),
{
    let w = chars_of(b);
    let mut x: Vec<char> = Vec::new();
    let mut y: Vec<char> = Vec::new();
    for i in 0..a.len()
        invariant
            x@.len() == i,
            forall|k: int| 0 <= k < i ==> #[trigger] x@[k] == lower(a@[k]),
    {
        x.push(to_lower(a[i]));
    }
    for i in 0..w.len()
        invariant
            y@.len() == i,
            forall|k: int| 0 <= k < i ==> #[trigger] y@[k] == lower(w@[k]),
    {
        y.push(to_lower(w[i]));
    }
    assert(x@ =~= lowered(a@));
    assert(y@ =~= lowered(b@));
    same_text(x.as_slice(), y.as_slice())
}

/// A text begins with another exactly where it is that text with something behind it, which is what
/// taking the front off leaves.
pub proof fn law_prefix_taken_off(p: Seq<char>, rest: Seq<char>, other: Seq<char>)
    ensures
        begins(p + rest, p),
        after(p + rest, p) == Some(rest),
        begins(other, p) <==> exists|r: Seq<char>| other == #[trigger] (p + r),
        after(other, p) matches Some(r) ==> p + r == other,
        after(other, p) is Some <==> begins(other, p),
{
    assert((p + rest).take(p.len() as int) =~= p);
    assert((p + rest).skip(p.len() as int) =~= rest);
    if begins(other, p) {
        let r = other.skip(p.len() as int);
        assert(p + r =~= other);
    }
    if exists|r: Seq<char>| other == #[trigger] (p + r) {
        let r = choose|r: Seq<char>| other == #[trigger] (p + r);
        assert((p + r).take(p.len() as int) =~= p);
    }
}

/// Taking characters off an end takes off all of them and nothing else.
pub proof fn law_ends_taken_off(s: Seq<char>, c: char)
    ensures
        ({
            let t = without_tail(s, c);
            &&& t.len() <= s.len()
            &&& t == s.take(t.len() as int)
            &&& t.len() > 0 ==> t.last() != c
            &&& forall|i: int| t.len() <= i < s.len() ==> #[trigger] s[i] == c
        }),
        ({
            let t = without_head(s, c);
            let k = s.len() - t.len();
            &&& 0 <= k
            &&& t == s.skip(k)
            &&& t.len() > 0 ==> t[0] != c
            &&& forall|i: int| 0 <= i < k ==> #[trigger] s[i] == c
        }),
    decreases s.len(),
{
    if s.len() > 0 {
        if s.last() == c {
            law_ends_taken_off(s.drop_last(), c);
            let t = without_tail(s, c);
            assert(t =~= s.take(t.len() as int));
            assert forall|i: int| t.len() <= i < s.len() implies #[trigger] s[i] == c by {
                if i < s.len() - 1 {
                    assert(s.drop_last()[i] == s[i]);
                }
            }
        } else {
            assert(s =~= s.take(s.len() as int));
        }
        if s[0] == c {
            law_ends_taken_off(s.skip(1), c);
            let t = without_head(s, c);
            assert(t =~= s.skip(s.len() - t.len()));
            assert forall|i: int| 0 <= i < s.len() - t.len() implies #[trigger] s[i] == c by {
                if i > 0 {
                    assert(s.skip(1)[i - 1] == c);
                }
            }
        } else {
            assert(s =~= s.skip(0));
        }
    } else {
        assert(s =~= s.take(0));
        assert(s =~= s.skip(0));
    }
}

/// Blanks around a text are taken off, at both ends, and nothing else: what is left stands in the text,
/// with blanks alone around it, and neither begins nor ends with one.
pub proof fn law_blanks_taken_off(s: Seq<char>)
    ensures
        ({
            let t = trimmed(s);
            &&& t.len() > 0 ==> !white(t[0]) && !white(t.last())
            &&& exists|k: int| #[trigger] stands_at(s, t, k)
        }),
{
    lemma_trimmed_start(s);
    let a = trimmed_start(s);
    lemma_trimmed_end(a);
    let t = trimmed(s);
    let k = s.len() - a.len();
    if t.len() > 0 {
        assert(t[0] == a[0]);
    }
    assert(s.subrange(k, k + t.len()) =~= t);
    assert forall|i: int| (0 <= i < k || k + t.len() <= i < s.len()) implies white(
        #[trigger] s[i],
    ) by {
        if i >= k {
            assert(a[i - k] == s[i]);
        }
    }
    assert(stands_at(s, t, k));
}

/// Whether a text stands in another from `k` on, with blanks alone around it.
pub open spec fn stands_at(s: Seq<char>, t: Seq<char>, k: int) -> bool {
    &&& 0 <= k
    &&& k + t.len() <= s.len()
    &&& s.subrange(k, k + t.len()) == t
    &&& forall|i: int| (0 <= i < k || k + t.len() <= i < s.len()) ==> white(#[trigger] s[i])
}

proof fn lemma_trimmed_start(s: Seq<char>)
    ensures
        ({
            let t = trimmed_start(s);
            let k = s.len() - t.len();
            &&& 0 <= k
            &&& t == s.skip(k)
            &&& t.len() > 0 ==> !white(t[0])
            &&& forall|i: int| 0 <= i < k ==> white(#[trigger] s[i])
        }),
    decreases s.len(),
{
    if s.len() > 0 && white(s[0]) {
        lemma_trimmed_start(s.skip(1));
        let t = trimmed_start(s);
        assert(t =~= s.skip(s.len() - t.len()));
        assert forall|i: int| 0 <= i < s.len() - t.len() implies white(#[trigger] s[i]) by {
            if i > 0 {
                assert(white(s.skip(1)[i - 1]));
            }
        }
    } else {
        assert(s =~= s.skip(0));
    }
}

proof fn lemma_trimmed_end(s: Seq<char>)
    ensures
        ({
            let t = trimmed_end(s);
            &&& t.len() <= s.len()
            &&& t == s.take(t.len() as int)
            &&& t.len() > 0 ==> !white(t.last())
            &&& forall|i: int| t.len() <= i < s.len() ==> white(#[trigger] s[i])
        }),
    decreases s.len(),
{
    if s.len() > 0 && white(s.last()) {
        lemma_trimmed_end(s.drop_last());
        let t = trimmed_end(s);
        assert(t =~= s.take(t.len() as int));
        assert forall|i: int| t.len() <= i < s.len() implies white(#[trigger] s[i]) by {
            if i < s.len() - 1 {
                assert(s.drop_last()[i] == s[i]);
            }
        }
    } else {
        assert(s =~= s.take(s.len() as int));
    }
}

/// The common blanks are blanks, and no letter, digit or sign of a path is one.
pub proof fn law_blanks(c: char)
    ensures
        white(' ') && white('\t') && white('\n') && white('\r'),
        '!' <= c && c <= '~' ==> !white(c),
{
}

/// The pieces of a text put together again, with the separator between them, give the text, and no
/// piece has the separator in it.
pub proof fn law_pieces_rejoin(s: Seq<char>, c: char)
    ensures
        ({
            let p = split_at_all(s, Sep::Is(c));
            &&& p.len() > 0
            &&& joined(p, c) == s
            &&& forall|i: int, k: int|
                0 <= i < p.len() && 0 <= k < p[i].len() ==> #[trigger] p[i][k] != c
        }),
    decreases s.len(),
{
    let p = split_at_all(s, Sep::Is(c));
    if s.len() == 0 {
        reveal_with_fuel(joined, 2);
        assert(joined(p, c) =~= s);
    } else {
        let r = split_at_all(s.drop_last(), Sep::Is(c));
        law_pieces_rejoin(s.drop_last(), c);
        assert(s =~= s.drop_last().push(s.last()));
        if s.last() == c {
            assert(p.drop_last() =~= r);
            assert(p.last() =~= Seq::<char>::empty());
            assert(joined(p, c) =~= joined(r, c).push(c));
        } else {
            assert(p.drop_last() =~= r.drop_last());
            assert(p.last() =~= r.last().push(s.last()));
            if r.len() > 1 {
                assert(joined(p, c) =~= joined(r, c).push(s.last()));
            } else {
                assert(joined(p, c) =~= joined(r, c).push(s.last()));
            }
        }
    }
}

/// Pieces with a separator between them.
pub open spec fn joined(p: Seq<Seq<char>>, c: char) -> Seq<char>
    decreases p.len(),
{
    if p.len() == 0 {
        Seq::empty()
    } else if p.len() == 1 {
        p[0]
    } else {
        joined(p.drop_last(), c).push(c) + p.last()
    }
}

/// The words of a text are its pieces that are not empty, in order: no word is empty, and none has the
/// separator in it.
pub proof fn law_words_nonempty(p: Seq<Seq<char>>, w: Seq<char>)
    ensures
        nonempty(p).len() <= p.len(),
        nonempty(p).contains(w) <==> p.contains(w) && w.len() > 0,
        w.len() > 0 ==> nonempty(p.push(w)) == nonempty(p).push(w),
        w.len() == 0 ==> nonempty(p.push(w)) == nonempty(p),
    decreases p.len(),
{
    assert(p.push(w).drop_last() =~= p);
    if p.len() > 0 {
        let f = p.drop_last();
        law_words_nonempty(f, w);
        let n = nonempty(p);
        let m = nonempty(f);
        if n.contains(w) {
            let i = choose|i: int| 0 <= i < n.len() && n[i] == w;
            if i < m.len() {
                assert(m[i] == w);
                let j = choose|j: int| 0 <= j < f.len() && f[j] == w;
                assert(p[j] == w);
            } else {
                assert(p[p.len() - 1] == w);
            }
        }
        if p.contains(w) && w.len() > 0 {
            let j = choose|j: int| 0 <= j < p.len() && p[j] == w;
            if j < f.len() {
                assert(f[j] == w);
                let i = choose|i: int| 0 <= i < m.len() && m[i] == w;
                assert(n[i] == w);
            } else {
                assert(n[n.len() - 1] == w);
            }
        }
    }
}

proof fn lemma_value_push(s: Seq<char>, c: char)
    ensures
        digits_value(s.push(c)) == match digits_value(s) {
            Some(n) => if '0' <= c && c <= '9' {
                Some(n * 10 + (c as int - 48))
            } else {
                None
            },
            None => None,
        },
{
    assert(s.push(c).drop_last() =~= s);
}

/// Reading back a number that was written out gives the number, for every bound that it does not
/// exceed, with or without a plus sign; above the bound nothing is read.
pub proof fn law_number_roundtrip(n: nat, max: int)
    requires
        n <= u64::MAX,
    ensures
        decimal_text(n).len() > 0,
        digits_value(decimal_text(n)) == Some(n as int),
        parsed(decimal_text(n), max) == if n <= max {
            Some(n as int)
        } else {
            None
        },
        n <= max ==> parsed(seq!['+'] + decimal_text(n), max) == Some(n as int),
    decreases n,
{
    if n < 10 {
        let d = (48 + n) as char;
        assert(decimal_text(n) =~= Seq::<char>::empty().push(d));
        lemma_value_push(Seq::<char>::empty(), d);
        assert(d as int == 48 + n);
    } else {
        law_number_roundtrip(n / 10, max);
        let d = (48 + n % 10) as char;
        assert(d as int == 48 + n % 10);
        lemma_value_push(decimal_text(n / 10), d);
    }
    lemma_first_digit(n);
    assert((seq!['+'] + decimal_text(n)).skip(1) =~= decimal_text(n));
}

proof fn lemma_first_digit(n: nat)
    ensures
        decimal_text(n).len() > 0,
        '0' <= decimal_text(n)[0],
        decimal_text(n)[0] <= '9',
    decreases n,
{
    if n >= 10 {
        lemma_first_digit(n / 10);
    } else {
        assert(((48 + n) as char) as int == 48 + n);
    }
}

/// What is read as a number lies in its bounds and was written with digits alone; anything else, and
/// nothing at all, is no number.
pub proof fn law_only_numbers_read(s: Seq<char>, max: int)
    requires
        max >= 0,
    ensures
        parsed(s, max) matches Some(n) ==> 0 <= n <= max && forall|i: int|
            1 <= i < s.len() ==> '0' <= #[trigger] s[i] && s[i] <= '9',
        parsed(s, max) is Some ==> s.len() > 0 && (s[0] == '+' || ('0' <= s[0] && s[0] <= '9')),
        s.len() == 0 ==> parsed(s, max) is None,
        s.len() == 1 && s[0] == '+' ==> parsed(s, max) is None,
{
    let body = if s.len() > 0 && s[0] == '+' {
        s.skip(1)
    } else {
        s
    };
    lemma_digits_only(body);
    if parsed(s, max) is Some {
        assert forall|i: int| 1 <= i < s.len() implies '0' <= #[trigger] s[i] && s[i] <= '9' by {
            if s[0] == '+' {
                assert(body[i - 1] == s[i]);
            }
        }
    }
}

proof fn lemma_digits_only(s: Seq<char>)
    ensures
        digits_value(s) is Some <==> forall|i: int|
            0 <= i < s.len() ==> '0' <= #[trigger] s[i] && s[i] <= '9',
        digits_value(s) matches Some(n) ==> n >= 0,
    decreases s.len(),
{
    if s.len() > 0 {
        let f = s.drop_last();
        lemma_digits_only(f);
        if digits_value(s) is Some {
            assert forall|i: int| 0 <= i < s.len() implies '0' <= #[trigger] s[i] && s[i] <= '9' by {
                if i < f.len() {
                    assert(f[i] == s[i]);
                }
            }
        }
        if forall|i: int| 0 <= i < s.len() ==> '0' <= #[trigger] s[i] && s[i] <= '9' {
            assert forall|i: int| 0 <= i < f.len() implies '0' <= #[trigger] f[i] && f[i] <= '9' by {
                assert(f[i] == s[i]);
            }
            assert('0' <= s[s.len() - 1]);
        }
    }
}

/// A signed number is read back with its sign, down to the least of 32 bits.
pub proof fn law_signed_roundtrip(n: nat)
    requires
        n <= u64::MAX,
    ensures
        n <= 0x7fff_ffff ==> parsed_signed(decimal_text(n)) == Some(n as int),
        n > 0x7fff_ffff ==> parsed_signed(decimal_text(n)) is None,
        n <= 0x8000_0000 ==> parsed_signed(seq!['-'] + decimal_text(n)) == Some(-n),
        n > 0x8000_0000 ==> parsed_signed(seq!['-'] + decimal_text(n)) is None,
{
    law_number_roundtrip(n, i32::MAX as int);
    lemma_first_digit(n);
    assert((seq!['-'] + decimal_text(n)).skip(1) =~= decimal_text(n));
}

pub proof fn lemma_signed_range(s: Seq<char>)
    ensures
        parsed_signed(s) matches Some(n) ==> i32::MIN <= n <= i32::MAX,
{
    law_only_numbers_read(s, i32::MAX as int);
    if s.len() > 1 {
        lemma_digits_only(s.skip(1));
    }
}

/// Cutting a text at the first of a sign gives its two sides; a text without the sign is not cut.
pub proof fn law_cut_at_first(s: Seq<char>, c: char)
    ensures
        match cut_once(s, c) {
            Some((a, b)) => {
                &&& a.push(c) + b == s
                &&& forall|i: int| 0 <= i < a.len() ==> #[trigger] a[i] != c
            },
            None => forall|i: int| 0 <= i < s.len() ==> #[trigger] s[i] != c,
        },
{
    lemma_first_at(s, c, 0);
    lemma_first_none(s, c, 0);
    let i = first_at(s, c, 0);
    if i < s.len() {
        assert(s.take(i).push(c) + s.skip(i + 1) =~= s);
    }
}

proof fn lemma_first_none(s: Seq<char>, c: char, i: int)
    requires
        0 <= i <= s.len(),
    ensures
        i <= first_at(s, c, i) <= s.len(),
        first_at(s, c, i) < s.len() ==> s[first_at(s, c, i)] == c,
        forall|k: int| i <= k < first_at(s, c, i) ==> #[trigger] s[k] != c,
    decreases s.len() - i,
{
    if i < s.len() && s[i] != c {
        lemma_first_none(s, c, i + 1);
    }
}

/// What stands behind the last of a sign has none of it, and with the sign in front ends the text.
pub proof fn law_last_piece(s: Seq<char>, c: char)
    ensures
        ({
            let t = last_piece(s, c);
            &&& t.len() <= s.len()
            &&& t == s.skip(s.len() - t.len())
            &&& t.len() < s.len() ==> s[s.len() - t.len() - 1] == c
            &&& forall|i: int| 0 <= i < t.len() ==> #[trigger] t[i] != c
        }),
{
    lemma_last_at(s, c, s.len() as int);
    let k = last_at(s, c, s.len() as int);
    let t = last_piece(s, c);
    assert forall|i: int| 0 <= i < t.len() implies #[trigger] t[i] != c by {
        assert(s[k + 1 + i] != c);
    }
}

/// Letters are compared whatever their case, and nothing else is taken for something it is not.
pub proof fn law_case_ignored(c: char)
    ensures
        'A' <= c && c <= 'Z' ==> lower(c) as int == c as int + 32,
        !('A' <= c && c <= 'Z') ==> lower(c) == c,
        lower(lower(c)) == lower(c),
{
    if 'A' <= c && c <= 'Z' {
        assert(((c as int + 32) as char) as int == c as int + 32);
    }
}

/// A blank ends the piece at hand and begins an empty one; any other character goes on with it.
pub proof fn law_blanks_separate(s: Seq<char>, c: char)
    ensures
        split_at_all(s, Sep::White).len() > 0,
        white(c) ==> split_at_all(s.push(c), Sep::White) == split_at_all(s, Sep::White).push(
            Seq::empty(),
        ),
        !white(c) ==> split_at_all(s.push(c), Sep::White).len() == split_at_all(s, Sep::White).len()
            && split_at_all(s.push(c), Sep::White).last() == split_at_all(s, Sep::White).last().push(c)
            && split_at_all(s.push(c), Sep::White).drop_last() == split_at_all(
            s,
            Sep::White,
        ).drop_last(),
    decreases s.len(),
{
    assert(s.push(c).drop_last() =~= s);
    if s.len() > 0 {
        law_blanks_separate(s.drop_last(), s.last());
        assert(s.drop_last().push(s.last()) =~= s);
    }
    let r = split_at_all(s, Sep::White);
    assert(r.drop_last().push(r.last().push(c)).drop_last() =~= r.drop_last());
}

/// The pieces of two texts with the separator between them are those of the one and then those of the
/// other; a text without the separator is one piece.
pub proof fn law_pieces_of_both(a: Seq<char>, b: Seq<char>, c: char)
    ensures
        split_at_all(a.push(c) + b, Sep::Is(c)) == split_at_all(a, Sep::Is(c)) + split_at_all(
            b,
            Sep::Is(c),
        ),
        (forall|i: int| 0 <= i < b.len() ==> #[trigger] b[i] != c) ==> split_at_all(b, Sep::Is(c))
            == seq![b],
        split_at_all(b, Sep::Is(c)).len() > 0,
    decreases b.len(),
{
    let s = a.push(c) + b;
    if b.len() == 0 {
        assert(s =~= a.push(c));
        assert(a.push(c).drop_last() =~= a);
        assert(split_at_all(s, Sep::Is(c)) =~= split_at_all(a, Sep::Is(c)) + split_at_all(
            b,
            Sep::Is(c),
        ));
        assert(b =~= Seq::<char>::empty());
    } else {
        law_pieces_of_both(a, b.drop_last(), c);
        assert(s.drop_last() =~= a.push(c) + b.drop_last());
        assert(s.last() == b.last());
        assert(split_at_all(s, Sep::Is(c)) =~= split_at_all(a, Sep::Is(c)) + split_at_all(
            b,
            Sep::Is(c),
        ));
        if forall|i: int| 0 <= i < b.len() ==> #[trigger] b[i] != c {
            assert forall|i: int| 0 <= i < b.drop_last().len() implies #[trigger] b.drop_last()[i]
                != c by {
                assert(b.drop_last()[i] == b[i]);
            }
            assert(b.last() == b[b.len() - 1]);
            assert(b.drop_last().push(b.last()) =~= b);
            assert(split_at_all(b, Sep::Is(c)) =~= seq![b]);
        }
    }
}

/// A file that is text has lines, one of them, the whole text, where it holds no newline; a file that
/// is not text has none.
pub proof fn law_lines_of_text(bytes: Seq<u8>)
    ensures
        !valid_utf8(bytes) ==> file_lines(bytes).len() == 0,
        valid_utf8(bytes) ==> file_lines(bytes).len() > 0,
        valid_utf8(bytes) && (forall|i: int|
            0 <= i < decode_utf8(bytes).len() ==> #[trigger] decode_utf8(bytes)[i] != '\n')
            ==> file_lines(bytes) == seq![decode_utf8(bytes)],
{
    if valid_utf8(bytes) {
        law_pieces_of_both(Seq::empty(), decode_utf8(bytes), '\n');
    }
}

} // verus!
