//! Byte-sequence helpers shared by the device and protocol modules.
use vstd::prelude::*;

verus! {

/// `s` with the bytes from position `at` on replaced by `src`.
pub open spec fn splice(s: Seq<u8>, at: int, src: Seq<u8>) -> Seq<u8> {
    Seq::new(s.len(), |i: int| if at <= i < at + src.len() { src[i - at] } else { s[i] })
}

/// Copies `src` into `dst` starting at `at`.
pub fn copy_into(dst: &mut [u8], at: usize, src: &[u8])
    requires
        at + src@.len() <= old(dst)@.len(),
    ensures
        final(dst)@ == splice(old(dst)@, at as int, src@),
{
    let n: usize = src.len();
    let mut i: usize = 0;
    let ghost before = dst@;
    while i < n
        invariant
            n == src@.len(),
            i <= n,
            at + n <= dst.len(),
            at + n <= before.len(),
            dst@ == splice(before, at as int, src@.subrange(0, i as int)),
        decreases n - i,
    {
        dst[at + i] = src[i];
        i = i + 1;
        assert(dst@ =~= splice(before, at as int, src@.subrange(0, i as int)));
    }
    assert(src@.subrange(0, n as int) =~= src@);
}

/// The smaller of two lengths.
pub fn min_usize(a: usize, b: usize) -> (r: usize)
    ensures
        r == if a <= b { a } else { b },
{
    if a <= b { a } else { b }
}

/// The larger of two lengths.
pub fn max_usize(a: usize, b: usize) -> (r: usize)
    ensures
        r == if a >= b { a } else { b },
{
    if a >= b { a } else { b }
}

/// The 2 little-endian bytes of a `u16`.
pub open spec fn le16(x: u16) -> Seq<u8> {
    seq![
        (x % 256) as u8,
        (x / 0x100 % 256) as u8,
    ]
}

/// The `u16` whose little-endian bytes start at `at`.
pub open spec fn u16_at(s: Seq<u8>, at: int) -> u16 {
    (s[at] + s[at + 1] * 0x100) as u16
}

/// Appends the little-endian bytes of a `u16`.
pub fn push_u16(v: &mut Vec<u8>, x: u16)
    ensures
        final(v)@ == old(v)@ + le16(x),
{
    let ghost before = v@;
    v.push((x % 256) as u8);
    v.push((x / 0x100 % 256) as u8);
    assert(v@ =~= before + le16(x));
}

/// Reads the little-endian `u16` at `at`.
pub fn get_u16(s: &[u8], at: usize) -> (x: u16)
    requires
        at + 2 <= s@.len(),
    ensures
        x == u16_at(s@, at as int),
{
    s[at] as u16 + s[at + 1] as u16 * 0x100
}

/// Reading back what was encoded gives the number.
pub proof fn law_le16_roundtrip(x: u16)
    ensures
        le16(x).len() == 2,
        u16_at(le16(x), 0) == x,
{
}

/// The 4 little-endian bytes of a `u32`.
pub open spec fn le32(x: u32) -> Seq<u8> {
    seq![
        (x % 256) as u8,
        (x / 0x100 % 256) as u8,
        (x / 0x10000 % 256) as u8,
        (x / 0x1000000 % 256) as u8,
    ]
}

/// The `u32` whose little-endian bytes start at `at`.
pub open spec fn u32_at(s: Seq<u8>, at: int) -> u32 {
    (s[at] + s[at + 1] * 0x100 + s[at + 2] * 0x10000 + s[at + 3] * 0x1000000) as u32
}

/// Appends the little-endian bytes of a `u32`.
pub fn push_u32(v: &mut Vec<u8>, x: u32)
    ensures
        final(v)@ == old(v)@ + le32(x),
{
    let ghost before = v@;
    v.push((x % 256) as u8);
    v.push((x / 0x100 % 256) as u8);
    v.push((x / 0x10000 % 256) as u8);
    v.push((x / 0x1000000 % 256) as u8);
    assert(v@ =~= before + le32(x));
}

/// Reads the little-endian `u32` at `at`.
pub fn get_u32(s: &[u8], at: usize) -> (x: u32)
    requires
        at + 4 <= s@.len(),
    ensures
        x == u32_at(s@, at as int),
{
    s[at] as u32 + s[at + 1] as u32 * 0x100 + s[at + 2] as u32 * 0x10000 + s[at + 3] as u32 * 0x1000000
}

/// Reading back what was encoded gives the number.
pub proof fn law_le32_roundtrip(x: u32)
    ensures
        le32(x).len() == 4,
        u32_at(le32(x), 0) == x,
{
    let q0 = x as int;
    let q1 = x as int / 0x100;
    let q2 = x as int / 0x10000;
    let q3 = x as int / 0x1000000;
    assert(q1 == q0 / 256);
    assert(q2 == q1 / 256);
    assert(q3 == q2 / 256);
    assert(q3 < 256);
    let s = le32(x);
    assert(q3 == s[3]);
    assert(q2 == q3 * 256 + s[2]);
    assert(q1 == q2 * 256 + s[1]);
    assert(q0 == q1 * 256 + s[0]);
}

/// The 8 little-endian bytes of a `u64`.
pub open spec fn le64(x: u64) -> Seq<u8> {
    seq![
        (x % 256) as u8,
        (x / 0x100 % 256) as u8,
        (x / 0x10000 % 256) as u8,
        (x / 0x1000000 % 256) as u8,
        (x / 0x100000000 % 256) as u8,
        (x / 0x10000000000 % 256) as u8,
        (x / 0x1000000000000 % 256) as u8,
        (x / 0x100000000000000 % 256) as u8,
    ]
}

/// The `u64` whose little-endian bytes start at `at`.
pub open spec fn u64_at(s: Seq<u8>, at: int) -> u64 {
    (s[at] + s[at + 1] * 0x100 + s[at + 2] * 0x10000 + s[at + 3] * 0x1000000 + s[at + 4] * 0x100000000 + s[at + 5] * 0x10000000000 + s[at + 6] * 0x1000000000000 + s[at + 7] * 0x100000000000000) as u64
}

/// Appends the little-endian bytes of a `u64`.
pub fn push_u64(v: &mut Vec<u8>, x: u64)
    ensures
        final(v)@ == old(v)@ + le64(x),
{
    let ghost before = v@;
    v.push((x % 256) as u8);
    v.push((x / 0x100 % 256) as u8);
    v.push((x / 0x10000 % 256) as u8);
    v.push((x / 0x1000000 % 256) as u8);
    v.push((x / 0x100000000 % 256) as u8);
    v.push((x / 0x10000000000 % 256) as u8);
    v.push((x / 0x1000000000000 % 256) as u8);
    v.push((x / 0x100000000000000 % 256) as u8);
    assert(v@ =~= before + le64(x));
}

/// Reads the little-endian `u64` at `at`.
pub fn get_u64(s: &[u8], at: usize) -> (x: u64)
    requires
        at + 8 <= s@.len(),
    ensures
        x == u64_at(s@, at as int),
{
    s[at] as u64 + s[at + 1] as u64 * 0x100 + s[at + 2] as u64 * 0x10000 + s[at + 3] as u64 * 0x1000000 + s[at + 4] as u64 * 0x100000000 + s[at + 5] as u64 * 0x10000000000 + s[at + 6] as u64 * 0x1000000000000 + s[at + 7] as u64 * 0x100000000000000
}

/// Reading back what was encoded gives the number.
pub proof fn law_le64_roundtrip(x: u64)
    ensures
        le64(x).len() == 8,
        u64_at(le64(x), 0) == x,
{
    let q0 = x as int;
    let q1 = x as int / 0x100;
    let q2 = x as int / 0x10000;
    let q3 = x as int / 0x1000000;
    let q4 = x as int / 0x100000000;
    let q5 = x as int / 0x10000000000;
    let q6 = x as int / 0x1000000000000;
    let q7 = x as int / 0x100000000000000;
    assert(q1 == q0 / 256);
    assert(q2 == q1 / 256);
    assert(q3 == q2 / 256);
    assert(q4 == q3 / 256);
    assert(q5 == q4 / 256);
    assert(q6 == q5 / 256);
    assert(q7 == q6 / 256);
    assert(q7 < 256);
    let s = le64(x);
    assert(q7 == s[7]);
    assert(q6 == q7 * 256 + s[6]);
    assert(q5 == q6 * 256 + s[5]);
    assert(q4 == q5 * 256 + s[4]);
    assert(q3 == q4 * 256 + s[3]);
    assert(q2 == q3 * 256 + s[2]);
    assert(q1 == q2 * 256 + s[1]);
    assert(q0 == q1 * 256 + s[0]);
}

/// `x` cut to its low 32 bits.
pub fn low32(x: u64) -> (r: u32)
    ensures
        r == x % 0x1_0000_0000,
{
    (x % 0x1_0000_0000) as u32
}

/// Numbers are stored with the lowest byte first.
pub proof fn law_lowest_byte_first(x: u16, y: u32, z: u64)
    ensures
        le16(x)[0] + 0x100 * le16(x)[1] == x,
        le32(y)[0] + 0x100 * le32(y)[1] + 0x10000 * le32(y)[2] + 0x1000000 * le32(y)[3] == y,
        le64(z)[0] + 0x100 * le64(z)[1] + 0x10000 * le64(z)[2] + 0x1000000 * le64(z)[3] + 0x1_0000_0000
            * le64(z)[4] + 0x100_0000_0000 * le64(z)[5] + 0x1_0000_0000_0000 * le64(z)[6]
            + 0x100_0000_0000_0000 * le64(z)[7] == z,
{
    law_le16_roundtrip(x);
    law_le32_roundtrip(y);
    law_le64_roundtrip(z);
    lemma_u64_exact(le64(z));
}

proof fn lemma_u64_exact(s: Seq<u8>)
    requires
        s.len() == 8,
    ensures
        u64_at(s, 0) == s[0] + 0x100 * s[1] + 0x10000 * s[2] + 0x1000000 * s[3] + 0x1_0000_0000 * s[4]
            + 0x100_0000_0000 * s[5] + 0x1_0000_0000_0000 * s[6] + 0x100_0000_0000_0000 * s[7],
{
    let n = s[0] + 0x100 * s[1] + 0x10000 * s[2] + 0x1000000 * s[3] + 0x1_0000_0000 * s[4]
        + 0x100_0000_0000 * s[5] + 0x1_0000_0000_0000 * s[6] + 0x100_0000_0000_0000 * s[7];
    assert(0 <= n <= u64::MAX);
}

/// What is put into a sequence stands where it was put; all else stays, and so does the length.
pub proof fn law_splice_exact(s: Seq<u8>, at: int, src: Seq<u8>, i: int)
    requires
        0 <= at,
        at + src.len() <= s.len(),
        0 <= i < s.len(),
    ensures
        splice(s, at, src).len() == s.len(),
        splice(s, at, src).subrange(at, at + src.len()) == src,
        i < at || i >= at + src.len() ==> splice(s, at, src)[i] == s[i],
{
    assert(splice(s, at, src).subrange(at, at + src.len()) =~= src);
}

} // verus!
