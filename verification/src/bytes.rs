//! Byte-sequence helpers: big/little-endian integers, prefixes, copying.

use vstd::prelude::*;

verus! {

/// Big-endian value of two bytes.
pub open spec fn be16(b0: u8, b1: u8) -> int {
    b0 as int * 256 + b1 as int
}

/// Big-endian value of `s[i..i+4]`.
pub open spec fn be32_at(s: Seq<u8>, i: int) -> int {
    s[i] as int * 16777216 + s[i + 1] as int * 65536 + s[i + 2] as int * 256 + s[i + 3] as int
}

/// Little-endian value of `s[i..i+4]`.
pub open spec fn le32_at(s: Seq<u8>, i: int) -> int {
    s[i] as int + s[i + 1] as int * 256 + s[i + 2] as int * 65536 + s[i + 3] as int * 16777216
}

/// The two big-endian bytes of `n` (for `n < 65536`).
pub open spec fn be16_bytes(n: int) -> Seq<u8> {
    seq![(n / 256) as u8, (n % 256) as u8]
}

/// The four big-endian bytes of `n` (for `0 <= n < 2^32`).
pub open spec fn be32_bytes(n: int) -> Seq<u8> {
    seq![(n / 16777216) as u8, ((n / 65536) % 256) as u8, ((n / 256) % 256) as u8, (n % 256) as u8]
}

/// The four little-endian bytes of `n` (for `0 <= n < 2^32`).
pub open spec fn le32_bytes(n: int) -> Seq<u8> {
    seq![(n % 256) as u8, ((n / 256) % 256) as u8, ((n / 65536) % 256) as u8, (n / 16777216) as u8]
}

/// Whether `s` begins with `p`.
pub open spec fn starts_with(s: Seq<u8>, p: Seq<u8>) -> bool {
    p.len() <= s.len() && s.take(p.len() as int) == p
}

/// The first index at or after `from` where `s` holds a zero byte.
pub open spec fn find_zero(s: Seq<u8>, from: int) -> Option<int>
    decreases s.len() - from,
{
    if from < 0 || from >= s.len() {
        None
    } else if s[from] == 0 {
        Some(from)
    } else {
        find_zero(s, from + 1)
    }
}

pub proof fn lemma_be16_roundtrip(n: int)
    requires
        0 <= n < 65536,
    ensures
        be16_bytes(n).len() == 2,
        be16(be16_bytes(n)[0], be16_bytes(n)[1]) == n,
{
}

pub proof fn lemma_be32_roundtrip(n: int, s: Seq<u8>, i: int)
    requires
        0 <= n < 0x1_0000_0000,
        0 <= i,
        i + 4 <= s.len(),
        s.subrange(i, i + 4) == be32_bytes(n),
    ensures
        be32_at(s, i) == n,
{
    assert(s[i] == s.subrange(i, i + 4)[0]);
    assert(s[i + 1] == s.subrange(i, i + 4)[1]);
    assert(s[i + 2] == s.subrange(i, i + 4)[2]);
    assert(s[i + 3] == s.subrange(i, i + 4)[3]);
}

pub proof fn lemma_le32_roundtrip(n: int, s: Seq<u8>, i: int)
    requires
        0 <= n < 0x1_0000_0000,
        0 <= i,
        i + 4 <= s.len(),
        s.subrange(i, i + 4) == le32_bytes(n),
    ensures
        le32_at(s, i) == n,
{
    assert(s[i] == s.subrange(i, i + 4)[0]);
    assert(s[i + 1] == s.subrange(i, i + 4)[1]);
    assert(s[i + 2] == s.subrange(i, i + 4)[2]);
    assert(s[i + 3] == s.subrange(i, i + 4)[3]);
}

/// Appends `src[from..to]` to `out`.
pub fn push_range(out: &mut Vec<u8>, src: &[u8], from: usize, to: usize)
    requires
        from <= to <= src@.len(),
    ensures
        final(out)@ == old(out)@ + src@.subrange(from as int, to as int),
{
    let ghost start = out@;
    let mut i = from;
    while i < to
        invariant
            from <= i <= to <= src@.len(),
            out@ == start + src@.subrange(from as int, i as int),
        decreases to - i,
    {
        out.push(src[i]);
        i += 1;
        assert(out@ == start + src@.subrange(from as int, i as int));
    }
}

/// Appends all of `src` to `out`.
pub fn push_all(out: &mut Vec<u8>, src: &[u8])
    ensures
        final(out)@ == old(out)@ + src@,
{
    push_range(out, src, 0, src.len());
    assert(src@.subrange(0, src@.len() as int) == src@);
}

/// A copy of `src[from..to]`.
pub fn copy_range(src: &[u8], from: usize, to: usize) -> (out: Vec<u8>)
    requires
        from <= to <= src@.len(),
    ensures
        out@ == src@.subrange(from as int, to as int),
{
    let mut out: Vec<u8> = Vec::new();
    push_range(&mut out, src, from, to);
    out
}

/// Appends the big-endian bytes of `n` (a 16-bit value).
pub fn push_be16(out: &mut Vec<u8>, n: u16)
    ensures
        final(out)@ == old(out)@ + be16_bytes(n as int),
{
    out.push((n / 256) as u8);
    out.push((n % 256) as u8);
}

/// Appends the big-endian bytes of `n`.
pub fn push_be32(out: &mut Vec<u8>, n: u32)
    ensures
        final(out)@ == old(out)@ + be32_bytes(n as int),
{
    out.push((n / 16777216) as u8);
    out.push(((n / 65536) % 256) as u8);
    out.push(((n / 256) % 256) as u8);
    out.push((n % 256) as u8);
}

/// Appends the little-endian bytes of `n`.
pub fn push_le32(out: &mut Vec<u8>, n: u32)
    ensures
        final(out)@ == old(out)@ + le32_bytes(n as int),
{
    out.push((n % 256) as u8);
    out.push(((n / 256) % 256) as u8);
    out.push(((n / 65536) % 256) as u8);
    out.push((n / 16777216) as u8);
}

/// Big-endian value of `s[i..i+4]`.
pub fn read_be32(s: &[u8], i: usize) -> (n: u32)
    requires
        i + 4 <= s@.len(),
    ensures
        n == be32_at(s@, i as int),
{
    (s[i] as u32) * 16777216 + (s[i + 1] as u32) * 65536 + (s[i + 2] as u32) * 256 + (s[i + 3] as u32)
}

/// Little-endian value of `s[i..i+4]`.
pub fn read_le32(s: &[u8], i: usize) -> (n: u32)
    requires
        i + 4 <= s@.len(),
    ensures
        n == le32_at(s@, i as int),
{
    (s[i] as u32) + (s[i + 1] as u32) * 256 + (s[i + 2] as u32) * 65536 + (s[i + 3] as u32) * 16777216
}

/// Whether `s[from..]` begins with `p`.
pub fn starts_with_at(s: &[u8], from: usize, p: &[u8]) -> (b: bool)
    requires
        from <= s@.len(),
    ensures
        b == starts_with(s@.skip(from as int), p@),
{
    let ghost t = s@.skip(from as int);
    if p.len() > s.len() - from {
        return false;
    }
    let mut k: usize = 0;
    while k < p.len()
        invariant
            from + p@.len() <= s@.len(),
            s@.len() == s.len(),
            t == s@.skip(from as int),
            k <= p@.len(),
            forall|m: int| 0 <= m < k ==> #[trigger] t[m] == p@[m],
        decreases p.len() - k,
    {
        if s[from + k] != p[k] {
            assert(t.take(p@.len() as int)[k as int] != p@[k as int]);
            return false;
        }
        k += 1;
    }
    assert(t.take(p@.len() as int) =~= p@);
    true
}

/// The first index at or after `from` holding a zero byte.
pub fn find_zero_exec(s: &[u8], from: usize) -> (r: Option<usize>)
    requires
        from <= s@.len(),
    ensures
        r matches Some(i) ==> find_zero(s@, from as int) == Some(i as int),
        r is None ==> find_zero(s@, from as int) is None,
{
    let mut i = from;
    while i < s.len()
        invariant
            from <= i <= s@.len(),
            find_zero(s@, from as int) == find_zero(s@, i as int),
        decreases s@.len() - i,
    {
        if s[i] == 0 {
            return Some(i);
        }
        i += 1;
    }
    None
}

pub proof fn lemma_find_zero_facts(s: Seq<u8>, from: int)
    requires
        0 <= from,
    ensures
        find_zero(s, from) matches Some(i) ==> from <= i < s.len() && s[i] == 0 && (forall|j: int|
            from <= j < i ==> s[j] != 0),
        find_zero(s, from) is None ==> forall|j: int| from <= j < s.len() ==> s[j] != 0,
    decreases s.len() - from,
{
    if from < s.len() && s[from] != 0 {
        lemma_find_zero_facts(s, from + 1);
    }
}

/// `find_zero` on `p + s` where `p` has no zero byte and `s` begins with one.
pub proof fn lemma_find_zero_after(p: Seq<u8>, s: Seq<u8>, k: int)
    requires
        forall|j: int| 0 <= j < p.len() ==> p[j] != 0,
        s.len() > 0,
        s[0] == 0,
        0 <= k <= p.len(),
    ensures
        find_zero(p + s, k) == Some(p.len() as int),
    decreases p.len() - k,
{
    if k < p.len() {
        lemma_find_zero_after(p, s, k + 1);
    }
}

} // verus!

verus! {

/// Searching a suffix is searching from its start.
pub proof fn lemma_find_zero_skip(s: Seq<u8>, from: int, k: int)
    requires
        0 <= from <= s.len(),
        0 <= k,
    ensures
        find_zero(s.skip(from), k) == (match find_zero(s, from + k) {
            Some(i) => Some(i - from),
            None => None,
        }),
    decreases s.len() - from - k,
{
    if from + k < s.len() {
        assert(s.skip(from)[k] == s[from + k]);
        lemma_find_zero_skip(s, from, k + 1);
    }
}

/// The index, relative to `from`, of the first zero byte of `s[from..]`.
pub fn find_zero_in_suffix(s: &[u8], from: usize) -> (r: Option<usize>)
    requires
        from <= s@.len(),
    ensures
        r matches Some(i) ==> find_zero(s@.skip(from as int), 0) == Some(i as int) && from + i < s@.len(),
        r is None ==> find_zero(s@.skip(from as int), 0) is None,
{
    proof {
        lemma_find_zero_skip(s@, from as int, 0);
        lemma_find_zero_facts(s@, from as int);
    }
    match find_zero_exec(s, from) {
        Some(i) => Some(i - from),
        None => None,
    }
}

} // verus!
