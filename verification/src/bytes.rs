//! Small verified helpers on byte vectors: equality, prefix and
//! substring tests, and little-endian integer reads.

use vstd::prelude::*;

verus! {

/// True when `s` starts with `p`.
pub open spec fn spec_has_prefix(s: Seq<u8>, p: Seq<u8>) -> bool {
    p.len() <= s.len() && s.subrange(0, p.len() as int) == p
}

/// Compares two byte vectors for equality of contents.
pub fn eq_bytes(a: &Vec<u8>, b: &Vec<u8>) -> (r: bool)
    ensures
        r == (a@ == b@),
{
    if a.len() != b.len() {
        assert(a@ != b@);
        return false;
    }
    let n = a.len();
    let mut i: usize = 0;
    while i < n
        invariant
            n == a.len() == b.len(),
            i <= n,
            forall|k: int| 0 <= k < i ==> a@[k] == b@[k],
        decreases n - i,
    {
        if a[i] != b[i] {
            return false;
        }
        i += 1;
    }
    assert(a@ =~= b@);
    true
}

/// True when the first `p.len()` bytes of `s` equal `p`.
pub fn has_prefix(s: &Vec<u8>, p: &Vec<u8>) -> (r: bool)
    ensures
        r == spec_has_prefix(s@, p@),
{
    if p.len() > s.len() {
        return false;
    }
    let n = p.len();
    let mut i: usize = 0;
    while i < n
        invariant
            n == p.len() <= s.len(),
            i <= n,
            forall|k: int| 0 <= k < i ==> s@[k] == p@[k],
        decreases n - i,
    {
        if s[i] != p[i] {
            assert(s@.subrange(0, n as int)[i as int] != p@[i as int]);
            return false;
        }
        i += 1;
    }
    assert(s@.subrange(0, n as int) =~= p@);
    true
}

/// True when `needle` occurs in `hay` at offset `at`.
pub open spec fn spec_match_at(hay: Seq<u8>, needle: Seq<u8>, at: int) -> bool {
    0 <= at && at + needle.len() <= hay.len()
        && hay.subrange(at, at + needle.len() as int) == needle
}

/// True when `needle` occurs somewhere in `hay`.
pub open spec fn spec_contains_seq(hay: Seq<u8>, needle: Seq<u8>) -> bool {
    exists|at: int| spec_match_at(hay, needle, at)
}

/// True when `needle` occurs in `hay` at the given offset.
pub fn match_at(hay: &Vec<u8>, needle: &Vec<u8>, at: usize) -> (r: bool)
    requires
        at + needle@.len() <= hay@.len(),
    ensures
        r == spec_match_at(hay@, needle@, at as int),
{
    let n = needle.len();
    let mut i: usize = 0;
    while i < n
        invariant
            n == needle.len(),
            at + n <= hay.len(),
            i <= n,
            forall|k: int| 0 <= k < i ==> hay@[at + k] == needle@[k],
        decreases n - i,
    {
        if hay[at + i] != needle[i] {
            assert(!spec_match_at(hay@, needle@, at as int)) by {
                if hay@.subrange(at as int, at + n as int) == needle@ {
                    assert(hay@.subrange(at as int, at + n as int)[i as int] == hay@[at + i]);
                }
            }
            return false;
        }
        i += 1;
    }
    assert(hay@.subrange(at as int, at + n as int) =~= needle@);
    true
}

/// True when `needle` occurs as a contiguous run of bytes in `hay`.
pub fn contains_seq(hay: &Vec<u8>, needle: &Vec<u8>) -> (r: bool)
    ensures
        r == spec_contains_seq(hay@, needle@),
{
    if needle.len() > hay.len() {
        assert(forall|at: int| !spec_match_at(hay@, needle@, at));
        return false;
    }
    let last = hay.len() - needle.len();
    let mut at: usize = 0;
    loop
        invariant
            needle.len() <= hay.len(),
            last == hay.len() - needle.len(),
            at <= last,
            forall|j: int| 0 <= j < at ==> !spec_match_at(hay@, needle@, j),
        decreases last - at,
    {
        if match_at(hay, needle, at) {
            return true;
        }
        if at == last {
            assert(forall|j: int| spec_match_at(hay@, needle@, j) ==> 0 <= j <= last);
            return false;
        }
        at += 1;
    }
}

/// The index of the first occurrence of `c` in `s` at or after `from`,
/// or the length of `s` when there is none.
pub open spec fn spec_find(s: Seq<u8>, c: u8, from: int) -> int
    decreases s.len() - from,
{
    if from < 0 || from >= s.len() {
        s.len() as int
    } else if s[from] == c {
        from
    } else {
        spec_find(s, c, from + 1)
    }
}

/// What the first occurrence means: it is in range, it carries `c`, and
/// nothing before it does.
pub proof fn lemma_find(s: Seq<u8>, c: u8, from: int)
    requires
        0 <= from <= s.len(),
    ensures
        from <= spec_find(s, c, from) <= s.len(),
        spec_find(s, c, from) < s.len() ==> s[spec_find(s, c, from)] == c,
        forall|k: int| from <= k < spec_find(s, c, from) ==> s[k] != c,
    decreases s.len() - from,
{
    if from < s.len() && s[from] != c {
        lemma_find(s, c, from + 1);
    }
}

/// Finds the first occurrence of `c` in `s` at or after `from`.
pub fn find_byte(s: &Vec<u8>, c: u8, from: usize) -> (r: usize)
    requires
        from <= s@.len(),
    ensures
        r == spec_find(s@, c, from as int),
        from <= r <= s@.len(),
{
    let n = s.len();
    let mut i: usize = from;
    while i < n
        invariant
            from <= i <= n == s.len(),
            spec_find(s@, c, from as int) == spec_find(s@, c, i as int),
        decreases n - i,
    {
        if s[i] == c {
            return i;
        }
        i += 1;
    }
    i
}

/// Appends `src[from..to]` to `dst`.
pub fn push_range(dst: &mut Vec<u8>, src: &Vec<u8>, from: usize, to: usize)
    requires
        from <= to,
        to <= src@.len(),
    ensures
        final(dst)@ == old(dst)@ + src@.subrange(from as int, to as int),
{
    let mut i: usize = from;
    while i < to
        invariant
            from <= i <= to <= src.len(),
            dst@ == old(dst)@ + src@.subrange(from as int, i as int),
        decreases to - i,
    {
        dst.push(src[i]);
        proof {
            assert(old(dst)@ + src@.subrange(from as int, i + 1) =~= (old(dst)@ + src@.subrange(
                from as int,
                i as int,
            )).push(src@[i as int]));
        }
        i += 1;
    }
    proof {
        assert(dst@ =~= old(dst)@ + src@.subrange(from as int, to as int));
    }
}

/// A fresh vector with the same bytes.
pub fn copy_bytes(src: &Vec<u8>) -> (r: Vec<u8>)
    ensures
        r@ == src@,
{
    let mut out: Vec<u8> = Vec::new();
    let n = src.len();
    let mut i: usize = 0;
    while i < n
        invariant
            n == src.len(),
            i <= n,
            out@ == src@.take(i as int),
        decreases n - i,
    {
        out.push(src[i]);
        proof {
            assert(src@.take(i + 1) =~= src@.take(i as int).push(src@[i as int]));
        }
        i += 1;
    }
    proof {
        assert(src@.take(n as int) =~= src@);
    }
    out
}

/// The little-endian value of the `n` bytes of `s` starting at `at`.
pub open spec fn spec_le_value(s: Seq<u8>, at: int, n: nat) -> int
    decreases n,
{
    if n == 0 {
        0
    } else {
        s[at] + 256 * spec_le_value(s, at + 1, (n - 1) as nat)
    }
}

/// Reads a little-endian 16-bit value from `s` at offset `at`.
pub fn read_u16_le(s: &Vec<u8>, at: usize) -> (r: u16)
    requires
        at + 2 <= s@.len(),
    ensures
        r == spec_le_value(s@, at as int, 2),
{
    let n: usize = s.len();
    assert(at + 2 <= n);
    let b0 = s[at];
    let b1 = s[at + 1];
    proof {
        assert(spec_le_value(s@, at + 2, 0) == 0);
        assert(spec_le_value(s@, at + 1, 1) == s@[at + 1]);
    }
    b0 as u16 + 256 * (b1 as u16)
}

/// Reads a little-endian 32-bit value from `s` at offset `at`.
pub fn read_u32_le(s: &Vec<u8>, at: usize) -> (r: u32)
    requires
        at + 4 <= s@.len(),
    ensures
        r == spec_le_value(s@, at as int, 4),
{
    let n: usize = s.len();
    assert(at + 4 <= n);
    let b0 = s[at] as u32;
    let b1 = s[at + 1] as u32;
    let b2 = s[at + 2] as u32;
    let b3 = s[at + 3] as u32;
    proof {
        assert(spec_le_value(s@, at + 4, 0) == 0);
        assert(spec_le_value(s@, at + 3, 1) == s@[at + 3]);
        assert(spec_le_value(s@, at + 2, 2) == s@[at + 2] + 256 * spec_le_value(s@, at + 3, 1));
        assert(spec_le_value(s@, at + 1, 3) == s@[at + 1] + 256 * spec_le_value(s@, at + 2, 2));
    }
    b0 + 256 * (b1 + 256 * (b2 + 256 * b3))
}

/// Reads a little-endian 64-bit value from `s` at offset `at`.
pub fn read_u64_le(s: &Vec<u8>, at: usize) -> (r: u64)
    requires
        at + 8 <= s@.len(),
    ensures
        r == spec_le_value(s@, at as int, 8),
{
    let n: usize = s.len();
    assert(at + 8 <= n);
    let b0 = s[at] as u64;
    let b1 = s[at + 1] as u64;
    let b2 = s[at + 2] as u64;
    let b3 = s[at + 3] as u64;
    let b4 = s[at + 4] as u64;
    let b5 = s[at + 5] as u64;
    let b6 = s[at + 6] as u64;
    let b7 = s[at + 7] as u64;
    proof {
        assert(spec_le_value(s@, at + 8, 0) == 0);
        assert(spec_le_value(s@, at + 7, 1) == s@[at + 7]);
        assert(spec_le_value(s@, at + 6, 2) == s@[at + 6] + 256 * spec_le_value(s@, at + 7, 1));
        assert(spec_le_value(s@, at + 5, 3) == s@[at + 5] + 256 * spec_le_value(s@, at + 6, 2));
        assert(spec_le_value(s@, at + 4, 4) == s@[at + 4] + 256 * spec_le_value(s@, at + 5, 3));
        assert(spec_le_value(s@, at + 3, 5) == s@[at + 3] + 256 * spec_le_value(s@, at + 4, 4));
        assert(spec_le_value(s@, at + 2, 6) == s@[at + 2] + 256 * spec_le_value(s@, at + 3, 5));
        assert(spec_le_value(s@, at + 1, 7) == s@[at + 1] + 256 * spec_le_value(s@, at + 2, 6));
    }
    b0 + 256 * (b1 + 256 * (b2 + 256 * (b3 + 256 * (b4 + 256 * (b5 + 256 * (b6 + 256 * b7))))))
}

} // verus!
