//! Small byte-level helpers shared by the decoder: ASCII character classes,
//! big-endian length fields, and slice comparison.

use vstd::prelude::*;

verus! {

/// The ASCII whitespace octets stripped from the ends of a content-type
/// token: space, horizontal tab, line feed, vertical tab, form feed and
/// carriage return.
pub open spec fn is_ws(b: u8) -> bool {
    b == 0x20 || (0x09 <= b && b <= 0x0d)
}

/// Executable form of [`is_ws`].
pub fn is_ws_byte(b: u8) -> (r: bool)
    ensures
        r == is_ws(b),
{
    b == 0x20 || (0x09 <= b && b <= 0x0d)
}

/// `s` with leading and trailing bytes satisfying `p` removed.
pub open spec fn trim_when(s: Seq<u8>, p: spec_fn(u8) -> bool) -> Seq<u8>
    decreases s.len(),
{
    if s.len() == 0 {
        s
    } else if p(s[0]) {
        trim_when(s.skip(1), p)
    } else if p(s[s.len() - 1]) {
        trim_when(s.take(s.len() - 1), p)
    } else {
        s
    }
}

/// Trimming `s[start..end]` yields `s[lo..hi]` when everything outside
/// `[lo, hi)` satisfies `p` and the ends of `[lo, hi)` do not.
pub proof fn lemma_trim_when_range(
    s: Seq<u8>,
    p: spec_fn(u8) -> bool,
    start: int,
    end: int,
    lo: int,
    hi: int,
)
    requires
        0 <= start <= lo <= hi <= end <= s.len(),
        forall|k: int| start <= k < lo ==> p(#[trigger] s[k]),
        forall|k: int| hi <= k < end ==> p(#[trigger] s[k]),
        lo < hi ==> !p(s[lo]) && !p(s[hi - 1]),
    ensures
        trim_when(s.subrange(start, end), p) == s.subrange(lo, hi),
    decreases end - start,
{
    let seg = s.subrange(start, end);
    if start == end {
        assert(seg =~= s.subrange(lo, hi));
    } else if p(seg[0]) {
        assert(seg.skip(1) =~= s.subrange(start + 1, end));
        if start < lo {
            lemma_trim_when_range(s, p, start + 1, end, lo, hi);
        } else {
            // `lo == start` and the first byte is trimmed, so the trimmed
            // range must be empty.
            assert(lo == hi);
            lemma_trim_when_range(s, p, start + 1, end, start + 1, start + 1);
            assert(s.subrange(start + 1, start + 1) =~= s.subrange(lo, hi));
        }
    } else if p(seg[seg.len() - 1]) {
        assert(seg[seg.len() - 1] == s[end - 1]);
        assert(lo == start);
        assert(hi < end);
        assert(seg.take(seg.len() - 1) =~= s.subrange(start, end - 1));
        lemma_trim_when_range(s, p, start, end - 1, lo, hi);
    } else {
        assert(lo == start);
        assert(seg[seg.len() - 1] == s[end - 1]);
        assert(hi == end);
        assert(seg =~= s.subrange(lo, hi));
    }
}

/// The index of the first occurrence of `b` in `s`, or `s.len()` if absent.
pub open spec fn find_byte(s: Seq<u8>, b: u8) -> nat
    decreases s.len(),
{
    if s.len() == 0 {
        0
    } else if s[0] == b {
        0
    } else {
        (1 + find_byte(s.skip(1), b)) as nat
    }
}

/// `find_byte` looks only at the bytes before the first occurrence, so a
/// split at or after it leaves it unchanged.
pub proof fn lemma_find_byte_prefix(s: Seq<u8>, b: u8, j: int)
    requires
        0 <= j <= s.len(),
        forall|k: int| 0 <= k < j ==> s[k] != b,
        j < s.len() ==> s[j] == b,
    ensures
        find_byte(s, b) == j,
    decreases s.len(),
{
    if s.len() > 0 {
        if j == 0 {
        } else {
            assert(s[0] != b);
            lemma_find_byte_prefix(s.skip(1), b, j - 1);
        }
    }
}

/// The value of four bytes read as a big-endian 32-bit length field.
pub open spec fn be32(s: Seq<u8>) -> int
    recommends
        s.len() == 4,
{
    (s[0] as int) * 0x1000000 + (s[1] as int) * 0x10000 + (s[2] as int) * 0x100 + (s[3] as int)
}

/// Reads the big-endian 32-bit value stored at `s[lo..lo + 4]`.
pub fn read_be32(s: &[u8], lo: usize) -> (n: u32)
    requires
        lo + 4 <= s@.len(),
    ensures
        n as int == be32(s@.subrange(lo as int, lo as int + 4)),
{
    let n: u32 = (s[lo] as u32) * 0x1000000 + (s[lo + 1] as u32) * 0x10000 + (s[lo + 2] as u32)
        * 0x100 + (s[lo + 3] as u32);
    proof {
        let q = s@.subrange(lo as int, lo as int + 4);
        assert(q[0] == s@[lo as int]);
        assert(q[1] == s@[lo as int + 1]);
        assert(q[2] == s@[lo as int + 2]);
        assert(q[3] == s@[lo as int + 3]);
    }
    n
}

/// True when the slice range `a[lo..hi]` equals the whole of `b`.
pub fn range_eq(a: &[u8], lo: usize, hi: usize, b: &[u8]) -> (r: bool)
    requires
        lo <= hi <= a@.len(),
    ensures
        r == (a@.subrange(lo as int, hi as int) =~= b@),
{
    if hi - lo != b.len() {
        return false;
    }
    let mut i: usize = 0;
    while i < b.len()
        invariant
            lo <= hi <= a@.len(),
            hi - lo == b@.len(),
            i <= b@.len(),
            forall|k: int| 0 <= k < i ==> a@[lo + k] == b@[k],
        decreases b@.len() - i,
    {
        if a[lo + i] != b[i] {
            return false;
        }
        i = i + 1;
    }
    true
}

/// Copies the slice range `a[lo..hi]` into a fresh vector.
pub fn range_to_vec(a: &[u8], lo: usize, hi: usize) -> (r: Vec<u8>)
    requires
        lo <= hi <= a@.len(),
    ensures
        r@ == a@.subrange(lo as int, hi as int),
{
    let mut r: Vec<u8> = Vec::new();
    let mut i: usize = lo;
    while i < hi
        invariant
            lo <= i <= hi <= a@.len(),
            r@ =~= a@.subrange(lo as int, i as int),
        decreases hi - i,
    {
        r.push(a[i]);
        proof {
            assert(r@ =~= a@.subrange(lo as int, i + 1));
        }
        i = i + 1;
    }
    proof {
        assert(r@ =~= a@.subrange(lo as int, hi as int));
    }
    r
}

/// Removes the first `n` bytes of `v` and returns them, leaving the rest.
pub fn split_front(v: &mut Vec<u8>, n: usize) -> (r: Vec<u8>)
    requires
        n <= old(v)@.len(),
    ensures
        r@ == old(v)@.subrange(0, n as int),
        final(v)@ == old(v)@.skip(n as int),
{
    let front = range_to_vec(v.as_slice(), 0, n);
    let back = range_to_vec(v.as_slice(), n, v.len());
    *v = back;
    front
}

} // verus!
