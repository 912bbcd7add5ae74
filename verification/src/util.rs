//! Byte-level primitives shared by the commit-graph reader: big-endian integer
//! reads, lexicographic comparison of byte strings, and searching for a byte.

use vstd::prelude::*;

verus! {

/// The big-endian 32-bit integer stored at offset `o` of `d`, as a mathematical integer.
#[verifier::opaque]
pub open spec fn be_u32_at(d: Seq<u8>, o: int) -> int {
    0x100_0000 * (d[o] as int) + 0x1_0000 * (d[o + 1] as int) + 0x100 * (d[o + 2] as int) + (d[o
        + 3] as int)
}

/// The big-endian 64-bit integer stored at offset `o` of `d`, as a mathematical integer.
#[verifier::opaque]
pub open spec fn be_u64_at(d: Seq<u8>, o: int) -> int {
    0x100_0000_0000_0000 * (d[o] as int) + 0x1_0000_0000_0000 * (d[o + 1] as int)
        + 0x100_0000_0000 * (d[o + 2] as int) + 0x1_0000_0000 * (d[o + 3] as int) + 0x100_0000 * (
    d[o + 4] as int) + 0x1_0000 * (d[o + 5] as int) + 0x100 * (d[o + 6] as int) + (d[o + 7] as int)
}

pub fn read_be_u32(d: &[u8], o: usize) -> (r: u32)
    requires
        o + 4 <= d@.len(),
    ensures
        r as int == be_u32_at(d@, o as int),
{
    let b0: u32 = d[o] as u32;
    let b1: u32 = d[o + 1] as u32;
    let b2: u32 = d[o + 2] as u32;
    let b3: u32 = d[o + 3] as u32;
    proof {
        reveal(be_u32_at);
    }
    b0 * 0x100_0000 + b1 * 0x1_0000 + b2 * 0x100 + b3
}

pub fn read_be_u64(d: &[u8], o: usize) -> (r: u64)
    requires
        o + 8 <= d@.len(),
    ensures
        r as int == be_u64_at(d@, o as int),
{
    let b0: u64 = d[o] as u64;
    let b1: u64 = d[o + 1] as u64;
    let b2: u64 = d[o + 2] as u64;
    let b3: u64 = d[o + 3] as u64;
    let b4: u64 = d[o + 4] as u64;
    let b5: u64 = d[o + 5] as u64;
    let b6: u64 = d[o + 6] as u64;
    let b7: u64 = d[o + 7] as u64;
    proof {
        reveal(be_u64_at);
    }
    b0 * 0x100_0000_0000_0000 + b1 * 0x1_0000_0000_0000 + b2 * 0x100_0000_0000 + b3 * 0x1_0000_0000
        + b4 * 0x100_0000 + b5 * 0x1_0000 + b6 * 0x100 + b7
}

/// Strict lexicographic order on byte strings of equal length.
pub open spec fn lex_less(a: Seq<u8>, b: Seq<u8>) -> bool
    decreases a.len(),
{
    if a.len() == 0 || b.len() == 0 {
        false
    } else if a[0] < b[0] {
        true
    } else if a[0] > b[0] {
        false
    } else {
        lex_less(a.skip(1), b.skip(1))
    }
}

pub proof fn lemma_lex_irrefl(a: Seq<u8>, b: Seq<u8>)
    requires
        a == b,
    ensures
        !lex_less(a, b),
    decreases a.len(),
{
    if a.len() > 0 {
        lemma_lex_irrefl(a.skip(1), b.skip(1));
    }
}

pub proof fn lemma_lex_asym(a: Seq<u8>, b: Seq<u8>)
    requires
        lex_less(a, b),
    ensures
        !lex_less(b, a),
        a != b,
    decreases a.len(),
{
    if a.len() > 0 && b.len() > 0 && a[0] == b[0] {
        lemma_lex_asym(a.skip(1), b.skip(1));
        assert(a != b) by {
            assert(a.skip(1) != b.skip(1));
        }
    }
}

pub proof fn lemma_lex_trans(a: Seq<u8>, b: Seq<u8>, c: Seq<u8>)
    requires
        a.len() == b.len(),
        b.len() == c.len(),
        lex_less(a, b),
        lex_less(b, c),
    ensures
        lex_less(a, c),
    decreases a.len(),
{
    if a.len() > 0 {
        if a[0] == b[0] && b[0] == c[0] {
            lemma_lex_trans(a.skip(1), b.skip(1), c.skip(1));
        }
    }
}

pub proof fn lemma_lex_from_diff(a: Seq<u8>, b: Seq<u8>, i: int)
    requires
        a.len() == b.len(),
        0 <= i < a.len(),
        forall|j: int| 0 <= j < i ==> a[j] == b[j],
        a[i] < b[i],
    ensures
        lex_less(a, b),
    decreases i,
{
    if i > 0 {
        assert forall|j: int| 0 <= j < i - 1 implies a.skip(1)[j] == b.skip(1)[j] by {
            assert(a.skip(1)[j] == a[j + 1]);
            assert(b.skip(1)[j] == b[j + 1]);
        }
        assert(a.skip(1)[i - 1] == a[i]);
        assert(b.skip(1)[i - 1] == b[i]);
        lemma_lex_from_diff(a.skip(1), b.skip(1), i - 1);
    }
}

/// Three-way lexicographic comparison of two equally long byte strings:
/// negative, zero or positive as `a` sorts before, equal to, or after `b`.
pub fn lex_cmp(a: &[u8], b: &[u8]) -> (r: i32)
    requires
        a@.len() == b@.len(),
    ensures
        (r == 0) <==> (a@ == b@),
        (r < 0) <==> lex_less(a@, b@),
        (r > 0) <==> lex_less(b@, a@),
{
    let n: usize = a.len();
    let mut i: usize = 0;
    while i < n
        invariant
            0 <= i <= n,
            n == a@.len(),
            n == b@.len(),
            forall|j: int| 0 <= j < i ==> a@[j] == b@[j],
        decreases n - i,
    {
        if a[i] < b[i] {
            proof {
                lemma_lex_from_diff(a@, b@, i as int);
                lemma_lex_asym(a@, b@);
            }
            return -1;
        }
        if a[i] > b[i] {
            proof {
                lemma_lex_from_diff(b@, a@, i as int);
                lemma_lex_asym(b@, a@);
            }
            return 1;
        }
        i = i + 1;
    }
    proof {
        assert(a@ =~= b@);
        lemma_lex_irrefl(a@, b@);
        lemma_lex_irrefl(b@, a@);
    }
    0
}

/// The index of the first occurrence of `b` in `s`, if any.
pub fn find_byte(s: &[u8], b: u8) -> (r: Option<usize>)
    ensures
        match r {
            Some(i) => i < s@.len() && s@[i as int] == b && forall|j: int| 0 <= j < i ==> s@[j] != b,
            None => forall|j: int| 0 <= j < s@.len() ==> s@[j] != b,
        },
{
    let n: usize = s.len();
    let mut i: usize = 0;
    while i < n
        invariant
            0 <= i <= n,
            n == s@.len(),
            forall|j: int| 0 <= j < i ==> s@[j] != b,
        decreases n - i,
    {
        if s[i] == b {
            return Some(i);
        }
        i = i + 1;
    }
    None
}

/// A copy of `d[start..start + n]` as an owned vector.
pub fn copy_range(d: &[u8], start: usize, n: usize) -> (r: Vec<u8>)
    requires
        start + n <= d@.len(),
    ensures
        r@ == d@.subrange(start as int, start as int + n as int),
{
    // reading the length as a usize bounds the view's length for the
    // index arithmetic below
    let m: usize = d.len();
    let s: &[u8] = &d[start..start + n];
    vstd::slice::slice_to_vec(s)
}

} // verus!
