//! Byte-sequence helpers.
//!
//! Protocol frames and fields are byte vectors; the fixed texts of the
//! protocol are written as ASCII string literals and viewed as byte
//! sequences through `txt`.

use vstd::prelude::*;

verus! {

/// The byte sequence of an ASCII string literal.
pub open spec fn txt(s: &str) -> Seq<u8> {
    Seq::new(s@.len(), |i: int| s@[i] as u8)
}

/// An ASCII literal as a byte vector.
pub fn txt_vec(s: &str) -> (r: Vec<u8>)
    requires
        vstd::string::is_ascii(s),
    ensures
        r@ == txt(s),
{
    let r = s.as_bytes_vec();
    proof {
        broadcast use vstd::string::is_ascii_spec_bytes;

        assert(r@ =~= txt(s));
    }
    r
}

/// Append an ASCII literal to a byte vector.
pub fn push_txt(out: &mut Vec<u8>, s: &str)
    requires
        vstd::string::is_ascii(s),
    ensures
        final(out)@ == old(out)@ + txt(s),
{
    let mut v = s.as_bytes_vec();
    proof {
        broadcast use vstd::string::is_ascii_spec_bytes;

        assert(v@ =~= txt(s));
    }
    out.append(&mut v);
}

/// Append a byte slice to a byte vector.
pub fn push_bytes(out: &mut Vec<u8>, b: &[u8])
    ensures
        final(out)@ == old(out)@ + b@,
{
    let mut i: usize = 0;
    while i < b.len()
        invariant
            0 <= i <= b@.len(),
            out@ == old(out)@ + b@.take(i as int),
        decreases b@.len() - i,
    {
        out.push(b[i]);
        proof {
            assert(b@.take(i + 1) =~= b@.take(i as int).push(b@[i as int]));
        }
        i += 1;
    }
    proof {
        assert(b@.take(b@.len() as int) =~= b@);
    }
}

/// Byte-wise equality of two slices.
pub fn bytes_eq(a: &[u8], b: &[u8]) -> (r: bool)
    ensures
        r == (a@ == b@),
{
    if a.len() != b.len() {
        return false;
    }
    let mut i: usize = 0;
    while i < a.len()
        invariant
            0 <= i <= a@.len(),
            a@.len() == b@.len(),
            forall|j: int| 0 <= j < i ==> a@[j] == b@[j],
        decreases a@.len() - i,
    {
        if a[i] != b[i] {
            return false;
        }
        i += 1;
    }
    proof {
        assert(a@ =~= b@);
    }
    true
}

/// Byte-wise equality of a slice against an ASCII literal.
pub fn bytes_eq_txt(a: &[u8], s: &str) -> (r: bool)
    requires
        vstd::string::is_ascii(s),
    ensures
        r == (a@ == txt(s)),
{
    let b = s.as_bytes();
    proof {
        broadcast use vstd::string::is_ascii_spec_bytes;

        assert(b@ =~= txt(s));
    }
    bytes_eq(a, b)
}

/// Byte-wise prefix test.
pub fn bytes_starts_with(s: &[u8], prefix: &[u8]) -> (r: bool)
    ensures
        r == prefix@.is_prefix_of(s@),
{
    if prefix.len() > s.len() {
        assert(!prefix@.is_prefix_of(s@)) by {
            assert(prefix@.len() > s@.len());
        }
        return false;
    }
    let mut i: usize = 0;
    while i < prefix.len()
        invariant
            0 <= i <= prefix@.len() <= s@.len(),
            forall|j: int| 0 <= j < i ==> s@[j] == prefix@[j],
        decreases prefix@.len() - i,
    {
        if s[i] != prefix[i] {
            assert(!prefix@.is_prefix_of(s@)) by {
                assert(s@.subrange(0, prefix@.len() as int)[i as int] != prefix@[i as int]);
            }
            return false;
        }
        i += 1;
    }
    assert(prefix@.is_prefix_of(s@)) by {
        assert(s@.subrange(0, prefix@.len() as int) =~= prefix@);
    }
    true
}

/// `n` occurs in `h` starting at position `j`.
pub open spec fn contains_at(h: Seq<u8>, n: Seq<u8>, j: int) -> bool {
    0 <= j && j + n.len() <= h.len() && h.subrange(j, j + n.len()) == n
}

/// `n` occurs somewhere in `h`.
pub open spec fn contains_seq(h: Seq<u8>, n: Seq<u8>) -> bool {
    exists|j: int| contains_at(h, n, j)
}

/// Whether `n` occurs in `h` starting at `j`.
fn matches_at(h: &[u8], n: &[u8], j: usize) -> (r: bool)
    requires
        j + n@.len() <= h@.len(),
    ensures
        r == contains_at(h@, n@, j as int),
{
    let hl = h.len();
    let mut k: usize = 0;
    while k < n.len()
        invariant
            0 <= k <= n@.len(),
            j + n@.len() <= h@.len(),
            h@.len() == hl,
            forall|kk: int| 0 <= kk < k ==> h@[j + kk] == n@[kk],
        decreases n@.len() - k,
    {
        if h[j + k] != n[k] {
            assert(!contains_at(h@, n@, j as int)) by {
                assert(h@.subrange(j as int, j + n@.len())[k as int] != n@[k as int]);
            }
            return false;
        }
        k += 1;
    }
    proof {
        assert(h@.subrange(j as int, j + n@.len()) =~= n@);
    }
    true
}

/// Substring search: whether `n` occurs anywhere in `h`.
pub fn contains_sub(h: &[u8], n: &[u8]) -> (r: bool)
    ensures
        r == contains_seq(h@, n@),
{
    if n.len() > h.len() {
        proof {
            assert forall|j: int| !contains_at(h@, n@, j) by {}
        }
        return false;
    }
    if n.len() == 0 {
        proof {
            assert(h@.subrange(0, 0) =~= n@);
            assert(contains_at(h@, n@, 0));
        }
        return true;
    }
    let hl = h.len();
    let mut j: usize = 0;
    let last = h.len() - n.len();
    while j <= last
        invariant
            0 <= j <= last + 1,
            last == h@.len() - n@.len(),
            1 <= n@.len() <= h@.len(),
            h@.len() == hl,
            forall|jj: int| 0 <= jj < j ==> !contains_at(h@, n@, jj),
        decreases last - j + 1,
    {
        if matches_at(h, n, j) {
            return true;
        }
        j += 1;
    }
    proof {
        assert forall|jj: int| !contains_at(h@, n@, jj) by {
            if 0 <= jj < j {
            } else if jj > last {
                assert(jj + n@.len() > h@.len());
            }
        }
    }
    false
}

/// Whether an ASCII literal occurs in `h` starting at `j`.
pub fn txt_at(h: &[u8], j: usize, n: &str) -> (r: bool)
    requires
        vstd::string::is_ascii(n),
    ensures
        r == contains_at(h@, txt(n), j as int),
{
    let b = n.as_bytes();
    proof {
        broadcast use vstd::string::is_ascii_spec_bytes;

        assert(b@ =~= txt(n));
    }
    if j > h.len() || b.len() > h.len() - j {
        return false;
    }
    matches_at(h, b, j)
}

/// Substring search for an ASCII literal.
pub fn contains_txt(h: &[u8], n: &str) -> (r: bool)
    requires
        vstd::string::is_ascii(n),
    ensures
        r == contains_seq(h@, txt(n)),
{
    let b = n.as_bytes();
    proof {
        broadcast use vstd::string::is_ascii_spec_bytes;

        assert(b@ =~= txt(n));
    }
    contains_sub(h, b)
}

/// Prefix test against an ASCII literal.
pub fn starts_with_txt(s: &[u8], p: &str) -> (r: bool)
    requires
        vstd::string::is_ascii(p),
    ensures
        r == txt(p).is_prefix_of(s@),
{
    let b = p.as_bytes();
    proof {
        broadcast use vstd::string::is_ascii_spec_bytes;

        assert(b@ =~= txt(p));
    }
    bytes_starts_with(s, b)
}

} // verus!
