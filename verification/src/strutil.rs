//! Character-level string matching used by the router's domain
//! predicates and the fake-DNS filters.

use vstd::prelude::*;

verus! {

/// `s` ends with `sfx`.
pub open spec fn ends_with(s: Seq<char>, sfx: Seq<char>) -> bool {
    sfx.len() <= s.len() && forall|i: int|
        0 <= i < sfx.len() ==> s[s.len() - sfx.len() + i] == sfx[i]
}

/// `k` occurs in `s` at position `pos`.
pub open spec fn matches_at(s: Seq<char>, k: Seq<char>, pos: int) -> bool {
    0 <= pos && pos + k.len() <= s.len() && forall|i: int| 0 <= i < k.len() ==> s[pos + i] == k[i]
}

/// `k` occurs somewhere in `s`.
pub open spec fn contains_seq(s: Seq<char>, k: Seq<char>) -> bool {
    exists|p: int| matches_at(s, k, p)
}

/// Returns true exactly when `s` ends with `sfx`.
pub fn str_ends_with(s: &str, sfx: &str) -> (r: bool)
    ensures
        r == ends_with(s@, sfx@),
{
    let n = s.unicode_len();
    let m = sfx.unicode_len();
    if m > n {
        return false;
    }
    let mut i: usize = 0;
    while i < m
        invariant
            m <= n,
            n == s@.len(),
            m == sfx@.len(),
            i <= m,
            forall|j: int| 0 <= j < i ==> s@[n - m + j] == sfx@[j],
        decreases m - i,
    {
        if s.get_char(n - m + i) != sfx.get_char(i) {
            return false;
        }
        i += 1;
    }
    true
}

/// Returns true exactly when `k` occurs somewhere in `s`.
pub fn str_contains(s: &str, k: &str) -> (r: bool)
    ensures
        r == contains_seq(s@, k@),
{
    let n = s.unicode_len();
    let m = k.unicode_len();
    if m > n {
        proof {
            assert forall|p: int| !matches_at(s@, k@, p) by {}
        }
        return false;
    }
    let mut p: usize = 0;
    while p <= n - m
        invariant
            m <= n,
            n == s@.len(),
            m == k@.len(),
            p <= n - m + 1,
            forall|q: int| 0 <= q < p ==> !matches_at(s@, k@, q),
        decreases n - m + 1 - p,
    {
        let mut i: usize = 0;
        let mut hit = true;
        while i < m
            invariant
                m <= n,
                n == s@.len(),
                m == k@.len(),
                p + m <= n,
                i <= m,
                hit ==> forall|j: int| 0 <= j < i ==> s@[p + j] == k@[j],
                !hit ==> !matches_at(s@, k@, p as int),
            decreases m - i,
        {
            if s.get_char(p + i) != k.get_char(i) {
                hit = false;
                i = m;
            } else {
                i += 1;
            }
        }
        if hit {
            proof {
                assert(matches_at(s@, k@, p as int));
            }
            return true;
        }
        p += 1;
    }
    proof {
        assert forall|q: int| !matches_at(s@, k@, q) by {
            if 0 <= q && q + k@.len() <= s@.len() {
                assert(q < p);
            }
        }
    }
    false
}

/// Returns true exactly when the two string slices hold the same
/// characters.
pub fn slice_eq(s: &str, t: &str) -> (r: bool)
    ensures
        r == (s@ == t@),
{
    let n = s.unicode_len();
    let m = t.unicode_len();
    if m != n {
        return false;
    }
    let mut i: usize = 0;
    while i < n
        invariant
            n == s@.len(),
            n == t@.len(),
            i <= n,
            forall|j: int| 0 <= j < i ==> s@[j] == t@[j],
        decreases n - i,
    {
        if s.get_char(i) != t.get_char(i) {
            return false;
        }
        i += 1;
    }
    proof {
        assert(s@ =~= t@);
    }
    true
}

} // verus!
