//! Character-level tests on text: equality, prefix and substring, stated over the
//! characters of a `str`.
use vstd::prelude::*;
use vstd::string::StrSliceExecFns;

verus! {

/// `p` is a prefix of `s`.
pub open spec fn seq_has_prefix(s: Seq<char>, p: Seq<char>) -> bool {
    p.len() <= s.len() && s.subrange(0, p.len() as int) == p
}

/// `p` occurs in `s` at position `i`.
pub open spec fn occurs_at(s: Seq<char>, p: Seq<char>, i: int) -> bool {
    0 <= i && i + p.len() <= s.len() && s.subrange(i, i + p.len()) == p
}

/// `p` occurs somewhere in `s`.
pub open spec fn seq_contains(s: Seq<char>, p: Seq<char>) -> bool {
    exists|i: int| #[trigger] occurs_at(s, p, i)
}

/// Whether the characters of `s` from `at` on start with those of `p`.
fn matches_at(s: &str, s_len: usize, p: &str, p_len: usize, at: usize) -> (r: bool)
    requires
        s_len == s@.len(),
        p_len == p@.len(),
        at <= s_len,
    ensures
        r == occurs_at(s@, p@, at as int),
{
    if p_len > s_len - at {
        return false;
    }
    let mut j: usize = 0;
    while j < p_len
        invariant
            p_len == p@.len(),
            s_len == s@.len(),
            at + p_len <= s_len,
            j <= p_len,
            forall|k: int| 0 <= k < j ==> s@[at + k] == p@[k],
        decreases p_len - j,
    {
        if s.get_char(at + j) != p.get_char(j) {
            assert(s@.subrange(at as int, at + p@.len())[j as int] != p@[j as int]);
            return false;
        }
        j = j + 1;
    }
    assert(s@.subrange(at as int, at + p@.len()) =~= p@);
    true
}

/// Whether `s` and `t` hold the same characters.
pub fn str_equal(s: &str, t: &str) -> (r: bool)
    ensures
        r == (s@ == t@),
{
    let n = s.unicode_len();
    let m = t.unicode_len();
    if n != m {
        return false;
    }
    let r = matches_at(s, n, t, m, 0);
    proof {
        if r {
            assert(s@ =~= s@.subrange(0, t@.len() as int));
        } else {
            assert(s@.subrange(0, t@.len() as int) =~= s@);
        }
    }
    r
}

/// Whether `s` starts with `p` (as `str::starts_with` with a `&str` pattern).
pub fn has_prefix(s: &str, p: &str) -> (r: bool)
    ensures
        r == seq_has_prefix(s@, p@),
{
    let n = s.unicode_len();
    let m = p.unicode_len();
    matches_at(s, n, p, m, 0)
}

/// Whether `p` occurs in `s` (as `str::contains` with a `&str` pattern).
pub fn has_substring(s: &str, p: &str) -> (r: bool)
    ensures
        r == seq_contains(s@, p@),
{
    let n = s.unicode_len();
    let m = p.unicode_len();
    let mut i: usize = 0;
    while i < n
        invariant
            n == s@.len(),
            m == p@.len(),
            i <= n,
            forall|k: int| 0 <= k < i ==> !#[trigger] occurs_at(s@, p@, k),
        decreases n - i,
    {
        if matches_at(s, n, p, m, i) {
            return true;
        }
        i = i + 1;
    }
    if matches_at(s, n, p, m, n) {
        return true;
    }
    proof {
        assert forall|k: int| !#[trigger] occurs_at(s@, p@, k) by {
            if 0 <= k < n {
                assert(k < i);
            }
        }
    }
    false
}

} // verus!
