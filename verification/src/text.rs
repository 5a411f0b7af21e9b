//! Character-level string utilities shared by the sanitizer, the router and
//! the indexer: substring search, equality, prefix stripping, splitting on a
//! separator, and token replacement.
//!
//! All executable functions here are specified against `Seq<char>` views, so
//! callers' contracts can speak about the exact characters produced.

use vstd::prelude::*;
use vstd::string::StrSliceExecFns;
use vstd::string::StringExecFns;

verus! {

/// The pattern `pat` occurs in `s` starting at position `i`.
pub open spec fn occurs_at(s: Seq<char>, pat: Seq<char>, i: int) -> bool {
    0 <= i && i + pat.len() <= s.len() && s.subrange(i, i + pat.len() as int) == pat
}

/// `pat` occurs somewhere in `s` as a contiguous substring.
pub open spec fn contains_seq(s: Seq<char>, pat: Seq<char>) -> bool {
    exists|i: int| occurs_at(s, pat, i)
}

/// Check whether `pat` occurs in `s` at position `i`.
pub(crate) fn match_at(s: &str, pat: &str, i: usize) -> (b: bool)
    requires
        i + pat@.len() <= s@.len(),
    ensures
        b == occurs_at(s@, pat@, i as int),
{
    let n = s.unicode_len();
    let plen = pat.unicode_len();
    let mut j: usize = 0;
    while j < plen
        invariant
            j <= plen,
            plen == pat@.len(),
            n == s@.len(),
            i + plen <= n,
            forall|k: int| 0 <= k < j ==> s@[i + k] == pat@[k],
        decreases plen - j,
    {
        if s.get_char(i + j) != pat.get_char(j) {
            assert(s@.subrange(i as int, i + plen) != pat@) by {
                assert(s@.subrange(i as int, i + plen)[j as int] != pat@[j as int]);
            }
            return false;
        }
        j += 1;
    }
    assert(s@.subrange(i as int, i + plen) =~= pat@);
    true
}

/// Substring search: does `s` contain `pat` anywhere?
pub fn contains_substring(s: &str, pat: &str) -> (b: bool)
    ensures
        b == contains_seq(s@, pat@),
{
    let n = s.unicode_len();
    let m = pat.unicode_len();
    if m > n {
        assert(forall|i: int| !occurs_at(s@, pat@, i));
        return false;
    }
    if m == 0 {
        assert(occurs_at(s@, pat@, 0)) by {
            assert(s@.subrange(0, 0) =~= pat@);
        }
        return true;
    }
    let mut i: usize = 0;
    while i <= n - m
        invariant
            0 < m <= n,
            n == s@.len(),
            m == pat@.len(),
            i <= n - m + 1,
            forall|k: int| 0 <= k < i ==> !occurs_at(s@, pat@, k),
        decreases n - m + 1 - i,
    {
        if match_at(s, pat, i) {
            return true;
        }
        i += 1;
    }
    assert(forall|k: int| !occurs_at(s@, pat@, k));
    false
}

/// Character-for-character string equality, specified over the views.
pub fn str_eq(a: &str, b: &str) -> (r: bool)
    ensures
        r == (a@ == b@),
{
    let n = a.unicode_len();
    if n != b.unicode_len() {
        return false;
    }
    let mut i: usize = 0;
    while i < n
        invariant
            n == a@.len(),
            n == b@.len(),
            i <= n,
            forall|k: int| 0 <= k < i ==> a@[k] == b@[k],
        decreases n - i,
    {
        if a.get_char(i) != b.get_char(i) {
            return false;
        }
        i += 1;
    }
    assert(a@ =~= b@);
    true
}

/// `s` with every leading `/` removed.
pub open spec fn drop_leading_separators(s: Seq<char>) -> Seq<char>
    decreases s.len(),
{
    if s.len() > 0 && s[0] == '/' {
        drop_leading_separators(s.drop_first())
    } else {
        s
    }
}

/// Dropping leading separators drops exactly the leading run of `/`.
proof fn lemma_drop_leading_skip(s: Seq<char>, i: int)
    requires
        0 <= i <= s.len(),
        forall|k: int| 0 <= k < i ==> s[k] == '/',
    ensures
        drop_leading_separators(s) == drop_leading_separators(s.skip(i)),
    decreases i,
{
    if i > 0 {
        assert(s[0] == '/');
        assert(drop_leading_separators(s) == drop_leading_separators(s.drop_first()));
        assert(forall|k: int| 0 <= k < i - 1 ==> s.drop_first()[k] == '/');
        lemma_drop_leading_skip(s.drop_first(), i - 1);
        assert(s.drop_first().skip(i - 1) =~= s.skip(i));
    } else {
        assert(s.skip(0) =~= s);
    }
}

/// Remove every leading path separator, so the result can no longer be read
/// as an absolute path when joined under the served root.
pub fn strip_leading_separators(s: &str) -> (r: String)
    ensures
        r@ == drop_leading_separators(s@),
{
    let n = s.unicode_len();
    let mut i: usize = 0;
    while i < n && s.get_char(i) == '/'
        invariant
            n == s@.len(),
            i <= n,
            forall|k: int| 0 <= k < i ==> s@[k] == '/',
        decreases n - i,
    {
        i += 1;
    }
    proof {
        lemma_drop_leading_skip(s@, i as int);
        if i < n {
            assert(s@.skip(i as int)[0] == s@[i as int]);
        }
    }
    let rest = s.substring_char(i, n);
    assert(rest@ =~= s@.skip(i as int));
    rest.to_owned()
}

/// A substring of a suffix of `s` is a substring of `s`.
pub proof fn lemma_contains_in_suffix(s: Seq<char>, i: int, pat: Seq<char>)
    requires
        0 <= i <= s.len(),
        contains_seq(s.skip(i), pat),
    ensures
        contains_seq(s, pat),
{
    let j = choose|j: int| occurs_at(s.skip(i), pat, j);
    assert(s.subrange(i + j, i + j + pat.len()) =~= s.skip(i).subrange(j, j + pat.len()));
    assert(occurs_at(s, pat, i + j));
}

/// Dropping leading separators never introduces a substring.
pub proof fn lemma_drop_leading_preserves_absence(s: Seq<char>, pat: Seq<char>)
    requires
        !contains_seq(s, pat),
    ensures
        !contains_seq(drop_leading_separators(s), pat),
    decreases s.len(),
{
    if s.len() > 0 && s[0] == '/' {
        assert(s.drop_first() =~= s.skip(1));
        if contains_seq(s.skip(1), pat) {
            lemma_contains_in_suffix(s, 1, pat);
        }
        lemma_drop_leading_preserves_absence(s.drop_first(), pat);
    }
}

/// Prepending a character that cannot end an occurrence of `pat` at position
/// zero keeps `pat` absent. Used when a separator is inserted by the join.
pub proof fn lemma_prepend_preserves_absence(c: char, s: Seq<char>, pat: Seq<char>)
    requires
        !contains_seq(s, pat),
        pat.len() > 0,
        pat[0] != c,
    ensures
        !contains_seq(seq![c] + s, pat),
{
    let t = seq![c] + s;
    assert forall|i: int| !occurs_at(t, pat, i) by {
        if 0 <= i && i + pat.len() <= t.len() {
            if i == 0 {
                if t.subrange(0, pat.len() as int) == pat {
                    assert(t.subrange(0, pat.len() as int)[0] == c);
                }
            } else {
                if t.subrange(i, i + pat.len()) == pat {
                    assert(s.subrange(i - 1, i - 1 + pat.len()) =~= t.subrange(i, i + pat.len()));
                    assert(occurs_at(s, pat, i - 1));
                }
            }
        }
    }
}

} // verus!
