//! The deterministic order of the file listing: entries with fewer path
//! separators come first, and entries of equal depth are compared
//! lexicographically by code point.
//!
//! The order is defined over `Seq<char>` views and proved to be a total
//! ordering, which is what makes the sorted listing unique for a given set
//! of entries.

use vstd::prelude::*;
use vstd::relations::sorted_by;
use vstd::relations::total_ordering;
use vstd::string::StrSliceExecFns;

verus! {

/// How often `c` occurs in `s`.
pub open spec fn count_occ(s: Seq<char>, c: char) -> nat
    decreases s.len(),
{
    if s.len() == 0 {
        0
    } else {
        count_occ(s.drop_last(), c) + (if s.last() == c {
            1nat
        } else {
            0nat
        })
    }
}

/// Count how often `c` occurs in `s`.
pub fn count_char_occurrences(s: &str, c: char) -> (n: usize)
    ensures
        n == count_occ(s@, c),
{
    let len = s.unicode_len();
    let mut n: usize = 0;
    let mut i: usize = 0;
    while i < len
        invariant
            len == s@.len(),
            i <= len,
            n <= i,
            n == count_occ(s@.take(i as int), c),
        decreases len - i,
    {
        proof {
            assert(s@.take(i + 1).drop_last() =~= s@.take(i as int));
            assert(s@.take(i + 1).last() == s@[i as int]);
        }
        if s.get_char(i) == c {
            n += 1;
        }
        i += 1;
    }
    proof {
        assert(s@.take(len as int) =~= s@);
    }
    n
}

/// Lexicographic order on character sequences, by code point.
pub open spec fn lex_le(a: Seq<char>, b: Seq<char>) -> bool
    decreases a.len(),
{
    if a.len() == 0 {
        true
    } else if b.len() == 0 {
        false
    } else if a[0] == b[0] {
        lex_le(a.drop_first(), b.drop_first())
    } else {
        (a[0] as u32) < (b[0] as u32)
    }
}

/// The listing order: primary key the number of `/` separators, secondary
/// key the lexicographic comparison of the whole entry.
pub open spec fn entry_le(a: Seq<char>, b: Seq<char>) -> bool {
    count_occ(a, '/') < count_occ(b, '/') || (count_occ(a, '/') == count_occ(b, '/') && lex_le(
        a,
        b,
    ))
}

/// The listing order as a relation value, for use with `sorted_by`.
pub open spec fn entry_order() -> spec_fn(Seq<char>, Seq<char>) -> bool {
    |a: Seq<char>, b: Seq<char>| entry_le(a, b)
}

/// Distinct characters have distinct code points.
proof fn lemma_char_cast_injective(a: char, b: char)
    requires
        (a as u32) == (b as u32),
    ensures
        a == b,
{
    vstd::utf8::char_u32_cast(a, a as u32);
    vstd::utf8::char_u32_cast(b, b as u32);
}

proof fn lemma_lex_le_refl(a: Seq<char>)
    ensures
        lex_le(a, a),
    decreases a.len(),
{
    if a.len() > 0 {
        lemma_lex_le_refl(a.drop_first());
    }
}

proof fn lemma_lex_le_connected(a: Seq<char>, b: Seq<char>)
    ensures
        lex_le(a, b) || lex_le(b, a),
    decreases a.len(),
{
    if a.len() > 0 && b.len() > 0 {
        if a[0] == b[0] {
            lemma_lex_le_connected(a.drop_first(), b.drop_first());
        } else if (a[0] as u32) == (b[0] as u32) {
            lemma_char_cast_injective(a[0], b[0]);
        }
    }
}

proof fn lemma_lex_le_antisym(a: Seq<char>, b: Seq<char>)
    requires
        lex_le(a, b),
        lex_le(b, a),
    ensures
        a == b,
    decreases a.len(),
{
    if a.len() == 0 {
        assert(b.len() == 0);
        assert(a =~= b);
    } else {
        assert(b.len() > 0);
        assert(a[0] == b[0]);
        lemma_lex_le_antisym(a.drop_first(), b.drop_first());
        assert(a =~= b) by {
            assert(a.drop_first() == b.drop_first());
            assert(a.drop_first().len() == b.drop_first().len());
            assert(a.len() == b.len());
            assert(forall|i: int|
                1 <= i < a.len() ==> a[i] == a.drop_first()[i - 1] && b[i] == b.drop_first()[i
                    - 1]);
        }
    }
}

proof fn lemma_lex_le_trans(a: Seq<char>, b: Seq<char>, c: Seq<char>)
    requires
        lex_le(a, b),
        lex_le(b, c),
    ensures
        lex_le(a, c),
    decreases a.len(),
{
    if a.len() > 0 {
        assert(b.len() > 0);
        assert(c.len() > 0);
        if a[0] == b[0] && b[0] == c[0] {
            lemma_lex_le_trans(a.drop_first(), b.drop_first(), c.drop_first());
        }
    }
}

/// The listing order is a total ordering: reflexive, antisymmetric,
/// transitive and strongly connected.
pub proof fn lemma_entry_order_total()
    ensures
        total_ordering(entry_order()),
{
    let r = entry_order();
    assert forall|a: Seq<char>| #[trigger] r(a, a) by {
        lemma_lex_le_refl(a);
    }
    assert forall|a: Seq<char>, b: Seq<char>| #[trigger] r(a, b) && #[trigger] r(b, a) implies a
        == b by {
        lemma_lex_le_antisym(a, b);
    }
    assert forall|a: Seq<char>, b: Seq<char>, c: Seq<char>|
        #[trigger] r(a, b) && #[trigger] r(b, c) implies r(a, c) by {
        if count_occ(a, '/') == count_occ(b, '/') && count_occ(b, '/') == count_occ(c, '/') {
            lemma_lex_le_trans(a, b, c);
        }
    }
    assert forall|a: Seq<char>, b: Seq<char>| #[trigger] r(a, b) || #[trigger] r(b, a) by {
        if count_occ(a, '/') == count_occ(b, '/') {
            lemma_lex_le_connected(a, b);
        }
    }
}

/// Any two entries are comparable in the listing order.
pub proof fn lemma_entry_le_connected(a: Seq<char>, b: Seq<char>)
    ensures
        entry_le(a, b) || entry_le(b, a),
{
    if count_occ(a, '/') == count_occ(b, '/') {
        lemma_lex_le_connected(a, b);
    }
}

/// The listing order is transitive.
pub proof fn lemma_entry_le_trans(a: Seq<char>, b: Seq<char>, c: Seq<char>)
    requires
        entry_le(a, b),
        entry_le(b, c),
    ensures
        entry_le(a, c),
{
    if count_occ(a, '/') == count_occ(b, '/') && count_occ(b, '/') == count_occ(c, '/') {
        lemma_lex_le_trans(a, b, c);
    }
}

/// Compare two entries in the listing order.
pub fn entry_le_exec(a: &str, b: &str) -> (r: bool)
    ensures
        r == entry_le(a@, b@),
{
    let ca = count_char_occurrences(a, '/');
    let cb = count_char_occurrences(b, '/');
    if ca < cb {
        true
    } else if ca > cb {
        false
    } else {
        lex_le_exec(a, b)
    }
}

/// Compare two character sequences lexicographically.
fn lex_le_exec(a: &str, b: &str) -> (r: bool)
    ensures
        r == lex_le(a@, b@),
{
    let alen = a.unicode_len();
    let blen = b.unicode_len();
    let mut i: usize = 0;
    proof {
        assert(a@.skip(0) =~= a@);
        assert(b@.skip(0) =~= b@);
    }
    loop
        invariant
            alen == a@.len(),
            blen == b@.len(),
            i <= alen,
            i <= blen,
            lex_le(a@, b@) == lex_le(a@.skip(i as int), b@.skip(i as int)),
        decreases alen - i,
    {
        if i == alen {
            assert(a@.skip(i as int).len() == 0);
            return true;
        }
        if i == blen {
            assert(b@.skip(i as int).len() == 0);
            return false;
        }
        let ca = a.get_char(i);
        let cb = b.get_char(i);
        proof {
            assert(a@.skip(i as int)[0] == a@[i as int]);
            assert(b@.skip(i as int)[0] == b@[i as int]);
        }
        if ca == cb {
            proof {
                assert(a@.skip(i as int).drop_first() =~= a@.skip(i + 1));
                assert(b@.skip(i as int).drop_first() =~= b@.skip(i + 1));
            }
            i += 1;
        } else {
            return (ca as u32) < (cb as u32);
        }
    }
}

/// Two sorted listings of the same entries are identical: the listing order
/// admits exactly one arrangement of a given collection of entries.
pub proof fn lemma_sorted_unique(a: Seq<Seq<char>>, b: Seq<Seq<char>>)
    requires
        sorted_by(a, entry_order()),
        sorted_by(b, entry_order()),
        a.to_multiset() == b.to_multiset(),
    ensures
        a == b,
    decreases a.len(),
{
    broadcast use vstd::seq_lib::group_to_multiset_ensures;

    lemma_entry_order_total();
    if a.len() == 0 {
        assert(a.to_multiset().len() == 0);
        assert(b.len() == b.to_multiset().len());
        assert(a =~= b);
    } else {
        assert(a.to_multiset().len() == a.len());
        assert(b.len() == b.to_multiset().len());
        assert(b.len() > 0);
        // The heads are equal: each is bounded by the other.
        assert(a.contains(a[0]));
        assert(b.to_multiset().count(a[0]) > 0);
        assert(b.contains(a[0]));
        let j = choose|j: int| 0 <= j < b.len() && b[j] == a[0];
        if j > 0 {
            assert(entry_order()(b[0], b[j]));
        } else {
            lemma_lex_le_refl(b[0]);
        }
        assert(entry_order()(b[0], a[0]));
        assert(b.contains(b[0]));
        assert(a.to_multiset().count(b[0]) > 0);
        assert(a.contains(b[0]));
        let i = choose|i: int| 0 <= i < a.len() && a[i] == b[0];
        if i > 0 {
            assert(entry_order()(a[0], a[i]));
        } else {
            lemma_lex_le_refl(a[0]);
        }
        assert(entry_order()(a[0], b[0]));
        lemma_lex_le_antisym(a[0], b[0]);
        assert(a[0] == b[0]);
        // Drop the shared head and recurse.
        assert(a.remove(0).to_multiset() =~= a.to_multiset().remove(a[0]));
        assert(b.remove(0).to_multiset() =~= b.to_multiset().remove(b[0]));
        assert(a.remove(0).to_multiset() == b.remove(0).to_multiset());
        assert(sorted_by(a.remove(0), entry_order())) by {
            assert(forall|p: int, q: int|
                0 <= p < q < a.remove(0).len() ==> a.remove(0)[p] == a[p + 1] && a.remove(0)[q]
                    == a[q + 1]);
        }
        assert(sorted_by(b.remove(0), entry_order())) by {
            assert(forall|p: int, q: int|
                0 <= p < q < b.remove(0).len() ==> b.remove(0)[p] == b[p + 1] && b.remove(0)[q]
                    == b[q + 1]);
        }
        lemma_sorted_unique(a.remove(0), b.remove(0));
        assert(a =~= b) by {
            assert(a.len() == b.len());
            assert(forall|k: int|
                1 <= k < a.len() ==> a[k] == a.remove(0)[k - 1] && b[k] == b.remove(0)[k - 1]);
        }
    }
}

} // verus!
