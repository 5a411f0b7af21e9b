//! The directory indexer's pure half: sorting walked file entries into the
//! deterministic listing order, filtering them by substring patterns, and
//! joining them into the plain-text listing body.
//!
//! The walk itself is filesystem work and happens outside this crate; these
//! functions are specified for every possible list of entries the walk may
//! hand over.

use vstd::prelude::*;
use vstd::relations::sorted_by;
use vstd::string::StrSliceExecFns;
use vstd::string::StringExecFns;

use crate::order::entry_le;
use crate::order::entry_le_exec;
use crate::order::entry_order;
use crate::order::lemma_sorted_unique;
use crate::text::contains_seq;
use crate::text::contains_substring;

verus! {

/// The character sequences of a list of entries.
pub open spec fn entry_views(files: Seq<String>) -> Seq<Seq<char>> {
    files.map_values(|f: String| f@)
}

/// Insert one entry into an already sorted list, keeping it sorted.
fn insert_sorted(out: &mut Vec<String>, x: String)
    requires
        sorted_by(entry_views(old(out)@), entry_order()),
    ensures
        sorted_by(entry_views(final(out)@), entry_order()),
        entry_views(final(out)@).to_multiset() == entry_views(old(out)@).to_multiset().insert(
            x@,
        ),
{
    broadcast use vstd::seq_lib::group_to_multiset_ensures;

    let ghost vs = entry_views(out@);
    let mut j: usize = 0;
    while j < out.len() && entry_le_exec(out[j].as_str(), x.as_str())
        invariant
            out@ == old(out)@,
            j <= out@.len(),
            forall|k: int| 0 <= k < j ==> entry_le(out@[k]@, x@),
        decreases out@.len() - j,
    {
        j += 1;
    }
    proof {
        if j < out@.len() {
            crate::order::lemma_entry_le_connected(x@, out@[j as int]@);
        }
        assert forall|k: int| j <= k < out@.len() implies entry_le(x@, out@[k]@) by {
            if k > j {
                assert(entry_order()(entry_views(out@)[j as int], entry_views(out@)[k]));
                crate::order::lemma_entry_le_trans(x@, out@[j as int]@, out@[k]@);
            }
        }
    }
    out.insert(j, x);
    proof {
        vs.insert_ensures(j as int, x@);
        assert(entry_views(out@) =~= vs.insert(j as int, x@)) by {
            assert(forall|k: int|
                0 <= k < out@.len() ==> entry_views(out@)[k] == #[trigger] out@[k]@);
        }
        assert(sorted_by(entry_views(out@), entry_order())) by {
            assert forall|p: int, q: int|
                0 <= p < q < vs.insert(j as int, x@).len() implies entry_order()(
                vs.insert(j as int, x@)[p],
                vs.insert(j as int, x@)[q],
            ) by {
                let nv = vs.insert(j as int, x@);
                if p < j && q < j {
                    assert(entry_order()(vs[p], vs[q]));
                } else if p < j && q == j {
                    assert(nv[p] == vs[p] && nv[q] == x@);
                } else if p < j && q > j {
                    assert(nv[p] == vs[p] && nv[q] == vs[q - 1]);
                    assert(entry_order()(vs[p], vs[q - 1]));
                } else if p == j {
                    assert(nv[p] == x@ && nv[q] == vs[q - 1]);
                } else {
                    assert(nv[p] == vs[p - 1] && nv[q] == vs[q - 1]);
                    assert(entry_order()(vs[p - 1], vs[q - 1]));
                }
            }
        }
        vstd::seq_lib::to_multiset_insert(vs, j as int, x@);
    }
}

/// Sort walked file entries into the listing order: fewest path separators
/// first, lexicographic comparison as the tie-break. The result holds exactly
/// the entries given, and its order is unique for them.
pub fn sort_file_list(files: Vec<String>) -> (r: Vec<String>)
    ensures
        sorted_by(entry_views(r@), entry_order()),
        entry_views(r@).to_multiset() == entry_views(files@).to_multiset(),
{
    broadcast use vstd::seq_lib::group_to_multiset_ensures;

    let mut out: Vec<String> = Vec::new();
    let mut i: usize = 0;
    proof {
        assert(entry_views(out@) =~= Seq::<Seq<char>>::empty());
        assert(entry_views(files@.take(0)) =~= Seq::<Seq<char>>::empty());
    }
    while i < files.len()
        invariant
            i <= files@.len(),
            sorted_by(entry_views(out@), entry_order()),
            entry_views(out@).to_multiset() == entry_views(files@.take(i as int)).to_multiset(),
        decreases files@.len() - i,
    {
        let x = files[i].clone();
        proof {
            assert(entry_views(files@.take(i + 1)) =~= entry_views(files@.take(i as int)).push(
                files@[i as int]@,
            ));
        }
        let ghost out_before = out@;
        insert_sorted(&mut out, x);
        proof {
            assert(x == files@[i as int]);
            assert(entry_views(out@).to_multiset() == entry_views(out_before).to_multiset().insert(
                files@[i as int]@,
            ));
            vstd::seq_lib::to_multiset_build(
                entry_views(files@.take(i as int)),
                files@[i as int]@,
            );
        }
        i += 1;
    }
    proof {
        assert(files@.take(files@.len() as int) =~= files@);
    }
    out
}

/// Listing a fixed collection of entries is deterministic: any two sorted
/// lists holding the same entries read identically, so walking an unchanged
/// tree twice yields the same listing however the walk ordered it.
pub proof fn lemma_listing_unique(a: Seq<String>, b: Seq<String>)
    requires
        sorted_by(entry_views(a), entry_order()),
        sorted_by(entry_views(b), entry_order()),
        entry_views(a).to_multiset() == entry_views(b).to_multiset(),
    ensures
        entry_views(a) == entry_views(b),
{
    lemma_sorted_unique(entry_views(a), entry_views(b));
}

/// `f` contains every pattern in `pats` as a substring.
pub open spec fn matches_all(f: Seq<char>, pats: Seq<Seq<char>>) -> bool {
    forall|k: int| 0 <= k < pats.len() ==> contains_seq(f, pats[k])
}

/// Splitting `q` at every occurrence of `sep`: an empty input yields one
/// empty token, and every separator opens a further token.
pub open spec fn split_on(q: Seq<char>, sep: char) -> Seq<Seq<char>>
    decreases q.len(),
{
    if q.len() == 0 {
        seq![Seq::<char>::empty()]
    } else if q[0] == sep {
        seq![Seq::<char>::empty()] + split_on(q.drop_first(), sep)
    } else {
        let rest = split_on(q.drop_first(), sep);
        seq![seq![q[0]] + rest[0]] + rest.drop_first()
    }
}

/// A split has at least one token.
proof fn lemma_split_on_len(q: Seq<char>, sep: char)
    ensures
        split_on(q, sep).len() >= 1,
    decreases q.len(),
{
    if q.len() > 0 {
        lemma_split_on_len(q.drop_first(), sep);
    }
}

/// Without the separator, the split is the whole input as one token.
proof fn lemma_split_on_no_sep(q: Seq<char>, sep: char)
    requires
        forall|k: int| 0 <= k < q.len() ==> q[k] != sep,
    ensures
        split_on(q, sep) == seq![q],
    decreases q.len(),
{
    if q.len() == 0 {
        assert(split_on(q, sep) =~~= seq![q]);
    } else {
        lemma_split_on_no_sep(q.drop_first(), sep);
        let rest = split_on(q.drop_first(), sep);
        assert(rest == seq![q.drop_first()]);
        assert(rest.drop_first() =~= Seq::<Seq<char>>::empty());
        assert(seq![q[0]] + rest[0] =~= q);
        assert(split_on(q, sep) =~~= seq![q]);
    }
}

/// With the first separator at `i`, the split is the prefix before `i`
/// followed by the split of what comes after `i`.
proof fn lemma_split_on_first_sep(q: Seq<char>, sep: char, i: int)
    requires
        0 <= i < q.len(),
        q[i] == sep,
        forall|k: int| 0 <= k < i ==> q[k] != sep,
    ensures
        split_on(q, sep) == seq![q.take(i)] + split_on(q.skip(i + 1), sep),
    decreases i,
{
    if i == 0 {
        assert(q.take(0) =~= Seq::<char>::empty());
        assert(q.skip(1) =~= q.drop_first());
        assert(split_on(q, sep) =~= seq![q.take(0)] + split_on(q.skip(1), sep));
    } else {
        let t = q.drop_first();
        assert(t[i - 1] == sep);
        lemma_split_on_first_sep(t, sep, i - 1);
        lemma_split_on_len(t.skip(i), sep);
        assert(seq![q[0]] + t.take(i - 1) =~= q.take(i));
        assert(t.skip(i) =~= q.skip(i + 1));
        assert(split_on(q, sep) =~= seq![q.take(i)] + split_on(q.skip(i + 1), sep));
    }
}

/// Find the first `sep` at or after `from` in `q`.
fn find_sep(q: &str, from: usize, sep: char) -> (r: Option<usize>)
    requires
        from <= q@.len(),
    ensures
        match r {
            Some(i) => from <= i < q@.len() && q@[i as int] == sep && forall|k: int|
                from <= k < i ==> q@[k] != sep,
            None => forall|k: int| from <= k < q@.len() ==> q@[k] != sep,
        },
{
    let n = q.unicode_len();
    let mut i: usize = from;
    while i < n
        invariant
            n == q@.len(),
            from <= i <= n,
            forall|k: int| from <= k < i ==> q@[k] != sep,
        decreases n - i,
    {
        if q.get_char(i) == sep {
            return Some(i);
        }
        i += 1;
    }
    None
}

/// Split a filter query into its `|`-separated patterns.
pub fn split_patterns(q: &str) -> (r: Vec<String>)
    ensures
        entry_views(r@) == split_on(q@, '|'),
    decreases q@.len(),
{
    let n = q.unicode_len();
    match find_sep(q, 0, '|') {
        None => {
            let mut out: Vec<String> = Vec::new();
            out.push(q.to_owned());
            proof {
                lemma_split_on_no_sep(q@, '|');
                assert(entry_views(out@) =~= seq![q@]);
            }
            out
        },
        Some(i) => {
            let head = q.substring_char(0, i).to_owned();
            let tail = q.substring_char(i + 1, n);
            assert(tail@ =~= q@.skip(i + 1));
            let mut rest = split_patterns(tail);
            rest.insert(0, head);
            proof {
                lemma_split_on_first_sep(q@, '|', i as int);
                assert(head@ =~= q@.take(i as int));
                assert(entry_views(rest@) =~= seq![q@.take(i as int)] + split_on(
                    q@.skip(i + 1),
                    '|',
                )) by {
                    assert(forall|k: int|
                        0 <= k < rest@.len() ==> entry_views(rest@)[k] == #[trigger] rest@[k]@);
                }
            }
            rest
        },
    }
}

/// Does `f` contain every pattern in `pats`?
fn matches_all_exec(f: &str, pats: &Vec<String>) -> (r: bool)
    ensures
        r == matches_all(f@, entry_views(pats@)),
{
    let mut k: usize = 0;
    while k < pats.len()
        invariant
            k <= pats@.len(),
            forall|j: int| 0 <= j < k ==> contains_seq(f@, entry_views(pats@)[j]),
        decreases pats@.len() - k,
    {
        if !contains_substring(f, pats[k].as_str()) {
            assert(!contains_seq(f@, entry_views(pats@)[k as int]));
            return false;
        }
        k += 1;
    }
    true
}

/// The entries retained by a filter query: those containing every
/// `|`-separated pattern, in their original order.
pub open spec fn filter_model(files: Seq<String>, q: Seq<char>) -> Seq<String> {
    files.filter(|f: String| matches_all(f@, split_on(q, '|')))
}

/// Keep only the entries that contain every `|`-separated pattern of the
/// query, preserving their order.
pub fn filter_files(files: Vec<String>, query: &str) -> (r: Vec<String>)
    ensures
        r@ == filter_model(files@, query@),
{
    let pats = split_patterns(query);
    let pred = Ghost(|f: String| matches_all(f@, split_on(query@, '|')));
    let mut out: Vec<String> = Vec::new();
    let mut i: usize = 0;
    proof {
        assert(files@.take(0).filter(pred@) =~= Seq::<String>::empty());
    }
    while i < files.len()
        invariant
            i <= files@.len(),
            pred@ == (|f: String| matches_all(f@, split_on(query@, '|'))),
            entry_views(pats@) == split_on(query@, '|'),
            out@ == files@.take(i as int).filter(pred@),
        decreases files@.len() - i,
    {
        let f = files[i].clone();
        let keep = matches_all_exec(f.as_str(), &pats);
        proof {
            let prefix = files@.take(i as int);
            assert(files@.take(i + 1) =~= prefix.push(files@[i as int]));
            assert(prefix.push(files@[i as int]).drop_last() =~= prefix);
            reveal(Seq::filter);
        }
        if keep {
            out.push(f);
        }
        i += 1;
    }
    proof {
        assert(files@.take(files@.len() as int) =~= files@);
    }
    out
}

/// The plain-text listing body: every entry followed by a line break.
pub open spec fn joined_lines(files: Seq<String>) -> Seq<char>
    decreases files.len(),
{
    if files.len() == 0 {
        Seq::empty()
    } else {
        joined_lines(files.drop_last()) + files.last()@ + seq!['\n']
    }
}

/// Join the entries into the body served for a listing request.
pub fn join_lines(files: &Vec<String>) -> (r: String)
    ensures
        r@ == joined_lines(files@),
{
    let mut out = String::new();
    let mut i: usize = 0;
    while i < files.len()
        invariant
            i <= files@.len(),
            out@ == joined_lines(files@.take(i as int)),
        decreases files@.len() - i,
    {
        out.append(files[i].as_str());
        out.append("\n");
        proof {
            reveal_strlit("\n");
            assert("\n"@ =~= seq!['\n']);
            assert(files@.take(i + 1).drop_last() =~= files@.take(i as int));
            assert(files@.take(i + 1).last() == files@[i as int]);
        }
        i += 1;
    }
    proof {
        assert(files@.take(files@.len() as int) =~= files@);
    }
    out
}

/// What a listing request returns: all entries when the query is absent,
/// the filtered entries when one is given, joined by line breaks.
pub open spec fn listing_body_model(files: Seq<String>, q: Option<Seq<char>>) -> Seq<char> {
    match q {
        Some(qs) => joined_lines(filter_model(files, qs)),
        None => joined_lines(files),
    }
}

/// Produce the plain-text body for a listing request.
pub fn listing_body(files: Vec<String>, query: Option<&str>) -> (r: String)
    ensures
        r@ == listing_body_model(files@, match query {
            Some(q) => Some(q@),
            None => None,
        }),
{
    match query {
        Some(q) => {
            let kept = filter_files(files, q);
            join_lines(&kept)
        },
        None => join_lines(&files),
    }
}

} // verus!
