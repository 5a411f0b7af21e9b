//! The path sanitizer: validates a client-supplied relative path before it
//! is joined under the served root.
//!
//! The check is deliberately coarse: any occurrence of the literal substring
//! `../` rejects the input. There is no canonicalization; the remaining
//! defense is that every leading separator is stripped, so the joined path
//! always stays textually under the root.

use vstd::prelude::*;
use vstd::string::StrSliceExecFns;
use vstd::string::StringExecFns;

use crate::text::contains_seq;
use crate::text::contains_substring;
use crate::text::drop_leading_separators;
use crate::text::lemma_drop_leading_preserves_absence;
use crate::text::lemma_prepend_preserves_absence;
use crate::text::strip_leading_separators;

verus! {

/// A parent-directory segment: `..` followed by a path separator.
pub open spec fn traversal_pat() -> Seq<char> {
    seq!['.', '.', '/']
}

/// The query was rejected because it contains a parent-directory segment.
#[derive(Debug, Clone, Copy, PartialEq, Eq)]
pub struct Rejected;

/// What the sanitizer produces: `None` when the input holds a traversal
/// segment, otherwise the input with every leading separator removed.
pub open spec fn sanitize_model(q: Seq<char>) -> Option<Seq<char>> {
    if contains_seq(q, traversal_pat()) {
        None
    } else {
        Some(drop_leading_separators(q))
    }
}

/// Validate a percent-decoded query string as a relative file path.
///
/// Rejects any input containing the substring `../`; otherwise strips all
/// leading `/` characters and returns the remainder, ready to be joined
/// under the served root.
pub fn sanitize(query: &str) -> (r: Result<String, Rejected>)
    ensures
        r is Ok <==> sanitize_model(query@) is Some,
        r matches Ok(p) ==> sanitize_model(query@) == Some(p@),
{
    proof {
        reveal_strlit("../");
        assert("../"@ =~= traversal_pat());
    }
    if contains_substring(query, "../") {
        Err(Rejected)
    } else {
        Ok(strip_leading_separators(query))
    }
}

/// Joining `rel` under `root`: a separator is inserted unless `root` already
/// ends with one.
pub open spec fn join_model(root: Seq<char>, rel: Seq<char>) -> Seq<char> {
    if root.len() > 0 && root.last() == '/' {
        root + rel
    } else {
        root + seq!['/'] + rel
    }
}

/// Join a sanitized relative path under the served root.
pub fn join_under_root(root: &str, rel: &str) -> (r: String)
    ensures
        r@ == join_model(root@, rel@),
{
    let n = root.unicode_len();
    let mut out = root.to_owned();
    if n == 0 || root.get_char(n - 1) != '/' {
        out.append("/");
        proof {
            reveal_strlit("/");
            assert(out@ =~= root@ + seq!['/']);
        }
    }
    out.append(rel);
    out
}

/// Any input containing a parent-directory segment is rejected.
pub proof fn lemma_sanitizer_rejects_traversal(q: Seq<char>)
    requires
        contains_seq(q, traversal_pat()),
    ensures
        sanitize_model(q) is None,
{
}

/// Any input free of parent-directory segments is accepted, and the path it
/// resolves to stays confined under the root: the resolved path extends the
/// root itself, and nothing after the root contains a traversal segment.
pub proof fn lemma_sanitized_path_confined(q: Seq<char>, root: Seq<char>)
    requires
        !contains_seq(q, traversal_pat()),
    ensures
        sanitize_model(q) is Some,
        ({
            let full = join_model(root, sanitize_model(q).unwrap());
            &&& full.len() >= root.len()
            &&& full.subrange(0, root.len() as int) == root
            &&& !contains_seq(full.skip(root.len() as int), traversal_pat())
        }),
{
    let rel = drop_leading_separators(q);
    lemma_drop_leading_preserves_absence(q, traversal_pat());
    let full = join_model(root, rel);
    if root.len() > 0 && root.last() == '/' {
        assert(full.subrange(0, root.len() as int) =~= root);
        assert(full.skip(root.len() as int) =~= rel);
    } else {
        lemma_prepend_preserves_absence('/', rel, traversal_pat());
        assert(full.subrange(0, root.len() as int) =~= root);
        assert(full.skip(root.len() as int) =~= seq!['/'] + rel);
    }
}

} // verus!
