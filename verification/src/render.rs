//! Rendering the listing page: one anchor line per file entry, substituted
//! for the placeholder token of a base HTML template.
//!
//! The entry's relative path is used verbatim as both the link target and
//! the link text; no HTML escaping is performed, deliberately, so the page
//! bytes stay exactly reproducible from the entry names.

use vstd::prelude::*;
use vstd::string::StrSliceExecFns;
use vstd::string::StringExecFns;

use crate::text::match_at;
use crate::text::occurs_at;

verus! {

/// The anchor markup for one file entry.
pub open spec fn href_line_model(name: Seq<char>) -> Seq<char> {
    "<a href=\"/file?"@ + name + "\">"@ + name + "</a>"@
}

/// Build the anchor markup linking to one file entry.
pub fn href_line(file_name: &str) -> (r: String)
    ensures
        r@ == href_line_model(file_name@),
{
    let mut out = String::from_str("<a href=\"/file?");
    out.append(file_name);
    out.append("\">");
    out.append(file_name);
    out.append("</a>");
    out
}

/// The anchor lines of all entries, each followed by a line-break tag.
pub open spec fn href_lines_model(files: Seq<String>) -> Seq<char>
    decreases files.len(),
{
    if files.len() == 0 {
        Seq::empty()
    } else {
        href_lines_model(files.drop_last()) + href_line_model(files.last()@) + "<br>"@
    }
}

/// Build the anchor lines of all entries.
pub fn build_href_lines(files: &Vec<String>) -> (r: String)
    ensures
        r@ == href_lines_model(files@),
{
    let mut out = String::new();
    let mut i: usize = 0;
    while i < files.len()
        invariant
            i <= files@.len(),
            out@ == href_lines_model(files@.take(i as int)),
        decreases files@.len() - i,
    {
        let line = href_line(files[i].as_str());
        out.append(line.as_str());
        out.append("<br>");
        proof {
            assert(files@.take(i + 1).drop_last() =~= files@.take(i as int));
            assert(files@.take(i + 1).last() == files@[i as int]);
        }
        i += 1;
    }
    proof {
        assert(files@.take(files@.len() as int) =~= files@);
    }
    out
}

/// `t` with every occurrence of `pat` replaced by `rep`, scanning left to
/// right without overlap. An empty pattern leaves `t` unchanged.
pub open spec fn replace_model(t: Seq<char>, pat: Seq<char>, rep: Seq<char>) -> Seq<char>
    decreases t.len(),
{
    if pat.len() == 0 || t.len() < pat.len() {
        t
    } else if t.subrange(0, pat.len() as int) == pat {
        rep + replace_model(t.skip(pat.len() as int), pat, rep)
    } else {
        seq![t[0]] + replace_model(t.drop_first(), pat, rep)
    }
}

/// Replace every occurrence of `pat` in `t` by `rep`.
pub fn replace_all(t: &str, pat: &str, rep: &str) -> (r: String)
    ensures
        r@ == replace_model(t@, pat@, rep@),
{
    let n = t.unicode_len();
    let m = pat.unicode_len();
    if m == 0 {
        return t.to_owned();
    }
    let mut out = String::new();
    let mut i: usize = 0;
    proof {
        assert(t@.skip(0) =~= t@);
    }
    while i < n
        invariant
            0 < m == pat@.len(),
            n == t@.len(),
            i <= n,
            replace_model(t@, pat@, rep@) == out@ + replace_model(t@.skip(i as int), pat@, rep@),
        decreases n - i,
    {
        if n - i >= m && match_at(t, pat, i) {
            out.append(rep);
            proof {
                let s = t@.skip(i as int);
                assert(s.subrange(0, m as int) =~= t@.subrange(i as int, i + m));
                assert(s.subrange(0, m as int) == pat@);
                assert(s.skip(m as int) =~= t@.skip(i + m));
            }
            i += m;
        } else {
            let piece = t.substring_char(i, i + 1);
            out.append(piece);
            proof {
                let s = t@.skip(i as int);
                assert(piece@ =~= seq![s[0]]);
                assert(s.drop_first() =~= t@.skip(i + 1));
                if s.len() >= m {
                    assert(s.subrange(0, m as int) =~= t@.subrange(i as int, i + m));
                    assert(s.subrange(0, m as int) != pat@);
                } else {
                    assert(s =~= seq![s[0]] + s.drop_first());
                    assert(replace_model(s, pat@, rep@) == s);
                    assert(replace_model(s.drop_first(), pat@, rep@) == s.drop_first());
                }
            }
            i += 1;
        }
    }
    proof {
        assert(t@.skip(n as int) =~= Seq::<char>::empty());
    }
    out
}

/// The token of the base template that the anchor lines stand in for.
pub open spec fn placeholder() -> Seq<char> {
    "<!--HREF-LINES-->"@
}

/// The placeholder token as a string.
pub fn placeholder_token() -> (r: &'static str)
    ensures
        r@ == placeholder(),
{
    "<!--HREF-LINES-->"
}

/// The listing page: the base template with the placeholder replaced by the
/// anchor lines of the given entries.
pub open spec fn render_model(template: Seq<char>, files: Seq<String>) -> Seq<char> {
    replace_model(template, placeholder(), href_lines_model(files))
}

/// Render the listing page from a base template and the sorted entries.
pub fn render_file_list_html(template: &str, files: &Vec<String>) -> (r: String)
    ensures
        r@ == render_model(template@, files@),
{
    let lines = build_href_lines(files);
    replace_all(template, "<!--HREF-LINES-->", lines.as_str())
}

/// Rendering an empty file set yields the base template with the placeholder
/// replaced by the empty string: no anchors appear.
pub proof fn lemma_render_empty_listing(template: Seq<char>)
    ensures
        render_model(template, Seq::<String>::empty()) == replace_model(
            template,
            placeholder(),
            Seq::<char>::empty(),
        ),
{
    assert(href_lines_model(Seq::<String>::empty()) == Seq::<char>::empty());
}

} // verus!
