//! The request router: a pure dispatcher over the method, path and query of
//! a request. Each request yields exactly one decision; the surrounding
//! program turns the decision into an HTTP response and performs whatever
//! file work it calls for.
//!
//! The query string arrives percent-encoded; decoding is delegated to an
//! outside crate and the routing contract is stated over the decoded form.

use vstd::prelude::*;
use vstd::string::StringExecFns;

use crate::sanitize::join_model;
use crate::sanitize::join_under_root;
use crate::sanitize::lemma_sanitized_path_confined;
use crate::sanitize::sanitize;
use crate::sanitize::sanitize_model;
use crate::sanitize::traversal_pat;
use crate::text::contains_seq;
use crate::text::str_eq;

verus! {

/// What percent-decoding returns for a given input: a function of the
/// characters alone.
pub uninterp spec fn percent_decoded(s: Seq<char>) -> Seq<char>;

/// Relies on `percent_encoding::percent_decode_str` and
/// `PercentDecode::decode_utf8_lossy`: every `%` followed by two hex digits
/// is decoded and the bytes are converted lossily to text, so the result is
/// a function of the input characters alone; bytes other than such triples
/// pass through unchanged, so an input without `%` decodes to itself.
#[verifier::external_body]
fn percent_decode(s: &str) -> (r: String)
    ensures
        r@ == percent_decoded(s@),
        !s@.contains('%') ==> r@ == s@,
{
    percent_encoding::percent_decode_str(s).decode_utf8_lossy().to_string()
}

/// The decision made for one request.
pub enum RouteAction {
    /// Serve the configured greeting text.
    Root,
    /// Stream the file at this resolved path.
    ServeFile { path: String },
    /// The query failed the traversal check; serve the rejection text.
    TraversalRejected,
    /// Stream the precomputed listing page.
    ListingPage,
    /// Serve the live file listing, filtered by the query if one is given.
    Listing { query: Option<String> },
    /// No route matched; serve the fixed not-found page.
    NotFound,
}

/// The decision at the specification level, over character sequences.
pub enum RouteModel {
    Root,
    ServeFile(Seq<char>),
    TraversalRejected,
    ListingPage,
    Listing(Option<Seq<char>>),
    NotFound,
}

impl View for RouteAction {
    type V = RouteModel;

    open spec fn view(&self) -> RouteModel {
        match self {
            RouteAction::Root => RouteModel::Root,
            RouteAction::ServeFile { path } => RouteModel::ServeFile(path@),
            RouteAction::TraversalRejected => RouteModel::TraversalRejected,
            RouteAction::ListingPage => RouteModel::ListingPage,
            RouteAction::Listing { query } => RouteModel::Listing(opt_view(*query)),
            RouteAction::NotFound => RouteModel::NotFound,
        }
    }
}

/// The view of an optional string.
pub open spec fn opt_view(q: Option<String>) -> Option<Seq<char>> {
    match q {
        Some(s) => Some(s@),
        None => None,
    }
}

/// The routing table over (method, path, decoded query): the fixed set of
/// routes and the decision each one yields.
pub open spec fn route_model(
    method: Seq<char>,
    path: Seq<char>,
    query: Option<Seq<char>>,
    fs_dir: Seq<char>,
) -> RouteModel {
    if method == "GET"@ && path == "/"@ {
        RouteModel::Root
    } else if method == "GET"@ && path == "/file"@ {
        match query {
            Some(q) => match sanitize_model(q) {
                None => RouteModel::TraversalRejected,
                Some(rel) => RouteModel::ServeFile(join_model(fs_dir, rel)),
            },
            None => RouteModel::NotFound,
        }
    } else if method == "GET"@ && path == "/file-list.html"@ {
        match query {
            None => RouteModel::ListingPage,
            Some(_) => RouteModel::NotFound,
        }
    } else if method == "GET"@ && path == "/file-list"@ {
        RouteModel::Listing(query)
    } else {
        RouteModel::NotFound
    }
}

/// Dispatch one request, given its already percent-decoded query.
pub fn route(method: &str, path: &str, query: Option<String>, fs_dir: &str) -> (r: RouteAction)
    ensures
        r@ == route_model(method@, path@, opt_view(query), fs_dir@),
{
    if !str_eq(method, "GET") {
        return RouteAction::NotFound;
    }
    if str_eq(path, "/") {
        RouteAction::Root
    } else if str_eq(path, "/file") {
        match query {
            Some(q) => match sanitize(q.as_str()) {
                Err(_) => RouteAction::TraversalRejected,
                Ok(rel) => RouteAction::ServeFile {
                    path: join_under_root(fs_dir, rel.as_str()),
                },
            },
            None => RouteAction::NotFound,
        }
    } else if str_eq(path, "/file-list.html") {
        match query {
            None => RouteAction::ListingPage,
            Some(_) => RouteAction::NotFound,
        }
    } else if str_eq(path, "/file-list") {
        RouteAction::Listing { query }
    } else {
        RouteAction::NotFound
    }
}

/// Dispatch one request from its raw query: the query is percent-decoded
/// and then routed.
pub fn route_request(method: &str, path: &str, raw_query: Option<&str>, fs_dir: &str) -> (r:
    RouteAction)
    ensures
        r@ == route_model(method@, path@, match raw_query {
            Some(s) => Some(percent_decoded(s@)),
            None => None,
        }, fs_dir@),
{
    let decoded = match raw_query {
        Some(s) => Some(percent_decode(s)),
        None => None,
    };
    route(method, path, decoded, fs_dir)
}

/// Whatever the request was, a file the router decides to stream lies under
/// the served root: its path extends the root, and nothing after the root
/// holds a parent-directory segment.
pub proof fn lemma_served_file_confined(
    method: Seq<char>,
    path: Seq<char>,
    query: Option<Seq<char>>,
    fs_dir: Seq<char>,
)
    ensures
        route_model(method, path, query, fs_dir) matches RouteModel::ServeFile(full) ==> {
            &&& full.len() >= fs_dir.len()
            &&& full.subrange(0, fs_dir.len() as int) == fs_dir
            &&& !contains_seq(full.skip(fs_dir.len() as int), traversal_pat())
        },
{
    if route_model(method, path, query, fs_dir) is ServeFile {
        let q = query.unwrap();
        assert(!contains_seq(q, traversal_pat()));
        lemma_sanitized_path_confined(q, fs_dir);
    }
}

/// The status each decision is served with. For the streaming decisions,
/// `open_ok` says whether the file could be opened; every other decision's
/// status is fixed by the routing table.
pub open spec fn status_model(r: RouteModel, open_ok: bool) -> u16 {
    match r {
        RouteModel::Root => 200,
        RouteModel::ServeFile(_) => if open_ok {
            200
        } else {
            404
        },
        RouteModel::TraversalRejected => 200,
        RouteModel::ListingPage => if open_ok {
            200
        } else {
            404
        },
        RouteModel::Listing(_) => 200,
        RouteModel::NotFound => 404,
    }
}

/// The HTTP status for a decision.
pub fn action_status(action: &RouteAction, open_ok: bool) -> (s: u16)
    ensures
        s == status_model(action@, open_ok),
{
    match action {
        RouteAction::Root => 200,
        RouteAction::ServeFile { .. } => if open_ok {
            200
        } else {
            404
        },
        RouteAction::TraversalRejected => 200,
        RouteAction::ListingPage => if open_ok {
            200
        } else {
            404
        },
        RouteAction::Listing { .. } => 200,
        RouteAction::NotFound => 404,
    }
}

/// The fixed body served when a requested path fails the traversal check.
/// The status stays 200: the rejection is an answer, not an HTTP error.
pub fn rejection_text() -> (r: &'static str)
    ensures
        r@ == "path can't contain ../"@,
{
    "path can't contain ../"
}

/// The fixed body of a not-found response from the file streamer: served
/// whenever a file picked for streaming cannot be opened.
pub fn not_found_text() -> (r: &'static str)
    ensures
        r@ == "NOT FOUND"@,
{
    "NOT FOUND"
}

/// The fixed body of the not-found page served for unmatched routes.
pub fn page_not_found_text() -> (r: &'static str)
    ensures
        r@ == "404 - page not found"@,
{
    "404 - page not found"
}

} // verus!
