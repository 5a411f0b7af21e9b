use fileserver::router::action_status;
use fileserver::router::not_found_text;
use fileserver::router::page_not_found_text;
use fileserver::router::rejection_text;
use fileserver::router::route;
use fileserver::router::route_request;
use fileserver::router::RouteAction;
use fileserver::sanitize::join_under_root;
use fileserver::sanitize::sanitize;

#[test]
fn root_route_matches() {
    let r = route("GET", "/", None, "./fs");
    assert!(matches!(r, RouteAction::Root));
    assert_eq!(action_status(&r, false), 200);
}

#[test]
fn unknown_route_is_not_found() {
    let r = route_request("GET", "/does-not-exist", None, "./fs");
    assert!(matches!(r, RouteAction::NotFound));
    assert_eq!(action_status(&r, true), 404);
}

#[test]
fn unknown_route_ignores_query() {
    let r = route_request("GET", "/does-not-exist", Some("anything=1"), "./fs");
    assert!(matches!(r, RouteAction::NotFound));
    let r = route_request("GET", "/does-not-exist", Some("other|query"), "./fs");
    assert!(matches!(r, RouteAction::NotFound));
    assert_eq!(page_not_found_text(), "404 - page not found");
}

#[test]
fn non_get_is_not_found() {
    let r = route("POST", "/", None, "./fs");
    assert!(matches!(r, RouteAction::NotFound));
    let r = route("PUT", "/file", Some(String::from("a.txt")), "./fs");
    assert!(matches!(r, RouteAction::NotFound));
}

#[test]
fn traversal_query_is_rejected_with_ok_status() {
    let r = route_request("GET", "/file", Some("../etc/passwd"), "./fs");
    assert!(matches!(r, RouteAction::TraversalRejected));
    assert_eq!(action_status(&r, false), 200);
    assert_eq!(rejection_text(), "path can't contain ../");
}

#[test]
fn percent_encoded_traversal_is_rejected() {
    // %2E%2E decodes to two dots; the check runs on the decoded form.
    let r = route_request("GET", "/file", Some("%2E%2E/x"), "./fs");
    assert!(matches!(r, RouteAction::TraversalRejected));
}

#[test]
fn percent_encoded_path_is_decoded() {
    let r = route_request("GET", "/file", Some("my%20file.txt"), "./fs");
    match r {
        RouteAction::ServeFile { path } => assert_eq!(path, "./fs/my file.txt"),
        _ => panic!("expected a file decision"),
    }
}

#[test]
fn missing_file_resolves_under_root_and_fails_with_404() {
    let r = route("GET", "/file", Some(String::from("missing.txt")), "./fs");
    match &r {
        RouteAction::ServeFile { path } => assert_eq!(path, "./fs/missing.txt"),
        _ => panic!("expected a file decision"),
    }
    // The file cannot be opened: the streamer answers 404 with the fixed body.
    assert_eq!(action_status(&r, false), 404);
    assert_eq!(not_found_text(), "NOT FOUND");
}

#[test]
fn file_route_without_query_is_not_found() {
    let r = route("GET", "/file", None, "./fs");
    assert!(matches!(r, RouteAction::NotFound));
}

#[test]
fn leading_separators_are_stripped() {
    let r = route("GET", "/file", Some(String::from("///etc/passwd")), "./fs");
    match r {
        RouteAction::ServeFile { path } => assert_eq!(path, "./fs/etc/passwd"),
        _ => panic!("expected a file decision"),
    }
}

#[test]
fn listing_page_route_requires_absent_query() {
    let r = route("GET", "/file-list.html", None, "./fs");
    assert!(matches!(r, RouteAction::ListingPage));
    let r = route("GET", "/file-list.html", Some(String::from("x")), "./fs");
    assert!(matches!(r, RouteAction::NotFound));
}

#[test]
fn listing_route_accepts_any_query() {
    let r = route("GET", "/file-list", None, "./fs");
    assert!(matches!(r, RouteAction::Listing { query: None }));
    let r = route("GET", "/file-list", Some(String::from("foo|bar")), "./fs");
    match r {
        RouteAction::Listing { query } => assert_eq!(query.as_deref(), Some("foo|bar")),
        _ => panic!("expected a listing decision"),
    }
}

#[test]
fn sanitize_rejects_traversal_anywhere() {
    assert!(sanitize("../etc").is_err());
    assert!(sanitize("a/../b").is_err());
    assert!(sanitize("x/y/../../../z").is_err());
}

#[test]
fn sanitize_keeps_the_weak_check_weak() {
    // Two dots not followed by a separator pass, exactly as the check is defined.
    assert_eq!(sanitize("..foo").unwrap(), "..foo");
    assert_eq!(sanitize("a..").unwrap(), "a..");
    assert_eq!(sanitize("..").unwrap(), "..");
}

#[test]
fn sanitize_strips_all_leading_separators() {
    assert_eq!(sanitize("/etc/passwd").unwrap(), "etc/passwd");
    assert_eq!(sanitize("////etc").unwrap(), "etc");
    assert_eq!(sanitize("plain.txt").unwrap(), "plain.txt");
    assert_eq!(sanitize("").unwrap(), "");
}

#[test]
fn join_inserts_separator_only_when_needed() {
    assert_eq!(join_under_root("./fs", "a.txt"), "./fs/a.txt");
    assert_eq!(join_under_root("./fs/", "a.txt"), "./fs/a.txt");
    assert_eq!(join_under_root("", "a.txt"), "/a.txt");
}
