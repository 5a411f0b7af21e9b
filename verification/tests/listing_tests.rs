use fileserver::listing::filter_files;
use fileserver::listing::join_lines;
use fileserver::listing::listing_body;
use fileserver::listing::split_patterns;
use fileserver::listing::sort_file_list;
use fileserver::order::count_char_occurrences;
use fileserver::order::entry_le_exec;

fn strings(items: &[&str]) -> Vec<String> {
    items.iter().map(|s| s.to_string()).collect()
}

#[test]
fn sort_puts_shallow_entries_first() {
    let files = strings(&["dir/sub/c.txt", "a.txt", "dir/b.txt"]);
    let sorted = sort_file_list(files);
    assert_eq!(sorted, strings(&["a.txt", "dir/b.txt", "dir/sub/c.txt"]));
}

#[test]
fn sort_breaks_depth_ties_lexicographically() {
    let files = strings(&["dir/b.txt", "dir/a.txt", "b.txt", "a.txt"]);
    let sorted = sort_file_list(files);
    assert_eq!(sorted, strings(&["a.txt", "b.txt", "dir/a.txt", "dir/b.txt"]));
}

#[test]
fn sort_is_deterministic_for_the_same_entries() {
    let once = sort_file_list(strings(&["x/y.txt", "a.txt", "m/n/o.txt", "b.txt"]));
    let again = sort_file_list(once.clone());
    assert_eq!(once, again);
    // A differently ordered walk of the same tree sorts to the same listing.
    let shuffled = sort_file_list(strings(&["b.txt", "m/n/o.txt", "x/y.txt", "a.txt"]));
    assert_eq!(once, shuffled);
}

#[test]
fn sort_keeps_duplicate_entries() {
    let sorted = sort_file_list(strings(&["b", "a", "b"]));
    assert_eq!(sorted, strings(&["a", "b", "b"]));
}

#[test]
fn separator_counting_is_exact() {
    assert_eq!(count_char_occurrences("dir/sub/c.txt", '/'), 2);
    assert_eq!(count_char_occurrences("a.txt", '/'), 0);
    assert_eq!(count_char_occurrences("", '/'), 0);
    assert_eq!(count_char_occurrences("///", '/'), 3);
}

#[test]
fn entry_order_prefers_fewer_separators() {
    assert!(entry_le_exec("zz.txt", "dir/a.txt"));
    assert!(!entry_le_exec("dir/a.txt", "zz.txt"));
    assert!(entry_le_exec("dir/a.txt", "dir/b.txt"));
    assert!(entry_le_exec("a.txt", "a.txt"));
}

#[test]
fn filter_keeps_entries_matching_every_pattern() {
    let files = strings(&["afoobar", "foo", "bar", "xfooybarz", "barfoo"]);
    let kept = filter_files(files, "foo|bar");
    assert_eq!(kept, strings(&["afoobar", "xfooybarz", "barfoo"]));
}

#[test]
fn filter_with_empty_query_keeps_everything() {
    let files = strings(&["a.txt", "b.txt"]);
    let kept = filter_files(files.clone(), "");
    assert_eq!(kept, files);
}

#[test]
fn filter_can_reject_everything() {
    let kept = filter_files(strings(&["a.txt", "b.txt"]), "zzz");
    assert_eq!(kept, Vec::<String>::new());
}

#[test]
fn split_keeps_empty_tokens() {
    assert_eq!(split_patterns("a|b|"), strings(&["a", "b", ""]));
    assert_eq!(split_patterns(""), strings(&[""]));
    assert_eq!(split_patterns("abc"), strings(&["abc"]));
    assert_eq!(split_patterns("|"), strings(&["", ""]));
}

#[test]
fn joined_listing_ends_every_entry_with_a_line_break() {
    assert_eq!(join_lines(&strings(&["a.txt", "dir/b.txt"])), "a.txt\ndir/b.txt\n");
    assert_eq!(join_lines(&strings(&[])), "");
}

#[test]
fn listing_body_filters_when_a_query_is_given() {
    let files = strings(&["afoobar", "foo", "xfooybarz"]);
    assert_eq!(listing_body(files.clone(), Some("foo|bar")), "afoobar\nxfooybarz\n");
    assert_eq!(listing_body(files, None), "afoobar\nfoo\nxfooybarz\n");
}
