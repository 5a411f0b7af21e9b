use fileserver::render::build_href_lines;
use fileserver::render::href_line;
use fileserver::render::placeholder_token;
use fileserver::render::render_file_list_html;
use fileserver::render::replace_all;

fn strings(items: &[&str]) -> Vec<String> {
    items.iter().map(|s| s.to_string()).collect()
}

#[test]
fn anchor_line_uses_the_entry_verbatim() {
    assert_eq!(href_line("a.txt"), "<a href=\"/file?a.txt\">a.txt</a>");
    assert_eq!(href_line("dir/b.txt"), "<a href=\"/file?dir/b.txt\">dir/b.txt</a>");
    // No escaping is performed, by design.
    assert_eq!(href_line("a<b>.txt"), "<a href=\"/file?a<b>.txt\">a<b>.txt</a>");
}

#[test]
fn anchor_lines_are_separated_by_break_tags() {
    let lines = build_href_lines(&strings(&["a.txt", "b.txt"]));
    assert_eq!(
        lines,
        "<a href=\"/file?a.txt\">a.txt</a><br><a href=\"/file?b.txt\">b.txt</a><br>"
    );
}

#[test]
fn empty_file_set_renders_the_bare_template() {
    let template = "<html><body><!--HREF-LINES--></body></html>";
    let page = render_file_list_html(template, &strings(&[]));
    assert_eq!(page, "<html><body></body></html>");
}

#[test]
fn rendering_substitutes_the_placeholder() {
    let template = "<ul><!--HREF-LINES--></ul>";
    let page = render_file_list_html(template, &strings(&["a.txt"]));
    assert_eq!(page, "<ul><a href=\"/file?a.txt\">a.txt</a><br></ul>");
}

#[test]
fn template_without_placeholder_is_unchanged() {
    let template = "<html>nothing here</html>";
    let page = render_file_list_html(template, &strings(&["a.txt"]));
    assert_eq!(page, template);
}

#[test]
fn replacement_handles_every_occurrence() {
    assert_eq!(replace_all("xAyAz", "A", "BB"), "xBByBBz");
    assert_eq!(replace_all("AAA", "AA", "B"), "BA");
    assert_eq!(replace_all("abc", "", "B"), "abc");
    assert_eq!(replace_all("", "A", "B"), "");
}

#[test]
fn placeholder_token_is_the_template_comment() {
    assert_eq!(placeholder_token(), "<!--HREF-LINES-->");
}
