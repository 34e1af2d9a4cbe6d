//! Reading the title of a page: the scan, the entities, the whitespace, and what is worth reading.

use marks_client::title::{decode_entities, decode_html, extract_title, read_enough, readable_response};

/// A page with a title, in the shape a real one arrives in: a doctype, a head, and the title
/// indented over its own lines.
const PAGE: &str = "\
<!DOCTYPE html>
<html lang=\"en\">
  <head>
    <meta charset=\"utf-8\">
    <title>
      Example Domain
    </title>
  </head>
</html>";

fn title_of(document: &str) -> Option<String> {
    extract_title(document)
}

fn check_layout_whitespace() {
    assert_eq!(title_of(PAGE).as_deref(), Some("Example Domain"));
}

fn check_case_and_attributes() {
    assert_eq!(title_of("<TITLE>Shouty</TITLE>").as_deref(), Some("Shouty"));
    assert_eq!(
        title_of(r#"<title lang="en" data-note="a > b">Attributed</title>"#).as_deref(),
        Some("Attributed")
    );
    assert_eq!(title_of("<titlex>No</titlex>"), None);
}

fn check_comment_and_script() {
    assert_eq!(
        title_of("<!-- <title>Old name</title> --><title>Real</title>").as_deref(),
        Some("Real")
    );
    assert_eq!(
        title_of(r#"<script>var t = "<title>Not this</title>";</script><title>Real</title>"#)
            .as_deref(),
        Some("Real")
    );
    assert_eq!(
        title_of("<style>/* <title>Not this</title> */</style><title>Real</title>").as_deref(),
        Some("Real")
    );
}

fn check_no_usable_title() {
    assert_eq!(title_of("<html><body>No head here</body></html>"), None);
    assert_eq!(title_of("<title></title>"), None);
    assert_eq!(title_of("<title>   \n  </title>"), None);
    assert_eq!(title_of("<title>Cut off before the end"), None);
    assert_eq!(title_of(""), None);
}

fn check_entities() {
    assert_eq!(
        title_of("<title>Tom &amp; Jerry</title>").as_deref(),
        Some("Tom & Jerry")
    );
    assert_eq!(
        title_of("<title>&ldquo;Quoted&rdquo;</title>").as_deref(),
        Some("\u{201c}Quoted\u{201d}")
    );
    assert_eq!(
        title_of("<title>It&#39;s here&#x2014;now</title>").as_deref(),
        Some("It's here\u{2014}now")
    );
    assert_eq!(
        title_of("<title>Marks&nbsp;&ndash; a launcher</title>").as_deref(),
        Some("Marks – a launcher")
    );
}

fn check_lone_ampersand() {
    assert_eq!(
        title_of("<title>Marks & Marks</title>").as_deref(),
        Some("Marks & Marks")
    );
    assert_eq!(
        title_of("<title>&notanentity; &amp &&#; &#xzz;</title>").as_deref(),
        Some("&notanentity; &amp &&#; &#xzz;")
    );
}

fn check_not_utf8() {
    let page = b"<head><title>Caf\xe9</title></head>";

    assert!(decode_html(page).contains("Caf\u{e9}"));
}

#[test]
fn title_a_title_is_read_and_its_layout_whitespace_collapsed() {
    check_layout_whitespace();
}

#[test]
fn tests_a_title_is_read_and_its_layout_whitespace_collapsed() {
    check_layout_whitespace();
}

#[test]
fn title_a_title_is_matched_whatever_its_case_or_attributes() {
    check_case_and_attributes();
}

#[test]
fn tests_a_title_is_matched_whatever_its_case_or_attributes() {
    check_case_and_attributes();
}

#[test]
fn title_a_title_named_in_a_comment_or_a_script_is_not_the_page_title() {
    check_comment_and_script();
}

#[test]
fn tests_a_title_named_in_a_comment_or_a_script_is_not_the_page_title() {
    check_comment_and_script();
}

#[test]
fn title_a_document_without_a_usable_title_answers_nothing() {
    check_no_usable_title();
}

#[test]
fn tests_a_document_without_a_usable_title_answers_nothing() {
    check_no_usable_title();
}

#[test]
fn title_entity_references_are_resolved() {
    check_entities();
}

#[test]
fn tests_entity_references_are_resolved() {
    check_entities();
}

#[test]
fn title_an_ampersand_that_is_not_a_reference_is_left_alone() {
    check_lone_ampersand();
}

#[test]
fn tests_an_ampersand_that_is_not_a_reference_is_left_alone() {
    check_lone_ampersand();
}

#[test]
fn title_a_title_that_is_not_utf8_is_still_read() {
    check_not_utf8();
}

#[test]
fn tests_a_title_that_is_not_utf8_is_still_read() {
    check_not_utf8();
}

#[test]
fn a_title_is_laid_out_as_one_line() {
    let title = title_of("<title>\n\t A \u{a0}\r\n title\u{2003}over   lines \n</title>").unwrap();

    assert_eq!(title, "A title over lines");
    assert!(!title.contains("  "));
    assert!(title.chars().all(|c| c == ' ' || !c.is_whitespace()));
}

#[test]
fn text_without_an_ampersand_reads_as_it_is() {
    let text: Vec<char> = "plain < text > with \"quotes\"".chars().collect();

    assert_eq!(decode_entities(&text), text);
}

#[test]
fn a_utf8_page_is_read_as_utf8() {
    assert_eq!(decode_html("Café".as_bytes()), "Café");
    assert_eq!(decode_html(b""), "");
}

#[test]
fn reading_stops_once_the_title_is_closed() {
    assert!(!read_enough(b"<html><head><title>Not yet"));
    assert!(read_enough(b"<html><head><title>Done</title>"));
    assert!(read_enough(b"<TITLE>Done</TITLE"));
    assert!(!read_enough(b""));
}

#[test]
fn only_a_successful_html_answer_is_read_for_a_title() {
    assert!(readable_response(200, Some("text/html; charset=utf-8")));
    assert!(readable_response(200, Some("application/XHTML+xml")));
    assert!(readable_response(204, None));
    assert!(!readable_response(200, Some("application/pdf")));
    assert!(!readable_response(404, Some("text/html")));
    assert!(!readable_response(302, None));
    assert!(!readable_response(199, None));
    assert!(!readable_response(300, Some("text/html")));
}
