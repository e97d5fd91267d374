use termail::mailbody::{extract_part_text, extract_text, split_clean_lines, MailPart};

fn leaf(mimetype: &str, body: &str) -> MailPart {
    MailPart { mimetype: mimetype.to_string(), body: body.to_string(), parts: vec![] }
}

fn multi(parts: Vec<MailPart>) -> MailPart {
    MailPart { mimetype: "multipart/alternative".to_string(), body: String::new(), parts }
}

#[test]
fn split_clean_lines_trims_and_drops_empties() {
    let lines = split_clean_lines("  first line \n\n   \n\tsecond\tline\t\nthird");
    assert_eq!(lines, vec!["first line", "second\tline", "third"]);
}

#[test]
fn split_clean_lines_of_blank_text_is_empty() {
    assert!(split_clean_lines("").is_empty());
    assert!(split_clean_lines(" \n \n ").is_empty());
}

#[test]
fn split_clean_lines_trims_unicode_whitespace() {
    let lines = split_clean_lines("\u{a0}padded\u{3000}\n\u{2028}\u{2029}");
    assert_eq!(lines, vec!["padded"]);
}

#[test]
fn markup_entities_are_decoded() {
    let p = leaf("text/html", "<p>a&amp;b</p>");
    assert_eq!(extract_part_text(&p), "a&b");
}

#[test]
fn plain_leaf_yields_its_body() {
    let p = leaf("text/plain; charset=utf-8", "hello there");
    assert_eq!(extract_part_text(&p), "hello there");
}

#[test]
fn markup_leaf_yields_its_text_nodes() {
    let p = leaf("text/html", "<p>hello <b>markup</b></p>");
    assert_eq!(extract_part_text(&p), "hello markup");
}

#[test]
fn other_leaf_yields_nothing() {
    let p = leaf("application/octet-stream", "binary junk");
    assert_eq!(extract_part_text(&p), "");
}

#[test]
fn plain_alternative_wins_over_markup_sibling() {
    let p = multi(vec![leaf("text/plain", "plain wins"), leaf("text/html", "<p>markup loses</p>")]);
    assert_eq!(extract_part_text(&p), "plain wins");
}

#[test]
fn markup_alone_is_used() {
    let p = multi(vec![leaf("text/html", "<p>only markup</p>")]);
    assert_eq!(extract_part_text(&p), "only markup");
}

#[test]
fn nested_parts_concatenate_in_order() {
    let p = multi(vec![
        multi(vec![leaf("text/plain", "one\n")]),
        leaf("text/plain", "two\n"),
    ]);
    assert_eq!(extract_part_text(&p), "one\ntwo\n");
}

#[test]
fn extract_text_single_part_plain_message() {
    let raw = b"Subject: test\nContent-Type: text/plain\n\n  first \n\n second line \n";
    let lines = extract_text(raw).expect("message parses");
    assert_eq!(lines, vec!["first", "second line"]);
}

#[test]
fn extract_text_multipart_prefers_plain() {
    let raw = "Subject: alt\nMIME-Version: 1.0\nContent-Type: multipart/alternative; boundary=\"sep\"\n\n--sep\nContent-Type: text/plain\n\nfrom the plain part\n--sep\nContent-Type: text/html\n\n<p>from the <i>markup</i> part</p>\n--sep--\n"
        .as_bytes();
    let lines = extract_text(raw).expect("message parses");
    assert_eq!(lines, vec!["from the plain part"]);
    assert!(!lines.is_empty());
}

#[test]
fn extract_text_markup_message_is_stripped() {
    let raw = b"Subject: m\nContent-Type: text/html\n\n<div>line <b>one</b></div>";
    let lines = extract_text(raw).expect("message parses");
    assert_eq!(lines, vec!["line one"]);
}

#[test]
fn extract_text_unparseable_message_is_nothing() {
    // A header block whose first line starts with a space cannot be
    // parsed at all.
    let raw = b" overhanging continuation line\nSubject: x\n\nbody";
    assert!(extract_text(raw).is_none());
}

#[test]
fn extract_text_non_text_message_is_empty() {
    let raw = b"Subject: b\nContent-Type: application/octet-stream\n\npayload";
    let lines = extract_text(raw).expect("message parses");
    assert!(lines.is_empty());
}
