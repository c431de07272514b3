use std::collections::HashSet;

use email_extractor::emails::{
    dedup, extract_emails, format_records, harvest_emails, has_at_sign, scan, EMAIL_PATTERN,
};
use email_extractor::error::ExtractionError;
use email_extractor::file::Extraction;

fn strings(items: &[&str]) -> Vec<String> {
    items.iter().map(|item| item.to_string()).collect()
}

fn set_of(items: &[String]) -> HashSet<String> {
    items.iter().cloned().collect()
}

#[test]
fn addresses_are_found_once() {
    let blocks = strings(&["contact: a@b.com, again a@b.com, plus c@d.org"]);
    let emails = extract_emails(&blocks);
    assert_eq!(set_of(&emails), set_of(&strings(&["a@b.com", "c@d.org"])));
    assert_eq!(emails.len(), 2);
    assert_eq!(emails, vec!["a@b.com", "c@d.org"]);
}

#[test]
fn addresses_are_found_across_blocks() {
    let blocks = strings(&["first z@y.io", "", "then a@b.com and z@y.io", "a@b.com"]);
    assert_eq!(extract_emails(&blocks), vec!["z@y.io", "a@b.com"]);
}

#[test]
fn order_of_blocks_does_not_change_the_set() {
    let blocks = strings(&["one a@b.com", "two c@d.org a@b.com", "none", "three e@f.net", "two c@d.org a@b.com"]);
    let forward = extract_emails(&blocks);
    let mut turned = blocks.clone();
    turned.reverse();
    let backward = extract_emails(&turned);
    let mut rotated = blocks.clone();
    rotated.rotate_left(2);
    let around = extract_emails(&rotated);
    assert_eq!(forward, vec!["a@b.com", "c@d.org", "e@f.net"]);
    assert_eq!(backward, vec!["c@d.org", "a@b.com", "e@f.net"]);
    assert_eq!(set_of(&forward), set_of(&backward));
    assert_eq!(set_of(&forward), set_of(&around));
    assert_eq!(forward.len(), backward.len());
    assert_eq!(forward.len(), around.len());
}

#[test]
fn no_address_is_no_error() {
    assert_eq!(extract_emails(&Vec::new()), Vec::<String>::new());
    assert_eq!(extract_emails(&strings(&["nothing here", "a@b", "@b.com", "a@b.c", "@", "@@@"])), Vec::<String>::new());
}

#[test]
fn blocks_are_scanned_one_by_one() {
    assert_eq!(extract_emails(&strings(&["mail x@y.co", "m"])), vec!["x@y.co"]);
    assert_eq!(extract_emails(&strings(&["ann", "@example.com"])), Vec::<String>::new());
    assert_eq!(extract_emails(&strings(&["ann@example", ".com"])), Vec::<String>::new());
    assert_eq!(extract_emails(&strings(&["two lines\nin a@b.com\none block c@d.org"])), vec!["a@b.com", "c@d.org"]);
}

#[test]
fn pattern_follows_the_lexical_rule() {
    let blocks = strings(&["<First.Last+tag%x_1-2@Sub-Domain.Example.CO.uk>; x@y.z1 bob@host.toolongtld!"]);
    assert_eq!(extract_emails(&blocks), vec!["First.Last+tag%x_1-2@Sub-Domain.Example.CO.uk", "bob@host.toolongtld"]);
    assert!(regex::Regex::new(EMAIL_PATTERN).is_ok());
}

#[test]
fn scan_result_differs_from_its_input() {
    assert_eq!(extract_emails(&strings(&["a@b.com"])), vec!["a@b.com"]);
    assert_ne!(extract_emails(&strings(&["see a@b.com now"])), vec!["see a@b.com now"]);
}

#[test]
fn at_sign_is_found_where_it_is() {
    assert!(has_at_sign("@"));
    assert!(has_at_sign("a@b"));
    assert!(has_at_sign("gr\u{fc}n@\u{65e5}"));
    assert!(!has_at_sign(""));
    assert!(!has_at_sign("no address"));
    assert!(!has_at_sign("\u{ff20} \u{fe6b} \u{40d}"));
}

#[test]
fn first_occurrence_stays() {
    assert_eq!(dedup(strings(&["x", "y", "x", "z", "y", "x"])), vec!["x", "y", "z"]);
    assert_eq!(dedup(strings(&["b", "a"])), vec!["b", "a"]);
    assert_eq!(dedup(strings(&["same", "same", "same"])), vec!["same"]);
    assert_eq!(dedup(Vec::new()), Vec::<String>::new());
    assert_eq!(dedup(strings(&["A", "a", ""])), vec!["A", "a", ""]);
}

#[test]
fn records_end_in_line_feeds() {
    assert_eq!(format_records(&strings(&["a@b.com", "c@d.org"])), "a@b.com\nc@d.org\n");
    assert_eq!(format_records(&strings(&["one"])), "one\n");
    assert_eq!(format_records(&strings(&["", ""])), "\n\n");
    assert_eq!(format_records(&Vec::new()), "");
}

#[test]
fn extraction_is_scanned_or_its_failure_kept() {
    assert_eq!(scan(Ok(strings(&["a@b.com x", "a@b.com"]))), Ok(strings(&["a@b.com"])));
    assert_eq!(scan(Ok(vec![])), Ok(vec![]));
    assert_eq!(
        scan(Err(ExtractionError::MemberRead("a@b.com".to_string()))),
        Err(ExtractionError::MemberRead("a@b.com".to_string()))
    );
}

#[test]
fn addresses_of_a_text_buffer() {
    let buffer = b"to: ann@example.com\r\ncc: bob@example.org, ann@example.com\r\n";
    assert_eq!(
        harvest_emails(buffer),
        Extraction::Finished(Ok(strings(&["ann@example.com", "bob@example.org"])))
    );
    assert_eq!(harvest_emails(b""), Extraction::Finished(Ok(vec![])));
}

#[test]
fn addresses_of_an_unsupported_buffer() {
    assert_eq!(
        harvest_emails(&[0xFF, 0xD8, 0xFF, 0xE0, b'a', b'@', b'b', b'.', b'c', b'o']),
        Extraction::Finished(Err(ExtractionError::UnsupportedFormat("image/jpeg".to_string())))
    );
}

#[test]
fn addresses_of_a_broken_archive() {
    assert!(matches!(
        harvest_emails(b"PK\x03\x04 ann@example.com"),
        Extraction::Finished(Err(ExtractionError::ArchiveOpen(_)))
    ));
}

#[test]
fn addresses_of_a_document_await_the_decoder() {
    let buffer = b"%PDF-1.4 ann@example.com";
    assert_eq!(harvest_emails(buffer), Extraction::AwaitsDecoder(buffer));
}
