use std::io::{Cursor, Write};

use email_extractor::encoding::{same_bytes, same_text};
use email_extractor::format::{
    classify, tag_for_mime, FormatTag, MIME_DOCX, MIME_ODP, MIME_ODS, MIME_ODT, MIME_PDF,
    MIME_PPTX, MIME_XLSX, MIME_ZIP,
};
use zip::write::FileOptions;
use zip::{CompressionMethod, ZipWriter};

fn archive_with_first_member(name: &str, contents: &[u8]) -> Vec<u8> {
    let mut writer = ZipWriter::new(Cursor::new(Vec::new()));
    let stored = FileOptions::default().compression_method(CompressionMethod::Stored);
    writer.start_file(name, stored).unwrap();
    writer.write_all(contents).unwrap();
    writer.start_file("content.xml", stored).unwrap();
    writer.write_all(b"<doc/>").unwrap();
    writer.finish().unwrap().into_inner()
}

#[test]
fn empty_buffer_is_plain_text() {
    assert_eq!(classify(&[]), FormatTag::PlainText);
}

#[test]
fn buffer_without_signature_is_plain_text() {
    assert_eq!(classify(b"name,email\nann,ann@example.com\n"), FormatTag::PlainText);
    assert_eq!(classify(b"{\"key\": 1}"), FormatTag::PlainText);
    assert_eq!(classify(&[0x00]), FormatTag::PlainText);
}

#[test]
fn truncated_signatures_are_plain_text() {
    assert_eq!(classify(b"PK"), FormatTag::PlainText);
    assert_eq!(classify(b"%PD"), FormatTag::PlainText);
    assert_eq!(classify(&[0xFF]), FormatTag::PlainText);
}

#[test]
fn markup_is_plain_text() {
    assert_eq!(classify(b"<html><body>hi</body></html>"), FormatTag::PlainText);
    assert_eq!(classify(b"<?xml version=\"1.0\"?><a/>"), FormatTag::PlainText);
    assert_eq!(infer::get(b"<html><body>hi</body></html>").unwrap().mime_type(), "text/html");
    assert_eq!(infer::get(b"<?xml version=\"1.0\"?><a/>").unwrap().mime_type(), "text/xml");
}

#[test]
fn pdf_signature_is_pdf() {
    assert_eq!(classify(b"%PDF-1.7\n%\xE2\xE3\xCF\xD3\n"), FormatTag::Pdf);
}

#[test]
fn zip_signature_is_archive() {
    assert_eq!(classify(b"PK\x03\x04\x14\x00\x00\x00"), FormatTag::ZipArchive);
    assert_eq!(classify(b"PK\x05\x06"), FormatTag::ZipArchive);
    let plain = archive_with_first_member("notes.txt", b"hello");
    assert_eq!(infer::get(&plain).unwrap().mime_type(), MIME_ZIP);
    assert_eq!(classify(&plain), FormatTag::ZipArchive);
}

#[test]
fn office_documents_are_archives() {
    let docx = archive_with_first_member("word/document.xml", b"<w/>");
    assert_eq!(infer::get(&docx).unwrap().mime_type(), MIME_DOCX);
    assert_eq!(classify(&docx), FormatTag::ZipArchive);
    let xlsx = archive_with_first_member("xl/workbook.xml", b"<x/>");
    assert_eq!(infer::get(&xlsx).unwrap().mime_type(), MIME_XLSX);
    assert_eq!(classify(&xlsx), FormatTag::ZipArchive);
    let pptx = archive_with_first_member("ppt/presentation.xml", b"<p/>");
    assert_eq!(infer::get(&pptx).unwrap().mime_type(), MIME_PPTX);
    assert_eq!(classify(&pptx), FormatTag::ZipArchive);
}

#[test]
fn open_documents_are_archives() {
    let odt = archive_with_first_member("mimetype", b"application/vnd.oasis.opendocument.text");
    assert_eq!(infer::get(&odt).unwrap().mime_type(), MIME_ODT);
    assert_eq!(classify(&odt), FormatTag::ZipArchive);
    let ods =
        archive_with_first_member("mimetype", b"application/vnd.oasis.opendocument.spreadsheet");
    assert_eq!(infer::get(&ods).unwrap().mime_type(), MIME_ODS);
    assert_eq!(classify(&ods), FormatTag::ZipArchive);
    let odp =
        archive_with_first_member("mimetype", b"application/vnd.oasis.opendocument.presentation");
    assert_eq!(infer::get(&odp).unwrap().mime_type(), MIME_ODP);
    assert_eq!(classify(&odp), FormatTag::ZipArchive);
}

#[test]
fn other_signatures_are_unsupported() {
    assert_eq!(classify(&[0xFF, 0xD8, 0xFF, 0xE0, 0x00, 0x10]), FormatTag::Unsupported);
    assert_eq!(classify(b"\x89PNG\r\n\x1a\n\x00\x00\x00\rIHDR"), FormatTag::Unsupported);
    assert_eq!(classify(b"GIF89a\x01\x00\x01\x00"), FormatTag::Unsupported);
    assert_eq!(classify(b"#!/bin/sh\necho hi\n"), FormatTag::Unsupported);
}

#[test]
fn classification_is_repeatable() {
    let buffers: Vec<Vec<u8>> = vec![
        vec![],
        b"plain".to_vec(),
        vec![0xFF, 0xD8, 0xFF, 0xE0],
        b"%PDF-1.4".to_vec(),
        b"PK\x03\x04".to_vec(),
    ];
    for buffer in &buffers {
        let first = classify(buffer);
        let second = classify(buffer);
        assert_eq!(first, second);
        assert_eq!(classify(&buffer.clone()), first);
    }
}

#[test]
fn every_mime_type_has_its_tag() {
    assert_eq!(tag_for_mime(None), FormatTag::PlainText);
    for mime in [MIME_DOCX, MIME_PPTX, MIME_XLSX, MIME_ODT, MIME_ODS, MIME_ODP, MIME_ZIP] {
        assert_eq!(tag_for_mime(Some(mime)), FormatTag::ZipArchive);
    }
    assert_eq!(tag_for_mime(Some(MIME_PDF)), FormatTag::Pdf);
    assert_eq!(tag_for_mime(Some("application/pdf")), FormatTag::Pdf);
    assert_eq!(tag_for_mime(Some("text/html")), FormatTag::PlainText);
    assert_eq!(tag_for_mime(Some("text/xml")), FormatTag::PlainText);
    assert_eq!(tag_for_mime(Some("image/jpeg")), FormatTag::Unsupported);
    assert_eq!(tag_for_mime(Some("application/msword")), FormatTag::Unsupported);
    assert_eq!(tag_for_mime(Some("application/epub+zip")), FormatTag::Unsupported);
    assert_eq!(tag_for_mime(Some("text/plain")), FormatTag::Unsupported);
    assert_eq!(tag_for_mime(Some("")), FormatTag::Unsupported);
    assert_eq!(tag_for_mime(Some("application/zi")), FormatTag::Unsupported);
    assert_eq!(tag_for_mime(Some("application/zipp")), FormatTag::Unsupported);
    assert_eq!(tag_for_mime(Some("Application/zip")), FormatTag::Unsupported);
}

#[test]
fn byte_and_text_comparison() {
    assert!(same_bytes(b"", b""));
    assert!(same_bytes(b"abc", b"abc"));
    assert!(!same_bytes(b"abc", b"abd"));
    assert!(!same_bytes(b"abc", b"ab"));
    assert!(!same_bytes(b"", b"a"));
    assert!(same_text("", ""));
    assert!(same_text("text/xml", "text/xml"));
    assert!(!same_text("text/xml", "text/xm"));
    assert!(!same_text("text/xml", "text/xmL"));
    assert!(same_text("gr\u{fc}n", "gr\u{fc}n"));
    assert!(!same_text("gr\u{fc}n", "grun"));
}
