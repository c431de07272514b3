use email_extractor::error::ExtractionError;
use email_extractor::file::{
    extract, Extraction, FileType, PdfFile, ProcessFile, TextFile, TryIntoFileType, ZipFile,
};
use email_extractor::format::{unsupported, FormatTag};

const JPEG: [u8; 12] = [0xFF, 0xD8, 0xFF, 0xE0, 0x00, 0x10, 0x4A, 0x46, 0x49, 0x46, 0x00, 0x01];

fn jpeg_error() -> ExtractionError {
    ExtractionError::UnsupportedFormat("image/jpeg".to_string())
}

#[test]
fn unsupported_signature_is_rejected() {
    let buffer: &[u8] = &JPEG;
    assert_eq!(buffer.try_into_filetype().err(), Some(jpeg_error()));
    assert_eq!(FileType::try_from(buffer).err(), Some(jpeg_error()));
    assert_eq!(extract(FormatTag::Unsupported, buffer), Extraction::Finished(Err(jpeg_error())));
    let script: &[u8] = b"#!/bin/sh\n";
    assert_eq!(
        script.try_into_filetype().err(),
        Some(ExtractionError::UnsupportedFormat("text/x-shellscript".to_string()))
    );
}

#[test]
fn unsupported_error_names_what_was_detected() {
    assert_eq!(
        extract(FormatTag::Unsupported, b"plain text"),
        Extraction::Finished(Err(ExtractionError::UnsupportedFormat(String::new())))
    );
    assert_eq!(
        extract(FormatTag::Unsupported, b"%PDF-1.4"),
        Extraction::Finished(Err(ExtractionError::UnsupportedFormat("application/pdf".to_string())))
    );
    assert_eq!(unsupported(Some("image/png")), ExtractionError::UnsupportedFormat("image/png".to_string()));
    assert_eq!(unsupported(None), ExtractionError::UnsupportedFormat(String::new()));
}

#[test]
fn buffer_is_tied_to_its_format() {
    let text: &[u8] = b"some text";
    match text.try_into_filetype() {
        Ok(FileType::Text(TextFile(bytes))) => assert_eq!(bytes, text),
        _ => panic!("plain text expected"),
    }
    let pdf: &[u8] = b"%PDF-1.4\n";
    match pdf.try_into_filetype() {
        Ok(FileType::Pdf(PdfFile(bytes))) => assert_eq!(bytes, pdf),
        _ => panic!("pdf expected"),
    }
    let zip: &[u8] = b"PK\x03\x04rest";
    match FileType::try_from(zip) {
        Ok(FileType::Zip(ZipFile(bytes))) => assert_eq!(bytes, zip),
        _ => panic!("zip expected"),
    }
    let empty: &[u8] = b"";
    assert!(matches!(empty.try_into_filetype(), Ok(FileType::Text(_))));
}

#[test]
fn conversion_by_the_standard_traits() {
    let text: &[u8] = b"<html><body>x@y.org</body></html>";
    let file: Result<FileType, ExtractionError> = text.try_into();
    assert!(matches!(file, Ok(FileType::Text(_))));
    let image: &[u8] = &JPEG;
    let file: Result<FileType, ExtractionError> = image.try_into();
    assert_eq!(file.err(), Some(jpeg_error()));
}

#[test]
fn each_format_has_its_strategy() {
    let buffer: &[u8] = b"line one\nline two";
    assert_eq!(
        extract(FormatTag::PlainText, buffer),
        Extraction::Finished(Ok(vec!["line one".to_string(), "line two".to_string()]))
    );
    assert!(matches!(
        extract(FormatTag::ZipArchive, buffer),
        Extraction::Finished(Err(ExtractionError::ArchiveOpen(_)))
    ));
    assert_eq!(extract(FormatTag::Pdf, buffer), Extraction::AwaitsDecoder(buffer));
    assert!(matches!(
        extract(FormatTag::Unsupported, buffer),
        Extraction::Finished(Err(ExtractionError::UnsupportedFormat(_)))
    ));
    assert_eq!(FileType::Text(TextFile(buffer)).process(), extract(FormatTag::PlainText, buffer));
    assert_eq!(FileType::Zip(ZipFile(buffer)).process(), extract(FormatTag::ZipArchive, buffer));
    assert_eq!(FileType::Pdf(PdfFile(buffer)).process(), extract(FormatTag::Pdf, buffer));
    assert_eq!(TextFile(buffer).process(), FileType::Text(TextFile(buffer)).process());
    assert_eq!(ZipFile(buffer).process(), FileType::Zip(ZipFile(buffer)).process());
    assert_eq!(PdfFile(buffer).process(), FileType::Pdf(PdfFile(buffer)).process());
}

#[test]
fn errors_report_themselves() {
    assert_eq!(jpeg_error().message(), "Unsupported file type: image/jpeg");
    assert_eq!(ExtractionError::UnsupportedFormat(String::new()).message(), "Unsupported file type: ");
    assert_eq!(ExtractionError::ArchiveOpen("invalid Zip archive: x".to_string()).message(), "invalid Zip archive: x");
    assert_eq!(ExtractionError::MemberRead("Invalid checksum".to_string()).message(), "Invalid checksum");
    assert_eq!(ExtractionError::PdfDecode("Failed to extract PDF text. x.".to_string()).message(), "Failed to extract PDF text. x.");
}

#[test]
fn errors_can_be_copied() {
    let errors = [
        ExtractionError::UnsupportedFormat("image/gif".to_string()),
        ExtractionError::ArchiveOpen("open".to_string()),
        ExtractionError::MemberRead("read".to_string()),
        ExtractionError::PdfDecode("detail".to_string()),
    ];
    for error in &errors {
        assert_eq!(&error.clone(), error);
    }
    assert_ne!(ExtractionError::ArchiveOpen("x".to_string()), ExtractionError::MemberRead("x".to_string()));
    assert_ne!(ExtractionError::PdfDecode("a".to_string()), ExtractionError::PdfDecode("b".to_string()));
}
