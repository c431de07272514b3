//! Text extraction from files of unknown type.
//!
//! A buffer is classified by its binary signature, its text is extracted by
//! the strategy that belongs to the format, and the text is scanned for email
//! addresses.
pub mod archive;
pub mod emails;
pub mod encoding;
pub mod error;
pub mod file;
pub mod format;
pub mod pdf;
pub mod text;

pub use crate::emails::{extract_emails, format_records, harvest_decoded, harvest_emails};
pub use crate::error::ExtractionError;
pub use crate::file::{
    extract, Extraction, FileType, PdfFile, ProcessFile, TextFile, TryIntoFileType, ZipFile,
};
pub use crate::format::{classify, FormatTag};
pub use crate::pdf::pdf_result;
