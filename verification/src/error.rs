//! The ways in which extraction fails.
use vstd::prelude::*;
use vstd::string::StringExecFns;
use crate::encoding::texts;

verus! {

/// Why no text came out of a buffer.
#[derive(Debug, PartialEq, Eq)]
pub enum ExtractionError {
    /// The buffer carries the signature of a format that holds no text to
    /// extract; the MIME type of that format is enclosed.
    UnsupportedFormat(String),
    /// The buffer was taken for a zip container, but its structure could not
    /// be read; the archive reader's account is enclosed.
    ArchiveOpen(String),
    /// A member of the archive could not be read, or does not hold UTF-8
    /// text; the account of the reader is enclosed.
    MemberRead(String),
    /// The PDF decoder gave up; the report with its account is enclosed.
    PdfDecode(String),
}

/// An extraction error as a plain value.
pub enum Failure {
    UnsupportedFormat(Seq<char>),
    ArchiveOpen(Seq<char>),
    MemberRead(Seq<char>),
    PdfDecode(Seq<char>),
}

impl View for ExtractionError {
    type V = Failure;

    open spec fn view(&self) -> Failure {
        match self {
            ExtractionError::UnsupportedFormat(mime) => Failure::UnsupportedFormat(mime@),
            ExtractionError::ArchiveOpen(account) => Failure::ArchiveOpen(account@),
            ExtractionError::MemberRead(account) => Failure::MemberRead(account@),
            ExtractionError::PdfDecode(report) => Failure::PdfDecode(report@),
        }
    }
}

impl Clone for ExtractionError {
    fn clone(&self) -> (copy: Self)
        ensures
            copy@ == self@,
    {
        match self {
            ExtractionError::UnsupportedFormat(mime) => ExtractionError::UnsupportedFormat(
                mime.clone(),
            ),
            ExtractionError::ArchiveOpen(account) => ExtractionError::ArchiveOpen(account.clone()),
            ExtractionError::MemberRead(account) => ExtractionError::MemberRead(account.clone()),
            ExtractionError::PdfDecode(report) => ExtractionError::PdfDecode(report.clone()),
        }
    }
}

/// What an extraction gave, as plain values: the text blocks, or the failure.
pub open spec fn outcome(result: Result<Vec<String>, ExtractionError>) -> Result<
    Seq<Seq<char>>,
    Failure,
> {
    match result {
        Ok(blocks) => Ok(texts(blocks@)),
        Err(error) => Err(error@),
    }
}

impl Failure {
    /// The sentence that reports the failure: for an unsupported format it
    /// names the MIME type, otherwise it is the enclosed account.
    pub open spec fn message(self) -> Seq<char> {
        match self {
            Failure::UnsupportedFormat(mime) => "Unsupported file type: "@ + mime,
            Failure::ArchiveOpen(account) => account,
            Failure::MemberRead(account) => account,
            Failure::PdfDecode(report) => report,
        }
    }
}

impl ExtractionError {
    /// The sentence that reports the error.
    pub fn message(&self) -> (text: String)
        ensures
            text@ == self@.message(),
    {
        match self {
            ExtractionError::UnsupportedFormat(mime) => {
                let mut text = String::from_str("Unsupported file type: ");
                text.append(mime.as_str());
                text
            },
            ExtractionError::ArchiveOpen(account) => account.clone(),
            ExtractionError::MemberRead(account) => account.clone(),
            ExtractionError::PdfDecode(report) => report.clone(),
        }
    }
}

} // verus!
