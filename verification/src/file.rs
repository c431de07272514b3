//! Files by format: a buffer is tied to the strategy that extracts its text.
use vstd::prelude::*;
use vstd::std_specs::convert::TryFromSpecImpl;
use vstd::utf8::valid_utf8;
use crate::archive::{archive_blocks, zip_directory, zip_text};
use crate::encoding::texts;
use crate::error::{outcome, ExtractionError, Failure};
use crate::format::{
    detected_mime, mime_text, sniff_mime, tag_for_mime, tag_of_buffer, unsupported, FormatTag,
};
use crate::text::{byte_lines, plain_text, plain_text_blocks};

verus! {

/// A buffer taken for a zip container.
pub struct ZipFile<'a>(pub &'a [u8]);

/// A buffer taken for plain text.
pub struct TextFile<'a>(pub &'a [u8]);

/// A buffer taken for a PDF document.
pub struct PdfFile<'a>(pub &'a [u8]);

/// A buffer together with the format it was taken for.
pub enum FileType<'a> {
    Zip(ZipFile<'a>),
    Text(TextFile<'a>),
    Pdf(PdfFile<'a>),
}

/// How far the extraction from a buffer has come.
#[derive(Debug, PartialEq, Eq)]
pub enum Extraction<'a> {
    /// It is over: the text blocks, or why there are none.
    Finished(Result<Vec<String>, ExtractionError>),
    /// The buffer is a PDF document and awaits the decoder: what the decoder
    /// makes of these bytes goes to `pdf_result`, which finishes the
    /// extraction.
    AwaitsDecoder(&'a [u8]),
}

/// The state of an extraction as a plain value.
pub enum Progress {
    Finished(Result<Seq<Seq<char>>, Failure>),
    AwaitsDecoder(Seq<u8>),
}

impl<'a> View for Extraction<'a> {
    type V = Progress;

    open spec fn view(&self) -> Progress {
        match self {
            Extraction::Finished(result) => Progress::Finished(outcome(*result)),
            Extraction::AwaitsDecoder(bytes) => Progress::AwaitsDecoder(bytes@),
        }
    }
}

/// What the extraction from `buffer`, taken for the format `tag`, comes to:
/// the lines of plain text, the XML parts of an archive, the whole buffer
/// handed to the decoder for a PDF document, and for an unsupported format
/// the failure that names the MIME type that was detected.
pub open spec fn extraction_of(tag: FormatTag, buffer: Seq<u8>) -> Progress {
    match tag {
        FormatTag::PlainText => Progress::Finished(Ok(plain_text(buffer))),
        FormatTag::ZipArchive => Progress::Finished(zip_text(buffer)),
        FormatTag::Pdf => Progress::AwaitsDecoder(buffer),
        FormatTag::Unsupported => Progress::Finished(
            Err(Failure::UnsupportedFormat(mime_text(detected_mime(buffer)))),
        ),
    }
}

/// Every line of the buffer that is not well-formed UTF-8 has a replacement
/// character in its block.
pub open spec fn repairs_are_marked(buffer: Seq<u8>) -> bool {
    forall|i: int|
        0 <= i < byte_lines(buffer).len() && !valid_utf8(#[trigger] byte_lines(buffer)[i])
            ==> plain_text(buffer)[i].contains('\u{FFFD}')
}

/// Whether `progress` is what the extraction from `buffer`, taken for the
/// format `tag`, gives: exactly `extraction_of`, and for plain text the
/// replacement characters are where they belong.
pub open spec fn admits(tag: FormatTag, buffer: Seq<u8>, progress: Progress) -> bool {
    &&& progress == extraction_of(tag, buffer)
    &&& tag == FormatTag::PlainText ==> repairs_are_marked(buffer)
}

/// Plain text is always extracted: whatever the bytes are, the result is one
/// block for each line of the buffer, never a failure, and a line that is not
/// well-formed UTF-8 has a replacement character in its block.
pub proof fn lemma_plain_text_never_fails(buffer: Seq<u8>, progress: Progress)
    requires
        admits(FormatTag::PlainText, buffer, progress),
    ensures
        progress matches Progress::Finished(Ok(blocks)) && blocks.len() == byte_lines(
            buffer,
        ).len() && forall|i: int|
            0 <= i < blocks.len() && !valid_utf8(#[trigger] byte_lines(buffer)[i])
                ==> blocks[i].contains('\u{FFFD}'),
{
}

/// A buffer with the signature of an unsupported format is rejected: its
/// extraction fails with `UnsupportedFormat` and gives no block.
pub proof fn lemma_unsupported_is_rejected(buffer: Seq<u8>, progress: Progress)
    requires
        tag_of_buffer(buffer) == FormatTag::Unsupported,
        admits(tag_of_buffer(buffer), buffer, progress),
    ensures
        progress matches Progress::Finished(Err(Failure::UnsupportedFormat(mime)))
            && detected_mime(buffer) == Some(mime),
{
}

/// A buffer that was taken for a zip container but has no readable directory
/// fails with `ArchiveOpen`, whatever else it holds.
pub proof fn lemma_broken_archive_does_not_open(buffer: Seq<u8>, progress: Progress)
    requires
        zip_directory(buffer) is Err,
        admits(FormatTag::ZipArchive, buffer, progress),
    ensures
        progress matches Progress::Finished(Err(Failure::ArchiveOpen(_))),
{
}

/// The plain-text strategy.
fn text_extraction(buffer: &[u8]) -> (result: Extraction<'static>)
    ensures
        admits(FormatTag::PlainText, buffer@, result@),
{
    let blocks = plain_text_blocks(buffer);
    proof {
        assert forall|i: int|
            0 <= i < byte_lines(buffer@).len() && !valid_utf8(
                #[trigger] byte_lines(buffer@)[i],
            ) implies plain_text(buffer@)[i].contains('\u{FFFD}') by {
            assert(texts(blocks@).len() == blocks@.len());
            assert(texts(blocks@)[i] == blocks@[i]@);
        }
    }
    Extraction::Finished(Ok(blocks))
}

/// The rejection of a buffer of an unsupported format.
fn rejection(buffer: &[u8]) -> (result: Extraction<'static>)
    ensures
        admits(FormatTag::Unsupported, buffer@, result@),
{
    Extraction::Finished(Err(unsupported(sniff_mime(buffer))))
}

/// Extracts the text blocks of a buffer by the strategy of the given format.
/// For a PDF document the extraction stops short of the decoder and hands out
/// the bytes that the decoder is to be given.
pub fn extract<'a>(tag: FormatTag, buffer: &'a [u8]) -> (result: Extraction<'a>)
    ensures
        admits(tag, buffer@, result@),
        result matches Extraction::AwaitsDecoder(bytes) ==> bytes == buffer,
{
    match tag {
        FormatTag::PlainText => text_extraction(buffer),
        FormatTag::Pdf => Extraction::AwaitsDecoder(buffer),
        FormatTag::ZipArchive => Extraction::Finished(archive_blocks(buffer)),
        FormatTag::Unsupported => rejection(buffer),
    }
}

/// Extraction of the text that a file holds.
pub trait ProcessFile<'a> {
    /// The format that the file was taken for.
    spec fn tag(&self) -> FormatTag;

    /// The bytes of the file.
    spec fn bytes(&self) -> Seq<u8>;

    /// Extracts the text blocks of the file.
    fn process(&'a self) -> (result: Extraction<'a>)
        ensures
            admits(self.tag(), self.bytes(), result@),
    ;
}

impl<'a> ProcessFile<'a> for ZipFile<'a> {
    open spec fn tag(&self) -> FormatTag {
        FormatTag::ZipArchive
    }

    open spec fn bytes(&self) -> Seq<u8> {
        self.0@
    }

    /// The contents of the members whose names end in `.xml`.
    fn process(&'a self) -> (result: Extraction<'a>) {
        Extraction::Finished(archive_blocks(self.0))
    }
}

impl<'a> ProcessFile<'a> for TextFile<'a> {
    open spec fn tag(&self) -> FormatTag {
        FormatTag::PlainText
    }

    open spec fn bytes(&self) -> Seq<u8> {
        self.0@
    }

    /// The lines of the buffer; bytes that are not UTF-8 are replaced.
    fn process(&'a self) -> (result: Extraction<'a>) {
        text_extraction(self.0)
    }
}

impl<'a> ProcessFile<'a> for PdfFile<'a> {
    open spec fn tag(&self) -> FormatTag {
        FormatTag::Pdf
    }

    open spec fn bytes(&self) -> Seq<u8> {
        self.0@
    }

    /// The bytes of the document, for the decoder.
    fn process(&'a self) -> (result: Extraction<'a>)
        ensures
            result matches Extraction::AwaitsDecoder(bytes) && bytes == self.0,
    {
        Extraction::AwaitsDecoder(self.0)
    }
}

impl<'a> AsRef<[u8]> for ZipFile<'a> {
    fn as_ref(&self) -> (bytes: &[u8])
        ensures
            bytes@ == self.0@,
    {
        self.0
    }
}

/// The file that a buffer of the given format is; there is none where the
/// format is not supported.
pub open spec fn file_of<'a>(tag: FormatTag, bytes: &'a [u8]) -> Option<FileType<'a>> {
    match tag {
        FormatTag::ZipArchive => Some(FileType::Zip(ZipFile(bytes))),
        FormatTag::Pdf => Some(FileType::Pdf(PdfFile(bytes))),
        FormatTag::PlainText => Some(FileType::Text(TextFile(bytes))),
        FormatTag::Unsupported => None,
    }
}

/// Whether `result` is the conversion of `bytes`: the file of its format, or
/// for an unsupported format the failure that names the MIME type that was
/// detected.
pub open spec fn converts<'a>(bytes: &'a [u8], result: Result<FileType<'a>, ExtractionError>) -> bool {
    match result {
        Ok(file) => file_of(tag_of_buffer(bytes@), bytes) == Some(file),
        Err(error) => file_of(tag_of_buffer(bytes@), bytes) is None && error@
            == Failure::UnsupportedFormat(mime_text(detected_mime(bytes@))),
    }
}

impl<'a> TryFrom<&'a [u8]> for FileType<'a> {
    type Error = ExtractionError;

    /// Classifies the buffer and ties it to its format. Fails with
    /// `UnsupportedFormat` exactly where the buffer is classified as
    /// unsupported.
    fn try_from(bytes: &'a [u8]) -> (result: Result<FileType<'a>, ExtractionError>)
        ensures
            converts(bytes, result),
    {
        let mime = sniff_mime(bytes);
        match tag_for_mime(mime) {
            FormatTag::ZipArchive => Ok(FileType::Zip(ZipFile(bytes))),
            FormatTag::Pdf => Ok(FileType::Pdf(PdfFile(bytes))),
            FormatTag::PlainText => Ok(FileType::Text(TextFile(bytes))),
            FormatTag::Unsupported => Err(unsupported(mime)),
        }
    }
}

/// The error of the conversion holds a string, and no function of ghost
/// values yields one: what the conversion returns is stated over views, in
/// the contract of `try_from`.
impl<'a> TryFromSpecImpl<&'a [u8]> for FileType<'a> {
    open spec fn obeys_try_from_spec() -> bool {
        false
    }

    open spec fn try_from_spec(bytes: &'a [u8]) -> Result<Self, Self::Error> {
        Ok(FileType::Text(TextFile(bytes)))
    }
}

impl<'a> FileType<'a> {
    /// The format that the file was taken for.
    pub open spec fn tag(&self) -> FormatTag {
        match self {
            FileType::Zip(_) => FormatTag::ZipArchive,
            FileType::Text(_) => FormatTag::PlainText,
            FileType::Pdf(_) => FormatTag::Pdf,
        }
    }

    /// The bytes of the file.
    pub open spec fn bytes(&self) -> Seq<u8> {
        match self {
            FileType::Zip(file) => file.0@,
            FileType::Text(file) => file.0@,
            FileType::Pdf(file) => file.0@,
        }
    }

    /// Extracts the text blocks of the file by the strategy of its format,
    /// and by no other.
    pub fn process(self) -> (result: Extraction<'a>)
        ensures
            admits(self.tag(), self.bytes(), result@),
            self matches FileType::Pdf(file) ==> result matches Extraction::AwaitsDecoder(bytes)
                && bytes == file.0,
    {
        match self {
            FileType::Text(text_file) => text_extraction(text_file.0),
            FileType::Zip(zip_file) => Extraction::Finished(archive_blocks(zip_file.0)),
            FileType::Pdf(pdf_file) => Extraction::AwaitsDecoder(pdf_file.0),
        }
    }
}

/// Conversion of a buffer into a file of its format, for call chains.
pub trait TryIntoFileType<'a> {
    /// Classifies the buffer and ties it to its format.
    fn try_into_filetype(self) -> Result<FileType<'a>, ExtractionError>;
}

impl<'a> TryIntoFileType<'a> for &'a [u8] {
    fn try_into_filetype(self) -> (result: Result<FileType<'a>, ExtractionError>)
        ensures
            converts(self, result),
    {
        FileType::try_from(self)
    }
}

} // verus!
