//! Format classification: from the leading bytes of a buffer to a format tag.
use vstd::prelude::*;
use vstd::string::StringExecFns;
use crate::encoding::same_text;
use crate::error::{ExtractionError, Failure};

verus! {

/// The closed set of container formats the extractor distinguishes.
#[derive(Clone, Copy, Debug, PartialEq, Eq, Structural)]
pub enum FormatTag {
    /// No signature at all, or that of a markup text format: decoded line by line.
    PlainText,
    /// A PDF document.
    Pdf,
    /// A zip container, plain or as the carrier of an office document.
    ZipArchive,
    /// A signature was recognised, but of a format that holds no extractable text.
    Unsupported,
}

pub const MIME_DOCX: &'static str =
    "application/vnd.openxmlformats-officedocument.wordprocessingml.document";

pub const MIME_PPTX: &'static str =
    "application/vnd.openxmlformats-officedocument.presentationml.presentation";

pub const MIME_XLSX: &'static str =
    "application/vnd.openxmlformats-officedocument.spreadsheetml.sheet";

pub const MIME_ODT: &'static str = "application/vnd.oasis.opendocument.text";

pub const MIME_ODS: &'static str = "application/vnd.oasis.opendocument.spreadsheet";

pub const MIME_ODP: &'static str = "application/vnd.oasis.opendocument.presentation";

pub const MIME_ZIP: &'static str = "application/zip";

pub const MIME_PDF: &'static str = "application/pdf";

pub const MIME_HTML: &'static str = "text/html";

pub const MIME_XML: &'static str = "text/xml";

/// The MIME type that signature sniffing assigns to a buffer, `None` where no
/// known signature matches.
pub uninterp spec fn detected_mime(buffer: Seq<u8>) -> Option<Seq<char>>;

/// Signature sniffing by `infer::get`, reduced to the MIME type of the match.
///
/// `infer::get` walks a fixed table of signature predicates in order and returns
/// the first entry whose predicate accepts the buffer; each predicate reads the
/// buffer only. The contract names that outcome `detected_mime` and claims
/// nothing about which signatures exist.
#[verifier::external_body]
pub(crate) fn sniff_mime(buffer: &[u8]) -> (mime: Option<&'static str>)
    ensures
        detected_mime(buffer@) == match mime {
            Some(m) => Some(m@),
            None => None,
        },
{
    match infer::get(buffer) {
        Some(kind) => Some(kind.mime_type()),
        None => None,
    }
}

/// The MIME type as text, empty where there is none.
pub open spec fn mime_text(mime: Option<Seq<char>>) -> Seq<char> {
    match mime {
        Some(m) => m,
        None => Seq::empty(),
    }
}

/// The error for a buffer of an unsupported format, with the MIME type that
/// was detected; the type is empty where no signature was found.
pub fn unsupported(mime: Option<&str>) -> (error: ExtractionError)
    ensures
        error@ == Failure::UnsupportedFormat(
            mime_text(
                match mime {
                    Some(m) => Some(m@),
                    None => None,
                },
            ),
        ),
{
    match mime {
        Some(m) => ExtractionError::UnsupportedFormat(String::from_str(m)),
        None => ExtractionError::UnsupportedFormat(String::new()),
    }
}

/// The MIME types of formats that are zip containers of XML parts.
pub open spec fn is_archive_mime(mime: Seq<char>) -> bool {
    ||| mime == MIME_DOCX@
    ||| mime == MIME_PPTX@
    ||| mime == MIME_XLSX@
    ||| mime == MIME_ODT@
    ||| mime == MIME_ODS@
    ||| mime == MIME_ODP@
    ||| mime == MIME_ZIP@
}

/// The MIME types of text formats that do carry a signature.
pub open spec fn is_markup_mime(mime: Seq<char>) -> bool {
    mime == MIME_HTML@ || mime == MIME_XML@
}

/// The tag that belongs to the outcome of signature sniffing.
pub open spec fn tag_of(mime: Option<Seq<char>>) -> FormatTag {
    match mime {
        None => FormatTag::PlainText,
        Some(m) => if is_archive_mime(m) {
            FormatTag::ZipArchive
        } else if m == MIME_PDF@ {
            FormatTag::Pdf
        } else if is_markup_mime(m) {
            FormatTag::PlainText
        } else {
            FormatTag::Unsupported
        },
    }
}

/// The tag of a buffer.
pub open spec fn tag_of_buffer(buffer: Seq<u8>) -> FormatTag {
    tag_of(detected_mime(buffer))
}

/// Maps the outcome of signature sniffing to a tag: office documents and plain
/// zip files are archives, PDF is PDF, markup and unsigned buffers are plain
/// text, and every other signature is unsupported.
pub fn tag_for_mime(mime: Option<&str>) -> (tag: FormatTag)
    ensures
        tag == tag_of(
            match mime {
                Some(m) => Some(m@),
                None => None,
            },
        ),
{
    match mime {
        None => FormatTag::PlainText,
        Some(m) => {
            if same_text(m, MIME_DOCX) || same_text(m, MIME_PPTX) || same_text(m, MIME_XLSX)
                || same_text(m, MIME_ODT) || same_text(m, MIME_ODS) || same_text(m, MIME_ODP)
                || same_text(m, MIME_ZIP) {
                FormatTag::ZipArchive
            } else if same_text(m, MIME_PDF) {
                FormatTag::Pdf
            } else if same_text(m, MIME_HTML) || same_text(m, MIME_XML) {
                FormatTag::PlainText
            } else {
                FormatTag::Unsupported
            }
        },
    }
}

/// Classifies a buffer by its signature. Total: every buffer, the empty one
/// included, gets exactly one tag.
pub fn classify(buffer: &[u8]) -> (tag: FormatTag)
    ensures
        tag == tag_of_buffer(buffer@),
{
    tag_for_mime(sniff_mime(buffer))
}

/// Classification is a function of the bytes: buffers that hold the same bytes
/// get the same tag, however often they are classified.
pub proof fn lemma_classification_is_stable(first: Seq<u8>, second: Seq<u8>)
    requires
        first == second,
    ensures
        tag_of_buffer(first) == tag_of_buffer(second),
{
}

} // verus!
