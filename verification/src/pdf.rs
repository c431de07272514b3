//! PDF documents: the whole text of a document is one block.
//!
//! The decoder itself is not called from here: it aborts on some malformed
//! documents, and a library that must not abort cannot guard the call. The
//! caller runs the decoder on the bytes that the extraction hands out, and
//! hands back what the decoder gave: the text, or its account of the failure.
use vstd::prelude::*;
use vstd::string::StringExecFns;
use crate::error::{outcome, ExtractionError, Failure};

verus! {

/// The sentence that reports a failure of the decoder, around the decoder's
/// own account of it.
pub open spec fn pdf_failure(detail: Seq<char>) -> Seq<char> {
    "Failed to extract PDF text. "@ + detail + "."@
}

/// What extraction makes of the decoder's result: the text as the only block,
/// or the failure with its report.
pub open spec fn pdf_outcome(decoded: Result<Seq<char>, Seq<char>>) -> Result<
    Seq<Seq<char>>,
    Failure,
> {
    match decoded {
        Ok(text) => Ok(seq![text]),
        Err(detail) => Err(Failure::PdfDecode(pdf_failure(detail))),
    }
}

/// Turns the decoder's result, text or the account of a failure, into the
/// result of the extraction: the text of the document as a single block, or
/// `PdfDecode` with the report.
pub fn pdf_result(decoded: Result<String, String>) -> (result: Result<
    Vec<String>,
    ExtractionError,
>)
    ensures
        outcome(result) == pdf_outcome(
            match decoded {
                Ok(text) => Ok(text@),
                Err(detail) => Err(detail@),
            },
        ),
{
    match decoded {
        Ok(text) => {
            let mut blocks: Vec<String> = Vec::new();
            assert(blocks@.push(text).map_values(|s: String| s@) =~= seq![text@]);
            blocks.push(text);
            Ok(blocks)
        },
        Err(detail) => {
            let mut report = String::from_str("Failed to extract PDF text. ");
            report.append(detail.as_str());
            report.append(".");
            Err(ExtractionError::PdfDecode(report))
        },
    }
}

} // verus!
