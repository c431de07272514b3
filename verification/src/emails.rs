//! The consumer of extracted text: the email addresses that occur in it, each
//! once, and their rendering as records.
use vstd::hash_set::StringHashSet;
use vstd::prelude::*;
use vstd::seq_lib::to_multiset_contains;
use vstd::string::StringExecFns;
use crate::encoding::{lemma_ascii_byte_occurs, texts};
use crate::error::{outcome, ExtractionError, Failure};
use crate::file::{extract, extraction_of, Extraction, Progress};
use crate::format::{classify, tag_of_buffer};
use crate::pdf::{pdf_outcome, pdf_result};

verus! {

/// The lexical pattern of an email address: a local part of letters, digits
/// and `._%+-`, an `@`, a domain of letters, digits, dots and hyphens, and a
/// top-level domain of at least two letters, between word boundaries.
pub const EMAIL_PATTERN: &'static str = r"(\b[a-zA-Z0-9._%+-]+@[a-zA-Z0-9.-]+\.[a-zA-Z]{2,}\b)";

/// The matches of a regular expression in a text: the matched stretches from
/// left to right, none overlapping another; `None` where the pattern is not a
/// regular expression that the engine accepts.
pub uninterp spec fn pattern_matches(pattern: Seq<char>, text: Seq<char>) -> Option<
    Seq<Seq<char>>,
>;

/// Compiles the pattern with `regex::Regex::new` and collects what
/// `Regex::find_iter` yields on the text.
///
/// Both are functions of their arguments: the contract names the sequence of
/// matches `pattern_matches` and says nothing about what matches.
#[verifier::external_body]
fn find_all(pattern: &str, text: &str) -> (found: Option<Vec<String>>)
    ensures
        pattern_matches(pattern@, text@) == match found {
            Some(list) => Some(texts(list@)),
            None => None,
        },
{
    match regex::Regex::new(pattern) {
        Ok(finder) => Some(finder.find_iter(text).map(|m| m.as_str().to_string()).collect()),
        Err(_) => None,
    }
}

/// The given texts, each followed by a line feed.
pub open spec fn records(items: Seq<Seq<char>>) -> Seq<char>
    decreases items.len(),
{
    if items.len() == 0 {
        Seq::empty()
    } else {
        records(items.drop_last()) + items.last() + seq!['\n']
    }
}

/// The given texts without repetitions, each at the place of its first
/// occurrence.
pub open spec fn distinct(items: Seq<Seq<char>>) -> Seq<Seq<char>>
    decreases items.len(),
{
    if items.len() == 0 {
        Seq::empty()
    } else {
        let front = distinct(items.drop_last());
        if front.contains(items.last()) {
            front
        } else {
            front.push(items.last())
        }
    }
}

/// The addresses in one block: the matches of the pattern in it. A block
/// without an `@` holds no address and is not searched.
pub open spec fn addresses_in(block: Seq<char>) -> Seq<Seq<char>> {
    if block.contains('@') {
        match pattern_matches(EMAIL_PATTERN@, block) {
            Some(found) => found,
            None => Seq::empty(),
        }
    } else {
        Seq::empty()
    }
}

/// The addresses in the given blocks, block after block, with repetitions.
pub open spec fn all_addresses(blocks: Seq<Seq<char>>) -> Seq<Seq<char>>
    decreases blocks.len(),
{
    if blocks.len() == 0 {
        Seq::empty()
    } else {
        all_addresses(blocks.drop_last()) + addresses_in(blocks.last())
    }
}

/// The email addresses in the given text blocks, each once.
pub open spec fn emails_of(blocks: Seq<Seq<char>>) -> Seq<Seq<char>> {
    distinct(all_addresses(blocks))
}

/// `distinct` holds no text twice.
pub proof fn lemma_distinct_has_no_repetition(items: Seq<Seq<char>>)
    ensures
        distinct(items).no_duplicates(),
    decreases items.len(),
{
    if items.len() > 0 {
        lemma_distinct_has_no_repetition(items.drop_last());
        let front = distinct(items.drop_last());
        if !front.contains(items.last()) {
            assert forall|i: int, j: int|
                0 <= i < distinct(items).len() && 0 <= j < distinct(items).len() && i
                    != j implies distinct(items)[i] != distinct(items)[j] by {
                if i < front.len() {
                    assert(front[i] == distinct(items)[i]);
                }
                if j < front.len() {
                    assert(front[j] == distinct(items)[j]);
                }
            }
        }
    }
}

/// `distinct` holds exactly the texts that it was given.
pub proof fn lemma_distinct_keeps_every_text(items: Seq<Seq<char>>, text: Seq<char>)
    ensures
        distinct(items).contains(text) <==> items.contains(text),
    decreases items.len(),
{
    if items.len() > 0 {
        let rest = items.drop_last();
        let front = distinct(rest);
        lemma_distinct_keeps_every_text(rest, text);
        if items.contains(text) {
            let i = choose|i: int| 0 <= i < items.len() && items[i] == text;
            if i < rest.len() {
                assert(rest[i] == text);
                assert(rest.contains(text));
            }
            if !front.contains(items.last()) {
                assert(front.push(items.last())[front.len() as int] == items.last());
            }
            if front.contains(text) && !front.contains(items.last()) {
                let k = choose|k: int| 0 <= k < front.len() && front[k] == text;
                assert(front.push(items.last())[k] == text);
            }
        }
        if distinct(items).contains(text) {
            let k = choose|k: int| 0 <= k < distinct(items).len() && distinct(items)[k] == text;
            if k < front.len() {
                assert(front[k] == text);
                let i = choose|i: int| 0 <= i < rest.len() && rest[i] == text;
                assert(items[i] == text);
            } else {
                assert(items[items.len() - 1] == text);
            }
        }
    }
}

/// An address is among those of the blocks exactly where one of the blocks
/// holds it.
pub proof fn lemma_address_comes_from_a_block(blocks: Seq<Seq<char>>, address: Seq<char>)
    ensures
        all_addresses(blocks).contains(address) <==> exists|i: int|
            0 <= i < blocks.len() && addresses_in(#[trigger] blocks[i]).contains(address),
    decreases blocks.len(),
{
    if blocks.len() > 0 {
        let rest = blocks.drop_last();
        let front = all_addresses(rest);
        let back = addresses_in(blocks.last());
        lemma_address_comes_from_a_block(rest, address);
        if (front + back).contains(address) {
            let k = choose|k: int| 0 <= k < (front + back).len() && (front + back)[k] == address;
            if k < front.len() {
                assert(front[k] == address);
                assert(front.contains(address));
                let i = choose|i: int|
                    0 <= i < rest.len() && addresses_in(#[trigger] rest[i]).contains(address);
                assert(blocks[i] == rest[i]);
            } else {
                assert(back[k - front.len()] == address);
                assert(addresses_in(blocks[blocks.len() - 1]).contains(address));
            }
        }
        if exists|i: int|
            0 <= i < blocks.len() && addresses_in(#[trigger] blocks[i]).contains(address) {
            let i = choose|i: int|
                0 <= i < blocks.len() && addresses_in(#[trigger] blocks[i]).contains(address);
            if i < rest.len() {
                assert(rest[i] == blocks[i]);
                assert(front.contains(address));
                let k = choose|k: int| 0 <= k < front.len() && front[k] == address;
                assert((front + back)[k] == address);
            } else {
                let k = choose|k: int| 0 <= k < back.len() && back[k] == address;
                assert((front + back)[front.len() + k] == address);
            }
        }
    }
}

/// The addresses that are found do not depend on the order of the blocks: the
/// same blocks in another order give the same set of addresses, and as many.
pub proof fn lemma_emails_do_not_depend_on_order(first: Seq<Seq<char>>, second: Seq<Seq<char>>)
    requires
        first.to_multiset() == second.to_multiset(),
    ensures
        emails_of(first).to_set() == emails_of(second).to_set(),
        emails_of(first).len() == emails_of(second).len(),
{
    assert forall|address: Seq<char>|
        emails_of(first).contains(address) <==> emails_of(second).contains(address) by {
        lemma_distinct_keeps_every_text(all_addresses(first), address);
        lemma_distinct_keeps_every_text(all_addresses(second), address);
        lemma_address_comes_from_a_block(first, address);
        lemma_address_comes_from_a_block(second, address);
        if all_addresses(first).contains(address) {
            let i = choose|i: int|
                0 <= i < first.len() && addresses_in(#[trigger] first[i]).contains(address);
            to_multiset_contains(first, first[i]);
            to_multiset_contains(second, first[i]);
            assert(first.contains(first[i]));
            let j = choose|j: int| 0 <= j < second.len() && second[j] == first[i];
            assert(addresses_in(second[j]).contains(address));
        }
        if all_addresses(second).contains(address) {
            let i = choose|i: int|
                0 <= i < second.len() && addresses_in(#[trigger] second[i]).contains(address);
            to_multiset_contains(first, second[i]);
            to_multiset_contains(second, second[i]);
            assert(second.contains(second[i]));
            let j = choose|j: int| 0 <= j < first.len() && first[j] == second[i];
            assert(addresses_in(first[j]).contains(address));
        }
    }
    assert(emails_of(first).to_set() =~= emails_of(second).to_set());
    lemma_distinct_has_no_repetition(all_addresses(first));
    lemma_distinct_has_no_repetition(all_addresses(second));
    emails_of(first).unique_seq_to_set();
    emails_of(second).unique_seq_to_set();
}

/// Removes repetitions: of each text the first occurrence stays.
pub fn dedup(items: Vec<String>) -> (kept: Vec<String>)
    ensures
        texts(kept@) == distinct(texts(items@)),
{
    let mut kept: Vec<String> = Vec::new();
    let mut seen = StringHashSet::new();
    let mut i: usize = 0;
    assert(texts(items@).take(0) =~= Seq::<Seq<char>>::empty());
    assert(texts(kept@) =~= Seq::<Seq<char>>::empty());
    while i < items.len()
        invariant
            i <= items.len(),
            texts(kept@) == distinct(texts(items@).take(i as int)),
            forall|text: Seq<char>| seen@.contains(text) <==> texts(kept@).contains(text),
        decreases items.len() - i,
    {
        proof {
            let longer = texts(items@).take(i + 1);
            assert(longer.drop_last() =~= texts(items@).take(i as int));
            assert(longer.last() == items@[i as int]@);
        }
        let item = items[i].clone();
        if seen.insert(item.clone()) {
            proof {
                let before = texts(kept@);
                let after = texts(kept@.push(item));
                assert(after =~= before.push(item@));
                assert forall|text: Seq<char>| seen@.contains(text) <==> after.contains(
                    text,
                ) by {
                    if before.contains(text) {
                        let k = choose|k: int| 0 <= k < before.len() && before[k] == text;
                        assert(after[k] == text);
                    }
                    if text == item@ {
                        assert(after[before.len() as int] == text);
                    }
                }
            }
            kept.push(item);
        }
        i += 1;
    }
    assert(texts(items@).take(i as int) =~= texts(items@));
    kept
}

/// Renders texts as records: each followed by a line feed.
pub fn format_records(items: &Vec<String>) -> (rendered: String)
    ensures
        rendered@ == records(texts(items@)),
{
    let mut rendered = String::new();
    let mut i: usize = 0;
    assert(texts(items@).take(0) =~= Seq::<Seq<char>>::empty());
    while i < items.len()
        invariant
            i <= items.len(),
            rendered@ == records(texts(items@).take(i as int)),
        decreases items.len() - i,
    {
        proof {
            let longer = texts(items@).take(i + 1);
            assert(longer.drop_last() =~= texts(items@).take(i as int));
            assert(longer.last() == items@[i as int]@);
            reveal_strlit("\n");
            assert("\n"@ =~= seq!['\n']);
        }
        rendered.append(items[i].as_str());
        rendered.append("\n");
        i += 1;
    }
    assert(texts(items@).take(i as int) =~= texts(items@));
    rendered
}

/// Whether a text holds an `@`.
pub fn has_at_sign(text: &str) -> (found: bool)
    ensures
        found == text@.contains('@'),
{
    let bytes = text.as_bytes();
    proof {
        lemma_ascii_byte_occurs(text@, 0x40);
        assert(0x40u8 as char == '@');
    }
    let mut i: usize = 0;
    while i < bytes.len()
        invariant
            i <= bytes.len(),
            bytes@.contains(0x40u8) <==> text@.contains('@'),
            forall|k: int| 0 <= k < i ==> bytes@[k] != 0x40,
        decreases bytes.len() - i,
    {
        if bytes[i] == 0x40 {
            assert(bytes@[i as int] == 0x40);
            return true;
        }
        i += 1;
    }
    false
}

/// Finds the email addresses in the given text blocks, block by block. Each
/// address occurs once in the result, at the place of its first occurrence;
/// no address at all is a result like any other.
pub fn extract_emails(content: &Vec<String>) -> (emails: Vec<String>)
    ensures
        texts(emails@) == emails_of(texts(content@)),
{
    let mut found: Vec<String> = Vec::new();
    let mut i: usize = 0;
    assert(texts(content@).take(0) =~= Seq::<Seq<char>>::empty());
    assert(texts(found@) =~= Seq::<Seq<char>>::empty());
    while i < content.len()
        invariant
            i <= content.len(),
            texts(found@) == all_addresses(texts(content@).take(i as int)),
        decreases content.len() - i,
    {
        proof {
            let longer = texts(content@).take(i + 1);
            assert(longer.drop_last() =~= texts(content@).take(i as int));
            assert(longer.last() == content@[i as int]@);
            assert(texts(found@) + Seq::<Seq<char>>::empty() =~= texts(found@));
        }
        let block = content[i].as_str();
        if has_at_sign(block) {
            match find_all(EMAIL_PATTERN, block) {
                Some(mut more) => {
                    assert(texts(found@ + more@) =~= texts(found@) + texts(more@));
                    found.append(&mut more);
                },
                None => {},
            }
        }
        i += 1;
    }
    assert(texts(content@).take(i as int) =~= texts(content@));
    dedup(found)
}

/// What the scan makes of an extraction: the addresses in its blocks, or its
/// failure.
pub open spec fn scanned(extraction: Result<Seq<Seq<char>>, Failure>) -> Result<
    Seq<Seq<char>>,
    Failure,
> {
    match extraction {
        Ok(blocks) => Ok(emails_of(blocks)),
        Err(failure) => Err(failure),
    }
}

/// Scans the result of an extraction: the addresses in its blocks, or its
/// failure as it came.
pub fn scan(extraction: Result<Vec<String>, ExtractionError>) -> (result: Result<
    Vec<String>,
    ExtractionError,
>)
    ensures
        outcome(result) == scanned(outcome(extraction)),
{
    match extraction {
        Ok(blocks) => Ok(extract_emails(&blocks)),
        Err(error) => Err(error),
    }
}

/// What the search for addresses in a buffer comes to: the scan of what was
/// extracted, or the bytes that await the decoder.
pub open spec fn harvest_of(buffer: Seq<u8>) -> Progress {
    match extraction_of(tag_of_buffer(buffer), buffer) {
        Progress::Finished(extraction) => Progress::Finished(scanned(extraction)),
        Progress::AwaitsDecoder(bytes) => Progress::AwaitsDecoder(bytes),
    }
}

/// Classifies a buffer, extracts its text and finds the email addresses in
/// it. Fails where the extraction does, with its error. For a PDF document
/// the bytes for the decoder are handed out; `harvest_decoded` takes what the
/// decoder gave.
pub fn harvest_emails<'a>(buffer: &'a [u8]) -> (result: Extraction<'a>)
    ensures
        result@ == harvest_of(buffer@),
        result matches Extraction::AwaitsDecoder(bytes) ==> bytes == buffer,
{
    match extract(classify(buffer), buffer) {
        Extraction::Finished(extraction) => Extraction::Finished(scan(extraction)),
        Extraction::AwaitsDecoder(bytes) => Extraction::AwaitsDecoder(bytes),
    }
}

/// Finds the email addresses in what the decoder made of a PDF document: the
/// addresses in its text, or the failure with the decoder's report.
pub fn harvest_decoded(decoded: Result<String, String>) -> (result: Result<
    Vec<String>,
    ExtractionError,
>)
    ensures
        outcome(result) == scanned(
            pdf_outcome(
                match decoded {
                    Ok(text) => Ok(text@),
                    Err(detail) => Err(detail@),
                },
            ),
        ),
{
    scan(pdf_result(decoded))
}

} // verus!
