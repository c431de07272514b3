//! Plain text: a buffer is cut into lines on the byte level, and each line is
//! decoded as UTF-8, with a replacement character for whatever is not.
use vstd::prelude::*;
use vstd::utf8::*;
use crate::encoding::{lemma_bytes_of_char, texts};

verus! {

/// The byte that ends a line.
pub const LINE_FEED: u8 = 0x0A;

/// The byte that may precede a line feed and then belongs to the line ending.
pub const CARRIAGE_RETURN: u8 = 0x0D;

/// The number of bytes before the first line feed, or the length of `bytes`
/// where it holds none.
pub open spec fn line_end(bytes: Seq<u8>) -> int
    decreases bytes.len(),
{
    if bytes.len() == 0 || bytes[0] == LINE_FEED {
        0
    } else {
        1 + line_end(bytes.drop_first())
    }
}

/// A line without the carriage return that it may end with.
pub open spec fn without_return(line: Seq<u8>) -> Seq<u8> {
    if line.len() > 0 && line.last() == CARRIAGE_RETURN {
        line.drop_last()
    } else {
        line
    }
}

/// The lines of a buffer. A line ends at a line feed, or at a carriage return
/// directly before one; neither belongs to the line. What follows the last
/// line feed is a line of its own, taken as it stands, unless it is empty.
pub open spec fn byte_lines(bytes: Seq<u8>) -> Seq<Seq<u8>>
    decreases bytes.len(),
{
    let end = line_end(bytes);
    if bytes.len() == 0 {
        Seq::empty()
    } else if 0 <= end < bytes.len() {
        seq![without_return(bytes.take(end))] + byte_lines(bytes.skip(end + 1))
    } else {
        seq![bytes]
    }
}

/// The text that stands for an ill-formed byte sequence: the well-formed
/// stretches decoded, each ill-formed one replaced by U+FFFD.
pub uninterp spec fn repaired_text(bytes: Seq<u8>) -> Seq<char>;

/// The text of a byte sequence: its decoding where it is well-formed UTF-8,
/// the repaired text where it is not.
pub open spec fn decoded_text(bytes: Seq<u8>) -> Seq<char> {
    if valid_utf8(bytes) {
        decode_utf8(bytes)
    } else {
        repaired_text(bytes)
    }
}

/// The text blocks of a plain-text buffer: its lines, decoded one by one.
pub open spec fn plain_text(bytes: Seq<u8>) -> Seq<Seq<char>> {
    byte_lines(bytes).map_values(|line: Seq<u8>| decoded_text(line))
}

/// The byte sequences behind a sequence of slices.
pub open spec fn slice_views(slices: Seq<&[u8]>) -> Seq<Seq<u8>> {
    slices.map_values(|s: &[u8]| s@)
}

/// `String::from_utf8_lossy`, its result copied into a string of its own.
///
/// The standard library documents that well-formed UTF-8 is decoded as it
/// stands and that ill-formed sequences are replaced by U+FFFD; the call never
/// fails. The contract states the first case exactly; of the second it names
/// the result `repaired_text` and says that a replacement character is in it.
#[verifier::external_body]
fn decode_lossy(bytes: &[u8]) -> (text: String)
    ensures
        valid_utf8(bytes@) ==> text@ == decode_utf8(bytes@),
        !valid_utf8(bytes@) ==> text@ == repaired_text(bytes@) && text@.contains('\u{FFFD}'),
{
    String::from_utf8_lossy(bytes).into_owned()
}

/// `line_end` is the first position that holds a line feed.
pub proof fn lemma_line_end_is_first_feed(bytes: Seq<u8>, end: int)
    requires
        0 <= end <= bytes.len(),
        forall|j: int| 0 <= j < end ==> bytes[j] != LINE_FEED,
        end < bytes.len() ==> bytes[end] == LINE_FEED,
    ensures
        line_end(bytes) == end,
    decreases end,
{
    if end > 0 {
        let rest = bytes.drop_first();
        assert forall|j: int| 0 <= j < end - 1 implies rest[j] != LINE_FEED by {
            assert(rest[j] == bytes[j + 1]);
        }
        lemma_line_end_is_first_feed(rest, end - 1);
    }
}

/// Cuts a buffer into its lines, each a slice of the buffer.
pub fn split_lines<'a>(buffer: &'a [u8]) -> (lines: Vec<&'a [u8]>)
    ensures
        slice_views(lines@) == byte_lines(buffer@),
{
    let mut lines: Vec<&'a [u8]> = Vec::new();
    let mut start: usize = 0;
    let mut i: usize = 0;
    assert(buffer@.skip(0) =~= buffer@);
    assert(slice_views(lines@) =~= Seq::<Seq<u8>>::empty());
    while i < buffer.len()
        invariant
            start <= i <= buffer.len(),
            forall|j: int| start <= j < i ==> buffer@[j] != LINE_FEED,
            byte_lines(buffer@) == slice_views(lines@) + byte_lines(buffer@.skip(start as int)),
        decreases buffer.len() - i,
    {
        if buffer[i] == LINE_FEED {
            let end = if i > start && buffer[i - 1] == CARRIAGE_RETURN {
                i - 1
            } else {
                i
            };
            let line = &buffer[start..end];
            proof {
                let rest = buffer@.skip(start as int);
                let cut = i - start;
                assert forall|j: int| 0 <= j < cut implies rest[j] != LINE_FEED by {
                    assert(rest[j] == buffer@[start + j]);
                }
                lemma_line_end_is_first_feed(rest, cut);
                assert(rest.take(cut) =~= buffer@.subrange(start as int, i as int));
                assert(without_return(rest.take(cut)) =~= line@);
                assert(rest.skip(cut + 1) =~= buffer@.skip(i + 1));
                assert(slice_views(lines@.push(line)) =~= slice_views(lines@) + seq![line@]);
            }
            lines.push(line);
            start = i + 1;
        }
        i += 1;
    }
    if start < buffer.len() {
        let line = &buffer[start..buffer.len()];
        proof {
            let rest = buffer@.skip(start as int);
            assert forall|j: int| 0 <= j < rest.len() implies rest[j] != LINE_FEED by {
                assert(rest[j] == buffer@[start + j]);
            }
            lemma_line_end_is_first_feed(rest, rest.len() as int);
            assert(rest =~= line@);
            assert(slice_views(lines@.push(line)) =~= slice_views(lines@) + seq![line@]);
        }
        lines.push(line);
    } else {
        assert(buffer@.skip(start as int) =~= Seq::<u8>::empty());
    }
    lines
}

/// Extracts the text blocks of a plain-text buffer: one block for each line,
/// in the order of the document. Never fails: a line that is not well-formed
/// UTF-8 is decoded with replacement characters in it.
pub fn plain_text_blocks(buffer: &[u8]) -> (blocks: Vec<String>)
    ensures
        texts(blocks@) == plain_text(buffer@),
        forall|i: int|
            0 <= i < blocks.len() && !valid_utf8(#[trigger] byte_lines(buffer@)[i])
                ==> blocks@[i]@.contains('\u{FFFD}'),
{
    let lines = split_lines(buffer);
    let mut blocks: Vec<String> = Vec::new();
    let mut i: usize = 0;
    while i < lines.len()
        invariant
            i <= lines.len(),
            slice_views(lines@) == byte_lines(buffer@),
            blocks.len() == i,
            forall|k: int| 0 <= k < i ==> blocks@[k]@ == decoded_text(#[trigger] lines@[k]@),
            forall|k: int|
                0 <= k < i && !valid_utf8(#[trigger] lines@[k]@) ==> blocks@[k]@.contains(
                    '\u{FFFD}',
                ),
        decreases lines.len() - i,
    {
        let text = decode_lossy(lines[i]);
        blocks.push(text);
        i += 1;
    }
    proof {
        assert forall|k: int| 0 <= k < blocks.len() implies texts(blocks@)[k] == plain_text(
            buffer@,
        )[k] by {
            assert(slice_views(lines@)[k] == lines@[k]@);
        }
        assert(texts(blocks@) =~= plain_text(buffer@));
        assert forall|k: int|
            0 <= k < blocks.len() && !valid_utf8(
                #[trigger] byte_lines(buffer@)[k],
            ) implies blocks@[k]@.contains('\u{FFFD}') by {
            assert(slice_views(lines@)[k] == lines@[k]@);
        }
    }
    blocks
}

/// A line of text: no line feed in it, and no carriage return at its end.
pub open spec fn is_line(text: Seq<char>) -> bool {
    &&& forall|i: int| 0 <= i < text.len() ==> text[i] != '\n'
    &&& text.len() > 0 ==> text.last() != '\r'
}

/// The buffer that holds the given lines, each followed by a line feed.
pub open spec fn terminated(lines: Seq<Seq<char>>) -> Seq<u8>
    decreases lines.len(),
{
    if lines.len() == 0 {
        Seq::empty()
    } else {
        encode_utf8(lines.first()) + seq![LINE_FEED] + terminated(lines.drop_first())
    }
}

/// Text without a line feed is encoded without the line feed byte, and text
/// that does not end in a carriage return is encoded without that byte at its
/// end.
pub proof fn lemma_bytes_of_line(text: Seq<char>)
    requires
        is_line(text),
    ensures
        forall|k: int| 0 <= k < encode_utf8(text).len() ==> encode_utf8(text)[k] != LINE_FEED,
        text.len() > 0 ==> encode_utf8(text).len() > 0 && encode_utf8(text).last()
            != CARRIAGE_RETURN,
        text.len() == 0 ==> encode_utf8(text).len() == 0,
    decreases text.len(),
{
    if text.len() > 0 {
        let first = text[0];
        let scalar = first as u32;
        let head = encode_scalar(scalar);
        let rest = text.drop_first();
        let tail = encode_utf8(rest);
        lemma_bytes_of_char(first);
        char_u32_cast(first, scalar);
        assert(encode_utf8(text) == head + tail);
        assert(scalar != 0x0A) by {
            assert(0x0Au32 as char == '\n');
        }
        assert forall|k: int| 0 <= k < head.len() implies head[k] != LINE_FEED by {
            if scalar < 0x80 {
                assert(head[k] == scalar as u8);
            } else {
                assert(head[k] >= 0x80);
            }
        }
        if rest.len() > 0 {
            assert(rest.last() == text.last());
            assert forall|i: int| 0 <= i < rest.len() implies rest[i] != '\n' by {
                assert(rest[i] == text[i + 1]);
            }
            lemma_bytes_of_line(rest);
            assert((head + tail).last() == tail.last());
        } else {
            assert(tail =~= Seq::<u8>::empty());
            assert(head + tail =~= head);
            assert(text.last() == first);
            assert(scalar != 0x0D) by {
                assert(0x0Du32 as char == '\r');
            }
            if scalar < 0x80 {
                assert(head.last() == scalar as u8);
            } else {
                assert(head[head.len() - 1] >= 0x80);
            }
        }
        assert forall|k: int| 0 <= k < (head + tail).len() implies (head + tail)[k]
            != LINE_FEED by {
            if k >= head.len() {
                assert((head + tail)[k] == tail[k - head.len()]);
            } else {
                assert((head + tail)[k] == head[k]);
            }
        }
    }
}

/// A line that is followed by a line feed is the first line of the buffer,
/// and the lines of what follows are the others.
proof fn lemma_first_line(line: Seq<char>, rest: Seq<u8>)
    requires
        is_line(line),
    ensures
        plain_text(encode_utf8(line) + seq![LINE_FEED] + rest) == seq![line] + plain_text(rest),
{
    let bytes = encode_utf8(line);
    let buffer = bytes + seq![LINE_FEED] + rest;
    let end = bytes.len() as int;
    lemma_bytes_of_line(line);
    assert forall|j: int| 0 <= j < end implies buffer[j] != LINE_FEED by {
        assert(buffer[j] == bytes[j]);
    }
    lemma_line_end_is_first_feed(buffer, end);
    assert(buffer.take(end) =~= bytes);
    assert(buffer.skip(end + 1) =~= rest);
    assert(byte_lines(buffer) == seq![bytes] + byte_lines(rest));
    encode_utf8_valid_utf8(line);
    encode_utf8_decode_utf8(line);
    assert(plain_text(buffer) =~= seq![line] + plain_text(rest));
}

/// Round trip of plain text: a buffer made of lines of well-formed text, each
/// followed by a line feed, is extracted as exactly these lines, in their
/// order.
pub proof fn lemma_lines_round_trip(lines: Seq<Seq<char>>)
    requires
        forall|i: int| 0 <= i < lines.len() ==> is_line(#[trigger] lines[i]),
    ensures
        plain_text(terminated(lines)) == lines,
    decreases lines.len(),
{
    if lines.len() == 0 {
        assert(plain_text(terminated(lines)) =~= lines);
    } else {
        let tail = lines.drop_first();
        assert forall|i: int| 0 <= i < tail.len() implies is_line(#[trigger] tail[i]) by {
            assert(tail[i] == lines[i + 1]);
        }
        lemma_lines_round_trip(tail);
        lemma_first_line(lines.first(), terminated(tail));
        assert(seq![lines.first()] + tail =~= lines);
    }
}

/// The line feed after the last line may be left out where that line is not
/// empty: the buffer is still extracted as exactly the given lines.
pub proof fn lemma_last_feed_is_optional(lines: Seq<Seq<char>>)
    requires
        forall|i: int| 0 <= i < lines.len() ==> is_line(#[trigger] lines[i]),
        lines.len() > 0,
        lines.last().len() > 0,
    ensures
        terminated(lines).len() > 0,
        plain_text(terminated(lines).drop_last()) == lines,
    decreases lines.len(),
{
    let line = lines.first();
    let bytes = encode_utf8(line);
    let tail = lines.drop_first();
    if tail.len() == 0 {
        assert(terminated(tail) =~= Seq::<u8>::empty());
        assert(terminated(lines).drop_last() =~= bytes);
        assert(line == lines.last());
        lemma_bytes_of_line(line);
        lemma_line_end_is_first_feed(bytes, bytes.len() as int);
        assert(byte_lines(bytes) =~= seq![bytes]);
        encode_utf8_valid_utf8(line);
        encode_utf8_decode_utf8(line);
        assert(plain_text(bytes) =~= lines);
    } else {
        assert forall|i: int| 0 <= i < tail.len() implies is_line(#[trigger] tail[i]) by {
            assert(tail[i] == lines[i + 1]);
        }
        assert(tail.last() == lines.last());
        lemma_last_feed_is_optional(tail);
        let rest = terminated(tail).drop_last();
        assert(terminated(lines).drop_last() =~= bytes + seq![LINE_FEED] + rest);
        lemma_first_line(line, rest);
        assert(seq![line] + tail =~= lines);
    }
}

} // verus!
