//! Facts about UTF-8 text that relate the characters of a string to its bytes,
//! and string comparisons carried out on the byte level.
use vstd::prelude::*;
use vstd::utf8::*;

verus! {

/// Two character sequences with the same UTF-8 encoding are the same sequence.
pub proof fn lemma_encoding_is_injective(a: Seq<char>, b: Seq<char>)
    requires
        encode_utf8(a) == encode_utf8(b),
    ensures
        a == b,
{
    encode_utf8_decode_utf8(a);
    encode_utf8_decode_utf8(b);
}

/// The encoding of a concatenation is the concatenation of the encodings.
pub proof fn lemma_encoding_distributes(a: Seq<char>, b: Seq<char>)
    ensures
        encode_utf8(a + b) == encode_utf8(a) + encode_utf8(b),
    decreases a.len(),
{
    if a.len() == 0 {
        assert(a + b =~= b);
        assert(encode_utf8(a) + encode_utf8(b) =~= encode_utf8(b));
    } else {
        lemma_encoding_distributes(a.drop_first(), b);
        assert((a + b).drop_first() =~= a.drop_first() + b);
        assert(encode_utf8(a + b) =~= encode_utf8(a) + encode_utf8(b));
    }
}

proof fn lemma_single_byte(s: u32)
    by (bit_vector)
    requires
        s <= 0x7F,
    ensures
        leading_byte_width_1(s) == s,
{
}

proof fn lemma_high_bytes(s: u32)
    by (bit_vector)
    ensures
        leading_byte_width_2(s) >= 0x80,
        leading_byte_width_3(s) >= 0x80,
        leading_byte_width_4(s) >= 0x80,
        last_continuation_byte(s) >= 0x80,
        second_last_continuation_byte(s) >= 0x80,
        third_last_continuation_byte(s) >= 0x80,
{
}

/// The encoding of one character is the character itself where it is ASCII,
/// and holds no ASCII byte where it is not.
pub proof fn lemma_bytes_of_char(c: char)
    ensures
        ({
            let bytes = encode_scalar(c as u32);
            &&& bytes.len() >= 1
            &&& (c as u32) < 0x80 ==> bytes == seq![(c as u32) as u8]
            &&& (c as u32) >= 0x80 ==> forall|k: int| 0 <= k < bytes.len() ==> #[trigger] bytes[k] >= 0x80
        }),
{
    let s = c as u32;
    if s < 0x80 {
        lemma_single_byte(s);
        assert(encode_scalar(s) =~= seq![s as u8]);
    } else {
        lemma_high_bytes(s);
    }
}

/// Where the encoding of a text ends in an ASCII byte, the text ends in the
/// character with that code, and the bytes before it encode the text before
/// it.
pub proof fn lemma_ascii_at_end(text: Seq<char>)
    requires
        encode_utf8(text).len() > 0,
        encode_utf8(text).last() < 0x80,
    ensures
        text.len() > 0,
        text.last() as u32 == encode_utf8(text).last(),
        encode_utf8(text.drop_last()) == encode_utf8(text).drop_last(),
    decreases text.len(),
{
    let first = text[0];
    let head = encode_scalar(first as u32);
    let rest = text.drop_first();
    let tail = encode_utf8(rest);
    lemma_bytes_of_char(first);
    assert(encode_utf8(text) == head + tail);
    if tail.len() == 0 {
        if rest.len() > 0 {
            lemma_bytes_of_char(rest[0]);
        }
        assert(head + tail =~= head);
        assert(head[head.len() - 1] < 0x80);
        assert(text.drop_last() =~= Seq::<char>::empty());
        assert(encode_utf8(text).drop_last() =~= Seq::<u8>::empty());
    } else {
        assert((head + tail).last() == tail.last());
        lemma_ascii_at_end(rest);
        assert(text.last() == rest.last());
        assert(text.drop_last() =~= seq![first] + rest.drop_last());
        assert((seq![first] + rest.drop_last()).drop_first() =~= rest.drop_last());
        assert((head + tail).drop_last() =~= head + tail.drop_last());
    }
}

/// An ASCII byte occurs in the encoding of a text exactly where the character
/// with that code occurs in the text.
pub proof fn lemma_ascii_byte_occurs(text: Seq<char>, byte: u8)
    requires
        byte < 0x80,
    ensures
        encode_utf8(text).contains(byte) <==> text.contains(byte as char),
    decreases text.len(),
{
    let letter = byte as char;
    if text.len() > 0 {
        let first = text[0];
        let head = encode_scalar(first as u32);
        let rest = text.drop_first();
        let tail = encode_utf8(rest);
        lemma_bytes_of_char(first);
        lemma_ascii_byte_occurs(rest, byte);
        char_u32_cast(first, first as u32);
        assert(encode_utf8(text) == head + tail);
        if (head + tail).contains(byte) {
            let k = choose|k: int| 0 <= k < (head + tail).len() && (head + tail)[k] == byte;
            if k < head.len() {
                assert(head[k] == byte);
                assert(first == letter);
            } else {
                assert(tail[k - head.len()] == byte);
                assert(tail.contains(byte));
                let j = choose|j: int| 0 <= j < rest.len() && rest[j] == letter;
                assert(text[j + 1] == letter);
            }
        }
        if text.contains(letter) {
            let i = choose|i: int| 0 <= i < text.len() && text[i] == letter;
            if i == 0 {
                assert((head + tail)[0] == byte);
            } else {
                assert(rest[i - 1] == letter);
                assert(rest.contains(letter));
                let k = choose|k: int| 0 <= k < tail.len() && tail[k] == byte;
                assert((head + tail)[head.len() + k] == byte);
            }
        }
    }
}

/// The character sequences behind a sequence of strings.
pub open spec fn texts(strings: Seq<String>) -> Seq<Seq<char>> {
    strings.map_values(|s: String| s@)
}

/// Whether two byte slices hold the same bytes.
pub fn same_bytes(a: &[u8], b: &[u8]) -> (same: bool)
    ensures
        same == (a@ == b@),
{
    if a.len() != b.len() {
        return false;
    }
    let mut i: usize = 0;
    while i < a.len()
        invariant
            a.len() == b.len(),
            i <= a.len(),
            forall|k: int| 0 <= k < i ==> a@[k] == b@[k],
        decreases a.len() - i,
    {
        if a[i] != b[i] {
            return false;
        }
        i += 1;
    }
    assert(a@ =~= b@);
    true
}

/// Whether two strings hold the same characters.
pub fn same_text(a: &str, b: &str) -> (same: bool)
    ensures
        same == (a@ == b@),
{
    let same = same_bytes(a.as_bytes(), b.as_bytes());
    proof {
        if same {
            lemma_encoding_is_injective(a@, b@);
        }
    }
    same
}

} // verus!
