//! Zip containers: the text of a container is the text of its members whose
//! names end in `.xml`, in the order of the directory.
use std::io::Cursor;
use std::io::Read;
use vstd::prelude::*;
use vstd::utf8::*;
use zip::ZipArchive;
use crate::encoding::{lemma_ascii_at_end, lemma_encoding_distributes, texts};
use crate::error::{outcome, ExtractionError, Failure};

verus! {

/// `zip::ZipArchive`: an open archive, opaque but for what the wrappers below
/// say of its members.
#[verifier::external_type_specification]
#[verifier::external_body]
#[verifier::reject_recursive_types(R)]
pub struct ExZipArchive<R>(ZipArchive<R>);

/// `std::io::Cursor`: the reader over a buffer that the archive is opened on.
#[verifier::external_type_specification]
#[verifier::external_body]
#[verifier::reject_recursive_types(T)]
pub struct ExCursor<T>(Cursor<T>);

/// What the logic reads of one member of an archive. Where something cannot
/// be had, the reader's account of the failure stands in its place.
pub struct Member {
    /// The name under which the directory lists the member. It is read by
    /// index, which goes by way of the member's local header: where that
    /// header is not found, the name is not to be had.
    pub name: Result<Seq<char>, Seq<char>>,
    /// The contents of the member as text: not to be had where the member
    /// cannot be opened, cannot be read to its end, or is not UTF-8.
    pub text: Result<Seq<char>, Seq<char>>,
}

/// The members of the zip container that a buffer holds, in the order of its
/// directory, or the reader's account of why the buffer has no directory that
/// can be read.
pub uninterp spec fn zip_directory(buffer: Seq<u8>) -> Result<Seq<Member>, Seq<char>>;

/// The members of an open archive, in the order of its directory.
pub uninterp spec fn members_of(archive: ZipArchive<Cursor<&[u8]>>) -> Seq<Member>;

/// A result of the reader as plain values.
pub open spec fn read_view(read: Result<String, String>) -> Result<Seq<char>, Seq<char>> {
    match read {
        Ok(text) => Ok(text@),
        Err(account) => Err(account@),
    }
}

/// `ZipArchive::new` on a cursor over the buffer; a failure is turned into
/// its text.
///
/// The call reads the directory at the end of the buffer and fails where there
/// is none that it can read. It is a function of the bytes: the contract names
/// the members it finds, or the account of its failure, `zip_directory`.
#[verifier::external_body]
fn open_archive<'a>(buffer: &'a [u8]) -> (opened: Result<ZipArchive<Cursor<&'a [u8]>>, String>)
    ensures
        match opened {
            Ok(archive) => zip_directory(buffer@) == Ok::<Seq<Member>, Seq<char>>(
                members_of(archive),
            ),
            Err(account) => zip_directory(buffer@) == Err::<Seq<Member>, Seq<char>>(account@),
        },
{
    match ZipArchive::new(Cursor::new(buffer)) {
        Ok(archive) => Ok(archive),
        Err(error) => Err(error.to_string()),
    }
}

/// `ZipArchive::len`: the number of entries in the directory.
#[verifier::external_body]
fn member_count(archive: &ZipArchive<Cursor<&[u8]>>) -> (count: usize)
    ensures
        count == members_of(*archive).len(),
{
    archive.len()
}

/// The name of the member at `index`, from `ZipArchive::by_index_raw` and
/// `ZipFile::name`; a failure is turned into its text.
///
/// `by_index_raw` seeks the member's local header and neither decrypts nor
/// decompresses: it fails only where that header is not found. Seeking moves
/// the cursor and nothing else: the members stay what they were.
#[verifier::external_body]
fn member_name(archive: &mut ZipArchive<Cursor<&[u8]>>, index: usize) -> (name: Result<
    String,
    String,
>)
    requires
        index < members_of(*old(archive)).len(),
    ensures
        members_of(*final(archive)) == members_of(*old(archive)),
        read_view(name) == members_of(*old(archive))[index as int].name,
{
    match archive.by_index_raw(index) {
        Ok(file) => Ok(file.name().to_string()),
        Err(error) => Err(error.to_string()),
    }
}

/// The contents of the member at `index` as text, from
/// `ZipArchive::by_index_decrypt` with an empty password and
/// `Read::read_to_string`; a failure is turned into its text.
///
/// For a member that is not encrypted the password is ignored and the member
/// is opened as `by_index` opens it, but for a refusal where `by_index` would
/// abort. The member is read from its start to its end, decompressed and
/// checked against its checksum. The call fails where the member cannot be
/// opened, where reading fails, and where the contents are not UTF-8.
#[verifier::external_body]
fn member_text(archive: &mut ZipArchive<Cursor<&[u8]>>, index: usize) -> (text: Result<
    String,
    String,
>)
    requires
        index < members_of(*old(archive)).len(),
    ensures
        members_of(*final(archive)) == members_of(*old(archive)),
        read_view(text) == members_of(*old(archive))[index as int].text,
{
    let mut text = String::new();
    match archive.by_index_decrypt(index, &[]) {
        Ok(Ok(mut file)) => match file.read_to_string(&mut text) {
            Ok(_) => Ok(text),
            Err(error) => Err(error.to_string()),
        },
        Ok(Err(refusal)) => Err(refusal.to_string()),
        Err(error) => Err(error.to_string()),
    }
}

/// The suffix that marks a member as an XML part.
pub open spec fn xml_suffix() -> Seq<char> {
    seq!['.', 'x', 'm', 'l']
}

/// Whether a name ends in `.xml`.
pub open spec fn is_xml_name(name: Seq<char>) -> bool {
    name.len() >= 4 && name.subrange(name.len() - 4, name.len() as int) == xml_suffix()
}

/// Whether a member is an XML part: it has a name, and the name ends in
/// `.xml`.
pub open spec fn is_xml_part(member: Member) -> bool {
    member.name matches Ok(name) && is_xml_name(name)
}

/// Whether a member has a name that does not end in `.xml`. Such a member is
/// passed over, whatever its contents are and whether or not it can be opened.
pub open spec fn is_other_part(member: Member) -> bool {
    member.name matches Ok(name) && !is_xml_name(name)
}

/// The blocks `front`, followed by what `rest` gives.
pub open spec fn preceded_by(front: Seq<Seq<char>>, rest: Result<Seq<Seq<char>>, Failure>) -> Result<
    Seq<Seq<char>>,
    Failure,
> {
    match rest {
        Ok(blocks) => Ok(front + blocks),
        Err(failure) => Err(failure),
    }
}

/// The text blocks of an archive with the given members: the contents of its
/// XML parts in the order of the directory. The extraction fails at the first
/// member whose name is not to be had and at the first XML part whose text is
/// not to be had, with the account of that failure; members with any other
/// name are passed over.
pub open spec fn archive_text(members: Seq<Member>) -> Result<Seq<Seq<char>>, Failure>
    decreases members.len(),
{
    if members.len() == 0 {
        Ok(Seq::empty())
    } else {
        let rest = archive_text(members.drop_first());
        match members.first().name {
            Err(account) => Err(Failure::MemberRead(account)),
            Ok(name) => if is_xml_name(name) {
                match members.first().text {
                    Err(account) => Err(Failure::MemberRead(account)),
                    Ok(text) => preceded_by(seq![text], rest),
                }
            } else {
                rest
            },
        }
    }
}

/// The text blocks of the zip container that a buffer holds.
pub open spec fn zip_text(buffer: Seq<u8>) -> Result<Seq<Seq<char>>, Failure> {
    match zip_directory(buffer) {
        Ok(members) => archive_text(members),
        Err(account) => Err(Failure::ArchiveOpen(account)),
    }
}

/// A member whose name does not end in `.xml` has no part in the result: the
/// archive without it gives the same blocks, or the same failure.
pub proof fn lemma_other_members_are_skipped(members: Seq<Member>, index: int)
    requires
        0 <= index < members.len(),
        is_other_part(members[index]),
    ensures
        archive_text(members) == archive_text(members.remove(index)),
    decreases index,
{
    if index == 0 {
        assert(members.remove(0) =~= members.drop_first());
    } else {
        let shorter = members.remove(index);
        assert(shorter.first() == members.first());
        assert(shorter.drop_first() =~= members.drop_first().remove(index - 1));
        assert(members.drop_first()[index - 1] == members[index]);
        lemma_other_members_are_skipped(members.drop_first(), index - 1);
    }
}

/// Where every member has a name and every XML part has text, the extraction
/// succeeds.
pub proof fn lemma_readable_archive_is_extracted(members: Seq<Member>)
    requires
        forall|i: int| 0 <= i < members.len() ==> (#[trigger] members[i]).name is Ok,
        forall|i: int|
            0 <= i < members.len() && is_xml_part(#[trigger] members[i]) ==> members[i].text is Ok,
    ensures
        archive_text(members) is Ok,
    decreases members.len(),
{
    if members.len() > 0 {
        let rest = members.drop_first();
        assert forall|i: int| 0 <= i < rest.len() implies (#[trigger] rest[i]).name is Ok by {
            assert(rest[i] == members[i + 1]);
        }
        assert forall|i: int| 0 <= i < rest.len() && is_xml_part(
            #[trigger] rest[i],
        ) implies rest[i].text is Ok by {
            assert(rest[i] == members[i + 1]);
        }
        lemma_readable_archive_is_extracted(rest);
        assert(members.first() == members[0]);
    }
}

/// Whether a byte sequence ends in the four bytes of `.xml`.
pub open spec fn ends_in_xml_bytes(bytes: Seq<u8>) -> bool {
    &&& bytes.len() >= 4
    &&& bytes[bytes.len() - 4] == 0x2E
    &&& bytes[bytes.len() - 3] == 0x78
    &&& bytes[bytes.len() - 2] == 0x6D
    &&& bytes[bytes.len() - 1] == 0x6C
}

/// A name ends in `.xml` exactly where its encoding ends in the bytes of
/// `.xml`.
pub proof fn lemma_xml_suffix_on_bytes(name: Seq<char>)
    ensures
        is_xml_name(name) <==> ends_in_xml_bytes(encode_utf8(name)),
{
    let bytes = encode_utf8(name);
    if is_xml_name(name) {
        let stem = name.take(name.len() - 4);
        let suffix = xml_suffix();
        assert(name =~= stem + suffix);
        lemma_encoding_distributes(stem, suffix);
        assert(is_ascii_chars(suffix));
        is_ascii_chars_encode_utf8(suffix);
        let tail = encode_utf8(suffix);
        assert(tail[0] == 0x2E && tail[1] == 0x78 && tail[2] == 0x6D && tail[3] == 0x6C) by {
            assert(suffix[0] == '.' && suffix[1] == 'x' && suffix[2] == 'm' && suffix[3] == 'l');
        }
        let head = encode_utf8(stem);
        assert(bytes == head + tail);
        assert(bytes[bytes.len() - 4] == tail[0]);
        assert(bytes[bytes.len() - 3] == tail[1]);
        assert(bytes[bytes.len() - 2] == tail[2]);
        assert(bytes[bytes.len() - 1] == tail[3]);
    }
    if ends_in_xml_bytes(bytes) {
        let n3 = name.drop_last();
        let n2 = n3.drop_last();
        let n1 = n2.drop_last();
        lemma_ascii_at_end(name);
        lemma_ascii_at_end(n3);
        lemma_ascii_at_end(n2);
        lemma_ascii_at_end(n1);
        let len = name.len() as int;
        assert(name[len - 1] == name.last());
        assert(name[len - 2] == n3.last());
        assert(name[len - 3] == n2.last());
        assert(name[len - 4] == n1.last());
        char_u32_cast(name[len - 1], 0x6C);
        char_u32_cast(name[len - 2], 0x6D);
        char_u32_cast(name[len - 3], 0x78);
        char_u32_cast(name[len - 4], 0x2E);
        assert(0x6Cu32 as char == 'l' && 0x6Du32 as char == 'm' && 0x78u32 as char == 'x'
            && 0x2Eu32 as char == '.');
        assert(name.subrange(len - 4, len) =~= xml_suffix());
    }
}

/// Whether a member name ends in the literal suffix `.xml`.
pub fn has_xml_suffix(name: &str) -> (xml: bool)
    ensures
        xml == is_xml_name(name@),
{
    let bytes = name.as_bytes();
    let len = bytes.len();
    proof {
        lemma_xml_suffix_on_bytes(name@);
    }
    len >= 4 && bytes[len - 4] == 0x2E && bytes[len - 3] == 0x78 && bytes[len - 2] == 0x6D
        && bytes[len - 1] == 0x6C
}

/// Extracts the text blocks of a zip container: the contents of each member
/// whose name ends in `.xml`, in the order of the directory; members with
/// other names are passed over unopened. Fails with `ArchiveOpen` where the
/// buffer has no readable directory, and with `MemberRead` at the first member
/// whose name cannot be had or whose name ends in `.xml` while its contents
/// cannot be read as text; no partial result is returned.
pub fn archive_blocks(buffer: &[u8]) -> (result: Result<Vec<String>, ExtractionError>)
    ensures
        outcome(result) == zip_text(buffer@),
{
    let mut archive = match open_archive(buffer) {
        Ok(archive) => archive,
        Err(account) => {
            return Err(ExtractionError::ArchiveOpen(account));
        },
    };
    let ghost members = members_of(archive);
    let count = member_count(&archive);
    let mut blocks: Vec<String> = Vec::new();
    let mut index: usize = 0;
    assert(members.skip(0) =~= members);
    assert(texts(blocks@) =~= Seq::<Seq<char>>::empty());
    assert(preceded_by(texts(blocks@), archive_text(members)) == archive_text(members)) by {
        if archive_text(members) is Ok {
            assert(texts(blocks@) + archive_text(members)->Ok_0 =~= archive_text(members)->Ok_0);
        }
    }
    while index < count
        invariant
            zip_directory(buffer@) == Ok::<Seq<Member>, Seq<char>>(members),
            members_of(archive) == members,
            count == members.len(),
            index <= count,
            archive_text(members) == preceded_by(
                texts(blocks@),
                archive_text(members.skip(index as int)),
            ),
        decreases count - index,
    {
        proof {
            let left = members.skip(index as int);
            assert(left.first() == members[index as int]);
            assert(left.drop_first() =~= members.skip(index + 1));
        }
        let name = match member_name(&mut archive, index) {
            Ok(name) => name,
            Err(account) => {
                return Err(ExtractionError::MemberRead(account));
            },
        };
        if has_xml_suffix(name.as_str()) {
            let text = match member_text(&mut archive, index) {
                Ok(text) => text,
                Err(account) => {
                    return Err(ExtractionError::MemberRead(account));
                },
            };
            proof {
                let rest = archive_text(members.skip(index + 1));
                assert(texts(blocks@.push(text)) =~= texts(blocks@).push(text@));
                if rest is Ok {
                    assert(texts(blocks@) + (seq![text@] + rest->Ok_0) =~= texts(blocks@).push(
                        text@,
                    ) + rest->Ok_0);
                }
            }
            blocks.push(text);
        }
        index += 1;
    }
    assert(members.skip(index as int) =~= Seq::<Member>::empty());
    assert(texts(blocks@) + Seq::<Seq<char>>::empty() =~= texts(blocks@));
    Ok(blocks)
}

} // verus!
