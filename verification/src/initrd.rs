//! The piece that is appended to the installer's initial RAM disk: a compressed archive
//! with the preseed configuration as its only file.
//!
//! The kernel unpacks the concatenation of such pieces into one file system.

use crate::error::BuildError;
use vstd::prelude::*;
use vstd::utf8::{encode_utf8, is_ascii_chars_encode_utf8};

verus! {

/// The name under which the installer looks for its configuration.
pub const PRESEED_NAME: &'static str = "preseed.cfg";

/// Mode of the file: a regular one, which its owner may write and everyone may read.
pub const PRESEED_MODE: u32 = 0o100644;

/// The error of an operation on a byte stream.
#[verifier::external_type_specification]
#[verifier::external_body]
pub struct ExIoError(std::io::Error);

/// The gzip stream that `flate2::write::GzEncoder` makes, at its best level, of what
/// `cpio::write_cpio` writes into it for one file.
pub uninterp spec fn packed_file(name: Seq<char>, mode: u32, content: Seq<u8>) -> Seq<u8>;

/// The data that `flate2::read::GzDecoder` reads from a gzip stream.
pub uninterp spec fn gunzip(stream: Seq<u8>) -> Seq<u8>;

/// The next multiple of four.
pub open spec fn aligned(n: int) -> int {
    (n + 3) / 4 * 4
}

/// `bytes` with zero bytes behind them, up to a multiple of four.
pub open spec fn filled(bytes: Seq<u8>) -> Seq<u8> {
    bytes + Seq::new((aligned(bytes.len() as int) - bytes.len()) as nat, |i: int| 0u8)
}

/// `n` as `digits` lower-case hexadecimal digits in ASCII.
pub open spec fn hex(n: int, digits: nat) -> Seq<u8>
    decreases digits,
{
    if digits == 0 {
        Seq::empty()
    } else {
        let d = n % 16;
        hex(n / 16, (digits - 1) as nat).push(
            (if d < 10 {
                48 + d
            } else {
                87 + d
            }) as u8,
        )
    }
}

/// The numbers that head an entry, in their order: inode, mode, user, group, links, time,
/// size, two numbers of a device, two more of one, length of the name, checksum.
pub open spec fn newc_numbers(mode: int, size: nat, name_size: nat) -> Seq<int> {
    seq![0int, mode, 0, 0, 1, 0, size as int, 0, 0, 0, 0, name_size as int, 0]
}

/// Numbers one behind the other, each of eight hexadecimal digits.
pub open spec fn newc_digits(numbers: Seq<int>) -> Seq<u8>
    decreases numbers.len(),
{
    if numbers.len() == 0 {
        Seq::empty()
    } else {
        newc_digits(numbers.drop_last()) + hex(numbers.last(), 8)
    }
}

/// An entry of a `newc` archive: six bytes of mark, thirteen numbers, the name with a zero
/// byte behind it, and the content, the latter two filled up to a multiple of four bytes.
pub open spec fn newc_entry(name: Seq<u8>, mode: int, content: Seq<u8>) -> Seq<u8> {
    filled(
        seq![48u8, 55u8, 48u8, 55u8, 48u8, 49u8] + newc_digits(
            newc_numbers(mode, content.len(), name.len() + 1),
        ) + name.push(0),
    ) + filled(content)
}

/// The `newc` archive of one file: its entry, and the one that ends an archive.
pub open spec fn newc_archive(name: Seq<char>, mode: u32, content: Seq<u8>) -> Seq<u8> {
    newc_entry(encode_utf8(name), mode as int, content) + newc_entry(
        encode_utf8("TRAILER!!!"@),
        0,
        Seq::empty(),
    )
}

/// The number that `digits`, lower-case hexadecimal digits in ASCII, stand for.
pub open spec fn hex_value(digits: Seq<u8>) -> int
    decreases digits.len(),
{
    if digits.len() == 0 {
        0
    } else {
        let d = digits.last();
        16 * hex_value(digits.drop_last()) + if d <= 57 {
            d - 48
        } else {
            d - 87
        }
    }
}

/// The number in field `k` of the entry that starts at `at`.
pub open spec fn newc_field(archive: Seq<u8>, at: int, k: int) -> int {
    hex_value(archive.subrange(at + 6 + 8 * k, at + 14 + 8 * k))
}

/// Where the content of an entry starts that starts at `at` and is named by `name_len` bytes.
pub open spec fn content_start(at: int, name_len: int) -> int {
    at + aligned(110 + name_len + 1)
}

/// Whoever reads the archive at `at` finds an entry there with this name, mode and content.
pub open spec fn has_entry(
    archive: Seq<u8>,
    at: int,
    name: Seq<u8>,
    mode: int,
    content: Seq<u8>,
) -> bool {
    let start = content_start(at, name.len() as int);
    &&& 0 <= at && aligned(start + content.len()) <= archive.len()
    &&& archive.subrange(at, at + 6) == seq![48u8, 55u8, 48u8, 55u8, 48u8, 49u8]
    &&& newc_field(archive, at, 1) == mode
    &&& newc_field(archive, at, 6) == content.len()
    &&& newc_field(archive, at, 11) == name.len() + 1
    &&& archive.subrange(at + 110, at + 110 + name.len()) == name
    &&& archive[at + 110 + name.len()] == 0
    &&& archive.subrange(start, start + content.len()) == content
}

/// The archive holds one file and then the entry that ends an archive.
pub open spec fn holds_only(
    archive: Seq<u8>,
    name: Seq<char>,
    mode: u32,
    content: Seq<u8>,
) -> bool {
    let end = aligned(content_start(0, encode_utf8(name).len() as int) + content.len());
    &&& has_entry(archive, 0, encode_utf8(name), mode as int, content)
    &&& has_entry(archive, end, encode_utf8("TRAILER!!!"@), 0, Seq::empty())
    &&& archive.len() == end + 124
}

/// The first number that does not fit into `digits` hexadecimal digits.
pub open spec fn hex_limit(digits: nat) -> int
    decreases digits,
{
    if digits == 0 {
        1
    } else {
        16 * hex_limit((digits - 1) as nat)
    }
}

/// Digits stand for the number that they were made of, where it fits into them.
proof fn lemma_hex(n: int, digits: nat)
    requires
        0 <= n < hex_limit(digits),
    ensures
        hex(n, digits).len() == digits,
        hex_value(hex(n, digits)) == n,
    decreases digits,
{
    if digits > 0 {
        let rest = (digits - 1) as nat;
        lemma_hex(n / 16, rest);
        assert(hex(n, digits).drop_last() =~= hex(n / 16, rest));
    }
}

/// Each number is found again among the digits of all.
proof fn lemma_newc_digits(numbers: Seq<int>)
    requires
        forall|i: int| 0 <= i < numbers.len() ==> 0 <= #[trigger] numbers[i] <= u32::MAX,
    ensures
        newc_digits(numbers).len() == 8 * numbers.len(),
        forall|i: int|
            0 <= i < numbers.len() ==> hex_value(
                newc_digits(numbers).subrange(8 * i, 8 * i + 8),
            ) == #[trigger] numbers[i],
    decreases numbers.len(),
{
    if numbers.len() > 0 {
        let before = numbers.drop_last();
        let all = newc_digits(numbers);
        assert forall|i: int| 0 <= i < before.len() implies 0 <= #[trigger] before[i] <= u32::MAX by {
            assert(before[i] == numbers[i]);
        }
        lemma_newc_digits(before);
        reveal_with_fuel(hex_limit, 9);
        lemma_hex(numbers.last(), 8);
        assert forall|i: int| 0 <= i < numbers.len() implies hex_value(
            all.subrange(8 * i, 8 * i + 8),
        ) == #[trigger] numbers[i] by {
            if i < before.len() {
                assert(all.subrange(8 * i, 8 * i + 8) =~= newc_digits(before).subrange(
                    8 * i,
                    8 * i + 8,
                ));
                assert(before[i] == numbers[i]);
            } else {
                assert(all.subrange(8 * i, 8 * i + 8) =~= hex(numbers.last(), 8));
            }
        }
    }
}

/// Where the parts of an entry stand in it.
proof fn lemma_entry_parts(head: Seq<u8>, name: Seq<u8>, content: Seq<u8>, entry: Seq<u8>)
    requires
        head.len() == 110,
        entry == filled(head + name.push(0)) + filled(content),
    ensures
        entry.len() == aligned(111 + name.len() as int) + aligned(content.len() as int),
        entry.subrange(0, 110) == head,
        entry.subrange(110, 110 + name.len() as int) == name,
        entry[110 + name.len() as int] == 0,
        entry.subrange(
            content_start(0, name.len() as int),
            content_start(0, name.len() as int) + content.len(),
        ) == content,
{
    let first = head + name.push(0);
    let start = content_start(0, name.len() as int);
    assert(first.len() == 111 + name.len());
    assert(filled(first).len() == start);
    assert(filled(first).subrange(0, first.len() as int) =~= first);
    assert(entry.subrange(0, 110) =~= head);
    assert(entry.subrange(110, 110 + name.len() as int) =~= name);
    assert(entry[110 + name.len() as int] == first[110 + name.len() as int]);
    assert(entry.subrange(start, start + content.len()) =~= content);
}

/// A part of a part of a sequence.
proof fn lemma_inner_part(before: Seq<u8>, part: Seq<u8>, after: Seq<u8>, i: int, j: int)
    requires
        0 <= i <= j <= part.len(),
    ensures
        (before + part + after).subrange(before.len() + i, before.len() + j) == part.subrange(i, j),
{
    assert((before + part + after).subrange(before.len() + i, before.len() + j) =~= part.subrange(
        i,
        j,
    ));
}

/// An entry is found in an archive where it stands.
proof fn lemma_entry_is_found(
    before: Seq<u8>,
    name: Seq<u8>,
    mode: int,
    content: Seq<u8>,
    after: Seq<u8>,
)
    requires
        before.len() % 4 == 0,
        name.len() < u32::MAX,
        0 <= mode <= u32::MAX,
        content.len() <= u32::MAX,
    ensures
        newc_entry(name, mode, content).len() == aligned(111 + name.len() as int) + aligned(
            content.len() as int,
        ),
        has_entry(
            before + newc_entry(name, mode, content) + after,
            before.len() as int,
            name,
            mode,
            content,
        ),
{
    let mark = seq![48u8, 55u8, 48u8, 55u8, 48u8, 49u8];
    let numbers = newc_numbers(mode, content.len(), name.len() + 1);
    let digits = newc_digits(numbers);
    let entry = newc_entry(name, mode, content);
    let at = before.len() as int;
    let start = content_start(0, name.len() as int);
    lemma_newc_digits(numbers);
    lemma_entry_parts(mark + digits, name, content, entry);
    assert(numbers[1] == mode && numbers[6] == content.len() && numbers[11] == name.len() + 1);
    assert((mark + digits).skip(6) =~= digits);
    lemma_field(before, entry, after, digits, 1);
    lemma_field(before, entry, after, digits, 6);
    lemma_field(before, entry, after, digits, 11);
    lemma_inner_part(before, entry, after, 0, 6);
    assert(entry.subrange(0, 110).subrange(0, 6) =~= entry.subrange(0, 6));
    assert((mark + digits).subrange(0, 6) =~= mark);
    lemma_inner_part(before, entry, after, 110, 110 + name.len() as int);
    lemma_inner_part(before, entry, after, start, start + content.len());
}

/// The digits of a number are found in an archive where its entry stands.
proof fn lemma_field(before: Seq<u8>, entry: Seq<u8>, after: Seq<u8>, digits: Seq<u8>, k: int)
    requires
        0 <= k < 13,
        digits.len() == 104,
        entry.len() >= 110,
        entry.subrange(0, 110).skip(6) == digits,
    ensures
        newc_field(before + entry + after, before.len() as int, k) == hex_value(
            digits.subrange(8 * k, 8 * k + 8),
        ),
{
    lemma_inner_part(before, entry, after, 6 + 8 * k, 14 + 8 * k);
    assert(entry.subrange(6 + 8 * k, 14 + 8 * k) =~= entry.subrange(0, 110).skip(6).subrange(
        8 * k,
        8 * k + 8,
    ));
}

/// Nothing before two parts, or behind them, changes nothing.
proof fn lemma_nothing_around(first: Seq<u8>, second: Seq<u8>)
    ensures
        Seq::empty() + first + second == first + second,
        first + second + Seq::empty() == first + second,
{
    assert(Seq::empty() + first + second =~= first + second);
    assert(first + second + Seq::empty() =~= first + second);
}

/// Two entries are found one behind the other.
proof fn lemma_two_entries(name: Seq<u8>, mode: int, content: Seq<u8>, last: Seq<u8>)
    requires
        name.len() < u32::MAX,
        0 <= mode <= u32::MAX,
        content.len() <= u32::MAX,
        last.len() == 10,
    ensures
        ({
            let archive = newc_entry(name, mode, content) + newc_entry(last, 0, Seq::empty());
            let end = aligned(content_start(0, name.len() as int) + content.len());
            &&& has_entry(archive, 0, name, mode, content)
            &&& has_entry(archive, end, last, 0, Seq::empty())
            &&& archive.len() == end + 124
        }),
{
    let none = Seq::<u8>::empty();
    let first = newc_entry(name, mode, content);
    let second = newc_entry(last, 0, none);
    lemma_entry_is_found(none, name, mode, content, second);
    lemma_entry_is_found(first, last, 0, none, none);
    lemma_nothing_around(first, second);
}

/// Whoever reads the archive of a file finds that file in it, with its name, mode and
/// content, and then the entry that ends an archive, and nothing else.
pub proof fn law_archive_holds_the_file_alone(name: Seq<char>, mode: u32, content: Seq<u8>)
    requires
        encode_utf8(name).len() < u32::MAX,
        content.len() <= u32::MAX,
    ensures
        holds_only(newc_archive(name, mode, content), name, mode, content),
{
    let last = "TRAILER!!!"@;
    assert(encode_utf8(last).len() == 10) by {
        reveal_strlit("TRAILER!!!");
        is_ascii_chars_encode_utf8(last);
    }
    lemma_two_entries(encode_utf8(name), mode as int, content, encode_utf8(last));
}

/// `cpio::write_cpio` with one `cpio::NewcBuilder`, of the given name and mode, and
/// `content` to be read for it, into a `flate2::write::GzEncoder` at
/// `flate2::Compression::best()`, which is then finished. The stream depends on these
/// values alone: the archive holds no time, and the stream's header no time and no system.
/// Decoding it gives the archive back. The sizes in an archive are numbers of 32 bits;
/// with content and name within them the only errors are those of the writer below the
/// encoder, which is a vector and has none.
#[verifier::external_body]
fn pack_file(name: &str, mode: u32, content: &[u8]) -> (r: Result<Vec<u8>, std::io::Error>)
    requires
        encode_utf8(name@).len() < u32::MAX,
        content@.len() <= u32::MAX,
    ensures
        r is Ok,
        r->Ok_0@ == packed_file(name@, mode, content@),
        gunzip(r->Ok_0@) == newc_archive(name@, mode, content@),
{
    let mut encoder = flate2::write::GzEncoder::new(Vec::new(), flate2::Compression::best());
    let entry = cpio::NewcBuilder::new(name).mode(mode);
    let input = vec![(entry, std::io::Cursor::new(content))];
    cpio::write_cpio(input.into_iter(), &mut encoder)?;
    encoder.finish()
}

/// What `preseed_member` gives for the configuration `text`.
pub open spec fn member_result(text: Seq<char>) -> Result<Seq<u8>, BuildError> {
    let content = encode_utf8(text);
    if content.len() > u32::MAX {
        Err(BuildError::PreseedTooLarge)
    } else {
        Ok(packed_file(PRESEED_NAME@, PRESEED_MODE, content))
    }
}

/// The piece to append to the initial RAM disk for the configuration `text`. There is one
/// unless the text is too large for an archive.
///
/// Decoded, it is an archive with `text` as its only file, under the name under which
/// the installer looks for it.
pub fn preseed_member(text: &str) -> (r: Result<Vec<u8>, BuildError>)
    ensures
        match (member_result(text@), r) {
            (Ok(stream), Ok(v)) => v@ == stream,
            (Err(e), Err(f)) => e == f,
            _ => false,
        },
        r matches Ok(v) ==> gunzip(v@) == newc_archive(
            PRESEED_NAME@,
            PRESEED_MODE,
            encode_utf8(text@),
        ),
{
    proof {
        reveal_strlit("preseed.cfg");
        is_ascii_chars_encode_utf8(PRESEED_NAME@);
    }
    let content = text.as_bytes();
    if content.len() as u64 > 0xffff_ffff {
        return Err(BuildError::PreseedTooLarge);
    }
    match pack_file(PRESEED_NAME, PRESEED_MODE, content) {
        Err(_) => Err(BuildError::ArchiveFailed),
        Ok(stream) => Ok(stream),
    }
}

/// The piece for a configuration is the packed file `preseed.cfg` of a mode that lets its
/// owner write and everyone read, with the whole text in it; there is one for each text
/// whose length is a number of 32 bits, and for no other.
pub proof fn law_member_is_the_packed_configuration(text: Seq<char>)
    ensures
        encode_utf8(text).len() <= 0xffff_ffff ==> member_result(text) == Ok::<_, BuildError>(
            packed_file("preseed.cfg"@, 0o100644, encode_utf8(text)),
        ),
        encode_utf8(text).len() > 0xffff_ffff ==> member_result(text) == Err::<Seq<u8>, _>(
            BuildError::PreseedTooLarge,
        ),
{
}

} // verus!
