//! The Debian mirror: which image is the latest, and where it is.

use crate::error::BuildError;
use crate::text::{
    contains, ends_with, found_in, is_whitespace, law_newline_ends_a_line,
    law_white_space_parts_fields, lines, split_lines, split_words, starts_with, to_chars, to_text,
    words,
};
use vstd::prelude::*;

verus! {

/// Where the mirror keeps the current DVD images.
pub const BASE_URL: &'static str = "https://cdimage.debian.org/debian-cd/current/amd64/iso-dvd";

/// The address of the mirror's list of checksums.
pub open spec fn sums_url_text() -> Seq<char> {
    BASE_URL@ + "/SHA512SUMS"@
}

/// `name` is the name of a plain first DVD image.
pub open spec fn is_first_dvd(name: Seq<char>) -> bool {
    &&& "debian-"@.is_prefix_of(name)
    &&& "-amd64-DVD-1.iso"@.is_suffix_of(name)
    &&& !contains(name, "-mac-"@)
    &&& !contains(name, "-edu-"@)
}

/// `line` is a checksum and the name of a plain first DVD image.
pub open spec fn lists_first_dvd(line: Seq<char>) -> bool {
    words(line).len() == 2 && is_first_dvd(words(line)[1])
}

/// The image named by the first line of `ls` that lists one.
pub open spec fn first_listed(ls: Seq<Seq<char>>) -> Option<Seq<char>>
    decreases ls.len(),
{
    if ls.len() == 0 {
        None
    } else if lists_first_dvd(ls[0]) {
        Some(words(ls[0])[1])
    } else {
        first_listed(ls.skip(1))
    }
}

/// The address of the image `name` on the mirror.
pub open spec fn image_url(name: Seq<char>) -> Seq<char> {
    BASE_URL@ + seq!['/'] + name
}

/// The address of the mirror's list of checksums.
pub fn sums_url() -> (r: String)
    ensures
        r@ == sums_url_text(),
{
    let mut out = BASE_URL.to_owned();
    out.append("/SHA512SUMS");
    out
}

/// Whether `name` is the name of a plain first DVD image.
pub fn names_first_dvd(name: &[char]) -> (r: bool)
    ensures
        r == is_first_dvd(name@),
{
    starts_with(name, &to_chars("debian-")) && ends_with(name, &to_chars("-amd64-DVD-1.iso"))
        && !found_in(name, &to_chars("-mac-")) && !found_in(name, &to_chars("-edu-"))
}

/// The name of the image in a list of checksums: the second field of the first line
/// that has two fields, the second of which names a plain first DVD image.
pub fn find_iso_name(sums_text: &str) -> (r: Option<String>)
    ensures
        match r {
            Some(name) => first_listed(lines(sums_text@)) == Some(name@),
            None => first_listed(lines(sums_text@)) is None,
        },
{
    let ghost ls = lines(sums_text@);
    let sums_lines = split_lines(sums_text);
    let mut i: usize = 0;
    assert(ls.skip(0) == ls);
    while i < sums_lines.len()
        invariant
            i <= sums_lines.len(),
            sums_lines.deep_view() == ls,
            ls == lines(sums_text@),
            first_listed(ls) == first_listed(ls.skip(i as int)),
        decreases sums_lines.len() - i,
    {
        let line = &sums_lines[i];
        let parts = split_words(line.as_slice());
        proof {
            assert(line.deep_view() == line@);
            assert(line@ == ls[i as int]);
            assert(ls.skip(i as int)[0] == line@);
            assert(ls.skip(i as int).skip(1) == ls.skip(i + 1));
            assert(parts.deep_view().len() == parts@.len());
        }
        if parts.len() == 2 {
            let name = &parts[1];
            assert(name.deep_view() == name@);
            assert(name@ == words(line@)[1]);
            if names_first_dvd(name.as_slice()) {
                return Some(to_text(name.as_slice()));
            }
        }
        i += 1;
    }
    assert(ls.skip(i as int) == Seq::<Seq<char>>::empty());
    None
}

/// The address of the latest stable first DVD image, from the text of the mirror's list
/// of checksums.
pub fn get_latest_debian_iso_url(sums_text: &str) -> (r: Result<String, BuildError>)
    ensures
        match (first_listed(lines(sums_text@)), r) {
            (Some(name), Ok(url)) => url@ == image_url(name),
            (None, Err(e)) => e == BuildError::NoIsoListed,
            _ => false,
        },
{
    match find_iso_name(sums_text) {
        Some(name) => {
            let mut url = BASE_URL.to_owned();
            url.push('/');
            url.append(name.as_str());
            assert(url@ == image_url(name@));
            Ok(url)
        },
        None => Err(BuildError::NoIsoListed),
    }
}

/// A listed image comes from the first line that lists one: that line lists it, and no
/// earlier line lists any. Where none is found, no line lists any.
pub proof fn law_first_listed_line_decides(ls: Seq<Seq<char>>)
    ensures
        match first_listed(ls) {
            Some(name) => exists|i: int|
                0 <= i < ls.len() && lists_first_dvd(#[trigger] ls[i]) && words(ls[i])[1] == name
                    && forall|j: int| 0 <= j < i ==> !lists_first_dvd(#[trigger] ls[j]),
            None => forall|j: int| 0 <= j < ls.len() ==> !lists_first_dvd(#[trigger] ls[j]),
        },
    decreases ls.len(),
{
    if ls.len() > 0 && !lists_first_dvd(ls[0]) {
        let rest = ls.skip(1);
        law_first_listed_line_decides(rest);
        match first_listed(rest) {
            Some(name) => {
                let i = choose|i: int|
                    0 <= i < rest.len() && lists_first_dvd(#[trigger] rest[i]) && words(rest[i])[1]
                        == name && forall|j: int| 0 <= j < i ==> !lists_first_dvd(#[trigger] rest[j]);
                assert(ls[i + 1] == rest[i]);
                assert forall|j: int| 0 <= j < i + 1 implies !lists_first_dvd(#[trigger] ls[j]) by {
                    if j > 0 {
                        assert(ls[j] == rest[j - 1]);
                    }
                }
            },
            None => {
                assert forall|j: int| 0 <= j < ls.len() implies !lists_first_dvd(
                    #[trigger] ls[j],
                ) by {
                    if j > 0 {
                        assert(ls[j] == rest[j - 1]);
                    }
                }
            },
        }
    } else if ls.len() > 0 {
        assert(lists_first_dvd(ls[0]));
    }
}

/// The address that is found is that of an AMD64 first DVD image on the mirror, and of
/// none of the variants for other machines or for schools.
pub proof fn law_found_url_is_a_first_dvd(ls: Seq<Seq<char>>)
    requires
        first_listed(ls) is Some,
    ensures
        (BASE_URL@ + "/debian-"@).is_prefix_of(image_url(first_listed(ls)->0)),
        "-amd64-DVD-1.iso"@.is_suffix_of(image_url(first_listed(ls)->0)),
        !contains(first_listed(ls)->0, "-mac-"@),
        !contains(first_listed(ls)->0, "-edu-"@),
{
    law_first_listed_line_decides(ls);
    let name = first_listed(ls)->0;
    let url = image_url(name);
    reveal_strlit("debian-");
    reveal_strlit("/debian-");
    reveal_strlit("-amd64-DVD-1.iso");
    let head = BASE_URL@ + "/debian-"@;
    assert(head =~= BASE_URL@ + seq!['/'] + "debian-"@);
    assert(name.subrange(0, 7) == "debian-"@);
    assert(url.subrange(0, head.len() as int) =~= head) by {
        assert forall|i: int| 0 <= i < head.len() implies url[i] == head[i] by {
            if i > BASE_URL@.len() {
                assert(url[i] == name[i - BASE_URL@.len() - 1]);
                assert(name.subrange(0, 7)[i - BASE_URL@.len() - 1] == name[i - BASE_URL@.len()
                    - 1]);
            }
        }
    }
    let end = "-amd64-DVD-1.iso"@;
    assert(url.subrange(url.len() - end.len(), url.len() as int) =~= name.subrange(
        name.len() - end.len(),
        name.len() as int,
    ));
}

/// A line lists an image where it has two fields and the second is named as plain first DVD
/// images for AMD64 are: not as those for other machines or for schools are.
pub proof fn law_what_lists_an_image(line: Seq<char>, name: Seq<char>)
    ensures
        is_first_dvd(name) <==> "debian-"@.is_prefix_of(name) && "-amd64-DVD-1.iso"@.is_suffix_of(
            name,
        ) && !contains(name, "-mac-"@) && !contains(name, "-edu-"@),
        lists_first_dvd(line) <==> words(line).len() == 2 && "debian-"@.is_prefix_of(words(line)[1])
            && "-amd64-DVD-1.iso"@.is_suffix_of(words(line)[1]) && !contains(
            words(line)[1],
            "-mac-"@,
        ) && !contains(words(line)[1], "-edu-"@),
{
}

/// The address that is found is that of the mirror, a slash, and the name that stands in the
/// second field of the first line that lists an image: that name, whole, and no other. There
/// is an address exactly where a line lists an image.
pub proof fn law_address_ends_in_the_listed_name(sums: Seq<char>)
    ensures
        match first_listed(lines(sums)) {
            Some(name) => exists|i: int|
                0 <= i < lines(sums).len() && lists_first_dvd(#[trigger] lines(sums)[i]) && (
                forall|j: int| 0 <= j < i ==> !lists_first_dvd(#[trigger] lines(sums)[j]))
                    && image_url(name)
                    == "https://cdimage.debian.org/debian-cd/current/amd64/iso-dvd/"@ + words(
                    lines(sums)[i],
                )[1] && name == words(lines(sums)[i])[1],
            None => forall|j: int|
                0 <= j < lines(sums).len() ==> !lists_first_dvd(#[trigger] lines(sums)[j]),
        },
{
    let ls = lines(sums);
    law_first_listed_line_decides(ls);
    if let Some(name) = first_listed(ls) {
        lemma_image_url(name);
        let i = choose|i: int|
            0 <= i < ls.len() && lists_first_dvd(#[trigger] ls[i]) && words(ls[i])[1] == name
                && forall|j: int| 0 <= j < i ==> !lists_first_dvd(#[trigger] ls[j]);
        assert(lists_first_dvd(lines(sums)[i]));
    }
}

/// The address of an image, written out.
proof fn lemma_image_url(name: Seq<char>)
    ensures
        image_url(name) == "https://cdimage.debian.org/debian-cd/current/amd64/iso-dvd/"@ + name,
{
    reveal_strlit("https://cdimage.debian.org/debian-cd/current/amd64/iso-dvd");
    reveal_strlit("https://cdimage.debian.org/debian-cd/current/amd64/iso-dvd/");
    assert(image_url(name) =~= "https://cdimage.debian.org/debian-cd/current/amd64/iso-dvd/"@ + name);
}

/// The address holds the name of the image behind that of the mirror and a slash, so that
/// different images have different addresses.
pub proof fn law_images_have_addresses_of_their_own(name: Seq<char>, other: Seq<char>)
    ensures
        image_url(name).skip(BASE_URL@.len() + 1 as int) == name,
        image_url(name) == image_url(other) <==> name == other,
        sums_url_text()
            == "https://cdimage.debian.org/debian-cd/current/amd64/iso-dvd/SHA512SUMS"@,
{
    reveal_strlit("https://cdimage.debian.org/debian-cd/current/amd64/iso-dvd");
    reveal_strlit("/SHA512SUMS");
    reveal_strlit("https://cdimage.debian.org/debian-cd/current/amd64/iso-dvd/SHA512SUMS");
    let at = BASE_URL@.len() + 1 as int;
    assert(image_url(name).skip(at) =~= name);
    assert(image_url(other).skip(at) =~= other);
    assert(sums_url_text()
        =~= "https://cdimage.debian.org/debian-cd/current/amd64/iso-dvd/SHA512SUMS"@);
}

/// Of a list that starts with the line of an image, a checksum, two spaces and the name, that
/// image is found, whatever follows. A first line that lists no image changes nothing.
pub proof fn law_first_image_of_a_list_is_found(
    sum: Seq<char>,
    name: Seq<char>,
    line: Seq<char>,
    rest: Seq<char>,
)
    requires
        sum.len() > 0,
        forall|i: int| 0 <= i < sum.len() ==> !is_whitespace(#[trigger] sum[i]),
        forall|i: int| 0 <= i < name.len() ==> !is_whitespace(#[trigger] name[i]),
        "debian-"@.is_prefix_of(name),
        "-amd64-DVD-1.iso"@.is_suffix_of(name),
        !contains(name, "-mac-"@),
        !contains(name, "-edu-"@),
        !line.contains('\n'),
        line.len() == 0 || line.last() != '\r',
        !lists_first_dvd(line),
    ensures
        first_listed(lines(sum + "  "@ + name + "\n"@ + rest)) == Some(name),
        first_listed(lines(line + "\n"@ + rest)) == first_listed(lines(rest)),
{
    reveal_strlit("debian-");
    reveal_strlit("  ");
    reveal_strlit("\n");
    let l = sum + "  "@ + name;
    assert(name.len() > 0);
    assert forall|i: int| 0 <= i < l.len() implies l[i] != '\n' && l[i] != '\r' by {
        if i < sum.len() {
            assert(l[i] == sum[i]);
        } else if i >= sum.len() + 2 {
            assert(l[i] == name[i - sum.len() - 2]);
        }
    }
    assert(!l.contains('\n'));
    law_newline_ends_a_line(l, rest);
    assert(l + seq!['\n'] + rest =~= l + "\n"@ + rest);
    assert(words(l) == seq![sum, name]) by {
        law_white_space_parts_fields(sum, ' ', seq![' '] + name);
        law_white_space_parts_fields(name, ' ', name);
        assert(l =~= sum + seq![' '] + (seq![' '] + name));
        assert(seq![sum] + seq![name] =~= seq![sum, name]);
    }
    assert(lists_first_dvd(l));
    law_newline_ends_a_line(line, rest);
    assert(line + seq!['\n'] + rest =~= line + "\n"@ + rest);
    assert((seq![line] + lines(rest)).skip(1) =~= lines(rest));
}

} // verus!
