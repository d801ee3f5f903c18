//! The commands that `xorriso` is run with, and what its answers mean.

use crate::error::BuildError;
use vstd::prelude::*;

verus! {

/// Where the image and the files taken out of it are.
pub struct Paths {
    /// The image to start from.
    pub original_iso: String,
    /// The image to write.
    pub output_iso: String,
    /// The initial RAM disk, taken out of the image.
    pub initrd: String,
    /// `isolinux.cfg`, taken out of the image.
    pub isolinux: String,
    /// `txt.cfg`, taken out of the image.
    pub txt: String,
    /// `grub.cfg`, taken out of the image.
    pub grub: String,
}

/// Where an image keeps its initial RAM disk.
#[derive(Debug, Clone, Copy, PartialEq, Eq, Structural)]
pub enum InitrdPlace {
    /// As images for AMD64 do.
    Amd64,
    /// As images for 32 bits and older ones do.
    Plain,
}

/// Which boot menus an image has.
#[derive(Debug, Clone, Copy, PartialEq, Eq, Structural)]
pub struct Menus {
    pub isolinux: bool,
    pub txt: bool,
    pub grub: bool,
}

/// What came of running `xorriso -version`.
#[derive(Debug, Clone, Copy, PartialEq, Eq, Structural)]
pub enum Probe {
    /// It could not be started.
    NotStarted,
    /// It ended.
    Exited { success: bool },
}

/// Where `isolinux.cfg` is in an image.
pub const ISOLINUX_PLACE: &'static str = "/isolinux/isolinux.cfg";

/// Where `txt.cfg` is in an image.
pub const TXT_PLACE: &'static str = "/isolinux/txt.cfg";

/// Where `grub.cfg` is in an image.
pub const GRUB_PLACE: &'static str = "/boot/grub/grub.cfg";

/// The path of the initial RAM disk in an image.
pub open spec fn initrd_place(place: InitrdPlace) -> Seq<char> {
    match place {
        InitrdPlace::Amd64 => "/install.amd/initrd.gz"@,
        InitrdPlace::Plain => "/install/initrd.gz"@,
    }
}

/// The arguments that open an image for reading.
pub open spec fn open_words(iso: Seq<char>) -> Seq<Seq<char>> {
    seq!["-osirrox"@, "on"@, "-indev"@, iso]
}

/// The arguments that take `place` out of an image into the file `file`.
pub open spec fn extract_words(place: Seq<char>, file: Seq<char>) -> Seq<Seq<char>> {
    seq!["-extract"@, place, file]
}

/// The arguments that put the file `file` into an image at `place`, where it is wanted.
pub open spec fn map_words(wanted: bool, file: Seq<char>, place: Seq<char>) -> Seq<Seq<char>> {
    if wanted {
        seq!["-map"@, file, place]
    } else {
        Seq::empty()
    }
}

/// The arguments that take the initial RAM disk out of the image.
pub open spec fn extract_initrd_words(paths: Paths, place: InitrdPlace) -> Seq<Seq<char>> {
    open_words(paths.original_iso@) + extract_words(initrd_place(place), paths.initrd@)
}

/// The arguments that take the boot menus out of the image.
pub open spec fn extract_menus_words(paths: Paths) -> Seq<Seq<char>> {
    open_words(paths.original_iso@) + extract_words(ISOLINUX_PLACE@, paths.isolinux@)
        + extract_words(TXT_PLACE@, paths.txt@) + extract_words(GRUB_PLACE@, paths.grub@)
}

/// The arguments that write the new image: the old one, with the initial RAM disk and the
/// menus that there are put in their places, and its boot structure kept.
pub open spec fn repack_words(paths: Paths, place: InitrdPlace, menus: Menus) -> Seq<Seq<char>> {
    seq!["-indev"@, paths.original_iso@, "-outdev"@, paths.output_iso@, "-overwrite"@, "on"@]
        + map_words(true, paths.initrd@, initrd_place(place)) + map_words(
        menus.isolinux,
        paths.isolinux@,
        ISOLINUX_PLACE@,
    ) + map_words(menus.txt, paths.txt@, TXT_PLACE@) + map_words(
        menus.grub,
        paths.grub@,
        GRUB_PLACE@,
    ) + seq!["-boot_image"@, "any"@, "replay"@]
}

impl InitrdPlace {
    /// The path of the initial RAM disk in an image.
    pub fn path(&self) -> (r: &'static str)
        ensures
            r@ == initrd_place(*self),
    {
        match self {
            InitrdPlace::Amd64 => "/install.amd/initrd.gz",
            InitrdPlace::Plain => "/install/initrd.gz",
        }
    }
}

/// Adds one argument.
fn push_word(words: &mut Vec<String>, word: &str)
    ensures
        final(words).deep_view() == old(words).deep_view().push(word@),
{
    let owned = word.to_owned();
    words.push(owned);
    assert(words.deep_view() =~= old(words).deep_view().push(word@));
}

/// Adds the arguments that open an image for reading.
fn push_open(words: &mut Vec<String>, iso: &str)
    ensures
        final(words).deep_view() == old(words).deep_view() + open_words(iso@),
{
    push_word(words, "-osirrox");
    push_word(words, "on");
    push_word(words, "-indev");
    push_word(words, iso);
    assert(words.deep_view() =~= old(words).deep_view() + open_words(iso@));
}

/// Adds the arguments that take `place` out of an image.
fn push_extract(words: &mut Vec<String>, place: &str, file: &str)
    ensures
        final(words).deep_view() == old(words).deep_view() + extract_words(place@, file@),
{
    push_word(words, "-extract");
    push_word(words, place);
    push_word(words, file);
    assert(words.deep_view() =~= old(words).deep_view() + extract_words(place@, file@));
}

/// Adds the arguments that put `file` into an image, where it is wanted.
fn push_map(words: &mut Vec<String>, wanted: bool, file: &str, place: &str)
    ensures
        final(words).deep_view() == old(words).deep_view() + map_words(wanted, file@, place@),
{
    if wanted {
        push_word(words, "-map");
        push_word(words, file);
        push_word(words, place);
    }
    assert(words.deep_view() =~= old(words).deep_view() + map_words(wanted, file@, place@));
}

/// The arguments with which `xorriso` says which version it is.
pub fn version_args() -> (r: Vec<String>)
    ensures
        r.deep_view() == seq!["-version"@],
{
    let mut words: Vec<String> = Vec::new();
    push_word(&mut words, "-version");
    assert(words.deep_view() =~= seq!["-version"@]);
    words
}

/// Whether `xorriso` can be used, from what came of asking for its version.
pub fn check_xorriso(probe: Probe) -> (r: Result<(), BuildError>)
    ensures
        r is Ok <==> probe == (Probe::Exited { success: true }),
        r matches Err(e) ==> e == if probe is NotStarted {
            BuildError::XorrisoMissing
        } else {
            BuildError::XorrisoFailed
        },
{
    match probe {
        Probe::NotStarted => Err(BuildError::XorrisoMissing),
        Probe::Exited { success } => if success {
            Ok(())
        } else {
            Err(BuildError::XorrisoFailed)
        },
    }
}

/// The arguments that take the initial RAM disk out of the image.
pub fn extract_initrd_args(paths: &Paths, place: InitrdPlace) -> (r: Vec<String>)
    ensures
        r.deep_view() == extract_initrd_words(*paths, place),
{
    let mut words: Vec<String> = Vec::new();
    push_open(&mut words, paths.original_iso.as_str());
    push_extract(&mut words, place.path(), paths.initrd.as_str());
    assert(words.deep_view() =~= extract_initrd_words(*paths, place));
    words
}

/// The arguments that take the boot menus out of the image.
pub fn extract_menus_args(paths: &Paths) -> (r: Vec<String>)
    ensures
        r.deep_view() == extract_menus_words(*paths),
{
    let mut words: Vec<String> = Vec::new();
    push_open(&mut words, paths.original_iso.as_str());
    push_extract(&mut words, ISOLINUX_PLACE, paths.isolinux.as_str());
    push_extract(&mut words, TXT_PLACE, paths.txt.as_str());
    push_extract(&mut words, GRUB_PLACE, paths.grub.as_str());
    assert(words.deep_view() =~= extract_menus_words(*paths));
    words
}

/// The arguments that write the new image.
pub fn repack_args(paths: &Paths, place: InitrdPlace, menus: Menus) -> (r: Vec<String>)
    ensures
        r.deep_view() == repack_words(*paths, place, menus),
{
    let mut words: Vec<String> = Vec::new();
    push_word(&mut words, "-indev");
    push_word(&mut words, paths.original_iso.as_str());
    push_word(&mut words, "-outdev");
    push_word(&mut words, paths.output_iso.as_str());
    push_word(&mut words, "-overwrite");
    push_word(&mut words, "on");
    assert(words.deep_view() =~= seq![
        "-indev"@,
        paths.original_iso@,
        "-outdev"@,
        paths.output_iso@,
        "-overwrite"@,
        "on"@,
    ]);
    push_map(&mut words, true, paths.initrd.as_str(), place.path());
    push_map(&mut words, menus.isolinux, paths.isolinux.as_str(), ISOLINUX_PLACE);
    push_map(&mut words, menus.txt, paths.txt.as_str(), TXT_PLACE);
    push_map(&mut words, menus.grub, paths.grub.as_str(), GRUB_PLACE);
    let ghost mapped = words.deep_view();
    push_word(&mut words, "-boot_image");
    push_word(&mut words, "any");
    push_word(&mut words, "replay");
    assert(words.deep_view() =~= mapped + seq!["-boot_image"@, "any"@, "replay"@]);
    words
}

/// `words` has `part` in it.
#[verifier::opaque]
pub open spec fn has_part(words: Seq<Seq<char>>, part: Seq<Seq<char>>) -> bool {
    exists|i: int|
        0 <= i <= words.len() - part.len() && #[trigger] words.subrange(i, i + part.len()) == part
}

/// Arguments put between others are found there.
proof fn lemma_has_part(before: Seq<Seq<char>>, part: Seq<Seq<char>>, after: Seq<Seq<char>>)
    ensures
        has_part(before + part + after, part),
{
    reveal(has_part);
    let words = before + part + after;
    let i = before.len() as int;
    assert(words.subrange(i, i + part.len()) =~= part);
}

/// Arguments put behind others are found there.
proof fn lemma_last_part(a: Seq<Seq<char>>, b: Seq<Seq<char>>)
    ensures
        has_part(a + b, b),
{
    lemma_has_part(a, b, Seq::empty());
    assert(a + b + Seq::<Seq<char>>::empty() =~= a + b);
}

/// Three groups of arguments behind a first one are found there.
proof fn lemma_three_parts(
    a: Seq<Seq<char>>,
    b: Seq<Seq<char>>,
    c: Seq<Seq<char>>,
    d: Seq<Seq<char>>,
)
    ensures
        has_part(a + b + c + d, b),
        has_part(a + b + c + d, c),
        has_part(a + b + c + d, d),
{
    lemma_has_part(a, b, c + d);
    assert(a + b + (c + d) =~= a + b + c + d);
    lemma_has_part(a + b, c, d);
    lemma_last_part(a + b + c, d);
}

/// Four groups of arguments between a first and a last one are found there.
proof fn lemma_four_parts(
    a: Seq<Seq<char>>,
    b: Seq<Seq<char>>,
    c: Seq<Seq<char>>,
    d: Seq<Seq<char>>,
    e: Seq<Seq<char>>,
    f: Seq<Seq<char>>,
)
    ensures
        has_part(a + b + c + d + e + f, b),
        has_part(a + b + c + d + e + f, c),
        has_part(a + b + c + d + e + f, d),
        has_part(a + b + c + d + e + f, e),
{
    let all = a + b + c + d + e + f;
    lemma_has_part(a, b, c + d + e + f);
    assert(a + b + (c + d + e + f) =~= all);
    lemma_has_part(a + b, c, d + e + f);
    assert(a + b + c + (d + e + f) =~= all);
    lemma_has_part(a + b + c, d, e + f);
    assert(a + b + c + d + (e + f) =~= all);
    lemma_has_part(a + b + c + d, e, f);
}

/// Each file that was taken out of the image goes back to the place it came from: the
/// initial RAM disk always, a boot menu where there is one.
pub proof fn law_files_go_back_where_they_came_from(paths: Paths, place: InitrdPlace, menus: Menus)
    ensures
        ({
            let out = repack_words(paths, place, menus);
            let initrd = extract_initrd_words(paths, place);
            let configs = extract_menus_words(paths);
            &&& has_part(initrd, extract_words(initrd_place(place), paths.initrd@))
            &&& has_part(out, map_words(true, paths.initrd@, initrd_place(place)))
            &&& has_part(configs, extract_words(ISOLINUX_PLACE@, paths.isolinux@))
            &&& menus.isolinux ==> has_part(
                out,
                map_words(true, paths.isolinux@, ISOLINUX_PLACE@),
            )
            &&& has_part(configs, extract_words(TXT_PLACE@, paths.txt@))
            &&& menus.txt ==> has_part(out, map_words(true, paths.txt@, TXT_PLACE@))
            &&& has_part(configs, extract_words(GRUB_PLACE@, paths.grub@))
            &&& menus.grub ==> has_part(out, map_words(true, paths.grub@, GRUB_PLACE@))
        }),
{
    lemma_three_parts(
        open_words(paths.original_iso@),
        extract_words(ISOLINUX_PLACE@, paths.isolinux@),
        extract_words(TXT_PLACE@, paths.txt@),
        extract_words(GRUB_PLACE@, paths.grub@),
    );
    lemma_last_part(
        open_words(paths.original_iso@),
        extract_words(initrd_place(place), paths.initrd@),
    );
    lemma_four_parts(
        seq!["-indev"@, paths.original_iso@, "-outdev"@, paths.output_iso@, "-overwrite"@, "on"@],
        map_words(true, paths.initrd@, initrd_place(place)),
        map_words(menus.isolinux, paths.isolinux@, ISOLINUX_PLACE@),
        map_words(menus.txt, paths.txt@, TXT_PLACE@),
        map_words(menus.grub, paths.grub@, GRUB_PLACE@),
        seq!["-boot_image"@, "any"@, "replay"@],
    );
}

/// The boot structure of the image is replayed into the new one, which is written over
/// what there was.
pub proof fn law_boot_structure_is_kept(paths: Paths, place: InitrdPlace, menus: Menus)
    ensures
        ({
            let out = repack_words(paths, place, menus);
            &&& out.take(6) == seq![
                "-indev"@,
                paths.original_iso@,
                "-outdev"@,
                paths.output_iso@,
                "-overwrite"@,
                "on"@,
            ]
            &&& out.skip(out.len() - 3) == seq!["-boot_image"@, "any"@, "replay"@]
        }),
{
    let out = repack_words(paths, place, menus);
    assert(out.take(6) =~= seq![
        "-indev"@,
        paths.original_iso@,
        "-outdev"@,
        paths.output_iso@,
        "-overwrite"@,
        "on"@,
    ]);
    assert(out.skip(out.len() - 3) =~= seq!["-boot_image"@, "any"@, "replay"@]);
}

/// The commands, argument by argument: each file is named by its whole path, right behind the
/// word that says what is to be done with it.
pub proof fn law_commands_name_their_files(paths: Paths, place: InitrdPlace, menus: Menus)
    ensures
        extract_initrd_words(paths, InitrdPlace::Amd64) == seq![
            "-osirrox"@,
            "on"@,
            "-indev"@,
            paths.original_iso@,
            "-extract"@,
            "/install.amd/initrd.gz"@,
            paths.initrd@,
        ],
        extract_initrd_words(paths, InitrdPlace::Plain) == seq![
            "-osirrox"@,
            "on"@,
            "-indev"@,
            paths.original_iso@,
            "-extract"@,
            "/install/initrd.gz"@,
            paths.initrd@,
        ],
        extract_menus_words(paths) == seq![
            "-osirrox"@,
            "on"@,
            "-indev"@,
            paths.original_iso@,
            "-extract"@,
            "/isolinux/isolinux.cfg"@,
            paths.isolinux@,
            "-extract"@,
            "/isolinux/txt.cfg"@,
            paths.txt@,
            "-extract"@,
            "/boot/grub/grub.cfg"@,
            paths.grub@,
        ],
        repack_words(paths, place, menus) == seq![
            "-indev"@,
            paths.original_iso@,
            "-outdev"@,
            paths.output_iso@,
            "-overwrite"@,
            "on"@,
            "-map"@,
            paths.initrd@,
            if place is Amd64 {
                "/install.amd/initrd.gz"@
            } else {
                "/install/initrd.gz"@
            },
        ] + (if menus.isolinux {
            seq!["-map"@, paths.isolinux@, "/isolinux/isolinux.cfg"@]
        } else {
            Seq::empty()
        }) + (if menus.txt {
            seq!["-map"@, paths.txt@, "/isolinux/txt.cfg"@]
        } else {
            Seq::empty()
        }) + (if menus.grub {
            seq!["-map"@, paths.grub@, "/boot/grub/grub.cfg"@]
        } else {
            Seq::empty()
        }) + seq!["-boot_image"@, "any"@, "replay"@],
{
    assert(extract_initrd_words(paths, InitrdPlace::Amd64) =~= seq![
        "-osirrox"@,
        "on"@,
        "-indev"@,
        paths.original_iso@,
        "-extract"@,
        "/install.amd/initrd.gz"@,
        paths.initrd@,
    ]);
    assert(extract_initrd_words(paths, InitrdPlace::Plain) =~= seq![
        "-osirrox"@,
        "on"@,
        "-indev"@,
        paths.original_iso@,
        "-extract"@,
        "/install/initrd.gz"@,
        paths.initrd@,
    ]);
    let head = seq![
        "-indev"@,
        paths.original_iso@,
        "-outdev"@,
        paths.output_iso@,
        "-overwrite"@,
        "on"@,
    ];
    assert(head + map_words(true, paths.initrd@, initrd_place(place)) =~= seq![
        "-indev"@,
        paths.original_iso@,
        "-outdev"@,
        paths.output_iso@,
        "-overwrite"@,
        "on"@,
        "-map"@,
        paths.initrd@,
        initrd_place(place),
    ]);
}

} // verus!
