//! Putting a preseed configuration into an installer image, step by step.
//!
//! The steps that touch files and run programs are asked for as an [`Action`]; what came
//! of one is reported as an [`Event`], from which the next step follows.

use crate::boot::{
    grub_patched, isolinux_patched, kernel_args, law_grub_changes_as_txt_behind_its_header,
    law_isolinux_boots_by_itself, law_serial_console_is_opt_in, patch_grub_cfg, patch_isolinux_cfg,
    patch_txt_cfg, txt_patched,
};
use crate::error::BuildError;
use crate::initrd::{
    gunzip, law_member_is_the_packed_configuration, member_result, newc_archive, packed_file,
    preseed_member, PRESEED_MODE, PRESEED_NAME,
};
use crate::preseed::{
    law_values_are_written_in_full, modified, modify_preseed, value_view, Overrides,
};
use crate::text::{contains, lemma_contains_skip, lemma_replaced_holds, occurs_at};
use crate::xorriso::{
    extract_initrd_args, extract_initrd_words, extract_menus_args, extract_menus_words, repack_args,
    repack_words, InitrdPlace, Menus, Paths,
};
use vstd::prelude::*;
use vstd::utf8::encode_utf8;

verus! {

/// What is to be done.
pub struct Job {
    pub paths: Paths,
    /// The user name to set, if any.
    pub username: Option<String>,
    /// The password to set, if any.
    pub password: Option<String>,
    /// The host name to set, if any.
    pub hostname: Option<String>,
    /// Whether the installer shall use the first serial port.
    pub serial_console: bool,
}

/// How far the work is: what was asked for last.
#[derive(Debug, Clone, Copy, PartialEq, Eq, Structural)]
pub enum Stage {
    FindInitrd { place: InitrdPlace },
    ReadPreseed { place: InitrdPlace },
    AppendMember { place: InitrdPlace },
    ExtractMenus { place: InitrdPlace },
    WriteMenus { place: InitrdPlace, menus: Menus },
    Repack { place: InitrdPlace, menus: Menus },
    Finished,
    Failed { error: BuildError },
}

/// The texts of those boot menus that there are.
pub struct MenuTexts {
    pub isolinux: Option<String>,
    pub txt: Option<String>,
    pub grub: Option<String>,
}

/// What is found where a boot menu was to be put.
pub enum MenuFile {
    /// Nothing.
    Missing,
    /// A file that cannot be read as text.
    Unreadable,
    /// A file with this text.
    Readable { text: String },
}

/// What came of an action.
pub enum Event {
    /// The program ended, and the initial RAM disk is there or is not.
    InitrdExtracted { success: bool, present: bool },
    /// The preseed configuration was read.
    PreseedRead { text: String },
    /// The initial RAM disk was extended.
    MemberAppended,
    /// The program ended, and these boot menus are there.
    MenusExtracted { texts: MenuTexts },
    /// The boot menus were written.
    MenusWritten,
    /// The program that writes the new image ended.
    Repacked { success: bool },
}

/// What is to be done next.
pub enum Action {
    /// Run `xorriso` to take the initial RAM disk out of the image.
    ExtractInitrd { args: Vec<String> },
    /// Read the preseed configuration.
    ReadPreseed,
    /// Append these bytes to the initial RAM disk.
    AppendToInitrd { member: Vec<u8> },
    /// Run `xorriso` to take the boot menus out of the image, and read those that there are.
    ExtractMenus { args: Vec<String> },
    /// Write the boot menus.
    WriteMenus { texts: MenuTexts },
    /// Run `xorriso` to write the new image.
    Repack { args: Vec<String> },
    /// Nothing: the work is done.
    Finish,
    /// Nothing: the work cannot go on.
    Fail { error: BuildError },
}

/// Model of [`MenuTexts`].
#[verifier::ext_equal]
pub ghost struct MenuTextsModel {
    pub isolinux: Option<Seq<char>>,
    pub txt: Option<Seq<char>>,
    pub grub: Option<Seq<char>>,
}

/// Model of an [`Event`].
#[verifier::ext_equal]
pub ghost enum EventModel {
    InitrdExtracted { success: bool, present: bool },
    PreseedRead { text: Seq<char> },
    MemberAppended,
    MenusExtracted { texts: MenuTextsModel },
    MenusWritten,
    Repacked { success: bool },
}

/// Model of an [`Action`].
#[verifier::ext_equal]
pub ghost enum ActionModel {
    ExtractInitrd { args: Seq<Seq<char>> },
    ReadPreseed,
    AppendToInitrd { member: Seq<u8> },
    ExtractMenus { args: Seq<Seq<char>> },
    WriteMenus { texts: MenuTextsModel },
    Repack { args: Seq<Seq<char>> },
    Finish,
    Fail { error: BuildError },
}

/// The characters of a text, where there is one.
pub open spec fn text_view(text: Option<String>) -> Option<Seq<char>> {
    match text {
        Some(t) => Some(t@),
        None => None,
    }
}

impl View for MenuTexts {
    type V = MenuTextsModel;

    open spec fn view(&self) -> MenuTextsModel {
        MenuTextsModel {
            isolinux: text_view(self.isolinux),
            txt: text_view(self.txt),
            grub: text_view(self.grub),
        }
    }
}

impl View for Event {
    type V = EventModel;

    open spec fn view(&self) -> EventModel {
        match *self {
            Event::InitrdExtracted { success, present } => EventModel::InitrdExtracted {
                success,
                present,
            },
            Event::PreseedRead { text } => EventModel::PreseedRead { text: text@ },
            Event::MemberAppended => EventModel::MemberAppended,
            Event::MenusExtracted { texts } => EventModel::MenusExtracted { texts: texts@ },
            Event::MenusWritten => EventModel::MenusWritten,
            Event::Repacked { success } => EventModel::Repacked { success },
        }
    }
}

impl View for Action {
    type V = ActionModel;

    open spec fn view(&self) -> ActionModel {
        match *self {
            Action::ExtractInitrd { args } => ActionModel::ExtractInitrd { args: args.deep_view() },
            Action::ReadPreseed => ActionModel::ReadPreseed,
            Action::AppendToInitrd { member } => ActionModel::AppendToInitrd { member: member@ },
            Action::ExtractMenus { args } => ActionModel::ExtractMenus { args: args.deep_view() },
            Action::WriteMenus { texts } => ActionModel::WriteMenus { texts: texts@ },
            Action::Repack { args } => ActionModel::Repack { args: args.deep_view() },
            Action::Finish => ActionModel::Finish,
            Action::Fail { error } => ActionModel::Fail { error },
        }
    }
}

impl Job {
    /// The overrides that the job asks for.
    pub open spec fn overrides(self) -> Overrides {
        Overrides {
            username: text_view(self.username),
            password: text_view(self.password),
            hostname: text_view(self.hostname),
        }
    }
}

/// The boot menus patched, those that there are.
pub open spec fn menus_patched(texts: MenuTextsModel, serial_console: bool) -> MenuTextsModel {
    MenuTextsModel {
        isolinux: match texts.isolinux {
            Some(t) => Some(isolinux_patched(t)),
            None => None,
        },
        txt: match texts.txt {
            Some(t) => Some(txt_patched(t, serial_console)),
            None => None,
        },
        grub: match texts.grub {
            Some(t) => Some(grub_patched(t, serial_console)),
            None => None,
        },
    }
}

/// Which boot menus there are.
pub open spec fn menus_of(texts: MenuTextsModel) -> Menus {
    Menus { isolinux: texts.isolinux is Some, txt: texts.txt is Some, grub: texts.grub is Some }
}

/// The stage and the action that a failure leads to.
pub open spec fn failed(error: BuildError) -> (Stage, ActionModel) {
    (Stage::Failed { error }, ActionModel::Fail { error })
}

/// What follows once the piece for the initial RAM disk was made, or was not.
pub open spec fn after_member(
    place: InitrdPlace,
    member: Result<Seq<u8>, BuildError>,
) -> (Stage, ActionModel) {
    match member {
        Ok(m) => (Stage::AppendMember { place }, ActionModel::AppendToInitrd { member: m }),
        Err(error) => failed(error),
    }
}

/// The stage and the action with which the work starts.
pub open spec fn first_step(job: Job) -> (Stage, ActionModel) {
    (
        Stage::FindInitrd { place: InitrdPlace::Amd64 },
        ActionModel::ExtractInitrd { args: extract_initrd_words(job.paths, InitrdPlace::Amd64) },
    )
}

/// The stage and the action that follow on an event, where the event is one that the
/// stage waits for.
pub open spec fn next_step(job: Job, stage: Stage, event: EventModel) -> Option<
    (Stage, ActionModel),
> {
    match (stage, event) {
        (Stage::FindInitrd { place }, EventModel::InitrdExtracted { success, present }) => Some(
            if success && present {
                (Stage::ReadPreseed { place }, ActionModel::ReadPreseed)
            } else if place == InitrdPlace::Amd64 {
                (
                    Stage::FindInitrd { place: InitrdPlace::Plain },
                    ActionModel::ExtractInitrd {
                        args: extract_initrd_words(job.paths, InitrdPlace::Plain),
                    },
                )
            } else {
                failed(BuildError::InitrdNotFound)
            },
        ),
        (Stage::ReadPreseed { place }, EventModel::PreseedRead { text }) => Some(
            after_member(place, member_result(modified(text, job.overrides()))),
        ),
        (Stage::AppendMember { place }, EventModel::MemberAppended) => Some(
            (
                Stage::ExtractMenus { place },
                ActionModel::ExtractMenus { args: extract_menus_words(job.paths) },
            ),
        ),
        (Stage::ExtractMenus { place }, EventModel::MenusExtracted { texts }) => Some(
            (
                Stage::WriteMenus { place, menus: menus_of(texts) },
                ActionModel::WriteMenus { texts: menus_patched(texts, job.serial_console) },
            ),
        ),
        (Stage::WriteMenus { place, menus }, EventModel::MenusWritten) => Some(
            (
                Stage::Repack { place, menus },
                ActionModel::Repack { args: repack_words(job.paths, place, menus) },
            ),
        ),
        (Stage::Repack { .. }, EventModel::Repacked { success }) => Some(
            if success {
                (Stage::Finished, ActionModel::Finish)
            } else {
                failed(BuildError::RepackFailed)
            },
        ),
        _ => None,
    }
}

/// A text that there may be, borrowed.
fn borrowed(text: &Option<String>) -> (r: Option<&str>)
    ensures
        value_view(r) == text_view(*text),
{
    match text {
        Some(t) => Some(t.as_str()),
        None => None,
    }
}

/// The text of the boot menu in `file`, where there is one. A menu that cannot be read as
/// text counts as empty.
pub fn menu_text(file: MenuFile) -> (r: Option<String>)
    ensures
        text_view(r) == match file {
            MenuFile::Missing => None,
            MenuFile::Unreadable => Some(Seq::empty()),
            MenuFile::Readable { text } => Some(text@),
        },
{
    match file {
        MenuFile::Missing => None,
        MenuFile::Unreadable => Some(String::new()),
        MenuFile::Readable { text } => Some(text),
    }
}

/// Patches the boot menus that there are.
pub fn patch_menus(texts: &MenuTexts, serial_console: bool) -> (r: MenuTexts)
    ensures
        r@ == menus_patched(texts@, serial_console),
{
    MenuTexts {
        isolinux: match &texts.isolinux {
            Some(t) => Some(patch_isolinux_cfg(t.as_str())),
            None => None,
        },
        txt: match &texts.txt {
            Some(t) => Some(patch_txt_cfg(t.as_str(), serial_console)),
            None => None,
        },
        grub: match &texts.grub {
            Some(t) => Some(patch_grub_cfg(t.as_str(), serial_console)),
            None => None,
        },
    }
}

/// What follows once the piece for the initial RAM disk was made, or was not.
pub fn member_made(place: InitrdPlace, member: Result<Vec<u8>, BuildError>) -> (r: (Stage, Action))
    ensures
        (r.0, r.1@) == match member {
            Ok(m) => after_member(place, Ok(m@)),
            Err(e) => after_member(place, Err(e)),
        },
{
    match member {
        Ok(member) => (Stage::AppendMember { place }, Action::AppendToInitrd { member }),
        Err(error) => (Stage::Failed { error }, Action::Fail { error }),
    }
}

/// Starts the work: what is to be done first is to look for the initial RAM disk where
/// images for AMD64 have it.
pub fn inject_preseed(job: &Job) -> (r: (Stage, Action))
    ensures
        (r.0, r.1@) == first_step(*job),
{
    let place = InitrdPlace::Amd64;
    (Stage::FindInitrd { place }, Action::ExtractInitrd { args: extract_initrd_args(&job.paths, place) })
}

/// Goes on with the work: what is to be done next, now that `event` came of what was asked
/// for last. `None` where the stage does not wait for such an event.
///
/// The bytes for the initial RAM disk, decoded, are an archive whose only file is the
/// configuration that was read, with the overrides applied.
pub fn inject_step(job: &Job, stage: Stage, event: Event) -> (r: Option<(Stage, Action)>)
    ensures
        match (next_step(*job, stage, event@), r) {
            (Some(expected), Some(got)) => expected == (got.0, got.1@),
            (None, None) => true,
            _ => false,
        },
        event@ matches EventModel::PreseedRead { text } ==> (r matches Some(got) ==> (
        got.1@ matches ActionModel::AppendToInitrd { member } ==> gunzip(member) == newc_archive(
            PRESEED_NAME@,
            PRESEED_MODE,
            encode_utf8(modified(text, job.overrides())),
        ))),
{
    match (stage, event) {
        (Stage::FindInitrd { place }, Event::InitrdExtracted { success, present }) => {
            if success && present {
                Some((Stage::ReadPreseed { place }, Action::ReadPreseed))
            } else {
                match place {
                    InitrdPlace::Amd64 => {
                        let other = InitrdPlace::Plain;
                        let args = extract_initrd_args(&job.paths, other);
                        Some((Stage::FindInitrd { place: other }, Action::ExtractInitrd { args }))
                    },
                    InitrdPlace::Plain => {
                        let error = BuildError::InitrdNotFound;
                        Some((Stage::Failed { error }, Action::Fail { error }))
                    },
                }
            }
        },
        (Stage::ReadPreseed { place }, Event::PreseedRead { text }) => {
            let overridden = modify_preseed(
                text.as_str(),
                borrowed(&job.username),
                borrowed(&job.password),
                borrowed(&job.hostname),
            );
            Some(member_made(place, preseed_member(overridden.as_str())))
        },
        (Stage::AppendMember { place }, Event::MemberAppended) => {
            let args = extract_menus_args(&job.paths);
            Some((Stage::ExtractMenus { place }, Action::ExtractMenus { args }))
        },
        (Stage::ExtractMenus { place }, Event::MenusExtracted { texts }) => {
            let menus = Menus {
                isolinux: texts.isolinux.is_some(),
                txt: texts.txt.is_some(),
                grub: texts.grub.is_some(),
            };
            let texts = patch_menus(&texts, job.serial_console);
            Some((Stage::WriteMenus { place, menus }, Action::WriteMenus { texts }))
        },
        (Stage::WriteMenus { place, menus }, Event::MenusWritten) => {
            let args = repack_args(&job.paths, place, menus);
            Some((Stage::Repack { place, menus }, Action::Repack { args }))
        },
        (Stage::Repack { .. }, Event::Repacked { success }) => {
            if success {
                Some((Stage::Finished, Action::Finish))
            } else {
                let error = BuildError::RepackFailed;
                Some((Stage::Failed { error }, Action::Fail { error }))
            }
        },
        _ => None,
    }
}

/// The stage that the work is in after `events`, where each of them is one that was
/// waited for.
pub open spec fn run(job: Job, stage: Stage, events: Seq<EventModel>) -> Option<Stage>
    decreases events.len(),
{
    if events.len() == 0 {
        Some(stage)
    } else {
        match next_step(job, stage, events[0]) {
            Some((next, _)) => run(job, next, events.skip(1)),
            None => None,
        }
    }
}

/// The stage after all events but the last leads to the stage after the last.
proof fn lemma_run_last(job: Job, stage: Stage, events: Seq<EventModel>)
    requires
        events.len() > 0,
    ensures
        run(job, stage, events) == match run(job, stage, events.drop_last()) {
            Some(before) => match next_step(job, before, events.last()) {
                Some((next, _)) => Some(next),
                None => None,
            },
            None => None,
        },
    decreases events.len(),
{
    if events.len() == 1 {
        assert(events.drop_last() =~= Seq::<EventModel>::empty());
        assert(events.skip(1) =~= Seq::<EventModel>::empty());
        match next_step(job, stage, events[0]) {
            Some((next, _)) => {
                assert(run(job, next, events.skip(1)) == Some(next));
            },
            None => {},
        }
    } else {
        match next_step(job, stage, events[0]) {
            Some((next, _)) => {
                lemma_run_last(job, next, events.skip(1));
                assert(events.skip(1).drop_last() =~= events.drop_last().skip(1));
                assert(events.drop_last()[0] == events[0]);
                assert(events.skip(1).last() == events.last());
            },
            None => {
                assert(events.drop_last()[0] == events[0]);
            },
        }
    }
}

/// How many events a stage can still wait for.
pub open spec fn steps_left(stage: Stage) -> nat {
    match stage {
        Stage::FindInitrd { place } => if place == InitrdPlace::Amd64 {
            7
        } else {
            6
        },
        Stage::ReadPreseed { .. } => 5,
        Stage::AppendMember { .. } => 4,
        Stage::ExtractMenus { .. } => 3,
        Stage::WriteMenus { .. } => 2,
        Stage::Repack { .. } => 1,
        Stage::Finished => 0,
        Stage::Failed { .. } => 0,
    }
}

/// The work comes to its end: from no stage on can there be more events than
/// `steps_left` says, and where none are left, it is finished or has failed.
pub proof fn law_work_comes_to_its_end(job: Job, stage: Stage, events: Seq<EventModel>)
    requires
        run(job, stage, events) is Some,
    ensures
        events.len() <= steps_left(stage),
        events.len() == steps_left(stage) ==> run(job, stage, events)->0 is Finished || run(
            job,
            stage,
            events,
        )->0 is Failed,
    decreases events.len(),
{
    if events.len() > 0 {
        let (next, _) = next_step(job, stage, events[0])->0;
        law_work_comes_to_its_end(job, next, events.skip(1));
    }
}

/// The initial RAM disk was there.
pub open spec fn initrd_found(event: EventModel) -> bool {
    event == EventModel::InitrdExtracted { success: true, present: true }
}

/// The initial RAM disk was looked for and was not there.
pub open spec fn initrd_not_found(event: EventModel) -> bool {
    event is InitrdExtracted && !initrd_found(event)
}

/// Which events lead to the search for the initial RAM disk: none, or one that says that
/// it is not where images for AMD64 have it.
proof fn lemma_searching(job: Job, events: Seq<EventModel>, place: InitrdPlace)
    requires
        run(job, first_step(job).0, events) == Some(Stage::FindInitrd { place }),
    ensures
        place == InitrdPlace::Amd64 ==> events.len() == 0,
        place == InitrdPlace::Plain ==> events.len() == 1 && initrd_not_found(events[0]),
{
    if events.len() > 0 {
        lemma_run_last(job, first_step(job).0, events);
        let before = run(job, first_step(job).0, events.drop_last())->0;
        assert(before is FindInitrd);
        lemma_searching_before(job, events.drop_last());
    }
}

/// Nothing but the start leads to the search at the first place.
proof fn lemma_searching_before(job: Job, events: Seq<EventModel>)
    requires
        run(job, first_step(job).0, events) == Some(
            Stage::FindInitrd { place: InitrdPlace::Amd64 },
        ),
    ensures
        events.len() == 0,
{
    if events.len() > 0 {
        lemma_run_last(job, first_step(job).0, events);
    }
}

/// A new image is written only once the initial RAM disk was found and extended and the
/// boot menus that there are were patched; and it is written with the initial RAM disk at
/// the place where it was found, and with those menus.
pub proof fn law_image_is_written_from_what_was_found(
    job: Job,
    events: Seq<EventModel>,
    place: InitrdPlace,
    menus: Menus,
)
    requires
        run(job, first_step(job).0, events) == Some(Stage::Repack { place, menus }),
    ensures
        ({
            let n = events.len();
            &&& n == if place == InitrdPlace::Amd64 {
                5nat
            } else {
                6nat
            }
            &&& place == InitrdPlace::Plain ==> initrd_not_found(events[0])
            &&& initrd_found(events[n - 5])
            &&& events[n - 4] matches EventModel::PreseedRead { text } && member_result(
                modified(text, job.overrides()),
            ) is Ok
            &&& events[n - 3] is MemberAppended
            &&& events[n - 2] matches EventModel::MenusExtracted { texts } && menus_of(texts)
                == menus
            &&& events[n - 1] is MenusWritten
        }),
{
    let first = first_step(job).0;
    let e0 = events;
    lemma_run_last(job, first, e0);
    let e1 = e0.drop_last();
    lemma_run_last(job, first, e1);
    let e2 = e1.drop_last();
    lemma_run_last(job, first, e2);
    let e3 = e2.drop_last();
    lemma_run_last(job, first, e3);
    let e4 = e3.drop_last();
    lemma_run_last(job, first, e4);
    let e5 = e4.drop_last();
    assert(run(job, first, e5) == Some(Stage::FindInitrd { place }));
    lemma_searching(job, e5, place);
}

/// The work is finished only where a new image was to be written and was.
pub proof fn law_finished_means_image_was_written(job: Job, events: Seq<EventModel>)
    requires
        run(job, first_step(job).0, events) == Some(Stage::Finished),
    ensures
        events.len() > 0,
        events.last() == (EventModel::Repacked { success: true }),
        run(job, first_step(job).0, events.drop_last()) matches Some(stage) && stage is Repack,
{
    lemma_run_last(job, first_step(job).0, events);
}

/// The work fails for want of an initial RAM disk exactly where it was at neither of the
/// two places.
pub proof fn law_initrd_is_looked_for_at_both_places(job: Job, events: Seq<EventModel>)
    ensures
        run(job, first_step(job).0, events) == Some(
            Stage::Failed { error: BuildError::InitrdNotFound },
        ) <==> events.len() == 2 && initrd_not_found(events[0]) && initrd_not_found(events[1]),
{
    let first = first_step(job).0;
    let end = Stage::Failed { error: BuildError::InitrdNotFound };
    if run(job, first, events) == Some(end) {
        lemma_run_last(job, first, events);
        let before = run(job, first, events.drop_last())->0;
        assert(before == Stage::FindInitrd { place: InitrdPlace::Plain });
        lemma_searching(job, events.drop_last(), InitrdPlace::Plain);
        assert(events.drop_last()[0] == events[0]);
    }
    if events.len() == 2 && initrd_not_found(events[0]) && initrd_not_found(events[1]) {
        let rest = events.skip(1);
        assert(rest[0] == events[1]);
        let plain = Stage::FindInitrd { place: InitrdPlace::Plain };
        assert(run(job, end, rest.skip(1)) == Some(end));
        assert(run(job, plain, rest) == Some(end));
    }
}

/// A serial console matters only to the boot menus: jobs that differ in it alone take the
/// same steps on any other event, and leave the same `isolinux.cfg`.
pub proof fn law_serial_console_touches_menus_alone(
    job: Job,
    other: Job,
    stage: Stage,
    event: EventModel,
    texts: MenuTextsModel,
)
    requires
        job.paths == other.paths,
        job.overrides() == other.overrides(),
    ensures
        first_step(job) == first_step(other),
        !(event is MenusExtracted) ==> next_step(job, stage, event) == next_step(
            other,
            stage,
            event,
        ),
        menus_patched(texts, job.serial_console).isolinux == menus_patched(
            texts,
            other.serial_console,
        ).isolinux,
{
}

/// What goes into the image is the configuration that was read, with the user name, the
/// password and the host name of the job applied: each of them stands in it, all of it, on the
/// lines that are for it. It is packed whole, as the file `preseed.cfg`.
pub proof fn law_values_of_the_job_reach_the_image(job: Job, place: InitrdPlace, text: Seq<char>)
    ensures
        ({
            let overridden = modified(
                text,
                (Overrides {
                    username: if job.username is Some {
                        Some((job.username->0)@)
                    } else {
                        None
                    },
                    password: if job.password is Some {
                        Some((job.password->0)@)
                    } else {
                        None
                    },
                    hostname: if job.hostname is Some {
                        Some((job.hostname->0)@)
                    } else {
                        None
                    },
                }),
            );
            let next = next_step(
                job,
                Stage::ReadPreseed { place },
                EventModel::PreseedRead { text },
            );
            &&& job.overrides() == (Overrides {
                    username: if job.username is Some {
                        Some((job.username->0)@)
                    } else {
                        None
                    },
                    password: if job.password is Some {
                        Some((job.password->0)@)
                    } else {
                        None
                    },
                    hostname: if job.hostname is Some {
                        Some((job.hostname->0)@)
                    } else {
                        None
                    },
            })
            &&& encode_utf8(overridden).len() <= 0xffff_ffff ==> next == Some(
                (
                    Stage::AppendMember { place },
                    ActionModel::AppendToInitrd {
                        member: packed_file(
                            "preseed.cfg"@,
                            0o100644,
                            encode_utf8(overridden),
                        ),
                    },
                ),
            )
            &&& encode_utf8(overridden).len() > 0xffff_ffff ==> next == Some(
                (
                    Stage::Failed { error: BuildError::PreseedTooLarge },
                    ActionModel::Fail { error: BuildError::PreseedTooLarge },
                ),
            )
            &&& job.username is Some ==> exists|a: Seq<char>, b: Seq<char>|
                overridden == #[trigger] (a + ("d-i passwd/username string "@ + (job.username->0)@).push('\n')
                    + b) && (a.len() == 0 || a.last() == '\n')
            &&& job.password is Some ==> exists|a: Seq<char>, b: Seq<char>|
                overridden == #[trigger] (a + ("d-i passwd/user-password password "@ + (job.password->0)@).push('\n')
                    + b) && (a.len() == 0 || a.last() == '\n')
            &&& job.password is Some ==> exists|a: Seq<char>, b: Seq<char>|
                overridden == #[trigger] (a + ("d-i passwd/user-password-again password "@ + (job.password->0)@).push('\n')
                    + b) && (a.len() == 0 || a.last() == '\n')
            &&& job.hostname is Some ==> exists|a: Seq<char>, b: Seq<char>|
                overridden == #[trigger] (a + ("d-i netcfg/get_hostname string "@ + (job.hostname->0)@).push('\n')
                    + b) && (a.len() == 0 || a.last() == '\n')
        }),
{
    law_values_are_written_in_full(text, job.overrides());
    law_member_is_the_packed_configuration(modified(text, job.overrides()));
}

/// Each boot menu is patched: where a serial console was asked for, each entry that can be
/// booted gets it; where none was, no menu gets one that had none. Each entry installs
/// unattended, and nothing waits for ever.
pub proof fn law_menus_get_what_was_asked_for(
    texts: MenuTextsModel,
    serial_console: bool,
    out: MenuTextsModel,
)
    requires
        out == menus_patched(texts, serial_console),
    ensures
        texts.isolinux is Some <==> out.isolinux is Some,
        texts.txt is Some <==> out.txt is Some,
        texts.grub is Some <==> out.grub is Some,
        texts.isolinux is Some ==> out.isolinux->0 == isolinux_patched(texts.isolinux->0)
            && !contains(out.isolinux->0, "timeout 0"@) && !contains(
            out.isolinux->0,
            "default vesamenu.c32"@,
        ),
        texts.txt is Some ==> out.txt->0 == txt_patched(texts.txt->0, serial_console),
        texts.grub is Some ==> out.grub->0 == "set timeout=1\nset default=\"Install\"\n"@
            + txt_patched(texts.grub->0, serial_console),
        texts.txt is Some && !serial_console && !contains(texts.txt->0, "console=ttyS0"@)
            ==> !contains(out.txt->0, "console=ttyS0"@),
        texts.grub is Some && !serial_console && !contains(texts.grub->0, "console=ttyS0"@)
            ==> !contains(out.grub->0, "console=ttyS0"@),
        texts.txt is Some && serial_console && contains(texts.txt->0, "--- quiet"@)
            ==> contains(
            out.txt->0,
            "console=ttyS0,115200n8 auto=true priority=critical --- quiet"@,
        ),
        texts.grub is Some && serial_console && contains(texts.grub->0, "--- quiet"@)
            ==> contains(
            out.grub->0,
            "console=ttyS0,115200n8 auto=true priority=critical --- quiet"@,
        ),
        texts.txt is Some && contains(texts.txt->0, "--- quiet"@) ==> contains(
            out.txt->0,
            "auto=true priority=critical --- quiet"@,
        ),
        texts.grub is Some && contains(texts.grub->0, "--- quiet"@) ==> contains(
            out.grub->0,
            "auto=true priority=critical --- quiet"@,
        ),
{
    if texts.isolinux is Some {
        law_isolinux_boots_by_itself(texts.isolinux->0);
    }
    if texts.txt is Some {
        let t = texts.txt->0;
        if !contains(t, "console=ttyS0"@) {
            law_serial_console_is_opt_in(t);
        }
        if contains(t, "--- quiet"@) {
            lemma_patched_entry(t, serial_console);
        }
    }
    if texts.grub is Some {
        let t = texts.grub->0;
        let head = "set timeout=1\nset default=\"Install\"\n"@;
        let patched = txt_patched(t, serial_console);
        law_grub_changes_as_txt_behind_its_header(t, serial_console);
        if !contains(t, "console=ttyS0"@) {
            law_serial_console_is_opt_in(t);
        }
        if contains(t, "--- quiet"@) {
            lemma_patched_entry(t, serial_console);
            assert((head + patched).skip(head.len() as int) =~= patched);
            lemma_contains_skip(
                head + patched,
                "auto=true priority=critical --- quiet"@,
                head.len() as int,
            );
            if serial_console {
                lemma_contains_skip(
                    head + patched,
                    "console=ttyS0,115200n8 auto=true priority=critical --- quiet"@,
                    head.len() as int,
                );
            }
        }
    }
}

/// The boot menus that are written are those that were found, each of them changed as the job
/// asks: with a serial console where it asks for one, and without where it does not.
pub proof fn law_written_menus_follow_the_job(
    job: Job,
    place: InitrdPlace,
    texts: MenuTextsModel,
    out: MenuTextsModel,
)
    requires
        next_step(
            job,
            Stage::ExtractMenus { place },
            EventModel::MenusExtracted { texts },
        ) matches Some((_, ActionModel::WriteMenus { texts: written })) && written == out,
    ensures
        texts.isolinux is Some <==> out.isolinux is Some,
        texts.txt is Some <==> out.txt is Some,
        texts.grub is Some <==> out.grub is Some,
        texts.isolinux is Some ==> out.isolinux->0 == isolinux_patched(texts.isolinux->0)
            && !contains(out.isolinux->0, "timeout 0"@) && !contains(
            out.isolinux->0,
            "default vesamenu.c32"@,
        ),
        texts.txt is Some ==> out.txt->0 == txt_patched(texts.txt->0, job.serial_console),
        texts.grub is Some ==> out.grub->0 == "set timeout=1\nset default=\"Install\"\n"@
            + txt_patched(texts.grub->0, job.serial_console),
        texts.txt is Some && !job.serial_console && !contains(texts.txt->0, "console=ttyS0"@)
            ==> !contains(out.txt->0, "console=ttyS0"@),
        texts.grub is Some && !job.serial_console && !contains(texts.grub->0, "console=ttyS0"@)
            ==> !contains(out.grub->0, "console=ttyS0"@),
        texts.txt is Some && job.serial_console && contains(texts.txt->0, "--- quiet"@)
            ==> contains(
            out.txt->0,
            "console=ttyS0,115200n8 auto=true priority=critical --- quiet"@,
        ),
        texts.grub is Some && job.serial_console && contains(texts.grub->0, "--- quiet"@)
            ==> contains(
            out.grub->0,
            "console=ttyS0,115200n8 auto=true priority=critical --- quiet"@,
        ),
        texts.txt is Some && contains(texts.txt->0, "--- quiet"@) ==> contains(
            out.txt->0,
            "auto=true priority=critical --- quiet"@,
        ),
        texts.grub is Some && contains(texts.grub->0, "--- quiet"@) ==> contains(
            out.grub->0,
            "auto=true priority=critical --- quiet"@,
        ),
{
    law_menus_get_what_was_asked_for(texts, job.serial_console, out);
}

/// The piece that was made is what is appended, and an error is what is told, whichever it is.
pub proof fn law_member_or_error_is_handed_on(
    place: InitrdPlace,
    member: Seq<u8>,
    error: BuildError,
)
    ensures
        after_member(place, Ok(member)) == (
            Stage::AppendMember { place },
            ActionModel::AppendToInitrd { member },
        ),
        after_member(place, Err(error)) == (
            Stage::Failed { error },
            ActionModel::Fail { error },
        ),
{
}

/// A menu with an entry has the patched entry.
proof fn lemma_patched_entry(t: Seq<char>, serial_console: bool)
    requires
        contains(t, "--- quiet"@),
    ensures
        contains(txt_patched(t, serial_console), "auto=true priority=critical --- quiet"@),
        serial_console ==> contains(
            txt_patched(t, serial_console),
            "console=ttyS0,115200n8 auto=true priority=critical --- quiet"@,
        ),
{
    reveal_strlit("--- quiet");
    lemma_replaced_holds(t, "--- quiet"@, kernel_args(serial_console));
    if serial_console {
        reveal_strlit("auto=true priority=critical --- quiet");
        reveal_strlit("console=ttyS0,115200n8 auto=true priority=critical --- quiet");
        let long = "console=ttyS0,115200n8 auto=true priority=critical --- quiet"@;
        let short = "auto=true priority=critical --- quiet"@;
        let out = txt_patched(t, true);
        let i = choose|i: int| occurs_at(out, long, i);
        let skipped = long.len() - short.len();
        assert(long.skip(skipped) =~= short);
        assert(out.subrange(i + skipped, i + skipped + short.len()) =~= out.subrange(
            i,
            i + long.len(),
        ).skip(skipped));
        assert(occurs_at(out, short, i + skipped));
    }
}

/// The work goes on: what came of each action decides the next. The initial RAM disk is looked
/// for at its second place only where it was not at the first, and goes back to the place
/// where it was; the menus that were found, and no others, go back too.
pub proof fn law_injection_goes_on(
    job: Job,
    place: InitrdPlace,
    menus: Menus,
    success: bool,
    present: bool,
    texts: MenuTextsModel,
)
    ensures
        first_step(job) == (
            Stage::FindInitrd { place: InitrdPlace::Amd64 },
            ActionModel::ExtractInitrd {
                args: extract_initrd_words(job.paths, InitrdPlace::Amd64),
            },
        ),
        next_step(
            job,
            Stage::FindInitrd { place },
            EventModel::InitrdExtracted { success: true, present: true },
        ) == Some((Stage::ReadPreseed { place }, ActionModel::ReadPreseed)),
        !(success && present) ==> next_step(
            job,
            Stage::FindInitrd { place: InitrdPlace::Amd64 },
            EventModel::InitrdExtracted { success, present },
        ) == Some(
            (
                Stage::FindInitrd { place: InitrdPlace::Plain },
                ActionModel::ExtractInitrd {
                    args: extract_initrd_words(job.paths, InitrdPlace::Plain),
                },
            ),
        ),
        !(success && present) ==> next_step(
            job,
            Stage::FindInitrd { place: InitrdPlace::Plain },
            EventModel::InitrdExtracted { success, present },
        ) == Some(
            (
                Stage::Failed { error: BuildError::InitrdNotFound },
                ActionModel::Fail { error: BuildError::InitrdNotFound },
            ),
        ),
        next_step(job, Stage::AppendMember { place }, EventModel::MemberAppended) == Some(
            (
                Stage::ExtractMenus { place },
                ActionModel::ExtractMenus { args: extract_menus_words(job.paths) },
            ),
        ),
        next_step(
            job,
            Stage::ExtractMenus { place },
            EventModel::MenusExtracted { texts },
        ) matches Some((Stage::WriteMenus { place: at, menus: found }, action)) && at == place
            && found == (Menus {
            isolinux: texts.isolinux is Some,
            txt: texts.txt is Some,
            grub: texts.grub is Some,
        }) && action is WriteMenus,
        next_step(job, Stage::WriteMenus { place, menus }, EventModel::MenusWritten) == Some(
            (
                Stage::Repack { place, menus },
                ActionModel::Repack { args: repack_words(job.paths, place, menus) },
            ),
        ),
        next_step(
            job,
            Stage::Repack { place, menus },
            EventModel::Repacked { success: true },
        ) == Some((Stage::Finished, ActionModel::Finish)),
        next_step(
            job,
            Stage::Repack { place, menus },
            EventModel::Repacked { success: false },
        ) == Some(
            (
                Stage::Failed { error: BuildError::RepackFailed },
                ActionModel::Fail { error: BuildError::RepackFailed },
            ),
        ),
{
}

/// An event that does not answer what was asked for has no next step, and none has one once
/// the work is finished or has failed.
pub proof fn law_other_injection_events_are_refused(job: Job, stage: Stage, event: EventModel)
    ensures
        next_step(job, stage, event) is Some <==> match stage {
            Stage::FindInitrd { .. } => event is InitrdExtracted,
            Stage::ReadPreseed { .. } => event is PreseedRead,
            Stage::AppendMember { .. } => event is MemberAppended,
            Stage::ExtractMenus { .. } => event is MenusExtracted,
            Stage::WriteMenus { .. } => event is MenusWritten,
            Stage::Repack { .. } => event is Repacked,
            Stage::Finished => false,
            Stage::Failed { .. } => false,
        },
{
}

/// Where each step comes out well, the work is finished in the end, whatever menus there are
/// and at whichever place the initial RAM disk is, for each configuration that fits.
pub proof fn law_injection_can_be_finished(
    job: Job,
    at_first: bool,
    text: Seq<char>,
    texts: MenuTextsModel,
)
    requires
        encode_utf8(modified(text, job.overrides())).len() <= 0xffff_ffff,
    ensures
        ({
            let found = EventModel::InitrdExtracted { success: true, present: true };
            let not_found = EventModel::InitrdExtracted { success: true, present: false };
            let search = if at_first {
                seq![found]
            } else {
                seq![not_found, found]
            };
            let rest = seq![
                EventModel::PreseedRead { text },
                EventModel::MemberAppended,
                EventModel::MenusExtracted { texts },
                EventModel::MenusWritten,
                EventModel::Repacked { success: true },
            ];
            run(job, first_step(job).0, search + rest) == Some(Stage::Finished)
        }),
{
    let place = if at_first {
        InitrdPlace::Amd64
    } else {
        InitrdPlace::Plain
    };
    let menus = menus_of(texts);
    let found = EventModel::InitrdExtracted { success: true, present: true };
    let not_found = EventModel::InitrdExtracted { success: true, present: false };
    let rest = seq![
        EventModel::PreseedRead { text },
        EventModel::MemberAppended,
        EventModel::MenusExtracted { texts },
        EventModel::MenusWritten,
        EventModel::Repacked { success: true },
    ];
    let r1 = rest.skip(1);
    let r2 = r1.skip(1);
    let r3 = r2.skip(1);
    let r4 = r3.skip(1);
    let r5 = r4.skip(1);
    assert(r5.len() == 0);
    assert(run(job, Stage::Finished, r5) == Some(Stage::Finished));
    assert(r4[0] == EventModel::Repacked { success: true });
    assert(run(job, Stage::Repack { place, menus }, r4) == Some(Stage::Finished));
    assert(r3[0] == EventModel::MenusWritten);
    assert(run(job, Stage::WriteMenus { place, menus }, r3) == Some(Stage::Finished));
    assert(r2[0] == EventModel::MenusExtracted { texts });
    assert(run(job, Stage::ExtractMenus { place }, r2) == Some(Stage::Finished));
    assert(r1[0] == EventModel::MemberAppended);
    assert(run(job, Stage::AppendMember { place }, r1) == Some(Stage::Finished));
    assert(rest[0] == EventModel::PreseedRead { text });
    law_values_of_the_job_reach_the_image(job, place, text);
    assert(run(job, Stage::ReadPreseed { place }, rest) == Some(Stage::Finished));
    let from_found = seq![found] + rest;
    assert(from_found.skip(1) =~= rest);
    assert(run(job, Stage::FindInitrd { place }, from_found) == Some(Stage::Finished));
    if !at_first {
        let all = seq![not_found, found] + rest;
        assert(all.skip(1) =~= from_found);
        assert(all[0] == not_found);
    }
}

/// The models of what is handed in and out show all of it.
pub proof fn law_injection_models_show_all(
    success: bool,
    present: bool,
    text: String,
    texts: MenuTexts,
    args: Vec<String>,
    bytes: Vec<u8>,
    error: BuildError,
)
    ensures
        text_view(Some(text)) == Some(text@),
        text_view(None) is None,
        texts@.isolinux == text_view(texts.isolinux),
        texts@.txt == text_view(texts.txt),
        texts@.grub == text_view(texts.grub),
        (Event::InitrdExtracted { success, present })@ == (EventModel::InitrdExtracted {
            success,
            present,
        }),
        (Event::PreseedRead { text })@ == (EventModel::PreseedRead { text: text@ }),
        Event::MemberAppended@ == EventModel::MemberAppended,
        (Event::MenusExtracted { texts })@ == (EventModel::MenusExtracted { texts: texts@ }),
        Event::MenusWritten@ == EventModel::MenusWritten,
        (Event::Repacked { success })@ == (EventModel::Repacked { success }),
        (Action::ExtractInitrd { args })@ == (ActionModel::ExtractInitrd {
            args: args.deep_view(),
        }),
        Action::ReadPreseed@ == ActionModel::ReadPreseed,
        (Action::AppendToInitrd { member: bytes })@ == (ActionModel::AppendToInitrd {
            member: bytes@,
        }),
        (Action::ExtractMenus { args })@ == (ActionModel::ExtractMenus { args: args.deep_view() }),
        (Action::WriteMenus { texts })@ == (ActionModel::WriteMenus { texts: texts@ }),
        (Action::Repack { args })@ == (ActionModel::Repack { args: args.deep_view() }),
        Action::Finish@ == ActionModel::Finish,
        (Action::Fail { error })@ == (ActionModel::Fail { error }),
{
}

} // verus!
