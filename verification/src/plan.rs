//! The build as a whole: what is checked, fetched, changed and written, in which order.
//!
//! As in [`inject`](crate::inject), what touches the outside is asked for as an action,
//! and what came of it is reported as an event.

use crate::error::BuildError;
use crate::mirror::{
    first_listed, get_latest_debian_iso_url, image_url, law_address_ends_in_the_listed_name,
    lists_first_dvd,
};
use crate::text::{lines, words};
use crate::xorriso::{check_xorriso, Probe};
use vstd::prelude::*;

verus! {

/// Which image the user asked for.
pub struct Request {
    /// Whether a file was named.
    pub local_iso: bool,
    /// The address that was named, if any.
    pub url: Option<String>,
}

/// How far the build is: what was asked for last.
#[derive(Debug, Clone, Copy, PartialEq, Eq, Structural)]
pub enum BuildStage {
    CheckPreseed,
    ProbeXorriso,
    CheckLocalIso,
    FetchSums,
    Download,
    Inject,
    Flash,
    Finished,
    Failed { error: BuildError },
}

/// What came of an action.
pub enum BuildEvent {
    /// The preseed configuration is there or is not.
    PreseedChecked { present: bool },
    /// `xorriso` was asked for its version.
    XorrisoProbed { probe: Probe },
    /// The image that was named is there or is not.
    LocalIsoChecked { present: bool },
    /// The mirror's list of checksums was fetched.
    SumsFetched { text: String },
    /// The image was downloaded.
    Downloaded,
    /// The preseed configuration was put into a new image.
    Injected,
    /// The new image was written to the device.
    Flashed,
}

/// What is to be done next.
pub enum BuildAction {
    /// Look whether the preseed configuration is there.
    CheckPreseed,
    /// Ask `xorriso` for its version.
    ProbeXorriso,
    /// Look whether the image that was named is there.
    CheckLocalIso,
    /// Fetch the mirror's list of checksums.
    FetchSums,
    /// Download the image from this address.
    Download { url: String },
    /// Put the preseed configuration into a new image.
    Inject,
    /// Write the new image to the device.
    Flash,
    /// Nothing: the build is done.
    Finish,
    /// Nothing: the build cannot go on.
    Fail { error: BuildError },
}

/// Model of a [`BuildEvent`].
#[verifier::ext_equal]
pub ghost enum BuildEventModel {
    PreseedChecked { present: bool },
    XorrisoProbed { probe: Probe },
    LocalIsoChecked { present: bool },
    SumsFetched { text: Seq<char> },
    Downloaded,
    Injected,
    Flashed,
}

/// Model of a [`BuildAction`].
#[verifier::ext_equal]
pub ghost enum BuildActionModel {
    CheckPreseed,
    ProbeXorriso,
    CheckLocalIso,
    FetchSums,
    Download { url: Seq<char> },
    Inject,
    Flash,
    Finish,
    Fail { error: BuildError },
}

impl View for BuildEvent {
    type V = BuildEventModel;

    open spec fn view(&self) -> BuildEventModel {
        match *self {
            BuildEvent::PreseedChecked { present } => BuildEventModel::PreseedChecked { present },
            BuildEvent::XorrisoProbed { probe } => BuildEventModel::XorrisoProbed { probe },
            BuildEvent::LocalIsoChecked { present } => BuildEventModel::LocalIsoChecked { present },
            BuildEvent::SumsFetched { text } => BuildEventModel::SumsFetched { text: text@ },
            BuildEvent::Downloaded => BuildEventModel::Downloaded,
            BuildEvent::Injected => BuildEventModel::Injected,
            BuildEvent::Flashed => BuildEventModel::Flashed,
        }
    }
}

impl View for BuildAction {
    type V = BuildActionModel;

    open spec fn view(&self) -> BuildActionModel {
        match *self {
            BuildAction::CheckPreseed => BuildActionModel::CheckPreseed,
            BuildAction::ProbeXorriso => BuildActionModel::ProbeXorriso,
            BuildAction::CheckLocalIso => BuildActionModel::CheckLocalIso,
            BuildAction::FetchSums => BuildActionModel::FetchSums,
            BuildAction::Download { url } => BuildActionModel::Download { url: url@ },
            BuildAction::Inject => BuildActionModel::Inject,
            BuildAction::Flash => BuildActionModel::Flash,
            BuildAction::Finish => BuildActionModel::Finish,
            BuildAction::Fail { error } => BuildActionModel::Fail { error },
        }
    }
}

/// The stage and the action that a failure leads to.
pub open spec fn build_failed(error: BuildError) -> (BuildStage, BuildActionModel) {
    (BuildStage::Failed { error }, BuildActionModel::Fail { error })
}

/// How the image is got: a file that was named comes first, then an address that was
/// named; without either, it is the latest stable image.
pub open spec fn get_image(request: Request) -> (BuildStage, BuildActionModel) {
    if request.local_iso {
        (BuildStage::CheckLocalIso, BuildActionModel::CheckLocalIso)
    } else {
        match request.url {
            Some(url) => (BuildStage::Download, BuildActionModel::Download { url: url@ }),
            None => (BuildStage::FetchSums, BuildActionModel::FetchSums),
        }
    }
}

/// The stage and the action that follow on an event, where the event is one that the
/// stage waits for.
pub open spec fn build_next(request: Request, stage: BuildStage, event: BuildEventModel) -> Option<
    (BuildStage, BuildActionModel),
> {
    match (stage, event) {
        (BuildStage::CheckPreseed, BuildEventModel::PreseedChecked { present }) => Some(
            if present {
                (BuildStage::ProbeXorriso, BuildActionModel::ProbeXorriso)
            } else {
                build_failed(BuildError::PreseedMissing)
            },
        ),
        (BuildStage::ProbeXorriso, BuildEventModel::XorrisoProbed { probe }) => Some(
            match probe {
                Probe::NotStarted => build_failed(BuildError::XorrisoMissing),
                Probe::Exited { success } => if success {
                    get_image(request)
                } else {
                    build_failed(BuildError::XorrisoFailed)
                },
            },
        ),
        (BuildStage::CheckLocalIso, BuildEventModel::LocalIsoChecked { present }) => Some(
            if present {
                (BuildStage::Inject, BuildActionModel::Inject)
            } else {
                build_failed(BuildError::IsoMissing)
            },
        ),
        (BuildStage::FetchSums, BuildEventModel::SumsFetched { text }) => Some(
            match first_listed(lines(text)) {
                Some(name) => (
                    BuildStage::Download,
                    BuildActionModel::Download { url: image_url(name) },
                ),
                None => build_failed(BuildError::NoIsoListed),
            },
        ),
        (BuildStage::Download, BuildEventModel::Downloaded) => Some(
            (BuildStage::Inject, BuildActionModel::Inject),
        ),
        (BuildStage::Inject, BuildEventModel::Injected) => Some(
            (BuildStage::Flash, BuildActionModel::Flash),
        ),
        (BuildStage::Flash, BuildEventModel::Flashed) => Some(
            (BuildStage::Finished, BuildActionModel::Finish),
        ),
        _ => None,
    }
}

/// A failure, and the stage that it leaves the build in.
fn stop(error: BuildError) -> (r: (BuildStage, BuildAction))
    ensures
        (r.0, r.1@) == build_failed(error),
{
    (BuildStage::Failed { error }, BuildAction::Fail { error })
}

/// Starts the build: what is to be done first is to look for the preseed configuration.
pub fn build_start() -> (r: (BuildStage, BuildAction))
    ensures
        (r.0, r.1@) == (BuildStage::CheckPreseed, BuildActionModel::CheckPreseed),
{
    (BuildStage::CheckPreseed, BuildAction::CheckPreseed)
}

/// How the image is got.
pub fn choose_image(request: &Request) -> (r: (BuildStage, BuildAction))
    ensures
        (r.0, r.1@) == get_image(*request),
{
    if request.local_iso {
        (BuildStage::CheckLocalIso, BuildAction::CheckLocalIso)
    } else {
        match &request.url {
            Some(url) => (BuildStage::Download, BuildAction::Download { url: url.clone() }),
            None => (BuildStage::FetchSums, BuildAction::FetchSums),
        }
    }
}

/// Goes on with the build: what is to be done next, now that `event` came of what was
/// asked for last. `None` where the stage does not wait for such an event.
pub fn build_step(request: &Request, stage: BuildStage, event: BuildEvent) -> (r: Option<
    (BuildStage, BuildAction),
>)
    ensures
        match (build_next(*request, stage, event@), r) {
            (Some(expected), Some(got)) => expected == (got.0, got.1@),
            (None, None) => true,
            _ => false,
        },
{
    match (stage, event) {
        (BuildStage::CheckPreseed, BuildEvent::PreseedChecked { present }) => {
            if present {
                Some((BuildStage::ProbeXorriso, BuildAction::ProbeXorriso))
            } else {
                Some(stop(BuildError::PreseedMissing))
            }
        },
        (BuildStage::ProbeXorriso, BuildEvent::XorrisoProbed { probe }) => {
            match check_xorriso(probe) {
                Ok(_) => Some(choose_image(request)),
                Err(error) => Some(stop(error)),
            }
        },
        (BuildStage::CheckLocalIso, BuildEvent::LocalIsoChecked { present }) => {
            if present {
                Some((BuildStage::Inject, BuildAction::Inject))
            } else {
                Some(stop(BuildError::IsoMissing))
            }
        },
        (BuildStage::FetchSums, BuildEvent::SumsFetched { text }) => {
            match get_latest_debian_iso_url(text.as_str()) {
                Ok(url) => Some((BuildStage::Download, BuildAction::Download { url })),
                Err(error) => Some(stop(error)),
            }
        },
        (BuildStage::Download, BuildEvent::Downloaded) => Some(
            (BuildStage::Inject, BuildAction::Inject),
        ),
        (BuildStage::Inject, BuildEvent::Injected) => Some((BuildStage::Flash, BuildAction::Flash)),
        (BuildStage::Flash, BuildEvent::Flashed) => Some(
            (BuildStage::Finished, BuildAction::Finish),
        ),
        _ => None,
    }
}

/// The stage that the build is in after `events`, where each of them is one that was
/// waited for.
pub open spec fn build_run(request: Request, events: Seq<BuildEventModel>) -> Option<BuildStage>
    decreases events.len(),
{
    if events.len() == 0 {
        Some(BuildStage::CheckPreseed)
    } else {
        match build_run(request, events.drop_last()) {
            Some(stage) => match build_next(request, stage, events.last()) {
                Some((next, _)) => Some(next),
                None => None,
            },
            None => None,
        }
    }
}

/// The stage comes before anything is fetched, changed or written.
pub open spec fn still_checking(stage: BuildStage) -> bool {
    stage is CheckPreseed || stage is ProbeXorriso || stage is Failed
}

/// No image is looked for, fetched, changed or written before the preseed configuration
/// is known to be there and `xorriso` to work.
pub proof fn law_prerequisites_come_first(request: Request, events: Seq<BuildEventModel>)
    requires
        build_run(request, events) matches Some(stage) && !still_checking(stage),
    ensures
        events.len() >= 2,
        events[0] == (BuildEventModel::PreseedChecked { present: true }),
        events[1] == (BuildEventModel::XorrisoProbed { probe: Probe::Exited { success: true } }),
    decreases events.len(),
{
    if events.len() > 0 {
        let before = build_run(request, events.drop_last())->0;
        if !still_checking(before) {
            law_prerequisites_come_first(request, events.drop_last());
            assert(events.drop_last()[0] == events[0]);
            assert(events.drop_last()[1] == events[1]);
        } else {
            assert(before is ProbeXorriso);
            lemma_probe_comes_second(request, events.drop_last());
        }
    }
}

/// `xorriso` is asked for its version right after the preseed configuration was found.
proof fn lemma_probe_comes_second(request: Request, events: Seq<BuildEventModel>)
    requires
        build_run(request, events) == Some(BuildStage::ProbeXorriso),
    ensures
        events.len() == 1,
        events[0] == (BuildEventModel::PreseedChecked { present: true }),
{
    let before = build_run(request, events.drop_last())->0;
    assert(before is CheckPreseed);
    if events.len() > 1 {
        assert(build_run(request, events.drop_last().drop_last()) is Some);
    }
}

/// Where a file was named, nothing is fetched: neither the list nor an image. Where an
/// address was named, the list is not fetched.
pub proof fn law_named_image_is_taken(request: Request, events: Seq<BuildEventModel>)
    requires
        build_run(request, events) is Some,
    ensures
        request.local_iso ==> !(build_run(request, events)->0 is Download),
        request.local_iso || request.url is Some ==> !(build_run(request, events)->0 is FetchSums),
        !request.local_iso ==> !(build_run(request, events)->0 is CheckLocalIso),
    decreases events.len(),
{
    if events.len() > 0 {
        law_named_image_is_taken(request, events.drop_last());
    }
}

/// The address that an image is downloaded from is the one that was named, and without
/// one, that of the image that the fetched list names first.
pub proof fn law_download_address(
    request: Request,
    events: Seq<BuildEventModel>,
    event: BuildEventModel,
    url: Seq<char>,
)
    requires
        build_run(request, events) matches Some(stage) && build_next(request, stage, event)
            matches Some((_, BuildActionModel::Download { url: u })) && u == url,
    ensures
        match request.url {
            Some(named) => url == named@,
            None => event matches BuildEventModel::SumsFetched { text } && first_listed(lines(text))
                matches Some(name) && url == image_url(name),
        },
{
    law_named_image_is_taken(request, events);
}

/// The build is done only where the preseed configuration was put into a new image and
/// that image was then written to the device.
pub proof fn law_done_means_injected_and_flashed(request: Request, events: Seq<BuildEventModel>)
    requires
        build_run(request, events) == Some(BuildStage::Finished),
    ensures
        events.len() >= 2,
        events[events.len() - 2] is Injected,
        events[events.len() - 1] is Flashed,
{
    let before = build_run(request, events.drop_last())->0;
    assert(before is Flash);
    let earlier = build_run(request, events.drop_last().drop_last())->0;
    assert(earlier is Inject);
}

/// The build goes on: what came of each action decides the next, and a check that fails ends
/// the build with its own error.
pub proof fn law_build_goes_on(request: Request)
    ensures
        build_next(
            request,
            BuildStage::CheckPreseed,
            BuildEventModel::PreseedChecked { present: true },
        ) == Some((BuildStage::ProbeXorriso, BuildActionModel::ProbeXorriso)),
        build_next(
            request,
            BuildStage::CheckPreseed,
            BuildEventModel::PreseedChecked { present: false },
        ) == Some(
            (
                BuildStage::Failed { error: BuildError::PreseedMissing },
                BuildActionModel::Fail { error: BuildError::PreseedMissing },
            ),
        ),
        build_next(
            request,
            BuildStage::ProbeXorriso,
            BuildEventModel::XorrisoProbed { probe: Probe::NotStarted },
        ) == Some(
            (
                BuildStage::Failed { error: BuildError::XorrisoMissing },
                BuildActionModel::Fail { error: BuildError::XorrisoMissing },
            ),
        ),
        build_next(
            request,
            BuildStage::ProbeXorriso,
            BuildEventModel::XorrisoProbed { probe: Probe::Exited { success: false } },
        ) == Some(
            (
                BuildStage::Failed { error: BuildError::XorrisoFailed },
                BuildActionModel::Fail { error: BuildError::XorrisoFailed },
            ),
        ),
        build_next(
            request,
            BuildStage::CheckLocalIso,
            BuildEventModel::LocalIsoChecked { present: true },
        ) == Some((BuildStage::Inject, BuildActionModel::Inject)),
        build_next(
            request,
            BuildStage::CheckLocalIso,
            BuildEventModel::LocalIsoChecked { present: false },
        ) == Some(
            (
                BuildStage::Failed { error: BuildError::IsoMissing },
                BuildActionModel::Fail { error: BuildError::IsoMissing },
            ),
        ),
        build_next(request, BuildStage::Download, BuildEventModel::Downloaded) == Some(
            (BuildStage::Inject, BuildActionModel::Inject),
        ),
        build_next(request, BuildStage::Inject, BuildEventModel::Injected) == Some(
            (BuildStage::Flash, BuildActionModel::Flash),
        ),
        build_next(request, BuildStage::Flash, BuildEventModel::Flashed) == Some(
            (BuildStage::Finished, BuildActionModel::Finish),
        ),
{
}

/// With its prerequisites there, the build takes the file that was named; without one, it
/// downloads from the address that was named, which is taken as it is; without either, it
/// asks the mirror.
pub proof fn law_request_decides_on_the_image(request: Request)
    ensures
        build_next(
            request,
            BuildStage::ProbeXorriso,
            BuildEventModel::XorrisoProbed { probe: Probe::Exited { success: true } },
        ) == Some(get_image(request)),
        request.local_iso ==> get_image(request) == (
            BuildStage::CheckLocalIso,
            BuildActionModel::CheckLocalIso,
        ),
        !request.local_iso && request.url is Some ==> get_image(request) == (
            BuildStage::Download,
            BuildActionModel::Download { url: (request.url->0)@ },
        ),
        !request.local_iso && request.url is None ==> get_image(request) == (
            BuildStage::FetchSums,
            BuildActionModel::FetchSums,
        ),
{
}

/// Of the mirror's list, the image in the second field of the first line that lists one is
/// downloaded, from the mirror and under that name; a list without one ends the build.
pub proof fn law_list_decides_on_the_download(request: Request, text: Seq<char>)
    ensures
        match build_next(request, BuildStage::FetchSums, BuildEventModel::SumsFetched { text }) {
            Some((BuildStage::Download, BuildActionModel::Download { url })) => exists|i: int|
                0 <= i < lines(text).len() && lists_first_dvd(#[trigger] lines(text)[i]) && (
                forall|j: int| 0 <= j < i ==> !lists_first_dvd(#[trigger] lines(text)[j])) && url
                    == "https://cdimage.debian.org/debian-cd/current/amd64/iso-dvd/"@ + words(
                    lines(text)[i],
                )[1],
            Some((BuildStage::Failed { error }, BuildActionModel::Fail { error: told })) => error
                == BuildError::NoIsoListed && told == BuildError::NoIsoListed && forall|j: int|
                0 <= j < lines(text).len() ==> !lists_first_dvd(#[trigger] lines(text)[j]),
            _ => false,
        },
{
    law_address_ends_in_the_listed_name(text);
}

/// An event that does not answer what was asked for has no next step, and none has one once
/// the build is done or has failed.
pub proof fn law_other_build_events_are_refused(
    request: Request,
    stage: BuildStage,
    event: BuildEventModel,
)
    ensures
        build_next(request, stage, event) is Some <==> match stage {
            BuildStage::CheckPreseed => event is PreseedChecked,
            BuildStage::ProbeXorriso => event is XorrisoProbed,
            BuildStage::CheckLocalIso => event is LocalIsoChecked,
            BuildStage::FetchSums => event is SumsFetched,
            BuildStage::Download => event is Downloaded,
            BuildStage::Inject => event is Injected,
            BuildStage::Flash => event is Flashed,
            BuildStage::Finished => false,
            BuildStage::Failed { .. } => false,
        },
{
}

/// Where each step comes out well, the build is done in the end: with the file that was
/// named, with the address that was named, or with the image that the list names.
pub proof fn law_build_can_be_done(request: Request, text: Seq<char>)
    requires
        first_listed(lines(text)) is Some,
    ensures
        ({
            let checks = seq![
                BuildEventModel::PreseedChecked { present: true },
                BuildEventModel::XorrisoProbed { probe: Probe::Exited { success: true } },
            ];
            let image = if request.local_iso {
                seq![BuildEventModel::LocalIsoChecked { present: true }]
            } else if request.url is Some {
                seq![BuildEventModel::Downloaded]
            } else {
                seq![BuildEventModel::SumsFetched { text }, BuildEventModel::Downloaded]
            };
            let end = seq![BuildEventModel::Injected, BuildEventModel::Flashed];
            build_run(request, checks + image + end) == Some(BuildStage::Finished)
        }),
{
    let none = Seq::<BuildEventModel>::empty();
    let e1 = none.push(BuildEventModel::PreseedChecked { present: true });
    let e2 = e1.push(BuildEventModel::XorrisoProbed { probe: Probe::Exited { success: true } });
    let e3 = if request.local_iso {
        e2.push(BuildEventModel::LocalIsoChecked { present: true })
    } else if request.url is Some {
        e2.push(BuildEventModel::Downloaded)
    } else {
        e2.push(BuildEventModel::SumsFetched { text }).push(BuildEventModel::Downloaded)
    };
    let e4 = e3.push(BuildEventModel::Injected);
    let e5 = e4.push(BuildEventModel::Flashed);
    assert(build_run(request, none) == Some(BuildStage::CheckPreseed));
    assert(e1.drop_last() =~= none);
    assert(build_run(request, e1) == Some(BuildStage::ProbeXorriso));
    assert(e2.drop_last() =~= e1);
    assert(build_run(request, e2) matches Some(stage) && stage == get_image(request).0);
    if !request.local_iso && request.url is None {
        let fetched = e2.push(BuildEventModel::SumsFetched { text });
        assert(fetched.drop_last() =~= e2);
        assert(build_run(request, fetched) == Some(BuildStage::Download));
        assert(e3.drop_last() =~= fetched);
    } else {
        assert(e3.drop_last() =~= e2);
    }
    assert(build_run(request, e3) == Some(BuildStage::Inject));
    assert(e4.drop_last() =~= e3);
    assert(build_run(request, e4) == Some(BuildStage::Flash));
    assert(e5.drop_last() =~= e4);
    let checks = seq![
        BuildEventModel::PreseedChecked { present: true },
        BuildEventModel::XorrisoProbed { probe: Probe::Exited { success: true } },
    ];
    let image = if request.local_iso {
        seq![BuildEventModel::LocalIsoChecked { present: true }]
    } else if request.url is Some {
        seq![BuildEventModel::Downloaded]
    } else {
        seq![BuildEventModel::SumsFetched { text }, BuildEventModel::Downloaded]
    };
    let end = seq![BuildEventModel::Injected, BuildEventModel::Flashed];
    assert(checks + image + end =~= e5);
}

/// The models of what is handed in and out show all of it.
pub proof fn law_build_models_show_all(
    flag: bool,
    probe: Probe,
    text: String,
    error: BuildError,
)
    ensures
        (BuildEvent::PreseedChecked { present: flag })@ == (BuildEventModel::PreseedChecked {
            present: flag,
        }),
        (BuildEvent::XorrisoProbed { probe })@ == (BuildEventModel::XorrisoProbed { probe }),
        (BuildEvent::LocalIsoChecked { present: flag })@ == (BuildEventModel::LocalIsoChecked {
            present: flag,
        }),
        (BuildEvent::SumsFetched { text })@ == (BuildEventModel::SumsFetched { text: text@ }),
        BuildEvent::Downloaded@ == BuildEventModel::Downloaded,
        BuildEvent::Injected@ == BuildEventModel::Injected,
        BuildEvent::Flashed@ == BuildEventModel::Flashed,
        BuildAction::CheckPreseed@ == BuildActionModel::CheckPreseed,
        BuildAction::ProbeXorriso@ == BuildActionModel::ProbeXorriso,
        BuildAction::CheckLocalIso@ == BuildActionModel::CheckLocalIso,
        BuildAction::FetchSums@ == BuildActionModel::FetchSums,
        (BuildAction::Download { url: text })@ == (BuildActionModel::Download { url: text@ }),
        BuildAction::Inject@ == BuildActionModel::Inject,
        BuildAction::Flash@ == BuildActionModel::Flash,
        BuildAction::Finish@ == BuildActionModel::Finish,
        (BuildAction::Fail { error })@ == (BuildActionModel::Fail { error }),
{
}

} // verus!
