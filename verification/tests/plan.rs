use debian_installer_builder::error::BuildError;
use debian_installer_builder::plan::{
    build_start, build_step, choose_image, BuildAction, BuildEvent, BuildStage, Request,
};
use debian_installer_builder::xorriso::Probe;

fn request(local_iso: bool, url: Option<&str>) -> Request {
    Request { local_iso, url: url.map(String::from) }
}

fn probed(success: bool) -> BuildEvent {
    BuildEvent::XorrisoProbed { probe: Probe::Exited { success } }
}

fn after_checks(request: &Request) -> (BuildStage, BuildAction) {
    let (stage, action) = build_start();
    assert!(matches!(action, BuildAction::CheckPreseed));
    let (stage, action) =
        build_step(request, stage, BuildEvent::PreseedChecked { present: true }).unwrap();
    assert!(matches!(action, BuildAction::ProbeXorriso));
    build_step(request, stage, probed(true)).unwrap()
}

fn error_of(step: Option<(BuildStage, BuildAction)>) -> BuildError {
    match step {
        Some((BuildStage::Failed { error }, BuildAction::Fail { error: e })) => {
            assert_eq!(error, e);
            error
        }
        _ => panic!("no failure"),
    }
}

#[test]
fn local_image_skips_the_download() {
    let request = request(true, Some("http://x/y.iso"));
    let (stage, action) = after_checks(&request);
    assert!(matches!(action, BuildAction::CheckLocalIso));
    let (stage, action) =
        build_step(&request, stage, BuildEvent::LocalIsoChecked { present: true }).unwrap();
    assert!(matches!(action, BuildAction::Inject));
    let (stage, action) = build_step(&request, stage, BuildEvent::Injected).unwrap();
    assert!(matches!(action, BuildAction::Flash));
    let (stage, action) = build_step(&request, stage, BuildEvent::Flashed).unwrap();
    assert!(matches!(action, BuildAction::Finish));
    assert_eq!(stage, BuildStage::Finished);
    assert!(build_step(&request, stage, BuildEvent::Flashed).is_none());
}

#[test]
fn named_address_is_downloaded() {
    let request = request(false, Some("http://x/y.iso"));
    let (stage, action) = after_checks(&request);
    assert!(matches!(action, BuildAction::Download { url } if url == "http://x/y.iso"));
    let (_, action) = build_step(&request, stage, BuildEvent::Downloaded).unwrap();
    assert!(matches!(action, BuildAction::Inject));
}

#[test]
fn without_an_address_the_latest_image_is_downloaded() {
    let request = request(false, None);
    let (stage, action) = after_checks(&request);
    assert!(matches!(action, BuildAction::FetchSums));
    let text = "00  debian-13.1.0-amd64-DVD-1.iso\n".to_string();
    let (stage, action) = build_step(&request, stage, BuildEvent::SumsFetched { text }).unwrap();
    assert!(matches!(action, BuildAction::Download { url } if url
        == "https://cdimage.debian.org/debian-cd/current/amd64/iso-dvd/debian-13.1.0-amd64-DVD-1.iso"));
    assert_eq!(stage, BuildStage::Download);
}

#[test]
fn each_check_can_end_the_build() {
    let named = request(true, None);
    let (stage, _) = build_start();
    let event = BuildEvent::PreseedChecked { present: false };
    assert_eq!(error_of(build_step(&named, stage, event)), BuildError::PreseedMissing);

    let stage = BuildStage::ProbeXorriso;
    let event = BuildEvent::XorrisoProbed { probe: Probe::NotStarted };
    assert_eq!(error_of(build_step(&named, stage, event)), BuildError::XorrisoMissing);
    assert_eq!(error_of(build_step(&named, stage, probed(false))), BuildError::XorrisoFailed);

    let (stage, _) = after_checks(&named);
    let event = BuildEvent::LocalIsoChecked { present: false };
    assert_eq!(error_of(build_step(&named, stage, event)), BuildError::IsoMissing);

    let latest = request(false, None);
    let (stage, _) = after_checks(&latest);
    let event = BuildEvent::SumsFetched { text: String::new() };
    assert_eq!(error_of(build_step(&latest, stage, event)), BuildError::NoIsoListed);
}

#[test]
fn nothing_comes_before_the_checks() {
    let request = request(false, None);
    let (stage, _) = build_start();
    assert!(build_step(&request, stage, BuildEvent::Downloaded).is_none());
    assert!(build_step(&request, stage, BuildEvent::Injected).is_none());
    assert!(build_step(&request, stage, BuildEvent::Flashed).is_none());
    assert!(build_step(&request, stage, probed(true)).is_none());
}

#[test]
fn image_is_chosen_by_what_was_named() {
    assert_eq!(choose_image(&request(true, None)).0, BuildStage::CheckLocalIso);
    assert_eq!(choose_image(&request(true, Some("u"))).0, BuildStage::CheckLocalIso);
    assert_eq!(choose_image(&request(false, Some("u"))).0, BuildStage::Download);
    assert_eq!(choose_image(&request(false, None)).0, BuildStage::FetchSums);
}
