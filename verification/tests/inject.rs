use debian_installer_builder::error::BuildError;
use debian_installer_builder::initrd::preseed_member;
use debian_installer_builder::inject::{
    inject_preseed, inject_step, member_made, menu_text, patch_menus, Action, Event, Job, MenuFile,
    MenuTexts, Stage,
};
use debian_installer_builder::xorriso::{
    extract_initrd_args, extract_menus_args, repack_args, InitrdPlace, Menus, Paths,
};

fn job() -> Job {
    Job {
        paths: Paths {
            original_iso: "/in.iso".to_string(),
            output_iso: "/out.iso".to_string(),
            initrd: "/t/initrd.gz".to_string(),
            isolinux: "/t/isolinux.cfg".to_string(),
            txt: "/t/txt.cfg".to_string(),
            grub: "/t/grub.cfg".to_string(),
        },
        username: Some("testuser".to_string()),
        password: None,
        hostname: Some("testvm".to_string()),
        serial_console: true,
    }
}

fn found() -> Event {
    Event::InitrdExtracted { success: true, present: true }
}

fn no_menus() -> MenuTexts {
    MenuTexts { isolinux: None, txt: None, grub: None }
}

#[test]
fn whole_run() {
    let job = job();
    let (stage, action) = inject_preseed(&job);
    assert_eq!(stage, Stage::FindInitrd { place: InitrdPlace::Amd64 });
    match action {
        Action::ExtractInitrd { args } => {
            assert_eq!(args, extract_initrd_args(&job.paths, InitrdPlace::Amd64))
        }
        _ => panic!("wrong action"),
    }

    let (stage, action) = inject_step(&job, stage, found()).unwrap();
    assert!(matches!(action, Action::ReadPreseed));

    let text = "d-i passwd/username string x\nd-i y boolean true\n".to_string();
    let (stage, action) = inject_step(&job, stage, Event::PreseedRead { text }).unwrap();
    match action {
        Action::AppendToInitrd { member } => assert_eq!(
            Ok(member),
            preseed_member(
                "d-i passwd/username string testuser\nd-i y boolean true\n\
                 d-i netcfg/get_hostname string testvm\n"
            )
        ),
        _ => panic!("wrong action"),
    }

    let (stage, action) = inject_step(&job, stage, Event::MemberAppended).unwrap();
    match action {
        Action::ExtractMenus { args } => assert_eq!(args, extract_menus_args(&job.paths)),
        _ => panic!("wrong action"),
    }

    let texts = MenuTexts {
        isolinux: None,
        txt: Some("append --- quiet".to_string()),
        grub: Some("linux --- quiet".to_string()),
    };
    let (stage, action) = inject_step(&job, stage, Event::MenusExtracted { texts }).unwrap();
    match action {
        Action::WriteMenus { texts } => {
            assert_eq!(texts.isolinux, None);
            assert_eq!(
                texts.txt.unwrap(),
                "append console=ttyS0,115200n8 auto=true priority=critical --- quiet"
            );
            assert_eq!(
                texts.grub.unwrap(),
                "set timeout=1\nset default=\"Install\"\n\
                 linux console=ttyS0,115200n8 auto=true priority=critical --- quiet"
            );
        }
        _ => panic!("wrong action"),
    }

    let (stage, action) = inject_step(&job, stage, Event::MenusWritten).unwrap();
    let menus = Menus { isolinux: false, txt: true, grub: true };
    assert_eq!(stage, Stage::Repack { place: InitrdPlace::Amd64, menus });
    match action {
        Action::Repack { args } => {
            assert_eq!(args, repack_args(&job.paths, InitrdPlace::Amd64, menus))
        }
        _ => panic!("wrong action"),
    }

    let (stage, action) = inject_step(&job, stage, Event::Repacked { success: true }).unwrap();
    assert_eq!(stage, Stage::Finished);
    assert!(matches!(action, Action::Finish));
    assert!(inject_step(&job, stage, Event::Repacked { success: true }).is_none());
}

#[test]
fn initrd_is_put_back_where_it_was_found() {
    let job = job();
    let (stage, _) = inject_preseed(&job);
    let event = Event::InitrdExtracted { success: true, present: false };
    let (stage, action) = inject_step(&job, stage, event).unwrap();
    assert_eq!(stage, Stage::FindInitrd { place: InitrdPlace::Plain });
    match action {
        Action::ExtractInitrd { args } => {
            assert_eq!(args, extract_initrd_args(&job.paths, InitrdPlace::Plain))
        }
        _ => panic!("wrong action"),
    }
    let (stage, _) = inject_step(&job, stage, found()).unwrap();
    let (stage, _) = inject_step(&job, stage, Event::PreseedRead { text: String::new() }).unwrap();
    let (stage, _) = inject_step(&job, stage, Event::MemberAppended).unwrap();
    let (stage, _) =
        inject_step(&job, stage, Event::MenusExtracted { texts: no_menus() }).unwrap();
    let (_, action) = inject_step(&job, stage, Event::MenusWritten).unwrap();
    match action {
        Action::Repack { args } => {
            assert!(args.contains(&"/install/initrd.gz".to_string()));
            assert!(!args.contains(&"/isolinux/txt.cfg".to_string()));
        }
        _ => panic!("wrong action"),
    }
}

#[test]
fn initrd_at_neither_place_is_an_error() {
    let job = job();
    let (stage, _) = inject_preseed(&job);
    let event = Event::InitrdExtracted { success: false, present: true };
    let (stage, _) = inject_step(&job, stage, event).unwrap();
    let event = Event::InitrdExtracted { success: false, present: false };
    let (stage, action) = inject_step(&job, stage, event).unwrap();
    assert_eq!(stage, Stage::Failed { error: BuildError::InitrdNotFound });
    assert!(matches!(action, Action::Fail { error: BuildError::InitrdNotFound }));
    assert!(inject_step(&job, stage, found()).is_none());
}

#[test]
fn failed_repack_is_an_error() {
    let job = job();
    let menus = Menus { isolinux: true, txt: true, grub: true };
    let stage = Stage::Repack { place: InitrdPlace::Amd64, menus };
    let (stage, action) = inject_step(&job, stage, Event::Repacked { success: false }).unwrap();
    assert_eq!(stage, Stage::Failed { error: BuildError::RepackFailed });
    assert!(matches!(action, Action::Fail { error: BuildError::RepackFailed }));
}

#[test]
fn failed_member_is_an_error() {
    for error in [
        BuildError::PreseedTooLarge,
        BuildError::ArchiveFailed,
    ] {
        let (stage, action) = member_made(InitrdPlace::Plain, Err(error));
        assert_eq!(stage, Stage::Failed { error });
        assert!(matches!(action, Action::Fail { error: e } if e == error));
    }
    let (stage, action) = member_made(InitrdPlace::Plain, Ok(vec![1, 2, 3]));
    assert_eq!(stage, Stage::AppendMember { place: InitrdPlace::Plain });
    assert!(matches!(action, Action::AppendToInitrd { member } if member == vec![1, 2, 3]));
}

#[test]
fn events_that_are_not_waited_for_are_refused() {
    let job = job();
    let (stage, _) = inject_preseed(&job);
    assert!(inject_step(&job, stage, Event::MemberAppended).is_none());
    assert!(inject_step(&job, stage, Event::PreseedRead { text: String::new() }).is_none());
    assert!(inject_step(&job, stage, Event::MenusWritten).is_none());
    assert!(inject_step(&job, stage, Event::MenusExtracted { texts: no_menus() }).is_none());
}

#[test]
fn menus_that_are_there_are_patched() {
    let texts = MenuTexts {
        isolinux: Some("timeout 0\n".to_string()),
        txt: Some(String::new()),
        grub: None,
    };
    let patched = patch_menus(&texts, false);
    assert_eq!(patched.isolinux.unwrap(), "timeout 10\n");
    assert_eq!(patched.txt.unwrap(), "");
    assert_eq!(patched.grub, None);
}

#[test]
fn unreadable_menu_counts_as_empty() {
    assert_eq!(menu_text(MenuFile::Missing), None);
    assert_eq!(menu_text(MenuFile::Unreadable), Some(String::new()));
    let text = "timeout 0".to_string();
    assert_eq!(menu_text(MenuFile::Readable { text }), Some("timeout 0".to_string()));
}

#[test]
fn serial_console_touches_menus_alone() {
    let serial = job();
    let plain = Job { serial_console: false, ..job() };
    let texts = || MenuTexts {
        isolinux: Some("timeout 0".to_string()),
        txt: Some("--- quiet".to_string()),
        grub: None,
    };
    let a = patch_menus(&texts(), serial.serial_console);
    let b = patch_menus(&texts(), plain.serial_console);
    assert_eq!(a.isolinux, b.isolinux);
    assert_ne!(a.txt, b.txt);
    let stage = Stage::ReadPreseed { place: InitrdPlace::Plain };
    let event = || Event::PreseedRead { text: "x\n".to_string() };
    match (inject_step(&serial, stage, event()), inject_step(&plain, stage, event())) {
        (
            Some((s, Action::AppendToInitrd { member: m })),
            Some((t, Action::AppendToInitrd { member: n })),
        ) => {
            assert_eq!(s, t);
            assert_eq!(m, n);
        }
        _ => panic!("wrong step"),
    }
}
