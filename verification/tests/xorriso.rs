use debian_installer_builder::error::BuildError;
use debian_installer_builder::xorriso::{
    check_xorriso, extract_initrd_args, extract_menus_args, repack_args, version_args, InitrdPlace,
    Menus, Paths, Probe,
};

fn paths() -> Paths {
    Paths {
        original_iso: "/in.iso".to_string(),
        output_iso: "/out.iso".to_string(),
        initrd: "/t/initrd.gz".to_string(),
        isolinux: "/t/isolinux.cfg".to_string(),
        txt: "/t/txt.cfg".to_string(),
        grub: "/t/grub.cfg".to_string(),
    }
}

#[test]
fn probe_tells_whether_xorriso_can_be_used() {
    assert_eq!(version_args(), vec!["-version"]);
    assert_eq!(check_xorriso(Probe::Exited { success: true }), Ok(()));
    assert_eq!(check_xorriso(Probe::Exited { success: false }), Err(BuildError::XorrisoFailed));
    assert_eq!(check_xorriso(Probe::NotStarted), Err(BuildError::XorrisoMissing));
}

#[test]
fn initrd_is_extracted_from_either_place() {
    assert_eq!(
        extract_initrd_args(&paths(), InitrdPlace::Amd64),
        vec!["-osirrox", "on", "-indev", "/in.iso", "-extract", "/install.amd/initrd.gz", "/t/initrd.gz"]
    );
    assert_eq!(
        extract_initrd_args(&paths(), InitrdPlace::Plain),
        vec!["-osirrox", "on", "-indev", "/in.iso", "-extract", "/install/initrd.gz", "/t/initrd.gz"]
    );
}

#[test]
fn menus_are_extracted_together() {
    assert_eq!(
        extract_menus_args(&paths()),
        vec![
            "-osirrox",
            "on",
            "-indev",
            "/in.iso",
            "-extract",
            "/isolinux/isolinux.cfg",
            "/t/isolinux.cfg",
            "-extract",
            "/isolinux/txt.cfg",
            "/t/txt.cfg",
            "-extract",
            "/boot/grub/grub.cfg",
            "/t/grub.cfg",
        ]
    );
}

#[test]
fn files_go_back_where_they_came_from() {
    let menus = Menus { isolinux: true, txt: true, grub: true };
    assert_eq!(
        repack_args(&paths(), InitrdPlace::Amd64, menus),
        vec![
            "-indev",
            "/in.iso",
            "-outdev",
            "/out.iso",
            "-overwrite",
            "on",
            "-map",
            "/t/initrd.gz",
            "/install.amd/initrd.gz",
            "-map",
            "/t/isolinux.cfg",
            "/isolinux/isolinux.cfg",
            "-map",
            "/t/txt.cfg",
            "/isolinux/txt.cfg",
            "-map",
            "/t/grub.cfg",
            "/boot/grub/grub.cfg",
            "-boot_image",
            "any",
            "replay",
        ]
    );
}

#[test]
fn menus_that_are_not_there_are_not_put_back() {
    let menus = Menus { isolinux: false, txt: false, grub: true };
    assert_eq!(
        repack_args(&paths(), InitrdPlace::Plain, menus),
        vec![
            "-indev",
            "/in.iso",
            "-outdev",
            "/out.iso",
            "-overwrite",
            "on",
            "-map",
            "/t/initrd.gz",
            "/install/initrd.gz",
            "-map",
            "/t/grub.cfg",
            "/boot/grub/grub.cfg",
            "-boot_image",
            "any",
            "replay",
        ]
    );
}
