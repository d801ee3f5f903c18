use debian_installer_builder::boot::{
    extra_kernel_args, patch_grub_cfg, patch_isolinux_cfg, patch_txt_cfg,
};

const ENTRY: &str = "label install\n\tkernel /install.amd/vmlinuz\n\tappend vga=788 initrd=/install.amd/initrd.gz --- quiet \n";

#[test]
fn isolinux_waits_a_second_and_boots_the_installer() {
    let cfg = "# D-I config\npath \nprompt 0\ntimeout 0\ndefault vesamenu.c32\n";
    assert_eq!(
        patch_isolinux_cfg(cfg),
        "# D-I config\npath \nprompt 0\ntimeout 10\ndefault install\n"
    );
}

#[test]
fn isolinux_keeps_no_endless_wait() {
    let patched = patch_isolinux_cfg("timeout 0timeout 00default vesamenu.c32default vesamenu.c32");
    assert_eq!(patched, "timeout 10timeout 100default installdefault install");
    assert!(!patched.contains("timeout 0"));
    assert!(!patched.contains("default vesamenu.c32"));
}

#[test]
fn kernel_arguments_depend_on_the_console() {
    assert_eq!(extra_kernel_args(false), "auto=true priority=critical --- quiet");
    assert_eq!(
        extra_kernel_args(true),
        "console=ttyS0,115200n8 auto=true priority=critical --- quiet"
    );
}

#[test]
fn entries_install_unattended() {
    assert_eq!(
        patch_txt_cfg(ENTRY, false),
        "label install\n\tkernel /install.amd/vmlinuz\n\tappend vga=788 initrd=/install.amd/initrd.gz auto=true priority=critical --- quiet \n"
    );
    let twice = format!("{ENTRY}{ENTRY}");
    let patched = patch_txt_cfg(&twice, true);
    assert_eq!(patched.matches("--- quiet").count(), 2);
    assert_eq!(
        patched
            .matches("console=ttyS0,115200n8 auto=true priority=critical --- quiet")
            .count(),
        2
    );
}

#[test]
fn grub_starts_with_its_header() {
    assert_eq!(
        patch_grub_cfg("linux /vmlinuz --- quiet\n", false),
        "set timeout=1\nset default=\"Install\"\nlinux /vmlinuz auto=true priority=critical --- quiet\n"
    );
    assert_eq!(patch_grub_cfg("", true), "set timeout=1\nset default=\"Install\"\n");
    assert_eq!(
        patch_grub_cfg("a --- quiet b --- quiet", true).matches(" priority=critical --- quiet").count(),
        2
    );
}

#[test]
fn serial_console_is_opt_in() {
    assert!(!patch_txt_cfg(ENTRY, false).contains("console=ttyS0"));
    assert!(!patch_grub_cfg(ENTRY, false).contains("console=ttyS0"));
    assert!(patch_txt_cfg(ENTRY, true).contains("console=ttyS0,115200n8"));
    assert!(patch_grub_cfg(ENTRY, true).contains("console=ttyS0,115200n8"));
}

#[test]
fn menus_with_nothing_to_patch_stay() {
    assert_eq!(patch_isolinux_cfg("timeout 50\n"), "timeout 50\n");
    assert_eq!(patch_txt_cfg("---  quiet\n", true), "---  quiet\n");
    assert_eq!(patch_isolinux_cfg(""), "");
}

#[test]
fn serial_console_adds_its_argument_alone() {
    for cfg in ["", ENTRY, "--- quiet--- quiet", "console=tty0 --- quiet consol"] {
        assert_eq!(
            patch_txt_cfg(cfg, true).replace("console=ttyS0,115200n8 ", ""),
            patch_txt_cfg(cfg, false)
        );
        assert_eq!(
            patch_grub_cfg(cfg, true).replace("console=ttyS0,115200n8 ", ""),
            patch_grub_cfg(cfg, false)
        );
    }
}
