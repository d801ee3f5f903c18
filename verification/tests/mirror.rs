use debian_installer_builder::error::BuildError;
use debian_installer_builder::mirror::{find_iso_name, get_latest_debian_iso_url, names_first_dvd, sums_url};
use debian_installer_builder::text::to_chars;

#[test]
fn sums_are_beside_the_images() {
    assert_eq!(
        sums_url(),
        "https://cdimage.debian.org/debian-cd/current/amd64/iso-dvd/SHA512SUMS"
    );
}

#[test]
fn first_fitting_line_decides() {
    let sums = "0a  debian-edu-13.1.0-amd64-DVD-1.iso\n\
                0b  debian-mac-13.1.0-amd64-DVD-1.iso\n\
                0c  debian-13.1.0-amd64-DVD-2.iso\n\
                debian-13.0.0-amd64-DVD-1.iso\n\
                0d  debian-13.0.0-amd64-DVD-1.iso extra\n\
                0e  debian-13.1.0-amd64-DVD-1.iso\r\n\
                0f  debian-14.0.0-amd64-DVD-1.iso\n";
    assert_eq!(find_iso_name(sums), Some("debian-13.1.0-amd64-DVD-1.iso".to_string()));
    assert_eq!(
        get_latest_debian_iso_url(sums),
        Ok("https://cdimage.debian.org/debian-cd/current/amd64/iso-dvd/debian-13.1.0-amd64-DVD-1.iso"
            .to_string())
    );
}

#[test]
fn found_address_is_a_first_dvd() {
    let url = get_latest_debian_iso_url(" \tff \u{a0} debian--amd64-DVD-1.iso  ").unwrap();
    assert!(url.starts_with("https://cdimage.debian.org/debian-cd/current/amd64/iso-dvd/debian-"));
    assert!(url.ends_with("-amd64-DVD-1.iso"));
}

#[test]
fn without_a_fitting_line_there_is_no_address() {
    for sums in ["", "\n", "00  debian-13.1.0-arm64-DVD-1.iso\n", "00 xdebian-1-amd64-DVD-1.iso"] {
        assert_eq!(find_iso_name(sums), None);
        assert_eq!(get_latest_debian_iso_url(sums), Err(BuildError::NoIsoListed));
    }
    assert_eq!(
        BuildError::NoIsoListed.message(),
        "Could not determine the latest stable ISO filename from \
         https://cdimage.debian.org/debian-cd/current/amd64/iso-dvd/SHA512SUMS"
    );
}

#[test]
fn names_of_first_dvds() {
    assert!(names_first_dvd(&to_chars("debian-13.1.0-amd64-DVD-1.iso")));
    assert!(names_first_dvd(&to_chars("debian-amd64-DVD-1.iso")));
    assert!(!names_first_dvd(&to_chars("debian-DVD-1.iso")));
    assert!(!names_first_dvd(&to_chars("debian-13-mac-amd64-DVD-1.iso")));
    assert!(!names_first_dvd(&to_chars("debian-edu-13-amd64-DVD-1.iso")));
    assert!(!names_first_dvd(&to_chars("debian-13.1.0-amd64-DVD-1.iso.torrent")));
}
