use debian_installer_builder::initrd::preseed_member;
use std::io::Read;

fn unpacked(stream: &[u8]) -> Vec<u8> {
    let mut archive = Vec::new();
    flate2::read::GzDecoder::new(stream)
        .read_to_end(&mut archive)
        .unwrap();
    archive
}

fn check_only_file(text: &str) {
    let stream = preseed_member(text).unwrap();
    let archive = unpacked(&stream);
    assert_eq!(archive.len() % 4, 0);
    assert_eq!(&archive[0..6], b"070701");
    assert_eq!(&archive[14..22], b"000081a4");
    assert_eq!(&archive[54..62], format!("{:08x}", text.len()).as_bytes());
    assert_eq!(&archive[94..102], b"0000000c");
    assert_eq!(&archive[110..122], b"preseed.cfg\0");
    assert_eq!(&archive[124..124 + text.len()], text.as_bytes());
    let end = (124 + text.len() + 3) / 4 * 4;
    assert_eq!(archive.len(), end + 124);
    assert_eq!(&archive[end + 110..end + 121], b"TRAILER!!!\0");

    let mut reader = cpio::NewcReader::new(archive.as_slice()).unwrap();
    assert_eq!(reader.entry().name(), "preseed.cfg");
    assert_eq!(reader.entry().mode(), 0o100644);
    let mut content = String::new();
    reader.read_to_string(&mut content).unwrap();
    assert_eq!(content, text);
    let rest = reader.finish().unwrap();
    let last = cpio::NewcReader::new(rest).unwrap();
    assert!(last.entry().is_trailer());
}

#[test]
fn member_holds_the_configuration_alone() {
    for text in ["", "a", "ab", "abc", "abcd", "d-i x string \u{e4}\u{1f600}\n"] {
        check_only_file(text);
    }
}

#[test]
fn member_of_a_long_configuration() {
    let mut text = String::new();
    for i in 0..20000 {
        text.push_str(&format!("d-i some/key{i} string {}\n", i * 7919));
    }
    check_only_file(&text);
    assert!(preseed_member(&text).unwrap().len() < text.len() / 2);
}

#[test]
fn member_is_the_same_each_time() {
    let stream = preseed_member("text\n").unwrap();
    assert_eq!(stream, preseed_member("text\n").unwrap());
    assert_eq!(&stream[0..10], &[0x1f, 0x8b, 8, 0, 0, 0, 0, 0, 2, 255]);
    assert_ne!(stream, preseed_member("text").unwrap());
}

#[test]
fn member_can_be_appended_to_another() {
    let first = preseed_member("one").unwrap();
    let second = preseed_member("two").unwrap();
    let mut whole = first.clone();
    whole.extend_from_slice(&second);
    let mut archives = Vec::new();
    flate2::read::MultiGzDecoder::new(whole.as_slice())
        .read_to_end(&mut archives)
        .unwrap();
    let mut expected = unpacked(&first);
    expected.extend(unpacked(&second));
    assert_eq!(archives, expected);
}

#[test]
fn archive_to_the_byte() {
    let zeros = "00000000";
    let mut expected = String::from("070701");
    for number in [zeros, "000081a4", zeros, zeros, "00000001", zeros, "00000005"] {
        expected.push_str(number);
    }
    for number in [zeros, zeros, zeros, zeros, "0000000c", zeros] {
        expected.push_str(number);
    }
    expected.push_str("preseed.cfg\0\0\0hello\0\0\0070701");
    for number in [zeros, zeros, zeros, zeros, "00000001", zeros, zeros] {
        expected.push_str(number);
    }
    for number in [zeros, zeros, zeros, zeros, "0000000b", zeros] {
        expected.push_str(number);
    }
    expected.push_str("TRAILER!!!\0\0\0\0");
    assert_eq!(unpacked(&preseed_member("hello").unwrap()), expected.as_bytes());
}

#[test]
fn stream_is_what_the_encoder_makes_of_the_writes() {
    for text in ["", "a", "ab", "abc", "abcd", "d-i x string y\n"] {
        let mut encoder = flate2::write::GzEncoder::new(Vec::new(), flate2::Compression::best());
        let builder = cpio::NewcBuilder::new("preseed.cfg").mode(0o100644);
        let input = vec![(builder, std::io::Cursor::new(text.to_string()))];
        cpio::write_cpio(input.into_iter(), &mut encoder).unwrap();
        assert_eq!(preseed_member(text), Ok(encoder.finish().unwrap()));
    }
}

#[test]
fn stream_has_a_point_to_read_up_to_behind_the_padding() {
    let synced = |text: &str| {
        let stream = preseed_member(text).unwrap();
        stream.windows(4).any(|w| w == [0, 0, 255, 255])
    };
    assert!(synced("a"));
    assert!(synced("abc"));
    assert!(!synced("abcd"));
    assert!(!synced(""));
}
