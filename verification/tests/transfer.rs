use debian_installer_builder::error::BuildError;
use debian_installer_builder::transfer::{
    announced_size, block_to_write, flash_step, flash_to_usb, FlashAction, FlashEvent, FlashStage,
    BLOCK_SIZE,
};

#[test]
fn size_of_a_download_must_be_announced() {
    assert_eq!(announced_size(Some(0)), Ok(0));
    assert_eq!(announced_size(Some(3_900_000_000)), Ok(3_900_000_000));
    assert_eq!(announced_size(None), Err(BuildError::NoContentLength));
}

#[test]
fn block_is_what_was_read() {
    assert_eq!(BLOCK_SIZE, 4 * 1024 * 1024);
    assert_eq!(block_to_write(&[1, 2, 3], 2), Some(&[1u8, 2][..]));
    assert_eq!(block_to_write(&[1, 2, 3], 3), Some(&[1u8, 2, 3][..]));
    assert_eq!(block_to_write(&[1, 2, 3], 0), None);
    assert_eq!(block_to_write(&[], 0), None);
}

/// Writes `image` to a device by reads of at most `size` bytes, and gives what the device
/// got and a letter for each action. After `stop` actions the writing breaks off.
fn flashed(image: &[u8], size: usize, stop: usize) -> (Vec<u8>, String) {
    let mut device = Vec::new();
    let mut log = String::new();
    let mut buffer = vec![0u8; size];
    let mut pos = 0;
    let (mut stage, mut action) = flash_to_usb();
    assert_eq!(stage, FlashStage::Reading);
    while log.len() < stop {
        let event = match action {
            FlashAction::Read => {
                log.push('r');
                let wanted = if pos == size { 1 } else { size };
                let n = std::cmp::min(wanted, image.len() - pos);
                buffer[..n].copy_from_slice(&image[pos..pos + n]);
                pos += n;
                FlashEvent::Read { buffer: &buffer, bytes_read: n }
            }
            FlashAction::Write { block } => {
                log.push('w');
                device.extend_from_slice(block);
                FlashEvent::Written
            }
            FlashAction::Sync => {
                log.push('s');
                FlashEvent::Synced
            }
            FlashAction::Finish => {
                log.push('f');
                assert_eq!(stage, FlashStage::Finished);
                break;
            }
        };
        let (next, asked) = flash_step(stage, event).unwrap();
        stage = next;
        action = asked;
    }
    (device, log)
}

#[test]
fn device_gets_the_image() {
    let image: Vec<u8> = (0..1000u32).map(|i| (i % 251) as u8).collect();
    assert_eq!(flashed(&image, 64, 10000).0, image);
    assert_eq!(flashed(&image[..3], 2, 100), (vec![0, 1, 2], "rwsrwsrf".to_string()));
    assert_eq!(flashed(&[], 2, 100), (vec![], "rf".to_string()));
}

#[test]
fn device_gets_the_start_of_the_image_at_any_time() {
    let image: Vec<u8> = (0..1000u32).map(|i| (i % 251) as u8).collect();
    for stop in 0..50 {
        let (device, log) = flashed(&image, 64, stop);
        assert!(image.starts_with(&device));
        assert_eq!(log, "rws".repeat(20)[..log.len()]);
        assert!(log.len() <= 3 * image.len() + 1);
    }
}

#[test]
fn flashing_waits_for_its_events_alone() {
    let read = |n| FlashEvent::Read { buffer: &[7, 8], bytes_read: n };
    assert!(flash_step(FlashStage::Reading, FlashEvent::Written).is_none());
    assert!(flash_step(FlashStage::Reading, FlashEvent::Synced).is_none());
    assert!(flash_step(FlashStage::Writing, read(1)).is_none());
    assert!(flash_step(FlashStage::Writing, FlashEvent::Synced).is_none());
    assert!(flash_step(FlashStage::Syncing, read(1)).is_none());
    assert!(flash_step(FlashStage::Syncing, FlashEvent::Written).is_none());
    assert!(flash_step(FlashStage::Finished, read(1)).is_none());
    assert!(flash_step(FlashStage::Finished, FlashEvent::Written).is_none());
    match flash_step(FlashStage::Reading, read(1)) {
        Some((FlashStage::Writing, FlashAction::Write { block })) => assert_eq!(block, &[7]),
        _ => panic!("wrong step"),
    }
}

#[test]
fn messages() {
    let expected = [
        (BuildError::PreseedMissing, "Preseed file not found at"),
        (BuildError::IsoMissing, "Provided ISO path does not exist"),
        (
            BuildError::XorrisoMissing,
            "Failed to execute xorriso. Is it installed? (Try: apt install xorriso)",
        ),
        (BuildError::XorrisoFailed, "xorriso command failed."),
        (BuildError::NoContentLength, "Failed to get content length from response"),
        (
            BuildError::InitrdNotFound,
            "Failed to extract initrd.gz from ISO. Is this a valid Debian installer ISO?",
        ),
        (BuildError::PreseedTooLarge, "trying to write more than the specified file size"),
        (BuildError::ArchiveFailed, "Failed to archive the preseed file"),
        (BuildError::RepackFailed, "Failed to repack ISO with xorriso"),
    ];
    for (error, message) in expected {
        assert_eq!(error.message(), message);
    }
}
