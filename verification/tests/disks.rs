use ps5de_core::disk::{Disk, Risk};
use ps5de_core::error::{Error, IoFailure};
use ps5de_core::find_disk;
use ps5de_core::image::{validate, EXPECTED_IMAGE_LEN};

fn disk(id: &str, raw: &str, system: bool, internal: bool, removable: bool) -> Disk {
    Disk {
        id: id.to_string(),
        raw_path: raw.to_string(),
        model: "Samsung SSD 980 1TB".to_string(),
        size: 1_000_204_886_016,
        bus: "USB".to_string(),
        removable,
        internal,
        system,
    }
}

#[test]
fn risk_classes() {
    assert_eq!(disk("a", "a", true, true, false).risk(), Risk::System);
    assert_eq!(disk("a", "a", true, false, true).risk(), Risk::System);
    assert_eq!(disk("a", "a", false, true, false).risk(), Risk::Internal);
    assert_eq!(disk("a", "a", false, true, true).risk(), Risk::Removable);
    assert_eq!(disk("a", "a", false, false, false).risk(), Risk::Removable);
}

#[test]
fn validate_accepts_block_multiples_only() {
    assert!(validate(&vec![0u8; EXPECTED_IMAGE_LEN]).is_ok());
    assert!(validate(&[0u8; 4096]).is_ok());
    match validate(&[]) {
        Err(Error::InvalidImage(m)) => assert_eq!(m, "image is empty"),
        _ => panic!("empty image accepted"),
    }
    match validate(&[0u8; 4097]) {
        Err(Error::InvalidImage(m)) => assert_eq!(
            m,
            "image length 4097 is not a multiple of the 4096-byte block size; raw device writes require block alignment"
        ),
        _ => panic!("misaligned image accepted"),
    }
}

#[test]
fn error_io_maps_permission_denied() {
    let denied = IoFailure { permission_denied: true, raw_os_error: Some(13), message: "Permission denied (os error 13)".to_string() };
    match Error::io("opening /dev/sda", denied) {
        Error::Permission(ctx) => assert_eq!(ctx, "opening /dev/sda"),
        other => panic!("unexpected {other:?}"),
    }
    let other = IoFailure { permission_denied: false, raw_os_error: Some(5), message: "Input/output error (os error 5)".to_string() };
    let e = Error::io("reading", other);
    assert_eq!(e.message(), "reading: Input/output error (os error 5)");
}

#[test]
fn error_messages() {
    assert_eq!(
        Error::Permission("opening /dev/sda".to_string()).message(),
        "permission denied (opening /dev/sda). Re-run this tool with administrator rights (Windows: \"Run as administrator\"; macOS/Linux: prefix the command with sudo)."
    );
    assert_eq!(Error::Enumerate("x".to_string()).message(), "could not list disks: x");
    assert_eq!(Error::DeviceNotFound("disk9".to_string()).message(), "device not found: disk9");
    assert_eq!(Error::Busy("y".to_string()).message(), "device is busy: y");
    assert_eq!(Error::InvalidImage("z".to_string()).message(), "invalid image: z");
    assert_eq!(
        Error::VerifyMismatch { offset: 1_500_000 }.message(),
        "verification failed: data differs at byte offset 1500000"
    );
    assert_eq!(Error::Other("plain".to_string()).message(), "plain");
}

#[test]
fn find_disk_by_id_path_or_dev_path() {
    let disks = || {
        vec![
            disk("sda", "/dev/sda", true, true, false),
            disk("nvme0n1", "/dev/nvme0n1", false, false, true),
            disk("2", "\\\\.\\PhysicalDrive2", false, false, true),
        ]
    };
    assert_eq!(find_disk(disks(), "nvme0n1").unwrap().id, "nvme0n1");
    assert_eq!(find_disk(disks(), "  /dev/sda\n").unwrap().id, "sda");
    assert_eq!(find_disk(disks(), "\\\\.\\PhysicalDrive2").unwrap().id, "2");
    assert_eq!(find_disk(disks(), "/dev/2").unwrap().id, "2");
    match find_disk(disks(), " disk9 ") {
        Err(Error::DeviceNotFound(m)) => assert_eq!(m, "disk9"),
        other => panic!("unexpected {other:?}"),
    }
}
