use ps5de_core::error::{Error, IoFailure};
use ps5de_core::platform::linux::{
    self, disk_from_entry, disk_holds_system, mounts_from_text, partition_belongs, read_u64,
    SysBlockEntry,
};
use ps5de_core::platform::macos::{self, boot_ids_from_info, disk_from_info, disk_ids, ids_from_listing, whole_disk_of, PlistValue};
use ps5de_core::platform::windows::{self, disks_from_get_disk_text, parse_bool};

fn chars(s: &str) -> Vec<char> {
    s.chars().collect()
}

fn entry(name: &str, sectors: &str, removable: &str, path: &str) -> SysBlockEntry {
    SysBlockEntry {
        name: name.to_string(),
        size: Some(format!("{sectors}\n")),
        removable: Some(format!("{removable}\n")),
        rotational: Some("0\n".to_string()),
        model: Some("Samsung SSD 980 1TB   \n".to_string()),
        device_name: None,
        canonical_path: Some(path.to_string()),
    }
}

#[test]
fn partitions_of_whole_disks() {
    assert!(partition_belongs(&chars("nvme0n1p2"), &chars("nvme0n1")));
    assert!(partition_belongs(&chars("sda1"), &chars("sda")));
    assert!(partition_belongs(&chars("sda"), &chars("sda")));
    assert!(!partition_belongs(&chars("sdab"), &chars("sda")));
    assert!(!partition_belongs(&chars("sd"), &chars("sda")));
    assert!(!partition_belongs(&chars("nvme0n10"), &chars("nvme0n1p")));
    assert!(!partition_belongs(&chars("nvme0n10"), &chars("nvme0n1")));
    assert!(!partition_belongs(&chars("mmcblk01"), &chars("mmcblk0")));
    assert!(partition_belongs(&chars("mmcblk0p1"), &chars("mmcblk0")));
}

#[test]
fn mount_table_and_system_disk() {
    let mounts = mounts_from_text(
        "/dev/nvme0n1p2 / ext4 rw,relatime 0 0\nproc /proc proc rw 0 0\n/dev/sdb1 /media/usb vfat rw 0 0\n/dev/sda1 /boot/efi vfat rw 0 0\n\n",
    );
    assert_eq!(
        mounts,
        vec![
            ("/dev/nvme0n1p2".to_string(), "/".to_string()),
            ("proc".to_string(), "/proc".to_string()),
            ("/dev/sdb1".to_string(), "/media/usb".to_string()),
            ("/dev/sda1".to_string(), "/boot/efi".to_string()),
        ]
    );
    assert!(disk_holds_system("nvme0n1", &mounts));
    assert!(disk_holds_system("sda", &mounts));
    assert!(!disk_holds_system("sdb", &mounts));
    assert!(!disk_holds_system("nvme1n1", &mounts));
}

#[test]
fn sysfs_numbers() {
    assert_eq!(read_u64(&Some(" 1953525168\n".to_string())), Some(1953525168));
    assert_eq!(read_u64(&Some("+7".to_string())), Some(7));
    assert_eq!(read_u64(&Some("".to_string())), None);
    assert_eq!(read_u64(&Some("-1".to_string())), None);
    assert_eq!(read_u64(&Some("18446744073709551616".to_string())), None);
    assert_eq!(read_u64(&None), None);
}

#[test]
fn sys_block_entries_become_disks() {
    let mounts = vec![("/dev/nvme0n1p2".to_string(), "/".to_string())];
    let usb = entry("sdb", "1953525168", "0", "/sys/devices/pci0000:00/0000:00:14.0/usb2/2-1/host0/block/sdb");
    let d = disk_from_entry(&usb, &mounts).unwrap();
    assert_eq!(d.id, "sdb");
    assert_eq!(d.raw_path, "/dev/sdb");
    assert_eq!(d.size, 1953525168 * 512);
    assert_eq!(d.bus, "USB");
    assert_eq!(d.model, "Samsung SSD 980 1TB");
    assert!(d.removable && !d.internal && !d.system);

    let sys = entry("nvme0n1", "1000215216", "0", "/sys/devices/pci0000:00/0000:00:1d.0/nvme/nvme0/nvme0n1");
    let d = disk_from_entry(&sys, &mounts).unwrap();
    assert_eq!(d.bus, "NVMe");
    assert!(d.system && d.internal && !d.removable);

    let mut hdd = entry("sda", "100", "0", "/sys/devices/pci0000:00/ata1/host0/block/sda");
    hdd.rotational = None;
    hdd.model = None;
    hdd.device_name = Some("WDC\n".to_string());
    let d = disk_from_entry(&hdd, &mounts).unwrap();
    assert_eq!(d.bus, "SATA (HDD)");
    assert_eq!(d.model, "WDC");

    assert!(disk_from_entry(&entry("loop0", "100", "0", "/x"), &mounts).is_none());
    assert!(disk_from_entry(&entry("mmcblk0", "0", "1", "/x"), &mounts).is_none());
}

#[test]
fn linux_listing_is_sorted() {
    let entries = vec![
        entry("sdb", "10", "1", "/x"),
        entry("loop1", "10", "0", "/x"),
        entry("nvme0n1", "10", "0", "/x"),
        entry("sda", "10", "0", "/x"),
    ];
    let ids: Vec<String> = linux::list_disks(&entries, &[]).into_iter().map(|d| d.id).collect();
    assert_eq!(ids, vec!["nvme0n1", "sda", "sdb"]);
}

#[test]
fn linux_listing_keeps_order_of_equal_ids() {
    let entries = vec![
        entry("sdb", "10", "1", "/x"),
        entry("sda", "10", "0", "/x"),
        entry("sdb", "20", "0", "/x"),
    ];
    let disks = linux::list_disks(&entries, &[]);
    let got: Vec<(String, u64)> = disks.into_iter().map(|d| (d.id, d.size)).collect();
    assert_eq!(
        got,
        vec![("sda".to_string(), 5120), ("sdb".to_string(), 5120), ("sdb".to_string(), 10240)]
    );
}

#[test]
fn linux_open_errors() {
    let busy = IoFailure { permission_denied: false, raw_os_error: Some(16), message: "busy".to_string() };
    match linux::map_open_err("/dev/sdb", busy) {
        Error::Busy(m) => assert_eq!(
            m,
            "/dev/sdb is in use. Unmount every partition on it and close any program using it, then try again."
        ),
        other => panic!("unexpected {other:?}"),
    }
    let gone = IoFailure { permission_denied: false, raw_os_error: Some(2), message: "No such file".to_string() };
    match linux::map_open_err("/dev/sdb", gone) {
        Error::Io { context, .. } => assert_eq!(context, "opening /dev/sdb"),
        other => panic!("unexpected {other:?}"),
    }
}

#[test]
fn windows_get_disk_lines() {
    let text = "0|Samsung SSD 970|1000204886016|NVMe|True|True|Online\r\n\
                \r\n\
                2|  SanDisk Extreme  |500107862016|usb|False|False|Offline\r\n\
                x|bad|1|USB|False|False|Online\r\n\
                3|short|line\r\n\
                4|Mystery|n/a|SATA|0|1|Online\r\n";
    let disks = disks_from_get_disk_text(text);
    assert_eq!(disks.len(), 3);
    assert_eq!(disks[0].id, "0");
    assert_eq!(disks[0].raw_path, "\\\\.\\PhysicalDrive0");
    assert!(disks[0].system && !disks[0].removable && disks[0].internal);
    assert_eq!(disks[1].model, "SanDisk Extreme");
    assert_eq!(disks[1].size, 500107862016);
    assert!(disks[1].removable && !disks[1].internal && !disks[1].system);
    assert_eq!(disks[2].size, 0);
    assert!(disks[2].system);
}

#[test]
fn windows_flags_and_failures() {
    assert!(parse_bool(&chars(" True ")));
    assert!(parse_bool(&chars("true")));
    assert!(parse_bool(&chars("1")));
    assert!(!parse_bool(&chars("TRUE")));
    assert!(!parse_bool(&chars("False")));
    let ok = windows::list_disks(true, b"1|Disk|4096|USB|False|False|Online\n", b"").unwrap();
    assert_eq!(ok[0].id, "1");
    match windows::list_disks(false, b"", b"  Access denied\r\n") {
        Err(Error::Enumerate(m)) => assert_eq!(m, "Get-Disk failed: Access denied"),
        other => panic!("unexpected {other:?}"),
    }
    let missing = IoFailure {
        permission_denied: false,
        raw_os_error: Some(2),
        message: "program not found".to_string(),
    };
    match windows::command_failed(&missing) {
        Error::Enumerate(m) => assert_eq!(m, "running PowerShell Get-Disk: program not found"),
        other => panic!("unexpected {other:?}"),
    }
}

fn dict(entries: Vec<(&str, PlistValue)>) -> PlistValue {
    PlistValue::Dictionary(entries.into_iter().map(|(k, v)| (k.to_string(), v)).collect())
}

fn s(v: &str) -> PlistValue {
    PlistValue::String(v.to_string())
}

#[test]
fn macos_whole_disk_identifiers() {
    assert_eq!(whole_disk_of("disk0s2"), "disk0");
    assert_eq!(whole_disk_of("disk12"), "disk12");
    assert_eq!(whole_disk_of("disk"), "disk");
    assert_eq!(whole_disk_of("/dev/disk1"), "/dev/disk1");
}

#[test]
fn macos_listing_and_boot_disks() {
    let listing = dict(vec![(
        "AllDisksAndPartitions",
        PlistValue::Array(vec![
            dict(vec![("DeviceIdentifier", s("disk0")), ("Size", PlistValue::Integer(Some(5)))]),
            dict(vec![("Content", s("x"))]),
            dict(vec![("DeviceIdentifier", s("disk4"))]),
        ]),
    )]);
    assert_eq!(ids_from_listing(Ok(listing)).unwrap(), vec!["disk0", "disk4"]);
    match ids_from_listing(Ok(s("nope"))) {
        Err(Error::Enumerate(m)) => assert_eq!(m, "unexpected diskutil output"),
        other => panic!("unexpected {other:?}"),
    }
    match ids_from_listing(Err("bad xml".to_string())) {
        Err(Error::Enumerate(m)) => assert_eq!(m, "parsing diskutil output: bad xml"),
        other => panic!("unexpected {other:?}"),
    }
    let info = dict(vec![
        ("ParentWholeDisk", s("disk3")),
        (
            "APFSPhysicalStores",
            PlistValue::Array(vec![dict(vec![("APFSPhysicalStore", s("disk0s2"))])]),
        ),
    ]);
    assert_eq!(boot_ids_from_info(Ok(info)), vec!["disk3", "disk0"]);
    assert!(boot_ids_from_info(Err("x".to_string())).is_empty());
}

#[test]
fn macos_disk_info() {
    let info = dict(vec![
        ("WholeDisk", PlistValue::Boolean(true)),
        ("Size", PlistValue::Integer(Some(1000204886016))),
        ("MediaName", s("  ")),
        ("IORegistryEntryName", s(" Samsung SSD 980 1TB Media ")),
        ("Internal", PlistValue::Boolean(false)),
        ("RemovableMediaOrExternalDevice", PlistValue::Boolean(true)),
        ("BusProtocol", s("USB")),
    ]);
    let d = disk_from_info("disk4", &["disk0".to_string()], Ok(info)).unwrap();
    assert_eq!(d.raw_path, "/dev/rdisk4");
    assert_eq!(d.model, "Samsung SSD 980 1TB Media");
    assert_eq!(d.size, 1000204886016);
    assert!(d.removable && !d.internal && !d.system);

    let boot = dict(vec![("WholeDisk", PlistValue::Boolean(true)), ("Size", PlistValue::Integer(Some(-3)))]);
    let d = disk_from_info("disk0", &["disk0".to_string()], Ok(boot)).unwrap();
    assert!(d.system);
    assert_eq!(d.size, 0);

    let part = dict(vec![("WholeDisk", PlistValue::Boolean(false))]);
    assert!(disk_from_info("disk0s1", &[], Ok(part)).is_none());
}

#[test]
fn macos_parses_diskutil_plist_bytes() {
    let xml = br#"<?xml version="1.0" encoding="UTF-8"?>
<!DOCTYPE plist PUBLIC "-//Apple//DTD PLIST 1.0//EN" "http://www.apple.com/DTDs/PropertyList-1.0.dtd">
<plist version="1.0">
<dict>
	<key>AllDisksAndPartitions</key>
	<array>
		<dict>
			<key>DeviceIdentifier</key>
			<string>disk0</string>
		</dict>
		<dict>
			<key>DeviceIdentifier</key>
			<string>disk4</string>
		</dict>
	</array>
</dict>
</plist>"#;
    assert_eq!(disk_ids(xml).unwrap(), vec!["disk0", "disk4"]);
    match disk_ids(b"not a plist") {
        Err(Error::Enumerate(m)) => assert!(m.starts_with("parsing diskutil output: ")),
        other => panic!("unexpected {other:?}"),
    }
    let info = br#"<?xml version="1.0" encoding="UTF-8"?>
<plist version="1.0"><dict>
<key>WholeDisk</key><true/>
<key>Size</key><integer>4096</integer>
<key>MediaName</key><string>Ext</string>
<key>BusProtocol</key><string>USB</string>
<key>RemovableMedia</key><true/>
</dict></plist>"#;
    let d = macos::disk_info("disk5", &[], true, info).unwrap();
    assert_eq!(d.size, 4096);
    assert_eq!(d.model, "Ext");
    assert!(macos::disk_info("disk5", &[], false, info).is_none());
}
