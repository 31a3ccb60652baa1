use ps5de_core::cli::{check_confirmation, check_target, describe_target, list_header, list_row, risk_label, truncate, ProgressBar};
use ps5de_core::disk::{Disk, Risk};
use ps5de_core::error::Error;
use ps5de_core::flash::ProgressEvent;
use ps5de_core::wizard::{confirm_warning, risk_badge, row, Msg, Screen, Wizard};

fn disk(id: &str, system: bool, internal: bool, removable: bool) -> Disk {
    Disk {
        id: id.to_string(),
        raw_path: format!("/dev/{id}"),
        model: "Samsung SSD 980 1TB".to_string(),
        size: 1_000_204_886_016,
        bus: "USB".to_string(),
        removable,
        internal,
        system,
    }
}

#[test]
fn risk_labels() {
    assert_eq!(risk_label(Risk::System), "SYSTEM  <-- do NOT use");
    assert_eq!(risk_label(Risk::Internal), "internal disk");
    assert_eq!(risk_label(Risk::Removable), "external/USB (expected)");
}

#[test]
fn truncate_adds_ellipsis() {
    assert_eq!(truncate("Samsung", 28), "Samsung");
    assert_eq!(truncate("abcdef", 6), "abcdef");
    assert_eq!(truncate("abcdefg", 6), "abcde…");
    assert_eq!(truncate("Apple Fabric bus", 10), "Apple Fab…");
    assert_eq!(truncate("xy", 0), "…");
}

#[test]
fn list_table_lines() {
    assert_eq!(
        list_header(),
        format!("{:<10} {:<28} {:>11} {:<10} TYPE", "ID", "MODEL", "SIZE", "BUS")
    );
    let d = disk("disk4", false, false, true);
    assert_eq!(
        list_row(&d, "1.00 TB"),
        format!(
            "{:<10} {:<28} {:>11} {:<10} {}",
            "disk4", "Samsung SSD 980 1TB", "1.00 TB", "USB", "external/USB (expected)"
        )
    );
}

#[test]
fn target_description() {
    let mut d = disk("disk4", false, false, true);
    d.model = String::new();
    assert_eq!(
        describe_target(&d, "1.00 TB"),
        "\nTarget drive:\n  ID:    disk4\n  Model: (unknown)\n  Size:  1.00 TB\n  Bus:   USB\n  Type:  external/USB (expected)\n"
    );
}

#[test]
fn safety_gate() {
    match check_target(&disk("disk0", true, true, false), true) {
        Err(Error::Other(m)) => assert_eq!(
            m,
            "'disk0' is a SYSTEM disk (it holds your operating system). Refusing to write. This is almost certainly the wrong drive."
        ),
        other => panic!("unexpected {other:?}"),
    }
    match check_target(&disk("sdb", false, true, false), false) {
        Err(Error::Other(m)) => assert_eq!(
            m,
            "'sdb' is an INTERNAL disk, not an external/USB drive. The PS5 drive is normally in a USB enclosure. If you are certain, re-run with --force."
        ),
        other => panic!("unexpected {other:?}"),
    }
    assert!(check_target(&disk("sdb", false, true, false), true).is_ok());
    assert!(check_target(&disk("sdc", false, false, true), false).is_ok());
}

#[test]
fn confirmation_must_match_id() {
    assert!(check_confirmation("disk4\n", "disk4").is_ok());
    assert!(check_confirmation("  disk4  ", "disk4").is_ok());
    match check_confirmation("disk5\n", "disk4") {
        Err(Error::Other(m)) => assert_eq!(m, "aborted by user"),
        other => panic!("unexpected {other:?}"),
    }
}

#[test]
fn progress_bar_text() {
    let mut bar = ProgressBar::new();
    assert_eq!(bar.handle(&ProgressEvent::Stage("Writing enabler image")), "Writing enabler image ... ");
    assert_eq!(
        bar.handle(&ProgressEvent::Progress { done: 1024 * 1024, total: 2 * 1024 * 1024 }),
        format!("\rWriting enabler image [{}{}]  50%", "#".repeat(10), " ".repeat(10))
    );
    assert_eq!(bar.handle(&ProgressEvent::Progress { done: 1024 * 1024, total: 2 * 1024 * 1024 }), "");
    assert_eq!(
        bar.handle(&ProgressEvent::Progress { done: 2 * 1024 * 1024, total: 2 * 1024 * 1024 }),
        format!("\rWriting enabler image [{}] 100%", "#".repeat(20))
    );
    assert_eq!(bar.handle(&ProgressEvent::Stage("Flushing to hardware")), "\nFlushing to hardware ... ");
    assert_eq!(
        bar.handle(&ProgressEvent::Progress { done: 0, total: 0 }),
        format!("\rFlushing to hardware [{}] 100%", "#".repeat(20))
    );
    assert_eq!(bar.handle(&ProgressEvent::Progress { done: 7, total: 0 }), "");
    assert_eq!(bar.last_pct, 100);
    assert_eq!(
        bar.handle(&ProgressEvent::Progress { done: 104, total: 100 }),
        format!("\rFlushing to hardware [{}] 104%", "#".repeat(20))
    );
    assert_eq!(bar.finish(), "\n");
}

#[test]
fn wizard_walkthrough() {
    let mut w = Wizard::new();
    assert_eq!(w.screen, Screen::Intro);
    w.show_drive_list(Ok(vec![disk("disk0", true, true, false), disk("disk4", false, false, true)]));
    assert_eq!(w.screen, Screen::Select);
    w.next_to_confirm();
    assert_eq!(w.screen, Screen::Select);
    w.select(0);
    w.next_to_confirm();
    assert_eq!(w.screen, Screen::Confirm);
    w.set_confirmation(true, true);
    assert!(!w.can_flash());
    assert_eq!(w.flash_now(), None);
    assert_eq!(w.screen, Screen::Confirm);
    w.back_to_list();
    w.select(1);
    w.next_to_confirm();
    assert_eq!(w.confirm_target().unwrap().id, "disk4");
    w.set_confirmation(true, false);
    assert!(!w.can_flash());
    w.set_confirmation(true, true);
    assert!(w.can_flash());
    assert_eq!(w.flash_now(), Some(1));
    assert_eq!(w.screen, Screen::Working);
    assert_eq!(w.stage, "Starting");
    assert_eq!(w.progress, (0, 1));
    w.receive(Msg::Stage("Writing enabler image".to_string()));
    w.receive(Msg::Progress { done: 5, total: 10 });
    assert_eq!(w.progress, (5, 10));
    w.receive(Msg::Finished);
    assert_eq!(w.screen, Screen::Done);
    assert!(!w.running);
}

#[test]
fn wizard_failure_and_refresh_error() {
    let mut w = Wizard::new();
    w.show_drive_list(Err(Error::Enumerate("reading /sys/block: gone".to_string())));
    assert!(w.disks.is_empty());
    assert_eq!(w.refresh_error.as_deref(), Some("could not list disks: reading /sys/block: gone"));
    w.refresh(Ok(vec![disk("sdb", false, false, true)]));
    assert!(w.refresh_error.is_none());
    w.select(0);
    w.next_to_confirm();
    w.set_confirmation(true, true);
    w.flash_now();
    w.receive(Msg::Progress { done: 1, total: 2 });
    w.receive(Msg::Stage("Verifying written data".to_string()));
    assert_eq!(w.progress, (1, 2));
    assert_eq!(w.stage, "Verifying written data");
    assert!(w.confirm_correct && w.confirm_understood);
    w.receive(Msg::Failed("device is busy: x".to_string()));
    assert_eq!(w.stage, "Verifying written data");
    assert_eq!(w.progress, (1, 2));
    assert_eq!(w.screen, Screen::Failed);
    assert_eq!(w.error.as_deref(), Some("device is busy: x"));
    w.selected = Some(7);
    assert!(w.confirm_target().is_none());
    assert_eq!(w.screen, Screen::Select);
    w.select(0);
    w.next_to_confirm();
    assert!(!w.can_flash());
    assert_eq!(w.begin_flash(), Some(0));
    assert_eq!(w.screen, Screen::Working);
    assert_eq!(w.error, None);
}

#[test]
fn wizard_labels() {
    assert_eq!(risk_badge(Risk::Removable), ("USB / external", (80, 200, 120)));
    assert_eq!(risk_badge(Risk::Internal), ("internal disk", (230, 170, 60)));
    assert_eq!(risk_badge(Risk::System), ("SYSTEM, do not use", (230, 90, 90)));
    assert!(confirm_warning(Risk::System).starts_with("This is a SYSTEM disk."));
    let mut d = disk("disk4", false, false, true);
    assert_eq!(row(&d, "1.00 TB"), "disk4   Samsung SSD 980 1TB   ·   1.00 TB   ·   USB");
    d.model = String::new();
    assert_eq!(row(&d, "1.00 TB"), "disk4   (unknown model)   ·   1.00 TB   ·   USB");
}
