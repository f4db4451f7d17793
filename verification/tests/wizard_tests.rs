use grubst::screens::{
    lock_wizard_next, progress_text, protection_details, unlock_enabled, wizard_accepts,
    LockProgress, LockStep, WizardEvent, WizardState,
};
use grubst::usb::UsbDevice;

fn device(path: &str) -> UsbDevice {
    UsbDevice {
        path: path.to_string(),
        name: "Stick".to_string(),
        size_bytes: 16_000_000_000,
        size_human: "16.0 GB".to_string(),
        model: "Stick".to_string(),
        vendor: String::new(),
    }
}

fn step(s: WizardState, e: WizardEvent) -> WizardState {
    let (next, request) = lock_wizard_next(s, e);
    assert!(request.is_none());
    next
}

fn at_password_step() -> WizardState {
    let s = WizardState::new();
    let s = step(s, WizardEvent::SelectDevice(device("/dev/sdb")));
    let s = step(s, WizardEvent::Next);
    let s = step(s, WizardEvent::ConfirmText(" /dev/sdb ".to_string()));
    step(s, WizardEvent::ConfirmFormat)
}

#[test]
fn wizard_walks_to_a_lock_request() {
    let s = at_password_step();
    assert_eq!(s.step, LockStep::BackupPassword);
    assert_eq!(s.confirmed_path, Some("/dev/sdb".to_string()));
    let s = step(s, WizardEvent::PasswordText("short".to_string()));
    assert!(!wizard_accepts(&s, &WizardEvent::Lock));
    let s = step(s, WizardEvent::Lock);
    assert_eq!(s.step, LockStep::BackupPassword);
    let s = step(s, WizardEvent::PasswordText("long enough".to_string()));
    let (s, request) = lock_wizard_next(s, WizardEvent::Lock);
    let request = request.expect("lock request");
    assert_eq!(request.device.path, "/dev/sdb");
    assert_eq!(request.password, "long enough");
    assert_eq!(s.step, LockStep::Processing);
    assert!(s.working);
    assert_eq!(progress_text(s.progress), "Applying protection...");
    // no going back or on while the work runs
    assert!(!wizard_accepts(&s, &WizardEvent::BackToPassword));
    assert!(!wizard_accepts(&s, &WizardEvent::Continue));
    let s = step(s, WizardEvent::LockDone(Ok(())));
    assert_eq!(s.step, LockStep::Complete);
    assert_eq!(s.progress, LockProgress::Applied);
    let s = step(s, WizardEvent::Finish);
    assert_eq!(s.step, LockStep::SelectUsb);
    assert!(s.selected.is_none());
    assert_eq!(s.password, "");
}

#[test]
fn formatting_needs_the_typed_path() {
    let s = WizardState::new();
    assert!(!wizard_accepts(&s, &WizardEvent::Next));
    let s = step(s, WizardEvent::SelectDevice(device("/dev/sdb")));
    let s = step(s, WizardEvent::Next);
    let s = step(s, WizardEvent::ConfirmText("/dev/sdc".to_string()));
    let s = step(s, WizardEvent::ConfirmFormat);
    assert_eq!(s.step, LockStep::ConfirmFormat);
    assert_eq!(s.confirmed_path, None);
}

#[test]
fn picking_another_device_drops_the_confirmation() {
    let s = at_password_step();
    let s = step(s, WizardEvent::BackToConfirm);
    let s = step(s, WizardEvent::BackToSelect);
    let s = step(s, WizardEvent::SelectDevice(device("/dev/sdc")));
    assert_eq!(s.confirmed_path, None);
    let s = step(s, WizardEvent::Next);
    // the old text still names /dev/sdb, so the new device is not confirmed
    let s = step(s, WizardEvent::ConfirmFormat);
    assert_eq!(s.step, LockStep::ConfirmFormat);
}

#[test]
fn a_failed_lock_stays_on_the_processing_step() {
    let s = at_password_step();
    let s = step(s, WizardEvent::PasswordText("long enough".to_string()));
    let (s, request) = lock_wizard_next(s, WizardEvent::Lock);
    assert!(request.is_some());
    let s = step(s, WizardEvent::LockDone(Err("mkfs.vfat failed".to_string())));
    assert_eq!(s.step, LockStep::Processing);
    assert!(!s.working);
    assert_eq!(s.error, Some("mkfs.vfat failed".to_string()));
    assert_eq!(progress_text(s.progress), "Failed");
    assert!(!wizard_accepts(&s, &WizardEvent::Continue));
    let s = step(s, WizardEvent::Continue);
    assert_eq!(s.step, LockStep::Processing);
    let s = step(s, WizardEvent::BackToPassword);
    assert_eq!(s.step, LockStep::BackupPassword);
}

#[test]
fn dashboard_details() {
    assert_eq!(
        protection_details("2024-01-01", "ABCD-1234", &None),
        "Locked at: 2024-01-01\nUSB UUID: ABCD-1234"
    );
    assert_eq!(
        protection_details("t", "u", &Some("{\"unrestricted_in_10_linux\": false}".to_string())),
        "Locked at: t\nUSB UUID: u\nWarning: normal boot may require password on this distro."
    );
    assert_eq!(
        protection_details("t", "u", &Some("{\"unrestricted_in_10_linux\": true}".to_string())),
        "Locked at: t\nUSB UUID: u"
    );
    assert_eq!(protection_details("t", "u", &Some("not json".to_string())), "Locked at: t\nUSB UUID: u");
}

#[test]
fn unlock_needs_a_password() {
    assert!(!unlock_enabled(""));
    assert!(unlock_enabled("x"));
}
