use grubst::audit::{
    check_backup_status, check_boot_order, check_disk_encryption, check_grub_password,
    check_grub_permissions, check_root_password, check_secure_boot, check_update_guard,
    compute_score, run_audit, summary_for_score, usb_boots_before_os, AuditItem, AuditObservations, AuditSeverity,
};
use grubst::backup::BackupInfo;

fn hardened() -> AuditObservations {
    AuditObservations {
        superuser_script_exists: true,
        update_guard_exists: true,
        grub_cfg_exists: true,
        grub_cfg_contents: Some("set superusers=\"grubst_admin\"".to_string()),
        grub_cfg_mode: Some(0o100600),
        lsblk_output: Some("sda disk\nsda1 part\nluks-1234 crypt\n".to_string()),
        crypttab_contents: None,
        efivars_exists: true,
        mokutil_output: Some("SecureBoot enabled\n".to_string()),
        efibootmgr_output: None,
        shadow_contents: Some("root:!:19000:0:99999:7:::\n".to_string()),
        backups: vec![BackupInfo {
            timestamp: "20250101_120000".to_string(),
            created_at: "2025-01-01T12:00:00+00:00".to_string(),
            path: "/var/lib/grubst/backups/20250101_120000".to_string(),
        }],
    }
}

fn bare() -> AuditObservations {
    AuditObservations {
        superuser_script_exists: false,
        update_guard_exists: false,
        grub_cfg_exists: false,
        grub_cfg_contents: None,
        grub_cfg_mode: None,
        lsblk_output: None,
        crypttab_contents: None,
        efivars_exists: false,
        mokutil_output: None,
        efibootmgr_output: None,
        shadow_contents: None,
        backups: vec![],
    }
}

fn item(sev: AuditSeverity) -> AuditItem {
    AuditItem {
        title: String::new(),
        description: String::new(),
        severity: sev,
        fix_hint: None,
    }
}

#[test]
fn hardened_system_report() {
    let report = run_audit(&hardened());
    assert_eq!(report.items.len(), 8);
    let sev: Vec<AuditSeverity> = report.items.iter().map(|i| i.severity).collect();
    assert_eq!(
        sev,
        vec![
            AuditSeverity::Pass,
            AuditSeverity::Pass,
            AuditSeverity::Pass,
            AuditSeverity::Pass,
            AuditSeverity::Info,
            AuditSeverity::Pass,
            AuditSeverity::Pass,
            AuditSeverity::Pass,
        ]
    );
    assert_eq!(report.score, 87);
    assert_eq!(report.summary, "Your system has strong boot security.");
    assert_eq!(
        report.items[1].description,
        "grub.cfg permissions are restrictive (mode 0600)."
    );
    assert_eq!(
        report.items[7].description,
        "1 backup(s) available. Latest: 2025-01-01T12:00:00+00:00"
    );
}

#[test]
fn bare_system_report() {
    let report = run_audit(&bare());
    let sev: Vec<AuditSeverity> = report.items.iter().map(|i| i.severity).collect();
    assert_eq!(
        sev,
        vec![
            AuditSeverity::Critical,
            AuditSeverity::Warning,
            AuditSeverity::Critical,
            AuditSeverity::Info,
            AuditSeverity::Info,
            AuditSeverity::Info,
            AuditSeverity::Info,
            AuditSeverity::Info,
        ]
    );
    assert_eq!(report.score, 0);
    assert_eq!(report.summary, "Your boot security is weak — action recommended.");
    assert_eq!(
        report.items[0].fix_hint.as_deref(),
        Some("Use the Lock feature to enable GRUB password protection.")
    );
}

#[test]
fn score_formula() {
    let all_pass: Vec<AuditItem> = (0..8).map(|_| item(AuditSeverity::Pass)).collect();
    assert_eq!(compute_score(&all_pass), 100);
    let mut mixed: Vec<AuditItem> = (0..5).map(|_| item(AuditSeverity::Pass)).collect();
    mixed.push(item(AuditSeverity::Critical));
    mixed.push(item(AuditSeverity::Warning));
    mixed.push(item(AuditSeverity::Info));
    // 5 * 100 / 8 = 62, less 15 for the critical finding
    assert_eq!(compute_score(&mixed), 47);
    assert_eq!(compute_score(&Vec::new()), 0);
    assert_eq!(summary_for_score(80), "Your system has strong boot security.");
    assert_eq!(summary_for_score(79), "Your boot security needs improvement.");
    assert_eq!(summary_for_score(50), "Your boot security needs improvement.");
    assert_eq!(summary_for_score(49), "Your boot security is weak — action recommended.");
}

#[test]
fn grub_password_detection() {
    assert_eq!(check_grub_password(false, &Some("password_pbkdf2 root grub.pbkdf2".to_string())).severity, AuditSeverity::Pass);
    assert_eq!(check_grub_password(false, &Some("menuentry".to_string())).severity, AuditSeverity::Critical);
    assert_eq!(
        check_grub_password(false, &Some("set superusers=x".to_string())).description,
        "GRUB has password protection (not managed by GRUBST)."
    );
}

#[test]
fn grub_permissions_modes() {
    let w = check_grub_permissions(true, Some(0o100644));
    assert_eq!(w.severity, AuditSeverity::Warning);
    assert_eq!(
        w.description,
        "grub.cfg is readable by non-root users (mode 0644). This may leak password hashes."
    );
    assert_eq!(check_grub_permissions(true, Some(0o400)).severity, AuditSeverity::Pass);
    assert_eq!(check_grub_permissions(true, None).severity, AuditSeverity::Info);
    assert_eq!(check_grub_permissions(false, Some(0o600)).severity, AuditSeverity::Warning);
}

#[test]
fn crypttab_entries() {
    let commented = Some("# <target> <source>\n   \n".to_string());
    assert_eq!(check_disk_encryption(&None, &commented).severity, AuditSeverity::Critical);
    let active = Some("# header\ncryptroot UUID=abc none luks\n".to_string());
    let item = check_disk_encryption(&Some("sda disk".to_string()), &active);
    assert_eq!(item.severity, AuditSeverity::Pass);
    assert_eq!(item.description, "Disk encryption entries found in /etc/crypttab.");
}

#[test]
fn secure_boot_states() {
    assert_eq!(check_secure_boot(true, &Some("SecureBoot disabled".to_string())).severity, AuditSeverity::Warning);
    assert_eq!(check_secure_boot(true, &None).severity, AuditSeverity::Info);
    assert_eq!(check_secure_boot(false, &Some("SecureBoot enabled".to_string())).severity, AuditSeverity::Info);
}

#[test]
fn boot_order_positions() {
    let usb_first = "BootOrder: 0001,0000\nBoot0001* USB HDD\nBoot0000* ubuntu\n".to_string();
    assert_eq!(check_boot_order(&Some(usb_first)).severity, AuditSeverity::Warning);
    let os_first = "BootOrder: 0000,0001\nBoot0000* ubuntu\nBoot0001* USB HDD\n".to_string();
    assert_eq!(check_boot_order(&Some(os_first)).severity, AuditSeverity::Info);
    let grub_first = "Boot0000* GRUB\nBoot0001* UsB\n".to_string();
    assert_eq!(check_boot_order(&Some(grub_first)).severity, AuditSeverity::Info);
    assert_eq!(
        check_boot_order(&None).description,
        "Could not check boot order (efibootmgr not available or running in Legacy mode)."
    );
}

#[test]
fn root_account_states() {
    assert_eq!(check_root_password(&Some("root:*:1::::::\n".to_string())).severity, AuditSeverity::Pass);
    assert_eq!(check_root_password(&Some("root:$6$abc:1::::::\n".to_string())).severity, AuditSeverity::Info);
    let odd = check_root_password(&Some("daemon:*:1\nroot::1\n".to_string()));
    assert_eq!(odd.description, "Could not check root account status (insufficient privileges).");
}

#[test]
fn update_guard_and_backups() {
    assert_eq!(check_update_guard(true, false).severity, AuditSeverity::Pass);
    assert_eq!(check_update_guard(false, true).severity, AuditSeverity::Warning);
    assert_eq!(check_update_guard(false, false).severity, AuditSeverity::Info);
    assert_eq!(check_backup_status(&Vec::new()).severity, AuditSeverity::Info);
}

#[test]
fn usb_position_against_the_os_entry() {
    // positions are byte offsets: "é" takes two bytes, "usb" sits at byte 4 and "ubuntu" at byte 8
    assert!(usb_boots_before_os("éa usb ubuntu"));
    assert!(!usb_boots_before_os("ubuntu usb"));
    assert!(usb_boots_before_os("usb only"));
    assert!(!usb_boots_before_os("no removable entry"));
    assert!(!usb_boots_before_os("grub usb"));
    assert!(usb_boots_before_os("usb grub"));
    // "ubuntu" is preferred over "grub" when both are there
    assert!(usb_boots_before_os("grub usb ubuntu"));
}
