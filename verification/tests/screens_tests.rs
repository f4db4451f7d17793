use grubst::audit::{AuditItem, AuditSeverity};
use grubst::screens::{
    backup_password_accepted, count_with_severity, format_confirmed, nav_class, score_color,
    score_glow, severity_class, severity_icon, step_class, step_indicator, ActiveScreen,
    LockStep,
};

#[test]
fn navigation_classes() {
    assert_eq!(nav_class(ActiveScreen::Home, ActiveScreen::Home), "nav-item active");
    assert_eq!(nav_class(ActiveScreen::Home, ActiveScreen::Audit), "nav-item");
}

#[test]
fn wizard_indicators() {
    assert_eq!(step_indicator(LockStep::SelectUsb, 1), (true, false));
    assert_eq!(step_indicator(LockStep::ConfirmFormat, 1), (false, false));
    assert_eq!(step_indicator(LockStep::ConfirmFormat, 2), (true, false));
    assert_eq!(step_indicator(LockStep::BackupPassword, 1), (false, true));
    assert_eq!(step_indicator(LockStep::BackupPassword, 2), (false, true));
    assert_eq!(step_indicator(LockStep::Processing, 3), (false, true));
    assert_eq!(step_indicator(LockStep::Processing, 4), (true, false));
    assert_eq!(step_indicator(LockStep::Complete, 4), (false, true));
    assert_eq!(step_class(true, true), "step active");
    assert_eq!(step_class(false, true), "step completed");
    assert_eq!(step_class(false, false), "step");
}

#[test]
fn wizard_confirmations() {
    assert!(format_confirmed("  /dev/sdb \n", "/dev/sdb"));
    assert!(!format_confirmed("/dev/sdc", "/dev/sdb"));
    assert!(backup_password_accepted("12345678"));
    assert!(!backup_password_accepted("1234567"));
    assert!(backup_password_accepted("ééééé"));
}

#[test]
fn audit_presentation() {
    assert_eq!(score_color(80), "var(--success)");
    assert_eq!(score_color(50), "var(--warning)");
    assert_eq!(score_glow(49), "var(--danger-glow)");
    assert_eq!(severity_class(AuditSeverity::Info), "audit-item info");
    assert_eq!(severity_icon(AuditSeverity::Pass), "✅");
    let items = vec![
        AuditItem { title: String::new(), description: String::new(), severity: AuditSeverity::Critical, fix_hint: None },
        AuditItem { title: String::new(), description: String::new(), severity: AuditSeverity::Pass, fix_hint: None },
        AuditItem { title: String::new(), description: String::new(), severity: AuditSeverity::Critical, fix_hint: None },
    ];
    assert_eq!(count_with_severity(&items, AuditSeverity::Critical), 2);
    assert_eq!(count_with_severity(&items, AuditSeverity::Warning), 0);
}
