use grubst::backup::{
    backup_info_from_metadata, latest_backup_index, make_backup_info, should_restore_grub_d_file, sort_backups_newest_first,
    BackupInfo,
};

fn info(ts: &str, created: &str) -> BackupInfo {
    BackupInfo {
        timestamp: ts.to_string(),
        created_at: created.to_string(),
        path: format!("/var/lib/grubst/backups/{}", ts),
    }
}

#[test]
fn backups_sort_newest_first_and_stably() {
    let sorted = sort_backups_newest_first(vec![
        info("20240101_000000", "a"),
        info("20250101_000000", "b"),
        info("20240101_000000", "c"),
        info("20230101_000000", "d"),
    ]);
    let order: Vec<&str> = sorted.iter().map(|b| b.created_at.as_str()).collect();
    assert_eq!(order, vec!["b", "a", "c", "d"]);
}

#[test]
fn latest_backup_is_the_greatest_name() {
    let names = vec![
        "20240101_000000".to_string(),
        "20250301_120000".to_string(),
        "20250301_115959".to_string(),
    ];
    assert_eq!(latest_backup_index(&names), Some(1));
    assert_eq!(latest_backup_index(&Vec::new()), None);
}

#[test]
fn restore_skips_grubst_scripts() {
    assert!(should_restore_grub_d_file("10_linux"));
    assert!(!should_restore_grub_d_file("01_grubst_users"));
    assert!(!should_restore_grub_d_file("99_grubst_guard"));
}

#[test]
fn backup_info_falls_back_to_timestamp() {
    let b = make_backup_info("20240101_000000".to_string(), None, "/p".to_string());
    assert_eq!(b.created_at, "20240101_000000");
    let b = make_backup_info(
        "20240101_000000".to_string(),
        Some("2024-01-01T00:00:00+00:00".to_string()),
        "/p".to_string(),
    );
    assert_eq!(b.created_at, "2024-01-01T00:00:00+00:00");
    assert_eq!(b.path, "/p");
}

#[test]
fn backup_info_reads_created_at_from_metadata() {
    let b = backup_info_from_metadata(
        "20240101_120000".to_string(),
        Some("{\"timestamp\": \"20240101_120000\", \"created_at\": \"2024-01-01T12:00:00+00:00\"}".to_string()),
        "/b/20240101_120000".to_string(),
    );
    assert_eq!(b.created_at, "2024-01-01T12:00:00+00:00");
    assert_eq!(b.timestamp, "20240101_120000");
    assert_eq!(b.path, "/b/20240101_120000");
    let missing = backup_info_from_metadata("t".to_string(), None, "p".to_string());
    assert_eq!(missing.created_at, "t");
    let broken = backup_info_from_metadata("t".to_string(), Some("{oops".to_string()), "p".to_string());
    assert_eq!(broken.created_at, "t");
    let not_text = backup_info_from_metadata("t".to_string(), Some("{\"created_at\": 5}".to_string()), "p".to_string());
    assert_eq!(not_text.created_at, "t");
}
