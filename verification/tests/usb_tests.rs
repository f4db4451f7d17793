use grubst::usb::{format_size, strip_partition_suffix};

#[test]
fn test_strip_partition_suffix() {
    // NVMe drives
    assert_eq!(strip_partition_suffix("/dev/nvme0n1p1"), "/dev/nvme0n1");
    assert_eq!(strip_partition_suffix("/dev/nvme0n1p2"), "/dev/nvme0n1");
    assert_eq!(strip_partition_suffix("/dev/nvme1n1"), "/dev/nvme1n1");

    // SATA/SCSI drives
    assert_eq!(strip_partition_suffix("/dev/sda1"), "/dev/sda");
    assert_eq!(strip_partition_suffix("/dev/sdb2"), "/dev/sdb");
    assert_eq!(strip_partition_suffix("/dev/sdc"), "/dev/sdc");

    // MMC drives
    assert_eq!(strip_partition_suffix("/dev/mmcblk0p1"), "/dev/mmcblk0");

    // Loop devices or others should remain unaffected
    assert_eq!(strip_partition_suffix("/dev/loop0"), "/dev/loop0");
    assert_eq!(strip_partition_suffix("/dev/mapper/vg-lv"), "/dev/mapper/vg-lv");
}

#[test]
fn test_format_size() {
    assert_eq!(format_size(500), "500 B");
    assert_eq!(format_size(1_500), "1.5 KB");
    assert_eq!(format_size(2_500_000), "2.5 MB");
    assert_eq!(format_size(4_200_000_000), "4.2 GB");
}

#[test]
fn format_size_matches_float_formatting() {
    let samples: [u64; 16] = [
        0,
        999,
        1_000,
        1_049,
        1_050,
        1_150,
        1_250,
        1_750,
        999_999,
        999_999_999_999,
        1_000_000_000_000,
        1_250_000_000_000,
        9_007_199_254_740_993,
        u64::MAX,
        123_456_789,
        16_000_000_000,
    ];
    for b in samples {
        let expected = if b >= 1_000_000_000_000 {
            format!("{:.1} TB", b as f64 / 1_000_000_000_000u64 as f64)
        } else if b >= 1_000_000_000 {
            format!("{:.1} GB", b as f64 / 1_000_000_000u64 as f64)
        } else if b >= 1_000_000 {
            format!("{:.1} MB", b as f64 / 1_000_000u64 as f64)
        } else if b >= 1_000 {
            format!("{:.1} KB", b as f64 / 1_000u64 as f64)
        } else {
            format!("{} B", b)
        };
        assert_eq!(format_size(b), expected, "bytes = {}", b);
    }
}

#[test]
fn strip_partition_suffix_edge_cases() {
    assert_eq!(strip_partition_suffix("/dev/nvme0n1p"), "/dev/nvme0n1p");
    assert_eq!(strip_partition_suffix("sda12"), "sda");
    assert_eq!(strip_partition_suffix("/dev/vdb3"), "/dev/vdb");
    assert_eq!(strip_partition_suffix("/dev/hda"), "/dev/hda");
    assert_eq!(strip_partition_suffix(""), "");
}
