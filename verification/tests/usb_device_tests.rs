use grubst::usb::{
    auth_integrity, check_usb_size, machine_cfg_content, parse_partition_uuid, partition_path,
    root_device_from_mounts, token_cfg_content, usb_devices_from_lsblk, usb_devices_from_lsblk_json, JsonField, LsblkDevice,
    UsbDevice,
};

fn s(v: &str) -> JsonField {
    JsonField::Str(v.to_string())
}

fn dev(name: &str, rm: JsonField, tran: &str, size: JsonField, model: JsonField, vendor: JsonField) -> LsblkDevice {
    LsblkDevice {
        name: s(name),
        size,
        model,
        vendor,
        rm,
        tran: s(tran),
        dev_type: s("disk"),
    }
}

#[test]
fn usb_candidates_are_filtered_and_named() {
    let devices = vec![
        dev("sda", JsonField::Bool(false), "sata", JsonField::UInt(500_000_000_000), s("SSD"), s("ATA")),
        dev("sdb", JsonField::Bool(true), "usb", JsonField::UInt(16_000_000_000), s("Cruzer  "), s(" SanDisk")),
        dev("sdc", s("1"), "", s("8000000000"), JsonField::Other, JsonField::Other),
        dev("sdd", JsonField::UInt(1), "", JsonField::Other, s("Unknown"), s("")),
        dev("sde", JsonField::Bool(false), "usb", JsonField::UInt(4_000_000_000), s("Flash"), JsonField::Other),
        LsblkDevice {
            name: s("sr0"),
            size: JsonField::UInt(1),
            model: JsonField::Other,
            vendor: JsonField::Other,
            rm: JsonField::Bool(true),
            tran: s("usb"),
            dev_type: s("rom"),
        },
    ];
    let found = usb_devices_from_lsblk(&devices, &Some("/dev/sde".to_string()));
    let paths: Vec<&str> = found.iter().map(|d| d.path.as_str()).collect();
    assert_eq!(paths, vec!["/dev/sdb", "/dev/sdc", "/dev/sdd"]);
    assert_eq!(found[0].name, "SanDisk Cruzer");
    assert_eq!(found[0].size_human, "16.0 GB");
    assert_eq!(found[1].name, "USB Drive (sdc)");
    assert_eq!(found[1].size_bytes, 8_000_000_000);
    assert_eq!(found[1].model, "Unknown");
    assert_eq!(found[2].size_bytes, 0);
    assert_eq!(found[2].size_human, "0 B");
}

#[test]
fn root_device_from_mount_table() {
    let mounts = "sysfs /sys sysfs rw 0 0\n/dev/nvme0n1p2 / ext4 rw 0 0\n/dev/sda1 /boot ext4 rw 0 0\n";
    assert_eq!(root_device_from_mounts(mounts), Some("/dev/nvme0n1".to_string()));
    assert_eq!(root_device_from_mounts("/dev/mapper/vg-root / ext4 rw 0 0\n"), None);
    assert_eq!(root_device_from_mounts("overlay / overlay rw 0 0\n"), None);
    assert_eq!(root_device_from_mounts("/dev/sda1 /home ext4 rw 0 0\n"), None);
}

#[test]
fn usb_size_check() {
    let small = UsbDevice {
        path: "/dev/sdb".to_string(),
        name: "x".to_string(),
        size_bytes: 3_999_999_999,
        size_human: "4.0 GB".to_string(),
        model: String::new(),
        vendor: String::new(),
    };
    assert_eq!(
        check_usb_size(&small),
        Err("USB device too small: 4.0 GB (minimum 4 GB required)".to_string())
    );
    let one_gb = UsbDevice { size_bytes: 1_000_000_000, size_human: "1.0 GB".to_string(), ..small.clone() };
    assert!(check_usb_size(&one_gb).is_err());
    let ok = UsbDevice { size_bytes: 4_000_000_000, ..small };
    assert_eq!(check_usb_size(&ok), Ok(()));
}

#[test]
fn key_file_contents() {
    assert_eq!(partition_path("/dev/sdb"), "/dev/sdb1");
    assert_eq!(token_cfg_content("abc"), "set grubst_token=\"abc\"\n");
    assert_eq!(machine_cfg_content("f00"), "set grubst_machine_fp_usb=\"f00\"\n");
    assert_eq!(
        auth_integrity(b"abc", b"f00"),
        grubst::crypto::integrity_hash(b"abcf00")
    );
}

#[test]
fn partition_uuid_output() {
    assert_eq!(parse_partition_uuid("  1234-ABCD\n"), Ok("1234-ABCD".to_string()));
    assert_eq!(parse_partition_uuid("\n"), Err("No UUID found".to_string()));
}

#[test]
fn the_root_disk_is_never_offered() {
    let root = root_device_from_mounts("/dev/sdb1 / ext4 rw 0 0\n");
    assert_eq!(root, Some("/dev/sdb".to_string()));
    let devices = vec![
        dev("sdb", JsonField::Bool(true), "usb", JsonField::UInt(32_000_000_000), s("Stick"), s("")),
        dev("sdc", JsonField::Bool(true), "usb", JsonField::UInt(8_000_000_000), s("Key"), s("")),
    ];
    let found = usb_devices_from_lsblk(&devices, &root);
    assert_eq!(found.len(), 1);
    assert_eq!(found[0].path, "/dev/sdc");
    assert!(found.iter().all(|d| Some(&d.path) != root.as_ref()));
}

#[test]
fn usb_devices_from_lsblk_json_output() {
    let json = r#"{"blockdevices": [
        {"name": "sda", "size": 500107862016, "model": "Samsung SSD", "vendor": "ATA     ", "rm": false, "tran": "sata", "type": "disk"},
        {"name": "sdb", "size": "16008609792", "model": "Cruzer Blade  ", "vendor": "SanDisk ", "rm": true, "tran": "usb", "type": "disk"},
        {"name": "sdc", "size": 8004304896, "model": null, "vendor": null, "rm": "1", "tran": null, "type": "disk"},
        {"name": "sr0", "size": 1073741312, "model": "DVD", "vendor": "HL", "rm": true, "tran": "usb", "type": "rom"}
    ]}"#;
    let found = usb_devices_from_lsblk_json(json, &Some("/dev/sda".to_string()));
    let paths: Vec<&str> = found.iter().map(|d| d.path.as_str()).collect();
    assert_eq!(paths, vec!["/dev/sdb", "/dev/sdc"]);
    assert_eq!(found[0].name, "SanDisk Cruzer Blade");
    assert_eq!(found[0].size_bytes, 16_008_609_792);
    assert_eq!(found[1].name, "USB Drive (sdc)");
    assert_eq!(usb_devices_from_lsblk_json("not json", &None).len(), 0);
    assert_eq!(usb_devices_from_lsblk_json("{\"other\": []}", &None).len(), 0);
}
