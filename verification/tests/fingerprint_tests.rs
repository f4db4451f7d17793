use grubst::crypto::integrity_hash;
use grubst::fingerprint::{generate_fingerprint, verify_fingerprint, FingerprintSources};

fn sample_sources() -> FingerprintSources {
    FingerprintSources {
        machine_id: Some("0123456789abcdef\n".to_string()),
        product_uuid: Some(" 4C4C4544-0042 ".to_string()),
        board_serial: None,
        product_serial: Some("SER123".to_string()),
        cpuinfo: Some(
            "processor\t: 0\nvendor_id\t: GenuineIntel\nmodel name\t: Intel(R) Core(TM) i7\nmodel name\t: other\n"
                .to_string(),
        ),
        disk_ids: vec![
            "wwn-0x5000".to_string(),
            "ata-SAMSUNG_SSD-part1".to_string(),
            "ata-SAMSUNG_SSD".to_string(),
            "nvme-other".to_string(),
        ],
    }
}

fn empty_sources() -> FingerprintSources {
    FingerprintSources {
        machine_id: None,
        product_uuid: None,
        board_serial: None,
        product_serial: None,
        cpuinfo: None,
        disk_ids: vec![],
    }
}

#[test]
fn test_fingerprint_deterministic() {
    let fp1 = generate_fingerprint(&sample_sources());
    let fp2 = generate_fingerprint(&sample_sources());
    assert_eq!(fp1, fp2);
}

#[test]
fn test_fingerprint_not_empty() {
    let fp = generate_fingerprint(&sample_sources());
    assert!(!fp.is_empty());
    assert!(fp.len() == 128); // SHA-512 hex = 128 chars
}

#[test]
fn fingerprint_hashes_the_joined_components() {
    let expected = integrity_hash(
        b"GRUBST_FINGERPRINT_V1::machine_id:0123456789abcdef|product_uuid:4C4C4544-0042|product_serial:SER123|cpu:model name\t: Intel(R) Core(TM) i7|disk:ata-SAMSUNG_SSD",
    );
    assert_eq!(generate_fingerprint(&sample_sources()), expected);
}

#[test]
fn fingerprint_falls_back_without_identifiers() {
    let expected = integrity_hash(b"GRUBST_FINGERPRINT_V1::fallback:unknown_machine");
    assert_eq!(generate_fingerprint(&empty_sources()), expected);
}

#[test]
fn fingerprint_verification() {
    let fp = generate_fingerprint(&sample_sources());
    assert!(verify_fingerprint(&sample_sources(), &fp));
    assert!(!verify_fingerprint(&empty_sources(), &fp));
    assert!(!verify_fingerprint(&sample_sources(), ""));
}
