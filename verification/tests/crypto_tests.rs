use grubst::crypto::{
    format_grub_hash, generate_auth_token, generate_random_password, hash_password_pbkdf2, hash_password_with_salt,
    integrity_hash, parse_grub_hash, password_from_indices, verify_password_pbkdf2,
};

#[test]
fn test_random_password_length() {
    let pwd = generate_random_password(32);
    assert_eq!(pwd.len(), 32);
}

#[test]
fn test_random_password_uniqueness() {
    let pwd1 = generate_random_password(32);
    let pwd2 = generate_random_password(32);
    assert_ne!(pwd1, pwd2);
}

#[test]
fn test_pbkdf2_hash_format() {
    let hash = hash_password_pbkdf2("testpassword");
    assert!(hash.starts_with("grub.pbkdf2.sha512."));
    assert_eq!(hash.matches('.').count(), 5);
}

#[test]
fn test_auth_token_deterministic() {
    let t1 = generate_auth_token("pass", "fp");
    let t2 = generate_auth_token("pass", "fp");
    assert_eq!(t1, t2);
}

#[test]
fn test_auth_token_differs_with_fingerprint() {
    let t1 = generate_auth_token("pass", "fp1");
    let t2 = generate_auth_token("pass", "fp2");
    assert_ne!(t1, t2);
}

#[test]
fn hash_then_verify_accepts_the_password() {
    let hash = hash_password_pbkdf2("correct horse");
    assert_eq!(hash.len(), 282);
    assert!(verify_password_pbkdf2("correct horse", &hash));
    assert!(!verify_password_pbkdf2("wrong horse", &hash));
}

#[test]
fn hash_with_salt_has_exact_layout() {
    let salt = [0u8, 1, 2, 0xab, 0xff];
    let hash = hash_password_with_salt("pw", &salt);
    assert!(hash.starts_with("grub.pbkdf2.sha512.10000.000102ABFF."));
    let key_hex = hash.rsplit('.').next().unwrap();
    assert_eq!(key_hex.len(), 128);
    assert!(key_hex.chars().all(|c| c.is_ascii_digit() || ('A'..='F').contains(&c)));
}

#[test]
fn verify_rejects_malformed_lines() {
    let good = hash_password_with_salt("pw", b"salt");
    assert!(verify_password_pbkdf2("pw", &good));
    let wrong_prefix = good.replacen("grub", "grab", 1);
    assert!(!verify_password_pbkdf2("pw", &wrong_prefix));
    assert!(!verify_password_pbkdf2("pw", "grub.pbkdf2.sha512.10000.00"));
    assert!(!verify_password_pbkdf2("pw", "grub.pbkdf2.sha512.x.00.00"));
    assert!(!verify_password_pbkdf2("pw", "grub.pbkdf2.sha512.10000.0g.00"));
    assert!(!verify_password_pbkdf2("pw", "grub.pbkdf2.sha512.10000.000.00"));
    assert!(!verify_password_pbkdf2("pw", "grub.pbkdf2.sha512.4294967296.00.00"));
    // lower-case hexadecimal and an explicit plus sign are accepted as well
    let lower = {
        let mut parts: Vec<String> = good.split('.').map(|s| s.to_string()).collect();
        parts[3] = "+10000".to_string();
        parts[4] = parts[4].to_lowercase();
        parts[5] = parts[5].to_lowercase();
        parts.join(".")
    };
    assert!(verify_password_pbkdf2("pw", &lower));
}

#[test]
fn verify_uses_the_stored_iteration_count() {
    let good = hash_password_with_salt("pw", b"salt");
    let changed = good.replacen(".10000.", ".10001.", 1);
    assert!(!verify_password_pbkdf2("pw", &changed));
}

#[test]
fn integrity_hash_of_empty_input() {
    assert_eq!(
        integrity_hash(b""),
        "cf83e1357eefb8bdf1542850d66d8007d620e4050b5715dc83f4a921d36ce9ce47d0d13c5d85f2b0ff8318d2877eec2f63b931bd47417a81a538327af927da3e"
    );
}

#[test]
fn auth_token_is_lower_hex_of_the_joined_input() {
    let t = generate_auth_token("pass", "fp");
    assert_eq!(t.len(), 128);
    assert_eq!(t, integrity_hash(b"pass::GRUBST_AUTH::fp"));
}

#[test]
fn random_password_uses_the_charset() {
    let charset = "ABCDEFGHIJKLMNOPQRSTUVWXYZabcdefghijklmnopqrstuvwxyz0123456789!@#$%^&*()-_=+[]{}|;:,.<>?";
    let pwd = generate_random_password(200);
    assert!(pwd.chars().all(|c| charset.contains(c)));
    assert_eq!(generate_random_password(0), "");
}

#[test]
fn grub_hash_line_of_given_salt_and_key() {
    assert_eq!(
        format_grub_hash(&[0xab, 0x01], &[0xff, 0x00, 0x9c]),
        "grub.pbkdf2.sha512.10000.AB01.FF009C"
    );
    assert_eq!(format_grub_hash(&[], &[]), "grub.pbkdf2.sha512.10000..");
}

#[test]
fn grub_hash_fields_are_read_back() {
    assert_eq!(
        parse_grub_hash("grub.pbkdf2.sha512.10000.AB01.ff009c"),
        Some((10000, vec![0xab, 0x01], vec![0xff, 0x00, 0x9c]))
    );
    assert_eq!(parse_grub_hash("grub.pbkdf2.sha512.0..AB"), Some((0, vec![], vec![0xab])));
    assert_eq!(parse_grub_hash("grub.pbkdf2.sha512.10000.."), None);
    assert_eq!(parse_grub_hash("grub.pbkdf2.sha512.10000.AB."), None);
    assert_eq!(parse_grub_hash("grub.pbkdf2.sha256.10000.AB.CD"), None);
    assert_eq!(parse_grub_hash("grub.pbkdf2.sha512.10000.ABC.CD"), None);
    assert_eq!(parse_grub_hash("grub.pbkdf2.sha512.-1.AB.CD"), None);
    assert_eq!(parse_grub_hash("grub.pbkdf2.sha512.10000.AB.CD.EF"), None);
    let line = format_grub_hash(&[1, 2, 3], &[4, 5]);
    assert_eq!(parse_grub_hash(&line), Some((10000, vec![1, 2, 3], vec![4, 5])));
}

#[test]
fn a_line_without_a_key_accepts_no_password() {
    assert!(!verify_password_pbkdf2("wrong", "grub.pbkdf2.sha512.10000.."));
    assert!(!verify_password_pbkdf2("", "grub.pbkdf2.sha512.10000.00."));
}

#[test]
fn password_spelled_by_indices() {
    assert_eq!(password_from_indices(&vec![0, 26, 52, 87, 61, 62]), "Aa0?9!");
    assert_eq!(password_from_indices(&vec![]), "");
}
