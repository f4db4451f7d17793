//! Verified core of a boot-security hardening tool: password hashing for
//! GRUB, rescue-key tokens, machine fingerprints, USB device handling,
//! backups and the security audit.
pub mod text;
pub mod json;
pub mod hexcodec;
pub mod crypto;
pub mod usb;
pub mod rounding;
pub mod fingerprint;
pub mod backup;
pub mod audit;
pub mod screens;
