# grubst

GRUBST locks the GRUB bootloader with a password and programs a USB drive as
a machine-bound rescue key. This crate is its core, written in Verus. Every
function in `src/` carries a contract; the few that call an outside crate
(`sha2`, `pbkdf2`, `hex`, `subtle`, `rand`, `serde_json`) or `String::push` and
`str::to_lowercase` are small trusted wrappers whose contracts state what that
code does, and all the others are proved against their contracts.

## Layout

- `src/text.rs` — character-level string work (`trim`, `split`, `lines`,
  `split_whitespace`, decimal printing and parsing), each specified as the
  corresponding `str` operation.
- `src/hexcodec.rs` — hexadecimal through the `hex` crate.
- `src/crypto.rs` — GRUB `grub.pbkdf2.sha512` password lines (making,
  reading, verifying), random passwords, rescue-key tokens, integrity hashes,
  on top of `sha2`, `pbkdf2`, `subtle` and `rand`.
- `src/fingerprint.rs` — the machine fingerprint from hardware identifiers.
- `src/json.rs` — single fields of the state file and backup metadata.
- `src/usb.rs`, `src/rounding.rs` — choosing rescue-key candidates from the
  JSON that `lsblk` prints (read through `serde_json`), the 4 GB minimum, the root disk from the mount table, device naming, sizes
  as `{:.1}` prints an `f64` quotient (proved in integer arithmetic), and the
  files written to a key.
- `src/backup.rs` — ordering backups, picking the one to restore, and which
  files a restore copies back.
- `src/audit.rs` — the eight boot-security checks over what was observed of
  the system, the score and the summary.
- `src/screens.rs` — the decisions behind the desktop screens, among them
  the lock wizard as a state machine: formatting is requested only for the
  device whose path was typed to confirm it, with a backup password of at
  least 8 bytes.
- `app/` — the desktop program: reading files, running `lsblk`, `blkid`,
  `mkfs.vfat` and the other tools, and the Dioxus screens.

Laws proved in `src/`: a password is always accepted by the hash line made
from it (`crypto::lemma_hash_then_verify`); the audit score never exceeds 100
and is 100 exactly when every check passes (`audit::lemma_score_at_most_100`,
`audit::lemma_full_score_iff_all_pass`); the root disk is never offered as a
rescue key (`usb::lemma_root_disk_never_listed`); the lock wizard issues a
lock request only under the confirmation rules and reaches its last step only
after the lock succeeded (`screens::lock_wizard_next`).
