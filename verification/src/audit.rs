//! The boot security audit: eight checks, each deciding a finding from what
//! was observed on the system, and the score and summary of the report.
//!
//! The observations (file contents, file modes, command output) are gathered
//! by the caller and handed over as an [`AuditObservations`].
use vstd::prelude::*;
use vstd::utf8::encode_utf8;
use crate::backup::BackupInfo;
use crate::text::{
    byte_offset, chars_contain, chars_of, chars_start_with, contains, decimal, decimal_chars,
    digit_char, digit_to_char, extend_chars, find, find_chars, lemma_utf8_len_is_encoding_len,
    lines, lines_of, split_chars, split_on, starts_with, string_from_chars, trim, trim_chars,
    utf8_len, views, Separator, lemma_split_concat, lemma_split_no_sep, is_sep, strip_cr,
};

verus! {

broadcast use vstd::string::group_string_axioms;

/// Severity level of an audit finding.
#[derive(Debug, Clone, Copy, PartialEq, Eq, Structural)]
pub enum AuditSeverity {
    /// Critical: immediate action needed.
    Critical,
    /// Warning: should be addressed.
    Warning,
    /// Informational: good to know.
    Info,
    /// The check passed.
    Pass,
}

/// A single audit finding.
#[derive(Debug, Clone)]
pub struct AuditItem {
    pub title: String,
    pub description: String,
    pub severity: AuditSeverity,
    pub fix_hint: Option<String>,
}

/// A finding as the contracts speak of it.
pub struct AuditItemView {
    pub title: Seq<char>,
    pub description: Seq<char>,
    pub severity: AuditSeverity,
    pub fix_hint: Option<Seq<char>>,
}

impl View for AuditItem {
    type V = AuditItemView;

    open spec fn view(&self) -> AuditItemView {
        AuditItemView {
            title: self.title@,
            description: self.description@,
            severity: self.severity,
            fix_hint: match self.fix_hint {
                Some(h) => Some(h@),
                None => None,
            },
        }
    }
}

/// The full audit report.
#[derive(Debug, Clone)]
pub struct AuditReport {
    pub score: u32,
    pub summary: String,
    pub items: Vec<AuditItem>,
}

/// What the audit observed on the system.
pub struct AuditObservations {
    /// Whether `/etc/grub.d/01_grubst_users` (the tool's superuser script) exists.
    pub superuser_script_exists: bool,
    /// Whether `/etc/grub.d/99_grubst_guard` (the update guard) exists.
    pub update_guard_exists: bool,
    /// Whether `/boot/grub/grub.cfg` exists.
    pub grub_cfg_exists: bool,
    /// The contents of `/boot/grub/grub.cfg`, when it exists and is readable.
    pub grub_cfg_contents: Option<String>,
    /// The permission bits of `/boot/grub/grub.cfg`, when its metadata is readable.
    pub grub_cfg_mode: Option<u32>,
    /// The output of `lsblk -o NAME,TYPE -n -l`, when it ran.
    pub lsblk_output: Option<String>,
    /// The contents of `/etc/crypttab`, when it exists and is readable.
    pub crypttab_contents: Option<String>,
    /// Whether `/sys/firmware/efi/efivars` exists.
    pub efivars_exists: bool,
    /// The output of `mokutil --sb-state`, when it ran.
    pub mokutil_output: Option<String>,
    /// The output of `efibootmgr`, when it ran.
    pub efibootmgr_output: Option<String>,
    /// The contents of `/etc/shadow`, when readable.
    pub shadow_contents: Option<String>,
    /// The available backups, newest first.
    pub backups: Vec<BackupInfo>,
}

/// A finding built from its parts.
pub open spec fn item_view(
    title: Seq<char>,
    description: Seq<char>,
    severity: AuditSeverity,
    fix_hint: Option<Seq<char>>,
) -> AuditItemView {
    AuditItemView { title, description, severity, fix_hint }
}

fn make_item(title: &str, description: String, severity: AuditSeverity, fix_hint: Option<&str>) -> (r:
    AuditItem)
    ensures
        r@ == item_view(
            title@,
            description@,
            severity,
            match fix_hint {
                Some(h) => Some(h@),
                None => None,
            },
        ),
{
    let hint = match fix_hint {
        Some(h) => Some(h.to_string()),
        None => None,
    };
    AuditItem { title: title.to_string(), description, severity, fix_hint: hint }
}

fn text(s: &str) -> (r: String)
    ensures
        r@ == s@,
{
    s.to_string()
}

/// Whether an optional text contains `p`.
pub open spec fn opt_contains(o: Option<String>, p: Seq<char>) -> bool {
    match o {
        Some(s) => contains(s@, p),
        None => false,
    }
}

fn opt_contains_exec(o: &Option<String>, p: &str) -> (r: bool)
    ensures
        r == opt_contains(*o, p@),
{
    match o {
        Some(s) => {
            let sc = chars_of(s.as_str());
            let pc = chars_of(p);
            chars_contain(sc.as_slice(), pc.as_slice())
        },
        None => false,
    }
}

// ───────────────────────────── check 1: GRUB password ─────────────────────────────

/// GRUB password protection: active when the tool's superuser script exists,
/// or when `grub.cfg` mentions `superusers` or `password_pbkdf2`.
pub open spec fn grub_password_item(superuser_script_exists: bool, grub_cfg: Option<String>) -> AuditItemView {
    if superuser_script_exists {
        item_view(
            "GRUB Password Protection"@,
            "GRUBST protection is active. Bootloader editing requires authentication."@,
            AuditSeverity::Pass,
            None,
        )
    } else if opt_contains(grub_cfg, "superusers"@) || opt_contains(grub_cfg, "password_pbkdf2"@) {
        item_view(
            "GRUB Password Protection"@,
            "GRUB has password protection (not managed by GRUBST)."@,
            AuditSeverity::Pass,
            None,
        )
    } else {
        item_view(
            "GRUB Password Protection"@,
            "No password protection on GRUB. Anyone can edit boot parameters or access recovery mode."@,
            AuditSeverity::Critical,
            Some("Use the Lock feature to enable GRUB password protection."@),
        )
    }
}

/// Checks whether GRUB is password protected.
pub fn check_grub_password(superuser_script_exists: bool, grub_cfg: &Option<String>) -> (r: AuditItem)
    ensures
        r@ == grub_password_item(superuser_script_exists, *grub_cfg),
{
    if superuser_script_exists {
        return make_item(
            "GRUB Password Protection",
            text("GRUBST protection is active. Bootloader editing requires authentication."),
            AuditSeverity::Pass,
            None,
        );
    }
    if opt_contains_exec(grub_cfg, "superusers") || opt_contains_exec(grub_cfg, "password_pbkdf2") {
        return make_item(
            "GRUB Password Protection",
            text("GRUB has password protection (not managed by GRUBST)."),
            AuditSeverity::Pass,
            None,
        );
    }
    make_item(
        "GRUB Password Protection",
        text(
            "No password protection on GRUB. Anyone can edit boot parameters or access recovery mode.",
        ),
        AuditSeverity::Critical,
        Some("Use the Lock feature to enable GRUB password protection."),
    )
}

// ───────────────────────────── check 2: grub.cfg permissions ─────────────────────────────

/// Four octal digits of `x < 512`, as `{:04o}` prints it.
pub open spec fn octal4(x: u32) -> Seq<char> {
    seq![
        digit_char((x / 512 % 8) as int),
        digit_char((x / 64 % 8) as int),
        digit_char((x / 8 % 8) as int),
        digit_char((x % 8) as int),
    ]
}

/// `grub.cfg` permissions: restrictive when neither group nor others have any
/// permission bit (`mode & 0o077 == 0`).
pub open spec fn grub_permissions_item(exists: bool, mode: Option<u32>) -> AuditItemView {
    if !exists {
        item_view(
            "GRUB Config Permissions"@,
            "grub.cfg not found at expected path."@,
            AuditSeverity::Warning,
            Some("Verify GRUB is installed correctly."@),
        )
    } else {
        match mode {
            Some(m) => if m & 0o077 == 0 {
                item_view(
                    "GRUB Config Permissions"@,
                    "grub.cfg permissions are restrictive (mode "@ + octal4(m & 0o777) + ")."@,
                    AuditSeverity::Pass,
                    None,
                )
            } else {
                item_view(
                    "GRUB Config Permissions"@,
                    "grub.cfg is readable by non-root users (mode "@ + octal4(m & 0o777)
                        + "). This may leak password hashes."@,
                    AuditSeverity::Warning,
                    Some("Run: sudo chmod 600 /boot/grub/grub.cfg"@),
                )
            },
            None => item_view(
                "GRUB Config Permissions"@,
                "Could not read grub.cfg metadata."@,
                AuditSeverity::Info,
                None,
            ),
        }
    }
}

fn octal4_chars(x: u32) -> (r: Vec<char>)
    requires
        x < 512,
    ensures
        r@ == octal4(x),
{
    let mut v: Vec<char> = Vec::new();
    v.push(digit_to_char((x / 512 % 8) as u64));
    v.push(digit_to_char((x / 64 % 8) as u64));
    v.push(digit_to_char((x / 8 % 8) as u64));
    v.push(digit_to_char((x % 8) as u64));
    assert(v@ =~= octal4(x));
    v
}

/// Checks the permissions of `grub.cfg`.
pub fn check_grub_permissions(exists: bool, mode: Option<u32>) -> (r: AuditItem)
    ensures
        r@ == grub_permissions_item(exists, mode),
{
    if !exists {
        return make_item(
            "GRUB Config Permissions",
            text("grub.cfg not found at expected path."),
            AuditSeverity::Warning,
            Some("Verify GRUB is installed correctly."),
        );
    }
    match mode {
        Some(m) => {
            let bits = m & 0o777;
            assert(m & 0o777 < 512) by (bit_vector);
            let digits = octal4_chars(bits);
            if m & 0o077 == 0 {
                let mut d = chars_of("grub.cfg permissions are restrictive (mode ");
                extend_chars(&mut d, digits.as_slice());
                let tail = chars_of(").");
                extend_chars(&mut d, tail.as_slice());
                make_item(
                    "GRUB Config Permissions",
                    string_from_chars(d.as_slice()),
                    AuditSeverity::Pass,
                    None,
                )
            } else {
                let mut d = chars_of("grub.cfg is readable by non-root users (mode ");
                extend_chars(&mut d, digits.as_slice());
                let tail = chars_of("). This may leak password hashes.");
                extend_chars(&mut d, tail.as_slice());
                make_item(
                    "GRUB Config Permissions",
                    string_from_chars(d.as_slice()),
                    AuditSeverity::Warning,
                    Some("Run: sudo chmod 600 /boot/grub/grub.cfg"),
                )
            }
        },
        None => make_item(
            "GRUB Config Permissions",
            text("Could not read grub.cfg metadata."),
            AuditSeverity::Info,
            None,
        ),
    }
}

// ───────────────────────────── check 3: disk encryption ─────────────────────────────

/// Whether some line is neither a comment (`#` first) nor blank.
pub open spec fn has_active_line(ls: Seq<Seq<char>>) -> bool {
    exists|i: int| 0 <= i < ls.len() && !starts_with(#[trigger] ls[i], "#"@) && trim(ls[i]).len() > 0
}

/// Whether a crypttab lists an encrypted volume: it is not blank and has an
/// active line.
pub open spec fn crypttab_has_entries(contents: Seq<char>) -> bool {
    trim(contents).len() > 0 && has_active_line(lines(contents))
}

/// Full disk encryption: a `crypt` device in `lsblk`, or entries in `/etc/crypttab`.
pub open spec fn disk_encryption_item(lsblk: Option<String>, crypttab: Option<String>) -> AuditItemView {
    if opt_contains(lsblk, "crypt"@) {
        item_view(
            "Full Disk Encryption"@,
            "LUKS encryption detected on at least one partition."@,
            AuditSeverity::Pass,
            None,
        )
    } else if crypttab matches Some(c) && crypttab_has_entries(c@) {
        item_view(
            "Full Disk Encryption"@,
            "Disk encryption entries found in /etc/crypttab."@,
            AuditSeverity::Pass,
            None,
        )
    } else {
        item_view(
            "Full Disk Encryption"@,
            "No disk encryption detected. Physical access to the disk exposes all data."@,
            AuditSeverity::Critical,
            Some("Consider enabling LUKS full-disk encryption for maximum security."@),
        )
    }
}

fn crypttab_has_entries_exec(contents: &str) -> (r: bool)
    ensures
        r == crypttab_has_entries(contents@),
{
    let c = chars_of(contents);
    let t = trim_chars(c.as_slice());
    if t.len() == 0 {
        return false;
    }
    let ls = lines_of(c.as_slice());
    let ghost lv = lines(contents@);
    let hash = chars_of("#");
    let n = ls.len();
    let mut i: usize = 0;
    while i < n
        invariant
            n == ls@.len(),
            views(ls@) == lv,
            hash@ == "#"@,
            lv == lines(contents@),
            trim(contents@).len() > 0,
            i <= n,
            forall|k: int| 0 <= k < i ==> !(!starts_with(#[trigger] lv[k], "#"@) && trim(lv[k]).len() > 0),
        decreases n - i,
    {
        assert(ls@[i as int]@ == lv[i as int]);
        if !chars_start_with(ls[i].as_slice(), hash.as_slice()) && trim_chars(ls[i].as_slice()).len()
            > 0 {
            assert(!starts_with(lv[i as int], "#"@) && trim(lv[i as int]).len() > 0);
            assert(has_active_line(lv));
            return true;
        }
        i = i + 1;
    }
    false
}

/// Checks for full disk encryption.
pub fn check_disk_encryption(lsblk: &Option<String>, crypttab: &Option<String>) -> (r: AuditItem)
    ensures
        r@ == disk_encryption_item(*lsblk, *crypttab),
{
    if opt_contains_exec(lsblk, "crypt") {
        return make_item(
            "Full Disk Encryption",
            text("LUKS encryption detected on at least one partition."),
            AuditSeverity::Pass,
            None,
        );
    }
    if let Some(c) = crypttab {
        if crypttab_has_entries_exec(c.as_str()) {
            return make_item(
                "Full Disk Encryption",
                text("Disk encryption entries found in /etc/crypttab."),
                AuditSeverity::Pass,
                None,
            );
        }
    }
    make_item(
        "Full Disk Encryption",
        text("No disk encryption detected. Physical access to the disk exposes all data."),
        AuditSeverity::Critical,
        Some("Consider enabling LUKS full-disk encryption for maximum security."),
    )
}

// ───────────────────────────── check 4: Secure Boot ─────────────────────────────

/// Secure Boot: needs EFI variables, then decided by the `mokutil` report.
pub open spec fn secure_boot_item(efivars_exists: bool, mokutil: Option<String>) -> AuditItemView {
    if !efivars_exists {
        item_view(
            "Secure Boot"@,
            "System is booting in Legacy/BIOS mode (no EFI). Secure Boot is not available."@,
            AuditSeverity::Info,
            Some("Consider switching to UEFI boot mode if your hardware supports it."@),
        )
    } else if opt_contains(mokutil, "SecureBoot enabled"@) {
        item_view(
            "Secure Boot"@,
            "Secure Boot is enabled. Only signed bootloaders can execute."@,
            AuditSeverity::Pass,
            None,
        )
    } else if opt_contains(mokutil, "SecureBoot disabled"@) {
        item_view(
            "Secure Boot"@,
            "Secure Boot is disabled. Unsigned bootloaders can execute."@,
            AuditSeverity::Warning,
            Some("Enable Secure Boot in BIOS/UEFI settings for additional protection."@),
        )
    } else {
        item_view(
            "Secure Boot"@,
            "Could not determine Secure Boot status."@,
            AuditSeverity::Info,
            Some("Install mokutil: sudo apt install mokutil"@),
        )
    }
}

/// Checks the Secure Boot state.
pub fn check_secure_boot(efivars_exists: bool, mokutil: &Option<String>) -> (r: AuditItem)
    ensures
        r@ == secure_boot_item(efivars_exists, *mokutil),
{
    if !efivars_exists {
        return make_item(
            "Secure Boot",
            text("System is booting in Legacy/BIOS mode (no EFI). Secure Boot is not available."),
            AuditSeverity::Info,
            Some("Consider switching to UEFI boot mode if your hardware supports it."),
        );
    }
    if opt_contains_exec(mokutil, "SecureBoot enabled") {
        return make_item(
            "Secure Boot",
            text("Secure Boot is enabled. Only signed bootloaders can execute."),
            AuditSeverity::Pass,
            None,
        );
    }
    if opt_contains_exec(mokutil, "SecureBoot disabled") {
        return make_item(
            "Secure Boot",
            text("Secure Boot is disabled. Unsigned bootloaders can execute."),
            AuditSeverity::Warning,
            Some("Enable Secure Boot in BIOS/UEFI settings for additional protection."),
        );
    }
    make_item(
        "Secure Boot",
        text("Could not determine Secure Boot status."),
        AuditSeverity::Info,
        Some("Install mokutil: sudo apt install mokutil"),
    )
}

// ───────────────────────────── check 5: boot order ─────────────────────────────

/// The lower-case form of a string, as `str::to_lowercase` gives it.
pub uninterp spec fn str_lowercase(s: Seq<char>) -> Seq<char>;

/// `str::to_lowercase`: the result is named [`str_lowercase`] of the input.
#[verifier::external_body]
fn to_lowercase(s: &str) -> (r: String)
    ensures
        r@ == str_lowercase(s@),
{
    s.to_lowercase()
}

/// The byte position of the first occurrence of `p` in `s` (`str::find`).
pub open spec fn byte_find(s: Seq<char>, p: Seq<char>) -> Option<nat> {
    match find(s, p) {
        Some(i) => Some(utf8_len(s.take(i))),
        None => None,
    }
}

/// Whether USB comes before the main OS in the lower-cased `efibootmgr`
/// report: `usb` occurs, and its byte position is below that of `ubuntu`
/// (or else `grub`), a missing name counting as position 9999.
pub open spec fn usb_boots_first(lower: Seq<char>) -> bool {
    let usb = match byte_find(lower, "usb"@) {
        Some(i) => i,
        None => 9999,
    };
    let os = match byte_find(lower, "ubuntu"@) {
        Some(i) => i,
        None => match byte_find(lower, "grub"@) {
            Some(i) => i,
            None => 9999,
        },
    };
    contains(lower, "usb"@) && usb < os
}

/// Boot order: from the `efibootmgr` report.
pub open spec fn boot_order_item(efibootmgr: Option<String>) -> AuditItemView {
    match efibootmgr {
        Some(out) => if usb_boots_first(str_lowercase(out@)) {
            item_view(
                "Boot Order Security"@,
                "USB boot has higher priority than the main OS. An attacker could boot from USB."@,
                AuditSeverity::Warning,
                Some(
                    "Set the hard drive as the first boot device in BIOS/UEFI and set a BIOS password."@,
                ),
            )
        } else {
            item_view(
                "Boot Order Security"@,
                "UEFI boot order detected. Verify that BIOS password is set to prevent changes."@,
                AuditSeverity::Info,
                Some("Set a BIOS/UEFI administrator password to prevent boot order changes."@),
            )
        },
        None => item_view(
            "Boot Order Security"@,
            "Could not check boot order (efibootmgr not available or running in Legacy mode)."@,
            AuditSeverity::Info,
            Some("Set a BIOS password and disable USB boot from BIOS settings."@),
        ),
    }
}

fn byte_find_exec(s: &[char], p: &[char]) -> (r: Option<usize>)
    requires
        utf8_len(s@) <= usize::MAX,
    ensures
        r matches Some(i) ==> byte_find(s@, p@) == Some(i as nat),
        r is None ==> byte_find(s@, p@) is None,
{
    match find_chars(s, p) {
        Some(i) => Some(byte_offset(s, i)),
        None => None,
    }
}

/// Whether USB comes before the main OS in a lower-cased `efibootmgr`
/// report (see [`usb_boots_first`]).
pub fn usb_boots_before_os(lower: &str) -> (r: bool)
    ensures
        r == usb_boots_first(lower@),
{
    let l = chars_of(lower);
    proof {
        lemma_utf8_len_is_encoding_len(lower@);
    }
    // The UTF-8 length is that of a real byte slice, so every byte offset fits in `usize`.
    let _byte_len = lower.as_bytes().len();
    let usb_pat = chars_of("usb");
    let ubuntu_pat = chars_of("ubuntu");
    let grub_pat = chars_of("grub");
    let usb = match byte_find_exec(l.as_slice(), usb_pat.as_slice()) {
        Some(i) => i,
        None => 9999,
    };
    let os = match byte_find_exec(l.as_slice(), ubuntu_pat.as_slice()) {
        Some(i) => i,
        None => match byte_find_exec(l.as_slice(), grub_pat.as_slice()) {
            Some(i) => i,
            None => 9999,
        },
    };
    chars_contain(l.as_slice(), usb_pat.as_slice()) && usb < os
}

/// Checks whether USB devices boot before the main OS.
pub fn check_boot_order(efibootmgr: &Option<String>) -> (r: AuditItem)
    ensures
        r@ == boot_order_item(*efibootmgr),
{
    match efibootmgr {
        Some(out) => {
            let lower = to_lowercase(out.as_str());
            if usb_boots_before_os(lower.as_str()) {
                make_item(
                    "Boot Order Security",
                    text(
                        "USB boot has higher priority than the main OS. An attacker could boot from USB.",
                    ),
                    AuditSeverity::Warning,
                    Some(
                        "Set the hard drive as the first boot device in BIOS/UEFI and set a BIOS password.",
                    ),
                )
            } else {
                make_item(
                    "Boot Order Security",
                    text(
                        "UEFI boot order detected. Verify that BIOS password is set to prevent changes.",
                    ),
                    AuditSeverity::Info,
                    Some("Set a BIOS/UEFI administrator password to prevent boot order changes."),
                )
            }
        },
        None => make_item(
            "Boot Order Security",
            text(
                "Could not check boot order (efibootmgr not available or running in Legacy mode).",
            ),
            AuditSeverity::Info,
            Some("Set a BIOS password and disable USB boot from BIOS settings."),
        ),
    }
}

// ───────────────────────────── check 6: root account ─────────────────────────────

/// The state of the root account from the `/etc/shadow` lines: the first
/// `root:` line whose hash field is `*`, `!` or `!!` says locked
/// (`Some(true)`), one whose hash starts with `$` says it has a password
/// (`Some(false)`); other lines are passed over.
pub open spec fn root_account_locked(ls: Seq<Seq<char>>) -> Option<bool>
    decreases ls.len(),
{
    if ls.len() == 0 {
        None
    } else {
        let l = ls[0];
        let parts = split_on(l, Separator::Char(':'));
        if starts_with(l, "root:"@) && parts.len() > 1 && (parts[1] == "*"@ || parts[1] == "!"@
            || parts[1] == "!!"@) {
            Some(true)
        } else if starts_with(l, "root:"@) && parts.len() > 1 && starts_with(parts[1], "$"@) {
            Some(false)
        } else {
            root_account_locked(ls.drop_first())
        }
    }
}

/// Root account: from the `/etc/shadow` contents.
pub open spec fn root_password_item(shadow: Option<String>) -> AuditItemView {
    let verdict = match shadow {
        Some(s) => root_account_locked(lines(s@)),
        None => None,
    };
    match verdict {
        Some(true) => item_view(
            "Root Account"@,
            "Root account is locked (no direct root login). This is good practice."@,
            AuditSeverity::Pass,
            None,
        ),
        Some(false) => item_view(
            "Root Account"@,
            "Root account has a password set. Direct root login is possible."@,
            AuditSeverity::Info,
            Some("Consider locking root: sudo passwd -l root (use sudo instead)."@),
        ),
        None => item_view(
            "Root Account"@,
            "Could not check root account status (insufficient privileges)."@,
            AuditSeverity::Info,
            Some("Run GRUBST as root for a complete audit."@),
        ),
    }
}

fn root_account_locked_exec(shadow: &str) -> (r: Option<bool>)
    ensures
        r == root_account_locked(lines(shadow@)),
{
    let c = chars_of(shadow);
    let ls = lines_of(c.as_slice());
    let ghost lv = lines(shadow@);
    let root = chars_of("root:");
    let star = chars_of("*");
    let bang = chars_of("!");
    let bangbang = chars_of("!!");
    let dollar = chars_of("$");
    let n = ls.len();
    let mut i: usize = 0;
    assert(lv.skip(0) =~= lv);
    while i < n
        invariant
            n == ls@.len(),
            views(ls@) == lv,
            root@ == "root:"@,
            lv == lines(shadow@),
            star@ == "*"@,
            bang@ == "!"@,
            bangbang@ == "!!"@,
            dollar@ == "$"@,
            i <= n,
            root_account_locked(lv) == root_account_locked(lv.skip(i as int)),
        decreases n - i,
    {
        assert(ls@[i as int]@ == lv[i as int]);
        assert(lv.skip(i as int)[0] == lv[i as int]);
        assert(lv.skip(i as int).drop_first() =~= lv.skip(i + 1));
        if chars_start_with(ls[i].as_slice(), root.as_slice()) {
            let parts = split_chars(ls[i].as_slice(), Separator::Char(':'));
            if parts.len() > 1 {
                assert(parts@[1]@ == split_on(lv[i as int], Separator::Char(':'))[1]);
                let h = parts[1].as_slice();
                let ghost l = lv[i as int];
                let ghost sp = split_on(l, Separator::Char(':'));
                assert(starts_with(l, "root:"@) && sp.len() > 1);
                assert(root_account_locked(lv.skip(i as int)) == (if starts_with(l, "root:"@)
                    && sp.len() > 1 && (sp[1] == "*"@ || sp[1] == "!"@ || sp[1] == "!!"@) {
                    Some(true)
                } else if starts_with(l, "root:"@) && sp.len() > 1 && starts_with(sp[1], "$"@) {
                    Some(false)
                } else {
                    root_account_locked(lv.skip(i as int).drop_first())
                }));
                if crate::text::chars_eq(h, star.as_slice()) || crate::text::chars_eq(
                    h,
                    bang.as_slice(),
                ) || crate::text::chars_eq(h, bangbang.as_slice()) {
                    return Some(true);
                }
                if chars_start_with(h, dollar.as_slice()) {
                    return Some(false);
                }
            }
        }
        i = i + 1;
    }
    assert(lv.skip(n as int) =~= Seq::<Seq<char>>::empty());
    None
}

/// The root-account finding for a shadow file made of one `root:` entry, by
/// its password field `hash`: `*`, `!` or `!!` (a locked account, as Debian,
/// RHEL and Fedora write it) passes; a hash starting with `$` means root can
/// log in with a password (information); any other field leaves the state
/// unknown (information).
pub proof fn lemma_root_entry_finding(shadow: String, hash: Seq<char>, rest: Seq<char>)
    requires
        forall|i: int| 0 <= i < hash.len() ==> hash[i] != ':' && hash[i] != '\n',
        forall|i: int| 0 <= i < rest.len() ==> rest[i] != '\n' && rest[i] != '\r',
        shadow@ == "root:"@ + hash + ":"@ + rest + "\n"@,
    ensures
        (hash == "*"@ || hash == "!"@ || hash == "!!"@) ==> root_password_item(Some(shadow))
            == item_view(
            "Root Account"@,
            "Root account is locked (no direct root login). This is good practice."@,
            AuditSeverity::Pass,
            None,
        ),
        !(hash == "*"@ || hash == "!"@ || hash == "!!"@) && hash.len() > 0 && hash[0] == '$'
            ==> root_password_item(Some(shadow)).severity == AuditSeverity::Info
            && root_password_item(Some(shadow)).description
            == "Root account has a password set. Direct root login is possible."@,
        !(hash == "*"@ || hash == "!"@ || hash == "!!"@) && !(hash.len() > 0 && hash[0] == '$')
            ==> root_password_item(Some(shadow)).severity == AuditSeverity::Info
            && root_password_item(Some(shadow)).description
            == "Could not check root account status (insufficient privileges)."@,
{
    reveal_strlit("root:");
    reveal_strlit(":");
    reveal_strlit("\n");
    reveal_strlit("$");
    reveal_strlit("root");
    let nl = Separator::Char('\n');
    let colon = Separator::Char(':');
    let root = "root"@;
    let line = "root:"@ + hash + ":"@ + rest;
    assert(line =~= root + seq![':'] + (hash + seq![':'] + rest));
    assert(shadow@ =~= line + seq!['\n'] + Seq::<char>::empty());
    assert forall|i: int| 0 <= i < line.len() implies !is_sep(#[trigger] line[i], nl) by {
        if 5 <= i < 5 + hash.len() {
            assert(line[i] == hash[i - 5]);
        } else if i >= 6 + hash.len() {
            assert(line[i] == rest[i - 6 - hash.len()]);
        }
    }
    lemma_split_no_sep(line, nl);
    lemma_split_concat(line, '\n', Seq::empty(), nl);
    assert(split_on(Seq::<char>::empty(), nl) == seq![Seq::<char>::empty()]);
    let parts = split_on(shadow@, nl);
    assert(parts =~= seq![line, Seq::<char>::empty()]);
    if rest.len() > 0 {
        assert(line.last() == rest.last());
    }
    assert(strip_cr(line) == line);
    assert(lines(shadow@) =~= seq![line]);
    assert forall|i: int| 0 <= i < root.len() implies !is_sep(#[trigger] root[i], colon) by {}
    assert forall|i: int| 0 <= i < hash.len() implies !is_sep(#[trigger] hash[i], colon) by {}
    lemma_split_no_sep(root, colon);
    lemma_split_no_sep(hash, colon);
    lemma_split_concat(hash, ':', rest, colon);
    lemma_split_concat(root, ':', hash + seq![':'] + rest, colon);
    let fields = split_on(line, colon);
    assert(fields == seq![root] + (seq![hash] + split_on(rest, colon)));
    assert(fields[1] == hash);
    assert(line.take(5) =~= "root:"@);
    assert(starts_with(line, "root:"@));
    assert(seq![line].drop_first() =~= Seq::<Seq<char>>::empty());
    let dollar = "$"@;
    assert(dollar =~= seq!['$']);
    if hash.len() > 0 && hash[0] == '$' {
        assert(hash.take(1) =~= dollar);
        assert(starts_with(hash, dollar));
    }
    if starts_with(hash, dollar) {
        assert(hash.take(1)[0] == dollar[0]);
    }
    assert(root_account_locked(Seq::<Seq<char>>::empty()) is None);
}

/// Checks whether the root account is locked.
pub fn check_root_password(shadow: &Option<String>) -> (r: AuditItem)
    ensures
        r@ == root_password_item(*shadow),
{
    let verdict = match shadow {
        Some(s) => root_account_locked_exec(s.as_str()),
        None => None,
    };
    match verdict {
        Some(true) => make_item(
            "Root Account",
            text("Root account is locked (no direct root login). This is good practice."),
            AuditSeverity::Pass,
            None,
        ),
        Some(false) => make_item(
            "Root Account",
            text("Root account has a password set. Direct root login is possible."),
            AuditSeverity::Info,
            Some("Consider locking root: sudo passwd -l root (use sudo instead)."),
        ),
        None => make_item(
            "Root Account",
            text("Could not check root account status (insufficient privileges)."),
            AuditSeverity::Info,
            Some("Run GRUBST as root for a complete audit."),
        ),
    }
}

// ───────────────────────────── check 7: update guard ─────────────────────────────

/// Update guard: installed, missing while protection is active, or not
/// applicable.
pub open spec fn update_guard_item(guard_exists: bool, superuser_script_exists: bool) -> AuditItemView {
    if guard_exists {
        item_view(
            "GRUBST Update Guard"@,
            "Update guard is installed. GRUB protection survives system updates."@,
            AuditSeverity::Pass,
            None,
        )
    } else if superuser_script_exists {
        item_view(
            "GRUBST Update Guard"@,
            "GRUBST protection is active but update guard is missing. Running 'update-grub' might remove protection."@,
            AuditSeverity::Warning,
            Some("Re-run the Lock process to install the update guard."@),
        )
    } else {
        item_view(
            "GRUBST Update Guard"@,
            "No GRUBST protection active. Update guard is not applicable."@,
            AuditSeverity::Info,
            None,
        )
    }
}

/// Checks whether the update guard is installed.
pub fn check_update_guard(guard_exists: bool, superuser_script_exists: bool) -> (r: AuditItem)
    ensures
        r@ == update_guard_item(guard_exists, superuser_script_exists),
{
    if guard_exists {
        make_item(
            "GRUBST Update Guard",
            text("Update guard is installed. GRUB protection survives system updates."),
            AuditSeverity::Pass,
            None,
        )
    } else if superuser_script_exists {
        make_item(
            "GRUBST Update Guard",
            text(
                "GRUBST protection is active but update guard is missing. Running 'update-grub' might remove protection.",
            ),
            AuditSeverity::Warning,
            Some("Re-run the Lock process to install the update guard."),
        )
    } else {
        make_item(
            "GRUBST Update Guard",
            text("No GRUBST protection active. Update guard is not applicable."),
            AuditSeverity::Info,
            None,
        )
    }
}

// ───────────────────────────── check 8: backups ─────────────────────────────

/// Backups: how many there are and when the first listed (the newest) was made.
pub open spec fn backup_status_item(backups: Seq<BackupInfo>) -> AuditItemView {
    if backups.len() == 0 {
        item_view(
            "GRUB Backup"@,
            "No GRUBST backups found. If something goes wrong, manual recovery may be needed."@,
            AuditSeverity::Info,
            Some("A backup is automatically created when you use the Lock feature."@),
        )
    } else {
        item_view(
            "GRUB Backup"@,
            decimal(backups.len()) + " backup(s) available. Latest: "@ + backups[0].created_at@,
            AuditSeverity::Pass,
            None,
        )
    }
}

/// Checks whether backups are available.
pub fn check_backup_status(backups: &Vec<BackupInfo>) -> (r: AuditItem)
    ensures
        r@ == backup_status_item(backups@),
{
    if backups.len() == 0 {
        make_item(
            "GRUB Backup",
            text("No GRUBST backups found. If something goes wrong, manual recovery may be needed."),
            AuditSeverity::Info,
            Some("A backup is automatically created when you use the Lock feature."),
        )
    } else {
        let mut d = decimal_chars(backups.len() as u64);
        let middle = chars_of(" backup(s) available. Latest: ");
        extend_chars(&mut d, middle.as_slice());
        let latest = chars_of(backups[0].created_at.as_str());
        extend_chars(&mut d, latest.as_slice());
        make_item("GRUB Backup", string_from_chars(d.as_slice()), AuditSeverity::Pass, None)
    }
}

// ───────────────────────────── the report ─────────────────────────────

/// The number of findings with severity `sev`.
pub open spec fn count_severity(items: Seq<AuditItemView>, sev: AuditSeverity) -> nat
    decreases items.len(),
{
    if items.len() == 0 {
        0
    } else {
        count_severity(items.drop_last(), sev) + if items.last().severity == sev {
            1nat
        } else {
            0nat
        }
    }
}

/// A count of findings is at most their number.
pub proof fn lemma_count_bound(items: Seq<AuditItemView>, sev: AuditSeverity)
    ensures
        count_severity(items, sev) <= items.len(),
    decreases items.len(),
{
    if items.len() > 0 {
        lemma_count_bound(items.drop_last(), sev);
    }
}

/// The score: the percentage of passed checks (rounded down), less 15 points
/// for each critical finding, never below 0; 0 without findings.
pub open spec fn score_of(items: Seq<AuditItemView>) -> nat {
    let total = items.len();
    if total == 0 {
        0
    } else {
        let base = count_severity(items, AuditSeverity::Pass) * 100 / total;
        let penalty = count_severity(items, AuditSeverity::Critical) * 15;
        if penalty >= base {
            0
        } else {
            (base - penalty) as nat
        }
    }
}

/// The summary sentence for a score.
pub open spec fn summary_of(score: nat) -> Seq<char> {
    if score >= 80 {
        "Your system has strong boot security."@
    } else if score >= 50 {
        "Your boot security needs improvement."@
    } else {
        "Your boot security is weak — action recommended."@
    }
}

/// The views of a sequence of findings.
pub open spec fn item_views(items: Seq<AuditItem>) -> Seq<AuditItemView> {
    Seq::new(items.len(), |i: int| items[i]@)
}

/// Computes the score of a list of findings (see [`score_of`]).
pub fn compute_score(items: &Vec<AuditItem>) -> (r: u32)
    requires
        items@.len() <= 42949672,
    ensures
        r == score_of(item_views(items@)),
{
    let ghost views_all = item_views(items@);
    let n = items.len();
    let mut passed: u32 = 0;
    let mut critical: u32 = 0;
    let mut i: usize = 0;
    assert(views_all.take(0) =~= Seq::<AuditItemView>::empty());
    while i < n
        invariant
            n == items@.len() <= 42949672,
            views_all == item_views(items@),
            i <= n,
            passed == count_severity(views_all.take(i as int), AuditSeverity::Pass),
            critical == count_severity(views_all.take(i as int), AuditSeverity::Critical),
            passed <= i,
            critical <= i,
        decreases n - i,
    {
        assert(views_all.take(i + 1).drop_last() =~= views_all.take(i as int));
        assert(views_all.take(i + 1).last() == items@[i as int]@);
        match items[i].severity {
            AuditSeverity::Pass => {
                passed = passed + 1;
            },
            AuditSeverity::Critical => {
                critical = critical + 1;
            },
            _ => {},
        }
        i = i + 1;
    }
    assert(views_all.take(n as int) =~= views_all);
    let total = n as u32;
    if total > 0 {
        let base = (passed * 100) / total;
        base.saturating_sub(critical * 15)
    } else {
        0
    }
}

/// The summary sentence for a score (see [`summary_of`]).
pub fn summary_for_score(score: u32) -> (r: String)
    ensures
        r@ == summary_of(score as nat),
{
    if score >= 80 {
        text("Your system has strong boot security.")
    } else if score >= 50 {
        text("Your boot security needs improvement.")
    } else {
        text("Your boot security is weak — action recommended.")
    }
}

/// The eight findings of an audit, in order.
pub open spec fn audit_items(obs: AuditObservations) -> Seq<AuditItemView> {
    seq![
        grub_password_item(obs.superuser_script_exists, obs.grub_cfg_contents),
        grub_permissions_item(obs.grub_cfg_exists, obs.grub_cfg_mode),
        disk_encryption_item(obs.lsblk_output, obs.crypttab_contents),
        secure_boot_item(obs.efivars_exists, obs.mokutil_output),
        boot_order_item(obs.efibootmgr_output),
        root_password_item(obs.shadow_contents),
        update_guard_item(obs.update_guard_exists, obs.superuser_script_exists),
        backup_status_item(obs.backups@),
    ]
}

/// Runs the security audit on what was observed of the system.
pub fn run_audit(obs: &AuditObservations) -> (r: AuditReport)
    ensures
        item_views(r.items@) == audit_items(*obs),
        r.score == score_of(audit_items(*obs)),
        r.summary@ == summary_of(r.score as nat),
{
    let mut items: Vec<AuditItem> = Vec::new();
    items.push(check_grub_password(obs.superuser_script_exists, &obs.grub_cfg_contents));
    items.push(check_grub_permissions(obs.grub_cfg_exists, obs.grub_cfg_mode));
    items.push(check_disk_encryption(&obs.lsblk_output, &obs.crypttab_contents));
    items.push(check_secure_boot(obs.efivars_exists, &obs.mokutil_output));
    items.push(check_boot_order(&obs.efibootmgr_output));
    items.push(check_root_password(&obs.shadow_contents));
    items.push(check_update_guard(obs.update_guard_exists, obs.superuser_script_exists));
    items.push(check_backup_status(&obs.backups));
    assert(item_views(items@) =~= audit_items(*obs));
    let score = compute_score(&items);
    let summary = summary_for_score(score);
    AuditReport { score, summary, items }
}

/// The score is a percentage: never above 100.
pub proof fn lemma_score_at_most_100(items: Seq<AuditItemView>)
    ensures
        score_of(items) <= 100,
{
    if items.len() > 0 {
        lemma_count_bound(items, AuditSeverity::Pass);
        let p = count_severity(items, AuditSeverity::Pass);
        let t = items.len();
        assert(p * 100 / t <= 100) by (nonlinear_arith)
            requires
                p <= t,
                t > 0,
        ;
    }
}

/// A report scores 100 exactly when there are findings and all of them passed.
pub proof fn lemma_full_score_iff_all_pass(items: Seq<AuditItemView>)
    ensures
        score_of(items) == 100 <==> items.len() > 0 && count_severity(items, AuditSeverity::Pass)
            == items.len(),
{
    if items.len() > 0 {
        lemma_count_bound(items, AuditSeverity::Pass);
        let p = count_severity(items, AuditSeverity::Pass);
        let t = items.len();
        assert(p * 100 / t == 100 <==> p == t) by (nonlinear_arith)
            requires
                p <= t,
                t > 0,
        ;
        assert(p * 100 / t <= 100) by (nonlinear_arith)
            requires
                p <= t,
                t > 0,
        ;
        if p == t {
            lemma_pass_excludes_critical(items);
        }
    }
}

/// When every finding passed, none is critical.
proof fn lemma_pass_excludes_critical(items: Seq<AuditItemView>)
    requires
        count_severity(items, AuditSeverity::Pass) == items.len(),
    ensures
        count_severity(items, AuditSeverity::Critical) == 0,
    decreases items.len(),
{
    if items.len() > 0 {
        lemma_count_bound(items.drop_last(), AuditSeverity::Pass);
        lemma_pass_excludes_critical(items.drop_last());
    }
}

} // verus!
