//! The decisions behind the screens of the desktop front end: which screen is
//! shown, where the lock wizard stands, when its steps may go on, and how
//! audit results are presented.
use vstd::prelude::*;
use crate::audit::{count_severity, item_views, AuditItem, AuditSeverity};
use crate::json::{json_bool_at, json_bool_field};
use crate::usb::{UsbDevice, UsbDeviceView};
use crate::text::{chars_eq, chars_of, extend_chars, string_from_chars, trim, trim_chars};

verus! {

broadcast use vstd::string::group_string_axioms;

/// The screen shown in the main area.
#[derive(Clone, Copy, PartialEq, Eq, Debug, Structural)]
pub enum ActiveScreen {
    Home,
    Lock,
    Unlock,
    Audit,
}

/// The CSS class of a navigation entry: highlighted for the current screen.
pub fn nav_class(current: ActiveScreen, entry: ActiveScreen) -> (r: &'static str)
    ensures
        r@ == (if current == entry {
            "nav-item active"@
        } else {
            "nav-item"@
        }),
{
    if current == entry {
        "nav-item active"
    } else {
        "nav-item"
    }
}

/// The steps of the lock wizard, in order.
#[derive(Clone, Copy, PartialEq, Eq, Debug, Structural)]
pub enum LockStep {
    SelectUsb,
    ConfirmFormat,
    BackupPassword,
    Processing,
    Complete,
}

/// The position of a step, from 0.
pub open spec fn step_index(s: LockStep) -> nat {
    match s {
        LockStep::SelectUsb => 0,
        LockStep::ConfirmFormat => 1,
        LockStep::BackupPassword => 2,
        LockStep::Processing => 3,
        LockStep::Complete => 4,
    }
}

/// The state of the wizard's step indicator `n` (1 to 4) while at `current`:
/// `(active, completed)`. Indicator `n` is active at step `n - 1`; indicators
/// 1 and 2 show as completed from the password step on, indicator 3 from
/// processing on and indicator 4 once complete.
pub open spec fn indicator_state(current: LockStep, n: u32) -> (bool, bool) {
    let i = step_index(current);
    let completed = if n <= 2 {
        i >= 2
    } else {
        i >= n
    };
    (i + 1 == n, completed)
}

/// Computes the state of step indicator `n` (see [`indicator_state`]).
pub fn step_indicator(current: LockStep, n: u32) -> (r: (bool, bool))
    requires
        1 <= n <= 4,
    ensures
        r == indicator_state(current, n),
{
    let i: u32 = match current {
        LockStep::SelectUsb => 0,
        LockStep::ConfirmFormat => 1,
        LockStep::BackupPassword => 2,
        LockStep::Processing => 3,
        LockStep::Complete => 4,
    };
    let completed = if n <= 2 {
        i >= 2
    } else {
        i >= n
    };
    (i + 1 == n, completed)
}

/// The CSS class of a step indicator.
pub fn step_class(active: bool, completed: bool) -> (r: &'static str)
    ensures
        r@ == (if active {
            "step active"@
        } else if completed {
            "step completed"@
        } else {
            "step"@
        }),
{
    if active {
        "step active"
    } else if completed {
        "step completed"
    } else {
        "step"
    }
}

/// Formatting is confirmed when the typed text, trimmed, is the device path.
pub fn format_confirmed(typed: &str, device_path: &str) -> (r: bool)
    ensures
        r == (trim(typed@) == device_path@),
{
    let t = trim_chars(chars_of(typed).as_slice());
    let p = chars_of(device_path);
    chars_eq(t.as_slice(), p.as_slice())
}

/// A backup password is long enough from 8 bytes of UTF-8 on.
pub fn backup_password_accepted(password: &str) -> (r: bool)
    ensures
        r == (vstd::utf8::encode_utf8(password@).len() >= 8),
{
    password.as_bytes().len() >= 8
}

/// The colour of an audit score: success from 80, warning from 50, danger below.
pub fn score_color(score: u32) -> (r: &'static str)
    ensures
        r@ == (if score >= 80 {
            "var(--success)"@
        } else if score >= 50 {
            "var(--warning)"@
        } else {
            "var(--danger)"@
        }),
{
    if score >= 80 {
        "var(--success)"
    } else if score >= 50 {
        "var(--warning)"
    } else {
        "var(--danger)"
    }
}

/// The glow of an audit score, with the same thresholds as [`score_color`].
pub fn score_glow(score: u32) -> (r: &'static str)
    ensures
        r@ == (if score >= 80 {
            "var(--success-glow)"@
        } else if score >= 50 {
            "var(--warning-glow)"@
        } else {
            "var(--danger-glow)"@
        }),
{
    if score >= 80 {
        "var(--success-glow)"
    } else if score >= 50 {
        "var(--warning-glow)"
    } else {
        "var(--danger-glow)"
    }
}

/// The CSS class of a finding.
pub fn severity_class(s: AuditSeverity) -> (r: &'static str)
    ensures
        r@ == (match s {
            AuditSeverity::Critical => "audit-item critical"@,
            AuditSeverity::Warning => "audit-item warning"@,
            AuditSeverity::Info => "audit-item info"@,
            AuditSeverity::Pass => "audit-item pass"@,
        }),
{
    match s {
        AuditSeverity::Critical => "audit-item critical",
        AuditSeverity::Warning => "audit-item warning",
        AuditSeverity::Info => "audit-item info",
        AuditSeverity::Pass => "audit-item pass",
    }
}

/// The icon of a finding.
pub fn severity_icon(s: AuditSeverity) -> (r: &'static str)
    ensures
        r@ == (match s {
            AuditSeverity::Critical => "⛔"@,
            AuditSeverity::Warning => "⚠️"@,
            AuditSeverity::Info => "ℹ️"@,
            AuditSeverity::Pass => "✅"@,
        }),
{
    match s {
        AuditSeverity::Critical => "⛔",
        AuditSeverity::Warning => "⚠️",
        AuditSeverity::Info => "ℹ️",
        AuditSeverity::Pass => "✅",
    }
}

/// The number of findings with a given severity.
pub fn count_with_severity(items: &Vec<AuditItem>, sev: AuditSeverity) -> (r: usize)
    ensures
        r == count_severity(item_views(items@), sev),
{
    let ghost vs = item_views(items@);
    let n = items.len();
    let mut count: usize = 0;
    let mut i: usize = 0;
    assert(vs.take(0) =~= Seq::empty());
    while i < n
        invariant
            n == items@.len(),
            vs == item_views(items@),
            i <= n,
            count <= i,
            count == count_severity(vs.take(i as int), sev),
        decreases n - i,
    {
        assert(vs.take(i + 1).drop_last() =~= vs.take(i as int));
        assert(vs.take(i + 1).last() == items@[i as int]@);
        if items[i].severity == sev {
            count = count + 1;
        }
        i = i + 1;
    }
    assert(vs.take(n as int) =~= vs);
    count
}

/// The dashboard's details of an active protection: when it was locked and
/// the rescue key's UUID, and a warning when the state file records
/// `"unrestricted_in_10_linux": false`.
pub fn protection_details(locked_at: &str, usb_uuid: &str, state_json: &Option<String>) -> (r:
    String)
    ensures
        r@ == "Locked at: "@ + locked_at@ + "\nUSB UUID: "@ + usb_uuid@ + (match state_json {
            Some(j) => if json_bool_at(j@, "unrestricted_in_10_linux"@) == Some(false) {
                "\nWarning: normal boot may require password on this distro."@
            } else {
                Seq::empty()
            },
            None => Seq::empty(),
        }),
{
    let mut out = chars_of("Locked at: ");
    extend_chars(&mut out, chars_of(locked_at).as_slice());
    extend_chars(&mut out, chars_of("\nUSB UUID: ").as_slice());
    extend_chars(&mut out, chars_of(usb_uuid).as_slice());
    let warn = match state_json {
        Some(j) => json_bool_field(j.as_str(), "unrestricted_in_10_linux") == Some(false),
        None => false,
    };
    if warn {
        extend_chars(
            &mut out,
            chars_of("\nWarning: normal boot may require password on this distro.").as_slice(),
        );
    }
    string_from_chars(out.as_slice())
}

/// The unlock button is enabled once a password has been typed.
pub fn unlock_enabled(password: &str) -> (r: bool)
    ensures
        r == (password@.len() > 0),
{
    chars_of(password).len() > 0
}

// ───────────────────────────── the lock wizard ─────────────────────────────

/// What the wizard reports while it applies the protection.
#[derive(Clone, Copy, PartialEq, Eq, Debug, Structural)]
pub enum LockProgress {
    Preparing,
    Applying,
    Applied,
    Failed,
}

/// The text shown for a progress state.
pub fn progress_text(p: LockProgress) -> (r: &'static str)
    ensures
        r@ == (match p {
            LockProgress::Preparing => "Preparing..."@,
            LockProgress::Applying => "Applying protection..."@,
            LockProgress::Applied => "Protection applied"@,
            LockProgress::Failed => "Failed"@,
        }),
{
    match p {
        LockProgress::Preparing => "Preparing...",
        LockProgress::Applying => "Applying protection...",
        LockProgress::Applied => "Protection applied",
        LockProgress::Failed => "Failed",
    }
}

/// The state of the lock wizard.
#[derive(Clone, Debug)]
pub struct WizardState {
    /// The step shown.
    pub step: LockStep,
    /// The device picked as rescue key.
    pub selected: Option<UsbDevice>,
    /// What was typed to confirm formatting.
    pub confirm_text: String,
    /// The backup password typed so far.
    pub password: String,
    /// The device path for which formatting was confirmed; cleared whenever
    /// a device is picked.
    pub confirmed_path: Option<String>,
    /// Whether the protection is being applied.
    pub working: bool,
    /// The progress report.
    pub progress: LockProgress,
    /// Why applying the protection failed.
    pub error: Option<String>,
}

/// The wizard's state as the contracts speak of it.
pub struct WizardView {
    pub step: LockStep,
    pub selected: Option<UsbDeviceView>,
    pub confirm_text: Seq<char>,
    pub password: Seq<char>,
    pub confirmed_path: Option<Seq<char>>,
    pub working: bool,
    pub progress: LockProgress,
    pub error: Option<Seq<char>>,
}

impl View for WizardState {
    type V = WizardView;

    open spec fn view(&self) -> WizardView {
        WizardView {
            step: self.step,
            selected: match self.selected {
                Some(d) => Some(d@),
                None => None,
            },
            confirm_text: self.confirm_text@,
            password: self.password@,
            confirmed_path: match self.confirmed_path {
                Some(p) => Some(p@),
                None => None,
            },
            working: self.working,
            progress: self.progress,
            error: match self.error {
                Some(m) => Some(m@),
                None => None,
            },
        }
    }
}

/// What the user or the background task did.
#[derive(Debug)]
pub enum WizardEvent {
    /// A device card was clicked.
    SelectDevice(UsbDevice),
    /// "Next" on the device step.
    Next,
    /// The confirmation field changed.
    ConfirmText(String),
    /// "Back" on the confirmation step.
    BackToSelect,
    /// "Yes, Format USB".
    ConfirmFormat,
    /// The password field changed.
    PasswordText(String),
    /// "Back" on the password step.
    BackToConfirm,
    /// "Lock GRUB".
    Lock,
    /// Applying the protection finished, with its error if it failed.
    LockDone(Result<(), String>),
    /// "Back" on the processing step.
    BackToPassword,
    /// "Continue" on the processing step.
    Continue,
    /// "Return to Dashboard" once complete.
    Finish,
}

/// An event as the contracts speak of it.
pub enum WizardEventView {
    SelectDevice(UsbDeviceView),
    Next,
    ConfirmText(Seq<char>),
    BackToSelect,
    ConfirmFormat,
    PasswordText(Seq<char>),
    BackToConfirm,
    Lock,
    LockDone(Result<(), Seq<char>>),
    BackToPassword,
    Continue,
    Finish,
}

impl View for WizardEvent {
    type V = WizardEventView;

    open spec fn view(&self) -> WizardEventView {
        match self {
            WizardEvent::SelectDevice(d) => WizardEventView::SelectDevice(d@),
            WizardEvent::Next => WizardEventView::Next,
            WizardEvent::ConfirmText(t) => WizardEventView::ConfirmText(t@),
            WizardEvent::BackToSelect => WizardEventView::BackToSelect,
            WizardEvent::ConfirmFormat => WizardEventView::ConfirmFormat,
            WizardEvent::PasswordText(p) => WizardEventView::PasswordText(p@),
            WizardEvent::BackToConfirm => WizardEventView::BackToConfirm,
            WizardEvent::Lock => WizardEventView::Lock,
            WizardEvent::LockDone(res) => WizardEventView::LockDone(
                match res {
                    Ok(()) => Ok(()),
                    Err(m) => Err(m@),
                },
            ),
            WizardEvent::BackToPassword => WizardEventView::BackToPassword,
            WizardEvent::Continue => WizardEventView::Continue,
            WizardEvent::Finish => WizardEventView::Finish,
        }
    }
}

/// The request to lock GRUB with a rescue key and a backup password.
pub struct LockRequest {
    pub device: UsbDevice,
    pub password: String,
}

/// The wizard as it opens: device step, nothing picked or typed.
pub open spec fn initial_wizard() -> WizardView {
    WizardView {
        step: LockStep::SelectUsb,
        selected: None,
        confirm_text: Seq::empty(),
        password: Seq::empty(),
        confirmed_path: None,
        working: false,
        progress: LockProgress::Preparing,
        error: None,
    }
}

/// Whether the wizard takes an event in a state: each button and field
/// belongs to one step, and a button is only active under its condition.
/// Formatting needs the typed text, trimmed, to be the picked device's path;
/// locking needs formatting confirmed for the picked device, no work under
/// way, and a password of at least 8 bytes of UTF-8.
pub open spec fn event_allowed(s: WizardView, e: WizardEventView) -> bool {
    match e {
        WizardEventView::SelectDevice(_) => s.step == LockStep::SelectUsb,
        WizardEventView::Next => s.step == LockStep::SelectUsb && s.selected is Some,
        WizardEventView::ConfirmText(_) => s.step == LockStep::ConfirmFormat,
        WizardEventView::BackToSelect => s.step == LockStep::ConfirmFormat,
        WizardEventView::ConfirmFormat => s.step == LockStep::ConfirmFormat && (s.selected matches Some(
            d,
        ) && trim(s.confirm_text) == d.path),
        WizardEventView::PasswordText(_) => s.step == LockStep::BackupPassword,
        WizardEventView::BackToConfirm => s.step == LockStep::BackupPassword,
        WizardEventView::Lock => s.step == LockStep::BackupPassword && !s.working && (s.selected matches Some(
            d,
        ) && s.confirmed_path == Some(d.path)) && vstd::utf8::encode_utf8(s.password).len() >= 8,
        WizardEventView::LockDone(_) => true,
        WizardEventView::BackToPassword => s.step == LockStep::Processing && !s.working,
        WizardEventView::Continue => s.step == LockStep::Processing && !s.working && s.error is None,
        WizardEventView::Finish => s.step == LockStep::Complete,
    }
}

/// The wizard's next state: an event it does not take leaves it unchanged.
pub open spec fn wizard_next_spec(s: WizardView, e: WizardEventView) -> WizardView {
    if !event_allowed(s, e) {
        s
    } else {
        match e {
            WizardEventView::SelectDevice(d) => WizardView {
                selected: Some(d),
                confirmed_path: None,
                ..s
            },
            WizardEventView::Next => WizardView { step: LockStep::ConfirmFormat, ..s },
            WizardEventView::ConfirmText(t) => WizardView { confirm_text: t, ..s },
            WizardEventView::BackToSelect => WizardView { step: LockStep::SelectUsb, ..s },
            WizardEventView::ConfirmFormat => WizardView {
                step: LockStep::BackupPassword,
                confirmed_path: Some(s.selected.unwrap().path),
                ..s
            },
            WizardEventView::PasswordText(p) => WizardView { password: p, ..s },
            WizardEventView::BackToConfirm => WizardView { step: LockStep::ConfirmFormat, ..s },
            WizardEventView::Lock => WizardView {
                step: LockStep::Processing,
                working: true,
                progress: LockProgress::Applying,
                error: None,
                ..s
            },
            WizardEventView::LockDone(res) => match res {
                Ok(()) => WizardView {
                    step: LockStep::Complete,
                    working: false,
                    progress: LockProgress::Applied,
                    ..s
                },
                Err(m) => WizardView {
                    working: false,
                    progress: LockProgress::Failed,
                    error: Some(m),
                    ..s
                },
            },
            WizardEventView::BackToPassword => WizardView { step: LockStep::BackupPassword, ..s },
            WizardEventView::Continue => WizardView { step: LockStep::Complete, ..s },
            WizardEventView::Finish => initial_wizard(),
        }
    }
}

/// What each event does to the wizard. Forward buttons move one step on
/// under their conditions (a picked device; the typed path of the picked
/// device; a confirmed device, no work under way and a password of at least
/// 8 UTF-8 bytes; no work and no error), "Back" buttons move one step back,
/// fields and device cards change only what they edit, a finished lock ends
/// on the last step or records its error, and "Return to Dashboard" starts
/// over. An event shown on another step changes nothing.
pub proof fn lemma_wizard_events(s: WizardView, e: WizardEventView)
    ensures
        ({
            let r = wizard_next_spec(s, e);
            &&& e matches WizardEventView::SelectDevice(d) ==> r == (if s.step == LockStep::SelectUsb {
                WizardView { selected: Some(d), confirmed_path: None, ..s }
            } else {
                s
            })
            &&& e is Next ==> r == (if s.step == LockStep::SelectUsb && s.selected is Some {
                WizardView { step: LockStep::ConfirmFormat, ..s }
            } else {
                s
            })
            &&& e matches WizardEventView::ConfirmText(t) ==> r == (if s.step == LockStep::ConfirmFormat {
                WizardView { confirm_text: t, ..s }
            } else {
                s
            })
            &&& e is BackToSelect ==> r == (if s.step == LockStep::ConfirmFormat {
                WizardView { step: LockStep::SelectUsb, ..s }
            } else {
                s
            })
            &&& e is ConfirmFormat ==> r == (if s.step == LockStep::ConfirmFormat && s.selected is Some
                && trim(s.confirm_text) == s.selected.unwrap().path {
                WizardView {
                    step: LockStep::BackupPassword,
                    confirmed_path: Some(s.selected.unwrap().path),
                    ..s
                }
            } else {
                s
            })
            &&& e matches WizardEventView::PasswordText(p) ==> r == (if s.step
                == LockStep::BackupPassword {
                WizardView { password: p, ..s }
            } else {
                s
            })
            &&& e is BackToConfirm ==> r == (if s.step == LockStep::BackupPassword {
                WizardView { step: LockStep::ConfirmFormat, ..s }
            } else {
                s
            })
            &&& e is Lock ==> r == (if s.step == LockStep::BackupPassword && !s.working
                && s.selected is Some && s.confirmed_path == Some(s.selected.unwrap().path)
                && vstd::utf8::encode_utf8(s.password).len() >= 8 {
                WizardView {
                    step: LockStep::Processing,
                    working: true,
                    progress: LockProgress::Applying,
                    error: None,
                    ..s
                }
            } else {
                s
            })
            &&& e matches WizardEventView::LockDone(Ok(_)) ==> r == (WizardView {
                step: LockStep::Complete,
                working: false,
                progress: LockProgress::Applied,
                ..s
            })
            &&& e matches WizardEventView::LockDone(Err(m)) ==> r == (WizardView {
                working: false,
                progress: LockProgress::Failed,
                error: Some(m),
                ..s
            })
            &&& e is BackToPassword ==> r == (if s.step == LockStep::Processing && !s.working {
                WizardView { step: LockStep::BackupPassword, ..s }
            } else {
                s
            })
            &&& e is Continue ==> r == (if s.step == LockStep::Processing && !s.working
                && s.error is None {
                WizardView { step: LockStep::Complete, ..s }
            } else {
                s
            })
            &&& e is Finish ==> r == (if s.step == LockStep::Complete {
                WizardView {
                    step: LockStep::SelectUsb,
                    selected: None,
                    confirm_text: Seq::empty(),
                    password: Seq::empty(),
                    confirmed_path: None,
                    working: false,
                    progress: LockProgress::Preparing,
                    error: None,
                }
            } else {
                s
            })
        }),
{
}

/// "Back" moves exactly one step back and a forward button exactly one step
/// on, whenever the wizard takes the event.
pub proof fn lemma_wizard_back_and_forth(s: WizardView, e: WizardEventView)
    ensures
        ({
            let r = wizard_next_spec(s, e);
            &&& (e is BackToSelect || e is BackToConfirm || e is BackToPassword) && r != s
                ==> step_index(r.step) + 1 == step_index(s.step)
            &&& (e is Next || e is ConfirmFormat || e is Lock || e is Continue) && r != s
                ==> step_index(r.step) == step_index(s.step) + 1
        }),
{
    lemma_wizard_events(s, e);
}

/// The states the wizard can be in: work goes on only while processing, and
/// processing either works or has failed; from the confirmation step on a
/// device is picked, and from the password step on formatting is confirmed
/// for that device.
pub open spec fn wizard_wf(s: WizardView) -> bool {
    &&& s.working ==> s.step == LockStep::Processing
    &&& s.step == LockStep::Processing ==> (s.working || s.error is Some)
    &&& (s.step == LockStep::ConfirmFormat || s.step == LockStep::BackupPassword || s.step
        == LockStep::Processing) ==> s.selected is Some
    &&& (s.step == LockStep::BackupPassword || s.step == LockStep::Processing) ==> (s.selected matches Some(
        d,
    ) && s.confirmed_path == Some(d.path))
}

impl WizardState {
    /// The wizard as it opens.
    pub fn new() -> (r: WizardState)
        ensures
            r@ == initial_wizard(),
            wizard_wf(r@),
    {
        WizardState {
            step: LockStep::SelectUsb,
            selected: None,
            confirm_text: String::new(),
            password: String::new(),
            confirmed_path: None,
            working: false,
            progress: LockProgress::Preparing,
            error: None,
        }
    }
}

fn copy_device(d: &UsbDevice) -> (r: UsbDevice)
    ensures
        r@ == d@,
{
    UsbDevice {
        path: d.path.clone(),
        name: d.name.clone(),
        size_bytes: d.size_bytes,
        size_human: d.size_human.clone(),
        model: d.model.clone(),
        vendor: d.vendor.clone(),
    }
}

/// Whether the wizard takes an event now (see [`event_allowed`]); a button
/// whose event it does not take is shown disabled.
pub fn wizard_accepts(s: &WizardState, e: &WizardEvent) -> (r: bool)
    ensures
        r == event_allowed(s@, e@),
{
    match e {
        WizardEvent::SelectDevice(_) => s.step == LockStep::SelectUsb,
        WizardEvent::Next => s.step == LockStep::SelectUsb && s.selected.is_some(),
        WizardEvent::ConfirmText(_) => s.step == LockStep::ConfirmFormat,
        WizardEvent::BackToSelect => s.step == LockStep::ConfirmFormat,
        WizardEvent::ConfirmFormat => s.step == LockStep::ConfirmFormat && match &s.selected {
            Some(d) => format_confirmed(s.confirm_text.as_str(), d.path.as_str()),
            None => false,
        },
        WizardEvent::PasswordText(_) => s.step == LockStep::BackupPassword,
        WizardEvent::BackToConfirm => s.step == LockStep::BackupPassword,
        WizardEvent::Lock => {
            let confirmed = match (&s.selected, &s.confirmed_path) {
                (Some(d), Some(p)) => chars_eq(
                    chars_of(p.as_str()).as_slice(),
                    chars_of(d.path.as_str()).as_slice(),
                ),
                _ => false,
            };
            s.step == LockStep::BackupPassword && !s.working && confirmed
                && backup_password_accepted(s.password.as_str())
        },
        WizardEvent::LockDone(_) => true,
        WizardEvent::BackToPassword => s.step == LockStep::Processing && !s.working,
        WizardEvent::Continue => s.step == LockStep::Processing && !s.working && s.error.is_none(),
        WizardEvent::Finish => s.step == LockStep::Complete,
    }
}

/// Takes one event: the wizard's next state, and the lock request when the
/// event starts applying the protection.
pub fn lock_wizard_next(s: WizardState, e: WizardEvent) -> (r: (WizardState, Option<LockRequest>))
    ensures
        r.0@ == wizard_next_spec(s@, e@),
        r.1 is Some <==> (e is Lock && event_allowed(s@, e@)),
        r.1 matches Some(q) ==> {
            &&& s@.step == LockStep::BackupPassword
            &&& !s@.working
            &&& s@.selected == Some(q.device@)
            &&& s@.confirmed_path == Some(q.device@.path)
            &&& q.password@ == s@.password
            &&& vstd::utf8::encode_utf8(q.password@).len() >= 8
        },
        wizard_wf(s@) ==> wizard_wf(r.0@),
        wizard_wf(s@) && r.0@.step == LockStep::Complete && s@.step != LockStep::Complete ==> (
        e@ matches WizardEventView::LockDone(Ok(_))),
{
    if !wizard_accepts(&s, &e) {
        return (s, None);
    }
    match e {
        WizardEvent::SelectDevice(d) => (
            WizardState { selected: Some(d), confirmed_path: None, ..s },
            None,
        ),
        WizardEvent::Next => (WizardState { step: LockStep::ConfirmFormat, ..s }, None),
        WizardEvent::ConfirmText(t) => (WizardState { confirm_text: t, ..s }, None),
        WizardEvent::BackToSelect => (WizardState { step: LockStep::SelectUsb, ..s }, None),
        WizardEvent::ConfirmFormat => {
            let path = match &s.selected {
                Some(d) => d.path.clone(),
                None => String::new(),
            };
            (
                WizardState { step: LockStep::BackupPassword, confirmed_path: Some(path), ..s },
                None,
            )
        },
        WizardEvent::PasswordText(p) => (WizardState { password: p, ..s }, None),
        WizardEvent::BackToConfirm => (WizardState { step: LockStep::ConfirmFormat, ..s }, None),
        WizardEvent::Lock => {
            let request = match &s.selected {
                Some(d) => Some(LockRequest { device: copy_device(d), password: s.password.clone() }),
                None => None,
            };
            (
                WizardState {
                    step: LockStep::Processing,
                    working: true,
                    progress: LockProgress::Applying,
                    error: None,
                    ..s
                },
                request,
            )
        },
        WizardEvent::LockDone(res) => match res {
            Ok(()) => (
                WizardState {
                    step: LockStep::Complete,
                    working: false,
                    progress: LockProgress::Applied,
                    ..s
                },
                None,
            ),
            Err(m) => (
                WizardState {
                    working: false,
                    progress: LockProgress::Failed,
                    error: Some(m),
                    ..s
                },
                None,
            ),
        },
        WizardEvent::BackToPassword => (WizardState { step: LockStep::BackupPassword, ..s }, None),
        WizardEvent::Continue => (WizardState { step: LockStep::Complete, ..s }, None),
        WizardEvent::Finish => (WizardState::new(), None),
    }
}

} // verus!
