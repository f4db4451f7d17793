//! USB rescue keys: device naming, the choice of candidate devices from
//! `lsblk`, sizes, and the files written to a key.
use serde_json::Value;
use vstd::prelude::*;
use crate::crypto::{integrity_hash, integrity_hash_spec};
use crate::rounding::{f64_tenths, f64_tenths_exec};
use crate::text::{
    all_digits, chars_eq, chars_of, chars_start_with, decimal, decimal_chars, digit_char,
    digit_to_char, extend_chars, is_digit, lines, lines_of, parse_unsigned, parse_unsigned_chars,
    starts_with, string_from_chars, sub_chars, trim, trim_chars, views, words, words_of,
};

verus! {

broadcast use vstd::string::group_string_axioms;

// ───────────────────────────── block device names ─────────────────────────────

/// The position of the last `c` in `s`.
pub open spec fn last_index_of(s: Seq<char>, c: char) -> Option<int>
    decreases s.len(),
{
    if s.len() == 0 {
        None
    } else if s.last() == c {
        Some(s.len() - 1)
    } else {
        last_index_of(s.drop_last(), c)
    }
}

/// Where the last `c` of `s` stands, when there is one.
pub proof fn lemma_last_index_of(s: Seq<char>, c: char)
    ensures
        last_index_of(s, c) matches Some(i) ==> 0 <= i < s.len() && s[i] == c && forall|j: int|
            i < j < s.len() ==> s[j] != c,
        last_index_of(s, c) is None ==> forall|j: int| 0 <= j < s.len() ==> s[j] != c,
    decreases s.len(),
{
    if s.len() > 0 && s.last() != c {
        let t = s.drop_last();
        lemma_last_index_of(t, c);
        assert forall|j: int| 0 <= j < t.len() implies t[j] == s[j] by {}
    }
}

fn last_index_of_exec(s: &[char], c: char) -> (r: Option<usize>)
    ensures
        r matches Some(i) ==> last_index_of(s@, c) == Some(i as int),
        r is None ==> last_index_of(s@, c) is None,
{
    let mut k: usize = s.len();
    assert(s@.take(k as int) =~= s@);
    while k > 0
        invariant
            k <= s@.len(),
            last_index_of(s@, c) == last_index_of(s@.take(k as int), c),
        decreases k,
    {
        assert(s@.take(k as int).last() == s@[k - 1]);
        if s[k - 1] == c {
            return Some(k - 1);
        }
        assert(s@.take(k as int).drop_last() =~= s@.take(k - 1));
        k = k - 1;
    }
    None
}

/// The last path component of a device path (what follows the last `/`).
pub open spec fn basename(dev: Seq<char>) -> Seq<char> {
    match last_index_of(dev, '/') {
        Some(i) => dev.skip(i + 1),
        None => dev,
    }
}

/// `s` without its trailing ASCII digits.
pub open spec fn strip_trailing_digits(s: Seq<char>) -> Seq<char>
    decreases s.len(),
{
    if s.len() > 0 && is_digit(s.last()) {
        strip_trailing_digits(s.drop_last())
    } else {
        s
    }
}

/// The whole-disk device of a partition device path:
/// NVMe and MMC names drop a trailing `p` followed by digits
/// (`/dev/nvme0n1p2` gives `/dev/nvme0n1`), SCSI, SATA, IDE and VirtIO names
/// (`sd`, `hd`, `vd`) drop their trailing digits (`/dev/sda1` gives
/// `/dev/sda`), and every other path is kept as it is.
pub open spec fn strip_partition_suffix_spec(dev: Seq<char>) -> Seq<char> {
    let base = basename(dev);
    if starts_with(base, "nvme"@) || starts_with(base, "mmcblk"@) {
        match last_index_of(base, 'p') {
            Some(idx) => {
                let after = base.skip(idx + 1);
                if after.len() > 0 && all_digits(after) {
                    dev.take(dev.len() - base.len() + idx)
                } else {
                    dev
                }
            },
            None => dev,
        }
    } else if starts_with(base, "sd"@) || starts_with(base, "hd"@) || starts_with(base, "vd"@) {
        strip_trailing_digits(dev)
    } else {
        dev
    }
}

fn is_ascii_digit(c: char) -> (r: bool)
    ensures
        r == is_digit(c),
{
    let u = c as u32;
    48 <= u && u <= 57
}

fn all_digits_exec(s: &[char], lo: usize) -> (r: bool)
    requires
        lo <= s@.len(),
    ensures
        r == all_digits(s@.skip(lo as int)),
{
    let n = s.len();
    let mut i: usize = lo;
    while i < n
        invariant
            n == s@.len(),
            lo <= i <= n,
            forall|k: int| lo <= k < i ==> is_digit(#[trigger] s@[k]),
        decreases n - i,
    {
        let u = s[i] as u32;
        if u < 48 || u > 57 {
            assert(s@.skip(lo as int)[i - lo] == s@[i as int]);
            return false;
        }
        i = i + 1;
    }
    assert forall|k: int| 0 <= k < s@.skip(lo as int).len() implies is_digit(
        #[trigger] s@.skip(lo as int)[k],
    ) by {
        assert(s@.skip(lo as int)[k] == s@[k + lo]);
    }
    true
}

/// Strips the partition suffix from a block device path, giving the path of
/// the whole disk.
pub fn strip_partition_suffix(dev: &str) -> (r: String)
    ensures
        r@ == strip_partition_suffix_spec(dev@),
{
    let d = chars_of(dev);
    let n = d.len();
    proof {
        lemma_last_index_of(dev@, '/');
    }
    let base_start: usize = match last_index_of_exec(d.as_slice(), '/') {
        Some(i) => i + 1,
        None => 0,
    };
    let base = sub_chars(d.as_slice(), base_start, n);
    assert(base@ =~= basename(dev@));
    let nvme = chars_of("nvme");
    let mmcblk = chars_of("mmcblk");
    if chars_start_with(base.as_slice(), nvme.as_slice()) || chars_start_with(
        base.as_slice(),
        mmcblk.as_slice(),
    ) {
        proof {
            lemma_last_index_of(base@, 'p');
        }
        match last_index_of_exec(base.as_slice(), 'p') {
            Some(idx) => {
                assert(base@.skip(idx + 1) =~= base@.skip(idx + 1));
                if idx + 1 < base.len() && all_digits_exec(base.as_slice(), idx + 1) {
                    let prefix_len = n - base.len() + idx;
                    return string_from_chars(sub_chars(d.as_slice(), 0, prefix_len).as_slice());
                }
                return string_from_chars(d.as_slice());
            },
            None => {
                return string_from_chars(d.as_slice());
            },
        }
    }
    let sd = chars_of("sd");
    let hd = chars_of("hd");
    let vd = chars_of("vd");
    if chars_start_with(base.as_slice(), sd.as_slice()) || chars_start_with(
        base.as_slice(),
        hd.as_slice(),
    ) || chars_start_with(base.as_slice(), vd.as_slice()) {
        let mut k: usize = n;
        assert(d@.take(n as int) =~= d@);
        while k > 0 && is_ascii_digit(d[k - 1])
            invariant
                n == d@.len(),
                k <= n,
                strip_trailing_digits(dev@) == strip_trailing_digits(d@.take(k as int)),
            decreases k,
        {
            assert(d@.take(k as int).last() == d@[k - 1]);
            assert(d@.take(k as int).drop_last() =~= d@.take(k - 1));
            k = k - 1;
        }
        assert(k > 0 ==> d@.take(k as int).last() == d@[k - 1]);
        return string_from_chars(sub_chars(d.as_slice(), 0, k).as_slice());
    }
    string_from_chars(d.as_slice())
}

// ───────────────────────────── human-readable sizes ─────────────────────────────

/// Tenths `t` printed with one decimal, as `{:.1}` prints `t / 10`.
pub open spec fn one_decimal(t: nat) -> Seq<char> {
    decimal(t / 10) + seq!['.', digit_char((t % 10) as int)]
}

/// A byte count in the largest decimal unit it reaches (KB, MB, GB, TB),
/// with one decimal of the floating-point quotient, or in bytes below 1000.
pub open spec fn format_size_spec(bytes: nat) -> Seq<char> {
    if bytes >= 1_000_000_000_000 {
        one_decimal(f64_tenths(bytes, 1_000_000_000_000)) + " TB"@
    } else if bytes >= 1_000_000_000 {
        one_decimal(f64_tenths(bytes, 1_000_000_000)) + " GB"@
    } else if bytes >= 1_000_000 {
        one_decimal(f64_tenths(bytes, 1_000_000)) + " MB"@
    } else if bytes >= 1_000 {
        one_decimal(f64_tenths(bytes, 1_000)) + " KB"@
    } else {
        decimal(bytes) + " B"@
    }
}

fn one_decimal_chars(t: u64) -> (r: Vec<char>)
    ensures
        r@ == one_decimal(t as nat),
{
    let mut v = decimal_chars(t / 10);
    v.push('.');
    v.push(digit_to_char(t % 10));
    assert(v@ =~= one_decimal(t as nat));
    v
}

/// Formats a byte count into a human-readable size such as `4.2 GB`.
pub fn format_size(bytes: u64) -> (r: String)
    ensures
        r@ == format_size_spec(bytes as nat),
{
    let mut out: Vec<char>;
    let unit_name: Vec<char>;
    if bytes >= 1_000_000_000_000 {
        out = one_decimal_chars(f64_tenths_exec(bytes, 1_000_000_000_000));
        unit_name = chars_of(" TB");
    } else if bytes >= 1_000_000_000 {
        out = one_decimal_chars(f64_tenths_exec(bytes, 1_000_000_000));
        unit_name = chars_of(" GB");
    } else if bytes >= 1_000_000 {
        out = one_decimal_chars(f64_tenths_exec(bytes, 1_000_000));
        unit_name = chars_of(" MB");
    } else if bytes >= 1_000 {
        out = one_decimal_chars(f64_tenths_exec(bytes, 1_000));
        unit_name = chars_of(" KB");
    } else {
        out = decimal_chars(bytes);
        unit_name = chars_of(" B");
    }
    extend_chars(&mut out, unit_name.as_slice());
    string_from_chars(out.as_slice())
}

// ───────────────────────────── USB devices ─────────────────────────────

/// Minimum size of a rescue key in bytes.
pub const MIN_USB_SIZE: u64 = 4_000_000_000;

/// A detected USB device.
#[derive(Debug, Clone)]
pub struct UsbDevice {
    /// Device path (e.g. `/dev/sdb`).
    pub path: String,
    /// Human-readable device name.
    pub name: String,
    /// Size in bytes.
    pub size_bytes: u64,
    /// Human-readable size (e.g. `16.0 GB`).
    pub size_human: String,
    /// Device model.
    pub model: String,
    /// Vendor.
    pub vendor: String,
}

/// A device as the contracts speak of it.
pub struct UsbDeviceView {
    pub path: Seq<char>,
    pub name: Seq<char>,
    pub size_bytes: u64,
    pub size_human: Seq<char>,
    pub model: Seq<char>,
    pub vendor: Seq<char>,
}

impl View for UsbDevice {
    type V = UsbDeviceView;

    open spec fn view(&self) -> UsbDeviceView {
        UsbDeviceView {
            path: self.path@,
            name: self.name@,
            size_bytes: self.size_bytes,
            size_human: self.size_human@,
            model: self.model@,
            vendor: self.vendor@,
        }
    }
}

/// One field of a device entry in the JSON that `lsblk -J` prints, as far as
/// the device listing looks at it.
pub enum JsonField {
    /// A JSON boolean.
    Bool(bool),
    /// A JSON string.
    Str(String),
    /// A JSON number that is a non-negative integer fitting in `u64`.
    UInt(u64),
    /// Anything else, or a missing field.
    Other,
}

/// A device entry of `lsblk -J -b -d -o NAME,SIZE,MODEL,VENDOR,RM,TRAN,TYPE`.
pub struct LsblkDevice {
    pub name: JsonField,
    pub size: JsonField,
    pub model: JsonField,
    pub vendor: JsonField,
    pub rm: JsonField,
    pub tran: JsonField,
    pub dev_type: JsonField,
}

/// The text of a string field, or `default`.
pub open spec fn str_or(f: JsonField, default: Seq<char>) -> Seq<char> {
    match f {
        JsonField::Str(s) => s@,
        _ => default,
    }
}

/// Whether the `rm` field marks a removable device: `true`, `"1"` or `1`.
pub open spec fn is_removable(rm: JsonField) -> bool {
    match rm {
        JsonField::Bool(b) => b,
        JsonField::Str(s) => s@ == "1"@,
        JsonField::UInt(n) => n == 1,
        JsonField::Other => false,
    }
}

/// The size field: a number, or a string holding a decimal `u64`; 0 otherwise.
pub open spec fn size_of_field(f: JsonField) -> u64 {
    match f {
        JsonField::UInt(n) => n,
        JsonField::Str(s) => match parse_unsigned(s@, u64::MAX as nat) {
            Some(v) => v as u64,
            None => 0,
        },
        _ => 0,
    }
}

/// Whether an entry is a candidate rescue key: a disk that is removable or
/// attached over USB.
pub open spec fn is_usb_candidate(d: LsblkDevice) -> bool {
    (is_removable(d.rm) || str_or(d.tran, ""@) == "usb"@) && str_or(d.dev_type, ""@) == "disk"@
}

/// The device path of an entry: `/dev/` and its name (`unknown` when missing).
pub open spec fn device_path_of(d: LsblkDevice) -> Seq<char> {
    "/dev/"@ + str_or(d.name, "unknown"@)
}

/// The display name: `vendor model`, the model alone without a vendor, or
/// `USB Drive (name)` when the model is missing, blank or `Unknown`.
pub open spec fn display_name(name: Seq<char>, model: Seq<char>, vendor: Seq<char>) -> Seq<char> {
    if model.len() == 0 || model == "Unknown"@ {
        "USB Drive ("@ + name + ")"@
    } else if vendor.len() == 0 {
        model
    } else {
        vendor + " "@ + model
    }
}

/// The device that an entry describes.
pub open spec fn device_of(d: LsblkDevice) -> UsbDeviceView {
    let model = trim(str_or(d.model, "Unknown"@));
    let vendor = trim(str_or(d.vendor, ""@));
    let size = size_of_field(d.size);
    UsbDeviceView {
        path: device_path_of(d),
        name: display_name(str_or(d.name, "unknown"@), model, vendor),
        size_bytes: size,
        size_human: format_size_spec(size as nat),
        model,
        vendor,
    }
}

/// The USB devices among `lsblk` entries: the candidates, in order, except
/// the disk that holds the root file system.
pub open spec fn usb_devices_spec(devs: Seq<LsblkDevice>, root: Option<Seq<char>>) -> Seq<
    UsbDeviceView,
>
    decreases devs.len(),
{
    if devs.len() == 0 {
        Seq::empty()
    } else {
        let rest = usb_devices_spec(devs.drop_last(), root);
        let d = devs.last();
        if is_usb_candidate(d) && root != Some(device_path_of(d)) {
            rest.push(device_of(d))
        } else {
            rest
        }
    }
}

/// The views of a sequence of devices.
pub open spec fn device_views(v: Seq<UsbDevice>) -> Seq<UsbDeviceView> {
    Seq::new(v.len(), |i: int| v[i]@)
}

fn str_or_exec(f: &JsonField, default: &str) -> (r: Vec<char>)
    ensures
        r@ == str_or(*f, default@),
{
    match f {
        JsonField::Str(s) => chars_of(s.as_str()),
        _ => chars_of(default),
    }
}

fn is_removable_exec(rm: &JsonField) -> (r: bool)
    ensures
        r == is_removable(*rm),
{
    match rm {
        JsonField::Bool(b) => *b,
        JsonField::Str(s) => {
            let c = chars_of(s.as_str());
            let one = chars_of("1");
            chars_eq(c.as_slice(), one.as_slice())
        },
        JsonField::UInt(n) => *n == 1,
        JsonField::Other => false,
    }
}

fn size_of_field_exec(f: &JsonField) -> (r: u64)
    ensures
        r == size_of_field(*f),
{
    match f {
        JsonField::UInt(n) => *n,
        JsonField::Str(s) => {
            let c = chars_of(s.as_str());
            match parse_unsigned_chars(c.as_slice(), 0xffff_ffff_ffff_ffff) {
                Some(v) => v,
                None => 0,
            }
        },
        _ => 0,
    }
}

fn is_usb_candidate_exec(d: &LsblkDevice) -> (r: bool)
    ensures
        r == is_usb_candidate(*d),
{
    let tran = str_or_exec(&d.tran, "");
    let ty = str_or_exec(&d.dev_type, "");
    let usb = chars_of("usb");
    let disk = chars_of("disk");
    (is_removable_exec(&d.rm) || chars_eq(tran.as_slice(), usb.as_slice())) && chars_eq(
        ty.as_slice(),
        disk.as_slice(),
    )
}

fn device_of_exec(d: &LsblkDevice) -> (r: UsbDevice)
    ensures
        r@ == device_of(*d),
{
    let name = str_or_exec(&d.name, "unknown");
    let mut path = chars_of("/dev/");
    extend_chars(&mut path, name.as_slice());
    let model = trim_chars(str_or_exec(&d.model, "Unknown").as_slice());
    let vendor = trim_chars(str_or_exec(&d.vendor, "").as_slice());
    let unknown = chars_of("Unknown");
    let display: Vec<char> = if model.len() == 0 || chars_eq(model.as_slice(), unknown.as_slice()) {
        let mut v = chars_of("USB Drive (");
        extend_chars(&mut v, name.as_slice());
        let close = chars_of(")");
        extend_chars(&mut v, close.as_slice());
        v
    } else if vendor.len() == 0 {
        sub_chars(model.as_slice(), 0, model.len())
    } else {
        let mut v = sub_chars(vendor.as_slice(), 0, vendor.len());
        let space = chars_of(" ");
        extend_chars(&mut v, space.as_slice());
        extend_chars(&mut v, model.as_slice());
        v
    };
    assert(model@.subrange(0, model@.len() as int) =~= model@);
    assert(vendor@.subrange(0, vendor@.len() as int) =~= vendor@);
    let size = size_of_field_exec(&d.size);
    UsbDevice {
        path: string_from_chars(path.as_slice()),
        name: string_from_chars(display.as_slice()),
        size_bytes: size,
        size_human: format_size(size),
        model: string_from_chars(model.as_slice()),
        vendor: string_from_chars(vendor.as_slice()),
    }
}

/// The USB devices among the `lsblk` entries, leaving out the disk that holds
/// the root file system.
pub fn usb_devices_from_lsblk(devices: &Vec<LsblkDevice>, root_device: &Option<String>) -> (r: Vec<
    UsbDevice,
>)
    ensures
        device_views(r@) == usb_devices_spec(
            devices@,
            match root_device {
                Some(s) => Some(s@),
                None => None,
            },
        ),
{
    let ghost root = match root_device {
        Some(s) => Some(s@),
        None => None,
    };
    let root_chars: Option<Vec<char>> = match root_device {
        Some(s) => Some(chars_of(s.as_str())),
        None => None,
    };
    let mut out: Vec<UsbDevice> = Vec::new();
    let n = devices.len();
    let mut i: usize = 0;
    assert(devices@.take(0) =~= Seq::<LsblkDevice>::empty());
    while i < n
        invariant
            n == devices@.len(),
            i <= n,
            root == (match root_device {
                Some(s) => Some(s@),
                None => None,
            }),
            match root_chars {
                Some(c) => root == Some(c@),
                None => root is None,
            },
            device_views(out@) == usb_devices_spec(devices@.take(i as int), root),
        decreases n - i,
    {
        let d = &devices[i];
        assert(devices@.take(i + 1).drop_last() =~= devices@.take(i as int));
        assert(devices@.take(i + 1).last() == *d);
        if is_usb_candidate_exec(d) {
            let name = str_or_exec(&d.name, "unknown");
            let mut path = chars_of("/dev/");
            extend_chars(&mut path, name.as_slice());
            let is_root = match &root_chars {
                Some(c) => chars_eq(c.as_slice(), path.as_slice()),
                None => false,
            };
            if !is_root {
                let dev = device_of_exec(d);
                let ghost before = out@;
                out.push(dev);
                assert(device_views(out@) =~= device_views(before).push(device_of(*d)));
            }
        }
        i = i + 1;
    }
    assert(devices@.take(n as int) =~= devices@);
    out
}

/// The device entries of the JSON that `lsblk -J` prints, as `serde_json`
/// reads them: the array under `blockdevices`, each entry's fields taken as
/// [`JsonField`]s; `None` when the text is not JSON or has no such array.
pub uninterp spec fn lsblk_entries(json: Seq<char>) -> Option<Seq<LsblkDevice>>;

/// `serde_json::from_str::<Value>` on the `lsblk -J` output, then the array
/// under `blockdevices`, each entry's `name`, `size`, `model`, `vendor`, `rm`,
/// `tran` and `type` turned into a [`JsonField`] by its JSON kind (a number
/// by `as_u64`). The result is named [`lsblk_entries`] of the text.
#[verifier::external_body]
fn parse_lsblk_json(json: &str) -> (r: Option<Vec<LsblkDevice>>)
    ensures
        r is None <==> lsblk_entries(json@) is None,
        r matches Some(v) ==> lsblk_entries(json@) == Some(v@),
{
    let f = |d: &Value, k| match d.get(k) {
        Some(Value::Bool(b)) => JsonField::Bool(*b),
        Some(Value::String(t)) => JsonField::Str(t.clone()),
        Some(Value::Number(n)) => n.as_u64().map_or(JsonField::Other, JsonField::UInt),
        _ => JsonField::Other,
    };
    let v: Value = serde_json::from_str(json).ok()?;
    Some(v.get("blockdevices")?.as_array()?.iter().map(|d| LsblkDevice { name: f(d, "name"), size: f(d, "size"),
        model: f(d, "model"), vendor: f(d, "vendor"), rm: f(d, "rm"), tran: f(d, "tran"),
        dev_type: f(d, "type") }).collect())
}

/// The USB devices listed in the JSON that `lsblk -J` printed, leaving out the
/// disk that holds the root file system; none when the JSON cannot be read.
pub fn usb_devices_from_lsblk_json(json: &str, root_device: &Option<String>) -> (r: Vec<UsbDevice>)
    ensures
        device_views(r@) == match lsblk_entries(json@) {
            Some(d) => usb_devices_spec(
                d,
                match root_device {
                    Some(s) => Some(s@),
                    None => None,
                },
            ),
            None => Seq::empty(),
        },
{
    match parse_lsblk_json(json) {
        Some(entries) => usb_devices_from_lsblk(&entries, root_device),
        None => {
            let r: Vec<UsbDevice> = Vec::new();
            assert(device_views(r@) =~= Seq::empty());
            r
        },
    }
}

/// Every `lsblk` entry of type `disk` that is attached over USB or marked
/// removable (`rm` of `true`, `"1"` or `1`) is offered, whatever its other
/// fields, unless it is the disk that holds the root file system.
pub proof fn lemma_usb_or_removable_disk_listed(devs: Seq<LsblkDevice>, root: Option<Seq<char>>, j: int)
    requires
        0 <= j < devs.len(),
        devs[j].dev_type matches JsonField::Str(t) && t@ == "disk"@,
        (devs[j].tran matches JsonField::Str(u) && u@ == "usb"@) || devs[j].rm == JsonField::Bool(true)
            || (devs[j].rm matches JsonField::Str(x) && x@ == "1"@) || devs[j].rm == JsonField::UInt(1),
        root != Some(
            "/dev/"@ + match devs[j].name {
                JsonField::Str(n) => n@,
                _ => "unknown"@,
            },
        ),
    ensures
        usb_devices_spec(devs, root).contains(device_of(devs[j])),
    decreases devs.len(),
{
    let out = usb_devices_spec(devs, root);
    let rest = usb_devices_spec(devs.drop_last(), root);
    if j == devs.len() - 1 {
        assert(devs.last() == devs[j]);
        assert(is_usb_candidate(devs[j]));
        assert(out == rest.push(device_of(devs[j])));
        assert(out[out.len() - 1] == device_of(devs[j]));
    } else {
        assert(devs.drop_last()[j] == devs[j]);
        lemma_usb_or_removable_disk_listed(devs.drop_last(), root, j);
        let k = choose|k: int| 0 <= k < rest.len() && rest[k] == device_of(devs[j]);
        if out != rest {
            assert(out[k] == rest[k]);
        }
    }
}

/// The disk that holds the root file system is never offered as a rescue key:
/// every listed device is the device of a candidate entry, its path is not the
/// root disk, and no more devices are listed than there are entries.
pub proof fn lemma_root_disk_never_listed(devs: Seq<LsblkDevice>, root: Option<Seq<char>>)
    ensures
        usb_devices_spec(devs, root).len() <= devs.len(),
        forall|i: int|
            0 <= i < usb_devices_spec(devs, root).len() ==> root != Some(
                #[trigger] usb_devices_spec(devs, root)[i].path,
            ),
        forall|i: int|
            0 <= i < usb_devices_spec(devs, root).len() ==> exists|j: int|
                0 <= j < devs.len() && is_usb_candidate(devs[j]) && #[trigger] usb_devices_spec(
                    devs,
                    root,
                )[i] == device_of(devs[j]),
    decreases devs.len(),
{
    if devs.len() > 0 {
        let prev = devs.drop_last();
        lemma_root_disk_never_listed(prev, root);
        let out = usb_devices_spec(devs, root);
        let rest = usb_devices_spec(prev, root);
        assert forall|i: int| 0 <= i < out.len() implies exists|j: int|
            0 <= j < devs.len() && is_usb_candidate(devs[j]) && #[trigger] out[i] == device_of(
                devs[j],
            ) by {
            if i < rest.len() {
                assert(out[i] == rest[i]);
                let j = choose|j: int|
                    0 <= j < prev.len() && is_usb_candidate(prev[j]) && rest[i] == device_of(
                        prev[j],
                    );
                assert(devs[j] == prev[j]);
            } else {
                assert(devs[devs.len() - 1] == devs.last());
            }
        }
    }
}

/// Only disks are offered, and only those attached over USB or marked
/// removable (`rm` of `true`, `"1"` or `1`): every listed device is the device
/// of such an entry.
pub proof fn lemma_listed_are_usb_or_removable_disks(devs: Seq<LsblkDevice>, root: Option<Seq<char>>)
    ensures
        forall|i: int|
            0 <= i < usb_devices_spec(devs, root).len() ==> exists|j: int|
                0 <= j < devs.len() && #[trigger] usb_devices_spec(devs, root)[i] == device_of(devs[j])
                    && (devs[j].dev_type matches JsonField::Str(t) && t@ == "disk"@) && ((
                devs[j].tran matches JsonField::Str(u) && u@ == "usb"@) || devs[j].rm
                    == JsonField::Bool(true) || (devs[j].rm matches JsonField::Str(x) && x@
                    == "1"@) || devs[j].rm == JsonField::UInt(1)),
{
    lemma_root_disk_never_listed(devs, root);
    reveal_strlit("disk");
    reveal_strlit("usb");
    reveal_strlit("");
    let out = usb_devices_spec(devs, root);
    assert forall|i: int| 0 <= i < out.len() implies exists|j: int|
        0 <= j < devs.len() && #[trigger] out[i] == device_of(devs[j]) && (
        devs[j].dev_type matches JsonField::Str(t) && t@ == "disk"@) && ((devs[j].tran matches JsonField::Str(
            u,
        ) && u@ == "usb"@) || devs[j].rm == JsonField::Bool(true) || (devs[j].rm matches JsonField::Str(
            x,
        ) && x@ == "1"@) || devs[j].rm == JsonField::UInt(1)) by {
        let j = choose|j: int| 0 <= j < devs.len() && is_usb_candidate(devs[j]) && out[i] == device_of(devs[j]);
        let d = devs[j];
        assert(""@.len() == 0);
        assert("disk"@.len() == 4);
        assert("usb"@.len() == 3);
        assert(str_or(d.dev_type, ""@) == "disk"@);
    }
}

/// The first mount-table line whose second field is `/`.
pub open spec fn root_mount_line(ls: Seq<Seq<char>>) -> Option<Seq<char>>
    decreases ls.len(),
{
    if ls.len() == 0 {
        None
    } else if words(ls[0]).len() > 1 && words(ls[0])[1] == "/"@ {
        Some(ls[0])
    } else {
        root_mount_line(ls.drop_first())
    }
}

/// The disk that holds the root file system, from the contents of
/// `/proc/self/mounts`: the first field of the root line, when it is a
/// `/dev/` path that is not under `/dev/mapper/`, without its partition suffix.
pub open spec fn root_device_spec(mounts: Seq<char>) -> Option<Seq<char>> {
    match root_mount_line(lines(mounts)) {
        Some(l) => {
            let source = words(l)[0];
            if !starts_with(source, "/dev/"@) || starts_with(source, "/dev/mapper/"@) {
                None
            } else {
                Some(strip_partition_suffix_spec(source))
            }
        },
        None => None,
    }
}

/// Finds the disk that holds the root file system in a mount table.
pub fn root_device_from_mounts(mounts: &str) -> (r: Option<String>)
    ensures
        r matches Some(s) ==> root_device_spec(mounts@) == Some(s@),
        r is None ==> root_device_spec(mounts@) is None,
{
    let c = chars_of(mounts);
    let ls = lines_of(c.as_slice());
    let ghost lv = lines(mounts@);
    let slash = chars_of("/");
    let n = ls.len();
    let mut i: usize = 0;
    assert(lv.skip(0) =~= lv);
    while i < n
        invariant
            n == ls@.len(),
            views(ls@) == lv,
            lv == lines(mounts@),
            slash@ == "/"@,
            i <= n,
            root_mount_line(lv) == root_mount_line(lv.skip(i as int)),
        decreases n - i,
    {
        assert(ls@[i as int]@ == lv[i as int]);
        assert(lv.skip(i as int)[0] == lv[i as int]);
        assert(lv.skip(i as int).drop_first() =~= lv.skip(i + 1));
        let ws = words_of(ls[i].as_slice());
        if ws.len() > 1 && chars_eq(ws[1].as_slice(), slash.as_slice()) {
            assert(ws@[1]@ == words(lv[i as int])[1]);
            assert(ws@[0]@ == words(lv[i as int])[0]);
            let source = ws[0].as_slice();
            let dev = chars_of("/dev/");
            let mapper = chars_of("/dev/mapper/");
            if !chars_start_with(source, dev.as_slice()) || chars_start_with(
                source,
                mapper.as_slice(),
            ) {
                return None;
            }
            let src = string_from_chars(source);
            return Some(strip_partition_suffix(src.as_str()));
        }
        i = i + 1;
    }
    assert(lv.skip(n as int) =~= Seq::<Seq<char>>::empty());
    None
}

// ───────────────────────────── preparing a rescue key ─────────────────────────────

/// Refuses devices below [`MIN_USB_SIZE`], as formatting does before it
/// touches the device.
pub fn check_usb_size(device: &UsbDevice) -> (r: Result<(), String>)
    ensures
        r is Ok <==> device.size_bytes >= MIN_USB_SIZE,
        r matches Err(e) ==> e@ == "USB device too small: "@ + device.size_human@
            + " (minimum 4 GB required)"@,
{
    if device.size_bytes < MIN_USB_SIZE {
        let mut e = chars_of("USB device too small: ");
        let h = chars_of(device.size_human.as_str());
        extend_chars(&mut e, h.as_slice());
        let tail = chars_of(" (minimum 4 GB required)");
        extend_chars(&mut e, tail.as_slice());
        return Err(string_from_chars(e.as_slice()));
    }
    Ok(())
}

/// The path of the first partition of a device: the device path and `1`.
pub fn partition_path(device_path: &str) -> (r: String)
    ensures
        r@ == device_path@ + "1"@,
{
    let mut p = chars_of(device_path);
    let one = chars_of("1");
    extend_chars(&mut p, one.as_slice());
    string_from_chars(p.as_slice())
}

/// The GRUB script on a key that sets the token: `set grubst_token="TOKEN"`.
pub fn token_cfg_content(auth_token: &str) -> (r: String)
    ensures
        r@ == "set grubst_token=\""@ + auth_token@ + "\"\n"@,
{
    let mut c = chars_of("set grubst_token=\"");
    let t = chars_of(auth_token);
    extend_chars(&mut c, t.as_slice());
    let tail = chars_of("\"\n");
    extend_chars(&mut c, tail.as_slice());
    string_from_chars(c.as_slice())
}

/// The GRUB script on a key that sets the machine fingerprint:
/// `set grubst_machine_fp_usb="FINGERPRINT"`.
pub fn machine_cfg_content(fingerprint: &str) -> (r: String)
    ensures
        r@ == "set grubst_machine_fp_usb=\""@ + fingerprint@ + "\"\n"@,
{
    let mut c = chars_of("set grubst_machine_fp_usb=\"");
    let f = chars_of(fingerprint);
    extend_chars(&mut c, f.as_slice());
    let tail = chars_of("\"\n");
    extend_chars(&mut c, tail.as_slice());
    string_from_chars(c.as_slice())
}

/// The integrity hash written to a key: over the token file's bytes followed
/// by the fingerprint file's bytes.
pub fn auth_integrity(auth_data: &[u8], fingerprint_data: &[u8]) -> (r: String)
    ensures
        r@ == integrity_hash_spec(auth_data@ + fingerprint_data@),
{
    let mut combined: Vec<u8> = Vec::new();
    combined.extend_from_slice(auth_data);
    combined.extend_from_slice(fingerprint_data);
    assert(combined@ =~= auth_data@ + fingerprint_data@);
    integrity_hash(combined.as_slice())
}

/// The UUID that `blkid -s UUID -o value` printed: its output trimmed; an
/// error when nothing is left.
pub fn parse_partition_uuid(blkid_output: &str) -> (r: Result<String, String>)
    ensures
        r is Ok <==> trim(blkid_output@).len() > 0,
        r matches Ok(u) ==> u@ == trim(blkid_output@),
        r matches Err(e) ==> e@ == "No UUID found"@,
{
    let c = chars_of(blkid_output);
    let t = trim_chars(c.as_slice());
    if t.len() == 0 {
        return Err("No UUID found".to_string());
    }
    Ok(string_from_chars(t.as_slice()))
}

} // verus!
