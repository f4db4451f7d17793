//! Machine fingerprints that bind a USB rescue key to one machine.
//!
//! The hardware identifiers are read by the caller and handed over as a
//! [`FingerprintSources`]; the fingerprint is computed from them here.
use vstd::prelude::*;
use vstd::utf8::encode_utf8;
use crate::crypto::{sha512, sha512_hex};
use crate::hexcodec::hex_lower;
use crate::text::{
    chars_contain, chars_eq, chars_of, chars_start_with, contains, extend_chars, join,
    join_chars, lines, lines_of, starts_with, string_from_chars, string_views, trim, trim_chars, views,
};

verus! {

broadcast use vstd::string::group_string_axioms;

/// The hardware identifiers of a machine, as read from the system.
pub struct FingerprintSources {
    /// Contents of `/etc/machine-id`, when readable.
    pub machine_id: Option<String>,
    /// Contents of `/sys/class/dmi/id/product_uuid`, when readable.
    pub product_uuid: Option<String>,
    /// Contents of `/sys/class/dmi/id/board_serial`, when readable.
    pub board_serial: Option<String>,
    /// Contents of `/sys/class/dmi/id/product_serial`, when readable.
    pub product_serial: Option<String>,
    /// Contents of `/proc/cpuinfo`, when readable.
    pub cpuinfo: Option<String>,
    /// Entry names of `/dev/disk/by-id/`, in the order the directory lists
    /// them (empty when the directory cannot be read).
    pub disk_ids: Vec<String>,
}

/// `label` followed by the trimmed value, when there is a value.
pub open spec fn labelled(label: Seq<char>, value: Option<String>) -> Seq<Seq<char>> {
    match value {
        Some(v) => seq![label + trim(v@)],
        None => Seq::empty(),
    }
}

/// The first line that starts with `model name`.
pub open spec fn first_model_line(ls: Seq<Seq<char>>) -> Option<Seq<char>>
    decreases ls.len(),
{
    if ls.len() == 0 {
        None
    } else if starts_with(ls[0], "model name"@) {
        Some(ls[0])
    } else {
        first_model_line(ls.drop_first())
    }
}

/// The CPU component: `cpu:` and the trimmed first `model name` line.
pub open spec fn cpu_component(cpuinfo: Option<String>) -> Seq<Seq<char>> {
    match cpuinfo {
        Some(c) => match first_model_line(lines(c@)) {
            Some(l) => seq!["cpu:"@ + trim(l)],
            None => Seq::empty(),
        },
        None => Seq::empty(),
    }
}

/// Whether a `/dev/disk/by-id/` name denotes a whole ATA or NVMe disk.
pub open spec fn is_boot_disk_id(name: Seq<char>) -> bool {
    (starts_with(name, "ata-"@) || starts_with(name, "nvme-"@)) && !contains(name, "-part"@)
}

/// The first whole-disk name.
pub open spec fn first_disk(names: Seq<Seq<char>>) -> Option<Seq<char>>
    decreases names.len(),
{
    if names.len() == 0 {
        None
    } else if is_boot_disk_id(names[0]) {
        Some(names[0])
    } else {
        first_disk(names.drop_first())
    }
}

/// The disk component: `disk:` and the first whole-disk name.
pub open spec fn disk_component(names: Seq<Seq<char>>) -> Seq<Seq<char>> {
    match first_disk(names) {
        Some(n) => seq!["disk:"@ + n],
        None => Seq::empty(),
    }
}

/// The components that make up a fingerprint, in order; a fixed fallback
/// when no identifier is available.
pub open spec fn fingerprint_components(src: FingerprintSources) -> Seq<Seq<char>> {
    let c = labelled("machine_id:"@, src.machine_id) + labelled("product_uuid:"@, src.product_uuid)
        + labelled("board_serial:"@, src.board_serial) + labelled(
        "product_serial:"@,
        src.product_serial,
    ) + cpu_component(src.cpuinfo) + disk_component(string_views(src.disk_ids@));
    if c.len() == 0 {
        seq!["fallback:unknown_machine"@]
    } else {
        c
    }
}

/// Each identifier that was read appears, trimmed and labelled, among the
/// fingerprint's components, in the order machine id, product UUID, board
/// serial, product serial: its position is the number of identifiers before
/// it that were read.
pub proof fn lemma_identifier_components(src: FingerprintSources)
    ensures
        ({
            let comps = fingerprint_components(src);
            let m: int = if src.machine_id is Some { 1 } else { 0 };
            let u: int = if src.product_uuid is Some { 1 } else { 0 };
            let b: int = if src.board_serial is Some { 1 } else { 0 };
            let p: int = if src.product_serial is Some { 1 } else { 0 };
            &&& comps.len() >= m + u + b + p
            &&& src.machine_id matches Some(v) ==> comps[0] == "machine_id:"@ + trim(v@)
            &&& src.product_uuid matches Some(v) ==> comps[m] == "product_uuid:"@ + trim(v@)
            &&& src.board_serial matches Some(v) ==> comps[m + u] == "board_serial:"@ + trim(v@)
            &&& src.product_serial matches Some(v) ==> comps[m + u + b] == "product_serial:"@
                + trim(v@)
        }),
{
    let l1 = labelled("machine_id:"@, src.machine_id);
    let l2 = labelled("product_uuid:"@, src.product_uuid);
    let l3 = labelled("board_serial:"@, src.board_serial);
    let l4 = labelled("product_serial:"@, src.product_serial);
    let rest = cpu_component(src.cpuinfo) + disk_component(string_views(src.disk_ids@));
    let c = l1 + l2 + l3 + l4 + rest;
    assert(l1.len() == if src.machine_id is Some { 1int } else { 0int });
    assert(l2.len() == if src.product_uuid is Some { 1int } else { 0int });
    assert(l3.len() == if src.board_serial is Some { 1int } else { 0int });
    assert(l4.len() == if src.product_serial is Some { 1int } else { 0int });
    if c.len() > 0 {
        assert(fingerprint_components(src) == c);
        if src.machine_id is Some {
            assert(c[0] == l1[0]);
        }
        if src.product_uuid is Some {
            assert(c[l1.len() as int] == l2[0]);
        }
        if src.board_serial is Some {
            assert(c[(l1.len() + l2.len()) as int] == l3[0]);
        }
        if src.product_serial is Some {
            assert(c[(l1.len() + l2.len() + l3.len()) as int] == l4[0]);
        }
    }
}

proof fn lemma_first_model_line_at(ls: Seq<Seq<char>>, j: int)
    requires
        0 <= j < ls.len(),
        starts_with(ls[j], "model name"@),
        forall|k: int| 0 <= k < j ==> !starts_with(#[trigger] ls[k], "model name"@),
    ensures
        first_model_line(ls) == Some(ls[j]),
    decreases j,
{
    if j > 0 {
        assert forall|k: int| 0 <= k < j - 1 implies !starts_with(
            #[trigger] ls.drop_first()[k],
            "model name"@,
        ) by {
            assert(ls.drop_first()[k] == ls[k + 1]);
        }
        assert(!starts_with(ls[0], "model name"@));
        lemma_first_model_line_at(ls.drop_first(), j - 1);
    }
}

proof fn lemma_first_disk_at(names: Seq<Seq<char>>, j: int)
    requires
        0 <= j < names.len(),
        is_boot_disk_id(names[j]),
        forall|k: int| 0 <= k < j ==> !is_boot_disk_id(#[trigger] names[k]),
    ensures
        first_disk(names) == Some(names[j]),
    decreases j,
{
    if j > 0 {
        assert forall|k: int| 0 <= k < j - 1 implies !is_boot_disk_id(
            #[trigger] names.drop_first()[k],
        ) by {
            assert(names.drop_first()[k] == names[k + 1]);
        }
        assert(!is_boot_disk_id(names[0]));
        lemma_first_disk_at(names.drop_first(), j - 1);
    }
}

/// The CPU and disk identifiers: the first `/proc/cpuinfo` line that starts
/// with `model name` gives the component `cpu:` and that line trimmed, right
/// after the labelled identifiers; the first `/dev/disk/by-id/` name of an
/// `ata-` or `nvme-` disk that is not a partition gives the last component,
/// `disk:` and that name. With no identifier at all the only component is
/// `fallback:unknown_machine`.
pub proof fn lemma_cpu_and_disk_components(src: FingerprintSources, cj: int, dj: int)
    ensures
        ({
            let comps = fingerprint_components(src);
            let n: int = (if src.machine_id is Some { 1int } else { 0int }) + (
            if src.product_uuid is Some { 1int } else { 0int }) + (if src.board_serial is Some {
                1int
            } else {
                0int
            }) + (if src.product_serial is Some { 1int } else { 0int });
            &&& (src.cpuinfo matches Some(c) && 0 <= cj < lines(c@).len() && starts_with(
                lines(c@)[cj],
                "model name"@,
            ) && forall|k: int| 0 <= k < cj ==> !starts_with(#[trigger] lines(c@)[k], "model name"@))
                ==> comps.len() > n && comps[n] == "cpu:"@ + trim(lines(src.cpuinfo.unwrap()@)[cj])
            &&& (0 <= dj < src.disk_ids@.len() && (starts_with(src.disk_ids@[dj]@, "ata-"@)
                || starts_with(src.disk_ids@[dj]@, "nvme-"@)) && !contains(
                src.disk_ids@[dj]@,
                "-part"@,
            ) && forall|k: int|
                0 <= k < dj ==> !((starts_with(#[trigger] src.disk_ids@[k]@, "ata-"@)
                    || starts_with(src.disk_ids@[k]@, "nvme-"@)) && !contains(
                    src.disk_ids@[k]@,
                    "-part"@,
                ))) ==> comps.last() == "disk:"@ + src.disk_ids@[dj]@
            &&& (src.machine_id is None && src.product_uuid is None && src.board_serial is None
                && src.product_serial is None && src.cpuinfo is None && src.disk_ids@.len() == 0)
                ==> comps == seq!["fallback:unknown_machine"@]
        }),
{
    let l = labelled("machine_id:"@, src.machine_id) + labelled("product_uuid:"@, src.product_uuid)
        + labelled("board_serial:"@, src.board_serial) + labelled(
        "product_serial:"@,
        src.product_serial,
    );
    let cpu = cpu_component(src.cpuinfo);
    let names = string_views(src.disk_ids@);
    let disk = disk_component(names);
    let c = l + cpu + disk;
    assert(l + cpu + disk == c);
    lemma_identifier_components(src);
    match src.cpuinfo {
        Some(ci) => {
            if 0 <= cj < lines(ci@).len() && starts_with(lines(ci@)[cj], "model name"@) && (forall|k: int|
                0 <= k < cj ==> !starts_with(#[trigger] lines(ci@)[k], "model name"@)) {
                lemma_first_model_line_at(lines(ci@), cj);
                assert(cpu == seq!["cpu:"@ + trim(lines(ci@)[cj])]);
                assert(c[l.len() as int] == cpu[0]);
            }
        },
        None => {},
    }
    if 0 <= dj < src.disk_ids@.len() && is_boot_disk_id(names[dj]) && (forall|k: int|
        0 <= k < dj ==> !is_boot_disk_id(#[trigger] names[k])) {
        lemma_first_disk_at(names, dj);
        assert(disk == seq!["disk:"@ + names[dj]]);
        assert(c.last() == disk[0]);
    }
    if src.disk_ids@.len() == 0 {
        assert(names.len() == 0);
    }
}

/// The fingerprint: lower-case hexadecimal SHA-512 of `GRUBST_FINGERPRINT_V1::`
/// followed by the components joined with `|`.
pub open spec fn fingerprint_spec(src: FingerprintSources) -> Seq<char> {
    hex_lower(
        sha512(
            encode_utf8("GRUBST_FINGERPRINT_V1::"@) + encode_utf8(
                join(fingerprint_components(src), "|"@),
            ),
        ),
    )
}

fn push_labelled(comps: &mut Vec<Vec<char>>, label: &str, value: &Option<String>)
    ensures
        views(final(comps)@) == views(old(comps)@) + labelled(label@, *value),
{
    match value {
        Some(v) => {
            let mut c = chars_of(label);
            let vc = chars_of(v.as_str());
            let t = trim_chars(vc.as_slice());
            extend_chars(&mut c, t.as_slice());
            let ghost before = comps@;
            comps.push(c);
            assert(views(comps@) =~= views(before) + labelled(label@, *value));
        },
        None => {
            assert(views(comps@) =~= views(comps@) + labelled(label@, *value));
        },
    }
}

fn push_cpu(comps: &mut Vec<Vec<char>>, cpuinfo: &Option<String>)
    ensures
        views(final(comps)@) == views(old(comps)@) + cpu_component(*cpuinfo),
{
    match cpuinfo {
        Some(text) => {
            let tc = chars_of(text.as_str());
            let ls = lines_of(tc.as_slice());
            let ghost lv = lines(text@);
            let model = chars_of("model name");
            let n = ls.len();
            let mut i: usize = 0;
            assert(lv.skip(0) =~= lv);
            while i < n
                invariant
                    n == ls@.len(),
                    views(ls@) == lv,
                    model@ == "model name"@,
                    cpu_component(*cpuinfo) == (match first_model_line(lv) {
                        Some(l) => seq!["cpu:"@ + trim(l)],
                        None => Seq::empty(),
                    }),
                    i <= n,
                    first_model_line(lv) == first_model_line(lv.skip(i as int)),
                    comps@ == old(comps)@,
                decreases n - i,
            {
                assert(ls@[i as int]@ == lv[i as int]);
                assert(lv.skip(i as int)[0] == lv[i as int]);
                if chars_start_with(ls[i].as_slice(), model.as_slice()) {
                    let mut c = chars_of("cpu:");
                    let t = trim_chars(ls[i].as_slice());
                    extend_chars(&mut c, t.as_slice());
                    assert(first_model_line(lv) == Some(lv[i as int]));
                    assert(c@ == "cpu:"@ + trim(lv[i as int]));
                    let ghost before = comps@;
                    comps.push(c);
                    assert(views(comps@) =~= views(before) + cpu_component(*cpuinfo));
                    return;
                }
                assert(lv.skip(i as int).drop_first() =~= lv.skip(i + 1));
                i = i + 1;
            }
            assert(lv.skip(n as int) =~= Seq::<Seq<char>>::empty());
            assert(views(comps@) =~= views(comps@) + cpu_component(*cpuinfo));
        },
        None => {
            assert(views(comps@) =~= views(comps@) + cpu_component(*cpuinfo));
        },
    }
}

fn push_disk(comps: &mut Vec<Vec<char>>, names: &Vec<String>)
    ensures
        views(final(comps)@) == views(old(comps)@) + disk_component(string_views(names@)),
{
    let ghost nv = string_views(names@);
    let ata = chars_of("ata-");
    let nvme = chars_of("nvme-");
    let part = chars_of("-part");
    let n = names.len();
    let mut i: usize = 0;
    assert(nv.skip(0) =~= nv);
    while i < n
        invariant
            n == names@.len(),
            nv == string_views(names@),
            ata@ == "ata-"@,
            nvme@ == "nvme-"@,
            part@ == "-part"@,
            i <= n,
            first_disk(nv) == first_disk(nv.skip(i as int)),
            comps@ == old(comps)@,
        decreases n - i,
    {
        let name = chars_of(names[i].as_str());
        assert(name@ == nv[i as int]);
        assert(nv.skip(i as int)[0] == nv[i as int]);
        if (chars_start_with(name.as_slice(), ata.as_slice()) || chars_start_with(
            name.as_slice(),
            nvme.as_slice(),
        )) && !chars_contain(name.as_slice(), part.as_slice()) {
            let mut c = chars_of("disk:");
            extend_chars(&mut c, name.as_slice());
            let ghost before = comps@;
            comps.push(c);
            assert(views(comps@) =~= views(before) + disk_component(nv));
            return;
        }
        assert(nv.skip(i as int).drop_first() =~= nv.skip(i + 1));
        i = i + 1;
    }
    assert(nv.skip(n as int) =~= Seq::<Seq<char>>::empty());
    assert(views(comps@) =~= views(comps@) + disk_component(nv));
}

/// Generates the machine fingerprint from the machine's hardware identifiers.
pub fn generate_fingerprint(sources: &FingerprintSources) -> (r: String)
    ensures
        r@ == fingerprint_spec(*sources),
        r@.len() == 128,
{
    let mut comps: Vec<Vec<char>> = Vec::new();
    assert(views(comps@) =~= Seq::<Seq<char>>::empty());
    push_labelled(&mut comps, "machine_id:", &sources.machine_id);
    push_labelled(&mut comps, "product_uuid:", &sources.product_uuid);
    push_labelled(&mut comps, "board_serial:", &sources.board_serial);
    push_labelled(&mut comps, "product_serial:", &sources.product_serial);
    push_cpu(&mut comps, &sources.cpuinfo);
    push_disk(&mut comps, &sources.disk_ids);
    if comps.len() == 0 {
        comps.push(chars_of("fallback:unknown_machine"));
    }
    assert(views(comps@) =~= fingerprint_components(*sources));
    let sep = chars_of("|");
    let combined = join_chars(&comps, sep.as_slice());
    let combined_str = string_from_chars(combined.as_slice());
    let mut data: Vec<u8> = Vec::new();
    data.extend_from_slice("GRUBST_FINGERPRINT_V1::".as_bytes());
    data.extend_from_slice(combined_str.as_str().as_bytes());
    assert(data@ =~= encode_utf8("GRUBST_FINGERPRINT_V1::"@) + encode_utf8(
        join(fingerprint_components(*sources), "|"@),
    ));
    sha512_hex(data.as_slice())
}

/// Whether a stored fingerprint matches the machine described by `sources`.
pub fn verify_fingerprint(sources: &FingerprintSources, stored: &str) -> (r: bool)
    ensures
        r == (fingerprint_spec(*sources) == stored@),
{
    let current = generate_fingerprint(sources);
    let a = chars_of(current.as_str());
    let b = chars_of(stored);
    chars_eq(a.as_slice(), b.as_slice())
}

} // verus!
