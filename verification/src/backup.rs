//! Backups of the GRUB configuration: their descriptions, their order, which
//! one a restore uses, and which saved files a restore copies back.
use vstd::prelude::*;
use crate::json::{json_str_at, json_str_field};
use crate::text::{chars_contain, chars_of, contains};

verus! {

broadcast use vstd::string::group_string_axioms;

/// Information about a backup.
pub struct BackupInfo {
    /// The backup's directory name, a `%Y%m%d_%H%M%S` timestamp.
    pub timestamp: String,
    /// When the backup was made, as recorded in its metadata (RFC 3339), or
    /// the timestamp when the metadata does not say.
    pub created_at: String,
    /// The backup's directory.
    pub path: String,
}

/// Describes a backup directory: `created_at` falls back to the timestamp
/// when the metadata gave none.
pub fn make_backup_info(timestamp: String, created_at: Option<String>, path: String) -> (r:
    BackupInfo)
    ensures
        r.timestamp@ == timestamp@,
        r.path@ == path@,
        r.created_at@ == (match created_at {
            Some(c) => c@,
            None => timestamp@,
        }),
{
    let created = match created_at {
        Some(c) => c,
        None => timestamp.clone(),
    };
    BackupInfo { timestamp, created_at: created, path }
}

/// Describes a backup directory from its name, the text of its
/// `metadata.json` (when there is one) and its path: `created_at` is the
/// metadata's `"created_at"` string, or the timestamp when the metadata is
/// missing, unreadable as JSON or has no such string.
pub fn backup_info_from_metadata(timestamp: String, metadata: Option<String>, path: String) -> (r:
    BackupInfo)
    ensures
        r.timestamp@ == timestamp@,
        r.path@ == path@,
        r.created_at@ == (match metadata {
            Some(m) => match json_str_at(m@, "created_at"@) {
                Some(c) => c,
                None => timestamp@,
            },
            None => timestamp@,
        }),
{
    let created_at = match &metadata {
        Some(m) => json_str_field(m.as_str(), "created_at"),
        None => None,
    };
    make_backup_info(timestamp, created_at, path)
}

// ───────────────────────────── ordering of names ─────────────────────────────

/// `a` orders before `b` as `str`/`String` order them: lexicographically by
/// code point (the byte order of their UTF-8).
pub open spec fn str_less(a: Seq<char>, b: Seq<char>) -> bool
    decreases a.len(),
{
    if a.len() == 0 {
        b.len() > 0
    } else if b.len() == 0 {
        false
    } else if a[0] != b[0] {
        (a[0] as u32) < (b[0] as u32)
    } else {
        str_less(a.drop_first(), b.drop_first())
    }
}

/// [`str_less`] is irreflexive.
pub proof fn lemma_str_less_irreflexive(a: Seq<char>)
    ensures
        !str_less(a, a),
    decreases a.len(),
{
    if a.len() > 0 {
        lemma_str_less_irreflexive(a.drop_first());
    }
}

/// [`str_less`] is asymmetric and total on distinct sequences.
pub proof fn lemma_str_less_trichotomy(a: Seq<char>, b: Seq<char>)
    ensures
        str_less(a, b) ==> !str_less(b, a),
        a != b ==> str_less(a, b) || str_less(b, a),
    decreases a.len(),
{
    if a.len() > 0 && b.len() > 0 {
        lemma_str_less_trichotomy(a.drop_first(), b.drop_first());
        vstd::utf8::char_u32_cast(a[0], a[0] as u32);
        vstd::utf8::char_u32_cast(b[0], b[0] as u32);
        if a != b && a[0] == b[0] {
            assert(a.drop_first() != b.drop_first()) by {
                if a.drop_first() == b.drop_first() {
                    assert(a =~= seq![a[0]] + a.drop_first());
                    assert(b =~= seq![b[0]] + b.drop_first());
                }
            }
        }
    } else if a.len() == 0 && b.len() == 0 {
        assert(a =~= b);
    }
}

/// [`str_less`] is transitive.
pub proof fn lemma_str_less_transitive(a: Seq<char>, b: Seq<char>, c: Seq<char>)
    ensures
        str_less(a, b) && str_less(b, c) ==> str_less(a, c),
    decreases a.len(),
{
    if a.len() > 0 && b.len() > 0 && c.len() > 0 {
        lemma_str_less_transitive(a.drop_first(), b.drop_first(), c.drop_first());
    }
}

/// [`str_less`] is a strict total order.
pub proof fn lemma_str_less_order(a: Seq<char>, b: Seq<char>, c: Seq<char>)
    ensures
        !str_less(a, a),
        str_less(a, b) ==> !str_less(b, a),
        a != b ==> str_less(a, b) || str_less(b, a),
        str_less(a, b) && str_less(b, c) ==> str_less(a, c),
{
    lemma_str_less_irreflexive(a);
    lemma_str_less_trichotomy(a, b);
    lemma_str_less_transitive(a, b, c);
}

/// Executable form of [`str_less`].
pub fn chars_less(a: &[char], b: &[char]) -> (r: bool)
    ensures
        r == str_less(a@, b@),
{
    let n = a.len();
    let m = b.len();
    let mut i: usize = 0;
    assert(a@.skip(0) =~= a@);
    assert(b@.skip(0) =~= b@);
    while i < n && i < m
        invariant
            n == a@.len(),
            m == b@.len(),
            i <= n,
            i <= m,
            str_less(a@, b@) == str_less(a@.skip(i as int), b@.skip(i as int)),
        decreases n - i,
    {
        assert(a@.skip(i as int)[0] == a@[i as int]);
        assert(b@.skip(i as int)[0] == b@[i as int]);
        if a[i] != b[i] {
            return (a[i] as u32) < (b[i] as u32);
        }
        assert(a@.skip(i as int).drop_first() =~= a@.skip(i + 1));
        assert(b@.skip(i as int).drop_first() =~= b@.skip(i + 1));
        i = i + 1;
    }
    i < m && i == n
}

// ───────────────────────────── newest first ─────────────────────────────

/// The entries of `s` whose timestamp is `t`, in order.
pub open spec fn with_timestamp(s: Seq<BackupInfo>, t: Seq<char>) -> Seq<BackupInfo>
    decreases s.len(),
{
    if s.len() == 0 {
        s
    } else if s.last().timestamp@ == t {
        with_timestamp(s.drop_last(), t).push(s.last())
    } else {
        with_timestamp(s.drop_last(), t)
    }
}

/// Timestamps never increase along `s`.
pub open spec fn newest_first(s: Seq<BackupInfo>) -> bool {
    forall|i: int, j: int|
        0 <= i < j < s.len() ==> !str_less(#[trigger] s[i].timestamp@, #[trigger] s[j].timestamp@)
}

/// `r` is `s` sorted newest first by timestamp, stably (what
/// `sort_by(|a, b| b.timestamp.cmp(&a.timestamp))` gives): the timestamps
/// never increase, and the entries that share a timestamp keep their order.
pub open spec fn is_stable_newest_first(r: Seq<BackupInfo>, s: Seq<BackupInfo>) -> bool {
    &&& newest_first(r)
    &&& forall|t: Seq<char>| #[trigger] with_timestamp(r, t) == with_timestamp(s, t)
}

proof fn lemma_with_timestamp_concat(a: Seq<BackupInfo>, b: Seq<BackupInfo>, t: Seq<char>)
    ensures
        with_timestamp(a + b, t) == with_timestamp(a, t) + with_timestamp(b, t),
    decreases b.len(),
{
    if b.len() == 0 {
        assert(a + b =~= a);
        assert(with_timestamp(a, t) + with_timestamp(b, t) =~= with_timestamp(a, t));
    } else {
        assert((a + b).drop_last() =~= a + b.drop_last());
        lemma_with_timestamp_concat(a, b.drop_last(), t);
        assert(with_timestamp(a + b, t) =~= with_timestamp(a, t) + with_timestamp(b, t));
    }
}

proof fn lemma_with_timestamp_none(s: Seq<BackupInfo>, t: Seq<char>)
    requires
        forall|i: int| 0 <= i < s.len() ==> #[trigger] s[i].timestamp@ != t,
    ensures
        with_timestamp(s, t) == Seq::<BackupInfo>::empty(),
    decreases s.len(),
{
    if s.len() > 0 {
        lemma_with_timestamp_none(s.drop_last(), t);
    }
}

proof fn lemma_with_timestamp_single(x: BackupInfo, t: Seq<char>)
    ensures
        with_timestamp(seq![x], t) == (if x.timestamp@ == t {
            seq![x]
        } else {
            Seq::<BackupInfo>::empty()
        }),
{
    assert(seq![x].drop_last() =~= Seq::<BackupInfo>::empty());
    assert(seq![x].last() == x);
    assert(with_timestamp(Seq::<BackupInfo>::empty(), t) == Seq::<BackupInfo>::empty());
    assert(Seq::<BackupInfo>::empty().push(x) =~= seq![x]);
}

/// Inserting `x` before the first entry older than it keeps the order and
/// places `x` after the entries that share its timestamp.
proof fn lemma_insert_newest_first(r: Seq<BackupInfo>, s: Seq<BackupInfo>, x: BackupInfo, j: int)
    requires
        is_stable_newest_first(r, s),
        0 <= j <= r.len(),
        forall|i: int| 0 <= i < j ==> !str_less(#[trigger] r[i].timestamp@, x.timestamp@),
        j < r.len() ==> str_less(r[j].timestamp@, x.timestamp@),
    ensures
        is_stable_newest_first(r.insert(j, x), s.push(x)),
{
    let r2 = r.insert(j, x);
    assert(r2 =~= r.take(j) + seq![x] + r.skip(j));
    assert(r =~= r.take(j) + r.skip(j));
    assert forall|a: int, b: int| 0 <= a < b < r2.len() implies !str_less(
        #[trigger] r2[a].timestamp@,
        #[trigger] r2[b].timestamp@,
    ) by {
        if a < j && b < j {
            assert(r2[a] == r[a] && r2[b] == r[b]);
        } else if a < j && b == j {
            assert(r2[a] == r[a]);
        } else if a < j {
            assert(r2[a] == r[a] && r2[b] == r[b - 1]);
        } else if a == j {
            assert(r2[b] == r[b - 1]);
            let y = r[b - 1].timestamp@;
            let z = r[j].timestamp@;
            lemma_str_less_order(y, z, x.timestamp@);
            lemma_str_less_order(z, y, x.timestamp@);
            lemma_str_less_order(y, x.timestamp@, z);
            if b - 1 > j {
                assert(!str_less(z, y));
            }
        } else {
            assert(r2[a] == r[a - 1] && r2[b] == r[b - 1]);
        }
    }
    assert forall|t: Seq<char>| #[trigger] with_timestamp(r2, t) == with_timestamp(
        s.push(x),
        t,
    ) by {
        lemma_with_timestamp_concat(r.take(j) + seq![x], r.skip(j), t);
        lemma_with_timestamp_concat(r.take(j), seq![x], t);
        lemma_with_timestamp_concat(r.take(j), r.skip(j), t);
        lemma_with_timestamp_single(x, t);
        assert(s.push(x).drop_last() =~= s);
        assert(with_timestamp(r, t) == with_timestamp(s, t));
        if x.timestamp@ == t {
            assert forall|i: int| 0 <= i < r.skip(j).len() implies #[trigger] r.skip(
                j,
            )[i].timestamp@ != t by {
                assert(r.skip(j)[i] == r[j + i]);
                let w = r[j + i].timestamp@;
                let z = r[j].timestamp@;
                lemma_str_less_order(w, z, t);
                lemma_str_less_order(z, w, t);
                if i > 0 {
                    assert(!str_less(z, w));
                }
            }
            lemma_with_timestamp_none(r.skip(j), t);
            assert(with_timestamp(r2, t) =~= with_timestamp(s.push(x), t));
        } else {
            assert(with_timestamp(r2, t) =~= with_timestamp(s.push(x), t));
        }
    }
}

/// Sorts backups newest first by timestamp, keeping the order of backups
/// that share a timestamp.
pub fn sort_backups_newest_first(backups: Vec<BackupInfo>) -> (r: Vec<BackupInfo>)
    ensures
        is_stable_newest_first(r@, backups@),
{
    let ghost input = backups@;
    let mut out: Vec<BackupInfo> = Vec::new();
    let ghost mut done: Seq<BackupInfo> = Seq::empty();
    assert forall|t: Seq<char>| #[trigger] with_timestamp(out@, t) == with_timestamp(done, t) by {}
    for x in it: backups
        invariant
            it.seq() == input,
            done == input.take(it.index() as int),
            is_stable_newest_first(out@, done),
    {
        let xs = chars_of(x.timestamp.as_str());
        let n = out.len();
        let mut j: usize = 0;
        while j < n && !chars_less(chars_of(out[j].timestamp.as_str()).as_slice(), xs.as_slice())
            invariant
                n == out@.len(),
                j <= n,
                xs@ == x.timestamp@,
                forall|i: int| 0 <= i < j ==> !str_less(#[trigger] out@[i].timestamp@, x.timestamp@),
            decreases n - j,
        {
            j = j + 1;
        }
        proof {
            lemma_insert_newest_first(out@, done, x, j as int);
            assert(input.take(it.index() + 1) =~= done.push(x));
            done = done.push(x);
        }
        out.insert(j, x);
    }
    assert(input.take(input.len() as int) =~= input);
    out
}

// ───────────────────────────── restoring ─────────────────────────────

/// The index of the backup that a restore uses: the greatest name (the
/// newest timestamp); `None` when there is no backup.
pub fn latest_backup_index(names: &Vec<String>) -> (r: Option<usize>)
    ensures
        r is None <==> names@.len() == 0,
        r matches Some(i) ==> i < names@.len() && forall|j: int|
            0 <= j < names@.len() ==> !str_less(names@[i as int]@, #[trigger] names@[j]@),
{
    if names.len() == 0 {
        return None;
    }
    let mut best: usize = 0;
    let mut best_chars = chars_of(names[0].as_str());
    let n = names.len();
    let mut i: usize = 1;
    proof {
        lemma_str_less_irreflexive(names@[0]@);
    }
    while i < n
        invariant
            n == names@.len(),
            1 <= i <= n,
            best < n,
            best_chars@ == names@[best as int]@,
            forall|j: int| 0 <= j < i ==> !str_less(names@[best as int]@, #[trigger] names@[j]@),
        decreases n - i,
    {
        let c = chars_of(names[i].as_str());
        if chars_less(best_chars.as_slice(), c.as_slice()) {
            proof {
                assert forall|j: int| 0 <= j < i implies !str_less(
                    names@[i as int]@,
                    #[trigger] names@[j]@,
                ) by {
                    lemma_str_less_order(names@[best as int]@, names@[i as int]@, names@[j]@);
                    lemma_str_less_order(names@[i as int]@, names@[best as int]@, names@[j]@);
                    lemma_str_less_order(names@[j]@, names@[best as int]@, names@[i as int]@);
                    lemma_str_less_order(names@[i as int]@, names@[j]@, names@[best as int]@);
                }
                lemma_str_less_order(names@[i as int]@, names@[i as int]@, names@[i as int]@);
            }
            best = i;
            best_chars = c;
        }
        i = i + 1;
    }
    Some(best)
}

/// Whether a restore copies a saved `/etc/grub.d` file back: every file but
/// the tool's own scripts (those whose name contains `grubst`).
pub fn should_restore_grub_d_file(filename: &str) -> (r: bool)
    ensures
        r == !contains(filename@, "grubst"@),
{
    let f = chars_of(filename);
    let g = chars_of("grubst");
    !chars_contain(f.as_slice(), g.as_slice())
}

} // verus!
