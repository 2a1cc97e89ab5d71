//! The mount table: the filesystems `/proc/mounts` lists, with pseudo-filesystems
//! left out and the octal escapes of mount paths decoded, and the capacity
//! arithmetic on `statvfs` counts.

use vstd::prelude::*;
use crate::text::{chars_of, eq_str, lines, words, split_lines, split_words, string_of, view_all, texts, concat4, copy_string};
use crate::order::{TotalOrder, sort_by_order, sorted_by_order, lex_le, lemma_lex_total, lemma_lex_le_trans, compare_bytes_sign};
use vstd::string::StringSliceAdditionalSpecFns;

verus! {

/// The filesystem types that are kernel interfaces rather than storage.
pub open spec fn is_noise(t: Seq<char>) -> bool {
    ||| t == "autofs"@
    ||| t == "binfmt_misc"@
    ||| t == "cgroup"@
    ||| t == "cgroup2"@
    ||| t == "configfs"@
    ||| t == "debugfs"@
    ||| t == "devpts"@
    ||| t == "devtmpfs"@
    ||| t == "fusectl"@
    ||| t == "hugetlbfs"@
    ||| t == "mqueue"@
    ||| t == "proc"@
    ||| t == "pstore"@
    ||| t == "securityfs"@
    ||| t == "sysfs"@
    ||| t == "tracefs"@
}

fn is_noise_chars(t: &[char]) -> (r: bool)
    ensures
        r == is_noise(t@),
{
    eq_str(t, "autofs") || eq_str(t, "binfmt_misc") || eq_str(t, "cgroup") || eq_str(t, "cgroup2")
        || eq_str(t, "configfs") || eq_str(t, "debugfs") || eq_str(t, "devpts") || eq_str(t, "devtmpfs")
        || eq_str(t, "fusectl") || eq_str(t, "hugetlbfs") || eq_str(t, "mqueue") || eq_str(t, "proc")
        || eq_str(t, "pstore") || eq_str(t, "securityfs") || eq_str(t, "sysfs") || eq_str(t, "tracefs")
}

/// The pseudo-filesystem types that filesystem listings leave out are exactly
/// those the documentation names: autofs, binfmt_misc, cgroup, cgroup2,
/// configfs, debugfs, devpts, devtmpfs, fusectl, hugetlbfs, mqueue, proc,
/// pstore, securityfs, sysfs and tracefs.
pub proof fn law_noise_is_the_documented_set(t: Seq<char>)
    ensures
        is_noise(t) <==> (t == "autofs"@ || t == "binfmt_misc"@ || t == "cgroup"@ || t == "cgroup2"@
            || t == "configfs"@ || t == "debugfs"@ || t == "devpts"@ || t == "devtmpfs"@ || t == "fusectl"@
            || t == "hugetlbfs"@ || t == "mqueue"@ || t == "proc"@ || t == "pstore"@ || t == "securityfs"@
            || t == "sysfs"@ || t == "tracefs"@),
{
}

/// A mount line of a documented pseudo-filesystem type lists no mount; a line
/// with at least three fields of any other type lists its mount.
pub proof fn law_pseudo_mounts_left_out(line: Seq<char>)
    requires
        words(line).len() >= 3,
    ensures
        mount_of_line(line) is None <==> (words(line)[2] == "autofs"@ || words(line)[2] == "binfmt_misc"@
            || words(line)[2] == "cgroup"@ || words(line)[2] == "cgroup2"@ || words(line)[2] == "configfs"@
            || words(line)[2] == "debugfs"@ || words(line)[2] == "devpts"@ || words(line)[2] == "devtmpfs"@
            || words(line)[2] == "fusectl"@ || words(line)[2] == "hugetlbfs"@ || words(line)[2] == "mqueue"@
            || words(line)[2] == "proc"@ || words(line)[2] == "pstore"@ || words(line)[2] == "securityfs"@
            || words(line)[2] == "sysfs"@ || words(line)[2] == "tracefs"@),
{
    law_noise_is_the_documented_set(words(line)[2]);
}

/// Whether a filesystem type is a pseudo-filesystem that listings leave out.
pub fn is_noise_filesystem(fstype: &str) -> (r: bool)
    ensures
        r == is_noise(fstype@),
{
    let t = chars_of(fstype);
    is_noise_chars(t.as_slice())
}

/// `s` with every non-overlapping occurrence of `pat`, left to right, replaced by
/// `rep` (std's `str::replace`; an empty pattern leaves `s` as it is here).
pub open spec fn replace_all(s: Seq<char>, pat: Seq<char>, rep: Seq<char>) -> Seq<char>
    decreases s.len(),
{
    if pat.len() == 0 || s.len() == 0 {
        s
    } else if pat.len() <= s.len() && s.take(pat.len() as int) == pat {
        rep + replace_all(s.skip(pat.len() as int), pat, rep)
    } else {
        seq![s[0]] + replace_all(s.skip(1), pat, rep)
    }
}

/// Whether `pat` occurs in `s` at `i`.
fn occurs_at(s: &[char], i: usize, pat: &[char]) -> (r: bool)
    requires
        i <= s.len(),
    ensures
        r == (pat@.len() <= s@.len() - i && s@.skip(i as int).take(pat@.len() as int) == pat@),
{
    if pat.len() > s.len() - i {
        return false;
    }
    let mut k: usize = 0;
    while k < pat.len()
        invariant
            k <= pat.len() <= s.len() - i,
            forall|j: int| 0 <= j < k ==> s@[i + j] == pat@[j],
        decreases pat.len() - k,
    {
        if s[i + k] != pat[k] {
            assert(s@.skip(i as int).take(pat@.len() as int)[k as int] != pat@[k as int]);
            return false;
        }
        k += 1;
    }
    assert(s@.skip(i as int).take(pat@.len() as int) =~= pat@);
    true
}

/// `str::replace` on a character sequence.
pub fn replace_chars(s: &[char], pat: &str, rep: &str) -> (r: Vec<char>)
    ensures
        r@ == replace_all(s@, pat@, rep@),
{
    let p = chars_of(pat);
    let q = chars_of(rep);
    let mut out: Vec<char> = Vec::new();
    if p.len() == 0 {
        let mut k: usize = 0;
        while k < s.len()
            invariant
                k <= s.len(),
                out@ == s@.take(k as int),
            decreases s.len() - k,
        {
            out.push(s[k]);
            k += 1;
            assert(out@ =~= s@.take(k as int));
        }
        assert(s@.take(k as int) =~= s@);
        return out;
    }
    let mut i: usize = 0;
    assert(s@.skip(0) =~= s@);
    assert(out@ + replace_all(s@, pat@, rep@) =~= replace_all(s@, pat@, rep@));
    while i < s.len()
        invariant
            i <= s.len(),
            p@ == pat@,
            q@ == rep@,
            p@.len() > 0,
            out@ + replace_all(s@.skip(i as int), pat@, rep@) == replace_all(s@, pat@, rep@),
        decreases s.len() - i,
    {
        let ghost rest = s@.skip(i as int);
        if occurs_at(s, i, p.as_slice()) {
            let ghost before = out@;
            let mut k: usize = 0;
            while k < q.len()
                invariant
                    k <= q.len(),
                    out@ == before + q@.take(k as int),
                decreases q.len() - k,
            {
                out.push(q[k]);
                k += 1;
                assert(q@.take(k as int) =~= q@.take(k - 1).push(q@[k - 1]));
            }
            assert(q@.take(k as int) =~= q@);
            assert(rest.skip(p@.len() as int) =~= s@.skip(i + p.len()));
            assert(before + (rep@ + replace_all(s@.skip(i + p.len()), pat@, rep@)) =~= out@ + replace_all(
                s@.skip(i + p.len()),
                pat@,
                rep@,
            ));
            i = i + p.len();
        } else {
            let ghost before = out@;
            out.push(s[i]);
            assert(rest.skip(1) =~= s@.skip(i + 1));
            assert(before + (seq![rest[0]] + replace_all(rest.skip(1), pat@, rep@)) =~= out@ + replace_all(
                s@.skip(i + 1),
                pat@,
                rep@,
            ));
            i = i + 1;
        }
    }
    assert(s@.skip(i as int) =~= Seq::<char>::empty());
    assert(out@ + Seq::<char>::empty() =~= out@);
    out
}

/// The octal escapes the kernel writes into mount paths, decoded in this order:
/// space, tab, newline, backslash.
pub open spec fn unescape_mount(s: Seq<char>) -> Seq<char> {
    replace_all(
        replace_all(replace_all(replace_all(s, "\\040"@, " "@), "\\011"@, "\t"@), "\\012"@, "\n"@),
        "\\134"@,
        "\\"@,
    )
}

/// The octal escape `\ooo` with the digits `a`, `b`, `c`.
pub open spec fn octal_escape(a: char, b: char, c: char) -> Seq<char> {
    seq!['\\', a, b, c]
}

/// How a character of a mount field reads after the first `k` decoding passes
/// of [`unescape_mount`] (space, tab, newline, backslash): escaped as the
/// kernel writes it until its own pass has run.
pub open spec fn escaped_char(c: char, k: int) -> Seq<char> {
    if c == ' ' && k < 1 {
        octal_escape('0', '4', '0')
    } else if c == '\t' && k < 2 {
        octal_escape('0', '1', '1')
    } else if c == '\n' && k < 3 {
        octal_escape('0', '1', '2')
    } else if c == '\\' && k < 4 {
        octal_escape('1', '3', '4')
    } else {
        seq![c]
    }
}

/// A text after the first `k` decoding passes, each character escaped as
/// [`escaped_char`] says.
pub open spec fn escaped_after(s: Seq<char>, k: int) -> Seq<char>
    decreases s.len(),
{
    if s.len() == 0 {
        s
    } else {
        escaped_char(s[0], k) + escaped_after(s.skip(1), k)
    }
}

/// A text as the kernel writes it into `/proc/mounts`: each space, tab, newline
/// and backslash as its three-digit octal escape.
pub open spec fn mount_escaped(s: Seq<char>) -> Seq<char> {
    escaped_after(s, 0)
}

/// The pattern and replacement of decoding pass `k`.
spec fn pass_pat(k: int) -> Seq<char> {
    if k == 0 {
        octal_escape('0', '4', '0')
    } else if k == 1 {
        octal_escape('0', '1', '1')
    } else if k == 2 {
        octal_escape('0', '1', '2')
    } else {
        octal_escape('1', '3', '4')
    }
}

spec fn pass_rep(k: int) -> Seq<char> {
    if k == 0 {
        seq![' ']
    } else if k == 1 {
        seq!['\t']
    } else if k == 2 {
        seq!['\n']
    } else {
        seq!['\\']
    }
}

/// A text without a backslash is left as it is before the rest is replaced.
proof fn lemma_replace_plain_prefix(a: Seq<char>, b: Seq<char>, k: int)
    requires
        forall|i: int| 0 <= i < a.len() ==> a[i] != '\\',
    ensures
        replace_all(a + b, pass_pat(k), pass_rep(k)) == a + replace_all(b, pass_pat(k), pass_rep(k)),
    decreases a.len(),
{
    let pat = pass_pat(k);
    let rep = pass_rep(k);
    if a.len() > 0 {
        let t = a + b;
        assert(t[0] == a[0]);
        assert(pat.len() == 4 && pat[0] == '\\');
        if pat.len() <= t.len() {
            assert(t.take(pat.len() as int)[0] == t[0]);
        }
        assert(t.skip(1) =~= a.skip(1) + b);
        lemma_replace_plain_prefix(a.skip(1), b, k);
        assert(seq![a[0]] + (a.skip(1) + replace_all(b, pat, rep)) =~= a + replace_all(b, pat, rep));
    } else {
        assert(a + b =~= b);
        assert(a + replace_all(b, pat, rep) =~= replace_all(b, pat, rep));
    }
}

/// Decoding pass `k` turns the text escaped up to pass `k` into the text escaped
/// up to pass `k + 1`.
proof fn lemma_decoding_pass(s: Seq<char>, k: int)
    requires
        0 <= k < 4,
    ensures
        replace_all(escaped_after(s, k), pass_pat(k), pass_rep(k)) == escaped_after(s, k + 1),
    decreases s.len(),
{
    let pat = pass_pat(k);
    let rep = pass_rep(k);
    if s.len() > 0 {
        let c = s[0];
        let e = escaped_char(c, k);
        let rest = escaped_after(s.skip(1), k);
        let t = e + rest;
        assert(escaped_after(s, k) == t);
        lemma_decoding_pass(s.skip(1), k);
        if e.len() == 4 {
            if e == pat {
                assert(t.take(4) =~= e);
                assert(t.skip(4) =~= rest);
                assert(escaped_char(c, k + 1) == rep);
            } else {
                assert(t.take(4) =~= e);
                assert(t.take(pat.len() as int) != pat);
                assert(t[0] == '\\');
                let d = e.skip(1);
                assert(t.skip(1) =~= d + rest);
                lemma_replace_plain_prefix(d, rest, k);
                assert(escaped_char(c, k + 1) == e);
                assert(seq![t[0]] + (d + replace_all(rest, pat, rep)) =~= e + replace_all(rest, pat, rep));
            }
        } else {
            assert(e == seq![c] && c != '\\');
            lemma_replace_plain_prefix(e, rest, k);
            assert(escaped_char(c, k + 1) == e);
        }
    }
}

/// A text after all four passes is the text itself.
proof fn lemma_escaped_after_all(s: Seq<char>)
    ensures
        escaped_after(s, 4) == s,
    decreases s.len(),
{
    if s.len() > 0 {
        lemma_escaped_after_all(s.skip(1));
        assert(seq![s[0]] + s.skip(1) =~= s);
    }
}

/// Decoding undoes the kernel's escaping: for every text `s`, decoding the
/// field the kernel writes for `s` gives `s` back (a decoded backslash is never
/// decoded a second time).
pub proof fn law_unescape_undoes_escape(s: Seq<char>)
    ensures
        unescape_mount(mount_escaped(s)) == s,
{
    reveal_strlit("\\040");
    reveal_strlit("\\011");
    reveal_strlit("\\012");
    reveal_strlit("\\134");
    reveal_strlit(" ");
    reveal_strlit("\t");
    reveal_strlit("\n");
    reveal_strlit("\\");
    assert("\\040"@ =~= pass_pat(0));
    assert("\\011"@ =~= pass_pat(1));
    assert("\\012"@ =~= pass_pat(2));
    assert("\\134"@ =~= pass_pat(3));
    assert(" "@ =~= pass_rep(0));
    assert("\t"@ =~= pass_rep(1));
    assert("\n"@ =~= pass_rep(2));
    assert("\\"@ =~= pass_rep(3));
    lemma_decoding_pass(s, 0);
    lemma_decoding_pass(s, 1);
    lemma_decoding_pass(s, 2);
    lemma_decoding_pass(s, 3);
    lemma_escaped_after_all(s);
}

fn unescape_chars(s: &[char]) -> (r: Vec<char>)
    ensures
        r@ == unescape_mount(s@),
{
    let a = replace_chars(s, "\\040", " ");
    let b = replace_chars(a.as_slice(), "\\011", "\t");
    let c = replace_chars(b.as_slice(), "\\012", "\n");
    replace_chars(c.as_slice(), "\\134", "\\")
}

/// Decodes the octal escapes of a `/proc/mounts` field.
pub fn unescape_mount_field(value: &str) -> (r: String)
    ensures
        r@ == unescape_mount(value@),
{
    let v = chars_of(value);
    let u = unescape_chars(v.as_slice());
    string_of(u.as_slice())
}

/// One mount: the mounted source, where it is mounted, and its type.
pub struct MountEntry {
    pub source: String,
    pub target: String,
    pub fstype: String,
}

pub type MountModel = (Seq<char>, Seq<char>, Seq<char>);

/// The mount a line of `/proc/mounts` describes, unless it has fewer than three
/// fields or its type is a pseudo-filesystem.
pub open spec fn mount_of_line(line: Seq<char>) -> Option<MountModel> {
    let w = words(line);
    if w.len() < 3 || is_noise(w[2]) {
        None
    } else {
        Some((unescape_mount(w[0]), unescape_mount(w[1]), w[2]))
    }
}

/// The mounts listed by a sequence of lines, in order.
pub open spec fn mounts_of(ls: Seq<Seq<char>>) -> Seq<MountModel>
    decreases ls.len(),
{
    if ls.len() == 0 {
        Seq::empty()
    } else {
        match mount_of_line(ls.last()) {
            Some(m) => mounts_of(ls.drop_last()).push(m),
            None => mounts_of(ls.drop_last()),
        }
    }
}

pub open spec fn mount_model(m: MountEntry) -> MountModel {
    (m.source@, m.target@, m.fstype@)
}

/// The mounts of a `/proc/mounts` text, in the order it lists them.
pub fn parse_mounts(content: &str) -> (v: Vec<MountEntry>)
    ensures
        v@.map_values(|m: MountEntry| mount_model(m)) == mounts_of(lines(content@)),
{
    let chars = chars_of(content);
    let ls = split_lines(chars.as_slice());
    let ghost lv = view_all(ls@);
    let mut v: Vec<MountEntry> = Vec::new();
    let mut i: usize = 0;
    while i < ls.len()
        invariant
            i <= ls.len(),
            lv == view_all(ls@),
            lv.len() == ls@.len(),
            v@.map_values(|m: MountEntry| mount_model(m)) == mounts_of(lv.take(i as int)),
        decreases ls.len() - i,
    {
        assert(lv.take(i + 1).drop_last() =~= lv.take(i as int));
        assert(lv[i as int] == ls@[i as int]@);
        let w = split_words(ls[i].as_slice());
        let ghost before = v@.map_values(|m: MountEntry| mount_model(m));
        if w.len() >= 3 && !is_noise_chars(w[2].as_slice()) {
            assert(view_all(w@)[2] == w@[2]@);
            assert(view_all(w@)[0] == w@[0]@);
            assert(view_all(w@)[1] == w@[1]@);
            let source = unescape_chars(w[0].as_slice());
            let target = unescape_chars(w[1].as_slice());
            let m = MountEntry {
                source: string_of(source.as_slice()),
                target: string_of(target.as_slice()),
                fstype: string_of(w[2].as_slice()),
            };
            let ghost mm = mount_model(m);
            v.push(m);
            assert(v@.map_values(|m: MountEntry| mount_model(m)) =~= before.push(mm));
        } else {
            assert(w@.len() >= 3 ==> view_all(w@)[2] == w@[2]@);
        }
        i += 1;
    }
    assert(lv.take(i as int) =~= lv);
    v
}

// ---------------------------------------------------------------------------
// Capacity
// ---------------------------------------------------------------------------

/// `a * b`, or `u64::MAX` where it overflows (std's `saturating_mul`).
pub open spec fn sat_mul(a: u64, b: u64) -> u64 {
    if a * b > u64::MAX {
        u64::MAX
    } else {
        (a * b) as u64
    }
}

/// `a - b`, or 0 where it would be negative (std's `saturating_sub`).
pub open spec fn sat_sub(a: u64, b: u64) -> u64 {
    if a < b {
        0
    } else {
        (a - b) as u64
    }
}

/// The capacity of a mounted filesystem in bytes.
pub struct Capacity {
    pub total_bytes: u64,
    pub available_bytes: u64,
    pub used_bytes: u64,
}

/// Capacity from `statvfs` counts: blocks and blocks available to unprivileged
/// users, both in fragments of `fragment_size` bytes.
pub fn capacity(blocks: u64, available_blocks: u64, fragment_size: u64) -> (c: Capacity)
    ensures
        c.total_bytes == sat_mul(blocks, fragment_size),
        c.available_bytes == sat_mul(available_blocks, fragment_size),
        c.used_bytes == sat_sub(c.total_bytes, c.available_bytes),
{
    let total_bytes = match blocks.checked_mul(fragment_size) {
        Some(n) => n,
        None => u64::MAX,
    };
    let available_bytes = match available_blocks.checked_mul(fragment_size) {
        Some(n) => n,
        None => u64::MAX,
    };
    let used_bytes = if total_bytes < available_bytes {
        0
    } else {
        total_bytes - available_bytes
    };
    Capacity { total_bytes, available_bytes, used_bytes }
}

// ---------------------------------------------------------------------------
// The filesystem list
// ---------------------------------------------------------------------------

/// One mounted filesystem with its capacity, where `statvfs` gave it.
pub struct Filesystem {
    pub source: String,
    pub target: String,
    pub fstype: String,
    pub total_bytes: Option<u64>,
    pub available_bytes: Option<u64>,
    pub used_bytes: Option<u64>,
}

impl TotalOrder for Filesystem {
    /// Filesystems sort by mount target, in the byte order of `String`.
    open spec fn ordered_le(&self, other: &Self) -> bool {
        lex_le(vstd::utf8::encode_utf8(self.target@), vstd::utf8::encode_utf8(other.target@))
    }

    proof fn ordered_total(a: Self, b: Self) {
        lemma_lex_total(vstd::utf8::encode_utf8(a.target@), vstd::utf8::encode_utf8(b.target@));
    }

    proof fn ordered_trans(a: Self, b: Self, c: Self) {
        lemma_lex_le_trans(
            vstd::utf8::encode_utf8(a.target@),
            vstd::utf8::encode_utf8(b.target@),
            vstd::utf8::encode_utf8(c.target@),
        );
    }

    fn goes_before(&self, other: &Self) -> (r: bool) {
        proof {
            lemma_lex_total(vstd::utf8::encode_utf8(self.target@), vstd::utf8::encode_utf8(other.target@));
        }
        compare_bytes_sign(self.target.as_str().as_bytes(), other.target.as_str().as_bytes()) < 0
    }
}

/// The warning for a mount whose capacity could not be read.
pub open spec fn statvfs_warning(target: Seq<char>, error: Seq<char>) -> Seq<char> {
    "statvfs failed for "@ + target + ": "@ + error
}

/// Whether a filesystem record is a mount with this capacity outcome.
pub open spec fn filesystem_matches(f: Filesystem, m: MountEntry, c: Result<Capacity, String>) -> bool {
    &&& f.source@ == m.source@ && f.target@ == m.target@ && f.fstype@ == m.fstype@
    &&& match c {
        Ok(cap) => f.total_bytes == Some(cap.total_bytes) && f.available_bytes == Some(cap.available_bytes)
            && f.used_bytes == Some(cap.used_bytes),
        Err(_) => f.total_bytes is None && f.available_bytes is None && f.used_bytes is None,
    }
}

/// The warnings of the mounts whose capacity could not be read, in mount order.
pub open spec fn capacity_warnings(s: Seq<(MountEntry, Result<Capacity, String>)>) -> Seq<Seq<char>>
    decreases s.len(),
{
    if s.len() == 0 {
        Seq::empty()
    } else {
        let rest = capacity_warnings(s.drop_last());
        match s.last().1 {
            Err(e) => rest.push(statvfs_warning(s.last().0.target@, e@)),
            Ok(_) => rest,
        }
    }
}

/// The filesystem list: every mount with its capacity (or a warning where
/// `statvfs` failed), in ascending order of mount target.
pub fn filesystem_list(mounts: Vec<(MountEntry, Result<Capacity, String>)>) -> (r: (Vec<Filesystem>, Vec<String>))
    ensures
        r.0@.len() == mounts@.len(),
        sorted_by_order(r.0@),
        exists|unsorted: Seq<Filesystem>, p: Seq<int>|
            #![trigger crate::order::stable_arrangement(unsorted, r.0@, p)]
            unsorted.len() == mounts@.len() && unsorted.to_multiset() == r.0@.to_multiset()
            && crate::order::stable_arrangement(unsorted, r.0@, p)
            && forall|i: int| 0 <= i < mounts@.len() ==> filesystem_matches(#[trigger] unsorted[i], mounts@[i].0, mounts@[i].1),
        texts(r.1@) == capacity_warnings(mounts@),
{
    let ghost ms = mounts@;
    let n = mounts.len();
    assert(ms.len() == n);
    let mut out: Vec<Filesystem> = Vec::new();
    let mut warnings: Vec<String> = Vec::new();
    let mut rest = mounts;
    let mut i: usize = 0;
    assert(ms.take(0) =~= Seq::<(MountEntry, Result<Capacity, String>)>::empty());
    assert(texts(warnings@) =~= Seq::<Seq<char>>::empty());
    while rest.len() > 0
        invariant
            i + rest@.len() == ms.len(),
            ms.len() <= usize::MAX,
            rest@ == ms.skip(i as int),
            out@.len() == i,
            forall|j: int| 0 <= j < i ==> filesystem_matches(#[trigger] out@[j], ms[j].0, ms[j].1),
            texts(warnings@) == capacity_warnings(ms.take(i as int)),
        decreases rest.len(),
    {
        let (m, c) = rest.remove(0);
        assert((m, c) == ms[i as int]);
        assert(rest@ =~= ms.skip(i + 1));
        assert(ms.take(i + 1).drop_last() =~= ms.take(i as int));
        assert(ms.take(i + 1).last() == ms[i as int]);
        let ghost w0 = texts(warnings@);
        let f = match &c {
            Ok(cap) => Filesystem {
                source: copy_string(&m.source),
                target: copy_string(&m.target),
                fstype: copy_string(&m.fstype),
                total_bytes: Some(cap.total_bytes),
                available_bytes: Some(cap.available_bytes),
                used_bytes: Some(cap.used_bytes),
            },
            Err(e) => {
                let w = concat4("statvfs failed for ", &m.target, ": ", e);
                let ghost wv = w@;
                warnings.push(w);
                assert(texts(warnings@) =~= w0.push(wv));
                Filesystem {
                    source: copy_string(&m.source),
                    target: copy_string(&m.target),
                    fstype: copy_string(&m.fstype),
                    total_bytes: None,
                    available_bytes: None,
                    used_bytes: None,
                }
            },
        };
        out.push(f);
        i += 1;
    }
    assert(ms.take(i as int) =~= ms);
    let ghost unsorted = out@;
    let sorted = sort_by_order(out);
    assert(unsorted.to_multiset() == sorted@.to_multiset());
    let ghost p = choose|p: Seq<int>| crate::order::stable_arrangement(unsorted, sorted@, p);
    assert(crate::order::stable_arrangement(unsorted, sorted@, p));
    (sorted, warnings)
}

} // verus!
