//! Host facts: the text of `/etc/os-release`, `/proc/meminfo`, `/proc/cpuinfo` and
//! the hostname file, read into the values the host snapshot reports.
//!
//! Load averages, uptime and the memory percentage are floating-point and stay
//! with the program.

use vstd::prelude::*;
use crate::text::{
    chars_of, eq_str, lines, words, split_lines, split_words, split_once, split_once_chars, trim,
    trim_chars, parse_unsigned, parse_unsigned_chars, string_of, view_all, owned, copy_string,
    float_syntax, is_float_text,
};
use crate::service::{Properties, lookup, opt_text};
use crate::mounts::{sat_mul, sat_sub};

verus! {

/// The kernel, as `uname` reports it.
pub struct KernelInfo {
    pub sysname: String,
    pub release: String,
    pub version: String,
    pub machine: String,
}

/// The distribution, as `/etc/os-release` names it.
pub struct OsInfo {
    pub pretty_name: Option<String>,
    pub id: Option<String>,
    pub version_id: Option<String>,
}

/// The user running the program.
pub struct UserInfo {
    pub uid: u32,
    pub effective_uid: u32,
    pub gid: u32,
    pub effective_gid: u32,
    pub username: Option<String>,
    pub home: Option<String>,
    pub shell: Option<String>,
}

// ---------------------------------------------------------------------------
// /etc/os-release
// ---------------------------------------------------------------------------

/// Text without the `"` characters at either end (std's `trim_matches('"')`).
pub open spec fn trim_quotes(s: Seq<char>) -> Seq<char>
    decreases s.len(),
{
    if s.len() > 0 && s[0] == '"' {
        trim_quotes(s.drop_first())
    } else if s.len() > 0 && s.last() == '"' {
        trim_quotes(s.drop_last())
    } else {
        s
    }
}

/// The `KEY=value` pairs of `/etc/os-release`: lines trimmed, blank lines and
/// `#` comments skipped, values without surrounding quotes.
pub open spec fn os_pairs(ls: Seq<Seq<char>>) -> Seq<(Seq<char>, Seq<char>)>
    decreases ls.len(),
{
    if ls.len() == 0 {
        Seq::empty()
    } else {
        let rest = os_pairs(ls.drop_last());
        let t = trim(ls.last());
        if t.len() == 0 || t[0] == '#' {
            rest
        } else {
            match split_once(t, '=') {
                Some((k, v)) => rest.push((k, trim_quotes(v))),
                None => rest,
            }
        }
    }
}

fn trim_quotes_chars(s: &[char]) -> (r: Vec<char>)
    ensures
        r@ == trim_quotes(s@),
{
    let mut i: usize = 0;
    let mut j: usize = s.len();
    assert(s@.subrange(0, s@.len() as int) =~= s@);
    while i < j && (s[i] == '"' || s[j - 1] == '"')
        invariant
            i <= j <= s.len(),
            trim_quotes(s@) == trim_quotes(s@.subrange(i as int, j as int)),
        decreases j - i,
    {
        let ghost t = s@.subrange(i as int, j as int);
        if s[i] == '"' {
            assert(t.drop_first() =~= s@.subrange(i + 1, j as int));
            i += 1;
        } else {
            assert(t.drop_last() =~= s@.subrange(i as int, j - 1));
            j -= 1;
        }
    }
    slice_of(s, i, j)
}

fn slice_of(s: &[char], i: usize, j: usize) -> (r: Vec<char>)
    requires
        i <= j <= s@.len(),
    ensures
        r@ == s@.subrange(i as int, j as int),
{
    crate::text::slice_chars(s, i, j)
}

/// Reads the text of `/etc/os-release`; a later line for a key wins.
pub fn parse_os_release(content: &str) -> (p: Properties)
    ensures
        p.model() == os_pairs(lines(content@)),
{
    let chars = chars_of(content);
    let ls = split_lines(chars.as_slice());
    let ghost lv = view_all(ls@);
    let mut entries: Vec<(String, String)> = Vec::new();
    let mut i: usize = 0;
    while i < ls.len()
        invariant
            i <= ls.len(),
            lv == view_all(ls@),
            lv.len() == ls@.len(),
            entries@.map_values(|e: (String, String)| (e.0@, e.1@)) == os_pairs(lv.take(i as int)),
        decreases ls.len() - i,
    {
        assert(lv.take(i + 1).drop_last() =~= lv.take(i as int));
        assert(lv[i as int] == ls@[i as int]@);
        let ghost before = entries@.map_values(|e: (String, String)| (e.0@, e.1@));
        let t = trim_chars(ls[i].as_slice());
        if t.len() > 0 && t[0] != '#' {
            match split_once_chars(t.as_slice(), '=') {
                Some((k, v)) => {
                    let q = trim_quotes_chars(v.as_slice());
                    let e = (string_of(k.as_slice()), string_of(q.as_slice()));
                    let ghost ev = (e.0@, e.1@);
                    entries.push(e);
                    assert(entries@.map_values(|e: (String, String)| (e.0@, e.1@)) =~= before.push(ev));
                },
                None => {},
            }
        }
        i += 1;
    }
    assert(lv.take(i as int) =~= lv);
    Properties { entries }
}

/// The distribution named by the text of `/etc/os-release`, when it could be
/// read.
pub fn os_info(content: Option<String>) -> (o: OsInfo)
    ensures
        ({
            let pairs = match content {
                Some(c) => os_pairs(lines(c@)),
                None => Seq::empty(),
            };
            &&& opt_text(o.pretty_name) == lookup(pairs, "PRETTY_NAME"@)
            &&& opt_text(o.id) == lookup(pairs, "ID"@)
            &&& opt_text(o.version_id) == lookup(pairs, "VERSION_ID"@)
        }),
{
    let props = match &content {
        Some(c) => parse_os_release(c.as_str()),
        None => {
            let p = Properties { entries: Vec::new() };
            assert(p.model() =~= Seq::empty());
            p
        },
    };
    OsInfo { pretty_name: props.get("PRETTY_NAME"), id: props.get("ID"), version_id: props.get("VERSION_ID") }
}

// ---------------------------------------------------------------------------
// Hostname
// ---------------------------------------------------------------------------

/// The hostname from the text of `/proc/sys/kernel/hostname`, trimmed; `unknown`
/// when it could not be read or is blank.
pub open spec fn hostname_of(content: Option<Seq<char>>) -> Seq<char> {
    match content {
        Some(c) => if trim(c).len() > 0 {
            trim(c)
        } else {
            "unknown"@
        },
        None => "unknown"@,
    }
}

/// The hostname from the text of `/proc/sys/kernel/hostname`.
pub fn hostname_from(content: Option<String>) -> (h: String)
    ensures
        h@ == hostname_of(opt_text(content)),
{
    match &content {
        Some(c) => {
            let v = chars_of(c.as_str());
            let t = trim_chars(v.as_slice());
            if t.len() > 0 {
                string_of(t.as_slice())
            } else {
                owned("unknown")
            }
        },
        None => owned("unknown"),
    }
}

// ---------------------------------------------------------------------------
// /proc/meminfo
// ---------------------------------------------------------------------------

/// The `Key: N kB` values of `/proc/meminfo` in bytes (saturating), in order.
pub open spec fn mem_pairs(ls: Seq<Seq<char>>) -> Seq<(Seq<char>, u64)>
    decreases ls.len(),
{
    if ls.len() == 0 {
        Seq::empty()
    } else {
        let rest = mem_pairs(ls.drop_last());
        match split_once(ls.last(), ':') {
            Some((k, r)) => {
                let w = words(r);
                if w.len() > 0 {
                    match parse_unsigned(w[0], 10, u64::MAX as nat) {
                        Some(n) => rest.push((k, sat_mul(n as u64, 1024))),
                        None => rest,
                    }
                } else {
                    rest
                }
            },
            None => rest,
        }
    }
}

/// The value of a key; a later line wins.
pub open spec fn mem_lookup(pairs: Seq<(Seq<char>, u64)>, key: Seq<char>) -> Option<u64>
    decreases pairs.len(),
{
    if pairs.len() == 0 {
        None
    } else if pairs.last().0 == key {
        Some(pairs.last().1)
    } else {
        mem_lookup(pairs.drop_last(), key)
    }
}

/// Memory totals in bytes.
pub struct MemoryCounts {
    pub total_bytes: u64,
    pub available_bytes: Option<u64>,
    pub free_bytes: Option<u64>,
    /// Total less available, when the kernel reports what is available.
    pub used_bytes: Option<u64>,
}

fn mem_get(pairs: &Vec<(Vec<char>, u64)>, key: &str) -> (r: Option<u64>)
    ensures
        r == mem_lookup(pairs@.map_values(|e: (Vec<char>, u64)| (e.0@, e.1)), key@),
{
    let ghost m = pairs@.map_values(|e: (Vec<char>, u64)| (e.0@, e.1));
    let mut n: usize = pairs.len();
    assert(m.take(n as int) =~= m);
    while n > 0
        invariant
            n <= pairs@.len(),
            m == pairs@.map_values(|e: (Vec<char>, u64)| (e.0@, e.1)),
            mem_lookup(m, key@) == mem_lookup(m.take(n as int), key@),
        decreases n,
    {
        assert(m.take(n as int).last() == m[n - 1]);
        assert(m.take(n as int).drop_last() =~= m.take(n - 1));
        if eq_str(pairs[n - 1].0.as_slice(), key) {
            return Some(pairs[n - 1].1);
        }
        n -= 1;
    }
    None
}

/// The memory totals in the text of `/proc/meminfo`; a missing `MemTotal` reads
/// as 0.
pub fn memory_counts(content: &str) -> (m: MemoryCounts)
    ensures
        ({
            let pairs = mem_pairs(lines(content@));
            &&& m.total_bytes == match mem_lookup(pairs, "MemTotal"@) {
                Some(n) => n,
                None => 0,
            }
            &&& m.available_bytes == mem_lookup(pairs, "MemAvailable"@)
            &&& m.free_bytes == mem_lookup(pairs, "MemFree"@)
            &&& m.used_bytes == match m.available_bytes {
                Some(a) => Some(sat_sub(m.total_bytes, a)),
                None => None,
            }
        }),
{
    let chars = chars_of(content);
    let ls = split_lines(chars.as_slice());
    let ghost lv = view_all(ls@);
    let mut pairs: Vec<(Vec<char>, u64)> = Vec::new();
    let mut i: usize = 0;
    while i < ls.len()
        invariant
            i <= ls.len(),
            lv == view_all(ls@),
            lv.len() == ls@.len(),
            pairs@.map_values(|e: (Vec<char>, u64)| (e.0@, e.1)) == mem_pairs(lv.take(i as int)),
        decreases ls.len() - i,
    {
        assert(lv.take(i + 1).drop_last() =~= lv.take(i as int));
        assert(lv[i as int] == ls@[i as int]@);
        let ghost before = pairs@.map_values(|e: (Vec<char>, u64)| (e.0@, e.1));
        match split_once_chars(ls[i].as_slice(), ':') {
            Some((k, r)) => {
                let w = split_words(r.as_slice());
                if w.len() > 0 {
                    assert(view_all(w@)[0] == w@[0]@);
                    match parse_unsigned_chars(w[0].as_slice(), 10, u64::MAX) {
                        Some(n) => {
                            let b = match n.checked_mul(1024) {
                                Some(b) => b,
                                None => u64::MAX,
                            };
                            let ghost ev = (k@, b);
                            pairs.push((k, b));
                            assert(pairs@.map_values(|e: (Vec<char>, u64)| (e.0@, e.1)) =~= before.push(ev));
                        },
                        None => {},
                    }
                }
            },
            None => {},
        }
        i += 1;
    }
    assert(lv.take(i as int) =~= lv);
    let total_bytes = match mem_get(&pairs, "MemTotal") {
        Some(n) => n,
        None => 0,
    };
    let available_bytes = mem_get(&pairs, "MemAvailable");
    let free_bytes = mem_get(&pairs, "MemFree");
    let used_bytes = match available_bytes {
        Some(a) => Some(
            if total_bytes < a {
                0
            } else {
                total_bytes - a
            },
        ),
        None => None,
    };
    MemoryCounts { total_bytes, available_bytes, free_bytes, used_bytes }
}

// ---------------------------------------------------------------------------
// /proc/cpuinfo
// ---------------------------------------------------------------------------

/// What `/proc/cpuinfo` says of the processors: their number, the first model
/// name and vendor, and the first clock rate that reads as a number (as text).
pub struct CpuFields {
    pub logical_cpus: u64,
    pub model_name: Option<String>,
    pub vendor_id: Option<String>,
    pub cpu_mhz: Option<String>,
}

pub struct CpuModel {
    pub logical_cpus: u64,
    pub model_name: Option<Seq<char>>,
    pub vendor_id: Option<Seq<char>>,
    pub cpu_mhz: Option<Seq<char>>,
}

pub open spec fn cpu_none() -> CpuModel {
    CpuModel { logical_cpus: 0, model_name: None, vendor_id: None, cpu_mhz: None }
}

/// One `key : value` line of `/proc/cpuinfo`, key and value trimmed.
pub open spec fn cpu_step(m: CpuModel, line: Seq<char>) -> CpuModel {
    match split_once(line, ':') {
        None => m,
        Some((k, v)) => {
            let key = trim(k);
            let value = trim(v);
            if key == "processor"@ {
                CpuModel {
                    logical_cpus: if m.logical_cpus == u64::MAX {
                        u64::MAX
                    } else {
                        (m.logical_cpus + 1) as u64
                    },
                    ..m
                }
            } else if key == "model name"@ && m.model_name is None {
                CpuModel { model_name: Some(value), ..m }
            } else if key == "vendor_id"@ && m.vendor_id is None {
                CpuModel { vendor_id: Some(value), ..m }
            } else if key == "cpu MHz"@ && m.cpu_mhz is None {
                CpuModel {
                    cpu_mhz: if float_syntax(value) {
                        Some(value)
                    } else {
                        None
                    },
                    ..m
                }
            } else {
                m
            }
        },
    }
}

pub open spec fn cpu_of(ls: Seq<Seq<char>>) -> CpuModel
    decreases ls.len(),
{
    if ls.len() == 0 {
        cpu_none()
    } else {
        cpu_step(cpu_of(ls.drop_last()), ls.last())
    }
}

/// The trimmed key of a `key : value` line of `/proc/cpuinfo`, if it has a colon.
pub open spec fn cpuinfo_key(line: Seq<char>) -> Option<Seq<char>> {
    match split_once(line, ':') {
        Some((k, _)) => Some(trim(k)),
        None => None,
    }
}

/// The trimmed value of a `key : value` line of `/proc/cpuinfo`.
pub open spec fn cpuinfo_value(line: Seq<char>) -> Seq<char> {
    match split_once(line, ':') {
        Some((_, v)) => trim(v),
        None => Seq::empty(),
    }
}

proof fn lemma_no_model_name(ls: Seq<Seq<char>>)
    requires
        forall|j: int| 0 <= j < ls.len() ==> cpuinfo_key(#[trigger] ls[j]) != Some("model name"@),
    ensures
        cpu_of(ls).model_name is None,
    decreases ls.len(),
{
    if ls.len() > 0 {
        let init = ls.drop_last();
        assert forall|j: int| 0 <= j < init.len() implies cpuinfo_key(#[trigger] init[j]) != Some("model name"@) by {
            assert(init[j] == ls[j]);
        }
        lemma_no_model_name(init);
        assert(cpuinfo_key(ls[ls.len() - 1]) != Some("model name"@));
    }
}

proof fn lemma_model_name_at(ls: Seq<Seq<char>>, i: int)
    requires
        0 <= i < ls.len(),
        cpuinfo_key(ls[i]) == Some("model name"@),
        forall|j: int| 0 <= j < i ==> cpuinfo_key(#[trigger] ls[j]) != Some("model name"@),
    ensures
        cpu_of(ls).model_name == Some(cpuinfo_value(ls[i])),
    decreases ls.len(),
{
    reveal_strlit("model name");
    reveal_strlit("processor");
    assert("model name"@[0] != "processor"@[0]);
    let init = ls.drop_last();
    if ls.len() == i + 1 {
        assert forall|j: int| 0 <= j < init.len() implies cpuinfo_key(#[trigger] init[j]) != Some("model name"@) by {
            assert(init[j] == ls[j]);
        }
        lemma_no_model_name(init);
        assert(ls.last() == ls[i]);
    } else {
        assert(init[i] == ls[i]);
        assert forall|j: int| 0 <= j < i implies cpuinfo_key(#[trigger] init[j]) != Some("model name"@) by {
            assert(init[j] == ls[j]);
        }
        lemma_model_name_at(init, i);
    }
}

proof fn lemma_no_vendor(ls: Seq<Seq<char>>)
    requires
        forall|j: int| 0 <= j < ls.len() ==> cpuinfo_key(#[trigger] ls[j]) != Some("vendor_id"@),
    ensures
        cpu_of(ls).vendor_id is None,
    decreases ls.len(),
{
    if ls.len() > 0 {
        let init = ls.drop_last();
        assert forall|j: int| 0 <= j < init.len() implies cpuinfo_key(#[trigger] init[j]) != Some("vendor_id"@) by {
            assert(init[j] == ls[j]);
        }
        lemma_no_vendor(init);
        assert(cpuinfo_key(ls[ls.len() - 1]) != Some("vendor_id"@));
    }
}

proof fn lemma_vendor_at(ls: Seq<Seq<char>>, i: int)
    requires
        0 <= i < ls.len(),
        cpuinfo_key(ls[i]) == Some("vendor_id"@),
        forall|j: int| 0 <= j < i ==> cpuinfo_key(#[trigger] ls[j]) != Some("vendor_id"@),
    ensures
        cpu_of(ls).vendor_id == Some(cpuinfo_value(ls[i])),
    decreases ls.len(),
{
    reveal_strlit("vendor_id");
    reveal_strlit("processor");
    reveal_strlit("model name");
    assert("vendor_id"@[0] != "processor"@[0]);
    assert("vendor_id"@[0] != "model name"@[0]);
    let init = ls.drop_last();
    if ls.len() == i + 1 {
        assert forall|j: int| 0 <= j < init.len() implies cpuinfo_key(#[trigger] init[j]) != Some("vendor_id"@) by {
            assert(init[j] == ls[j]);
        }
        lemma_no_vendor(init);
        assert(ls.last() == ls[i]);
    } else {
        assert(init[i] == ls[i]);
        assert forall|j: int| 0 <= j < i implies cpuinfo_key(#[trigger] init[j]) != Some("vendor_id"@) by {
            assert(init[j] == ls[j]);
        }
        lemma_vendor_at(init, i);
    }
}

/// The CPU vendor is the trimmed value of the first line whose trimmed key is
/// exactly `vendor_id`; without such a line there is none.
pub proof fn law_cpu_vendor_is_first_vendor_line(ls: Seq<Seq<char>>)
    ensures
        (forall|j: int| 0 <= j < ls.len() ==> cpuinfo_key(#[trigger] ls[j]) != Some("vendor_id"@))
            ==> cpu_of(ls).vendor_id is None,
        forall|i: int|
            0 <= i < ls.len() && #[trigger] cpuinfo_key(ls[i]) == Some("vendor_id"@) && (forall|j: int|
                0 <= j < i ==> cpuinfo_key(#[trigger] ls[j]) != Some("vendor_id"@)) ==> cpu_of(ls).vendor_id
                == Some(cpuinfo_value(ls[i])),
{
    if forall|j: int| 0 <= j < ls.len() ==> cpuinfo_key(#[trigger] ls[j]) != Some("vendor_id"@) {
        lemma_no_vendor(ls);
    }
    assert forall|i: int|
        0 <= i < ls.len() && #[trigger] cpuinfo_key(ls[i]) == Some("vendor_id"@) && (forall|j: int|
            0 <= j < i ==> cpuinfo_key(#[trigger] ls[j]) != Some("vendor_id"@)) implies cpu_of(ls).vendor_id
            == Some(cpuinfo_value(ls[i])) by {
        lemma_vendor_at(ls, i);
    }
}

/// The number of logical CPUs is the number of lines whose trimmed key is
/// exactly `processor` (saturating).
pub proof fn law_cpu_count_is_processor_lines(ls: Seq<Seq<char>>)
    ensures
        cpu_of(ls).logical_cpus == crate::entry::cap(
            ls.filter(|l: Seq<char>| cpuinfo_key(l) == Some("processor"@)).len() as int,
        ),
    decreases ls.len(),
{
    reveal(Seq::filter);
    if ls.len() > 0 {
        law_cpu_count_is_processor_lines(ls.drop_last());
        let pred = |l: Seq<char>| cpuinfo_key(l) == Some("processor"@);
        assert(ls.filter(pred) == if pred(ls.last()) {
            ls.drop_last().filter(pred).push(ls.last())
        } else {
            ls.drop_last().filter(pred)
        });
    }
}

/// The CPU model is the trimmed value of the first line whose trimmed key is
/// exactly `model name`; a line with any other key (such as `model`) never sets
/// it, and without such a line there is no model.
pub proof fn law_cpu_model_name_is_first_model_name_line(ls: Seq<Seq<char>>)
    ensures
        (forall|j: int| 0 <= j < ls.len() ==> cpuinfo_key(#[trigger] ls[j]) != Some("model name"@))
            ==> cpu_of(ls).model_name is None,
        forall|i: int|
            0 <= i < ls.len() && #[trigger] cpuinfo_key(ls[i]) == Some("model name"@) && (forall|j: int|
                0 <= j < i ==> cpuinfo_key(#[trigger] ls[j]) != Some("model name"@)) ==> cpu_of(ls).model_name
                == Some(cpuinfo_value(ls[i])),
{
    if forall|j: int| 0 <= j < ls.len() ==> cpuinfo_key(#[trigger] ls[j]) != Some("model name"@) {
        lemma_no_model_name(ls);
    }
    assert forall|i: int|
        0 <= i < ls.len() && #[trigger] cpuinfo_key(ls[i]) == Some("model name"@) && (forall|j: int|
            0 <= j < i ==> cpuinfo_key(#[trigger] ls[j]) != Some("model name"@)) implies cpu_of(ls).model_name
            == Some(cpuinfo_value(ls[i])) by {
        lemma_model_name_at(ls, i);
    }
}

impl CpuFields {
    pub open spec fn model(self) -> CpuModel {
        CpuModel {
            logical_cpus: self.logical_cpus,
            model_name: opt_text(self.model_name),
            vendor_id: opt_text(self.vendor_id),
            cpu_mhz: opt_text(self.cpu_mhz),
        }
    }
}

/// The processors described by the text of `/proc/cpuinfo`. Where it counts no
/// processor, `fallback` (the parallelism the system reports, or 0) stands in;
/// where that is 0 too, the text is refused.
pub fn parse_cpu_info(content: &str, fallback: u64) -> (r: Result<CpuFields, String>)
    ensures
        ({
            let m = cpu_of(lines(content@));
            let n = if m.logical_cpus == 0 {
                fallback
            } else {
                m.logical_cpus
            };
            match r {
                Ok(f) => n != 0 && f.model() == (CpuModel { logical_cpus: n, ..m }),
                Err(e) => n == 0 && e@ == "no CPUs found in /proc/cpuinfo"@,
            }
        }),
{
    let chars = chars_of(content);
    let ls = split_lines(chars.as_slice());
    let ghost lv = view_all(ls@);
    let mut f = CpuFields { logical_cpus: 0, model_name: None, vendor_id: None, cpu_mhz: None };
    let mut i: usize = 0;
    while i < ls.len()
        invariant
            i <= ls.len(),
            lv == view_all(ls@),
            lv.len() == ls@.len(),
            f.model() == cpu_of(lv.take(i as int)),
        decreases ls.len() - i,
    {
        assert(lv.take(i + 1).drop_last() =~= lv.take(i as int));
        assert(lv[i as int] == ls@[i as int]@);
        match split_once_chars(ls[i].as_slice(), ':') {
            Some((k, v)) => {
                let key = trim_chars(k.as_slice());
                let value = trim_chars(v.as_slice());
                if eq_str(key.as_slice(), "processor") {
                    if f.logical_cpus < u64::MAX {
                        f.logical_cpus = f.logical_cpus + 1;
                    }
                } else if eq_str(key.as_slice(), "model name") && f.model_name.is_none() {
                    f.model_name = Some(string_of(value.as_slice()));
                } else if eq_str(key.as_slice(), "vendor_id") && f.vendor_id.is_none() {
                    f.vendor_id = Some(string_of(value.as_slice()));
                } else if eq_str(key.as_slice(), "cpu MHz") && f.cpu_mhz.is_none() {
                    let t = string_of(value.as_slice());
                    if is_float_text(t.as_str()) {
                        f.cpu_mhz = Some(t);
                    }
                }
            },
            None => {},
        }
        i += 1;
    }
    assert(lv.take(i as int) =~= lv);
    if f.logical_cpus == 0 {
        f.logical_cpus = fallback;
    }
    if f.logical_cpus == 0 {
        return Err(owned("no CPUs found in /proc/cpuinfo"));
    }
    Ok(f)
}

/// Formats a byte count with binary units.
pub fn human_bytes(bytes: u64) -> (s: String)
    ensures
        s@ == crate::units::human_bytes_spec(bytes),
{
    crate::units::human_bytes(bytes)
}

} // verus!
