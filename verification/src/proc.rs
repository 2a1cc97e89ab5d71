//! Processes: what `/proc/<pid>/status`, `stat` and `cmdline` say of a process,
//! the inspection and list reports built from them, and their agent reports.
//!
//! The program reads the procfs files (decoding them lossily as UTF-8) and hands
//! their text here; every field is parsed and every warning worded in this module.

use vstd::prelude::*;
use crate::text::{
    chars_of, eq_str, lines, words, trim, split_once, split_lines, split_words, trim_chars,
    split_once_chars, parse_unsigned, parse_unsigned_chars, string_of, view_all, find_last,
    find_first, rfind_char, find_char, slice_chars, bytes_hex, hex_of, lossy_text, utf8_lossy,
    dec, push_dec, push_str, owned, copy_string, text3, texts,
};
use crate::units::{quote_arg, shell_quote_arg, escape_text, escape_all, escape_argument_text,
    escape_argument};
use crate::mounts::sat_mul;
use crate::text::{bool_text, push_bool};
use crate::agent::{
    AgentReport, Fact, FactValue, FactField, NextStep, Severity, Subject, fact_is, text_value, num_value,
    read_only_step, field_is, text_or_null, num_or_null, fact_with, fact_said, field,
};

verus! {

// ---------------------------------------------------------------------------
// Reports
// ---------------------------------------------------------------------------

/// One process in detail.
pub struct ProcInspection {
    pub pid: u32,
    pub exists: bool,
    pub name: Option<String>,
    pub state: Option<String>,
    pub parent_pid: Option<u32>,
    pub child_pids: Vec<u32>,
    pub command_line: Vec<String>,
    pub command_line_bytes_hex: Vec<String>,
    pub executable: Option<String>,
    pub cwd: Option<String>,
    pub uid: Option<u32>,
    pub user: Option<String>,
    pub gid: Option<u32>,
    pub threads: Option<u64>,
    pub memory: ProcMemory,
    pub warnings: Vec<String>,
}

/// Memory figures of a process, in bytes.
pub struct ProcMemory {
    pub vm_peak_bytes: Option<u64>,
    pub vm_size_bytes: Option<u64>,
    pub vm_rss_bytes: Option<u64>,
    pub vm_hwm_bytes: Option<u64>,
}

impl Default for ProcMemory {
    fn default() -> (m: Self)
        ensures
            m.vm_peak_bytes is None,
            m.vm_size_bytes is None,
            m.vm_rss_bytes is None,
            m.vm_hwm_bytes is None,
    {
        ProcMemory { vm_peak_bytes: None, vm_size_bytes: None, vm_rss_bytes: None, vm_hwm_bytes: None }
    }
}

/// The visible processes.
pub struct ProcList {
    pub processes: Vec<ProcSummary>,
    pub process_count: usize,
    pub warnings: Vec<String>,
}

/// One process in brief.
pub struct ProcSummary {
    pub pid: u32,
    pub parent_pid: Option<u32>,
    pub name: Option<String>,
    pub state: Option<String>,
    pub uid: Option<u32>,
    pub user: Option<String>,
    pub vm_rss_bytes: Option<u64>,
    pub command_line: Vec<String>,
}

// ---------------------------------------------------------------------------
// Values of status fields
// ---------------------------------------------------------------------------

/// A `u32` as std's `FromStr` reads it.
pub open spec fn read_u32(s: Seq<char>) -> Option<u32> {
    match parse_unsigned(s, 10, u32::MAX as nat) {
        Some(n) => Some(n as u32),
        None => None,
    }
}

/// A `u64` as std's `FromStr` reads it.
pub open spec fn read_u64(s: Seq<char>) -> Option<u64> {
    match parse_unsigned(s, 10, u64::MAX as nat) {
        Some(n) => Some(n as u64),
        None => None,
    }
}

/// The first whitespace-separated word read as a `u32` (`Uid:` and `Gid:` list
/// the real id first).
pub open spec fn first_word_u32(s: Seq<char>) -> Option<u32> {
    if words(s).len() > 0 {
        read_u32(words(s)[0])
    } else {
        None
    }
}

/// A status value in kibibytes (`123 kB`) as bytes, saturating.
pub open spec fn status_kib(s: Seq<char>) -> Option<u64> {
    if words(s).len() > 0 {
        match read_u64(words(s)[0]) {
            Some(k) => Some(sat_mul(k, 1024)),
            None => None,
        }
    } else {
        None
    }
}

fn read_u32_chars(s: &[char]) -> (r: Option<u32>)
    ensures
        r == read_u32(s@),
{
    match parse_unsigned_chars(s, 10, 0xffff_ffff) {
        Some(n) => Some(n as u32),
        None => None,
    }
}

fn read_u64_chars(s: &[char]) -> (r: Option<u64>)
    ensures
        r == read_u64(s@),
{
    parse_unsigned_chars(s, 10, u64::MAX)
}

fn first_word_u32_chars(s: &[char]) -> (r: Option<u32>)
    ensures
        r == first_word_u32(s@),
{
    let w = split_words(s);
    if w.len() > 0 {
        assert(view_all(w@)[0] == w@[0]@);
        read_u32_chars(w[0].as_slice())
    } else {
        None
    }
}

fn status_kib_chars(s: &[char]) -> (r: Option<u64>)
    ensures
        r == status_kib(s@),
{
    let w = split_words(s);
    if w.len() > 0 {
        assert(view_all(w@)[0] == w@[0]@);
        match read_u64_chars(w[0].as_slice()) {
            Some(k) => Some(
                match k.checked_mul(1024) {
                    Some(b) => b,
                    None => u64::MAX,
                },
            ),
            None => None,
        }
    } else {
        None
    }
}

/// Reads a status value in kibibytes (`123 kB`) as bytes.
pub fn parse_status_kib(value: &str) -> (r: Option<u64>)
    ensures
        r == status_kib(value@),
{
    let v = chars_of(value);
    status_kib_chars(v.as_slice())
}

// ---------------------------------------------------------------------------
// /proc/<pid>/status
// ---------------------------------------------------------------------------

/// The fields a status file sets, each `None` until a line sets it.
pub struct StatusModel {
    pub name: Option<Seq<char>>,
    pub state: Option<Seq<char>>,
    pub parent_pid: Option<u32>,
    pub uid: Option<u32>,
    pub gid: Option<u32>,
    pub threads: Option<u64>,
    pub vm_peak: Option<u64>,
    pub vm_size: Option<u64>,
    pub vm_rss: Option<u64>,
    pub vm_hwm: Option<u64>,
}

pub open spec fn status_none() -> StatusModel {
    StatusModel {
        name: None,
        state: None,
        parent_pid: None,
        uid: None,
        gid: None,
        threads: None,
        vm_peak: None,
        vm_size: None,
        vm_rss: None,
        vm_hwm: None,
    }
}

/// One line `Key:\tvalue` of a status file; the value is trimmed, and a later
/// line for the same key replaces what an earlier one set.
pub open spec fn status_step(m: StatusModel, line: Seq<char>) -> StatusModel {
    match split_once(line, ':') {
        None => m,
        Some((key, raw)) => {
            let value = trim(raw);
            if key == "Name"@ {
                StatusModel { name: Some(value), ..m }
            } else if key == "State"@ {
                StatusModel { state: Some(value), ..m }
            } else if key == "PPid"@ {
                StatusModel { parent_pid: read_u32(value), ..m }
            } else if key == "Uid"@ {
                StatusModel { uid: first_word_u32(value), ..m }
            } else if key == "Gid"@ {
                StatusModel { gid: first_word_u32(value), ..m }
            } else if key == "Threads"@ {
                StatusModel { threads: read_u64(value), ..m }
            } else if key == "VmPeak"@ {
                StatusModel { vm_peak: status_kib(value), ..m }
            } else if key == "VmSize"@ {
                StatusModel { vm_size: status_kib(value), ..m }
            } else if key == "VmRSS"@ {
                StatusModel { vm_rss: status_kib(value), ..m }
            } else if key == "VmHWM"@ {
                StatusModel { vm_hwm: status_kib(value), ..m }
            } else {
                m
            }
        },
    }
}

/// The fields a sequence of status lines sets.
pub open spec fn status_of(ls: Seq<Seq<char>>) -> StatusModel
    decreases ls.len(),
{
    if ls.len() == 0 {
        status_none()
    } else {
        status_step(status_of(ls.drop_last()), ls.last())
    }
}

proof fn lemma_status_one_line(l: Seq<char>)
    ensures
        status_of(seq![l]) == status_step(status_none(), l),
{
    reveal_with_fuel(status_of, 2);
    assert(seq![l].drop_last() =~= Seq::<Seq<char>>::empty());
    assert(seq![l].last() == l);
}

proof fn lemma_status_key_name(v: Seq<char>)
    ensures
        status_of(seq!["Name"@ + seq![':'] + v]) == (StatusModel { name: Some(trim(v)), ..status_none() }),
{
    reveal_strlit("Name");
    reveal_strlit("State");
    reveal_strlit("PPid");
    reveal_strlit("Uid");
    reveal_strlit("Gid");
    reveal_strlit("Threads");
    reveal_strlit("VmPeak");
    reveal_strlit("VmSize");
    reveal_strlit("VmRSS");
    reveal_strlit("VmHWM");
    assert("Name"@[0] != "PPid"@[0]);
    crate::text::lemma_split_once_at("Name"@, ':', v);
    lemma_status_one_line("Name"@ + seq![':'] + v);
}

proof fn lemma_status_key_state(v: Seq<char>)
    ensures
        status_of(seq!["State"@ + seq![':'] + v]) == (StatusModel { state: Some(trim(v)), ..status_none() }),
{
    reveal_strlit("Name");
    reveal_strlit("State");
    reveal_strlit("PPid");
    reveal_strlit("Uid");
    reveal_strlit("Gid");
    reveal_strlit("Threads");
    reveal_strlit("VmPeak");
    reveal_strlit("VmSize");
    reveal_strlit("VmRSS");
    reveal_strlit("VmHWM");
    assert("State"@[0] != "VmRSS"@[0]);
    assert("State"@[0] != "VmHWM"@[0]);
    crate::text::lemma_split_once_at("State"@, ':', v);
    lemma_status_one_line("State"@ + seq![':'] + v);
}

proof fn lemma_status_key_ppid(v: Seq<char>)
    ensures
        status_of(seq!["PPid"@ + seq![':'] + v]) == (StatusModel { parent_pid: read_u32(trim(v)), ..status_none() }),
{
    reveal_strlit("Name");
    reveal_strlit("State");
    reveal_strlit("PPid");
    reveal_strlit("Uid");
    reveal_strlit("Gid");
    reveal_strlit("Threads");
    reveal_strlit("VmPeak");
    reveal_strlit("VmSize");
    reveal_strlit("VmRSS");
    reveal_strlit("VmHWM");
    assert("PPid"@[0] != "Name"@[0]);
    crate::text::lemma_split_once_at("PPid"@, ':', v);
    lemma_status_one_line("PPid"@ + seq![':'] + v);
}

proof fn lemma_status_key_uid(v: Seq<char>)
    ensures
        status_of(seq!["Uid"@ + seq![':'] + v]) == (StatusModel { uid: first_word_u32(trim(v)), ..status_none() }),
{
    reveal_strlit("Name");
    reveal_strlit("State");
    reveal_strlit("PPid");
    reveal_strlit("Uid");
    reveal_strlit("Gid");
    reveal_strlit("Threads");
    reveal_strlit("VmPeak");
    reveal_strlit("VmSize");
    reveal_strlit("VmRSS");
    reveal_strlit("VmHWM");
    assert("Uid"@[0] != "Gid"@[0]);
    crate::text::lemma_split_once_at("Uid"@, ':', v);
    lemma_status_one_line("Uid"@ + seq![':'] + v);
}

proof fn lemma_status_key_gid(v: Seq<char>)
    ensures
        status_of(seq!["Gid"@ + seq![':'] + v]) == (StatusModel { gid: first_word_u32(trim(v)), ..status_none() }),
{
    reveal_strlit("Name");
    reveal_strlit("State");
    reveal_strlit("PPid");
    reveal_strlit("Uid");
    reveal_strlit("Gid");
    reveal_strlit("Threads");
    reveal_strlit("VmPeak");
    reveal_strlit("VmSize");
    reveal_strlit("VmRSS");
    reveal_strlit("VmHWM");
    assert("Gid"@[0] != "Uid"@[0]);
    crate::text::lemma_split_once_at("Gid"@, ':', v);
    lemma_status_one_line("Gid"@ + seq![':'] + v);
}

proof fn lemma_status_key_threads(v: Seq<char>)
    ensures
        status_of(seq!["Threads"@ + seq![':'] + v]) == (StatusModel { threads: read_u64(trim(v)), ..status_none() }),
{
    reveal_strlit("Name");
    reveal_strlit("State");
    reveal_strlit("PPid");
    reveal_strlit("Uid");
    reveal_strlit("Gid");
    reveal_strlit("Threads");
    reveal_strlit("VmPeak");
    reveal_strlit("VmSize");
    reveal_strlit("VmRSS");
    reveal_strlit("VmHWM");
    crate::text::lemma_split_once_at("Threads"@, ':', v);
    lemma_status_one_line("Threads"@ + seq![':'] + v);
}

proof fn lemma_status_key_vmpeak(v: Seq<char>)
    ensures
        status_of(seq!["VmPeak"@ + seq![':'] + v]) == (StatusModel { vm_peak: status_kib(trim(v)), ..status_none() }),
{
    reveal_strlit("Name");
    reveal_strlit("State");
    reveal_strlit("PPid");
    reveal_strlit("Uid");
    reveal_strlit("Gid");
    reveal_strlit("Threads");
    reveal_strlit("VmPeak");
    reveal_strlit("VmSize");
    reveal_strlit("VmRSS");
    reveal_strlit("VmHWM");
    assert("VmPeak"@[2] != "VmSize"@[2]);
    crate::text::lemma_split_once_at("VmPeak"@, ':', v);
    lemma_status_one_line("VmPeak"@ + seq![':'] + v);
}

proof fn lemma_status_key_vmsize(v: Seq<char>)
    ensures
        status_of(seq!["VmSize"@ + seq![':'] + v]) == (StatusModel { vm_size: status_kib(trim(v)), ..status_none() }),
{
    reveal_strlit("Name");
    reveal_strlit("State");
    reveal_strlit("PPid");
    reveal_strlit("Uid");
    reveal_strlit("Gid");
    reveal_strlit("Threads");
    reveal_strlit("VmPeak");
    reveal_strlit("VmSize");
    reveal_strlit("VmRSS");
    reveal_strlit("VmHWM");
    assert("VmSize"@[2] != "VmPeak"@[2]);
    crate::text::lemma_split_once_at("VmSize"@, ':', v);
    lemma_status_one_line("VmSize"@ + seq![':'] + v);
}

proof fn lemma_status_key_vmrss(v: Seq<char>)
    ensures
        status_of(seq!["VmRSS"@ + seq![':'] + v]) == (StatusModel { vm_rss: status_kib(trim(v)), ..status_none() }),
{
    reveal_strlit("Name");
    reveal_strlit("State");
    reveal_strlit("PPid");
    reveal_strlit("Uid");
    reveal_strlit("Gid");
    reveal_strlit("Threads");
    reveal_strlit("VmPeak");
    reveal_strlit("VmSize");
    reveal_strlit("VmRSS");
    reveal_strlit("VmHWM");
    assert("VmRSS"@[0] != "State"@[0]);
    assert("VmRSS"@[2] != "VmHWM"@[2]);
    crate::text::lemma_split_once_at("VmRSS"@, ':', v);
    lemma_status_one_line("VmRSS"@ + seq![':'] + v);
}

proof fn lemma_status_key_vmhwm(v: Seq<char>)
    ensures
        status_of(seq!["VmHWM"@ + seq![':'] + v]) == (StatusModel { vm_hwm: status_kib(trim(v)), ..status_none() }),
{
    reveal_strlit("Name");
    reveal_strlit("State");
    reveal_strlit("PPid");
    reveal_strlit("Uid");
    reveal_strlit("Gid");
    reveal_strlit("Threads");
    reveal_strlit("VmPeak");
    reveal_strlit("VmSize");
    reveal_strlit("VmRSS");
    reveal_strlit("VmHWM");
    assert("VmHWM"@[0] != "State"@[0]);
    assert("VmHWM"@[2] != "VmRSS"@[2]);
    crate::text::lemma_split_once_at("VmHWM"@, ':', v);
    lemma_status_one_line("VmHWM"@ + seq![':'] + v);
}

/// A memory value `N kB` reads as `N` kibibytes: `N * 1024` bytes, capped at
/// `u64::MAX`.
pub proof fn law_status_kib_is_kibibytes(n: nat)
    requires
        n <= u64::MAX,
    ensures
        status_kib(dec(n) + " kB"@) == Some(if n * 1024 > u64::MAX { u64::MAX } else { (n * 1024) as u64 }),
{
    reveal_strlit(" kB");
    crate::text::lemma_dec_reads_back(n);
    let rest = "kB"@;
    reveal_strlit("kB");
    assert(dec(n) + " kB"@ =~= dec(n) + seq![' '] + rest);
    crate::text::lemma_first_word(dec(n), rest);
    assert(crate::text::unsigned_body(dec(n)) == dec(n));
}

/// A `VmSize:`, `VmRSS:`, `VmHWM:` or `VmPeak:` line holding `N kB` sets that
/// field, and only it, to `N * 1024` bytes (capped at `u64::MAX`).
pub proof fn law_status_memory_lines(n: nat)
    requires
        n <= u64::MAX,
    ensures
        ({
            let b = Some(if n * 1024 > u64::MAX { u64::MAX } else { (n * 1024) as u64 });
            let v = dec(n) + " kB"@;
            &&& status_of(seq!["VmSize"@ + seq![':'] + v]) == (StatusModel { vm_size: b, ..status_none() })
            &&& status_of(seq!["VmRSS"@ + seq![':'] + v]) == (StatusModel { vm_rss: b, ..status_none() })
            &&& status_of(seq!["VmHWM"@ + seq![':'] + v]) == (StatusModel { vm_hwm: b, ..status_none() })
            &&& status_of(seq!["VmPeak"@ + seq![':'] + v]) == (StatusModel { vm_peak: b, ..status_none() })
        }),
{
    let v = dec(n) + " kB"@;
    reveal_strlit(" kB");
    crate::text::lemma_dec_reads_back(n);
    assert(v[0] == dec(n)[0]);
    assert(v.last() == 'B');
    assert(!crate::text::is_ws(v[0]));
    assert(crate::text::trim_start(v) == v);
    assert(crate::text::trim_end(v) == v);
    law_status_kib_is_kibibytes(n);
    lemma_status_key_vmsize(v);
    lemma_status_key_vmrss(v);
    lemma_status_key_vmhwm(v);
    lemma_status_key_vmpeak(v);
}

/// Each status key sets its own field, and only it: a status text whose one
/// line is `Key:` followed by a value `v` sets the field of `Key` from the
/// trimmed value (`VmSize` the size, `VmHWM` the peak resident size, and so on)
/// and leaves every other field unset.
pub proof fn law_status_key_sets_its_own_field(v: Seq<char>)
    ensures
        status_of(seq!["Name"@ + seq![':'] + v]) == (StatusModel { name: Some(trim(v)), ..status_none() }),
        status_of(seq!["State"@ + seq![':'] + v]) == (StatusModel { state: Some(trim(v)), ..status_none() }),
        status_of(seq!["PPid"@ + seq![':'] + v]) == (StatusModel { parent_pid: read_u32(trim(v)), ..status_none() }),
        status_of(seq!["Uid"@ + seq![':'] + v]) == (StatusModel { uid: first_word_u32(trim(v)), ..status_none() }),
        status_of(seq!["Gid"@ + seq![':'] + v]) == (StatusModel { gid: first_word_u32(trim(v)), ..status_none() }),
        status_of(seq!["Threads"@ + seq![':'] + v]) == (StatusModel { threads: read_u64(trim(v)), ..status_none() }),
        status_of(seq!["VmPeak"@ + seq![':'] + v]) == (StatusModel { vm_peak: status_kib(trim(v)), ..status_none() }),
        status_of(seq!["VmSize"@ + seq![':'] + v]) == (StatusModel { vm_size: status_kib(trim(v)), ..status_none() }),
        status_of(seq!["VmRSS"@ + seq![':'] + v]) == (StatusModel { vm_rss: status_kib(trim(v)), ..status_none() }),
        status_of(seq!["VmHWM"@ + seq![':'] + v]) == (StatusModel { vm_hwm: status_kib(trim(v)), ..status_none() }),
{
    lemma_status_key_name(v);
    lemma_status_key_state(v);
    lemma_status_key_ppid(v);
    lemma_status_key_uid(v);
    lemma_status_key_gid(v);
    lemma_status_key_threads(v);
    lemma_status_key_vmpeak(v);
    lemma_status_key_vmsize(v);
    lemma_status_key_vmrss(v);
    lemma_status_key_vmhwm(v);
}

/// The fields of a status file, parsed.
pub struct StatusFields {
    pub name: Option<String>,
    pub state: Option<String>,
    pub parent_pid: Option<u32>,
    pub uid: Option<u32>,
    pub gid: Option<u32>,
    pub threads: Option<u64>,
    pub vm_peak: Option<u64>,
    pub vm_size: Option<u64>,
    pub vm_rss: Option<u64>,
    pub vm_hwm: Option<u64>,
}

pub open spec fn opt_text(s: Option<String>) -> Option<Seq<char>> {
    match s {
        Some(t) => Some(t@),
        None => None,
    }
}

impl StatusFields {
    pub open spec fn model(self) -> StatusModel {
        StatusModel {
            name: opt_text(self.name),
            state: opt_text(self.state),
            parent_pid: self.parent_pid,
            uid: self.uid,
            gid: self.gid,
            threads: self.threads,
            vm_peak: self.vm_peak,
            vm_size: self.vm_size,
            vm_rss: self.vm_rss,
            vm_hwm: self.vm_hwm,
        }
    }
}

/// Parses the text of `/proc/<pid>/status`.
pub fn parse_status(content: &str) -> (f: StatusFields)
    ensures
        f.model() == status_of(lines(content@)),
{
    let chars = chars_of(content);
    let ls = split_lines(chars.as_slice());
    let ghost lv = view_all(ls@);
    let mut f = StatusFields {
        name: None,
        state: None,
        parent_pid: None,
        uid: None,
        gid: None,
        threads: None,
        vm_peak: None,
        vm_size: None,
        vm_rss: None,
        vm_hwm: None,
    };
    let mut i: usize = 0;
    while i < ls.len()
        invariant
            i <= ls.len(),
            lv == view_all(ls@),
            lv.len() == ls@.len(),
            f.model() == status_of(lv.take(i as int)),
        decreases ls.len() - i,
    {
        assert(lv.take(i + 1).drop_last() =~= lv.take(i as int));
        assert(lv[i as int] == ls@[i as int]@);
        if let Some((key, raw)) = split_once_chars(ls[i].as_slice(), ':') {
            let value = trim_chars(raw.as_slice());
            let k = key.as_slice();
            if eq_str(k, "Name") {
                f.name = Some(string_of(value.as_slice()));
            } else if eq_str(k, "State") {
                f.state = Some(string_of(value.as_slice()));
            } else if eq_str(k, "PPid") {
                f.parent_pid = read_u32_chars(value.as_slice());
            } else if eq_str(k, "Uid") {
                f.uid = first_word_u32_chars(value.as_slice());
            } else if eq_str(k, "Gid") {
                f.gid = first_word_u32_chars(value.as_slice());
            } else if eq_str(k, "Threads") {
                f.threads = read_u64_chars(value.as_slice());
            } else if eq_str(k, "VmPeak") {
                f.vm_peak = status_kib_chars(value.as_slice());
            } else if eq_str(k, "VmSize") {
                f.vm_size = status_kib_chars(value.as_slice());
            } else if eq_str(k, "VmRSS") {
                f.vm_rss = status_kib_chars(value.as_slice());
            } else if eq_str(k, "VmHWM") {
                f.vm_hwm = status_kib_chars(value.as_slice());
            }
        }
        i += 1;
    }
    assert(lv.take(i as int) =~= lv);
    f
}

/// The parent a status file names: the first `PPid:` line whose value reads as
/// a `u32`.
pub open spec fn status_parent(ls: Seq<Seq<char>>) -> Option<u32>
    decreases ls.len(),
{
    if ls.len() == 0 {
        None
    } else {
        let here = match split_once(ls[0], ':') {
            Some((key, raw)) => if key == "PPid"@ {
                read_u32(trim(raw))
            } else {
                None
            },
            None => None,
        };
        match here {
            Some(p) => Some(p),
            None => status_parent(ls.drop_first()),
        }
    }
}

/// The parent pid a status file names.
pub fn parent_from_status(content: &str) -> (r: Option<u32>)
    ensures
        r == status_parent(lines(content@)),
{
    let chars = chars_of(content);
    let ls = split_lines(chars.as_slice());
    let ghost lv = view_all(ls@);
    let mut i: usize = 0;
    assert(lv.skip(0) =~= lv);
    while i < ls.len()
        invariant
            i <= ls.len(),
            lv == view_all(ls@),
            lv.len() == ls@.len(),
            lv == lines(content@),
            status_parent(lv) == status_parent(lv.skip(i as int)),
        decreases ls.len() - i,
    {
        assert(lv.skip(i as int)[0] == ls@[i as int]@);
        assert(lv.skip(i as int).drop_first() =~= lv.skip(i + 1));
        if let Some((key, raw)) = split_once_chars(ls[i].as_slice(), ':') {
            if eq_str(key.as_slice(), "PPid") {
                let value = trim_chars(raw.as_slice());
                if let Some(p) = read_u32_chars(value.as_slice()) {
                    proof {
                        let line = lv.skip(i as int)[0];
                        assert(line == ls@[i as int]@);
                        assert(split_once(line, ':') == Some((key@, raw@)));
                        assert(status_parent(lv.skip(i as int)) == Some(p));
                    }
                    return Some(p);
                }
            }
        }
        i += 1;
    }
    None
}

// ---------------------------------------------------------------------------
// /proc/<pid>/stat
// ---------------------------------------------------------------------------

/// Name, state and parent after reading a stat file over what status gave: the
/// command name between the first `(` and the last `)` fills a missing name,
/// the first word after the `)` a missing state, the second a missing parent.
/// `None` when the text has no `)`.
pub open spec fn stat_fill(
    name: Option<Seq<char>>,
    state: Option<Seq<char>>,
    parent: Option<u32>,
    content: Seq<char>,
) -> Option<(Option<Seq<char>>, Option<Seq<char>>, Option<u32>)> {
    let close = find_last(content, ')');
    if close < 0 {
        None
    } else {
        let before = content.take(close);
        let open = find_first(before, '(');
        let new_name = if name is None && open >= 0 {
            Some(before.skip(open + 1))
        } else {
            name
        };
        let rest = words(content.skip(close + 1));
        let new_state = if state is None {
            if rest.len() > 0 {
                Some(rest[0])
            } else {
                None
            }
        } else {
            state
        };
        let new_parent = if parent is None {
            if rest.len() > 1 {
                read_u32(rest[1])
            } else {
                None
            }
        } else {
            parent
        };
        Some((new_name, new_state, new_parent))
    }
}

/// The message of a stat file without the `)` that ends the command name.
pub open spec fn missing_comm_terminator() -> Seq<char> {
    "missing comm terminator"@
}

// ---------------------------------------------------------------------------
// /proc/<pid>/cmdline
// ---------------------------------------------------------------------------

/// Arguments completed so far and the one being read, after reading `b`.
pub open spec fn nul_fold(b: Seq<u8>) -> (Seq<Seq<u8>>, Seq<u8>)
    decreases b.len(),
{
    if b.len() == 0 {
        (Seq::empty(), Seq::empty())
    } else {
        let (done, cur) = nul_fold(b.drop_last());
        if b.last() == 0 {
            (done.push(cur), Seq::empty())
        } else {
            (done, cur.push(b.last()))
        }
    }
}

/// The arguments of a NUL-separated command line: the parts between NUL bytes,
/// without the empty part after a final NUL; empty parts inside stay.
pub open spec fn nul_arguments(b: Seq<u8>) -> Seq<Seq<u8>> {
    let (done, cur) = nul_fold(b);
    if cur.len() == 0 {
        done
    } else {
        done.push(cur)
    }
}

pub open spec fn bytes_all(v: Seq<Vec<u8>>) -> Seq<Seq<u8>> {
    v.map_values(|w: Vec<u8>| w@)
}

/// Splits `/proc/<pid>/cmdline` into its arguments.
pub fn split_nul_arguments(bytes: &[u8]) -> (parts: Vec<Vec<u8>>)
    ensures
        bytes_all(parts@) == nul_arguments(bytes@),
{
    let mut done: Vec<Vec<u8>> = Vec::new();
    let mut cur: Vec<u8> = Vec::new();
    let mut i: usize = 0;
    while i < bytes.len()
        invariant
            i <= bytes.len(),
            (bytes_all(done@), cur@) == nul_fold(bytes@.take(i as int)),
        decreases bytes.len() - i,
    {
        assert(bytes@.take(i + 1).drop_last() =~= bytes@.take(i as int));
        let ghost old_done = bytes_all(done@);
        let ghost old_cur = cur@;
        if bytes[i] == 0 {
            let part = cur;
            done.push(part);
            cur = Vec::new();
            assert(bytes_all(done@) =~= old_done.push(old_cur));
        } else {
            cur.push(bytes[i]);
        }
        i += 1;
    }
    assert(bytes@.take(i as int) =~= bytes@);
    if cur.len() > 0 {
        let ghost old_done = bytes_all(done@);
        let ghost old_cur = cur@;
        done.push(cur);
        assert(bytes_all(done@) =~= old_done.push(old_cur));
    }
    done
}

// ---------------------------------------------------------------------------
// Text for people and shells
// ---------------------------------------------------------------------------

/// Escapes text for human output (std's `char::escape_default` on every
/// character).
pub fn escape_human(value: &str) -> (s: String)
    ensures
        s@ == escape_all(value@),
{
    escape_text(value)
}

/// Escapes one command-line argument for human output; the empty argument
/// shows as `""`.
pub fn escape_human_argument(value: &str) -> (s: String)
    ensures
        s@ == escape_argument(value@),
{
    escape_argument_text(value)
}

/// Quotes an argument for a suggested command; the empty argument becomes `''`.
pub fn shell_quote(value: &str) -> (s: String)
    ensures
        s@ == shell_quote_arg(value@),
{
    quote_arg(value)
}

/// Formats a byte count with binary units.
pub fn human_bytes(bytes: u64) -> (s: String)
    ensures
        s@ == crate::units::human_bytes_spec(bytes),
{
    crate::units::human_bytes(bytes)
}

// ---------------------------------------------------------------------------
// Reading a stat file
// ---------------------------------------------------------------------------

/// Fills a missing name, state and parent from the text of `/proc/<pid>/stat`;
/// fails when the command name has no closing `)`.
pub fn fill_from_stat(
    name: &Option<String>,
    state: &Option<String>,
    parent: Option<u32>,
    content: &str,
) -> (r: Result<(Option<String>, Option<String>, Option<u32>), String>)
    ensures
        match r {
            Ok((n, s, p)) => stat_fill(opt_text(*name), opt_text(*state), parent, content@) == Some(
                (opt_text(n), opt_text(s), p),
            ),
            Err(e) => stat_fill(opt_text(*name), opt_text(*state), parent, content@) is None && e@
                == missing_comm_terminator(),
        },
{
    let c = chars_of(content);
    let found = rfind_char(c.as_slice(), ')');
    if found.is_none() {
        return Err(owned("missing comm terminator"));
    }
    let close = found.unwrap();
    assert(close < c@.len());
    let before = slice_chars(c.as_slice(), 0, close);
    assert(before@ =~= c@.take(close as int));
    let new_name = match name {
        Some(n) => Some(copy_string(n)),
        None => match find_char(before.as_slice(), '(') {
            Some(open) => {
                let v = slice_chars(before.as_slice(), open + 1, before.len());
                assert(v@ =~= before@.skip(open + 1));
                Some(string_of(v.as_slice()))
            },
            None => None,
        },
    };
    let after = slice_chars(c.as_slice(), close + 1, c.len());
    assert(after@ =~= c@.skip(close + 1));
    let rest = split_words(after.as_slice());
    let new_state = match state {
        Some(s) => Some(copy_string(s)),
        None => if rest.len() > 0 {
            assert(view_all(rest@)[0] == rest@[0]@);
            Some(string_of(rest[0].as_slice()))
        } else {
            None
        },
    };
    let new_parent = match parent {
        Some(p) => Some(p),
        None => if rest.len() > 1 {
            assert(view_all(rest@)[1] == rest@[1]@);
            read_u32_chars(rest[1].as_slice())
        } else {
            None
        },
    };
    Ok((new_name, new_state, new_parent))
}

// ---------------------------------------------------------------------------
// Inspection
// ---------------------------------------------------------------------------

/// `/proc/<pid>` for a pid.
pub open spec fn proc_dir(pid: u32) -> Seq<char> {
    "/proc/"@ + dec(pid as nat)
}

/// The warning for a process that `/proc` does not show.
pub open spec fn not_visible_text(pid: u32) -> Seq<char> {
    proc_dir(pid) + " does not exist; process is not visible"@
}

/// The warning for a procfs file `what` that could not be read.
pub open spec fn unavailable_text(what: Seq<char>, pid: u32, error: Seq<char>) -> Seq<char> {
    what + " unavailable for pid "@ + dec(pid as nat) + ": "@ + error
}

/// The warning for a procfs link (`exe`, `cwd`) that could not be read.
pub open spec fn link_unavailable_text(pid: u32, link: Seq<char>, error: Seq<char>) -> Seq<char> {
    proc_dir(pid) + "/"@ + link + " unavailable: "@ + error
}

/// The warning for a `/proc` directory that could not be listed.
pub open spec fn scan_unavailable_text(error: Seq<char>) -> Seq<char> {
    "/proc scan unavailable: "@ + error
}

/// What status says of a process whose status file reads as `status`.
pub open spec fn status_result(status: Result<String, String>) -> StatusModel {
    match status {
        Ok(c) => status_of(lines(c@)),
        Err(_) => status_none(),
    }
}

/// Name, state and parent after status and stat.
pub open spec fn identity(
    status: Result<String, String>,
    stat: Result<String, String>,
) -> (Option<Seq<char>>, Option<Seq<char>>, Option<u32>) {
    let sm = status_result(status);
    let base = (sm.name, sm.state, sm.parent_pid);
    match stat {
        Ok(c) => match stat_fill(sm.name, sm.state, sm.parent_pid, c@) {
            Some(t) => t,
            None => base,
        },
        Err(_) => base,
    }
}

/// The warnings of an inspection of a visible process, in the order the files
/// are read: status, stat, cmdline, exe, cwd, the `/proc` scan for children.
pub open spec fn inspection_warnings(
    pid: u32,
    status: Result<String, String>,
    stat: Result<String, String>,
    cmdline: Result<Vec<u8>, String>,
    exe: Result<String, String>,
    cwd: Result<String, String>,
    children: Result<Vec<u32>, String>,
) -> Seq<Seq<char>> {
    let sm = status_result(status);
    let w1: Seq<Seq<char>> = match status {
        Err(e) => seq![unavailable_text("status"@, pid, e@)],
        Ok(_) => Seq::empty(),
    };
    let w2: Seq<Seq<char>> = match stat {
        Err(e) => seq![unavailable_text("stat"@, pid, e@)],
        Ok(c) => if stat_fill(sm.name, sm.state, sm.parent_pid, c@) is None {
            seq![unavailable_text("stat"@, pid, missing_comm_terminator())]
        } else {
            Seq::empty()
        },
    };
    let w3: Seq<Seq<char>> = match cmdline {
        Err(e) => seq![unavailable_text("cmdline"@, pid, e@)],
        Ok(_) => Seq::empty(),
    };
    let w4: Seq<Seq<char>> = match exe {
        Err(e) => seq![link_unavailable_text(pid, "exe"@, e@)],
        Ok(_) => Seq::empty(),
    };
    let w5: Seq<Seq<char>> = match cwd {
        Err(e) => seq![link_unavailable_text(pid, "cwd"@, e@)],
        Ok(_) => Seq::empty(),
    };
    let w6: Seq<Seq<char>> = match children {
        Err(e) => seq![scan_unavailable_text(e@)],
        Ok(_) => Seq::empty(),
    };
    w1 + w2 + w3 + w4 + w5 + w6
}

/// The lossy text of each argument.
pub open spec fn lossy_all(parts: Seq<Seq<u8>>) -> Seq<Seq<char>> {
    parts.map_values(|p: Seq<u8>| utf8_lossy(p))
}

/// The hexadecimal text of each argument.
pub open spec fn hex_all(parts: Seq<Seq<u8>>) -> Seq<Seq<char>> {
    parts.map_values(|p: Seq<u8>| hex_of(p))
}

pub open spec fn link_text(r: Result<String, String>) -> Option<Seq<char>> {
    match r {
        Ok(t) => Some(t@),
        Err(_) => None,
    }
}

/// The arguments as text and as hexadecimal bytes.
fn command_line_texts(bytes: &[u8]) -> (r: (Vec<String>, Vec<String>))
    ensures
        texts(r.0@) == lossy_all(nul_arguments(bytes@)),
        texts(r.1@) == hex_all(nul_arguments(bytes@)),
{
    let parts = split_nul_arguments(bytes);
    let ghost pv = bytes_all(parts@);
    let mut text: Vec<String> = Vec::new();
    let mut hex: Vec<String> = Vec::new();
    let mut i: usize = 0;
    while i < parts.len()
        invariant
            i <= parts.len(),
            pv == bytes_all(parts@),
            pv.len() == parts@.len(),
            texts(text@) == lossy_all(pv.take(i as int)),
            texts(hex@) == hex_all(pv.take(i as int)),
        decreases parts.len() - i,
    {
        assert(pv[i as int] == parts@[i as int]@);
        let ghost t0 = texts(text@);
        let ghost h0 = texts(hex@);
        let t = lossy_text(parts[i].as_slice());
        let h = bytes_hex(parts[i].as_slice());
        let ghost tv = t@;
        let ghost hv = h@;
        text.push(t);
        hex.push(h);
        assert(texts(text@) =~= t0.push(tv));
        assert(texts(hex@) =~= h0.push(hv));
        assert(lossy_all(pv.take(i + 1)) =~= lossy_all(pv.take(i as int)).push(utf8_lossy(pv[i as int])));
        assert(hex_all(pv.take(i + 1)) =~= hex_all(pv.take(i as int)).push(hex_of(pv[i as int])));
        i += 1;
    }
    assert(pv.take(i as int) =~= pv);
    (text, hex)
}

fn push_text(v: &mut Vec<String>, s: String)
    ensures
        texts(final(v)@) == texts(old(v)@).push(s@),
{
    let ghost before = texts(v@);
    let ghost sv = s@;
    v.push(s);
    assert(texts(v@) =~= before.push(sv));
}

fn make_unavailable(what: &str, pid: u32, error: &String) -> (s: String)
    ensures
        s@ == unavailable_text(what@, pid, error@),
{
    let mut s = owned(what);
    push_str(&mut s, " unavailable for pid ");
    push_dec(&mut s, pid as u64);
    push_str(&mut s, ": ");
    push_str(&mut s, error.as_str());
    s
}

fn make_proc_dir(pid: u32) -> (s: String)
    ensures
        s@ == proc_dir(pid),
{
    let mut s = owned("/proc/");
    push_dec(&mut s, pid as u64);
    s
}

fn make_link_unavailable(pid: u32, link: &str, error: &String) -> (s: String)
    ensures
        s@ == link_unavailable_text(pid, link@, error@),
{
    let mut s = make_proc_dir(pid);
    push_str(&mut s, "/");
    push_str(&mut s, link);
    push_str(&mut s, " unavailable: ");
    push_str(&mut s, error.as_str());
    s
}

fn append_texts(a: &mut Vec<String>, b: Vec<String>)
    ensures
        texts(final(a)@) == texts(old(a)@) + texts(b@),
{
    let mut b = b;
    let ghost av = a@;
    let ghost bv = b@;
    a.append(&mut b);
    assert(texts(a@) =~= texts(av) + texts(bv));
}

/// The inspection of a process `/proc` does not show.
fn not_visible(pid: u32) -> (r: ProcInspection)
    ensures
        r.pid == pid,
        !r.exists,
        r.user is None,
        r.name is None && r.state is None && r.parent_pid is None,
        r.uid is None && r.gid is None && r.threads is None,
        r.executable is None && r.cwd is None,
        r.child_pids@.len() == 0 && r.command_line@.len() == 0,
        r.command_line_bytes_hex@.len() == 0,
        r.memory.vm_peak_bytes is None && r.memory.vm_size_bytes is None,
        r.memory.vm_rss_bytes is None && r.memory.vm_hwm_bytes is None,
        texts(r.warnings@) == seq![not_visible_text(pid)],
{
    let mut warnings: Vec<String> = Vec::new();
    let mut w = make_proc_dir(pid);
    push_str(&mut w, " does not exist; process is not visible");
    push_text(&mut warnings, w);
    assert(texts(warnings@) =~= seq![not_visible_text(pid)]);
    ProcInspection {
        pid,
        exists: false,
        name: None,
        state: None,
        parent_pid: None,
        child_pids: Vec::new(),
        command_line: Vec::new(),
        command_line_bytes_hex: Vec::new(),
        executable: None,
        cwd: None,
        uid: None,
        user: None,
        gid: None,
        threads: None,
        memory: ProcMemory::default(),
        warnings,
    }
}

/// One warning or none.
pub open spec fn warning_if(text: Option<Seq<char>>) -> Seq<Seq<char>> {
    match text {
        Some(t) => seq![t],
        None => Seq::empty(),
    }
}

fn one_warning(w: Option<String>) -> (v: Vec<String>)
    ensures
        texts(v@) == warning_if(opt_text(w)),
{
    let mut v: Vec<String> = Vec::new();
    if let Some(t) = w {
        push_text(&mut v, t);
    }
    assert(texts(v@) =~= warning_if(opt_text(w)));
    v
}

/// The status stage: the fields, and its warning.
fn status_stage(pid: u32, status: &Result<String, String>) -> (r: (StatusFields, Option<String>))
    ensures
        r.0.model() == status_result(*status),
        opt_text(r.1) == match status {
            Err(e) => Some(unavailable_text("status"@, pid, e@)),
            Ok(_) => None,
        },
{
    match status {
        Ok(c) => (parse_status(c.as_str()), None),
        Err(e) => (
            StatusFields {
                name: None,
                state: None,
                parent_pid: None,
                uid: None,
                gid: None,
                threads: None,
                vm_peak: None,
                vm_size: None,
                vm_rss: None,
                vm_hwm: None,
            },
            Some(make_unavailable("status", pid, e)),
        ),
    }
}

/// The stat stage: name, state and parent, and its warning.
fn stat_stage(
    pid: u32,
    stat: &Result<String, String>,
    name: Option<String>,
    state: Option<String>,
    parent: Option<u32>,
) -> (r: (Option<String>, Option<String>, Option<u32>, Option<String>))
    ensures
        ({
            let base = (opt_text(name), opt_text(state), parent);
            let id = match stat {
                Ok(c) => match stat_fill(base.0, base.1, base.2, c@) {
                    Some(t) => t,
                    None => base,
                },
                Err(_) => base,
            };
            (opt_text(r.0), opt_text(r.1), r.2) == id
        }),
        opt_text(r.3) == match stat {
            Err(e) => Some(unavailable_text("stat"@, pid, e@)),
            Ok(c) => if stat_fill(opt_text(name), opt_text(state), parent, c@) is None {
                Some(unavailable_text("stat"@, pid, missing_comm_terminator()))
            } else {
                None
            },
        },
{
    match stat {
        Ok(c) => match fill_from_stat(&name, &state, parent, c.as_str()) {
            Ok((n, s, p)) => (n, s, p, None),
            Err(e) => (name, state, parent, Some(make_unavailable("stat", pid, &e))),
        },
        Err(e) => (name, state, parent, Some(make_unavailable("stat", pid, e))),
    }
}

/// The inspection of process `pid`, from what reading its procfs files gave:
/// the text of `status` and `stat`, the bytes of `cmdline`, the targets of the
/// `exe` and `cwd` links, and the children found by scanning `/proc` (see
/// [`children_of`]), or the error text of each read that failed. Nothing is read
/// for a process `/proc` does not show. The user name is left to the caller.
pub fn inspection_from(
    pid: u32,
    exists: bool,
    status: Result<String, String>,
    stat: Result<String, String>,
    cmdline: Result<Vec<u8>, String>,
    exe: Result<String, String>,
    cwd: Result<String, String>,
    children: Result<Vec<u32>, String>,
) -> (r: ProcInspection)
    ensures
        r.pid == pid,
        r.exists == exists,
        r.user is None,
        !exists ==> {
            &&& r.name is None && r.state is None && r.parent_pid is None
            &&& r.uid is None && r.gid is None && r.threads is None
            &&& r.executable is None && r.cwd is None
            &&& r.child_pids@.len() == 0 && r.command_line@.len() == 0
            &&& r.command_line_bytes_hex@.len() == 0
            &&& r.memory.vm_peak_bytes is None && r.memory.vm_size_bytes is None
            &&& r.memory.vm_rss_bytes is None && r.memory.vm_hwm_bytes is None
            &&& texts(r.warnings@) == seq![not_visible_text(pid)]
        },
        exists ==> {
            let sm = status_result(status);
            let id = identity(status, stat);
            &&& opt_text(r.name) == id.0
            &&& opt_text(r.state) == id.1
            &&& r.parent_pid == id.2
            &&& r.uid == sm.uid && r.gid == sm.gid && r.threads == sm.threads
            &&& r.memory.vm_peak_bytes == sm.vm_peak && r.memory.vm_size_bytes == sm.vm_size
            &&& r.memory.vm_rss_bytes == sm.vm_rss && r.memory.vm_hwm_bytes == sm.vm_hwm
            &&& texts(r.command_line@) == match cmdline {
                Ok(b) => lossy_all(nul_arguments(b@)),
                Err(_) => Seq::empty(),
            }
            &&& texts(r.command_line_bytes_hex@) == match cmdline {
                Ok(b) => hex_all(nul_arguments(b@)),
                Err(_) => Seq::empty(),
            }
            &&& opt_text(r.executable) == link_text(exe)
            &&& opt_text(r.cwd) == link_text(cwd)
            &&& r.child_pids@ == match children {
                Ok(c) => c@,
                Err(_) => Seq::empty(),
            }
            &&& texts(r.warnings@) == inspection_warnings(pid, status, stat, cmdline, exe, cwd, children)
        },
{
    if !exists {
        return not_visible(pid);
    }
    let (fields, w1) = status_stage(pid, &status);
    let ghost sm = fields.model();
    let StatusFields { name, state, parent_pid, uid, gid, threads, vm_peak, vm_size, vm_rss, vm_hwm } = fields;
    let (name, state, parent_pid, w2) = stat_stage(pid, &stat, name, state, parent_pid);
    let (command_line, command_line_bytes_hex, w3) = match &cmdline {
        Ok(b) => {
            let (t, h) = command_line_texts(b.as_slice());
            (t, h, None)
        },
        Err(e) => (Vec::new(), Vec::new(), Some(make_unavailable("cmdline", pid, e))),
    };
    let (executable, w4) = match &exe {
        Ok(t) => (Some(copy_string(t)), None),
        Err(e) => (None, Some(make_link_unavailable(pid, "exe", e))),
    };
    let (cwd_text, w5) = match &cwd {
        Ok(t) => (Some(copy_string(t)), None),
        Err(e) => (None, Some(make_link_unavailable(pid, "cwd", e))),
    };
    let (child_pids, w6) = match children {
        Ok(c) => (c, None),
        Err(e) => {
            let mut w = owned("/proc scan unavailable: ");
            push_str(&mut w, e.as_str());
            (Vec::new(), Some(w))
        },
    };
    let ghost g1 = warning_if(opt_text(w1));
    let ghost g2 = warning_if(opt_text(w2));
    let ghost g3 = warning_if(opt_text(w3));
    let ghost g4 = warning_if(opt_text(w4));
    let ghost g5 = warning_if(opt_text(w5));
    let ghost g6 = warning_if(opt_text(w6));
    let mut warnings = one_warning(w1);
    append_texts(&mut warnings, one_warning(w2));
    append_texts(&mut warnings, one_warning(w3));
    append_texts(&mut warnings, one_warning(w4));
    append_texts(&mut warnings, one_warning(w5));
    append_texts(&mut warnings, one_warning(w6));
    assert(texts(warnings@) == g1 + g2 + g3 + g4 + g5 + g6);
    ProcInspection {
        pid,
        exists,
        name,
        state,
        parent_pid,
        child_pids,
        command_line,
        command_line_bytes_hex,
        executable,
        cwd: cwd_text,
        uid,
        user: None,
        gid,
        threads,
        memory: ProcMemory {
            vm_peak_bytes: vm_peak,
            vm_size_bytes: vm_size,
            vm_rss_bytes: vm_rss,
            vm_hwm_bytes: vm_hwm,
        },
        warnings,
    }
}

// ---------------------------------------------------------------------------
// Children and the process list
// ---------------------------------------------------------------------------

/// The pids among `entries` (pid and status text of each visible process) whose
/// status names `pid` as parent, in the order given.
pub open spec fn children_in(pid: u32, entries: Seq<(u32, Seq<char>)>) -> Seq<u32>
    decreases entries.len(),
{
    if entries.len() == 0 {
        Seq::empty()
    } else {
        let rest = children_in(pid, entries.drop_last());
        if status_parent(lines(entries.last().1)) == Some(pid) {
            rest.push(entries.last().0)
        } else {
            rest
        }
    }
}

pub open spec fn entries_model(v: Seq<(u32, String)>) -> Seq<(u32, Seq<char>)> {
    v.map_values(|e: (u32, String)| (e.0, e.1@))
}

/// The children of process `pid`, in ascending order, from the pid and status
/// text of every process a scan of `/proc` could read.
pub fn children_of(pid: u32, entries: &Vec<(u32, String)>) -> (r: Vec<u32>)
    ensures
        r@.to_multiset() == children_in(pid, entries_model(entries@)).to_multiset(),
        crate::order::sorted_by_order(r@),
{
    let ghost em = entries_model(entries@);
    let mut found: Vec<u32> = Vec::new();
    let mut i: usize = 0;
    while i < entries.len()
        invariant
            i <= entries.len(),
            em == entries_model(entries@),
            em.len() == entries@.len(),
            found@ == children_in(pid, em.take(i as int)),
        decreases entries.len() - i,
    {
        assert(em.take(i + 1).drop_last() =~= em.take(i as int));
        assert(em[i as int] == (entries@[i as int].0, entries@[i as int].1@));
        let (child, status) = &entries[i];
        if parent_from_status(status.as_str()) == Some(pid) {
            found.push(*child);
        }
        i += 1;
    }
    assert(em.take(i as int) =~= em);
    crate::order::sort_by_order(found)
}

impl crate::order::TotalOrder for ProcSummary {
    /// Process summaries sort by pid.
    open spec fn ordered_le(&self, other: &Self) -> bool {
        self.pid <= other.pid
    }

    proof fn ordered_total(a: Self, b: Self) {
    }

    proof fn ordered_trans(a: Self, b: Self, c: Self) {
    }

    fn goes_before(&self, other: &Self) -> (r: bool) {
        self.pid < other.pid
    }
}

/// A process id named by a `/proc` entry, if the name is one.
pub fn pid_of_name(name: &str) -> (r: Option<u32>)
    ensures
        r == read_u32(name@),
{
    let v = chars_of(name);
    read_u32_chars(v.as_slice())
}

/// The summary of process `pid` from its status text and, when it could be
/// read, its command line. The user name is left to the caller.
pub fn summary_from(pid: u32, status: &str, cmdline: Option<Vec<u8>>) -> (r: ProcSummary)
    ensures
        ({
            let sm = status_of(lines(status@));
            &&& r.pid == pid
            &&& r.parent_pid == sm.parent_pid
            &&& opt_text(r.name) == sm.name
            &&& opt_text(r.state) == sm.state
            &&& r.uid == sm.uid
            &&& r.user is None
            &&& r.vm_rss_bytes == sm.vm_rss
            &&& texts(r.command_line@) == match cmdline {
                Some(b) => lossy_all(nul_arguments(b@)),
                None => Seq::empty(),
            }
        }),
{
    let f = parse_status(status);
    let command_line = match &cmdline {
        Some(b) => command_line_texts(b.as_slice()).0,
        None => Vec::new(),
    };
    ProcSummary {
        pid,
        parent_pid: f.parent_pid,
        name: f.name,
        state: f.state,
        uid: f.uid,
        user: None,
        vm_rss_bytes: f.vm_rss,
        command_line,
    }
}

/// The warning for a process that vanished or could not be read while listing.
pub open spec fn list_warning_text(pid: u32, error: Seq<char>) -> Seq<char> {
    "pid "@ + dec(pid as nat) + " unavailable during list: "@ + error
}

/// The warning for a process that could not be read while listing.
pub fn list_warning(pid: u32, error: &String) -> (s: String)
    ensures
        s@ == list_warning_text(pid, error@),
{
    let mut s = owned("pid ");
    push_dec(&mut s, pid as u64);
    push_str(&mut s, " unavailable during list: ");
    push_str(&mut s, error.as_str());
    s
}

/// The warning for a `/proc` directory that could not be listed.
pub fn scan_warning(error: &String) -> (s: String)
    ensures
        s@ == scan_unavailable_text(error@),
{
    let mut s = owned("/proc scan unavailable: ");
    push_str(&mut s, error.as_str());
    s
}

/// The process list: the summaries in ascending pid order, their count, and
/// the warnings of the scan.
pub fn proc_list(summaries: Vec<ProcSummary>, warnings: Vec<String>) -> (l: ProcList)
    ensures
        l.processes@.to_multiset() == summaries@.to_multiset(),
        l.processes@.len() == summaries@.len(),
        crate::order::sorted_by_order(l.processes@),
        exists|p: Seq<int>| #[trigger] crate::order::stable_arrangement(summaries@, l.processes@, p),
        l.process_count == summaries@.len(),
        l.warnings == warnings,
{
    let processes = crate::order::sort_by_order(summaries);
    let process_count = processes.len();
    ProcList { processes, process_count, warnings }
}

// ---------------------------------------------------------------------------
// Agent reports
// ---------------------------------------------------------------------------

/// How a process is named in a summary.
pub open spec fn process_label(name: Option<Seq<char>>) -> Seq<char> {
    match name {
        Some(n) => if n.len() > 0 {
            n
        } else {
            "unknown process"@
        },
        None => "unknown process"@,
    }
}

/// The one-line summary of an inspection.
pub open spec fn inspect_summary(i: ProcInspection) -> Seq<char> {
    if i.exists {
        "PID "@ + dec(i.pid as nat) + " ("@ + process_label(opt_text(i.name)) + ") is "@ + match opt_text(
            i.state,
        ) {
            Some(s) => s,
            None => "unknown state"@,
        } + " with parent "@ + match i.parent_pid {
            Some(p) => dec(p as nat),
            None => "unknown parent"@,
        } + "."@
    } else {
        "PID "@ + dec(i.pid as nat) + " is not visible in /proc."@
    }
}

/// How much an inspection needs attention.
pub open spec fn inspect_severity(i: ProcInspection) -> Severity {
    if !i.exists {
        Severity::Warning
    } else if i.warnings@.len() == 0 {
        Severity::Normal
    } else {
        Severity::Info
    }
}

pub open spec fn opt_u32(n: Option<u32>) -> Option<u64> {
    match n {
        Some(k) => Some(k as u64),
        None => None,
    }
}

fn opt_u32_exec(n: Option<u32>) -> (r: Option<u64>)
    ensures
        r == opt_u32(n),
{
    match n {
        Some(k) => Some(k as u64),
        None => None,
    }
}

fn inspect_summary_text(i: &ProcInspection) -> (s: String)
    ensures
        s@ == inspect_summary(*i),
{
    let mut s = owned("PID ");
    push_dec(&mut s, i.pid as u64);
    if !i.exists {
        push_str(&mut s, " is not visible in /proc.");
        return s;
    }
    push_str(&mut s, " (");
    match &i.name {
        Some(n) => if n.as_str().is_empty() {
            push_str(&mut s, "unknown process");
        } else {
            push_str(&mut s, n.as_str());
        },
        None => push_str(&mut s, "unknown process"),
    }
    push_str(&mut s, ") is ");
    match &i.state {
        Some(t) => push_str(&mut s, t.as_str()),
        None => push_str(&mut s, "unknown state"),
    }
    push_str(&mut s, " with parent ");
    match i.parent_pid {
        Some(p) => push_dec(&mut s, p as u64),
        None => push_str(&mut s, "unknown parent"),
    }
    push_str(&mut s, ".");
    s
}

/// The agent report of a process inspection.
pub fn agent_report(inspection: &ProcInspection, generated_at: String) -> (r: AgentReport)
    ensures
        r.generated_at == generated_at,
        r.subject.domain@ == "proc"@ && r.subject.command@ == "inspect"@,
        r.subject.target matches Some(t) && t@ == dec(inspection.pid as nat),
        r.summary@ == inspect_summary(*inspection),
        r.severity == inspect_severity(*inspection),
        r.facts@.len() == 5,
        fact_is(
            r.facts@[0],
            "process_exists"@,
            Severity::Info,
            seq![proc_dir(inspection.pid) + " exists: "@ + bool_text(inspection.exists)],
        ),
        r.facts@[0].value == FactValue::Bool(inspection.exists),
        fact_is(r.facts@[1], "process_state"@, Severity::Info, seq!["parsed from /proc/<pid>/status or /proc/<pid>/stat"@]),
        text_value(r.facts@[1].value, opt_text(inspection.state)),
        fact_is(r.facts@[2], "parent_pid"@, Severity::Info, seq!["parsed from /proc/<pid>/status or /proc/<pid>/stat"@]),
        num_value(r.facts@[2].value, opt_u32(inspection.parent_pid)),
        fact_is(r.facts@[3], "child_pid_count"@, Severity::Info, seq!["scanned visible /proc numeric entries for matching PPid"@]),
        r.facts@[3].value == FactValue::Number(inspection.child_pids@.len() as u64),
        fact_is(r.facts@[4], "rss_bytes"@, Severity::Info, seq!["parsed VmRSS from /proc/<pid>/status"@]),
        num_value(r.facts@[4].value, inspection.memory.vm_rss_bytes),
        texts(r.interpretation@) == if inspection.warnings@.len() == 0 {
            Seq::<Seq<char>>::empty()
        } else {
            seq![dec(inspection.warnings@.len() as nat)
                + " process fields had collection warnings; process may have exited or permissions may be limited."@]
        },
        r.safe_next_steps@.len() == 2,
        read_only_step(
            r.safe_next_steps@[0],
            "bbt --json proc inspect "@ + dec(inspection.pid as nat),
            "Fetch complete structured process inspection data"@,
        ),
        read_only_step(r.safe_next_steps@[1], "bbt --agent host snapshot"@, "Inspect surrounding host pressure and context"@),
        r.risky_next_steps@.len() == 0,
{
    let severity = if !inspection.exists {
        Severity::Warning
    } else if inspection.warnings.len() == 0 {
        Severity::Normal
    } else {
        Severity::Info
    };
    let pid_text = crate::text::dec_string(inspection.pid as u64);
    let subject = Subject::new("proc", "inspect", Some(pid_text.as_str()));
    let summary = inspect_summary_text(inspection);
    let mut ev = make_proc_dir(inspection.pid);
    push_str(&mut ev, " exists: ");
    push_bool(&mut ev, inspection.exists);
    let report = AgentReport::new(generated_at, subject, summary, severity)
        .with_fact(fact_said("process_exists", FactValue::Bool(inspection.exists), Severity::Info, ev))
        .with_fact(
            fact_with(
                "process_state",
                text_or_null(&inspection.state),
                Severity::Info,
                "parsed from /proc/<pid>/status or /proc/<pid>/stat",
            ),
        )
        .with_fact(
            fact_with(
                "parent_pid",
                num_or_null(opt_u32_exec(inspection.parent_pid)),
                Severity::Info,
                "parsed from /proc/<pid>/status or /proc/<pid>/stat",
            ),
        )
        .with_fact(
            fact_with(
                "child_pid_count",
                FactValue::Number(inspection.child_pids.len() as u64),
                Severity::Info,
                "scanned visible /proc numeric entries for matching PPid",
            ),
        )
        .with_fact(
            fact_with(
                "rss_bytes",
                num_or_null(inspection.memory.vm_rss_bytes),
                Severity::Info,
                "parsed VmRSS from /proc/<pid>/status",
            ),
        );
    let ghost before = report.interpretation@;
    let report = if inspection.warnings.len() == 0 {
        report
    } else {
        let mut t = crate::text::dec_string(inspection.warnings.len() as u64);
        push_str(
            &mut t,
            " process fields had collection warnings; process may have exited or permissions may be limited.",
        );
        report.with_interpretation(t)
    };
    let mut cmd = owned("bbt --json proc inspect ");
    push_dec(&mut cmd, inspection.pid as u64);
    let report = report.with_safe_next_step(
        NextStep::read_only(cmd.as_str(), "Fetch complete structured process inspection data"),
    ).with_safe_next_step(
        NextStep::read_only("bbt --agent host snapshot", "Inspect surrounding host pressure and context"),
    );
    assert(texts(report.interpretation@) =~= if inspection.warnings@.len() == 0 {
        Seq::<Seq<char>>::empty()
    } else {
        seq![dec(inspection.warnings@.len() as nat)
            + " process fields had collection warnings; process may have exited or permissions may be limited."@]
    });
    report
}

/// How many processes run as `uid`.
pub open spec fn count_uid(s: Seq<ProcSummary>, uid: u32) -> nat
    decreases s.len(),
{
    if s.len() == 0 {
        0
    } else {
        count_uid(s.drop_last(), uid) + if s.last().uid == Some(uid) {
            1nat
        } else {
            0nat
        }
    }
}

/// Whether a process state is a zombie (`Z ...`).
pub open spec fn is_zombie(p: ProcSummary) -> bool {
    match p.state {
        Some(t) => t@.len() > 0 && t@[0] == 'Z',
        None => false,
    }
}

/// How many processes are zombies.
pub open spec fn count_zombies(s: Seq<ProcSummary>) -> nat
    decreases s.len(),
{
    if s.len() == 0 {
        0
    } else {
        count_zombies(s.drop_last()) + if is_zombie(s.last()) {
            1nat
        } else {
            0nat
        }
    }
}

/// The index of the process with the largest resident set, the last of equals
/// (as `Iterator::max_by_key` picks), or -1 when no process reports one.
pub open spec fn top_rss_index(s: Seq<ProcSummary>) -> int
    decreases s.len(),
{
    if s.len() == 0 {
        -1
    } else {
        let prev = top_rss_index(s.drop_last());
        match s.last().vm_rss_bytes {
            None => prev,
            Some(r) => if prev < 0 || s[prev].vm_rss_bytes->0 <= r {
                s.len() - 1
            } else {
                prev
            },
        }
    }
}

proof fn lemma_top_rss_index(s: Seq<ProcSummary>)
    ensures
        -1 <= top_rss_index(s) < s.len(),
        top_rss_index(s) >= 0 ==> s[top_rss_index(s)].vm_rss_bytes is Some,
        top_rss_index(s) >= 0 ==> forall|j: int| 0 <= j < s.len() && (#[trigger] s[j]).vm_rss_bytes is Some ==> s[j].vm_rss_bytes->0 <= s[top_rss_index(s)].vm_rss_bytes->0,
        top_rss_index(s) < 0 ==> forall|j: int| 0 <= j < s.len() ==> #[trigger] s[j].vm_rss_bytes is None,
    decreases s.len(),
{
    if s.len() > 0 {
        lemma_top_rss_index(s.drop_last());
        let prev = top_rss_index(s.drop_last());
        assert forall|j: int| 0 <= j < s.len() - 1 implies s.drop_last()[j] == #[trigger] s[j] by {}
    }
}

/// The counts and the largest process of a list: processes of `uid`, of root,
/// zombies, and the index of the largest resident set.
fn list_counts(ps: &Vec<ProcSummary>, uid: u32) -> (r: (u64, u64, u64, Option<usize>))
    ensures
        r.0 == count_uid(ps@, uid),
        r.1 == count_uid(ps@, 0),
        r.2 == count_zombies(ps@),
        match r.3 {
            Some(i) => i as int == top_rss_index(ps@),
            None => top_rss_index(ps@) == -1,
        },
{
    let mut mine: u64 = 0;
    let mut root: u64 = 0;
    let mut zombies: u64 = 0;
    let mut top: Option<usize> = None;
    let mut i: usize = 0;
    while i < ps.len()
        invariant
            i <= ps.len(),
            mine == count_uid(ps@.take(i as int), uid),
            root == count_uid(ps@.take(i as int), 0),
            zombies == count_zombies(ps@.take(i as int)),
            mine <= i && root <= i && zombies <= i,
            match top {
                Some(t) => t as int == top_rss_index(ps@.take(i as int)) && t < i,
                None => top_rss_index(ps@.take(i as int)) == -1,
            },
        decreases ps.len() - i,
    {
        let ghost pre = ps@.take(i as int);
        assert(ps@.take(i + 1).drop_last() =~= pre);
        assert(ps@.take(i + 1).last() == ps@[i as int]);
        let p = &ps[i];
        if p.uid == Some(uid) {
            mine += 1;
        }
        if p.uid == Some(0u32) {
            root += 1;
        }
        let z = match &p.state {
            Some(t) => {
                let c = chars_of(t.as_str());
                c.len() > 0 && c[0] == 'Z'
            },
            None => false,
        };
        if z {
            zombies += 1;
        }
        proof {
            lemma_top_rss_index(pre);
        }
        match p.vm_rss_bytes {
            Some(rss) => {
                match top {
                    None => top = Some(i),
                    Some(t) => {
                        assert(pre[t as int] == ps@[t as int]);
                        let cur = ps[t].vm_rss_bytes.unwrap();
                        if cur <= rss {
                            top = Some(i);
                        }
                    },
                }
            },
            None => {},
        }
        i += 1;
    }
    assert(ps@.take(i as int) =~= ps@);
    (mine, root, zombies, top)
}

/// How much a process list needs attention.
pub open spec fn list_severity(l: ProcList) -> Severity {
    if l.warnings@.len() == 0 {
        Severity::Normal
    } else {
        Severity::Info
    }
}

/// The agent report of a process list; `current_uid` is the effective user id
/// of the caller, if known.
pub fn list_agent_report(list: &ProcList, generated_at: String, current_uid: Option<u32>) -> (r: AgentReport)
    ensures
        r.generated_at == generated_at,
        r.subject.domain@ == "proc"@ && r.subject.command@ == "list"@,
        r.subject.target matches Some(t) && t@ == "local"@,
        r.summary@ == "Observed "@ + dec(list.process_count as nat) + " visible local processes."@,
        r.severity == list_severity(*list),
        r.facts@.len() == if top_rss_index(list.processes@) >= 0 { 5nat } else { 4nat },
        fact_is(r.facts@[0], "process_count"@, Severity::Info, seq!["counted numeric entries under /proc with readable process metadata"@]),
        r.facts@[0].value == FactValue::Number(list.process_count as u64),
        fact_is(r.facts@[1], "current_user_process_count"@, Severity::Info, seq!["compared process UIDs against current effective UID"@]),
        num_value(
            r.facts@[1].value,
            match current_uid {
                Some(u) => Some(count_uid(list.processes@, u) as u64),
                None => None,
            },
        ),
        fact_is(r.facts@[2], "root_process_count"@, Severity::Info, seq!["counted visible process summaries with uid 0"@]),
        r.facts@[2].value == FactValue::Number(count_uid(list.processes@, 0) as u64),
        fact_is(
            r.facts@[3],
            "zombie_process_count"@,
            if count_zombies(list.processes@) > 0 { Severity::Warning } else { Severity::Info },
            seq!["counted process states beginning with Z from /proc status data"@],
        ),
        r.facts@[3].value == FactValue::Number(count_zombies(list.processes@) as u64),
        top_rss_index(list.processes@) >= 0 ==> {
            let p = list.processes@[top_rss_index(list.processes@)];
            &&& fact_is(r.facts@[4], "top_rss_process"@, Severity::Info, seq!["selected largest VmRSS value among visible process summaries"@])
            &&& r.facts@[4].value matches FactValue::Object(fields) && fields@.len() == 5
                && field_is(fields@[0], "pid"@) && fields@[0].value == FactValue::Number(p.pid as u64)
                && field_is(fields@[1], "name"@) && text_value(fields@[1].value, opt_text(p.name))
                && field_is(fields@[2], "uid"@) && num_value(fields@[2].value, opt_u32(p.uid))
                && field_is(fields@[3], "user"@) && text_value(fields@[3].value, opt_text(p.user))
                && field_is(fields@[4], "vm_rss_bytes"@) && fields@[4].value == FactValue::Number(p.vm_rss_bytes->0)
        },
        texts(r.interpretation@) == if list.warnings@.len() == 0 {
            Seq::<Seq<char>>::empty()
        } else {
            seq![dec(list.warnings@.len() as nat)
                + " process list warnings occurred; short-lived processes or permissions may limit completeness."@]
        },
        r.safe_next_steps@.len() == 2,
        read_only_step(r.safe_next_steps@[0], "bbt --json proc list"@, "Fetch complete structured visible process inventory"@),
        read_only_step(r.safe_next_steps@[1], "bbt --agent net listeners"@, "Correlate processes with listening sockets"@),
        r.risky_next_steps@.len() == 0,
{
    let severity = if list.warnings.len() == 0 {
        Severity::Normal
    } else {
        Severity::Info
    };
    let (mine, root, zombies, top) = list_counts(
        &list.processes,
        match current_uid {
            Some(u) => u,
            None => 0,
        },
    );
    let mut summary = owned("Observed ");
    push_dec(&mut summary, list.process_count as u64);
    push_str(&mut summary, " visible local processes.");
    let mut report = AgentReport::new(generated_at, Subject::new("proc", "list", Some("local")), summary, severity)
        .with_fact(
            fact_with(
                "process_count",
                FactValue::Number(list.process_count as u64),
                Severity::Info,
                "counted numeric entries under /proc with readable process metadata",
            ),
        )
        .with_fact(
            fact_with(
                "current_user_process_count",
                match current_uid {
                    Some(_) => FactValue::Number(mine),
                    None => FactValue::Null,
                },
                Severity::Info,
                "compared process UIDs against current effective UID",
            ),
        )
        .with_fact(
            fact_with(
                "root_process_count",
                FactValue::Number(root),
                Severity::Info,
                "counted visible process summaries with uid 0",
            ),
        )
        .with_fact(
            fact_with(
                "zombie_process_count",
                FactValue::Number(zombies),
                if zombies > 0 {
                    Severity::Warning
                } else {
                    Severity::Info
                },
                "counted process states beginning with Z from /proc status data",
            ),
        );
    if let Some(t) = top {
        proof {
            lemma_top_rss_index(list.processes@);
        }
        let p = &list.processes[t];
        let rss = p.vm_rss_bytes.unwrap();
        let mut fields: Vec<FactField> = Vec::new();
        fields.push(field("pid", FactValue::Number(p.pid as u64)));
        fields.push(field("name", text_or_null(&p.name)));
        fields.push(field("uid", num_or_null(opt_u32_exec(p.uid))));
        fields.push(field("user", text_or_null(&p.user)));
        fields.push(field("vm_rss_bytes", FactValue::Number(rss)));
        report = report.with_fact(
            fact_with(
                "top_rss_process",
                FactValue::Object(fields),
                Severity::Info,
                "selected largest VmRSS value among visible process summaries",
            ),
        );
    }
    if list.warnings.len() > 0 {
        let mut t = crate::text::dec_string(list.warnings.len() as u64);
        push_str(
            &mut t,
            " process list warnings occurred; short-lived processes or permissions may limit completeness.",
        );
        report = report.with_interpretation(t);
    }
    let report = report.with_safe_next_step(
        NextStep::read_only("bbt --json proc list", "Fetch complete structured visible process inventory"),
    ).with_safe_next_step(
        NextStep::read_only("bbt --agent net listeners", "Correlate processes with listening sockets"),
    );
    assert(texts(report.interpretation@) =~= if list.warnings@.len() == 0 {
        Seq::<Seq<char>>::empty()
    } else {
        seq![dec(list.warnings@.len() as nat)
            + " process list warnings occurred; short-lived processes or permissions may limit completeness."@]
    });
    report
}

} // verus!
