//! I/O pressure stall information: the `some` and `full` lines of
//! `/proc/pressure/io`.
//!
//! The averages are percentages with a fraction. They are kept as the text the
//! kernel wrote, checked to read as floating-point numbers; the program turns
//! them into numbers.

use vstd::prelude::*;
use crate::text::{
    chars_of, eq_str, lines, words, split_lines, split_words, split_once, split_once_chars, trim,
    trim_chars, parse_unsigned, parse_unsigned_chars, string_of, view_all, texts, owned, push_str,
    float_syntax, is_float_text, push_chars,
};

verus! {

/// The path of the I/O pressure file.
pub const PRESSURE_IO_PATH: &'static str = "/proc/pressure/io";

/// One pressure line: the 10 s, 60 s and 300 s averages (as text) and the total
/// stall time in microseconds.
pub struct PressureLine {
    pub avg10: String,
    pub avg60: String,
    pub avg300: String,
    pub total_stalled_usec: u64,
}

/// What the pressure file said.
pub struct PressureInfo {
    pub available: bool,
    pub some: Option<PressureLine>,
    pub full: Option<PressureLine>,
    pub warnings: Vec<String>,
}

pub type LineModel = (Seq<char>, Seq<char>, Seq<char>, u64);

pub open spec fn line_model(l: PressureLine) -> LineModel {
    (l.avg10@, l.avg60@, l.avg300@, l.total_stalled_usec)
}

pub open spec fn opt_line(l: Option<PressureLine>) -> Option<LineModel> {
    match l {
        Some(x) => Some(line_model(x)),
        None => None,
    }
}

/// The fields read so far of one line, or failure.
pub struct FieldsModel {
    pub avg10: Option<Seq<char>>,
    pub avg60: Option<Seq<char>>,
    pub avg300: Option<Seq<char>>,
    pub total: Option<u64>,
    pub failed: bool,
}

/// One `key=value` field of a pressure line: the averages must read as numbers
/// and the total as a `u64`; other keys are ignored; a field without `=` fails
/// the line.
pub open spec fn field_step(m: FieldsModel, f: Seq<char>) -> FieldsModel {
    if m.failed {
        m
    } else {
        match split_once(f, '=') {
            None => FieldsModel { failed: true, ..m },
            Some((k, v)) => if k == "avg10"@ || k == "avg60"@ || k == "avg300"@ {
                if !float_syntax(v) {
                    FieldsModel { failed: true, ..m }
                } else if k == "avg10"@ {
                    FieldsModel { avg10: Some(v), ..m }
                } else if k == "avg60"@ {
                    FieldsModel { avg60: Some(v), ..m }
                } else {
                    FieldsModel { avg300: Some(v), ..m }
                }
            } else if k == "total"@ {
                match parse_unsigned(v, 10, u64::MAX as nat) {
                    Some(n) => FieldsModel { total: Some(n as u64), ..m },
                    None => FieldsModel { failed: true, ..m },
                }
            } else {
                m
            },
        }
    }
}

pub open spec fn fields_of(fs: Seq<Seq<char>>) -> FieldsModel
    decreases fs.len(),
{
    if fs.len() == 0 {
        FieldsModel { avg10: None, avg60: None, avg300: None, total: None, failed: false }
    } else {
        field_step(fields_of(fs.drop_last()), fs.last())
    }
}

/// The values of a pressure line (its words after the first), when every one
/// is present and none fails.
pub open spec fn pressure_line_of(line: Seq<char>) -> Option<LineModel> {
    let w = words(line);
    let m = fields_of(if w.len() > 0 {
        w.skip(1)
    } else {
        w
    });
    if !m.failed && m.avg10 is Some && m.avg60 is Some && m.avg300 is Some && m.total is Some {
        Some((m.avg10->0, m.avg60->0, m.avg300->0, m.total->0))
    } else {
        None
    }
}

/// The state of reading the file: the `some` and `full` lines and the warnings.
pub struct ReadModel {
    pub some: Option<LineModel>,
    pub full: Option<LineModel>,
    pub warnings: Seq<Seq<char>>,
}

/// One line of the file, trimmed: blank lines are skipped; a line must start with
/// `some` or `full`, and a later line of the same kind replaces an earlier one.
pub open spec fn read_step(m: ReadModel, raw: Seq<char>) -> ReadModel {
    let l = trim(raw);
    let w = words(l);
    if l.len() == 0 {
        m
    } else if !(w.len() > 0 && (w[0] == "some"@ || w[0] == "full"@)) {
        ReadModel { warnings: m.warnings.push("unrecognized pressure line: "@ + l), ..m }
    } else {
        match pressure_line_of(l) {
            None => ReadModel { warnings: m.warnings.push("malformed pressure line: "@ + l), ..m },
            Some(p) => if w[0] == "some"@ {
                ReadModel { some: Some(p), ..m }
            } else {
                ReadModel { full: Some(p), ..m }
            },
        }
    }
}

pub open spec fn read_all(ls: Seq<Seq<char>>) -> ReadModel
    decreases ls.len(),
{
    if ls.len() == 0 {
        ReadModel { some: None, full: None, warnings: Seq::empty() }
    } else {
        read_step(read_all(ls.drop_last()), ls.last())
    }
}

/// What a pressure file's text says.
pub open spec fn pressure_of(content: Seq<char>) -> (bool, Option<LineModel>, Option<LineModel>, Seq<Seq<char>>) {
    let m = read_all(lines(content));
    let available = m.some is Some || m.full is Some;
    (
        available,
        m.some,
        m.full,
        if available {
            m.warnings
        } else {
            m.warnings.push("no parseable PSI data found"@)
        },
    )
}

struct Fields {
    avg10: Option<Vec<char>>,
    avg60: Option<Vec<char>>,
    avg300: Option<Vec<char>>,
    total: Option<u64>,
    failed: bool,
}

spec fn chars_opt(v: Option<Vec<char>>) -> Option<Seq<char>> {
    match v {
        Some(x) => Some(x@),
        None => None,
    }
}

impl Fields {
    spec fn model(self) -> FieldsModel {
        FieldsModel {
            avg10: chars_opt(self.avg10),
            avg60: chars_opt(self.avg60),
            avg300: chars_opt(self.avg300),
            total: self.total,
            failed: self.failed,
        }
    }
}

fn parse_pressure_line(line: &[char]) -> (r: Option<PressureLine>)
    ensures
        opt_line(r) == pressure_line_of(line@),
{
    let w = split_words(line);
    let ghost wv = view_all(w@);
    let mut f = Fields { avg10: None, avg60: None, avg300: None, total: None, failed: false };
    let ghost rest = if wv.len() > 0 {
        wv.skip(1)
    } else {
        wv
    };
    if w.len() == 0 {
        return None;
    }
    let mut i: usize = 1;
    assert(rest.take(0) =~= Seq::<Seq<char>>::empty());
    while i < w.len()
        invariant
            1 <= i <= w@.len(),
            wv == view_all(w@),
            wv.len() == w@.len(),
            rest == (if wv.len() > 0 { wv.skip(1) } else { wv }),
            f.model() == fields_of(rest.take(i - 1)),
        decreases w.len() - i,
    {
        assert(rest.take(i as int).drop_last() =~= rest.take(i - 1));
        assert(rest.take(i as int).last() == wv[i as int]);
        assert(wv[i as int] == w@[i as int]@);
        if !f.failed {
            match split_once_chars(w[i].as_slice(), '=') {
                None => f.failed = true,
                Some((k, v)) => {
                    let is10 = eq_str(k.as_slice(), "avg10");
                    let is60 = eq_str(k.as_slice(), "avg60");
                    let is300 = eq_str(k.as_slice(), "avg300");
                    if is10 || is60 || is300 {
                        let t = string_of(v.as_slice());
                        if !is_float_text(t.as_str()) {
                            f.failed = true;
                        } else if is10 {
                            f.avg10 = Some(v);
                        } else if is60 {
                            f.avg60 = Some(v);
                        } else {
                            f.avg300 = Some(v);
                        }
                    } else if eq_str(k.as_slice(), "total") {
                        match parse_unsigned_chars(v.as_slice(), 10, u64::MAX) {
                            Some(n) => f.total = Some(n),
                            None => f.failed = true,
                        }
                    }
                },
            }
        }
        i += 1;
    }
    assert(rest.take(i - 1) =~= rest);
    if f.failed {
        return None;
    }
    match (f.avg10, f.avg60, f.avg300, f.total) {
        (Some(a), Some(b), Some(c), Some(t)) => Some(
            PressureLine {
                avg10: string_of(a.as_slice()),
                avg60: string_of(b.as_slice()),
                avg300: string_of(c.as_slice()),
                total_stalled_usec: t,
            },
        ),
        _ => None,
    }
}

fn warning_with(prefix: &str, l: &[char]) -> (s: String)
    ensures
        s@ == prefix@ + l@,
{
    let mut s = owned(prefix);
    push_chars(&mut s, l);
    s
}

/// Reads the text of `/proc/pressure/io`.
pub fn pressure_from_str(content: &str) -> (p: PressureInfo)
    ensures
        (p.available, opt_line(p.some), opt_line(p.full), texts(p.warnings@)) == pressure_of(content@),
{
    let chars = chars_of(content);
    let ls = split_lines(chars.as_slice());
    let ghost lv = view_all(ls@);
    let mut some: Option<PressureLine> = None;
    let mut full: Option<PressureLine> = None;
    let mut warnings: Vec<String> = Vec::new();
    let mut i: usize = 0;
    assert(texts(warnings@) =~= Seq::<Seq<char>>::empty());
    while i < ls.len()
        invariant
            i <= ls.len(),
            lv == view_all(ls@),
            lv.len() == ls@.len(),
            (ReadModel { some: opt_line(some), full: opt_line(full), warnings: texts(warnings@) }) == read_all(
                lv.take(i as int),
            ),
        decreases ls.len() - i,
    {
        assert(lv.take(i + 1).drop_last() =~= lv.take(i as int));
        assert(lv[i as int] == ls@[i as int]@);
        let ghost before = texts(warnings@);
        let l = trim_chars(ls[i].as_slice());
        if l.len() > 0 {
            let w = split_words(l.as_slice());
            let is_some = w.len() > 0 && eq_str(w[0].as_slice(), "some");
            let is_full = w.len() > 0 && eq_str(w[0].as_slice(), "full");
            proof {
                if w@.len() > 0 {
                    assert(view_all(w@)[0] == w@[0]@);
                }
            }
            if !(is_some || is_full) {
                let m = warning_with("unrecognized pressure line: ", l.as_slice());
                let ghost mv = m@;
                warnings.push(m);
                assert(texts(warnings@) =~= before.push(mv));
            } else {
                match parse_pressure_line(l.as_slice()) {
                    None => {
                        let m = warning_with("malformed pressure line: ", l.as_slice());
                        let ghost mv = m@;
                        warnings.push(m);
                        assert(texts(warnings@) =~= before.push(mv));
                    },
                    Some(p) => if is_some {
                        some = Some(p);
                    } else {
                        full = Some(p);
                    },
                }
            }
        }
        i += 1;
    }
    assert(lv.take(i as int) =~= lv);
    let available = some.is_some() || full.is_some();
    if !available {
        let ghost before = texts(warnings@);
        let m = owned("no parseable PSI data found");
        let ghost mv = m@;
        warnings.push(m);
        assert(texts(warnings@) =~= before.push(mv));
    }
    PressureInfo { available, some, full, warnings }
}

/// The pressure report for a file that could not be read.
pub fn pressure_unreadable(path: &str, error: &String) -> (p: PressureInfo)
    ensures
        !p.available,
        p.some is None && p.full is None,
        texts(p.warnings@) == seq![path@ + " unreadable: "@ + error@
            + "; PSI requires Linux 4.20+ with CONFIG_PSI enabled"@],
{
    let mut w = owned(path);
    push_str(&mut w, " unreadable: ");
    push_str(&mut w, error.as_str());
    push_str(&mut w, "; PSI requires Linux 4.20+ with CONFIG_PSI enabled");
    let ghost wv = w@;
    let mut warnings: Vec<String> = Vec::new();
    warnings.push(w);
    assert(texts(warnings@) =~= seq![wv]);
    PressureInfo { available: false, some: None, full: None, warnings }
}

} // verus!
