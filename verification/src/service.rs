//! systemd services: the `systemctl show` request for a unit, the reading of its
//! `Key=Value` output into an inspection, and the agent report.
//!
//! The program runs `systemctl` with the arguments [`inspect_request`] gives and
//! hands the outcome to [`inspection_from_output`].

use vstd::prelude::*;
use crate::text::{
    chars_of, eq_str, lines, split_lines, split_once, split_once_chars, trim, trim_chars,
    parse_unsigned, string_of, view_all, texts, dec, push_dec, push_str, owned, copy_string,
    lossy_text, utf8_lossy, parse_i32_spec, parse_i32_chars, parse_unsigned_chars,
};
use crate::units::{quote_unit, shell_quote_unit, escape_text, escape_all};
use crate::agent::{AgentReport, FactValue, NextStep, Severity, Subject, fact_is, text_value, num_value, read_only_step, fact_with, text_or_null, num_or_null};

verus! {

/// What systemd says of one unit.
pub struct ServiceInspection {
    pub name: String,
    pub exists: bool,
    pub load_state: Option<String>,
    pub active_state: Option<String>,
    pub sub_state: Option<String>,
    pub unit_file_state: Option<String>,
    pub description: Option<String>,
    pub main_pid: Option<u32>,
    pub fragment_path: Option<String>,
    pub exec_main_status: Option<i32>,
    pub warnings: Vec<String>,
}

pub open spec fn opt_text(s: Option<String>) -> Option<Seq<char>> {
    match s {
        Some(t) => Some(t@),
        None => None,
    }
}

/// An inspection that knows only the unit's name.
fn blank(name: &str) -> (i: ServiceInspection)
    ensures
        i.name@ == name@,
        !i.exists,
        i.load_state is None && i.active_state is None && i.sub_state is None,
        i.unit_file_state is None && i.description is None && i.main_pid is None,
        i.fragment_path is None && i.exec_main_status is None,
        i.warnings@.len() == 0,
{
    ServiceInspection {
        name: owned(name),
        exists: false,
        load_state: None,
        active_state: None,
        sub_state: None,
        unit_file_state: None,
        description: None,
        main_pid: None,
        fragment_path: None,
        exec_main_status: None,
        warnings: Vec::new(),
    }
}

/// The `systemctl` arguments that show a unit's properties.
pub open spec fn show_args(name: Seq<char>) -> Seq<Seq<char>> {
    seq![
        "show"@,
        name,
        "--no-pager"@,
        "--property=Id,LoadState,ActiveState,SubState,UnitFileState,Description,MainPID,FragmentPath,ExecMainStatus"@,
    ]
}

/// The warning for a unit name that `systemctl` would read as an option.
pub open spec fn rejected_text(name: Seq<char>) -> Seq<char> {
    "unit name "@ + escape_all(name)
        + " was rejected: names starting with '-' would be read as systemctl options"@
}

/// How to inspect unit `name`: the arguments to run `systemctl` with, or, for a
/// name starting with `-`, the inspection that refuses it without running
/// anything.
pub fn inspect_request(name: &str) -> (r: Result<Vec<String>, ServiceInspection>)
    ensures
        match r {
            Ok(args) => !(name@.len() > 0 && name@[0] == '-') && texts(args@) == show_args(name@),
            Err(i) => name@.len() > 0 && name@[0] == '-' && i.name@ == name@ && !i.exists
                && i.load_state is None && i.active_state is None && i.sub_state is None
                && i.unit_file_state is None && i.description is None && i.main_pid is None
                && i.fragment_path is None && i.exec_main_status is None
                && texts(i.warnings@) == seq![rejected_text(name@)],
        },
{
    let v = chars_of(name);
    if v.len() > 0 && v[0] == '-' {
        let mut i = blank(name);
        let mut w = owned("unit name ");
        let e = escape_text(name);
        push_str(&mut w, e.as_str());
        push_str(&mut w, " was rejected: names starting with '-' would be read as systemctl options");
        let ghost wv = w@;
        i.warnings.push(w);
        assert(texts(i.warnings@) =~= seq![wv]);
        return Err(i);
    }
    let mut args: Vec<String> = Vec::new();
    args.push(owned("show"));
    args.push(owned(name));
    args.push(owned("--no-pager"));
    args.push(
        owned(
            "--property=Id,LoadState,ActiveState,SubState,UnitFileState,Description,MainPID,FragmentPath,ExecMainStatus",
        ),
    );
    assert(texts(args@) =~= show_args(name@));
    Ok(args)
}

// ---------------------------------------------------------------------------
// Properties
// ---------------------------------------------------------------------------

/// The `Key=Value` pairs of `systemctl show` output: every line with a `=`, split
/// at the first one, in order.
pub open spec fn pairs_of(ls: Seq<Seq<char>>) -> Seq<(Seq<char>, Seq<char>)>
    decreases ls.len(),
{
    if ls.len() == 0 {
        Seq::empty()
    } else {
        let rest = pairs_of(ls.drop_last());
        match split_once(ls.last(), '=') {
            Some(kv) => rest.push(kv),
            None => rest,
        }
    }
}

/// The value of `key`: the last pair that names it wins.
pub open spec fn lookup(pairs: Seq<(Seq<char>, Seq<char>)>, key: Seq<char>) -> Option<Seq<char>>
    decreases pairs.len(),
{
    if pairs.len() == 0 {
        None
    } else if pairs.last().0 == key {
        Some(pairs.last().1)
    } else {
        lookup(pairs.drop_last(), key)
    }
}

/// The properties of a unit as `systemctl show` printed them.
pub struct Properties {
    pub entries: Vec<(String, String)>,
}

impl Properties {
    pub open spec fn model(self) -> Seq<(Seq<char>, Seq<char>)> {
        self.entries@.map_values(|e: (String, String)| (e.0@, e.1@))
    }

    /// The value of a property; a later line replaces an earlier one.
    pub fn get(&self, key: &str) -> (r: Option<String>)
        ensures
            opt_text(r) == lookup(self.model(), key@),
    {
        let k = chars_of(key);
        let ghost m = self.model();
        let mut n: usize = self.entries.len();
        assert(m.take(n as int) =~= m);
        while n > 0
            invariant
                n <= self.entries@.len(),
                m == self.model(),
                m.len() == self.entries@.len(),
                k@ == key@,
                lookup(m, key@) == lookup(m.take(n as int), key@),
            decreases n,
        {
            let (ek, ev) = &self.entries[n - 1];
            assert(m[n - 1] == (ek@, ev@));
            assert(m.take(n as int).last() == m[n - 1]);
            assert(m.take(n as int).drop_last() =~= m.take(n - 1));
            let ekc = chars_of(ek.as_str());
            if crate::text::chars_eq(ekc.as_slice(), k.as_slice()) {
                return Some(copy_string(ev));
            }
            n -= 1;
        }
        None
    }
}

/// Reads `systemctl show` output into its properties.
pub fn parse_properties(input: &str) -> (p: Properties)
    ensures
        p.model() == pairs_of(lines(input@)),
{
    let chars = chars_of(input);
    let ls = split_lines(chars.as_slice());
    let ghost lv = view_all(ls@);
    let mut entries: Vec<(String, String)> = Vec::new();
    let mut i: usize = 0;
    while i < ls.len()
        invariant
            i <= ls.len(),
            lv == view_all(ls@),
            lv.len() == ls@.len(),
            entries@.map_values(|e: (String, String)| (e.0@, e.1@)) == pairs_of(lv.take(i as int)),
        decreases ls.len() - i,
    {
        assert(lv.take(i + 1).drop_last() =~= lv.take(i as int));
        assert(lv[i as int] == ls@[i as int]@);
        let ghost before = entries@.map_values(|e: (String, String)| (e.0@, e.1@));
        match split_once_chars(ls[i].as_slice(), '=') {
            Some((k, v)) => {
                let e = (string_of(k.as_slice()), string_of(v.as_slice()));
                let ghost ev = (e.0@, e.1@);
                entries.push(e);
                assert(entries@.map_values(|e: (String, String)| (e.0@, e.1@)) =~= before.push(ev));
            },
            None => {},
        }
        i += 1;
    }
    assert(lv.take(i as int) =~= lv);
    Properties { entries }
}

// ---------------------------------------------------------------------------
// Inspection
// ---------------------------------------------------------------------------

/// A property's value unless empty.
pub open spec fn non_empty(v: Option<Seq<char>>) -> Option<Seq<char>> {
    match v {
        Some(t) => if t.len() > 0 {
            Some(t)
        } else {
            None
        },
        None => None,
    }
}

/// The main pid a property gives: a `u32` other than 0.
pub open spec fn main_pid_of(v: Option<Seq<char>>) -> Option<u32> {
    match v {
        Some(t) => match parse_unsigned(t, 10, u32::MAX as nat) {
            Some(n) => if n != 0 {
                Some(n as u32)
            } else {
                None
            },
            None => None,
        },
        None => None,
    }
}

/// The exit status a property gives.
pub open spec fn status_of_text(v: Option<Seq<char>>) -> Option<i32> {
    match v {
        Some(t) => match parse_i32_spec(t) {
            Some(n) => Some(n as i32),
            None => None,
        },
        None => None,
    }
}

/// What running `systemctl` gave: whether it exited successfully, and its raw
/// standard output and error.
pub struct SystemctlOutput {
    pub success: bool,
    pub stdout: Vec<u8>,
    pub stderr: Vec<u8>,
}

fn non_empty_get(p: &Properties, key: &str) -> (r: Option<String>)
    ensures
        opt_text(r) == non_empty(lookup(p.model(), key@)),
{
    match p.get(key) {
        Some(v) => if v.as_str().is_empty() {
            None
        } else {
            Some(v)
        },
        None => None,
    }
}

/// The inspection of unit `name` from running `systemctl` with the arguments of
/// [`inspect_request`]: its output, or the error text of a run that could not
/// start.
pub fn inspection_from_output(name: &str, run: Result<SystemctlOutput, String>) -> (i: ServiceInspection)
    ensures
        i.name@ == name@,
        match run {
            Err(e) => !i.exists && i.load_state is None && i.active_state is None
                && i.sub_state is None && i.unit_file_state is None && i.description is None
                && i.main_pid is None && i.fragment_path is None && i.exec_main_status is None
                && texts(i.warnings@) == seq!["systemctl unavailable: "@ + e@],
            Ok(out) => {
                let props = pairs_of(lines(utf8_lossy(out.stdout@)));
                let err = trim(utf8_lossy(out.stderr@));
                let first: Seq<Seq<char>> = if !out.success && err.len() > 0 {
                    seq![err]
                } else {
                    Seq::empty()
                };
                &&& opt_text(i.load_state) == non_empty(lookup(props, "LoadState"@))
                &&& opt_text(i.active_state) == non_empty(lookup(props, "ActiveState"@))
                &&& opt_text(i.sub_state) == non_empty(lookup(props, "SubState"@))
                &&& opt_text(i.unit_file_state) == non_empty(lookup(props, "UnitFileState"@))
                &&& opt_text(i.description) == non_empty(lookup(props, "Description"@))
                &&& i.main_pid == main_pid_of(lookup(props, "MainPID"@))
                &&& opt_text(i.fragment_path) == non_empty(lookup(props, "FragmentPath"@))
                &&& i.exec_main_status == status_of_text(lookup(props, "ExecMainStatus"@))
                &&& i.exists == ((opt_text(i.load_state) matches Some(s) && s != "not-found"@)
                    || i.fragment_path is Some)
                &&& texts(i.warnings@) == if !i.exists && first.len() == 0 {
                    seq!["service "@ + name@ + " is not loaded or not found"@]
                } else {
                    first
                }
            },
        },
{
    let mut i = blank(name);
    let out = match run {
        Err(e) => {
            let mut w = owned("systemctl unavailable: ");
            push_str(&mut w, e.as_str());
            let ghost wv = w@;
            i.warnings.push(w);
            assert(texts(i.warnings@) =~= seq![wv]);
            return i;
        },
        Ok(out) => out,
    };
    let stdout = lossy_text(out.stdout.as_slice());
    let stderr = lossy_text(out.stderr.as_slice());
    let sc = chars_of(stderr.as_str());
    let err = trim_chars(sc.as_slice());
    if !out.success && err.len() > 0 {
        i.warnings.push(string_of(err.as_slice()));
    }
    let ghost first = texts(i.warnings@);
    let props = parse_properties(stdout.as_str());
    i.load_state = non_empty_get(&props, "LoadState");
    i.active_state = non_empty_get(&props, "ActiveState");
    i.sub_state = non_empty_get(&props, "SubState");
    i.unit_file_state = non_empty_get(&props, "UnitFileState");
    i.description = non_empty_get(&props, "Description");
    i.main_pid = match props.get("MainPID") {
        Some(v) => {
            let c = chars_of(v.as_str());
            match parse_unsigned_chars(c.as_slice(), 10, 0xffff_ffff) {
                Some(n) => if n != 0 {
                    Some(n as u32)
                } else {
                    None
                },
                None => None,
            }
        },
        None => None,
    };
    i.fragment_path = non_empty_get(&props, "FragmentPath");
    i.exec_main_status = match props.get("ExecMainStatus") {
        Some(v) => {
            let c = chars_of(v.as_str());
            parse_i32_chars(c.as_slice())
        },
        None => None,
    };
    let loaded = match &i.load_state {
        Some(s) => !eq_str(chars_of(s.as_str()).as_slice(), "not-found"),
        None => false,
    };
    i.exists = loaded || i.fragment_path.is_some();
    if !i.exists && i.warnings.len() == 0 {
        let mut w = owned("service ");
        push_str(&mut w, name);
        push_str(&mut w, " is not loaded or not found");
        let ghost wv = w@;
        i.warnings.push(w);
        assert(texts(i.warnings@) =~= seq![wv]);
    }
    i
}

// ---------------------------------------------------------------------------
// Text for people and shells
// ---------------------------------------------------------------------------

/// Quotes a unit name for a suggested command; the empty name becomes `''`.
pub fn shell_quote(value: &str) -> (s: String)
    ensures
        s@ == shell_quote_unit(value@),
{
    quote_unit(value)
}

/// Escapes text for human output (std's `char::escape_default` on every
/// character).
pub fn escape_human(value: &str) -> (s: String)
    ensures
        s@ == escape_all(value@),
{
    escape_text(value)
}

// ---------------------------------------------------------------------------
// Agent report
// ---------------------------------------------------------------------------

/// A unit that exists but is not active.
pub open spec fn state_problem(i: ServiceInspection) -> bool {
    i.exists && (opt_text(i.active_state) matches Some(s) && s != "active"@)
}

/// How much an inspection needs attention.
pub open spec fn service_severity(i: ServiceInspection) -> Severity {
    if !i.exists || state_problem(i) {
        Severity::Warning
    } else if opt_text(i.active_state) == Some("active"@) {
        Severity::Normal
    } else {
        Severity::Info
    }
}

/// The one-line summary of an inspection.
pub open spec fn service_summary(i: ServiceInspection) -> Seq<char> {
    if i.exists {
        "Service "@ + i.name@ + " is "@ + match opt_text(i.active_state) {
            Some(s) => s,
            None => "unknown"@,
        } + " / "@ + match opt_text(i.sub_state) {
            Some(s) => s,
            None => "unknown"@,
        } + "."@
    } else {
        "Service "@ + i.name@ + " is not loaded or not found."@
    }
}

fn push_or(s: &mut String, v: &Option<String>, fallback: &str)
    ensures
        final(s)@ == old(s)@ + match opt_text(*v) {
            Some(t) => t,
            None => fallback@,
        },
{
    match v {
        Some(t) => push_str(s, t.as_str()),
        None => push_str(s, fallback),
    }
}

/// The agent report of a service inspection.
pub fn agent_report(inspection: &ServiceInspection, generated_at: String) -> (r: AgentReport)
    ensures
        r.generated_at == generated_at,
        r.subject.domain@ == "service"@ && r.subject.command@ == "inspect"@,
        r.subject.target matches Some(t) && t@ == inspection.name@,
        r.summary@ == service_summary(*inspection),
        r.severity == service_severity(*inspection),
        r.facts@.len() == 4,
        fact_is(r.facts@[0], "service_exists"@, Severity::Info, seq!["queried systemctl show LoadState/FragmentPath"@]),
        r.facts@[0].value == FactValue::Bool(inspection.exists),
        fact_is(r.facts@[1], "active_state"@, Severity::Info, seq!["queried systemctl show ActiveState"@]),
        text_value(r.facts@[1].value, opt_text(inspection.active_state)),
        fact_is(r.facts@[2], "main_pid"@, Severity::Info, seq!["queried systemctl show MainPID"@]),
        num_value(
            r.facts@[2].value,
            match inspection.main_pid {
                Some(p) => Some(p as u64),
                None => None,
            },
        ),
        fact_is(
            r.facts@[3],
            "service_state_problem"@,
            if state_problem(*inspection) { Severity::Warning } else { Severity::Info },
            seq!["derived from systemctl ActiveState and service existence"@],
        ),
        r.facts@[3].value == FactValue::Bool(state_problem(*inspection)),
        texts(r.interpretation@) == if inspection.warnings@.len() == 0 {
            Seq::<Seq<char>>::empty()
        } else {
            seq![dec(inspection.warnings@.len() as nat) + " service inspection warnings occurred."@]
        },
        r.safe_next_steps@.len() == 2,
        read_only_step(
            r.safe_next_steps@[0],
            "bbt --json service inspect "@ + shell_quote_unit(inspection.name@),
            "Fetch complete structured service state"@,
        ),
        read_only_step(r.safe_next_steps@[1], "bbt --agent net listeners"@, "Inspect local listening sockets related to services"@),
        r.risky_next_steps@.len() == 0,
{
    let active = match &inspection.active_state {
        Some(s) => Some(eq_str(chars_of(s.as_str()).as_slice(), "active")),
        None => None,
    };
    let problem = inspection.exists && active == Some(false);
    let severity = if !inspection.exists || problem {
        Severity::Warning
    } else if active == Some(true) {
        Severity::Normal
    } else {
        Severity::Info
    };
    let mut summary = owned("Service ");
    push_str(&mut summary, inspection.name.as_str());
    if inspection.exists {
        push_str(&mut summary, " is ");
        push_or(&mut summary, &inspection.active_state, "unknown");
        push_str(&mut summary, " / ");
        push_or(&mut summary, &inspection.sub_state, "unknown");
        push_str(&mut summary, ".");
    } else {
        push_str(&mut summary, " is not loaded or not found.");
    }
    let mut report = AgentReport::new(
        generated_at,
        Subject::new("service", "inspect", Some(inspection.name.as_str())),
        summary,
        severity,
    ).with_fact(
        fact_with(
            "service_exists",
            FactValue::Bool(inspection.exists),
            Severity::Info,
            "queried systemctl show LoadState/FragmentPath",
        ),
    ).with_fact(
        fact_with(
            "active_state",
            text_or_null(&inspection.active_state),
            Severity::Info,
            "queried systemctl show ActiveState",
        ),
    ).with_fact(
        fact_with(
            "main_pid",
            num_or_null(
                match inspection.main_pid {
                    Some(p) => Some(p as u64),
                    None => None,
                },
            ),
            Severity::Info,
            "queried systemctl show MainPID",
        ),
    ).with_fact(
        fact_with(
            "service_state_problem",
            FactValue::Bool(problem),
            if problem {
                Severity::Warning
            } else {
                Severity::Info
            },
            "derived from systemctl ActiveState and service existence",
        ),
    );
    if inspection.warnings.len() > 0 {
        let mut t = crate::text::dec_string(inspection.warnings.len() as u64);
        push_str(&mut t, " service inspection warnings occurred.");
        report = report.with_interpretation(t);
    }
    let mut cmd = owned("bbt --json service inspect ");
    let q = quote_unit(inspection.name.as_str());
    push_str(&mut cmd, q.as_str());
    let report = report.with_safe_next_step(
        NextStep::read_only(cmd.as_str(), "Fetch complete structured service state"),
    ).with_safe_next_step(
        NextStep::read_only("bbt --agent net listeners", "Inspect local listening sockets related to services"),
    );
    assert(texts(report.interpretation@) =~= if inspection.warnings@.len() == 0 {
        Seq::<Seq<char>>::empty()
    } else {
        seq![dec(inspection.warnings@.len() as nat) + " service inspection warnings occurred."@]
    });
    report
}

} // verus!
