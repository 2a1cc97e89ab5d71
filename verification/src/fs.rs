//! Filesystem domain: `fs inspect`, `fs list` and `fs tree`.
//!
//! The records describe one path or the entries of a directory; they are built
//! from the `lstat` fields that the program reads and hands over.

use vstd::prelude::*;
use crate::entry::{EntryMeta, type_code, mode_type_code};
use crate::text::{push_char, digit_char, digit_to_char};

verus! {

/// The type of a filesystem object, as `lstat` reports it.
#[derive(Clone, Copy, Debug, PartialEq, Eq, Structural)]
pub enum FileKind {
    Missing,
    RegularFile,
    Directory,
    Symlink,
    Socket,
    Fifo,
    BlockDevice,
    CharDevice,
    Unknown,
}

/// The kind named by the file-type bits of a mode.
pub open spec fn kind_of_mode(mode: u32) -> FileKind {
    let t = type_code(mode);
    if t == 10 {
        FileKind::Symlink
    } else if t == 8 {
        FileKind::RegularFile
    } else if t == 4 {
        FileKind::Directory
    } else if t == 12 {
        FileKind::Socket
    } else if t == 1 {
        FileKind::Fifo
    } else if t == 6 {
        FileKind::BlockDevice
    } else if t == 2 {
        FileKind::CharDevice
    } else {
        FileKind::Unknown
    }
}

/// Classifies a mode by its file-type bits.
pub fn classify_mode(mode: u32) -> (k: FileKind)
    ensures
        k == kind_of_mode(mode),
{
    let t = mode_type_code(mode);
    if t == 10 {
        FileKind::Symlink
    } else if t == 8 {
        FileKind::RegularFile
    } else if t == 4 {
        FileKind::Directory
    } else if t == 12 {
        FileKind::Socket
    } else if t == 1 {
        FileKind::Fifo
    } else if t == 6 {
        FileKind::BlockDevice
    } else if t == 2 {
        FileKind::CharDevice
    } else {
        FileKind::Unknown
    }
}

impl FileKind {
    pub open spec fn spec_label(self) -> Seq<char> {
        match self {
            FileKind::Missing => "missing path"@,
            FileKind::RegularFile => "regular file"@,
            FileKind::Directory => "directory"@,
            FileKind::Symlink => "symbolic link"@,
            FileKind::Socket => "socket"@,
            FileKind::Fifo => "FIFO"@,
            FileKind::BlockDevice => "block device"@,
            FileKind::CharDevice => "character device"@,
            FileKind::Unknown => "unknown filesystem object"@,
        }
    }

    /// The human label of the kind.
    pub fn label(self) -> (s: &'static str)
        ensures
            s@ == self.spec_label(),
    {
        match self {
            FileKind::Missing => "missing path",
            FileKind::RegularFile => "regular file",
            FileKind::Directory => "directory",
            FileKind::Symlink => "symbolic link",
            FileKind::Socket => "socket",
            FileKind::Fifo => "FIFO",
            FileKind::BlockDevice => "block device",
            FileKind::CharDevice => "character device",
            FileKind::Unknown => "unknown filesystem object",
        }
    }

    pub open spec fn spec_indicator(self) -> char {
        match self {
            FileKind::RegularFile => '-',
            FileKind::Directory => 'd',
            FileKind::Symlink => 'l',
            FileKind::Socket => 's',
            FileKind::Fifo => 'p',
            FileKind::BlockDevice => 'b',
            FileKind::CharDevice => 'c',
            FileKind::Missing => '?',
            FileKind::Unknown => '?',
        }
    }

    /// The one-character type indicator of `ls -l`.
    pub fn indicator(self) -> (c: char)
        ensures
            c == self.spec_indicator(),
    {
        match self {
            FileKind::RegularFile => '-',
            FileKind::Directory => 'd',
            FileKind::Symlink => 'l',
            FileKind::Socket => 's',
            FileKind::Fifo => 'p',
            FileKind::BlockDevice => 'b',
            FileKind::CharDevice => 'c',
            FileKind::Missing => '?',
            FileKind::Unknown => '?',
        }
    }

    /// The kebab-case name used in structured output.
    pub fn schema_name(self) -> (s: &'static str)
        ensures
            s@ == self.spec_schema_name(),
    {
        match self {
            FileKind::Missing => "missing",
            FileKind::RegularFile => "regular-file",
            FileKind::Directory => "directory",
            FileKind::Symlink => "symlink",
            FileKind::Socket => "socket",
            FileKind::Fifo => "fifo",
            FileKind::BlockDevice => "block-device",
            FileKind::CharDevice => "char-device",
            FileKind::Unknown => "unknown",
        }
    }

    pub open spec fn spec_schema_name(self) -> Seq<char> {
        match self {
            FileKind::Missing => "missing"@,
            FileKind::RegularFile => "regular-file"@,
            FileKind::Directory => "directory"@,
            FileKind::Symlink => "symlink"@,
            FileKind::Socket => "socket"@,
            FileKind::Fifo => "fifo"@,
            FileKind::BlockDevice => "block-device"@,
            FileKind::CharDevice => "char-device"@,
            FileKind::Unknown => "unknown"@,
        }
    }
}

/// The owner of a path.
pub struct Owner {
    pub uid: u32,
    pub name: Option<String>,
}

/// The group of a path.
pub struct Group {
    pub gid: u32,
    pub name: Option<String>,
}

/// Permission bits, as octal digits and as `ls -l` letters.
pub struct Mode {
    pub octal: String,
    pub symbolic: String,
}

/// What the current user may do with a path.
pub struct Access {
    pub readable: Option<bool>,
    pub writable: Option<bool>,
    pub executable: Option<bool>,
}

impl Default for Access {
    /// Nothing known.
    fn default() -> (a: Self)
        ensures
            a.readable is None && a.writable is None && a.executable is None,
    {
        Access { readable: None, writable: None, executable: None }
    }
}

/// Timestamps of a path, RFC 3339 text.
pub struct Timestamps {
    pub modified: Option<String>,
    pub accessed: Option<String>,
    pub changed: Option<String>,
    pub created: Option<String>,
}

impl Default for Timestamps {
    /// Nothing known.
    fn default() -> (t: Self)
        ensures
            t.modified is None && t.accessed is None && t.changed is None && t.created is None,
    {
        Timestamps { modified: None, accessed: None, changed: None, created: None }
    }
}

// ---------------------------------------------------------------------------
// Permission text
// ---------------------------------------------------------------------------

/// Whether permission bit `bit` (a power of two below 4096) is set in `mode`.
pub open spec fn has_bit(mode: u32, bit: nat) -> bool {
    ((mode as nat) / bit) % 2 == 1
}

/// Whether permission bit `bit` is set in `mode`.
pub fn mode_has_bit(mode: u32, bit: u32) -> (r: bool)
    requires
        bit > 0,
    ensures
        r == has_bit(mode, bit as nat),
{
    (mode / bit) % 2 == 1
}

/// The execute position of a permission triple with its special bit applied.
pub open spec fn special_exec_spec(current: char, special: bool, exec_marker: char, other_marker: char) -> char {
    if !special {
        current
    } else if current == 'x' {
        exec_marker
    } else {
        other_marker
    }
}

/// Applies a setuid, setgid or sticky bit to an execute position.
pub fn special_exec(current: char, special: bool, executable_marker: char, non_executable_marker: char) -> (c: char)
    ensures
        c == special_exec_spec(current, special, executable_marker, non_executable_marker),
{
    if !special {
        current
    } else if current == 'x' {
        executable_marker
    } else {
        non_executable_marker
    }
}

/// One permission letter: `marker` when `bit` is set, `-` otherwise.
pub open spec fn perm_char(mode: u32, bit: nat, marker: char) -> char {
    if has_bit(mode, bit) {
        marker
    } else {
        '-'
    }
}

/// The nine `ls -l` permission letters of a mode, with setuid (04000), setgid
/// (02000) and sticky (01000) shown as `s`/`S` and `t`/`T`.
pub open spec fn symbolic_mode_spec(mode: u32) -> Seq<char> {
    seq![
        perm_char(mode, 0o400, 'r'),
        perm_char(mode, 0o200, 'w'),
        special_exec_spec(perm_char(mode, 0o100, 'x'), has_bit(mode, 0o4000), 's', 'S'),
        perm_char(mode, 0o040, 'r'),
        perm_char(mode, 0o020, 'w'),
        special_exec_spec(perm_char(mode, 0o010, 'x'), has_bit(mode, 0o2000), 's', 'S'),
        perm_char(mode, 0o004, 'r'),
        perm_char(mode, 0o002, 'w'),
        special_exec_spec(perm_char(mode, 0o001, 'x'), has_bit(mode, 0o1000), 't', 'T'),
    ]
}

fn perm(mode: u32, bit: u32, marker: char) -> (c: char)
    requires
        bit > 0,
    ensures
        c == perm_char(mode, bit as nat, marker),
{
    if mode_has_bit(mode, bit) {
        marker
    } else {
        '-'
    }
}

/// The `ls -l` permission letters of a mode, such as `rw-r-----`.
pub fn symbolic_mode(mode: u32) -> (s: String)
    ensures
        s@ == symbolic_mode_spec(mode),
{
    let mut s = String::new();
    push_char(&mut s, perm(mode, 0o400, 'r'));
    push_char(&mut s, perm(mode, 0o200, 'w'));
    push_char(&mut s, special_exec(perm(mode, 0o100, 'x'), mode_has_bit(mode, 0o4000), 's', 'S'));
    push_char(&mut s, perm(mode, 0o040, 'r'));
    push_char(&mut s, perm(mode, 0o020, 'w'));
    push_char(&mut s, special_exec(perm(mode, 0o010, 'x'), mode_has_bit(mode, 0o2000), 's', 'S'));
    push_char(&mut s, perm(mode, 0o004, 'r'));
    push_char(&mut s, perm(mode, 0o002, 'w'));
    push_char(&mut s, special_exec(perm(mode, 0o001, 'x'), mode_has_bit(mode, 0o1000), 't', 'T'));
    assert(s@ =~= symbolic_mode_spec(mode));
    s
}

/// The permission bits (`mode & 0o7777`) as four octal digits (`{:04o}`).
pub open spec fn octal_mode_spec(mode: u32) -> Seq<char> {
    let p = (mode as nat) % 4096;
    seq![digit_char(p / 512), digit_char((p / 64) % 8), digit_char((p / 8) % 8), digit_char(p % 8)]
}

/// The permission bits as four octal digits, such as `0640`.
pub fn octal_mode(mode: u32) -> (s: String)
    ensures
        s@ == octal_mode_spec(mode),
{
    let p = (mode % 4096) as u64;
    let mut s = String::new();
    push_char(&mut s, digit_to_char(p / 512));
    push_char(&mut s, digit_to_char((p / 64) % 8));
    push_char(&mut s, digit_to_char((p / 8) % 8));
    push_char(&mut s, digit_to_char(p % 8));
    assert(s@ =~= octal_mode_spec(mode));
    s
}

/// The permission record of a mode.
pub fn mode_of(mode: u32) -> (m: Mode)
    ensures
        m.octal@ == octal_mode_spec(mode),
        m.symbolic@ == symbolic_mode_spec(mode),
{
    Mode { octal: octal_mode(mode), symbolic: symbolic_mode(mode) }
}

/// The kind of an entry.
pub fn kind_of(meta: &EntryMeta) -> (k: FileKind)
    ensures
        k == kind_of_mode(meta.mode),
{
    classify_mode(meta.mode)
}

} // verus!

verus! {

/// `base` joined with an entry name, as `Path::join` makes it for a relative
/// name without separators: the name alone under an empty base, else with one
/// `/` between them.
pub open spec fn join_path(base: Seq<char>, name: Seq<char>) -> Seq<char> {
    if base.len() == 0 {
        name
    } else if base.last() == '/' {
        base + name
    } else {
        base + "/"@ + name
    }
}

/// Joins a directory and an entry name.
pub fn join_name(base: &String, name: &String) -> (s: String)
    ensures
        s@ == join_path(base@, name@),
{
    let b = crate::text::chars_of(base.as_str());
    if b.len() == 0 {
        return crate::text::copy_string(name);
    }
    let mut s = crate::text::copy_string(base);
    if b[b.len() - 1] != '/' {
        crate::text::push_str(&mut s, "/");
    }
    crate::text::push_str(&mut s, name.as_str());
    s
}

/// Quotes a path for a suggested command; the empty path stays empty.
pub fn shell_quote(value: &str) -> (s: String)
    ensures
        s@ == crate::units::shell_quote_path(value@),
{
    crate::units::quote_path(value)
}

/// Formats a byte count with binary units.
pub fn human_bytes(bytes: u64) -> (s: String)
    ensures
        s@ == crate::units::human_bytes_spec(bytes),
{
    crate::units::human_bytes(bytes)
}

} // verus!

verus! {

use crate::agent::{AgentReport, FactValue, FactField, NextStep, Severity, Subject, fact_is, read_only_step, fact_with, fact_said, field, field_is};
use crate::text::{texts, dec, push_dec, push_str, owned, copy_string};
use crate::units::{quote_path, shell_quote_path};

/// What `fs inspect` found at one path.
pub struct FsInspection {
    pub path: String,
    pub path_bytes_hex: String,
    pub absolute_path: Option<String>,
    pub canonical_path: Option<String>,
    pub exists: bool,
    pub kind: FileKind,
    pub size_bytes: Option<u64>,
    pub owner: Option<Owner>,
    pub group: Option<Group>,
    pub mode: Option<Mode>,
    pub access: Access,
    pub symlink_target: Option<String>,
    pub timestamps: Timestamps,
    pub warnings: Vec<String>,
}

/// The immediate entries of one directory.
pub struct FsListing {
    pub path: String,
    pub path_bytes_hex: String,
    pub absolute_path: Option<String>,
    pub exists: bool,
    pub is_directory: bool,
    pub entry_count: usize,
    pub entries: Vec<FsListEntry>,
    pub warnings: Vec<String>,
}

/// One entry of a listing.
pub struct FsListEntry {
    pub name: String,
    pub name_bytes_hex: String,
    pub kind: FileKind,
    pub size_bytes: u64,
    pub owner: Owner,
    pub group: Group,
    pub mode: Mode,
    pub modified: Option<String>,
    pub symlink_target: Option<String>,
}

/// The value of an optional truth value: the value, or null.
pub open spec fn bool_value(v: FactValue, b: Option<bool>) -> bool {
    match b {
        Some(x) => v == FactValue::Bool(x),
        None => v is Null,
    }
}

/// How much an inspection needs attention.
pub open spec fn inspect_severity(i: FsInspection) -> Severity {
    if i.warnings@.len() > 0 || !i.exists {
        Severity::Warning
    } else {
        Severity::Normal
    }
}

/// The one-line summary of an inspection.
pub open spec fn inspect_summary(i: FsInspection) -> Seq<char> {
    if i.exists {
        i.path@ + " is a "@ + i.kind.spec_label() + "."@
    } else if i.kind == FileKind::Missing {
        i.path@ + " does not exist."@
    } else {
        i.path@ + " could not be inspected."@
    }
}

/// The evidence of whether the path exists.
pub open spec fn inspect_evidence(i: FsInspection) -> Seq<char> {
    if i.exists {
        i.path@ + " exists"@
    } else if i.kind == FileKind::Missing {
        i.path@ + " was not found"@
    } else {
        i.path@ + " could not be inspected"@
    }
}

/// The agent report of an inspection.
pub fn agent_report(inspection: &FsInspection, generated_at: String) -> (r: AgentReport)
    ensures
        r.generated_at == generated_at,
        r.subject.domain@ == "fs"@ && r.subject.command@ == "inspect"@,
        r.subject.target matches Some(t) && t@ == inspection.path@,
        r.summary@ == inspect_summary(*inspection),
        r.severity == inspect_severity(*inspection),
        r.facts@.len() == if inspection.exists { 3nat } else { 1nat },
        fact_is(
            r.facts@[0],
            "path_exists"@,
            if inspection.exists { Severity::Info } else { Severity::Warning },
            seq![inspect_evidence(*inspection)],
        ),
        r.facts@[0].value == FactValue::Bool(inspection.exists),
        inspection.exists ==> {
            &&& fact_is(r.facts@[1], "file_kind"@, Severity::Info, seq!["filesystem type is "@ + inspection.kind.spec_label()])
            &&& (r.facts@[1].value matches FactValue::Text(t) && t@ == inspection.kind.spec_schema_name())
            &&& fact_is(
                r.facts@[2],
                "current_user_readable"@,
                if inspection.access.readable == Some(false) { Severity::Warning } else { Severity::Info },
                seq!["checked read access for the current process user"@],
            )
            &&& bool_value(r.facts@[2].value, inspection.access.readable)
            &&& r.safe_next_steps@.len() == 1
            &&& read_only_step(
                r.safe_next_steps@[0],
                "bbt fs inspect "@ + shell_quote_path(inspection.path@) + " --json"@,
                "Fetch complete raw filesystem metadata"@,
            )
        },
        !inspection.exists ==> r.safe_next_steps@.len() == 0,
        texts(r.interpretation@) == if inspection.warnings@.len() > 0 {
            seq![dec(inspection.warnings@.len() as nat) + " filesystem inspection warnings occurred; permissions or path races may limit completeness."@]
        } else {
            Seq::<Seq<char>>::empty()
        },
        r.risky_next_steps@.len() == 0,
{
    let severity = if inspection.warnings.len() > 0 || !inspection.exists {
        Severity::Warning
    } else {
        Severity::Normal
    };
    let mut summary = copy_string(&inspection.path);
    let mut e0 = copy_string(&inspection.path);
    if inspection.exists {
        push_str(&mut summary, " is a ");
        push_str(&mut summary, inspection.kind.label());
        push_str(&mut summary, ".");
        push_str(&mut e0, " exists");
    } else if inspection.kind == FileKind::Missing {
        push_str(&mut summary, " does not exist.");
        push_str(&mut e0, " was not found");
    } else {
        push_str(&mut summary, " could not be inspected.");
        push_str(&mut e0, " could not be inspected");
    }
    let mut report = AgentReport::new(
        generated_at,
        Subject::new("fs", "inspect", Some(inspection.path.as_str())),
        summary,
        severity,
    ).with_fact(
        fact_said(
            "path_exists",
            FactValue::Bool(inspection.exists),
            if inspection.exists {
                Severity::Info
            } else {
                Severity::Warning
            },
            e0,
        ),
    );
    if inspection.exists {
        let mut e1 = owned("filesystem type is ");
        push_str(&mut e1, inspection.kind.label());
        let q = quote_path(inspection.path.as_str());
        let mut c = owned("bbt fs inspect ");
        push_str(&mut c, q.as_str());
        push_str(&mut c, " --json");
        report = report.with_fact(
            fact_said("file_kind", FactValue::Text(owned(inspection.kind.schema_name())), Severity::Info, e1),
        ).with_fact(
            fact_with(
                "current_user_readable",
                match inspection.access.readable {
                    Some(b) => FactValue::Bool(b),
                    None => FactValue::Null,
                },
                if inspection.access.readable == Some(false) {
                    Severity::Warning
                } else {
                    Severity::Info
                },
                "checked read access for the current process user",
            ),
        ).with_safe_next_step(NextStep::read_only(c.as_str(), "Fetch complete raw filesystem metadata"));
    }
    if inspection.warnings.len() > 0 {
        let mut t = crate::text::dec_string(inspection.warnings.len() as u64);
        push_str(&mut t, " filesystem inspection warnings occurred; permissions or path races may limit completeness.");
        report = report.with_interpretation(t);
    }
    assert(texts(report.interpretation@) =~= if inspection.warnings@.len() > 0 {
        seq![dec(inspection.warnings@.len() as nat) + " filesystem inspection warnings occurred; permissions or path races may limit completeness."@]
    } else {
        Seq::<Seq<char>>::empty()
    });
    report
}

/// How many entries are hidden (their name starts with a dot).
pub open spec fn count_hidden(s: Seq<FsListEntry>) -> nat
    decreases s.len(),
{
    if s.len() == 0 {
        0
    } else {
        count_hidden(s.drop_last()) + if s.last().name@.len() > 0 && s.last().name@[0] == '.' {
            1nat
        } else {
            0nat
        }
    }
}

/// An entry is hidden exactly when its name begins with a dot.
pub open spec fn is_hidden_name(name: Seq<char>) -> bool {
    name.len() > 0 && name[0] == '.'
}

/// The hidden-entry count counts exactly the entries whose name begins with `.`:
/// it is the number of such entries, so a name with a dot elsewhere
/// (`notes.txt`) is never counted, and a listing without such names counts 0.
pub proof fn law_hidden_count_is_dot_names(s: Seq<FsListEntry>)
    ensures
        count_hidden(s) == s.filter(|e: FsListEntry| is_hidden_name(e.name@)).len(),
        (forall|i: int| 0 <= i < s.len() ==> !is_hidden_name(#[trigger] s[i].name@)) ==> count_hidden(s) == 0,
    decreases s.len(),
{
    reveal(Seq::filter);
    if s.len() > 0 {
        law_hidden_count_is_dot_names(s.drop_last());
        let pred = |e: FsListEntry| is_hidden_name(e.name@);
        reveal(Seq::filter);
        assert(s.filter(pred) == if pred(s.last()) {
            s.drop_last().filter(pred).push(s.last())
        } else {
            s.drop_last().filter(pred)
        });
        if forall|i: int| 0 <= i < s.len() ==> !is_hidden_name(#[trigger] s[i].name@) {
            assert forall|i: int| 0 <= i < s.drop_last().len() implies !is_hidden_name(#[trigger] s.drop_last()[i].name@) by {
                assert(s.drop_last()[i] == s[i]);
            }
            assert(!is_hidden_name(s[s.len() - 1].name@));
        }
    }
}

/// The index of the largest entry, the last of equals (as
/// `Iterator::max_by_key` picks), or -1 when there is none.
pub open spec fn largest_entry(s: Seq<FsListEntry>) -> int
    decreases s.len(),
{
    if s.len() == 0 {
        -1
    } else {
        let prev = largest_entry(s.drop_last());
        if prev < 0 || s[prev].size_bytes <= s.last().size_bytes {
            s.len() - 1
        } else {
            prev
        }
    }
}

fn entry_stats(s: &Vec<FsListEntry>) -> (r: (u64, Option<usize>))
    ensures
        r.0 == count_hidden(s@),
        match r.1 {
            Some(i) => i as int == largest_entry(s@) && i < s@.len(),
            None => largest_entry(s@) == -1 && s@.len() == 0,
        },
{
    let mut hidden: u64 = 0;
    let mut best: Option<usize> = None;
    let mut i: usize = 0;
    while i < s.len()
        invariant
            i <= s.len(),
            hidden == count_hidden(s@.take(i as int)),
            hidden <= i,
            match best {
                Some(b) => b as int == largest_entry(s@.take(i as int)) && b < i,
                None => largest_entry(s@.take(i as int)) == -1 && i == 0,
            },
        decreases s.len() - i,
    {
        assert(s@.take(i + 1).drop_last() =~= s@.take(i as int));
        assert(s@.take(i + 1).last() == s@[i as int]);
        let name = crate::text::chars_of(s[i].name.as_str());
        if name.len() > 0 && name[0] == '.' {
            hidden += 1;
        }
        match best {
            None => best = Some(i),
            Some(b) => {
                assert(s@.take(i as int)[b as int] == s@[b as int]);
                if s[b].size_bytes <= s[i].size_bytes {
                    best = Some(i);
                }
            },
        }
        i += 1;
    }
    assert(s@.take(i as int) =~= s@);
    (hidden, best)
}

/// How much a listing needs attention.
pub open spec fn list_severity(l: FsListing) -> Severity {
    if !l.exists || l.warnings@.len() > 0 {
        Severity::Warning
    } else {
        Severity::Normal
    }
}

/// The one-line summary of a listing.
pub open spec fn list_summary(l: FsListing) -> Seq<char> {
    if l.is_directory {
        l.path@ + " contains "@ + dec(l.entry_count as nat) + " entries."@
    } else if l.exists {
        l.path@ + " is not a directory."@
    } else {
        l.path@ + " does not exist."@
    }
}

/// The agent report of a listing.
pub fn list_agent_report(listing: &FsListing, generated_at: String) -> (r: AgentReport)
    ensures
        r.generated_at == generated_at,
        r.subject.domain@ == "fs"@ && r.subject.command@ == "list"@,
        r.subject.target matches Some(t) && t@ == listing.path@,
        r.summary@ == list_summary(*listing),
        r.severity == list_severity(*listing),
        fact_is(
            r.facts@[0],
            "path_exists"@,
            if listing.exists { Severity::Info } else { Severity::Warning },
            seq![if listing.exists { listing.path@ + " exists"@ } else { listing.path@ + " was not found"@ }],
        ),
        r.facts@[0].value == FactValue::Bool(listing.exists),
        !listing.exists ==> r.facts@.len() == 1 + if listing.is_directory { 2nat + if listing.entries@.len() > 0 { 1nat } else { 0nat } } else { 0nat },
        listing.exists ==> {
            &&& fact_is(
                r.facts@[1],
                "is_directory"@,
                if listing.is_directory { Severity::Info } else { Severity::Warning },
                seq!["lstat file type of the listed path"@],
            )
            &&& r.facts@[1].value == FactValue::Bool(listing.is_directory)
        },
        (listing.exists && listing.is_directory) ==> {
            &&& r.facts@.len() == if listing.entries@.len() > 0 { 5nat } else { 4nat }
            &&& fact_is(r.facts@[2], "entry_count"@, Severity::Info, seq!["immediate entries with readable metadata; non-recursive"@])
            &&& r.facts@[2].value == FactValue::Number(listing.entry_count as u64)
            &&& fact_is(r.facts@[3], "hidden_entry_count"@, Severity::Info, seq!["entries whose name starts with a dot"@])
            &&& r.facts@[3].value == FactValue::Number(count_hidden(listing.entries@) as u64)
        },
        (listing.exists && listing.is_directory && listing.entries@.len() > 0) ==> {
            let e = listing.entries@[largest_entry(listing.entries@)];
            &&& fact_is(r.facts@[4], "largest_entry"@, Severity::Info, seq!["largest immediate entry by lstat size; directory sizes are not recursive"@])
            &&& r.facts@[4].value matches FactValue::Object(fields) && fields@.len() == 3
                && field_is(fields@[0], "name"@) && (fields@[0].value matches FactValue::Text(t) && t@ == e.name@)
                && field_is(fields@[1], "kind"@) && (fields@[1].value matches FactValue::Text(t) && t@ == e.kind.spec_schema_name())
                && field_is(fields@[2], "size_bytes"@) && fields@[2].value == FactValue::Number(e.size_bytes)
        },
        (listing.exists && !listing.is_directory) ==> r.facts@.len() == 2,
        texts(r.interpretation@) == if listing.warnings@.len() > 0 {
            seq![dec(listing.warnings@.len() as nat) + " directory listing warnings occurred; permissions or path races may limit completeness."@]
        } else {
            Seq::<Seq<char>>::empty()
        },
        read_only_step(r.safe_next_steps@[0], "bbt --json fs list -- "@ + shell_quote_path(listing.path@), "Fetch the complete structured directory listing"@),
        listing.is_directory ==> {
            let big = listing.entries@.len() > 0;
            &&& r.safe_next_steps@.len() == if big { 3nat } else { 2nat }
            &&& big ==> read_only_step(
                r.safe_next_steps@[1],
                "bbt --agent fs inspect -- "@ + shell_quote_path(join_path(listing.path@, listing.entries@[largest_entry(listing.entries@)].name@)),
                "Inspect the largest immediate entry in more detail"@,
            )
            &&& read_only_step(
                r.safe_next_steps@[if big { 2int } else { 1int }],
                "bbt --agent disk usage --depth 1 -- "@ + shell_quote_path(listing.path@),
                "Calculate recursive size totals below this directory"@,
            )
        },
        (!listing.is_directory && listing.exists) ==> r.safe_next_steps@.len() == 2 && read_only_step(
            r.safe_next_steps@[1],
            "bbt --agent fs inspect -- "@ + shell_quote_path(listing.path@),
            "Inspect this non-directory path's full metadata"@,
        ),
        (!listing.is_directory && !listing.exists) ==> r.safe_next_steps@.len() == 1,
        r.risky_next_steps@.len() == 0,
{
    let severity = if !listing.exists || listing.warnings.len() > 0 {
        Severity::Warning
    } else {
        Severity::Normal
    };
    let mut summary = copy_string(&listing.path);
    if listing.is_directory {
        push_str(&mut summary, " contains ");
        push_dec(&mut summary, listing.entry_count as u64);
        push_str(&mut summary, " entries.");
    } else if listing.exists {
        push_str(&mut summary, " is not a directory.");
    } else {
        push_str(&mut summary, " does not exist.");
    }
    let mut e0 = copy_string(&listing.path);
    if listing.exists {
        push_str(&mut e0, " exists");
    } else {
        push_str(&mut e0, " was not found");
    }
    let mut report = AgentReport::new(
        generated_at,
        Subject::new("fs", "list", Some(listing.path.as_str())),
        summary,
        severity,
    ).with_fact(
        fact_said(
            "path_exists",
            FactValue::Bool(listing.exists),
            if listing.exists {
                Severity::Info
            } else {
                Severity::Warning
            },
            e0,
        ),
    );
    if listing.exists {
        report = report.with_fact(
            fact_with(
                "is_directory",
                FactValue::Bool(listing.is_directory),
                if listing.is_directory {
                    Severity::Info
                } else {
                    Severity::Warning
                },
                "lstat file type of the listed path",
            ),
        );
    }
    let (hidden, largest) = entry_stats(&listing.entries);
    if listing.is_directory {
        report = report.with_fact(
            fact_with(
                "entry_count",
                FactValue::Number(listing.entry_count as u64),
                Severity::Info,
                "immediate entries with readable metadata; non-recursive",
            ),
        ).with_fact(
            fact_with(
                "hidden_entry_count",
                FactValue::Number(hidden),
                Severity::Info,
                "entries whose name starts with a dot",
            ),
        );
        if let Some(k) = largest {
            let e = &listing.entries[k];
            let mut fields: Vec<FactField> = Vec::new();
            fields.push(field("name", FactValue::Text(copy_string(&e.name))));
            fields.push(field("kind", FactValue::Text(owned(e.kind.schema_name()))));
            fields.push(field("size_bytes", FactValue::Number(e.size_bytes)));
            report = report.with_fact(
                fact_with(
                    "largest_entry",
                    FactValue::Object(fields),
                    Severity::Info,
                    "largest immediate entry by lstat size; directory sizes are not recursive",
                ),
            );
        }
    }
    if listing.warnings.len() > 0 {
        let mut t = crate::text::dec_string(listing.warnings.len() as u64);
        push_str(&mut t, " directory listing warnings occurred; permissions or path races may limit completeness.");
        report = report.with_interpretation(t);
    }
    let q = quote_path(listing.path.as_str());
    let mut c0 = owned("bbt --json fs list -- ");
    push_str(&mut c0, q.as_str());
    report = report.with_safe_next_step(NextStep::read_only(c0.as_str(), "Fetch the complete structured directory listing"));
    if listing.is_directory {
        if let Some(k) = largest {
            let joined = join_name(&listing.path, &listing.entries[k].name);
            let qj = quote_path(joined.as_str());
            let mut c1 = owned("bbt --agent fs inspect -- ");
            push_str(&mut c1, qj.as_str());
            report = report.with_safe_next_step(
                NextStep::read_only(c1.as_str(), "Inspect the largest immediate entry in more detail"),
            );
        }
        let mut c2 = owned("bbt --agent disk usage --depth 1 -- ");
        push_str(&mut c2, q.as_str());
        report = report.with_safe_next_step(
            NextStep::read_only(c2.as_str(), "Calculate recursive size totals below this directory"),
        );
    } else if listing.exists {
        let mut c2 = owned("bbt --agent fs inspect -- ");
        push_str(&mut c2, q.as_str());
        report = report.with_safe_next_step(
            NextStep::read_only(c2.as_str(), "Inspect this non-directory path's full metadata"),
        );
    }
    assert(texts(report.interpretation@) =~= if listing.warnings@.len() > 0 {
        seq![dec(listing.warnings@.len() as nat) + " directory listing warnings occurred; permissions or path races may limit completeness."@]
    } else {
        Seq::<Seq<char>>::empty()
    });
    report
}

} // verus!
