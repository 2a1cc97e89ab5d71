//! The human-readable form of each report, as the lines the program prints.
//!
//! Column layouts follow std's width formatting: `{:<w}` pads on the right and
//! `{:>w}` on the left, with spaces, to `w` characters; longer text is kept whole.

use vstd::prelude::*;
use crate::text::{texts, dec, push_dec, push_str, owned, copy_string, chars_of, push_char};
use crate::units::{human_bytes_spec, human_bytes_up_spec, shell_quote_path, shell_quote_arg, escape_all, escape_argument};
use crate::fs::{FileKind, FsInspection, FsListing, FsListEntry};
use crate::disk::{DiskUsage, UsageChild, UsageError, UsageErrorKind};
use crate::proc::{ProcInspection, ProcList, ProcSummary};
use crate::net::{Listener, ListenerReport};
use crate::service::ServiceInspection;
use crate::fs_tree::{FsTree, TreeNode};

verus! {

// ---------------------------------------------------------------------------
// Padding and lines
// ---------------------------------------------------------------------------

/// `n` spaces (none when `n` is not positive).
pub open spec fn spaces(n: int) -> Seq<char>
    decreases n,
{
    if n <= 0 {
        Seq::empty()
    } else {
        spaces(n - 1).push(' ')
    }
}

/// `s` padded with spaces on the right to `w` characters (`{:<w}`).
pub open spec fn pad_right(s: Seq<char>, w: int) -> Seq<char> {
    s + spaces(w - s.len())
}

/// `s` padded with spaces on the left to `w` characters (`{:>w}`).
pub open spec fn pad_left(s: Seq<char>, w: int) -> Seq<char> {
    spaces(w - s.len()) + s
}

fn push_spaces(s: &mut String, n: usize)
    ensures
        final(s)@ == old(s)@ + spaces(n as int),
{
    let ghost start = s@;
    let mut i: usize = 0;
    while i < n
        invariant
            i <= n,
            s@ == start + spaces(i as int),
        decreases n - i,
    {
        push_char(s, ' ');
        i += 1;
        assert(s@ =~= start + spaces(i as int));
    }
}

fn text_len(t: &str) -> (n: usize)
    ensures
        n == t@.len(),
{
    chars_of(t).len()
}

fn push_right(s: &mut String, t: &str, w: usize)
    ensures
        final(s)@ == old(s)@ + pad_right(t@, w as int),
{
    push_str(s, t);
    let n = text_len(t);
    if n < w {
        push_spaces(s, w - n);
    } else {
        push_spaces(s, 0);
    }
    assert(final(s)@ =~= old(s)@ + pad_right(t@, w as int)) by {
        assert(spaces(0) =~= Seq::<char>::empty());
    }
}

fn push_left(s: &mut String, t: &str, w: usize)
    ensures
        final(s)@ == old(s)@ + pad_left(t@, w as int),
{
    let n = text_len(t);
    if n < w {
        push_spaces(s, w - n);
    } else {
        push_spaces(s, 0);
    }
    push_str(s, t);
    assert(final(s)@ =~= old(s)@ + pad_left(t@, w as int)) by {
        assert(spaces(0) =~= Seq::<char>::empty());
    }
}

fn add_line(lines: &mut Vec<String>, s: String)
    ensures
        texts(final(lines)@) == texts(old(lines)@).push(s@),
{
    lines.push(s);
    assert(texts(final(lines)@) =~= texts(old(lines)@).push(s@));
}

fn add_blank(lines: &mut Vec<String>)
    ensures
        texts(final(lines)@) == texts(old(lines)@).push(Seq::empty()),
{
    let s = String::new();
    assert(s@ =~= Seq::<char>::empty());
    add_line(lines, s);
}

fn add_str(lines: &mut Vec<String>, t: &str)
    ensures
        texts(final(lines)@) == texts(old(lines)@).push(t@),
{
    add_line(lines, owned(t));
}

fn add_two(lines: &mut Vec<String>, a: &str, b: &String)
    ensures
        texts(final(lines)@) == texts(old(lines)@).push(a@ + b@),
{
    let mut s = owned(a);
    push_str(&mut s, b.as_str());
    add_line(lines, s);
}

fn add_num(lines: &mut Vec<String>, a: &str, n: u64)
    ensures
        texts(final(lines)@) == texts(old(lines)@).push(a@ + dec(n as nat)),
{
    let mut s = owned(a);
    push_dec(&mut s, n);
    add_line(lines, s);
}

/// `yes` or `no`.
pub open spec fn yes_no(b: bool) -> Seq<char> {
    if b {
        "yes"@
    } else {
        "no"@
    }
}

/// `yes`, `no` or `unknown`.
pub open spec fn yes_no_unknown(b: Option<bool>) -> Seq<char> {
    match b {
        Some(true) => "yes"@,
        Some(false) => "no"@,
        None => "unknown"@,
    }
}

fn yes_no_text(b: bool) -> (s: &'static str)
    ensures
        s@ == yes_no(b),
{
    if b {
        "yes"
    } else {
        "no"
    }
}

fn yes_no_unknown_text(b: Option<bool>) -> (s: &'static str)
    ensures
        s@ == yes_no_unknown(b),
{
    match b {
        Some(true) => "yes",
        Some(false) => "no",
        None => "unknown",
    }
}

/// A warning as printed: indented, and escaped where `escaped`.
pub open spec fn warning_line(w: Seq<char>, escaped: bool) -> Seq<char> {
    "  "@ + if escaped {
        escape_all(w)
    } else {
        w
    }
}

/// Each warning as printed.
pub open spec fn warning_lines(ws: Seq<Seq<char>>, escaped: bool) -> Seq<Seq<char>>
    decreases ws.len(),
{
    if ws.len() == 0 {
        Seq::empty()
    } else {
        warning_lines(ws.drop_last(), escaped).push(warning_line(ws.last(), escaped))
    }
}

/// `acc` followed by a warnings section: a blank line, a heading and each
/// warning, or nothing when there are none.
pub open spec fn with_warnings(acc: Seq<Seq<char>>, ws: Seq<Seq<char>>, escaped: bool) -> Seq<Seq<char>> {
    if ws.len() == 0 {
        acc
    } else {
        acc.push(Seq::empty()).push("Warnings:"@) + warning_lines(ws, escaped)
    }
}

fn add_warnings(lines: &mut Vec<String>, ws: &Vec<String>, escaped: bool)
    ensures
        texts(final(lines)@) == with_warnings(texts(old(lines)@), texts(ws@), escaped),
{
    let ghost start = texts(lines@);
    let ghost wv = texts(ws@);
    if ws.len() == 0 {
        return;
    }
    add_blank(lines);
    add_str(lines, "Warnings:");
    let ghost head = texts(lines@);
    let mut i: usize = 0;
    assert(warning_lines(wv.take(0), escaped) =~= Seq::<Seq<char>>::empty());
    assert(head + warning_lines(wv.take(0), escaped) =~= head);
    while i < ws.len()
        invariant
            i <= ws.len(),
            wv == texts(ws@),
            wv.len() == ws@.len(),
            texts(lines@) == head + warning_lines(wv.take(i as int), escaped),
        decreases ws.len() - i,
    {
        let mut s = owned("  ");
        if escaped {
            let e = crate::units::escape_text(ws[i].as_str());
            push_str(&mut s, e.as_str());
        } else {
            push_str(&mut s, ws[i].as_str());
        }
        assert(wv[i as int] == ws@[i as int]@);
        assert(wv.take(i + 1).drop_last() =~= wv.take(i as int));
        assert(wv.take(i + 1).last() == wv[i as int]);
        add_line(lines, s);
        i += 1;
        assert(texts(lines@) =~= head + warning_lines(wv.take(i as int), escaped));
    }
    assert(wv.take(i as int) =~= wv);
}

// ---------------------------------------------------------------------------
// fs inspect
// ---------------------------------------------------------------------------

/// `acc` with `line` added, when there is one.
pub open spec fn then(acc: Seq<Seq<char>>, line: Option<Seq<char>>) -> Seq<Seq<char>> {
    match line {
        Some(l) => acc.push(l),
        None => acc,
    }
}

/// The optional detail lines of `fs inspect`, after `acc`.
pub open spec fn fs_inspect_details(acc: Seq<Seq<char>>, i: FsInspection) -> Seq<Seq<char>> {
    let size = match i.size_bytes {
        Some(n) => Some("Size:        "@ + dec(n as nat) + " bytes"@),
        None => None,
    };
    let owner = match i.owner {
        Some(o) => Some("Owner:       "@ + dec(o.uid as nat)),
        None => None,
    };
    let group = match i.group {
        Some(g) => Some("Group:       "@ + dec(g.gid as nat)),
        None => None,
    };
    let mode = match i.mode {
        Some(m) => Some("Mode:        "@ + m.octal@ + "  "@ + m.symbolic@),
        None => None,
    };
    let link = match i.symlink_target {
        Some(t) => Some("Symlink:     -> "@ + t@),
        None => None,
    };
    let modified = match i.timestamps.modified {
        Some(t) => Some("Modified:    "@ + t@),
        None => None,
    };
    then(then(then(then(then(then(acc, size), owner), group), mode), link), modified)
}

/// The human form of `fs inspect`.
pub open spec fn fs_inspect_lines(i: FsInspection) -> Seq<Seq<char>> {
    let head = seq![i.path@].push(Seq::empty()).push("Type:        "@ + i.kind.spec_label()).push(
        "Exists:      "@ + yes_no(i.exists),
    );
    fs_inspect_details(head, i).push(Seq::empty()).push("Access for current user:"@).push(
        "  Read:      "@ + yes_no_unknown(i.access.readable),
    ).push("  Write:     "@ + yes_no_unknown(i.access.writable)).push(
        "  Execute:   "@ + yes_no_unknown(i.access.executable),
    ).push(Seq::empty()).push("Safe next observations:"@).push(
        "  bbt fs inspect "@ + shell_quote_path(i.path@) + " --json"@,
    ).push("  bbt fs inspect "@ + shell_quote_path(i.path@) + " --agent"@)
}

fn add_fs_inspect_details(lines: &mut Vec<String>, i: &FsInspection)
    ensures
        texts(final(lines)@) == fs_inspect_details(texts(old(lines)@), *i),
{
    if let Some(n) = i.size_bytes {
        let mut s = owned("Size:        ");
        push_dec(&mut s, n);
        push_str(&mut s, " bytes");
        add_line(lines, s);
    }
    if let Some(o) = &i.owner {
        add_num(lines, "Owner:       ", o.uid as u64);
    }
    if let Some(g) = &i.group {
        add_num(lines, "Group:       ", g.gid as u64);
    }
    if let Some(m) = &i.mode {
        let mut s = owned("Mode:        ");
        push_str(&mut s, m.octal.as_str());
        push_str(&mut s, "  ");
        push_str(&mut s, m.symbolic.as_str());
        add_line(lines, s);
    }
    if let Some(t) = &i.symlink_target {
        add_two(lines, "Symlink:     -> ", t);
    }
    if let Some(t) = &i.timestamps.modified {
        add_two(lines, "Modified:    ", t);
    }
}

/// Starts the lines with a first one.
fn first_line(s: String) -> (lines: Vec<String>)
    ensures
        texts(lines@) == seq![s@],
{
    let mut lines: Vec<String> = Vec::new();
    lines.push(s);
    assert(texts(lines@) =~= seq![lines@[0]@]);
    lines
}

/// The lines of `fs inspect` for people.
pub fn fs_inspect_text(i: &FsInspection) -> (lines: Vec<String>)
    ensures
        texts(lines@) == fs_inspect_lines(*i),
{
    let mut lines = first_line(copy_string(&i.path));
    add_blank(&mut lines);
    let mut t = owned("Type:        ");
    push_str(&mut t, i.kind.label());
    add_line(&mut lines, t);
    let mut e = owned("Exists:      ");
    push_str(&mut e, yes_no_text(i.exists));
    add_line(&mut lines, e);
    add_fs_inspect_details(&mut lines, i);
    add_blank(&mut lines);
    add_str(&mut lines, "Access for current user:");
    let mut r = owned("  Read:      ");
    push_str(&mut r, yes_no_unknown_text(i.access.readable));
    add_line(&mut lines, r);
    let mut w = owned("  Write:     ");
    push_str(&mut w, yes_no_unknown_text(i.access.writable));
    add_line(&mut lines, w);
    let mut x = owned("  Execute:   ");
    push_str(&mut x, yes_no_unknown_text(i.access.executable));
    add_line(&mut lines, x);
    add_blank(&mut lines);
    add_str(&mut lines, "Safe next observations:");
    let quoted = crate::units::quote_path(i.path.as_str());
    let mut json = owned("  bbt fs inspect ");
    push_str(&mut json, quoted.as_str());
    push_str(&mut json, " --json");
    add_line(&mut lines, json);
    let mut agent = owned("  bbt fs inspect ");
    push_str(&mut agent, quoted.as_str());
    push_str(&mut agent, " --agent");
    add_line(&mut lines, agent);
    lines
}

// ---------------------------------------------------------------------------
// Shared pieces
// ---------------------------------------------------------------------------

/// `acc` followed by the two suggested commands.
pub open spec fn with_next(acc: Seq<Seq<char>>, first: Seq<char>, second: Seq<char>) -> Seq<Seq<char>> {
    acc.push(Seq::empty()).push("Safe next observations:"@).push(first).push(second)
}

fn add_next(lines: &mut Vec<String>, first: String, second: String)
    ensures
        texts(final(lines)@) == with_next(texts(old(lines)@), first@, second@),
{
    add_blank(lines);
    add_str(lines, "Safe next observations:");
    add_line(lines, first);
    add_line(lines, second);
}

fn concat_text(a: &str, b: &String) -> (s: String)
    ensures
        s@ == a@ + b@,
{
    let mut s = owned(a);
    push_str(&mut s, b.as_str());
    s
}

fn text_then(a: &String, b: &str) -> (s: String)
    ensures
        s@ == a@ + b@,
{
    let mut s = copy_string(a);
    push_str(&mut s, b);
    s
}

/// A number, or `fallback` when there is none.
pub open spec fn num_or(n: Option<u64>, fallback: Seq<char>) -> Seq<char> {
    match n {
        Some(v) => dec(v as nat),
        None => fallback,
    }
}

fn num_or_text(n: Option<u64>, fallback: &str) -> (s: String)
    ensures
        s@ == num_or(n, fallback@),
{
    match n {
        Some(v) => crate::text::dec_string(v),
        None => owned(fallback),
    }
}

/// A text, or `fallback` when there is none.
pub open spec fn text_or(t: Option<Seq<char>>, fallback: Seq<char>) -> Seq<char> {
    match t {
        Some(v) => v,
        None => fallback,
    }
}

fn text_or_default(t: &Option<String>, fallback: &str) -> (s: String)
    ensures
        s@ == text_or(crate::service::opt_text(*t), fallback@),
{
    match t {
        Some(v) => copy_string(v),
        None => owned(fallback),
    }
}

fn u32_opt(n: Option<u32>) -> (r: Option<u64>)
    ensures
        r == match n {
            Some(v) => Some(v as u64),
            None => None::<u64>,
        },
{
    match n {
        Some(v) => Some(v as u64),
        None => None,
    }
}

/// Texts joined with `sep` between them.
pub open spec fn joined(parts: Seq<Seq<char>>, sep: Seq<char>) -> Seq<char>
    decreases parts.len(),
{
    if parts.len() == 0 {
        Seq::empty()
    } else if parts.len() == 1 {
        parts[0]
    } else {
        joined(parts.drop_last(), sep) + sep + parts.last()
    }
}

fn join_texts(parts: &Vec<String>, sep: &str) -> (s: String)
    ensures
        s@ == joined(texts(parts@), sep@),
{
    let ghost pv = texts(parts@);
    let mut s = String::new();
    let mut i: usize = 0;
    assert(s@ =~= joined(pv.take(0), sep@));
    while i < parts.len()
        invariant
            i <= parts.len(),
            pv == texts(parts@),
            pv.len() == parts@.len(),
            s@ == joined(pv.take(i as int), sep@),
        decreases parts.len() - i,
    {
        assert(pv[i as int] == parts@[i as int]@);
        assert(pv.take(i + 1).drop_last() =~= pv.take(i as int));
        if i > 0 {
            push_str(&mut s, sep);
        } else {
            assert(s@ =~= Seq::<char>::empty());
        }
        push_str(&mut s, parts[i].as_str());
        i += 1;
        assert(s@ =~= joined(pv.take(i as int), sep@));
    }
    assert(pv.take(i as int) =~= pv);
    s
}

// ---------------------------------------------------------------------------
// fs list
// ---------------------------------------------------------------------------

/// The column headings of `fs list`.
pub open spec fn fs_list_heading() -> Seq<char> {
    pad_right("MODE"@, 10) + " "@ + pad_left("OWNER"@, 7) + " "@ + pad_left("GROUP"@, 7) + " "@ + pad_left(
        "SIZE"@,
        12,
    ) + "  "@ + pad_right("MODIFIED"@, 30) + "  NAME"@
}

/// One entry of `fs list`: kind, mode, owner, group, size, modification time
/// and name (with its link target).
pub open spec fn fs_list_row(e: FsListEntry) -> Seq<char> {
    seq![e.kind.spec_indicator()] + pad_right(e.mode.symbolic@, 9) + " "@ + pad_left(dec(e.owner.uid as nat), 7)
        + " "@ + pad_left(dec(e.group.gid as nat), 7) + " "@ + pad_left(dec(e.size_bytes as nat), 12) + "  "@
        + pad_right(text_or(crate::service::opt_text(e.modified), "unknown"@), 30) + "  "@ + e.name@
        + match e.symlink_target {
        Some(t) => " -> "@ + t@,
        None => Seq::empty(),
    }
}

/// `acc` followed by one row per entry.
pub open spec fn fs_list_rows(acc: Seq<Seq<char>>, es: Seq<FsListEntry>) -> Seq<Seq<char>>
    decreases es.len(),
{
    if es.len() == 0 {
        acc
    } else {
        fs_list_rows(acc, es.drop_last()).push(fs_list_row(es.last()))
    }
}

/// The body of `fs list` after its heading lines.
pub open spec fn fs_list_body(acc: Seq<Seq<char>>, l: FsListing) -> Seq<Seq<char>> {
    if !l.exists {
        acc.push(l.path@ + " does not exist."@)
    } else {
        let a = if !l.is_directory {
            acc.push(l.path@ + " is not a directory; showing the path itself."@).push(Seq::empty())
        } else {
            acc
        };
        fs_list_rows(
            a.push("Entries: "@ + dec(l.entry_count as nat)).push(Seq::empty()).push(fs_list_heading()),
            l.entries@,
        )
    }
}

/// The human form of `fs list`.
pub open spec fn fs_list_lines(l: FsListing) -> Seq<Seq<char>> {
    let body = fs_list_body(seq!["Directory listing: "@ + l.path@].push(Seq::empty()), l);
    with_next(
        with_warnings(body, texts(l.warnings@), false),
        "  bbt --json fs list -- "@ + shell_quote_path(l.path@),
        "  bbt --agent fs list -- "@ + shell_quote_path(l.path@),
    )
}

fn push_dec_left(s: &mut String, n: u64, w: usize)
    ensures
        final(s)@ == old(s)@ + pad_left(dec(n as nat), w as int),
{
    let d = crate::text::dec_string(n);
    push_left(s, d.as_str(), w);
}

fn fs_list_row_text(e: &FsListEntry) -> (s: String)
    ensures
        s@ == fs_list_row(*e),
{
    let mut s = String::new();
    push_char(&mut s, e.kind.indicator());
    push_right(&mut s, e.mode.symbolic.as_str(), 9);
    push_str(&mut s, " ");
    push_dec_left(&mut s, e.owner.uid as u64, 7);
    push_str(&mut s, " ");
    push_dec_left(&mut s, e.group.gid as u64, 7);
    push_str(&mut s, " ");
    push_dec_left(&mut s, e.size_bytes, 12);
    push_str(&mut s, "  ");
    let m = text_or_default(&e.modified, "unknown");
    push_right(&mut s, m.as_str(), 30);
    push_str(&mut s, "  ");
    push_str(&mut s, e.name.as_str());
    if let Some(t) = &e.symlink_target {
        push_str(&mut s, " -> ");
        push_str(&mut s, t.as_str());
    }
    assert(s@ =~= fs_list_row(*e));
    s
}

fn heading_text() -> (s: String)
    ensures
        s@ == fs_list_heading(),
{
    let mut s = String::new();
    push_right(&mut s, "MODE", 10);
    push_str(&mut s, " ");
    push_left(&mut s, "OWNER", 7);
    push_str(&mut s, " ");
    push_left(&mut s, "GROUP", 7);
    push_str(&mut s, " ");
    push_left(&mut s, "SIZE", 12);
    push_str(&mut s, "  ");
    push_right(&mut s, "MODIFIED", 30);
    push_str(&mut s, "  NAME");
    assert(s@ =~= fs_list_heading()) by {
        assert(Seq::<char>::empty() + pad_right("MODE"@, 10) =~= pad_right("MODE"@, 10));
    }
    s
}

fn add_fs_list_rows(lines: &mut Vec<String>, es: &Vec<FsListEntry>)
    ensures
        texts(final(lines)@) == fs_list_rows(texts(old(lines)@), es@),
{
    let ghost base = texts(lines@);
    let mut i: usize = 0;
    assert(es@.take(0) =~= Seq::<FsListEntry>::empty());
    while i < es.len()
        invariant
            i <= es.len(),
            texts(lines@) == fs_list_rows(base, es@.take(i as int)),
        decreases es.len() - i,
    {
        assert(es@.take(i + 1).drop_last() =~= es@.take(i as int));
        assert(es@.take(i + 1).last() == es@[i as int]);
        add_line(lines, fs_list_row_text(&es[i]));
        i += 1;
    }
    assert(es@.take(i as int) =~= es@);
}

/// The lines of `fs list` for people.
pub fn fs_list_text(l: &FsListing) -> (lines: Vec<String>)
    ensures
        texts(lines@) == fs_list_lines(*l),
{
    let mut lines = first_line(concat_text("Directory listing: ", &l.path));
    add_blank(&mut lines);
    if !l.exists {
        add_line(&mut lines, text_then(&l.path, " does not exist."));
    } else {
        if !l.is_directory {
            add_line(&mut lines, text_then(&l.path, " is not a directory; showing the path itself."));
            add_blank(&mut lines);
        }
        add_num(&mut lines, "Entries: ", l.entry_count as u64);
        add_blank(&mut lines);
        add_line(&mut lines, heading_text());
        add_fs_list_rows(&mut lines, &l.entries);
    }
    add_warnings(&mut lines, &l.warnings, false);
    let q = crate::units::quote_path(l.path.as_str());
    add_next(&mut lines, concat_text("  bbt --json fs list -- ", &q), concat_text("  bbt --agent fs list -- ", &q));
    lines
}

// ---------------------------------------------------------------------------
// disk usage
// ---------------------------------------------------------------------------

/// The name of an error kind as `{:?}` prints it.
pub open spec fn error_kind_name(k: UsageErrorKind) -> Seq<char> {
    match k {
        UsageErrorKind::NotFound => "NotFound"@,
        UsageErrorKind::PermissionDenied => "PermissionDenied"@,
        UsageErrorKind::ReadDirectory => "ReadDirectory"@,
        UsageErrorKind::Metadata => "Metadata"@,
        UsageErrorKind::DirectoryCycle => "DirectoryCycle"@,
    }
}

fn error_kind_text(k: UsageErrorKind) -> (s: &'static str)
    ensures
        s@ == error_kind_name(k),
{
    match k {
        UsageErrorKind::NotFound => "NotFound",
        UsageErrorKind::PermissionDenied => "PermissionDenied",
        UsageErrorKind::ReadDirectory => "ReadDirectory",
        UsageErrorKind::Metadata => "Metadata",
        UsageErrorKind::DirectoryCycle => "DirectoryCycle",
    }
}

/// A byte count with its binary-unit form: `human (n)`.
pub open spec fn bytes_both(n: u64) -> Seq<char> {
    human_bytes_spec(n) + " ("@ + dec(n as nat) + ")"@
}

/// A byte count of a disk report with its binary-unit form, rounded up.
pub open spec fn usage_bytes_both(n: u64) -> Seq<char> {
    human_bytes_up_spec(n) + " ("@ + dec(n as nat) + ")"@
}

fn usage_bytes_both_text(n: u64) -> (s: String)
    ensures
        s@ == usage_bytes_both(n),
{
    let mut s = crate::units::human_bytes_up(n);
    push_str(&mut s, " (");
    push_dec(&mut s, n);
    push_str(&mut s, ")");
    s
}

fn bytes_both_text(n: u64) -> (s: String)
    ensures
        s@ == bytes_both(n),
{
    let mut s = crate::units::human_bytes(n);
    push_str(&mut s, " (");
    push_dec(&mut s, n);
    push_str(&mut s, ")");
    s
}

/// One of the largest children: size, kind and path.
pub open spec fn usage_child_row(c: UsageChild) -> Seq<char> {
    "  "@ + pad_left(human_bytes_up_spec(c.total_bytes), 12) + "  "@ + pad_right(c.kind.spec_label(), 12) + " "@
        + c.path@
}

/// One error: kind, path and message.
pub open spec fn usage_error_row(e: UsageError) -> Seq<char> {
    "  "@ + error_kind_name(e.kind) + ": "@ + e.path@ + " ("@ + e.message@ + ")"@
}

pub open spec fn usage_child_rows(acc: Seq<Seq<char>>, cs: Seq<UsageChild>) -> Seq<Seq<char>>
    decreases cs.len(),
{
    if cs.len() == 0 {
        acc
    } else {
        usage_child_rows(acc, cs.drop_last()).push(usage_child_row(cs.last()))
    }
}

pub open spec fn usage_error_rows(acc: Seq<Seq<char>>, es: Seq<UsageError>) -> Seq<Seq<char>>
    decreases es.len(),
{
    if es.len() == 0 {
        acc
    } else {
        usage_error_rows(acc, es.drop_last()).push(usage_error_row(es.last()))
    }
}

/// The counters of a usage report, after `acc`.
pub open spec fn usage_counters(acc: Seq<Seq<char>>, u: DiskUsage) -> Seq<Seq<char>> {
    acc.push("Exists:              "@ + yes_no(u.exists)).push(
        "Max depth:           "@ + num_or(u.max_depth, "unlimited"@),
    ).push("One filesystem:      "@ + yes_no(u.one_filesystem)).push(
        "Top limit:           "@ + dec(u.top_limit as nat),
    ).push("Total:              "@ + usage_bytes_both(u.total_bytes)).push(
        "Apparent size:      "@ + usage_bytes_both(u.apparent_bytes),
    ).push("Entries seen:        "@ + dec(u.entries_seen as nat)).push(
        "Directories seen:    "@ + dec(u.directories_seen as nat),
    ).push("Files seen:          "@ + dec(u.files_seen as nat)).push(
        "Symlinks seen:       "@ + dec(u.symlinks_seen as nat),
    ).push("Unreadable entries:  "@ + dec(u.unreadable_entries as nat)).push(
        "Skipped other fs:    "@ + dec(u.skipped_different_filesystem as nat),
    )
}

/// The human form of `disk usage`.
pub open spec fn disk_usage_lines(u: DiskUsage) -> Seq<Seq<char>> {
    let counted = usage_counters(seq!["Disk usage: "@ + u.path@].push(Seq::empty()), u).push(Seq::empty()).push(
        "Largest children:"@,
    );
    let children = if u.largest_children@.len() == 0 {
        counted.push("  none"@)
    } else {
        usage_child_rows(counted, u.largest_children@)
    };
    let errors = if u.errors@.len() == 0 {
        children
    } else {
        usage_error_rows(children.push(Seq::empty()).push("Errors:"@), u.errors@)
    };
    with_next(
        errors,
        "  bbt --json disk usage -- "@ + shell_quote_arg(u.path@),
        "  bbt --agent disk usage -- "@ + shell_quote_arg(u.path@),
    )
}

fn add_usage_counters(lines: &mut Vec<String>, u: &DiskUsage)
    ensures
        texts(final(lines)@) == usage_counters(texts(old(lines)@), *u),
{
    add_two(lines, "Exists:              ", &owned(yes_no_text(u.exists)));
    add_two(lines, "Max depth:           ", &num_or_text(u.max_depth, "unlimited"));
    add_two(lines, "One filesystem:      ", &owned(yes_no_text(u.one_filesystem)));
    add_num(lines, "Top limit:           ", u.top_limit as u64);
    add_two(lines, "Total:              ", &usage_bytes_both_text(u.total_bytes));
    add_two(lines, "Apparent size:      ", &usage_bytes_both_text(u.apparent_bytes));
    add_num(lines, "Entries seen:        ", u.entries_seen);
    add_num(lines, "Directories seen:    ", u.directories_seen);
    add_num(lines, "Files seen:          ", u.files_seen);
    add_num(lines, "Symlinks seen:       ", u.symlinks_seen);
    add_num(lines, "Unreadable entries:  ", u.unreadable_entries);
    add_num(lines, "Skipped other fs:    ", u.skipped_different_filesystem);
}

fn usage_child_text(c: &UsageChild) -> (s: String)
    ensures
        s@ == usage_child_row(*c),
{
    let mut s = owned("  ");
    let h = crate::units::human_bytes_up(c.total_bytes);
    push_left(&mut s, h.as_str(), 12);
    push_str(&mut s, "  ");
    push_right(&mut s, c.kind.label(), 12);
    push_str(&mut s, " ");
    push_str(&mut s, c.path.as_str());
    s
}

fn usage_error_text(e: &UsageError) -> (s: String)
    ensures
        s@ == usage_error_row(*e),
{
    let mut s = owned("  ");
    push_str(&mut s, error_kind_text(e.kind));
    push_str(&mut s, ": ");
    push_str(&mut s, e.path.as_str());
    push_str(&mut s, " (");
    push_str(&mut s, e.message.as_str());
    push_str(&mut s, ")");
    s
}

fn add_child_rows(lines: &mut Vec<String>, cs: &Vec<UsageChild>)
    ensures
        texts(final(lines)@) == usage_child_rows(texts(old(lines)@), cs@),
{
    let ghost base = texts(lines@);
    let mut i: usize = 0;
    assert(cs@.take(0) =~= Seq::<UsageChild>::empty());
    while i < cs.len()
        invariant
            i <= cs.len(),
            texts(lines@) == usage_child_rows(base, cs@.take(i as int)),
        decreases cs.len() - i,
    {
        assert(cs@.take(i + 1).drop_last() =~= cs@.take(i as int));
        assert(cs@.take(i + 1).last() == cs@[i as int]);
        add_line(lines, usage_child_text(&cs[i]));
        i += 1;
    }
    assert(cs@.take(i as int) =~= cs@);
}

fn add_error_rows(lines: &mut Vec<String>, es: &Vec<UsageError>)
    ensures
        texts(final(lines)@) == usage_error_rows(texts(old(lines)@), es@),
{
    let ghost base = texts(lines@);
    let mut i: usize = 0;
    assert(es@.take(0) =~= Seq::<UsageError>::empty());
    while i < es.len()
        invariant
            i <= es.len(),
            texts(lines@) == usage_error_rows(base, es@.take(i as int)),
        decreases es.len() - i,
    {
        assert(es@.take(i + 1).drop_last() =~= es@.take(i as int));
        assert(es@.take(i + 1).last() == es@[i as int]);
        add_line(lines, usage_error_text(&es[i]));
        i += 1;
    }
    assert(es@.take(i as int) =~= es@);
}

/// The lines of `disk usage` for people.
pub fn disk_usage_text(u: &DiskUsage) -> (lines: Vec<String>)
    ensures
        texts(lines@) == disk_usage_lines(*u),
{
    let mut lines = first_line(concat_text("Disk usage: ", &u.path));
    add_blank(&mut lines);
    add_usage_counters(&mut lines, u);
    add_blank(&mut lines);
    add_str(&mut lines, "Largest children:");
    if u.largest_children.len() == 0 {
        add_str(&mut lines, "  none");
    } else {
        add_child_rows(&mut lines, &u.largest_children);
    }
    if u.errors.len() > 0 {
        add_blank(&mut lines);
        add_str(&mut lines, "Errors:");
        add_error_rows(&mut lines, &u.errors);
    }
    let q = crate::units::quote_arg(u.path.as_str());
    add_next(&mut lines, concat_text("  bbt --json disk usage -- ", &q), concat_text("  bbt --agent disk usage -- ", &q));
    lines
}

// ---------------------------------------------------------------------------
// proc inspect, proc list
// ---------------------------------------------------------------------------

/// Command-line arguments as printed: each escaped, empty ones as `""`, joined
/// with spaces.
pub open spec fn command_text(args: Seq<Seq<char>>) -> Seq<char>
    decreases args.len(),
{
    if args.len() == 0 {
        Seq::empty()
    } else if args.len() == 1 {
        escape_argument(args[0])
    } else {
        command_text(args.drop_last()) + " "@ + escape_argument(args.last())
    }
}

fn command_text_of(args: &Vec<String>) -> (s: String)
    ensures
        s@ == command_text(texts(args@)),
{
    let ghost av = texts(args@);
    let mut s = String::new();
    let mut i: usize = 0;
    assert(s@ =~= command_text(av.take(0)));
    while i < args.len()
        invariant
            i <= args.len(),
            av == texts(args@),
            av.len() == args@.len(),
            s@ == command_text(av.take(i as int)),
        decreases args.len() - i,
    {
        assert(av[i as int] == args@[i as int]@);
        assert(av.take(i + 1).drop_last() =~= av.take(i as int));
        if i > 0 {
            push_str(&mut s, " ");
        } else {
            assert(s@ =~= Seq::<char>::empty());
        }
        let e = crate::units::escape_argument_text(args[i].as_str());
        push_str(&mut s, e.as_str());
        i += 1;
        assert(s@ =~= command_text(av.take(i as int)));
    }
    assert(av.take(i as int) =~= av);
    s
}

/// The escaped text of an optional value, `unknown` when there is none.
pub open spec fn escaped_or_unknown(t: Option<String>) -> Seq<char> {
    escape_all(text_or(crate::service::opt_text(t), "unknown"@))
}

fn escaped_or_unknown_text(t: &Option<String>) -> (s: String)
    ensures
        s@ == escaped_or_unknown(*t),
{
    let v = text_or_default(t, "unknown");
    crate::units::escape_text(v.as_str())
}

pub open spec fn proc_fields_a(acc: Seq<Seq<char>>, p: ProcInspection) -> Seq<Seq<char>> {
    acc.push("Exists:      "@ + yes_no(p.exists)).push("Name:        "@ + escaped_or_unknown(p.name)).push(
        "State:       "@ + escaped_or_unknown(p.state),
    ).push(
        "Parent PID:  "@ + num_or(
            match p.parent_pid {
                Some(v) => Some(v as u64),
                None => None,
            },
            "unknown"@,
        ),
    ).push("Children:    "@ + dec(p.child_pids@.len())).push(
        "User:        "@ + escaped_or_unknown(p.user) + " uid="@ + num_or(
            match p.uid {
                Some(v) => Some(v as u64),
                None => None,
            },
            "unknown"@,
        ) + " gid="@ + num_or(
            match p.gid {
                Some(v) => Some(v as u64),
                None => None,
            },
            "unknown"@,
        ),
    ).push("Threads:     "@ + num_or(p.threads, "unknown"@)).push(
        "RSS:         "@ + match p.memory.vm_rss_bytes {
            Some(n) => human_bytes_spec(n),
            None => "unknown"@,
        },
    )
}

/// The fields of `proc inspect`, after `acc`.
pub open spec fn proc_fields(acc: Seq<Seq<char>>, p: ProcInspection) -> Seq<Seq<char>> {
    let a = proc_fields_a(acc, p);
    let b = then(
        then(
            a,
            match p.executable {
                Some(e) => Some("Executable:  "@ + escape_all(e@)),
                None => None,
            },
        ),
        match p.cwd {
            Some(c) => Some("CWD:         "@ + escape_all(c@)),
            None => None,
        },
    );
    if p.command_line@.len() == 0 {
        b
    } else {
        b.push("Command:     "@ + command_text(texts(p.command_line@)))
    }
}

/// The human form of `proc inspect`.
pub open spec fn proc_inspect_lines(p: ProcInspection) -> Seq<Seq<char>> {
    with_next(
        with_warnings(
            proc_fields(seq!["Process inspect: "@ + dec(p.pid as nat)].push(Seq::empty()), p),
            texts(p.warnings@),
            true,
        ),
        "  bbt --json proc inspect "@ + dec(p.pid as nat),
        "  bbt --agent host snapshot"@,
    )
}

fn rss_text(n: Option<u64>) -> (s: String)
    ensures
        s@ == match n {
            Some(v) => human_bytes_spec(v),
            None => "unknown"@,
        },
{
    match n {
        Some(v) => crate::units::human_bytes(v),
        None => owned("unknown"),
    }
}

fn add_proc_fields(lines: &mut Vec<String>, p: &ProcInspection)
    ensures
        texts(final(lines)@) == proc_fields(texts(old(lines)@), *p),
{
    add_two(lines, "Exists:      ", &owned(yes_no_text(p.exists)));
    add_two(lines, "Name:        ", &escaped_or_unknown_text(&p.name));
    add_two(lines, "State:       ", &escaped_or_unknown_text(&p.state));
    add_two(lines, "Parent PID:  ", &num_or_text(u32_opt(p.parent_pid), "unknown"));
    add_num(lines, "Children:    ", p.child_pids.len() as u64);
    let mut u = owned("User:        ");
    let user = escaped_or_unknown_text(&p.user);
    push_str(&mut u, user.as_str());
    push_str(&mut u, " uid=");
    let uid = num_or_text(u32_opt(p.uid), "unknown");
    push_str(&mut u, uid.as_str());
    push_str(&mut u, " gid=");
    let gid = num_or_text(u32_opt(p.gid), "unknown");
    push_str(&mut u, gid.as_str());
    add_line(lines, u);
    add_two(lines, "Threads:     ", &num_or_text(p.threads, "unknown"));
    add_two(lines, "RSS:         ", &rss_text(p.memory.vm_rss_bytes));
    if let Some(e) = &p.executable {
        add_two(lines, "Executable:  ", &crate::units::escape_text(e.as_str()));
    }
    if let Some(c) = &p.cwd {
        add_two(lines, "CWD:         ", &crate::units::escape_text(c.as_str()));
    }
    if p.command_line.len() > 0 {
        add_two(lines, "Command:     ", &command_text_of(&p.command_line));
    }
}

/// The lines of `proc inspect` for people.
pub fn proc_inspect_text(p: &ProcInspection) -> (lines: Vec<String>)
    ensures
        texts(lines@) == proc_inspect_lines(*p),
{
    let mut head = owned("Process inspect: ");
    push_dec(&mut head, p.pid as u64);
    let mut lines = first_line(head);
    add_blank(&mut lines);
    add_proc_fields(&mut lines, p);
    add_warnings(&mut lines, &p.warnings, true);
    let mut first = owned("  bbt --json proc inspect ");
    push_dec(&mut first, p.pid as u64);
    add_next(&mut lines, first, owned("  bbt --agent host snapshot"));
    lines
}

/// The column headings of `proc list`.
pub open spec fn proc_list_heading() -> Seq<char> {
    pad_left("PID"@, 7) + " "@ + pad_left("PPID"@, 7) + " "@ + pad_right("USER"@, 10) + " "@ + pad_left("RSS"@, 10)
        + " COMMAND"@
}

/// What `proc list` shows as a process's command: its arguments joined with
/// spaces, or its name (`unknown` when that is missing too).
pub open spec fn list_command(p: ProcSummary) -> Seq<char> {
    if p.command_line@.len() == 0 {
        text_or(crate::service::opt_text(p.name), "unknown"@)
    } else {
        joined(texts(p.command_line@), " "@)
    }
}

/// One process of `proc list`.
pub open spec fn proc_row(p: ProcSummary) -> Seq<char> {
    pad_left(dec(p.pid as nat), 7) + " "@ + pad_left(
        match p.parent_pid {
            Some(v) => dec(v as nat),
            None => "-"@,
        },
        7,
    ) + " "@ + pad_right(escaped_or_unknown(p.user), 10) + " "@ + pad_left(
        match p.vm_rss_bytes {
            Some(n) => human_bytes_spec(n),
            None => "unknown"@,
        },
        10,
    ) + " "@ + escape_all(list_command(p))
}

pub open spec fn proc_rows(acc: Seq<Seq<char>>, ps: Seq<ProcSummary>) -> Seq<Seq<char>>
    decreases ps.len(),
{
    if ps.len() == 0 {
        acc
    } else {
        proc_rows(acc, ps.drop_last()).push(proc_row(ps.last()))
    }
}

/// How many processes `proc list` shows.
pub const PROC_ROWS_SHOWN: usize = 30;

/// The human form of `proc list`: the first thirty processes, then how many
/// more there are.
pub open spec fn proc_list_lines(l: ProcList) -> Seq<Seq<char>> {
    let n = l.processes@.len();
    let shown = if n > 30 {
        l.processes@.take(30)
    } else {
        l.processes@
    };
    let rows = proc_rows(
        seq!["Process list"@].push(Seq::empty()).push("Processes: "@ + dec(l.process_count as nat)).push(
            Seq::empty(),
        ).push(proc_list_heading()),
        shown,
    );
    let more = if n > 30 {
        rows.push("... "@ + dec((n - 30) as nat) + " more"@)
    } else {
        rows
    };
    with_next(with_warnings(more, texts(l.warnings@), true), "  bbt --json proc list"@, "  bbt --agent net listeners"@)
}

fn proc_heading_text() -> (s: String)
    ensures
        s@ == proc_list_heading(),
{
    let mut s = String::new();
    push_left(&mut s, "PID", 7);
    push_str(&mut s, " ");
    push_left(&mut s, "PPID", 7);
    push_str(&mut s, " ");
    push_right(&mut s, "USER", 10);
    push_str(&mut s, " ");
    push_left(&mut s, "RSS", 10);
    push_str(&mut s, " COMMAND");
    assert(s@ =~= proc_list_heading());
    s
}

fn proc_row_text(p: &ProcSummary) -> (s: String)
    ensures
        s@ == proc_row(*p),
{
    let mut s = String::new();
    push_dec_left(&mut s, p.pid as u64, 7);
    push_str(&mut s, " ");
    let parent = match p.parent_pid {
        Some(v) => crate::text::dec_string(v as u64),
        None => owned("-"),
    };
    push_left(&mut s, parent.as_str(), 7);
    push_str(&mut s, " ");
    let user = escaped_or_unknown_text(&p.user);
    push_right(&mut s, user.as_str(), 10);
    push_str(&mut s, " ");
    let rss = rss_text(p.vm_rss_bytes);
    push_left(&mut s, rss.as_str(), 10);
    push_str(&mut s, " ");
    let command = if p.command_line.len() == 0 {
        text_or_default(&p.name, "unknown")
    } else {
        join_texts(&p.command_line, " ")
    };
    let e = crate::units::escape_text(command.as_str());
    push_str(&mut s, e.as_str());
    assert(s@ =~= proc_row(*p));
    s
}

/// The lines of `proc list` for people.
pub fn proc_list_text(l: &ProcList) -> (lines: Vec<String>)
    ensures
        texts(lines@) == proc_list_lines(*l),
{
    let mut lines = first_line(owned("Process list"));
    add_blank(&mut lines);
    add_num(&mut lines, "Processes: ", l.process_count as u64);
    add_blank(&mut lines);
    add_line(&mut lines, proc_heading_text());
    let n = l.processes.len();
    let shown = if n > PROC_ROWS_SHOWN {
        PROC_ROWS_SHOWN
    } else {
        n
    };
    let ghost ps = l.processes@;
    let ghost target = if n > 30 {
        ps.take(30)
    } else {
        ps
    };
    let ghost base = texts(lines@);
    let mut i: usize = 0;
    assert(target.take(0) =~= Seq::<ProcSummary>::empty());
    while i < shown
        invariant
            i <= shown,
            shown == target.len(),
            shown <= n,
            n == ps.len(),
            ps == l.processes@,
            forall|j: int| 0 <= j < shown ==> target[j] == ps[j],
            texts(lines@) == proc_rows(base, target.take(i as int)),
        decreases shown - i,
    {
        assert(target.take(i + 1).drop_last() =~= target.take(i as int));
        assert(target.take(i + 1).last() == ps[i as int]);
        add_line(&mut lines, proc_row_text(&l.processes[i]));
        i += 1;
    }
    assert(target.take(i as int) =~= target);
    if n > PROC_ROWS_SHOWN {
        let mut m = owned("... ");
        push_dec(&mut m, (n - PROC_ROWS_SHOWN) as u64);
        push_str(&mut m, " more");
        add_line(&mut lines, m);
    }
    add_warnings(&mut lines, &l.warnings, true);
    add_next(&mut lines, owned("  bbt --json proc list"), owned("  bbt --agent net listeners"));
    lines
}

// ---------------------------------------------------------------------------
// net listeners
// ---------------------------------------------------------------------------

/// The column headings of `net listeners`.
pub open spec fn listeners_heading() -> Seq<char> {
    pad_right("PROTO"@, 6) + " "@ + pad_right("ADDRESS"@, 39) + " "@ + pad_left("PORT"@, 5) + " "@ + pad_right(
        "PIDS"@,
        12,
    ) + " PROCESS"@
}

/// Process ids joined with commas.
pub open spec fn pid_list(pids: Seq<u32>) -> Seq<char>
    decreases pids.len(),
{
    if pids.len() == 0 {
        Seq::empty()
    } else if pids.len() == 1 {
        dec(pids[0] as nat)
    } else {
        pid_list(pids.drop_last()) + ","@ + dec(pids.last() as nat)
    }
}

/// One listener: protocol, address, port, owning pids and process names.
pub open spec fn listener_row(l: Listener) -> Seq<char> {
    pad_right(l.protocol@, 6) + " "@ + pad_right(escape_all(l.address@), 39) + " "@ + pad_left(dec(l.port as nat), 5)
        + " "@ + pad_right(
        if l.pids@.len() == 0 {
            "-"@
        } else {
            pid_list(l.pids@)
        },
        12,
    ) + " "@ + escape_all(
        if l.processes@.len() == 0 {
            "unknown"@
        } else {
            joined(texts(l.processes@), ","@)
        },
    )
}

pub open spec fn listener_rows(acc: Seq<Seq<char>>, ls: Seq<Listener>) -> Seq<Seq<char>>
    decreases ls.len(),
{
    if ls.len() == 0 {
        acc
    } else {
        listener_rows(acc, ls.drop_last()).push(listener_row(ls.last()))
    }
}

/// The human form of `net listeners`.
pub open spec fn listeners_lines(r: ListenerReport) -> Seq<Seq<char>> {
    let rows = listener_rows(
        seq!["Network listeners"@].push(Seq::empty()).push("Listeners: "@ + dec(r.listener_count as nat)).push(
            Seq::empty(),
        ).push(listeners_heading()),
        r.listeners@,
    );
    with_next(with_warnings(rows, texts(r.warnings@), true), "  bbt --json net listeners"@, "  bbt --agent proc list"@)
}

fn pid_list_text(pids: &Vec<u32>) -> (s: String)
    ensures
        s@ == pid_list(pids@),
{
    let mut s = String::new();
    let mut i: usize = 0;
    assert(s@ =~= pid_list(pids@.take(0)));
    while i < pids.len()
        invariant
            i <= pids.len(),
            s@ == pid_list(pids@.take(i as int)),
        decreases pids.len() - i,
    {
        assert(pids@.take(i + 1).drop_last() =~= pids@.take(i as int));
        if i > 0 {
            push_str(&mut s, ",");
        } else {
            assert(s@ =~= Seq::<char>::empty());
        }
        push_dec(&mut s, pids[i] as u64);
        i += 1;
        assert(s@ =~= pid_list(pids@.take(i as int)));
    }
    assert(pids@.take(i as int) =~= pids@);
    s
}

fn heading_listeners() -> (s: String)
    ensures
        s@ == listeners_heading(),
{
    let mut s = String::new();
    push_right(&mut s, "PROTO", 6);
    push_str(&mut s, " ");
    push_right(&mut s, "ADDRESS", 39);
    push_str(&mut s, " ");
    push_left(&mut s, "PORT", 5);
    push_str(&mut s, " ");
    push_right(&mut s, "PIDS", 12);
    push_str(&mut s, " PROCESS");
    assert(s@ =~= listeners_heading());
    s
}

fn listener_row_text(l: &Listener) -> (s: String)
    ensures
        s@ == listener_row(*l),
{
    let mut s = String::new();
    push_right(&mut s, l.protocol.as_str(), 6);
    push_str(&mut s, " ");
    let a = crate::units::escape_text(l.address.as_str());
    push_right(&mut s, a.as_str(), 39);
    push_str(&mut s, " ");
    push_dec_left(&mut s, l.port as u64, 5);
    push_str(&mut s, " ");
    let pids = if l.pids.len() == 0 {
        owned("-")
    } else {
        pid_list_text(&l.pids)
    };
    push_right(&mut s, pids.as_str(), 12);
    push_str(&mut s, " ");
    let processes = if l.processes.len() == 0 {
        owned("unknown")
    } else {
        join_texts(&l.processes, ",")
    };
    let e = crate::units::escape_text(processes.as_str());
    push_str(&mut s, e.as_str());
    assert(s@ =~= listener_row(*l));
    s
}

/// The lines of `net listeners` for people.
pub fn listeners_text(r: &ListenerReport) -> (lines: Vec<String>)
    ensures
        texts(lines@) == listeners_lines(*r),
{
    let mut lines = first_line(owned("Network listeners"));
    add_blank(&mut lines);
    add_num(&mut lines, "Listeners: ", r.listener_count as u64);
    add_blank(&mut lines);
    add_line(&mut lines, heading_listeners());
    let ghost base = texts(lines@);
    let ghost ls = r.listeners@;
    let mut i: usize = 0;
    assert(ls.take(0) =~= Seq::<Listener>::empty());
    while i < r.listeners.len()
        invariant
            i <= r.listeners.len(),
            ls == r.listeners@,
            texts(lines@) == listener_rows(base, ls.take(i as int)),
        decreases r.listeners.len() - i,
    {
        assert(ls.take(i + 1).drop_last() =~= ls.take(i as int));
        assert(ls.take(i + 1).last() == ls[i as int]);
        add_line(&mut lines, listener_row_text(&r.listeners[i]));
        i += 1;
    }
    assert(ls.take(i as int) =~= ls);
    add_warnings(&mut lines, &r.warnings, true);
    add_next(&mut lines, owned("  bbt --json net listeners"), owned("  bbt --agent proc list"));
    lines
}

// ---------------------------------------------------------------------------
// service inspect
// ---------------------------------------------------------------------------

/// The fields of `service inspect`, after `acc`.
pub open spec fn service_fields(acc: Seq<Seq<char>>, i: ServiceInspection) -> Seq<Seq<char>> {
    let a = acc.push("Exists:       "@ + yes_no(i.exists)).push(
        "Load state:   "@ + text_or(crate::service::opt_text(i.load_state), "unknown"@),
    ).push("Active state: "@ + text_or(crate::service::opt_text(i.active_state), "unknown"@)).push(
        "Sub state:    "@ + text_or(crate::service::opt_text(i.sub_state), "unknown"@),
    ).push("Unit file:    "@ + text_or(crate::service::opt_text(i.unit_file_state), "unknown"@));
    let b = then(
        a,
        match i.description {
            Some(d) => Some("Description:  "@ + escape_all(d@)),
            None => None,
        },
    ).push(
        "Main PID:     "@ + num_or(
            match i.main_pid {
                Some(v) => Some(v as u64),
                None => None,
            },
            "none"@,
        ),
    );
    then(
        b,
        match i.fragment_path {
            Some(f) => Some("Unit path:    "@ + escape_all(f@)),
            None => None,
        },
    )
}

/// The human form of `service inspect`.
pub open spec fn service_lines(i: ServiceInspection) -> Seq<Seq<char>> {
    with_next(
        with_warnings(
            service_fields(seq!["Service inspect: "@ + escape_all(i.name@)].push(Seq::empty()), i),
            texts(i.warnings@),
            true,
        ),
        "  bbt --json service inspect "@ + crate::units::shell_quote_unit(i.name@),
        "  bbt --agent net listeners"@,
    )
}

fn add_service_fields(lines: &mut Vec<String>, i: &ServiceInspection)
    ensures
        texts(final(lines)@) == service_fields(texts(old(lines)@), *i),
{
    add_two(lines, "Exists:       ", &owned(yes_no_text(i.exists)));
    add_two(lines, "Load state:   ", &text_or_default(&i.load_state, "unknown"));
    add_two(lines, "Active state: ", &text_or_default(&i.active_state, "unknown"));
    add_two(lines, "Sub state:    ", &text_or_default(&i.sub_state, "unknown"));
    add_two(lines, "Unit file:    ", &text_or_default(&i.unit_file_state, "unknown"));
    if let Some(d) = &i.description {
        add_two(lines, "Description:  ", &crate::units::escape_text(d.as_str()));
    }
    add_two(lines, "Main PID:     ", &num_or_text(u32_opt(i.main_pid), "none"));
    if let Some(f) = &i.fragment_path {
        add_two(lines, "Unit path:    ", &crate::units::escape_text(f.as_str()));
    }
}

/// The lines of `service inspect` for people.
pub fn service_text(i: &ServiceInspection) -> (lines: Vec<String>)
    ensures
        texts(lines@) == service_lines(*i),
{
    let name = crate::units::escape_text(i.name.as_str());
    let mut lines = first_line(concat_text("Service inspect: ", &name));
    add_blank(&mut lines);
    add_service_fields(&mut lines, i);
    add_warnings(&mut lines, &i.warnings, true);
    let q = crate::units::quote_unit(i.name.as_str());
    add_next(&mut lines, concat_text("  bbt --json service inspect ", &q), owned("  bbt --agent net listeners"));
    lines
}

// ---------------------------------------------------------------------------
// fs tree
// ---------------------------------------------------------------------------

/// A node as the tree drawing names it: its name and its total size.
pub open spec fn tree_label(n: TreeNode) -> Seq<char> {
    n.name@ + "  ["@ + human_bytes_spec(n.total_bytes) + "]"@
}

/// The drawing of the nodes `cs`, siblings in order, below `prefix`: each on a
/// line with its branch, followed by the drawing of its own children; the last
/// sibling's branch and continuation differ.
pub open spec fn draw(cs: Seq<TreeNode>, prefix: Seq<char>) -> Seq<Seq<char>>
    decreases cs,
{
    if cs.len() == 0 {
        Seq::empty()
    } else {
        let last = cs.len() == 1;
        let line = prefix + (if last {
            "└── "@
        } else {
            "├── "@
        }) + tree_label(cs[0]);
        let below = match cs[0].children {
            Some(v) => {
                proof {
                    assert(decreases_to!(cs => cs[0]));
                    assert(decreases_to!(cs[0] => cs[0].children));
                }
                draw(
                    v@,
                    prefix + (if last {
                        "    "@
                    } else {
                        "│   "@
                    }),
                )
            },
            None => Seq::empty(),
        };
        seq![line] + below + draw(cs.drop_first(), prefix)
    }
}

/// The drawing of a node's children below `prefix`.
pub open spec fn draw_children(n: TreeNode, prefix: Seq<char>) -> Seq<Seq<char>> {
    match n.children {
        Some(v) => draw(v@, prefix),
        None => Seq::empty(),
    }
}

fn tree_label_text(n: &TreeNode) -> (s: String)
    ensures
        s@ == tree_label(*n),
{
    let mut s = copy_string(&n.name);
    push_str(&mut s, "  [");
    let h = crate::units::human_bytes(n.total_bytes);
    push_str(&mut s, h.as_str());
    push_str(&mut s, "]");
    s
}

proof fn lemma_draw_step(cs: Seq<TreeNode>, prefix: Seq<char>, i: int)
    requires
        0 <= i < cs.len(),
    ensures
        ({
            let last = i == cs.len() - 1;
            let line = prefix + (if last {
                "└── "@
            } else {
                "├── "@
            }) + tree_label(cs[i]);
            draw(cs.skip(i), prefix) == seq![line] + draw_children(
                cs[i],
                prefix + (if last {
                    "    "@
                } else {
                    "│   "@
                }),
            ) + draw(cs.skip(i + 1), prefix)
        }),
{
    assert(cs.skip(i).drop_first() =~= cs.skip(i + 1));
    assert(cs.skip(i)[0] == cs[i]);
}

fn add_tree_children(lines: &mut Vec<String>, n: &TreeNode, prefix: &String)
    ensures
        texts(final(lines)@) == texts(old(lines)@) + draw_children(*n, prefix@),
    decreases n,
{
    let ghost base = texts(lines@);
    match &n.children {
        None => {
            assert(texts(lines@) =~= base + draw_children(*n, prefix@));
        },
        Some(cs) => {
            let ghost whole = draw(cs@, prefix@);
            let mut i: usize = 0;
            assert(cs@.skip(0) =~= cs@);
            assert(base + whole =~= texts(lines@) + draw(cs@.skip(0), prefix@));
            while i < cs.len()
                invariant
                    i <= cs.len(),
                    n.children == Some(*cs),
                    whole == draw(cs@, prefix@),
                    base + whole == texts(lines@) + draw(cs@.skip(i as int), prefix@),
                decreases cs.len() - i,
            {
                let last = i + 1 == cs.len();
                let mut line = copy_string(prefix);
                if last {
                    push_str(&mut line, "└── ");
                } else {
                    push_str(&mut line, "├── ");
                }
                let label = tree_label_text(&cs[i]);
                push_str(&mut line, label.as_str());
                let mut below = copy_string(prefix);
                if last {
                    push_str(&mut below, "    ");
                } else {
                    push_str(&mut below, "│   ");
                }
                proof {
                    lemma_draw_step(cs@, prefix@, i as int);
                }
                let ghost before = texts(lines@);
                add_line(lines, line);
                proof {
                    let ghost v = *cs;
                    assert(decreases_to!(*n => n.children));
                    assert(decreases_to!(n.children => n.children->0));
                    assert(decreases_to!(v => v@));
                    assert(decreases_to!(v@ => v@[i as int]));
                }
                add_tree_children(lines, &cs[i], &below);
                i += 1;
                assert(base + whole =~= texts(lines@) + draw(cs@.skip(i as int), prefix@));
            }
            assert(cs@.skip(i as int) =~= Seq::<TreeNode>::empty());
            assert(texts(lines@) =~= base + draw_children(*n, prefix@));
        },
    }
}

/// The body of `fs tree` after its heading lines.
pub open spec fn fs_tree_body(acc: Seq<Seq<char>>, t: FsTree) -> Seq<Seq<char>> {
    if !t.exists {
        acc.push(t.path@ + " does not exist."@)
    } else {
        match t.root {
            Some(root) => acc.push("Max depth:           "@ + num_or(t.max_depth, "unlimited"@)).push(
                "One filesystem:      "@ + yes_no(t.one_filesystem),
            ).push("Total:               "@ + bytes_both(root.total_bytes)).push(
                "Apparent size:       "@ + bytes_both(root.apparent_bytes),
            ).push("Entries seen:        "@ + dec(t.entries_seen as nat)).push(
                "Skipped other fs:    "@ + dec(t.skipped_different_filesystem as nat),
            ).push(Seq::empty()).push(tree_label(root)) + draw_children(root, Seq::empty()),
            None => acc,
        }
    }
}

/// The human form of `fs tree`.
pub open spec fn fs_tree_lines(t: FsTree) -> Seq<Seq<char>> {
    with_next(
        with_warnings(
            fs_tree_body(seq!["Directory tree: "@ + t.path@].push(Seq::empty()), t),
            texts(t.warnings@),
            false,
        ),
        "  bbt --json fs tree -- "@ + shell_quote_path(t.path@),
        "  bbt --agent fs tree -- "@ + shell_quote_path(t.path@),
    )
}

/// The lines of `fs tree` for people.
pub fn fs_tree_text(t: &FsTree) -> (lines: Vec<String>)
    ensures
        texts(lines@) == fs_tree_lines(*t),
{
    let mut lines = first_line(concat_text("Directory tree: ", &t.path));
    add_blank(&mut lines);
    if !t.exists {
        add_line(&mut lines, text_then(&t.path, " does not exist."));
    } else if let Some(root) = &t.root {
        add_two(&mut lines, "Max depth:           ", &num_or_text(t.max_depth, "unlimited"));
        add_two(&mut lines, "One filesystem:      ", &owned(yes_no_text(t.one_filesystem)));
        add_two(&mut lines, "Total:               ", &bytes_both_text(root.total_bytes));
        add_two(&mut lines, "Apparent size:       ", &bytes_both_text(root.apparent_bytes));
        add_num(&mut lines, "Entries seen:        ", t.entries_seen);
        add_num(&mut lines, "Skipped other fs:    ", t.skipped_different_filesystem);
        add_blank(&mut lines);
        add_line(&mut lines, tree_label_text(root));
        let top = String::new();
        assert(top@ =~= Seq::<char>::empty());
        add_tree_children(&mut lines, root, &top);
    }
    add_warnings(&mut lines, &t.warnings, false);
    let q = crate::units::quote_path(t.path.as_str());
    add_next(&mut lines, concat_text("  bbt --json fs tree -- ", &q), concat_text("  bbt --agent fs tree -- ", &q));
    lines
}

} // verus!
