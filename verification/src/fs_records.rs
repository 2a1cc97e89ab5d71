//! The records of `fs inspect` and `fs list`, built from what `lstat`,
//! `readlink`, `access` and `read_dir` gave, and the timestamps they carry.

use vstd::prelude::*;
use crate::entry::{EntryMeta, PathText};
use crate::output::is_rfc3339_utc;
use crate::fs::{
    FileKind, FsInspection, FsListing, FsListEntry, Owner, Group, Mode, Access, Timestamps,
    kind_of_mode, kind_of, mode_of, octal_mode_spec, symbolic_mode_spec,
};
use crate::text::{
    bytes_hex, hex_of, copy_string, owned, push_str, push_dec, push_char, dec, texts, concat4,
};
use crate::order::{TotalOrder, sort_by_order, lex_le, lemma_lex_total, lemma_lex_le_trans, compare_bytes_sign};

verus! {

// ---------------------------------------------------------------------------
// Timestamps
// ---------------------------------------------------------------------------

/// The RFC 3339 text the `time` crate gives for a Unix time.
pub uninterp spec fn rfc3339_at(seconds: i64, nanosecond: u32) -> Option<Seq<char>>;

/// Formats a Unix time as RFC 3339 text with the `time` crate
/// (`OffsetDateTime::from_unix_timestamp`, `replace_nanosecond`, then `format`
/// with `Rfc3339`).
///
/// Trusted: the text, or its absence when the time is outside the crate's range
/// or formatting fails, is `rfc3339_at` of the arguments. A text that comes back
/// has the shape of `is_rfc3339_utc`: `from_unix_timestamp` gives the UTC offset,
/// which `replace_nanosecond` keeps and for which the `Rfc3339` formatter writes
/// `Z`.
#[verifier::external_body]
fn format_rfc3339(seconds: i64, nanosecond: u32) -> (r: Option<String>)
    ensures
        match r {
            Some(t) => rfc3339_at(seconds, nanosecond) == Some(t@) && is_rfc3339_utc(t@),
            None => rfc3339_at(seconds, nanosecond) is None,
        },
{
    let time = match time::OffsetDateTime::from_unix_timestamp(seconds) {
        Ok(time) => time,
        Err(_) => return None,
    };
    let time = match time.replace_nanosecond(nanosecond) {
        Ok(time) => time,
        Err(_) => return None,
    };
    time.format(&time::format_description::well_known::Rfc3339).ok()
}

/// A signed decimal number.
pub open spec fn signed_dec(n: int) -> Seq<char> {
    if n < 0 {
        "-"@ + dec((-n) as nat)
    } else {
        dec(n as nat)
    }
}

/// `n` zeros.
pub open spec fn zeros(n: int) -> Seq<char>
    decreases n,
{
    if n <= 0 {
        Seq::empty()
    } else {
        zeros(n - 1).push('0')
    }
}

/// A number zero-padded to nine characters, the sign included (`{:09}`).
pub open spec fn pad9(n: int) -> Seq<char> {
    if n < 0 {
        "-"@ + zeros(8 - dec((-n) as nat).len()) + dec((-n) as nat)
    } else {
        zeros(9 - dec(n as nat).len()) + dec(n as nat)
    }
}

/// The text of a Unix time: RFC 3339 where the `time` crate can give it, else
/// `seconds.nanosecondsZ`.
pub open spec fn unix_time_text(seconds: i64, nanoseconds: i64) -> Seq<char> {
    match rfc3339_at(seconds, nanoseconds as u32) {
        Some(t) => t,
        None => signed_dec(seconds as int) + "."@ + pad9(nanoseconds as int) + "Z"@,
    }
}

fn magnitude(n: i64) -> (m: u64)
    ensures
        m as int == if n < 0 { -(n as int) } else { n as int },
{
    if n < 0 {
        let w: i128 = 0i128 - (n as i128);
        w as u64
    } else {
        n as u64
    }
}

fn push_zeros(s: &mut String, n: usize)
    ensures
        final(s)@ == old(s)@ + zeros(n as int),
{
    let ghost start = s@;
    let mut i: usize = 0;
    while i < n
        invariant
            i <= n,
            s@ == start + zeros(i as int),
        decreases n - i,
    {
        push_char(s, '0');
        i += 1;
        assert(s@ =~= start + zeros(i as int));
    }
}

/// The decimal digits of a magnitude.
fn digits_of(m: u64) -> (s: String)
    ensures
        s@ == dec(m as nat),
{
    crate::text::dec_string(m)
}

/// The text of a Unix time, as `fs inspect` reports the change time.
pub fn format_unix_timestamp(seconds: i64, nanoseconds: i64) -> (s: String)
    ensures
        s@ == unix_time_text(seconds, nanoseconds),
{
    if let Some(t) = format_rfc3339(seconds, nanoseconds as u32) {
        return t;
    }
    let mut s = String::new();
    if seconds < 0 {
        push_str(&mut s, "-");
    }
    push_dec(&mut s, magnitude(seconds));
    push_str(&mut s, ".");
    let d = digits_of(magnitude(nanoseconds));
    let width: usize = if nanoseconds < 0 {
        8
    } else {
        9
    };
    if nanoseconds < 0 {
        push_str(&mut s, "-");
    }
    let dl = crate::text::chars_of(d.as_str()).len();
    if dl < width {
        push_zeros(&mut s, width - dl);
    } else {
        assert(zeros(width - dl) =~= Seq::<char>::empty());
    }
    push_str(&mut s, d.as_str());
    push_str(&mut s, "Z");
    assert(s@ =~= unix_time_text(seconds, nanoseconds));
    s
}

/// A time as seconds and nanoseconds since the Unix epoch.
#[derive(Clone, Copy)]
pub struct UnixTime {
    pub seconds: i64,
    pub nanosecond: u32,
}

/// The RFC 3339 text of an optional time.
pub open spec fn time_text(t: Option<UnixTime>) -> Option<Seq<char>> {
    match t {
        Some(u) => rfc3339_at(u.seconds, u.nanosecond),
        None => None,
    }
}

fn format_time(t: Option<UnixTime>) -> (r: Option<String>)
    ensures
        crate::service::opt_text(r) == time_text(t),
{
    match t {
        Some(u) => format_rfc3339(u.seconds, u.nanosecond),
        None => None,
    }
}

// ---------------------------------------------------------------------------
// What lstat gave
// ---------------------------------------------------------------------------

/// The fields of an `lstat` record that `fs inspect` and `fs list` report.
pub struct PathStat {
    pub meta: EntryMeta,
    pub uid: u32,
    pub gid: u32,
    pub modified: Option<UnixTime>,
    pub accessed: Option<UnixTime>,
    pub created: Option<UnixTime>,
    /// The change time (`st_ctime`, `st_ctime_nsec`).
    pub changed_seconds: i64,
    pub changed_nanoseconds: i64,
}

/// Why `lstat` failed.
pub enum StatError {
    NotFound,
    Other(String),
}

/// The warning for a path whose metadata could not be read.
pub open spec fn metadata_unavailable_text(path: Seq<char>, error: Seq<char>) -> Seq<char> {
    "metadata unavailable for "@ + path + ": "@ + error
}

fn make_metadata_unavailable(path: &String, error: &String) -> (s: String)
    ensures
        s@ == metadata_unavailable_text(path@, error@),
{
    concat4("metadata unavailable for ", path, ": ", error)
}

fn one_text(s: String) -> (v: Vec<String>)
    ensures
        texts(v@) == seq![s@],
{
    let ghost sv = s@;
    let mut v: Vec<String> = Vec::new();
    v.push(s);
    assert(texts(v@) =~= seq![sv]);
    v
}

/// The mode record of an `lstat` mode.
pub open spec fn mode_matches(m: Mode, mode: u32) -> bool {
    m.octal@ == octal_mode_spec(mode) && m.symbolic@ == symbolic_mode_spec(mode)
}

/// The inspection of `path` from what reading it gave: its absolute form (if it
/// could be made), its `lstat` record or why that failed, its canonical form,
/// its link target (read for symbolic links) and the current user's access
/// (checked for everything but symbolic links).
pub fn inspection_from(
    path: &PathText,
    absolute_path: Option<String>,
    stat: Result<PathStat, StatError>,
    canonical_path: Option<String>,
    symlink_target: Option<String>,
    access: Access,
) -> (i: FsInspection)
    ensures
        i.path@ == path.display@,
        i.path_bytes_hex@ == hex_of(path.bytes@),
        i.absolute_path == absolute_path,
        match stat {
            Err(StatError::NotFound) => !i.exists && i.kind == FileKind::Missing && i.warnings@.len() == 0,
            Err(StatError::Other(e)) => !i.exists && i.kind == FileKind::Unknown
                && texts(i.warnings@) == seq![metadata_unavailable_text(path.display@, e@)],
            Ok(_) => i.exists && i.warnings@.len() == 0,
        },
        stat is Err ==> {
            &&& i.canonical_path is None && i.size_bytes is None && i.owner is None && i.group is None
            &&& i.mode is None && i.symlink_target is None
            &&& i.access.readable is None && i.access.writable is None && i.access.executable is None
            &&& i.timestamps.modified is None && i.timestamps.accessed is None
            &&& i.timestamps.changed is None && i.timestamps.created is None
        },
        stat matches Ok(st) ==> {
            let kind = kind_of_mode(st.meta.mode);
            let link = kind == FileKind::Symlink;
            &&& i.kind == kind
            &&& i.canonical_path == canonical_path
            &&& i.size_bytes == Some(st.meta.len)
            &&& (i.owner matches Some(o) && o.uid == st.uid && o.name is None)
            &&& (i.group matches Some(g) && g.gid == st.gid && g.name is None)
            &&& (i.mode matches Some(m) && mode_matches(m, st.meta.mode))
            &&& link ==> (i.access.readable is None && i.access.writable is None && i.access.executable is None)
            &&& !link ==> i.access == access
            &&& i.symlink_target == if link { symlink_target } else { None }
            &&& crate::service::opt_text(i.timestamps.modified) == time_text(st.modified)
            &&& crate::service::opt_text(i.timestamps.accessed) == time_text(st.accessed)
            &&& crate::service::opt_text(i.timestamps.created) == time_text(st.created)
            &&& crate::service::opt_text(i.timestamps.changed) == Some(unix_time_text(st.changed_seconds, st.changed_nanoseconds))
        },
{
    let path_text = copy_string(&path.display);
    let path_bytes_hex = bytes_hex(path.bytes.as_slice());
    match stat {
        Err(StatError::NotFound) => FsInspection {
            path: path_text,
            path_bytes_hex,
            absolute_path,
            canonical_path: None,
            exists: false,
            kind: FileKind::Missing,
            size_bytes: None,
            owner: None,
            group: None,
            mode: None,
            access: Access::default(),
            symlink_target: None,
            timestamps: Timestamps::default(),
            warnings: Vec::new(),
        },
        Err(StatError::Other(e)) => {
            let w = make_metadata_unavailable(&path.display, &e);
            FsInspection {
                path: path_text,
                path_bytes_hex,
                absolute_path,
                canonical_path: None,
                exists: false,
                kind: FileKind::Unknown,
                size_bytes: None,
                owner: None,
                group: None,
                mode: None,
                access: Access::default(),
                symlink_target: None,
                timestamps: Timestamps::default(),
                warnings: one_text(w),
            }
        },
        Ok(st) => {
            let kind = kind_of(&st.meta);
            let link = kind == FileKind::Symlink;
            FsInspection {
                path: path_text,
                path_bytes_hex,
                absolute_path,
                canonical_path,
                exists: true,
                kind,
                size_bytes: Some(st.meta.len),
                owner: Some(Owner { uid: st.uid, name: None }),
                group: Some(Group { gid: st.gid, name: None }),
                mode: Some(mode_of(st.meta.mode)),
                access: if link {
                    Access::default()
                } else {
                    access
                },
                symlink_target: if link {
                    symlink_target
                } else {
                    None
                },
                timestamps: Timestamps {
                    modified: format_time(st.modified),
                    accessed: format_time(st.accessed),
                    changed: Some(format_unix_timestamp(st.changed_seconds, st.changed_nanoseconds)),
                    created: format_time(st.created),
                },
                warnings: Vec::new(),
            }
        },
    }
}

// ---------------------------------------------------------------------------
// Listings
// ---------------------------------------------------------------------------

/// One entry of a directory as reading it gave: its name, its full path, its
/// `lstat` record or the error text, and its link target (read for symbolic
/// links).
pub struct ListedEntry {
    pub name: PathText,
    pub path: PathText,
    pub stat: Result<PathStat, String>,
    pub symlink_target: Option<String>,
}

/// One item of reading a directory: an entry, or the error text of an entry
/// that could not be read.
pub enum ListItem {
    Entry(ListedEntry),
    Unreadable(String),
}

impl TotalOrder for ListedEntry {
    /// Entries sort by the bytes of their names.
    open spec fn ordered_le(&self, other: &Self) -> bool {
        lex_le(self.name.bytes@, other.name.bytes@)
    }

    proof fn ordered_total(a: Self, b: Self) {
        lemma_lex_total(a.name.bytes@, b.name.bytes@);
    }

    proof fn ordered_trans(a: Self, b: Self, c: Self) {
        lemma_lex_le_trans(a.name.bytes@, b.name.bytes@, c.name.bytes@);
    }

    fn goes_before(&self, other: &Self) -> (r: bool) {
        proof {
            lemma_lex_total(self.name.bytes@, other.name.bytes@);
        }
        compare_bytes_sign(self.name.bytes.as_slice(), other.name.bytes.as_slice()) < 0
    }
}

/// Whether a list entry reports `name` with this `lstat` record and link target.
pub open spec fn entry_matches(e: FsListEntry, name: PathText, st: PathStat, target: Option<String>) -> bool {
    let kind = kind_of_mode(st.meta.mode);
    &&& e.name@ == name.display@
    &&& e.name_bytes_hex@ == hex_of(name.bytes@)
    &&& e.kind == kind
    &&& e.size_bytes == st.meta.len
    &&& e.owner.uid == st.uid && e.owner.name is None
    &&& e.group.gid == st.gid && e.group.name is None
    &&& mode_matches(e.mode, st.meta.mode)
    &&& crate::service::opt_text(e.modified) == time_text(st.modified)
    &&& e.symlink_target == if kind == FileKind::Symlink { target } else { None }
}

fn list_entry(name: &PathText, st: &PathStat, symlink_target: Option<String>) -> (e: FsListEntry)
    ensures
        entry_matches(e, *name, *st, symlink_target),
{
    let kind = kind_of(&st.meta);
    FsListEntry {
        name: copy_string(&name.display),
        name_bytes_hex: bytes_hex(name.bytes.as_slice()),
        kind,
        size_bytes: st.meta.len,
        owner: Owner { uid: st.uid, name: None },
        group: Group { gid: st.gid, name: None },
        mode: mode_of(st.meta.mode),
        modified: format_time(st.modified),
        symlink_target: if kind == FileKind::Symlink {
            symlink_target
        } else {
            None
        },
    }
}

/// The warnings for entries that could not be read, in the order met.
pub open spec fn unreadable_warnings(path: Seq<char>, items: Seq<ListItem>) -> Seq<Seq<char>>
    decreases items.len(),
{
    if items.len() == 0 {
        Seq::empty()
    } else {
        let rest = unreadable_warnings(path, items.drop_last());
        match items.last() {
            ListItem::Unreadable(e) => rest.push("cannot read a directory entry in "@ + path + ": "@ + e@),
            ListItem::Entry(_) => rest,
        }
    }
}

/// The entries among the items, in the order met.
pub open spec fn entries_of(items: Seq<ListItem>) -> Seq<ListedEntry>
    decreases items.len(),
{
    if items.len() == 0 {
        Seq::empty()
    } else {
        let rest = entries_of(items.drop_last());
        match items.last() {
            ListItem::Entry(e) => rest.push(e),
            ListItem::Unreadable(_) => rest,
        }
    }
}

/// The listing's entries and warnings for the sorted entries `es`: an entry for
/// each readable record, a warning for each that failed.
pub open spec fn listed(es: Seq<ListedEntry>, entries: Seq<FsListEntry>, warnings: Seq<Seq<char>>) -> bool
    decreases es.len(),
{
    if es.len() == 0 {
        entries.len() == 0 && warnings.len() == 0
    } else {
        let e = es.last();
        match e.stat {
            Ok(st) => entries.len() > 0 && entry_matches(entries.last(), e.name, st, e.symlink_target)
                && listed(es.drop_last(), entries.drop_last(), warnings),
            Err(err) => warnings.len() > 0 && warnings.last() == metadata_unavailable_text(e.path.display@, err@)
                && listed(es.drop_last(), entries, warnings.drop_last()),
        }
    }
}

/// The listing of `path` from what reading it gave: its absolute form, its
/// `lstat` record (or why that failed) with its link target, and the items of
/// reading it as a directory (or the error text), which are used only when it
/// is one. Entries are reported in byte order of their names.
pub fn listing_from(
    path: &PathText,
    absolute_path: Option<String>,
    stat: Result<PathStat, StatError>,
    symlink_target: Option<String>,
    read: Result<Vec<ListItem>, String>,
) -> (l: FsListing)
    ensures
        l.path@ == path.display@,
        l.path_bytes_hex@ == hex_of(path.bytes@),
        l.absolute_path == absolute_path,
        l.entry_count == l.entries@.len(),
        match stat {
            Err(StatError::NotFound) => !l.exists && !l.is_directory && l.entries@.len() == 0
                && texts(l.warnings@) == seq![path.display@ + " does not exist"@],
            Err(StatError::Other(e)) => !l.exists && !l.is_directory && l.entries@.len() == 0
                && texts(l.warnings@) == seq![metadata_unavailable_text(path.display@, e@)],
            Ok(st) => l.exists && l.is_directory == st.meta.spec_is_dir(),
        },
        stat matches Ok(st) ==> !st.meta.spec_is_dir() ==> {
            &&& l.entries@.len() == 1
            &&& entry_matches(l.entries@[0], *path, st, symlink_target)
            &&& texts(l.warnings@) == seq![path.display@ + " is not a directory; reporting the path itself as its only entry"@]
        },
        stat matches Ok(st) ==> st.meta.spec_is_dir() ==> match read {
            Err(e) => l.entries@.len() == 0 && texts(l.warnings@) == seq!["cannot read directory "@ + path.display@ + ": "@ + e@],
            Ok(items) => {
                let skipped = unreadable_warnings(path.display@, items@);
                &&& texts(l.warnings@).take(skipped.len() as int) == skipped
                &&& exists|es: Seq<ListedEntry>|
                    es.to_multiset() == entries_of(items@).to_multiset()
                    && crate::order::sorted_by_order(es)
                    && (exists|p: Seq<int>| #[trigger] crate::order::stable_arrangement(entries_of(items@), es, p))
                    && listed(es, l.entries@, texts(l.warnings@).skip(skipped.len() as int))
            },
        },
{
    let path_text = copy_string(&path.display);
    let path_bytes_hex = bytes_hex(path.bytes.as_slice());
    let st = match stat {
        Err(StatError::NotFound) => {
            let mut w = copy_string(&path.display);
            push_str(&mut w, " does not exist");
            return FsListing {
                path: path_text,
                path_bytes_hex,
                absolute_path,
                exists: false,
                is_directory: false,
                entry_count: 0,
                entries: Vec::new(),
                warnings: one_text(w),
            };
        },
        Err(StatError::Other(e)) => {
            let w = make_metadata_unavailable(&path.display, &e);
            return FsListing {
                path: path_text,
                path_bytes_hex,
                absolute_path,
                exists: false,
                is_directory: false,
                entry_count: 0,
                entries: Vec::new(),
                warnings: one_text(w),
            };
        },
        Ok(st) => st,
    };
    if !st.meta.is_dir() {
        let mut w = copy_string(&path.display);
        push_str(&mut w, " is not a directory; reporting the path itself as its only entry");
        let mut entries: Vec<FsListEntry> = Vec::new();
        entries.push(list_entry(path, &st, symlink_target));
        return FsListing {
            path: path_text,
            path_bytes_hex,
            absolute_path,
            exists: true,
            is_directory: false,
            entry_count: 1,
            entries,
            warnings: one_text(w),
        };
    }
    let items = match read {
        Err(e) => {
            let w = concat4("cannot read directory ", &path.display, ": ", &e);
            return FsListing {
                path: path_text,
                path_bytes_hex,
                absolute_path,
                exists: true,
                is_directory: true,
                entry_count: 0,
                entries: Vec::new(),
                warnings: one_text(w),
            };
        },
        Ok(items) => items,
    };
    let ghost item_seq = items@;
    let item_count = items.len();
    assert(item_seq.len() == item_count);
    let mut warnings: Vec<String> = Vec::new();
    let mut named: Vec<ListedEntry> = Vec::new();
    let mut items = items;
    let mut taken: usize = 0;
    assert(item_seq.take(0) =~= Seq::<ListItem>::empty());
    assert(texts(warnings@) =~= Seq::<Seq<char>>::empty());
    while items.len() > 0
        invariant
            taken + items@.len() == item_seq.len(),
            item_seq.len() <= usize::MAX,
            items@ == item_seq.skip(taken as int),
            texts(warnings@) == unreadable_warnings(path.display@, item_seq.take(taken as int)),
            named@ == entries_of(item_seq.take(taken as int)),
        decreases items.len(),
    {
        let ghost before_items = items@;
        let item = items.remove(0);
        assert(item == item_seq[taken as int]);
        assert(item_seq.take(taken + 1).drop_last() =~= item_seq.take(taken as int));
        assert(items@ =~= item_seq.skip(taken + 1));
        let ghost w0 = texts(warnings@);
        let ghost n0 = named@;
        match item {
            ListItem::Unreadable(e) => {
                let w = concat4("cannot read a directory entry in ", &path.display, ": ", &e);
                let ghost wv = w@;
                warnings.push(w);
                assert(texts(warnings@) =~= w0.push(wv));
            },
            ListItem::Entry(e) => {
                named.push(e);
            },
        }
        taken += 1;
    }
    assert(item_seq.take(taken as int) =~= item_seq);
    let ghost skipped = texts(warnings@);
    let ghost unsorted = named@;
    let sorted = sort_by_order(named);
    let ghost es = sorted@;
    assert(unsorted == entries_of(item_seq));
    assert(exists|p: Seq<int>| #[trigger] crate::order::stable_arrangement(entries_of(item_seq), es, p));
    let sorted_count = sorted.len();
    assert(es.len() == sorted_count);
    let mut entries: Vec<FsListEntry> = Vec::new();
    let mut rest = sorted;
    let mut k: usize = 0;
    assert(es.take(0) =~= Seq::<ListedEntry>::empty());
    assert(texts(warnings@).skip(skipped.len() as int) =~= Seq::<Seq<char>>::empty());
    while rest.len() > 0
        invariant
            k + rest@.len() == es.len(),
            es.len() <= usize::MAX,
            rest@ == es.skip(k as int),
            texts(warnings@).len() >= skipped.len(),
            texts(warnings@).take(skipped.len() as int) == skipped,
            listed(es.take(k as int), entries@, texts(warnings@).skip(skipped.len() as int)),
        decreases rest.len(),
    {
        let e = rest.remove(0);
        assert(e == es[k as int]);
        assert(rest@ =~= es.skip(k + 1));
        assert(es.take(k + 1).drop_last() =~= es.take(k as int));
        assert(es.take(k + 1).last() == es[k as int]);
        let ghost w0 = texts(warnings@);
        let ghost en0 = entries@;
        match e.stat {
            Ok(st) => {
                let entry = list_entry(&e.name, &st, e.symlink_target);
                entries.push(entry);
                assert(entries@.drop_last() =~= en0);
            },
            Err(err) => {
                let w = make_metadata_unavailable(&e.path.display, &err);
                let ghost wv = w@;
                warnings.push(w);
                assert(texts(warnings@) =~= w0.push(wv));
                assert(texts(warnings@).take(skipped.len() as int) =~= w0.take(skipped.len() as int));
                assert(texts(warnings@).skip(skipped.len() as int).drop_last() =~= w0.skip(skipped.len() as int));
            },
        }
        k += 1;
    }
    assert(es.take(k as int) =~= es);
    let entry_count = entries.len();
    FsListing {
        path: path_text,
        path_bytes_hex,
        absolute_path,
        exists: true,
        is_directory: true,
        entry_count,
        entries,
        warnings,
    }
}

} // verus!
