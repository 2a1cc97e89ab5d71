//! Disk domain: `disk usage`, `disk filesystems` and `disk pressure`.
//!
//! `disk usage` is a depth-first walk. The walk itself lives here as a state
//! machine: it asks for one directory listing at a time ([`UsageWalk::step`]) and
//! is handed the entries and their `lstat` records ([`UsageWalk::supply_listing`]).

use vstd::prelude::*;
use std::collections::HashSet;
use crate::entry::{EntryMeta, PathText, sat_add, saturating_add, cap};
use crate::text::{bytes_hex, hex_of, copy_string, owned};
use crate::visits::{
    lemma_sum_one,
    capped_sum, visit_sum, dir_keys, other_keys, keys_like, counted, contribution,
    lemma_keys_push, lemma_counted_last, lemma_sum_stable, lemma_sum_split, lemma_sum_nonneg,
};

verus! {

broadcast use vstd::std_specs::hash::group_hash_axioms;

/// The result of `disk usage` for one path.
pub struct DiskUsage {
    pub path: String,
    pub path_bytes_hex: String,
    pub absolute_path: Option<String>,
    pub exists: bool,
    pub max_depth: Option<u64>,
    pub one_filesystem: bool,
    pub top_limit: usize,
    pub total_bytes: u64,
    pub apparent_bytes: u64,
    pub entries_seen: u64,
    pub directories_seen: u64,
    pub files_seen: u64,
    pub symlinks_seen: u64,
    pub unreadable_entries: u64,
    pub skipped_different_filesystem: u64,
    pub largest_children: Vec<UsageChild>,
    pub errors: Vec<UsageError>,
}

/// Validated options of `disk usage`.
#[derive(Clone, Copy)]
pub struct UsageOptions {
    max_depth: Option<u64>,
    one_filesystem: bool,
    top_limit: usize,
}

/// A requested reporting depth that `disk usage` does not support.
#[derive(Clone, Copy)]
pub struct UsageDepthError {
    depth: u64,
}

impl UsageDepthError {
    pub closed spec fn spec_depth(self) -> u64 {
        self.depth
    }

    /// The rejected depth.
    pub fn depth(&self) -> (d: u64)
        ensures
            d == self.spec_depth(),
    {
        self.depth
    }

    /// The message shown for the rejected depth.
    pub fn to_string(&self) -> (s: String)
        ensures
            s@ == depth_error_text(self.spec_depth()),
    {
        let mut s = owned(
            "disk usage supports depth 0 (totals only) and depth 1 (immediate children), not ",
        );
        crate::text::push_dec(&mut s, self.depth);
        s
    }
}

/// The message for a rejected `disk usage` depth.
pub open spec fn depth_error_text(depth: u64) -> Seq<char> {
    "disk usage supports depth 0 (totals only) and depth 1 (immediate children), not "@
        + crate::text::dec(depth as nat)
}

impl UsageOptions {
    pub closed spec fn spec_max_depth(self) -> Option<u64> {
        self.max_depth
    }

    pub closed spec fn spec_one_filesystem(self) -> bool {
        self.one_filesystem
    }

    pub closed spec fn spec_top_limit(self) -> usize {
        self.top_limit
    }

    /// Options for `disk usage`; a depth above one is refused.
    pub fn new(max_depth: Option<u64>, one_filesystem: bool, top_limit: usize) -> (r: Result<
        Self,
        UsageDepthError,
    >)
        ensures
            match max_depth {
                Some(d) if d > 1 => r matches Err(e) && e.spec_depth() == d,
                _ => r matches Ok(o) && o.spec_max_depth() == max_depth && o.spec_one_filesystem()
                    == one_filesystem && o.spec_top_limit() == top_limit,
            },
    {
        if let Some(depth) = max_depth {
            if depth > 1 {
                return Err(UsageDepthError { depth });
            }
        }
        Ok(UsageOptions { max_depth, one_filesystem, top_limit })
    }

    pub fn max_depth(&self) -> (r: Option<u64>)
        ensures
            r == self.spec_max_depth(),
    {
        self.max_depth
    }

    pub fn one_filesystem(&self) -> (r: bool)
        ensures
            r == self.spec_one_filesystem(),
    {
        self.one_filesystem
    }

    pub fn top_limit(&self) -> (r: usize)
        ensures
            r == self.spec_top_limit(),
    {
        self.top_limit
    }
}

impl Default for UsageOptions {
    /// No depth limit, crossing filesystems, ten largest children.
    fn default() -> (o: Self)
        ensures
            o.spec_max_depth() is None,
            !o.spec_one_filesystem(),
            o.spec_top_limit() == 10,
    {
        UsageOptions { max_depth: None, one_filesystem: false, top_limit: 10 }
    }
}

/// One immediate child of the usage root with its recursive totals.
pub struct UsageChild {
    pub path: String,
    pub path_bytes_hex: String,
    pub kind: UsageKind,
    pub total_bytes: u64,
    pub apparent_bytes: u64,
}

/// An entry that could not be fully inspected.
pub struct UsageError {
    pub path: String,
    pub path_bytes_hex: String,
    pub kind: UsageErrorKind,
    pub message: String,
}

/// How a usage child is classified.
#[derive(Clone, Copy, Debug, PartialEq, Eq, Structural)]
pub enum UsageKind {
    RegularFile,
    Directory,
    Symlink,
    Other,
    Missing,
}

impl UsageKind {
    pub open spec fn spec_label(self) -> Seq<char> {
        match self {
            UsageKind::RegularFile => "regular file"@,
            UsageKind::Directory => "directory"@,
            UsageKind::Symlink => "symlink"@,
            UsageKind::Other => "other"@,
            UsageKind::Missing => "missing"@,
        }
    }

    /// The human label of the kind.
    pub fn label(self) -> (s: &'static str)
        ensures
            s@ == self.spec_label(),
    {
        match self {
            UsageKind::RegularFile => "regular file",
            UsageKind::Directory => "directory",
            UsageKind::Symlink => "symlink",
            UsageKind::Other => "other",
            UsageKind::Missing => "missing",
        }
    }
}

/// Why an entry could not be fully inspected.
#[derive(Clone, Copy, Debug, PartialEq, Eq, Structural)]
pub enum UsageErrorKind {
    NotFound,
    PermissionDenied,
    ReadDirectory,
    Metadata,
    DirectoryCycle,
}

/// The kind of an entry as `disk usage` reports it.
pub open spec fn usage_kind_of(m: EntryMeta) -> UsageKind {
    if m.spec_is_dir() {
        UsageKind::Directory
    } else if m.spec_is_file() {
        UsageKind::RegularFile
    } else if m.spec_is_symlink() {
        UsageKind::Symlink
    } else {
        UsageKind::Other
    }
}

/// Classifies an entry for `disk usage`.
pub fn classify_kind(m: &EntryMeta) -> (k: UsageKind)
    ensures
        k == usage_kind_of(*m),
{
    if m.is_dir() {
        UsageKind::Directory
    } else if m.is_file() {
        UsageKind::RegularFile
    } else if m.is_symlink() {
        UsageKind::Symlink
    } else {
        UsageKind::Other
    }
}

impl UsageError {
    /// An error record for `path`.
    pub fn new(path: &PathText, kind: UsageErrorKind, message: &String) -> (e: UsageError)
        ensures
            e.path@ == path.display@,
            e.path_bytes_hex@ == hex_of(path.bytes@),
            e.kind == kind,
            e.message@ == message@,
    {
        UsageError {
            path: copy_string(&path.display),
            path_bytes_hex: bytes_hex(path.bytes.as_slice()),
            kind,
            message: copy_string(message),
        }
    }
}

/// How a failed `lstat` of the usage root is classified.
#[derive(Clone, Copy, Debug, PartialEq, Eq, Structural)]
pub enum IoErrorKind {
    NotFound,
    PermissionDenied,
    Other,
}

/// The error kind recorded for a root whose metadata could not be read.
pub open spec fn root_error_kind(kind: IoErrorKind) -> UsageErrorKind {
    match kind {
        IoErrorKind::NotFound => UsageErrorKind::NotFound,
        IoErrorKind::PermissionDenied => UsageErrorKind::PermissionDenied,
        IoErrorKind::Other => UsageErrorKind::Metadata,
    }
}

/// The usage report for a path whose metadata could not be read.
pub fn usage_of_unreadable_root(
    path: &PathText,
    absolute_path: Option<String>,
    options: UsageOptions,
    kind: IoErrorKind,
    message: &String,
) -> (u: DiskUsage)
    ensures
        u.path@ == path.display@,
        u.path_bytes_hex@ == hex_of(path.bytes@),
        u.absolute_path == absolute_path,
        !u.exists,
        u.max_depth == options.spec_max_depth(),
        u.one_filesystem == options.spec_one_filesystem(),
        u.top_limit == options.spec_top_limit(),
        u.total_bytes == 0 && u.apparent_bytes == 0 && u.entries_seen == 0,
        u.directories_seen == 0 && u.files_seen == 0 && u.symlinks_seen == 0,
        u.unreadable_entries == 1,
        u.skipped_different_filesystem == 0,
        u.largest_children@.len() == 0,
        u.errors@.len() == 1,
        u.errors@[0].path@ == path.display@,
        u.errors@[0].kind == root_error_kind(kind),
        u.errors@[0].message@ == message@,
{
    let error_kind = match kind {
        IoErrorKind::NotFound => UsageErrorKind::NotFound,
        IoErrorKind::PermissionDenied => UsageErrorKind::PermissionDenied,
        IoErrorKind::Other => UsageErrorKind::Metadata,
    };
    let mut errors: Vec<UsageError> = Vec::new();
    errors.push(UsageError::new(path, error_kind, message));
    DiskUsage {
        path: copy_string(&path.display),
        path_bytes_hex: bytes_hex(path.bytes.as_slice()),
        absolute_path,
        exists: false,
        max_depth: options.max_depth,
        one_filesystem: options.one_filesystem,
        top_limit: options.top_limit,
        total_bytes: 0,
        apparent_bytes: 0,
        entries_seen: 0,
        directories_seen: 0,
        files_seen: 0,
        symlinks_seen: 0,
        unreadable_entries: 1,
        skipped_different_filesystem: 0,
        largest_children: Vec::new(),
        errors,
    }
}

// ---------------------------------------------------------------------------
// The walk
// ---------------------------------------------------------------------------

/// One item of a directory listing.
pub enum ListingItem {
    /// The directory iterator failed to produce an entry; the error text.
    Unreadable(String),
    /// An entry's path and the outcome of `lstat` on it (error text on failure).
    Entry(PathText, Result<EntryMeta, String>),
}

/// What the walk needs next.
pub enum WalkStep {
    /// The entries of this directory, in the order the directory yields them.
    NeedListing(PathText),
    /// The walk advanced by one entry; call `step` again.
    Progress,
    /// The walk is over; collect the report.
    Finished,
}

/// What the walk sees of a listing item: the error text of an unreadable item,
/// or an entry's path (text and bytes) with its record or error text.
pub enum ItemView {
    Unreadable(Seq<char>),
    Entry(Seq<char>, Seq<u8>, Result<EntryMeta, Seq<char>>),
}

pub open spec fn item_view(i: ListingItem) -> ItemView {
    match i {
        ListingItem::Unreadable(e) => ItemView::Unreadable(e@),
        ListingItem::Entry(p, Ok(m)) => ItemView::Entry(p.display@, p.bytes@, Ok(m)),
        ListingItem::Entry(p, Err(e)) => ItemView::Entry(p.display@, p.bytes@, Err(e@)),
    }
}

pub open spec fn item_views(v: Seq<ListingItem>) -> Seq<ItemView> {
    v.map_values(|i: ListingItem| item_view(i))
}

/// An open directory of a walk: its path, its listing once supplied, and how many
/// of its items have been handled.
pub struct FrameView {
    pub path: (Seq<char>, Seq<u8>),
    pub items: Option<Seq<ItemView>>,
    pub next: int,
    /// The index of the directory's own visit.
    pub start: int,
}

/// Whether a walk that stays on one filesystem when `one_filesystem` holds, from
/// a root on `root_device`, steps onto an entry with record `m`.
pub open spec fn stays_on(one_filesystem: bool, root_device: u64, m: EntryMeta) -> bool {
    !(one_filesystem && m.dev != root_device)
}

/// The open directories, innermost last, and the visits after one step of a walk
/// that is not finished: a directory without its listing waits for it; otherwise
/// its next item is handled, and an entry with a record that is not skipped is
/// visited, a directory not visited before being opened below it; a directory
/// whose items are all handled is closed.
pub open spec fn after_step(
    course: Seq<FrameView>,
    visits: Seq<EntryMeta>,
    one_filesystem: bool,
    root_device: u64,
) -> (Seq<FrameView>, Seq<EntryMeta>) {
    let top = course.last();
    match top.items {
        None => (course, visits),
        Some(items) => if top.next < items.len() {
            let advanced = course.update(
                course.len() - 1,
                FrameView { path: top.path, items: top.items, next: top.next + 1, start: top.start },
            );
            match items[top.next] {
                ItemView::Entry(d, b, Ok(m)) => if stays_on(one_filesystem, root_device, m) {
                    if m.spec_is_dir() && !dir_keys(visits).contains(m.spec_key()) {
                        (
                            advanced.push(FrameView { path: (d, b), items: None, next: 0, start: visits.len() as int }),
                            visits.push(m),
                        )
                    } else {
                        (advanced, visits.push(m))
                    }
                } else {
                    (advanced, visits)
                },
                _ => (advanced, visits),
            }
        } else {
            (course.drop_last(), visits)
        },
    }
}

/// The item the innermost open directory handles next: present when its listing
/// is in and items are left.
pub open spec fn pending_item(course: Seq<FrameView>) -> Option<ItemView> {
    let top = course.last();
    match top.items {
        Some(items) => if 0 <= top.next < items.len() {
            Some(items[top.next])
        } else {
            None
        },
        None => None,
    }
}

/// What an error record says: path, path bytes as hex, kind and message.
pub type ErrorView = (Seq<char>, Seq<char>, UsageErrorKind, Seq<char>);

pub open spec fn error_view(e: UsageError) -> ErrorView {
    (e.path@, e.path_bytes_hex@, e.kind, e.message@)
}

pub open spec fn error_views(v: Seq<UsageError>) -> Seq<ErrorView> {
    v.map_values(|e: UsageError| error_view(e))
}

/// The message recorded for a directory reached a second time.
pub open spec fn cycle_text() -> Seq<char> {
    "directory was already visited during this traversal; skipped to avoid double counting"@
}

/// The errors one step records: an unreadable item is charged to its directory,
/// an entry without a record to itself, and so is a directory reached again.
pub open spec fn step_errors(
    course: Seq<FrameView>,
    visits: Seq<EntryMeta>,
    one_filesystem: bool,
    root_device: u64,
) -> Seq<ErrorView> {
    let top = course.last();
    match pending_item(course) {
        Some(ItemView::Unreadable(e)) => seq![(top.path.0, hex_of(top.path.1), UsageErrorKind::ReadDirectory, e)],
        Some(ItemView::Entry(d, b, Err(e))) => seq![(d, hex_of(b), UsageErrorKind::Metadata, e)],
        Some(ItemView::Entry(d, b, Ok(m))) => if stays_on(one_filesystem, root_device, m) && m.spec_is_dir()
            && dir_keys(visits).contains(m.spec_key()) {
            seq![(d, hex_of(b), UsageErrorKind::DirectoryCycle, cycle_text())]
        } else {
            Seq::empty()
        },
        None => Seq::empty(),
    }
}

/// The counters after one step: unreadable entries, entries skipped on other
/// filesystems, and directories, regular files and symbolic links seen.
pub open spec fn step_counts(
    u: DiskUsage,
    course: Seq<FrameView>,
    one_filesystem: bool,
    root_device: u64,
) -> (u64, u64, u64, u64, u64) {
    let unchanged = (
        u.unreadable_entries,
        u.skipped_different_filesystem,
        u.directories_seen,
        u.files_seen,
        u.symlinks_seen,
    );
    match pending_item(course) {
        Some(ItemView::Unreadable(_)) => (
            sat_add(u.unreadable_entries, 1),
            u.skipped_different_filesystem,
            u.directories_seen,
            u.files_seen,
            u.symlinks_seen,
        ),
        Some(ItemView::Entry(_, _, Err(_))) => (
            sat_add(u.unreadable_entries, 1),
            u.skipped_different_filesystem,
            u.directories_seen,
            u.files_seen,
            u.symlinks_seen,
        ),
        Some(ItemView::Entry(_, _, Ok(m))) => if !stays_on(one_filesystem, root_device, m) {
            (
                u.unreadable_entries,
                sat_add(u.skipped_different_filesystem, 1),
                u.directories_seen,
                u.files_seen,
                u.symlinks_seen,
            )
        } else if m.spec_is_dir() {
            (
                u.unreadable_entries,
                u.skipped_different_filesystem,
                sat_add(u.directories_seen, 1),
                u.files_seen,
                u.symlinks_seen,
            )
        } else if m.spec_is_file() {
            (
                u.unreadable_entries,
                u.skipped_different_filesystem,
                u.directories_seen,
                sat_add(u.files_seen, 1),
                u.symlinks_seen,
            )
        } else if m.spec_is_symlink() {
            (
                u.unreadable_entries,
                u.skipped_different_filesystem,
                u.directories_seen,
                u.files_seen,
                sat_add(u.symlinks_seen, 1),
            )
        } else {
            unchanged
        },
        None => unchanged,
    }
}

/// The counters of a report, as [`step_counts`] lists them.
pub open spec fn counts_of(u: DiskUsage) -> (u64, u64, u64, u64, u64) {
    (u.unreadable_entries, u.skipped_different_filesystem, u.directories_seen, u.files_seen, u.symlinks_seen)
}

/// What a child record says: path, path bytes as hex, kind and totals.
pub type ChildView = (Seq<char>, Seq<char>, UsageKind, u64, u64);

pub open spec fn child_view(c: UsageChild) -> ChildView {
    (c.path@, c.path_bytes_hex@, c.kind, c.total_bytes, c.apparent_bytes)
}

pub open spec fn child_views(v: Seq<UsageChild>) -> Seq<ChildView> {
    v.map_values(|c: UsageChild| child_view(c))
}

/// The immediate child of the root that one step records: an entry of the root
/// itself that is visited and not opened (with what it counts for), or a
/// directory just below the root that is closed (with its recursive totals).
pub open spec fn step_children(
    course: Seq<FrameView>,
    visits: Seq<EntryMeta>,
    one_filesystem: bool,
    root_device: u64,
) -> Seq<ChildView> {
    let top = course.last();
    match top.items {
        None => Seq::empty(),
        Some(items) => if 0 <= top.next < items.len() {
            match items[top.next] {
                ItemView::Entry(d, b, Ok(m)) => if course.len() == 1 && stays_on(one_filesystem, root_device, m)
                    && !(m.spec_is_dir() && !dir_keys(visits).contains(m.spec_key())) {
                    let after = visits.push(m);
                    seq![
                        (
                            d,
                            hex_of(b),
                            usage_kind_of(m),
                            contribution(after, visits.len() as int, false) as u64,
                            contribution(after, visits.len() as int, true) as u64,
                        ),
                    ]
                } else {
                    Seq::empty()
                },
                _ => Seq::empty(),
            }
        } else if course.len() == 2 {
            seq![
                (
                    top.path.0,
                    hex_of(top.path.1),
                    UsageKind::Directory,
                    capped_sum(visits, top.start, visits.len() as int, false),
                    capped_sum(visits, top.start, visits.len() as int, true),
                ),
            ]
        } else {
            Seq::empty()
        },
    }
}

/// A directory being summed.
struct UsageFrame {
    path: PathText,
    kind: UsageKind,
    total: u64,
    apparent: u64,
    items: Option<Vec<ListingItem>>,
    next: usize,
    collect_children: bool,
    /// The index of this directory's own visit in the visit log.
    start: Ghost<int>,
}

/// A `disk usage` walk in progress.
pub struct UsageWalk {
    usage: DiskUsage,
    root_device: u64,
    seen_inodes: HashSet<u128>,
    visited_directories: HashSet<u128>,
    frames: Vec<UsageFrame>,
    root_totals: Option<(u64, u64)>,
    log: Ghost<Seq<EntryMeta>>,
}

/// `out` holds the `k` children of `input` with the largest totals (all of them
/// when there are fewer), largest first: `from` says where each came from, and no
/// child left out is larger than the smallest one kept. Among equal totals the
/// earlier child comes first and is the one kept: `out` is the first `k` of a
/// stable sort of `input` by descending total.
pub open spec fn top_selection(
    input: Seq<UsageChild>,
    k: int,
    out: Seq<UsageChild>,
    from: Seq<int>,
) -> bool {
    &&& out.len() == (if input.len() < k {
        input.len() as int
    } else {
        k
    })
    &&& from.len() == out.len()
    &&& forall|j: int| 0 <= j < out.len() ==> 0 <= #[trigger] from[j] < input.len() && out[j]
        == input[from[j]]
    &&& forall|a: int, b: int| 0 <= a < b < from.len() ==> from[a] != from[b]
    &&& forall|a: int, b: int|
        0 <= a < b < out.len() ==> out[a].total_bytes >= out[b].total_bytes
    &&& forall|i: int|
        0 <= i < input.len() && !from.contains(i) && out.len() > 0 ==> #[trigger] input[i].total_bytes
            <= out.last().total_bytes
    &&& forall|a: int, b: int|
        0 <= a < b < out.len() && out[a].total_bytes == out[b].total_bytes ==> from[a] < from[b]
    &&& forall|x: int, j: int|
        0 <= x < input.len() && !from.contains(x) && 0 <= j < out.len() ==> #[trigger] input[x].total_bytes
            < #[trigger] out[j].total_bytes || (input[x].total_bytes == out[j].total_bytes && from[j] < x)
}

/// Child `x` of `input` sorts before child `y` in a stable descending sort by
/// total.
pub open spec fn sorts_before(input: Seq<UsageChild>, x: int, y: int) -> bool {
    input[x].total_bytes > input[y].total_bytes || (input[x].total_bytes == input[y].total_bytes && x < y)
}

/// Two top selections of the same children agree on their first `p + 1` places.
proof fn lemma_top_selection_prefix(
    input: Seq<UsageChild>,
    k: int,
    o1: Seq<UsageChild>,
    f1: Seq<int>,
    o2: Seq<UsageChild>,
    f2: Seq<int>,
    p: int,
)
    requires
        top_selection(input, k, o1, f1),
        top_selection(input, k, o2, f2),
        0 <= p < o1.len(),
    ensures
        forall|q: int| 0 <= q <= p ==> f1[q] == f2[q],
    decreases p,
{
    if p > 0 {
        lemma_top_selection_prefix(input, k, o1, f1, o2, f2, p - 1);
    }
    let x = f1[p];
    let y = f2[p];
    if x != y {
        // Each selection lists its children in sorting order, and every child
        // it leaves out sorts after every child it keeps.
        assert forall|s1: Seq<UsageChild>, g: Seq<int>, a: int, b: int|
            top_selection(input, k, s1, g) && 0 <= a < b < s1.len() implies sorts_before(input, g[a], g[b]) by {
            assert(s1[a] == input[g[a]] && s1[b] == input[g[b]]);
        }
        if sorts_before(input, x, y) {
            if f2.contains(x) {
                let t = choose|t: int| 0 <= t < f2.len() && f2[t] == x;
                if t < p {
                    assert(f1[t] == x);
                } else {
                    assert(t != p);
                    assert(sorts_before(input, y, x));
                }
            } else {
                assert(input[x].total_bytes < o2[p].total_bytes || (input[x].total_bytes == o2[p].total_bytes
                    && f2[p] < x));
            }
        } else {
            assert(sorts_before(input, y, x));
            if f1.contains(y) {
                let t = choose|t: int| 0 <= t < f1.len() && f1[t] == y;
                if t < p {
                    assert(f2[t] == y);
                } else {
                    assert(t != p);
                    assert(sorts_before(input, x, y));
                }
            } else {
                assert(input[y].total_bytes < o1[p].total_bytes || (input[y].total_bytes == o1[p].total_bytes
                    && f1[p] < y));
            }
        }
    }
}

/// A top selection is unique: the first `k` of the stable descending sort.
pub proof fn lemma_top_selection_unique(input: Seq<UsageChild>, k: int, o1: Seq<UsageChild>, o2: Seq<UsageChild>)
    requires
        is_top_selection(input, k, o1),
        is_top_selection(input, k, o2),
    ensures
        o1 == o2,
{
    let f1 = choose|f: Seq<int>| top_selection(input, k, o1, f);
    let f2 = choose|f: Seq<int>| top_selection(input, k, o2, f);
    assert(o1.len() == o2.len());
    if o1.len() > 0 {
        lemma_top_selection_prefix(input, k, o1, f1, o2, f2, o1.len() - 1);
    }
    assert forall|j: int| 0 <= j < o1.len() implies o1[j] == o2[j] by {
        assert(o1[j] == input[f1[j]] && o2[j] == input[f2[j]]);
    }
    assert(o1 =~= o2);
}

/// Some `from` makes `out` a top selection of `input`.
pub open spec fn is_top_selection(input: Seq<UsageChild>, k: int, out: Seq<UsageChild>) -> bool {
    exists|from: Seq<int>| top_selection(input, k, out, from)
}

/// The loop invariant of [`top_children`] after `i` children.
spec fn selection_so_far(
    inp: Seq<UsageChild>,
    k: int,
    i: int,
    out: Seq<UsageChild>,
    from: Seq<int>,
) -> bool {
    &&& 0 <= i <= inp.len()
    &&& out.len() == (if i < k {
        i
    } else {
        k
    })
    &&& from.len() == out.len()
    &&& forall|j: int| 0 <= j < out.len() ==> 0 <= #[trigger] from[j] < i && out[j] == inp[from[j]]
    &&& forall|a: int, b: int| 0 <= a < b < from.len() ==> from[a] != from[b]
    &&& forall|a: int, b: int| 0 <= a < b < out.len() ==> out[a].total_bytes >= out[b].total_bytes
    &&& (out.len() < k ==> forall|x: int| 0 <= x < i ==> from.contains(x))
    &&& forall|x: int|
        0 <= x < i && !from.contains(x) && out.len() > 0 ==> #[trigger] inp[x].total_bytes
            <= out.last().total_bytes
    &&& ties_so_far(inp, i, out, from)
}

/// Among equal totals the selection so far keeps the earlier children, earlier
/// first.
#[verifier::opaque]
spec fn ties_so_far(inp: Seq<UsageChild>, i: int, out: Seq<UsageChild>, from: Seq<int>) -> bool {
    &&& forall|a: int, b: int|
        0 <= a < b < out.len() && out[a].total_bytes == out[b].total_bytes ==> from[a] < from[b]
    &&& forall|x: int, j: int|
        0 <= x < i && !from.contains(x) && 0 <= j < out.len() ==> #[trigger] inp[x].total_bytes
            < #[trigger] out[j].total_bytes || (inp[x].total_bytes == out[j].total_bytes && from[j] < x)
}

/// Inserting child `i` after every kept child at least as large keeps the tie
/// order, whether or not the smallest kept child is then dropped.
proof fn lemma_ties_insert(
    inp: Seq<UsageChild>,
    k: int,
    i: int,
    out: Seq<UsageChild>,
    from: Seq<int>,
    pos: int,
)
    requires
        selection_so_far(inp, k, i, out, from),
        i < inp.len(),
        0 <= pos <= out.len(),
        forall|j: int| pos <= j < out.len() ==> out[j].total_bytes < inp[i].total_bytes,
        pos == 0 || out[pos - 1].total_bytes >= inp[i].total_bytes,
    ensures
        out.len() + 1 <= k ==> ties_so_far(inp, i + 1, out.insert(pos, inp[i]), from.insert(pos, i)),
        out.len() + 1 > k ==> ties_so_far(
            inp,
            i + 1,
            out.insert(pos, inp[i]).drop_last(),
            from.insert(pos, i).drop_last(),
        ),
{
    reveal(ties_so_far);
    let c = inp[i];
    let o2 = out.insert(pos, c);
    let f2 = from.insert(pos, i);
    let n = out.len() as int;
    assert forall|a: int, b: int|
        0 <= a < b < o2.len() && o2[a].total_bytes == o2[b].total_bytes implies f2[a] < f2[b] by {
        if b < pos {
        } else if b == pos {
            assert(f2[a] == from[a] && from[a] < i);
        } else if a == pos {
            assert(o2[b] == out[b - 1]);
        } else if a < pos {
            assert(o2[b] == out[b - 1] && f2[b] == from[b - 1]);
        } else {
            assert(o2[a] == out[a - 1] && f2[a] == from[a - 1]);
            assert(o2[b] == out[b - 1] && f2[b] == from[b - 1]);
        }
    }
    assert forall|a: int, b: int| 0 <= a < b < o2.len() implies o2[a].total_bytes >= o2[b].total_bytes by {
        if a < pos && b < pos {
        } else if a < pos && b == pos {
            assert(out[a].total_bytes >= out[pos - 1].total_bytes);
        } else if a < pos {
            assert(o2[b] == out[b - 1]);
        } else if a == pos {
            assert(o2[b] == out[b - 1]);
        } else {
            assert(o2[a] == out[a - 1]);
            assert(o2[b] == out[b - 1]);
        }
    }
    if n + 1 <= k {
        assert forall|x: int| 0 <= x < i + 1 implies f2.contains(x) by {
            if x < i {
                assert(from.contains(x));
                let j = choose|j: int| 0 <= j < from.len() && from[j] == x;
                if j < pos {
                    assert(f2[j] == x);
                } else {
                    assert(f2[j + 1] == x);
                }
            } else {
                assert(f2[pos] == i);
            }
        }
    } else {
        let o3 = o2.drop_last();
        let f3 = f2.drop_last();
        assert forall|x: int, j: int|
            0 <= x < i + 1 && !f3.contains(x) && 0 <= j < o3.len() implies #[trigger] inp[x].total_bytes
                < #[trigger] o3[j].total_bytes || (inp[x].total_bytes == o3[j].total_bytes && f3[j] < x) by {
            assert(o3[j] == o2[j] && f3[j] == f2[j]);
            if x == f2[n] {
                assert(inp[x] == o2[n]);
                assert(o2[j].total_bytes >= o2[n].total_bytes);
            } else {
                assert(!f2.contains(x)) by {
                    if f2.contains(x) {
                        let t = choose|t: int| 0 <= t < f2.len() && f2[t] == x;
                        assert(f3[t] == x);
                    }
                }
                assert(x != i) by {
                    assert(f2[pos] == i);
                }
                assert(!from.contains(x)) by {
                    if from.contains(x) {
                        let t = choose|t: int| 0 <= t < from.len() && from[t] == x;
                        if t < pos {
                            assert(f2[t] == x);
                        } else {
                            assert(f2[t + 1] == x);
                        }
                    }
                }
                if j < pos {
                    assert(o2[j] == out[j] && f2[j] == from[j]);
                } else if j == pos {
                    assert(inp[x].total_bytes < out[n - 1].total_bytes
                        || inp[x].total_bytes == out[n - 1].total_bytes);
                    assert(out[n - 1].total_bytes < c.total_bytes);
                } else {
                    assert(o2[j] == out[j - 1] && f2[j] == from[j - 1]);
                }
            }
        }
        assert forall|a: int, b: int|
            0 <= a < b < o3.len() && o3[a].total_bytes == o3[b].total_bytes implies f3[a] < f3[b] by {
            assert(o3[a] == o2[a] && o3[b] == o2[b] && f3[a] == f2[a] && f3[b] == f2[b]);
        }
    }
}

proof fn lemma_selection_insert(
    inp: Seq<UsageChild>,
    k: int,
    i: int,
    out: Seq<UsageChild>,
    from: Seq<int>,
    pos: int,
)
    requires
        selection_so_far(inp, k, i, out, from),
        i < inp.len(),
        0 <= pos <= out.len(),
        forall|j: int| pos <= j < out.len() ==> out[j].total_bytes < inp[i].total_bytes,
        pos == 0 || out[pos - 1].total_bytes >= inp[i].total_bytes,
    ensures
        out.len() + 1 <= k ==> selection_so_far(inp, k, i + 1, out.insert(pos, inp[i]), from.insert(pos, i)),
        out.len() + 1 > k ==> selection_so_far(
            inp,
            k,
            i + 1,
            out.insert(pos, inp[i]).drop_last(),
            from.insert(pos, i).drop_last(),
        ),
{
    lemma_ties_insert(inp, k, i, out, from, pos);
    let o2 = out.insert(pos, inp[i]);
    let f2 = from.insert(pos, i);
    assert forall|x: int| 0 <= x < i && from.contains(x) implies f2.contains(x) by {
        let j = choose|j: int| 0 <= j < from.len() && from[j] == x;
        if j < pos {
            assert(f2[j] == x);
        } else {
            assert(f2[j + 1] == x);
        }
    }
    assert(f2[pos] == i);
    assert forall|j: int| 0 <= j < o2.len() implies 0 <= #[trigger] f2[j] < i + 1 && o2[j] == inp[f2[j]] by {
        if j < pos {
        } else if j == pos {
        } else {
            assert(f2[j] == from[j - 1]);
        }
    }
    assert forall|a: int, b: int| 0 <= a < b < f2.len() implies f2[a] != f2[b] by {
        if a < pos && b < pos {
        } else if a < pos && b == pos {
        } else if a < pos {
            assert(f2[b] == from[b - 1]);
        } else if a == pos {
            assert(f2[b] == from[b - 1]);
        } else {
            assert(f2[a] == from[a - 1]);
            assert(f2[b] == from[b - 1]);
        }
    }
    assert forall|a: int, b: int| 0 <= a < b < o2.len() implies o2[a].total_bytes >= o2[b].total_bytes by {
        if a < pos && b < pos {
        } else if a < pos && b == pos {
            assert(out[a].total_bytes >= out[pos - 1].total_bytes);
        } else if a < pos {
            assert(o2[b] == out[b - 1]);
        } else if a == pos {
            assert(o2[b] == out[b - 1]);
        } else {
            assert(o2[a] == out[a - 1]);
            assert(o2[b] == out[b - 1]);
        }
    }
    if out.len() + 1 <= k {
        assert forall|x: int| 0 <= x < i + 1 implies f2.contains(x) by {
            if x < i {
                assert(from.contains(x));
            }
        }
    } else {
        let o3 = o2.drop_last();
        let f3 = f2.drop_last();
        let n = out.len() as int;
        assert(n == k);
        assert forall|x: int| 0 <= x < i + 1 && !f3.contains(x) && o3.len() > 0 implies
            #[trigger] inp[x].total_bytes <= o3.last().total_bytes by {
            assert(o3.last() == o2[n - 1]);
            if x == f2[n] {
                assert(inp[x] == o2[n]);
            } else {
                assert(!f2.contains(x)) by {
                    if f2.contains(x) {
                        let j = choose|j: int| 0 <= j < f2.len() && f2[j] == x;
                        assert(f3[j] == x);
                    }
                }
                assert(!from.contains(x));
                assert(inp[x].total_bytes <= out.last().total_bytes);
                if pos <= n - 1 {
                    assert(o2[n] == out[n - 1]);
                }
            }
        }
    }
}

/// The `k` children with the largest totals, largest first; among equal totals
/// the earlier child comes first.
fn top_children(input: Vec<UsageChild>, k: usize) -> (out: Vec<UsageChild>)
    ensures
        is_top_selection(input@, k as int, out@),
{
    let ghost inp = input@;
    assert(inp.len() == input.len());
    let mut out: Vec<UsageChild> = Vec::new();
    let ghost mut from: Seq<int> = Seq::empty();
    proof {
        reveal(ties_so_far);
    }
    let mut i: usize = 0;
    for child in it: input
        invariant
            it.seq() == inp,
            i == it.index(),
            inp.len() <= usize::MAX,
            selection_so_far(inp, k as int, i as int, out@, from),
    {
        assert(child == inp[i as int]);
        let mut pos: usize = out.len();
        while pos > 0 && out[pos - 1].total_bytes < child.total_bytes
            invariant
                pos <= out@.len(),
                forall|j: int| pos <= j < out@.len() ==> out@[j].total_bytes < child.total_bytes,
            decreases pos,
        {
            pos -= 1;
        }
        proof {
            lemma_selection_insert(inp, k as int, i as int, out@, from, pos as int);
        }
        out.insert(pos, child);
        proof {
            from = from.insert(pos as int, i as int);
        }
        if out.len() > k {
            out.pop();
            proof {
                from = from.drop_last();
            }
        }
        i += 1;
    }
    proof {
        reveal(ties_so_far);
        assert(top_selection(inp, k as int, out@, from));
    }
    out
}

/// A copy of a listing item.
fn clone_item(item: &ListingItem) -> (c: ListingItem)
    ensures
        match (item, c) {
            (ListingItem::Unreadable(a), ListingItem::Unreadable(b)) => a@ == b@,
            (ListingItem::Entry(p, Ok(m)), ListingItem::Entry(q, Ok(k))) => p.display@ == q.display@
                && p.bytes@ == q.bytes@ && *m == k,
            (ListingItem::Entry(p, Err(a)), ListingItem::Entry(q, Err(b))) => p.display@
                == q.display@ && p.bytes@ == q.bytes@ && a@ == b@,
            _ => false,
        },
{
    match item {
        ListingItem::Unreadable(a) => ListingItem::Unreadable(copy_string(a)),
        ListingItem::Entry(p, Ok(m)) => ListingItem::Entry(p.duplicate(), Ok(*m)),
        ListingItem::Entry(p, Err(a)) => ListingItem::Entry(p.duplicate(), Err(copy_string(a))),
    }
}

/// The outcome of stepping onto one entry.
enum Entered {
    Leaf(u64, u64),
    Directory(UsageFrame),
}

/// Where the visits summed by frame `i` end: at the next frame's own visit, or
/// at the end of the log for the innermost frame.
spec fn fend(fr: Seq<UsageFrame>, log_len: int, i: int) -> int {
    if i + 1 < fr.len() {
        fr[i + 1].start@
    } else {
        log_len
    }
}

/// Frame `i` holds the capped sums of the visits from its own up to `fend`.
spec fn frame_ok(fr: Seq<UsageFrame>, log: Seq<EntryMeta>, i: int) -> bool {
    &&& 0 <= fr[i].start@ < fend(fr, log.len() as int, i)
    &&& fend(fr, log.len() as int, i) <= log.len()
    &&& fr[i].total == capped_sum(log, fr[i].start@, fend(fr, log.len() as int, i), false)
    &&& fr[i].apparent == capped_sum(log, fr[i].start@, fend(fr, log.len() as int, i), true)
    &&& (i + 1 < fr.len() ==> fr[i].items is Some)
    &&& (fr[i].items matches Some(v) ==> fr[i].next <= v@.len())
    &&& fr[i].kind == UsageKind::Directory
    &&& fr[i].collect_children == (i == 0)
}

spec fn frames_ok(fr: Seq<UsageFrame>, log: Seq<EntryMeta>) -> bool {
    &&& (fr.len() > 0 ==> fr[0].start@ == 0)
    &&& forall|i: int| 0 <= i < fr.len() ==> #[trigger] frame_ok(fr, log, i)
}

/// Frames below the innermost one keep their sums when a visit is appended.
proof fn lemma_frames_log_push(fr: Seq<UsageFrame>, log: Seq<EntryMeta>, m: EntryMeta, i: int)
    requires
        0 <= i < fr.len() - 1,
        frame_ok(fr, log, i),
    ensures
        frame_ok(fr, log.push(m), i),
{
    let e = fend(fr, log.len() as int, i);
    assert(fend(fr, (log.len() + 1) as int, i) == e);
    lemma_sum_stable(log, m, fr[i].start@, e, false);
    lemma_sum_stable(log, m, fr[i].start@, e, true);
}

/// Replacing the innermost frame by one with the same start and listed items
/// keeps the other frames' facts.
proof fn lemma_frames_replace_top(fr: Seq<UsageFrame>, f: UsageFrame, log: Seq<EntryMeta>, i: int)
    requires
        fr.len() > 0,
        0 <= i < fr.len() - 1,
        frame_ok(fr, log, i),
        f.start@ == fr[fr.len() - 1].start@,
    ensures
        frame_ok(fr.take(fr.len() - 1).push(f), log, i),
{
    let g = fr.take(fr.len() - 1).push(f);
    assert(g[i] == fr[i]);
    if i + 1 < fr.len() - 1 {
        assert(g[i + 1] == fr[i + 1]);
    }
    assert(fend(g, log.len() as int, i) == fend(fr, log.len() as int, i));
}

spec fn frames_view(fr: Seq<UsageFrame>) -> Seq<FrameView> {
    fr.map_values(|f: UsageFrame| frame_view(f))
}

/// Moving on past the innermost directory's next item.
proof fn lemma_course_advance(fr: Seq<UsageFrame>, f: UsageFrame)
    requires
        fr.len() > 0,
        f.path == fr.last().path,
        f.items == fr.last().items,
        f.next == fr.last().next + 1,
        f.start == fr.last().start,
    ensures
        frames_view(fr.take(fr.len() - 1).push(f)) == frames_view(fr).update(
            fr.len() - 1,
            FrameView {
                path: frames_view(fr).last().path,
                items: frames_view(fr).last().items,
                next: frames_view(fr).last().next + 1,
                start: frames_view(fr).last().start,
            },
        ),
{
    assert(frames_view(fr.take(fr.len() - 1).push(f)) =~= frames_view(fr).update(
        fr.len() - 1,
        FrameView {
            path: frames_view(fr).last().path,
            items: frames_view(fr).last().items,
            next: frames_view(fr).last().next + 1,
            start: frames_view(fr).last().start,
        },
    ));
}

spec fn frame_view(f: UsageFrame) -> FrameView {
    FrameView {
        path: (f.path.display@, f.path.bytes@),
        items: match f.items {
            Some(v) => Some(item_views(v@)),
            None => None,
        },
        next: f.next as int,
        start: f.start@,
    }
}

/// The report of a finished walk under the reporting `options`: the root's totals
/// are the capped sums of every visit, the counters and errors are the walk's,
/// the depth and top limit are the options', and the largest children are none
/// at depth 0, else the `top_limit` largest of the immediate children the walk
/// recorded, largest first.
pub open spec fn finish_of(w: UsageWalk, options: UsageOptions, u: DiskUsage) -> bool {
    let n = w.visits().len() as int;
    &&& u.total_bytes == capped_sum(w.visits(), 0, n, false)
    &&& u.apparent_bytes == capped_sum(w.visits(), 0, n, true)
    &&& u.entries_seen == cap(n)
    &&& u.path == w.report().path
    &&& u.path_bytes_hex == w.report().path_bytes_hex
    &&& u.absolute_path == w.report().absolute_path
    &&& u.exists == w.report().exists
    &&& u.one_filesystem == w.report().one_filesystem
    &&& u.directories_seen == w.report().directories_seen
    &&& u.files_seen == w.report().files_seen
    &&& u.symlinks_seen == w.report().symlinks_seen
    &&& u.unreadable_entries == w.report().unreadable_entries
    &&& u.skipped_different_filesystem == w.report().skipped_different_filesystem
    &&& u.errors == w.report().errors
    &&& u.max_depth == options.spec_max_depth()
    &&& u.top_limit == options.spec_top_limit()
    &&& if options.spec_max_depth() == Some(0u64) {
        u.largest_children@.len() == 0
    } else {
        is_top_selection(w.report().largest_children@, options.spec_top_limit() as int, u.largest_children@)
    }
}

/// The reporting depth and the top limit shape only the list of largest
/// children: finishing the same walk under two sets of options gives the same
/// totals, counters and errors, and under the same top limit and any two depths
/// other than 0 the same largest children.
pub proof fn law_limits_leave_totals(
    w: UsageWalk,
    a: UsageOptions,
    b: UsageOptions,
    ua: DiskUsage,
    ub: DiskUsage,
)
    requires
        finish_of(w, a, ua),
        finish_of(w, b, ub),
    ensures
        ua.total_bytes == ub.total_bytes,
        ua.apparent_bytes == ub.apparent_bytes,
        ua.entries_seen == ub.entries_seen,
        ua.directories_seen == ub.directories_seen,
        ua.files_seen == ub.files_seen,
        ua.symlinks_seen == ub.symlinks_seen,
        ua.unreadable_entries == ub.unreadable_entries,
        ua.skipped_different_filesystem == ub.skipped_different_filesystem,
        ua.errors == ub.errors,
        a.spec_top_limit() == b.spec_top_limit() && a.spec_max_depth() != Some(0u64)
            && b.spec_max_depth() != Some(0u64) ==> ua.largest_children@ == ub.largest_children@,
{
    if a.spec_top_limit() == b.spec_top_limit() && a.spec_max_depth() != Some(0u64) && b.spec_max_depth()
        != Some(0u64) {
        lemma_top_selection_unique(
            w.report().largest_children@,
            a.spec_top_limit() as int,
            ua.largest_children@,
            ub.largest_children@,
        );
    }
}

/// A directory reached a second time is skipped: the step records one more
/// visit that adds no bytes to any total, opens no directory (the walk does not
/// descend into it again), records exactly one `DirectoryCycle` error for it, and
/// counts it among the directories seen.
pub proof fn law_revisited_directory_skipped(
    course: Seq<FrameView>,
    visits: Seq<EntryMeta>,
    one_filesystem: bool,
    root_device: u64,
    u: DiskUsage,
    d: Seq<char>,
    b: Seq<u8>,
    m: EntryMeta,
)
    requires
        course.len() > 0,
        pending_item(course) == Some(ItemView::Entry(d, b, Ok(m))),
        stays_on(one_filesystem, root_device, m),
        m.spec_is_dir(),
        dir_keys(visits).contains(m.spec_key()),
    ensures
        after_step(course, visits, one_filesystem, root_device).1 == visits.push(m),
        after_step(course, visits, one_filesystem, root_device).0.len() == course.len(),
        contribution(visits.push(m), visits.len() as int, false) == 0,
        contribution(visits.push(m), visits.len() as int, true) == 0,
        forall|lo: int, apparent: bool| 0 <= lo <= visits.len() ==> #[trigger] visit_sum(visits.push(m), lo, visits.len() as int + 1, apparent)
            == visit_sum(visits, lo, visits.len() as int, apparent),
        step_errors(course, visits, one_filesystem, root_device) == seq![
            (d, hex_of(b), UsageErrorKind::DirectoryCycle, cycle_text()),
        ],
        step_counts(u, course, one_filesystem, root_device) == (
            u.unreadable_entries,
            u.skipped_different_filesystem,
            sat_add(u.directories_seen, 1),
            u.files_seen,
            u.symlinks_seen,
        ),
{
    lemma_counted_last(visits, m);
    assert(keys_like(visits, m) == dir_keys(visits));
    assert forall|lo: int, apparent: bool| 0 <= lo <= visits.len() implies #[trigger] visit_sum(visits.push(m), lo, visits.len() as int + 1, apparent)
        == visit_sum(visits, lo, visits.len() as int, apparent) by {
        lemma_sum_stable(visits, m, lo, visits.len() as int, apparent);
    }
}

impl UsageWalk {
    /// Every entry the walk has stepped onto, root first, in walk order.
    pub closed spec fn visits(self) -> Seq<EntryMeta> {
        self.log@
    }

    /// Whether the walk is over.
    pub closed spec fn finished(self) -> bool {
        self.frames@.len() == 0
    }

    /// The open directories, outermost first.
    pub closed spec fn course(self) -> Seq<FrameView> {
        frames_view(self.frames@)
    }

    /// The device of the root.
    pub closed spec fn root_device(self) -> u64 {
        self.root_device
    }

    /// The report as it stands.
    pub closed spec fn report(self) -> DiskUsage {
        self.usage
    }

    /// The walk's invariant.
    pub closed spec fn wf(self) -> bool {
        let log = self.log@;
        let fr = self.frames@;
        &&& log.len() >= 1
        &&& self.visited_directories@ == dir_keys(log)
        &&& self.seen_inodes@ == other_keys(log)
        &&& self.usage.entries_seen == cap(log.len() as int)
        &&& (self.root_totals is Some) == (fr.len() == 0)
        &&& (self.root_totals matches Some((t, a)) ==> t == capped_sum(
            log,
            0,
            log.len() as int,
            false,
        ) && a == capped_sum(log, 0, log.len() as int, true))
        &&& frames_ok(fr, log)
    }

    /// Starts a walk at `path`, whose `lstat` record is `meta`, staying on the
    /// root's filesystem when `one_filesystem` holds. The reporting depth and the
    /// number of children shown are not the walk's business: they are applied
    /// when it is finished.
    pub fn start(path: &PathText, absolute_path: Option<String>, meta: EntryMeta, one_filesystem: bool) -> (w: UsageWalk)
        ensures
            w.wf(),
            w.visits() == seq![meta],
            w.report().path@ == path.display@,
            w.report().path_bytes_hex@ == hex_of(path.bytes@),
            w.report().absolute_path == absolute_path,
            w.report().exists,
            w.report().one_filesystem == one_filesystem,
            w.finished() == !meta.spec_is_dir(),
            w.root_device() == meta.dev,
            w.report().errors@.len() == 0,
            w.report().largest_children@.len() == 0,
            counts_of(w.report()) == (
                0u64,
                0u64,
                if meta.spec_is_dir() { 1u64 } else { 0u64 },
                if !meta.spec_is_dir() && meta.spec_is_file() { 1u64 } else { 0u64 },
                if !meta.spec_is_dir() && !meta.spec_is_file() && meta.spec_is_symlink() { 1u64 } else { 0u64 },
            ),
            w.course() == if meta.spec_is_dir() {
                seq![FrameView { path: (path.display@, path.bytes@), items: None, next: 0, start: 0 }]
            } else {
                Seq::empty()
            },
    {
        let usage = DiskUsage {
            path: copy_string(&path.display),
            path_bytes_hex: bytes_hex(path.bytes.as_slice()),
            absolute_path,
            exists: true,
            max_depth: None,
            one_filesystem,
            top_limit: 0,
            total_bytes: 0,
            apparent_bytes: 0,
            entries_seen: 0,
            directories_seen: 0,
            files_seen: 0,
            symlinks_seen: 0,
            unreadable_entries: 0,
            skipped_different_filesystem: 0,
            largest_children: Vec::new(),
            errors: Vec::new(),
        };
        let mut w = UsageWalk {
            usage,
            root_device: meta.dev,
            seen_inodes: HashSet::new(),
            visited_directories: HashSet::new(),
            frames: Vec::new(),
            root_totals: None,
            log: Ghost(Seq::empty()),
        };
        proof {
            assert(dir_keys(Seq::empty()) =~= Set::empty());
            assert(other_keys(Seq::empty()) =~= Set::empty());
        }
        let ghost empty_log = w.log@;
        let entered = w.enter(path, meta, true);
        proof {
            assert(!dir_keys(empty_log).contains(meta.spec_key()));
            assert(error_views(w.usage.errors@).len() == w.usage.errors@.len());
        }
        proof {
            crate::visits::lemma_sum_one(w.log@, 0, false);
            crate::visits::lemma_sum_one(w.log@, 0, true);
        }
        match entered {
            Entered::Leaf(t, a) => {
                w.root_totals = Some((t, a));
            },
            Entered::Directory(frame) => {
                w.frames.push(frame);
            },
        }
        assert(w.log@ =~= seq![meta]);
        assert(w.course() =~= if meta.spec_is_dir() {
            seq![FrameView { path: (path.display@, path.bytes@), items: None, next: 0, start: 0 }]
        } else {
            Seq::empty()
        });
        w
    }

    /// What the walk needs next, advancing it by at most one entry.
    ///
    /// An unreadable directory entry or an entry whose metadata could not be read
    /// is recorded as an error; an entry on another device is skipped when the walk
    /// stays on one filesystem; any other entry is visited. A directory whose
    /// entries are all handled is closed and its totals added to its parent's.
    #[verifier::rlimit(100)]
    #[verifier::spinoff_prover]
    pub fn step(&mut self) -> (r: WalkStep)
        requires
            old(self).wf(),
        ensures
            final(self).wf(),
            old(self).visits().is_prefix_of(final(self).visits()),
            final(self).visits().len() <= old(self).visits().len() + 1,
            final(self).report().path == old(self).report().path,
            final(self).report().path_bytes_hex == old(self).report().path_bytes_hex,
            final(self).report().absolute_path == old(self).report().absolute_path,
            final(self).report().exists == old(self).report().exists,
            final(self).report().one_filesystem == old(self).report().one_filesystem,
            r is Finished <==> old(self).finished(),
            r is Finished ==> *final(self) == *old(self),
            final(self).root_device() == old(self).root_device(),
            !old(self).finished() ==> (final(self).course(), final(self).visits()) == after_step(
                old(self).course(),
                old(self).visits(),
                old(self).report().one_filesystem,
                old(self).root_device(),
            ),
            !old(self).finished() ==> error_views(final(self).report().errors@) == error_views(
                old(self).report().errors@,
            ) + step_errors(
                old(self).course(),
                old(self).visits(),
                old(self).report().one_filesystem,
                old(self).root_device(),
            ),
            !old(self).finished() ==> child_views(final(self).report().largest_children@) == child_views(
                old(self).report().largest_children@,
            ) + step_children(
                old(self).course(),
                old(self).visits(),
                old(self).report().one_filesystem,
                old(self).root_device(),
            ),
            !old(self).finished() ==> counts_of(final(self).report()) == step_counts(
                old(self).report(),
                old(self).course(),
                old(self).report().one_filesystem,
                old(self).root_device(),
            ),
            r matches WalkStep::NeedListing(p) ==> {
                &&& final(self).visits() == old(self).visits()
                &&& final(self).report() == old(self).report()
                &&& final(self).awaiting_listing()
                &&& final(self).pending() == (p.display@, p.bytes@)
            },
    {
        if self.frames.len() == 0 {
            return WalkStep::Finished;
        }
        let ghost fr = self.frames@;
        let ghost log = self.log@;
        let ghost n = fr.len() as int;
        assert(frame_ok(fr, log, n - 1));
        let mut frame = self.frames.pop().unwrap();
        assert(self.frames@ =~= fr.take(n - 1));
        assert(frame == fr[n - 1]);
        let listed = frame.items.is_some();
        if !listed {
            let p = frame.path.duplicate();
            self.frames.push(frame);
            assert(self.frames@ =~= fr);
            return WalkStep::NeedListing(p);
        }
        let count = match &frame.items {
            Some(v) => v.len(),
            None => 0,
        };
        if frame.next < count {
            let ghost c0 = frames_view(fr);
            let ghost iv = match &frame.items {
                Some(v) => item_view(v@[frame.next as int]),
                None => ItemView::Unreadable(Seq::empty()),
            };
            let item = match &frame.items {
                Some(v) => clone_item(&v[frame.next]),
                None => ListingItem::Unreadable(String::new()),
            };
            assert(item_view(item) == iv);
            assert(c0.last().items matches Some(its) && its[c0.last().next] == iv && c0.last().next < its.len());
            frame.next = frame.next + 1;
            proof {
                lemma_course_advance(fr, frame);
            }
            let ghost adv = c0.update(
                n - 1,
                FrameView {
                    path: c0.last().path,
                    items: c0.last().items,
                    next: c0.last().next + 1,
                    start: c0.last().start,
                },
            );
            match item {
                ListingItem::Unreadable(message) => {
                    self.usage.unreadable_entries = saturating_add(self.usage.unreadable_entries, 1);
                    self.usage.errors.push(
                        UsageError::new(&frame.path, UsageErrorKind::ReadDirectory, &message),
                    );
                    self.frames.push(frame);
                    assert(self.frames@ =~= fr.take(n - 1).push(frame));
                    assert(self.course() == adv);
                    proof {
                        assert forall|i: int| 0 <= i < n implies #[trigger] frame_ok(self.frames@, log, i) by {
                            if i < n - 1 {
                                lemma_frames_replace_top(fr, frame, log, i);
                            }
                            assert(self.frames@ =~= fr.take(n - 1).push(frame));
                        }
                    }
                },
                ListingItem::Entry(child, Err(message)) => {
                    self.usage.unreadable_entries = saturating_add(self.usage.unreadable_entries, 1);
                    self.usage.errors.push(UsageError::new(&child, UsageErrorKind::Metadata, &message));
                    self.frames.push(frame);
                    assert(self.frames@ =~= fr.take(n - 1).push(frame));
                    assert(self.course() == adv);
                    proof {
                        assert forall|i: int| 0 <= i < n implies #[trigger] frame_ok(self.frames@, log, i) by {
                            if i < n - 1 {
                                lemma_frames_replace_top(fr, frame, log, i);
                            }
                            assert(self.frames@ =~= fr.take(n - 1).push(frame));
                        }
                    }
                },
                ListingItem::Entry(child, Ok(meta)) => {
                    if self.usage.one_filesystem && meta.dev != self.root_device {
                        self.usage.skipped_different_filesystem = saturating_add(
                            self.usage.skipped_different_filesystem,
                            1,
                        );
                        self.frames.push(frame);
                        assert(self.frames@ =~= fr.take(n - 1).push(frame));
                        assert(self.course() == adv);
                        proof {
                            assert forall|i: int| 0 <= i < n implies #[trigger] frame_ok(self.frames@, log, i) by {
                                if i < n - 1 {
                                    lemma_frames_replace_top(fr, frame, log, i);
                                }
                                assert(self.frames@ =~= fr.take(n - 1).push(frame));
                            }
                        }
                    } else {
                        let entered = self.enter(&child, meta, false);
                        let ghost log2 = self.log@;
                        proof {
                            lemma_sum_one(log2, log.len() as int, false);
                            lemma_sum_one(log2, log.len() as int, true);
                            lemma_sum_stable(log, meta, frame.start@, log.len() as int, false);
                            lemma_sum_stable(log, meta, frame.start@, log.len() as int, true);
                            lemma_sum_split(log2, frame.start@, log.len() as int, (log.len() + 1) as int, false);
                            lemma_sum_split(log2, frame.start@, log.len() as int, (log.len() + 1) as int, true);
                            lemma_sum_nonneg(log2, frame.start@, log.len() as int, false);
                            lemma_sum_nonneg(log2, frame.start@, log.len() as int, true);
                        }
                        match entered {
                            Entered::Leaf(t, a) => {
                                if frame.collect_children {
                                    self.usage.largest_children.push(UsageChild {
                                        path: copy_string(&child.display),
                                        path_bytes_hex: bytes_hex(child.bytes.as_slice()),
                                        kind: classify_kind(&meta),
                                        total_bytes: t,
                                        apparent_bytes: a,
                                    });
                                }
                                frame.total = saturating_add(frame.total, t);
                                frame.apparent = saturating_add(frame.apparent, a);
                                self.frames.push(frame);
                                proof {
                                    lemma_course_advance(fr, frame);
                                    assert(self.frames@ =~= fr.take(n - 1).push(frame));
                                    assert(self.course() == adv);
                                }
                                proof {
                                    assert forall|i: int| 0 <= i < n implies #[trigger] frame_ok(self.frames@, log2, i) by {
                                        assert(self.frames@ =~= fr.take(n - 1).push(frame));
                                        if i < n - 1 {
                                            lemma_frames_log_push(fr, log, meta, i);
                                            lemma_frames_replace_top(fr, frame, log2, i);
                                        }
                                    }
                                }
                            },
                            Entered::Directory(sub) => {
                                self.frames.push(frame);
                                self.frames.push(sub);
                                proof {
                                    assert(self.frames@ =~= fr.take(n - 1).push(frame).push(sub));
                                    assert(frames_view(fr.take(n - 1).push(frame).push(sub)) =~= frames_view(
                                        fr.take(n - 1).push(frame),
                                    ).push(frame_view(sub)));
                                    assert(frame_view(sub) == FrameView {
                                        path: (child.display@, child.bytes@),
                                        items: None,
                                        next: 0,
                                        start: log.len() as int,
                                    });
                                    assert(self.course() == adv.push(frame_view(sub)));
                                }
                                proof {
                                    let g = self.frames@;
                                    assert(g =~= fr.take(n - 1).push(frame).push(sub));
                                    assert forall|i: int| 0 <= i < n + 1 implies #[trigger] frame_ok(g, log2, i) by {
                                        if i < n - 1 {
                                            lemma_frames_log_push(fr, log, meta, i);
                                            lemma_frames_replace_top(fr, frame, log2, i);
                                            let h = fr.take(n - 1).push(frame);
                                            assert(g[i] == h[i]);
                                            if i + 1 < n - 1 {
                                                assert(g[i + 1] == h[i + 1]);
                                            } else {
                                                assert(g[i + 1] == frame);
                                            }
                                            assert(fend(g, log2.len() as int, i) == fend(h, log2.len() as int, i));
                                        } else if i == n - 1 {
                                            assert(g[i] == frame);
                                            assert(g[i + 1] == sub);
                                        } else {
                                            assert(g[i] == sub);
                                        }
                                    }
                                }
                            },
                        }
                    }
                },
            }
            return WalkStep::Progress;
        }
        // Every entry of this directory is handled: close it.
        proof {
            lemma_sum_nonneg(log, frame.start@, log.len() as int, false);
            lemma_sum_nonneg(log, frame.start@, log.len() as int, true);
        }
        if self.frames.len() == 0 {
            self.root_totals = Some((frame.total, frame.apparent));
            return WalkStep::Progress;
        }
        let ghost rest = self.frames@;
        assert(frame_ok(fr, log, n - 2));
        let mut parent = self.frames.pop().unwrap();
        assert(parent == fr[n - 2]);
        assert(self.frames@ =~= fr.take(n - 2));
        proof {
            lemma_sum_nonneg(log, parent.start@, frame.start@, false);
            lemma_sum_nonneg(log, parent.start@, frame.start@, true);
            crate::entry::lemma_sat_add_cap(
                visit_sum(log, parent.start@, frame.start@, false),
                visit_sum(log, frame.start@, log.len() as int, false),
            );
            crate::entry::lemma_sat_add_cap(
                visit_sum(log, parent.start@, frame.start@, true),
                visit_sum(log, frame.start@, log.len() as int, true),
            );
            lemma_sum_split(log, parent.start@, frame.start@, log.len() as int, false);
            lemma_sum_split(log, parent.start@, frame.start@, log.len() as int, true);
        }
        if parent.collect_children {
            self.usage.largest_children.push(UsageChild {
                path: copy_string(&frame.path.display),
                path_bytes_hex: bytes_hex(frame.path.bytes.as_slice()),
                kind: frame.kind,
                total_bytes: frame.total,
                apparent_bytes: frame.apparent,
            });
        }
        parent.total = saturating_add(parent.total, frame.total);
        parent.apparent = saturating_add(parent.apparent, frame.apparent);
        self.frames.push(parent);
        proof {
            let g = self.frames@;
            assert(g =~= fr.take(n - 2).push(parent));
            assert forall|i: int| 0 <= i < n - 1 implies #[trigger] frame_ok(g, log, i) by {
                if i < n - 2 {
                    assert(frame_ok(fr, log, i));
                    assert(g[i] == fr[i]);
                    assert(g[i + 1] == (if i + 1 < n - 2 { fr[i + 1] } else { parent }));
                    assert(fend(g, log.len() as int, i) == fend(fr, log.len() as int, i));
                } else {
                    assert(g[i] == parent);
                    assert(fend(g, log.len() as int, i) == log.len());
                    assert(parent.total == capped_sum(log, parent.start@, log.len() as int, false));
                }
            }
        }
        WalkStep::Progress
    }

    /// Hands the walk the listing it asked for: the directory's items, or the error
    /// text of a directory that could not be read.
    pub fn supply_listing(&mut self, listing: Result<Vec<ListingItem>, String>)
        requires
            old(self).wf(),
            old(self).awaiting_listing(),
        ensures
            final(self).wf(),
            final(self).visits() == old(self).visits(),
            !final(self).awaiting_listing(),
            !final(self).finished(),
            final(self).root_device() == old(self).root_device(),
            error_views(final(self).report().errors@) == error_views(old(self).report().errors@) + match listing {
                Ok(_) => Seq::empty(),
                Err(e) => seq![
                    (
                        old(self).pending().0,
                        hex_of(old(self).pending().1),
                        UsageErrorKind::ReadDirectory,
                        e@,
                    ),
                ],
            },
            final(self).report().largest_children == old(self).report().largest_children,
            counts_of(final(self).report()) == match listing {
                Ok(_) => counts_of(old(self).report()),
                Err(_) => {
                    let c = counts_of(old(self).report());
                    (sat_add(c.0, 1), c.1, c.2, c.3, c.4)
                },
            },
            final(self).course() == old(self).course().update(
                old(self).course().len() - 1,
                FrameView {
                    path: old(self).course().last().path,
                    items: Some(
                        match listing {
                            Ok(v) => item_views(v@),
                            Err(_) => Seq::empty(),
                        },
                    ),
                    next: 0,
                    start: old(self).course().last().start,
                },
            ),
            final(self).report().path == old(self).report().path,
            final(self).report().path_bytes_hex == old(self).report().path_bytes_hex,
            final(self).report().absolute_path == old(self).report().absolute_path,
            final(self).report().exists == old(self).report().exists,
            final(self).report().one_filesystem == old(self).report().one_filesystem,
    {
        let ghost fr = self.frames@;
        let ghost log = self.log@;
        let ghost n = fr.len() as int;
        let ghost c0 = self.course();
        let ghost supplied = match &listing {
            Ok(v) => item_views(v@),
            Err(_) => Seq::<ItemView>::empty(),
        };
        assert(frame_ok(fr, log, n - 1));
        let mut frame = self.frames.pop().unwrap();
        assert(self.frames@ =~= fr.take(n - 1));
        match listing {
            Ok(items) => {
                frame.items = Some(items);
            },
            Err(message) => {
                self.usage.unreadable_entries = saturating_add(self.usage.unreadable_entries, 1);
                self.usage.errors.push(
                    UsageError::new(&frame.path, UsageErrorKind::ReadDirectory, &message),
                );
                frame.items = Some(Vec::new());
                assert(item_views(Seq::<ListingItem>::empty()) =~= Seq::<ItemView>::empty());
            },
        }
        frame.next = 0;
        self.frames.push(frame);
        proof {
            assert forall|i: int| 0 <= i < n implies #[trigger] frame_ok(self.frames@, log, i) by {
                if i < n - 1 {
                    lemma_frames_replace_top(fr, frame, log, i);
                }
                assert(self.frames@ =~= fr.take(n - 1).push(frame));
            }
            assert(self.frames@ =~= fr.take(n - 1).push(frame));
            assert(frame_view(frame) == FrameView {
                path: c0.last().path,
                items: Some(supplied),
                next: 0,
                start: c0.last().start,
            });
            assert(self.course() =~= c0.update(
                n - 1,
                FrameView { path: c0.last().path, items: Some(supplied), next: 0, start: c0.last().start },
            ));
        }
    }

    /// Ends the walk under the reporting `options` (whose filesystem setting is the
    /// walk's own): the report with the root's totals, and, unless the depth is 0,
    /// the largest immediate children, largest first, at most `top_limit` of them.
    pub fn finish(self, options: UsageOptions) -> (u: DiskUsage)
        requires
            self.wf(),
            self.finished(),
            options.spec_one_filesystem() == self.report().one_filesystem,
        ensures
            finish_of(self, options, u),
    {
        let mut usage = self.usage;
        match self.root_totals {
            Some((t, a)) => {
                usage.total_bytes = t;
                usage.apparent_bytes = a;
            },
            None => {},
        }
        usage.max_depth = options.max_depth;
        usage.top_limit = options.top_limit;
        let children = usage.largest_children;
        let reports_children = match options.max_depth {
            Some(d) => d != 0,
            None => true,
        };
        if reports_children {
            usage.largest_children = top_children(children, options.top_limit);
        } else {
            usage.largest_children = Vec::new();
        }
        usage
    }

    /// The innermost open directory.
    pub closed spec fn pending(self) -> (Seq<char>, Seq<u8>) {
        (self.frames@.last().path.display@, self.frames@.last().path.bytes@)
    }

    /// Whether the innermost open directory still needs its listing.
    pub closed spec fn awaiting_listing(self) -> bool {
        self.frames@.len() > 0 && self.frames@.last().items is None
    }

    /// Steps onto one entry: counts it, and either returns its totals or the
    /// frame of a directory to descend into.
    fn enter(&mut self, path: &PathText, meta: EntryMeta, collect: bool) -> (r: Entered)
        requires
            old(self).visited_directories@ == dir_keys(old(self).log@),
            old(self).seen_inodes@ == other_keys(old(self).log@),
            old(self).usage.entries_seen == cap(old(self).log@.len() as int),
        ensures
            final(self).log@ == old(self).log@.push(meta),
            final(self).visited_directories@ == dir_keys(final(self).log@),
            final(self).seen_inodes@ == other_keys(final(self).log@),
            final(self).usage.entries_seen == cap(final(self).log@.len() as int),
            final(self).frames == old(self).frames,
            final(self).root_totals == old(self).root_totals,
            final(self).root_device == old(self).root_device,
            final(self).usage.path == old(self).usage.path,
            final(self).usage.path_bytes_hex == old(self).usage.path_bytes_hex,
            final(self).usage.absolute_path == old(self).usage.absolute_path,
            final(self).usage.exists == old(self).usage.exists,
            final(self).usage.max_depth == old(self).usage.max_depth,
            final(self).usage.one_filesystem == old(self).usage.one_filesystem,
            final(self).usage.top_limit == old(self).usage.top_limit,
            final(self).usage.unreadable_entries == old(self).usage.unreadable_entries,
            final(self).usage.skipped_different_filesystem == old(self).usage.skipped_different_filesystem,
            final(self).usage.largest_children == old(self).usage.largest_children,
            meta.spec_is_dir() ==> (r is Directory <==> !dir_keys(old(self).log@).contains(meta.spec_key())),
            !meta.spec_is_dir() ==> r is Leaf,
            error_views(final(self).usage.errors@) == error_views(old(self).usage.errors@) + if meta.spec_is_dir()
                && dir_keys(old(self).log@).contains(meta.spec_key()) {
                seq![(path.display@, hex_of(path.bytes@), UsageErrorKind::DirectoryCycle, cycle_text())]
            } else {
                Seq::empty()
            },
            final(self).usage.directories_seen == if meta.spec_is_dir() {
                sat_add(old(self).usage.directories_seen, 1)
            } else {
                old(self).usage.directories_seen
            },
            final(self).usage.files_seen == if !meta.spec_is_dir() && meta.spec_is_file() {
                sat_add(old(self).usage.files_seen, 1)
            } else {
                old(self).usage.files_seen
            },
            final(self).usage.symlinks_seen == if !meta.spec_is_dir() && !meta.spec_is_file()
                && meta.spec_is_symlink() {
                sat_add(old(self).usage.symlinks_seen, 1)
            } else {
                old(self).usage.symlinks_seen
            },
            match r {
                Entered::Leaf(t, a) => {
                    &&& t == contribution(final(self).log@, old(self).log@.len() as int, false)
                    &&& a == contribution(final(self).log@, old(self).log@.len() as int, true)
                    &&& (meta.spec_is_dir() ==> !counted(final(self).log@, old(self).log@.len() as int))
                },
                Entered::Directory(f) => {
                    &&& meta.spec_is_dir()
                    &&& f.start@ == old(self).log@.len()
                    &&& f.total == contribution(final(self).log@, old(self).log@.len() as int, false)
                    &&& f.apparent == contribution(final(self).log@, old(self).log@.len() as int, true)
                    &&& f.items is None
                    &&& f.next == 0
                    &&& f.collect_children == collect
                    &&& f.path.display@ == path.display@
                    &&& f.path.bytes@ == path.bytes@
                    &&& f.kind == usage_kind_of(meta)
                },
            },
    {
        let ghost old_log = self.log@;
        self.usage.entries_seen = saturating_add(self.usage.entries_seen, 1);
        if meta.is_dir() {
            self.usage.directories_seen = saturating_add(self.usage.directories_seen, 1);
        } else if meta.is_file() {
            self.usage.files_seen = saturating_add(self.usage.files_seen, 1);
        } else if meta.is_symlink() {
            self.usage.symlinks_seen = saturating_add(self.usage.symlinks_seen, 1);
        }
        let key = meta.key();
        proof {
            lemma_keys_push(old_log, meta);
            lemma_counted_last(old_log, meta);
            self.log@ = old_log.push(meta);
            assert(self.log@[old_log.len() as int] == meta);
        }
        if meta.is_dir() {
            let fresh = self.visited_directories.insert(key);
            if !fresh {
                let message = owned(
                    "directory was already visited during this traversal; skipped to avoid double counting",
                );
                self.usage.errors.push(UsageError::new(path, UsageErrorKind::DirectoryCycle, &message));
                return Entered::Leaf(0, 0);
            }
            let frame = UsageFrame {
                path: path.duplicate(),
                kind: classify_kind(&meta),
                total: meta.allocated_bytes(),
                apparent: meta.len,
                items: None,
                next: 0,
                collect_children: collect,
                start: Ghost(old_log.len() as int),
            };
            return Entered::Directory(frame);
        }
        let fresh = self.seen_inodes.insert(key);
        if fresh {
            Entered::Leaf(meta.allocated_bytes(), meta.len)
        } else {
            Entered::Leaf(0, 0)
        }
    }
}

} // verus!

verus! {

use crate::agent::{AgentReport, FactValue, FactField, NextStep, Severity, Subject, fact_is, read_only_step, fact_with, fact_said, field, field_is};
use crate::text::{texts, dec, push_dec, push_str, bool_text, push_bool};
use crate::units::{human_bytes_up_spec, quote_arg, shell_quote_arg};

impl UsageKind {
    pub open spec fn spec_schema_name(self) -> Seq<char> {
        match self {
            UsageKind::RegularFile => "regular-file"@,
            UsageKind::Directory => "directory"@,
            UsageKind::Symlink => "symlink"@,
            UsageKind::Other => "other"@,
            UsageKind::Missing => "missing"@,
        }
    }

    /// The name of the kind in structured output.
    pub fn schema_name(self) -> (s: &'static str)
        ensures
            s@ == self.spec_schema_name(),
    {
        match self {
            UsageKind::RegularFile => "regular-file",
            UsageKind::Directory => "directory",
            UsageKind::Symlink => "symlink",
            UsageKind::Other => "other",
            UsageKind::Missing => "missing",
        }
    }
}

/// How much a usage report needs attention.
pub open spec fn usage_severity(u: DiskUsage) -> Severity {
    if !u.exists {
        Severity::Warning
    } else if u.unreadable_entries > 0 {
        Severity::Info
    } else {
        Severity::Normal
    }
}

/// The one-line summary of a usage report.
pub open spec fn usage_summary(u: DiskUsage) -> Seq<char> {
    if u.exists {
        u.path@ + " uses "@ + human_bytes_up_spec(u.total_bytes) + " across "@ + dec(u.entries_seen as nat)
            + " entries."@
    } else {
        u.path@ + " does not exist or cannot be inspected."@
    }
}

/// The agent report of a usage report.
pub fn agent_report(usage: &DiskUsage, generated_at: String) -> (r: AgentReport)
    ensures
        r.generated_at == generated_at,
        r.subject.domain@ == "disk"@ && r.subject.command@ == "usage"@,
        r.subject.target matches Some(t) && t@ == usage.path@,
        r.summary@ == usage_summary(*usage),
        r.severity == usage_severity(*usage),
        r.facts@.len() == if usage.largest_children@.len() > 0 { 4nat } else { 3nat },
        fact_is(r.facts@[0], "path_exists"@, Severity::Info, seq![usage.path@ + " exists: "@ + bool_text(usage.exists)]),
        r.facts@[0].value == FactValue::Bool(usage.exists),
        fact_is(r.facts@[1], "total_bytes"@, Severity::Info, seq!["Total allocated bytes: "@ + dec(usage.total_bytes as nat)]),
        r.facts@[1].value == FactValue::Number(usage.total_bytes),
        fact_is(r.facts@[2], "entries_seen"@, Severity::Info, seq!["Entries seen: "@ + dec(usage.entries_seen as nat)]),
        r.facts@[2].value == FactValue::Number(usage.entries_seen),
        usage.largest_children@.len() > 0 ==> {
            let c = usage.largest_children@[0];
            &&& fact_is(r.facts@[3], "largest_child"@, Severity::Info, seq!["largest immediate child by recursively calculated allocated bytes"@])
            &&& r.facts@[3].value matches FactValue::Object(fields) && fields@.len() == 4
                && field_is(fields@[0], "path"@) && (fields@[0].value matches FactValue::Text(t) && t@ == c.path@)
                && field_is(fields@[1], "kind"@) && (fields@[1].value matches FactValue::Text(t) && t@ == c.kind.spec_schema_name())
                && field_is(fields@[2], "total_bytes"@) && fields@[2].value == FactValue::Number(c.total_bytes)
                && field_is(fields@[3], "apparent_bytes"@) && fields@[3].value == FactValue::Number(c.apparent_bytes)
        },
        texts(r.interpretation@) == if usage.unreadable_entries > 0 {
            seq![dec(usage.unreadable_entries as nat) + " entries could not be inspected; totals may be lower than real usage."@]
        } else {
            Seq::<Seq<char>>::empty()
        },
        r.safe_next_steps@.len() == if usage.largest_children@.len() > 0 { 3nat } else { 2nat },
        read_only_step(
            r.safe_next_steps@[0],
            "bbt --json disk usage -- "@ + shell_quote_arg(usage.path@),
            "Fetch complete structured disk usage data"@,
        ),
        read_only_step(
            r.safe_next_steps@[1],
            "bbt --agent fs inspect -- "@ + shell_quote_arg(usage.path@),
            "Inspect metadata and access details for the same path"@,
        ),
        usage.largest_children@.len() > 0 ==> read_only_step(
            r.safe_next_steps@[2],
            "bbt --agent disk usage --depth 1 -- "@ + shell_quote_arg(usage.largest_children@[0].path@),
            "Inspect the largest immediate child in more detail"@,
        ),
        r.risky_next_steps@.len() == 0,
{
    let severity = if !usage.exists {
        Severity::Warning
    } else if usage.unreadable_entries > 0 {
        Severity::Info
    } else {
        Severity::Normal
    };
    let mut summary = copy_string(&usage.path);
    if usage.exists {
        push_str(&mut summary, " uses ");
        let h = crate::units::human_bytes_up(usage.total_bytes);
        push_str(&mut summary, h.as_str());
        push_str(&mut summary, " across ");
        push_dec(&mut summary, usage.entries_seen);
        push_str(&mut summary, " entries.");
    } else {
        push_str(&mut summary, " does not exist or cannot be inspected.");
    }
    let mut e0 = copy_string(&usage.path);
    push_str(&mut e0, " exists: ");
    push_bool(&mut e0, usage.exists);
    let mut e1 = owned("Total allocated bytes: ");
    push_dec(&mut e1, usage.total_bytes);
    let mut e2 = owned("Entries seen: ");
    push_dec(&mut e2, usage.entries_seen);
    let mut report = AgentReport::new(
        generated_at,
        Subject::new("disk", "usage", Some(usage.path.as_str())),
        summary,
        severity,
    ).with_fact(fact_said("path_exists", FactValue::Bool(usage.exists), Severity::Info, e0)).with_fact(
        fact_said("total_bytes", FactValue::Number(usage.total_bytes), Severity::Info, e1),
    ).with_fact(fact_said("entries_seen", FactValue::Number(usage.entries_seen), Severity::Info, e2));
    if usage.largest_children.len() > 0 {
        let c = &usage.largest_children[0];
        let mut fields: Vec<FactField> = Vec::new();
        fields.push(field("path", FactValue::Text(copy_string(&c.path))));
        fields.push(field("kind", FactValue::Text(owned(c.kind.schema_name()))));
        fields.push(field("total_bytes", FactValue::Number(c.total_bytes)));
        fields.push(field("apparent_bytes", FactValue::Number(c.apparent_bytes)));
        report = report.with_fact(
            fact_with(
                "largest_child",
                FactValue::Object(fields),
                Severity::Info,
                "largest immediate child by recursively calculated allocated bytes",
            ),
        );
    }
    if usage.unreadable_entries > 0 {
        let mut t = crate::text::dec_string(usage.unreadable_entries);
        push_str(&mut t, " entries could not be inspected; totals may be lower than real usage.");
        report = report.with_interpretation(t);
    }
    let q = quote_arg(usage.path.as_str());
    let mut c1 = owned("bbt --json disk usage -- ");
    push_str(&mut c1, q.as_str());
    let mut c2 = owned("bbt --agent fs inspect -- ");
    push_str(&mut c2, q.as_str());
    let mut report = report.with_safe_next_step(
        NextStep::read_only(c1.as_str(), "Fetch complete structured disk usage data"),
    ).with_safe_next_step(
        NextStep::read_only(c2.as_str(), "Inspect metadata and access details for the same path"),
    );
    if usage.largest_children.len() > 0 {
        let mut c3 = owned("bbt --agent disk usage --depth 1 -- ");
        let q3 = quote_arg(usage.largest_children[0].path.as_str());
        push_str(&mut c3, q3.as_str());
        report = report.with_safe_next_step(
            NextStep::read_only(c3.as_str(), "Inspect the largest immediate child in more detail"),
        );
    }
    assert(texts(report.interpretation@) =~= if usage.unreadable_entries > 0 {
        seq![dec(usage.unreadable_entries as nat) + " entries could not be inspected; totals may be lower than real usage."@]
    } else {
        Seq::<Seq<char>>::empty()
    });
    report
}

/// Formats a byte count with binary units, rounded up to one decimal
/// (`1.2 GiB` for 1234567890 bytes).
pub fn human_bytes(bytes: u64) -> (s: String)
    ensures
        s@ == human_bytes_up_spec(bytes),
{
    crate::units::human_bytes_up(bytes)
}

/// Quotes an argument for a suggested command; the empty argument becomes `''`.
pub fn shell_quote(value: &str) -> (s: String)
    ensures
        s@ == shell_quote_arg(value@),
{
    quote_arg(value)
}

} // verus!
