//! `fs tree`: a bounded-depth directory tree whose every node carries the full
//! recursive totals of its subtree.
//!
//! The walk is a state machine like the one of `disk usage`: it asks for one
//! directory listing at a time ([`TreeWalk::step`]) and is handed the entries and
//! their `lstat` records ([`TreeWalk::supply_listing`]). Children are visited in
//! byte order of their names; `--depth` decides which nodes list their children,
//! never what is counted.

use vstd::prelude::*;
use std::collections::HashSet;
use crate::entry::{EntryMeta, PathText, sat_add, saturating_add, cap, lemma_sat_add_cap};
use crate::fs::{FileKind, kind_of_mode, kind_of};
use crate::text::{bytes_hex, hex_of, copy_string, concat2, concat4, texts};
use crate::visits::{
    capped_sum, visit_sum, dir_keys, other_keys, contribution, counted, lemma_keys_push,
    lemma_counted_last, lemma_sum_stable, lemma_sum_split, lemma_sum_nonneg, lemma_sum_one,
};
use crate::order::{TotalOrder, sort_by_order, lex_le, lex_lt, lemma_lex_total, lemma_lex_le_trans, compare_bytes_sign, stable_arrangement, lemma_stable_sort_unique};

verus! {

broadcast use vstd::std_specs::hash::group_hash_axioms;

/// The result of `fs tree` for one path.
pub struct FsTree {
    pub path: String,
    pub path_bytes_hex: String,
    pub absolute_path: Option<String>,
    pub exists: bool,
    pub max_depth: Option<u64>,
    pub one_filesystem: bool,
    pub root: Option<TreeNode>,
    pub entries_seen: u64,
    pub max_depth_reached: Option<u64>,
    pub skipped_different_filesystem: u64,
    pub warnings: Vec<String>,
}

/// One node of the tree with its recursive totals.
pub struct TreeNode {
    pub name: String,
    pub name_bytes_hex: String,
    pub kind: FileKind,
    pub total_bytes: u64,
    pub apparent_bytes: u64,
    /// Entries in this directory's subtree, the directory included; `None` on
    /// anything that is not a traversed directory.
    pub entries_seen: Option<u64>,
    /// Present on directories above the reporting depth.
    pub children: Option<Vec<TreeNode>>,
}

/// Options of `fs tree`.
#[derive(Clone, Copy)]
pub struct TreeOptions {
    pub max_depth: Option<u64>,
    pub one_filesystem: bool,
}

impl TreeOptions {
    pub fn new(max_depth: Option<u64>, one_filesystem: bool) -> (o: Self)
        ensures
            o.max_depth == max_depth,
            o.one_filesystem == one_filesystem,
    {
        TreeOptions { max_depth, one_filesystem }
    }
}

impl Default for TreeOptions {
    /// No depth limit, crossing filesystems.
    fn default() -> (o: Self)
        ensures
            o.max_depth is None,
            !o.one_filesystem,
    {
        TreeOptions { max_depth: None, one_filesystem: false }
    }
}

/// Whether a directory at `depth` lists its children.
pub open spec fn reports_children(options: TreeOptions, depth: u64) -> bool {
    match options.max_depth {
        None => true,
        Some(m) => depth < m,
    }
}

/// One named entry of a directory listing, with the outcome of `lstat` on it.
pub struct NamedEntry {
    /// The entry's name: raw bytes and lossy display text.
    pub name: PathText,
    /// The entry's full path.
    pub path: PathText,
    pub meta: Result<EntryMeta, String>,
}

impl TotalOrder for NamedEntry {
    /// Entries sort by the bytes of their names.
    open spec fn ordered_le(&self, other: &Self) -> bool {
        lex_le(self.name.bytes@, other.name.bytes@)
    }

    proof fn ordered_total(a: Self, b: Self) {
        lemma_lex_total(a.name.bytes@, b.name.bytes@);
    }

    proof fn ordered_trans(a: Self, b: Self, c: Self) {
        lemma_lex_le_trans(a.name.bytes@, b.name.bytes@, c.name.bytes@);
    }

    fn goes_before(&self, other: &Self) -> (r: bool) {
        proof {
            lemma_lex_total(self.name.bytes@, other.name.bytes@);
        }
        compare_bytes_sign(self.name.bytes.as_slice(), other.name.bytes.as_slice()) < 0
    }
}

/// One item of a directory listing.
pub enum TreeItem {
    /// The directory iterator failed to produce an entry; the error text.
    Unreadable(String),
    Named(NamedEntry),
}

/// What the walk needs next.
pub enum TreeStep {
    /// The entries of this directory.
    NeedListing(PathText),
    /// The walk advanced by one entry; call `step` again.
    Progress,
    /// The walk is over.
    Finished,
}

pub open spec fn entry_error_text(dir: Seq<char>, error: Seq<char>) -> Seq<char> {
    "cannot read a directory entry in "@ + dir + ": "@ + error
}

pub open spec fn read_dir_error_text(dir: Seq<char>, error: Seq<char>) -> Seq<char> {
    "cannot read directory "@ + dir + ": "@ + error
}

pub open spec fn metadata_error_text(path: Seq<char>, error: Seq<char>) -> Seq<char> {
    "metadata unavailable for "@ + path + ": "@ + error
}

pub open spec fn not_directory_text(path: Seq<char>) -> Seq<char> {
    path + " is not a directory; reporting the path itself as a single leaf node"@
}

pub open spec fn missing_text(path: Seq<char>) -> Seq<char> {
    path + " does not exist"@
}

/// The tree report for a path whose metadata could not be read: `not_found`
/// when it does not exist, otherwise `message` is the error text.
pub fn tree_of_unreadable_root(
    path: &PathText,
    absolute_path: Option<String>,
    options: TreeOptions,
    not_found: bool,
    message: &String,
) -> (t: FsTree)
    ensures
        t.path@ == path.display@,
        t.path_bytes_hex@ == hex_of(path.bytes@),
        t.absolute_path == absolute_path,
        !t.exists,
        t.max_depth == options.max_depth,
        t.one_filesystem == options.one_filesystem,
        t.root is None,
        t.entries_seen == 0,
        t.max_depth_reached is None,
        t.skipped_different_filesystem == 0,
        t.warnings@.len() == 1,
        t.warnings@[0]@ == (if not_found {
            missing_text(path.display@)
        } else {
            metadata_error_text(path.display@, message@)
        }),
{
    let warning = if not_found {
        concat2(&path.display, " does not exist")
    } else {
        concat4("metadata unavailable for ", &path.display, ": ", message)
    };
    let mut warnings: Vec<String> = Vec::new();
    warnings.push(warning);
    FsTree {
        path: copy_string(&path.display),
        path_bytes_hex: bytes_hex(path.bytes.as_slice()),
        absolute_path,
        exists: false,
        max_depth: options.max_depth,
        one_filesystem: options.one_filesystem,
        root: None,
        entries_seen: 0,
        max_depth_reached: None,
        skipped_different_filesystem: 0,
        warnings,
    }
}

pub open spec fn revisit_text(path: Seq<char>) -> Seq<char> {
    path + " was already visited during this traversal; skipped to avoid double counting"@
}

/// What the tree walk sees of a named entry: its name and path (text and bytes)
/// and its record or error text.
pub struct EntryView {
    pub name: (Seq<char>, Seq<u8>),
    pub path: (Seq<char>, Seq<u8>),
    pub meta: Result<EntryMeta, Seq<char>>,
}

pub open spec fn entry_view(e: NamedEntry) -> EntryView {
    EntryView {
        name: (e.name.display@, e.name.bytes@),
        path: (e.path.display@, e.path.bytes@),
        meta: match e.meta {
            Ok(m) => Ok(m),
            Err(t) => Err(t@),
        },
    }
}

pub open spec fn entry_views(v: Seq<NamedEntry>) -> Seq<EntryView> {
    v.map_values(|e: NamedEntry| entry_view(e))
}

/// An open directory of a tree walk: its path, its entries in visiting order
/// once supplied, and how many of them have been handled.
pub struct TreeFrameView {
    pub path: (Seq<char>, Seq<u8>),
    pub items: Option<Seq<EntryView>>,
    pub next: int,
    /// The directory's name as its node shows it: text and bytes as hex.
    pub name: (Seq<char>, Seq<char>),
    /// The index of the directory's own visit.
    pub start: int,
}

/// The open directories, innermost last, and the visits after one step of a tree
/// walk that is not finished. The reporting depth plays no part: a directory
/// without its entries waits for them; otherwise its next entry is handled, and
/// one with a record that is not skipped for lying on another filesystem is
/// visited, a directory not visited before being opened below it; a directory
/// whose entries are all handled is closed.
pub open spec fn tree_after_step(
    course: Seq<TreeFrameView>,
    visits: Seq<EntryMeta>,
    one_filesystem: bool,
    root_device: u64,
) -> (Seq<TreeFrameView>, Seq<EntryMeta>) {
    let top = course.last();
    match top.items {
        None => (course, visits),
        Some(items) => if top.next < items.len() {
            let advanced = course.update(
                course.len() - 1,
                TreeFrameView { path: top.path, items: top.items, next: top.next + 1, name: top.name, start: top.start },
            );
            match items[top.next].meta {
                Ok(m) => if crate::disk::stays_on(one_filesystem, root_device, m) {
                    if m.spec_is_dir() && !dir_keys(visits).contains(m.spec_key()) {
                        (
                            advanced.push(
                                TreeFrameView {
                                    path: items[top.next].path,
                                    items: None,
                                    next: 0,
                                    name: (items[top.next].name.0, hex_of(items[top.next].name.1)),
                                    start: visits.len() as int,
                                },
                            ),
                            visits.push(m),
                        )
                    } else {
                        (advanced, visits.push(m))
                    }
                } else {
                    (advanced, visits)
                },
                Err(_) => (advanced, visits),
            }
        } else {
            (course.drop_last(), visits)
        },
    }
}

/// The entry the innermost open directory handles next: present when its
/// entries are in and some are left.
pub open spec fn tree_pending(course: Seq<TreeFrameView>) -> Option<EntryView> {
    let top = course.last();
    match top.items {
        Some(items) => if 0 <= top.next < items.len() {
            Some(items[top.next])
        } else {
            None
        },
        None => None,
    }
}

/// The warnings one step records: an entry without a record, or a directory
/// reached a second time.
pub open spec fn tree_step_warnings(
    course: Seq<TreeFrameView>,
    visits: Seq<EntryMeta>,
    one_filesystem: bool,
    root_device: u64,
) -> Seq<Seq<char>> {
    match tree_pending(course) {
        Some(e) => match e.meta {
            Err(t) => seq![metadata_error_text(e.path.0, t)],
            Ok(m) => if crate::disk::stays_on(one_filesystem, root_device, m) && m.spec_is_dir() && dir_keys(
                visits,
            ).contains(m.spec_key()) {
                seq![revisit_text(e.path.0)]
            } else {
                Seq::empty()
            },
        },
        None => Seq::empty(),
    }
}

/// The count of entries skipped on other filesystems after one step.
pub open spec fn tree_step_skipped(
    skipped: u64,
    course: Seq<TreeFrameView>,
    one_filesystem: bool,
    root_device: u64,
) -> u64 {
    match tree_pending(course) {
        Some(e) => match e.meta {
            Ok(m) => if crate::disk::stays_on(one_filesystem, root_device, m) {
                skipped
            } else {
                sat_add(skipped, 1)
            },
            Err(_) => skipped,
        },
        None => skipped,
    }
}

/// The deepest level visited after one step: an entry of the innermost open
/// directory lies one level below it, at the depth of the number of open
/// directories.
pub open spec fn tree_step_deepest(
    deepest: u64,
    course: Seq<TreeFrameView>,
    one_filesystem: bool,
    root_device: u64,
) -> u64 {
    match tree_pending(course) {
        Some(e) => match e.meta {
            Ok(m) => if crate::disk::stays_on(one_filesystem, root_device, m) && course.len() > deepest {
                course.len() as u64
            } else {
                deepest
            },
            Err(_) => deepest,
        },
        None => deepest,
    }
}

/// The warnings for the unreadable items of a listing of `dir`, in order.
pub open spec fn entry_errors(dir: Seq<char>, v: Seq<TreeItem>) -> Seq<Seq<char>>
    decreases v.len(),
{
    if v.len() == 0 {
        Seq::empty()
    } else {
        let rest = entry_errors(dir, v.drop_last());
        match v.last() {
            TreeItem::Unreadable(e) => rest.push(entry_error_text(dir, e@)),
            TreeItem::Named(_) => rest,
        }
    }
}

/// The warnings a supplied listing of `dir` brings.
pub open spec fn listing_warnings(dir: Seq<char>, listing: Result<Vec<TreeItem>, String>) -> Seq<Seq<char>> {
    match listing {
        Ok(v) => entry_errors(dir, v@),
        Err(e) => seq![read_dir_error_text(dir, e@)],
    }
}

/// The root as an entry: named by its path.
pub open spec fn root_entry(path: PathText, meta: EntryMeta) -> EntryView {
    EntryView { name: (path.display@, path.bytes@), path: (path.display@, path.bytes@), meta: Ok(meta) }
}

/// `n` is the node of the entry `e` whose record `m` is visit `i` of `after`, not
/// opened as a directory: a leaf with what the visit counts for.
pub open spec fn leaf_node(n: TreeNode, e: EntryView, m: EntryMeta, after: Seq<EntryMeta>, i: int) -> bool {
    &&& n.name@ == e.name.0
    &&& n.name_bytes_hex@ == hex_of(e.name.1)
    &&& n.kind == kind_of_mode(m.mode)
    &&& n.total_bytes == contribution(after, i, false)
    &&& n.apparent_bytes == contribution(after, i, true)
    &&& n.entries_seen is None
    &&& n.children is None
}

/// `n` is the node of the open directory `top` closed after `visits`: its totals
/// are the capped sums of the visits from its own to the last, its entry count is
/// theirs, and it reports `kept` as its children.
pub open spec fn dir_node(n: TreeNode, top: TreeFrameView, kept: Option<Seq<TreeNode>>, visits: Seq<EntryMeta>) -> bool {
    &&& n.name@ == top.name.0
    &&& n.name_bytes_hex@ == top.name.1
    &&& n.kind == FileKind::Directory
    &&& n.total_bytes == capped_sum(visits, top.start, visits.len() as int, false)
    &&& n.apparent_bytes == capped_sum(visits, top.start, visits.len() as int, true)
    &&& n.entries_seen == Some(cap(visits.len() - top.start))
    &&& match (n.children, kept) {
        (Some(c), Some(k)) => c@ == k,
        (None, None) => true,
        _ => false,
    }
}

/// A list of reported children with one more, if children are reported.
pub open spec fn with_child(kept: Option<Seq<TreeNode>>, n: TreeNode) -> Option<Seq<TreeNode>> {
    match kept {
        Some(c) => Some(c.push(n)),
        None => None,
    }
}

/// How one step changes the children reported so far by each open directory
/// (`k0` to `k1`) and the finished root (`root1`): a directory opened at a depth
/// that is reported starts an empty list; an entry visited and not opened joins
/// its directory's list as a leaf; a closed directory joins its parent's list, or
/// becomes the root.
pub open spec fn kept_after_step(
    k0: Seq<Option<Seq<TreeNode>>>,
    k1: Seq<Option<Seq<TreeNode>>>,
    root1: Option<TreeNode>,
    course: Seq<TreeFrameView>,
    visits: Seq<EntryMeta>,
    options: TreeOptions,
    root_device: u64,
) -> bool {
    let top = course.last();
    let n = course.len();
    match top.items {
        None => k1 == k0 && root1 is None,
        Some(items) => if 0 <= top.next < items.len() {
            let e = items[top.next];
            &&& root1 is None
            &&& match e.meta {
                Ok(m) => if crate::disk::stays_on(options.one_filesystem, root_device, m) {
                    if m.spec_is_dir() && !dir_keys(visits).contains(m.spec_key()) {
                        k1 == k0.push(
                            if reports_children(options, n as u64) {
                                Some(Seq::<TreeNode>::empty())
                            } else {
                                None
                            },
                        )
                    } else {
                        exists|node: TreeNode|
                            #![trigger leaf_node(node, e, m, visits.push(m), visits.len() as int)]
                            leaf_node(node, e, m, visits.push(m), visits.len() as int) && k1 == k0.update(
                                n - 1,
                                with_child(k0[n - 1], node),
                            )
                    }
                } else {
                    k1 == k0
                },
                Err(_) => k1 == k0,
            }
        } else if n == 1 {
            k1.len() == 0 && (root1 matches Some(node) && dir_node(node, top, k0[0], visits))
        } else {
            &&& root1 is None
            &&& exists|node: TreeNode|
                #![trigger dir_node(node, top, k0[n - 1], visits)]
                dir_node(node, top, k0[n - 1], visits) && k1 == k0.take(n - 1).update(
                    n - 2,
                    with_child(k0[n - 2], node),
                )
        },
    }
}

spec fn tree_frame_view(f: TreeFrame) -> TreeFrameView {
    TreeFrameView {
        path: (f.path.display@, f.path.bytes@),
        items: match f.items {
            Some(v) => Some(entry_views(v@)),
            None => None,
        },
        next: f.next as int,
        name: (f.node.name@, f.node.name_bytes_hex@),
        start: f.start@,
    }
}

spec fn tree_frames_kept(fr: Seq<TreeFrame>) -> Seq<Option<Seq<TreeNode>>> {
    fr.map_values(
        |f: TreeFrame|
            match f.children {
                Some(v) => Some(v@),
                None => None,
            },
    )
}

spec fn tree_frames_view(fr: Seq<TreeFrame>) -> Seq<TreeFrameView> {
    fr.map_values(|f: TreeFrame| tree_frame_view(f))
}

proof fn lemma_tree_course_advance(fr: Seq<TreeFrame>, f: TreeFrame)
    requires
        fr.len() > 0,
        f.path == fr.last().path,
        f.items == fr.last().items,
        f.next == fr.last().next + 1,
        f.node.name == fr.last().node.name,
        f.node.name_bytes_hex == fr.last().node.name_bytes_hex,
        f.start == fr.last().start,
    ensures
        tree_frames_view(fr.take(fr.len() - 1).push(f)) == tree_frames_view(fr).update(
            fr.len() - 1,
            TreeFrameView {
                path: tree_frames_view(fr).last().path,
                items: tree_frames_view(fr).last().items,
                next: tree_frames_view(fr).last().next + 1,
                name: tree_frames_view(fr).last().name,
                start: tree_frames_view(fr).last().start,
            },
        ),
{
    assert(tree_frames_view(fr.take(fr.len() - 1).push(f)) =~= tree_frames_view(fr).update(
        fr.len() - 1,
        TreeFrameView {
            path: tree_frames_view(fr).last().path,
            items: tree_frames_view(fr).last().items,
            next: tree_frames_view(fr).last().next + 1,
            name: tree_frames_view(fr).last().name,
            start: tree_frames_view(fr).last().start,
        },
    ));
}

/// A directory whose node is being built.
struct TreeFrame {
    path: PathText,
    node: TreeNode,
    depth: u64,
    children: Option<Vec<TreeNode>>,
    subtree: u64,
    items: Option<Vec<NamedEntry>>,
    next: usize,
    start: Ghost<int>,
}

/// An `fs tree` walk in progress.
pub struct TreeWalk {
    options: TreeOptions,
    root_device: u64,
    seen_inodes: HashSet<u128>,
    visited_directories: HashSet<u128>,
    entries_seen: u64,
    max_depth_reached: u64,
    skipped_different_filesystem: u64,
    warnings: Vec<String>,
    frames: Vec<TreeFrame>,
    root: Option<TreeNode>,
    log: Ghost<Seq<EntryMeta>>,
}

enum Built {
    Leaf(TreeNode),
    Directory(TreeFrame),
}

spec fn tfend(fr: Seq<TreeFrame>, log_len: int, i: int) -> int {
    if i + 1 < fr.len() {
        fr[i + 1].start@
    } else {
        log_len
    }
}

spec fn tframe_ok(fr: Seq<TreeFrame>, log: Seq<EntryMeta>, options: TreeOptions, i: int) -> bool {
    &&& 0 <= fr[i].start@ < tfend(fr, log.len() as int, i)
    &&& tfend(fr, log.len() as int, i) <= log.len()
    &&& fr[i].node.total_bytes == capped_sum(log, fr[i].start@, tfend(fr, log.len() as int, i), false)
    &&& fr[i].node.apparent_bytes == capped_sum(log, fr[i].start@, tfend(fr, log.len() as int, i), true)
    &&& fr[i].subtree == cap(tfend(fr, log.len() as int, i) - fr[i].start@)
    &&& fr[i].depth == i
    &&& fr[i].node.kind == FileKind::Directory
    &&& (fr[i].children is Some) == reports_children(options, fr[i].depth)
    &&& (i + 1 < fr.len() ==> fr[i].items is Some)
    &&& (fr[i].items matches Some(v) ==> fr[i].next <= v@.len())
}

spec fn tframes_ok(fr: Seq<TreeFrame>, log: Seq<EntryMeta>, options: TreeOptions) -> bool {
    &&& (fr.len() > 0 ==> fr[0].start@ == 0)
    &&& forall|i: int| 0 <= i < fr.len() ==> #[trigger] tframe_ok(fr, log, options, i)
}

proof fn lemma_tframes_log_push(fr: Seq<TreeFrame>, log: Seq<EntryMeta>, options: TreeOptions, m: EntryMeta, i: int)
    requires
        0 <= i < fr.len() - 1,
        tframe_ok(fr, log, options, i),
    ensures
        tframe_ok(fr, log.push(m), options, i),
{
    let e = tfend(fr, log.len() as int, i);
    assert(tfend(fr, (log.len() + 1) as int, i) == e);
    lemma_sum_stable(log, m, fr[i].start@, e, false);
    lemma_sum_stable(log, m, fr[i].start@, e, true);
}

proof fn lemma_tframes_replace_top(fr: Seq<TreeFrame>, f: TreeFrame, log: Seq<EntryMeta>, options: TreeOptions, i: int)
    requires
        fr.len() > 0,
        0 <= i < fr.len() - 1,
        tframe_ok(fr, log, options, i),
        f.start@ == fr[fr.len() - 1].start@,
    ensures
        tframe_ok(fr.take(fr.len() - 1).push(f), log, options, i),
{
    let g = fr.take(fr.len() - 1).push(f);
    assert(g[i] == fr[i]);
    if i + 1 < fr.len() - 1 {
        assert(g[i + 1] == fr[i + 1]);
    }
    assert(tfend(g, log.len() as int, i) == tfend(fr, log.len() as int, i));
}

/// A directory reached a second time is skipped: the step records one more
/// visit, opens no directory (the walk does not descend into it again), records
/// exactly one warning that names it as already visited, and reports it, where
/// its directory reports children, as a leaf that adds no bytes and has no
/// children and no entry count.
pub proof fn law_tree_revisit_skipped(
    k0: Seq<Option<Seq<TreeNode>>>,
    k1: Seq<Option<Seq<TreeNode>>>,
    root1: Option<TreeNode>,
    course: Seq<TreeFrameView>,
    visits: Seq<EntryMeta>,
    options: TreeOptions,
    root_device: u64,
    e: EntryView,
    m: EntryMeta,
)
    requires
        course.len() > 0,
        k0.len() == course.len(),
        tree_pending(course) == Some(e),
        e.meta == Ok::<EntryMeta, Seq<char>>(m),
        crate::disk::stays_on(options.one_filesystem, root_device, m),
        m.spec_is_dir(),
        dir_keys(visits).contains(m.spec_key()),
        kept_after_step(k0, k1, root1, course, visits, options, root_device),
    ensures
        tree_after_step(course, visits, options.one_filesystem, root_device).1 == visits.push(m),
        tree_after_step(course, visits, options.one_filesystem, root_device).0.len() == course.len(),
        tree_step_warnings(course, visits, options.one_filesystem, root_device) == seq![revisit_text(e.path.0)],
        root1 is None,
        k1.len() == k0.len(),
        forall|i: int| 0 <= i < k0.len() - 1 ==> k1[i] == k0[i],
        k0.last() is None ==> k1.last() is None,
        k0.last() matches Some(c) ==> exists|node: TreeNode|
            k1.last() == Some(c.push(node)) && node.total_bytes == 0 && node.apparent_bytes == 0
                && node.children is None && node.entries_seen is None && node.name@ == e.name.0,
{
    lemma_counted_last(visits, m);
    let n = course.len() as int;
    let node = choose|node: TreeNode|
        leaf_node(node, e, m, visits.push(m), visits.len() as int) && k1 == k0.update(
            n - 1,
            with_child(k0[n - 1], node),
        );
    assert(k1[n - 1] == with_child(k0[n - 1], node));
    if let Some(c) = k0.last() {
        assert(k1.last() == Some(c.push(node)));
    }
}

/// Two tree walks are at the same point of one course: the same open
/// directories and entries, visits, warnings, skipped and deepest counts, root
/// device and filesystem setting. Their reporting depths may differ.
pub open spec fn tree_twins(a: TreeWalk, b: TreeWalk) -> bool {
    &&& a.course() == b.course()
    &&& a.visits() == b.visits()
    &&& a.warnings() == b.warnings()
    &&& a.skipped() == b.skipped()
    &&& a.deepest() == b.deepest()
    &&& a.root_device() == b.root_device()
    &&& a.spec_options().one_filesystem == b.spec_options().one_filesystem
    &&& a.finished() == b.finished()
}

/// The root lists its children exactly when the reporting depth is not 0: while
/// it is open, through the children it keeps; once closed, through its node.
pub open spec fn root_shape(w: TreeWalk) -> bool {
    &&& w.kept().len() > 0 ==> ((w.kept()[0] is Some) <==> (w.spec_options().max_depth != Some(0u64)))
    &&& match w.root_node() {
        Some(r) => (r.entries_seen is Some) ==> ((r.children is Some) <==> (w.spec_options().max_depth != Some(0u64))),
        None => true,
    }
}

/// Two walks started on one root entry, as [`TreeWalk::start`] leaves them.
pub open spec fn tree_started(w: TreeWalk, path: PathText, meta: EntryMeta) -> bool {
    &&& w.visits() == seq![meta]
    &&& w.finished() == !meta.spec_is_dir()
    &&& w.root_device() == meta.dev
    &&& w.kept() == if meta.spec_is_dir() {
        seq![
            if reports_children(w.spec_options(), 0) {
                Some(Seq::<TreeNode>::empty())
            } else {
                None
            },
        ]
    } else {
        Seq::empty()
    }
    &&& (meta.spec_is_dir() ==> w.root_node() is None)
    &&& (!meta.spec_is_dir() ==> exists|node: TreeNode|
        #![trigger leaf_node(node, root_entry(path, meta), meta, seq![meta], 0)]
        w.root_node() == Some(node) && leaf_node(node, root_entry(path, meta), meta, seq![meta], 0))
    &&& w.warnings().len() == 0
    &&& w.skipped() == 0
    &&& w.deepest() == 0
    &&& w.course() == if meta.spec_is_dir() {
        seq![
            TreeFrameView {
                path: (path.display@, path.bytes@),
                items: None,
                next: 0,
                name: (path.display@, hex_of(path.bytes@)),
                start: 0,
            },
        ]
    } else {
        Seq::empty()
    }
}

/// What one call of [`TreeWalk::step`] states of the walk before (`w0`) and after
/// (`w1`) it.
pub open spec fn tree_stepped(w0: TreeWalk, w1: TreeWalk) -> bool {
    &&& w1.spec_options() == w0.spec_options()
    &&& w1.root_device() == w0.root_device()
    &&& (w0.finished() ==> w1 == w0)
    &&& (!w0.finished() ==> {
        let one = w0.spec_options().one_filesystem;
        &&& w1.course() =~~= tree_after_step(w0.course(), w0.visits(), one, w0.root_device()).0
        &&& w1.visits() =~~= tree_after_step(w0.course(), w0.visits(), one, w0.root_device()).1
        &&& kept_after_step(
            w0.kept(),
            w1.kept(),
            w1.root_node(),
            w0.course(),
            w0.visits(),
            w0.spec_options(),
            w0.root_device(),
        )
        &&& w1.warnings() =~~= w0.warnings() + tree_step_warnings(w0.course(), w0.visits(), one, w0.root_device())
        &&& w1.skipped() == tree_step_skipped(w0.skipped(), w0.course(), one, w0.root_device())
        &&& w1.deepest() == tree_step_deepest(w0.deepest(), w0.course(), one, w0.root_device())
    })
}

/// What one call of [`TreeWalk::supply_listing`] with `listing` states of the walk
/// before (`w0`) and after (`w1`) it.
pub open spec fn tree_supplied(w0: TreeWalk, w1: TreeWalk, listing: Result<Vec<TreeItem>, String>) -> bool {
    &&& w1.spec_options() == w0.spec_options()
    &&& w1.visits() =~~= w0.visits()
    &&& !w1.finished()
    &&& w1.root_device() == w0.root_device()
    &&& w1.warnings() =~~= w0.warnings() + listing_warnings(w0.pending().0, listing)
    &&& w1.skipped() == w0.skipped()
    &&& w1.deepest() == w0.deepest()
    &&& w1.kept() =~~= w0.kept()
    &&& w1.root_node() == w0.root_node()
    &&& supplied_course(w0.course(), listing, w1.course())
}

/// The course of a walk tells whether it is over, whether it waits for a
/// listing and of which directory, and how many directories keep children.
proof fn lemma_course_tells(w: TreeWalk)
    ensures
        w.finished() <==> w.course().len() == 0,
        w.kept().len() == w.course().len(),
        w.awaiting_listing() <==> (w.course().len() > 0 && w.course().last().items is None),
        w.course().len() > 0 ==> w.pending() == w.course().last().path,
{
    let fr = w.frames@;
    if fr.len() > 0 {
        assert(w.course().last() == tree_frame_view(fr.last()));
    }
}

/// Two walks started on the same root entry are twins, whatever depths they
/// report to, and each root lists its children exactly when its depth is not 0.
pub proof fn law_tree_start_twins(a: TreeWalk, b: TreeWalk, path: PathText, meta: EntryMeta)
    requires
        tree_started(a, path, meta),
        tree_started(b, path, meta),
        a.spec_options().one_filesystem == b.spec_options().one_filesystem,
    ensures
        tree_twins(a, b),
        root_shape(a),
        root_shape(b),
{
    assert(a.warnings() =~= b.warnings());
}

/// A step keeps each root's shape.
proof fn lemma_step_keeps_root_shape(w0: TreeWalk, w1: TreeWalk)
    requires
        root_shape(w0),
        tree_stepped(w0, w1),
    ensures
        root_shape(w1),
{
    lemma_course_tells(w0);
    lemma_course_tells(w1);
    if !w0.finished() {
        let course = w0.course();
        let k0 = w0.kept();
        let k1 = w1.kept();
        let top = course.last();
        let n = course.len() as int;
        if let Some(items) = top.items {
            if 0 <= top.next < items.len() {
                let e = items[top.next];
                if let Ok(m) = e.meta {
                    if crate::disk::stays_on(w0.spec_options().one_filesystem, w0.root_device(), m) {
                        if m.spec_is_dir() && !dir_keys(w0.visits()).contains(m.spec_key()) {
                            assert(k1[0] == k0[0]);
                        } else {
                            let node = choose|node: TreeNode|
                                #![trigger leaf_node(node, e, m, w0.visits().push(m), w0.visits().len() as int)]
                                leaf_node(node, e, m, w0.visits().push(m), w0.visits().len() as int) && k1 == k0.update(
                                    n - 1,
                                    with_child(k0[n - 1], node),
                                );
                            assert((k1[0] is Some) <==> (k0[0] is Some));
                        }
                    }
                }
            } else if n == 1 {
            } else {
                let node = choose|node: TreeNode|
                    #![trigger dir_node(node, top, k0[n - 1], w0.visits())]
                    dir_node(node, top, k0[n - 1], w0.visits()) && k1 == k0.take(n - 1).update(
                        n - 2,
                        with_child(k0[n - 2], node),
                    );
                assert((k1[0] is Some) <==> (k0[0] is Some));
            }
        }
    }
}

/// One step keeps twins twins, whatever depths they report to: the reporting
/// depth never steers a tree walk, nor its warnings and counts.
pub proof fn law_tree_step_twins(a0: TreeWalk, a1: TreeWalk, b0: TreeWalk, b1: TreeWalk)
    requires
        tree_twins(a0, b0),
        root_shape(a0),
        root_shape(b0),
        tree_stepped(a0, a1),
        tree_stepped(b0, b1),
    ensures
        tree_twins(a1, b1),
        root_shape(a1),
        root_shape(b1),
{
    lemma_course_tells(a1);
    lemma_course_tells(b1);
    lemma_step_keeps_root_shape(a0, a1);
    lemma_step_keeps_root_shape(b0, b1);
}

/// Giving twins the same listing keeps them twins.
pub proof fn law_tree_supply_twins(
    a0: TreeWalk,
    a1: TreeWalk,
    b0: TreeWalk,
    b1: TreeWalk,
    listing: Result<Vec<TreeItem>, String>,
)
    requires
        tree_twins(a0, b0),
        root_shape(a0),
        root_shape(b0),
        a0.awaiting_listing(),
        tree_supplied(a0, a1, listing),
        tree_supplied(b0, b1, listing),
    ensures
        tree_twins(a1, b1),
        root_shape(a1),
        root_shape(b1),
{
    lemma_course_tells(a0);
    lemma_course_tells(b0);
    lemma_course_tells(a1);
    lemma_course_tells(b1);
    law_same_listing_same_course(a0.course(), listing, a1.course(), b1.course());
}

/// Finished twins report the same tree apart from the depth: the same visits
/// (so the same root totals and entry count), warnings, skipped count and deepest
/// level; a directory root lists its children exactly when its depth is not 0.
pub proof fn law_tree_finish_twins(a: TreeWalk, b: TreeWalk)
    requires
        tree_twins(a, b),
        root_shape(a),
        root_shape(b),
        a.finished(),
    ensures
        capped_sum(a.visits(), 0, a.visits().len() as int, false) == capped_sum(b.visits(), 0, b.visits().len() as int, false),
        capped_sum(a.visits(), 0, a.visits().len() as int, true) == capped_sum(b.visits(), 0, b.visits().len() as int, true),
        a.visits().len() == b.visits().len(),
        a.warnings() == b.warnings(),
        a.skipped() == b.skipped(),
        a.deepest() == b.deepest(),
        match a.root_node() {
            Some(r) => (r.entries_seen is Some) ==> ((r.children is Some) <==> (a.spec_options().max_depth != Some(0u64))),
            None => true,
        },
        match b.root_node() {
            Some(r) => (r.entries_seen is Some) ==> ((r.children is Some) <==> (b.spec_options().max_depth != Some(0u64))),
            None => true,
        },
{
}

/// The saturating sum of the totals (or apparent sizes) of `c`.
pub open spec fn node_sum(c: Seq<TreeNode>, apparent: bool) -> u64
    decreases c.len(),
{
    if c.len() == 0 {
        0
    } else {
        sat_add(node_sum(c.drop_last(), apparent), if apparent {
            c.last().apparent_bytes
        } else {
            c.last().total_bytes
        })
    }
}

/// The saturating count of the entries of `c`'s subtrees: a directory node's
/// own count, 1 for a leaf.
pub open spec fn node_entries(c: Seq<TreeNode>) -> u64
    decreases c.len(),
{
    if c.len() == 0 {
        0
    } else {
        sat_add(node_entries(c.drop_last()), match c.last().entries_seen {
            Some(k) => k,
            None => 1,
        })
    }
}

/// Where the visits of open directory `i` end so far: at the next open
/// directory's own visit, or at the end for the innermost one.
pub open spec fn visits_end(course: Seq<TreeFrameView>, len: int, i: int) -> int {
    if i + 1 < course.len() {
        course[i + 1].start
    } else {
        len
    }
}

/// The children open directory `i` keeps account for the visits after its own:
/// their totals, apparent sizes and entry counts add up to those visits'.
pub open spec fn account_at(
    course: Seq<TreeFrameView>,
    kept: Seq<Option<Seq<TreeNode>>>,
    visits: Seq<EntryMeta>,
    i: int,
) -> bool {
    let lo = course[i].start + 1;
    let hi = visits_end(course, visits.len() as int, i);
    &&& 0 <= course[i].start < hi <= visits.len()
    &&& course[i].next >= 0
    &&& counted(visits, course[i].start)
    &&& match kept[i] {
        Some(c) => {
            &&& node_sum(c, false) == capped_sum(visits, lo, hi, false)
            &&& node_sum(c, true) == capped_sum(visits, lo, hi, true)
            &&& node_entries(c) == cap(hi - lo)
        },
        None => true,
    }
}

/// Every open directory's kept children account for the visits after its own.
pub open spec fn children_account(
    course: Seq<TreeFrameView>,
    kept: Seq<Option<Seq<TreeNode>>>,
    visits: Seq<EntryMeta>,
) -> bool {
    &&& kept.len() == course.len()
    &&& forall|i: int| 0 <= i < course.len() ==> #[trigger] account_at(course, kept, visits, i)
}

/// Appending a node extends the sums of a list by that node's values.
proof fn lemma_node_sums_push(c: Seq<TreeNode>, n: TreeNode)
    ensures
        node_sum(c.push(n), false) == sat_add(node_sum(c, false), n.total_bytes),
        node_sum(c.push(n), true) == sat_add(node_sum(c, true), n.apparent_bytes),
        node_entries(c.push(n)) == sat_add(node_entries(c), match n.entries_seen {
            Some(k) => k,
            None => 1,
        }),
{
    assert(c.push(n).drop_last() =~= c);
}

/// The capped sum of `lo..hi + 1` adds visit `hi`'s contribution.
proof fn lemma_capped_extend(log: Seq<EntryMeta>, lo: int, hi: int, apparent: bool)
    requires
        lo <= hi,
    ensures
        capped_sum(log, lo, hi + 1, apparent) == sat_add(capped_sum(log, lo, hi, apparent), contribution(log, hi, apparent) as u64),
        0 <= contribution(log, hi, apparent) <= u64::MAX,
{
    lemma_sum_one(log, hi, apparent);
    lemma_sum_nonneg(log, lo, hi, apparent);
    lemma_sat_add_cap(visit_sum(log, lo, hi, apparent), contribution(log, hi, apparent));
}

/// The capped sum of `lo..hi` from those of `lo..mid` and `mid..hi`.
proof fn lemma_capped_split(log: Seq<EntryMeta>, lo: int, mid: int, hi: int, apparent: bool)
    requires
        lo <= mid <= hi,
    ensures
        capped_sum(log, lo, hi, apparent) == sat_add(capped_sum(log, lo, mid, apparent), capped_sum(log, mid, hi, apparent)),
{
    lemma_sum_split(log, lo, mid, hi, apparent);
    lemma_sum_nonneg(log, lo, mid, apparent);
    lemma_sum_nonneg(log, mid, hi, apparent);
    lemma_sat_add_cap(visit_sum(log, lo, mid, apparent), visit_sum(log, mid, hi, apparent));
}

/// Appending a visit leaves whether an earlier visit counts unchanged.
proof fn lemma_counted_stable(log: Seq<EntryMeta>, m: EntryMeta, i: int)
    requires
        0 <= i < log.len(),
    ensures
        counted(log.push(m), i) == counted(log, i),
{
    crate::visits::lemma_contribution_stable(log, m, i, false);
    let l2 = log.push(m);
    assert(l2[i] == log[i]);
    if crate::visits::seen_before(l2, i) {
        let j = choose|j: int|
            0 <= j < i && #[trigger] l2[j].spec_is_dir() == l2[i].spec_is_dir() && l2[j].spec_key() == l2[i].spec_key();
        assert(log[j] == l2[j]);
    }
    if crate::visits::seen_before(log, i) {
        let j = choose|j: int|
            0 <= j < i && #[trigger] log[j].spec_is_dir() == log[i].spec_is_dir() && log[j].spec_key() == log[i].spec_key();
        assert(log[j] == l2[j]);
    }
}

/// Open directories below the innermost one keep their account when a visit is
/// appended and the innermost one's visits end where they did.
proof fn lemma_account_keep(
    c0: Seq<TreeFrameView>,
    k0: Seq<Option<Seq<TreeNode>>>,
    v0: Seq<EntryMeta>,
    c1: Seq<TreeFrameView>,
    k1: Seq<Option<Seq<TreeNode>>>,
    v1: Seq<EntryMeta>,
    i: int,
)
    requires
        account_at(c0, k0, v0, i),
        0 <= i < c0.len(),
        i < c1.len(),
        c1[i] == c0[i] || (c1[i].start == c0[i].start && c1[i].next == c0[i].next + 1),
        k1[i] == k0[i],
        visits_end(c1, v1.len() as int, i) == visits_end(c0, v0.len() as int, i),
        v0.is_prefix_of(v1),
        v1.len() <= v0.len() + 1,
    ensures
        account_at(c1, k1, v1, i),
{
    let hi = visits_end(c0, v0.len() as int, i);
    let lo = c0[i].start + 1;
    if v1.len() == v0.len() + 1 {
        assert(v1 =~= v0.push(v1.last()));
        lemma_sum_stable(v0, v1.last(), lo, hi, false);
        lemma_sum_stable(v0, v1.last(), lo, hi, true);
        lemma_counted_stable(v0, v1.last(), c0[i].start);
    } else {
        assert(v1 =~= v0);
    }
}

/// A step of a walk keeps every open directory's account.
pub proof fn law_account_step(
    k0: Seq<Option<Seq<TreeNode>>>,
    k1: Seq<Option<Seq<TreeNode>>>,
    root1: Option<TreeNode>,
    course: Seq<TreeFrameView>,
    visits: Seq<EntryMeta>,
    options: TreeOptions,
    root_device: u64,
)
    requires
        course.len() > 0,
        children_account(course, k0, visits),
        kept_after_step(k0, k1, root1, course, visits, options, root_device),
    ensures
        children_account(
            tree_after_step(course, visits, options.one_filesystem, root_device).0,
            k1,
            tree_after_step(course, visits, options.one_filesystem, root_device).1,
        ),
{
    let (c1, v1) = tree_after_step(course, visits, options.one_filesystem, root_device);
    let top = course.last();
    let n = course.len() as int;
    let len = visits.len() as int;
    assert(account_at(course, k0, visits, n - 1));
    match top.items {
        None => {
            assert forall|i: int| 0 <= i < c1.len() implies #[trigger] account_at(c1, k1, v1, i) by {
                assert(account_at(course, k0, visits, i));
            }
        },
        Some(items) => {
            if top.next < items.len() {
                let e = items[top.next];
                let stays = match e.meta {
                    Ok(m) => crate::disk::stays_on(options.one_filesystem, root_device, m),
                    Err(_) => false,
                };
                if !stays {
                    assert forall|i: int| 0 <= i < c1.len() implies #[trigger] account_at(c1, k1, v1, i) by {
                        assert(account_at(course, k0, visits, i));
                        lemma_account_keep(course, k0, visits, c1, k1, v1, i);
                    }
                } else {
                    let m = e.meta->Ok_0;
                    assert(v1 == visits.push(m));
                    if m.spec_is_dir() && !dir_keys(visits).contains(m.spec_key()) {
                        assert forall|i: int| 0 <= i < c1.len() implies #[trigger] account_at(c1, k1, v1, i) by {
                            if i < n {
                                assert(account_at(course, k0, visits, i));
                                assert(k1[i] == k0[i]);
                                lemma_account_keep(course, k0, visits, c1, k1, v1, i);
                            } else {
                                assert(c1[i].start == len);
                                assert(visits_end(c1, v1.len() as int, i) == len + 1);
                                assert(capped_sum(v1, len + 1, len + 1, false) == 0);
                                assert(capped_sum(v1, len + 1, len + 1, true) == 0);
                            }
                        }
                    } else {
                        let node = choose|node: TreeNode|
                            #![trigger leaf_node(node, e, m, visits.push(m), visits.len() as int)]
                            leaf_node(node, e, m, visits.push(m), visits.len() as int) && k1 == k0.update(
                                n - 1,
                                with_child(k0[n - 1], node),
                            );
                        assert forall|i: int| 0 <= i < c1.len() implies #[trigger] account_at(c1, k1, v1, i) by {
                            assert(account_at(course, k0, visits, i));
                            if i < n - 1 {
                                lemma_account_keep(course, k0, visits, c1, k1, v1, i);
                            } else {
                                let lo = top.start + 1;
                                assert(visits_end(c1, v1.len() as int, i) == len + 1);
                                assert(visits_end(course, len, i) == len);
                                lemma_sum_stable(visits, m, lo, len, false);
                                lemma_sum_stable(visits, m, lo, len, true);
                                lemma_capped_extend(v1, lo, len, false);
                                lemma_capped_extend(v1, lo, len, true);
                                if let Some(c) = k0[n - 1] {
                                    lemma_node_sums_push(c, node);
                                    lemma_sat_add_cap(len - lo, 1);
                                }
                            }
                        }
                    }
                }
            } else if n == 1 {
            } else {
                let node = choose|node: TreeNode|
                    #![trigger dir_node(node, top, k0[n - 1], visits)]
                    dir_node(node, top, k0[n - 1], visits) && k1 == k0.take(n - 1).update(
                        n - 2,
                        with_child(k0[n - 2], node),
                    );
                assert forall|i: int| 0 <= i < c1.len() implies #[trigger] account_at(c1, k1, v1, i) by {
                    assert(account_at(course, k0, visits, i));
                    assert(c1[i] == course[i]);
                    if i < n - 2 {
                        assert(c1[i + 1] == course[i + 1]);
                        assert(k1[i] == k0[i]);
                    } else {
                        let lo = course[i].start + 1;
                        let s = top.start;
                        assert(visits_end(course, len, i) == s);
                        assert(visits_end(c1, len, i) == len);
                        lemma_capped_split(visits, lo, s, len, false);
                        lemma_capped_split(visits, lo, s, len, true);
                        if let Some(c) = k0[n - 2] {
                            lemma_node_sums_push(c, node);
                            lemma_sat_add_cap(s - lo, len - s);
                        }
                    }
                }
            }
        },
    }
}

/// A closed directory's node holds its own bytes plus its children's: when it
/// lists children, its totals and apparent size are its own visit's plus the
/// saturating sums of its children's, and its entry count is 1 plus theirs (a
/// leaf counting 1); its children are the ones it kept. Its own visit counts
/// its record's allocated and apparent bytes in full.
pub proof fn law_closed_directory_sums(
    k0: Seq<Option<Seq<TreeNode>>>,
    node: TreeNode,
    course: Seq<TreeFrameView>,
    visits: Seq<EntryMeta>,
)
    requires
        course.len() > 0,
        children_account(course, k0, visits),
        dir_node(node, course.last(), k0[course.len() - 1], visits),
    ensures
        match k0[course.len() - 1] {
            Some(c) => {
                &&& node.children matches Some(v) && v@ == c
                &&& node.total_bytes == sat_add(
                    contribution(visits, course.last().start, false) as u64,
                    node_sum(c, false),
                )
                &&& node.apparent_bytes == sat_add(
                    contribution(visits, course.last().start, true) as u64,
                    node_sum(c, true),
                )
                &&& node.entries_seen == Some(sat_add(1, node_entries(c)))
            },
            None => node.children is None,
        },
        contribution(visits, course.last().start, false) == visits[course.last().start].spec_allocated(),
        contribution(visits, course.last().start, true) == visits[course.last().start].len,
{
    let n = course.len() as int;
    let s = course.last().start;
    let len = visits.len() as int;
    assert(account_at(course, k0, visits, n - 1));
    lemma_capped_split(visits, s, s + 1, len, false);
    lemma_capped_split(visits, s, s + 1, len, true);
    lemma_sum_one(visits, s, false);
    lemma_sum_one(visits, s, true);
    lemma_sat_add_cap(1, len - s - 1);
}

/// Supplying a listing keeps every open directory's account.
pub proof fn law_account_supply(w0: TreeWalk, w1: TreeWalk, listing: Result<Vec<TreeItem>, String>)
    requires
        w0.awaiting_listing(),
        children_account(w0.course(), w0.kept(), w0.visits()),
        tree_supplied(w0, w1, listing),
    ensures
        children_account(w1.course(), w1.kept(), w1.visits()),
{
    lemma_course_tells(w0);
    let c0 = w0.course();
    let es = choose|es: Seq<NamedEntry>|
        #![trigger entry_views(es)]
        es.to_multiset() == listed_entries(listing).to_multiset() && crate::order::sorted_by_order(es) && w1.course()
            == c0.update(
            c0.len() - 1,
            TreeFrameView {
                path: c0.last().path,
                items: Some(entry_views(es)),
                next: 0,
                name: c0.last().name,
                start: c0.last().start,
            },
        );
    let c1 = w1.course();
    assert(w1.kept() == w0.kept());
    assert(w1.visits() == w0.visits());
    assert forall|i: int| 0 <= i < c1.len() implies #[trigger] account_at(c1, w1.kept(), w1.visits(), i) by {
        assert(account_at(c0, w0.kept(), w0.visits(), i));
        if i + 1 < c1.len() {
            assert(c1[i + 1].start == c0[i + 1].start);
        }
    }
}

/// A walk as [`TreeWalk::start`] leaves it keeps account of its root's children.
pub proof fn law_account_start(w: TreeWalk, path: PathText, meta: EntryMeta)
    requires
        tree_started(w, path, meta),
    ensures
        children_account(w.course(), w.kept(), w.visits()),
{
    if meta.spec_is_dir() {
        assert(account_at(w.course(), w.kept(), w.visits(), 0));
    }
}

/// The entries of a directory come in ascending byte order of their names.
pub open spec fn names_ascending(its: Seq<EntryView>) -> bool {
    forall|a: int, b: int| 0 <= a < b < its.len() ==> lex_le(#[trigger] its[a].name.1, #[trigger] its[b].name.1)
}

/// The nodes `c` are named after entries of `its` below index `lim`, in the
/// entries' order.
pub open spec fn from_entries(c: Seq<TreeNode>, its: Seq<EntryView>, lim: int) -> bool {
    exists|idx: Seq<int>|
        #![trigger idx.len()]
        idx.len() == c.len() && (forall|a: int, b: int| 0 <= a < b < idx.len() ==> #[trigger] idx[a] < #[trigger] idx[b])
            && (forall|j: int|
            0 <= j < idx.len() ==> 0 <= #[trigger] idx[j] < lim && c[j].name_bytes_hex@ == hex_of(its[idx[j]].name.1))
}

/// How far open directory `i` has handled its entries for its kept children:
/// the inner ones up to the entry of the directory opened below them.
pub open spec fn handled(course: Seq<TreeFrameView>, i: int) -> int {
    if i + 1 < course.len() {
        course[i].next - 1
    } else {
        course[i].next
    }
}

/// Open directory `i` lists its entries in name order, the directory open below
/// it is its last handled entry, and the children it keeps are named after its
/// handled entries, in their order.
pub open spec fn order_at(course: Seq<TreeFrameView>, kept: Seq<Option<Seq<TreeNode>>>, i: int) -> bool {
    &&& (course[i].items matches Some(its) ==> names_ascending(its) && course[i].next <= its.len())
    &&& (i + 1 < course.len() ==> (course[i].items matches Some(its) && 1 <= course[i].next <= its.len()
        && course[i + 1].name.1 == hex_of(its[course[i].next - 1].name.1)))
    &&& (kept[i] matches Some(c) ==> (c.len() == 0 || (course[i].items matches Some(its) && from_entries(
        c,
        its,
        handled(course, i),
    ))))
}

/// Every open directory keeps its children in name order.
pub open spec fn children_in_order(course: Seq<TreeFrameView>, kept: Seq<Option<Seq<TreeNode>>>) -> bool {
    &&& kept.len() == course.len()
    &&& forall|i: int| 0 <= i < course.len() ==> #[trigger] order_at(course, kept, i)
}

/// Named after entries below `lim`, named after entries below any larger limit.
proof fn lemma_from_entries_widen(c: Seq<TreeNode>, its: Seq<EntryView>, lim: int, lim2: int)
    requires
        from_entries(c, its, lim),
        lim <= lim2,
    ensures
        from_entries(c, its, lim2),
{
    let idx = choose|idx: Seq<int>|
        #![trigger idx.len()]
        idx.len() == c.len() && (forall|a: int, b: int| 0 <= a < b < idx.len() ==> #[trigger] idx[a] < #[trigger] idx[b])
            && (forall|j: int|
            0 <= j < idx.len() ==> 0 <= #[trigger] idx[j] < lim && c[j].name_bytes_hex@ == hex_of(its[idx[j]].name.1));
    assert(idx.len() == c.len());
}

/// Adding a node named after entry `at`, past the handled ones, keeps the order.
proof fn lemma_from_entries_push(c: Seq<TreeNode>, its: Seq<EntryView>, lim: int, at: int, n: TreeNode)
    requires
        c.len() == 0 || from_entries(c, its, lim),
        0 <= lim <= at,
        n.name_bytes_hex@ == hex_of(its[at].name.1),
    ensures
        from_entries(c.push(n), its, at + 1),
{
    let idx = if c.len() == 0 {
        Seq::<int>::empty()
    } else {
        choose|idx: Seq<int>|
            #![trigger idx.len()]
            idx.len() == c.len() && (forall|a: int, b: int| 0 <= a < b < idx.len() ==> #[trigger] idx[a] < #[trigger] idx[b])
                && (forall|j: int|
                0 <= j < idx.len() ==> 0 <= #[trigger] idx[j] < lim && c[j].name_bytes_hex@ == hex_of(its[idx[j]].name.1))
    };
    let idx2 = idx.push(at);
    assert forall|a: int, b: int| 0 <= a < b < idx2.len() implies #[trigger] idx2[a] < #[trigger] idx2[b] by {
        if b < idx.len() {
            assert(idx2[a] == idx[a] && idx2[b] == idx[b]);
        } else {
            assert(idx2[a] == idx[a]);
        }
    }
    assert forall|j: int| 0 <= j < idx2.len() implies 0 <= #[trigger] idx2[j] < at + 1 && c.push(n)[j].name_bytes_hex@
        == hex_of(its[idx2[j]].name.1) by {
        if j < idx.len() {
            assert(idx2[j] == idx[j]);
        }
    }
    assert(idx2.len() == c.push(n).len());
}

/// A step of a walk keeps every open directory's children in name order.
pub proof fn law_order_step(
    k0: Seq<Option<Seq<TreeNode>>>,
    k1: Seq<Option<Seq<TreeNode>>>,
    root1: Option<TreeNode>,
    course: Seq<TreeFrameView>,
    visits: Seq<EntryMeta>,
    options: TreeOptions,
    root_device: u64,
)
    requires
        course.len() > 0,
        children_account(course, k0, visits),
        children_in_order(course, k0),
        kept_after_step(k0, k1, root1, course, visits, options, root_device),
    ensures
        children_in_order(tree_after_step(course, visits, options.one_filesystem, root_device).0, k1),
{
    let (c1, v1) = tree_after_step(course, visits, options.one_filesystem, root_device);
    let top = course.last();
    let n = course.len() as int;
    assert(account_at(course, k0, visits, n - 1));
    assert(order_at(course, k0, n - 1));
    match top.items {
        None => {
            assert forall|i: int| 0 <= i < c1.len() implies #[trigger] order_at(c1, k1, i) by {
                assert(order_at(course, k0, i));
            }
        },
        Some(items) => {
            if top.next < items.len() {
                let e = items[top.next];
                let nx = top.next;
                let adv = TreeFrameView { path: top.path, items: top.items, next: nx + 1, name: top.name, start: top.start };
                let stays = match e.meta {
                    Ok(m) => crate::disk::stays_on(options.one_filesystem, root_device, m),
                    Err(_) => false,
                };
                let opened = match e.meta {
                    Ok(m) => stays && m.spec_is_dir() && !dir_keys(visits).contains(m.spec_key()),
                    Err(_) => false,
                };
                if !stays {
                    assert forall|i: int| 0 <= i < c1.len() implies #[trigger] order_at(c1, k1, i) by {
                        assert(order_at(course, k0, i));
                        if i == n - 1 {
                            assert(c1[i] == adv);
                            if let Some(c) = k0[i] {
                                if c.len() > 0 {
                                    lemma_from_entries_widen(c, items, nx, nx + 1);
                                }
                            }
                        } else {
                            assert(c1[i] == course[i] && c1[i + 1].name == course[i + 1].name);
                        }
                    }
                } else if opened {
                    let m = e.meta->Ok_0;
                    assert forall|i: int| 0 <= i < c1.len() implies #[trigger] order_at(c1, k1, i) by {
                        if i < n - 1 {
                            assert(order_at(course, k0, i));
                            assert(c1[i] == course[i] && c1[i + 1].name == course[i + 1].name && k1[i] == k0[i]);
                        } else if i == n - 1 {
                            assert(order_at(course, k0, i));
                            assert(c1[i] == adv && k1[i] == k0[i]);
                            assert(c1[i + 1].name.1 == hex_of(items[nx].name.1));
                        } else {
                            assert(c1[i].items is None);
                        }
                    }
                } else {
                    let m = e.meta->Ok_0;
                    let node = choose|node: TreeNode|
                        #![trigger leaf_node(node, e, m, visits.push(m), visits.len() as int)]
                        leaf_node(node, e, m, visits.push(m), visits.len() as int) && k1 == k0.update(
                            n - 1,
                            with_child(k0[n - 1], node),
                        );
                    assert forall|i: int| 0 <= i < c1.len() implies #[trigger] order_at(c1, k1, i) by {
                        assert(order_at(course, k0, i));
                        if i < n - 1 {
                            assert(c1[i] == course[i] && c1[i + 1].name == course[i + 1].name && k1[i] == k0[i]);
                        } else {
                            assert(c1[i] == adv);
                            if let Some(c) = k0[i] {
                                lemma_from_entries_push(c, items, nx, nx, node);
                            }
                        }
                    }
                }
            } else if n == 1 {
            } else {
                let node = choose|node: TreeNode|
                    #![trigger dir_node(node, top, k0[n - 1], visits)]
                    dir_node(node, top, k0[n - 1], visits) && k1 == k0.take(n - 1).update(
                        n - 2,
                        with_child(k0[n - 2], node),
                    );
                assert forall|i: int| 0 <= i < c1.len() implies #[trigger] order_at(c1, k1, i) by {
                    assert(order_at(course, k0, i));
                    assert(c1[i] == course[i]);
                    if i < n - 2 {
                        assert(c1[i + 1] == course[i + 1]);
                        assert(k1[i] == k0[i]);
                    } else {
                        let its = course[i].items->Some_0;
                        let nx = course[i].next;
                        if let Some(c) = k0[i] {
                            lemma_from_entries_push(c, its, nx - 1, nx - 1, node);
                        }
                    }
                }
            }
        },
    }
}

/// Supplying a listing keeps every open directory's children in name order.
pub proof fn law_order_supply(w0: TreeWalk, w1: TreeWalk, listing: Result<Vec<TreeItem>, String>)
    requires
        w0.awaiting_listing(),
        children_in_order(w0.course(), w0.kept()),
        tree_supplied(w0, w1, listing),
    ensures
        children_in_order(w1.course(), w1.kept()),
{
    lemma_course_tells(w0);
    let c0 = w0.course();
    let n = c0.len() as int;
    let es = choose|es: Seq<NamedEntry>|
        #![trigger entry_views(es)]
        es.to_multiset() == listed_entries(listing).to_multiset() && crate::order::sorted_by_order(es) && w1.course()
            == c0.update(
            c0.len() - 1,
            TreeFrameView {
                path: c0.last().path,
                items: Some(entry_views(es)),
                next: 0,
                name: c0.last().name,
                start: c0.last().start,
            },
        );
    let c1 = w1.course();
    let its = entry_views(es);
    assert(w1.kept() == w0.kept());
    assert forall|a: int, b: int| 0 <= a < b < its.len() implies lex_le(#[trigger] its[a].name.1, #[trigger] its[b].name.1) by {
        assert(es[a].ordered_le(&es[b]));
        assert(its[a] == entry_view(es[a]) && its[b] == entry_view(es[b]));
    }
    assert forall|i: int| 0 <= i < c1.len() implies #[trigger] order_at(c1, w1.kept(), i) by {
        assert(order_at(c0, w0.kept(), i));
        if i + 1 < n {
            assert(c1[i] == c0[i] && c1[i + 1].name == c0[i + 1].name);
        } else {
            assert(c0[i].items is None);
        }
    }
}

/// A walk as [`TreeWalk::start`] leaves it keeps its children in name order.
pub proof fn law_order_start(w: TreeWalk, path: PathText, meta: EntryMeta)
    requires
        tree_started(w, path, meta),
    ensures
        children_in_order(w.course(), w.kept()),
{
    if meta.spec_is_dir() {
        assert(order_at(w.course(), w.kept(), 0));
    }
}

/// A closed directory lists its children in ascending byte order of their
/// names: each child's name bytes, shown as hex, are `names[j]`, and the names
/// ascend.
pub proof fn law_closed_directory_order(
    k0: Seq<Option<Seq<TreeNode>>>,
    course: Seq<TreeFrameView>,
)
    requires
        course.len() > 0,
        children_in_order(course, k0),
    ensures
        k0[course.len() - 1] matches Some(c) ==> exists|names: Seq<Seq<u8>>|
            #![trigger names.len()]
            names.len() == c.len() && (forall|j: int| 0 <= j < c.len() ==> #[trigger] c[j].name_bytes_hex@ == hex_of(names[j]))
                && (forall|a: int, b: int| 0 <= a < b < c.len() ==> lex_le(#[trigger] names[a], #[trigger] names[b])),
{
    let n = course.len() as int;
    assert(order_at(course, k0, n - 1));
    if let Some(c) = k0[n - 1] {
        if c.len() == 0 {
            let names = Seq::<Seq<u8>>::empty();
            assert(names.len() == c.len());
        } else {
            let its = course[n - 1].items->Some_0;
            let lim = handled(course, n - 1);
            let idx = choose|idx: Seq<int>|
                #![trigger idx.len()]
                idx.len() == c.len() && (forall|a: int, b: int| 0 <= a < b < idx.len() ==> #[trigger] idx[a] < #[trigger] idx[b])
                    && (forall|j: int|
                    0 <= j < idx.len() ==> 0 <= #[trigger] idx[j] < lim && c[j].name_bytes_hex@ == hex_of(its[idx[j]].name.1));
            let names = Seq::new(c.len(), |j: int| its[idx[j]].name.1);
            assert forall|a: int, b: int| 0 <= a < b < c.len() implies lex_le(#[trigger] names[a], #[trigger] names[b]) by {
                assert(0 <= idx[a] < idx[b] < lim);
                assert(lex_le(its[idx[a]].name.1, its[idx[b]].name.1));
            }
            assert(names.len() == c.len());
        }
    }
}

/// Each open directory keeps children exactly when its depth is reported: the
/// directory at depth `i` (the root at 0) lists children when
/// [`reports_children`] holds of `i`.
pub open spec fn kept_by_depth(kept: Seq<Option<Seq<TreeNode>>>, options: TreeOptions) -> bool {
    forall|i: int| 0 <= i < kept.len() ==> ((#[trigger] kept[i] is Some) <==> reports_children(options, i as u64))
}

/// A step of a walk keeps children exactly at the reported depths; a directory
/// it closes lists children exactly when its depth is reported.
pub proof fn law_depth_step(
    k0: Seq<Option<Seq<TreeNode>>>,
    k1: Seq<Option<Seq<TreeNode>>>,
    root1: Option<TreeNode>,
    course: Seq<TreeFrameView>,
    visits: Seq<EntryMeta>,
    options: TreeOptions,
    root_device: u64,
)
    requires
        course.len() > 0,
        k0.len() == course.len(),
        kept_by_depth(k0, options),
        kept_after_step(k0, k1, root1, course, visits, options, root_device),
    ensures
        kept_by_depth(k1, options),
        forall|node: TreeNode| dir_node(node, course.last(), k0[course.len() - 1], visits) ==> ((node.children is Some)
            <==> reports_children(options, (course.len() - 1) as u64)),
{
    let top = course.last();
    let n = course.len() as int;
    assert(k0[n - 1] is Some <==> reports_children(options, (n - 1) as u64));
    match top.items {
        None => {},
        Some(items) => {
            if 0 <= top.next < items.len() {
                let e = items[top.next];
                if let Ok(m) = e.meta {
                    if crate::disk::stays_on(options.one_filesystem, root_device, m) {
                        if m.spec_is_dir() && !dir_keys(visits).contains(m.spec_key()) {
                            assert forall|i: int| 0 <= i < k1.len() implies ((#[trigger] k1[i] is Some) <==> reports_children(options, i as u64)) by {
                                if i < n {
                                    assert(k1[i] == k0[i]);
                                }
                            }
                        } else {
                            let node = choose|node: TreeNode|
                                #![trigger leaf_node(node, e, m, visits.push(m), visits.len() as int)]
                                leaf_node(node, e, m, visits.push(m), visits.len() as int) && k1 == k0.update(
                                    n - 1,
                                    with_child(k0[n - 1], node),
                                );
                            assert forall|i: int| 0 <= i < k1.len() implies ((#[trigger] k1[i] is Some) <==> reports_children(options, i as u64)) by {
                                assert(k0[i] is Some <==> reports_children(options, i as u64));
                            }
                        }
                    }
                }
            } else if n == 1 {
            } else {
                let node = choose|node: TreeNode|
                    #![trigger dir_node(node, top, k0[n - 1], visits)]
                    dir_node(node, top, k0[n - 1], visits) && k1 == k0.take(n - 1).update(
                        n - 2,
                        with_child(k0[n - 2], node),
                    );
                assert forall|i: int| 0 <= i < k1.len() implies ((#[trigger] k1[i] is Some) <==> reports_children(options, i as u64)) by {
                    assert(k0[i] is Some <==> reports_children(options, i as u64));
                }
            }
        },
    }
}

/// A walk as [`TreeWalk::start`] leaves it keeps children exactly at the
/// reported depths.
pub proof fn law_depth_start(w: TreeWalk, path: PathText, meta: EntryMeta)
    requires
        tree_started(w, path, meta),
    ensures
        kept_by_depth(w.kept(), w.spec_options()),
{
}

/// One call on a tree walk: `supply_listing` with `listing` when `supply`,
/// otherwise `step`.
pub open spec fn tree_call(w0: TreeWalk, w1: TreeWalk, supply: bool, listing: Result<Vec<TreeItem>, String>) -> bool {
    if supply {
        w0.awaiting_listing() && tree_supplied(w0, w1, listing)
    } else {
        tree_stepped(w0, w1)
    }
}

/// A tree walk from its start on `path` (with record `meta`) through the calls
/// `supplies` and `listings` describe: `ws[k + 1]` is `ws[k]` after call `k`.
pub open spec fn tree_run(
    ws: Seq<TreeWalk>,
    supplies: Seq<bool>,
    listings: Seq<Result<Vec<TreeItem>, String>>,
    path: PathText,
    meta: EntryMeta,
) -> bool {
    &&& ws.len() >= 1
    &&& supplies.len() == ws.len() - 1
    &&& listings.len() == ws.len() - 1
    &&& tree_started(ws[0], path, meta)
    &&& forall|k: int| 0 <= k < ws.len() - 1 ==> #[trigger] tree_call(ws[k], ws[k + 1], supplies[k], listings[k])
}

/// What holds at every point of a tree walk: open directories account for their
/// visits, keep their children in name order, and keep children exactly at the
/// reported depths.
pub open spec fn tree_walk_ok(w: TreeWalk) -> bool {
    &&& children_account(w.course(), w.kept(), w.visits())
    &&& children_in_order(w.course(), w.kept())
    &&& kept_by_depth(w.kept(), w.spec_options())
}

/// One call keeps what holds at every point of a walk.
proof fn lemma_call_keeps_ok(w0: TreeWalk, w1: TreeWalk, supply: bool, listing: Result<Vec<TreeItem>, String>)
    requires
        tree_walk_ok(w0),
        tree_call(w0, w1, supply, listing),
    ensures
        tree_walk_ok(w1),
{
    lemma_course_tells(w0);
    lemma_course_tells(w1);
    if supply {
        law_account_supply(w0, w1, listing);
        law_order_supply(w0, w1, listing);
    } else if !w0.finished() {
        let one = w0.spec_options().one_filesystem;
        law_account_step(w0.kept(), w1.kept(), w1.root_node(), w0.course(), w0.visits(), w0.spec_options(), w0.root_device());
        law_order_step(w0.kept(), w1.kept(), w1.root_node(), w0.course(), w0.visits(), w0.spec_options(), w0.root_device());
        law_depth_step(w0.kept(), w1.kept(), w1.root_node(), w0.course(), w0.visits(), w0.spec_options(), w0.root_device());
        assert(w1.course() == tree_after_step(w0.course(), w0.visits(), one, w0.root_device()).0);
        assert(w1.visits() == tree_after_step(w0.course(), w0.visits(), one, w0.root_device()).1);
    }
}

proof fn lemma_run_ok_at(
    ws: Seq<TreeWalk>,
    supplies: Seq<bool>,
    listings: Seq<Result<Vec<TreeItem>, String>>,
    path: PathText,
    meta: EntryMeta,
    k: int,
)
    requires
        tree_run(ws, supplies, listings, path, meta),
        0 <= k < ws.len(),
    ensures
        tree_walk_ok(ws[k]),
    decreases k,
{
    if k == 0 {
        law_account_start(ws[0], path, meta);
        law_order_start(ws[0], path, meta);
        law_depth_start(ws[0], path, meta);
    } else {
        lemma_run_ok_at(ws, supplies, listings, path, meta, k - 1);
        let j = k - 1;
        assert(tree_call(ws[j], ws[j + 1], supplies[j], listings[j]));
        assert(ws[j + 1] == ws[k]);
        lemma_call_keeps_ok(ws[k - 1], ws[k], supplies[k - 1], listings[k - 1]);
    }
}

/// Every directory node a tree walk builds, at any call of any run: when the
/// call closes a directory at depth `n - 1`, its node has the totals and
/// apparent size of its own record plus the saturating sums of its children's,
/// an entry count of 1 plus theirs (a leaf counting 1), children exactly when
/// that depth is reported, in ascending byte order of their names; the node is
/// the root's, or joins its parent's children when the parent lists them.
pub proof fn law_run_directory_nodes(
    ws: Seq<TreeWalk>,
    supplies: Seq<bool>,
    listings: Seq<Result<Vec<TreeItem>, String>>,
    path: PathText,
    meta: EntryMeta,
    k: int,
)
    requires
        tree_run(ws, supplies, listings, path, meta),
        0 <= k < ws.len() - 1,
        !supplies[k],
        !ws[k].finished(),
        ws[k].course().last().items matches Some(its) && ws[k].course().last().next >= its.len(),
    ensures
        ({
            let w0 = ws[k];
            let w1 = ws[k + 1];
            let n = w0.course().len() as int;
            let top = w0.course().last();
            let rec = w0.visits()[top.start];
            exists|node: TreeNode|
                #![trigger dir_node(node, top, w0.kept()[n - 1], w0.visits())]
                dir_node(node, top, w0.kept()[n - 1], w0.visits())
                && (n == 1 ==> w1.root_node() == Some(node))
                && (n >= 2 ==> w1.kept()[n - 2] == with_child(w0.kept()[n - 2], node))
                && ((node.children is Some) <==> reports_children(w0.spec_options(), (n - 1) as u64))
                && match node.children {
                    Some(cv) => {
                        let c = cv@;
                        &&& node.total_bytes == sat_add(rec.spec_allocated(), node_sum(c, false))
                        &&& node.apparent_bytes == sat_add(rec.len, node_sum(c, true))
                        &&& node.entries_seen == Some(sat_add(1, node_entries(c)))
                        &&& exists|names: Seq<Seq<u8>>|
                            #![trigger names.len()]
                            names.len() == c.len() && (forall|j: int| 0 <= j < c.len() ==> #[trigger] c[j].name_bytes_hex@ == hex_of(names[j]))
                                && (forall|a: int, b: int| 0 <= a < b < c.len() ==> lex_le(#[trigger] names[a], #[trigger] names[b]))
                    },
                    None => true,
                }
        }),
{
    lemma_run_ok_at(ws, supplies, listings, path, meta, k);
    assert(tree_call(ws[k], ws[k + 1], supplies[k], listings[k]));
    let w0 = ws[k];
    let w1 = ws[k + 1];
    lemma_course_tells(w0);
    let n = w0.course().len() as int;
    let top = w0.course().last();
    let k0 = w0.kept();
    let visits = w0.visits();
    law_closed_directory_order(k0, w0.course());
    law_depth_step(k0, w1.kept(), w1.root_node(), w0.course(), visits, w0.spec_options(), w0.root_device());
    let node = if n == 1 {
        w1.root_node()->Some_0
    } else {
        choose|node: TreeNode|
            #![trigger dir_node(node, top, k0[n - 1], visits)]
            dir_node(node, top, k0[n - 1], visits) && w1.kept() == k0.take(n - 1).update(
                n - 2,
                with_child(k0[n - 2], node),
            )
    };
    assert(dir_node(node, top, k0[n - 1], visits));
    if n >= 2 {
        assert(w1.kept()[n - 2] == with_child(k0[n - 2], node));
    }
    law_closed_directory_sums(k0, node, w0.course(), visits);
}

/// Two runs from the same start on the same root, through the same calls, at
/// any reporting depths: at every point the walks are twins, so when they finish
/// they report the same totals, entry count, warnings, skipped count and
/// deepest level, and each root lists children exactly when its depth is not 0.
pub proof fn law_twin_runs(
    wa: Seq<TreeWalk>,
    wb: Seq<TreeWalk>,
    supplies: Seq<bool>,
    listings: Seq<Result<Vec<TreeItem>, String>>,
    path: PathText,
    meta: EntryMeta,
    k: int,
)
    requires
        tree_run(wa, supplies, listings, path, meta),
        tree_run(wb, supplies, listings, path, meta),
        wa.len() == wb.len(),
        wa[0].spec_options().one_filesystem == wb[0].spec_options().one_filesystem,
        0 <= k < wa.len(),
    ensures
        tree_twins(wa[k], wb[k]),
        root_shape(wa[k]),
        root_shape(wb[k]),
    decreases k,
{
    if k == 0 {
        law_tree_start_twins(wa[0], wb[0], path, meta);
    } else {
        law_twin_runs(wa, wb, supplies, listings, path, meta, k - 1);
        let j = k - 1;
        assert(tree_call(wa[j], wa[j + 1], supplies[j], listings[j]));
        assert(tree_call(wb[j], wb[j + 1], supplies[j], listings[j]));
        assert(wa[j + 1] == wa[k] && wb[j + 1] == wb[k]);
        if supplies[k - 1] {
            lemma_course_tells(wa[k - 1]);
            lemma_course_tells(wb[k - 1]);
            law_tree_supply_twins(wa[k - 1], wa[k], wb[k - 1], wb[k], listings[k - 1]);
        } else {
            law_tree_step_twins(wa[k - 1], wa[k], wb[k - 1], wb[k]);
        }
    }
}

/// One step took a tree walk from `w0` to `w1`: the open directories and the
/// visits moved on as [`tree_after_step`] says, on the same root device.
pub open spec fn stepped(w0: TreeWalk, w1: TreeWalk) -> bool {
    &&& w1.root_device() == w0.root_device()
    &&& !w0.finished() ==> (w1.course(), w1.visits()) == tree_after_step(
        w0.course(),
        w0.visits(),
        w0.spec_options().one_filesystem,
        w0.root_device(),
    )
}

/// The reporting depth never steers an `fs tree` walk: two walks at the same
/// point of their course (the same open directories and entries, the same visits,
/// filesystem setting and root device) are at the same point again after a
/// step, whatever depths they report to. Node totals are sums over the visits,
/// so the depth limits only which nodes are reported, never their totals.
pub proof fn law_depth_leaves_course(a0: TreeWalk, a1: TreeWalk, b0: TreeWalk, b1: TreeWalk)
    requires
        stepped(a0, a1),
        stepped(b0, b1),
        a0.course() == b0.course(),
        a0.visits() == b0.visits(),
        a0.spec_options().one_filesystem == b0.spec_options().one_filesystem,
        a0.root_device() == b0.root_device(),
        a0.finished() == b0.finished(),
    ensures
        !a0.finished() ==> a1.course() == b1.course() && a1.visits() == b1.visits(),
        a1.root_device() == b1.root_device(),
{
}

/// The open directories after the innermost one is given `listing`: its entries,
/// those of the listing with a name, arranged in byte order of their names;
/// entries with equal names keep the order of the listing.
pub open spec fn supplied_course(
    c0: Seq<TreeFrameView>,
    listing: Result<Vec<TreeItem>, String>,
    c1: Seq<TreeFrameView>,
) -> bool {
    exists|es: Seq<NamedEntry>|
        #![trigger entry_views(es)]
        es.to_multiset() == listed_entries(listing).to_multiset() && crate::order::sorted_by_order(es)
            && (exists|p: Seq<int>| #[trigger] stable_arrangement(listed_entries(listing), es, p)) && c1
            == c0.update(
            c0.len() - 1,
            TreeFrameView {
                path: c0.last().path,
                items: Some(entry_views(es)),
                next: 0,
                name: c0.last().name,
                start: c0.last().start,
            },
        )
}

/// Given the same listing, a tree walk arranges it the same way, whatever depth
/// it reports to: with [`law_depth_leaves_course`], walks fed the same listings
/// visit the same entries in the same order.
pub proof fn law_same_listing_same_course(
    c0: Seq<TreeFrameView>,
    listing: Result<Vec<TreeItem>, String>,
    ca: Seq<TreeFrameView>,
    cb: Seq<TreeFrameView>,
)
    requires
        supplied_course(c0, listing, ca),
        supplied_course(c0, listing, cb),
    ensures
        ca == cb,
{
    let listed = listed_entries(listing);
    let ea = choose|es: Seq<NamedEntry>|
        #![trigger entry_views(es)]
        es.to_multiset() == listed.to_multiset() && crate::order::sorted_by_order(es)
            && (exists|p: Seq<int>| #[trigger] stable_arrangement(listed, es, p)) && ca
            == c0.update(
            c0.len() - 1,
            TreeFrameView {
                path: c0.last().path,
                items: Some(entry_views(es)),
                next: 0,
                name: c0.last().name,
                start: c0.last().start,
            },
        );
    let eb = choose|es: Seq<NamedEntry>|
        #![trigger entry_views(es)]
        es.to_multiset() == listed.to_multiset() && crate::order::sorted_by_order(es)
            && (exists|p: Seq<int>| #[trigger] stable_arrangement(listed, es, p)) && cb
            == c0.update(
            c0.len() - 1,
            TreeFrameView {
                path: c0.last().path,
                items: Some(entry_views(es)),
                next: 0,
                name: c0.last().name,
                start: c0.last().start,
            },
        );
    let pa = choose|p: Seq<int>| #[trigger] stable_arrangement(listed, ea, p);
    let pb = choose|p: Seq<int>| #[trigger] stable_arrangement(listed, eb, p);
    lemma_stable_sort_unique(listed, ea, pa, eb, pb);
}

impl TreeWalk {
    /// Every entry the walk has stepped onto, root first, in walk order.
    pub closed spec fn visits(self) -> Seq<EntryMeta> {
        self.log@
    }

    /// Whether the walk is over.
    pub closed spec fn finished(self) -> bool {
        self.frames@.len() == 0
    }

    /// Whether the innermost open directory still needs its listing.
    pub closed spec fn awaiting_listing(self) -> bool {
        self.frames@.len() > 0 && self.frames@.last().items is None
    }

    /// The innermost open directory.
    pub closed spec fn pending(self) -> (Seq<char>, Seq<u8>) {
        (self.frames@.last().path.display@, self.frames@.last().path.bytes@)
    }

    /// The options the walk runs with.
    pub closed spec fn spec_options(self) -> TreeOptions {
        self.options
    }

    /// The open directories, outermost first.
    pub closed spec fn course(self) -> Seq<TreeFrameView> {
        tree_frames_view(self.frames@)
    }

    /// The device of the root.
    pub closed spec fn root_device(self) -> u64 {
        self.root_device
    }

    /// The children each open directory reports so far, outermost first.
    pub closed spec fn kept(self) -> Seq<Option<Seq<TreeNode>>> {
        tree_frames_kept(self.frames@)
    }

    /// The root's node, once the walk is over.
    pub closed spec fn root_node(self) -> Option<TreeNode> {
        self.root
    }

    /// The warnings recorded so far.
    pub closed spec fn warnings(self) -> Seq<Seq<char>> {
        texts(self.warnings@)
    }

    /// The entries skipped so far for lying on another filesystem.
    pub closed spec fn skipped(self) -> u64 {
        self.skipped_different_filesystem
    }

    /// The deepest level visited so far (the root is level 0).
    pub closed spec fn deepest(self) -> u64 {
        self.max_depth_reached
    }

    /// The walk's invariant.
    pub closed spec fn wf(self) -> bool {
        let log = self.log@;
        let fr = self.frames@;
        &&& log.len() >= 1
        &&& self.visited_directories@ == dir_keys(log)
        &&& self.seen_inodes@ == other_keys(log)
        &&& self.entries_seen == cap(log.len() as int)
        &&& (self.root is Some) == (fr.len() == 0)
        &&& fr.len() <= usize::MAX
        &&& (self.root matches Some(r) ==> {
            &&& r.total_bytes == capped_sum(log, 0, log.len() as int, false)
            &&& r.apparent_bytes == capped_sum(log, 0, log.len() as int, true)
            &&& (r.kind == FileKind::Directory ==> r.entries_seen == Some(cap(log.len() as int)))
        })
        &&& tframes_ok(fr, log, self.options)
    }

    /// Starts a walk at `path`, whose `lstat` record is `meta`.
    pub fn start(path: &PathText, meta: EntryMeta, options: TreeOptions) -> (w: TreeWalk)
        ensures
            w.wf(),
            tree_started(w, *path, meta),
            w.visits() == seq![meta],
            w.spec_options() == options,
            w.finished() == !meta.spec_is_dir(),
            w.root_device() == meta.dev,
            w.kept() == if meta.spec_is_dir() {
                seq![
                    if reports_children(options, 0) {
                        Some(Seq::<TreeNode>::empty())
                    } else {
                        None
                    },
                ]
            } else {
                Seq::empty()
            },
            meta.spec_is_dir() ==> w.root_node() is None,
            !meta.spec_is_dir() ==> exists|node: TreeNode|
                #![trigger leaf_node(node, root_entry(*path, meta), meta, seq![meta], 0)]
                w.root_node() == Some(node) && leaf_node(node, root_entry(*path, meta), meta, seq![meta], 0),
            w.warnings().len() == 0,
            w.skipped() == 0,
            w.deepest() == 0,
            w.course() == if meta.spec_is_dir() {
                seq![
                    TreeFrameView {
                        path: (path.display@, path.bytes@),
                        items: None,
                        next: 0,
                        name: (path.display@, hex_of(path.bytes@)),
                        start: 0,
                    },
                ]
            } else {
                Seq::empty()
            },
    {
        let mut w = TreeWalk {
            options,
            root_device: meta.dev,
            seen_inodes: HashSet::new(),
            visited_directories: HashSet::new(),
            entries_seen: 0,
            max_depth_reached: 0,
            skipped_different_filesystem: 0,
            warnings: Vec::new(),
            frames: Vec::new(),
            root: None,
            log: Ghost(Seq::empty()),
        };
        proof {
            assert(dir_keys(Seq::empty()) =~= Set::empty());
            assert(other_keys(Seq::empty()) =~= Set::empty());
        }
        let built = w.build(path, path, meta, 0);
        proof {
            lemma_sum_one(w.log@, 0, false);
            lemma_sum_one(w.log@, 0, true);
        }
        match built {
            Built::Leaf(node) => {
                let ghost nv = node;
                w.root = Some(node);
                assert(w.log@ =~= seq![meta]);
                assert(leaf_node(nv, root_entry(*path, meta), meta, seq![meta], 0));
            },
            Built::Directory(frame) => {
                w.frames.push(frame);
                proof {
                    let f = w.frames@[0];
                    if let Some(c) = f.children {
                        assert(c@ =~= Seq::<TreeNode>::empty());
                    }
                }
            },
        }
        assert(w.log@ =~= seq![meta]);
        assert(w.kept() =~= if meta.spec_is_dir() {
            seq![
                if reports_children(options, 0) {
                    Some(Seq::<TreeNode>::empty())
                } else {
                    None
                },
            ]
        } else {
            Seq::empty()
        });
        assert(w.course() =~= if meta.spec_is_dir() {
            seq![
                    TreeFrameView {
                        path: (path.display@, path.bytes@),
                        items: None,
                        next: 0,
                        name: (path.display@, hex_of(path.bytes@)),
                        start: 0,
                    },
                ]
        } else {
            Seq::empty()
        });
        w
    }

    /// What the walk needs next, advancing it by at most one entry.
    #[verifier::rlimit(100)]
    #[verifier::spinoff_prover]
    pub fn step(&mut self) -> (r: TreeStep)
        requires
            old(self).wf(),
        ensures
            final(self).wf(),
            tree_stepped(*old(self), *final(self)),
            final(self).spec_options() == old(self).spec_options(),
            old(self).visits().is_prefix_of(final(self).visits()),
            final(self).visits().len() <= old(self).visits().len() + 1,
            r is Finished <==> old(self).finished(),
            r is Finished ==> *final(self) == *old(self),
            final(self).root_device() == old(self).root_device(),
            !old(self).finished() ==> (final(self).course(), final(self).visits()) == tree_after_step(
                old(self).course(),
                old(self).visits(),
                old(self).spec_options().one_filesystem,
                old(self).root_device(),
            ),
            !old(self).finished() ==> kept_after_step(
                old(self).kept(),
                final(self).kept(),
                final(self).root_node(),
                old(self).course(),
                old(self).visits(),
                old(self).spec_options(),
                old(self).root_device(),
            ),
            !old(self).finished() ==> final(self).warnings() == old(self).warnings() + tree_step_warnings(
                old(self).course(),
                old(self).visits(),
                old(self).spec_options().one_filesystem,
                old(self).root_device(),
            ),
            !old(self).finished() ==> final(self).skipped() == tree_step_skipped(
                old(self).skipped(),
                old(self).course(),
                old(self).spec_options().one_filesystem,
                old(self).root_device(),
            ),
            !old(self).finished() ==> final(self).deepest() == tree_step_deepest(
                old(self).deepest(),
                old(self).course(),
                old(self).spec_options().one_filesystem,
                old(self).root_device(),
            ),
            r matches TreeStep::NeedListing(p) ==> {
                &&& final(self).visits() == old(self).visits()
                &&& final(self).awaiting_listing()
                &&& final(self).pending() == (p.display@, p.bytes@)
            },
    {
        if self.frames.len() == 0 {
            return TreeStep::Finished;
        }
        let ghost fr = self.frames@;
        let ghost log = self.log@;
        let ghost n = fr.len() as int;
        let ghost options = self.options;
        let ghost k0 = tree_frames_kept(fr);
        assert(tframe_ok(fr, log, options, n - 1));
        let mut frame = self.frames.pop().unwrap();
        assert(self.frames@ =~= fr.take(n - 1));
        assert(frame == fr[n - 1]);
        if frame.items.is_none() {
            let p = frame.path.duplicate();
            self.frames.push(frame);
            assert(self.frames@ =~= fr);
            return TreeStep::NeedListing(p);
        }
        let count = match &frame.items {
            Some(v) => v.len(),
            None => 0,
        };
        if frame.next < count {
            let ghost c0 = tree_frames_view(fr);
            let ghost ev = match &frame.items {
                Some(v) => entry_view(v@[frame.next as int]),
                None => entry_view(arbitrary()),
            };
            let entry = match &frame.items {
                Some(v) => clone_named(&v[frame.next]),
                None => NamedEntry {
                    name: PathText::new(String::new(), Vec::new()),
                    path: PathText::new(String::new(), Vec::new()),
                    meta: Err(String::new()),
                },
            };
            assert(entry_view(entry) == ev);
            assert(c0.last().items matches Some(its) && its[c0.last().next] == ev && c0.last().next < its.len());
            frame.next = frame.next + 1;
            proof {
                lemma_tree_course_advance(fr, frame);
            }
            let ghost adv = c0.update(
                n - 1,
                TreeFrameView {
                    path: c0.last().path,
                    items: c0.last().items,
                    next: c0.last().next + 1,
                    name: c0.last().name,
                    start: c0.last().start,
                },
            );
            match entry.meta {
                Err(message) => {
                    self.warnings.push(concat4("metadata unavailable for ", &entry.path.display, ": ", &message));
                    self.frames.push(frame);
                    assert(self.frames@ =~= fr.take(n - 1).push(frame));
                    assert(self.course() == adv);
                    assert(self.kept() =~= k0);
                    proof {
                        assert forall|i: int| 0 <= i < n implies #[trigger] tframe_ok(self.frames@, log, options, i) by {
                            if i < n - 1 {
                                lemma_tframes_replace_top(fr, frame, log, options, i);
                            }
                            assert(self.frames@ =~= fr.take(n - 1).push(frame));
                        }
                    }
                },
                Ok(meta) => {
                    if self.options.one_filesystem && meta.dev != self.root_device {
                        self.skipped_different_filesystem = saturating_add(self.skipped_different_filesystem, 1);
                        self.frames.push(frame);
                        assert(self.frames@ =~= fr.take(n - 1).push(frame));
                        assert(self.course() == adv);
                        assert(self.kept() =~= k0);
                        proof {
                            assert forall|i: int| 0 <= i < n implies #[trigger] tframe_ok(self.frames@, log, options, i) by {
                                if i < n - 1 {
                                    lemma_tframes_replace_top(fr, frame, log, options, i);
                                }
                                assert(self.frames@ =~= fr.take(n - 1).push(frame));
                            }
                        }
                    } else {
                        assert(frame.depth < usize::MAX);
                        let built = self.build(&entry.name, &entry.path, meta, frame.depth + 1);
                        let ghost log2 = self.log@;
                        proof {
                            lemma_sum_one(log2, log.len() as int, false);
                            lemma_sum_one(log2, log.len() as int, true);
                            lemma_sum_stable(log, meta, frame.start@, log.len() as int, false);
                            lemma_sum_stable(log, meta, frame.start@, log.len() as int, true);
                            lemma_sum_split(log2, frame.start@, log.len() as int, (log.len() + 1) as int, false);
                            lemma_sum_split(log2, frame.start@, log.len() as int, (log.len() + 1) as int, true);
                            lemma_sum_nonneg(log2, frame.start@, log.len() as int, false);
                            lemma_sum_nonneg(log2, frame.start@, log.len() as int, true);
                            lemma_sat_add_cap(log.len() - frame.start@, 1);
                        }
                        match built {
                            Built::Leaf(node) => {
                                let ghost nv = node;
                                assert(leaf_node(nv, ev, meta, log2, log.len() as int));
                                frame.subtree = saturating_add(frame.subtree, 1);
                                frame.node.total_bytes = saturating_add(frame.node.total_bytes, node.total_bytes);
                                frame.node.apparent_bytes = saturating_add(frame.node.apparent_bytes, node.apparent_bytes);
                                match frame.children {
                                    Some(ref mut c) => {
                                        c.push(node);
                                    },
                                    None => {},
                                }
                                self.frames.push(frame);
                                proof {
                                    lemma_tree_course_advance(fr, frame);
                                    assert(self.frames@ =~= fr.take(n - 1).push(frame));
                                    assert(self.course() == adv);
                                    assert(self.kept() =~= k0.update(n - 1, with_child(k0[n - 1], nv)));
                                }
                                proof {
                                    assert forall|i: int| 0 <= i < n implies #[trigger] tframe_ok(self.frames@, log2, options, i) by {
                                        assert(self.frames@ =~= fr.take(n - 1).push(frame));
                                        if i < n - 1 {
                                            lemma_tframes_log_push(fr, log, options, meta, i);
                                            lemma_tframes_replace_top(fr, frame, log2, options, i);
                                        }
                                    }
                                }
                            },
                            Built::Directory(sub) => {
                                self.frames.push(frame);
                                self.frames.push(sub);
                                proof {
                                    assert(self.frames@ =~= fr.take(n - 1).push(frame).push(sub));
                                    assert(tree_frames_view(fr.take(n - 1).push(frame).push(sub)) =~= tree_frames_view(
                                        fr.take(n - 1).push(frame),
                                    ).push(tree_frame_view(sub)));
                                    assert(tree_frame_view(sub) == TreeFrameView {
                                        path: ev.path,
                                        items: None,
                                        next: 0,
                                        name: (ev.name.0, hex_of(ev.name.1)),
                                        start: log.len() as int,
                                    });
                                    assert(self.course() == adv.push(tree_frame_view(sub)));
                                    assert(frame.depth == (n - 1) as u64);
                                    let sv = self.frames@[n];
                                    if let Some(c) = sv.children {
                                        assert(c@ =~= Seq::<TreeNode>::empty());
                                    }
                                    assert(tree_frames_kept(self.frames@) =~= tree_frames_kept(
                                        fr.take(n - 1).push(frame),
                                    ).push(
                                        match sv.children {
                                            Some(v) => Some(v@),
                                            None => None,
                                        },
                                    ));
                                    assert(tree_frames_kept(fr.take(n - 1).push(frame)) =~= k0);
                                    assert(self.kept() =~= k0.push(
                                        if reports_children(options, n as u64) {
                                            Some(Seq::<TreeNode>::empty())
                                        } else {
                                            None
                                        },
                                    ));
                                }
                                proof {
                                    let g = self.frames@;
                                    assert(g =~= fr.take(n - 1).push(frame).push(sub));
                                    assert forall|i: int| 0 <= i < n + 1 implies #[trigger] tframe_ok(g, log2, options, i) by {
                                        if i < n - 1 {
                                            lemma_tframes_log_push(fr, log, options, meta, i);
                                            lemma_tframes_replace_top(fr, frame, log2, options, i);
                                            let h = fr.take(n - 1).push(frame);
                                            assert(g[i] == h[i]);
                                            if i + 1 < n - 1 {
                                                assert(g[i + 1] == h[i + 1]);
                                            } else {
                                                assert(g[i + 1] == frame);
                                            }
                                            assert(tfend(g, log2.len() as int, i) == tfend(h, log2.len() as int, i));
                                        } else if i == n - 1 {
                                            assert(g[i] == frame);
                                            assert(g[i + 1] == sub);
                                        } else {
                                            assert(g[i] == sub);
                                        }
                                    }
                                }
                            },
                        }
                    }
                },
            }
            assert(self.frames@.len() == self.frames.len());
            assert(old(self).course() == c0);
            assert(old(self).visits() == log);
            assert((self.course(), self.visits()) == tree_after_step(c0, log, options.one_filesystem, self.root_device));
            return TreeStep::Progress;
        }
        // Every entry of this directory is handled: close its node.
        proof {
            lemma_sum_nonneg(log, frame.start@, log.len() as int, false);
            lemma_sum_nonneg(log, frame.start@, log.len() as int, true);
        }
        let mut node = frame.node;
        node.entries_seen = Some(frame.subtree);
        node.children = frame.children;
        let ghost nv = node;
        if self.frames.len() == 0 {
            assert(n == 1);
            assert(frame.start@ == 0);
            self.root = Some(node);
            return TreeStep::Progress;
        }
        assert(tframe_ok(fr, log, options, n - 2));
        let mut parent = self.frames.pop().unwrap();
        assert(parent == fr[n - 2]);
        assert(self.frames@ =~= fr.take(n - 2));
        proof {
            lemma_sum_nonneg(log, parent.start@, frame.start@, false);
            lemma_sum_nonneg(log, parent.start@, frame.start@, true);
            lemma_sat_add_cap(
                visit_sum(log, parent.start@, frame.start@, false),
                visit_sum(log, frame.start@, log.len() as int, false),
            );
            lemma_sat_add_cap(
                visit_sum(log, parent.start@, frame.start@, true),
                visit_sum(log, frame.start@, log.len() as int, true),
            );
            lemma_sat_add_cap(frame.start@ - parent.start@, log.len() - frame.start@);
            lemma_sum_split(log, parent.start@, frame.start@, log.len() as int, false);
            lemma_sum_split(log, parent.start@, frame.start@, log.len() as int, true);
        }
        parent.subtree = saturating_add(parent.subtree, frame.subtree);
        parent.node.total_bytes = saturating_add(parent.node.total_bytes, node.total_bytes);
        parent.node.apparent_bytes = saturating_add(parent.node.apparent_bytes, node.apparent_bytes);
        match parent.children {
            Some(ref mut c) => {
                c.push(node);
            },
            None => {},
        }
        self.frames.push(parent);
        proof {
            assert(tree_frame_view(parent) == tree_frame_view(fr[n - 2]));
            assert(self.frames@ =~= fr.take(n - 2).push(parent));
            assert(self.course() =~= tree_frames_view(fr).drop_last());
            assert(dir_node(nv, tree_frames_view(fr).last(), k0[n - 1], log));
            assert(self.kept() =~= k0.take(n - 1).update(n - 2, with_child(k0[n - 2], nv)));
        }
        proof {
            let g = self.frames@;
            assert(g =~= fr.take(n - 2).push(parent));
            assert forall|i: int| 0 <= i < n - 1 implies #[trigger] tframe_ok(g, log, options, i) by {
                if i < n - 2 {
                    assert(tframe_ok(fr, log, options, i));
                    assert(g[i] == fr[i]);
                    assert(g[i + 1] == (if i + 1 < n - 2 { fr[i + 1] } else { parent }));
                    assert(tfend(g, log.len() as int, i) == tfend(fr, log.len() as int, i));
                } else {
                    assert(g[i] == parent);
                    assert(tfend(g, log.len() as int, i) == log.len());
                }
            }
        }
        TreeStep::Progress
    }

    /// Hands the walk the listing it asked for: the directory's items, or the error
    /// text of a directory that could not be read. Named entries are visited in
    /// byte order of their names.
    pub fn supply_listing(&mut self, listing: Result<Vec<TreeItem>, String>)
        requires
            old(self).wf(),
            old(self).awaiting_listing(),
        ensures
            final(self).wf(),
            tree_supplied(*old(self), *final(self), listing),
            final(self).spec_options() == old(self).spec_options(),
            final(self).visits() == old(self).visits(),
            !final(self).awaiting_listing(),
            !final(self).finished(),
            final(self).root_device() == old(self).root_device(),
            final(self).warnings() == old(self).warnings() + listing_warnings(old(self).pending().0, listing),
            final(self).skipped() == old(self).skipped(),
            final(self).deepest() == old(self).deepest(),
            final(self).kept() == old(self).kept(),
            final(self).root_node() == old(self).root_node(),
            supplied_course(old(self).course(), listing, final(self).course()),
    {
        let ghost fr = self.frames@;
        let ghost log = self.log@;
        let ghost n = fr.len() as int;
        let ghost options = self.options;
        let ghost c0 = self.course();
        let ghost listed = listed_entries(listing);
        assert(tframe_ok(fr, log, options, n - 1));
        let mut frame = self.frames.pop().unwrap();
        assert(self.frames@ =~= fr.take(n - 1));
        let ghost mut es: Seq<NamedEntry> = Seq::empty();
        match listing {
            Ok(items) => {
                let named = split_listing(items, &frame.path.display, &mut self.warnings);
                let ghost unsorted = named@;
                let sorted = sort_by_order(named);
                proof {
                    es = sorted@;
                    assert(unsorted == listed);
                    assert(exists|p: Seq<int>| #[trigger] stable_arrangement(listed, es, p));
                }
                frame.items = Some(sorted);
            },
            Err(message) => {
                let w = concat4("cannot read directory ", &frame.path.display, ": ", &message);
                let ghost before = texts(self.warnings@);
                self.warnings.push(w);
                assert(texts(self.warnings@) =~= before.push(w@));
                frame.items = Some(Vec::new());
                assert(es.to_multiset() =~= listed.to_multiset());
                assert(stable_arrangement(listed, es, Seq::<int>::empty()));
            },
        }
        frame.next = 0;
        self.frames.push(frame);
        proof {
            assert(self.frames@ =~= fr.take(n - 1).push(frame));
            assert(tree_frame_view(frame) == TreeFrameView {
                path: c0.last().path,
                items: Some(entry_views(es)),
                next: 0,
                name: c0.last().name,
                start: c0.last().start,
            });
            assert(self.course() =~= c0.update(
                n - 1,
                TreeFrameView {
                    path: c0.last().path,
                    items: Some(entry_views(es)),
                    next: 0,
                    name: c0.last().name,
                    start: c0.last().start,
                },
            ));
            assert(self.kept() =~= tree_frames_kept(fr));
        }
        proof {
            assert forall|i: int| 0 <= i < n implies #[trigger] tframe_ok(self.frames@, log, options, i) by {
                if i < n - 1 {
                    lemma_tframes_replace_top(fr, frame, log, options, i);
                }
                assert(self.frames@ =~= fr.take(n - 1).push(frame));
            }
        }
    }

    /// Ends the walk: the tree report for `path`.
    pub fn finish(self, path: &PathText, absolute_path: Option<String>) -> (t: FsTree)
        requires
            self.wf(),
            self.finished(),
        ensures
            t.path@ == path.display@,
            t.path_bytes_hex@ == hex_of(path.bytes@),
            t.absolute_path == absolute_path,
            t.exists,
            t.max_depth == self.spec_options().max_depth,
            t.one_filesystem == self.spec_options().one_filesystem,
            t.entries_seen == cap(self.visits().len() as int),
            t.max_depth_reached == Some(self.deepest()),
            t.root == self.root_node(),
            t.skipped_different_filesystem == self.skipped(),
            t.root matches Some(r) && texts(t.warnings@) == if r.kind != FileKind::Directory {
                seq![not_directory_text(path.display@)] + self.warnings()
            } else {
                self.warnings()
            },
            t.root matches Some(r) && {
                &&& r.total_bytes == capped_sum(self.visits(), 0, self.visits().len() as int, false)
                &&& r.apparent_bytes == capped_sum(self.visits(), 0, self.visits().len() as int, true)
                &&& (r.kind == FileKind::Directory ==> r.entries_seen == Some(cap(self.visits().len() as int)))
                &&& (r.kind != FileKind::Directory ==> t.warnings@.len() >= 1 && t.warnings@[0]@
                    == not_directory_text(path.display@))
            },
    {
        let mut warnings: Vec<String> = Vec::new();
        let root = self.root.unwrap();
        if root.kind != FileKind::Directory {
            warnings.push(concat2(&path.display, " is not a directory; reporting the path itself as a single leaf node"));
        }
        let mut rest = self.warnings;
        warnings.append(&mut rest);
        FsTree {
            path: copy_string(&path.display),
            path_bytes_hex: bytes_hex(path.bytes.as_slice()),
            absolute_path,
            exists: true,
            max_depth: self.options.max_depth,
            one_filesystem: self.options.one_filesystem,
            root: Some(root),
            entries_seen: self.entries_seen,
            max_depth_reached: Some(self.max_depth_reached),
            skipped_different_filesystem: self.skipped_different_filesystem,
            warnings,
        }
    }

    /// Steps onto one entry at `depth`: counts it, and either returns its finished
    /// node or the frame of a directory to descend into.
    fn build(&mut self, name: &PathText, path: &PathText, meta: EntryMeta, depth: u64) -> (r: Built)
        requires
            old(self).visited_directories@ == dir_keys(old(self).log@),
            old(self).seen_inodes@ == other_keys(old(self).log@),
            old(self).entries_seen == cap(old(self).log@.len() as int),
        ensures
            final(self).log@ == old(self).log@.push(meta),
            final(self).visited_directories@ == dir_keys(final(self).log@),
            final(self).seen_inodes@ == other_keys(final(self).log@),
            final(self).entries_seen == cap(final(self).log@.len() as int),
            final(self).frames == old(self).frames,
            final(self).root == old(self).root,
            final(self).options == old(self).options,
            final(self).root_device == old(self).root_device,
            final(self).skipped_different_filesystem == old(self).skipped_different_filesystem,
            meta.spec_is_dir() ==> (r is Directory <==> !dir_keys(old(self).log@).contains(meta.spec_key())),
            !meta.spec_is_dir() ==> r is Leaf,
            texts(final(self).warnings@) == texts(old(self).warnings@) + if meta.spec_is_dir() && dir_keys(
                old(self).log@,
            ).contains(meta.spec_key()) {
                seq![revisit_text(path.display@)]
            } else {
                Seq::empty()
            },
            final(self).max_depth_reached == if depth > old(self).max_depth_reached {
                depth
            } else {
                old(self).max_depth_reached
            },
            match r {
                Built::Leaf(node) => {
                    &&& node.total_bytes == contribution(final(self).log@, old(self).log@.len() as int, false)
                    &&& node.apparent_bytes == contribution(final(self).log@, old(self).log@.len() as int, true)
                    &&& node.entries_seen is None
                    &&& node.children is None
                    &&& node.kind == kind_of_mode(meta.mode)
                    &&& node.name@ == name.display@
                    &&& node.name_bytes_hex@ == hex_of(name.bytes@)
                    &&& (meta.spec_is_dir() ==> !counted(final(self).log@, old(self).log@.len() as int))
                },
                Built::Directory(f) => {
                    &&& meta.spec_is_dir()
                    &&& f.start@ == old(self).log@.len()
                    &&& f.node.total_bytes == contribution(final(self).log@, old(self).log@.len() as int, false)
                    &&& f.node.apparent_bytes == contribution(final(self).log@, old(self).log@.len() as int, true)
                    &&& f.node.kind == FileKind::Directory
                    &&& f.node.name@ == name.display@
                    &&& f.node.name_bytes_hex@ == hex_of(name.bytes@)
                    &&& f.items is None
                    &&& f.next == 0
                    &&& f.depth == depth
                    &&& f.subtree == 1
                    &&& (f.children is Some) == reports_children(old(self).options, depth)
                    &&& (f.children matches Some(c) ==> c@.len() == 0)
                    &&& f.path.display@ == path.display@
                    &&& f.path.bytes@ == path.bytes@
                },
            },
    {
        let ghost old_log = self.log@;
        self.entries_seen = saturating_add(self.entries_seen, 1);
        if depth > self.max_depth_reached {
            self.max_depth_reached = depth;
        }
        let key = meta.key();
        proof {
            lemma_keys_push(old_log, meta);
            lemma_counted_last(old_log, meta);
            self.log@ = old_log.push(meta);
            assert(self.log@[old_log.len() as int] == meta);
        }
        let kind = kind_of(&meta);
        if meta.is_dir() {
            let fresh = self.visited_directories.insert(key);
            if !fresh {
                self.warnings.push(concat2(&path.display, " was already visited during this traversal; skipped to avoid double counting"));
                return Built::Leaf(TreeNode {
                    name: copy_string(&name.display),
                    name_bytes_hex: bytes_hex(name.bytes.as_slice()),
                    kind,
                    total_bytes: 0,
                    apparent_bytes: 0,
                    entries_seen: None,
                    children: None,
                });
            }
            let report = match self.options.max_depth {
                None => true,
                Some(m) => depth < m,
            };
            let children: Option<Vec<TreeNode>> = if report {
                Some(Vec::new())
            } else {
                None
            };
            let frame = TreeFrame {
                path: path.duplicate(),
                node: TreeNode {
                    name: copy_string(&name.display),
                    name_bytes_hex: bytes_hex(name.bytes.as_slice()),
                    kind,
                    total_bytes: meta.allocated_bytes(),
                    apparent_bytes: meta.len,
                    entries_seen: None,
                    children: None,
                },
                depth,
                children,
                subtree: 1,
                items: None,
                next: 0,
                start: Ghost(old_log.len() as int),
            };
            return Built::Directory(frame);
        }
        let fresh = self.seen_inodes.insert(key);
        TreeNode {
            name: copy_string(&name.display),
            name_bytes_hex: bytes_hex(name.bytes.as_slice()),
            kind,
            total_bytes: if fresh {
                meta.allocated_bytes()
            } else {
                0
            },
            apparent_bytes: if fresh {
                meta.len
            } else {
                0
            },
            entries_seen: None,
            children: None,
        }.into_leaf()
    }
}

/// The named entries of a listing, in listing order; a warning for each entry the
/// directory iterator failed to produce.
/// The named entries of a listing, in order.
pub open spec fn named_entries(v: Seq<TreeItem>) -> Seq<NamedEntry>
    decreases v.len(),
{
    if v.len() == 0 {
        Seq::empty()
    } else {
        let rest = named_entries(v.drop_last());
        match v.last() {
            TreeItem::Named(e) => rest.push(e),
            TreeItem::Unreadable(_) => rest,
        }
    }
}

/// The named entries of a listing, or none for a directory that could not be read.
pub open spec fn listed_entries(listing: Result<Vec<TreeItem>, String>) -> Seq<NamedEntry> {
    match listing {
        Ok(v) => named_entries(v@),
        Err(_) => Seq::empty(),
    }
}

fn split_listing(items: Vec<TreeItem>, dir: &String, warnings: &mut Vec<String>) -> (named: Vec<NamedEntry>)
    ensures
        named@ == named_entries(items@),
        texts(final(warnings)@) == texts(old(warnings)@) + entry_errors(dir@, items@),
{
    let mut named: Vec<NamedEntry> = Vec::new();
    let ghost all = items@;
    let ghost w0 = texts(warnings@);
    assert(w0 + entry_errors(dir@, all.take(0)) =~= w0);
    for item in it: items
        invariant
            it.seq() == all,
            named@ == named_entries(all.take(it.index())),
            texts(warnings@) == w0 + entry_errors(dir@, all.take(it.index())),
    {
        assert(all.take(it.index() + 1).drop_last() =~= all.take(it.index()));
        match item {
            TreeItem::Unreadable(message) => {
                let w = concat4("cannot read a directory entry in ", dir, ": ", &message);
                let ghost before = texts(warnings@);
                warnings.push(w);
                assert(texts(warnings@) =~= before.push(w@));
            },
            TreeItem::Named(e) => {
                named.push(e);
            },
        }
    }
    assert(all.take(all.len() as int) =~= all);
    named
}

/// A copy of a named entry.
fn clone_named(e: &NamedEntry) -> (c: NamedEntry)
    ensures
        c.name.display@ == e.name.display@,
        c.name.bytes@ == e.name.bytes@,
        c.path.display@ == e.path.display@,
        c.path.bytes@ == e.path.bytes@,
        match (e.meta, c.meta) {
            (Ok(a), Ok(b)) => a == b,
            (Err(a), Err(b)) => a@ == b@,
            _ => false,
        },
{
    NamedEntry {
        name: e.name.duplicate(),
        path: e.path.duplicate(),
        meta: match &e.meta {
            Ok(m) => Ok(*m),
            Err(a) => Err(copy_string(a)),
        },
    }
}

impl TreeNode {
    fn into_leaf(self) -> (b: Built)
        ensures
            b == Built::Leaf(self),
    {
        Built::Leaf(self)
    }
}

} // verus!

verus! {

use crate::agent::{AgentReport, FactValue, FactField, NextStep, Severity, Subject, fact_is, num_value, read_only_step, fact_with, fact_said, field, field_is, num_or_null};
use crate::text::{dec, push_dec, push_str, owned};
use crate::units::{human_bytes_spec, quote_path, shell_quote_path};
use crate::fs::{join_path, join_name};

/// The index of the child with the largest total, the last of equals (as
/// `Iterator::max_by_key` picks), or -1 when there is none.
pub open spec fn largest_node(s: Seq<TreeNode>) -> int
    decreases s.len(),
{
    if s.len() == 0 {
        -1
    } else {
        let prev = largest_node(s.drop_last());
        if prev < 0 || s[prev].total_bytes <= s.last().total_bytes {
            s.len() - 1
        } else {
            prev
        }
    }
}

proof fn lemma_largest_node(s: Seq<TreeNode>)
    ensures
        -1 <= largest_node(s) < s.len(),
        s.len() > 0 ==> largest_node(s) >= 0,
        largest_node(s) >= 0 ==> forall|j: int| 0 <= j < s.len() ==> (#[trigger] s[j]).total_bytes <= s[largest_node(s)].total_bytes,
    decreases s.len(),
{
    if s.len() > 0 {
        lemma_largest_node(s.drop_last());
        assert forall|j: int| 0 <= j < s.len() - 1 implies s.drop_last()[j] == #[trigger] s[j] by {}
    }
}

fn largest_node_index(s: &Vec<TreeNode>) -> (r: Option<usize>)
    ensures
        match r {
            Some(i) => i as int == largest_node(s@) && i < s@.len(),
            None => largest_node(s@) == -1 && s@.len() == 0,
        },
{
    let mut best: Option<usize> = None;
    let mut i: usize = 0;
    while i < s.len()
        invariant
            i <= s.len(),
            match best {
                Some(b) => b as int == largest_node(s@.take(i as int)) && b < i,
                None => largest_node(s@.take(i as int)) == -1 && i == 0,
            },
        decreases s.len() - i,
    {
        assert(s@.take(i + 1).drop_last() =~= s@.take(i as int));
        assert(s@.take(i + 1).last() == s@[i as int]);
        match best {
            None => best = Some(i),
            Some(b) => {
                assert(s@.take(i as int)[b as int] == s@[b as int]);
                if s[b].total_bytes <= s[i].total_bytes {
                    best = Some(i);
                }
            },
        }
        i += 1;
    }
    assert(s@.take(i as int) =~= s@);
    best
}

/// The children of the tree's root, if it reports any.
pub open spec fn root_children(t: FsTree) -> Seq<TreeNode> {
    match t.root {
        Some(r) => match r.children {
            Some(c) => c@,
            None => Seq::empty(),
        },
        None => Seq::empty(),
    }
}

/// How much a tree needs attention.
pub open spec fn tree_severity(t: FsTree) -> Severity {
    if !t.exists || t.warnings@.len() > 0 {
        Severity::Warning
    } else {
        Severity::Normal
    }
}

/// The one-line summary of a tree.
pub open spec fn tree_summary(t: FsTree) -> Seq<char> {
    match t.root {
        Some(r) => if r.kind == FileKind::Directory {
            t.path@ + " holds "@ + human_bytes_spec(r.total_bytes) + " across "@ + dec(t.entries_seen as nat)
                + " entries."@
        } else {
            t.path@ + " is a "@ + r.kind.spec_label() + ", not a directory."@
        },
        None => t.path@ + " does not exist."@,
    }
}

/// The evidence of the deepest level reached.
pub open spec fn depth_evidence(max_depth: Option<u64>) -> Seq<char> {
    "deepest level observed during traversal; requested reporting depth: "@ + match max_depth {
        Some(d) => dec(d as nat),
        None => "unlimited"@,
    }
}

/// The agent report of a tree.
pub fn tree_agent_report(tree: &FsTree, generated_at: String) -> (r: AgentReport)
    ensures
        r.generated_at == generated_at,
        r.subject.domain@ == "fs"@ && r.subject.command@ == "tree"@,
        r.subject.target matches Some(t) && t@ == tree.path@,
        r.summary@ == tree_summary(*tree),
        r.severity == tree_severity(*tree),
        fact_is(
            r.facts@[0],
            "path_exists"@,
            if tree.exists { Severity::Info } else { Severity::Warning },
            seq![if tree.exists { tree.path@ + " exists"@ } else { tree.path@ + " was not found"@ }],
        ),
        r.facts@[0].value == FactValue::Bool(tree.exists),
        tree.root is None ==> r.facts@.len() == 1,
        tree.root matches Some(root) ==> {
            &&& r.facts@.len() == if root_children(*tree).len() > 0 { 5nat } else { 4nat }
            &&& fact_is(r.facts@[1], "total_bytes"@, Severity::Info, seq!["recursively calculated allocated bytes for the root node"@])
            &&& r.facts@[1].value == FactValue::Number(root.total_bytes)
            &&& fact_is(r.facts@[2], "entries_seen"@, Severity::Info, seq!["entries observed during the full recursive walk; --depth limits reporting only"@])
            &&& r.facts@[2].value == FactValue::Number(tree.entries_seen)
            &&& fact_is(r.facts@[3], "max_depth_reached"@, Severity::Info, seq![depth_evidence(tree.max_depth)])
            &&& num_value(r.facts@[3].value, tree.max_depth_reached)
        },
        root_children(*tree).len() > 0 ==> {
            let c = root_children(*tree)[largest_node(root_children(*tree))];
            &&& fact_is(r.facts@[4], "largest_subtree"@, Severity::Info, seq!["largest immediate child by recursively calculated allocated bytes"@])
            &&& r.facts@[4].value matches FactValue::Object(fields) && fields@.len() == 4
                && field_is(fields@[0], "name"@) && (fields@[0].value matches FactValue::Text(t) && t@ == c.name@)
                && field_is(fields@[1], "kind"@) && (fields@[1].value matches FactValue::Text(t) && t@ == c.kind.spec_schema_name())
                && field_is(fields@[2], "total_bytes"@) && fields@[2].value == FactValue::Number(c.total_bytes)
                && field_is(fields@[3], "apparent_bytes"@) && fields@[3].value == FactValue::Number(c.apparent_bytes)
        },
        texts(r.interpretation@) == if tree.warnings@.len() > 0 {
            seq![dec(tree.warnings@.len() as nat) + " tree traversal warnings occurred; permissions or path races may limit completeness."@]
        } else {
            Seq::<Seq<char>>::empty()
        },
        read_only_step(r.safe_next_steps@[0], "bbt --json fs tree -- "@ + shell_quote_path(tree.path@), "Fetch the complete structured directory tree"@),
        tree.root is None ==> r.safe_next_steps@.len() == 1,
        (tree.root matches Some(root) && root.kind != FileKind::Directory) ==> r.safe_next_steps@.len() == 2
            && read_only_step(r.safe_next_steps@[1], "bbt --agent fs inspect -- "@ + shell_quote_path(tree.path@), "Inspect this non-directory path's full metadata"@),
        (tree.root matches Some(root) && root.kind == FileKind::Directory) ==> {
            let ch = root_children(*tree);
            let deeper = ch.len() > 0 && ch[largest_node(ch)].kind == FileKind::Directory;
            &&& r.safe_next_steps@.len() == if deeper { 3nat } else { 2nat }
            &&& deeper ==> read_only_step(
                r.safe_next_steps@[1],
                "bbt --agent disk usage --depth 1 -- "@ + shell_quote_path(join_path(tree.path@, ch[largest_node(ch)].name@)),
                "Break down the largest subtree in more detail"@,
            )
            &&& read_only_step(
                r.safe_next_steps@[if deeper { 2int } else { 1int }],
                "bbt --agent fs list -- "@ + shell_quote_path(tree.path@),
                "List this directory's flat contents with per-entry ownership"@,
            )
        },
        r.risky_next_steps@.len() == 0,
{
    let severity = if !tree.exists || tree.warnings.len() > 0 {
        Severity::Warning
    } else {
        Severity::Normal
    };
    let mut summary = copy_string(&tree.path);
    match &tree.root {
        Some(root) => if root.kind == FileKind::Directory {
            push_str(&mut summary, " holds ");
            let h = crate::units::human_bytes(root.total_bytes);
            push_str(&mut summary, h.as_str());
            push_str(&mut summary, " across ");
            push_dec(&mut summary, tree.entries_seen);
            push_str(&mut summary, " entries.");
        } else {
            push_str(&mut summary, " is a ");
            push_str(&mut summary, root.kind.label());
            push_str(&mut summary, ", not a directory.");
        },
        None => push_str(&mut summary, " does not exist."),
    }
    let mut e0 = copy_string(&tree.path);
    if tree.exists {
        push_str(&mut e0, " exists");
    } else {
        push_str(&mut e0, " was not found");
    }
    let mut report = AgentReport::new(
        generated_at,
        Subject::new("fs", "tree", Some(tree.path.as_str())),
        summary,
        severity,
    ).with_fact(
        fact_said(
            "path_exists",
            FactValue::Bool(tree.exists),
            if tree.exists {
                Severity::Info
            } else {
                Severity::Warning
            },
            e0,
        ),
    );
    let mut largest: Option<usize> = None;
    if let Some(root) = &tree.root {
        let mut e3 = owned("deepest level observed during traversal; requested reporting depth: ");
        match tree.max_depth {
            Some(d) => push_dec(&mut e3, d),
            None => push_str(&mut e3, "unlimited"),
        }
        report = report.with_fact(
            fact_with(
                "total_bytes",
                FactValue::Number(root.total_bytes),
                Severity::Info,
                "recursively calculated allocated bytes for the root node",
            ),
        ).with_fact(
            fact_with(
                "entries_seen",
                FactValue::Number(tree.entries_seen),
                Severity::Info,
                "entries observed during the full recursive walk; --depth limits reporting only",
            ),
        ).with_fact(fact_said("max_depth_reached", num_or_null(tree.max_depth_reached), Severity::Info, e3));
        if let Some(children) = &root.children {
            largest = largest_node_index(children);
            if let Some(k) = largest {
                let c = &children[k];
                let mut fields: Vec<FactField> = Vec::new();
                fields.push(field("name", FactValue::Text(copy_string(&c.name))));
                fields.push(field("kind", FactValue::Text(owned(c.kind.schema_name()))));
                fields.push(field("total_bytes", FactValue::Number(c.total_bytes)));
                fields.push(field("apparent_bytes", FactValue::Number(c.apparent_bytes)));
                report = report.with_fact(
                    fact_with(
                        "largest_subtree",
                        FactValue::Object(fields),
                        Severity::Info,
                        "largest immediate child by recursively calculated allocated bytes",
                    ),
                );
            }
        }
    }
    if tree.warnings.len() > 0 {
        let mut t = crate::text::dec_string(tree.warnings.len() as u64);
        push_str(&mut t, " tree traversal warnings occurred; permissions or path races may limit completeness.");
        report = report.with_interpretation(t);
    }
    let q = quote_path(tree.path.as_str());
    let mut c0 = owned("bbt --json fs tree -- ");
    push_str(&mut c0, q.as_str());
    report = report.with_safe_next_step(NextStep::read_only(c0.as_str(), "Fetch the complete structured directory tree"));
    if let Some(root) = &tree.root {
        if root.kind == FileKind::Directory {
            if let Some(children) = &root.children {
                if let Some(k) = largest {
                    if children[k].kind == FileKind::Directory {
                        let joined = join_name(&tree.path, &children[k].name);
                        let qj = quote_path(joined.as_str());
                        let mut c1 = owned("bbt --agent disk usage --depth 1 -- ");
                        push_str(&mut c1, qj.as_str());
                        report = report.with_safe_next_step(
                            NextStep::read_only(c1.as_str(), "Break down the largest subtree in more detail"),
                        );
                    }
                }
            }
            let mut c2 = owned("bbt --agent fs list -- ");
            push_str(&mut c2, q.as_str());
            report = report.with_safe_next_step(
                NextStep::read_only(c2.as_str(), "List this directory's flat contents with per-entry ownership"),
            );
        } else {
            let mut c2 = owned("bbt --agent fs inspect -- ");
            push_str(&mut c2, q.as_str());
            report = report.with_safe_next_step(
                NextStep::read_only(c2.as_str(), "Inspect this non-directory path's full metadata"),
            );
        }
    }
    assert(texts(report.interpretation@) =~= if tree.warnings@.len() > 0 {
        seq![dec(tree.warnings@.len() as nat) + " tree traversal warnings occurred; permissions or path races may limit completeness."@]
    } else {
        Seq::<Seq<char>>::empty()
    });
    report
}

} // verus!
