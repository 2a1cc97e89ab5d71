use bbt::entry::{EntryMeta, PathText};
use bbt::fs::{
    agent_report, human_bytes, join_name, list_agent_report, octal_mode, shell_quote, symbolic_mode,
    Access, FileKind,
};
use bbt::fs_records::{format_unix_timestamp, inspection_from, listing_from, ListItem, ListedEntry, PathStat, StatError, UnixTime};
use bbt::fs_tree::{tree_agent_report, NamedEntry, TreeItem, TreeOptions, TreeStep, TreeWalk, tree_of_unreadable_root};
use bbt::agent::Severity;

const DIR: u32 = 0o040755;
const FILE: u32 = 0o100644;
const LINK: u32 = 0o120777;

fn pt(s: &str) -> PathText {
    PathText::new(s.to_string(), s.as_bytes().to_vec())
}

fn meta(ino: u64, mode: u32, blocks: u64, len: u64) -> EntryMeta {
    EntryMeta { dev: 1, ino, mode, blocks, len }
}

fn stat(m: EntryMeta) -> PathStat {
    PathStat {
        meta: m,
        uid: 1000,
        gid: 100,
        modified: Some(UnixTime { seconds: 0, nanosecond: 0 }),
        accessed: None,
        created: None,
        changed_seconds: 86_400,
        changed_nanoseconds: 5,
    }
}

#[test]
fn permission_text_matches_ls() {
    assert_eq!(symbolic_mode(0o100644), "rw-r--r--");
    assert_eq!(symbolic_mode(0o104755), "rwsr-xr-x");
    assert_eq!(symbolic_mode(0o102644), "rw-r-Sr--");
    assert_eq!(symbolic_mode(0o041777), "rwxrwxrwt");
    assert_eq!(symbolic_mode(0o041776), "rwxrwxrwT");
    assert_eq!(octal_mode(0o104755), "4755");
    assert_eq!(octal_mode(0o100600), "0600");
}

#[test]
fn file_kind_labels_and_indicators() {
    assert_eq!(FileKind::Directory.label(), "directory");
    assert_eq!(FileKind::Fifo.indicator(), 'p');
    assert_eq!(FileKind::Missing.indicator(), '?');
    assert_eq!(FileKind::RegularFile.schema_name(), "regular-file");
}

#[test]
fn fs_paths_quote_and_join() {
    assert_eq!(shell_quote(""), "");
    assert_eq!(shell_quote("a b"), "'a b'");
    assert_eq!(join_name(&"/tmp".to_string(), &"x".to_string()), "/tmp/x");
    assert_eq!(join_name(&"/".to_string(), &"x".to_string()), "/x");
    assert_eq!(join_name(&"".to_string(), &"x".to_string()), "x");
    assert_eq!(human_bytes(0), "0 B");
}

#[test]
fn unix_timestamps_format_as_rfc3339_with_fallback() {
    assert_eq!(format_unix_timestamp(86_400, 5), "1970-01-02T00:00:00.000000005Z");
    assert_eq!(format_unix_timestamp(0, 0), "1970-01-01T00:00:00Z");
    assert_eq!(format_unix_timestamp(i64::MAX, 7), format!("{}.000000007Z", i64::MAX));
    assert_eq!(format_unix_timestamp(i64::MIN, -3), format!("{}.-00000003Z", i64::MIN));
}

#[test]
fn inspection_reports_metadata_and_missing_paths() {
    let i = inspection_from(&pt("notes.txt"), Some("/home/u/notes.txt".into()), Ok(stat(meta(9, FILE, 8, 42))), Some("/home/u/notes.txt".into()), None, Access { readable: Some(true), writable: Some(false), executable: Some(false) });
    assert!(i.exists);
    assert!(i.kind == FileKind::RegularFile);
    assert_eq!(i.size_bytes, Some(42));
    assert_eq!(i.mode.as_ref().map(|m| m.octal.clone()), Some("0644".to_string()));
    assert_eq!(i.timestamps.modified.as_deref(), Some("1970-01-01T00:00:00Z"));
    assert_eq!(i.timestamps.changed.as_deref(), Some("1970-01-02T00:00:00.000000005Z"));
    assert_eq!(i.path_bytes_hex, "6e6f7465732e747874");
    let report = agent_report(&i, "2026-01-01T00:00:00Z".to_string());
    assert_eq!(report.summary, "notes.txt is a regular file.");
    assert!(report.severity == Severity::Normal);
    assert_eq!(report.safe_next_steps[0].command, "bbt fs inspect notes.txt --json");

    let gone = inspection_from(&pt("gone"), None, Err(StatError::NotFound), None, None, Access::default());
    assert!(!gone.exists && gone.kind == FileKind::Missing && gone.warnings.is_empty());
    let r = agent_report(&gone, "t".to_string());
    assert_eq!(r.summary, "gone does not exist.");
    assert!(r.severity == Severity::Warning);
    assert!(r.safe_next_steps.is_empty());

    let denied = inspection_from(&pt("x"), None, Err(StatError::Other("Permission denied (os error 13)".into())), None, None, Access::default());
    assert_eq!(denied.warnings, vec!["metadata unavailable for x: Permission denied (os error 13)".to_string()]);
    let link = inspection_from(&pt("l"), None, Ok(stat(meta(3, LINK, 0, 4))), None, Some("target".into()), Access { readable: Some(true), writable: None, executable: None });
    assert_eq!(link.symlink_target.as_deref(), Some("target"));
    assert_eq!(link.access.readable, None);
}

fn entry(name: &str, m: EntryMeta) -> ListItem {
    ListItem::Entry(ListedEntry { name: pt(name), path: pt(&format!("dir/{name}")), stat: Ok(stat(m)), symlink_target: None })
}

#[test]
fn listing_sorts_names_and_collects_warnings() {
    let items = vec![
        entry("zeta", meta(2, FILE, 8, 10)),
        ListItem::Unreadable("Input/output error (os error 5)".into()),
        entry(".hidden", meta(3, FILE, 8, 99)),
        ListItem::Entry(ListedEntry { name: pt("beta"), path: pt("dir/beta"), stat: Err("vanished".into()), symlink_target: None }),
        entry("alpha", meta(4, DIR, 8, 4096)),
    ];
    let l = listing_from(&pt("dir"), None, Ok(stat(meta(1, DIR, 8, 4096))), None, Ok(items));
    let names: Vec<&str> = l.entries.iter().map(|e| e.name.as_str()).collect();
    assert_eq!(names, vec![".hidden", "alpha", "zeta"]);
    assert_eq!(l.entry_count, 3);
    assert_eq!(
        l.warnings,
        vec![
            "cannot read a directory entry in dir: Input/output error (os error 5)".to_string(),
            "metadata unavailable for dir/beta: vanished".to_string(),
        ]
    );
    let report = list_agent_report(&l, "t".to_string());
    assert_eq!(report.summary, "dir contains 3 entries.");
    assert_eq!(report.facts[3].key, "hidden_entry_count");
    assert!(matches!(report.facts[3].value, bbt::agent::FactValue::Number(1)));
    assert_eq!(report.facts[4].key, "largest_entry");
    assert_eq!(report.safe_next_steps[1].command, "bbt --agent fs inspect -- dir/alpha");

    let file = listing_from(&pt("f"), None, Ok(stat(meta(5, FILE, 1, 1))), None, Err("unused".into()));
    assert!(file.exists && !file.is_directory);
    assert_eq!(file.entries.len(), 1);
    assert_eq!(file.entries[0].name, "f");
    let missing = listing_from(&pt("m"), None, Err(StatError::NotFound), None, Err("unused".into()));
    assert_eq!(missing.warnings, vec!["m does not exist".to_string()]);
}

struct Node {
    path: String,
    name: String,
    meta: EntryMeta,
    children: Vec<usize>,
}

fn tree_listing(nodes: &[Node], path: &PathText) -> Result<Vec<TreeItem>, String> {
    let dir = nodes.iter().find(|n| n.path == path.display).expect("known directory");
    Ok(dir
        .children
        .iter()
        .map(|&c| TreeItem::Named(NamedEntry { name: pt(&nodes[c].name), path: pt(&nodes[c].path), meta: Ok(nodes[c].meta) }))
        .collect())
}

fn run_tree(nodes: &[Node], options: TreeOptions) -> bbt::fs_tree::FsTree {
    let root = pt(&nodes[0].path);
    let mut walk = TreeWalk::start(&root, nodes[0].meta, options);
    loop {
        match walk.step() {
            TreeStep::NeedListing(p) => walk.supply_listing(tree_listing(nodes, &p)),
            TreeStep::Progress => {}
            TreeStep::Finished => break,
        }
    }
    walk.finish(&root, None)
}

fn tree_sample() -> Vec<Node> {
    vec![
        Node { path: "t".into(), name: "t".into(), meta: meta(1, DIR, 8, 4096), children: vec![1, 2, 4] },
        Node { path: "t/b".into(), name: "b".into(), meta: meta(2, FILE, 8, 4096), children: vec![] },
        Node { path: "t/a".into(), name: "a".into(), meta: meta(3, DIR, 8, 4096), children: vec![3] },
        Node { path: "t/a/big".into(), name: "big".into(), meta: meta(4, FILE, 64, 32768), children: vec![] },
        Node { path: "t/hard".into(), name: "hard".into(), meta: meta(2, FILE, 8, 4096), children: vec![] },
    ]
}

#[test]
fn tree_totals_are_recursive_and_depth_limits_reporting() {
    let nodes = tree_sample();
    let tree = run_tree(&nodes, TreeOptions::new(None, false));
    let root = tree.root.as_ref().expect("root");
    assert_eq!(root.total_bytes, 4096 * 3 + 32768);
    assert_eq!(tree.entries_seen, 5);
    let children = root.children.as_ref().expect("children");
    let names: Vec<&str> = children.iter().map(|c| c.name.as_str()).collect();
    assert_eq!(names, vec!["a", "b", "hard"]);
    assert_eq!(children[0].total_bytes, 4096 + 32768);

    let shallow = run_tree(&nodes, TreeOptions::new(Some(0), false));
    let r = shallow.root.as_ref().expect("root");
    assert_eq!(r.total_bytes, root.total_bytes);
    assert!(r.children.is_none());

    let report = tree_agent_report(&tree, "t".to_string());
    assert_eq!(report.summary, "t holds 44.0 KiB across 5 entries.");
    assert_eq!(report.facts[4].key, "largest_subtree");
    assert_eq!(report.safe_next_steps[1].command, "bbt --agent disk usage --depth 1 -- t/a");
    assert_eq!(report.safe_next_steps[2].command, "bbt --agent fs list -- t");
}

#[test]
fn tree_of_missing_root_warns() {
    let t = tree_of_unreadable_root(&pt("nope"), None, TreeOptions::default(), true, &"".to_string());
    assert!(!t.exists);
    assert_eq!(t.warnings, vec!["nope does not exist".to_string()]);
    let report = tree_agent_report(&t, "t".to_string());
    assert_eq!(report.summary, "nope does not exist.");
    assert_eq!(report.safe_next_steps.len(), 1);
}

#[test]
fn tree_depth_one_keeps_child_totals_without_grandchildren() {
    let nodes = tree_sample();
    let full = run_tree(&nodes, TreeOptions::new(None, false));
    let one = run_tree(&nodes, TreeOptions::new(Some(1), false));
    let full_root = full.root.as_ref().expect("root");
    let one_root = one.root.as_ref().expect("root");
    assert_eq!(one_root.total_bytes, full_root.total_bytes);
    assert_eq!(one.entries_seen, full.entries_seen);
    assert_eq!(one.max_depth_reached, Some(2));
    let children = one_root.children.as_ref().expect("children at depth 1");
    assert_eq!(children[0].name, "a");
    assert_eq!(children[0].total_bytes, 4096 + 32768);
    assert_eq!(children[0].entries_seen, Some(2));
    assert!(children[0].children.is_none());
    assert_eq!(children[1].entries_seen, None);
}

fn has_fact(report: &bbt::agent::AgentReport, key: &str) -> bool {
    report.facts.iter().any(|fact| fact.key == key)
}

fn all_steps_read_only(report: &bbt::agent::AgentReport) -> bool {
    report.safe_next_steps.iter().all(|step| matches!(step.risk, bbt::agent::Risk::ReadOnly))
}

/// A directory holding a 5-byte file with mode 0640, a subdirectory, a
/// symlink to the file and a dangling symlink, as `lstat` reports them.
fn mixed_listing() -> bbt::fs::FsListing {
    let root = "/tmp/fixture";
    let items = vec![
        entry("file.txt", meta(11, 0o100640, 8, 5)),
        entry("subdir", meta(12, DIR, 8, 4096)),
        entry("link", meta(13, LINK, 0, 21)),
        entry("dangling", meta(14, LINK, 0, 20)),
    ];
    listing_from(&pt(root), None, Ok(stat(meta(10, DIR, 8, 4096))), None, Ok(items))
}

#[test]
fn list_reports_missing_path_as_warning_with_exit_worthy_structure() {
    let listing = listing_from(&pt("/tmp/fixture/missing"), None, Err(StatError::NotFound), None, Err("unused".into()));

    assert!(!listing.exists);
    assert!(!listing.is_directory);
    assert_eq!(listing.entry_count, 0);
    assert!(listing.entries.is_empty());
    assert_eq!(listing.warnings.len(), 1);
    assert!(listing.warnings[0].contains("does not exist"));
}

#[test]
fn list_agent_report_carries_triage_facts_and_read_only_steps_only() {
    let listing = mixed_listing();
    let report = list_agent_report(&listing, "2026-01-01T00:00:00Z".to_string());

    assert_eq!(report.subject.domain, "fs");
    assert_eq!(report.subject.command, "list");
    for key in ["path_exists", "is_directory", "entry_count", "hidden_entry_count", "largest_entry"] {
        assert!(has_fact(&report, key), "missing fact {key}");
    }
    let largest = report.facts.iter().find(|fact| fact.key == "largest_entry").expect("largest_entry fact");
    let expected = listing.entries.iter().max_by_key(|entry| entry.size_bytes).expect("non-empty listing");
    match &largest.value {
        bbt::agent::FactValue::Object(fields) => {
            assert!(fields.iter().any(|f| f.key == "name"
                && matches!(&f.value, bbt::agent::FactValue::Text(t) if *t == expected.name)));
            assert!(fields.iter().any(|f| f.key == "size_bytes"
                && matches!(f.value, bbt::agent::FactValue::Number(n) if n == expected.size_bytes)));
        }
        _ => panic!("largest_entry is an object"),
    }
    assert!(!report.safe_next_steps.is_empty());
    assert!(all_steps_read_only(&report));
    assert!(report.risky_next_steps.is_empty());
}

#[test]
fn list_agent_report_flags_missing_path_without_error() {
    let listing = listing_from(&pt("/tmp/fixture/missing"), None, Err(StatError::NotFound), None, Err("unused".into()));
    let report = list_agent_report(&listing, "2026-01-01T00:00:00Z".to_string());

    assert!(report.summary.contains("does not exist"));
    assert!(matches!(report.severity, Severity::Warning));
    assert!(report.risky_next_steps.is_empty());
}

/// Three directory levels below the root, mixed file sizes, a symlink to a
/// directory and a dangling symlink: ten `lstat` entries in all.
fn tree_fixture() -> Vec<Node> {
    let n = |path: &str, name: &str, m: EntryMeta, children: Vec<usize>| Node {
        path: format!("/tmp/fixture{path}"),
        name: name.to_string(),
        meta: m,
        children,
    };
    vec![
        n("", "/tmp/fixture", meta(1, DIR, 8, 4096), vec![1, 2, 8, 9]),
        n("/top.txt", "top.txt", meta(2, FILE, 8, 5), vec![]),
        n("/level1", "level1", meta(3, DIR, 8, 4096), vec![3, 4]),
        n("/level1/mid.bin", "mid.bin", meta(4, FILE, 8, 4096), vec![]),
        n("/level1/level2", "level2", meta(5, DIR, 8, 4096), vec![5, 6]),
        n("/level1/level2/deep.txt", "deep.txt", meta(6, FILE, 8, 300), vec![]),
        n("/level1/level2/level3", "level3", meta(7, DIR, 8, 4096), vec![7]),
        n("/level1/level2/level3/deepest.txt", "deepest.txt", meta(8, FILE, 8, 65), vec![]),
        n("/dir-link", "dir-link", meta(9, LINK, 0, 19), vec![]),
        n("/dangling", "dangling", meta(10, LINK, 0, 20), vec![]),
    ]
}

#[test]
fn tree_reports_missing_path_as_warning() {
    let tree = tree_of_unreadable_root(&pt("/tmp/fixture/missing"), None, TreeOptions::default(), true, &"".to_string());

    assert!(!tree.exists);
    assert!(tree.root.is_none());
    assert_eq!(tree.entries_seen, 0);
    assert_eq!(tree.max_depth_reached, None);
    assert_eq!(tree.warnings.len(), 1);
    assert!(tree.warnings[0].contains("does not exist"));
}

#[test]
fn tree_agent_report_carries_triage_facts_and_read_only_steps_only() {
    let nodes = tree_fixture();
    let tree = run_tree(&nodes, TreeOptions::new(None, false));
    assert_eq!(tree.entries_seen, 10);
    let report = tree_agent_report(&tree, "2026-01-01T00:00:00Z".to_string());

    assert_eq!(report.subject.domain, "fs");
    assert_eq!(report.subject.command, "tree");
    for key in ["path_exists", "total_bytes", "entries_seen", "max_depth_reached", "largest_subtree"] {
        assert!(has_fact(&report, key), "missing fact {key}");
    }
    let largest = report.facts.iter().find(|fact| fact.key == "largest_subtree").expect("largest_subtree fact");
    match &largest.value {
        bbt::agent::FactValue::Object(fields) => {
            assert!(fields.iter().any(|f| f.key == "name"
                && matches!(&f.value, bbt::agent::FactValue::Text(t) if t == "level1")));
        }
        _ => panic!("largest_subtree is an object"),
    }
    assert!(!report.safe_next_steps.is_empty());
    assert!(all_steps_read_only(&report));
    assert!(report.risky_next_steps.is_empty());
}

#[test]
fn tree_agent_report_flags_missing_path_without_error() {
    let tree = tree_of_unreadable_root(&pt("/tmp/fixture/missing"), None, TreeOptions::default(), true, &"".to_string());
    let report = tree_agent_report(&tree, "2026-01-01T00:00:00Z".to_string());

    assert!(report.summary.contains("does not exist"));
    assert!(matches!(report.severity, Severity::Warning));
    assert!(report.risky_next_steps.is_empty());
}

fn check_closed_directory(node: &bbt::fs_tree::TreeNode) {
    if let Some(children) = &node.children {
        let total: u64 = children.iter().map(|c| c.total_bytes).sum();
        let entries: u64 = children.iter().map(|c| c.entries_seen.unwrap_or(1)).sum();
        assert_eq!(node.total_bytes, 4096 + total, "{}", node.name);
        assert_eq!(node.entries_seen, Some(1 + entries), "{}", node.name);
        let names: Vec<&str> = children.iter().map(|c| c.name.as_str()).collect();
        let mut sorted = names.clone();
        sorted.sort();
        assert_eq!(names, sorted);
        for c in children {
            check_closed_directory(c);
        }
    }
}

#[test]
fn tree_nodes_sum_their_children_in_name_order_at_every_depth() {
    let nodes = tree_fixture();
    let full = run_tree(&nodes, TreeOptions::new(None, false));
    check_closed_directory(full.root.as_ref().expect("root"));
    for d in [None, Some(0), Some(1), Some(2), Some(10)] {
        let t = run_tree(&nodes, TreeOptions::new(d, false));
        let root = t.root.as_ref().expect("root");
        assert_eq!(root.total_bytes, full.root.as_ref().unwrap().total_bytes);
        assert_eq!(t.entries_seen, 10);
        assert_eq!(root.entries_seen, Some(10));
        assert_eq!(t.max_depth_reached, Some(4));
        assert!(t.warnings.is_empty());
        assert_eq!(root.children.is_some(), d != Some(0));
    }
}
