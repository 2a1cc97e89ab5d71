use bbt::disk::{DiskUsage, UsageChild, UsageError, UsageErrorKind, UsageKind};
use bbt::fs::{Access, FileKind, FsInspection, FsListEntry, FsListing, Group, Mode, Owner, Timestamps};
use bbt::fs_tree::{FsTree, TreeNode};
use bbt::human::{
    disk_usage_text, fs_inspect_text, fs_list_text, fs_tree_text, listeners_text, proc_inspect_text,
    proc_list_text, service_text,
};
use bbt::net::{Listener, ListenerReport};
use bbt::proc::{ProcInspection, ProcList, ProcMemory, ProcSummary};
use bbt::service::ServiceInspection;

fn node(name: &str, total: u64, children: Option<Vec<TreeNode>>) -> TreeNode {
    TreeNode {
        name: name.to_owned(),
        name_bytes_hex: String::new(),
        kind: if children.is_some() { FileKind::Directory } else { FileKind::RegularFile },
        total_bytes: total,
        apparent_bytes: total,
        entries_seen: None,
        children,
    }
}

#[test]
fn fs_inspect_lines_show_details_access_and_quoted_next_steps() {
    let inspection = FsInspection {
        path: "my file".to_owned(),
        path_bytes_hex: String::new(),
        absolute_path: None,
        canonical_path: None,
        exists: true,
        kind: FileKind::RegularFile,
        size_bytes: Some(42),
        owner: Some(Owner { uid: 1000, name: None }),
        group: Some(Group { gid: 100, name: None }),
        mode: Some(Mode { octal: "0644".to_owned(), symbolic: "-rw-r--r--".to_owned() }),
        access: Access { readable: Some(true), writable: Some(false), executable: None },
        symlink_target: None,
        timestamps: Timestamps { modified: Some("2026-01-01T00:00:00Z".to_owned()), accessed: None, changed: None, created: None },
        warnings: Vec::new(),
    };
    let expected = vec![
        "my file",
        "",
        "Type:        regular file",
        "Exists:      yes",
        "Size:        42 bytes",
        "Owner:       1000",
        "Group:       100",
        "Mode:        0644  -rw-r--r--",
        "Modified:    2026-01-01T00:00:00Z",
        "",
        "Access for current user:",
        "  Read:      yes",
        "  Write:     no",
        "  Execute:   unknown",
        "",
        "Safe next observations:",
        "  bbt fs inspect 'my file' --json",
        "  bbt fs inspect 'my file' --agent",
    ];
    assert_eq!(fs_inspect_text(&inspection), expected);
}

#[test]
fn fs_list_rows_use_the_column_widths() {
    let entry = FsListEntry {
        name: "link".to_owned(),
        name_bytes_hex: String::new(),
        kind: FileKind::Symlink,
        size_bytes: 7,
        owner: Owner { uid: 0, name: None },
        group: Group { gid: 0, name: None },
        mode: Mode { octal: "0777".to_owned(), symbolic: "lrwxrwxrwx".to_owned() },
        modified: None,
        symlink_target: Some("target".to_owned()),
    };
    let listing = FsListing {
        path: "dir".to_owned(),
        path_bytes_hex: String::new(),
        absolute_path: None,
        exists: true,
        is_directory: true,
        entry_count: 1,
        entries: vec![entry],
        warnings: vec!["cannot read a directory entry in dir: boom".to_owned()],
    };
    let lines = fs_list_text(&listing);
    let heading = format!("{:<10} {:>7} {:>7} {:>12}  {:<30}  NAME", "MODE", "OWNER", "GROUP", "SIZE", "MODIFIED");
    let row = format!(
        "{}{:<9} {:>7} {:>7} {:>12}  {:<30}  {}",
        'l', "lrwxrwxrwx", 0, 0, 7, "unknown", "link -> target"
    );
    assert_eq!(lines[0], "Directory listing: dir");
    assert_eq!(lines[2], "Entries: 1");
    assert_eq!(lines[4], heading);
    assert_eq!(lines[5], row);
    assert_eq!(lines[7], "Warnings:");
    assert_eq!(lines[8], "  cannot read a directory entry in dir: boom");
    assert_eq!(lines.last().unwrap(), "  bbt --agent fs list -- dir");
}

#[test]
fn fs_list_reports_missing_path_without_table() {
    let listing = FsListing {
        path: "gone".to_owned(),
        path_bytes_hex: String::new(),
        absolute_path: None,
        exists: false,
        is_directory: false,
        entry_count: 0,
        entries: Vec::new(),
        warnings: Vec::new(),
    };
    let lines = fs_list_text(&listing);
    assert_eq!(lines[2], "gone does not exist.");
    assert_eq!(lines[3], "");
    assert_eq!(lines[4], "Safe next observations:");
}

#[test]
fn fs_tree_draws_branches_and_continuations() {
    let root = node(
        ".",
        3072,
        Some(vec![
            node("a", 2048, Some(vec![node("x", 1024, None), node("y", 1024, None)])),
            node("b", 1024, Some(vec![node("z", 1024, None)])),
        ]),
    );
    let tree = FsTree {
        path: ".".to_owned(),
        path_bytes_hex: String::new(),
        absolute_path: None,
        exists: true,
        max_depth: Some(2),
        one_filesystem: false,
        root: Some(root),
        entries_seen: 6,
        max_depth_reached: Some(2),
        skipped_different_filesystem: 0,
        warnings: Vec::new(),
    };
    let lines = fs_tree_text(&tree);
    let expected_tail = vec![
        ".  [3.0 KiB]",
        "├── a  [2.0 KiB]",
        "│   ├── x  [1.0 KiB]",
        "│   └── y  [1.0 KiB]",
        "└── b  [1.0 KiB]",
        "    └── z  [1.0 KiB]",
        "",
        "Safe next observations:",
        "  bbt --json fs tree -- .",
        "  bbt --agent fs tree -- .",
    ];
    assert_eq!(lines[2], "Max depth:           2");
    assert_eq!(lines[4], "Total:               3.0 KiB (3072)");
    assert_eq!(lines[lines.len() - expected_tail.len()..].to_vec(), expected_tail);
}

#[test]
fn disk_usage_lines_list_children_and_errors() {
    let usage = DiskUsage {
        path: "/srv".to_owned(),
        path_bytes_hex: String::new(),
        absolute_path: None,
        exists: true,
        max_depth: None,
        one_filesystem: true,
        top_limit: 10,
        total_bytes: 4096,
        apparent_bytes: 100,
        entries_seen: 3,
        directories_seen: 1,
        files_seen: 2,
        symlinks_seen: 0,
        unreadable_entries: 1,
        skipped_different_filesystem: 0,
        largest_children: vec![UsageChild {
            path: "/srv/a".to_owned(),
            path_bytes_hex: String::new(),
            kind: UsageKind::RegularFile,
            total_bytes: 4096,
            apparent_bytes: 100,
        }],
        errors: vec![UsageError {
            path: "/srv/b".to_owned(),
            path_bytes_hex: String::new(),
            kind: UsageErrorKind::PermissionDenied,
            message: "Permission denied (os error 13)".to_owned(),
        }],
    };
    let lines = disk_usage_text(&usage);
    assert_eq!(lines[3], "Max depth:           unlimited");
    assert_eq!(lines[6], "Total:              4.0 KiB (4096)");
    let child = format!("  {:>12}  {:<12} {}", "4.0 KiB", UsageKind::RegularFile.label(), "/srv/a");
    let position = lines.iter().position(|line| line == "Largest children:").unwrap();
    assert_eq!(lines[position + 1], child);
    assert_eq!(lines[position + 3], "Errors:");
    assert_eq!(lines[position + 4], "  PermissionDenied: /srv/b (Permission denied (os error 13))");
    assert_eq!(lines.last().unwrap(), "  bbt --agent disk usage -- /srv");
}

fn summary(pid: u32) -> ProcSummary {
    ProcSummary {
        pid,
        parent_pid: if pid == 1 { None } else { Some(1) },
        name: Some("worker".to_owned()),
        state: None,
        uid: Some(0),
        user: Some("root".to_owned()),
        vm_rss_bytes: Some(2048),
        command_line: if pid == 1 { vec!["/sbin/init".to_owned(), "splash".to_owned()] } else { Vec::new() },
    }
}

#[test]
fn proc_list_shows_thirty_rows_then_the_rest_as_a_count() {
    let processes: Vec<ProcSummary> = (1..=31).map(summary).collect();
    let list = ProcList { processes, process_count: 31, warnings: Vec::new() };
    let lines = proc_list_text(&list);
    assert_eq!(lines[4], format!("{:>7} {:>7} {:<10} {:>10} COMMAND", "PID", "PPID", "USER", "RSS"));
    assert_eq!(lines[5], format!("{:>7} {:>7} {:<10} {:>10} {}", 1, "-", "root", "2.0 KiB", "/sbin/init splash"));
    assert_eq!(lines[6], format!("{:>7} {:>7} {:<10} {:>10} {}", 2, 1, "root", "2.0 KiB", "worker"));
    assert_eq!(lines[35], "... 1 more");
    assert_eq!(lines.len(), 40);
}

#[test]
fn proc_inspect_lines_escape_and_join_arguments() {
    let inspection = ProcInspection {
        pid: 7,
        exists: true,
        name: Some("tab\there".to_owned()),
        state: None,
        parent_pid: Some(1),
        child_pids: vec![8, 9],
        command_line: vec!["prog".to_owned(), String::new(), "a b".to_owned()],
        command_line_bytes_hex: Vec::new(),
        executable: Some("/bin/prog".to_owned()),
        cwd: None,
        uid: Some(1000),
        user: None,
        gid: None,
        threads: Some(3),
        memory: ProcMemory { vm_peak_bytes: None, vm_size_bytes: None, vm_rss_bytes: None, vm_hwm_bytes: None },
        warnings: vec!["cwd unavailable:\n".to_owned()],
    };
    let lines = proc_inspect_text(&inspection);
    assert_eq!(lines[0], "Process inspect: 7");
    assert_eq!(lines[3], "Name:        tab\\there");
    assert_eq!(lines[4], "State:       unknown");
    assert_eq!(lines[5], "Parent PID:  1");
    assert_eq!(lines[6], "Children:    2");
    assert_eq!(lines[7], "User:        unknown uid=1000 gid=unknown");
    assert_eq!(lines[8], "Threads:     3");
    assert_eq!(lines[9], "RSS:         unknown");
    assert_eq!(lines[10], "Executable:  /bin/prog");
    assert_eq!(lines[11], "Command:     prog \"\" a b");
    assert_eq!(lines[14], "  cwd unavailable:\\n");
    assert_eq!(lines.last().unwrap(), "  bbt --agent host snapshot");
}

#[test]
fn listener_rows_join_pids_and_processes() {
    let report = ListenerReport {
        listeners: vec![Listener {
            protocol: "tcp".to_owned(),
            address: "0.0.0.0".to_owned(),
            port: 22,
            inode: Some(1),
            pids: vec![10, 11],
            processes: vec!["sshd".to_owned(), "x".to_owned()],
        }],
        listener_count: 1,
        warnings: Vec::new(),
    };
    let lines = listeners_text(&report);
    assert_eq!(lines[4], format!("{:<6} {:<39} {:>5} {:<12} PROCESS", "PROTO", "ADDRESS", "PORT", "PIDS"));
    assert_eq!(lines[5], format!("{:<6} {:<39} {:>5} {:<12} {}", "tcp", "0.0.0.0", 22, "10,11", "sshd,x"));
}

#[test]
fn service_lines_quote_the_unit_name() {
    let inspection = ServiceInspection {
        name: "my unit".to_owned(),
        exists: false,
        load_state: Some("not-found".to_owned()),
        active_state: None,
        sub_state: None,
        unit_file_state: None,
        description: None,
        main_pid: None,
        fragment_path: None,
        exec_main_status: None,
        warnings: vec!["service my unit is not loaded or not found".to_owned()],
    };
    let lines = service_text(&inspection);
    assert_eq!(lines[0], "Service inspect: my unit");
    assert_eq!(lines[2], "Exists:       no");
    assert_eq!(lines[3], "Load state:   not-found");
    assert_eq!(lines[7], "Main PID:     none");
    assert_eq!(lines[9], "Warnings:");
    assert_eq!(lines[12], "Safe next observations:");
    assert_eq!(lines[13], "  bbt --json service inspect 'my unit'");
}
