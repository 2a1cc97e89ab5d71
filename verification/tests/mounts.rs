use bbt::mounts::{capacity, filesystem_list, is_noise_filesystem, parse_mounts, unescape_mount_field, Capacity};

#[test]
fn unescapes_mount_fields_before_statvfs_paths_need_them() {
    assert_eq!(unescape_mount_field("/mnt/with\\040space"), "/mnt/with space");
    assert_eq!(unescape_mount_field("server:/with\\134slash"), "server:/with\\slash");
}

#[test]
fn filters_pseudo_filesystem_noise() {
    assert!(is_noise_filesystem("proc"));
    assert!(is_noise_filesystem("sysfs"));
    assert!(is_noise_filesystem("cgroup2"));
    assert!(!is_noise_filesystem("ext4"));
    assert!(!is_noise_filesystem("tmpfs"));
    assert!(!is_noise_filesystem("btrfs"));
}

#[test]
fn unescape_decodes_tab_newline_and_leaves_other_escapes() {
    assert_eq!(unescape_mount_field("a\\011b\\012c\\041"), "a\tb\nc\\041");
    assert_eq!(unescape_mount_field("\\134040"), "\\040");
}

#[test]
fn mount_table_keeps_storage_and_decodes_paths() {
    let table = "proc /proc proc rw 0 0\n/dev/sda1 / ext4 rw 0 0\nshort line\ntmpfs /mnt/my\\040disk tmpfs rw 0 0\n";
    let mounts = parse_mounts(table);
    assert_eq!(mounts.len(), 2);
    assert_eq!(mounts[0].source, "/dev/sda1");
    assert_eq!(mounts[0].target, "/");
    assert_eq!(mounts[0].fstype, "ext4");
    assert_eq!(mounts[1].target, "/mnt/my disk");
}

#[test]
fn capacity_saturates_and_subtracts() {
    let c = capacity(100, 40, 4096);
    assert_eq!(c.total_bytes, 409_600);
    assert_eq!(c.available_bytes, 163_840);
    assert_eq!(c.used_bytes, 245_760);
    let big = capacity(u64::MAX, 1, 2);
    assert_eq!(big.total_bytes, u64::MAX);
    assert_eq!(big.used_bytes, u64::MAX - 2);
}

#[test]
fn filesystem_list_sorts_by_target_and_warns_on_failed_statvfs() {
    let table = "/dev/sdb1 /var ext4 rw 0 0\n/dev/sda1 / ext4 rw 0 0\n/dev/sdc1 /home xfs rw 0 0\n";
    let mounts = parse_mounts(table);
    let with_capacity: Vec<_> = mounts
        .into_iter()
        .map(|m| {
            let c: Result<Capacity, String> = if m.target == "/home" {
                Err("Permission denied (os error 13)".to_string())
            } else {
                Ok(capacity(10, 5, 1024))
            };
            (m, c)
        })
        .collect();
    let (list, warnings) = filesystem_list(with_capacity);
    let targets: Vec<&str> = list.iter().map(|f| f.target.as_str()).collect();
    assert_eq!(targets, vec!["/", "/home", "/var"]);
    assert_eq!(warnings, vec!["statvfs failed for /home: Permission denied (os error 13)".to_string()]);
    assert_eq!(list[1].total_bytes, None);
    assert_eq!(list[0].total_bytes, Some(10240));
}

fn kernel_escape(s: &str) -> String {
    let mut out = String::new();
    for c in s.chars() {
        match c {
            ' ' => out.push_str("\\040"),
            '\t' => out.push_str("\\011"),
            '\n' => out.push_str("\\012"),
            '\\' => out.push_str("\\134"),
            other => out.push(other),
        }
    }
    out
}

#[test]
fn unescaping_undoes_the_kernel_escaping() {
    assert_eq!(unescape_mount_field("server:/with\\134slash"), "server:/with\\slash");
    assert_eq!(unescape_mount_field("a\\134040b"), "a\\040b");
    for s in ["", "plain", "a b", "tab\there", "line\nbreak", "back\\slash", "\\040", "\\134\\ \t\n", "mixed \\ \\040 end"] {
        assert_eq!(unescape_mount_field(&kernel_escape(s)), s, "text {s:?}");
    }
}

#[test]
fn mounts_over_the_same_target_keep_their_table_order() {
    let table = "overlay /srv overlay rw 0 0\n/dev/sda1 / ext4 rw 0 0\n/dev/sdb1 /srv ext4 rw 0 0\ntmpfs2 /srv tmpfs rw 0 0\n";
    let mounts = parse_mounts(table);
    let with_capacity: Vec<_> = mounts.into_iter().map(|m| (m, Ok(capacity(1, 1, 1)))).collect();
    let (list, _) = filesystem_list(with_capacity);
    let sources: Vec<&str> = list.iter().map(|f| f.source.as_str()).collect();
    assert_eq!(sources, vec!["/dev/sda1", "overlay", "/dev/sdb1", "tmpfs2"]);
}
