use bbt::disk::{
    agent_report, human_bytes, shell_quote, usage_of_unreadable_root, DiskUsage, IoErrorKind,
    ListingItem, UsageKind, UsageOptions, UsageWalk, WalkStep, UsageErrorKind,
};
use bbt::entry::{EntryMeta, PathText};
use bbt::agent::{FactValue, Severity};

const DIR: u32 = 0o040755;
const FILE: u32 = 0o100644;
const LINK: u32 = 0o120777;

struct Node {
    path: String,
    meta: EntryMeta,
    children: Vec<usize>,
}

fn meta(ino: u64, mode: u32, blocks: u64, len: u64) -> EntryMeta {
    EntryMeta { dev: 1, ino, mode, blocks, len }
}

fn pt(s: &str) -> PathText {
    PathText::new(s.to_string(), s.as_bytes().to_vec())
}

fn listing(nodes: &[Node], path: &PathText) -> Result<Vec<ListingItem>, String> {
    let dir = nodes.iter().find(|n| n.path == path.display).expect("known directory");
    Ok(dir
        .children
        .iter()
        .map(|&c| ListingItem::Entry(pt(&nodes[c].path), Ok(nodes[c].meta)))
        .collect())
}

fn run_usage(nodes: &[Node], options: UsageOptions) -> DiskUsage {
    let root = pt(&nodes[0].path);
    let mut walk = UsageWalk::start(&root, Some("/abs".to_string()), nodes[0].meta, options.one_filesystem());
    loop {
        match walk.step() {
            WalkStep::NeedListing(p) => walk.supply_listing(listing(nodes, &p)),
            WalkStep::Progress => {}
            WalkStep::Finished => break,
        }
    }
    walk.finish(options)
}

/// root/{a (4096 B file), sub/{b (8192 B file)}, link -> a, hard (hard link of a)}
fn sample() -> Vec<Node> {
    vec![
        Node { path: "root".into(), meta: meta(1, DIR, 8, 4096), children: vec![1, 2, 4, 5] },
        Node { path: "root/a".into(), meta: meta(2, FILE, 8, 4096), children: vec![] },
        Node { path: "root/sub".into(), meta: meta(3, DIR, 8, 4096), children: vec![3] },
        Node { path: "root/sub/b".into(), meta: meta(4, FILE, 16, 8192), children: vec![] },
        Node { path: "root/link".into(), meta: meta(5, LINK, 0, 6), children: vec![] },
        Node { path: "root/hard".into(), meta: meta(2, FILE, 8, 4096), children: vec![] },
    ]
}

#[test]
fn usage_options_reject_depth_greater_than_one() {
    let result = UsageOptions::new(Some(2), false, 10);

    assert!(result.is_err(), "depth values above one must be rejected");
}

#[test]
fn usage_depth_error_explains_the_alternatives() {
    let error = match UsageOptions::new(Some(3), false, 10) {
        Err(e) => e,
        Ok(_) => panic!("depth 3 is refused"),
    };
    assert_eq!(error.depth(), 3);
    assert_eq!(
        error.to_string(),
        "disk usage supports depth 0 (totals only) and depth 1 (immediate children), not 3"
    );
}

#[test]
fn usage_counts_hard_links_once_and_never_follows_symlinks() {
    let nodes = sample();
    let options = UsageOptions::new(Some(1), false, 10).ok().unwrap();
    let usage = run_usage(&nodes, options);
    // root 4096 + a 4096 + sub 4096 + b 8192 + link 0; the hard link adds nothing.
    assert_eq!(usage.total_bytes, 4096 * 3 + 8192);
    assert_eq!(usage.apparent_bytes, 4096 * 3 + 8192 + 6);
    assert_eq!(usage.entries_seen, 6);
    assert_eq!(usage.directories_seen, 2);
    assert_eq!(usage.symlinks_seen, 1);
    assert!(usage.exists);
    assert_eq!(usage.absolute_path.as_deref(), Some("/abs"));
}

#[test]
fn usage_largest_children_are_ordered_and_limited() {
    let nodes = sample();
    let options = UsageOptions::new(Some(1), false, 2).ok().unwrap();
    let usage = run_usage(&nodes, options);
    assert_eq!(usage.largest_children.len(), 2);
    assert_eq!(usage.largest_children[0].path, "root/sub");
    assert_eq!(usage.largest_children[0].total_bytes, 4096 + 8192);
    assert!(usage.largest_children[0].kind == UsageKind::Directory);
    assert!(usage.largest_children[1].total_bytes <= usage.largest_children[0].total_bytes);
}

#[test]
fn usage_depth_zero_keeps_full_totals_without_children() {
    let nodes = sample();
    let options = UsageOptions::new(Some(0), false, 10).ok().unwrap();
    let usage = run_usage(&nodes, options);
    assert_eq!(usage.total_bytes, 4096 * 3 + 8192);
    assert!(usage.largest_children.is_empty());
}

#[test]
fn usage_skips_a_revisited_directory() {
    let mut nodes = sample();
    // sub/again is the same directory as sub (a bind mount seen twice).
    nodes.push(Node { path: "root/sub/again".into(), meta: meta(3, DIR, 8, 4096), children: vec![3] });
    nodes[2].children.push(6);
    let options = UsageOptions::new(None, false, 10).ok().unwrap();
    let usage = run_usage(&nodes, options);
    assert_eq!(usage.total_bytes, 4096 * 3 + 8192);
    assert!(usage.errors.iter().any(|e| e.kind == UsageErrorKind::DirectoryCycle));
}

#[test]
fn usage_of_a_missing_root_reports_without_failing() {
    let options = UsageOptions::new(None, false, 10).ok().unwrap();
    let usage = usage_of_unreadable_root(
        &pt("/nope"),
        None,
        options,
        IoErrorKind::NotFound,
        &"No such file or directory (os error 2)".to_string(),
    );
    assert!(!usage.exists);
    assert_eq!(usage.unreadable_entries, 1);
    assert!(usage.errors[0].kind == UsageErrorKind::NotFound);
    let report = agent_report(&usage, "2026-01-01T00:00:00Z".to_string());
    assert!(report.severity == Severity::Warning);
    assert_eq!(report.summary, "/nope does not exist or cannot be inspected.");
    assert_eq!(report.interpretation.len(), 1);
}

#[test]
fn usage_agent_report_names_the_largest_child() {
    let nodes = sample();
    let options = UsageOptions::new(Some(1), false, 10).ok().unwrap();
    let usage = run_usage(&nodes, options);
    let report = agent_report(&usage, "2026-01-01T00:00:00Z".to_string());
    assert_eq!(report.summary, "root uses 20.0 KiB across 6 entries.");
    assert!(report.severity == Severity::Normal);
    assert_eq!(report.facts.len(), 4);
    assert_eq!(report.facts[3].key, "largest_child");
    match &report.facts[1].value {
        FactValue::Number(n) => assert_eq!(*n, 20480),
        _ => panic!("total bytes is a number"),
    }
    assert_eq!(report.safe_next_steps.len(), 3);
    assert_eq!(report.safe_next_steps[0].command, "bbt --json disk usage -- root");
    assert_eq!(report.safe_next_steps[2].command, "bbt --agent disk usage --depth 1 -- root/sub");
    assert!(report.risky_next_steps.is_empty());
}

fn float_human_bytes(bytes: u64) -> String {
    const UNITS: [&str; 5] = ["B", "KiB", "MiB", "GiB", "TiB"];
    let mut value = bytes as f64;
    let mut unit = 0;
    while value >= 1024.0 && unit < UNITS.len() - 1 {
        value /= 1024.0;
        unit += 1;
    }
    if unit == 0 {
        format!("{} {}", bytes, UNITS[unit])
    } else {
        format!("{value:.1} {}", UNITS[unit])
    }
}

#[test]
fn human_bytes_matches_float_formatting() {
    let mut samples: Vec<u64> = vec![
        0, 1, 512, 1023, 1024, 1025, 1536, 1587, 1588, 10_240, 1_048_575, 1_048_576, 1_572_864,
        5_000_000_000, 1_099_511_627_775, 1_099_511_627_776, 1_125_899_906_842_624,
        9_007_199_254_740_993, u64::MAX - 1, u64::MAX,
    ];
    let mut x: u64 = 0x9E37_79B9_7F4A_7C15;
    for _ in 0..20_000 {
        x ^= x << 13;
        x ^= x >> 7;
        x ^= x << 17;
        samples.push(x >> (x % 64));
        samples.push(x % 10_000_000);
    }
    for k in 1..6u32 {
        let base = 1024u64.pow(k);
        for m in [1u64, 2, 3, 5, 10, 20, 51, 102, 1000, 1023] {
            let v = base.saturating_mul(m);
            for d in [0u64, 1, base / 20, base / 20 + 1, base / 10] {
                samples.push(v.saturating_add(d));
                samples.push(v.saturating_sub(d));
            }
        }
    }
    for v in samples {
        assert_eq!(bbt::fs::human_bytes(v), float_human_bytes(v), "bytes {v}");
    }
    assert_eq!(bbt::fs::human_bytes(95276), "93.0 KiB");
    assert_eq!(bbt::fs::human_bytes(135168), "132.0 KiB");
}

#[test]
fn disk_human_bytes_round_up_to_the_tenth() {
    assert_eq!(human_bytes(1234567890), "1.2 GiB");
    assert_eq!(human_bytes(1134567890), "1.1 GiB");
    assert_eq!(human_bytes(900 * 1024 * 1024), "900.0 MiB");
    assert_eq!(human_bytes(60 * 1024 * 1024), "60.0 MiB");
    assert_eq!(human_bytes(1023), "1023 B");
    assert_eq!(human_bytes(1024), "1.0 KiB");
    assert_eq!(human_bytes(1025), "1.1 KiB");
    assert_eq!(human_bytes(1_048_575), "1024.0 KiB");
    assert_eq!(human_bytes(u64::MAX), "16777216.0 TiB");
}

#[test]
fn disk_shell_quote_quotes_empty_and_unsafe_paths() {
    assert_eq!(shell_quote(""), "''");
    assert_eq!(shell_quote("/var/log"), "/var/log");
    assert_eq!(shell_quote("it's here"), "'it'\\''s here'");
}

#[test]
fn lib_reports_missing_path_without_error() {
    let missing = pt("/tmp/fixture/missing");
    let options = UsageOptions::new(None, false, 10).ok().unwrap();
    let usage = usage_of_unreadable_root(
        &missing,
        None,
        options,
        IoErrorKind::NotFound,
        &"No such file or directory (os error 2)".to_string(),
    );
    assert!(!usage.exists);
    assert_eq!(usage.total_bytes, 0);
    assert_eq!(usage.errors[0].kind, UsageErrorKind::NotFound);

    let gone = pt("/tmp/fixture/missing.txt");
    let inspected = bbt::fs_records::inspection_from(
        &gone,
        None,
        Err(bbt::fs_records::StatError::NotFound),
        None,
        None,
        bbt::fs::Access::default(),
    );
    assert!(!inspected.exists);
    assert!(inspected.kind == bbt::fs::FileKind::Missing);
    assert_eq!(inspected.path, "/tmp/fixture/missing.txt");
}

/// How a POSIX shell reads one word made of literal characters, backslash
/// escapes and single-quoted parts; `None` for anything else.
fn read_one_word(t: &str) -> Option<String> {
    let c: Vec<char> = t.chars().collect();
    let mut out = String::new();
    let mut i = 0;
    let mut quoted = false;
    while i < c.len() {
        if quoted {
            if c[i] == '\'' { quoted = false; } else { out.push(c[i]); }
            i += 1;
        } else if c[i] == '\'' {
            quoted = true;
            i += 1;
        } else if c[i] == '\\' {
            if i + 1 >= c.len() || c[i + 1] == '\n' { return None; }
            out.push(c[i + 1]);
            i += 2;
        } else if c[i].is_ascii_alphanumeric() || "/._-:@".contains(c[i]) {
            out.push(c[i]);
            i += 1;
        } else {
            return None;
        }
    }
    if quoted || t.is_empty() { None } else { Some(out) }
}

#[test]
fn quoted_arguments_read_back_as_one_word() {
    assert_eq!(shell_quote("it's"), "'it'\\''s'");
    for v in ["", "it's", "a b", "/var/log", "$(rm -rf /)", "''", "x\\y", "tab\tend", "new\nline", "ünï"] {
        assert_eq!(read_one_word(&shell_quote(v)).as_deref(), Some(v), "value {v:?}");
    }
}
