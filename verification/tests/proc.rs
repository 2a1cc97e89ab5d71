use bbt::proc::{
    agent_report, children_of, escape_human, escape_human_argument, fill_from_stat, human_bytes,
    inspection_from, list_agent_report, list_warning, parent_from_status, parse_status,
    parse_status_kib, pid_of_name, proc_list, shell_quote, split_nul_arguments, summary_from,
    ProcSummary,
};
use bbt::agent::{FactValue, Severity};

#[test]
fn splits_proc_cmdline_preserves_interior_empty_argument() {
    let args = split_nul_arguments(b"/bin/demo\0\0--flag\0");

    assert_eq!(args, vec![b"/bin/demo".to_vec(), Vec::new(), b"--flag".to_vec()]);
}

#[test]
fn escapes_control_characters_for_human_output() {
    assert_eq!(escape_human("safe\u{1b}[31m"), "safe\\u{1b}[31m");
}

#[test]
fn parses_status_kib_as_bytes() {
    assert_eq!(parse_status_kib("123 kB"), Some(125_952));
}

#[test]
fn missing_pid_reports_warning_without_error() {
    let inspection = inspection_from(
        999_999_999,
        false,
        Err("unread".to_string()),
        Err("unread".to_string()),
        Err("unread".to_string()),
        Err("unread".to_string()),
        Err("unread".to_string()),
        Err("unread".to_string()),
    );

    assert!(!inspection.exists);
    assert!(!inspection.warnings.is_empty());
    assert_eq!(inspection.warnings, vec!["/proc/999999999 does not exist; process is not visible".to_string()]);
}

#[test]
fn cmdline_split_edge_cases() {
    assert!(split_nul_arguments(b"").is_empty());
    assert_eq!(split_nul_arguments(b"no-terminator"), vec![b"no-terminator".to_vec()]);
    assert_eq!(split_nul_arguments(b"\0"), vec![Vec::<u8>::new()]);
}

#[test]
fn escape_argument_shows_empty_as_quotes() {
    assert_eq!(escape_human_argument(""), "\"\"");
    assert_eq!(escape_human_argument("a\tb\n\"q\"\\"), "a\\tb\\n\\\"q\\\"\\\\");
    assert_eq!(escape_human("é"), "\\u{e9}");
}

#[test]
fn status_fields_parse_last_value_wins() {
    let status = "Name:\tdemo\nState:\tS (sleeping)\nPPid:\t1\nUid:\t1000\t1000\t1000\t1000\nGid:\t100 100 100 100\nThreads:\t4\nVmPeak:\t 10 kB\nVmSize:\t9 kB\nVmRSS:\t4 kB\nVmHWM:\t5 kB\nPPid:\tx\n";
    let f = parse_status(status);
    assert_eq!(f.name.as_deref(), Some("demo"));
    assert_eq!(f.state.as_deref(), Some("S (sleeping)"));
    assert_eq!(f.parent_pid, None);
    assert_eq!(f.uid, Some(1000));
    assert_eq!(f.gid, Some(100));
    assert_eq!(f.threads, Some(4));
    assert_eq!(f.vm_peak, Some(10240));
    assert_eq!(f.vm_rss, Some(4096));
    assert_eq!(parent_from_status(status), Some(1));
}

#[test]
fn stat_fills_only_missing_fields() {
    let r = fill_from_stat(&None, &None, None, "4242 (weird) name) S 1 4242 4242 0 -1\n");
    let (name, state, parent) = match r {
        Ok(t) => t,
        Err(_) => panic!("stat parses"),
    };
    assert_eq!(name.as_deref(), Some("weird) name"));
    assert_eq!(state.as_deref(), Some("S"));
    assert_eq!(parent, Some(1));
    let kept = fill_from_stat(&Some("x".to_string()), &Some("R".to_string()), Some(7), "1 (y) S 2");
    match kept {
        Ok((n, s, p)) => {
            assert_eq!(n.as_deref(), Some("x"));
            assert_eq!(s.as_deref(), Some("R"));
            assert_eq!(p, Some(7));
        }
        Err(_) => panic!("stat parses"),
    }
    match fill_from_stat(&None, &None, None, "no terminator") {
        Err(e) => assert_eq!(e, "missing comm terminator"),
        Ok(_) => panic!("a stat without ) is refused"),
    }
}

#[test]
fn inspection_assembles_fields_and_warnings_in_order() {
    let i = inspection_from(
        42,
        true,
        Ok("Name:\tdemo\nState:\tR (running)\nVmRSS:\t8 kB\n".to_string()),
        Ok("42 (demo) R 7 42".to_string()),
        Ok(b"demo\0--x\0".to_vec()),
        Err("Permission denied (os error 13)".to_string()),
        Ok("/srv".to_string()),
        Ok(vec![43, 44]),
    );
    assert!(i.exists);
    assert_eq!(i.name.as_deref(), Some("demo"));
    assert_eq!(i.state.as_deref(), Some("R (running)"));
    assert_eq!(i.parent_pid, Some(7));
    assert_eq!(i.memory.vm_rss_bytes, Some(8192));
    assert_eq!(i.command_line, vec!["demo".to_string(), "--x".to_string()]);
    assert_eq!(i.command_line_bytes_hex, vec!["64656d6f".to_string(), "2d2d78".to_string()]);
    assert_eq!(i.executable, None);
    assert_eq!(i.cwd.as_deref(), Some("/srv"));
    assert_eq!(i.child_pids, vec![43, 44]);
    assert_eq!(i.warnings, vec!["/proc/42/exe unavailable: Permission denied (os error 13)".to_string()]);
    let report = agent_report(&i, "2026-01-01T00:00:00Z".to_string());
    assert_eq!(report.summary, "PID 42 (demo) is R (running) with parent 7.");
    assert!(report.severity == Severity::Info);
    assert_eq!(report.facts.len(), 5);
    assert_eq!(report.safe_next_steps[0].command, "bbt --json proc inspect 42");
    assert_eq!(report.interpretation.len(), 1);
}

#[test]
fn children_are_found_by_parent_and_sorted() {
    let entries = vec![
        (30u32, "Name:\tc\nPPid:\t5\n".to_string()),
        (10u32, "PPid:\t5\n".to_string()),
        (20u32, "PPid:\t6\n".to_string()),
    ];
    assert_eq!(children_of(5, &entries), vec![10, 30]);
}

fn summary(pid: u32, uid: Option<u32>, state: &str, rss: Option<u64>) -> ProcSummary {
    ProcSummary {
        pid,
        parent_pid: Some(1),
        name: Some(format!("p{pid}")),
        state: Some(state.to_string()),
        uid,
        user: None,
        vm_rss_bytes: rss,
        command_line: vec![],
    }
}

#[test]
fn proc_list_sorts_by_pid_and_reports_triage_facts() {
    let list = proc_list(
        vec![
            summary(11, Some(1000), "Z (zombie)", Some(4096)),
            summary(10, Some(0), "S (sleeping)", Some(1024)),
            summary(12, Some(1000), "S (sleeping)", Some(4096)),
        ],
        vec![],
    );
    let pids: Vec<u32> = list.processes.iter().map(|p| p.pid).collect();
    assert_eq!(pids, vec![10, 11, 12]);
    assert_eq!(list.process_count, 3);
    let report = list_agent_report(&list, "2026-01-01T00:00:00Z".to_string(), Some(1000));
    assert_eq!(report.summary, "Observed 3 visible local processes.");
    assert_eq!(report.facts[0].key, "process_count");
    assert!(matches!(report.facts[1].value, FactValue::Number(2)));
    assert!(matches!(report.facts[2].value, FactValue::Number(1)));
    assert!(matches!(report.facts[3].value, FactValue::Number(1)));
    assert!(report.facts[3].severity == Severity::Warning);
    assert_eq!(report.facts[4].key, "top_rss_process");
    match &report.facts[4].value {
        FactValue::Object(fields) => assert!(matches!(fields[0].value, FactValue::Number(12))),
        _ => panic!("top process is an object"),
    }
}

#[test]
fn summary_reads_status_and_command_line() {
    let s = summary_from(7, "Name:\tdemo\nUid:\t0 0 0 0\nVmRSS:\t1 kB\n", Some(b"demo\0".to_vec()));
    assert_eq!(s.pid, 7);
    assert_eq!(s.uid, Some(0));
    assert_eq!(s.vm_rss_bytes, Some(1024));
    assert_eq!(s.command_line, vec!["demo".to_string()]);
    assert_eq!(pid_of_name("123"), Some(123));
    assert_eq!(pid_of_name("self"), None);
    assert_eq!(list_warning(7, &"gone".to_string()), "pid 7 unavailable during list: gone");
}

#[test]
fn proc_text_helpers() {
    assert_eq!(shell_quote(""), "''");
    assert_eq!(human_bytes(1536), "1.5 KiB");
}

#[test]
fn proc_list_agent_report_includes_triage_facts() {
    let list = bbt::proc::ProcList {
        processes: vec![
            ProcSummary {
                pid: 10,
                parent_pid: Some(1),
                name: Some("root-worker".to_owned()),
                state: Some("S (sleeping)".to_owned()),
                uid: Some(0),
                user: Some("root".to_owned()),
                vm_rss_bytes: Some(1024),
                command_line: vec!["root-worker".to_owned()],
            },
            ProcSummary {
                pid: 11,
                parent_pid: Some(1),
                name: Some("zombie".to_owned()),
                state: Some("Z (zombie)".to_owned()),
                uid: Some(1000),
                user: Some("user".to_owned()),
                vm_rss_bytes: Some(4096),
                command_line: vec!["zombie".to_owned()],
            },
        ],
        process_count: 2,
        warnings: Vec::new(),
    };

    let report = list_agent_report(&list, "2026-01-01T00:00:00Z".to_string(), Some(1000));

    assert!(report.facts.iter().any(|fact| fact.key == "top_rss_process"));
    assert!(report.facts.iter().any(|fact| fact.key == "zombie_process_count"));
    assert!(report.facts.iter().any(|fact| fact.key == "root_process_count"));
}
