use bbt::host::{hostname_from, human_bytes, memory_counts, os_info, parse_cpu_info, parse_os_release};

#[test]
fn parses_os_release_values() {
    let parsed = parse_os_release("PRETTY_NAME=\"Demo Linux\"\nID=demo\n");

    assert_eq!(parsed.get("PRETTY_NAME"), Some("Demo Linux".to_owned()));
    assert_eq!(parsed.get("ID"), Some("demo".to_owned()));
}

#[test]
fn parses_cpu_info_summary() {
    let cpu = match parse_cpu_info(
        "processor : 0\nvendor_id : GenuineIntel\nmodel name : Demo CPU\ncpu MHz : 2400.000\nprocessor : 1\n",
        0,
    ) {
        Ok(cpu) => cpu,
        Err(e) => panic!("cpu info: {e}"),
    };

    assert_eq!(cpu.logical_cpus, 2);
    assert_eq!(cpu.vendor_id, Some("GenuineIntel".to_owned()));
    assert_eq!(cpu.model_name, Some("Demo CPU".to_owned()));
    assert_eq!(cpu.cpu_mhz.map(|t| t.parse::<f64>().unwrap()), Some(2400.0));
}

#[test]
fn cpu_info_falls_back_and_refuses_zero() {
    match parse_cpu_info("model name : X\n", 8) {
        Ok(cpu) => assert_eq!(cpu.logical_cpus, 8),
        Err(_) => panic!("fallback applies"),
    }
    match parse_cpu_info("", 0) {
        Err(e) => assert_eq!(e, "no CPUs found in /proc/cpuinfo"),
        Ok(_) => panic!("no processors"),
    }
    match parse_cpu_info("processor : 0\ncpu MHz : fast\ncpu MHz : 1.5e3\n", 0) {
        Ok(cpu) => assert_eq!(cpu.cpu_mhz.as_deref(), Some("1.5e3")),
        Err(_) => panic!("one processor"),
    }
}

#[test]
fn os_release_skips_comments_and_trims_quotes() {
    let info = os_info(Some("# comment\n  ID=\"\"ubuntu\"\"  \nVERSION_ID=24.04\nID=debian\nbroken\n".to_string()));
    assert_eq!(info.id.as_deref(), Some("debian"));
    assert_eq!(info.version_id.as_deref(), Some("24.04"));
    assert_eq!(info.pretty_name, None);
    let none = os_info(None);
    assert_eq!(none.id, None);
}

#[test]
fn meminfo_reads_kib_as_bytes() {
    let m = memory_counts("MemTotal:       16000 kB\nMemFree:  1000 kB\nMemAvailable:   4000 kB\nBogus: x kB\n");
    assert_eq!(m.total_bytes, 16000 * 1024);
    assert_eq!(m.free_bytes, Some(1000 * 1024));
    assert_eq!(m.available_bytes, Some(4000 * 1024));
    assert_eq!(m.used_bytes, Some(12000 * 1024));
    let empty = memory_counts("");
    assert_eq!(empty.total_bytes, 0);
    assert_eq!(empty.used_bytes, None);
}

#[test]
fn hostname_is_trimmed_with_fallback() {
    assert_eq!(hostname_from(Some("box\n".to_string())), "box");
    assert_eq!(hostname_from(Some("  \n".to_string())), "unknown");
    assert_eq!(hostname_from(None), "unknown");
    assert_eq!(human_bytes(1024 * 1024), "1.0 MiB");
}
