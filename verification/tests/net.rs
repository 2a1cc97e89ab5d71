use bbt::net::{
    agent_report, escape_human, is_externally_bound, listener_report, parse_addr_port,
    socket_inode, status_name, table_listeners, table_warning, Listener, SocketOwner,
};
use bbt::agent::Severity;

#[test]
fn parses_ipv4_proc_net_address() {
    assert_eq!(parse_addr_port("0100007F:1F90", false), Some(("127.0.0.1".to_owned(), 8080)));
}

#[test]
fn parses_ipv6_proc_net_loopback_address() {
    assert_eq!(
        parse_addr_port("00000000000000000000000001000000:1F90", true),
        Some(("::1".to_owned(), 8080))
    );
}

fn ipv6_from_proc(hex: &str) -> String {
    let mut bytes = [0u8; 16];
    for k in 0..4 {
        let v = u32::from_str_radix(&hex[8 * k..8 * k + 8], 16).unwrap();
        bytes[4 * k..4 * k + 4].copy_from_slice(&v.to_le_bytes());
    }
    let seg: Vec<u16> = (0..8).map(|i| u16::from_be_bytes([bytes[2 * i], bytes[2 * i + 1]])).collect();
    if seg[..5].iter().all(|&s| s == 0) && seg[5] == 0xffff {
        return format!("::ffff:{}.{}.{}.{}", bytes[12], bytes[13], bytes[14], bytes[15]);
    }
    let (mut best, mut best_len, mut cur, mut cur_len) = (0usize, 0usize, 0usize, 0usize);
    for (i, &s) in seg.iter().enumerate() {
        if s == 0 {
            if cur_len == 0 {
                cur = i;
            }
            cur_len += 1;
            if cur_len > best_len {
                best = cur;
                best_len = cur_len;
            }
        } else {
            cur_len = 0;
        }
    }
    let join = |part: &[u16]| part.iter().map(|s| format!("{s:x}")).collect::<Vec<_>>().join(":");
    if best_len > 1 {
        format!("{}::{}", join(&seg[..best]), join(&seg[best + best_len..]))
    } else {
        join(&seg)
    }
}

#[test]
fn ipv6_text_of_known_addresses() {
    let cases = [
        ("00000000000000000000000000000000", "::"),
        ("0000000000000000FFFF00000100007F", "::ffff:127.0.0.1"),
        ("B80D0120000000000000000001000000", "2001:db8::1"),
        ("000080FE00000000FF0000000000FE00", "fe80::ff:fe:0"),
        ("01000000020000000300000004000000", "0:1:0:2:0:3:0:4"),
    ];
    for (hex, text) in cases {
        let (got, _) = parse_addr_port(&format!("{hex}:0050"), true).expect("parses");
        assert_eq!(got, text, "address {hex}");
    }
}

#[test]
fn ipv6_text_matches_std_display() {
    let samples = [
        "00000000000000000000000000000000",
        "00000000000000000000000001000000",
        "0000000000000000FFFF00000100007F",
        "B80D0120000000000000000001000000",
        "B80D0120000000000100000000000000",
        "000080FE00000000FF0000000000FE00",
        "01000000020000000300000004000000",
        "00000000010000000000000000000000",
        "B80D012000000000000000000000FFFF",
    ];
    for s in samples {
        let field = format!("{s}:0050");
        let (text, port) = parse_addr_port(&field, true).expect("parses");
        assert_eq!(port, 80);
        assert_eq!(text, ipv6_from_proc(s), "address {s}");
    }
    let mut x: u64 = 0x1234_5678_9abc_def1;
    for _ in 0..2000 {
        let mut hex = String::new();
        for _ in 0..4 {
            x ^= x << 13;
            x ^= x >> 7;
            x ^= x << 17;
            let word = if x % 3 == 0 { 0 } else { (x >> 16) as u32 & if x % 5 == 0 { 0xffff } else { 0xffff_ffff } };
            hex.push_str(&format!("{word:08X}"));
        }
        let (text, _) = parse_addr_port(&format!("{hex}:0001"), true).expect("parses");
        assert_eq!(text, ipv6_from_proc(&hex), "address {hex}");
    }
}

#[test]
fn malformed_addresses_are_refused() {
    assert_eq!(parse_addr_port("0100007F", false), None);
    assert_eq!(parse_addr_port("zz:1F90", false), None);
    assert_eq!(parse_addr_port("0100007F:10000", false), None);
    assert_eq!(parse_addr_port("0000:0050", true), None);
}

#[test]
fn wildcard_addresses_are_external() {
    assert!(is_externally_bound("0.0.0.0"));
    assert!(is_externally_bound("::"));
    assert!(!is_externally_bound("127.0.0.1"));
}

const TCP: &str = "  sl  local_address rem_address   st tx_queue rx_queue tr tm->when retrnsmt   uid  timeout inode\n   0: 00000000:0016 00000000:0000 0A 00000000:00000000 00:00000000 00000000     0        0 42 1 0000000000000000 100 0 0 10 0\n   1: 0100007F:0277 00000000:0000 01 00000000:00000000 00:00000000 00000000     0        0 43 1 0000000000000000 100 0 0 10 0\n   2: 0100007F:1F90 00000000:0000 0A 00000000:00000000 00:00000000 00000000  1000        0 44 1 0000000000000000 100 0 0 10 0\n";

#[test]
fn socket_table_keeps_listening_rows_with_their_owners() {
    let owners = vec![
        SocketOwner { inode: 42, pid: 900, name: Some("sshd".to_string()) },
        SocketOwner { inode: 42, pid: 100, name: Some("sshd".to_string()) },
        SocketOwner { inode: 44, pid: 7, name: None },
    ];
    let listeners = table_listeners(TCP, "tcp", &owners);
    assert_eq!(listeners.len(), 2);
    assert_eq!(listeners[0].address, "0.0.0.0");
    assert_eq!(listeners[0].port, 22);
    assert_eq!(listeners[0].inode, Some(42));
    assert_eq!(listeners[0].pids, vec![100, 900]);
    assert_eq!(listeners[0].processes, vec!["sshd".to_string()]);
    assert_eq!(listeners[1].port, 8080);
    assert_eq!(listeners[1].pids, vec![7]);
    assert!(listeners[1].processes.is_empty());
}

fn listener(protocol: &str, address: &str, port: u16, pids: Vec<u32>) -> Listener {
    Listener { protocol: protocol.into(), address: address.into(), port, inode: None, pids, processes: vec![] }
}

#[test]
fn listener_report_sorts_and_triages() {
    let report = listener_report(
        vec![
            listener("udp", "0.0.0.0", 53, vec![]),
            listener("tcp6", "::", 22, vec![1]),
            listener("tcp", "127.0.0.1", 8080, vec![2]),
            listener("tcp", "0.0.0.0", 22, vec![1]),
        ],
        vec![table_warning("/proc/net/udp6", &"No such file or directory (os error 2)".to_string())],
    );
    let order: Vec<(String, u16)> = report.listeners.iter().map(|l| (l.protocol.clone(), l.port)).collect();
    assert_eq!(
        order,
        vec![("tcp".to_string(), 22), ("tcp".to_string(), 8080), ("tcp6".to_string(), 22), ("udp".to_string(), 53)]
    );
    assert_eq!(report.listener_count, 4);
    let agent = agent_report(&report, "2026-01-01T00:00:00Z".to_string());
    assert!(agent.severity == Severity::Info);
    assert_eq!(agent.facts[2].key, "externally_bound_listener_count");
    assert!(matches!(agent.facts[2].value, bbt::agent::FactValue::Number(3)));
    assert!(agent.facts[2].severity == Severity::Warning);
    assert!(matches!(agent.facts[3].value, bbt::agent::FactValue::Number(3)));
    assert!(matches!(agent.facts[4].value, bbt::agent::FactValue::Number(1)));
    assert_eq!(agent.interpretation.len(), 1);
}

#[test]
fn socket_links_and_status_names() {
    assert_eq!(socket_inode("socket:[12345]"), Some(12345));
    assert_eq!(socket_inode("pipe:[12345]"), None);
    assert_eq!(socket_inode("socket:[]"), None);
    assert_eq!(status_name("Umask:\t0022\nName:\tsshd\n").as_deref(), Some("sshd"));
    assert_eq!(status_name("Name: spaced\n"), None);
    assert_eq!(escape_human("\u{7}"), "\\u{7}");
}

#[test]
fn net_agent_report_includes_external_listener_triage() {
    let report = bbt::net::ListenerReport {
        listeners: vec![Listener {
            protocol: "tcp".to_owned(),
            address: "0.0.0.0".to_owned(),
            port: 22,
            inode: Some(42),
            pids: vec![123],
            processes: vec!["sshd".to_owned()],
        }],
        listener_count: 1,
        warnings: Vec::new(),
    };

    let agent = agent_report(&report, "2026-01-01T00:00:00Z".to_string());

    assert!(agent.facts.iter().any(|fact| fact.key == "externally_bound_listener_count"));
    assert!(agent.facts.iter().any(|fact| fact.key == "privileged_listener_count"));
}

#[test]
fn listeners_with_equal_keys_keep_their_order() {
    let l = |inode: u64| Listener {
        protocol: "tcp".to_owned(),
        address: "0.0.0.0".to_owned(),
        port: 80,
        inode: Some(inode),
        pids: vec![],
        processes: vec![],
    };
    let first = Listener { port: 22, ..l(1) };
    let report = listener_report(vec![l(30), l(10), first, l(20)], Vec::new());
    let inodes: Vec<Option<u64>> = report.listeners.iter().map(|x| x.inode).collect();
    assert_eq!(inodes, vec![Some(1), Some(30), Some(10), Some(20)]);
}
