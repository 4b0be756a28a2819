use auditguard::audit::{
    audit_network_ports, check_hardware_status, check_sysctl_security, collect_listening_ports,
    count_unprivileged, edac_error_total, parse_proc_net_address, run_security_audit,
    scan_suid_sgid, sysctl_checks, EntryInfo, HardwareStatus, ListeningPort, SysctlIssue,
    WritableWalk, MAX_WALK_DIRS,
};

fn port(p: u16) -> ListeningPort {
    ListeningPort { protocol: "TCP".to_string(), ip: "0.0.0.0".to_string(), port: p }
}

fn hardware() -> HardwareStatus {
    HardwareStatus {
        tpm_enabled: true,
        edac_installed: false,
        edac_errors: 0,
        usb_devices_count: 3,
        pci_devices_count: 7,
    }
}

fn issue(name: &str) -> SysctlIssue {
    SysctlIssue {
        parameter: name.to_string(),
        expected: "1".to_string(),
        actual: "0".to_string(),
        description: "d".to_string(),
    }
}

#[test]
fn parses_loopback_address() {
    let p = parse_proc_net_address("0100007F:0016", "TCP").unwrap();
    assert_eq!(p.protocol, "TCP");
    assert_eq!(p.ip, "127.0.0.1");
    assert_eq!(p.port, 22);
}

#[test]
fn parses_address_bytes_little_endian() {
    let p = parse_proc_net_address("0F02000A:1F90", "UDP").unwrap();
    assert_eq!(p.ip, "10.0.2.15");
    assert_eq!(p.port, 8080);
    assert_eq!(p.protocol, "UDP");
    let q = parse_proc_net_address("ffffffff:FFFF", "TCP").unwrap();
    assert_eq!(q.ip, "255.255.255.255");
    assert_eq!(q.port, 65535);
}

#[test]
fn accepts_plus_signs_as_from_str_radix_does() {
    let p = parse_proc_net_address("+100007F:+16", "TCP").unwrap();
    assert_eq!(p.ip, "127.0.0.1");
    assert_eq!(p.port, 22);
}

#[test]
fn rejects_malformed_addresses() {
    assert!(parse_proc_net_address("0100007F", "TCP").is_none());
    assert!(parse_proc_net_address("0100007F:0016:01", "TCP").is_none());
    assert!(parse_proc_net_address("0100007F:", "TCP").is_none());
    assert!(parse_proc_net_address("0100007F:+", "TCP").is_none());
    assert!(parse_proc_net_address("0100007F:10000", "TCP").is_none());
    assert!(parse_proc_net_address("0100007:0016", "TCP").is_none());
    assert!(parse_proc_net_address("00000000000000000000000001000000:0016", "TCP").is_none());
    assert!(parse_proc_net_address("0100G07F:0016", "TCP").is_none());
    assert!(parse_proc_net_address("-100007F:0016", "TCP").is_none());
    assert!(parse_proc_net_address("", "TCP").is_none());
}

#[test]
fn reads_listening_sockets_from_tables() {
    let tcp: Vec<Option<String>> = [
        "  sl  local_address rem_address   st tx_queue",
        "   0: 0100007F:0016 00000000:0000 0A 00000000:00000000",
        "   1: 0100007F:0017 0200007F:1234 01 00000000:00000000",
        "   2: 00000000:1F90 00000000:0000 0A",
        "   3: 00000000:1F91",
        "   4: zz:1F91 00000000:0000 0A",
    ]
    .iter()
    .map(|l| Some(l.to_string()))
    .collect();
    let udp = vec![
        Some("  sl  local_address rem_address   st".to_string()),
        None,
        Some("\t5:\u{a0}0100007F:0035 00000000:0000 07\r".to_string()),
    ];
    let mut ports = vec![port(1)];
    audit_network_ports(&tcp, &udp, &mut ports);
    assert_eq!(ports.len(), 4);
    assert_eq!(ports[0].port, 1);
    assert_eq!((ports[1].protocol.as_str(), ports[1].ip.as_str(), ports[1].port), ("TCP", "127.0.0.1", 22));
    assert_eq!((ports[2].protocol.as_str(), ports[2].ip.as_str(), ports[2].port), ("TCP", "0.0.0.0", 8080));
    assert_eq!((ports[3].protocol.as_str(), ports[3].ip.as_str(), ports[3].port), ("UDP", "127.0.0.1", 53));
}

#[test]
fn header_line_is_never_read() {
    let lines = vec![Some("0: 0100007F:0016 00000000:0000 0A".to_string())];
    let mut ports = Vec::new();
    collect_listening_ports(&lines, "0A", "TCP", &mut ports);
    assert!(ports.is_empty());
    collect_listening_ports(&Vec::new(), "0A", "TCP", &mut ports);
    assert!(ports.is_empty());
    let unreadable_header = vec![None, Some("0: 0100007F:0016 00000000:0000 0A".to_string())];
    collect_listening_ports(&unreadable_header, "0A", "TCP", &mut ports);
    assert_eq!(ports.len(), 1);
}

#[test]
fn clean_system_scores_full_marks() {
    let r = run_security_audit(vec![], vec![], vec![], vec![port(22), port(80)], hardware());
    assert_eq!(r.score, 100);
    assert_eq!(r.listening_ports.len(), 2);
    assert_eq!(r.hardware.pci_devices_count, 7);
}

#[test]
fn every_penalty_applies() {
    let suid: Vec<String> = (0..21).map(|i| format!("/bin/s{}", i)).collect();
    let ports: Vec<ListeningPort> = (0..6).map(|i| port(2000 + i)).collect();
    let r = run_security_audit(
        suid,
        vec!["/etc/x".to_string()],
        vec![issue("a"), issue("b")],
        ports,
        hardware(),
    );
    assert_eq!(r.score, 100 - 10 - 20 - 30 - 10);
    assert_eq!(r.suid_files.len(), 21);
    assert_eq!(r.world_writable_files, vec!["/etc/x".to_string()]);
    assert_eq!(r.sysctl_issues.len(), 2);
}

#[test]
fn penalty_thresholds_are_strict() {
    let suid: Vec<String> = (0..20).map(|i| format!("/bin/s{}", i)).collect();
    let mut ports: Vec<ListeningPort> = (0..5).map(|i| port(1025 + i)).collect();
    ports.push(port(1024));
    ports.push(port(443));
    assert_eq!(count_unprivileged(&ports), 5);
    let r = run_security_audit(suid, vec![], vec![], ports, hardware());
    assert_eq!(r.score, 100);
}

#[test]
fn score_saturates_at_zero() {
    let issues: Vec<SysctlIssue> = (0..7).map(|i| issue(&format!("p{}", i))).collect();
    let r = run_security_audit(vec![], vec!["/tmp/w".to_string()], issues, vec![], hardware());
    assert_eq!(r.score, 0);
}

#[test]
fn sysctl_table_is_complete() {
    let checks = sysctl_checks();
    assert_eq!(checks.len(), 5);
    assert_eq!(checks[0].path, "/proc/sys/fs/protected_symlinks");
    assert_eq!(checks[2].parameter, "kernel.kptr_restrict");
    assert_eq!(checks[2].expected, "2");
    assert_eq!(checks[4].path, "/proc/sys/kernel/yama/ptrace_scope");
    assert_eq!(checks[3].description, "Enables Address Space Layout Randomization (ASLR).");
}

#[test]
fn sysctl_issues_for_differing_values() {
    let readings = vec![
        Some("1\n".to_string()),
        Some("0\n".to_string()),
        None,
        Some(" 1 \n".to_string()),
        Some("2".to_string()),
    ];
    let mut issues = vec![issue("earlier")];
    check_sysctl_security(&readings, &mut issues);
    assert_eq!(issues.len(), 4);
    assert_eq!(issues[0].parameter, "earlier");
    assert_eq!(issues[1].parameter, "fs.protected_hardlinks");
    assert_eq!(issues[1].expected, "1");
    assert_eq!(issues[1].actual, "0");
    assert_eq!(issues[1].description, "Protects hardlink creation permissions.");
    assert_eq!(issues[2].parameter, "kernel.randomize_va_space");
    assert_eq!(issues[2].actual, "1");
    assert_eq!(issues[3].parameter, "kernel.yama.ptrace_scope");
    assert_eq!(issues[3].expected, "1");
    assert_eq!(issues[3].actual, "2");
}

#[test]
fn hardened_values_raise_no_issue() {
    let readings: Vec<Option<String>> =
        sysctl_checks().iter().map(|c| Some(format!("{}\n", c.expected))).collect();
    let mut issues = Vec::new();
    check_sysctl_security(&readings, &mut issues);
    assert!(issues.is_empty());
}

fn entry(path: &str, is_dir: bool, is_file: bool, mode: u32) -> EntryInfo {
    EntryInfo { path: path.to_string(), is_dir, is_file, mode }
}

#[test]
fn set_id_files_are_listed() {
    let entries = vec![
        entry("/usr/bin/passwd", false, true, 0o104755),
        entry("/usr/bin/ls", false, true, 0o100755),
        entry("/usr/bin/wall", false, true, 0o102755),
        entry("/usr/bin/sticky", false, true, 0o101755),
    ];
    let mut list = vec!["/bin/su".to_string()];
    scan_suid_sgid(&entries, &mut list);
    assert_eq!(list, vec!["/bin/su", "/usr/bin/passwd", "/usr/bin/wall"]);
}

#[test]
fn walk_finds_world_writable_files_and_skips_tmp() {
    let mut walk = WritableWalk::new("/etc".to_string());
    let mut found = Vec::new();
    assert_eq!(walk.next_dir().as_deref(), Some("/etc"));
    walk.visit(
        &vec![
            entry("/etc/open", false, true, 0o100666),
            entry("/etc/closed", false, true, 0o100644),
            entry("/etc/sub", true, false, 0o040777),
            entry("/etc/link", false, false, 0o120777),
        ],
        &mut found,
    );
    assert_eq!(walk.next_dir().as_deref(), Some("/etc/sub"));
    walk.visit(&vec![entry("/etc/sub/w", false, true, 0o100602)], &mut found);
    assert_eq!(walk.next_dir(), None);
    assert_eq!(found, vec!["/etc/open", "/etc/sub/w"]);

    let mut tmp = WritableWalk::new("/tmp".to_string());
    assert_eq!(tmp.next_dir().as_deref(), Some("/tmp"));
    tmp.visit(
        &vec![entry("/tmp/dir", true, false, 0o040777), entry("/tmpfoo", true, false, 0o040755)],
        &mut found,
    );
    assert_eq!(tmp.next_dir().as_deref(), Some("/tmpfoo"));
    assert_eq!(tmp.next_dir(), None);
}

#[test]
fn walk_stops_after_limit() {
    let mut walk = WritableWalk::new("/opt".to_string());
    let mut found = Vec::new();
    let mut read = 0;
    while let Some(dir) = walk.next_dir() {
        read += 1;
        let child = format!("{}/d", dir);
        walk.visit(&vec![entry(&child, true, false, 0o040755)], &mut found);
    }
    assert_eq!(read, MAX_WALK_DIRS);
    assert_eq!(walk.next_dir(), None);
}

#[test]
fn edac_counters_are_summed() {
    let readings = vec![
        Some("3\n".to_string()),
        Some(" 4 ".to_string()),
        None,
        Some("junk".to_string()),
        Some("+5".to_string()),
    ];
    assert_eq!(edac_error_total(&readings), Some(12));
    let h = check_hardware_status(false, true, &readings, 2, 9);
    assert!(!h.tpm_enabled);
    assert!(h.edac_installed);
    assert_eq!(h.edac_errors, 12);
    assert_eq!(h.usb_devices_count, 2);
    assert_eq!(h.pci_devices_count, 9);
    let off = check_hardware_status(true, false, &readings, 0, 0);
    assert_eq!(off.edac_errors, 0);
}

#[test]
fn edac_total_overflow_is_reported() {
    let readings = vec![Some("18446744073709551615".to_string()), Some("1".to_string())];
    assert_eq!(edac_error_total(&readings), None);
    let too_big = vec![Some("18446744073709551616".to_string())];
    assert_eq!(edac_error_total(&too_big), Some(0));
}
