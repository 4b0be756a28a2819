use auditguard::audit::{AuditResult, HardwareStatus, ListeningPort, SysctlIssue};
use auditguard::ui::{
    listening_port_row, overview_lines, score_label, score_level, suid_file_row,
    sysctl_issue_row, visible_logs, Key, ScoreLevel, TuiApp,
};

fn result(suid: usize, ports: usize) -> AuditResult {
    AuditResult {
        score: 75,
        suid_files: (0..suid).map(|i| format!("/bin/f{}", i)).collect(),
        world_writable_files: vec![],
        sysctl_issues: vec![],
        listening_ports: (0..ports)
            .map(|i| ListeningPort { protocol: "TCP".into(), ip: "1.2.3.4".into(), port: i as u16 })
            .collect(),
        hardware: HardwareStatus {
            tpm_enabled: false,
            edac_installed: true,
            edac_errors: 5,
            usb_devices_count: 2,
            pci_devices_count: 11,
        },
    }
}

#[test]
fn new_app_starts_on_overview() {
    let app = TuiApp::new(result(1, 1));
    assert_eq!(app.active_tab, 0);
    assert!(!app.should_quit);
    assert_eq!(app.monitor_logs, vec!["System monitor initialized.".to_string()]);
    assert_eq!((app.sysctl_state, app.ports_state, app.suid_state), (Some(0), Some(0), Some(0)));
}

#[test]
fn tabs_cycle_both_ways() {
    let mut app = TuiApp::new(result(0, 0));
    for expected in [1, 2, 3, 0] {
        app.next_tab();
        assert_eq!(app.active_tab, expected);
    }
    for expected in [3, 2, 1, 0] {
        app.prev_tab();
        assert_eq!(app.active_tab, expected);
    }
}

#[test]
fn scrolling_wraps_around() {
    let mut app = TuiApp::new(result(3, 2));
    app.active_tab = 3;
    app.scroll_down();
    app.scroll_down();
    assert_eq!(app.suid_state, Some(2));
    app.scroll_down();
    assert_eq!(app.suid_state, Some(0));
    app.scroll_up();
    assert_eq!(app.suid_state, Some(2));
    app.active_tab = 2;
    app.ports_state = None;
    app.scroll_up();
    assert_eq!(app.ports_state, Some(0));
    app.active_tab = 1;
    app.sysctl_state = Some(5);
    app.scroll_down();
    assert_eq!(app.sysctl_state, Some(5));
    app.active_tab = 0;
    app.scroll_down();
    assert_eq!(app.suid_state, Some(2));
}

#[test]
fn keys_drive_the_interface() {
    let mut app = TuiApp::new(result(2, 0));
    app.handle_key(Key::Char('4'));
    assert_eq!(app.active_tab, 3);
    app.handle_key(Key::Char('j'));
    assert_eq!(app.suid_state, Some(1));
    app.handle_key(Key::Up);
    assert_eq!(app.suid_state, Some(0));
    app.handle_key(Key::Tab);
    assert_eq!(app.active_tab, 0);
    app.handle_key(Key::Char('h'));
    assert_eq!(app.active_tab, 3);
    app.handle_key(Key::Right);
    app.handle_key(Key::Char('l'));
    assert_eq!(app.active_tab, 1);
    app.handle_key(Key::Left);
    assert_eq!(app.active_tab, 0);
    app.handle_key(Key::Char('x'));
    app.handle_key(Key::Other);
    assert!(!app.should_quit);
    app.handle_key(Key::Char('q'));
    assert!(app.should_quit);
}

#[test]
fn log_keeps_the_newest_hundred_lines() {
    let mut app = TuiApp::new(result(0, 0));
    for i in 0..150 {
        app.push_log(format!("line {}", i));
    }
    assert_eq!(app.monitor_logs.len(), 100);
    assert_eq!(app.monitor_logs[0], "line 50");
    assert_eq!(app.monitor_logs[99], "line 149");
    let shown = visible_logs(&app.monitor_logs, 3);
    assert_eq!(shown, vec!["line 149", "line 148", "line 147"]);
    assert_eq!(visible_logs(&app.monitor_logs, 1000).len(), 100);
}

#[test]
fn score_levels() {
    assert_eq!(score_level(81), ScoreLevel::Good);
    assert_eq!(score_level(80), ScoreLevel::Fair);
    assert_eq!(score_level(51), ScoreLevel::Fair);
    assert_eq!(score_level(50), ScoreLevel::Poor);
    assert_eq!(score_label(75), "75/100");
}

#[test]
fn rows_are_formatted() {
    let issue = SysctlIssue {
        parameter: "kernel.kptr_restrict".into(),
        expected: "2".into(),
        actual: "0".into(),
        description: "Restricts".into(),
    };
    assert_eq!(sysctl_issue_row(&issue), " kernel.kptr_restrict | Expected: 2 | Actual: 0 | Restricts");
    let p = ListeningPort { protocol: "UDP".into(), ip: "127.0.0.1".into(), port: 53 };
    assert_eq!(listening_port_row(&p), format!(" {:<8} | {:<20} | Port: {} ", "UDP", "127.0.0.1", 53));
    let long = ListeningPort { protocol: "PROTOCOL9".into(), ip: "x".repeat(25), port: 1 };
    assert_eq!(
        listening_port_row(&long),
        format!(" {:<8} | {:<20} | Port: {} ", long.protocol, long.ip, 1)
    );
    assert_eq!(suid_file_row(&"/bin/su".to_string()), " /bin/su");
}

#[test]
fn overview_lists_counts_and_hardware() {
    let lines = overview_lines(&result(3, 2));
    assert_eq!(lines.len(), 10);
    assert_eq!(lines[0], " SUID/SGID Binary Files: 3");
    assert_eq!(lines[3], " Total Listening Network Services: 2");
    assert_eq!(lines[4], "");
    assert_eq!(lines[5], " TPM 2.0 Security State: DISABLED / NOT FOUND");
    assert_eq!(lines[6], " EDAC RAM Error Check: ACTIVE");
    assert_eq!(lines[7], " Memory Errors Logged: 5");
    assert_eq!(lines[9], " Connected PCI Devices: 11");
}
