use auditguard::monitor::{
    critical_paths, event_log_line, file_change_events, file_event_op, process_changes, usb_step,
    FileEventKind, MonitorEvent,
};

#[test]
fn process_changes_find_started_and_exited() {
    let (started, exited) = process_changes(&vec![1, 2, 3], &vec![3, 4, 1, 5]);
    assert_eq!(started, vec![4, 5]);
    assert_eq!(exited, vec![2]);
    let (s, e) = process_changes(&vec![], &vec![]);
    assert!(s.is_empty() && e.is_empty());
}

#[test]
fn replaying_changes_gives_current_processes() {
    let active = vec![10, 11, 12, 13];
    let current = vec![12, 14, 10];
    let (started, exited) = process_changes(&active, &current);
    let mut replay: Vec<u32> = active.iter().copied().filter(|p| !exited.contains(p)).collect();
    replay.extend(started);
    replay.sort();
    let mut cur = current.clone();
    cur.sort();
    assert_eq!(replay, cur);
}

#[test]
fn usb_changes_are_reported_once() {
    let (c, e) = usb_step(3, Some(4));
    assert_eq!(c, 4);
    assert!(matches!(e, Some(MonitorEvent::UsbChange { count: 4 })));
    let (c, e) = usb_step(4, Some(4));
    assert_eq!(c, 4);
    assert!(e.is_none());
    let (c, e) = usb_step(4, None);
    assert_eq!(c, 4);
    assert!(e.is_none());
    assert_eq!(usb_step(0, Some(9)).0, 9);
}

#[test]
fn file_events_name_their_kind() {
    assert_eq!(file_event_op(FileEventKind::Create), "CREATE");
    assert_eq!(file_event_op(FileEventKind::Modify), "MODIFY");
    assert_eq!(file_event_op(FileEventKind::Remove), "REMOVE");
    assert_eq!(file_event_op(FileEventKind::Other), "ACCESS");
    let evs = file_change_events(
        FileEventKind::Modify,
        &vec!["/etc/passwd".to_string(), "/etc/shadow".to_string()],
    );
    assert_eq!(evs.len(), 2);
    match &evs[1] {
        MonitorEvent::FileChange { path, op } => {
            assert_eq!(path, "/etc/shadow");
            assert_eq!(op, "MODIFY");
        }
        _ => panic!("wrong event"),
    }
    assert_eq!(critical_paths(), vec!["/etc/passwd", "/etc/shadow", "/etc/sudoers", "/etc/resolv.conf"]);
}

#[test]
fn log_lines_follow_the_event() {
    let exec = MonitorEvent::ProcessExec { pid: 4242, name: "bash".to_string(), uid: 1000 };
    assert_eq!(event_log_line("12:00:01", &exec), "[12:00:01] EXEC PID: 4242 | Name: bash | UID: 1000");
    let exit = MonitorEvent::ProcessExit { pid: 7 };
    assert_eq!(event_log_line("t", &exit), "[t] EXIT PID: 7");
    let file = MonitorEvent::FileChange { path: "/etc/hosts".to_string(), op: "REMOVE".to_string() };
    assert_eq!(event_log_line("t", &file), "[t] FILE REMOVE: /etc/hosts");
    let usb = MonitorEvent::UsbChange { count: 12 };
    assert_eq!(event_log_line("t", &usb), "[t] USB HW EVENT: Device count changed to 12");
}
