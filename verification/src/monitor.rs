//! The decisions of the live monitors: which processes started and ended,
//! when the USB device count changed, which file events to report, and the
//! log line each event becomes.

use vstd::prelude::*;
use crate::text;

verus! {

/// Something the monitors observed.
#[derive(Clone, Debug)]
pub enum MonitorEvent {
    ProcessExec { pid: u32, name: String, uid: u32 },
    ProcessExit { pid: u32 },
    FileChange { path: String, op: String },
    UsbChange { count: usize },
}

/// Whether `v` holds `pid`.
pub fn contains_pid(v: &Vec<u32>, pid: u32) -> (r: bool)
    ensures
        r == v@.contains(pid),
{
    let mut i: usize = 0;
    while i < v.len()
        invariant
            i <= v.len(),
            forall|k: int| 0 <= k < i ==> v@[k] != pid,
        decreases v.len() - i,
    {
        if v[i] == pid {
            assert(v@[i as int] == pid);
            return true;
        }
        i = i + 1;
    }
    false
}

/// The members of `v` that `other` lacks, in the order of `v`.
pub open spec fn missing_from(v: Seq<u32>, other: Seq<u32>) -> Seq<u32> {
    v.filter(|p: u32| !other.contains(p))
}

fn members_missing_from(v: &Vec<u32>, other: &Vec<u32>) -> (r: Vec<u32>)
    ensures
        r@ == missing_from(v@, other@),
{
    let ghost pred = |p: u32| !other@.contains(p);
    let mut r: Vec<u32> = Vec::new();
    let mut i: usize = 0;
    while i < v.len()
        invariant
            i <= v.len(),
            pred == (|p: u32| !other@.contains(p)),
            r@ == v@.take(i as int).filter(pred),
        decreases v.len() - i,
    {
        proof {
            reveal_with_fuel(Seq::<_>::filter, 1);
            assert(v@.take(i + 1).drop_last() =~= v@.take(i as int));
        }
        if !contains_pid(other, v[i]) {
            r.push(v[i]);
        }
        i = i + 1;
    }
    proof {
        assert(v@.take(v.len() as int) =~= v@);
    }
    r
}

/// Between two observations of the running process ids: the ids that
/// started (in `current`, not in `active`) and those that exited (in
/// `active`, not in `current`), each in the order of its observation.
pub fn process_changes(active: &Vec<u32>, current: &Vec<u32>) -> (r: (Vec<u32>, Vec<u32>))
    ensures
        r.0@ == missing_from(current@, active@),
        r.1@ == missing_from(active@, current@),
{
    let started = members_missing_from(current, active);
    let exited = members_missing_from(active, current);
    (started, exited)
}

/// The process changes account for the new observation: a process runs now
/// exactly when it ran before and did not exit, or it started.
pub proof fn lemma_process_changes_replay(active: Seq<u32>, current: Seq<u32>, pid: u32)
    ensures
        current.contains(pid) <==> (active.contains(pid) && !missing_from(active, current).contains(
            pid,
        )) || missing_from(current, active).contains(pid),
{
    let started = missing_from(current, active);
    let exited = missing_from(active, current);
    let ps = |p: u32| !active.contains(p);
    let pe = |p: u32| !current.contains(p);
    if current.contains(pid) {
        if !active.contains(pid) {
            let i = choose|i: int| 0 <= i < current.len() && current[i] == pid;
            current.lemma_filter_contains(ps, i);
        } else if exited.contains(pid) {
            let j = choose|j: int| 0 <= j < exited.len() && exited[j] == pid;
            active.lemma_filter_pred(pe, j);
        }
    } else {
        if started.contains(pid) {
            current.lemma_filter_contains_rev(ps, pid);
        }
        if active.contains(pid) {
            let i = choose|i: int| 0 <= i < active.len() && active[i] == pid;
            active.lemma_filter_contains(pe, i);
        }
    }
}

/// One poll of the USB device count: the count to remember and the event to
/// report. A poll that could not count (`None`) changes nothing; a count
/// that differs from the last one is reported and remembered.
pub fn usb_step(last_count: usize, observed: Option<usize>) -> (r: (usize, Option<MonitorEvent>))
    ensures
        match observed {
            None => r.0 == last_count && r.1 is None,
            Some(c) => r.0 == c && (if c != last_count {
                r.1 matches Some(MonitorEvent::UsbChange { count }) && count == c
            } else {
                r.1 is None
            }),
        },
{
    match observed {
        Some(count) => {
            if count != last_count {
                (count, Some(MonitorEvent::UsbChange { count }))
            } else {
                (last_count, None)
            }
        },
        None => (last_count, None),
    }
}

/// The kind of a file system event, as the file watcher reports it.
#[derive(Clone, Copy, Debug, PartialEq, Eq)]
pub enum FileEventKind {
    Create,
    Modify,
    Remove,
    Other,
}

/// The name under which a kind of file event is reported.
pub open spec fn op_name(kind: FileEventKind) -> Seq<char> {
    match kind {
        FileEventKind::Create => "CREATE"@,
        FileEventKind::Modify => "MODIFY"@,
        FileEventKind::Remove => "REMOVE"@,
        FileEventKind::Other => "ACCESS"@,
    }
}

/// The name under which a kind of file event is reported.
pub fn file_event_op(kind: FileEventKind) -> (r: &'static str)
    ensures
        r@ == op_name(kind),
{
    match kind {
        FileEventKind::Create => "CREATE",
        FileEventKind::Modify => "MODIFY",
        FileEventKind::Remove => "REMOVE",
        FileEventKind::Other => "ACCESS",
    }
}

/// The events one file system notification becomes: one per path it names,
/// in order, each with the name of its kind.
pub fn file_change_events(kind: FileEventKind, paths: &Vec<String>) -> (r: Vec<MonitorEvent>)
    ensures
        r.len() == paths.len(),
        forall|i: int|
            0 <= i < r.len() ==> (#[trigger] r@[i] matches MonitorEvent::FileChange { path, op }
                && path@ == paths@[i]@ && op@ == op_name(kind)),
{
    let op = file_event_op(kind);
    let mut r: Vec<MonitorEvent> = Vec::new();
    let mut i: usize = 0;
    while i < paths.len()
        invariant
            i <= paths.len(),
            r.len() == i,
            op@ == op_name(kind),
            forall|k: int|
                0 <= k < i ==> (#[trigger] r@[k] matches MonitorEvent::FileChange { path, op }
                    && path@ == paths@[k]@ && op@ == op_name(kind)),
        decreases paths.len() - i,
    {
        r.push(MonitorEvent::FileChange { path: paths[i].clone(), op: op.to_owned() });
        i = i + 1;
    }
    r
}

/// The files whose changes the file monitor watches.
pub fn critical_paths() -> (v: Vec<&'static str>)
    ensures
        v@ == seq!["/etc/passwd", "/etc/shadow", "/etc/sudoers", "/etc/resolv.conf"],
{
    let v = vec!["/etc/passwd", "/etc/shadow", "/etc/sudoers", "/etc/resolv.conf"];
    proof {
        assert(v@ =~= seq!["/etc/passwd", "/etc/shadow", "/etc/sudoers", "/etc/resolv.conf"]);
    }
    v
}

/// The log line of an event observed at `timestamp`.
pub open spec fn event_line(timestamp: Seq<char>, event: MonitorEvent) -> Seq<char> {
    "["@ + timestamp + match event {
        MonitorEvent::ProcessExec { pid, name, uid } => "] EXEC PID: "@ + text::decimal(
            pid as nat,
        ) + " | Name: "@ + name@ + " | UID: "@ + text::decimal(uid as nat),
        MonitorEvent::ProcessExit { pid } => "] EXIT PID: "@ + text::decimal(pid as nat),
        MonitorEvent::FileChange { path, op } => "] FILE "@ + op@ + ": "@ + path@,
        MonitorEvent::UsbChange { count } => "] USB HW EVENT: Device count changed to "@
            + text::decimal(count as nat),
    }
}

/// The log line of an event observed at `timestamp`.
pub fn event_log_line(timestamp: &str, event: &MonitorEvent) -> (s: String)
    ensures
        s@ == event_line(timestamp@, *event),
{
    let mut s = String::new();
    text::push_str(&mut s, "[");
    text::push_str(&mut s, timestamp);
    match event {
        MonitorEvent::ProcessExec { pid, name, uid } => {
            text::push_str(&mut s, "] EXEC PID: ");
            text::push_decimal(&mut s, *pid as u64);
            text::push_str(&mut s, " | Name: ");
            text::push_str(&mut s, name.as_str());
            text::push_str(&mut s, " | UID: ");
            text::push_decimal(&mut s, *uid as u64);
        },
        MonitorEvent::ProcessExit { pid } => {
            text::push_str(&mut s, "] EXIT PID: ");
            text::push_decimal(&mut s, *pid as u64);
        },
        MonitorEvent::FileChange { path, op } => {
            text::push_str(&mut s, "] FILE ");
            text::push_str(&mut s, op.as_str());
            text::push_str(&mut s, ": ");
            text::push_str(&mut s, path.as_str());
        },
        MonitorEvent::UsbChange { count } => {
            text::push_str(&mut s, "] USB HW EVENT: Device count changed to ");
            text::push_decimal(&mut s, *count as u64);
        },
    }
    proof {
        assert(s@ =~= event_line(timestamp@, *event));
    }
    s
}

} // verus!
