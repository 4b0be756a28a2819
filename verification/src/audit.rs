//! The audit's findings, its score and the rules that turn what was read from
//! the system into findings.

use vstd::prelude::*;
use crate::path;
use crate::text;

verus! {

/// Everything one audit found, with the score it earned.
#[derive(Clone, Debug)]
pub struct AuditResult {
    pub score: u32,
    pub suid_files: Vec<String>,
    pub world_writable_files: Vec<String>,
    pub sysctl_issues: Vec<SysctlIssue>,
    pub listening_ports: Vec<ListeningPort>,
    pub hardware: HardwareStatus,
}

/// Hardware security features and device counts.
#[derive(Clone, Copy, Debug)]
pub struct HardwareStatus {
    pub tpm_enabled: bool,
    pub edac_installed: bool,
    pub edac_errors: u64,
    pub usb_devices_count: usize,
    pub pci_devices_count: usize,
}

/// A kernel parameter whose value differs from the hardened one.
#[derive(Clone, Debug)]
pub struct SysctlIssue {
    pub parameter: String,
    pub expected: String,
    pub actual: String,
    pub description: String,
}

/// The mathematical value of a [`SysctlIssue`].
pub struct SysctlIssueView {
    pub parameter: Seq<char>,
    pub expected: Seq<char>,
    pub actual: Seq<char>,
    pub description: Seq<char>,
}

impl View for SysctlIssue {
    type V = SysctlIssueView;

    open spec fn view(&self) -> SysctlIssueView {
        SysctlIssueView {
            parameter: self.parameter@,
            expected: self.expected@,
            actual: self.actual@,
            description: self.description@,
        }
    }
}

/// The views of a sequence of issues.
pub open spec fn issue_views(v: Seq<SysctlIssue>) -> Seq<SysctlIssueView> {
    v.map_values(|i: SysctlIssue| i@)
}

/// `a - b`, or 0 where that would be negative (`u32::saturating_sub`).
pub open spec fn sat_sub(a: int, b: int) -> int {
    if a >= b {
        a - b
    } else {
        0
    }
}

/// A port above 1024, which an unprivileged process may bind.
pub open spec fn is_unprivileged(p: PortView) -> bool {
    p.port > 1024
}

/// Ports 1025 and above count as unprivileged; 1024 and below never do, and
/// one more port adds to the count exactly when it is above 1024.
pub proof fn lemma_unprivileged_threshold(ports: Seq<PortView>, p: PortView)
    ensures
        unprivileged(ports.push(p)).len() == unprivileged(ports).len() + (if p.port >= 1025 {
            1int
        } else {
            0
        }),
{
    reveal_with_fuel(Seq::<_>::filter, 1);
    assert(ports.push(p).drop_last() =~= ports);
}

/// The ports of `ports` above 1024, in order.
pub open spec fn unprivileged(ports: Seq<PortView>) -> Seq<PortView> {
    ports.filter(|p: PortView| is_unprivileged(p))
}

/// The health score: 100, less 10 for more than 20 set-user/group-ID files,
/// less 20 for any world-writable file, less 15 for each sysctl issue (the
/// count taken as a `u32`), less 10 for more than 5 unprivileged listening ports
/// (the count taken as a `u32`); never below 0.
pub open spec fn audit_score(
    suid_count: nat,
    any_world_writable: bool,
    sysctl_count: nat,
    unprivileged_count: nat,
) -> int {
    let s1: int = if suid_count > 20 {
        90
    } else {
        100
    };
    let s2 = if any_world_writable {
        sat_sub(s1, 20)
    } else {
        s1
    };
    let s3 = sat_sub(s2, (sysctl_count as u32) * 15);
    if (unprivileged_count as u32) > 5 {
        sat_sub(s3, 10)
    } else {
        s3
    }
}

/// The score lies between 0 and 100.
pub proof fn lemma_score_in_range(
    suid_count: nat,
    any_world_writable: bool,
    sysctl_count: nat,
    unprivileged_count: nat,
)
    ensures
        0 <= audit_score(suid_count, any_world_writable, sysctl_count, unprivileged_count) <= 100,
{
}

/// The score is 100 exactly when no finding costs points: at most 20
/// set-user/group-ID files, no world-writable file, no sysctl issue and at most
/// 5 unprivileged listening ports.
pub proof fn lemma_full_score(
    suid_count: nat,
    any_world_writable: bool,
    sysctl_count: nat,
    unprivileged_count: nat,
)
    requires
        sysctl_count <= u32::MAX,
        unprivileged_count <= u32::MAX,
    ensures
        (audit_score(suid_count, any_world_writable, sysctl_count, unprivileged_count) == 100) <==> (
        suid_count <= 20 && !any_world_writable && sysctl_count == 0 && unprivileged_count <= 5),
{
}

/// More findings never raise the score: the score is antitone in each count
/// and in the presence of world-writable files.
pub proof fn lemma_score_antitone(
    suid1: nat,
    ww1: bool,
    sysctl1: nat,
    unpriv1: nat,
    suid2: nat,
    ww2: bool,
    sysctl2: nat,
    unpriv2: nat,
)
    requires
        suid1 <= suid2,
        ww1 ==> ww2,
        sysctl1 <= sysctl2 <= u32::MAX,
        unpriv1 <= unpriv2 <= u32::MAX,
    ensures
        audit_score(suid2, ww2, sysctl2, unpriv2) <= audit_score(suid1, ww1, sysctl1, unpriv1),
{
}

/// Each kind of finding costs its own fixed amount, independently of the
/// others: more than 20 set-ID files cost 10, any world-writable file 20, each
/// sysctl issue 15 and more than 5 unprivileged ports 10; the score is 100
/// less the sum of the costs, and 0 when they reach 100.
pub proof fn lemma_score_is_sum_of_costs(
    suid_count: nat,
    any_world_writable: bool,
    sysctl_count: nat,
    unprivileged_count: nat,
)
    requires
        sysctl_count <= u32::MAX,
        unprivileged_count <= u32::MAX,
    ensures
        ({
            let cost = (if suid_count > 20 {
                10int
            } else {
                0
            }) + (if any_world_writable {
                20int
            } else {
                0
            }) + 15 * sysctl_count + (if unprivileged_count > 5 {
                10int
            } else {
                0
            });
            audit_score(suid_count, any_world_writable, sysctl_count, unprivileged_count) == if cost
                >= 100 {
                0
            } else {
                100 - cost
            }
        }),
{
}

/// The number of listening ports above 1024.
pub fn count_unprivileged(ports: &Vec<ListeningPort>) -> (n: usize)
    ensures
        n == unprivileged(port_views(ports@)).len(),
{
    let ghost pv = port_views(ports@);
    let ghost pred = |p: PortView| is_unprivileged(p);
    let mut n: usize = 0;
    let mut i: usize = 0;
    while i < ports.len()
        invariant
            i <= ports.len(),
            pv == port_views(ports@),
            pv.len() == ports.len(),
            pred == (|p: PortView| is_unprivileged(p)),
            n == pv.take(i as int).filter(pred).len(),
            n <= i,
        decreases ports.len() - i,
    {
        proof {
            reveal_with_fuel(Seq::<_>::filter, 1);
            assert(pv.take(i + 1).drop_last() =~= pv.take(i as int));
            assert(pv[i as int] == ports@[i as int]@);
        }
        if ports[i].port > 1024 {
            n = n + 1;
        }
        i = i + 1;
    }
    proof {
        assert(pv.take(ports.len() as int) =~= pv);
    }
    n
}

/// Puts together the findings of one audit and scores them.
pub fn run_security_audit(
    suid_files: Vec<String>,
    world_writable_files: Vec<String>,
    sysctl_issues: Vec<SysctlIssue>,
    listening_ports: Vec<ListeningPort>,
    hardware: HardwareStatus,
) -> (r: AuditResult)
    requires
        (sysctl_issues.len() as u32) * 15 <= u32::MAX,
    ensures
        r.score == audit_score(
            suid_files.len() as nat,
            world_writable_files.len() > 0,
            sysctl_issues.len() as nat,
            unprivileged(port_views(listening_ports@)).len(),
        ),
        r.suid_files == suid_files,
        r.world_writable_files == world_writable_files,
        r.sysctl_issues == sysctl_issues,
        r.listening_ports == listening_ports,
        r.hardware == hardware,
{
    let mut score: u32 = 100;
    if suid_files.len() > 20 {
        score = score.saturating_sub(10);
    }
    if !world_writable_files.is_empty() {
        score = score.saturating_sub(20);
    }
    let sysctl_penalty: u32 = (sysctl_issues.len() as u32) * 15;
    score = score.saturating_sub(sysctl_penalty);
    let unpriv_ports: u32 = count_unprivileged(&listening_ports) as u32;
    if unpriv_ports > 5 {
        score = score.saturating_sub(10);
    }
    AuditResult {
        score,
        suid_files,
        world_writable_files,
        sysctl_issues,
        listening_ports,
        hardware,
    }
}

/// A kernel parameter that the audit checks and the hardening sets: where it is
/// read, the value it should have, its `sysctl` name and what it protects.
#[derive(Clone, Copy, Debug)]
pub struct SysctlCheck {
    pub path: &'static str,
    pub expected: &'static str,
    pub parameter: &'static str,
    pub description: &'static str,
}

/// The kernel parameters checked, in the order they are checked.
pub open spec fn sysctl_table() -> Seq<SysctlCheck> {
    seq![
        SysctlCheck {
            path: "/proc/sys/fs/protected_symlinks",
            expected: "1",
            parameter: "fs.protected_symlinks",
            description: "Protects symlink traversal against arbitrary file access.",
        },
        SysctlCheck {
            path: "/proc/sys/fs/protected_hardlinks",
            expected: "1",
            parameter: "fs.protected_hardlinks",
            description: "Protects hardlink creation permissions.",
        },
        SysctlCheck {
            path: "/proc/sys/kernel/kptr_restrict",
            expected: "2",
            parameter: "kernel.kptr_restrict",
            description: "Restricts access to raw kernel memory pointers.",
        },
        SysctlCheck {
            path: "/proc/sys/kernel/randomize_va_space",
            expected: "2",
            parameter: "kernel.randomize_va_space",
            description: "Enables Address Space Layout Randomization (ASLR).",
        },
        SysctlCheck {
            path: "/proc/sys/kernel/yama/ptrace_scope",
            expected: "1",
            parameter: "kernel.yama.ptrace_scope",
            description: "Restricts ptrace processes relationships.",
        },
    ]
}

/// The kernel parameters checked, in the order they are checked.
pub fn sysctl_checks() -> (v: Vec<SysctlCheck>)
    ensures
        v@ == sysctl_table(),
{
    let v = vec![
        SysctlCheck {
            path: "/proc/sys/fs/protected_symlinks",
            expected: "1",
            parameter: "fs.protected_symlinks",
            description: "Protects symlink traversal against arbitrary file access.",
        },
        SysctlCheck {
            path: "/proc/sys/fs/protected_hardlinks",
            expected: "1",
            parameter: "fs.protected_hardlinks",
            description: "Protects hardlink creation permissions.",
        },
        SysctlCheck {
            path: "/proc/sys/kernel/kptr_restrict",
            expected: "2",
            parameter: "kernel.kptr_restrict",
            description: "Restricts access to raw kernel memory pointers.",
        },
        SysctlCheck {
            path: "/proc/sys/kernel/randomize_va_space",
            expected: "2",
            parameter: "kernel.randomize_va_space",
            description: "Enables Address Space Layout Randomization (ASLR).",
        },
        SysctlCheck {
            path: "/proc/sys/kernel/yama/ptrace_scope",
            expected: "1",
            parameter: "kernel.yama.ptrace_scope",
            description: "Restricts ptrace processes relationships.",
        },
    ];
    proof {
        assert(v@ =~= sysctl_table());
    }
    v
}

/// The checks, in order: symlink protection (1), hardlink protection (1),
/// kernel pointer restriction (2), address space randomisation (2) and ptrace
/// scope (1), each with the explanation the report gives.
pub proof fn lemma_sysctl_checks_listed()
    ensures
        sysctl_table().len() == 5,
        sysctl_table()[0].parameter == "fs.protected_symlinks" && sysctl_table()[0].expected == "1"
            && sysctl_table()[0].description
            == "Protects symlink traversal against arbitrary file access.",
        sysctl_table()[1].parameter == "fs.protected_hardlinks" && sysctl_table()[1].expected == "1"
            && sysctl_table()[1].description == "Protects hardlink creation permissions.",
        sysctl_table()[2].parameter == "kernel.kptr_restrict" && sysctl_table()[2].expected == "2"
            && sysctl_table()[2].description == "Restricts access to raw kernel memory pointers.",
        sysctl_table()[3].parameter == "kernel.randomize_va_space" && sysctl_table()[3].expected
            == "2" && sysctl_table()[3].description
            == "Enables Address Space Layout Randomization (ASLR).",
        sysctl_table()[4].parameter == "kernel.yama.ptrace_scope" && sysctl_table()[4].expected
            == "1" && sysctl_table()[4].description == "Restricts ptrace processes relationships.",
{
}

/// A `sysctl` name written as a path below `/proc/sys`: each `.` becomes `/`.
pub open spec fn dots_to_slashes(name: Seq<char>) -> Seq<char> {
    name.map_values(|c: char| if c == '.' { '/' } else { c })
}

/// Every checked parameter is read from its own file: the path of each check
/// is `/proc/sys/` followed by its parameter name with each `.` made a `/`, and
/// no two checks name the same parameter.
pub proof fn lemma_sysctl_paths_follow_names(i: int, j: int)
    requires
        0 <= i < sysctl_table().len(),
        0 <= j < sysctl_table().len(),
    ensures
        sysctl_table()[i].path@ == "/proc/sys/"@ + dots_to_slashes(sysctl_table()[i].parameter@),
        i != j ==> sysctl_table()[i].parameter@ != sysctl_table()[j].parameter@,
        i != j ==> sysctl_table()[i].path@ != sysctl_table()[j].path@,
{
    reveal_strlit("/proc/sys/");
    reveal_strlit("/proc/sys/fs/protected_symlinks");
    reveal_strlit("fs.protected_symlinks");
    reveal_strlit("/proc/sys/fs/protected_hardlinks");
    reveal_strlit("fs.protected_hardlinks");
    reveal_strlit("/proc/sys/kernel/kptr_restrict");
    reveal_strlit("kernel.kptr_restrict");
    reveal_strlit("/proc/sys/kernel/randomize_va_space");
    reveal_strlit("kernel.randomize_va_space");
    reveal_strlit("/proc/sys/kernel/yama/ptrace_scope");
    reveal_strlit("kernel.yama.ptrace_scope");
    let t = sysctl_table();
    assert(t[i].path@ =~= "/proc/sys/"@ + dots_to_slashes(t[i].parameter@));
    if i != j {
        if t[i].parameter@.len() == t[j].parameter@.len() {
            assert(exists|k: int|
                0 <= k < t[i].parameter@.len() && t[i].parameter@[k] != t[j].parameter@[k]) by {
                if (i == 0 && j == 1) || (i == 1 && j == 0) {
                    assert(t[i].parameter@[3] != t[j].parameter@[3]);
                }
            }
        }
        assert(t[i].parameter@ != t[j].parameter@);
        assert(t[i].path@ =~= "/proc/sys/"@ + dots_to_slashes(t[i].parameter@));
        assert(t[j].path@ =~= "/proc/sys/"@ + dots_to_slashes(t[j].parameter@));
        if t[i].path@.len() == t[j].path@.len() {
            if (i == 0 && j == 1) || (i == 1 && j == 0) {
                assert(t[i].path@[13] != t[j].path@[13]);
            }
        }
    }
}

/// The views of optional strings (`None` where nothing could be read).
pub open spec fn reading_views(r: Seq<Option<String>>) -> Seq<Option<Seq<char>>> {
    r.map_values(
        |o: Option<String>|
            match o {
                Some(s) => Some(s@),
                None => None,
            },
    )
}

/// The issue a parameter raises: one whose trimmed value was read and differs
/// from the expected value.
pub open spec fn sysctl_finding(check: SysctlCheck, reading: Option<Seq<char>>) -> Option<
    SysctlIssueView,
> {
    match reading {
        None => None,
        Some(v) => {
            let actual = text::trim(v);
            if actual == check.expected@ {
                None
            } else {
                Some(
                    SysctlIssueView {
                        parameter: check.parameter@,
                        expected: check.expected@,
                        actual: actual,
                        description: check.description@,
                    },
                )
            }
        },
    }
}

/// The issues that the parameters `checks` raise, given what was read of each.
pub open spec fn sysctl_findings(checks: Seq<SysctlCheck>, readings: Seq<Option<Seq<char>>>) -> Seq<
    SysctlIssueView,
> {
    Seq::new(checks.len(), |i: int| (checks[i], readings[i])).filter_map(
        |p: (SysctlCheck, Option<Seq<char>>)| sysctl_finding(p.0, p.1),
    )
}

/// Appends the issues that the checked kernel parameters raise, given what was
/// read of each (in the order of [`sysctl_checks`]; `None` where it could not be read).
pub fn check_sysctl_security(readings: &Vec<Option<String>>, issues: &mut Vec<SysctlIssue>)
    requires
        readings.len() == sysctl_table().len(),
    ensures
        issue_views(final(issues)@) == issue_views(old(issues)@) + sysctl_findings(
            sysctl_table(),
            reading_views(readings@),
        ),
{
    let checks = sysctl_checks();
    let ghost rv = reading_views(readings@);
    let ghost pairs = Seq::new(checks@.len(), |i: int| (checks@[i], rv[i]));
    let ghost f = |p: (SysctlCheck, Option<Seq<char>>)| sysctl_finding(p.0, p.1);
    let ghost start = issue_views(issues@);
    let mut i: usize = 0;
    proof {
        assert(pairs.take(0).filter_map(f) =~= Seq::<SysctlIssueView>::empty());
        assert(issue_views(issues@) =~= start + pairs.take(0).filter_map(f));
    }
    while i < checks.len()
        invariant
            i <= checks.len(),
            checks@ == sysctl_table(),
            readings.len() == checks.len(),
            rv == reading_views(readings@),
            pairs == Seq::new(checks@.len(), |i: int| (checks@[i], rv[i])),
            f == (|p: (SysctlCheck, Option<Seq<char>>)| sysctl_finding(p.0, p.1)),
            issue_views(issues@) == start + pairs.take(i as int).filter_map(f),
        decreases checks.len() - i,
    {
        let ghost before = issues@;
        proof {
            pairs.lemma_filter_map_take_succ(f, i as int);
        }
        let check = checks[i];
        match &readings[i] {
            Some(val) => {
                let raw = text::chars_of(val.as_str());
                let actual = text::trim_chars(&raw);
                let expected = text::chars_of(check.expected);
                if !text::chars_equal(&actual, &expected) {
                    issues.push(
                        SysctlIssue {
                            parameter: check.parameter.to_owned(),
                            expected: check.expected.to_owned(),
                            actual: text::string_of(&actual),
                            description: check.description.to_owned(),
                        },
                    );
                    proof {
                        assert(issue_views(issues@) =~= issue_views(before).push(issues@.last()@));
                    }
                }
            },
            None => {},
        }
        proof {
            assert(issue_views(issues@) =~= start + pairs.take(i + 1).filter_map(f));
        }
        i = i + 1;
    }
    proof {
        assert(pairs.take(checks.len() as int) =~= pairs);
    }
}

proof fn lemma_no_findings_prefix(readings: Seq<Option<Seq<char>>>, k: int)
    requires
        readings.len() == sysctl_table().len(),
        0 <= k <= readings.len(),
        forall|i: int|
            0 <= i < readings.len() ==> (#[trigger] readings[i] matches Some(v) ==> text::trim(v)
                == sysctl_table()[i].expected@),
    ensures
        Seq::new(sysctl_table().len(), |i: int| (sysctl_table()[i], readings[i])).take(k).filter_map(
            |p: (SysctlCheck, Option<Seq<char>>)| sysctl_finding(p.0, p.1),
        ) == Seq::<SysctlIssueView>::empty(),
    decreases k,
{
    let pairs = Seq::new(sysctl_table().len(), |i: int| (sysctl_table()[i], readings[i]));
    let f = |p: (SysctlCheck, Option<Seq<char>>)| sysctl_finding(p.0, p.1);
    if k == 0 {
        assert(pairs.take(0).filter_map(f) =~= Seq::<SysctlIssueView>::empty());
    } else {
        lemma_no_findings_prefix(readings, k - 1);
        pairs.lemma_filter_map_take_succ(f, k - 1);
        assert(readings[k - 1] matches Some(v) ==> text::trim(v) == sysctl_table()[k - 1].expected@);
        assert(pairs.take(k).filter_map(f) =~= Seq::<SysctlIssueView>::empty());
    }
}

/// A system whose parameters read as the values the hardening writes (up to
/// surrounding whitespace), or could not be read, raises no sysctl issue.
pub proof fn lemma_hardened_values_raise_no_issue(readings: Seq<Option<Seq<char>>>)
    requires
        readings.len() == sysctl_table().len(),
        forall|i: int|
            0 <= i < readings.len() ==> (#[trigger] readings[i] matches Some(v) ==> text::trim(v)
                == sysctl_table()[i].expected@),
    ensures
        sysctl_findings(sysctl_table(), readings) == Seq::<SysctlIssueView>::empty(),
{
    lemma_no_findings_prefix(readings, readings.len() as int);
    let pairs = Seq::new(sysctl_table().len(), |i: int| (sysctl_table()[i], readings[i]));
    assert(pairs.take(pairs.len() as int) =~= pairs);
}

/// A directory entry as its metadata describes it.
#[derive(Clone, Debug)]
pub struct EntryInfo {
    pub path: String,
    pub is_dir: bool,
    pub is_file: bool,
    pub mode: u32,
}

/// `libc::S_ISUID`, the set-user-ID bit of a file mode.
#[verifier::external_body]
fn set_user_id_bit() -> (bit: u32)
    ensures
        bit == 0o4000,
{
    libc::S_ISUID as u32
}

/// `libc::S_ISGID`, the set-group-ID bit of a file mode.
#[verifier::external_body]
fn set_group_id_bit() -> (bit: u32)
    ensures
        bit == 0o2000,
{
    libc::S_ISGID as u32
}

/// A file mode with the set-user-ID or the set-group-ID bit.
pub open spec fn is_set_id(mode: u32) -> bool {
    (mode & 0o4000u32) != 0 || (mode & 0o2000u32) != 0
}

/// Whether a file mode carries the set-user-ID or the set-group-ID bit.
pub fn has_set_id_bit(mode: u32) -> (r: bool)
    ensures
        r == is_set_id(mode),
{
    let is_suid = (mode & set_user_id_bit()) != 0;
    let is_sgid = (mode & set_group_id_bit()) != 0;
    is_suid || is_sgid
}

/// The paths of the entries whose mode carries a set-ID bit, in order.
pub open spec fn set_id_paths(entries: Seq<EntryInfo>) -> Seq<Seq<char>> {
    entries.filter_map(
        |e: EntryInfo|
            if is_set_id(e.mode) {
                Some(e.path@)
            } else {
                None
            },
    )
}

/// Which entries the set-ID scan reports: one more entry adds its path exactly
/// when its mode has the set-user-ID bit `0o4000` or the set-group-ID bit
/// `0o2000`; the sticky bit `0o1000` and the permission bits play no part.
pub proof fn lemma_set_id_rule(entries: Seq<EntryInfo>, e: EntryInfo)
    ensures
        set_id_paths(entries.push(e)) == set_id_paths(entries) + (if (e.mode & 0o6000u32) != 0 {
            seq![e.path@]
        } else {
            Seq::<Seq<char>>::empty()
        }),
        set_id_paths(
            seq![EntryInfo { path: e.path, is_dir: e.is_dir, is_file: e.is_file, mode: e.mode | 0o1777u32 }],
        ) == set_id_paths(
            seq![EntryInfo { path: e.path, is_dir: e.is_dir, is_file: e.is_file, mode: e.mode & !0o1777u32 }],
        ),
{
    let m = e.mode;
    assert(((m & 0o4000u32) != 0 || (m & 0o2000u32) != 0) == ((m & 0o6000u32) != 0)) by (bit_vector);
    assert(((m | 0o1777u32) & 0o4000u32) == (m & 0o4000u32)) by (bit_vector);
    assert(((m | 0o1777u32) & 0o2000u32) == (m & 0o2000u32)) by (bit_vector);
    assert(((m & !0o1777u32) & 0o4000u32) == (m & 0o4000u32)) by (bit_vector);
    assert(((m & !0o1777u32) & 0o2000u32) == (m & 0o2000u32)) by (bit_vector);
    assert(entries.push(e).drop_last() =~= entries);
    let e1 = EntryInfo { path: e.path, is_dir: e.is_dir, is_file: e.is_file, mode: e.mode | 0o1777u32 };
    let e2 = EntryInfo { path: e.path, is_dir: e.is_dir, is_file: e.is_file, mode: e.mode & !0o1777u32 };
    assert(seq![e1].drop_last() =~= Seq::<EntryInfo>::empty());
    assert(seq![e2].drop_last() =~= Seq::<EntryInfo>::empty());
    assert(set_id_paths(Seq::<EntryInfo>::empty()) =~= Seq::<Seq<char>>::empty());
    assert(set_id_paths(seq![e1]) =~= set_id_paths(seq![e2]));
}

/// Appends the paths of the scanned entries that carry a set-user-ID or
/// set-group-ID bit.
pub fn scan_suid_sgid(entries: &Vec<EntryInfo>, list: &mut Vec<String>)
    ensures
        string_views(final(list)@) == string_views(old(list)@) + set_id_paths(entries@),
{
    let ghost f = |e: EntryInfo|
        if is_set_id(e.mode) {
            Some(e.path@)
        } else {
            None
        };
    let ghost start = string_views(list@);
    let mut i: usize = 0;
    proof {
        assert(entries@.take(0).filter_map(f) =~= Seq::<Seq<char>>::empty());
        assert(string_views(list@) =~= start + entries@.take(0).filter_map(f));
    }
    while i < entries.len()
        invariant
            i <= entries.len(),
            f == (|e: EntryInfo|
                if is_set_id(e.mode) {
                    Some(e.path@)
                } else {
                    None
                }),
            string_views(list@) == start + entries@.take(i as int).filter_map(f),
        decreases entries.len() - i,
    {
        let ghost before = list@;
        proof {
            entries@.lemma_filter_map_take_succ(f, i as int);
        }
        if has_set_id_bit(entries[i].mode) {
            list.push(entries[i].path.clone());
            proof {
                assert(string_views(list@) =~= string_views(before).push(entries@[i as int].path@));
            }
        }
        proof {
            assert(string_views(list@) =~= start + entries@.take(i + 1).filter_map(f));
        }
        i = i + 1;
    }
    proof {
        assert(entries@.take(entries.len() as int) =~= entries@);
    }
}

/// A regular file that every user may write.
pub open spec fn is_world_writable_file(e: EntryInfo) -> bool {
    e.is_file && (e.mode & 0o002u32) != 0
}

/// Whether the walk goes down into a directory: not one under `/tmp` or
/// `/var/tmp`, compared component by component.
pub open spec fn descends_into(p: Seq<char>) -> bool {
    !path::path_starts_with(p, "/tmp"@) && !path::path_starts_with(p, "/var/tmp"@)
}

/// Which entries the walk goes down into: one more entry adds its path
/// exactly when it is a directory that the descent rule admits; regular files
/// and other entries never are.
pub proof fn lemma_descent_entries(entries: Seq<EntryInfo>, e: EntryInfo)
    ensures
        descent_paths(entries.push(e)) == descent_paths(entries) + (if e.is_dir && descends_into(
            e.path@,
        ) {
            seq![e.path@]
        } else {
            Seq::<Seq<char>>::empty()
        }),
{
    assert(entries.push(e).drop_last() =~= entries);
}

/// The walk never goes down into `/tmp` or `/var/tmp` or any directory below
/// them, and goes down into every other directory directly below the root
/// and below those (such as `/etc/...`, `/opt/...` or `/tmpfoo`).
pub proof fn lemma_descent_rule(name: Seq<char>, rest: Seq<char>)
    requires
        path::is_name(name),
    ensures
        !descends_into("/tmp"@),
        !descends_into("/tmp/"@ + rest),
        !descends_into("/var/tmp"@),
        !descends_into("/var/tmp/"@ + rest),
        name != "tmp"@ && name != "var"@ ==> descends_into(seq!['/'] + name),
        name != "tmp"@ && name != "var"@ ==> descends_into(seq!['/'] + name + seq!['/'] + rest),
        name != "tmp"@ ==> descends_into("/var/"@ + name),
        name != "tmp"@ ==> descends_into("/var/"@ + name + seq!['/'] + rest),
{
    reveal_strlit("/tmp");
    reveal_strlit("/tmp/");
    reveal_strlit("/var/tmp");
    reveal_strlit("/var/tmp/");
    reveal_strlit("/var/");
    reveal_strlit("tmp");
    reveal_strlit("var");
    let tmp = seq!['t', 'm', 'p'];
    let var = seq!['v', 'a', 'r'];
    assert(path::is_name(tmp));
    assert(path::is_name(var));
    assert("tmp"@ =~= tmp);
    assert("var"@ =~= var);
    let root = seq!['/'];
    let slash = seq!['/'];
    let pieces_rest = text::split_on(rest, '/').filter(path::normal_piece());
    // /tmp and /tmp/rest
    path::lemma_components_below(tmp, rest);
    assert("/tmp"@ =~= root + tmp);
    assert("/tmp/"@ + rest =~= root + tmp + slash + rest);
    let ctmp = path::components("/tmp"@);
    assert(ctmp =~= seq![root, tmp]);
    assert(path::components("/tmp/"@ + rest).take(2) =~= ctmp);
    assert(ctmp.take(2) =~= ctmp);
    // /var/tmp and /var/tmp/rest
    path::lemma_components_below(var, tmp + slash + rest);
    path::lemma_components_below(var, tmp);
    path::lemma_pieces_name_first(tmp, rest);
    assert("/var/tmp"@ =~= root + var + slash + tmp);
    assert("/var/tmp/"@ + rest =~= root + var + slash + (tmp + slash + rest));
    let cvt = path::components("/var/tmp"@);
    assert(cvt =~= seq![root, var, tmp]);
    assert(path::components("/var/tmp/"@ + rest).take(3) =~= cvt);
    assert(cvt.take(3) =~= cvt);
    // other names
    path::lemma_components_below(name, rest);
    let cp = path::components(seq!['/'] + name + seq!['/'] + rest);
    let cq = path::components(seq!['/'] + name);
    if name != tmp && name != var {
        assert(cp.take(2)[1] == name);
        assert(cp.take(2) != ctmp);
        assert(cq != ctmp);
        if cp.len() >= 3 {
            assert(cp.take(3)[1] == name);
            assert(cp.take(3) != cvt);
        }
    }
    // /var/name and /var/name/rest
    path::lemma_components_below(var, name + slash + rest);
    path::lemma_components_below(var, name);
    path::lemma_pieces_name_first(name, rest);
    assert("/var/"@ + name =~= root + var + slash + name);
    assert("/var/"@ + name + seq!['/'] + rest =~= root + var + slash + (name + slash + rest));
    let cv1 = path::components("/var/"@ + name);
    let cv2 = path::components("/var/"@ + name + seq!['/'] + rest);
    assert(cv1 =~= seq![root, var, name]);
    assert(cv2 =~= seq![root, var, name] + pieces_rest);
    if name != tmp {
        assert(cv1.take(2) != ctmp) by {
            assert(cv1.take(2)[1] == var);
        }
        assert(cv2.take(2) != ctmp) by {
            assert(cv2.take(2)[1] == var);
        }
        assert(cv1.take(3) != cvt) by {
            assert(cv1.take(3)[2] == name);
        }
        assert(cv2.take(3) != cvt) by {
            assert(cv2.take(3)[2] == name);
        }
    }
}

/// The paths of the world-writable regular files among the entries, in order.
pub open spec fn world_writable_paths(entries: Seq<EntryInfo>) -> Seq<Seq<char>> {
    entries.filter_map(
        |e: EntryInfo|
            if is_world_writable_file(e) {
                Some(e.path@)
            } else {
                None
            },
    )
}

/// The address field's bytes are read little-endian: the value whose bytes
/// are `b0` (lowest) to `b3` is shown as `b0.b1.b2.b3`.
pub proof fn lemma_dotted_le_bytes(b0: nat, b1: nat, b2: nat, b3: nat)
    requires
        b0 < 256,
        b1 < 256,
        b2 < 256,
        b3 < 256,
    ensures
        dotted_le(b0 + 256 * b1 + 65536 * b2 + 16777216 * b3) == text::decimal(b0) + seq!['.']
            + text::decimal(b1) + seq!['.'] + text::decimal(b2) + seq!['.'] + text::decimal(b3),
{
    let v = b0 + 256 * b1 + 65536 * b2 + 16777216 * b3;
    assert(v % 256 == b0 && (v / 256) % 256 == b1 && (v / 65536) % 256 == b2 && (v / 16777216)
        % 256 == b3) by (nonlinear_arith)
        requires
            v == b0 + 256 * b1 + 65536 * b2 + 16777216 * b3,
            b0 < 256,
            b1 < 256,
            b2 < 256,
            b3 < 256,
    ;
}

/// Which entries the walk reports: one more entry adds its path exactly when
/// it is a regular file whose mode grants write permission to all users (bit
/// `0o002`); directories and other entries are never reported. The owner and
/// group write bits play no part: setting or clearing `0o020` or `0o200`
/// never changes the report.
pub proof fn lemma_world_writable_rule(entries: Seq<EntryInfo>, e: EntryInfo)
    ensures
        world_writable_paths(entries.push(e)) == world_writable_paths(entries) + (if e.is_file
            && (e.mode & 0o002u32) != 0 {
            seq![e.path@]
        } else {
            Seq::<Seq<char>>::empty()
        }),
        world_writable_paths(
            seq![EntryInfo { path: e.path, is_dir: e.is_dir, is_file: e.is_file, mode: e.mode | 0o220u32 }],
        ) == world_writable_paths(
            seq![EntryInfo { path: e.path, is_dir: e.is_dir, is_file: e.is_file, mode: e.mode & !0o220u32 }],
        ),
        !e.is_file ==> world_writable_paths(seq![e]) == Seq::<Seq<char>>::empty(),
        e.is_file && (e.mode & 0o002u32) != 0 ==> world_writable_paths(seq![e]) == seq![e.path@],
{
    let m = e.mode;
    assert((m | 0o220u32) & 0o002u32 == m & 0o002u32) by (bit_vector);
    assert((m & !0o220u32) & 0o002u32 == m & 0o002u32) by (bit_vector);
    assert(entries.push(e).drop_last() =~= entries);
    let e1 = EntryInfo { path: e.path, is_dir: e.is_dir, is_file: e.is_file, mode: e.mode | 0o220u32 };
    let e2 = EntryInfo { path: e.path, is_dir: e.is_dir, is_file: e.is_file, mode: e.mode & !0o220u32 };
    assert(seq![e1].drop_last() =~= Seq::<EntryInfo>::empty());
    assert(seq![e2].drop_last() =~= Seq::<EntryInfo>::empty());
    assert(seq![e].drop_last() =~= Seq::<EntryInfo>::empty());
    assert(world_writable_paths(Seq::<EntryInfo>::empty()) =~= Seq::<Seq<char>>::empty());
    assert(seq![e].last() == e);
    if e.is_file && (e.mode & 0o002u32) != 0 {
        assert(world_writable_paths(seq![e]) =~= seq![e.path@]);
    } else {
        assert(world_writable_paths(seq![e]) =~= Seq::<Seq<char>>::empty());
    }
    assert(world_writable_paths(seq![e1]) =~= world_writable_paths(seq![e2]));
}

/// The directories among the entries that the walk goes down into, in order.
pub open spec fn descent_paths(entries: Seq<EntryInfo>) -> Seq<Seq<char>> {
    entries.filter_map(
        |e: EntryInfo|
            if e.is_dir && descends_into(e.path@) {
                Some(e.path@)
            } else {
                None
            },
    )
}

/// The most directories one walk reads.
pub const MAX_WALK_DIRS: usize = 500;

/// A depth-first walk from one root in search of world-writable files: a
/// stack of directories still to read, how many have been taken off it, and
/// whether the walk stopped at its limit. The caller reads each directory that
/// [`WritableWalk::next_dir`] hands out and gives its entries to
/// [`WritableWalk::visit`].
pub struct WritableWalk {
    stack: Vec<String>,
    visited: usize,
    stopped: bool,
}

impl WritableWalk {
    /// The directories still to read, the last one next.
    pub closed spec fn pending(&self) -> Seq<Seq<char>> {
        string_views(self.stack@)
    }

    /// How many directories have been taken off the stack.
    pub closed spec fn visited_count(&self) -> nat {
        self.visited as nat
    }

    /// Whether the walk stopped at its limit.
    pub closed spec fn is_stopped(&self) -> bool {
        self.stopped
    }

    /// A walk that has not passed its limit, or that stopped one past it.
    pub closed spec fn wf(&self) -> bool {
        self.visited <= MAX_WALK_DIRS || (self.stopped && self.visited == MAX_WALK_DIRS + 1)
    }

    /// A walk that will read `root` first.
    pub fn new(root: String) -> (w: WritableWalk)
        ensures
            w.wf(),
            w.pending() == seq![root@],
            w.visited_count() == 0,
            !w.is_stopped(),
    {
        let mut stack: Vec<String> = Vec::new();
        stack.push(root);
        let w = WritableWalk { stack, visited: 0, stopped: false };
        proof {
            assert(w.pending() =~= seq![root@]);
        }
        w
    }

    /// The next directory to read: the top of the stack, unless the walk has
    /// ended, or this would be directory number 501, which stops the walk.
    pub fn next_dir(&mut self) -> (r: Option<String>)
        requires
            old(self).wf(),
        ensures
            final(self).wf(),
            old(self).is_stopped() || old(self).pending().len() == 0 ==> {
                &&& r is None
                &&& final(self).pending() == old(self).pending()
                &&& final(self).visited_count() == old(self).visited_count()
                &&& final(self).is_stopped() == old(self).is_stopped()
            },
            !old(self).is_stopped() && old(self).pending().len() > 0 ==> {
                &&& final(self).pending() == old(self).pending().drop_last()
                &&& final(self).visited_count() == old(self).visited_count() + 1
                &&& if old(self).visited_count() + 1 > MAX_WALK_DIRS {
                    r is None && final(self).is_stopped()
                } else {
                    r is Some && r->0@ == old(self).pending().last() && !final(self).is_stopped()
                }
            },
            r is Some ==> final(self).visited_count() <= MAX_WALK_DIRS,
    {
        if self.stopped {
            return None;
        }
        let ghost old_stack = self.stack@;
        match self.stack.pop() {
            None => None,
            Some(current) => {
                proof {
                    assert(string_views(self.stack@) =~= string_views(old_stack).drop_last());
                }
                self.visited = self.visited + 1;
                if self.visited > MAX_WALK_DIRS {
                    self.stopped = true;
                    None
                } else {
                    Some(current)
                }
            },
        }
    }

    /// Takes in the entries of a directory just read: the world-writable
    /// regular files go to `found`, the directories to descend into onto the
    /// stack, both in order.
    pub fn visit(&mut self, entries: &Vec<EntryInfo>, found: &mut Vec<String>)
        requires
            old(self).wf(),
        ensures
            final(self).wf(),
            string_views(final(found)@) == string_views(old(found)@) + world_writable_paths(
                entries@,
            ),
            final(self).pending() == old(self).pending() + descent_paths(entries@),
            final(self).visited_count() == old(self).visited_count(),
            final(self).is_stopped() == old(self).is_stopped(),
    {
        let ghost fw = |e: EntryInfo|
            if is_world_writable_file(e) {
                Some(e.path@)
            } else {
                None
            };
        let ghost fd = |e: EntryInfo|
            if e.is_dir && descends_into(e.path@) {
                Some(e.path@)
            } else {
                None
            };
        let ghost found0 = string_views(found@);
        let ghost stack0 = string_views(self.stack@);
        let mut i: usize = 0;
        proof {
            assert(entries@.take(0).filter_map(fw) =~= Seq::<Seq<char>>::empty());
            assert(entries@.take(0).filter_map(fd) =~= Seq::<Seq<char>>::empty());
            assert(string_views(found@) =~= found0 + entries@.take(0).filter_map(fw));
            assert(string_views(self.stack@) =~= stack0 + entries@.take(0).filter_map(fd));
        }
        while i < entries.len()
            invariant
                i <= entries.len(),
                self.wf(),
                self.visited == old(self).visited,
                self.stopped == old(self).stopped,
                fw == (|e: EntryInfo|
                    if is_world_writable_file(e) {
                        Some(e.path@)
                    } else {
                        None
                    }),
                fd == (|e: EntryInfo|
                    if e.is_dir && descends_into(e.path@) {
                        Some(e.path@)
                    } else {
                        None
                    }),
                string_views(found@) == found0 + entries@.take(i as int).filter_map(fw),
                string_views(self.stack@) == stack0 + entries@.take(i as int).filter_map(fd),
            decreases entries.len() - i,
        {
            let ghost found_before = found@;
            let ghost stack_before = self.stack@;
            proof {
                entries@.lemma_filter_map_take_succ(fw, i as int);
                entries@.lemma_filter_map_take_succ(fd, i as int);
            }
            let entry = &entries[i];
            if entry.is_file && (entry.mode & 0o002) != 0 {
                found.push(entry.path.clone());
                proof {
                    assert(string_views(found@) =~= string_views(found_before).push(entry.path@));
                }
            }
            if entry.is_dir && !path::starts_with(entry.path.as_str(), "/tmp")
                && !path::starts_with(entry.path.as_str(), "/var/tmp") {
                self.stack.push(entry.path.clone());
                proof {
                    assert(string_views(self.stack@) =~= string_views(stack_before).push(
                        entry.path@,
                    ));
                }
            }
            proof {
                assert(string_views(found@) =~= found0 + entries@.take(i + 1).filter_map(fw));
                assert(string_views(self.stack@) =~= stack0 + entries@.take(i + 1).filter_map(fd));
            }
            i = i + 1;
        }
        proof {
            assert(entries@.take(entries.len() as int) =~= entries@);
        }
    }
}

/// The value of one memory controller error counter file: its trimmed content
/// read as a `u64` (`str::parse`), or nothing when it is absent or unreadable
/// or does not read as one.
pub open spec fn counter_value(reading: Option<Seq<char>>) -> nat {
    match reading {
        Some(v) => match text::parse_bounded(text::trim(v), 10, u64::MAX as nat) {
            Some(n) => n,
            None => 0,
        },
        None => 0,
    }
}

/// The sum of the error counters read.
pub open spec fn counter_total(readings: Seq<Option<Seq<char>>>) -> nat
    decreases readings.len(),
{
    if readings.len() == 0 {
        0
    } else {
        counter_total(readings.drop_last()) + counter_value(readings.last())
    }
}

proof fn lemma_counter_total_prefix(readings: Seq<Option<Seq<char>>>, k: int)
    requires
        0 <= k <= readings.len(),
    ensures
        counter_total(readings.take(k)) <= counter_total(readings),
    decreases readings.len(),
{
    if k < readings.len() {
        lemma_counter_total_prefix(readings.drop_last(), k);
        assert(readings.drop_last().take(k) =~= readings.take(k));
    } else {
        assert(readings.take(k) =~= readings);
    }
}

/// The total of the memory controller error counters read (the correctable
/// and uncorrectable count of each controller), or `None` when it exceeds
/// `u64::MAX`.
pub fn edac_error_total(readings: &Vec<Option<String>>) -> (r: Option<u64>)
    ensures
        match r {
            Some(t) => t == counter_total(reading_views(readings@)),
            None => counter_total(reading_views(readings@)) > u64::MAX,
        },
{
    let ghost rv = reading_views(readings@);
    let mut total: u64 = 0;
    let mut i: usize = 0;
    proof {
        assert(rv.take(0) =~= Seq::<Option<Seq<char>>>::empty());
    }
    while i < readings.len()
        invariant
            i <= readings.len(),
            rv == reading_views(readings@),
            rv.len() == readings.len(),
            total == counter_total(rv.take(i as int)),
        decreases readings.len() - i,
    {
        proof {
            assert(rv.take(i + 1).drop_last() =~= rv.take(i as int));
            assert(rv[i as int] == (match readings@[i as int] {
                Some(s) => Some(s@),
                None => None,
            }));
        }
        let mut val: u64 = 0;
        match &readings[i] {
            Some(content) => {
                let raw = text::chars_of(content.as_str());
                let trimmed = text::trim_chars(&raw);
                match text::parse_unsigned_chars(&trimmed, 10, u64::MAX) {
                    Some(v) => {
                        val = v;
                    },
                    None => {},
                }
            },
            None => {},
        }
        assert(val == counter_value(rv[i as int]));
        if total > u64::MAX - val {
            proof {
                lemma_counter_total_prefix(rv, i + 1);
            }
            return None;
        }
        total = total + val;
        i = i + 1;
    }
    proof {
        assert(rv.take(readings.len() as int) =~= rv);
    }
    Some(total)
}

/// The hardware status: whether a TPM is present, whether memory error
/// detection (EDAC) is present and, if so, the errors its counters logged,
/// and how many USB and PCI devices are attached.
pub fn check_hardware_status(
    tpm_enabled: bool,
    edac_installed: bool,
    edac_counter_readings: &Vec<Option<String>>,
    usb_devices_count: usize,
    pci_devices_count: usize,
) -> (h: HardwareStatus)
    requires
        edac_installed ==> counter_total(reading_views(edac_counter_readings@)) <= u64::MAX,
    ensures
        h.tpm_enabled == tpm_enabled,
        h.edac_installed == edac_installed,
        h.edac_errors == (if edac_installed {
            counter_total(reading_views(edac_counter_readings@))
        } else {
            0
        }),
        h.usb_devices_count == usb_devices_count,
        h.pci_devices_count == pci_devices_count,
{
    let mut edac_errors: u64 = 0;
    if edac_installed {
        match edac_error_total(edac_counter_readings) {
            Some(t) => {
                edac_errors = t;
            },
            None => {},
        }
    }
    HardwareStatus {
        tpm_enabled,
        edac_installed,
        edac_errors,
        usb_devices_count,
        pci_devices_count,
    }
}

/// A listening socket found in the kernel's tables.
#[derive(Clone, Debug)]
pub struct ListeningPort {
    pub protocol: String,
    pub ip: String,
    pub port: u16,
}

/// The mathematical value of a [`ListeningPort`].
pub struct PortView {
    pub protocol: Seq<char>,
    pub ip: Seq<char>,
    pub port: u16,
}

impl View for ListeningPort {
    type V = PortView;

    open spec fn view(&self) -> PortView {
        PortView { protocol: self.protocol@, ip: self.ip@, port: self.port }
    }
}

/// The views of a sequence of ports.
pub open spec fn port_views(v: Seq<ListeningPort>) -> Seq<PortView> {
    v.map_values(|p: ListeningPort| p@)
}

/// The value of a hexadecimal IPv4 address field, read as `u32::from_str_radix`
/// does, rendered as the dotted quad of its little-endian bytes.
pub open spec fn dotted_le(v: nat) -> Seq<char> {
    text::decimal(v % 256) + seq!['.'] + text::decimal((v / 256) % 256) + seq!['.'] + text::decimal(
        (v / 65536) % 256,
    ) + seq!['.'] + text::decimal((v / 16777216) % 256)
}

/// The port that an address field `IPHEX:PORTHEX` of `/proc/net/tcp` or
/// `/proc/net/udp` describes: exactly one `:`, a port that `u16::from_str_radix`
/// reads in base 16, and an address part of eight characters that
/// `u32::from_str_radix` reads in base 16. (Eight characters and eight bytes
/// agree on every address part that reads as a number, since those are ASCII.)
pub open spec fn parsed_address(addr: Seq<char>, protocol: Seq<char>) -> Option<PortView> {
    let parts = text::split_on(addr, ':');
    if parts.len() != 2 {
        None
    } else {
        match text::parse_bounded(parts[1], 16, 0xffff) {
            None => None,
            Some(port) => if parts[0].len() != 8 {
                None
            } else {
                match text::parse_bounded(parts[0], 16, 0xffff_ffff) {
                    None => None,
                    Some(ip) => Some(
                        PortView { protocol: protocol, ip: dotted_le(ip), port: port as u16 },
                    ),
                }
            },
        }
    }
}

/// Reads the local address field of a `/proc/net` socket table line.
pub fn parse_proc_net_address(addr_hex: &str, protocol: &str) -> (r: Option<ListeningPort>)
    ensures
        match parsed_address(addr_hex@, protocol@) {
            Some(v) => r is Some && r->0@ == v,
            None => r is None,
        },
{
    let chars = text::chars_of(addr_hex);
    let parts = text::split_chars(&chars, ':');
    proof {
        assert(text::views(parts@) == text::split_on(addr_hex@, ':'));
    }
    if parts.len() != 2 {
        return None;
    }
    proof {
        assert(text::views(parts@)[0] == parts@[0]@);
        assert(text::views(parts@)[1] == parts@[1]@);
    }
    let port = match text::parse_unsigned_chars(&parts[1], 16, 0xffff) {
        Some(p) => p,
        None => return None,
    };
    if parts[0].len() != 8 {
        return None;
    }
    let ip_val = match text::parse_unsigned_chars(&parts[0], 16, 0xffff_ffff) {
        Some(v) => v,
        None => return None,
    };
    let mut ip = String::new();
    text::push_decimal(&mut ip, ip_val % 256);
    text::push_char(&mut ip, '.');
    text::push_decimal(&mut ip, (ip_val / 256) % 256);
    text::push_char(&mut ip, '.');
    text::push_decimal(&mut ip, (ip_val / 65536) % 256);
    text::push_char(&mut ip, '.');
    text::push_decimal(&mut ip, (ip_val / 16777216) % 256);
    proof {
        assert(ip@ =~= dotted_le(ip_val as nat));
    }
    Some(ListeningPort { protocol: protocol.to_owned(), ip, port: port as u16 })
}

/// The port a line of a socket table describes: one with more than three
/// whitespace-separated fields whose fourth field (the state) is `state`,
/// read from its second field (the local address).
pub open spec fn listening_entry(line: Seq<char>, state: Seq<char>, protocol: Seq<char>) -> Option<
    PortView,
> {
    let fields = text::words(line);
    if fields.len() > 3 && fields[3] == state {
        parsed_address(fields[1], protocol)
    } else {
        None
    }
}

/// The listening ports of a socket table: its lines after the first (the
/// header), each read by [`listening_entry`], in order; a line that could not
/// be read (`None`) describes none.
pub open spec fn listening_entries(
    lines: Seq<Option<Seq<char>>>,
    state: Seq<char>,
    protocol: Seq<char>,
) -> Seq<PortView> {
    if lines.len() == 0 {
        Seq::empty()
    } else {
        lines.skip(1).filter_map(
            |l: Option<Seq<char>>|
                match l {
                    Some(line) => listening_entry(line, state, protocol),
                    None => None,
                },
        )
    }
}

/// The views of a sequence of strings.
pub open spec fn string_views(v: Seq<String>) -> Seq<Seq<char>> {
    v.map_values(|s: String| s@)
}

/// Appends to `ports` the listening ports that the lines of a socket table
/// describe (`None` for a line that could not be read): those whose state
/// field is `state`, labelled `protocol`.
pub fn collect_listening_ports(
    lines: &Vec<Option<String>>,
    state: &str,
    protocol: &str,
    ports: &mut Vec<ListeningPort>,
)
    ensures
        port_views(final(ports)@) == port_views(old(ports)@) + listening_entries(
            reading_views(lines@),
            state@,
            protocol@,
        ),
{
    let ghost f = |l: Option<Seq<char>>|
        match l {
            Some(line) => listening_entry(line, state@, protocol@),
            None => None,
        };
    let ghost ls = reading_views(lines@);
    let ghost start = port_views(ports@);
    if lines.len() == 0 {
        proof {
            assert(port_views(ports@) =~= start + Seq::<PortView>::empty());
        }
        return ;
    }
    let state_chars = text::chars_of(state);
    let mut i: usize = 1;
    proof {
        assert(ls.skip(1).take(0).filter_map(f) =~= Seq::<PortView>::empty());
        assert(port_views(ports@) =~= start + Seq::<PortView>::empty());
    }
    while i < lines.len()
        invariant
            1 <= i <= lines.len(),
            ls == reading_views(lines@),
            ls.len() == lines.len(),
            f == (|l: Option<Seq<char>>|
                match l {
                    Some(line) => listening_entry(line, state@, protocol@),
                    None => None,
                }),
            state_chars@ == state@,
            port_views(ports@) == start + ls.skip(1).take(i - 1).filter_map(f),
        decreases lines.len() - i,
    {
        let ghost before = ports@;
        proof {
            ls.skip(1).lemma_filter_map_take_succ(f, i - 1);
            assert(ls.skip(1)[i - 1] == ls[i as int]);
        }
        let raw = match &lines[i] {
            Some(raw) => raw,
            None => {
                proof {
                    assert(port_views(ports@) =~= start + ls.skip(1).take(i as int).filter_map(f));
                }
                i = i + 1;
                continue;
            },
        };
        let line = text::chars_of(raw.as_str());
        let fields = text::split_whitespace_chars(&line);
        proof {
            assert(ls[i as int] == Some(raw@));
            assert(text::views(fields@) == text::words(line@));
        }
        if fields.len() > 3 && text::chars_equal(&fields[3], &state_chars) {
            proof {
                assert(text::views(fields@)[3] == fields@[3]@);
                assert(text::views(fields@)[1] == fields@[1]@);
            }
            let addr = text::string_of(&fields[1]);
            match parse_proc_net_address(addr.as_str(), protocol) {
                Some(p) => {
                    ports.push(p);
                    proof {
                        assert(port_views(ports@) =~= port_views(before).push(p@));
                    }
                },
                None => {},
            }
        } else {
            proof {
                if fields.len() > 3 {
                    assert(text::views(fields@)[3] == fields@[3]@);
                }
            }
        }
        proof {
            assert(port_views(ports@) =~= start + ls.skip(1).take(i as int).filter_map(f));
        }
        i = i + 1;
    }
    proof {
        assert(ls.skip(1).take(lines.len() - 1) =~= ls.skip(1));
    }
}

/// Appends the listening ports of the TCP table (state `0A`, labelled `TCP`)
/// and then those of the UDP table (state `07`, labelled `UDP`). A table that
/// could not be read is given as no lines.
pub fn audit_network_ports(
    tcp_lines: &Vec<Option<String>>,
    udp_lines: &Vec<Option<String>>,
    ports: &mut Vec<ListeningPort>,
)
    ensures
        port_views(final(ports)@) == port_views(old(ports)@) + listening_entries(
            reading_views(tcp_lines@),
            "0A"@,
            "TCP"@,
        ) + listening_entries(reading_views(udp_lines@), "07"@, "UDP"@),
{
    collect_listening_ports(tcp_lines, "0A", "TCP", ports);
    collect_listening_ports(udp_lines, "07", "UDP", ports);
}

} // verus!
