//! The state of the terminal interface: the active tab, the selected row of
//! each list, the monitor log, and how keys change them.

use vstd::prelude::*;
use crate::audit::{AuditResult, ListeningPort, SysctlIssue};
use crate::text;

verus! {

/// The number of tabs: overview, sysctl issues, open ports, set-ID files.
pub const TAB_COUNT: usize = 4;

/// The most log lines kept.
pub const MAX_LOG_LINES: usize = 100;

/// The state of the interface. Each `*_state` is the selected row of a list
/// (`None` for none).
pub struct TuiApp {
    pub audit_result: AuditResult,
    pub monitor_logs: Vec<String>,
    pub active_tab: usize,
    pub should_quit: bool,
    pub sysctl_state: Option<usize>,
    pub ports_state: Option<usize>,
    pub suid_state: Option<usize>,
}

/// A key the interface reacts to.
#[derive(Clone, Copy, Debug, PartialEq, Eq)]
pub enum Key {
    Char(char),
    Tab,
    Left,
    Right,
    Up,
    Down,
    Other,
}

/// The row below `selected` in a list of `count` rows, back to the first
/// after the last; the first row when nothing is selected.
pub open spec fn row_below(selected: Option<usize>, count: nat) -> Option<usize> {
    match selected {
        Some(i) => if i >= count - 1 {
            Some(0usize)
        } else {
            Some((i + 1) as usize)
        },
        None => Some(0usize),
    }
}

/// The row above `selected` in a list of `count` rows, on to the last before
/// the first; the first row when nothing is selected.
pub open spec fn row_above(selected: Option<usize>, count: nat) -> Option<usize> {
    match selected {
        Some(i) => if i == 0 {
            Some((count - 1) as usize)
        } else {
            Some((i - 1) as usize)
        },
        None => Some(0usize),
    }
}

fn next_row(selected: Option<usize>, count: usize) -> (r: Option<usize>)
    requires
        count > 0,
    ensures
        r == row_below(selected, count as nat),
{
    match selected {
        Some(i) => if i >= count - 1 {
            Some(0)
        } else {
            Some(i + 1)
        },
        None => Some(0),
    }
}

fn previous_row(selected: Option<usize>, count: usize) -> (r: Option<usize>)
    requires
        count > 0,
    ensures
        r == row_above(selected, count as nat),
{
    match selected {
        Some(i) => if i == 0 {
            Some(count - 1)
        } else {
            Some(i - 1)
        },
        None => Some(0),
    }
}

/// The number of rows of the list shown on a tab (`None` on the overview).
pub open spec fn list_len(app: TuiApp, tab: usize) -> Option<nat> {
    if tab == 1 {
        Some(app.audit_result.sysctl_issues.len() as nat)
    } else if tab == 2 {
        Some(app.audit_result.listening_ports.len() as nat)
    } else if tab == 3 {
        Some(app.audit_result.suid_files.len() as nat)
    } else {
        None
    }
}

/// The selected row of the list shown on a tab.
pub open spec fn selection(app: TuiApp, tab: usize) -> Option<usize> {
    if tab == 1 {
        app.sysctl_state
    } else if tab == 2 {
        app.ports_state
    } else {
        app.suid_state
    }
}

/// `after` is `before` with the selection of the list on `tab` set to `sel`.
pub open spec fn with_selection(before: TuiApp, after: TuiApp, tab: usize, sel: Option<usize>) -> bool {
    &&& after.audit_result == before.audit_result
    &&& after.monitor_logs == before.monitor_logs
    &&& after.active_tab == before.active_tab
    &&& after.should_quit == before.should_quit
    &&& after.sysctl_state == (if tab == 1 { sel } else { before.sysctl_state })
    &&& after.ports_state == (if tab == 2 { sel } else { before.ports_state })
    &&& after.suid_state == (if tab == 3 { sel } else { before.suid_state })
}

/// `after` is `before` with the active tab set to `tab`.
pub open spec fn with_tab(before: TuiApp, after: TuiApp, tab: usize) -> bool {
    &&& after.audit_result == before.audit_result
    &&& after.monitor_logs == before.monitor_logs
    &&& after.active_tab == tab
    &&& after.should_quit == before.should_quit
    &&& after.sysctl_state == before.sysctl_state
    &&& after.ports_state == before.ports_state
    &&& after.suid_state == before.suid_state
}

/// The effect of scrolling down: on a tab with a non-empty list, the row
/// below is selected; otherwise nothing changes.
pub open spec fn scrolled_down(before: TuiApp, after: TuiApp) -> bool {
    match list_len(before, before.active_tab) {
        Some(n) if n > 0 => with_selection(
            before,
            after,
            before.active_tab,
            row_below(selection(before, before.active_tab), n),
        ),
        _ => after == before,
    }
}

/// The effect of scrolling up: on a tab with a non-empty list, the row above
/// is selected; otherwise nothing changes.
pub open spec fn scrolled_up(before: TuiApp, after: TuiApp) -> bool {
    match list_len(before, before.active_tab) {
        Some(n) if n > 0 => with_selection(
            before,
            after,
            before.active_tab,
            row_above(selection(before, before.active_tab), n),
        ),
        _ => after == before,
    }
}

/// The tab after `t`, from the last back to the first.
pub open spec fn tab_after(t: usize) -> usize {
    ((t + 1) % 4) as usize
}

/// The tab before `t`, from the first on to the last.
pub open spec fn tab_before(t: usize) -> usize {
    if t == 0 {
        3usize
    } else {
        (t - 1) as usize
    }
}

/// `after` is `before` with `should_quit` set.
pub open spec fn with_quit(before: TuiApp, after: TuiApp) -> bool {
    &&& after.audit_result == before.audit_result
    &&& after.monitor_logs == before.monitor_logs
    &&& after.active_tab == before.active_tab
    &&& after.should_quit
    &&& after.sysctl_state == before.sysctl_state
    &&& after.ports_state == before.ports_state
    &&& after.suid_state == before.suid_state
}

/// What a key does: `q` quits; Tab, Right and `l` go to the next tab; Left
/// and `h` to the previous one; `1` to `4` choose a tab; Down and `j` scroll
/// down; Up and `k` scroll up; any other key does nothing.
pub open spec fn key_effect(before: TuiApp, after: TuiApp, key: Key) -> bool {
    match key {
        Key::Char('q') => with_quit(before, after),
        Key::Tab | Key::Right | Key::Char('l') => with_tab(before, after, tab_after(before.active_tab)),
        Key::Left | Key::Char('h') => with_tab(before, after, tab_before(before.active_tab)),
        Key::Char('1') => with_tab(before, after, 0),
        Key::Char('2') => with_tab(before, after, 1),
        Key::Char('3') => with_tab(before, after, 2),
        Key::Char('4') => with_tab(before, after, 3),
        Key::Down | Key::Char('j') => scrolled_down(before, after),
        Key::Up | Key::Char('k') => scrolled_up(before, after),
        _ => after == before,
    }
}

/// The log after one more line: the line is appended, and the oldest line is
/// dropped once there are more than 100.
pub open spec fn log_after(logs: Seq<Seq<char>>, line: Seq<char>) -> Seq<Seq<char>> {
    if logs.len() + 1 > MAX_LOG_LINES {
        logs.push(line).drop_first()
    } else {
        logs.push(line)
    }
}

/// How the overall score is shown: good above 80, fair above 50, poor otherwise.
#[derive(Clone, Copy, Debug, PartialEq, Eq)]
pub enum ScoreLevel {
    Good,
    Fair,
    Poor,
}

/// How a score is shown: good above 80, fair above 50, poor otherwise.
pub open spec fn level_of(score: u32) -> ScoreLevel {
    if score > 80 {
        ScoreLevel::Good
    } else if score > 50 {
        ScoreLevel::Fair
    } else {
        ScoreLevel::Poor
    }
}

/// How a score is shown: good above 80, fair above 50, poor otherwise.
pub fn score_level(score: u32) -> (r: ScoreLevel)
    ensures
        r == level_of(score),
{
    if score > 80 {
        ScoreLevel::Good
    } else if score > 50 {
        ScoreLevel::Fair
    } else {
        ScoreLevel::Poor
    }
}

/// `s` padded with spaces on the right to `width` characters, as `{:<width}` formats it.
pub open spec fn pad_right(s: Seq<char>, width: nat) -> Seq<char> {
    if s.len() < width {
        s + Seq::new((width - s.len()) as nat, |i: int| ' ')
    } else {
        s
    }
}

fn push_padded(out: &mut String, s: &str, width: usize)
    ensures
        final(out)@ == old(out)@ + pad_right(s@, width as nat),
{
    let n = text::chars_of(s).len();
    text::push_str(out, s);
    let ghost base = out@;
    let mut k: usize = n;
    while k < width
        invariant
            n <= k,
            n == s@.len(),
            k <= width || k == n,
            out@ == base + Seq::new((k - n) as nat, |i: int| ' '),
        decreases width - k,
    {
        text::push_char(out, ' ');
        proof {
            assert(out@ =~= base + Seq::new((k + 1 - n) as nat, |i: int| ' '));
        }
        k = k + 1;
    }
    proof {
        if n < width {
            assert(out@ =~= old(out)@ + pad_right(s@, width as nat));
        } else {
            assert(out@ =~= base + Seq::new(0, |i: int| ' '));
            assert(out@ =~= old(out)@ + pad_right(s@, width as nat));
        }
    }
}

/// The label of the score gauge: `{score}/100`.
pub fn score_label(score: u32) -> (s: String)
    ensures
        s@ == text::decimal(score as nat) + "/100"@,
{
    let mut s = String::new();
    text::push_decimal(&mut s, score as u64);
    text::push_str(&mut s, "/100");
    s
}

/// The row of the sysctl tab for one issue.
pub open spec fn issue_row(issue: SysctlIssue) -> Seq<char> {
    " "@ + issue.parameter@ + " | Expected: "@ + issue.expected@ + " | Actual: "@ + issue.actual@
        + " | "@ + issue.description@
}

/// The row of the sysctl tab for one issue.
pub fn sysctl_issue_row(issue: &SysctlIssue) -> (s: String)
    ensures
        s@ == issue_row(*issue),
{
    let mut s = String::new();
    text::push_str(&mut s, " ");
    text::push_str(&mut s, issue.parameter.as_str());
    text::push_str(&mut s, " | Expected: ");
    text::push_str(&mut s, issue.expected.as_str());
    text::push_str(&mut s, " | Actual: ");
    text::push_str(&mut s, issue.actual.as_str());
    text::push_str(&mut s, " | ");
    text::push_str(&mut s, issue.description.as_str());
    proof {
        assert(s@ =~= issue_row(*issue));
    }
    s
}

/// The row of the ports tab for one port: protocol padded to 8 characters,
/// address padded to 20.
pub open spec fn port_row(p: ListeningPort) -> Seq<char> {
    " "@ + pad_right(p.protocol@, 8) + " | "@ + pad_right(p.ip@, 20) + " | Port: "@ + text::decimal(
        p.port as nat,
    ) + " "@
}

/// The row of the ports tab for one port.
pub fn listening_port_row(p: &ListeningPort) -> (s: String)
    ensures
        s@ == port_row(*p),
{
    let mut s = String::new();
    text::push_str(&mut s, " ");
    push_padded(&mut s, p.protocol.as_str(), 8);
    text::push_str(&mut s, " | ");
    push_padded(&mut s, p.ip.as_str(), 20);
    text::push_str(&mut s, " | Port: ");
    text::push_decimal(&mut s, p.port as u64);
    text::push_str(&mut s, " ");
    proof {
        assert(s@ =~= port_row(*p));
    }
    s
}

/// The row of the set-ID tab for one file.
pub fn suid_file_row(path: &String) -> (s: String)
    ensures
        s@ == " "@ + path@,
{
    let mut s = String::new();
    text::push_str(&mut s, " ");
    text::push_str(&mut s, path.as_str());
    s
}

/// The lines of the overview: the count of each kind of finding, then the
/// hardware status.
pub open spec fn overview(r: AuditResult) -> Seq<Seq<char>> {
    seq![
        " SUID/SGID Binary Files: "@ + text::decimal(r.suid_files.len() as nat),
        " World Writable System Files: "@ + text::decimal(r.world_writable_files.len() as nat),
        " Failed Sysctl Configuration Settings: "@ + text::decimal(r.sysctl_issues.len() as nat),
        " Total Listening Network Services: "@ + text::decimal(r.listening_ports.len() as nat),
        Seq::<char>::empty(),
        " TPM 2.0 Security State: "@ + (if r.hardware.tpm_enabled {
            "ENABLED"@
        } else {
            "DISABLED / NOT FOUND"@
        }),
        " EDAC RAM Error Check: "@ + (if r.hardware.edac_installed {
            "ACTIVE"@
        } else {
            "INACTIVE / NO ECC"@
        }),
        " Memory Errors Logged: "@ + text::decimal(r.hardware.edac_errors as nat),
        " Connected USB Devices: "@ + text::decimal(r.hardware.usb_devices_count as nat),
        " Connected PCI Devices: "@ + text::decimal(r.hardware.pci_devices_count as nat),
    ]
}

/// The overview shows, in order, the number of set-ID files, of
/// world-writable files, of sysctl issues and of listening ports, a blank
/// line, then the TPM state, the EDAC state, the logged memory errors and the
/// USB and PCI device counts; each count is shown in decimal after its label.
pub proof fn lemma_overview_reports(r: AuditResult)
    ensures
        overview(r).len() == 10,
        overview(r)[0] == " SUID/SGID Binary Files: "@ + text::decimal(r.suid_files.len() as nat),
        overview(r)[1] == " World Writable System Files: "@ + text::decimal(
            r.world_writable_files.len() as nat,
        ),
        overview(r)[2] == " Failed Sysctl Configuration Settings: "@ + text::decimal(
            r.sysctl_issues.len() as nat,
        ),
        overview(r)[3] == " Total Listening Network Services: "@ + text::decimal(
            r.listening_ports.len() as nat,
        ),
        overview(r)[4].len() == 0,
        overview(r)[5] == " TPM 2.0 Security State: "@ + (if r.hardware.tpm_enabled {
            "ENABLED"@
        } else {
            "DISABLED / NOT FOUND"@
        }),
        overview(r)[6] == " EDAC RAM Error Check: "@ + (if r.hardware.edac_installed {
            "ACTIVE"@
        } else {
            "INACTIVE / NO ECC"@
        }),
        overview(r)[7] == " Memory Errors Logged: "@ + text::decimal(r.hardware.edac_errors as nat),
        overview(r)[8] == " Connected USB Devices: "@ + text::decimal(
            r.hardware.usb_devices_count as nat,
        ),
        overview(r)[9] == " Connected PCI Devices: "@ + text::decimal(
            r.hardware.pci_devices_count as nat,
        ),
{
}

fn labelled_count(label: &str, n: u64) -> (s: String)
    ensures
        s@ == label@ + text::decimal(n as nat),
{
    let mut s = String::new();
    text::push_str(&mut s, label);
    text::push_decimal(&mut s, n);
    s
}

fn labelled_text(label: &str, value: &str) -> (s: String)
    ensures
        s@ == label@ + value@,
{
    let mut s = String::new();
    text::push_str(&mut s, label);
    text::push_str(&mut s, value);
    s
}

/// The lines of the overview.
pub fn overview_lines(r: &AuditResult) -> (lines: Vec<String>)
    ensures
        crate::audit::string_views(lines@) == overview(*r),
{
    let hw = &r.hardware;
    let mut lines: Vec<String> = Vec::new();
    lines.push(labelled_count(" SUID/SGID Binary Files: ", r.suid_files.len() as u64));
    lines.push(labelled_count(" World Writable System Files: ", r.world_writable_files.len() as u64));
    lines.push(
        labelled_count(" Failed Sysctl Configuration Settings: ", r.sysctl_issues.len() as u64),
    );
    lines.push(
        labelled_count(" Total Listening Network Services: ", r.listening_ports.len() as u64),
    );
    lines.push(String::new());
    lines.push(
        labelled_text(
            " TPM 2.0 Security State: ",
            if hw.tpm_enabled {
                "ENABLED"
            } else {
                "DISABLED / NOT FOUND"
            },
        ),
    );
    lines.push(
        labelled_text(
            " EDAC RAM Error Check: ",
            if hw.edac_installed {
                "ACTIVE"
            } else {
                "INACTIVE / NO ECC"
            },
        ),
    );
    lines.push(labelled_count(" Memory Errors Logged: ", hw.edac_errors));
    lines.push(labelled_count(" Connected USB Devices: ", hw.usb_devices_count as u64));
    lines.push(labelled_count(" Connected PCI Devices: ", hw.pci_devices_count as u64));
    proof {
        assert(crate::audit::string_views(lines@) =~= overview(*r));
    }
    lines
}

/// The log lines to show in `height` rows: the newest first.
pub fn visible_logs(logs: &Vec<String>, height: usize) -> (r: Vec<String>)
    ensures
        r@.len() == if height < logs@.len() {
            height as nat
        } else {
            logs@.len()
        },
        forall|i: int| 0 <= i < r@.len() ==> #[trigger] r@[i]@ == logs@[logs@.len() - 1 - i]@,
{
    let n = logs.len();
    let mut r: Vec<String> = Vec::new();
    let mut i: usize = 0;
    while i < n && i < height
        invariant
            i <= n,
            i <= height,
            n == logs.len(),
            r@.len() == i,
            forall|k: int| 0 <= k < i ==> #[trigger] r@[k]@ == logs@[n - 1 - k]@,
        decreases n - i,
    {
        r.push(logs[n - 1 - i].clone());
        i = i + 1;
    }
    r
}

impl TuiApp {
    /// The interface over an audit: overview tab, first row of each list
    /// selected, one log line saying the monitor started.
    pub fn new(result: AuditResult) -> (app: TuiApp)
        ensures
            app.audit_result == result,
            app.monitor_logs@.len() == 1,
            app.monitor_logs@[0]@ == "System monitor initialized."@,
            app.active_tab == 0,
            !app.should_quit,
            app.sysctl_state == Some(0usize),
            app.ports_state == Some(0usize),
            app.suid_state == Some(0usize),
    {
        let mut monitor_logs: Vec<String> = Vec::new();
        monitor_logs.push("System monitor initialized.".to_owned());
        TuiApp {
            audit_result: result,
            monitor_logs,
            active_tab: 0,
            should_quit: false,
            sysctl_state: Some(0),
            ports_state: Some(0),
            suid_state: Some(0),
        }
    }

    /// Moves to the next tab, from the last back to the first.
    pub fn next_tab(&mut self)
        requires
            old(self).active_tab < usize::MAX,
        ensures
            with_tab(*old(self), *final(self), tab_after(old(self).active_tab)),
    {
        self.active_tab = (self.active_tab + 1) % TAB_COUNT;
    }

    /// Moves to the previous tab, from the first on to the last.
    pub fn prev_tab(&mut self)
        ensures
            with_tab(*old(self), *final(self), tab_before(old(self).active_tab)),
    {
        if self.active_tab == 0 {
            self.active_tab = TAB_COUNT - 1;
        } else {
            self.active_tab -= 1;
        }
    }

    /// Selects the row below in the list of the active tab.
    pub fn scroll_down(&mut self)
        ensures
            scrolled_down(*old(self), *final(self)),
    {
        if self.active_tab == 1 {
            let count = self.audit_result.sysctl_issues.len();
            if count > 0 {
                self.sysctl_state = next_row(self.sysctl_state, count);
            }
        } else if self.active_tab == 2 {
            let count = self.audit_result.listening_ports.len();
            if count > 0 {
                self.ports_state = next_row(self.ports_state, count);
            }
        } else if self.active_tab == 3 {
            let count = self.audit_result.suid_files.len();
            if count > 0 {
                self.suid_state = next_row(self.suid_state, count);
            }
        }
    }

    /// Selects the row above in the list of the active tab.
    pub fn scroll_up(&mut self)
        ensures
            scrolled_up(*old(self), *final(self)),
    {
        if self.active_tab == 1 {
            let count = self.audit_result.sysctl_issues.len();
            if count > 0 {
                self.sysctl_state = previous_row(self.sysctl_state, count);
            }
        } else if self.active_tab == 2 {
            let count = self.audit_result.listening_ports.len();
            if count > 0 {
                self.ports_state = previous_row(self.ports_state, count);
            }
        } else if self.active_tab == 3 {
            let count = self.audit_result.suid_files.len();
            if count > 0 {
                self.suid_state = previous_row(self.suid_state, count);
            }
        }
    }
}

impl TuiApp {
    /// Does what the key does (see [`key_effect`]).
    pub fn handle_key(&mut self, key: Key)
        requires
            old(self).active_tab < usize::MAX,
        ensures
            key_effect(*old(self), *final(self), key),
    {
        match key {
            Key::Char('q') => {
                self.should_quit = true;
            },
            Key::Tab | Key::Right | Key::Char('l') => self.next_tab(),
            Key::Left | Key::Char('h') => self.prev_tab(),
            Key::Char('1') => {
                self.active_tab = 0;
            },
            Key::Char('2') => {
                self.active_tab = 1;
            },
            Key::Char('3') => {
                self.active_tab = 2;
            },
            Key::Char('4') => {
                self.active_tab = 3;
            },
            Key::Down | Key::Char('j') => self.scroll_down(),
            Key::Up | Key::Char('k') => self.scroll_up(),
            _ => {},
        }
    }

    /// Appends a line to the monitor log, dropping the oldest line once there
    /// are more than 100.
    pub fn push_log(&mut self, line: String)
        ensures
            crate::audit::string_views(final(self).monitor_logs@) == log_after(
                crate::audit::string_views(old(self).monitor_logs@),
                line@,
            ),
            final(self).audit_result == old(self).audit_result,
            final(self).active_tab == old(self).active_tab,
            final(self).should_quit == old(self).should_quit,
            final(self).sysctl_state == old(self).sysctl_state,
            final(self).ports_state == old(self).ports_state,
            final(self).suid_state == old(self).suid_state,
    {
        let ghost before = crate::audit::string_views(self.monitor_logs@);
        self.monitor_logs.push(line);
        if self.monitor_logs.len() > MAX_LOG_LINES {
            self.monitor_logs.remove(0);
        }
        proof {
            assert(crate::audit::string_views(self.monitor_logs@) =~= log_after(before, line@));
        }
    }
}

/// Going to the next tab and back returns to the same tab, and four steps
/// forward or back return to the start; tabs stay among the four.
pub proof fn lemma_tab_cycle(t: usize)
    requires
        t < 4,
    ensures
        tab_before(tab_after(t)) == t,
        tab_after(tab_before(t)) == t,
        tab_after(tab_after(tab_after(tab_after(t)))) == t,
        tab_before(tab_before(tab_before(tab_before(t)))) == t,
        tab_after(t) < 4,
        tab_before(t) < 4,
{
}

/// A digit key `d` from `1` to `4` selects tab `d - 1` (the tab titled
/// `[d]`), whatever tab was active, and changes nothing else.
pub proof fn lemma_digit_keys_select_tabs(before: TuiApp, after: TuiApp, d: char)
    requires
        '1' <= d <= '4',
        key_effect(before, after, Key::Char(d)),
    ensures
        after.active_tab as int == d as int - '1' as int,
        after.audit_result == before.audit_result,
        after.monitor_logs == before.monitor_logs,
        after.should_quit == before.should_quit,
        after.sysctl_state == before.sysctl_state,
        after.ports_state == before.ports_state,
        after.suid_state == before.suid_state,
{
}

/// Scores above 80 are shown as good, 51 to 80 as fair, 50 and below as
/// poor; a higher score is never shown worse.
pub proof fn lemma_score_levels(a: u32, b: u32)
    ensures
        81 <= a ==> level_of(a) == ScoreLevel::Good,
        51 <= a <= 80 ==> level_of(a) == ScoreLevel::Fair,
        a <= 50 ==> level_of(a) == ScoreLevel::Poor,
        a <= b && level_of(a) == ScoreLevel::Good ==> level_of(b) == ScoreLevel::Good,
        a <= b && level_of(b) == ScoreLevel::Poor ==> level_of(a) == ScoreLevel::Poor,
{
}

/// The navigation keys: Tab, Right and `l` move one tab on (from the fourth
/// back to the first), Left and `h` one tab back (from the first to the
/// fourth); Down and `j` select the next row of a non-empty list (the first
/// after the last), Up and `k` the previous one (the last before the first);
/// only `q` quits.
pub proof fn lemma_navigation_keys(before: TuiApp, after: TuiApp, key: Key)
    requires
        before.active_tab < TAB_COUNT,
        key_effect(before, after, key),
    ensures
        (key == Key::Tab || key == Key::Right || key == Key::Char('l')) ==> after.active_tab == (
        before.active_tab + 1) % 4,
        (key == Key::Left || key == Key::Char('h')) ==> after.active_tab + 1 == (if before.active_tab
            == 0 {
            4
        } else {
            before.active_tab
        }),
        after.should_quit != before.should_quit ==> key == Key::Char('q'),
        key == Key::Char('q') ==> after.should_quit,
{
}

/// Scrolling keys on a tab with a list of `n` rows whose row `i` is
/// selected: Down and `j` select row `i + 1`, or the first row after the last;
/// Up and `k` select row `i - 1`, or the last row before the first; the other
/// lists keep their selection.
pub proof fn lemma_scroll_keys(before: TuiApp, after: TuiApp, key: Key, i: usize, n: nat)
    requires
        1 <= before.active_tab <= 3,
        key_effect(before, after, key),
        list_len(before, before.active_tab) == Some(n),
        selection(before, before.active_tab) == Some(i),
        i < n,
    ensures
        (key == Key::Down || key == Key::Char('j')) ==> selection(after, before.active_tab) == Some(
            (if i + 1 == n {
                0
            } else {
                i + 1
            }) as usize,
        ),
        (key == Key::Up || key == Key::Char('k')) ==> selection(after, before.active_tab) == Some(
            (if i == 0 {
                n - 1
            } else {
                i - 1
            }) as usize,
        ),
        (key == Key::Down || key == Key::Char('j') || key == Key::Up || key == Key::Char('k')) ==> {
            &&& after.active_tab == before.active_tab
            &&& (before.active_tab != 1 ==> after.sysctl_state == before.sysctl_state)
            &&& (before.active_tab != 2 ==> after.ports_state == before.ports_state)
            &&& (before.active_tab != 3 ==> after.suid_state == before.suid_state)
        },
{
}

/// Keys keep the active tab among the four tabs.
pub proof fn lemma_keys_keep_tab_in_range(before: TuiApp, after: TuiApp, key: Key)
    requires
        before.active_tab < TAB_COUNT,
        key_effect(before, after, key),
    ensures
        after.active_tab < TAB_COUNT,
{
}

/// In a non-empty list, scrolling down then up (or up then down) from a
/// selected row returns to it, and scrolling keeps the selection on a row.
pub proof fn lemma_scroll_round_trip(sel: Option<usize>, count: nat)
    requires
        0 < count <= usize::MAX,
        sel matches Some(i) ==> i < count,
    ensures
        sel is Some ==> row_above(row_below(sel, count), count) == sel,
        sel is Some ==> row_below(row_above(sel, count), count) == sel,
        row_below(sel, count) matches Some(j) && j < count,
        row_above(sel, count) matches Some(j) && j < count,
{
}

/// The log never holds more than 100 lines, and its newest line is the last
/// one pushed.
pub proof fn lemma_log_bounded(logs: Seq<Seq<char>>, line: Seq<char>)
    requires
        logs.len() <= MAX_LOG_LINES,
    ensures
        log_after(logs, line).len() <= MAX_LOG_LINES,
        log_after(logs, line).last() == line,
        logs.len() < MAX_LOG_LINES ==> log_after(logs, line) == logs.push(line),
{
}

} // verus!
