//! The decisions of the hardening step: which set-ID binaries to strip, which
//! ports to block, what the sysctl configuration says, and which answers
//! confirm a change.

use vstd::prelude::*;
use crate::audit::{ListeningPort, SysctlCheck};
use crate::audit;
use crate::text;

verus! {

/// Set-ID binaries that a system seldom needs, in the order they are offered.
pub open spec fn dispensable_set_id_paths() -> Seq<&'static str> {
    seq!["/usr/bin/chsh", "/usr/bin/chfn", "/usr/bin/newgrp", "/bin/newgrp", "/usr/bin/write", "/bin/write"]
}

/// Whether `v` holds a string equal to `s`.
pub fn contains_string(v: &Vec<String>, s: &str) -> (r: bool)
    ensures
        r == audit::string_views(v@).contains(s@),
{
    let target = s.to_owned();
    let ghost sv = audit::string_views(v@);
    let mut i: usize = 0;
    while i < v.len()
        invariant
            i <= v.len(),
            sv == audit::string_views(v@),
            target@ == s@,
            forall|k: int| 0 <= k < i ==> sv[k] != s@,
        decreases v.len() - i,
    {
        if v[i] == target {
            assert(sv[i as int] == s@);
            return true;
        }
        i = i + 1;
    }
    false
}

/// The dispensable set-ID binaries that the audit found, in the order they are offered.
pub open spec fn hardening_candidates(suid_files: Seq<Seq<char>>) -> Seq<Seq<char>> {
    dispensable_set_id_paths().filter(|p: &'static str| suid_files.contains(p@)).map_values(
        |p: &'static str| p@,
    )
}

/// The dispensable set-ID binaries among `suid_files`, in the order they are offered.
pub fn suid_hardening_candidates(suid_files: &Vec<String>) -> (r: Vec<String>)
    ensures
        audit::string_views(r@) == hardening_candidates(audit::string_views(suid_files@)),
{
    let candidates = vec!["/usr/bin/chsh", "/usr/bin/chfn", "/usr/bin/newgrp", "/bin/newgrp", "/usr/bin/write", "/bin/write"];
    let ghost sv = audit::string_views(suid_files@);
    let ghost pred = |p: &'static str| sv.contains(p@);
    let ghost view_of = |p: &'static str| p@;
    proof {
        assert(candidates@ =~= dispensable_set_id_paths());
    }
    let mut r: Vec<String> = Vec::new();
    let mut i: usize = 0;
    while i < candidates.len()
        invariant
            i <= candidates.len(),
            candidates@ == dispensable_set_id_paths(),
            sv == audit::string_views(suid_files@),
            pred == (|p: &'static str| sv.contains(p@)),
            view_of == (|p: &'static str| p@),
            audit::string_views(r@) == candidates@.take(i as int).filter(pred).map_values(view_of),
        decreases candidates.len() - i,
    {
        let ghost before = r@;
        proof {
            reveal_with_fuel(Seq::<_>::filter, 1);
            assert(candidates@.take(i + 1).drop_last() =~= candidates@.take(i as int));
        }
        let path = candidates[i];
        if contains_string(suid_files, path) {
            r.push(path.to_owned());
            proof {
                assert(pred(candidates@[i as int]));
                assert(candidates@.take(i + 1).filter(pred) == candidates@.take(i as int).filter(
                    pred,
                ).push(path));
                assert(audit::string_views(r@) =~= audit::string_views(before).push(path@));
                assert(audit::string_views(r@) =~= candidates@.take(i + 1).filter(pred).map_values(
                    view_of,
                ));
            }
        } else {
            proof {
                assert(audit::string_views(r@) =~= candidates@.take(i + 1).filter(pred).map_values(
                    view_of,
                ));
            }
        }
        i = i + 1;
    }
    proof {
        assert(candidates@.take(candidates.len() as int) =~= candidates@);
    }
    r
}

/// `path` alone when the audit found it, nothing otherwise.
pub open spec fn if_found(suid_files: Seq<Seq<char>>, path: Seq<char>) -> Seq<Seq<char>> {
    if suid_files.contains(path) {
        seq![path]
    } else {
        Seq::empty()
    }
}

/// The binaries offered for hardening are exactly those of `/usr/bin/chsh`,
/// `/usr/bin/chfn`, `/usr/bin/newgrp`, `/bin/newgrp`, `/usr/bin/write` and
/// `/bin/write` that the audit found, in that order.
pub proof fn lemma_candidates_are_found_dispensable_binaries(suid_files: Seq<Seq<char>>)
    ensures
        hardening_candidates(suid_files) == if_found(suid_files, "/usr/bin/chsh"@) + if_found(
            suid_files,
            "/usr/bin/chfn"@,
        ) + if_found(suid_files, "/usr/bin/newgrp"@) + if_found(suid_files, "/bin/newgrp"@)
            + if_found(suid_files, "/usr/bin/write"@) + if_found(suid_files, "/bin/write"@),
{
    let pred = |p: &'static str| suid_files.contains(p@);
    let d = dispensable_set_id_paths();
    reveal_with_fuel(Seq::<_>::filter, 7);
    assert(d.drop_last() =~= seq!["/usr/bin/chsh", "/usr/bin/chfn", "/usr/bin/newgrp", "/bin/newgrp", "/usr/bin/write"]);
    assert(d.drop_last().drop_last() =~= seq!["/usr/bin/chsh", "/usr/bin/chfn", "/usr/bin/newgrp", "/bin/newgrp"]);
    assert(d.drop_last().drop_last().drop_last() =~= seq!["/usr/bin/chsh", "/usr/bin/chfn", "/usr/bin/newgrp"]);
    assert(d.drop_last().drop_last().drop_last().drop_last() =~= seq!["/usr/bin/chsh", "/usr/bin/chfn"]);
    assert(d.drop_last().drop_last().drop_last().drop_last().drop_last() =~= seq!["/usr/bin/chsh"]);
    assert(d.drop_last().drop_last().drop_last().drop_last().drop_last().drop_last() =~= Seq::<
        &'static str,
    >::empty());
    assert(hardening_candidates(suid_files) =~= if_found(suid_files, "/usr/bin/chsh"@) + if_found(
        suid_files,
        "/usr/bin/chfn"@,
    ) + if_found(suid_files, "/usr/bin/newgrp"@) + if_found(suid_files, "/bin/newgrp"@)
        + if_found(suid_files, "/usr/bin/write"@) + if_found(suid_files, "/bin/write"@));
}

/// Every binary offered for hardening is one the audit found, and one of the
/// dispensable ones.
pub proof fn lemma_candidates_were_found(suid_files: Seq<Seq<char>>, path: Seq<char>)
    requires
        hardening_candidates(suid_files).contains(path),
    ensures
        suid_files.contains(path),
        dispensable_set_id_paths().map_values(|p: &'static str| p@).contains(path),
{
    let pred = |p: &'static str| suid_files.contains(p@);
    let view_of = |p: &'static str| p@;
    let kept = dispensable_set_id_paths().filter(pred);
    let k = choose|k: int| 0 <= k < kept.len() && kept.map_values(view_of)[k] == path;
    dispensable_set_id_paths().lemma_filter_pred(pred, k);
    dispensable_set_id_paths().lemma_filter_contains_rev(pred, kept[k]);
    let j = choose|j: int|
        0 <= j < dispensable_set_id_paths().len() && dispensable_set_id_paths()[j] == kept[k];
    assert(dispensable_set_id_paths().map_values(view_of)[j] == path);
}

/// The listening ports above 1024, in order.
pub fn unprivileged_ports(ports: &Vec<ListeningPort>) -> (r: Vec<&ListeningPort>)
    ensures
        r@.map_values(|p: &ListeningPort| p@) == audit::unprivileged(audit::port_views(ports@)),
{
    let ghost pv = audit::port_views(ports@);
    let ghost pred = |p: audit::PortView| audit::is_unprivileged(p);
    let mut r: Vec<&ListeningPort> = Vec::new();
    let mut i: usize = 0;
    while i < ports.len()
        invariant
            i <= ports.len(),
            pv == audit::port_views(ports@),
            pv.len() == ports.len(),
            pred == (|p: audit::PortView| audit::is_unprivileged(p)),
            r@.map_values(|p: &ListeningPort| p@) == pv.take(i as int).filter(pred),
        decreases ports.len() - i,
    {
        proof {
            reveal_with_fuel(Seq::<_>::filter, 1);
            assert(pv.take(i + 1).drop_last() =~= pv.take(i as int));
            assert(pv[i as int] == ports@[i as int]@);
        }
        if ports[i].port > 1024 {
            r.push(&ports[i]);
        }
        proof {
            assert(r@.map_values(|p: &ListeningPort| p@) =~= pv.take(i + 1).filter(pred));
        }
        i = i + 1;
    }
    proof {
        assert(pv.take(ports.len() as int) =~= pv);
    }
    r
}

/// The lowercase of an ASCII letter; any other character unchanged.
pub open spec fn ascii_lower(c: char) -> char {
    if 'A' <= c && c <= 'Z' {
        ((c as u8) + 32) as char
    } else {
        c
    }
}

/// Whether `s` lowercases to `word`, a word of lowercase ASCII letters. (No
/// character outside ASCII lowercases to `y`, `e` or `s`, so for the words
/// below this is what `str::to_lowercase` followed by `==` decides.)
pub open spec fn lowercases_to(s: Seq<char>, word: Seq<char>) -> bool {
    s.len() == word.len() && forall|i: int| 0 <= i < s.len() ==> ascii_lower(#[trigger] s[i]) == word[i]
}

/// An answer that confirms: after trimming, `y` or `yes` in any case.
pub open spec fn confirms(input: Seq<char>) -> bool {
    lowercases_to(text::trim(input), seq!['y']) || lowercases_to(
        text::trim(input),
        seq!['y', 'e', 's'],
    )
}

fn lower_char(c: char) -> (r: char)
    ensures
        r == ascii_lower(c),
{
    if 'A' <= c && c <= 'Z' {
        ((c as u8) + 32) as char
    } else {
        c
    }
}

fn lowercases_to_word(s: &Vec<char>, word: &Vec<char>) -> (r: bool)
    ensures
        r == lowercases_to(s@, word@),
{
    if s.len() != word.len() {
        return false;
    }
    let mut i: usize = 0;
    while i < s.len()
        invariant
            i <= s.len(),
            s.len() == word.len(),
            forall|k: int| 0 <= k < i ==> ascii_lower(#[trigger] s@[k]) == word@[k],
        decreases s.len() - i,
    {
        if lower_char(s[i]) != word[i] {
            return false;
        }
        i = i + 1;
    }
    true
}

/// Whether an answer to a yes/no question confirms.
pub fn is_affirmative(input: &str) -> (r: bool)
    ensures
        r == confirms(input@),
{
    let trimmed = text::trim_chars(&text::chars_of(input));
    let mut y: Vec<char> = Vec::new();
    y.push('y');
    let mut yes: Vec<char> = Vec::new();
    yes.push('y');
    yes.push('e');
    yes.push('s');
    proof {
        assert(y@ =~= seq!['y']);
        assert(yes@ =~= seq!['y', 'e', 's']);
    }
    lowercases_to_word(&trimmed, &y) || lowercases_to_word(&trimmed, &yes)
}

/// The sysctl configuration that sets each checked parameter to its expected
/// value: one `parameter=value` line per check, in order.
pub open spec fn config_text(checks: Seq<SysctlCheck>) -> Seq<char>
    decreases checks.len(),
{
    if checks.len() == 0 {
        Seq::empty()
    } else {
        config_text(checks.drop_last()) + checks.last().parameter@ + "="@ + checks.last().expected@
            + "\n"@
    }
}

/// The configuration the hardening installs sets exactly
/// `fs.protected_symlinks=1`, `fs.protected_hardlinks=1`,
/// `kernel.kptr_restrict=2`, `kernel.randomize_va_space=2` and
/// `kernel.yama.ptrace_scope=1`, one per line, in that order.
pub proof fn lemma_config_settings()
    ensures
        config_text(audit::sysctl_table())
            == "fs.protected_symlinks=1\nfs.protected_hardlinks=1\nkernel.kptr_restrict=2\nkernel.randomize_va_space=2\nkernel.yama.ptrace_scope=1\n"@,
{
    let t = audit::sysctl_table();
    reveal_strlit("fs.protected_symlinks=1\nfs.protected_hardlinks=1\nkernel.kptr_restrict=2\nkernel.randomize_va_space=2\nkernel.yama.ptrace_scope=1\n");
    reveal_strlit("fs.protected_symlinks");
    reveal_strlit("fs.protected_hardlinks");
    reveal_strlit("kernel.kptr_restrict");
    reveal_strlit("kernel.randomize_va_space");
    reveal_strlit("kernel.yama.ptrace_scope");
    reveal_strlit("1");
    reveal_strlit("2");
    reveal_strlit("=");
    reveal_strlit("\n");
    let line = |c: SysctlCheck| c.parameter@ + "="@ + c.expected@ + "\n"@;
    let t4 = t.drop_last();
    let t3 = t4.drop_last();
    let t2 = t3.drop_last();
    let t1 = t2.drop_last();
    let t0 = t1.drop_last();
    assert(t0 =~= Seq::<SysctlCheck>::empty());
    assert(t1.last() == t[0] && t2.last() == t[1] && t3.last() == t[2] && t4.last() == t[3]);
    assert(config_text(t0) =~= Seq::<char>::empty());
    assert(config_text(t1) =~= line(t[0]));
    assert(config_text(t2) =~= line(t[0]) + line(t[1]));
    assert(config_text(t3) =~= line(t[0]) + line(t[1]) + line(t[2]));
    assert(config_text(t4) =~= line(t[0]) + line(t[1]) + line(t[2]) + line(t[3]));
    assert(config_text(t) =~= line(t[0]) + line(t[1]) + line(t[2]) + line(t[3]) + line(t[4]));
    assert(config_text(t) =~= "fs.protected_symlinks=1\nfs.protected_hardlinks=1\nkernel.kptr_restrict=2\nkernel.randomize_va_space=2\nkernel.yama.ptrace_scope=1\n"@);
}

/// The sysctl configuration that the hardening installs.
pub fn sysctl_config_content() -> (s: String)
    ensures
        s@ == config_text(audit::sysctl_table()),
{
    let checks = audit::sysctl_checks();
    let mut s = String::new();
    let mut i: usize = 0;
    proof {
        assert(checks@.take(0) =~= Seq::<SysctlCheck>::empty());
    }
    while i < checks.len()
        invariant
            i <= checks.len(),
            checks@ == audit::sysctl_table(),
            s@ == config_text(checks@.take(i as int)),
        decreases checks.len() - i,
    {
        proof {
            assert(checks@.take(i + 1).drop_last() =~= checks@.take(i as int));
        }
        text::push_str(&mut s, checks[i].parameter);
        text::push_str(&mut s, "=");
        text::push_str(&mut s, checks[i].expected);
        text::push_str(&mut s, "\n");
        proof {
            assert(s@ =~= config_text(checks@.take(i + 1)));
        }
        i = i + 1;
    }
    proof {
        assert(checks@.take(checks.len() as int) =~= checks@);
    }
    s
}

} // verus!
