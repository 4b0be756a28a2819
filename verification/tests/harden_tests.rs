use auditguard::audit::ListeningPort;
use auditguard::harden::{
    contains_string, is_affirmative, suid_hardening_candidates, sysctl_config_content,
    unprivileged_ports,
};

#[test]
fn candidates_follow_offer_order() {
    let found = vec![
        "/bin/write".to_string(),
        "/usr/bin/passwd".to_string(),
        "/usr/bin/chsh".to_string(),
        "/bin/newgrp".to_string(),
    ];
    assert_eq!(suid_hardening_candidates(&found), vec!["/usr/bin/chsh", "/bin/newgrp", "/bin/write"]);
    assert!(suid_hardening_candidates(&vec![]).is_empty());
    assert!(contains_string(&found, "/usr/bin/passwd"));
    assert!(!contains_string(&found, "/usr/bin/passw"));
}

#[test]
fn only_ports_above_1024_are_blocked() {
    let ports: Vec<ListeningPort> = [22u16, 1024, 1025, 8080]
        .iter()
        .map(|&p| ListeningPort { protocol: "TCP".into(), ip: "0.0.0.0".into(), port: p })
        .collect();
    let chosen: Vec<u16> = unprivileged_ports(&ports).iter().map(|p| p.port).collect();
    assert_eq!(chosen, vec![1025, 8080]);
}

#[test]
fn answers_that_confirm() {
    for a in ["y", "Y", "yes", "YeS", "  yes\n", "y\r\n"] {
        assert!(is_affirmative(a), "{:?}", a);
        assert_eq!(is_affirmative(a), { let t = a.trim().to_lowercase(); t == "y" || t == "yes" });
    }
    for a in ["", "n", "no", "ye", "yess", "y es", "ÿ"] {
        assert!(!is_affirmative(a), "{:?}", a);
    }
}

#[test]
fn config_sets_every_checked_parameter() {
    assert_eq!(
        sysctl_config_content(),
        "fs.protected_symlinks=1\nfs.protected_hardlinks=1\nkernel.kptr_restrict=2\nkernel.randomize_va_space=2\nkernel.yama.ptrace_scope=1\n"
    );
}

#[test]
fn only_ascii_letters_lowercase_to_the_answer_letters() {
    for u in 0..=0x10FFFFu32 {
        if let Some(c) = char::from_u32(u) {
            let s = c.to_string();
            assert_eq!(is_affirmative(&s), s.trim().to_lowercase() == "y", "U+{:04X}", u);
            let yes = format!("y{}s", c);
            let lowered = yes.to_lowercase();
            assert_eq!(is_affirmative(&yes), lowered == "yes" || lowered == "y", "U+{:04X}", u);
        }
    }
}
