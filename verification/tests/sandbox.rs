use inkpdf::sandbox::{
    apply_seccomp, blocked_syscalls, landlock_plan, seccomp_plan, FsAccess, LandlockRule, RuleTarget,
    Syscall, Verdict,
};

#[test]
fn filter_refuses_process_spawning_and_kernel_tampering() {
    let calls = blocked_syscalls();
    assert_eq!(calls[0], Syscall::Execve);
    assert!(calls.contains(&Syscall::Ptrace));
    assert!(calls.contains(&Syscall::Mount));
    assert!(calls.contains(&Syscall::DeleteModule));
}

#[test]
fn unknown_architecture_is_reported_not_installed() {
    assert!(apply_seccomp("not-an-arch").is_err());
}

#[test]
fn unknown_architecture_error_names_it() {
    assert_eq!(apply_seccomp("sparc").err(), Some("Invalid target arch: sparc.".to_string()));
}

#[test]
fn landlock_plan_reads_everywhere_and_writes_only_beneath_the_write_dirs() {
    let plan = landlock_plan(2);
    assert_eq!(plan.handled, FsAccess::All);
    assert_eq!(
        plan.rules,
        vec![
            LandlockRule { target: RuleTarget::Root, access: FsAccess::ReadOnly },
            LandlockRule { target: RuleTarget::WriteDir(0), access: FsAccess::Write },
            LandlockRule { target: RuleTarget::WriteDir(1), access: FsAccess::Write },
        ]
    );
}

#[test]
fn landlock_plan_without_write_dirs_is_read_only() {
    let plan = landlock_plan(0);
    assert_eq!(plan.handled, FsAccess::All);
    assert_eq!(plan.rules, vec![LandlockRule { target: RuleTarget::Root, access: FsAccess::ReadOnly }]);
}

#[test]
fn seccomp_plan_refuses_the_blocked_syscalls_with_eperm_and_allows_the_rest() {
    let plan = seccomp_plan();
    assert_eq!(plan.refused, blocked_syscalls());
    assert_eq!(plan.refused.len(), 15);
    assert_eq!(plan.listed, Verdict::DenyWithEperm);
    assert_eq!(plan.otherwise, Verdict::Allow);
}
