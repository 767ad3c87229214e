//! Filesystem/syscall sandbox applied by the PDF worker subprocesses before
//! they touch any untrusted PDF bytes: Landlock makes the filesystem
//! read-only (plus write access to the given directories) and forbids
//! executing files; a seccomp filter refuses a small set of syscalls a PDF
//! renderer has no use for.
//!
//! Best-effort: on a kernel without Landlock/seccomp support the worker just
//! runs unsandboxed; the report says which layer was not applied and why.

use std::path::PathBuf;

use vstd::prelude::*;

use crate::autosave::eq_ignore_ascii_case;
use crate::sandbox_calls::{
    calls_of, landlock_allow, landlock_allow_root, landlock_restrict, landlock_ruleset, seccomp_compile,
    seccomp_filter, seccomp_install, syscall_number, target_arch, SyscallNr,
};
pub use crate::sandbox_calls::{Beneath, FilterModel, Grant, LandlockRestricted, SeccompInstalled};

verus! {

/// The syscalls the worker filter refuses: spawning a process, ptrace-style
/// injection, and kernel/module tampering.
#[derive(Clone, Copy, Debug, PartialEq, Eq, Structural)]
pub enum Syscall {
    Execve,
    Execveat,
    Ptrace,
    ProcessVmReadv,
    ProcessVmWritev,
    KexecLoad,
    Reboot,
    Mount,
    Umount2,
    PivotRoot,
    Swapon,
    Swapoff,
    InitModule,
    FinitModule,
    DeleteModule,
}

/// What a seccomp filter does with a syscall.
#[derive(Clone, Copy, Debug, PartialEq, Eq, Structural)]
pub enum Verdict {
    Allow,
    /// Fail the syscall with `EPERM`.
    DenyWithEperm,
}

/// A set of Landlock filesystem accesses: what a ruleset handles, or what
/// one of its rules grants beneath a directory.
#[derive(Clone, Copy, Debug, PartialEq, Eq, Structural)]
pub enum FsAccess {
    /// Reading files and listing directories.
    ReadOnly,
    /// Every write access of Landlock ABI v5.
    Write,
    /// Every access of Landlock ABI v5 (reading, writing and executing).
    All,
}

/// The directory a Landlock rule applies beneath.
#[derive(Clone, Copy, Debug, PartialEq, Eq, Structural)]
pub enum RuleTarget {
    /// The filesystem root, `/`.
    Root,
    /// The write directory at this index of the caller's list.
    WriteDir(usize),
}

/// One Landlock rule: `access` is granted beneath `target`.
#[derive(Clone, Copy, Debug, PartialEq, Eq, Structural)]
pub struct LandlockRule {
    pub target: RuleTarget,
    pub access: FsAccess,
}

/// The Landlock ruleset the worker restricts itself with: every access in
/// `handled` is denied except where one of `rules` grants it.
#[derive(Debug)]
pub struct LandlockPlan {
    pub handled: FsAccess,
    pub rules: Vec<LandlockRule>,
}

/// The seccomp filter the worker installs: each syscall of `refused` gets
/// the verdict `listed`, every other syscall gets `otherwise`.
#[derive(Debug)]
pub struct SeccompPlan {
    pub refused: Vec<Syscall>,
    pub listed: Verdict,
    pub otherwise: Verdict,
}

/// The outcome of each sandbox layer: what was put in place, or (`Err`)
/// why it was not applied.
pub struct SandboxReport {
    pub landlock: Result<LandlockRestricted, String>,
    pub seccomp: Result<SeccompInstalled, String>,
}

/// The refused syscalls, in the order the filter lists them.
pub open spec fn blocked() -> Seq<Syscall> {
    seq![
        Syscall::Execve,
        Syscall::Execveat,
        Syscall::Ptrace,
        Syscall::ProcessVmReadv,
        Syscall::ProcessVmWritev,
        Syscall::KexecLoad,
        Syscall::Reboot,
        Syscall::Mount,
        Syscall::Umount2,
        Syscall::PivotRoot,
        Syscall::Swapon,
        Syscall::Swapoff,
        Syscall::InitModule,
        Syscall::FinitModule,
        Syscall::DeleteModule,
    ]
}

/// The syscalls the worker filter refuses.
pub fn blocked_syscalls() -> (v: Vec<Syscall>)
    ensures
        v@ == blocked(),
{
    let v = vec![
        Syscall::Execve,
        Syscall::Execveat,
        Syscall::Ptrace,
        Syscall::ProcessVmReadv,
        Syscall::ProcessVmWritev,
        Syscall::KexecLoad,
        Syscall::Reboot,
        Syscall::Mount,
        Syscall::Umount2,
        Syscall::PivotRoot,
        Syscall::Swapon,
        Syscall::Swapoff,
        Syscall::InitModule,
        Syscall::FinitModule,
        Syscall::DeleteModule,
    ];
    proof {
        assert(v@ =~= blocked());
    }
    v
}

/// The rules of the worker's Landlock ruleset for `n_write_dirs` write
/// directories: `/` read-only, then write access beneath each write
/// directory, in the caller's order.
pub open spec fn landlock_rules(n_write_dirs: nat) -> Seq<LandlockRule> {
    seq![LandlockRule { target: RuleTarget::Root, access: FsAccess::ReadOnly }] + Seq::new(
        n_write_dirs,
        |i: int| write_rule(i as usize),
    )
}

/// The rule granting write access beneath the write directory at `index`.
pub open spec fn write_rule(index: usize) -> LandlockRule {
    LandlockRule { target: RuleTarget::WriteDir(index), access: FsAccess::Write }
}

/// The worker's Landlock ruleset for `n_write_dirs` write directories: it
/// handles every filesystem access (so executing is denied everywhere),
/// grants reading beneath `/` and writing beneath each write directory.
pub fn landlock_plan(n_write_dirs: usize) -> (plan: LandlockPlan)
    ensures
        plan.handled == FsAccess::All,
        plan.rules@ == landlock_rules(n_write_dirs as nat),
{
    let mut rules: Vec<LandlockRule> = Vec::new();
    rules.push(LandlockRule { target: RuleTarget::Root, access: FsAccess::ReadOnly });
    let mut i: usize = 0;
    while i < n_write_dirs
        invariant
            i <= n_write_dirs,
            rules@ == landlock_rules(i as nat),
        decreases n_write_dirs - i,
    {
        rules.push(LandlockRule { target: RuleTarget::WriteDir(i), access: FsAccess::Write });
        proof {
            assert(rules@ =~= landlock_rules((i + 1) as nat));
        }
        i = i + 1;
    }
    LandlockPlan { handled: FsAccess::All, rules }
}

/// The worker's seccomp filter: the [`blocked_syscalls`] fail with `EPERM`,
/// every other syscall is allowed.
pub fn seccomp_plan() -> (plan: SeccompPlan)
    ensures
        plan.refused@ == blocked(),
        plan.listed == Verdict::DenyWithEperm,
        plan.otherwise == Verdict::Allow,
{
    SeccompPlan {
        refused: blocked_syscalls(),
        listed: Verdict::DenyWithEperm,
        otherwise: Verdict::Allow,
    }
}

/// The architectures seccompiler builds filters for, named in any ASCII
/// case: `x86_64`, `aarch64`, `riscv64`.
pub open spec fn is_seccomp_arch(name: Seq<char>) -> bool {
    ||| eq_ignore_ascii_case(name, seq!['x', '8', '6', '_', '6', '4'])
    ||| eq_ignore_ascii_case(name, seq!['a', 'a', 'r', 'c', 'h', '6', '4'])
    ||| eq_ignore_ascii_case(name, seq!['r', 'i', 's', 'c', 'v', '6', '4'])
}

/// The message seccompiler gives for an architecture `name` it does not
/// know: `Invalid target arch: <name>.`.
pub open spec fn invalid_arch_message(name: Seq<char>) -> Seq<char> {
    "Invalid target arch: "@ + name + "."@
}

/// The grants the worker's Landlock ruleset hands out for the write
/// directories `write_dirs`: reading beneath `/`, then writing beneath each
/// write directory, in order.
pub open spec fn landlock_grants(write_dirs: Seq<PathBuf>) -> Seq<Grant> {
    seq![(FsAccess::ReadOnly, Beneath::Root)] + write_dirs.map_values(
        |d: PathBuf| (FsAccess::Write, Beneath::Dir(d)),
    )
}

/// Writing is granted beneath the write directories and nowhere else: the
/// grant beneath `/` is for reading only, every grant for more than reading
/// is a write grant beneath one of `write_dirs`, and each of `write_dirs`
/// gets one.
pub proof fn lemma_writes_only_beneath_write_dirs(write_dirs: Seq<PathBuf>)
    ensures
        forall|k: int|
            0 <= k < landlock_grants(write_dirs).len() && (#[trigger] landlock_grants(write_dirs)[k]).1 is Root
                ==> landlock_grants(write_dirs)[k].0 == FsAccess::ReadOnly,
        forall|k: int|
            0 <= k < landlock_grants(write_dirs).len() && (#[trigger] landlock_grants(write_dirs)[k]).0
                != FsAccess::ReadOnly ==> landlock_grants(write_dirs)[k].0 == FsAccess::Write && (landlock_grants(
                write_dirs,
            )[k].1 matches Beneath::Dir(d) && write_dirs.contains(d)),
        forall|i: int|
            0 <= i < write_dirs.len() ==> landlock_grants(write_dirs).contains(
                (FsAccess::Write, Beneath::Dir(#[trigger] write_dirs[i])),
            ),
{
    let grants = landlock_grants(write_dirs);
    assert forall|k: int| 1 <= k < grants.len() implies grants[k] == (
        FsAccess::Write,
        Beneath::Dir(write_dirs[k - 1]),
    ) && write_dirs.contains(write_dirs[k - 1]) by {
        assert(write_dirs[k - 1] == write_dirs[k - 1]);
    }
    assert forall|i: int| 0 <= i < write_dirs.len() implies grants.contains(
        (FsAccess::Write, Beneath::Dir(#[trigger] write_dirs[i])),
    ) by {
        assert(grants[i + 1] == (FsAccess::Write, Beneath::Dir(write_dirs[i])));
    }
}

/// The grant `rule` stands for, its write directory taken from `write_dirs`.
pub open spec fn grant_of(rule: LandlockRule, write_dirs: Seq<PathBuf>) -> Grant {
    match rule.target {
        RuleTarget::Root => (rule.access, Beneath::Root),
        RuleTarget::WriteDir(i) => (rule.access, Beneath::Dir(write_dirs[i as int])),
    }
}

/// The filter the worker installs: the [`blocked`] syscalls are refused
/// with `EPERM`, every other syscall is allowed.
pub open spec fn worker_filter() -> FilterModel {
    (blocked(), Verdict::DenyWithEperm, Verdict::Allow)
}

/// Restricts the calling thread with the [`landlock_plan`] for
/// `write_dirs`: a ruleset that handles every filesystem access (so nothing
/// can be executed), reading granted beneath `/` and writing beneath each of
/// `write_dirs`. Whether each step succeeds is up to the kernel; the first
/// failure is returned. On success the restriction holds exactly
/// [`landlock_grants`] of `write_dirs`.
pub fn apply_landlock(write_dirs: &[PathBuf]) -> (r: Result<LandlockRestricted, String>)
    ensures
        r matches Ok(a) ==> a.handled() == FsAccess::All && a.granted() == landlock_grants(write_dirs@),
{
    let plan = landlock_plan(write_dirs.len());
    let ghost rules = landlock_rules(write_dirs@.len());
    let mut ruleset = landlock_ruleset(plan.handled)?;
    let mut k: usize = 0;
    while k < plan.rules.len()
        invariant
            plan.rules@ == rules,
            rules == landlock_rules(write_dirs@.len()),
            k <= rules.len(),
            ruleset.handled() == FsAccess::All,
            ruleset.granted() == rules.take(k as int).map_values(|x: LandlockRule| grant_of(x, write_dirs@)),
        decreases rules.len() - k,
    {
        let rule = plan.rules[k];
        let ghost before = ruleset.granted();
        ruleset = match rule.target {
            RuleTarget::Root => landlock_allow_root(ruleset, rule.access)?,
            RuleTarget::WriteDir(i) => landlock_allow(ruleset, &write_dirs[i], rule.access)?,
        };
        proof {
            assert(ruleset.granted() == before.push(grant_of(rule, write_dirs@)));
            assert(rules.take(k + 1).map_values(|x: LandlockRule| grant_of(x, write_dirs@)) =~= rules.take(
                k as int,
            ).map_values(|x: LandlockRule| grant_of(x, write_dirs@)).push(grant_of(rule, write_dirs@)));
        }
        k = k + 1;
    }
    proof {
        assert(rules.take(rules.len() as int) =~= rules);
        assert(rules.map_values(|x: LandlockRule| grant_of(x, write_dirs@)) =~= landlock_grants(write_dirs@));
    }
    landlock_restrict(ruleset)
}

/// Installs the [`seccomp_plan`] for the architecture named `arch` (as
/// `std::env::consts::ARCH` names it): the [`blocked_syscalls`] fail with
/// `EPERM`, everything else is allowed. An architecture seccompiler does not
/// know is refused with its message; for a known one, whether the filter is
/// built and installed is up to seccompiler and the kernel. On success the
/// installed filter is the [`worker_filter`].
pub fn apply_seccomp(arch: &str) -> (r: Result<SeccompInstalled, String>)
    ensures
        !is_seccomp_arch(arch@) ==> (r matches Err(m) && m@ == invalid_arch_message(arch@)),
        r matches Ok(i) ==> i.model() == worker_filter(),
{
    let plan = seccomp_plan();
    let mut numbers: Vec<SyscallNr> = Vec::new();
    let mut i: usize = 0;
    while i < plan.refused.len()
        invariant
            i <= plan.refused@.len(),
            calls_of(numbers@) == plan.refused@.take(i as int),
        decreases plan.refused@.len() - i,
    {
        let nr = syscall_number(plan.refused[i]);
        let ghost before = numbers@;
        numbers.push(nr);
        proof {
            assert(numbers@ == before.push(nr));
            assert(calls_of(numbers@) =~= calls_of(before).push(nr.call()));
            assert(calls_of(numbers@) =~= plan.refused@.take(i + 1));
        }
        i = i + 1;
    }
    proof {
        assert(plan.refused@.take(plan.refused@.len() as int) =~= plan.refused@);
    }
    let target = match target_arch(arch) {
        Ok(t) => t,
        Err(m) => return Err(m),
    };
    let filter = seccomp_filter(numbers.as_slice(), plan.listed, plan.otherwise, target)?;
    let program = seccomp_compile(filter)?;
    seccomp_install(&program)
}

/// Applies both layers: write access only beneath `write_dirs`, and the
/// syscall filter for `arch`. Each layer is attempted whatever the other
/// gives, and the report holds each layer's own outcome: a restriction that
/// holds exactly the grants for `write_dirs`, and the worker's filter, or
/// why the layer was not applied (an architecture seccompiler does not know
/// shows as the seccomp layer's error).
pub fn apply(write_dirs: &[PathBuf], arch: &str) -> (report: SandboxReport)
    ensures
        call_ensures(apply_landlock, (write_dirs,), report.landlock),
        call_ensures(apply_seccomp, (arch,), report.seccomp),
        report.landlock matches Ok(a) ==> a.handled() == FsAccess::All && a.granted() == landlock_grants(
            write_dirs@,
        ),
        report.seccomp matches Ok(i) ==> i.model() == worker_filter(),
        !is_seccomp_arch(arch@) ==> (report.seccomp matches Err(m) && m@ == invalid_arch_message(arch@)),
{
    let landlock = apply_landlock(write_dirs);
    let seccomp = apply_seccomp(arch);
    SandboxReport { landlock, seccomp }
}

} // verus!
