//! The calls into landlock, seccompiler and libc that put the worker sandbox
//! in place. Each value handed back carries a ghost record of what was handed
//! to the outside call that made it. The records are private to this module,
//! so only the calls here set them, and the sandbox logic in
//! [`crate::sandbox`] is held, through them, to what it hands over.

use std::collections::BTreeMap;
use std::convert::TryFrom;
use std::path::PathBuf;

use landlock::{
    Access, AccessFs, CompatLevel, Compatible, PathBeneath, PathFd, Ruleset, RulesetAttr,
    RulesetCreated, RulesetCreatedAttr, ABI,
};
use seccompiler::{
    sock_filter, BpfProgram, SeccompAction, SeccompFilter, SeccompRule, TargetArch,
};
use vstd::prelude::*;

use crate::sandbox::{invalid_arch_message, is_seccomp_arch, FsAccess, Syscall, Verdict};

verus! {

#[verifier::external_type_specification]
#[verifier::external_body]
pub struct ExRulesetCreated(RulesetCreated);

#[verifier::external_type_specification]
#[verifier::external_body]
pub struct ExSeccompFilter(SeccompFilter);

#[verifier::external_type_specification]
#[verifier::external_body]
pub struct ExTargetArch(TargetArch);

#[verifier::external_type_specification]
#[verifier::external_body]
pub struct ExSockFilter(sock_filter);

/// Where a Landlock grant applies: beneath `/`, or beneath a directory.
pub enum Beneath {
    Root,
    Dir(PathBuf),
}

/// A grant handed to a Landlock ruleset: `access` beneath a directory.
pub type Grant = (FsAccess, Beneath);

/// A Landlock ruleset being built: what it handles, and the grants handed
/// to it so far, in order.
pub struct LandlockRuleset {
    ruleset: RulesetCreated,
    handled: Ghost<FsAccess>,
    granted: Ghost<Seq<Grant>>,
}

impl LandlockRuleset {
    /// The accesses the ruleset was created to handle.
    pub closed spec fn handled(&self) -> FsAccess {
        self.handled@
    }

    /// The grants handed to the ruleset, in order.
    pub closed spec fn granted(&self) -> Seq<Grant> {
        self.granted@
    }
}

/// A ruleset the calling thread restricted itself with: what it handles and
/// the grants it was handed.
pub struct LandlockRestricted {
    handled: Ghost<FsAccess>,
    granted: Ghost<Seq<Grant>>,
}

impl LandlockRestricted {
    /// The accesses the ruleset handles.
    pub closed spec fn handled(&self) -> FsAccess {
        self.handled@
    }

    /// The grants the ruleset was handed, in order.
    pub closed spec fn granted(&self) -> Seq<Grant> {
        self.granted@
    }
}

/// A syscall's number on the target platform, and which syscall it is.
pub struct SyscallNr {
    nr: i64,
    call: Ghost<Syscall>,
}

impl SyscallNr {
    /// The syscall this number is the number of.
    pub closed spec fn call(&self) -> Syscall {
        self.call@
    }
}

/// What a seccomp filter was built from: the listed syscalls, the verdict
/// for them, and the verdict for every other syscall.
pub type FilterModel = (Seq<Syscall>, Verdict, Verdict);

/// The syscalls of `numbers`, in order.
pub open spec fn calls_of(numbers: Seq<SyscallNr>) -> Seq<Syscall> {
    numbers.map_values(|n: SyscallNr| n.call())
}

/// A seccomp filter, and what it was built from.
pub struct SeccompBuilt {
    filter: SeccompFilter,
    model: Ghost<FilterModel>,
}

impl SeccompBuilt {
    /// What the filter was built from.
    pub closed spec fn model(&self) -> FilterModel {
        self.model@
    }
}

/// A compiled seccomp program, and what its filter was built from.
pub struct SeccompProgram {
    program: Vec<sock_filter>,
    model: Ghost<FilterModel>,
}

impl SeccompProgram {
    /// What the program's filter was built from.
    pub closed spec fn model(&self) -> FilterModel {
        self.model@
    }
}

/// A seccomp program installed for the calling thread, and what its filter
/// was built from.
pub struct SeccompInstalled {
    model: Ghost<FilterModel>,
}

impl SeccompInstalled {
    /// What the installed filter was built from.
    pub closed spec fn model(&self) -> FilterModel {
        self.model@
    }
}

/// landlock `Ruleset::default().set_compatibility(BestEffort)
/// .handle_access(..)?.create()`, the accesses taken from Landlock ABI v5:
/// a best-effort ruleset that handles (so, by default, denies) `handled`.
/// Trusted: the ruleset handed back records `handled` and no grant; whether
/// the calls succeed (the running kernel decides) is not stated.
#[verifier::external_body]
pub(crate) fn landlock_ruleset(handled: FsAccess) -> (r: Result<LandlockRuleset, String>)
    ensures
        r matches Ok(s) ==> s.handled() == handled && s.granted() == Seq::<Grant>::empty(),
{
    let access = match handled {
        FsAccess::ReadOnly => AccessFs::ReadFile | AccessFs::ReadDir,
        FsAccess::Write => AccessFs::from_write(ABI::V5),
        FsAccess::All => AccessFs::from_all(ABI::V5),
    };
    let ruleset = Ruleset::default().set_compatibility(CompatLevel::BestEffort);
    let handling = ruleset.handle_access(access).map_err(|e| format!("{e}"))?;
    let created = handling.create().map_err(|e| format!("{e}"))?;
    Ok(LandlockRuleset { ruleset: created, handled: Ghost(handled), granted: Ghost(Seq::empty()) })
}

/// landlock `PathFd::new("/")`, `PathBeneath::new`, `add_rule`: grants
/// `access` (from Landlock ABI v5) beneath `/`.
/// Trusted: the ruleset handed back records this grant after the earlier
/// ones; whether the calls succeed (filesystem and kernel) is not stated.
#[verifier::external_body]
pub(crate) fn landlock_allow_root(ruleset: LandlockRuleset, access: FsAccess) -> (r: Result<LandlockRuleset, String>)
    ensures
        r matches Ok(s) ==> s.handled() == ruleset.handled() && s.granted() == ruleset.granted().push(
            (access, Beneath::Root),
        ),
{
    let rights = match access {
        FsAccess::ReadOnly => AccessFs::ReadFile | AccessFs::ReadDir,
        FsAccess::Write => AccessFs::from_write(ABI::V5),
        FsAccess::All => AccessFs::from_all(ABI::V5),
    };
    let fd = PathFd::new("/").map_err(|e| format!("{e}"))?;
    let created = ruleset.ruleset.add_rule(PathBeneath::new(fd, rights)).map_err(|e| format!("{e}"))?;
    let granted = Ghost(ruleset.granted@.push((access, Beneath::Root)));
    Ok(LandlockRuleset { ruleset: created, handled: ruleset.handled, granted })
}

/// landlock `PathFd::new(path)`, `PathBeneath::new`, `add_rule`: grants
/// `access` (from Landlock ABI v5) beneath `path`.
/// Trusted: the ruleset handed back records this grant after the earlier
/// ones; whether the calls succeed (filesystem and kernel) is not stated.
#[verifier::external_body]
pub(crate) fn landlock_allow(ruleset: LandlockRuleset, path: &PathBuf, access: FsAccess) -> (r: Result<
    LandlockRuleset,
    String,
>)
    ensures
        r matches Ok(s) ==> s.handled() == ruleset.handled() && s.granted() == ruleset.granted().push(
            (access, Beneath::Dir(*path)),
        ),
{
    let rights = match access {
        FsAccess::ReadOnly => AccessFs::ReadFile | AccessFs::ReadDir,
        FsAccess::Write => AccessFs::from_write(ABI::V5),
        FsAccess::All => AccessFs::from_all(ABI::V5),
    };
    let fd = PathFd::new(path).map_err(|e| format!("{e}"))?;
    let created = ruleset.ruleset.add_rule(PathBeneath::new(fd, rights)).map_err(|e| format!("{e}"))?;
    let granted = Ghost(ruleset.granted@.push((access, Beneath::Dir(*path))));
    Ok(LandlockRuleset { ruleset: created, handled: ruleset.handled, granted })
}

/// landlock `RulesetCreated::restrict_self`: enforces the ruleset on the
/// calling thread. Trusted: on success the restriction records what the
/// ruleset handled and was granted. Whether it succeeds, and how much of the
/// ruleset a best-effort restriction enforces on the running kernel (the
/// status it reports is not examined), is not stated.
#[verifier::external_body]
pub(crate) fn landlock_restrict(ruleset: LandlockRuleset) -> (r: Result<LandlockRestricted, String>)
    ensures
        r matches Ok(a) ==> a.handled() == ruleset.handled() && a.granted() == ruleset.granted(),
{
    let (handled, granted) = (ruleset.handled, ruleset.granted);
    match ruleset.ruleset.restrict_self() {
        Ok(_) => Ok(LandlockRestricted { handled, granted }),
        Err(e) => Err(format!("{e}")),
    }
}

/// libc `SYS_*`: the number of `s` on the target platform. Trusted: the
/// number handed back records `s`; the numbers themselves differ between
/// architectures, so nothing is stated of them.
#[verifier::external_body]
pub(crate) fn syscall_number(s: Syscall) -> (r: SyscallNr)
    ensures
        r.call() == s,
{
    let nr = match s {
        Syscall::Execve => libc::SYS_execve, Syscall::Execveat => libc::SYS_execveat,
        Syscall::Ptrace => libc::SYS_ptrace, Syscall::ProcessVmReadv => libc::SYS_process_vm_readv,
        Syscall::ProcessVmWritev => libc::SYS_process_vm_writev,
        Syscall::KexecLoad => libc::SYS_kexec_load, Syscall::Reboot => libc::SYS_reboot,
        Syscall::Mount => libc::SYS_mount, Syscall::Umount2 => libc::SYS_umount2,
        Syscall::PivotRoot => libc::SYS_pivot_root, Syscall::Swapon => libc::SYS_swapon,
        Syscall::Swapoff => libc::SYS_swapoff, Syscall::InitModule => libc::SYS_init_module,
        Syscall::FinitModule => libc::SYS_finit_module, Syscall::DeleteModule => libc::SYS_delete_module,
    };
    SyscallNr { nr, call: Ghost(s) }
}

/// seccompiler `TargetArch::try_from(name)`, its error written out with
/// `Display`. Trusted: seccompiler lower-cases `name` and accepts exactly
/// `x86_64`, `aarch64` and `riscv64` (no other character lower-cases to the
/// letters of these names), and otherwise fails with `InvalidTargetArch`,
/// whose message is `Invalid target arch: <name>.`.
#[verifier::external_body]
pub(crate) fn target_arch(name: &str) -> (r: Result<TargetArch, String>)
    ensures
        r is Ok <==> is_seccomp_arch(name@),
        r matches Err(m) ==> m@ == invalid_arch_message(name@),
{
    TargetArch::try_from(name).map_err(|e| format!("{e}"))
}

/// seccompiler `SeccompFilter::new`: a filter for `arch` that gives `listed`
/// to the syscalls of `numbers` (each unconditionally) and `otherwise` to all
/// others; `DenyWithEperm` is `Errno(EPERM)`. Trusted: the filter handed back
/// records those syscalls and the two verdicts; whether it builds is not
/// stated.
#[verifier::external_body]
pub(crate) fn seccomp_filter(numbers: &[SyscallNr], listed: Verdict, otherwise: Verdict, arch: TargetArch) -> (r: Result<
    SeccompBuilt,
    String,
>)
    ensures
        r matches Ok(f) ==> f.model() == (calls_of(numbers@), listed, otherwise),
{
    let rules: BTreeMap<i64, Vec<SeccompRule>> = numbers.iter().map(|n| (n.nr, vec![])).collect();
    let action = |v: Verdict| match v {
        Verdict::Allow => SeccompAction::Allow,
        Verdict::DenyWithEperm => SeccompAction::Errno(libc::EPERM as u32),
    };
    let filter = SeccompFilter::new(rules, action(otherwise), action(listed), arch).map_err(|e| format!("{e}"))?;
    Ok(SeccompBuilt { filter, model: Ghost((calls_of(numbers@), listed, otherwise)) })
}

/// seccompiler `BpfProgram::try_from(filter)`: compiles the filter.
/// Trusted: the program handed back records what the filter was built from;
/// whether it compiles is not stated.
#[verifier::external_body]
pub(crate) fn seccomp_compile(filter: SeccompBuilt) -> (r: Result<SeccompProgram, String>)
    ensures
        r matches Ok(p) ==> p.model() == filter.model(),
{
    let model = filter.model;
    match BpfProgram::try_from(filter.filter) {
        Ok(program) => Ok(SeccompProgram { program, model }),
        Err(e) => Err(format!("{e}")),
    }
}

/// seccompiler `apply_filter`: installs the program for the calling thread.
/// Trusted: on success the installed filter records what the program's
/// filter was built from; whether the kernel accepts it is not stated.
#[verifier::external_body]
pub(crate) fn seccomp_install(program: &SeccompProgram) -> (r: Result<SeccompInstalled, String>)
    ensures
        r matches Ok(i) ==> i.model() == program.model(),
{
    match seccompiler::apply_filter(&program.program) {
        Ok(()) => Ok(SeccompInstalled { model: program.model }),
        Err(e) => Err(format!("{e}")),
    }
}

} // verus!
