//! The helper that restricts itself and becomes the command.

use vstd::prelude::*;

use crate::outside::compile_filter;
use crate::outside::filter_program;
use crate::outside::program_result;
use crate::sandbox::EXEC_ARG;
use crate::text::concat;
use crate::text::concat3;
use crate::text::decimal;
use crate::text::fields_of;
use crate::text::lines;
use crate::text::lines_of;
use crate::text::number_in;
use crate::text::numeral;
use crate::text::parse_u64;
use crate::text::same_text;
use crate::text::split_whitespace;
use crate::text::texts;
use crate::text::trim;
use crate::text::trimmed;

verus! {

/// The program that the helper is to become, and its arguments.
#[derive(Debug)]
pub struct HelperTask {
    pub program: String,
    pub args: Vec<String>,
}

/// What is said where the helper has nothing to become.
pub const NO_PROGRAM: &'static str = "pc sandbox helper missing program";

/// What the program was started for, given all its arguments with its own name first: the
/// helper's task or that there is none where the first argument is the helper's marker, else
/// nothing.
pub fn maybe_handle_entrypoint(args: &Vec<String>) -> (r: Option<Result<HelperTask, String>>)
    ensures
        ({
            let all = texts(args@);
            if all.len() < 2 || all[1] != EXEC_ARG@ {
                r is None
            } else if all.len() == 2 {
                r matches Some(Err(m)) && m@ == NO_PROGRAM@
            } else {
                r matches Some(Ok(task)) && task.program@ == all[2] && texts(task.args@)
                    == all.skip(3)
            }
        }),
{
    if args.len() < 2 {
        return None;
    }
    assert(texts(args@)[1] == args@[1]@);
    if !same_text(args[1].as_str(), EXEC_ARG) {
        return None;
    }
    if args.len() == 2 {
        return Some(Err(NO_PROGRAM.to_owned()));
    }
    let program = args[2].clone();
    let mut rest: Vec<String> = Vec::new();
    let mut i: usize = 3;
    assert(texts(rest@) =~= texts(args@).subrange(3, 3));
    while i < args.len()
        invariant
            3 <= i <= args@.len(),
            texts(rest@) == texts(args@).subrange(3, i as int),
        decreases args@.len() - i,
    {
        let ghost before = texts(rest@);
        rest.push(args[i].clone());
        i += 1;
        assert(texts(rest@) =~= before.push(args@[i - 1]@));
        assert(texts(args@).subrange(3, i as int) =~= texts(args@).subrange(3, i - 1).push(
            args@[i - 1]@,
        ));
    }
    assert(texts(args@).subrange(3, args@.len() as int) =~= texts(args@).skip(3));
    Some(Ok(HelperTask { program, args: rest }))
}

/// What the helper does, one after the other, before it becomes the command.
#[derive(Debug, Clone, Copy, PartialEq, Eq, Structural)]
pub enum HelperStep {
    /// Leave the host's network.
    IsolateNetwork,
    /// Give up the right to gain privileges.
    NoNewPrivileges,
    /// Restrict the file system and the system calls.
    ApplyPolicy,
    /// Give up all capabilities.
    DropCapabilities,
    /// Give up: the system cannot restrict commands.
    Refuse,
}

/// What is said on systems that cannot restrict commands.
pub const NOT_LINUX: &'static str = "pc safe sandbox requires Linux; refusing to run unsandboxed";

/// What the helper does, in its order.
pub open spec fn helper_steps_of(linux: bool, network: bool) -> Seq<HelperStep> {
    if !linux {
        seq![HelperStep::Refuse]
    } else if network {
        seq![HelperStep::NoNewPrivileges, HelperStep::ApplyPolicy, HelperStep::DropCapabilities]
    } else {
        seq![
            HelperStep::IsolateNetwork,
            HelperStep::NoNewPrivileges,
            HelperStep::ApplyPolicy,
            HelperStep::DropCapabilities,
        ]
    }
}

/// What the helper does, in its order.
pub fn helper_steps(linux: bool, network: bool) -> (r: Vec<HelperStep>)
    ensures
        r@ == helper_steps_of(linux, network),
{
    let mut steps: Vec<HelperStep> = Vec::new();
    if !linux {
        steps.push(HelperStep::Refuse);
    } else {
        if !network {
            steps.push(HelperStep::IsolateNetwork);
        }
        steps.push(HelperStep::NoNewPrivileges);
        steps.push(HelperStep::ApplyPolicy);
        steps.push(HelperStep::DropCapabilities);
    }
    assert(steps@ =~= helper_steps_of(linux, network));
    steps
}

/// A command never runs unrestricted: the helper either refuses or applies its policy and then
/// drops its capabilities, and it leaves the network first where the command may not use it.
pub proof fn lemma_commands_are_restricted(linux: bool, network: bool)
    ensures
        ({
            let steps = helper_steps_of(linux, network);
            let n = steps.len() as int;
            ||| steps == seq![HelperStep::Refuse]
            ||| {
                &&& n >= 3
                &&& steps[n - 3] == HelperStep::NoNewPrivileges
                &&& steps[n - 2] == HelperStep::ApplyPolicy
                &&& steps[n - 1] == HelperStep::DropCapabilities
                &&& !network ==> steps[0] == HelperStep::IsolateNetwork
            }
        }),
{
}

// ---------------------------------------------------------------------------------------
// Landlock

/// How far the kernel enforces a set of rules.
#[derive(Debug, Clone, Copy, PartialEq, Eq, Structural)]
pub enum Enforcement {
    Whole,
    Partial,
    Nothing,
}

/// What follows from how far the kernel enforces the rules.
#[derive(Debug, Clone, Copy, PartialEq, Eq, Structural)]
pub enum LandlockVerdict {
    /// The rules are enforced.
    Enforced,
    /// Nothing is enforced: restrict the file system by a namespace.
    UseNamespace,
    /// It is unclear what is enforced: give up.
    Refuse,
}

/// What follows from how far the kernel enforces the rules, and from whether the right to gain
/// privileges has been given up.
pub open spec fn verdict_on(enforced: Enforcement, no_new_privs: bool) -> LandlockVerdict {
    match enforced {
        Enforcement::Whole => if no_new_privs {
            LandlockVerdict::Enforced
        } else {
            LandlockVerdict::Refuse
        },
        Enforcement::Nothing => LandlockVerdict::UseNamespace,
        Enforcement::Partial => LandlockVerdict::Refuse,
    }
}

/// What follows from how far the kernel enforces the rules, and from whether the right to gain
/// privileges has been given up.
pub fn judge_landlock(enforced: Enforcement, no_new_privs: bool) -> (r: LandlockVerdict)
    ensures
        r == verdict_on(enforced, no_new_privs),
{
    match enforced {
        Enforcement::Whole => if no_new_privs {
            LandlockVerdict::Enforced
        } else {
            LandlockVerdict::Refuse
        },
        Enforcement::Nothing => LandlockVerdict::UseNamespace,
        Enforcement::Partial => LandlockVerdict::Refuse,
    }
}

/// What the helper does to apply its policy, once the rules have been handed to the kernel.
#[derive(Debug, Clone, Copy, PartialEq, Eq, Structural)]
pub enum PolicyStep {
    /// Restrict the file system by a namespace.
    EnterNamespace,
    /// Install the filter for system calls.
    InstallFilter,
    /// Give up.
    Refuse,
}

/// What the helper does to apply its policy, in its order.
pub open spec fn policy_steps_of(verdict: LandlockVerdict) -> Seq<PolicyStep> {
    match verdict {
        LandlockVerdict::Enforced => seq![PolicyStep::InstallFilter],
        LandlockVerdict::UseNamespace => seq![
            PolicyStep::EnterNamespace,
            PolicyStep::InstallFilter,
        ],
        LandlockVerdict::Refuse => seq![PolicyStep::Refuse],
    }
}

/// What the helper does to apply its policy, in its order. The policy is applied once all of
/// it has succeeded.
pub fn policy_steps(verdict: LandlockVerdict) -> (r: Vec<PolicyStep>)
    ensures
        r@ == policy_steps_of(verdict),
{
    let mut steps: Vec<PolicyStep> = Vec::new();
    match verdict {
        LandlockVerdict::Enforced => {
            steps.push(PolicyStep::InstallFilter);
        },
        LandlockVerdict::UseNamespace => {
            steps.push(PolicyStep::EnterNamespace);
            steps.push(PolicyStep::InstallFilter);
        },
        LandlockVerdict::Refuse => {
            steps.push(PolicyStep::Refuse);
        },
    }
    assert(steps@ =~= policy_steps_of(verdict));
    steps
}

/// What keeps the policy from being applied.
#[derive(Debug, Clone, Copy, PartialEq, Eq, Structural)]
pub enum PolicyProblem {
    /// The system cannot restrict commands.
    NotLinux,
    /// The rules could not be handed to the kernel.
    Landlock,
    /// It is unclear what is enforced.
    Ambiguous,
    /// Nothing is enforced and the namespace was not entered.
    Namespace,
    /// The filter for system calls was not installed.
    Filter,
}

/// What comes of applying the policy, given how far the kernel enforces the rules and whether
/// the right to gain privileges has been given up, where the rules could be handed to it, and
/// given whether the namespace was entered and the filter installed.
pub open spec fn policy_outcome(
    linux: bool,
    landlock: Option<(Enforcement, bool)>,
    namespace: bool,
    filter: bool,
) -> Result<(), PolicyProblem> {
    if !linux {
        Err(PolicyProblem::NotLinux)
    } else {
        match landlock {
            None => Err(PolicyProblem::Landlock),
            Some((enforced, no_new_privs)) => match verdict_on(enforced, no_new_privs) {
                LandlockVerdict::Refuse => Err(PolicyProblem::Ambiguous),
                verdict => if verdict == LandlockVerdict::UseNamespace && !namespace {
                    Err(PolicyProblem::Namespace)
                } else if !filter {
                    Err(PolicyProblem::Filter)
                } else {
                    Ok(())
                },
            },
        }
    }
}

/// What comes of applying the policy. The policy is applied only where the sandbox is complete:
/// the file system is restricted, by the kernel's rules or by the namespace, and the filter for
/// system calls is installed.
pub fn apply_policy(
    linux: bool,
    landlock: Option<(Enforcement, bool)>,
    namespace: bool,
    filter: bool,
) -> (r: Result<(), PolicyProblem>)
    ensures
        r == policy_outcome(linux, landlock, namespace, filter),
        r is Ok <==> linux && filter && match landlock {
            Some((Enforcement::Whole, no_new_privs)) => no_new_privs,
            Some((Enforcement::Nothing, _)) => namespace,
            Some((Enforcement::Partial, _)) => false,
            None => false,
        },
{
    if !linux {
        return Err(PolicyProblem::NotLinux);
    }
    let (enforced, no_new_privs) = match landlock {
        Some(report) => report,
        None => {
            return Err(PolicyProblem::Landlock);
        },
    };
    match judge_landlock(enforced, no_new_privs) {
        LandlockVerdict::Refuse => {
            return Err(PolicyProblem::Ambiguous);
        },
        LandlockVerdict::UseNamespace => {
            if !namespace {
                return Err(PolicyProblem::Namespace);
            }
        },
        LandlockVerdict::Enforced => {},
    }
    if filter {
        Ok(())
    } else {
        Err(PolicyProblem::Filter)
    }
}

/// Whether a step succeeds, given whether the namespace can be entered and whether the filter
/// can be installed.
pub open spec fn step_succeeds(step: PolicyStep, namespace: bool, filter: bool) -> bool {
    match step {
        PolicyStep::EnterNamespace => namespace,
        PolicyStep::InstallFilter => filter,
        PolicyStep::Refuse => false,
    }
}

/// Whether all of the steps succeed.
pub open spec fn all_succeed(steps: Seq<PolicyStep>, namespace: bool, filter: bool) -> bool {
    forall|i: int| 0 <= i < steps.len() ==> step_succeeds(#[trigger] steps[i], namespace, filter)
}

/// The policy is complete only once the filter for system calls is installed: but for the
/// verdict that refuses, that is the last step.
pub proof fn lemma_the_filter_comes_last(verdict: LandlockVerdict)
    ensures
        verdict != LandlockVerdict::Refuse ==> policy_steps_of(verdict).last()
            == PolicyStep::InstallFilter,
        verdict == LandlockVerdict::Refuse ==> policy_steps_of(verdict).contains(
            PolicyStep::Refuse,
        ),
{
    if verdict == LandlockVerdict::Refuse {
        assert(policy_steps_of(verdict)[0] == PolicyStep::Refuse);
    }
}

/// On Linux, once the rules have been handed to the kernel, the policy is applied exactly where
/// all of the helper's steps succeed.
pub proof fn lemma_policy_is_applied_by_its_steps(
    enforced: Enforcement,
    no_new_privs: bool,
    namespace: bool,
    filter: bool,
)
    ensures
        all_succeed(policy_steps_of(verdict_on(enforced, no_new_privs)), namespace, filter)
            <==> policy_outcome(true, Some((enforced, no_new_privs)), namespace, filter) is Ok,
{
    let steps = policy_steps_of(verdict_on(enforced, no_new_privs));
    if all_succeed(steps, namespace, filter) {
        assert(step_succeeds(steps[0], namespace, filter));
        assert(step_succeeds(steps[steps.len() - 1], namespace, filter));
    }
}

// ---------------------------------------------------------------------------------------
// User namespaces

/// What the first line of a `uid_map` says: the first identifier inside, the first one outside
/// and how many there are, as far as they are numbers.
pub open spec fn first_range(uid_map: Seq<char>) -> (Option<u64>, Option<u64>, Option<u64>) {
    let ls = lines_of(uid_map);
    let fs = if ls.len() == 0 {
        Seq::<Seq<char>>::empty()
    } else {
        fields_of(ls[0])
    };
    (number_at(fs, 0), number_at(fs, 1), number_at(fs, 2))
}

/// The number in a field.
pub open spec fn number_at(fs: Seq<Seq<char>>, i: int) -> Option<u64> {
    if 0 <= i < fs.len() {
        number_in(fs[i])
    } else {
        None
    }
}

/// Whether the user is root in a user namespace other than the first one: the identifier zero
/// stands for another one outside, or not all identifiers are mapped.
pub open spec fn is_namespace_root(euid: u32, uid_map: Seq<char>) -> bool {
    &&& euid == 0
    &&& first_range(uid_map).0 == Some(0u64)
    &&& first_range(uid_map).1 matches Some(host)
    &&& first_range(uid_map).2 matches Some(span)
    &&& host != 0 || span != 4_294_967_295
}

/// The number in a field.
fn field_number(fs: &Vec<String>, i: usize) -> (r: Option<u64>)
    ensures
        r == number_at(texts(fs@), i as int),
{
    if i < fs.len() {
        assert(texts(fs@)[i as int] == fs@[i as int]@);
        parse_u64(fs[i].as_str())
    } else {
        None
    }
}

/// Whether the user is root in a user namespace other than the first one.
pub fn root_in_noninitial_user_namespace(euid: u32, uid_map: &str) -> (r: bool)
    ensures
        r == is_namespace_root(euid, uid_map@),
{
    if euid != 0 {
        return false;
    }
    let ls = lines(uid_map);
    let fs = if ls.len() == 0 {
        Vec::new()
    } else {
        assert(texts(ls@)[0] == ls@[0]@);
        split_whitespace(ls[0].as_str())
    };
    proof {
        if ls@.len() == 0 {
            assert(texts(fs@) =~= Seq::<Seq<char>>::empty());
        }
        assert(texts(ls@).len() == ls@.len());
    }
    let inside = field_number(&fs, 0);
    let outside = field_number(&fs, 1);
    let length = field_number(&fs, 2);
    match (inside, outside, length) {
        (Some(first), Some(host), Some(span)) => first == 0 && (host != 0 || span
            != 4_294_967_295),
        _ => false,
    }
}

/// The line that maps root in a user namespace to one identifier outside.
pub fn id_map_line(id: u32) -> (r: String)
    ensures
        r@ == "0 "@ + numeral(id as nat) + " 1\n"@,
{
    let digits = decimal(id as u64);
    concat3("0 ", digits.as_str(), " 1\n")
}

/// What to do about group identifiers in a new user namespace.
#[derive(Debug, Clone, Copy, PartialEq, Eq, Structural)]
pub enum GidMapping {
    /// They can be mapped.
    Mappable,
    /// Changes of supplementary groups have to be switched off first.
    DenySetgroups,
}

/// What to do about group identifiers, given what `/proc/self/setgroups` holds, where it
/// exists.
pub fn prepare_gid_mapping(setgroups: &Option<String>, context: &str) -> (r: Result<
    GidMapping,
    String,
>)
    ensures
        match setgroups.deep_view() {
            None => r == Ok::<GidMapping, String>(GidMapping::Mappable),
            Some(s) => if trimmed(s) == "deny"@ {
                r == Ok::<GidMapping, String>(GidMapping::Mappable)
            } else if trimmed(s) == "allow"@ {
                r == Ok::<GidMapping, String>(GidMapping::DenySetgroups)
            } else {
                r matches Err(m) && m@ == "unexpected setgroups state for "@ + context@ + ": "@
                    + trimmed(s)
            },
        },
{
    let current = match setgroups {
        Some(s) => trim(s.as_str()),
        None => {
            return Ok(GidMapping::Mappable);
        },
    };
    if same_text(current.as_str(), "deny") {
        Ok(GidMapping::Mappable)
    } else if same_text(current.as_str(), "allow") {
        Ok(GidMapping::DenySetgroups)
    } else {
        let mut message = concat3("unexpected setgroups state for ", context, ": ");
        message.push_str(current.as_str());
        Err(message)
    }
}

/// What comes of switching off changes of supplementary groups.
#[derive(Debug, Clone, Copy, PartialEq, Eq, Structural)]
pub enum DenyOutcome {
    Done,
    NotPermitted,
    Failed,
}

/// Whether group identifiers are mapped after the attempt, or it is given up.
pub fn map_gid_after(outcome: DenyOutcome) -> (r: Option<bool>)
    ensures
        r == match outcome {
            DenyOutcome::Done => Some(true),
            DenyOutcome::NotPermitted => Some(false),
            DenyOutcome::Failed => None,
        },
{
    match outcome {
        DenyOutcome::Done => Some(true),
        DenyOutcome::NotPermitted => Some(false),
        DenyOutcome::Failed => None,
    }
}

/// What is done to become root in a new user namespace, one after the other.
#[derive(Debug, Clone, Copy, PartialEq, Eq, Structural)]
pub enum RootlessStep {
    MapUser,
    MapGroup,
    BecomeRootGroup,
    BecomeRootUser,
}

/// What is done to become root in a new user namespace.
pub fn rootless_steps(map_gid: bool) -> (r: Vec<RootlessStep>)
    ensures
        r@ == if map_gid {
            seq![
                RootlessStep::MapUser,
                RootlessStep::MapGroup,
                RootlessStep::BecomeRootGroup,
                RootlessStep::BecomeRootUser,
            ]
        } else {
            seq![RootlessStep::MapUser, RootlessStep::BecomeRootUser]
        },
{
    let mut steps: Vec<RootlessStep> = Vec::new();
    steps.push(RootlessStep::MapUser);
    if map_gid {
        steps.push(RootlessStep::MapGroup);
        steps.push(RootlessStep::BecomeRootGroup);
    }
    steps.push(RootlessStep::BecomeRootUser);
    steps
}

// ---------------------------------------------------------------------------------------
// System calls

/// The system calls that commands may not make.
#[derive(Debug, Clone, Copy, PartialEq, Eq, Structural)]
pub enum DeniedCall {
    Mount,
    Umount2,
    PivotRoot,
    Chroot,
    Setns,
    Unshare,
    Ptrace,
    ProcessVmReadv,
    ProcessVmWritev,
    Kill,
    Tkill,
    Tgkill,
    RtSigqueueinfo,
    RtTgsigqueueinfo,
    PidfdSendSignal,
    Bpf,
    PerfEventOpen,
}

/// The system calls that commands may not make.
pub fn denied_calls() -> (r: Vec<DeniedCall>)
    ensures
        forall|c: DeniedCall| r@.contains(c),
        r@.len() == 17,
{
    let r = vec![
        DeniedCall::Mount,
        DeniedCall::Umount2,
        DeniedCall::PivotRoot,
        DeniedCall::Chroot,
        DeniedCall::Setns,
        DeniedCall::Unshare,
        DeniedCall::Ptrace,
        DeniedCall::ProcessVmReadv,
        DeniedCall::ProcessVmWritev,
        DeniedCall::Kill,
        DeniedCall::Tkill,
        DeniedCall::Tgkill,
        DeniedCall::RtSigqueueinfo,
        DeniedCall::RtTgsigqueueinfo,
        DeniedCall::PidfdSendSignal,
        DeniedCall::Bpf,
        DeniedCall::PerfEventOpen,
    ];
    proof {
        assert forall|c: DeniedCall| r@.contains(c) by {
            let i: int = match c {
                DeniedCall::Mount => 0,
                DeniedCall::Umount2 => 1,
                DeniedCall::PivotRoot => 2,
                DeniedCall::Chroot => 3,
                DeniedCall::Setns => 4,
                DeniedCall::Unshare => 5,
                DeniedCall::Ptrace => 6,
                DeniedCall::ProcessVmReadv => 7,
                DeniedCall::ProcessVmWritev => 8,
                DeniedCall::Kill => 9,
                DeniedCall::Tkill => 10,
                DeniedCall::Tgkill => 11,
                DeniedCall::RtSigqueueinfo => 12,
                DeniedCall::RtTgsigqueueinfo => 13,
                DeniedCall::PidfdSendSignal => 14,
                DeniedCall::Bpf => 15,
                DeniedCall::PerfEventOpen => 16,
            };
            assert(r@[i] == c);
        }
    }
    r
}

/// What a filter does with a system call.
#[derive(Debug, Clone, Copy, PartialEq, Eq, Structural)]
pub enum FilterAction {
    /// Let it through.
    Allow,
    /// Let it fail with an error number.
    Fail(u32),
}

/// A filter that was compiled, or why there is none for the machine.
pub open spec fn filter_for(
    compiled: Option<Result<Seq<(u16, u8, u8, u32)>, Seq<char>>>,
    arch: Seq<char>,
) -> Result<Seq<(u16, u8, u8, u32)>, Seq<char>> {
    match compiled {
        Some(p) => p,
        None => Err("unsupported seccomp architecture "@ + arch),
    }
}

/// A filter that was compiled, or why there is none for the machine.
pub fn check_filter(compiled: Option<Result<Vec<(u16, u8, u8, u32)>, String>>, arch: &str) -> (r:
    Result<Vec<(u16, u8, u8, u32)>, String>)
    ensures
        program_result(Some(r)) == Some(filter_for(program_result(compiled), arch@)),
{
    match compiled {
        Some(program) => program,
        None => Err(concat("unsupported seccomp architecture ", arch)),
    }
}

/// The program of the filter under which the system calls with the given numbers fail with the
/// given error number and all others are let through, on the machine of the given name.
pub fn denylist_program(calls: &Vec<u32>, errno: u32, arch: &str) -> (r: Result<
    Vec<(u16, u8, u8, u32)>,
    String,
>)
    ensures
        program_result(Some(r)) == Some(
            filter_for(
                filter_program(calls@, FilterAction::Fail(errno), FilterAction::Allow, arch@),
                arch@,
            ),
        ),
{
    let compiled = compile_filter(calls, FilterAction::Fail(errno), FilterAction::Allow, arch);
    check_filter(compiled, arch)
}

/// What the helper does: on Linux it always goes on, and it leaves the network if and only if the
/// command may not use it. Elsewhere it refuses.
pub proof fn lemma_what_the_helper_does(network: bool)
    ensures
        helper_steps_of(false, network) == seq![HelperStep::Refuse],
        helper_steps_of(true, true) == seq![
            HelperStep::NoNewPrivileges,
            HelperStep::ApplyPolicy,
            HelperStep::DropCapabilities,
        ],
        helper_steps_of(true, false) == seq![HelperStep::IsolateNetwork] + helper_steps_of(
            true,
            true,
        ),
{
    assert(helper_steps_of(true, false) =~= seq![HelperStep::IsolateNetwork] + helper_steps_of(
        true,
        true,
    ));
}

/// What is made of the kernel's answer: rules that are enforced whole, with new privileges given
/// up, are enough. Where nothing is enforced a namespace takes their place. Anything in between
/// is refused.
pub proof fn lemma_what_is_made_of_the_answer(no_new_privs: bool)
    ensures
        verdict_on(Enforcement::Whole, true) == LandlockVerdict::Enforced,
        verdict_on(Enforcement::Whole, false) == LandlockVerdict::Refuse,
        verdict_on(Enforcement::Nothing, no_new_privs) == LandlockVerdict::UseNamespace,
        verdict_on(Enforcement::Partial, no_new_privs) == LandlockVerdict::Refuse,
        policy_steps_of(LandlockVerdict::Enforced) == seq![PolicyStep::InstallFilter],
        policy_steps_of(LandlockVerdict::UseNamespace) == seq![
            PolicyStep::EnterNamespace,
            PolicyStep::InstallFilter,
        ],
        policy_steps_of(LandlockVerdict::Refuse) == seq![PolicyStep::Refuse],
{
}

/// Why a policy is not applied: the first thing that went wrong.
pub proof fn lemma_why_a_policy_is_not_applied(
    landlock: Option<(Enforcement, bool)>,
    namespace: bool,
    filter: bool,
)
    ensures
        policy_outcome(false, landlock, namespace, filter) == Err::<(), PolicyProblem>(
            PolicyProblem::NotLinux,
        ),
        policy_outcome(true, None, namespace, filter) == Err::<(), PolicyProblem>(
            PolicyProblem::Landlock,
        ),
        landlock matches Some((e, n)) ==> {
            let outcome = policy_outcome(true, landlock, namespace, filter);
            let refused = e == Enforcement::Partial || e == Enforcement::Whole && !n;
            let stuck = e == Enforcement::Nothing && !namespace;
            &&& refused ==> outcome == Err::<(), PolicyProblem>(PolicyProblem::Ambiguous)
            &&& stuck ==> outcome == Err::<(), PolicyProblem>(PolicyProblem::Namespace)
            &&& !refused && !stuck && !filter ==> outcome == Err::<(), PolicyProblem>(
                PolicyProblem::Filter,
            )
            &&& !refused && !stuck && filter ==> outcome == Ok::<(), PolicyProblem>(())
        },
{
}

/// When the user is root in a namespace of their own: the user is root, and the first line of the
/// map has three numbers, the first of them zero, that do not map all users to themselves.
pub proof fn lemma_root_in_a_namespace(
    euid: u32,
    uid_map: Seq<char>,
    fs: Seq<Seq<char>>,
    inside: u64,
    outside: u64,
    length: u64,
)
    ensures
        euid != 0 ==> !is_namespace_root(euid, uid_map),
        lines_of(uid_map).len() == 0 ==> !is_namespace_root(euid, uid_map),
        lines_of(uid_map).len() > 0 && fs == fields_of(lines_of(uid_map)[0]) ==> {
            &&& fs.len() < 3 ==> !is_namespace_root(euid, uid_map)
            &&& fs.len() >= 3 && (number_in(fs[0]) is None || number_in(fs[1]) is None
                || number_in(fs[2]) is None) ==> !is_namespace_root(euid, uid_map)
            &&& fs.len() >= 3 && number_in(fs[0]) == Some(inside) && number_in(fs[1]) == Some(
                outside,
            ) && number_in(fs[2]) == Some(length) ==> (is_namespace_root(0, uid_map) <==> inside
                == 0 && !(outside == 0 && length == u32::MAX))
        },
{
}

/// The program of a filter is what was compiled, and a machine that there is no filter for is
/// refused by its name.
pub proof fn lemma_filters(
    compiled: Result<Seq<(u16, u8, u8, u32)>, Seq<char>>,
    arch: Seq<char>,
)
    ensures
        filter_for(Some(compiled), arch) == compiled,
        filter_for(None, arch) == Err::<Seq<(u16, u8, u8, u32)>, Seq<char>>(
            "unsupported seccomp architecture "@ + arch,
        ),
        NO_PROGRAM@ == "pc sandbox helper missing program"@,
{
}

} // verus!
