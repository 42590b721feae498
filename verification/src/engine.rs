//! What the engine decides around a backend: validation and apply results,
//! the report of a failed hook, and when the output watcher reports a change.
use std::time::Duration;
use vstd::prelude::*;

use crate::model::{setup_fingerprint_of, Capabilities, LimitViolation, Topology};
use crate::profile::{copy_hooks, hook_views, Hook, HookView, Hooks};
use crate::text::{
    chars_of, opt_view, push_signed_decimal, push_str, signed_decimal, string_from_chars, trim,
    trim_bounds,
};

verus! {

// ---------------------------------------------------------------------------
// Policies, failure kinds, validation results
// ---------------------------------------------------------------------------

/// Whether configured hooks run around an apply.
#[derive(Debug, Clone, Copy, PartialEq, Eq, Structural)]
pub enum HookPolicy {
    Enabled,
    Disabled,
}

impl Default for HookPolicy {
    fn default() -> (r: Self)
        ensures
            r == HookPolicy::Enabled,
    {
        HookPolicy::Enabled
    }
}

/// Why a backend did not take a configuration.
#[derive(Debug, Clone, Copy, PartialEq, Eq, Structural)]
pub enum ConfigFailureKind {
    Rejected,
    TopologyChanged,
}

pub open spec fn failure_label(k: ConfigFailureKind) -> Seq<char> {
    match k {
        ConfigFailureKind::Rejected => "rejected"@,
        ConfigFailureKind::TopologyChanged => "topology_changed"@,
    }
}

impl ConfigFailureKind {
    /// The stable label used in logs.
    pub fn as_label(self) -> (r: &'static str)
        ensures
            r@ == failure_label(self),
    {
        match self {
            ConfigFailureKind::Rejected => "rejected",
            ConfigFailureKind::TopologyChanged => "topology_changed",
        }
    }
}

#[derive(Debug, Clone, Copy, PartialEq, Eq, Structural)]
pub enum ValidationStatus {
    Supported,
    Rejected,
    Unsupported,
}

/// A backend's verdict on a plan it was asked to validate.
#[derive(Debug, PartialEq)]
pub struct TestResult {
    pub success: bool,
    pub status: ValidationStatus,
    pub failure: Option<ConfigFailureKind>,
    pub message: Option<String>,
}

impl Default for TestResult {
    fn default() -> (r: Self)
        ensures
            !r.success,
            r.status == ValidationStatus::Unsupported,
            r.failure is None,
            r.message is None,
    {
        TestResult {
            success: false,
            status: ValidationStatus::Unsupported,
            failure: None,
            message: None,
        }
    }
}

impl TestResult {
    /// The backend accepts the plan.
    pub fn supported(message: Option<String>) -> (r: Self)
        ensures
            r.success,
            r.status == ValidationStatus::Supported,
            r.failure is None,
            r.message == message,
    {
        TestResult { success: true, status: ValidationStatus::Supported, failure: None, message }
    }

    /// The backend refuses the plan.
    pub fn rejected(failure: Option<ConfigFailureKind>, message: Option<String>) -> (r: Self)
        ensures
            !r.success,
            r.status == ValidationStatus::Rejected,
            r.failure == failure,
            r.message == message,
    {
        TestResult { success: false, status: ValidationStatus::Rejected, failure, message }
    }

    /// The backend cannot validate plans.
    pub fn unsupported(message: Option<String>) -> (r: Self)
        ensures
            !r.success,
            r.status == ValidationStatus::Unsupported,
            r.failure is None,
            r.message == message,
    {
        TestResult { success: false, status: ValidationStatus::Unsupported, failure: None, message }
    }

    pub fn is_accepted(&self) -> (r: bool)
        ensures
            r == (self.status == ValidationStatus::Supported),
    {
        match self.status {
            ValidationStatus::Supported => true,
            _ => false,
        }
    }
}

/// The verdict given without asking the backend: a backend that cannot
/// validate gets `unsupported` with a fixed message; any other is asked.
pub fn validation_without_backend(capabilities: &Capabilities) -> (r: Option<TestResult>)
    ensures
        r is None <==> capabilities.can_validate,
        r matches Some(t) ==> !t.success && t.status == ValidationStatus::Unsupported
            && t.failure is None && opt_view(t.message) == Some(
            "Backend does not support validation"@,
        ),
{
    if capabilities.can_validate {
        None
    } else {
        Some(TestResult::unsupported(Some("Backend does not support validation".to_owned())))
    }
}

// ---------------------------------------------------------------------------
// Apply results
// ---------------------------------------------------------------------------

/// What applying a plan came to.
#[derive(Debug, PartialEq)]
pub struct ApplyResult {
    pub success: bool,
    pub failure: Option<ConfigFailureKind>,
    pub message: Option<String>,
    pub applied_state: Option<Topology>,
}

#[derive(Debug, Clone, Copy, PartialEq, Eq, Structural)]
pub enum ApplyStatus {
    Applied,
    Failed { failure: Option<ConfigFailureKind> },
}

impl Default for ApplyResult {
    fn default() -> (r: Self)
        ensures
            !r.success,
            r.failure is None,
            r.message is None,
            r.applied_state is None,
    {
        ApplyResult { success: false, failure: None, message: None, applied_state: None }
    }
}

impl ApplyResult {
    /// The plan was applied; `applied_state` is the topology that resulted.
    pub fn applied(message: Option<String>, applied_state: Option<Topology>) -> (r: Self)
        ensures
            r.success,
            r.failure is None,
            r.message == message,
            r.applied_state == applied_state,
    {
        ApplyResult { success: true, failure: None, message, applied_state }
    }

    /// The plan was not applied.
    pub fn failed(failure: Option<ConfigFailureKind>, message: Option<String>) -> (r: Self)
        ensures
            !r.success,
            r.failure == failure,
            r.message == message,
            r.applied_state is None,
    {
        ApplyResult { success: false, failure, message, applied_state: None }
    }

    pub fn status(&self) -> (r: ApplyStatus)
        ensures
            r == (if self.success {
                ApplyStatus::Applied
            } else {
                ApplyStatus::Failed { failure: self.failure }
            }),
    {
        if self.success {
            ApplyStatus::Applied
        } else {
            ApplyStatus::Failed { failure: self.failure }
        }
    }

    pub fn is_applied(&self) -> (r: bool)
        ensures
            r == self.success,
    {
        self.success
    }

    pub fn failure(&self) -> (r: Option<ConfigFailureKind>)
        ensures
            r == self.failure,
    {
        self.failure
    }

    pub fn message(&self) -> (r: Option<&str>)
        ensures
            match r {
                Some(m) => opt_view(self.message) == Some(m@),
                None => self.message is None,
            },
    {
        match &self.message {
            Some(m) => Some(m.as_str()),
            None => None,
        }
    }

    pub fn applied_state(&self) -> (r: Option<&Topology>)
        ensures
            match r {
                Some(t) => self.applied_state == Some(*t),
                None => self.applied_state is None,
            },
    {
        match &self.applied_state {
            Some(t) => Some(t),
            None => None,
        }
    }
}

// ---------------------------------------------------------------------------
// Hook results and their reports
// ---------------------------------------------------------------------------

/// How long failure reports quote a hook's output, in characters.
pub const HOOK_FAILURE_OUTPUT_LIMIT: usize = 240;

/// What running one hook came to. The run time is kept in milliseconds.
#[derive(Debug, PartialEq)]
pub struct HookResult {
    pub success: bool,
    pub exit_code: Option<i32>,
    pub elapsed_millis: u64,
    pub stdout: String,
    pub stderr: String,
    pub phase: Option<String>,
    pub command: Option<String>,
}

pub ghost struct HookResultView {
    pub success: bool,
    pub exit_code: Option<i32>,
    pub stdout: Seq<char>,
    pub stderr: Seq<char>,
    pub phase: Option<Seq<char>>,
    pub command: Option<Seq<char>>,
}

impl View for HookResult {
    type V = HookResultView;

    open spec fn view(&self) -> HookResultView {
        HookResultView {
            success: self.success,
            exit_code: self.exit_code,
            stdout: self.stdout@,
            stderr: self.stderr@,
            phase: opt_view(self.phase),
            command: opt_view(self.command),
        }
    }
}

impl Default for HookResult {
    fn default() -> (r: Self)
        ensures
            !r.success,
            r.exit_code is None,
            r.elapsed_millis == 0,
            r.stdout@.len() == 0,
            r.stderr@.len() == 0,
            r.phase is None,
            r.command is None,
    {
        HookResult {
            success: false,
            exit_code: None,
            elapsed_millis: 0,
            stdout: String::new(),
            stderr: String::new(),
            phase: None,
            command: None,
        }
    }
}

/// Hook output as quoted in a report: trimmed, and cut after the limit with
/// `...` appended.
pub open spec fn bounded_output_spec(s: Seq<char>) -> Seq<char> {
    let t = trim(s);
    if t.len() > HOOK_FAILURE_OUTPUT_LIMIT {
        t.take(HOOK_FAILURE_OUTPUT_LIMIT as int) + "..."@
    } else {
        t
    }
}

/// A report quotes at most the limit of a hook's output, and `...` after it.
pub proof fn lemma_bounded_output_is_short(s: Seq<char>)
    ensures
        bounded_output_spec(s).len() <= HOOK_FAILURE_OUTPUT_LIMIT + 3,
{
    reveal_strlit("...");
}

pub open spec fn or_default(o: Option<Seq<char>>, d: Seq<char>) -> Seq<char> {
    match o {
        Some(s) => s,
        None => d,
    }
}

pub open spec fn exit_suffix(code: Option<i32>) -> Seq<char> {
    match code {
        Some(c) => " (exit code "@ + signed_decimal(c as int) + ")"@,
        None => Seq::empty(),
    }
}

/// The report of a failed hook: phase, command and exit code, then its
/// error output, or failing that its standard output, where either says
/// anything.
pub open spec fn hook_failure_message(r: HookResultView) -> Seq<char> {
    let head = or_default(r.phase, "hook"@) + " hook '"@ + or_default(r.command, "<unknown>"@)
        + "' failed"@ + exit_suffix(r.exit_code);
    if trim(r.stderr).len() > 0 {
        head + ": "@ + bounded_output_spec(r.stderr)
    } else if trim(r.stdout).len() > 0 {
        head + ": stdout: "@ + bounded_output_spec(r.stdout)
    } else {
        head
    }
}

pub fn bounded_hook_output(output: &str) -> (r: String)
    ensures
        r@ == bounded_output_spec(output@),
{
    let chars = chars_of(output);
    let (start, end) = trim_bounds(&chars);
    let ghost t = chars@.subrange(start as int, end as int);
    if end - start > HOOK_FAILURE_OUTPUT_LIMIT {
        let mut r = string_from_chars(&chars, start, start + HOOK_FAILURE_OUTPUT_LIMIT);
        assert(r@ =~= t.take(HOOK_FAILURE_OUTPUT_LIMIT as int));
        push_str(&mut r, "...");
        r
    } else {
        string_from_chars(&chars, start, end)
    }
}

fn opt_str_or<'a>(o: &'a Option<String>, d: &'a str) -> (r: &'a str)
    ensures
        r@ == or_default(opt_view(*o), d@),
{
    match o {
        Some(s) => s.as_str(),
        None => d,
    }
}

pub(crate) fn is_blank(s: &str) -> (r: bool)
    ensures
        r == (trim(s@).len() == 0),
{
    let chars = chars_of(s);
    let (start, end) = trim_bounds(&chars);
    start == end
}

/// The report of a failed hook.
pub fn format_hook_failure(result: &HookResult) -> (r: String)
    ensures
        r@ == hook_failure_message(result@),
{
    let mut message = String::new();
    push_str(&mut message, opt_str_or(&result.phase, "hook"));
    push_str(&mut message, " hook '");
    push_str(&mut message, opt_str_or(&result.command, "<unknown>"));
    push_str(&mut message, "' failed");
    if let Some(code) = result.exit_code {
        push_str(&mut message, " (exit code ");
        push_signed_decimal(&mut message, code as i64);
        push_str(&mut message, ")");
    }
    let ghost head = message@;
    assert(head =~= or_default(result@.phase, "hook"@) + " hook '"@ + or_default(
        result@.command,
        "<unknown>"@,
    ) + "' failed"@ + exit_suffix(result.exit_code));
    if !is_blank(result.stderr.as_str()) {
        push_str(&mut message, ": ");
        let quoted = bounded_hook_output(result.stderr.as_str());
        push_str(&mut message, quoted.as_str());
        assert(message@ =~= head + ": "@ + bounded_output_spec(result@.stderr));
    } else if !is_blank(result.stdout.as_str()) {
        push_str(&mut message, ": stdout: ");
        let quoted = bounded_hook_output(result.stdout.as_str());
        push_str(&mut message, quoted.as_str());
        assert(message@ =~= head + ": stdout: "@ + bounded_output_spec(result@.stdout));
    }
    message
}

/// The first failed hook, if any.
pub open spec fn first_failed(rs: Seq<HookResult>) -> Option<int> {
    if exists|i: int| 0 <= i < rs.len() && !(#[trigger] rs[i]).success {
        Some(
            choose|i: int|
                0 <= i < rs.len() && !(#[trigger] rs[i]).success && forall|j: int|
                    0 <= j < i ==> (#[trigger] rs[j]).success,
        )
    } else {
        None
    }
}

/// The result that a failed pre-apply hook turns an apply into: a
/// rejection that reports the first failed hook, without applying. `None`
/// when every pre-apply hook succeeded, and the plan goes on to be applied.
pub fn pre_apply_rejection(pre_results: &[HookResult]) -> (r: Option<ApplyResult>)
    ensures
        match first_failed(pre_results@) {
            None => r is None,
            Some(i) => r matches Some(a) && !a.success && a.failure == Some(
                ConfigFailureKind::Rejected,
            ) && a.applied_state is None && opt_view(a.message) == Some(
                hook_failure_message(pre_results@[i]@),
            ),
        },
{
    let mut i: usize = 0;
    while i < pre_results.len()
        invariant
            i <= pre_results@.len(),
            forall|j: int| 0 <= j < i ==> (#[trigger] pre_results@[j]).success,
        decreases pre_results@.len() - i,
    {
        if !pre_results[i].success {
            let message = format_hook_failure(&pre_results[i]);
            proof {
                let rs = pre_results@;
                assert(!rs[i as int].success);
                let c = first_failed(rs)->0;
                if c < i {
                    assert(rs[c].success);
                }
                if c > i {
                    assert(rs[i as int].success);
                }
            }
            return Some(ApplyResult::failed(Some(ConfigFailureKind::Rejected), Some(message)));
        }
        i += 1;
    }
    None
}

// ---------------------------------------------------------------------------
// Running hooks
// ---------------------------------------------------------------------------

/// The points of an apply at which hooks run.
#[derive(Debug, Clone, Copy, PartialEq, Eq, Structural)]
pub enum HookStage {
    PreApply,
    PostApply,
    OnFailure,
}

pub open spec fn stage_phase(stage: HookStage) -> Seq<char> {
    match stage {
        HookStage::PreApply => "pre-apply"@,
        HookStage::PostApply => "post-apply"@,
        HookStage::OnFailure => "failure"@,
    }
}

impl HookStage {
    /// The phase name that reports of the stage's hooks carry.
    pub fn phase(self) -> (r: &'static str)
        ensures
            r@ == stage_phase(self),
    {
        match self {
            HookStage::PreApply => "pre-apply",
            HookStage::PostApply => "post-apply",
            HookStage::OnFailure => "failure",
        }
    }
}

/// The hooks of a stage.
pub fn stage_hooks(hooks: &Hooks, stage: HookStage) -> (r: &Vec<Hook>)
    ensures
        *r == match stage {
            HookStage::PreApply => hooks.pre_apply,
            HookStage::PostApply => hooks.post_apply,
            HookStage::OnFailure => hooks.on_failure,
        },
{
    match stage {
        HookStage::PreApply => &hooks.pre_apply,
        HookStage::PostApply => &hooks.post_apply,
        HookStage::OnFailure => &hooks.on_failure,
    }
}

/// The hooks of a stage, as a value.
pub open spec fn stage_hook_list(hooks: Hooks, stage: HookStage) -> Vec<Hook> {
    match stage {
        HookStage::PreApply => hooks.pre_apply,
        HookStage::PostApply => hooks.post_apply,
        HookStage::OnFailure => hooks.on_failure,
    }
}

/// The hooks to run at a stage under a hook policy: none at all when hooks
/// are disabled, else the stage's hooks in order.
pub fn stage_hooks_for(policy: HookPolicy, hooks: &Hooks, stage: HookStage) -> (r: Vec<Hook>)
    ensures
        policy == HookPolicy::Disabled ==> r@.len() == 0,
        policy == HookPolicy::Enabled ==> hook_views(r@) == hook_views(stage_hook_list(*hooks, stage)@),
{
    match policy {
        HookPolicy::Disabled => Vec::new(),
        HookPolicy::Enabled => copy_hooks(stage_hooks(hooks, stage)),
    }
}

/// After the backend answered, the post-apply hooks run on success and the
/// failure hooks otherwise.
pub fn stage_after_apply(result: &ApplyResult) -> (r: HookStage)
    ensures
        r == (if result.success {
            HookStage::PostApply
        } else {
            HookStage::OnFailure
        }),
{
    if result.success {
        HookStage::PostApply
    } else {
        HookStage::OnFailure
    }
}

/// What to do with a running hook at a poll.
#[derive(Debug, Clone, Copy, PartialEq, Eq, Structural)]
pub enum HookPoll {
    /// It exited: collect its status.
    Finished,
    /// It ran past its timeout: kill it.
    TimedOut,
    /// Wait and poll again.
    Wait,
}

/// A hook that has not exited is killed once it has run longer than its
/// timeout (clamped as `Hook::effective_timeout_secs` says).
pub fn hook_poll(hook: &Hook, exited: bool, elapsed_millis: u64) -> (r: HookPoll)
    ensures
        exited ==> r == HookPoll::Finished,
        !exited ==> (r == HookPoll::TimedOut <==> elapsed_millis > hook.effective_timeout_secs_spec()
            * 1000),
        !exited ==> r != HookPoll::Finished,
{
    if exited {
        return HookPoll::Finished;
    }
    let limit: u64 = hook.effective_timeout_secs() * 1000;
    if elapsed_millis > limit {
        HookPoll::TimedOut
    } else {
        HookPoll::Wait
    }
}

pub open spec fn hook_report_of(
    hook: HookView,
    phase: Seq<char>,
    success: bool,
    exit_code: Option<i32>,
    stderr: Seq<char>,
) -> HookResultView {
    HookResultView {
        success,
        exit_code,
        stdout: Seq::empty(),
        stderr,
        phase: Some(phase),
        command: Some(hook.command),
    }
}

/// A hook that exited with `exit_code` (none when a signal ended it).
pub fn hook_exit_result(hook: &Hook, phase: &str, success: bool, exit_code: Option<i32>, elapsed_millis: u64) -> (r:
    HookResult)
    ensures
        r@ == hook_report_of(hook@, phase@, success, exit_code, Seq::empty()),
        r.elapsed_millis == elapsed_millis,
{
    HookResult {
        success,
        exit_code,
        elapsed_millis,
        stdout: String::new(),
        stderr: String::new(),
        phase: Some(phase.to_owned()),
        command: Some(hook.command.clone()),
    }
}

pub open spec fn timeout_message(kill_error: Option<Seq<char>>) -> Seq<char> {
    match kill_error {
        None => "Hook timed out"@,
        Some(e) => "Hook timed out and could not be killed: "@ + e,
    }
}

/// A hook that was killed, or could not be killed, after its timeout; it
/// counts as having run for the whole timeout.
pub fn hook_timeout_result(hook: &Hook, phase: &str, kill_error: Option<&str>) -> (r: HookResult)
    ensures
        r@ == hook_report_of(
            hook@,
            phase@,
            false,
            None,
            timeout_message(
                match kill_error {
                    Some(e) => Some(e@),
                    None => None,
                },
            ),
        ),
        r.elapsed_millis == hook.effective_timeout_secs_spec() * 1000,
{
    let mut stderr = String::new();
    match kill_error {
        None => push_str(&mut stderr, "Hook timed out"),
        Some(e) => {
            push_str(&mut stderr, "Hook timed out and could not be killed: ");
            push_str(&mut stderr, e);
        },
    }
    HookResult {
        success: false,
        exit_code: None,
        elapsed_millis: hook.effective_timeout_secs() * 1000,
        stdout: String::new(),
        stderr,
        phase: Some(phase.to_owned()),
        command: Some(hook.command.clone()),
    }
}

/// A hook whose state could not be read while it ran.
pub fn hook_wait_failed_result(hook: &Hook, phase: &str, error: &str, elapsed_millis: u64) -> (r: HookResult)
    ensures
        r@ == hook_report_of(hook@, phase@, false, None, "Hook wait failed: "@ + error@),
        r.elapsed_millis == elapsed_millis,
{
    let mut stderr = String::new();
    push_str(&mut stderr, "Hook wait failed: ");
    push_str(&mut stderr, error);
    HookResult {
        success: false,
        exit_code: None,
        elapsed_millis,
        stdout: String::new(),
        stderr,
        phase: Some(phase.to_owned()),
        command: Some(hook.command.clone()),
    }
}

/// A hook that could not be started.
pub fn hook_spawn_failed_result(hook: &Hook, phase: &str, error: &str) -> (r: HookResult)
    ensures
        r@ == hook_report_of(hook@, phase@, false, None, "Failed to spawn: "@ + error@),
        r.elapsed_millis == 0,
{
    let mut stderr = String::new();
    push_str(&mut stderr, "Failed to spawn: ");
    push_str(&mut stderr, error);
    HookResult {
        success: false,
        exit_code: None,
        elapsed_millis: 0,
        stdout: String::new(),
        stderr,
        phase: Some(phase.to_owned()),
        command: Some(hook.command.clone()),
    }
}

/// The message of an apply once the hooks after it have run: the first
/// failed hook's report is added to what the backend said, after `; `.
pub open spec fn message_with_hook_failure(message: Option<Seq<char>>, rs: Seq<HookResult>) -> Option<
    Seq<char>,
> {
    match first_failed(rs) {
        None => message,
        Some(i) => match message {
            Some(m) => Some(m + "; "@ + hook_failure_message(rs[i]@)),
            None => Some(hook_failure_message(rs[i]@)),
        },
    }
}

/// An apply's result with the failures of the hooks run after it made
/// visible: whether it applied, why it failed, and what it applied are kept.
pub fn with_hook_failures(result: ApplyResult, after: &[HookResult]) -> (r: ApplyResult)
    ensures
        r.success == result.success,
        r.failure == result.failure,
        r.applied_state == result.applied_state,
        opt_view(r.message) == message_with_hook_failure(opt_view(result.message), after@),
{
    let mut i: usize = 0;
    while i < after.len()
        invariant
            i <= after@.len(),
            forall|j: int| 0 <= j < i ==> (#[trigger] after@[j]).success,
        decreases after@.len() - i,
    {
        if !after[i].success {
            let report = format_hook_failure(&after[i]);
            proof {
                let rs = after@;
                let c = first_failed(rs)->0;
                if c < i {
                    assert(rs[c].success);
                }
                if c > i {
                    assert(rs[i as int].success);
                }
            }
            let message = match result.message {
                Some(m) => {
                    let mut joined = m;
                    push_str(&mut joined, "; ");
                    push_str(&mut joined, report.as_str());
                    joined
                },
                None => report,
            };
            return ApplyResult {
                success: result.success,
                failure: result.failure,
                message: Some(message),
                applied_state: result.applied_state,
            };
        }
        i += 1;
    }
    proof {
        if first_failed(after@) is Some {
            let c = first_failed(after@)->0;
            assert(after@[c].success);
        }
    }
    result
}

// ---------------------------------------------------------------------------
// Watching for changes by polling
// ---------------------------------------------------------------------------

/// Reports a topology when its physical setup (the setup fingerprint)
/// differs from the last one seen; layout changes of the same outputs are
/// not reported.
pub struct PollingOutputWatcher<B> {
    backend: B,
    interval: Duration,
    last_setup_fingerprint: Option<String>,
}

impl<B> PollingOutputWatcher<B> {
    /// The setup fingerprint last seen.
    pub closed spec fn last_setup(&self) -> Option<Seq<char>> {
        opt_view(self.last_setup_fingerprint)
    }

    /// The backend that is polled.
    pub closed spec fn polled(&self) -> B {
        self.backend
    }

    /// The pause between polls.
    pub closed spec fn pause(&self) -> Duration {
        self.interval
    }

    pub fn new(backend: B, interval: Duration, last_setup_fingerprint: Option<String>) -> (r: Self)
        ensures
            r.last_setup() == opt_view(last_setup_fingerprint),
            r.polled() == backend,
            r.pause() == interval,
    {
        PollingOutputWatcher { backend, interval, last_setup_fingerprint }
    }

    /// The backend that is polled.
    pub fn backend(&self) -> (r: &B)
        ensures
            *r == self.polled(),
    {
        &self.backend
    }

    /// The pause between polls.
    pub fn interval(&self) -> (r: Duration)
        ensures
            r == self.pause(),
    {
        self.interval
    }

    /// Takes a freshly enumerated topology: an error where it breaks the
    /// limits, nothing where its setup is the one last seen, else the
    /// topology, whose setup is then remembered.
    pub fn observe(&mut self, topology: Topology) -> (r: Result<Option<Topology>, LimitViolation>)
        ensures
            match r {
                Err(e) => topology.limits_violation() == Some(e.view_of()) && final(self).last_setup()
                    == old(self).last_setup(),
                Ok(None) => topology.limits_violation() is None && old(self).last_setup() == Some(
                    setup_fingerprint_of(topology@),
                ) && final(self).last_setup() == old(self).last_setup(),
                Ok(Some(t)) => topology.limits_violation() is None && old(self).last_setup()
                    != Some(setup_fingerprint_of(topology@)) && t@ == topology@
                    && final(self).last_setup() == Some(setup_fingerprint_of(topology@)),
            },
            final(self).polled() == old(self).polled(),
            final(self).pause() == old(self).pause(),
    {
        match topology.validate_limits() {
            Err(e) => {
                return Err(e);
            },
            Ok(()) => {},
        }
        let fingerprint = topology.setup_fingerprint();
        let unchanged = match &self.last_setup_fingerprint {
            Some(last) => *last == fingerprint,
            None => false,
        };
        if unchanged {
            return Ok(None);
        }
        self.last_setup_fingerprint = Some(fingerprint);
        Ok(Some(topology))
    }
}

} // verus!
