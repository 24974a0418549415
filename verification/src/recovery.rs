//! Recovery plans for recorded failures and the steps that carry them out.
use vstd::prelude::*;

use crate::failure::{
    get_failure, resolve_failure, FailureKind, FailureRegistry, RecordView, map_keys_are_ids,
    map_one_open,
};
use crate::layered::{join_path, joined};
use crate::text::{cat, owned};

verus! {

/// One recovery action.
#[derive(Debug, Clone, Copy, PartialEq, Eq, Structural)]
pub enum RecoveryAction {
    EnsureMemoryDir,
    EnsureSessionsDir,
    EnsureStateDir,
    SuggestProviderCheck,
    SuggestCompactFallback,
    SuggestChannelReconnect,
    SuggestToolDependencyCheck,
    SuggestResourceRelief,
    Noop,
}

/// The outcome of one action.
#[derive(Debug, Clone)]
pub struct RecoveryStepResult {
    pub action: RecoveryAction,
    pub ok: bool,
    pub message: String,
}

/// The outcome of a recovery run.
#[derive(Debug, Clone)]
pub struct RecoveryReport {
    pub failure_id: String,
    pub kind: FailureKind,
    pub success: bool,
    pub steps: Vec<RecoveryStepResult>,
}

/// Why a recovery could not start.
#[derive(Debug, Clone)]
pub enum RecoveryError {
    /// No failure is recorded under this id.
    NotFound(String),
}

impl RecoveryError {
    /// The error's message: "failure not found: <id>".
    pub fn message(&self) -> (r: String)
        ensures
            self matches RecoveryError::NotFound(id) ==> r@ == "failure not found: "@ + id@,
    {
        match self {
            RecoveryError::NotFound(id) => cat("failure not found: ", id.as_str()),
        }
    }
}

/// The actions that recover from a kind of failure: memory failures get
/// the memory and state directories ensured, session failures the sessions
/// directory, provider, compact, channel, tool and resource failures one
/// suggestion each, config and unknown failures nothing (`Noop`).
pub open spec fn plan_of(kind: FailureKind) -> Seq<RecoveryAction> {
    match kind {
        FailureKind::Memory => seq![RecoveryAction::EnsureMemoryDir, RecoveryAction::EnsureStateDir],
        FailureKind::Session => seq![RecoveryAction::EnsureSessionsDir],
        FailureKind::Provider => seq![RecoveryAction::SuggestProviderCheck],
        FailureKind::Compact => seq![RecoveryAction::SuggestCompactFallback],
        FailureKind::Channel => seq![RecoveryAction::SuggestChannelReconnect],
        FailureKind::Tool => seq![RecoveryAction::SuggestToolDependencyCheck],
        FailureKind::Resource => seq![RecoveryAction::SuggestResourceRelief],
        FailureKind::Config | FailureKind::Unknown => seq![RecoveryAction::Noop],
    }
}

/// The recovery plan for a kind of failure (see `plan_of`).
pub fn recovery_plan(kind: FailureKind) -> (r: Vec<RecoveryAction>)
    ensures
        r@ == plan_of(kind),
{
    let mut v: Vec<RecoveryAction> = Vec::new();
    match kind {
        FailureKind::Memory => {
            v.push(RecoveryAction::EnsureMemoryDir);
            v.push(RecoveryAction::EnsureStateDir);
        },
        FailureKind::Session => v.push(RecoveryAction::EnsureSessionsDir),
        FailureKind::Provider => v.push(RecoveryAction::SuggestProviderCheck),
        FailureKind::Compact => v.push(RecoveryAction::SuggestCompactFallback),
        FailureKind::Channel => v.push(RecoveryAction::SuggestChannelReconnect),
        FailureKind::Tool => v.push(RecoveryAction::SuggestToolDependencyCheck),
        FailureKind::Resource => v.push(RecoveryAction::SuggestResourceRelief),
        FailureKind::Config | FailureKind::Unknown => v.push(RecoveryAction::Noop),
    }
    assert(v@ =~= plan_of(kind));
    v
}

/// The workspace directory an action ensures: "memory", "sessions" or
/// "state"; none for the other actions.
pub open spec fn dir_of(a: RecoveryAction) -> Option<Seq<char>> {
    match a {
        RecoveryAction::EnsureMemoryDir => Some("memory"@),
        RecoveryAction::EnsureSessionsDir => Some("sessions"@),
        RecoveryAction::EnsureStateDir => Some("state"@),
        _ => None,
    }
}

/// The workspace directory an action ensures (see `dir_of`).
pub fn action_dir_name(a: RecoveryAction) -> (r: Option<&'static str>)
    ensures
        r is Some <==> dir_of(a) is Some,
        r matches Some(s) ==> s@ == dir_of(a)->0,
{
    match a {
        RecoveryAction::EnsureMemoryDir => Some("memory"),
        RecoveryAction::EnsureSessionsDir => Some("sessions"),
        RecoveryAction::EnsureStateDir => Some("state"),
        _ => None,
    }
}

/// The message of an action that only suggests what to do.
pub open spec fn suggestion_of(a: RecoveryAction) -> Seq<char> {
    match a {
        RecoveryAction::SuggestProviderCheck => "建议：检查 API key / 余额 / 网络，执行 `zeroclaw doctor models`"@,
        RecoveryAction::SuggestCompactFallback => "建议：降低 context 压缩预算或临时关闭 compact 相关配置"@,
        RecoveryAction::SuggestChannelReconnect => "建议：检查渠道 token 与回调地址并重连"@,
        RecoveryAction::SuggestToolDependencyCheck => "建议：检查工具依赖是否在 PATH 与执行权限"@,
        RecoveryAction::SuggestResourceRelief => "建议：释放磁盘/内存并降低并发"@,
        _ => "暂无自动恢复动作，请根据日志手动处理"@,
    }
}

fn suggestion(a: RecoveryAction) -> (r: &'static str)
    ensures
        r@ == suggestion_of(a),
{
    match a {
        RecoveryAction::SuggestProviderCheck => "建议：检查 API key / 余额 / 网络，执行 `zeroclaw doctor models`",
        RecoveryAction::SuggestCompactFallback => "建议：降低 context 压缩预算或临时关闭 compact 相关配置",
        RecoveryAction::SuggestChannelReconnect => "建议：检查渠道 token 与回调地址并重连",
        RecoveryAction::SuggestToolDependencyCheck => "建议：检查工具依赖是否在 PATH 与执行权限",
        RecoveryAction::SuggestResourceRelief => "建议：释放磁盘/内存并降低并发",
        _ => "暂无自动恢复动作，请根据日志手动处理",
    }
}

/// The directory that action `a` ensures in the workspace `workspace_dir`:
/// the workspace joined with the action's directory (see `dir_of`), as
/// `Path::join` and `display` write it.
pub open spec fn action_path(workspace_dir: Seq<char>, a: RecoveryAction) -> Seq<char> {
    joined(workspace_dir, dir_of(a)->0)
}

/// What running an action comes to before any directory is touched: a
/// finished step, or the need to create the directory at the given path.
#[derive(Debug, Clone)]
pub enum ActionStep {
    Done(RecoveryStepResult),
    EnsureDir(String),
}

/// Runs `action` for the workspace `workspace_dir` as far as it goes
/// without touching the file system. A suggestion is done at once; a
/// directory action is done at once in a dry run ("[dry-run] would ensure
/// <dir>", `<dir>` the workspace joined with the action's directory), and
/// otherwise asks for that directory to be created (see
/// `ensure_dir_result`).
pub fn run_action(action: RecoveryAction, workspace_dir: &str, dry_run: bool) -> (r: ActionStep)
    ensures
        dir_of(action) is None ==> (r matches ActionStep::Done(s) && s.action == action && s.ok
            && s.message@ == suggestion_of(action)),
        dir_of(action) is Some && dry_run ==> (r matches ActionStep::Done(s) && s.action == action
            && s.ok && s.message@ == "[dry-run] would ensure "@ + action_path(
            workspace_dir@,
            action,
        )),
        dir_of(action) is Some && !dry_run ==> (r matches ActionStep::EnsureDir(p) && p@
            == action_path(workspace_dir@, action)),
{
    match action_dir_name(action) {
        Some(dir) => {
            let path = join_path(workspace_dir, dir);
            if dry_run {
                ActionStep::Done(
                    RecoveryStepResult {
                        action,
                        ok: true,
                        message: cat("[dry-run] would ensure ", path.as_str()),
                    },
                )
            } else {
                ActionStep::EnsureDir(path)
            }
        },
        None => ActionStep::Done(
            RecoveryStepResult { action, ok: true, message: owned(suggestion(action)) },
        ),
    }
}

/// The step of the directory action `action` in the workspace
/// `workspace_dir` once its directory (see `action_path`) was created
/// (`error` is `None`: "ensured <dir>") or failed to be (`error` holds the
/// error's text: "failed to ensure <dir>: <error>").
pub fn ensure_dir_result(action: RecoveryAction, workspace_dir: &str, error: Option<String>) -> (r:
    RecoveryStepResult)
    requires
        dir_of(action) is Some,
    ensures
        r.action == action,
        r.ok == error is None,
        error is None ==> r.message@ == "ensured "@ + action_path(workspace_dir@, action),
        error matches Some(e) ==> r.message@ == "failed to ensure "@ + action_path(
            workspace_dir@,
            action,
        ) + ": "@ + e@,
{
    let dir = match action_dir_name(action) {
        Some(d) => d,
        None => "",
    };
    let path = join_path(workspace_dir, dir);
    match error {
        None => RecoveryStepResult { action, ok: true, message: cat("ensured ", path.as_str()) },
        Some(e) => {
            let a = cat("failed to ensure ", path.as_str());
            let b = cat(a.as_str(), ": ");
            RecoveryStepResult { action, ok: false, message: cat(b.as_str(), e.as_str()) }
        },
    }
}

/// The recovery plan of the failure `failure_id`, or `NotFound` when no
/// failure is recorded under that id.
pub fn recovery_begin(registry: &FailureRegistry, failure_id: &str) -> (r: Result<
    Vec<RecoveryAction>,
    RecoveryError,
>)
    ensures
        r is Ok <==> registry@.contains_key(failure_id@),
        r matches Ok(plan) ==> plan@ == plan_of(registry@[failure_id@].kind),
        r matches Err(RecoveryError::NotFound(id)) ==> id@ == failure_id@,
{
    match get_failure(registry, failure_id) {
        Some(f) => Ok(recovery_plan(f.kind)),
        None => Err(RecoveryError::NotFound(owned(failure_id))),
    }
}

/// All steps succeeded.
pub open spec fn all_ok(steps: Seq<RecoveryStepResult>) -> bool {
    forall|i: int| 0 <= i < steps.len() ==> (#[trigger] steps[i]).ok
}

/// `s` is a result of running `a` (see `run_action`): it names `a`, and it
/// succeeded when `a` touches no directory or the run is a dry run.
pub open spec fn step_follows(s: RecoveryStepResult, a: RecoveryAction, dry_run: bool) -> bool {
    &&& s.action == a
    &&& (dir_of(a) is None || dry_run) ==> s.ok
}

/// `steps` are the results of running the actions of `plan` in order.
pub open spec fn steps_follow_plan(
    steps: Seq<RecoveryStepResult>,
    plan: Seq<RecoveryAction>,
    dry_run: bool,
) -> bool {
    &&& steps.len() == plan.len()
    &&& forall|i: int| 0 <= i < steps.len() ==> step_follows(#[trigger] steps[i], plan[i], dry_run)
}

/// No action of `plan` touches a directory.
pub open spec fn touches_no_dir(plan: Seq<RecoveryAction>) -> bool {
    forall|i: int| 0 <= i < plan.len() ==> (#[trigger] dir_of(plan[i])) is None
}

/// Finishes the recovery of `failure_id` from the results of its plan's
/// `steps`, which are the results of running the plan's actions in order
/// (see `recovery_begin`, `run_action` and `ensure_dir_result`): the run
/// succeeded when every step did, and a successful run that was not a dry
/// run resolves the failure with "auto recovery completed" (at the time of
/// the call). A dry run, or a plan that touches no directory, always
/// succeeds. `NotFound`, with nothing changed, when no failure is recorded
/// under that id.
pub fn recover_failure_by_id(
    registry: &mut FailureRegistry,
    failure_id: &str,
    dry_run: bool,
    steps: Vec<RecoveryStepResult>,
) -> (r: Result<RecoveryReport, RecoveryError>)
    requires
        old(registry)@.contains_key(failure_id@) ==> steps_follow_plan(
            steps@,
            plan_of(old(registry)@[failure_id@].kind),
            dry_run,
        ),
    ensures
        r is Ok <==> old(registry)@.contains_key(failure_id@),
        r matches Err(RecoveryError::NotFound(id)) ==> id@ == failure_id@ && final(registry)@
            == old(registry)@,
        r matches Ok(report) ==> {
            &&& report.failure_id@ == failure_id@
            &&& report.kind == old(registry)@[failure_id@].kind
            &&& report.success == all_ok(steps@)
            &&& report.steps == steps
            &&& steps_follow_plan(report.steps@, plan_of(report.kind), dry_run)
            &&& (dry_run || touches_no_dir(plan_of(report.kind))) ==> report.success
            &&& if report.success && !dry_run {
                final(registry)@ == old(registry)@.insert(
                    failure_id@,
                    RecordView {
                        resolved: true,
                        resolution: Some("auto recovery completed"@),
                        last_seen: final(registry)@[failure_id@].last_seen,
                        ..old(registry)@[failure_id@]
                    },
                )
            } else {
                final(registry)@ == old(registry)@
            }
        },
        map_one_open(final(registry)@),
        map_keys_are_ids(final(registry)@),
{
    let failure = match get_failure(registry, failure_id) {
        Some(f) => f,
        None => {
            return Err(RecoveryError::NotFound(owned(failure_id)));
        },
    };
    let mut success = true;
    let mut i: usize = 0;
    while i < steps.len()
        invariant
            0 <= i <= steps.len(),
            success == forall|j: int| 0 <= j < i ==> (#[trigger] steps@[j]).ok,
        decreases steps.len() - i,
    {
        success = success && steps[i].ok;
        i = i + 1;
    }
    proof {
        let plan = plan_of(failure.kind);
        if dry_run || touches_no_dir(plan) {
            assert forall|j: int| 0 <= j < steps@.len() implies (#[trigger] steps@[j]).ok by {
                assert(step_follows(steps@[j], plan[j], dry_run));
                if !dry_run {
                    assert(dir_of(plan[j]) is None);
                }
            }
        }
    }
    if success && !dry_run {
        let _ = resolve_failure(registry, failure_id, Some(owned("auto recovery completed")));
    }
    Ok(
        RecoveryReport {
            failure_id: owned(failure_id),
            kind: failure.kind,
            success,
            steps,
        },
    )
}

/// Every kind of failure has a plan of at least one action, and only
/// memory and session failures touch directories.
pub proof fn law_every_kind_has_a_plan(kind: FailureKind)
    ensures
        plan_of(kind).len() >= 1,
        (exists|i: int| 0 <= i < plan_of(kind).len() && (#[trigger] dir_of(plan_of(kind)[i])) is Some)
            <==> (kind == FailureKind::Memory || kind == FailureKind::Session),
{
    if kind == FailureKind::Memory {
        assert(dir_of(plan_of(kind)[0]) is Some);
    }
    if kind == FailureKind::Session {
        assert(dir_of(plan_of(kind)[0]) is Some);
    }
}

/// Different kinds of failure get different recovery plans, sharing no
/// action, except config and unknown failures, which both get only `Noop`.
pub proof fn law_plans_of_different_kinds_differ(k1: FailureKind, k2: FailureKind)
    requires
        k1 != k2,
        !((k1 == FailureKind::Config || k1 == FailureKind::Unknown) && (k2 == FailureKind::Config
            || k2 == FailureKind::Unknown)),
    ensures
        forall|i: int, j: int|
            0 <= i < plan_of(k1).len() && 0 <= j < plan_of(k2).len() ==> #[trigger] plan_of(k1)[i]
                != #[trigger] plan_of(k2)[j],
{
}

/// Each kind's plan addresses that kind: memory failures ensure the memory
/// and then the state directory, session failures the sessions directory;
/// provider failures suggest checking the provider, compact failures a
/// compact fallback, channel failures reconnecting the channel, tool
/// failures checking tool dependencies, resource failures relieving
/// resources; config and unknown failures get no action (`Noop`).
pub proof fn law_plan_addresses_its_kind(k: FailureKind)
    ensures
        k == FailureKind::Memory ==> plan_of(k) == seq![
            RecoveryAction::EnsureMemoryDir,
            RecoveryAction::EnsureStateDir,
        ],
        k == FailureKind::Session ==> plan_of(k) == seq![RecoveryAction::EnsureSessionsDir],
        k == FailureKind::Provider ==> plan_of(k) == seq![RecoveryAction::SuggestProviderCheck],
        k == FailureKind::Compact ==> plan_of(k) == seq![RecoveryAction::SuggestCompactFallback],
        k == FailureKind::Channel ==> plan_of(k) == seq![RecoveryAction::SuggestChannelReconnect],
        k == FailureKind::Tool ==> plan_of(k) == seq![RecoveryAction::SuggestToolDependencyCheck],
        k == FailureKind::Resource ==> plan_of(k) == seq![RecoveryAction::SuggestResourceRelief],
        k == FailureKind::Config || k == FailureKind::Unknown ==> plan_of(k) == seq![
            RecoveryAction::Noop,
        ],
{
}

} // verus!
