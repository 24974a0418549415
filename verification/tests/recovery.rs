use zeroclaw::failure::{get_failure, record_failure, FailureKind, FailureRegistry, FailureSeverity};
use zeroclaw::recovery::{
    action_dir_name, ensure_dir_result, recover_failure_by_id, recovery_begin, recovery_plan,
    run_action, ActionStep, RecoveryAction, RecoveryError,
};
use zeroclaw::string_map::StringMap;

#[test]
fn test_recovery_plan_for_memory_failure() {
    let plan = recovery_plan(FailureKind::Memory);
    assert!(plan.contains(&RecoveryAction::EnsureMemoryDir));
    assert!(plan.contains(&RecoveryAction::EnsureStateDir));
}

#[test]
fn test_recovery_plan_for_session_failure() {
    let plan = recovery_plan(FailureKind::Session);
    assert!(plan.contains(&RecoveryAction::EnsureSessionsDir));
}

#[test]
fn test_recovery_plan_for_provider_failure() {
    let plan = recovery_plan(FailureKind::Provider);
    assert!(plan.contains(&RecoveryAction::SuggestProviderCheck));
}

#[test]
fn recovery_plans_for_every_kind() {
    assert_eq!(recovery_plan(FailureKind::Config), vec![RecoveryAction::Noop]);
    assert_eq!(recovery_plan(FailureKind::Unknown), vec![RecoveryAction::Noop]);
    assert_eq!(recovery_plan(FailureKind::Resource), vec![RecoveryAction::SuggestResourceRelief]);
    assert_eq!(
        recovery_plan(FailureKind::Memory),
        vec![RecoveryAction::EnsureMemoryDir, RecoveryAction::EnsureStateDir]
    );
}

#[test]
fn test_run_action_ensure_memory_dir() {
    let workspace = "/tmp/zeroclaw-workspace";
    match run_action(RecoveryAction::EnsureMemoryDir, workspace, false) {
        ActionStep::EnsureDir(p) => assert_eq!(p, "/tmp/zeroclaw-workspace/memory"),
        ActionStep::Done(_) => panic!("a real run creates the directory"),
    }
    let result = ensure_dir_result(RecoveryAction::EnsureMemoryDir, workspace, None);

    assert!(result.ok);
    assert!(result.message.contains("ensured"));
    assert!(result.message.contains("memory"));
    assert_eq!(result.message, "ensured /tmp/zeroclaw-workspace/memory");
}

#[test]
fn test_run_action_dry_run() {
    let step = run_action(RecoveryAction::EnsureMemoryDir, "/tmp/ws", true);
    let result = match step {
        ActionStep::Done(r) => r,
        ActionStep::EnsureDir(_) => panic!("a dry run creates nothing"),
    };

    assert!(result.ok);
    assert!(result.message.contains("[dry-run]"));
    assert_eq!(result.message, "[dry-run] would ensure /tmp/ws/memory");
}

#[test]
fn ensure_dir_failure_message() {
    let r = ensure_dir_result(RecoveryAction::EnsureStateDir, "/x/", Some("denied".to_string()));
    assert!(!r.ok);
    assert_eq!(r.message, "failed to ensure /x/state: denied");
}

#[test]
fn suggestion_actions_are_done_at_once() {
    match run_action(RecoveryAction::SuggestChannelReconnect, "", false) {
        ActionStep::Done(r) => {
            assert!(r.ok);
            assert_eq!(r.message, "建议：检查渠道 token 与回调地址并重连");
        }
        ActionStep::EnsureDir(_) => panic!("no directory for a suggestion"),
    }
    assert_eq!(action_dir_name(RecoveryAction::EnsureSessionsDir), Some("sessions"));
    assert_eq!(action_dir_name(RecoveryAction::Noop), None);
}

#[test]
fn test_recover_failure_by_id() {
    let mut registry = FailureRegistry::new();

    // Record a failure
    let failure_id = record_failure(
        &mut registry,
        FailureKind::Memory,
        FailureSeverity::High,
        "memory dir missing".to_string(),
        StringMap::new(),
    );

    // Run recovery
    let plan = recovery_begin(&registry, &failure_id).unwrap();
    let mut steps = Vec::new();
    for action in plan {
        match run_action(action, "/tmp/zeroclaw-workspace", false) {
            ActionStep::Done(r) => steps.push(r),
            ActionStep::EnsureDir(_) => {
                steps.push(ensure_dir_result(action, "/tmp/zeroclaw-workspace", None))
            }
        }
    }
    let report = recover_failure_by_id(&mut registry, &failure_id, false, steps).unwrap();

    assert_eq!(report.kind, FailureKind::Memory);
    assert!(report.success);
    assert!(!report.steps.is_empty());
    assert_eq!(report.steps.len(), 2);
    assert_eq!(report.steps[0].action, RecoveryAction::EnsureMemoryDir);
    assert_eq!(report.steps[1].action, RecoveryAction::EnsureStateDir);
    let rec = get_failure(&registry, &failure_id).unwrap();
    assert!(rec.resolved);
    assert_eq!(rec.resolution, Some("auto recovery completed".to_string()));
}

#[test]
fn recovery_of_unknown_id_fails() {
    let mut registry = FailureRegistry::new();
    let err = recovery_begin(&registry, "fail_nothing").unwrap_err();
    assert_eq!(err.message(), "failure not found: fail_nothing");
    match recover_failure_by_id(&mut registry, "fail_nothing", false, Vec::new()) {
        Err(RecoveryError::NotFound(id)) => assert_eq!(id, "fail_nothing"),
        Ok(_) => panic!("no such failure"),
    }
}

#[test]
fn failed_or_dry_recovery_does_not_resolve() {
    let mut registry = FailureRegistry::new();
    let id = record_failure(
        &mut registry,
        FailureKind::Session,
        FailureSeverity::Low,
        "s".to_string(),
        StringMap::new(),
    );
    let bad = vec![ensure_dir_result(RecoveryAction::EnsureSessionsDir, "/", Some("e".to_string()))];
    let report = recover_failure_by_id(&mut registry, &id, false, bad).unwrap();
    assert!(!report.success);
    assert!(!get_failure(&registry, &id).unwrap().resolved);
    let dry = match run_action(RecoveryAction::EnsureSessionsDir, "/", true) {
        ActionStep::Done(r) => r,
        ActionStep::EnsureDir(_) => panic!("a dry run creates nothing"),
    };
    let report = recover_failure_by_id(&mut registry, &id, true, vec![dry]).unwrap();
    assert!(report.success);
    assert_eq!(report.steps[0].message, "[dry-run] would ensure /sessions");
    assert!(!get_failure(&registry, &id).unwrap().resolved);
}

#[test]
fn dry_run_messages_name_each_directory() {
    for (action, dir) in [
        (RecoveryAction::EnsureMemoryDir, "memory"),
        (RecoveryAction::EnsureSessionsDir, "sessions"),
        (RecoveryAction::EnsureStateDir, "state"),
    ] {
        match run_action(action, "/ws", true) {
            ActionStep::Done(r) => {
                assert!(r.ok);
                assert_eq!(r.action, action);
                assert_eq!(r.message, format!("[dry-run] would ensure /ws/{}", dir));
            }
            ActionStep::EnsureDir(_) => panic!("a dry run creates nothing"),
        }
    }
    match run_action(RecoveryAction::EnsureStateDir, "/ws/", false) {
        ActionStep::EnsureDir(p) => assert_eq!(p, "/ws/state"),
        ActionStep::Done(_) => panic!("a real run creates the directory"),
    }
}
