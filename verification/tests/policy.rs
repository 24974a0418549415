use zeroclaw::policy::{
    CommandRiskLevel, Condition, EvaluationContext, PolicyAction, PolicyDecision, PolicyEngine, Rule,
};

fn cond() -> Condition {
    Condition {
        command_contains: None,
        command_prefix: None,
        min_risk: None,
        tool_name: None,
        sender_id: None,
        channel: None,
    }
}

fn rule(id: &str, priority: i32, condition: Condition, action: PolicyAction, reason: Option<&str>) -> Rule {
    Rule {
        id: id.to_string(),
        enabled: true,
        priority,
        condition,
        action,
        reason: reason.map(|s| s.to_string()),
    }
}

fn no_ctx() -> EvaluationContext {
    EvaluationContext { tool_name: None, sender_id: None, channel: None }
}

#[test]
fn policy_engine_denies_dangerous_pattern() {
    let engine = PolicyEngine::with_default_rules();
    let out = engine.evaluate("echo x && rm -rf /", CommandRiskLevel::High);
    assert!(out.is_some());
    let (decision, _) = out.unwrap();
    assert_eq!(decision, PolicyDecision::Deny);
}

#[test]
fn default_rules_require_approval_for_high_risk() {
    let engine = PolicyEngine::with_default_rules();
    let out = engine.evaluate("ls -la", CommandRiskLevel::High).unwrap();
    assert_eq!(out.0, PolicyDecision::RequireApproval);
    assert_eq!(out.1, "high-risk command requires explicit approval");
    let deny = engine.evaluate("rm -rf /", CommandRiskLevel::Low).unwrap();
    assert_eq!(deny.0, PolicyDecision::Deny);
    assert_eq!(deny.1, "dangerous root deletion pattern");
}

#[test]
fn default_rules_leave_low_risk_undecided() {
    let engine = PolicyEngine::with_default_rules();
    assert!(engine.evaluate("ls", CommandRiskLevel::Low).is_none());
    assert!(engine.evaluate("ls", CommandRiskLevel::Medium).is_none());
    assert_eq!(engine.rules.len(), 2);
    assert_eq!(engine.rules[0].id, "deny_rm_rf_root");
    assert_eq!(engine.rules[1].priority, 50);
}

#[test]
fn highest_priority_wins_and_ties_keep_order() {
    let mut c = cond();
    c.command_prefix = Some("git".to_string());
    let engine = PolicyEngine {
        rules: vec![
            rule("low", 1, cond(), PolicyAction::Allow, None),
            rule("first_tie", 10, c.clone(), PolicyAction::Deny, None),
            rule("second_tie", 10, cond(), PolicyAction::RequireApproval, None),
        ],
    };
    let out = engine.evaluate("   git push", CommandRiskLevel::Low).unwrap();
    assert_eq!(out.0, PolicyDecision::Deny);
    assert_eq!(out.1, "matched rule first_tie");
    let other = engine.evaluate("ls", CommandRiskLevel::Low).unwrap();
    assert_eq!(other.0, PolicyDecision::RequireApproval);
    assert_eq!(other.1, "matched rule second_tie");
}

#[test]
fn disabled_rules_never_decide() {
    let mut r = rule("off", 100, cond(), PolicyAction::Deny, None);
    r.enabled = false;
    let engine = PolicyEngine { rules: vec![r] };
    assert!(engine.evaluate("anything", CommandRiskLevel::High).is_none());
}

#[test]
fn context_fields_must_match() {
    let mut c = cond();
    c.tool_name = Some("shell".to_string());
    c.channel = Some("qq".to_string());
    let engine = PolicyEngine { rules: vec![rule("ctx", 1, c, PolicyAction::Deny, Some("ctx rule"))] };
    assert!(engine.evaluate("x", CommandRiskLevel::Low).is_none());
    let ctx = EvaluationContext {
        tool_name: Some("shell".to_string()),
        sender_id: None,
        channel: Some("qq".to_string()),
    };
    let out = engine.evaluate_with_context("x", CommandRiskLevel::Low, &ctx).unwrap();
    assert_eq!(out, (PolicyDecision::Deny, "ctx rule".to_string()));
    let wrong = EvaluationContext { channel: Some("web".to_string()), ..ctx };
    assert!(engine.evaluate_with_context("x", CommandRiskLevel::Low, &wrong).is_none());
}

#[test]
fn condition_min_risk_levels() {
    let mut c = cond();
    c.min_risk = Some("medium".to_string());
    assert!(!c.matches("x", CommandRiskLevel::Low, &no_ctx()));
    assert!(c.matches("x", CommandRiskLevel::Medium, &no_ctx()));
    assert!(c.matches("x", CommandRiskLevel::High, &no_ctx()));
    c.min_risk = Some("extreme".to_string());
    assert!(!c.matches("x", CommandRiskLevel::High, &no_ctx()));
}

#[test]
fn condition_prefix_and_contains() {
    let mut c = cond();
    c.command_prefix = Some("sudo".to_string());
    c.command_contains = Some("apt".to_string());
    assert!(c.matches("\t sudo apt install", CommandRiskLevel::Low, &no_ctx()));
    assert!(!c.matches("echo sudo apt", CommandRiskLevel::Low, &no_ctx()));
    assert!(!c.matches("sudo ls", CommandRiskLevel::Low, &no_ctx()));
    let mut e = cond();
    e.command_contains = Some(String::new());
    assert!(e.matches("", CommandRiskLevel::Low, &no_ctx()));
}
