//! Rule-based policy engine for command execution.
use vstd::prelude::*;

use crate::text::{
    cat, chars_of, contains_chars, has_infix, has_prefix, owned, starts_with_chars, str_eq,
    trim_start, trim_start_chars,
};

verus! {

/// The risk level of a command, from least to most risky.
#[derive(Debug, Clone, Copy, PartialEq, Eq, Structural)]
pub enum CommandRiskLevel {
    Low,
    Medium,
    High,
}

/// What the engine decides for a command.
#[derive(Debug, Clone, Copy, PartialEq, Eq, Structural)]
pub enum PolicyDecision {
    Allow,
    Deny,
    RequireApproval,
}

/// What a rule asks for when it matches.
#[derive(Debug, Clone, Copy, PartialEq, Eq, Structural)]
pub enum PolicyAction {
    Allow,
    Deny,
    RequireApproval,
}

/// A policy rule: when enabled and its condition holds, it decides.
#[derive(Debug, Clone)]
pub struct Rule {
    pub id: String,
    pub enabled: bool,
    pub priority: i32,
    pub condition: Condition,
    pub action: PolicyAction,
    pub reason: Option<String>,
}

/// The parts of a condition; an absent part always holds.
#[derive(Debug, Clone)]
pub struct Condition {
    pub command_contains: Option<String>,
    pub command_prefix: Option<String>,
    pub min_risk: Option<String>,
    pub tool_name: Option<String>,
    pub sender_id: Option<String>,
    pub channel: Option<String>,
}

/// Where a command comes from.
#[derive(Debug, Clone)]
pub struct EvaluationContext {
    pub tool_name: Option<String>,
    pub sender_id: Option<String>,
    pub channel: Option<String>,
}

/// An ordered list of rules.
#[derive(Debug, Clone)]
pub struct PolicyEngine {
    pub rules: Vec<Rule>,
}

/// The rank of a risk level: low 1, medium 2, high 3.
pub open spec fn risk_rank(r: CommandRiskLevel) -> int {
    match r {
        CommandRiskLevel::Low => 1,
        CommandRiskLevel::Medium => 2,
        CommandRiskLevel::High => 3,
    }
}

/// The rank a `min_risk` text asks for: "low" 1, "medium" 2, "high" 3, and
/// 99 (which no command reaches) for any other text.
pub open spec fn needed_rank(m: Seq<char>) -> int {
    if m == "low"@ {
        1
    } else if m == "medium"@ {
        2
    } else if m == "high"@ {
        3
    } else {
        99
    }
}

/// A context field `actual` satisfies a condition field `wanted`.
pub open spec fn field_holds(wanted: Option<String>, actual: Option<String>) -> bool {
    match wanted {
        None => true,
        Some(w) => actual is Some && actual->0@ == w@,
    }
}

/// Whether `c` holds for `command` at `risk` in `ctx`: the command, once its
/// leading white space is dropped, starts with the prefix; it contains the
/// pattern; its risk reaches the minimum; and tool, sender and channel are
/// those asked for.
pub open spec fn condition_holds(
    c: Condition,
    command: Seq<char>,
    risk: CommandRiskLevel,
    ctx: EvaluationContext,
) -> bool {
    &&& c.command_prefix matches Some(p) ==> has_prefix(trim_start(command), p@)
    &&& c.command_contains matches Some(p) ==> has_infix(command, p@)
    &&& c.min_risk matches Some(m) ==> risk_rank(risk) >= needed_rank(m@)
    &&& field_holds(c.tool_name, ctx.tool_name)
    &&& field_holds(c.sender_id, ctx.sender_id)
    &&& field_holds(c.channel, ctx.channel)
}

/// Rule `i` is enabled and its condition holds.
pub open spec fn rule_fires(
    rules: Seq<Rule>,
    i: int,
    command: Seq<char>,
    risk: CommandRiskLevel,
    ctx: EvaluationContext,
) -> bool {
    0 <= i < rules.len() && rules[i].enabled && condition_holds(
        rules[i].condition,
        command,
        risk,
        ctx,
    )
}

/// Rule `i` decides: it fires, no firing rule has a higher priority, and no
/// firing rule of the same priority comes before it.
pub open spec fn rule_wins(
    rules: Seq<Rule>,
    i: int,
    command: Seq<char>,
    risk: CommandRiskLevel,
    ctx: EvaluationContext,
) -> bool {
    &&& rule_fires(rules, i, command, risk, ctx)
    &&& forall|j: int|
        #![trigger rules[j]]
        rule_fires(rules, j, command, risk, ctx) ==> rules[j].priority < rules[i].priority || (
        rules[j].priority == rules[i].priority && i <= j)
}

/// The decision an action stands for.
pub open spec fn decision_of(a: PolicyAction) -> PolicyDecision {
    match a {
        PolicyAction::Allow => PolicyDecision::Allow,
        PolicyAction::Deny => PolicyDecision::Deny,
        PolicyAction::RequireApproval => PolicyDecision::RequireApproval,
    }
}

/// The reason given for a rule's decision: its own reason, or
/// "matched rule <id>".
pub open spec fn reason_of(r: Rule) -> Seq<char> {
    match r.reason {
        Some(s) => s@,
        None => "matched rule "@ + r.id@,
    }
}

fn field_matches(wanted: &Option<String>, actual: &Option<String>) -> (b: bool)
    ensures
        b == field_holds(*wanted, *actual),
{
    match wanted {
        None => true,
        Some(w) => match actual {
            Some(a) => str_eq(a.as_str(), w.as_str()),
            None => false,
        },
    }
}

fn needed_rank_of(m: &str) -> (n: u8)
    ensures
        n == needed_rank(m@),
{
    if str_eq(m, "low") {
        1
    } else if str_eq(m, "medium") {
        2
    } else if str_eq(m, "high") {
        3
    } else {
        99
    }
}

fn risk_rank_of(r: CommandRiskLevel) -> (n: u8)
    ensures
        n == risk_rank(r),
{
    match r {
        CommandRiskLevel::Low => 1,
        CommandRiskLevel::Medium => 2,
        CommandRiskLevel::High => 3,
    }
}

impl Condition {
    /// Whether the condition holds for `command` at `risk` in `ctx`.
    pub fn matches(&self, command: &str, risk: CommandRiskLevel, ctx: &EvaluationContext) -> (b:
        bool)
        ensures
            b == condition_holds(*self, command@, risk, *ctx),
    {
        let cmd = chars_of(command);
        if let Some(prefix) = &self.command_prefix {
            let t = trim_start_chars(&cmd);
            let p = chars_of(prefix.as_str());
            if !starts_with_chars(&t, &p) {
                return false;
            }
        }
        if let Some(contains) = &self.command_contains {
            let p = chars_of(contains.as_str());
            if !contains_chars(&cmd, &p) {
                return false;
            }
        }
        if let Some(min_risk) = &self.min_risk {
            let needed = needed_rank_of(min_risk.as_str());
            let actual = risk_rank_of(risk);
            if actual < needed {
                return false;
            }
        }
        if !field_matches(&self.tool_name, &ctx.tool_name) {
            return false;
        }
        if !field_matches(&self.sender_id, &ctx.sender_id) {
            return false;
        }
        if !field_matches(&self.channel, &ctx.channel) {
            return false;
        }
        true
    }
}

fn decision_for(a: PolicyAction) -> (d: PolicyDecision)
    ensures
        d == decision_of(a),
{
    match a {
        PolicyAction::Allow => PolicyDecision::Allow,
        PolicyAction::Deny => PolicyDecision::Deny,
        PolicyAction::RequireApproval => PolicyDecision::RequireApproval,
    }
}

fn reason_for(r: &Rule) -> (s: String)
    ensures
        s@ == reason_of(*r),
{
    match &r.reason {
        Some(s) => s.clone(),
        None => cat("matched rule ", r.id.as_str()),
    }
}

/// The text of a literal, as an owned optional string.
fn some_text(s: &str) -> (r: Option<String>)
    ensures
        r is Some,
        r->0@ == s@,
{
    Some(owned(s))
}

/// The engine holds exactly the two built-in rules: `deny_rm_rf_root`
/// (enabled, priority 100, denies any command containing `rm -rf /`, reason
/// "dangerous root deletion pattern") and `approval_for_high_risk` (enabled,
/// priority 50, asks for approval of high-risk commands, reason "high-risk
/// command requires explicit approval").
pub open spec fn is_default_engine(e: PolicyEngine) -> bool {
    &&& e.rules.len() == 2
    &&& e.rules@[0].id@ == "deny_rm_rf_root"@
    &&& e.rules@[0].enabled
    &&& e.rules@[0].priority == 100
    &&& e.rules@[0].condition.command_contains matches Some(s) && s@ == "rm -rf /"@
    &&& e.rules@[0].condition.command_prefix is None
    &&& e.rules@[0].condition.min_risk is None
    &&& e.rules@[0].condition.tool_name is None
    &&& e.rules@[0].condition.sender_id is None
    &&& e.rules@[0].condition.channel is None
    &&& e.rules@[0].action == PolicyAction::Deny
    &&& e.rules@[0].reason matches Some(s) && s@ == "dangerous root deletion pattern"@
    &&& e.rules@[1].id@ == "approval_for_high_risk"@
    &&& e.rules@[1].enabled
    &&& e.rules@[1].priority == 50
    &&& e.rules@[1].condition.command_contains is None
    &&& e.rules@[1].condition.command_prefix is None
    &&& e.rules@[1].condition.min_risk matches Some(s) && s@ == "high"@
    &&& e.rules@[1].condition.tool_name is None
    &&& e.rules@[1].condition.sender_id is None
    &&& e.rules@[1].condition.channel is None
    &&& e.rules@[1].action == PolicyAction::RequireApproval
    &&& e.rules@[1].reason matches Some(s) && s@ == "high-risk command requires explicit approval"@
}

/// No enabled rule has priority `i32::MIN`, whose negation, by which the
/// rules are ordered, does not fit an `i32`.
pub open spec fn priorities_negatable(rules: Seq<Rule>) -> bool {
    forall|i: int| 0 <= i < rules.len() && #[trigger] rules[i].enabled ==> rules[i].priority != i32::MIN
}

impl Default for EvaluationContext {
    /// A context that names no tool, sender or channel.
    fn default() -> (c: Self)
        ensures
            c.tool_name is None,
            c.sender_id is None,
            c.channel is None,
    {
        EvaluationContext { tool_name: None, sender_id: None, channel: None }
    }
}

impl Default for PolicyEngine {
    /// An engine without rules.
    fn default() -> (e: Self)
        ensures
            e.rules@.len() == 0,
    {
        PolicyEngine { rules: Vec::new() }
    }
}

impl PolicyEngine {
    /// `evaluate_with_context` with a context that names no tool, sender or
    /// channel.
    pub fn evaluate(&self, command: &str, risk: CommandRiskLevel) -> (r: Option<
        (PolicyDecision, String),
    >)
        requires
            priorities_negatable(self.rules@),
        ensures
            ({
                let ctx = EvaluationContext { tool_name: None, sender_id: None, channel: None };
                &&& r is None <==> (forall|i: int| !rule_fires(self.rules@, i, command@, risk, ctx))
                &&& r matches Some(p) ==> exists|i: int|
                    rule_wins(self.rules@, i, command@, risk, ctx) && p.0 == decision_of(
                        self.rules@[i].action,
                    ) && p.1@ == reason_of(self.rules@[i])
            }),
    {
        let ctx = EvaluationContext { tool_name: None, sender_id: None, channel: None };
        self.evaluate_with_context(command, risk, &ctx)
    }

    /// The decision of the winning rule: among the enabled rules whose
    /// condition holds, the one of highest priority, the earliest of those
    /// on a tie; `None` when no enabled rule's condition holds.
    pub fn evaluate_with_context(
        &self,
        command: &str,
        risk: CommandRiskLevel,
        ctx: &EvaluationContext,
    ) -> (r: Option<(PolicyDecision, String)>)
        requires
            priorities_negatable(self.rules@),
        ensures
            r is None <==> (forall|i: int| !rule_fires(self.rules@, i, command@, risk, *ctx)),
            r matches Some(p) ==> exists|i: int|
                rule_wins(self.rules@, i, command@, risk, *ctx) && p.0 == decision_of(
                    self.rules@[i].action,
                ) && p.1@ == reason_of(self.rules@[i]),
    {
        let rules = &self.rules;
        let mut best: Option<usize> = None;
        let mut i: usize = 0;
        while i < rules.len()
            invariant
                0 <= i <= rules.len(),
                rules@ == self.rules@,
                match best {
                    None => forall|j: int| 0 <= j < i ==> !rule_fires(rules@, j, command@, risk, *ctx),
                    Some(b) => {
                        &&& b < i
                        &&& rule_fires(rules@, b as int, command@, risk, *ctx)
                        &&& forall|j: int|
                            #![trigger rules@[j]]
                            0 <= j < i && rule_fires(rules@, j, command@, risk, *ctx)
                                ==> rules@[j].priority < rules@[b as int].priority || (
                            rules@[j].priority == rules@[b as int].priority && b <= j)
                    },
                },
            decreases rules.len() - i,
        {
            let rule = &rules[i];
            if rule.enabled && rule.condition.matches(command, risk, ctx) {
                match best {
                    None => {
                        best = Some(i);
                    },
                    Some(b) => {
                        if rule.priority > rules[b].priority {
                            best = Some(i);
                        }
                    },
                }
            }
            i = i + 1;
        }
        match best {
            None => None,
            Some(b) => {
                let rule = &rules[b];
                let d = decision_for(rule.action);
                let reason = reason_for(rule);
                assert(rule_wins(self.rules@, b as int, command@, risk, *ctx));
                Some((d, reason))
            },
        }
    }

    /// The two built-in rules: deny any command containing `rm -rf /`
    /// (priority 100), and ask for approval of high-risk commands
    /// (priority 50).
    pub fn with_default_rules() -> (e: Self)
        ensures
            is_default_engine(e),
            priorities_negatable(e.rules@),
    {
        let mut rules: Vec<Rule> = Vec::new();
        rules.push(
            Rule {
                id: owned("deny_rm_rf_root"),
                enabled: true,
                priority: 100,
                condition: Condition {
                    command_contains: some_text("rm -rf /"),
                    command_prefix: None,
                    min_risk: None,
                    tool_name: None,
                    sender_id: None,
                    channel: None,
                },
                action: PolicyAction::Deny,
                reason: some_text("dangerous root deletion pattern"),
            },
        );
        rules.push(
            Rule {
                id: owned("approval_for_high_risk"),
                enabled: true,
                priority: 50,
                condition: Condition {
                    command_contains: None,
                    command_prefix: None,
                    min_risk: some_text("high"),
                    tool_name: None,
                    sender_id: None,
                    channel: None,
                },
                action: PolicyAction::RequireApproval,
                reason: some_text("high-risk command requires explicit approval"),
            },
        );
        PolicyEngine { rules }
    }
}

/// At most one rule wins an evaluation.
pub proof fn law_winner_unique(
    rules: Seq<Rule>,
    command: Seq<char>,
    risk: CommandRiskLevel,
    ctx: EvaluationContext,
    i: int,
    j: int,
)
    requires
        rule_wins(rules, i, command, risk, ctx),
        rule_wins(rules, j, command, risk, ctx),
    ensures
        i == j,
{
    assert(rules[j] == rules[j]);
    assert(rules[i] == rules[i]);
}

/// With the built-in rules, any command that contains `rm -rf /` is denied
/// by `deny_rm_rf_root`, whatever its risk and context.
pub proof fn law_default_denies_root_deletion(
    e: PolicyEngine,
    command: Seq<char>,
    risk: CommandRiskLevel,
    ctx: EvaluationContext,
)
    requires
        is_default_engine(e),
        has_infix(command, "rm -rf /"@),
    ensures
        rule_wins(e.rules@, 0, command, risk, ctx),
        decision_of(e.rules@[0].action) == PolicyDecision::Deny,
        reason_of(e.rules@[0]) == "dangerous root deletion pattern"@,
        forall|i: int| rule_wins(e.rules@, i, command, risk, ctx) ==> i == 0,
{
    assert forall|i: int| rule_wins(e.rules@, i, command, risk, ctx) implies i == 0 by {
        law_winner_unique(e.rules@, command, risk, ctx, i, 0);
    }
}

/// With the built-in rules, a high-risk command without `rm -rf /` needs
/// approval (rule `approval_for_high_risk`).
pub proof fn law_default_high_risk_needs_approval(
    e: PolicyEngine,
    command: Seq<char>,
    ctx: EvaluationContext,
)
    requires
        is_default_engine(e),
        !has_infix(command, "rm -rf /"@),
    ensures
        rule_wins(e.rules@, 1, command, CommandRiskLevel::High, ctx),
        decision_of(e.rules@[1].action) == PolicyDecision::RequireApproval,
        reason_of(e.rules@[1]) == "high-risk command requires explicit approval"@,
        forall|i: int| rule_wins(e.rules@, i, command, CommandRiskLevel::High, ctx) ==> i == 1,
{
    reveal_strlit("high");
    reveal_strlit("low");
    reveal_strlit("medium");
    assert("high"@[0] != "low"@[0]);
    assert("high"@[0] != "medium"@[0]);
    assert(needed_rank("high"@) == 3);
    assert(!rule_fires(e.rules@, 0, command, CommandRiskLevel::High, ctx));
    assert forall|i: int| rule_wins(e.rules@, i, command, CommandRiskLevel::High, ctx) implies i
        == 1 by {
        law_winner_unique(e.rules@, command, CommandRiskLevel::High, ctx, i, 1);
    }
}

/// With the built-in rules, a command of low or medium risk without
/// `rm -rf /` matches no rule: the engine does not decide.
pub proof fn law_default_lower_risk_undecided(
    e: PolicyEngine,
    command: Seq<char>,
    risk: CommandRiskLevel,
    ctx: EvaluationContext,
)
    requires
        is_default_engine(e),
        !has_infix(command, "rm -rf /"@),
        risk != CommandRiskLevel::High,
    ensures
        forall|i: int| !rule_fires(e.rules@, i, command, risk, ctx),
{
    reveal_strlit("high");
    reveal_strlit("low");
    reveal_strlit("medium");
    assert("high"@[0] != "low"@[0]);
    assert("high"@[0] != "medium"@[0]);
    assert(needed_rank("high"@) == 3);
}

/// A rule fires only when every part its condition names holds: the
/// command (leading white space dropped) starts with the prefix, contains
/// the pattern, reaches the minimum risk, and the context carries exactly
/// the tool, sender and channel the condition names. In particular a rule
/// for one sender never fires for a command from another sender, or from
/// none.
pub proof fn law_rule_fires_only_when_condition_holds(
    rules: Seq<Rule>,
    i: int,
    command: Seq<char>,
    risk: CommandRiskLevel,
    ctx: EvaluationContext,
)
    requires
        rule_fires(rules, i, command, risk, ctx),
    ensures
        0 <= i < rules.len(),
        rules[i].enabled,
        rules[i].condition.command_prefix matches Some(p) ==> has_prefix(trim_start(command), p@),
        rules[i].condition.command_contains matches Some(p) ==> has_infix(command, p@),
        rules[i].condition.min_risk matches Some(m) ==> risk_rank(risk) >= needed_rank(m@),
        rules[i].condition.tool_name matches Some(s) ==> ctx.tool_name matches Some(t) && t@ == s@,
        rules[i].condition.sender_id matches Some(s) ==> ctx.sender_id matches Some(t) && t@ == s@,
        rules[i].condition.channel matches Some(s) ==> ctx.channel matches Some(t) && t@ == s@,
{
}

/// A rule whose condition names nothing fires for every command when it is
/// enabled; a disabled rule never fires.
pub proof fn law_empty_condition_always_fires(
    rules: Seq<Rule>,
    i: int,
    command: Seq<char>,
    risk: CommandRiskLevel,
    ctx: EvaluationContext,
)
    requires
        0 <= i < rules.len(),
        rules[i].condition.command_prefix is None,
        rules[i].condition.command_contains is None,
        rules[i].condition.min_risk is None,
        rules[i].condition.tool_name is None,
        rules[i].condition.sender_id is None,
        rules[i].condition.channel is None,
    ensures
        rule_fires(rules, i, command, risk, ctx) == rules[i].enabled,
{
}

/// The deciding rule has the highest priority among the rules that fire,
/// and among those of equal priority it is the first in the list.
pub proof fn law_winner_has_top_priority(
    rules: Seq<Rule>,
    i: int,
    j: int,
    command: Seq<char>,
    risk: CommandRiskLevel,
    ctx: EvaluationContext,
)
    requires
        rule_wins(rules, i, command, risk, ctx),
        rule_fires(rules, j, command, risk, ctx),
    ensures
        rules[j].priority <= rules[i].priority,
        j < i ==> rules[j].priority < rules[i].priority,
{
    assert(rules[j] == rules[j]);
}

} // verus!
