//! The action rules of the agent firewall: verdicts, default policies and the
//! conditions under which a rule applies.

use vstd::prelude::*;

verus! {

/// The verdict of the firewall for a specific action.
#[derive(Debug, Clone, Copy, PartialEq, Eq, Structural)]
pub enum Verdict {
    /// Allow the action to proceed.
    Allow,
    /// Block the action immediately.
    Block,
    /// Pause execution and request user approval.
    RequireApproval,
}

/// The default behavior when no specific rule matches an action.
#[derive(Debug, Clone, Copy, PartialEq, Eq, Structural)]
pub enum DefaultPolicy {
    /// Allow actions by default unless explicitly blocked.
    AllowAll,
    /// Block actions by default unless explicitly allowed.
    DenyAll,
    /// Pause execution and ask the user for approval by default.
    RequireApproval,
}

impl Default for DefaultPolicy {
    /// Interactive mode: ask the user.
    fn default() -> (p: Self)
        ensures
            p == DefaultPolicy::RequireApproval,
    {
        DefaultPolicy::RequireApproval
    }
}

/// Conditions that refine when a rule applies.
#[derive(Debug, Clone)]
pub struct RuleConditions {
    /// Allowed domains for network requests.
    pub allow_domains: Option<Vec<String>>,
    /// Allowed file paths for filesystem access.
    pub allow_paths: Option<Vec<String>>,
    /// Maximum spend amount allowed per action/session.
    pub max_spend: Option<u64>,
    /// Rate limit specification (e.g., "10/minute").
    pub rate_limit: Option<String>,
    /// Allowed application names/window titles for GUI interaction.
    pub allow_apps: Option<Vec<String>>,
    /// Pattern for sensitive content in keystrokes; a match blocks the action.
    pub block_text_pattern: Option<String>,
    /// Semantic intent tags that are explicitly blocked.
    pub block_intents: Option<Vec<String>>,
}

impl Default for RuleConditions {
    /// No conditions.
    fn default() -> (c: Self)
        ensures
            c.allow_domains is None,
            c.allow_paths is None,
            c.max_spend is None,
            c.rate_limit is None,
            c.allow_apps is None,
            c.block_text_pattern is None,
            c.block_intents is None,
    {
        RuleConditions {
            allow_domains: None,
            allow_paths: None,
            max_spend: None,
            rate_limit: None,
            allow_apps: None,
            block_text_pattern: None,
            block_intents: None,
        }
    }
}

/// A specific firewall rule matching a target action.
#[derive(Debug, Clone)]
pub struct Rule {
    /// Optional unique identifier for the rule.
    pub rule_id: Option<String>,
    /// Target action type (e.g., "net::fetch", "fs::write") or "*" for all.
    pub target: String,
    /// Conditions that must match for this rule to apply.
    pub conditions: RuleConditions,
    /// The verdict if the target and conditions match.
    pub action: Verdict,
}

/// A collection of rules defining the security boundary for an agent.
#[derive(Debug, Clone)]
pub struct ActionRules {
    /// Unique identifier for this policy set.
    pub policy_id: String,
    /// The default behavior if no specific rule matches.
    pub defaults: DefaultPolicy,
    /// The rules to evaluate.
    pub rules: Vec<Rule>,
}

impl Default for ActionRules {
    /// An empty rule set with an empty id that asks the user by default.
    fn default() -> (r: Self)
        ensures
            r.policy_id@ == Seq::<char>::empty(),
            r.defaults == DefaultPolicy::RequireApproval,
            r.rules@.len() == 0,
    {
        ActionRules { policy_id: String::new(), defaults: DefaultPolicy::RequireApproval, rules: Vec::new() }
    }
}

} // verus!
