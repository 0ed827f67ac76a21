//! Steering: guards that block actions, hooks that intercept tool calls and
//! trackers that follow the run.

use vstd::prelude::*;
use std::sync::Arc;
use crate::types::AgentState;
use crate::agent_loop::CompletionResponse;
use crate::text::push_str;

verus! {

/// The logging level type of `tracing`.
#[verifier::external_type_specification]
#[verifier::external_body]
pub struct ExLevel(tracing::Level);

/// An action the agent is about to take.
#[derive(Debug)]
pub enum Action {
    /// A tool call with its JSON arguments.
    ToolCall {
        /// Tool name.
        name: String,
        /// Arguments as JSON text.
        arguments: String,
    },
    /// Raw output about to be returned.
    RawOutput {
        /// The output text.
        content: String,
    },
}

/// Severity of a guard violation.
#[derive(Debug, Clone, Copy, PartialEq, Eq, Structural)]
pub enum GuardSeverity {
    /// Log and block immediately.
    Critical,
    /// Block and alert the developer.
    High,
    /// Block and suggest an alternative.
    Medium,
}

/// The verdict of a guard.
#[derive(Debug)]
pub enum GuardResult {
    /// The action may proceed.
    Allow,
    /// The action is blocked; the agent receives the reason.
    Deny {
        /// Why the action was blocked.
        reason: String,
        /// How severe the violation is.
        severity: GuardSeverity,
    },
    /// The action proceeds in a sanitised form.
    Sanitize {
        /// The action to take instead.
        modified_action: Action,
        /// A note about the change.
        warning: String,
    },
}

/// A hard boundary checked before every action.
pub trait Guard {
    /// The guard's name, for logs.
    fn name(&self) -> &'static str;

    /// Whether `action` may proceed.
    fn check(&self, action: &Action) -> GuardResult;
}

/// The reason a guard gave for blocking, if its verdict blocks.
pub fn denial_reason(result: &GuardResult) -> (r: Option<&String>)
    ensures
        match result {
            GuardResult::Deny { reason, .. } => r == Some(reason),
            _ => r is None,
        },
{
    match result {
        GuardResult::Deny { reason, .. } => Some(reason),
        _ => None,
    }
}

/// The tool output when guard `guard_name` blocks a call:
/// `"Error: blocked by guard '{guard_name}': {reason}"`.
pub fn blocked_output(guard_name: &str, reason: &str) -> (r: String)
    ensures
        r@ == "Error: blocked by guard '"@ + guard_name@ + "': "@ + reason@,
{
    let mut s = String::new();
    push_str(&mut s, "Error: blocked by guard '");
    push_str(&mut s, guard_name);
    push_str(&mut s, "': ");
    push_str(&mut s, reason);
    proof {
        assert(s@ =~= "Error: blocked by guard '"@ + guard_name@ + "': "@ + reason@);
    }
    s
}

/// The tool output when no tool of that name is registered:
/// `"Error: tool '{name}' not found"`.
pub fn tool_not_found_output(name: &str) -> (r: String)
    ensures
        r@ == "Error: tool '"@ + name@ + "' not found"@,
{
    let mut s = String::new();
    push_str(&mut s, "Error: tool '");
    push_str(&mut s, name);
    push_str(&mut s, "' not found");
    proof {
        assert(s@ =~= "Error: tool '"@ + name@ + "' not found"@);
    }
    s
}

/// A guard that allows everything.
pub struct NoopGuard;

impl Guard for NoopGuard {
    fn name(&self) -> (r: &'static str)
        ensures
            r@ == "noop"@,
    {
        "noop"
    }

    fn check(&self, action: &Action) -> (r: GuardResult)
        ensures
            r is Allow,
    {
        GuardResult::Allow
    }
}

/// A hook's decision about a tool call.
#[derive(Debug)]
pub enum HookAction {
    /// Let the tool run.
    Continue,
    /// Block the tool; the reason is returned to the model as the result.
    Block(String),
}

/// A hook that logs lifecycle events at a given level.
pub struct LoggingHook {
    level: tracing::Level,
}

impl LoggingHook {
    /// The level the hook logs at.
    pub closed spec fn level_spec(&self) -> tracing::Level {
        self.level
    }

    /// A hook logging at `level`.
    pub fn new(level: tracing::Level) -> (r: Self)
        ensures
            r.level_spec() == level,
    {
        LoggingHook { level }
    }

    /// The level the hook logs at.
    pub fn level(&self) -> (r: tracing::Level)
        ensures
            r == self.level_spec(),
    {
        self.level
    }
}

/// Follows the run and updates the agent state for guards and hints.
pub trait Tracker {
    /// Called at the start of each iteration.
    fn on_iteration(&self, state: &mut AgentState);

    /// Called after a tool is invoked with the given JSON arguments.
    fn on_tool_call(&self, name: &str, arguments: &str, state: &mut AgentState);

    /// Called after the model responds.
    fn on_llm_response(&self, response: &CompletionResponse, state: &mut AgentState);

    /// How many operations may run at once.
    fn recommended_concurrency(&self, state: &AgentState) -> usize;
}

/// A tracker that does nothing.
pub struct NoopTracker;

impl Tracker for NoopTracker {
    fn on_iteration(&self, state: &mut AgentState)
        ensures
            *final(state) == *old(state),
    {
    }

    fn on_tool_call(&self, name: &str, arguments: &str, state: &mut AgentState)
        ensures
            *final(state) == *old(state),
    {
    }

    fn on_llm_response(&self, response: &CompletionResponse, state: &mut AgentState)
        ensures
            *final(state) == *old(state),
    {
    }

    fn recommended_concurrency(&self, state: &AgentState) -> (r: usize)
        ensures
            r == usize::MAX,
    {
        usize::MAX
    }
}

/// Spawns agents that share one provider.
pub struct AgentFactory<P> {
    provider: Arc<P>,
}

impl<P> AgentFactory<P> {
    /// The shared provider.
    pub closed spec fn provider_spec(&self) -> P {
        *self.provider
    }

    /// A factory over `provider`.
    pub fn new(provider: P) -> (r: Self)
        ensures
            r.provider_spec() == provider,
    {
        AgentFactory { provider: Arc::new(provider) }
    }

    /// A factory over an already shared provider.
    pub fn from_arc(provider: Arc<P>) -> (r: Self)
        ensures
            r.provider_spec() == *provider,
    {
        AgentFactory { provider }
    }

    /// The shared provider.
    pub fn provider(&self) -> (r: &Arc<P>)
        ensures
            **r == self.provider_spec(),
    {
        &self.provider
    }
}

} // verus!
