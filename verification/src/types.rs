//! Shared plain data types of the agent framework.

use vstd::prelude::*;

verus! {

/// Capability tier of a model, used to size tool lists and context.
#[derive(Debug, Clone, Copy, PartialEq, Eq, Structural)]
pub enum ModelTier {
    /// Small models with short context windows.
    Small,
    /// Medium models.
    Medium,
    /// Large models.
    Large,
}

/// What the runtime knows of a model.
#[derive(Debug)]
pub struct ModelInfo {
    /// Model identifier sent with each request.
    pub name: String,
    /// Capability tier.
    pub tier: ModelTier,
    /// Maximum context size in tokens.
    pub context_window: usize,
    /// Whether the model accepts tool definitions.
    pub supports_tools: bool,
    /// Whether the model accepts images.
    pub supports_vision: bool,
    /// Whether the model supports native structured (JSON Schema) output.
    pub supports_structured: bool,
}

impl ModelInfo {
    /// Describe a model.
    pub fn new(
        name: &str,
        tier: ModelTier,
        context_window: usize,
        supports_tools: bool,
        supports_vision: bool,
        supports_structured: bool,
    ) -> (r: ModelInfo)
        ensures
            r.name@ == name@,
            r.tier == tier,
            r.context_window == context_window,
            r.supports_tools == supports_tools,
            r.supports_vision == supports_vision,
            r.supports_structured == supports_structured,
    {
        ModelInfo {
            name: name.to_owned(),
            tier,
            context_window,
            supports_tools,
            supports_vision,
            supports_structured,
        }
    }
}

/// Mutable runtime state of one agent run, shared with trackers, hints
/// and context strategies.
#[derive(Debug)]
pub struct AgentState {
    /// Tier of the model in use.
    pub tier: ModelTier,
    /// Context window of the model in use, in tokens.
    pub context_window: usize,
    /// Token budget of the whole run.
    pub token_budget: usize,
    /// Number of loop iterations started so far.
    pub iteration_count: usize,
    /// Total tokens consumed so far.
    pub token_usage: usize,
    /// Prompt tokens of the most recent request.
    pub total_context_tokens: usize,
    /// Set when a context strategy dropped or summarised messages.
    pub last_output_truncated: bool,
}

impl AgentState {
    /// Fresh state for a run on a model of the given tier and window. The
    /// budget starts unlimited.
    pub fn new(tier: ModelTier, context_window: usize) -> (r: AgentState)
        ensures
            r.tier == tier,
            r.context_window == context_window,
            r.token_budget == usize::MAX,
            r.iteration_count == 0,
            r.token_usage == 0,
            r.total_context_tokens == 0,
            !r.last_output_truncated,
    {
        AgentState {
            tier,
            context_window,
            token_budget: usize::MAX,
            iteration_count: 0,
            token_usage: 0,
            total_context_tokens: 0,
            last_output_truncated: false,
        }
    }
}

/// Token usage statistics of one completion.
#[derive(Debug, Clone, Copy, PartialEq, Eq, Structural)]
pub struct Usage {
    /// Tokens used in the prompt.
    pub prompt_tokens: usize,
    /// Tokens generated in the completion.
    pub completion_tokens: usize,
    /// Total tokens used.
    pub total_tokens: usize,
}

impl Default for Usage {
    fn default() -> (r: Usage)
        ensures
            r.prompt_tokens == 0,
            r.completion_tokens == 0,
            r.total_tokens == 0,
    {
        Usage { prompt_tokens: 0, completion_tokens: 0, total_tokens: 0 }
    }
}

} // verus!
