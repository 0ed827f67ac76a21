use std::sync::Arc;

use traitclaw::agent_loop::{CompletionResponse, ResponseContent};
use traitclaw::steering::{
    Action, AgentFactory, Guard, GuardResult, GuardSeverity, HookAction, LoggingHook, NoopGuard,
    NoopTracker, Tracker,
};
use traitclaw::types::{AgentState, ModelInfo, ModelTier, Usage};

#[test]
fn test_noop_guard_allows_everything() {
    let guard = NoopGuard;
    let action = Action::RawOutput { content: "test".into() };
    assert!(matches!(guard.check(&action), GuardResult::Allow));
}

#[test]
fn noop_guard_is_named_noop() {
    assert_eq!(NoopGuard.name(), "noop");
    let deny = GuardResult::Deny { reason: "no".into(), severity: GuardSeverity::High };
    assert!(matches!(deny, GuardResult::Deny { severity: GuardSeverity::High, .. }));
}

#[test]
fn test_hook_action_variants() {
    let cont = HookAction::Continue;
    assert!(matches!(cont, HookAction::Continue));

    let block = HookAction::Block("reason".into());
    assert!(matches!(block, HookAction::Block(r) if r == "reason"));
}

#[test]
fn test_logging_hook_creation() {
    let hook = LoggingHook::new(tracing::Level::INFO);
    assert_eq!(hook.level(), tracing::Level::INFO);
}

#[test]
fn test_noop_tracker_recommended_concurrency() {
    let tracker = NoopTracker;
    let state = AgentState::new(ModelTier::Small, 4096);
    assert_eq!(tracker.recommended_concurrency(&state), usize::MAX);
}

#[test]
fn test_noop_tracker_callbacks_do_nothing() {
    let tracker = NoopTracker;
    let mut state = AgentState::new(ModelTier::Small, 4096);
    let initial_iter = state.iteration_count;

    tracker.on_iteration(&mut state);
    tracker.on_tool_call("test", "{}", &mut state);
    let response = CompletionResponse { content: ResponseContent::Text("x".into()), usage: Usage::default() };
    tracker.on_llm_response(&response, &mut state);

    assert_eq!(state.iteration_count, initial_iter);
    assert_eq!(state.token_usage, 0);
}

fn _assert_send_sync<T: Send + Sync>() {}

#[test]
fn test_factory_is_send_sync() {
    _assert_send_sync::<AgentFactory<ModelInfo>>();
}

#[test]
fn test_factory_new() {
    let factory = AgentFactory::new(ModelInfo::new("mock-clone", ModelTier::Small, 4_096, false, false, false));
    assert_eq!(factory.provider().name, "mock-clone");
}

#[test]
fn test_factory_from_arc() {
    let provider = Arc::new(ModelInfo::new("mock-clone", ModelTier::Small, 4_096, false, false, false));
    let factory = AgentFactory::from_arc(provider);
    assert_eq!(factory.provider().name, "mock-clone");
}

#[test]
fn agent_state_starts_fresh() {
    let s = AgentState::new(ModelTier::Large, 128_000);
    assert_eq!(s.tier, ModelTier::Large);
    assert_eq!(s.context_window, 128_000);
    assert_eq!(s.iteration_count, 0);
    assert_eq!(s.token_usage, 0);
    assert_eq!(s.total_context_tokens, 0);
    assert!(!s.last_output_truncated);
}
