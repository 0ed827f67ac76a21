use traitclaw::context::{
    apply_summary, fallback_summary, rule_based_prune, slide_window, summary_input, ContextManager,
    ContextStrategy, NoopContextStrategy,
};
use traitclaw::message::{estimate_tokens, Message, MessageRole};
use traitclaw::types::{AgentState, ModelTier};

fn make_msg(role: MessageRole, content: &str) -> Message {
    Message { role, content: content.to_string(), tool_call_id: None }
}

fn tool_msg(content: &str) -> Message {
    Message { role: MessageRole::Tool, content: content.to_string(), tool_call_id: Some("call_1".to_string()) }
}

fn limit(context_window: usize, threshold: f64) -> usize {
    (context_window as f64 * threshold) as usize
}

#[test]
fn test_noop_does_nothing() {
    let strategy = NoopContextStrategy;
    let mut messages = vec![
        make_msg(MessageRole::System, "sys"),
        make_msg(MessageRole::User, &"x".repeat(10000)),
    ];
    let original_len = messages.len();
    let mut state = AgentState::new(ModelTier::Small, 4096);

    strategy.prepare(&mut messages, 100, &mut state);

    assert_eq!(messages.len(), original_len);
    assert!(!state.last_output_truncated);
}

#[test]
fn test_sliding_window_removes_old_messages() {
    let mut messages = vec![
        make_msg(MessageRole::System, "system prompt"),
        make_msg(MessageRole::User, &"a".repeat(4000)),
        make_msg(MessageRole::Assistant, &"b".repeat(4000)),
        make_msg(MessageRole::User, &"c".repeat(4000)),
    ];
    let mut state = AgentState::new(ModelTier::Small, 4096);

    slide_window(&mut messages, limit(2000, 0.85), &mut state);

    assert!(messages.len() < 4, "should have removed some messages");
    assert_eq!(messages[0].role, MessageRole::System);
    assert!(state.last_output_truncated);
}

#[test]
fn test_sliding_window_preserves_system_messages() {
    let mut messages = vec![
        make_msg(MessageRole::System, &"s".repeat(400)),
        make_msg(MessageRole::User, "hi"),
    ];
    let mut state = AgentState::new(ModelTier::Small, 4096);

    slide_window(&mut messages, limit(10000, 0.85), &mut state);

    assert_eq!(messages.len(), 2);
    assert!(!state.last_output_truncated);
}

#[test]
fn test_agent_state_flag_set_on_truncation() {
    let mut messages = vec![
        make_msg(MessageRole::System, "sys"),
        make_msg(MessageRole::User, &"x".repeat(8000)),
        make_msg(MessageRole::Assistant, &"y".repeat(8000)),
    ];
    let mut state = AgentState::new(ModelTier::Small, 4096);

    slide_window(&mut messages, limit(1000, 0.5), &mut state);

    assert!(state.last_output_truncated);
}

#[test]
fn sliding_window_removes_oldest_first_and_stops_when_it_fits() {
    // costs: 1 + 101 + 101 + 101 = 304; limit 210 → drop the two oldest
    let mut messages = vec![
        make_msg(MessageRole::System, "s"),
        make_msg(MessageRole::User, &"a".repeat(400)),
        make_msg(MessageRole::Assistant, &"b".repeat(400)),
        make_msg(MessageRole::User, &"c".repeat(400)),
    ];
    let mut state = AgentState::new(ModelTier::Small, 4096);
    slide_window(&mut messages, 150, &mut state);
    assert_eq!(messages.len(), 2);
    assert_eq!(messages[0].content, "s");
    assert_eq!(messages[1].content, "c".repeat(400));
}

#[test]
fn sliding_window_keeps_a_lone_message() {
    let mut messages = vec![make_msg(MessageRole::User, &"x".repeat(4000))];
    let mut state = AgentState::new(ModelTier::Small, 4096);
    slide_window(&mut messages, 1, &mut state);
    assert_eq!(messages.len(), 1);
    assert!(!state.last_output_truncated);
}

#[test]
fn test_rule_compressor_no_pruning_under_threshold() {
    let mut msgs = vec![make_msg(MessageRole::System, "system"), make_msg(MessageRole::User, "hello")];
    let mut state = AgentState::new(ModelTier::Medium, 128_000);
    rule_based_prune(&mut msgs, limit(100_000, 0.85), 3, &mut state);
    assert_eq!(msgs.len(), 2);
    assert!(!state.last_output_truncated);
}

#[test]
fn test_rule_compressor_removes_lowest_scored() {
    let mut msgs = vec![
        make_msg(MessageRole::System, "system"),
        make_msg(MessageRole::User, &"old1 ".repeat(500)),
        make_msg(MessageRole::Assistant, &"old2 ".repeat(500)),
        tool_msg(&"tool ".repeat(500)),
        make_msg(MessageRole::User, &"recent ".repeat(500)),
    ];
    let mut state = AgentState::new(ModelTier::Medium, 128_000);
    rule_based_prune(&mut msgs, limit(800, 0.85), 1, &mut state);
    assert_eq!(msgs[0].role, MessageRole::System);
    assert!(msgs.len() < 5, "should have removed some messages");
    assert!(state.last_output_truncated);
}

#[test]
fn test_rule_compressor_never_removes_system() {
    let mut msgs = vec![make_msg(MessageRole::System, &"sys ".repeat(1000)), make_msg(MessageRole::User, "tiny")];
    let mut state = AgentState::new(ModelTier::Medium, 128_000);
    rule_based_prune(&mut msgs, limit(100, 0.5), 0, &mut state);
    assert!(msgs.iter().any(|m| m.role == MessageRole::System));
}

#[test]
fn test_rule_compressor_updates_state() {
    let mut msgs = vec![
        make_msg(MessageRole::System, "sys"),
        make_msg(MessageRole::User, &"x".repeat(4000)),
        make_msg(MessageRole::Assistant, &"y".repeat(4000)),
    ];
    let mut state = AgentState::new(ModelTier::Medium, 128_000);
    rule_based_prune(&mut msgs, limit(1000, 0.5), 0, &mut state);
    assert!(state.last_output_truncated);
}

#[test]
fn rule_compressor_removes_older_chat_before_tool_results_before_recent() {
    // costs (bytes/4 + 1): sys 1, u1 101, tool 101, a1 101, recent 101 = 405
    let mut msgs = vec![
        make_msg(MessageRole::System, "s"),
        make_msg(MessageRole::User, &"u".repeat(400)),
        tool_msg(&"t".repeat(400)),
        make_msg(MessageRole::Assistant, &"a".repeat(400)),
        make_msg(MessageRole::User, &"r".repeat(400)),
    ];
    let mut state = AgentState::new(ModelTier::Medium, 128_000);
    // 405 - 101 (u1) - 101 (a1) = 203 <= 210: the tool result and the recent message stay
    rule_based_prune(&mut msgs, 210, 1, &mut state);
    assert_eq!(msgs.len(), 3);
    assert_eq!(msgs[0].content, "s");
    assert_eq!(msgs[1].content, "t".repeat(400));
    assert_eq!(msgs[2].content, "r".repeat(400));
    assert!(state.last_output_truncated);
}

#[test]
fn rule_compressor_removes_recent_last() {
    let mut msgs = vec![
        make_msg(MessageRole::System, "s"),
        tool_msg(&"t".repeat(400)),
        make_msg(MessageRole::User, &"r".repeat(400)),
    ];
    let mut state = AgentState::new(ModelTier::Medium, 128_000);
    rule_based_prune(&mut msgs, 1, 1, &mut state);
    assert_eq!(msgs.len(), 1);
    assert_eq!(msgs[0].role, MessageRole::System);
}

#[test]
fn test_llm_compressor_summarizes_old_messages() {
    let mut msgs = vec![
        make_msg(MessageRole::System, "You are helpful"),
        make_msg(MessageRole::User, &"old question ".repeat(500)),
        make_msg(MessageRole::Assistant, &"old answer ".repeat(500)),
        make_msg(MessageRole::User, "recent question"),
        make_msg(MessageRole::Assistant, "recent answer"),
    ];
    let mut state = AgentState::new(ModelTier::Medium, 128_000);
    let text = summary_input(&msgs, limit(800, 0.80), 2).expect("compression is due");
    assert!(text.starts_with("User: old question"));
    assert!(text.contains("\nAssistant: old answer"));
    apply_summary(&mut msgs, 2, "User asked about Rust. Assistant explained traits.", &mut state);
    assert_eq!(msgs[0].role, MessageRole::System);
    assert!(msgs[1].content.contains("[Context Summary]"), "should have summary: {}", msgs[1].content);
    assert_eq!(msgs.len(), 4);
    assert!(state.last_output_truncated);
}

#[test]
fn test_llm_compressor_no_compression_under_threshold() {
    let msgs = vec![
        make_msg(MessageRole::System, "sys"),
        make_msg(MessageRole::User, "hi"),
        make_msg(MessageRole::Assistant, "hello"),
    ];
    assert!(summary_input(&msgs, limit(100_000, 0.80), 2).is_none());
}

#[test]
fn llm_compressor_skips_when_too_few_messages() {
    let msgs = vec![make_msg(MessageRole::System, "sys"), make_msg(MessageRole::User, &"x".repeat(8000))];
    assert!(summary_input(&msgs, 10, 1).is_none());
}

#[test]
fn test_llm_compressor_fallback_on_failure() {
    let mut msgs = vec![
        make_msg(MessageRole::System, "sys"),
        make_msg(MessageRole::User, &"old ".repeat(2000)),
        make_msg(MessageRole::Assistant, &"old ".repeat(2000)),
        make_msg(MessageRole::User, "recent"),
    ];
    let mut state = AgentState::new(ModelTier::Medium, 128_000);
    assert!(summary_input(&msgs, limit(500, 0.80), 1).is_some());
    let fallback = fallback_summary(2);
    assert_eq!(fallback, "2 earlier messages were removed to save context space.");
    apply_summary(&mut msgs, 1, &fallback, &mut state);
    assert!(msgs[1].content.contains("[Context Summary]"));
    assert!(msgs[1].content.contains("removed to save context"));
    assert_eq!(msgs[1].role, MessageRole::Assistant);
    assert_eq!(msgs[2].content, "recent");
    assert!(state.last_output_truncated);
}

#[test]
fn summary_keeps_all_system_messages_in_front() {
    let mut msgs = vec![
        make_msg(MessageRole::System, "a"),
        make_msg(MessageRole::User, "one"),
        make_msg(MessageRole::System, "b"),
        make_msg(MessageRole::User, "two"),
    ];
    let mut state = AgentState::new(ModelTier::Medium, 128_000);
    apply_summary(&mut msgs, 1, "S", &mut state);
    assert_eq!(msgs.len(), 4);
    assert_eq!(msgs[0].content, "a");
    assert_eq!(msgs[1].content, "b");
    assert_eq!(msgs[2].content, "[Context Summary] S");
    assert_eq!(msgs[3].content, "two");
}

struct Dummy;

impl ContextManager for Dummy {}

#[test]
fn test_default_estimate_tokens() {
    let cm = Dummy;
    let messages = vec![
        make_msg(MessageRole::User, &"a".repeat(400)),
        make_msg(MessageRole::Assistant, &"b".repeat(800)),
    ];
    assert_eq!(cm.estimate_tokens(&messages), 302, "4-chars ≈ 1-token: (400/4+1) + (800/4+1) = 302");
}

#[test]
fn rule_compressor_result_fits_or_only_system_remains() {
    let mut msgs = vec![
        make_msg(MessageRole::System, &"s".repeat(40)),
        make_msg(MessageRole::User, &"u".repeat(400)),
        tool_msg(&"t".repeat(400)),
        make_msg(MessageRole::Assistant, &"a".repeat(400)),
    ];
    let mut state = AgentState::new(ModelTier::Small, 4096);
    rule_based_prune(&mut msgs, 150, 1, &mut state);
    assert!(estimate_tokens(&msgs) <= 150);
    let mut msgs = vec![make_msg(MessageRole::System, &"s".repeat(400)), make_msg(MessageRole::User, "hi")];
    rule_based_prune(&mut msgs, 10, 3, &mut state);
    assert_eq!(msgs.len(), 1);
    assert_eq!(msgs[0].role, MessageRole::System);
}

#[test]
fn test_context_manager_is_object_safe() {
    let manager: std::sync::Arc<dyn ContextManager> = std::sync::Arc::new(Dummy);
    let messages = vec![make_msg(MessageRole::User, "abcd")];
    assert_eq!(manager.estimate_tokens(&messages), 2);
}

#[test]
fn test_rule_compressor_50_messages_within_budget() {
    let mut msgs = vec![make_msg(MessageRole::System, "You are a helpful assistant")];
    for i in 0..50 {
        let role = if i % 2 == 0 { MessageRole::User } else { MessageRole::Assistant };
        msgs.push(make_msg(role, &format!("Message number {i}: {}", "content ".repeat(100))));
    }
    let mut state = AgentState::new(ModelTier::Small, 4096);
    let window = 2000;
    let max = limit(window, 0.85);
    rule_based_prune(&mut msgs, max, 5, &mut state);
    let tokens: usize = msgs.iter().map(|m| m.content.len() / 4 + 1).sum();
    assert!(tokens <= max, "should be within budget: {tokens} <= {max}");
    assert_eq!(msgs[0].role, MessageRole::System);
    assert!(state.last_output_truncated);
}
