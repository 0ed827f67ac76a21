use traitclaw::agent_loop::{DefaultStrategy, FunctionCall, ToolCall, ToolOutcome, WireToolCall};
use traitclaw::message::{Message, MessageRole};
use traitclaw::streaming::{ForwardStep, StreamEvent, StreamForwarder};
use traitclaw::structured::StructuredRun;
use traitclaw::types::{AgentState, ModelTier, Usage};

fn call(id: &str, name: &str, args: &str) -> ToolCall {
    ToolCall { id: id.into(), name: name.into(), arguments: args.into() }
}

#[test]
fn load_context_prepends_system_prompt() {
    let msgs = DefaultStrategy::load_context(vec![], Some("You are a test bot"), "Hi");
    assert_eq!(msgs.len(), 2);
    assert_eq!(msgs[0].role, MessageRole::System);
    assert_eq!(msgs[0].content, "You are a test bot");
    assert_eq!(msgs[1].role, MessageRole::User);
    assert_eq!(msgs[1].content, "Hi");
}

#[test]
fn load_context_keeps_existing_system_message() {
    let history = vec![Message::system("old"), Message::user("before"), Message::assistant("answer")];
    let msgs = DefaultStrategy::load_context(history, Some("new"), "next");
    assert_eq!(msgs.len(), 4);
    assert_eq!(msgs[0].content, "old");
    assert_eq!(msgs[3].content, "next");
}

#[test]
fn load_context_without_prompt() {
    let history = vec![Message::user("before")];
    let msgs = DefaultStrategy::load_context(history, None, "next");
    assert_eq!(msgs.len(), 2);
    assert_eq!(msgs[0].content, "before");
}

#[test]
fn tool_round_records_summary_and_results() {
    let mut msgs = vec![Message::user("Use echo")];
    let calls = vec![call("call_1", "echo", "{\"text\":\"ping\"}"), call("call_2", "rm", "{}")];
    let outcomes = vec![
        ToolOutcome::Completed(vec![("call_1".to_string(), "{\"echo\":\"ping\"}".to_string())]),
        ToolOutcome::Blocked("Tool 'rm' is blocked".to_string()),
    ];
    DefaultStrategy::record_tool_round(&mut msgs, &calls, &outcomes);
    assert_eq!(msgs.len(), 4);
    assert_eq!(msgs[1].role, MessageRole::Assistant);
    assert_eq!(msgs[1].content, "[Tool calls: echo({\"text\":\"ping\"}), rm({})]");
    assert_eq!(msgs[2].role, MessageRole::Tool);
    assert_eq!(msgs[2].tool_call_id.as_deref(), Some("call_1"));
    assert_eq!(msgs[2].content, "{\"echo\":\"ping\"}");
    assert_eq!(msgs[3].tool_call_id.as_deref(), Some("call_2"));
    assert_eq!(msgs[3].content, "Tool 'rm' is blocked");
}

#[test]
fn empty_tool_round_adds_nothing() {
    let mut msgs = vec![Message::user("x")];
    DefaultStrategy::record_tool_round(&mut msgs, &[], &[]);
    assert_eq!(msgs.len(), 1);
}

#[test]
fn max_iterations_message_text() {
    let m = DefaultStrategy::max_iterations_message(3);
    assert_eq!(m, "Agent reached maximum iterations (3)");
    assert!(m.contains("maximum iterations"));
}

#[test]
fn usage_accumulates() {
    let mut state = AgentState::new(ModelTier::Small, 4096);
    DefaultStrategy::record_usage(&mut state, &Usage { prompt_tokens: 10, completion_tokens: 5, total_tokens: 15 });
    DefaultStrategy::record_usage(&mut state, &Usage { prompt_tokens: 20, completion_tokens: 5, total_tokens: 25 });
    assert_eq!(state.token_usage, 40);
    assert_eq!(state.total_context_tokens, 20);
}

#[test]
fn wire_tool_call_parses_arguments() {
    let wire = WireToolCall {
        id: "call_1".into(),
        type_: "function".into(),
        function: FunctionCall { name: "search".into(), arguments: "{\"q\": \"test\"}".into() },
    };
    let tc = ToolCall::from_wire(wire).expect("valid JSON");
    assert_eq!(tc.id, "call_1");
    assert_eq!(tc.name, "search");
    assert_eq!(tc.arguments, "{\"q\":\"test\"}");
    let bad = WireToolCall {
        id: "c".into(),
        type_: "function".into(),
        function: FunctionCall { name: "x".into(), arguments: "{not json".into() },
    };
    assert!(ToolCall::from_wire(bad).is_none());
}

#[test]
fn forwarder_accumulates_text_and_saves_on_done() {
    let mut f = StreamForwarder::new();
    assert!(matches!(f.on_event(StreamEvent::TextDelta("Saved ".into())), ForwardStep::Forward(StreamEvent::TextDelta(t)) if t == "Saved "));
    assert!(matches!(f.on_event(StreamEvent::TextDelta("text".into())), ForwardStep::Forward(_)));
    match f.on_event(StreamEvent::Done) {
        ForwardStep::Finish { save } => assert_eq!(save.as_deref(), Some("Saved text")),
        _ => panic!("expected finish"),
    }
}

#[test]
fn forwarder_reports_empty_stream() {
    let f = StreamForwarder::new();
    assert_eq!(f.on_end().as_deref(), Some("Stream ended without content"));
    let mut g = StreamForwarder::new();
    g.on_event(StreamEvent::ToolCallStart { id: "1".into(), name: "t".into() });
    assert!(g.on_end().is_none());
    match g.on_event(StreamEvent::Done) {
        ForwardStep::Finish { save } => assert!(save.is_none()),
        _ => panic!("expected finish"),
    }
}

#[test]
fn structured_run_feedback_and_limit() {
    let mut run = StructuredRun::start(Some("sys"), false, "{\"type\":\"object\"}", "give json");
    let first = run.next_attempt().expect("first attempt");
    assert_eq!(first.len(), 3);
    assert_eq!(first[0].content, "sys");
    assert!(first[1].content.starts_with("You MUST respond ONLY with valid JSON matching this schema:\n```json\n{\"type\":\"object\"}"));
    assert_eq!(first[2].content, "give json");
    run.on_invalid("not json", "expected value at line 1 column 1");
    let second = run.next_attempt().expect("second attempt");
    assert_eq!(second.len(), 5);
    assert_eq!(second[3].content, "not json");
    assert_eq!(
        second[4].content,
        "Your previous response was not valid JSON. Error: expected value at line 1 column 1\nPlease try again. Respond ONLY with valid JSON."
    );
    run.on_tool_calls();
    assert!(run.next_attempt().is_some());
    run.on_tool_calls();
    assert!(run.next_attempt().is_some());
    run.on_tool_calls();
    assert!(run.next_attempt().is_none());
    assert_eq!(
        run.failure(),
        "Structured output failed after 3 retries. Last error: Model returned tool calls instead of JSON"
    );
}

#[test]
fn structured_run_native_skips_schema_instruction() {
    let mut run = StructuredRun::start(None, true, "{}", "q");
    let msgs = run.next_attempt().unwrap();
    assert_eq!(msgs.len(), 1);
    assert_eq!(msgs[0].role, MessageRole::User);
}

#[test]
fn test_tool_call_creation() {
    let call = ToolCall { id: "call_123".into(), name: "web_search".into(), arguments: "{\"query\":\"rust\"}".into() };
    assert_eq!(call.name, "web_search");
    assert_eq!(call.id, "call_123");
}
