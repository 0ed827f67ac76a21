use traitclaw::transformers::{
    budget_truncate, truncate_output, FullOutputRetriever, JsonExtractor, OutputTransformer,
    ProgressiveTransformer, SummaryReply, TransformerChain,
};
use traitclaw::types::{AgentState, ModelTier};

fn state() -> AgentState {
    AgentState::new(ModelTier::Medium, 1000)
}

#[test]
fn test_budget_truncator_under_limit() {
    assert_eq!(budget_truncate("short".to_string(), 100, false), "short");
}

#[test]
fn test_budget_truncator_over_limit() {
    let result = budget_truncate("a".repeat(100), 10, false);
    assert!(result.contains("[output truncated"));
    assert!(result.starts_with("aaaaaaaaaa"));
}

#[test]
fn test_budget_truncator_aggressive() {
    let result = budget_truncate("a".repeat(50), 20, true);
    assert!(result.contains("[output truncated"));
    let first_line: &str = result.lines().next().unwrap();
    assert_eq!(first_line.len(), 10);
}

#[test]
fn truncation_note_text() {
    assert_eq!(truncate_output("abcdef".to_string(), 3), "abc\n\n[output truncated from 6 to 3 chars]");
    // lengths and cuts are in characters
    assert_eq!(truncate_output("ééé".to_string(), 4), "ééé");
    assert_eq!(truncate_output("éééééé".to_string(), 4), "éééé\n\n[output truncated from 6 to 4 chars]");
    assert_eq!(budget_truncate("éééééé".to_string(), 10, false), "éééééé");
}

#[test]
fn test_json_extractor_object() {
    let result = JsonExtractor.transform("Here is the result: {\"key\": \"value\"} done.".to_string(), "test", &state());
    assert_eq!(result, "{\"key\": \"value\"}");
}

#[test]
fn test_json_extractor_array() {
    let result = JsonExtractor.transform("Output: [1, 2, 3] end".to_string(), "test", &state());
    assert_eq!(result, "[1, 2, 3]");
}

#[test]
fn test_json_extractor_no_json() {
    let result = JsonExtractor.transform("plain text".to_string(), "test", &state());
    assert_eq!(result, "plain text");
}

#[test]
fn json_extractor_needs_ordered_braces() {
    assert_eq!(JsonExtractor.transform("} then {".to_string(), "t", &state()), "} then {");
    assert_eq!(JsonExtractor.transform("a {x} b {y} c".to_string(), "t", &state()), "{x} b {y}");
}

struct Truncate5;

impl OutputTransformer for Truncate5 {
    fn transform(&self, output: String, _tool_name: &str, _state: &AgentState) -> String {
        budget_truncate(output, 5, false)
    }
}

#[test]
fn test_transformer_chain() {
    let chain = TransformerChain::new(vec![Box::new(JsonExtractor), Box::new(Truncate5)]);
    let result = chain.transform("Result: {\"key\": \"long_value_here\"}".to_string(), "test", &state());
    assert!(result.contains("[output truncated"));
    assert!(result.starts_with("{\"key"));
}

#[test]
fn test_default_estimate_output_tokens() {
    assert_eq!(JsonExtractor.estimate_output_tokens(&"a".repeat(400)), 101);
    assert_eq!(JsonExtractor.estimate_output_tokens(""), 1);
}

#[test]
fn test_progressive_short_output_passthrough() {
    let t = ProgressiveTransformer::new((), 500);
    assert!(t.passes_through("short output"));
}

#[test]
fn test_progressive_large_output_summarized() {
    let mut t = ProgressiveTransformer::new((), 50);
    let large_output = "x".repeat(500);
    assert!(!t.passes_through(&large_output));
    t.cache_output("search_tool", &large_output);
    let result = t.on_summary(&large_output, "search_tool", SummaryReply::Text("This is the summary.".into()));
    assert!(result.contains("This is the summary."));
    assert!(result.contains("__get_full_output"));
    assert!(result.contains("search_tool"));
    assert_eq!(
        result,
        "This is the summary.\n\n[Full output (500 chars) cached. Call __get_full_output with {\"tool_name\": \"search_tool\"} to retrieve it.]"
    );
    let retriever = t.retriever_tool();
    assert!(retriever.has_cached("search_tool"));
    assert_eq!(retriever.retrieve("search_tool"), large_output);
}

#[test]
fn test_progressive_llm_failure_fallback() {
    let t = ProgressiveTransformer::new((), 20);
    let large_output = "a".repeat(200);
    let result = t.on_summary(&large_output, "tool_x", SummaryReply::Failed);
    assert!(result.starts_with("aaaaaaaaaaaaaaaaaaaa"));
    assert!(result.contains("LLM summarization failed"));
    assert_eq!(result, format!("{}\n\n[output truncated from 200 chars — LLM summarization failed]", "a".repeat(20)));
}

#[test]
fn progressive_tool_calls_fallback() {
    let t = ProgressiveTransformer::new((), 3);
    assert_eq!(
        t.on_summary("abcdef", "t", SummaryReply::ToolCalls),
        "abc\n\n[output truncated from 6 chars — summarizer returned tool calls]"
    );
}

#[test]
fn test_full_output_retriever_not_found() {
    let t = ProgressiveTransformer::new((), 50);
    let retriever = t.retriever_tool();
    let result = retriever.retrieve("nonexistent_tool");
    assert!(result.contains("No cached output found"));
    assert_eq!(
        result,
        "[No cached output found for tool 'nonexistent_tool'. The output may have expired or the tool name is incorrect.]"
    );
}

#[test]
fn test_progressive_custom_prompt() {
    let t = ProgressiveTransformer::new((), 10).with_summary_prompt("Brief: {output}");
    assert_eq!(t.build_prompt("data"), "Brief: data");
}

#[test]
fn default_prompt_embeds_output() {
    let t = ProgressiveTransformer::new((), 10);
    let p = t.build_prompt("OUT");
    assert!(p.starts_with("Summarize the following tool output concisely"));
    assert!(p.ends_with(":\n\nOUT"));
}

#[test]
fn prompt_replaces_every_placeholder() {
    let t = ProgressiveTransformer::new((), 10).with_summary_prompt("{output}|{output}|{out}");
    assert_eq!(t.build_prompt("x"), "x|x|{out}");
}

#[test]
fn cache_keeps_latest_output_per_tool() {
    let mut r = FullOutputRetriever::new();
    r.store("a", "one");
    r.store("b", "two");
    r.store("a", "three");
    assert_eq!(r.retrieve("a"), "three");
    assert_eq!(r.retrieve("b"), "two");
    assert!(!r.has_cached("c"));
}

#[test]
fn transformer_serves_outputs_cached_after_earlier_lookups() {
    let mut t = ProgressiveTransformer::new((), 5);
    assert!(!t.retriever_tool().has_cached("search"));
    assert!(t.retriever_tool().retrieve("search").starts_with("[No cached output found for tool 'search'"));
    t.cache_output("search", "first full output");
    t.cache_output("search", "second full output");
    assert!(t.retriever_tool().has_cached("search"));
    assert_eq!(t.retriever_tool().retrieve("search"), "second full output");
}

#[test]
fn test_output_transformer_is_object_safe() {
    let transformer: std::sync::Arc<dyn OutputTransformer> = std::sync::Arc::new(Truncate5);
    assert_eq!(transformer.transform("abc".to_string(), "t", &state()), "abc");
}
