use traitclaw::message::{Message, MessageRole};
use traitclaw::token_counter::{select_encoding, TikTokenCounter, TokenEncoding};
use traitclaw::token_counting::{CharApproxCounter, TokenCounter};

fn user_msg(content: &str) -> Message {
    Message { role: MessageRole::User, content: content.to_string(), tool_call_id: None }
}

#[test]
fn test_for_model_gpt4o_valid() {
    let counter = TikTokenCounter::for_model("gpt-4o");
    assert_eq!(counter.model_name(), "gpt-4o");
    let n = counter.count_str("Hello!");
    assert!(n > 0, "Expected non-zero token count");
}

#[test]
fn test_for_model_gpt4_classic() {
    let counter = TikTokenCounter::for_model("gpt-4-turbo");
    assert!(counter.count_str("test") > 0);
}

#[test]
fn test_for_model_unknown_fallback() {
    let counter = TikTokenCounter::for_model("my-custom-model-v99");
    let n = counter.count_str("Hello, world!");
    assert!(n > 0, "Fallback should still count tokens");
}

#[test]
fn test_count_messages_nonzero() {
    let counter = TikTokenCounter::for_model("gpt-4o");
    let messages = vec![user_msg("Hello, my name is Alice."), user_msg("What is the capital of France?")];
    let count = counter.count_messages(&messages);
    assert!(count > 0, "Token count should be non-zero for non-empty messages");
}

#[test]
fn test_count_messages_exact_known_text() {
    let counter = TikTokenCounter::for_model("gpt-4");
    assert_eq!(counter.count_str("Hello world"), 2);
}

#[test]
fn test_accuracy_vs_char_approx() {
    let tiktoken = TikTokenCounter::for_model("gpt-4");
    let char_approx = CharApproxCounter::default();
    let samples: Vec<&str> = vec![
        "The quick brown fox jumps over the lazy dog.",
        "Artificial intelligence is transforming how we work.",
        "Rust is a systems programming language focused on safety.",
        "Hello, world! This is a test message.",
        "Machine learning models require large amounts of data.",
        "The weather today is sunny with a high of 75 degrees.",
        "Please summarize the following document for me.",
        "What are the key differences between Rust and Go?",
        "I need to schedule a meeting for next Tuesday at 2 PM.",
        "The annual report shows revenue growth of 15% year over year.",
        "Can you help me debug this code snippet please?",
        "The new framework makes it easy to build APIs.",
        "Please translate this text into Spanish.",
        "How do I implement a binary search tree in Rust?",
        "The project deadline is approaching fast.",
        "We need to improve our test coverage to at least 80%.",
        "The database query is running too slowly.",
        "Can you recommend a good book on distributed systems?",
        "The API rate limit has been exceeded.",
        "Please review the pull request when you get a chance.",
    ];
    let all_samples: Vec<&str> = samples.iter().cycle().take(100).copied().collect();
    let total_tiktoken: usize = all_samples.iter().map(|s| tiktoken.count_str(s)).sum();
    let total_char_approx: usize = all_samples.iter().map(|s| char_approx.count_str(s)).sum();
    let error = (total_tiktoken as f64 - total_char_approx as f64).abs() / total_tiktoken as f64;
    assert!(error < 0.50, "Error rate {:.1}% should be within 50%", error * 100.0);
    assert!(total_tiktoken > 0);
    assert!(total_char_approx > 0);
}

#[test]
fn test_token_counter_trait_object() {
    let counter = TikTokenCounter::for_model("gpt-4o");
    let tc: &dyn TokenCounter = &counter;
    let messages = vec![user_msg("Test message")];
    assert!(tc.count_messages(&messages) > 0);
    assert!(tc.count_str("test") > 0);
}

#[test]
fn test_estimate_for_model_helper() {
    let messages = vec![user_msg("What is Rust?")];
    let count = TikTokenCounter::estimate_for_model(&messages, "gpt-4");
    assert!(count > 0);
}

#[test]
fn encoding_selection_by_prefix() {
    assert_eq!(select_encoding("gpt-4o-mini"), TokenEncoding::O200kBase);
    assert_eq!(select_encoding("o3-mini"), TokenEncoding::O200kBase);
    assert_eq!(select_encoding("gpt-4-turbo"), TokenEncoding::Cl100kBase);
    assert_eq!(select_encoding("text-embedding-3-small"), TokenEncoding::Cl100kBase);
    assert_eq!(select_encoding("llama-3"), TokenEncoding::Fallback);
}

#[test]
fn chat_count_adds_framing() {
    let counter = TikTokenCounter::for_model("gpt-4");
    let m = user_msg("Hello world");
    let expected = counter.count_str("user") + counter.count_str("Hello world") + 4 + 3;
    assert_eq!(counter.count_messages(&[m]), expected);
    assert_eq!(counter.count_messages(&[]), 3);
    assert_eq!(TikTokenCounter::checked_estimate_for_model(&[], "gpt-4"), Some(3));
}

#[test]
fn checked_count_str_counts_ordinary_text() {
    let counter = TikTokenCounter::for_model("gpt-4");
    assert_eq!(counter.checked_count_str("Hello world"), Some(2));
    assert_eq!(counter.checked_count_str(""), Some(0));
}
