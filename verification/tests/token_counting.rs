use traitclaw::message::{Message, MessageRole};
use traitclaw::token_counting::{CharApproxCounter, TokenCounter};

fn msg(content: &str) -> Message {
    Message { role: MessageRole::User, content: content.to_string(), tool_call_id: None }
}

#[test]
fn test_char_approx_default() {
    let counter = CharApproxCounter::default();
    assert_eq!(counter.count_str("Hello world!"), 4);
}

#[test]
fn test_char_approx_custom_ratio() {
    let counter = CharApproxCounter::new(2);
    assert_eq!(counter.count_str("Hello world!"), 7);
}

#[test]
fn test_char_approx_messages() {
    let counter = CharApproxCounter::default();
    let messages = vec![msg("aaaa"), msg("bbbbbbbb")];
    assert_eq!(counter.count(&messages), 5);
}

#[test]
fn test_char_approx_empty() {
    let counter = CharApproxCounter::default();
    assert_eq!(counter.count(&[]), 0);
    assert_eq!(counter.count_str(""), 1);
}

#[test]
fn test_char_approx_zero_ratio_clamped() {
    let counter = CharApproxCounter::new(0);
    assert_eq!(counter.count_str("abcd"), 5);
}

#[test]
fn test_token_counter_trait() {
    let counter = CharApproxCounter::default();
    let tc: &dyn TokenCounter = &counter;
    assert_eq!(tc.count_str("abcdefgh"), 3);
}

#[test]
fn test_char_approx_counts_bytes_not_chars() {
    // "é" is two bytes in UTF-8: 8 bytes / 4 + 1 = 3
    let counter = CharApproxCounter::default();
    assert_eq!(counter.count_str("éééé"), 3);
}

#[test]
fn counting_a_concatenation_sums_the_counts() {
    let c = CharApproxCounter::new(4);
    let a = vec![Message::user("aaaa"), Message::assistant("bbbbbbbb")];
    let b = vec![Message::system("hello world")];
    let ab: Vec<Message> = a.iter().cloned().chain(b.iter().cloned()).collect();
    assert_eq!(c.count(&a), 5);
    assert_eq!(c.count(&ab), c.count(&a) + c.count(&b));
    assert_eq!(c.count(&[]), 0);
}
