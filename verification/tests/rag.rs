use traitclaw::message::{Message, MessageRole};
use traitclaw::rag::{
    last_user_query, prepend_context, CitationStrategy, ContextWindowStrategy, Document, GroundingStrategy,
    PrependStrategy, RagContextManager,
};

#[test]
fn test_citation_strategy_format() {
    let docs = vec![Document::new("paper-42", "Important finding."), Document::new("blog-7", "Another insight.")];
    let ctx = CitationStrategy.ground(&docs);
    assert!(ctx.contains("[1]"));
    assert!(ctx.contains("Source: paper-42"));
    assert!(ctx.contains("[2]"));
    assert!(ctx.contains("Source: blog-7"));
}

#[test]
fn test_citation_strategy_empty() {
    assert!(CitationStrategy.ground(&[]).is_empty());
}

#[test]
fn test_context_window_small_docs_fit() {
    let docs = vec![Document::new("d1", "Short."), Document::new("d2", "Also short.")];
    let ctx = ContextWindowStrategy::new(1000).ground(&docs);
    assert!(ctx.contains("[1]"));
    assert!(ctx.contains("[2]"));
}

#[test]
fn test_context_window_truncates_large_doc() {
    let large = "word ".repeat(500);
    let docs = vec![Document::new("big", &large)];
    let strategy = ContextWindowStrategy::new(50);
    let ctx = strategy.ground(&docs);
    assert!(ctx.chars().count() < 500, "expected truncation, got {} chars", ctx.chars().count());
}

#[test]
fn test_context_window_empty_docs() {
    assert!(ContextWindowStrategy::new(100).ground(&[]).is_empty());
}

#[test]
fn citation_strategy_exact_text() {
    let docs = vec![Document::new("a", "One."), Document::new("b", "Two.")];
    assert_eq!(CitationStrategy.ground(&docs), "Context:\n\n[1] One. (Source: a)\n[2] Two. (Source: b)\n");
}

#[test]
fn prepend_strategy_numbers_documents() {
    let docs = vec![Document::new("a", "One."), Document::new("b", "Two.")];
    assert_eq!(PrependStrategy.ground(&docs), "[1] One.\n\n[2] Two.");
    assert_eq!(PrependStrategy.ground(&[]), "");
}

#[test]
fn context_window_exact_fit_and_cut() {
    // budget 80 bytes; header 10; "[1] aaaaaaaaaa\n\n" is 16 bytes
    let docs = vec![Document::new("d1", "aaaaaaaaaa"), Document::new("d2", &"b".repeat(100))];
    let ctx = ContextWindowStrategy::new(20).ground(&docs);
    // used = 26; available for the second = 80 - 26 - 10 = 44 characters
    assert_eq!(ctx, format!("Context:\n\n[1] aaaaaaaaaa\n\n[2] {}…\n\n", "b".repeat(44)));
}

#[test]
fn context_window_drops_entry_when_little_room() {
    // budget 40 bytes; entry of 60 bytes does not fit; available = 40 - 10 - 10 = 20, not above 20
    let docs = vec![Document::new("d1", &"x".repeat(54))];
    assert_eq!(ContextWindowStrategy::new(10).ground(&docs), "Context:\n\n");
}

#[test]
fn last_user_query_picks_latest_user_message() {
    let msgs = vec![
        Message { role: MessageRole::System, content: "sys".into(), tool_call_id: None },
        Message { role: MessageRole::User, content: "first".into(), tool_call_id: None },
        Message { role: MessageRole::Assistant, content: "reply".into(), tool_call_id: None },
        Message { role: MessageRole::User, content: "second".into(), tool_call_id: None },
        Message { role: MessageRole::Assistant, content: "reply".into(), tool_call_id: None },
    ];
    assert_eq!(last_user_query(&msgs), "second");
    assert_eq!(last_user_query(&msgs[..1]), "");
}

#[test]
fn prepend_context_inserts_system_message() {
    let mut msgs = vec![Message { role: MessageRole::User, content: "q".into(), tool_call_id: None }];
    prepend_context(&mut msgs, String::new());
    assert_eq!(msgs.len(), 1);
    prepend_context(&mut msgs, "ctx".to_string());
    assert_eq!(msgs.len(), 2);
    assert_eq!(msgs[0].role, MessageRole::System);
    assert_eq!(msgs[0].content, "ctx");
    assert_eq!(msgs[1].content, "q");
}

#[test]
fn rag_manager_configuration() {
    let m = RagContextManager::new("retriever");
    assert_eq!(m.max_docs(), 5);
    let m = m.with_max_docs(1).with_grounding(CitationStrategy);
    assert_eq!(m.max_docs(), 1);
    assert_eq!(*m.retriever(), "retriever");
    let docs = vec![Document::new("a", "A.")];
    assert!(m.grounding().ground(&docs).contains("Source: a"));
}

#[test]
fn context_window_never_exceeds_its_budget() {
    let doc = Document::new("d1", &"word ".repeat(100));
    assert_eq!(ContextWindowStrategy::new(1).ground(&[Document::new("d1", "x")]), "");
    assert_eq!(ContextWindowStrategy::new(2).ground(&[doc.clone()]), "");
    assert_eq!(ContextWindowStrategy::new(3).ground(&[doc.clone()]), "Context:\n\n");
    for tokens in 1..60 {
        let ctx = ContextWindowStrategy::new(tokens).ground(&[doc.clone(), doc.clone()]);
        assert!(ctx.chars().count() <= tokens * 4, "{tokens}: {ctx:?}");
    }
}
