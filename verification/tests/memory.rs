use traitclaw::memory::{InMemoryMemory, MemoryEntry};
use traitclaw::message::Message;

#[test]
fn test_append_and_get_messages() {
    let mut memory = InMemoryMemory::new();
    memory.append("session1", Message::user("Hello"));
    memory.append("session1", Message::assistant("Hi!"));
    let messages = memory.messages("session1");
    assert_eq!(messages.len(), 2);
    assert_eq!(messages[1].content, "Hi!");
}

#[test]
fn test_empty_session_returns_empty() {
    let memory = InMemoryMemory::new();
    assert!(memory.messages("nonexistent").is_empty());
}

#[test]
fn test_working_memory() {
    let mut memory = InMemoryMemory::new();
    memory.set_context("s1", "key1", "\"value1\"".to_string());
    assert_eq!(memory.get_context("s1", "key1").as_deref(), Some("\"value1\""));
    assert!(memory.get_context("s1", "missing").is_none());
    memory.set_context("s1", "key1", "2".to_string());
    memory.set_context("s2", "key1", "3".to_string());
    assert_eq!(memory.get_context("s1", "key1").as_deref(), Some("2"));
    assert_eq!(memory.get_context("s2", "key1").as_deref(), Some("3"));
}

#[test]
fn test_long_term_memory() {
    let mut memory = InMemoryMemory::new();
    memory.store(MemoryEntry::new("1", "Rust is great", 0));
    assert_eq!(memory.recall("Rust", 10).len(), 1);
    assert!(memory.recall("Python", 10).is_empty());
}

#[test]
fn recall_limits_and_keeps_order() {
    let mut memory = InMemoryMemory::new();
    memory.store(MemoryEntry::new("1", "Rust one", 0));
    memory.store(MemoryEntry::new("2", "Go", 0));
    memory.store(MemoryEntry::new("3", "Rust two", 0));
    memory.store(MemoryEntry::new("4", "Rust three", 0));
    let r = memory.recall("Rust", 2);
    assert_eq!(r.len(), 2);
    assert_eq!(r[0].id, "1");
    assert_eq!(r[1].id, "3");
    assert_eq!(memory.recall("", 10).len(), 4);
    assert!(memory.recall("Rust", 0).is_empty());
}

#[test]
fn test_session_isolation_ac1() {
    let mut memory = InMemoryMemory::new();
    memory.append("session-a", Message::user("Hello A"));
    memory.append("session-b", Message::user("Hello B"));
    let msgs_a = memory.messages("session-a");
    let msgs_b = memory.messages("session-b");
    assert_eq!(msgs_a.len(), 1);
    assert_eq!(msgs_b.len(), 1);
    assert_eq!(msgs_a[0].content, "Hello A");
    assert_eq!(msgs_b[0].content, "Hello B");
}

#[test]
fn test_session_lifecycle() {
    let mut memory = InMemoryMemory::new();
    let id = memory.create_session("5d1e2b7c-0000-4000-8000-000000000001");
    assert!(!id.is_empty());
    memory.append(&id, Message::user("hi"));
    let sessions = memory.list_sessions();
    assert!(sessions.contains(&id));
    memory.set_context(&id, "k", "1".to_string());
    memory.delete_session(&id);
    assert!(memory.messages(&id).is_empty());
    assert!(memory.get_context(&id, "k").is_none());
    assert!(!memory.list_sessions().contains(&id));
}

#[test]
fn created_session_is_listed_before_any_message() {
    let mut memory = InMemoryMemory::new();
    memory.create_session("a");
    memory.create_session("b");
    memory.create_session("a");
    assert_eq!(memory.list_sessions(), vec!["a".to_string(), "b".to_string()]);
    assert!(memory.messages("a").is_empty());
}

#[test]
fn test_in_memory_memory_default_ac5() {
    let _mem: InMemoryMemory = InMemoryMemory::default();
}
