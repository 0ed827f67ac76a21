use traitclaw::message::{role_to_str, str_to_role, Message, MessageRole};

#[test]
fn role_names_round_trip() {
    for r in [MessageRole::System, MessageRole::User, MessageRole::Assistant, MessageRole::Tool] {
        assert_eq!(str_to_role(role_to_str(&r)), r);
    }
    assert_eq!(role_to_str(&MessageRole::Assistant), "assistant");
    assert_eq!(str_to_role("unknown"), MessageRole::User);
}

#[test]
fn tool_result_carries_call_id() {
    let m = Message::tool_result("call_1", "done");
    assert_eq!(m.role, MessageRole::Tool);
    assert_eq!(m.tool_call_id.as_deref(), Some("call_1"));
    assert_eq!(m.content, "done");
}
