//! Conversation messages exchanged between the agent and an LLM.

use vstd::prelude::*;
use vstd::utf8::encode_utf8;
use crate::text::str_eq;

verus! {

/// Role of a message in a conversation.
#[derive(Debug, Clone, Copy, PartialEq, Eq, Structural)]
pub enum MessageRole {
    /// System instructions.
    System,
    /// End-user input.
    User,
    /// Model output.
    Assistant,
    /// Result of a tool call.
    Tool,
}

/// A single chat message.
#[derive(Debug)]
pub struct Message {
    /// Who produced the message.
    pub role: MessageRole,
    /// Text content.
    pub content: String,
    /// Id of the tool call this message answers, if any.
    pub tool_call_id: Option<String>,
}

/// Length in bytes of the UTF-8 encoding of a character sequence
/// (what `str::len` returns).
pub open spec fn byte_len(s: Seq<char>) -> nat {
    encode_utf8(s).len()
}

/// Approximate token cost of one message: bytes / 4 + 1.
pub open spec fn approx_message_tokens(m: Message) -> nat {
    byte_len(m.content@) / 4 + 1
}

/// Sum of `approx_message_tokens` over a sequence of messages.
pub open spec fn approx_tokens(msgs: Seq<Message>) -> nat
    decreases msgs.len(),
{
    if msgs.len() == 0 {
        0
    } else {
        approx_tokens(msgs.drop_last()) + approx_message_tokens(msgs.last())
    }
}

impl Clone for Message {
    fn clone(&self) -> (r: Self)
        ensures
            r == *self,
    {
        let tool_call_id = match &self.tool_call_id {
            Some(id) => Some(id.clone()),
            None => None,
        };
        Message { role: self.role, content: self.content.clone(), tool_call_id }
    }
}

impl Message {
    /// A system message.
    pub fn system(content: &str) -> (r: Message)
        ensures
            r.role == MessageRole::System,
            r.content@ == content@,
            r.tool_call_id is None,
    {
        Message { role: MessageRole::System, content: content.to_owned(), tool_call_id: None }
    }

    /// A user message.
    pub fn user(content: &str) -> (r: Message)
        ensures
            r.role == MessageRole::User,
            r.content@ == content@,
            r.tool_call_id is None,
    {
        Message { role: MessageRole::User, content: content.to_owned(), tool_call_id: None }
    }

    /// An assistant message.
    pub fn assistant(content: &str) -> (r: Message)
        ensures
            r.role == MessageRole::Assistant,
            r.content@ == content@,
            r.tool_call_id is None,
    {
        Message { role: MessageRole::Assistant, content: content.to_owned(), tool_call_id: None }
    }

    /// A tool-result message answering the call `id`.
    pub fn tool_result(id: &str, content: &str) -> (r: Message)
        ensures
            r.role == MessageRole::Tool,
            r.content@ == content@,
            r.tool_call_id matches Some(t) && t@ == id@,
    {
        Message {
            role: MessageRole::Tool,
            content: content.to_owned(),
            tool_call_id: Some(id.to_owned()),
        }
    }
}

/// Every message's content is shorter than `usize::MAX` bytes
/// (always true of contents held in memory).
pub open spec fn contents_fit(msgs: Seq<Message>) -> bool {
    forall|k: int| 0 <= k < msgs.len() ==> byte_len(#[trigger] msgs[k].content@) < usize::MAX
}

/// Byte length of a message's content, as `str::len` counts it.
pub fn content_byte_len(m: &Message) -> (n: usize)
    requires
        byte_len(m.content@) < usize::MAX,
    ensures
        n == byte_len(m.content@),
{
    let n = m.content.as_str().len();
    n
}

/// Approximate token count of a message list: for each message,
/// its byte length divided by 4, plus one.
pub fn estimate_tokens(messages: &[Message]) -> (n: usize)
    requires
        approx_tokens(messages@) <= usize::MAX,
        contents_fit(messages@),
    ensures
        n == approx_tokens(messages@),
{
    let mut total: usize = 0;
    let mut i: usize = 0;
    while i < messages.len()
        invariant
            i <= messages@.len(),
            total == approx_tokens(messages@.take(i as int)),
            approx_tokens(messages@) <= usize::MAX,
            contents_fit(messages@),
        decreases messages@.len() - i,
    {
        let cost = content_byte_len(&messages[i]) / 4 + 1;
        proof {
            lemma_approx_tokens_prefix_mono(messages@, i as int + 1, messages@.len() as int);
            assert(messages@.take(i as int + 1).drop_last() =~= messages@.take(i as int));
            assert(messages@.take(messages@.len() as int) =~= messages@);
            assert(messages@.take(i as int + 1).last() == messages@[i as int]);
            assert(approx_tokens(messages@.take(i as int + 1)) == approx_tokens(messages@.take(i as int)) + approx_message_tokens(messages@[i as int]));
        }
        total = total + cost;
        i = i + 1;
    }
    proof {
        assert(messages@.take(messages@.len() as int) =~= messages@);
    }
    total
}

/// The approximate token count of a message list, or `None` when it does
/// not fit in a `usize`.
pub fn checked_estimate_tokens(messages: &[Message]) -> (r: Option<usize>)
    requires
        contents_fit(messages@),
    ensures
        match r {
            Some(n) => n == approx_tokens(messages@),
            None => approx_tokens(messages@) > usize::MAX,
        },
{
    let mut total: usize = 0;
    let mut i: usize = 0;
    while i < messages.len()
        invariant
            i <= messages@.len(),
            total == approx_tokens(messages@.take(i as int)),
            contents_fit(messages@),
        decreases messages@.len() - i,
    {
        let cost = content_byte_len(&messages[i]) / 4 + 1;
        proof {
            assert(messages@.take(i as int + 1).drop_last() =~= messages@.take(i as int));
            assert(messages@.take(i as int + 1).last() == messages@[i as int]);
        }
        match total.checked_add(cost) {
            Some(t) => {
                total = t;
            },
            None => {
                proof {
                    lemma_approx_tokens_prefix_mono(messages@, i as int + 1, messages@.len() as int);
                    assert(messages@.take(messages@.len() as int) =~= messages@);
                }
                return None;
            },
        }
        i = i + 1;
    }
    proof {
        assert(messages@.take(messages@.len() as int) =~= messages@);
    }
    Some(total)
}

/// Token estimates of prefixes grow with the prefix.
pub proof fn lemma_approx_tokens_prefix_mono(msgs: Seq<Message>, i: int, j: int)
    requires
        0 <= i <= j <= msgs.len(),
    ensures
        approx_tokens(msgs.take(i)) <= approx_tokens(msgs.take(j)),
    decreases j - i,
{
    if i < j {
        lemma_approx_tokens_prefix_mono(msgs, i, j - 1);
        assert(msgs.take(j).drop_last() =~= msgs.take(j - 1));
    }
}

/// Token estimate of a concatenation is the sum of the estimates.
pub proof fn lemma_approx_tokens_concat(a: Seq<Message>, b: Seq<Message>)
    ensures
        approx_tokens(a + b) == approx_tokens(a) + approx_tokens(b),
    decreases b.len(),
{
    if b.len() > 0 {
        lemma_approx_tokens_concat(a, b.drop_last());
        assert((a + b).drop_last() =~= a + b.drop_last());
    } else {
        assert(a + b =~= a);
    }
}


/// What a message says: its role, content and answered call id.
pub type MessageView = (MessageRole, Seq<char>, Option<Seq<char>>);

/// The view of a message.
pub open spec fn mview(m: Message) -> MessageView {
    (m.role, m.content@, match m.tool_call_id { Some(t) => Some(t@), None => None })
}

/// The views of a sequence of messages.
pub open spec fn mviews(s: Seq<Message>) -> Seq<MessageView> {
    s.map_values(|m: Message| mview(m))
}

pub proof fn lemma_mviews_push(s: Seq<Message>, m: Message)
    ensures
        mviews(s.push(m)) == mviews(s).push(mview(m)),
{
    assert(mviews(s.push(m)) =~= mviews(s).push(mview(m)));
}

/// The role of a message as stored: `"system"`, `"user"`, `"assistant"` or
/// `"tool"`.
pub open spec fn role_name(r: MessageRole) -> Seq<char> {
    match r {
        MessageRole::System => "system"@,
        MessageRole::User => "user"@,
        MessageRole::Assistant => "assistant"@,
        MessageRole::Tool => "tool"@,
    }
}

/// The stored name of a role.
pub fn role_to_str(role: &MessageRole) -> (s: &'static str)
    ensures
        s@ == role_name(*role),
{
    match role {
        MessageRole::System => "system",
        MessageRole::User => "user",
        MessageRole::Assistant => "assistant",
        MessageRole::Tool => "tool",
    }
}

/// The role a stored name denotes; anything unknown reads as a user message.
pub open spec fn role_of_name(s: Seq<char>) -> MessageRole {
    if s == "system"@ {
        MessageRole::System
    } else if s == "assistant"@ {
        MessageRole::Assistant
    } else if s == "tool"@ {
        MessageRole::Tool
    } else {
        MessageRole::User
    }
}

/// Parse a stored role name.
pub fn str_to_role(s: &str) -> (r: MessageRole)
    ensures
        r == role_of_name(s@),
{
    if str_eq(s, "system") {
        MessageRole::System
    } else if str_eq(s, "assistant") {
        MessageRole::Assistant
    } else if str_eq(s, "tool") {
        MessageRole::Tool
    } else {
        MessageRole::User
    }
}

/// Reading back a stored role name gives the role.
pub proof fn law_role_name_round_trip(r: MessageRole)
    ensures
        role_of_name(role_name(r)) == r,
{
    reveal_strlit("system");
    reveal_strlit("user");
    reveal_strlit("assistant");
    reveal_strlit("tool");
    assert("user"@.len() != "system"@.len());
    assert("assistant"@.len() != "system"@.len());
    assert("tool"@.len() != "system"@.len());
    assert("user"@.len() != "assistant"@.len());
    assert("tool"@.len() != "assistant"@.len());
    assert("user"@[0] != "tool"@[0]);
}

/// A copy of a message list.
pub fn clone_messages(s: &[Message]) -> (r: Vec<Message>)
    ensures
        r@ == s@,
{
    let mut out: Vec<Message> = Vec::new();
    let mut i: usize = 0;
    while i < s.len()
        invariant
            i <= s@.len(),
            out@ == s@.take(i as int),
        decreases s@.len() - i,
    {
        out.push(s[i].clone());
        proof {
            assert(s@.take(i as int + 1) =~= s@.take(i as int).push(s@[i as int]));
        }
        i = i + 1;
    }
    proof {
        assert(s@.take(s@.len() as int) =~= s@);
    }
    out
}
} // verus!
