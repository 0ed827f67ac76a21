//! Decision logic of structured output: the conversation sent to the model
//! and the feedback that follows each reply that is not valid JSON.

use vstd::prelude::*;
use crate::message::{Message, MessageRole, MessageView, mview, mviews, lemma_mviews_push, clone_messages};
use crate::agent_loop::plain;
use crate::text::push_str;

verus! {

/// How many times a failed reply is retried.
pub const MAX_RETRIES: u32 = 3;

/// The instruction that carries the JSON Schema when the model has no
/// native structured output.
pub open spec fn schema_instruction(schema: Seq<char>) -> Seq<char> {
    "You MUST respond ONLY with valid JSON matching this schema:\n```json\n"@ + schema
        + "\n```\nDo NOT include any text before or after the JSON."@
}

/// The feedback that precedes a retry.
pub open spec fn retry_feedback(error: Seq<char>) -> Seq<char> {
    "Your previous response was not valid JSON. Error: "@ + error
        + "\nPlease try again. Respond ONLY with valid JSON."@
}

/// The error once every attempt failed.
pub open spec fn failure_text(error: Seq<char>) -> Seq<char> {
    "Structured output failed after 3 retries. Last error: "@ + error
}

/// The first conversation: the system prompt if any, the schema
/// instruction unless the model supports structured output natively, and the
/// user input.
pub open spec fn initial_views(
    system_prompt: Option<Seq<char>>,
    uses_native: bool,
    schema: Seq<char>,
    input: Seq<char>,
) -> Seq<MessageView> {
    let a: Seq<MessageView> = match system_prompt {
        Some(p) => seq![plain(MessageRole::System, p)],
        None => Seq::empty(),
    };
    let b: Seq<MessageView> = if uses_native {
        Seq::empty()
    } else {
        seq![plain(MessageRole::System, schema_instruction(schema))]
    };
    a + b + seq![plain(MessageRole::User, input)]
}

/// A structured-output run: up to `1 + MAX_RETRIES` attempts, each one
/// after the first preceded by feedback about the previous reply.
pub struct StructuredRun {
    messages: Vec<Message>,
    attempts: u32,
    last_error: String,
}

impl StructuredRun {
    /// The conversation so far.
    pub closed spec fn conversation(&self) -> Seq<MessageView> {
        mviews(self.messages@)
    }

    /// Attempts started so far.
    pub closed spec fn attempts(&self) -> nat {
        self.attempts as nat
    }

    /// What went wrong with the last reply.
    pub closed spec fn last_error(&self) -> Seq<char> {
        self.last_error@
    }

    /// Start a run.
    pub fn start(system_prompt: Option<&str>, uses_native: bool, schema: &str, input: &str) -> (r: Self)
        ensures
            r.conversation() == initial_views(
                match system_prompt { Some(p) => Some(p@), None => None },
                uses_native,
                schema@,
                input@,
            ),
            r.attempts() == 0,
            r.last_error() == Seq::<char>::empty(),
    {
        let mut messages: Vec<Message> = Vec::new();
        match system_prompt {
            Some(p) => {
                messages.push(Message::system(p));
            },
            None => {},
        }
        let ghost a = mviews(messages@);
        if !uses_native {
            let mut text = String::new();
            push_str(&mut text, "You MUST respond ONLY with valid JSON matching this schema:\n```json\n");
            push_str(&mut text, schema);
            push_str(&mut text, "\n```\nDo NOT include any text before or after the JSON.");
            let ghost b = messages@;
            let m = Message { role: MessageRole::System, content: text, tool_call_id: None };
            messages.push(m);
            proof {
                lemma_mviews_push(b, m);
            }
        }
        let ghost b2 = messages@;
        let u = Message::user(input);
        messages.push(u);
        proof {
            lemma_mviews_push(b2, u);
            assert(mviews(messages@) =~= initial_views(
                match system_prompt { Some(p) => Some(p@), None => None },
                uses_native,
                schema@,
                input@,
            ));
        }
        StructuredRun { messages, attempts: 0, last_error: String::new() }
    }

    /// The conversation to send for the next attempt, or `None` once all
    /// attempts are spent. Every attempt after the first adds the retry
    /// feedback first.
    pub fn next_attempt(&mut self) -> (r: Option<Vec<Message>>)
        ensures
            r is Some <==> old(self).attempts() <= MAX_RETRIES,
            r is None ==> *final(self) == *old(self),
            r matches Some(msgs) ==> {
                &&& final(self).attempts() == old(self).attempts() + 1
                &&& final(self).last_error() == old(self).last_error()
                &&& final(self).conversation() == (if old(self).attempts() == 0 {
                    old(self).conversation()
                } else {
                    old(self).conversation().push(plain(MessageRole::System, retry_feedback(old(self).last_error())))
                })
                &&& mviews(msgs@) == final(self).conversation()
            },
    {
        if self.attempts > MAX_RETRIES {
            return None;
        }
        if self.attempts > 0 {
            let mut text = String::new();
            push_str(&mut text, "Your previous response was not valid JSON. Error: ");
            push_str(&mut text, self.last_error.as_str());
            push_str(&mut text, "\nPlease try again. Respond ONLY with valid JSON.");
            let ghost b = self.messages@;
            let m = Message { role: MessageRole::System, content: text, tool_call_id: None };
            self.messages.push(m);
            proof {
                lemma_mviews_push(b, m);
            }
        }
        self.attempts = self.attempts + 1;
        Some(clone_messages(self.messages.as_slice()))
    }

    /// The model answered with tool calls instead of JSON.
    pub fn on_tool_calls(&mut self)
        ensures
            final(self).attempts() == old(self).attempts(),
            final(self).last_error() == "Model returned tool calls instead of JSON"@,
            final(self).conversation() == old(self).conversation().push(
                plain(MessageRole::Assistant, "[tool calls returned]"@),
            ),
    {
        self.last_error = "Model returned tool calls instead of JSON".to_owned();
        let ghost b = self.messages@;
        let m = Message::assistant("[tool calls returned]");
        self.messages.push(m);
        proof {
            lemma_mviews_push(b, m);
        }
    }

    /// The model's reply `text` did not parse; `error` says why.
    pub fn on_invalid(&mut self, text: &str, error: &str)
        ensures
            final(self).attempts() == old(self).attempts(),
            final(self).last_error() == error@,
            final(self).conversation() == old(self).conversation().push(plain(MessageRole::Assistant, text@)),
    {
        self.last_error = error.to_owned();
        let ghost b = self.messages@;
        let m = Message::assistant(text);
        self.messages.push(m);
        proof {
            lemma_mviews_push(b, m);
        }
    }

    /// The error once every attempt failed.
    pub fn failure(&self) -> (r: String)
        ensures
            r@ == failure_text(self.last_error()),
    {
        let mut s = String::new();
        push_str(&mut s, "Structured output failed after 3 retries. Last error: ");
        push_str(&mut s, self.last_error.as_str());
        s
    }
}

} // verus!
