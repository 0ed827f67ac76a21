//! Decision logic of the default agent loop.
//!
//! The loop alternates outside work (memory, hooks, the provider, tools)
//! with decisions. The decisions live here as functions from the current
//! messages and state to the next ones; the driver performs the outside work
//! and hands the results back.

use vstd::prelude::*;
use std::time::Duration;
use crate::message::{Message, MessageRole, MessageView, mview, mviews, lemma_mviews_push};
use crate::types::{AgentState, Usage};
use crate::text::{decimal, push_decimal, push_str};
use crate::time::{duration_nanos, zero_duration};

verus! {

// ---------------------------------------------------------------------------
// Data
// ---------------------------------------------------------------------------

/// Usage statistics of an agent run.
#[derive(Debug, Clone, Copy)]
pub struct RunUsage {
    /// Total tokens consumed across all LLM calls.
    pub tokens: usize,
    /// Number of loop iterations.
    pub iterations: usize,
    /// Wall-clock duration of the run.
    pub duration: Duration,
}

impl Default for RunUsage {
    fn default() -> (r: RunUsage)
        ensures
            r.tokens == 0,
            r.iterations == 0,
            duration_nanos(r.duration) == 0,
    {
        RunUsage { tokens: 0, iterations: 0, duration: zero_duration() }
    }
}

/// A tool call requested by the model; `arguments` is its JSON text.
#[derive(Debug)]
pub struct ToolCall {
    /// Id assigned by the model.
    pub id: String,
    /// Name of the tool.
    pub name: String,
    /// Arguments as compact JSON text.
    pub arguments: String,
}

/// The function part of a wire-format tool call.
#[derive(Debug)]
pub struct FunctionCall {
    /// Name of the function.
    pub name: String,
    /// Arguments as JSON-encoded text.
    pub arguments: String,
}

/// A tool call in the provider wire format.
#[derive(Debug)]
pub struct WireToolCall {
    /// Unique identifier.
    pub id: String,
    /// Always `"function"` in current providers.
    pub type_: String,
    /// The function call details.
    pub function: FunctionCall,
}

/// The content of a completion: text or tool calls.
#[derive(Debug)]
pub enum ResponseContent {
    /// Tool calls requested by the model.
    ToolCalls(Vec<ToolCall>),
    /// A text answer.
    Text(String),
}

/// A completion returned by the model.
#[derive(Debug)]
pub struct CompletionResponse {
    /// Text or tool calls.
    pub content: ResponseContent,
    /// Token usage.
    pub usage: Usage,
}

/// What became of one tool call.
#[derive(Debug)]
pub enum ToolOutcome {
    /// A hook blocked the call with this reason.
    Blocked(String),
    /// The call ran; each result is a call id and its processed output.
    Completed(Vec<(String, String)>),
}

// ---------------------------------------------------------------------------
// Specifications
// ---------------------------------------------------------------------------

/// The view of a message with no call id.
pub open spec fn plain(role: MessageRole, content: Seq<char>) -> MessageView {
    (role, content, None)
}

/// The view of a tool-result message.
pub open spec fn tool_result_view(id: Seq<char>, content: Seq<char>) -> MessageView {
    (MessageRole::Tool, content, Some(id))
}

/// The conversation sent to the model at the start of a run: the stored
/// history, preceded by the system prompt unless the history already starts
/// with a system message, then the user input.
pub open spec fn context_views(
    history: Seq<Message>,
    system_prompt: Option<Seq<char>>,
    input: Seq<char>,
) -> Seq<MessageView> {
    let h = mviews(history);
    let with_system = match system_prompt {
        Some(p) => if history.len() == 0 || history[0].role != MessageRole::System {
            seq![plain(MessageRole::System, p)] + h
        } else {
            h
        },
        None => h,
    };
    with_system.push(plain(MessageRole::User, input))
}

/// The conversation of a run ends with the user input and contains the
/// whole history in order. With a system prompt it always starts with a
/// system message: when the history does not already start with one, the
/// prompt comes first, before the whole history; otherwise the history is
/// taken as it is.
pub proof fn law_context_prompt_first(history: Seq<Message>, system_prompt: Option<Seq<char>>, input: Seq<char>)
    ensures
        ({
            let c = context_views(history, system_prompt, input);
            &&& c.len() >= 1
            &&& c[c.len() - 1] == (MessageRole::User, input, None::<Seq<char>>)
            &&& system_prompt is Some ==> c[0].0 == MessageRole::System
            &&& (system_prompt is Some && (history.len() == 0 || history[0].role != MessageRole::System)) ==> {
                &&& c.len() == history.len() + 2
                &&& c[0] == (MessageRole::System, system_prompt.unwrap(), None::<Seq<char>>)
                &&& c.subrange(1, c.len() - 1) == mviews(history)
            }
            &&& !(system_prompt is Some && (history.len() == 0 || history[0].role != MessageRole::System)) ==> {
                &&& c.len() == history.len() + 1
                &&& c.subrange(0, c.len() - 1) == mviews(history)
            }
        }),
{
    let c = context_views(history, system_prompt, input);
    let h = mviews(history);
    match system_prompt {
        Some(p) => {
            if history.len() == 0 || history[0].role != MessageRole::System {
                assert(c.subrange(1, c.len() - 1) =~= h);
            } else {
                assert(c.subrange(0, c.len() - 1) =~= h);
                assert(c[0] == h[0]);
            }
        },
        None => {
            assert(c.subrange(0, c.len() - 1) =~= h);
        },
    }
}

/// `"{name}({arguments})"`.
pub open spec fn call_text(c: ToolCall) -> Seq<char> {
    c.name@ + "("@ + c.arguments@ + ")"@
}

/// The calls' texts joined with `", "`.
pub open spec fn calls_text(cs: Seq<ToolCall>) -> Seq<char>
    decreases cs.len(),
{
    if cs.len() == 0 {
        Seq::empty()
    } else if cs.len() == 1 {
        call_text(cs[0])
    } else {
        calls_text(cs.drop_last()) + ", "@ + call_text(cs.last())
    }
}

/// The messages that record one outcome.
pub open spec fn outcome_views(call: ToolCall, outcome: ToolOutcome) -> Seq<MessageView> {
    match outcome {
        ToolOutcome::Blocked(reason) => seq![tool_result_view(call.id@, reason@)],
        ToolOutcome::Completed(results) => results@.map_values(
            |r: (String, String)| tool_result_view(r.0@, r.1@),
        ),
    }
}

/// The messages recording the outcomes of `calls[..n]`, in order.
pub open spec fn outcomes_views(calls: Seq<ToolCall>, outcomes: Seq<ToolOutcome>, n: nat) -> Seq<MessageView>
    decreases n,
{
    if n == 0 {
        Seq::empty()
    } else {
        outcomes_views(calls, outcomes, (n - 1) as nat) + outcome_views(calls[n - 1], outcomes[n - 1])
    }
}

/// The messages a round of tool calls adds: nothing for no calls; else an
/// assistant message `"[Tool calls: {name}({arguments}), ...]"`, then for each
/// call either its blocking reason or its results, as tool results.
pub open spec fn round_views(calls: Seq<ToolCall>, outcomes: Seq<ToolOutcome>) -> Seq<MessageView> {
    if calls.len() == 0 {
        Seq::empty()
    } else {
        seq![plain(MessageRole::Assistant, "[Tool calls: "@ + calls_text(calls) + "]"@)]
            + outcomes_views(calls, outcomes, calls.len())
    }
}

/// The error text once the loop has run `max` iterations without an answer.
pub open spec fn max_iterations_text(max: nat) -> Seq<char> {
    "Agent reached maximum iterations ("@ + decimal(max) + ")"@
}

// ---------------------------------------------------------------------------
// The default strategy
// ---------------------------------------------------------------------------

/// The standard agent loop: load context, then call the model, run the
/// requested tools and repeat until the model answers with text or the
/// iteration limit is reached.
pub struct DefaultStrategy;

impl DefaultStrategy {
    /// The conversation for a new run: `history`, the system prompt in front
    /// unless the history already starts with a system message, and the user
    /// input at the end.
    pub fn load_context(history: Vec<Message>, system_prompt: Option<&str>, input: &str) -> (r: Vec<Message>)
        ensures
            mviews(r@) == context_views(history@, match system_prompt { Some(p) => Some(p@), None => None }, input@),
    {
        let mut messages = history;
        let ghost h = messages@;
        match system_prompt {
            Some(p) => {
                if messages.len() == 0 || messages[0].role != MessageRole::System {
                    messages.insert(0, Message::system(p));
                    proof {
                        assert(mviews(messages@) =~= seq![plain(MessageRole::System, p@)] + mviews(h));
                    }
                }
            },
            None => {},
        }
        let ghost before = messages@;
        let user = Message::user(input);
        messages.push(user);
        proof {
            lemma_mviews_push(before, user);
        }
        messages
    }

    /// Record token usage of a completion: add its total to the run's usage
    /// and remember its prompt size.
    pub fn record_usage(state: &mut AgentState, usage: &Usage)
        requires
            old(state).token_usage + usage.total_tokens <= usize::MAX,
        ensures
            *final(state) == (AgentState {
                token_usage: (old(state).token_usage + usage.total_tokens) as usize,
                total_context_tokens: usage.prompt_tokens,
                ..*old(state)
            }),
    {
        state.token_usage = state.token_usage + usage.total_tokens;
        state.total_context_tokens = usage.prompt_tokens;
    }

    /// Record a round of tool calls and their outcomes.
    pub fn record_tool_round(messages: &mut Vec<Message>, calls: &[ToolCall], outcomes: &[ToolOutcome])
        requires
            calls@.len() == outcomes@.len(),
        ensures
            mviews(final(messages)@) == mviews(old(messages)@) + round_views(calls@, outcomes@),
    {
        if calls.len() == 0 {
            proof {
                assert(mviews(messages@) + Seq::<MessageView>::empty() =~= mviews(messages@));
            }
            return;
        }
        let mut text = String::new();
        push_str(&mut text, "[Tool calls: ");
        let mut i: usize = 0;
        while i < calls.len()
            invariant
                0 < calls@.len(),
                i <= calls@.len(),
                text@ == "[Tool calls: "@ + calls_text(calls@.take(i as int)),
            decreases calls@.len() - i,
        {
            let ghost before = text@;
            if i > 0 {
                push_str(&mut text, ", ");
            }
            push_str(&mut text, calls[i].name.as_str());
            push_str(&mut text, "(");
            push_str(&mut text, calls[i].arguments.as_str());
            push_str(&mut text, ")");
            proof {
                let t = calls@.take(i as int + 1);
                assert(t.drop_last() =~= calls@.take(i as int));
                assert(t.last() == calls@[i as int]);
                if i == 0 {
                    assert(calls_text(calls@.take(0)) =~= Seq::<char>::empty());
                    assert(t.len() == 1 && t[0] == calls@[0]);
                    assert(text@ =~= "[Tool calls: "@ + call_text(calls@[0]));
                } else {
                    assert(text@ =~= "[Tool calls: "@ + (calls_text(calls@.take(i as int)) + ", "@ + call_text(calls@[i as int])));
                }
            }
            i = i + 1;
        }
        push_str(&mut text, "]");
        proof {
            assert(calls@.take(calls@.len() as int) =~= calls@);
        }
        let ghost start = mviews(messages@);
        let summary = Message { role: MessageRole::Assistant, content: text, tool_call_id: None };
        let ghost before = messages@;
        messages.push(summary);
        proof {
            lemma_mviews_push(before, summary);
        }
        let ghost head = mviews(messages@);
        let mut k: usize = 0;
        while k < calls.len()
            invariant
                k <= calls@.len() == outcomes@.len(),
                mviews(messages@) == head + outcomes_views(calls@, outcomes@, k as nat),
            decreases calls@.len() - k,
        {
            let ghost mid = mviews(messages@);
            match &outcomes[k] {
                ToolOutcome::Blocked(reason) => {
                    let ghost b = messages@;
                    let m = Message::tool_result(calls[k].id.as_str(), reason.as_str());
                    messages.push(m);
                    proof {
                        lemma_mviews_push(b, m);
                        assert(outcome_views(calls@[k as int], outcomes@[k as int]) =~= seq![mview(m)]);
                    }
                },
                ToolOutcome::Completed(results) => {
                    let mut j: usize = 0;
                    while j < results.len()
                        invariant
                            j <= results@.len(),
                            outcomes@[k as int] == ToolOutcome::Completed(*results),
                            mviews(messages@) == mid + results@.take(j as int).map_values(
                                |r: (String, String)| tool_result_view(r.0@, r.1@),
                            ),
                        decreases results@.len() - j,
                    {
                        let ghost b = messages@;
                        let m = Message::tool_result(results[j].0.as_str(), results[j].1.as_str());
                        messages.push(m);
                        proof {
                            lemma_mviews_push(b, m);
                            let f = |r: (String, String)| tool_result_view(r.0@, r.1@);
                            assert(results@.take(j as int + 1).map_values(f)
                                =~= results@.take(j as int).map_values(f).push(f(results@[j as int])));
                        }
                        j = j + 1;
                    }
                    proof {
                        assert(results@.take(results@.len() as int) =~= results@);
                    }
                },
            }
            proof {
                assert(mviews(messages@) =~= head + outcomes_views(calls@, outcomes@, k as nat + 1));
            }
            k = k + 1;
        }
        proof {
            assert(mviews(messages@) =~= start + round_views(calls@, outcomes@));
        }
    }

    /// The error text once `max_iterations` iterations ran without an answer:
    /// `"Agent reached maximum iterations ({max_iterations})"`.
    pub fn max_iterations_message(max_iterations: u32) -> (r: String)
        ensures
            r@ == max_iterations_text(max_iterations as nat),
    {
        let mut s = String::new();
        push_str(&mut s, "Agent reached maximum iterations (");
        push_decimal(&mut s, max_iterations as u128);
        push_str(&mut s, ")");
        s
    }
}

// ---------------------------------------------------------------------------
// The loop itself
// ---------------------------------------------------------------------------

/// What the loop does after a model response.
#[derive(Debug)]
pub enum LoopStep {
    /// The model answered with text: the run ends with it, after
    /// `iterations` model calls that used `tokens` tokens in all.
    Finish {
        /// The answer.
        text: String,
        /// Model calls made.
        iterations: usize,
        /// Tokens used.
        tokens: usize,
    },
    /// The model asked for tools: run them, record the round and call the
    /// model again if the limit allows.
    RunTools(Vec<ToolCall>),
}

/// Progress of one run of the default loop: model calls made and tokens
/// used, against the iteration limit.
#[derive(Debug, Clone, Copy)]
pub struct RunState {
    /// Model calls made so far.
    pub iterations: usize,
    /// Tokens used so far.
    pub tokens: usize,
    /// The iteration limit.
    pub max_iterations: u32,
}

impl RunState {
    /// A run that has not called the model yet.
    pub fn new(max_iterations: u32) -> (r: RunState)
        ensures
            r.iterations == 0,
            r.tokens == 0,
            r.max_iterations == max_iterations,
    {
        RunState { iterations: 0, tokens: 0, max_iterations }
    }

    /// Whether the model may be called again.
    pub fn may_call(&self) -> (r: bool)
        ensures
            r <==> self.iterations < self.max_iterations,
    {
        self.iterations < self.max_iterations as usize
    }

    /// Account for a model response and decide what follows: one more
    /// iteration, its tokens added; a text answer finishes the run, tool
    /// calls are to be run.
    pub fn on_response(&mut self, content: ResponseContent, usage: &Usage) -> (r: LoopStep)
        requires
            old(self).iterations < usize::MAX,
            old(self).tokens + usage.total_tokens <= usize::MAX,
        ensures
            final(self).iterations == old(self).iterations + 1,
            final(self).tokens == old(self).tokens + usage.total_tokens,
            final(self).max_iterations == old(self).max_iterations,
            match content {
                ResponseContent::Text(t) => r matches LoopStep::Finish { text, iterations, tokens }
                    && text == t && iterations == final(self).iterations && tokens == final(self).tokens,
                ResponseContent::ToolCalls(cs) => r matches LoopStep::RunTools(calls) && calls == cs,
            },
    {
        self.iterations = self.iterations + 1;
        self.tokens = self.tokens + usage.total_tokens;
        match content {
            ResponseContent::Text(text) => LoopStep::Finish { text, iterations: self.iterations, tokens: self.tokens },
            ResponseContent::ToolCalls(calls) => LoopStep::RunTools(calls),
        }
    }

    /// The error once the limit is reached without an answer.
    pub fn limit_error(&self) -> (r: String)
        ensures
            r@ == max_iterations_text(self.max_iterations as nat),
    {
        DefaultStrategy::max_iterations_message(self.max_iterations)
    }
}


/// The compact JSON text of the value that `text` parses to, or `None` if
/// `text` is not JSON.
pub uninterp spec fn json_canonical(text: Seq<char>) -> Option<Seq<char>>;

/// Parse JSON text with `serde_json::from_str` into a `serde_json::Value` and
/// print it back compactly with its `Display`.
#[verifier::external_body]
pub(crate) fn canonical_json(text: &str) -> (r: Option<String>)
    ensures
        match r {
            Some(s) => json_canonical(text@) == Some(s@),
            None => json_canonical(text@) is None,
        },
{
    match serde_json::from_str::<serde_json::Value>(text) {
        Ok(v) => Some(v.to_string()),
        Err(_) => None,
    }
}

impl ToolCall {
    /// The runtime form of a wire-format tool call, with its JSON-encoded
    /// arguments parsed (and kept as compact JSON text); `None` if the
    /// arguments are not valid JSON.
    pub fn from_wire(wire: WireToolCall) -> (r: Option<ToolCall>)
        ensures
            r is Some <==> json_canonical(wire.function.arguments@) is Some,
            r matches Some(c) ==> {
                &&& c.id@ == wire.id@
                &&& c.name@ == wire.function.name@
                &&& json_canonical(wire.function.arguments@) == Some(c.arguments@)
            },
    {
        match canonical_json(wire.function.arguments.as_str()) {
            Some(arguments) => Some(ToolCall { id: wire.id, name: wire.function.name, arguments }),
            None => None,
        }
    }
}
} // verus!
