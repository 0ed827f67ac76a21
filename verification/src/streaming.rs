//! Decision logic of the streaming agent loop: what to forward, when to
//! save the answer and when a stream has ended without content.

use vstd::prelude::*;
use crate::text::push_str;

verus! {

/// An event of a streamed completion.
#[derive(Debug)]
pub enum StreamEvent {
    /// A piece of answer text.
    TextDelta(String),
    /// The model starts a tool call.
    ToolCallStart {
        /// Call id.
        id: String,
        /// Tool name.
        name: String,
    },
    /// A piece of a tool call's arguments.
    ToolCallDelta {
        /// Call id.
        id: String,
        /// Next piece of the JSON arguments.
        arguments_delta: String,
    },
    /// The completion is finished.
    Done,
}

/// What to do with one event.
#[derive(Debug)]
pub enum ForwardStep {
    /// Send this event on to the consumer and go on.
    Forward(StreamEvent),
    /// The completion is finished: save the answer if there is one, send
    /// `Done` and stop.
    Finish {
        /// The accumulated answer text, if any.
        save: Option<String>,
    },
}

/// State of one streamed completion: the answer text so far and whether a
/// tool call was seen.
pub struct StreamForwarder {
    accumulated: String,
    has_tool_calls: bool,
}

impl StreamForwarder {
    /// Accumulated answer text.
    pub closed spec fn text(&self) -> Seq<char> {
        self.accumulated@
    }

    /// Whether a tool call has started.
    pub closed spec fn saw_tool_call(&self) -> bool {
        self.has_tool_calls
    }

    /// A forwarder for a new completion.
    pub fn new() -> (r: Self)
        ensures
            r.text() == Seq::<char>::empty(),
            !r.saw_tool_call(),
    {
        StreamForwarder { accumulated: String::new(), has_tool_calls: false }
    }

    /// Handle one event: text deltas are accumulated and forwarded, tool-call
    /// events are forwarded (a start is remembered), and `Done` finishes with
    /// the accumulated text to save unless it is empty.
    pub fn on_event(&mut self, event: StreamEvent) -> (r: ForwardStep)
        ensures
            match event {
                StreamEvent::TextDelta(d) => {
                    &&& final(self).text() == old(self).text() + d@
                    &&& final(self).saw_tool_call() == old(self).saw_tool_call()
                    &&& r matches ForwardStep::Forward(StreamEvent::TextDelta(e)) && e@ == d@
                },
                StreamEvent::ToolCallStart { id, name } => {
                    &&& final(self).text() == old(self).text()
                    &&& final(self).saw_tool_call()
                    &&& r matches ForwardStep::Forward(StreamEvent::ToolCallStart { id: i, name: n })
                        && i@ == id@ && n@ == name@
                },
                StreamEvent::ToolCallDelta { id, arguments_delta } => {
                    &&& final(self).text() == old(self).text()
                    &&& final(self).saw_tool_call() == old(self).saw_tool_call()
                    &&& r matches ForwardStep::Forward(StreamEvent::ToolCallDelta { id: i, arguments_delta: a })
                        && i@ == id@ && a@ == arguments_delta@
                },
                StreamEvent::Done => {
                    &&& final(self).text() == old(self).text()
                    &&& final(self).saw_tool_call() == old(self).saw_tool_call()
                    &&& r matches ForwardStep::Finish { save }
                    &&& (save is Some <==> old(self).text().len() > 0)
                    &&& (save matches Some(t) ==> t@ == old(self).text())
                },
            },
    {
        match event {
            StreamEvent::TextDelta(delta) => {
                push_str(&mut self.accumulated, delta.as_str());
                ForwardStep::Forward(StreamEvent::TextDelta(delta))
            },
            StreamEvent::ToolCallStart { id, name } => {
                self.has_tool_calls = true;
                ForwardStep::Forward(StreamEvent::ToolCallStart { id, name })
            },
            StreamEvent::ToolCallDelta { id, arguments_delta } => {
                ForwardStep::Forward(StreamEvent::ToolCallDelta { id, arguments_delta })
            },
            StreamEvent::Done => {
                if self.accumulated.as_str().is_empty() {
                    ForwardStep::Finish { save: None }
                } else {
                    ForwardStep::Finish { save: Some(self.accumulated.clone()) }
                }
            },
        }
    }

    /// When the stream ends without `Done`: the error to report if neither
    /// text nor a tool call arrived (`"Stream ended without content"`), or
    /// `None` to run another iteration for the tool calls.
    pub fn on_end(&self) -> (r: Option<String>)
        ensures
            r is Some <==> (!self.saw_tool_call() && self.text().len() == 0),
            r matches Some(e) ==> e@ == "Stream ended without content"@,
    {
        if !self.has_tool_calls && self.accumulated.as_str().is_empty() {
            Some("Stream ended without content".to_owned())
        } else {
            None
        }
    }
}

} // verus!
