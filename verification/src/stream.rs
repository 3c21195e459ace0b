//! The events of a chat reply while it is being generated, and the frames sent for them.

use vstd::prelude::*;

verus! {

/// An event of a running chat reply.
pub enum ChatStreamEvent {
    /// The model is reasoning; with `reasoning`, a piece of the reasoning itself.
    Thinking { iteration: u32, reasoning: Option<String> },
    /// A piece of the answer.
    TextChunk { text: String },
    /// A tool call started.
    ToolStart { tool_name: String, iteration: u32 },
    /// A tool call ended.
    ToolResult { tool_name: String, result_preview: String, duration_ms: u64, success: bool },
    /// The reply is complete.
    Done { answer: String, iterations: u32, tokens_used: u64, cost: Cost },
    /// The reply failed.
    Error { message: String },
}

/// The bits of infinity as a double; every finite positive double has smaller bits, other
/// than zero.
pub const INFINITY_BITS: u64 = 0x7ff0_0000_0000_0000;

/// A cost in US dollars, as the bits of a double.
#[derive(Clone, Copy, PartialEq, Eq, Structural)]
pub struct Cost {
    pub bits: u64,
}

impl Cost {
    /// The cost, where it is finite and positive.
    pub open spec fn positive(self) -> Option<Cost> {
        if 0 < self.bits && self.bits < INFINITY_BITS {
            Some(self)
        } else {
            None
        }
    }

    /// The cost, where it is finite and positive.
    pub fn if_positive(self) -> (r: Option<Cost>)
        ensures
            r == self.positive(),
    {
        if 0 < self.bits && self.bits < INFINITY_BITS {
            Some(self)
        } else {
            None
        }
    }
}

impl ChatStreamEvent {
    /// The text that the event adds to the answer.
    pub open spec fn chunk(self) -> Seq<char> {
        match self {
            ChatStreamEvent::TextChunk { text } => text@,
            _ => Seq::empty(),
        }
    }

    /// An equal event.
    pub fn duplicate(&self) -> (r: Self)
        ensures
            r == *self,
    {
        match self {
            ChatStreamEvent::Thinking { iteration, reasoning } => {
                let copy: Option<String> = match reasoning {
                    Some(t) => Some(t.clone()),
                    None => None,
                };
                ChatStreamEvent::Thinking { iteration: *iteration, reasoning: copy }
            },
            ChatStreamEvent::TextChunk { text } => ChatStreamEvent::TextChunk {
                text: text.clone(),
            },
            ChatStreamEvent::ToolStart { tool_name, iteration } => ChatStreamEvent::ToolStart {
                tool_name: tool_name.clone(),
                iteration: *iteration,
            },
            ChatStreamEvent::ToolResult { tool_name, result_preview, duration_ms, success } =>
                ChatStreamEvent::ToolResult {
                tool_name: tool_name.clone(),
                result_preview: result_preview.clone(),
                duration_ms: *duration_ms,
                success: *success,
            },
            ChatStreamEvent::Done { answer, iterations, tokens_used, cost } =>
                ChatStreamEvent::Done {
                answer: answer.clone(),
                iterations: *iterations,
                tokens_used: *tokens_used,
                cost: *cost,
            },
            ChatStreamEvent::Error { message } => ChatStreamEvent::Error {
                message: message.clone(),
            },
        }
    }
}

/// What a browser is sent for an event.
pub enum ChatStreamFrame {
    Thinking { iteration: u32 },
    TextDelta { text: String },
    ToolStart { tool_name: String, iteration: u32 },
    ToolResult { tool_name: String, result_preview: String, duration_ms: u64, success: bool },
    Done { answer: String, iterations: u32, tokens_used: Option<u64>, cost: Option<Cost> },
    Error { message: String },
}

/// The frame of each event. A cost is sent only where it is finite and positive.
pub open spec fn frame_of(event: ChatStreamEvent) -> ChatStreamFrame {
    match event {
        ChatStreamEvent::Thinking { iteration, .. } => ChatStreamFrame::Thinking { iteration },
        ChatStreamEvent::TextChunk { text } => ChatStreamFrame::TextDelta { text },
        ChatStreamEvent::ToolStart { tool_name, iteration } => ChatStreamFrame::ToolStart {
            tool_name,
            iteration,
        },
        ChatStreamEvent::ToolResult { tool_name, result_preview, duration_ms, success } =>
            ChatStreamFrame::ToolResult { tool_name, result_preview, duration_ms, success },
        ChatStreamEvent::Done { answer, iterations, tokens_used, cost } => ChatStreamFrame::Done {
            answer,
            iterations,
            tokens_used: Some(tokens_used),
            cost: cost.positive(),
        },
        ChatStreamEvent::Error { message } => ChatStreamFrame::Error { message },
    }
}

/// The frame of an event.
pub fn stream_frame(event: ChatStreamEvent) -> (r: ChatStreamFrame)
    ensures
        r == frame_of(event),
{
    match event {
        ChatStreamEvent::Thinking { iteration, .. } => ChatStreamFrame::Thinking { iteration },
        ChatStreamEvent::TextChunk { text } => ChatStreamFrame::TextDelta { text },
        ChatStreamEvent::ToolStart { tool_name, iteration } => ChatStreamFrame::ToolStart {
            tool_name,
            iteration,
        },
        ChatStreamEvent::ToolResult { tool_name, result_preview, duration_ms, success } =>
            ChatStreamFrame::ToolResult { tool_name, result_preview, duration_ms, success },
        ChatStreamEvent::Done { answer, iterations, tokens_used, cost } => ChatStreamFrame::Done {
            answer,
            iterations,
            tokens_used: Some(tokens_used),
            cost: cost.if_positive(),
        },
        ChatStreamEvent::Error { message } => ChatStreamFrame::Error { message },
    }
}

/// A frame says what its event says. What the model reasons is not sent, and a cost only where it
/// is more than nothing and finite.
pub proof fn law_frames_say_what_events_say(event: ChatStreamEvent)
    ensures
        ({
            let f = frame_of(event);
            &&& event is TextChunk ==> f is TextDelta && f->text == event->text
            &&& event is Thinking ==> f is Thinking && f->Thinking_iteration
                == event->Thinking_iteration
            &&& event is ToolStart ==> f is ToolStart && f->ToolStart_tool_name
                == event->ToolStart_tool_name && f->ToolStart_iteration
                == event->ToolStart_iteration
            &&& event is ToolResult ==> f is ToolResult && f->ToolResult_tool_name
                == event->ToolResult_tool_name && f->result_preview == event->result_preview
                && f->duration_ms == event->duration_ms && f->success == event->success
            &&& event is Error ==> f is Error && f->message == event->message
            &&& event is Done ==> f is Done && f->answer == event->answer && f->iterations
                == event->iterations && f->Done_tokens_used == Some(event->Done_tokens_used)
            &&& event is Done && event->Done_cost.bits == 0 ==> f->Done_cost is None
            &&& event is Done && event->Done_cost.bits >= 0x7ff0_0000_0000_0000
                ==> f->Done_cost is None
            &&& event is Done && 0 < event->Done_cost.bits < 0x7ff0_0000_0000_0000 ==> f->Done_cost
                == Some(event->Done_cost)
        }),
        event is TextChunk ==> event.chunk() == event->text@,
        !(event is TextChunk) ==> event.chunk().len() == 0,
{
}

} // verus!
