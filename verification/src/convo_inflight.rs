//! The replay buffer of a conversation between agents, and the conversations that have one.
//!
//! Every event has a sequence number. The buffer holds the last events; `base` is the number
//! of the first one held. A reader's cursor is the number of the last event it was sent. A
//! reader that missed events, because they had left the buffer, is sent a notice first.

use crate::inflight::{can_start, running, started, Run, Runs};
use vstd::prelude::*;

verus! {

/// The seconds that a conversation keeps its place after it has ended.
pub const POST_DONE_RETENTION_SECS: u64 = 120;

/// The most events that a buffer holds.
pub const MAX_BUFFERED_EVENTS: usize = 2_000;

/// The cursor of a reader that was sent nothing yet.
pub const CURSOR_INIT: u64 = u64::MAX;

/// What a reader is told that missed events.
pub const TRUNCATION_NOTICE: &'static str = "Earlier events were dropped due to buffer overflow — reload the page to see persisted turns.";

/// An event of a running conversation.
pub enum ConvoStreamEvent {
    /// An agent starts its turn.
    TurnStart { agent: String, turn: u32 },
    /// The model reasons.
    Thinking { agent: String, turn: u32, iteration: u32 },
    /// A piece of the answer.
    TextChunk { agent: String, turn: u32, text: String },
    /// A tool call started.
    ToolStart { agent: String, turn: u32, tool_name: String, iteration: u32 },
    /// A tool call ended.
    ToolResult {
        agent: String,
        turn: u32,
        tool_name: String,
        result_preview: String,
        duration_ms: u64,
        success: bool,
    },
    /// An agent ended its turn.
    TurnEnd { agent: String, turn: u32, answer: String },
    /// The conversation is over.
    ConversationDone { total_turns: u32 },
    /// Something went wrong.
    Error { message: String },
}

impl ConvoStreamEvent {
    /// An equal event.
    pub fn duplicate(&self) -> (r: Self)
        ensures
            r == *self,
    {
        match self {
            ConvoStreamEvent::TurnStart { agent, turn } => ConvoStreamEvent::TurnStart {
                agent: agent.clone(),
                turn: *turn,
            },
            ConvoStreamEvent::Thinking { agent, turn, iteration } => ConvoStreamEvent::Thinking {
                agent: agent.clone(),
                turn: *turn,
                iteration: *iteration,
            },
            ConvoStreamEvent::TextChunk { agent, turn, text } => ConvoStreamEvent::TextChunk {
                agent: agent.clone(),
                turn: *turn,
                text: text.clone(),
            },
            ConvoStreamEvent::ToolStart { agent, turn, tool_name, iteration } =>
                ConvoStreamEvent::ToolStart {
                agent: agent.clone(),
                turn: *turn,
                tool_name: tool_name.clone(),
                iteration: *iteration,
            },
            ConvoStreamEvent::ToolResult {
                agent,
                turn,
                tool_name,
                result_preview,
                duration_ms,
                success,
            } => ConvoStreamEvent::ToolResult {
                agent: agent.clone(),
                turn: *turn,
                tool_name: tool_name.clone(),
                result_preview: result_preview.clone(),
                duration_ms: *duration_ms,
                success: *success,
            },
            ConvoStreamEvent::TurnEnd { agent, turn, answer } => ConvoStreamEvent::TurnEnd {
                agent: agent.clone(),
                turn: *turn,
                answer: answer.clone(),
            },
            ConvoStreamEvent::ConversationDone { total_turns } =>
                ConvoStreamEvent::ConversationDone { total_turns: *total_turns },
            ConvoStreamEvent::Error { message } => ConvoStreamEvent::Error {
                message: message.clone(),
            },
        }
    }
}

/// The content of a buffer.
pub struct ConvoState {
    pub events: Seq<ConvoStreamEvent>,
    /// The sequence number of the first buffered event.
    pub base: int,
    /// The sequence number of the next event.
    pub next: int,
    pub done: bool,
}

impl ConvoState {
    /// What holds of every buffer: the events have the numbers from `base` to `next`, and
    /// there are no more of them than the cap; events have left only from a full buffer.
    pub open spec fn inv(self) -> bool {
        &&& 0 <= self.base
        &&& self.next == self.base + self.events.len()
        &&& self.events.len() <= MAX_BUFFERED_EVENTS
        &&& self.base > 0 ==> self.events.len() == MAX_BUFFERED_EVENTS
    }

    /// Whether one more event can be counted.
    pub open spec fn has_room(self) -> bool {
        self.next < u64::MAX
    }

    /// The state after an event is pushed: over the cap, the oldest event leaves. Nothing is
    /// added to a buffer that cannot count on.
    pub open spec fn pushed(self, event: ConvoStreamEvent) -> ConvoState {
        let events = self.events.push(event);
        if !self.has_room() {
            self
        } else if events.len() > MAX_BUFFERED_EVENTS {
            ConvoState {
                events: events.skip(events.len() - MAX_BUFFERED_EVENTS),
                base: self.base + events.len() - MAX_BUFFERED_EVENTS,
                next: self.next + 1,
                done: self.done,
            }
        } else {
            ConvoState { events, base: self.base, next: self.next + 1, done: self.done }
        }
    }

    /// The number of the first event that the reader was not sent.
    pub open spec fn wanted(self, cursor: u64) -> int {
        if cursor == CURSOR_INIT {
            0
        } else {
            cursor + 1
        }
    }

    /// Whether events that the reader was not sent have left the buffer.
    pub open spec fn missed(self, cursor: u64) -> bool {
        self.wanted(cursor) < self.base
    }

    /// The buffered events with a number above the cursor.
    pub open spec fn unread(self, cursor: u64) -> Seq<ConvoStreamEvent> {
        let from = self.wanted(cursor) - self.base;
        if from <= 0 {
            self.events
        } else if from >= self.events.len() {
            Seq::empty()
        } else {
            self.events.skip(from)
        }
    }

    /// The cursor after a read: the number of the newest event, where that is not below the
    /// reader's own cursor.
    pub open spec fn cursor_after(self, cursor: u64) -> u64 {
        if self.next == 0 {
            CURSOR_INIT
        } else if cursor == CURSOR_INIT || cursor < self.next {
            (self.next - 1) as u64
        } else {
            cursor
        }
    }

    /// Whether `sent` is what a reader at `cursor` is sent: the notice where it missed
    /// events, then the unread events.
    pub open spec fn sends(self, cursor: u64, sent: Seq<ConvoStreamEvent>) -> bool {
        if self.missed(cursor) {
            &&& sent.len() > 0
            &&& sent[0] matches ConvoStreamEvent::Error { message } && message@
                == TRUNCATION_NOTICE@
            &&& sent.drop_first() == self.unread(cursor)
        } else {
            sent == self.unread(cursor)
        }
    }
}

/// The replay buffer of a conversation.
pub struct InFlightConvo {
    events: Vec<ConvoStreamEvent>,
    base_seq: u64,
    next_seq: u64,
    done: bool,
}

impl View for InFlightConvo {
    type V = ConvoState;

    closed spec fn view(&self) -> ConvoState {
        ConvoState {
            events: self.events@,
            base: self.base_seq as int,
            next: self.next_seq as int,
            done: self.done,
        }
    }
}

impl InFlightConvo {
    /// An empty buffer.
    pub fn new() -> (r: Self)
        ensures
            r@.inv(),
            r@.events.len() == 0,
            r@.next == 0,
            !r@.done,
    {
        InFlightConvo { events: Vec::new(), base_seq: 0, next_seq: 0, done: false }
    }

    /// Whether the conversation has ended.
    pub fn is_done(&self) -> (r: bool)
        ensures
            r == self@.done,
    {
        self.done
    }

    /// Pushes an event. A buffer that has counted up to the largest number takes no more.
    pub fn push(&mut self, event: ConvoStreamEvent)
        requires
            old(self)@.inv(),
        ensures
            final(self)@ == old(self)@.pushed(event),
            final(self)@.inv(),
    {
        if self.next_seq == u64::MAX {
            return;
        }
        self.events.push(event);
        self.next_seq = self.next_seq + 1;
        if self.events.len() > MAX_BUFFERED_EVENTS {
            let _ = self.events.remove(0);
            self.base_seq = self.base_seq + 1;
            assert(self@.events =~= old(self)@.pushed(event).events);
        }
    }

    /// Records that the conversation has ended.
    pub fn mark_done(&mut self)
        requires
            old(self)@.inv(),
        ensures
            final(self)@.inv(),
            final(self)@ == (ConvoState { done: true, ..old(self)@ }),
    {
        self.done = true;
    }

    /// What a reader at `cursor` is sent, its next cursor, and whether the conversation has
    /// ended.
    pub fn read_from(&self, cursor: u64) -> (r: (Vec<ConvoStreamEvent>, u64, bool))
        requires
            self@.inv(),
        ensures
            self@.sends(cursor, r.0@),
            r.1 == self@.cursor_after(cursor),
            r.2 == self@.done,
    {
        let start: u64 = if cursor == CURSOR_INIT {
            0
        } else {
            cursor + 1
        };
        let mut out: Vec<ConvoStreamEvent> = Vec::new();
        if start < self.base_seq {
            out.push(ConvoStreamEvent::Error { message: TRUNCATION_NOTICE.to_owned() });
        }
        let ghost head = out@;
        let skipped: u64 = if start > self.base_seq {
            start - self.base_seq
        } else {
            0
        };
        let from: usize = if skipped >= self.events.len() as u64 {
            self.events.len()
        } else {
            skipped as usize
        };
        let mut i: usize = from;
        while i < self.events.len()
            invariant
                from <= i <= self.events@.len(),
                out@ == head + self.events@.subrange(from as int, i as int),
            decreases self.events.len() - i,
        {
            out.push(self.events[i].duplicate());
            assert(out@ =~= head + self.events@.subrange(from as int, i + 1));
            i += 1;
        }
        proof {
            assert(self.events@.subrange(from as int, i as int) =~= self@.unread(cursor));
            if self@.missed(cursor) {
                assert(out@.drop_first() =~= self@.unread(cursor));
            } else {
                assert(out@ =~= self@.unread(cursor));
            }
        }
        let next_cursor: u64 = if self.next_seq == 0 {
            CURSOR_INIT
        } else if cursor == CURSOR_INIT || cursor < self.next_seq {
            self.next_seq - 1
        } else {
            cursor
        };
        (out, next_cursor, self.done)
    }
}

// ---------------------------------------------------------------------------
// Laws of the buffer
// ---------------------------------------------------------------------------

/// Whether the buffer holds the end of `log`, the events pushed since the start.
pub open spec fn buffers(state: ConvoState, log: Seq<ConvoStreamEvent>) -> bool {
    &&& state.inv()
    &&& state.next == log.len()
    &&& state.events == log.skip(state.base)
}

/// The buffer always holds the last events pushed: a push keeps it so.
pub proof fn law_push_extends_the_log(
    state: ConvoState,
    log: Seq<ConvoStreamEvent>,
    event: ConvoStreamEvent,
)
    requires
        buffers(state, log),
        state.has_room(),
    ensures
        buffers(state.pushed(event), log.push(event)),
{
    let after = state.pushed(event);
    assert(after.events =~= log.push(event).skip(after.base));
}

/// A read gives the events after the cursor, in order and without a gap: those numbered from
/// the cursor to the end of the log, except the ones that have left the buffer. It moves the
/// cursor to the last event, so that the next read goes on right behind it. A reader is told
/// of missed events where there are any, and only there.
pub proof fn law_reads_are_gapless(state: ConvoState, log: Seq<ConvoStreamEvent>, cursor: u64)
    requires
        buffers(state, log),
        cursor == CURSOR_INIT || cursor < log.len(),
        log.len() < u64::MAX,
    ensures
        ({
            let first = if state.missed(cursor) {
                state.base
            } else {
                state.wanted(cursor)
            };
            state.unread(cursor) == log.skip(first)
        }),
        log.len() > 0 ==> state.cursor_after(cursor) == log.len() - 1,
        state.missed(cursor) <==> state.wanted(cursor) < log.len() - MAX_BUFFERED_EVENTS,
        state.wanted(state.cursor_after(cursor)) == log.len(),
{
    let first = if state.missed(cursor) {
        state.base
    } else {
        state.wanted(cursor)
    };
    assert(state.unread(cursor) =~= log.skip(first));
}

/// Two reads with a push in between: the second gives exactly the pushed event, and no
/// notice.
pub proof fn law_reading_on_gives_what_is_new(
    state: ConvoState,
    event: ConvoStreamEvent,
    cursor: u64,
    sent: Seq<ConvoStreamEvent>,
)
    requires
        state.inv(),
        state.has_room(),
        cursor == CURSOR_INIT || cursor < state.next,
        state.pushed(event).sends(state.cursor_after(cursor), sent),
    ensures
        sent == seq![event],
{
    let after = state.pushed(event);
    assert(after.unread(state.cursor_after(cursor)) =~= seq![event]);
}

// ---------------------------------------------------------------------------
// The running conversations
// ---------------------------------------------------------------------------

/// The current run of each conversation.
pub struct InFlightConvos {
    runs: Runs,
}

impl View for InFlightConvos {
    type V = Map<Seq<char>, Run>;

    closed spec fn view(&self) -> Map<Seq<char>, Run> {
        self.runs@
    }
}

impl InFlightConvos {
    /// The table of runs is sound.
    pub closed spec fn wf(&self) -> bool {
        self.runs.wf()
    }

    /// The number that the next run gets.
    pub closed spec fn next_number(&self) -> u64 {
        self.runs.next_number()
    }

    /// No runs.
    pub fn new() -> (r: Self)
        ensures
            r.wf(),
            r@ == Map::<Seq<char>, Run>::empty(),
            r.next_number() == 0,
    {
        InFlightConvos { runs: Runs::new() }
    }

    /// Starts a run of the conversation, unless one is running: the result is its number.
    pub fn try_start(&mut self, convo_id: &str) -> (r: Option<u64>)
        requires
            old(self).wf(),
        ensures
            final(self).wf(),
            r == (if can_start(old(self)@, old(self).next_number(), convo_id@) {
                Some(old(self).next_number())
            } else {
                None
            }),
            final(self)@ == started(old(self)@, old(self).next_number(), convo_id@),
            final(self).next_number() == old(self).next_number() + (if r is Some {
                1int
            } else {
                0int
            }),
    {
        self.runs.try_start(convo_id)
    }

    /// The conversation's run, running or ended.
    pub fn get(&self, convo_id: &str) -> (r: Option<&Run>)
        requires
            self.wf(),
        ensures
            r == (if self@.dom().contains(convo_id@) {
                Some(&self@[convo_id@])
            } else {
                None
            }),
    {
        self.runs.get(convo_id)
    }

    /// Whether the conversation has a run that has not ended.
    pub fn is_running(&self, convo_id: &str) -> (r: bool)
        requires
            self.wf(),
        ensures
            r == running(self@, convo_id@),
    {
        self.runs.is_running(convo_id)
    }

    /// Records that a run has ended.
    pub fn finish(&mut self, convo_id: &str, number: u64)
        requires
            old(self).wf(),
        ensures
            final(self).wf(),
            final(self).next_number() == old(self).next_number(),
            final(self)@ == (if old(self)@.dom().contains(convo_id@)
                && old(self)@[convo_id@].number == number {
                old(self)@.insert(convo_id@, (Run { number, done: true }))
            } else {
                old(self)@
            }),
    {
        self.runs.finish(convo_id, number)
    }

    /// Forgets a conversation whose retention has passed.
    pub fn forget(&mut self, convo_id: &str)
        requires
            old(self).wf(),
        ensures
            final(self).wf(),
            final(self).next_number() == old(self).next_number(),
            final(self)@ == old(self)@.remove(convo_id@),
    {
        self.runs.remove(convo_id)
    }

    /// How many conversations are running.
    pub fn active_count(&self) -> (n: usize)
        requires
            self.wf(),
        ensures
            n == Set::new(|k: Seq<char>| running(self@, k)).len(),
    {
        let n: usize = self.runs.active_count();
        assert(self.runs.active() =~= Set::new(|k: Seq<char>| running(self@, k)));
        n
    }
}

} // verus!
