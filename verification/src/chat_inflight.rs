//! The replay buffer of a chat reply, and the sessions that have one.
//!
//! A running reply pushes its events into a buffer; each event has a sequence number. A reader
//! that attaches late first gets everything pushed so far, then what follows. Old pieces of text
//! are merged into one prefix, so that the buffer stays small without losing text: a reader's
//! cursor also holds how much text it was sent, and so a reader that was slower than the merging
//! gets the rest of the prefix.

use crate::inflight::{can_start, running, started, Run, Runs};
use crate::stream::{ChatStreamEvent, Cost};
use crate::text::{chars_of, string_of, sub_chars};
use vstd::prelude::*;

verus! {

/// The seconds that a run keeps its place after it has ended.
pub const POST_DONE_RETENTION_SECS: u64 = 60;

/// The most events that a buffer holds.
pub const MAX_BUFFERED_EVENTS: usize = 10_000;

/// The number of events from which old pieces of text are merged.
pub const COALESCE_THRESHOLD: usize = 8_000;

/// The most pieces of text that are merged at once.
pub const COALESCE_TARGET: usize = 2_000;

/// A buffered event, with its sequence number.
pub struct Entry {
    pub seq: u64,
    pub event: ChatStreamEvent,
}

/// Where a reader stands.
#[derive(Clone, Copy, Debug, PartialEq, Eq, Structural)]
pub struct Cursor {
    /// The number of the first event that it was not sent.
    pub seq: u64,
    /// How many characters of text it was sent.
    pub text: u64,
}

impl Cursor {
    /// Where a reader stands that was sent nothing yet.
    pub fn start() -> (r: Self)
        ensures
            r.seq == 0,
            r.text == 0,
    {
        Cursor { seq: 0, text: 0 }
    }
}

/// The pieces of text among the events, put together.
pub open spec fn text_of(events: Seq<ChatStreamEvent>) -> Seq<char>
    decreases events.len(),
{
    if events.len() == 0 {
        Seq::empty()
    } else {
        events[0].chunk() + text_of(events.drop_first())
    }
}

/// The buffered pieces of text, put together.
pub open spec fn text_in(entries: Seq<Entry>) -> Seq<char>
    decreases entries.len(),
{
    if entries.len() == 0 {
        Seq::empty()
    } else {
        entries[0].event.chunk() + text_in(entries.drop_first())
    }
}

/// The buffered pieces of text with a number below `seq`, put together.
pub open spec fn text_before(entries: Seq<Entry>, seq: u64) -> Seq<char>
    decreases entries.len(),
{
    if entries.len() == 0 {
        Seq::empty()
    } else {
        (if entries[0].seq < seq {
            entries[0].event.chunk()
        } else {
            Seq::empty()
        }) + text_before(entries.drop_first(), seq)
    }
}

/// The buffered events with the number `seq` or a higher one, in order.
pub open spec fn since(entries: Seq<Entry>, seq: u64) -> Seq<ChatStreamEvent>
    decreases entries.len(),
{
    if entries.len() == 0 {
        Seq::empty()
    } else {
        (if entries[0].seq >= seq {
            seq![entries[0].event]
        } else {
            Seq::empty()
        }) + since(entries.drop_first(), seq)
    }
}

/// The number of buffered pieces of text.
pub open spec fn chunk_count(entries: Seq<Entry>) -> nat
    decreases entries.len(),
{
    if entries.len() == 0 {
        0
    } else {
        (if entries[0].event is TextChunk {
            1nat
        } else {
            0nat
        }) + chunk_count(entries.drop_first())
    }
}

/// The entries that hold no piece of text, in order.
pub open spec fn others(entries: Seq<Entry>) -> Seq<Entry>
    decreases entries.len(),
{
    if entries.len() == 0 {
        Seq::empty()
    } else {
        (if entries[0].event is TextChunk {
            Seq::empty()
        } else {
            seq![entries[0]]
        }) + others(entries.drop_first())
    }
}

/// The entries without the first `target` pieces of text.
pub open spec fn kept(entries: Seq<Entry>, target: nat) -> Seq<Entry>
    decreases entries.len(),
{
    if entries.len() == 0 || target == 0 {
        entries
    } else if entries[0].event is TextChunk {
        kept(entries.drop_first(), (target - 1) as nat)
    } else {
        seq![entries[0]] + kept(entries.drop_first(), target)
    }
}

/// The first `target` pieces of text, put together.
pub open spec fn merged(entries: Seq<Entry>, target: nat) -> Seq<char>
    decreases entries.len(),
{
    if entries.len() == 0 || target == 0 {
        Seq::empty()
    } else if entries[0].event is TextChunk {
        entries[0].event.chunk() + merged(entries.drop_first(), (target - 1) as nat)
    } else {
        merged(entries.drop_first(), target)
    }
}

/// Whether the numbers of the entries go up, and stay below `next`.
pub open spec fn numbered(entries: Seq<Entry>, next: int) -> bool {
    &&& forall|i: int| 0 <= i < entries.len() ==> (#[trigger] entries[i]).seq < next
    &&& forall|i: int, j: int|
        0 <= i < j < entries.len() ==> (#[trigger] entries[i]).seq < (#[trigger] entries[j]).seq
}

/// The content of a buffer.
pub struct ReplayState {
    pub entries: Seq<Entry>,
    /// The merged text, which comes before the text of the entries.
    pub prefix: Seq<char>,
    /// The number of the next event.
    pub next: int,
    /// How many characters of text were pushed.
    pub text: int,
    pub done: bool,
}

impl ReplayState {
    /// The content of a new buffer.
    pub open spec fn fresh() -> ReplayState {
        ReplayState { entries: Seq::empty(), prefix: Seq::empty(), next: 0, text: 0, done: false }
    }

    /// All the text pushed so far.
    pub open spec fn streamed_text(self) -> Seq<char> {
        self.prefix + text_in(self.entries)
    }

    /// The state after the first `target` pieces of text were merged into the prefix.
    pub open spec fn coalesced(self, target: nat) -> ReplayState {
        ReplayState {
            entries: kept(self.entries, target),
            prefix: self.prefix + merged(self.entries, target),
            ..self
        }
    }

    /// Whether one more event can be counted. One number stays free for the event that ends a
    /// cancelled reply.
    pub open spec fn has_room(self, event: ChatStreamEvent) -> bool {
        self.next < u64::MAX - 1 && self.text + event.chunk().len() <= u64::MAX
    }

    /// The state in which an event is added: old text is merged first where the buffer is long.
    pub open spec fn thinned(self) -> ReplayState {
        if self.entries.len() >= COALESCE_THRESHOLD {
            self.coalesced(COALESCE_TARGET as nat)
        } else {
            self
        }
    }

    /// The state after an event is pushed. Nothing is added to a buffer that is done, nor to one
    /// that cannot count on. Entries over the cap leave at the front.
    pub open spec fn pushed(self, event: ChatStreamEvent) -> ReplayState {
        if self.done || !self.has_room(event) {
            self
        } else {
            let base = self.thinned();
            let entries = base.entries.push(Entry { seq: self.next as u64, event });
            ReplayState {
                entries: if entries.len() > MAX_BUFFERED_EVENTS {
                    entries.skip(entries.len() - MAX_BUFFERED_EVENTS)
                } else {
                    entries
                },
                prefix: base.prefix,
                next: self.next + 1,
                text: self.text + event.chunk().len(),
                done: false,
            }
        }
    }

    /// The state after the reply is ended by a last event.
    pub open spec fn closed_by(self, event: ChatStreamEvent) -> ReplayState {
        ReplayState {
            entries: self.entries.push(Entry { seq: self.next as u64, event }),
            next: self.next + 1,
            done: true,
            ..self
        }
    }

    /// What holds of every buffer: it is within its cap (one more once it is cancelled), above
    /// the merging threshold it holds at most one piece of text, its entries are in the order of
    /// their numbers, and it counts its text.
    pub open spec fn inv(self) -> bool {
        &&& self.entries.len() <= MAX_BUFFERED_EVENTS + (if self.done {
            1int
        } else {
            0int
        })
        &&& !self.done && self.entries.len() > COALESCE_THRESHOLD ==> chunk_count(self.entries)
            <= 1
        &&& numbered(self.entries, self.next)
        &&& 0 <= self.next <= u64::MAX - (if self.done {
            0int
        } else {
            1int
        })
        &&& self.text == self.streamed_text().len()
        &&& self.text <= u64::MAX
    }

    /// The merged text that a reader at `cursor` was not sent.
    pub open spec fn missed_text(self, cursor: Cursor) -> Seq<char> {
        if cursor.text < self.prefix.len() {
            self.prefix.skip(cursor.text as int)
        } else {
            Seq::empty()
        }
    }

    /// The buffered events that a reader at `cursor` was not sent.
    pub open spec fn unread(self, cursor: Cursor) -> Seq<ChatStreamEvent> {
        since(self.entries, cursor.seq)
    }

    /// Whether `sent` is what a reader at `cursor` is sent: the merged text that it was not
    /// sent, where there is any, as one piece of text, then the unread events.
    pub open spec fn sends(self, cursor: Cursor, sent: Seq<ChatStreamEvent>) -> bool {
        if self.missed_text(cursor).len() > 0 {
            &&& sent.len() > 0
            &&& sent[0] is TextChunk
            &&& sent[0].chunk() == self.missed_text(cursor)
            &&& sent.drop_first() == self.unread(cursor)
        } else {
            sent == self.unread(cursor)
        }
    }

    /// The text that a reader at `cursor` is sent.
    pub open spec fn sent_text(self, cursor: Cursor) -> Seq<char> {
        self.missed_text(cursor) + text_of(self.unread(cursor))
    }

    /// Where a reader stands after a read.
    pub open spec fn end(self) -> Cursor {
        Cursor { seq: self.next as u64, text: self.text as u64 }
    }
}

/// The replay buffer of a reply.
pub struct InFlightInference {
    entries: Vec<Entry>,
    coalesced_text_prefix: String,
    next_seq: u64,
    text: u64,
    done: bool,
}

impl View for InFlightInference {
    type V = ReplayState;

    closed spec fn view(&self) -> ReplayState {
        ReplayState {
            entries: self.entries@,
            prefix: self.coalesced_text_prefix@,
            next: self.next_seq as int,
            text: self.text as int,
            done: self.done,
        }
    }
}

impl InFlightInference {
    /// An empty buffer.
    pub fn new() -> (r: Self)
        ensures
            r@ == ReplayState::fresh(),
            r@.inv(),
    {
        let r = InFlightInference {
            entries: Vec::new(),
            coalesced_text_prefix: String::new(),
            next_seq: 0,
            text: 0,
            done: false,
        };
        assert(r@.entries =~= Seq::<Entry>::empty());
        assert(r@.prefix =~= Seq::<char>::empty());
        assert(r@.streamed_text() =~= Seq::<char>::empty());
        r
    }

    /// Whether the reply has ended.
    pub fn is_done(&self) -> (r: bool)
        ensures
            r == self@.done,
    {
        self.done
    }

    /// Merges the first `target` pieces of text into the prefix; the other events stay, in
    /// their order.
    fn coalesce_old_text(&mut self, target: usize)
        ensures
            final(self)@ == old(self)@.coalesced(target as nat),
    {
        let ghost all = self.entries@;
        let ghost prefix0 = self.coalesced_text_prefix@;
        let mut rest: Vec<Entry> = Vec::new();
        let mut drained: usize = 0;
        let mut i: usize = 0;
        let mut moved: Vec<Entry> = Vec::new();
        moved.append(&mut self.entries);
        assert(all.skip(0) =~= all);
        assert(moved@ =~= all);
        while i < moved.len()
            invariant
                i <= moved@.len(),
                moved@ == all,
                drained <= target,
                self.done == old(self).done,
                self.next_seq == old(self).next_seq,
                self.text == old(self).text,
                rest@ + kept(all.skip(i as int), (target - drained) as nat) == kept(
                    all,
                    target as nat,
                ),
                self.coalesced_text_prefix@ + merged(all.skip(i as int), (target - drained) as nat)
                    == prefix0 + merged(all, target as nat),
            decreases moved.len() - i,
        {
            let ghost left = (target - drained) as nat;
            let ghost here = all.skip(i as int);
            let ghost rest0 = rest@;
            let ghost text0 = self.coalesced_text_prefix@;
            assert(here[0] == all[i as int]);
            assert(here.drop_first() =~= all.skip(i + 1));
            let entry: &Entry = &moved[i];
            let mut merge: bool = false;
            if drained < target {
                match &entry.event {
                    ChatStreamEvent::TextChunk { text } => {
                        self.coalesced_text_prefix.push_str(text.as_str());
                        merge = true;
                    },
                    _ => {},
                }
            }
            if merge {
                drained += 1;
                assert(text0 + (here[0].event.chunk() + merged(all.skip(i + 1), (left - 1) as nat))
                    =~= text0 + here[0].event.chunk() + merged(all.skip(i + 1), (left - 1) as nat));
            } else {
                rest.push(Entry { seq: entry.seq, event: entry.event.duplicate() });
                proof {
                    let tail = all.skip(i + 1);
                    if left == 0 {
                        assert(rest0 + here =~= rest0.push(here[0]) + tail);
                    } else {
                        assert(rest0 + (seq![here[0]] + kept(tail, left)) =~= rest0.push(here[0])
                            + kept(tail, left));
                    }
                }
            }
            i += 1;
        }
        proof {
            let end = all.skip(i as int);
            assert(end.len() == 0);
            assert(rest@ + kept(end, (target - drained) as nat) =~= rest@);
            assert(self.coalesced_text_prefix@ + merged(end, (target - drained) as nat)
                =~= self.coalesced_text_prefix@);
        }
        self.entries = rest;
    }

    /// Pushes an event. A buffer that has counted up to the largest number takes no more.
    pub fn push(&mut self, event: ChatStreamEvent)
        requires
            old(self)@.inv(),
        ensures
            final(self)@ == old(self)@.pushed(event),
            final(self)@.inv(),
    {
        proof {
            law_push_keeps_text(self@, event);
        }
        if self.done {
            return;
        }
        let size: u64 = match &event {
            ChatStreamEvent::TextChunk { text } => text.as_str().unicode_len() as u64,
            _ => 0,
        };
        if self.next_seq >= u64::MAX - 1 || self.text > u64::MAX - size {
            return;
        }
        if self.entries.len() >= COALESCE_THRESHOLD {
            proof {
                lemma_kept_len(self.entries@, COALESCE_TARGET as nat);
            }
            self.coalesce_old_text(COALESCE_TARGET);
        }
        self.entries.push(Entry { seq: self.next_seq, event });
        self.next_seq = self.next_seq + 1;
        self.text = self.text + size;
        if self.entries.len() > MAX_BUFFERED_EVENTS {
            let _ = self.entries.remove(0);
            assert(self@.entries =~= old(self)@.pushed(event).entries);
        }
    }

    /// Ends the reply with `message` as its answer, unless it has ended already: the result
    /// says whether it did.
    pub fn cancel(&mut self, message: String) -> (r: bool)
        requires
            old(self)@.inv(),
        ensures
            final(self)@.inv(),
            r == !old(self)@.done,
            r ==> final(self)@ == old(self)@.closed_by(
                (ChatStreamEvent::Done {
                    answer: message,
                    iterations: 0,
                    tokens_used: 0,
                    cost: (Cost { bits: 0 }),
                }),
            ),
            !r ==> final(self)@ == old(self)@,
    {
        if self.done {
            return false;
        }
        let event: ChatStreamEvent = ChatStreamEvent::Done {
            answer: message,
            iterations: 0,
            tokens_used: 0,
            cost: Cost { bits: 0 },
        };
        proof {
            lemma_push_entry(self.entries@, Entry { seq: self.next_seq, event });
            assert(text_in(self.entries@) + event.chunk() =~= text_in(self.entries@));
        }
        self.entries.push(Entry { seq: self.next_seq, event });
        self.next_seq = self.next_seq + 1;
        self.done = true;
        true
    }

    /// Records that the reply has ended.
    pub fn mark_done(&mut self)
        requires
            old(self)@.inv(),
        ensures
            final(self)@.inv(),
            final(self)@ == (ReplayState { done: true, ..old(self)@ }),
    {
        self.done = true;
    }

    /// What a reader at `cursor` is sent, its next cursor, and whether the reply has ended.
    pub fn read_from(&self, cursor: Cursor) -> (r: (Vec<ChatStreamEvent>, Cursor, bool))
        ensures
            self@.sends(cursor, r.0@),
            r.1 == self@.end(),
            r.2 == self@.done,
    {
        let mut out: Vec<ChatStreamEvent> = Vec::new();
        let chars: Vec<char> = chars_of(self.coalesced_text_prefix.as_str());
        let size: usize = chars.len();
        if cursor.text < size as u64 {
            let missed: Vec<char> = sub_chars(chars.as_slice(), cursor.text as usize, size);
            assert(missed@ =~= self@.missed_text(cursor));
            out.push(ChatStreamEvent::TextChunk { text: string_of(missed.as_slice()) });
        }
        let ghost head = out@;
        let ghost all = self.entries@;
        let mut i: usize = 0;
        assert(all.skip(0) =~= all);
        while i < self.entries.len()
            invariant
                i <= self.entries@.len(),
                all == self.entries@,
                out@ + since(all.skip(i as int), cursor.seq) == head + since(all, cursor.seq),
            decreases self.entries.len() - i,
        {
            let ghost out0 = out@;
            let ghost here = all.skip(i as int);
            assert(here[0] == all[i as int]);
            assert(here.drop_first() =~= all.skip(i + 1));
            let ghost tail = since(all.skip(i + 1), cursor.seq);
            if self.entries[i].seq >= cursor.seq {
                out.push(self.entries[i].event.duplicate());
                assert(out@ + tail =~= out0 + (seq![here[0].event] + tail));
            } else {
                assert(Seq::<ChatStreamEvent>::empty() + tail =~= tail);
            }
            i += 1;
        }
        proof {
            let end = since(all.skip(i as int), cursor.seq);
            assert(all.skip(i as int).len() == 0);
            assert(out@ + end =~= out@);
            if self@.missed_text(cursor).len() > 0 {
                assert(out@.drop_first() =~= self@.unread(cursor));
            } else {
                assert(out@ =~= self@.unread(cursor));
            }
        }
        (out, Cursor { seq: self.next_seq, text: self.text }, self.done)
    }
}

// ---------------------------------------------------------------------------
// Laws of the buffer
// ---------------------------------------------------------------------------

/// What one more entry at the end adds.
proof fn lemma_push_entry(entries: Seq<Entry>, entry: Entry)
    ensures
        text_in(entries.push(entry)) == text_in(entries) + entry.event.chunk(),
        chunk_count(entries.push(entry)) == chunk_count(entries) + (if entry.event is TextChunk {
            1nat
        } else {
            0nat
        }),
        forall|seq: u64| #[trigger]
            text_before(entries.push(entry), seq) == text_before(entries, seq) + (if entry.seq
                < seq {
                entry.event.chunk()
            } else {
                Seq::empty()
            }),
        forall|seq: u64| #[trigger]
            since(entries.push(entry), seq) == since(entries, seq) + (if entry.seq >= seq {
                seq![entry.event]
            } else {
                Seq::empty()
            }),
    decreases entries.len(),
{
    let more = entries.push(entry);
    let chunk = entry.event.chunk();
    if entries.len() == 0 {
        assert(more.drop_first() =~= Seq::<Entry>::empty());
        assert(chunk_count(more.drop_first()) == 0);
        assert(text_in(more.drop_first()) =~= Seq::<char>::empty());
        assert(text_in(more) =~= text_in(entries) + chunk);
        assert forall|seq: u64| #[trigger]
            text_before(more, seq) == text_before(entries, seq) + (if entry.seq < seq {
                chunk
            } else {
                Seq::empty()
            }) by {
            assert(text_before(more.drop_first(), seq) =~= Seq::<char>::empty());
        }
        assert forall|seq: u64| #[trigger]
            since(more, seq) == since(entries, seq) + (if entry.seq >= seq {
                seq![entry.event]
            } else {
                Seq::empty()
            }) by {
            assert(since(more.drop_first(), seq) =~= Seq::<ChatStreamEvent>::empty());
        }
    } else {
        let rest = entries.drop_first();
        lemma_push_entry(rest, entry);
        assert(more.drop_first() =~= rest.push(entry));
        let first = entries[0];
        assert(first.event.chunk() + (text_in(rest) + chunk) =~= first.event.chunk() + text_in(rest)
            + chunk);
        assert forall|seq: u64| #[trigger]
            text_before(more, seq) == text_before(entries, seq) + (if entry.seq < seq {
                chunk
            } else {
                Seq::empty()
            }) by {
            assert(text_before(rest.push(entry), seq) == text_before(rest, seq) + (if entry.seq
                < seq {
                chunk
            } else {
                Seq::empty()
            }));
            assert(text_before(more, seq) =~= text_before(entries, seq) + (if entry.seq < seq {
                chunk
            } else {
                Seq::empty()
            }));
        }
        assert forall|seq: u64| #[trigger]
            since(more, seq) == since(entries, seq) + (if entry.seq >= seq {
                seq![entry.event]
            } else {
                Seq::empty()
            }) by {
            assert(since(rest.push(entry), seq) == since(rest, seq) + (if entry.seq >= seq {
                seq![entry.event]
            } else {
                Seq::empty()
            }));
            assert(since(more, seq) =~= since(entries, seq) + (if entry.seq >= seq {
                seq![entry.event]
            } else {
                Seq::empty()
            }));
        }
    }
}

proof fn lemma_chunk_bound(entries: Seq<Entry>)
    ensures
        chunk_count(entries) <= entries.len(),
        chunk_count(entries) == 0 ==> forall|i: int|
            0 <= i < entries.len() ==> !((#[trigger] entries[i]).event is TextChunk),
    decreases entries.len(),
{
    if entries.len() > 0 {
        lemma_chunk_bound(entries.drop_first());
        if chunk_count(entries) == 0 {
            assert forall|i: int| 0 <= i < entries.len() implies !((
            #[trigger] entries[i]).event is TextChunk) by {
                if i > 0 {
                    assert(entries[i] == entries.drop_first()[i - 1]);
                }
            }
        }
    }
}

proof fn lemma_kept_len(entries: Seq<Entry>, target: nat)
    ensures
        kept(entries, target).len() == entries.len() - (if chunk_count(entries) < target {
            chunk_count(entries)
        } else {
            target
        }),
        chunk_count(kept(entries, target)) == (if chunk_count(entries) < target {
            0
        } else {
            chunk_count(entries) - target
        }),
        others(kept(entries, target)) == others(entries),
    decreases entries.len(),
{
    if entries.len() == 0 || target == 0 {
        lemma_chunk_bound(entries);
    } else if entries[0].event is TextChunk {
        lemma_kept_len(entries.drop_first(), (target - 1) as nat);
        assert(others(entries) =~= others(entries.drop_first()));
    } else {
        lemma_kept_len(entries.drop_first(), target);
        let tail = kept(entries.drop_first(), target);
        assert((seq![entries[0]] + tail).drop_first() =~= tail);
    }
}

proof fn lemma_numbered_tail(entries: Seq<Entry>, next: int)
    requires
        entries.len() > 0,
        numbered(entries, next),
    ensures
        numbered(entries.drop_first(), next),
{
    let tail = entries.drop_first();
    assert forall|i: int| 0 <= i < tail.len() implies (#[trigger] tail[i]).seq < next by {
        assert(tail[i] == entries[i + 1]);
    }
    assert forall|i: int, j: int| 0 <= i < j < tail.len() implies (#[trigger] tail[i]).seq < (
    #[trigger] tail[j]).seq by {
        assert(tail[i] == entries[i + 1]);
        assert(tail[j] == entries[j + 1]);
    }
}

/// What stays is in the order of the numbers.
proof fn lemma_kept_numbered(entries: Seq<Entry>, target: nat, next: int)
    requires
        numbered(entries, next),
    ensures
        numbered(kept(entries, target), next),
        forall|i: int|
            0 <= i < kept(entries, target).len() ==> (#[trigger] kept(entries, target)[i]).seq
                >= entries[0].seq,
    decreases entries.len(),
{
    if entries.len() == 0 || target == 0 {
    } else {
        let tail = entries.drop_first();
        lemma_numbered_tail(entries, next);
        if tail.len() > 0 {
            assert(tail[0] == entries[1]);
            assert(entries[0].seq < entries[1].seq);
        }
        let less = if entries[0].event is TextChunk {
            (target - 1) as nat
        } else {
            target
        };
        lemma_kept_numbered(tail, less, next);
        let rest = kept(tail, less);
        if tail.len() == 0 {
            assert(rest.len() == 0);
        }
        if !(entries[0].event is TextChunk) {
            let all = seq![entries[0]] + rest;
            assert forall|i: int, j: int| 0 <= i < j < all.len() implies (#[trigger] all[i]).seq
                < (#[trigger] all[j]).seq by {
                assert(all[j] == rest[j - 1]);
                if i > 0 {
                    assert(all[i] == rest[i - 1]);
                }
            }
            assert forall|i: int| 0 <= i < all.len() implies (#[trigger] all[i]).seq < next
                && all[i].seq >= entries[0].seq by {
                if i > 0 {
                    assert(all[i] == rest[i - 1]);
                } else {
                    assert(all[0] == entries[0]);
                }
            }
        }
    }
}

proof fn lemma_merged(entries: Seq<Entry>, target: nat)
    ensures
        merged(entries, target) + text_in(kept(entries, target)) == text_in(entries),
    decreases entries.len(),
{
    if entries.len() == 0 || target == 0 {
        assert(merged(entries, target) + text_in(entries) =~= text_in(entries));
    } else {
        let tail = entries.drop_first();
        let first = entries[0].event.chunk();
        if entries[0].event is TextChunk {
            lemma_merged(tail, (target - 1) as nat);
            let m = merged(tail, (target - 1) as nat);
            let k = text_in(kept(tail, (target - 1) as nat));
            assert(first + m + k =~= first + (m + k));
        } else {
            lemma_merged(tail, target);
            let rest = kept(tail, target);
            assert((seq![entries[0]] + rest).drop_first() =~= rest);
            assert(first + text_in(rest) =~= text_in(rest));
            assert(first + text_in(tail) =~= text_in(tail));
        }
    }
}

/// Merging old text loses nothing: the prefix and the remaining pieces still make the same text,
/// the other events stay, in their order, and the buffer gets shorter by the number of merged
/// pieces, which is `target` or all there are. Nothing else changes.
pub proof fn law_coalescing_keeps_text(state: ReplayState, target: nat)
    ensures
        state.coalesced(target).streamed_text() == state.streamed_text(),
        others(state.coalesced(target).entries) == others(state.entries),
        state.coalesced(target).entries.len() == state.entries.len() - (if chunk_count(
            state.entries,
        ) < target {
            chunk_count(state.entries)
        } else {
            target
        }),
        state.coalesced(target).next == state.next,
        state.coalesced(target).text == state.text,
        state.coalesced(target).done == state.done,
{
    lemma_merged(state.entries, target);
    lemma_kept_len(state.entries, target);
    assert(state.prefix + merged(state.entries, target) + text_in(kept(state.entries, target))
        =~= state.prefix + (merged(state.entries, target) + text_in(kept(state.entries, target))));
}

/// No text is ever lost: a push to a running reply adds the event's own text at the end and
/// keeps all the text before it, through merging and through the cap. The buffer's invariant
/// is kept.
pub proof fn law_push_keeps_text(state: ReplayState, event: ChatStreamEvent)
    requires
        state.inv(),
    ensures
        state.pushed(event).inv(),
        !state.done && state.has_room(event) ==> state.pushed(event).streamed_text()
            == state.streamed_text() + event.chunk(),
{
    if !state.done && state.has_room(event) {
        let target = COALESCE_TARGET as nat;
        let base = state.thinned();
        law_coalescing_keeps_text(state, target);
        lemma_kept_len(state.entries, target);
        lemma_kept_numbered(state.entries, target, state.next);
        assert(numbered(base.entries, state.next));
        let entry = Entry { seq: state.next as u64, event };
        let entries = base.entries.push(entry);
        lemma_push_entry(base.entries, entry);
        assert(base.prefix + (text_in(base.entries) + event.chunk()) =~= base.prefix + text_in(
            base.entries,
        ) + event.chunk());
        assert(numbered(entries, state.next + 1));
        if entries.len() > MAX_BUFFERED_EVENTS {
            lemma_chunk_bound(base.entries);
            assert(chunk_count(base.entries) == 0);
            let cut = entries.skip(1);
            assert(entries.drop_first() =~= cut);
            assert(entries[0] == base.entries[0]);
            assert(entries[0].event.chunk() + text_in(cut) =~= text_in(cut));
            lemma_chunk_bound(entries);
            lemma_numbered_tail(entries, state.next + 1);
        }
    }
}

/// Below every number, `since` is all there is.
proof fn lemma_since_all(entries: Seq<Entry>)
    ensures
        text_of(since(entries, 0)) == text_in(entries),
    decreases entries.len(),
{
    if entries.len() > 0 {
        lemma_since_all(entries.drop_first());
        let rest = since(entries.drop_first(), 0);
        assert((seq![entries[0].event] + rest).drop_first() =~= rest);
    }
}

/// The text of the events that a read sends is the text that the reader's cursor lacks.
pub proof fn law_sent_events_hold_the_sent_text(
    state: ReplayState,
    cursor: Cursor,
    sent: Seq<ChatStreamEvent>,
)
    requires
        state.sends(cursor, sent),
    ensures
        text_of(sent) == state.sent_text(cursor),
{
    let unread = text_of(state.unread(cursor));
    if state.missed_text(cursor).len() == 0 {
        assert(state.missed_text(cursor) + unread =~= unread);
    }
}

/// A reader that attaches anew gets the whole text streamed so far.
pub proof fn law_replay_is_complete(state: ReplayState, sent: Seq<ChatStreamEvent>)
    requires
        state.sends((Cursor { seq: 0, text: 0 }), sent),
    ensures
        text_of(sent) == state.streamed_text(),
{
    let start = Cursor { seq: 0, text: 0 };
    law_sent_events_hold_the_sent_text(state, start, sent);
    lemma_since_all(state.entries);
    assert(state.missed_text(start) =~= state.prefix);
}

/// Of the entries, none has a number from `seq` on.
proof fn lemma_none_since(entries: Seq<Entry>, seq: u64)
    requires
        forall|i: int| 0 <= i < entries.len() ==> (#[trigger] entries[i]).seq < seq,
    ensures
        since(entries, seq) == Seq::<ChatStreamEvent>::empty(),
    decreases entries.len(),
{
    if entries.len() > 0 {
        let tail = entries.drop_first();
        assert forall|i: int| 0 <= i < tail.len() implies (#[trigger] tail[i]).seq < seq by {
            assert(tail[i] == entries[i + 1]);
        }
        lemma_none_since(tail, seq);
        assert(since(entries, seq) =~= Seq::<ChatStreamEvent>::empty());
    }
}

/// Reading on from the cursor that a read returned gives exactly the event pushed in between,
/// whether or not the push merged old text: nothing is skipped, nothing repeated. Where nothing
/// was pushed, nothing is sent.
pub proof fn law_reading_on_gives_what_is_new(
    state: ReplayState,
    event: ChatStreamEvent,
    sent: Seq<ChatStreamEvent>,
)
    requires
        state.inv(),
        !state.done,
        state.has_room(event),
    ensures
        state.pushed(event).sends(state.end(), sent) <==> sent == seq![event],
        state.sends(state.end(), sent) <==> sent.len() == 0,
{
    let target = COALESCE_TARGET as nat;
    let base = state.thinned();
    law_coalescing_keeps_text(state, target);
    lemma_kept_numbered(state.entries, target, state.next);
    lemma_none_since(state.entries, state.end().seq);
    lemma_none_since(base.entries, state.end().seq);
    let entry = Entry { seq: state.next as u64, event };
    let entries = base.entries.push(entry);
    lemma_push_entry(base.entries, entry);
    assert(base.streamed_text().len() == state.text);
    assert(since(entries, state.end().seq) =~= seq![event]);
    if entries.len() > MAX_BUFFERED_EVENTS {
        let cut = entries.skip(1);
        assert(cut =~= base.entries.drop_first().push(entry));
        let tail = base.entries.drop_first();
        assert forall|i: int| 0 <= i < tail.len() implies (#[trigger] tail[i]).seq
            < state.end().seq by {
            assert(tail[i] == base.entries[i + 1]);
        }
        lemma_none_since(tail, state.end().seq);
        lemma_push_entry(tail, entry);
        assert(since(cut, state.end().seq) =~= seq![event]);
    }
    assert(sent.len() == 0 ==> sent =~= Seq::<ChatStreamEvent>::empty());
}

/// The event that ends a reply reaches every reader: it is the last that a reader is sent, after
/// all that it would have been sent without it.
pub proof fn law_the_last_event_reaches_every_reader(
    state: ReplayState,
    event: ChatStreamEvent,
    cursor: Cursor,
)
    requires
        state.inv(),
        !state.done,
        cursor.seq <= state.next,
    ensures
        state.closed_by(event).missed_text(cursor) == state.missed_text(cursor),
        state.closed_by(event).unread(cursor) == state.unread(cursor).push(event),
        state.closed_by(event).done,
{
    lemma_push_entry(state.entries, Entry { seq: state.next as u64, event });
    assert(state.closed_by(event).unread(cursor) =~= state.unread(cursor).push(event));
}

/// What a buffer and one of its readers do.
pub enum Step {
    /// The reply pushes an event.
    Push(ChatStreamEvent),
    /// The reply ends.
    End,
    /// The reader reads, from the cursor that its last read returned.
    Read,
}

/// A buffer, where its reader stands, and the text that the reader was sent.
pub struct Watch {
    pub state: ReplayState,
    pub cursor: Cursor,
    pub received: Seq<char>,
}

/// What has come of a new buffer and a new reader after the steps.
pub open spec fn watched(steps: Seq<Step>) -> Watch
    decreases steps.len(),
{
    if steps.len() == 0 {
        Watch {
            state: ReplayState::fresh(),
            cursor: (Cursor { seq: 0, text: 0 }),
            received: Seq::empty(),
        }
    } else {
        let before = watched(steps.drop_last());
        match steps.last() {
            Step::Push(event) => Watch { state: before.state.pushed(event), ..before },
            Step::End => Watch { state: ReplayState { done: true, ..before.state }, ..before },
            Step::Read => Watch {
                state: before.state,
                cursor: before.state.end(),
                received: before.received + before.state.sent_text(before.cursor),
            },
        }
    }
}

/// Whether the reply has ended after the steps.
pub open spec fn ended(steps: Seq<Step>) -> bool
    decreases steps.len(),
{
    steps.len() > 0 && (steps.last() is End || ended(steps.drop_last()))
}

/// The text of the events that the steps push before the reply ends, put together.
pub open spec fn pushed_text(steps: Seq<Step>) -> Seq<char>
    decreases steps.len(),
{
    if steps.len() == 0 {
        Seq::empty()
    } else {
        pushed_text(steps.drop_last()) + match steps.last() {
            Step::Push(event) => if ended(steps.drop_last()) {
                Seq::empty()
            } else {
                event.chunk()
            },
            _ => Seq::empty(),
        }
    }
}

/// Whether a cursor stands where its two parts agree: the text that it counts is the merged text
/// and the buffered text below its number, or a part of the merged text, with no buffered text
/// below its number.
spec fn stands(state: ReplayState, cursor: Cursor) -> bool {
    &&& cursor.seq <= state.next
    &&& cursor.text <= state.text
    &&& (if cursor.text >= state.prefix.len() {
        cursor.text as int
    } else {
        state.prefix.len() as int
    }) == state.prefix.len() + text_before(state.entries, cursor.seq).len()
}

/// Merging takes the buffered text below a number first.
proof fn lemma_merged_before(entries: Seq<Entry>, target: nat, next: int, seq: u64)
    requires
        numbered(entries, next),
    ensures
        text_before(kept(entries, target), seq).len() == (if text_before(entries, seq).len()
            > merged(entries, target).len() {
            text_before(entries, seq).len() - merged(entries, target).len()
        } else {
            0
        }),
    decreases entries.len(),
{
    if entries.len() == 0 || target == 0 {
    } else {
        let tail = entries.drop_first();
        lemma_numbered_tail(entries, next);
        if entries[0].seq >= seq {
            assert forall|i: int| 0 <= i < entries.len() implies (#[trigger] entries[i]).seq
                >= seq by {
                if i > 0 {
                    assert(entries[0].seq < entries[i].seq);
                }
            }
            lemma_none_before(entries, seq);
            lemma_kept_numbered(entries, target, next);
            lemma_none_before(kept(entries, target), seq);
        } else if entries[0].event is TextChunk {
            lemma_merged_before(tail, (target - 1) as nat, next, seq);
        } else {
            lemma_merged_before(tail, target, next, seq);
            let rest = kept(tail, target);
            assert((seq![entries[0]] + rest).drop_first() =~= rest);
        }
    }
}

/// Of the entries, none has a number below `seq`.
proof fn lemma_none_before(entries: Seq<Entry>, seq: u64)
    requires
        forall|i: int| 0 <= i < entries.len() ==> (#[trigger] entries[i]).seq >= seq,
    ensures
        text_before(entries, seq).len() == 0,
    decreases entries.len(),
{
    if entries.len() > 0 {
        let tail = entries.drop_first();
        assert forall|i: int| 0 <= i < tail.len() implies (#[trigger] tail[i]).seq >= seq by {
            assert(tail[i] == entries[i + 1]);
        }
        lemma_none_before(tail, seq);
    }
}

/// The buffered text is that below a number, then that from the number on.
proof fn lemma_split_text(entries: Seq<Entry>, next: int, seq: u64)
    requires
        numbered(entries, next),
    ensures
        text_in(entries) == text_before(entries, seq) + text_of(since(entries, seq)),
    decreases entries.len(),
{
    if entries.len() > 0 {
        let tail = entries.drop_first();
        let first = entries[0].event.chunk();
        lemma_numbered_tail(entries, next);
        lemma_split_text(tail, next, seq);
        let rest = since(tail, seq);
        if entries[0].seq >= seq {
            assert forall|i: int| 0 <= i < entries.len() implies (#[trigger] entries[i]).seq
                >= seq by {
                if i > 0 {
                    assert(entries[0].seq < entries[i].seq);
                }
            }
            assert forall|i: int| 0 <= i < tail.len() implies (#[trigger] tail[i]).seq >= seq by {
                assert(tail[i] == entries[i + 1]);
            }
            lemma_none_before(entries, seq);
            lemma_none_before(tail, seq);
            let sent = seq![entries[0].event] + rest;
            assert(sent.drop_first() =~= rest);
            assert(sent[0] == entries[0].event);
            assert(text_in(entries) =~= text_before(entries, seq) + text_of(sent));
        } else {
            assert(since(entries, seq) =~= rest);
            assert(text_in(entries) =~= text_before(entries, seq) + text_of(rest));
        }
    } else {
        assert(text_in(entries) =~= text_before(entries, seq) + text_of(since(entries, seq)));
    }
}

/// A cursor still stands after a push.
proof fn lemma_push_stands(state: ReplayState, cursor: Cursor, event: ChatStreamEvent)
    requires
        state.inv(),
        stands(state, cursor),
    ensures
        stands(state.pushed(event), cursor),
{
    if !state.done && state.has_room(event) {
        let target = COALESCE_TARGET as nat;
        let base = state.thinned();
        lemma_merged_before(state.entries, target, state.next, cursor.seq);
        lemma_kept_len(state.entries, target);
        assert(stands(base, cursor));
        let entry = Entry { seq: state.next as u64, event };
        let entries = base.entries.push(entry);
        lemma_push_entry(base.entries, entry);
        assert(text_before(entries, cursor.seq) =~= text_before(base.entries, cursor.seq));
        if entries.len() > MAX_BUFFERED_EVENTS {
            lemma_chunk_bound(base.entries);
            let cut = entries.skip(1);
            assert(entries.drop_first() =~= cut);
            assert(entries[0] == base.entries[0]);
            assert(text_before(entries, cursor.seq).len() == text_before(cut, cursor.seq).len());
        }
    }
}

/// A read sends the text after what its cursor counts.
proof fn lemma_read_goes_on(state: ReplayState, cursor: Cursor)
    requires
        state.inv(),
        stands(state, cursor),
    ensures
        state.streamed_text().take(cursor.text as int) + state.sent_text(cursor)
            == state.streamed_text(),
        stands(state, state.end()),
{
    let all = state.streamed_text();
    let before = text_before(state.entries, cursor.seq);
    lemma_split_text(state.entries, state.next, cursor.seq);
    assert(all.take(cursor.text as int) + state.sent_text(cursor) =~= all);
    let end = state.end();
    lemma_split_text(state.entries, state.next, end.seq);
    lemma_none_since(state.entries, end.seq);
    assert(text_before(state.entries, end.seq) =~= text_in(state.entries));
}

proof fn lemma_watched(steps: Seq<Step>)
    requires
        steps.len() < u64::MAX,
        pushed_text(steps).len() <= u64::MAX,
    ensures
        ({
            let w = watched(steps);
            &&& w.state.inv()
            &&& w.state.done == ended(steps)
            &&& w.state.next <= steps.len()
            &&& w.state.streamed_text() == pushed_text(steps)
            &&& stands(w.state, w.cursor)
            &&& w.received == pushed_text(steps).take(w.cursor.text as int)
            &&& w.cursor.text <= pushed_text(steps).len()
        }),
    decreases steps.len(),
{
    if steps.len() == 0 {
        assert(ReplayState::fresh().streamed_text() =~= pushed_text(steps));
        assert(watched(steps).received =~= pushed_text(steps).take(0));
    } else {
        let earlier = steps.drop_last();
        lemma_watched(earlier);
        let before = watched(earlier);
        match steps.last() {
            Step::Push(event) => {
                law_push_keeps_text(before.state, event);
                lemma_push_stands(before.state, before.cursor, event);
                assert(pushed_text(steps).take(before.cursor.text as int) =~= pushed_text(
                    earlier,
                ).take(before.cursor.text as int));
                if ended(earlier) {
                    assert(pushed_text(steps) =~= pushed_text(earlier));
                }
            },
            Step::End => {
                assert(pushed_text(steps) =~= pushed_text(earlier));
            },
            Step::Read => {
                lemma_read_goes_on(before.state, before.cursor);
                assert(pushed_text(steps) =~= pushed_text(earlier));
                assert(watched(steps).received =~= pushed_text(steps).take(
                    before.state.end().text as int,
                ));
            },
        }
    }
}

/// A reader is sent the whole text, each piece once and in order, whenever it reads and however
/// often old text is merged meanwhile: what its reads were sent, put together, is the beginning
/// of the text pushed, and after a read it is all of it. That holds while the reply goes on and
/// after its end, which a read reports.
pub proof fn law_reads_add_up_to_the_text(steps: Seq<Step>)
    requires
        steps.len() < u64::MAX,
        pushed_text(steps).len() <= u64::MAX,
    ensures
        watched(steps).received.is_prefix_of(pushed_text(steps)),
        steps.len() > 0 && steps.last() is Read ==> watched(steps).received == pushed_text(steps),
        watched(steps).state.done == ended(steps),
{
    lemma_watched(steps);
    if steps.len() > 0 && steps.last() is Read {
        lemma_watched(steps.drop_last());
        assert(pushed_text(steps) =~= pushed_text(steps.drop_last()));
        assert(watched(steps).received =~= pushed_text(steps));
    }
}

// ---------------------------------------------------------------------------
// The sessions with a reply
// ---------------------------------------------------------------------------

/// The current reply of each chat session.
pub struct InFlightChat {
    runs: Runs,
}

impl View for InFlightChat {
    type V = Map<Seq<char>, Run>;

    closed spec fn view(&self) -> Map<Seq<char>, Run> {
        self.runs@
    }
}

impl InFlightChat {
    /// The table of runs is sound.
    pub closed spec fn wf(&self) -> bool {
        self.runs.wf()
    }

    /// The number that the next reply gets.
    pub closed spec fn next_number(&self) -> u64 {
        self.runs.next_number()
    }

    /// No replies.
    pub fn new() -> (r: Self)
        ensures
            r.wf(),
            r@ == Map::<Seq<char>, Run>::empty(),
            r.next_number() == 0,
    {
        InFlightChat { runs: Runs::new() }
    }

    /// Reserves the session for a new reply, unless one is running: the result is the reply's
    /// number. A reply that has ended is replaced at once.
    pub fn try_start(&mut self, session_id: &str) -> (r: Option<u64>)
        requires
            old(self).wf(),
        ensures
            final(self).wf(),
            r == (if can_start(old(self)@, old(self).next_number(), session_id@) {
                Some(old(self).next_number())
            } else {
                None
            }),
            final(self)@ == started(old(self)@, old(self).next_number(), session_id@),
            final(self).next_number() == old(self).next_number() + (if r is Some {
                1int
            } else {
                0int
            }),
    {
        self.runs.try_start(session_id)
    }

    /// The session's reply, running or ended.
    pub fn get(&self, session_id: &str) -> (r: Option<&Run>)
        requires
            self.wf(),
        ensures
            r == (if self@.dom().contains(session_id@) {
                Some(&self@[session_id@])
            } else {
                None
            }),
    {
        self.runs.get(session_id)
    }

    /// Whether the session has a reply that has not ended.
    pub fn is_running(&self, session_id: &str) -> (r: bool)
        requires
            self.wf(),
        ensures
            r == running(self@, session_id@),
    {
        self.runs.is_running(session_id)
    }

    /// Records that a reply has ended.
    pub fn finish(&mut self, session_id: &str, number: u64)
        requires
            old(self).wf(),
        ensures
            final(self).wf(),
            final(self).next_number() == old(self).next_number(),
            final(self)@ == (if old(self)@.dom().contains(session_id@)
                && old(self)@[session_id@].number == number {
                old(self)@.insert(session_id@, (Run { number, done: true }))
            } else {
                old(self)@
            }),
    {
        self.runs.finish(session_id, number)
    }

    /// Gives up a reservation, or forgets a reply whose retention has passed.
    pub fn abandon(&mut self, session_id: &str)
        requires
            old(self).wf(),
        ensures
            final(self).wf(),
            final(self).next_number() == old(self).next_number(),
            final(self)@ == old(self)@.remove(session_id@),
    {
        self.runs.remove(session_id)
    }
}

} // verus!
