//! The page of messages between agents.

use crate::clock::{Moment, STAMP_PATTERN};
use crate::ids::{format_uuid, uuid_text};
use crate::json::{compact, compact_text, Json};
use crate::sort::{law_sorting_orders_the_rows, ranked, sort_rows, Ranked};
use crate::text::{first_chars, take_chars};
use vstd::prelude::*;

verus! {

/// Who a message goes to.
pub enum MessageTarget {
    Direct(u128),
    DirectByName(String),
    Group(u128),
    Broadcast,
}

/// What a message says.
pub enum MessageContent {
    Text(String),
    Structured(Json),
    TaskDelegation { prompt: String },
    TaskResult { task_id: u128 },
}

/// A message from one agent.
pub struct AgentMessage {
    pub id: u128,
    pub from: u128,
    pub to: MessageTarget,
    pub at: Moment,
    pub trace_id: u128,
    pub content: MessageContent,
}

/// Who a message goes to, as it is shown.
pub open spec fn target_text(target: MessageTarget) -> Seq<char> {
    match target {
        MessageTarget::Direct(id) => "Direct:"@ + uuid_text(id),
        MessageTarget::DirectByName(name) => "DirectByName:"@ + name@,
        MessageTarget::Group(id) => "Group:"@ + uuid_text(id),
        MessageTarget::Broadcast => "Broadcast"@,
    }
}

/// Who a message goes to, as it is shown.
pub fn target_label(target: &MessageTarget) -> (r: String)
    ensures
        r@ == target_text(*target),
{
    match target {
        MessageTarget::Direct(id) => {
            let t: String = format_uuid(*id);
            let mut out: String = "Direct:".to_owned();
            out.push_str(t.as_str());
            out
        },
        MessageTarget::DirectByName(name) => {
            let mut out: String = "DirectByName:".to_owned();
            out.push_str(name.as_str());
            out
        },
        MessageTarget::Group(id) => {
            let t: String = format_uuid(*id);
            let mut out: String = "Group:".to_owned();
            out.push_str(t.as_str());
            out
        },
        MessageTarget::Broadcast => "Broadcast".to_owned(),
    }
}

/// The beginning of a message.
pub open spec fn preview_text(content: MessageContent) -> Seq<char> {
    match content {
        MessageContent::Text(t) => take_chars(t@, 200),
        MessageContent::Structured(v) => take_chars(compact_text(v@), 200),
        MessageContent::TaskDelegation { prompt } => "TaskDelegation: "@ + take_chars(prompt@, 160),
        MessageContent::TaskResult { task_id } => "TaskResult: "@ + uuid_text(task_id),
    }
}

/// The beginning of a message.
pub fn content_preview(content: &MessageContent) -> (r: String)
    ensures
        r@ == preview_text(*content),
{
    match content {
        MessageContent::Text(t) => first_chars(t.as_str(), 200),
        MessageContent::Structured(v) => {
            let t: String = compact(v);
            first_chars(t.as_str(), 200)
        },
        MessageContent::TaskDelegation { prompt } => {
            let head: String = first_chars(prompt.as_str(), 160);
            let mut out: String = "TaskDelegation: ".to_owned();
            out.push_str(head.as_str());
            out
        },
        MessageContent::TaskResult { task_id } => {
            let t: String = format_uuid(*task_id);
            let mut out: String = "TaskResult: ".to_owned();
            out.push_str(t.as_str());
            out
        },
    }
}

impl<'a> Ranked for &'a AgentMessage {
    /// The later message first.
    open spec fn precedes(self, other: Self) -> bool {
        other.at.before(self.at)
    }

    fn goes_before(&self, other: &Self) -> (r: bool) {
        other.at.is_before(self.at)
    }

    proof fn asymmetric(a: Self, b: Self) {
    }

    proof fn transitive(a: Self, b: Self, c: Self) {
    }
}

/// Whether one of the messages has the id.
pub open spec fn has_message(rows: Seq<&AgentMessage>, id: u128) -> bool {
    exists|i: int| 0 <= i < rows.len() && (#[trigger] rows[i]).id == id
}

/// Each message once: where it first stands.
pub open spec fn once<'a>(all: Seq<AgentMessage>) -> Seq<&'a AgentMessage>
    decreases all.len(),
{
    if all.len() == 0 {
        Seq::empty()
    } else {
        let before = once::<'a>(all.drop_last());
        if has_message(before, all.last().id) {
            before
        } else {
            before.push(&all.last())
        }
    }
}

fn message_listed(rows: &Vec<&AgentMessage>, id: u128) -> (r: bool)
    ensures
        r == has_message(rows@, id),
{
    let mut i: usize = 0;
    while i < rows.len()
        invariant
            i <= rows@.len(),
            forall|k: int| 0 <= k < i ==> (#[trigger] rows@[k]).id != id,
        decreases rows.len() - i,
    {
        if rows[i].id == id {
            assert(rows@[i as int].id == id);
            return true;
        }
        i += 1;
    }
    false
}

/// The messages of the page: each one once, the latest first. `all` holds the history of one
/// agent behind that of another, so that a message stands there for each agent it touches.
pub fn page<'a>(all: &'a Vec<AgentMessage>) -> (r: Vec<&'a AgentMessage>)
    ensures
        r@ == ranked(once::<'a>(all@)),
{
    let mut rows: Vec<&'a AgentMessage> = Vec::new();
    let mut i: usize = 0;
    assert(all@.take(0) =~= Seq::<AgentMessage>::empty());
    while i < all.len()
        invariant
            i <= all@.len(),
            rows@ == once::<'a>(all@.take(i as int)),
        decreases all.len() - i,
    {
        assert(all@.take(i + 1).drop_last() =~= all@.take(i as int));
        assert(all@.take(i + 1).last() == all@[i as int]);
        if !message_listed(&rows, all[i].id) {
            rows.push(&all[i]);
        }
        i += 1;
    }
    assert(all@.take(i as int) =~= all@);
    sort_rows(rows)
}

/// No message is listed twice, and none is left out.
pub proof fn law_each_message_is_listed_once<'a>(all: Seq<AgentMessage>)
    ensures
        forall|i: int, j: int|
            0 <= i < j < once::<'a>(all).len() ==> (#[trigger] once::<'a>(all)[i]).id != (
            #[trigger] once::<'a>(all)[j]).id,
        forall|i: int| 0 <= i < all.len() ==> has_message(once::<'a>(all), (#[trigger] all[i]).id),
    decreases all.len(),
{
    if all.len() > 0 {
        law_each_message_is_listed_once(all.drop_last());
        let before = once::<'a>(all.drop_last());
        let now = once::<'a>(all);
        assert forall|i: int| 0 <= i < all.len() implies has_message(now, (#[trigger] all[i]).id) by {
            if i < all.len() - 1 {
                assert(all.drop_last()[i] == all[i]);
                let k = choose|k: int| 0 <= k < before.len() && (#[trigger] before[k]).id == all[i].id;
                assert(now[k].id == all[i].id);
            } else if !has_message(before, all.last().id) {
                assert(now[now.len() - 1].id == all[i].id);
            }
        }
    }
}

/// When a message was sent, as it is shown.
pub fn sent_at(msg: &AgentMessage) -> (r: String)
    ensures
        r@ == msg.at.stamped(STAMP_PATTERN@),
{
    msg.at.stamp(STAMP_PATTERN)
}

/// A message shows whom it goes to: an agent or a group by its id, an agent by its name, or all.
/// No two of these look alike.
pub proof fn law_targets_are_told_apart(id: u128, name: String)
    ensures
        target_text(MessageTarget::Direct(id)) == "Direct:"@ + uuid_text(id),
        target_text(MessageTarget::DirectByName(name)) == "DirectByName:"@ + name@,
        target_text(MessageTarget::Group(id)) == "Group:"@ + uuid_text(id),
        target_text(MessageTarget::Broadcast) == "Broadcast"@,
        target_text(MessageTarget::Direct(id)) != target_text(MessageTarget::Group(id)),
{
    reveal_strlit("Direct:");
    reveal_strlit("Group:");
    assert(("Direct:"@ + uuid_text(id))[0] == 'D');
    assert(("Group:"@ + uuid_text(id))[0] == 'G');
}

/// The preview of a message is its beginning: two hundred characters of a text, and all of one
/// that is no longer.
pub proof fn law_previews_are_beginnings(text: String, prompt: String)
    ensures
        text@.len() <= 200 ==> preview_text(MessageContent::Text(text)) == text@,
        text@.len() > 200 ==> preview_text(MessageContent::Text(text)) == text@.subrange(0, 200),
        prompt@.len() <= 160 ==> preview_text(MessageContent::TaskDelegation { prompt })
            == "TaskDelegation: "@ + prompt@,
        prompt@.len() > 160 ==> preview_text(MessageContent::TaskDelegation { prompt })
            == "TaskDelegation: "@ + prompt@.subrange(0, 160),
{
}

/// Messages are listed from the newest to the oldest.
pub proof fn law_messages_are_listed_newest_first(rows: Seq<&AgentMessage>, i: int, j: int)
    requires
        0 <= i < j < rows.len(),
    ensures
        ranked(rows).len() == rows.len(),
        ranked(rows).to_multiset() == rows.to_multiset(),
        !ranked(rows)[i].at.before(ranked(rows)[j].at),
{
    law_sorting_orders_the_rows(rows);
    assert(!ranked(rows)[j].precedes(ranked(rows)[i]));
}

} // verus!
