//! The conversations between agents, and their turns.

use crate::chat_store::first_of;
use crate::ids::{fresh_id, uuid_like};
use crate::json::{
    compact, compact_text, json_strings, parse_json, parsed, string_list, strings, Json,
};
use crate::sort::{law_sorting_orders_the_rows, ranked, sort_rows, Ranked};
use crate::text::{same, texts};
use crate::textmap::{comes_before, lemma_text_total, lemma_text_transitive, text_less};
use vstd::prelude::*;

verus! {

/// How many conversations are listed.
pub const MAX_LISTED: usize = 100;

/// The speaker of turns that a person wrote.
pub const USER_SPEAKER: &'static str = "user";

/// A conversation between agents.
pub struct AgentConvo {
    pub id: String,
    pub topic: String,
    /// The names of the participants, in order.
    pub participants: Vec<String>,
    pub max_turns: u32,
    /// `running`, `complete`, `stopped` or `error`.
    pub status: String,
    pub created_at: String,
    pub updated_at: String,
}

/// A turn of a conversation.
pub struct ConvoTurn {
    pub id: i64,
    pub turn_number: u32,
    pub agent_name: String,
    pub content: String,
    pub tool_call_count: u32,
    pub created_at: String,
}

/// The participants that a stored text names; none where the text is no JSON list of strings.
pub open spec fn participants_in(text: Seq<char>) -> Seq<Seq<char>> {
    match parsed(text) {
        Ok(v) => match strings(v) {
            Some(names) => names,
            None => Seq::empty(),
        },
        Err(_) => Seq::empty(),
    }
}

/// Reads the participants from the text that is stored of them.
pub fn participants_of(text: &str) -> (r: Vec<String>)
    ensures
        texts(r@) == participants_in(text@),
{
    let none: Vec<String> = Vec::new();
    assert(texts(none@) =~= Seq::<Seq<char>>::empty());
    match parse_json(text) {
        Ok(v) => match v.as_strings() {
            Some(names) => names,
            None => none,
        },
        Err(_) => none,
    }
}

/// The text that is stored of the participants: a JSON list, from which they are read back.
pub fn participants_text(participants: &Vec<String>) -> (r: String)
    ensures
        r@ == compact_text(string_list(texts(participants@))),
        participants_in(r@) == texts(participants@),
{
    compact(&json_strings(participants))
}

impl<'a> Ranked for &'a AgentConvo {
    /// The conversation that changed last comes first.
    open spec fn precedes(self, other: Self) -> bool {
        text_less(other.updated_at@, self.updated_at@)
    }

    fn goes_before(&self, other: &Self) -> (r: bool) {
        comes_before(other.updated_at.as_str(), self.updated_at.as_str())
    }

    proof fn asymmetric(a: Self, b: Self) {
        lemma_text_total(a.updated_at@, b.updated_at@);
    }

    proof fn transitive(a: Self, b: Self, c: Self) {
        lemma_text_total(a.updated_at@, b.updated_at@);
        lemma_text_total(b.updated_at@, c.updated_at@);
        lemma_text_total(a.updated_at@, c.updated_at@);
        if text_less(c.updated_at@, b.updated_at@) && text_less(b.updated_at@, a.updated_at@) {
            lemma_text_transitive(c.updated_at@, b.updated_at@, a.updated_at@);
        }
    }
}

impl<'a> Ranked for &'a ConvoTurn {
    /// By number.
    open spec fn precedes(self, other: Self) -> bool {
        self.turn_number < other.turn_number
    }

    fn goes_before(&self, other: &Self) -> (r: bool) {
        self.turn_number < other.turn_number
    }

    proof fn asymmetric(a: Self, b: Self) {
    }

    proof fn transitive(a: Self, b: Self, c: Self) {
    }
}

/// A turn and its conversation.
pub struct TurnRow {
    pub convo_id: String,
    pub turn: ConvoTurn,
}

/// Whether a conversation has this id.
pub open spec fn has_convo(convos: Seq<AgentConvo>, id: Seq<char>) -> bool {
    exists|i: int| 0 <= i < convos.len() && (#[trigger] convos[i]).id@ == id
}

/// The turns of a conversation, in the order in which they came.
pub open spec fn turns_of(rows: Seq<TurnRow>, convo: Seq<char>) -> Seq<&'static ConvoTurn>
    decreases rows.len(),
{
    if rows.len() == 0 {
        Seq::empty()
    } else {
        let before = turns_of(rows.drop_last(), convo);
        if rows.last().convo_id@ == convo {
            before.push(&rows.last().turn)
        } else {
            before
        }
    }
}

/// Whether the conversations are the same but for the status and the time of one. Without a
/// status it keeps its own.
pub open spec fn restated(
    before: Seq<AgentConvo>,
    after: Seq<AgentConvo>,
    id: Seq<char>,
    status: Option<Seq<char>>,
    now: Seq<char>,
) -> bool {
    after.len() == before.len() && forall|i: int|
        0 <= i < before.len() ==> (if before[i].id@ == id {
            (#[trigger] after[i]).id == before[i].id && after[i].topic == before[i].topic
                && after[i].participants == before[i].participants && after[i].max_turns
                == before[i].max_turns && after[i].created_at == before[i].created_at
                && after[i].updated_at@ == now && (match status {
                Some(s) => after[i].status@ == s,
                None => after[i].status == before[i].status,
            })
        } else {
            after[i] == before[i]
        })
}

/// Whether this is what creating a conversation under that id leads to: an id that is taken is
/// refused, and nothing changes then.
pub open spec fn create_outcome(
    before: ConvoStore,
    after: ConvoStore,
    id: Seq<char>,
    topic: Seq<char>,
    participants: Vec<String>,
    max_turns: u32,
    now: Seq<char>,
    r: Option<String>,
) -> bool {
    let c = after.convos@.last();
    if has_convo(before.convos@, id) {
        r is None && after == before
    } else {
        &&& r == Some(c.id)
        &&& after.turns == before.turns
        &&& after.next_id == before.next_id
        &&& after.convos@.len() == before.convos@.len() + 1
        &&& after.convos@.drop_last() == before.convos@
        &&& c.id@ == id && c.topic@ == topic && c.participants == participants && c.max_turns
            == max_turns && c.status@ == "running"@ && c.created_at@ == now && c.updated_at@ == now
    }
}

/// The conversations between agents.
pub struct ConvoStore {
    pub convos: Vec<AgentConvo>,
    pub turns: Vec<TurnRow>,
    pub next_id: i64,
}

impl ConvoStore {
    /// No id stands twice, and every turn belongs to a conversation.
    pub open spec fn wf(self) -> bool {
        &&& forall|i: int, j: int|
            0 <= i < j < self.convos@.len() ==> (#[trigger] self.convos@[i]).id@ != (
            #[trigger] self.convos@[j]).id@
        &&& forall|i: int|
            0 <= i < self.turns@.len() ==> has_convo(
                self.convos@,
                (#[trigger] self.turns@[i]).convo_id@,
            )
    }

    /// A store without conversations.
    pub fn new() -> (r: Self)
        ensures
            r.wf(),
            r.convos@.len() == 0,
            r.turns@.len() == 0,
            r.next_id == 1,
    {
        ConvoStore { convos: Vec::new(), turns: Vec::new(), next_id: 1 }
    }

    fn index_of(&self, id: &str) -> (r: Option<usize>)
        ensures
            match r {
                Some(i) => i < self.convos@.len() && self.convos@[i as int].id@ == id@ && has_convo(
                    self.convos@,
                    id@,
                ),
                None => !has_convo(self.convos@, id@),
            },
    {
        let mut i: usize = 0;
        while i < self.convos.len()
            invariant
                i <= self.convos@.len(),
                forall|k: int| 0 <= k < i ==> (#[trigger] self.convos@[k]).id@ != id@,
            decreases self.convos.len() - i,
        {
            if same(self.convos[i].id.as_str(), id) {
                assert(self.convos@[i as int].id@ == id@);
                return Some(i);
            }
            i += 1;
        }
        None
    }

    /// Creates a running conversation under this id. An id that is taken is refused.
    pub fn create_as(
        &mut self,
        id: String,
        topic: &str,
        participants: Vec<String>,
        max_turns: u32,
        now: &str,
    ) -> (r: Option<String>)
        requires
            old(self).wf(),
        ensures
            final(self).wf(),
            create_outcome(
                *old(self),
                *final(self),
                id@,
                topic@,
                participants,
                max_turns,
                now@,
                r,
            ),
    {
        if let Some(i) = self.index_of(id.as_str()) {
            return None;
        }
        let ghost before = self.convos@;
        self.convos.push(
            AgentConvo {
                id: id.clone(),
                topic: topic.to_owned(),
                participants,
                max_turns,
                status: "running".to_owned(),
                created_at: now.to_owned(),
                updated_at: now.to_owned(),
            },
        );
        proof {
            assert(self.convos@.drop_last() =~= before);
            assert forall|i: int| 0 <= i < self.turns@.len() implies has_convo(
                self.convos@,
                (#[trigger] self.turns@[i]).convo_id@,
            ) by {
                let k = choose|k: int|
                    0 <= k < before.len() && (#[trigger] before[k]).id@ == self.turns@[i].convo_id@;
                assert(self.convos@[k].id@ == self.turns@[i].convo_id@);
            }
        }
        Some(id)
    }

    /// Creates a running conversation under a new random id.
    pub fn create_convo(
        &mut self,
        topic: &str,
        participants: Vec<String>,
        max_turns: u32,
        now: &str,
    ) -> (r: Option<String>)
        requires
            old(self).wf(),
        ensures
            final(self).wf(),
            exists|id: Seq<char>|
                uuid_like(id) && #[trigger] create_outcome(
                    *old(self),
                    *final(self),
                    id,
                    topic@,
                    participants,
                    max_turns,
                    now@,
                    r,
                ),
    {
        self.create_as(fresh_id(), topic, participants, max_turns, now)
    }

    /// The conversation with this id.
    pub fn get_convo(&self, id: &str) -> (r: Option<&AgentConvo>)
        ensures
            match r {
                Some(c) => exists|i: int|
                    0 <= i < self.convos@.len() && (#[trigger] self.convos@[i]).id@ == id@ && *c
                        == self.convos@[i],
                None => !has_convo(self.convos@, id@),
            },
    {
        match self.index_of(id) {
            Some(i) => Some(&self.convos[i]),
            None => None,
        }
    }

    /// The conversations that changed last.
    pub fn list_convos(&self) -> (r: Vec<&AgentConvo>)
        ensures
            r@ == first_of(
                ranked(Seq::new(self.convos@.len(), |i: int| &self.convos@[i])),
                MAX_LISTED as int,
            ),
    {
        let mut all: Vec<&AgentConvo> = Vec::new();
        let mut i: usize = 0;
        while i < self.convos.len()
            invariant
                i <= self.convos@.len(),
                all@.len() == i,
                forall|k: int| 0 <= k < i ==> #[trigger] all@[k] == &self.convos@[k],
            decreases self.convos.len() - i,
        {
            all.push(&self.convos[i]);
            i += 1;
        }
        assert(all@ =~= Seq::new(self.convos@.len(), |i: int| &self.convos@[i]));
        let mut sorted: Vec<&AgentConvo> = sort_rows(all);
        if sorted.len() > MAX_LISTED {
            let ghost whole = sorted@;
            sorted.truncate(MAX_LISTED);
            assert(sorted@ =~= whole.take(MAX_LISTED as int));
        }
        sorted
    }

    /// Adds a turn to a conversation. A conversation that is not there is refused.
    pub fn add_turn(
        &mut self,
        convo_id: &str,
        turn_number: u32,
        agent_name: &str,
        content: &str,
        tool_call_count: u32,
        now: &str,
    ) -> (r: Result<(), ()>)
        requires
            old(self).wf(),
            old(self).next_id < i64::MAX,
        ensures
            final(self).wf(),
            !has_convo(old(self).convos@, convo_id@) ==> r is Err && *final(self) == *old(self),
            has_convo(old(self).convos@, convo_id@) ==> {
                let t = final(self).turns@.last();
                &&& r is Ok
                &&& restated(old(self).convos@, final(self).convos@, convo_id@, None, now@)
                &&& final(self).next_id == old(self).next_id + 1
                &&& final(self).turns@.len() == old(self).turns@.len() + 1
                &&& final(self).turns@.drop_last() == old(self).turns@
                &&& t.convo_id@ == convo_id@ && t.turn.id == old(self).next_id
                    && t.turn.turn_number == turn_number && t.turn.agent_name@ == agent_name@
                    && t.turn.content@ == content@ && t.turn.tool_call_count == tool_call_count
                    && t.turn.created_at@ == now@
            },
    {
        if self.index_of(convo_id).is_none() {
            return Err(());
        }
        let ghost before = self.turns@;
        self.turns.push(
            TurnRow {
                convo_id: convo_id.to_owned(),
                turn: ConvoTurn {
                    id: self.next_id,
                    turn_number,
                    agent_name: agent_name.to_owned(),
                    content: content.to_owned(),
                    tool_call_count,
                    created_at: now.to_owned(),
                },
            },
        );
        self.next_id = self.next_id + 1;
        assert(self.turns@.drop_last() =~= before);
        self.restate(convo_id, None, now);
        Ok(())
    }

    fn restate(&mut self, id: &str, status: Option<&str>, now: &str)
        requires
            old(self).wf(),
        ensures
            final(self).wf(),
            final(self).turns == old(self).turns,
            final(self).next_id == old(self).next_id,
            restated(
                old(self).convos@,
                final(self).convos@,
                id@,
                crate::chat_store::opt_view(status),
                now@,
            ),
    {
        if let Some(i) = self.index_of(id) {
            let ghost before = self.convos@;
            let c: AgentConvo = self.convos.remove(i);
            let status: String = match status {
                Some(s) => s.to_owned(),
                None => c.status,
            };
            self.convos.insert(
                i,
                AgentConvo {
                    id: c.id,
                    topic: c.topic,
                    participants: c.participants,
                    max_turns: c.max_turns,
                    status,
                    created_at: c.created_at,
                    updated_at: now.to_owned(),
                },
            );
            proof {
                let changed = self.convos@[i as int];
                assert(self.convos@ =~= before.update(i as int, changed));
                assert forall|k: int| 0 <= k < before.len() implies (#[trigger] self.convos@[k]).id@
                    == before[k].id@ by {
                }
                assert forall|k: int| 0 <= k < self.turns@.len() implies has_convo(
                    self.convos@,
                    (#[trigger] self.turns@[k]).convo_id@,
                ) by {
                    let n = choose|n: int|
                        0 <= n < before.len() && (#[trigger] before[n]).id@
                            == self.turns@[k].convo_id@;
                    assert(self.convos@[n].id@ == self.turns@[k].convo_id@);
                }
            }
        } else {
            assert(forall|k: int|
                0 <= k < self.convos@.len() ==> (#[trigger] self.convos@[k]).id@ != id@);
        }
    }

    /// The turns of a conversation, by number.
    pub fn get_turns(&self, convo_id: &str) -> (r: Vec<&ConvoTurn>)
        ensures
            r@ == ranked(turns_of(self.turns@, convo_id@)),
    {
        let mut all: Vec<&ConvoTurn> = Vec::new();
        let mut i: usize = 0;
        assert(self.turns@.take(0) =~= Seq::<TurnRow>::empty());
        while i < self.turns.len()
            invariant
                i <= self.turns@.len(),
                all@ == turns_of(self.turns@.take(i as int), convo_id@),
            decreases self.turns.len() - i,
        {
            assert(self.turns@.take(i + 1).drop_last() =~= self.turns@.take(i as int));
            assert(self.turns@.take(i + 1).last() == self.turns@[i as int]);
            if same(self.turns[i].convo_id.as_str(), convo_id) {
                all.push(&self.turns[i].turn);
            }
            i += 1;
        }
        assert(self.turns@.take(i as int) =~= self.turns@);
        sort_rows(all)
    }

    /// Sets the status of a conversation. One that is not there stays away.
    pub fn set_status(&mut self, convo_id: &str, status: &str, now: &str)
        requires
            old(self).wf(),
        ensures
            final(self).wf(),
            final(self).turns == old(self).turns,
            final(self).next_id == old(self).next_id,
            restated(old(self).convos@, final(self).convos@, convo_id@, Some(status@), now@),
    {
        self.restate(convo_id, Some(status), now);
    }
}

/// A turn that is added is read from its conversation and from no other.
pub proof fn law_added_turns_are_read_back(rows: Seq<TurnRow>, row: TurnRow, convo: Seq<char>)
    ensures
        turns_of(rows.push(row), convo) == (if row.convo_id@ == convo {
            turns_of(rows, convo).push(&row.turn)
        } else {
            turns_of(rows, convo)
        }),
{
    assert(rows.push(row).drop_last() =~= rows);
}

/// A new status or a new turn changes one conversation alone, and of it only its status, where
/// one is given, and its time.
pub proof fn law_other_conversations_stay(
    before: Seq<AgentConvo>,
    after: Seq<AgentConvo>,
    id: Seq<char>,
    status: Option<Seq<char>>,
    now: Seq<char>,
    i: int,
)
    requires
        restated(before, after, id, status, now),
        0 <= i < before.len(),
    ensures
        after.len() == before.len(),
        before[i].id@ != id ==> after[i] == before[i],
        before[i].id@ == id ==> {
            &&& after[i].id == before[i].id && after[i].topic == before[i].topic
            &&& after[i].participants == before[i].participants
            &&& after[i].max_turns == before[i].max_turns
            &&& after[i].created_at == before[i].created_at
            &&& after[i].updated_at@ == now
            &&& status is Some ==> after[i].status@ == status->0
            &&& status is None ==> after[i].status == before[i].status
        },
{
    let c = after[i];
}

/// A new conversation runs, with the topic, the participants and the number of turns that were
/// asked for, behind those that there are.
pub proof fn law_new_conversations_run(
    before: ConvoStore,
    after: ConvoStore,
    id: Seq<char>,
    topic: Seq<char>,
    participants: Vec<String>,
    max_turns: u32,
    now: Seq<char>,
    r: Option<String>,
)
    requires
        create_outcome(before, after, id, topic, participants, max_turns, now, r),
    ensures
        r is None <==> has_convo(before.convos@, id),
        r is None ==> after == before,
        r is Some ==> {
            let c = after.convos@.last();
            &&& after.convos@ == before.convos@.push(c)
            &&& after.turns == before.turns
            &&& r->0@ == id && c.id@ == id && c.status@ == "running"@
            &&& c.topic@ == topic && c.participants == participants && c.max_turns == max_turns
            &&& c.created_at@ == now && c.updated_at@ == now
        },
{
    if r is Some {
        assert(after.convos@ =~= after.convos@.drop_last().push(after.convos@.last()));
    }
}

/// Conversations are listed from the one that was used last on, and the turns of one from the
/// first on.
pub proof fn law_conversations_and_turns_are_in_order(
    convos: Seq<&AgentConvo>,
    turns: Seq<&ConvoTurn>,
    i: int,
    j: int,
)
    requires
        0 <= i < j,
    ensures
        j < convos.len() ==> !text_less(
            ranked(convos)[i].updated_at@,
            ranked(convos)[j].updated_at@,
        ),
        j < turns.len() ==> ranked(turns)[i].turn_number <= ranked(turns)[j].turn_number,
        ranked(convos).to_multiset() == convos.to_multiset(),
        ranked(turns).to_multiset() == turns.to_multiset(),
{
    law_sorting_orders_the_rows(convos);
    law_sorting_orders_the_rows(turns);
    if j < convos.len() {
        assert(!ranked(convos)[j].precedes(ranked(convos)[i]));
    }
    if j < turns.len() {
        assert(!ranked(turns)[j].precedes(ranked(turns)[i]));
    }
}

} // verus!
