//! The answer to a request: a status and a text.

use crate::ids::{uuid_number, uuid_value};
use crate::text::{contains_text, ends_with, occurs_at, starts_with};
use vstd::prelude::*;

verus! {

/// A status code and the text sent with it.
pub struct Reply {
    pub status: u16,
    pub body: String,
}

/// What came back from a lookup.
pub enum Lookup<T> {
    Found(T),
    Missing,
    /// The lookup itself failed.
    Failed,
}

impl Reply {
    /// Whether the reply has this status and this text.
    pub open spec fn is(self, status: int, body: Seq<char>) -> bool {
        self.status == status && self.body@ == body
    }

    /// A reply with this status and this text.
    pub fn new(status: u16, body: &str) -> (r: Self)
        ensures
            r.is(status as int, body@),
    {
        Reply { status, body: body.to_owned() }
    }
}

/// What is told where a named thing could not be dealt with.
pub open spec fn failure_text(action: Seq<char>, name: Seq<char>, error: Seq<char>) -> Seq<char> {
    "Failed to "@ + action + " '"@ + name + "': "@ + error
}

/// The answer where a named thing could not be dealt with.
pub fn failure(action: &str, name: &str, error: &str) -> (r: Reply)
    ensures
        r.is(400, failure_text(action@, name@, error@)),
{
    let mut body: String = "Failed to ".to_owned();
    body.push_str(action);
    body.push_str(" '");
    body.push_str(name);
    body.push_str("': ");
    body.push_str(error);
    Reply { status: 400, body }
}

/// The number of an id, or the complaint that it is none.
pub fn checked_id(id: &str, complaint: &str) -> (r: Result<u128, Reply>)
    ensures
        match r {
            Ok(n) => uuid_value(id@) == Some(n),
            Err(reply) => uuid_value(id@) is None && reply.is(400, complaint@),
        },
{
    match uuid_number(id) {
        Some(n) => Ok(n),
        None => Err(Reply::new(400, complaint)),
    }
}

/// What is told of a failure holds what was tried, the thing it was tried on and why it failed.
pub proof fn law_failures_say_what_went_wrong(
    action: Seq<char>,
    name: Seq<char>,
    error: Seq<char>,
)
    ensures
        starts_with(failure_text(action, name, error), "Failed to "@ + action),
        contains_text(failure_text(action, name, error), "'"@ + name + "'"@),
        ends_with(failure_text(action, name, error), error),
{
    reveal_strlit(" '");
    reveal_strlit("'");
    reveal_strlit("': ");
    let s = failure_text(action, name, error);
    let head = "Failed to "@ + action;
    let quoted = "'"@ + name + "'"@;
    assert(s.subrange(0, head.len() as int) =~= head);
    let at = head.len() + 1;
    assert(s.subrange(at as int, (at + quoted.len()) as int) =~= quoted);
    assert(occurs_at(s, quoted, at as int));
    assert(s.subrange(s.len() - error.len(), s.len() as int) =~= error);
}

} // verus!
