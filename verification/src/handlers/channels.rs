//! The channels page: ways by which messages come in and go out.

use crate::ids::uuid_value;
use crate::reply::{checked_id, failure, failure_text, Reply};
use vstd::prelude::*;

verus! {

/// The number of a channel's id.
pub fn check_channel_id(id: &str) -> (r: Result<u128, Reply>)
    ensures
        match r {
            Ok(n) => uuid_value(id@) == Some(n),
            Err(reply) => uuid_value(id@) is None && reply.is(400, "Invalid channel ID"@),
        },
{
    checked_id(id, "Invalid channel ID")
}

/// The answer where a channel could not be disconnected.
pub fn disconnect_failed(id: &str, error: &str) -> (r: Reply)
    ensures
        r.is(400, failure_text("disconnect channel"@, id@, error@)),
{
    failure("disconnect channel", id, error)
}

} // verus!
