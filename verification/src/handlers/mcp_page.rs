//! The page of attached servers.

use crate::clock::{Moment, STAMP_PATTERN};
use crate::reply::Reply;
use crate::text::{join, join_strings, opt_text, texts};
use vstd::prelude::*;

verus! {

/// A server that is attached at every start.
pub struct Attachment {
    pub name: String,
    pub command: Option<String>,
    pub args: Vec<String>,
    pub url: Option<String>,
    pub timeout_secs: Option<u64>,
    pub oauth_connector_id: Option<String>,
    pub created_at: Moment,
}

/// An attached server as the page shows it.
pub struct AttachmentRow {
    pub name: String,
    pub command: String,
    pub args: String,
    pub url: String,
    pub timeout_secs: u64,
    pub oauth_connector_id: String,
    pub created_at: String,
}

/// The text, or the empty one.
pub open spec fn or_empty(o: Option<Seq<char>>) -> Seq<char> {
    match o {
        Some(t) => t,
        None => ""@,
    }
}

fn text_or_empty(o: Option<String>) -> (r: String)
    ensures
        r@ == or_empty(opt_text(o)),
{
    match o {
        Some(t) => t,
        None => "".to_owned(),
    }
}

/// The attached server as the page shows it: what is not set is empty or zero.
pub fn attachment_row(a: Attachment) -> (r: AttachmentRow)
    ensures
        r.name == a.name,
        r.command@ == or_empty(opt_text(a.command)),
        r.args@ == join(texts(a.args@), " "@),
        r.url@ == or_empty(opt_text(a.url)),
        r.timeout_secs == (match a.timeout_secs {
            Some(n) => n,
            None => 0,
        }),
        r.oauth_connector_id@ == or_empty(opt_text(a.oauth_connector_id)),
        r.created_at@ == a.created_at.stamped(STAMP_PATTERN@),
{
    AttachmentRow {
        name: a.name,
        command: text_or_empty(a.command),
        args: join_strings(a.args.as_slice(), " "),
        url: text_or_empty(a.url),
        timeout_secs: match a.timeout_secs {
            Some(n) => n,
            None => 0,
        },
        oauth_connector_id: text_or_empty(a.oauth_connector_id),
        created_at: a.created_at.stamp(STAMP_PATTERN),
    }
}

/// The answer where no server was detached: neither one that runs nor one that is stored.
pub fn detach(name: &str, removed_runtime: bool, removed_persisted: bool) -> (r: Option<Reply>)
    ensures
        match r {
            Some(reply) => !removed_runtime && !removed_persisted && reply.is(
                404,
                "MCP server '"@ + name@ + "' not found"@,
            ),
            None => removed_runtime || removed_persisted,
        },
{
    if removed_runtime || removed_persisted {
        None
    } else {
        let mut body: String = "MCP server '".to_owned();
        body.push_str(name);
        body.push_str("' not found");
        Some(Reply { status: 404, body })
    }
}

} // verus!
