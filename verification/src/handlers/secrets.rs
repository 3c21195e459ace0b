//! The secrets page: where a secret is seen, and what is told of it.

use crate::ids::{uuid_number, uuid_value};
use crate::json::compact_text;
use crate::reply::Reply;
use crate::text::{
    byte_len, contains_text, lowercased, opt_text, same, starts_with, str_contains,
    str_strip_prefix, strip_prefix, utf8_len,
};
use crate::toast::{toast, toast_json};
use vstd::prelude::*;

verus! {

/// What the list is asked for.
pub struct ListQuery {
    pub partial: Option<String>,
}

/// Whether the rows alone are asked for.
pub fn wants_rows(query: &ListQuery) -> (r: bool)
    ensures
        r <==> opt_text(query.partial) == Some("list"@),
{
    match &query.partial {
        Some(p) => same(p.as_str(), "list"),
        None => false,
    }
}

/// The form that stores a secret.
pub struct CreateForm {
    pub name: String,
    pub value: String,
    pub scope: Option<String>,
}

/// The most bytes that a secret has.
pub const MAX_SECRET_BYTES: usize = 65536;

/// Who sees a secret.
#[derive(Clone, Copy, PartialEq, Eq, Structural, Debug)]
pub enum SecretScope {
    Global,
    Kernel,
    Agent(u128),
    Tool(u128),
}

/// Who sees a secret, or what is wrong with the word for it.
pub open spec fn scope_named(scope: Option<Seq<char>>) -> Result<SecretScope, Seq<char>> {
    match scope {
        None => Ok(SecretScope::Global),
        Some(word) => if word == "global"@ {
            Ok(SecretScope::Global)
        } else if word == "kernel"@ {
            Ok(SecretScope::Kernel)
        } else if strip_prefix(word, "agent:"@) is Some {
            match uuid_value(strip_prefix(word, "agent:"@)->0) {
                Some(id) => Ok(SecretScope::Agent(id)),
                None => Err("Invalid agent ID in scope: expected 'agent:<uuid>'"@),
            }
        } else if strip_prefix(word, "tool:"@) is Some {
            match uuid_value(strip_prefix(word, "tool:"@)->0) {
                Some(id) => Ok(SecretScope::Tool(id)),
                None => Err("Invalid tool ID in scope: expected 'tool:<uuid>'"@),
            }
        } else {
            Err(
                "Unrecognized scope. Use 'global', 'kernel', 'agent:<uuid>', or 'tool:<uuid>'."@,
            )
        },
    }
}

/// Who sees a secret.
pub fn parse_scope(scope: &Option<String>) -> (r: Result<SecretScope, Reply>)
    ensures
        match r {
            Ok(s) => scope_named(opt_text(*scope)) == Ok::<SecretScope, Seq<char>>(s),
            Err(reply) => scope_named(opt_text(*scope)) matches Err(e) && reply.is(400, e),
        },
{
    let word: &str = match scope {
        None => {
            return Ok(SecretScope::Global);
        },
        Some(word) => word.as_str(),
    };
    if same(word, "global") {
        return Ok(SecretScope::Global);
    }
    if same(word, "kernel") {
        return Ok(SecretScope::Kernel);
    }
    if let Some(id) = str_strip_prefix(word, "agent:") {
        return match uuid_number(id.as_str()) {
            Some(n) => Ok(SecretScope::Agent(n)),
            None => Err(Reply::new(400, "Invalid agent ID in scope: expected 'agent:<uuid>'")),
        };
    }
    if let Some(id) = str_strip_prefix(word, "tool:") {
        return match uuid_number(id.as_str()) {
            Some(n) => Ok(SecretScope::Tool(n)),
            None => Err(Reply::new(400, "Invalid tool ID in scope: expected 'tool:<uuid>'")),
        };
    }
    Err(
        Reply::new(
            400,
            "Unrecognized scope. Use 'global', 'kernel', 'agent:<uuid>', or 'tool:<uuid>'.",
        ),
    )
}

/// Reads the form that stores a secret: who sees it.
pub fn check_create(form: &CreateForm) -> (r: Result<SecretScope, Reply>)
    ensures
        match r {
            Ok(s) => utf8_len(form.value@) <= MAX_SECRET_BYTES && scope_named(opt_text(form.scope))
                == Ok::<SecretScope, Seq<char>>(s),
            Err(reply) => {
                ||| utf8_len(form.value@) > MAX_SECRET_BYTES && reply.is(
                    413,
                    "Secret value too large (max 64 KiB)"@,
                )
                ||| utf8_len(form.value@) <= MAX_SECRET_BYTES && (scope_named(
                    opt_text(form.scope),
                ) matches Err(e) && reply.is(400, e))
            },
        },
{
    if byte_len(form.value.as_str()) > MAX_SECRET_BYTES {
        return Err(Reply::new(413, "Secret value too large (max 64 KiB)"));
    }
    parse_scope(&form.scope)
}

/// What becomes of a stored secret.
pub enum SaveReply {
    /// Back to the list, with a message.
    Saved { trigger: String },
    Refused { reply: Reply, trigger: String },
}

/// The answer to the form that stores a secret, by what was wrong.
pub fn saved(error: Option<&str>) -> (r: SaveReply)
    ensures
        match error {
            None => r matches SaveReply::Saved { trigger } && trigger@ == compact_text(
                toast_json("Secret saved"@, "success"@),
            ),
            Some(e) => r matches SaveReply::Refused { reply, trigger } && reply.is(
                400,
                "Failed to create secret: "@ + e@,
            ) && trigger@ == compact_text(toast_json("Failed to save secret"@, "error"@)),
        },
{
    match error {
        None => SaveReply::Saved { trigger: toast("Secret saved", "success") },
        Some(e) => {
            let mut body: String = "Failed to create secret: ".to_owned();
            body.push_str(e);
            SaveReply::Refused {
                reply: Reply { status: 400, body },
                trigger: toast("Failed to save secret", "error"),
            }
        },
    }
}

/// Whether an error says that a thing is not there.
pub open spec fn says_missing(error: Seq<char>) -> bool {
    contains_text(lowercased(error), "not found"@)
}

/// Whether an error says that a thing is not there.
pub fn tells_missing(error: &str) -> (r: bool)
    ensures
        r == says_missing(error@),
{
    let low: String = error.to_lowercase();
    str_contains(low.as_str(), "not found")
}

/// The answer to a request that revokes a secret, by what was wrong: a status, and a message.
pub fn revoked(error: Option<&str>) -> (r: (u16, Option<String>))
    ensures
        match error {
            None => r.0 == 204 && opt_text(r.1) == Some(
                compact_text(toast_json("Secret revoked"@, "success"@)),
            ),
            Some(e) => if says_missing(e@) {
                r.0 == 404 && r.1 is None
            } else {
                r.0 == 500 && opt_text(r.1) == Some(
                    compact_text(toast_json("Failed to revoke secret"@, "error"@)),
                )
            },
        },
{
    match error {
        None => (204, Some(toast("Secret revoked", "success"))),
        Some(e) => if tells_missing(e) {
            (404, None)
        } else {
            (500, Some(toast("Failed to revoke secret", "error")))
        },
    }
}

/// A secret is seen by all where nothing else is said, by the kernel where it is said so, and by
/// the agent or the tool whose id is named. Anything else is refused.
pub proof fn law_scopes_say_who_sees_a_secret(id: Seq<char>, word: Seq<char>)
    ensures
        scope_named(None) == Ok::<SecretScope, Seq<char>>(SecretScope::Global),
        scope_named(Some("global"@)) == Ok::<SecretScope, Seq<char>>(SecretScope::Global),
        scope_named(Some("kernel"@)) == Ok::<SecretScope, Seq<char>>(SecretScope::Kernel),
        uuid_value(id) is Some ==> scope_named(Some("agent:"@ + id)) == Ok::<SecretScope, Seq<char>>(
            SecretScope::Agent(uuid_value(id)->0),
        ),
        uuid_value(id) is Some ==> scope_named(Some("tool:"@ + id)) == Ok::<SecretScope, Seq<char>>(
            SecretScope::Tool(uuid_value(id)->0),
        ),
        uuid_value(id) is None ==> scope_named(Some("agent:"@ + id)) is Err && scope_named(
            Some("tool:"@ + id),
        ) is Err,
        word != "global"@ && word != "kernel"@ && !starts_with(word, "agent:"@) && !starts_with(
            word,
            "tool:"@,
        ) ==> scope_named(Some(word)) is Err,
{
    reveal_strlit("global");
    reveal_strlit("kernel");
    reveal_strlit("agent:");
    reveal_strlit("tool:");
    assert("global"@[0] == 'g' && "kernel"@[0] == 'k');
    let a = "agent:"@ + id;
    assert(a[0] == 'a');
    assert(a.subrange(0, 6) =~= "agent:"@);
    assert(a.subrange(6, a.len() as int) =~= id);
    let t = "tool:"@ + id;
    assert(t[0] == 't');
    assert(t.subrange(0, 5) =~= "tool:"@);
    assert(t.subrange(5, t.len() as int) =~= id);
    if starts_with(t, "agent:"@) {
        assert(t.subrange(0, 6)[0] == t[0]);
    }
    if starts_with("kernel"@, "agent:"@) {
        assert("kernel"@.subrange(0, 6)[0] == 'k');
    }
}

} // verus!
