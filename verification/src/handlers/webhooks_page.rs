//! The webhooks page: the endpoints that others call, and their secrets.

use crate::ids::{format_uuid, uuid_text, uuid_value};
use crate::reply::{checked_id, failure, failure_text, Reply};
use crate::text::{
    chars_of, law_trimming_cuts_the_ends, lower_ascii, lower_ascii_chars, opt_text, same, string_of,
    trim, trimmed, whitespace,
};
use vstd::prelude::*;

verus! {

/// What the list page is asked for. A secret in it is never shown.
pub struct ListQuery {
    pub created_id: Option<String>,
    pub created_secret: Option<String>,
    pub rotated_from: Option<String>,
}

/// The form that makes an endpoint.
pub struct CreateWebhookForm {
    pub agent_name: String,
    pub provider: String,
    pub debounce_seconds: Option<u64>,
}

/// Who calls an endpoint.
#[derive(Clone, Copy, PartialEq, Eq, Structural, Debug)]
pub enum WebhookProvider {
    GitHub,
    Stripe,
    Slack,
    PagerDuty,
    Generic,
}

/// The provider of this name, whatever its case and the blanks around it.
pub open spec fn provider_named(name: Seq<char>) -> Option<WebhookProvider> {
    let word = lower_ascii(trim(name));
    if word == "github"@ {
        Some(WebhookProvider::GitHub)
    } else if word == "stripe"@ {
        Some(WebhookProvider::Stripe)
    } else if word == "slack"@ {
        Some(WebhookProvider::Slack)
    } else if word == "pagerduty"@ {
        Some(WebhookProvider::PagerDuty)
    } else if word == "generic"@ {
        Some(WebhookProvider::Generic)
    } else {
        None
    }
}

/// The provider of this name, whatever its case and the blanks around it.
pub fn parse_provider(provider: &str) -> (r: Option<WebhookProvider>)
    ensures
        r == provider_named(provider@),
{
    let cut: String = trimmed(provider);
    let chars: Vec<char> = chars_of(cut.as_str());
    let lower: Vec<char> = lower_ascii_chars(chars.as_slice());
    let word: String = string_of(lower.as_slice());
    if same(word.as_str(), "github") {
        Some(WebhookProvider::GitHub)
    } else if same(word.as_str(), "stripe") {
        Some(WebhookProvider::Stripe)
    } else if same(word.as_str(), "slack") {
        Some(WebhookProvider::Slack)
    } else if same(word.as_str(), "pagerduty") {
        Some(WebhookProvider::PagerDuty)
    } else if same(word.as_str(), "generic") {
        Some(WebhookProvider::Generic)
    } else {
        None
    }
}

/// The banner that the page shows once, after an endpoint was made or its secret changed. The
/// texts are empty where there is nothing to show.
pub struct FlashSecret {
    pub created_id: String,
    pub created_secret: String,
    pub rotated_from: String,
}

/// The path that an endpoint is called under.
pub open spec fn inbound(id: Seq<char>) -> Seq<char> {
    "/api/v1/webhooks/incoming/"@ + id
}

/// The path that an endpoint is called under.
pub fn inbound_url(id: &str) -> (r: String)
    ensures
        r@ == inbound(id@),
{
    let mut out: String = "/api/v1/webhooks/incoming/".to_owned();
    out.push_str(id);
    out
}

/// The path that the banner shows: none where it shows no endpoint.
pub fn created_inbound_url(flash: &FlashSecret) -> (r: String)
    ensures
        flash.created_id@.len() == 0 ==> r@ == ""@,
        flash.created_id@.len() > 0 ==> r@ == inbound(flash.created_id@),
{
    proof {
        reveal_strlit("");
    }
    assert(flash.created_id@.len() == 0 ==> flash.created_id@ =~= ""@);
    if same(flash.created_id.as_str(), "") {
        "".to_owned()
    } else {
        inbound_url(flash.created_id.as_str())
    }
}

/// The text of a field, empty where there is none.
pub open spec fn text_or_empty(field: Option<Seq<char>>) -> Seq<char> {
    match field {
        Some(s) => s,
        None => ""@,
    }
}

fn or_empty(field: &Option<String>) -> (r: String)
    ensures
        r@ == text_or_empty(opt_text(*field)),
{
    match field {
        Some(s) => s.clone(),
        None => "".to_owned(),
    }
}

/// The banner of the list page. Whatever the address of the page holds, it shows no secret.
pub fn listed_flash(query: &ListQuery) -> (r: FlashSecret)
    ensures
        r.created_id@ == text_or_empty(opt_text(query.created_id)),
        r.created_secret@ == ""@,
        r.rotated_from@ == text_or_empty(opt_text(query.rotated_from)),
{
    FlashSecret {
        created_id: or_empty(&query.created_id),
        created_secret: "".to_owned(),
        rotated_from: or_empty(&query.rotated_from),
    }
}

/// The banner once an endpoint is made.
pub fn created_flash(id: u128, secret: String) -> (r: FlashSecret)
    ensures
        r.created_id@ == uuid_text(id),
        r.created_secret == secret,
        r.rotated_from@ == ""@,
{
    FlashSecret {
        created_id: format_uuid(id),
        created_secret: secret,
        rotated_from: "".to_owned(),
    }
}

/// The banner once the secret of an endpoint is changed.
pub fn rotated_flash(id: u128, asked: &str, secret: String) -> (r: FlashSecret)
    ensures
        r.created_id@ == uuid_text(id),
        r.created_secret == secret,
        r.rotated_from@ == asked@,
{
    FlashSecret {
        created_id: format_uuid(id),
        created_secret: secret,
        rotated_from: asked.to_owned(),
    }
}

/// Reads the provider of the form that makes an endpoint.
pub fn check_provider(form: &CreateWebhookForm) -> (r: Result<WebhookProvider, Reply>)
    ensures
        match r {
            Ok(p) => provider_named(form.provider@) == Some(p),
            Err(reply) => provider_named(form.provider@) is None && reply.is(
                400,
                "Invalid provider. Allowed: github, stripe, slack, pagerduty, generic"@,
            ),
        },
{
    match parse_provider(form.provider.as_str()) {
        Some(p) => Ok(p),
        None => Err(
            Reply::new(400, "Invalid provider. Allowed: github, stripe, slack, pagerduty, generic"),
        ),
    }
}

/// The agent that the form names.
pub fn asked_agent(form: &CreateWebhookForm) -> (r: String)
    ensures
        r@ == trim(form.agent_name@),
{
    trimmed(form.agent_name.as_str())
}

/// What an endpoint is made with: the agent that was found under the name, and how many seconds
/// are waited.
pub fn create(form: &CreateWebhookForm, agent: Option<u128>) -> (r: Result<
    (u128, WebhookProvider, u64),
    Reply,
>)
    ensures
        match r {
            Ok((id, provider, debounce)) => {
                &&& provider_named(form.provider@) == Some(provider)
                &&& agent == Some(id)
                &&& debounce == match form.debounce_seconds {
                    Some(n) => n,
                    None => 0,
                }
            },
            Err(reply) => {
                ||| provider_named(form.provider@) is None && reply.is(
                    400,
                    "Invalid provider. Allowed: github, stripe, slack, pagerduty, generic"@,
                )
                ||| provider_named(form.provider@) is Some && agent is None && reply.is(
                    400,
                    "Unknown agent '"@ + form.agent_name@ + "'"@,
                )
            },
        },
{
    let provider: WebhookProvider = match check_provider(form) {
        Ok(p) => p,
        Err(reply) => {
            return Err(reply);
        },
    };
    match agent {
        Some(id) => {
            let debounce: u64 = match form.debounce_seconds {
                Some(n) => n,
                None => 0,
            };
            Ok((id, provider, debounce))
        },
        None => {
            let mut body: String = "Unknown agent '".to_owned();
            body.push_str(form.agent_name.as_str());
            body.push_str("'");
            Err(Reply { status: 400, body })
        },
    }
}

/// The answer where an endpoint could not be made.
pub fn create_failed(error: &str) -> (r: Reply)
    ensures
        r.is(400, "Failed to create webhook endpoint: "@ + error@),
{
    let mut body: String = "Failed to create webhook endpoint: ".to_owned();
    body.push_str(error);
    Reply { status: 400, body }
}

/// The number of an endpoint's id.
pub fn check_endpoint_id(id: &str) -> (r: Result<u128, Reply>)
    ensures
        match r {
            Ok(n) => uuid_value(id@) == Some(n),
            Err(reply) => uuid_value(id@) is None && reply.is(400, "Invalid endpoint ID"@),
        },
{
    checked_id(id, "Invalid endpoint ID")
}

/// The answer where an endpoint could not be deleted.
pub fn delete_failed(id: &str, error: &str) -> (r: Reply)
    ensures
        r.is(400, failure_text("delete webhook endpoint"@, id@, error@)),
{
    failure("delete webhook endpoint", id, error)
}

/// What came of changing the secret of an endpoint.
pub enum Rotation {
    /// There is no such endpoint.
    Unknown,
    Failed(String),
    Done { id: u128, secret: String },
}

/// The answer to a request that changes the secret of an endpoint.
pub fn rotated(asked: &str, outcome: Rotation) -> (r: Result<FlashSecret, Reply>)
    ensures
        match outcome {
            Rotation::Unknown => r matches Err(reply) && reply.is(
                404,
                "Webhook endpoint not found"@,
            ),
            Rotation::Failed(error) => r matches Err(reply) && reply.is(
                400,
                failure_text("rotate webhook endpoint"@, asked@, error@),
            ),
            Rotation::Done { id, secret } => r matches Ok(flash) && flash.created_id@ == uuid_text(
                id,
            ) && flash.created_secret == secret && flash.rotated_from@ == asked@,
        },
{
    match outcome {
        Rotation::Unknown => Err(Reply::new(404, "Webhook endpoint not found")),
        Rotation::Failed(error) => Err(failure("rotate webhook endpoint", asked, error.as_str())),
        Rotation::Done { id, secret } => Ok(rotated_flash(id, asked, secret)),
    }
}

/// The five providers go by their names, in upper or lower case and with blanks around; another
/// word names none.
pub proof fn law_providers_go_by_name(front: Seq<char>, word: Seq<char>, back: Seq<char>)
    requires
        forall|i: int| 0 <= i < front.len() ==> whitespace(#[trigger] front[i]),
        forall|i: int| 0 <= i < back.len() ==> whitespace(#[trigger] back[i]),
        word.len() > 0 && !whitespace(word[0]) && !whitespace(word.last()),
    ensures
        ({
            let p = provider_named(front + word + back);
            &&& p == Some(WebhookProvider::GitHub) <==> lower_ascii(word) == "github"@
            &&& p == Some(WebhookProvider::Stripe) <==> lower_ascii(word) == "stripe"@
            &&& p == Some(WebhookProvider::Slack) <==> lower_ascii(word) == "slack"@
            &&& p == Some(WebhookProvider::PagerDuty) <==> lower_ascii(word) == "pagerduty"@
            &&& p == Some(WebhookProvider::Generic) <==> lower_ascii(word) == "generic"@
        }),
{
    law_trimming_cuts_the_ends(front, word, back);
    reveal_strlit("github");
    reveal_strlit("stripe");
    reveal_strlit("slack");
    reveal_strlit("pagerduty");
    reveal_strlit("generic");
    assert("github"@[0] == 'g' && "stripe"@[0] == 's');
    assert("slack"@.len() == 5 && "pagerduty"@.len() == 9 && "generic"@.len() == 7);
}

} // verus!
