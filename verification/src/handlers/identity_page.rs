//! The page of an agent's identity.

use crate::text::{first_chars, opt_text, take_chars};
use vstd::prelude::*;

verus! {

/// The public key of an agent, empty where it has none.
pub open spec fn key_text(key: Option<Seq<char>>) -> Seq<char> {
    match key {
        Some(k) => k,
        None => ""@,
    }
}

/// What is shown of an agent's identity.
pub struct Identity {
    pub public_key: String,
    /// The beginning of the key.
    pub fingerprint: String,
    pub page_title: String,
    pub agent_href: String,
}

/// What is shown of an agent's identity.
pub fn identity(name: &str, public_key: &Option<String>) -> (r: Identity)
    ensures
        r.public_key@ == key_text(opt_text(*public_key)),
        r.fingerprint@ == take_chars(key_text(opt_text(*public_key)), 16),
        r.page_title@ == "Identity: "@ + name@,
        r.agent_href@ == "/agents/"@ + name@ + "/detail"@,
{
    let public_key: String = match public_key {
        Some(k) => k.clone(),
        None => "".to_owned(),
    };
    let fingerprint: String = first_chars(public_key.as_str(), 16);
    let mut page_title: String = "Identity: ".to_owned();
    page_title.push_str(name);
    let mut agent_href: String = "/agents/".to_owned();
    agent_href.push_str(name);
    agent_href.push_str("/detail");
    Identity { public_key, fingerprint, page_title, agent_href }
}

} // verus!
