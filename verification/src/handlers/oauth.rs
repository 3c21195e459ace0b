//! The way a connector is authorised: where the provider sends the user back to, and what is
//! made of what it says.

use crate::reply::Reply;
use crate::text::opt_text;
use vstd::prelude::*;

verus! {

/// What a provider says when it sends the user back.
pub struct OAuthCallbackParams {
    pub code: Option<String>,
    pub state: Option<String>,
    pub error: Option<String>,
    pub error_description: Option<String>,
}

/// Where the system is reached from outside.
pub open spec fn base_url(base: Option<Seq<char>>, port: Option<Seq<char>>) -> Seq<char> {
    match base {
        Some(url) => url,
        None => "http://localhost:"@ + match port {
            Some(p) => p,
            None => "3000"@,
        },
    }
}

/// Where the system is reached from outside: the address that is set, or else this machine at
/// the port that is set.
pub fn resolve_base_url(base: &Option<String>, port: &Option<String>) -> (r: String)
    ensures
        r@ == base_url(opt_text(*base), opt_text(*port)),
{
    match base {
        Some(url) => url.clone(),
        None => {
            let mut out: String = "http://localhost:".to_owned();
            match port {
                Some(p) => {
                    out.push_str(p.as_str());
                },
                None => {
                    out.push_str("3000");
                },
            }
            out
        },
    }
}

/// Where the provider sends the user back to.
pub fn redirect_uri(base: &str, connector_id: &str) -> (r: String)
    ensures
        r@ == base@ + "/auth/"@ + connector_id@ + "/callback"@,
{
    let mut out: String = base.to_owned();
    out.push_str("/auth/");
    out.push_str(connector_id);
    out.push_str("/callback");
    out
}

/// What can go wrong while a connector is authorised.
#[derive(Clone, Copy, PartialEq, Eq, Structural, Debug)]
pub enum OAuthFlowError {
    NoProvider,
    InvalidState,
    Config,
    Exchange,
    Store,
}

/// The status that an error is answered with.
pub open spec fn error_status(e: OAuthFlowError) -> u16 {
    match e {
        OAuthFlowError::NoProvider => 404,
        OAuthFlowError::InvalidState => 403,
        OAuthFlowError::Config => 500,
        OAuthFlowError::Exchange => 502,
        OAuthFlowError::Store => 500,
    }
}

/// The status that an error is answered with.
pub fn status_for(e: OAuthFlowError) -> (r: u16)
    ensures
        r == error_status(e),
{
    match e {
        OAuthFlowError::NoProvider => 404,
        OAuthFlowError::InvalidState => 403,
        OAuthFlowError::Config => 500,
        OAuthFlowError::Exchange => 502,
        OAuthFlowError::Store => 500,
    }
}

/// The answer to an error.
pub fn flow_failed(e: OAuthFlowError, message: &str) -> (r: Reply)
    ensures
        r.is(error_status(e) as int, message@),
{
    Reply::new(status_for(e), message)
}

/// What is wrong with what the provider says, if anything.
pub open spec fn callback_complaint(params: OAuthCallbackParams) -> Option<Seq<char>> {
    match params.error {
        Some(error) => Some(
            "OAuth error: "@ + error@ + " — "@ + match params.error_description {
                Some(d) => d@,
                None => "no description"@,
            },
        ),
        None => if params.code is None || params.state is None {
            Some("Missing authorization code or state"@)
        } else {
            None
        },
    }
}

/// What the provider says: the code and the state that the flow is finished with. An error that
/// it tells of goes before everything else.
pub fn oauth_callback(params: OAuthCallbackParams) -> (r: Result<(String, String), Reply>)
    ensures
        match r {
            Ok((code, state)) => {
                &&& callback_complaint(params) is None
                &&& params.code == Some(code)
                &&& params.state == Some(state)
            },
            Err(reply) => callback_complaint(params) matches Some(c) && reply.is(400, c),
        },
{
    match params.error {
        Some(error) => {
            let mut body: String = "OAuth error: ".to_owned();
            body.push_str(error.as_str());
            body.push_str(" — ");
            match &params.error_description {
                Some(d) => {
                    body.push_str(d.as_str());
                },
                None => {
                    body.push_str("no description");
                },
            }
            Err(Reply { status: 400, body })
        },
        None => match params.code {
            Some(code) => match params.state {
                Some(state) => Ok((code, state)),
                None => Err(Reply::new(400, "Missing authorization code or state")),
            },
            None => Err(Reply::new(400, "Missing authorization code or state")),
        },
    }
}

/// The system is reached where it is said to be, or on this machine: at the port that is given, or
/// else at 3000.
pub proof fn law_the_base_is_where_the_system_is_reached(
    url: Seq<char>,
    port: Seq<char>,
    any: Option<Seq<char>>,
)
    ensures
        base_url(Some(url), any) == url,
        base_url(None, Some(port)) == "http://localhost:"@ + port,
        base_url(None, None) == "http://localhost:3000"@,
{
    reveal_strlit("http://localhost:");
    reveal_strlit("3000");
    reveal_strlit("http://localhost:3000");
    assert("http://localhost:"@ + "3000"@ =~= "http://localhost:3000"@);
}

/// A callback is taken exactly where the provider tells of no error and gives both a code and a
/// state; an error is told with its description.
pub proof fn law_callbacks_need_a_code_and_a_state(params: OAuthCallbackParams)
    ensures
        callback_complaint(params) is None <==> params.error is None && params.code is Some
            && params.state is Some,
        params.error is Some && params.error_description is Some ==> callback_complaint(params)
            == Some(
            "OAuth error: "@ + params.error->0@ + " — "@ + params.error_description->0@,
        ),
{
}

/// An error of the flow is answered by its own status: what is not there, what is not allowed, and
/// what went wrong here or at the provider.
pub proof fn law_errors_have_their_status(e: OAuthFlowError)
    ensures
        error_status(e) == 404 <==> e is NoProvider,
        error_status(e) == 403 <==> e is InvalidState,
        error_status(e) == 502 <==> e is Exchange,
        error_status(e) == 500 <==> e is Config || e is Store,
{
}

} // verus!
