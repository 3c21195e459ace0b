//! Authentication: a bearer token for programs, an opaque session cookie for browsers.

use crate::crypto::{bytes_ct_eq, random_token, token_shaped};
use crate::csrf::{
    expired, is_expired, is_static_path, opt_str, session_key, session_key_of, static_path,
};
use crate::reply::Reply;
use crate::table::Table;
use crate::text::{
    contains_text, occurs_at, same, starts_with, str_contains, str_strip_prefix, strip_prefix,
};
use vstd::prelude::*;

verus! {

/// The shared token of the server.
pub struct AuthToken(pub String);

/// The name of the session cookie.
pub const SESSION_COOKIE: &'static str = "agentos_session";

/// The hours that a session cookie lives.
pub const SESSION_HOURS: u64 = 8;

/// Compares two strings in a time that depends on their lengths alone. Where the lengths
/// differ, a comparison of `a` with itself stands in for the one that is not made.
pub fn ct_eq(a: &str, b: &str) -> (r: bool)
    ensures
        r == (a@ == b@),
{
    proof {
        vstd::utf8::encode_utf8_decode_utf8(a@);
        vstd::utf8::encode_utf8_decode_utf8(b@);
    }
    if a.as_bytes().len() != b.as_bytes().len() {
        let _ = bytes_ct_eq(a.as_bytes(), a.as_bytes());
        return false;
    }
    bytes_ct_eq(a.as_bytes(), b.as_bytes())
}

/// The token in an `Authorization: Bearer` header.
pub open spec fn bearer(authorization: Option<Seq<char>>) -> Option<Seq<char>> {
    match authorization {
        Some(h) => strip_prefix(h, "Bearer "@),
        None => None,
    }
}

fn bearer_matches(authorization: Option<&str>, token: &str) -> (r: bool)
    ensures
        r == (bearer(opt_str(authorization)) == Some(token@)),
{
    match authorization {
        Some(h) => match str_strip_prefix(h, "Bearer ") {
            Some(candidate) => ct_eq(candidate.as_str(), token),
            None => false,
        },
        None => false,
    }
}

/// The owner under which uploaded files are recorded: the key of the session cookie, or of
/// the server token where there is no cookie.
pub open spec fn owner_principal(cookie: Option<Seq<char>>, token: Seq<char>) -> Seq<char> {
    match cookie {
        Some(value) => session_key_of(value),
        None => session_key_of(token),
    }
}

/// The owner under which uploaded files are recorded. The raw secret is never recorded.
pub fn file_owner_principal(
    cookie: Option<&str>,
    authorization: Option<&str>,
    token: &AuthToken,
) -> (r: String)
    ensures
        r@ == owner_principal(opt_str(cookie), token.0@),
        r@.len() == 64,
{
    match cookie {
        Some(value) => {
            return session_key(value);
        },
        None => {},
    }
    match authorization {
        Some(h) => match str_strip_prefix(h, "Bearer ") {
            Some(candidate) => {
                if ct_eq(candidate.as_str(), token.0.as_str()) {
                    return session_key(candidate.as_str());
                }
            },
            None => {},
        },
        None => {},
    }
    session_key(token.0.as_str())
}

/// Whether the cookie names a session that is registered and not past its lifetime.
pub open spec fn session_live(
    sessions: Map<Seq<char>, u64>,
    cookie: Seq<char>,
    now: u64,
) -> bool {
    sessions.dom().contains(session_key_of(cookie)) && !expired(
        sessions[session_key_of(cookie)],
        now,
    )
}

/// Whether the session is live. One past its lifetime is taken out of the table.
pub fn opaque_browser_session_valid(sessions: &mut Table<u64>, cookie: &str, now: u64) -> (r: bool)
    requires
        old(sessions).wf(),
    ensures
        final(sessions).wf(),
        r == session_live(old(sessions)@, cookie@, now),
        final(sessions)@ == (if r {
            old(sessions)@
        } else {
            old(sessions)@.remove(session_key_of(cookie@))
        }),
{
    let key: String = session_key(cookie);
    let ok: bool = match sessions.get(key.as_str()) {
        Some(issued) => !is_expired(*issued, now),
        None => {
            assert(sessions@.remove(key@) =~= sessions@);
            return false;
        },
    };
    if !ok {
        let _ = sessions.remove(key.as_str());
    }
    ok
}

/// What is done with a request.
pub enum AuthOutcome {
    /// It goes on to its handler.
    Proceed,
    /// The browser is sent to this path.
    Redirect(String),
    /// It is answered with this.
    Reject(Reply),
}

/// The paths that need no authentication.
pub open spec fn auth_exempt(path: Seq<char>) -> bool {
    static_path(path) || path == "/login"@
}

/// Whether the path needs no authentication.
pub fn is_auth_exempt(path: &str) -> (r: bool)
    ensures
        r == auth_exempt(path@),
{
    is_static_path(path) || same(path, "/login")
}

/// The headers of a request that decide on its authentication.
pub struct Credentials<'a> {
    pub authorization: Option<&'a str>,
    pub cookie: Option<&'a str>,
    pub accept: Option<&'a str>,
}

impl<'a> Credentials<'a> {
    /// Whether the bearer token is the server's.
    pub open spec fn has_bearer(self, token: Seq<char>) -> bool {
        bearer(opt_str(self.authorization)) == Some(token)
    }

    /// Whether the cookie names a live session.
    pub open spec fn has_session(self, sessions: Map<Seq<char>, u64>, now: u64) -> bool {
        self.cookie is Some && session_live(sessions, self.cookie->0@, now)
    }

    /// Whether the client accepts HTML.
    pub open spec fn wants_html(self) -> bool {
        self.accept is Some && contains_text(self.accept->0@, "text/html"@)
    }
}

/// Lets a request through where its path is exempt, its bearer token is the server's, or its
/// cookie names a live session. A browser is otherwise sent to the login page, any other
/// client is refused.
pub fn require_auth(
    sessions: &mut Table<u64>,
    token: &AuthToken,
    path: &str,
    credentials: Credentials<'_>,
    now: u64,
) -> (outcome: AuthOutcome)
    requires
        old(sessions).wf(),
    ensures
        final(sessions).wf(),
        outcome is Proceed <==> auth_exempt(path@) || credentials.has_bearer(token.0@)
            || credentials.has_session(old(sessions)@, now),
        outcome is Redirect <==> !(outcome is Proceed) && credentials.wants_html(),
        outcome is Redirect ==> outcome->Redirect_0@ == "/login"@,
        outcome is Reject ==> outcome->Reject_0.is(401, "Authentication required"@),
        final(sessions)@ == (if auth_exempt(path@) || credentials.has_bearer(token.0@)
            || credentials.cookie is None || credentials.has_session(old(sessions)@, now) {
            old(sessions)@
        } else {
            old(sessions)@.remove(session_key_of(credentials.cookie->0@))
        }),
{
    if is_auth_exempt(path) {
        return AuthOutcome::Proceed;
    }
    if bearer_matches(credentials.authorization, token.0.as_str()) {
        return AuthOutcome::Proceed;
    }
    match credentials.cookie {
        Some(value) => {
            if opaque_browser_session_valid(sessions, value, now) {
                return AuthOutcome::Proceed;
            }
        },
        None => {},
    }
    let accepts_html: bool = match credentials.accept {
        Some(v) => str_contains(v, "text/html"),
        None => false,
    };
    if accepts_html {
        return AuthOutcome::Redirect("/login".to_owned());
    }
    AuthOutcome::Reject(Reply::new(401, "Authentication required"))
}

/// The hidden form field that carries the token, or nothing where there is no token.
pub open spec fn csrf_input(token: Seq<char>) -> Seq<char> {
    if token.len() == 0 {
        Seq::empty()
    } else {
        "<input type=\"hidden\" name=\"_csrf\" value=\""@ + token + "\">"@
    }
}

const LOGIN_HEAD: &'static str = "<!DOCTYPE html>\n<html><head><title>AgentOS Login</title>\n<link rel=\"stylesheet\" href=\"/static/css/pico.min.css\">\n</head><body>\n<main class=\"container\">\n<h1>AgentOS Web UI</h1>\n<form method=\"POST\" action=\"/login\">\n";

const LOGIN_TAIL: &'static str = "\n<label for=\"token\">Auth Token</label>\n<input name=\"token\" id=\"token\" type=\"password\"\n       placeholder=\"Paste your Web UI auth token\" required>\n<button type=\"submit\">Login</button>\n</form>\n</main></body></html>";

/// The login page, with the session's token in its form.
pub closed spec fn login_html(csrf_token: Seq<char>) -> Seq<char> {
    LOGIN_HEAD@ + csrf_input(csrf_token) + LOGIN_TAIL@
}

/// The login page, with the session's token in its form.
pub fn login_page(csrf_token: &str) -> (r: String)
    ensures
        r@ == login_html(csrf_token@),
{
    let mut field: String = String::new();
    if !csrf_token.is_empty() {
        field.push_str("<input type=\"hidden\" name=\"_csrf\" value=\"");
        field.push_str(csrf_token);
        field.push_str("\">");
    }
    let mut out: String = LOGIN_HEAD.to_owned();
    out.push_str(field.as_str());
    out.push_str(LOGIN_TAIL);
    out
}

/// The login form.
pub struct LoginForm {
    pub token: String,
}

/// A cookie that names a session.
pub struct SessionCookie {
    pub name: String,
    pub value: String,
    pub path: String,
    pub http_only: bool,
    pub secure: bool,
    pub same_site_strict: bool,
    pub max_age_hours: u64,
}

/// The cookie of a session: for the whole site, out of reach of scripts, not sent across
/// sites, and only over TLS where `secure` says so.
pub fn session_cookie(value: String, secure: bool) -> (c: SessionCookie)
    ensures
        c.name@ == SESSION_COOKIE@,
        c.value == value,
        c.path@ == "/"@,
        c.http_only,
        c.secure == secure,
        c.same_site_strict,
        c.max_age_hours == SESSION_HOURS,
{
    SessionCookie {
        name: SESSION_COOKIE.to_owned(),
        value,
        path: "/".to_owned(),
        http_only: true,
        secure,
        same_site_strict: true,
        max_age_hours: SESSION_HOURS,
    }
}

/// Registers `session` as live from `now` on.
pub fn register_session(sessions: &mut Table<u64>, session: &str, now: u64)
    requires
        old(sessions).wf(),
    ensures
        final(sessions).wf(),
        final(sessions)@ == old(sessions)@.insert(session_key_of(session@), now),
{
    let key: String = session_key(session);
    sessions.insert(key, now);
}

/// Opens a session where the submitted token is the server's: the result is its cookie. Any
/// other token is refused and leaves the sessions as they are.
pub fn login_submit(
    sessions: &mut Table<u64>,
    token: &AuthToken,
    form: LoginForm,
    secure_cookies: bool,
    now: u64,
) -> (r: Result<SessionCookie, Reply>)
    requires
        old(sessions).wf(),
    ensures
        final(sessions).wf(),
        r is Ok <==> form.token@ == token.0@,
        match r {
            Ok(c) => token_shaped(c.value@) && final(sessions)@ == old(sessions)@.insert(
                session_key_of(c.value@),
                now,
            ) && c.name@ == SESSION_COOKIE@ && c.path@ == "/"@ && c.http_only && c.secure
                == secure_cookies && c.same_site_strict && c.max_age_hours == SESSION_HOURS,
            Err(reply) => reply.is(401, "Invalid token"@) && final(sessions)@ == old(sessions)@,
        },
{
    if ct_eq(form.token.as_str(), token.0.as_str()) {
        let session: String = random_token();
        register_session(sessions, session.as_str(), now);
        Ok(session_cookie(session, secure_cookies))
    } else {
        Err(Reply::new(401, "Invalid token"))
    }
}

/// A session that was just registered is live until its lifetime has passed, and no longer.
pub proof fn law_registered_session_is_live(
    sessions: Map<Seq<char>, u64>,
    session: Seq<char>,
    issued: u64,
    now: u64,
)
    ensures
        session_live(sessions.insert(session_key_of(session), issued), session, now) <==> !expired(
            issued,
            now,
        ),
{
}

/// A program shows its token behind the word `Bearer` and a blank, and no other header holds one.
pub proof fn law_bearer_tokens_stand_behind_their_word(token: Seq<char>, header: Seq<char>)
    ensures
        bearer(Some("Bearer "@ + token)) == Some(token),
        bearer(None) is None,
        !starts_with(header, "Bearer "@) ==> bearer(Some(header)) is None,
{
    let h = "Bearer "@ + token;
    let n = "Bearer "@.len() as int;
    assert(h.subrange(0, n) =~= "Bearer "@);
    assert(h.subrange(n, h.len() as int) =~= token);
}

/// Only the static files and the login page are open to everyone.
pub proof fn law_only_the_login_is_open(path: Seq<char>, rest: Seq<char>)
    ensures
        auth_exempt("/login"@),
        auth_exempt("/static/"@ + rest),
        path != "/login"@ && path != "/static"@ && !starts_with(path, "/static/"@) ==> !auth_exempt(
            path,
        ),
{
    assert(("/static/"@ + rest).subrange(0, "/static/"@.len() as int) =~= "/static/"@);
}

/// A session lives where it is registered and its time is not over; the hidden field carries the
/// session's token as its value.
pub proof fn law_sessions_end(
    sessions: Map<Seq<char>, u64>,
    cookie: Seq<char>,
    since: u64,
    now: u64,
    token: Seq<char>,
)
    ensures
        !sessions.dom().contains(session_key_of(cookie)) ==> !session_live(sessions, cookie, now),
        session_live(sessions.insert(session_key_of(cookie), since), cookie, now) <==> !expired(
            since,
            now,
        ),
        !session_live(sessions.remove(session_key_of(cookie)), cookie, now),
        token.len() > 0 ==> contains_text(csrf_input(token), "value=\""@ + token + "\""@),
        token.len() == 0 ==> csrf_input(token).len() == 0,
{
    if token.len() > 0 {
        reveal_strlit("<input type=\"hidden\" name=\"_csrf\" value=\"");
        reveal_strlit("value=\"");
        reveal_strlit("\"");
        reveal_strlit("\">");
        let all = csrf_input(token);
        let part = "value=\""@ + token + "\""@;
        let at = "<input type=\"hidden\" name=\"_csrf\" value=\""@.len() - 7;
        assert(all.subrange(at, at + part.len()) =~= part);
        assert(occurs_at(all, part, at));
    }
}

} // verus!
