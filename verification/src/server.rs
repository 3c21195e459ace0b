//! Start-up rules: the auth token, the banner, and the sweep of old entries.

use crate::auth::AuthToken;
use crate::crypto::{random_token, token_shaped};
use crate::csrf::{opt_str, CsrfEntry, NANOS_PER_SEC, TOKEN_TTL};
use crate::table::{Aged, Table};
use crate::text::{law_trimming_cuts_the_ends, texts, trim, trimmed, whitespace};
use vstd::prelude::*;

verus! {

/// Where the auth token came from.
pub enum TokenSource {
    Env,
    Config,
    /// A file at this path.
    PersistedFile(String),
    /// Made at this start, to be kept in a file at this path.
    GeneratedAndPersisted(String),
}

/// The trimmed token, where one is given that is not blank.
pub open spec fn given(token: Option<Seq<char>>) -> Option<Seq<char>> {
    match token {
        Some(t) => if trim(t).len() > 0 {
            Some(trim(t))
        } else {
            None
        },
        None => None,
    }
}

fn nonblank(token: Option<&str>) -> (r: Option<String>)
    ensures
        crate::text::opt_text(r) == given(opt_str(token)),
{
    match token {
        Some(t) => {
            let s: String = trimmed(t);
            if s.as_str().is_empty() {
                None
            } else {
                Some(s)
            }
        },
        None => None,
    }
}

/// Picks the auth token: the environment's, then the configuration's, then the one kept in
/// the file, each only where it is not blank; else `fresh`.
pub fn resolve_auth_token(
    env: Option<&str>,
    config: Option<&str>,
    persisted: Option<&str>,
    path: &str,
    fresh: String,
) -> (r: (AuthToken, TokenSource))
    ensures
        r.1 is Env <==> given(opt_str(env)) is Some,
        r.1 is Config <==> given(opt_str(env)) is None && given(opt_str(config)) is Some,
        r.1 is PersistedFile <==> given(opt_str(env)) is None && given(opt_str(config)) is None
            && given(opt_str(persisted)) is Some,
        match r.1 {
            TokenSource::Env => r.0.0@ == given(opt_str(env))->0,
            TokenSource::Config => r.0.0@ == given(opt_str(config))->0,
            TokenSource::PersistedFile(p) => r.0.0@ == given(opt_str(persisted))->0 && p@ == path@,
            TokenSource::GeneratedAndPersisted(p) => r.0.0 == fresh && p@ == path@,
        },
{
    match nonblank(env) {
        Some(t) => {
            return (AuthToken(t), TokenSource::Env);
        },
        None => {},
    }
    match nonblank(config) {
        Some(t) => {
            return (AuthToken(t), TokenSource::Config);
        },
        None => {},
    }
    match nonblank(persisted) {
        Some(t) => {
            return (AuthToken(t), TokenSource::PersistedFile(path.to_owned()));
        },
        None => {},
    }
    (AuthToken(fresh), TokenSource::GeneratedAndPersisted(path.to_owned()))
}

/// A random token of 64 hexadecimal digits.
pub fn generate_auth_token() -> (r: String)
    ensures
        token_shaped(r@),
{
    random_token()
}

/// The lines shown at start-up.
pub open spec fn banner_lines(
    source: TokenSource,
    token: Seq<char>,
    addr: Seq<char>,
) -> Seq<Seq<char>> {
    let title = "=== AgentOS Web UI ==="@;
    let open = "Open http://"@ + addr + "/login to access the UI."@;
    match source {
        TokenSource::GeneratedAndPersisted(path) => seq![
            title,
            "Generated a new Web UI auth token (no env/config token set)."@,
            "Auth token: "@ + token,
            "Persisted to "@ + path@ + " (mode 0600) — reused on restart."@,
            "Open http://"@ + addr + "/login and paste the token above to access the UI."@,
        ],
        TokenSource::Env => seq![
            title,
            "Web UI auth token loaded from $AGENTOS_WEB_TOKEN."@,
            open,
        ],
        TokenSource::Config => seq![
            title,
            "Web UI auth token loaded from [web].auth_token config."@,
            open,
        ],
        TokenSource::PersistedFile(path) => seq![
            title,
            "Web UI auth token loaded from "@ + path@ + "."@,
            open,
        ],
    }
}

fn sandwich(a: &str, b: &str, c: &str) -> (r: String)
    ensures
        r@ == a@ + b@ + c@,
{
    let mut out: String = a.to_owned();
    out.push_str(b);
    out.push_str(c);
    out
}

/// The lines shown at start-up. The token is among them only where it was just made.
pub fn banner(source: &TokenSource, token: &str, addr: &str) -> (r: Vec<String>)
    ensures
        texts(r@) == banner_lines(*source, token@, addr@),
{
    let mut lines: Vec<String> = Vec::new();
    lines.push("=== AgentOS Web UI ===".to_owned());
    match source {
        TokenSource::GeneratedAndPersisted(path) => {
            lines.push("Generated a new Web UI auth token (no env/config token set).".to_owned());
            let mut shown: String = "Auth token: ".to_owned();
            shown.push_str(token);
            lines.push(shown);
            lines.push(
                sandwich("Persisted to ", path.as_str(), " (mode 0600) — reused on restart."),
            );
            lines.push(
                sandwich(
                    "Open http://",
                    addr,
                    "/login and paste the token above to access the UI.",
                ),
            );
        },
        TokenSource::Env => {
            lines.push("Web UI auth token loaded from $AGENTOS_WEB_TOKEN.".to_owned());
            lines.push(sandwich("Open http://", addr, "/login to access the UI."));
        },
        TokenSource::Config => {
            lines.push("Web UI auth token loaded from [web].auth_token config.".to_owned());
            lines.push(sandwich("Open http://", addr, "/login to access the UI."));
        },
        TokenSource::PersistedFile(path) => {
            lines.push(sandwich("Web UI auth token loaded from ", path.as_str(), "."));
            lines.push(sandwich("Open http://", addr, "/login to access the UI."));
        },
    }
    assert(texts(lines@) =~= banner_lines(*source, token@, addr@));
    lines
}

/// The banner shows the token only on the start that made it: from any other source, two
/// different tokens give the same lines.
pub proof fn law_banner_hides_kept_tokens(
    source: TokenSource,
    token: Seq<char>,
    other: Seq<char>,
    addr: Seq<char>,
)
    requires
        !(source is GeneratedAndPersisted),
    ensures
        banner_lines(source, token, addr) == banner_lines(source, other, addr),
{
}

/// Cookies are sent over TLS alone where the server is bound to an address that other
/// machines can reach.
pub fn secure_cookies(bound_to_loopback: bool) -> (r: bool)
    ensures
        r == !bound_to_loopback,
{
    !bound_to_loopback
}

/// The age, in nanoseconds, from which an entry is swept: twice its lifetime.
pub const SWEEP_AGE: u64 = 57_600_000_000_000;

/// The seconds between two sweeps.
pub const SWEEP_INTERVAL_SECS: u64 = 1_800;

/// The entries that a sweep at `now` keeps.
pub open spec fn unswept<T: Aged>(entries: Map<Seq<char>, T>, now: u64) -> Map<Seq<char>, T> {
    entries.restrict(
        Set::new(
            |k: Seq<char>| entries.dom().contains(k) && entries[k].issued() + SWEEP_AGE > now,
        ),
    )
}

/// Takes out the tokens and sessions that are twice their lifetime old.
pub fn sweep(tokens: &mut Table<CsrfEntry>, sessions: &mut Table<u64>, now: u64)
    requires
        old(tokens).wf(),
        old(sessions).wf(),
    ensures
        final(tokens).wf(),
        final(sessions).wf(),
        final(tokens)@ == unswept(old(tokens)@, now),
        final(sessions)@ == unswept(old(sessions)@, now),
{
    tokens.keep_younger(now, SWEEP_AGE);
    sessions.keep_younger(now, SWEEP_AGE);
}

/// A sweep takes nothing that is still in use: whatever has not expired is kept.
pub proof fn law_sweep_keeps_live_entries<T: Aged>(
    entries: Map<Seq<char>, T>,
    key: Seq<char>,
    now: u64,
)
    requires
        entries.dom().contains(key),
        !crate::csrf::expired(entries[key].issued(), now),
    ensures
        SWEEP_AGE == 2 * TOKEN_TTL * NANOS_PER_SEC,
        unswept(entries, now).dom().contains(key),
        unswept(entries, now)[key] == entries[key],
{
}

/// A token counts without the blanks around it, and one that is blank is none.
pub proof fn law_blank_tokens_are_none(front: Seq<char>, token: Seq<char>, back: Seq<char>)
    requires
        forall|i: int| 0 <= i < front.len() ==> whitespace(#[trigger] front[i]),
        forall|i: int| 0 <= i < back.len() ==> whitespace(#[trigger] back[i]),
        token.len() > 0 && !whitespace(token[0]) && !whitespace(token.last()),
    ensures
        given(Some(front + token + back)) == Some(token),
        given(Some(front)) is None,
        given(None) is None,
{
    let none = Seq::<char>::empty();
    law_trimming_cuts_the_ends(front, token, back);
    law_trimming_cuts_the_ends(front, none, none);
    assert(front + none + none =~= front);
}

/// A sweep removes what was issued sixteen hours ago or earlier, keeps the rest as it is, and
/// adds nothing.
pub proof fn law_sweeps_remove_what_is_old<T: Aged>(
    entries: Map<Seq<char>, T>,
    now: u64,
    key: Seq<char>,
)
    ensures
        unswept(entries, now).dom().contains(key) <==> entries.dom().contains(key)
            && now - entries[key].issued() < 16 * 3600 * 1_000_000_000,
        unswept(entries, now).dom().contains(key) ==> unswept(entries, now)[key] == entries[key],
{
}

/// A token that was just made is shown, with where it is kept, and every start-up says where the
/// pages are reached.
pub proof fn law_new_tokens_are_shown(path: String, token: Seq<char>, addr: Seq<char>)
    ensures
        banner_lines(TokenSource::GeneratedAndPersisted(path), token, addr).contains(
            "Auth token: "@ + token,
        ),
        banner_lines(TokenSource::GeneratedAndPersisted(path), token, addr).contains(
            "Persisted to "@ + path@ + " (mode 0600) — reused on restart."@,
        ),
        banner_lines(TokenSource::PersistedFile(path), token, addr).contains(
            "Web UI auth token loaded from "@ + path@ + "."@,
        ),
        banner_lines(TokenSource::Env, token, addr).last() == "Open http://"@ + addr
            + "/login to access the UI."@,
        banner_lines(TokenSource::Config, token, addr).last() == "Open http://"@ + addr
            + "/login to access the UI."@,
        banner_lines(TokenSource::PersistedFile(path), token, addr).last() == "Open http://"@ + addr
            + "/login to access the UI."@,
{
    let made = banner_lines(TokenSource::GeneratedAndPersisted(path), token, addr);
    assert(made[2] == "Auth token: "@ + token);
    assert(made[3] == "Persisted to "@ + path@ + " (mode 0600) — reused on restart."@);
    let kept = banner_lines(TokenSource::PersistedFile(path), token, addr);
    assert(kept[1] == "Web UI auth token loaded from "@ + path@ + "."@);
}

} // verus!
