//! Protection against cross-site request forgery.
//!
//! Each browser session has one token. Reading requests issue it; changing requests must
//! carry it, in a header or in a form field.

use crate::auth::ct_eq;
use crate::crypto::{hex_encode, hex_text, random_token, sha256, sha256_digest, token_shaped};
use crate::reply::Reply;
use crate::table::{Aged, Table};
use crate::text::{
    chars_of, find_char, index_of, lacks, law_split_parts_stay, lemma_index_of, lemma_one_piece,
    opt_text, same, same_chars, split, split_chars, starts_with, str_starts_with, string_of,
    sub_chars, views,
};
use vstd::prelude::*;
use vstd::utf8::{decode_utf8, encode_utf8, valid_utf8};

verus! {

/// The lifetime of a token and of a session, in seconds.
pub const TOKEN_TTL: u64 = 28_800;

/// Nanoseconds in a second.
pub const NANOS_PER_SEC: u64 = 1_000_000_000;

/// The most bytes of a form body that are read to look for a token.
pub const MAX_FORM_BYTES: usize = 262_144;

/// The issued token of a session.
pub struct CsrfEntry {
    pub token: String,
    /// The time of issue, in nanoseconds on the server's clock.
    pub issued_at: u64,
}

impl Aged for CsrfEntry {
    open spec fn issued(&self) -> u64 {
        self.issued_at
    }

    fn issued_at(&self) -> (r: u64) {
        self.issued_at
    }
}

/// Whether something issued at `issued` is past its lifetime at `now`. A clock that runs
/// backwards counts as no time at all.
pub open spec fn expired(issued: u64, now: u64) -> bool {
    now - issued > TOKEN_TTL * NANOS_PER_SEC
}

/// Whether something issued at `issued` is past its lifetime at `now`.
pub fn is_expired(issued: u64, now: u64) -> (r: bool)
    ensures
        r == expired(issued, now),
{
    now > issued && now - issued > TOKEN_TTL * NANOS_PER_SEC
}

/// The key under which a session's entries stand: the hexadecimal SHA-256 digest of the
/// cookie value.
pub open spec fn session_key_of(session_value: Seq<char>) -> Seq<char> {
    hex_text(sha256(encode_utf8(session_value)))
}

/// The key of a session. The raw cookie value is never used as a key.
pub fn session_key(session_value: &str) -> (r: String)
    ensures
        r@ == session_key_of(session_value@),
        r@.len() == 64,
{
    let digest: Vec<u8> = sha256_digest(session_value.as_bytes());
    hex_encode(&digest)
}

/// A random token of 64 hexadecimal digits.
pub fn generate_csrf_token() -> (r: String)
    ensures
        token_shaped(r@),
{
    random_token()
}

/// The token of the session, or nothing where there is no cookie or no token.
pub open spec fn token_of_session(
    tokens: Map<Seq<char>, CsrfEntry>,
    cookie: Option<Seq<char>>,
) -> Option<Seq<char>> {
    match cookie {
        Some(value) => if tokens.dom().contains(session_key_of(value)) {
            Some(tokens[session_key_of(value)].token@)
        } else {
            None
        },
        None => None,
    }
}

/// The view of an optional string slice.
pub open spec fn opt_str(o: Option<&str>) -> Option<Seq<char>> {
    match o {
        Some(s) => Some(s@),
        None => None,
    }
}

/// The current token of the session, or the empty string.
pub fn csrf_token_for_session(tokens: &Table<CsrfEntry>, cookie: Option<&str>) -> (r: String)
    requires
        tokens.wf(),
    ensures
        r@ == (match token_of_session(tokens@, opt_str(cookie)) {
            Some(t) => t,
            None => Seq::empty(),
        }),
{
    match cookie {
        Some(value) => {
            let key: String = session_key(value);
            match tokens.get(key.as_str()) {
                Some(entry) => entry.token.clone(),
                None => String::new(),
            }
        },
        None => String::new(),
    }
}

/// The request methods that the rules tell apart.
#[derive(Clone, Copy, PartialEq, Eq, Structural)]
pub enum Method {
    Get,
    Head,
    Options,
    /// Every other method.
    Other,
}

impl Method {
    /// Whether the method only reads.
    pub open spec fn reads(self) -> bool {
        self == Method::Get || self == Method::Head || self == Method::Options
    }
}

/// What is done with a request.
#[derive(Clone, Copy, PartialEq, Eq, Structural)]
pub enum CsrfStep {
    /// It goes on to its handler.
    Pass,
    /// Its token is checked first.
    Validate,
}

/// The paths of static files.
pub open spec fn static_path(path: Seq<char>) -> bool {
    path == "/static"@ || starts_with(path, "/static/"@)
}

/// Whether the path is that of a static file.
pub fn is_static_path(path: &str) -> (r: bool)
    ensures
        r == static_path(path@),
{
    same(path, "/static") || str_starts_with(path, "/static/")
}

/// Requests that the rules leave alone: static files, the login form, and requests without
/// a session cookie.
pub open spec fn csrf_exempt(path: Seq<char>, method: Method, cookie: Option<Seq<char>>) -> bool {
    ||| static_path(path)
    ||| path == "/login"@ && (method == Method::Get || method == Method::Head)
    ||| cookie is None
}

/// Whether a reading request issues a new token: there is none, or it is past its lifetime.
pub open spec fn needs_token(
    tokens: Map<Seq<char>, CsrfEntry>,
    key: Seq<char>,
    now: u64,
) -> bool {
    !tokens.dom().contains(key) || expired(tokens[key].issued_at, now)
}

/// Whether the session's token must be issued anew.
pub fn token_needed(tokens: &Table<CsrfEntry>, key: &str, now: u64) -> (r: bool)
    requires
        tokens.wf(),
    ensures
        r == needs_token(tokens@, key@, now),
{
    match tokens.get(key) {
        Some(entry) => is_expired(entry.issued_at, now),
        None => true,
    }
}

/// Makes `fresh` the session's token.
pub fn issue_token(tokens: &mut Table<CsrfEntry>, key: String, fresh: String, now: u64)
    requires
        old(tokens).wf(),
    ensures
        final(tokens).wf(),
        final(tokens)@ == old(tokens)@.insert(key@, (CsrfEntry { token: fresh, issued_at: now })),
{
    tokens.insert(key, CsrfEntry { token: fresh, issued_at: now });
}

/// The first rule for a request: exempt requests pass; reading requests pass, after a token
/// was issued where one is needed; every other request has its token checked.
pub fn csrf_middleware(
    tokens: &mut Table<CsrfEntry>,
    cookie: Option<&str>,
    path: &str,
    method: Method,
    now: u64,
) -> (step: CsrfStep)
    requires
        old(tokens).wf(),
    ensures
        final(tokens).wf(),
        step == (if csrf_exempt(path@, method, opt_str(cookie)) || method.reads() {
            CsrfStep::Pass
        } else {
            CsrfStep::Validate
        }),
        ({
            let key = session_key_of(opt_str(cookie)->0);
            if !csrf_exempt(path@, method, opt_str(cookie)) && method.reads() && needs_token(
                old(tokens)@,
                key,
                now,
            ) {
                &&& final(tokens)@ == old(tokens)@.insert(key, final(tokens)@[key])
                &&& token_shaped(final(tokens)@[key].token@)
                &&& final(tokens)@[key].issued_at == now
            } else {
                final(tokens)@ == old(tokens)@
            }
        }),
{
    if is_static_path(path) {
        return CsrfStep::Pass;
    }
    if same(path, "/login") && (method == Method::Get || method == Method::Head) {
        return CsrfStep::Pass;
    }
    let value: &str = match cookie {
        Some(value) => value,
        None => {
            return CsrfStep::Pass;
        },
    };
    if method == Method::Get || method == Method::Head || method == Method::Options {
        let key: String = session_key(value);
        if token_needed(tokens, key.as_str(), now) {
            let fresh: String = generate_csrf_token();
            issue_token(tokens, key, fresh, now);
        }
        return CsrfStep::Pass;
    }
    CsrfStep::Validate
}

/// The outcome of a token check.
pub enum CsrfCheck {
    /// The request goes on to its handler.
    Allow,
    /// The body must be read first, up to `MAX_FORM_BYTES`.
    ReadForm,
    /// The request is answered with this.
    Reject(Reply),
}

impl CsrfCheck {
    /// Whether the request is rejected with this status and text.
    pub open spec fn rejects(self, status: int, body: Seq<char>) -> bool {
        match self {
            CsrfCheck::Reject(reply) => reply.is(status, body),
            _ => false,
        }
    }
}

/// Whether the provided token is the one that the session was issued.
pub open spec fn token_matches(
    tokens: Map<Seq<char>, CsrfEntry>,
    key: Seq<char>,
    provided: Seq<char>,
) -> bool {
    tokens.dom().contains(key) && tokens[key].token@ == provided
}

fn provided_matches(tokens: &Table<CsrfEntry>, key: &str, provided: &str) -> (r: bool)
    requires
        tokens.wf(),
    ensures
        r == token_matches(tokens@, key@, provided@),
{
    match tokens.get(key) {
        Some(entry) => ct_eq(provided, entry.token.as_str()),
        None => false,
    }
}

/// Whether the content type is that of an HTML form.
pub open spec fn form_type(content_type: Option<Seq<char>>) -> bool {
    content_type is Some && starts_with(content_type->0, "application/x-www-form-urlencoded"@)
}

/// Checks the `X-CSRF-Token` header. A header decides at once; without one, a form body may
/// still carry the token.
pub fn validate_csrf(
    tokens: &Table<CsrfEntry>,
    key: &str,
    header: Option<&str>,
    content_type: Option<&str>,
) -> (check: CsrfCheck)
    requires
        tokens.wf(),
    ensures
        check is Allow <==> header is Some && token_matches(tokens@, key@, header->0@),
        check is ReadForm <==> header is None && form_type(opt_str(content_type)),
        check is Reject ==> check.rejects(403, "CSRF token missing or invalid"@),
{
    match header {
        Some(provided) => {
            if provided_matches(tokens, key, provided) {
                return CsrfCheck::Allow;
            }
        },
        None => {
            match content_type {
                Some(ct) => {
                    if str_starts_with(ct, "application/x-www-form-urlencoded") {
                        return CsrfCheck::ReadForm;
                    }
                },
                None => {},
            }
        },
    }
    CsrfCheck::Reject(Reply::new(403, "CSRF token missing or invalid"))
}

/// Checks the `_csrf` field of a form body; `None` stands for a body over the limit.
pub fn validate_csrf_form(tokens: &Table<CsrfEntry>, key: &str, body: Option<&[u8]>) -> (check:
    CsrfCheck)
    requires
        tokens.wf(),
    ensures
        check !is ReadForm,
        check is Allow <==> body is Some && csrf_field(body->0@) is Some && token_matches(
            tokens@,
            key@,
            csrf_field(body->0@)->0,
        ),
        body is None ==> check.rejects(400, "Request body too large"@),
        body is Some && check is Reject ==> check.rejects(403, "CSRF token missing or invalid"@),
{
    match body {
        Some(bytes) => {
            match extract_csrf_from_form(bytes) {
                Some(provided) => {
                    if provided_matches(tokens, key, provided.as_str()) {
                        return CsrfCheck::Allow;
                    }
                },
                None => {},
            }
            CsrfCheck::Reject(Reply::new(403, "CSRF token missing or invalid"))
        },
        None => CsrfCheck::Reject(Reply::new(400, "Request body too large")),
    }
}

/// `std::str::from_utf8`: the text that the bytes encode, where they are valid UTF-8.
#[verifier::external_body]
pub(crate) fn utf8_text(bytes: &[u8]) -> (r: Option<String>)
    ensures
        r is Some <==> valid_utf8(bytes@),
        r is Some ==> r->0@ == decode_utf8(bytes@),
{
    std::str::from_utf8(bytes).ok().map(|s| s.to_string())
}

/// The value of the first pair `key=value` with this key.
pub open spec fn form_field(pairs: Seq<Seq<char>>, key: Seq<char>) -> Option<Seq<char>>
    decreases pairs.len(),
{
    if pairs.len() == 0 {
        None
    } else {
        let pair = pairs[0];
        let eq = index_of(pair, '=');
        if eq < pair.len() && pair.subrange(0, eq) == key {
            Some(pair.subrange(eq + 1, pair.len() as int))
        } else {
            form_field(pairs.drop_first(), key)
        }
    }
}

/// The value of the `_csrf` field of a URL-encoded body.
pub open spec fn csrf_field(body: Seq<u8>) -> Option<Seq<char>> {
    if valid_utf8(body) {
        form_field(split(decode_utf8(body), '&'), "_csrf"@)
    } else {
        None
    }
}

/// The `_csrf` value of a URL-encoded form body. Tokens hold no character that would be
/// percent-encoded, so the value is taken as it stands.
pub fn extract_csrf_from_form(body: &[u8]) -> (r: Option<String>)
    ensures
        opt_text(r) == csrf_field(body@),
{
    let text: String = match utf8_text(body) {
        Some(text) => text,
        None => {
            return None;
        },
    };
    let chars: Vec<char> = chars_of(text.as_str());
    let pairs: Vec<Vec<char>> = split_chars(&chars, '&');
    let key: Vec<char> = chars_of("_csrf");
    let ghost all = views(pairs@);
    let mut i: usize = 0;
    assert(all.subrange(0, all.len() as int) =~= all);
    while i < pairs.len()
        invariant
            i <= pairs@.len(),
            key@ == "_csrf"@,
            all == views(pairs@),
            csrf_field(body@) == form_field(all, key@),
            form_field(all.subrange(i as int, all.len() as int), key@) == form_field(all, key@),
        decreases pairs.len() - i,
    {
        let pair: &Vec<char> = &pairs[i];
        let eq: usize = find_char(pair, '=');
        assert(all.subrange(i as int, all.len() as int)[0] == pair@);
        assert(all.subrange(i as int, all.len() as int).drop_first() =~= all.subrange(
            i + 1,
            all.len() as int,
        ));
        if eq < pair.len() {
            let name: Vec<char> = sub_chars(pair, 0, eq);
            if same_chars(&name, &key) {
                let value: Vec<char> = sub_chars(pair, eq + 1, pair.len());
                return Some(string_of(&value));
            }
        }
        i += 1;
    }
    None
}

/// A token and a session live for eight hours: not yet over then, and over from there on. A clock
/// that runs backwards ends nothing.
pub proof fn law_tokens_live_for_eight_hours(issued: u64, now: u64)
    ensures
        now <= issued ==> !expired(issued, now),
        issued <= now && now - issued <= 8 * 3600 * 1_000_000_000 ==> !expired(issued, now),
        now - issued > 8 * 3600 * 1_000_000_000 ==> expired(issued, now),
{
}

/// A request that changes something and carries a session cookie is checked, wherever it goes but
/// to the static files; the login page is left alone only where it is read.
pub proof fn law_changing_requests_are_checked(
    path: Seq<char>,
    method: Method,
    cookie: Seq<char>,
    rest: Seq<char>,
)
    ensures
        csrf_exempt(path, method, None),
        csrf_exempt("/static/"@ + rest, method, Some(cookie)),
        csrf_exempt("/login"@, Method::Get, Some(cookie)),
        csrf_exempt("/login"@, Method::Head, Some(cookie)),
        !method.reads() && path != "/static"@ && !starts_with(path, "/static/"@) ==> !csrf_exempt(
            path,
            method,
            Some(cookie),
        ),
        Method::Get.reads() && Method::Head.reads() && Method::Options.reads(),
{
    assert(("/static/"@ + rest).subrange(0, "/static/"@.len() as int) =~= "/static/"@);
}

/// A field of a form is the first one of its name, and what stands behind its first `=`, to the
/// next `&`, is its value.
pub proof fn law_fields_are_read_by_name(
    pairs: Seq<Seq<char>>,
    key: Seq<char>,
    value: Seq<char>,
    at: int,
)
    requires
        0 <= at < pairs.len(),
        !key.contains('='),
        pairs[at] == key + seq!['='] + value,
        forall|k: int|
            0 <= k < at ==> !starts_with(#[trigger] pairs[k], key + seq!['=']),
    ensures
        form_field(pairs, key) == Some(value),
    decreases pairs.len(),
{
    let pair = pairs[0];
    lemma_index_of(pair, '=');
    let eq = index_of(pair, '=');
    if at == 0 {
        let k = key.len() as int;
        assert(pair[k] == '=');
        assert(pair.contains('='));
        if eq < k {
            assert(key[eq] == '=');
        }
        assert(pair.subrange(0, eq) =~= key);
        assert(pair.subrange(eq + 1, pair.len() as int) =~= value);
    } else {
        if eq < pair.len() && pair.subrange(0, eq) == key {
            assert(pair.subrange(0, eq + 1) =~= key + seq!['=']);
            assert(starts_with(pairs[0], key + seq!['=']));
        }
        let rest = pairs.drop_first();
        assert forall|k: int| 0 <= k < at - 1 implies !starts_with(
            #[trigger] rest[k],
            key + seq!['='],
        ) by {
            assert(rest[k] == pairs[k + 1]);
        }
        law_fields_are_read_by_name(rest, key, value, at - 1);
    }
}

/// A reading request issues a token where the session has none that lives, and keeps one that
/// does; a token counts for the session that it was issued to.
pub proof fn law_living_tokens_are_kept(
    tokens: Map<Seq<char>, CsrfEntry>,
    key: Seq<char>,
    other: Seq<char>,
    entry: CsrfEntry,
    now: u64,
)
    requires
        other != key,
        !tokens.dom().contains(other),
    ensures
        needs_token(tokens, other, now),
        !expired(entry.issued_at, now) ==> !needs_token(tokens.insert(key, entry), key, now),
        expired(entry.issued_at, now) ==> needs_token(tokens.insert(key, entry), key, now),
        token_matches(tokens.insert(key, entry), key, entry.token@),
        !token_matches(tokens.insert(key, entry), other, entry.token@),
        forall|t: Seq<char>|
            #![trigger token_matches(tokens.insert(key, entry), key, t)]
            token_matches(tokens.insert(key, entry), key, t) ==> t == entry.token@,
{
}

/// A page carries the token of its own session, and none where there is no cookie or no token.
pub proof fn law_pages_carry_their_sessions_token(
    tokens: Map<Seq<char>, CsrfEntry>,
    cookie: Seq<char>,
    entry: CsrfEntry,
)
    ensures
        token_of_session(tokens, None) is None,
        token_of_session(tokens.insert(session_key_of(cookie), entry), Some(cookie)) == Some(
            entry.token@,
        ),
        !tokens.dom().contains(session_key_of(cookie)) ==> token_of_session(
            tokens,
            Some(cookie),
        ) is None,
{
}

/// The token of a form is found wherever it stands among the fields, and is what stands between
/// its name and the next field.
pub proof fn law_form_tokens_are_found(
    body: Seq<u8>,
    front: Seq<char>,
    token: Seq<char>,
    back: Seq<char>,
)
    requires
        valid_utf8(body),
        decode_utf8(body) == front + seq!['&'] + ("_csrf="@ + token) + seq!['&'] + back,
        !token.contains('&'),
        forall|k: int|
            0 <= k < split(front, '&').len() ==> !starts_with(
                #[trigger] split(front, '&')[k],
                "_csrf="@,
            ),
    ensures
        csrf_field(body) == Some(token),
{
    reveal_strlit("_csrf=");
    reveal_strlit("_csrf");
    let pair = "_csrf="@ + token;
    let text = decode_utf8(body);
    law_split_parts_stay(front + seq!['&'] + pair, '&', back);
    law_split_parts_stay(front, '&', pair);
    assert(lacks(pair, '&')) by {
        assert forall|i: int| 0 <= i < pair.len() implies #[trigger] pair[i] != '&' by {
            if i >= 6 {
                assert(pair[i] == token[i - 6]);
            }
        }
    }
    lemma_one_piece(pair, '&');
    let fronts = split(front, '&');
    let pairs = split(text, '&');
    assert(text =~= (front + seq!['&'] + pair) + seq!['&'] + back);
    assert(pairs =~= fronts + seq![pair] + split(back, '&'));
    assert("_csrf="@ =~= "_csrf"@ + seq!['=']);
    assert(pair =~= "_csrf"@ + seq!['='] + token);
    assert(!("_csrf"@.contains('='))) by {
        if "_csrf"@.contains('=') {
            let k = choose|k: int| 0 <= k < "_csrf"@.len() && "_csrf"@[k] == '=';
            assert("_csrf"@[k] != '=');
        }
    }
    assert forall|k: int| 0 <= k < fronts.len() implies !starts_with(
        #[trigger] pairs[k],
        "_csrf"@ + seq!['='],
    ) by {
        assert(pairs[k] == fronts[k]);
    }
    law_fields_are_read_by_name(pairs, "_csrf"@, token, fronts.len() as int);
}

/// A token and a session age from when they were issued.
pub proof fn law_entries_age_from_their_issue(entry: CsrfEntry, since: u64)
    ensures
        entry.issued() == entry.issued_at,
        since.issued() == since,
{
}

} // verus!
