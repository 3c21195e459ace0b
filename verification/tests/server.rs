use agentos_web::auth::{
    ct_eq, file_owner_principal, is_auth_exempt, login_page, login_submit,
    opaque_browser_session_valid, register_session, require_auth, AuthOutcome, AuthToken,
    Credentials, LoginForm, SESSION_COOKIE,
};
use agentos_web::csrf::{issue_token, session_key, CsrfEntry, NANOS_PER_SEC, TOKEN_TTL};
use agentos_web::server::{
    banner, generate_auth_token, resolve_auth_token, secure_cookies, sweep, TokenSource, SWEEP_AGE,
};
use agentos_web::table::Table;

#[test]
fn generated_token_is_64_hex_chars() {
    let token = generate_auth_token();
    assert_eq!(token.len(), 64, "32 random bytes => 64 hex chars");
    assert!(token.chars().all(|c| c.is_ascii_hexdigit()));
    assert_ne!(token.as_str(), generate_auth_token().as_str());
}

fn resolve(env: Option<&str>, config: Option<&str>, kept: Option<&str>) -> (String, TokenSource) {
    let (token, source) =
        resolve_auth_token(env, config, kept, "/data/web_token", "fresh".to_string());
    (token.0, source)
}

#[test]
fn a_token_comes_from_the_first_source_that_gives_one() {
    let (t, s) = resolve(Some("e"), Some("c"), Some("k"));
    assert!(t == "e" && matches!(s, TokenSource::Env));
    let (t, s) = resolve(Some("  "), Some("c"), Some("k"));
    assert!(t == "c" && matches!(s, TokenSource::Config));
    let (t, s) = resolve(None, None, Some("k\n"));
    assert!(t == "k" && matches!(s, TokenSource::PersistedFile(_)));
    let (t, s) = resolve(None, Some(""), Some(""));
    assert!(t == "fresh" && matches!(s, TokenSource::GeneratedAndPersisted(_)));
}

#[test]
fn a_kept_token_is_not_shown() {
    let shown = banner(&TokenSource::Env, "s3cret", "127.0.0.1:3000");
    assert!(!shown.iter().any(|l| l.contains("s3cret")));
    let new = TokenSource::GeneratedAndPersisted("/data/web_token".to_string());
    let shown = banner(&new, "s3cret", "127.0.0.1:3000");
    assert!(shown.iter().any(|l| l.contains("s3cret")));
}

#[test]
fn cookies_are_secure_beyond_this_machine() {
    assert!(secure_cookies(false));
    assert!(!secure_cookies(true));
}

#[test]
fn a_sweep_keeps_what_is_young() {
    let mut tokens: Table<CsrfEntry> = Table::new();
    let mut sessions: Table<u64> = Table::new();
    issue_token(&mut tokens, "old".to_string(), "t".to_string(), 0);
    issue_token(&mut tokens, "new".to_string(), "t".to_string(), 50);
    sessions.insert("s".to_string(), 40);
    sweep(&mut tokens, &mut sessions, SWEEP_AGE + 20);
    assert!(tokens.get("old").is_none());
    assert!(tokens.get("new").is_some());
    assert!(sessions.get("s").is_some());
}

#[test]
fn comparison_is_exact() {
    assert!(ct_eq("abc", "abc"));
    assert!(!ct_eq("abc", "abd"));
    assert!(!ct_eq("abc", "ab"));
    assert!(ct_eq("", ""));
}

fn credentials<'a>(authorization: Option<&'a str>, cookie: Option<&'a str>) -> Credentials<'a> {
    Credentials { authorization, cookie, accept: None }
}

#[test]
fn a_request_needs_a_token_or_a_session() {
    let token = AuthToken("secret".to_string());
    let mut sessions: Table<u64> = Table::new();
    register_session(&mut sessions, "cookie", 5);
    let bearer = credentials(Some("Bearer secret"), None);
    assert!(matches!(
        require_auth(&mut sessions, &token, "/agents", bearer, 6),
        AuthOutcome::Proceed
    ));
    let cookie = credentials(None, Some("cookie"));
    assert!(matches!(
        require_auth(&mut sessions, &token, "/agents", cookie, 6),
        AuthOutcome::Proceed
    ));
    let none = credentials(Some("Bearer wrong"), Some("other"));
    assert!(matches!(
        require_auth(&mut sessions, &token, "/agents", none, 6),
        AuthOutcome::Reject(_)
    ));
    let page = Credentials { authorization: None, cookie: None, accept: Some("text/html") };
    assert!(matches!(
        require_auth(&mut sessions, &token, "/agents", page, 6),
        AuthOutcome::Redirect(_)
    ));
    let open = credentials(None, None);
    assert!(matches!(
        require_auth(&mut sessions, &token, "/login", open, 6),
        AuthOutcome::Proceed
    ));
    assert!(is_auth_exempt("/static/x.css"));
    assert!(!is_auth_exempt("/logins"));
}

#[test]
fn a_session_ends_with_its_lifetime() {
    let mut sessions: Table<u64> = Table::new();
    register_session(&mut sessions, "cookie", 0);
    let life = TOKEN_TTL * NANOS_PER_SEC;
    assert!(opaque_browser_session_valid(&mut sessions, "cookie", life));
    assert!(!opaque_browser_session_valid(&mut sessions, "cookie", life + 1));
    assert!(!opaque_browser_session_valid(&mut sessions, "cookie", 1));
}

#[test]
fn a_login_opens_a_session() {
    let token = AuthToken("secret".to_string());
    let mut sessions: Table<u64> = Table::new();
    let form = LoginForm { token: "wrong".to_string() };
    assert!(login_submit(&mut sessions, &token, form, true, 1).is_err());
    let form = LoginForm { token: "secret".to_string() };
    let cookie = match login_submit(&mut sessions, &token, form, true, 1) {
        Ok(c) => c,
        Err(_) => panic!("the right token opens a session"),
    };
    assert_eq!(cookie.name, SESSION_COOKIE);
    assert!(cookie.secure && cookie.http_only && cookie.same_site_strict);
    assert!(opaque_browser_session_valid(&mut sessions, &cookie.value, 2));
    assert_ne!(cookie.value, "secret");
}

#[test]
fn the_login_page_carries_its_token() {
    assert!(login_page("abc").contains("value=\"abc\""));
    assert!(!login_page("").contains("_csrf"));
}

#[test]
fn files_belong_to_the_session_or_to_the_token() {
    let token = AuthToken("secret".to_string());
    let a = file_owner_principal(Some("cookie"), None, &token);
    let b = file_owner_principal(None, Some("Bearer secret"), &token);
    assert_eq!(a.len(), 64);
    assert_ne!(a, b);
    assert_eq!(a, file_owner_principal(Some("cookie"), None, &token));
    assert_ne!(a, session_key("other"));
}
