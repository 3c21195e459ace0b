use agentos_web::csrf::{
    csrf_middleware, csrf_token_for_session, extract_csrf_from_form, generate_csrf_token,
    is_expired, is_static_path, issue_token, session_key, token_needed, validate_csrf,
    validate_csrf_form, CsrfCheck, CsrfEntry, CsrfStep, Method, NANOS_PER_SEC, TOKEN_TTL,
};
use agentos_web::table::Table;

#[test]
fn generate_csrf_token_is_64_hex_chars() {
    let token = generate_csrf_token();
    assert_eq!(token.len(), 64, "CSRF token must be 64 hex characters");
    assert!(
        token.chars().all(|c| c.is_ascii_hexdigit()),
        "CSRF token must be lowercase hex"
    );
}

#[test]
fn generate_csrf_token_is_random() {
    let a = generate_csrf_token();
    let b = generate_csrf_token();
    assert_ne!(a, b, "Consecutive CSRF tokens must differ");
}

#[test]
fn session_key_is_deterministic() {
    let key1 = session_key("my-session-value");
    let key2 = session_key("my-session-value");
    assert_eq!(key1, key2);
}

#[test]
fn session_key_is_not_the_input() {
    let raw = "my-session-value";
    let key = session_key(raw);
    assert_ne!(key, raw, "session_key must not return the raw value");
    assert_eq!(key.len(), 64, "SHA-256 hex output must be 64 chars");
}

#[test]
fn session_key_differs_for_different_inputs() {
    let a = session_key("token-A");
    let b = session_key("token-B");
    assert_ne!(a, b);
}

#[test]
fn session_key_is_the_hex_digest() {
    assert_eq!(
        session_key("abc"),
        "ba7816bf8f01cfea414140de5dae2223b00361a396177a9cb410ff61f20015ad"
    );
}

#[test]
fn extract_csrf_from_form_finds_token() {
    let body = b"name=Alice&_csrf=abcdef1234567890&action=submit";
    let result = extract_csrf_from_form(body);
    assert_eq!(result.as_deref(), Some("abcdef1234567890"));
}

#[test]
fn extract_csrf_from_form_returns_none_when_missing() {
    let body = b"name=Alice&action=submit";
    assert!(extract_csrf_from_form(body).is_none());
}

#[test]
fn extract_csrf_from_form_handles_leading_field() {
    let body = b"_csrf=token123&name=Bob";
    let result = extract_csrf_from_form(body);
    assert_eq!(result.as_deref(), Some("token123"));
}

#[test]
fn a_body_that_is_not_text_holds_no_token() {
    assert!(extract_csrf_from_form(&[0x5f, 0xff, 0xfe]).is_none());
}

#[test]
fn token_ttl_constant_is_eight_hours() {
    assert_eq!(TOKEN_TTL, 8 * 3600);
}

#[test]
fn a_token_expires_after_its_lifetime() {
    let life = TOKEN_TTL * NANOS_PER_SEC;
    assert!(!is_expired(10, 10 + life));
    assert!(is_expired(10, 11 + life));
    assert!(!is_expired(10, 5));
}

#[test]
fn static_paths() {
    assert!(is_static_path("/static/app.js"));
    assert!(is_static_path("/static"));
    assert!(!is_static_path("/statics"));
}

fn table_with(session: &str, token: &str, at: u64) -> Table<CsrfEntry> {
    let mut tokens = Table::new();
    issue_token(&mut tokens, session_key(session), token.to_string(), at);
    tokens
}

#[test]
fn a_session_reads_back_its_token() {
    let tokens = table_with("s1", "tok", 0);
    assert_eq!(csrf_token_for_session(&tokens, Some("s1")), "tok");
    assert_eq!(csrf_token_for_session(&tokens, Some("s2")), "");
    assert_eq!(csrf_token_for_session(&tokens, None), "");
}

#[test]
fn a_reading_request_gets_a_token_and_passes() {
    let mut tokens = Table::new();
    let step = csrf_middleware(&mut tokens, Some("s1"), "/agents", Method::Get, 7);
    assert!(matches!(step, CsrfStep::Pass));
    assert_eq!(csrf_token_for_session(&tokens, Some("s1")).len(), 64);
    assert!(!token_needed(&tokens, session_key("s1").as_str(), 8));
}

#[test]
fn a_writing_request_is_checked_unless_exempt() {
    let mut tokens = table_with("s1", "tok", 0);
    let step = csrf_middleware(&mut tokens, Some("s1"), "/agents", Method::Other, 7);
    assert!(matches!(step, CsrfStep::Validate));
    let step = csrf_middleware(&mut tokens, Some("s1"), "/login", Method::Other, 7);
    assert!(matches!(step, CsrfStep::Validate));
    let step = csrf_middleware(&mut tokens, Some("s1"), "/login", Method::Get, 7);
    assert!(matches!(step, CsrfStep::Pass));
    let step = csrf_middleware(&mut tokens, Some("s1"), "/static/app.js", Method::Other, 7);
    assert!(matches!(step, CsrfStep::Pass));
    let step = csrf_middleware(&mut tokens, None, "/agents", Method::Other, 7);
    assert!(matches!(step, CsrfStep::Pass));
}

#[test]
fn the_header_or_the_form_must_hold_the_token() {
    let tokens = table_with("s1", "tok", 0);
    let key = session_key("s1");
    assert!(matches!(
        validate_csrf(&tokens, &key, Some("tok"), None),
        CsrfCheck::Allow
    ));
    assert!(matches!(
        validate_csrf(&tokens, &key, Some("other"), None),
        CsrfCheck::Reject(_)
    ));
    let form = Some("application/x-www-form-urlencoded");
    assert!(matches!(
        validate_csrf(&tokens, &key, None, form),
        CsrfCheck::ReadForm
    ));
    assert!(matches!(
        validate_csrf(&tokens, &key, None, Some("application/json")),
        CsrfCheck::Reject(_)
    ));
    assert!(matches!(
        validate_csrf_form(&tokens, &key, Some(b"_csrf=tok&a=b".as_slice())),
        CsrfCheck::Allow
    ));
    assert!(matches!(
        validate_csrf_form(&tokens, &key, Some(b"_csrf=no".as_slice())),
        CsrfCheck::Reject(_)
    ));
    assert!(matches!(
        validate_csrf_form(&tokens, &key, None),
        CsrfCheck::Reject(_)
    ));
}
