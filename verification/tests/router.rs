use agentos_web::router::{
    add_security_headers, apply_app_headers, apply_artifact_headers, body_limit, cors_origin,
    is_artifact_raw, is_webhook_route, Headers, UPLOAD_BODY_LIMIT, WEBHOOK_BODY_LIMIT,
};
use agentos_web::routes::{routes, routes_in, ROUTES};

fn headers_for(path: &str) -> Headers {
    let mut h = Headers::new();
    h.insert("x-frame-options".to_string(), "DENY".to_string());
    if is_artifact_raw(path) {
        apply_artifact_headers(&mut h);
    } else {
        apply_app_headers(&mut h);
    }
    h
}

fn value(h: &Headers, name: &str) -> Option<String> {
    h.get(name).cloned()
}

fn csp(h: &Headers) -> String {
    value(h, "content-security-policy").unwrap_or_default()
}

#[test]
fn artifact_raw_path_matching() {
    assert!(is_artifact_raw(
        "/artifacts/6f1c1f7e-0000-0000-0000-000000000000/raw"
    ));
    assert!(!is_artifact_raw(
        "/artifacts/6f1c1f7e-0000-0000-0000-000000000000"
    ));
    assert!(!is_artifact_raw("/artifacts"));
    assert!(!is_artifact_raw("/files/abc/raw"));
}

#[test]
fn raw_has_sandbox_csp() {
    let csp = csp(&headers_for("/artifacts/abc/raw"));
    assert!(csp.contains("sandbox allow-scripts"), "got: {csp}");
    assert!(!csp.contains("allow-same-origin"), "got: {csp}");
    assert!(csp.contains("default-src 'none'"), "got: {csp}");
    assert!(!csp.contains("connect-src"), "no fetch/XHR channel: {csp}");
    assert!(csp.contains("form-action 'none'"), "got: {csp}");
    assert!(csp.contains("base-uri 'none'"), "got: {csp}");
    assert!(!csp.contains("allow-popups"), "got: {csp}");
}

#[test]
fn raw_has_no_x_frame_options() {
    let h = headers_for("/artifacts/abc/raw");
    assert!(
        h.get("x-frame-options").is_none(),
        "XFO would block the viewer iframe"
    );
    assert!(csp(&h).contains("frame-ancestors 'self'"));
    assert_eq!(
        value(&h, "x-content-type-options").as_deref(),
        Some("nosniff")
    );
    assert_eq!(value(&h, "referrer-policy").as_deref(), Some("no-referrer"));
}

#[test]
fn viewer_keeps_app_csp() {
    for path in ["/artifacts/abc", "/artifacts", "/files"] {
        let h = headers_for(path);
        assert_eq!(
            value(&h, "x-frame-options").as_deref(),
            Some("DENY"),
            "{path} must keep XFO"
        );
        let csp = csp(&h);
        assert!(csp.contains("default-src 'self'"), "{path}: {csp}");
        assert!(csp.contains("frame-ancestors 'none'"), "{path}: {csp}");
        assert!(!csp.contains("sandbox"), "{path} must not relax: {csp}");
    }
}

#[test]
fn only_one_segment_stands_in_a_raw_path() {
    assert!(!is_artifact_raw("/artifacts//raw"));
    assert!(!is_artifact_raw("/artifacts/a/b/raw"));
    let mut h = Headers::new();
    add_security_headers("/artifacts/a/b/raw", &mut h);
    assert_eq!(value(&h, "x-frame-options").as_deref(), Some("DENY"));
}

#[test]
fn other_headers_are_kept() {
    let mut h = Headers::new();
    h.insert("x-other".to_string(), "1".to_string());
    add_security_headers("/", &mut h);
    assert_eq!(value(&h, "x-other").as_deref(), Some("1"));
}

#[test]
fn the_origin_is_the_bound_address() {
    assert_eq!(cors_origin("10.0.0.1", false, false, 8080), "http://10.0.0.1:8080");
    assert_eq!(cors_origin("0.0.0.0", false, true, 80), "http://127.0.0.1:80");
    assert_eq!(cors_origin("::1", true, false, 80), "http://[::1]:80");
    assert_eq!(cors_origin("::", true, true, 80), "http://127.0.0.1:80");
}

#[test]
fn bodies_are_limited_by_route() {
    assert!(is_webhook_route("/api/v1/webhooks/telegram/7"));
    assert_eq!(
        body_limit("/api/v1/webhooks/incoming/x"),
        Some(WEBHOOK_BODY_LIMIT)
    );
    assert_eq!(body_limit("/files/upload"), Some(UPLOAD_BODY_LIMIT));
    assert_eq!(body_limit("/files"), None);
}

#[test]
fn the_table_lists_every_route() {
    let all = routes();
    assert_eq!(all.len(), ROUTES.lines().count());
    let methods = |pattern: &str| -> Vec<Vec<String>> {
        all.iter().filter(|r| r.pattern == pattern).map(|r| r.methods.clone()).collect()
    };
    assert_eq!(methods("/"), vec![vec!["GET".to_string()]]);
    assert_eq!(methods("/agents"), vec![vec!["GET".to_string(), "POST".to_string()]]);
    assert_eq!(methods("/chat/{session_id}/send"), vec![vec!["POST".to_string()]]);
    assert_eq!(methods("/api/tasks/{id}/context/{idx}/raw"), vec![vec!["GET".to_string()]]);
    assert!(methods("/nowhere").is_empty());
}

#[test]
fn no_pattern_is_listed_twice() {
    let all = routes();
    for (i, route) in all.iter().enumerate() {
        assert!(route.pattern.starts_with('/'), "{}", route.pattern);
        assert!(!route.methods.is_empty(), "{}", route.pattern);
        for method in &route.methods {
            assert!(["GET", "POST", "DELETE"].contains(&method.as_str()), "{method}");
        }
        assert!(
            all[i + 1..].iter().all(|other| other.pattern != route.pattern),
            "{}",
            route.pattern
        );
    }
}

#[test]
fn a_line_has_methods_and_a_pattern() {
    let read = routes_in("GET,POST /a/{x}\nDELETE");
    assert_eq!(read.len(), 2);
    assert_eq!(read[0].pattern, "/a/{x}");
    assert_eq!(read[0].methods, vec!["GET".to_string(), "POST".to_string()]);
    assert_eq!(read[1].pattern, "");
    assert_eq!(read[1].methods, vec!["DELETE".to_string()]);
}

#[test]
fn axum_takes_every_route() {
    let mut router: axum::Router = axum::Router::new();
    for route in routes() {
        router = router.route(&route.pattern, axum::routing::any(|| async {}));
    }
    assert!(router.has_routes());
}
