use agentos_web::auth::is_auth_exempt;
use agentos_web::file_store::{FileStore, NewFile, UploadedFile};
use agentos_web::handlers::artifacts::{
    agent_label, artifact_agent, artifact_item, artifact_kind, artifact_text, build_deck,
    check_artifact_place, html_response, inline_html, is_artifact, load_row_only, raw, raw_body,
    split_slides, tag_value, viewer, Viewer, MAX_ARTIFACT_BYTES, MAX_SLIDES,
};
use agentos_web::handlers::files::{clean_tags, safe_download_mime};
use agentos_web::markdown::{is_safe_href, is_safe_img_src, render_markdown, render_message};
use agentos_web::reply::Lookup;

fn seed(store: &mut FileStore, id: &str, tags: &str, path: &str) {
    let new = NewFile {
        id,
        original_name: "report.html",
        mime: "text/html",
        size: 11,
        path,
        tags,
        owner_principal: "",
        scope: "global",
        now: "2026-04-12T00:00:00Z",
    };
    assert!(store.register_file(&new).is_ok());
}

fn load<'a>(store: &'a FileStore, id: &str) -> Result<&'a UploadedFile, u16> {
    let found = match store.get_file(id, "") {
        Some(f) => Lookup::Found(f),
        None => Lookup::Missing,
    };
    load_row_only(id, found)
}

#[test]
fn load_artifact_reads_tagged_row() {
    let mut store = FileStore::new();
    let id = "aaaaaaaa-0000-0000-0000-00000000a001";
    seed(
        &mut store,
        id,
        "artifact,kind:html,agent:writer",
        "/uploads/artifacts/a001.html",
    );
    let record = match load(&store, id) {
        Ok(r) => r,
        Err(_) => panic!("artifact loads"),
    };
    let content = artifact_text(Some(b"<h1>hi</h1>".as_slice()));
    assert_eq!(content, Ok("<h1>hi</h1>".to_string()));
    assert_eq!(artifact_kind(record), "html");
    assert_eq!(tag_value(record, "agent:").as_deref(), Some("writer"));
}

#[test]
fn raw_rejects_non_artifact_row() {
    let mut store = FileStore::new();
    let id = "aaaaaaaa-0000-0000-0000-00000000a002";
    seed(&mut store, id, "uploaded,report", "/uploads/a002.html");
    let err = load(&store, id).err();
    assert_eq!(
        err,
        Some(404),
        "plain upload must not load as an artifact"
    );
}

#[test]
fn raw_rejects_upload_that_merely_claims_the_artifact_tag() {
    let mut store = FileStore::new();
    let id = "aaaaaaaa-0000-0000-0000-00000000a005";
    seed(&mut store, id, "artifact,kindhtml", "/uploads/a005.html");
    let err = load(&store, id).err();
    assert_eq!(
        err,
        Some(404),
        "self-declared artifact tag must not confer provenance"
    );
}

#[test]
fn path_escape_rejected() {
    let mut store = FileStore::new();
    let id = "aaaaaaaa-0000-0000-0000-00000000a003";
    seed(
        &mut store,
        id,
        "artifact,kind:html,agent:writer",
        "/outside/secret.html",
    );
    let record = load(&store, id).unwrap();
    let err = check_artifact_place(Some(record.path.as_str()), Some("/uploads"));
    assert_eq!(err, Err(404), "path outside uploads_dir must 404");
    assert_eq!(check_artifact_place(Some("/uploads/x"), Some("/uploads")), Ok(()));
    assert_eq!(check_artifact_place(Some("/uploadsx"), Some("/uploads")), Err(404));
    assert_eq!(check_artifact_place(None, Some("/uploads")), Err(404));
}

#[test]
fn raw_content_type_is_html() {
    let resp = html_response("<h1>x</h1>".to_string());
    assert_eq!(resp.content_type, "text/html; charset=utf-8");
    assert_eq!(resp.cache_control, "private, no-store");
    assert_eq!(resp.body, "<h1>x</h1>");
}

#[test]
fn raw_requires_auth() {
    for path in [
        "/artifacts",
        "/artifacts/abc",
        "/artifacts/abc/raw",
        "/artifacts/abc/delete",
    ] {
        assert!(
            !is_auth_exempt(path),
            "/artifacts must not appear in the auth bypass allowlist"
        );
    }
}

#[test]
fn download_mime_unchanged() {
    for mime in ["text/html", "TEXT/HTML", "application/xhtml+xml"] {
        assert!(
            !safe_download_mime(mime).contains("html"),
            "safe_download_mime must never allowlist an HTML mime"
        );
    }
    assert_eq!(safe_download_mime("text/html"), "application/octet-stream");
}

#[test]
fn markdown_strips_raw_html() {
    let out = render_markdown("Hello\n\n<script>alert(1)</script>\n", false);
    assert!(!out.contains("<script"), "script tag survived: {out}");
    assert!(!out.contains("alert"), "script body survived: {out}");

    let out = render_markdown("Hello <script>alert(1)</script>", false);
    assert!(!out.contains("<script"), "inline script survived: {out}");
    assert!(!out.contains("<img"), "no raw tags may survive: {out}");

    let out = render_markdown("Hello\n\n<script>alert(1)</script>\n", true);
    assert!(out.contains("<script"));
}

#[test]
fn markdown_neuters_javascript_links() {
    let out = render_markdown("[click](javascript:alert(1))", false);
    assert!(!out.contains("javascript:"), "js href survived: {out}");
    assert!(out.contains("href=\"#\""), "link not neutered: {out}");

    let out = render_markdown("[ok](https://example.com/x)", false);
    assert!(out.contains("https://example.com/x"));
}

#[test]
fn markdown_image_sources_are_scheme_checked() {
    let out = render_markdown("![x](data:image/png;base64,iVBORw0KGgo=)", false);
    assert!(out.contains("data:image/png"), "data image blanked: {out}");

    for src in [
        "![x](javascript:alert(1))",
        "![x](JaVaScRiPt:alert(1))",
        "![x](data:text/html,<script>alert(1)</script>)",
    ] {
        let out = render_markdown(src, false);
        assert!(!out.contains("javascript"), "js img src survived: {out}");
        assert!(!out.contains("text/html"), "html data uri survived: {out}");
    }
}

#[test]
fn multibyte_destinations_do_not_panic() {
    for src in ["![x](🎉🎉🎉)", "[l](🎉🎉🎉)", "![x](aaaaaaaaaaé)"] {
        let _ = render_markdown(src, false);
        let _ = render_markdown(src, true);
    }
}

#[test]
fn deck_slide_count_is_capped() {
    let src = "a\n---\n".repeat(MAX_SLIDES + 250);
    let deck = build_deck("t", &src);
    assert_eq!(
        deck.matches("<section class=\"slide").count(),
        MAX_SLIDES + 1,
        "slide cap not enforced"
    );
    assert!(deck.contains("Deck truncated"), "truncation not disclosed");

    let exact = build_deck("t", &"a\n---\n".repeat(MAX_SLIDES));
    assert!(!exact.contains("Deck truncated"), "false truncation notice");
}

#[test]
fn markdown_renders_tables() {
    let src = "| a | b |\n|---|---|\n| 1 | 2 |\n";
    let out = render_markdown(src, false);
    assert!(out.contains("<table>"), "no table in output: {out}");
    assert!(out.contains("<td>1</td>"), "no cells in output: {out}");
}

#[test]
fn split_slides_basic() {
    let slides = split_slides("a\n---\nb\n---\nc");
    assert_eq!(slides.len(), 3, "got {slides:?}");
    assert_eq!(slides[0].trim(), "a");
    assert_eq!(slides[1].trim(), "b");
    assert_eq!(slides[2].trim(), "c");
}

#[test]
fn split_slides_ignores_fenced_rule() {
    let src = "intro\n\n```\nfoo\n---\nbar\n```\n\noutro\n";
    let slides = split_slides(src);
    assert_eq!(slides.len(), 1, "fenced rule split the deck: {slides:?}");

    let src = "one\n\n~~~\n---\n~~~\n\n---\n\ntwo\n";
    let slides = split_slides(src);
    assert_eq!(slides.len(), 2, "got {slides:?}");
    assert!(slides[0].contains("~~~"));
    assert!(slides[1].contains("two"));
}

#[test]
fn split_slides_ignores_indented_code_rule() {
    let slides = split_slides("intro\n\n    foo\n    ---\n    bar\n\noutro\n");
    assert_eq!(slides.len(), 1, "indented rule split the deck: {slides:?}");

    let slides = split_slides("a\n\n   ---\n\nb\n");
    assert_eq!(slides.len(), 2, "3-space rule must still split: {slides:?}");

    let slides = split_slides("intro\n\n\tfoo\n\t---\n\tbar\n\noutro\n");
    assert_eq!(
        slides.len(),
        1,
        "tab-indented rule split the deck: {slides:?}"
    );
}

#[test]
fn split_slides_requires_matching_fence_length() {
    let slides = split_slides("````\n---\n```\n````\n\n---\n\ntwo\n");
    assert_eq!(slides.len(), 2, "short fence closed a long one: {slides:?}");
    assert!(slides[1].contains("two"));

    let slides = split_slides("```\n---\n```rust\n---\n```\n\n---\n\ntwo\n");
    assert_eq!(
        slides.len(),
        2,
        "info-string line closed a fence: {slides:?}"
    );
}

#[test]
fn deck_is_self_contained() {
    let deck = build_deck("Deck", "# One\n\n---\n\n# Two\n");
    assert!(!deck.contains("http:"), "external scheme in deck");
    assert!(!deck.contains("https:"), "external scheme in deck");
    assert!(!deck.contains("//"), "scheme-relative URL in deck");
    assert!(deck.contains("<section class=\"slide active\">"));
    assert_eq!(deck.matches("<section class=").count(), 2);
}

#[test]
fn deck_escapes_title() {
    let deck = build_deck("</title><script>alert(1)</script>", "hi");
    assert!(
        deck.contains("&lt;/title&gt;&lt;script&gt;"),
        "title not escaped: {}",
        &deck[..200.min(deck.len())]
    );
    assert!(!deck.contains("</title><script>"));
}

#[test]
fn slides_raw_serves_html_and_markdown_is_404() {
    let body = raw_body("slides", "Deck", "# One\n---\n# Two\n").expect("slides render");
    assert!(body.starts_with("<!doctype html>"));
    assert!(body.contains("<h1>One</h1>"));

    assert_eq!(
        raw_body("html", "Page", "<b>x</b>").as_deref(),
        Some("<b>x</b>")
    );
    assert!(raw_body("markdown", "Doc", "# hi").is_none());
    assert!(raw_body("", "Doc", "# hi").is_none());
    assert!(raw_body("exe", "Doc", "# hi").is_none());
}

#[test]
fn no_upload_becomes_an_artifact() {
    let mut store = FileStore::new();
    let id = "aaaaaaaa-0000-0000-0000-00000000a009";
    let tags = clean_tags("artifact,kind:html,agent:writer");
    assert_eq!(tags, "artifact,kindhtml,agentwriter");
    seed(&mut store, id, &tags, "/uploads/a009.html");
    let f = store.get_file(id, "").unwrap();
    assert!(!is_artifact(f));
}

#[test]
fn each_kind_has_one_renderer() {
    assert!(matches!(viewer("markdown"), Viewer::Inline));
    assert!(matches!(viewer("html"), Viewer::Framed));
    assert!(matches!(viewer("slides"), Viewer::Framed));
    assert!(matches!(viewer("exe"), Viewer::NotFound));
    assert_eq!(inline_html("hi"), "<p>hi</p>\n");
}

#[test]
fn an_agent_is_shown_by_its_name_or_by_its_tag() {
    let mut store = FileStore::new();
    let id = "aaaaaaaa-0000-0000-0000-00000000a007";
    let tags = "artifact,kind:html,agent:11111111-2222-3333-4444-555555555555";
    seed(&mut store, id, tags, "/uploads/a007.html");
    let f = store.get_file(id, "").unwrap();
    assert_eq!(
        artifact_agent(f),
        Some(0x11111111_2222_3333_4444_555555555555)
    );
    assert_eq!(agent_label(f, Some("writer")), "writer");
    assert_eq!(
        agent_label(f, None),
        "11111111-2222-3333-4444-555555555555"
    );
    let item = artifact_item(f, Some("writer"));
    assert_eq!(item.short_id, "aaaaaaaa");
    assert_eq!(item.size_kb, 1);
    assert_eq!(item.kind, "html");
}

#[test]
fn large_and_unreadable_artifacts_are_refused() {
    assert_eq!(artifact_text(None), Err(404));
    let big = vec![b'a'; MAX_ARTIFACT_BYTES as usize + 1];
    assert_eq!(artifact_text(Some(big.as_slice())), Err(413));
    assert!(artifact_text(Some([0xff, 0xfe].as_slice())).is_err());
}

#[test]
fn a_raw_page_carries_its_headers() {
    let mut store = FileStore::new();
    let id = "aaaaaaaa-0000-0000-0000-00000000a008";
    seed(&mut store, id, "artifact,kind:html,agent:w", "/uploads/a008.html");
    let f = store.get_file(id, "").unwrap();
    let page = raw(f, "<p>x</p>");
    assert!(page.is_ok());
    assert_eq!(page.ok().map(|p| p.body), Some("<p>x</p>".to_string()));
}

#[test]
fn link_and_image_targets() {
    assert!(is_safe_href("/x"));
    assert!(is_safe_href("mailto:a@b.c"));
    assert!(!is_safe_href("vbscript:x"));
    assert!(is_safe_img_src("data:image/png;base64,xx"));
    assert!(is_safe_img_src("https://example.com/x.png"));
    assert!(!is_safe_img_src("data:text/html,x"));
}

#[test]
fn a_message_shows_raw_html_as_text() {
    let out = render_message("a <b>x</b>");
    assert!(!out.contains("<b>"));
    assert!(out.contains("&lt;b&gt;"));
}

#[test]
fn splitting_keeps_the_text() {
    let ink = |s: &str| s.chars().filter(|c| !c.is_whitespace()).collect::<String>();
    let src = "a b\n---\n\n---\n```\n---\n```\nc\n";
    let slides = split_slides(src);
    assert_eq!(slides, vec!["a b\n".to_string(), "```\n---\n```\nc\n".to_string()]);
    assert_eq!(ink(&slides.concat()), ink("a b\n\n```\n---\n```\nc\n"));
}
