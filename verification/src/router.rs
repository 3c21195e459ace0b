//! The policies that go with a route: its security headers, its limits, and who may use it.

use crate::auth::auth_exempt;
use crate::text::{
    chars_of, decimal, decimal_text, ends_with, has_char, same, starts_with, str_ends_with,
    str_strip_prefix, strip_prefix, sub_chars,
};
use crate::textmap::TextMap;
use vstd::prelude::*;

verus! {

/// The policy of pages that agents write. `sandbox` without `allow-same-origin` puts the page
/// in an origin of its own: it reaches no cookie, no storage and no other page, and
/// `default-src 'none'` leaves it no network. Without `allow-popups` it opens no window.
pub const ARTIFACT_SANDBOX_CSP: &'static str =
    "sandbox allow-scripts; default-src 'none'; base-uri 'none'; form-action 'none'; img-src data: blob:; style-src 'unsafe-inline'; script-src 'unsafe-inline'; font-src data:; frame-ancestors 'self'";

/// The policy of the application's own pages.
pub const APP_CSP: &'static str =
    "default-src 'self'; script-src 'self' 'unsafe-inline' 'unsafe-eval'; style-src 'self' 'unsafe-inline' https://fonts.googleapis.com; font-src 'self' https://fonts.gstatic.com; img-src 'self' data:; connect-src 'self'; frame-ancestors 'none'";

/// The header of the content policy.
pub const CSP_HEADER: &'static str = "content-security-policy";

/// The header that forbids framing.
pub const FRAME_HEADER: &'static str = "x-frame-options";

/// The header that forbids guessing a content type.
pub const SNIFF_HEADER: &'static str = "x-content-type-options";

/// The header on what a link tells of its page.
pub const REFERRER_HEADER: &'static str = "referrer-policy";

/// Whether a path is that of a raw artifact, `/artifacts/{id}/raw`: an id of one segment
/// stands between the two ends.
pub open spec fn artifact_raw(path: Seq<char>) -> bool {
    strip_prefix(path, "/artifacts/"@) matches Some(rest) && ends_with(rest, "/raw"@) && rest.len()
        > 4 && !rest.subrange(0, rest.len() - 4).contains('/')
}

/// Whether a path is that of a raw artifact.
pub fn is_artifact_raw(path: &str) -> (r: bool)
    ensures
        r == artifact_raw(path@),
{
    proof {
        reveal_strlit("/raw");
    }
    match str_strip_prefix(path, "/artifacts/") {
        Some(rest) => {
            if !str_ends_with(rest.as_str(), "/raw") {
                return false;
            }
            let v: Vec<char> = chars_of(rest.as_str());
            if v.len() <= 4 {
                return false;
            }
            let id: Vec<char> = sub_chars(&v, 0, v.len() - 4);
            !has_char(&id, '/')
        },
        None => false,
    }
}

/// The headers of a response.
pub type Headers = TextMap<String>;

/// The text of a header, where it is set.
pub open spec fn header(h: Map<Seq<char>, String>, name: Seq<char>) -> Option<Seq<char>> {
    if h.dom().contains(name) {
        Some(h[name]@)
    } else {
        None
    }
}

/// Whether a header is none of those that the policies set.
pub open spec fn other_header(name: Seq<char>) -> bool {
    name != CSP_HEADER@ && name != FRAME_HEADER@ && name != SNIFF_HEADER@ && name
        != REFERRER_HEADER@
}

proof fn lemma_headers_differ()
    ensures
        CSP_HEADER@ != FRAME_HEADER@,
        CSP_HEADER@ != SNIFF_HEADER@,
        CSP_HEADER@ != REFERRER_HEADER@,
        FRAME_HEADER@ != SNIFF_HEADER@,
        FRAME_HEADER@ != REFERRER_HEADER@,
        SNIFF_HEADER@ != REFERRER_HEADER@,
{
    reveal_strlit("content-security-policy");
    reveal_strlit("x-frame-options");
    reveal_strlit("x-content-type-options");
    reveal_strlit("referrer-policy");
    assert(CSP_HEADER@.len() == 23);
    assert(FRAME_HEADER@.len() == 15);
    assert(SNIFF_HEADER@.len() == 22);
    assert(REFERRER_HEADER@[0] == 'r');
    assert(FRAME_HEADER@[0] == 'x');
    assert(REFERRER_HEADER@.len() == 15);
}

/// Sets the policy of raw artifacts. The frame that shows them is allowed by the policy
/// itself, so nothing else may forbid framing.
pub fn apply_artifact_headers(headers: &mut Headers)
    requires
        old(headers).wf(),
    ensures
        final(headers).wf(),
        header(final(headers)@, CSP_HEADER@) == Some(ARTIFACT_SANDBOX_CSP@),
        header(final(headers)@, FRAME_HEADER@) is None,
        header(final(headers)@, SNIFF_HEADER@) == Some("nosniff"@),
        header(final(headers)@, REFERRER_HEADER@) == Some("no-referrer"@),
        forall|n: Seq<char>|
            other_header(n) ==> #[trigger] header(final(headers)@, n) == header(old(headers)@, n),
{
    proof {
        lemma_headers_differ();
    }
    headers.insert(CSP_HEADER.to_owned(), ARTIFACT_SANDBOX_CSP.to_owned());
    headers.remove(FRAME_HEADER);
    headers.insert(SNIFF_HEADER.to_owned(), "nosniff".to_owned());
    headers.insert(REFERRER_HEADER.to_owned(), "no-referrer".to_owned());
}

/// Sets the policy of every other response.
pub fn apply_app_headers(headers: &mut Headers)
    requires
        old(headers).wf(),
    ensures
        final(headers).wf(),
        header(final(headers)@, CSP_HEADER@) == Some(APP_CSP@),
        header(final(headers)@, FRAME_HEADER@) == Some("DENY"@),
        header(final(headers)@, SNIFF_HEADER@) == Some("nosniff"@),
        forall|n: Seq<char>|
            n != CSP_HEADER@ && n != FRAME_HEADER@ && n != SNIFF_HEADER@ ==> #[trigger] header(
                final(headers)@,
                n,
            ) == header(old(headers)@, n),
{
    proof {
        lemma_headers_differ();
    }
    headers.insert(CSP_HEADER.to_owned(), APP_CSP.to_owned());
    headers.insert(FRAME_HEADER.to_owned(), "DENY".to_owned());
    headers.insert(SNIFF_HEADER.to_owned(), "nosniff".to_owned());
}

/// Sets the security headers of a response to this path.
pub fn add_security_headers(path: &str, headers: &mut Headers)
    requires
        old(headers).wf(),
    ensures
        final(headers).wf(),
        header(final(headers)@, CSP_HEADER@) == Some(
            if artifact_raw(path@) {
                ARTIFACT_SANDBOX_CSP@
            } else {
                APP_CSP@
            },
        ),
        header(final(headers)@, FRAME_HEADER@) == (if artifact_raw(path@) {
            None
        } else {
            Some("DENY"@)
        }),
        header(final(headers)@, SNIFF_HEADER@) == Some("nosniff"@),
        header(final(headers)@, REFERRER_HEADER@) == (if artifact_raw(path@) {
            Some("no-referrer"@)
        } else {
            header(old(headers)@, REFERRER_HEADER@)
        }),
        forall|n: Seq<char>|
            other_header(n) ==> #[trigger] header(final(headers)@, n) == header(old(headers)@, n),
{
    proof {
        lemma_headers_differ();
    }
    if is_artifact_raw(path) {
        apply_artifact_headers(headers);
    } else {
        apply_app_headers(headers);
    }
}

/// The one origin that other pages may call from: the address that the server is bound to, or
/// the local host where it is bound to every address. An address of version six stands in
/// brackets.
pub fn cors_origin(host: &str, is_v6: bool, is_unspecified: bool, port: u16) -> (r: String)
    ensures
        r@ == "http://"@ + (if is_unspecified {
            "127.0.0.1"@
        } else if is_v6 {
            "["@ + host@ + "]"@
        } else {
            host@
        }) + ":"@ + decimal(port as nat),
{
    let mut out: String = "http://".to_owned();
    if is_unspecified {
        out.push_str("127.0.0.1");
    } else if is_v6 {
        out.push_str("[");
        out.push_str(host);
        out.push_str("]");
        assert(out@ =~= "http://"@ + ("["@ + host@ + "]"@));
    } else {
        out.push_str(host);
    }
    out.push_str(":");
    let port: String = decimal_text(port as u64);
    out.push_str(port.as_str());
    out
}

/// How many requests may come at once.
pub const RATE_BURST: u32 = 60;

/// How many requests per second may come in the long run.
pub const RATE_PER_SECOND: u64 = 1;

/// The largest body of a webhook, in bytes.
pub const WEBHOOK_BODY_LIMIT: usize = 262_144;

/// The largest body of an upload, in bytes: the file, and some room for the form around it.
pub const UPLOAD_BODY_LIMIT: usize = 105_906_176;

/// Whether what follows the prefix is one segment of a path.
pub open spec fn one_segment(path: Seq<char>, prefix: Seq<char>) -> bool {
    strip_prefix(path, prefix) matches Some(rest) && rest.len() > 0 && !rest.contains('/')
}

fn is_one_segment(path: &str, prefix: &str) -> (r: bool)
    ensures
        r == one_segment(path@, prefix@),
{
    match str_strip_prefix(path, prefix) {
        Some(rest) => {
            let v: Vec<char> = chars_of(rest.as_str());
            v.len() > 0 && !has_char(&v, '/')
        },
        None => false,
    }
}

/// Whether a path is one that outside services call. They carry no token of ours.
pub open spec fn webhook_route(path: Seq<char>) -> bool {
    ||| one_segment(path, "/api/v1/webhooks/incoming/"@)
    ||| one_segment(path, "/api/v1/webhooks/telegram/"@)
    ||| one_segment(path, "/api/v1/webhooks/whatsapp/"@)
}

/// Whether a path is one that outside services call.
pub fn is_webhook_route(path: &str) -> (r: bool)
    ensures
        r == webhook_route(path@),
{
    is_one_segment(path, "/api/v1/webhooks/incoming/") || is_one_segment(
        path,
        "/api/v1/webhooks/telegram/",
    ) || is_one_segment(path, "/api/v1/webhooks/whatsapp/")
}

/// The largest body of a request to this path, where it is not the usual one.
pub fn body_limit(path: &str) -> (r: Option<usize>)
    ensures
        r == (if webhook_route(path@) {
            Some(WEBHOOK_BODY_LIMIT)
        } else if path@ == "/files/upload"@ || path@ == "/api/files/upload"@ {
            Some(UPLOAD_BODY_LIMIT)
        } else {
            None
        }),
{
    if is_webhook_route(path) {
        Some(WEBHOOK_BODY_LIMIT)
    } else if same(path, "/files/upload") || same(path, "/api/files/upload") {
        Some(UPLOAD_BODY_LIMIT)
    } else {
        None
    }
}

/// No artifact is served to a request that has not shown a token or a session.
pub proof fn law_artifacts_are_guarded(path: Seq<char>)
    requires
        starts_with(path, "/artifacts"@),
    ensures
        !webhook_route(path),
        !auth_exempt(path),
{
    reveal_strlit("/artifacts");
    reveal_strlit("/api/v1/webhooks/incoming/");
    reveal_strlit("/api/v1/webhooks/telegram/");
    reveal_strlit("/api/v1/webhooks/whatsapp/");
    reveal_strlit("/login");
    reveal_strlit("/static/");
    reveal_strlit("/static");
    assert(path.subrange(0, 10)[1] == path[1] && path.subrange(0, 10)[2] == path[2]);
    assert(path[1] == 'a' && path[2] == 'r');
    assert(starts_with(path, "/static/"@) ==> path.subrange(0, 8)[1] == path[1]);
    assert(starts_with(path, "/api/v1/webhooks/incoming/"@) ==> path.subrange(0, 26)[2] == path[2]);
    assert(starts_with(path, "/api/v1/webhooks/telegram/"@) ==> path.subrange(0, 26)[2] == path[2]);
    assert(starts_with(path, "/api/v1/webhooks/whatsapp/"@) ==> path.subrange(0, 26)[2] == path[2]);
}

/// The paths that outside services call have exactly one segment behind the name of the service;
/// nothing below it, and nothing without it, is one of them.
pub proof fn law_services_call_one_segment(segment: Seq<char>, path: Seq<char>)
    ensures
        segment.len() > 0 && !segment.contains('/') ==> webhook_route(
            "/api/v1/webhooks/incoming/"@ + segment,
        ) && webhook_route("/api/v1/webhooks/telegram/"@ + segment) && webhook_route(
            "/api/v1/webhooks/whatsapp/"@ + segment,
        ),
        segment.len() == 0 || segment.contains('/') ==> !one_segment(
            "/api/v1/webhooks/incoming/"@ + segment,
            "/api/v1/webhooks/incoming/"@,
        ),
        !starts_with(path, "/api/v1/webhooks/"@) ==> !webhook_route(path),
        segment.len() > 0 && !segment.contains('/') ==> artifact_raw(
            "/artifacts/"@ + segment + "/raw"@,
        ),
        segment.len() == 0 || segment.contains('/') ==> !artifact_raw(
            "/artifacts/"@ + segment + "/raw"@,
        ),
{
    reveal_strlit("/api/v1/webhooks/incoming/");
    reveal_strlit("/api/v1/webhooks/telegram/");
    reveal_strlit("/api/v1/webhooks/whatsapp/");
    reveal_strlit("/api/v1/webhooks/");
    reveal_strlit("/raw");
    lemma_behind("/api/v1/webhooks/incoming/"@, segment);
    lemma_behind("/api/v1/webhooks/telegram/"@, segment);
    lemma_behind("/api/v1/webhooks/whatsapp/"@, segment);
    lemma_longer_start(path, "/api/v1/webhooks/incoming/"@, "/api/v1/webhooks/"@);
    lemma_longer_start(path, "/api/v1/webhooks/telegram/"@, "/api/v1/webhooks/"@);
    lemma_longer_start(path, "/api/v1/webhooks/whatsapp/"@, "/api/v1/webhooks/"@);
    let rest = segment + "/raw"@;
    lemma_behind("/artifacts/"@, rest);
    assert("/artifacts/"@ + segment + "/raw"@ =~= "/artifacts/"@ + rest);
    assert(rest.subrange(rest.len() - 4, rest.len() as int) =~= "/raw"@);
    assert(rest.subrange(0, rest.len() - 4) =~= segment);
}

proof fn lemma_behind(prefix: Seq<char>, rest: Seq<char>)
    ensures
        strip_prefix(prefix + rest, prefix) == Some(rest),
{
    let s = prefix + rest;
    assert(s.subrange(0, prefix.len() as int) =~= prefix);
    assert(s.subrange(prefix.len() as int, s.len() as int) =~= rest);
}

proof fn lemma_longer_start(s: Seq<char>, long: Seq<char>, short: Seq<char>)
    requires
        short.len() <= long.len(),
        forall|i: int| 0 <= i < short.len() ==> #[trigger] short[i] == long[i],
    ensures
        starts_with(s, long) ==> starts_with(s, short),
{
    if starts_with(s, long) {
        assert forall|i: int| 0 <= i < short.len() implies s.subrange(
            0,
            short.len() as int,
        )[i] == #[trigger] short[i] by {
            assert(s.subrange(0, long.len() as int)[i] == s[i]);
        }
        assert(s.subrange(0, short.len() as int) =~= short);
    }
}

} // verus!
