use agentos_web::clock::Moment;
use agentos_web::handlers::channels::{check_channel_id, disconnect_failed};
use agentos_web::handlers::config_page::{
    section_value, sections, selected_section, ConfigQuery,
};
use agentos_web::handlers::connectors::{
    expiry_label, find_credential, list_connectors, list_connectors_json, Connector,
    ConnectorStatus, Credential,
};
use agentos_web::handlers::doctor::{check, check_name, check_status, NeededFile};
use agentos_web::handlers::escalations::{
    is_approval, lists_resolved, read_decision, resolve, EscalationsQuery,
    ResolveEscalationForm, TaskFate,
};
use agentos_web::handlers::hal_page::{device_row, holders, Device};
use agentos_web::handlers::identity_page::identity;
use agentos_web::handlers::manual_page::{
    section_nav, section_of, view_payload, view_template, ViewQuery,
};
use agentos_web::handlers::marketplace::{
    found_tool, reviews_of_body, tool_of_body, tools_of_body, list_url, read_review, read_reviews, read_tool_detail, read_tools, registry_base_url,
    review_payload, reviews_url, tool_title, tool_url, ReviewForm, TypeFilter,
};
use agentos_web::handlers::mcp_page::{attachment_row, detach, Attachment};
use agentos_web::handlers::oauth::{
    flow_failed, oauth_callback, redirect_uri, resolve_base_url, status_for,
    OAuthCallbackParams, OAuthFlowError,
};
use agentos_web::handlers::plugins::{
    blocked_reason, detail, disable_failed, enable_failed, plugin_item, plugin_status_label, plugin_title,
    tier_label, Plugin, PluginStatus,
};
use agentos_web::handlers::prefs::{accept_location, listed_rows, memory_line, AcceptOutcome};
use agentos_web::handlers::profile::{listed_entries, ListQuery as ProfileQuery};
use agentos_web::handlers::roles::{
    create, create_failed, delete_failed, parse_permissions_block, CreateRoleForm,
};
use agentos_web::handlers::schedules::{
    action_failed, check_schedule_id, create as create_schedule, create_failed as schedule_failed,
    next_runs, preview, preview_reply, CreateScheduleForm, PreviewScheduleForm, ScheduleAction,
};
use agentos_web::handlers::secrets::{
    check_create, parse_scope, revoked, saved, tells_missing, CreateForm, SaveReply, SecretScope,
    MAX_SECRET_BYTES,
};
use agentos_web::handlers::tools::{
    has_extension, install, install_failed, is_allowed, list, removed, InstallRefusal,
    ListQuery as ToolQuery, Resolved, ToolEntry,
};
use agentos_web::handlers::webhooks::{header_map, webhook_status, WebhookOutcome};
use agentos_web::handlers::webhooks_page::{
    asked_agent, check_endpoint_id, check_provider, create as create_webhook,
    create_failed as webhook_failed, created_flash, created_inbound_url,
    delete_failed as webhook_kept, listed_flash, parse_provider, rotated, rotated_flash,
    CreateWebhookForm, ListQuery as WebhookQuery, Rotation, WebhookProvider,
};
use agentos_web::json::{compact, parse_json};

const ID: &str = "00000000-0000-0000-0000-000000000007";
const NOON: Moment = Moment { secs: 1_775_908_800, nanos: 0 };

#[test]
fn webhooks_are_created_for_known_agents() {
    let form = |provider: &str| CreateWebhookForm {
        agent_name: " ann ".to_string(),
        provider: provider.to_string(),
        debounce_seconds: None,
    };
    assert_eq!(parse_provider("github"), Some(WebhookProvider::GitHub));
    assert_eq!(parse_provider("fax"), None);
    assert_eq!(asked_agent(&form("github")), "ann");
    assert_eq!(check_provider(&form("slack")).ok(), Some(WebhookProvider::Slack));
    let (agent, provider, debounce) = create_webhook(&form("stripe"), Some(7)).ok().unwrap();
    assert_eq!((agent, provider, debounce), (7, WebhookProvider::Stripe, 0));
    assert_eq!(create_webhook(&form("fax"), Some(7)).err().map(|r| r.status), Some(400));
    assert!(create_webhook(&form("stripe"), None).is_err());
    assert!(webhook_failed("no").body.contains("no"));
    assert!(webhook_kept("x", "no").body.contains("no"));
    assert_eq!(check_endpoint_id(ID).ok(), Some(7));
    assert!(check_endpoint_id("x").is_err());
}

#[test]
fn a_webhook_secret_is_shown_once() {
    let flash = created_flash(7, "s3cret".to_string());
    assert_eq!(flash.created_secret, "s3cret");
    assert!(created_inbound_url(&flash).contains(ID));
    let listed = listed_flash(&WebhookQuery {
        created_id: Some(ID.to_string()),
        created_secret: Some("s3cret".to_string()),
        rotated_from: None,
    });
    assert_eq!(listed.created_secret, "");
    assert_eq!(listed.created_id, ID);
    assert_eq!(rotated_flash(7, "old", "new".to_string()).rotated_from, "old");
    let done = Rotation::Done { id: 7, secret: "n".to_string() };
    assert_eq!(rotated("old", done).ok().map(|f| f.created_secret).as_deref(), Some("n"));
    assert_eq!(rotated("old", Rotation::Unknown).err().map(|r| r.status), Some(404));
    assert!(rotated("old", Rotation::Failed("e".to_string())).is_err());
}

#[test]
fn inbound_webhooks_are_answered() {
    assert_eq!(webhook_status(WebhookOutcome::Taken), 200);
    assert_eq!(webhook_status(WebhookOutcome::NotFound), 404);
    assert_eq!(webhook_status(WebhookOutcome::RateLimited), 429);
    assert_eq!(webhook_status(WebhookOutcome::InvalidSignature), 401);
    let headers = vec![
        ("X-Hub".to_string(), Some("1".to_string())),
        ("X-Bytes".to_string(), None),
    ];
    assert_eq!(header_map(&headers), vec![("x-hub".to_string(), "1".to_string())]);
    let twice: Vec<(String, Option<String>)> = vec![
        ("X-Sent".to_string(), Some("first".to_string())),
        ("X-Hub".to_string(), Some("1".to_string())),
        ("x-sent".to_string(), Some("last".to_string())),
    ];
    assert_eq!(
        header_map(&twice),
        vec![
            ("x-sent".to_string(), "last".to_string()),
            ("x-hub".to_string(), "1".to_string()),
        ]
    );
}

#[test]
fn schedules_are_previewed() {
    let (status, reply) = preview(
        &PreviewScheduleForm { cron: "0 0 12 * * *".to_string() },
        NOON,
    );
    assert_eq!(status, 200);
    assert!(reply.ok);
    assert_eq!(reply.next_runs[0], "2026-04-12 12:00:00 UTC");
    assert_eq!(reply.next_runs[1], "2026-04-13 12:00:00 UTC");
    let (status, reply) = preview(&PreviewScheduleForm { cron: "whenever".to_string() }, NOON);
    assert_eq!(status, 400);
    assert!(!reply.ok);
    assert!(reply.message.contains("Invalid cron expression"));
    assert!(reply.next_runs.is_empty());
    assert_eq!(next_runs("0 0 12 * * *", NOON, 3).len(), 3);
    assert!(next_runs("whenever", NOON, 3).is_empty());
    let (status, reply) = preview_reply("x", None, vec!["r".to_string()]);
    assert_eq!((status, reply.next_runs.len()), (200, 1));
}

#[test]
fn schedules_are_created() {
    let form = |name: &str| CreateScheduleForm {
        name: name.to_string(),
        agent_name: "a".to_string(),
        cron: "0 0 12 * * *".to_string(),
        prompt: " p ".to_string(),
    };
    let made = create_schedule(&form(" daily ")).ok().unwrap();
    assert_eq!((made.name.as_str(), made.prompt.as_str()), ("daily", "p"));
    assert_eq!(
        create_schedule(&form(" ")).err().map(|r| r.body).as_deref(),
        Some("Missing required fields")
    );
    assert!(schedule_failed("no").body.contains("no"));
    assert_eq!(check_schedule_id(ID).ok(), Some(7));
    assert!(check_schedule_id("x").is_err());
    assert!(action_failed(ScheduleAction::Pause, "x", "no").body.contains("pause schedule"));
    assert!(action_failed(ScheduleAction::Delete, "x", "no").body.contains("delete schedule"));
}

#[test]
fn permission_blocks_are_read_line_by_line() {
    let grants = parse_permissions_block("# all\n\nfs:/tmp:rwX\n net : -q \n").ok().unwrap();
    assert_eq!(grants.len(), 2);
    assert_eq!(grants[0].resource, "fs:/tmp");
    assert!(grants[0].read && grants[0].write && grants[0].execute);
    assert!(!grants[0].query && !grants[0].observe);
    assert!(grants[1].query && !grants[1].read);
    assert_eq!(
        parse_permissions_block("fs:r\nnothing").err().as_deref(),
        Some("Invalid permission at line 2. Expected resource:flags (e.g. fs:/tmp:rwx)")
    );
    assert_eq!(
        parse_permissions_block("fs:rz").err().as_deref(),
        Some("Invalid permission flag 'z' at line 1. Allowed: r w x q o")
    );
}

#[test]
fn roles_are_created() {
    let form = |name: &str, permissions: Option<&str>| CreateRoleForm {
        name: name.to_string(),
        description: None,
        permissions: permissions.map(|p| p.to_string()),
    };
    let role = create(&form(" ops ", Some("fs:r"))).ok().unwrap();
    assert_eq!((role.name.as_str(), role.grants.len()), ("ops", 1));
    assert_eq!(
        create(&form(" ", None)).err().map(|r| r.body).as_deref(),
        Some("Role name is required")
    );
    assert_eq!(create(&form("ops", Some("x"))).err().map(|r| r.status), Some(400));
    assert!(create_failed("ops", "no").body.contains("ops"));
    assert!(delete_failed("ops", "no").body.contains("no"));
}

#[test]
fn plugins_are_looked_up() {
    let blocked = PluginStatus::Blocked { reason: "bad".to_string() };
    assert_eq!(plugin_status_label(&blocked), "blocked");
    assert_eq!(blocked_reason(&blocked).as_deref(), Some("bad"));
    assert!(blocked_reason(&PluginStatus::Active).is_none());
    assert_eq!(tier_label("Community"), "community");
    let plugins = vec![Plugin {
        id: "p".to_string(),
        display_name: "P".to_string(),
        version: "1".to_string(),
        description: String::new(),
        trust_tier: "Core".to_string(),
        status: PluginStatus::Active,
    }];
    assert_eq!(detail(&plugins, "p").ok().map(|p| p.display_name.as_str()), Some("P"));
    assert_eq!(
        detail(&plugins, "q").err().map(|r| r.body).as_deref(),
        Some("Plugin 'q' not found")
    );
    assert!(plugin_title("p").contains('p'));
    assert!(enable_failed("p", "no").body.contains("no"));
    assert!(disable_failed("p", "no").body.contains("no"));
}

#[test]
fn escalations_are_decided() {
    assert!(!lists_resolved(&EscalationsQuery { include_resolved: None }));
    assert!(lists_resolved(&EscalationsQuery { include_resolved: Some(true) }));
    assert!(is_approval("Approved"));
    assert!(!is_approval("maybe"));
    let form = |d: &str| ResolveEscalationForm { decision: d.to_string() };
    assert_eq!(read_decision(&form(" allow ")).ok().as_deref(), Some("allow"));
    assert_eq!(
        read_decision(&form(" ")).err().map(|r| r.body).as_deref(),
        Some("Decision is required")
    );
    assert!(matches!(resolve(3, "allow", Some(true)), Ok(TaskFate::Requeued)));
    assert!(matches!(resolve(3, "allow", Some(false)), Ok(TaskFate::Untouched)));
    match resolve(3, "deny", Some(true)) {
        Ok(TaskFate::Failed { reason }) => {
            assert_eq!(reason, "Escalation 3 denied with decision: deny");
        }
        _ => panic!("a denied task fails"),
    }
    assert_eq!(
        resolve(3, "deny", None).err().map(|r| r.body).as_deref(),
        Some("Escalation 3 not found or already resolved")
    );
}

fn credential(id: &str) -> Credential {
    Credential {
        connector_id: id.to_string(),
        scopes: vec!["read".to_string()],
        expires_at: Some(NOON),
    }
}

#[test]
fn connectors_are_listed_by_id() {
    let registered = vec![Connector {
        id: "slack".to_string(),
        name: "Slack".to_string(),
        tools: vec!["post".to_string()],
    }];
    let providers = vec!["slack".to_string(), "github".to_string()];
    let credentials = vec![credential("slack")];
    let rows = list_connectors(&registered, &providers, &credentials);
    assert_eq!(rows.len(), 2);
    assert_eq!((rows[0].id.as_str(), rows[0].status), ("github", ConnectorStatus::NotConnected));
    assert_eq!((rows[1].id.as_str(), rows[1].status), ("slack", ConnectorStatus::Connected));
    assert_eq!(expiry_label(&rows[1]), "2026-04-11 12:00 UTC");
    assert_eq!(expiry_label(&rows[0]), "—");
    assert_eq!(
        list_connectors_json(&registered, &credentials),
        "[{\"connected\":true,\"id\":\"slack\",\"name\":\"Slack\",\"scopes\":[\"read\"],\
         \"tools\":[\"slack.post\"]}]"
    );
    assert!(find_credential(&credentials, "github").is_none());
    assert_ne!(ConnectorStatus::Connected.label(), ConnectorStatus::Disconnected.label());
}

#[test]
fn secret_scopes_are_read() {
    let scope = |s: &str| parse_scope(&Some(s.to_string()));
    assert_eq!(parse_scope(&None).ok(), Some(SecretScope::Global));
    assert_eq!(scope("kernel").ok(), Some(SecretScope::Kernel));
    assert_eq!(scope(&format!("agent:{ID}")).ok(), Some(SecretScope::Agent(7)));
    assert_eq!(scope(&format!("tool:{ID}")).ok(), Some(SecretScope::Tool(7)));
    assert!(scope("agent:x").err().unwrap().body.contains("agent:<uuid>"));
    assert!(scope("tool:x").err().unwrap().body.contains("tool:<uuid>"));
    assert!(scope("other").err().unwrap().body.starts_with("Unrecognized scope"));
    let form = CreateForm {
        name: "k".to_string(),
        value: "x".repeat(MAX_SECRET_BYTES + 1),
        scope: None,
    };
    assert_eq!(
        check_create(&form).err().map(|r| r.body).as_deref(),
        Some("Secret value too large (max 64 KiB)")
    );
}

#[test]
fn secret_changes_are_told() {
    assert!(matches!(saved(None), SaveReply::Saved { .. }));
    match saved(Some("disk")) {
        SaveReply::Refused { reply, .. } => {
            assert_eq!(reply.body, "Failed to create secret: disk");
        }
        _ => panic!("an error is told"),
    }
    assert!(tells_missing("Secret Not Found"));
    assert_eq!(revoked(Some("not found")).0, 404);
    assert_eq!(revoked(Some("disk")).0, 500);
    assert!(revoked(None).1.is_some());
}

#[test]
fn tools_are_installed_from_allowed_places() {
    let dirs = vec!["/tools".to_string()];
    assert!(has_extension("/tools/a.toml", "toml"));
    assert!(!has_extension("/tools/.toml", "toml"));
    assert!(is_allowed("/tools/a.toml", &dirs));
    assert!(!is_allowed("/toolsx/a.toml", &dirs));
    let status = |r: Resolved| match install(r, &dirs) {
        Err(InstallRefusal::Reply(reply)) => reply.status,
        Err(InstallRefusal::Outside { reply, .. }) => reply.status,
        Ok(_) => 0,
    };
    assert_eq!(status(Resolved::Path("/tools/a.toml".to_string())), 0);
    assert_eq!(status(Resolved::Path("/etc/a.toml".to_string())), 403);
    assert_eq!(status(Resolved::Path("/tools/a.json".to_string())), 400);
    assert_eq!(status(Resolved::Nowhere), 400);
    assert_eq!(status(Resolved::Failed), 500);
    assert!(install_failed("no").body.contains("no"));
    match install(Resolved::Path("/etc/a.toml".to_string()), &dirs) {
        Err(InstallRefusal::Outside { details, .. }) => assert_eq!(
            compact(&details),
            r#"{"action":"tool_install_blocked","canonical_path":"/etc/a.toml","reason":"path_not_in_allowed_dirs"}"#
        ),
        _ => panic!("allowed"),
    }
    assert_eq!(removed(None), 204);
    assert_ne!(removed(Some("no")), 204);
    let tools = vec![ToolEntry {
        id: 1,
        name: "t".to_string(),
        executor_type: "Wasm".to_string(),
    }];
    let query = |t: Option<&str>| ToolQuery {
        partial: None,
        filter_type: t.map(|t| t.to_string()),
    };
    assert_eq!(list(&tools, &query(Some("wasm"))).len(), 1);
    assert_eq!(list(&tools, &query(Some("inline"))).len(), 0);
    assert_eq!(list(&tools, &query(None)).len(), 1);
}

#[test]
fn marketplace_answers_are_read() {
    assert_eq!(registry_base_url(None), "http://localhost:8090");
    assert_eq!(list_url("http://r", ""), "http://r/v1/tools?limit=50");
    assert_eq!(list_url("http://r", "a b"), "http://r/v1/tools?limit=50&q=a%20b");
    assert_eq!(tool_url("http://r", "a/b"), "http://r/v1/tools/a%2Fb");
    assert_eq!(reviews_url("http://r", "a"), "http://r/v1/tools/a/reviews");
    let answer = parse_json(
        "[{\"name\":\"t\",\"downloads\":5,\"tags\":[\"x\"]},\
         {\"name\":\"s\",\"artifact_type\":\"skill\"}]",
    )
    .ok();
    let skills = TypeFilter { artifact_type: "skill".to_string() };
    let all = TypeFilter { artifact_type: String::new() };
    let tools = read_tools(&answer, &all);
    assert_eq!(tools.len(), 2);
    assert_eq!((tools[0].downloads, tools[0].artifact_type.as_str()), (5, "tool"));
    assert_eq!(read_tools(&answer, &skills).len(), 2);
    let others = TypeFilter { artifact_type: "plugin".to_string() };
    assert_eq!(read_tools(&answer, &others).len(), 1);
    assert!(read_tools(&None, &all).is_empty());
    assert!(read_tool_detail(&parse_json("{\"error\":\"no\"}").ok()).is_none());
    assert!(read_tool_detail(&parse_json("{\"name\":\"t\"}").ok()).is_some());
    assert!(found_tool(&parse_json("{\"name\":\"t\"}").ok()).is_ok_and(|t| t.name == "t"));
    match found_tool(&None) {
        Ok(_) => panic!("found"),
        Err(r) => {
            assert_eq!((r.status, r.body.as_str()), (404, "Tool not found in marketplace"))
        }
    }
    assert_eq!(tool_title("t"), "t — Marketplace");
}

#[test]
fn marketplace_bodies_are_parsed() {
    let all = TypeFilter { artifact_type: String::new() };
    let skills = TypeFilter { artifact_type: "skill".to_string() };
    let body = "[{\"name\":\"t\",\"artifact_type\":\"tool\"},\
                {\"name\":\"s\",\"artifact_type\":\"skill\"},{\"name\":\"u\"}]";
    let names = |filter: &TypeFilter| -> Vec<String> {
        tools_of_body(Some(body), filter).into_iter().map(|t| t.name).collect()
    };
    assert_eq!(names(&all), vec!["t", "s", "u"]);
    assert_eq!(names(&skills), vec!["s", "u"]);
    assert!(tools_of_body(Some("{\"name\":\"t\"}"), &all).is_empty());
    assert!(tools_of_body(Some("not json"), &all).is_empty());
    assert!(tools_of_body(None, &all).is_empty());
    assert!(tool_of_body(Some("{\"name\":\"t\"}")).is_ok_and(|t| t.name == "t"));
    assert!(tool_of_body(Some("{\"error\":\"gone\"}")).is_err_and(|r| r.status == 404));
    assert!(tool_of_body(Some("oops")).is_err_and(|r| r.status == 404));
    assert_eq!(reviews_of_body(Some("[{\"id\":3},{}]"))[0].id, 3);
    assert_eq!(reviews_of_body(Some("[{\"id\":3},{}]"))[1].rating, 1);
    assert!(reviews_of_body(Some("[")).is_empty());
}

#[test]
fn reviews_are_read_and_written() {
    let one = parse_json("{\"id\":3,\"rating\":4,\"author_key\":\"k\"}").ok().unwrap();
    let review = read_review(&one);
    assert_eq!((review.id, review.rating), (3, 4));
    assert!(review.body.is_none());
    assert!(read_reviews(&None).is_empty());
    assert_eq!(read_reviews(&parse_json("[{},{}]").ok()).len(), 2);
    let form = ReviewForm { author_key: "k".to_string(), rating: 5, body: None };
    assert_eq!(review_payload(&form), "{\"author_key\":\"k\",\"body\":null,\"rating\":5}");
}

fn view(section: Option<&str>) -> ViewQuery {
    ViewQuery {
        section: section.map(|s| s.to_string()),
        name: Some("n".to_string()),
        query: None,
        page: Some(2),
        page_size: None,
        category: None,
        tag: None,
        verbose: Some(true),
        raw: None,
    }
}

#[test]
fn the_manual_has_sections() {
    assert_eq!(section_nav().len(), 23);
    assert_eq!(section_of(&view(None)), "index");
    assert_eq!(
        compact(&view_payload(&view(Some("tools")))),
        "{\"name\":\"n\",\"page\":2,\"section\":\"tools\",\"verbose\":true}"
    );
    let mut raw = view(None);
    raw.raw = Some(true);
    assert_ne!(view_template(&raw), view_template(&view(None)));
}

#[test]
fn oauth_answers_are_checked() {
    assert_eq!(resolve_base_url(&None, &None), "http://localhost:3000");
    assert_eq!(resolve_base_url(&None, &Some("80".to_string())), "http://localhost:80");
    assert!(redirect_uri("http://h", "slack").starts_with("http://h/"));
    assert_eq!(status_for(OAuthFlowError::Exchange), 502);
    assert_eq!(flow_failed(OAuthFlowError::InvalidState, "x").status, 403);
    let params = |code: Option<&str>, error: Option<&str>| OAuthCallbackParams {
        code: code.map(|c| c.to_string()),
        state: Some("s".to_string()),
        error: error.map(|e| e.to_string()),
        error_description: None,
    };
    assert_eq!(
        oauth_callback(params(Some("c"), None)).ok(),
        Some(("c".to_string(), "s".to_string()))
    );
    assert_eq!(
        oauth_callback(params(None, None)).err().map(|r| r.body).as_deref(),
        Some("Missing authorization code or state")
    );
    assert_eq!(
        oauth_callback(params(Some("c"), Some("denied"))).err().map(|r| r.body).as_deref(),
        Some("OAuth error: denied — no description")
    );
}

#[test]
fn the_configuration_is_shown_by_section() {
    let config = parse_json("{\"audit\":{\"a\":1},\"bus\":2}").ok().unwrap();
    let names = sections(&config);
    assert_eq!(names, vec!["audit".to_string(), "bus".to_string()]);
    let query = |s: Option<&str>| ConfigQuery { section: s.map(|s| s.to_string()) };
    assert_eq!(selected_section(&query(Some("bus")), &names), "bus");
    assert_eq!(selected_section(&query(Some("none")), &names), "audit");
    assert_eq!(selected_section(&query(None), &vec![]), "");
    assert_eq!(section_value(&config, "bus").map(compact).as_deref(), Some("2"));
}

#[test]
fn rows_show_what_is_known() {
    let noon = Moment { secs: 1_775_908_800, nanos: 0 };
    let row = device_row(Device {
        id: "cam".to_string(),
        device_type: "camera".to_string(),
        status: "pending".to_string(),
        granted_to: vec![7, 7],
        denied_to: vec![],
        first_seen: noon,
        status_changed_at: Moment { secs: noon.secs + 60, nanos: 0 },
    });
    assert_eq!(row.granted_to, format!("{ID}, {ID}"));
    assert_eq!(row.denied_to, "");
    assert_eq!(row.first_seen, "2026-04-11 12:00:00");
    assert_eq!(row.status_changed_at, "2026-04-11 12:01:00");
    let attached = attachment_row(Attachment {
        name: "m".to_string(),
        command: Some("npx".to_string()),
        args: vec!["-y".to_string(), "server".to_string()],
        url: None,
        timeout_secs: None,
        oauth_connector_id: None,
        created_at: noon,
    });
    assert_eq!((attached.command.as_str(), attached.args.as_str()), ("npx", "-y server"));
    assert_eq!((attached.url.as_str(), attached.timeout_secs), ("", 0));
    assert_eq!(attached.created_at, "2026-04-11 12:00:00");
    let found = check(NeededFile::Vault, "/tmp/v".to_string(), true);
    assert_eq!((found.name, found.details.as_str()), ("Vault Path", "/tmp/v"));
    assert_eq!(found.status, check_status(NeededFile::Vault, true));
    let item = plugin_item(&Plugin {
        id: "p".to_string(),
        display_name: "P".to_string(),
        version: "1".to_string(),
        description: "d".to_string(),
        trust_tier: "Core".to_string(),
        status: PluginStatus::Blocked { reason: "old".to_string() },
    });
    assert_eq!((item.trust_tier.as_str(), item.blocked_reason.as_deref()), ("core", Some("old")));
    assert_eq!(item.status, plugin_status_label(&PluginStatus::Blocked { reason: String::new() }));
}

#[test]
fn small_pages_say_what_they_know() {
    assert_eq!(check_channel_id(ID).ok(), Some(7));
    assert!(check_channel_id("x").is_err());
    assert!(disconnect_failed("c", "no").body.contains("no"));
    assert!(detach("m", true, false).is_none());
    assert_eq!(
        detach("m", false, false).map(|r| r.body).as_deref(),
        Some("MCP server 'm' not found")
    );
    assert_eq!(holders(&vec![7, 7]), format!("{ID}, {ID}"));
    let known = identity("ann", &Some("a1b2".to_string()));
    assert_eq!(known.public_key, "a1b2");
    assert_eq!(identity("ann", &None).public_key, "");
    assert_ne!(check_status(NeededFile::Vault, true), check_status(NeededFile::Vault, false));
    assert_ne!(check_name(NeededFile::Vault), check_name(NeededFile::AuditLog));
    assert_ne!(accept_location(AcceptOutcome::Accepted), accept_location(AcceptOutcome::Unread));
    assert!(memory_line("likes tea").contains("likes tea"));
    assert_eq!((listed_rows(None), listed_rows(Some(7))), (100, 7));
    assert_eq!(listed_entries(&ProfileQuery { limit: None }), 100);
}
