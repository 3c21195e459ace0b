use agentos_web::clock::{
    age_of, relative_time, Moment, MINUTE_UTC_PATTERN, STAMP_PATTERN, STAMP_UTC_PATTERN,
    TIME_PATTERN,
};
use agentos_web::escape::{
    escape, escape_html_attr, escape_html_text, escape_user_data_close, html_escape,
    truncate_utf8, urlencoding_simple, Entities,
};
use agentos_web::handlers::agent_detail::{AgentTask, OfAgent};
use agentos_web::ids::{fresh_id, is_uuid, short_id, uuid_number};
use agentos_web::json::{compact, parse_json, pretty};
use agentos_web::select::{choose_first, choose_rows};
use agentos_web::sizes::bytes_human;
use agentos_web::sort::sort_rows;
use agentos_web::templates::{
    auto_escaped, human_intent, human_role, humanize_event_type, pretty_json,
    render_tool_data_html, render_tool_data_text, strip_tool_wrapper_tags, truncate,
    truncate_middle, truncate_tool_data, TemplateValue, TOOL_DATA_MAX_BYTES,
};
use agentos_web::task_events::TaskState;
use agentos_web::text::{has_string, parse_comma_list};
use agentos_web::textmap::TextMap;
use agentos_web::toast::toast;

// 2026-04-11T11:25:49Z
const APRIL: Moment = Moment { secs: 1_775_906_749, nanos: 0 };

fn later(secs: i64) -> Moment {
    Moment { secs: APRIL.secs + secs, nanos: 0 }
}

#[test]
fn times_are_shown_by_their_age() {
    let at = "2026-04-11T11:25:49Z";
    assert_eq!(relative_time(at, later(9)), "just now");
    assert_eq!(relative_time(at, later(10)), "10s ago");
    assert_eq!(relative_time(at, later(125)), "2m ago");
    assert_eq!(relative_time(at, later(3 * 3600)), "3h ago");
    assert_eq!(relative_time(at, later(2 * 86_400)), "2d ago");
    assert_eq!(relative_time("2026-04-09T00:00:00Z", later(8 * 86_400)), "Apr 9 2026");
    assert_eq!(relative_time("yesterday", later(0)), "yesterday");
    assert_eq!(relative_time(at, later(-500)), "just now");
    assert!(age_of(APRIL, later(604_800)).is_none());
}

#[test]
fn moments_are_written_and_read_back() {
    assert_eq!(APRIL.stamp(STAMP_PATTERN), "2026-04-11 11:25:49");
    assert_eq!(APRIL.stamp(STAMP_UTC_PATTERN), "2026-04-11 11:25:49 UTC");
    assert_eq!(APRIL.stamp(MINUTE_UTC_PATTERN), "2026-04-11 11:25 UTC");
    assert_eq!(APRIL.stamp(TIME_PATTERN), "11:25:49");
    let iso = APRIL.to_iso();
    assert!(iso.starts_with("2026-04-11T11:25:49"));
    assert!(Moment::from_iso(&iso) == Some(APRIL));
    assert!(Moment::from_iso("2026-04-11T13:25:49+02:00") == Some(APRIL));
    assert!(Moment::from_iso("noon").is_none());
    assert!(APRIL.is_before(later(1)));
    assert!(!APRIL.is_before(APRIL));
    assert_eq!(Moment { secs: 1, nanos: 5 }.total_nanos(), 1_000_000_005);
}

#[test]
fn sizes_read_like_doubles() {
    assert_eq!(bytes_human(0), "0 B");
    assert_eq!(bytes_human(1023), "1023 B");
    assert_eq!(bytes_human(1536), "1.5 KB");
    assert_eq!(bytes_human(1_048_576), "1.0 MB");
    assert_eq!(bytes_human(5_905_580_032), "5.5 GB");
    let kb = 1024.0f64;
    let mb = kb * 1024.0;
    let gb = mb * 1024.0;
    let mut samples: Vec<u64> = vec![
        1280,
        1024 + 51,
        1024 + 52,
        1_048_575,
        1_073_741_823,
        (1 << 53) + 1,
        (1 << 62) + 12_345_679,
        u64::MAX,
        u64::MAX - 1024,
    ];
    for k in 10..64 {
        samples.push((1u64 << k) + (1u64 << (k - 3)));
        samples.push((1u64 << k) + (1u64 << (k - 2)));
        samples.push((1u64 << k) - 1);
    }
    for value in samples {
        let v = value as f64;
        let expected = if v >= gb {
            format!("{:.1} GB", v / gb)
        } else if v >= mb {
            format!("{:.1} MB", v / mb)
        } else if v >= kb {
            format!("{:.1} KB", v / kb)
        } else {
            format!("{} B", value)
        };
        assert_eq!(bytes_human(value), expected, "{value}");
    }
}

#[test]
fn names_are_shown_for_people() {
    assert_eq!(human_role(" USER "), "User");
    assert_eq!(human_role("robot"), "robot");
    assert_eq!(human_intent("delegate"), "Delegate");
    assert_eq!(human_intent("Fly"), "Fly");
    assert_eq!(humanize_event_type("ToolExecuted"), "Tool Executed");
    assert_eq!(humanize_event_type("TOOL_EXECUTED"), "Tool Executed");
    assert!(auto_escaped("chat.html"));
    assert!(!auto_escaped("chat.txt"));
}

#[test]
fn long_texts_are_cut() {
    assert_eq!(truncate("hällo", 5), "hällo");
    assert_eq!(truncate("hällo", 2), "hä…");
    assert_eq!(truncate_middle("abcdefghijkl", 6), "ab…kl");
    assert_eq!(truncate_middle("abc", 6), "abc");
    let long = "é".repeat(TOOL_DATA_MAX_BYTES);
    let cut = truncate_tool_data(long);
    assert!(cut.ends_with("é\n… [truncated]"));
    assert_eq!(cut.len(), TOOL_DATA_MAX_BYTES + "\n… [truncated]".len());
    assert_eq!(truncate_tool_data("x".to_string()), "x");
}

#[test]
fn tool_data_is_unwrapped() {
    assert_eq!(strip_tool_wrapper_tags(" <user_data> x </user_data> "), "x");
    assert_eq!(strip_tool_wrapper_tags("<result>x"), "<result>x");
    let nested = TemplateValue::Text("{\"a\":\"{\\\"b\\\":1}\"}".to_string());
    assert_eq!(
        render_tool_data_html(&nested),
        "<div class=\"chat-tool-formatted\"><dl class=\"chat-tool-kv\"><dt>a</dt><dd>\
         <details class=\"chat-tool-nested\" open><summary>View a</summary>\
         <dl class=\"chat-tool-kv\"><dt>b</dt><dd><span class=\"chat-tool-scalar\">1</span>\
         </dd></dl></details></dd></dl></div>"
    );
    let envelope = TemplateValue::Text(
        "{\"content\":[{\"type\":\"text\",\"text\":\"one\"},{\"type\":\"image\"},\
         {\"type\":\"text\",\"text\":\"two\"}]}"
            .to_string(),
    );
    assert_eq!(render_tool_data_text(&envelope), "one\ntwo");
}

#[test]
fn json_is_shown_indented() {
    let text = TemplateValue::Text("{\"a\":[1,2]}".to_string());
    assert_eq!(pretty_json(&text), "{\n  \"a\": [\n    1,\n    2\n  ]\n}");
    let raw = TemplateValue::Text("not json".to_string());
    assert_eq!(pretty_json(&raw), "not json");
    let data = TemplateValue::Data(parse_json("true").ok().unwrap());
    assert_eq!(pretty_json(&data), "true");
}

#[test]
fn json_is_read_and_written() {
    let v = parse_json("{\"b\": 1.50, \"a\": [null, \"x\"]}").ok().unwrap();
    assert_eq!(compact(&v), "{\"a\":[null,\"x\"],\"b\":1.5}");
    assert_eq!(pretty(&v).lines().count(), 7);
    assert_eq!(v.get("a").and_then(|a| a.text_at("x")), None);
    assert_eq!(v.text_or("c", "other"), "other");
    assert_eq!(v.int_at("b"), None);
    let w = parse_json("{\"n\":-7,\"s\":\"t\",\"l\":[\"p\",\"q\"]}").ok().unwrap();
    assert_eq!(w.int_at("n"), Some(-7));
    assert_eq!(w.text_at("s"), Some("t"));
    assert_eq!(
        w.get("l").and_then(|l| l.as_strings()),
        Some(vec!["p".to_string(), "q".to_string()])
    );
    let error = parse_json("{").err().unwrap();
    assert!(error.contains("EOF"));
}

#[test]
fn ids_are_read() {
    assert!(is_uuid("123e4567-e89b-12d3-a456-426614174000"));
    assert!(!is_uuid("123e4567"));
    assert_eq!(uuid_number("00000000-0000-0000-0000-0000000000ff"), Some(255));
    let id = fresh_id();
    assert!(is_uuid(&id));
    assert_ne!(id, fresh_id());
    assert_eq!(short_id("123e4567-e89b"), "123e4567");
    assert_eq!(short_id("abc"), "abc");
}

#[test]
fn markup_is_escaped() {
    let raw = "<a href='x' title=\"y\">&</a>";
    assert_eq!(
        html_escape(raw),
        escape(raw, Entities::Hex27)
    );
    assert!(html_escape("'").contains("&#x27;"));
    assert_eq!(escape("'", Entities::Dec39), "&#39;");
    assert_eq!(escape("'", Entities::NoApostrophe), "'");
    assert_eq!(escape_html_text("<b>"), "&lt;b&gt;");
    assert_eq!(escape_html_attr("\""), "&quot;");
    assert!(!escape_user_data_close("x</user_data>y").contains("</user_data>"));
    assert_eq!(truncate_utf8("héllo", 2), "h");
    assert_eq!(urlencoding_simple("a b/c&d"), "a%20b%2Fc%26d");
}

fn task(id: u128, agent_id: u128) -> AgentTask {
    AgentTask {
        id,
        agent_id,
        state: TaskState::Running,
        prompt_preview: String::new(),
        created_at: APRIL,
        tool_calls: 0,
        tokens_used: 0,
    }
}

#[test]
fn rows_are_picked_and_sorted_in_order() {
    let rows = vec![task(1, 7), task(2, 8), task(3, 7)];
    let test = OfAgent { agent_id: 7 };
    let ids: Vec<u128> = choose_rows(&rows, &test).iter().map(|t| t.id).collect();
    assert_eq!(ids, vec![1, 3]);
    let ids: Vec<u128> = choose_first(&rows, &test, 1).iter().map(|t| t.id).collect();
    assert_eq!(ids, vec![1]);
    let names = vec!["bb".to_string(), "a".to_string(), "ccc".to_string()];
    assert_eq!(
        sort_rows(names),
        vec!["a".to_string(), "bb".to_string(), "ccc".to_string()]
    );
}

#[test]
fn maps_hold_one_value_for_each_key() {
    let mut map: TextMap<u32> = TextMap::new();
    map.insert("a".to_string(), 1);
    map.insert("b".to_string(), 2);
    map.insert("a".to_string(), 3);
    assert_eq!(map.get("a"), Some(&3));
    map.remove("a");
    assert_eq!(map.get("a"), None);
    assert_eq!(map.get("b"), Some(&2));
}

#[test]
fn a_toast_is_a_trigger() {
    assert_eq!(
        toast("It's \"done\"", "success"),
        "{\"showToast\":{\"message\":\"It's \\\"done\\\"\",\"type\":\"success\"}}"
    );
    assert_eq!(
        parse_comma_list(" a, ,b ,"),
        vec!["a".to_string(), "b".to_string()]
    );
    assert!(has_string(&parse_comma_list("a,b"), "b"));
}
