//! The filters of the page templates: how names, times and tool data are shown.

use crate::escape::{
    byte_prefix, escape_html_text, escaped, law_byte_prefix_is_longest, truncate_utf8, Entities,
};
use crate::json::{
    contents, entry_contents, lemma_view, parse_json, parsed, pretty, pretty_text, Json, JsonV,
};
use crate::text::{
    ascii_upper, byte_len, chars_of, clip, clipped, contains_text, ends_with, join, join_strings,
    law_trimming_cuts_the_ends, lemma_trim_is_part, lowercased, occurs_at, same, starts_with,
    str_ends_with, str_has_char, str_strip_prefix, string_of, strip_prefix, sub_chars, texts, trim,
    trimmed, utf8_len, whitespace, Cut,
};
use vstd::prelude::*;

verus! {

/// The longest tool data that is shown, in bytes.
pub const TOOL_DATA_MAX_BYTES: usize = 262_144;

/// What is shown behind data that was cut.
pub const TRUNCATED_MARK: &'static str = "\n… [truncated]";

/// How often JSON inside JSON strings is read.
pub const MAX_NESTED_PARSES: u8 = 4;

// ---------------------------------------------------------------------------
// Names
// ---------------------------------------------------------------------------

/// Whether pages of this name are escaped: those that end in `.html`.
pub fn auto_escaped(template_name: &str) -> (r: bool)
    ensures
        r == ends_with(template_name@, ".html"@),
{
    str_ends_with(template_name, ".html")
}

/// The text, or its first characters and an ellipsis where it is longer.
pub fn truncate(value: &str, length: usize) -> (r: String)
    ensures
        r@ == clipped(value@, length as int, "…"@),
{
    clip(value, length, "…")
}

/// A role as it is shown.
pub open spec fn role_label(value: Seq<char>) -> Seq<char> {
    let v = lowercased(trim(value));
    if v == "user"@ {
        "User"@
    } else if v == "assistant"@ {
        "Assistant"@
    } else if v == "system"@ {
        "System"@
    } else if v == "tool"@ {
        "Tool"@
    } else {
        value
    }
}

/// A role as it is shown.
pub fn human_role(value: &str) -> (r: String)
    ensures
        r@ == role_label(value@),
{
    let t: String = trimmed(value);
    let v: String = t.as_str().to_lowercase();
    let shown: &str = if same(v.as_str(), "user") {
        "User"
    } else if same(v.as_str(), "assistant") {
        "Assistant"
    } else if same(v.as_str(), "system") {
        "System"
    } else if same(v.as_str(), "tool") {
        "Tool"
    } else {
        value
    };
    shown.to_owned()
}

/// An intent as it is shown.
pub open spec fn intent_label(value: Seq<char>) -> Seq<char> {
    let v = lowercased(trim(value));
    if v == "read"@ {
        "Read"@
    } else if v == "write"@ {
        "Write"@
    } else if v == "execute"@ {
        "Execute"@
    } else if v == "query"@ {
        "Query"@
    } else if v == "observe"@ {
        "Observe"@
    } else if v == "delegate"@ {
        "Delegate"@
    } else if v == "message"@ {
        "Message"@
    } else if v == "broadcast"@ {
        "Broadcast"@
    } else if v == "escalate"@ {
        "Escalate"@
    } else if v == "subscribe"@ {
        "Subscribe"@
    } else if v == "unsubscribe"@ {
        "Unsubscribe"@
    } else {
        value
    }
}

/// An intent as it is shown.
pub fn human_intent(value: &str) -> (r: String)
    ensures
        r@ == intent_label(value@),
{
    let t: String = trimmed(value);
    let v: String = t.as_str().to_lowercase();
    let shown: &str = if same(v.as_str(), "read") {
        "Read"
    } else if same(v.as_str(), "write") {
        "Write"
    } else if same(v.as_str(), "execute") {
        "Execute"
    } else if same(v.as_str(), "query") {
        "Query"
    } else if same(v.as_str(), "observe") {
        "Observe"
    } else if same(v.as_str(), "delegate") {
        "Delegate"
    } else if same(v.as_str(), "message") {
        "Message"
    } else if same(v.as_str(), "broadcast") {
        "Broadcast"
    } else if same(v.as_str(), "escalate") {
        "Escalate"
    } else if same(v.as_str(), "subscribe") {
        "Subscribe"
    } else if same(v.as_str(), "unsubscribe") {
        "Unsubscribe"
    } else {
        value
    };
    shown.to_owned()
}

/// Whether a character outside ASCII is upper case in Unicode.
pub uninterp spec fn unicode_upper(c: char) -> bool;

/// Whether a character is upper case.
pub open spec fn upper(c: char) -> bool {
    if (c as u32) < 128 {
        ascii_upper(c)
    } else {
        unicode_upper(c)
    }
}

/// `char::is_uppercase`: in ASCII the letters `A` to `Z`; elsewhere Unicode's `Uppercase`
/// property, under a name.
pub assume_specification[ char::is_uppercase ](c: char) -> (r: bool)
    ensures
        r == (if (c as u32) < 128 {
            ascii_upper(c)
        } else {
            unicode_upper(c)
        }),
;

/// Whether a name is written in capitals: it has an underscore, and apart from underscores only
/// upper-case characters.
pub open spec fn in_capitals(s: Seq<char>) -> bool {
    s.contains('_') && forall|i: int|
        0 <= i < s.len() ==> #[trigger] s[i] == '_' || upper(s[i])
}

/// A name in capitals, word by word: the first letter of each word stays, the others are
/// lowered, and a space stands between words.
pub open spec fn capital_words(s: Seq<char>) -> Seq<char>
    decreases s.len(),
{
    if s.len() == 0 {
        s
    } else {
        let before = capital_words(s.drop_last());
        let c = s.last();
        if c == '_' {
            before
        } else if before.len() == 0 {
            before + seq![c]
        } else if s[s.len() - 2] == '_' {
            before + " "@ + seq![c]
        } else {
            before + lowercased(seq![c])
        }
    }
}

/// Whether the last character that is no underscore is not upper case.
pub open spec fn ends_lower(s: Seq<char>) -> bool
    decreases s.len(),
{
    if s.len() == 0 {
        false
    } else if s.last() == '_' {
        ends_lower(s.drop_last())
    } else {
        !upper(s.last())
    }
}

/// A name without its underscores, with a space between a lower-case and an upper-case
/// character.
pub open spec fn spaced(s: Seq<char>) -> Seq<char>
    decreases s.len(),
{
    if s.len() == 0 {
        s
    } else {
        let before = spaced(s.drop_last());
        let c = s.last();
        if c == '_' {
            before
        } else if upper(c) && ends_lower(s.drop_last()) {
            before.push(' ').push(c)
        } else {
            before.push(c)
        }
    }
}

/// An event type as it is shown: `ToolExecuted` and `TOOL_EXECUTED` are both `Tool Executed`.
pub open spec fn event_label(s: Seq<char>) -> Seq<char> {
    if in_capitals(s) {
        capital_words(s)
    } else {
        spaced(s)
    }
}

/// An event type as it is shown.
pub fn humanize_event_type(value: &str) -> (r: String)
    ensures
        r@ == event_label(value@),
{
    let v: Vec<char> = chars_of(value);
    let mut capitals: bool = true;
    let mut underscore: bool = false;
    let mut i: usize = 0;
    while i < v.len()
        invariant
            i <= v@.len(),
            v@ == value@,
            capitals == (forall|k: int|
                0 <= k < i ==> #[trigger] value@[k] == '_' || upper(value@[k])),
            underscore == (exists|k: int| 0 <= k < i && #[trigger] value@[k] == '_'),
        decreases v.len() - i,
    {
        let c: char = v[i];
        if c == '_' {
            underscore = true;
            assert(value@[i as int] == '_');
        } else if !c.is_uppercase() {
            assert(!(value@[i as int] == '_' || upper(value@[i as int])));
            capitals = false;
        }
        i += 1;
    }
    assert((capitals && underscore) == in_capitals(value@)) by {
        if in_capitals(value@) {
            let k = choose|k: int| 0 <= k < value@.len() && value@[k] == '_';
            assert(value@[k] == '_');
        }
        if underscore {
            let k = choose|k: int| 0 <= k < i && #[trigger] value@[k] == '_';
            assert(value@.contains('_'));
        }
    }
    if capitals && underscore {
        words_of_capitals(value)
    } else {
        space_out(value)
    }
}

fn words_of_capitals(value: &str) -> (r: String)
    ensures
        r@ == capital_words(value@),
{
    let v: Vec<char> = chars_of(value);
    let mut out: String = String::new();
    let mut empty: bool = true;
    let mut i: usize = 0;
    assert(value@.take(0) =~= Seq::<char>::empty());
    while i < v.len()
        invariant
            i <= v@.len(),
            v@ == value@,
            out@ == capital_words(value@.take(i as int)),
            empty == (out@.len() == 0),
        decreases v.len() - i,
    {
        let ghost upto = value@.take(i + 1);
        assert(upto.drop_last() =~= value@.take(i as int));
        assert(upto.last() == v@[i as int]);
        let ghost before = out@;
        let c: char = v[i];
        if c != '_' {
            if empty {
                out.push(c);
                assert(out@ =~= before + seq![c]);
                empty = false;
            } else {
                proof {
                    if i == 0 {
                        assert(capital_words(value@.take(0)).len() == 0);
                    }
                    assert(upto[upto.len() - 2] == v@[i - 1]);
                }
                if v[i - 1] == '_' {
                    out.push_str(" ");
                    out.push(c);
                    assert(out@ =~= before + " "@ + seq![c]);
                } else {
                    let mut one: String = String::new();
                    one.push(c);
                    assert(one@ =~= seq![c]);
                    let low: String = one.as_str().to_lowercase();
                    out.push_str(low.as_str());
                }
            }
        }
        i += 1;
    }
    assert(value@.take(i as int) =~= value@);
    out
}

fn space_out(value: &str) -> (r: String)
    ensures
        r@ == spaced(value@),
{
    let v: Vec<char> = chars_of(value);
    let mut out: String = String::new();
    let mut prev_lower: bool = false;
    let mut i: usize = 0;
    assert(value@.take(0) =~= Seq::<char>::empty());
    while i < v.len()
        invariant
            i <= v@.len(),
            v@ == value@,
            out@ == spaced(value@.take(i as int)),
            prev_lower == ends_lower(value@.take(i as int)),
        decreases v.len() - i,
    {
        assert(value@.take(i + 1).drop_last() =~= value@.take(i as int));
        assert(value@.take(i + 1).last() == v@[i as int]);
        let c: char = v[i];
        if c != '_' {
            if c.is_uppercase() {
                if prev_lower {
                    out.push(' ');
                }
                out.push(c);
                prev_lower = false;
            } else {
                out.push(c);
                prev_lower = true;
            }
        }
        i += 1;
    }
    assert(value@.take(i as int) =~= value@);
    out
}

/// How many characters stand at either end of a text that is cut in the middle.
pub open spec fn middle_half(length: int) -> int {
    if length == 0 {
        0
    } else {
        (length - 1) / 2
    }
}

/// The text, or its ends around an ellipsis where it is longer.
pub open spec fn middle_cut(s: Seq<char>, length: int) -> Seq<char> {
    if s.len() <= length {
        s
    } else {
        let half = middle_half(length);
        s.subrange(0, half) + "…"@ + s.subrange(s.len() - half, s.len() as int)
    }
}

/// The text, or its ends around an ellipsis where it is longer: `abcdefghijkl` cut to six
/// characters is `ab…kl`.
pub fn truncate_middle(value: &str, length: usize) -> (r: String)
    ensures
        r@ == middle_cut(value@, length as int),
{
    let v: Vec<char> = chars_of(value);
    if v.len() <= length {
        return value.to_owned();
    }
    let half: usize = if length == 0 {
        0
    } else {
        (length - 1) / 2
    };
    let head: Vec<char> = sub_chars(&v, 0, half);
    let tail: Vec<char> = sub_chars(&v, v.len() - half, v.len());
    let mut out: String = string_of(&head);
    let tail: String = string_of(&tail);
    out.push_str("…");
    out.push_str(tail.as_str());
    out
}

/// A text that is cut in the middle is no longer than asked for, the ellipsis included.
pub proof fn law_middle_cut_fits(s: Seq<char>, length: int)
    requires
        length >= 1,
    ensures
        middle_cut(s, length).len() <= length,
{
    reveal_strlit("…");
}

// ---------------------------------------------------------------------------
// Tool data
// ---------------------------------------------------------------------------

/// A value that a template hands to a filter: a string, or other data.
pub enum TemplateValue {
    Text(String),
    Data(Json),
}

impl TemplateValue {
    /// The text that is read: the string itself, or the indented text of the data.
    pub open spec fn raw(self) -> Seq<char> {
        match self {
            TemplateValue::Text(s) => s@,
            TemplateValue::Data(j) => pretty_text(j@),
        }
    }

    fn raw_text(&self) -> (r: String)
        ensures
            r@ == self.raw(),
    {
        match self {
            TemplateValue::Text(s) => s.clone(),
            TemplateValue::Data(j) => pretty(j),
        }
    }
}

/// What stands between the tags, where the text starts with one and ends with the other.
pub open spec fn between(s: Seq<char>, open: Seq<char>, close: Seq<char>) -> Option<Seq<char>> {
    match strip_prefix(s, open) {
        Some(rest) => if ends_with(rest, close) {
            Some(rest.subrange(0, rest.len() - close.len()))
        } else {
            None
        },
        None => None,
    }
}

fn text_between(s: &str, open: &str, close: &str) -> (r: Option<String>)
    ensures
        crate::text::opt_text(r) == between(s@, open@, close@),
{
    match str_strip_prefix(s, open) {
        Some(rest) => if str_ends_with(rest.as_str(), close) {
            let v: Vec<char> = chars_of(rest.as_str());
            let c: Vec<char> = chars_of(close);
            let inner: Vec<char> = sub_chars(&v, 0, v.len() - c.len());
            Some(string_of(&inner))
        } else {
            None
        },
        None => None,
    }
}

/// The text without the tags that a tool puts around its data, trimmed.
pub open spec fn unwrapped(s: Seq<char>) -> Seq<char> {
    let t = trim(s);
    if between(t, "<user_data>"@, "</user_data>"@) is Some {
        trim(between(t, "<user_data>"@, "</user_data>"@)->0)
    } else if between(t, "<tool_result>"@, "</tool_result>"@) is Some {
        trim(between(t, "<tool_result>"@, "</tool_result>"@)->0)
    } else if between(t, "<tool_input>"@, "</tool_input>"@) is Some {
        trim(between(t, "<tool_input>"@, "</tool_input>"@)->0)
    } else if between(t, "<result>"@, "</result>"@) is Some {
        trim(between(t, "<result>"@, "</result>"@)->0)
    } else {
        t
    }
}

/// The text without the tags that a tool puts around its data, trimmed.
pub fn strip_tool_wrapper_tags(s: &str) -> (r: String)
    ensures
        r@ == unwrapped(s@),
{
    let t: String = trimmed(s);
    if let Some(inner) = text_between(t.as_str(), "<user_data>", "</user_data>") {
        return trimmed(inner.as_str());
    }
    if let Some(inner) = text_between(t.as_str(), "<tool_result>", "</tool_result>") {
        return trimmed(inner.as_str());
    }
    if let Some(inner) = text_between(t.as_str(), "<tool_input>", "</tool_input>") {
        return trimmed(inner.as_str());
    }
    if let Some(inner) = text_between(t.as_str(), "<result>", "</result>") {
        return trimmed(inner.as_str());
    }
    t
}

/// Whether a string looks like a JSON object or array.
pub open spec fn json_like(t: Seq<char>) -> bool {
    t.len() > 0 && ((t[0] == '{' && t.last() == '}') || (t[0] == '[' && t.last() == ']'))
}

/// The value that a text holds, with the strings in it that are JSON read in turn.
pub open spec fn deep_parsed(s: Seq<char>, depth: int) -> JsonV
    decreases 6 - depth, 1int, JsonV::Null,
{
    if depth < 0 || depth > MAX_NESTED_PARSES {
        JsonV::Text(s)
    } else {
        match parsed(s) {
            Ok(v) => deep_resolved(v, depth),
            Err(_) => JsonV::Text(s),
        }
    }
}

/// The value with the strings in it that are JSON read in turn.
pub open spec fn deep_resolved(v: JsonV, depth: int) -> JsonV
    decreases 6 - depth, 0int, v,
{
    match v {
        JsonV::Text(s) => if !json_like(trim(s)) {
            v
        } else if depth < 0 || depth > MAX_NESTED_PARSES {
            JsonV::Text(trim(s))
        } else {
            deep_parsed(trim(s), depth + 1)
        },
        JsonV::Array(items) => JsonV::Array(
            Seq::new(
                items.len(),
                |i: int|
                    if 0 <= i < items.len() {
                        deep_resolved(items[i], depth)
                    } else {
                        JsonV::Null
                    },
            ),
        ),
        JsonV::Object(entries) => JsonV::Object(
            Seq::new(
                entries.len(),
                |i: int|
                    if 0 <= i < entries.len() {
                        (entries[i].0, deep_resolved(entries[i].1, depth))
                    } else {
                        (Seq::empty(), JsonV::Null)
                    },
            ),
        ),
        _ => v,
    }
}

fn is_json_like(t: &str) -> (r: bool)
    ensures
        r == json_like(t@),
{
    let v: Vec<char> = chars_of(t);
    let n: usize = v.len();
    n > 0 && ((v[0] == '{' && v[n - 1] == '}') || (v[0] == '[' && v[n - 1] == ']'))
}

/// The value that a text holds, with the strings in it that are JSON read in turn.
pub fn deep_parse_tool_json(s: &str, depth: u8) -> (r: Json)
    requires
        depth <= 5,
    ensures
        r@ == deep_parsed(s@, depth as int),
    decreases 6 - depth, 1int, Json::Null,
{
    if depth > MAX_NESTED_PARSES {
        return Json::Text(s.to_owned());
    }
    match parse_json(s) {
        Ok(v) => deep_resolve_tool_json(&v, depth),
        Err(_) => Json::Text(s.to_owned()),
    }
}

/// The value with the strings in it that are JSON read in turn.
pub fn deep_resolve_tool_json(v: &Json, depth: u8) -> (r: Json)
    requires
        depth <= 4,
    ensures
        r@ == deep_resolved(v@, depth as int),
    decreases 6 - depth, 0int, v,
{
    proof {
        lemma_view(*v);
    }
    match v {
        Json::Null => Json::Null,
        Json::Bool(b) => Json::Bool(*b),
        Json::Number(n) => Json::Number(n.clone()),
        Json::Float(n) => Json::Float(n.clone()),
        Json::Text(s) => {
            let t: String = trimmed(s.as_str());
            if is_json_like(t.as_str()) {
                deep_parse_tool_json(t.as_str(), depth + 1)
            } else {
                Json::Text(s.clone())
            }
        },
        Json::Array(items) => {
            let mut out: Vec<Json> = Vec::new();
            let mut i: usize = 0;
            while i < items.len()
                invariant
                    i <= items@.len(),
                    depth <= 4,
                    *v == Json::Array(*items),
                    out@.len() == i,
                    forall|k: int|
                        0 <= k < i ==> (#[trigger] out@[k])@ == deep_resolved(
                            items@[k]@,
                            depth as int,
                        ),
                decreases items.len() - i,
            {
                assert(decreases_to!(*v => v->Array_0));
                assert(decreases_to!(items@ => items@[i as int]));
                out.push(deep_resolve_tool_json(&items[i], depth));
                i += 1;
            }
            let r: Json = Json::Array(out);
            proof {
                lemma_view(r);
                assert(contents(out@) =~= deep_resolved(v@, depth as int)->Array_0);
            }
            r
        },
        Json::Object(entries) => {
            let mut out: Vec<(String, Json)> = Vec::new();
            let mut i: usize = 0;
            while i < entries.len()
                invariant
                    i <= entries@.len(),
                    depth <= 4,
                    *v == Json::Object(*entries),
                    out@.len() == i,
                    forall|k: int|
                        0 <= k < i ==> (#[trigger] out@[k]).0@ == entries@[k].0@ && out@[k].1@
                            == deep_resolved(entries@[k].1@, depth as int),
                decreases entries.len() - i,
            {
                assert(decreases_to!(*v => v->Object_0));
                assert(decreases_to!(entries@ => entries@[i as int]));
                assert(decreases_to!(entries@[i as int] => entries@[i as int].1));
                out.push((entries[i].0.clone(), deep_resolve_tool_json(&entries[i].1, depth)));
                i += 1;
            }
            let r: Json = Json::Object(out);
            proof {
                lemma_view(r);
                let want = deep_resolved(v@, depth as int)->Object_0;
                assert forall|k: int| 0 <= k < out@.len() implies entry_contents(out@)[k]
                    == want[k] by {
                    assert(out@[k].1@ == deep_resolved(entries@[k].1@, depth as int));
                    assert(entry_contents(entries@)[k] == (entries@[k].0@, entries@[k].1@));
                }
                assert(entry_contents(out@) =~= want);
            }
            r
        },
    }
}

/// The texts of the items that are text content, in order.
pub open spec fn content_texts(items: Seq<JsonV>) -> Seq<Seq<char>>
    decreases items.len(),
{
    if items.len() == 0 {
        Seq::empty()
    } else {
        let before = content_texts(items.drop_last());
        let item = items.last();
        if item.text_at("type"@) == Some("text"@) && item.text_at("text"@) is Some {
            before.push(item.text_at("text"@)->0)
        } else {
            before
        }
    }
}

/// What an envelope holds: the text content under `content`, read as JSON where it is JSON.
/// What has no text content is no envelope.
pub open spec fn enveloped(v: JsonV) -> Option<JsonV> {
    match v.get("content"@) {
        Some(JsonV::Array(items)) => {
            let found = content_texts(items);
            if found.len() == 0 {
                None
            } else {
                match parsed(join(found, "\n"@)) {
                    Ok(inner) => Some(inner),
                    Err(_) => Some(JsonV::Text(join(found, "\n"@))),
                }
            }
        },
        _ => None,
    }
}

/// What an envelope of text content holds.
pub fn unwrap_tool_mcp_envelope(v: &Json) -> (r: Option<Json>)
    ensures
        match r {
            Some(j) => enveloped(v@) == Some(j@),
            None => enveloped(v@) is None,
        },
{
    let content: &Json = match v.get("content") {
        Some(c) => c,
        None => {
            return None;
        },
    };
    proof {
        lemma_view(*content);
    }
    let items: &Vec<Json> = match content {
        Json::Array(items) => items,
        _ => {
            return None;
        },
    };
    let ghost all = contents(items@);
    let mut found: Vec<String> = Vec::new();
    let mut i: usize = 0;
    assert(all.take(0) =~= Seq::<JsonV>::empty());
    assert(texts(found@) =~= Seq::<Seq<char>>::empty());
    while i < items.len()
        invariant
            i <= items@.len(),
            all == contents(items@),
            texts(found@) == content_texts(all.take(i as int)),
        decreases items.len() - i,
    {
        assert(all.take(i + 1).drop_last() =~= all.take(i as int));
        assert(all.take(i + 1).last() == items@[i as int]@);
        let is_text: bool = match items[i].text_at("type") {
            Some(t) => same(t, "text"),
            None => false,
        };
        if is_text {
            if let Some(t) = items[i].text_at("text") {
                let ghost before = texts(found@);
                found.push(t.to_owned());
                assert(texts(found@) =~= before.push(t@));
            }
        }
        i += 1;
    }
    assert(all.take(i as int) =~= all);
    if found.len() == 0 {
        return None;
    }
    let combined: String = join_strings(&found, "\n");
    match parse_json(combined.as_str()) {
        Ok(inner) => Some(inner),
        Err(_) => Some(Json::Text(combined)),
    }
}

/// The value that tool data holds.
pub open spec fn tool_value(raw: Seq<char>) -> JsonV {
    let v = deep_parsed(unwrapped(raw), 0);
    deep_resolved(
        match enveloped(v) {
            Some(inner) => inner,
            None => v,
        },
        0,
    )
}

/// The value that tool data holds: without its tags, out of its envelope, and with the strings
/// in it that are JSON read in turn.
pub fn parsed_tool_value(value: &TemplateValue) -> (r: Json)
    ensures
        r@ == tool_value(value.raw()),
{
    let raw: String = value.raw_text();
    let bare: String = strip_tool_wrapper_tags(raw.as_str());
    let v: Json = deep_parse_tool_json(bare.as_str(), 0);
    let v: Json = match unwrap_tool_mcp_envelope(&v) {
        Some(inner) => inner,
        None => v,
    };
    deep_resolve_tool_json(&v, 0)
}

/// Data cut to what is shown.
pub open spec fn cut_data(s: Seq<char>) -> Seq<char> {
    if utf8_len(s) > TOOL_DATA_MAX_BYTES {
        byte_prefix(s, TOOL_DATA_MAX_BYTES as int) + TRUNCATED_MARK@
    } else {
        s
    }
}

/// Data cut to what is shown.
pub fn truncate_tool_data(rendered: String) -> (r: String)
    ensures
        r@ == cut_data(rendered@),
{
    if byte_len(rendered.as_str()) > TOOL_DATA_MAX_BYTES {
        let mut out: String = truncate_utf8(rendered.as_str(), TOOL_DATA_MAX_BYTES);
        out.push_str(TRUNCATED_MARK);
        out
    } else {
        rendered
    }
}

/// Tool data as text: a string is shown bare, other values indented.
pub fn render_tool_data_text(value: &TemplateValue) -> (r: String)
    ensures
        r@ == cut_data(
            match tool_value(value.raw()) {
                JsonV::Text(s) => s,
                v => pretty_text(v),
            },
        ),
{
    let v: Json = parsed_tool_value(value);
    let text: String = match &v {
        Json::Text(s) => s.clone(),
        other => pretty(other),
    };
    truncate_tool_data(text)
}

/// A value as indented JSON. A string is read as JSON first, and stands as it is where it is
/// none.
pub fn pretty_json(value: &TemplateValue) -> (r: String)
    ensures
        r@ == cut_data(
            match value {
                TemplateValue::Text(s) => match parsed(s@) {
                    Ok(v) => pretty_text(v),
                    Err(_) => s@,
                },
                TemplateValue::Data(j) => pretty_text(j@),
            },
        ),
{
    let text: String = match value {
        TemplateValue::Text(s) => match parse_json(s.as_str()) {
            Ok(v) => pretty(&v),
            Err(_) => s.clone(),
        },
        TemplateValue::Data(j) => pretty(j),
    };
    truncate_tool_data(text)
}

/// The depth of the values inside a value. From four on it no longer matters.
pub open spec fn deeper(depth: int) -> int {
    if depth < 4 {
        depth + 1
    } else {
        depth
    }
}

/// A string as HTML.
pub open spec fn string_html(s: Seq<char>) -> Seq<char> {
    let e = escaped(s, Entities::Dec39);
    if s.contains('\n') || utf8_len(s) > 120 {
        "<pre class=\"chat-tool-text\">"@ + e + "</pre>"@
    } else if s.len() == 0 {
        "<span class=\"chat-tool-empty\">empty string</span>"@
    } else {
        "<span class=\"chat-tool-string\">"@ + e + "</span>"@
    }
}

/// A value as HTML.
pub open spec fn value_html(v: JsonV, depth: int) -> Seq<char>
    decreases v,
{
    match v {
        JsonV::Null => "<span class=\"chat-tool-empty\">empty</span>"@,
        JsonV::Bool(b) => "<span class=\"chat-tool-scalar\">"@ + (if b {
            "true"@
        } else {
            "false"@
        }) + "</span>"@,
        JsonV::Number(n) | JsonV::Float(n) => "<span class=\"chat-tool-scalar\">"@ + n + "</span>"@,
        JsonV::Text(s) => string_html(s),
        JsonV::Array(items) => if items.len() == 0 {
            "<span class=\"chat-tool-empty\">empty list</span>"@
        } else {
            "<ol class=\"chat-tool-list\">"@ + items_html(items, depth) + "</ol>"@
        },
        JsonV::Object(entries) => if entries.len() == 0 {
            "<span class=\"chat-tool-empty\">empty object</span>"@
        } else {
            "<dl class=\"chat-tool-kv\">"@ + entries_html(entries, depth) + "</dl>"@
        },
    }
}

/// The items of a list as HTML.
pub open spec fn items_html(items: Seq<JsonV>, depth: int) -> Seq<char>
    decreases items,
{
    if items.len() == 0 {
        Seq::empty()
    } else {
        items_html(items.drop_last(), depth) + "<li>"@ + value_html(
            items[items.len() - 1],
            deeper(depth),
        ) + "</li>"@
    }
}

/// Whether a value is a list or an object.
pub open spec fn nested(v: JsonV) -> bool {
    v is Object || v is Array
}

/// The entries of an object as HTML. Lists and objects in it can be folded, down to a depth.
pub open spec fn entries_html(entries: Seq<(Seq<char>, JsonV)>, depth: int) -> Seq<char>
    decreases entries,
{
    if entries.len() == 0 {
        Seq::empty()
    } else {
        let e = entries[entries.len() - 1];
        let key = escaped(e.0, Entities::Dec39);
        let inner = value_html(entries[entries.len() - 1].1, deeper(depth));
        entries_html(entries.drop_last(), depth) + "<dt>"@ + key + "</dt><dd>"@ + (if nested(e.1)
            && depth < 4 {
            "<details class=\"chat-tool-nested\" open><summary>View "@ + key + "</summary>"@
                + inner + "</details>"@
        } else {
            inner
        }) + "</dd>"@
    }
}

fn render_string(s: &str) -> (r: String)
    ensures
        r@ == string_html(s@),
{
    let e: String = escape_html_text(s);
    let (open, close): (&str, &str) = if str_has_char(s, '\n') || byte_len(s) > 120 {
        ("<pre class=\"chat-tool-text\">", "</pre>")
    } else {
        assert(s@.len() == 0 ==> s@ =~= ""@) by {
            reveal_strlit("");
        }
        proof {
            reveal_strlit("");
        }
        if same(s, "") {
            return "<span class=\"chat-tool-empty\">empty string</span>".to_owned();
        }
        ("<span class=\"chat-tool-string\">", "</span>")
    };
    let mut out: String = open.to_owned();
    out.push_str(e.as_str());
    out.push_str(close);
    out
}

/// A value as HTML.
pub fn render_tool_json_html(value: &Json, depth: usize) -> (r: String)
    ensures
        r@ == value_html(value@, depth as int),
    decreases value,
{
    proof {
        lemma_view(*value);
    }
    let inner: usize = if depth < 4 {
        depth + 1
    } else {
        depth
    };
    match value {
        Json::Null => "<span class=\"chat-tool-empty\">empty</span>".to_owned(),
        Json::Bool(b) => {
            let mut out: String = "<span class=\"chat-tool-scalar\">".to_owned();
            out.push_str(
                if *b {
                    "true"
                } else {
                    "false"
                },
            );
            out.push_str("</span>");
            out
        },
        Json::Number(n) | Json::Float(n) => {
            let mut out: String = "<span class=\"chat-tool-scalar\">".to_owned();
            out.push_str(n.as_str());
            out.push_str("</span>");
            out
        },
        Json::Text(s) => render_string(s.as_str()),
        Json::Array(items) => {
            if items.len() == 0 {
                return "<span class=\"chat-tool-empty\">empty list</span>".to_owned();
            }
            let ghost all = contents(items@);
            let mut out: String = "<ol class=\"chat-tool-list\">".to_owned();
            let ghost head = out@;
            let mut i: usize = 0;
            assert(all.take(0) =~= Seq::<JsonV>::empty());
            assert(head + items_html(all.take(0), depth as int) =~= head);
            while i < items.len()
                invariant
                    i <= items@.len(),
                    inner == deeper(depth as int),
                    *value == Json::Array(*items),
                    all == contents(items@),
                    out@ == head + items_html(all.take(i as int), depth as int),
                decreases items.len() - i,
            {
                let ghost upto = all.take(i + 1);
                let ghost before = items_html(all.take(i as int), depth as int);
                assert(upto.drop_last() =~= all.take(i as int));
                assert(upto[upto.len() - 1] == items@[i as int]@);
                assert(decreases_to!(*value => value->Array_0));
                assert(decreases_to!(items@ => items@[i as int]));
                let child: String = render_tool_json_html(&items[i], inner);
                out.push_str("<li>");
                out.push_str(child.as_str());
                out.push_str("</li>");
                assert(out@ =~= head + (before + "<li>"@ + child@ + "</li>"@));
                i += 1;
            }
            assert(all.take(i as int) =~= all);
            out.push_str("</ol>");
            out
        },
        Json::Object(entries) => {
            if entries.len() == 0 {
                return "<span class=\"chat-tool-empty\">empty object</span>".to_owned();
            }
            let ghost all = entry_contents(entries@);
            let mut out: String = "<dl class=\"chat-tool-kv\">".to_owned();
            let ghost head = out@;
            let mut i: usize = 0;
            assert(all.take(0) =~= Seq::<(Seq<char>, JsonV)>::empty());
            assert(head + entries_html(all.take(0), depth as int) =~= head);
            while i < entries.len()
                invariant
                    i <= entries@.len(),
                    inner == deeper(depth as int),
                    *value == Json::Object(*entries),
                    all == entry_contents(entries@),
                    out@ == head + entries_html(all.take(i as int), depth as int),
                decreases entries.len() - i,
            {
                let ghost upto = all.take(i + 1);
                let ghost before = entries_html(all.take(i as int), depth as int);
                assert(upto.drop_last() =~= all.take(i as int));
                assert(upto[upto.len() - 1] == (entries@[i as int].0@, entries@[i as int].1@));
                assert(decreases_to!(*value => value->Object_0));
                assert(decreases_to!(entries@ => entries@[i as int]));
                assert(decreases_to!(entries@[i as int] => entries@[i as int].1));
                let key: String = escape_html_text(entries[i].0.as_str());
                let child: String = render_tool_json_html(&entries[i].1, inner);
                let fold: bool = match &entries[i].1 {
                    Json::Object(_) => depth < 4,
                    Json::Array(_) => depth < 4,
                    _ => false,
                };
                let mut body: String = String::new();
                if fold {
                    body.push_str("<details class=\"chat-tool-nested\" open><summary>View ");
                    body.push_str(key.as_str());
                    body.push_str("</summary>");
                    body.push_str(child.as_str());
                    body.push_str("</details>");
                    assert(body@ =~= "<details class=\"chat-tool-nested\" open><summary>View "@
                        + key@ + "</summary>"@ + child@ + "</details>"@);
                } else {
                    body.push_str(child.as_str());
                    assert(body@ =~= child@);
                }
                out.push_str("<dt>");
                out.push_str(key.as_str());
                out.push_str("</dt><dd>");
                out.push_str(body.as_str());
                out.push_str("</dd>");
                assert(out@ =~= head + (before + "<dt>"@ + key@ + "</dt><dd>"@ + body@ + "</dd>"@));
                i += 1;
            }
            assert(all.take(i as int) =~= all);
            out.push_str("</dl>");
            out
        },
    }
}

/// Tool data as HTML.
pub fn render_tool_data_html(value: &TemplateValue) -> (r: String)
    ensures
        r@ == "<div class=\"chat-tool-formatted\">"@ + value_html(tool_value(value.raw()), 0)
            + "</div>"@,
{
    let v: Json = parsed_tool_value(value);
    let html: String = render_tool_json_html(&v, 0);
    let mut out: String = "<div class=\"chat-tool-formatted\">".to_owned();
    out.push_str(html.as_str());
    out.push_str("</div>");
    out
}

/// A text that is too long keeps as many characters at its beginning as at its end, with one
/// ellipsis between them, and a text that is short enough stays.
pub proof fn law_middle_cut_keeps_the_ends(s: Seq<char>, length: int)
    requires
        length >= 3,
    ensures
        s.len() <= length ==> middle_cut(s, length) == s,
        s.len() > length ==> {
            let half = (length - 1) / 2;
            &&& middle_cut(s, length).len() == 2 * half + 1
            &&& middle_cut(s, length)[half] == '…'
            &&& forall|i: int| 0 <= i < half ==> #[trigger] middle_cut(s, length)[i] == s[i]
            &&& forall|i: int|
                0 <= i < half ==> middle_cut(s, length)[half + 1 + i] == #[trigger] s[s.len() - half
                    + i]
        },
{
    reveal_strlit("…");
}

/// A name is parted into words: an underscore disappears, a capital behind a small letter starts
/// a word, and every other character stays where it is.
pub proof fn law_names_are_parted_at_capitals(s: Seq<char>, a: char, b: char)
    requires
        a != '_',
        b != '_',
    ensures
        spaced(Seq::empty()).len() == 0,
        spaced(s.push('_')) == spaced(s),
        !upper(b) ==> spaced(s.push(a).push(b)) == spaced(s.push(a)).push(b),
        upper(a) && upper(b) ==> spaced(s.push(a).push(b)) == spaced(s.push(a)).push(b),
        !upper(a) && upper(b) ==> spaced(s.push(a).push(b)) == spaced(s.push(a)) + seq![' ', b],
        !upper(a) && upper(b) ==> spaced(s.push(a).push('_').push(b)) == spaced(s.push(a)) + seq![
            ' ',
            b,
        ],
{
    assert(s.push('_').drop_last() =~= s);
    assert(s.push(a).drop_last() =~= s);
    assert(s.push(a).push(b).drop_last() =~= s.push(a));
    assert(s.push(a).push('_').drop_last() =~= s.push(a));
    assert(s.push(a).push('_').push(b).drop_last() =~= s.push(a).push('_'));
    reveal_with_fuel(ends_lower, 3);
    reveal_with_fuel(spaced, 3);
    assert(spaced(s.push(a)).push(' ').push(b) =~= spaced(s.push(a)) + seq![' ', b]);
}

/// The tags around tool data are taken off, whatever stands between them, with the blanks inside
/// and outside.
pub proof fn law_tags_are_taken_off(front: Seq<char>, data: Seq<char>, back: Seq<char>)
    requires
        forall|i: int| 0 <= i < front.len() ==> whitespace(#[trigger] front[i]),
        forall|i: int| 0 <= i < back.len() ==> whitespace(#[trigger] back[i]),
    ensures
        unwrapped(front + ("<user_data>"@ + data + "</user_data>"@) + back) == trim(data),
        unwrapped(front + ("<tool_result>"@ + data + "</tool_result>"@) + back) == trim(data),
        unwrapped(front + ("<tool_input>"@ + data + "</tool_input>"@) + back) == trim(data),
        unwrapped(front + ("<result>"@ + data + "</result>"@) + back) == trim(data),
        !data.contains('<') ==> unwrapped(data) == trim(data),
{
    reveal_strlit("<user_data>");
    reveal_strlit("</user_data>");
    reveal_strlit("<tool_result>");
    reveal_strlit("</tool_result>");
    reveal_strlit("<tool_input>");
    reveal_strlit("</tool_input>");
    reveal_strlit("<result>");
    reveal_strlit("</result>");
    lemma_tagged(front, "<user_data>"@, data, "</user_data>"@, back);
    lemma_tagged(front, "<tool_result>"@, data, "</tool_result>"@, back);
    lemma_tagged(front, "<tool_input>"@, data, "</tool_input>"@, back);
    lemma_tagged(front, "<result>"@, data, "</result>"@, back);
    lemma_no_tag("<tool_result>"@ + data + "</tool_result>"@, "<user_data>"@, 1);
    lemma_no_tag("<tool_input>"@ + data + "</tool_input>"@, "<user_data>"@, 1);
    lemma_no_tag("<tool_input>"@ + data + "</tool_input>"@, "<tool_result>"@, 6);
    lemma_no_tag("<result>"@ + data + "</result>"@, "<user_data>"@, 1);
    lemma_no_tag("<result>"@ + data + "</result>"@, "<tool_result>"@, 1);
    lemma_no_tag("<result>"@ + data + "</result>"@, "<tool_input>"@, 1);
    if !data.contains('<') {
        let t = trim(data);
        let (a, b) = lemma_trim_is_part(data, Cut::Whitespace);
        if t.len() > 0 {
            assert(t[0] == data[a]);
            assert(t[0] != '<');
            lemma_no_tag(t, "<user_data>"@, 0);
            lemma_no_tag(t, "<tool_result>"@, 0);
            lemma_no_tag(t, "<tool_input>"@, 0);
            lemma_no_tag(t, "<result>"@, 0);
        }
    }
}

proof fn lemma_tagged(
    front: Seq<char>,
    open: Seq<char>,
    data: Seq<char>,
    close: Seq<char>,
    back: Seq<char>,
)
    requires
        forall|i: int| 0 <= i < front.len() ==> whitespace(#[trigger] front[i]),
        forall|i: int| 0 <= i < back.len() ==> whitespace(#[trigger] back[i]),
        open.len() > 0 && !whitespace(open[0]),
        close.len() > 0 && !whitespace(close.last()),
    ensures
        trim(front + (open + data + close) + back) == open + data + close,
        between(open + data + close, open, close) == Some(data),
{
    let whole = open + data + close;
    assert(whole[0] == open[0] && whole.last() == close.last());
    law_trimming_cuts_the_ends(front, whole, back);
    assert(whole.subrange(0, open.len() as int) =~= open);
    let rest = whole.subrange(open.len() as int, whole.len() as int);
    assert(rest =~= data + close);
    assert(rest.subrange(rest.len() - close.len(), rest.len() as int) =~= close);
    assert(rest.subrange(0, rest.len() - close.len()) =~= data);
}

proof fn lemma_no_tag(s: Seq<char>, open: Seq<char>, i: int)
    requires
        0 <= i < open.len(),
        i < s.len(),
        s[i] != open[i],
    ensures
        forall|close: Seq<char>| #[trigger] between(s, open, close) is None,
{
    if starts_with(s, open) {
        assert(s.subrange(0, open.len() as int)[i] == s[i]);
    }
}

/// Data that is longer than is shown is cut at a whole character, and marked.
pub proof fn law_long_data_is_cut(s: Seq<char>)
    ensures
        utf8_len(s) <= 262_144 ==> cut_data(s) == s,
        utf8_len(s) > 262_144 ==> {
            let kept = byte_prefix(s, 262_144);
            &&& cut_data(s) == kept + TRUNCATED_MARK@
            &&& starts_with(s, kept)
            &&& utf8_len(kept) <= 262_144
        },
{
    law_byte_prefix_is_longest(s, 262_144);
}

/// The text content of an envelope is what its items of type `text` hold, in order. An item of
/// another type, or without a text, adds nothing.
pub proof fn law_envelopes_hold_their_texts(items: Seq<JsonV>, item: JsonV)
    ensures
        content_texts(Seq::empty()).len() == 0,
        item.text_at("type"@) == Some("text"@) && item.text_at("text"@) is Some ==> content_texts(
            items.push(item),
        ) == content_texts(items).push(item.text_at("text"@)->0),
        item.text_at("type"@) != Some("text"@) || item.text_at("text"@) is None ==> content_texts(
            items.push(item),
        ) == content_texts(items),
{
    assert(items.push(item).drop_last() =~= items);
}

/// A string is shown with its markup made harmless, in a line of its own where it is long or has
/// several lines; nothing of it is left out.
pub proof fn law_strings_are_shown_whole(s: Seq<char>)
    ensures
        s.len() > 0 ==> contains_text(string_html(s), escaped(s, Entities::Dec39)),
        s.contains('\n') || utf8_len(s) > 120 ==> starts_with(string_html(s), "<pre "@),
        s.len() > 0 && !s.contains('\n') && utf8_len(s) <= 120 ==> starts_with(
            string_html(s),
            "<span "@,
        ),
{
    reveal_strlit("<pre ");
    reveal_strlit("<span ");
    reveal_strlit("<pre class=\"chat-tool-text\">");
    reveal_strlit("<span class=\"chat-tool-string\">");
    let e = escaped(s, Entities::Dec39);
    let pre = "<pre class=\"chat-tool-text\">"@;
    let span = "<span class=\"chat-tool-string\">"@;
    let h = string_html(s);
    if s.contains('\n') || utf8_len(s) > 120 {
        assert(h.subrange(pre.len() as int, (pre.len() + e.len()) as int) =~= e);
        assert(occurs_at(h, e, pre.len() as int));
        assert(h.subrange(0, 5) =~= "<pre "@);
    } else if s.len() > 0 {
        assert(h.subrange(span.len() as int, (span.len() + e.len()) as int) =~= e);
        assert(occurs_at(h, e, span.len() as int));
        assert(h.subrange(0, 6) =~= "<span "@);
    }
}

/// Every item of a list and every entry of an object is shown, each behind the ones before it: an
/// entry by its key and its value.
pub proof fn law_every_item_is_shown(
    items: Seq<JsonV>,
    item: JsonV,
    entries: Seq<(Seq<char>, JsonV)>,
    key: Seq<char>,
    depth: int,
)
    ensures
        starts_with(items_html(items.push(item), depth), items_html(items, depth)),
        contains_text(items_html(items.push(item), depth), value_html(item, deeper(depth))),
        starts_with(entries_html(entries.push((key, item)), depth), entries_html(entries, depth)),
        contains_text(
            entries_html(entries.push((key, item)), depth),
            escaped(key, Entities::Dec39),
        ),
        contains_text(
            entries_html(entries.push((key, item)), depth),
            value_html(item, deeper(depth)),
        ),
{
    let more = items.push(item);
    assert(more.drop_last() =~= items);
    let inner = value_html(item, deeper(depth));
    let all = items_html(more, depth);
    let before = items_html(items, depth);
    assert(all =~= before + "<li>"@ + inner + "</li>"@);
    assert(all.subrange(0, before.len() as int) =~= before);
    let at = before.len() + "<li>"@.len();
    assert(all.subrange(at as int, (at + inner.len()) as int) =~= inner);
    assert(occurs_at(all, inner, at as int));
    let grown = entries.push((key, item));
    assert(grown.drop_last() =~= entries);
    let shown = entries_html(grown, depth);
    let first = entries_html(entries, depth);
    let name = escaped(key, Entities::Dec39);
    let head = first + "<dt>"@ + name + "</dt><dd>"@;
    let fold = "<details class=\"chat-tool-nested\" open><summary>View "@ + name + "</summary>"@;
    let open = if nested(item) && depth < 4 {
        head + fold
    } else {
        head
    };
    assert(starts_with(shown, open)) by {
        assert(shown.subrange(0, open.len() as int) =~= open);
    }
    assert(shown.subrange(0, first.len() as int) =~= first);
    let k = first.len() + "<dt>"@.len();
    assert(shown.subrange(k as int, (k + name.len()) as int) =~= name);
    assert(occurs_at(shown, name, k as int));
    let v = open.len();
    assert(shown.subrange(v as int, (v + inner.len()) as int) =~= inner);
    assert(occurs_at(shown, inner, v as int));
}

/// The known roles and intents are shown by their names with a capital, whatever their case and
/// the blanks around; another word is shown as it is.
pub proof fn law_known_words_are_shown_by_name(value: Seq<char>)
    ensures
        ({
            let v = lowercased(trim(value));
            &&& v == "user"@ ==> role_label(value) == "User"@
            &&& v == "assistant"@ ==> role_label(value) == "Assistant"@
            &&& v == "system"@ ==> role_label(value) == "System"@
            &&& v == "tool"@ ==> role_label(value) == "Tool"@
            &&& v != "user"@ && v != "assistant"@ && v != "system"@ && v != "tool"@ ==> role_label(
                value,
            ) == value
            &&& v == "read"@ ==> intent_label(value) == "Read"@
            &&& v == "write"@ ==> intent_label(value) == "Write"@
            &&& v == "execute"@ ==> intent_label(value) == "Execute"@
            &&& v == "query"@ ==> intent_label(value) == "Query"@
            &&& v == "observe"@ ==> intent_label(value) == "Observe"@
            &&& v == "delegate"@ ==> intent_label(value) == "Delegate"@
            &&& v == "message"@ ==> intent_label(value) == "Message"@
            &&& v == "broadcast"@ ==> intent_label(value) == "Broadcast"@
            &&& v == "escalate"@ ==> intent_label(value) == "Escalate"@
            &&& v == "subscribe"@ ==> intent_label(value) == "Subscribe"@
            &&& v == "unsubscribe"@ ==> intent_label(value) == "Unsubscribe"@
        }),
{
    reveal_strlit("user");
    reveal_strlit("assistant");
    reveal_strlit("system");
    reveal_strlit("tool");
    reveal_strlit("read");
    reveal_strlit("write");
    reveal_strlit("execute");
    reveal_strlit("query");
    reveal_strlit("observe");
    reveal_strlit("delegate");
    reveal_strlit("message");
    reveal_strlit("broadcast");
    reveal_strlit("escalate");
    reveal_strlit("subscribe");
    reveal_strlit("unsubscribe");
    assert("user"@[0] == 'u' && "tool"@[0] == 't' && "system"@.len() == 6);
    assert("user"@.len() == 4 && "tool"@.len() == 4 && "assistant"@.len() == 9);
    assert("write"@.len() == 5 && "query"@.len() == 5 && "execute"@.len() == 7);
    assert("observe"@.len() == 7 && "message"@.len() == 7 && "delegate"@.len() == 8);
    assert("escalate"@.len() == 8 && "broadcast"@.len() == 9 && "subscribe"@.len() == 9);
    assert("read"@.len() == 4 && "unsubscribe"@.len() == 11);
    assert("write"@[0] == 'w' && "query"@[0] == 'q');
    assert("execute"@[0] == 'e' && "observe"@[0] == 'o' && "message"@[0] == 'm');
    assert("delegate"@[0] == 'd' && "escalate"@[0] == 'e');
    assert("broadcast"@[0] == 'b' && "subscribe"@[0] == 's');
}

/// A name in capitals is shown word by word: the first letter of a word stays, a word is parted
/// from the one before it by a blank, and the other letters are lowered.
pub proof fn law_capitals_are_shown_as_words(s: Seq<char>, c: char)
    requires
        s.len() > 0,
        c != '_',
        s.last() != '_',
        capital_words(s).len() > 0,
    ensures
        capital_words(s.push(c)) == capital_words(s) + lowercased(seq![c]),
        capital_words(s.push('_')) == capital_words(s),
        capital_words(s.push('_').push(c)) == capital_words(s) + seq![' ', c],
        capital_words(seq![c]) == seq![c],
        in_capitals(s) ==> event_label(s) == capital_words(s),
        !in_capitals(s) ==> event_label(s) == spaced(s),
{
    reveal_strlit(" ");
    assert(s.push(c).drop_last() =~= s);
    assert(s.push('_').drop_last() =~= s);
    let t = s.push('_').push(c);
    assert(capital_words(s.push('_')) == capital_words(s));
    assert(t.drop_last() =~= s.push('_'));
    assert(t[t.len() - 2] == '_');
    assert(capital_words(t) == capital_words(t.drop_last()) + " "@ + seq![c]);
    assert(s.push(c)[s.len() - 1] == s.last());
    assert(capital_words(s) + " "@ + seq![c] =~= capital_words(s) + seq![' ', c]);
    assert(seq![c].drop_last() =~= Seq::<char>::empty());
    assert(capital_words(seq![c].drop_last()) =~= Seq::<char>::empty());
    assert(Seq::<char>::empty() + seq![c] =~= seq![c]);
}

/// What is read in turn stays what it is in all other parts: a number or a truth stays, a string
/// that is no JSON stays, and a list and an object keep their length, their order and their keys.
pub proof fn law_only_json_strings_are_read(
    v: JsonV,
    s: Seq<char>,
    items: Seq<JsonV>,
    entries: Seq<(Seq<char>, JsonV)>,
    depth: int,
    i: int,
)
    ensures
        v is Null || v is Bool || v is Number || v is Float ==> deep_resolved(v, depth) == v,
        !json_like(trim(s)) ==> deep_resolved(JsonV::Text(s), depth) == JsonV::Text(s),
        deep_resolved(JsonV::Array(items), depth) is Array,
        deep_resolved(JsonV::Array(items), depth)->Array_0.len() == items.len(),
        0 <= i < items.len() ==> deep_resolved(JsonV::Array(items), depth)->Array_0[i]
            == deep_resolved(items[i], depth),
        deep_resolved(JsonV::Object(entries), depth) is Object,
        deep_resolved(JsonV::Object(entries), depth)->Object_0.len() == entries.len(),
        0 <= i < entries.len() ==> deep_resolved(JsonV::Object(entries), depth)->Object_0[i].0
            == entries[i].0 && deep_resolved(JsonV::Object(entries), depth)->Object_0[i].1
            == deep_resolved(entries[i].1, depth),
        json_like(trim(s)) && parsed(trim(s)) is Ok ==> deep_resolved(
            JsonV::Text(s),
            0,
        ) == deep_resolved(parsed(trim(s))->Ok_0, 1),
        json_like(trim(s)) && parsed(trim(s)) is Err ==> deep_resolved(JsonV::Text(s), 0)
            == JsonV::Text(trim(s)),
{
    reveal_with_fuel(deep_resolved, 2);
    reveal_with_fuel(deep_parsed, 2);
}

/// What has no text content is no envelope; an envelope holds its texts, read as JSON where they
/// are JSON.
pub proof fn law_envelopes_are_opened(v: JsonV, items: Seq<JsonV>)
    ensures
        v.get("content"@) is None ==> enveloped(v) is None,
        v.get("content"@) == Some(JsonV::Array(items)) && content_texts(items).len() == 0
            ==> enveloped(v) is None,
        v.get("content"@) == Some(JsonV::Array(items)) && content_texts(items).len() > 0 ==> {
            let text = join(content_texts(items), "\n"@);
            &&& parsed(text) is Ok ==> enveloped(v) == Some(parsed(text)->Ok_0)
            &&& parsed(text) is Err ==> enveloped(v) == Some(JsonV::Text(text))
        },
{
}

/// What stands in braces or in brackets looks like JSON, and nothing else does.
pub proof fn law_braces_and_brackets_look_like_json(inner: Seq<char>, c: char, d: char)
    ensures
        json_like(seq!['{'] + inner + seq!['}']),
        json_like(seq!['['] + inner + seq![']']),
        !json_like(seq!['{'] + inner + seq![']']),
        c != '{' && c != '[' ==> !json_like(seq![c] + inner + seq![d]),
        !json_like(Seq::empty()),
{
    let a = seq!['{'] + inner + seq!['}'];
    assert(a[0] == '{' && a.last() == '}');
    let b = seq!['['] + inner + seq![']'];
    assert(b[0] == '[' && b.last() == ']');
    let e = seq!['{'] + inner + seq![']'];
    assert(e[0] == '{' && e.last() == ']');
    let f = seq![c] + inner + seq![d];
    assert(f[0] == c);
}

} // verus!
