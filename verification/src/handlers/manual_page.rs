//! The agent manual: its sections, and what is asked of it.

use crate::json::{entry, entry_contents, object, Json, JsonV};
use crate::text::{decimal, decimal_text, opt_text};
use vstd::prelude::*;

verus! {

/// What a view of the manual is asked for.
pub struct ViewQuery {
    pub section: Option<String>,
    pub name: Option<String>,
    pub query: Option<String>,
    pub page: Option<u64>,
    pub page_size: Option<u64>,
    pub category: Option<String>,
    pub tag: Option<String>,
    pub verbose: Option<bool>,
    pub raw: Option<bool>,
}

/// A section of the manual: the word for it in an address, and its label.
pub struct Section {
    pub slug: &'static str,
    pub label: &'static str,
}

/// The sections as they are listed.
pub open spec fn sections() -> Seq<(Seq<char>, Seq<char>)> {
    seq![
        ("index"@, "Index"@),
        ("tools"@, "Tools"@),
        ("permissions"@, "Permissions"@),
        ("memory"@, "Memory"@),
        ("events"@, "Events"@),
        ("commands"@, "Commands"@),
        ("errors"@, "Errors"@),
        ("feedback"@, "Feedback"@),
        ("agents"@, "Agents"@),
        ("tasks"@, "Tasks"@),
        ("procedural"@, "Procedural"@),
        ("escalation"@, "Escalation"@),
        ("coordination"@, "Coordination"@),
        ("scratchpad"@, "Scratchpad"@),
        ("channels"@, "Channels"@),
        ("mcp"@, "MCP"@),
        ("hal"@, "HAL"@),
        ("plugins"@, "Plugins"@),
        ("skills"@, "Skills"@),
        ("notifications"@, "Notifications"@),
        ("containers"@, "Containers"@),
        ("webhooks"@, "Webhooks"@),
        ("capabilities"@, "Capabilities"@),
    ]
}

/// The words behind the sections.
pub open spec fn section_views(list: Seq<Section>) -> Seq<(Seq<char>, Seq<char>)> {
    Seq::new(list.len(), |i: int| (list[i].slug@, list[i].label@))
}

/// The sections as they are listed.
pub fn section_nav() -> (r: Vec<Section>)
    ensures
        section_views(r@) == sections(),
{
    let r: Vec<Section> = vec![
        Section { slug: "index", label: "Index" },
        Section { slug: "tools", label: "Tools" },
        Section { slug: "permissions", label: "Permissions" },
        Section { slug: "memory", label: "Memory" },
        Section { slug: "events", label: "Events" },
        Section { slug: "commands", label: "Commands" },
        Section { slug: "errors", label: "Errors" },
        Section { slug: "feedback", label: "Feedback" },
        Section { slug: "agents", label: "Agents" },
        Section { slug: "tasks", label: "Tasks" },
        Section { slug: "procedural", label: "Procedural" },
        Section { slug: "escalation", label: "Escalation" },
        Section { slug: "coordination", label: "Coordination" },
        Section { slug: "scratchpad", label: "Scratchpad" },
        Section { slug: "channels", label: "Channels" },
        Section { slug: "mcp", label: "MCP" },
        Section { slug: "hal", label: "HAL" },
        Section { slug: "plugins", label: "Plugins" },
        Section { slug: "skills", label: "Skills" },
        Section { slug: "notifications", label: "Notifications" },
        Section { slug: "containers", label: "Containers" },
        Section { slug: "webhooks", label: "Webhooks" },
        Section { slug: "capabilities", label: "Capabilities" },
    ];
    assert(section_views(r@) =~= sections());
    r
}

/// The section that is asked for: the index, where nothing is said.
pub open spec fn asked_section(section: Option<Seq<char>>) -> Seq<char> {
    match section {
        Some(s) => s,
        None => "index"@,
    }
}

/// The section that is asked for.
pub fn section_of(query: &ViewQuery) -> (r: String)
    ensures
        r@ == asked_section(opt_text(query.section)),
{
    match &query.section {
        Some(s) => s.clone(),
        None => "index".to_owned(),
    }
}

/// An entry, where there is a string for it.
pub open spec fn text_part(key: Seq<char>, value: Option<Seq<char>>) -> Seq<(Seq<char>, JsonV)> {
    match value {
        Some(t) => seq![(key, JsonV::Text(t))],
        None => Seq::empty(),
    }
}

/// An entry, where there is a number for it.
pub open spec fn number_part(key: Seq<char>, value: Option<u64>) -> Seq<(Seq<char>, JsonV)> {
    match value {
        Some(n) => seq![(key, JsonV::Number(decimal(n as nat)))],
        None => Seq::empty(),
    }
}

/// An entry, where there is a choice for it.
pub open spec fn bool_part(key: Seq<char>, value: Option<bool>) -> Seq<(Seq<char>, JsonV)> {
    match value {
        Some(b) => seq![(key, JsonV::Bool(b))],
        None => Seq::empty(),
    }
}

/// What the manual is asked: what the query says, and nothing else.
pub open spec fn payload_json(query: ViewQuery) -> JsonV {
    JsonV::Object(
        text_part("category"@, opt_text(query.category)) + text_part(
            "name"@,
            opt_text(query.name),
        ) + number_part("page"@, query.page) + number_part("page_size"@, query.page_size)
            + text_part("query"@, opt_text(query.query)) + seq![
            ("section"@, JsonV::Text(asked_section(opt_text(query.section)))),
        ] + text_part("tag"@, opt_text(query.tag)) + bool_part("verbose"@, query.verbose),
    )
}

fn add_entry(entries: &mut Vec<(String, Json)>, key: &str, value: Json)
    ensures
        entry_contents(final(entries)@) == entry_contents(old(entries)@) + seq![(key@, value@)],
{
    let ghost before = entries@;
    entries.push((key.to_owned(), value));
    assert(entry_contents(entries@) =~= entry_contents(before) + seq![(key@, value@)]);
}

fn add_text(entries: &mut Vec<(String, Json)>, key: &str, value: &Option<String>)
    ensures
        entry_contents(final(entries)@) == entry_contents(old(entries)@) + text_part(
            key@,
            opt_text(*value),
        ),
{
    match value {
        Some(t) => {
            add_entry(entries, key, Json::Text(t.clone()));
        },
        None => {
            assert(entry_contents(entries@) =~= entry_contents(entries@) + Seq::empty());
        },
    }
}

fn add_number(entries: &mut Vec<(String, Json)>, key: &str, value: Option<u64>)
    ensures
        entry_contents(final(entries)@) == entry_contents(old(entries)@) + number_part(key@, value),
{
    match value {
        Some(n) => {
            add_entry(entries, key, Json::Number(decimal_text(n)));
        },
        None => {
            assert(entry_contents(entries@) =~= entry_contents(entries@) + Seq::empty());
        },
    }
}

fn add_bool(entries: &mut Vec<(String, Json)>, key: &str, value: Option<bool>)
    ensures
        entry_contents(final(entries)@) == entry_contents(old(entries)@) + bool_part(key@, value),
{
    match value {
        Some(b) => {
            add_entry(entries, key, Json::Bool(b));
        },
        None => {
            assert(entry_contents(entries@) =~= entry_contents(entries@) + Seq::empty());
        },
    }
}

/// What the manual is asked.
pub fn view_payload(query: &ViewQuery) -> (r: Json)
    ensures
        r@ == payload_json(*query),
{
    let mut entries: Vec<(String, Json)> = Vec::new();
    assert(entry_contents(entries@) =~= Seq::empty());
    add_text(&mut entries, "category", &query.category);
    assert(entry_contents(entries@) =~= text_part("category"@, opt_text(query.category)));
    add_text(&mut entries, "name", &query.name);
    add_number(&mut entries, "page", query.page);
    add_number(&mut entries, "page_size", query.page_size);
    add_text(&mut entries, "query", &query.query);
    let section: String = section_of(query);
    add_entry(&mut entries, "section", Json::Text(section));
    add_text(&mut entries, "tag", &query.tag);
    add_bool(&mut entries, "verbose", query.verbose);
    object(entries)
}

/// The template of a view: as JSON, where that is asked for.
pub fn view_template(query: &ViewQuery) -> (r: &'static str)
    ensures
        query.raw == Some(true) ==> r@ == "partials/manual_raw.html"@,
        query.raw != Some(true) ==> r@ == "partials/manual_section.html"@,
{
    match query.raw {
        Some(true) => "partials/manual_raw.html",
        _ => "partials/manual_section.html",
    }
}

proof fn lemma_entry_in(a: Seq<(Seq<char>, JsonV)>, b: Seq<(Seq<char>, JsonV)>, key: Seq<char>)
    ensures
        entry(a + b, key) == (if entry(a, key) is Some {
            entry(a, key)
        } else {
            entry(b, key)
        }),
    decreases a.len(),
{
    if a.len() == 0 {
        assert(a + b =~= b);
    } else {
        assert((a + b).drop_first() =~= a.drop_first() + b);
        lemma_entry_in(a.drop_first(), b, key);
    }
}

proof fn lemma_one_entry(key: Seq<char>, v: JsonV, asked: Seq<char>)
    ensures
        entry(seq![(key, v)], asked) == (if asked == key {
            Some(v)
        } else {
            None
        }),
        entry(Seq::empty(), asked) is None,
{
    let one = seq![(key, v)];
    assert(one.drop_first() =~= Seq::<(Seq<char>, JsonV)>::empty());
    reveal_with_fuel(entry, 2);
}

/// The manual is asked exactly what the query says: each thing under its own name, and what the
/// query leaves out is not asked for. Where no section is named it is the index.
pub proof fn law_the_manual_is_asked_what_the_query_says(query: ViewQuery)
    ensures
        payload_json(query).text_at("section"@) == Some(
            match query.section {
                Some(s) => s@,
                None => "index"@,
            },
        ),
        payload_json(query).text_at("name"@) == opt_text(query.name),
        payload_json(query).text_at("query"@) == opt_text(query.query),
        payload_json(query).text_at("category"@) == opt_text(query.category),
        payload_json(query).text_at("tag"@) == opt_text(query.tag),
        payload_json(query).get("page"@) == (match query.page {
            Some(n) => Some(JsonV::Number(decimal(n as nat))),
            None => None,
        }),
        payload_json(query).get("page_size"@) == (match query.page_size {
            Some(n) => Some(JsonV::Number(decimal(n as nat))),
            None => None,
        }),
        payload_json(query).get("verbose"@) == (match query.verbose {
            Some(b) => Some(JsonV::Bool(b)),
            None => None,
        }),
{
    reveal_strlit("category");
    reveal_strlit("name");
    reveal_strlit("page");
    reveal_strlit("page_size");
    reveal_strlit("query");
    reveal_strlit("section");
    reveal_strlit("tag");
    reveal_strlit("verbose");
    assert("name"@[0] == 'n' && "page"@[0] == 'p');
    assert("section"@[0] == 's' && "verbose"@[0] == 'v');
    assert("category"@.len() == 8 && "page_size"@.len() == 9 && "query"@.len() == 5);
    assert("tag"@.len() == 3);
    lemma_payload_entry(query, "section"@);
    lemma_payload_entry(query, "name"@);
    lemma_payload_entry(query, "query"@);
    lemma_payload_entry(query, "category"@);
    lemma_payload_entry(query, "tag"@);
    lemma_payload_entry(query, "page"@);
    lemma_payload_entry(query, "page_size"@);
    lemma_payload_entry(query, "verbose"@);
}

/// The first that there is.
pub open spec fn first_there(a: Option<JsonV>, b: Option<JsonV>) -> Option<JsonV> {
    if a is Some {
        a
    } else {
        b
    }
}

/// The text as a value, where the key is the one that is asked for.
pub open spec fn text_under(key: Seq<char>, value: Option<Seq<char>>, asked: Seq<char>) -> Option<
    JsonV,
> {
    if key == asked && value is Some {
        Some(JsonV::Text(value->0))
    } else {
        None
    }
}

/// The number as a value, where the key is the one that is asked for.
pub open spec fn number_under(key: Seq<char>, value: Option<u64>, asked: Seq<char>) -> Option<
    JsonV,
> {
    if key == asked && value is Some {
        Some(JsonV::Number(decimal(value->0 as nat)))
    } else {
        None
    }
}

proof fn lemma_payload_entry(query: ViewQuery, key: Seq<char>)
    ensures
        payload_json(query).get(key) == first_there(
            text_under("category"@, opt_text(query.category), key),
            first_there(
                text_under("name"@, opt_text(query.name), key),
                first_there(
                    number_under("page"@, query.page, key),
                    first_there(
                        number_under("page_size"@, query.page_size, key),
                        first_there(
                            text_under("query"@, opt_text(query.query), key),
                            first_there(
                                text_under(
                                    "section"@,
                                    Some(asked_section(opt_text(query.section))),
                                    key,
                                ),
                                first_there(
                                    text_under("tag"@, opt_text(query.tag), key),
                                    if key == "verbose"@ && query.verbose is Some {
                                        Some(JsonV::Bool(query.verbose->0))
                                    } else {
                                        None
                                    },
                                ),
                            ),
                        ),
                    ),
                ),
            ),
        ),
{
    let p1 = text_part("category"@, opt_text(query.category));
    let p2 = text_part("name"@, opt_text(query.name));
    let p3 = number_part("page"@, query.page);
    let p4 = number_part("page_size"@, query.page_size);
    let p5 = text_part("query"@, opt_text(query.query));
    let p6 = seq![("section"@, JsonV::Text(asked_section(opt_text(query.section))))];
    let p7 = text_part("tag"@, opt_text(query.tag));
    let p8 = bool_part("verbose"@, query.verbose);
    lemma_entry_in(p1 + p2 + p3 + p4 + p5 + p6 + p7, p8, key);
    lemma_entry_in(p1 + p2 + p3 + p4 + p5 + p6, p7, key);
    lemma_entry_in(p1 + p2 + p3 + p4 + p5, p6, key);
    lemma_entry_in(p1 + p2 + p3 + p4, p5, key);
    lemma_entry_in(p1 + p2 + p3, p4, key);
    lemma_entry_in(p1 + p2, p3, key);
    lemma_entry_in(p1, p2, key);
    if query.category is Some {
        lemma_one_entry("category"@, JsonV::Text(query.category->0@), key);
    }
    if query.name is Some {
        lemma_one_entry("name"@, JsonV::Text(query.name->0@), key);
    }
    if query.page is Some {
        lemma_one_entry("page"@, JsonV::Number(decimal(query.page->0 as nat)), key);
    }
    if query.page_size is Some {
        lemma_one_entry("page_size"@, JsonV::Number(decimal(query.page_size->0 as nat)), key);
    }
    if query.query is Some {
        lemma_one_entry("query"@, JsonV::Text(query.query->0@), key);
    }
    lemma_one_entry("section"@, JsonV::Text(asked_section(opt_text(query.section))), key);
    if query.tag is Some {
        lemma_one_entry("tag"@, JsonV::Text(query.tag->0@), key);
    }
    if query.verbose is Some {
        lemma_one_entry("verbose"@, JsonV::Bool(query.verbose->0), key);
    }
}

} // verus!
