//! The agents page: the agents that are connected, and the form that connects one.

use crate::escape::{escape, escaped, Entities};
use crate::json::{compact, compact_text, entry, entry_contents, object, text_entry, Json, JsonV};
use crate::reply::{Lookup, Reply};
use crate::text::{
    ascii_digit, ascii_lower, byte_len, chars_of, comma_list, ends_with, is_blank,
    law_lists_are_read_at_their_commas, law_trimming_cuts_the_ends, lemma_trim_ends,
    lemma_trim_is_part, lower_ascii, lower_ascii_chars, opt_text, parse_comma_list, same, starts_with,
    string_of, texts, trim, trimmed, utf8_len, whitespace, Cut,
};
use crate::toast::{toast, toast_json, toast_value};
use vstd::prelude::*;

verus! {

/// What the list of agents is asked for.
pub struct ListQuery {
    pub partial: Option<String>,
}

/// Whether the cards alone are asked for.
pub fn wants_cards(query: &ListQuery) -> (r: bool)
    ensures
        r <==> opt_text(query.partial) == Some("list"@),
{
    match &query.partial {
        Some(p) => same(p.as_str(), "list"),
        None => false,
    }
}

/// The form that connects an agent.
pub struct ConnectForm {
    pub name: String,
    pub provider: String,
    pub model: String,
    pub base_url: Option<String>,
    pub roles: Option<String>,
    pub description: Option<String>,
    pub thinking_level: Option<String>,
    pub system_prompt: Option<String>,
}

/// How long an agent thinks before it answers.
#[derive(Clone, Copy, PartialEq, Eq, Structural, Debug)]
pub enum ThinkingLevel {
    Off,
    Low,
    Medium,
    High,
    Max,
}

/// The level of this name, whatever its case and the blanks around it.
pub open spec fn thinking_level(value: Seq<char>) -> Option<ThinkingLevel> {
    let name = lower_ascii(trim(value));
    if name == "off"@ {
        Some(ThinkingLevel::Off)
    } else if name == "low"@ {
        Some(ThinkingLevel::Low)
    } else if name == "medium"@ {
        Some(ThinkingLevel::Medium)
    } else if name == "high"@ {
        Some(ThinkingLevel::High)
    } else if name == "max"@ {
        Some(ThinkingLevel::Max)
    } else {
        None
    }
}

/// The level of this name, whatever its case and the blanks around it.
pub fn parse_thinking_level(value: &str) -> (r: Option<ThinkingLevel>)
    ensures
        r == thinking_level(value@),
{
    let cut: String = trimmed(value);
    let chars: Vec<char> = chars_of(cut.as_str());
    let lower: Vec<char> = lower_ascii_chars(chars.as_slice());
    let name: String = string_of(lower.as_slice());
    if same(name.as_str(), "off") {
        Some(ThinkingLevel::Off)
    } else if same(name.as_str(), "low") {
        Some(ThinkingLevel::Low)
    } else if same(name.as_str(), "medium") {
        Some(ThinkingLevel::Medium)
    } else if same(name.as_str(), "high") {
        Some(ThinkingLevel::High)
    } else if same(name.as_str(), "max") {
        Some(ThinkingLevel::Max)
    } else {
        None
    }
}

/// What an agent is connected with.
pub struct ConnectAgentRequest {
    pub name: String,
    pub provider: String,
    pub model: String,
    pub base_url: Option<String>,
    pub roles: Vec<String>,
    pub description: Option<String>,
    pub thinking_level: Option<ThinkingLevel>,
    pub system_prompt: Option<String>,
}

/// The most bytes that a system prompt has.
pub const MAX_SYSTEM_PROMPT_BYTES: usize = 16384;

/// Why an agent is not connected.
pub enum ConnectRefusal {
    /// The request is no good.
    Bad(Reply),
    /// The form is shown again with this message.
    Form(String),
}

/// A field that was filled in, as it was filled in.
pub open spec fn filled(field: Option<Seq<char>>) -> Option<Seq<char>> {
    match field {
        Some(s) => if trim(s).len() > 0 {
            Some(s)
        } else {
            None
        },
        None => None,
    }
}

fn filled_in(field: &Option<String>) -> (r: Option<String>)
    ensures
        opt_text(r) == filled(opt_text(*field)),
{
    match field {
        Some(s) => if is_blank(s.as_str()) {
            None
        } else {
            Some(s.clone())
        },
        None => None,
    }
}

/// The name of an agent: lower-case letters, digits and dashes.
pub open spec fn agent_name_like(name: Seq<char>) -> bool {
    forall|i: int|
        0 <= i < name.len() ==> ascii_lower(#[trigger] name[i]) || ascii_digit(name[i]) || name[i]
            == '-'
}

fn is_agent_name(name: &str) -> (r: bool)
    ensures
        r == agent_name_like(name@),
{
    let chars: Vec<char> = chars_of(name);
    let mut i: usize = 0;
    while i < chars.len()
        invariant
            chars@ == name@,
            i <= chars@.len(),
            forall|k: int|
                0 <= k < i ==> ascii_lower(#[trigger] name@[k]) || ascii_digit(name@[k]) || name@[k]
                    == '-',
        decreases chars.len() - i,
    {
        let c: char = chars[i];
        assert(c == name@[i as int]);
        if !(('a' <= c && c <= 'z') || ('0' <= c && c <= '9') || c == '-') {
            return false;
        }
        i += 1;
    }
    true
}

/// Whether `reqwest` takes a text for a URL.
pub uninterp spec fn is_url(text: Seq<char>) -> bool;

/// `reqwest::Url::parse`, asked whether it succeeds: that depends on the text alone.
#[verifier::external_body]
fn parses_as_url(text: &str) -> (r: bool)
    ensures
        r == is_url(text@),
{
    reqwest::Url::parse(text).is_ok()
}

/// What is wrong with the fields of the form, if anything: the first complaint that applies.
/// `url` says whether the base URL parses.
pub open spec fn form_complaint(
    name: Seq<char>,
    model: Seq<char>,
    base_url: Option<Seq<char>>,
    url: bool,
) -> Option<Seq<char>> {
    if trim(name).len() == 0 {
        Some("Agent name is required"@)
    } else if !agent_name_like(name) {
        Some("Agent name must be lowercase alphanumeric with dashes"@)
    } else if trim(model).len() == 0 {
        Some("Model is required"@)
    } else if filled(base_url) is Some && !url {
        Some("Base URL must be a valid URL"@)
    } else {
        None
    }
}

/// What is wrong with the fields of the form, if anything. `url` says whether the base URL
/// parses.
pub fn check_fields(name: &str, model: &str, base_url: &Option<String>, url: bool) -> (r: Option<
    String,
>)
    ensures
        opt_text(r) == form_complaint(name@, model@, opt_text(*base_url), url),
{
    if is_blank(name) {
        Some("Agent name is required".to_owned())
    } else if !is_agent_name(name) {
        Some("Agent name must be lowercase alphanumeric with dashes".to_owned())
    } else if is_blank(model) {
        Some("Model is required".to_owned())
    } else {
        match filled_in(base_url) {
            Some(_) => if url {
                None
            } else {
                Some("Base URL must be a valid URL".to_owned())
            },
            None => None,
        }
    }
}

/// A field that was filled in, without the blanks around it.
pub open spec fn trimmed_field(field: Option<Seq<char>>) -> Option<Seq<char>> {
    match filled(field) {
        Some(s) => Some(trim(s)),
        None => None,
    }
}

fn trimmed_in(field: &Option<String>) -> (r: Option<String>)
    ensures
        opt_text(r) == trimmed_field(opt_text(*field)),
{
    match field {
        Some(s) => if is_blank(s.as_str()) {
            None
        } else {
            Some(trimmed(s.as_str()))
        },
        None => None,
    }
}

/// The level that the form asks for; `Err` where it names none.
pub open spec fn asked_level(field: Option<Seq<char>>) -> Result<Option<ThinkingLevel>, ()> {
    match trimmed_field(field) {
        Some(name) => match thinking_level(name) {
            Some(level) => Ok(Some(level)),
            None => Err(()),
        },
        None => Ok(None),
    }
}

fn level_of(field: &Option<String>) -> (r: Result<Option<ThinkingLevel>, ()>)
    ensures
        r == asked_level(opt_text(*field)),
{
    match trimmed_in(field) {
        Some(name) => match parse_thinking_level(name.as_str()) {
            Some(level) => Ok(Some(level)),
            None => Err(()),
        },
        None => Ok(None),
    }
}

/// Whether the prompt is longer than a system prompt can be.
pub open spec fn prompt_too_long(field: Option<Seq<char>>) -> bool {
    trimmed_field(field) matches Some(p) && utf8_len(p) > MAX_SYSTEM_PROMPT_BYTES
}

/// The text of a field, or none.
pub open spec fn text_or_none(field: Option<Seq<char>>) -> Seq<char> {
    match field {
        Some(s) => s,
        None => Seq::empty(),
    }
}

/// Whether the request asks for what the form says.
pub open spec fn asks(req: ConnectAgentRequest, form: ConnectForm) -> bool {
    &&& req.name@ == form.name@
    &&& req.provider@ == form.provider@
    &&& req.model@ == form.model@
    &&& opt_text(req.base_url) == filled(opt_text(form.base_url))
    &&& texts(req.roles@) == comma_list(text_or_none(opt_text(form.roles)))
    &&& opt_text(req.description) == filled(opt_text(form.description))
    &&& asked_level(opt_text(form.thinking_level)) == Ok::<_, ()>(req.thinking_level)
    &&& opt_text(req.system_prompt) == trimmed_field(opt_text(form.system_prompt))
}

/// Reads the form that connects an agent. `url` says whether its base URL parses.
pub fn read_connect_form(form: &ConnectForm, url: bool) -> (r: Result<
    ConnectAgentRequest,
    ConnectRefusal,
>)
    ensures
        match r {
            Ok(req) => {
                &&& asks(req, *form)
                &&& !prompt_too_long(opt_text(form.system_prompt))
                &&& form_complaint(form.name@, form.model@, opt_text(form.base_url), url) is None
            },
            Err(ConnectRefusal::Bad(reply)) => {
                ||| asked_level(opt_text(form.thinking_level)) is Err && reply.is(
                    400,
                    "Invalid thinking level"@,
                )
                ||| asked_level(opt_text(form.thinking_level)) is Ok && prompt_too_long(
                    opt_text(form.system_prompt),
                ) && reply.is(400, "System prompt too long (max 16,384 chars)"@)
            },
            Err(ConnectRefusal::Form(message)) => {
                &&& asked_level(opt_text(form.thinking_level)) is Ok
                &&& !prompt_too_long(opt_text(form.system_prompt))
                &&& form_complaint(form.name@, form.model@, opt_text(form.base_url), url) == Some(
                    message@,
                )
            },
        },
{
    let level: Option<ThinkingLevel> = match level_of(&form.thinking_level) {
        Ok(level) => level,
        Err(()) => {
            return Err(ConnectRefusal::Bad(Reply::new(400, "Invalid thinking level")));
        },
    };
    let prompt: Option<String> = trimmed_in(&form.system_prompt);
    if let Some(p) = &prompt {
        if byte_len(p.as_str()) > MAX_SYSTEM_PROMPT_BYTES {
            return Err(
                ConnectRefusal::Bad(Reply::new(400, "System prompt too long (max 16,384 chars)")),
            );
        }
    }
    match check_fields(form.name.as_str(), form.model.as_str(), &form.base_url, url) {
        Some(message) => {
            return Err(ConnectRefusal::Form(message));
        },
        None => {},
    }
    let roles: Vec<String> = match &form.roles {
        Some(s) => parse_comma_list(s.as_str()),
        None => {
            proof {
                reveal_strlit("");
                assert(""@ =~= Seq::<char>::empty());
            }
            parse_comma_list("")
        },
    };
    Ok(
        ConnectAgentRequest {
            name: form.name.clone(),
            provider: form.provider.clone(),
            model: form.model.clone(),
            base_url: filled_in(&form.base_url),
            roles,
            description: filled_in(&form.description),
            thinking_level: level,
            system_prompt: prompt,
        },
    )
}

/// Reads the form that connects an agent.
pub fn connect(form: &ConnectForm) -> (r: Result<ConnectAgentRequest, ConnectRefusal>)
    ensures
        ({
            let url = opt_text(form.base_url) matches Some(u) && is_url(u);
            match r {
                Ok(req) => {
                    &&& asks(req, *form)
                    &&& !prompt_too_long(opt_text(form.system_prompt))
                    &&& form_complaint(
                        form.name@,
                        form.model@,
                        opt_text(form.base_url),
                        url,
                    ) is None
                },
                Err(ConnectRefusal::Bad(reply)) => {
                    ||| asked_level(opt_text(form.thinking_level)) is Err && reply.is(
                        400,
                        "Invalid thinking level"@,
                    )
                    ||| asked_level(opt_text(form.thinking_level)) is Ok && prompt_too_long(
                        opt_text(form.system_prompt),
                    ) && reply.is(400, "System prompt too long (max 16,384 chars)"@)
                },
                Err(ConnectRefusal::Form(message)) => {
                    &&& asked_level(opt_text(form.thinking_level)) is Ok
                    &&& !prompt_too_long(opt_text(form.system_prompt))
                    &&& form_complaint(form.name@, form.model@, opt_text(form.base_url), url)
                        == Some(message@)
                },
            }
        }),
{
    let url: bool = match &form.base_url {
        Some(u) => parses_as_url(u.as_str()),
        None => false,
    };
    read_connect_form(form, url)
}

/// Every agent that is asked for has a name made of lower-case letters, digits and dashes, with
/// at least one of them, and a model.
pub proof fn law_connected_agents_are_named(
    name: Seq<char>,
    model: Seq<char>,
    base_url: Option<Seq<char>>,
    url: bool,
)
    requires
        form_complaint(name, model, base_url, url) is None,
    ensures
        name.len() > 0,
        agent_name_like(name),
        trim(model).len() > 0,
{
    if name.len() == 0 {
        assert(trim(name).len() == 0) by {
            reveal(trim);
        }
    }
}

/// The form shown again with a message, and where the page puts it.
pub struct FormError {
    pub status: u16,
    pub html: String,
    pub retarget: String,
    pub reswap: String,
    pub trigger: String,
}

/// The message of the form, for the page.
pub open spec fn form_error_html(message: Seq<char>) -> Seq<char> {
    "<small class=\"form-error\" id=\"connect-form-error\" role=\"alert\">"@ + escaped(
        message,
        Entities::NoApostrophe,
    ) + "</small>"@
}

/// The answer that leaves the form open with a message in it.
pub fn form_error(status: u16, message: &str) -> (r: FormError)
    ensures
        r.status == status,
        r.html@ == form_error_html(message@),
        r.retarget@ == "#connect-form-error"@,
        r.reswap@ == "outerHTML"@,
        r.trigger@ == compact_text(toast_json(message@, "error"@)),
{
    let mut html: String =
        "<small class=\"form-error\" id=\"connect-form-error\" role=\"alert\">".to_owned();
    let safe: String = escape(message, Entities::NoApostrophe);
    html.push_str(safe.as_str());
    html.push_str("</small>");
    FormError {
        status,
        html,
        retarget: "#connect-form-error".to_owned(),
        reswap: "outerHTML".to_owned(),
        trigger: toast(message, "error"),
    }
}

/// The answer where the agent could not be connected.
pub fn connect_failed(error: &str) -> (r: FormError)
    ensures
        r.status == 422,
        r.html@ == form_error_html("Failed to connect agent: "@ + error@),
        r.retarget@ == "#connect-form-error"@,
        r.reswap@ == "outerHTML"@,
        r.trigger@ == compact_text(toast_json("Failed to connect agent: "@ + error@, "error"@)),
{
    let mut message: String = "Failed to connect agent: ".to_owned();
    message.push_str(error);
    form_error(422, message.as_str())
}

/// Whether the header of a request says that the page's own script sent it.
pub fn is_htmx(header: Option<&str>) -> (r: bool)
    ensures
        r == (header matches Some(h) && lower_ascii(h@) == "true"@),
{
    match header {
        Some(h) => {
            let chars: Vec<char> = chars_of(h);
            let lower: Vec<char> = lower_ascii_chars(chars.as_slice());
            let text: String = string_of(lower.as_slice());
            same(text.as_str(), "true")
        },
        None => false,
    }
}

/// What the page is told once an agent is connected.
pub open spec fn connected_json(name: Seq<char>) -> JsonV {
    JsonV::Object(
        seq![
            ("agent-connected"@, JsonV::Object(seq![("name"@, JsonV::Text(name))])),
            ("closeAgentModal"@, JsonV::Bool(true)),
            (
                "showToast"@,
                JsonV::Object(
                    seq![
                        ("message"@, JsonV::Text("Agent '"@ + name + "' connected"@)),
                        ("type"@, JsonV::Text("success"@)),
                    ],
                ),
            ),
        ],
    )
}

/// What the page is told once an agent is connected.
pub fn connected_trigger(name: &str) -> (r: String)
    ensures
        r@ == compact_text(connected_json(name@)),
{
    let mut message: String = "Agent '".to_owned();
    message.push_str(name);
    message.push_str("' connected");
    let entries: Vec<(String, Json)> = vec![text_entry("name", name)];
    assert(entry_contents(entries@) =~= seq![("name"@, JsonV::Text(name@))]);
    let agent: Json = object(entries);
    let shown: Json = toast_value(message.as_str(), "success");
    let all: Vec<(String, Json)> = vec![
        ("agent-connected".to_owned(), agent),
        ("closeAgentModal".to_owned(), Json::Bool(true)),
        ("showToast".to_owned(), shown),
    ];
    assert(entry_contents(all@) =~= connected_json(name@)->Object_0);
    compact(&object(all))
}

/// An agent that is connected.
pub struct AgentEntry {
    pub id: u128,
    pub name: String,
}

/// The first agent of a name.
pub open spec fn agent_named(agents: Seq<AgentEntry>, name: Seq<char>) -> Option<u128>
    decreases agents.len(),
{
    if agents.len() == 0 {
        None
    } else if agents[0].name@ == name {
        Some(agents[0].id)
    } else {
        agent_named(agents.drop_first(), name)
    }
}

/// The first agent of a name.
pub fn find_agent(agents: &Vec<AgentEntry>, name: &str) -> (r: Option<u128>)
    ensures
        r == agent_named(agents@, name@),
{
    let mut i: usize = 0;
    assert(agents@.skip(0) =~= agents@);
    while i < agents.len()
        invariant
            i <= agents@.len(),
            agent_named(agents@, name@) == agent_named(agents@.skip(i as int), name@),
        decreases agents.len() - i,
    {
        assert(agents@.skip(i as int)[0] == agents@[i as int]);
        assert(agents@.skip(i as int).drop_first() =~= agents@.skip(i + 1));
        if same(agents[i].name.as_str(), name) {
            return Some(agents[i].id);
        }
        i += 1;
    }
    None
}

/// A status, and what the page is told with it.
pub struct Told {
    pub status: u16,
    pub trigger: Option<String>,
}

/// The answer to a request that disconnects an agent, by what came of it.
pub fn disconnected(outcome: &Lookup<()>) -> (r: Told)
    ensures
        match *outcome {
            Lookup::Found(_) => r.status == 204 && opt_text(r.trigger) == Some(
                compact_text(toast_json("Agent disconnected"@, "success"@)),
            ),
            Lookup::Missing => r.status == 404 && r.trigger is None,
            Lookup::Failed => r.status == 500 && opt_text(r.trigger) == Some(
                compact_text(toast_json("Failed to disconnect agent"@, "error"@)),
            ),
        },
{
    match outcome {
        Lookup::Found(_) => Told { status: 204, trigger: Some(toast("Agent disconnected", "success")) },
        Lookup::Missing => Told { status: 404, trigger: None },
        Lookup::Failed => Told {
            status: 500,
            trigger: Some(toast("Failed to disconnect agent", "error")),
        },
    }
}

/// A provider that can be chosen.
pub struct ProviderOption {
    pub id: String,
    pub label: String,
}

/// A provider of the catalog.
pub struct CatalogProvider {
    pub name: String,
    pub display_name: String,
}

/// A provider of the catalog, as it is chosen.
pub open spec fn provider_option(p: CatalogProvider) -> (Seq<char>, Seq<char>) {
    (p.name@, p.display_name@ + " ("@ + p.name@ + ")"@)
}

/// The ids and labels of providers.
pub open spec fn option_views(options: Seq<ProviderOption>) -> Seq<(Seq<char>, Seq<char>)> {
    Seq::new(options.len(), |i: int| (options[i].id@, options[i].label@))
}

/// Whether the catalog has a provider of this name.
pub open spec fn in_catalog(catalog: Seq<CatalogProvider>, name: Seq<char>) -> bool {
    exists|i: int| 0 <= i < catalog.len() && (#[trigger] catalog[i]).name@ == name
}

/// A built-in provider, where the catalog lacks it.
pub open spec fn built_in(catalog: Seq<CatalogProvider>, id: Seq<char>, label: Seq<char>) -> Seq<
    (Seq<char>, Seq<char>),
> {
    if in_catalog(catalog, id) {
        Seq::empty()
    } else {
        seq![(id, label)]
    }
}

/// The providers that can be chosen: those of the catalog, and the built-in ones that it lacks.
pub open spec fn provider_options(catalog: Seq<CatalogProvider>) -> Seq<(Seq<char>, Seq<char>)> {
    Seq::new(catalog.len(), |i: int| provider_option(catalog[i])) + built_in(
        catalog,
        "ollama"@,
        "Ollama"@,
    ) + built_in(catalog, "openai"@, "OpenAI"@) + built_in(catalog, "anthropic"@, "Anthropic"@)
        + built_in(catalog, "gemini"@, "Gemini"@)
}

fn catalog_has(catalog: &Vec<CatalogProvider>, name: &str) -> (r: bool)
    ensures
        r == in_catalog(catalog@, name@),
{
    let mut i: usize = 0;
    while i < catalog.len()
        invariant
            i <= catalog@.len(),
            forall|k: int| 0 <= k < i ==> (#[trigger] catalog@[k]).name@ != name@,
        decreases catalog.len() - i,
    {
        if same(catalog[i].name.as_str(), name) {
            assert(catalog@[i as int].name@ == name@);
            return true;
        }
        i += 1;
    }
    false
}

fn add_built_in(
    options: &mut Vec<ProviderOption>,
    catalog: &Vec<CatalogProvider>,
    id: &str,
    label: &str,
)
    ensures
        option_views(final(options)@) == option_views(old(options)@) + built_in(
            catalog@,
            id@,
            label@,
        ),
{
    let ghost before = options@;
    if !catalog_has(catalog, id) {
        options.push(ProviderOption { id: id.to_owned(), label: label.to_owned() });
        assert(option_views(options@) =~= option_views(before) + seq![(id@, label@)]);
    } else {
        assert(option_views(options@) =~= option_views(before) + Seq::empty());
    }
}

/// The providers that can be chosen.
pub fn list_providers(catalog: &Vec<CatalogProvider>) -> (r: Vec<ProviderOption>)
    ensures
        option_views(r@) == provider_options(catalog@),
{
    let mut out: Vec<ProviderOption> = Vec::new();
    let mut i: usize = 0;
    while i < catalog.len()
        invariant
            i <= catalog@.len(),
            option_views(out@) == Seq::new(i as nat, |k: int| provider_option(catalog@[k])),
        decreases catalog.len() - i,
    {
        let ghost before = out@;
        let mut label: String = catalog[i].display_name.clone();
        label.push_str(" (");
        label.push_str(catalog[i].name.as_str());
        label.push_str(")");
        out.push(ProviderOption { id: catalog[i].name.clone(), label });
        assert(option_views(out@) =~= option_views(before).push(provider_option(catalog@[i as int])));
        assert(option_views(out@) =~= Seq::new(
            (i + 1) as nat,
            |k: int| provider_option(catalog@[k]),
        ));
        i += 1;
    }
    add_built_in(&mut out, catalog, "ollama", "Ollama");
    add_built_in(&mut out, catalog, "openai", "OpenAI");
    add_built_in(&mut out, catalog, "anthropic", "Anthropic");
    add_built_in(&mut out, catalog, "gemini", "Gemini");
    out
}

/// Whatever the catalog holds, each built-in provider can be chosen.
pub proof fn law_built_in_providers_can_be_chosen(catalog: Seq<CatalogProvider>, id: Seq<char>)
    requires
        id == "ollama"@ || id == "openai"@ || id == "anthropic"@ || id == "gemini"@,
    ensures
        exists|k: int|
            0 <= k < provider_options(catalog).len() && (#[trigger] provider_options(catalog)[k]).0
                == id,
{
    let all = provider_options(catalog);
    let head = Seq::new(catalog.len(), |i: int| provider_option(catalog[i]));
    let a = built_in(catalog, "ollama"@, "Ollama"@);
    let b = built_in(catalog, "openai"@, "OpenAI"@);
    let c = built_in(catalog, "anthropic"@, "Anthropic"@);
    if in_catalog(catalog, id) {
        let i = choose|i: int| 0 <= i < catalog.len() && (#[trigger] catalog[i]).name@ == id;
        assert(all[i] == head[i]);
        assert(all[i].0 == id);
    } else if id == "ollama"@ {
        assert(all[head.len() as int].0 == id);
    } else if id == "openai"@ {
        assert(all[(head + a).len() as int].0 == id);
    } else if id == "anthropic"@ {
        assert(all[(head + a + b).len() as int].0 == id);
    } else {
        assert(all[(head + a + b + c).len() as int].0 == id);
    }
}

/// The levels are called off, low, medium, high and max, in upper or lower case and with blanks
/// around; nothing else is a level.
pub proof fn law_levels_have_their_names(front: Seq<char>, word: Seq<char>, back: Seq<char>)
    requires
        forall|i: int| 0 <= i < front.len() ==> whitespace(#[trigger] front[i]),
        forall|i: int| 0 <= i < back.len() ==> whitespace(#[trigger] back[i]),
        word.len() > 0 && !whitespace(word[0]) && !whitespace(word.last()),
    ensures
        ({
            let level = thinking_level(front + word + back);
            &&& level == Some(ThinkingLevel::Off) <==> lower_ascii(word) == "off"@
            &&& level == Some(ThinkingLevel::Low) <==> lower_ascii(word) == "low"@
            &&& level == Some(ThinkingLevel::Medium) <==> lower_ascii(word) == "medium"@
            &&& level == Some(ThinkingLevel::High) <==> lower_ascii(word) == "high"@
            &&& level == Some(ThinkingLevel::Max) <==> lower_ascii(word) == "max"@
        }),
{
    reveal_strlit("off");
    reveal_strlit("low");
    reveal_strlit("medium");
    reveal_strlit("high");
    reveal_strlit("max");
    assert("off"@[0] == 'o' && "low"@[0] == 'l' && "max"@[0] == 'm');
    assert("medium"@.len() == 6 && "high"@.len() == 4);
    law_trimming_cuts_the_ends(front, word, back);
}

/// A form is taken exactly where it names the agent in lower-case letters, digits and dashes,
/// names a model, and gives no base URL or one that is a URL.
pub proof fn law_forms_are_taken_where_they_are_complete(
    name: Seq<char>,
    model: Seq<char>,
    base_url: Option<Seq<char>>,
    url: bool,
)
    ensures
        form_complaint(name, model, base_url, url) is None <==> {
            &&& name.len() > 0
            &&& forall|i: int|
                0 <= i < name.len() ==> 'a' <= #[trigger] name[i] <= 'z' || '0' <= name[i] <= '9'
                    || name[i] == '-'
            &&& trim(model).len() > 0
            &&& base_url is None || trim(base_url->0).len() == 0 || url
        },
{
    lemma_trim_ends(name, Cut::Whitespace);
    if name.len() > 0 && !whitespace(name[0]) && !whitespace(name.last()) {
        let none = Seq::<char>::empty();
        law_trimming_cuts_the_ends(none, name, none);
        assert(none + name + none =~= name);
    }
    if trim(name).len() == 0 && name.len() > 0 {
        let (a, b) = lemma_trim_is_part(name, Cut::Whitespace);
        if a > 0 {
            assert(whitespace(name[0]));
        } else {
            assert(whitespace(name[name.len() - 1]));
        }
    }
}

/// A request asks for what the form says, and for nothing that was left blank.
pub proof fn law_requests_ask_what_the_form_says(req: ConnectAgentRequest, form: ConnectForm)
    requires
        asks(req, form),
    ensures
        req.name@ == form.name@ && req.provider@ == form.provider@ && req.model@ == form.model@,
        form.base_url is Some && trim(form.base_url->0@).len() > 0 ==> req.base_url is Some
            && req.base_url->0@ == form.base_url->0@,
        form.base_url is None || trim(form.base_url->0@).len() == 0 ==> req.base_url is None,
        form.description is Some && trim(form.description->0@).len() > 0 ==> req.description is Some
            && req.description->0@ == form.description->0@,
        form.description is None || trim(form.description->0@).len() == 0
            ==> req.description is None,
        form.system_prompt is Some && trim(form.system_prompt->0@).len() > 0
            ==> req.system_prompt is Some && req.system_prompt->0@ == trim(form.system_prompt->0@),
        form.system_prompt is None || trim(form.system_prompt->0@).len() == 0
            ==> req.system_prompt is None,
        form.roles is Some ==> texts(req.roles@) == comma_list(form.roles->0@),
        form.roles is None ==> req.roles@.len() == 0,
{
    if form.roles is None {
        let none = Seq::<char>::empty();
        law_lists_are_read_at_their_commas(none, none);
        assert(trim(none).len() == 0) by {
            law_trimming_cuts_the_ends(none, none, none);
            assert(none + none + none =~= none);
        }
        assert(texts(req.roles@).len() == req.roles@.len());
    }
}

/// An agent is found by its name: the first of that name, and none where no agent bears it.
pub proof fn law_agents_are_found_by_name(agents: Seq<AgentEntry>, name: Seq<char>, at: int)
    requires
        0 <= at <= agents.len(),
        at < agents.len() ==> agents[at].name@ == name,
        forall|k: int| 0 <= k < at ==> (#[trigger] agents[k]).name@ != name,
    ensures
        at < agents.len() ==> agent_named(agents, name) == Some(agents[at].id),
        at == agents.len() ==> agent_named(agents, name) is None,
    decreases agents.len(),
{
    if agents.len() > 0 && at > 0 {
        assert(agents[0].name@ != name);
        let rest = agents.drop_first();
        assert forall|k: int| 0 <= k < at - 1 implies (#[trigger] rest[k]).name@ != name by {
            assert(rest[k] == agents[k + 1]);
        }
        law_agents_are_found_by_name(rest, name, at - 1);
    }
}

/// Once an agent is connected the page is told its name, closes the form and says so.
pub proof fn law_the_page_is_told_of_a_connected_agent(name: Seq<char>)
    ensures
        connected_json(name).get("agent-connected"@) is Some,
        connected_json(name).get("agent-connected"@)->0.text_at("name"@) == Some(name),
        connected_json(name).get("closeAgentModal"@) == Some(JsonV::Bool(true)),
        connected_json(name).get("showToast"@) is Some,
        connected_json(name).get("showToast"@)->0.text_at("message"@) == Some(
            "Agent '"@ + name + "' connected"@,
        ),
        connected_json(name).get("showToast"@)->0.text_at("type"@) == Some("success"@),
{
    reveal_strlit("agent-connected");
    reveal_strlit("closeAgentModal");
    reveal_strlit("showToast");
    reveal_strlit("message");
    reveal_strlit("type");
    assert("agent-connected"@[0] == 'a' && "closeAgentModal"@[0] == 'c');
    assert("showToast"@.len() == 9 && "message"@.len() == 7 && "type"@.len() == 4);
    let all = connected_json(name)->Object_0;
    reveal_with_fuel(entry, 4);
    assert(all.drop_first()[0] == all[1]);
    assert(all.drop_first().drop_first()[0] == all[2]);
    let toast = all[2].1->Object_0;
    assert(toast.drop_first()[0] == toast[1]);
}

/// A provider of the catalog is chosen by its name and shown with it.
pub proof fn law_catalog_providers_are_chosen_by_name(catalog: Seq<CatalogProvider>, i: int)
    requires
        0 <= i < catalog.len(),
    ensures
        provider_options(catalog).len() >= catalog.len(),
        provider_options(catalog)[i].0 == catalog[i].name@,
        starts_with(provider_options(catalog)[i].1, catalog[i].display_name@),
        ends_with(provider_options(catalog)[i].1, catalog[i].name@ + ")"@),
{
    let label = provider_option(catalog[i]).1;
    let shown = catalog[i].display_name@;
    let back = catalog[i].name@ + ")"@;
    assert(label =~= shown + " ("@ + back);
    assert(label.subrange(0, shown.len() as int) =~= shown);
    assert(label.subrange(label.len() - back.len(), label.len() as int) =~= back);
}

} // verus!
