//! The connectors page: what is registered, what is only configured, and what has credentials.

use crate::clock::{Moment, MINUTE_UTC_PATTERN};
use crate::json::{
    compact, compact_text, contents, entry, entry_contents, lemma_view, object, text_entry, Json, JsonV,
};
use crate::sort::{law_sorting_orders_the_rows, ranked, sort_rows, Ranked};
use crate::text::{same, texts};
use crate::textmap::{comes_before, lemma_text_total, lemma_text_transitive, text_less};
use vstd::prelude::*;

verus! {

/// A connector that is registered.
pub struct Connector {
    pub id: String,
    pub name: String,
    /// The names of its tools.
    pub tools: Vec<String>,
}

/// What is stored for a connector that was authorised.
pub struct Credential {
    pub connector_id: String,
    pub scopes: Vec<String>,
    pub expires_at: Option<Moment>,
}

/// Whether a connector is in use.
#[derive(Clone, Copy, PartialEq, Eq, Structural, Debug)]
pub enum ConnectorStatus {
    Connected,
    /// It is registered, and has no credential.
    Disconnected,
    /// It is configured alone, and has no credential.
    NotConnected,
}

impl ConnectorStatus {
    /// The words for it.
    pub fn label(self) -> (r: &'static str)
        ensures
            r@ == match self {
                ConnectorStatus::Connected => "Connected"@,
                ConnectorStatus::Disconnected => "Disconnected"@,
                ConnectorStatus::NotConnected => "Not connected"@,
            },
    {
        match self {
            ConnectorStatus::Connected => "Connected",
            ConnectorStatus::Disconnected => "Disconnected",
            ConnectorStatus::NotConnected => "Not connected",
        }
    }
}

/// A connector as the page shows it.
pub struct ConnectorView<'a> {
    pub id: &'a String,
    pub name: &'a String,
    pub status: ConnectorStatus,
    pub credential: Option<&'a Credential>,
    pub connected: bool,
}

impl<'a> Ranked for ConnectorView<'a> {
    /// By id.
    open spec fn precedes(self, other: Self) -> bool {
        text_less(self.id@, other.id@)
    }

    fn goes_before(&self, other: &Self) -> (r: bool) {
        comes_before(self.id.as_str(), other.id.as_str())
    }

    proof fn asymmetric(a: Self, b: Self) {
        lemma_text_total(a.id@, b.id@);
    }

    proof fn transitive(a: Self, b: Self, c: Self) {
        lemma_text_total(a.id@, b.id@);
        lemma_text_total(b.id@, c.id@);
        lemma_text_total(a.id@, c.id@);
        if text_less(a.id@, b.id@) && text_less(b.id@, c.id@) {
            lemma_text_transitive(a.id@, b.id@, c.id@);
        }
    }
}

/// The first credential of a connector.
pub open spec fn credential_of<'a>(credentials: Seq<Credential>, id: Seq<char>) -> Option<
    &'a Credential,
>
    decreases credentials.len(),
{
    if credentials.len() == 0 {
        None
    } else if credentials[0].connector_id@ == id {
        Some(&credentials[0])
    } else {
        credential_of::<'a>(credentials.drop_first(), id)
    }
}

/// The first credential of a connector.
pub fn find_credential<'a>(credentials: &'a Vec<Credential>, id: &str) -> (r: Option<
    &'a Credential,
>)
    ensures
        r == credential_of::<'a>(credentials@, id@),
{
    let mut i: usize = 0;
    assert(credentials@.skip(0) =~= credentials@);
    while i < credentials.len()
        invariant
            i <= credentials@.len(),
            credential_of::<'a>(credentials@, id@) == credential_of::<'a>(
                credentials@.skip(i as int),
                id@,
            ),
        decreases credentials.len() - i,
    {
        assert(credentials@.skip(i as int)[0] == credentials@[i as int]);
        assert(credentials@.skip(i as int).drop_first() =~= credentials@.skip(i + 1));
        if same(credentials[i].connector_id.as_str(), id) {
            return Some(&credentials[i]);
        }
        i += 1;
    }
    None
}

/// A registered connector as the page shows it.
pub open spec fn registered_view<'a>(c: Connector, credentials: Seq<Credential>) -> ConnectorView<
    'a,
> {
    let cred = credential_of::<'a>(credentials, c.id@);
    ConnectorView {
        id: &c.id,
        name: &c.name,
        status: if cred is Some {
            ConnectorStatus::Connected
        } else {
            ConnectorStatus::Disconnected
        },
        credential: cred,
        connected: cred is Some,
    }
}

/// A configured provider as the page shows it.
pub open spec fn provider_view<'a>(id: String, credentials: Seq<Credential>) -> ConnectorView<'a> {
    let cred = credential_of::<'a>(credentials, id@);
    ConnectorView {
        id: &id,
        name: &id,
        status: if cred is Some {
            ConnectorStatus::Connected
        } else {
            ConnectorStatus::NotConnected
        },
        credential: cred,
        connected: cred is Some,
    }
}

/// Whether one of the rows has the id.
pub open spec fn has_row(rows: Seq<ConnectorView>, id: Seq<char>) -> bool {
    exists|i: int| 0 <= i < rows.len() && (#[trigger] rows[i]).id@ == id
}

/// The rows, with each provider that has none yet.
pub open spec fn with_providers<'a>(
    rows: Seq<ConnectorView<'a>>,
    providers: Seq<String>,
    credentials: Seq<Credential>,
) -> Seq<ConnectorView<'a>>
    decreases providers.len(),
{
    if providers.len() == 0 {
        rows
    } else {
        let before = with_providers(rows, providers.drop_last(), credentials);
        if has_row(before, providers.last()@) {
            before
        } else {
            before.push(provider_view(providers.last(), credentials))
        }
    }
}

/// The rows of the page, before they are put in order: what is registered, then what is only
/// configured.
pub open spec fn merged<'a>(
    registered: Seq<Connector>,
    providers: Seq<String>,
    credentials: Seq<Credential>,
) -> Seq<ConnectorView<'a>> {
    with_providers(
        Seq::new(registered.len(), |i: int| registered_view::<'a>(registered[i], credentials)),
        providers,
        credentials,
    )
}

fn row_exists(rows: &Vec<ConnectorView>, id: &str) -> (r: bool)
    ensures
        r == has_row(rows@, id@),
{
    let mut i: usize = 0;
    while i < rows.len()
        invariant
            i <= rows@.len(),
            forall|k: int| 0 <= k < i ==> (#[trigger] rows@[k]).id@ != id@,
        decreases rows.len() - i,
    {
        if same(rows[i].id.as_str(), id) {
            assert(rows@[i as int].id@ == id@);
            return true;
        }
        i += 1;
    }
    false
}

/// The rows of the page, by id.
pub fn list_connectors<'a>(
    registered: &'a Vec<Connector>,
    providers: &'a Vec<String>,
    credentials: &'a Vec<Credential>,
) -> (r: Vec<ConnectorView<'a>>)
    ensures
        r@ == ranked(merged::<'a>(registered@, providers@, credentials@)),
{
    let mut rows: Vec<ConnectorView<'a>> = Vec::new();
    let ghost head = Seq::new(
        registered@.len(),
        |i: int| registered_view::<'a>(registered@[i], credentials@),
    );
    let mut i: usize = 0;
    assert(head.take(0) =~= Seq::empty());
    while i < registered.len()
        invariant
            i <= registered@.len(),
            head == Seq::new(
                registered@.len(),
                |i: int| registered_view::<'a>(registered@[i], credentials@),
            ),
            rows@ == head.take(i as int),
        decreases registered.len() - i,
    {
        let c: &'a Connector = &registered[i];
        let cred: Option<&'a Credential> = find_credential(credentials, c.id.as_str());
        let connected: bool = cred.is_some();
        let status: ConnectorStatus = if connected {
            ConnectorStatus::Connected
        } else {
            ConnectorStatus::Disconnected
        };
        rows.push(ConnectorView { id: &c.id, name: &c.name, status, credential: cred, connected });
        assert(rows@.last() == head[i as int]);
        assert(rows@ =~= head.take(i + 1));
        i += 1;
    }
    assert(head.take(i as int) =~= head);
    let mut j: usize = 0;
    assert(providers@.take(0) =~= Seq::<String>::empty());
    while j < providers.len()
        invariant
            j <= providers@.len(),
            rows@ == with_providers(head, providers@.take(j as int), credentials@),
        decreases providers.len() - j,
    {
        assert(providers@.take(j + 1).drop_last() =~= providers@.take(j as int));
        assert(providers@.take(j + 1).last() == providers@[j as int]);
        let id: &'a String = &providers[j];
        if !row_exists(&rows, id.as_str()) {
            let cred: Option<&'a Credential> = find_credential(credentials, id.as_str());
            let connected: bool = cred.is_some();
            let status: ConnectorStatus = if connected {
                ConnectorStatus::Connected
            } else {
                ConnectorStatus::NotConnected
            };
            rows.push(ConnectorView { id, name: id, status, credential: cred, connected });
        }
        j += 1;
    }
    assert(providers@.take(j as int) =~= providers@);
    sort_rows(rows)
}

/// When a connector's credential ends, as it is shown.
pub open spec fn expiry(credential: Option<&Credential>) -> Seq<char> {
    match credential {
        Some(c) => match c.expires_at {
            Some(at) => at.stamped(MINUTE_UTC_PATTERN@),
            None => "—"@,
        },
        None => "—"@,
    }
}

/// When a connector's credential ends, as it is shown.
pub fn expiry_label(row: &ConnectorView) -> (r: String)
    ensures
        r@ == expiry(row.credential),
{
    match row.credential {
        Some(c) => match c.expires_at {
            Some(at) => at.stamp(MINUTE_UTC_PATTERN),
            None => "—".to_owned(),
        },
        None => "—".to_owned(),
    }
}

proof fn lemma_rows_keep_their_status<'a>(
    rows: Seq<ConnectorView<'a>>,
    providers: Seq<String>,
    credentials: Seq<Credential>,
    k: int,
)
    requires
        forall|i: int|
            0 <= i < rows.len() ==> (#[trigger] rows[i]).connected == (credential_of::<'a>(
                credentials,
                rows[i].id@,
            ) is Some),
        0 <= k < with_providers(rows, providers, credentials).len(),
    ensures
        with_providers(rows, providers, credentials)[k].connected == (credential_of::<'a>(
            credentials,
            with_providers(rows, providers, credentials)[k].id@,
        ) is Some),
    decreases providers.len(),
{
    if providers.len() > 0 {
        let before = with_providers(rows, providers.drop_last(), credentials);
        if k < before.len() {
            lemma_rows_keep_their_status(rows, providers.drop_last(), credentials, k);
        }
    }
}

/// A connector is shown as connected exactly where a credential is stored for it.
pub proof fn law_connected_means_authorised<'a>(
    registered: Seq<Connector>,
    providers: Seq<String>,
    credentials: Seq<Credential>,
    k: int,
)
    requires
        0 <= k < merged::<'a>(registered, providers, credentials).len(),
    ensures
        merged::<'a>(registered, providers, credentials)[k].connected == (credential_of::<'a>(
            credentials,
            merged::<'a>(registered, providers, credentials)[k].id@,
        ) is Some),
{
    lemma_rows_keep_their_status(
        Seq::new(registered.len(), |i: int| registered_view::<'a>(registered[i], credentials)),
        providers,
        credentials,
        k,
    );
}

/// The names of a connector's tools, under its id.
pub open spec fn tool_names(c: Connector) -> Seq<JsonV> {
    Seq::new(c.tools@.len(), |i: int| JsonV::Text(c.id@ + "."@ + c.tools@[i]@))
}

/// Texts as JSON.
pub open spec fn text_values(list: Seq<Seq<char>>) -> Seq<JsonV> {
    Seq::new(list.len(), |i: int| JsonV::Text(list[i]))
}

/// The scopes of a connector's credential.
pub open spec fn scopes_of(credential: Option<&Credential>) -> Seq<JsonV> {
    match credential {
        Some(c) => text_values(texts(c.scopes@)),
        None => Seq::empty(),
    }
}

/// A registered connector, for programs.
pub open spec fn connector_json(c: Connector, credentials: Seq<Credential>) -> JsonV {
    let cred = credential_of::<'static>(credentials, c.id@);
    JsonV::Object(
        seq![
            ("connected"@, JsonV::Bool(cred is Some)),
            ("id"@, JsonV::Text(c.id@)),
            ("name"@, JsonV::Text(c.name@)),
            ("scopes"@, JsonV::Array(scopes_of(cred))),
            ("tools"@, JsonV::Array(tool_names(c))),
        ],
    )
}

fn list_of(items: Vec<Json>) -> (r: Json)
    ensures
        r@ == JsonV::Array(contents(items@)),
{
    let r: Json = Json::Array(items);
    proof {
        lemma_view(r);
    }
    r
}

fn scope_list(credential: Option<&Credential>) -> (r: Json)
    ensures
        r@ == JsonV::Array(scopes_of(credential)),
{
    let mut items: Vec<Json> = Vec::new();
    match credential {
        Some(c) => {
            let mut i: usize = 0;
            while i < c.scopes.len()
                invariant
                    i <= c.scopes@.len(),
                    items@.len() == i,
                    forall|k: int|
                        0 <= k < i ==> (#[trigger] items@[k])@ == JsonV::Text(c.scopes@[k]@),
                decreases c.scopes.len() - i,
            {
                items.push(Json::Text(c.scopes[i].clone()));
                i += 1;
            }
            assert(contents(items@) =~= scopes_of(credential));
        },
        None => {
            assert(contents(items@) =~= scopes_of(credential));
        },
    }
    list_of(items)
}

fn tool_list(c: &Connector) -> (r: Json)
    ensures
        r@ == JsonV::Array(tool_names(*c)),
{
    let mut items: Vec<Json> = Vec::new();
    let mut i: usize = 0;
    while i < c.tools.len()
        invariant
            i <= c.tools@.len(),
            items@.len() == i,
            forall|k: int|
                0 <= k < i ==> (#[trigger] items@[k])@ == JsonV::Text(
                    c.id@ + "."@ + c.tools@[k]@,
                ),
        decreases c.tools.len() - i,
    {
        let mut name: String = c.id.clone();
        name.push_str(".");
        name.push_str(c.tools[i].as_str());
        items.push(Json::Text(name));
        i += 1;
    }
    assert(contents(items@) =~= tool_names(*c));
    list_of(items)
}

/// A registered connector, for programs.
pub fn connector_value(c: &Connector, credentials: &Vec<Credential>) -> (r: Json)
    ensures
        r@ == connector_json(*c, credentials@),
{
    let cred: Option<&Credential> = find_credential(credentials, c.id.as_str());
    let entries: Vec<(String, Json)> = vec![
        ("connected".to_owned(), Json::Bool(cred.is_some())),
        text_entry("id", c.id.as_str()),
        text_entry("name", c.name.as_str()),
        ("scopes".to_owned(), scope_list(cred)),
        ("tools".to_owned(), tool_list(c)),
    ];
    assert(entry_contents(entries@) =~= connector_json(*c, credentials@)->Object_0);
    object(entries)
}

/// The registered connectors, for programs.
pub fn list_connectors_json(registered: &Vec<Connector>, credentials: &Vec<Credential>) -> (r:
    String)
    ensures
        r@ == compact_text(
            JsonV::Array(
                Seq::new(
                    registered@.len(),
                    |i: int| connector_json(registered@[i], credentials@),
                ),
            ),
        ),
{
    let mut items: Vec<Json> = Vec::new();
    let mut i: usize = 0;
    while i < registered.len()
        invariant
            i <= registered@.len(),
            items@.len() == i,
            forall|k: int|
                0 <= k < i ==> (#[trigger] items@[k])@ == connector_json(
                    registered@[k],
                    credentials@,
                ),
        decreases registered.len() - i,
    {
        items.push(connector_value(&registered[i], credentials));
        i += 1;
    }
    assert(contents(items@) =~= Seq::new(
        registered@.len(),
        |i: int| connector_json(registered@[i], credentials@),
    ));
    compact(&list_of(items))
}

/// A connector's credential is the first one under its id.
pub proof fn law_credentials_are_found_by_connector(
    credentials: Seq<Credential>,
    id: Seq<char>,
    at: int,
)
    requires
        0 <= at <= credentials.len(),
        at < credentials.len() ==> credentials[at].connector_id@ == id,
        forall|k: int| 0 <= k < at ==> (#[trigger] credentials[k]).connector_id@ != id,
    ensures
        at < credentials.len() ==> credential_of::<'static>(credentials, id) == Some(
            &credentials[at],
        ),
        at == credentials.len() ==> credential_of::<'static>(credentials, id) is None,
    decreases credentials.len(),
{
    if credentials.len() > 0 && at > 0 {
        assert(credentials[0].connector_id@ != id);
        let rest = credentials.drop_first();
        assert forall|k: int| 0 <= k < at - 1 implies (#[trigger] rest[k]).connector_id@ != id by {
            assert(rest[k] == credentials[k + 1]);
        }
        law_credentials_are_found_by_connector(rest, id, at - 1);
    }
}

/// A connector that is registered is shown as connected where it has a credential, and as
/// disconnected where it has none; a provider that is only configured as not connected. The
/// registered ones come first, and a provider that is registered under its id is not shown twice.
pub proof fn law_connectors_are_shown_once(
    registered: Seq<Connector>,
    providers: Seq<String>,
    provider: String,
    credentials: Seq<Credential>,
    c: Connector,
)
    ensures
        merged::<'static>(registered, Seq::empty(), credentials).len() == registered.len(),
        has_row(merged::<'static>(registered, providers, credentials), provider@)
            ==> merged::<'static>(registered, providers.push(provider), credentials)
            == merged::<'static>(registered, providers, credentials),
        !has_row(merged::<'static>(registered, providers, credentials), provider@)
            ==> merged::<'static>(registered, providers.push(provider), credentials)
            == merged::<'static>(registered, providers, credentials).push(
            provider_view(provider, credentials),
        ),
        ({
            let v = registered_view::<'static>(c, credentials);
            let held = credential_of::<'static>(credentials, c.id@) is Some;
            &&& v.id@ == c.id@ && v.name@ == c.name@ && v.connected == held
            &&& held ==> v.status is Connected
            &&& !held ==> v.status is Disconnected
        }),
        ({
            let v = provider_view::<'static>(provider, credentials);
            let held = credential_of::<'static>(credentials, provider@) is Some;
            &&& v.id@ == provider@ && v.name@ == provider@ && v.connected == held
            &&& held ==> v.status is Connected
            &&& !held ==> v.status is NotConnected
        }),
{
    assert(providers.push(provider).drop_last() =~= providers);
}

/// A connector tells programs whether it is connected, what it is called, and its tools under its
/// own id; a credential without an end is shown with a dash.
pub proof fn law_connectors_tell_programs_of_their_tools(
    c: Connector,
    credentials: Seq<Credential>,
    i: int,
    credential: Credential,
)
    ensures
        connector_json(c, credentials).get("connected"@) == Some(
            JsonV::Bool(credential_of::<'static>(credentials, c.id@) is Some),
        ),
        connector_json(c, credentials).text_at("id"@) == Some(c.id@),
        connector_json(c, credentials).text_at("name"@) == Some(c.name@),
        tool_names(c).len() == c.tools@.len(),
        0 <= i < c.tools@.len() ==> tool_names(c)[i] == JsonV::Text(c.id@ + "."@ + c.tools@[i]@),
        credential.expires_at is None ==> expiry(Some(&credential)) == "—"@,
        credential.expires_at is Some ==> expiry(Some(&credential))
            == credential.expires_at->0.stamped(MINUTE_UTC_PATTERN@),
        expiry(None) == "—"@,
{
    reveal_strlit("connected");
    reveal_strlit("id");
    reveal_strlit("name");
    assert("connected"@.len() == 9 && "id"@.len() == 2 && "name"@.len() == 4);
    let all = connector_json(c, credentials)->Object_0;
    reveal_with_fuel(entry, 4);
    assert(all.drop_first()[0] == all[1]);
    assert(all.drop_first().drop_first()[0] == all[2]);
}

/// Connectors are listed by their ids.
pub proof fn law_connectors_are_listed_by_id<'a>(rows: Seq<ConnectorView<'a>>, i: int, j: int)
    requires
        0 <= i < j < rows.len(),
    ensures
        ranked(rows).len() == rows.len(),
        ranked(rows).to_multiset() == rows.to_multiset(),
        !text_less(ranked(rows)[j].id@, ranked(rows)[i].id@),
{
    law_sorting_orders_the_rows(rows);
    assert(!ranked(rows)[j].precedes(ranked(rows)[i]));
}

} // verus!
