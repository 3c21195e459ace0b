//! The plugins pages, and the same plugins on the management page.

use crate::reply::{failure, failure_text, Reply};
use crate::text::{lowercased, opt_text, same};
use vstd::prelude::*;

verus! {

/// Where a plugin stands.
pub enum PluginStatus {
    Discovered,
    Active,
    Disabled,
    Blocked { reason: String },
}

/// The word for where a plugin stands.
pub open spec fn status_word(status: PluginStatus) -> Seq<char> {
    match status {
        PluginStatus::Discovered => "discovered"@,
        PluginStatus::Active => "active"@,
        PluginStatus::Disabled => "disabled"@,
        PluginStatus::Blocked { .. } => "blocked"@,
    }
}

/// The word for where a plugin stands.
pub fn plugin_status_label(status: &PluginStatus) -> (r: &'static str)
    ensures
        r@ == status_word(*status),
{
    match status {
        PluginStatus::Discovered => "discovered",
        PluginStatus::Active => "active",
        PluginStatus::Disabled => "disabled",
        PluginStatus::Blocked { .. } => "blocked",
    }
}

/// Why a plugin is blocked, if it is.
pub fn blocked_reason(status: &PluginStatus) -> (r: Option<String>)
    ensures
        opt_text(r) == match *status {
            PluginStatus::Blocked { reason } => Some(reason@),
            _ => None,
        },
{
    match status {
        PluginStatus::Blocked { reason } => Some(reason.clone()),
        _ => None,
    }
}

/// A tier of trust as it is shown.
pub fn tier_label(tier: &str) -> (r: String)
    ensures
        r@ == lowercased(tier@),
{
    tier.to_lowercase()
}

/// A plugin.
pub struct Plugin {
    pub id: String,
    pub display_name: String,
    pub version: String,
    pub description: String,
    pub trust_tier: String,
    pub status: PluginStatus,
}

/// The first plugin of an id.
pub open spec fn plugin_at(plugins: Seq<Plugin>, id: Seq<char>) -> Option<&'static Plugin>
    decreases plugins.len(),
{
    if plugins.len() == 0 {
        None
    } else if plugins[0].id@ == id {
        Some(&plugins[0])
    } else {
        plugin_at(plugins.drop_first(), id)
    }
}

/// The plugin whose page is asked for.
pub fn detail<'a>(plugins: &'a Vec<Plugin>, id: &str) -> (r: Result<&'a Plugin, Reply>)
    ensures
        match r {
            Ok(p) => plugin_at(plugins@, id@) == Some(p),
            Err(reply) => plugin_at(plugins@, id@) is None && reply.is(
                404,
                "Plugin '"@ + id@ + "' not found"@,
            ),
        },
{
    let mut i: usize = 0;
    assert(plugins@.skip(0) =~= plugins@);
    while i < plugins.len()
        invariant
            i <= plugins@.len(),
            plugin_at(plugins@, id@) == plugin_at(plugins@.skip(i as int), id@),
        decreases plugins.len() - i,
    {
        assert(plugins@.skip(i as int)[0] == plugins@[i as int]);
        assert(plugins@.skip(i as int).drop_first() =~= plugins@.skip(i + 1));
        if same(plugins[i].id.as_str(), id) {
            return Ok(&plugins[i]);
        }
        i += 1;
    }
    let mut body: String = "Plugin '".to_owned();
    body.push_str(id);
    body.push_str("' not found");
    Err(Reply { status: 404, body })
}

/// A plugin as the pages show it.
pub struct PluginItem {
    pub id: String,
    pub display_name: String,
    pub version: String,
    pub description: String,
    pub trust_tier: String,
    pub status: &'static str,
    pub blocked_reason: Option<String>,
}

/// The plugin as the pages show it.
pub fn plugin_item(p: &Plugin) -> (r: PluginItem)
    ensures
        r.id == p.id,
        r.display_name == p.display_name,
        r.version == p.version,
        r.description == p.description,
        r.trust_tier@ == lowercased(p.trust_tier@),
        r.status@ == status_word(p.status),
        opt_text(r.blocked_reason) == (match p.status {
            PluginStatus::Blocked { reason } => Some(reason@),
            _ => None,
        }),
{
    PluginItem {
        id: p.id.clone(),
        display_name: p.display_name.clone(),
        version: p.version.clone(),
        description: p.description.clone(),
        trust_tier: tier_label(p.trust_tier.as_str()),
        status: plugin_status_label(&p.status),
        blocked_reason: blocked_reason(&p.status),
    }
}

/// The title of a plugin's page.
pub fn plugin_title(id: &str) -> (r: String)
    ensures
        r@ == "Plugin "@ + id@,
{
    let mut out: String = "Plugin ".to_owned();
    out.push_str(id);
    out
}

/// The answer where a plugin could not be switched on.
pub fn enable_failed(id: &str, error: &str) -> (r: Reply)
    ensures
        r.is(400, failure_text("enable plugin"@, id@, error@)),
{
    failure("enable plugin", id, error)
}

/// The answer where a plugin could not be switched off.
pub fn disable_failed(id: &str, error: &str) -> (r: Reply)
    ensures
        r.is(400, failure_text("disable plugin"@, id@, error@)),
{
    failure("disable plugin", id, error)
}

/// A plugin is found by its id: the first of that id, and none where there is no such plugin.
pub proof fn law_plugins_are_found_by_id(plugins: Seq<Plugin>, id: Seq<char>, at: int)
    requires
        0 <= at <= plugins.len(),
        at < plugins.len() ==> plugins[at].id@ == id,
        forall|k: int| 0 <= k < at ==> (#[trigger] plugins[k]).id@ != id,
    ensures
        at < plugins.len() ==> plugin_at(plugins, id) == Some(&plugins[at]),
        at == plugins.len() ==> plugin_at(plugins, id) is None,
    decreases plugins.len(),
{
    if plugins.len() > 0 && at > 0 {
        assert(plugins[0].id@ != id);
        let rest = plugins.drop_first();
        assert forall|k: int| 0 <= k < at - 1 implies (#[trigger] rest[k]).id@ != id by {
            assert(rest[k] == plugins[k + 1]);
        }
        law_plugins_are_found_by_id(rest, id, at - 1);
    }
}

/// Each status of a plugin has a word of its own.
pub proof fn law_statuses_have_their_words(reason: String)
    ensures
        status_word(PluginStatus::Discovered) == "discovered"@,
        status_word(PluginStatus::Active) == "active"@,
        status_word(PluginStatus::Disabled) == "disabled"@,
        status_word(PluginStatus::Blocked { reason }) == "blocked"@,
{
}

} // verus!
