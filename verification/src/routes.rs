//! The routes: which methods are answered under which pattern.

use crate::text::{chars_of, lemma_split_nonempty, split, split_chars, string_of, texts, views};
use vstd::prelude::*;

verus! {

/// The routes, one to a line: the methods that are answered, and a pattern. A segment of a
/// pattern in braces stands for any segment.
pub const ROUTES: &'static str =
    "GET /\n\
     GET /a2a\n\
     GET /agent-chat\n\
     POST /agent-chat/new\n\
     GET /agent-chat/{id}\n\
     POST /agent-chat/{id}/stop\n\
     GET /agent-chat/{id}/stream\n\
     GET,POST /agents\n\
     DELETE /agents/{name}\n\
     GET /agents/{name}/detail\n\
     GET /agents/{name}/identity\n\
     POST /agents/{name}/permissions\n\
     POST /agents/{name}/permissions/revoke\n\
     GET /agents/{name}/scratchpad\n\
     POST /agents/{name}/settings\n\
     GET /api/connectors\n\
     GET /api/costs/summary\n\
     GET /api/files/search\n\
     POST /api/files/upload\n\
     GET /api/mentions/search\n\
     POST /api/pipelines\n\
     POST /api/pipelines/export\n\
     POST /api/pipelines/import\n\
     POST /api/pipelines/run\n\
     GET /api/pipelines/runs/{run_id}/events\n\
     POST /api/schedules/preview\n\
     GET /api/tasks/{id}/context/{idx}/raw\n\
     GET /api/tasks/{id}/trace\n\
     POST /api/v1/webhooks/incoming/{endpoint_id}\n\
     POST /api/v1/webhooks/telegram/{channel_id}\n\
     GET,POST /api/v1/webhooks/whatsapp/{channel_id}\n\
     GET /artifacts\n\
     GET /artifacts/{id}\n\
     POST /artifacts/{id}/delete\n\
     GET /artifacts/{id}/raw\n\
     GET /audit\n\
     GET /audit/{trace_id}\n\
     GET /auth/{connector_id}/callback\n\
     GET /auth/{connector_id}/start\n\
     GET /channels\n\
     POST /channels/{id}/disconnect\n\
     GET /chat\n\
     POST /chat/new\n\
     GET /chat/{session_id}\n\
     POST /chat/{session_id}/delete\n\
     GET /chat/{session_id}/export\n\
     POST /chat/{session_id}/fork\n\
     POST /chat/{session_id}/rename\n\
     POST /chat/{session_id}/send\n\
     POST /chat/{session_id}/stop\n\
     GET /chat/{session_id}/stream\n\
     GET /config\n\
     GET /connectors\n\
     POST /connectors/{connector_id}/disconnect\n\
     GET /costs\n\
     GET /dashboard-agents\n\
     GET /dashboard-recent-audit\n\
     GET /dashboard-stats\n\
     GET /dashboard-tasks\n\
     GET /doctor\n\
     GET /escalations\n\
     POST /escalations/{id}/resolve\n\
     GET /events\n\
     GET /events/agents\n\
     GET /events/costs\n\
     GET /events/dashboard\n\
     POST /events/emit\n\
     POST /events/subscribe\n\
     POST /events/subscriptions/{id}/delete\n\
     GET /events/tasks\n\
     GET /events-log\n\
     GET /files\n\
     POST /files/upload\n\
     POST /files/{id}/delete\n\
     GET /files/{id}/download\n\
     GET /hal\n\
     GET,POST /login\n\
     GET /logs\n\
     GET /management\n\
     POST /management/plugins/{id}/disable\n\
     POST /management/plugins/{id}/enable\n\
     POST /management/schedules/{id}/delete\n\
     POST /management/schedules/{id}/pause\n\
     POST /management/schedules/{id}/resume\n\
     GET /manual\n\
     GET /manual/view\n\
     GET /marketplace\n\
     GET /marketplace/{name}\n\
     POST /marketplace/{name}/review\n\
     GET /mcp\n\
     POST /mcp/{name}/detach\n\
     GET /notifications\n\
     DELETE /notifications/read\n\
     GET /notifications/stream\n\
     GET /notifications/unread-count\n\
     GET,DELETE /notifications/{id}\n\
     POST /notifications/{id}/respond\n\
     GET /observability\n\
     GET /pipelines\n\
     GET /pipelines/new\n\
     POST /pipelines/run\n\
     POST /pipelines/{name}/clone\n\
     POST /pipelines/{name}/delete\n\
     GET /pipelines/{name}/edit\n\
     GET /plugins\n\
     POST /plugins/discover\n\
     GET /plugins/{id}\n\
     POST /plugins/{id}/disable\n\
     POST /plugins/{id}/enable\n\
     GET /prefs\n\
     POST /prefs/accept\n\
     POST /prefs/reject\n\
     GET /profile\n\
     POST /profile/edit\n\
     POST /profile/forget\n\
     GET /resources\n\
     GET,POST /roles\n\
     GET /roles/{name}\n\
     POST /roles/{name}/delete\n\
     GET,POST /schedules\n\
     POST /schedules/{id}/delete\n\
     POST /schedules/{id}/pause\n\
     POST /schedules/{id}/resume\n\
     GET /scratchpad\n\
     GET,POST /secrets\n\
     DELETE /secrets/{name}\n\
     GET /tasks\n\
     GET /tasks/{id}\n\
     POST /tasks/{id}/cancel\n\
     GET /tasks/{id}/logs/stream\n\
     POST /tasks/{id}/resume\n\
     GET /tasks/{id}/snapshots\n\
     GET /tasks/{id}/trace\n\
     GET /teams\n\
     GET /teams/{id}\n\
     GET,POST /tools\n\
     DELETE /tools/{name}\n\
     GET,POST /webhooks\n\
     POST /webhooks/{id}/delete\n\
     POST /webhooks/{id}/rotate";

/// The pattern of a line.
pub open spec fn pattern_of(line: Seq<char>) -> Seq<char> {
    let words = split(line, ' ');
    if words.len() >= 2 {
        words[1]
    } else {
        Seq::empty()
    }
}

/// The methods of a line.
pub open spec fn methods_of(line: Seq<char>) -> Seq<Seq<char>> {
    split(split(line, ' ')[0], ',')
}

/// A route.
pub struct Route {
    pub pattern: String,
    /// The methods that are answered.
    pub methods: Vec<String>,
}

/// The patterns of the routes, each with its methods.
pub open spec fn route_views(routes: Seq<Route>) -> Seq<(Seq<char>, Seq<Seq<char>>)> {
    Seq::new(routes.len(), |i: int| (routes[i].pattern@, texts(routes[i].methods@)))
}

/// What the lines of a table say.
pub open spec fn table(lines: Seq<Seq<char>>) -> Seq<(Seq<char>, Seq<Seq<char>>)> {
    Seq::new(lines.len(), |i: int| (pattern_of(lines[i]), methods_of(lines[i])))
}

fn strings_of(list: &Vec<Vec<char>>) -> (r: Vec<String>)
    ensures
        texts(r@) == views(list@),
{
    let mut out: Vec<String> = Vec::new();
    let mut i: usize = 0;
    while i < list.len()
        invariant
            i <= list@.len(),
            out@.len() == i,
            forall|k: int| 0 <= k < i ==> (#[trigger] out@[k])@ == list@[k]@,
        decreases list.len() - i,
    {
        out.push(string_of(list[i].as_slice()));
        i += 1;
    }
    assert(texts(out@) =~= views(list@));
    out
}

/// The route of a line.
fn read_route(line: &Vec<char>) -> (r: Route)
    ensures
        r.pattern@ == pattern_of(line@),
        texts(r.methods@) == methods_of(line@),
{
    let words: Vec<Vec<char>> = split_chars(line.as_slice(), ' ');
    proof {
        lemma_split_nonempty(line@, ' ');
    }
    assert(words@.len() == views(words@).len());
    assert(views(words@)[0] == words@[0]@);
    let methods: Vec<Vec<char>> = split_chars(words[0].as_slice(), ',');
    let pattern: String = if words.len() >= 2 {
        assert(views(words@)[1] == words@[1]@);
        string_of(words[1].as_slice())
    } else {
        let none: Vec<char> = Vec::new();
        string_of(none.as_slice())
    };
    Route { pattern, methods: strings_of(&methods) }
}

/// The routes that a table lists, one to a line.
pub fn routes_in(text: &str) -> (r: Vec<Route>)
    ensures
        route_views(r@) == table(split(text@, '\n')),
{
    let chars: Vec<char> = chars_of(text);
    let lines: Vec<Vec<char>> = split_chars(chars.as_slice(), '\n');
    let mut out: Vec<Route> = Vec::new();
    let mut i: usize = 0;
    while i < lines.len()
        invariant
            i <= lines@.len(),
            out@.len() == i,
            forall|k: int|
                0 <= k < i ==> (#[trigger] out@[k]).pattern@ == pattern_of(lines@[k]@) && texts(
                    out@[k].methods@,
                ) == methods_of(lines@[k]@),
        decreases lines.len() - i,
    {
        out.push(read_route(&lines[i]));
        i += 1;
    }
    assert(route_views(out@) =~= table(views(lines@)));
    out
}

/// The routes.
pub fn routes() -> (r: Vec<Route>)
    ensures
        route_views(r@) == table(split(ROUTES@, '\n')),
{
    routes_in(ROUTES)
}

} // verus!
