//! The tools page: which tools are listed, and which manifests may be installed.

use crate::handlers::files::{inside, is_inside};
use crate::handlers::secrets::{says_missing, tells_missing};
use crate::json::{entry_contents, object, text_entry, Json, JsonV};
use crate::reply::Reply;
use crate::select::{choose_rows, chosen, Picks};
use crate::text::{
    chars_of, contains_text, last_index_of, lowercased, opt_text, rfind_char, same, str_contains,
    string_of, sub_chars,
};
use vstd::prelude::*;

verus! {

/// What the list is asked for.
pub struct ListQuery {
    pub partial: Option<String>,
    pub filter_type: Option<String>,
}

/// Whether the cards alone are asked for.
pub fn wants_cards(query: &ListQuery) -> (r: bool)
    ensures
        r <==> opt_text(query.partial) == Some("list"@),
{
    match &query.partial {
        Some(p) => same(p.as_str(), "list"),
        None => false,
    }
}

/// A tool.
pub struct ToolEntry {
    pub id: u128,
    pub name: String,
    pub executor_type: String,
}

impl Picks<ToolEntry> for ListQuery {
    /// A tool whose kind of executor holds what is asked for, whatever the case.
    open spec fn picks(&self, row: ToolEntry) -> bool {
        match self.filter_type {
            Some(t) => contains_text(lowercased(row.executor_type@), lowercased(t@)),
            None => true,
        }
    }

    fn takes(&self, row: &ToolEntry) -> (r: bool) {
        match &self.filter_type {
            Some(t) => {
                let kind: String = row.executor_type.as_str().to_lowercase();
                let asked: String = t.as_str().to_lowercase();
                str_contains(kind.as_str(), asked.as_str())
            },
            None => true,
        }
    }
}

/// The tools that are listed, in order.
pub fn list<'a>(tools: &'a Vec<ToolEntry>, query: &ListQuery) -> (r: Vec<&'a ToolEntry>)
    ensures
        r@ == chosen::<'a, ToolEntry, ListQuery>(tools@, *query),
{
    choose_rows(tools, query)
}

/// The form that installs a tool.
pub struct InstallForm {
    pub manifest_path: String,
}

/// The name at the end of a resolved path.
pub open spec fn file_name(path: Seq<char>) -> Seq<char> {
    path.skip(last_index_of(path, '/') + 1)
}

/// What stands behind the last dot of a file's name, where something stands before it.
pub open spec fn extension(path: Seq<char>) -> Option<Seq<char>> {
    let name = file_name(path);
    let dot = last_index_of(name, '.');
    if dot <= 0 {
        None
    } else {
        Some(name.skip(dot + 1))
    }
}

/// Whether a resolved path ends in this extension.
pub fn has_extension(path: &str, ext: &str) -> (r: bool)
    ensures
        r == (extension(path@) == Some(ext@)),
{
    let chars: Vec<char> = chars_of(path);
    let end: usize = chars.len();
    let from: usize = match rfind_char(chars.as_slice(), '/') {
        Some(i) => {
            assert(i < end);
            i + 1
        },
        None => 0,
    };
    let name: Vec<char> = sub_chars(chars.as_slice(), from, end);
    assert(name@ =~= file_name(path@));
    match rfind_char(name.as_slice(), '.') {
        Some(dot) => {
            if dot == 0 {
                return false;
            }
            let tail: Vec<char> = sub_chars(name.as_slice(), dot + 1, name.len());
            assert(tail@ =~= name@.skip(dot + 1));
            let text: String = string_of(tail.as_slice());
            same(text.as_str(), ext)
        },
        None => false,
    }
}

/// Whether a resolved path lies in one of the directories.
pub open spec fn allowed(path: Seq<char>, dirs: Seq<String>) -> bool {
    exists|i: int| 0 <= i < dirs.len() && inside(path, (#[trigger] dirs[i])@)
}

/// Whether a resolved path lies in one of the directories.
pub fn is_allowed(path: &str, dirs: &Vec<String>) -> (r: bool)
    ensures
        r == allowed(path@, dirs@),
{
    let mut i: usize = 0;
    while i < dirs.len()
        invariant
            i <= dirs@.len(),
            forall|k: int| 0 <= k < i ==> !inside(path@, (#[trigger] dirs@[k])@),
        decreases dirs.len() - i,
    {
        if is_inside(path, dirs[i].as_str()) {
            assert(inside(path@, dirs@[i as int]@));
            return true;
        }
        i += 1;
    }
    false
}

/// How the path of a manifest was resolved.
pub enum Resolved {
    Path(String),
    /// It leads nowhere.
    Nowhere,
    /// It could not be looked at.
    Failed,
}

/// What is refused of a manifest.
pub enum InstallRefusal {
    Reply(Reply),
    /// The path lies outside the directories, which is recorded with these details.
    Outside { reply: Reply, details: Json },
}

/// What is recorded of a manifest that lies outside the directories.
pub open spec fn blocked_json(path: Seq<char>) -> JsonV {
    JsonV::Object(
        seq![
            ("action"@, JsonV::Text("tool_install_blocked"@)),
            ("canonical_path"@, JsonV::Text(path)),
            ("reason"@, JsonV::Text("path_not_in_allowed_dirs"@)),
        ],
    )
}

/// What is recorded of a manifest that lies outside the directories.
pub fn blocked_details(path: &str) -> (r: Json)
    ensures
        r@ == blocked_json(path@),
{
    let entries: Vec<(String, Json)> = vec![
        text_entry("action", "tool_install_blocked"),
        text_entry("canonical_path", path),
        text_entry("reason", "path_not_in_allowed_dirs"),
    ];
    assert(entry_contents(entries@) =~= seq![
        ("action"@, JsonV::Text("tool_install_blocked"@)),
        ("canonical_path"@, JsonV::Text(path@)),
        ("reason"@, JsonV::Text("path_not_in_allowed_dirs"@)),
    ]);
    object(entries)
}

/// The path that a tool is installed from. It lies in one of the directories and ends in
/// `.toml`.
pub fn install(resolved: Resolved, dirs: &Vec<String>) -> (r: Result<String, InstallRefusal>)
    ensures
        match resolved {
            Resolved::Nowhere => r matches Err(InstallRefusal::Reply(reply)) && reply.is(
                400,
                "Cannot resolve manifest path"@,
            ),
            Resolved::Failed => r matches Err(InstallRefusal::Reply(reply)) && reply.is(
                500,
                "Internal error"@,
            ),
            Resolved::Path(path) => if !allowed(path@, dirs@) {
                r matches Err(InstallRefusal::Outside { reply, details }) && reply.is(
                    403,
                    "Manifest path is not in an allowed tool directory"@,
                ) && details@ == blocked_json(path@)
            } else if extension(path@) != Some("toml"@) {
                r matches Err(InstallRefusal::Reply(reply)) && reply.is(
                    400,
                    "Manifest file must have a .toml extension"@,
                )
            } else {
                r matches Ok(p) && p == path
            },
        },
{
    match resolved {
        Resolved::Nowhere => Err(
            InstallRefusal::Reply(Reply::new(400, "Cannot resolve manifest path")),
        ),
        Resolved::Failed => Err(InstallRefusal::Reply(Reply::new(500, "Internal error"))),
        Resolved::Path(path) => if !is_allowed(path.as_str(), dirs) {
            Err(
                InstallRefusal::Outside {
                    reply: Reply::new(403, "Manifest path is not in an allowed tool directory"),
                    details: blocked_details(path.as_str()),
                },
            )
        } else if !has_extension(path.as_str(), "toml") {
            Err(
                InstallRefusal::Reply(Reply::new(400, "Manifest file must have a .toml extension")),
            )
        } else {
            Ok(path)
        },
    }
}

/// The answer where a tool could not be installed.
pub fn install_failed(error: &str) -> (r: Reply)
    ensures
        r.is(400, "Failed to install tool: "@ + error@),
{
    let mut body: String = "Failed to install tool: ".to_owned();
    body.push_str(error);
    Reply { status: 400, body }
}

/// The status of a request that removes a tool, by what was wrong.
pub fn removed(error: Option<&str>) -> (r: u16)
    ensures
        r == match error {
            None => 204u16,
            Some(e) => if says_missing(e@) {
                404u16
            } else {
                500u16
            },
        },
{
    match error {
        None => 204,
        Some(e) => if tells_missing(e) {
            404
        } else {
            500
        },
    }
}

/// The name of a file stands behind the last slash of its path, and its extension behind the last
/// dot of its name; a name that only begins with a dot has none.
pub proof fn law_files_are_named_behind_the_last_slash(
    dir: Seq<char>,
    stem: Seq<char>,
    ext: Seq<char>,
)
    requires
        !stem.contains('/'),
        !ext.contains('/'),
        !ext.contains('.'),
    ensures
        file_name(dir + seq!['/'] + (stem + seq!['.'] + ext)) == stem + seq!['.'] + ext,
        stem.len() > 0 ==> extension(dir + seq!['/'] + (stem + seq!['.'] + ext)) == Some(ext),
        stem.len() == 0 ==> extension(dir + seq!['/'] + (stem + seq!['.'] + ext)) is None,
        extension(dir + seq!['/'] + ext) is None,
{
    let name = stem + seq!['.'] + ext;
    assert(!name.contains('/')) by {
        if name.contains('/') {
            let k = choose|k: int| 0 <= k < name.len() && name[k] == '/';
            if k < stem.len() {
                assert(stem[k] == '/');
            } else if k > stem.len() {
                assert(ext[k - stem.len() - 1] == '/');
            }
        }
    }
    let path = dir + seq!['/'] + name;
    lemma_last_at(dir, '/', name);
    assert(path.skip(dir.len() as int + 1) =~= name);
    lemma_last_at(stem, '.', ext);
    assert(name.skip(stem.len() as int + 1) =~= ext);
    let bare = dir + seq!['/'] + ext;
    lemma_last_at(dir, '/', ext);
    assert(bare.skip(dir.len() as int + 1) =~= ext);
    lemma_none_of(ext, '.');
}

proof fn lemma_last_at(a: Seq<char>, c: char, b: Seq<char>)
    requires
        !b.contains(c),
    ensures
        last_index_of(a + seq![c] + b, c) == a.len(),
    decreases b.len(),
{
    let s = a + seq![c] + b;
    if b.len() > 0 {
        assert(b[b.len() - 1] != c);
        assert(s.last() == b.last());
        assert forall|i: int| 0 <= i < b.drop_last().len() implies #[trigger] b.drop_last()[i]
            != c by {
            assert(b.drop_last()[i] == b[i]);
        }
        lemma_last_at(a, c, b.drop_last());
        assert(s.drop_last() =~= a + seq![c] + b.drop_last());
    } else {
        assert(s.last() == c);
    }
}

proof fn lemma_none_of(s: Seq<char>, c: char)
    requires
        !s.contains(c),
    ensures
        last_index_of(s, c) == -1,
    decreases s.len(),
{
    if s.len() > 0 {
        assert(s[s.len() - 1] != c);
        assert forall|i: int| 0 <= i < s.drop_last().len() implies #[trigger] s.drop_last()[i]
            != c by {
            assert(s.drop_last()[i] == s[i]);
        }
        lemma_none_of(s.drop_last(), c);
    }
}

/// A manifest may be installed where it lies in one of the directories, and nowhere else.
pub proof fn law_manifests_lie_in_a_directory(path: Seq<char>, dirs: Seq<String>, dir: String)
    ensures
        !allowed(path, Seq::empty()),
        allowed(path, dirs) || inside(path, dir@) ==> allowed(path, dirs.push(dir)),
        allowed(path, dirs.push(dir)) ==> allowed(path, dirs) || inside(path, dir@),
{
    if allowed(path, dirs) {
        let i = choose|i: int| 0 <= i < dirs.len() && inside(path, (#[trigger] dirs[i])@);
        assert(inside(path, dirs.push(dir)[i]@));
    }
    if inside(path, dir@) {
        assert(inside(path, dirs.push(dir)[dirs.len() as int]@));
    }
    if allowed(path, dirs.push(dir)) {
        let i = choose|i: int|
            0 <= i < dirs.push(dir).len() && inside(path, (#[trigger] dirs.push(dir)[i])@);
        if i < dirs.len() {
            assert(inside(path, dirs[i]@));
        }
    }
}

} // verus!
