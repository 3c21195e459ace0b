//! The marketplace pages: what the registry is asked, and what is read from its answers.

use crate::escape::{url_bytes, urlencoding_simple};
use crate::json::{
    compact, compact_text, contents, entry, entry_contents, lemma_view, object, parse_json, parsed,
    strings, text_entry, Json, JsonV,
};
use crate::reply::Reply;
use crate::text::{decimal, decimal_text, ends_with, opt_text, same, starts_with, texts};
use vstd::prelude::*;

verus! {

/// What the list is asked for.
pub struct SearchParams {
    pub q: Option<String>,
    pub artifact_type: Option<String>,
}

/// The form that reviews a tool.
pub struct ReviewForm {
    pub author_key: String,
    pub rating: u8,
    pub body: Option<String>,
}

/// Where the registry is, unless another place is set.
pub const DEFAULT_REGISTRY_URL: &'static str = "http://localhost:8090";

/// Where the registry is.
pub fn registry_base_url(set: Option<String>) -> (r: String)
    ensures
        r@ == match set {
            Some(url) => url@,
            None => DEFAULT_REGISTRY_URL@,
        },
{
    match set {
        Some(url) => url,
        None => DEFAULT_REGISTRY_URL.to_owned(),
    }
}

/// The URL that lists tools.
pub open spec fn tools_url(base: Seq<char>, query: Seq<char>) -> Seq<char> {
    let all = base + "/v1/tools?limit=50"@;
    if query.len() == 0 {
        all
    } else {
        all + "&q="@ + encoded(query)
    }
}

/// A text as it stands in a URL.
pub open spec fn encoded(s: Seq<char>) -> Seq<char> {
    url_bytes(vstd::utf8::encode_utf8(s))
}

/// The URL that lists tools, all of them or those that are searched for.
pub fn list_url(base: &str, query: &str) -> (r: String)
    ensures
        r@ == tools_url(base@, query@),
{
    let mut url: String = base.to_owned();
    url.push_str("/v1/tools?limit=50");
    proof {
        reveal_strlit("");
    }
    assert(query@.len() == 0 ==> query@ =~= ""@);
    if !same(query, "") {
        url.push_str("&q=");
        let q: String = urlencoding_simple(query);
        url.push_str(q.as_str());
    }
    url
}

/// The URL of a tool.
pub open spec fn tool_path(base: Seq<char>, name: Seq<char>) -> Seq<char> {
    base + "/v1/tools/"@ + encoded(name)
}

/// The URL of a tool.
pub fn tool_url(base: &str, name: &str) -> (r: String)
    ensures
        r@ == tool_path(base@, name@),
{
    let mut url: String = base.to_owned();
    url.push_str("/v1/tools/");
    let n: String = urlencoding_simple(name);
    url.push_str(n.as_str());
    url
}

/// The URL of a tool's reviews.
pub fn reviews_url(base: &str, name: &str) -> (r: String)
    ensures
        r@ == tool_path(base@, name@) + "/reviews"@,
{
    let mut url: String = tool_url(base, name);
    url.push_str("/reviews");
    url
}

/// A tool as the pages show it.
pub struct MarketplaceTool {
    pub name: String,
    pub version: String,
    pub description: String,
    pub author: String,
    pub downloads: i64,
    pub tags: Vec<String>,
    pub artifact_type: String,
}

/// The number under a key, or another.
pub open spec fn int_or(v: JsonV, key: Seq<char>, other: i64) -> i64 {
    match v.int_at(key) {
        Some(n) => n,
        None => other,
    }
}

fn number_or(v: &Json, key: &str, other: i64) -> (r: i64)
    ensures
        r == int_or(v@, key@, other),
{
    match v.int_at(key) {
        Some(n) => n,
        None => other,
    }
}

/// The tags of a tool: none where it has no list of strings.
pub open spec fn tags_of(v: JsonV) -> Seq<Seq<char>> {
    match v.get("tags"@) {
        Some(list) => match strings(list) {
            Some(tags) => tags,
            None => Seq::empty(),
        },
        None => Seq::empty(),
    }
}

fn read_tags(v: &Json) -> (r: Vec<String>)
    ensures
        texts(r@) == tags_of(v@),
{
    let none: Vec<String> = Vec::new();
    assert(texts(none@) =~= Seq::empty());
    match v.get("tags") {
        Some(list) => match list.as_strings() {
            Some(tags) => tags,
            None => none,
        },
        None => none,
    }
}

/// Whether the tool is the one that the registry's answer tells of.
pub open spec fn tells(v: JsonV, tool: MarketplaceTool) -> bool {
    &&& tool.name@ == v.text_or("name"@, ""@)
    &&& tool.version@ == v.text_or("version"@, ""@)
    &&& tool.description@ == v.text_or("description"@, ""@)
    &&& tool.author@ == v.text_or("author"@, ""@)
    &&& tool.downloads == int_or(v, "downloads"@, 0)
    &&& texts(tool.tags@) == tags_of(v)
    &&& tool.artifact_type@ == v.text_or("artifact_type"@, "tool"@)
}

/// Reads a tool from the registry's answer.
pub fn read_tool(v: &Json) -> (r: MarketplaceTool)
    ensures
        tells(v@, r),
{
    MarketplaceTool {
        name: v.text_or("name", ""),
        version: v.text_or("version", ""),
        description: v.text_or("description", ""),
        author: v.text_or("author", ""),
        downloads: number_or(v, "downloads", 0),
        tags: read_tags(v),
        artifact_type: v.text_or("artifact_type", "tool"),
    }
}

/// The type that tools are wanted of; none where it is empty.
pub struct TypeFilter {
    pub artifact_type: String,
}

/// Whether a tool is of the type, or does not say.
pub open spec fn of_type(v: JsonV, artifact_type: Seq<char>) -> bool {
    artifact_type.len() == 0 || match v.text_at("artifact_type"@) {
        Some(t) => t == artifact_type,
        None => true,
    }
}

impl TypeFilter {
    /// Whether a tool is of the type, or does not say.
    pub fn takes(&self, v: &Json) -> (r: bool)
        ensures
            r == of_type(v@, self.artifact_type@),
    {
        proof {
            reveal_strlit("");
        }
        assert(self.artifact_type@.len() == 0 ==> self.artifact_type@ =~= ""@);
        if same(self.artifact_type.as_str(), "") {
            return true;
        }
        match v.text_at("artifact_type") {
            Some(t) => same(t, self.artifact_type.as_str()),
            None => true,
        }
    }
}

/// The content of an answer, where there is one.
pub open spec fn answer_content(answer: Option<Json>) -> Option<JsonV> {
    match answer {
        Some(j) => Some(j@),
        None => None,
    }
}

/// What the registry's body says: nothing where none came, or where it is no JSON.
pub open spec fn body_content(body: Option<&str>) -> Option<JsonV> {
    match body {
        Some(b) => match parsed(b@) {
            Ok(v) => Some(v),
            Err(_) => None,
        },
        None => None,
    }
}

/// Reads the registry's body.
fn answer_of(body: Option<&str>) -> (r: Option<Json>)
    ensures
        answer_content(r) == body_content(body),
{
    match body {
        Some(b) => match parse_json(b) {
            Ok(j) => Some(j),
            Err(_) => None,
        },
        None => None,
    }
}

/// The items of a list; none of anything else.
pub open spec fn items_of(answer: Option<JsonV>) -> Seq<JsonV> {
    match answer {
        Some(JsonV::Array(items)) => items,
        _ => Seq::empty(),
    }
}

/// The items of a list that are of the type, in order.
pub open spec fn typed_items(answer: Option<JsonV>, artifact_type: Seq<char>) -> Seq<JsonV> {
    items_of(answer).filter(|v: JsonV| of_type(v, artifact_type))
}

/// Whether the tools are those that the items tell of, in order.
pub open spec fn tools_told(items: Seq<JsonV>, tools: Seq<MarketplaceTool>) -> bool {
    &&& tools.len() == items.len()
    &&& forall|k: int| 0 <= k < items.len() ==> tells(items[k], #[trigger] tools[k])
}

/// The tools of the registry's answer that are of the type. No answer, or one that is no list,
/// holds none.
pub fn read_tools(answer: &Option<Json>, filter: &TypeFilter) -> (r: Vec<MarketplaceTool>)
    ensures
        tools_told(typed_items(answer_content(*answer), filter.artifact_type@), r@),
{
    let mut out: Vec<MarketplaceTool> = Vec::new();
    let ghost wanted = |v: JsonV| of_type(v, filter.artifact_type@);
    proof {
        reveal(Seq::filter);
    }
    match answer {
        Some(j) => match j {
            Json::Array(items) => {
                let ghost all = contents(items@);
                proof {
                    lemma_view(*j);
                    assert(items_of(answer_content(*answer)) == all);
                    assert(all.take(0) =~= Seq::<JsonV>::empty());
                }
                let mut i: usize = 0;
                while i < items.len()
                    invariant
                        i <= items@.len(),
                        all == contents(items@),
                        wanted == (|v: JsonV| of_type(v, filter.artifact_type@)),
                        tools_told(all.take(i as int).filter(wanted), out@),
                    decreases items.len() - i,
                {
                    proof {
                        reveal(Seq::filter);
                        assert(all.take(i + 1).drop_last() =~= all.take(i as int));
                        assert(all.take(i + 1).last() == items@[i as int]@);
                    }
                    if filter.takes(&items[i]) {
                        out.push(read_tool(&items[i]));
                    }
                    i += 1;
                }
                assert(all.take(i as int) =~= all);
                out
            },
            _ => out,
        },
        None => out,
    }
}

/// The tools of the registry's body that are of the type.
pub fn tools_of_body(body: Option<&str>, filter: &TypeFilter) -> (r: Vec<MarketplaceTool>)
    ensures
        tools_told(typed_items(body_content(body), filter.artifact_type@), r@),
{
    read_tools(&answer_of(body), filter)
}

/// The tool that an answer tells of: none where there is no answer, or it tells of an error.
pub open spec fn tool_told(answer: Option<JsonV>) -> Option<JsonV> {
    match answer {
        Some(v) => if v.get("error"@) is Some {
            None
        } else {
            Some(v)
        },
        None => None,
    }
}

/// The tool of the registry's answer: none where there is no answer, or it tells of an error.
pub fn read_tool_detail(answer: &Option<Json>) -> (r: Option<MarketplaceTool>)
    ensures
        match tool_told(answer_content(*answer)) {
            Some(v) => r matches Some(tool) && tells(v, tool),
            None => r is None,
        },
{
    match answer {
        Some(j) => match j.get("error") {
            Some(_) => None,
            None => Some(read_tool(j)),
        },
        None => None,
    }
}

/// The tool whose page is shown, or the answer where the registry has none.
pub fn found_tool(answer: &Option<Json>) -> (r: Result<MarketplaceTool, Reply>)
    ensures
        match tool_told(answer_content(*answer)) {
            Some(v) => r matches Ok(tool) && tells(v, tool),
            None => r matches Err(reply) && reply.is(404, "Tool not found in marketplace"@),
        },
{
    match read_tool_detail(answer) {
        Some(tool) => Ok(tool),
        None => Err(Reply::new(404, "Tool not found in marketplace")),
    }
}

/// The tool of the registry's body, whose page is shown, or the answer where it has none.
pub fn tool_of_body(body: Option<&str>) -> (r: Result<MarketplaceTool, Reply>)
    ensures
        match tool_told(body_content(body)) {
            Some(v) => r matches Ok(tool) && tells(v, tool),
            None => r matches Err(reply) && reply.is(404, "Tool not found in marketplace"@),
        },
{
    found_tool(&answer_of(body))
}

/// A review as the page shows it.
pub struct Review {
    pub id: i64,
    pub tool_name: String,
    pub author_key: String,
    pub rating: u8,
    pub body: Option<String>,
    pub created_at: String,
}

/// The lowest byte of a number.
pub open spec fn low_byte(n: i64) -> int {
    n as int % 256
}

fn byte_of(n: i64) -> (r: u8)
    ensures
        r == low_byte(n),
{
    if n >= 0 {
        (n % 256) as u8
    } else {
        let above: i64 = -(n + 1);
        let rest: u8 = (above % 256) as u8;
        assert(n as int % 256 == 255 - (above as int % 256));
        255 - rest
    }
}

/// Whether the review is the one that the registry's answer tells of.
pub open spec fn tells_review(v: JsonV, review: Review) -> bool {
    &&& review.id == int_or(v, "id"@, 0)
    &&& review.tool_name@ == v.text_or("tool_name"@, ""@)
    &&& review.author_key@ == v.text_or("author_key"@, ""@)
    &&& review.rating == low_byte(int_or(v, "rating"@, 1))
    &&& opt_text(review.body) == v.text_at("body"@)
    &&& review.created_at@ == v.text_or("created_at"@, ""@)
}

/// Reads a review from the registry's answer.
pub fn read_review(v: &Json) -> (r: Review)
    ensures
        tells_review(v@, r),
{
    let body: Option<String> = match v.text_at("body") {
        Some(t) => Some(t.to_owned()),
        None => None,
    };
    Review {
        id: number_or(v, "id", 0),
        tool_name: v.text_or("tool_name", ""),
        author_key: v.text_or("author_key", ""),
        rating: byte_of(number_or(v, "rating", 1)),
        body,
        created_at: v.text_or("created_at", ""),
    }
}

/// Whether the reviews are those that the items tell of, in order.
pub open spec fn reviews_told(items: Seq<JsonV>, reviews: Seq<Review>) -> bool {
    &&& reviews.len() == items.len()
    &&& forall|k: int| 0 <= k < items.len() ==> tells_review(items[k], #[trigger] reviews[k])
}

/// The reviews of the registry's answer. No answer, or one that is no list, holds none.
pub fn read_reviews(answer: &Option<Json>) -> (r: Vec<Review>)
    ensures
        reviews_told(items_of(answer_content(*answer)), r@),
{
    let mut out: Vec<Review> = Vec::new();
    match answer {
        Some(j) => match j {
            Json::Array(items) => {
                proof {
                    lemma_view(*j);
                }
                let mut i: usize = 0;
                while i < items.len()
                    invariant
                        i <= items@.len(),
                        out@.len() == i,
                        forall|k: int|
                            0 <= k < i ==> tells_review(items@[k]@, #[trigger] out@[k]),
                    decreases items.len() - i,
                {
                    out.push(read_review(&items[i]));
                    i += 1;
                }
                out
            },
            _ => out,
        },
        None => out,
    }
}

/// The reviews of the registry's body.
pub fn reviews_of_body(body: Option<&str>) -> (r: Vec<Review>)
    ensures
        reviews_told(items_of(body_content(body)), r@),
{
    read_reviews(&answer_of(body))
}

/// A review as it is sent to the registry.
pub open spec fn review_json(form: ReviewForm) -> JsonV {
    JsonV::Object(
        seq![
            ("author_key"@, JsonV::Text(form.author_key@)),
            (
                "body"@,
                match opt_text(form.body) {
                    Some(t) => JsonV::Text(t),
                    None => JsonV::Null,
                },
            ),
            ("rating"@, JsonV::Number(decimal(form.rating as nat))),
        ],
    )
}

/// What is sent to the registry for a review.
pub fn review_payload(form: &ReviewForm) -> (r: String)
    ensures
        r@ == compact_text(review_json(*form)),
{
    let body: Json = match &form.body {
        Some(t) => Json::Text(t.clone()),
        None => Json::Null,
    };
    let entries: Vec<(String, Json)> = vec![
        text_entry("author_key", form.author_key.as_str()),
        ("body".to_owned(), body),
        ("rating".to_owned(), Json::Number(decimal_text(form.rating as u64))),
    ];
    assert(entry_contents(entries@) =~= review_json(*form)->Object_0);
    compact(&object(entries))
}

/// The title of a tool's page.
pub fn tool_title(name: &str) -> (r: String)
    ensures
        r@ == name@ + " — Marketplace"@,
{
    let mut out: String = name.to_owned();
    out.push_str(" — Marketplace");
    out
}

/// Tools are listed under the registry's own address, fifty at most, and with the words that are
/// searched for where there are some; a tool stands under its name.
pub proof fn law_tools_are_asked_for_at_the_registry(base: Seq<char>, query: Seq<char>)
    ensures
        starts_with(tools_url(base, query), base + "/v1/tools?limit=50"@),
        query.len() == 0 ==> tools_url(base, query) == base + "/v1/tools?limit=50"@,
        query.len() > 0 ==> ends_with(tools_url(base, query), "&q="@ + encoded(query)),
        starts_with(tool_path(base, query), base + "/v1/tools/"@),
        ends_with(tool_path(base, query), encoded(query)),
{
    let all = base + "/v1/tools?limit=50"@;
    let url = tools_url(base, query);
    assert(url.subrange(0, all.len() as int) =~= all);
    if query.len() > 0 {
        let tail = "&q="@ + encoded(query);
        assert(url =~= all + tail);
        assert(url.subrange(url.len() - tail.len(), url.len() as int) =~= tail);
    }
    let path = tool_path(base, query);
    let front = base + "/v1/tools/"@;
    assert(path.subrange(0, front.len() as int) =~= front);
    assert(path.subrange(path.len() - encoded(query).len(), path.len() as int) =~= encoded(query));
}

/// A tool is listed under its type, and under every type where it does not say its own or none is
/// asked for.
pub proof fn law_tools_are_listed_by_type(v: JsonV, kind: Seq<char>)
    ensures
        of_type(v, Seq::empty()),
        v.text_at("artifact_type"@) is None ==> of_type(v, kind),
        v.text_at("artifact_type"@) == Some(kind) ==> of_type(v, kind),
        kind.len() > 0 && v.text_at("artifact_type"@) is Some && v.text_at("artifact_type"@)->0
            != kind ==> !of_type(v, kind),
{
}

/// A tool and a review say what the registry's answer says of them, and what the answer leaves
/// out is empty. An answer that tells of an error tells of no tool.
pub proof fn law_answers_are_told(
    v: JsonV,
    tool: MarketplaceTool,
    review: Review,
)
    requires
        tells(v, tool),
        tells_review(v, review),
    ensures
        v.text_at("name"@) is Some ==> tool.name@ == v.text_at("name"@)->0,
        v.text_at("name"@) is None ==> tool.name@ == ""@,
        v.text_at("version"@) is Some ==> tool.version@ == v.text_at("version"@)->0,
        v.text_at("description"@) is Some ==> tool.description@ == v.text_at("description"@)->0,
        v.text_at("author"@) is Some ==> tool.author@ == v.text_at("author"@)->0,
        v.int_at("downloads"@) is Some ==> tool.downloads == v.int_at("downloads"@)->0,
        v.int_at("downloads"@) is None ==> tool.downloads == 0,
        v.text_at("artifact_type"@) is None ==> tool.artifact_type@ == "tool"@,
        v.text_at("artifact_type"@) is Some ==> tool.artifact_type@ == v.text_at(
            "artifact_type"@,
        )->0,
        v.text_at("tool_name"@) is Some ==> review.tool_name@ == v.text_at("tool_name"@)->0,
        v.text_at("author_key"@) is Some ==> review.author_key@ == v.text_at("author_key"@)->0,
        v.int_at("rating"@) is Some && 0 <= v.int_at("rating"@)->0 < 256 ==> review.rating
            == v.int_at("rating"@)->0,
        v.int_at("rating"@) is None ==> review.rating == 1,
        opt_text(review.body) == v.text_at("body"@),
        v.get("error"@) is Some ==> tool_told(Some(v)) is None,
        v.get("error"@) is None ==> tool_told(Some(v)) == Some(v),
        tool_told(None) is None,
{
}

/// The items of an answer that are of the type are listed, in order, and no others.
pub proof fn law_items_of_the_type_are_listed(items: Seq<JsonV>, item: JsonV, kind: Seq<char>)
    ensures
        typed_items(None, kind).len() == 0,
        of_type(item, kind) ==> typed_items(Some(JsonV::Array(items.push(item))), kind)
            == typed_items(Some(JsonV::Array(items)), kind).push(item),
        !of_type(item, kind) ==> typed_items(Some(JsonV::Array(items.push(item))), kind)
            == typed_items(Some(JsonV::Array(items)), kind),
{
    reveal(Seq::filter);
    assert(items.push(item).drop_last() =~= items);
    assert(Seq::<JsonV>::empty().filter(|v: JsonV| of_type(v, kind)).len() == 0);
}

/// A review is sent with its author, its rating and its text, and with null where it has none.
pub proof fn law_reviews_are_sent_whole(form: ReviewForm)
    ensures
        review_json(form).text_at("author_key"@) == Some(form.author_key@),
        review_json(form).get("rating"@) == Some(JsonV::Number(decimal(form.rating as nat))),
        form.body is Some ==> review_json(form).text_at("body"@) == Some(form.body->0@),
        form.body is None ==> review_json(form).get("body"@) == Some(JsonV::Null),
{
    reveal_strlit("author_key");
    reveal_strlit("body");
    reveal_strlit("rating");
    assert("author_key"@.len() == 10 && "body"@.len() == 4 && "rating"@.len() == 6);
    let all = review_json(form)->Object_0;
    reveal_with_fuel(entry, 4);
    assert(all.drop_first()[0] == all[1]);
    assert(all.drop_first().drop_first()[0] == all[2]);
}

} // verus!
