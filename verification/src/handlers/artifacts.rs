//! Artifacts: pages, documents and decks that agents write.

use crate::escape::{escape_html_attr, escaped, law_byte_prefix_is_longest, Entities};
use crate::file_store::UploadedFile;
use crate::handlers::files::{
    inside, is_inside, kibibytes, size_kb, tag_chars, upload_tags, MAX_TAG_BYTES,
};
use crate::ids::{is_uuid, parse_uuid, short, short_id, uuid_like, uuid_value};
use crate::markdown::{markdown_html, render_markdown};
use crate::reply::Lookup;
use crate::text::{
    chars_of, comma_list, has_prefix, has_string, index_of, lacks, law_trimming_cuts_the_ends,
    lemma_blank, lemma_comma_list_lacks, opt_text, same, same_chars, starts_with, str_strip_prefix,
    string_of, strip_prefix, sub_chars, texts, trim, trim_chars, whitespace, Cut,
};
use vstd::prelude::*;

verus! {

/// The largest artifact that is read, in bytes.
pub const MAX_ARTIFACT_BYTES: u64 = 2_097_152;

/// The most slides of a deck.
pub const MAX_SLIDES: usize = 500;

// ---------------------------------------------------------------------------
// Tags
// ---------------------------------------------------------------------------

/// What follows the prefix in the first tag from `i` on that has it, where there is one and it
/// is not empty.
pub open spec fn tagged(tags: Seq<Seq<char>>, prefix: Seq<char>, i: int) -> Option<Seq<char>>
    decreases tags.len() - i,
{
    if i < 0 || i >= tags.len() {
        None
    } else {
        match strip_prefix(tags[i], prefix) {
            Some(v) => if v.len() == 0 {
                None
            } else {
                Some(v)
            },
            None => tagged(tags, prefix, i + 1),
        }
    }
}

/// What follows the prefix in the first of the file's tags that has it.
pub fn tag_value(f: &UploadedFile, prefix: &str) -> (r: Option<String>)
    ensures
        opt_text(r) == tagged(texts(f.tags@), prefix@, 0),
{
    let mut i: usize = 0;
    while i < f.tags.len()
        invariant
            i <= f.tags@.len(),
            tagged(texts(f.tags@), prefix@, i as int) == tagged(texts(f.tags@), prefix@, 0),
        decreases f.tags.len() - i,
    {
        assert(texts(f.tags@)[i as int] == f.tags@[i as int]@);
        if let Some(v) = str_strip_prefix(f.tags[i].as_str(), prefix) {
            assert(v@.len() == 0 ==> v@ =~= ""@) by {
                reveal_strlit("");
            }
            proof {
                reveal_strlit("");
            }
            return if same(v.as_str(), "") {
                None
            } else {
                Some(v)
            };
        }
        i += 1;
    }
    None
}

/// Whether the tags are those of an artifact: `artifact`, and the agent that wrote it.
pub open spec fn artifact_tags(tags: Seq<Seq<char>>) -> bool {
    tags.contains("artifact"@) && tagged(tags, "agent:"@, 0) is Some
}

/// Whether the file is an artifact.
pub fn is_artifact(f: &UploadedFile) -> (r: bool)
    ensures
        r == artifact_tags(texts(f.tags@)),
{
    has_string(&f.tags, "artifact") && tag_value(f, "agent:").is_some()
}

/// The kind of an artifact, empty where it has none.
pub open spec fn kind_of(tags: Seq<Seq<char>>) -> Seq<char> {
    match tagged(tags, "kind:"@, 0) {
        Some(k) => k,
        None => ""@,
    }
}

/// The kind of the artifact, empty where it has none.
pub fn artifact_kind(f: &UploadedFile) -> (r: String)
    ensures
        r@ == kind_of(texts(f.tags@)),
{
    match tag_value(f, "kind:") {
        Some(k) => k,
        None => "".to_owned(),
    }
}

/// The id of the agent that wrote the artifact, where its tag is one.
pub fn artifact_agent(f: &UploadedFile) -> (r: Option<u128>)
    ensures
        r == (match tagged(texts(f.tags@), "agent:"@, 0) {
            Some(tag) => uuid_value(tag),
            None => None,
        }),
{
    match tag_value(f, "agent:") {
        Some(tag) => parse_uuid(tag.as_str()),
        None => None,
    }
}

/// The agent as it is shown: the name that its id is registered under, the tag where there is
/// no such agent, and `unknown` without a tag.
pub fn agent_label(f: &UploadedFile, registered: Option<&str>) -> (r: String)
    ensures
        r@ == (match tagged(texts(f.tags@), "agent:"@, 0) {
            None => "unknown"@,
            Some(tag) => match registered {
                Some(name) => if uuid_like(tag) {
                    name@
                } else {
                    tag
                },
                None => tag,
            },
        }),
{
    match tag_value(f, "agent:") {
        None => "unknown".to_owned(),
        Some(tag) => match registered {
            Some(name) => if is_uuid(tag.as_str()) {
                name.to_owned()
            } else {
                tag
            },
            None => tag,
        },
    }
}

proof fn lemma_tagged_has_colon(tags: Seq<Seq<char>>, i: int)
    requires
        0 <= i,
        tagged(tags, "agent:"@, i) is Some,
    ensures
        exists|k: int| 0 <= k < tags.len() && (#[trigger] tags[k]).contains(':'),
    decreases tags.len() - i,
{
    reveal_strlit("agent:");
    if i < tags.len() {
        if strip_prefix(tags[i], "agent:"@) is Some {
            assert(starts_with(tags[i], "agent:"@));
            assert(tags[i].subrange(0, 6)[5] == tags[i][5]);
            assert(tags[i].contains(':'));
        } else {
            lemma_tagged_has_colon(tags, i + 1);
        }
    }
}

proof fn lemma_tag_chars_lack_colon(s: Seq<char>)
    ensures
        lacks(tag_chars(s), ':'),
    decreases s.len(),
{
    if s.len() > 0 {
        lemma_tag_chars_lack_colon(s.drop_last());
    }
}

/// No upload is an artifact, whatever its tags field holds.
pub proof fn law_uploads_are_no_artifacts(field: Seq<char>)
    ensures
        !artifact_tags(comma_list(upload_tags(field))),
{
    let kept = tag_chars(trim(field));
    lemma_tag_chars_lack_colon(trim(field));
    law_byte_prefix_is_longest(kept, MAX_TAG_BYTES as nat);
    let tags = upload_tags(field);
    assert forall|i: int| 0 <= i < tags.len() implies #[trigger] tags[i] != ':' by {
        assert(kept.subrange(0, tags.len() as int)[i] == kept[i]);
    }
    lemma_comma_list_lacks(tags, ':');
    if tagged(comma_list(tags), "agent:"@, 0) is Some {
        lemma_tagged_has_colon(comma_list(tags), 0);
        let k = choose|k: int|
            0 <= k < comma_list(tags).len() && (#[trigger] comma_list(tags)[k]).contains(':');
        assert(lacks(comma_list(tags)[k], ':'));
    }
}

// ---------------------------------------------------------------------------
// Loading
// ---------------------------------------------------------------------------

/// An artifact as it is listed and shown.
pub struct ArtifactItem {
    pub id: String,
    pub short_id: String,
    pub name: String,
    pub kind: String,
    pub agent: String,
    pub size_kb: u64,
    pub uploaded_at: String,
}

/// The artifact as it is listed and shown.
pub fn artifact_item(f: &UploadedFile, registered: Option<&str>) -> (r: ArtifactItem)
    ensures
        r.id@ == f.id@,
        r.short_id@ == short(f.id@),
        r.name@ == f.original_name@,
        r.kind@ == kind_of(texts(f.tags@)),
        r.agent@ == (match tagged(texts(f.tags@), "agent:"@, 0) {
            None => "unknown"@,
            Some(tag) => match registered {
                Some(name) => if uuid_like(tag) {
                    name@
                } else {
                    tag
                },
                None => tag,
            },
        }),
        r.size_kb == kibibytes(f.size),
        r.uploaded_at@ == f.uploaded_at@,
{
    ArtifactItem {
        id: f.id.clone(),
        short_id: short_id(f.id.as_str()),
        name: f.original_name.clone(),
        kind: artifact_kind(f),
        agent: agent_label(f, registered),
        size_kb: size_kb(f.size),
        uploaded_at: f.uploaded_at.clone(),
    }
}

/// The row of an artifact, or the status of the refusal: 404 for what is no id, no row or no
/// artifact, 500 where the lookup failed.
pub fn load_row_only<'a>(id: &str, found: Lookup<&'a UploadedFile>) -> (r: Result<
    &'a UploadedFile,
    u16,
>)
    ensures
        r == (if !uuid_like(id@) {
            Err::<&UploadedFile, u16>(404)
        } else {
            match found {
                Lookup::Found(f) => if artifact_tags(texts(f.tags@)) {
                    Ok(f)
                } else {
                    Err(404)
                },
                Lookup::Missing => Err(404),
                Lookup::Failed => Err(500),
            }
        }),
{
    if !is_uuid(id) {
        return Err(404);
    }
    match found {
        Lookup::Found(f) => if is_artifact(f) {
            Ok(f)
        } else {
            Err(404)
        },
        Lookup::Missing => Err(404),
        Lookup::Failed => Err(500),
    }
}

/// Whether the bytes of a row may be read from where its path resolves to.
pub fn check_artifact_place(canonical: Option<&str>, uploads: Option<&str>) -> (r: Result<(), u16>)
    ensures
        r == (match (canonical, uploads) {
            (Some(path), Some(dir)) => if inside(path@, dir@) {
                Ok::<(), u16>(())
            } else {
                Err(404)
            },
            _ => Err(404),
        }),
{
    match canonical {
        Some(path) => match uploads {
            Some(dir) => if is_inside(path, dir) {
                Ok(())
            } else {
                Err(404)
            },
            None => Err(404),
        },
        None => Err(404),
    }
}

/// The text of an artifact, from the bytes read, at most one more than the limit. `None` is a
/// read that failed.
pub fn artifact_text(bytes: Option<&[u8]>) -> (r: Result<String, u16>)
    ensures
        match bytes {
            None => r == Err::<String, u16>(404),
            Some(b) => if b@.len() > MAX_ARTIFACT_BYTES {
                r == Err::<String, u16>(413)
            } else if vstd::utf8::valid_utf8(b@) {
                r matches Ok(s) && s@ == vstd::utf8::decode_utf8(b@)
            } else {
                r == Err::<String, u16>(404)
            },
        },
{
    match bytes {
        None => Err(404),
        Some(b) => {
            if b.len() as u64 > MAX_ARTIFACT_BYTES {
                return Err(413);
            }
            match crate::csrf::utf8_text(b) {
                Some(s) => Ok(s),
                None => Err(404),
            }
        },
    }
}

// ---------------------------------------------------------------------------
// Kinds
// ---------------------------------------------------------------------------

/// How the viewer shows an artifact.
#[derive(Clone, Copy, PartialEq, Eq, Structural)]
pub enum Viewer {
    /// Rendered into the page itself.
    Inline,
    /// In a frame of its own, from the raw route.
    Framed,
    /// Not at all.
    NotFound,
}

/// How an artifact of this kind is shown.
pub open spec fn viewer_for(kind: Seq<char>) -> Viewer {
    if kind == "markdown"@ {
        Viewer::Inline
    } else if kind == "html"@ || kind == "slides"@ {
        Viewer::Framed
    } else {
        Viewer::NotFound
    }
}

/// How an artifact of this kind is shown.
pub fn viewer(kind: &str) -> (r: Viewer)
    ensures
        r == viewer_for(kind@),
{
    if same(kind, "markdown") {
        Viewer::Inline
    } else if same(kind, "html") || same(kind, "slides") {
        Viewer::Framed
    } else {
        Viewer::NotFound
    }
}

/// The document of an inline artifact as HTML. Nothing that the agent wrote is a tag in it.
pub fn inline_html(content: &str) -> (r: String)
    ensures
        r@ == markdown_html(content@, false),
{
    render_markdown(content, false)
}

/// What the raw route serves for an artifact of this kind, or `None` for kinds that are never
/// framed.
pub fn raw_body(kind: &str, title: &str, content: &str) -> (r: Option<String>)
    ensures
        opt_text(r) == (if kind@ == "html"@ {
            Some(content@)
        } else if kind@ == "slides"@ {
            Some(deck_html(title@, content@))
        } else {
            None
        }),
{
    if same(kind, "html") {
        Some(content.to_owned())
    } else if same(kind, "slides") {
        Some(build_deck(title, content))
    } else {
        None
    }
}

/// Every kind has one place where it is shown: what is framed is served raw, what is inline is
/// not, and what is neither is not shown.
pub proof fn law_one_renderer_per_kind(kind: Seq<char>)
    ensures
        viewer_for(kind) == Viewer::Framed <==> kind == "html"@ || kind == "slides"@,
        viewer_for(kind) == Viewer::Inline <==> kind == "markdown"@,
{
    reveal_strlit("markdown");
    reveal_strlit("html");
    reveal_strlit("slides");
    assert("markdown"@.len() != "html"@.len());
    assert("markdown"@.len() != "slides"@.len());
}

/// The content type of the raw route.
pub const RAW_CONTENT_TYPE: &'static str = "text/html; charset=utf-8";

/// The cache policy of the raw route.
pub const RAW_CACHE_CONTROL: &'static str = "private, no-store";

/// A page from the raw route.
pub struct HtmlResponse {
    pub content_type: String,
    pub cache_control: String,
    pub body: String,
}

/// The page with its headers.
pub fn html_response(body: String) -> (r: HtmlResponse)
    ensures
        r.content_type@ == RAW_CONTENT_TYPE@,
        r.cache_control@ == RAW_CACHE_CONTROL@,
        r.body == body,
{
    HtmlResponse {
        content_type: RAW_CONTENT_TYPE.to_owned(),
        cache_control: RAW_CACHE_CONTROL.to_owned(),
        body,
    }
}

/// The answer of the raw route for a loaded artifact: its page, or 404.
pub fn raw(f: &UploadedFile, content: &str) -> (r: Result<HtmlResponse, u16>)
    ensures
        ({
            let kind = kind_of(texts(f.tags@));
            if kind == "html"@ || kind == "slides"@ {
                r matches Ok(page) && page.content_type@ == RAW_CONTENT_TYPE@
                    && page.cache_control@ == RAW_CACHE_CONTROL@ && page.body@ == (if kind
                    == "html"@ {
                    content@
                } else {
                    deck_html(f.original_name@, content@)
                })
            } else {
                r == Err::<HtmlResponse, u16>(404)
            }
        }),
{
    let kind: String = artifact_kind(f);
    match raw_body(kind.as_str(), f.original_name.as_str(), content) {
        Some(body) => Ok(html_response(body)),
        None => Err(404),
    }
}

// ---------------------------------------------------------------------------
// Slides
// ---------------------------------------------------------------------------

/// How far a deck has been read: the slides that are complete, the slide that is being read,
/// and the code fence that is open, by its character and length.
#[verifier::ext_equal]
pub struct DeckState {
    pub slides: Seq<Seq<char>>,
    pub current: Seq<char>,
    pub fence: Option<(char, int)>,
}

/// The columns by which a line is indented. A tab counts for four.
pub open spec fn indent(line: Seq<char>) -> int
    decreases line.len(),
{
    if line.len() == 0 {
        0
    } else if line[0] == ' ' {
        1 + indent(line.drop_first())
    } else if line[0] == '\t' {
        4 + indent(line.drop_first())
    } else {
        0
    }
}

/// How often the character stands at the start.
pub open spec fn run(s: Seq<char>, c: char) -> int
    decreases s.len(),
{
    if s.len() == 0 || s[0] != c {
        0
    } else {
        1 + run(s.drop_first(), c)
    }
}

/// The character of the code fence that a line holds, where it holds one. A line that is
/// indented by four columns or more is code, and no fence.
pub open spec fn fence_char(line: Seq<char>) -> Option<char> {
    if indent(line) >= 4 {
        None
    } else if starts_with(trim(line), "```"@) {
        Some('`')
    } else if starts_with(trim(line), "~~~"@) {
        Some('~')
    } else {
        None
    }
}

/// The open fence behind a line. A fence is closed by a line of nothing but its own character,
/// at least as often as it was opened with.
pub open spec fn fence_after(fence: Option<(char, int)>, line: Seq<char>) -> Option<(char, int)> {
    let t = trim(line);
    match fence_char(line) {
        None => fence,
        Some(c) => match fence {
            None => Some((c, run(t, c))),
            Some((open, n)) => if open == c && run(t, c) >= n && run(t, c) == t.len() {
                None
            } else {
                fence
            },
        },
    }
}

/// Whether a line ends a slide: `---` alone, outside code.
pub open spec fn breaks_slide(fence: Option<(char, int)>, line: Seq<char>) -> bool {
    fence_after(fence, line) is None && fence_char(line) is None && indent(line) < 4 && trim(line)
        == "---"@
}

/// The state behind a line.
pub open spec fn read_line(st: DeckState, line: Seq<char>) -> DeckState {
    if breaks_slide(st.fence, line) {
        DeckState {
            slides: st.slides.push(st.current),
            current: Seq::empty(),
            fence: fence_after(st.fence, line),
        }
    } else {
        DeckState {
            slides: st.slides,
            current: st.current + line,
            fence: fence_after(st.fence, line),
        }
    }
}

/// The length of the first line, its line break included.
pub open spec fn line_len(s: Seq<char>) -> int {
    if index_of(s, '\n') < s.len() {
        index_of(s, '\n') + 1
    } else {
        s.len() as int
    }
}

/// The state behind all lines.
pub open spec fn read_deck(st: DeckState, s: Seq<char>) -> DeckState
    decreases s.len(),
{
    if s.len() == 0 || line_len(s) <= 0 || line_len(s) > s.len() {
        st
    } else {
        read_deck(read_line(st, s.take(line_len(s))), s.skip(line_len(s)))
    }
}

/// The slides that hold more than whitespace, in order.
pub open spec fn filled(slides: Seq<Seq<char>>) -> Seq<Seq<char>>
    decreases slides.len(),
{
    if slides.len() == 0 {
        slides
    } else if trim(slides.last()).len() == 0 {
        filled(slides.drop_last())
    } else {
        filled(slides.drop_last()).push(slides.last())
    }
}

/// The pieces that the separator lines cut a deck into, blank ones as well.
pub open spec fn pieces_of(src: Seq<char>) -> Seq<Seq<char>> {
    let end = read_deck(
        DeckState { slides: Seq::empty(), current: Seq::empty(), fence: None },
        src,
    );
    end.slides.push(end.current)
}

/// The slides of a deck. A deck without any has an empty one.
pub open spec fn slides_of(src: Seq<char>) -> Seq<Seq<char>> {
    let kept = filled(pieces_of(src));
    if kept.len() == 0 {
        seq![""@]
    } else {
        kept
    }
}

fn is_code(line: &[char]) -> (r: bool)
    ensures
        r == (indent(line@) >= 4),
{
    let mut i: usize = 0;
    let mut columns: usize = 0;
    assert(line@.skip(0) =~= line@);
    while i < line.len() && columns < 4 && (line[i] == ' ' || line[i] == '\t')
        invariant
            i <= line@.len(),
            columns <= 7,
            indent(line@) == columns + indent(line@.skip(i as int)),
        decreases line.len() - i,
    {
        assert(line@.skip(i as int)[0] == line@[i as int]);
        assert(line@.skip(i as int).drop_first() =~= line@.skip(i + 1));
        if line[i] == '\t' {
            columns += 4;
        } else {
            columns += 1;
        }
        i += 1;
    }
    proof {
        lemma_indent(line@.skip(i as int));
        if i < line@.len() {
            assert(line@.skip(i as int)[0] == line@[i as int]);
        }
    }
    columns >= 4
}

proof fn lemma_indent(line: Seq<char>)
    ensures
        indent(line) >= 0,
    decreases line.len(),
{
    if line.len() > 0 {
        lemma_indent(line.drop_first());
    }
}

fn run_of(s: &[char], c: char) -> (r: usize)
    ensures
        r == run(s@, c),
        r <= s@.len(),
{
    let mut i: usize = 0;
    assert(s@.skip(0) =~= s@);
    while i < s.len() && s[i] == c
        invariant
            i <= s@.len(),
            run(s@, c) == i + run(s@.skip(i as int), c),
        decreases s.len() - i,
    {
        assert(s@.skip(i as int)[0] == s@[i as int]);
        assert(s@.skip(i as int).drop_first() =~= s@.skip(i + 1));
        i += 1;
    }
    proof {
        if i < s@.len() {
            assert(s@.skip(i as int)[0] == s@[i as int]);
        }
    }
    i
}

/// The slides of a deck: its text, split at lines that are `---` outside code.
pub fn split_slides(src: &str) -> (r: Vec<String>)
    ensures
        texts(r@) == slides_of(src@),
{
    let v: Vec<char> = chars_of(src);
    let ticks: Vec<char> = chars_of("```");
    let tildes: Vec<char> = chars_of("~~~");
    let rule: Vec<char> = chars_of("---");
    let mut slides: Vec<Vec<char>> = Vec::new();
    let mut start: usize = 0;
    let mut pos: usize = 0;
    let mut fence: Option<(char, usize)> = None;
    let ghost first = DeckState { slides: Seq::empty(), current: Seq::empty(), fence: None };
    proof {
        assert(v@.skip(0) =~= v@);
        assert(crate::text::views(slides@) =~= first.slides);
        assert(v@.subrange(0, 0) =~= first.current);
    }
    while pos < v.len()
        invariant
            start <= pos <= v@.len(),
            v@ == src@,
            ticks@ == "```"@,
            tildes@ == "~~~"@,
            rule@ == "---"@,
            first == (DeckState { slides: Seq::empty(), current: Seq::empty(), fence: None }),
            read_deck(
                DeckState {
                    slides: crate::text::views(slides@),
                    current: v@.subrange(start as int, pos as int),
                    fence: match fence {
                        None => None,
                        Some((c, n)) => Some((c, n as int)),
                    },
                },
                v@.skip(pos as int),
            ) == read_deck(first, src@),
        decreases v.len() - pos,
    {
        let ghost st = DeckState {
            slides: crate::text::views(slides@),
            current: v@.subrange(start as int, pos as int),
            fence: match fence {
                None => None,
                Some((c, n)) => Some((c, n as int)),
            },
        };
        let ghost rest = v@.skip(pos as int);
        let mut end: usize = pos;
        while end < v.len() && v[end] != '\n'
            invariant
                pos <= end <= v@.len(),
                forall|k: int| pos <= k < end ==> #[trigger] v@[k] != '\n',
            decreases v.len() - end,
        {
            end += 1;
        }
        proof {
            lemma_first_line(rest, end - pos);
        }
        if end < v.len() {
            end += 1;
        }
        let line: Vec<char> = sub_chars(&v, pos, end);
        assert(line@ =~= rest.take(end - pos));
        assert(v@.skip(end as int) =~= rest.skip(end - pos));
        let text: Vec<char> = trim_chars(&line, Cut::Whitespace);
        let code: bool = is_code(&line);
        let mark: Option<char> = if code {
            None
        } else if has_prefix(&text, &ticks) {
            Some('`')
        } else if has_prefix(&text, &tildes) {
            Some('~')
        } else {
            None
        };
        assert(mark == fence_char(line@));
        if let Some(c) = mark {
            let n: usize = run_of(&text, c);
            match fence {
                None => {
                    fence = Some((c, n));
                },
                Some((open, least)) => {
                    if open == c && n >= least && n == text.len() {
                        fence = None;
                    }
                },
            }
        }
        if fence.is_none() && mark.is_none() && !code && same_chars(&text, &rule) {
            let slide: Vec<char> = sub_chars(&v, start, pos);
            slides.push(slide);
            start = end;
            proof {
                assert(crate::text::views(slides@) =~= st.slides.push(st.current));
                assert(v@.subrange(end as int, end as int) =~= Seq::<char>::empty());
            }
        } else {
            assert(v@.subrange(start as int, end as int) =~= st.current + line@);
        }
        pos = end;
    }
    assert(v@.skip(pos as int) =~= Seq::<char>::empty());
    let last: Vec<char> = sub_chars(&v, start, v.len());
    let ghost before = crate::text::views(slides@);
    slides.push(last);
    let ghost all = crate::text::views(slides@);
    assert(all =~= before.push(last@));
    let mut kept: Vec<String> = Vec::new();
    let mut i: usize = 0;
    assert(all.take(0) =~= Seq::<Seq<char>>::empty());
    assert(texts(kept@) =~= Seq::<Seq<char>>::empty());
    while i < slides.len()
        invariant
            i <= slides@.len(),
            all == crate::text::views(slides@),
            texts(kept@) == filled(all.take(i as int)),
        decreases slides.len() - i,
    {
        assert(all.take(i + 1).drop_last() =~= all.take(i as int));
        assert(all.take(i + 1).last() == slides@[i as int]@);
        let text: Vec<char> = trim_chars(&slides[i], Cut::Whitespace);
        if text.len() > 0 {
            let ghost had = texts(kept@);
            let slide: String = string_of(&slides[i]);
            kept.push(slide);
            assert(texts(kept@) =~= had.push(slide@));
        }
        i += 1;
    }
    assert(all.take(i as int) =~= all);
    if kept.len() == 0 {
        let empty: String = "".to_owned();
        kept.push(empty);
        assert(texts(kept@) =~= seq![""@]);
    }
    kept
}

proof fn lemma_first_line(s: Seq<char>, n: int)
    requires
        0 <= n <= s.len(),
        forall|k: int| 0 <= k < n ==> #[trigger] s[k] != '\n',
        n < s.len() ==> s[n] == '\n',
    ensures
        index_of(s, '\n') == n,
{
    crate::text::lemma_index_of(s, '\n');
    let at = index_of(s, '\n');
    if at < n {
        assert(s[at] != '\n');
    }
}

proof fn lemma_filled(slides: Seq<Seq<char>>)
    ensures
        forall|k: int|
            0 <= k < filled(slides).len() ==> trim(#[trigger] filled(slides)[k]).len() > 0,
    decreases slides.len(),
{
    if slides.len() > 0 {
        let before = filled(slides.drop_last());
        lemma_filled(slides.drop_last());
        assert forall|k: int| 0 <= k < filled(slides).len() implies trim(
            #[trigger] filled(slides)[k],
        ).len() > 0 by {
            if k < before.len() {
                assert(filled(slides)[k] == before[k]);
            }
        }
    }
}

/// A deck has at least one slide, and a blank slide only where it is the only one.
pub proof fn law_slides_are_filled(src: Seq<char>)
    ensures
        slides_of(src).len() >= 1,
        slides_of(src).len() > 1 ==> forall|k: int|
            0 <= k < slides_of(src).len() ==> trim(#[trigger] slides_of(src)[k]).len() > 0,
{
    lemma_filled(pieces_of(src));
}

/// The text of a deck without its separator lines. `fence` is the fence that is open in front of
/// the text.
pub open spec fn unseparated(fence: Option<(char, int)>, s: Seq<char>) -> Seq<char>
    decreases s.len(),
{
    if s.len() == 0 || line_len(s) <= 0 || line_len(s) > s.len() {
        Seq::empty()
    } else {
        let line = s.take(line_len(s));
        (if breaks_slide(fence, line) {
            Seq::empty()
        } else {
            line
        }) + unseparated(fence_after(fence, line), s.skip(line_len(s)))
    }
}

/// The texts, put together.
pub open spec fn put_together(list: Seq<Seq<char>>) -> Seq<char>
    decreases list.len(),
{
    if list.len() == 0 {
        Seq::empty()
    } else {
        put_together(list.drop_last()) + list.last()
    }
}

/// The text without its whitespace.
pub open spec fn ink(s: Seq<char>) -> Seq<char>
    decreases s.len(),
{
    if s.len() == 0 {
        s
    } else if whitespace(s.last()) {
        ink(s.drop_last())
    } else {
        ink(s.drop_last()).push(s.last())
    }
}

proof fn lemma_ink_of_two(a: Seq<char>, b: Seq<char>)
    ensures
        ink(a + b) == ink(a) + ink(b),
    decreases b.len(),
{
    if b.len() > 0 {
        lemma_ink_of_two(a, b.drop_last());
        assert((a + b).drop_last() =~= a + b.drop_last());
        assert(ink(a + b) =~= ink(a) + ink(b));
    } else {
        assert(a + b =~= a);
        assert(ink(a) + ink(b) =~= ink(a));
    }
}

proof fn lemma_ink_of_blank(s: Seq<char>)
    requires
        forall|i: int| 0 <= i < s.len() ==> whitespace(#[trigger] s[i]),
    ensures
        ink(s).len() == 0,
    decreases s.len(),
{
    if s.len() > 0 {
        assert(whitespace(s[s.len() - 1]));
        lemma_ink_of_blank(s.drop_last());
    }
}

proof fn lemma_filled_keeps_ink(slides: Seq<Seq<char>>)
    ensures
        ink(put_together(filled(slides))) == ink(put_together(slides)),
    decreases slides.len(),
{
    if slides.len() > 0 {
        let (front, last) = (slides.drop_last(), slides.last());
        lemma_filled_keeps_ink(front);
        lemma_ink_of_two(put_together(front), last);
        if trim(last).len() == 0 {
            lemma_blank(last);
            lemma_ink_of_blank(last);
            assert(ink(put_together(front)) + ink(last) =~= ink(put_together(front)));
        } else {
            assert(filled(slides).drop_last() =~= filled(front));
            lemma_ink_of_two(put_together(filled(front)), last);
        }
    }
}

proof fn lemma_pieces(st: DeckState, s: Seq<char>)
    ensures
        ({
            let end = read_deck(st, s);
            put_together(end.slides.push(end.current)) == put_together(st.slides.push(st.current))
                + unseparated(st.fence, s)
        }),
    decreases s.len(),
{
    let had = put_together(st.slides.push(st.current));
    if s.len() == 0 || line_len(s) <= 0 || line_len(s) > s.len() {
        assert(had + unseparated(st.fence, s) =~= had);
    } else {
        let line = s.take(line_len(s));
        let next = read_line(st, line);
        let rest = unseparated(next.fence, s.skip(line_len(s)));
        lemma_pieces(next, s.skip(line_len(s)));
        assert(st.slides.push(st.current).drop_last() =~= st.slides);
        assert(next.slides.push(next.current).drop_last() =~= next.slides);
        let got = put_together(next.slides.push(next.current));
        if breaks_slide(st.fence, line) {
            assert(got =~= had);
            assert(had + rest =~= had + (Seq::<char>::empty() + rest));
        } else {
            assert(got =~= had + line);
            assert(had + line + rest =~= had + (line + rest));
        }
    }
}

/// Splitting a deck loses nothing but its separator lines and blanks. Put together, the pieces of
/// a deck are its text without the separator lines, and its slides are the pieces without those
/// that are blank, so that but for whitespace the slides hold the same text.
pub proof fn law_slides_keep_the_text(src: Seq<char>)
    ensures
        put_together(pieces_of(src)) == unseparated(None, src),
        ink(put_together(slides_of(src))) == ink(unseparated(None, src)),
{
    let first = DeckState { slides: Seq::empty(), current: Seq::empty(), fence: None };
    reveal_with_fuel(put_together, 2);
    lemma_pieces(first, src);
    assert(first.slides.push(first.current).drop_last() =~= first.slides);
    assert(put_together(first.slides.push(first.current)) =~= Seq::<char>::empty());
    assert(Seq::<char>::empty() + unseparated(None, src) =~= unseparated(None, src));
    lemma_filled_keeps_ink(pieces_of(src));
    if filled(pieces_of(src)).len() == 0 {
        reveal_strlit("");
        assert(slides_of(src).drop_last() =~= Seq::<Seq<char>>::empty());
        assert(put_together(slides_of(src)) =~= Seq::<char>::empty());
        assert(put_together(filled(pieces_of(src))) =~= Seq::<char>::empty());
    }
}

/// The sections of the slides.
pub open spec fn sections(slides: Seq<Seq<char>>) -> Seq<char>
    decreases slides.len(),
{
    if slides.len() == 0 {
        Seq::empty()
    } else {
        sections(slides.drop_last()) + (if slides.len() == 1 {
            "<section class=\"slide active\">"@
        } else {
            "<section class=\"slide\">"@
        }) + markdown_html(slides.last(), true) + "</section>\n"@
    }
}

/// The notice on a deck that was cut.
pub const DECK_NOTICE: &'static str =
    "<section class=\"slide\"><h2>Deck truncated</h2><p>Only the first 500 slides are shown.</p></section>\n";

/// A deck as a page of its own: at most so many slides, and a notice where some are left out.
pub open spec fn deck_html(title: Seq<char>, src: Seq<char>) -> Seq<char> {
    let slides = slides_of(src);
    DECK_HEAD@ + escaped(title, Entities::NoApostrophe) + DECK_STYLE@ + sections(
        slides.take(
            if slides.len() > MAX_SLIDES {
                MAX_SLIDES as int
            } else {
                slides.len() as int
            },
        ),
    ) + (if slides.len() > MAX_SLIDES {
        DECK_NOTICE@
    } else {
        Seq::empty()
    }) + DECK_TAIL@
}

/// A deck as a page of its own. Nothing in the page around the slides is loaded from
/// elsewhere.
pub fn build_deck(title: &str, markdown_src: &str) -> (r: String)
    ensures
        r@ == deck_html(title@, markdown_src@),
{
    let slides: Vec<String> = split_slides(markdown_src);
    let ghost all = slides_of(markdown_src@);
    let shown: usize = if slides.len() > MAX_SLIDES {
        MAX_SLIDES
    } else {
        slides.len()
    };
    let mut out: String = DECK_HEAD.to_owned();
    let name: String = escape_html_attr(title);
    out.push_str(name.as_str());
    out.push_str(DECK_STYLE);
    let ghost head = out@;
    let mut i: usize = 0;
    assert(all.take(0) =~= Seq::<Seq<char>>::empty());
    assert(head + sections(all.take(0)) =~= head);
    while i < shown
        invariant
            i <= shown <= slides@.len(),
            texts(slides@) == all,
            out@ == head + sections(all.take(i as int)),
        decreases shown - i,
    {
        let ghost before = sections(all.take(i as int));
        assert(all.take(i + 1).drop_last() =~= all.take(i as int));
        assert(all.take(i + 1).last() == slides@[i as int]@);
        let open: &str = if i == 0 {
            "<section class=\"slide active\">"
        } else {
            "<section class=\"slide\">"
        };
        let html: String = render_markdown(slides[i].as_str(), true);
        out.push_str(open);
        out.push_str(html.as_str());
        out.push_str("</section>\n");
        assert(out@ =~= head + (before + open@ + html@ + "</section>\n"@));
        i += 1;
    }
    if slides.len() > MAX_SLIDES {
        out.push_str(DECK_NOTICE);
    } else {
        assert(out@ + Seq::<char>::empty() =~= out@);
    }
    out.push_str(DECK_TAIL);
    out
}

/// What stands in front of the title.
pub const DECK_HEAD: &'static str =
    "<!doctype html><html lang=\"en\"><head><meta charset=\"utf-8\">\n<meta name=\"viewport\" content=\"width=device-width,initial-scale=1\">\n<title>";

/// What stands between the title and the first slide.
pub const DECK_STYLE: &'static str = r#"</title>
<style>
:root{color-scheme:dark}
*{box-sizing:border-box}
html,body{margin:0;padding:0;height:100%}
body{background:#0d1117;color:#e6edf3;line-height:1.55;
font-family:-apple-system,BlinkMacSystemFont,"Segoe UI",Roboto,"Helvetica Neue",Arial,"Noto Sans",sans-serif}
.slide{display:none;min-height:100vh;padding:6vh 8vw 12vh;flex-direction:column;justify-content:center}
.slide.active{display:flex}
.slide>*:first-child{margin-top:0}
.slide h1{font-size:clamp(2rem,6vw,3.5rem);line-height:1.1;margin:0 0 .4em}
.slide h2{font-size:clamp(1.5rem,4vw,2.4rem);margin:0 0 .4em}
.slide h3{font-size:clamp(1.2rem,3vw,1.8rem);margin:0 0 .4em}
.slide p,.slide li{font-size:clamp(1rem,2.2vw,1.5rem)}
.slide ul,.slide ol{padding-left:1.2em}
.slide img{max-width:100%;height:auto}
.slide code{background:rgba(255,255,255,.08);border-radius:4px;padding:.1em .3em;
font-family:ui-monospace,SFMono-Regular,Menlo,Consolas,monospace}
.slide pre{background:rgba(255,255,255,.06);border-radius:8px;padding:1em;overflow:auto;font-size:.95rem}
.slide pre code{background:none;padding:0}
.slide table{border-collapse:collapse;width:100%}
.slide th,.slide td{border:1px solid rgba(255,255,255,.15);padding:.4em .6em;text-align:left}
.slide blockquote{border-left:4px solid rgba(255,255,255,.25);margin:0;padding-left:1em;opacity:.85}
#nav{position:fixed;left:0;right:0;bottom:0;display:flex;align-items:center;justify-content:center;
gap:1rem;padding:.6rem;background:rgba(13,17,23,.9);font-size:.9rem}
#nav button{background:none;border:1px solid rgba(255,255,255,.25);border-radius:6px;color:inherit;
cursor:pointer;font-size:1.2rem;line-height:1;padding:.1em .7em}
@media print{.slide{display:block!important;page-break-after:always}#nav{display:none}}
</style></head><body>
"#;

/// What stands behind the last slide.
pub const DECK_TAIL: &'static str = r#"<footer id="nav"><button id="prev" type="button" aria-label="Previous slide">&lsaquo;</button><span id="count"></span><button id="next" type="button" aria-label="Next slide">&rsaquo;</button></footer>
<script>
(function(){
var slides=document.querySelectorAll('.slide');
var count=document.getElementById('count');
var i=0;
function show(n){
if(!slides.length)return;
if(n<0)n=0;
if(n>slides.length-1)n=slides.length-1;
i=n;
for(var k=0;k<slides.length;k++){slides[k].className=(k===i)?'slide active':'slide';}
count.textContent=(i+1)+' of '+slides.length;
}
document.addEventListener('keydown',function(e){
if(e.key==='ArrowRight'||e.key==='PageDown'||e.key===' '){e.preventDefault();show(i+1);}
else if(e.key==='ArrowLeft'||e.key==='PageUp'){e.preventDefault();show(i-1);}
else if(e.key==='Home'){show(0);}
else if(e.key==='End'){show(slides.length-1);}
});
document.getElementById('prev').addEventListener('click',function(){show(i-1);});
document.getElementById('next').addEventListener('click',function(){show(i+1);});
show(0);
})();
</script>
</body></html>"#;

proof fn lemma_sections(slides: Seq<Seq<char>>) -> (parts: Seq<Seq<char>>)
    ensures
        sections(slides) == put_together(parts),
        parts.len() == slides.len(),
        forall|k: int|
            0 <= k < parts.len() ==> #[trigger] parts[k] == (if k == 0 {
                "<section class=\"slide active\">"@
            } else {
                "<section class=\"slide\">"@
            }) + markdown_html(slides[k], true) + "</section>\n"@,
    decreases slides.len(),
{
    if slides.len() == 0 {
        Seq::empty()
    } else {
        let less = slides.drop_last();
        let before = lemma_sections(less);
        let last = (if slides.len() == 1 {
            "<section class=\"slide active\">"@
        } else {
            "<section class=\"slide\">"@
        }) + markdown_html(slides[slides.len() - 1], true) + "</section>\n"@;
        let parts = before.push(last);
        assert(parts.drop_last() =~= before);
        assert(sections(slides) =~= put_together(before) + last);
        assert forall|k: int| 0 <= k < parts.len() implies #[trigger] parts[k] == (if k == 0 {
            "<section class=\"slide active\">"@
        } else {
            "<section class=\"slide\">"@
        }) + markdown_html(slides[k], true) + "</section>\n"@ by {
            if k < before.len() {
                assert(parts[k] == before[k]);
                assert(less[k] == slides[k]);
            }
        }
        parts
    }
}

/// The page of a deck has one section for each slide, in the order of the slides, and each holds
/// its own slide's Markdown. The first is the one that is shown at the start. The title stands
/// escaped in front of them. Of more than five hundred slides the first five hundred are there,
/// with a notice behind them.
pub proof fn law_each_slide_has_its_section(title: Seq<char>, src: Seq<char>)
    ensures
        exists|parts: Seq<Seq<char>>|
            {
                &&& deck_html(title, src) == DECK_HEAD@ + escaped(title, Entities::NoApostrophe)
                    + DECK_STYLE@ + #[trigger] put_together(parts) + (if slides_of(src).len()
                    > 500 {
                    DECK_NOTICE@
                } else {
                    Seq::empty()
                }) + DECK_TAIL@
                &&& parts.len() == (if slides_of(src).len() > 500 {
                    500
                } else {
                    slides_of(src).len()
                })
                &&& forall|k: int|
                    0 <= k < parts.len() ==> #[trigger] parts[k] == (if k == 0 {
                        "<section class=\"slide active\">"@
                    } else {
                        "<section class=\"slide\">"@
                    }) + markdown_html(slides_of(src)[k], true) + "</section>\n"@
            },
{
    let slides = slides_of(src);
    let shown = slides.take(
        if slides.len() > MAX_SLIDES {
            MAX_SLIDES as int
        } else {
            slides.len() as int
        },
    );
    let parts = lemma_sections(shown);
    assert forall|k: int| 0 <= k < parts.len() implies #[trigger] parts[k] == (if k == 0 {
        "<section class=\"slide active\">"@
    } else {
        "<section class=\"slide\">"@
    }) + markdown_html(slides[k], true) + "</section>\n"@ by {
        assert(shown[k] == slides[k]);
    }
    assert(deck_html(title, src) == DECK_HEAD@ + escaped(title, Entities::NoApostrophe)
        + DECK_STYLE@ + put_together(parts) + (if slides.len() > 500 {
        DECK_NOTICE@
    } else {
        Seq::empty()
    }) + DECK_TAIL@);
}

proof fn lemma_line_len(s: Seq<char>)
    requires
        s.len() > 0,
    ensures
        0 < line_len(s) <= s.len(),
        forall|i: int| 0 <= i < line_len(s) - 1 ==> s[i] != '\n',
        line_len(s) < s.len() ==> s[line_len(s) - 1] == '\n',
{
    crate::text::lemma_index_of(s, '\n');
}

/// A deck that is read up to the end of a line is read on from there.
proof fn lemma_read_on(st: DeckState, x: Seq<char>, y: Seq<char>)
    requires
        x.len() == 0 || x.last() == '\n',
    ensures
        read_deck(st, x + y) == read_deck(read_deck(st, x), y),
    decreases x.len(),
{
    if x.len() == 0 {
        assert(x + y =~= y);
    } else {
        let n = line_len(x);
        lemma_line_len(x);
        lemma_line_len(x + y);
        crate::text::lemma_index_of(x, '\n');
        crate::text::lemma_index_of(x + y, '\n');
        assert(x[x.len() - 1] == '\n');
        assert(x.contains('\n'));
        let at = index_of(x, '\n');
        assert((x + y)[at] == '\n');
        assert((x + y).contains('\n'));
        let other = index_of(x + y, '\n');
        if other < at {
            assert((x + y)[other] == x[other]);
        }
        assert(other == at);
        assert(line_len(x + y) == n);
        assert((x + y).take(n) =~= x.take(n));
        assert((x + y).skip(n) =~= x.skip(n) + y);
        let rest = x.skip(n);
        if rest.len() > 0 {
            assert(rest.last() == x[x.len() - 1]);
        }
        lemma_read_on(read_line(st, x.take(n)), rest, y);
    }
}

/// What is read behind some slides does not depend on them.
proof fn lemma_read_behind(front: Seq<Seq<char>>, st: DeckState, s: Seq<char>)
    ensures
        ({
            let moved = DeckState { slides: front + st.slides, ..st };
            let end = read_deck(st, s);
            read_deck(moved, s) == (DeckState { slides: front + end.slides, ..end })
        }),
    decreases s.len(),
{
    let moved = DeckState { slides: front + st.slides, ..st };
    if s.len() > 0 && 0 < line_len(s) <= s.len() {
        let line = s.take(line_len(s));
        let next = read_line(st, line);
        lemma_read_behind(front, next, s.skip(line_len(s)));
        assert(front + st.slides.push(st.current) =~= (front + st.slides).push(st.current));
        assert(read_line(moved, line) == (DeckState { slides: front + next.slides, ..next }));
    }
}

/// The fence that is open behind a text.
pub open spec fn open_fence(s: Seq<char>) -> Option<(char, int)> {
    read_deck(DeckState { slides: Seq::empty(), current: Seq::empty(), fence: None }, s).fence
}

/// A line of three dashes, outside code, ends a slide and begins the next: the pieces of a deck
/// are those in front of the line, and then those behind it.
pub proof fn law_a_rule_parts_two_slides(a: Seq<char>, b: Seq<char>)
    requires
        a.len() == 0 || a.last() == '\n',
        open_fence(a) is None,
    ensures
        pieces_of(a + "---\n"@ + b) == pieces_of(a) + pieces_of(b),
{
    let first = DeckState { slides: Seq::empty(), current: Seq::empty(), fence: None };
    let rule = "---\n"@;
    let at = read_deck(first, a);
    reveal_strlit("---\n");
    reveal_strlit("---");
    reveal_strlit("```");
    reveal_strlit("~~~");
    assert(a + rule + b =~= a + (rule + b));
    lemma_read_on(first, a, rule + b);
    lemma_read_on(at, rule, b);
    lemma_read_on(first, Seq::empty(), rule);
    assert(rule[3] == '\n' && rule[0] == '-' && rule[1] == '-' && rule[2] == '-');
    lemma_first_line(rule, 3);
    assert(line_len(rule) == 4);
    assert(rule.take(4) =~= rule);
    assert(rule.skip(4) =~= Seq::<char>::empty());
    crate::text::law_trimming_cuts_the_ends(Seq::empty(), "---"@, seq!['\n']);
    assert(Seq::<char>::empty() + "---"@ + seq!['\n'] =~= rule);
    assert(trim(rule) == "---"@);
    assert(trim(rule).subrange(0, 3) =~= "---"@);
    assert("---"@[0] != "```"@[0] && "---"@[0] != "~~~"@[0]);
    assert(!starts_with(trim(rule), "```"@)) by {
        if starts_with(trim(rule), "```"@) {
            assert(trim(rule).subrange(0, 3)[0] == "```"@[0]);
        }
    }
    assert(!starts_with(trim(rule), "~~~"@)) by {
        if starts_with(trim(rule), "~~~"@) {
            assert(trim(rule).subrange(0, 3)[0] == "~~~"@[0]);
        }
    }
    assert(indent(rule) == 0);
    let behind = DeckState { slides: at.slides.push(at.current), current: Seq::empty(), fence: None };
    assert(breaks_slide(at.fence, rule));
    assert(read_line(at, rule) == behind);
    assert(read_deck(at, rule) == behind) by {
        assert(read_deck(behind, rule.skip(4)) == behind);
    }
    lemma_read_behind(at.slides.push(at.current), first, b);
    assert(at.slides.push(at.current) + first.slides =~= at.slides.push(at.current));
    let end = read_deck(first, b);
    assert((at.slides.push(at.current) + end.slides).push(end.current) =~= at.slides.push(at.current)
        + end.slides.push(end.current));
}

proof fn lemma_stays_in_fence(st: DeckState, s: Seq<char>)
    requires
        st.fence is Some,
        (st.fence->0).1 >= 1,
        !s.contains((st.fence->0).0),
    ensures
        ({
            let end = read_deck(st, s);
            end.slides == st.slides && end.fence == st.fence && end.current == st.current + s
        }),
    decreases s.len(),
{
    if s.len() > 0 {
        let n = line_len(s);
        lemma_line_len(s);
        let line = s.take(n);
        let c = (st.fence->0).0;
        let t = trim(line);
        let (a, b) = crate::text::lemma_trim_is_part(line, Cut::Whitespace);
        assert(fence_after(st.fence, line) == st.fence) by {
            if fence_char(line) == Some(c) {
                if t.len() > 0 && t[0] == c {
                    assert(line[a] == c);
                    assert(s[a] == c);
                    assert(s.contains(c));
                }
                assert(run(t, c) == 0);
            }
        }
        let next = read_line(st, line);
        assert(next.fence == st.fence && next.slides == st.slides && next.current == st.current
            + line);
        let rest = s.skip(n);
        if rest.contains(c) {
            let k = choose|k: int| 0 <= k < rest.len() && rest[k] == c;
            assert(s[n + k] == c);
        }
        lemma_stays_in_fence(next, rest);
        assert(st.current + line + rest =~= st.current + s);
    } else {
        assert(st.current + s =~= st.current);
    }
}

/// Dashes in a block of code do not end a slide: behind a line that opens a fence, everything up
/// to the line that closes it is one slide.
pub proof fn law_code_is_not_parted(a: Seq<char>, code: Seq<char>)
    requires
        a.len() == 0 || a.last() == '\n',
        open_fence(a) is None,
        !code.contains('`'),
    ensures
        ({
            let before = pieces_of(a);
            let after = pieces_of(a + "```\n"@ + code);
            after == before.drop_last().push(before.last() + "```\n"@ + code)
        }),
{
    let first = DeckState { slides: Seq::empty(), current: Seq::empty(), fence: None };
    let mark = "```\n"@;
    let at = read_deck(first, a);
    reveal_strlit("```\n");
    reveal_strlit("```");
    assert(a + mark + code =~= a + (mark + code));
    lemma_read_on(first, a, mark + code);
    lemma_read_on(at, mark, code);
    assert(mark[3] == '\n' && mark[0] == '`' && mark[1] == '`' && mark[2] == '`');
    lemma_first_line(mark, 3);
    assert(line_len(mark) == 4);
    assert(mark.take(4) =~= mark);
    assert(mark.skip(4) =~= Seq::<char>::empty());
    crate::text::law_trimming_cuts_the_ends(Seq::empty(), "```"@, seq!['\n']);
    assert(Seq::<char>::empty() + "```"@ + seq!['\n'] =~= mark);
    assert(trim(mark) == "```"@);
    assert(trim(mark).subrange(0, 3) =~= "```"@);
    assert(indent(mark) == 0);
    reveal_with_fuel(run, 4);
    assert(run("```"@, '`') >= 1);
    let inside = DeckState {
        slides: at.slides,
        current: at.current + mark,
        fence: Some(('`', run("```"@, '`'))),
    };
    assert(read_line(at, mark) == inside);
    assert(read_deck(at, mark) == inside) by {
        assert(read_deck(inside, mark.skip(4)) == inside);
    }
    lemma_stays_in_fence(inside, code);
    assert(pieces_of(a).drop_last() =~= at.slides);
}

/// The value of a tag is what stands behind its prefix in the first tag that has it; without one,
/// or where nothing stands behind it, there is none.
pub proof fn law_tags_hold_their_value(
    tags: Seq<Seq<char>>,
    prefix: Seq<char>,
    i: int,
    v: Seq<char>,
)
    requires
        0 <= i < tags.len(),
        tags[i] == prefix + v,
        forall|j: int| 0 <= j < i ==> !starts_with(#[trigger] tags[j], prefix),
    ensures
        v.len() > 0 ==> tagged(tags, prefix, 0) == Some(v),
        v.len() == 0 ==> tagged(tags, prefix, 0) is None,
{
    lemma_tag_from(tags, prefix, 0, i);
    assert(tags[i].subrange(0, prefix.len() as int) =~= prefix);
    assert(tags[i].subrange(prefix.len() as int, tags[i].len() as int) =~= v);
}

proof fn lemma_tag_from(tags: Seq<Seq<char>>, prefix: Seq<char>, k: int, i: int)
    requires
        0 <= k <= i < tags.len(),
        forall|j: int| 0 <= j < i ==> !starts_with(#[trigger] tags[j], prefix),
    ensures
        tagged(tags, prefix, k) == tagged(tags, prefix, i),
    decreases i - k,
{
    if k < i {
        assert(!starts_with(tags[k], prefix));
        lemma_tag_from(tags, prefix, k + 1, i);
    }
}

/// A file is an artifact exactly where it is tagged as one and says which agent wrote it.
pub proof fn law_artifacts_name_their_agent(tags: Seq<Seq<char>>, i: int, v: Seq<char>)
    requires
        0 <= i < tags.len(),
        tags[i] == "agent:"@ + v,
        forall|j: int| 0 <= j < i ==> !starts_with(#[trigger] tags[j], "agent:"@),
    ensures
        artifact_tags(tags) <==> v.len() > 0 && tags.contains("artifact"@),
{
    law_tags_hold_their_value(tags, "agent:"@, i, v);
}

proof fn lemma_run_of(c: char, k: nat, rest: Seq<char>)
    requires
        rest.len() == 0 || rest[0] != c,
    ensures
        run(Seq::new(k, |i: int| c) + rest, c) == k,
    decreases k,
{
    let s = Seq::new(k, |i: int| c) + rest;
    if k > 0 {
        lemma_run_of(c, (k - 1) as nat, rest);
        assert(s.drop_first() =~= Seq::new((k - 1) as nat, |i: int| c) + rest);
    } else {
        assert(s =~= rest);
    }
}

/// A block of code is closed by a line of its own sign alone, at least as many of them as opened
/// it. A shorter line, a line of the other sign, a line with something behind the signs and a line
/// that stands too far in leave it open.
pub proof fn law_code_is_closed_by_its_own_sign(c: char, other: char, k: nat, n: nat, x: char)
    requires
        c == '`' || c == '~',
        other == '`' || other == '~',
        other != c,
        k >= 3,
        x != c,
        !whitespace(x),
    ensures
        ({
            let signs = Seq::new(k, |i: int| c);
            &&& fence_after(None, signs) == Some((c, k as int))
            &&& k >= n ==> fence_after(Some((c, n as int)), signs) is None
            &&& k < n ==> fence_after(Some((c, n as int)), signs) == Some((c, n as int))
            &&& fence_after(Some((other, n as int)), signs) == Some((other, n as int))
            &&& fence_after(Some((c, n as int)), signs.push(x)) == Some((c, n as int))
            &&& fence_after(Some((c, n as int)), seq![' ', ' ', ' ', ' '] + signs) == Some(
                (c, n as int),
            )
            &&& fence_after(None, seq!['\t'] + signs) is None
        }),
        !breaks_slide(Some((c, n as int)), "---"@),
        breaks_slide(None, "---"@),
{
    reveal_strlit("```");
    reveal_strlit("~~~");
    reveal_strlit("---");
    let none = Seq::<char>::empty();
    let signs = Seq::new(k, |i: int| c);
    law_trimming_cuts_the_ends(none, signs, none);
    assert(none + signs + none =~= signs);
    lemma_run_of(c, k, none);
    assert(signs + none =~= signs);
    if c == '`' {
        assert(signs.subrange(0, 3) =~= "```"@);
    } else {
        assert(signs.subrange(0, 3) =~= "~~~"@);
        if starts_with(signs, "```"@) {
            assert(signs.subrange(0, 3)[0] == signs[0]);
        }
    }
    let more = signs.push(x);
    assert(more[0] == c && more.last() == x);
    law_trimming_cuts_the_ends(none, more, none);
    assert(none + more + none =~= more);
    lemma_run_of(c, k, seq![x]);
    assert(signs + seq![x] =~= more);
    if c == '`' {
        assert(more.subrange(0, 3) =~= "```"@);
    } else {
        assert(more.subrange(0, 3) =~= "~~~"@);
        if starts_with(more, "```"@) {
            assert(more.subrange(0, 3)[0] == more[0]);
        }
    }
    let far = seq![' ', ' ', ' ', ' '] + signs;
    assert(far.drop_first().drop_first().drop_first().drop_first() =~= signs);
    lemma_indent(signs);
    reveal_with_fuel(indent, 5);
    assert(far[0] == ' ' && far.drop_first()[0] == ' ' && far.drop_first().drop_first()[0] == ' '
        && far.drop_first().drop_first().drop_first()[0] == ' ');
    assert(indent(far) == 4);
    let tab = seq!['\t'] + signs;
    assert(tab.drop_first() =~= signs);
    assert(indent(tab) >= 4);
    let rule = "---"@;
    law_trimming_cuts_the_ends(none, rule, none);
    assert(none + rule + none =~= rule);
    assert(rule[0] == '-');
    if starts_with(rule, "```"@) {
        assert(rule.subrange(0, 3)[0] == rule[0]);
    }
    if starts_with(rule, "~~~"@) {
        assert(rule.subrange(0, 3)[0] == rule[0]);
    }
}

} // verus!
