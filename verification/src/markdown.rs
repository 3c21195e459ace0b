//! Markdown to HTML, with the raw HTML and the unsafe targets of a document screened out.

use crate::text::{
    ascii_upper, chars_of, find_char, has_char, has_prefix, index_of, law_trimming_cuts_the_ends,
    lemma_index_of, lemma_trim_lacks, lower_ascii, lower_ascii_chars, same_chars, starts_with,
    sub_chars, trim, trim_chars, whitespace, Cut,
};
use pulldown_cmark::{html, Event, Options, Parser, Tag, TagEnd};
use vstd::prelude::*;

verus! {

/// The extensions of artifacts: tables, footnotes, strikethrough and task lists.
pub const MARKDOWN_OPTIONS: u32 = 30;

/// The extensions of messages: tables, strikethrough and task lists.
pub const MESSAGE_OPTIONS: u32 = 26;

/// `pulldown_cmark::Event`.
#[verifier::external_type_specification]
#[verifier::external_body]
pub struct ExEvent<'a>(pulldown_cmark::Event<'a>);

/// What an event is, as far as the rules look at it.
pub enum Piece {
    /// Raw HTML, in a block or inline.
    RawHtml,
    /// The start of an image, with its source.
    Image(String),
    /// The start of a link, with its target.
    Link(String),
    /// The start or the end of a block of raw HTML.
    HtmlBlock,
    Other,
}

/// The content of a piece.
pub enum PieceV {
    RawHtml,
    Image(Seq<char>),
    Link(Seq<char>),
    HtmlBlock,
    Other,
}

impl View for Piece {
    type V = PieceV;

    open spec fn view(&self) -> PieceV {
        match self {
            Piece::RawHtml => PieceV::RawHtml,
            Piece::Image(d) => PieceV::Image(d@),
            Piece::Link(d) => PieceV::Link(d@),
            Piece::HtmlBlock => PieceV::HtmlBlock,
            Piece::Other => PieceV::Other,
        }
    }
}

/// The events of a document.
pub uninterp spec fn markdown_events(src: Seq<char>, options: u32) -> Seq<Event<'static>>;

/// What an event is.
pub uninterp spec fn event_piece(event: Event<'static>) -> PieceV;

/// The event with another target.
pub uninterp spec fn event_redirected(event: Event<'static>, dest: Seq<char>) -> Event<'static>;

/// The raw HTML of the event as text.
pub uninterp spec fn event_quoted(event: Event<'static>) -> Event<'static>;

/// The HTML of the events.
pub uninterp spec fn events_html(events: Seq<Event<'static>>) -> Seq<char>;

/// `pulldown_cmark::Parser::new_ext`: the events of the document, under a name.
#[verifier::external_body]
fn parse_events(src: &str, options: u32) -> (r: Vec<Event<'static>>)
    ensures
        r@ == markdown_events(src@, options),
{
    Parser::new_ext(src, Options::from_bits_truncate(options)).map(Event::into_static).collect()
}

/// Tells the variants of `pulldown_cmark::Event` apart: raw HTML, the start of an image or of
/// a link with its destination, the start or end of an HTML block, or anything else. The answer
/// has a name.
#[verifier::external_body]
fn piece_of(event: &Event<'static>) -> (r: Piece)
    ensures
        r@ == event_piece(*event),
{
    match event {
        Event::Html(_) => Piece::RawHtml,
        Event::InlineHtml(_) => Piece::RawHtml,
        Event::Start(Tag::Image { dest_url, .. }) => Piece::Image(dest_url.to_string()),
        Event::Start(Tag::Link { dest_url, .. }) => Piece::Link(dest_url.to_string()),
        Event::Start(Tag::HtmlBlock) => Piece::HtmlBlock,
        Event::End(TagEnd::HtmlBlock) => Piece::HtmlBlock,
        _ => Piece::Other,
    }
}

/// Sets the destination in a `pulldown_cmark::Tag` that starts an image or a link; every
/// other field moves over. The result has a name. It starts an image or a link as before, with
/// the new destination.
#[verifier::external_body]
fn redirect(event: Event<'static>, dest: &str) -> (r: Event<'static>)
    ensures
        r == event_redirected(event, dest@),
        event_piece(event) is Image ==> event_piece(r) == PieceV::Image(dest@),
        event_piece(event) is Link ==> event_piece(r) == PieceV::Link(dest@),
{
    let dest_url = dest.to_string().into();
    match event {
        Event::Start(Tag::Image { link_type, title, id, .. }) => {
            Event::Start(Tag::Image { link_type, dest_url, title, id })
        },
        Event::Start(Tag::Link { link_type, title, id, .. }) => {
            Event::Start(Tag::Link { link_type, dest_url, title, id })
        },
        other => other,
    }
}

/// Turns raw HTML, `pulldown_cmark::Event::Html` or `InlineHtml`, into `Event::Text` of the
/// same characters. The result has a name, and is no longer raw HTML.
#[verifier::external_body]
fn quote(event: Event<'static>) -> (r: Event<'static>)
    ensures
        r == event_quoted(event),
        event_piece(event) is RawHtml ==> event_piece(r) is Other,
{
    match event {
        Event::Html(raw) => Event::Text(raw),
        Event::InlineHtml(raw) => Event::Text(raw),
        other => other,
    }
}

/// `pulldown_cmark::html::push_html`: the HTML of the events, under a name.
#[verifier::external_body]
fn render_events(events: Vec<Event<'static>>) -> (r: String)
    ensures
        r@ == events_html(events@),
{
    let mut out = String::new();
    html::push_html(&mut out, events.into_iter());
    out
}

// ---------------------------------------------------------------------------
// Targets
// ---------------------------------------------------------------------------

/// Whether a link target is safe: it has no URL scheme, or an inert one. A colon behind a
/// path separator, a query or a fragment makes no scheme.
pub open spec fn safe_href(dest: Seq<char>) -> bool {
    let d = trim(dest);
    let colon = index_of(d, ':');
    let scheme = lower_ascii(d.take(colon));
    ||| colon >= d.len()
    ||| scheme.contains('/') || scheme.contains('?') || scheme.contains('#')
    ||| scheme == "http"@ || scheme == "https"@ || scheme == "mailto"@
}

/// Whether a link target is safe.
pub fn is_safe_href(dest: &str) -> (r: bool)
    ensures
        r == safe_href(dest@),
{
    let v: Vec<char> = chars_of(dest);
    let d: Vec<char> = trim_chars(&v, Cut::Whitespace);
    let colon: usize = find_char(&d, ':');
    if colon == d.len() {
        return true;
    }
    let head: Vec<char> = sub_chars(&d, 0, colon);
    assert(d@.subrange(0, colon as int) =~= d@.take(colon as int));
    let scheme: Vec<char> = lower_ascii_chars(&head);
    if has_char(&scheme, '/') || has_char(&scheme, '?') || has_char(&scheme, '#') {
        return true;
    }
    let http: Vec<char> = chars_of("http");
    let https: Vec<char> = chars_of("https");
    let mailto: Vec<char> = chars_of("mailto");
    same_chars(&scheme, &http) || same_chars(&scheme, &https) || same_chars(&scheme, &mailto)
}

/// Whether an image source is safe: an embedded picture, or a safe link target.
pub open spec fn safe_img_src(dest: Seq<char>) -> bool {
    starts_with(lower_ascii(trim(dest)), "data:image/"@) || safe_href(trim(dest))
}

/// Whether an image source is safe.
pub fn is_safe_img_src(dest: &str) -> (r: bool)
    ensures
        r == safe_img_src(dest@),
{
    let v: Vec<char> = chars_of(dest);
    let d: Vec<char> = trim_chars(&v, Cut::Whitespace);
    let low: Vec<char> = lower_ascii_chars(&d);
    let data: Vec<char> = chars_of("data:image/");
    if has_prefix(&low, &data) {
        return true;
    }
    let text: String = crate::text::string_of(&d);
    is_safe_href(text.as_str())
}

// ---------------------------------------------------------------------------
// Screening
// ---------------------------------------------------------------------------

/// What becomes of an event.
pub enum Verdict {
    Keep,
    Drop,
    /// Its target is replaced by this.
    Redirect(String),
}

/// What becomes of a piece: raw HTML goes; an unsafe image source is emptied; an unsafe link
/// target becomes `#`; everything else stays.
pub fn screen_piece(piece: &Piece) -> (r: Verdict)
    ensures
        r is Drop <==> piece@ is RawHtml,
        r is Redirect <==> (piece@ matches PieceV::Image(d) && !safe_img_src(d)) || (
        piece@ matches PieceV::Link(d) && !safe_href(d)),
        r is Redirect ==> r->Redirect_0@ == (if piece@ is Image {
            ""@
        } else {
            "#"@
        }),
{
    match piece {
        Piece::RawHtml => Verdict::Drop,
        Piece::Image(d) => if is_safe_img_src(d.as_str()) {
            Verdict::Keep
        } else {
            Verdict::Redirect("".to_owned())
        },
        Piece::Link(d) => if is_safe_href(d.as_str()) {
            Verdict::Keep
        } else {
            Verdict::Redirect("#".to_owned())
        },
        _ => Verdict::Keep,
    }
}

/// The event as it is rendered, where it is.
pub open spec fn screened_event(event: Event<'static>) -> Option<Event<'static>> {
    match event_piece(event) {
        PieceV::RawHtml => None,
        PieceV::Image(d) => if safe_img_src(d) {
            Some(event)
        } else {
            Some(event_redirected(event, ""@))
        },
        PieceV::Link(d) => if safe_href(d) {
            Some(event)
        } else {
            Some(event_redirected(event, "#"@))
        },
        _ => Some(event),
    }
}

/// Whether an event may be rendered into a page of the application: it is no raw HTML, and its
/// target is safe.
pub open spec fn harmless(piece: PieceV) -> bool {
    match piece {
        PieceV::RawHtml => false,
        PieceV::Image(d) => safe_img_src(d),
        PieceV::Link(d) => safe_href(d),
        _ => true,
    }
}

proof fn lemma_replacements_are_safe()
    ensures
        safe_img_src(""@),
        safe_href("#"@),
{
    reveal_strlit("");
    reveal_strlit("#");
    let blank = trim(""@);
    lemma_trim_lacks(""@, Cut::Whitespace, ':');
    lemma_index_of(blank, ':');
    lemma_trim_lacks(blank, Cut::Whitespace, ':');
    lemma_index_of(trim(blank), ':');
    lemma_trim_lacks("#"@, Cut::Whitespace, ':');
    lemma_index_of(trim("#"@), ':');
}

/// The events as they are rendered.
pub open spec fn screened(events: Seq<Event<'static>>) -> Seq<Event<'static>>
    decreases events.len(),
{
    if events.len() == 0 {
        Seq::empty()
    } else {
        let before = screened(events.drop_last());
        match screened_event(events.last()) {
            Some(e) => before.push(e),
            None => before,
        }
    }
}

/// The events as they are rendered: none of them is raw HTML, and every image and link has a
/// safe target.
pub fn screen_events(events: Vec<Event<'static>>) -> (r: Vec<Event<'static>>)
    ensures
        r@ == screened(events@),
        forall|i: int| 0 <= i < r@.len() ==> harmless(event_piece(#[trigger] r@[i])),
{
    proof {
        lemma_replacements_are_safe();
    }
    let ghost all = events@;
    let mut out: Vec<Event<'static>> = Vec::new();
    assert(all.take(0) =~= Seq::<Event<'static>>::empty());
    for event in it: events.into_iter()
        invariant
            it.seq() == all,
            out@ == screened(all.take(it.index() as int)),
            safe_img_src(""@),
            safe_href("#"@),
            forall|i: int| 0 <= i < out@.len() ==> harmless(event_piece(#[trigger] out@[i])),
    {
        proof {
            let n = it.index() as int;
            assert(all.take(n + 1).drop_last() =~= all.take(n));
            assert(all.take(n + 1).last() == event);
        }
        let piece: Piece = piece_of(&event);
        match screen_piece(&piece) {
            Verdict::Keep => {
                out.push(event);
            },
            Verdict::Drop => {},
            Verdict::Redirect(dest) => {
                out.push(redirect(event, dest.as_str()));
            },
        }
    }
    assert(all.take(all.len() as int) =~= all);
    out
}

/// The HTML of a document. Without `allow_raw_html` the tags in it are the renderer's own.
pub open spec fn markdown_html(src: Seq<char>, allow_raw_html: bool) -> Seq<char> {
    let events = markdown_events(src, MARKDOWN_OPTIONS);
    if allow_raw_html {
        events_html(events)
    } else {
        events_html(screened(events))
    }
}

/// Renders a document. Without `allow_raw_html`, raw HTML is dropped and unsafe targets are
/// replaced.
pub fn render_markdown(src: &str, allow_raw_html: bool) -> (r: String)
    ensures
        r@ == markdown_html(src@, allow_raw_html),
{
    let events: Vec<Event<'static>> = parse_events(src, MARKDOWN_OPTIONS);
    if allow_raw_html {
        render_events(events)
    } else {
        render_events(screen_events(events))
    }
}

// ---------------------------------------------------------------------------
// Messages
// ---------------------------------------------------------------------------

/// What becomes of an event of a message.
#[derive(Clone, Copy, PartialEq, Eq, Structural)]
pub enum MessageVerdict {
    Keep,
    Drop,
    /// It is shown as text.
    Quote,
}

/// What becomes of a piece of a message: raw HTML is shown as text, and the block around it
/// goes.
pub fn message_piece(piece: &Piece) -> (r: MessageVerdict)
    ensures
        r == (match piece@ {
            PieceV::RawHtml => MessageVerdict::Quote,
            PieceV::HtmlBlock => MessageVerdict::Drop,
            _ => MessageVerdict::Keep,
        }),
{
    match piece {
        Piece::RawHtml => MessageVerdict::Quote,
        Piece::HtmlBlock => MessageVerdict::Drop,
        _ => MessageVerdict::Keep,
    }
}

/// The events of a message as they are rendered.
pub open spec fn quoted(events: Seq<Event<'static>>) -> Seq<Event<'static>>
    decreases events.len(),
{
    if events.len() == 0 {
        Seq::empty()
    } else {
        let before = quoted(events.drop_last());
        match event_piece(events.last()) {
            PieceV::RawHtml => before.push(event_quoted(events.last())),
            PieceV::HtmlBlock => before,
            _ => before.push(events.last()),
        }
    }
}

/// The events of a message as they are rendered: none of them is raw HTML.
pub fn quote_events(events: Vec<Event<'static>>) -> (r: Vec<Event<'static>>)
    ensures
        r@ == quoted(events@),
        forall|i: int| 0 <= i < r@.len() ==> !(event_piece(#[trigger] r@[i]) is RawHtml),
{
    let ghost all = events@;
    let mut out: Vec<Event<'static>> = Vec::new();
    assert(all.take(0) =~= Seq::<Event<'static>>::empty());
    for event in it: events.into_iter()
        invariant
            it.seq() == all,
            out@ == quoted(all.take(it.index() as int)),
            forall|i: int| 0 <= i < out@.len() ==> !(event_piece(#[trigger] out@[i]) is RawHtml),
    {
        proof {
            let n = it.index() as int;
            assert(all.take(n + 1).drop_last() =~= all.take(n));
            assert(all.take(n + 1).last() == event);
        }
        let piece: Piece = piece_of(&event);
        match message_piece(&piece) {
            MessageVerdict::Keep => {
                out.push(event);
            },
            MessageVerdict::Drop => {},
            MessageVerdict::Quote => {
                out.push(quote(event));
            },
        }
    }
    assert(all.take(all.len() as int) =~= all);
    out
}

/// Renders a message. Raw HTML in it is shown as text.
pub fn render_message(src: &str) -> (r: String)
    ensures
        r@ == events_html(quoted(markdown_events(src@, MESSAGE_OPTIONS))),
{
    render_events(quote_events(parse_events(src, MESSAGE_OPTIONS)))
}

/// A link target that names a scheme is safe where the scheme is `http`, `https` or `mailto`, in
/// upper or lower case, and nowhere else; so a `javascript:` or a `data:` target never is. A
/// target without a scheme, such as a path or a fragment, is safe.
pub proof fn law_only_inert_schemes_are_linked(scheme: Seq<char>, rest: Seq<char>)
    requires
        scheme.len() > 0 && !whitespace(scheme[0]),
        rest.len() > 0 && !whitespace(rest.last()),
        !scheme.contains(':'),
    ensures
        !scheme.contains('/') && !scheme.contains('?') && !scheme.contains('#') ==> (safe_href(
            scheme + seq![':'] + rest,
        ) <==> lower_ascii(scheme) == "http"@ || lower_ascii(scheme) == "https"@ || lower_ascii(
            scheme,
        ) == "mailto"@),
        scheme.contains('/') || scheme.contains('?') || scheme.contains('#') ==> safe_href(
            scheme + seq![':'] + rest,
        ),
        !whitespace(scheme.last()) ==> safe_href(scheme),
        lower_ascii("javascript"@) != "http"@ && lower_ascii("javascript"@) != "https"@
            && lower_ascii("javascript"@) != "mailto"@,
{
    let none = Seq::<char>::empty();
    let d = scheme + seq![':'] + rest;
    assert(d[0] == scheme[0] && d.last() == rest.last());
    law_trimming_cuts_the_ends(none, d, none);
    assert(none + d + none =~= d);
    lemma_index_of(d, ':');
    let at = scheme.len() as int;
    assert(d[at] == ':');
    assert(d.contains(':'));
    if index_of(d, ':') < at {
        assert(scheme[index_of(d, ':')] == ':');
    }
    assert(index_of(d, ':') == at);
    assert(d.take(at) =~= scheme);
    lemma_lower_keeps(scheme, '/');
    lemma_lower_keeps(scheme, '?');
    lemma_lower_keeps(scheme, '#');
    reveal_strlit("http");
    reveal_strlit("https");
    reveal_strlit("mailto");
    reveal_strlit("javascript");
    assert(lower_ascii("javascript"@).len() == 10);
    if !whitespace(scheme.last()) {
        law_trimming_cuts_the_ends(none, scheme, none);
        assert(none + scheme + none =~= scheme);
        lemma_index_of(scheme, ':');
    }
}

proof fn lemma_lower_keeps(s: Seq<char>, c: char)
    requires
        !ascii_upper(c),
        !('a' <= c && c <= 'z'),
    ensures
        lower_ascii(s).contains(c) <==> s.contains(c),
{
    if s.contains(c) {
        let k = choose|k: int| 0 <= k < s.len() && s[k] == c;
        assert(lower_ascii(s)[k] == c);
    }
    if lower_ascii(s).contains(c) {
        let k = choose|k: int| 0 <= k < lower_ascii(s).len() && lower_ascii(s)[k] == c;
        assert(s[k] == c);
    }
}

/// What is harmless is rendered as it stands, in its place; raw HTML is left out, and a link or a
/// picture whose target is not safe stays without it. A message keeps all but the markers of
/// blocks of HTML.
pub proof fn law_harmless_events_stay(events: Seq<Event<'static>>, event: Event<'static>)
    ensures
        screened(Seq::empty()).len() == 0,
        harmless(event_piece(event)) ==> screened(events.push(event)) == screened(events).push(
            event,
        ),
        event_piece(event) is RawHtml ==> screened(events.push(event)) == screened(events),
        event_piece(event) matches PieceV::Link(d) && !safe_href(d) ==> screened(
            events.push(event),
        ) == screened(events).push(event_redirected(event, "#"@)),
        event_piece(event) matches PieceV::Image(d) && !safe_img_src(d) ==> screened(
            events.push(event),
        ) == screened(events).push(event_redirected(event, ""@)),
        event_piece(event) is RawHtml ==> quoted(events.push(event)) == quoted(events).push(
            event_quoted(event),
        ),
        event_piece(event) is HtmlBlock ==> quoted(events.push(event)) == quoted(events),
        event_piece(event) is Link || event_piece(event) is Image || event_piece(event) is Other
            ==> quoted(events.push(event)) == quoted(events).push(event),
{
    assert(events.push(event).drop_last() =~= events);
}

/// A picture may be embedded, and is otherwise shown where its source is a safe link; other data
/// that is embedded is not shown.
pub proof fn law_only_pictures_are_embedded(rest: Seq<char>, dest: Seq<char>)
    requires
        rest.len() > 0 && !whitespace(rest.last()),
        dest.len() > 0 && !whitespace(dest[0]) && !whitespace(dest.last()),
    ensures
        safe_img_src("data:image/"@ + rest),
        !safe_img_src("data:text/"@ + rest),
        !starts_with(lower_ascii(dest), "data:image/"@) ==> safe_img_src(dest) == safe_href(dest),
{
    reveal_strlit("data:image/");
    reveal_strlit("data:text/");
    reveal_strlit("data");
    reveal_strlit("http");
    reveal_strlit("https");
    reveal_strlit("mailto");
    let none = Seq::<char>::empty();
    let picture = "data:image/"@ + rest;
    assert(picture[0] == 'd' && picture.last() == rest.last());
    law_trimming_cuts_the_ends(none, picture, none);
    assert(none + picture + none =~= picture);
    assert(lower_ascii(picture).subrange(0, 11) =~= "data:image/"@);
    let page = "data:text/"@ + rest;
    assert(page[0] == 'd' && page.last() == rest.last());
    law_trimming_cuts_the_ends(none, page, none);
    assert(none + page + none =~= page);
    if starts_with(lower_ascii(page), "data:image/"@) {
        assert(lower_ascii(page).subrange(0, 11)[5] == lower_ascii(page)[5]);
        assert(page[5] == 't');
    }
    let tail = "text/"@ + rest;
    reveal_strlit("text/");
    assert(page =~= "data"@ + seq![':'] + tail);
    assert(!("data"@.contains(':'))) by {
        if "data"@.contains(':') {
            let k = choose|k: int| 0 <= k < "data"@.len() && "data"@[k] == ':';
            assert("data"@[k] != ':');
        }
    }
    assert(!("data"@.contains('/')) && !("data"@.contains('?')) && !("data"@.contains('#'))) by {
        assert forall|k: int| 0 <= k < "data"@.len() implies "data"@[k] != '/' && "data"@[k] != '?'
            && "data"@[k] != '#' by {
        }
    }
    law_only_inert_schemes_are_linked("data"@, tail);
    assert(lower_ascii("data"@)[0] == 'd' && lower_ascii("data"@).len() == 4);
    law_trimming_cuts_the_ends(none, dest, none);
    assert(none + dest + none =~= dest);
}

} // verus!
