//! Escaping: text inside HTML, attributes, context blocks and URLs.

use crate::text::{
    ascii_alnum, chars_of, contains_text, is_ascii_alnum, occurs_at, occurs_at_index, starts_with,
    sub_chars, string_of, utf8_len,
};
use vstd::prelude::*;
use vstd::utf8::{encode_scalar, encode_utf8};

verus! {

/// Which characters are escaped, and how.
#[derive(Clone, Copy, PartialEq, Eq, Structural)]
pub enum Entities {
    /// `& < > " '`, the apostrophe as `&#x27;`.
    Hex27,
    /// `& < > " '`, the apostrophe as `&#39;`.
    Dec39,
    /// `& < > "`.
    NoApostrophe,
}

/// The character as it stands in HTML.
pub open spec fn entity(c: char, kind: Entities) -> Seq<char> {
    if c == '&' {
        "&amp;"@
    } else if c == '<' {
        "&lt;"@
    } else if c == '>' {
        "&gt;"@
    } else if c == '"' {
        "&quot;"@
    } else if c == '\'' && kind == Entities::Hex27 {
        "&#x27;"@
    } else if c == '\'' && kind == Entities::Dec39 {
        "&#39;"@
    } else {
        seq![c]
    }
}

/// The text as it stands in HTML.
pub open spec fn escaped(s: Seq<char>, kind: Entities) -> Seq<char>
    decreases s.len(),
{
    if s.len() == 0 {
        s
    } else {
        escaped(s.drop_last(), kind) + entity(s.last(), kind)
    }
}

/// The text as it stands in HTML.
pub fn escape(s: &str, kind: Entities) -> (r: String)
    ensures
        r@ == escaped(s@, kind),
{
    let v: Vec<char> = chars_of(s);
    let mut out: String = String::new();
    let mut i: usize = 0;
    assert(s@.take(0) =~= Seq::<char>::empty());
    while i < v.len()
        invariant
            i <= v@.len(),
            v@ == s@,
            out@ == escaped(s@.take(i as int), kind),
        decreases v.len() - i,
    {
        let c: char = v[i];
        assert(s@.take(i + 1).drop_last() =~= s@.take(i as int));
        assert(s@.take(i + 1).last() == c);
        let ghost before = out@;
        if c == '&' {
            out.push_str("&amp;");
        } else if c == '<' {
            out.push_str("&lt;");
        } else if c == '>' {
            out.push_str("&gt;");
        } else if c == '"' {
            out.push_str("&quot;");
        } else if c == '\'' && kind == Entities::Hex27 {
            out.push_str("&#x27;");
        } else if c == '\'' && kind == Entities::Dec39 {
            out.push_str("&#39;");
        } else {
            out.push(c);
            assert(before.push(c) =~= before + seq![c]);
        }
        i += 1;
    }
    assert(s@.take(i as int) =~= s@);
    out
}

/// Text content in inline HTML.
pub fn html_escape(s: &str) -> (r: String)
    ensures
        r@ == escaped(s@, Entities::Hex27),
{
    escape(s, Entities::Hex27)
}

/// Text content in rendered tool data.
pub fn escape_html_text(s: &str) -> (r: String)
    ensures
        r@ == escaped(s@, Entities::Dec39),
{
    escape(s, Entities::Dec39)
}

/// An attribute value between double quotes.
pub fn escape_html_attr(s: &str) -> (r: String)
    ensures
        r@ == escaped(s@, Entities::NoApostrophe),
{
    escape(s, Entities::NoApostrophe)
}

/// A character that could open a tag or end a quoted attribute.
pub open spec fn is_markup(c: char, kind: Entities) -> bool {
    c == '<' || c == '>' || c == '"' || (c == '\'' && kind != Entities::NoApostrophe)
}

/// Escaped text holds no markup: no angle bracket and no quote is left in it.
pub proof fn law_escaped_text_has_no_markup(s: Seq<char>, kind: Entities)
    ensures
        forall|i: int| 0 <= i < escaped(s, kind).len() ==> !is_markup(
            #[trigger] escaped(s, kind)[i],
            kind,
        ),
    decreases s.len(),
{
    if s.len() > 0 {
        law_escaped_text_has_no_markup(s.drop_last(), kind);
        reveal_strlit("&amp;");
        reveal_strlit("&lt;");
        reveal_strlit("&gt;");
        reveal_strlit("&quot;");
        reveal_strlit("&#x27;");
        reveal_strlit("&#39;");
        let before = escaped(s.drop_last(), kind);
        let last = entity(s.last(), kind);
        assert forall|i: int| 0 <= i < last.len() implies !is_markup(#[trigger] last[i], kind) by {
        }
        assert forall|i: int| 0 <= i < escaped(s, kind).len() implies !is_markup(
            #[trigger] escaped(s, kind)[i],
            kind,
        ) by {
            if i < before.len() {
                assert(escaped(s, kind)[i] == before[i]);
            } else {
                assert(escaped(s, kind)[i] == last[i - before.len()]);
            }
        }
    }
}

/// Text without characters to escape stays as it is.
pub proof fn law_plain_text_is_unchanged(s: Seq<char>, kind: Entities)
    requires
        forall|i: int| 0 <= i < s.len() ==> #[trigger] s[i] != '&' && !is_markup(s[i], kind),
    ensures
        escaped(s, kind) == s,
    decreases s.len(),
{
    if s.len() > 0 {
        let head = s.drop_last();
        assert forall|i: int| 0 <= i < head.len() implies #[trigger] head[i] != '&' && !is_markup(
            head[i],
            kind,
        ) by {
            assert(s[i] == head[i]);
        }
        law_plain_text_is_unchanged(head, kind);
        assert(s[s.len() - 1] == s.last());
        assert(head + seq![s.last()] =~= s);
    }
}

// ---------------------------------------------------------------------------
// Context blocks
// ---------------------------------------------------------------------------

/// The start of the tag that opens a context block.
pub const USER_DATA_OPEN: &'static str = "<user_data";

/// The start of the tag that closes a context block.
pub const USER_DATA_CLOSE: &'static str = "</user_data";

/// Whether a tag that opens or closes a context block starts at `i`.
pub open spec fn block_tag_at(s: Seq<char>, i: int) -> bool {
    occurs_at(s, USER_DATA_OPEN@, i) || occurs_at(s, USER_DATA_CLOSE@, i)
}

/// The text from `i` on, with the bracket of every tag of a context block escaped.
pub open spec fn block_escaped(s: Seq<char>, i: int) -> Seq<char>
    decreases s.len() - i,
{
    if i < 0 || i >= s.len() {
        Seq::empty()
    } else if block_tag_at(s, i) {
        "&lt;"@ + block_escaped(s, i + 1)
    } else {
        seq![s[i]] + block_escaped(s, i + 1)
    }
}

/// The text with the bracket of every tag that would open or close a context block escaped.
pub fn escape_user_data_close(s: &str) -> (r: String)
    ensures
        r@ == block_escaped(s@, 0),
{
    let v: Vec<char> = chars_of(s);
    let open: Vec<char> = chars_of(USER_DATA_OPEN);
    let close: Vec<char> = chars_of(USER_DATA_CLOSE);
    let mut out: String = String::new();
    let mut i: usize = 0;
    assert(out@ + block_escaped(s@, 0) =~= block_escaped(s@, 0));
    while i < v.len()
        invariant
            i <= v@.len(),
            v@ == s@,
            open@ == USER_DATA_OPEN@,
            close@ == USER_DATA_CLOSE@,
            out@ + block_escaped(s@, i as int) == block_escaped(s@, 0),
        decreases v.len() - i,
    {
        let ghost before = out@;
        let ghost rest = block_escaped(s@, i + 1);
        if occurs_at_index(&v, &open, i) || occurs_at_index(&v, &close, i) {
            out.push_str("&lt;");
            assert(before + ("&lt;"@ + rest) =~= before + "&lt;"@ + rest);
        } else {
            out.push(v[i]);
            assert(before + (seq![v@[i as int]] + rest) =~= before.push(v@[i as int]) + rest);
        }
        i += 1;
    }
    assert(out@ + block_escaped(s@, i as int) =~= out@);
    out
}

/// The first characters of the escaped text are those of the text, as long as no bracket of a
/// tag comes.
proof fn lemma_block_prefix(s: Seq<char>, i: int, j: int)
    requires
        0 <= i <= j,
        i <= s.len(),
        j <= block_escaped(s, i).len() + i,
        forall|k: int|
            i <= k < j ==> #[trigger] block_escaped(s, i)[k - i] != '<' && block_escaped(s, i)[k - i]
                != '&',
    ensures
        j <= s.len(),
        forall|k: int| i <= k < j ==> #[trigger] s[k] == block_escaped(s, i)[k - i],
    decreases s.len() - i,
{
    if i < j {
        let out = block_escaped(s, i);
        let rest = block_escaped(s, i + 1);
        assert(out[i - i] != '<' && out[i - i] != '&');
        reveal_strlit("&lt;");
        if i >= s.len() {
            assert(out.len() == 0);
        } else {
            if block_tag_at(s, i) {
                assert(out[0] == '&');
            }
            assert(out =~= seq![s[i]] + rest);
            assert forall|k: int| i + 1 <= k < j implies #[trigger] rest[k - (i + 1)] != '<'
                && rest[k - (i + 1)] != '&' by {
                assert(out[k - i] == rest[k - (i + 1)]);
            }
            lemma_block_prefix(s, i + 1, j);
            assert forall|k: int| i <= k < j implies #[trigger] s[k] == out[k - i] by {
                if k > i {
                    assert(s[k] == rest[k - (i + 1)]);
                    assert(out[k - i] == rest[k - (i + 1)]);
                }
            }
        }
    }
}

proof fn lemma_no_block_tag(s: Seq<char>, i: int, p: int, tag: Seq<char>)
    requires
        0 <= i,
        tag == USER_DATA_OPEN@ || tag == USER_DATA_CLOSE@,
    ensures
        !occurs_at(block_escaped(s, i), tag, p),
    decreases s.len() - i,
{
    let out = block_escaped(s, i);
    if occurs_at(out, tag, p) {
        reveal_strlit("<user_data");
        reveal_strlit("</user_data");
        reveal_strlit("&lt;");
        let n = tag.len() as int;
        assert(n >= 10);
        assert(tag[0] == '<');
        assert forall|k: int| 1 <= k < n implies #[trigger] tag[k] != '<' && tag[k] != '&' by {
        }
        assert(out.subrange(p, p + n)[0] == out[p]);
        if i >= s.len() {
        } else {
            let rest = block_escaped(s, i + 1);
            if block_tag_at(s, i) {
                assert(out =~= "&lt;"@ + rest);
                if p < 4 {
                    assert(out[p] == "&lt;"@[p]);
                } else {
                    assert(rest.subrange(p - 4, p - 4 + n) =~= out.subrange(p, p + n));
                    lemma_no_block_tag(s, i + 1, p - 4, tag);
                }
            } else {
                assert(out =~= seq![s[i]] + rest);
                if p == 0 {
                    let j = i + n;
                    assert forall|k: int| i + 1 <= k < j implies #[trigger] rest[k - (i + 1)]
                        != '<' && rest[k - (i + 1)] != '&' by {
                        assert(out[k - i] == rest[k - (i + 1)]);
                        assert(out.subrange(0, n)[k - i] == tag[k - i]);
                    }
                    lemma_block_prefix(s, i + 1, j);
                    assert(s.subrange(i, i + n) =~= tag) by {
                        assert forall|k: int| 0 <= k < n implies s[i + k] == tag[k] by {
                            assert(out.subrange(0, n)[k] == tag[k]);
                            if k > 0 {
                                assert(s[i + k] == rest[(i + k) - (i + 1)]);
                                assert(out[k] == rest[k - 1]);
                            }
                        }
                    }
                } else {
                    assert(rest.subrange(p - 1, p - 1 + n) =~= out.subrange(p, p + n));
                    lemma_no_block_tag(s, i + 1, p - 1, tag);
                }
            }
        }
    }
}

/// The body of a context block can neither open nor close a block: no such tag is left in it.
pub proof fn law_escaped_body_holds_no_block_tag(s: Seq<char>)
    ensures
        !contains_text(block_escaped(s, 0), USER_DATA_OPEN@),
        !contains_text(block_escaped(s, 0), USER_DATA_CLOSE@),
{
    assert forall|p: int| !occurs_at(block_escaped(s, 0), USER_DATA_OPEN@, p) by {
        lemma_no_block_tag(s, 0, p, USER_DATA_OPEN@);
    }
    assert forall|p: int| !occurs_at(block_escaped(s, 0), USER_DATA_CLOSE@, p) by {
        lemma_no_block_tag(s, 0, p, USER_DATA_CLOSE@);
    }
}

// ---------------------------------------------------------------------------
// Cutting to a number of bytes
// ---------------------------------------------------------------------------

/// The number of bytes of a character in UTF-8.
pub open spec fn char_bytes(c: char) -> nat {
    if (c as u32) < 0x80 {
        1
    } else if (c as u32) < 0x800 {
        2
    } else if (c as u32) < 0x10000 {
        3
    } else {
        4
    }
}

/// How many whole characters fit into `max` bytes.
pub open spec fn fitting(s: Seq<char>, max: int) -> int
    decreases s.len(),
{
    if s.len() == 0 || char_bytes(s[0]) > max {
        0
    } else {
        1 + fitting(s.drop_first(), max - char_bytes(s[0]))
    }
}

/// The longest prefix of whole characters that fits into `max` bytes.
pub open spec fn byte_prefix(s: Seq<char>, max: int) -> Seq<char> {
    s.take(fitting(s, max))
}

proof fn lemma_fitting(s: Seq<char>, max: int)
    ensures
        0 <= fitting(s, max) <= s.len(),
    decreases s.len(),
{
    if s.len() > 0 && char_bytes(s[0]) <= max {
        lemma_fitting(s.drop_first(), max - char_bytes(s[0]));
    }
}

proof fn lemma_char_bytes(c: char)
    ensures
        encode_scalar(c as u32).len() == char_bytes(c),
{
}

pub(crate) proof fn lemma_utf8_first(s: Seq<char>)
    requires
        s.len() > 0,
    ensures
        utf8_len(s) == char_bytes(s[0]) + utf8_len(s.drop_first()),
{
    lemma_char_bytes(s[0]);
}

/// A cut text is a prefix within the limit, and one more character would be over it.
pub proof fn law_byte_prefix_is_longest(s: Seq<char>, max: nat)
    ensures
        utf8_len(byte_prefix(s, max as int)) <= max,
        starts_with(s, byte_prefix(s, max as int)),
        forall|k: int|
            fitting(s, max as int) < k <= s.len() ==> utf8_len(#[trigger] s.take(k)) > max,
        utf8_len(s) <= max ==> byte_prefix(s, max as int) == s,
    decreases s.len(),
{
    lemma_fitting(s, max as int);
    let n = fitting(s, max as int);
    assert(s.subrange(0, n) =~= s.take(n));
    if s.len() > 0 {
        lemma_utf8_first(s);
        let w = char_bytes(s[0]);
        let rest = s.drop_first();
        if w <= max {
            law_byte_prefix_is_longest(rest, (max - w) as nat);
            lemma_fitting(rest, max - w);
            assert(s.take(n).drop_first() =~= rest.take(n - 1));
            lemma_utf8_first(s.take(n));
        }
        assert forall|k: int| n < k <= s.len() implies utf8_len(#[trigger] s.take(k)) > max by {
            assert(s.take(k).drop_first() =~= rest.take(k - 1));
            lemma_utf8_first(s.take(k));
            if w <= max {
                assert(utf8_len(rest.take(k - 1)) > max - w);
            }
        }
        if utf8_len(s) <= max {
            assert(s.take(s.len() as int) =~= s);
            assert(n == s.len());
        }
    } else {
        assert(s.take(0) =~= s);
    }
}

/// The longest prefix of whole characters that fits into `max` bytes.
pub fn truncate_utf8(s: &str, max: usize) -> (r: String)
    ensures
        r@ == byte_prefix(s@, max as int),
{
    let v: Vec<char> = chars_of(s);
    let mut left: usize = max;
    let mut i: usize = 0;
    assert(s@.skip(0) =~= s@);
    loop
        invariant
            i <= v@.len(),
            v@ == s@,
            i + fitting(s@.skip(i as int), left as int) == fitting(s@, max as int),
        ensures
            i == fitting(s@, max as int),
            i <= v@.len(),
        decreases v.len() - i,
    {
        if i == v.len() {
            break;
        }
        let u: u32 = v[i] as u32;
        let w: usize = if u < 0x80 {
            1
        } else if u < 0x800 {
            2
        } else if u < 0x10000 {
            3
        } else {
            4
        };
        assert(s@.skip(i as int)[0] == v@[i as int]);
        assert(s@.skip(i as int).drop_first() =~= s@.skip(i + 1));
        if w > left {
            break;
        }
        left -= w;
        i += 1;
    }
    let head: Vec<char> = sub_chars(&v, 0, i);
    assert(s@.subrange(0, i as int) =~= s@.take(i as int));
    string_of(&head)
}

// ---------------------------------------------------------------------------
// URLs
// ---------------------------------------------------------------------------

/// Whether the byte stands for itself in a URL: ASCII letters, digits and `- _ . ~`.
pub open spec fn url_plain(b: u8) -> bool {
    ascii_alnum(b as char) || b == 45 || b == 95 || b == 46 || b == 126
}

/// The upper-case hexadecimal digit of a value below 16.
pub open spec fn upper_hex(n: int) -> char {
    if n < 10 {
        ((48 + n) as u8) as char
    } else {
        ((55 + n) as u8) as char
    }
}

/// The byte as it stands in a URL.
pub open spec fn url_byte(b: u8) -> Seq<char> {
    if url_plain(b) {
        seq![b as char]
    } else {
        seq!['%', upper_hex(b as int / 16), upper_hex(b as int % 16)]
    }
}

/// The bytes as they stand in a URL.
pub open spec fn url_bytes(b: Seq<u8>) -> Seq<char>
    decreases b.len(),
{
    if b.len() == 0 {
        Seq::empty()
    } else {
        url_bytes(b.drop_last()) + url_byte(b.last())
    }
}

fn upper_hex_digit(n: u8) -> (c: char)
    requires
        n < 16,
    ensures
        c == upper_hex(n as int),
{
    if n < 10 {
        (48 + n) as char
    } else {
        (55 + n) as char
    }
}

/// The text percent-encoded as a path segment or query value.
pub fn urlencoding_simple(s: &str) -> (r: String)
    ensures
        r@ == url_bytes(encode_utf8(s@)),
{
    let bytes: &[u8] = s.as_bytes();
    let ghost all = bytes@;
    let mut out: String = String::new();
    let mut i: usize = 0;
    assert(all.take(0) =~= Seq::<u8>::empty());
    while i < bytes.len()
        invariant
            i <= bytes@.len(),
            all == bytes@,
            out@ == url_bytes(all.take(i as int)),
        decreases bytes.len() - i,
    {
        let b: u8 = bytes[i];
        assert(all.take(i + 1).drop_last() =~= all.take(i as int));
        assert(all.take(i + 1).last() == b);
        let ghost before = out@;
        let c: char = b as char;
        if is_ascii_alnum(c) || b == 45 || b == 95 || b == 46 || b == 126 {
            out.push(c);
            assert(out@ =~= before + url_byte(b));
        } else {
            out.push('%');
            out.push(upper_hex_digit(b / 16));
            out.push(upper_hex_digit(b % 16));
            assert(out@ =~= before + url_byte(b));
        }
        i += 1;
    }
    assert(all.take(i as int) =~= all);
    out
}

/// Each sign of markup has its own entity, and a text is escaped sign by sign, in order.
pub proof fn law_signs_have_their_entities(a: Seq<char>, c: char, kind: Entities)
    ensures
        escaped(Seq::empty(), kind).len() == 0,
        escaped(a.push('<'), kind) == escaped(a, kind) + "&lt;"@,
        escaped(a.push('>'), kind) == escaped(a, kind) + "&gt;"@,
        escaped(a.push('&'), kind) == escaped(a, kind) + "&amp;"@,
        escaped(a.push('"'), kind) == escaped(a, kind) + "&quot;"@,
        escaped(a.push('\''), Entities::Hex27) == escaped(a, Entities::Hex27) + "&#x27;"@,
        escaped(a.push('\''), Entities::Dec39) == escaped(a, Entities::Dec39) + "&#39;"@,
        c != '<' && c != '>' && c != '&' && c != '"' && c != '\'' ==> escaped(a.push(c), kind)
            == escaped(a, kind).push(c),
{
    assert(a.push('<').drop_last() =~= a);
    assert(a.push('>').drop_last() =~= a);
    assert(a.push('&').drop_last() =~= a);
    assert(a.push('"').drop_last() =~= a);
    assert(a.push('\'').drop_last() =~= a);
    assert(a.push(c).drop_last() =~= a);
    assert(escaped(a, kind) + seq![c] =~= escaped(a, kind).push(c));
}

/// The value of an upper-case hexadecimal digit.
pub open spec fn hex_value(c: char) -> int {
    if c <= '9' {
        c as int - '0' as int
    } else {
        c as int - 'A' as int + 10
    }
}

/// A letter, a digit, `-`, `_`, `.` and `~` stand for themselves in a URL. Any other byte is
/// written as a percent sign and its two hexadecimal digits, which give the byte again.
pub proof fn law_bytes_are_written_for_urls(b: u8, before: Seq<u8>)
    ensures
        url_bytes(Seq::empty()).len() == 0,
        url_bytes(before.push(b)) == url_bytes(before) + url_byte(b),
        ('a' <= b as char <= 'z') || ('A' <= b as char <= 'Z') || ('0' <= b as char <= '9') || b
            as char == '-' || b as char == '_' || b as char == '.' || b as char == '~'
            ==> url_byte(b) == seq![b as char],
        !(('a' <= b as char <= 'z') || ('A' <= b as char <= 'Z') || ('0' <= b as char <= '9') || b
            as char == '-' || b as char == '_' || b as char == '.' || b as char == '~') ==> {
            &&& url_byte(b).len() == 3
            &&& url_byte(b)[0] == '%'
            &&& hex_value(url_byte(b)[1]) * 16 + hex_value(url_byte(b)[2]) == b
        },
{
    assert(before.push(b).drop_last() =~= before);
}

} // verus!
