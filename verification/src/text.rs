//! Operations on text, stated over sequences of characters.

use vstd::prelude::*;
use vstd::slice::slice_subrange;
use vstd::utf8::encode_utf8;

verus! {

/// `String::push` appends one character.
pub assume_specification[ String::push ](s: &mut String, ch: char)
    ensures
        final(s)@ == old(s)@.push(ch),
;

/// `String::push_str` appends a string slice.
pub assume_specification[ String::push_str ](s: &mut String, string: &str)
    ensures
        final(s)@ == old(s)@ + string@,
;

/// `==` on string slices compares their contents.
pub assume_specification[ <str as PartialEq>::eq ](a: &str, b: &str) -> (r: bool)
    ensures
        r == (a@ == b@),
;

/// The number of bytes that the characters take in UTF-8.
pub open spec fn utf8_len(s: Seq<char>) -> nat {
    encode_utf8(s).len()
}

/// The contents of each vector of characters.
pub open spec fn views(v: Seq<Vec<char>>) -> Seq<Seq<char>> {
    Seq::new(v.len(), |i: int| v[i]@)
}

/// The contents of each string.
pub open spec fn texts(v: Seq<String>) -> Seq<Seq<char>> {
    Seq::new(v.len(), |i: int| v[i]@)
}

/// The content of an optional string.
pub open spec fn opt_text(o: Option<String>) -> Option<Seq<char>> {
    match o {
        Some(s) => Some(s@),
        None => None,
    }
}

/// The characters of a string slice, in order.
pub fn chars_of(s: &str) -> (v: Vec<char>)
    ensures
        v@ == s@,
{
    let mut v: Vec<char> = Vec::new();
    for c in it: s.chars()
        invariant
            it.seq() == s@,
            v@ == it.seq().take(it.index() as int),
    {
        v.push(c);
    }
    v
}

/// The string made of the given characters.
pub fn string_of(v: &[char]) -> (s: String)
    ensures
        s@ == v@,
{
    let mut s: String = String::new();
    let mut i: usize = 0;
    while i < v.len()
        invariant
            i <= v.len(),
            s@ == v@.take(i as int),
        decreases v.len() - i,
    {
        s.push(v[i]);
        i += 1;
    }
    s
}

/// Whether two strings hold the same characters.
pub fn same(a: &str, b: &str) -> (r: bool)
    ensures
        r == (a@ == b@),
{
    *a == *b
}

/// The number of bytes of a string slice.
pub fn byte_len(s: &str) -> (n: usize)
    ensures
        n == utf8_len(s@),
{
    s.as_bytes().len()
}

/// The characters `v[from..to]`.
pub fn sub_chars(v: &[char], from: usize, to: usize) -> (r: Vec<char>)
    requires
        from <= to <= v@.len(),
    ensures
        r@ == v@.subrange(from as int, to as int),
{
    let mut r: Vec<char> = Vec::new();
    let mut i: usize = from;
    while i < to
        invariant
            from <= i <= to <= v@.len(),
            r@ == v@.subrange(from as int, i as int),
        decreases to - i,
    {
        r.push(v[i]);
        i += 1;
    }
    r
}

/// Whether two slices hold the same characters.
pub fn same_chars(a: &[char], b: &[char]) -> (r: bool)
    ensures
        r == (a@ == b@),
{
    if a.len() != b.len() {
        return false;
    }
    let mut i: usize = 0;
    while i < a.len()
        invariant
            i <= a.len(),
            a@.len() == b@.len(),
            a@.take(i as int) == b@.take(i as int),
        decreases a.len() - i,
    {
        if a[i] != b[i] {
            assert(a@[i as int] != b@[i as int]);
            return false;
        }
        assert(a@.take(i + 1) =~= a@.take(i as int).push(a@[i as int]));
        assert(b@.take(i + 1) =~= b@.take(i as int).push(b@[i as int]));
        i += 1;
    }
    assert(a@ =~= a@.take(i as int));
    assert(b@ =~= b@.take(i as int));
    true
}

// ---------------------------------------------------------------------------
// Character classes
// ---------------------------------------------------------------------------

/// The Unicode `White_Space` property.
pub open spec fn whitespace(c: char) -> bool {
    let u = c as u32;
    ||| 0x9 <= u <= 0xd
    ||| u == 0x20
    ||| u == 0x85
    ||| u == 0xa0
    ||| u == 0x1680
    ||| 0x2000 <= u <= 0x200a
    ||| u == 0x2028
    ||| u == 0x2029
    ||| u == 0x202f
    ||| u == 0x205f
    ||| u == 0x3000
}

/// Whether the character has the `White_Space` property.
pub fn is_whitespace(c: char) -> (r: bool)
    ensures
        r == whitespace(c),
{
    let u: u32 = c as u32;
    (0x9 <= u && u <= 0xd) || u == 0x20 || u == 0x85 || u == 0xa0 || u == 0x1680 || (0x2000 <= u
        && u <= 0x200a) || u == 0x2028 || u == 0x2029 || u == 0x202f || u == 0x205f || u == 0x3000
}

/// `A` to `Z`.
pub open spec fn ascii_upper(c: char) -> bool {
    'A' <= c && c <= 'Z'
}

/// `a` to `z`.
pub open spec fn ascii_lower(c: char) -> bool {
    'a' <= c && c <= 'z'
}

/// `0` to `9`.
pub open spec fn ascii_digit(c: char) -> bool {
    '0' <= c && c <= '9'
}

/// ASCII letters and digits.
pub open spec fn ascii_alnum(c: char) -> bool {
    ascii_upper(c) || ascii_lower(c) || ascii_digit(c)
}

/// Whether the character is an ASCII letter or digit.
pub fn is_ascii_alnum(c: char) -> (r: bool)
    ensures
        r == ascii_alnum(c),
{
    ('A' <= c && c <= 'Z') || ('a' <= c && c <= 'z') || ('0' <= c && c <= '9')
}

/// The character with `A` to `Z` mapped to `a` to `z`.
pub open spec fn to_ascii_lower(c: char) -> char {
    if ascii_upper(c) {
        ((c as u8 + 32) as u8) as char
    } else {
        c
    }
}

/// Maps `A` to `Z` to lower case.
pub fn ascii_lowered(c: char) -> (r: char)
    ensures
        r == to_ascii_lower(c),
{
    if 'A' <= c && c <= 'Z' {
        (c as u8 + 32) as char
    } else {
        c
    }
}

/// The text with `A` to `Z` mapped to lower case.
pub open spec fn lower_ascii(s: Seq<char>) -> Seq<char> {
    Seq::new(s.len(), |i: int| to_ascii_lower(s[i]))
}

/// Maps `A` to `Z` to lower case throughout.
pub fn lower_ascii_chars(s: &[char]) -> (r: Vec<char>)
    ensures
        r@ == lower_ascii(s@),
{
    let mut r: Vec<char> = Vec::new();
    let mut i: usize = 0;
    while i < s.len()
        invariant
            i <= s.len(),
            r@ == lower_ascii(s@).take(i as int),
        decreases s.len() - i,
    {
        r.push(ascii_lowered(s[i]));
        i += 1;
    }
    r
}

/// Whether a character outside ASCII is alphabetic or numeric in Unicode.
pub uninterp spec fn unicode_alnum(c: char) -> bool;

/// Letters and digits: `[A-Za-z0-9]` in ASCII, the Unicode classes outside it.
pub open spec fn alnum(c: char) -> bool {
    if (c as u32) < 128 {
        ascii_alnum(c)
    } else {
        unicode_alnum(c)
    }
}

/// `char::is_alphanumeric`: in ASCII the letters and digits; elsewhere the Unicode
/// `Alphabetic` and numeric classes, under a name.
pub assume_specification[ char::is_alphanumeric ](c: char) -> (r: bool)
    ensures
        r == (if (c as u32) < 128 {
            ascii_alnum(c)
        } else {
            unicode_alnum(c)
        }),
;

/// The lower-case form of a text, by Unicode's rules.
pub uninterp spec fn lowercased(s: Seq<char>) -> Seq<char>;

/// `str::to_lowercase`: the text's Unicode lower-case form, under a name; on ASCII text
/// it maps `A` to `Z` and nothing else.
pub assume_specification[ str::to_lowercase ](s: &str) -> (r: String)
    ensures
        r@ == lowercased(s@),
        vstd::utf8::is_ascii_chars(s@) ==> r@ == lower_ascii(s@),
;

/// The upper-case form of a character, by Unicode's rules.
pub uninterp spec fn uppercased(c: char) -> Seq<char>;

/// `char::to_uppercase`: the character's Unicode upper-case form, under a name; for an
/// ASCII lower-case letter it is the letter's capital.
#[verifier::external_body]
pub(crate) fn char_uppercase(c: char) -> (r: String)
    ensures
        r@ == uppercased(c),
        ascii_lower(c) ==> r@ == seq![((c as u8 - 32) as u8) as char],
        (c as u32) < 128 && !ascii_lower(c) ==> r@ == seq![c],
{
    c.to_uppercase().to_string()
}

// ---------------------------------------------------------------------------
// Trimming
// ---------------------------------------------------------------------------

/// What is cut from the ends of a text.
#[derive(Clone, Copy)]
pub enum Cut {
    /// Whitespace.
    Whitespace,
    /// One given character.
    Is(char),
}

impl Cut {
    /// Whether the character is cut.
    pub open spec fn cuts(self, c: char) -> bool {
        match self {
            Cut::Whitespace => whitespace(c),
            Cut::Is(d) => c == d,
        }
    }

    /// Whether the character is cut.
    pub fn applies(self, c: char) -> (r: bool)
        ensures
            r == self.cuts(c),
    {
        match self {
            Cut::Whitespace => is_whitespace(c),
            Cut::Is(d) => c == d,
        }
    }
}

/// The text without the leading characters that are cut.
pub open spec fn trim_start_by(s: Seq<char>, cut: Cut) -> Seq<char>
    decreases s.len(),
{
    if s.len() > 0 && cut.cuts(s[0]) {
        trim_start_by(s.drop_first(), cut)
    } else {
        s
    }
}

/// The text without the trailing characters that are cut.
pub open spec fn trim_end_by(s: Seq<char>, cut: Cut) -> Seq<char>
    decreases s.len(),
{
    if s.len() > 0 && cut.cuts(s.last()) {
        trim_end_by(s.drop_last(), cut)
    } else {
        s
    }
}

/// The text without the characters that are cut at either end.
pub open spec fn trim_by(s: Seq<char>, cut: Cut) -> Seq<char> {
    trim_end_by(trim_start_by(s, cut), cut)
}

/// The text without surrounding whitespace.
pub open spec fn trim(s: Seq<char>) -> Seq<char> {
    trim_by(s, Cut::Whitespace)
}

/// The index of the first character that is not cut, or the length.
pub fn trim_start_index(v: &[char], cut: Cut) -> (i: usize)
    ensures
        i <= v@.len(),
        v@.subrange(i as int, v@.len() as int) == trim_start_by(v@, cut),
        i < v@.len() ==> !cut.cuts(v@[i as int]),
{
    let mut i: usize = 0;
    assert(v@.subrange(0, v@.len() as int) =~= v@);
    while i < v.len() && cut.applies(v[i])
        invariant
            i <= v@.len(),
            trim_start_by(v@.subrange(i as int, v@.len() as int), cut) == trim_start_by(v@, cut),
        decreases v.len() - i,
    {
        assert(v@.subrange(i as int, v@.len() as int).drop_first() =~= v@.subrange(
            i + 1,
            v@.len() as int,
        ));
        i += 1;
    }
    i
}

/// The characters without those that are cut at either end.
pub fn trim_chars(v: &[char], cut: Cut) -> (r: Vec<char>)
    ensures
        r@ == trim_by(v@, cut),
{
    let i: usize = trim_start_index(v, cut);
    let ghost rest = v@.subrange(i as int, v@.len() as int);
    let mut j: usize = v.len();
    while j > i && cut.applies(v[j - 1])
        invariant
            i <= j <= v@.len(),
            rest == trim_start_by(v@, cut),
            rest == v@.subrange(i as int, v@.len() as int),
            trim_end_by(v@.subrange(i as int, j as int), cut) == trim_end_by(rest, cut),
        decreases j - i,
    {
        assert(v@.subrange(i as int, j as int).drop_last() =~= v@.subrange(i as int, j - 1));
        assert(v@.subrange(i as int, j as int).last() == v@[j - 1]);
        j -= 1;
    }
    proof {
        if j > i {
            assert(v@.subrange(i as int, j as int).last() == v@[j - 1]);
        }
    }
    sub_chars(v, i, j)
}

/// The string without surrounding whitespace.
pub fn trimmed(s: &str) -> (r: String)
    ensures
        r@ == trim(s@),
{
    let v: Vec<char> = chars_of(s);
    let t: Vec<char> = trim_chars(&v, Cut::Whitespace);
    string_of(&t)
}

/// Whether nothing but whitespace is in the string.
pub fn is_blank(s: &str) -> (r: bool)
    ensures
        r == (trim(s@).len() == 0),
{
    let v: Vec<char> = chars_of(s);
    let t: Vec<char> = trim_chars(&v, Cut::Whitespace);
    t.len() == 0
}

/// What is left after trimming neither starts nor ends with a character that is cut.
pub proof fn lemma_trim_ends(s: Seq<char>, cut: Cut)
    ensures
        trim_by(s, cut).len() <= s.len(),
        trim_by(s, cut).len() > 0 ==> !cut.cuts(trim_by(s, cut)[0]) && !cut.cuts(
            trim_by(s, cut).last(),
        ),
{
    lemma_trim_start(s, cut);
    lemma_trim_end(trim_start_by(s, cut), cut);
}

proof fn lemma_trim_start(s: Seq<char>, cut: Cut)
    ensures
        trim_start_by(s, cut).len() <= s.len(),
        trim_start_by(s, cut).len() > 0 ==> !cut.cuts(trim_start_by(s, cut)[0]),
    decreases s.len(),
{
    if s.len() > 0 && cut.cuts(s[0]) {
        lemma_trim_start(s.drop_first(), cut);
    }
}

proof fn lemma_trim_end(s: Seq<char>, cut: Cut)
    ensures
        trim_end_by(s, cut).len() <= s.len(),
        trim_end_by(s, cut).len() > 0 ==> !cut.cuts(trim_end_by(s, cut).last()) && trim_end_by(
            s,
            cut,
        )[0] == s[0],
    decreases s.len(),
{
    if s.len() > 0 && cut.cuts(s.last()) {
        lemma_trim_end(s.drop_last(), cut);
    }
}

/// What is left after trimming is a part of the text.
pub proof fn lemma_trim_is_part(s: Seq<char>, cut: Cut) -> (r: (int, int))
    ensures
        0 <= r.0 <= r.1 <= s.len(),
        trim_by(s, cut) == s.subrange(r.0, r.1),
        forall|i: int| 0 <= i < r.0 ==> cut.cuts(#[trigger] s[i]),
        forall|i: int| r.1 <= i < s.len() ==> cut.cuts(#[trigger] s[i]),
{
    let a = lemma_trim_start_is_part(s, cut);
    let t = trim_start_by(s, cut);
    let b = lemma_trim_end_is_part(t, cut);
    assert(t.subrange(0, b) =~= s.subrange(a, a + b));
    assert forall|i: int| a + b <= i < s.len() implies cut.cuts(#[trigger] s[i]) by {
        assert(t[i - a] == s[i]);
    }
    (a, a + b)
}

proof fn lemma_trim_start_is_part(s: Seq<char>, cut: Cut) -> (a: int)
    ensures
        0 <= a <= s.len(),
        trim_start_by(s, cut) == s.subrange(a, s.len() as int),
        forall|i: int| 0 <= i < a ==> cut.cuts(#[trigger] s[i]),
    decreases s.len(),
{
    if s.len() > 0 && cut.cuts(s[0]) {
        let t = s.drop_first();
        let a = lemma_trim_start_is_part(t, cut);
        assert(t.subrange(a, t.len() as int) =~= s.subrange(a + 1, s.len() as int));
        assert forall|i: int| 0 <= i < a + 1 implies cut.cuts(#[trigger] s[i]) by {
            if i > 0 {
                assert(t[i - 1] == s[i]);
            }
        }
        a + 1
    } else {
        assert(s.subrange(0, s.len() as int) =~= s);
        0
    }
}

proof fn lemma_trim_end_is_part(s: Seq<char>, cut: Cut) -> (b: int)
    ensures
        0 <= b <= s.len(),
        trim_end_by(s, cut) == s.subrange(0, b),
        forall|i: int| b <= i < s.len() ==> cut.cuts(#[trigger] s[i]),
    decreases s.len(),
{
    if s.len() > 0 && cut.cuts(s.last()) {
        let t = s.drop_last();
        let b = lemma_trim_end_is_part(t, cut);
        assert(t.subrange(0, b) =~= s.subrange(0, b));
        assert forall|i: int| b <= i < s.len() implies cut.cuts(#[trigger] s[i]) by {
            if i < t.len() {
                assert(t[i] == s[i]);
            }
        }
        b
    } else {
        assert(s.subrange(0, s.len() as int) =~= s);
        s.len() as int
    }
}

/// Trimming cuts blanks, tabs, line breaks and other whitespace from both ends of a text, all of
/// it and nothing else: what stands between the first and the last other character stays.
pub proof fn law_trimming_cuts_the_ends(front: Seq<char>, middle: Seq<char>, back: Seq<char>)
    requires
        forall|i: int| 0 <= i < front.len() ==> whitespace(#[trigger] front[i]),
        forall|i: int| 0 <= i < back.len() ==> whitespace(#[trigger] back[i]),
        middle.len() > 0 ==> !whitespace(middle[0]) && !whitespace(middle.last()),
        middle.len() == 0 ==> back.len() == 0,
    ensures
        trim(front + middle + back) == middle,
        whitespace(' '),
        whitespace('\t'),
        whitespace('\n'),
        whitespace('\r'),
{
    let s = front + middle + back;
    let (a, b) = lemma_trim_is_part(s, Cut::Whitespace);
    lemma_trim_ends(s, Cut::Whitespace);
    let t = trim(s);
    if middle.len() > 0 {
        let (f, l) = (front.len() as int, front.len() + middle.len() - 1);
        assert(s[f] == middle[0]);
        assert(s[l] == middle.last());
        assert(a <= f && l < b);
        assert(t.len() > 0);
        assert(t[0] == s[a] && t.last() == s[b - 1]);
        if a < f {
            assert(s[a] == front[a]);
        }
        if b - 1 > l {
            assert(s[b - 1] == back[b - 1 - l - 1]);
        }
        assert(s.subrange(a, b) =~= middle);
    } else {
        if t.len() > 0 {
            assert(t[0] == s[a]);
            assert(s[a] == front[a]);
        }
        assert(t =~= middle);
    }
}

/// A text of which trimming leaves nothing is whitespace throughout.
pub proof fn lemma_blank(s: Seq<char>)
    requires
        trim(s).len() == 0,
    ensures
        forall|i: int| 0 <= i < s.len() ==> whitespace(#[trigger] s[i]),
    decreases s.len(),
{
    if s.len() > 0 {
        if whitespace(s[0]) {
            lemma_blank(s.drop_first());
            assert forall|i: int| 0 <= i < s.len() implies whitespace(#[trigger] s[i]) by {
                if i > 0 {
                    assert(s[i] == s.drop_first()[i - 1]);
                }
            }
        } else {
            lemma_trim_end_keeps(s, Cut::Whitespace);
        }
    }
}

proof fn lemma_trim_end_keeps(s: Seq<char>, cut: Cut)
    requires
        s.len() > 0,
        !cut.cuts(s[0]),
    ensures
        trim_end_by(s, cut).len() > 0,
    decreases s.len(),
{
    if cut.cuts(s.last()) {
        lemma_trim_end_keeps(s.drop_last(), cut);
    }
}

// ---------------------------------------------------------------------------
// Searching
// ---------------------------------------------------------------------------

/// The index of the first `c`, or the length where there is none.
pub open spec fn index_of(s: Seq<char>, c: char) -> int
    decreases s.len(),
{
    if s.len() == 0 || s[0] == c {
        0
    } else {
        1 + index_of(s.drop_first(), c)
    }
}

/// The index of the last `c`, or -1 where there is none.
pub open spec fn last_index_of(s: Seq<char>, c: char) -> int
    decreases s.len(),
{
    if s.len() == 0 {
        -1
    } else if s.last() == c {
        s.len() - 1
    } else {
        last_index_of(s.drop_last(), c)
    }
}

/// `index_of` gives the first position that holds the character.
pub proof fn lemma_index_of(s: Seq<char>, c: char)
    ensures
        0 <= index_of(s, c) <= s.len(),
        index_of(s, c) < s.len() ==> s[index_of(s, c)] == c,
        forall|i: int| 0 <= i < index_of(s, c) ==> s[i] != c,
        s.contains(c) <==> index_of(s, c) < s.len(),
    decreases s.len(),
{
    if s.len() == 0 || s[0] == c {
    } else {
        lemma_index_of(s.drop_first(), c);
        assert forall|i: int| 0 <= i < index_of(s, c) implies s[i] != c by {
            if i > 0 {
                assert(s[i] == s.drop_first()[i - 1]);
            }
        }
        if s.contains(c) {
            let k = choose|k: int| 0 <= k < s.len() && s[k] == c;
            assert(s.drop_first()[k - 1] == c);
        }
    }
}

/// The index of the first `c`, or the length where there is none.
pub fn find_char(s: &[char], c: char) -> (r: usize)
    ensures
        r == index_of(s@, c),
        r <= s@.len(),
{
    let mut i: usize = 0;
    assert(s@.subrange(0, s@.len() as int) =~= s@);
    while i < s.len() && s[i] != c
        invariant
            i <= s@.len(),
            i + index_of(s@.subrange(i as int, s@.len() as int), c) == index_of(s@, c),
        decreases s.len() - i,
    {
        assert(s@.subrange(i as int, s@.len() as int).drop_first() =~= s@.subrange(
            i + 1,
            s@.len() as int,
        ));
        i += 1;
    }
    i
}

/// The index of the last `c`, if there is one.
pub fn rfind_char(s: &[char], c: char) -> (r: Option<usize>)
    ensures
        match r {
            Some(i) => i == last_index_of(s@, c) && i < s@.len(),
            None => last_index_of(s@, c) == -1,
        },
{
    let mut j: usize = s.len();
    assert(s@.subrange(0, s@.len() as int) =~= s@);
    while j > 0
        invariant
            j <= s@.len(),
            last_index_of(s@.subrange(0, j as int), c) == last_index_of(s@, c),
        decreases j,
    {
        assert(s@.subrange(0, j as int).last() == s@[j - 1]);
        assert(s@.subrange(0, j as int).drop_last() =~= s@.subrange(0, j - 1));
        if s[j - 1] == c {
            return Some(j - 1);
        }
        j -= 1;
    }
    None
}

/// Whether the character is in the text.
pub fn has_char(s: &[char], c: char) -> (r: bool)
    ensures
        r == s@.contains(c),
{
    proof {
        lemma_index_of(s@, c);
    }
    find_char(s, c) < s.len()
}

/// Whether `s` starts with `p`.
pub open spec fn starts_with(s: Seq<char>, p: Seq<char>) -> bool {
    p.len() <= s.len() && s.subrange(0, p.len() as int) == p
}

/// Whether `s` ends with `p`.
pub open spec fn ends_with(s: Seq<char>, p: Seq<char>) -> bool {
    p.len() <= s.len() && s.subrange(s.len() - p.len(), s.len() as int) == p
}

/// Whether `n` stands in `s` at index `i`.
pub open spec fn occurs_at(s: Seq<char>, n: Seq<char>, i: int) -> bool {
    0 <= i && i + n.len() <= s.len() && s.subrange(i, i + n.len()) == n
}

/// Whether `n` stands somewhere in `s`.
pub open spec fn contains_text(s: Seq<char>, n: Seq<char>) -> bool {
    exists|i: int| occurs_at(s, n, i)
}

/// Whether `n` stands in `s` at index `i`.
pub fn occurs_at_index(s: &[char], n: &[char], i: usize) -> (r: bool)
    requires
        i <= s@.len(),
    ensures
        r == occurs_at(s@, n@, i as int),
{
    if n.len() > s.len() - i {
        return false;
    }
    same_chars(slice_subrange(s, i, i + n.len()), n)
}

/// Whether `s` starts with `p`.
pub fn has_prefix(s: &[char], p: &[char]) -> (r: bool)
    ensures
        r == starts_with(s@, p@),
{
    occurs_at_index(s, p, 0)
}

/// Whether `s` ends with `p`.
pub fn has_suffix(s: &[char], p: &[char]) -> (r: bool)
    ensures
        r == ends_with(s@, p@),
{
    if p.len() > s.len() {
        return false;
    }
    same_chars(slice_subrange(s, s.len() - p.len(), s.len()), p)
}

/// Whether `n` stands somewhere in `s`.
pub fn has_text(s: &[char], n: &[char]) -> (r: bool)
    ensures
        r == contains_text(s@, n@),
{
    let mut i: usize = 0;
    loop
        invariant
            i <= s@.len(),
            forall|k: int| 0 <= k < i ==> !occurs_at(s@, n@, k),
        decreases s.len() - i,
    {
        if occurs_at_index(s, n, i) {
            return true;
        }
        if i == s.len() {
            return false;
        }
        i += 1;
    }
}

/// Whether the string starts with the other.
pub fn str_starts_with(s: &str, p: &str) -> (r: bool)
    ensures
        r == starts_with(s@, p@),
{
    let a: Vec<char> = chars_of(s);
    let b: Vec<char> = chars_of(p);
    has_prefix(&a, &b)
}

/// Whether the string ends with the other.
pub fn str_ends_with(s: &str, p: &str) -> (r: bool)
    ensures
        r == ends_with(s@, p@),
{
    let a: Vec<char> = chars_of(s);
    let b: Vec<char> = chars_of(p);
    has_suffix(&a, &b)
}

/// Whether the string contains the other.
pub fn str_contains(s: &str, n: &str) -> (r: bool)
    ensures
        r == contains_text(s@, n@),
{
    let a: Vec<char> = chars_of(s);
    let b: Vec<char> = chars_of(n);
    has_text(&a, &b)
}

/// Whether the string contains the character.
pub fn str_has_char(s: &str, c: char) -> (r: bool)
    ensures
        r == s@.contains(c),
{
    let a: Vec<char> = chars_of(s);
    has_char(&a, c)
}

/// What follows `p` where the text starts with `p`.
pub open spec fn strip_prefix(s: Seq<char>, p: Seq<char>) -> Option<Seq<char>> {
    if starts_with(s, p) {
        Some(s.subrange(p.len() as int, s.len() as int))
    } else {
        None
    }
}

/// What follows `p` where the string starts with `p`.
pub fn str_strip_prefix(s: &str, p: &str) -> (r: Option<String>)
    ensures
        opt_text(r) == strip_prefix(s@, p@),
{
    let a: Vec<char> = chars_of(s);
    let b: Vec<char> = chars_of(p);
    if has_prefix(&a, &b) {
        let rest: Vec<char> = sub_chars(&a, b.len(), a.len());
        Some(string_of(&rest))
    } else {
        None
    }
}

// ---------------------------------------------------------------------------
// Splitting and joining
// ---------------------------------------------------------------------------

/// The pieces of the text between the separators.
pub open spec fn split(s: Seq<char>, sep: char) -> Seq<Seq<char>>
    decreases s.len(),
{
    if s.len() == 0 {
        seq![Seq::empty()]
    } else {
        let before = split(s.drop_last(), sep);
        if s.last() == sep {
            before.push(Seq::empty())
        } else {
            before.update(before.len() - 1, before.last().push(s.last()))
        }
    }
}

/// A split has at least one piece.
pub proof fn lemma_split_nonempty(s: Seq<char>, sep: char)
    ensures
        split(s, sep).len() >= 1,
    decreases s.len(),
{
    if s.len() > 0 {
        lemma_split_nonempty(s.drop_last(), sep);
    }
}

/// The pieces of the text between the separators.
pub fn split_chars(s: &[char], sep: char) -> (r: Vec<Vec<char>>)
    ensures
        views(r@) == split(s@, sep),
{
    let mut parts: Vec<Vec<char>> = Vec::new();
    let mut cur: Vec<char> = Vec::new();
    let mut i: usize = 0;
    proof {
        assert(views(parts@).push(cur@) =~= seq![Seq::<char>::empty()]);
        assert(s@.take(0) =~= Seq::<char>::empty());
    }
    while i < s.len()
        invariant
            i <= s@.len(),
            views(parts@).push(cur@) == split(s@.take(i as int), sep),
        decreases s.len() - i,
    {
        let c: char = s[i];
        let ghost head = s@.take(i as int);
        let ghost before = split(head, sep);
        proof {
            assert(s@.take(i + 1).drop_last() =~= head);
            assert(s@.take(i + 1).last() == c);
            assert(before.last() == cur@);
        }
        let ghost parts0 = parts@;
        let ghost cur0 = cur@;
        if c == sep {
            parts.push(cur);
            cur = Vec::new();
            proof {
                assert(views(parts@) =~= views(parts0).push(cur0));
                assert(views(parts@).push(cur@) =~= before.push(Seq::empty()));
            }
        } else {
            cur.push(c);
            proof {
                assert(views(parts@).push(cur@) =~= before.update(
                    before.len() - 1,
                    before.last().push(c),
                ));
            }
        }
        i += 1;
    }
    let ghost parts0 = parts@;
    let ghost cur0 = cur@;
    parts.push(cur);
    proof {
        assert(s@.take(i as int) =~= s@);
        assert(views(parts@) =~= views(parts0).push(cur0));
    }
    parts
}

/// The pieces joined with the separator between them.
pub open spec fn join(parts: Seq<Seq<char>>, sep: Seq<char>) -> Seq<char>
    decreases parts.len(),
{
    if parts.len() == 0 {
        Seq::empty()
    } else if parts.len() == 1 {
        parts[0]
    } else {
        join(parts.drop_last(), sep) + sep + parts.last()
    }
}

/// The strings joined with the separator between them.
pub fn join_strings(parts: &[String], sep: &str) -> (r: String)
    ensures
        r@ == join(texts(parts@), sep@),
{
    let mut out: String = String::new();
    let mut i: usize = 0;
    while i < parts.len()
        invariant
            i <= parts@.len(),
            out@ == join(texts(parts@).take(i as int), sep@),
        decreases parts.len() - i,
    {
        let ghost whole = texts(parts@);
        if i > 0 {
            out.push_str(sep);
        }
        out.push_str(parts[i].as_str());
        proof {
            assert(whole.take(i + 1).drop_last() =~= whole.take(i as int));
            assert(whole.take(i + 1).last() == parts@[i as int]@);
            if i == 0 {
                assert(whole.take(1)[0] == parts@[0]@);
                assert(Seq::<char>::empty() + parts@[0]@ =~= parts@[0]@);
            }
        }
        i += 1;
    }
    proof {
        assert(texts(parts@).take(i as int) =~= texts(parts@));
    }
    out
}

/// Whether the string is one of the list.
pub fn has_string(list: &[String], s: &str) -> (r: bool)
    ensures
        r == texts(list@).contains(s@),
{
    let mut i: usize = 0;
    while i < list.len()
        invariant
            i <= list@.len(),
            forall|k: int| 0 <= k < i ==> #[trigger] texts(list@)[k] != s@,
        decreases list.len() - i,
    {
        if same(list[i].as_str(), s) {
            assert(texts(list@)[i as int] == s@);
            return true;
        }
        i += 1;
    }
    false
}

/// The non-empty trimmed pieces of a comma-separated list, in order.
pub open spec fn listed(parts: Seq<Seq<char>>) -> Seq<Seq<char>>
    decreases parts.len(),
{
    if parts.len() == 0 {
        Seq::empty()
    } else {
        let before = listed(parts.drop_last());
        let item = trim(parts.last());
        if item.len() == 0 {
            before
        } else {
            before.push(item)
        }
    }
}

/// The entries of a comma-separated list: trimmed, the empty ones left out.
pub open spec fn comma_list(s: Seq<char>) -> Seq<Seq<char>> {
    listed(split(s, ','))
}

/// Whether the character does not occur in the text.
pub open spec fn lacks(s: Seq<char>, c: char) -> bool {
    forall|i: int| 0 <= i < s.len() ==> #[trigger] s[i] != c
}

/// Trimming adds no character.
pub proof fn lemma_trim_lacks(s: Seq<char>, cut: Cut, c: char)
    requires
        lacks(s, c),
    ensures
        lacks(trim_by(s, cut), c),
{
    lemma_trim_start_lacks(s, cut, c);
    lemma_trim_end_lacks(trim_start_by(s, cut), cut, c);
}

proof fn lemma_trim_start_lacks(s: Seq<char>, cut: Cut, c: char)
    requires
        lacks(s, c),
    ensures
        lacks(trim_start_by(s, cut), c),
    decreases s.len(),
{
    if s.len() > 0 && cut.cuts(s[0]) {
        assert forall|i: int| 0 <= i < s.drop_first().len() implies #[trigger] s.drop_first()[i]
            != c by {
            assert(s.drop_first()[i] == s[i + 1]);
        }
        lemma_trim_start_lacks(s.drop_first(), cut, c);
    }
}

proof fn lemma_trim_end_lacks(s: Seq<char>, cut: Cut, c: char)
    requires
        lacks(s, c),
    ensures
        lacks(trim_end_by(s, cut), c),
    decreases s.len(),
{
    if s.len() > 0 && cut.cuts(s.last()) {
        assert forall|i: int| 0 <= i < s.drop_last().len() implies #[trigger] s.drop_last()[i]
            != c by {
            assert(s.drop_last()[i] == s[i]);
        }
        lemma_trim_end_lacks(s.drop_last(), cut, c);
    }
}

proof fn lemma_split_lacks(s: Seq<char>, sep: char, c: char)
    requires
        lacks(s, c),
    ensures
        forall|k: int| 0 <= k < split(s, sep).len() ==> lacks(#[trigger] split(s, sep)[k], c),
    decreases s.len(),
{
    if s.len() > 0 {
        let head = s.drop_last();
        assert forall|i: int| 0 <= i < head.len() implies #[trigger] head[i] != c by {
            assert(head[i] == s[i]);
        }
        lemma_split_lacks(head, sep, c);
        lemma_split_nonempty(head, sep);
        let before = split(head, sep);
        assert(s[s.len() - 1] != c);
        assert forall|k: int| 0 <= k < split(s, sep).len() implies lacks(
            #[trigger] split(s, sep)[k],
            c,
        ) by {
            if k < before.len() {
                assert(lacks(before[k], c));
            }
            if s.last() != sep && k == before.len() - 1 {
                let piece = before.last().push(s.last());
                assert(lacks(before.last(), c));
                assert(lacks(piece, c));
            }
        }
    }
}

proof fn lemma_listed_lacks(parts: Seq<Seq<char>>, c: char)
    requires
        forall|k: int| 0 <= k < parts.len() ==> lacks(#[trigger] parts[k], c),
    ensures
        forall|k: int| 0 <= k < listed(parts).len() ==> lacks(#[trigger] listed(parts)[k], c),
    decreases parts.len(),
{
    if parts.len() > 0 {
        let head = parts.drop_last();
        assert forall|k: int| 0 <= k < head.len() implies lacks(#[trigger] head[k], c) by {
            assert(head[k] == parts[k]);
        }
        lemma_listed_lacks(head, c);
        assert(lacks(parts[parts.len() - 1], c));
        lemma_trim_lacks(parts.last(), Cut::Whitespace, c);
        assert forall|k: int| 0 <= k < listed(parts).len() implies lacks(
            #[trigger] listed(parts)[k],
            c,
        ) by {
            if k < listed(head).len() {
                assert(listed(parts)[k] == listed(head)[k]);
            }
        }
    }
}

/// The entries of a list hold no character that the list does not hold.
pub proof fn lemma_comma_list_lacks(s: Seq<char>, c: char)
    requires
        lacks(s, c),
    ensures
        forall|k: int| 0 <= k < comma_list(s).len() ==> lacks(#[trigger] comma_list(s)[k], c),
{
    lemma_split_lacks(s, ',', c);
    lemma_listed_lacks(split(s, ','), c);
}

/// The entries of a comma-separated list: trimmed, the empty ones left out.
pub fn parse_comma_list(s: &str) -> (r: Vec<String>)
    ensures
        texts(r@) == comma_list(s@),
{
    let v: Vec<char> = chars_of(s);
    let parts: Vec<Vec<char>> = split_chars(&v, ',');
    let mut out: Vec<String> = Vec::new();
    let mut i: usize = 0;
    proof {
        assert(texts(out@) =~= listed(views(parts@).take(0)));
    }
    while i < parts.len()
        invariant
            i <= parts@.len(),
            texts(out@) == listed(views(parts@).take(i as int)),
        decreases parts.len() - i,
    {
        let item: Vec<char> = trim_chars(&parts[i], Cut::Whitespace);
        let ghost out0 = out@;
        proof {
            assert(views(parts@).take(i + 1).drop_last() =~= views(parts@).take(i as int));
            assert(views(parts@).take(i + 1).last() == parts@[i as int]@);
        }
        if item.len() > 0 {
            out.push(string_of(&item));
            proof {
                assert(texts(out@) =~= texts(out0).push(item@));
            }
        }
        i += 1;
    }
    proof {
        assert(views(parts@).take(i as int) =~= views(parts@));
    }
    out
}

// ---------------------------------------------------------------------------
// Cutting to a length
// ---------------------------------------------------------------------------

/// The first `n` characters, or all of them where there are fewer.
pub open spec fn take_chars(s: Seq<char>, n: int) -> Seq<char> {
    if s.len() <= n {
        s
    } else {
        s.subrange(0, n)
    }
}

/// The text, or its first `n` characters and `mark` where it is longer.
pub open spec fn clipped(s: Seq<char>, n: int, mark: Seq<char>) -> Seq<char> {
    if s.len() <= n {
        s
    } else {
        s.subrange(0, n) + mark
    }
}

/// The first `n` characters of the string.
pub fn first_chars(s: &str, n: usize) -> (r: String)
    ensures
        r@ == take_chars(s@, n as int),
{
    let v: Vec<char> = chars_of(s);
    if v.len() <= n {
        string_of(&v)
    } else {
        let head: Vec<char> = sub_chars(&v, 0, n);
        string_of(&head)
    }
}

/// The string, or its first `n` characters and `mark` where it is longer.
pub fn clip(s: &str, n: usize, mark: &str) -> (r: String)
    ensures
        r@ == clipped(s@, n as int, mark@),
{
    let v: Vec<char> = chars_of(s);
    if v.len() <= n {
        string_of(&v)
    } else {
        let head: Vec<char> = sub_chars(&v, 0, n);
        let mut out: String = string_of(&head);
        out.push_str(mark);
        out
    }
}

// ---------------------------------------------------------------------------
// Numbers
// ---------------------------------------------------------------------------

/// The decimal digit `d`.
pub open spec fn digit(d: nat) -> char {
    ((48 + d) as u8) as char
}

/// The number in decimal, without leading zeros.
pub open spec fn decimal(n: nat) -> Seq<char>
    decreases n,
{
    if n < 10 {
        seq![digit(n)]
    } else {
        decimal(n / 10).push(digit(n % 10))
    }
}

/// The integer in decimal, with a minus sign where it is negative.
pub open spec fn decimal_int(n: int) -> Seq<char> {
    if n < 0 {
        seq!['-'] + decimal((-n) as nat)
    } else {
        decimal(n as nat)
    }
}

fn push_decimal(n: u128, out: &mut String)
    ensures
        final(out)@ == old(out)@ + decimal(n as nat),
    decreases n,
{
    if n >= 10 {
        push_decimal(n / 10, out);
    }
    let d: u8 = (n % 10) as u8;
    let c: char = (48 + d) as char;
    proof {
        assert(c == digit((n % 10) as nat));
        if n < 10 {
            assert(old(out)@.push(c) =~= old(out)@ + seq![c]);
        } else {
            assert((old(out)@ + decimal((n / 10) as nat)).push(c) =~= old(out)@ + decimal(
                (n / 10) as nat,
            ).push(c));
        }
    }
    out.push(c);
}

/// The number in decimal.
pub fn decimal_text(n: u64) -> (r: String)
    ensures
        r@ == decimal(n as nat),
{
    let mut out: String = String::new();
    push_decimal(n as u128, &mut out);
    assert(Seq::<char>::empty() + decimal(n as nat) =~= decimal(n as nat));
    out
}

/// The number in decimal.
pub fn decimal_wide(n: u128) -> (r: String)
    ensures
        r@ == decimal(n as nat),
{
    let mut out: String = String::new();
    push_decimal(n, &mut out);
    assert(Seq::<char>::empty() + decimal(n as nat) =~= decimal(n as nat));
    out
}

/// The integer in decimal.
pub fn decimal_int_text(n: i64) -> (r: String)
    ensures
        r@ == decimal_int(n as int),
{
    let mut out: String = String::new();
    if n < 0 {
        out.push('-');
        let m: u64 = if n == i64::MIN {
            9223372036854775808u64
        } else {
            (-n) as u64
        };
        push_decimal(m as u128, &mut out);
        assert(Seq::<char>::empty().push('-') =~= seq!['-']);
    } else {
        push_decimal(n as u128, &mut out);
        assert(Seq::<char>::empty() + decimal(n as nat) =~= decimal(n as nat));
    }
    out
}

/// The value of decimal digits.
pub open spec fn digits_value(s: Seq<char>) -> int
    decreases s.len(),
{
    if s.len() == 0 {
        0
    } else {
        digits_value(s.drop_last()) * 10 + (s.last() as int - '0' as int)
    }
}

/// Whether the text is made of decimal digits, at least one.
pub open spec fn all_digits(s: Seq<char>) -> bool {
    s.len() > 0 && forall|i: int| 0 <= i < s.len() ==> ascii_digit(#[trigger] s[i])
}

/// The whole number that a text gives: digits, with a sign in front or without.
pub open spec fn int_value(s: Seq<char>) -> Option<int> {
    let signed = s.len() > 0 && (s[0] == '-' || s[0] == '+');
    let digits = if signed {
        s.skip(1)
    } else {
        s
    };
    if !all_digits(digits) {
        None
    } else if signed && s[0] == '-' {
        Some(-digits_value(digits))
    } else {
        Some(digits_value(digits))
    }
}

/// The number, where it is in the range of `i64`.
pub open spec fn in_i64(v: Option<int>) -> Option<i64> {
    match v {
        Some(n) => if i64::MIN <= n <= i64::MAX {
            Some(n as i64)
        } else {
            None
        },
        None => None,
    }
}

proof fn lemma_digits_grow(s: Seq<char>, n: int)
    requires
        0 <= n <= s.len(),
        forall|i: int| 0 <= i < s.len() ==> ascii_digit(#[trigger] s[i]),
    ensures
        0 <= digits_value(s.take(n)) <= digits_value(s),
    decreases s.len(),
{
    let head = s.drop_last();
    if s.len() > 0 {
        assert forall|i: int| 0 <= i < head.len() implies ascii_digit(#[trigger] head[i]) by {
            assert(head[i] == s[i]);
        }
        assert(ascii_digit(s[s.len() - 1]));
    }
    if n == s.len() {
        assert(s.take(n) =~= s);
        if n > 0 {
            lemma_digits_grow(head, n - 1);
        }
    } else {
        lemma_digits_grow(head, n);
        assert(head.take(n) =~= s.take(n));
    }
}

/// The whole number that a text gives, where it is in the range of `i64`.
pub fn parse_i64(s: &str) -> (r: Option<i64>)
    ensures
        r == in_i64(int_value(s@)),
{
    let v: Vec<char> = chars_of(s);
    let signed: bool = v.len() > 0 && (v[0] == '-' || v[0] == '+');
    let from: usize = if signed {
        1
    } else {
        0
    };
    let ghost digits = s@.skip(from as int);
    assert(!signed ==> digits =~= s@);
    if v.len() == from {
        return None;
    }
    let mut i: usize = from;
    let mut value: i128 = 0;
    assert(digits.take(0) =~= Seq::<char>::empty());
    while i < v.len()
        invariant
            from <= i <= v@.len(),
            v@ == s@,
            signed == (s@.len() > 0 && (s@[0] == '-' || s@[0] == '+')),
            digits == (if signed {
                s@.skip(1)
            } else {
                s@
            }),
            digits == s@.skip(from as int),
            digits.len() == v@.len() - from,
            forall|k: int| 0 <= k < i - from ==> ascii_digit(#[trigger] digits[k]),
            0 <= value <= 0x1_0000_0000_0000_0000,
            digits_value(digits.take(i - from)) <= 0x8000_0000_0000_0000 ==> value
                == digits_value(digits.take(i - from)),
            digits_value(digits.take(i - from)) > 0x8000_0000_0000_0000 ==> value
                > 0x8000_0000_0000_0000,
        decreases v.len() - i,
    {
        let c: char = v[i];
        assert(digits[i - from] == c);
        if c < '0' || c > '9' {
            assert(!ascii_digit(digits[i - from]));
            assert(!all_digits(digits));
            return None;
        }
        let ghost upto = digits.take(i - from + 1);
        assert(upto.drop_last() =~= digits.take(i - from));
        assert(upto.last() == c);
        proof {
            let done = digits.take(i - from);
            assert forall|k: int| 0 <= k < done.len() implies ascii_digit(#[trigger] done[k]) by {
                assert(done[k] == digits[k]);
            }
            lemma_digits_grow(done, 0);
        }
        if value <= 0x8000_0000_0000_0000 {
            value = value * 10 + (c as u32 - '0' as u32) as i128;
            if value > 0x1_0000_0000_0000_0000 {
                value = 0x1_0000_0000_0000_0000;
            }
        }
        i += 1;
    }
    assert(digits.take(i - from) =~= digits);
    assert(all_digits(digits));
    if signed && v[0] == '-' {
        if value > 0x8000_0000_0000_0000 {
            None
        } else {
            Some((-value) as i64)
        }
    } else {
        if value > 0x7fff_ffff_ffff_ffff {
            None
        } else {
            Some(value as i64)
        }
    }
}

/// Splitting loses nothing: the pieces, joined by the separator, are the text again, and none of
/// them holds the separator.
pub proof fn law_split_pieces_join_again(s: Seq<char>, sep: char)
    ensures
        split(s, sep).len() > 0,
        join(split(s, sep), seq![sep]) == s,
        forall|i: int| 0 <= i < split(s, sep).len() ==> lacks(#[trigger] split(s, sep)[i], sep),
    decreases s.len(),
{
    let mark = seq![sep];
    if s.len() > 0 {
        law_split_pieces_join_again(s.drop_last(), sep);
        let before = split(s.drop_last(), sep);
        let all = split(s, sep);
        if s.last() == sep {
            assert(all.drop_last() =~= before);
            assert(join(all, mark) =~= s);
        } else {
            assert(all.drop_last() =~= before.drop_last());
            assert(join(all, mark) =~= join(before, mark).push(s.last()));
            assert(join(all, mark) =~= s);
        }
    }
}

/// A number in decimal is made of digits, reads back as the number, and has no zero in front.
pub proof fn law_decimals_read_back(n: nat)
    ensures
        all_digits(decimal(n)),
        digits_value(decimal(n)) == n,
        int_value(decimal(n)) == Some(n as int),
        n > 0 ==> decimal(n)[0] != '0',
    decreases n,
{
    let s = decimal(n);
    if n >= 10 {
        law_decimals_read_back(n / 10);
        assert(s.drop_last() =~= decimal(n / 10));
        assert(s[0] == decimal(n / 10)[0]);
    } else {
        assert(s.drop_last() =~= Seq::<char>::empty());
        assert(digits_value(s.drop_last()) == 0);
    }
    assert(ascii_digit(s[0]));
}

proof fn lemma_listed_joined(a: Seq<Seq<char>>, b: Seq<Seq<char>>)
    ensures
        listed(a + b) == listed(a) + listed(b),
    decreases b.len(),
{
    if b.len() == 0 {
        assert(a + b =~= a);
        assert(listed(a) + listed(b) =~= listed(a));
    } else {
        lemma_listed_joined(a, b.drop_last());
        assert((a + b).drop_last() =~= a + b.drop_last());
        assert(listed(a + b) =~= listed(a) + listed(b));
    }
}

/// A text is split at each separator: the pieces of two texts with a separator between them are
/// those of the first and then those of the second.
pub proof fn law_split_parts_stay(a: Seq<char>, sep: char, b: Seq<char>)
    ensures
        split(a + seq![sep] + b, sep) == split(a, sep) + split(b, sep),
    decreases b.len(),
{
    let s = a + seq![sep] + b;
    law_split_pieces_join_again(b, sep);
    if b.len() == 0 {
        assert(s.drop_last() =~= a);
        assert(split(s, sep) =~= split(a, sep) + split(b, sep));
    } else {
        law_split_parts_stay(a, sep, b.drop_last());
        law_split_pieces_join_again(b.drop_last(), sep);
        assert(s.drop_last() =~= a + seq![sep] + b.drop_last());
        assert(s.last() == b.last());
        assert(split(s, sep) =~= split(a, sep) + split(b, sep));
    }
}

/// A comma-separated list holds what stands on either side of each comma, in order, without the
/// blanks around it; what is blank is left out.
pub proof fn law_lists_are_read_at_their_commas(a: Seq<char>, b: Seq<char>)
    ensures
        comma_list(a + seq![','] + b) == comma_list(a) + comma_list(b),
        lacks(a, ',') && trim(a).len() > 0 ==> comma_list(a) == seq![trim(a)],
        lacks(a, ',') && trim(a).len() == 0 ==> comma_list(a).len() == 0,
{
    law_split_parts_stay(a, ',', b);
    lemma_listed_joined(split(a, ','), split(b, ','));
    if lacks(a, ',') {
        lemma_one_piece(a, ',');
        let parts = seq![a];
        assert(parts.drop_last() =~= Seq::<Seq<char>>::empty());
        assert(comma_list(a) == listed(parts));
        assert(listed(parts.drop_last()) =~= Seq::<Seq<char>>::empty());
        if trim(a).len() > 0 {
            assert(comma_list(a) =~= seq![trim(a)]);
        }
    }
}

/// A text without the separator is one piece.
pub proof fn lemma_one_piece(s: Seq<char>, sep: char)
    requires
        lacks(s, sep),
    ensures
        split(s, sep) == seq![s],
    decreases s.len(),
{
    if s.len() > 0 {
        assert forall|i: int| 0 <= i < s.drop_last().len() implies #[trigger] s.drop_last()[i]
            != sep by {
            assert(s.drop_last()[i] == s[i]);
        }
        lemma_one_piece(s.drop_last(), sep);
        assert(s[s.len() - 1] != sep);
        assert(s.drop_last().push(s.last()) =~= s);
        assert(split(s, sep) =~= seq![s]);
    } else {
        assert(s =~= Seq::<char>::empty());
    }
}

/// A text that is long is cut to its first characters, with the mark behind them; a short one
/// stays as it is.
pub proof fn law_long_texts_are_clipped(s: Seq<char>, n: nat, mark: Seq<char>)
    ensures
        s.len() <= n ==> clipped(s, n as int, mark) == s && take_chars(s, n as int) == s,
        s.len() > n ==> take_chars(s, n as int).len() == n && starts_with(s, take_chars(s, n as int))
            && clipped(s, n as int, mark) == take_chars(s, n as int) + mark,
{
}

/// Lowering changes the letters from `A` to `Z` into those from `a` to `z` and nothing else, and
/// keeps the length.
pub proof fn law_lowering_changes_capitals_alone(s: Seq<char>, i: int)
    requires
        0 <= i < s.len(),
    ensures
        lower_ascii(s).len() == s.len(),
        'A' <= s[i] <= 'Z' ==> lower_ascii(s)[i] as int == s[i] as int + 32,
        !('A' <= s[i] <= 'Z') ==> lower_ascii(s)[i] == s[i],
        lower_ascii(lower_ascii(s)) == lower_ascii(s),
        to_ascii_lower('A') == 'a' && to_ascii_lower('Z') == 'z',
{
    assert(lower_ascii(lower_ascii(s)) =~= lower_ascii(s));
}

/// A number is read with its sign, and only from digits; one that is too large is none.
pub proof fn law_numbers_are_read_with_their_sign(n: nat, x: char, rest: Seq<char>)
    requires
        !('0' <= x <= '9'),
        x != '-' && x != '+',
    ensures
        int_value(seq!['-'] + decimal(n)) == Some(-(n as int)),
        int_value(seq!['+'] + decimal(n)) == Some(n as int),
        int_value(seq![x] + rest) is None,
        int_value(Seq::empty()) is None,
        n <= i64::MAX ==> in_i64(Some(n as int)) == Some(n as i64),
        n > i64::MAX ==> in_i64(Some(n as int)) is None,
        in_i64(None) is None,
        decimal_int(-(n as int)) == (if n == 0 {
            decimal(0)
        } else {
            seq!['-'] + decimal(n)
        }),
{
    law_decimals_read_back(n);
    let minus = seq!['-'] + decimal(n);
    assert(minus.skip(1) =~= decimal(n));
    let plus = seq!['+'] + decimal(n);
    assert(plus.skip(1) =~= decimal(n));
    let other = seq![x] + rest;
    assert(other[0] == x);
    assert(!all_digits(other));
}

/// What stands in front of a text is taken off where it is there, and the rest is kept whole.
pub proof fn law_fronts_are_taken_off(front: Seq<char>, rest: Seq<char>, other: Seq<char>)
    ensures
        strip_prefix(front + rest, front) == Some(rest),
        !starts_with(other, front) ==> strip_prefix(other, front) is None,
        starts_with(front + rest, front),
        ends_with(front + rest, rest),
        contains_text(front + rest + other, rest),
{
    let s = front + rest;
    assert(s.subrange(0, front.len() as int) =~= front);
    assert(s.subrange(front.len() as int, s.len() as int) =~= rest);
    assert(s.subrange(s.len() - rest.len(), s.len() as int) =~= rest);
    let t = front + rest + other;
    assert(t.subrange(front.len() as int, (front.len() + rest.len()) as int) =~= rest);
    assert(occurs_at(t, rest, front.len() as int));
}

/// The first and the last place of a character are found: none of it stands before the first, and
/// none behind the last.
pub proof fn law_places_are_the_first_and_the_last(a: Seq<char>, c: char, b: Seq<char>)
    ensures
        lacks(a, c) ==> index_of(a + seq![c] + b, c) == a.len(),
        lacks(b, c) ==> last_index_of(a + seq![c] + b, c) == a.len(),
        lacks(a, c) ==> index_of(a, c) == a.len(),
        lacks(a, c) ==> last_index_of(a, c) == -1,
{
    let s = a + seq![c] + b;
    let n = a.len() as int;
    assert(s[n] == c);
    if lacks(a, c) {
        lemma_index_of(s, c);
        assert(s.contains(c));
        if index_of(s, c) < n {
            assert(a[index_of(s, c)] == c);
        }
        lemma_index_of(a, c);
        if a.contains(c) {
            let k = choose|k: int| 0 <= k < a.len() && a[k] == c;
            assert(a[k] != c);
        }
        lemma_last_is_none(a, c);
    }
    if lacks(b, c) {
        lemma_last_is_there(a, c, b);
    }
}

proof fn lemma_last_is_none(s: Seq<char>, c: char)
    requires
        lacks(s, c),
    ensures
        last_index_of(s, c) == -1,
    decreases s.len(),
{
    if s.len() > 0 {
        assert(s[s.len() - 1] != c);
        assert forall|i: int| 0 <= i < s.drop_last().len() implies #[trigger] s.drop_last()[i]
            != c by {
            assert(s.drop_last()[i] == s[i]);
        }
        lemma_last_is_none(s.drop_last(), c);
    }
}

proof fn lemma_last_is_there(a: Seq<char>, c: char, b: Seq<char>)
    requires
        lacks(b, c),
    ensures
        last_index_of(a + seq![c] + b, c) == a.len(),
    decreases b.len(),
{
    let s = a + seq![c] + b;
    if b.len() > 0 {
        assert(b[b.len() - 1] != c);
        assert(s.last() == b.last());
        assert forall|i: int| 0 <= i < b.drop_last().len() implies #[trigger] b.drop_last()[i]
            != c by {
            assert(b.drop_last()[i] == b[i]);
        }
        lemma_last_is_there(a, c, b.drop_last());
        assert(s.drop_last() =~= a + seq![c] + b.drop_last());
    } else {
        assert(s.last() == c);
    }
}

} // verus!
