//! JSON values, and their text as `serde_json` reads and writes it.

use crate::text::{in_i64, int_value, parse_i64, same, texts};
use vstd::prelude::*;

verus! {

/// A JSON value. An object's entries stand in the order of its keys.
pub enum Json {
    Null,
    Bool(bool),
    /// A whole number, in its own notation.
    Number(String),
    /// A number with a fraction or an exponent, in its own notation.
    Float(String),
    Text(String),
    Array(Vec<Json>),
    Object(Vec<(String, Json)>),
}

/// The content of a JSON value.
pub enum JsonV {
    Null,
    Bool(bool),
    Number(Seq<char>),
    Float(Seq<char>),
    Text(Seq<char>),
    Array(Seq<JsonV>),
    Object(Seq<(Seq<char>, JsonV)>),
}

/// The content of a value.
pub open spec fn content(j: Json) -> JsonV
    decreases j,
{
    match j {
        Json::Null => JsonV::Null,
        Json::Bool(b) => JsonV::Bool(b),
        Json::Number(n) => JsonV::Number(n@),
        Json::Float(n) => JsonV::Float(n@),
        Json::Text(t) => JsonV::Text(t@),
        Json::Array(items) => JsonV::Array(
            Seq::new(
                items@.len(),
                |i: int|
                    if 0 <= i < items@.len() {
                        content(items@[i])
                    } else {
                        JsonV::Null
                    },
            ),
        ),
        Json::Object(entries) => JsonV::Object(
            Seq::new(
                entries@.len(),
                |i: int|
                    if 0 <= i < entries@.len() {
                        (entries@[i].0@, content(entries@[i].1))
                    } else {
                        (Seq::empty(), JsonV::Null)
                    },
            ),
        ),
    }
}

impl View for Json {
    type V = JsonV;

    open spec fn view(&self) -> JsonV {
        content(*self)
    }
}

/// The contents of several values.
pub open spec fn contents(v: Seq<Json>) -> Seq<JsonV> {
    Seq::new(v.len(), |i: int| v[i]@)
}

/// The contents of an object's entries.
pub open spec fn entry_contents(v: Seq<(String, Json)>) -> Seq<(Seq<char>, JsonV)> {
    Seq::new(v.len(), |i: int| (v[i].0@, v[i].1@))
}

/// An array holds the contents of its items, an object those of its entries.
pub proof fn lemma_view(j: Json)
    ensures
        j matches Json::Array(items) ==> j@ == JsonV::Array(contents(items@)),
        j matches Json::Object(entries) ==> j@ == JsonV::Object(entry_contents(entries@)),
{
    match j {
        Json::Array(items) => {
            assert(j@->Array_0 =~= contents(items@));
        },
        Json::Object(entries) => {
            let left = j@->Object_0;
            let right = entry_contents(entries@);
            assert forall|i: int| 0 <= i < left.len() implies left[i] == right[i] by {
                reveal_with_fuel(content, 2);
                assert(left[i].0 == right[i].0);
                assert(left[i].1 == right[i].1);
            }
            assert(left =~= right);
        },
        _ => {},
    }
}

/// The object with these entries.
pub fn object(entries: Vec<(String, Json)>) -> (r: Json)
    ensures
        r@ == JsonV::Object(entry_contents(entries@)),
{
    let r: Json = Json::Object(entries);
    proof {
        lemma_view(r);
    }
    r
}

/// An entry that holds a string.
pub fn text_entry(key: &str, value: &str) -> (r: (String, Json))
    ensures
        r.0@ == key@,
        r.1@ == JsonV::Text(value@),
{
    (key.to_owned(), Json::Text(value.to_owned()))
}

/// `serde_json::Value`.
#[verifier::external_type_specification]
#[verifier::external_body]
pub struct ExValue(serde_json::Value);

/// `serde_json::Error`.
#[verifier::external_type_specification]
#[verifier::external_body]
pub struct ExError(serde_json::Error);

/// What a `serde_json` value holds.
pub uninterp spec fn value_content(v: serde_json::Value) -> JsonV;

/// What `serde_json` makes of a text.
pub uninterp spec fn json_from_str(text: Seq<char>) -> Result<
    serde_json::Value,
    serde_json::Error,
>;

/// The message of a `serde_json` error.
pub uninterp spec fn error_text(e: serde_json::Error) -> Seq<char>;

/// The `serde_json` value with this content.
pub uninterp spec fn value_from(j: JsonV) -> serde_json::Value;

/// The compact text of a `serde_json` value.
pub uninterp spec fn value_compact(v: serde_json::Value) -> Seq<char>;

/// The indented text of a `serde_json` value.
pub uninterp spec fn value_pretty(v: serde_json::Value) -> Seq<char>;

/// `serde_json::from_str`: what the text parses to, under a name.
#[verifier::external_body]
fn value_of_text(text: &str) -> (r: Result<serde_json::Value, serde_json::Error>)
    ensures
        r == json_from_str(text@),
{
    serde_json::from_str(text)
}

/// Takes a `serde_json::Value` apart, variant by variant: the result holds its content, of which
/// the same value can be built again.
#[verifier::external_body]
fn json_of_value(v: serde_json::Value) -> (r: Json)
    ensures
        r@ == value_content(v),
        value_from(r@) == v,
{
    match v {
        serde_json::Value::Null => Json::Null,
        serde_json::Value::Bool(b) => Json::Bool(b),
        serde_json::Value::Number(n) if n.is_f64() => Json::Float(n.to_string()),
        serde_json::Value::Number(n) => Json::Number(n.to_string()),
        serde_json::Value::String(s) => Json::Text(s),
        serde_json::Value::Array(a) => Json::Array(a.into_iter().map(json_of_value).collect()),
        serde_json::Value::Object(m) => Json::Object(
            m.into_iter().map(|(k, v)| (k, json_of_value(v))).collect(),
        ),
    }
}

/// Builds a `serde_json::Value` of the same content, variant by variant, under a name; a list of
/// strings keeps its content.
#[verifier::external_body]
fn value_of_json(j: &Json) -> (r: serde_json::Value)
    ensures
        r == value_from(j@),
        strings(j@) is Some ==> value_content(r) == j@,
{
    match j {
        Json::Null => serde_json::Value::Null,
        Json::Bool(b) => serde_json::Value::Bool(*b),
        Json::Number(n) => serde_json::from_str(n).unwrap_or_default(),
        Json::Float(n) => n.parse().ok().and_then(serde_json::Number::from_f64).into(),
        Json::Text(s) => serde_json::Value::String(s.clone()),
        Json::Array(a) => serde_json::Value::Array(a.iter().map(value_of_json).collect()),
        Json::Object(m) => serde_json::Value::Object(
            m.iter().map(|(k, v)| (k.clone(), value_of_json(v))).collect(),
        ),
    }
}

/// The `Display` of `serde_json::Error`: its message, under a name.
#[verifier::external_body]
fn error_message(e: serde_json::Error) -> (r: String)
    ensures
        r@ == error_text(e),
{
    e.to_string()
}

/// The `Display` of `serde_json::Value`: its compact text, under a name. The text of a list of
/// strings parses to that list.
#[verifier::external_body]
fn compact_value(v: &serde_json::Value) -> (r: String)
    ensures
        r@ == value_compact(*v),
        strings(value_content(*v)) is Some ==> json_from_str(r@) is Ok && value_content(
            json_from_str(r@)->Ok_0,
        ) == value_content(*v),
{
    v.to_string()
}

/// `serde_json::to_string_pretty` on a `serde_json::Value`, whose keys are all strings and
/// which therefore always has a text: that text, under a name.
#[verifier::external_body]
fn pretty_value(v: &serde_json::Value) -> (r: String)
    ensures
        r@ == value_pretty(*v),
{
    serde_json::to_string_pretty(v).unwrap_or_default()
}

/// What a text parses to: a value, or the message of the error.
pub open spec fn parsed(text: Seq<char>) -> Result<JsonV, Seq<char>> {
    match json_from_str(text) {
        Ok(v) => Ok(value_content(v)),
        Err(e) => Err(error_text(e)),
    }
}

/// The compact text of a value.
pub open spec fn compact_text(j: JsonV) -> Seq<char> {
    value_compact(value_from(j))
}

/// The indented text of a value.
pub open spec fn pretty_text(j: JsonV) -> Seq<char> {
    value_pretty(value_from(j))
}

/// Parses a text. What is parsed is written again as `serde_json` writes it.
pub fn parse_json(text: &str) -> (r: Result<Json, String>)
    ensures
        match r {
            Ok(j) => parsed(text@) == Ok::<JsonV, Seq<char>>(j@) && compact_text(j@)
                == value_compact(json_from_str(text@)->Ok_0) && pretty_text(j@) == value_pretty(
                json_from_str(text@)->Ok_0,
            ),
            Err(m) => parsed(text@) == Err::<JsonV, Seq<char>>(m@),
        },
{
    match value_of_text(text) {
        Ok(v) => Ok(json_of_value(v)),
        Err(e) => Err(error_message(e)),
    }
}

/// The compact text of a value. That of a list of strings parses to the list.
pub fn compact(j: &Json) -> (r: String)
    ensures
        r@ == compact_text(j@),
        strings(j@) is Some ==> parsed(r@) == Ok::<JsonV, Seq<char>>(j@),
{
    let v = value_of_json(j);
    compact_value(&v)
}

/// The indented text of a value.
pub fn pretty(j: &Json) -> (r: String)
    ensures
        r@ == pretty_text(j@),
{
    let v = value_of_json(j);
    pretty_value(&v)
}

/// The value under a key of an object's entries.
pub open spec fn entry(entries: Seq<(Seq<char>, JsonV)>, key: Seq<char>) -> Option<JsonV>
    decreases entries.len(),
{
    if entries.len() == 0 {
        None
    } else if entries[0].0 == key {
        Some(entries[0].1)
    } else {
        entry(entries.drop_first(), key)
    }
}

impl JsonV {
    /// The value under a key, where this is an object that has it.
    pub open spec fn get(self, key: Seq<char>) -> Option<JsonV> {
        match self {
            JsonV::Object(entries) => entry(entries, key),
            _ => None,
        }
    }

    /// The text, where this is a string.
    pub open spec fn text(self) -> Option<Seq<char>> {
        match self {
            JsonV::Text(t) => Some(t),
            _ => None,
        }
    }

    /// The string under a key.
    pub open spec fn text_at(self, key: Seq<char>) -> Option<Seq<char>> {
        match self.get(key) {
            Some(v) => v.text(),
            None => None,
        }
    }
}

impl JsonV {
    /// The whole number under a key, where it is one in the range of `i64`.
    pub open spec fn int_at(self, key: Seq<char>) -> Option<i64> {
        match self.get(key) {
            Some(JsonV::Number(n)) => in_i64(int_value(n)),
            _ => None,
        }
    }

    /// The string under a key, or the other text.
    pub open spec fn text_or(self, key: Seq<char>, other: Seq<char>) -> Seq<char> {
        match self.text_at(key) {
            Some(t) => t,
            None => other,
        }
    }
}

/// The strings of a list, where it is made of strings alone.
pub open spec fn strings(v: JsonV) -> Option<Seq<Seq<char>>> {
    match v {
        JsonV::Array(items) => if forall|i: int| 0 <= i < items.len() ==> #[trigger] items[i] is Text {
            Some(Seq::new(items.len(), |i: int| items[i]->Text_0))
        } else {
            None
        },
        _ => None,
    }
}

/// A value with the same content.
pub fn copied(j: &Json) -> (r: Json)
    ensures
        r@ == j@,
    decreases j,
{
    proof {
        lemma_view(*j);
    }
    match j {
        Json::Null => Json::Null,
        Json::Bool(b) => Json::Bool(*b),
        Json::Number(n) => Json::Number(n.clone()),
        Json::Float(n) => Json::Float(n.clone()),
        Json::Text(t) => Json::Text(t.clone()),
        Json::Array(items) => {
            let mut out: Vec<Json> = Vec::new();
            let mut i: usize = 0;
            while i < items.len()
                invariant
                    i <= items@.len(),
                    *j == Json::Array(*items),
                    out@.len() == i,
                    forall|k: int| 0 <= k < i ==> (#[trigger] out@[k])@ == items@[k]@,
                decreases items.len() - i,
            {
                assert(decreases_to!(*j => j->Array_0));
                assert(decreases_to!(items@ => items@[i as int]));
                out.push(copied(&items[i]));
                i += 1;
            }
            let r: Json = Json::Array(out);
            proof {
                lemma_view(r);
                assert(contents(out@) =~= contents(items@));
            }
            r
        },
        Json::Object(entries) => {
            let mut out: Vec<(String, Json)> = Vec::new();
            let mut i: usize = 0;
            while i < entries.len()
                invariant
                    i <= entries@.len(),
                    *j == Json::Object(*entries),
                    out@.len() == i,
                    forall|k: int|
                        0 <= k < i ==> (#[trigger] out@[k]).0@ == entries@[k].0@ && out@[k].1@
                            == entries@[k].1@,
                decreases entries.len() - i,
            {
                assert(decreases_to!(*j => j->Object_0));
                assert(decreases_to!(entries@ => entries@[i as int]));
                assert(decreases_to!(entries@[i as int] => entries@[i as int].1));
                out.push((entries[i].0.clone(), copied(&entries[i].1)));
                i += 1;
            }
            let r: Json = Json::Object(out);
            proof {
                lemma_view(r);
                assert(entry_contents(out@) =~= entry_contents(entries@));
            }
            r
        },
    }
}

/// The list of these strings.
pub open spec fn string_list(list: Seq<Seq<char>>) -> JsonV {
    JsonV::Array(Seq::new(list.len(), |i: int| JsonV::Text(list[i])))
}

/// The list of these strings.
pub fn json_strings(list: &Vec<String>) -> (r: Json)
    ensures
        r@ == string_list(texts(list@)),
        strings(r@) == Some(texts(list@)),
{
    let mut items: Vec<Json> = Vec::new();
    let mut i: usize = 0;
    while i < list.len()
        invariant
            i <= list@.len(),
            items@.len() == i,
            forall|k: int| 0 <= k < i ==> (#[trigger] items@[k])@ == JsonV::Text(list@[k]@),
        decreases list.len() - i,
    {
        items.push(Json::Text(list[i].clone()));
        i += 1;
    }
    let r: Json = Json::Array(items);
    proof {
        lemma_view(r);
        assert(contents(items@) =~= string_list(texts(list@))->Array_0);
        assert(strings(r@)->Some_0 =~= texts(list@));
    }
    r
}

impl Json {
    /// The whole number under a key, where it is one in the range of `i64`.
    pub fn int_at(&self, key: &str) -> (r: Option<i64>)
        ensures
            r == self@.int_at(key@),
    {
        match self.get(key) {
            Some(Json::Number(n)) => parse_i64(n.as_str()),
            _ => None,
        }
    }

    /// The string under a key, or the other text.
    pub fn text_or(&self, key: &str, other: &str) -> (r: String)
        ensures
            r@ == self@.text_or(key@, other@),
    {
        match self.text_at(key) {
            Some(t) => t.to_owned(),
            None => other.to_owned(),
        }
    }

    /// The strings of a list, where it is made of strings alone.
    pub fn as_strings(&self) -> (r: Option<Vec<String>>)
        ensures
            match r {
                Some(v) => strings(self@) == Some(texts(v@)),
                None => strings(self@) is None,
            },
    {
        proof {
            lemma_view(*self);
        }
        let items: &Vec<Json> = match self {
            Json::Array(items) => items,
            _ => {
                return None;
            },
        };
        let ghost all = contents(items@);
        let mut out: Vec<String> = Vec::new();
        let mut i: usize = 0;
        while i < items.len()
            invariant
                i <= items@.len(),
                self@ == JsonV::Array(all),
                all == contents(items@),
                out@.len() == i,
                forall|k: int| 0 <= k < i ==> #[trigger] all[k] == JsonV::Text(out@[k]@),
            decreases items.len() - i,
        {
            assert(all[i as int] == items@[i as int]@);
            match &items[i] {
                Json::Text(t) => {
                    out.push(t.clone());
                },
                _ => {
                    assert(!(all[i as int] is Text));
                    return None;
                },
            }
            i += 1;
        }
        assert(texts(out@) =~= Seq::new(all.len(), |i: int| all[i]->Text_0));
        Some(out)
    }

    /// The value under a key, where this is an object that has it.
    pub fn get(&self, key: &str) -> (r: Option<&Json>)
        ensures
            match r {
                Some(v) => self@.get(key@) == Some(v@),
                None => self@.get(key@) is None,
            },
    {
        proof {
            lemma_view(*self);
        }
        match self {
            Json::Object(entries) => {
                let ghost all = entry_contents(entries@);
                let mut i: usize = 0;
                assert(all.skip(0) =~= all);
                while i < entries.len()
                    invariant
                        i <= entries@.len(),
                        all == entry_contents(entries@),
                        self@ == JsonV::Object(all),
                        entry(all.skip(i as int), key@) == entry(all, key@),
                    decreases entries.len() - i,
                {
                    assert(all.skip(i as int)[0] == all[i as int]);
                    assert(all.skip(i as int).drop_first() =~= all.skip(i + 1));
                    if same(entries[i].0.as_str(), key) {
                        return Some(&entries[i].1);
                    }
                    i += 1;
                }
                None
            },
            _ => None,
        }
    }

    /// The string under a key.
    pub fn text_at(&self, key: &str) -> (r: Option<&str>)
        ensures
            match r {
                Some(t) => self@.text_at(key@) == Some(t@),
                None => self@.text_at(key@) is None,
            },
    {
        match self.get(key) {
            Some(Json::Text(t)) => Some(t.as_str()),
            _ => None,
        }
    }
}

/// A key of an object gives the value of its first entry, and nothing where no entry has it.
pub proof fn law_keys_give_their_value(entries: Seq<(Seq<char>, JsonV)>, key: Seq<char>, at: int)
    requires
        0 <= at <= entries.len(),
        at < entries.len() ==> entries[at].0 == key,
        forall|k: int| 0 <= k < at ==> (#[trigger] entries[k]).0 != key,
    ensures
        at < entries.len() ==> JsonV::Object(entries).get(key) == Some(entries[at].1),
        at == entries.len() ==> JsonV::Object(entries).get(key) is None,
    decreases entries.len(),
{
    if entries.len() > 0 && at > 0 {
        assert(entries[0].0 != key);
        let rest = entries.drop_first();
        assert forall|k: int| 0 <= k < at - 1 implies (#[trigger] rest[k]).0 != key by {
            assert(rest[k] == entries[k + 1]);
        }
        law_keys_give_their_value(rest, key, at - 1);
    }
}

/// What is no object has no keys, a value that is no string is no text, and a list that was made
/// of strings is read as those strings.
pub proof fn law_values_are_read_as_what_they_are(v: JsonV, key: Seq<char>, list: Seq<Seq<char>>)
    ensures
        !(v is Object) ==> v.get(key) is None,
        v.get(key) matches Some(JsonV::Text(t)) ==> v.text_at(key) == Some(t),
        v.get(key) is Some && !(v.get(key)->0 is Text) ==> v.text_at(key) is None,
        v.text_at(key) is None ==> v.text_or(key, list[0]) == list[0],
        strings(string_list(list)) == Some(list),
        !(v is Array) ==> strings(v) is None,
{
    let made = string_list(list);
    assert(strings(made) is Some);
    assert(strings(made)->0 =~= list);
}

} // verus!
