//! YAML values, and their text as `serde_yaml` reads and writes it.

use crate::text::same;
use vstd::prelude::*;

verus! {

/// A YAML value, as far as the rules look into one.
pub enum Yaml {
    /// An integer that fits 64 bits with a sign.
    Int(i64),
    Text(String),
    /// The entries of a mapping, in their order.
    Mapping(Vec<(Yaml, Yaml)>),
    /// A value with a tag.
    Tagged(Box<Yaml>),
    /// Every other value.
    Other,
}

/// The content of a YAML value.
pub enum YamlV {
    Int(i64),
    Text(Seq<char>),
    Mapping(Seq<(YamlV, YamlV)>),
    Tagged(Box<YamlV>),
    Other,
}

/// The content of a value.
pub open spec fn yaml_view(y: Yaml) -> YamlV
    decreases y,
{
    match y {
        Yaml::Int(n) => YamlV::Int(n),
        Yaml::Text(t) => YamlV::Text(t@),
        Yaml::Mapping(entries) => YamlV::Mapping(
            Seq::new(
                entries@.len(),
                |i: int|
                    if 0 <= i < entries@.len() {
                        (yaml_view(entries@[i].0), yaml_view(entries@[i].1))
                    } else {
                        (YamlV::Other, YamlV::Other)
                    },
            ),
        ),
        Yaml::Tagged(inner) => YamlV::Tagged(Box::new(yaml_view(*inner))),
        Yaml::Other => YamlV::Other,
    }
}

impl View for Yaml {
    type V = YamlV;

    open spec fn view(&self) -> YamlV {
        yaml_view(*self)
    }
}

/// The contents of a mapping's entries.
pub open spec fn pairs(v: Seq<(Yaml, Yaml)>) -> Seq<(YamlV, YamlV)> {
    Seq::new(v.len(), |i: int| (v[i].0@, v[i].1@))
}

/// A mapping holds the contents of its entries.
pub proof fn lemma_view(y: Yaml)
    ensures
        y matches Yaml::Mapping(entries) ==> y@ == YamlV::Mapping(pairs(entries@)),
{
    match y {
        Yaml::Mapping(entries) => {
            let left = y@->Mapping_0;
            let right = pairs(entries@);
            assert forall|i: int| 0 <= i < left.len() implies left[i] == right[i] by {
                reveal_with_fuel(yaml_view, 2);
                assert(left[i].0 == right[i].0);
                assert(left[i].1 == right[i].1);
            }
            assert(left =~= right);
        },
        _ => {},
    }
}

/// `serde_yaml::Value`.
#[verifier::external_type_specification]
#[verifier::external_body]
pub struct ExYamlValue(serde_yaml::Value);

/// `serde_yaml::Error`.
#[verifier::external_type_specification]
#[verifier::external_body]
pub struct ExYamlError(serde_yaml::Error);

/// What a `serde_yaml` value holds.
pub uninterp spec fn yaml_content(v: serde_yaml::Value) -> YamlV;

/// What `serde_yaml` makes of a text.
pub uninterp spec fn yaml_from_str(text: Seq<char>) -> Result<
    serde_yaml::Value,
    serde_yaml::Error,
>;

/// The message of a `serde_yaml` error.
pub uninterp spec fn yaml_error_text(e: serde_yaml::Error) -> Seq<char>;

/// `serde_yaml::from_str`: what the text parses to, under a name.
#[verifier::external_body]
fn yaml_of_text(text: &str) -> (r: Result<serde_yaml::Value, serde_yaml::Error>)
    ensures
        r == yaml_from_str(text@),
{
    serde_yaml::from_str(text)
}

/// Takes a `serde_yaml::Value` apart, variant by variant: the result holds its content. An
/// integer counts as one where `as_i64` gives it.
#[verifier::external_body]
fn yaml_of_value(v: serde_yaml::Value) -> (r: Yaml)
    ensures
        r@ == yaml_content(v),
{
    match v {
        serde_yaml::Value::Number(n) => n.as_i64().map_or(Yaml::Other, Yaml::Int),
        serde_yaml::Value::String(s) => Yaml::Text(s),
        serde_yaml::Value::Mapping(m) => Yaml::Mapping(
            m.into_iter().map(|(k, v)| (yaml_of_value(k), yaml_of_value(v))).collect(),
        ),
        serde_yaml::Value::Tagged(t) => Yaml::Tagged(Box::new(yaml_of_value(t.value))),
        _ => Yaml::Other,
    }
}

/// The `Display` of `serde_yaml::Error`: its message, under a name.
#[verifier::external_body]
fn yaml_error_message(e: serde_yaml::Error) -> (r: String)
    ensures
        r@ == yaml_error_text(e),
{
    e.to_string()
}

/// What a text parses to: a value, or the message of the error.
pub open spec fn yaml_parsed(text: Seq<char>) -> Result<YamlV, Seq<char>> {
    match yaml_from_str(text) {
        Ok(v) => Ok(yaml_content(v)),
        Err(e) => Err(yaml_error_text(e)),
    }
}

/// Parses a text.
pub fn parse_yaml(text: &str) -> (r: Result<Yaml, String>)
    ensures
        match r {
            Ok(y) => yaml_parsed(text@) == Ok::<YamlV, Seq<char>>(y@),
            Err(m) => yaml_parsed(text@) == Err::<YamlV, Seq<char>>(m@),
        },
{
    match yaml_of_text(text) {
        Ok(v) => Ok(yaml_of_value(v)),
        Err(e) => Err(yaml_error_message(e)),
    }
}

/// The value under a text key of a mapping's entries.
pub open spec fn yaml_entry(entries: Seq<(YamlV, YamlV)>, key: Seq<char>) -> Option<YamlV>
    decreases entries.len(),
{
    if entries.len() == 0 {
        None
    } else if entries[0].0 == YamlV::Text(key) {
        Some(entries[0].1)
    } else {
        yaml_entry(entries.drop_first(), key)
    }
}

impl YamlV {
    /// The value without its tags.
    pub open spec fn untagged(self) -> YamlV
        decreases self,
    {
        match self {
            YamlV::Tagged(inner) => inner.untagged(),
            _ => self,
        }
    }

    /// The value under a text key, where this is a mapping that has it.
    pub open spec fn get(self, key: Seq<char>) -> Option<YamlV> {
        match self.untagged() {
            YamlV::Mapping(entries) => yaml_entry(entries, key),
            _ => None,
        }
    }

    /// The integer under a key, or zero.
    pub open spec fn int_at(self, key: Seq<char>) -> i64 {
        match self.get(key) {
            Some(v) => match v.untagged() {
                YamlV::Int(n) => n,
                _ => 0,
            },
            None => 0,
        }
    }
}

impl Yaml {
    /// The value without its tags.
    pub fn untag(&self) -> (r: &Yaml)
        ensures
            r@ == self@.untagged(),
            !(r is Tagged),
        decreases self,
    {
        match self {
            Yaml::Tagged(inner) => inner.untag(),
            _ => self,
        }
    }

    /// The value under a text key, where this is a mapping that has it.
    pub fn get(&self, key: &str) -> (r: Option<&Yaml>)
        ensures
            match r {
                Some(v) => self@.get(key@) == Some(v@),
                None => self@.get(key@) is None,
            },
    {
        let bare: &Yaml = self.untag();
        proof {
            lemma_view(*bare);
        }
        match bare {
            Yaml::Mapping(entries) => {
                let ghost all = pairs(entries@);
                let mut i: usize = 0;
                assert(all.skip(0) =~= all);
                while i < entries.len()
                    invariant
                        i <= entries@.len(),
                        all == pairs(entries@),
                        self@.untagged() == YamlV::Mapping(all),
                        yaml_entry(all.skip(i as int), key@) == yaml_entry(all, key@),
                    decreases entries.len() - i,
                {
                    assert(all.skip(i as int)[0] == all[i as int]);
                    assert(all.skip(i as int).drop_first() =~= all.skip(i + 1));
                    let hit: bool = match &entries[i].0 {
                        Yaml::Text(t) => same(t.as_str(), key),
                        _ => false,
                    };
                    if hit {
                        return Some(&entries[i].1);
                    }
                    i += 1;
                }
                None
            },
            _ => None,
        }
    }

    /// The integer under a key, or zero.
    pub fn int_at(&self, key: &str) -> (r: i64)
        ensures
            r == self@.int_at(key@),
    {
        match self.get(key) {
            Some(v) => match v.untag() {
                Yaml::Int(n) => *n,
                _ => 0,
            },
            None => 0,
        }
    }
}

/// A key of a mapping gives the value of its first entry, and tags on the mapping do not hide it.
pub proof fn law_mappings_are_read_by_key(entries: Seq<(YamlV, YamlV)>, key: Seq<char>, at: int)
    requires
        0 <= at <= entries.len(),
        at < entries.len() ==> entries[at].0 == YamlV::Text(key),
        forall|k: int| 0 <= k < at ==> (#[trigger] entries[k]).0 != YamlV::Text(key),
    ensures
        at < entries.len() ==> YamlV::Mapping(entries).get(key) == Some(entries[at].1),
        at == entries.len() ==> YamlV::Mapping(entries).get(key) is None,
        YamlV::Tagged(Box::new(YamlV::Mapping(entries))).get(key) == YamlV::Mapping(entries).get(
            key,
        ),
    decreases entries.len(),
{
    reveal_with_fuel(YamlV::untagged, 3);
    if entries.len() > 0 && at > 0 {
        assert(entries[0].0 != YamlV::Text(key));
        let rest = entries.drop_first();
        assert forall|k: int| 0 <= k < at - 1 implies (#[trigger] rest[k]).0 != YamlV::Text(
            key,
        ) by {
            assert(rest[k] == entries[k + 1]);
        }
        law_mappings_are_read_by_key(rest, key, at - 1);
    }
}

} // verus!
