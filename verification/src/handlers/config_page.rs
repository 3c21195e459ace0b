//! The configuration page: one section of the configuration at a time.

use crate::json::Json;
use crate::sort::{ranked, sort_rows};
use crate::text::{has_string, opt_text, texts};
use vstd::prelude::*;

verus! {

/// What the page is asked for.
pub struct ConfigQuery {
    pub section: Option<String>,
}

/// The keys of an object; none of anything else.
pub open spec fn keys_of(config: Json) -> Seq<String> {
    match config {
        Json::Object(entries) => Seq::new(entries@.len(), |i: int| entries@[i].0),
        _ => Seq::empty(),
    }
}

/// The sections of the configuration, in order.
pub fn sections(config: &Json) -> (r: Vec<String>)
    ensures
        r@ == ranked(keys_of(*config)),
{
    let mut keys: Vec<String> = Vec::new();
    match config {
        Json::Object(entries) => {
            let mut i: usize = 0;
            while i < entries.len()
                invariant
                    i <= entries@.len(),
                    keys@.len() == i,
                    forall|k: int| 0 <= k < i ==> #[trigger] keys@[k] == entries@[k].0,
                decreases entries.len() - i,
            {
                keys.push(entries[i].0.clone());
                i += 1;
            }
            assert(keys@ =~= keys_of(*config));
        },
        _ => {
            assert(keys@ =~= keys_of(*config));
        },
    }
    sort_rows(keys)
}

/// The section that is shown: the one that is asked for, where it is there, or else the first.
/// Empty where there is none.
pub open spec fn selected(asked: Option<Seq<char>>, sections: Seq<Seq<char>>) -> Seq<char> {
    if asked matches Some(s) && sections.contains(s) {
        asked->0
    } else if sections.len() > 0 {
        sections[0]
    } else {
        ""@
    }
}

fn first_or_empty(sections: &Vec<String>) -> (r: String)
    ensures
        r@ == selected(None, texts(sections@)),
{
    if sections.len() > 0 {
        sections[0].clone()
    } else {
        "".to_owned()
    }
}

/// The section that is shown.
pub fn selected_section(query: &ConfigQuery, sections: &Vec<String>) -> (r: String)
    ensures
        r@ == selected(opt_text(query.section), texts(sections@)),
{
    match &query.section {
        Some(s) => if has_string(sections.as_slice(), s.as_str()) {
            s.clone()
        } else {
            first_or_empty(sections)
        },
        None => first_or_empty(sections),
    }
}

/// The value of the section that is shown; none where there is none.
pub fn section_value<'a>(config: &'a Json, selected: &str) -> (r: Option<&'a Json>)
    ensures
        match r {
            Some(v) => selected@.len() > 0 && config@.get(selected@) == Some(v@),
            None => selected@.len() == 0 || config@.get(selected@) is None,
        },
{
    proof {
        reveal_strlit("");
    }
    assert(selected@.len() == 0 ==> selected@ =~= ""@);
    if crate::text::same(selected, "") {
        None
    } else {
        config.get(selected)
    }
}

/// The section that is shown is the one that is asked for where it is there, and else the first.
pub proof fn law_sections_that_are_there_are_shown(asked: Seq<char>, sections: Seq<Seq<char>>)
    requires
        sections.len() > 0,
    ensures
        sections.contains(asked) ==> selected(Some(asked), sections) == asked,
        !sections.contains(asked) ==> selected(Some(asked), sections) == sections[0],
        selected(None, sections) == sections[0],
        sections.contains(selected(Some(asked), sections)),
{
    assert(sections.contains(sections[0]));
}

} // verus!
