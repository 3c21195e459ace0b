//! The short messages that a page pops up.

use crate::json::{compact, compact_text, entry, entry_contents, object, text_entry, Json, JsonV};
use vstd::prelude::*;

verus! {

/// A pop-up message as a trigger of the page.
pub open spec fn toast_json(message: Seq<char>, kind: Seq<char>) -> JsonV {
    JsonV::Object(
        seq![
            (
                "showToast"@,
                JsonV::Object(
                    seq![("message"@, JsonV::Text(message)), ("type"@, JsonV::Text(kind))],
                ),
            ),
        ],
    )
}

/// What the page is told to pop up: its message and its kind.
pub fn toast_value(message: &str, kind: &str) -> (r: Json)
    ensures
        r@ == (JsonV::Object(seq![("message"@, JsonV::Text(message@)), ("type"@, JsonV::Text(kind@))])),
{
    let m: (String, Json) = text_entry("message", message);
    let k: (String, Json) = text_entry("type", kind);
    let entries: Vec<(String, Json)> = vec![m, k];
    assert(entry_contents(entries@) =~= seq![
        ("message"@, JsonV::Text(message@)),
        ("type"@, JsonV::Text(kind@)),
    ]);
    object(entries)
}

/// The trigger that makes a page pop up a message.
pub fn toast(message: &str, kind: &str) -> (r: String)
    ensures
        r@ == compact_text(toast_json(message@, kind@)),
{
    let inner: Json = toast_value(message, kind);
    let entries: Vec<(String, Json)> = vec![("showToast".to_owned(), inner)];
    assert(entry_contents(entries@) =~= seq![("showToast"@, inner@)]);
    compact(&object(entries))
}

/// A pop-up says its message and its kind.
pub proof fn law_toasts_say_their_message(message: Seq<char>, kind: Seq<char>)
    ensures
        toast_json(message, kind).get("showToast"@) is Some,
        toast_json(message, kind).get("showToast"@)->0.text_at("message"@) == Some(message),
        toast_json(message, kind).get("showToast"@)->0.text_at("type"@) == Some(kind),
{
    reveal_strlit("message");
    reveal_strlit("type");
    assert("message"@.len() == 7 && "type"@.len() == 4);
    let inner = seq![("message"@, JsonV::Text(message)), ("type"@, JsonV::Text(kind))];
    reveal_with_fuel(entry, 3);
    assert(inner.drop_first()[0] == inner[1]);
}

} // verus!
