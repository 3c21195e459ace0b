//! Calls from outside: what is read of their headers, and how they are answered.

use crate::text::{lowercased, same};
use vstd::prelude::*;

verus! {

/// What became of a call.
#[derive(Clone, Copy, PartialEq, Eq, Structural, Debug)]
pub enum WebhookOutcome {
    Taken,
    NotFound,
    RateLimited,
    UnknownProvider,
    InvalidSignature,
}

/// The status that a call is answered with.
pub fn webhook_status(outcome: WebhookOutcome) -> (r: u16)
    ensures
        r == match outcome {
            WebhookOutcome::Taken => 200u16,
            WebhookOutcome::NotFound => 404u16,
            WebhookOutcome::RateLimited => 429u16,
            WebhookOutcome::UnknownProvider => 500u16,
            WebhookOutcome::InvalidSignature => 401u16,
        },
{
    match outcome {
        WebhookOutcome::Taken => 200,
        WebhookOutcome::NotFound => 404,
        WebhookOutcome::RateLimited => 429,
        WebhookOutcome::UnknownProvider => 500,
        WebhookOutcome::InvalidSignature => 401,
    }
}

/// The value that a name has: that of the last header of that name, in lower case, whose value
/// is text.
pub open spec fn value_of(headers: Seq<(String, Option<String>)>, name: Seq<char>) -> Option<
    Seq<char>,
>
    decreases headers.len(),
{
    if headers.len() == 0 {
        None
    } else {
        match headers.last().1 {
            Some(v) if lowercased(headers.last().0@) == name => Some(v@),
            _ => value_of(headers.drop_last(), name),
        }
    }
}

/// Whether a list has an entry with that name and value.
pub open spec fn has_entry(list: Seq<(String, String)>, name: Seq<char>, value: Seq<char>) -> bool {
    exists|i: int| 0 <= i < list.len() && #[trigger] list[i].0@ == name && list[i].1@ == value
}

/// Whether no name stands twice in a list.
pub open spec fn names_once(list: Seq<(String, String)>) -> bool {
    forall|i: int, j: int|
        0 <= i < j < list.len() ==> #[trigger] list[i].0@ != #[trigger] list[j].0@
}

/// The headers that are read, each name once. A header whose value is no text comes as `None`.
pub fn header_map(headers: &Vec<(String, Option<String>)>) -> (r: Vec<(String, String)>)
    ensures
        names_once(r@),
        forall|name: Seq<char>, value: Seq<char>| #[trigger]
            has_entry(r@, name, value) <==> value_of(headers@, name) == Some(value),
{
    let mut out: Vec<(String, String)> = Vec::new();
    let mut i: usize = 0;
    while i < headers.len()
        invariant
            i <= headers@.len(),
            names_once(out@),
            forall|name: Seq<char>, value: Seq<char>| #[trigger]
                has_entry(out@, name, value) <==> value_of(headers@.take(i as int), name) == Some(
                    value,
                ),
        decreases headers.len() - i,
    {
        assert(headers@.take(i + 1).drop_last() =~= headers@.take(i as int));
        assert(headers@.take(i + 1).last() == headers@[i as int]);
        let ghost before = out@;
        match &headers[i].1 {
            Some(v) => {
                let name: String = headers[i].0.as_str().to_lowercase();
                let mut at: usize = 0;
                while at < out.len() && !same(&out[at].0, &name)
                    invariant
                        at <= out@.len(),
                        out@ == before,
                        forall|m: int| 0 <= m < at ==> #[trigger] before[m].0@ != name@,
                    decreases out.len() - at,
                {
                    at += 1;
                }
                let entry: (String, String) = (name, v.clone());
                if at < out.len() {
                    out.set(at, entry);
                } else {
                    out.push(entry);
                }
                proof {
                    assert(out@[at as int] == entry);
                    assert forall|n: Seq<char>, w: Seq<char>| #[trigger]
                        has_entry(out@, n, w) <==> value_of(headers@.take(i + 1), n) == Some(w) by {
                        if n == name@ {
                            assert(out@[at as int].0@ == n);
                        } else if has_entry(out@, n, w) {
                            let k = choose|k: int|
                                0 <= k < out@.len() && #[trigger] out@[k].0@ == n && out@[k].1@ == w;
                            assert(before[k].0@ == n);
                            assert(has_entry(before, n, w));
                        } else if has_entry(before, n, w) {
                            let k = choose|k: int|
                                0 <= k < before.len() && #[trigger] before[k].0@ == n
                                    && before[k].1@ == w;
                            assert(out@[k].0@ == n);
                        }
                    }
                }
            },
            None => {},
        }
        i += 1;
    }
    assert(headers@.take(i as int) =~= headers@);
    out
}

/// A header is read by its name in lower case, and of several the last one whose value is text
/// counts.
pub proof fn law_headers_are_read_by_name(
    headers: Seq<(String, Option<String>)>,
    header: (String, Option<String>),
    name: Seq<char>,
)
    ensures
        value_of(Seq::empty(), name) is None,
        lowercased(header.0@) == name && header.1 is Some ==> value_of(headers.push(header), name)
            == Some(header.1->0@),
        lowercased(header.0@) != name || header.1 is None ==> value_of(headers.push(header), name)
            == value_of(headers, name),
{
    assert(headers.push(header).drop_last() =~= headers);
}

} // verus!
