//! Moments in time, and how long ago they were.

use crate::text::{decimal, decimal_text};
use vstd::prelude::*;

verus! {

/// The pattern of a date such as `Apr 9 2026`.
pub const DATE_PATTERN: &'static str = "%b %-d %Y";

/// The pattern of a moment to the second.
pub const STAMP_PATTERN: &'static str = "%Y-%m-%d %H:%M:%S";

/// The pattern of a moment to the second, with its zone.
pub const STAMP_UTC_PATTERN: &'static str = "%Y-%m-%d %H:%M:%S UTC";

/// The pattern of a moment to the minute, with its zone.
pub const MINUTE_UTC_PATTERN: &'static str = "%Y-%m-%d %H:%M UTC";

/// The pattern of a time of day.
pub const TIME_PATTERN: &'static str = "%H:%M:%S";

/// Whether a pattern is one of those that are asked for.
pub open spec fn known_pattern(pattern: Seq<char>) -> bool {
    pattern == DATE_PATTERN@ || pattern == STAMP_PATTERN@ || pattern == STAMP_UTC_PATTERN@
        || pattern == MINUTE_UTC_PATTERN@ || pattern == TIME_PATTERN@
}

/// The moment that an RFC 3339 text gives: seconds since 1970, and nanoseconds.
pub uninterp spec fn rfc3339_instant(text: Seq<char>) -> Option<(i64, u32)>;

/// The moment as text, in UTC, by a pattern.
pub uninterp spec fn utc_text(secs: i64, nanos: u32, pattern: Seq<char>) -> Option<Seq<char>>;

/// `chrono::DateTime::parse_from_rfc3339`: the moment as its Unix time and the nanoseconds
/// behind it, under a name.
#[verifier::external_body]
pub(crate) fn parse_rfc3339(text: &str) -> (r: Option<(i64, u32)>)
    ensures
        r == rfc3339_instant(text@),
{
    let parsed = chrono::DateTime::parse_from_rfc3339(text).ok();
    parsed.map(|d| (d.timestamp(), d.timestamp_subsec_nanos()))
}

/// `chrono::DateTime::from_timestamp`, and the `Display` of its `format`: the moment as text,
/// where `chrono` has such a moment, under a name. Asked for with a pattern that `chrono`
/// knows, it does not fail.
#[verifier::external_body]
pub(crate) fn format_utc(secs: i64, nanos: u32, pattern: &str) -> (r: Option<String>)
    requires
        known_pattern(pattern@),
    ensures
        crate::text::opt_text(r) == utc_text(secs, nanos, pattern@),
{
    chrono::DateTime::from_timestamp(secs, nanos).map(|d| d.format(pattern).to_string())
}

/// The moment as an RFC 3339 text.
pub uninterp spec fn rfc3339_text(secs: i64, nanos: u32) -> Option<Seq<char>>;

/// `chrono::DateTime::from_timestamp`, and `to_rfc3339` of what it gives: the moment as text,
/// where `chrono` has such a moment, under a name.
#[verifier::external_body]
pub(crate) fn format_rfc3339(secs: i64, nanos: u32) -> (r: Option<String>)
    ensures
        crate::text::opt_text(r) == rfc3339_text(secs, nanos),
{
    chrono::DateTime::from_timestamp(secs, nanos).map(|d| d.to_rfc3339())
}

/// A moment: seconds since 1970, and nanoseconds.
#[derive(Clone, Copy, PartialEq, Eq, Structural)]
pub struct Moment {
    pub secs: i64,
    pub nanos: u32,
}

impl Moment {
    /// The moment in nanoseconds since 1970.
    pub open spec fn total(self) -> int {
        self.secs * 1_000_000_000 + self.nanos
    }

    /// The moment in nanoseconds since 1970.
    pub fn total_nanos(self) -> (r: i128)
        ensures
            r == self.total(),
    {
        self.secs as i128 * 1_000_000_000 + self.nanos as i128
    }

    /// Whether the moment is before the other.
    pub open spec fn before(self, other: Self) -> bool {
        self.secs < other.secs || (self.secs == other.secs && self.nanos < other.nanos)
    }

    /// Whether the moment is before the other.
    pub fn is_before(self, other: Self) -> (r: bool)
        ensures
            r == self.before(other),
    {
        self.secs < other.secs || (self.secs == other.secs && self.nanos < other.nanos)
    }

    /// The moment as an RFC 3339 text, empty where there is no such moment.
    pub open spec fn iso(self) -> Seq<char> {
        match rfc3339_text(self.secs, self.nanos) {
            Some(t) => t,
            None => ""@,
        }
    }

    /// The moment as an RFC 3339 text.
    pub fn to_iso(self) -> (r: String)
        ensures
            r@ == self.iso(),
    {
        match format_rfc3339(self.secs, self.nanos) {
            Some(t) => t,
            None => "".to_owned(),
        }
    }

    /// The moment that an RFC 3339 text gives.
    pub open spec fn of_iso(text: Seq<char>) -> Option<Self> {
        match rfc3339_instant(text) {
            Some((secs, nanos)) => Some(Moment { secs, nanos }),
            None => None,
        }
    }

    /// The moment that an RFC 3339 text gives.
    pub fn from_iso(text: &str) -> (r: Option<Self>)
        ensures
            r == Self::of_iso(text@),
    {
        match parse_rfc3339(text) {
            Some((secs, nanos)) => Some(Moment { secs, nanos }),
            None => None,
        }
    }

    /// The moment as text, empty where there is no such moment.
    pub open spec fn stamped(self, pattern: Seq<char>) -> Seq<char> {
        match utc_text(self.secs, self.nanos, pattern) {
            Some(t) => t,
            None => ""@,
        }
    }

    /// The moment as text.
    pub fn stamp(self, pattern: &str) -> (r: String)
        requires
            known_pattern(pattern@),
        ensures
            r@ == self.stamped(pattern@),
    {
        match format_utc(self.secs, self.nanos, pattern) {
            Some(t) => t,
            None => "".to_owned(),
        }
    }
}

/// The nanoseconds from one moment to a later one.
pub open spec fn nanos_between(at: Moment, now: Moment) -> int {
    now.total() - at.total()
}

/// How long ago something was, where that was less than a week ago.
pub open spec fn age_text(nanos: int) -> Option<Seq<char>> {
    let secs = nanos / 1_000_000_000;
    if secs < 10 {
        Some("just now"@)
    } else if secs < 60 {
        Some(decimal(secs as nat) + "s ago"@)
    } else if secs < 3600 {
        Some(decimal((secs / 60) as nat) + "m ago"@)
    } else if secs < 86_400 {
        Some(decimal((secs / 3600) as nat) + "h ago"@)
    } else if secs < 604_800 {
        Some(decimal((secs / 86_400) as nat) + "d ago"@)
    } else {
        None
    }
}

/// How long ago a moment was, where that was less than a week ago. What is yet to come is
/// `just now`.
pub fn age_of(at: Moment, now: Moment) -> (r: Option<String>)
    ensures
        crate::text::opt_text(r) == age_text(nanos_between(at, now)),
{
    let nanos: i128 = now.total_nanos() - at.total_nanos();
    if nanos < 10_000_000_000 {
        return Some("just now".to_owned());
    }
    if nanos >= 604_800_000_000_000 {
        return None;
    }
    let secs: u64 = (nanos / 1_000_000_000) as u64;
    let (count, unit): (u64, &str) = if secs < 60 {
        (secs, "s ago")
    } else if secs < 3600 {
        (secs / 60, "m ago")
    } else if secs < 86_400 {
        (secs / 3600, "h ago")
    } else {
        (secs / 86_400, "d ago")
    };
    let mut out: String = decimal_text(count);
    out.push_str(unit);
    Some(out)
}

/// A moment as it is shown: how long ago it was, or its date. What is no moment stays as it is.
pub open spec fn relative(text: Seq<char>, now: Moment) -> Seq<char> {
    match rfc3339_instant(text) {
        None => text,
        Some((secs, nanos)) => match age_text(nanos_between(Moment { secs, nanos }, now)) {
            Some(age) => age,
            None => match utc_text(secs, nanos, DATE_PATTERN@) {
                Some(date) => date,
                None => text,
            },
        },
    }
}

/// A moment as it is shown: how long ago it was, or its date.
pub fn relative_time(value: &str, now: Moment) -> (r: String)
    ensures
        r@ == relative(value@, now),
{
    match parse_rfc3339(value) {
        None => value.to_owned(),
        Some((secs, nanos)) => match age_of(Moment { secs, nanos }, now) {
            Some(age) => age,
            None => match format_utc(secs, nanos, DATE_PATTERN) {
                Some(date) => date,
                None => value.to_owned(),
            },
        },
    }
}

/// How long ago something was is told in the largest unit that fits: the number of whole seconds
/// up to a minute, of whole minutes up to an hour, of whole hours up to a day and of whole days
/// up to a week. Of the last ten seconds, and of what is still to come, it is said that it was
/// just now, and of what was a week ago or more nothing is said.
pub proof fn law_ages_are_told_in_whole_units(n: nat, rest: int)
    requires
        0 <= rest,
    ensures
        rest < 10_000_000_000 ==> age_text(rest) == Some("just now"@),
        age_text(-rest) == Some("just now"@),
        10 <= n < 60 && rest < 1_000_000_000 ==> age_text(n * 1_000_000_000 + rest) == Some(
            decimal(n) + "s ago"@,
        ),
        1 <= n < 60 && rest < 60_000_000_000 ==> age_text(n * 60_000_000_000 + rest) == Some(
            decimal(n) + "m ago"@,
        ),
        1 <= n < 24 && rest < 3_600_000_000_000 ==> age_text(n * 3_600_000_000_000 + rest) == Some(
            decimal(n) + "h ago"@,
        ),
        1 <= n < 7 && rest < 86_400_000_000_000 ==> age_text(n * 86_400_000_000_000 + rest) == Some(
            decimal(n) + "d ago"@,
        ),
        age_text(604_800_000_000_000 + rest) is None,
{
    let g = 1_000_000_000int;
    let s = rest / g;
    assert((n * g + rest) / g == n + s);
    assert((n * 60 * g + rest) / g == n * 60 + s);
    assert((n * 3600 * g + rest) / g == n * 3600 + s);
    assert((n * 86_400 * g + rest) / g == n * 86_400 + s);
}

/// Later moments are further from the start: one moment is before another exactly where fewer
/// nanoseconds have passed until then, and nothing is before itself.
pub proof fn law_moments_are_counted_from_one_start(a: Moment, b: Moment)
    requires
        0 <= a.nanos < 1_000_000_000,
        0 <= b.nanos < 1_000_000_000,
    ensures
        a.before(b) <==> a.total() < b.total(),
        a.before(b) <==> nanos_between(a, b) > 0,
        nanos_between(a, b) == -nanos_between(b, a),
        !a.before(a),
{
}

/// A moment is shown by its age where it was within the last week, and by its date where it is
/// longer ago. What is no moment is shown as it is written.
pub proof fn law_what_is_no_moment_stays(text: Seq<char>, now: Moment)
    ensures
        rfc3339_instant(text) is None ==> relative(text, now) == text,
        rfc3339_instant(text) matches Some((secs, nanos)) ==> {
            let age = age_text(nanos_between(Moment { secs, nanos }, now));
            &&& age is Some ==> relative(text, now) == age->0
            &&& age is None && utc_text(secs, nanos, DATE_PATTERN@) is Some ==> relative(text, now)
                == utc_text(secs, nanos, DATE_PATTERN@)->0
        },
{
}

} // verus!
