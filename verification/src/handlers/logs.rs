//! The logs page: a search through the lines of the log.

use crate::clock::Moment;
use crate::json::{parse_json, parsed, Json, JsonV};
use crate::text::{contains_text, lowercased, opt_text, same, str_contains};
use vstd::prelude::*;

verus! {

/// What the page is asked for.
pub struct LogQuery {
    pub q: Option<String>,
    pub level: Option<String>,
    pub event_type: Option<String>,
    /// RFC 3339.
    pub from: Option<String>,
    /// RFC 3339.
    pub to: Option<String>,
}

/// How many lines are shown at most.
pub const MAX_RESULTS: usize = 1000;

/// Which lines are shown. The texts are in lower case; an empty one asks for nothing.
pub struct LogFilter {
    pub q: String,
    pub level: String,
    pub event_type: String,
    pub from: Option<Moment>,
    pub to: Option<Moment>,
}

/// A text that is asked for, in lower case.
pub open spec fn asked_text(field: Option<Seq<char>>) -> Seq<char> {
    match field {
        Some(s) => lowercased(s),
        None => lowercased(""@),
    }
}

fn asked_for(field: &Option<String>) -> (r: String)
    ensures
        r@ == asked_text(opt_text(*field)),
{
    match field {
        Some(s) => s.as_str().to_lowercase(),
        None => "".to_lowercase(),
    }
}

/// The moment that is asked for: none where the text is no moment.
pub open spec fn asked_moment(field: Option<Seq<char>>) -> Option<Moment> {
    match field {
        Some(s) => Moment::of_iso(s),
        None => Moment::of_iso(""@),
    }
}

fn moment_of(field: &Option<String>) -> (r: Option<Moment>)
    ensures
        r == asked_moment(opt_text(*field)),
{
    match field {
        Some(s) => Moment::from_iso(s.as_str()),
        None => Moment::from_iso(""),
    }
}

/// What a query filters by.
pub fn log_filter(query: &LogQuery) -> (r: LogFilter)
    ensures
        r.q@ == asked_text(opt_text(query.q)),
        r.level@ == asked_text(opt_text(query.level)),
        r.event_type@ == asked_text(opt_text(query.event_type)),
        r.from == asked_moment(opt_text(query.from)),
        r.to == asked_moment(opt_text(query.to)),
{
    LogFilter {
        q: asked_for(&query.q),
        level: asked_for(&query.level),
        event_type: asked_for(&query.event_type),
        from: moment_of(&query.from),
        to: moment_of(&query.to),
    }
}

/// When a line was written, where it says so.
pub open spec fn written_at(v: JsonV) -> Option<Moment> {
    match v.text_at("timestamp"@) {
        Some(t) => Moment::of_iso(t),
        None => None,
    }
}

/// Whether a moment is within the bounds. A line without a moment always is.
pub open spec fn in_time(filter: LogFilter, at: Option<Moment>) -> bool {
    match at {
        Some(t) => {
            &&& filter.from matches Some(from) ==> !t.before(from)
            &&& filter.to matches Some(to) ==> !to.before(t)
        },
        None => true,
    }
}

/// Whether a line with this value is shown.
pub open spec fn wanted(filter: LogFilter, line: Seq<char>, v: JsonV) -> bool {
    &&& filter.q@.len() > 0 ==> contains_text(lowercased(line), filter.q@)
    &&& filter.level@.len() > 0 ==> contains_text(
        lowercased(v.text_or("severity"@, ""@)),
        filter.level@,
    )
    &&& filter.event_type@.len() > 0 ==> contains_text(
        lowercased(v.text_or("event_type"@, ""@)),
        filter.event_type@,
    )
    &&& in_time(filter, written_at(v))
}

fn asks(needle: &str) -> (r: bool)
    ensures
        r == (needle@.len() > 0),
{
    proof {
        reveal_strlit("");
    }
    assert(needle@.len() == 0 ==> needle@ =~= ""@);
    !same(needle, "")
}

fn holds(text: &str, needle: &str) -> (r: bool)
    ensures
        r == (needle@.len() > 0 ==> contains_text(lowercased(text@), needle@)),
{
    if !asks(needle) {
        return true;
    }
    let low: String = text.to_lowercase();
    str_contains(low.as_str(), needle)
}

fn timely(filter: &LogFilter, at: Option<Moment>) -> (r: bool)
    ensures
        r == in_time(*filter, at),
{
    match at {
        None => true,
        Some(t) => {
            let late: bool = match filter.from {
                Some(b) => !t.is_before(b),
                None => true,
            };
            let soon: bool = match filter.to {
                Some(b) => !b.is_before(t),
                None => true,
            };
            late && soon
        },
    }
}

/// A line as it is shown.
pub struct LogRow {
    pub timestamp: String,
    pub severity: String,
    pub event_type: String,
    pub line: String,
}

/// A line as it is shown.
pub struct LogRowV {
    pub timestamp: Seq<char>,
    pub severity: Seq<char>,
    pub event_type: Seq<char>,
    pub line: Seq<char>,
}

impl View for LogRow {
    type V = LogRowV;

    open spec fn view(&self) -> LogRowV {
        LogRowV {
            timestamp: self.timestamp@,
            severity: self.severity@,
            event_type: self.event_type@,
            line: self.line@,
        }
    }
}

/// What the page shows of a line: nothing, where it is no JSON or not wanted.
pub open spec fn row_of(filter: LogFilter, line: Seq<char>) -> Option<LogRowV> {
    match parsed(line) {
        Ok(v) => if wanted(filter, line, v) {
            Some(
                LogRowV {
                    timestamp: v.text_or("timestamp"@, ""@),
                    severity: v.text_or("severity"@, ""@),
                    event_type: v.text_or("event_type"@, ""@),
                    line,
                },
            )
        } else {
            None
        },
        Err(_) => None,
    }
}

/// What the page shows of a line whose value is this.
pub fn read_value(filter: &LogFilter, line: &str, value: &Json) -> (r: Option<LogRow>)
    ensures
        match r {
            Some(row) => wanted(*filter, line@, value@) && row@ == (LogRowV {
                timestamp: value@.text_or("timestamp"@, ""@),
                severity: value@.text_or("severity"@, ""@),
                event_type: value@.text_or("event_type"@, ""@),
                line: line@,
            }),
            None => !wanted(*filter, line@, value@),
        },
{
    let severity: String = value.text_or("severity", "");
    let event_type: String = value.text_or("event_type", "");
    let at: Option<Moment> = match value.text_at("timestamp") {
        Some(t) => Moment::from_iso(t),
        None => None,
    };
    if !holds(line, filter.q.as_str()) || !holds(severity.as_str(), filter.level.as_str())
        || !holds(event_type.as_str(), filter.event_type.as_str()) || !timely(filter, at) {
        return None;
    }
    Some(
        LogRow {
            timestamp: value.text_or("timestamp", ""),
            severity,
            event_type,
            line: line.to_owned(),
        },
    )
}

/// What the page shows of a line.
pub fn read_line(filter: &LogFilter, line: &str) -> (r: Option<LogRow>)
    ensures
        match r {
            Some(row) => row_of(*filter, line@) == Some(row@),
            None => row_of(*filter, line@) is None,
        },
{
    match parse_json(line) {
        Ok(value) => read_value(filter, line, &value),
        Err(_) => None,
    }
}

/// The lines that are shown so far.
pub struct LogSearch {
    pub filter: LogFilter,
    pub rows: Vec<LogRow>,
}

/// What the page shows of these lines: those that are wanted, in order, up to so many.
pub open spec fn found(filter: LogFilter, lines: Seq<Seq<char>>) -> Seq<LogRowV>
    decreases lines.len(),
{
    if lines.len() == 0 {
        Seq::empty()
    } else {
        let before = found(filter, lines.drop_last());
        match row_of(filter, lines.last()) {
            Some(row) => if before.len() < MAX_RESULTS {
                before.push(row)
            } else {
                before
            },
            None => before,
        }
    }
}

/// The rows as they are shown.
pub open spec fn row_views(rows: Seq<LogRow>) -> Seq<LogRowV> {
    Seq::new(rows.len(), |i: int| rows[i]@)
}

impl LogSearch {
    /// Nothing is shown yet.
    pub fn new(filter: LogFilter) -> (r: Self)
        ensures
            r.filter == filter,
            row_views(r.rows@) == found(filter, Seq::empty()),
    {
        let rows: Vec<LogRow> = Vec::new();
        assert(row_views(rows@) =~= Seq::empty());
        LogSearch { filter, rows }
    }

    /// Looks at the next line of the log, and says whether more lines are to be looked at. Once
    /// the page is full, further lines change nothing.
    pub fn take(&mut self, line: &str) -> (r: bool)
        ensures
            final(self).filter == old(self).filter,
            row_views(final(self).rows@) == match row_of(old(self).filter, line@) {
                Some(row) => if old(self).rows@.len() < MAX_RESULTS {
                    row_views(old(self).rows@).push(row)
                } else {
                    row_views(old(self).rows@)
                },
                None => row_views(old(self).rows@),
            },
            r == (final(self).rows@.len() < MAX_RESULTS),
    {
        if self.rows.len() < MAX_RESULTS {
            let ghost before = self.rows@;
            if let Some(row) = read_line(&self.filter, line) {
                self.rows.push(row);
                assert(row_views(self.rows@) =~= row_views(before).push(row@));
            }
        }
        self.rows.len() < MAX_RESULTS
    }
}

/// However many lines there are, no more than so many are shown, and once there are so many
/// the rest of the log changes nothing.
pub proof fn law_a_full_page_stays(filter: LogFilter, lines: Seq<Seq<char>>, line: Seq<char>)
    ensures
        found(filter, lines).len() <= MAX_RESULTS,
        found(filter, lines).len() == MAX_RESULTS ==> found(filter, lines.push(line)) == found(
            filter,
            lines,
        ),
    decreases lines.len(),
{
    if lines.len() > 0 {
        law_a_full_page_stays(filter, lines.drop_last(), line);
    }
    assert(lines.push(line).drop_last() =~= lines);
}

/// A line is shown where it was written neither before the time that is asked for nor after it; a
/// line without a time always is.
pub proof fn law_lines_are_shown_in_their_time(filter: LogFilter, at: Moment)
    ensures
        in_time(filter, None),
        filter.from is None && filter.to is None ==> in_time(filter, Some(at)),
        filter.from is Some && at.before(filter.from->0) ==> !in_time(filter, Some(at)),
        filter.to is Some && filter.to->0.before(at) ==> !in_time(filter, Some(at)),
        filter.from is Some && filter.to is Some && !at.before(filter.from->0)
            && !filter.to->0.before(at) ==> in_time(filter, Some(at)),
        filter.from == Some(at) && filter.to == Some(at) && !at.before(at) ==> in_time(
            filter,
            Some(at),
        ),
{
}

/// A line is shown exactly where everything that is asked for holds of it: the words stand in it,
/// and its severity and its type hold those that are named. The page takes what it is given in
/// order, up to a thousand lines.
pub proof fn law_lines_are_found_by_all_that_is_asked(
    filter: LogFilter,
    lines: Seq<Seq<char>>,
    line: Seq<char>,
)
    ensures
        parsed(line) is Err ==> row_of(filter, line) is None,
        parsed(line) matches Ok(v) ==> (row_of(filter, line) is Some <==> {
            &&& filter.q@.len() == 0 || contains_text(lowercased(line), filter.q@)
            &&& filter.level@.len() == 0 || contains_text(
                lowercased(v.text_or("severity"@, ""@)),
                filter.level@,
            )
            &&& filter.event_type@.len() == 0 || contains_text(
                lowercased(v.text_or("event_type"@, ""@)),
                filter.event_type@,
            )
            &&& in_time(filter, written_at(v))
        }),
        row_of(filter, line) matches Some(row) ==> {
            &&& row.line == line
            &&& row.timestamp == parsed(line)->Ok_0.text_or("timestamp"@, ""@)
            &&& row.severity == parsed(line)->Ok_0.text_or("severity"@, ""@)
            &&& row.event_type == parsed(line)->Ok_0.text_or("event_type"@, ""@)
        },
        found(filter, Seq::empty()).len() == 0,
        row_of(filter, line) is None ==> found(filter, lines.push(line)) == found(filter, lines),
        row_of(filter, line) is Some && found(filter, lines).len() < 1000 ==> found(
            filter,
            lines.push(line),
        ) == found(filter, lines).push(row_of(filter, line)->0),
{
    assert(lines.push(line).drop_last() =~= lines);
}

} // verus!
