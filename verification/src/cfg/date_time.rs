//! The start and trigger time lines of the `.cfg` file.

use vstd::prelude::*;
use crate::cfg::line::{ConfigLine, read_field};
use crate::cfg::revisions::{Date, FormatRevision, date_of, chrono_date_parse, date_format, spec_read_date};
use crate::error::{ComtradeError, ErrorView, res_view};
use crate::text::{split_on, split_str, utf8_len, utf8_width, utf8_width_of, chars_of};

verus! {

/// The expected precision of the timestamps.
#[derive(Debug, Clone, Copy, PartialEq, Eq, Structural)]
pub enum TimePrecision {
    Microseconds,
    Nanoseconds,
}

/// How two precisions compare: microseconds are the coarser, and greater.
pub open spec fn precision_order(a: TimePrecision, b: TimePrecision) -> std::cmp::Ordering {
    match (a, b) {
        (TimePrecision::Microseconds, TimePrecision::Nanoseconds) => std::cmp::Ordering::Greater,
        (TimePrecision::Nanoseconds, TimePrecision::Microseconds) => std::cmp::Ordering::Less,
        _ => std::cmp::Ordering::Equal,
    }
}

/// The finer of two precisions.
pub open spec fn finer(a: TimePrecision, b: TimePrecision) -> TimePrecision {
    if a == TimePrecision::Nanoseconds || b == TimePrecision::Nanoseconds {
        TimePrecision::Nanoseconds
    } else {
        TimePrecision::Microseconds
    }
}

impl TimePrecision {
    /// Compares two precisions: microseconds are greater than nanoseconds.
    pub fn compare(&self, other: &Self) -> (r: std::cmp::Ordering)
        ensures
            r == precision_order(*self, *other),
    {
        match (self, other) {
            (TimePrecision::Microseconds, TimePrecision::Nanoseconds) => std::cmp::Ordering::Greater,
            (TimePrecision::Nanoseconds, TimePrecision::Microseconds) => std::cmp::Ordering::Less,
            _ => std::cmp::Ordering::Equal,
        }
    }

    /// The finer of two precisions: the lesser one.
    pub fn finer(self, other: Self) -> (r: Self)
        ensures
            r == finer(self, other),
    {
        match (self, other) {
            (TimePrecision::Microseconds, TimePrecision::Microseconds) => TimePrecision::Microseconds,
            _ => TimePrecision::Nanoseconds,
        }
    }
}

/// The finer of two precisions is the lesser of them: it is greater than
/// neither.
pub proof fn lemma_finer_is_least(a: TimePrecision, b: TimePrecision)
    ensures
        precision_order(finer(a, b), a) != std::cmp::Ordering::Greater,
        precision_order(finer(a, b), b) != std::cmp::Ordering::Greater,
        finer(a, b) == a || finer(a, b) == b,
{
}

/// The order of precisions is total and consistent: a precision is equal
/// to itself only, and swapping the operands reverses the result.
pub proof fn lemma_precision_order_total(a: TimePrecision, b: TimePrecision)
    ensures
        (precision_order(a, b) == std::cmp::Ordering::Equal) <==> a == b,
        precision_order(a, b) == std::cmp::Ordering::Less <==> precision_order(b, a)
            == std::cmp::Ordering::Greater,
{
}

impl PartialOrd for TimePrecision {
    fn partial_cmp(&self, other: &Self) -> (r: Option<std::cmp::Ordering>) {
        Some(self.compare(other))
    }
}

impl vstd::std_specs::cmp::PartialOrdSpecImpl for TimePrecision {
    open spec fn obeys_partial_cmp_spec() -> bool {
        true
    }

    open spec fn partial_cmp_spec(&self, other: &Self) -> Option<std::cmp::Ordering> {
        Some(precision_order(*self, *other))
    }
}

/// A time of day, as the time parser of the `chrono` crate reads it.
#[derive(Debug, Clone, Copy, PartialEq, Eq, Structural)]
pub struct TimeOfDay {
    pub hour: u32,
    pub minute: u32,
    pub second: u32,
    pub nanosecond: u32,
}

/// A date and a time of day.
#[derive(Debug, Clone, Copy, PartialEq, Eq, Structural)]
pub struct DateTime {
    pub date: Date,
    pub time: TimeOfDay,
}

/// What `chrono::NaiveTime::parse_from_str(text, format)` gives, as
/// (hour, minute, second, nanosecond), where it succeeds.
pub uninterp spec fn chrono_time_parse(text: Seq<char>, format: Seq<char>) -> Option<(u32, u32, u32, u32)>;

pub open spec fn time_of(p: Option<(u32, u32, u32, u32)>) -> Option<TimeOfDay> {
    match p {
        Some((h, m, s, n)) => Some(TimeOfDay { hour: h, minute: m, second: s, nanosecond: n }),
        None => None,
    }
}

/// Calls `chrono::NaiveTime::parse_from_str`; the result is named by
/// `chrono_time_parse`.
#[verifier::external_body]
pub(crate) fn parse_time_text(text: &str, format: &str) -> (r: Option<TimeOfDay>)
    ensures
        r == time_of(chrono_time_parse(text@, format@)),
{
    chrono::NaiveTime::parse_from_str(text, format).ok().map(
        |t| TimeOfDay {
            hour: chrono::Timelike::hour(&t),
            minute: chrono::Timelike::minute(&t),
            second: chrono::Timelike::second(&t),
            nanosecond: chrono::Timelike::nanosecond(&t),
        },
    )
}

/// The layout of a time of day in the configuration file.
pub open spec fn time_format() -> Seq<char> {
    "%H:%M:%S%.f"@
}

/// The precision that the fractional digits of a time stamp give: up to six
/// bytes after the last `.` mean microseconds, more mean nanoseconds; a
/// stamp without a `.` has none.
pub open spec fn spec_ts_base_unit(stamp: Seq<char>) -> Result<TimePrecision, ErrorView> {
    let pieces = split_on(stamp, '.');
    if pieces.len() < 2 {
        Err(ErrorView::CantFindTimestampPrecision)
    } else if utf8_len(pieces.last()) <= 6 {
        Ok(TimePrecision::Microseconds)
    } else {
        Ok(TimePrecision::Nanoseconds)
    }
}

proof fn lemma_utf8_len_step(s: Seq<char>, i: int)
    requires
        0 <= i < s.len(),
    ensures
        utf8_len(s.take(i + 1)) == utf8_len(s.take(i)) + utf8_width(s[i]),
{
    assert(s.take(i + 1).drop_last() =~= s.take(i));
}

proof fn lemma_utf8_len_prefix(s: Seq<char>, i: int)
    requires
        0 <= i <= s.len(),
    ensures
        utf8_len(s.take(i)) <= utf8_len(s),
    decreases s.len() - i,
{
    if i < s.len() {
        lemma_utf8_len_step(s, i);
        lemma_utf8_len_prefix(s, i + 1);
    } else {
        assert(s.take(i) =~= s);
    }
}

/// Whether `s` takes at most `limit` bytes in UTF-8.
fn utf8_len_at_most(s: &str, limit: usize) -> (r: bool)
    ensures
        r == (utf8_len(s@) <= limit),
{
    let cs = chars_of(s);
    let mut total: usize = 0;
    let mut i: usize = 0;
    while i < cs.len()
        invariant
            cs@ == s@,
            i <= cs@.len(),
            total == utf8_len(cs@.take(i as int)),
            total <= limit,
        decreases cs.len() - i,
    {
        let w = utf8_width_of(cs[i]);
        proof {
            lemma_utf8_len_step(cs@, i as int);
        }
        if w > limit - total {
            proof {
                lemma_utf8_len_prefix(cs@, i + 1);
            }
            return false;
        }
        total = total + w;
        i = i + 1;
    }
    assert(cs@.take(cs@.len() as int) =~= cs@);
    true
}

/// Reads the precision of a time stamp from its fractional part: six digits
/// or fewer mean microseconds, more mean nanoseconds.
pub fn ts_base_unit(datetime_stamp: &str) -> (r: Result<TimePrecision, ComtradeError>)
    ensures
        res_view(r) == spec_ts_base_unit(datetime_stamp@),
{
    let pieces = split_str(datetime_stamp, '.');
    if pieces.len() < 2 {
        return Err(ComtradeError::CantFindTimestampPrecision);
    }
    let last = &pieces[pieces.len() - 1];
    if utf8_len_at_most(last.as_str(), 6) {
        Ok(TimePrecision::Microseconds)
    } else {
        Ok(TimePrecision::Nanoseconds)
    }
}

/// A time stamp of the configuration file and the precision it is given in.
#[derive(Debug, Clone, Copy, PartialEq, Eq, Structural)]
pub struct ComtradeDateTime {
    pub date_time: DateTime,
    pub precision: TimePrecision,
}

/// A time stamp line from the parse results of its date and time fields.
pub open spec fn datetime_from_parsed(
    date: Result<Date, ErrorView>,
    time_text: Seq<char>,
    time: Option<TimeOfDay>,
) -> Result<ComtradeDateTime, ErrorView> {
    match date {
        Err(e) => Err(e),
        Ok(d) => match time {
            None => Err(ErrorView::InvalidValue { value: time_text, type_: "time"@, field: "time"@ }),
            Some(t) => match spec_ts_base_unit(time_text) {
                Err(e) => Err(e),
                Ok(p) => Ok(ComtradeDateTime { date_time: DateTime { date: d, time: t }, precision: p }),
            },
        },
    }
}

/// Reading a time stamp line, whose remaining fields are `rem`.
pub open spec fn spec_datetime(rem: Seq<Seq<char>>, rev: FormatRevision) -> Result<ComtradeDateTime, ErrorView> {
    if rem.len() < 2 {
        Err(ErrorView::MissingLineElements(""@))
    } else {
        datetime_from_parsed(
            spec_read_date(rev, rem[0]),
            rem[1],
            time_of(chrono_time_parse(rem[1], time_format())),
        )
    }
}

impl ComtradeDateTime {
    /// The time stamp that the parsed date and time of day give, or the error
    /// for the first of them that did not parse; the precision comes from
    /// the time text.
    pub fn from_parsed(
        date: Result<Date, ComtradeError>,
        time_text: &str,
        time: Option<TimeOfDay>,
    ) -> (r: Result<ComtradeDateTime, ComtradeError>)
        ensures
            res_view(r) == datetime_from_parsed(res_view(date), time_text@, time),
    {
        let d = date?;
        let t = match time {
            Some(t) => t,
            None => {
                return Err(
                    ComtradeError::InvalidValue {
                        value: time_text.to_owned(),
                        type_: "time",
                        field: "time",
                    },
                )
            },
        };
        let precision = ts_base_unit(time_text)?;
        Ok(ComtradeDateTime { date_time: DateTime { date: d, time: t }, precision })
    }

    /// Reads a `date,time` line, the date in the layout of the revision.
    pub fn from_config_line(line: ConfigLine, revision: &FormatRevision) -> (r: Result<
        ComtradeDateTime,
        ComtradeError,
    >)
        requires
            line.wf(),
        ensures
            res_view(r) == spec_datetime(line.remaining(), *revision),
    {
        let mut line = line;
        let date_string = line.read_next()?;
        let time_string = line.read_next()?;
        let date = revision.read_date(date_string.as_str());
        let time = parse_time_text(time_string.as_str(), "%H:%M:%S%.f");
        let r = Self::from_parsed(date, time_string.as_str(), time);
        assert(res_view(r) == datetime_from_parsed(res_view(date), time_string@, time));
        r
    }
}

} // verus!
