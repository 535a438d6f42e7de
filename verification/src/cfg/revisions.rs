//! The revision year of the standard that a record follows, and the date
//! layout that goes with it.

use vstd::prelude::*;
use crate::error::{ComtradeError, ErrorView, res_view};
use crate::text::str_eq;

verus! {

/// The revision of IEEE C37.111 that a record follows.
#[derive(Debug, Clone, Copy, PartialEq, Eq, Structural, Default)]
pub enum FormatRevision {
    #[default]
    Revision1991,
    Revision1999,
    Revision2013,
}

/// A calendar date, as the date parser of the `chrono` crate reads it.
#[derive(Debug, Clone, Copy, PartialEq, Eq, Structural)]
pub struct Date {
    pub year: i32,
    pub month: u32,
    pub day: u32,
}

/// What `chrono::NaiveDate::parse_from_str(text, format)` gives, as
/// (year, month, day), where it succeeds.
pub uninterp spec fn chrono_date_parse(text: Seq<char>, format: Seq<char>) -> Option<(i32, u32, u32)>;

pub open spec fn date_of(p: Option<(i32, u32, u32)>) -> Option<Date> {
    match p {
        Some((y, m, d)) => Some(Date { year: y, month: m, day: d }),
        None => None,
    }
}

/// Calls `chrono::NaiveDate::parse_from_str`; the result is named by
/// `chrono_date_parse`.
#[verifier::external_body]
pub(crate) fn parse_date_text(text: &str, format: &str) -> (r: Option<Date>)
    ensures
        r == date_of(chrono_date_parse(text@, format@)),
{
    chrono::NaiveDate::parse_from_str(text, format).ok().map(
        |d| Date {
            year: chrono::Datelike::year(&d),
            month: chrono::Datelike::month(&d),
            day: chrono::Datelike::day(&d),
        },
    )
}

pub open spec fn spec_revision(value: Seq<char>) -> Result<FormatRevision, ErrorView> {
    if value == "1991"@ {
        Ok(FormatRevision::Revision1991)
    } else if value == "1999"@ {
        Ok(FormatRevision::Revision1999)
    } else if value == "2013"@ {
        Ok(FormatRevision::Revision2013)
    } else {
        Err(ErrorView::BadRevisionFormat(value))
    }
}

/// The `chrono` format of a date in the given revision: month first in
/// 1991, day first since 1999.
pub open spec fn date_format(rev: FormatRevision) -> Seq<char> {
    match rev {
        FormatRevision::Revision1991 => "%m/%d/%Y"@,
        _ => "%d/%m/%Y"@,
    }
}

/// Reading a date from a parse result of its text.
pub open spec fn date_from_parsed(text: Seq<char>, parsed: Option<Date>) -> Result<Date, ErrorView> {
    match parsed {
        Some(d) => Ok(d),
        None => Err(ErrorView::InvalidValue { value: text, type_: "date"@, field: "date"@ }),
    }
}

pub open spec fn spec_read_date(rev: FormatRevision, text: Seq<char>) -> Result<Date, ErrorView> {
    date_from_parsed(text, date_of(chrono_date_parse(text, date_format(rev))))
}

impl FormatRevision {
    /// Reads a revision year: exactly `1991`, `1999` or `2013`.
    pub fn parse(value: &str) -> (r: Result<FormatRevision, ComtradeError>)
        ensures
            res_view(r) == spec_revision(value@),
    {
        if str_eq(value, "1991") {
            Ok(FormatRevision::Revision1991)
        } else if str_eq(value, "1999") {
            Ok(FormatRevision::Revision1999)
        } else if str_eq(value, "2013") {
            Ok(FormatRevision::Revision2013)
        } else {
            Err(ComtradeError::BadRevisionFormat(value.to_owned()))
        }
    }

    /// The date that a parse of `text` gave, or the error for `text`.
    pub fn date_from_parsed(text: &str, parsed: Option<Date>) -> (r: Result<Date, ComtradeError>)
        ensures
            res_view(r) == date_from_parsed(text@, parsed),
    {
        match parsed {
            Some(d) => Ok(d),
            None => Err(
                ComtradeError::InvalidValue { value: text.to_owned(), type_: "date", field: "date" },
            ),
        }
    }

    /// Reads a date in the layout of this revision: `mm/dd/yyyy` in 1991,
    /// `dd/mm/yyyy` since 1999.
    pub fn read_date(&self, date: &str) -> (r: Result<Date, ComtradeError>)
        ensures
            res_view(r) == spec_read_date(*self, date@),
    {
        let format = match self {
            FormatRevision::Revision1991 => "%m/%d/%Y",
            _ => "%d/%m/%Y",
        };
        let parsed = parse_date_text(date, format);
        Self::date_from_parsed(date, parsed)
    }
}

impl std::str::FromStr for FormatRevision {
    type Err = ComtradeError;

    fn from_str(value: &str) -> (r: Result<Self, Self::Err>)
        ensures
            res_view(r) == spec_revision(value@),
    {
        FormatRevision::parse(value)
    }
}

} // verus!
