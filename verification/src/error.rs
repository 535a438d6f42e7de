//! The error type of every parsing and validation step.

use vstd::prelude::*;
use crate::text::{decimal, push_decimal, push_str};

verus! {

/// The primary error type for all COMTRADE parsing and validation operations.
#[derive(Debug, PartialEq, Clone)]
pub enum ComtradeError {
    /// A line of the `.cfg` file has fewer comma-separated elements than required.
    MissingLineElements(&'static str),
    /// A field cannot be parsed into its expected type.
    InvalidValue {
        /// The raw text that failed to parse.
        value: String,
        /// The name of the target type.
        type_: &'static str,
        /// The context or field name.
        field: &'static str,
    },
    /// The `.cfg` file ends before all expected sections are read.
    UnexpectedEndOfCfgFile,
    /// The revision year is not one of 1991, 1999, 2013.
    BadRevisionFormat(String),
    /// The normal status of the status channel with this (1-based) index is
    /// neither 0 nor 1.
    InvalidNormalStatus(usize),
    /// A general parsing or format error, with its message.
    ParserError(String),
    /// The timestamp precision cannot be determined from the fractional part.
    CantFindTimestampPrecision,
}

/// A `ComtradeError` with its texts as character sequences.
pub ghost enum ErrorView {
    MissingLineElements(Seq<char>),
    InvalidValue { value: Seq<char>, type_: Seq<char>, field: Seq<char> },
    UnexpectedEndOfCfgFile,
    BadRevisionFormat(Seq<char>),
    InvalidNormalStatus(nat),
    ParserError(Seq<char>),
    CantFindTimestampPrecision,
}

impl View for ComtradeError {
    type V = ErrorView;

    open spec fn view(&self) -> ErrorView {
        match self {
            ComtradeError::MissingLineElements(c) => ErrorView::MissingLineElements(c@),
            ComtradeError::InvalidValue { value, type_, field } => ErrorView::InvalidValue {
                value: value@,
                type_: type_@,
                field: field@,
            },
            ComtradeError::UnexpectedEndOfCfgFile => ErrorView::UnexpectedEndOfCfgFile,
            ComtradeError::BadRevisionFormat(v) => ErrorView::BadRevisionFormat(v@),
            ComtradeError::InvalidNormalStatus(i) => ErrorView::InvalidNormalStatus(*i as nat),
            ComtradeError::ParserError(m) => ErrorView::ParserError(m@),
            ComtradeError::CantFindTimestampPrecision => ErrorView::CantFindTimestampPrecision,
        }
    }
}


/// A result with its error taken by its view.
pub open spec fn res_view<T>(r: Result<T, ComtradeError>) -> Result<T, ErrorView> {
    match r {
        Ok(v) => Ok(v),
        Err(e) => Err(e@),
    }
}

/// The context that `add_context` gives an error.
pub open spec fn with_context(e: ErrorView, msg: Seq<char>) -> ErrorView {
    match e {
        ErrorView::MissingLineElements(_) => ErrorView::MissingLineElements(msg),
        ErrorView::InvalidValue { value, type_, field: _ } => ErrorView::InvalidValue {
            value,
            type_,
            field: msg,
        },
        _ => e,
    }
}

/// Adding context twice leaves the second context: the last one wins.
pub proof fn lemma_context_last_wins(e: ErrorView, a: Seq<char>, b: Seq<char>)
    ensures
        with_context(with_context(e, a), b) == with_context(e, b),
{
}

/// Adding context keeps the kind of an error and, but for its context, all
/// it holds.
pub proof fn lemma_context_keeps_kind(e: ErrorView, msg: Seq<char>)
    ensures
        with_context(e, msg) is MissingLineElements <==> e is MissingLineElements,
        with_context(e, msg) is InvalidValue <==> e is InvalidValue,
        e is InvalidValue ==> with_context(e, msg)->value == e->value && with_context(
            e,
            msg,
        )->type_ == e->type_,
        !(e is MissingLineElements || e is InvalidValue) ==> with_context(e, msg) == e,
{
}

/// The text that describes an error to a reader.
pub open spec fn error_message(e: ErrorView) -> Seq<char> {
    match e {
        ErrorView::MissingLineElements(c) => "Missing elements on line. Context: "@ + c,
        ErrorView::InvalidValue { value, type_, field } => "Unable to parse value: "@ + value
            + " as "@ + type_ + " for "@ + field + "."@,
        ErrorView::UnexpectedEndOfCfgFile => "Unexpected end of cfg file."@,
        ErrorView::BadRevisionFormat(v) => "Invalid version string: "@ + v,
        ErrorView::InvalidNormalStatus(i) => "The normal status for status channel index "@
            + decimal(i) + " is invalid. It must be 0 or 1."@,
        ErrorView::ParserError(m) => "Parser Error: "@ + m,
        ErrorView::CantFindTimestampPrecision => "Unable to find timestamp precision"@,
    }
}

impl ComtradeError {
    /// A general parser error with the given message.
    pub fn new(message: String) -> (r: Self)
        ensures
            r@ == ErrorView::ParserError(message@),
    {
        ComtradeError::ParserError(message)
    }

    /// Adds or updates context information for the error, if applicable:
    /// a missing-elements error takes `msg` as its context, an invalid-value
    /// error takes it as its field name, any other error is unchanged.
    pub fn add_context(self, msg: &'static str) -> (r: Self)
        ensures
            r@ == with_context(self@, msg@),
    {
        match self {
            ComtradeError::MissingLineElements(_) => ComtradeError::MissingLineElements(msg),
            ComtradeError::InvalidValue { value, type_, field: _ } => ComtradeError::InvalidValue {
                value,
                type_,
                field: msg,
            },
            _ => self,
        }
    }

    /// The text that describes the error to a reader.
    pub fn message(&self) -> (r: String)
        ensures
            r@ == error_message(self@),
    {
        let mut s = String::new();
        match self {
            ComtradeError::MissingLineElements(c) => {
                push_str(&mut s, "Missing elements on line. Context: ");
                push_str(&mut s, c);
            },
            ComtradeError::InvalidValue { value, type_, field } => {
                push_str(&mut s, "Unable to parse value: ");
                push_str(&mut s, value.as_str());
                push_str(&mut s, " as ");
                push_str(&mut s, type_);
                push_str(&mut s, " for ");
                push_str(&mut s, field);
                push_str(&mut s, ".");
            },
            ComtradeError::UnexpectedEndOfCfgFile => {
                push_str(&mut s, "Unexpected end of cfg file.");
            },
            ComtradeError::BadRevisionFormat(v) => {
                push_str(&mut s, "Invalid version string: ");
                push_str(&mut s, v.as_str());
            },
            ComtradeError::InvalidNormalStatus(i) => {
                push_str(&mut s, "The normal status for status channel index ");
                push_decimal(&mut s, *i as u64);
                push_str(&mut s, " is invalid. It must be 0 or 1.");
            },
            ComtradeError::ParserError(m) => {
                push_str(&mut s, "Parser Error: ");
                push_str(&mut s, m.as_str());
            },
            ComtradeError::CantFindTimestampPrecision => {
                push_str(&mut s, "Unable to find timestamp precision");
            },
        }
        s
    }
}

} // verus!
