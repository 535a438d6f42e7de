//! The enumerated codes of a record and how their text is read.

use vstd::prelude::*;
use crate::error::{ComtradeError, ErrorView, res_view};
use crate::text::{
    ascii_lowercase, is_ascii_text, lemma_trim_ascii, push_str, str_eq, to_lowercase, trim, trimmed,
    unicode_lowercase,
};

verus! {

/// The component files of a COMTRADE record.
#[derive(Debug, Clone, Copy, PartialEq, Eq, Structural)]
pub enum FileType {
    Cfg,
    Dat,
    Hdr,
    Inf,
}

/// The layout of the samples in the `.dat` file.
#[derive(Debug, Clone, Copy, PartialEq, Eq, Structural, Default)]
pub enum DataFormat {
    #[default]
    Ascii,
    Binary16,
    Binary32,
    Float32,
}

/// Whether an analog channel's values are stated in primary or secondary terms.
#[derive(Debug, Clone, Copy, PartialEq, Eq, Structural)]
pub enum AnalogScalingMode {
    Primary,
    Secondary,
}

/// The quality of the clock that stamped the samples (IEEE C37.118 time quality code).
#[derive(Debug, Clone, Copy, PartialEq, Eq, Structural)]
pub enum TimeQuality {
    /// The clock was locked to a UTC traceable source.
    ClockLocked,
    /// The clock was unlocked; the error is within 10 to the given power of seconds.
    ClockUnlocked(i8),
    /// The clock failed; time is not reliable.
    ClockFailure,
    /// No quality information.
    Unknown,
}

/// The leap second indicator of the record.
#[derive(Debug, Clone, Copy, PartialEq, Eq, Structural)]
pub enum LeapSecondStatus {
    /// A leap second was added in the record.
    HasOccurred,
    /// The source cannot signal leap seconds.
    NoCapability,
    /// A leap second is to occur (was subtracted in the record).
    ToOccur,
    /// No leap second in the record.
    NotPresent,
    /// Not known.
    Unknown,
}

/// The file type that the lowercased name `t` denotes; `value` is the name
/// as given.
pub open spec fn file_type_from_lowered(t: Seq<char>, value: Seq<char>) -> Result<FileType, ErrorView> {
    if t == "cfg"@ {
        Ok(FileType::Cfg)
    } else if t == "dat"@ {
        Ok(FileType::Dat)
    } else if t == "hdr"@ {
        Ok(FileType::Hdr)
    } else if t == "inf"@ {
        Ok(FileType::Inf)
    } else {
        Err(ErrorView::ParserError("invalid file type: '"@ + value + "'"@))
    }
}

pub open spec fn spec_file_type(value: Seq<char>) -> Result<FileType, ErrorView> {
    file_type_from_lowered(unicode_lowercase(trim(value)), value)
}

/// The data format that the lowercased name `t` denotes; `value` is the name
/// as given.
pub open spec fn data_format_from_lowered(t: Seq<char>, value: Seq<char>) -> Result<DataFormat, ErrorView> {
    if t == "ascii"@ {
        Ok(DataFormat::Ascii)
    } else if t == "binary"@ {
        Ok(DataFormat::Binary16)
    } else if t == "binary32"@ {
        Ok(DataFormat::Binary32)
    } else if t == "float32"@ {
        Ok(DataFormat::Float32)
    } else {
        Err(
            ErrorView::ParserError(
                "unrecognised or invalid COMTRADE data format: '"@ + value + "'"@,
            ),
        )
    }
}

pub open spec fn spec_data_format(value: Seq<char>) -> Result<DataFormat, ErrorView> {
    data_format_from_lowered(unicode_lowercase(trim(value)), value)
}

/// The scaling mode that the lowercased letter `t` denotes; `value` is the
/// letter as given.
pub open spec fn scaling_mode_from_lowered(t: Seq<char>, value: Seq<char>) -> Result<
    AnalogScalingMode,
    ErrorView,
> {
    if t == "p"@ {
        Ok(AnalogScalingMode::Primary)
    } else if t == "s"@ {
        Ok(AnalogScalingMode::Secondary)
    } else {
        Err(
            ErrorView::ParserError(
                "invalid analog scaling mode: '"@ + value
                    + "'; must be one of: 's', 'S', 'p', 'P'"@,
            ),
        )
    }
}

pub open spec fn spec_scaling_mode(value: Seq<char>) -> Result<AnalogScalingMode, ErrorView> {
    scaling_mode_from_lowered(unicode_lowercase(value), value)
}

/// The time quality that a single code character denotes.
pub open spec fn time_quality_of_code(t: Seq<char>) -> Option<TimeQuality> {
    if t == "f"@ {
        Some(TimeQuality::ClockFailure)
    } else if t == "e"@ {
        Some(TimeQuality::ClockUnlocked(4i8))
    } else if t == "d"@ {
        Some(TimeQuality::ClockUnlocked(3i8))
    } else if t == "c"@ {
        Some(TimeQuality::ClockUnlocked(2i8))
    } else if t == "b"@ {
        Some(TimeQuality::ClockUnlocked(1i8))
    } else if t == "a"@ {
        Some(TimeQuality::ClockUnlocked(0i8))
    } else if t == "9"@ {
        Some(TimeQuality::ClockUnlocked(-1i8))
    } else if t == "8"@ {
        Some(TimeQuality::ClockUnlocked(-2i8))
    } else if t == "7"@ {
        Some(TimeQuality::ClockUnlocked(-3i8))
    } else if t == "6"@ {
        Some(TimeQuality::ClockUnlocked(-4i8))
    } else if t == "5"@ {
        Some(TimeQuality::ClockUnlocked(-5i8))
    } else if t == "4"@ {
        Some(TimeQuality::ClockUnlocked(-6i8))
    } else if t == "3"@ {
        Some(TimeQuality::ClockUnlocked(-7i8))
    } else if t == "2"@ {
        Some(TimeQuality::ClockUnlocked(-8i8))
    } else if t == "1"@ {
        Some(TimeQuality::ClockUnlocked(-9i8))
    } else if t == "0"@ {
        Some(TimeQuality::ClockLocked)
    } else {
        None
    }
}

/// The time quality that the lowercased code `lowered` denotes.
pub open spec fn time_quality_from_lowered(lowered: Seq<char>) -> Result<TimeQuality, ErrorView> {
    let t = trim(lowered);
    if t.len() == 0 || t == "x"@ {
        Ok(TimeQuality::Unknown)
    } else {
        match time_quality_of_code(t) {
            Some(q) => Ok(q),
            None => Err(ErrorView::ParserError("invalid time quality code '"@ + t + "'"@)),
        }
    }
}

pub open spec fn spec_time_quality(value: Seq<char>) -> Result<TimeQuality, ErrorView> {
    time_quality_from_lowered(unicode_lowercase(value))
}

pub open spec fn spec_leap_second_status(value: Seq<char>) -> Result<LeapSecondStatus, ErrorView> {
    let t = trim(value);
    if t.len() == 0 || t == "2"@ {
        Ok(LeapSecondStatus::Unknown)
    } else if t == "10"@ {
        Ok(LeapSecondStatus::HasOccurred)
    } else if t == "3"@ {
        Ok(LeapSecondStatus::NoCapability)
    } else if t == "1"@ {
        Ok(LeapSecondStatus::ToOccur)
    } else if t == "0"@ {
        Ok(LeapSecondStatus::NotPresent)
    } else {
        Err(ErrorView::ParserError("invalid leap second indicator '"@ + t + "'"@))
    }
}

/// The message `prefix` + `value` + `suffix` as a parser error.
fn quoted_error(prefix: &str, value: &str, suffix: &str) -> (r: ComtradeError)
    ensures
        r@ == ErrorView::ParserError(prefix@ + value@ + suffix@),
{
    let mut m = String::new();
    push_str(&mut m, prefix);
    push_str(&mut m, value);
    push_str(&mut m, suffix);
    ComtradeError::ParserError(m)
}

impl FileType {
    /// Reads a file type name, ignoring case and surrounding whitespace.
    pub fn parse(value: &str) -> (r: Result<FileType, ComtradeError>)
        ensures
            res_view(r) == spec_file_type(value@),
            is_ascii_text(value@) ==> res_view(r) == file_type_from_lowered(
                ascii_lowercase(trim(value@)),
                value@,
            ),
    {
        let t0 = trimmed(value);
        proof {
            if is_ascii_text(value@) {
                lemma_trim_ascii(value@);
            }
        }
        let t = to_lowercase(t0.as_str());
        Self::from_lowered(t.as_str(), value)
    }

    /// The file type that the lowercased, trimmed name `t` denotes; `value`
    /// is the name as given, for the error.
    pub fn from_lowered(t: &str, value: &str) -> (r: Result<FileType, ComtradeError>)
        ensures
            res_view(r) == file_type_from_lowered(t@, value@),
    {
        if str_eq(t, "cfg") {
            Ok(FileType::Cfg)
        } else if str_eq(t, "dat") {
            Ok(FileType::Dat)
        } else if str_eq(t, "hdr") {
            Ok(FileType::Hdr)
        } else if str_eq(t, "inf") {
            Ok(FileType::Inf)
        } else {
            Err(quoted_error("invalid file type: '", value, "'"))
        }
    }
}

impl DataFormat {
    /// Reads a data format name (`ASCII`, `BINARY`, `BINARY32`, `FLOAT32`),
    /// ignoring case and surrounding whitespace.
    pub fn parse(value: &str) -> (r: Result<DataFormat, ComtradeError>)
        ensures
            res_view(r) == spec_data_format(value@),
            is_ascii_text(value@) ==> res_view(r) == data_format_from_lowered(
                ascii_lowercase(trim(value@)),
                value@,
            ),
    {
        let t0 = trimmed(value);
        proof {
            if is_ascii_text(value@) {
                lemma_trim_ascii(value@);
            }
        }
        let t = to_lowercase(t0.as_str());
        Self::from_lowered(t.as_str(), value)
    }

    /// The data format that the lowercased, trimmed name `t` denotes;
    /// `value` is the name as given, for the error.
    pub fn from_lowered(t: &str, value: &str) -> (r: Result<DataFormat, ComtradeError>)
        ensures
            res_view(r) == data_format_from_lowered(t@, value@),
    {
        if str_eq(t, "ascii") {
            Ok(DataFormat::Ascii)
        } else if str_eq(t, "binary") {
            Ok(DataFormat::Binary16)
        } else if str_eq(t, "binary32") {
            Ok(DataFormat::Binary32)
        } else if str_eq(t, "float32") {
            Ok(DataFormat::Float32)
        } else {
            Err(quoted_error("unrecognised or invalid COMTRADE data format: '", value, "'"))
        }
    }
}

impl AnalogScalingMode {
    /// Reads `p` or `s` in either case.
    pub fn parse(value: &str) -> (r: Result<AnalogScalingMode, ComtradeError>)
        ensures
            res_view(r) == spec_scaling_mode(value@),
            is_ascii_text(value@) ==> res_view(r) == scaling_mode_from_lowered(
                ascii_lowercase(value@),
                value@,
            ),
    {
        let t = to_lowercase(value);
        Self::from_lowered(t.as_str(), value)
    }

    /// The scaling mode that the lowercased letter `t` denotes; `value` is
    /// the letter as given, for the error.
    pub fn from_lowered(t: &str, value: &str) -> (r: Result<AnalogScalingMode, ComtradeError>)
        ensures
            res_view(r) == scaling_mode_from_lowered(t@, value@),
    {
        if str_eq(t, "p") {
            Ok(AnalogScalingMode::Primary)
        } else if str_eq(t, "s") {
            Ok(AnalogScalingMode::Secondary)
        } else {
            Err(
                quoted_error(
                    "invalid analog scaling mode: '",
                    value,
                    "'; must be one of: 's', 'S', 'p', 'P'",
                ),
            )
        }
    }
}

impl TimeQuality {
    /// Reads a time quality code: a hexadecimal digit in either case, or
    /// `x` or nothing for an unknown quality.
    pub fn parse(value: &str) -> (r: Result<TimeQuality, ComtradeError>)
        ensures
            res_view(r) == spec_time_quality(value@),
            is_ascii_text(value@) ==> res_view(r) == time_quality_from_lowered(
                ascii_lowercase(value@),
            ),
    {
        let lc = to_lowercase(value);
        Self::from_lowered(lc.as_str())
    }

    /// The time quality that the lowercased code `lowered` denotes, around
    /// which whitespace is ignored.
    pub fn from_lowered(lowered: &str) -> (r: Result<TimeQuality, ComtradeError>)
        ensures
            res_view(r) == time_quality_from_lowered(lowered@),
    {
        let t = trimmed(lowered);
        let v = t.as_str();
        if v.is_empty() || str_eq(v, "x") {
            return Ok(TimeQuality::Unknown);
        }
        if str_eq(v, "f") {
            Ok(TimeQuality::ClockFailure)
        } else if str_eq(v, "e") {
            Ok(TimeQuality::ClockUnlocked(4))
        } else if str_eq(v, "d") {
            Ok(TimeQuality::ClockUnlocked(3))
        } else if str_eq(v, "c") {
            Ok(TimeQuality::ClockUnlocked(2))
        } else if str_eq(v, "b") {
            Ok(TimeQuality::ClockUnlocked(1))
        } else if str_eq(v, "a") {
            Ok(TimeQuality::ClockUnlocked(0))
        } else if str_eq(v, "9") {
            Ok(TimeQuality::ClockUnlocked(-1))
        } else if str_eq(v, "8") {
            Ok(TimeQuality::ClockUnlocked(-2))
        } else if str_eq(v, "7") {
            Ok(TimeQuality::ClockUnlocked(-3))
        } else if str_eq(v, "6") {
            Ok(TimeQuality::ClockUnlocked(-4))
        } else if str_eq(v, "5") {
            Ok(TimeQuality::ClockUnlocked(-5))
        } else if str_eq(v, "4") {
            Ok(TimeQuality::ClockUnlocked(-6))
        } else if str_eq(v, "3") {
            Ok(TimeQuality::ClockUnlocked(-7))
        } else if str_eq(v, "2") {
            Ok(TimeQuality::ClockUnlocked(-8))
        } else if str_eq(v, "1") {
            Ok(TimeQuality::ClockUnlocked(-9))
        } else if str_eq(v, "0") {
            Ok(TimeQuality::ClockLocked)
        } else {
            Err(quoted_error("invalid time quality code '", v, "'"))
        }
    }
}

impl LeapSecondStatus {
    /// Reads a leap second indicator: 10, 3, 1, 0, or 2 or nothing for unknown.
    pub fn parse(value: &str) -> (r: Result<LeapSecondStatus, ComtradeError>)
        ensures
            res_view(r) == spec_leap_second_status(value@),
    {
        let t = trimmed(value);
        let v = t.as_str();
        if v.is_empty() || str_eq(v, "2") {
            return Ok(LeapSecondStatus::Unknown);
        }
        if str_eq(v, "10") {
            Ok(LeapSecondStatus::HasOccurred)
        } else if str_eq(v, "3") {
            Ok(LeapSecondStatus::NoCapability)
        } else if str_eq(v, "1") {
            Ok(LeapSecondStatus::ToOccur)
        } else if str_eq(v, "0") {
            Ok(LeapSecondStatus::NotPresent)
        } else {
            Err(quoted_error("invalid leap second indicator '", v, "'"))
        }
    }
}

impl std::str::FromStr for FileType {
    type Err = ComtradeError;

    fn from_str(value: &str) -> (r: Result<Self, Self::Err>)
        ensures
            res_view(r) == spec_file_type(value@),
            is_ascii_text(value@) ==> res_view(r) == file_type_from_lowered(
                ascii_lowercase(trim(value@)),
                value@,
            ),
    {
        FileType::parse(value)
    }
}

impl std::str::FromStr for DataFormat {
    type Err = ComtradeError;

    fn from_str(value: &str) -> (r: Result<Self, Self::Err>)
        ensures
            res_view(r) == spec_data_format(value@),
            is_ascii_text(value@) ==> res_view(r) == data_format_from_lowered(
                ascii_lowercase(trim(value@)),
                value@,
            ),
    {
        DataFormat::parse(value)
    }
}

impl std::str::FromStr for AnalogScalingMode {
    type Err = ComtradeError;

    fn from_str(value: &str) -> (r: Result<Self, Self::Err>)
        ensures
            res_view(r) == spec_scaling_mode(value@),
            is_ascii_text(value@) ==> res_view(r) == scaling_mode_from_lowered(
                ascii_lowercase(value@),
                value@,
            ),
    {
        AnalogScalingMode::parse(value)
    }
}

impl std::str::FromStr for TimeQuality {
    type Err = ComtradeError;

    fn from_str(value: &str) -> (r: Result<Self, Self::Err>)
        ensures
            res_view(r) == spec_time_quality(value@),
            is_ascii_text(value@) ==> res_view(r) == time_quality_from_lowered(
                ascii_lowercase(value@),
            ),
    {
        TimeQuality::parse(value)
    }
}

impl std::str::FromStr for LeapSecondStatus {
    type Err = ComtradeError;

    fn from_str(value: &str) -> (r: Result<Self, Self::Err>)
        ensures
            res_view(r) == spec_leap_second_status(value@),
    {
        LeapSecondStatus::parse(value)
    }
}

} // verus!
