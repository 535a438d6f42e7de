//! Time offsets of the `.cfg` file, and the time basis of each sample.

use vstd::prelude::*;
use crate::error::{ComtradeError, ErrorView, res_view};
use crate::text::{
    ascii_lowercase, chars_of, decimal, is_ascii_text, lemma_trim_ascii, parse_i32_str, parse_signed, push_decimal, push_str, split_on, split_str, str_eq,
    to_lowercase, trim, trimmed, unicode_lowercase,
};

verus! {

pub open spec fn i32_of_text(s: Seq<char>) -> Option<int> {
    parse_signed(s, i32::MIN as int, i32::MAX as int)
}

pub open spec fn in_i32(x: int) -> bool {
    i32::MIN <= x <= i32::MAX
}

/// Whether the text of an hour count is written with a leading `-`, which
/// puts the offset west of UTC.
pub open spec fn is_west(hours_text: Seq<char>) -> bool {
    hours_text.len() > 0 && hours_text[0] == '-'
}

/// The offset in seconds of `hours` hours and `minutes` minutes, the minutes
/// counted in the direction that the sign of the hours' text gives (west
/// where it is `-`, so that `-0h30` is half an hour west): `None` where the
/// arithmetic on `i32` overflows.
pub open spec fn combined_offset(hours: int, minutes: int, west: bool) -> Option<int> {
    let a = hours * 3600;
    let b = minutes * 60;
    let t = if west {
        a - b
    } else {
        a + b
    };
    if in_i32(a) && in_i32(b) && in_i32(t) {
        Some(t)
    } else {
        None
    }
}

/// Whether a fixed offset of `secs` seconds from UTC can be made: less than
/// a day either way.
pub open spec fn offset_in_range(secs: int) -> bool {
    -86400 < secs < 86400
}

/// The offset (in seconds east of UTC) that a computation gave, or `None`
/// where it overflowed or falls outside the range of a fixed offset.
pub open spec fn checked_offset(secs: Option<int>) -> Option<Result<Option<i32>, ErrorView>> {
    match secs {
        Some(t) => if offset_in_range(t) {
            Some(Ok(Some(t as i32)))
        } else {
            None
        },
        None => None,
    }
}

/// Reading a COMTRADE time offset: `x` (in either case) for "not
/// applicable", a whole number of hours such as `-4`, or hours and minutes
/// such as `+10h30` (`-7h15` is 7 hours 15 minutes west). `None` where the
/// offset overflows or is a day or more from UTC.
pub open spec fn spec_time_offset(offset: Seq<char>) -> Option<Result<Option<i32>, ErrorView>> {
    spec_offset_from_lowered(trim(offset), unicode_lowercase(trim(offset)))
}

/// Reading the trimmed time offset `v`, whose lowercase form is `lowered`.
pub open spec fn spec_offset_from_lowered(v: Seq<char>, lowered: Seq<char>) -> Option<
    Result<Option<i32>, ErrorView>,
> {
    if lowered == "x"@ {
        Some(Ok(None))
    } else if i32_of_text(v) is Some {
        let h = i32_of_text(v)->0;
        checked_offset(if in_i32(h * 3600) {
            Some(h * 3600)
        } else {
            None
        })
    } else {
        let parts = split_on(v, 'h');
        if parts.len() != 2 {
            Some(Err(ErrorView::ParserError("invalid time offset on line: "@ + v)))
        } else if i32_of_text(trim(parts[0])) is None {
            Some(
                Err(
                    ErrorView::ParserError(
                        "invalid hour offset in time offset: "@ + parts[0] + " in "@ + v,
                    ),
                ),
            )
        } else if i32_of_text(trim(parts[1])) is None {
            Some(
                Err(
                    ErrorView::ParserError(
                        "invalid minute offset in time offset: "@ + parts[1] + " in "@ + v,
                    ),
                ),
            )
        } else {
            checked_offset(
                combined_offset(
                    i32_of_text(trim(parts[0]))->0,
                    i32_of_text(trim(parts[1]))->0,
                    is_west(trim(parts[0])),
                ),
            )
        }
    }
}

/// How a time offset is read, in seconds east of UTC: `x` (in either case)
/// means not applicable; a whole number `h` of hours is `3600 * h`; hours
/// `h` and minutes `m` written `<h>h<m>` are `3600 * h + 60 * m`, or
/// `3600 * h - 60 * m` where the hours are written with a leading `-`
/// (west). An offset is only made where it lies less than a day from UTC.
pub proof fn lemma_time_offset_value(v: Seq<char>, lowered: Seq<char>)
    ensures
        lowered == "x"@ ==> spec_offset_from_lowered(v, lowered) == Some(
            Ok::<Option<i32>, ErrorView>(None),
        ),
        lowered != "x"@ && parse_signed(v, i32::MIN as int, i32::MAX as int) is Some
            && spec_offset_from_lowered(v, lowered) is Some ==> {
            let h = parse_signed(v, i32::MIN as int, i32::MAX as int)->0;
            &&& -86400 < 3600 * h < 86400
            &&& spec_offset_from_lowered(v, lowered) == Some(
                Ok::<Option<i32>, ErrorView>(Some((3600 * h) as i32)),
            )
        },
        ({
            let parts = split_on(v, 'h');
            lowered != "x"@ && parse_signed(v, i32::MIN as int, i32::MAX as int) is None
                && parts.len() == 2 && parse_signed(trim(parts[0]), i32::MIN as int, i32::MAX as int)
                is Some && parse_signed(trim(parts[1]), i32::MIN as int, i32::MAX as int) is Some
                && spec_offset_from_lowered(v, lowered) is Some ==> {
                let h = parse_signed(trim(parts[0]), i32::MIN as int, i32::MAX as int)->0;
                let m = parse_signed(trim(parts[1]), i32::MIN as int, i32::MAX as int)->0;
                let west = trim(parts[0]).len() > 0 && trim(parts[0])[0] == '-';
                let t = if west {
                    3600 * h - 60 * m
                } else {
                    3600 * h + 60 * m
                };
                &&& -86400 < t < 86400
                &&& spec_offset_from_lowered(v, lowered) == Some(
                    Ok::<Option<i32>, ErrorView>(Some(t as i32)),
                )
            }
        }),
{
}

/// Whether `s` begins with `-`.
fn starts_with_minus(s: &str) -> (r: bool)
    ensures
        r == is_west(s@),
{
    let cs = chars_of(s);
    cs.len() > 0 && cs[0] == '-'
}

fn offset_error(prefix: &str, part: &str, whole: &str) -> (r: ComtradeError)
    ensures
        r@ == ErrorView::ParserError(prefix@ + part@ + " in "@ + whole@),
{
    let mut m = String::new();
    push_str(&mut m, prefix);
    push_str(&mut m, part);
    push_str(&mut m, " in ");
    push_str(&mut m, whole);
    ComtradeError::ParserError(m)
}

/// Parses a COMTRADE time offset into seconds east of UTC: `x` (either
/// case) means not applicable (`Ok(None)`); `-4` is four hours west; `+10h30`
/// is ten hours thirty minutes east and `-7h15` seven hours fifteen minutes
/// west; the sign written before the hours gives the direction, so `-0h30`
/// is half an hour west. `None` where the offset overflows or lies a day or more from UTC,
/// where no fixed offset can be made of it.
pub fn parse_time_offset(offset_str: &str) -> (r: Option<Result<Option<i32>, ComtradeError>>)
    ensures
        match r {
            None => spec_time_offset(offset_str@) is None,
            Some(x) => spec_time_offset(offset_str@) == Some(res_view(x)),
        },
        is_ascii_text(offset_str@) ==> match r {
            None => spec_offset_from_lowered(
                trim(offset_str@),
                ascii_lowercase(trim(offset_str@)),
            ) is None,
            Some(x) => spec_offset_from_lowered(
                trim(offset_str@),
                ascii_lowercase(trim(offset_str@)),
            ) == Some(res_view(x)),
        },
{
    let tv = trimmed(offset_str);
    proof {
        if is_ascii_text(offset_str@) {
            lemma_trim_ascii(offset_str@);
        }
    }
    let lc = to_lowercase(tv.as_str());
    offset_from_lowered(tv.as_str(), lc.as_str())
}

/// Reads the trimmed time offset `time_value`, whose lowercase form is
/// `lowered`: `x` means not applicable. `None` where no fixed offset can be
/// made of it.
pub fn offset_from_lowered(time_value: &str, lowered: &str) -> (r: Option<
    Result<Option<i32>, ComtradeError>,
>)
    ensures
        match r {
            None => spec_offset_from_lowered(time_value@, lowered@) is None,
            Some(x) => spec_offset_from_lowered(time_value@, lowered@) == Some(res_view(x)),
        },
{
    if str_eq(lowered, "x") {
        return Some(Ok(None));
    }
    if let Some(hours) = parse_i32_str(time_value) {
        let h = hours as i64;
        let a = h * 3600;
        if a < -86399 || a > 86399 {
            return None;
        }
        return Some(Ok(Some(a as i32)));
    }
    let parts = split_str(time_value, 'h');
    if parts.len() != 2 {
        let mut m = String::new();
        push_str(&mut m, "invalid time offset on line: ");
        push_str(&mut m, time_value);
        return Some(Err(ComtradeError::ParserError(m)));
    }
    let p0 = trimmed(parts[0].as_str());
    let hours = match parse_i32_str(p0.as_str()) {
        Some(v) => v,
        None => {
            return Some(
                Err(offset_error("invalid hour offset in time offset: ", parts[0].as_str(), time_value)),
            )
        },
    };
    let p1 = trimmed(parts[1].as_str());
    let minutes = match parse_i32_str(p1.as_str()) {
        Some(v) => v,
        None => {
            return Some(
                Err(
                    offset_error(
                        "invalid minute offset in time offset: ",
                        parts[1].as_str(),
                        time_value,
                    ),
                ),
            )
        },
    };
    let a = (hours as i64) * 3600;
    let b = (minutes as i64) * 60;
    let west = starts_with_minus(p0.as_str());
    let t = if west {
        a - b
    } else {
        a + b
    };
    if a < i32::MIN as i64 || a > i32::MAX as i64 || b < i32::MIN as i64 || b > i32::MAX as i64 || t
        < i32::MIN as i64 || t > i32::MAX as i64 {
        return None;
    }
    if t < -86399 || t > 86399 {
        return None;
    }
    Some(Ok(Some(t as i32)))
}

/// How the time of a sample is found: from the sampling rate at the given
/// index of the record's rates (the sample's number over that rate), or
/// from the timestamp stored with the sample (scaled by the time base and
/// the multiplication factor).
#[derive(Debug, Clone, Copy, PartialEq, Eq, Structural)]
pub enum TimeBasis {
    SampleRate { rate_index: usize },
    Timestamp { value: u32 },
}

/// The first rate from index `i` on that the sample `n` falls within, the
/// rates given by their last sample numbers `ends`.
pub open spec fn find_rate(ends: Seq<u32>, n: u32, i: int) -> Option<int>
    decreases ends.len() - i,
{
    if i < 0 || i >= ends.len() {
        None
    } else if n <= ends[i] {
        Some(i)
    } else {
        find_rate(ends, n, i + 1)
    }
}

/// The rate that applies to sample `n`: the first whose last sample is not
/// before `n`, else the last rate; none where there are no rates.
pub open spec fn rate_index_for(ends: Seq<u32>, n: u32) -> Option<int> {
    match find_rate(ends, n, 0) {
        Some(i) => Some(i),
        None => if ends.len() > 0 {
            Some(ends.len() - 1)
        } else {
            None
        },
    }
}

proof fn lemma_find_rate(ends: Seq<u32>, n: u32, i: int)
    requires
        0 <= i <= ends.len(),
        forall|j: int| 0 <= j < i ==> ends[j] < n,
    ensures
        match find_rate(ends, n, i) {
            Some(k) => i <= k < ends.len() && n <= ends[k] && forall|j: int|
                0 <= j < k ==> ends[j] < n,
            None => forall|j: int| 0 <= j < ends.len() ==> ends[j] < n,
        },
    decreases ends.len() - i,
{
    if i < ends.len() && !(n <= ends[i]) {
        lemma_find_rate(ends, n, i + 1);
    }
}

/// The rate chosen for a sample is the first that it falls within (its
/// last sample is not before the sample), and the last rate where it falls
/// within none; there is a rate unless there are none.
pub proof fn lemma_rate_is_first_fit(ends: Seq<u32>, n: u32)
    ensures
        rate_index_for(ends, n) is None <==> ends.len() == 0,
        rate_index_for(ends, n) matches Some(k) ==> {
            &&& 0 <= k < ends.len()
            &&& forall|j: int| 0 <= j < k ==> ends[j] < n
            &&& n <= ends[k] || (k == ends.len() - 1 && forall|j: int|
                0 <= j < ends.len() ==> ends[j] < n)
        },
{
    lemma_find_rate(ends, n, 0);
}

/// The time basis of sample `n` stored with `timestamp`: its rate unless
/// timestamps are critical (the record has no sampling rates) and the
/// sample has one.
pub open spec fn spec_time_basis(
    is_timestamp_critical: bool,
    ends: Seq<u32>,
    n: u32,
    timestamp: Option<u32>,
) -> Result<TimeBasis, ErrorView> {
    if !is_timestamp_critical || timestamp is None {
        match rate_index_for(ends, n) {
            Some(i) => Ok(TimeBasis::SampleRate { rate_index: i as usize }),
            None => Err(
                ErrorView::ParserError(
                    "could not determine sampling rate for sample number "@ + decimal(n as nat),
                ),
            ),
        }
    } else {
        Ok(TimeBasis::Timestamp { value: timestamp->0 })
    }
}

/// The index of the sampling rate that applies to sample `sample_number`,
/// the rates given by their last sample numbers `ends`.
pub fn sampling_rate_for_sample(ends: &Vec<u32>, sample_number: u32) -> (r: Result<
    usize,
    ComtradeError,
>)
    ensures
        match r {
            Ok(i) => rate_index_for(ends@, sample_number) == Some(i as int),
            Err(e) => rate_index_for(ends@, sample_number) is None && e@ == ErrorView::ParserError(
                "could not determine sampling rate for sample number "@ + decimal(
                    sample_number as nat,
                ),
            ),
        },
{
    let mut i: usize = 0;
    while i < ends.len()
        invariant
            i <= ends@.len(),
            find_rate(ends@, sample_number, 0) == find_rate(ends@, sample_number, i as int),
        decreases ends.len() - i,
    {
        if sample_number <= ends[i] {
            return Ok(i);
        }
        i = i + 1;
    }
    if ends.len() > 0 {
        Ok(ends.len() - 1)
    } else {
        let mut m = String::new();
        push_str(&mut m, "could not determine sampling rate for sample number ");
        push_decimal(&mut m, sample_number as u64);
        Err(ComtradeError::ParserError(m))
    }
}

/// The time basis of a sample with number `sample_number` stored with
/// `timestamp`: the timestamp where timestamps are critical and the sample
/// has one, else the sampling rate that applies to the sample. The
/// skew of a channel is not part of it.
pub fn real_time(
    is_timestamp_critical: bool,
    ends: &Vec<u32>,
    sample_number: u32,
    timestamp: Option<u32>,
) -> (r: Result<TimeBasis, ComtradeError>)
    ensures
        res_view(r) == spec_time_basis(is_timestamp_critical, ends@, sample_number, timestamp),
{
    match timestamp {
        Some(value) if is_timestamp_critical => Ok(TimeBasis::Timestamp { value }),
        _ => {
            let i = sampling_rate_for_sample(ends, sample_number)?;
            Ok(TimeBasis::SampleRate { rate_index: i })
        },
    }
}

} // verus!
