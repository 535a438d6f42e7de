//! The sampling rate lines of the `.cfg` file.

use vstd::prelude::*;
use crate::cfg::line::{
    ConfigLine, FloatLiteral, cfg_fields, field_error, float_of, lemma_read_step, or_else, u32_of,
};
use crate::text::{parse_unsigned, split_on, trim};
use crate::error::{ComtradeError, ErrorView};

verus! {

/// A sampling rate and the last sample taken at it.
#[derive(Debug, Clone, PartialEq)]
pub struct SamplingRate {
    /// The rate, in samples per second.
    pub rate_hz: FloatLiteral,
    /// The number of the last sample taken at this rate.
    pub end_sample_number: u32,
}

pub ghost struct SamplingRateView {
    pub rate_hz: Seq<char>,
    pub end_sample_number: u32,
}

impl View for SamplingRate {
    type V = SamplingRateView;

    open spec fn view(&self) -> SamplingRateView {
        SamplingRateView { rate_hz: self.rate_hz@, end_sample_number: self.end_sample_number }
    }
}

/// The sampling rate line with fields `f`: the rate, then the last sample.
pub open spec fn spec_sampling_rate(f: Seq<Seq<char>>) -> Result<SamplingRateView, ErrorView> {
    match or_else(
        field_error(f, 0, |x: Seq<char>| float_of(x), "f64"@, "Sampling Rate: Rate"@),
        field_error(f, 1, |x: Seq<char>| u32_of(x), "u32"@, "Sampling Rate: End Sample"@),
    ) {
        Some(e) => Err(e),
        None => Ok(SamplingRateView { rate_hz: f[0], end_sample_number: u32_of(f[1])->0 }),
    }
}

/// A sampling rate line read without error holds the rate, then the number
/// of the last sample taken at it: fields 0 and 1 of the line (the texts
/// between its commas, without surrounding whitespace).
pub proof fn lemma_sampling_rate_fields(line: Seq<char>)
    ensures
        spec_sampling_rate(cfg_fields(line)) matches Ok(r) ==> {
            let p = split_on(line, ',');
            &&& p.len() >= 2
            &&& r.rate_hz == trim(p[0])
            &&& parse_unsigned(trim(p[1]), u32::MAX as nat) == Some(r.end_sample_number as nat)
        },
{
}

impl SamplingRate {
    /// Reads a sampling rate line.
    pub fn from_config_line(line: ConfigLine) -> (r: Result<SamplingRate, ComtradeError>)
        requires
            line.wf(),
        ensures
            match r {
                Ok(v) => spec_sampling_rate(line.remaining()) == Ok::<SamplingRateView, ErrorView>(v@),
                Err(e) => spec_sampling_rate(line.remaining()) == Err::<SamplingRateView, ErrorView>(e@),
            },
    {
        let ghost f = line.remaining();
        let mut line = line;
        assert(f.skip(0) =~= f);
        proof {
            lemma_read_step(f, 0);
        }
        let rate_hz = match line.read_float() {
            Ok(v) => v,
            Err(e) => return Err(e.add_context("Sampling Rate: Rate")),
        };
        proof {
            lemma_read_step(f, 1);
        }
        let end_sample_number = match line.read_u32() {
            Ok(v) => v,
            Err(e) => return Err(e.add_context("Sampling Rate: End Sample")),
        };
        Ok(SamplingRate { rate_hz, end_sample_number })
    }
}

} // verus!
