//! The whole `.cfg` file, read line by line.

use vstd::prelude::*;
use crate::cfg::analog_channels::{AnalogConfig, AnalogConfigView, spec_analog_config};
use crate::cfg::channel_sizes::{ChannelSizes, spec_channel_sizes};
use crate::cfg::id_line::{IdRow, IdRowView, spec_id_row};
use crate::cfg::line::{
    FloatLiteral, cfg_fields, float_of, i32_of, lemma_read_step, ok_of, read_field, split_cfg_line,
    u32_of,
};
use crate::cfg::sample_rates::{SamplingRate, SamplingRateView, spec_sampling_rate};
use crate::cfg::date_time::{ComtradeDateTime, TimePrecision, finer, spec_datetime};
use crate::codes::{
    DataFormat, LeapSecondStatus, TimeQuality, spec_data_format, spec_leap_second_status,
    spec_time_quality,
};
use crate::time::{parse_time_offset, spec_time_offset};
use crate::text::{
    join_lines, lemma_split_join, lemma_split_pieces_plain, parse_signed, parse_unsigned, trim,
    trimmed,
};
use crate::cfg::revisions::FormatRevision;
use crate::cfg::status_channel::{StatusConfig, StatusConfigView, spec_status_config};
use crate::error::{ComtradeError, ErrorView, res_view};
use crate::text::{lemma_split_on_nonempty, split_on, split_str};

verus! {

/// The lines of a `.cfg` file.
pub open spec fn cfg_lines(contents: Seq<char>) -> Seq<Seq<char>> {
    split_on(contents, '\n')
}

pub open spec fn analog_views(v: Seq<AnalogConfig>) -> Seq<AnalogConfigView> {
    v.map_values(|c: AnalogConfig| c@)
}

pub open spec fn status_views(v: Seq<StatusConfig>) -> Seq<StatusConfigView> {
    v.map_values(|c: StatusConfig| c@)
}

/// The `n` analog channel lines from line `start` on.
pub open spec fn spec_analog_configs(
    lines: Seq<Seq<char>>,
    start: int,
    n: nat,
    rev: FormatRevision,
) -> Result<Seq<AnalogConfigView>, ErrorView>
    decreases n,
{
    if n == 0 {
        Ok(Seq::empty())
    } else {
        match spec_analog_configs(lines, start, (n - 1) as nat, rev) {
            Err(e) => Err(e),
            Ok(s) => {
                let k = start + n - 1;
                if k >= lines.len() {
                    Err(ErrorView::UnexpectedEndOfCfgFile)
                } else {
                    match spec_analog_config(cfg_fields(lines[k]), rev) {
                        Err(e) => Err(e),
                        Ok(c) => Ok(s.push(c)),
                    }
                }
            },
        }
    }
}

/// The `n` status channel lines from line `start` on.
pub open spec fn spec_status_configs(
    lines: Seq<Seq<char>>,
    start: int,
    n: nat,
    rev: FormatRevision,
) -> Result<Seq<StatusConfigView>, ErrorView>
    decreases n,
{
    if n == 0 {
        Ok(Seq::empty())
    } else {
        match spec_status_configs(lines, start, (n - 1) as nat, rev) {
            Err(e) => Err(e),
            Ok(s) => {
                let k = start + n - 1;
                if k >= lines.len() {
                    Err(ErrorView::UnexpectedEndOfCfgFile)
                } else {
                    match spec_status_config(cfg_fields(lines[k]), rev) {
                        Err(e) => Err(e),
                        Ok(c) => Ok(s.push(c)),
                    }
                }
            },
        }
    }
}


proof fn lemma_analog_err_persists(lines: Seq<Seq<char>>, start: int, m: nat, n: nat, rev: FormatRevision)
    requires
        m <= n,
        spec_analog_configs(lines, start, m, rev) is Err,
    ensures
        spec_analog_configs(lines, start, n, rev) == spec_analog_configs(lines, start, m, rev),
    decreases n - m,
{
    if m < n {
        lemma_analog_err_persists(lines, start, m, (n - 1) as nat, rev);
    }
}

proof fn lemma_status_err_persists(lines: Seq<Seq<char>>, start: int, m: nat, n: nat, rev: FormatRevision)
    requires
        m <= n,
        spec_status_configs(lines, start, m, rev) is Err,
    ensures
        spec_status_configs(lines, start, n, rev) == spec_status_configs(lines, start, m, rev),
    decreases n - m,
{
    if m < n {
        lemma_status_err_persists(lines, start, m, (n - 1) as nat, rev);
    }
}

/// The channel part of a `.cfg` file: identification, channel counts, and
/// one configuration line per channel.
pub ghost struct CfgChannelsView {
    pub id: IdRowView,
    pub analog: Seq<AnalogConfigView>,
    pub status: Seq<StatusConfigView>,
}

/// Reading the channel part of the lines `lines`; `None` where a channel
/// count cannot be sliced.
pub open spec fn spec_cfg_channels(lines: Seq<Seq<char>>) -> Option<Result<CfgChannelsView, ErrorView>> {
    match spec_id_row(cfg_fields(lines[0])) {
        Err(e) => Some(Err(e)),
        Ok(id) => if lines.len() < 2 {
            Some(Err(ErrorView::UnexpectedEndOfCfgFile))
        } else {
            match spec_channel_sizes(cfg_fields(lines[1])) {
                None => None,
                Some(Err(e)) => Some(Err(e)),
                Some(Ok(sizes)) => match spec_analog_configs(
                    lines,
                    2,
                    sizes.analog as nat,
                    id.format_revision,
                ) {
                    Err(e) => Some(Err(e)),
                    Ok(analog) => match spec_status_configs(
                        lines,
                        2 + sizes.analog,
                        sizes.status as nat,
                        id.format_revision,
                    ) {
                        Err(e) => Some(Err(e)),
                        Ok(status) => Some(Ok(CfgChannelsView { id, analog, status })),
                    },
                },
            }
        },
    }
}

/// The channel part of a `.cfg` file.
pub struct CfgChannels {
    pub id: IdRow,
    pub analog: Vec<AnalogConfig>,
    pub status: Vec<StatusConfig>,
}

impl View for CfgChannels {
    type V = CfgChannelsView;

    open spec fn view(&self) -> CfgChannelsView {
        CfgChannelsView { id: self.id@, analog: analog_views(self.analog@), status: status_views(self.status@) }
    }
}

pub open spec fn string_views(v: Seq<String>) -> Seq<Seq<char>> {
    v.map_values(|s: String| s@)
}

fn read_analog_configs(lines: &Vec<String>, start: usize, n: usize, rev: FormatRevision) -> (r: Result<
    Vec<AnalogConfig>,
    ComtradeError,
>)
    requires
        start <= lines@.len(),
    ensures
        match r {
            Ok(v) => spec_analog_configs(string_views(lines@), start as int, n as nat, rev) == Ok::<
                Seq<AnalogConfigView>,
                ErrorView,
            >(analog_views(v@)) && v@.len() == n && start + n <= lines@.len(),
            Err(e) => spec_analog_configs(string_views(lines@), start as int, n as nat, rev)
                == Err::<Seq<AnalogConfigView>, ErrorView>(e@),
        },
{
    let ghost ls = string_views(lines@);
    let mut out: Vec<AnalogConfig> = Vec::new();
    let mut i: usize = 0;
    let mut k: usize = start;
    assert(analog_views(out@) =~= Seq::empty());
    while i < n
        invariant
            ls == string_views(lines@),
            i <= n,
            k == start + i,
            k <= lines@.len(),
            out@.len() == i,
            spec_analog_configs(ls, start as int, i as nat, rev) == Ok::<
                Seq<AnalogConfigView>,
                ErrorView,
            >(analog_views(out@)),
        decreases n - i,
    {
        if k >= lines.len() {
            proof {
                lemma_analog_err_persists(ls, start as int, (i + 1) as nat, n as nat, rev);
            }
            return Err(ComtradeError::UnexpectedEndOfCfgFile);
        }
        let line = split_cfg_line(lines[k].as_str());
        let c = match AnalogConfig::from_cfg_row(line, &rev) {
            Ok(c) => c,
            Err(e) => {
                proof {
                    lemma_analog_err_persists(ls, start as int, (i + 1) as nat, n as nat, rev);
                }
                return Err(e);
            },
        };
        let ghost before = out@;
        out.push(c);
        assert(analog_views(out@) =~= analog_views(before).push(c@));
        i = i + 1;
        k = k + 1;
    }
    Ok(out)
}

fn read_status_configs(lines: &Vec<String>, start: usize, n: usize, rev: FormatRevision) -> (r: Result<
    Vec<StatusConfig>,
    ComtradeError,
>)
    requires
        start <= lines@.len(),
    ensures
        match r {
            Ok(v) => spec_status_configs(string_views(lines@), start as int, n as nat, rev) == Ok::<
                Seq<StatusConfigView>,
                ErrorView,
            >(status_views(v@)) && v@.len() == n && start + n <= lines@.len(),
            Err(e) => spec_status_configs(string_views(lines@), start as int, n as nat, rev)
                == Err::<Seq<StatusConfigView>, ErrorView>(e@),
        },
{
    let ghost ls = string_views(lines@);
    let mut out: Vec<StatusConfig> = Vec::new();
    let mut i: usize = 0;
    let mut k: usize = start;
    assert(status_views(out@) =~= Seq::empty());
    while i < n
        invariant
            ls == string_views(lines@),
            i <= n,
            k == start + i,
            k <= lines@.len(),
            out@.len() == i,
            spec_status_configs(ls, start as int, i as nat, rev) == Ok::<
                Seq<StatusConfigView>,
                ErrorView,
            >(status_views(out@)),
        decreases n - i,
    {
        if k >= lines.len() {
            proof {
                lemma_status_err_persists(ls, start as int, (i + 1) as nat, n as nat, rev);
            }
            return Err(ComtradeError::UnexpectedEndOfCfgFile);
        }
        let line = split_cfg_line(lines[k].as_str());
        let c = match StatusConfig::from_config_row(line, &rev) {
            Ok(c) => c,
            Err(e) => {
                proof {
                    lemma_status_err_persists(ls, start as int, (i + 1) as nat, n as nat, rev);
                }
                return Err(e);
            },
        };
        let ghost before = out@;
        out.push(c);
        assert(status_views(out@) =~= status_views(before).push(c@));
        i = i + 1;
        k = k + 1;
    }
    Ok(out)
}

/// Reads the identification, the channel counts and the channel lines.
pub fn read_cfg_channels(lines: &Vec<String>) -> (r: Option<Result<CfgChannels, ComtradeError>>)
    requires
        lines@.len() >= 1,
    ensures
        match r {
            None => spec_cfg_channels(string_views(lines@)) is None,
            Some(Ok(c)) => spec_cfg_channels(string_views(lines@)) == Some(
                Ok::<CfgChannelsView, ErrorView>(c@),
            ) && 2 + c.analog@.len() + c.status@.len() <= lines@.len(),
            Some(Err(e)) => spec_cfg_channels(string_views(lines@)) == Some(
                Err::<CfgChannelsView, ErrorView>(e@),
            ),
        },
{
    let id = match IdRow::from_config_line(split_cfg_line(lines[0].as_str())) {
        Ok(v) => v,
        Err(e) => return Some(Err(e)),
    };
    if lines.len() < 2 {
        return Some(Err(ComtradeError::UnexpectedEndOfCfgFile));
    }
    let sizes = match ChannelSizes::from_line(split_cfg_line(lines[1].as_str())) {
        None => return None,
        Some(Ok(s)) => s,
        Some(Err(e)) => return Some(Err(e)),
    };
    let analog = match read_analog_configs(lines, 2, sizes.analog, id.format_revision) {
        Ok(v) => v,
        Err(e) => return Some(Err(e)),
    };
    let status = match read_status_configs(lines, 2 + sizes.analog, sizes.status, id.format_revision) {
        Ok(v) => v,
        Err(e) => return Some(Err(e)),
    };
    Some(Ok(CfgChannels { id, analog, status }))
}


pub open spec fn rate_views(v: Seq<SamplingRate>) -> Seq<SamplingRateView> {
    v.map_values(|c: SamplingRate| c@)
}

/// The `n` sampling rate lines from line `start` on.
pub open spec fn spec_sampling_rates(lines: Seq<Seq<char>>, start: int, n: nat) -> Result<
    Seq<SamplingRateView>,
    ErrorView,
>
    decreases n,
{
    if n == 0 {
        Ok(Seq::empty())
    } else {
        match spec_sampling_rates(lines, start, (n - 1) as nat) {
            Err(e) => Err(e),
            Ok(s) => {
                let k = start + n - 1;
                if k >= lines.len() {
                    Err(ErrorView::UnexpectedEndOfCfgFile)
                } else {
                    match spec_sampling_rate(cfg_fields(lines[k])) {
                        Err(e) => Err(e),
                        Ok(c) => Ok(s.push(c)),
                    }
                }
            },
        }
    }
}

proof fn lemma_rates_err_persists(lines: Seq<Seq<char>>, start: int, m: nat, n: nat)
    requires
        m <= n,
        spec_sampling_rates(lines, start, m) is Err,
    ensures
        spec_sampling_rates(lines, start, n) == spec_sampling_rates(lines, start, m),
    decreases n - m,
{
    if m < n {
        lemma_rates_err_persists(lines, start, m, (n - 1) as nat);
    }
}

/// The largest last-sample number of the rates (0 for none).
pub open spec fn max_end_sample(rates: Seq<SamplingRateView>) -> u32
    decreases rates.len(),
{
    if rates.len() == 0 {
        0
    } else {
        let m = max_end_sample(rates.drop_last());
        if rates.last().end_sample_number > m {
            rates.last().end_sample_number
        } else {
            m
        }
    }
}

/// The sampling part of a `.cfg` file.
pub ghost struct CfgRatesView {
    pub line_frequency: Seq<char>,
    pub sampling_rates: Seq<SamplingRateView>,
    pub total_num_samples: nat,
    pub is_timestamp_critical: bool,
    /// The line after the sampling part.
    pub next: int,
}

/// Reading the sampling part from line `p` on: the line frequency, the
/// number of rates, one line per rate; where there is no rate, a line
/// `0,endsamp` with the number of samples (timestamps are then critical).
/// `None` where the number of rates is negative (no room can be reserved
/// for them).
pub open spec fn spec_cfg_rates(lines: Seq<Seq<char>>, p: int) -> Option<Result<CfgRatesView, ErrorView>> {
    if p >= lines.len() {
        Some(Err(ErrorView::UnexpectedEndOfCfgFile))
    } else {
        match read_field(cfg_fields(lines[p]), |x: Seq<char>| float_of(x), "f64"@) {
            Err(e) => Some(Err(e)),
            Ok(line_frequency) => if p + 1 >= lines.len() {
                Some(Err(ErrorView::UnexpectedEndOfCfgFile))
            } else {
                match read_field(cfg_fields(lines[p + 1]), |x: Seq<char>| i32_of(x), "i32"@) {
                    Err(e) => Some(Err(e)),
                    Ok(nr) => if nr < 0 {
                        None
                    } else {
                        match spec_sampling_rates(lines, p + 2, nr as nat) {
                            Err(e) => Some(Err(e)),
                            Ok(rates) => {
                                let q = p + 2 + nr;
                                if nr != 0 {
                                    Some(
                                        Ok(
                                            CfgRatesView {
                                                line_frequency,
                                                sampling_rates: rates,
                                                total_num_samples: max_end_sample(rates) as nat,
                                                is_timestamp_critical: false,
                                                next: q,
                                            },
                                        ),
                                    )
                                } else if q >= lines.len() {
                                    Some(Err(ErrorView::UnexpectedEndOfCfgFile))
                                } else {
                                    let f = cfg_fields(lines[q]);
                                    match read_field(f, |x: Seq<char>| u32_of(x), "u32"@) {
                                        Err(e) => Some(Err(e)),
                                        Ok(_) => match read_field(
                                            f.drop_first(),
                                            |x: Seq<char>| u32_of(x),
                                            "u32"@,
                                        ) {
                                            Err(e) => Some(Err(e)),
                                            Ok(endsamp) => Some(
                                                Ok(
                                                    CfgRatesView {
                                                        line_frequency,
                                                        sampling_rates: rates,
                                                        total_num_samples: endsamp as nat,
                                                        is_timestamp_critical: true,
                                                        next: q + 1,
                                                    },
                                                ),
                                            ),
                                        },
                                    }
                                }
                            },
                        }
                    },
                }
            },
        }
    }
}

/// The sampling part of a `.cfg` file.
pub struct CfgRates {
    pub line_frequency: FloatLiteral,
    pub sampling_rates: Vec<SamplingRate>,
    pub total_num_samples: usize,
    pub is_timestamp_critical: bool,
    pub next: usize,
}

impl View for CfgRates {
    type V = CfgRatesView;

    open spec fn view(&self) -> CfgRatesView {
        CfgRatesView {
            line_frequency: self.line_frequency@,
            sampling_rates: rate_views(self.sampling_rates@),
            total_num_samples: self.total_num_samples as nat,
            is_timestamp_critical: self.is_timestamp_critical,
            next: self.next as int,
        }
    }
}

fn read_sampling_rates(lines: &Vec<String>, start: usize, n: usize) -> (r: Result<
    Vec<SamplingRate>,
    ComtradeError,
>)
    requires
        start <= lines@.len(),
    ensures
        match r {
            Ok(v) => spec_sampling_rates(string_views(lines@), start as int, n as nat) == Ok::<
                Seq<SamplingRateView>,
                ErrorView,
            >(rate_views(v@)) && v@.len() == n && start + n <= lines@.len(),
            Err(e) => spec_sampling_rates(string_views(lines@), start as int, n as nat) == Err::<
                Seq<SamplingRateView>,
                ErrorView,
            >(e@),
        },
{
    let ghost ls = string_views(lines@);
    let mut out: Vec<SamplingRate> = Vec::new();
    let mut i: usize = 0;
    let mut k: usize = start;
    assert(rate_views(out@) =~= Seq::empty());
    while i < n
        invariant
            ls == string_views(lines@),
            i <= n,
            k == start + i,
            k <= lines@.len(),
            out@.len() == i,
            spec_sampling_rates(ls, start as int, i as nat) == Ok::<
                Seq<SamplingRateView>,
                ErrorView,
            >(rate_views(out@)),
        decreases n - i,
    {
        if k >= lines.len() {
            proof {
                lemma_rates_err_persists(ls, start as int, (i + 1) as nat, n as nat);
            }
            return Err(ComtradeError::UnexpectedEndOfCfgFile);
        }
        let line = split_cfg_line(lines[k].as_str());
        let c = match SamplingRate::from_config_line(line) {
            Ok(c) => c,
            Err(e) => {
                proof {
                    lemma_rates_err_persists(ls, start as int, (i + 1) as nat, n as nat);
                }
                return Err(e);
            },
        };
        let ghost before = out@;
        out.push(c);
        assert(rate_views(out@) =~= rate_views(before).push(c@));
        i = i + 1;
        k = k + 1;
    }
    Ok(out)
}

/// The largest last-sample number of the rates (0 for none).
fn max_end_sample_of(rates: &Vec<SamplingRate>) -> (r: u32)
    ensures
        r == max_end_sample(rate_views(rates@)),
{
    let mut m: u32 = 0;
    let mut i: usize = 0;
    assert(rate_views(rates@).take(0) =~= Seq::<SamplingRateView>::empty());
    while i < rates.len()
        invariant
            i <= rates@.len(),
            m == max_end_sample(rate_views(rates@).take(i as int)),
        decreases rates.len() - i,
    {
        assert(rate_views(rates@).take(i + 1).drop_last() =~= rate_views(rates@).take(i as int));
        if rates[i].end_sample_number > m {
            m = rates[i].end_sample_number;
        }
        i = i + 1;
    }
    assert(rate_views(rates@).take(rates@.len() as int) =~= rate_views(rates@));
    m
}

/// Reads the sampling part from line `p` on.
pub fn read_cfg_rates(lines: &Vec<String>, p: usize) -> (r: Option<Result<CfgRates, ComtradeError>>)
    requires
        p <= lines@.len(),
    ensures
        match r {
            None => spec_cfg_rates(string_views(lines@), p as int) is None,
            Some(Ok(c)) => spec_cfg_rates(string_views(lines@), p as int) == Some(
                Ok::<CfgRatesView, ErrorView>(c@),
            ) && c.next <= lines@.len(),
            Some(Err(e)) => spec_cfg_rates(string_views(lines@), p as int) == Some(
                Err::<CfgRatesView, ErrorView>(e@),
            ),
        },
{
    if p >= lines.len() {
        return Some(Err(ComtradeError::UnexpectedEndOfCfgFile));
    }
    let mut line = split_cfg_line(lines[p].as_str());
    let line_frequency = match line.read_float() {
        Ok(v) => v,
        Err(e) => return Some(Err(e)),
    };
    if p + 1 >= lines.len() {
        return Some(Err(ComtradeError::UnexpectedEndOfCfgFile));
    }
    let mut line = split_cfg_line(lines[p + 1].as_str());
    let num_sampling_rates = match line.read_i32() {
        Ok(v) => v,
        Err(e) => return Some(Err(e)),
    };
    if num_sampling_rates < 0 {
        return None;
    }
    let n = num_sampling_rates as usize;
    let sampling_rates = match read_sampling_rates(lines, p + 2, n) {
        Ok(v) => v,
        Err(e) => return Some(Err(e)),
    };
    let q = p + 2 + n;
    if n != 0 {
        let total = max_end_sample_of(&sampling_rates);
        return Some(
            Ok(
                CfgRates {
                    line_frequency,
                    sampling_rates,
                    total_num_samples: total as usize,
                    is_timestamp_critical: false,
                    next: q,
                },
            ),
        );
    }
    if q >= lines.len() {
        return Some(Err(ComtradeError::UnexpectedEndOfCfgFile));
    }
    let mut line = split_cfg_line(lines[q].as_str());
    match line.read_u32() {
        Ok(_) => {},
        Err(e) => return Some(Err(e)),
    }
    let endsamp = match line.read_u32() {
        Ok(v) => v,
        Err(e) => return Some(Err(e)),
    };
    Some(
        Ok(
            CfgRates {
                line_frequency,
                sampling_rates,
                total_num_samples: endsamp as usize,
                is_timestamp_critical: true,
                next: q + 1,
            },
        ),
    )
}


/// The timing part of a `.cfg` file.
pub ghost struct CfgTimesView {
    pub start_time: ComtradeDateTime,
    pub trigger_time: ComtradeDateTime,
    pub data_format: DataFormat,
    pub timestamp_multiplication_factor: Option<Seq<char>>,
    pub time_offset: Option<i32>,
    pub local_offset: Option<i32>,
    pub time_quality: Option<TimeQuality>,
    pub leap_second_status: Option<LeapSecondStatus>,
}

/// The two offsets of a 2013 file's offset line with fields `f`.
pub open spec fn spec_offsets(f: Seq<Seq<char>>) -> Option<Result<(Option<i32>, Option<i32>), ErrorView>> {
    match read_field(f, |x: Seq<char>| Some(x), ""@) {
        Err(e) => Some(Err(e)),
        Ok(t) => match spec_time_offset(t) {
            None => None,
            Some(Err(e)) => Some(Err(e)),
            Some(Ok(time_offset)) => match read_field(f.drop_first(), |x: Seq<char>| Some(x), ""@) {
                Err(e) => Some(Err(e)),
                Ok(l) => match spec_time_offset(l) {
                    None => None,
                    Some(Err(e)) => Some(Err(e)),
                    Some(Ok(local_offset)) => Some(Ok((time_offset, local_offset))),
                },
            },
        },
    }
}

/// The time quality and leap second line with fields `f`.
pub open spec fn spec_quality(f: Seq<Seq<char>>) -> Result<(TimeQuality, LeapSecondStatus), ErrorView> {
    match read_field(
        f,
        |x: Seq<char>| ok_of(spec_time_quality(x)),
        "comtrade::codes::TimeQuality"@,
    ) {
        Err(e) => Err(e),
        Ok(q) => match read_field(
            f.drop_first(),
            |x: Seq<char>| ok_of(spec_leap_second_status(x)),
            "comtrade::codes::LeapSecondStatus"@,
        ) {
            Err(e) => Err(e),
            Ok(l) => Ok((q, l)),
        },
    }
}

/// Reading the timing part from line `q` on: start time, trigger time, data
/// format; since 1999 the timestamp multiplication factor; in 2013 the time
/// offsets and the time quality line. `None` where an offset cannot be made.
pub open spec fn spec_cfg_times(lines: Seq<Seq<char>>, q: int, rev: FormatRevision) -> Option<
    Result<CfgTimesView, ErrorView>,
> {
    if q >= lines.len() {
        Some(Err(ErrorView::UnexpectedEndOfCfgFile))
    } else {
        match spec_datetime(cfg_fields(trim(lines[q])), rev) {
            Err(e) => Some(Err(e)),
            Ok(start_time) => if q + 1 >= lines.len() {
                Some(Err(ErrorView::UnexpectedEndOfCfgFile))
            } else {
                match spec_datetime(cfg_fields(trim(lines[q + 1])), rev) {
                    Err(e) => Some(Err(e)),
                    Ok(trigger_time) => if q + 2 >= lines.len() {
                        Some(Err(ErrorView::UnexpectedEndOfCfgFile))
                    } else {
                        match read_field(
                            cfg_fields(lines[q + 2]),
                            |x: Seq<char>| ok_of(spec_data_format(x)),
                            "comtrade::codes::DataFormat"@,
                        ) {
                            Err(e) => Some(Err(e)),
                            Ok(data_format) => {
                                let base = CfgTimesView {
                                    start_time,
                                    trigger_time,
                                    data_format,
                                    timestamp_multiplication_factor: None,
                                    time_offset: None,
                                    local_offset: None,
                                    time_quality: None,
                                    leap_second_status: None,
                                };
                                if rev == FormatRevision::Revision1991 {
                                    Some(Ok(base))
                                } else if q + 3 >= lines.len() {
                                    Some(Err(ErrorView::UnexpectedEndOfCfgFile))
                                } else {
                                    match read_field(
                                        cfg_fields(lines[q + 3]),
                                        |x: Seq<char>| float_of(x),
                                        "f64"@,
                                    ) {
                                        Err(e) => Some(Err(e)),
                                        Ok(m) => {
                                            let with_mult = CfgTimesView {
                                                timestamp_multiplication_factor: Some(m),
                                                ..base
                                            };
                                            if rev == FormatRevision::Revision1999 {
                                                Some(Ok(with_mult))
                                            } else if q + 4 >= lines.len() {
                                                Some(Err(ErrorView::UnexpectedEndOfCfgFile))
                                            } else {
                                                match spec_offsets(cfg_fields(lines[q + 4])) {
                                                    None => None,
                                                    Some(Err(e)) => Some(Err(e)),
                                                    Some(Ok((t, l))) => if q + 5 >= lines.len() {
                                                        Some(Err(ErrorView::UnexpectedEndOfCfgFile))
                                                    } else {
                                                        match spec_quality(cfg_fields(lines[q + 5])) {
                                                            Err(e) => Some(Err(e)),
                                                            Ok((tq, ls)) => Some(
                                                                Ok(
                                                                    CfgTimesView {
                                                                        time_offset: t,
                                                                        local_offset: l,
                                                                        time_quality: Some(tq),
                                                                        leap_second_status: Some(ls),
                                                                        ..with_mult
                                                                    },
                                                                ),
                                                            ),
                                                        }
                                                    },
                                                }
                                            }
                                        },
                                    }
                                }
                            },
                        }
                    },
                }
            },
        }
    }
}

/// The timing part of a `.cfg` file.
pub struct CfgTimes {
    pub start_time: ComtradeDateTime,
    pub trigger_time: ComtradeDateTime,
    pub data_format: DataFormat,
    pub timestamp_multiplication_factor: Option<FloatLiteral>,
    pub time_offset: Option<i32>,
    pub local_offset: Option<i32>,
    pub time_quality: Option<TimeQuality>,
    pub leap_second_status: Option<LeapSecondStatus>,
}

pub open spec fn opt_float_view(v: Option<FloatLiteral>) -> Option<Seq<char>> {
    match v {
        Some(f) => Some(f@),
        None => None,
    }
}

impl View for CfgTimes {
    type V = CfgTimesView;

    open spec fn view(&self) -> CfgTimesView {
        CfgTimesView {
            start_time: self.start_time,
            trigger_time: self.trigger_time,
            data_format: self.data_format,
            timestamp_multiplication_factor: opt_float_view(self.timestamp_multiplication_factor),
            time_offset: self.time_offset,
            local_offset: self.local_offset,
            time_quality: self.time_quality,
            leap_second_status: self.leap_second_status,
        }
    }
}

fn read_offsets(text: &str) -> (r: Option<Result<(Option<i32>, Option<i32>), ComtradeError>>)
    ensures
        match r {
            None => spec_offsets(cfg_fields(text@)) is None,
            Some(x) => spec_offsets(cfg_fields(text@)) == Some(res_view(x)),
        },
{
    let mut line = split_cfg_line(text);
    let t = match line.read_string() {
        Ok(v) => v,
        Err(e) => return Some(Err(e)),
    };
    let time_offset = match parse_time_offset(t.as_str()) {
        None => return None,
        Some(Err(e)) => return Some(Err(e)),
        Some(Ok(v)) => v,
    };
    let l = match line.read_string() {
        Ok(v) => v,
        Err(e) => return Some(Err(e)),
    };
    let local_offset = match parse_time_offset(l.as_str()) {
        None => return None,
        Some(Err(e)) => return Some(Err(e)),
        Some(Ok(v)) => v,
    };
    Some(Ok((time_offset, local_offset)))
}

fn read_quality(text: &str) -> (r: Result<(TimeQuality, LeapSecondStatus), ComtradeError>)
    ensures
        res_view(r) == spec_quality(cfg_fields(text@)),
{
    let mut line = split_cfg_line(text);
    let tq = line.read_time_quality()?;
    let ls = line.read_leap_second_status()?;
    Ok((tq, ls))
}

/// Reads the timing part from line `q` on.
pub fn read_cfg_times(lines: &Vec<String>, q: usize, rev: FormatRevision) -> (r: Option<
    Result<CfgTimes, ComtradeError>,
>)
    requires
        q <= lines@.len(),
    ensures
        match r {
            None => spec_cfg_times(string_views(lines@), q as int, rev) is None,
            Some(Ok(c)) => spec_cfg_times(string_views(lines@), q as int, rev) == Some(
                Ok::<CfgTimesView, ErrorView>(c@),
            ),
            Some(Err(e)) => spec_cfg_times(string_views(lines@), q as int, rev) == Some(
                Err::<CfgTimesView, ErrorView>(e@),
            ),
        },
{
    if q >= lines.len() {
        return Some(Err(ComtradeError::UnexpectedEndOfCfgFile));
    }
    let l0 = trimmed(lines[q].as_str());
    let start_time = match ComtradeDateTime::from_config_line(split_cfg_line(l0.as_str()), &rev) {
        Ok(v) => v,
        Err(e) => return Some(Err(e)),
    };
    if q + 1 >= lines.len() {
        return Some(Err(ComtradeError::UnexpectedEndOfCfgFile));
    }
    let l1 = trimmed(lines[q + 1].as_str());
    let trigger_time = match ComtradeDateTime::from_config_line(split_cfg_line(l1.as_str()), &rev) {
        Ok(v) => v,
        Err(e) => return Some(Err(e)),
    };
    if q + 2 >= lines.len() {
        return Some(Err(ComtradeError::UnexpectedEndOfCfgFile));
    }
    let mut line = split_cfg_line(lines[q + 2].as_str());
    let data_format = match line.read_data_format() {
        Ok(v) => v,
        Err(e) => return Some(Err(e)),
    };
    let mut times = CfgTimes {
        start_time,
        trigger_time,
        data_format,
        timestamp_multiplication_factor: None,
        time_offset: None,
        local_offset: None,
        time_quality: None,
        leap_second_status: None,
    };
    if rev == FormatRevision::Revision1991 {
        return Some(Ok(times));
    }
    if q + 3 >= lines.len() {
        return Some(Err(ComtradeError::UnexpectedEndOfCfgFile));
    }
    let mut line = split_cfg_line(lines[q + 3].as_str());
    let time_mult = match line.read_float() {
        Ok(v) => v,
        Err(e) => return Some(Err(e)),
    };
    times.timestamp_multiplication_factor = Some(time_mult);
    if rev == FormatRevision::Revision1999 {
        return Some(Ok(times));
    }
    if q + 4 >= lines.len() {
        return Some(Err(ComtradeError::UnexpectedEndOfCfgFile));
    }
    let (time_offset, local_offset) = match read_offsets(lines[q + 4].as_str()) {
        None => return None,
        Some(Err(e)) => return Some(Err(e)),
        Some(Ok(v)) => v,
    };
    if q + 5 >= lines.len() {
        return Some(Err(ComtradeError::UnexpectedEndOfCfgFile));
    }
    let (tq, ls) = match read_quality(lines[q + 5].as_str()) {
        Err(e) => return Some(Err(e)),
        Ok(v) => v,
    };
    times.time_offset = time_offset;
    times.local_offset = local_offset;
    times.time_quality = Some(tq);
    times.leap_second_status = Some(ls);
    Some(Ok(times))
}


/// The contents of a `.cfg` file.
pub struct CfgRecord {
    pub channels: CfgChannels,
    pub rates: CfgRates,
    pub times: CfgTimes,
    /// The unit of the timestamps of the `.dat` file: the finer precision of
    /// the start and the trigger time.
    pub ts_base_unit: TimePrecision,
}

pub ghost struct CfgRecordView {
    pub channels: CfgChannelsView,
    pub rates: CfgRatesView,
    pub times: CfgTimesView,
    pub ts_base_unit: TimePrecision,
}

impl View for CfgRecord {
    type V = CfgRecordView;

    open spec fn view(&self) -> CfgRecordView {
        CfgRecordView {
            channels: self.channels@,
            rates: self.rates@,
            times: self.times@,
            ts_base_unit: self.ts_base_unit,
        }
    }
}

/// Reading a whole `.cfg` file; `None` where reading it panics (a channel
/// count that cannot be sliced, a negative number of rates, a time offset
/// that cannot be made).
pub open spec fn spec_parse_cfg(contents: Seq<char>) -> Option<Result<CfgRecordView, ErrorView>> {
    let lines = cfg_lines(contents);
    match spec_cfg_channels(lines) {
        None => None,
        Some(Err(e)) => Some(Err(e)),
        Some(Ok(channels)) => match spec_cfg_rates(
            lines,
            (2 + channels.analog.len() + channels.status.len()) as int,
        ) {
            None => None,
            Some(Err(e)) => Some(Err(e)),
            Some(Ok(rates)) => match spec_cfg_times(lines, rates.next, channels.id.format_revision) {
                None => None,
                Some(Err(e)) => Some(Err(e)),
                Some(Ok(times)) => Some(
                    Ok(
                        CfgRecordView {
                            channels,
                            rates,
                            times,
                            ts_base_unit: finer(
                                times.start_time.precision,
                                times.trigger_time.precision,
                            ),
                        },
                    ),
                ),
            },
        },
    }
}

impl CfgRecord {
    /// Whether the record is consistent: as many channels as lines that
    /// configured them, the timestamps critical exactly when there is no
    /// sampling rate.
    pub open spec fn wf(&self) -> bool {
        &&& self.channels.analog@.len() + self.channels.status@.len() + 2 <= usize::MAX
        &&& self.rates.is_timestamp_critical == (self.rates.sampling_rates@.len() == 0)
    }
}

/// Reads a whole `.cfg` file. `None` where the reading panics: a channel
/// count whose unit letter is a multi-byte character, a negative number of
/// sampling rates, or a time offset a day or more from UTC (or overflowing).
pub fn parse_cfg(contents: &str) -> (r: Option<Result<CfgRecord, ComtradeError>>)
    ensures
        match r {
            None => spec_parse_cfg(contents@) is None,
            Some(Ok(c)) => spec_parse_cfg(contents@) == Some(Ok::<CfgRecordView, ErrorView>(c@))
                && c.wf(),
            Some(Err(e)) => spec_parse_cfg(contents@) == Some(Err::<CfgRecordView, ErrorView>(e@)),
        },
{
    let lines = split_str(contents, '\n');
    proof {
        lemma_split_on_nonempty(contents@, '\n');
        assert(string_views(lines@) =~= cfg_lines(contents@));
    }
    let channels = match read_cfg_channels(&lines) {
        None => return None,
        Some(Err(e)) => return Some(Err(e)),
        Some(Ok(c)) => c,
    };
    let na = channels.analog.len();
    let ns = channels.status.len();
    let nl = lines.len();
    assert(2 + na + ns <= nl);
    let p = 2 + na + ns;
    let rates = match read_cfg_rates(&lines, p) {
        None => return None,
        Some(Err(e)) => return Some(Err(e)),
        Some(Ok(c)) => c,
    };
    proof {
        lemma_rates_critical(string_views(lines@), p as int);
    }
    let times = match read_cfg_times(&lines, rates.next, channels.id.format_revision) {
        None => return None,
        Some(Err(e)) => return Some(Err(e)),
        Some(Ok(c)) => c,
    };
    let ts_base_unit = times.start_time.precision.finer(times.trigger_time.precision);
    Some(Ok(CfgRecord { channels, rates, times, ts_base_unit }))
}

proof fn lemma_analog_len(lines: Seq<Seq<char>>, start: int, n: nat, rev: FormatRevision)
    ensures
        spec_analog_configs(lines, start, n, rev) matches Ok(s) ==> s.len() == n,
    decreases n,
{
    if n > 0 {
        lemma_analog_len(lines, start, (n - 1) as nat, rev);
    }
}

proof fn lemma_status_len(lines: Seq<Seq<char>>, start: int, n: nat, rev: FormatRevision)
    ensures
        spec_status_configs(lines, start, n, rev) matches Ok(s) ==> s.len() == n,
    decreases n,
{
    if n > 0 {
        lemma_status_len(lines, start, (n - 1) as nat, rev);
    }
}

/// A configuration read without error has as many analog and status
/// channels as its channel count line announces, and as many sampling rates
/// as its rate count line.
pub proof fn lemma_cfg_counts(contents: Seq<char>)
    ensures
        spec_parse_cfg(contents) matches Some(Ok(c)) ==> {
            &&& spec_channel_sizes(cfg_fields(cfg_lines(contents)[1])) == Some(
                Ok::<ChannelSizes, ErrorView>(
                    ChannelSizes {
                        analog: c.channels.analog.len() as usize,
                        status: c.channels.status.len() as usize,
                    },
                ),
            )
            &&& c.rates.is_timestamp_critical <==> c.rates.sampling_rates.len() == 0
        },
{
    let lines = cfg_lines(contents);
    match spec_parse_cfg(contents) {
        Some(Ok(c)) => {
            match spec_channel_sizes(cfg_fields(lines[1])) {
                Some(Ok(sizes)) => {
                    lemma_analog_len(lines, 2, sizes.analog as nat, c.channels.id.format_revision);
                    lemma_status_len(
                        lines,
                        2 + sizes.analog,
                        sizes.status as nat,
                        c.channels.id.format_revision,
                    );
                },
                _ => {},
            }
            lemma_rates_critical(lines, (2 + c.channels.analog.len() + c.channels.status.len()) as int);
        },
        _ => {},
    }
}

proof fn lemma_rates_critical(lines: Seq<Seq<char>>, p: int)
    ensures
        spec_cfg_rates(lines, p) matches Some(Ok(r)) ==> r.is_timestamp_critical == (
        r.sampling_rates.len() == 0),
{
    if p < lines.len() && p + 1 < lines.len() {
        let nr = read_field(cfg_fields(lines[p + 1]), |x: Seq<char>| i32_of(x), "i32"@);
        match nr {
            Ok(n) => {
                if n >= 0 {
                    lemma_rates_len(lines, p + 2, n as nat);
                }
            },
            Err(_) => {},
        }
    }
}

proof fn lemma_rates_len(lines: Seq<Seq<char>>, start: int, n: nat)
    ensures
        spec_sampling_rates(lines, start, n) matches Ok(s) ==> s.len() == n,
    decreases n,
{
    if n > 0 {
        lemma_rates_len(lines, start, (n - 1) as nat);
    }
}


proof fn lemma_analog_prefix(
    lines: Seq<Seq<char>>,
    start: int,
    n: nat,
    rev: FormatRevision,
    k: int,
)
    requires
        spec_analog_configs(lines, start, n, rev) is Ok,
        0 <= start,
        0 <= k <= lines.len(),
    ensures
        k >= start + n ==> spec_analog_configs(lines.take(k), start, n, rev)
            == spec_analog_configs(lines, start, n, rev),
        0 < n && k < start + n ==> spec_analog_configs(lines.take(k), start, n, rev) == Err::<
            Seq<AnalogConfigView>,
            ErrorView,
        >(ErrorView::UnexpectedEndOfCfgFile),
    decreases n,
{
    if n > 0 {
        lemma_analog_prefix(lines, start, (n - 1) as nat, rev, k);
        assert(lines.take(k).len() == k);
        if k < start + n - 1 {
        } else if k == start + n - 1 {
        } else {
            assert(lines.take(k)[start + n - 1] == lines[start + n - 1]);
        }
    }
}

proof fn lemma_status_prefix(
    lines: Seq<Seq<char>>,
    start: int,
    n: nat,
    rev: FormatRevision,
    k: int,
)
    requires
        spec_status_configs(lines, start, n, rev) is Ok,
        0 <= start,
        0 <= k <= lines.len(),
    ensures
        k >= start + n ==> spec_status_configs(lines.take(k), start, n, rev)
            == spec_status_configs(lines, start, n, rev),
        0 < n && k < start + n ==> spec_status_configs(lines.take(k), start, n, rev) == Err::<
            Seq<StatusConfigView>,
            ErrorView,
        >(ErrorView::UnexpectedEndOfCfgFile),
    decreases n,
{
    if n > 0 {
        lemma_status_prefix(lines, start, (n - 1) as nat, rev, k);
        assert(lines.take(k).len() == k);
        if k < start + n - 1 {
        } else if k == start + n - 1 {
        } else {
            assert(lines.take(k)[start + n - 1] == lines[start + n - 1]);
        }
    }
}

proof fn lemma_rates_prefix(lines: Seq<Seq<char>>, start: int, n: nat, k: int)
    requires
        spec_sampling_rates(lines, start, n) is Ok,
        0 <= start,
        0 <= k <= lines.len(),
    ensures
        k >= start + n ==> spec_sampling_rates(lines.take(k), start, n) == spec_sampling_rates(
            lines,
            start,
            n,
        ),
        0 < n && k < start + n ==> spec_sampling_rates(lines.take(k), start, n) == Err::<
            Seq<SamplingRateView>,
            ErrorView,
        >(ErrorView::UnexpectedEndOfCfgFile),
    decreases n,
{
    if n > 0 {
        lemma_rates_prefix(lines, start, (n - 1) as nat, k);
        assert(lines.take(k).len() == k);
        if k < start + n - 1 {
        } else if k == start + n - 1 {
        } else {
            assert(lines.take(k)[start + n - 1] == lines[start + n - 1]);
        }
    }
}

proof fn lemma_channels_prefix(lines: Seq<Seq<char>>, k: int)
    requires
        spec_cfg_channels(lines) matches Some(Ok(ch)),
        1 <= k <= lines.len(),
    ensures
        spec_cfg_channels(lines) matches Some(Ok(ch)) && (k >= 2 + ch.analog.len()
            + ch.status.len() ==> spec_cfg_channels(lines.take(k)) == spec_cfg_channels(lines)) && (
        k < 2 + ch.analog.len() + ch.status.len() ==> spec_cfg_channels(lines.take(k)) == Some(
            Err::<CfgChannelsView, ErrorView>(ErrorView::UnexpectedEndOfCfgFile),
        )),
{
    let t = lines.take(k);
    assert(t[0] == lines[0]);
    let id = spec_id_row(cfg_fields(lines[0]))->Ok_0;
    if k >= 2 {
        assert(t[1] == lines[1]);
        let sizes = spec_channel_sizes(cfg_fields(lines[1]))->0->Ok_0;
        let rev = id.format_revision;
        lemma_analog_len(lines, 2, sizes.analog as nat, rev);
        lemma_analog_prefix(lines, 2, sizes.analog as nat, rev, k);
        if k >= 2 + sizes.analog {
            lemma_status_len(lines, 2 + sizes.analog, sizes.status as nat, rev);
            lemma_status_prefix(lines, 2 + sizes.analog, sizes.status as nat, rev, k);
        }
    }
}

proof fn lemma_cfg_rates_prefix(lines: Seq<Seq<char>>, p: int, k: int)
    requires
        spec_cfg_rates(lines, p) matches Some(Ok(r)),
        0 <= p,
        0 <= k <= lines.len(),
    ensures
        spec_cfg_rates(lines, p) matches Some(Ok(r)) && p < r.next <= lines.len() && (k >= r.next
            ==> spec_cfg_rates(lines.take(k), p) == spec_cfg_rates(lines, p)) && (k < r.next
            ==> spec_cfg_rates(lines.take(k), p) == Some(
            Err::<CfgRatesView, ErrorView>(ErrorView::UnexpectedEndOfCfgFile),
        )),
{
    let t = lines.take(k);
    if k > p + 1 {
        assert(t[p] == lines[p]);
        assert(t[p + 1] == lines[p + 1]);
        let nr = read_field(cfg_fields(lines[p + 1]), |x: Seq<char>| i32_of(x), "i32"@)->Ok_0;
        lemma_rates_prefix(lines, p + 2, nr as nat, k);
        let q = p + 2 + nr;
        if nr == 0 && k > q {
            assert(t[q] == lines[q]);
        }
    }
}

/// How many lines the timing part of a file of revision `rev` takes.
pub open spec fn times_lines(rev: FormatRevision) -> int {
    match rev {
        FormatRevision::Revision1991 => 3,
        FormatRevision::Revision1999 => 4,
        FormatRevision::Revision2013 => 6,
    }
}

proof fn lemma_times_prefix(lines: Seq<Seq<char>>, q: int, rev: FormatRevision, k: int)
    requires
        spec_cfg_times(lines, q, rev) matches Some(Ok(_)),
        0 <= q,
        0 <= k <= lines.len(),
    ensures
        q + times_lines(rev) <= lines.len(),
        k < q + times_lines(rev) ==> spec_cfg_times(lines.take(k), q, rev) == Some(
            Err::<CfgTimesView, ErrorView>(ErrorView::UnexpectedEndOfCfgFile),
        ),
{
    let t = lines.take(k);
    if k > q {
        assert(t[q] == lines[q]);
    }
    if k > q + 1 {
        assert(t[q + 1] == lines[q + 1]);
    }
    if k > q + 2 {
        assert(t[q + 2] == lines[q + 2]);
    }
    if k > q + 3 {
        assert(t[q + 3] == lines[q + 3]);
    }
    if k > q + 4 {
        assert(t[q + 4] == lines[q + 4]);
    }
}

/// How many lines the reading of the accepted configuration `c` read: the
/// channel and sampling parts, then the timing part.
pub open spec fn cfg_lines_read(c: CfgRecordView) -> int {
    c.rates.next + times_lines(c.channels.id.format_revision)
}

/// A `.cfg` file cut short ends too early: where a file is read without
/// error, keeping only its first `k` lines (at least one, and fewer than the
/// reading needed) makes the reading fail with the unexpected end of the
/// file.
pub proof fn lemma_truncated_cfg(contents: Seq<char>, c: CfgRecordView, k: int)
    requires
        spec_parse_cfg(contents) == Some(Ok::<CfgRecordView, ErrorView>(c)),
        1 <= k < cfg_lines_read(c),
    ensures
        spec_parse_cfg(join_lines(cfg_lines(contents).take(k))) == Some(
            Err::<CfgRecordView, ErrorView>(ErrorView::UnexpectedEndOfCfgFile),
        ),
{
    let lines = cfg_lines(contents);
    let p = (2 + c.channels.analog.len() + c.channels.status.len()) as int;
    let rev = c.channels.id.format_revision;
    lemma_times_prefix(lines, c.rates.next, rev, lines.len() as int);
    lemma_cfg_rates_prefix(lines, p, lines.len() as int);
    let t = lines.take(k);
    lemma_split_pieces_plain(contents, '\n');
    assert forall|i: int| 0 <= i < t.len() implies !(#[trigger] t[i]).contains('\n') by {
        assert(t[i] == lines[i]);
    }
    lemma_split_join(t);
    assert(cfg_lines(join_lines(t)) == t);
    lemma_channels_prefix(lines, k);
    if k >= p {
        lemma_cfg_rates_prefix(lines, p, k);
        if k >= c.rates.next {
            lemma_times_prefix(lines, c.rates.next, rev, k);
        }
    }
}


proof fn lemma_analog_configs_lines(lines: Seq<Seq<char>>, start: int, n: nat, rev: FormatRevision)
    ensures
        spec_analog_configs(lines, start, n, rev) matches Ok(s) ==> s.len() == n && forall|j: int|
            0 <= j < n ==> start + j < lines.len() && spec_analog_config(
                cfg_fields(lines[start + j]),
                rev,
            ) == Ok::<AnalogConfigView, ErrorView>(#[trigger] s[j]),
    decreases n,
{
    if n > 0 {
        lemma_analog_configs_lines(lines, start, (n - 1) as nat, rev);
        if spec_analog_configs(lines, start, n, rev) is Ok {
            let prev = spec_analog_configs(lines, start, (n - 1) as nat, rev)->Ok_0;
            let s = spec_analog_configs(lines, start, n, rev)->Ok_0;
            assert forall|j: int| 0 <= j < n implies start + j < lines.len() && spec_analog_config(
                cfg_fields(lines[start + j]),
                rev,
            ) == Ok::<AnalogConfigView, ErrorView>(#[trigger] s[j]) by {
                if j < n - 1 {
                    assert(s[j] == prev[j]);
                }
            }
        }
    }
}

proof fn lemma_status_configs_lines(lines: Seq<Seq<char>>, start: int, n: nat, rev: FormatRevision)
    ensures
        spec_status_configs(lines, start, n, rev) matches Ok(s) ==> s.len() == n && forall|j: int|
            0 <= j < n ==> start + j < lines.len() && spec_status_config(
                cfg_fields(lines[start + j]),
                rev,
            ) == Ok::<StatusConfigView, ErrorView>(#[trigger] s[j]),
    decreases n,
{
    if n > 0 {
        lemma_status_configs_lines(lines, start, (n - 1) as nat, rev);
        if spec_status_configs(lines, start, n, rev) is Ok {
            let prev = spec_status_configs(lines, start, (n - 1) as nat, rev)->Ok_0;
            let s = spec_status_configs(lines, start, n, rev)->Ok_0;
            assert forall|j: int| 0 <= j < n implies start + j < lines.len() && spec_status_config(
                cfg_fields(lines[start + j]),
                rev,
            ) == Ok::<StatusConfigView, ErrorView>(#[trigger] s[j]) by {
                if j < n - 1 {
                    assert(s[j] == prev[j]);
                }
            }
        }
    }
}

/// In a `.cfg` file read without error, analog channel `k` is configured
/// by line `2 + k` of the file and status channel `k` by line `2 + na + k`,
/// `na` being the number of analog channels: each channel is what its own
/// line gives (see `lemma_analog_config_fields` and
/// `lemma_status_config_fields` for the fields of a line).
pub proof fn lemma_cfg_channel_lines(contents: Seq<char>, c: CfgRecordView)
    requires
        spec_parse_cfg(contents) == Some(Ok::<CfgRecordView, ErrorView>(c)),
    ensures
        forall|k: int|
            0 <= k < c.channels.analog.len() ==> 2 + k < cfg_lines(contents).len()
                && spec_analog_config(
                cfg_fields(cfg_lines(contents)[2 + k]),
                c.channels.id.format_revision,
            ) == Ok::<AnalogConfigView, ErrorView>(#[trigger] c.channels.analog[k]),
        forall|k: int|
            0 <= k < c.channels.status.len() ==> 2 + c.channels.analog.len() + k < cfg_lines(
                contents,
            ).len() && spec_status_config(
                cfg_fields(cfg_lines(contents)[2 + c.channels.analog.len() + k]),
                c.channels.id.format_revision,
            ) == Ok::<StatusConfigView, ErrorView>(#[trigger] c.channels.status[k]),
{
    let lines = cfg_lines(contents);
    let rev = c.channels.id.format_revision;
    let sizes = spec_channel_sizes(cfg_fields(lines[1]))->0->Ok_0;
    lemma_analog_configs_lines(lines, 2, sizes.analog as nat, rev);
    lemma_analog_len(lines, 2, sizes.analog as nat, rev);
    lemma_status_configs_lines(lines, 2 + sizes.analog, sizes.status as nat, rev);
}


proof fn lemma_sampling_rates_lines(lines: Seq<Seq<char>>, start: int, n: nat)
    ensures
        spec_sampling_rates(lines, start, n) matches Ok(s) ==> s.len() == n && forall|j: int|
            0 <= j < n ==> start + j < lines.len() && spec_sampling_rate(
                cfg_fields(lines[start + j]),
            ) == Ok::<SamplingRateView, ErrorView>(#[trigger] s[j]),
    decreases n,
{
    if n > 0 {
        lemma_sampling_rates_lines(lines, start, (n - 1) as nat);
        if spec_sampling_rates(lines, start, n) is Ok {
            let prev = spec_sampling_rates(lines, start, (n - 1) as nat)->Ok_0;
            let s = spec_sampling_rates(lines, start, n)->Ok_0;
            assert forall|j: int| 0 <= j < n implies start + j < lines.len() && spec_sampling_rate(
                cfg_fields(lines[start + j]),
            ) == Ok::<SamplingRateView, ErrorView>(#[trigger] s[j]) by {
                if j < n - 1 {
                    assert(s[j] == prev[j]);
                }
            }
        }
    }
}

/// In a `.cfg` file read without error, the sampling part starts on the
/// line `p` after the channel lines: the line frequency is field 0 of line
/// `p`, the number of rates is field 0 of line `p + 1`, and rate `k` is
/// what line `p + 2 + k` gives (see `lemma_sampling_rate_fields`). With
/// rates, the number of samples is the largest last sample of a rate;
/// without, it is field 1 of line `p + 2` and the timestamps are critical.
pub proof fn lemma_cfg_rate_lines(contents: Seq<char>, c: CfgRecordView)
    requires
        spec_parse_cfg(contents) == Some(Ok::<CfgRecordView, ErrorView>(c)),
    ensures
        ({
            let lines = cfg_lines(contents);
            let p = (2 + c.channels.analog.len() + c.channels.status.len()) as int;
            let nr = c.rates.sampling_rates.len();
            &&& p + 1 < lines.len()
            &&& split_on(lines[p], ',').len() >= 1
            &&& c.rates.line_frequency == trim(split_on(lines[p], ',')[0])
            &&& split_on(lines[p + 1], ',').len() >= 1
            &&& parse_signed(trim(split_on(lines[p + 1], ',')[0]), i32::MIN as int, i32::MAX as int)
                == Some(nr as int)
            &&& forall|k: int|
                0 <= k < nr ==> p + 2 + k < lines.len() && spec_sampling_rate(
                    cfg_fields(lines[p + 2 + k]),
                ) == Ok::<SamplingRateView, ErrorView>(#[trigger] c.rates.sampling_rates[k])
            &&& nr > 0 ==> c.rates.total_num_samples == max_end_sample(c.rates.sampling_rates)
                && !c.rates.is_timestamp_critical && c.rates.next == p + 2 + nr
            &&& nr == 0 ==> p + 2 < lines.len() && split_on(lines[p + 2], ',').len() >= 2
                && parse_unsigned(trim(split_on(lines[p + 2], ',')[1]), u32::MAX as nat) == Some(
                c.rates.total_num_samples,
            ) && c.rates.is_timestamp_critical && c.rates.next == p + 3
        }),
{
    let lines = cfg_lines(contents);
    let p = (2 + c.channels.analog.len() + c.channels.status.len()) as int;
    let nr = read_field(cfg_fields(lines[p + 1]), |x: Seq<char>| i32_of(x), "i32"@)->Ok_0;
    lemma_sampling_rates_lines(lines, p + 2, nr as nat);
    lemma_rates_len(lines, p + 2, nr as nat);
    if nr == 0 {
        let f = cfg_fields(lines[p + 2]);
        assert(f.drop_first()[0] == f[1]);
    }
}

} // verus!
