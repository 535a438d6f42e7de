//! The parser of a whole record: which files it reads, in which order, and
//! the channels it assembles from them.

use vstd::prelude::*;
use vstd::utf8::{decode_utf8, valid_utf8};
use crate::cfg::analog_channels::{AnalogConfig, AnalogConfigView};
use crate::cfg::date_time::{DateTime, TimePrecision};
use crate::cfg::line::FloatLiteral;
use crate::cfg::record::{CfgRecord, CfgRecordView, parse_cfg, spec_parse_cfg};
use crate::cfg::revisions::FormatRevision;
use crate::cfg::sample_rates::{SamplingRate, SamplingRateView};
use crate::cfg::status_channel::{StatusConfig, StatusConfigView};
use crate::cff::{load_cff, spec_load_cff};
use crate::codes::{DataFormat, LeapSecondStatus, TimeQuality};
use crate::dat::{
    AnalogSample, AnalogSampleView, DatLayout, SampleRow, SampleRowView, lemma_ascii_rows_shape,
    lemma_binary_rows_shape, nonblank_lines, parse_dat_ascii, parse_dat_binary, row_views, rows_shaped, sample_views, spec_parse_dat_ascii,
    spec_parse_dat_binary,
};
use crate::error::{ComtradeError, ErrorView, error_message};
use crate::text::{decode_utf8_bytes, split_on};
use crate::time::TimeBasis;

verus! {

/// A status channel: its configuration and its value (0 or 1) at each sample.
#[derive(Debug, Clone, PartialEq)]
pub struct StatusChannel {
    pub config: StatusConfig,
    pub data: Vec<u8>,
}

impl StatusChannel {
    fn push_datum(&mut self, value: u8)
        ensures
            final(self).data@ == old(self).data@.push(value),
            final(self).config == old(self).config,
    {
        self.data.push(value);
    }

    /// The state (0 or 1) at the given sample index.
    pub fn value(&self, index: usize) -> (r: Option<u8>)
        ensures
            r == if index < self.data@.len() {
                Some(self.data@[index as int])
            } else {
                None
            },
    {
        if index < self.data.len() {
            Some(self.data[index])
        } else {
            None
        }
    }
}

/// An analog channel: its configuration and its raw value at each sample.
#[derive(Debug, Clone, PartialEq)]
pub struct RawAnalogChannel {
    pub config: AnalogConfig,
    pub data: Vec<AnalogSample>,
}

/// A copy of an analog value.
pub fn copy_sample(a: &AnalogSample) -> (r: AnalogSample)
    ensures
        r@ == a@,
{
    match a {
        AnalogSample::Decimal(f) => AnalogSample::Decimal(f.copy()),
        AnalogSample::Int16(v) => AnalogSample::Int16(*v),
        AnalogSample::Int32(v) => AnalogSample::Int32(*v),
        AnalogSample::Float32Bits(v) => AnalogSample::Float32Bits(*v),
    }
}

impl RawAnalogChannel {
    fn push_datum(&mut self, value: AnalogSample)
        ensures
            final(self).data@ == old(self).data@.push(value),
            final(self).config == old(self).config,
    {
        self.data.push(value);
    }

    /// The raw value at the given sample index.
    pub fn value(&self, index: usize) -> (r: Option<AnalogSample>)
        ensures
            index < self.data@.len() ==> (r matches Some(v) && v@ == self.data@[index as int]@),
            index >= self.data@.len() ==> r is None,
    {
        if index < self.data.len() {
            Some(copy_sample(&self.data[index]))
        } else {
            None
        }
    }
}

/// A parsed record, its analog values unscaled and the time of each sample
/// given by its basis.
pub struct ComtradeRecord {
    pub station_name: String,
    pub recording_device_id: String,
    pub revision: FormatRevision,
    pub line_frequency: FloatLiteral,
    pub sampling_rates: Vec<SamplingRate>,
    pub start_time: DateTime,
    pub trigger_time: DateTime,
    /// The unit of the timestamps of the samples.
    pub ts_base_unit: TimePrecision,
    pub data_format: DataFormat,
    pub timestamp_multiplication_factor: Option<FloatLiteral>,
    /// Seconds east of UTC of the time stamps; `None` where not applicable.
    pub time_offset: Option<i32>,
    /// Seconds east of UTC of the local time; `None` where not applicable.
    pub local_offset: Option<i32>,
    pub time_quality: Option<TimeQuality>,
    pub leap_second_status: Option<LeapSecondStatus>,
    pub sample_numbers: Vec<u32>,
    pub time_bases: Vec<TimeBasis>,
    pub analog_channels: Vec<RawAnalogChannel>,
    pub status_channels: Vec<StatusChannel>,
}

pub open spec fn opt_float_view(v: Option<FloatLiteral>) -> Option<Seq<char>> {
    match v {
        Some(f) => Some(f@),
        None => None,
    }
}

/// Whether `rec` is the record of the configuration `c` with the samples
/// `rows`: one analog and one status channel per configuration line, the
/// value of channel `k` at sample `i` taken from row `i`.
pub open spec fn assembled(rec: ComtradeRecord, c: CfgRecordView, rows: Seq<SampleRowView>) -> bool {
    &&& rec.station_name@ == c.channels.id.station_name
    &&& rec.recording_device_id@ == c.channels.id.recording_device_id
    &&& rec.revision == c.channels.id.format_revision
    &&& rec.line_frequency@ == c.rates.line_frequency
    &&& rec.sampling_rates@.map_values(|r: SamplingRate| r@) == c.rates.sampling_rates
    &&& rec.start_time == c.times.start_time.date_time
    &&& rec.trigger_time == c.times.trigger_time.date_time
    &&& rec.ts_base_unit == c.ts_base_unit
    &&& rec.data_format == c.times.data_format
    &&& opt_float_view(rec.timestamp_multiplication_factor) == c.times.timestamp_multiplication_factor
    &&& rec.time_offset == c.times.time_offset
    &&& rec.local_offset == c.times.local_offset
    &&& rec.time_quality == c.times.time_quality
    &&& rec.leap_second_status == c.times.leap_second_status
    &&& rec.sample_numbers@ == rows.map_values(|r: SampleRowView| r.sample_number)
    &&& rec.time_bases@ == rows.map_values(|r: SampleRowView| r.time_basis)
    &&& rec.analog_channels@.len() == c.channels.analog.len()
    &&& forall|k: int|
        0 <= k < rec.analog_channels@.len() ==> {
            &&& (#[trigger] rec.analog_channels@[k]).config@ == c.channels.analog[k]
            &&& sample_views(rec.analog_channels@[k].data@) == rows.map_values(
                |r: SampleRowView| r.analog[k],
            )
        }
    &&& rec.status_channels@.len() == c.channels.status.len()
    &&& forall|k: int|
        0 <= k < rec.status_channels@.len() ==> {
            &&& (#[trigger] rec.status_channels@[k]).config@ == c.channels.status[k]
            &&& rec.status_channels@[k].data@ == rows.map_values(|r: SampleRowView| r.status[k])
        }
}


/// In an assembled record every channel holds one value per sample: as many
/// as there are sample numbers and time bases.
pub proof fn lemma_channels_cover_samples(rec: ComtradeRecord, c: CfgRecordView, rows: Seq<SampleRowView>)
    requires
        assembled(rec, c, rows),
    ensures
        rec.sample_numbers@.len() == rows.len(),
        rec.time_bases@.len() == rows.len(),
        forall|k: int|
            0 <= k < rec.analog_channels@.len() ==> (#[trigger] rec.analog_channels@[k]).data@.len()
                == rows.len(),
        forall|k: int|
            0 <= k < rec.status_channels@.len() ==> (#[trigger] rec.status_channels@[k]).data@.len()
                == rows.len(),
{
    assert forall|k: int| 0 <= k < rec.analog_channels@.len() implies (
    #[trigger] rec.analog_channels@[k]).data@.len() == rows.len() by {
        assert(sample_views(rec.analog_channels@[k].data@).len() == rec.analog_channels@[k].data@.len());
    }
}

/// Assembles the record of the configuration `cfg` with the samples `rows`.
pub fn assemble(cfg: CfgRecord, rows: Vec<SampleRow>) -> (r: ComtradeRecord)
    requires
        rows_shaped(rows@, cfg.channels.analog@.len() as nat, cfg.channels.status@.len() as nat),
    ensures
        assembled(r, cfg@, row_views(rows@)),
{
    let ghost c = cfg@;
    let ghost rv = row_views(rows@);
    let CfgRecord { channels, rates, times, ts_base_unit } = cfg;
    let mut sample_numbers: Vec<u32> = Vec::new();
    let mut time_bases: Vec<TimeBasis> = Vec::new();
    let mut i: usize = 0;
    while i < rows.len()
        invariant
            rv == row_views(rows@),
            i <= rows@.len(),
            sample_numbers@ == rv.take(i as int).map_values(|r: SampleRowView| r.sample_number),
            time_bases@ == rv.take(i as int).map_values(|r: SampleRowView| r.time_basis),
        decreases rows.len() - i,
    {
        assert(rv.take(i + 1) =~= rv.take(i as int).push(rows@[i as int]@));
        sample_numbers.push(rows[i].sample_number);
        time_bases.push(rows[i].time_basis);
        assert(sample_numbers@ =~= rv.take(i + 1).map_values(|r: SampleRowView| r.sample_number));
        assert(time_bases@ =~= rv.take(i + 1).map_values(|r: SampleRowView| r.time_basis));
        i = i + 1;
    }
    assert(rv.take(rv.len() as int) =~= rv);
    let ghost analog_cfg = c.channels.analog;
    let mut configs = channels.analog;
    let na = configs.len();
    let mut analog_channels: Vec<RawAnalogChannel> = Vec::new();
    let mut k: usize = 0;
    while k < na
        invariant
            rv == row_views(rows@),
            rows_shaped(rows@, na as nat, c.channels.status.len()),
            na == analog_cfg.len(),
            k <= na,
            configs@.len() == na - k,
            forall|j: int| 0 <= j < configs@.len() ==> #[trigger] configs@[j]@ == analog_cfg[j + k],
            analog_channels@.len() == k,
            forall|j: int|
                0 <= j < k ==> {
                    &&& (#[trigger] analog_channels@[j]).config@ == analog_cfg[j]
                    &&& sample_views(analog_channels@[j].data@) == rv.map_values(
                        |r: SampleRowView| r.analog[j],
                    )
                },
        decreases na - k,
    {
        let config = configs.remove(0);
        let mut ch = RawAnalogChannel { config, data: Vec::new() };
        let mut i: usize = 0;
        while i < rows.len()
            invariant
                rv == row_views(rows@),
                rows_shaped(rows@, na as nat, c.channels.status.len()),
                k < na,
                i <= rows@.len(),
                ch.config@ == analog_cfg[k as int],
                sample_views(ch.data@) == rv.take(i as int).map_values(
                    |r: SampleRowView| r.analog[k as int],
                ),
            decreases rows.len() - i,
        {
            let ghost before = ch.data@;
            assert(rows@[i as int].analog@.len() == na);
            let v = copy_sample(&rows[i].analog[k]);
            ch.push_datum(v);
            assert(rv.take(i + 1) =~= rv.take(i as int).push(rows@[i as int]@));
            assert(sample_views(ch.data@) =~= sample_views(before).push(v@));
            assert(sample_views(ch.data@) =~= rv.take(i + 1).map_values(
                |r: SampleRowView| r.analog[k as int],
            ));
            i = i + 1;
        }
        analog_channels.push(ch);
        k = k + 1;
    }
    let ghost status_cfg = c.channels.status;
    let mut configs = channels.status;
    let ns = configs.len();
    let mut status_channels: Vec<StatusChannel> = Vec::new();
    let mut k: usize = 0;
    while k < ns
        invariant
            rv == row_views(rows@),
            rows_shaped(rows@, na as nat, ns as nat),
            ns == status_cfg.len(),
            k <= ns,
            configs@.len() == ns - k,
            forall|j: int| 0 <= j < configs@.len() ==> #[trigger] configs@[j]@ == status_cfg[j + k],
            status_channels@.len() == k,
            forall|j: int|
                0 <= j < k ==> {
                    &&& (#[trigger] status_channels@[j]).config@ == status_cfg[j]
                    &&& status_channels@[j].data@ == rv.map_values(|r: SampleRowView| r.status[j])
                },
        decreases ns - k,
    {
        let config = configs.remove(0);
        let mut ch = StatusChannel { config, data: Vec::new() };
        let mut i: usize = 0;
        while i < rows.len()
            invariant
                rv == row_views(rows@),
                rows_shaped(rows@, na as nat, ns as nat),
                k < ns,
                i <= rows@.len(),
                ch.config@ == status_cfg[k as int],
                ch.data@ == rv.take(i as int).map_values(|r: SampleRowView| r.status[k as int]),
            decreases rows.len() - i,
        {
            assert(rows@[i as int].status@.len() == ns);
            let v = rows[i].status[k];
            ch.push_datum(v);
            assert(rv.take(i + 1) =~= rv.take(i as int).push(rows@[i as int]@));
            assert(ch.data@ =~= rv.take(i + 1).map_values(|r: SampleRowView| r.status[k as int]));
            i = i + 1;
        }
        status_channels.push(ch);
        k = k + 1;
    }
    let id = channels.id;
    ComtradeRecord {
        station_name: id.station_name,
        recording_device_id: id.recording_device_id,
        revision: id.format_revision,
        line_frequency: rates.line_frequency,
        sampling_rates: rates.sampling_rates,
        start_time: times.start_time.date_time,
        trigger_time: times.trigger_time.date_time,
        ts_base_unit,
        data_format: times.data_format,
        timestamp_multiplication_factor: times.timestamp_multiplication_factor,
        time_offset: times.time_offset,
        local_offset: times.local_offset,
        time_quality: times.time_quality,
        leap_second_status: times.leap_second_status,
        sample_numbers,
        time_bases,
        analog_channels,
        status_channels,
    }
}


/// The last sample numbers of the sampling rates.
fn end_samples_of(rates: &Vec<SamplingRate>) -> (r: Vec<u32>)
    ensures
        r@ == rates@.map_values(|x: SamplingRate| x@).map_values(
            |x: SamplingRateView| x.end_sample_number,
        ),
{
    let mut out: Vec<u32> = Vec::new();
    let mut i: usize = 0;
    while i < rates.len()
        invariant
            i <= rates@.len(),
            out@ == rates@.take(i as int).map_values(|x: SamplingRate| x@).map_values(
                |x: SamplingRateView| x.end_sample_number,
            ),
        decreases rates.len() - i,
    {
        out.push(rates[i].end_sample_number);
        assert(rates@.take(i + 1) =~= rates@.take(i as int).push(rates@[i as int]));
        assert(out@ =~= rates@.take(i + 1).map_values(|x: SamplingRate| x@).map_values(
            |x: SamplingRateView| x.end_sample_number,
        ));
        i = i + 1;
    }
    assert(rates@.take(rates@.len() as int) =~= rates@);
    out
}

/// The rows of the `.dat` file of the configuration `c`: the ASCII layout
/// reads `text`, a binary layout reads `bytes`.
pub open spec fn spec_dat_rows(c: CfgRecordView, text: Seq<char>, bytes: Seq<u8>) -> Result<
    Seq<SampleRowView>,
    ErrorView,
> {
    let na = c.channels.analog.len();
    let ns = c.channels.status.len();
    let ends = c.rates.sampling_rates.map_values(|x: SamplingRateView| x.end_sample_number);
    if c.times.data_format == DataFormat::Ascii {
        spec_parse_dat_ascii(text, na, ns, c.rates.is_timestamp_critical, ends)
    } else {
        spec_parse_dat_binary(
            bytes,
            c.rates.total_num_samples,
            c.times.data_format,
            na,
            ns,
            c.rates.is_timestamp_critical,
            ends,
        )
    }
}

proof fn lemma_dat_rows_states(c: CfgRecordView, text: Seq<char>, bytes: Seq<u8>)
    ensures
        spec_dat_rows(c, text, bytes) matches Ok(rows) ==> forall|r: int, k: int|
            0 <= r < rows.len() && 0 <= k < c.channels.status.len() ==> #[trigger] rows[r].status[k]
                <= 1,
{
    let na = c.channels.analog.len();
    let ns = c.channels.status.len();
    let ends = c.rates.sampling_rates.map_values(|x: SamplingRateView| x.end_sample_number);
    if c.times.data_format == DataFormat::Ascii {
        lemma_ascii_rows_shape(
            nonblank_lines(split_on(text, '\n')),
            na,
            ns,
            c.rates.is_timestamp_critical,
            ends,
        );
    } else {
        lemma_binary_rows_shape(
            bytes,
            c.rates.total_num_samples,
            c.times.data_format,
            na,
            ns,
            c.rates.is_timestamp_critical,
            ends,
        );
    }
}

/// Every status value of a parsed record is a state, 0 or 1, whether the
/// samples were read from ASCII text or from a binary layout, from separate
/// files or from a `.cff` file.
pub proof fn lemma_status_values_are_states(
    cff: Option<Seq<u8>>,
    cfg: Option<Seq<u8>>,
    dat: Option<Seq<u8>>,
    hdr: Option<Seq<u8>>,
    inf: Option<Seq<u8>>,
    rec: ComtradeRecord,
)
    requires
        spec_parse(cff, cfg, dat, hdr, inf) matches Some(Ok((c, rows))) && assembled(rec, c, rows),
    ensures
        forall|k: int, i: int|
            0 <= k < rec.status_channels@.len() && 0 <= i < rec.status_channels@[k].data@.len()
                ==> #[trigger] rec.status_channels@[k].data@[i] <= 1,
{
    let (c, rows) = spec_parse(cff, cfg, dat, hdr, inf)->0->Ok_0;
    match cff {
        Some(b) => {
            let cc = spec_load_cff(b)->Ok_0;
            lemma_dat_rows_states(c, cc.dat, cc.dat_bytes);
        },
        None => {
            let db = dat->0;
            let ascii = c.times.data_format == DataFormat::Ascii;
            let text = if ascii {
                decode_utf8(db)
            } else {
                Seq::empty()
            };
            lemma_dat_rows_states(c, text, db);
        },
    }
    assert forall|k: int, i: int|
        0 <= k < rec.status_channels@.len() && 0 <= i < rec.status_channels@[k].data@.len()
            implies #[trigger] rec.status_channels@[k].data@[i] <= 1 by {
        assert(rec.status_channels@[k].data@ == rows.map_values(|r: SampleRowView| r.status[k]));
        assert(rec.status_channels@[k].data@[i] == rows[i].status[k]);
    }
}

/// Reads the rows of the `.dat` file of the configuration `cfg`.
fn read_dat(cfg: &CfgRecord, text: &str, bytes: &[u8]) -> (r: Result<Vec<SampleRow>, ComtradeError>)
    requires
        cfg.wf(),
    ensures
        match r {
            Ok(rows) => spec_dat_rows(cfg@, text@, bytes@) == Ok::<Seq<SampleRowView>, ErrorView>(
                row_views(rows@),
            ) && rows_shaped(
                rows@,
                cfg.channels.analog@.len() as nat,
                cfg.channels.status@.len() as nat,
            ),
            Err(e) => spec_dat_rows(cfg@, text@, bytes@) == Err::<Seq<SampleRowView>, ErrorView>(
                e@,
            ),
        },
{
    let layout = DatLayout {
        num_analog: cfg.channels.analog.len(),
        num_status: cfg.channels.status.len(),
        is_timestamp_critical: cfg.rates.is_timestamp_critical,
        end_samples: end_samples_of(&cfg.rates.sampling_rates),
        total_num_samples: cfg.rates.total_num_samples,
    };
    match cfg.times.data_format {
        DataFormat::Ascii => parse_dat_ascii(text, &layout),
        fmt => parse_dat_binary(bytes, fmt, &layout),
    }
}

/// An error of the configuration, as the parser reports it: a parser error
/// with the error's message.
pub open spec fn cfg_failure(e: ErrorView) -> ErrorView {
    ErrorView::ParserError(error_message(e))
}

fn parser_error(m: &str) -> (r: ComtradeError)
    ensures
        r@ == ErrorView::ParserError(m@),
{
    ComtradeError::ParserError(m.to_owned())
}

/// The contents of the files of a record that were given: a `.cff` file, or
/// `.cfg` and `.dat` files with the optional `.hdr` and `.inf` files.
pub struct ComtradeParserBuilder {
    cff_file: Option<Vec<u8>>,
    cfg_file: Option<Vec<u8>>,
    dat_file: Option<Vec<u8>>,
    hdr_file: Option<Vec<u8>>,
    inf_file: Option<Vec<u8>>,
}

pub open spec fn bytes_view(f: Option<Vec<u8>>) -> Option<Seq<u8>> {
    match f {
        Some(v) => Some(v@),
        None => None,
    }
}

impl ComtradeParserBuilder {
    pub closed spec fn cff(&self) -> Option<Seq<u8>> {
        bytes_view(self.cff_file)
    }

    pub closed spec fn cfg(&self) -> Option<Seq<u8>> {
        bytes_view(self.cfg_file)
    }

    pub closed spec fn dat(&self) -> Option<Seq<u8>> {
        bytes_view(self.dat_file)
    }

    pub closed spec fn hdr(&self) -> Option<Seq<u8>> {
        bytes_view(self.hdr_file)
    }

    pub closed spec fn inf(&self) -> Option<Seq<u8>> {
        bytes_view(self.inf_file)
    }

    /// A builder with no file given.
    pub fn new() -> (r: Self)
        ensures
            r.cff() is None,
            r.cfg() is None,
            r.dat() is None,
            r.hdr() is None,
            r.inf() is None,
    {
        ComtradeParserBuilder {
            cff_file: None,
            cfg_file: None,
            dat_file: None,
            hdr_file: None,
            inf_file: None,
        }
    }

    /// Gives the contents of the `.cff` file.
    pub fn cff_file(self, file: Vec<u8>) -> (r: Self)
        ensures
            r.cff() == Some(file@),
            r.cfg() == self.cfg(),
            r.dat() == self.dat(),
            r.hdr() == self.hdr(),
            r.inf() == self.inf(),
    {
        ComtradeParserBuilder { cff_file: Some(file), ..self }
    }

    /// Gives the contents of the `.cfg` file.
    pub fn cfg_file(self, file: Vec<u8>) -> (r: Self)
        ensures
            r.cff() == self.cff(),
            r.cfg() == Some(file@),
            r.dat() == self.dat(),
            r.hdr() == self.hdr(),
            r.inf() == self.inf(),
    {
        ComtradeParserBuilder { cfg_file: Some(file), ..self }
    }

    /// Gives the contents of the `.dat` file.
    pub fn dat_file(self, file: Vec<u8>) -> (r: Self)
        ensures
            r.cff() == self.cff(),
            r.cfg() == self.cfg(),
            r.dat() == Some(file@),
            r.hdr() == self.hdr(),
            r.inf() == self.inf(),
    {
        ComtradeParserBuilder { dat_file: Some(file), ..self }
    }

    /// Gives the contents of the `.hdr` file.
    pub fn hdr_file(self, file: Vec<u8>) -> (r: Self)
        ensures
            r.cff() == self.cff(),
            r.cfg() == self.cfg(),
            r.dat() == self.dat(),
            r.hdr() == Some(file@),
            r.inf() == self.inf(),
    {
        ComtradeParserBuilder { hdr_file: Some(file), ..self }
    }

    /// Gives the contents of the `.inf` file.
    pub fn inf_file(self, file: Vec<u8>) -> (r: Self)
        ensures
            r.cff() == self.cff(),
            r.cfg() == self.cfg(),
            r.dat() == self.dat(),
            r.hdr() == self.hdr(),
            r.inf() == Some(file@),
    {
        ComtradeParserBuilder { inf_file: Some(file), ..self }
    }

    /// The parser of the files given.
    pub fn build(self) -> (r: ComtradeParser)
        ensures
            r.cff() == self.cff(),
            r.cfg() == self.cfg(),
            r.dat() == self.dat(),
            r.hdr() == self.hdr(),
            r.inf() == self.inf(),
    {
        ComtradeParser::new(self.cff_file, self.cfg_file, self.dat_file, self.hdr_file, self.inf_file)
    }
}

impl Default for ComtradeParserBuilder {
    fn default() -> (r: Self)
        ensures
            r.cff() is None,
            r.cfg() is None,
            r.dat() is None,
            r.hdr() is None,
            r.inf() is None,
    {
        Self::new()
    }
}

/// A parser of a record, over the contents of its files.
pub struct ComtradeParser {
    cff_file: Option<Vec<u8>>,
    cfg_file: Option<Vec<u8>>,
    dat_file: Option<Vec<u8>>,
    hdr_file: Option<Vec<u8>>,
    inf_file: Option<Vec<u8>>,
}

/// Parsing the files of a record: the record's configuration and samples;
/// `None` where the configuration cannot be read without a panic.
pub open spec fn spec_parse(
    cff: Option<Seq<u8>>,
    cfg: Option<Seq<u8>>,
    dat: Option<Seq<u8>>,
    hdr: Option<Seq<u8>>,
    inf: Option<Seq<u8>>,
) -> Option<Result<(CfgRecordView, Seq<SampleRowView>), ErrorView>> {
    match cff {
        Some(b) => match spec_load_cff(b) {
            Err(e) => Some(Err(e)),
            Ok(cc) => match spec_parse_cfg(cc.cfg) {
                None => None,
                Some(Err(e)) => Some(Err(cfg_failure(e))),
                Some(Ok(c)) => match spec_dat_rows(c, cc.dat, cc.dat_bytes) {
                    Err(e) => Some(Err(e)),
                    Ok(rows) => Some(Ok((c, rows))),
                },
            },
        },
        None => match cfg {
            None => Some(Err(ErrorView::ParserError("you must specify either .cff or .cfg file"@))),
            Some(cb) => if !valid_utf8(cb) {
                Some(Err(ErrorView::ParserError("unable to read specified .cfg file"@)))
            } else {
                match spec_parse_cfg(decode_utf8(cb)) {
                    None => None,
                    Some(Err(e)) => Some(Err(cfg_failure(e))),
                    Some(Ok(c)) => match dat {
                        None => Some(
                            Err(ErrorView::ParserError("you must specify either .cff or .dat file"@)),
                        ),
                        Some(db) => {
                            let ascii = c.times.data_format == DataFormat::Ascii;
                            if ascii && !valid_utf8(db) {
                                Some(Err(ErrorView::ParserError("unable to read specified .dat file"@)))
                            } else {
                                let text = if ascii {
                                    decode_utf8(db)
                                } else {
                                    Seq::empty()
                                };
                                match spec_dat_rows(c, text, db) {
                                    Err(e) => Some(Err(e)),
                                    Ok(rows) => if hdr matches Some(h) && !valid_utf8(h) {
                                        Some(
                                            Err(
                                                ErrorView::ParserError(
                                                    "unable to read specified .hdr file"@,
                                                ),
                                            ),
                                        )
                                    } else if inf matches Some(i) && !valid_utf8(i) {
                                        Some(
                                            Err(
                                                ErrorView::ParserError(
                                                    "unable to read specified .inf file"@,
                                                ),
                                            ),
                                        )
                                    } else {
                                        Some(Ok((c, rows)))
                                    },
                                }
                            }
                        },
                    },
                }
            },
        },
    }
}

impl ComtradeParser {
    pub closed spec fn cff(&self) -> Option<Seq<u8>> {
        bytes_view(self.cff_file)
    }

    pub closed spec fn cfg(&self) -> Option<Seq<u8>> {
        bytes_view(self.cfg_file)
    }

    pub closed spec fn dat(&self) -> Option<Seq<u8>> {
        bytes_view(self.dat_file)
    }

    pub closed spec fn hdr(&self) -> Option<Seq<u8>> {
        bytes_view(self.hdr_file)
    }

    pub closed spec fn inf(&self) -> Option<Seq<u8>> {
        bytes_view(self.inf_file)
    }

    /// A parser of the given file contents.
    pub fn new(
        cff_file: Option<Vec<u8>>,
        cfg_file: Option<Vec<u8>>,
        dat_file: Option<Vec<u8>>,
        hdr_file: Option<Vec<u8>>,
        inf_file: Option<Vec<u8>>,
    ) -> (r: Self)
        ensures
            r.cff() == bytes_view(cff_file),
            r.cfg() == bytes_view(cfg_file),
            r.dat() == bytes_view(dat_file),
            r.hdr() == bytes_view(hdr_file),
            r.inf() == bytes_view(inf_file),
    {
        ComtradeParser { cff_file, cfg_file, dat_file, hdr_file, inf_file }
    }

    /// Gives the contents of the `.dat` file.
    pub fn dat_file(self, file: Vec<u8>) -> (r: Self)
        ensures
            r.cff() == self.cff(),
            r.cfg() == self.cfg(),
            r.dat() == Some(file@),
            r.hdr() == self.hdr(),
            r.inf() == self.inf(),
    {
        ComtradeParser { dat_file: Some(file), ..self }
    }

    /// Gives the contents of the `.hdr` file.
    pub fn hdr_file(self, file: Vec<u8>) -> (r: Self)
        ensures
            r.cff() == self.cff(),
            r.cfg() == self.cfg(),
            r.dat() == self.dat(),
            r.hdr() == Some(file@),
            r.inf() == self.inf(),
    {
        ComtradeParser { hdr_file: Some(file), ..self }
    }

    /// Gives the contents of the `.inf` file.
    pub fn inf_file(self, file: Vec<u8>) -> (r: Self)
        ensures
            r.cff() == self.cff(),
            r.cfg() == self.cfg(),
            r.dat() == self.dat(),
            r.hdr() == self.hdr(),
            r.inf() == Some(file@),
    {
        ComtradeParser { inf_file: Some(file), ..self }
    }

    /// Parses the record: from the `.cff` file where one is given, else from
    /// the `.cfg` and `.dat` files (the `.hdr` and `.inf` files, when given,
    /// must be text). `None` where reading the configuration panics (see
    /// `parse_cfg`).
    pub fn parse(self) -> (r: Option<Result<ComtradeRecord, ComtradeError>>)
        ensures
            match spec_parse(self.cff(), self.cfg(), self.dat(), self.hdr(), self.inf()) {
                None => r is None,
                Some(Err(e)) => r matches Some(Err(x)) && x@ == e,
                Some(Ok((c, rows))) => r matches Some(Ok(rec)) && assembled(rec, c, rows),
            },
    {
        match self.cff_file {
            Some(b) => {
                let cc = match load_cff(b.as_slice()) {
                    Ok(cc) => cc,
                    Err(e) => return Some(Err(e)),
                };
                let cfg = match parse_cfg(cc.cfg.as_str()) {
                    None => return None,
                    Some(Err(e)) => return Some(Err(ComtradeError::new(e.message()))),
                    Some(Ok(c)) => c,
                };
                let rows = match read_dat(&cfg, cc.dat.as_str(), cc.dat_bytes.as_slice()) {
                    Ok(rows) => rows,
                    Err(e) => return Some(Err(e)),
                };
                Some(Ok(assemble(cfg, rows)))
            },
            None => {
                let cb = match self.cfg_file {
                    None => return Some(Err(parser_error("you must specify either .cff or .cfg file"))),
                    Some(cb) => cb,
                };
                let text = match decode_utf8_bytes(cb.as_slice()) {
                    None => return Some(Err(parser_error("unable to read specified .cfg file"))),
                    Some(t) => t,
                };
                let cfg = match parse_cfg(text.as_str()) {
                    None => return None,
                    Some(Err(e)) => return Some(Err(ComtradeError::new(e.message()))),
                    Some(Ok(c)) => c,
                };
                let db = match self.dat_file {
                    None => return Some(Err(parser_error("you must specify either .cff or .dat file"))),
                    Some(db) => db,
                };
                let dat_text = if cfg.times.data_format == DataFormat::Ascii {
                    match decode_utf8_bytes(db.as_slice()) {
                        None => return Some(Err(parser_error("unable to read specified .dat file"))),
                        Some(t) => t,
                    }
                } else {
                    String::new()
                };
                let rows = match read_dat(&cfg, dat_text.as_str(), db.as_slice()) {
                    Ok(rows) => rows,
                    Err(e) => return Some(Err(e)),
                };
                match &self.hdr_file {
                    Some(h) => {
                        if decode_utf8_bytes(h.as_slice()).is_none() {
                            return Some(Err(parser_error("unable to read specified .hdr file")));
                        }
                    },
                    None => {},
                }
                match &self.inf_file {
                    Some(i) => {
                        if decode_utf8_bytes(i.as_slice()).is_none() {
                            return Some(Err(parser_error("unable to read specified .inf file")));
                        }
                    },
                    None => {},
                }
                Some(Ok(assemble(cfg, rows)))
            },
        }
    }
}

} // verus!
