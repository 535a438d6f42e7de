//! The `.dat` sample file, in its ASCII and binary layouts.

use vstd::prelude::*;
use byteorder::ByteOrder;
use crate::codes::DataFormat;
use crate::cfg::line::{FloatLiteral, float_of, u32_of, u8_of};
use crate::error::{ComtradeError, ErrorView, res_view};
use crate::text::{
    decimal, is_float_literal_str, parse_unsigned, parse_unsigned_str, push_decimal, push_str,
    split_on,
    split_str, trim, trimmed,
};
use crate::time::{TimeBasis, rate_index_for, real_time, spec_time_basis};

verus! {

/// The raw value of an analog channel at a sample, before scaling: the
/// decimal text of the ASCII layout, the integer of the 16 and 32 bit
/// binary layouts, or the bit pattern of the IEEE 754 single-precision
/// value of the floating-point layout.
#[derive(Debug, Clone, PartialEq)]
pub enum AnalogSample {
    Decimal(FloatLiteral),
    Int16(i16),
    Int32(i32),
    Float32Bits(u32),
}

pub ghost enum AnalogSampleView {
    Decimal(Seq<char>),
    Int16(i16),
    Int32(i32),
    Float32Bits(u32),
}

impl View for AnalogSample {
    type V = AnalogSampleView;

    open spec fn view(&self) -> AnalogSampleView {
        match self {
            AnalogSample::Decimal(f) => AnalogSampleView::Decimal(f@),
            AnalogSample::Int16(v) => AnalogSampleView::Int16(*v),
            AnalogSample::Int32(v) => AnalogSampleView::Int32(*v),
            AnalogSample::Float32Bits(v) => AnalogSampleView::Float32Bits(*v),
        }
    }
}

/// One sample of every channel.
#[derive(Debug, Clone, PartialEq)]
pub struct SampleRow {
    pub sample_number: u32,
    pub time_basis: TimeBasis,
    pub analog: Vec<AnalogSample>,
    pub status: Vec<u8>,
}

pub ghost struct SampleRowView {
    pub sample_number: u32,
    pub time_basis: TimeBasis,
    pub analog: Seq<AnalogSampleView>,
    pub status: Seq<u8>,
}

pub open spec fn sample_views(v: Seq<AnalogSample>) -> Seq<AnalogSampleView> {
    v.map_values(|a: AnalogSample| a@)
}

impl View for SampleRow {
    type V = SampleRowView;

    open spec fn view(&self) -> SampleRowView {
        SampleRowView {
            sample_number: self.sample_number,
            time_basis: self.time_basis,
            analog: sample_views(self.analog@),
            status: self.status@,
        }
    }
}

pub open spec fn row_views(v: Seq<SampleRow>) -> Seq<SampleRowView> {
    v.map_values(|r: SampleRow| r@)
}

/// Whether every row holds `na` analog and `ns` status values.
pub open spec fn rows_shaped(rows: Seq<SampleRow>, na: nat, ns: nat) -> bool {
    forall|r: int|
        0 <= r < rows.len() ==> (#[trigger] rows[r]).analog@.len() == na && rows[r].status@.len()
            == ns
}

/// What the sample parser needs of the configuration.
pub struct DatLayout {
    pub num_analog: usize,
    pub num_status: usize,
    pub is_timestamp_critical: bool,
    /// The last sample number of each sampling rate.
    pub end_samples: Vec<u32>,
    pub total_num_samples: usize,
}

impl DatLayout {
    pub open spec fn wf(&self) -> bool {
        self.num_analog + self.num_status + 2 <= usize::MAX
    }
}

/// The lines of `ls` that hold more than whitespace.
pub open spec fn nonblank_lines(ls: Seq<Seq<char>>) -> Seq<Seq<char>>
    decreases ls.len(),
{
    if ls.len() == 0 {
        Seq::empty()
    } else {
        let r = nonblank_lines(ls.drop_last());
        if trim(ls.last()).len() > 0 {
            r.push(ls.last())
        } else {
            r
        }
    }
}

pub open spec fn msg_columns(i: nat, expected: nat, got: nat) -> Seq<char> {
    "Row "@ + decimal(i) + " has incorrect number of columns; expected "@ + decimal(expected)
        + " but got "@ + decimal(got) + "."@
}

pub open spec fn msg_sample_number(v: Seq<char>, line: nat) -> Seq<char> {
    "[DAT] Invalid sample number "@ + v + " on line "@ + decimal(line)
}

pub open spec fn msg_timestamp(v: Seq<char>, line: nat) -> Seq<char> {
    "[DAT] Invalid timestamp "@ + v + " on line "@ + decimal(line) + "."@
}

pub open spec fn msg_analog(v: Seq<char>, channel: nat, line: nat) -> Seq<char> {
    "[DAT] Invalid float value "@ + v + " in analog channel "@ + decimal(channel) + " on line "@
        + decimal(line) + "."@
}

pub open spec fn msg_status(v: Seq<char>, channel: nat, line: nat) -> Seq<char> {
    "[DAT] Invalid status value "@ + v + " in status channel "@ + decimal(channel) + " on line "@
        + decimal(line)
}

/// The analog values in the first `k` analog columns of the ASCII row with
/// values `vals`, the row having index `i` among the data rows.
pub open spec fn spec_ascii_analog(vals: Seq<Seq<char>>, k: nat, i: nat) -> Result<
    Seq<AnalogSampleView>,
    ErrorView,
>
    decreases k,
{
    if k == 0 {
        Ok(Seq::empty())
    } else {
        match spec_ascii_analog(vals, (k - 1) as nat, i) {
            Err(e) => Err(e),
            Ok(s) => {
                let v = trim(vals[k - 1 + 2]);
                match float_of(v) {
                    Some(t) => Ok(s.push(AnalogSampleView::Decimal(t))),
                    None => Err(ErrorView::ParserError(msg_analog(v, k, i + 1))),
                }
            },
        }
    }
}

/// The status values in the first `k` status columns (after `na` analog
/// ones) of the ASCII row with values `vals`: each a state, 0 or 1.
pub open spec fn spec_ascii_status(vals: Seq<Seq<char>>, na: nat, k: nat, i: nat) -> Result<
    Seq<u8>,
    ErrorView,
>
    decreases k,
{
    if k == 0 {
        Ok(Seq::empty())
    } else {
        match spec_ascii_status(vals, na, (k - 1) as nat, i) {
            Err(e) => Err(e),
            Ok(s) => {
                let v = trim(vals[k - 1 + na + 2]);
                match u8_of(v) {
                    Some(t) => if t <= 1 {
                        Ok(s.push(t))
                    } else {
                        Err(ErrorView::ParserError(msg_status(v, k, i + 1)))
                    },
                    None => Err(ErrorView::ParserError(msg_status(v, k, i + 1))),
                }
            },
        }
    }
}

/// The ASCII data row `line`, of index `i` among the data rows: sample
/// number, timestamp (empty for none), one column per analog channel, one
/// per status channel.
#[verifier::opaque]
pub open spec fn spec_ascii_row(
    line: Seq<char>,
    i: nat,
    na: nat,
    ns: nat,
    critical: bool,
    ends: Seq<u32>,
) -> Result<SampleRowView, ErrorView> {
    let vals = split_on(line, ',');
    if vals.len() != na + ns + 2 {
        Err(ErrorView::ParserError(msg_columns(i, na + ns + 2, vals.len())))
    } else {
        let s0 = trim(vals[0]);
        let s1 = trim(vals[1]);
        match u32_of(s0) {
            None => Err(ErrorView::ParserError(msg_sample_number(s0, i + 1))),
            Some(n) => {
                let ts = if s1.len() == 0 {
                    Ok(None)
                } else {
                    match u32_of(s1) {
                        Some(t) => Ok(Some(t)),
                        None => Err(ErrorView::ParserError(msg_timestamp(s1, i))),
                    }
                };
                match ts {
                    Err(e) => Err(e),
                    Ok(ts) => match spec_time_basis(critical, ends, n, ts) {
                        Err(e) => Err(e),
                        Ok(b) => match spec_ascii_analog(vals, na, i) {
                            Err(e) => Err(e),
                            Ok(analog) => match spec_ascii_status(vals, na, ns, i) {
                                Err(e) => Err(e),
                                Ok(status) => Ok(
                                    SampleRowView { sample_number: n, time_basis: b, analog, status },
                                ),
                            },
                        },
                    },
                }
            },
        }
    }
}

/// The rows of the ASCII data lines `nb` (blank lines left out).
pub open spec fn spec_ascii_rows(
    nb: Seq<Seq<char>>,
    na: nat,
    ns: nat,
    critical: bool,
    ends: Seq<u32>,
) -> Result<Seq<SampleRowView>, ErrorView>
    decreases nb.len(),
{
    if nb.len() == 0 {
        Ok(Seq::empty())
    } else {
        match spec_ascii_rows(nb.drop_last(), na, ns, critical, ends) {
            Err(e) => Err(e),
            Ok(rows) => match spec_ascii_row(nb.last(), rows.len(), na, ns, critical, ends) {
                Err(e) => Err(e),
                Ok(r) => Ok(rows.push(r)),
            },
        }
    }
}

/// The rows of an ASCII `.dat` file with `na` analog and `ns` status
/// channels.
pub open spec fn spec_parse_dat_ascii(
    contents: Seq<char>,
    na: nat,
    ns: nat,
    critical: bool,
    ends: Seq<u32>,
) -> Result<Seq<SampleRowView>, ErrorView> {
    spec_ascii_rows(nonblank_lines(split_on(contents, '\n')), na, ns, critical, ends)
}


proof fn lemma_ascii_analog_err(vals: Seq<Seq<char>>, m: nat, n: nat, i: nat)
    requires
        m <= n,
        spec_ascii_analog(vals, m, i) is Err,
    ensures
        spec_ascii_analog(vals, n, i) == spec_ascii_analog(vals, m, i),
    decreases n - m,
{
    if m < n {
        lemma_ascii_analog_err(vals, m, (n - 1) as nat, i);
    }
}

proof fn lemma_ascii_status_err(vals: Seq<Seq<char>>, na: nat, m: nat, n: nat, i: nat)
    requires
        m <= n,
        spec_ascii_status(vals, na, m, i) is Err,
    ensures
        spec_ascii_status(vals, na, n, i) == spec_ascii_status(vals, na, m, i),
    decreases n - m,
{
    if m < n {
        lemma_ascii_status_err(vals, na, m, (n - 1) as nat, i);
    }
}

/// `a` + `v` + `b` + the decimal `n` + `c`, as a parser error.
fn dat_error(a: &str, v: &str, b: &str, n: usize, c: &str) -> (r: ComtradeError)
    ensures
        r@ == ErrorView::ParserError(a@ + v@ + b@ + decimal(n as nat) + c@),
{
    let mut m = String::new();
    push_str(&mut m, a);
    push_str(&mut m, v);
    push_str(&mut m, b);
    push_decimal(&mut m, n as u64);
    push_str(&mut m, c);
    ComtradeError::ParserError(m)
}

/// `a` + `v` + `b` + the decimal `n` + `c` + the decimal `k` + `d`, as a
/// parser error.
fn dat_error2(a: &str, v: &str, b: &str, n: usize, c: &str, k: usize, d: &str) -> (r: ComtradeError)
    ensures
        r@ == ErrorView::ParserError(a@ + v@ + b@ + decimal(n as nat) + c@ + decimal(k as nat) + d@),
{
    let mut m = String::new();
    push_str(&mut m, a);
    push_str(&mut m, v);
    push_str(&mut m, b);
    push_decimal(&mut m, n as u64);
    push_str(&mut m, c);
    push_decimal(&mut m, k as u64);
    push_str(&mut m, d);
    ComtradeError::ParserError(m)
}

/// Reads an ASCII data row, of index `i` among the data rows.
#[verifier::loop_isolation(false)]
pub fn parse_ascii_row(line: &str, i: usize, layout: &DatLayout) -> (r: Result<
    SampleRow,
    ComtradeError,
>)
    requires
        layout.wf(),
        i < usize::MAX,
    ensures
        r matches Ok(row) ==> row.analog@.len() == layout.num_analog && row.status@.len()
            == layout.num_status,
        match r {
            Ok(row) => spec_ascii_row(
                line@,
                i as nat,
                layout.num_analog as nat,
                layout.num_status as nat,
                layout.is_timestamp_critical,
                layout.end_samples@,
            ) == Ok::<SampleRowView, ErrorView>(row@),
            Err(e) => spec_ascii_row(
                line@,
                i as nat,
                layout.num_analog as nat,
                layout.num_status as nat,
                layout.is_timestamp_critical,
                layout.end_samples@,
            ) == Err::<SampleRowView, ErrorView>(e@),
        },
{
    reveal(spec_ascii_row);
    let na = layout.num_analog;
    let ns = layout.num_status;
    assert(""@ =~= Seq::<char>::empty()) by {
        reveal_strlit("");
    }
    let vals = split_str(line, ',');
    let ghost vs = split_on(line@, ',');
    let expected = na + ns + 2;
    if vals.len() != expected {
        let mut m = String::new();
        push_str(&mut m, "Row ");
        push_decimal(&mut m, i as u64);
        push_str(&mut m, " has incorrect number of columns; expected ");
        push_decimal(&mut m, expected as u64);
        push_str(&mut m, " but got ");
        push_decimal(&mut m, vals.len() as u64);
        push_str(&mut m, ".");
        return Err(ComtradeError::ParserError(m));
    }
    let s0 = trimmed(vals[0].as_str());
    let sample_number = match parse_unsigned_str(s0.as_str(), u32::MAX as u64) {
        Some(v) => v as u32,
        None => {
            return Err(dat_error("[DAT] Invalid sample number ", s0.as_str(), " on line ", i + 1, ""));
        },
    };
    let s1 = trimmed(vals[1].as_str());
    let timestamp = if s1.as_str().is_empty() {
        None
    } else {
        match parse_unsigned_str(s1.as_str(), u32::MAX as u64) {
            Some(v) => Some(v as u32),
            None => {
                return Err(dat_error("[DAT] Invalid timestamp ", s1.as_str(), " on line ", i, "."));
            },
        }
    };
    let time_basis = real_time(
        layout.is_timestamp_critical,
        &layout.end_samples,
        sample_number,
        timestamp,
    )?;
    let mut analog: Vec<AnalogSample> = Vec::new();
    let mut c: usize = 0;
    assert(sample_views(analog@) =~= Seq::empty());
    while c < na
        invariant
            vals@.len() == vs.len() == na + ns + 2,
            na + ns + 2 <= usize::MAX,
            forall|k: int| 0 <= k < vals@.len() ==> #[trigger] vals@[k]@ == vs[k],
            c <= na,
            i < usize::MAX,
            analog@.len() == c,
            spec_ascii_analog(vs, c as nat, i as nat) == Ok::<Seq<AnalogSampleView>, ErrorView>(
                sample_views(analog@),
            ),
        decreases na - c,
    {
        let v = trimmed(vals[c + 2].as_str());
        let ghost vv = v@;
        let f = match FloatLiteral::new(v) {
            Some(f) => f,
            None => {
                proof {
                    lemma_ascii_analog_err(vs, (c + 1) as nat, na as nat, i as nat);
                }
                let v = trimmed(vals[c + 2].as_str());
                return Err(
                    dat_error2(
                        "[DAT] Invalid float value ",
                        v.as_str(),
                        " in analog channel ",
                        c + 1,
                        " on line ",
                        i + 1,
                        ".",
                    ),
                );
            },
        };
        let ghost before = analog@;
        analog.push(AnalogSample::Decimal(f));
        assert(sample_views(analog@) =~= sample_views(before).push(
            AnalogSampleView::Decimal(trim(vs[c + 2])),
        ));
        c = c + 1;
    }
    let mut status: Vec<u8> = Vec::new();
    let mut c: usize = 0;
    assert(status@ =~= Seq::<u8>::empty());
    while c < ns
        invariant
            vals@.len() == vs.len() == na + ns + 2,
            na + ns + 2 <= usize::MAX,
            forall|k: int| 0 <= k < vals@.len() ==> #[trigger] vals@[k]@ == vs[k],
            c <= ns,
            i < usize::MAX,
            status@.len() == c,
            spec_ascii_status(vs, na as nat, c as nat, i as nat) == Ok::<Seq<u8>, ErrorView>(
                status@,
            ),
        decreases ns - c,
    {
        let v = trimmed(vals[c + na + 2].as_str());
        let parsed = match parse_unsigned_str(v.as_str(), u8::MAX as u64) {
            Some(x) => if x <= 1 {
                Some(x as u8)
            } else {
                None
            },
            None => None,
        };
        let value = match parsed {
            Some(x) => x,
            None => {
                proof {
                    lemma_ascii_status_err(vs, na as nat, (c + 1) as nat, ns as nat, i as nat);
                }
                return Err(
                    dat_error2(
                        "[DAT] Invalid status value ",
                        v.as_str(),
                        " in status channel ",
                        c + 1,
                        " on line ",
                        i + 1,
                        "",
                    ),
                );
            },
        };
        status.push(value);
        c = c + 1;
    }
    Ok(SampleRow { sample_number, time_basis, analog, status })
}


proof fn lemma_ascii_rows_err(
    ls: Seq<Seq<char>>,
    m: int,
    n: int,
    na: nat,
    ns: nat,
    critical: bool,
    ends: Seq<u32>,
)
    requires
        0 <= m <= n <= ls.len(),
        spec_ascii_rows(nonblank_lines(ls.take(m)), na, ns, critical, ends) is Err,
    ensures
        spec_ascii_rows(nonblank_lines(ls.take(n)), na, ns, critical, ends) == spec_ascii_rows(
            nonblank_lines(ls.take(m)),
            na,
            ns,
            critical,
            ends,
        ),
    decreases n - m,
{
    if m < n {
        lemma_ascii_rows_err(ls, m, n - 1, na, ns, critical, ends);
        lemma_nonblank_step(ls, n - 1);
        let prev = nonblank_lines(ls.take(n - 1));
        if trim(ls[n - 1]).len() > 0 {
            assert(prev.push(ls[n - 1]).drop_last() =~= prev);
        }
    }
}

proof fn lemma_nonblank_step(ls: Seq<Seq<char>>, j: int)
    requires
        0 <= j < ls.len(),
    ensures
        nonblank_lines(ls.take(j + 1)) == if trim(ls[j]).len() > 0 {
            nonblank_lines(ls.take(j)).push(ls[j])
        } else {
            nonblank_lines(ls.take(j))
        },
{
    assert(ls.take(j + 1).drop_last() =~= ls.take(j));
    assert(ls.take(j + 1).last() == ls[j]);
}

proof fn lemma_ascii_rows_push(
    nb: Seq<Seq<char>>,
    x: Seq<char>,
    na: nat,
    ns: nat,
    critical: bool,
    ends: Seq<u32>,
)
    ensures
        spec_ascii_rows(nb.push(x), na, ns, critical, ends) == match spec_ascii_rows(
            nb,
            na,
            ns,
            critical,
            ends,
        ) {
            Err(e) => Err(e),
            Ok(rows) => match spec_ascii_row(x, rows.len(), na, ns, critical, ends) {
                Err(e) => Err(e),
                Ok(r) => Ok(rows.push(r)),
            },
        },
{
    assert(nb.push(x).drop_last() =~= nb);
}

/// Reads the rows of an ASCII `.dat` file, leaving out blank lines.
pub fn parse_dat_ascii(contents: &str, layout: &DatLayout) -> (r: Result<
    Vec<SampleRow>,
    ComtradeError,
>)
    requires
        layout.wf(),
    ensures
        r matches Ok(rows) ==> rows_shaped(rows@, layout.num_analog as nat, layout.num_status as nat),
        match r {
            Ok(rows) => spec_parse_dat_ascii(contents@, layout.num_analog as nat, layout.num_status as nat, layout.is_timestamp_critical, layout.end_samples@) == Ok::<
                Seq<SampleRowView>,
                ErrorView,
            >(row_views(rows@)),
            Err(e) => spec_parse_dat_ascii(contents@, layout.num_analog as nat, layout.num_status as nat, layout.is_timestamp_critical, layout.end_samples@) == Err::<
                Seq<SampleRowView>,
                ErrorView,
            >(e@),
        },
{
    let lines = split_str(contents, '\n');
    let ghost ls = split_on(contents@, '\n');
    let ghost na = layout.num_analog as nat;
    let ghost ns = layout.num_status as nat;
    let mut rows: Vec<SampleRow> = Vec::new();
    let mut j: usize = 0;
    assert(ls.take(0) =~= Seq::<Seq<char>>::empty());
    assert(row_views(rows@) =~= Seq::empty());
    while j < lines.len()
        invariant
            layout.wf(),
            na == layout.num_analog as nat,
            ns == layout.num_status as nat,
            ls == split_on(contents@, '\n'),
            lines@.len() == ls.len(),
            forall|k: int| 0 <= k < lines@.len() ==> #[trigger] lines@[k]@ == ls[k],
            j <= lines@.len(),
            rows@.len() <= j,
            rows_shaped(rows@, na, ns),
            spec_ascii_rows(
                nonblank_lines(ls.take(j as int)),
                na,
                ns,
                layout.is_timestamp_critical,
                layout.end_samples@,
            ) == Ok::<Seq<SampleRowView>, ErrorView>(row_views(rows@)),
        decreases lines.len() - j,
    {
        proof {
            lemma_nonblank_step(ls, j as int);
            lemma_ascii_rows_push(
                nonblank_lines(ls.take(j as int)),
                ls[j as int],
                na,
                ns,
                layout.is_timestamp_critical,
                layout.end_samples@,
            );
        }
        let t = trimmed(lines[j].as_str());
        if !t.as_str().is_empty() {
            let i = rows.len();
            let res = parse_ascii_row(lines[j].as_str(), i, layout);
            let row = match res {
                Ok(row) => row,
                Err(e) => {
                    proof {
                        assert(row_views(rows@).len() == rows@.len());
                        assert(nonblank_lines(ls.take(j + 1)) == nonblank_lines(ls.take(j as int)).push(ls[j as int]));
                        assert(spec_ascii_rows(
                            nonblank_lines(ls.take(j + 1)),
                            na,
                            ns,
                            layout.is_timestamp_critical,
                            layout.end_samples@,
                        ) == Err::<Seq<SampleRowView>, ErrorView>(e@));
                        lemma_ascii_rows_err(
                            ls,
                            j + 1,
                            ls.len() as int,
                            na,
                            ns,
                            layout.is_timestamp_critical,
                            layout.end_samples@,
                        );
                        assert(ls.take(ls.len() as int) =~= ls);
                    }
                    return Err(e);
                },
            };
            let ghost before = rows@;
            rows.push(row);
            assert(row_views(rows@) =~= row_views(before).push(row@));
        }
        j = j + 1;
    }
    assert(ls.take(ls.len() as int) =~= ls);
    Ok(rows)
}



/// The 16-bit unsigned integer stored little-endian at `b[o..o + 2]`.
pub open spec fn le_u16(b: Seq<u8>, o: int) -> u16 {
    (b[o] as int + 256 * (b[o + 1] as int)) as u16
}

/// The 32-bit unsigned integer stored little-endian at `b[o..o + 4]`.
pub open spec fn le_u32(b: Seq<u8>, o: int) -> u32 {
    (b[o] as int + 256 * (b[o + 1] as int) + 65536 * (b[o + 2] as int) + 16777216 * (
    b[o + 3] as int)) as u32
}

/// Calls `byteorder::LittleEndian::read_u16` on `b[o..]`.
#[verifier::external_body]
fn read_u16_le(b: &[u8], o: usize) -> (r: u16)
    requires
        o + 2 <= b@.len(),
    ensures
        r == le_u16(b@, o as int),
{
    byteorder::LittleEndian::read_u16(&b[o..])
}

/// Calls `byteorder::LittleEndian::read_u32` on `b[o..]`.
#[verifier::external_body]
fn read_u32_le(b: &[u8], o: usize) -> (r: u32)
    requires
        o + 4 <= b@.len(),
    ensures
        r == le_u32(b@, o as int),
{
    byteorder::LittleEndian::read_u32(&b[o..])
}

/// Calls `byteorder::LittleEndian::read_i16` on `b[o..]`: the two bytes
/// read as a two's complement integer.
#[verifier::external_body]
fn read_i16_le(b: &[u8], o: usize) -> (r: i16)
    requires
        o + 2 <= b@.len(),
    ensures
        r == le_u16(b@, o as int) as i16,
{
    byteorder::LittleEndian::read_i16(&b[o..])
}

/// Calls `byteorder::LittleEndian::read_i32` on `b[o..]`: the four bytes
/// read as a two's complement integer.
#[verifier::external_body]
fn read_i32_le(b: &[u8], o: usize) -> (r: i32)
    requires
        o + 4 <= b@.len(),
    ensures
        r == le_u32(b@, o as int) as i32,
{
    byteorder::LittleEndian::read_i32(&b[o..])
}

/// The timestamp that stands for "no timestamp" in the binary layouts.
pub open spec fn timestamp_missing() -> u32 {
    0xffff_ffff
}

/// The bytes of one analog value in a binary layout.
pub open spec fn value_width(fmt: DataFormat) -> nat {
    match fmt {
        DataFormat::Binary16 => 2,
        _ => 4,
    }
}

/// The 16-bit groups that hold `ns` status values, one bit each.
pub open spec fn status_groups(ns: nat) -> nat {
    (ns + 15) / 16
}

/// The bytes of one sample in a binary layout: sample number, timestamp,
/// the analog values, the status groups.
pub open spec fn record_size(na: nat, ns: nat, fmt: DataFormat) -> nat {
    8 + na * value_width(fmt) + 2 * status_groups(ns)
}

/// The analog value stored at `b[o..]` in the layout `fmt`.
pub open spec fn analog_value_at(b: Seq<u8>, o: int, fmt: DataFormat) -> AnalogSampleView {
    match fmt {
        DataFormat::Binary16 => AnalogSampleView::Int16(le_u16(b, o) as i16),
        DataFormat::Binary32 => AnalogSampleView::Int32(le_u32(b, o) as i32),
        _ => AnalogSampleView::Float32Bits(le_u32(b, o)),
    }
}

/// The status value of channel `c` in the groups stored from `b[so..]`:
/// bit `c % 16` of group `c / 16`.
pub open spec fn status_bit(b: Seq<u8>, so: int, c: int) -> u8 {
    ((le_u16(b, so + 2 * (c / 16)) >> ((c % 16) as u16)) & 1u16) as u8
}

/// A status value read from a binary record is a single bit: 0 or 1.
pub proof fn lemma_status_bit_is_bit(b: Seq<u8>, so: int, c: int)
    ensures
        status_bit(b, so, c) <= 1,
{
    let g = le_u16(b, so + 2 * (c / 16));
    let sh = (c % 16) as u16;
    assert((g >> sh) & 1u16 <= 1u16) by (bit_vector);
}

proof fn lemma_status_bit_bytes(b: Seq<u8>, so: int, c: int)
    requires
        0 <= so,
        0 <= c,
        so + 2 * (c / 16) + 1 < b.len(),
    ensures
        status_bit(b, so, c) == (b[so + 2 * (c / 16) + (c % 16) / 8] >> ((c % 8) as u8)) & 1u8,
{
    let g0 = so + 2 * (c / 16);
    let lo = b[g0];
    let hi = b[g0 + 1];
    let g = le_u16(b, g0);
    assert(g == (lo as int + 256 * (hi as int)) as u16);
    let x: u16 = (lo as int + 256 * (hi as int)) as u16;
    assert(x == (lo as u16) | ((hi as u16) << 8u16)) by (bit_vector)
        requires
            x == (lo as int + 256 * (hi as int)) as u16,
    ;
    let s = (c % 16) as u16;
    if c % 16 < 8 {
        assert((c % 16) / 8 == 0);
        assert(c % 8 == c % 16);
        let s8 = (c % 8) as u8;
        assert(s8 as u16 == s);
        assert((x >> s) & 1u16 == ((lo >> s8) & 1u8) as u16) by (bit_vector)
            requires
                x == (lo as u16) | ((hi as u16) << 8u16),
                s < 8,
                s8 as u16 == s,
        ;
    } else {
        assert((c % 16) / 8 == 1);
        assert(c % 8 == c % 16 - 8);
        let s8 = (c % 8) as u8;
        assert(s8 as u16 + 8 == s);
        assert((x >> s) & 1u16 == ((hi >> s8) & 1u8) as u16) by (bit_vector)
            requires
                x == (lo as u16) | ((hi as u16) << 8u16),
                8 <= s < 16,
                s8 as u16 + 8 == s,
        ;
    }
}

pub open spec fn msg_eof(what: Seq<char>) -> Seq<char> {
    "failed to read "@ + what + ": failed to fill whole buffer"@
}

/// What a short read of an analog value reports, by layout.
pub open spec fn analog_value_name(fmt: DataFormat) -> Seq<char> {
    match fmt {
        DataFormat::Binary16 => "binary16 analog value"@,
        DataFormat::Binary32 => "binary32 analog value"@,
        _ => "float32 analog value"@,
    }
}

/// The binary sample stored at `b[o..]`.
pub open spec fn spec_binary_row(
    b: Seq<u8>,
    o: int,
    fmt: DataFormat,
    na: nat,
    ns: nat,
    critical: bool,
    ends: Seq<u32>,
) -> Result<SampleRowView, ErrorView> {
    if o + 4 > b.len() {
        Err(ErrorView::ParserError(msg_eof("sample number in binary data"@)))
    } else if o + 8 > b.len() {
        Err(ErrorView::ParserError(msg_eof("timestamp in binary data"@)))
    } else {
        let n = le_u32(b, o);
        let t = le_u32(b, o + 4);
        let ts = if t == timestamp_missing() {
            None
        } else {
            Some(t)
        };
        match spec_time_basis(critical, ends, n, ts) {
            Err(e) => Err(e),
            Ok(basis) => {
                let w = value_width(fmt);
                if o + 8 + na * w > b.len() {
                    Err(ErrorView::ParserError(msg_eof(analog_value_name(fmt))))
                } else if o + record_size(na, ns, fmt) > b.len() {
                    Err(ErrorView::ParserError(msg_eof("status group"@)))
                } else {
                    Ok(
                        SampleRowView {
                            sample_number: n,
                            time_basis: basis,
                            analog: Seq::new(na, |c: int| analog_value_at(b, o + 8 + c * w, fmt)),
                            status: Seq::new(ns, |c: int| status_bit(b, o + 8 + na * w, c)),
                        },
                    )
                }
            },
        }
    }
}

/// The first `k` binary samples of `b`.
pub open spec fn spec_binary_rows(
    b: Seq<u8>,
    k: nat,
    fmt: DataFormat,
    na: nat,
    ns: nat,
    critical: bool,
    ends: Seq<u32>,
) -> Result<Seq<SampleRowView>, ErrorView>
    decreases k,
{
    if k == 0 {
        Ok(Seq::empty())
    } else {
        match spec_binary_rows(b, (k - 1) as nat, fmt, na, ns, critical, ends) {
            Err(e) => Err(e),
            Ok(rows) => match spec_binary_row(
                b,
                (k - 1) * record_size(na, ns, fmt),
                fmt,
                na,
                ns,
                critical,
                ends,
            ) {
                Err(e) => Err(e),
                Ok(r) => Ok(rows.push(r)),
            },
        }
    }
}

/// The `total` samples of a binary `.dat` file.
pub open spec fn spec_parse_dat_binary(
    b: Seq<u8>,
    total: nat,
    fmt: DataFormat,
    na: nat,
    ns: nat,
    critical: bool,
    ends: Seq<u32>,
) -> Result<Seq<SampleRowView>, ErrorView> {
    spec_binary_rows(b, total, fmt, na, ns, critical, ends)
}

fn eof_error(what: &str) -> (r: ComtradeError)
    ensures
        r@ == ErrorView::ParserError(msg_eof(what@)),
{
    let mut m = String::new();
    push_str(&mut m, "failed to read ");
    push_str(&mut m, what);
    push_str(&mut m, ": failed to fill whole buffer");
    ComtradeError::ParserError(m)
}

/// Reads the binary sample stored at `b[o..]`.
#[verifier::loop_isolation(false)]
pub fn parse_binary_row(b: &[u8], o: usize, fmt: DataFormat, layout: &DatLayout) -> (r: Result<
    SampleRow,
    ComtradeError,
>)
    requires
        layout.wf(),
        fmt != DataFormat::Ascii,
    ensures
        r matches Ok(row) ==> row.analog@.len() == layout.num_analog && row.status@.len()
            == layout.num_status,
        match r {
            Ok(row) => spec_binary_row(
                b@,
                o as int,
                fmt,
                layout.num_analog as nat,
                layout.num_status as nat,
                layout.is_timestamp_critical,
                layout.end_samples@,
            ) == Ok::<SampleRowView, ErrorView>(row@),
            Err(e) => spec_binary_row(
                b@,
                o as int,
                fmt,
                layout.num_analog as nat,
                layout.num_status as nat,
                layout.is_timestamp_critical,
                layout.end_samples@,
            ) == Err::<SampleRowView, ErrorView>(e@),
        },
{
    let len = b.len();
    let na = layout.num_analog;
    let ns = layout.num_status;
    if o as u128 + 4 > len as u128 {
        return Err(eof_error("sample number in binary data"));
    }
    if o as u128 + 8 > len as u128 {
        return Err(eof_error("timestamp in binary data"));
    }
    let sample_number = read_u32_le(b, o);
    let t = read_u32_le(b, o + 4);
    let timestamp = if t == 0xffff_ffffu32 {
        None
    } else {
        Some(t)
    };
    let time_basis = real_time(
        layout.is_timestamp_critical,
        &layout.end_samples,
        sample_number,
        timestamp,
    )?;
    let w: usize = match fmt {
        DataFormat::Binary16 => 2,
        _ => 4,
    };
    let ghost wn = value_width(fmt);
    assert(w == wn);
    let analog_end: u128 = o as u128 + 8 + (na as u128) * (w as u128);
    if analog_end > len as u128 {
        let what = match fmt {
            DataFormat::Binary16 => "binary16 analog value",
            DataFormat::Binary32 => "binary32 analog value",
            _ => "float32 analog value",
        };
        return Err(eof_error(what));
    }
    let groups: u128 = ((ns as u128) + 15) / 16;
    let end: u128 = analog_end + 2 * groups;
    assert(end == o + record_size(na as nat, ns as nat, fmt));
    if end > len as u128 {
        return Err(eof_error("status group"));
    }
    let so: usize = o + 8 + na * w;
    let mut analog: Vec<AnalogSample> = Vec::new();
    let mut c: usize = 0;
    let mut p: usize = o + 8;
    assert(sample_views(analog@) =~= Seq::<AnalogSampleView>::empty());
    while c < na
        invariant
            c <= na,
            p == o + 8 + c * w,
            p + (na - c) * w == so,
            so <= len,
            sample_views(analog@) =~= Seq::new(
                c as nat,
                |k: int| analog_value_at(b@, o + 8 + k * w, fmt),
            ),
        decreases na - c,
    {
        proof {
            assert(p + w <= so) by (nonlinear_arith)
                requires
                    p + (na - c) * w == so,
                    c < na,
                    w >= 0,
            ;
        }
        let v = match fmt {
            DataFormat::Binary16 => AnalogSample::Int16(read_i16_le(b, p)),
            DataFormat::Binary32 => AnalogSample::Int32(read_i32_le(b, p)),
            _ => AnalogSample::Float32Bits(read_u32_le(b, p)),
        };
        let ghost before = sample_views(analog@);
        assert(v@ == analog_value_at(b@, o + 8 + c * w, fmt));
        analog.push(v);
        assert(sample_views(analog@) =~= before.push(v@));
        proof {
            assert((c + 1) * w == c * w + w) by (nonlinear_arith);
            assert(p + w + (na - (c + 1)) * w == so) by (nonlinear_arith)
                requires
                    p + (na - c) * w == so,
            ;
        }
        c = c + 1;
        p = p + w;
    }
    let mut status: Vec<u8> = Vec::new();
    let mut c: usize = 0;
    assert(status@ =~= Seq::<u8>::empty());
    while c < ns
        invariant
            c <= ns,
            so + 2 * groups <= len,
            status@ =~= Seq::new(c as nat, |k: int| status_bit(b@, so as int, k)),
        decreases ns - c,
    {
        let g = c / 16;
        proof {
            assert(2 * g + 2 <= 2 * groups) by (nonlinear_arith)
                requires
                    g == c / 16,
                    c < ns,
                    groups == (ns + 15) / 16,
            ;
        }
        let group = read_u16_le(b, so + 2 * g);
        let shift = (c % 16) as u16;
        assert((group >> shift) & 1u16 <= 1u16) by (bit_vector);
        let bit = ((group >> shift) & 1u16) as u8;
        status.push(bit);
        c = c + 1;
    }
    Ok(SampleRow { sample_number, time_basis, analog, status })
}


proof fn lemma_binary_rows_err(
    b: Seq<u8>,
    m: nat,
    n: nat,
    fmt: DataFormat,
    na: nat,
    ns: nat,
    critical: bool,
    ends: Seq<u32>,
)
    requires
        m <= n,
        spec_binary_rows(b, m, fmt, na, ns, critical, ends) is Err,
    ensures
        spec_binary_rows(b, n, fmt, na, ns, critical, ends) == spec_binary_rows(
            b,
            m,
            fmt,
            na,
            ns,
            critical,
            ends,
        ),
    decreases n - m,
{
    if m < n {
        lemma_binary_rows_err(b, m, (n - 1) as nat, fmt, na, ns, critical, ends);
    }
}

/// Reads the samples of a binary `.dat` file: as many as the configuration
/// gives, one record of fixed size after the other.
pub fn parse_dat_binary(b: &[u8], fmt: DataFormat, layout: &DatLayout) -> (r: Result<
    Vec<SampleRow>,
    ComtradeError,
>)
    requires
        layout.wf(),
        fmt != DataFormat::Ascii,
    ensures
        r matches Ok(rows) ==> rows_shaped(rows@, layout.num_analog as nat, layout.num_status as nat),
        match r {
            Ok(rows) => spec_parse_dat_binary(b@, layout.total_num_samples as nat, fmt, layout.num_analog as nat, layout.num_status as nat, layout.is_timestamp_critical, layout.end_samples@) == Ok::<
                Seq<SampleRowView>,
                ErrorView,
            >(row_views(rows@)),
            Err(e) => spec_parse_dat_binary(b@, layout.total_num_samples as nat, fmt, layout.num_analog as nat, layout.num_status as nat, layout.is_timestamp_critical, layout.end_samples@) == Err::<
                Seq<SampleRowView>,
                ErrorView,
            >(e@),
        },
{
    let ghost na = layout.num_analog as nat;
    let ghost ns = layout.num_status as nat;
    let w: u128 = match fmt {
        DataFormat::Binary16 => 2,
        _ => 4,
    };
    let size: u128 = 8 + (layout.num_analog as u128) * w + 2 * (((layout.num_status as u128) + 15)
        / 16);
    assert(size == record_size(na, ns, fmt));
    let total = layout.total_num_samples;
    let mut rows: Vec<SampleRow> = Vec::new();
    let mut r: usize = 0;
    let mut o: usize = 0;
    assert(row_views(rows@) =~= Seq::empty());
    while r < total
        invariant
            layout.wf(),
            fmt != DataFormat::Ascii,
            na == layout.num_analog as nat,
            ns == layout.num_status as nat,
            size == record_size(na, ns, fmt),
            total == layout.total_num_samples,
            r <= total,
            rows_shaped(rows@, na, ns),
            o == r * size,
            o <= b@.len(),
            spec_binary_rows(b@, r as nat, fmt, na, ns, layout.is_timestamp_critical, layout.end_samples@)
                == Ok::<Seq<SampleRowView>, ErrorView>(row_views(rows@)),
        decreases total - r,
    {
        let row = match parse_binary_row(b, o, fmt, layout) {
            Ok(row) => row,
            Err(e) => {
                proof {
                    lemma_binary_rows_err(
                        b@,
                        (r + 1) as nat,
                        total as nat,
                        fmt,
                        na,
                        ns,
                        layout.is_timestamp_critical,
                        layout.end_samples@,
                    );
                }
                return Err(e);
            },
        };
        assert(o + size <= b@.len());
        let ghost before = rows@;
        rows.push(row);
        assert(row_views(rows@) =~= row_views(before).push(row@));
        proof {
            assert((r + 1) * size == r * size + size) by (nonlinear_arith);
        }
        let next: u128 = o as u128 + size;
        let blen = b.len();
        assert(next <= blen);
        o = next as usize;
        r = r + 1;
    }
    Ok(rows)
}


/// A binary `.dat` file read without error gives exactly the number of
/// samples that the configuration announces, each with one value per
/// channel and its status values single bits.
pub proof fn lemma_binary_rows_shape(
    b: Seq<u8>,
    k: nat,
    fmt: DataFormat,
    na: nat,
    ns: nat,
    critical: bool,
    ends: Seq<u32>,
)
    ensures
        spec_binary_rows(b, k, fmt, na, ns, critical, ends) matches Ok(rows) ==> {
            &&& rows.len() == k
            &&& forall|r: int|
                0 <= r < rows.len() ==> (#[trigger] rows[r]).analog.len() == na
                    && rows[r].status.len() == ns
            &&& forall|r: int, c: int|
                0 <= r < rows.len() && 0 <= c < ns ==> #[trigger] rows[r].status[c] <= 1
        },
    decreases k,
{
    if k > 0 {
        lemma_binary_rows_shape(b, (k - 1) as nat, fmt, na, ns, critical, ends);
        let o = (k - 1) * record_size(na, ns, fmt);
        let w = value_width(fmt);
        assert forall|c: int| 0 <= c < ns implies #[trigger] status_bit(b, o + 8 + na * w, c) <= 1 by {
            lemma_status_bit_is_bit(b, o + 8 + na * w, c);
        }
    }
}

/// What a binary `.dat` file read without error holds. Sample `r` is the
/// `r`-th record of `record_size` bytes: its sample number is the
/// little-endian `u32` of the record's first four bytes; where timestamps
/// are critical and the next four bytes do not hold the marker
/// `0xFFFFFFFF`, its time is the timestamp stored there, and otherwise the
/// sampling rate that covers its number; analog channel `c` is the
/// little-endian value (16 or 32 bits, by layout) stored `c` values after
/// the first eight bytes; and status channel
/// `c` is bit `c % 16` of the little-endian 16-bit group `c / 16` that
/// follows the analog values, that is bit `c % 8` of byte
/// `2 * (c / 16) + (c % 16) / 8` of the groups.
pub proof fn lemma_binary_rows_content(
    b: Seq<u8>,
    k: nat,
    fmt: DataFormat,
    na: nat,
    ns: nat,
    critical: bool,
    ends: Seq<u32>,
)
    ensures
        spec_binary_rows(b, k, fmt, na, ns, critical, ends) matches Ok(rows) ==> {
            &&& rows.len() == k
            &&& forall|r: int|
                #![trigger rows[r]]
                0 <= r < rows.len() ==> {
                    let o = r * record_size(na, ns, fmt);
                    let stored = b[o + 4] as int + 256 * (b[o + 5] as int) + 65536 * (b[o + 6] as int)
                        + 16777216 * (b[o + 7] as int);
                    &&& o + record_size(na, ns, fmt) <= b.len()
                    &&& rows[r].sample_number as int == b[o] as int + 256 * (b[o + 1] as int)
                        + 65536 * (b[o + 2] as int) + 16777216 * (b[o + 3] as int)
                    &&& (critical && stored != 0xffff_ffff) ==> rows[r].time_basis
                        == TimeBasis::Timestamp { value: stored as u32 }
                    &&& !(critical && stored != 0xffff_ffff) ==> rows[r].time_basis
                        == TimeBasis::SampleRate {
                        rate_index: rate_index_for(ends, rows[r].sample_number)->0 as usize,
                    }
                }
            &&& forall|r: int, c: int|
                #![trigger rows[r].analog[c]]
                0 <= r < rows.len() && 0 <= c < na ==> {
                    let x = r * record_size(na, ns, fmt) + 8 + c * value_width(fmt);
                    let v16 = b[x] as int + 256 * (b[x + 1] as int);
                    let v32 = v16 + 65536 * (b[x + 2] as int) + 16777216 * (b[x + 3] as int);
                    &&& fmt == DataFormat::Binary16 ==> rows[r].analog[c] == AnalogSampleView::Int16(
                        (v16 as u16) as i16,
                    )
                    &&& fmt == DataFormat::Binary32 ==> rows[r].analog[c] == AnalogSampleView::Int32(
                        (v32 as u32) as i32,
                    )
                    &&& fmt == DataFormat::Float32 ==> rows[r].analog[c]
                        == AnalogSampleView::Float32Bits(v32 as u32)
                }
            &&& forall|r: int, c: int|
                0 <= r < rows.len() && 0 <= c < ns ==> #[trigger] rows[r].status[c] == (b[r
                    * record_size(na, ns, fmt) + 8 + na * value_width(fmt) + 2 * (c / 16) + (c
                    % 16) / 8] >> ((c % 8) as u8)) & 1u8
        },
    decreases k,
{
    if k > 0 {
        lemma_binary_rows_content(b, (k - 1) as nat, fmt, na, ns, critical, ends);
        let size = record_size(na, ns, fmt);
        let o = (k - 1) * size;
        let w = value_width(fmt);
        if spec_binary_rows(b, k, fmt, na, ns, critical, ends) is Ok {
            let rows = spec_binary_rows(b, k, fmt, na, ns, critical, ends)->Ok_0;
            let prev = spec_binary_rows(b, (k - 1) as nat, fmt, na, ns, critical, ends)->Ok_0;
            let row = spec_binary_row(b, o, fmt, na, ns, critical, ends)->Ok_0;
            assert(rows == prev.push(row));
            assert(0 <= o) by (nonlinear_arith)
                requires
                    k > 0,
                    o == (k - 1) * size,
                    size >= 0,
            ;
            assert forall|c: int| 0 <= c < ns implies #[trigger] row.status[c] == (b[o + 8 + na * w
                + 2 * (c / 16) + (c % 16) / 8] >> ((c % 8) as u8)) & 1u8 by {
                assert(c / 16 < status_groups(ns));
                assert(0 <= na * w) by (nonlinear_arith);
                lemma_status_bit_bytes(b, o + 8 + na * w, c);
            }
            assert forall|r: int, c: int|
                0 <= r < rows.len() && 0 <= c < ns implies #[trigger] rows[r].status[c] == (b[r
                    * size + 8 + na * w + 2 * (c / 16) + (c % 16) / 8] >> ((c % 8) as u8)) & 1u8 by {
                if r < k - 1 {
                    assert(rows[r] == prev[r]);
                } else {
                    assert(rows[r] == row);
                }
            }
            assert forall|r: int, c: int|
                #![trigger rows[r].analog[c]]
                0 <= r < rows.len() && 0 <= c < na implies {
                    let x = r * size + 8 + c * w;
                    let v16 = b[x] as int + 256 * (b[x + 1] as int);
                    let v32 = v16 + 65536 * (b[x + 2] as int) + 16777216 * (b[x + 3] as int);
                    &&& fmt == DataFormat::Binary16 ==> rows[r].analog[c] == AnalogSampleView::Int16(
                        (v16 as u16) as i16,
                    )
                    &&& fmt == DataFormat::Binary32 ==> rows[r].analog[c] == AnalogSampleView::Int32(
                        (v32 as u32) as i32,
                    )
                    &&& fmt == DataFormat::Float32 ==> rows[r].analog[c]
                        == AnalogSampleView::Float32Bits(v32 as u32)
                } by {
                if r < k - 1 {
                    assert(rows[r] == prev[r]);
                } else {
                    assert(rows[r] == row);
                }
            }
            assert forall|r: int| #![trigger rows[r]] 0 <= r < rows.len() implies {
                let o2 = r * size;
                let stored = b[o2 + 4] as int + 256 * (b[o2 + 5] as int) + 65536 * (b[o2 + 6] as int)
                    + 16777216 * (b[o2 + 7] as int);
                &&& o2 + size <= b.len()
                &&& rows[r].sample_number as int == b[o2] as int + 256 * (b[o2 + 1] as int)
                    + 65536 * (b[o2 + 2] as int) + 16777216 * (b[o2 + 3] as int)
                &&& (critical && stored != 0xffff_ffff) ==> rows[r].time_basis
                    == TimeBasis::Timestamp { value: stored as u32 }
                &&& !(critical && stored != 0xffff_ffff) ==> rows[r].time_basis
                    == TimeBasis::SampleRate {
                    rate_index: rate_index_for(ends, rows[r].sample_number)->0 as usize,
                }
            } by {
                if r < k - 1 {
                    assert(rows[r] == prev[r]);
                } else {
                    assert(rows[r] == row);
                }
            }
        }
    }
}

proof fn lemma_ascii_status_columns(vals: Seq<Seq<char>>, na: nat, k: nat, i: nat)
    ensures
        spec_ascii_status(vals, na, k, i) matches Ok(s) ==> forall|c: int|
            0 <= c < k ==> parse_unsigned(trim(vals[na + 2 + c]), 255) == Some(
                #[trigger] s[c] as nat,
            ),
    decreases k,
{
    if k > 0 {
        lemma_ascii_status_columns(vals, na, (k - 1) as nat, i);
        if spec_ascii_status(vals, na, k, i) is Ok {
            let prev = spec_ascii_status(vals, na, (k - 1) as nat, i)->Ok_0;
            let s = spec_ascii_status(vals, na, k, i)->Ok_0;
            let v = trim(vals[k - 1 + na + 2]);
            lemma_ascii_status_len(vals, na, (k - 1) as nat, i);
            assert(s == prev.push(u8_of(v)->0));
            assert(na + 2 + (k - 1) == k - 1 + na + 2);
            assert forall|c: int| 0 <= c < k implies parse_unsigned(trim(vals[na + 2 + c]), 255)
                == Some(#[trigger] s[c] as nat) by {
                if c < k - 1 {
                    assert(s[c] == prev[c]);
                }
            }
        }
    }
}

proof fn lemma_ascii_analog_columns(vals: Seq<Seq<char>>, k: nat, i: nat)
    ensures
        spec_ascii_analog(vals, k, i) matches Ok(s) ==> forall|c: int|
            0 <= c < k ==> #[trigger] s[c] == AnalogSampleView::Decimal(trim(vals[2 + c])),
    decreases k,
{
    if k > 0 {
        lemma_ascii_analog_columns(vals, (k - 1) as nat, i);
        if spec_ascii_analog(vals, k, i) is Ok {
            let prev = spec_ascii_analog(vals, (k - 1) as nat, i)->Ok_0;
            let s = spec_ascii_analog(vals, k, i)->Ok_0;
            let v = trim(vals[k - 1 + 2]);
            lemma_ascii_analog_len(vals, (k - 1) as nat, i);
            assert(s == prev.push(AnalogSampleView::Decimal(v)));
            assert forall|c: int| 0 <= c < k implies #[trigger] s[c] == AnalogSampleView::Decimal(
                trim(vals[2 + c]),
            ) by {
                if c < k - 1 {
                    assert(s[c] == prev[c]);
                }
            }
        }
    }
}

/// What an ASCII `.dat` file read without error holds: row `r` comes from
/// the `r`-th line of the file that holds more than whitespace, cut at its
/// commas into `2 + na + ns` columns, each taken without surrounding
/// whitespace. Its sample number is the number in column 0; where
/// timestamps are critical and column 1 is not empty its time is the
/// timestamp in column 1, otherwise the sampling rate that covers its
/// number; analog channel `k` is the decimal text of column `2 + k`, and
/// status channel `k` is the number in column `2 + na + k`.
pub proof fn lemma_ascii_rows_columns(
    contents: Seq<char>,
    na: nat,
    ns: nat,
    critical: bool,
    ends: Seq<u32>,
)
    ensures
        spec_parse_dat_ascii(contents, na, ns, critical, ends) matches Ok(rows) ==> {
            let nb = nonblank_lines(split_on(contents, '\n'));
            &&& rows.len() == nb.len()
            &&& forall|r: int|
                0 <= r < rows.len() ==> split_on(nb[r], ',').len() == 2 + na + ns && parse_unsigned(
                    trim(split_on(nb[r], ',')[0]),
                    u32::MAX as nat,
                ) == Some((#[trigger] rows[r]).sample_number as nat)
            &&& forall|r: int|
                #![trigger rows[r]]
                0 <= r < rows.len() ==> {
                    let t = trim(split_on(nb[r], ',')[1]);
                    &&& (critical && t.len() > 0) ==> rows[r].time_basis is Timestamp && parse_unsigned(
                        t,
                        u32::MAX as nat,
                    ) == Some(rows[r].time_basis->value as nat)
                    &&& !(critical && t.len() > 0) ==> rows[r].time_basis == TimeBasis::SampleRate {
                        rate_index: rate_index_for(ends, rows[r].sample_number)->0 as usize,
                    }
                }
            &&& forall|r: int, k: int|
                0 <= r < rows.len() && 0 <= k < na ==> #[trigger] rows[r].analog[k]
                    == AnalogSampleView::Decimal(trim(split_on(nb[r], ',')[2 + k]))
            &&& forall|r: int, k: int|
                0 <= r < rows.len() && 0 <= k < ns ==> parse_unsigned(
                    trim(split_on(nb[r], ',')[2 + na + k]),
                    255,
                ) == Some(#[trigger] rows[r].status[k] as nat)
        },
{
    lemma_ascii_rows_columns_of(nonblank_lines(split_on(contents, '\n')), na, ns, critical, ends);
}

proof fn lemma_ascii_rows_columns_of(
    nb: Seq<Seq<char>>,
    na: nat,
    ns: nat,
    critical: bool,
    ends: Seq<u32>,
)
    ensures
        spec_ascii_rows(nb, na, ns, critical, ends) matches Ok(rows) ==> {
            &&& rows.len() == nb.len()
            &&& forall|r: int|
                0 <= r < rows.len() ==> split_on(nb[r], ',').len() == 2 + na + ns && parse_unsigned(
                    trim(split_on(nb[r], ',')[0]),
                    u32::MAX as nat,
                ) == Some((#[trigger] rows[r]).sample_number as nat)
            &&& forall|r: int|
                #![trigger rows[r]]
                0 <= r < rows.len() ==> {
                    let t = trim(split_on(nb[r], ',')[1]);
                    &&& (critical && t.len() > 0) ==> rows[r].time_basis is Timestamp && parse_unsigned(
                        t,
                        u32::MAX as nat,
                    ) == Some(rows[r].time_basis->value as nat)
                    &&& !(critical && t.len() > 0) ==> rows[r].time_basis == TimeBasis::SampleRate {
                        rate_index: rate_index_for(ends, rows[r].sample_number)->0 as usize,
                    }
                }
            &&& forall|r: int, k: int|
                0 <= r < rows.len() && 0 <= k < na ==> #[trigger] rows[r].analog[k]
                    == AnalogSampleView::Decimal(trim(split_on(nb[r], ',')[2 + k]))
            &&& forall|r: int, k: int|
                0 <= r < rows.len() && 0 <= k < ns ==> parse_unsigned(
                    trim(split_on(nb[r], ',')[2 + na + k]),
                    255,
                ) == Some(#[trigger] rows[r].status[k] as nat)
        },
    decreases nb.len(),
{
    if nb.len() > 0 {
        lemma_ascii_rows_columns_of(nb.drop_last(), na, ns, critical, ends);
        if spec_ascii_rows(nb, na, ns, critical, ends) is Ok {
            reveal(spec_ascii_row);
            let prev = spec_ascii_rows(nb.drop_last(), na, ns, critical, ends)->Ok_0;
            let rows = spec_ascii_rows(nb, na, ns, critical, ends)->Ok_0;
            let i = prev.len();
            let row = spec_ascii_row(nb.last(), i, na, ns, critical, ends)->Ok_0;
            assert(rows == prev.push(row));
            let vals = split_on(nb.last(), ',');
            lemma_ascii_analog_columns(vals, na, i);
            lemma_ascii_status_columns(vals, na, ns, i);
            assert forall|r: int|
                0 <= r < rows.len() implies split_on(nb[r], ',').len() == 2 + na + ns
                && parse_unsigned(trim(split_on(nb[r], ',')[0]), u32::MAX as nat) == Some(
                (#[trigger] rows[r]).sample_number as nat,
            ) by {
                if r < rows.len() - 1 {
                    assert(rows[r] == prev[r]);
                    assert(nb[r] == nb.drop_last()[r]);
                } else {
                    assert(rows[r] == row);
                }
            }
            assert forall|r: int|
                #![trigger rows[r]]
                0 <= r < rows.len() implies {
                    let t = trim(split_on(nb[r], ',')[1]);
                    &&& (critical && t.len() > 0) ==> rows[r].time_basis is Timestamp && parse_unsigned(
                        t,
                        u32::MAX as nat,
                    ) == Some(rows[r].time_basis->value as nat)
                    &&& !(critical && t.len() > 0) ==> rows[r].time_basis == TimeBasis::SampleRate {
                        rate_index: rate_index_for(ends, rows[r].sample_number)->0 as usize,
                    }
                } by {
                if r < rows.len() - 1 {
                    assert(rows[r] == prev[r]);
                    assert(nb[r] == nb.drop_last()[r]);
                } else {
                    assert(rows[r] == row);
                }
            }
            assert forall|r: int, k: int|
                0 <= r < rows.len() && 0 <= k < na implies #[trigger] rows[r].analog[k]
                == AnalogSampleView::Decimal(trim(split_on(nb[r], ',')[2 + k])) by {
                if r < rows.len() - 1 {
                    assert(rows[r] == prev[r]);
                    assert(nb[r] == nb.drop_last()[r]);
                } else {
                    assert(rows[r] == row);
                }
            }
            assert forall|r: int, k: int|
                0 <= r < rows.len() && 0 <= k < ns implies parse_unsigned(
                trim(split_on(nb[r], ',')[2 + na + k]),
                255,
            ) == Some(#[trigger] rows[r].status[k] as nat) by {
                if r < rows.len() - 1 {
                    assert(rows[r] == prev[r]);
                    assert(nb[r] == nb.drop_last()[r]);
                } else {
                    assert(rows[r] == row);
                }
            }
        }
    }
}

proof fn lemma_ascii_analog_len(vals: Seq<Seq<char>>, k: nat, i: nat)
    ensures
        spec_ascii_analog(vals, k, i) matches Ok(s) ==> s.len() == k,
    decreases k,
{
    if k > 0 {
        lemma_ascii_analog_len(vals, (k - 1) as nat, i);
    }
}

proof fn lemma_ascii_status_len(vals: Seq<Seq<char>>, na: nat, k: nat, i: nat)
    ensures
        spec_ascii_status(vals, na, k, i) matches Ok(s) ==> s.len() == k && forall|c: int|
            0 <= c < k ==> #[trigger] s[c] <= 1,
    decreases k,
{
    if k > 0 {
        lemma_ascii_status_len(vals, na, (k - 1) as nat, i);
    }
}

/// An ASCII `.dat` file read without error gives one sample per line that
/// holds more than whitespace, each with one value per channel, and each
/// status value a state, 0 or 1.
pub proof fn lemma_ascii_rows_shape(
    nb: Seq<Seq<char>>,
    na: nat,
    ns: nat,
    critical: bool,
    ends: Seq<u32>,
)
    ensures
        spec_ascii_rows(nb, na, ns, critical, ends) matches Ok(rows) ==> {
            &&& rows.len() == nb.len()
            &&& forall|r: int|
                0 <= r < rows.len() ==> (#[trigger] rows[r]).analog.len() == na
                    && rows[r].status.len() == ns
            &&& forall|r: int, c: int|
                0 <= r < rows.len() && 0 <= c < ns ==> #[trigger] rows[r].status[c] <= 1
        },
    decreases nb.len(),
{
    if nb.len() > 0 {
        lemma_ascii_rows_shape(nb.drop_last(), na, ns, critical, ends);
        reveal(spec_ascii_row);
        let vals = split_on(nb.last(), ',');
        let i = (nb.len() - 1) as nat;
        lemma_ascii_analog_len(vals, na, i);
        lemma_ascii_status_len(vals, na, ns, i);
    }
}

} // verus!
