//! A line of the `.cfg` file as the sequence of its comma-separated fields.

use vstd::prelude::*;
use crate::codes::{
    AnalogScalingMode, DataFormat, LeapSecondStatus, TimeQuality, spec_data_format,
    spec_leap_second_status, spec_scaling_mode, spec_time_quality,
};
use crate::error::{ComtradeError, ErrorView, res_view};
use crate::text::{
    chars_of, digit_run_end, is_float_literal, is_float_literal_str, parse_i32_str, parse_signed,
    parse_unsigned, parse_unsigned_str, split_on, lemma_trim_idempotent, split_str, string_of, trim, trimmed, utf8_width,
    utf8_width_of,
};

verus! {

/// A floating-point value of the record, kept as the text that denotes it:
/// always a text that `str::parse` accepts for a floating-point type.
#[derive(Debug, PartialEq)]
pub struct FloatLiteral {
    text: String,
}

impl FloatLiteral {
    #[verifier::type_invariant]
    spec fn inv(self) -> bool {
        is_float_literal(self.text@)
    }

    /// The literal `text`, where it is one.
    pub fn new(text: String) -> (r: Option<Self>)
        ensures
            r is Some <==> is_float_literal(text@),
            r matches Some(f) ==> f@ == text@,
    {
        if is_float_literal_str(text.as_str()) {
            Some(FloatLiteral { text })
        } else {
            None
        }
    }

    /// The literal 1.0.
    pub fn one() -> (r: Self)
        ensures
            r@ == "1.0"@,
    {
        proof {
            reveal_strlit("1.0");
            reveal_with_fuel(digit_run_end, 3);
        }
        FloatLiteral { text: "1.0".to_owned() }
    }

    /// The text of the literal.
    pub fn text(&self) -> (r: &str)
        ensures
            r@ == self@,
            is_float_literal(r@),
    {
        proof {
            use_type_invariant(self);
        }
        self.text.as_str()
    }

    /// A copy of the literal.
    pub fn copy(&self) -> (r: Self)
        ensures
            r@ == self@,
    {
        proof {
            use_type_invariant(self);
        }
        FloatLiteral { text: self.text.clone() }
    }
}

impl Clone for FloatLiteral {
    fn clone(&self) -> (r: Self)
        ensures
            r@ == self@,
    {
        self.copy()
    }
}

impl View for FloatLiteral {
    type V = Seq<char>;

    closed spec fn view(&self) -> Seq<char> {
        self.text@
    }
}

/// The literal of a field that denotes a floating-point value.
pub open spec fn float_of(f: Seq<char>) -> Option<Seq<char>> {
    if is_float_literal(f) {
        Some(f)
    } else {
        None
    }
}

/// The fields of a `.cfg` line: the pieces between its commas, each without
/// surrounding whitespace.
pub open spec fn cfg_fields(line: Seq<char>) -> Seq<Seq<char>> {
    split_on(line, ',').map_values(|p: Seq<char>| trim(p))
}

/// The fields of a line are trimmed: none starts or ends with whitespace;
/// there is one more field than the line has commas.
pub proof fn lemma_cfg_fields_trimmed(line: Seq<char>)
    ensures
        cfg_fields(line).len() == split_on(line, ',').len(),
        forall|i: int|
            0 <= i < cfg_fields(line).len() ==> trim(#[trigger] cfg_fields(line)[i])
                == cfg_fields(line)[i],
{
    assert forall|i: int| 0 <= i < cfg_fields(line).len() implies trim(
        #[trigger] cfg_fields(line)[i],
    ) == cfg_fields(line)[i] by {
        lemma_trim_idempotent(split_on(line, ',')[i]);
    }
}

pub open spec fn usize_of(f: Seq<char>) -> Option<usize> {
    match parse_unsigned(f, usize::MAX as nat) {
        Some(v) => Some(v as usize),
        None => None,
    }
}

/// A strictly positive `usize`, as `NonZeroUsize` parses it.
pub open spec fn nonzero_usize_of(f: Seq<char>) -> Option<usize> {
    match parse_unsigned(f, usize::MAX as nat) {
        Some(v) => if v > 0 {
            Some(v as usize)
        } else {
            None
        },
        None => None,
    }
}

pub open spec fn u32_of(f: Seq<char>) -> Option<u32> {
    match parse_unsigned(f, u32::MAX as nat) {
        Some(v) => Some(v as u32),
        None => None,
    }
}

pub open spec fn u8_of(f: Seq<char>) -> Option<u8> {
    match parse_unsigned(f, u8::MAX as nat) {
        Some(v) => Some(v as u8),
        None => None,
    }
}

pub open spec fn i32_of(f: Seq<char>) -> Option<i32> {
    match parse_signed(f, i32::MIN as int, i32::MAX as int) {
        Some(v) => Some(v as i32),
        None => None,
    }
}

pub open spec fn ok_of<T>(r: Result<T, ErrorView>) -> Option<T> {
    match r {
        Ok(v) => Some(v),
        Err(_) => None,
    }
}

/// The error for a field whose text does not read as the named type.
pub open spec fn invalid_value(f: Seq<char>, type_label: Seq<char>) -> ErrorView {
    ErrorView::InvalidValue { value: f, type_: type_label, field: ""@ }
}

/// Reading the next field of `rem` with `parse`: a missing field, a field
/// that does not parse, or the value.
pub open spec fn read_field<T>(
    rem: Seq<Seq<char>>,
    parse: spec_fn(Seq<char>) -> Option<T>,
    type_label: Seq<char>,
) -> Result<T, ErrorView> {
    if rem.len() == 0 {
        Err(ErrorView::MissingLineElements(""@))
    } else {
        match parse(rem[0]) {
            Some(v) => Ok(v),
            None => Err(invalid_value(rem[0], type_label)),
        }
    }
}

/// The fields that remain after one read.
pub open spec fn after_read(rem: Seq<Seq<char>>) -> Seq<Seq<char>> {
    if rem.len() > 0 {
        rem.drop_first()
    } else {
        rem
    }
}

/// Whether reading `f` with its last character dropped slices a multi-byte
/// character apart (the slice panics there).
pub open spec fn trailing_char_split(f: Seq<char>) -> bool {
    f.len() > 0 && utf8_width(f.last()) > 1
}

/// `f` with its last character dropped (empty stays empty).
pub open spec fn without_last(f: Seq<char>) -> Seq<char> {
    if f.len() > 0 {
        f.drop_last()
    } else {
        f
    }
}


/// The error of reading field `i` of `f` with `parse` in the context `ctx`,
/// where that read fails.
pub open spec fn field_error<T>(
    f: Seq<Seq<char>>,
    i: int,
    parse: spec_fn(Seq<char>) -> Option<T>,
    type_label: Seq<char>,
    ctx: Seq<char>,
) -> Option<ErrorView> {
    if i >= f.len() {
        Some(ErrorView::MissingLineElements(ctx))
    } else if parse(f[i]) is None {
        Some(ErrorView::InvalidValue { value: f[i], type_: type_label, field: ctx })
    } else {
        None
    }
}

/// The error of reading a text field `i` of `f` in the context `ctx`: only
/// a missing field fails.
pub open spec fn text_error(f: Seq<Seq<char>>, i: int, ctx: Seq<char>) -> Option<ErrorView> {
    if i >= f.len() {
        Some(ErrorView::MissingLineElements(ctx))
    } else {
        None
    }
}

/// The first of two errors that occurs.
pub open spec fn or_else(a: Option<ErrorView>, b: Option<ErrorView>) -> Option<ErrorView> {
    if a is Some {
        a
    } else {
        b
    }
}


/// What reading one field does to the fields from position `k` on.
pub proof fn lemma_read_step(f: Seq<Seq<char>>, k: int)
    requires
        0 <= k <= f.len(),
    ensures
        f.skip(k).len() == f.len() - k,
        k < f.len() ==> f.skip(k)[0] == f[k],
        k < f.len() ==> after_read(f.skip(k)) == f.skip(k + 1),
{
    if k < f.len() {
        assert(f.skip(k).drop_first() =~= f.skip(k + 1));
    }
}

/// A line of the configuration file, read field by field from the left.
pub struct ConfigLine {
    fields: Vec<String>,
    pos: usize,
}

impl ConfigLine {
    /// The fields not read yet.
    pub closed spec fn remaining(&self) -> Seq<Seq<char>> {
        self.fields@.skip(self.pos as int).map_values(|s: String| s@)
    }

    pub closed spec fn wf(&self) -> bool {
        self.pos <= self.fields@.len()
    }

    proof fn lemma_remaining(&self)
        requires
            self.wf(),
        ensures
            self.remaining().len() == self.fields@.len() - self.pos,
            forall|k: int|
                0 <= k < self.remaining().len() ==> #[trigger] self.remaining()[k]
                    == self.fields@[self.pos + k]@,
    {
    }

    /// The next field, without reading a value from it.
    pub fn next(&mut self) -> (r: Option<String>)
        requires
            old(self).wf(),
        ensures
            final(self).wf(),
            final(self).remaining() == after_read(old(self).remaining()),
            old(self).remaining().len() == 0 ==> r is None,
            old(self).remaining().len() > 0 ==> (r matches Some(s) && s@
                == old(self).remaining()[0]),
    {
        proof {
            self.lemma_remaining();
        }
        if self.pos < self.fields.len() {
            let s = self.fields[self.pos].clone();
            self.pos = self.pos + 1;
            proof {
                self.lemma_remaining();
                assert(final(self).remaining() =~= old(self).remaining().drop_first());
            }
            Some(s)
        } else {
            None
        }
    }

    /// The next field; an error where the line has no more fields.
    pub fn read_next(&mut self) -> (r: Result<String, ComtradeError>)
        requires
            old(self).wf(),
        ensures
            final(self).wf(),
            final(self).remaining() == after_read(old(self).remaining()),
            match r {
                Ok(s) => read_field(old(self).remaining(), |f: Seq<char>| Some(f), ""@) == Ok::<
                    Seq<char>,
                    ErrorView,
                >(s@),
                Err(e) => read_field(old(self).remaining(), |f: Seq<char>| Some(f), ""@) == Err::<
                    Seq<char>,
                    ErrorView,
                >(e@),
            },
    {
        match self.next() {
            Some(s) => Ok(s),
            None => Err(ComtradeError::MissingLineElements("")),
        }
    }

    /// The next field as a string (reading a string cannot fail).
    pub fn read_string(&mut self) -> (r: Result<String, ComtradeError>)
        requires
            old(self).wf(),
        ensures
            final(self).wf(),
            final(self).remaining() == after_read(old(self).remaining()),
            match r {
                Ok(s) => read_field(old(self).remaining(), |f: Seq<char>| Some(f), ""@) == Ok::<
                    Seq<char>,
                    ErrorView,
                >(s@),
                Err(e) => read_field(old(self).remaining(), |f: Seq<char>| Some(f), ""@) == Err::<
                    Seq<char>,
                    ErrorView,
                >(e@),
            },
    {
        self.read_next()
    }

    pub fn read_usize(&mut self) -> (r: Result<usize, ComtradeError>)
        requires
            old(self).wf(),
        ensures
            final(self).wf(),
            final(self).remaining() == after_read(old(self).remaining()),
            res_view(r) == read_field(old(self).remaining(), |f: Seq<char>| usize_of(f), "usize"@),
    {
        let s = self.read_next()?;
        match parse_unsigned_str(s.as_str(), usize::MAX as u64) {
            Some(v) => Ok(v as usize),
            None => Err(invalid(s, "usize")),
        }
    }

    /// The next field as a strictly positive `usize`.
    pub fn read_nonzero_usize(&mut self) -> (r: Result<usize, ComtradeError>)
        requires
            old(self).wf(),
        ensures
            final(self).wf(),
            final(self).remaining() == after_read(old(self).remaining()),
            res_view(r) == read_field(
                old(self).remaining(),
                |f: Seq<char>| nonzero_usize_of(f),
                "core::num::nonzero::NonZero<usize>"@,
            ),
    {
        let s = self.read_next()?;
        match parse_unsigned_str(s.as_str(), usize::MAX as u64) {
            Some(v) => if v > 0 {
                Ok(v as usize)
            } else {
                Err(invalid(s, "core::num::nonzero::NonZero<usize>"))
            },
            None => Err(invalid(s, "core::num::nonzero::NonZero<usize>")),
        }
    }

    pub fn read_u32(&mut self) -> (r: Result<u32, ComtradeError>)
        requires
            old(self).wf(),
        ensures
            final(self).wf(),
            final(self).remaining() == after_read(old(self).remaining()),
            res_view(r) == read_field(old(self).remaining(), |f: Seq<char>| u32_of(f), "u32"@),
    {
        let s = self.read_next()?;
        match parse_unsigned_str(s.as_str(), u32::MAX as u64) {
            Some(v) => Ok(v as u32),
            None => Err(invalid(s, "u32")),
        }
    }

    pub fn read_u8(&mut self) -> (r: Result<u8, ComtradeError>)
        requires
            old(self).wf(),
        ensures
            final(self).wf(),
            final(self).remaining() == after_read(old(self).remaining()),
            res_view(r) == read_field(old(self).remaining(), |f: Seq<char>| u8_of(f), "u8"@),
    {
        let s = self.read_next()?;
        match parse_unsigned_str(s.as_str(), u8::MAX as u64) {
            Some(v) => Ok(v as u8),
            None => Err(invalid(s, "u8")),
        }
    }

    pub fn read_i32(&mut self) -> (r: Result<i32, ComtradeError>)
        requires
            old(self).wf(),
        ensures
            final(self).wf(),
            final(self).remaining() == after_read(old(self).remaining()),
            res_view(r) == read_field(old(self).remaining(), |f: Seq<char>| i32_of(f), "i32"@),
    {
        let s = self.read_next()?;
        match parse_i32_str(s.as_str()) {
            Some(v) => Ok(v),
            None => Err(invalid(s, "i32")),
        }
    }

    /// The next field as a floating-point literal.
    pub fn read_float(&mut self) -> (r: Result<FloatLiteral, ComtradeError>)
        requires
            old(self).wf(),
        ensures
            final(self).wf(),
            final(self).remaining() == after_read(old(self).remaining()),
            match r {
                Ok(v) => read_field(old(self).remaining(), |f: Seq<char>| float_of(f), "f64"@)
                    == Ok::<Seq<char>, ErrorView>(v@),
                Err(e) => read_field(old(self).remaining(), |f: Seq<char>| float_of(f), "f64"@)
                    == Err::<Seq<char>, ErrorView>(e@),
            },
    {
        let s = self.read_next()?;
        if is_float_literal_str(s.as_str()) {
            Ok(FloatLiteral { text: s })
        } else {
            Err(invalid(s, "f64"))
        }
    }

    pub fn read_data_format(&mut self) -> (r: Result<DataFormat, ComtradeError>)
        requires
            old(self).wf(),
        ensures
            final(self).wf(),
            final(self).remaining() == after_read(old(self).remaining()),
            res_view(r) == read_field(
                old(self).remaining(),
                |f: Seq<char>| ok_of(spec_data_format(f)),
                "comtrade::codes::DataFormat"@,
            ),
    {
        let s = self.read_next()?;
        match DataFormat::parse(s.as_str()) {
            Ok(v) => Ok(v),
            Err(_) => Err(invalid(s, "comtrade::codes::DataFormat")),
        }
    }

    pub fn read_scaling_mode(&mut self) -> (r: Result<AnalogScalingMode, ComtradeError>)
        requires
            old(self).wf(),
        ensures
            final(self).wf(),
            final(self).remaining() == after_read(old(self).remaining()),
            res_view(r) == read_field(
                old(self).remaining(),
                |f: Seq<char>| ok_of(spec_scaling_mode(f)),
                "comtrade::codes::AnalogScalingMode"@,
            ),
    {
        let s = self.read_next()?;
        match AnalogScalingMode::parse(s.as_str()) {
            Ok(v) => Ok(v),
            Err(_) => Err(invalid(s, "comtrade::codes::AnalogScalingMode")),
        }
    }

    pub fn read_time_quality(&mut self) -> (r: Result<TimeQuality, ComtradeError>)
        requires
            old(self).wf(),
        ensures
            final(self).wf(),
            final(self).remaining() == after_read(old(self).remaining()),
            res_view(r) == read_field(
                old(self).remaining(),
                |f: Seq<char>| ok_of(spec_time_quality(f)),
                "comtrade::codes::TimeQuality"@,
            ),
    {
        let s = self.read_next()?;
        match TimeQuality::parse(s.as_str()) {
            Ok(v) => Ok(v),
            Err(_) => Err(invalid(s, "comtrade::codes::TimeQuality")),
        }
    }

    pub fn read_leap_second_status(&mut self) -> (r: Result<LeapSecondStatus, ComtradeError>)
        requires
            old(self).wf(),
        ensures
            final(self).wf(),
            final(self).remaining() == after_read(old(self).remaining()),
            res_view(r) == read_field(
                old(self).remaining(),
                |f: Seq<char>| ok_of(spec_leap_second_status(f)),
                "comtrade::codes::LeapSecondStatus"@,
            ),
    {
        let s = self.read_next()?;
        match LeapSecondStatus::parse(s.as_str()) {
            Ok(v) => Ok(v),
            Err(_) => Err(invalid(s, "comtrade::codes::LeapSecondStatus")),
        }
    }

    /// The next field read as a `usize` after dropping its last character
    /// (a count with a unit letter, such as `16A`). `None` where dropping
    /// that byte would split a multi-byte character, which slicing the text
    /// refuses with a panic.
    pub fn read_usize_with_trailing_char(&mut self) -> (r: Option<Result<usize, ComtradeError>>)
        requires
            old(self).wf(),
        ensures
            final(self).wf(),
            final(self).remaining() == after_read(old(self).remaining()),
            match r {
                None => read_trailing(old(self).remaining()) is None,
                Some(x) => read_trailing(old(self).remaining()) == Some(res_view(x)),
            },
    {
        let s = match self.read_next() {
            Ok(s) => s,
            Err(e) => return Some(Err(e)),
        };
        let cs = chars_of(s.as_str());
        let n = cs.len();
        if n > 0 && utf8_width_of(cs[n - 1]) > 1 {
            return None;
        }
        let end: usize = if n > 0 { n - 1 } else { 0 };
        let head = string_of(cs.as_slice(), 0, end);
        assert(head@ == without_last(s@));
        match parse_unsigned_str(head.as_str(), usize::MAX as u64) {
            Some(v) => Some(Ok(v as usize)),
            None => Some(Err(invalid(s, "usize"))),
        }
    }
}

/// Reading a count with a trailing unit letter from the next field of
/// `rem`; `None` where slicing the letter off panics.
pub open spec fn read_trailing(rem: Seq<Seq<char>>) -> Option<Result<usize, ErrorView>> {
    if rem.len() == 0 {
        Some(Err(ErrorView::MissingLineElements(""@)))
    } else if trailing_char_split(rem[0]) {
        None
    } else {
        match usize_of(without_last(rem[0])) {
            Some(v) => Some(Ok(v)),
            None => Some(Err(invalid_value(rem[0], "usize"@))),
        }
    }
}

/// The error for a field whose text does not read as the named type.
fn invalid(value: String, type_label: &'static str) -> (r: ComtradeError)
    ensures
        r@ == invalid_value(value@, type_label@),
{
    ComtradeError::InvalidValue { value, type_: type_label, field: "" }
}

/// Splits a `.cfg` line at its commas, trimming each field.
pub fn split_cfg_line(line: &str) -> (r: ConfigLine)
    ensures
        r.wf(),
        r.remaining() == cfg_fields(line@),
{
    let pieces = split_str(line, ',');
    let mut fields: Vec<String> = Vec::new();
    let mut i: usize = 0;
    while i < pieces.len()
        invariant
            i <= pieces@.len() == split_on(line@, ',').len(),
            forall|k: int| 0 <= k < pieces@.len() ==> #[trigger] pieces@[k]@ == split_on(line@, ',')[k],
            fields@.len() == i,
            forall|k: int| 0 <= k < i ==> #[trigger] fields@[k]@ == trim(split_on(line@, ',')[k]),
        decreases pieces.len() - i,
    {
        let t = trimmed(pieces[i].as_str());
        fields.push(t);
        i = i + 1;
    }
    let r = ConfigLine { fields, pos: 0 };
    assert(r.remaining() =~= cfg_fields(line@));
    r
}

} // verus!
