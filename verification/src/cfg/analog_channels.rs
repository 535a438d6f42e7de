//! The configuration line of an analog channel.

use vstd::prelude::*;
use crate::cfg::line::{
    ConfigLine, FloatLiteral, cfg_fields, field_error, lemma_read_step, float_of, nonzero_usize_of,
    ok_of, or_else, text_error,
};
use crate::text::{parse_unsigned, split_on, trim};
use crate::cfg::revisions::FormatRevision;
use crate::codes::{AnalogScalingMode, spec_scaling_mode};
use crate::error::{ComtradeError, ErrorView, res_view};

verus! {

/// The configuration of an analog channel.
#[derive(Debug, Clone, PartialEq)]
pub struct AnalogConfig {
    /// 1-based counter that tells which channel this is in a record.
    pub index: usize,
    pub name: String,
    pub phase: String,
    pub circuit_component_being_monitored: String,
    pub units: String,
    pub min_value: FloatLiteral,
    pub max_value: FloatLiteral,
    /// With `offset_adder`, gives the real value of a data point.
    pub multiplier: FloatLiteral,
    pub offset_adder: FloatLiteral,
    /// The time skew of the channel, in microseconds.
    pub skew: FloatLiteral,
    /// Converts between the primary and the secondary values of the channel.
    pub primary_factor: FloatLiteral,
    /// Converts between the primary and the secondary values of the channel.
    pub secondary_factor: FloatLiteral,
    pub scaling_mode: AnalogScalingMode,
}

/// An `AnalogConfig` with its texts as character sequences.
pub ghost struct AnalogConfigView {
    pub index: usize,
    pub name: Seq<char>,
    pub phase: Seq<char>,
    pub circuit_component_being_monitored: Seq<char>,
    pub units: Seq<char>,
    pub min_value: Seq<char>,
    pub max_value: Seq<char>,
    pub multiplier: Seq<char>,
    pub offset_adder: Seq<char>,
    pub skew: Seq<char>,
    pub primary_factor: Seq<char>,
    pub secondary_factor: Seq<char>,
    pub scaling_mode: AnalogScalingMode,
}

impl View for AnalogConfig {
    type V = AnalogConfigView;

    open spec fn view(&self) -> AnalogConfigView {
        AnalogConfigView {
            index: self.index,
            name: self.name@,
            phase: self.phase@,
            circuit_component_being_monitored: self.circuit_component_being_monitored@,
            units: self.units@,
            min_value: self.min_value@,
            max_value: self.max_value@,
            multiplier: self.multiplier@,
            offset_adder: self.offset_adder@,
            skew: self.skew@,
            primary_factor: self.primary_factor@,
            secondary_factor: self.secondary_factor@,
            scaling_mode: self.scaling_mode,
        }
    }
}

pub open spec fn float_error(f: Seq<Seq<char>>, i: int, ctx: Seq<char>) -> Option<ErrorView> {
    field_error(f, i, |x: Seq<char>| float_of(x), "f64"@, ctx)
}

/// The first error in an analog channel line with fields `f`, if any.
pub open spec fn analog_config_error(f: Seq<Seq<char>>, rev: FormatRevision) -> Option<ErrorView> {
    let common = or_else(
        field_error(
            f,
            0,
            |x: Seq<char>| nonzero_usize_of(x),
            "core::num::nonzero::NonZero<usize>"@,
            "Analog Channel: Index"@,
        ),
        or_else(
            text_error(f, 1, "Analog Channel: Name"@),
            or_else(
                text_error(f, 2, "Analog Channel: Phase"@),
                or_else(
                    text_error(f, 3, "Analog Channel: Component"@),
                    or_else(
                        text_error(f, 4, "Analog Channel: Units"@),
                        or_else(
                            float_error(f, 5, "Analog Channel: Multiplier"@),
                            or_else(
                                float_error(f, 6, "Analog Channel: Offset Adder"@),
                                or_else(
                                    float_error(f, 7, "Analog Channel: Skew"@),
                                    or_else(
                                        float_error(f, 8, "Analog Channel: Min Value"@),
                                        float_error(f, 9, "Analog Channel: Max Value"@),
                                    ),
                                ),
                            ),
                        ),
                    ),
                ),
            ),
        ),
    );
    if rev == FormatRevision::Revision1991 {
        common
    } else {
        or_else(
            common,
            or_else(
                float_error(f, 10, "Analog Channel: Primary Factor"@),
                or_else(
                    float_error(f, 11, "Analog Channel: Secondary Factor"@),
                    field_error(
                        f,
                        12,
                        |x: Seq<char>| ok_of(spec_scaling_mode(x)),
                        "comtrade::codes::AnalogScalingMode"@,
                        "Analog Channel: Scaling Mode"@,
                    ),
                ),
            ),
        )
    }
}

/// The analog channel that a line with fields `f` configures: index, name,
/// phase, component, units, multiplier, offset adder, skew, minimum,
/// maximum, and since 1999 primary factor, secondary factor and scaling
/// mode (in 1991 these are 1, 1 and primary).
pub open spec fn spec_analog_config(f: Seq<Seq<char>>, rev: FormatRevision) -> Result<
    AnalogConfigView,
    ErrorView,
> {
    match analog_config_error(f, rev) {
        Some(e) => Err(e),
        None => Ok(
            AnalogConfigView {
                index: nonzero_usize_of(f[0])->0,
                name: f[1],
                phase: f[2],
                circuit_component_being_monitored: f[3],
                units: f[4],
                multiplier: f[5],
                offset_adder: f[6],
                skew: f[7],
                min_value: f[8],
                max_value: f[9],
                primary_factor: if rev == FormatRevision::Revision1991 {
                    "1.0"@
                } else {
                    f[10]
                },
                secondary_factor: if rev == FormatRevision::Revision1991 {
                    "1.0"@
                } else {
                    f[11]
                },
                scaling_mode: if rev == FormatRevision::Revision1991 {
                    AnalogScalingMode::Primary
                } else {
                    ok_of(spec_scaling_mode(f[12]))->0
                },
            },
        ),
    }
}

/// An analog channel read without error has a positive index; in a 1991
/// file its factors are 1 and its values primary.
pub proof fn lemma_analog_config_valid(f: Seq<Seq<char>>, rev: FormatRevision)
    ensures
        spec_analog_config(f, rev) matches Ok(c) ==> c.index >= 1,
        rev == FormatRevision::Revision1991 ==> (spec_analog_config(f, rev) matches Ok(c) ==> (
        c.primary_factor == "1.0"@ && c.secondary_factor == "1.0"@ && c.scaling_mode
            == AnalogScalingMode::Primary)),
{
}

/// An analog channel line read without error holds, in this order, the
/// index, name, phase, component, units, multiplier, offset adder, skew,
/// minimum value and maximum value, then since 1999 the primary and the
/// secondary factor: field `i` of the line (the text between its commas,
/// without surrounding whitespace) is the `i`-th of these.
pub proof fn lemma_analog_config_fields(line: Seq<char>, rev: FormatRevision)
    ensures
        spec_analog_config(cfg_fields(line), rev) matches Ok(c) ==> {
            let p = split_on(line, ',');
            &&& p.len() >= 10
            &&& parse_unsigned(trim(p[0]), usize::MAX as nat) == Some(c.index as nat)
            &&& c.name == trim(p[1])
            &&& c.phase == trim(p[2])
            &&& c.circuit_component_being_monitored == trim(p[3])
            &&& c.units == trim(p[4])
            &&& c.multiplier == trim(p[5])
            &&& c.offset_adder == trim(p[6])
            &&& c.skew == trim(p[7])
            &&& c.min_value == trim(p[8])
            &&& c.max_value == trim(p[9])
            &&& rev != FormatRevision::Revision1991 ==> p.len() >= 12 && c.primary_factor == trim(
                p[10],
            ) && c.secondary_factor == trim(p[11])
        },
{
}

impl AnalogConfig {
    /// Reads the configuration line of an analog channel.
    pub fn from_cfg_row(config_line: ConfigLine, revision: &FormatRevision) -> (r: Result<
        Self,
        ComtradeError,
    >)
        requires
            config_line.wf(),
        ensures
            match r {
                Ok(c) => spec_analog_config(config_line.remaining(), *revision) == Ok::<
                    AnalogConfigView,
                    ErrorView,
                >(c@),
                Err(e) => spec_analog_config(config_line.remaining(), *revision) == Err::<
                    AnalogConfigView,
                    ErrorView,
                >(e@),
            },
    {
        let ghost f = config_line.remaining();
        let mut config_line = config_line;
        assert(f.skip(0) =~= f);
        proof {
            lemma_read_step(f, 0);
        }
        let index = match config_line.read_nonzero_usize() {
            Ok(v) => v,
            Err(e) => return Err(e.add_context("Analog Channel: Index")),
        };
        proof {
            lemma_read_step(f, 1);
        }
        let name = match config_line.read_string() {
            Ok(v) => v,
            Err(e) => return Err(e.add_context("Analog Channel: Name")),
        };
        proof {
            lemma_read_step(f, 2);
        }
        let phase = match config_line.read_string() {
            Ok(v) => v,
            Err(e) => return Err(e.add_context("Analog Channel: Phase")),
        };
        proof {
            lemma_read_step(f, 3);
        }
        let circuit_component_being_monitored = match config_line.read_string() {
            Ok(v) => v,
            Err(e) => return Err(e.add_context("Analog Channel: Component")),
        };
        proof {
            lemma_read_step(f, 4);
        }
        let units = match config_line.read_string() {
            Ok(v) => v,
            Err(e) => return Err(e.add_context("Analog Channel: Units")),
        };
        proof {
            lemma_read_step(f, 5);
        }
        let multiplier = match config_line.read_float() {
            Ok(v) => v,
            Err(e) => return Err(e.add_context("Analog Channel: Multiplier")),
        };
        proof {
            lemma_read_step(f, 6);
        }
        let offset_adder = match config_line.read_float() {
            Ok(v) => v,
            Err(e) => return Err(e.add_context("Analog Channel: Offset Adder")),
        };
        proof {
            lemma_read_step(f, 7);
        }
        let skew = match config_line.read_float() {
            Ok(v) => v,
            Err(e) => return Err(e.add_context("Analog Channel: Skew")),
        };
        proof {
            lemma_read_step(f, 8);
        }
        let min_value = match config_line.read_float() {
            Ok(v) => v,
            Err(e) => return Err(e.add_context("Analog Channel: Min Value")),
        };
        proof {
            lemma_read_step(f, 9);
        }
        let max_value = match config_line.read_float() {
            Ok(v) => v,
            Err(e) => return Err(e.add_context("Analog Channel: Max Value")),
        };
        proof {
            lemma_read_step(f, 10);
        }
        let primary_factor;
        let secondary_factor;
        let scaling_mode;
        if *revision == FormatRevision::Revision1991 {
            primary_factor = FloatLiteral::one();
            secondary_factor = FloatLiteral::one();
            scaling_mode = AnalogScalingMode::Primary;
        } else {
            proof {
                lemma_read_step(f, 10);
            }
            let primary_factor_v = match config_line.read_float() {
                Ok(v) => v,
                Err(e) => return Err(e.add_context("Analog Channel: Primary Factor")),
            };
            primary_factor = primary_factor_v;
            proof {
                lemma_read_step(f, 11);
            }
            let secondary_factor_v = match config_line.read_float() {
                Ok(v) => v,
                Err(e) => return Err(e.add_context("Analog Channel: Secondary Factor")),
            };
            secondary_factor = secondary_factor_v;
            proof {
                lemma_read_step(f, 12);
            }
            let scaling_mode_v = match config_line.read_scaling_mode() {
                Ok(v) => v,
                Err(e) => return Err(e.add_context("Analog Channel: Scaling Mode")),
            };
            scaling_mode = scaling_mode_v;
        }
        Ok(
            AnalogConfig {
                index,
                name,
                phase,
                circuit_component_being_monitored,
                units,
                min_value,
                max_value,
                multiplier,
                offset_adder,
                skew,
                primary_factor,
                secondary_factor,
                scaling_mode,
            },
        )
    }
}

} // verus!
