//! The configuration line of a status (digital) channel.

use vstd::prelude::*;
use crate::cfg::line::{
    ConfigLine, cfg_fields, field_error, lemma_read_step, nonzero_usize_of, or_else, text_error,
    u8_of,
};
use crate::text::{parse_unsigned, split_on, trim};
use crate::cfg::revisions::FormatRevision;
use crate::error::{ComtradeError, ErrorView};

verus! {

/// The configuration of a status channel.
#[derive(Debug, Clone, PartialEq)]
pub struct StatusConfig {
    /// 1-based counter that tells which channel this is in a record.
    pub index: usize,
    pub name: String,
    pub phase: String,
    pub circuit_component_being_monitored: String,
    /// The state of the channel in normal operation: 0 or 1.
    pub normal_status_value: u8,
}

/// A `StatusConfig` with its texts as character sequences.
pub ghost struct StatusConfigView {
    pub index: usize,
    pub name: Seq<char>,
    pub phase: Seq<char>,
    pub circuit_component_being_monitored: Seq<char>,
    pub normal_status_value: u8,
}

impl View for StatusConfig {
    type V = StatusConfigView;

    open spec fn view(&self) -> StatusConfigView {
        StatusConfigView {
            index: self.index,
            name: self.name@,
            phase: self.phase@,
            circuit_component_being_monitored: self.circuit_component_being_monitored@,
            normal_status_value: self.normal_status_value,
        }
    }
}

/// Where the normal status stands on a status channel line: third in 1991
/// (no phase and component), fifth since.
pub open spec fn normal_value_pos(rev: FormatRevision) -> int {
    if rev == FormatRevision::Revision1991 {
        2
    } else {
        4
    }
}

/// The first error in reading the fields `f` of a status channel line, if any.
pub open spec fn status_config_error(f: Seq<Seq<char>>, rev: FormatRevision) -> Option<ErrorView> {
    let normal = field_error(
        f,
        normal_value_pos(rev),
        |x: Seq<char>| u8_of(x),
        "u8"@,
        "Status Channel: Normal Value"@,
    );
    or_else(
        field_error(
            f,
            0,
            |x: Seq<char>| nonzero_usize_of(x),
            "core::num::nonzero::NonZero<usize>"@,
            "Status Channel: Index"@,
        ),
        or_else(
            text_error(f, 1, "Status Channel: Name"@),
            if rev == FormatRevision::Revision1991 {
                normal
            } else {
                or_else(
                    text_error(f, 2, "Status Channel: Phase"@),
                    or_else(text_error(f, 3, "Status Channel: Component"@), normal),
                )
            },
        ),
    )
}

/// The status channel that a line with fields `f` configures: index, name,
/// (since 1999) phase and component, normal status, which must be 0 or 1.
pub open spec fn spec_status_config(f: Seq<Seq<char>>, rev: FormatRevision) -> Result<
    StatusConfigView,
    ErrorView,
> {
    match status_config_error(f, rev) {
        Some(e) => Err(e),
        None => {
            let index = nonzero_usize_of(f[0])->0;
            let normal = u8_of(f[normal_value_pos(rev)])->0;
            if normal != 0 && normal != 1 {
                Err(ErrorView::InvalidNormalStatus(index as nat))
            } else {
                Ok(
                    StatusConfigView {
                        index,
                        name: f[1],
                        phase: if rev == FormatRevision::Revision1991 {
                            Seq::<char>::empty()
                        } else {
                            f[2]
                        },
                        circuit_component_being_monitored: if rev
                            == FormatRevision::Revision1991 {
                            Seq::<char>::empty()
                        } else {
                            f[3]
                        },
                        normal_status_value: normal,
                    },
                )
            }
        },
    }
}

/// A status channel read without error has a positive index and a normal
/// status of 0 or 1.
pub proof fn lemma_status_config_valid(f: Seq<Seq<char>>, rev: FormatRevision)
    ensures
        spec_status_config(f, rev) matches Ok(c) ==> c.index >= 1 && c.normal_status_value <= 1,
{
}

/// A status channel line read without error holds the index, the name and
/// the normal state; since 1999 the phase and the component stand between
/// the name and the normal state: field `i` of the line (the text between
/// its commas, without surrounding whitespace) is the `i`-th of these.
pub proof fn lemma_status_config_fields(line: Seq<char>, rev: FormatRevision)
    ensures
        spec_status_config(cfg_fields(line), rev) matches Ok(c) ==> {
            let p = split_on(line, ',');
            let normal_at = if rev == FormatRevision::Revision1991 {
                2int
            } else {
                4int
            };
            &&& p.len() > normal_at
            &&& parse_unsigned(trim(p[0]), usize::MAX as nat) == Some(c.index as nat)
            &&& c.name == trim(p[1])
            &&& rev != FormatRevision::Revision1991 ==> c.phase == trim(p[2])
                && c.circuit_component_being_monitored == trim(p[3])
            &&& parse_unsigned(trim(p[normal_at]), 255) == Some(c.normal_status_value as nat)
        },
{
}

impl StatusConfig {
    /// Reads the configuration line of a status channel.
    pub fn from_config_row(config_line: ConfigLine, revision: &FormatRevision) -> (r: Result<
        Self,
        ComtradeError,
    >)
        requires
            config_line.wf(),
        ensures
            match r {
                Ok(c) => spec_status_config(config_line.remaining(), *revision) == Ok::<
                    StatusConfigView,
                    ErrorView,
                >(c@),
                Err(e) => spec_status_config(config_line.remaining(), *revision) == Err::<
                    StatusConfigView,
                    ErrorView,
                >(e@),
            },
    {
        let ghost f = config_line.remaining();
        let mut config_line = config_line;
        assert(f.skip(0) =~= f);
        proof {
            lemma_read_step(f, 0);
        }
        let status_index = match config_line.read_nonzero_usize() {
            Ok(v) => v,
            Err(e) => return Err(e.add_context("Status Channel: Index")),
        };
        proof {
            lemma_read_step(f, 1);
        }
        let name = match config_line.read_string() {
            Ok(v) => v,
            Err(e) => return Err(e.add_context("Status Channel: Name")),
        };
        proof {
            lemma_read_step(f, 2);
        }
        let phase;
        let circuit_component_being_monitored;
        let normal_status_value;
        if *revision == FormatRevision::Revision1991 {
            phase = String::new();
            circuit_component_being_monitored = String::new();
            normal_status_value = match config_line.read_u8() {
                Ok(v) => v,
                Err(e) => return Err(e.add_context("Status Channel: Normal Value")),
            };
        } else {
            phase = match config_line.read_string() {
                Ok(v) => v,
                Err(e) => return Err(e.add_context("Status Channel: Phase")),
            };
            proof {
                lemma_read_step(f, 3);
            }
            circuit_component_being_monitored = match config_line.read_string() {
                Ok(v) => v,
                Err(e) => return Err(e.add_context("Status Channel: Component")),
            };
            proof {
                lemma_read_step(f, 4);
            }
            normal_status_value = match config_line.read_u8() {
                Ok(v) => v,
                Err(e) => return Err(e.add_context("Status Channel: Normal Value")),
            };
        }
        if normal_status_value != 0 && normal_status_value != 1 {
            return Err(ComtradeError::InvalidNormalStatus(status_index));
        }
        Ok(
            StatusConfig {
                index: status_index,
                name,
                phase,
                circuit_component_being_monitored,
                normal_status_value,
            },
        )
    }
}

} // verus!
