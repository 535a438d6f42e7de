//! The first line of the `.cfg` file: station, device and revision.

use vstd::prelude::*;
use crate::cfg::line::{ConfigLine, lemma_read_step};
use crate::cfg::revisions::{FormatRevision, spec_revision};
use crate::error::{ComtradeError, ErrorView};

verus! {

/// The identification line of a record.
#[derive(Debug, Clone, PartialEq)]
pub struct IdRow {
    pub station_name: String,
    pub recording_device_id: String,
    pub format_revision: FormatRevision,
}

pub ghost struct IdRowView {
    pub station_name: Seq<char>,
    pub recording_device_id: Seq<char>,
    pub format_revision: FormatRevision,
}

impl View for IdRow {
    type V = IdRowView;

    open spec fn view(&self) -> IdRowView {
        IdRowView {
            station_name: self.station_name@,
            recording_device_id: self.recording_device_id@,
            format_revision: self.format_revision,
        }
    }
}

/// The identification line with fields `f`: station name, recording device,
/// and the revision year, which a 1991 file leaves out.
pub open spec fn spec_id_row(f: Seq<Seq<char>>) -> Result<IdRowView, ErrorView> {
    if f.len() < 1 {
        Err(ErrorView::MissingLineElements("ID Line: Station Name"@))
    } else if f.len() < 2 {
        Err(ErrorView::MissingLineElements("ID Line: Recording Device ID"@))
    } else {
        let rev = if f.len() < 3 {
            Ok(FormatRevision::Revision1991)
        } else {
            spec_revision(f[2])
        };
        match rev {
            Err(e) => Err(e),
            Ok(r) => Ok(
                IdRowView { station_name: f[0], recording_device_id: f[1], format_revision: r },
            ),
        }
    }
}

impl IdRow {
    /// Reads the identification line.
    pub fn from_config_line(line: ConfigLine) -> (r: Result<IdRow, ComtradeError>)
        requires
            line.wf(),
        ensures
            match r {
                Ok(v) => spec_id_row(line.remaining()) == Ok::<IdRowView, ErrorView>(v@),
                Err(e) => spec_id_row(line.remaining()) == Err::<IdRowView, ErrorView>(e@),
            },
    {
        let ghost f = line.remaining();
        let mut line = line;
        assert(f.skip(0) =~= f);
        proof {
            lemma_read_step(f, 0);
        }
        let station_name = match line.read_string() {
            Ok(v) => v,
            Err(e) => return Err(e.add_context("ID Line: Station Name")),
        };
        proof {
            lemma_read_step(f, 1);
        }
        let recording_device_id = match line.read_string() {
            Ok(v) => v,
            Err(e) => return Err(e.add_context("ID Line: Recording Device ID")),
        };
        proof {
            lemma_read_step(f, 2);
        }
        let format_revision = match line.next() {
            None => FormatRevision::Revision1991,
            Some(v) => FormatRevision::parse(v.as_str())?,
        };
        Ok(IdRow { station_name, recording_device_id, format_revision })
    }
}

} // verus!
