//! The second line of the `.cfg` file: how many channels of each kind.

use vstd::prelude::*;
use crate::cfg::line::{ConfigLine, field_error, lemma_read_step, read_trailing, usize_of};
use crate::error::{ComtradeError, ErrorView, res_view, with_context};

verus! {

/// The numbers of analog and of status channels of a record.
#[derive(Debug, Clone, Copy, PartialEq, Eq, Structural)]
pub struct ChannelSizes {
    pub analog: usize,
    pub status: usize,
}

/// The channel count line with fields `f`: the total, then the analog count
/// with a trailing `A`, then the status count with a trailing `D` (the
/// letters are not checked). `None` where dropping a letter would split a
/// multi-byte character.
pub open spec fn spec_channel_sizes(f: Seq<Seq<char>>) -> Option<Result<ChannelSizes, ErrorView>> {
    match field_error(f, 0, |x: Seq<char>| usize_of(x), "usize"@, "Channel Sizes: Total"@) {
        Some(e) => Some(Err(e)),
        None => match read_trailing(f.skip(1)) {
            None => None,
            Some(Err(e)) => Some(Err(with_context(e, "Channel Sizes: Analog"@))),
            Some(Ok(analog)) => match read_trailing(f.skip(2)) {
                None => None,
                Some(Err(e)) => Some(Err(with_context(e, "Channel Sizes: Status"@))),
                Some(Ok(status)) => Some(Ok(ChannelSizes { analog, status })),
            },
        },
    }
}

impl ChannelSizes {
    /// Reads the channel count line.
    pub fn from_line(cfg_line: ConfigLine) -> (r: Option<Result<Self, ComtradeError>>)
        requires
            cfg_line.wf(),
        ensures
            match r {
                None => spec_channel_sizes(cfg_line.remaining()) is None,
                Some(x) => spec_channel_sizes(cfg_line.remaining()) == Some(res_view(x)),
            },
    {
        let ghost f = cfg_line.remaining();
        let mut cfg_line = cfg_line;
        assert(f.skip(0) =~= f);
        proof {
            lemma_read_step(f, 0);
        }
        match cfg_line.read_usize() {
            Ok(_) => {},
            Err(e) => return Some(Err(e.add_context("Channel Sizes: Total"))),
        }
        proof {
            lemma_read_step(f, 1);
        }
        let analog = match cfg_line.read_usize_with_trailing_char() {
            None => return None,
            Some(Ok(v)) => v,
            Some(Err(e)) => return Some(Err(e.add_context("Channel Sizes: Analog"))),
        };
        proof {
            lemma_read_step(f, 2);
        }
        let status = match cfg_line.read_usize_with_trailing_char() {
            None => return None,
            Some(Ok(v)) => v,
            Some(Err(e)) => return Some(Err(e.add_context("Channel Sizes: Status"))),
        };
        Some(Ok(ChannelSizes { analog, status }))
    }
}

} // verus!
