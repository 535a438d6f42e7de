//! Parsing of COMTRADE (IEEE C37.111) disturbance records: the `.cfg`
//! configuration file, the `.dat` sample file in its ASCII and binary
//! layouts, and the combined `.cff` container.

pub mod text;
pub mod error;
pub mod codes;
pub mod cfg;
pub mod time;
pub mod dat;
pub mod cff;
pub mod parser;

pub use cfg::analog_channels::AnalogConfig;
pub use cfg::channel_sizes::ChannelSizes;
pub use cfg::date_time::{ComtradeDateTime, DateTime, TimeOfDay, TimePrecision, ts_base_unit};
pub use cfg::id_line::IdRow;
pub use cfg::line::{ConfigLine, FloatLiteral, split_cfg_line};
pub use cfg::record::{CfgRecord, parse_cfg};
pub use cfg::revisions::{Date, FormatRevision};
pub use cfg::sample_rates::SamplingRate;
pub use cfg::status_channel::StatusConfig;
pub use cff::{CffContents, load_cff};
pub use codes::{AnalogScalingMode, DataFormat, FileType, LeapSecondStatus, TimeQuality};
pub use dat::{AnalogSample, SampleRow};
pub use error::ComtradeError;
pub use parser::{ComtradeParser, ComtradeParserBuilder, ComtradeRecord, RawAnalogChannel, StatusChannel};
pub use time::{TimeBasis, parse_time_offset};
