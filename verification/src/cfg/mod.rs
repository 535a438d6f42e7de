//! The `.cfg` configuration file.

pub mod line;
pub mod revisions;
pub mod date_time;
pub mod analog_channels;
pub mod status_channel;
pub mod id_line;
pub mod sample_rates;
pub mod channel_sizes;
pub mod record;
