//! Sparkline summaries of the timestamps found in log files.
//!
//! A strftime format is compiled to a pattern that finds the timestamp of a
//! log line. The timestamps of all lines are counted into as many buckets of
//! equal duration as the terminal has columns, every bucket is shown as a
//! block character whose height tells its share, and markers above and below
//! the line of blocks name the date and time at evenly spaced columns, chosen
//! among the timestamps in the order of time.

pub mod arith;
pub mod chronology;
pub mod chunks;
pub mod datetime;
pub mod error;
pub mod histogram;
pub mod sparkline;
pub mod time_axis;
pub mod time_marker;
pub mod timestamp_finder;

pub use crate::chronology::sort_timestamps;
pub use crate::error::Error;
pub use crate::histogram::{bin_timestamps, timestamp_frequency_distribution};
pub use crate::sparkline::{build_binned_sparkline, build_sparkline, render_sparkline, sparkline};
pub use crate::time_axis::{build_time_markers, marker_offsets, try_build_time_markers};
pub use crate::time_marker::{Canvas, TimeMarker, TimestampLocation};
pub use crate::timestamp_finder::{scan_for_timestamps, TimestampFinder};
