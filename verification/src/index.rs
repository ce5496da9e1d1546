//! The index model: the entries of the three indices and the full index.

use vstd::prelude::*;

verus! {

/// One record's place: its timestamp and its row number in the storage buffer.
#[derive(Clone, Copy, Debug, PartialEq, Eq, Structural)]
pub struct TimeIndexEntry {
    pub timestamp: u64,
    pub position: u64,
}

/// The rows of one calendar day: the day's key `YYYY-MM-DD` in UTC and the
/// first and the last row of the day, both included.
#[derive(Clone, Debug)]
pub struct DailyIndexEntry {
    pub date: String,
    pub start_position: u64,
    pub end_position: u64,
}

/// The bucket starts of one timeframe, under its label.
#[derive(Clone, Debug)]
pub struct TimeframeSeries {
    pub label: String,
    pub boundaries: Vec<u64>,
}

/// The three indices of one dataset, kept beside its storage buffer.
#[derive(Clone, Debug)]
pub struct FullIndex {
    pub time_index: Vec<TimeIndexEntry>,
    pub daily_index: Vec<DailyIndexEntry>,
    pub timeframe_index: Vec<TimeframeSeries>,
}

/// The three indices as the conversion pass hands them over.
#[derive(Clone, Debug)]
pub struct ProcessedData {
    pub time_index: Vec<TimeIndexEntry>,
    pub daily_index: Vec<DailyIndexEntry>,
    pub timeframe_index: Vec<TimeframeSeries>,
}

} // verus!
