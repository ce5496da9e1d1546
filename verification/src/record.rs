//! The record model: a parsed row and a stored record.

use vstd::prelude::*;
use crate::price::Price;

verus! {

/// One row as it arrives from the text source: the date and the time of day
/// still as text (`YYYYMMDD` and `HHMMSS`), the numbers already read.
#[derive(Clone, Debug)]
pub struct CsvRecord {
    pub date: String,
    pub time: String,
    pub open: Price,
    pub high: Price,
    pub low: Price,
    pub close: Price,
    pub volume: u64,
}

/// One OHLCV record: the moment in UTC seconds since the epoch, four prices
/// and the traded volume. The fields are not held to each other: a `high`
/// below the `low` is stored and handed back as it came.
#[derive(Clone, Copy, Debug, PartialEq, Eq, Structural)]
pub struct ProcessedRecord {
    pub timestamp: u64,
    pub open: Price,
    pub high: Price,
    pub low: Price,
    pub close: Price,
    pub volume: u64,
}

/// The stored record under the name by which the reader hands it out.
pub type OHLCVRecord = ProcessedRecord;

/// The six stored words of a record, in the order of its fields.
pub open spec fn record_words(r: ProcessedRecord) -> Seq<u64> {
    seq![r.timestamp, r.open.bits, r.high.bits, r.low.bits, r.close.bits, r.volume]
}

/// The record that six words stand for.
pub open spec fn record_of_words(w: Seq<u64>) -> ProcessedRecord {
    ProcessedRecord {
        timestamp: w[0],
        open: Price { bits: w[1] },
        high: Price { bits: w[2] },
        low: Price { bits: w[3] },
        close: Price { bits: w[4] },
        volume: w[5],
    }
}

} // verus!
