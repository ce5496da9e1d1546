//! The errors of the library, one type per component.

use vstd::prelude::*;

verus! {

/// Why a byte range could not be opened as a storage buffer.
#[derive(Clone, Copy, Debug, PartialEq, Eq, Structural)]
pub enum DecodeError {
    /// The bytes are too few to hold a header.
    Truncated,
    /// The root tag is not that of the layout asked for.
    LayoutMismatch,
    /// The bytes behind the header are not exactly what the declared record
    /// count asks.
    LengthMismatch,
}

/// Why a text or a number could not be turned into the other form of a moment in time.
#[derive(Clone, Copy, Debug, PartialEq, Eq, Structural)]
pub enum DateError {
    /// The text is not a date (or a date and time) of the expected pattern.
    Malformed,
    /// The moment lies before the epoch, where no timestamp stands for it.
    BeforeEpoch,
    /// The timestamp lies beyond the dates that the calendar can name.
    OutOfRange,
}

/// Why a row sequence could not be converted: the place of the first row
/// that was refused, counted from zero, and what was wrong with its date and
/// time.
#[derive(Clone, Copy, Debug, PartialEq, Eq, Structural)]
pub struct ConvertError {
    pub row: usize,
    pub cause: DateError,
}

/// Why an aggregation gave no bars.
#[derive(Clone, Copy, Debug, PartialEq, Eq, Structural)]
pub enum ResampleError {
    /// The date key of the daily index entry at this place could not be read back.
    BadDate { entry: usize, cause: DateError },
    /// The volumes of one bar add up to more than a bar can hold.
    VolumeOverflow,
}

/// Why a request was turned down before any work began.
#[derive(Clone, Copy, Debug, PartialEq, Eq, Structural)]
pub enum ConfigError {
    /// The thread count is zero.
    ZeroThreads,
    /// Resampling was asked for without the reading pass that performs it.
    ResampleWithoutCheck,
    /// The timeframe label is not one of the recognised set.
    UnknownTimeframe,
}

/// Why reading one dataset back gave nothing to show.
#[derive(Clone, Copy, Debug, PartialEq, Eq, Structural)]
pub enum ProcessError {
    /// The request names no timeframe of the recognised set.
    Config(ConfigError),
    /// The bytes are not a storage buffer of the layout named.
    Decode(DecodeError),
    /// The aggregation failed.
    Resample(ResampleError),
}

} // verus!
