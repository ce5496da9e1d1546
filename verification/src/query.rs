//! Reading a dataset back: the rows to show, with or without aggregation.

use vstd::prelude::*;
use crate::cli::{Timeframe, timeframe_for_label, timeframe_of};
use crate::csv_processor::timestamps_of;
use crate::error::{ConfigError, ProcessError, ResampleError};
use crate::index::{DailyIndexEntry, FullIndex, TimeIndexEntry};
use crate::index_builder::{is_daily_index, lemma_daily_partition, time_entries};
use crate::layout::{Layout, decoded};
use crate::reader::{StorageReader, decode_failure};
use crate::record::ProcessedRecord;
use crate::buckets::{picked, resampled_ohlcv};
use crate::daily::{day_in_range, days_in_range, resampled_daily};
use crate::resample::{OHLCVBar, resample_daily, resample_ohlcv};

verus! {

/// How many rows a report shows.
pub const SHOWN_ROWS: usize = 5;

/// What reading one dataset back gives to show: its first records as they
/// are stored, or the first bars of an aggregation.
#[derive(Debug)]
pub enum FileReport {
    Records(Vec<ProcessedRecord>),
    Bars(Vec<OHLCVBar>),
}

/// The first `count` items of a sequence, or all of them where they are fewer.
pub open spec fn head<T>(items: Seq<T>, count: nat) -> Seq<T> {
    if count < items.len() {
        items.take(count as int)
    } else {
        items
    }
}

/// The first `count` records of a buffer, copied out; all of them where the
/// buffer holds fewer.
pub fn first_records(reader: &StorageReader, count: usize) -> (out: Vec<ProcessedRecord>)
    ensures
        out@ == head(reader@, count as nat),
{
    let n = reader.length();
    let stop = if count < n {
        count
    } else {
        n
    };
    let mut out: Vec<ProcessedRecord> = Vec::new();
    let mut i: usize = 0;
    while i < stop
        invariant
            stop <= reader@.len(),
            i <= stop,
            out@ == reader@.take(i as int),
        decreases stop - i,
    {
        out.push(reader.get(i));
        assert(out@ =~= reader@.take(i + 1));
        i += 1;
    }
    assert(reader@.take(reader@.len() as int) =~= reader@);
    out
}

/// The first `count` bars of a sequence, copied out; all of them where they
/// are fewer.
pub fn first_bars(bars: &[OHLCVBar], count: usize) -> (out: Vec<OHLCVBar>)
    ensures
        out@ == head(bars@, count as nat),
{
    let n = bars.len();
    let stop = if count < n {
        count
    } else {
        n
    };
    let mut out: Vec<OHLCVBar> = Vec::new();
    let mut i: usize = 0;
    while i < stop
        invariant
            stop <= bars@.len(),
            i <= stop,
            out@ == bars@.take(i as int),
        decreases stop - i,
    {
        out.push(bars[i]);
        assert(out@ =~= bars@.take(i + 1));
        i += 1;
    }
    assert(bars@.take(bars@.len() as int) =~= bars@);
    out
}

/// The bars that a request for a timeframe gives over the records of a buffer.
pub open spec fn resampled(records: Seq<ProcessedRecord>, index: FullIndex, timeframe: Timeframe)
    -> Result<Seq<OHLCVBar>, ResampleError> {
    match timeframe {
        Timeframe::Seconds(seconds) => resampled_ohlcv(records, index.time_index@, seconds),
        Timeframe::Daily => resampled_daily(records, index.daily_index@),
    }
}

/// Aggregates the records of a buffer to a timeframe, with the index that
/// belongs to the buffer: the time index for buckets of fixed width, the
/// daily index for calendar days.
pub fn resample_timeframe(reader: &StorageReader, index: &FullIndex, timeframe: Timeframe) -> (r: Result<
    Vec<OHLCVBar>,
    ResampleError,
>)
    requires
        timeframe matches Timeframe::Seconds(seconds) ==> seconds > 0,
    ensures
        match r {
            Ok(bars) => resampled(reader@, *index, timeframe) == Ok::<
                Seq<OHLCVBar>,
                ResampleError,
            >(bars@),
            Err(e) => resampled(reader@, *index, timeframe) == Err::<
                Seq<OHLCVBar>,
                ResampleError,
            >(e),
        },
{
    match timeframe {
        Timeframe::Seconds(seconds) => resample_ohlcv(reader, index.time_index.as_slice(), seconds),
        Timeframe::Daily => resample_daily(reader, index.daily_index.as_slice()),
    }
}

/// Order is kept from end to end: the time index of a dataset picks every
/// record of the dataset, each once, in the order in which the records are
/// stored.
pub proof fn lemma_own_time_index_picks_all(records: Seq<ProcessedRecord>)
    requires
        records.len() <= u64::MAX,
    ensures
        picked(records, time_entries(timestamps_of(records))) == records,
{
    let index = time_entries(timestamps_of(records));
    lemma_picked_prefix(records, index, index.len() as int);
    assert(index.take(index.len() as int) =~= index);
    assert(records.take(records.len() as int) =~= records);
}

/// The first entries of a dataset's time index pick the first records.
proof fn lemma_picked_prefix(records: Seq<ProcessedRecord>, index: Seq<TimeIndexEntry>, len: int)
    requires
        records.len() <= u64::MAX,
        index == time_entries(timestamps_of(records)),
        0 <= len <= index.len(),
    ensures
        picked(records, index.take(len)) == records.take(len),
    decreases len,
{
    if len == 0 {
        assert(index.take(0) =~= Seq::<TimeIndexEntry>::empty());
        assert(records.take(0) =~= Seq::<ProcessedRecord>::empty());
    } else {
        lemma_picked_prefix(records, index, len - 1);
        assert(index.take(len).drop_last() =~= index.take(len - 1));
        assert(index.take(len).last() == index[len - 1]);
        assert(index[len - 1].position == len - 1);
        assert(records.take(len - 1).push(records[len - 1]) =~= records.take(len));
    }
}

/// No entry of a dataset's own daily index is passed over: each names rows
/// that the dataset holds.
pub proof fn lemma_own_daily_index_in_range(
    records: Seq<ProcessedRecord>,
    daily: Seq<DailyIndexEntry>,
)
    requires
        is_daily_index(daily, timestamps_of(records)),
    ensures
        days_in_range(daily, records.len()) == daily,
    decreases daily.len(),
{
    lemma_daily_partition(daily, timestamps_of(records));
    lemma_all_in_range(daily, records.len(), daily.len() as int);
    assert(daily.take(daily.len() as int) =~= daily);
}

/// Where the first entries of a daily index all name rows in range, none of
/// them is passed over.
proof fn lemma_all_in_range(daily: Seq<DailyIndexEntry>, count: nat, len: int)
    requires
        0 <= len <= daily.len(),
        forall|k: int| 0 <= k < daily.len() ==> day_in_range(#[trigger] daily[k], count),
    ensures
        days_in_range(daily.take(len), count) == daily.take(len),
    decreases len,
{
    if len == 0 {
        assert(daily.take(0) =~= Seq::<DailyIndexEntry>::empty());
    } else {
        lemma_all_in_range(daily, count, len - 1);
        assert(daily.take(len).drop_last() =~= daily.take(len - 1));
        assert(daily.take(len).last() == daily[len - 1]);
        assert(daily.take(len - 1).push(daily[len - 1]) =~= daily.take(len));
    }
}

/// The outcome of reading one dataset back, as far as it fails: a label that
/// names no timeframe is refused before the bytes are looked at; bytes that
/// are no buffer of the layout named are refused next; then the aggregation
/// may fail.
pub open spec fn report_failure(
    bytes: Seq<u8>,
    index: FullIndex,
    label: Option<Seq<char>>,
    layout: Layout,
) -> Option<ProcessError> {
    let timeframe = match label {
        Some(text) => timeframe_of(text),
        None => None,
    };
    if label.is_some() && timeframe.is_none() {
        Some(ProcessError::Config(ConfigError::UnknownTimeframe))
    } else {
        match decode_failure(bytes, layout) {
            Some(e) => Some(ProcessError::Decode(e)),
            None => match timeframe {
                None => None,
                Some(timeframe) => match resampled(decoded(bytes, layout), index, timeframe) {
                    Err(e) => Some(ProcessError::Resample(e)),
                    Ok(_) => None,
                },
            },
        }
    }
}

/// The label of a request, as text.
pub open spec fn label_text(resample: Option<String>) -> Option<Seq<char>> {
    match resample {
        Some(label) => Some(label@),
        None => None,
    }
}

/// Reads one dataset back: opens the bytes under the layout named and gives
/// the first rows to show, of the stored records where no timeframe is asked
/// for, of the aggregated bars otherwise.
pub fn process_file(
    bytes: &[u8],
    full_index: &FullIndex,
    resample: &Option<String>,
    storage_format: Layout,
) -> (r: Result<FileReport, ProcessError>)
    ensures
        match r {
            Err(e) => report_failure(bytes@, *full_index, label_text(*resample), storage_format)
                == Some(e),
            Ok(FileReport::Records(rows)) => {
                &&& report_failure(
                    bytes@,
                    *full_index,
                    label_text(*resample),
                    storage_format,
                ).is_none()
                &&& resample.is_none()
                &&& rows@ == head(decoded(bytes@, storage_format), SHOWN_ROWS as nat)
            },
            Ok(FileReport::Bars(bars)) => {
                &&& report_failure(
                    bytes@,
                    *full_index,
                    label_text(*resample),
                    storage_format,
                ).is_none()
                &&& resample matches Some(label)
                &&& timeframe_of(label@) matches Some(timeframe)
                &&& resampled(decoded(bytes@, storage_format), *full_index, timeframe) matches Ok(
                    all,
                )
                &&& bars@ == head(all, SHOWN_ROWS as nat)
            },
        },
{
    let timeframe = match resample {
        None => None,
        Some(label) => match timeframe_for_label(label.as_str()) {
            Some(timeframe) => Some(timeframe),
            None => {
                return Err(ProcessError::Config(ConfigError::UnknownTimeframe));
            },
        },
    };
    let reader = match StorageReader::open(bytes, storage_format) {
        Ok(reader) => reader,
        Err(e) => {
            return Err(ProcessError::Decode(e));
        },
    };
    match timeframe {
        None => Ok(FileReport::Records(first_records(&reader, SHOWN_ROWS))),
        Some(timeframe) => match resample_timeframe(&reader, full_index, timeframe) {
            Ok(bars) => Ok(FileReport::Bars(first_bars(bars.as_slice(), SHOWN_ROWS))),
            Err(e) => Err(ProcessError::Resample(e)),
        },
    }
}

} // verus!
