//! The two aggregations of a stored dataset into bars: by buckets of fixed
//! width, along the time index, and by calendar days, along the daily index.

use vstd::prelude::*;
use crate::aggregate::{aggregate_range, volume_sum};
use crate::buckets::{
    bucket_bar, bucket_bars, bucket_keys, bucket_of, bucket_overflows, lemma_bucket_push,
    lemma_overflow_stays, lemma_picked_len, picked, resampled_ohlcv,
};
use crate::daily::{lemma_daily_error_stays, resampled_daily, stamped_at_midnight};
use crate::error::ResampleError;
use crate::index::{DailyIndexEntry, TimeIndexEntry};
use crate::price::Price;
use crate::reader::{ColumnReader, RowReader, StorageReader};
use crate::record::ProcessedRecord;
use crate::runs::runs;
use crate::utils::parse_date_to_timestamp;

verus! {

/// One aggregated bar: the start of its bucket, the open of its first record,
/// the highest high and the lowest low of its records, the close of its last
/// record and the sum of their volumes.
#[derive(Clone, Copy, Debug, PartialEq, Eq, Structural)]
pub struct OHLCVBar {
    pub timestamp: u64,
    pub open: Price,
    pub high: Price,
    pub low: Price,
    pub close: Price,
    pub volume: u64,
}

/// Aggregates the records of `reader` into one bar per entry of the daily
/// index, in the order of the entries.
pub fn resample_daily(reader: &StorageReader, daily_index: &[DailyIndexEntry]) -> (r: Result<
    Vec<OHLCVBar>,
    ResampleError,
>)
    ensures
        match r {
            Ok(bars) => resampled_daily(reader@, daily_index@) == Ok::<
                Seq<OHLCVBar>,
                ResampleError,
            >(bars@),
            Err(e) => resampled_daily(reader@, daily_index@) == Err::<
                Seq<OHLCVBar>,
                ResampleError,
            >(e),
        },
        r matches Ok(bars) ==> stamped_at_midnight(bars@),
{
    let count = reader.length();
    let n = daily_index.len();
    let mut resampled: Vec<OHLCVBar> = Vec::new();
    let mut j: usize = 0;
    assert(daily_index@.take(0) =~= Seq::empty());
    while j < n
        invariant
            n == daily_index@.len(),
            count == reader@.len(),
            j <= n,
            resampled_daily(reader@, daily_index@.take(j as int)) == Ok::<
                Seq<OHLCVBar>,
                ResampleError,
            >(resampled@),
            stamped_at_midnight(resampled@),
        decreases n - j,
    {
        let entry = &daily_index[j];
        proof {
            assert(daily_index@.take(j + 1).drop_last() =~= daily_index@.take(j as int));
            assert(daily_index@.take(j + 1).last() == daily_index@[j as int]);
        }
        if entry.start_position <= entry.end_position && entry.end_position < count as u64 {
            let outcome = match parse_date_to_timestamp(entry.date.as_str()) {
                Err(cause) => Err(ResampleError::BadDate { entry: j, cause }),
                Ok(timestamp) => aggregate_range(
                    reader,
                    entry.start_position as usize,
                    entry.end_position as usize,
                    timestamp,
                ),
            };
            match outcome {
                Ok(bar) => {
                    resampled.push(bar);
                },
                Err(e) => {
                    proof {
                        lemma_daily_error_stays(reader@, daily_index@, j + 1);
                    }
                    return Err(e);
                },
            }
        }
        j += 1;
    }
    assert(daily_index@.take(n as int) =~= daily_index@);
    Ok(resampled)
}

/// Aggregates the records that a time index picks into bars of
/// `timeframe_sec` seconds, in one pass from the first entry to the last.
/// The entries are taken in the order given and trusted to be in time order.
pub fn resample_ohlcv(reader: &StorageReader, time_index: &[TimeIndexEntry], timeframe_sec: u64)
    -> (r: Result<Vec<OHLCVBar>, ResampleError>)
    requires
        timeframe_sec > 0,
    ensures
        match r {
            Ok(bars) => resampled_ohlcv(reader@, time_index@, timeframe_sec) == Ok::<
                Seq<OHLCVBar>,
                ResampleError,
            >(bars@),
            Err(e) => resampled_ohlcv(reader@, time_index@, timeframe_sec) == Err::<
                Seq<OHLCVBar>,
                ResampleError,
            >(e),
        },
{
    let count = reader.length();
    let n = time_index.len();
    let mut resampled: Vec<OHLCVBar> = Vec::new();
    let mut current_bar: Option<OHLCVBar> = None;
    let ghost mut chosen: Seq<ProcessedRecord> = Seq::empty();
    let mut j: usize = 0;
    assert(time_index@.take(0) =~= Seq::empty());
    while j < n
        invariant
            n == time_index@.len(),
            count == reader@.len(),
            timeframe_sec > 0,
            j <= n,
            chosen == picked(reader@, time_index@.take(j as int)),
            chosen.len() == 0 ==> current_bar.is_none() && resampled@.len() == 0,
            chosen.len() > 0 ==> {
                let parts = runs(bucket_keys(chosen, timeframe_sec));
                &&& parts.len() == resampled@.len() + 1
                &&& current_bar == Some(bucket_bar(chosen, timeframe_sec, parts.last()))
                &&& 0 <= volume_sum(chosen, parts.last().start, parts.last().end) <= u64::MAX
            },
            forall|k: int|
                0 <= k < resampled@.len() ==> {
                    let part = #[trigger] runs(bucket_keys(chosen, timeframe_sec))[k];
                    &&& resampled@[k] == bucket_bar(chosen, timeframe_sec, part)
                    &&& volume_sum(chosen, part.start, part.end) <= u64::MAX
                },
        decreases n - j,
    {
        let entry = time_index[j];
        proof {
            assert(time_index@.take(j + 1).drop_last() =~= time_index@.take(j as int));
            assert(time_index@.take(j + 1).last() == time_index@[j as int]);
        }
        if entry.position < count as u64 {
            let item = reader.get(entry.position as usize);
            let bar_start = bucket_of(item.timestamp, timeframe_sec);
            let ghost parts = runs(bucket_keys(chosen, timeframe_sec));
            let ghost grown = chosen.push(item);
            let ghost after = runs(bucket_keys(grown, timeframe_sec));
            proof {
                lemma_bucket_push(chosen, item, timeframe_sec);
            }
            let mut merged = false;
            if let Some(bar) = current_bar {
                if bar.timestamp == bar_start {
                    match bar.volume.checked_add(item.volume) {
                        Some(volume) => {
                            current_bar = Some(
                                OHLCVBar {
                                    timestamp: bar.timestamp,
                                    open: bar.open,
                                    high: bar.high.max(item.high),
                                    low: bar.low.min(item.low),
                                    close: item.close,
                                    volume,
                                },
                            );
                            merged = true;
                        },
                        None => {
                            proof {
                                assert(volume_sum(
                                    grown,
                                    after[after.len() - 1].start,
                                    after[after.len() - 1].end,
                                ) > u64::MAX);
                                assert(bucket_overflows(grown, timeframe_sec));
                                lemma_overflow_stays(reader@, time_index@, j + 1, timeframe_sec);
                            }
                            return Err(ResampleError::VolumeOverflow);
                        },
                    }
                } else {
                    resampled.push(bar);
                }
            }
            if !merged {
                current_bar = Some(
                    OHLCVBar {
                        timestamp: bar_start,
                        open: item.open,
                        high: item.high,
                        low: item.low,
                        close: item.close,
                        volume: item.volume,
                    },
                );
            }
            proof {
                chosen = grown;
                assert forall|k: int| 0 <= k < resampled@.len() implies {
                    let part = #[trigger] after[k];
                    &&& resampled@[k] == bucket_bar(grown, timeframe_sec, part)
                    &&& volume_sum(grown, part.start, part.end) <= u64::MAX
                } by {
                    if k < parts.len() - 1 {
                        assert(after[k] == parts[k]);
                    }
                }
            }
        }
        j += 1;
    }
    if let Some(bar) = current_bar {
        resampled.push(bar);
    }
    proof {
        assert(time_index@.take(n as int) =~= time_index@);
        let parts = runs(bucket_keys(chosen, timeframe_sec));
        if chosen.len() == 0 {
            assert(parts.len() == 0);
        }
        assert(resampled@ =~= bucket_bars(chosen, timeframe_sec));
        assert(!bucket_overflows(chosen, timeframe_sec)) by {
            if bucket_overflows(chosen, timeframe_sec) {
                let k = choose|k: int|
                    0 <= k < parts.len() && volume_sum(
                        chosen,
                        (#[trigger] parts[k]).start,
                        parts[k].end,
                    ) > u64::MAX;
                if k < parts.len() - 1 {
                    assert(volume_sum(chosen, parts[k].start, parts[k].end) <= u64::MAX);
                }
            }
        }
    }
    Ok(resampled)
}

/// Empty input: over no records, either aggregation gives no bar and no
/// error, whatever the index holds.
pub proof fn lemma_no_records_no_bars(
    time_index: Seq<TimeIndexEntry>,
    daily_index: Seq<DailyIndexEntry>,
    interval: u64,
)
    ensures
        resampled_ohlcv(Seq::empty(), time_index, interval) == Ok::<
            Seq<OHLCVBar>,
            ResampleError,
        >(Seq::empty()),
        resampled_daily(Seq::empty(), daily_index) == Ok::<Seq<OHLCVBar>, ResampleError>(
            Seq::empty(),
        ),
    decreases daily_index.len(),
{
    let none = Seq::<ProcessedRecord>::empty();
    lemma_picked_len(none, time_index);
    assert(picked(none, time_index) =~= none);
    assert(bucket_keys(none, interval) =~= Seq::<int>::empty());
    assert(bucket_bars(none, interval) =~= Seq::<OHLCVBar>::empty());
    if daily_index.len() > 0 {
        lemma_no_records_no_bars(time_index, daily_index.drop_last(), interval);
    }
}

/// Empty index: over an index without entries, either aggregation gives no
/// bar and no error.
pub proof fn lemma_no_entries_no_bars(records: Seq<ProcessedRecord>, interval: u64)
    ensures
        resampled_ohlcv(records, Seq::empty(), interval) == Ok::<Seq<OHLCVBar>, ResampleError>(
            Seq::empty(),
        ),
        resampled_daily(records, Seq::empty()) == Ok::<Seq<OHLCVBar>, ResampleError>(
            Seq::empty(),
        ),
{
    let none = Seq::<ProcessedRecord>::empty();
    assert(bucket_keys(none, interval) =~= Seq::<int>::empty());
    assert(bucket_bars(none, interval) =~= Seq::<OHLCVBar>::empty());
}

/// The calendar-day aggregation over a row-oriented buffer.
pub fn resample_daily_aos(items: &RowReader, daily_index: &[DailyIndexEntry]) -> (r: Result<
    Vec<OHLCVBar>,
    ResampleError,
>)
    ensures
        match r {
            Ok(bars) => resampled_daily(items@, daily_index@) == Ok::<
                Seq<OHLCVBar>,
                ResampleError,
            >(bars@),
            Err(e) => resampled_daily(items@, daily_index@) == Err::<
                Seq<OHLCVBar>,
                ResampleError,
            >(e),
        },
        r matches Ok(bars) ==> stamped_at_midnight(bars@),
{
    let reader = items.reader();
    resample_daily(&reader, daily_index)
}

/// The fixed-width aggregation over a row-oriented buffer.
pub fn resample_ohlcv_aos(items: &RowReader, time_index: &[TimeIndexEntry], timeframe_sec: u64)
    -> (r: Result<Vec<OHLCVBar>, ResampleError>)
    requires
        timeframe_sec > 0,
    ensures
        match r {
            Ok(bars) => resampled_ohlcv(items@, time_index@, timeframe_sec) == Ok::<
                Seq<OHLCVBar>,
                ResampleError,
            >(bars@),
            Err(e) => resampled_ohlcv(items@, time_index@, timeframe_sec) == Err::<
                Seq<OHLCVBar>,
                ResampleError,
            >(e),
        },
{
    let reader = items.reader();
    resample_ohlcv(&reader, time_index, timeframe_sec)
}

/// The calendar-day aggregation over a column-oriented buffer.
pub fn resample_daily_soa(data_soa: ColumnReader, daily_index: &[DailyIndexEntry]) -> (r: Result<
    Vec<OHLCVBar>,
    ResampleError,
>)
    ensures
        match r {
            Ok(bars) => resampled_daily(data_soa@, daily_index@) == Ok::<
                Seq<OHLCVBar>,
                ResampleError,
            >(bars@),
            Err(e) => resampled_daily(data_soa@, daily_index@) == Err::<
                Seq<OHLCVBar>,
                ResampleError,
            >(e),
        },
        r matches Ok(bars) ==> stamped_at_midnight(bars@),
{
    let reader = data_soa.reader();
    resample_daily(&reader, daily_index)
}

/// The fixed-width aggregation over a column-oriented buffer.
pub fn resample_ohlcv_soa(
    data_soa: ColumnReader,
    time_index: &[TimeIndexEntry],
    timeframe_sec: u64,
) -> (r: Result<Vec<OHLCVBar>, ResampleError>)
    requires
        timeframe_sec > 0,
    ensures
        match r {
            Ok(bars) => resampled_ohlcv(data_soa@, time_index@, timeframe_sec) == Ok::<
                Seq<OHLCVBar>,
                ResampleError,
            >(bars@),
            Err(e) => resampled_ohlcv(data_soa@, time_index@, timeframe_sec) == Err::<
                Seq<OHLCVBar>,
                ResampleError,
            >(e),
        },
{
    let reader = data_soa.reader();
    resample_ohlcv(&reader, time_index, timeframe_sec)
}

} // verus!
