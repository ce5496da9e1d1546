//! What the calendar-day aggregation gives, and what holds of it.

use vstd::prelude::*;
use crate::aggregate::{range_bar, volume_sum};
use crate::error::{DateError, ResampleError};
use crate::index::DailyIndexEntry;
use crate::record::ProcessedRecord;
use crate::resample::OHLCVBar;
use crate::utils::date_timestamp;

verus! {

/// Whether a daily entry names rows that the records hold: its first row is
/// not behind its last, and neither lies past the end.
pub open spec fn day_in_range(entry: DailyIndexEntry, count: nat) -> bool {
    entry.start_position <= entry.end_position && entry.end_position < count
}

/// The outcome of the calendar-day aggregation: the entries are taken in
/// order; one that names rows out of range adds nothing; each other adds the
/// bar of its rows under the midnight of its date. The first entry in range
/// whose date cannot be read back, or whose volumes a bar cannot hold, ends
/// the aggregation with that error.
pub open spec fn resampled_daily(records: Seq<ProcessedRecord>, index: Seq<DailyIndexEntry>)
    -> Result<Seq<OHLCVBar>, ResampleError>
    decreases index.len(),
{
    if index.len() == 0 {
        Ok(Seq::empty())
    } else {
        match resampled_daily(records, index.drop_last()) {
            Err(e) => Err(e),
            Ok(bars) => {
                let entry = index.last();
                let start = entry.start_position as int;
                let end = entry.end_position as int;
                if !day_in_range(entry, records.len()) {
                    Ok(bars)
                } else {
                    match date_timestamp(entry.date@) {
                        Err(cause) => Err(
                            ResampleError::BadDate { entry: (index.len() - 1) as usize, cause },
                        ),
                        Ok(timestamp) => if volume_sum(records, start, end) > u64::MAX {
                            Err(ResampleError::VolumeOverflow)
                        } else {
                            Ok(bars.push(range_bar(records, start, end, timestamp)))
                        },
                    }
                }
            },
        }
    }
}

/// Whether every bar carries the timestamp of a midnight in UTC.
pub open spec fn stamped_at_midnight(bars: Seq<OHLCVBar>) -> bool {
    forall|k: int| 0 <= k < bars.len() ==> (#[trigger] bars[k]).timestamp % 86_400 == 0
}

/// Once the aggregation has failed on the first entries of an index, it fails
/// alike on the whole index.
pub proof fn lemma_daily_error_stays(
    records: Seq<ProcessedRecord>,
    index: Seq<DailyIndexEntry>,
    len: int,
)
    requires
        0 <= len <= index.len(),
        resampled_daily(records, index.take(len)).is_err(),
    ensures
        resampled_daily(records, index) == resampled_daily(records, index.take(len)),
    decreases index.len() - len,
{
    if len == index.len() {
        assert(index.take(len) =~= index);
    } else {
        assert(index.drop_last().take(len) =~= index.take(len));
        lemma_daily_error_stays(records, index.drop_last(), len);
    }
}

/// The daily entries that name rows which the records hold, in order.
pub open spec fn days_in_range(index: Seq<DailyIndexEntry>, count: nat) -> Seq<DailyIndexEntry>
    decreases index.len(),
{
    if index.len() == 0 {
        Seq::empty()
    } else {
        let before = days_in_range(index.drop_last(), count);
        if day_in_range(index.last(), count) {
            before.push(index.last())
        } else {
            before
        }
    }
}

/// Whether `bar` is the bar of a daily entry: the entry names rows in range,
/// the bar's timestamp is the midnight of the entry's date, and the bar is
/// the bar of the entry's rows, whose volumes it can hold.
pub open spec fn is_day_bar(records: Seq<ProcessedRecord>, day: DailyIndexEntry, bar: OHLCVBar)
    -> bool {
    &&& day_in_range(day, records.len())
    &&& date_timestamp(day.date@) == Ok::<u64, DateError>(bar.timestamp)
    &&& volume_sum(records, day.start_position as int, day.end_position as int) <= u64::MAX
    &&& bar == range_bar(
        records,
        day.start_position as int,
        day.end_position as int,
        bar.timestamp,
    )
}

/// Aggregation correctness and boundary tolerance of the calendar-day
/// buckets: where the aggregation succeeds, there is one bar for each entry
/// that names rows in range, in order, and none for any other entry. Each
/// bar is the bar of its entry's rows, under the midnight of its entry's date.
pub proof fn lemma_daily_bars(records: Seq<ProcessedRecord>, index: Seq<DailyIndexEntry>)
    ensures
        resampled_daily(records, index) matches Ok(bars) ==> {
            &&& bars.len() == days_in_range(index, records.len()).len()
            &&& forall|k: int|
                0 <= k < bars.len() ==> is_day_bar(
                    records,
                    days_in_range(index, records.len())[k],
                    #[trigger] bars[k],
                )
        },
    decreases index.len(),
{
    if index.len() > 0 {
        lemma_daily_bars(records, index.drop_last());
        match resampled_daily(records, index) {
            Ok(bars) => {
                let front = resampled_daily(records, index.drop_last()).unwrap();
                let days = days_in_range(index, records.len());
                let days_front = days_in_range(index.drop_last(), records.len());
                let entry = index.last();
                if day_in_range(entry, records.len()) {
                    let timestamp = date_timestamp(entry.date@).unwrap();
                    let bar = range_bar(
                        records,
                        entry.start_position as int,
                        entry.end_position as int,
                        timestamp,
                    );
                    assert(bars == front.push(bar));
                    assert(days == days_front.push(entry));
                    assert forall|k: int| 0 <= k < bars.len() implies is_day_bar(
                        records,
                        days[k],
                        #[trigger] bars[k],
                    ) by {
                        if k < front.len() {
                            assert(is_day_bar(records, days_front[k], front[k]));
                        } else {
                            assert(bars[k] == bar);
                            assert(days[k] == entry);
                        }
                    }
                } else {
                    assert(bars == front);
                    assert(days == days_front);
                }
            },
            Err(_) => {},
        }
    }
}

} // verus!
