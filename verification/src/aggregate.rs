//! The bar of a range of records: what its fields are, and how it is computed.

use vstd::prelude::*;
use crate::error::ResampleError;
use crate::reader::StorageReader;
use crate::record::ProcessedRecord;
use crate::price::Price;
use crate::resample::OHLCVBar;

verus! {

/// The highest `high` among the records from `start` to `end`, both included.
pub open spec fn highest(records: Seq<ProcessedRecord>, start: int, end: int) -> Price
    decreases end - start,
{
    if end <= start {
        records[start].high
    } else {
        highest(records, start, end - 1).higher(records[end].high)
    }
}

/// The lowest `low` among the records from `start` to `end`, both included.
pub open spec fn lowest(records: Seq<ProcessedRecord>, start: int, end: int) -> Price
    decreases end - start,
{
    if end <= start {
        records[start].low
    } else {
        lowest(records, start, end - 1).lower(records[end].low)
    }
}

/// The volumes of the records from `start` to `end`, both included, added up.
pub open spec fn volume_sum(records: Seq<ProcessedRecord>, start: int, end: int) -> int
    decreases end - start,
{
    if end <= start {
        records[start].volume as int
    } else {
        volume_sum(records, start, end - 1) + records[end].volume
    }
}

/// The bar of the records from `start` to `end`, both included, under a
/// given bucket start. Its volume is the sum where a bar can hold it.
pub open spec fn range_bar(
    records: Seq<ProcessedRecord>,
    start: int,
    end: int,
    timestamp: u64,
) -> OHLCVBar {
    OHLCVBar {
        timestamp,
        open: records[start].open,
        high: highest(records, start, end),
        low: lowest(records, start, end),
        close: records[end].close,
        volume: volume_sum(records, start, end) as u64,
    }
}

/// What the aggregates of a range are: the highest high is the high of one
/// of its records and no record's high lies above it; the lowest low is the
/// low of one of its records and none lies below it; the volume sum is not
/// below the sum over any shorter range from the same start, and none of
/// these sums is negative.
pub proof fn lemma_range_aggregates(records: Seq<ProcessedRecord>, start: int, end: int)
    requires
        0 <= start <= end < records.len(),
    ensures
        forall|i: int|
            start <= i <= end ==> (#[trigger] records[i]).high.rank() <= highest(
                records,
                start,
                end,
            ).rank(),
        exists|i: int| start <= i <= end && highest(records, start, end) == records[i].high,
        forall|i: int|
            start <= i <= end ==> (#[trigger] records[i]).low.rank() >= lowest(
                records,
                start,
                end,
            ).rank(),
        exists|i: int| start <= i <= end && lowest(records, start, end) == records[i].low,
        forall|i: int|
            start <= i <= end ==> 0 <= #[trigger] volume_sum(records, start, i) <= volume_sum(
                records,
                start,
                end,
            ),
    decreases end - start,
{
    if end > start {
        lemma_range_aggregates(records, start, end - 1);
        let hi = choose|i: int|
            start <= i <= end - 1 && highest(records, start, end - 1) == records[i].high;
        let lo = choose|i: int|
            start <= i <= end - 1 && lowest(records, start, end - 1) == records[i].low;
        if highest(records, start, end) == records[end].high {
            assert(start <= end <= end && highest(records, start, end) == records[end].high);
        } else {
            assert(start <= hi <= end && highest(records, start, end) == records[hi].high);
        }
        if lowest(records, start, end) == records[end].low {
            assert(start <= end <= end && lowest(records, start, end) == records[end].low);
        } else {
            assert(start <= lo <= end && lowest(records, start, end) == records[lo].low);
        }
        assert forall|i: int| start <= i <= end implies 0 <= #[trigger] volume_sum(
            records,
            start,
            i,
        ) <= volume_sum(records, start, end) by {
            if i < end {
                assert(volume_sum(records, start, i) <= volume_sum(records, start, end - 1));
            }
        }
    } else {
        assert(start <= start <= end && highest(records, start, end) == records[start].high);
        assert(start <= start <= end && lowest(records, start, end) == records[start].low);
    }
}

/// A range is aggregated alike in a sequence and in any longer one that
/// begins with it.
pub proof fn lemma_range_in_prefix(
    whole: Seq<ProcessedRecord>,
    len: int,
    start: int,
    end: int,
)
    requires
        0 <= start <= end < len <= whole.len(),
    ensures
        highest(whole.take(len), start, end) == highest(whole, start, end),
        lowest(whole.take(len), start, end) == lowest(whole, start, end),
        volume_sum(whole.take(len), start, end) == volume_sum(whole, start, end),
    decreases end - start,
{
    if end > start {
        lemma_range_in_prefix(whole, len, start, end - 1);
    }
}

/// Aggregation correctness of one bar over a range: its open is the open of
/// the first record and its close the close of the last; its high is the high
/// of one of the records and no record's high lies above it; its low is the
/// low of one of the records and none lies below it; its volume is the sum of
/// their volumes, where a bar can hold that sum.
pub proof fn lemma_range_bar(
    records: Seq<ProcessedRecord>,
    start: int,
    end: int,
    timestamp: u64,
)
    requires
        0 <= start <= end < records.len(),
    ensures
        range_bar(records, start, end, timestamp).timestamp == timestamp,
        range_bar(records, start, end, timestamp).open == records[start].open,
        range_bar(records, start, end, timestamp).close == records[end].close,
        forall|i: int|
            start <= i <= end ==> (#[trigger] records[i]).high.rank() <= range_bar(
                records,
                start,
                end,
                timestamp,
            ).high.rank(),
        exists|i: int|
            start <= i <= end && range_bar(records, start, end, timestamp).high
                == records[i].high,
        forall|i: int|
            start <= i <= end ==> (#[trigger] records[i]).low.rank() >= range_bar(
                records,
                start,
                end,
                timestamp,
            ).low.rank(),
        exists|i: int|
            start <= i <= end && range_bar(records, start, end, timestamp).low == records[i].low,
        volume_sum(records, start, end) <= u64::MAX ==> range_bar(
            records,
            start,
            end,
            timestamp,
        ).volume == volume_sum(records, start, end),
{
    lemma_range_aggregates(records, start, end);
    assert(0 <= volume_sum(records, start, end));
}

/// Aggregates the records of `reader` from `start` to `end`, both included,
/// into one bar with the given bucket start.
pub fn aggregate_range(reader: &StorageReader, start: usize, end: usize, timestamp: u64) -> (r:
    Result<OHLCVBar, ResampleError>)
    requires
        start <= end < reader@.len(),
    ensures
        match r {
            Ok(bar) => {
                &&& volume_sum(reader@, start as int, end as int) <= u64::MAX
                &&& bar == range_bar(reader@, start as int, end as int, timestamp)
            },
            Err(e) => {
                &&& e == ResampleError::VolumeOverflow
                &&& volume_sum(reader@, start as int, end as int) > u64::MAX
            },
        },
{
    let first = reader.get(start);
    let mut bar = OHLCVBar {
        timestamp,
        open: first.open,
        high: first.high,
        low: first.low,
        close: first.close,
        volume: first.volume,
    };
    let mut i: usize = start;
    while i < end
        invariant
            start <= i <= end < reader@.len(),
            0 <= volume_sum(reader@, start as int, i as int) <= u64::MAX,
            bar == range_bar(reader@, start as int, i as int, timestamp),
        decreases end - i,
    {
        i += 1;
        let item = reader.get(i);
        proof {
            let recs = reader@;
            assert(volume_sum(recs, start as int, i as int) == volume_sum(
                recs,
                start as int,
                i - 1,
            ) + recs[i as int].volume);
            assert(highest(recs, start as int, i as int) == highest(
                recs,
                start as int,
                i - 1,
            ).higher(recs[i as int].high));
            assert(lowest(recs, start as int, i as int) == lowest(recs, start as int, i - 1).lower(
                recs[i as int].low,
            ));
        }
        match bar.volume.checked_add(item.volume) {
            Some(volume) => {
                bar = OHLCVBar {
                    timestamp: bar.timestamp,
                    open: bar.open,
                    high: bar.high.max(item.high),
                    low: bar.low.min(item.low),
                    close: item.close,
                    volume,
                };
            },
            None => {
                proof {
                    lemma_range_aggregates(reader@, start as int, end as int);
                    assert(volume_sum(reader@, start as int, i as int) <= volume_sum(
                        reader@,
                        start as int,
                        end as int,
                    ));
                }
                return Err(ResampleError::VolumeOverflow);
            },
        }
    }
    Ok(bar)
}

} // verus!
