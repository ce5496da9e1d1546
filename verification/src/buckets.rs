//! What the fixed-width aggregation gives, and what holds of it.

use vstd::prelude::*;
use crate::aggregate::{
    highest, lemma_range_aggregates, lemma_range_in_prefix, lowest, range_bar, volume_sum,
};
use crate::error::ResampleError;
use crate::index::TimeIndexEntry;
use crate::record::ProcessedRecord;
use crate::resample::OHLCVBar;
use crate::runs::{Run, is_run_partition, lemma_runs_partition, lemma_runs_push, runs};

verus! {

/// The start of the bucket of width `interval` that a timestamp falls into.
pub open spec fn bucket_start(timestamp: u64, interval: u64) -> u64 {
    (timestamp - timestamp % interval) as u64
}

/// The start of the bucket that a timestamp falls into.
pub fn bucket_of(timestamp: u64, interval: u64) -> (start: u64)
    requires
        interval > 0,
    ensures
        start == bucket_start(timestamp, interval),
        start <= timestamp < start + interval,
        start % interval == 0,
{
    let rest = timestamp % interval;
    assert(rest <= timestamp && (timestamp - rest) % (interval as int) == 0) by (nonlinear_arith)
        requires
            rest == timestamp % interval,
            interval > 0,
    ;
    timestamp - rest
}

/// The records that a time index picks, in the order of its entries. An entry
/// whose position lies past the end of the records picks nothing.
pub open spec fn picked(records: Seq<ProcessedRecord>, index: Seq<TimeIndexEntry>) -> Seq<
    ProcessedRecord,
>
    decreases index.len(),
{
    if index.len() == 0 {
        Seq::empty()
    } else {
        let before = picked(records, index.drop_last());
        let entry = index.last();
        if entry.position < records.len() {
            before.push(records[entry.position as int])
        } else {
            before
        }
    }
}

/// The bucket start of each record of a sequence.
pub open spec fn bucket_keys(records: Seq<ProcessedRecord>, interval: u64) -> Seq<int> {
    Seq::new(records.len(), |i: int| bucket_start(records[i].timestamp, interval) as int)
}

/// The bar of one run of records that share a bucket.
pub open spec fn bucket_bar(records: Seq<ProcessedRecord>, interval: u64, run: Run) -> OHLCVBar {
    range_bar(records, run.start, run.end, bucket_start(records[run.start].timestamp, interval))
}

/// The bars of a record sequence under fixed-width buckets: one bar per
/// maximal run of neighbouring records that fall into one bucket, in order.
/// Records are never reordered, so a bucket that is left and entered again
/// gives two bars.
pub open spec fn bucket_bars(records: Seq<ProcessedRecord>, interval: u64) -> Seq<OHLCVBar> {
    let parts = runs(bucket_keys(records, interval));
    Seq::new(parts.len(), |k: int| bucket_bar(records, interval, parts[k]))
}

/// Whether the volumes of some run add up to more than a bar can hold.
pub open spec fn bucket_overflows(records: Seq<ProcessedRecord>, interval: u64) -> bool {
    let parts = runs(bucket_keys(records, interval));
    exists|k: int|
        0 <= k < parts.len() && volume_sum(records, (#[trigger] parts[k]).start, parts[k].end)
            > u64::MAX
}

/// The outcome of the fixed-width aggregation of the records that a time
/// index picks.
pub open spec fn resampled_ohlcv(
    records: Seq<ProcessedRecord>,
    index: Seq<TimeIndexEntry>,
    interval: u64,
) -> Result<Seq<OHLCVBar>, ResampleError> {
    let chosen = picked(records, index);
    if bucket_overflows(chosen, interval) {
        Err(ResampleError::VolumeOverflow)
    } else {
        Ok(bucket_bars(chosen, interval))
    }
}

/// The bar that a record starts on its own.
pub open spec fn seed_bar(record: ProcessedRecord, interval: u64) -> OHLCVBar {
    OHLCVBar {
        timestamp: bucket_start(record.timestamp, interval),
        open: record.open,
        high: record.high,
        low: record.low,
        close: record.close,
        volume: record.volume,
    }
}

/// A run that ends before the last record is aggregated alike with and
/// without that record.
proof fn lemma_range_before_push(
    records: Seq<ProcessedRecord>,
    record: ProcessedRecord,
    start: int,
    end: int,
)
    requires
        0 <= start <= end < records.len(),
    ensures
        highest(records.push(record), start, end) == highest(records, start, end),
        lowest(records.push(record), start, end) == lowest(records, start, end),
        volume_sum(records.push(record), start, end) == volume_sum(records, start, end),
{
    assert(records.push(record).take(records.len() as int) =~= records);
    lemma_range_in_prefix(records.push(record), records.len() as int, start, end);
}

/// How the runs and their bars change when one record is added behind the
/// others. The runs before the last keep their bars and their volume sums.
/// Where the new record falls into the bucket of the last run, that run takes
/// it: its high and low are held against the record's, its close becomes the
/// record's, its volume sum grows by the record's. Otherwise the record
/// starts a run of its own.
pub proof fn lemma_bucket_push(records: Seq<ProcessedRecord>, record: ProcessedRecord, interval: u64)
    ensures
        ({
            let keys = bucket_keys(records, interval);
            let parts = runs(keys);
            let grown = records.push(record);
            let after = runs(bucket_keys(grown, interval));
            let key = bucket_start(record.timestamp, interval);
            let n = records.len() as int;
            &&& records.len() > 0 ==> parts.len() > 0 && 0 <= parts.last().start <= parts.last().end
                == n - 1 && bucket_start(records[parts.last().start].timestamp, interval)
                == bucket_start(records[n - 1].timestamp, interval)
            &&& forall|k: int|
                0 <= k < parts.len() - 1 ==> #[trigger] after[k] == parts[k] && bucket_bar(
                    grown,
                    interval,
                    parts[k],
                ) == bucket_bar(records, interval, parts[k]) && volume_sum(
                    grown,
                    parts[k].start,
                    parts[k].end,
                ) == volume_sum(records, parts[k].start, parts[k].end)
            &&& if records.len() > 0 && bucket_start(records[n - 1].timestamp, interval) == key {
                let last = parts.last();
                &&& after.len() == parts.len()
                &&& after.last() == Run { start: last.start, end: n }
                &&& volume_sum(grown, last.start, n) == volume_sum(records, last.start, last.end)
                    + record.volume
                &&& highest(grown, last.start, n) == highest(
                    records,
                    last.start,
                    last.end,
                ).higher(record.high)
                &&& lowest(grown, last.start, n) == lowest(records, last.start, last.end).lower(
                    record.low,
                )
                &&& grown[last.start] == records[last.start]
            } else {
                &&& after.len() == parts.len() + 1
                &&& after.last() == Run { start: n, end: n }
                &&& bucket_bar(grown, interval, after.last()) == seed_bar(record, interval)
                &&& volume_sum(grown, n, n) == record.volume
                &&& parts.len() > 0 ==> after[parts.len() - 1] == parts.last() && bucket_bar(
                    grown,
                    interval,
                    parts.last(),
                ) == bucket_bar(records, interval, parts.last()) && volume_sum(
                    grown,
                    parts.last().start,
                    parts.last().end,
                ) == volume_sum(records, parts.last().start, parts.last().end)
            }
        }),
{
    let keys = bucket_keys(records, interval);
    let parts = runs(keys);
    let grown = records.push(record);
    let key = bucket_start(record.timestamp, interval);
    let n = records.len() as int;
    assert(bucket_keys(grown, interval) =~= keys.push(key as int));
    let after = runs(keys.push(key as int));
    lemma_runs_push(keys, key as int);
    lemma_runs_partition(keys);
    if n > 0 {
        assert(keys[parts.last().start] == keys[n - 1]);
    }
    assert forall|k: int| 0 <= k < parts.len() implies bucket_bar(grown, interval, parts[k])
        == bucket_bar(records, interval, parts[k]) && volume_sum(
        grown,
        parts[k].start,
        parts[k].end,
    ) == volume_sum(records, parts[k].start, parts[k].end) by {
        lemma_range_before_push(records, record, parts[k].start, parts[k].end);
    }
    if n > 0 && keys[n - 1] == key {
        let last = parts.last();
        lemma_range_before_push(records, record, last.start, last.end);
    }
}

/// An overflow among the runs of a sequence is still there when a record is
/// added behind it.
pub proof fn lemma_overflow_push(
    records: Seq<ProcessedRecord>,
    record: ProcessedRecord,
    interval: u64,
)
    requires
        bucket_overflows(records, interval),
    ensures
        bucket_overflows(records.push(record), interval),
{
    let parts = runs(bucket_keys(records, interval));
    let grown = records.push(record);
    let after = runs(bucket_keys(grown, interval));
    let k = choose|k: int|
        0 <= k < parts.len() && volume_sum(records, (#[trigger] parts[k]).start, parts[k].end)
            > u64::MAX;
    lemma_bucket_push(records, record, interval);
    if k < parts.len() - 1 {
        assert(after[k] == parts[k]);
        assert(volume_sum(grown, after[k].start, after[k].end) > u64::MAX);
    } else {
        let last = after.len() - 1;
        if after.len() == parts.len() {
            assert(volume_sum(grown, after[k].start, after[k].end) > u64::MAX);
        } else {
            assert(after[k] == parts[k]);
            assert(volume_sum(grown, after[k].start, after[k].end) > u64::MAX);
        }
    }
}

/// An overflow among the records that the first entries of an index pick is
/// still there among those that the whole index picks.
pub proof fn lemma_overflow_stays(
    records: Seq<ProcessedRecord>,
    index: Seq<TimeIndexEntry>,
    len: int,
    interval: u64,
)
    requires
        0 <= len <= index.len(),
        bucket_overflows(picked(records, index.take(len)), interval),
    ensures
        bucket_overflows(picked(records, index), interval),
    decreases index.len() - len,
{
    if len == index.len() {
        assert(index.take(len) =~= index);
    } else {
        assert(index.drop_last().take(len) =~= index.take(len));
        lemma_overflow_stays(records, index.drop_last(), len, interval);
        if index.last().position < records.len() {
            lemma_overflow_push(
                picked(records, index.drop_last()),
                records[index.last().position as int],
                interval,
            );
        }
    }
}

/// Aggregation correctness of the fixed-width buckets: the `k`-th bar stands
/// for the `k`-th run of neighbouring records that share a bucket. Its
/// timestamp is the start of that bucket, and it is the bar of the run's
/// records in the sense of `lemma_range_bar`. The runs follow each other
/// without gap from the first picked record to the last, and neighbouring
/// runs are of different buckets.
pub proof fn lemma_bucket_bar(records: Seq<ProcessedRecord>, interval: u64, k: int)
    requires
        0 <= k < bucket_bars(records, interval).len(),
    ensures
        bucket_bars(records, interval).len() == runs(bucket_keys(records, interval)).len(),
        ({
            let run = runs(bucket_keys(records, interval))[k];
            let bar = bucket_bars(records, interval)[k];
            &&& 0 <= run.start <= run.end < records.len()
            &&& bar == range_bar(records, run.start, run.end, bar.timestamp)
            &&& forall|i: int|
                run.start <= i <= run.end ==> bucket_start(
                    (#[trigger] records[i]).timestamp,
                    interval,
                ) == bar.timestamp
            &&& !bucket_overflows(records, interval) ==> bar.volume == volume_sum(
                records,
                run.start,
                run.end,
            )
        }),
        is_run_partition(bucket_keys(records, interval), runs(bucket_keys(records, interval))),
{
    let keys = bucket_keys(records, interval);
    let parts = runs(keys);
    let run = parts[k];
    lemma_runs_partition(keys);
    lemma_range_aggregates(records, run.start, run.end);
    assert forall|i: int| run.start <= i <= run.end implies bucket_start(
        (#[trigger] records[i]).timestamp,
        interval,
    ) == bucket_bars(records, interval)[k].timestamp by {
        assert(keys[i] == keys[parts[k].start]);
    }
}

/// Boundary tolerance of the time index: an entry whose position lies past
/// the end of the records picks nothing, wherever it stands in the index.
pub proof fn lemma_picked_skips(
    records: Seq<ProcessedRecord>,
    before: Seq<TimeIndexEntry>,
    entry: TimeIndexEntry,
    after: Seq<TimeIndexEntry>,
)
    requires
        entry.position >= records.len(),
    ensures
        picked(records, before.push(entry) + after) == picked(records, before + after),
    decreases after.len(),
{
    if after.len() == 0 {
        assert(before.push(entry) + after =~= before.push(entry));
        assert(before + after =~= before);
        assert(before.push(entry).drop_last() =~= before);
    } else {
        lemma_picked_skips(records, before, entry, after.drop_last());
        assert((before.push(entry) + after).drop_last() =~= before.push(entry) + after.drop_last());
        assert((before + after).drop_last() =~= before + after.drop_last());
    }
}

/// Every picked record is a record of the buffer, and no more are picked
/// than the index has entries.
pub proof fn lemma_picked_len(records: Seq<ProcessedRecord>, index: Seq<TimeIndexEntry>)
    ensures
        picked(records, index).len() <= index.len(),
        records.len() == 0 ==> picked(records, index).len() == 0,
    decreases index.len(),
{
    if index.len() > 0 {
        lemma_picked_len(records, index.drop_last());
    }
}

} // verus!
