//! The conversion pass: from parsed rows to a storage buffer and its index.

use vstd::prelude::*;
use crate::encoder::encode;
use crate::error::{ConvertError, DateError};
use crate::index::{DailyIndexEntry, FullIndex, ProcessedData, TimeIndexEntry, TimeframeSeries};
use crate::index_builder::{
    IndexBuilder, is_daily_index, is_timeframe_index, opens_unnamed_day, time_entries,
};
use crate::layout::{Layout, encoding};
use crate::record::{CsvRecord, ProcessedRecord};
use crate::utils::{parse_row_timestamp, row_timestamp};

verus! {

/// The record of a row whose date and time gave `timestamp`.
pub open spec fn record_of_row(row: CsvRecord, timestamp: u64) -> ProcessedRecord {
    ProcessedRecord {
        timestamp,
        open: row.open,
        high: row.high,
        low: row.low,
        close: row.close,
        volume: row.volume,
    }
}

/// The timestamps of a record sequence, in order.
pub open spec fn timestamps_of(records: Seq<ProcessedRecord>) -> Seq<u64> {
    Seq::new(records.len(), |i: int| records[i].timestamp)
}

/// The outcome of converting a row sequence. The rows are taken in order.
/// The first row whose date and time cannot be read, or which opens a
/// calendar day that cannot be named, ends the conversion with its error:
/// nothing is kept of the rows before it. Otherwise each row gives one
/// record, in row order.
pub open spec fn converted(rows: Seq<CsvRecord>) -> Result<Seq<ProcessedRecord>, ConvertError>
    decreases rows.len(),
{
    if rows.len() == 0 {
        Ok(Seq::empty())
    } else {
        match converted(rows.drop_last()) {
            Err(e) => Err(e),
            Ok(records) => {
                let row = rows.last();
                let place = (rows.len() - 1) as usize;
                match row_timestamp(row.date@, row.time@) {
                    Err(cause) => Err(ConvertError { row: place, cause }),
                    Ok(timestamp) => if opens_unnamed_day(timestamps_of(records), timestamp) {
                        Err(ConvertError { row: place, cause: DateError::OutOfRange })
                    } else {
                        Ok(records.push(record_of_row(row, timestamp)))
                    },
                }
            },
        }
    }
}

/// Once the conversion has failed on the first rows, it fails alike on all.
pub proof fn lemma_convert_error_stays(rows: Seq<CsvRecord>, len: int)
    requires
        0 <= len <= rows.len(),
        converted(rows.take(len)).is_err(),
    ensures
        converted(rows) == converted(rows.take(len)),
    decreases rows.len() - len,
{
    if len == rows.len() {
        assert(rows.take(len) =~= rows);
    } else {
        assert(rows.drop_last().take(len) =~= rows.take(len));
        lemma_convert_error_stays(rows.drop_last(), len);
    }
}

/// A conversion that succeeds gives one record per row.
pub proof fn lemma_converted_len(rows: Seq<CsvRecord>)
    ensures
        converted(rows) matches Ok(records) ==> records.len() == rows.len(),
    decreases rows.len(),
{
    if rows.len() > 0 {
        lemma_converted_len(rows.drop_last());
    }
}

/// Turns parsed rows into records and builds the three indices over them,
/// in one pass in row order.
pub fn process_csv_records(rows: &[CsvRecord]) -> (r: Result<
    (ProcessedData, Vec<ProcessedRecord>),
    ConvertError,
>)
    ensures
        match r {
            Ok((data, raw_data)) => {
                &&& converted(rows@) == Ok::<Seq<ProcessedRecord>, ConvertError>(raw_data@)
                &&& data.time_index@ == time_entries(timestamps_of(raw_data@))
                &&& is_daily_index(data.daily_index@, timestamps_of(raw_data@))
                &&& is_timeframe_index(data.timeframe_index@, timestamps_of(raw_data@))
            },
            Err(e) => converted(rows@) == Err::<Seq<ProcessedRecord>, ConvertError>(e),
        },
{
    let n = rows.len();
    let mut builder = IndexBuilder::new();
    let mut raw_data: Vec<ProcessedRecord> = Vec::new();
    let mut i: usize = 0;
    assert(rows@.take(0) =~= Seq::empty());
    assert(timestamps_of(raw_data@) =~= builder.seen());
    while i < n
        invariant
            n == rows@.len(),
            i <= n,
            builder.wf(),
            builder.seen() == timestamps_of(raw_data@),
            converted(rows@.take(i as int)) == Ok::<Seq<ProcessedRecord>, ConvertError>(
                raw_data@,
            ),
        decreases n - i,
    {
        let row = &rows[i];
        proof {
            assert(rows@.take(i + 1).drop_last() =~= rows@.take(i as int));
            assert(rows@.take(i + 1).last() == rows@[i as int]);
            lemma_converted_len(rows@.take(i as int));
        }
        let timestamp = match parse_row_timestamp(row.date.as_str(), row.time.as_str()) {
            Ok(timestamp) => timestamp,
            Err(cause) => {
                proof {
                    lemma_convert_error_stays(rows@, i + 1);
                }
                return Err(ConvertError { row: i, cause });
            },
        };
        match builder.push(timestamp) {
            Ok(_) => {},
            Err(cause) => {
                proof {
                    lemma_convert_error_stays(rows@, i + 1);
                }
                return Err(ConvertError { row: i, cause });
            },
        }
        raw_data.push(
            ProcessedRecord {
                timestamp,
                open: row.open,
                high: row.high,
                low: row.low,
                close: row.close,
                volume: row.volume,
            },
        );
        assert(timestamps_of(raw_data@) =~= builder.seen());
        i += 1;
    }
    assert(rows@.take(n as int) =~= rows@);
    Ok((builder.finish(), raw_data))
}

/// Converts parsed rows into one storage buffer of the layout asked for and
/// the indices over its records. The buffer is built whole in memory.
pub fn save_flatbuffer(rows: &[CsvRecord], storage_format: Layout) -> (r: Result<
    (Vec<u8>, ProcessedData),
    ConvertError,
>)
    ensures
        match r {
            Ok((buffer, data)) => {
                &&& converted(rows@) matches Ok(records)
                &&& buffer@ == encoding(records, storage_format)
                &&& data.time_index@ == time_entries(timestamps_of(records))
                &&& is_daily_index(data.daily_index@, timestamps_of(records))
                &&& is_timeframe_index(data.timeframe_index@, timestamps_of(records))
            },
            Err(e) => converted(rows@) == Err::<Seq<ProcessedRecord>, ConvertError>(e),
        },
{
    match process_csv_records(rows) {
        Ok((data, raw_data)) => {
            let buffer = encode(&raw_data, storage_format);
            Ok((buffer, data))
        },
        Err(e) => Err(e),
    }
}

/// Whether two timeframe indices hold the same labels with the same bucket
/// starts, in the same order.
pub open spec fn same_series(a: Seq<TimeframeSeries>, b: Seq<TimeframeSeries>) -> bool {
    &&& a.len() == b.len()
    &&& forall|k: int|
        0 <= k < a.len() ==> (#[trigger] a[k]).label@ == b[k].label@ && a[k].boundaries@
            == b[k].boundaries@
}

/// Packs copies of the three indices into the full index that is kept
/// beside a storage buffer.
pub fn save_index(
    time_index: &[TimeIndexEntry],
    daily_index: &[DailyIndexEntry],
    timeframe_index: &[TimeframeSeries],
) -> (index: FullIndex)
    ensures
        index.time_index@ == time_index@,
        index.daily_index@ == daily_index@,
        same_series(index.timeframe_index@, timeframe_index@),
{
    let mut times: Vec<TimeIndexEntry> = Vec::new();
    let mut i: usize = 0;
    while i < time_index.len()
        invariant
            i <= time_index@.len(),
            times@ == time_index@.take(i as int),
        decreases time_index@.len() - i,
    {
        times.push(time_index[i]);
        assert(times@ =~= time_index@.take(i + 1));
        i += 1;
    }
    assert(time_index@.take(time_index@.len() as int) =~= time_index@);
    let mut days: Vec<DailyIndexEntry> = Vec::new();
    let mut j: usize = 0;
    while j < daily_index.len()
        invariant
            j <= daily_index@.len(),
            days@ == daily_index@.take(j as int),
        decreases daily_index@.len() - j,
    {
        let entry = &daily_index[j];
        days.push(
            DailyIndexEntry {
                date: entry.date.clone(),
                start_position: entry.start_position,
                end_position: entry.end_position,
            },
        );
        assert(days@ =~= daily_index@.take(j + 1));
        j += 1;
    }
    assert(daily_index@.take(daily_index@.len() as int) =~= daily_index@);
    let mut series: Vec<TimeframeSeries> = Vec::new();
    let mut k: usize = 0;
    while k < timeframe_index.len()
        invariant
            k <= timeframe_index@.len(),
            same_series(series@, timeframe_index@.take(k as int)),
        decreases timeframe_index@.len() - k,
    {
        let entry = &timeframe_index[k];
        let mut boundaries: Vec<u64> = Vec::new();
        let mut b: usize = 0;
        while b < entry.boundaries.len()
            invariant
                b <= entry.boundaries@.len(),
                boundaries@ == entry.boundaries@.take(b as int),
            decreases entry.boundaries@.len() - b,
        {
            boundaries.push(entry.boundaries[b]);
            assert(boundaries@ =~= entry.boundaries@.take(b + 1));
            b += 1;
        }
        assert(entry.boundaries@.take(entry.boundaries@.len() as int) =~= entry.boundaries@);
        series.push(TimeframeSeries { label: entry.label.clone(), boundaries });
        k += 1;
    }
    assert(timeframe_index@.take(timeframe_index@.len() as int) =~= timeframe_index@);
    FullIndex { time_index: times, daily_index: days, timeframe_index: series }
}

/// Converts parsed rows into the pair that is kept for a dataset: the
/// storage buffer and the full index beside it. Nothing is handed out unless
/// every row was converted.
pub fn convert_csv_to_flatbuffer(rows: &[CsvRecord], storage_format: Layout) -> (r: Result<
    (Vec<u8>, FullIndex),
    ConvertError,
>)
    ensures
        match r {
            Ok((buffer, index)) => {
                &&& converted(rows@) matches Ok(records)
                &&& buffer@ == encoding(records, storage_format)
                &&& index.time_index@ == time_entries(timestamps_of(records))
                &&& is_daily_index(index.daily_index@, timestamps_of(records))
                &&& is_timeframe_index(index.timeframe_index@, timestamps_of(records))
            },
            Err(e) => converted(rows@) == Err::<Seq<ProcessedRecord>, ConvertError>(e),
        },
{
    match save_flatbuffer(rows, storage_format) {
        Ok((buffer, data)) => {
            let index = FullIndex {
                time_index: data.time_index,
                daily_index: data.daily_index,
                timeframe_index: data.timeframe_index,
            };
            Ok((buffer, index))
        },
        Err(e) => Err(e),
    }
}

} // verus!
